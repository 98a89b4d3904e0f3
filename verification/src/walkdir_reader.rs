use vstd::prelude::*;
use crate::directory_reader::{DirectoryReader, FileEntry};
use crate::error::Error;
use crate::models::{
    GetImagesResult, GetLibraryContentRequest, ImageInfo, MediaLibrarySource, MetaData,
    MetaDataField, SortColumn, SortDirection,
};
use crate::timestamp::iso8601_utc_of;
use vstd::multiset::Multiset;

verus! {

// ---------------------------------------------------------------------------
// File names and extensions.
//
// The file name is what follows the last `/`; the extension is what follows
// the last `.` of the file name, provided that dot is not its first
// character.  A name without a dot, or opening with its only dot, has no
// extension.
// ---------------------------------------------------------------------------

/// Where the file name begins: just after the last `/`, or at the start.
pub open spec fn name_start(p: Seq<char>) -> int
    decreases p.len(),
{
    if p.len() == 0 {
        0
    } else if p.last() == '/' {
        p.len() as int
    } else {
        name_start(p.drop_last())
    }
}

pub open spec fn file_name_of(p: Seq<char>) -> Seq<char> {
    p.skip(name_start(p))
}

/// The extension of a file name, where it has one.
pub open spec fn extension_of(name: Seq<char>) -> Option<Seq<char>>
    decreases name.len(),
{
    if name.len() <= 1 {
        None
    } else if name.last() == '.' {
        Some(Seq::empty())
    } else {
        match extension_of(name.drop_last()) {
            Some(e) => Some(e.push(name.last())),
            None => None,
        }
    }
}

proof fn lemma_name_start_is(p: Seq<char>, k: int)
    requires
        0 <= k <= p.len(),
        k > 0 ==> p[k - 1] == '/',
        forall|j: int| k <= j < p.len() ==> p[j] != '/',
    ensures
        name_start(p) == k,
    decreases p.len(),
{
    if p.len() == 0 {
    } else if p.last() == '/' {
        assert(k == p.len());
    } else {
        assert(k < p.len());
        lemma_name_start_is(p.drop_last(), k);
    }
}

proof fn lemma_extension_is(name: Seq<char>, d: int)
    requires
        1 <= d < name.len(),
        name[d] == '.',
        forall|j: int| d < j < name.len() ==> name[j] != '.',
    ensures
        extension_of(name) == Some(name.skip(d + 1)),
    decreases name.len(),
{
    if d == name.len() - 1 {
        assert(name.skip(d + 1) =~= Seq::<char>::empty());
    } else {
        assert(name.last() != '.');
        lemma_extension_is(name.drop_last(), d);
        assert(name.drop_last().skip(d + 1).push(name.last()) =~= name.skip(d + 1));
    }
}

proof fn lemma_extension_none(name: Seq<char>)
    requires
        forall|j: int| 1 <= j < name.len() ==> name[j] != '.',
    ensures
        extension_of(name) is None,
    decreases name.len(),
{
    if name.len() > 1 {
        assert(name.last() != '.');
        lemma_extension_none(name.drop_last());
    }
}

fn find_name_start(path: &str) -> (r: usize)
    ensures
        r as int == name_start(path@),
        r <= path@.len(),
{
    let n = path.unicode_len();
    let mut i = n;
    while i > 0
        invariant
            i <= n,
            n == path@.len(),
            forall|j: int| i <= j < n ==> path@[j] != '/',
        decreases i,
    {
        if path.get_char(i - 1) == '/' {
            proof {
                lemma_name_start_is(path@, i as int);
            }
            return i;
        }
        i = i - 1;
    }
    proof {
        lemma_name_start_is(path@, 0);
    }
    0
}

/// The file name a path ends with: what follows its last `/`.
pub fn file_name(path: &str) -> (r: String)
    ensures
        r@ == file_name_of(path@),
{
    let n = path.unicode_len();
    let ns = find_name_start(path);
    let r = path.substring_char(ns, n).to_owned();
    proof {
        assert(file_name_of(path@) =~= path@.subrange(ns as int, n as int));
    }
    r
}

/// The extension of the file a path names, where it has one.
pub fn file_extension(path: &str) -> (r: Option<String>)
    ensures
        r is Some <==> extension_of(file_name_of(path@)) is Some,
        (r matches Some(e) ==> (extension_of(file_name_of(path@)) matches Some(ge) && e@ == ge)),
{
    let n = path.unicode_len();
    let ns = find_name_start(path);
    let ghost name = file_name_of(path@);
    proof {
        assert(name =~= path@.subrange(ns as int, n as int));
    }
    let mut i = n;
    while i > ns
        invariant
            ns <= i <= n,
            n == path@.len(),
            ns as int == name_start(path@),
            name == file_name_of(path@),
            name =~= path@.subrange(ns as int, n as int),
            forall|j: int| i <= j < n ==> path@[j] != '.',
        decreases i,
    {
        if path.get_char(i - 1) == '.' {
            if i - 1 > ns {
                let e = path.substring_char(i, n).to_owned();
                proof {
                    let d = i - 1 - ns;
                    assert(name.len() == n - ns);
                    assert(name[d as int] == path@[i - 1]);
                    assert forall|j: int| d < j < name.len() implies name[j] != '.' by {
                        assert(name[j] == path@[j + ns]);
                    }
                    lemma_extension_is(name, d as int);
                    assert(name.skip(d + 1) =~= path@.subrange(i as int, n as int));
                }
                return Some(e);
            } else {
                // the file name opens with its only dot: no extension
                proof {
                    assert forall|j: int| 1 <= j < name.len() implies name[j] != '.' by {
                        assert(name[j] == path@[j + ns]);
                    }
                    lemma_extension_none(name);
                }
                return None;
            }
        }
        i = i - 1;
    }
    proof {
        assert forall|j: int| 1 <= j < name.len() implies name[j] != '.' by {
            assert(name[j] == path@[j + ns]);
        }
        lemma_extension_none(name);
    }
    None
}

// ---------------------------------------------------------------------------
// Case-insensitive extension matching and the MIME table.
// ---------------------------------------------------------------------------

/// ASCII lower case, character by character.
pub open spec fn lower_char(c: char) -> char {
    match c {
        'A' => 'a',
        'B' => 'b',
        'C' => 'c',
        'D' => 'd',
        'E' => 'e',
        'F' => 'f',
        'G' => 'g',
        'H' => 'h',
        'I' => 'i',
        'J' => 'j',
        'K' => 'k',
        'L' => 'l',
        'M' => 'm',
        'N' => 'n',
        'O' => 'o',
        'P' => 'p',
        'Q' => 'q',
        'R' => 'r',
        'S' => 's',
        'T' => 't',
        'U' => 'u',
        'V' => 'v',
        'W' => 'w',
        'X' => 'x',
        'Y' => 'y',
        'Z' => 'z',
        _ => c,
    }
}

pub open spec fn lower_chars(s: Seq<char>) -> Seq<char> {
    Seq::new(s.len(), |i: int| lower_char(s[i]))
}

fn lower_char_exec(c: char) -> (r: char)
    ensures
        r == lower_char(c),
{
    match c {
        'A' => 'a',
        'B' => 'b',
        'C' => 'c',
        'D' => 'd',
        'E' => 'e',
        'F' => 'f',
        'G' => 'g',
        'H' => 'h',
        'I' => 'i',
        'J' => 'j',
        'K' => 'k',
        'L' => 'l',
        'M' => 'm',
        'N' => 'n',
        'O' => 'o',
        'P' => 'p',
        'Q' => 'q',
        'R' => 'r',
        'S' => 's',
        'T' => 't',
        'U' => 'u',
        'V' => 'v',
        'W' => 'w',
        'X' => 'x',
        'Y' => 'y',
        'Z' => 'z',
        _ => c,
    }
}

/// Does the text, lowered, spell the given (already lower-case) word?
fn eq_lower(e: &str, lit: &str) -> (r: bool)
    ensures
        r == (lower_chars(e@) == lit@),
{
    let n = e.unicode_len();
    if n != lit.unicode_len() {
        assert(lower_chars(e@).len() == e@.len());
        return false;
    }
    let mut i: usize = 0;
    while i < n
        invariant
            i <= n,
            n == e@.len(),
            n == lit@.len(),
            forall|j: int| 0 <= j < i ==> lower_char(e@[j]) == lit@[j],
        decreases n - i,
    {
        if lower_char_exec(e.get_char(i)) != lit.get_char(i) {
            assert(lower_chars(e@)[i as int] != lit@[i as int]);
            return false;
        }
        i = i + 1;
    }
    proof {
        assert(lower_chars(e@) =~= lit@);
    }
    true
}

/// The lowered extensions that count as images.
pub open spec fn is_image_ext(l: Seq<char>) -> bool {
    l == "jpg"@ || l == "jpeg"@ || l == "png"@ || l == "gif"@ || l == "bmp"@ || l == "webp"@ || l
        == "tiff"@
}

/// True when the path names an image file, judged by its extension without
/// regard to case.
pub open spec fn is_image_path(p: Seq<char>) -> bool {
    match extension_of(file_name_of(p)) {
        Some(e) => is_image_ext(lower_chars(e)),
        None => false,
    }
}

pub fn is_image_file(path: &str) -> (r: bool)
    ensures
        r == is_image_path(path@),
{
    match file_extension(path) {
        Some(e) => {
            let s = e.as_str();
            eq_lower(s, "jpg") || eq_lower(s, "jpeg") || eq_lower(s, "png") || eq_lower(s, "gif")
                || eq_lower(s, "bmp") || eq_lower(s, "webp") || eq_lower(s, "tiff")
        },
        None => false,
    }
}

/// The MIME type the path's extension maps to; unknown or missing
/// extensions fall back to the generic binary type.
pub open spec fn mime_of(p: Seq<char>) -> Seq<char> {
    match extension_of(file_name_of(p)) {
        Some(e) => {
            let l = lower_chars(e);
            if l == "jpg"@ || l == "jpeg"@ {
                "image/jpeg"@
            } else if l == "png"@ {
                "image/png"@
            } else if l == "gif"@ {
                "image/gif"@
            } else if l == "bmp"@ {
                "image/bmp"@
            } else if l == "webp"@ {
                "image/webp"@
            } else if l == "tiff"@ {
                "image/tiff"@
            } else {
                "application/octet-stream"@
            }
        },
        None => "application/octet-stream"@,
    }
}

pub fn get_mime_type(path: &str) -> (r: String)
    ensures
        r@ == mime_of(path@),
{
    match file_extension(path) {
        Some(e) => {
            let s = e.as_str();
            if eq_lower(s, "jpg") || eq_lower(s, "jpeg") {
                "image/jpeg".to_owned()
            } else if eq_lower(s, "png") {
                "image/png".to_owned()
            } else if eq_lower(s, "gif") {
                "image/gif".to_owned()
            } else if eq_lower(s, "bmp") {
                "image/bmp".to_owned()
            } else if eq_lower(s, "webp") {
                "image/webp".to_owned()
            } else if eq_lower(s, "tiff") {
                "image/tiff".to_owned()
            } else {
                "application/octet-stream".to_owned()
            }
        },
        None => "application/octet-stream".to_owned(),
    }
}

// ---------------------------------------------------------------------------
// Ordering.
//
// Records are ordered by the requested timestamp column; an absent
// timestamp sorts below every present one.  Entries that compare equal keep
// their discovery order (the sort is stable); with no sort column at all
// the whole listing keeps discovery order.  The sort works on entry
// indices, comparing the encoded key first and the index second, which
// makes the order total and the sorted sequence unique.
// ---------------------------------------------------------------------------

/// The timestamp a request's sort column reads from an entry.
pub open spec fn sort_key(e: FileEntry, col: SortColumn) -> Option<i64> {
    match col {
        SortColumn::DateModified => e.modified_ms,
        SortColumn::DateAdded => e.created_ms,
    }
}

/// An absent timestamp, encoded below every representable one.
pub open spec fn key_int(k: Option<i64>) -> int {
    match k {
        Option::None => (i64::MIN as int) - 1,
        Option::Some(x) => x as int,
    }
}

pub open spec fn descending(req: GetLibraryContentRequest) -> bool {
    req.sort_direction == Some(SortDirection::Descending)
}

/// The key an entry is ordered by under a request: 0 for everything where
/// no column was asked for, else the column's timestamp, negated for a
/// descending listing.
pub open spec fn eff_key(entries: Seq<FileEntry>, req: GetLibraryContentRequest, i: usize) -> int {
    match req.sort_column {
        Option::None => 0,
        Option::Some(c) => {
            let k = key_int(sort_key(entries[i as int], c));
            if descending(req) {
                -k
            } else {
                k
            }
        },
    }
}

/// Index `i` comes no later than index `j`: a smaller key, or an equal key
/// and no later discovery.
pub open spec fn idx_le(
    entries: Seq<FileEntry>,
    req: GetLibraryContentRequest,
    i: usize,
    j: usize,
) -> bool {
    eff_key(entries, req, i) < eff_key(entries, req, j) || (eff_key(entries, req, i) == eff_key(
        entries,
        req,
        j,
    ) && i <= j)
}

pub open spec fn idx_leq_fn(entries: Seq<FileEntry>, req: GetLibraryContentRequest) -> spec_fn(
    usize,
    usize,
) -> bool {
    |i: usize, j: usize| idx_le(entries, req, i, j)
}

pub proof fn lemma_idx_leq_total(entries: Seq<FileEntry>, req: GetLibraryContentRequest)
    ensures
        vstd::relations::total_ordering(idx_leq_fn(entries, req)),
{
    let leq = idx_leq_fn(entries, req);
    assert forall|a: usize| #[trigger] leq(a, a) by {
        assert(idx_le(entries, req, a, a));
    }
    assert forall|a: usize, b: usize, c: usize| #[trigger] leq(a, b) && #[trigger] leq(b, c)
        implies leq(a, c) by {
        assert(idx_le(entries, req, a, c));
    }
    assert forall|a: usize, b: usize| #[trigger] leq(a, b) && #[trigger] leq(b, a) implies a
        == b by {}
    assert forall|a: usize, b: usize| !(#[trigger] leq(a, b)) implies leq(b, a) by {
        assert(idx_le(entries, req, b, a));
    }
}

pub open spec fn reverse_ord(o: core::cmp::Ordering) -> core::cmp::Ordering {
    match o {
        core::cmp::Ordering::Less => core::cmp::Ordering::Greater,
        core::cmp::Ordering::Equal => core::cmp::Ordering::Equal,
        core::cmp::Ordering::Greater => core::cmp::Ordering::Less,
    }
}

pub open spec fn opt_cmp(a: Option<i64>, b: Option<i64>) -> core::cmp::Ordering {
    if key_int(a) < key_int(b) {
        core::cmp::Ordering::Less
    } else if key_int(a) == key_int(b) {
        core::cmp::Ordering::Equal
    } else {
        core::cmp::Ordering::Greater
    }
}

/// How two entries compare under a request: by the requested column, an
/// absent timestamp first, flipped for a descending listing; with no
/// column requested everything compares equal and discovery order stands.
pub open spec fn spec_sort_entries(
    a: FileEntry,
    b: FileEntry,
    req: GetLibraryContentRequest,
) -> core::cmp::Ordering {
    let o = match req.sort_column {
        Some(c) => opt_cmp(sort_key(a, c), sort_key(b, c)),
        None => core::cmp::Ordering::Equal,
    };
    if descending(req) {
        reverse_ord(o)
    } else {
        o
    }
}

/// Compare two entries as a request orders them.
pub fn sort_entries(
    a: &FileEntry,
    b: &FileEntry,
    request: &GetLibraryContentRequest,
) -> (r: core::cmp::Ordering)
    ensures
        r == spec_sort_entries(*a, *b, *request),
{
    let o = match request.sort_column {
        Some(c) => {
            let ka = match c {
                SortColumn::DateModified => a.modified_ms,
                SortColumn::DateAdded => a.created_ms,
            };
            let kb = match c {
                SortColumn::DateModified => b.modified_ms,
                SortColumn::DateAdded => b.created_ms,
            };
            if opt_lt(ka, kb) {
                core::cmp::Ordering::Less
            } else if opt_eq(ka, kb) {
                core::cmp::Ordering::Equal
            } else {
                core::cmp::Ordering::Greater
            }
        },
        None => core::cmp::Ordering::Equal,
    };
    let desc: bool = match request.sort_direction {
        Some(SortDirection::Descending) => true,
        _ => false,
    };
    if desc {
        match o {
            core::cmp::Ordering::Less => core::cmp::Ordering::Greater,
            core::cmp::Ordering::Equal => core::cmp::Ordering::Equal,
            core::cmp::Ordering::Greater => core::cmp::Ordering::Less,
        }
    } else {
        o
    }
}

/// The comparator and the index order agree: strictly smaller under the
/// comparator is exactly a smaller effective key, equal is exactly an
/// equal one.
pub proof fn lemma_sort_entries_eff_key(
    entries: Seq<FileEntry>,
    req: GetLibraryContentRequest,
    i: usize,
    j: usize,
)
    requires
        i < entries.len(),
        j < entries.len(),
    ensures
        spec_sort_entries(entries[i as int], entries[j as int], req) == core::cmp::Ordering::Less
            <==> eff_key(entries, req, i) < eff_key(entries, req, j),
        spec_sort_entries(entries[i as int], entries[j as int], req) == core::cmp::Ordering::Equal
            <==> eff_key(entries, req, i) == eff_key(entries, req, j),
{
}

fn opt_lt(x: Option<i64>, y: Option<i64>) -> (r: bool)
    ensures
        r == (key_int(x) < key_int(y)),
{
    match (x, y) {
        (Option::None, Option::None) => false,
        (Option::None, Option::Some(_)) => true,
        (Option::Some(_), Option::None) => false,
        (Option::Some(a), Option::Some(b)) => a < b,
    }
}

fn opt_eq(x: Option<i64>, y: Option<i64>) -> (r: bool)
    ensures
        r == (key_int(x) == key_int(y)),
{
    match (x, y) {
        (Option::None, Option::None) => true,
        (Option::Some(a), Option::Some(b)) => a == b,
        _ => false,
    }
}

fn le_idx(
    entries: &Vec<FileEntry>,
    request: &GetLibraryContentRequest,
    a: usize,
    b: usize,
) -> (r: bool)
    requires
        a < entries@.len(),
        b < entries@.len(),
    ensures
        r == idx_le(entries@, *request, a, b),
{
    match request.sort_column {
        None => a <= b,
        Some(c) => {
            let ka = match c {
                SortColumn::DateModified => entries[a].modified_ms,
                SortColumn::DateAdded => entries[a].created_ms,
            };
            let kb = match c {
                SortColumn::DateModified => entries[b].modified_ms,
                SortColumn::DateAdded => entries[b].created_ms,
            };
            let lt = opt_lt(ka, kb);
            let eq = opt_eq(ka, kb);
            let descending_order: bool = match request.sort_direction {
                Some(SortDirection::Descending) => true,
                _ => false,
            };
            if descending_order {
                (!lt && !eq) || (eq && a <= b)
            } else {
                lt || (eq && a <= b)
            }
        },
    }
}

/// Sort a list of entry indices by the requested order, smallest first;
/// the result is exactly `sort_by` of the input under that order.
fn sort_indices(
    entries: &Vec<FileEntry>,
    request: &GetLibraryContentRequest,
    input: Vec<usize>,
) -> (r: Vec<usize>)
    requires
        forall|k: int| 0 <= k < input@.len() ==> #[trigger] input@[k] < entries@.len(),
    ensures
        r@ == input@.sort_by(idx_leq_fn(entries@, *request)),
        forall|k: int| 0 <= k < r@.len() ==> #[trigger] r@[k] < entries@.len(),
{
    broadcast use vstd::seq_lib::group_to_multiset_ensures;

    let ghost leq = idx_leq_fn(entries@, *request);
    proof {
        lemma_idx_leq_total(entries@, *request);
        input@.lemma_sort_by_ensures(leq);
    }
    let ghost ginput = input@;
    let mut rest = input;
    let mut out: Vec<usize> = Vec::new();
    proof {
        assert(out@.to_multiset() =~= Multiset::<usize>::empty());
        assert(out@.to_multiset().add(rest@.to_multiset()) =~= ginput.to_multiset());
    }
    while rest.len() > 0
        invariant
            leq == idx_leq_fn(entries@, *request),
            vstd::relations::total_ordering(leq),
            out@.to_multiset().add(rest@.to_multiset()) == ginput.to_multiset(),
            vstd::relations::sorted_by(out@, leq),
            forall|p: int, q: int|
                0 <= p < out@.len() && 0 <= q < rest@.len() ==> leq(
                    #[trigger] out@[p],
                    #[trigger] rest@[q],
                ),
            forall|k: int| 0 <= k < rest@.len() ==> #[trigger] rest@[k] < entries@.len(),
            forall|k: int| 0 <= k < out@.len() ==> #[trigger] out@[k] < entries@.len(),
        decreases rest@.len(),
    {
        let mut mi: usize = 0;
        let mut j: usize = 1;
        while j < rest.len()
            invariant
                mi < rest@.len(),
                j <= rest@.len(),
                leq == idx_leq_fn(entries@, *request),
                vstd::relations::total_ordering(leq),
                forall|q: int| 0 <= q < j ==> leq(rest@[mi as int], #[trigger] rest@[q]),
                forall|k: int| 0 <= k < rest@.len() ==> #[trigger] rest@[k] < entries@.len(),
            decreases rest@.len() - j,
        {
            if !le_idx(entries, request, rest[mi], rest[j]) {
                assert(leq(rest@[j as int], rest@[mi as int]));
                mi = j;
            }
            j = j + 1;
        }
        let ghost old_out = out@;
        let ghost old_rest = rest@;
        let v = rest.remove(mi);
        out.push(v);
        proof {
            old_rest.to_multiset_ensures();
            old_out.to_multiset_ensures();
            assert(old_rest.to_multiset().count(v) > 0) by {
                assert(old_rest.contains(old_rest[mi as int]));
            }
            assert(out@ == old_out.push(v));
            assert(old_out.push(v).to_multiset() =~= old_out.to_multiset().insert(v));
            assert(rest@ == old_rest.remove(mi as int));
            assert(old_rest.remove(mi as int).to_multiset() =~= old_rest.to_multiset().remove(v));
            assert(out@.to_multiset() =~= old_out.to_multiset().insert(v));
            assert(rest@.to_multiset() =~= old_rest.to_multiset().remove(v));
            assert(out@.to_multiset().add(rest@.to_multiset()) =~= old_out.to_multiset().add(
                old_rest.to_multiset(),
            ));
            assert(vstd::relations::sorted_by(out@, leq)) by {
                assert(forall|p: int| 0 <= p < old_out.len() ==> leq(#[trigger] old_out[p], v));
            }
            assert forall|p: int, q: int|
                0 <= p < out@.len() && 0 <= q < rest@.len() implies leq(
                #[trigger] out@[p],
                #[trigger] rest@[q],
            ) by {
                if q < mi {
                    assert(rest@[q] == old_rest[q]);
                } else {
                    assert(rest@[q] == old_rest[q + 1]);
                }
                if p < out@.len() - 1 {
                    assert(out@[p] == old_out[p]);
                } else {
                    assert(out@[p] == v);
                }
            }
        }
    }
    proof {
        assert(rest@ =~= Seq::<usize>::empty());
        assert(rest@.to_multiset() =~= Multiset::<usize>::empty());
        assert(out@.to_multiset() =~= ginput.to_multiset());
        vstd::seq_lib::lemma_sorted_unique(out@, ginput.sort_by(leq), leq);
        assert(out@ == ginput.sort_by(leq));
    }
    out
}

// ---------------------------------------------------------------------------
// The listing pipeline: filter, sort, paginate, build records.
// ---------------------------------------------------------------------------

/// True when an entry belongs in a listing: a regular file whose extension
/// marks it as an image.
pub open spec fn keeps(e: FileEntry) -> bool {
    e.is_file && is_image_path(e.path@)
}

/// The indices of the first `n` entries that belong in the listing, in
/// discovery order.
pub open spec fn matching_of(entries: Seq<FileEntry>, n: int) -> Seq<usize>
    decreases n,
{
    if n <= 0 {
        Seq::empty()
    } else if keeps(entries[n - 1]) {
        matching_of(entries, n - 1).push((n - 1) as usize)
    } else {
        matching_of(entries, n - 1)
    }
}

/// The collected indices grow strictly and stay below `n`: discovery
/// order is kept and no index repeats.
pub proof fn lemma_matching_increasing(entries: Seq<FileEntry>, n: int)
    requires
        n <= usize::MAX,
    ensures
        forall|k: int|
            0 <= k < matching_of(entries, n).len() ==> (#[trigger] matching_of(entries, n)[k]
                as int) < n,
        forall|p: int, q: int|
            0 <= p < q < matching_of(entries, n).len() ==> matching_of(entries, n)[p]
                < matching_of(entries, n)[q],
    decreases n,
{
    if n > 0 {
        lemma_matching_increasing(entries, n - 1);
        let m = matching_of(entries, n);
        let mp = matching_of(entries, n - 1);
        assert forall|k: int| 0 <= k < m.len() implies (m[k] as int) < n by {
            if keeps(entries[n - 1]) && k == m.len() - 1 {
                assert(m[k] == (n - 1) as usize);
            } else {
                assert(m[k] == mp[k]);
            }
        }
        assert forall|p: int, q: int| 0 <= p < q < m.len() implies m[p] < m[q] by {
            assert(m[p] == mp[p]);
            if keeps(entries[n - 1]) && q == m.len() - 1 {
                assert(m[q] == (n - 1) as usize);
                assert((mp[p] as int) < n - 1);
            } else {
                assert(m[q] == mp[q]);
            }
        }
    }
}

pub open spec fn matching_idx(entries: Seq<FileEntry>) -> Seq<usize> {
    matching_of(entries, entries.len() as int)
}

/// The matching indices, in the requested order.
pub open spec fn sorted_idx(entries: Seq<FileEntry>, req: GetLibraryContentRequest) -> Seq<usize> {
    matching_idx(entries).sort_by(idx_leq_fn(entries, req))
}

/// The requested page: `limit` elements from position `offset`, or what is
/// left; the empty sequence where `offset` runs past the end.
pub open spec fn page_of(s: Seq<usize>, offset: int, limit: int) -> Seq<usize> {
    if offset >= s.len() {
        Seq::empty()
    } else if offset + limit <= s.len() {
        s.subrange(offset, offset + limit)
    } else {
        s.subrange(offset, s.len() as int)
    }
}

/// The metadata a listing attaches to a record: the requested timestamps,
/// rendered as ISO-8601 UTC text, for whichever of the two the filesystem
/// reported.
pub open spec fn meta_matches(m: Option<MetaData>, modified: Option<i64>, created: Option<
    i64,
>) -> bool {
    &&& m matches Some(v)
    &&& crate::models::meta_keys_unique(m.unwrap()@)
    &&& (match (modified, created) {
        (Option::Some(mm), Option::Some(cm)) => {
            let v = m.unwrap()@;
            v.len() == 2 && v[0].0 == MetaDataField::DateModified && v[0].1@ == iso8601_utc_of(mm)
                && v[1].0 == MetaDataField::DateAdded && v[1].1@ == iso8601_utc_of(cm)
        },
        (Option::Some(mm), Option::None) => {
            let v = m.unwrap()@;
            v.len() == 1 && v[0].0 == MetaDataField::DateModified && v[0].1@ == iso8601_utc_of(mm)
        },
        (Option::None, Option::Some(cm)) => {
            let v = m.unwrap()@;
            v.len() == 1 && v[0].0 == MetaDataField::DateAdded && v[0].1@ == iso8601_utc_of(cm)
        },
        (Option::None, Option::None) => m.unwrap()@.len() == 0,
    })
}

/// The timestamps a walk reported, as metadata text.
pub fn get_meta_data(modified: &Option<i64>, created: &Option<i64>) -> (r: Option<MetaData>)
    ensures
        meta_matches(r, *modified, *created),
{
    let mut v: MetaData = Vec::new();
    if let Some(mm) = modified {
        v.push((MetaDataField::DateModified, crate::timestamp::format_iso8601_millis(*mm)));
    }
    if let Some(cm) = created {
        v.push((MetaDataField::DateAdded, crate::timestamp::format_iso8601_millis(*cm)));
    }
    Some(v)
}

/// One listed record for one entry: the native path, a `file://` locator
/// built from it, the MIME type its extension maps to, and the walk's
/// timestamp metadata.
pub open spec fn record_matches(r: ImageInfo, e: FileEntry) -> bool {
    &&& r.path@ == e.path@
    &&& r.content_uri@ == "file://"@ + e.path@
    &&& r.mime_type@ == mime_of(e.path@)
    &&& meta_matches(r.meta_data, e.modified_ms, e.created_ms)
}

fn make_record(e: &FileEntry) -> (r: ImageInfo)
    ensures
        record_matches(r, *e),
{
    ImageInfo {
        path: e.path.clone(),
        content_uri: "file://".to_owned().concat(e.path.as_str()),
        mime_type: get_mime_type(e.path.as_str()),
        meta_data: get_meta_data(&e.modified_ms, &e.created_ms),
    }
}

/// The page of image records a request selects from the walked entries:
/// regular image files, in the requested order, `limit` records from match
/// number `offset` on.
pub fn list_image_records(request: &GetLibraryContentRequest, entries: &Vec<FileEntry>) -> (r: Vec<
    ImageInfo,
>)
    ensures
        ({
            let pg = page_of(
                sorted_idx(entries@, *request),
                request.offset as int,
                request.limit as int,
            );
            &&& r@.len() == pg.len()
            &&& forall|k: int|
                0 <= k < pg.len() ==> record_matches(#[trigger] r@[k], entries@[pg[k] as int])
        }),
{
    let mut idxs: Vec<usize> = Vec::new();
    let mut i: usize = 0;
    while i < entries.len()
        invariant
            i <= entries@.len(),
            idxs@ == matching_of(entries@, i as int),
            forall|k: int| 0 <= k < idxs@.len() ==> #[trigger] idxs@[k] < entries@.len(),
        decreases entries@.len() - i,
    {
        let keep: bool = entries[i].is_file && is_image_file(entries[i].path.as_str());
        if keep {
            idxs.push(i);
        }
        i = i + 1;
    }
    assert(idxs@ == matching_idx(entries@));
    let sorted = sort_indices(entries, request, idxs);
    let ghost gsorted = sorted_idx(entries@, *request);
    assert(sorted@ == gsorted);
    let total = sorted.len();
    let start = if request.offset > total {
        total
    } else {
        request.offset
    };
    let end = if request.limit > total - start {
        total
    } else {
        start + request.limit
    };
    let ghost pg = page_of(gsorted, request.offset as int, request.limit as int);
    proof {
        assert(pg =~= gsorted.subrange(start as int, end as int));
    }
    let mut items: Vec<ImageInfo> = Vec::new();
    let mut k = start;
    while k < end
        invariant
            start <= k <= end,
            end as int <= gsorted.len(),
            sorted@ == gsorted,
            entries@.len() == entries.len(),
            pg == gsorted.subrange(start as int, end as int),
            forall|m: int| 0 <= m < gsorted.len() ==> #[trigger] gsorted[m] < entries@.len(),
            items@.len() == k - start,
            forall|m: int|
                0 <= m < items@.len() ==> record_matches(
                    #[trigger] items@[m],
                    entries@[pg[m] as int],
                ),
        decreases end - k,
    {
        let idx = sorted[k];
        let rec = make_record(&entries[idx]);
        items.push(rec);
        proof {
            assert(pg[k - start] == gsorted[k as int]);
        }
        k = k + 1;
    }
    items
}

// ---------------------------------------------------------------------------
// The recursive enumeration strategy.
// ---------------------------------------------------------------------------

/// The enumeration strategy fed by a recursive walk of the whole subtree
/// under its root.  It serves the pictures-directory source only.
pub struct WalkdirReader {
    pub path: String,
}

impl WalkdirReader {
    pub fn new(path: String) -> (r: Self)
        ensures
            r.path@ == path@,
    {
        WalkdirReader { path }
    }

    /// The page of records the request selects, or
    /// `MediaLibrarySourceNotSupported` for a source this strategy does not
    /// serve.
    pub fn read_entries(&self, request: &GetLibraryContentRequest, entries: &Vec<FileEntry>) -> (r:
        Result<GetImagesResult, Error>)
        ensures
            (r is Ok <==> request.source == MediaLibrarySource::PictureDir),
            (request.source != MediaLibrarySource::PictureDir ==> r == Err::<
                GetImagesResult,
                Error,
            >(Error::MediaLibrarySourceNotSupported(request.source))),
            (r matches Ok(res) ==> ({
                let pg = page_of(
                    sorted_idx(entries@, *request),
                    request.offset as int,
                    request.limit as int,
                );
                &&& res.items@.len() == pg.len()
                &&& forall|k: int|
                    0 <= k < pg.len() ==> record_matches(
                        #[trigger] res.items@[k],
                        entries@[pg[k] as int],
                    )
            })),
    {
        match request.source {
            MediaLibrarySource::PictureDir => Ok(
                GetImagesResult { items: list_image_records(request, entries) },
            ),
            _ => Err(Error::MediaLibrarySourceNotSupported(request.source)),
        }
    }
}

impl DirectoryReader for WalkdirReader {
    fn read_directory(&self, request: &GetLibraryContentRequest, entries: &Vec<FileEntry>) -> (r:
        Result<GetImagesResult, Error>) {
        self.read_entries(request, entries)
    }
}

// ---------------------------------------------------------------------------
// Laws of the listing.
// ---------------------------------------------------------------------------

/// An offset at or past the number of matching files selects the empty
/// page — never an error and never a short read of the wrong files.
pub proof fn lemma_offset_past_matches_empty(
    entries: Seq<FileEntry>,
    req: GetLibraryContentRequest,
)
    requires
        req.offset >= matching_idx(entries).len(),
    ensures
        page_of(sorted_idx(entries, req), req.offset as int, req.limit as int).len() == 0,
{
    broadcast use vstd::seq_lib::group_to_multiset_ensures;

    lemma_idx_leq_total(entries, req);
    matching_idx(entries).lemma_sort_by_ensures(idx_leq_fn(entries, req));
    sorted_idx(entries, req).to_multiset_ensures();
    matching_idx(entries).to_multiset_ensures();
    assert(sorted_idx(entries, req).to_multiset() =~= matching_idx(entries).to_multiset());
    assert(sorted_idx(entries, req).len() == matching_idx(entries).len());
}

/// Record views match pairwise: both records describe the same entry.
pub open spec fn record_views_equal(a: ImageInfo, b: ImageInfo) -> bool {
    &&& a.path@ == b.path@
    &&& a.content_uri@ == b.content_uri@
    &&& a.mime_type@ == b.mime_type@
    &&& (a.meta_data is Some <==> b.meta_data is Some)
    &&& (a.meta_data matches Some(va) ==> (b.meta_data matches Some(vb) && va@.len() == vb@.len()
        && (forall|j: int|
        0 <= j < va@.len() ==> (#[trigger] va@[j]).0 == vb@[j].0 && va@[j].1@ == vb@[j].1@)))
}

/// The listing is deterministic: two listings produced for the same
/// request over the same entries describe the same records in the same
/// order, metadata included.  In particular, re-running an identical
/// request against an unchanged directory yields an identical ordering.
pub proof fn lemma_listing_deterministic(
    r1: Seq<ImageInfo>,
    r2: Seq<ImageInfo>,
    entries: Seq<FileEntry>,
    req: GetLibraryContentRequest,
)
    requires
        ({
            let pg = page_of(sorted_idx(entries, req), req.offset as int, req.limit as int);
            &&& r1.len() == pg.len()
            &&& forall|k: int|
                0 <= k < pg.len() ==> record_matches(#[trigger] r1[k], entries[pg[k] as int])
            &&& r2.len() == pg.len()
            &&& forall|k: int|
                0 <= k < pg.len() ==> record_matches(#[trigger] r2[k], entries[pg[k] as int])
        }),
    ensures
        r1.len() == r2.len(),
        forall|k: int| 0 <= k < r1.len() ==> record_views_equal(#[trigger] r1[k], r2[k]),
{
    let pg = page_of(sorted_idx(entries, req), req.offset as int, req.limit as int);
    assert forall|k: int| 0 <= k < r1.len() implies record_views_equal(#[trigger] r1[k], r2[k]) by {
        assert(record_matches(r1[k], entries[pg[k] as int]));
        assert(record_matches(r2[k], entries[pg[k] as int]));
    }
}

/// Pagination and ordering compose: the page a request selects is exactly
/// the slice `[offset, offset + limit)` of the full, unpaginated ordering
/// of the matching files.
pub proof fn lemma_pagination_composes(
    entries: Seq<FileEntry>,
    req: GetLibraryContentRequest,
)
    ensures
        ({
            let s = sorted_idx(entries, req);
            let full = page_of(s, 0, s.len() as int);
            let pg = page_of(s, req.offset as int, req.limit as int);
            &&& full == s
            &&& (req.offset >= s.len() ==> pg.len() == 0)
            &&& (req.offset < s.len() ==> pg.len() == (if req.offset + req.limit <= s.len() {
                req.limit as int
            } else {
                s.len() - req.offset
            }))
            &&& forall|k: int| 0 <= k < pg.len() ==> #[trigger] pg[k] == full[req.offset + k]
        }),
{
    let s = sorted_idx(entries, req);
    assert(page_of(s, 0, s.len() as int) =~= s);
}

/// A value sitting at two distinct positions of a sequence counts at
/// least twice in its multiset.
proof fn lemma_two_positions_count(s: Seq<usize>, p: int, q: int)
    requires
        0 <= p < q < s.len(),
        s[p] == s[q],
    ensures
        s.to_multiset().count(s[p]) >= 2,
{
    broadcast use vstd::seq_lib::group_to_multiset_ensures;

    let v = s[p];
    let r = s.remove(p);
    assert(r.to_multiset() =~= s.to_multiset().remove(v));
    assert(r[q - 1] == v);
    assert(r.contains(v));
    assert(r.to_multiset().count(v) > 0);
}

/// The sort is stable: where two listed entries carry the same key, the
/// one discovered first is listed first.  Stated over the ordered index
/// sequence: equal keys at two of its positions mean the earlier position
/// holds the smaller (earlier-discovered) entry index.
pub proof fn lemma_listing_stable(
    entries: Seq<FileEntry>,
    req: GetLibraryContentRequest,
    p: int,
    q: int,
)
    requires
        entries.len() <= usize::MAX,
        0 <= p < q < sorted_idx(entries, req).len(),
        eff_key(entries, req, sorted_idx(entries, req)[p]) == eff_key(
            entries,
            req,
            sorted_idx(entries, req)[q],
        ),
    ensures
        sorted_idx(entries, req)[p] < sorted_idx(entries, req)[q],
{
    broadcast use vstd::seq_lib::group_to_multiset_ensures;

    let leq = idx_leq_fn(entries, req);
    let m = matching_idx(entries);
    let s = sorted_idx(entries, req);
    lemma_idx_leq_total(entries, req);
    m.lemma_sort_by_ensures(leq);
    lemma_matching_increasing(entries, entries.len() as int);
    assert(vstd::relations::sorted_by(s, leq));
    assert(leq(s[p], s[q]));
    assert(idx_le(entries, req, s[p], s[q]));
    assert(s[p] <= s[q]);
    if s[p] == s[q] {
        // impossible: the matching indices grow strictly, so no index can
        // count twice
        lemma_two_positions_count(s, p, q);
        assert(m.to_multiset().count(s[p]) >= 2);
        assert(m.contains(s[p]));
        let a = choose|a: int| 0 <= a < m.len() && m[a] == s[p];
        let r = m.remove(a);
        assert(r.to_multiset() =~= m.to_multiset().remove(s[p]));
        assert(r.to_multiset().count(s[p]) > 0);
        assert(r.contains(s[p]));
        let b = choose|b: int| 0 <= b < r.len() && r[b] == s[p];
        if b < a {
            assert(m[b] == s[p]);
            assert(m[b] < m[a]);
        } else {
            assert(m[b + 1] == s[p]);
            assert(m[a] < m[b + 1]);
        }
        assert(false);
    }
}

/// With no sort column requested, every entry compares equal and the
/// listing keeps discovery order exactly: ordering the matching indices
/// changes nothing.
pub proof fn lemma_no_column_keeps_discovery_order(
    entries: Seq<FileEntry>,
    req: GetLibraryContentRequest,
)
    requires
        req.sort_column is None,
        entries.len() <= usize::MAX,
    ensures
        sorted_idx(entries, req) == matching_idx(entries),
{
    let leq = idx_leq_fn(entries, req);
    let m = matching_idx(entries);
    lemma_idx_leq_total(entries, req);
    m.lemma_sort_by_ensures(leq);
    lemma_matching_increasing(entries, entries.len() as int);
    assert(vstd::relations::sorted_by(m, leq)) by {
        assert forall|p: int, q: int| 0 <= p < q < m.len() implies #[trigger] leq(m[p], m[q]) by {
            assert(m[p] < m[q]);
            assert(idx_le(entries, req, m[p], m[q]));
        }
    }
    vstd::seq_lib::lemma_sorted_unique(sorted_idx(entries, req), m, leq);
}

} // verus!
