use vstd::prelude::*;
use crate::error::Error;
use crate::text::{all_ascii, ascii_bytes_to_string, ascii_chars_of, bytes_to_string_or_empty};
use crate::text::utf8_or_empty;
use vstd::utf8::{decode_utf8, encode_utf8, valid_utf8};

verus! {

// ---------------------------------------------------------------------------
// Percent-encoding of bytes.
//
// A byte survives encoding untouched exactly when it is an ASCII
// alphanumeric or one of `-`, `_`, `.`, `~`; every other byte becomes a
// `%XX` triple with upper-case hex digits.  Decoding maps `%XX` (hex digits
// of either case) back to the byte and leaves malformed escapes as literal
// text, dropping nothing.
// ---------------------------------------------------------------------------

pub open spec fn is_unreserved_byte(b: u8) -> bool {
    (0x30 <= b <= 0x39) || (0x41 <= b <= 0x5A) || (0x61 <= b <= 0x7A) || b == 0x2D || b == 0x2E
        || b == 0x5F || b == 0x7E
}

pub open spec fn is_hex_digit(b: u8) -> bool {
    (0x30 <= b <= 0x39) || (0x41 <= b <= 0x46) || (0x61 <= b <= 0x66)
}

pub open spec fn hex_value(b: u8) -> u8 {
    if 0x30 <= b <= 0x39 {
        (b - 0x30) as u8
    } else if 0x41 <= b <= 0x46 {
        (b - 0x41 + 10) as u8
    } else {
        (b - 0x61 + 10) as u8
    }
}

pub open spec fn hex_digit_upper(v: u8) -> u8 {
    if v <= 9 {
        (0x30 + v) as u8
    } else {
        (0x41 + (v - 10)) as u8
    }
}

/// The percent-encoding of one byte.
pub open spec fn pct_encode_byte(b: u8) -> Seq<u8> {
    if is_unreserved_byte(b) {
        seq![b]
    } else {
        seq![0x25, hex_digit_upper(b / 16), hex_digit_upper(b % 16)]
    }
}

/// The percent-encoding of a byte string.
pub open spec fn pct_encode(s: Seq<u8>) -> Seq<u8>
    decreases s.len(),
{
    if s.len() == 0 {
        Seq::empty()
    } else {
        pct_encode_byte(s[0]) + pct_encode(s.drop_first())
    }
}

/// The percent-encoding of a path: `/` separates segments and is kept
/// literal, every other byte is encoded as in `pct_encode`.
pub open spec fn seg_encode(s: Seq<u8>) -> Seq<u8>
    decreases s.len(),
{
    if s.len() == 0 {
        Seq::empty()
    } else if s[0] == 0x2F {
        seq![0x2F] + seg_encode(s.drop_first())
    } else {
        pct_encode_byte(s[0]) + seg_encode(s.drop_first())
    }
}

/// Percent-decoding.  A well-formed `%XX` escape yields its byte; a `%`
/// followed by one hex digit but no second one yields `%` and that digit
/// literally; any other `%` yields a literal `%`.
pub open spec fn pct_decode(s: Seq<u8>) -> Seq<u8>
    decreases s.len(),
{
    if s.len() == 0 {
        Seq::empty()
    } else if s[0] != 0x25 {
        seq![s[0]] + pct_decode(s.drop_first())
    } else if s.len() >= 3 && is_hex_digit(s[1]) && is_hex_digit(s[2]) {
        seq![(hex_value(s[1]) * 16 + hex_value(s[2])) as u8] + pct_decode(s.skip(3))
    } else if s.len() >= 2 && is_hex_digit(s[1]) {
        seq![0x25, s[1]] + pct_decode(s.skip(2))
    } else {
        seq![0x25] + pct_decode(s.skip(1))
    }
}

proof fn lemma_hex_round_trip(b: u8)
    ensures
        is_hex_digit(hex_digit_upper(b / 16)),
        is_hex_digit(hex_digit_upper(b % 16)),
        hex_value(hex_digit_upper(b / 16)) == b / 16,
        hex_value(hex_digit_upper(b % 16)) == b % 16,
        hex_value(hex_digit_upper(b / 16)) * 16 + hex_value(hex_digit_upper(b % 16)) == b,
{
}

/// Decoding undoes encoding, byte string by byte string.
pub proof fn lemma_pct_decode_encode(s: Seq<u8>)
    ensures
        pct_decode(pct_encode(s)) == s,
    decreases s.len(),
{
    if s.len() == 0 {
        assert(pct_decode(pct_encode(s)) =~= s);
    } else {
        let b = s[0];
        let rest = s.drop_first();
        lemma_pct_decode_encode(rest);
        lemma_hex_round_trip(b);
        let e = pct_encode(s);
        if is_unreserved_byte(b) {
            assert(e.drop_first() =~= pct_encode(rest));
            assert(pct_decode(e) =~= seq![b] + pct_decode(pct_encode(rest)));
        } else {
            assert(e[0] == 0x25 && e.len() >= 3);
            assert(e.skip(3) =~= pct_encode(rest));
            assert(pct_decode(e) =~= seq![b] + pct_decode(pct_encode(rest)));
        }
        assert(seq![b] + rest =~= s);
    }
}

/// Decoding undoes segment-wise path encoding as well: `/` is not `%`, so
/// the separators ride through the decoder untouched.
pub proof fn lemma_pct_decode_seg_encode(s: Seq<u8>)
    ensures
        pct_decode(seg_encode(s)) == s,
    decreases s.len(),
{
    if s.len() == 0 {
        assert(pct_decode(seg_encode(s)) =~= s);
    } else {
        let b = s[0];
        let rest = s.drop_first();
        lemma_pct_decode_seg_encode(rest);
        lemma_hex_round_trip(b);
        let e = seg_encode(s);
        if b == 0x2F {
            assert(e.drop_first() =~= seg_encode(rest));
            assert(pct_decode(e) =~= seq![b] + pct_decode(seg_encode(rest)));
        } else if is_unreserved_byte(b) {
            assert(e.drop_first() =~= seg_encode(rest));
            assert(pct_decode(e) =~= seq![b] + pct_decode(seg_encode(rest)));
        } else {
            assert(e[0] == 0x25 && e.len() >= 3);
            assert(e.skip(3) =~= seg_encode(rest));
            assert(pct_decode(e) =~= seq![b] + pct_decode(seg_encode(rest)));
        }
        assert(seq![b] + rest =~= s);
    }
}

// ---------------------------------------------------------------------------
// Executable codec.
// ---------------------------------------------------------------------------

fn hex_upper(v: u8) -> (r: u8)
    requires
        v < 16,
    ensures
        r == hex_digit_upper(v),
{
    if v <= 9 {
        0x30 + v
    } else {
        0x41 + (v - 10)
    }
}

fn hex_digit(b: u8) -> (r: bool)
    ensures
        r == is_hex_digit(b),
{
    (0x30 <= b && b <= 0x39) || (0x41 <= b && b <= 0x46) || (0x61 <= b && b <= 0x66)
}

fn hex_val(b: u8) -> (r: u8)
    requires
        is_hex_digit(b),
    ensures
        r == hex_value(b),
{
    if 0x30 <= b && b <= 0x39 {
        b - 0x30
    } else if 0x41 <= b && b <= 0x46 {
        b - 0x41 + 10
    } else {
        b - 0x61 + 10
    }
}

fn unreserved(b: u8) -> (r: bool)
    ensures
        r == is_unreserved_byte(b),
{
    (0x30 <= b && b <= 0x39) || (0x41 <= b && b <= 0x5A) || (0x61 <= b && b <= 0x7A) || b == 0x2D
        || b == 0x2E || b == 0x5F || b == 0x7E
}

proof fn lemma_pct_encode_one(b: u8)
    ensures
        pct_encode(seq![b]) == pct_encode_byte(b),
{
    assert(seq![b].drop_first() =~= Seq::<u8>::empty());
    assert(pct_encode(Seq::<u8>::empty()) =~= Seq::<u8>::empty());
    assert(pct_encode(seq![b]) =~= pct_encode_byte(b));
}

proof fn lemma_seg_encode_one(b: u8)
    ensures
        seg_encode(seq![b]) == (if b == 0x2F {
            seq![0x2Fu8]
        } else {
            pct_encode_byte(b)
        }),
{
    assert(seq![b].drop_first() =~= Seq::<u8>::empty());
    assert(seg_encode(Seq::<u8>::empty()) =~= Seq::<u8>::empty());
    assert(seg_encode(seq![b]) =~= (if b == 0x2F {
        seq![0x2Fu8]
    } else {
        pct_encode_byte(b)
    }));
}

pub proof fn lemma_pct_encode_concat(a: Seq<u8>, c: Seq<u8>)
    ensures
        pct_encode(a + c) == pct_encode(a) + pct_encode(c),
    decreases a.len(),
{
    if a.len() == 0 {
        assert(a + c =~= c);
        assert(pct_encode(a) =~= Seq::<u8>::empty());
        assert(pct_encode(a + c) =~= pct_encode(a) + pct_encode(c));
    } else {
        lemma_pct_encode_concat(a.drop_first(), c);
        assert((a + c).drop_first() =~= a.drop_first() + c);
        assert((a + c)[0] == a[0]);
        assert(pct_encode(a + c) =~= pct_encode(a) + pct_encode(c));
    }
}

pub proof fn lemma_seg_encode_concat(a: Seq<u8>, c: Seq<u8>)
    ensures
        seg_encode(a + c) == seg_encode(a) + seg_encode(c),
    decreases a.len(),
{
    if a.len() == 0 {
        assert(a + c =~= c);
        assert(seg_encode(a) =~= Seq::<u8>::empty());
        assert(seg_encode(a + c) =~= seg_encode(a) + seg_encode(c));
    } else {
        lemma_seg_encode_concat(a.drop_first(), c);
        assert((a + c).drop_first() =~= a.drop_first() + c);
        assert((a + c)[0] == a[0]);
        assert(seg_encode(a + c) =~= seg_encode(a) + seg_encode(c));
    }
}

proof fn lemma_pct_encode_snoc(s: Seq<u8>, b: u8)
    ensures
        pct_encode(s.push(b)) == pct_encode(s) + pct_encode_byte(b),
{
    assert(s.push(b) =~= s + seq![b]);
    lemma_pct_encode_concat(s, seq![b]);
    lemma_pct_encode_one(b);
}

proof fn lemma_seg_encode_snoc(s: Seq<u8>, b: u8)
    ensures
        seg_encode(s.push(b)) == seg_encode(s) + (if b == 0x2F {
            seq![0x2Fu8]
        } else {
            pct_encode_byte(b)
        }),
{
    assert(s.push(b) =~= s + seq![b]);
    lemma_seg_encode_concat(s, seq![b]);
    lemma_seg_encode_one(b);
}

fn pct_encode_push(out: &mut Vec<u8>, b: u8)
    ensures
        final(out)@ == old(out)@ + pct_encode_byte(b),
{
    if unreserved(b) {
        out.push(b);
        assert(out@ =~= old(out)@ + pct_encode_byte(b));
    } else {
        out.push(0x25);
        out.push(hex_upper(b / 16));
        out.push(hex_upper(b % 16));
        assert(out@ =~= old(out)@ + pct_encode_byte(b));
    }
}

/// Percent-encode a whole byte string.
fn pct_encode_bytes(s: &Vec<u8>) -> (r: Vec<u8>)
    ensures
        r@ == pct_encode(s@),
{
    let mut out: Vec<u8> = Vec::new();
    let mut i: usize = 0;
    while i < s.len()
        invariant
            i <= s@.len(),
            out@ == pct_encode(s@.subrange(0, i as int)),
        decreases s@.len() - i,
    {
        proof {
            lemma_pct_encode_snoc(s@.subrange(0, i as int), s@[i as int]);
            assert(s@.subrange(0, i as int).push(s@[i as int]) =~= s@.subrange(0, i + 1));
        }
        pct_encode_push(&mut out, s[i]);
        i = i + 1;
    }
    proof {
        assert(s@.subrange(0, s@.len() as int) =~= s@);
    }
    out
}

/// Percent-encode a path, keeping `/` separators.
fn seg_encode_bytes(s: &Vec<u8>) -> (r: Vec<u8>)
    ensures
        r@ == seg_encode(s@),
{
    let mut out: Vec<u8> = Vec::new();
    let mut i: usize = 0;
    while i < s.len()
        invariant
            i <= s@.len(),
            out@ == seg_encode(s@.subrange(0, i as int)),
        decreases s@.len() - i,
    {
        proof {
            lemma_seg_encode_snoc(s@.subrange(0, i as int), s@[i as int]);
            assert(s@.subrange(0, i as int).push(s@[i as int]) =~= s@.subrange(0, i + 1));
        }
        if s[i] == 0x2F {
            out.push(0x2F);
        } else {
            pct_encode_push(&mut out, s[i]);
        }
        i = i + 1;
    }
    proof {
        assert(s@.subrange(0, s@.len() as int) =~= s@);
    }
    out
}

/// Percent-decode a byte string.
fn pct_decode_bytes(s: &Vec<u8>) -> (r: Vec<u8>)
    ensures
        r@ == pct_decode(s@),
{
    let mut out: Vec<u8> = Vec::new();
    let mut i: usize = 0;
    proof {
        assert(s@.skip(0) =~= s@);
        assert(Seq::<u8>::empty() + pct_decode(s@) =~= pct_decode(s@));
    }
    while i < s.len()
        invariant
            i <= s@.len(),
            pct_decode(s@) == out@ + pct_decode(s@.skip(i as int)),
        decreases s@.len() - i,
    {
        let ghost tail = s@.skip(i as int);
        assert(tail[0] == s@[i as int]);
        if s[i] != 0x25 {
            proof {
                assert(tail.drop_first() =~= s@.skip(i + 1));
                assert(pct_decode(tail) =~= seq![tail[0]] + pct_decode(s@.skip(i + 1)));
            }
            out.push(s[i]);
            assert(pct_decode(s@) =~= out@ + pct_decode(s@.skip(i + 1)));
            i = i + 1;
        } else if s.len() - i > 2 && hex_digit(s[i + 1]) && hex_digit(s[i + 2]) {
            assert(tail.len() >= 3 && tail[1] == s@[i + 1] && tail[2] == s@[i + 2]);
            proof {
                assert(tail.skip(3) =~= s@.skip(i + 3));
            }
            out.push(hex_val(s[i + 1]) * 16 + hex_val(s[i + 2]));
            assert(pct_decode(s@) =~= out@ + pct_decode(s@.skip(i + 3)));
            i = i + 3;
        } else if s.len() - i > 1 && hex_digit(s[i + 1]) {
            assert(tail.len() == 2 || (tail.len() >= 3 && !is_hex_digit(tail[2])));
            proof {
                assert(tail.skip(2) =~= s@.skip(i + 2));
            }
            out.push(0x25);
            out.push(s[i + 1]);
            assert(pct_decode(s@) =~= out@ + pct_decode(s@.skip(i + 2)));
            i = i + 2;
        } else {
            proof {
                assert(tail.skip(1) =~= s@.skip(i + 1));
            }
            out.push(0x25);
            assert(pct_decode(s@) =~= out@ + pct_decode(s@.skip(i + 1)));
            i = i + 1;
        }
    }
    proof {
        assert(s@.skip(s@.len() as int) =~= Seq::<u8>::empty());
        assert(pct_decode(s@) =~= out@);
    }
    out
}

// ---------------------------------------------------------------------------
// Splitting a raw URI into scheme, host and path text.
//
// The split mirrors how a raw URI string is carved up before its path is
// encoded: an optional scheme part `xxx://` (no `:`, `/`, `?` or `#` before
// the colon, and at least one host character after the slashes), then a host
// part running to the first `/`, `?` or `#`, then the path: the rest of the
// text.  Where no host can be found the whole text is percent-encoded
// instead.
// ---------------------------------------------------------------------------

/// `/`, `?` or `#`: the bytes that end a host.
pub open spec fn is_path_delim(b: u8) -> bool {
    b == 0x2F || b == 0x3F || b == 0x23
}

/// `:`, `/`, `?` or `#`: the bytes that end a scheme candidate.
pub open spec fn is_scheme_delim(b: u8) -> bool {
    b == 0x3A || is_path_delim(b)
}

/// Backslashes turned into forward slashes, all else untouched.
pub open spec fn norm_bytes(s: Seq<u8>) -> Seq<u8> {
    Seq::new(s.len(), |i: int| if s[i] == 0x5C { 0x2Fu8 } else { s[i] })
}

/// The least index at or after `from` holding `/`, `?` or `#`, or the length.
pub open spec fn find_path_delim(s: Seq<u8>, from: int) -> int
    decreases s.len() - from when 0 <= from <= s.len()
{
    if from >= s.len() {
        s.len() as int
    } else if is_path_delim(s[from]) {
        from
    } else {
        find_path_delim(s, from + 1)
    }
}

/// The least index at or after `from` holding `:`, `/`, `?` or `#`, or the length.
pub open spec fn find_scheme_delim(s: Seq<u8>, from: int) -> int
    decreases s.len() - from when 0 <= from <= s.len()
{
    if from >= s.len() {
        s.len() as int
    } else if is_scheme_delim(s[from]) {
        from
    } else {
        find_scheme_delim(s, from + 1)
    }
}

pub proof fn lemma_find_path_delim(s: Seq<u8>, from: int)
    requires
        0 <= from <= s.len(),
    ensures
        from <= find_path_delim(s, from) <= s.len(),
        find_path_delim(s, from) < s.len() ==> is_path_delim(s[find_path_delim(s, from)]),
        forall|j: int| from <= j < find_path_delim(s, from) ==> !is_path_delim(s[j]),
    decreases s.len() - from,
{
    if from < s.len() && !is_path_delim(s[from]) {
        lemma_find_path_delim(s, from + 1);
    }
}

pub proof fn lemma_find_scheme_delim(s: Seq<u8>, from: int)
    requires
        0 <= from <= s.len(),
    ensures
        from <= find_scheme_delim(s, from) <= s.len(),
        find_scheme_delim(s, from) < s.len() ==> is_scheme_delim(s[find_scheme_delim(s, from)]),
        forall|j: int| from <= j < find_scheme_delim(s, from) ==> !is_scheme_delim(s[j]),
    decreases s.len() - from,
{
    if from < s.len() && !is_scheme_delim(s[from]) {
        lemma_find_scheme_delim(s, from + 1);
    }
}

/// Pin `find_path_delim` down where the first delimiter is known.
pub proof fn lemma_find_path_delim_is(s: Seq<u8>, from: int, k: int)
    requires
        0 <= from <= k <= s.len(),
        k < s.len() ==> is_path_delim(s[k]),
        k == s.len() || is_path_delim(s[k]),
        forall|j: int| from <= j < k ==> !is_path_delim(s[j]),
    ensures
        find_path_delim(s, from) == k,
    decreases k - from,
{
    if from < k {
        lemma_find_path_delim_is(s, from + 1, k);
    }
}

/// Pin `find_scheme_delim` down where the first delimiter is known.
pub proof fn lemma_find_scheme_delim_is(s: Seq<u8>, from: int, k: int)
    requires
        0 <= from <= k <= s.len(),
        k == s.len() || is_scheme_delim(s[k]),
        forall|j: int| from <= j < k ==> !is_scheme_delim(s[j]),
    ensures
        find_scheme_delim(s, from) == k,
    decreases k - from,
{
    if from < k {
        lemma_find_scheme_delim_is(s, from + 1, k);
    }
}

/// True when the URI text opens with a scheme-and-host shape
/// `scheme://h...`: a colon after at least one non-delimiter byte, two
/// slashes, and a first host byte that is not `/`, `?` or `#`.
pub open spec fn split_matches_scheme(s: Seq<u8>) -> bool {
    let i = find_scheme_delim(s, 0);
    &&& i < s.len()
    &&& s[i] == 0x3A
    &&& i >= 1
    &&& i + 3 < s.len()
    &&& s[i + 1] == 0x2F
    &&& s[i + 2] == 0x2F
    &&& !is_path_delim(s[i + 3])
}

/// Where the kept prefix (scheme and host) of the URI text ends.
pub open spec fn split_host_end(s: Seq<u8>) -> int {
    if split_matches_scheme(s) {
        find_path_delim(s, find_scheme_delim(s, 0) + 3)
    } else {
        find_path_delim(s, 0)
    }
}

/// The URI text with its path part percent-encoded segment by segment: the
/// scheme and host are kept as written, each byte of the path is encoded
/// unless it is a `/` separator.  Text in which no host can be found is
/// percent-encoded whole.
pub open spec fn spec_with_encoded_path(s: Seq<u8>) -> Seq<u8> {
    if split_matches_scheme(s) || (s.len() > 0 && !is_path_delim(s[0])) {
        s.subrange(0, split_host_end(s)) + seg_encode(s.skip(split_host_end(s)))
    } else {
        pct_encode(s)
    }
}

fn path_delim(b: u8) -> (r: bool)
    ensures
        r == is_path_delim(b),
{
    b == 0x2F || b == 0x3F || b == 0x23
}

fn scan_path_delim(s: &Vec<u8>, from: usize) -> (r: usize)
    requires
        from <= s@.len(),
    ensures
        r as int == find_path_delim(s@, from as int),
        from <= r <= s@.len(),
{
    let mut i = from;
    while i < s.len()
        invariant
            from <= i <= s@.len(),
            find_path_delim(s@, from as int) == find_path_delim(s@, i as int),
        decreases s@.len() - i,
    {
        if path_delim(s[i]) {
            return i;
        }
        i = i + 1;
    }
    i
}

fn scan_scheme_delim(s: &Vec<u8>, from: usize) -> (r: usize)
    requires
        from <= s@.len(),
    ensures
        r as int == find_scheme_delim(s@, from as int),
        from <= r <= s@.len(),
{
    let mut i = from;
    while i < s.len()
        invariant
            from <= i <= s@.len(),
            find_scheme_delim(s@, from as int) == find_scheme_delim(s@, i as int),
        decreases s@.len() - i,
    {
        if s[i] == 0x3A || path_delim(s[i]) {
            return i;
        }
        i = i + 1;
    }
    i
}

fn copy_range(s: &Vec<u8>, a: usize, b: usize) -> (r: Vec<u8>)
    requires
        a <= b <= s@.len(),
    ensures
        r@ == s@.subrange(a as int, b as int),
{
    let mut out: Vec<u8> = Vec::new();
    let mut i = a;
    while i < b
        invariant
            a <= i <= b <= s@.len(),
            out@ == s@.subrange(a as int, i as int),
        decreases b - i,
    {
        out.push(s[i]);
        proof {
            assert(s@.subrange(a as int, i + 1) =~= s@.subrange(a as int, i as int).push(
                s@[i as int],
            ));
        }
        i = i + 1;
    }
    out
}

/// Replace backslashes with forward slashes.
fn normalize_separators(s: &Vec<u8>) -> (r: Vec<u8>)
    ensures
        r@ == norm_bytes(s@),
{
    let mut out: Vec<u8> = Vec::new();
    let mut i: usize = 0;
    while i < s.len()
        invariant
            i <= s@.len(),
            out@ == norm_bytes(s@).subrange(0, i as int),
        decreases s@.len() - i,
    {
        if s[i] == 0x5C {
            out.push(0x2F);
        } else {
            out.push(s[i]);
        }
        proof {
            assert(norm_bytes(s@).subrange(0, i + 1) =~= norm_bytes(s@).subrange(0, i as int).push(
                norm_bytes(s@)[i as int],
            ));
        }
        i = i + 1;
    }
    proof {
        assert(norm_bytes(s@).subrange(0, s@.len() as int) =~= norm_bytes(s@));
    }
    out
}

/// The URI text with its path percent-encoded, as raw bytes.
fn encoded_path_bytes(s: &Vec<u8>) -> (r: Vec<u8>)
    ensures
        r@ == spec_with_encoded_path(s@),
{
    let n = s.len();
    let i = scan_scheme_delim(s, 0);
    proof {
        lemma_find_scheme_delim(s@, 0);
    }
    let scheme_match: bool = i < n && s[i] == 0x3A && i >= 1 && n - i > 3 && s[i + 1] == 0x2F
        && s[i + 2] == 0x2F && !path_delim(s[i + 3]);
    assert(scheme_match == split_matches_scheme(s@));
    if scheme_match {
        let j = scan_path_delim(s, i + 3);
        let mut out = copy_range(s, 0, j);
        let tail = copy_range(s, j, n);
        let mut enc = seg_encode_bytes(&tail);
        out.append(&mut enc);
        proof {
            assert(tail@ =~= s@.skip(j as int));
        }
        out
    } else if n > 0 && !path_delim(s[0]) {
        let j = scan_path_delim(s, 0);
        let mut out = copy_range(s, 0, j);
        let tail = copy_range(s, j, n);
        let mut enc = seg_encode_bytes(&tail);
        out.append(&mut enc);
        proof {
            assert(tail@ =~= s@.skip(j as int));
        }
        out
    } else {
        pct_encode_bytes(s)
    }
}

/// The URI text with its path part percent-encoded: the scheme and host are
/// preserved as written, spaces and other unsafe bytes in the path become
/// `%XX` escapes, and already-encoded text is encoded once more (its `%`
/// becomes `%25`), so that one decoding step returns exactly the original
/// text.
pub fn with_encoded_path(uri: &str) -> (r: String)
    ensures
        r@ == utf8_or_empty(spec_with_encoded_path(encode_utf8(uri@))),
{
    let bytes = uri.as_bytes_vec();
    let enc = encoded_path_bytes(&bytes);
    bytes_to_string_or_empty(enc)
}

// ---------------------------------------------------------------------------
// Parsing the encoded text as a generic URI.
//
// After the path is encoded the text is read back as `scheme ":" hier-part`:
// the scheme must open with a letter and go on with letters, digits, `+`,
// `-` or `.`; a hier-part opening with `//` carries an authority running to
// the next `/`, `?` or `#`, whose bytes must be unreserved characters,
// sub-delimiters, `:`, `@` or well-formed `%XX` escapes; the path allows the
// same bytes plus `/`.  Text without a scheme is still checked as a
// reference, but only ever reported as lacking a `file` scheme or as
// malformed.  Bracketed IP-literal hosts are not accepted.
// ---------------------------------------------------------------------------

pub open spec fn is_alpha(b: u8) -> bool {
    (0x41 <= b <= 0x5A) || (0x61 <= b <= 0x7A)
}

pub open spec fn is_scheme_char(b: u8) -> bool {
    is_alpha(b) || (0x30 <= b <= 0x39) || b == 0x2B || b == 0x2D || b == 0x2E
}

/// `! $ & ' ( ) * + , ; =`
pub open spec fn is_sub_delim(b: u8) -> bool {
    b == 0x21 || b == 0x24 || b == 0x26 || b == 0x27 || b == 0x28 || b == 0x29 || b == 0x2A
        || b == 0x2B || b == 0x2C || b == 0x3B || b == 0x3D
}

pub open spec fn is_auth_char(b: u8) -> bool {
    is_unreserved_byte(b) || is_sub_delim(b) || b == 0x3A || b == 0x40
}

/// A run of URI characters with well-formed `%XX` escapes; `allow_slash`
/// admits `/` (for paths) or not (for authorities).
pub open spec fn valid_pct_run(s: Seq<u8>, allow_slash: bool) -> bool
    decreases s.len(),
{
    if s.len() == 0 {
        true
    } else if s[0] == 0x25 {
        s.len() >= 3 && is_hex_digit(s[1]) && is_hex_digit(s[2]) && valid_pct_run(
            s.skip(3),
            allow_slash,
        )
    } else {
        (is_auth_char(s[0]) || (allow_slash && s[0] == 0x2F)) && valid_pct_run(
            s.drop_first(),
            allow_slash,
        )
    }
}

/// Every byte of a valid run is ASCII.
pub proof fn lemma_valid_pct_run_ascii(s: Seq<u8>, allow_slash: bool)
    requires
        valid_pct_run(s, allow_slash),
    ensures
        all_ascii(s),
    decreases s.len(),
{
    if s.len() == 0 {
    } else if s[0] == 0x25 {
        lemma_valid_pct_run_ascii(s.skip(3), allow_slash);
        assert forall|i: int| 0 <= i < s.len() implies s[i] < 0x80 by {
            if i >= 3 {
                assert(s[i] == s.skip(3)[i - 3]);
            }
        }
    } else {
        lemma_valid_pct_run_ascii(s.drop_first(), allow_slash);
        assert forall|i: int| 0 <= i < s.len() implies s[i] < 0x80 by {
            if i >= 1 {
                assert(s[i] == s.drop_first()[i - 1]);
            }
        }
    }
}

pub open spec fn scheme_colon(r: Seq<u8>) -> int {
    find_scheme_delim(r, 0)
}

/// True when the text has the outer shape of a URI with a scheme: some `:`
/// before any `/`, `?` or `#`.
pub open spec fn has_scheme_shape(r: Seq<u8>) -> bool {
    scheme_colon(r) < r.len() && r[scheme_colon(r)] == 0x3A
}

pub open spec fn scheme_bytes_of(r: Seq<u8>) -> Seq<u8> {
    r.subrange(0, scheme_colon(r))
}

pub open spec fn valid_scheme_bytes(r: Seq<u8>) -> bool {
    &&& scheme_colon(r) >= 1
    &&& is_alpha(r[0])
    &&& forall|j: int| 1 <= j < scheme_colon(r) ==> is_scheme_char(#[trigger] r[j])
}

/// Everything after the scheme's colon.
pub open spec fn after_scheme(r: Seq<u8>) -> Seq<u8> {
    r.skip(scheme_colon(r) + 1)
}

/// True when a hier-part or relative part opens with `//` and an authority.
pub open spec fn has_auth_shape(t: Seq<u8>) -> bool {
    t.len() >= 2 && t[0] == 0x2F && t[1] == 0x2F
}

pub open spec fn auth_end(t: Seq<u8>) -> int {
    find_path_delim(t, 2)
}

pub open spec fn authority_bytes_of(t: Seq<u8>) -> Seq<u8> {
    t.subrange(2, auth_end(t))
}

pub open spec fn path_bytes_of(t: Seq<u8>) -> Seq<u8> {
    if has_auth_shape(t) {
        t.skip(auth_end(t))
    } else {
        t
    }
}

/// A well-formed hier-part (or relative part): the authority, if it is
/// there, and the path check out byte by byte.
pub open spec fn spec_hier_ok(t: Seq<u8>) -> bool {
    if has_auth_shape(t) {
        valid_pct_run(authority_bytes_of(t), false) && valid_pct_run(path_bytes_of(t), true)
    } else {
        valid_pct_run(t, true)
    }
}

/// A well-formed URI or reference.
pub open spec fn spec_parse_ok(r: Seq<u8>) -> bool {
    if has_scheme_shape(r) {
        valid_scheme_bytes(r) && spec_hier_ok(after_scheme(r))
    } else {
        spec_hier_ok(r)
    }
}

pub open spec fn ascii_lower(b: u8) -> u8 {
    if 0x41 <= b <= 0x5A {
        (b + 0x20) as u8
    } else {
        b
    }
}

/// `file`, compared byte for byte without case.
pub open spec fn is_file_scheme(s: Seq<u8>) -> bool {
    s.len() == 4 && ascii_lower(s[0]) == 0x66 && ascii_lower(s[1]) == 0x69 && ascii_lower(s[2])
        == 0x6C && ascii_lower(s[3]) == 0x65
}

// -- the full pipeline, over the characters of the caller's URI text --

/// The caller's URI text, backslashes normalized, as bytes.
pub open spec fn normalized_uri_bytes(u: Seq<char>) -> Seq<u8> {
    norm_bytes(encode_utf8(u))
}

/// The text that is actually parsed: normalized, path encoded.
pub open spec fn spec_recombined(u: Seq<char>) -> Seq<u8> {
    spec_with_encoded_path(normalized_uri_bytes(u))
}

/// True when resolving the URI succeeds: it parses, has a scheme, and the
/// scheme is `file`.
pub open spec fn spec_resolve_ok(u: Seq<char>) -> bool {
    let r = spec_recombined(u);
    spec_parse_ok(r) && has_scheme_shape(r) && is_file_scheme(scheme_bytes_of(r))
}

/// The encoded path bytes the resolved URI carries.
pub open spec fn spec_uri_path_bytes(u: Seq<char>) -> Seq<u8> {
    path_bytes_of(after_scheme(spec_recombined(u)))
}

// ---------------------------------------------------------------------------
// Executable parser.
// ---------------------------------------------------------------------------

fn alpha(b: u8) -> (r: bool)
    ensures
        r == is_alpha(b),
{
    (0x41 <= b && b <= 0x5A) || (0x61 <= b && b <= 0x7A)
}

fn scheme_char(b: u8) -> (r: bool)
    ensures
        r == is_scheme_char(b),
{
    alpha(b) || (0x30 <= b && b <= 0x39) || b == 0x2B || b == 0x2D || b == 0x2E
}

fn auth_char(b: u8) -> (r: bool)
    ensures
        r == is_auth_char(b),
{
    unreserved(b) || b == 0x21 || b == 0x24 || b == 0x26 || b == 0x27 || b == 0x28 || b == 0x29
        || b == 0x2A || b == 0x2B || b == 0x2C || b == 0x3B || b == 0x3D || b == 0x3A || b == 0x40
}

fn check_scheme_chars(s: &Vec<u8>, from: usize, to: usize) -> (r: bool)
    requires
        from <= to <= s@.len(),
    ensures
        r == forall|j: int| from <= j < to ==> is_scheme_char(#[trigger] s@[j]),
{
    let mut i = from;
    while i < to
        invariant
            from <= i <= to <= s@.len(),
            forall|j: int| from <= j < i ==> is_scheme_char(#[trigger] s@[j]),
        decreases to - i,
    {
        if !scheme_char(s[i]) {
            return false;
        }
        i = i + 1;
    }
    true
}

fn check_pct_run(s: &Vec<u8>, allow_slash: bool) -> (r: bool)
    ensures
        r == valid_pct_run(s@, allow_slash),
{
    let mut i: usize = 0;
    proof {
        assert(s@.skip(0) =~= s@);
    }
    while i < s.len()
        invariant
            i <= s@.len(),
            valid_pct_run(s@, allow_slash) == valid_pct_run(s@.skip(i as int), allow_slash),
        decreases s@.len() - i,
    {
        let ghost tail = s@.skip(i as int);
        assert(tail[0] == s@[i as int]);
        if s[i] == 0x25 {
            if s.len() - i > 2 && hex_digit(s[i + 1]) && hex_digit(s[i + 2]) {
                proof {
                    assert(tail.len() >= 3 && tail[1] == s@[i + 1] && tail[2] == s@[i + 2]);
                    assert(tail.skip(3) =~= s@.skip(i + 3));
                }
                i = i + 3;
            } else {
                assert(!valid_pct_run(tail, allow_slash));
                return false;
            }
        } else if auth_char(s[i]) || (allow_slash && s[i] == 0x2F) {
            proof {
                assert(tail.drop_first() =~= s@.skip(i + 1));
            }
            i = i + 1;
        } else {
            assert(!valid_pct_run(tail, allow_slash));
            return false;
        }
    }
    proof {
        assert(s@.skip(s@.len() as int) =~= Seq::<u8>::empty());
    }
    true
}

/// Carve a hier-part (or relative part) into authority and path, checking
/// both; `None` where the text is malformed.
fn parse_hier(t: &Vec<u8>) -> (r: Option<(Option<Vec<u8>>, Vec<u8>)>)
    ensures
        r is Some <==> spec_hier_ok(t@),
        r is Some ==> ({
            let (a, p) = r.unwrap();
            &&& (has_auth_shape(t@) ==> (a matches Some(av) && av@ == authority_bytes_of(t@)))
            &&& (!has_auth_shape(t@) ==> a is None)
            &&& p@ == path_bytes_of(t@)
        }),
{
    let n = t.len();
    if n >= 2 && t[0] == 0x2F && t[1] == 0x2F {
        let ae = scan_path_delim(t, 2);
        let auth = copy_range(t, 2, ae);
        let path = copy_range(t, ae, n);
        proof {
            assert(path@ =~= t@.skip(ae as int));
        }
        if check_pct_run(&auth, false) && check_pct_run(&path, true) {
            Some((Some(auth), path))
        } else {
            None
        }
    } else {
        let path = copy_range(t, 0, n);
        proof {
            assert(path@ =~= t@);
        }
        if check_pct_run(&path, true) {
            Some((None, path))
        } else {
            None
        }
    }
}

/// A URI taken apart: the encoded text it was parsed from, its scheme, its
/// authority where one was written, and its still-encoded path.
pub struct ParsedUri {
    pub raw: String,
    pub scheme: String,
    pub authority: Option<String>,
    pub path: String,
}

/// All the bytes of a parse-accepted URI are ASCII.
proof fn lemma_parse_ok_ascii(r: Seq<u8>)
    requires
        spec_parse_ok(r),
        has_scheme_shape(r),
    ensures
        all_ascii(r),
{
    let k = scheme_colon(r);
    lemma_find_scheme_delim(r, 0);
    let t = after_scheme(r);
    if has_auth_shape(t) {
        lemma_find_path_delim(t, 2);
        lemma_valid_pct_run_ascii(authority_bytes_of(t), false);
        lemma_valid_pct_run_ascii(path_bytes_of(t), true);
    } else {
        lemma_valid_pct_run_ascii(t, true);
    }
    assert forall|i: int| 0 <= i < r.len() implies r[i] < 0x80 by {
        if i < k {
            if i == 0 {
                assert(is_alpha(r[0]));
            } else {
                assert(is_scheme_char(r[i]));
            }
        } else if i == k {
            assert(r[i] == 0x3A);
        } else {
            let m = i - (k + 1);
            assert(t[m] == r[i]);
            if has_auth_shape(t) {
                let ae = auth_end(t);
                if m < 2 {
                    assert(t[m] == 0x2F);
                } else if m < ae {
                    assert(authority_bytes_of(t)[m - 2] == t[m]);
                } else {
                    assert(path_bytes_of(t)[m - ae] == t[m]);
                }
            } else {
                assert(path_bytes_of(t) == t);
            }
        }
    }
}

/// Parse a URI string: normalize backslashes, encode the path part, then
/// read the result as a generic URI and demand the `file` scheme.  The
/// errors mirror the three ways this can fail: text in which no URI can be
/// seen, a reference without any scheme, and a scheme other than `file`.
pub fn parse_uri(uri: &str) -> (r: Result<ParsedUri, Error>)
    ensures
        ({
            let rb = spec_recombined(uri@);
            &&& (r is Ok <==> spec_resolve_ok(uri@))
            &&& (!spec_parse_ok(rb) ==> (r matches Err(Error::ParseUriError(m)) && m@
                == utf8_or_empty(rb)))
            &&& (spec_parse_ok(rb) && !has_scheme_shape(rb) ==> (r matches Err(
                Error::InvalidUriScheme(m),
            ) && m@ == utf8_or_empty(rb)))
            &&& (spec_parse_ok(rb) && has_scheme_shape(rb) && !is_file_scheme(scheme_bytes_of(rb))
                ==> (r matches Err(Error::InvalidUriScheme(m)) && m@ == ascii_chars_of(
                scheme_bytes_of(rb),
            )))
            &&& (r is Ok ==> ({
                let p = r.unwrap();
                let t = after_scheme(rb);
                &&& p.raw@ == ascii_chars_of(rb)
                &&& p.scheme@ == ascii_chars_of(scheme_bytes_of(rb))
                &&& (has_auth_shape(t) ==> (p.authority matches Some(a) && a@ == ascii_chars_of(
                    authority_bytes_of(t),
                ) && encode_utf8(a@) == authority_bytes_of(t)))
                &&& (!has_auth_shape(t) ==> p.authority is None)
                &&& p.path@ == ascii_chars_of(path_bytes_of(t))
                &&& encode_utf8(p.path@) == path_bytes_of(t)
            }))
        }),
{
    let bytes = uri.as_bytes_vec();
    let normd = normalize_separators(&bytes);
    let rb = encoded_path_bytes(&normd);
    let ghost grb = spec_recombined(uri@);
    proof {
        assert(rb@ == grb);
    }
    let n = rb.len();
    let k = scan_scheme_delim(&rb, 0);
    proof {
        lemma_find_scheme_delim(rb@, 0);
    }
    if !(k < n && rb[k] == 0x3A) {
        // No scheme at all: a well-formed reference is reported as
        // lacking a scheme, anything else as unparsable.
        let whole = copy_range(&rb, 0, n);
        proof {
            assert(whole@ =~= rb@);
        }
        if parse_hier(&whole).is_some() {
            return Err(Error::InvalidUriScheme(bytes_to_string_or_empty(rb)));
        } else {
            return Err(Error::ParseUriError(bytes_to_string_or_empty(rb)));
        }
    }
    if !(k >= 1 && alpha(rb[0]) && check_scheme_chars(&rb, 1, k)) {
        assert(!valid_scheme_bytes(rb@));
        return Err(Error::ParseUriError(bytes_to_string_or_empty(rb)));
    }
    let t_vec = copy_range(&rb, k + 1, n);
    proof {
        assert(t_vec@ =~= after_scheme(rb@));
    }
    match parse_hier(&t_vec) {
        None => Err(Error::ParseUriError(bytes_to_string_or_empty(rb))),
        Some((auth, path)) => {
            proof {
                lemma_parse_ok_ascii(rb@);
                assert(rb@.subrange(0, k as int) =~= scheme_bytes_of(rb@));
            }
            let scheme_vec = copy_range(&rb, 0, k);
            let file_scheme: bool = scheme_vec.len() == 4 && lower(scheme_vec[0]) == 0x66 && lower(
                scheme_vec[1],
            ) == 0x69 && lower(scheme_vec[2]) == 0x6C && lower(scheme_vec[3]) == 0x65;
            if !file_scheme {
                assert(!is_file_scheme(scheme_bytes_of(rb@)));
                return Err(Error::InvalidUriScheme(ascii_bytes_to_string(scheme_vec)));
            }
            let authority: Option<String> = match auth {
                Some(a) => {
                    proof {
                        lemma_valid_pct_run_ascii(a@, false);
                        crate::text::lemma_ascii_bytes_utf8(a@);
                    }
                    Some(ascii_bytes_to_string(a))
                },
                None => None,
            };
            proof {
                lemma_valid_pct_run_ascii(path@, true);
                crate::text::lemma_ascii_bytes_utf8(path@);
            }
            Ok(
                ParsedUri {
                    raw: ascii_bytes_to_string(rb),
                    scheme: ascii_bytes_to_string(scheme_vec),
                    authority,
                    path: ascii_bytes_to_string(path),
                },
            )
        },
    }
}

fn lower(b: u8) -> (r: u8)
    ensures
        r == ascii_lower(b),
{
    if 0x41 <= b && b <= 0x5A {
        b + 0x20
    } else {
        b
    }
}

// ---------------------------------------------------------------------------
// Turning a parsed URI into a native path.
// ---------------------------------------------------------------------------

/// The path text a parsed URI decodes to: its percent-decoded path where
/// that is well-formed text, the whole encoded URI otherwise.
pub open spec fn spec_decoded_path(path_chars: Seq<char>, raw: Seq<char>) -> Seq<char> {
    let d = pct_decode(encode_utf8(path_chars));
    if valid_utf8(d) {
        decode_utf8(d)
    } else {
        raw
    }
}

/// Percent-decode the path of a parsed URI back to literal text.
pub fn decode_path(p: &ParsedUri) -> (r: String)
    ensures
        r@ == spec_decoded_path(p.path@, p.raw@),
{
    let bytes = p.path.as_str().as_bytes_vec();
    let dec = pct_decode_bytes(&bytes);
    match crate::text::string_from_utf8(dec) {
        Some(s) => s,
        None => p.raw.clone(),
    }
}

/// The authority of a parsed URI, or empty text where it has none.
pub fn get_authority_as_string(p: &ParsedUri) -> (r: String)
    ensures
        r@ == (match p.authority {
            Some(a) => a@,
            None => Seq::<char>::empty(),
        }),
{
    match &p.authority {
        Some(a) => a.clone(),
        None => String::new(),
    }
}

/// Forward slashes turned into backslashes, all else untouched.
pub open spec fn flip_slashes(s: Seq<u8>) -> Seq<u8> {
    Seq::new(s.len(), |i: int| if s[i] == 0x2F { 0x5Cu8 } else { s[i] })
}

fn flip_separators(s: &Vec<u8>) -> (r: Vec<u8>)
    ensures
        r@ == flip_slashes(s@),
{
    let mut out: Vec<u8> = Vec::new();
    let mut i: usize = 0;
    while i < s.len()
        invariant
            i <= s@.len(),
            out@ == flip_slashes(s@).subrange(0, i as int),
        decreases s@.len() - i,
    {
        if s[i] == 0x2F {
            out.push(0x5C);
        } else {
            out.push(s[i]);
        }
        proof {
            assert(flip_slashes(s@).subrange(0, i + 1) =~= flip_slashes(s@).subrange(
                0,
                i as int,
            ).push(flip_slashes(s@)[i as int]));
        }
        i = i + 1;
    }
    proof {
        assert(flip_slashes(s@).subrange(0, s@.len() as int) =~= flip_slashes(s@));
    }
    out
}

/// The path text a parsed URI decodes to on hosts whose native paths carry
/// the URI authority as a drive prefix and separate with backslashes.
pub open spec fn spec_decoded_path_host_prefixed(
    path_chars: Seq<char>,
    auth_chars: Seq<char>,
    raw: Seq<char>,
) -> Seq<char> {
    let d = pct_decode(encode_utf8(path_chars));
    if valid_utf8(d) {
        utf8_or_empty(encode_utf8(auth_chars) + flip_slashes(d))
    } else {
        raw
    }
}

/// Percent-decode the path, reattach the authority as a prefix and switch
/// to backslash separators.
pub fn decode_path_host_prefixed(p: &ParsedUri) -> (r: String)
    ensures
        r@ == spec_decoded_path_host_prefixed(
            p.path@,
            match p.authority {
                Some(a) => a@,
                None => Seq::<char>::empty(),
            },
            p.raw@,
        ),
{
    let bytes = p.path.as_str().as_bytes_vec();
    let dec = pct_decode_bytes(&bytes);
    let dec_check = copy_range(&dec, 0, dec.len());
    proof {
        assert(dec_check@ =~= dec@);
    }
    match crate::text::string_from_utf8(dec_check) {
        Some(_) => {
            let auth = get_authority_as_string(p);
            let mut out = auth.as_str().as_bytes_vec();
            let mut flipped = flip_separators(&dec);
            out.append(&mut flipped);
            proof {
                if p.authority is None {
                    assert(encode_utf8(Seq::<char>::empty()) =~= Seq::<u8>::empty());
                }
            }
            crate::text::bytes_to_string_or_empty(out)
        },
        None => p.raw.clone(),
    }
}

/// The native path text resolving a URI yields, where it resolves.
pub open spec fn spec_uri_path_posix(u: Seq<char>) -> Seq<char> {
    let rb = spec_recombined(u);
    let pb = path_bytes_of(after_scheme(rb));
    let d = pct_decode(pb);
    if valid_utf8(d) {
        decode_utf8(d)
    } else {
        ascii_chars_of(rb)
    }
}

/// As `spec_uri_path_posix`, for hosts that keep the authority as a path
/// prefix and separate with backslashes.
pub open spec fn spec_uri_path_host_prefixed(u: Seq<char>) -> Seq<char> {
    let rb = spec_recombined(u);
    let t = after_scheme(rb);
    let pb = path_bytes_of(t);
    let d = pct_decode(pb);
    let ab = if has_auth_shape(t) {
        authority_bytes_of(t)
    } else {
        Seq::<u8>::empty()
    };
    if valid_utf8(d) {
        utf8_or_empty(ab + flip_slashes(d))
    } else {
        ascii_chars_of(rb)
    }
}

/// Resolve a URI string to a native filesystem path: parse it, demand the
/// `file` scheme, and percent-decode the path exactly once.  A URI without
/// a scheme or with another scheme is refused as `InvalidUriScheme`; text
/// in which no URI can be seen is refused as `ParseUriError`.  The
/// authority, where one is written, is dropped: on this strategy native
/// paths have no drive prefix.
pub fn uri_to_path(uri: &str) -> (r: Result<String, Error>)
    ensures
        ({
            let rb = spec_recombined(uri@);
            &&& (r is Ok <==> spec_resolve_ok(uri@))
            &&& (r is Ok ==> r.unwrap()@ == spec_uri_path_posix(uri@))
            &&& (!spec_parse_ok(rb) ==> (r matches Err(Error::ParseUriError(m)) && m@
                == utf8_or_empty(rb)))
            &&& (spec_parse_ok(rb) && (!has_scheme_shape(rb) || !is_file_scheme(
                scheme_bytes_of(rb),
            )) ==> r matches Err(Error::InvalidUriScheme(_)))
        }),
{
    match parse_uri(uri) {
        Ok(p) => Ok(decode_path(&p)),
        Err(e) => Err(e),
    }
}

// ---------------------------------------------------------------------------
// Well-formedness of the encoded text.
// ---------------------------------------------------------------------------

proof fn lemma_pct_encode_byte_ascii(b: u8)
    ensures
        forall|i: int|
            0 <= i < pct_encode_byte(b).len() ==> #[trigger] pct_encode_byte(b)[i] < 0x80,
{
}

proof fn lemma_pct_encode_ascii(s: Seq<u8>)
    ensures
        all_ascii(pct_encode(s)),
    decreases s.len(),
{
    if s.len() > 0 {
        lemma_pct_encode_byte_ascii(s[0]);
        lemma_pct_encode_ascii(s.drop_first());
        let head = pct_encode_byte(s[0]);
        let tail = pct_encode(s.drop_first());
        assert forall|i: int| 0 <= i < pct_encode(s).len() implies pct_encode(s)[i] < 0x80 by {
            if i < head.len() {
                assert(pct_encode(s)[i] == head[i]);
            } else {
                assert(pct_encode(s)[i] == tail[i - head.len()]);
            }
        }
    }
}

proof fn lemma_seg_encode_ascii(s: Seq<u8>)
    ensures
        all_ascii(seg_encode(s)),
    decreases s.len(),
{
    if s.len() > 0 {
        lemma_pct_encode_byte_ascii(s[0]);
        lemma_seg_encode_ascii(s.drop_first());
        let head = if s[0] == 0x2F {
            seq![0x2Fu8]
        } else {
            pct_encode_byte(s[0])
        };
        let tail = seg_encode(s.drop_first());
        assert forall|i: int| 0 <= i < seg_encode(s).len() implies seg_encode(s)[i] < 0x80 by {
            if i < head.len() {
                assert(seg_encode(s)[i] == head[i]);
            } else {
                assert(seg_encode(s)[i] == tail[i - head.len()]);
            }
        }
    }
}

/// Turning backslashes into slashes rewrites single-byte characters into
/// single-byte characters and touches nothing else, so well-formed text
/// stays well-formed.
proof fn lemma_norm_preserves_valid_utf8(s: Seq<u8>)
    requires
        valid_utf8(s),
    ensures
        valid_utf8(norm_bytes(s)),
    decreases s.len(),
{
    if s.len() > 0 {
        let t = norm_bytes(s);
        let len1 = vstd::utf8::length_of_first_scalar(s);
        if vstd::utf8::is_leading_byte_width_1(s[0]) {
            assert(vstd::utf8::is_leading_byte_width_1(t[0]));
            assert(vstd::utf8::valid_first_scalar(t));
            assert(vstd::utf8::length_of_first_scalar(t) == 1);
        } else {
            // the leading byte and the continuation bytes of a multi-byte
            // character all have their high bit set; none is a backslash
            assert(t[0] == s[0]);
            assert forall|k: int| 1 <= k < len1 implies t[k] == s[k] by {
                assert(vstd::utf8::is_continuation_byte(s[k]));
            }
            assert(vstd::utf8::valid_first_scalar(t));
            assert(vstd::utf8::length_of_first_scalar(t) == len1);
        }
        assert(vstd::utf8::pop_first_scalar(t) =~= norm_bytes(vstd::utf8::pop_first_scalar(s)));
        assert(vstd::utf8::pop_first_scalar(s).len() < s.len());
        lemma_norm_preserves_valid_utf8(vstd::utf8::pop_first_scalar(s));
        assert(valid_utf8(t));
    }
}

/// Encoding the path cannot damage the text: what `spec_with_encoded_path`
/// makes of well-formed text is well-formed again, so the parsed and
/// reported URI text never falls back to the empty string.
pub proof fn lemma_with_encoded_path_well_formed(s: Seq<u8>)
    requires
        valid_utf8(s),
    ensures
        valid_utf8(spec_with_encoded_path(s)),
{
    if split_matches_scheme(s) || (s.len() > 0 && !is_path_delim(s[0])) {
        let he = split_host_end(s);
        if split_matches_scheme(s) {
            lemma_find_scheme_delim(s, 0);
            lemma_find_path_delim(s, find_scheme_delim(s, 0) + 3);
        } else {
            lemma_find_path_delim(s, 0);
        }
        let prefix = s.subrange(0, he);
        let tail = seg_encode(s.skip(he));
        lemma_seg_encode_ascii(s.skip(he));
        crate::text::lemma_ascii_bytes_utf8(tail);
        if he == s.len() {
            assert(prefix =~= s);
        } else {
            assert(is_path_delim(s[he]));
            assert(!vstd::utf8::is_continuation_byte(s[he]));
            vstd::utf8::is_char_boundary_iff_not_is_continuation_byte(s, he);
            vstd::utf8::valid_utf8_split(s, he);
        }
        vstd::utf8::valid_utf8_concat(prefix, tail);
    } else {
        lemma_pct_encode_ascii(s);
        crate::text::lemma_ascii_bytes_utf8(pct_encode(s));
    }
}

/// The encoded text a URI string is parsed as — and the text the resolver
/// reports in its failures — is always well-formed: `utf8_or_empty` never
/// takes its empty branch on it.
pub proof fn lemma_recombined_well_formed(u: Seq<char>)
    ensures
        valid_utf8(spec_recombined(u)),
        utf8_or_empty(spec_recombined(u)) == decode_utf8(spec_recombined(u)),
{
    vstd::utf8::encode_utf8_valid_utf8(u);
    lemma_norm_preserves_valid_utf8(encode_utf8(u));
    lemma_with_encoded_path_well_formed(normalized_uri_bytes(u));
}

// ---------------------------------------------------------------------------
// The round trip.
// ---------------------------------------------------------------------------

proof fn lemma_encode_utf8_concat(a: Seq<char>, c: Seq<char>)
    ensures
        encode_utf8(a + c) == encode_utf8(a) + encode_utf8(c),
    decreases a.len(),
{
    if a.len() == 0 {
        assert(a + c =~= c);
        assert(encode_utf8(a) =~= Seq::<u8>::empty());
        assert(encode_utf8(a + c) =~= encode_utf8(a) + encode_utf8(c));
    } else {
        lemma_encode_utf8_concat(a.drop_first(), c);
        assert((a + c).drop_first() =~= a.drop_first() + c);
        assert((a + c)[0] == a[0]);
        assert(encode_utf8(a + c) =~= encode_utf8(a) + encode_utf8(c));
    }
}

proof fn lemma_scalar_no_backslash(c: char)
    requires
        c != '\\',
    ensures
        forall|i: int|
            0 <= i < vstd::utf8::encode_scalar(c as u32).len() ==> #[trigger] vstd::utf8::encode_scalar(
                c as u32,
            )[i] != 0x5C,
{
    broadcast use vstd::utf8::char_is_scalar;
    broadcast use vstd::utf8::char_u32_cast;

    let v = c as u32;
    assert(('\\' as u32) == 0x5C);
    assert(v != 0x5C);
    if v < 0x80 {
        assert((v & 0x7F) as u8 != 0x5C) by (bit_vector)
            requires
                v < 0x80 && v != 0x5C,
        ;
    } else if v < 0x800 {
        assert((0xC0 | (((v >> 6) & 0x1F) as u8)) != 0x5C) by (bit_vector);
        assert((0x80 | ((v & 0x3F) as u8)) != 0x5C) by (bit_vector);
    } else if v < 0x10000 {
        assert((0xE0 | (((v >> 12) & 0x0F) as u8)) != 0x5C) by (bit_vector);
        assert((0x80 | (((v >> 6) & 0x3F) as u8)) != 0x5C) by (bit_vector);
        assert((0x80 | ((v & 0x3F) as u8)) != 0x5C) by (bit_vector);
    } else {
        assert((0xF0 | (((v >> 18) & 0x7) as u8)) != 0x5C) by (bit_vector);
        assert((0x80 | (((v >> 12) & 0x3F) as u8)) != 0x5C) by (bit_vector);
        assert((0x80 | (((v >> 6) & 0x3F) as u8)) != 0x5C) by (bit_vector);
        assert((0x80 | ((v & 0x3F) as u8)) != 0x5C) by (bit_vector);
    }
}

proof fn lemma_encode_no_backslash(s: Seq<char>)
    requires
        forall|i: int| 0 <= i < s.len() ==> s[i] != '\\',
    ensures
        forall|i: int| 0 <= i < encode_utf8(s).len() ==> #[trigger] encode_utf8(s)[i] != 0x5C,
    decreases s.len(),
{
    if s.len() > 0 {
        lemma_scalar_no_backslash(s[0]);
        lemma_encode_no_backslash(s.drop_first());
        let head = vstd::utf8::encode_scalar(s[0] as u32);
        let tail = encode_utf8(s.drop_first());
        assert(encode_utf8(s) == head + tail);
        assert forall|i: int| 0 <= i < encode_utf8(s).len() implies #[trigger] encode_utf8(s)[i]
            != 0x5C by {
            if i < head.len() {
                assert(encode_utf8(s)[i] == head[i]);
            } else {
                assert(encode_utf8(s)[i] == tail[i - head.len()]);
            }
        }
    }
}

/// Path encoding yields a well-formed URI path.
proof fn lemma_seg_encode_valid_path(s: Seq<u8>)
    ensures
        valid_pct_run(seg_encode(s), true),
    decreases s.len(),
{
    if s.len() > 0 {
        let b = s[0];
        lemma_seg_encode_valid_path(s.drop_first());
        lemma_hex_round_trip(b);
        let e = seg_encode(s);
        if b == 0x2F {
            assert(e.drop_first() =~= seg_encode(s.drop_first()));
        } else if is_unreserved_byte(b) {
            assert(e.drop_first() =~= seg_encode(s.drop_first()));
        } else {
            assert(e[0] == 0x25 && e.len() >= 3);
            assert(e.skip(3) =~= seg_encode(s.drop_first()));
        }
    }
}

/// The round trip at the heart of the resolver: the `file://` locator
/// built from a native path resolves back to exactly that path, for every
/// absolute path without backslashes — spaces, percent signs and all other
/// characters ride through one encoding and one decoding untouched.
pub proof fn lemma_file_uri_round_trip(path: Seq<char>)
    requires
        path.len() > 0,
        path[0] == '/',
        forall|i: int| 0 <= i < path.len() ==> path[i] != '\\',
    ensures
        spec_resolve_ok("file://"@ + path),
        spec_uri_path_posix("file://"@ + path) == path,
{
    broadcast use vstd::utf8::char_is_scalar;

    reveal_strlit("file://");
    let prefix = "file://"@;
    let u = prefix + path;
    let pb = encode_utf8(path);
    lemma_encode_utf8_concat(prefix, path);
    assert(vstd::utf8::is_ascii_chars(prefix));
    vstd::utf8::is_ascii_chars_encode_utf8(prefix);
    let fb = encode_utf8(prefix);
    let ghost fbytes: Seq<u8> = seq![0x66u8, 0x69, 0x6C, 0x65, 0x3A, 0x2F, 0x2F];
    assert(fb =~= fbytes) by {
        assert(fb.len() == 7);
        assert(fb[0] == 'f' as u8 && ('f' as u8) == 0x66);
        assert(fb[1] == 'i' as u8 && ('i' as u8) == 0x69);
        assert(fb[2] == 'l' as u8 && ('l' as u8) == 0x6C);
        assert(fb[3] == 'e' as u8 && ('e' as u8) == 0x65);
        assert(fb[4] == ':' as u8 && (':' as u8) == 0x3A);
        assert(fb[5] == '/' as u8 && ('/' as u8) == 0x2F);
        assert(fb[6] == '/' as u8);
    }
    let ub = encode_utf8(u);
    assert(ub == fb + pb);
    // the first path byte is the slash the path opens with
    assert(pb[0] == 0x2F) by {
        let v = path[0] as u32;
        assert(v == 0x2F);
        assert(vstd::utf8::encode_scalar(v) =~= seq![(v & 0x7F) as u8]);
        assert((v & 0x7F) as u8 == 0x2F) by (bit_vector)
            requires
                v == 0x2F,
        ;
        assert(pb == vstd::utf8::encode_scalar(v) + encode_utf8(path.drop_first()));
    }
    // no backslash anywhere: normalization changes nothing
    lemma_encode_no_backslash(path);
    assert(norm_bytes(ub) =~= ub) by {
        assert forall|i: int| 0 <= i < ub.len() implies ub[i] != 0x5C by {
            if i < 7 {
                assert(ub[i] == fbytes[i]);
            } else {
                assert(ub[i] == pb[i - 7]);
            }
        }
    }
    // the splitter keeps `file:` and the two slashes, and encodes the path
    assert(find_scheme_delim(ub, 0) == 4) by {
        lemma_find_scheme_delim_is(ub, 0, 4);
    }
    assert(!split_matches_scheme(ub)) by {
        assert(ub[7] == pb[0]);
    }
    assert(find_path_delim(ub, 0) == 5) by {
        lemma_find_path_delim_is(ub, 0, 5);
    }
    assert(split_host_end(ub) == 5);
    let rb = spec_with_encoded_path(ub);
    let two = seq![0x2Fu8, 0x2Fu8];
    assert(ub.skip(5) =~= two + pb);
    lemma_seg_encode_concat(two, pb);
    assert(seg_encode(two) =~= two) by {
        assert(two.drop_first() =~= seq![0x2Fu8]);
        assert(seq![0x2Fu8].drop_first() =~= Seq::<u8>::empty());
        assert(seg_encode(Seq::<u8>::empty()) =~= Seq::<u8>::empty());
        assert(seg_encode(seq![0x2Fu8]) =~= seq![0x2Fu8]);
    }
    let sp = seg_encode(pb);
    assert(rb =~= fb + sp);
    // the parser reads the scheme, an empty authority, and the path back
    assert(rb.len() >= 8) by {
        assert(sp[0] == 0x2F) by {
            assert(sp =~= seq![0x2Fu8] + seg_encode(pb.drop_first()));
        }
    }
    assert forall|j: int| 0 <= j < 7 implies rb[j] == fbytes[j] by {}
    assert(find_scheme_delim(rb, 0) == 4) by {
        lemma_find_scheme_delim_is(rb, 0, 4);
    }
    assert(has_scheme_shape(rb));
    assert(valid_scheme_bytes(rb)) by {
        assert(is_alpha(rb[0]));
        assert forall|j: int| 1 <= j < 4 implies is_scheme_char(#[trigger] rb[j]) by {
            assert(rb[j] == fbytes[j]);
        }
    }
    let t = after_scheme(rb);
    assert(t =~= two + sp);
    assert(sp[0] == 0x2F) by {
        assert(sp =~= seq![0x2Fu8] + seg_encode(pb.drop_first()));
    }
    assert(has_auth_shape(t));
    assert(auth_end(t) == 2) by {
        lemma_find_path_delim_is(t, 2, 2);
    }
    assert(authority_bytes_of(t) =~= Seq::<u8>::empty());
    assert(valid_pct_run(Seq::<u8>::empty(), false));
    assert(path_bytes_of(t) =~= sp);
    lemma_seg_encode_valid_path(pb);
    assert(spec_hier_ok(t));
    assert(spec_parse_ok(rb));
    assert(scheme_bytes_of(rb) =~= fbytes.subrange(0, 4));
    assert(is_file_scheme(scheme_bytes_of(rb)));
    // this is precisely the recombined text of the locator
    assert(spec_recombined(u) == rb) by {
        assert(normalized_uri_bytes(u) =~= ub);
    }
    assert(spec_resolve_ok(u));
    // and its path decodes to the original characters
    lemma_pct_decode_seg_encode(pb);
    assert(pct_decode(path_bytes_of(t)) == pb);
    vstd::utf8::encode_utf8_valid_utf8(path);
    vstd::utf8::encode_utf8_decode_utf8(path);
    assert(spec_uri_path_posix(u) == path);
}

/// As `uri_to_path`, but the decoded authority-and-path pair is rendered
/// the way hosts with drive letters write native paths: the authority in
/// front, backslash separators throughout.
pub fn uri_to_path_host_prefixed(uri: &str) -> (r: Result<String, Error>)
    ensures
        ({
            let rb = spec_recombined(uri@);
            &&& (r is Ok <==> spec_resolve_ok(uri@))
            &&& (r is Ok ==> r.unwrap()@ == spec_uri_path_host_prefixed(uri@))
            &&& (!spec_parse_ok(rb) ==> (r matches Err(Error::ParseUriError(m)) && m@
                == utf8_or_empty(rb)))
            &&& (spec_parse_ok(rb) && (!has_scheme_shape(rb) || !is_file_scheme(
                scheme_bytes_of(rb),
            )) ==> r matches Err(Error::InvalidUriScheme(_)))
        }),
{
    match parse_uri(uri) {
        Ok(p) => Ok(decode_path_host_prefixed(&p)),
        Err(e) => Err(e),
    }
}

} // verus!
