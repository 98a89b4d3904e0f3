use vstd::prelude::*;

verus! {

/// A named media origin that a caller may be granted access to.
///
/// The variant set covers every platform; which variants a deployment
/// actually serves is decided by the enumeration strategy it installs.
#[derive(Debug, Clone, Copy, PartialEq, Eq, Structural)]
pub enum MediaLibrarySource {
    PictureDir,
    ExternalStorage,
    VolumeExternalPrimary,
}

impl MediaLibrarySource {
    /// The stable textual name of the source, used in error messages.
    pub fn name(&self) -> (r: &'static str)
        ensures
            r@ == self.spec_name(),
    {
        match self {
            MediaLibrarySource::PictureDir => "PictureDir",
            MediaLibrarySource::ExternalStorage => "ExternalStorage",
            MediaLibrarySource::VolumeExternalPrimary => "VolumeExternalPrimary",
        }
    }

    pub open spec fn spec_name(&self) -> Seq<char> {
        match self {
            MediaLibrarySource::PictureDir => "PictureDir"@,
            MediaLibrarySource::ExternalStorage => "ExternalStorage"@,
            MediaLibrarySource::VolumeExternalPrimary => "VolumeExternalPrimary"@,
        }
    }
}

impl Default for MediaLibrarySource {
    /// The default source on hosts whose media live in a pictures directory.
    fn default() -> (r: Self)
        ensures
            r == MediaLibrarySource::PictureDir,
    {
        MediaLibrarySource::PictureDir
    }
}

/// The timestamp a listing is ordered by.
#[derive(Debug, Clone, Copy, PartialEq, Eq, Structural)]
pub enum SortColumn {
    DateAdded,
    DateModified,
}

impl Default for SortColumn {
    fn default() -> (r: Self)
        ensures
            r == SortColumn::DateAdded,
    {
        SortColumn::DateAdded
    }
}

#[derive(Debug, Clone, Copy, PartialEq, Eq, Structural)]
pub enum SortDirection {
    Ascending,
    Descending,
}

impl Default for SortDirection {
    fn default() -> (r: Self)
        ensures
            r == SortDirection::Ascending,
    {
        SortDirection::Ascending
    }
}

/// The closed set of per-file metadata keys a record may carry.
#[derive(Debug, Clone, Copy, PartialEq, Eq, Structural, Hash)]
pub enum MetaDataField {
    DateAdded,
    DateModified,
    DateTaken,
    FileCreated,
    FileModified,
    FileSize,
    FileName,
    FileExtension,
    FileReadOnly,
}

// ---------------------------------------------------------------------------
// Metadata records: a small association list with unique keys, read in
// contracts as a mathematical map from field to text.
// ---------------------------------------------------------------------------

/// The per-file metadata, one value per field.
pub type MetaData = Vec<(MetaDataField, String)>;

/// The mathematical content of a metadata list: field by field, the text it
/// holds.  A later entry for the same field would win, but well-formed
/// metadata never holds two entries for one field.
pub open spec fn meta_map_of(m: Seq<(MetaDataField, String)>) -> Map<MetaDataField, Seq<char>>
    decreases m.len(),
{
    if m.len() == 0 {
        Map::empty()
    } else {
        meta_map_of(m.drop_last()).insert(m.last().0, m.last().1@)
    }
}

/// No field occurs twice.
pub open spec fn meta_keys_unique(m: Seq<(MetaDataField, String)>) -> bool {
    forall|i: int, j: int| 0 <= i < j < m.len() ==> (#[trigger] m[i]).0 != (#[trigger] m[j]).0
}

/// Replacing the entry at a known position changes just that field of the
/// map, where the keys are unique.
proof fn lemma_meta_map_update(m: Seq<(MetaDataField, String)>, i: int, k: MetaDataField, v: String)
    requires
        0 <= i < m.len(),
        m[i].0 == k,
        meta_keys_unique(m),
    ensures
        meta_map_of(m.update(i, (k, v))) == meta_map_of(m).insert(k, v@),
    decreases m.len(),
{
    let mu = m.update(i, (k, v));
    if i == m.len() - 1 {
        assert(mu.drop_last() =~= m.drop_last());
        assert(meta_map_of(mu) =~= meta_map_of(m).insert(k, v@));
    } else {
        assert(mu.drop_last() =~= m.drop_last().update(i, (k, v)));
        assert(meta_keys_unique(m.drop_last())) by {
            assert(forall|p: int, q: int|
                0 <= p < q < m.drop_last().len() ==> (#[trigger] m.drop_last()[p]).0 != (
                #[trigger] m.drop_last()[q]).0);
        }
        lemma_meta_map_update(m.drop_last(), i, k, v);
        assert(m[i].0 != m.last().0);
        assert(mu.last() == m.last());
        assert(meta_map_of(mu) =~= meta_map_of(m).insert(k, v@));
    }
}

/// The position of the entry holding a field, where there is one.
fn meta_find(m: &MetaData, k: MetaDataField) -> (r: Option<usize>)
    ensures
        ({
            match r {
                Some(i) => i < m@.len() && m@[i as int].0 == k,
                None => forall|j: int| 0 <= j < m@.len() ==> (#[trigger] m@[j]).0 != k,
            }
        }),
{
    let mut i: usize = 0;
    while i < m.len()
        invariant
            i <= m@.len(),
            forall|j: int| 0 <= j < i ==> (#[trigger] m@[j]).0 != k,
        decreases m@.len() - i,
    {
        if m[i].0 == k {
            return Some(i);
        }
        i = i + 1;
    }
    None
}

/// Setting a field: the entry with that field is replaced, or a new entry
/// is appended where the field is absent.
pub fn meta_set(m: &mut MetaData, k: MetaDataField, v: String)
    requires
        meta_keys_unique(old(m)@),
    ensures
        meta_keys_unique(final(m)@),
        meta_map_of(final(m)@) == meta_map_of(old(m)@).insert(k, v@),
{
    let ghost gm = old(m)@;
    let ghost vfull = v;
    match meta_find(m, k) {
        Some(i) => {
            proof {
                lemma_meta_map_update(gm, i as int, k, vfull);
            }
            m.remove(i);
            m.insert(i, (k, v));
            proof {
                assert(m@ =~= gm.update(i as int, (k, vfull)));
                assert(meta_keys_unique(m@)) by {
                    assert(forall|p: int| 0 <= p < m@.len() ==> (#[trigger] m@[p]).0 == gm[p].0);
                }
            }
        },
        None => {
            proof {
                assert(gm.push((k, vfull)).drop_last() =~= gm);
            }
            m.push((k, v));
            proof {
                assert(m@ == gm.push((k, vfull)));
                assert(meta_map_of(m@) =~= meta_map_of(gm).insert(k, vfull@));
                assert(meta_keys_unique(m@)) by {
                    assert(forall|p: int| 0 <= p < gm.len() ==> m@[p] == gm[p]);
                    assert(m@[gm.len() as int].0 == k);
                }
            }
        },
    }
}

// ---------------------------------------------------------------------------
// Requests and results.
// ---------------------------------------------------------------------------

/// What a caller asks of a listing: a page (`limit` records starting after
/// `offset` matches), the source to read, how to order, and whether to add
/// per-file metadata.
#[derive(Debug, Clone)]
pub struct GetLibraryContentRequest {
    pub limit: usize,
    pub offset: usize,
    pub source: MediaLibrarySource,
    pub sort_column: Option<SortColumn>,
    pub sort_direction: Option<SortDirection>,
    pub include_file_metadata: Option<bool>,
}

#[derive(Debug, Clone)]
pub struct GetImageRequest {
    pub uri: String,
}

impl From<String> for GetImageRequest {
    fn from(uri: String) -> (r: Self) {
        GetImageRequest { uri }
    }
}

impl vstd::std_specs::convert::FromSpecImpl<String> for GetImageRequest {
    open spec fn obeys_from_spec() -> bool {
        true
    }

    open spec fn from_spec(uri: String) -> Self {
        GetImageRequest { uri }
    }
}

#[derive(Debug, Clone)]
pub struct DeleteImageRequest {
    pub uri: String,
}

impl From<String> for DeleteImageRequest {
    fn from(uri: String) -> (r: Self) {
        DeleteImageRequest { uri }
    }
}

impl vstd::std_specs::convert::FromSpecImpl<String> for DeleteImageRequest {
    open spec fn obeys_from_spec() -> bool {
        true
    }

    open spec fn from_spec(uri: String) -> Self {
        DeleteImageRequest { uri }
    }
}

#[derive(Debug, Clone)]
pub struct RequestPermissionsArgs {
    pub source: MediaLibrarySource,
}

/// One listed image: its native path, a re-resolvable `file://` locator,
/// its MIME type, and optional per-file metadata.
#[derive(Debug, Clone)]
pub struct ImageInfo {
    pub path: String,
    pub content_uri: String,
    pub mime_type: String,
    pub meta_data: Option<MetaData>,
}

#[derive(Debug, Clone)]
pub struct GetImagesResult {
    pub items: Vec<ImageInfo>,
}

/// How the host's permission system answered.
#[derive(Debug, Clone, Copy, PartialEq, Eq, Structural)]
pub enum PermissionState {
    Granted,
    Denied,
    Prompt,
}

#[derive(Debug, Clone, Copy, PartialEq, Eq, Structural)]
pub struct PermissionResponse {
    pub post_notification: PermissionState,
}

impl PermissionResponse {
    /// The answer a backend gives where nothing is ever denied.
    pub fn granted() -> (r: Self)
        ensures
            r.post_notification == PermissionState::Granted,
    {
        Self { post_notification: PermissionState::Granted }
    }
}

/// An encoded thumbnail; empty content is a valid "no thumbnail" answer,
/// distinct from a failure.
#[derive(Debug, Clone)]
pub struct GetThumbnailResponse {
    pub content: String,
}

impl Default for GetThumbnailResponse {
    fn default() -> (r: Self)
        ensures
            r.content@ == Seq::<char>::empty(),
    {
        GetThumbnailResponse { content: String::new() }
    }
}

} // verus!
