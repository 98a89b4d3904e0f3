use vstd::prelude::*;
use crate::models::{
    meta_keys_unique, meta_map_of, meta_set, GetImagesResult, ImageInfo, MetaData, MetaDataField,
};
use crate::text::ascii_chars_of;
use crate::timestamp::{dec_digits, format_iso8601_millis, iso8601_utc_of, u64_to_decimal};
use crate::walkdir_reader::{extension_of, file_extension, file_name, file_name_of};

verus! {

/// What one filesystem-metadata lookup reports of a file: its size in
/// bytes, its creation and modification timestamps in milliseconds since
/// the Unix epoch where the filesystem has them, and its read-only flag.
#[derive(Debug, Clone, Copy)]
pub struct FileStat {
    pub size: u64,
    pub created_ms: Option<i64>,
    pub modified_ms: Option<i64>,
    pub readonly: bool,
}

/// The metadata a record carries, as a map; a record without metadata
/// reads as the empty map.
pub open spec fn base_map(m: Option<MetaData>) -> Map<MetaDataField, Seq<char>> {
    match m {
        Some(v) => meta_map_of(v@),
        None => Map::empty(),
    }
}

/// Whether a record's metadata is well formed: no field twice.
pub open spec fn meta_wf(m: Option<MetaData>) -> bool {
    match m {
        Some(v) => meta_keys_unique(v@),
        None => true,
    }
}

/// The metadata map after enrichment from one stat lookup: the size as
/// decimal text, the two timestamps as ISO-8601 UTC text where the
/// filesystem has them, the read-only flag as `true`/`false`, and the file
/// name and extension read off the record's path.  Existing fields are
/// overwritten, never removed.
pub open spec fn enriched_map(orig: ImageInfo, s: FileStat) -> Map<MetaDataField, Seq<char>> {
    let m1 = base_map(orig.meta_data).insert(
        MetaDataField::FileSize,
        ascii_chars_of(dec_digits(s.size as nat)),
    );
    let m2 = match s.created_ms {
        Some(c) => m1.insert(MetaDataField::FileCreated, iso8601_utc_of(c)),
        None => m1,
    };
    let m3 = match s.modified_ms {
        Some(mm) => m2.insert(MetaDataField::FileModified, iso8601_utc_of(mm)),
        None => m2,
    };
    let m4 = m3.insert(
        MetaDataField::FileReadOnly,
        if s.readonly {
            "true"@
        } else {
            "false"@
        },
    );
    let m5 = if file_name_of(orig.path@).len() > 0 {
        m4.insert(MetaDataField::FileName, file_name_of(orig.path@))
    } else {
        m4
    };
    match extension_of(file_name_of(orig.path@)) {
        Some(e) => m5.insert(MetaDataField::FileExtension, e),
        None => m5,
    }
}

/// The enriched record: the same image, its metadata grown by the stat
/// lookup's fields.
pub open spec fn enriched_with(r: ImageInfo, orig: ImageInfo, s: FileStat) -> bool {
    &&& r.path@ == orig.path@
    &&& r.content_uri@ == orig.content_uri@
    &&& r.mime_type@ == orig.mime_type@
    &&& r.meta_data matches Some(v)
    &&& meta_keys_unique(r.meta_data.unwrap()@)
    &&& meta_map_of(r.meta_data.unwrap()@) == enriched_map(orig, s)
}

/// One record enriched, or handed back untouched where no stat lookup
/// succeeded for it.
pub open spec fn enriched(r: ImageInfo, orig: ImageInfo, st: Option<FileStat>) -> bool {
    match st {
        Some(s) => enriched_with(r, orig, s),
        None => r == orig,
    }
}

/// Enrichment adds fields and overwrites fields, but never removes one: a
/// field the record carried going in is still there coming out.
pub proof fn lemma_enrichment_keeps_fields(orig: ImageInfo, s: FileStat, k: MetaDataField)
    requires
        base_map(orig.meta_data).contains_key(k),
    ensures
        enriched_map(orig, s).contains_key(k),
{
}

impl ImageInfo {
    /// Add the fields of one filesystem-metadata lookup to this record; a
    /// record whose lookup failed is handed back untouched.
    pub fn with_file_metadata(self, stat: &Option<FileStat>) -> (r: Self)
        requires
            meta_wf(self.meta_data),
        ensures
            enriched(r, self, *stat),
    {
        let ghost orig = self;
        match stat {
            None => self,
            Some(s) => {
                let ImageInfo { path, content_uri, mime_type, meta_data } = self;
                let mut v: MetaData = match meta_data {
                    Some(v) => v,
                    None => Vec::new(),
                };
                meta_set(&mut v, MetaDataField::FileSize, u64_to_decimal(s.size));
                if let Some(c) = s.created_ms {
                    meta_set(&mut v, MetaDataField::FileCreated, format_iso8601_millis(c));
                }
                if let Some(mm) = s.modified_ms {
                    meta_set(&mut v, MetaDataField::FileModified, format_iso8601_millis(mm));
                }
                let ro: String = if s.readonly {
                    "true".to_owned()
                } else {
                    "false".to_owned()
                };
                meta_set(&mut v, MetaDataField::FileReadOnly, ro);
                let name = file_name(path.as_str());
                if name.as_str().unicode_len() > 0 {
                    meta_set(&mut v, MetaDataField::FileName, name);
                }
                if let Some(e) = file_extension(path.as_str()) {
                    meta_set(&mut v, MetaDataField::FileExtension, e);
                }
                ImageInfo { path, content_uri, mime_type, meta_data: Some(v) }
            },
        }
    }
}

impl GetImagesResult {
    /// Enrich every record from its stat lookup, where enrichment was
    /// asked for; stats are supplied record by record, a failed lookup as
    /// `None`.
    pub fn with_file_metadata(
        self,
        include_file_metadata: bool,
        stats: &Vec<Option<FileStat>>,
    ) -> (r: Self)
        requires
            stats@.len() == self.items@.len(),
            forall|k: int| 0 <= k < self.items@.len() ==> meta_wf((#[trigger] self.items@[k]).meta_data),
        ensures
            !include_file_metadata ==> r == self,
            include_file_metadata ==> ({
                &&& r.items@.len() == self.items@.len()
                &&& forall|k: int|
                    0 <= k < r.items@.len() ==> enriched(
                        #[trigger] r.items@[k],
                        self.items@[k],
                        stats@[k],
                    )
            }),
    {
        if !include_file_metadata {
            return self;
        }
        let ghost gitems = self.items@;
        let GetImagesResult { items } = self;
        let mut rest = items;
        let mut out: Vec<ImageInfo> = Vec::new();
        while rest.len() > 0
            invariant
                out@.len() + rest@.len() == gitems.len(),
                rest@ =~= gitems.skip(out@.len() as int),
                stats@.len() == gitems.len(),
                forall|k: int| 0 <= k < gitems.len() ==> meta_wf((#[trigger] gitems[k]).meta_data),
                forall|k: int|
                    0 <= k < out@.len() ==> enriched(#[trigger] out@[k], gitems[k], stats@[k]),
            decreases rest@.len(),
        {
            let ghost pos = out@.len() as int;
            let it = rest.remove(0);
            assert(it == gitems[pos]);
            let st = stats[out.len()];
            let e = it.with_file_metadata(&st);
            out.push(e);
            proof {
                assert(rest@ =~= gitems.skip(out@.len() as int));
            }
        }
        GetImagesResult { items: out }
    }
}

} // verus!
