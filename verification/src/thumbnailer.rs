//! The thumbnailer pipeline.
//!
//! The thumbnailer queries the file paths of a location (optionally under
//! one directory) whose extension belongs to the image set — or the video
//! set, where video support is enabled — and which already carry a content
//! address. Each step handles one file path: where the thumbnail for its
//! address is already on disk the step reuses it and publishes nothing;
//! otherwise the encoder runs and a `NewThumbnail` event is published.
//! Thumbnails live at `<data_dir>/thumbnails/<cas[0..2]>/<cas>.webp`.

use vstd::prelude::*;
use vstd::string::StrSliceExecFns;
use vstd::string::StringExecFns;
use crate::catalog::Catalog;
use crate::catalog::FilePathRow;
use crate::catalog::seq_contains_str;
use crate::events::CoreEvent;
use crate::identifier::LocationData;

verus! {

/// The directory under the node's data directory that holds thumbnails.
pub fn thumbnail_cache_dir_name() -> (r: &'static str)
    ensures
        r@ == "thumbnails"@,
{
    "thumbnails"
}

/// Why a thumbnailer run was refused.
#[derive(Debug)]
pub enum ThumbnailerError {
    /// The requested sub path does not lie under the location root.
    SubPathNotInLocation(String),
    /// The requested sub path is not a directory.
    SubPathNotDirectory(String),
}

/// Whether a step encodes a still image or extracts a video frame.
#[derive(Debug, PartialEq, Eq, Structural, Clone, Copy)]
pub enum ThumbnailerJobStepKind {
    Image,
    Video,
}

/// What one step needs of its file path row.
#[derive(Debug)]
pub struct FilePathJustMaterializedPathCasId {
    pub materialized_path: String,
    pub cas_id: Option<String>,
}

/// One thumbnail to derive.
#[derive(Debug)]
pub struct ThumbnailerJobStep {
    pub file_path: FilePathJustMaterializedPathCasId,
    pub kind: ThumbnailerJobStepKind,
}

/// What a finished run reports.
#[derive(Debug)]
pub struct ThumbnailerJobReport {
    pub location_id: i32,
    pub materialized_path: String,
    pub thumbnails_created: u64,
    pub thumbnails_reused: u64,
}

/// What the thumbnailer is asked to do.
#[derive(Debug)]
pub struct ThumbnailerJobInit {
    pub location: LocationData,
    /// A location-relative directory with a leading separator, or nothing
    /// for the whole location.
    pub sub_path: Option<String>,
    /// Background runs yield between files so foreground work is not
    /// starved.
    pub background: bool,
}

/// The stable digest of a thumbnailer submission: the location id and the
/// sub path, where one is given.
pub open spec fn spec_thumbnailer_init_hash(location_id: i32, sub_path: Option<String>) -> u64 {
    match sub_path {
        Some(p) => crate::job::fnv_chars(
            crate::job::fnv_step(crate::job::FNV_OFFSET, location_id as u64),
            p@,
        ),
        None => crate::job::fnv_step(crate::job::FNV_OFFSET, location_id as u64),
    }
}

impl ThumbnailerJobInit {
    /// The submission digest used for deduplication.
    pub fn hash(&self) -> (r: u64)
        ensures
            r == spec_thumbnailer_init_hash(self.location.id, self.sub_path),
    {
        let h = crate::job::fnv_step_exec(crate::job::FNV_OFFSET, self.location.id as u64);
        match &self.sub_path {
            Some(p) => crate::job::fnv_fold_str(h, p.as_str()),
            None => h,
        }
    }
}

/// A stateful job that derives thumbnails for the eligible file paths of a
/// location, one file per step.
#[derive(Debug)]
pub struct ThumbnailerJob {}

impl ThumbnailerJob {
    /// The job's stable name, used for persistence.
    pub fn name(&self) -> (r: &'static str)
        ensures
            r@ == "thumbnailer"@,
    {
        "thumbnailer"
    }
}

/// A row the thumbnailer must handle: under this location, extension in
/// the requested set, materialized path under the requested prefix, and a
/// content address already assigned.
pub open spec fn thumb_eligible(
    row: FilePathRow,
    loc: i32,
    prefix: Seq<char>,
    extensions: Seq<String>,
) -> bool {
    &&& row.location_id == loc
    &&& seq_contains_str(extensions, row.extension@)
    &&& prefix.is_prefix_of(row.materialized_path@)
    &&& row.cas_id is Some
}

/// The eligible rows, in catalog order.
pub open spec fn eligible_rows(
    rows: Seq<FilePathRow>,
    loc: i32,
    prefix: Seq<char>,
    extensions: Seq<String>,
) -> Seq<FilePathRow> {
    rows.filter(|row: FilePathRow| thumb_eligible(row, loc, prefix, extensions))
}

/// The query handles one row at a time.
proof fn lemma_eligible_take_step(
    rows: Seq<FilePathRow>,
    loc: i32,
    prefix: Seq<char>,
    extensions: Seq<String>,
    i: int,
)
    requires
        0 <= i < rows.len(),
    ensures
        eligible_rows(rows.take(i + 1), loc, prefix, extensions) == if thumb_eligible(
            rows[i],
            loc,
            prefix,
            extensions,
        ) {
            eligible_rows(rows.take(i), loc, prefix, extensions).push(rows[i])
        } else {
            eligible_rows(rows.take(i), loc, prefix, extensions)
        },
{
    reveal(Seq::filter);
    let s1 = rows.take(i + 1);
    assert(s1.drop_last() =~= rows.take(i));
    assert(s1.last() == rows[i]);
}

/// A built step reflects its eligible row.
pub open spec fn thumb_step_matches(
    step: ThumbnailerJobStep,
    row: FilePathRow,
    kind: ThumbnailerJobStepKind,
) -> bool {
    &&& step.file_path.materialized_path@ == row.materialized_path@
    &&& step.file_path.cas_id == row.cas_id
    &&& step.kind == kind
}

/// Queries the catalog for the file paths, under `prefix`, whose extension
/// is in `extensions` and which already carry a content address, and turns
/// each into one step of the given kind, in catalog order.
pub fn get_files_by_extensions(
    catalog: &Catalog,
    location_id: i32,
    prefix: &str,
    extensions: &Vec<String>,
    kind: ThumbnailerJobStepKind,
) -> (r: Vec<ThumbnailerJobStep>)
    ensures
        ({
            let f = eligible_rows(catalog.file_paths@, location_id, prefix@, extensions@);
            &&& r@.len() == f.len()
            &&& forall|m: int|
                0 <= m < f.len() ==> thumb_step_matches(#[trigger] r@[m], f[m], kind)
        }),
{
    let ghost rows = catalog.file_paths@;
    let n = catalog.file_paths.len();
    let mut out: Vec<ThumbnailerJobStep> = Vec::new();
    let mut i: usize = 0;
    proof {
        assert(eligible_rows(rows.take(0), location_id, prefix@, extensions@) =~= Seq::empty())
            by {
            reveal(Seq::filter);
            assert(rows.take(0) =~= Seq::<FilePathRow>::empty());
        }
    }
    while i < n
        invariant
            i <= n,
            n == rows.len(),
            rows == catalog.file_paths@,
            out@.len() == eligible_rows(rows.take(i as int), location_id, prefix@, extensions@).len(),
            forall|m: int|
                0 <= m < out@.len() ==> thumb_step_matches(
                    #[trigger] out@[m],
                    eligible_rows(rows.take(i as int), location_id, prefix@, extensions@)[m],
                    kind,
                ),
        decreases n - i,
    {
        let ghost f_pre = eligible_rows(rows.take(i as int), location_id, prefix@, extensions@);
        let row = &catalog.file_paths[i];
        let mut keep = false;
        let mut cas: Option<String> = None;
        if row.location_id == location_id {
            if crate::catalog::vec_contains_str(extensions, row.extension.as_str()) {
                let pn = prefix.unicode_len();
                let mn = row.materialized_path.as_str().unicode_len();
                let mut is_pref = pn <= mn;
                let mut c: usize = 0;
                while c < pn && is_pref
                    invariant
                        c <= pn,
                        pn == prefix@.len(),
                        mn == row.materialized_path@.len(),
                        is_pref ==> pn <= mn,
                        is_pref ==> forall|w: int|
                            0 <= w < c ==> prefix@[w] == row.materialized_path@[w],
                        !is_pref ==> !prefix@.is_prefix_of(row.materialized_path@),
                    decreases pn - c,
                {
                    if prefix.get_char(c) != row.materialized_path.as_str().get_char(c) {
                        proof {
                            assert(!prefix@.is_prefix_of(row.materialized_path@));
                        }
                        is_pref = false;
                    }
                    c += 1;
                }
                if is_pref {
                    proof {
                        assert(prefix@ =~= row.materialized_path@.subrange(0, pn as int));
                        assert(prefix@.is_prefix_of(row.materialized_path@));
                    }
                    match &row.cas_id {
                        Some(cid) => {
                            keep = true;
                            cas = Some(cid.clone());
                        },
                        None => {},
                    }
                }
            }
        }
        proof {
            lemma_eligible_take_step(rows, location_id, prefix@, extensions@, i as int);
        }
        if keep {
            let step = ThumbnailerJobStep {
                file_path: FilePathJustMaterializedPathCasId {
                    materialized_path: row.materialized_path.clone(),
                    cas_id: cas,
                },
                kind,
            };
            proof {
                assert(thumb_eligible(rows[i as int], location_id, prefix@, extensions@));
                let f2 = eligible_rows(rows.take(i + 1), location_id, prefix@, extensions@);
                assert(f2 == f_pre.push(rows[i as int]));
            }
            let ghost pre = out@;
            out.push(step);
            proof {
                let f2 = eligible_rows(rows.take(i + 1), location_id, prefix@, extensions@);
                assert forall|m: int| 0 <= m < out@.len() implies thumb_step_matches(
                    #[trigger] out@[m],
                    f2[m],
                    kind,
                ) by {
                    if m < pre.len() {
                        assert(out@[m] == pre[m]);
                        assert(f2[m] == f_pre[m]);
                    } else {
                        assert(out@[m] == out@.last());
                        assert(f2[m] == rows[i as int]);
                    }
                }
            }
        } else {
            proof {
                assert(!thumb_eligible(rows[i as int], location_id, prefix@, extensions@));
                assert(eligible_rows(rows.take(i + 1), location_id, prefix@, extensions@)
                    == f_pre);
            }
        }
        i += 1;
    }
    proof {
        assert(rows.take(n as int) =~= rows);
    }
    out
}

/// Where the thumbnail for a content address lives, relative to the cache
/// directory: the first two characters as a shard directory, then the full
/// address with the WebP suffix.
pub open spec fn spec_thumbnail_rel_path(cas: Seq<char>) -> Seq<char> {
    cas.subrange(0, 2) + seq!['/'] + cas + ".webp"@
}

/// Builds the cache-relative thumbnail path for a content address.
pub fn thumbnail_rel_path(cas: &str) -> (r: String)
    requires
        cas@.len() >= 2,
    ensures
        r@ == spec_thumbnail_rel_path(cas@),
{
    let mut s = String::new();
    s.append(cas.substring_char(0, 2));
    s.append("/");
    s.append(cas);
    s.append(".webp");
    proof {
        reveal_strlit("/");
        assert(s@ =~= spec_thumbnail_rel_path(cas@));
    }
    s
}

/// What one thumbnailer step decided.
#[derive(Debug)]
pub enum ThumbnailStepDecision {
    /// The thumbnail is already on disk: count it reused, publish nothing.
    Reuse,
    /// The encoder must run for the cache-relative target path.
    Encode { target_rel_path: String },
}

/// Decides one step from whether the thumbnail for the step's content
/// address is already on disk: an existing thumbnail is reused (counted,
/// encoder not invoked, no event); otherwise the encoder is to run for the
/// derived target path. Only rows with a content address reach this point.
pub fn process_step(
    report: &mut ThumbnailerJobReport,
    step: &ThumbnailerJobStep,
    thumbnail_exists: bool,
) -> (r: ThumbnailStepDecision)
    requires
        step.file_path.cas_id matches Some(c) && c@.len() >= 2,
        old(report).thumbnails_reused < u64::MAX,
    ensures
        thumbnail_exists ==> r is Reuse && final(report).thumbnails_reused == old(
            report,
        ).thumbnails_reused + 1 && final(report).thumbnails_created == old(
            report,
        ).thumbnails_created,
        !thumbnail_exists ==> ((r matches ThumbnailStepDecision::Encode { target_rel_path }
            && step.file_path.cas_id matches Some(c) && target_rel_path@
            == spec_thumbnail_rel_path(c@)) && *final(report) == *old(report)),
        final(report).location_id == old(report).location_id,
        final(report).materialized_path == old(report).materialized_path,
{
    let cas = match &step.file_path.cas_id {
        Some(c) => c,
        None => {
            proof {
                assert(false);
            }
            return ThumbnailStepDecision::Reuse;
        },
    };
    if thumbnail_exists {
        report.thumbnails_reused = report.thumbnails_reused + 1;
        ThumbnailStepDecision::Reuse
    } else {
        ThumbnailStepDecision::Encode { target_rel_path: thumbnail_rel_path(cas.as_str()) }
    }
}

/// Counts one successful encode and builds the event the bus publishes.
pub fn record_thumbnail_created(report: &mut ThumbnailerJobReport, cas: &String) -> (r: CoreEvent)
    requires
        old(report).thumbnails_created < u64::MAX,
    ensures
        final(report).thumbnails_created == old(report).thumbnails_created + 1,
        final(report).thumbnails_reused == old(report).thumbnails_reused,
        final(report).location_id == old(report).location_id,
        final(report).materialized_path == old(report).materialized_path,
        r matches CoreEvent::NewThumbnail { cas_id } && cas_id@ == cas@,
{
    report.thumbnails_created = report.thumbnails_created + 1;
    CoreEvent::NewThumbnail { cas_id: cas.clone() }
}

/// The extensions the thumbnailer derives still images for.
pub open spec fn is_image_extension(e: Seq<char>) -> bool {
    e == "png"@ || e == "jpg"@ || e == "jpeg"@ || e == "gif"@ || e == "webp"@
}

/// Builds the image extension set.
pub fn filtered_image_extensions() -> (r: Vec<String>)
    ensures
        forall|p: Seq<char>| #[trigger] seq_contains_str(r@, p) <==> is_image_extension(p),
{
    let mut v: Vec<String> = Vec::new();
    v.push(String::from_str("png"));
    v.push(String::from_str("jpg"));
    v.push(String::from_str("jpeg"));
    v.push(String::from_str("gif"));
    v.push(String::from_str("webp"));
    proof {
        assert forall|p: Seq<char>| #[trigger] seq_contains_str(v@, p) implies is_image_extension(
            p,
        ) by {
            let w = choose|w: int| 0 <= w < v@.len() && (#[trigger] v@[w])@ == p;
        }
        assert forall|p: Seq<char>| is_image_extension(p) implies #[trigger] seq_contains_str(
            v@,
            p,
        ) by {
            if p == "png"@ {
                assert(v@[0]@ == p);
            } else if p == "jpg"@ {
                assert(v@[1]@ == p);
            } else if p == "jpeg"@ {
                assert(v@[2]@ == p);
            } else if p == "gif"@ {
                assert(v@[3]@ == p);
            } else {
                assert(v@[4]@ == p);
            }
        }
    }
    v
}

/// A row the thumbnailer must handle as a still image.
pub open spec fn image_eligible(row: FilePathRow, loc: i32, prefix: Seq<char>) -> bool {
    &&& row.location_id == loc
    &&& is_image_extension(row.extension@)
    &&& prefix.is_prefix_of(row.materialized_path@)
    &&& row.cas_id is Some
}

/// The image rows the thumbnailer handles, in catalog order.
pub open spec fn eligible_image_rows(
    rows: Seq<FilePathRow>,
    loc: i32,
    prefix: Seq<char>,
) -> Seq<FilePathRow> {
    rows.filter(|row: FilePathRow| image_eligible(row, loc, prefix))
}

/// Filtering by the image extension set is filtering by image eligibility.
proof fn lemma_eligible_image_congruent(
    rows: Seq<FilePathRow>,
    loc: i32,
    prefix: Seq<char>,
    extensions: Seq<String>,
)
    requires
        forall|p: Seq<char>| #[trigger] seq_contains_str(extensions, p) <==> is_image_extension(p),
    ensures
        eligible_rows(rows, loc, prefix, extensions) == eligible_image_rows(rows, loc, prefix),
    decreases rows.len(),
{
    reveal(Seq::filter);
    if rows.len() > 0 {
        lemma_eligible_image_congruent(rows.drop_last(), loc, prefix, extensions);
        assert(thumb_eligible(rows.last(), loc, prefix, extensions) == image_eligible(
            rows.last(),
            loc,
            prefix,
        ));
    }
}

/// The state a thumbnailer run carries between steps.
#[derive(Debug)]
pub struct ThumbnailerJobState {
    pub thumbnail_dir: String,
    pub location_path: String,
    pub report: ThumbnailerJobReport,
}

impl ThumbnailerJob {
    /// Prepares the run: validates the sub path, derives the materialized
    /// prefix to search under, and queries the catalog for the image file
    /// paths that already carry a content address. The cache directory is
    /// `<data_directory>/thumbnails`; the caller creates it on disk.
    /// `sub_path_is_dir` is the filesystem's answer for the requested sub
    /// path (ignored when none is requested).
    pub fn init(
        &self,
        init: &ThumbnailerJobInit,
        sub_path_is_dir: bool,
        catalog: &Catalog,
        data_directory: &str,
    ) -> (r: Result<(ThumbnailerJobState, Vec<ThumbnailerJobStep>), ThumbnailerError>)
        ensures
            ({
                let sub = match init.sub_path {
                    Some(p) => p@,
                    None => Seq::<char>::empty(),
                };
                let full = init.location.path@ + sub;
                let prefix = crate::path::materialize_str(init.location.path@, full, true);
                &&& (r is Ok <==> crate::path::can_materialize(init.location.path@, full, true)
                    && (init.sub_path is None || sub_path_is_dir))
                &&& (r matches Err(ThumbnailerError::SubPathNotInLocation(p))
                    ==> !crate::path::can_materialize(init.location.path@, full, true) && p@
                    == full)
                &&& (r matches Err(ThumbnailerError::SubPathNotDirectory(p))
                    ==> crate::path::can_materialize(init.location.path@, full, true)
                    && init.sub_path is Some && !sub_path_is_dir && p@ == full)
                &&& (r matches Ok(p) ==> {
                    let f = eligible_image_rows(catalog.file_paths@, init.location.id, prefix);
                    &&& p.0.thumbnail_dir@ == data_directory@ + "/thumbnails"@
                    &&& p.0.location_path@ == init.location.path@
                    &&& p.0.report.location_id == init.location.id
                    &&& p.0.report.materialized_path@ == prefix
                    &&& p.0.report.thumbnails_created == 0
                    &&& p.0.report.thumbnails_reused == 0
                    &&& p.1@.len() == f.len()
                    &&& forall|m: int|
                        0 <= m < f.len() ==> thumb_step_matches(
                            #[trigger] p.1@[m],
                            f[m],
                            ThumbnailerJobStepKind::Image,
                        )
                })
            }),
    {
        let mut full_path = init.location.path.clone();
        let has_sub = match &init.sub_path {
            Some(p) => {
                full_path.append(p.as_str());
                true
            },
            None => {
                proof {
                    assert(init.location.path@ + Seq::<char>::empty() =~= init.location.path@);
                    assert(full_path@ == init.location.path@ + Seq::<char>::empty());
                }
                false
            },
        };
        let root = match crate::path::MaterializedPath::new(
            init.location.id,
            init.location.path.as_str(),
            full_path.as_str(),
            true,
        ) {
            Ok(m) => m,
            Err(_) => {
                return Err(ThumbnailerError::SubPathNotInLocation(full_path));
            },
        };
        if has_sub && !sub_path_is_dir {
            return Err(ThumbnailerError::SubPathNotDirectory(full_path));
        }
        let extensions = filtered_image_extensions();
        let steps = get_files_by_extensions(
            catalog,
            init.location.id,
            root.as_str(),
            &extensions,
            ThumbnailerJobStepKind::Image,
        );
        proof {
            lemma_eligible_image_congruent(
                catalog.file_paths@,
                init.location.id,
                root@,
                extensions@,
            );
        }
        let mut thumbnail_dir = String::new();
        thumbnail_dir.append(data_directory);
        thumbnail_dir.append("/");
        thumbnail_dir.append(thumbnail_cache_dir_name());
        proof {
            reveal_strlit("/");
            reveal_strlit("thumbnails");
            reveal_strlit("/thumbnails");
            assert(thumbnail_dir@ =~= data_directory@ + "/thumbnails"@);
        }
        let state = ThumbnailerJobState {
            thumbnail_dir,
            location_path: init.location.path.clone(),
            report: ThumbnailerJobReport {
                location_id: init.location.id,
                materialized_path: root.to_string(),
                thumbnails_created: 0,
                thumbnails_reused: 0,
            },
        };
        Ok((state, steps))
    }

    /// Wraps the run's counters up once the step queue is empty.
    pub fn finalize(&self, state: &ThumbnailerJobState) -> (r: ThumbnailerJobReport)
        ensures
            r.location_id == state.report.location_id,
            r.materialized_path@ == state.report.materialized_path@,
            r.thumbnails_created == state.report.thumbnails_created,
            r.thumbnails_reused == state.report.thumbnails_reused,
    {
        ThumbnailerJobReport {
            location_id: state.report.location_id,
            materialized_path: state.report.materialized_path.clone(),
            thumbnails_created: state.report.thumbnails_created,
            thumbnails_reused: state.report.thumbnails_reused,
        }
    }
}

} // verus!
