//! The identifier pipeline.
//!
//! For freshly indexed file paths the identifier computes a content address
//! from each file's length and leading bytes, writes the addresses back in
//! one transactional batch, and then links every file path to a logical
//! object: to the object already standing for its content address where one
//! exists, else to a newly created object. Duplicate content thus shares a
//! single object, and at every moment at most one object stands for any
//! content address.

use vstd::prelude::*;
use crate::cas::cas_id_of;
use crate::cas::cas_prefix_len;
use crate::cas::generate_cas_id;
use crate::cas::u64_to_dec;
use crate::catalog::CasUpdate;
use crate::catalog::Catalog;
use crate::catalog::FilePathRow;
use crate::catalog::cas_links_agree;
use crate::catalog::has_fp_key;
use crate::catalog::has_object;
use crate::catalog::linked_object_for_cas;
use crate::catalog::row_has_cas;
use crate::catalog::same_cas;
use crate::catalog::some_linked_for_cas;
use crate::catalog::update_for;
use crate::catalog::with_cas;
use crate::sync::CrdtOperation;
use crate::sync::FieldValue;
use crate::sync::SyncId;
use crate::sync::SyncValue;

verus! {

/// Why an identifier run could not start.
#[derive(Debug)]
pub enum IdentifierJobError {
    /// No location with this id is registered.
    MissingLocation(i32),
    /// The location's root file path row is missing from the catalog.
    MissingRootFilePath(String),
    /// The location has no local path on this node.
    LocationLocalPath(i32),
}

/// The logical kind of an object, derived from its file's extension.
#[derive(Debug, PartialEq, Eq, Structural, Clone, Copy)]
pub enum ObjectKind {
    Unknown,
    Document,
    Text,
    Image,
    Video,
    Audio,
    Archive,
}

/// The integer the catalog stores for a kind.
pub open spec fn spec_kind_to_int(k: ObjectKind) -> i32 {
    match k {
        ObjectKind::Unknown => 0,
        ObjectKind::Document => 1,
        ObjectKind::Text => 2,
        ObjectKind::Image => 3,
        ObjectKind::Video => 4,
        ObjectKind::Audio => 5,
        ObjectKind::Archive => 6,
    }
}

pub fn kind_to_int(k: ObjectKind) -> (r: i32)
    ensures
        r == spec_kind_to_int(k),
{
    match k {
        ObjectKind::Unknown => 0,
        ObjectKind::Document => 1,
        ObjectKind::Text => 2,
        ObjectKind::Image => 3,
        ObjectKind::Video => 4,
        ObjectKind::Audio => 5,
        ObjectKind::Archive => 6,
    }
}

/// The kind a lowercased extension resolves to; unknown extensions give
/// `Unknown`.
pub open spec fn spec_kind_of(ext: Seq<char>) -> ObjectKind {
    if ext == "png"@ || ext == "jpg"@ || ext == "jpeg"@ || ext == "gif"@ || ext == "webp"@ {
        ObjectKind::Image
    } else if ext == "mp4"@ || ext == "mov"@ || ext == "mkv"@ {
        ObjectKind::Video
    } else if ext == "mp3"@ || ext == "wav"@ || ext == "flac"@ {
        ObjectKind::Audio
    } else if ext == "txt"@ || ext == "md"@ {
        ObjectKind::Text
    } else if ext == "pdf"@ || ext == "doc"@ || ext == "docx"@ {
        ObjectKind::Document
    } else if ext == "zip"@ || ext == "tar"@ || ext == "gz"@ {
        ObjectKind::Archive
    } else {
        ObjectKind::Unknown
    }
}

/// Resolves a lowercased extension against the kind table.
pub fn kind_from_extension(ext: &str) -> (r: ObjectKind)
    ensures
        r == spec_kind_of(ext@),
{
    if crate::catalog::str_eq(ext, "png") || crate::catalog::str_eq(ext, "jpg")
        || crate::catalog::str_eq(ext, "jpeg") || crate::catalog::str_eq(ext, "gif")
        || crate::catalog::str_eq(ext, "webp") {
        ObjectKind::Image
    } else if crate::catalog::str_eq(ext, "mp4") || crate::catalog::str_eq(ext, "mov")
        || crate::catalog::str_eq(ext, "mkv") {
        ObjectKind::Video
    } else if crate::catalog::str_eq(ext, "mp3") || crate::catalog::str_eq(ext, "wav")
        || crate::catalog::str_eq(ext, "flac") {
        ObjectKind::Audio
    } else if crate::catalog::str_eq(ext, "txt") || crate::catalog::str_eq(ext, "md") {
        ObjectKind::Text
    } else if crate::catalog::str_eq(ext, "pdf") || crate::catalog::str_eq(ext, "doc")
        || crate::catalog::str_eq(ext, "docx") {
        ObjectKind::Document
    } else if crate::catalog::str_eq(ext, "zip") || crate::catalog::str_eq(ext, "tar")
        || crate::catalog::str_eq(ext, "gz") {
        ObjectKind::Archive
    } else {
        ObjectKind::Unknown
    }
}

/// What the identifier derives for one file: its content address, its kind,
/// and its byte length.
#[derive(Debug)]
pub struct FileMetadata {
    pub cas_id: String,
    pub kind: ObjectKind,
    pub size_in_bytes: u64,
}

impl FileMetadata {
    /// Derives the metadata for one file from its byte length, its leading
    /// bytes (exactly the first `cas_prefix_len(size)` of them), and its
    /// lowercased extension. Directories never come here: a content address
    /// is only defined for files.
    pub fn new(size: u64, prefix: &[u8], extension: &str) -> (r: FileMetadata)
        requires
            prefix@.len() == cas_prefix_len(size),
        ensures
            r.cas_id@ == cas_id_of(size, prefix@),
            r.kind == spec_kind_of(extension@),
            r.size_in_bytes == size,
    {
        let cas_id = generate_cas_id(size, prefix);
        let kind = kind_from_extension(extension);
        FileMetadata { cas_id, kind, size_in_bytes: size }
    }
}

/// A registered filesystem root, as the identifier and thumbnailer see it.
#[derive(Debug)]
pub struct LocationData {
    pub id: i32,
    /// The location's 16-byte public identifier.
    pub pub_id: u128,
    /// The absolute path of the root, without a trailing separator.
    pub path: String,
}

/// One file path of the chunk being identified: its id, its creation time,
/// and the metadata derived from the file's bytes.
#[derive(Debug)]
pub struct FilePathToIdentify {
    pub file_path_id: i32,
    pub date_created: i64,
    pub meta: FileMetadata,
}

/// The row update and CRDT operation that connect a file path to an object.
#[derive(Debug)]
pub struct ConnectUpdate {
    pub location_id: i32,
    pub file_path_id: i32,
    pub object_pub_id: u128,
}


/// The operation that writes one computed content address: an owned update
/// of the single field `cas_id` for the row.
pub open spec fn cas_op_matches(
    op: CrdtOperation,
    item: FilePathToIdentify,
    location_pub_id: u128,
) -> bool {
    op matches CrdtOperation::OwnedUpdate {
        id: SyncId::FilePath { id: fid, location_pub_id: lp },
        fields: fs,
    } && fid == item.file_path_id && lp == location_pub_id && fs@.len() == 1 && fs@[0].field@
        == "cas_id"@ && (fs@[0].value matches SyncValue::Text(c) && c@ == item.meta.cas_id@)
}

/// The operation that connects one file path to object `o`: an owned update
/// of the single field `object` carrying the object's public id.
pub open spec fn connect_op_matches(
    op: CrdtOperation,
    file_path_id: i32,
    location_pub_id: u128,
    o: u128,
) -> bool {
    op matches CrdtOperation::OwnedUpdate {
        id: SyncId::FilePath { id: fid, location_pub_id: lp },
        fields: fs,
    } && fid == file_path_id && lp == location_pub_id && fs@.len() == 1 && fs@[0].field@
        == "object"@ && fs@[0].value == SyncValue::PubId(o)
}

/// Builds the CRDT operation and the catalog update that connect one file
/// path to an object.
pub fn file_path_object_connect_ops(
    file_path_id: i32,
    object_pub_id: u128,
    location: &LocationData,
) -> (r: (CrdtOperation, ConnectUpdate))
    ensures
        connect_op_matches(r.0, file_path_id, location.pub_id, object_pub_id),
        r.1.location_id == location.id,
        r.1.file_path_id == file_path_id,
        r.1.object_pub_id == object_pub_id,
{
    let mut fields: Vec<FieldValue> = Vec::new();
    fields.push(
        FieldValue {
            field: String::from_str("object"),
            value: SyncValue::PubId(object_pub_id),
        },
    );
    let op = CrdtOperation::OwnedUpdate {
        id: SyncId::FilePath { id: file_path_id, location_pub_id: location.pub_id },
        fields,
    };
    (
        op,
        ConnectUpdate { location_id: location.id, file_path_id, object_pub_id },
    )
}

/// Some chunk item targets file path id `id`.
pub open spec fn item_targets(items: Seq<FilePathToIdentify>, id: i32) -> bool {
    exists|i: int| 0 <= i < items.len() && (#[trigger] items[i]).file_path_id == id
}

/// Some of the first `j` chunk items targets file path id `id`.
pub open spec fn item_targets_below(items: Seq<FilePathToIdentify>, id: i32, j: int) -> bool {
    exists|i: int| 0 <= i < j && (#[trigger] items[i]).file_path_id == id
}

/// Processing chunk item `j` creates an object: no object stood for its
/// address when the chunk began, and no earlier chunk item carries the same
/// address. Every other item links to an object that already exists when it
/// is processed.
pub open spec fn creates_object(
    items: Seq<FilePathToIdentify>,
    rows0: Seq<FilePathRow>,
    j: int,
) -> bool {
    &&& !some_linked_for_cas(rows0, items[j].meta.cas_id@)
    &&& (forall|i: int|
        0 <= i < j ==> (#[trigger] items[i]).meta.cas_id@ != items[j].meta.cas_id@)
}

/// How many of the first `n` chunk items create an object: the number of
/// distinct addresses in the chunk that no object stood for.
pub open spec fn count_created(
    items: Seq<FilePathToIdentify>,
    rows0: Seq<FilePathRow>,
    n: int,
) -> int
    decreases n,
{
    if n <= 0 {
        0
    } else {
        count_created(items, rows0, n - 1) + if creates_object(items, rows0, n - 1) {
            1int
        } else {
            0int
        }
    }
}

/// How many operations the linking phase has recorded after the first `j`
/// items: one connection per item, plus four object records per creation.
pub open spec fn tail_ops_len(
    items: Seq<FilePathToIdentify>,
    rows0: Seq<FilePathRow>,
    j: int,
) -> int {
    j + 4 * count_created(items, rows0, j)
}

/// The four records of one object creation, standing at `base` in the
/// log: the shared create, then shared updates of the creation time, the
/// kind as its catalog integer, and the byte length in decimal.
pub open spec fn object_create_ops_match(
    ops: Seq<CrdtOperation>,
    base: int,
    item: FilePathToIdentify,
    o: u128,
) -> bool {
    &&& 0 <= base
    &&& base + 4 <= ops.len()
    &&& (ops[base] matches CrdtOperation::SharedCreate { id: SyncId::Object { pub_id: p } }
        && p == o)
    &&& (ops[base + 1] matches CrdtOperation::SharedUpdate {
        id: SyncId::Object { pub_id: p },
        field: f,
        value: v,
    } && p == o && f@ == "date_created"@ && v == SyncValue::Int(item.date_created))
    &&& (ops[base + 2] matches CrdtOperation::SharedUpdate {
        id: SyncId::Object { pub_id: p },
        field: f,
        value: v,
    } && p == o && f@ == "kind"@ && v == SyncValue::Int(spec_kind_to_int(item.meta.kind) as i64))
    &&& (ops[base + 3] matches CrdtOperation::SharedUpdate {
        id: SyncId::Object { pub_id: p },
        field: f,
        value: v,
    } && p == o && f@ == "size_in_bytes"@ && (v matches SyncValue::Text(st) && st@
        == crate::cas::dec_of(item.meta.size_in_bytes as nat)))
}

/// A row holding the key (loc, id) is linked to object `o`.
pub open spec fn chunk_row_linked_to(
    rows: Seq<FilePathRow>,
    loc: i32,
    id: i32,
    o: u128,
) -> bool {
    exists|k: int|
        0 <= k < rows.len() && (#[trigger] rows[k]).location_id == loc && rows[k].id == id
            && rows[k].object_pub_id == Some(o)
}

/// The linking records of chunk item `j`, at their place in the log
/// (`base0` is where the linking phase begins): a creating item leaves the
/// four object records and a connection, all carrying the consumed public
/// id, and its row ends linked to that id; a linking item leaves one
/// connection carrying the object its row ends linked to.
pub open spec fn item_ops_ok(
    ops: Seq<CrdtOperation>,
    base0: int,
    items: Seq<FilePathToIdentify>,
    rows0: Seq<FilePathRow>,
    rows_now: Seq<FilePathRow>,
    pub_ids: Seq<u128>,
    location_id: i32,
    location_pub_id: u128,
    j: int,
) -> bool {
    let b = base0 + tail_ops_len(items, rows0, j);
    if creates_object(items, rows0, j) {
        let o = pub_ids[count_created(items, rows0, j)];
        &&& b + 5 <= ops.len()
        &&& object_create_ops_match(ops, b, items[j], o)
        &&& connect_op_matches(ops[b + 4], items[j].file_path_id, location_pub_id, o)
        &&& chunk_row_linked_to(rows_now, location_id, items[j].file_path_id, o)
    } else {
        &&& 0 <= b
        &&& b + 1 <= ops.len()
        &&& exists|o: u128|
            #[trigger] connect_op_matches(ops[b], items[j].file_path_id, location_pub_id, o)
                && chunk_row_linked_to(rows_now, location_id, items[j].file_path_id, o)
    }
}

/// At most one object per content address: any two linked file paths with
/// the same CAS id point at the same object. This holds in every well
/// formed catalog, and the identifier preserves it.
pub proof fn lemma_cas_maps_to_single_object(cat: Catalog, i: int, j: int)
    requires
        cat.wf(),
        0 <= i < cat.file_paths@.len(),
        0 <= j < cat.file_paths@.len(),
        same_cas(cat.file_paths@[i], cat.file_paths@[j]),
        cat.file_paths@[i].object_pub_id is Some,
        cat.file_paths@[j].object_pub_id is Some,
    ensures
        cat.file_paths@[i].object_pub_id == cat.file_paths@[j].object_pub_id,
{
}

/// Processes one chunk of freshly indexed file paths. First every row's
/// content address is written in one transactional batch with a CRDT
/// operation per row; then every row is linked to an object: to the one
/// already standing for its address where one exists — within the chunk,
/// later duplicates link to the object created for the first occurrence —
/// else to a newly created object whose public id the caller supplies in
/// `pub_ids` (one fresh, distinct candidate per item, consumed in order).
/// The catalog stays well formed throughout, so after the run every content
/// address still maps to exactly one object. Returns how many objects were
/// created — one per distinct new address — and how many rows were linked
/// without a creation.
#[verifier::rlimit(100)]
pub fn identifier_job_step(
    location: &LocationData,
    items: &Vec<FilePathToIdentify>,
    pub_ids: &Vec<u128>,
    catalog: &mut Catalog,
) -> (r: (usize, usize))
    requires
        old(catalog).wf(),
        forall|i: int|
            0 <= i < items@.len() ==> has_fp_key(
                old(catalog).file_paths@,
                location.id,
                (#[trigger] items@[i]).file_path_id,
            ),
        forall|i: int, k: int|
            #![trigger items@[i], old(catalog).file_paths@[k]]
            0 <= i < items@.len() && 0 <= k < old(catalog).file_paths@.len() && old(
                catalog,
            ).file_paths@[k].location_id == location.id && old(catalog).file_paths@[k].id
                == items@[i].file_path_id ==> old(catalog).file_paths@[k].object_pub_id is None,
        forall|i: int, j: int|
            #![trigger items@[i], items@[j]]
            0 <= i < j < items@.len() ==> items@[i].file_path_id != items@[j].file_path_id,
        pub_ids@.len() == items@.len(),
        forall|i: int, j: int|
            #![trigger pub_ids@[i], pub_ids@[j]]
            0 <= i < j < pub_ids@.len() ==> pub_ids@[i] != pub_ids@[j],
        forall|i: int|
            0 <= i < pub_ids@.len() ==> !has_object(
                old(catalog).objects@,
                #[trigger] pub_ids@[i],
            ),
    ensures
        final(catalog).wf(),
        final(catalog).file_paths@.len() == old(catalog).file_paths@.len(),
        // The counters: one object per distinct new address, everything
        // else linked to an existing object.
        r.0 == count_created(items@, old(catalog).file_paths@, items@.len() as int),
        r.1 == items@.len() - r.0,
        // Old objects survive untouched; exactly the created ones are
        // appended, carrying the supplied public ids in order.
        final(catalog).objects@.len() == old(catalog).objects@.len() + r.0,
        forall|k: int|
            0 <= k < old(catalog).objects@.len() ==> #[trigger] final(catalog).objects@[k] == old(
                catalog,
            ).objects@[k],
        forall|k: int|
            old(catalog).objects@.len() <= k < final(catalog).objects@.len()
                ==> (#[trigger] final(catalog).objects@[k]).pub_id == pub_ids@[k - old(
                catalog,
            ).objects@.len()],
        // Every chunk row carries its computed content address and is
        // linked to an object; nothing but the address and the link
        // changes.
        forall|k: int, i: int|
            #![trigger final(catalog).file_paths@[k], items@[i]]
            0 <= k < old(catalog).file_paths@.len() && 0 <= i < items@.len() && old(
                catalog,
            ).file_paths@[k].location_id == location.id && old(catalog).file_paths@[k].id
                == items@[i].file_path_id ==> {
                let r1 = final(catalog).file_paths@[k];
                let r0 = old(catalog).file_paths@[k];
                &&& r1.cas_id == Some(items@[i].meta.cas_id)
                &&& r1.object_pub_id is Some
                &&& r1.location_id == r0.location_id
                &&& r1.id == r0.id
                &&& r1.materialized_path == r0.materialized_path
                &&& r1.is_dir == r0.is_dir
                &&& r1.extension == r0.extension
                &&& r1.date_created == r0.date_created
                &&& r1.parent_id == r0.parent_id
            },
        // Rows outside the chunk are untouched.
        forall|k: int|
            0 <= k < old(catalog).file_paths@.len() && !((#[trigger] old(
                catalog,
            ).file_paths@[k]).location_id == location.id && item_targets(
                items@,
                old(catalog).file_paths@[k].id,
            )) ==> final(catalog).file_paths@[k] == old(catalog).file_paths@[k],
        // The CRDT log: one address write per item, then per item either a
        // connection record, or four object records plus a connection.
        final(catalog).ops@.len() == old(catalog).ops@.len() + items@.len() + tail_ops_len(
            items@,
            old(catalog).file_paths@,
            items@.len() as int,
        ),
        forall|i: int|
            0 <= i < items@.len() ==> cas_op_matches(
                #[trigger] final(catalog).ops@[old(catalog).ops@.len() + i],
                items@[i],
                location.pub_id,
            ),
        forall|i: int|
            0 <= i < items@.len() ==> #[trigger] item_ops_ok(
                final(catalog).ops@,
                old(catalog).ops@.len() + items@.len() as int,
                items@,
                old(catalog).file_paths@,
                final(catalog).file_paths@,
                pub_ids@,
                location.id,
                location.pub_id,
                i,
            ),
{
    let ghost rows0 = catalog.file_paths@;
    let ghost objs0 = catalog.objects@;
    let ghost ops0 = catalog.ops@;
    let n = items.len();
    // Step 1: write every row's content address in one batch.
    let mut updates: Vec<CasUpdate> = Vec::new();
    let mut cas_ops: Vec<CrdtOperation> = Vec::new();
    let mut i: usize = 0;
    while i < n
        invariant
            i <= n,
            n == items@.len(),
            updates@.len() == i,
            cas_ops@.len() == i,
            location.pub_id == location.pub_id,
            forall|m: int|
                0 <= m < i ==> (#[trigger] updates@[m]).file_path_id == items@[m].file_path_id
                    && updates@[m].cas_id == items@[m].meta.cas_id,
            forall|m: int|
                0 <= m < i ==> cas_op_matches(
                    #[trigger] cas_ops@[m],
                    items@[m],
                    location.pub_id,
                ),
        decreases n - i,
    {
        let item = &items[i];
        updates.push(
            CasUpdate { file_path_id: item.file_path_id, cas_id: item.meta.cas_id.clone() },
        );
        let mut fields: Vec<FieldValue> = Vec::new();
        fields.push(
            FieldValue {
                field: String::from_str("cas_id"),
                value: SyncValue::Text(item.meta.cas_id.clone()),
            },
        );
        let op = CrdtOperation::OwnedUpdate {
            id: SyncId::FilePath { id: item.file_path_id, location_pub_id: location.pub_id },
            fields,
        };
        proof {
            assert(cas_op_matches(op, items@[i as int], location.pub_id));
        }
        cas_ops.push(op);
        i += 1;
    }
    proof {
        assert forall|i2: int|
            0 <= i2 < updates@.len() implies has_fp_key(
            catalog.file_paths@,
            location.id,
            (#[trigger] updates@[i2]).file_path_id,
        ) by {
            assert(items@[i2].file_path_id == updates@[i2].file_path_id);
            assert(has_fp_key(rows0, location.id, items@[i2].file_path_id));
        }
        assert forall|i2: int, k: int|
            #![trigger updates@[i2], catalog.file_paths@[k]]
            0 <= i2 < updates@.len() && 0 <= k < catalog.file_paths@.len()
                && catalog.file_paths@[k].location_id == location.id
                && catalog.file_paths@[k].id == updates@[i2].file_path_id implies catalog.file_paths@[k].object_pub_id is None by {
            assert(items@[i2].file_path_id == updates@[i2].file_path_id);
        }
        assert forall|i2: int, j2: int|
            #![trigger updates@[i2], updates@[j2]]
            0 <= i2 < j2 < updates@.len() implies updates@[i2].file_path_id
            != updates@[j2].file_path_id by {
            assert(items@[i2].file_path_id == updates@[i2].file_path_id);
            assert(items@[j2].file_path_id == updates@[j2].file_path_id);
        }
    }
    let ghost cas_ops_seq = cas_ops@;
    catalog.update_file_paths_cas_id(location.id, &updates, cas_ops);
    let ghost s1 = catalog.file_paths@;
    let ghost s1ops = catalog.ops@;
    proof {
        assert(s1ops == ops0 + cas_ops_seq);
        assert forall|i2: int|
            0 <= i2 < items@.len() implies cas_op_matches(
            #[trigger] s1ops[ops0.len() + i2],
            items@[i2],
            location.pub_id,
        ) by {
            assert(s1ops[ops0.len() + i2] == cas_ops_seq[i2]);
        }
        assert forall|k: int, i2: int|
            #![trigger s1[k], items@[i2]]
            0 <= k < rows0.len() && 0 <= i2 < items@.len() && rows0[k].location_id == location.id
                && rows0[k].id == items@[i2].file_path_id implies s1[k] == with_cas(
            rows0[k],
            items@[i2].meta.cas_id,
        ) by {
            assert(updates@[i2].file_path_id == items@[i2].file_path_id);
            assert(s1[k] == with_cas(rows0[k], updates@[i2].cas_id));
        }
        assert forall|k: int|
            0 <= k < rows0.len() && !((#[trigger] rows0[k]).location_id == location.id
                && item_targets(items@, rows0[k].id)) implies s1[k] == rows0[k] by {
            if rows0[k].location_id == location.id && update_for(updates@, rows0[k].id) {
                let w = choose|w: int|
                    0 <= w < updates@.len() && (#[trigger] updates@[w]).file_path_id == rows0[k].id;
                assert(items@[w].file_path_id == rows0[k].id);
                assert(item_targets(items@, rows0[k].id));
            }
        }
        assert forall|k: int|
            0 <= k < rows0.len() implies (#[trigger] s1[k]).location_id == rows0[k].location_id
            && s1[k].id == rows0[k].id && s1[k].object_pub_id == rows0[k].object_pub_id by {
            if rows0[k].location_id == location.id && update_for(updates@, rows0[k].id) {
                let w = choose|w: int|
                    0 <= w < updates@.len() && (#[trigger] updates@[w]).file_path_id == rows0[k].id;
                assert(s1[k] == with_cas(rows0[k], updates@[w].cas_id));
            } else {
                assert(s1[k] == rows0[k]);
            }
        }
        assert forall|i2: int|
            0 <= i2 < items@.len() implies has_fp_key(
            s1,
            location.id,
            (#[trigger] items@[i2]).file_path_id,
        ) by {
            assert(has_fp_key(rows0, location.id, items@[i2].file_path_id));
            let w = choose|w: int|
                0 <= w < rows0.len() && (#[trigger] rows0[w]).location_id == location.id
                    && rows0[w].id == items@[i2].file_path_id;
            assert(s1[w].location_id == location.id && s1[w].id == items@[i2].file_path_id);
        }
    }
    // Steps 3 to 5: link every row to the object for its address, creating
    // one object per distinct new address.
    let mut created: usize = 0;
    let mut linked: usize = 0;
    let mut j: usize = 0;
    while j < n
        invariant
            j <= n,
            n == items@.len(),
            location.pub_id == location.pub_id,
            catalog.wf(),
            forall|i2: int, k: int|
                #![trigger items@[i2], rows0[k]]
                0 <= i2 < items@.len() && 0 <= k < rows0.len() && rows0[k].location_id
                    == location.id && rows0[k].id == items@[i2].file_path_id
                    ==> rows0[k].object_pub_id is None,
            forall|i2: int, j2: int|
                #![trigger items@[i2], items@[j2]]
                0 <= i2 < j2 < items@.len() ==> items@[i2].file_path_id
                    != items@[j2].file_path_id,
            pub_ids@.len() == items@.len(),
            forall|i2: int, j2: int|
                #![trigger pub_ids@[i2], pub_ids@[j2]]
                0 <= i2 < j2 < pub_ids@.len() ==> pub_ids@[i2] != pub_ids@[j2],
            forall|i2: int|
                0 <= i2 < pub_ids@.len() ==> !has_object(objs0, #[trigger] pub_ids@[i2]),
            created as int == count_created(items@, rows0, j as int),
            created + linked == j,
            created <= j,
            catalog.file_paths@.len() == s1.len() == rows0.len(),
            // Exactly the created objects were appended, with the supplied
            // ids in order.
            catalog.objects@.len() == objs0.len() + created,
            forall|k: int|
                0 <= k < objs0.len() ==> #[trigger] catalog.objects@[k] == objs0[k],
            forall|k: int|
                objs0.len() <= k < catalog.objects@.len()
                    ==> (#[trigger] catalog.objects@[k]).pub_id == pub_ids@[k - objs0.len()],
            // The log grew by exactly the linking records so far.
            catalog.ops@.len() == s1ops.len() + tail_ops_len(items@, rows0, j as int),
            forall|x: int| 0 <= x < s1ops.len() ==> #[trigger] catalog.ops@[x] == s1ops[x],
            forall|i2: int|
                0 <= i2 < j ==> #[trigger] item_ops_ok(
                    catalog.ops@,
                    s1ops.len() as int,
                    items@,
                    rows0,
                    catalog.file_paths@,
                    pub_ids@,
                    location.id,
                    location.pub_id,
                    i2,
                ),
            // Every row keeps everything but its object link.
            forall|k: int|
                0 <= k < s1.len() ==> {
                    let r1 = #[trigger] catalog.file_paths@[k];
                    let r0 = s1[k];
                    &&& r1.cas_id == r0.cas_id
                    &&& r1.location_id == r0.location_id
                    &&& r1.id == r0.id
                    &&& r1.materialized_path == r0.materialized_path
                    &&& r1.is_dir == r0.is_dir
                    &&& r1.extension == r0.extension
                    &&& r1.date_created == r0.date_created
                    &&& r1.parent_id == r0.parent_id
                },
            // A row is linked now exactly when it was linked before, or an
            // already-processed item targets it.
            forall|k: int|
                0 <= k < s1.len() ==> ((#[trigger] catalog.file_paths@[k]).object_pub_id is Some
                    <==> (rows0[k].object_pub_id is Some || (rows0[k].location_id == location.id
                    && item_targets_below(items@, rows0[k].id, j as int)))),
            // Rows outside the chunk keep their object link too.
            forall|k: int|
                0 <= k < s1.len() && !((#[trigger] s1[k]).location_id == location.id
                    && item_targets(items@, s1[k].id)) ==> catalog.file_paths@[k] == s1[k],
            forall|i2: int|
                0 <= i2 < items@.len() ==> has_fp_key(
                    s1,
                    location.id,
                    (#[trigger] items@[i2]).file_path_id,
                ),
            forall|k: int, i2: int|
                #![trigger s1[k], items@[i2]]
                0 <= k < rows0.len() && 0 <= i2 < items@.len() && rows0[k].location_id
                    == location.id && rows0[k].id == items@[i2].file_path_id ==> s1[k] == with_cas(
                    rows0[k],
                    items@[i2].meta.cas_id,
                ),
            forall|k: int|
                0 <= k < rows0.len() ==> (#[trigger] s1[k]).location_id == rows0[k].location_id
                    && s1[k].id == rows0[k].id && s1[k].object_pub_id == rows0[k].object_pub_id,
            forall|k: int|
                0 <= k < rows0.len() && !((#[trigger] rows0[k]).location_id == location.id
                    && item_targets(items@, rows0[k].id)) ==> s1[k] == rows0[k],
        decreases n - j,
    {
        let item = &items[j];
        let ghost kw = choose|k: int|
            0 <= k < s1.len() && (#[trigger] s1[k]).location_id == location.id && s1[k].id
                == item.file_path_id;
        proof {
            assert(has_fp_key(s1, location.id, items@[j as int].file_path_id));
            assert(rows0[kw].location_id == location.id && rows0[kw].id == item.file_path_id);
            assert(s1[kw] == with_cas(rows0[kw], items@[j as int].meta.cas_id));
            assert(catalog.file_paths@[kw].cas_id == Some(items@[j as int].meta.cas_id));
            assert(has_fp_key(catalog.file_paths@, location.id, item.file_path_id));
        }
        let found = catalog.find_object_for_cas(&item.meta.cas_id);
        proof {
            // An object stands for this address now exactly when one stood
            // at the start or an earlier chunk item carries the address.
            let cur = catalog.file_paths@;
            let cas_j = items@[j as int].meta.cas_id@;
            assert(some_linked_for_cas(cur, cas_j) <==> !creates_object(
                items@,
                rows0,
                j as int,
            )) by {
                if some_linked_for_cas(cur, cas_j) {
                    let k = choose|k: int|
                        0 <= k < cur.len() && row_has_cas(#[trigger] cur[k], cas_j)
                            && cur[k].object_pub_id is Some;
                    if rows0[k].object_pub_id is Some {
                        // The row predates the chunk: chunk targets start
                        // unlinked.
                        if rows0[k].location_id == location.id && item_targets(
                            items@,
                            rows0[k].id,
                        ) {
                            let w = choose|w: int|
                                0 <= w < items@.len() && (#[trigger] items@[w]).file_path_id
                                    == rows0[k].id;
                            assert(rows0[k].object_pub_id is None);
                            assert(false);
                        }
                        assert(s1[k] == rows0[k]);
                        assert(catalog.file_paths@[k] == s1[k]);
                        assert(row_has_cas(rows0[k], cas_j));
                        assert(some_linked_for_cas(rows0, cas_j));
                    } else {
                        let w = choose|w: int|
                            0 <= w < j && (#[trigger] items@[w]).file_path_id == rows0[k].id;
                        assert(rows0[k].location_id == location.id);
                        assert(s1[k] == with_cas(rows0[k], items@[w].meta.cas_id));
                        assert(cur[k].cas_id == s1[k].cas_id);
                        assert(items@[w].meta.cas_id@ == cas_j);
                        assert(!creates_object(items@, rows0, j as int));
                    }
                } else {
                    if some_linked_for_cas(rows0, cas_j) {
                        let w = choose|w: int|
                            0 <= w < rows0.len() && row_has_cas(#[trigger] rows0[w], cas_j)
                                && rows0[w].object_pub_id is Some;
                        if rows0[w].location_id == location.id && item_targets(
                            items@,
                            rows0[w].id,
                        ) {
                            let w2 = choose|w2: int|
                                0 <= w2 < items@.len() && (#[trigger] items@[w2]).file_path_id
                                    == rows0[w].id;
                            assert(rows0[w].object_pub_id is None);
                        }
                        assert(s1[w] == rows0[w]);
                        assert(cur[w] == s1[w]);
                        assert(row_has_cas(cur[w], cas_j) && cur[w].object_pub_id is Some);
                        assert(false);
                    }
                    assert forall|i2: int| 0 <= i2 < j implies (#[trigger] items@[i2]).meta.cas_id@
                        != cas_j by {
                        if items@[i2].meta.cas_id@ == cas_j {
                            assert(has_fp_key(s1, location.id, items@[i2].file_path_id));
                            let k2 = choose|k2: int|
                                0 <= k2 < s1.len() && (#[trigger] s1[k2]).location_id
                                    == location.id && s1[k2].id == items@[i2].file_path_id;
                            assert(rows0[k2].location_id == location.id && rows0[k2].id
                                == items@[i2].file_path_id);
                            assert(item_targets_below(items@, rows0[k2].id, j as int));
                            assert(cur[k2].object_pub_id is Some);
                            assert(s1[k2] == with_cas(rows0[k2], items@[i2].meta.cas_id));
                            assert(cur[k2].cas_id == s1[k2].cas_id);
                            assert(row_has_cas(cur[k2], cas_j));
                            assert(some_linked_for_cas(cur, cas_j));
                            assert(false);
                        }
                    }
                    assert(creates_object(items@, rows0, j as int));
                }
            }
            assert(found is Some <==> !creates_object(items@, rows0, j as int));
            assert(count_created(items@, rows0, j + 1) == count_created(items@, rows0, j as int)
                + if creates_object(items@, rows0, j as int) {
                1int
            } else {
                0int
            });
        }
        match found {
            Some(object_pub_id) => {
                // Step 4: link to the object that already stands for this
                // address.
                let ghost pre = catalog.file_paths@;
                let ghost preops = catalog.ops@;
                proof {
                    assert(linked_object_for_cas(pre, item.meta.cas_id@, object_pub_id));
                    let w = choose|w: int|
                        0 <= w < pre.len() && row_has_cas(#[trigger] pre[w], item.meta.cas_id@)
                            && pre[w].object_pub_id == Some(object_pub_id);
                    assert(has_object(catalog.objects@, object_pub_id));
                    assert forall|k: int, j2: int|
                        #![trigger pre[k], pre[j2]]
                        0 <= k < pre.len() && 0 <= j2 < pre.len() && pre[k].location_id
                            == location.id && pre[k].id == item.file_path_id && same_cas(
                            pre[k],
                            pre[j2],
                        ) && pre[j2].object_pub_id is Some implies pre[j2].object_pub_id == Some(
                        object_pub_id,
                    ) by {
                        assert(pre[k].cas_id == Some(items@[j as int].meta.cas_id));
                        assert(row_has_cas(pre[j2], item.meta.cas_id@));
                        assert(same_cas(pre[j2], pre[w]));
                        assert(cas_links_agree(pre));
                    }
                }
                let (op, _connect) = file_path_object_connect_ops(
                    item.file_path_id,
                    object_pub_id,
                    location,
                );
                catalog.connect_file_path_to_object(
                    location.id,
                    item.file_path_id,
                    object_pub_id,
                    op,
                );
                linked = linked + 1;
                proof {
                    assert(catalog.ops@ == preops.push(op));
                    assert forall|x: int| 0 <= x < s1ops.len() implies #[trigger] catalog.ops@[x]
                        == s1ops[x] by {
                        assert(catalog.ops@[x] == preops[x]);
                    }
                    assert forall|k: int| 0 <= k < s1.len() implies {
                        let r1 = #[trigger] catalog.file_paths@[k];
                        let r0 = s1[k];
                        &&& r1.cas_id == r0.cas_id
                        &&& r1.location_id == r0.location_id
                        &&& r1.id == r0.id
                        &&& r1.materialized_path == r0.materialized_path
                        &&& r1.is_dir == r0.is_dir
                        &&& r1.extension == r0.extension
                        &&& r1.date_created == r0.date_created
                        &&& r1.parent_id == r0.parent_id
                    } by {
                        if pre[k].location_id == location.id && pre[k].id == item.file_path_id {
                            assert(catalog.file_paths@[k] == crate::catalog::with_object(
                                pre[k],
                                object_pub_id,
                            ));
                        } else {
                            assert(catalog.file_paths@[k] == pre[k]);
                        }
                    }
                    assert forall|k: int|
                        0 <= k < s1.len() implies ((#[trigger] catalog.file_paths@[k]).object_pub_id is Some
                        <==> (rows0[k].object_pub_id is Some || (rows0[k].location_id
                        == location.id && item_targets_below(items@, rows0[k].id, j + 1)))) by {
                        if pre[k].location_id == location.id && pre[k].id == item.file_path_id {
                            assert(catalog.file_paths@[k] == crate::catalog::with_object(
                                pre[k],
                                object_pub_id,
                            ));
                            assert(rows0[k].location_id == location.id && rows0[k].id
                                == item.file_path_id);
                            assert(items@[j as int].file_path_id == rows0[k].id);
                            assert(item_targets_below(items@, rows0[k].id, j + 1));
                        } else {
                            assert(catalog.file_paths@[k] == pre[k]);
                            if rows0[k].location_id == location.id && item_targets_below(
                                items@,
                                rows0[k].id,
                                j + 1,
                            ) && !item_targets_below(items@, rows0[k].id, j as int) {
                                let w = choose|w: int|
                                    0 <= w < j + 1 && (#[trigger] items@[w]).file_path_id
                                        == rows0[k].id;
                                assert(w == j as int);
                                assert(s1[k].location_id == location.id && s1[k].id
                                    == item.file_path_id);
                                assert(pre[k].location_id == location.id && pre[k].id
                                    == item.file_path_id);
                                assert(false);
                            }
                        }
                    }
                    assert forall|k: int|
                        0 <= k < s1.len() && !((#[trigger] s1[k]).location_id == location.id
                            && item_targets(items@, s1[k].id)) implies catalog.file_paths@[k]
                        == s1[k] by {
                        assert(item_targets(items@, items@[j as int].file_path_id));
                        assert(!(pre[k].location_id == location.id && pre[k].id
                            == item.file_path_id));
                        assert(catalog.file_paths@[k] == pre[k]);
                    }
                    // This item's connection record stands at the end of
                    // the log, and its row is now linked.
                    let bj = s1ops.len() + tail_ops_len(items@, rows0, j as int);
                    assert(bj == preops.len());
                    assert(catalog.ops@[bj as int] == op);
                    assert(catalog.file_paths@[kw].location_id == location.id
                        && catalog.file_paths@[kw].id == item.file_path_id
                        && catalog.file_paths@[kw].object_pub_id == Some(object_pub_id)) by {
                        assert(pre[kw].location_id == location.id && pre[kw].id
                            == item.file_path_id);
                        assert(catalog.file_paths@[kw] == crate::catalog::with_object(
                            pre[kw],
                            object_pub_id,
                        ));
                    }
                    assert(chunk_row_linked_to(
                        catalog.file_paths@,
                        location.id,
                        item.file_path_id,
                        object_pub_id,
                    ));
                    assert(connect_op_matches(
                        catalog.ops@[bj as int],
                        items@[j as int].file_path_id,
                        location.pub_id,
                        object_pub_id,
                    ));
                    assert forall|i2: int|
                        0 <= i2 < j + 1 implies #[trigger] item_ops_ok(
                        catalog.ops@,
                        s1ops.len() as int,
                        items@,
                        rows0,
                        catalog.file_paths@,
                        pub_ids@,
                        location.id,
                        location.pub_id,
                        i2,
                    ) by {
                        if i2 < j {
                            assert(item_ops_ok(
                                preops,
                                s1ops.len() as int,
                                items@,
                                rows0,
                                pre,
                                pub_ids@,
                                location.id,
                                location.pub_id,
                                i2,
                            ));
                            let b = s1ops.len() + tail_ops_len(items@, rows0, i2);
                            if creates_object(items@, rows0, i2) {
                                let o = pub_ids@[count_created(items@, rows0, i2)];
                                assert(catalog.ops@[b] == preops[b]);
                                assert(catalog.ops@[b + 1] == preops[b + 1]);
                                assert(catalog.ops@[b + 2] == preops[b + 2]);
                                assert(catalog.ops@[b + 3] == preops[b + 3]);
                                assert(catalog.ops@[b + 4] == preops[b + 4]);
                                assert(object_create_ops_match(
                                    catalog.ops@,
                                    b,
                                    items@[i2],
                                    o,
                                ));
                                assert(connect_op_matches(
                                    catalog.ops@[b + 4],
                                    items@[i2].file_path_id,
                                    location.pub_id,
                                    o,
                                ));
                                let k2 = choose|k2: int|
                                    0 <= k2 < pre.len() && (#[trigger] pre[k2]).location_id
                                        == location.id && pre[k2].id == items@[i2].file_path_id
                                        && pre[k2].object_pub_id == Some(o);
                                assert(items@[i2].file_path_id
                                    != items@[j as int].file_path_id);
                                assert(catalog.file_paths@[k2] == pre[k2]);
                                assert(chunk_row_linked_to(
                                    catalog.file_paths@,
                                    location.id,
                                    items@[i2].file_path_id,
                                    o,
                                ));
                            } else {
                                let o = choose|o: u128|
                                    #[trigger] connect_op_matches(
                                        preops[b],
                                        items@[i2].file_path_id,
                                        location.pub_id,
                                        o,
                                    ) && chunk_row_linked_to(
                                        pre,
                                        location.id,
                                        items@[i2].file_path_id,
                                        o,
                                    );
                                assert(catalog.ops@[b] == preops[b]);
                                assert(connect_op_matches(
                                    catalog.ops@[b],
                                    items@[i2].file_path_id,
                                    location.pub_id,
                                    o,
                                ));
                                let k2 = choose|k2: int|
                                    0 <= k2 < pre.len() && (#[trigger] pre[k2]).location_id
                                        == location.id && pre[k2].id == items@[i2].file_path_id
                                        && pre[k2].object_pub_id == Some(o);
                                assert(items@[i2].file_path_id
                                    != items@[j as int].file_path_id);
                                assert(catalog.file_paths@[k2] == pre[k2]);
                                assert(chunk_row_linked_to(
                                    catalog.file_paths@,
                                    location.id,
                                    items@[i2].file_path_id,
                                    o,
                                ));
                            }
                        }
                    }
                }
            },
            None => {
                // Step 5: create the object for this new address, then
                // link. The supplied ids are fresh and distinct, so the
                // insert cannot collide.
                let pub_id = pub_ids[created];
                let ghost pre = catalog.file_paths@;
                let ghost preo = catalog.objects@;
                let ghost preops = catalog.ops@;
                let ghost cc = created as int;
                let mut obj_ops: Vec<CrdtOperation> = Vec::new();
                obj_ops.push(
                    CrdtOperation::SharedCreate { id: SyncId::Object { pub_id } },
                );
                obj_ops.push(
                    CrdtOperation::SharedUpdate {
                        id: SyncId::Object { pub_id },
                        field: String::from_str("date_created"),
                        value: SyncValue::Int(item.date_created),
                    },
                );
                obj_ops.push(
                    CrdtOperation::SharedUpdate {
                        id: SyncId::Object { pub_id },
                        field: String::from_str("kind"),
                        value: SyncValue::Int(kind_to_int(item.meta.kind) as i64),
                    },
                );
                obj_ops.push(
                    CrdtOperation::SharedUpdate {
                        id: SyncId::Object { pub_id },
                        field: String::from_str("size_in_bytes"),
                        value: SyncValue::Text(u64_to_dec(item.meta.size_in_bytes)),
                    },
                );
                let obj = crate::catalog::ObjectRow {
                    pub_id,
                    kind: kind_to_int(item.meta.kind),
                    date_created: item.date_created,
                    size_in_bytes: u64_to_dec(item.meta.size_in_bytes),
                };
                let ghost oo = obj_ops@;
                proof {
                    assert(oo.len() == 4);
                    assert(oo[0] matches CrdtOperation::SharedCreate {
                        id: SyncId::Object { pub_id: p },
                    } && p == pub_id);
                    assert(oo[1] matches CrdtOperation::SharedUpdate {
                        id: SyncId::Object { pub_id: p },
                        field: f,
                        value: v,
                    } && p == pub_id && f@ == "date_created"@ && v == SyncValue::Int(
                        items@[j as int].date_created,
                    ));
                    assert(oo[2] matches CrdtOperation::SharedUpdate {
                        id: SyncId::Object { pub_id: p },
                        field: f,
                        value: v,
                    } && p == pub_id && f@ == "kind"@ && v == SyncValue::Int(
                        spec_kind_to_int(items@[j as int].meta.kind) as i64,
                    ));
                    assert(oo[3] matches CrdtOperation::SharedUpdate {
                        id: SyncId::Object { pub_id: p },
                        field: f,
                        value: v,
                    } && p == pub_id && f@ == "size_in_bytes"@ && (v matches SyncValue::Text(st)
                        && st@ == crate::cas::dec_of(items@[j as int].meta.size_in_bytes as nat)));
                }
                let mut objs: Vec<crate::catalog::ObjectRow> = Vec::new();
                objs.push(obj);
                proof {
                    let c = catalog.objects@ + objs@;
                    assert forall|a: int, b: int|
                        #![trigger c[a], c[b]]
                        0 <= a < b < c.len() implies c[a].pub_id != c[b].pub_id by {
                        if b == c.len() - 1 {
                            assert(c[a] == catalog.objects@[a]);
                            assert(c[b] == objs@[0]);
                            if a < objs0.len() {
                                assert(c[a] == objs0[a]);
                                assert(!has_object(objs0, pub_ids@[created as int]));
                            } else {
                                assert(c[a].pub_id == pub_ids@[a - objs0.len()]);
                                assert(a - objs0.len() < created as int);
                            }
                        } else {
                            assert(c[a] == catalog.objects@[a]);
                            assert(c[b] == catalog.objects@[b]);
                        }
                    }
                    assert(crate::catalog::object_ids_unique(c));
                }
                match catalog.insert_objects_batch(objs, obj_ops) {
                    Ok(_) => {},
                    Err(_) => {
                        proof {
                            assert(false);
                        }
                    },
                }
                proof {
                    assert(catalog.objects@[preo.len() as int].pub_id == pub_id);
                    assert(has_object(catalog.objects@, pub_id));
                    assert(catalog.file_paths@ == pre);
                    // No row with this address is linked, so linking cannot
                    // disagree with anything.
                    assert(!some_linked_for_cas(pre, item.meta.cas_id@));
                    assert forall|k: int, j2: int|
                        #![trigger pre[k], pre[j2]]
                        0 <= k < pre.len() && 0 <= j2 < pre.len() && pre[k].location_id
                            == location.id && pre[k].id == item.file_path_id && same_cas(
                            pre[k],
                            pre[j2],
                        ) && pre[j2].object_pub_id is Some implies pre[j2].object_pub_id == Some(
                        pub_id,
                    ) by {
                        assert(pre[k].cas_id == Some(items@[j as int].meta.cas_id));
                        assert(row_has_cas(pre[j2], item.meta.cas_id@));
                        assert(some_linked_for_cas(pre, item.meta.cas_id@));
                    }
                    assert forall|k: int|
                        0 <= k < objs0.len() implies #[trigger] catalog.objects@[k]
                        == objs0[k] by {
                        assert(catalog.objects@[k] == preo[k]);
                    }
                    assert forall|k: int|
                        objs0.len() <= k < catalog.objects@.len()
                            implies (#[trigger] catalog.objects@[k]).pub_id == pub_ids@[k
                        - objs0.len()] by {
                        if k < preo.len() {
                            assert(catalog.objects@[k] == preo[k]);
                        } else {
                            assert(catalog.objects@[k] == objs@[0]);
                        }
                    }
                }
                let (op, _connect) = file_path_object_connect_ops(
                    item.file_path_id,
                    pub_id,
                    location,
                );
                catalog.connect_file_path_to_object(
                    location.id,
                    item.file_path_id,
                    pub_id,
                    op,
                );
                created = created + 1;
                proof {
                    assert(catalog.ops@ == (preops + obj_ops@).push(op));
                    assert forall|x: int| 0 <= x < s1ops.len() implies #[trigger] catalog.ops@[x]
                        == s1ops[x] by {
                        assert(catalog.ops@[x] == preops[x]);
                    }
                    assert(catalog.ops@.len() == preops.len() + 5);
                    assert forall|k: int| 0 <= k < s1.len() implies {
                        let r1 = #[trigger] catalog.file_paths@[k];
                        let r0 = s1[k];
                        &&& r1.cas_id == r0.cas_id
                        &&& r1.location_id == r0.location_id
                        &&& r1.id == r0.id
                        &&& r1.materialized_path == r0.materialized_path
                        &&& r1.is_dir == r0.is_dir
                        &&& r1.extension == r0.extension
                        &&& r1.date_created == r0.date_created
                        &&& r1.parent_id == r0.parent_id
                    } by {
                        if pre[k].location_id == location.id && pre[k].id == item.file_path_id {
                            assert(catalog.file_paths@[k] == crate::catalog::with_object(
                                pre[k],
                                pub_id,
                            ));
                        } else {
                            assert(catalog.file_paths@[k] == pre[k]);
                        }
                    }
                    assert forall|k: int|
                        0 <= k < s1.len() implies ((#[trigger] catalog.file_paths@[k]).object_pub_id is Some
                        <==> (rows0[k].object_pub_id is Some || (rows0[k].location_id
                        == location.id && item_targets_below(items@, rows0[k].id, j + 1)))) by {
                        if pre[k].location_id == location.id && pre[k].id == item.file_path_id {
                            assert(catalog.file_paths@[k] == crate::catalog::with_object(
                                pre[k],
                                pub_id,
                            ));
                            assert(rows0[k].location_id == location.id && rows0[k].id
                                == item.file_path_id);
                            assert(items@[j as int].file_path_id == rows0[k].id);
                            assert(item_targets_below(items@, rows0[k].id, j + 1));
                        } else {
                            assert(catalog.file_paths@[k] == pre[k]);
                            if rows0[k].location_id == location.id && item_targets_below(
                                items@,
                                rows0[k].id,
                                j + 1,
                            ) && !item_targets_below(items@, rows0[k].id, j as int) {
                                let w = choose|w: int|
                                    0 <= w < j + 1 && (#[trigger] items@[w]).file_path_id
                                        == rows0[k].id;
                                assert(w == j as int);
                                assert(s1[k].location_id == location.id && s1[k].id
                                    == item.file_path_id);
                                assert(pre[k].location_id == location.id && pre[k].id
                                    == item.file_path_id);
                                assert(false);
                            }
                        }
                    }
                    assert forall|k: int|
                        0 <= k < s1.len() && !((#[trigger] s1[k]).location_id == location.id
                            && item_targets(items@, s1[k].id)) implies catalog.file_paths@[k]
                        == s1[k] by {
                        assert(item_targets(items@, items@[j as int].file_path_id));
                        assert(!(pre[k].location_id == location.id && pre[k].id
                            == item.file_path_id));
                        assert(catalog.file_paths@[k] == pre[k]);
                    }
                    // This item's five records stand at the end of the
                    // log, and its row is now linked to the consumed id.
                    let bj = s1ops.len() + tail_ops_len(items@, rows0, j as int);
                    assert(bj == preops.len());
                    assert(catalog.ops@ == (preops + oo).push(op));
                    assert(catalog.ops@[bj as int] == oo[0]);
                    assert(catalog.ops@[bj + 1] == oo[1]);
                    assert(catalog.ops@[bj + 2] == oo[2]);
                    assert(catalog.ops@[bj + 3] == oo[3]);
                    assert(catalog.ops@[bj + 4] == op);
                    assert(object_create_ops_match(
                        catalog.ops@,
                        bj as int,
                        items@[j as int],
                        pub_id,
                    ));
                    assert(connect_op_matches(
                        catalog.ops@[bj + 4],
                        items@[j as int].file_path_id,
                        location.pub_id,
                        pub_id,
                    ));
                    assert(catalog.file_paths@[kw].location_id == location.id
                        && catalog.file_paths@[kw].id == item.file_path_id
                        && catalog.file_paths@[kw].object_pub_id == Some(pub_id)) by {
                        assert(pre[kw].location_id == location.id && pre[kw].id
                            == item.file_path_id);
                        assert(catalog.file_paths@[kw] == crate::catalog::with_object(
                            pre[kw],
                            pub_id,
                        ));
                    }
                    assert(chunk_row_linked_to(
                        catalog.file_paths@,
                        location.id,
                        item.file_path_id,
                        pub_id,
                    ));
                    assert(pub_id == pub_ids@[count_created(items@, rows0, j as int)]);
                    assert forall|i2: int|
                        0 <= i2 < j + 1 implies #[trigger] item_ops_ok(
                        catalog.ops@,
                        s1ops.len() as int,
                        items@,
                        rows0,
                        catalog.file_paths@,
                        pub_ids@,
                        location.id,
                        location.pub_id,
                        i2,
                    ) by {
                        if i2 < j {
                            assert(item_ops_ok(
                                preops,
                                s1ops.len() as int,
                                items@,
                                rows0,
                                pre,
                                pub_ids@,
                                location.id,
                                location.pub_id,
                                i2,
                            ));
                            let b = s1ops.len() + tail_ops_len(items@, rows0, i2);
                            if creates_object(items@, rows0, i2) {
                                let o = pub_ids@[count_created(items@, rows0, i2)];
                                assert(catalog.ops@[b] == preops[b]);
                                assert(catalog.ops@[b + 1] == preops[b + 1]);
                                assert(catalog.ops@[b + 2] == preops[b + 2]);
                                assert(catalog.ops@[b + 3] == preops[b + 3]);
                                assert(catalog.ops@[b + 4] == preops[b + 4]);
                                assert(object_create_ops_match(
                                    catalog.ops@,
                                    b,
                                    items@[i2],
                                    o,
                                ));
                                assert(connect_op_matches(
                                    catalog.ops@[b + 4],
                                    items@[i2].file_path_id,
                                    location.pub_id,
                                    o,
                                ));
                                let k2 = choose|k2: int|
                                    0 <= k2 < pre.len() && (#[trigger] pre[k2]).location_id
                                        == location.id && pre[k2].id == items@[i2].file_path_id
                                        && pre[k2].object_pub_id == Some(o);
                                assert(items@[i2].file_path_id
                                    != items@[j as int].file_path_id);
                                assert(catalog.file_paths@[k2] == pre[k2]);
                                assert(chunk_row_linked_to(
                                    catalog.file_paths@,
                                    location.id,
                                    items@[i2].file_path_id,
                                    o,
                                ));
                            } else {
                                let o = choose|o: u128|
                                    #[trigger] connect_op_matches(
                                        preops[b],
                                        items@[i2].file_path_id,
                                        location.pub_id,
                                        o,
                                    ) && chunk_row_linked_to(
                                        pre,
                                        location.id,
                                        items@[i2].file_path_id,
                                        o,
                                    );
                                assert(catalog.ops@[b] == preops[b]);
                                assert(connect_op_matches(
                                    catalog.ops@[b],
                                    items@[i2].file_path_id,
                                    location.pub_id,
                                    o,
                                ));
                                let k2 = choose|k2: int|
                                    0 <= k2 < pre.len() && (#[trigger] pre[k2]).location_id
                                        == location.id && pre[k2].id == items@[i2].file_path_id
                                        && pre[k2].object_pub_id == Some(o);
                                assert(items@[i2].file_path_id
                                    != items@[j as int].file_path_id);
                                assert(catalog.file_paths@[k2] == pre[k2]);
                                assert(chunk_row_linked_to(
                                    catalog.file_paths@,
                                    location.id,
                                    items@[i2].file_path_id,
                                    o,
                                ));
                            }
                        }
                    }
                }
            },
        }
        j += 1;
    }
    proof {
        // Chunk rows: the content address was written by the batch, the
        // linking phase connected every one, and nothing else changed.
        assert forall|k: int, i2: int|
            #![trigger catalog.file_paths@[k], items@[i2]]
            0 <= k < rows0.len() && 0 <= i2 < items@.len() && rows0[k].location_id == location.id
                && rows0[k].id == items@[i2].file_path_id implies {
            let r1 = catalog.file_paths@[k];
            let r0 = rows0[k];
            &&& r1.cas_id == Some(items@[i2].meta.cas_id)
            &&& r1.object_pub_id is Some
            &&& r1.location_id == r0.location_id
            &&& r1.id == r0.id
            &&& r1.materialized_path == r0.materialized_path
            &&& r1.is_dir == r0.is_dir
            &&& r1.extension == r0.extension
            &&& r1.date_created == r0.date_created
            &&& r1.parent_id == r0.parent_id
        } by {
            assert(s1[k] == with_cas(rows0[k], items@[i2].meta.cas_id));
            assert(catalog.file_paths@[k].cas_id == s1[k].cas_id);
            assert(item_targets_below(items@, rows0[k].id, n as int));
        }
        assert forall|i2: int|
            0 <= i2 < items@.len() implies cas_op_matches(
            #[trigger] catalog.ops@[ops0.len() + i2],
            items@[i2],
            location.pub_id,
        ) by {
            assert(catalog.ops@[ops0.len() + i2] == s1ops[ops0.len() + i2]);
        }
        assert forall|i2: int|
            0 <= i2 < items@.len() implies #[trigger] item_ops_ok(
            catalog.ops@,
            ops0.len() + items@.len() as int,
            items@,
            rows0,
            catalog.file_paths@,
            pub_ids@,
            location.id,
            location.pub_id,
            i2,
        ) by {
            assert(item_ops_ok(
                catalog.ops@,
                s1ops.len() as int,
                items@,
                rows0,
                catalog.file_paths@,
                pub_ids@,
                location.id,
                location.pub_id,
                i2,
            ));
            assert(s1ops.len() as int == ops0.len() + items@.len() as int);
        }
    }
    (created, linked)
}

} // verus!
