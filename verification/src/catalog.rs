//! The persisted catalog: file path rows, object rows, and the CRDT log.
//!
//! This is the typed interface over the relational store that the pipelines
//! write through. Its well-formedness predicate carries the system's central
//! invariants: per-location file path keys are unique, every parent link
//! names an existing directory row whose path prefixes the child's, object
//! public ids are unique, object links resolve, and all file paths sharing a
//! CAS id agree on the object they are linked to.

use vstd::prelude::*;
use vstd::string::StrSliceExecFns;
use crate::path::is_materialized_str;
use crate::path::is_path_prefix;
use crate::sync::CrdtOperation;

verus! {

/// A catalog row describing one filesystem entry under a location.
#[derive(Debug)]
pub struct FilePathRow {
    pub location_id: i32,
    pub id: i32,
    pub materialized_path: String,
    pub is_dir: bool,
    /// Lowercased, without the dot; empty for entries without one.
    pub extension: String,
    /// Creation time as milliseconds since the epoch.
    pub date_created: i64,
    /// Null only for the root of a location.
    pub parent_id: Option<i32>,
    /// Null until the identifier has processed the row.
    pub cas_id: Option<String>,
    /// The linked object's public id; null until linked.
    pub object_pub_id: Option<u128>,
}

/// A logical content entity; file paths with equal CAS ids share one.
#[derive(Debug)]
pub struct ObjectRow {
    /// A 16-byte public identifier.
    pub pub_id: u128,
    pub kind: i32,
    /// Creation time as milliseconds since the epoch.
    pub date_created: i64,
    /// The byte length of the content, rendered in decimal.
    pub size_in_bytes: String,
}

/// The largest file path id a location holds, 0 where it holds none.
pub open spec fn max_id_below(s: Seq<FilePathRow>, loc: i32) -> int
    decreases s.len(),
{
    if s.len() == 0 {
        0
    } else {
        let m = max_id_below(s.drop_last(), loc);
        if s.last().location_id == loc && s.last().id > m {
            s.last().id as int
        } else {
            m
        }
    }
}

/// Why a catalog write was refused.
#[derive(Debug, PartialEq, Eq)]
pub enum CatalogError {
    /// A file path insert would collide on (location_id, id).
    FilePathKeyCollision,
    /// An object insert would collide on its public id.
    ObjectPubIdCollision,
}

pub open spec fn fp_keys_unique(s: Seq<FilePathRow>) -> bool {
    forall|i: int, j: int|
        #![trigger s[i], s[j]]
        0 <= i < j < s.len() ==> !(s[i].location_id == s[j].location_id && s[i].id == s[j].id)
}

pub open spec fn has_fp_key(s: Seq<FilePathRow>, loc: i32, id: i32) -> bool {
    exists|k: int| 0 <= k < s.len() && (#[trigger] s[k]).location_id == loc && s[k].id == id
}

pub open spec fn has_path(s: Seq<FilePathRow>, loc: i32, p: Seq<char>) -> bool {
    exists|k: int|
        0 <= k < s.len() && (#[trigger] s[k]).location_id == loc && s[k].materialized_path@ == p
}

/// Index `k` holds the parent row for `row` under parent id `p`.
pub open spec fn is_parent_of(s: Seq<FilePathRow>, k: int, row: FilePathRow, p: i32) -> bool {
    &&& 0 <= k < s.len()
    &&& s[k].location_id == row.location_id
    &&& s[k].id == p
    &&& s[k].is_dir
    &&& is_path_prefix(s[k].materialized_path@, row.materialized_path@)
}

/// A row's parent link, when present, names an existing directory row whose
/// materialized path is a proper prefix of the row's own.
pub open spec fn parent_ok(s: Seq<FilePathRow>, row: FilePathRow) -> bool {
    match row.parent_id {
        Some(p) => exists|k: int| is_parent_of(s, k, row, p),
        None => true,
    }
}

pub open spec fn rows_wf(s: Seq<FilePathRow>) -> bool {
    forall|i: int|
        0 <= i < s.len() ==> {
            &&& is_materialized_str((#[trigger] s[i]).materialized_path@, s[i].is_dir)
            &&& parent_ok(s, s[i])
        }
}

pub open spec fn has_object(objs: Seq<ObjectRow>, pub_id: u128) -> bool {
    exists|k: int| 0 <= k < objs.len() && (#[trigger] objs[k]).pub_id == pub_id
}

pub open spec fn object_ids_unique(objs: Seq<ObjectRow>) -> bool {
    forall|i: int, j: int|
        #![trigger objs[i], objs[j]]
        0 <= i < j < objs.len() ==> objs[i].pub_id != objs[j].pub_id
}

pub open spec fn links_ok(s: Seq<FilePathRow>, objs: Seq<ObjectRow>) -> bool {
    forall|i: int|
        0 <= i < s.len() ==> match (#[trigger] s[i]).object_pub_id {
            Some(o) => has_object(objs, o),
            None => true,
        }
}

pub open spec fn row_has_cas(row: FilePathRow, cas: Seq<char>) -> bool {
    match row.cas_id {
        Some(c) => c@ == cas,
        None => false,
    }
}

pub open spec fn same_cas(r1: FilePathRow, r2: FilePathRow) -> bool {
    match (r1.cas_id, r2.cas_id) {
        (Some(c1), Some(c2)) => c1@ == c2@,
        _ => false,
    }
}

/// All linked rows sharing a CAS id are linked to the same object: within a
/// library, at most one object stands for any given content address.
pub open spec fn cas_links_agree(s: Seq<FilePathRow>) -> bool {
    forall|i: int, j: int|
        #![trigger s[i], s[j]]
        0 <= i < s.len() && 0 <= j < s.len() && same_cas(s[i], s[j]) && s[i].object_pub_id is Some
            && s[j].object_pub_id is Some ==> s[i].object_pub_id == s[j].object_pub_id
}

/// The catalog: the two row tables plus the CRDT log appended alongside
/// every write.
#[derive(Debug)]
pub struct Catalog {
    pub file_paths: Vec<FilePathRow>,
    pub objects: Vec<ObjectRow>,
    pub ops: Vec<CrdtOperation>,
}

impl Catalog {
    pub open spec fn wf(self) -> bool {
        &&& fp_keys_unique(self.file_paths@)
        &&& rows_wf(self.file_paths@)
        &&& object_ids_unique(self.objects@)
        &&& links_ok(self.file_paths@, self.objects@)
        &&& cas_links_agree(self.file_paths@)
    }

    pub fn new() -> (r: Catalog)
        ensures
            r.wf(),
            r.file_paths@.len() == 0,
            r.objects@.len() == 0,
            r.ops@.len() == 0,
    {
        Catalog { file_paths: Vec::new(), objects: Vec::new(), ops: Vec::new() }
    }

    pub fn contains_fp_key(&self, loc: i32, id: i32) -> (r: bool)
        ensures
            r == has_fp_key(self.file_paths@, loc, id),
    {
        let n = self.file_paths.len();
        let mut k: usize = 0;
        while k < n
            invariant
                k <= n,
                n == self.file_paths@.len(),
                forall|m: int|
                    0 <= m < k ==> !((#[trigger] self.file_paths@[m]).location_id == loc
                        && self.file_paths@[m].id == id),
            decreases n - k,
        {
            let row = &self.file_paths[k];
            if row.location_id == loc && row.id == id {
                return true;
            }
            k += 1;
        }
        false
    }

    pub fn contains_object(&self, pub_id: u128) -> (r: bool)
        ensures
            r == has_object(self.objects@, pub_id),
    {
        let n = self.objects.len();
        let mut k: usize = 0;
        while k < n
            invariant
                k <= n,
                n == self.objects@.len(),
                forall|m: int| 0 <= m < k ==> (#[trigger] self.objects@[m]).pub_id != pub_id,
            decreases n - k,
        {
            if self.objects[k].pub_id == pub_id {
                return true;
            }
            k += 1;
        }
        false
    }

    /// Looks up the persisted id of the row with the given materialized
    /// path, as the indexer does for the parent of its walk root.
    pub fn get_existing_file_path_id(&self, location_id: i32, path: &str) -> (r: Option<i32>)
        ensures
            r is Some <==> has_path(self.file_paths@, location_id, path@),
            r matches Some(id) ==> exists|k: int|
                0 <= k < self.file_paths@.len() && (#[trigger] self.file_paths@[k]).location_id
                    == location_id && self.file_paths@[k].materialized_path@ == path@
                    && self.file_paths@[k].id == id,
    {
        let n = self.file_paths.len();
        let mut k: usize = 0;
        while k < n
            invariant
                k <= n,
                n == self.file_paths@.len(),
                forall|m: int|
                    0 <= m < k ==> !((#[trigger] self.file_paths@[m]).location_id == location_id
                        && self.file_paths@[m].materialized_path@ == path@),
            decreases n - k,
        {
            let row = &self.file_paths[k];
            if row.location_id == location_id && str_eq(row.materialized_path.as_str(), path) {
                return Some(row.id);
            }
            k += 1;
        }
        None
    }

    /// The largest file path id assigned under a location, or 0 where none
    /// is; the ID allocator's cold read.
    pub fn max_file_path_id(&self, location_id: i32) -> (r: i32)
        ensures
            r >= 0,
            r as int == max_id_below(self.file_paths@, location_id),
            forall|k: int|
                0 <= k < self.file_paths@.len() && (#[trigger] self.file_paths@[k]).location_id
                    == location_id ==> self.file_paths@[k].id <= r,
            r > 0 ==> has_fp_key(self.file_paths@, location_id, r),
    {
        let n = self.file_paths.len();
        let mut best: i32 = 0;
        let mut k: usize = 0;
        proof {
            assert(self.file_paths@.take(0) =~= Seq::<FilePathRow>::empty());
        }
        while k < n
            invariant
                k <= n,
                n == self.file_paths@.len(),
                best >= 0,
                best as int == max_id_below(self.file_paths@.take(k as int), location_id),
                forall|m: int|
                    0 <= m < k && (#[trigger] self.file_paths@[m]).location_id == location_id
                        ==> self.file_paths@[m].id <= best,
                best > 0 ==> has_fp_key(self.file_paths@, location_id, best),
            decreases n - k,
        {
            let row = &self.file_paths[k];
            proof {
                assert(self.file_paths@.take(k + 1).drop_last() =~= self.file_paths@.take(
                    k as int,
                ));
                assert(self.file_paths@.take(k + 1).last() == self.file_paths@[k as int]);
            }
            if row.location_id == location_id && row.id > best {
                best = row.id;
            }
            k += 1;
        }
        proof {
            assert(self.file_paths@.take(n as int) =~= self.file_paths@);
        }
        best
    }
}

/// One cas_id assignment of the identifier's write-back step.
#[derive(Debug)]
pub struct CasUpdate {
    pub file_path_id: i32,
    pub cas_id: String,
}

/// `row` with its cas_id replaced.
pub open spec fn with_cas(row: FilePathRow, cas: String) -> FilePathRow {
    FilePathRow { cas_id: Some(cas), ..row }
}

/// `row` with its object link replaced.
pub open spec fn with_object(row: FilePathRow, o: u128) -> FilePathRow {
    FilePathRow { object_pub_id: Some(o), ..row }
}

/// Some update in `us` targets file path id `id`.
pub open spec fn update_for(us: Seq<CasUpdate>, id: i32) -> bool {
    exists|i: int| 0 <= i < us.len() && (#[trigger] us[i]).file_path_id == id
}

pub open spec fn seq_contains_str(ss: Seq<String>, p: Seq<char>) -> bool {
    exists|i: int| 0 <= i < ss.len() && (#[trigger] ss[i])@ == p
}

/// Some row is linked for this CAS id.
pub open spec fn some_linked_for_cas(s: Seq<FilePathRow>, cas: Seq<char>) -> bool {
    exists|k: int|
        0 <= k < s.len() && row_has_cas(#[trigger] s[k], cas) && s[k].object_pub_id is Some
}

/// Object `o` is linked from some row carrying this CAS id.
pub open spec fn linked_object_for_cas(s: Seq<FilePathRow>, cas: Seq<char>, o: u128) -> bool {
    exists|k: int|
        0 <= k < s.len() && row_has_cas(#[trigger] s[k], cas) && s[k].object_pub_id == Some(o)
}

/// A parent witness survives appending rows.
pub proof fn lemma_parent_ok_extend(s: Seq<FilePathRow>, t: Seq<FilePathRow>, row: FilePathRow)
    requires
        parent_ok(s, row),
    ensures
        parent_ok(s + t, row),
{
    match row.parent_id {
        Some(p) => {
            let k = choose|k: int| is_parent_of(s, k, row, p);
            assert((s + t)[k] == s[k]);
            assert(is_parent_of(s + t, k, row, p));
        },
        None => {},
    }
}

/// Replacing one row by another with the same key, path, directory flag and
/// parent link preserves every row-level invariant, provided the new row's
/// object link resolves and agrees with every row sharing its CAS id.
pub proof fn lemma_wf_parts_update(
    s: Seq<FilePathRow>,
    objs: Seq<ObjectRow>,
    m: int,
    row2: FilePathRow,
)
    requires
        fp_keys_unique(s),
        rows_wf(s),
        links_ok(s, objs),
        cas_links_agree(s),
        0 <= m < s.len(),
        row2.location_id == s[m].location_id,
        row2.id == s[m].id,
        row2.is_dir == s[m].is_dir,
        row2.materialized_path@ == s[m].materialized_path@,
        row2.parent_id == s[m].parent_id,
        match row2.object_pub_id {
            Some(o) => has_object(objs, o),
            None => true,
        },
        forall|j: int|
            0 <= j < s.len() && j != m && same_cas(row2, #[trigger] s[j])
                && row2.object_pub_id is Some && s[j].object_pub_id is Some
                ==> row2.object_pub_id == s[j].object_pub_id,
    ensures
        fp_keys_unique(s.update(m, row2)),
        rows_wf(s.update(m, row2)),
        links_ok(s.update(m, row2), objs),
        cas_links_agree(s.update(m, row2)),
{
    let s2 = s.update(m, row2);
    assert forall|i: int, j: int|
        #![trigger s2[i], s2[j]]
        0 <= i < j < s2.len() implies !(s2[i].location_id == s2[j].location_id && s2[i].id
        == s2[j].id) by {
        assert(s[i].location_id == s2[i].location_id && s[i].id == s2[i].id);
        assert(s[j].location_id == s2[j].location_id && s[j].id == s2[j].id);
    }
    assert forall|i: int| 0 <= i < s2.len() implies {
        &&& is_materialized_str((#[trigger] s2[i]).materialized_path@, s2[i].is_dir)
        &&& parent_ok(s2, s2[i])
    } by {
        assert(is_materialized_str(s[i].materialized_path@, s[i].is_dir));
        assert(s2[i].materialized_path@ == s[i].materialized_path@ && s2[i].is_dir == s[i].is_dir
            && s2[i].parent_id == s[i].parent_id && s2[i].location_id == s[i].location_id);
        match s2[i].parent_id {
            Some(p) => {
                assert(parent_ok(s, s[i]));
                let k = choose|k: int| is_parent_of(s, k, s[i], p);
                if k == m {
                    assert(s2[k] == row2);
                    assert(is_parent_of(s2, k, s2[i], p));
                } else {
                    assert(s2[k] == s[k]);
                    assert(is_parent_of(s2, k, s2[i], p));
                }
            },
            None => {},
        }
    }
    assert forall|i: int| 0 <= i < s2.len() implies match (#[trigger] s2[i]).object_pub_id {
        Some(o) => has_object(objs, o),
        None => true,
    } by {
        if i != m {
            assert(s2[i] == s[i]);
            assert(links_ok(s, objs));
            assert(match s[i].object_pub_id {
                Some(o) => has_object(objs, o),
                None => true,
            });
        }
    }
    assert forall|i: int, j: int|
        #![trigger s2[i], s2[j]]
        0 <= i < s2.len() && 0 <= j < s2.len() && same_cas(s2[i], s2[j])
            && s2[i].object_pub_id is Some && s2[j].object_pub_id is Some implies s2[i].object_pub_id
        == s2[j].object_pub_id by {
        if i == m && j == m {
        } else if i == m {
            assert(s2[j] == s[j]);
        } else if j == m {
            assert(s2[i] == s[i]);
            assert(same_cas(row2, s[i]));
        } else {
            assert(s2[i] == s[i]);
            assert(s2[j] == s[j]);
        }
    }
}

impl Catalog {
    /// Inserts a batch of freshly indexed file paths in one transaction,
    /// recording the matching CRDT operations. A colliding (location_id, id)
    /// fails the whole batch and writes nothing.
    pub fn insert_file_paths_batch(
        &mut self,
        rows: Vec<FilePathRow>,
        ops: Vec<CrdtOperation>,
    ) -> (r: Result<usize, CatalogError>)
        requires
            old(self).wf(),
            forall|i: int|
                0 <= i < rows@.len() ==> {
                    let row = #[trigger] rows@[i];
                    &&& row.cas_id is None
                    &&& row.object_pub_id is None
                    &&& is_materialized_str(row.materialized_path@, row.is_dir)
                    &&& parent_ok(old(self).file_paths@ + rows@, row)
                },
        ensures
            final(self).objects == old(self).objects,
            r is Ok <==> fp_keys_unique(old(self).file_paths@ + rows@),
            r matches Ok(n) ==> {
                &&& n == rows@.len()
                &&& final(self).file_paths@ == old(self).file_paths@ + rows@
                &&& final(self).ops@ == old(self).ops@ + ops@
                &&& final(self).wf()
            },
            r is Err ==> *final(self) == *old(self),
    {
        let ghost s0 = self.file_paths@;
        let n = rows.len();
        let mut i: usize = 0;
        while i < n
            invariant
                i <= n,
                n == rows@.len(),
                *self == *old(self),
                old(self).wf(),
                forall|m: int|
                    0 <= m < i ==> !has_fp_key(
                        old(self).file_paths@,
                        (#[trigger] rows@[m]).location_id,
                        rows@[m].id,
                    ),
                forall|m1: int, m2: int|
                    #![trigger rows@[m1], rows@[m2]]
                    0 <= m1 < m2 < i ==> !(rows@[m1].location_id == rows@[m2].location_id
                        && rows@[m1].id == rows@[m2].id),
            decreases n - i,
        {
            let row_loc = rows[i].location_id;
            let row_id = rows[i].id;
            if self.contains_fp_key(row_loc, row_id) {
                proof {
                    let c = self.file_paths@ + rows@;
                    let k = choose|k: int|
                        0 <= k < self.file_paths@.len() && (#[trigger] self.file_paths@[k]).location_id
                            == row_loc && self.file_paths@[k].id == row_id;
                    assert(c[k] == self.file_paths@[k]);
                    assert(c[self.file_paths@.len() + i] == rows@[i as int]);
                    assert(!fp_keys_unique(c));
                }
                return Err(CatalogError::FilePathKeyCollision);
            }
            let mut j: usize = 0;
            while j < i
                invariant
                    j <= i,
                    i < n,
                    n == rows@.len(),
                    *self == *old(self),
                    row_loc == rows@[i as int].location_id,
                    row_id == rows@[i as int].id,
                    forall|m: int|
                        0 <= m < j ==> !((#[trigger] rows@[m]).location_id == row_loc
                            && rows@[m].id == row_id),
                decreases i - j,
            {
                if rows[j].location_id == row_loc && rows[j].id == row_id {
                    proof {
                        let c = self.file_paths@ + rows@;
                        assert(c[self.file_paths@.len() + j] == rows@[j as int]);
                        assert(c[self.file_paths@.len() + i] == rows@[i as int]);
                        assert(!fp_keys_unique(c));
                    }
                    return Err(CatalogError::FilePathKeyCollision);
                }
                j += 1;
            }
            i += 1;
        }
        proof {
            let c = s0 + rows@;
            assert forall|a: int, b: int|
                #![trigger c[a], c[b]]
                0 <= a < b < c.len() implies !(c[a].location_id == c[b].location_id && c[a].id
                == c[b].id) by {
                if b < s0.len() {
                    assert(c[a] == s0[a]);
                    assert(c[b] == s0[b]);
                } else if a < s0.len() {
                    assert(c[a] == s0[a]);
                    assert(c[b] == rows@[b - s0.len()]);
                    assert(!has_fp_key(s0, rows@[b - s0.len()].location_id, rows@[b - s0.len()].id));
                } else {
                    assert(c[a] == rows@[a - s0.len()]);
                    assert(c[b] == rows@[b - s0.len()]);
                }
            }
            assert(fp_keys_unique(c));
        }
        let count = rows.len();
        let ghost rseq = rows@;
        let mut rows = rows;
        let mut ops = ops;
        self.file_paths.append(&mut rows);
        self.ops.append(&mut ops);
        proof {
            let c = self.file_paths@;
            assert(c == s0 + rseq);
            assert forall|i: int| 0 <= i < c.len() implies {
                &&& is_materialized_str((#[trigger] c[i]).materialized_path@, c[i].is_dir)
                &&& parent_ok(c, c[i])
            } by {
                if i < s0.len() {
                    assert(c[i] == s0[i]);
                    assert(rows_wf(s0));
                    assert(is_materialized_str(s0[i].materialized_path@, s0[i].is_dir));
                    assert(parent_ok(s0, s0[i]));
                    lemma_parent_ok_extend(s0, rseq, s0[i]);
                } else {
                    assert(c[i] == rseq[i - s0.len()]);
                }
            }
            assert forall|i: int| 0 <= i < c.len() implies match (#[trigger] c[i]).object_pub_id {
                Some(o) => has_object(self.objects@, o),
                None => true,
            } by {
                if i < s0.len() {
                    assert(c[i] == s0[i]);
                    assert(links_ok(s0, self.objects@));
                    assert(match s0[i].object_pub_id {
                        Some(o) => has_object(self.objects@, o),
                        None => true,
                    });
                }
            }
            assert forall|i: int, j: int|
                #![trigger c[i], c[j]]
                0 <= i < c.len() && 0 <= j < c.len() && same_cas(c[i], c[j])
                    && c[i].object_pub_id is Some && c[j].object_pub_id is Some implies c[i].object_pub_id
                == c[j].object_pub_id by {
                if i < s0.len() && j < s0.len() {
                    assert(c[i] == s0[i]);
                    assert(c[j] == s0[j]);
                } else if i >= s0.len() {
                    assert(c[i].cas_id is None);
                } else {
                    assert(c[j].cas_id is None);
                }
            }
        }
        Ok(count)
    }
}

/// Membership in a prefix of the update list grows one id at a time.
pub proof fn lemma_update_for_take(us: Seq<CasUpdate>, i: int)
    requires
        0 <= i < us.len(),
    ensures
        forall|id: i32|
            #[trigger] update_for(us.take(i + 1), id) <==> (update_for(us.take(i), id)
                || us[i].file_path_id == id),
{
    assert forall|id: i32| #[trigger] update_for(us.take(i + 1), id) implies (update_for(
        us.take(i),
        id,
    ) || us[i].file_path_id == id) by {
        let m = choose|m: int| 0 <= m < us.take(i + 1).len() && (#[trigger] us.take(i + 1)[m]).file_path_id == id;
        if m < i {
            assert(us.take(i)[m] == us.take(i + 1)[m]);
        } else {
            assert(us.take(i + 1)[m] == us[i]);
        }
    }
    assert forall|id: i32| (update_for(us.take(i), id) || us[i].file_path_id == id) implies #[trigger] update_for(
        us.take(i + 1),
        id,
    ) by {
        if update_for(us.take(i), id) {
            let m = choose|m: int| 0 <= m < us.take(i).len() && (#[trigger] us.take(i)[m]).file_path_id == id;
            assert(us.take(i + 1)[m] == us.take(i)[m]);
        } else {
            assert(us.take(i + 1)[i] == us[i]);
        }
    }
}

impl Catalog {
    /// The position of the row keyed (loc, id), if one is persisted.
    pub fn find_fp_index(&self, loc: i32, id: i32) -> (r: Option<usize>)
        ensures
            r matches Some(k) ==> k < self.file_paths@.len() && (#[trigger] self.file_paths@[k as int]).location_id
                == loc && self.file_paths@[k as int].id == id,
            r is None ==> !has_fp_key(self.file_paths@, loc, id),
    {
        let n = self.file_paths.len();
        let mut k: usize = 0;
        while k < n
            invariant
                k <= n,
                n == self.file_paths@.len(),
                forall|m: int|
                    0 <= m < k ==> !((#[trigger] self.file_paths@[m]).location_id == loc
                        && self.file_paths@[m].id == id),
            decreases n - k,
        {
            let row = &self.file_paths[k];
            if row.location_id == loc && row.id == id {
                return Some(k);
            }
            k += 1;
        }
        None
    }

    /// Writes the computed cas_id of each listed file path in one
    /// transactional batch, recording the matching CRDT operations. The
    /// targets must be persisted, not yet linked to objects, and named at
    /// most once.
    pub fn update_file_paths_cas_id(
        &mut self,
        location_id: i32,
        updates: &Vec<CasUpdate>,
        ops: Vec<CrdtOperation>,
    ) -> (r: usize)
        requires
            old(self).wf(),
            forall|i: int|
                0 <= i < updates@.len() ==> has_fp_key(
                    old(self).file_paths@,
                    location_id,
                    (#[trigger] updates@[i]).file_path_id,
                ),
            forall|i: int, k: int|
                #![trigger updates@[i], old(self).file_paths@[k]]
                0 <= i < updates@.len() && 0 <= k < old(self).file_paths@.len()
                    && old(self).file_paths@[k].location_id == location_id
                    && old(self).file_paths@[k].id == updates@[i].file_path_id
                    ==> old(self).file_paths@[k].object_pub_id is None,
            forall|i: int, j: int|
                #![trigger updates@[i], updates@[j]]
                0 <= i < j < updates@.len() ==> updates@[i].file_path_id
                    != updates@[j].file_path_id,
        ensures
            final(self).objects == old(self).objects,
            final(self).ops@ == old(self).ops@ + ops@,
            final(self).file_paths@.len() == old(self).file_paths@.len(),
            final(self).wf(),
            r == updates@.len(),
            forall|k: int, i: int|
                #![trigger final(self).file_paths@[k], updates@[i]]
                0 <= k < old(self).file_paths@.len() && 0 <= i < updates@.len() && old(
                    self,
                ).file_paths@[k].location_id == location_id && old(self).file_paths@[k].id
                    == updates@[i].file_path_id ==> final(self).file_paths@[k] == with_cas(
                    old(self).file_paths@[k],
                    updates@[i].cas_id,
                ),
            forall|k: int|
                0 <= k < old(self).file_paths@.len() && !((#[trigger] old(
                    self,
                ).file_paths@[k]).location_id == location_id && update_for(
                    updates@,
                    old(self).file_paths@[k].id,
                )) ==> final(self).file_paths@[k] == old(self).file_paths@[k],
    {
        let ghost s0 = old(self).file_paths@;
        let n = updates.len();
        let mut i: usize = 0;
        while i < n
            invariant
                i <= n,
                n == updates@.len(),
                self.objects == old(self).objects,
                self.ops == old(self).ops,
                self.file_paths@.len() == s0.len(),
                s0 == old(self).file_paths@,
                old(self).wf(),
                forall|m: int|
                    0 <= m < updates@.len() ==> has_fp_key(
                        s0,
                        location_id,
                        (#[trigger] updates@[m]).file_path_id,
                    ),
                forall|m: int, k: int|
                    #![trigger updates@[m], s0[k]]
                    0 <= m < updates@.len() && 0 <= k < s0.len() && s0[k].location_id == location_id
                        && s0[k].id == updates@[m].file_path_id ==> s0[k].object_pub_id is None,
                forall|m1: int, m2: int|
                    #![trigger updates@[m1], updates@[m2]]
                    0 <= m1 < m2 < updates@.len() ==> updates@[m1].file_path_id
                        != updates@[m2].file_path_id,
                fp_keys_unique(self.file_paths@),
                rows_wf(self.file_paths@),
                links_ok(self.file_paths@, self.objects@),
                cas_links_agree(self.file_paths@),
                object_ids_unique(self.objects@),
                forall|k: int|
                    0 <= k < s0.len() ==> {
                        let r1 = #[trigger] self.file_paths@[k];
                        let r0 = s0[k];
                        r1.location_id == r0.location_id && r1.id == r0.id && r1.is_dir
                            == r0.is_dir && r1.materialized_path == r0.materialized_path
                            && r1.parent_id == r0.parent_id && r1.extension == r0.extension
                            && r1.date_created == r0.date_created && r1.object_pub_id
                            == r0.object_pub_id
                    },
                forall|k: int, m: int|
                    #![trigger self.file_paths@[k], updates@[m]]
                    0 <= k < s0.len() && 0 <= m < i && s0[k].location_id == location_id
                        && s0[k].id == updates@[m].file_path_id ==> self.file_paths@[k] == with_cas(
                        s0[k],
                        updates@[m].cas_id,
                    ),
                forall|k: int|
                    0 <= k < s0.len() && !((#[trigger] s0[k]).location_id == location_id
                        && update_for(updates@.take(i as int), s0[k].id)) ==> self.file_paths@[k]
                        == s0[k],
            decreases n - i,
        {
            let target_id = updates[i].file_path_id;
            let k_opt = self.find_fp_index(location_id, target_id);
            proof {
                assert(has_fp_key(s0, location_id, updates@[i as int].file_path_id));
                let w = choose|w: int|
                    0 <= w < s0.len() && (#[trigger] s0[w]).location_id == location_id && s0[w].id
                        == updates@[i as int].file_path_id;
                assert(self.file_paths@[w].location_id == location_id && self.file_paths@[w].id
                    == target_id);
                assert(has_fp_key(self.file_paths@, location_id, target_id));
            }
            let k = k_opt.unwrap();
            let row = &self.file_paths[k];
            let new_row = FilePathRow {
                location_id: row.location_id,
                id: row.id,
                materialized_path: row.materialized_path.clone(),
                is_dir: row.is_dir,
                extension: row.extension.clone(),
                date_created: row.date_created,
                parent_id: row.parent_id,
                cas_id: Some(updates[i].cas_id.clone()),
                object_pub_id: row.object_pub_id,
            };
            proof {
                // The target row is still untouched: no earlier update names
                // its id.
                assert(!update_for(updates@.take(i as int), s0[k as int].id)) by {
                    if update_for(updates@.take(i as int), s0[k as int].id) {
                        let m = choose|m: int|
                            0 <= m < updates@.take(i as int).len() && (#[trigger] updates@.take(
                                i as int,
                            )[m]).file_path_id == s0[k as int].id;
                        assert(updates@[m] == updates@.take(i as int)[m]);
                        assert(updates@[m].file_path_id == updates@[i as int].file_path_id);
                    }
                }
                assert(self.file_paths@[k as int] == s0[k as int]);
                assert(new_row == with_cas(s0[k as int], updates@[i as int].cas_id));
                lemma_wf_parts_update(self.file_paths@, self.objects@, k as int, new_row);
            }
            let ghost pre = self.file_paths@;
            self.file_paths.set(k, new_row);
            proof {
                lemma_update_for_take(updates@, i as int);
                assert forall|k2: int|
                    0 <= k2 < s0.len() && !((#[trigger] s0[k2]).location_id == location_id
                        && update_for(updates@.take(i + 1), s0[k2].id)) implies self.file_paths@[k2]
                    == s0[k2] by {
                    if k2 != k {
                        assert(self.file_paths@[k2] == pre[k2]);
                    } else {
                        assert(s0[k as int].location_id == location_id && s0[k as int].id
                            == updates@[i as int].file_path_id);
                        assert(update_for(updates@.take(i + 1), s0[k2].id));
                    }
                }
                assert forall|k2: int, m: int|
                    #![trigger self.file_paths@[k2], updates@[m]]
                    0 <= k2 < s0.len() && 0 <= m < i + 1 && s0[k2].location_id == location_id
                        && s0[k2].id == updates@[m].file_path_id implies self.file_paths@[k2]
                    == with_cas(s0[k2], updates@[m].cas_id) by {
                    if k2 == k {
                        if m < i {
                            // Two updates would share this row's id.
                            assert(updates@[m].file_path_id != updates@[i as int].file_path_id);
                            assert(false);
                        } else {
                            assert(self.file_paths@[k2] == new_row);
                        }
                    } else {
                        assert(self.file_paths@[k2] == pre[k2]);
                        if m < i {
                        } else {
                            // Row k2 has the same key as row k: impossible.
                            assert(s0[k2].id == s0[k as int].id && s0[k2].location_id == s0[
                                k as int].location_id);
                            assert(fp_keys_unique(s0));
                            assert(false);
                        }
                    }
                }
            }
            i += 1;
        }
        let mut ops = ops;
        self.ops.append(&mut ops);
        proof {
            assert(updates@.take(n as int) =~= updates@);
        }
        n
    }

    /// Links one file path to an object, recording the CRDT operation. Every
    /// already-linked row sharing the target's CAS id must agree on the
    /// object, which keeps content addresses mapped to a single object.
    pub fn connect_file_path_to_object(
        &mut self,
        location_id: i32,
        file_path_id: i32,
        object_pub_id: u128,
        op: CrdtOperation,
    )
        requires
            old(self).wf(),
            has_fp_key(old(self).file_paths@, location_id, file_path_id),
            has_object(old(self).objects@, object_pub_id),
            forall|k: int, j: int|
                #![trigger old(self).file_paths@[k], old(self).file_paths@[j]]
                0 <= k < old(self).file_paths@.len() && 0 <= j < old(self).file_paths@.len() && old(
                    self,
                ).file_paths@[k].location_id == location_id && old(self).file_paths@[k].id
                    == file_path_id && same_cas(old(self).file_paths@[k], old(self).file_paths@[j])
                    && old(self).file_paths@[j].object_pub_id is Some ==> old(
                    self,
                ).file_paths@[j].object_pub_id == Some(object_pub_id),
        ensures
            final(self).objects == old(self).objects,
            final(self).ops@ == old(self).ops@.push(op),
            final(self).file_paths@.len() == old(self).file_paths@.len(),
            final(self).wf(),
            forall|k: int|
                0 <= k < old(self).file_paths@.len() && (#[trigger] old(
                    self,
                ).file_paths@[k]).location_id == location_id && old(self).file_paths@[k].id
                    == file_path_id ==> final(self).file_paths@[k] == with_object(
                    old(self).file_paths@[k],
                    object_pub_id,
                ),
            forall|k: int|
                0 <= k < old(self).file_paths@.len() && !((#[trigger] old(
                    self,
                ).file_paths@[k]).location_id == location_id && old(self).file_paths@[k].id
                    == file_path_id) ==> final(self).file_paths@[k] == old(self).file_paths@[k],
    {
        let k_opt = self.find_fp_index(location_id, file_path_id);
        let k = k_opt.unwrap();
        let row = &self.file_paths[k];
        let new_row = FilePathRow {
            location_id: row.location_id,
            id: row.id,
            materialized_path: row.materialized_path.clone(),
            is_dir: row.is_dir,
            extension: row.extension.clone(),
            date_created: row.date_created,
            parent_id: row.parent_id,
            cas_id: match &row.cas_id {
                Some(c) => Some(c.clone()),
                None => None,
            },
            object_pub_id: Some(object_pub_id),
        };
        proof {
            assert(new_row == with_object(self.file_paths@[k as int], object_pub_id));
            lemma_wf_parts_update(self.file_paths@, self.objects@, k as int, new_row);
        }
        let ghost pre = self.file_paths@;
        self.file_paths.set(k, new_row);
        self.ops.push(op);
        proof {
            assert forall|k2: int|
                0 <= k2 < pre.len() && !((#[trigger] pre[k2]).location_id == location_id
                    && pre[k2].id == file_path_id) implies self.file_paths@[k2] == pre[k2] by {
                assert(k2 != k);
            }
            assert forall|k2: int|
                0 <= k2 < pre.len() && (#[trigger] pre[k2]).location_id == location_id
                    && pre[k2].id == file_path_id implies self.file_paths@[k2] == with_object(
                pre[k2],
                object_pub_id,
            ) by {
                if k2 != k {
                    assert(fp_keys_unique(pre));
                    assert(false);
                }
            }
        }
    }

    /// Inserts freshly created objects in one transaction. A colliding
    /// public id fails the whole batch and writes nothing.
    pub fn insert_objects_batch(&mut self, objs: Vec<ObjectRow>, ops: Vec<CrdtOperation>) -> (r:
        Result<usize, CatalogError>)
        requires
            old(self).wf(),
        ensures
            final(self).file_paths == old(self).file_paths,
            r is Ok <==> object_ids_unique(old(self).objects@ + objs@),
            r matches Ok(n) ==> {
                &&& n == objs@.len()
                &&& final(self).objects@ == old(self).objects@ + objs@
                &&& final(self).ops@ == old(self).ops@ + ops@
                &&& final(self).wf()
            },
            r is Err ==> *final(self) == *old(self),
    {
        let ghost o0 = self.objects@;
        let n = objs.len();
        let mut i: usize = 0;
        while i < n
            invariant
                i <= n,
                n == objs@.len(),
                *self == *old(self),
                old(self).wf(),
                forall|m: int|
                    0 <= m < i ==> !has_object(
                        old(self).objects@,
                        (#[trigger] objs@[m]).pub_id,
                    ),
                forall|m1: int, m2: int|
                    #![trigger objs@[m1], objs@[m2]]
                    0 <= m1 < m2 < i ==> objs@[m1].pub_id != objs@[m2].pub_id,
            decreases n - i,
        {
            let pid = objs[i].pub_id;
            if self.contains_object(pid) {
                proof {
                    let c = self.objects@ + objs@;
                    let k = choose|k: int|
                        0 <= k < self.objects@.len() && (#[trigger] self.objects@[k]).pub_id == pid;
                    assert(c[k] == self.objects@[k]);
                    assert(c[self.objects@.len() + i] == objs@[i as int]);
                    assert(!object_ids_unique(c));
                }
                return Err(CatalogError::ObjectPubIdCollision);
            }
            let mut j: usize = 0;
            while j < i
                invariant
                    j <= i,
                    i < n,
                    n == objs@.len(),
                    *self == *old(self),
                    pid == objs@[i as int].pub_id,
                    forall|m: int| 0 <= m < j ==> (#[trigger] objs@[m]).pub_id != pid,
                decreases i - j,
            {
                if objs[j].pub_id == pid {
                    proof {
                        let c = self.objects@ + objs@;
                        assert(c[self.objects@.len() + j] == objs@[j as int]);
                        assert(c[self.objects@.len() + i] == objs@[i as int]);
                        assert(!object_ids_unique(c));
                    }
                    return Err(CatalogError::ObjectPubIdCollision);
                }
                j += 1;
            }
            i += 1;
        }
        proof {
            let c = o0 + objs@;
            assert forall|a: int, b: int|
                #![trigger c[a], c[b]]
                0 <= a < b < c.len() implies c[a].pub_id != c[b].pub_id by {
                if b < o0.len() {
                    assert(c[a] == o0[a]);
                    assert(c[b] == o0[b]);
                } else if a < o0.len() {
                    assert(c[a] == o0[a]);
                    assert(c[b] == objs@[b - o0.len()]);
                    assert(!has_object(o0, objs@[b - o0.len()].pub_id));
                } else {
                    assert(c[a] == objs@[a - o0.len()]);
                    assert(c[b] == objs@[b - o0.len()]);
                }
            }
            assert(object_ids_unique(c));
        }
        let count = objs.len();
        let ghost oseq = objs@;
        let mut objs = objs;
        let mut ops = ops;
        self.objects.append(&mut objs);
        self.ops.append(&mut ops);
        proof {
            assert forall|k: int| 0 <= k < self.file_paths@.len() implies match (#[trigger] self.file_paths@[k]).object_pub_id {
                Some(o) => has_object(self.objects@, o),
                None => true,
            } by {
                assert(links_ok(self.file_paths@, o0));
                match self.file_paths@[k].object_pub_id {
                    Some(o) => {
                        let w = choose|w: int|
                            0 <= w < o0.len() && (#[trigger] o0[w]).pub_id == o;
                        assert(self.objects@[w] == o0[w]);
                        assert(has_object(self.objects@, o));
                    },
                    None => {},
                }
            }
        }
        Ok(count)
    }

    /// The object already standing for a CAS id, if any file path carrying
    /// that id is linked. Under well-formedness all such rows agree, so the
    /// first hit is the only possible answer.
    pub fn find_object_for_cas(&self, cas: &String) -> (r: Option<u128>)
        ensures
            r is Some <==> some_linked_for_cas(self.file_paths@, cas@),
            r matches Some(o) ==> linked_object_for_cas(self.file_paths@, cas@, o),
    {
        let n = self.file_paths.len();
        let mut k: usize = 0;
        while k < n
            invariant
                k <= n,
                n == self.file_paths@.len(),
                forall|m: int|
                    0 <= m < k ==> !(row_has_cas(#[trigger] self.file_paths@[m], cas@)
                        && self.file_paths@[m].object_pub_id is Some),
            decreases n - k,
        {
            let row = &self.file_paths[k];
            match (&row.cas_id, &row.object_pub_id) {
                (Some(c), Some(o)) => {
                    if str_eq(c.as_str(), cas.as_str()) {
                        return Some(*o);
                    }
                },
                _ => {},
            }
            k += 1;
        }
        None
    }

    /// The materialized paths, among the candidates, that are already
    /// persisted under the location: the indexer's reconciliation query.
    pub fn find_many_file_paths_by_materialized_paths(
        &self,
        location_id: i32,
        paths: &Vec<String>,
    ) -> (r: Vec<String>)
        ensures
            forall|p: Seq<char>|
                #[trigger] seq_contains_str(r@, p) ==> seq_contains_str(paths@, p) && has_path(
                    self.file_paths@,
                    location_id,
                    p,
                ),
            forall|p: Seq<char>|
                seq_contains_str(paths@, p) && has_path(self.file_paths@, location_id, p)
                    ==> #[trigger] seq_contains_str(r@, p),
    {
        let n = paths.len();
        let mut out: Vec<String> = Vec::new();
        let mut i: usize = 0;
        while i < n
            invariant
                i <= n,
                n == paths@.len(),
                forall|p: Seq<char>|
                    #[trigger] seq_contains_str(out@, p) ==> seq_contains_str(
                        paths@.take(i as int),
                        p,
                    ) && has_path(self.file_paths@, location_id, p),
                forall|p: Seq<char>|
                    seq_contains_str(paths@.take(i as int), p) && has_path(
                        self.file_paths@,
                        location_id,
                        p,
                    ) ==> #[trigger] seq_contains_str(out@, p),
            decreases n - i,
        {
            let ghost pre = out@;
            let present = self.get_existing_file_path_id(location_id, paths[i].as_str()).is_some();
            if present {
                out.push(paths[i].clone());
            }
            proof {
                assert forall|p: Seq<char>| #[trigger] seq_contains_str(out@, p) implies seq_contains_str(
                    paths@.take(i + 1),
                    p,
                ) && has_path(self.file_paths@, location_id, p) by {
                    let m = choose|m: int| 0 <= m < out@.len() && (#[trigger] out@[m])@ == p;
                    if m < pre.len() {
                        assert(seq_contains_str(pre, p));
                        let w = choose|w: int|
                            0 <= w < paths@.take(i as int).len() && (#[trigger] paths@.take(
                                i as int,
                            )[w])@ == p;
                        assert(paths@.take(i + 1)[w] == paths@.take(i as int)[w]);
                    } else {
                        assert(out@[m] == paths@[i as int]);
                        assert(paths@.take(i + 1)[i as int]@ == p);
                    }
                }
                assert forall|p: Seq<char>|
                    seq_contains_str(paths@.take(i + 1), p) && has_path(
                        self.file_paths@,
                        location_id,
                        p,
                    ) implies #[trigger] seq_contains_str(out@, p) by {
                    let m = choose|m: int|
                        0 <= m < paths@.take(i + 1).len() && (#[trigger] paths@.take(i + 1)[m])@
                            == p;
                    if m < i {
                        assert(paths@.take(i as int)[m] == paths@.take(i + 1)[m]);
                        assert(seq_contains_str(paths@.take(i as int), p));
                        assert(seq_contains_str(pre, p));
                        let w = choose|w: int| 0 <= w < pre.len() && (#[trigger] pre[w])@ == p;
                        assert(out@[w] == pre[w]);
                    } else {
                        assert(paths@[i as int]@ == p);
                        assert(present);
                        assert(out@[pre.len() as int]@ == p);
                    }
                }
            }
            i += 1;
        }
        proof {
            assert(paths@.take(n as int) =~= paths@);
        }
        out
    }
}

/// Every persisted file path's parent link names an existing directory
/// row whose materialized path is a proper prefix of its own. This holds
/// in every well formed catalog, and every successful indexer write
/// preserves it: parents are inserted before children, and reconciliation
/// keeps walk order.
pub proof fn lemma_parent_links_resolve(cat: Catalog, k: int, p: i32)
    requires
        cat.wf(),
        0 <= k < cat.file_paths@.len(),
        cat.file_paths@[k].parent_id == Some(p),
    ensures
        exists|w: int| is_parent_of(cat.file_paths@, w, cat.file_paths@[k], p),
{
    assert(parent_ok(cat.file_paths@, cat.file_paths@[k]));
}

/// Deletes one file path row, as the reconciling full scan does for paths
/// that vanished from the filesystem, recording the deletion CRDT
/// operation. The row must not be the parent of any surviving row; its
/// object, if any, stays in the catalog with one fewer link. Returns
/// whether a row was removed.
#[verifier::rlimit(60)]
pub fn catalog_delete_file_path(
    cat: &mut Catalog,
    location_id: i32,
    id: i32,
    op: CrdtOperation,
) -> (r: bool)
    requires
        old(cat).wf(),
        forall|k: int|
            0 <= k < old(cat).file_paths@.len() ==> !((#[trigger] old(
                cat,
            ).file_paths@[k]).location_id == location_id && old(cat).file_paths@[k].parent_id
                == Some(id)),
    ensures
        final(cat).wf(),
        final(cat).objects == old(cat).objects,
        r == has_fp_key(old(cat).file_paths@, location_id, id),
        r ==> exists|m: int|
            0 <= m < old(cat).file_paths@.len() && (#[trigger] old(cat).file_paths@[m]).location_id
                == location_id && old(cat).file_paths@[m].id == id && final(cat).file_paths@ == old(
                cat,
            ).file_paths@.remove(m) && final(cat).ops@ == old(cat).ops@.push(op),
        !r ==> *final(cat) == *old(cat),
{
    let n = cat.file_paths.len();
    let mut k: usize = 0;
    while k < n
        invariant
            k <= n,
            n == cat.file_paths@.len(),
            *cat == *old(cat),
            old(cat).wf(),
            forall|w: int|
                0 <= w < old(cat).file_paths@.len() ==> !((#[trigger] old(
                    cat,
                ).file_paths@[w]).location_id == location_id && old(cat).file_paths@[w].parent_id
                    == Some(id)),
            forall|m: int|
                0 <= m < k ==> !((#[trigger] cat.file_paths@[m]).location_id == location_id
                    && cat.file_paths@[m].id == id),
        decreases n - k,
    {
        let hit = cat.file_paths[k].location_id == location_id && cat.file_paths[k].id == id;
        if hit {
            let ghost pre = cat.file_paths@;
            cat.file_paths.remove(k);
            cat.ops.push(op);
            proof {
                let s2 = cat.file_paths@;
                let m = k as int;
                assert(s2 == pre.remove(m));
                assert forall|i: int| 0 <= i < s2.len() implies #[trigger] s2[i] == (if i < m {
                    pre[i]
                } else {
                    pre[i + 1]
                }) by {}
                assert forall|i: int, j: int|
                    #![trigger s2[i], s2[j]]
                    0 <= i < j < s2.len() implies !(s2[i].location_id == s2[j].location_id
                    && s2[i].id == s2[j].id) by {
                    let i0 = if i < m { i } else { i + 1 };
                    let j0 = if j < m { j } else { j + 1 };
                    assert(s2[i] == pre[i0]);
                    assert(s2[j] == pre[j0]);
                }
                assert forall|i: int| 0 <= i < s2.len() implies {
                    &&& is_materialized_str(
                        (#[trigger] s2[i]).materialized_path@,
                        s2[i].is_dir,
                    )
                    &&& parent_ok(s2, s2[i])
                } by {
                    let i0 = if i < m { i } else { i + 1 };
                    assert(s2[i] == pre[i0]);
                    assert(is_materialized_str(pre[i0].materialized_path@, pre[i0].is_dir));
                    match s2[i].parent_id {
                        Some(p) => {
                            assert(parent_ok(pre, pre[i0]));
                            let w = choose|w: int| is_parent_of(pre, w, pre[i0], p);
                            // The removed row is nobody's parent, so the
                            // witness is not the removed index.
                            if w == m {
                                assert(pre[i0].location_id == location_id
                                    && pre[i0].parent_id == Some(id));
                                assert(false);
                            }
                            let w2 = if w < m { w } else { w - 1 };
                            assert(s2[w2] == pre[w]);
                            assert(is_parent_of(s2, w2, s2[i], p));
                        },
                        None => {},
                    }
                }
                assert forall|i: int| 0 <= i < s2.len() implies match (#[trigger] s2[i]).object_pub_id {
                    Some(o) => has_object(cat.objects@, o),
                    None => true,
                } by {
                    let i0 = if i < m { i } else { i + 1 };
                    assert(s2[i] == pre[i0]);
                    assert(links_ok(pre, cat.objects@));
                    assert(match pre[i0].object_pub_id {
                        Some(o) => has_object(cat.objects@, o),
                        None => true,
                    });
                }
                assert forall|i: int, j: int|
                    #![trigger s2[i], s2[j]]
                    0 <= i < s2.len() && 0 <= j < s2.len() && same_cas(s2[i], s2[j])
                        && s2[i].object_pub_id is Some && s2[j].object_pub_id is Some implies s2[i].object_pub_id
                    == s2[j].object_pub_id by {
                    let i0 = if i < m { i } else { i + 1 };
                    let j0 = if j < m { j } else { j + 1 };
                    assert(s2[i] == pre[i0]);
                    assert(s2[j] == pre[j0]);
                    assert(cas_links_agree(pre));
                }
                assert(has_fp_key(pre, location_id, id));
            }
            return true;
        }
        k += 1;
    }
    false
}

/// Membership of a path among a list of strings.
pub fn vec_contains_str(ss: &Vec<String>, p: &str) -> (r: bool)
    ensures
        r == seq_contains_str(ss@, p@),
{
    let n = ss.len();
    let mut i: usize = 0;
    while i < n
        invariant
            i <= n,
            n == ss@.len(),
            forall|m: int| 0 <= m < i ==> (#[trigger] ss@[m])@ != p@,
        decreases n - i,
    {
        if str_eq(ss[i].as_str(), p) {
            return true;
        }
        i += 1;
    }
    false
}

/// String equality by view.
pub fn str_eq(a: &str, b: &str) -> (r: bool)
    ensures
        r == (a@ == b@),
{
    let an = a.unicode_len();
    let bn = b.unicode_len();
    if an != bn {
        proof {
            assert(a@ != b@);
        }
        return false;
    }
    let mut i: usize = 0;
    while i < an
        invariant
            i <= an,
            an == a@.len(),
            an == b@.len(),
            forall|j: int| 0 <= j < i ==> a@[j] == b@[j],
        decreases an - i,
    {
        if a.get_char(i) != b.get_char(i) {
            return false;
        }
        i += 1;
    }
    proof {
        assert(a@ =~= b@);
    }
    true
}

} // verus!
