//! The shallow indexer pipeline.
//!
//! The walker hands the indexer the entries of one directory; the indexer
//! reconciles them against the catalog (dropping paths already persisted),
//! assigns fresh contiguous ids in walk order, chunks the remainder into
//! batches, and writes each batch to the catalog in one transaction with a
//! CRDT operation per row. The shallow indexer never deletes: it is purely
//! additive for its single directory.

use vstd::prelude::*;
use crate::allocator::LastFilePathIdManager;
use crate::allocator::has_loc;
use crate::allocator::stored_max;
use crate::catalog::Catalog;
use crate::catalog::CatalogError;
use crate::catalog::FilePathRow;
use crate::catalog::fp_keys_unique;
use crate::catalog::has_fp_key;
use crate::catalog::has_path;
use crate::catalog::is_parent_of;
use crate::catalog::parent_ok;
use crate::path::MaterializedPath;
use crate::path::catalog_extension_of;
use crate::path::can_materialize;
use crate::path::extract_extension;
use crate::path::is_path_prefix;
use crate::path::materialize_str;
use crate::path::str_is_proper_prefix;
use crate::sync::CrdtOperation;
use crate::sync::FieldValue;
use crate::sync::SyncId;
use crate::sync::SyncValue;

verus! {

/// What a rule decides on during walking.
#[derive(Debug, PartialEq, Eq, Structural, Clone, Copy)]
pub enum RuleKind {
    AcceptFilesByGlob,
    RejectFilesByGlob,
    AcceptIfChildrenDirectoriesArePresent,
    RejectIfChildrenDirectoriesArePresent,
}

/// A predicate applied by the walker: a glob pattern or a child-directory
/// test, grouped by kind.
#[derive(Debug)]
pub struct IndexerRule {
    pub kind: RuleKind,
    pub name: String,
    pub pattern: String,
}

/// A registered filesystem root together with the rules attached to it.
#[derive(Debug)]
pub struct LocationWithRules {
    pub id: i32,
    /// The location's 16-byte public identifier.
    pub pub_id: u128,
    /// The absolute path of the root, without a trailing separator.
    pub path: String,
    pub indexer_rules: Vec<IndexerRule>,
}

/// One entry the walker observed: its absolute path, whether it is a
/// directory, and its creation time.
#[derive(Debug)]
pub struct WalkedEntry {
    pub path: String,
    pub is_dir: bool,
    pub created_at: i64,
}

/// One path to be written: the reconciliation output with its assigned id.
#[derive(Debug)]
pub struct IndexerJobStepEntry {
    pub full_path: String,
    pub materialized_path: MaterializedPath,
    pub created_at: i64,
    pub file_id: i32,
    pub parent_id: Option<i32>,
}

/// One batch of entries, written in a single catalog transaction.
#[derive(Debug)]
pub struct IndexerJobStep {
    pub entries: Vec<IndexerJobStepEntry>,
}

/// Counters the indexer reports and persists between steps.
#[derive(Debug, PartialEq, Eq, Structural, Clone, Copy)]
pub struct IndexerJobData {
    /// When catalog writes began, milliseconds since the epoch.
    pub db_write_start: i64,
    /// How long the walk took, in milliseconds.
    pub scan_read_time: u64,
    pub total_paths: u64,
    pub indexed_paths: u64,
}

/// Why an indexer run was refused.
#[derive(Debug)]
pub enum IndexerError {
    /// The requested sub path does not lie under the location root.
    SubPathNotInLocation(String),
    /// The requested sub path is not a directory.
    SubPathNotDirectory(String),
    /// The id space of the location cannot hold the new entries.
    IdSpaceExhausted,
    /// The catalog refused a write.
    Catalog(CatalogError),
}

/// An entry survives reconciliation when its path materializes, lies
/// properly under the walk root, and is not yet persisted.
pub open spec fn shallow_admissible(
    e: WalkedEntry,
    location_path: Seq<char>,
    root: Seq<char>,
    rows: Seq<FilePathRow>,
    loc: i32,
) -> bool {
    &&& can_materialize(location_path, e.path@, e.is_dir)
    &&& is_path_prefix(root, materialize_str(location_path, e.path@, e.is_dir))
    &&& !has_path(rows, loc, materialize_str(location_path, e.path@, e.is_dir))
}

/// The walked entries that reconciliation keeps, in walk order.
pub open spec fn admissible_entries(
    walked: Seq<WalkedEntry>,
    location_path: Seq<char>,
    root: Seq<char>,
    rows: Seq<FilePathRow>,
    loc: i32,
) -> Seq<WalkedEntry> {
    walked.filter(|e: WalkedEntry| shallow_admissible(e, location_path, root, rows, loc))
}

/// Reconciliation handles one walked entry at a time.
pub proof fn lemma_admissible_take_step(
    walked: Seq<WalkedEntry>,
    location_path: Seq<char>,
    root: Seq<char>,
    rows: Seq<FilePathRow>,
    loc: i32,
    i: int,
)
    requires
        0 <= i < walked.len(),
    ensures
        admissible_entries(walked.take(i + 1), location_path, root, rows, loc)
            == if shallow_admissible(walked[i], location_path, root, rows, loc) {
            admissible_entries(walked.take(i), location_path, root, rows, loc).push(walked[i])
        } else {
            admissible_entries(walked.take(i), location_path, root, rows, loc)
        },
{
    reveal(Seq::filter);
    let s1 = walked.take(i + 1);
    assert(s1.drop_last() =~= walked.take(i));
    assert(s1.last() == walked[i]);
}

/// Nothing survives a filter whose predicate holds nowhere.
pub proof fn lemma_admissible_none(
    walked: Seq<WalkedEntry>,
    location_path: Seq<char>,
    root: Seq<char>,
    rows: Seq<FilePathRow>,
    loc: i32,
)
    requires
        forall|i: int|
            0 <= i < walked.len() ==> !shallow_admissible(
                #[trigger] walked[i],
                location_path,
                root,
                rows,
                loc,
            ),
    ensures
        admissible_entries(walked, location_path, root, rows, loc).len() == 0,
    decreases walked.len(),
{
    reveal(Seq::filter);
    if walked.len() > 0 {
        assert(walked.drop_last() =~= walked.take(walked.len() - 1));
        assert forall|i: int| 0 <= i < walked.drop_last().len() implies !shallow_admissible(
            #[trigger] walked.drop_last()[i],
            location_path,
            root,
            rows,
            loc,
        ) by {
            assert(walked.drop_last()[i] == walked[i]);
        }
        lemma_admissible_none(walked.drop_last(), location_path, root, rows, loc);
        assert(!shallow_admissible(walked.last(), location_path, root, rows, loc));
    }
}

/// Running the shallow indexer again on an unchanged directory inserts
/// nothing: every entry it would keep is already persisted after the first
/// run, and what the first run skipped it skips again.
pub proof fn lemma_shallow_idempotent(
    walked: Seq<WalkedEntry>,
    location_path: Seq<char>,
    root: Seq<char>,
    rows1: Seq<FilePathRow>,
    rows2: Seq<FilePathRow>,
    loc: i32,
)
    requires
        forall|p: Seq<char>| has_path(rows1, loc, p) ==> #[trigger] has_path(rows2, loc, p),
        forall|i: int|
            0 <= i < walked.len() && shallow_admissible(
                #[trigger] walked[i],
                location_path,
                root,
                rows1,
                loc,
            ) ==> has_path(
                rows2,
                loc,
                materialize_str(location_path, walked[i].path@, walked[i].is_dir),
            ),
    ensures
        admissible_entries(walked, location_path, root, rows2, loc).len() == 0,
{
    assert forall|i: int| 0 <= i < walked.len() implies !shallow_admissible(
        #[trigger] walked[i],
        location_path,
        root,
        rows2,
        loc,
    ) by {
        if shallow_admissible(walked[i], location_path, root, rows1, loc) {
            assert(has_path(
                rows2,
                loc,
                materialize_str(location_path, walked[i].path@, walked[i].is_dir),
            ));
        } else {
            if can_materialize(location_path, walked[i].path@, walked[i].is_dir)
                && is_path_prefix(
                root,
                materialize_str(location_path, walked[i].path@, walked[i].is_dir),
            ) {
                assert(has_path(
                    rows1,
                    loc,
                    materialize_str(location_path, walked[i].path@, walked[i].is_dir),
                ));
            }
        }
    }
    lemma_admissible_none(walked, location_path, root, rows2, loc);
}

/// The flattened number of entries in the first `k` steps.
pub open spec fn steps_prefix_len(steps: Seq<IndexerJobStep>, k: int) -> int
    decreases k,
{
    if k <= 0 {
        0
    } else {
        steps_prefix_len(steps, k - 1) + steps[k - 1].entries@.len()
    }
}

/// Pushing a step does not change earlier prefix counts.
pub proof fn lemma_prefix_len_push(s: Seq<IndexerJobStep>, c: IndexerJobStep, k: int)
    requires
        0 <= k <= s.len(),
    ensures
        steps_prefix_len(s.push(c), k) == steps_prefix_len(s, k),
    decreases k,
{
    if k > 0 {
        lemma_prefix_len_push(s, c, k - 1);
        assert(s.push(c)[k - 1] == s[k - 1]);
    }
}


/// How a built step entry reflects the walked entry it came from: the
/// materialized path, the flag, the timestamp, the assigned id
/// `first_id + m` (for flattened position `m`), and the walk root as
/// parent.
pub open spec fn entry_built(
    se: IndexerJobStepEntry,
    e: WalkedEntry,
    location_id: i32,
    location_path: Seq<char>,
    first_id: int,
    m: int,
    parent_id: i32,
) -> bool {
    &&& se.materialized_path@ == materialize_str(location_path, e.path@, e.is_dir)
    &&& se.materialized_path.is_dir == e.is_dir
    &&& se.materialized_path.location_id == location_id
    &&& se.materialized_path.wf()
    &&& se.full_path@ == e.path@
    &&& se.created_at == e.created_at
    &&& se.file_id as int == first_id + m
    &&& se.parent_id == Some(parent_id)
}


/// The entry at position `q` of the open chunk stands for the admissible
/// entry at flattened position `base + q`.
pub open spec fn tail_placed(
    cur: Seq<IndexerJobStepEntry>,
    base: int,
    f: Seq<WalkedEntry>,
    location_id: i32,
    location_path: Seq<char>,
    first_id: int,
    parent_id: i32,
    q: int,
) -> bool {
    &&& 0 <= base + q < f.len()
    &&& entry_built(
        cur[q],
        f[base + q],
        location_id,
        location_path,
        first_id,
        base + q,
        parent_id,
    )
}

/// Every entry of the open chunk is correctly placed.
pub open spec fn tail_entries_ok(
    cur: Seq<IndexerJobStepEntry>,
    base: int,
    f: Seq<WalkedEntry>,
    location_id: i32,
    location_path: Seq<char>,
    first_id: int,
    parent_id: i32,
) -> bool {
    forall|q: int|
        0 <= q < cur.len() ==> #[trigger] tail_placed(
            cur,
            base,
            f,
            location_id,
            location_path,
            first_id,
            parent_id,
            q,
        )
}

/// The entry at position `q` of chunk `k` stands for the admissible entry
/// at its flattened position.
pub open spec fn chunk_placed(
    steps: Seq<IndexerJobStep>,
    f: Seq<WalkedEntry>,
    location_id: i32,
    location_path: Seq<char>,
    first_id: int,
    parent_id: i32,
    k: int,
    q: int,
) -> bool {
    &&& 0 <= steps_prefix_len(steps, k) + q < f.len()
    &&& entry_built(
        steps[k].entries@[q],
        f[steps_prefix_len(steps, k) + q],
        location_id,
        location_path,
        first_id,
        steps_prefix_len(steps, k) + q,
        parent_id,
    )
}

/// Every entry of every closed chunk is correctly placed.
pub open spec fn entries_pointwise_ok(
    steps: Seq<IndexerJobStep>,
    f: Seq<WalkedEntry>,
    location_id: i32,
    location_path: Seq<char>,
    first_id: int,
    parent_id: i32,
) -> bool {
    forall|k: int, q: int|
        0 <= k < steps.len() && 0 <= q < steps[k].entries@.len() ==> #[trigger] chunk_placed(
            steps,
            f,
            location_id,
            location_path,
            first_id,
            parent_id,
            k,
            q,
        )
}

/// Growing the admissible list does not disturb entries already placed.
pub proof fn lemma_pointwise_extend_f(
    steps: Seq<IndexerJobStep>,
    f1: Seq<WalkedEntry>,
    f2: Seq<WalkedEntry>,
    location_id: i32,
    location_path: Seq<char>,
    first_id: int,
    parent_id: i32,
)
    requires
        entries_pointwise_ok(steps, f1, location_id, location_path, first_id, parent_id),
        f1.len() <= f2.len(),
        forall|m: int| 0 <= m < f1.len() ==> f2[m] == f1[m],
    ensures
        entries_pointwise_ok(steps, f2, location_id, location_path, first_id, parent_id),
{
    assert forall|k: int, q: int|
        0 <= k < steps.len() && 0 <= q < steps[k].entries@.len() implies #[trigger] chunk_placed(
        steps,
        f2,
        location_id,
        location_path,
        first_id,
        parent_id,
        k,
        q,
    ) by {
        assert(chunk_placed(steps, f1, location_id, location_path, first_id, parent_id, k, q));
        assert(f2[steps_prefix_len(steps, k) + q] == f1[steps_prefix_len(steps, k) + q]);
    }
}

/// The same, for the chunk still being filled.
pub proof fn lemma_tail_extend_f(
    cur: Seq<IndexerJobStepEntry>,
    base: int,
    f1: Seq<WalkedEntry>,
    f2: Seq<WalkedEntry>,
    location_id: i32,
    location_path: Seq<char>,
    first_id: int,
    parent_id: i32,
)
    requires
        tail_entries_ok(cur, base, f1, location_id, location_path, first_id, parent_id),
        f1.len() <= f2.len(),
        forall|m: int| 0 <= m < f1.len() ==> f2[m] == f1[m],
    ensures
        tail_entries_ok(cur, base, f2, location_id, location_path, first_id, parent_id),
{
    assert forall|q: int| 0 <= q < cur.len() implies #[trigger] tail_placed(
        cur,
        base,
        f2,
        location_id,
        location_path,
        first_id,
        parent_id,
        q,
    ) by {
        assert(tail_placed(cur, base, f1, location_id, location_path, first_id, parent_id, q));
        assert(f2[base + q] == f1[base + q]);
    }
}

/// Closing the open chunk moves its entries into the chunk list unchanged.
pub proof fn lemma_pointwise_push(
    steps: Seq<IndexerJobStep>,
    c: IndexerJobStep,
    f: Seq<WalkedEntry>,
    location_id: i32,
    location_path: Seq<char>,
    first_id: int,
    parent_id: i32,
)
    requires
        entries_pointwise_ok(steps, f, location_id, location_path, first_id, parent_id),
        tail_entries_ok(
            c.entries@,
            steps_prefix_len(steps, steps.len() as int),
            f,
            location_id,
            location_path,
            first_id,
            parent_id,
        ),
    ensures
        entries_pointwise_ok(steps.push(c), f, location_id, location_path, first_id, parent_id),
{
    let s2 = steps.push(c);
    assert forall|k: int, q: int|
        0 <= k < s2.len() && 0 <= q < s2[k].entries@.len() implies #[trigger] chunk_placed(
        s2,
        f,
        location_id,
        location_path,
        first_id,
        parent_id,
        k,
        q,
    ) by {
        lemma_prefix_len_push(steps, c, if k < steps.len() as int {
            k
        } else {
            steps.len() as int
        });
        if k < steps.len() {
            assert(s2[k] == steps[k]);
            assert(chunk_placed(steps, f, location_id, location_path, first_id, parent_id, k, q));
            lemma_prefix_len_push(steps, c, k);
            assert(steps_prefix_len(s2, k) == steps_prefix_len(steps, k));
        } else {
            assert(k == steps.len());
            assert(s2[k] == c);
            assert(tail_placed(
                c.entries@,
                steps_prefix_len(steps, steps.len() as int),
                f,
                location_id,
                location_path,
                first_id,
                parent_id,
                q,
            ));
            assert(steps_prefix_len(s2, k) == steps_prefix_len(steps, steps.len() as int));
        }
    }
}

/// The step list a reconciliation produced: chunks of at most `batch`
/// entries, all but the last full, whose flattened contents are exactly the
/// admissible walked entries in walk order with ids `first_id` and up.
pub open spec fn steps_built(
    steps: Seq<IndexerJobStep>,
    f: Seq<WalkedEntry>,
    location_id: i32,
    location_path: Seq<char>,
    first_id: int,
    parent_id: i32,
    batch: int,
) -> bool {
    &&& steps_prefix_len(steps, steps.len() as int) == f.len()
    &&& (forall|k: int|
        0 <= k < steps.len() ==> 1 <= (#[trigger] steps[k]).entries@.len() <= batch)
    &&& (forall|k: int|
        0 <= k < steps.len() - 1 ==> (#[trigger] steps[k]).entries@.len() == batch)
    &&& entries_pointwise_ok(steps, f, location_id, location_path, first_id, parent_id)
}

/// Reconciles the walked entries against the catalog and chunks the
/// survivors into batches: paths that are already persisted, do not lie
/// under the walk root, or do not materialize are dropped; the rest keep
/// walk order and receive the contiguous ids `first_id`, `first_id + 1`,
/// and so on.
#[verifier::rlimit(60)]
pub fn build_indexer_steps(
    location_id: i32,
    location_path: &str,
    root: &MaterializedPath,
    parent_id: i32,
    walked: &Vec<WalkedEntry>,
    catalog: &Catalog,
    first_id: i32,
    batch: usize,
) -> (r: (Vec<IndexerJobStep>, u64))
    requires
        batch >= 1,
        first_id >= 1,
        first_id as int + walked@.len() <= i32::MAX as int,
    ensures
        steps_built(
            r.0@,
            admissible_entries(walked@, location_path@, root@, catalog.file_paths@, location_id),
            location_id,
            location_path@,
            first_id as int,
            parent_id,
            batch as int,
        ),
        r.1 as int == admissible_entries(
            walked@,
            location_path@,
            root@,
            catalog.file_paths@,
            location_id,
        ).len(),
{
    let ghost lp = location_path@;
    let ghost rt = root@;
    let ghost rows = catalog.file_paths@;
    let n = walked.len();
    let mut out: Vec<IndexerJobStep> = Vec::new();
    let mut cur: Vec<IndexerJobStepEntry> = Vec::new();
    let mut count: u64 = 0;
    let mut i: usize = 0;
    proof {
        assert(admissible_entries(walked@.take(0), lp, rt, rows, location_id) =~= Seq::empty()) by {
            reveal(Seq::filter);
            assert(walked@.take(0) =~= Seq::<WalkedEntry>::empty());
        }
    }
    while i < n
        invariant
            i <= n,
            n == walked@.len(),
            batch >= 1,
            first_id >= 1,
            first_id as int + walked@.len() <= i32::MAX as int,
            lp == location_path@,
            rt == root@,
            rows == catalog.file_paths@,
            count as int == admissible_entries(
                walked@.take(i as int),
                lp,
                rt,
                rows,
                location_id,
            ).len(),
            count <= i,
            steps_prefix_len(out@, out@.len() as int) + cur@.len() == count as int,
            cur@.len() < batch,
            forall|k: int| 0 <= k < out@.len() ==> (#[trigger] out@[k]).entries@.len() == batch,
            entries_pointwise_ok(
                out@,
                admissible_entries(walked@.take(i as int), lp, rt, rows, location_id),
                location_id,
                lp,
                first_id as int,
                parent_id,
            ),
            tail_entries_ok(
                cur@,
                steps_prefix_len(out@, out@.len() as int),
                admissible_entries(walked@.take(i as int), lp, rt, rows, location_id),
                location_id,
                lp,
                first_id as int,
                parent_id,
            ),
        decreases n - i,
    {
        let ghost f_pre = admissible_entries(walked@.take(i as int), lp, rt, rows, location_id);
        let ghost out_pre = out@;
        let ghost cur_pre = cur@;
        let ghost count_pre = count as int;
        let e = &walked[i];
        let mut admitted = false;
        match MaterializedPath::new(location_id, location_path, e.path.as_str(), e.is_dir) {
            Ok(mp) => {
                if str_is_proper_prefix(root.as_str(), mp.as_str()) {
                    if catalog.get_existing_file_path_id(location_id, mp.as_str()).is_none() {
                        admitted = true;
                        let entry = IndexerJobStepEntry {
                            full_path: e.path.clone(),
                            materialized_path: mp,
                            created_at: e.created_at,
                            file_id: first_id + (count as i32),
                            parent_id: Some(parent_id),
                        };
                        proof {
                            assert(entry_built(
                                entry,
                                walked@[i as int],
                                location_id,
                                lp,
                                first_id as int,
                                count_pre,
                                parent_id,
                            ));
                        }
                        cur.push(entry);
                        count = count + 1;
                        if cur.len() == batch {
                            let full = cur;
                            cur = Vec::new();
                            out.push(IndexerJobStep { entries: full });
                        }
                    }
                }
            },
            Err(_) => {},
        }
        proof {
            lemma_admissible_take_step(walked@, lp, rt, rows, location_id, i as int);
            let f2 = admissible_entries(walked@.take(i + 1), lp, rt, rows, location_id);
            if !admitted {
                assert(!shallow_admissible(walked@[i as int], lp, rt, rows, location_id));
                assert(f2 == f_pre);
            } else {
                assert(f2 == f_pre.push(walked@[i as int]));
                assert(count_pre == f_pre.len());
                assert(forall|m: int| 0 <= m < f_pre.len() ==> f2[m] == f_pre[m]);
                lemma_pointwise_extend_f(
                    out_pre,
                    f_pre,
                    f2,
                    location_id,
                    lp,
                    first_id as int,
                    parent_id,
                );
                lemma_tail_extend_f(
                    cur_pre,
                    steps_prefix_len(out_pre, out_pre.len() as int),
                    f_pre,
                    f2,
                    location_id,
                    lp,
                    first_id as int,
                    parent_id,
                );
                let ghost base = steps_prefix_len(out_pre, out_pre.len() as int);
                if cur@.len() == 0 {
                    // This iteration flushed a full chunk.
                    assert(out@ == out_pre.push(out@.last()));
                    let c = out@.last();
                    assert(c.entries@.len() == batch);
                    assert(c.entries@ == cur_pre.push(c.entries@.last()));
                    assert(tail_entries_ok(
                        c.entries@,
                        base,
                        f2,
                        location_id,
                        lp,
                        first_id as int,
                        parent_id,
                    )) by {
                        assert forall|q: int| 0 <= q < c.entries@.len() implies #[trigger] tail_placed(
                            c.entries@,
                            base,
                            f2,
                            location_id,
                            lp,
                            first_id as int,
                            parent_id,
                            q,
                        ) by {
                            if q < cur_pre.len() {
                                assert(tail_placed(
                                    cur_pre,
                                    base,
                                    f2,
                                    location_id,
                                    lp,
                                    first_id as int,
                                    parent_id,
                                    q,
                                ));
                                assert(c.entries@[q] == cur_pre[q]);
                            } else {
                                assert(q == cur_pre.len());
                                assert(base + q == count_pre);
                                assert(f2[count_pre] == walked@[i as int]);
                            }
                        }
                    }
                    lemma_pointwise_push(
                        out_pre,
                        c,
                        f2,
                        location_id,
                        lp,
                        first_id as int,
                        parent_id,
                    );
                    lemma_prefix_len_push(out_pre, c, out_pre.len() as int);
                    assert(steps_prefix_len(out@, out@.len() as int) == base + batch);
                    assert forall|k: int|
                        0 <= k < out@.len() implies (#[trigger] out@[k]).entries@.len()
                        == batch by {
                        if k < out_pre.len() {
                            assert(out@[k] == out_pre[k]);
                        } else {
                            assert(out@[k] == c);
                        }
                    }
                } else {
                    // The new entry joined the open chunk.
                    assert(out@ == out_pre);
                    assert(cur@ == cur_pre.push(cur@.last()));
                    assert(tail_entries_ok(
                        cur@,
                        base,
                        f2,
                        location_id,
                        lp,
                        first_id as int,
                        parent_id,
                    )) by {
                        assert forall|q: int| 0 <= q < cur@.len() implies #[trigger] tail_placed(
                            cur@,
                            base,
                            f2,
                            location_id,
                            lp,
                            first_id as int,
                            parent_id,
                            q,
                        ) by {
                            if q < cur_pre.len() {
                                assert(tail_placed(
                                    cur_pre,
                                    base,
                                    f2,
                                    location_id,
                                    lp,
                                    first_id as int,
                                    parent_id,
                                    q,
                                ));
                                assert(cur@[q] == cur_pre[q]);
                            } else {
                                assert(q == cur_pre.len());
                                assert(base + q == count_pre);
                                assert(f2[count_pre] == walked@[i as int]);
                            }
                        }
                    }
                }
            }
        }
        i += 1;
    }
    proof {
        assert(walked@.take(n as int) =~= walked@);
    }
    if cur.len() > 0 {
        let ghost out_pre = out@;
        let ghost cur_pre = cur@;
        let ghost f = admissible_entries(walked@, lp, rt, rows, location_id);
        let last = cur;
        out.push(IndexerJobStep { entries: last });
        proof {
            let c = out@.last();
            assert(out@ == out_pre.push(c));
            assert(c.entries@ == cur_pre);
            lemma_pointwise_push(out_pre, c, f, location_id, lp, first_id as int, parent_id);
            lemma_prefix_len_push(out_pre, c, out_pre.len() as int);
            assert(steps_prefix_len(out@, out@.len() as int) == steps_prefix_len(
                out_pre,
                out_pre.len() as int,
            ) + cur_pre.len());
            assert forall|k: int|
                0 <= k < out@.len() - 1 implies (#[trigger] out@[k]).entries@.len() == batch by {
                assert(out@[k] == out_pre[k]);
            }
            assert forall|k: int|
                0 <= k < out@.len() implies 1 <= (#[trigger] out@[k]).entries@.len() <= batch by {
                if k < out_pre.len() {
                    assert(out@[k] == out_pre[k]);
                } else {
                    assert(out@[k] == c);
                }
            }
        }
    }
    (out, count)
}

/// Index `k` of `rows` holds the directory row (loc, p) whose path properly
/// prefixes `child`.
pub open spec fn is_parent_row(
    rows: Seq<FilePathRow>,
    k: int,
    loc: i32,
    p: i32,
    child: Seq<char>,
) -> bool {
    &&& 0 <= k < rows.len()
    &&& rows[k].location_id == loc
    &&& rows[k].id == p
    &&& rows[k].is_dir
    &&& is_path_prefix(rows[k].materialized_path@, child)
}

/// A step entry the catalog will accept: a well-formed path, a persisted
/// directory parent, and a fresh id.
pub open spec fn step_entry_insertable(
    rows: Seq<FilePathRow>,
    location_id: i32,
    e: IndexerJobStepEntry,
) -> bool {
    &&& e.materialized_path.wf()
    &&& match e.parent_id {
        Some(p) => exists|k: int| is_parent_row(rows, k, location_id, p, e.materialized_path@),
        None => true,
    }
    &&& !has_fp_key(rows, location_id, e.file_id)
}

/// How an inserted row reflects its step entry: same path, flag and
/// timestamp, the extension extracted from the path (empty for
/// directories), no content address and no object link yet.
pub open spec fn inserted_row_matches(
    row: FilePathRow,
    e: IndexerJobStepEntry,
    location_id: i32,
) -> bool {
    &&& row.location_id == location_id
    &&& row.id == e.file_id
    &&& row.materialized_path@ == e.materialized_path@
    &&& row.is_dir == e.materialized_path.is_dir
    &&& row.extension@ == if e.materialized_path.is_dir {
        Seq::<char>::empty()
    } else {
        catalog_extension_of(e.materialized_path@)
    }
    &&& row.date_created == e.created_at
    &&& row.parent_id == e.parent_id
    &&& row.cas_id is None
    &&& row.object_pub_id is None
}

/// Writes one batch of reconciled entries to the catalog in a single
/// transaction, recording one creation CRDT operation per row. With fresh,
/// distinct ids and persisted parents the write always succeeds and keeps
/// the catalog well formed: in particular every inserted row's parent is a
/// persisted directory whose materialized path prefixes the row's own.
#[verifier::rlimit(60)]
pub fn execute_indexer_step(
    location: &LocationWithRules,
    step: &IndexerJobStep,
    catalog: &mut Catalog,
) -> (r: Result<usize, IndexerError>)
    requires
        old(catalog).wf(),
        forall|i: int|
            0 <= i < step.entries@.len() ==> step_entry_insertable(
                old(catalog).file_paths@,
                location.id,
                #[trigger] step.entries@[i],
            ),
        forall|i: int, j: int|
            #![trigger step.entries@[i], step.entries@[j]]
            0 <= i < j < step.entries@.len() ==> step.entries@[i].file_id
                != step.entries@[j].file_id,
    ensures
        r is Ok,
        r matches Ok(n) ==> n == step.entries@.len(),
        final(catalog).wf(),
        final(catalog).objects == old(catalog).objects,
        final(catalog).file_paths@.len() == old(catalog).file_paths@.len()
            + step.entries@.len(),
        forall|k: int|
            0 <= k < old(catalog).file_paths@.len() ==> #[trigger] final(catalog).file_paths@[k]
                == old(catalog).file_paths@[k],
        forall|i: int|
            0 <= i < step.entries@.len() ==> inserted_row_matches(
                #[trigger] final(catalog).file_paths@[old(catalog).file_paths@.len() + i],
                step.entries@[i],
                location.id,
            ),
        final(catalog).ops@.len() == old(catalog).ops@.len() + step.entries@.len(),
        forall|i: int|
            0 <= i < step.entries@.len() ==> ((#[trigger] final(catalog).ops@[old(
                catalog,
            ).ops@.len() + i]) matches CrdtOperation::OwnedCreate {
                id: SyncId::FilePath { id: fid, location_pub_id: lpid },
                fields: _,
            } && fid == step.entries@[i].file_id && lpid == location.pub_id),
{
    let ghost s0 = catalog.file_paths@;
    let n = step.entries.len();
    let mut rows: Vec<FilePathRow> = Vec::new();
    let mut ops: Vec<CrdtOperation> = Vec::new();
    let mut i: usize = 0;
    while i < n
        invariant
            i <= n,
            n == step.entries@.len(),
            rows@.len() == i,
            ops@.len() == i,
            forall|m: int|
                0 <= m < i ==> inserted_row_matches(
                    #[trigger] rows@[m],
                    step.entries@[m],
                    location.id,
                ),
            forall|m: int|
                0 <= m < i ==> ((#[trigger] ops@[m]) matches CrdtOperation::OwnedCreate {
                    id: SyncId::FilePath { id: fid, location_pub_id: lpid },
                    fields: _,
                } && fid == step.entries@[m].file_id && lpid == location.pub_id),
        decreases n - i,
    {
        let e = &step.entries[i];
        let is_dir = e.materialized_path.is_dir();
        let extension = if is_dir {
            String::new()
        } else {
            extract_extension(e.materialized_path.as_str())
        };
        let row = FilePathRow {
            location_id: location.id,
            id: e.file_id,
            materialized_path: e.materialized_path.to_string(),
            is_dir,
            extension,
            date_created: e.created_at,
            parent_id: e.parent_id,
            cas_id: None,
            object_pub_id: None,
        };
        let mut fields: Vec<FieldValue> = Vec::new();
        fields.push(
            FieldValue {
                field: String::from_str("materialized_path"),
                value: SyncValue::Text(e.materialized_path.to_string()),
            },
        );
        fields.push(
            FieldValue { field: String::from_str("is_dir"), value: SyncValue::Bool(is_dir) },
        );
        fields.push(
            FieldValue {
                field: String::from_str("date_created"),
                value: SyncValue::Int(e.created_at),
            },
        );
        let op = CrdtOperation::OwnedCreate {
            id: SyncId::FilePath { id: e.file_id, location_pub_id: location.pub_id },
            fields,
        };
        rows.push(row);
        ops.push(op);
        i += 1;
    }
    proof {
        // Every new row is acceptable to the catalog, and the combined key
        // set stays unique.
        assert forall|m: int| 0 <= m < rows@.len() implies {
            let row = #[trigger] rows@[m];
            &&& row.cas_id is None
            &&& row.object_pub_id is None
            &&& crate::path::is_materialized_str(row.materialized_path@, row.is_dir)
            &&& parent_ok(s0 + rows@, row)
        } by {
            assert(inserted_row_matches(rows@[m], step.entries@[m], location.id));
            assert(step_entry_insertable(s0, location.id, step.entries@[m]));
            let row = rows@[m];
            match row.parent_id {
                Some(p) => {
                    let k = choose|k: int|
                        is_parent_row(s0, k, location.id, p, step.entries@[m].materialized_path@);
                    assert((s0 + rows@)[k] == s0[k]);
                    assert(is_parent_of(s0 + rows@, k, row, p));
                },
                None => {},
            }
        }
        let c = s0 + rows@;
        assert forall|a: int, b: int|
            #![trigger c[a], c[b]]
            0 <= a < b < c.len() implies !(c[a].location_id == c[b].location_id && c[a].id
            == c[b].id) by {
            if b < s0.len() {
                assert(c[a] == s0[a]);
                assert(c[b] == s0[b]);
                assert(fp_keys_unique(s0));
            } else if a < s0.len() {
                assert(c[a] == s0[a]);
                assert(c[b] == rows@[b - s0.len()]);
                assert(inserted_row_matches(rows@[b - s0.len()], step.entries@[b - s0.len()], location.id));
                assert(step_entry_insertable(s0, location.id, step.entries@[b - s0.len()]));
                assert(!has_fp_key(s0, location.id, step.entries@[b - s0.len()].file_id));
            } else {
                assert(c[a] == rows@[a - s0.len()]);
                assert(c[b] == rows@[b - s0.len()]);
                assert(inserted_row_matches(rows@[a - s0.len()], step.entries@[a - s0.len()], location.id));
                assert(inserted_row_matches(rows@[b - s0.len()], step.entries@[b - s0.len()], location.id));
            }
        }
        assert(fp_keys_unique(c));
    }
    let ghost rseq = rows@;
    let ghost opseq = ops@;
    let count = match catalog.insert_file_paths_batch(rows, ops) {
        Ok(cnt) => cnt,
        Err(err) => {
            proof {
                assert(false);
            }
            return Err(IndexerError::Catalog(err));
        },
    };
    proof {
        assert forall|k: int|
            0 <= k < s0.len() implies #[trigger] catalog.file_paths@[k] == s0[k] by {
            assert(catalog.file_paths@ == s0 + rseq);
        }
        assert forall|i2: int|
            0 <= i2 < step.entries@.len() implies inserted_row_matches(
            #[trigger] catalog.file_paths@[s0.len() + i2],
            step.entries@[i2],
            location.id,
        ) by {
            assert(catalog.file_paths@[s0.len() + i2] == rseq[i2]);
        }
    }
    Ok(count)
}

/// The rules attached to a location, grouped by kind as the walker
/// evaluates them: within a group any match decides, and the groups compose
/// conjunctively.
#[derive(Debug)]
pub struct RulesByKind {
    pub accept_files: Vec<IndexerRule>,
    pub reject_files: Vec<IndexerRule>,
    pub accept_if_children: Vec<IndexerRule>,
    pub reject_if_children: Vec<IndexerRule>,
}

/// The rules of one kind, in attachment order.
pub open spec fn rules_of_kind(rules: Seq<IndexerRule>, kind: RuleKind) -> Seq<IndexerRule> {
    rules.filter(|r: IndexerRule| r.kind == kind)
}

/// Grouping handles one rule at a time.
proof fn lemma_rules_take_step(rules: Seq<IndexerRule>, kind: RuleKind, i: int)
    requires
        0 <= i < rules.len(),
    ensures
        rules_of_kind(rules.take(i + 1), kind) == if rules[i].kind == kind {
            rules_of_kind(rules.take(i), kind).push(rules[i])
        } else {
            rules_of_kind(rules.take(i), kind)
        },
{
    reveal(Seq::filter);
    let s1 = rules.take(i + 1);
    assert(s1.drop_last() =~= rules.take(i));
    assert(s1.last() == rules[i]);
}

fn clone_rule(r: &IndexerRule) -> (out: IndexerRule)
    ensures
        out == *r,
{
    IndexerRule { kind: r.kind, name: r.name.clone(), pattern: r.pattern.clone() }
}

/// Groups a location's rules by kind, keeping attachment order within each
/// group.
pub fn group_rules(rules: &Vec<IndexerRule>) -> (r: RulesByKind)
    ensures
        r.accept_files@ == rules_of_kind(rules@, RuleKind::AcceptFilesByGlob),
        r.reject_files@ == rules_of_kind(rules@, RuleKind::RejectFilesByGlob),
        r.accept_if_children@ == rules_of_kind(
            rules@,
            RuleKind::AcceptIfChildrenDirectoriesArePresent,
        ),
        r.reject_if_children@ == rules_of_kind(
            rules@,
            RuleKind::RejectIfChildrenDirectoriesArePresent,
        ),
{
    let n = rules.len();
    let mut accept_files: Vec<IndexerRule> = Vec::new();
    let mut reject_files: Vec<IndexerRule> = Vec::new();
    let mut accept_if_children: Vec<IndexerRule> = Vec::new();
    let mut reject_if_children: Vec<IndexerRule> = Vec::new();
    let mut i: usize = 0;
    proof {
        assert(rules@.take(0) =~= Seq::<IndexerRule>::empty());
        reveal(Seq::filter);
    }
    while i < n
        invariant
            i <= n,
            n == rules@.len(),
            accept_files@ == rules_of_kind(rules@.take(i as int), RuleKind::AcceptFilesByGlob),
            reject_files@ == rules_of_kind(rules@.take(i as int), RuleKind::RejectFilesByGlob),
            accept_if_children@ == rules_of_kind(
                rules@.take(i as int),
                RuleKind::AcceptIfChildrenDirectoriesArePresent,
            ),
            reject_if_children@ == rules_of_kind(
                rules@.take(i as int),
                RuleKind::RejectIfChildrenDirectoriesArePresent,
            ),
        decreases n - i,
    {
        let rule = clone_rule(&rules[i]);
        proof {
            lemma_rules_take_step(rules@, RuleKind::AcceptFilesByGlob, i as int);
            lemma_rules_take_step(rules@, RuleKind::RejectFilesByGlob, i as int);
            lemma_rules_take_step(
                rules@,
                RuleKind::AcceptIfChildrenDirectoriesArePresent,
                i as int,
            );
            lemma_rules_take_step(
                rules@,
                RuleKind::RejectIfChildrenDirectoriesArePresent,
                i as int,
            );
        }
        match rule.kind {
            RuleKind::AcceptFilesByGlob => accept_files.push(rule),
            RuleKind::RejectFilesByGlob => reject_files.push(rule),
            RuleKind::AcceptIfChildrenDirectoriesArePresent => accept_if_children.push(rule),
            RuleKind::RejectIfChildrenDirectoriesArePresent => reject_if_children.push(rule),
        }
        i += 1;
    }
    proof {
        assert(rules@.take(n as int) =~= rules@);
    }
    RulesByKind { accept_files, reject_files, accept_if_children, reject_if_children }
}

/// What the shallow indexer is asked to do: a location, and possibly one of
/// its directories (location-relative, with a leading separator; empty for
/// the location root).
#[derive(Debug)]
pub struct ShallowIndexerJobInit {
    pub location: LocationWithRules,
    pub sub_path: String,
}

/// The stable digest of a shallow indexer submission: the location id and
/// the sub path, as the runtime deduplicates jobs.
pub open spec fn spec_shallow_init_hash(location_id: i32, sub_path: Seq<char>) -> u64 {
    crate::job::fnv_chars(
        crate::job::fnv_step(crate::job::FNV_OFFSET, location_id as u64),
        sub_path,
    )
}

impl ShallowIndexerJobInit {
    /// The submission digest used for deduplication.
    pub fn hash(&self) -> (r: u64)
        ensures
            r == spec_shallow_init_hash(self.location.id, self.sub_path@),
    {
        let h = crate::job::fnv_step_exec(crate::job::FNV_OFFSET, self.location.id as u64);
        crate::job::fnv_fold_str(h, self.sub_path.as_str())
    }
}

/// The remembered or cold-read maximum file path id for a location.
pub open spec fn current_max_of(
    idm: Seq<(i32, i32)>,
    rows: Seq<FilePathRow>,
    loc: i32,
) -> int {
    if has_loc(idm, loc) {
        stored_max(idm, loc)
    } else {
        crate::catalog::max_id_below(rows, loc)
    }
}

/// A stateful job that indexes all files of one directory, without entering
/// inner directories. Reconciliation produces the list of paths to write,
/// chunked into batches of `SHALLOW_BATCH_SIZE`; each step writes one batch.
#[derive(Debug)]
pub struct ShallowIndexerJob;

impl ShallowIndexerJob {
    /// The job's stable name, used for persistence.
    pub fn name(&self) -> (r: &'static str)
        ensures
            r@ == "shallow_indexer"@,
    {
        "shallow_indexer"
    }

    /// Prepares the job: validates the sub path, finds the walk root's
    /// persisted row (the parent of every new entry), reconciles the walked
    /// entries, reserves ids, and chunks the work into steps.
    ///
    /// `walked` is what the walker observed in the root directory;
    /// `sub_path_is_dir` is the walker's answer to whether the requested
    /// sub path is a directory. The walk root must already be persisted:
    /// the location root is written at registration, a sub path by an
    /// earlier indexing of its parent.
    #[verifier::rlimit(60)]
    pub fn init(
        &self,
        init: &ShallowIndexerJobInit,
        sub_path_is_dir: bool,
        walked: &Vec<WalkedEntry>,
        catalog: &Catalog,
        id_manager: &mut LastFilePathIdManager,
        db_write_start: i64,
        scan_read_time: u64,
    ) -> (r: Result<(IndexerJobData, Vec<IndexerJobStep>), IndexerError>)
        requires
            old(id_manager).wf(),
            catalog.wf(),
            can_materialize(
                init.location.path@,
                init.location.path@ + init.sub_path@,
                true,
            ) ==> has_path(
                catalog.file_paths@,
                init.location.id,
                materialize_str(init.location.path@, init.location.path@ + init.sub_path@, true),
            ),
        ensures
            final(id_manager).wf(),
            ({
                let full = init.location.path@ + init.sub_path@;
                let cur = current_max_of(
                    old(id_manager).entries@,
                    catalog.file_paths@,
                    init.location.id,
                );
                &&& (r is Ok <==> can_materialize(init.location.path@, full, true) && (
                init.sub_path@.len() == 0 || sub_path_is_dir) && cur + 1 + walked@.len()
                    <= i32::MAX as int)
                &&& (r matches Err(IndexerError::SubPathNotInLocation(p)) ==> !can_materialize(
                    init.location.path@,
                    full,
                    true,
                ) && p@ == full)
                &&& (r matches Err(IndexerError::SubPathNotDirectory(p)) ==> can_materialize(
                    init.location.path@,
                    full,
                    true,
                ) && init.sub_path@.len() > 0 && !sub_path_is_dir && p@ == full)
                &&& (r matches Err(IndexerError::IdSpaceExhausted) ==> cur + 1 + walked@.len()
                    > i32::MAX as int)
                &&& (r matches Ok(p) ==> {
                    let root_m = materialize_str(init.location.path@, full, true);
                    let f = admissible_entries(
                        walked@,
                        init.location.path@,
                        root_m,
                        catalog.file_paths@,
                        init.location.id,
                    );
                    &&& has_loc(final(id_manager).entries@, init.location.id)
                    &&& p.0.db_write_start == db_write_start
                    &&& p.0.scan_read_time == scan_read_time
                    &&& p.0.total_paths as int == f.len()
                    &&& p.0.indexed_paths == 0
                    &&& exists|k: int|
                        0 <= k < catalog.file_paths@.len() && (#[trigger] catalog.file_paths@[k]).location_id
                            == init.location.id && catalog.file_paths@[k].materialized_path@
                            == root_m && steps_built(
                            p.1@,
                            f,
                            init.location.id,
                            init.location.path@,
                            cur + 1,
                            catalog.file_paths@[k].id,
                            crate::SHALLOW_BATCH_SIZE as int,
                        )
                    &&& stored_max(final(id_manager).entries@, init.location.id) == cur + f.len()
                })
            }),
    {
        let location_id = init.location.id;
        let mut full_path = init.location.path.clone();
        full_path.append(init.sub_path.as_str());
        let root = match MaterializedPath::new(
            location_id,
            init.location.path.as_str(),
            full_path.as_str(),
            true,
        ) {
            Ok(m) => m,
            Err(_) => {
                return Err(IndexerError::SubPathNotInLocation(full_path));
            },
        };
        if init.sub_path.as_str().unicode_len() > 0 && !sub_path_is_dir {
            return Err(IndexerError::SubPathNotDirectory(full_path));
        }
        let parent_id = match catalog.get_existing_file_path_id(location_id, root.as_str()) {
            Some(p) => p,
            None => {
                proof {
                    assert(false);
                }
                return Err(IndexerError::SubPathNotInLocation(full_path));
            },
        };
        let cur_max = id_manager.get_max_file_path_id(location_id, catalog);
        let room = i32::MAX - cur_max;
        if room == 0 || walked.len() > ((room - 1) as usize) {
            return Err(IndexerError::IdSpaceExhausted);
        }
        let first_id = cur_max + 1;
        let (steps, count) = build_indexer_steps(
            location_id,
            init.location.path.as_str(),
            &root,
            parent_id,
            walked,
            catalog,
            first_id,
            crate::SHALLOW_BATCH_SIZE,
        );
        if count > 0 {
            match id_manager.reserve(location_id, count as i32) {
                Some(first) => {
                    proof {
                        assert(first == first_id);
                    }
                },
                None => {
                    proof {
                        assert(false);
                    }
                    return Err(IndexerError::IdSpaceExhausted);
                },
            }
        }
        let data = IndexerJobData {
            db_write_start,
            scan_read_time,
            total_paths: count,
            indexed_paths: 0,
        };
        Ok((data, steps))
    }

    /// Processes one chunk: writes its entries to the catalog and counts
    /// them into the job's progress.
    pub fn execute_step(
        &self,
        init: &ShallowIndexerJobInit,
        step: &IndexerJobStep,
        catalog: &mut Catalog,
        data: &mut IndexerJobData,
    ) -> (r: Result<usize, IndexerError>)
        requires
            old(catalog).wf(),
            forall|i: int|
                0 <= i < step.entries@.len() ==> step_entry_insertable(
                    old(catalog).file_paths@,
                    init.location.id,
                    #[trigger] step.entries@[i],
                ),
            forall|i: int, j: int|
                #![trigger step.entries@[i], step.entries@[j]]
                0 <= i < j < step.entries@.len() ==> step.entries@[i].file_id
                    != step.entries@[j].file_id,
            old(data).indexed_paths + step.entries@.len() <= u64::MAX,
        ensures
            r is Ok,
            r matches Ok(cnt) ==> cnt == step.entries@.len(),
            final(catalog).wf(),
            final(catalog).objects == old(catalog).objects,
            final(catalog).file_paths@.len() == old(catalog).file_paths@.len()
                + step.entries@.len(),
            forall|k: int|
                0 <= k < old(catalog).file_paths@.len()
                    ==> #[trigger] final(catalog).file_paths@[k] == old(catalog).file_paths@[k],
            forall|i: int|
                0 <= i < step.entries@.len() ==> inserted_row_matches(
                    #[trigger] final(catalog).file_paths@[old(catalog).file_paths@.len() + i],
                    step.entries@[i],
                    init.location.id,
                ),
            final(data).indexed_paths == old(data).indexed_paths + step.entries@.len(),
            final(data).total_paths == old(data).total_paths,
            final(data).db_write_start == old(data).db_write_start,
            final(data).scan_read_time == old(data).scan_read_time,
    {
        let r = execute_indexer_step(&init.location, step, catalog);
        match r {
            Ok(n) => {
                data.indexed_paths = data.indexed_paths + (n as u64);
                Ok(n)
            },
            Err(e) => {
                proof {
                    assert(false);
                }
                Err(e)
            },
        }
    }

    /// Wraps the run's counters up once the step queue is empty.
    pub fn finalize(&self, init: &ShallowIndexerJobInit, data: &IndexerJobData) -> (r:
        IndexerJobSummary)
        ensures
            r.location_path@ == init.location.path@,
            r.total_paths == data.total_paths,
            r.indexed_paths == data.indexed_paths,
    {
        IndexerJobSummary {
            location_path: init.location.path.clone(),
            total_paths: data.total_paths,
            indexed_paths: data.indexed_paths,
        }
    }
}

/// What an indexer run reports when it finishes.
#[derive(Debug)]
pub struct IndexerJobSummary {
    pub location_path: String,
    pub total_paths: u64,
    pub indexed_paths: u64,
}

/// Progress messages the indexer emits while scanning and writing.
#[derive(Debug)]
pub enum ScanProgress {
    ChunkCount(u64),
    SavedChunks(u64),
    Message(String),
}

} // verus!
