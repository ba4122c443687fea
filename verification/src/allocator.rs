//! The per-location file path id allocator.
//!
//! The catalog assigns file path ids monotonically per location. This
//! allocator keeps the highest assigned id per location in memory: a cold
//! read pulls the current maximum from the catalog, `reserve` hands out a
//! contiguous fresh range, and the new high-watermark is flushed back to the
//! catalog at batch boundaries. Ranges reserved one after another never
//! overlap, so no two rows ever share (location_id, id).

use vstd::prelude::*;
use crate::catalog::Catalog;
use crate::catalog::has_fp_key;
use crate::catalog::max_id_below;

verus! {

/// Tracks, per location, the largest file path id handed out.
#[derive(Debug)]
pub struct LastFilePathIdManager {
    /// (location id, largest assigned file path id) pairs, one per location.
    pub entries: Vec<(i32, i32)>,
}

pub open spec fn has_loc(s: Seq<(i32, i32)>, loc: i32) -> bool {
    exists|k: int| 0 <= k < s.len() && (#[trigger] s[k]).0 == loc
}

pub open spec fn loc_index(s: Seq<(i32, i32)>, loc: i32) -> int {
    choose|k: int| 0 <= k < s.len() && (#[trigger] s[k]).0 == loc
}

/// The remembered maximum for a location (meaningful when `has_loc`).
pub open spec fn stored_max(s: Seq<(i32, i32)>, loc: i32) -> int {
    s[loc_index(s, loc)].1 as int
}

impl LastFilePathIdManager {
    /// One entry per location, every remembered maximum non-negative.
    pub open spec fn wf(self) -> bool {
        &&& (forall|i: int, j: int|
            #![trigger self.entries@[i], self.entries@[j]]
            0 <= i < j < self.entries@.len() ==> self.entries@[i].0 != self.entries@[j].0)
        &&& (forall|i: int|
            0 <= i < self.entries@.len() ==> (#[trigger] self.entries@[i]).1 >= 0)
    }

    pub fn new() -> (r: LastFilePathIdManager)
        ensures
            r.wf(),
            r.entries@.len() == 0,
    {
        LastFilePathIdManager { entries: Vec::new() }
    }
}

/// Any entry holding `loc` holds the remembered maximum: entries are unique
/// per location.
pub proof fn lemma_stored_max_at(s: Seq<(i32, i32)>, loc: i32, k: int)
    requires
        forall|i: int, j: int|
            #![trigger s[i], s[j]]
            0 <= i < j < s.len() ==> s[i].0 != s[j].0,
        0 <= k < s.len(),
        s[k].0 == loc,
    ensures
        has_loc(s, loc),
        stored_max(s, loc) == s[k].1 as int,
{
    assert(has_loc(s, loc));
    let ki = loc_index(s, loc);
    assert(0 <= ki < s.len() && s[ki].0 == loc);
    if ki != k {
        assert(s[ki].0 != s[k].0);
        assert(false);
    }
}

impl LastFilePathIdManager {
    /// The largest assigned id under a location: remembered when warm, read
    /// from the catalog (and remembered) when cold.
    pub fn get_max_file_path_id(&mut self, location_id: i32, catalog: &Catalog) -> (r: i32)
        requires
            old(self).wf(),
        ensures
            final(self).wf(),
            r >= 0,
            has_loc(final(self).entries@, location_id),
            stored_max(final(self).entries@, location_id) == r as int,
            has_loc(old(self).entries@, location_id) ==> *final(self) == *old(self) && r as int
                == stored_max(old(self).entries@, location_id),
            !has_loc(old(self).entries@, location_id) ==> {
                &&& r as int == max_id_below(catalog.file_paths@, location_id)
                &&& final(self).entries@ == old(self).entries@.push((location_id, r))
                &&& (forall|k: int|
                    0 <= k < catalog.file_paths@.len() && (#[trigger] catalog.file_paths@[k]).location_id
                        == location_id ==> catalog.file_paths@[k].id <= r)
                &&& (r > 0 ==> has_fp_key(catalog.file_paths@, location_id, r))
            },
    {
        let n = self.entries.len();
        let mut k: usize = 0;
        while k < n
            invariant
                k <= n,
                n == self.entries@.len(),
                old(self).wf(),
                *self == *old(self),
                forall|m: int| 0 <= m < k ==> (#[trigger] self.entries@[m]).0 != location_id,
            decreases n - k,
        {
            let e = self.entries[k];
            if e.0 == location_id {
                proof {
                    lemma_stored_max_at(self.entries@, location_id, k as int);
                }
                return e.1;
            }
            k += 1;
        }
        let max = catalog.max_file_path_id(location_id);
        self.entries.push((location_id, max));
        proof {
            let s = self.entries@;
            assert forall|i: int, j: int|
                #![trigger s[i], s[j]]
                0 <= i < j < s.len() implies s[i].0 != s[j].0 by {
                if j == s.len() - 1 {
                    assert(s[i] == old(self).entries@[i]);
                    assert(s[j].0 == location_id);
                } else {
                    assert(s[i] == old(self).entries@[i]);
                    assert(s[j] == old(self).entries@[j]);
                }
            }
            lemma_stored_max_at(s, location_id, s.len() - 1);
        }
        max
    }

    /// Remembers a new high-watermark for a location.
    pub fn set_max_file_path_id(&mut self, location_id: i32, id: i32)
        requires
            old(self).wf(),
            id >= 0,
        ensures
            final(self).wf(),
            has_loc(final(self).entries@, location_id),
            stored_max(final(self).entries@, location_id) == id as int,
            forall|l: i32|
                l != location_id ==> #[trigger] has_loc(final(self).entries@, l) == has_loc(
                    old(self).entries@,
                    l,
                ),
            forall|l: i32|
                l != location_id && has_loc(old(self).entries@, l) ==> #[trigger] stored_max(
                    final(self).entries@,
                    l,
                ) == stored_max(old(self).entries@, l),
    {
        let n = self.entries.len();
        let mut k: usize = 0;
        while k < n
            invariant
                k <= n,
                n == self.entries@.len(),
                old(self).wf(),
                id >= 0,
                *self == *old(self),
                forall|m: int| 0 <= m < k ==> (#[trigger] self.entries@[m]).0 != location_id,
            decreases n - k,
        {
            if self.entries[k].0 == location_id {
                let ghost pre = self.entries@;
                self.entries.set(k, (location_id, id));
                proof {
                    let s = self.entries@;
                    assert forall|i: int, j: int|
                        #![trigger s[i], s[j]]
                        0 <= i < j < s.len() implies s[i].0 != s[j].0 by {
                        assert(s[i].0 == pre[i].0 && s[j].0 == pre[j].0);
                    }
                    lemma_stored_max_at(s, location_id, k as int);
                    assert forall|i: int| 0 <= i < s.len() implies (#[trigger] s[i]).1 >= 0 by {
                        if i != k {
                            assert(s[i] == pre[i]);
                        }
                    }
                    assert forall|l: i32| l != location_id implies #[trigger] has_loc(s, l)
                        == has_loc(pre, l) by {
                        if has_loc(pre, l) {
                            let w = choose|w: int| 0 <= w < pre.len() && (#[trigger] pre[w]).0 == l;
                            assert(w != k);
                            assert(s[w] == pre[w]);
                            assert(has_loc(s, l));
                        } else {
                            if has_loc(s, l) {
                                let w = choose|w: int|
                                    0 <= w < s.len() && (#[trigger] s[w]).0 == l;
                                assert(w != k);
                                assert(s[w] == pre[w]);
                                assert(false);
                            }
                        }
                    }
                    assert forall|l: i32| l != location_id && has_loc(pre, l) implies #[trigger] stored_max(
                        s,
                        l,
                    ) == stored_max(pre, l) by {
                        let w = choose|w: int| 0 <= w < pre.len() && (#[trigger] pre[w]).0 == l;
                        assert(w != k);
                        assert(s[w] == pre[w]);
                        lemma_stored_max_at(s, l, w);
                        lemma_stored_max_at(pre, l, w);
                    }
                }
                return ;
            }
            k += 1;
        }
        let ghost pre = self.entries@;
        self.entries.push((location_id, id));
        proof {
            let s = self.entries@;
            assert forall|i: int, j: int|
                #![trigger s[i], s[j]]
                0 <= i < j < s.len() implies s[i].0 != s[j].0 by {
                if j == s.len() - 1 {
                    assert(s[i] == pre[i]);
                } else {
                    assert(s[i] == pre[i]);
                    assert(s[j] == pre[j]);
                }
            }
            lemma_stored_max_at(s, location_id, s.len() - 1);
            assert(s[s.len() - 1] == (location_id, id));
            assert forall|l: i32| l != location_id implies #[trigger] has_loc(s, l) == has_loc(
                pre,
                l,
            ) by {
                if has_loc(pre, l) {
                    let w = choose|w: int| 0 <= w < pre.len() && (#[trigger] pre[w]).0 == l;
                    assert(s[w] == pre[w]);
                    assert(has_loc(s, l));
                } else {
                    if has_loc(s, l) {
                        let w = choose|w: int| 0 <= w < s.len() && (#[trigger] s[w]).0 == l;
                        assert(s[s.len() - 1].0 == location_id);
                        assert(w != s.len() - 1);
                        assert(s[w] == pre[w]);
                        assert(false);
                    }
                }
            }
            assert forall|l: i32| l != location_id && has_loc(pre, l) implies #[trigger] stored_max(
                s,
                l,
            ) == stored_max(pre, l) by {
                let w = choose|w: int| 0 <= w < pre.len() && (#[trigger] pre[w]).0 == l;
                assert(s[w] == pre[w]);
                lemma_stored_max_at(s, l, w);
                lemma_stored_max_at(pre, l, w);
            }
        }
    }
}

/// One `reserve` call: from state `pre`, a range of `n` fresh ids for `loc`
/// beginning at `first` was handed out, leaving state `post`.
pub open spec fn reserve_post(
    pre: Seq<(i32, i32)>,
    post: Seq<(i32, i32)>,
    loc: i32,
    n: int,
    first: int,
) -> bool {
    &&& has_loc(pre, loc)
    &&& has_loc(post, loc)
    &&& first == stored_max(pre, loc) + 1
    &&& stored_max(post, loc) == stored_max(pre, loc) + n
}

impl LastFilePathIdManager {
    /// Reserves `n` contiguous ids for a location, returning the first, or
    /// nothing where the range would overflow the id space. The location
    /// must have been read at least once (`get_max_file_path_id`).
    pub fn reserve(&mut self, location_id: i32, n: i32) -> (r: Option<i32>)
        requires
            old(self).wf(),
            n >= 1,
            has_loc(old(self).entries@, location_id),
        ensures
            final(self).wf(),
            r is Some <==> stored_max(old(self).entries@, location_id) + n <= i32::MAX,
            r matches Some(first) ==> reserve_post(
                old(self).entries@,
                final(self).entries@,
                location_id,
                n as int,
                first as int,
            ),
            r is None ==> *final(self) == *old(self),
    {
        let n_entries = self.entries.len();
        let mut k: usize = 0;
        while k < n_entries
            invariant
                k <= n_entries,
                n_entries == self.entries@.len(),
                old(self).wf(),
                n >= 1,
                *self == *old(self),
                forall|m: int| 0 <= m < k ==> (#[trigger] self.entries@[m]).0 != location_id,
            decreases n_entries - k,
        {
            let e = self.entries[k];
            if e.0 == location_id {
                proof {
                    lemma_stored_max_at(self.entries@, location_id, k as int);
                }
                if e.1 > i32::MAX - n {
                    return None;
                }
                let first = e.1 + 1;
                let new_max = e.1 + n;
                self.set_max_file_path_id(location_id, new_max);
                return Some(first);
            }
            k += 1;
        }
        proof {
            let w = choose|w: int|
                0 <= w < self.entries@.len() && (#[trigger] self.entries@[w]).0 == location_id;
            assert(self.entries@[w].0 != location_id);
            assert(false);
        }
        None
    }
}

/// Two reserves performed one after the other for the same location hand
/// out disjoint, contiguous ranges: the indexer can never assign a
/// duplicate (location_id, id), whatever jobs run in between steps.
pub proof fn lemma_reserved_ranges_disjoint(
    s0: Seq<(i32, i32)>,
    s1: Seq<(i32, i32)>,
    s2: Seq<(i32, i32)>,
    loc: i32,
    n1: int,
    n2: int,
    f1: int,
    f2: int,
)
    requires
        reserve_post(s0, s1, loc, n1, f1),
        reserve_post(s1, s2, loc, n2, f2),
        n1 >= 0,
        n2 >= 0,
    ensures
        f2 == f1 + n1,
        f1 + n1 - 1 < f2,
{
}

/// A reserve only raises the high-watermark: any id handed out later, even
/// after unrelated reserves, lies strictly above the whole earlier range.
pub proof fn lemma_reserve_monotonic(
    s0: Seq<(i32, i32)>,
    s1: Seq<(i32, i32)>,
    loc: i32,
    n: int,
    first: int,
)
    requires
        reserve_post(s0, s1, loc, n, first),
        n >= 0,
    ensures
        stored_max(s1, loc) == first + n - 1,
        stored_max(s1, loc) >= stored_max(s0, loc),
{
}

} // verus!
