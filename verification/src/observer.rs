//! The observer's priority queue: cells keyed by entropy, smallest first,
//! with lazy invalidation. Entries carry a snapshot of the cell's
//! weighted-pattern count; an entry whose snapshot no longer matches the
//! live cell is stale and is skipped on pop.

use vstd::prelude::*;
use crate::coord::{Coord, Size};
use crate::wave::{EntropyWithNoise, Wave};

verus! {

/// A queue entry: a cell and the entropy key it was enqueued under.
#[derive(Clone, Copy, Debug)]
pub struct CoordEntropy {
    pub coord: Coord,
    pub entropy_with_noise: EntropyWithNoise,
}

/// The queue of cells that may still need observation.
pub struct Observer {
    pub entropy_priority_queue: Vec<CoordEntropy>,
}

/// Every entry names an in-bounds cell and was enqueued while the cell still
/// had a weighted pattern.
pub open spec fn spec_queue_wf(q: Seq<CoordEntropy>, size: Size) -> bool {
    forall|i: int|
        0 <= i < q.len() ==> (#[trigger] q[i]).coord.spec_is_valid(size)
            && q[i].entropy_with_noise.num_weighted_compatible_patterns >= 1
}

/// An entry that no longer speaks for its cell: the cell's weighted count
/// moved past the entry's snapshot, or the cell is already decided.
pub open spec fn spec_stale(entry: CoordEntropy, wave: Wave) -> bool {
    let cell = wave.grid.spec_get(entry.coord);
    cell.stats.num_weighted_compatible_patterns
        != entry.entropy_with_noise.num_weighted_compatible_patterns
        || cell.num_compatible_patterns <= 1
}

/// What a successful cell choice means: some fresh entry `e` of the starting
/// queue names the cell, its key is no larger than any entry still queued,
/// and every starting entry now gone (other than `e` itself) was stale.
pub open spec fn spec_chosen_from_queue(
    c: Coord,
    e: CoordEntropy,
    q0: Seq<CoordEntropy>,
    q1: Seq<CoordEntropy>,
    wave: Wave,
) -> bool {
    &&& q0.contains(e)
    &&& e.coord == c
    &&& !spec_stale(e, wave)
    &&& forall|j: int|
        0 <= j < q1.len() ==> !(#[trigger] q1[j]).entropy_with_noise.spec_lt(e.entropy_with_noise)
    &&& forall|j: int|
        0 <= j < q0.len() ==> q1.contains(#[trigger] q0[j]) || q0[j] == e || spec_stale(q0[j], wave)
}

/// The result of looking for the next cell to observe.
#[derive(Clone, Copy, Debug)]
pub enum ChooseNextCell {
    MinEntropyCell(Coord),
    NoCellsWithMultipleWeightedPatterns,
}

impl Observer {
    pub fn new() -> (r: Observer)
        ensures
            r.entropy_priority_queue@.len() == 0,
    {
        Observer { entropy_priority_queue: Vec::new() }
    }

    pub fn clear(&mut self)
        ensures
            final(self).entropy_priority_queue@.len() == 0,
    {
        self.entropy_priority_queue.clear();
    }

    pub fn push(&mut self, entry: CoordEntropy)
        ensures
            final(self).entropy_priority_queue@ == old(self).entropy_priority_queue@.push(entry),
    {
        self.entropy_priority_queue.push(entry);
    }

    /// Removes and returns an entry with the smallest entropy key, or `None`
    /// when the queue is empty.
    pub fn pop_min(&mut self) -> (r: Option<CoordEntropy>)
        ensures
            (r is None) == (old(self).entropy_priority_queue@.len() == 0),
            r is None ==> *final(self) == *old(self),
            r matches Some(e) ==> {
                &&& old(self).entropy_priority_queue@.contains(e)
                &&& final(self).entropy_priority_queue@.len() == old(self).entropy_priority_queue@.len() - 1
                &&& forall|i: int|
                    0 <= i < final(self).entropy_priority_queue@.len() ==> old(self).entropy_priority_queue@.contains(
                        #[trigger] final(self).entropy_priority_queue@[i],
                    )
                &&& forall|i: int|
                    0 <= i < final(self).entropy_priority_queue@.len() ==> !(#[trigger] final(self).entropy_priority_queue@[i]).entropy_with_noise.spec_lt(e.entropy_with_noise)
                &&& forall|x: CoordEntropy|
                    old(self).entropy_priority_queue@.contains(x) && x != e ==> final(self).entropy_priority_queue@.contains(x)
            },
    {
        let n = self.entropy_priority_queue.len();
        if n == 0 {
            return None;
        }
        let mut best: usize = 0;
        let mut i: usize = 1;
        while i < n
            invariant
                n == self.entropy_priority_queue@.len(),
                best < i <= n,
                forall|j: int|
                    0 <= j < i ==> !(#[trigger] self.entropy_priority_queue@[j]).entropy_with_noise.spec_lt(
                        self.entropy_priority_queue@[best as int].entropy_with_noise,
                    ),
            decreases n - i,
        {
            let cand = self.entropy_priority_queue[i].entropy_with_noise;
            let cur = self.entropy_priority_queue[best].entropy_with_noise;
            if cand.lt(&cur) {
                best = i;
            }
            i = i + 1;
        }
        let e = self.entropy_priority_queue.remove(best);
        proof {
            let q0 = old(self).entropy_priority_queue@;
            let q1 = self.entropy_priority_queue@;
            assert(q0[best as int] == e);
            assert(q0.contains(e));
            assert forall|x: CoordEntropy| q0.contains(x) && x != e implies q1.contains(x) by {
                let j = choose|j: int| 0 <= j < q0.len() && q0[j] == x;
                if j < best {
                    assert(q1[j] == x);
                } else {
                    assert(q1[j - 1] == x);
                }
            }
            assert forall|i2: int| 0 <= i2 < q1.len() implies q0.contains(#[trigger] q1[i2])
                && !q1[i2].entropy_with_noise.spec_lt(e.entropy_with_noise) by {
                if i2 < best {
                    assert(q1[i2] == q0[i2]);
                } else {
                    assert(q1[i2] == q0[i2 + 1]);
                }
            }
        }
        Some(e)
    }

    /// Pops entries until one is fresh: the cell's weighted-pattern count
    /// still equals the entry's snapshot and the cell is still undecided.
    /// Such a cell is returned; if the queue runs dry there is no cell left
    /// to observe.
    pub fn choose_next_cell(&mut self, wave: &Wave, global_stats: &crate::pattern::GlobalStats)
        -> (r: ChooseNextCell)
        requires
            wave.wf(*global_stats),
            global_stats.wf(),
            spec_queue_wf(old(self).entropy_priority_queue@, wave.grid.size),
        ensures
            spec_queue_wf(final(self).entropy_priority_queue@, wave.grid.size),
            final(self).entropy_priority_queue@.len() <= old(self).entropy_priority_queue@.len(),
            r is NoCellsWithMultipleWeightedPatterns ==> final(self).entropy_priority_queue@.len() == 0,
            r is NoCellsWithMultipleWeightedPatterns ==> forall|j: int|
                0 <= j < old(self).entropy_priority_queue@.len() ==> spec_stale(
                    #[trigger] old(self).entropy_priority_queue@[j],
                    *wave,
                ),
            r matches ChooseNextCell::MinEntropyCell(c) ==> {
                &&& c.spec_is_valid(wave.grid.size)
                &&& wave.grid.spec_get(c).num_compatible_patterns >= 2
                &&& wave.grid.spec_get(c).stats.num_weighted_compatible_patterns >= 1
                &&& exists|e: CoordEntropy|
                    spec_chosen_from_queue(
                        c,
                        e,
                        old(self).entropy_priority_queue@,
                        final(self).entropy_priority_queue@,
                        *wave,
                    )
            },
    {
        let ghost q_start = self.entropy_priority_queue@;
        proof {
            assert forall|j: int| 0 <= j < q_start.len() implies q_start.contains(
                #[trigger] q_start[j],
            ) by {
                assert(q_start[j] == q_start[j]);
            }
        }
        loop
            invariant
                wave.wf(*global_stats),
                global_stats.wf(),
                q_start == old(self).entropy_priority_queue@,
                spec_queue_wf(self.entropy_priority_queue@, wave.grid.size),
                self.entropy_priority_queue@.len() <= old(self).entropy_priority_queue@.len(),
                forall|j: int|
                    0 <= j < q_start.len() ==> self.entropy_priority_queue@.contains(
                        #[trigger] q_start[j],
                    ) || spec_stale(q_start[j], *wave),
                forall|j: int|
                    0 <= j < self.entropy_priority_queue@.len() ==> q_start.contains(
                        #[trigger] self.entropy_priority_queue@[j],
                    ),
            ensures
                spec_queue_wf(self.entropy_priority_queue@, wave.grid.size),
                self.entropy_priority_queue@.len() <= old(self).entropy_priority_queue@.len(),
            decreases self.entropy_priority_queue@.len(),
        {
            let ghost q_head = self.entropy_priority_queue@;
            match self.pop_min() {
                None => {
                    proof {
                        assert forall|j: int| 0 <= j < q_start.len() implies spec_stale(
                            #[trigger] q_start[j],
                            *wave,
                        ) by {
                            assert(!self.entropy_priority_queue@.contains(q_start[j]));
                        }
                    }
                    return ChooseNextCell::NoCellsWithMultipleWeightedPatterns;
                },
                Some(entry) => {
                    proof {
                        assert(q_head.contains(entry));
                        assert forall|j2: int|
                            0 <= j2 < self.entropy_priority_queue@.len() implies q_start.contains(
                            #[trigger] self.entropy_priority_queue@[j2],
                        ) by {
                            assert(q_head.contains(self.entropy_priority_queue@[j2]));
                            let j3 = choose|j3: int|
                                0 <= j3 < q_head.len() && q_head[j3]
                                    == self.entropy_priority_queue@[j2];
                            assert(q_start.contains(q_head[j3]));
                        }
                        let j = choose|j: int| 0 <= j < q_head.len() && q_head[j] == entry;
                        assert(entry.coord.spec_is_valid(wave.grid.size));
                        assert forall|i: int|
                            0 <= i < self.entropy_priority_queue@.len() implies (
                        #[trigger] self.entropy_priority_queue@[i]).coord.spec_is_valid(
                            wave.grid.size,
                        ) && self.entropy_priority_queue@[i].entropy_with_noise.num_weighted_compatible_patterns
                            >= 1 by {
                            let e2 = self.entropy_priority_queue@[i];
                            assert(q_head.contains(e2));
                            let j2 = choose|j2: int| 0 <= j2 < q_head.len() && q_head[j2] == e2;
                        }
                    }
                    proof {
                        assert forall|j: int| 0 <= j < q_start.len() implies
                            self.entropy_priority_queue@.contains(#[trigger] q_start[j])
                                || q_start[j] == entry || spec_stale(q_start[j], *wave) by {
                            if q_head.contains(q_start[j]) && q_start[j] != entry {
                                assert(self.entropy_priority_queue@.contains(q_start[j]));
                            }
                        }
                    }
                    let cell = wave.get_checked(entry.coord);
                    if cell.stats.num_weighted_compatible_patterns
                        == entry.entropy_with_noise.num_weighted_compatible_patterns
                        && cell.num_compatible_patterns > 1 {
                        proof {
                            assert(!spec_stale(entry, *wave));
                            assert(spec_chosen_from_queue(
                                entry.coord,
                                entry,
                                q_start,
                                self.entropy_priority_queue@,
                                *wave,
                            ));
                        }
                        return ChooseNextCell::MinEntropyCell(entry.coord);
                    }
                    proof {
                        assert(spec_stale(entry, *wave));
                        assert forall|j: int| 0 <= j < q_start.len() implies
                            self.entropy_priority_queue@.contains(#[trigger] q_start[j])
                                || spec_stale(q_start[j], *wave) by {
                            if q_start[j] == entry {
                                assert(spec_stale(q_start[j], *wave));
                            }
                        }
                    }
                },
            }
        }
    }
}

} // verus!
