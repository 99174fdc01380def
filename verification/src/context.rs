//! The mutable machinery of one solve besides the wave itself: the
//! propagation worklist, the entropy queue with its scratch change map, and
//! the fast-path counter of cells that may still need observation.

use vstd::prelude::*;
use crate::observer::{spec_queue_wf, ChooseNextCell, CoordEntropy, Observer};
use crate::pattern::GlobalStats;
use crate::propagator::{
    spec_changes_wf, spec_counter_ok, spec_worklist_wf, PropagateError, Propagator, RemovedPattern,
};
use crate::wave::{
    lemma_aggregates_nonneg, lemma_count_exact_single, lemma_count_live_bounds,
    lemma_count_live_update, lemma_live_contributes, lemma_total_admitted_update, spec_live, Wave,
};
use crate::wrap::Wrap;

verus! {

/// Whether a step of the solve still has work left.
#[derive(Clone, Copy, Debug, PartialEq, Eq, Structural)]
pub enum Observe {
    Incomplete,
    Complete,
}

/// What one observation did, at the chosen cell `c`: the cell was chosen
/// fresh from the entropy queue, collapsed from at least two admitted
/// patterns to exactly one weighted pattern whose support tuple is kept,
/// every removed pattern was pushed (in ascending id order) onto the
/// worklist, no other cell changed, the counter dropped by exactly one, and
/// the scratch map was untouched.
pub open spec fn spec_observation_of(
    c: crate::coord::Coord,
    ctx0: Context,
    ctx1: Context,
    wave0: Wave,
    wave1: Wave,
    global_stats: GlobalStats,
) -> bool {
    let n = global_stats.spec_num_patterns();
    let ci = wave0.grid.spec_index_of(c);
    let cell0 = wave0.grid.cells@[ci];
    let cell1 = wave1.grid.cells@[ci];
    let wl0 = ctx0.propagator.removed_patterns_to_propagate@;
    let wl1 = ctx1.propagator.removed_patterns_to_propagate@;
    &&& c.spec_is_valid(wave0.grid.size)
    &&& exists|e: crate::observer::CoordEntropy|
        #[trigger] crate::observer::spec_chosen_from_queue(
            c,
            e,
            ctx0.observer.entropy_priority_queue@,
            ctx1.observer.entropy_priority_queue@,
            wave0,
        )
    &&& cell0.num_compatible_patterns >= 2
    &&& cell1.num_compatible_patterns == 1
    &&& exists|keep: int|
        #![trigger cell1.spec_admits(keep)]
        {
            &&& 0 <= keep < n
            &&& cell0.spec_admits(keep)
            &&& global_stats.pattern_weights.table@[keep] is Some
            &&& forall|p: int|
                0 <= p < n ==> ((#[trigger] cell1.spec_admits(p)) <==> (p == keep
                    && cell0.spec_admits(p)))
            &&& cell1.spec_num_ways()[keep] == cell0.spec_num_ways()[keep]
            &&& wl1.len() >= wl0.len()
            &&& forall|i: int| 0 <= i < wl0.len() ==> wl1[i] == wl0[i]
            &&& forall|i: int|
                wl0.len() <= i < wl1.len() ==> (#[trigger] wl1[i]).coord == c && wl1[
                    i
                ].pattern_id != keep && cell0.spec_admits(wl1[i].pattern_id as int)
            &&& forall|p: int|
                0 <= p < n && p != keep && cell0.spec_admits(p) ==> exists|i: int|
                    wl0.len() <= i < wl1.len() && (#[trigger] wl1[i]).pattern_id == p
            &&& forall|i: int, j: int|
                wl0.len() <= i < j < wl1.len() ==> (#[trigger] wl1[i]).pattern_id < (
                #[trigger] wl1[j]).pattern_id
        }
    &&& cell1.noise == cell0.noise
    &&& forall|ci2: int|
        0 <= ci2 < wave0.grid.cells@.len() && ci2 != ci ==> wave1.grid.cells@[ci2]
            == wave0.grid.cells@[ci2]
    &&& ctx1.num_cells_with_more_than_one_weighted_compatible_pattern as int
        == ctx0.num_cells_with_more_than_one_weighted_compatible_pattern as int - 1
    &&& ctx1.entropy_changes_by_coord == ctx0.entropy_changes_by_coord
}

/// The worklist, queue, scratch map and counter of one solve.
pub struct Context {
    pub propagator: Propagator,
    pub entropy_changes_by_coord: Vec<Option<crate::wave::EntropyWithNoise>>,
    pub observer: Observer,
    pub num_cells_with_more_than_one_weighted_compatible_pattern: u32,
}

impl Context {
    pub open spec fn wf(self, wave: Wave, global_stats: GlobalStats) -> bool {
        &&& spec_worklist_wf(
            self.propagator.removed_patterns_to_propagate@,
            wave.grid.size,
            global_stats.spec_num_patterns(),
        )
        &&& self.entropy_changes_by_coord@.len() == wave.grid.cells@.len()
        &&& spec_changes_wf(self.entropy_changes_by_coord@)
        &&& spec_queue_wf(self.observer.entropy_priority_queue@, wave.grid.size)
        &&& spec_counter_ok(
            self.num_cells_with_more_than_one_weighted_compatible_pattern as int,
            wave.grid.cells@,
            wave.grid.cells@.len() as int,
            global_stats,
        )
    }

    pub fn new() -> (r: Context)
        ensures
            r.propagator.removed_patterns_to_propagate@.len() == 0,
            r.observer.entropy_priority_queue@.len() == 0,
            r.entropy_changes_by_coord@.len() == 0,
    {
        Context {
            propagator: Propagator::new(),
            entropy_changes_by_coord: Vec::new(),
            observer: Observer::new(),
            num_cells_with_more_than_one_weighted_compatible_pattern: 0,
        }
    }

    /// Starts a solve over a freshly initialized wave: empties the worklist
    /// and the scratch map, and, unless there is at most one weighted
    /// pattern overall (a trivially complete solve), counts every cell as
    /// needing observation and enqueues every cell that can be sampled.
    pub fn init(&mut self, wave: &Wave, global_stats: &GlobalStats)
        requires
            wave.wf(*global_stats),
            global_stats.wf(),
        ensures
            final(self).wf(*wave, *global_stats),
            final(self).propagator.removed_patterns_to_propagate@.len() == 0,
            global_stats.num_weighted_patterns > 1 ==> {
                let q = final(self).observer.entropy_priority_queue@;
                &&& final(self).num_cells_with_more_than_one_weighted_compatible_pattern
                    == wave.grid.cells@.len()
                &&& forall|j: int|
                    0 <= j < q.len() ==> ({
                        let cell = wave.grid.spec_get((#[trigger] q[j]).coord);
                        &&& q[j].coord.spec_is_valid(wave.grid.size)
                        &&& q[j].entropy_with_noise.noise == cell.noise
                        &&& q[j].entropy_with_noise.num_weighted_compatible_patterns
                            == cell.stats.num_weighted_compatible_patterns
                        &&& q[j].entropy_with_noise.entropy == crate::entropy::spec_entropy_fix(
                            cell.stats.sum_compatible_pattern_weight as int,
                            cell.stats.sum_compatible_pattern_weight_log_weight as int,
                        )
                    })
                &&& forall|ci: int|
                    0 <= ci < wave.grid.cells@.len() && (#[trigger] wave.grid.cells@[
                        ci
                    ]).stats.num_weighted_compatible_patterns >= 1 ==> exists|j: int|
                        0 <= j < q.len() && wave.grid.spec_index_of((#[trigger] q[j]).coord) == ci
            },
            global_stats.num_weighted_patterns <= 1 ==> final(self).num_cells_with_more_than_one_weighted_compatible_pattern == 0 && final(self).observer.entropy_priority_queue@.len() == 0,
    {
        self.propagator.clear();
        self.observer.clear();
        self.entropy_changes_by_coord.clear();
        let len = wave.grid.len();
        let mut idx: usize = 0;
        #[verifier::loop_isolation(false)]
        while idx < len
            invariant
                idx <= len,
                self.entropy_changes_by_coord@.len() == idx,
                forall|i: int| 0 <= i < idx ==> (#[trigger] self.entropy_changes_by_coord@[i]) is None,
                self.observer.entropy_priority_queue@.len() == 0,
                self.propagator.removed_patterns_to_propagate@.len() == 0,
            decreases len - idx,
        {
            self.entropy_changes_by_coord.push(None);
            idx = idx + 1;
        }
        if global_stats.num_weighted_patterns() > 1 {
            let count = wave.size().count();
            self.num_cells_with_more_than_one_weighted_compatible_pattern = count as u32;
            proof {
                lemma_count_live_bounds(wave.grid.cells@, wave.grid.cells@.len() as int);
            }
            let mut i: usize = 0;
            #[verifier::loop_isolation(false)]
            while i < len
                invariant
                    wave.wf(*global_stats),
                    global_stats.wf(),
                    i <= len,
                    len == wave.grid.cells@.len(),
                    spec_queue_wf(self.observer.entropy_priority_queue@, wave.grid.size),
                    self.entropy_changes_by_coord@.len() == len,
                    forall|j: int|
                        0 <= j < len ==> (#[trigger] self.entropy_changes_by_coord@[j]) is None,
                    self.propagator.removed_patterns_to_propagate@.len() == 0,
                    self.num_cells_with_more_than_one_weighted_compatible_pattern
                        == wave.grid.cells@.len(),
                    forall|j: int|
                        0 <= j < self.observer.entropy_priority_queue@.len() ==> ({
                            let cell = wave.grid.spec_get(
                                (#[trigger] self.observer.entropy_priority_queue@[j]).coord,
                            );
                            let e = self.observer.entropy_priority_queue@[j].entropy_with_noise;
                            &&& self.observer.entropy_priority_queue@[j].coord.spec_is_valid(
                                wave.grid.size,
                            )
                            &&& e.noise == cell.noise
                            &&& e.num_weighted_compatible_patterns
                                == cell.stats.num_weighted_compatible_patterns
                            &&& e.entropy == crate::entropy::spec_entropy_fix(
                                cell.stats.sum_compatible_pattern_weight as int,
                                cell.stats.sum_compatible_pattern_weight_log_weight as int,
                            )
                        }),
                    forall|ci: int|
                        0 <= ci < i && (#[trigger] wave.grid.cells@[
                            ci
                        ]).stats.num_weighted_compatible_patterns >= 1 ==> exists|j: int|
                            0 <= j < self.observer.entropy_priority_queue@.len()
                                && wave.grid.spec_index_of(
                                (#[trigger] self.observer.entropy_priority_queue@[j]).coord,
                            ) == ci,
                decreases len - i,
            {
                let ghost q_before = self.observer.entropy_priority_queue@;
                let cell = wave.grid.get_index_checked(i);
                if cell.stats.num_weighted_compatible_patterns >= 1 {
                    proof {
                        lemma_aggregates_nonneg(
                            cell.spec_num_ways(),
                            global_stats.pattern_weights.table@,
                            global_stats.spec_num_patterns(),
                        );
                    }
                    let coord = wave.grid.coord_of_index(i);
                    let entropy = cell.entropy_with_noise(global_stats);
                    self.observer.push(CoordEntropy { coord, entropy_with_noise: entropy });
                }
                proof {
                    let q_now = self.observer.entropy_priority_queue@;
                    assert forall|ci: int|
                        0 <= ci < i + 1 && (#[trigger] wave.grid.cells@[
                        ci
                    ]).stats.num_weighted_compatible_patterns >= 1 implies exists|j: int|
                        0 <= j < q_now.len() && wave.grid.spec_index_of(
                        (#[trigger] q_now[j]).coord,
                    ) == ci by {
                        if ci < i {
                            let j = choose|j: int|
                                0 <= j < q_before.len() && wave.grid.spec_index_of(
                                (#[trigger] q_before[j]).coord,
                            ) == ci;
                            assert(q_now[j] == q_before[j]);
                        } else {
                            assert(wave.grid.spec_index_of(q_now[q_now.len() - 1].coord) == ci);
                        }
                    }
                }
                i = i + 1;
            }
        } else {
            self.num_cells_with_more_than_one_weighted_compatible_pattern = 0;
        }
    }

    /// Runs the propagator, then moves each recorded entropy change into the
    /// observer's queue.
    pub fn propagate<W: Wrap>(&mut self, wave: &mut Wave, global_stats: &GlobalStats) -> (r:
        Result<(), PropagateError>)
        requires
            global_stats.wf(),
            old(wave).wf(*global_stats),
            old(self).wf(*old(wave), *global_stats),
        ensures
            final(wave).wf(*global_stats),
            final(wave).grid.size == old(wave).grid.size,
            final(wave).grid.cells@.len() == old(wave).grid.cells@.len(),
            final(self).wf(*final(wave), *global_stats),
            r is Ok ==> final(self).propagator.removed_patterns_to_propagate@.len() == 0,
            r is Ok && old(self).propagator.removed_patterns_to_propagate@.len() > 0
                ==> crate::propagator::spec_removal_applied::<W>(
                old(self).propagator.removed_patterns_to_propagate@.last(),
                old(wave).grid.cells@,
                final(wave).grid.cells@,
                *global_stats,
                old(wave).grid.size,
            ),
            crate::propagator::spec_supports_le(
                final(wave).grid.cells@,
                old(wave).grid.cells@,
                global_stats.spec_num_patterns(),
            ),
            final(wave).spec_total(*global_stats) <= old(wave).spec_total(*global_stats),
            final(self).num_cells_with_more_than_one_weighted_compatible_pattern <= old(self).num_cells_with_more_than_one_weighted_compatible_pattern,
            forall|ci: int, p: int|
                0 <= ci < old(wave).grid.cells@.len() && 0 <= p
                    < global_stats.spec_num_patterns() && (#[trigger] final(wave).grid.cells@[ci].spec_admits(p)) ==> old(wave).grid.cells@[ci].spec_admits(p),
    {
        let result = self.propagator.propagate::<W>(
            wave,
            global_stats,
            &mut self.entropy_changes_by_coord,
            &mut self.num_cells_with_more_than_one_weighted_compatible_pattern,
        );
        match result {
            Err(e) => Err(e),
            Ok(()) => {
                let ghost counter_mid =
                    self.num_cells_with_more_than_one_weighted_compatible_pattern;
                let len = self.entropy_changes_by_coord.len();
                let mut idx: usize = 0;
                #[verifier::loop_isolation(false)]
                while idx < len
                    invariant
                        wave.wf(*global_stats),
                        global_stats.wf(),
                        idx <= len,
                        len == self.entropy_changes_by_coord@.len(),
                        len == wave.grid.cells@.len(),
                        spec_changes_wf(self.entropy_changes_by_coord@),
                        spec_queue_wf(self.observer.entropy_priority_queue@, wave.grid.size),
                        self.propagator.removed_patterns_to_propagate@.len() == 0,
                        self.num_cells_with_more_than_one_weighted_compatible_pattern
                            == counter_mid,
                        spec_counter_ok(
                            self.num_cells_with_more_than_one_weighted_compatible_pattern as int,
                            wave.grid.cells@,
                            wave.grid.cells@.len() as int,
                            *global_stats,
                        ),
                    decreases len - idx,
                {
                    match self.entropy_changes_by_coord[idx] {
                        Some(entropy) => {
                            proof {
                                assert(wave.grid.size.x * wave.grid.size.y == wave.grid.cells@.len());
                                assert(wave.grid.size.x >= 1);
                            }
                            let coord = wave.grid.coord_of_index(idx);
                            self.observer.push(CoordEntropy {
                                coord,
                                entropy_with_noise: entropy,
                            });
                            self.entropy_changes_by_coord.set(idx, None);
                        },
                        None => {},
                    }
                    idx = idx + 1;
                }
                Ok(())
            },
        }
    }

    /// One observation: if no cell can still need a choice, the solve is
    /// complete; otherwise the freshest minimum-entropy cell is collapsed to
    /// one weighted pattern, sampled in proportion to the weights, and every
    /// other pattern it admitted is queued for propagation.
    pub fn observe(
        &mut self,
        wave: &mut Wave,
        global_stats: &GlobalStats,
        rng: &mut rand_xorshift::XorShiftRng,
    ) -> (r: Observe)
        requires
            global_stats.wf(),
            old(wave).wf(*global_stats),
            old(self).wf(*old(wave), *global_stats),
        ensures
            final(wave).wf(*global_stats),
            final(wave).grid.size == old(wave).grid.size,
            final(wave).grid.cells@.len() == old(wave).grid.cells@.len(),
            final(self).wf(*final(wave), *global_stats),
            r == Observe::Complete ==> *final(wave) == *old(wave) && (final(self).num_cells_with_more_than_one_weighted_compatible_pattern == 0 || (final(self).observer.entropy_priority_queue@.len() == 0 && forall|j: int|
                0 <= j < old(self).observer.entropy_priority_queue@.len()
                    ==> crate::observer::spec_stale(
                    #[trigger] old(self).observer.entropy_priority_queue@[j],
                    *old(wave),
                ))),
            r == Observe::Incomplete ==> final(wave).spec_total(*global_stats) < old(wave).spec_total(*global_stats),
            r == Observe::Incomplete ==> exists|c: crate::coord::Coord|
                #[trigger] spec_observation_of(
                    c,
                    *old(self),
                    *final(self),
                    *old(wave),
                    *final(wave),
                    *global_stats,
                ),
    {
        if self.num_cells_with_more_than_one_weighted_compatible_pattern == 0 {
            return Observe::Complete;
        }
        let chosen_coord = match self.observer.choose_next_cell(wave, global_stats) {
            ChooseNextCell::NoCellsWithMultipleWeightedPatterns => {
                return Observe::Complete;
            },
            ChooseNextCell::MinEntropyCell(coord) => coord,
        };
        let ghost cells_entry = wave.grid.cells@;
        let ghost len = wave.grid.cells@.len() as int;
        let ghost n = global_stats.spec_num_patterns();
        let ghost cidx = wave.grid.spec_index_of(chosen_coord);
        proof {
            wave.grid.lemma_index_of_bounds(chosen_coord);
        }
        let pattern_id = {
            let cell = wave.grid.get_checked(chosen_coord);
            cell.choose_pattern_id(global_stats, rng)
        };
        self.remove_all_patterns_except_one(wave, chosen_coord, pattern_id, global_stats);
        proof {
            lemma_total_admitted_update(cells_entry, wave.grid.cells@, n, cidx, len);
            lemma_count_live_update(cells_entry, wave.grid.cells@, cidx, len);
            assert(spec_live(cells_entry[cidx]));
            lemma_live_contributes(cells_entry, len, cidx);
            assert(wave.grid.cells@[cidx].num_compatible_patterns == 1);
            assert(cells_entry[cidx].num_compatible_patterns >= 2);
            assert(forall|p: int|
                0 <= p < n && (#[trigger] wave.grid.cells@[cidx].spec_admits(p))
                    ==> cells_entry[cidx].spec_admits(p)
                    && global_stats.pattern_weights.table@[p] is Some);
        }
        self.num_cells_with_more_than_one_weighted_compatible_pattern =
            self.num_cells_with_more_than_one_weighted_compatible_pattern - 1;
        proof {
            let cell1 = wave.grid.cells@[cidx];
            let cell0 = cells_entry[cidx];
            assert(cell1.spec_admits(pattern_id as int) <==> (pattern_id as int == pattern_id
                && cell0.spec_admits(pattern_id as int)));
            assert(cell1.spec_admits(pattern_id as int));
            let e = choose|e: crate::observer::CoordEntropy|
                crate::observer::spec_chosen_from_queue(
                    chosen_coord,
                    e,
                    old(self).observer.entropy_priority_queue@,
                    self.observer.entropy_priority_queue@,
                    *old(wave),
                );
            assert(crate::observer::spec_chosen_from_queue(
                chosen_coord,
                e,
                old(self).observer.entropy_priority_queue@,
                self.observer.entropy_priority_queue@,
                *old(wave),
            ));
            assert(spec_observation_of(
                chosen_coord,
                *old(self),
                *self,
                *old(wave),
                *wave,
                *global_stats,
            ));
        }
        Observe::Incomplete
    }

    /// Collapses the cell at `coord` to `pattern_id` alone: every other
    /// admitted pattern is removed from the cell and queued for propagation.
    /// If the cell did not admit `pattern_id`, nothing at all remains there.
    pub fn remove_all_patterns_except_one(
        &mut self,
        wave: &mut Wave,
        coord: crate::coord::Coord,
        pattern_id_to_keep: crate::pattern::PatternId,
        global_stats: &GlobalStats,
    )
        requires
            global_stats.wf(),
            old(wave).wf(*global_stats),
            old(self).wf(*old(wave), *global_stats),
            coord.spec_is_valid(old(wave).grid.size),
            pattern_id_to_keep < global_stats.spec_num_patterns(),
        ensures
            final(wave).wf(*global_stats),
            final(wave).grid.size == old(wave).grid.size,
            final(wave).grid.cells@.len() == old(wave).grid.cells@.len(),
            spec_worklist_wf(
                final(self).propagator.removed_patterns_to_propagate@,
                final(wave).grid.size,
                global_stats.spec_num_patterns(),
            ),
            final(self).entropy_changes_by_coord == old(self).entropy_changes_by_coord,
            final(self).observer == old(self).observer,
            final(self).num_cells_with_more_than_one_weighted_compatible_pattern == old(self).num_cells_with_more_than_one_weighted_compatible_pattern,
            forall|ci: int|
                0 <= ci < old(wave).grid.cells@.len() && ci != old(wave).grid.spec_index_of(coord)
                    ==> final(wave).grid.cells@[ci] == old(wave).grid.cells@[ci],
            ({
                let cell = final(wave).grid.cells@[old(wave).grid.spec_index_of(coord)];
                let cell0 = old(wave).grid.cells@[old(wave).grid.spec_index_of(coord)];
                &&& forall|p: int|
                    0 <= p < global_stats.spec_num_patterns() ==> ((#[trigger] cell.spec_admits(p))
                        <==> (p == pattern_id_to_keep && cell0.spec_admits(p)))
                &&& (cell.num_compatible_patterns as int) == (if cell0.spec_admits(
                    pattern_id_to_keep as int,
                ) {
                    1int
                } else {
                    0int
                })
                &&& cell.noise == cell0.noise
                &&& cell.spec_num_ways()[pattern_id_to_keep as int] == cell0.spec_num_ways()[
                    pattern_id_to_keep as int
                ]
            }),
            ({
                let wl0 = old(self).propagator.removed_patterns_to_propagate@;
                let wl = final(self).propagator.removed_patterns_to_propagate@;
                let cell0 = old(wave).grid.cells@[old(wave).grid.spec_index_of(coord)];
                &&& wl.len() >= wl0.len()
                &&& forall|i: int| 0 <= i < wl0.len() ==> wl[i] == wl0[i]
                &&& forall|i: int|
                    wl0.len() <= i < wl.len() ==> (#[trigger] wl[i]).coord == coord
                        && wl[i].pattern_id != pattern_id_to_keep && cell0.spec_admits(
                        wl[i].pattern_id as int,
                    )
                &&& forall|p: int|
                    0 <= p < global_stats.spec_num_patterns() && p != pattern_id_to_keep
                        && cell0.spec_admits(p) ==> exists|i: int|
                        wl0.len() <= i < wl.len() && (#[trigger] wl[i]).pattern_id == p
                        && wl[i].coord == coord
                &&& forall|i: int, j: int|
                    wl0.len() <= i < j < wl.len() ==> (#[trigger] wl[i]).pattern_id < (
                    #[trigger] wl[j]).pattern_id
            }),
    {
        let ghost n = global_stats.spec_num_patterns();
        let ghost len = old(wave).grid.cells@.len() as int;
        let ghost cells_entry = wave.grid.cells@;
        let ghost wl_entry = self.propagator.removed_patterns_to_propagate@;
        let ghost cidx = wave.grid.spec_index_of(coord);
        proof {
            wave.grid.lemma_index_of_bounds(coord);
        }
        let num_patterns = global_stats.num_patterns();
        let mut p: usize = 0;
        while p < num_patterns
            invariant
                global_stats.wf(),
                n == global_stats.spec_num_patterns(),
                num_patterns == n,
                p <= num_patterns,
                wave.wf(*global_stats),
                wave.grid.size == old(wave).grid.size,
                wave.grid.cells@.len() == len,
                len == old(wave).grid.cells@.len(),
                cells_entry == old(wave).grid.cells@,
                coord.spec_is_valid(wave.grid.size),
                pattern_id_to_keep < n,
                cidx == wave.grid.spec_index_of(coord),
                0 <= cidx < len,
                spec_worklist_wf(
                    self.propagator.removed_patterns_to_propagate@,
                    wave.grid.size,
                    n,
                ),
                wl_entry == old(self).propagator.removed_patterns_to_propagate@,
                self.propagator.removed_patterns_to_propagate@.len() >= wl_entry.len(),
                forall|i: int|
                    0 <= i < wl_entry.len()
                        ==> self.propagator.removed_patterns_to_propagate@[i] == wl_entry[i],
                forall|i: int|
                    wl_entry.len() <= i < self.propagator.removed_patterns_to_propagate@.len()
                        ==> (#[trigger] self.propagator.removed_patterns_to_propagate@[i]).coord
                        == coord && self.propagator.removed_patterns_to_propagate@[i].pattern_id
                        != pattern_id_to_keep && cells_entry[cidx].spec_admits(
                        self.propagator.removed_patterns_to_propagate@[i].pattern_id as int,
                    ),
                forall|p2: int|
                    0 <= p2 < p && p2 != pattern_id_to_keep && cells_entry[cidx].spec_admits(p2)
                        ==> exists|i: int|
                        wl_entry.len() <= i
                            < self.propagator.removed_patterns_to_propagate@.len() && (
                        #[trigger] self.propagator.removed_patterns_to_propagate@[i]).pattern_id
                            == p2 && self.propagator.removed_patterns_to_propagate@[i].coord
                            == coord,
                self.entropy_changes_by_coord == old(self).entropy_changes_by_coord,
                self.observer == old(self).observer,
                self.num_cells_with_more_than_one_weighted_compatible_pattern == old(self).num_cells_with_more_than_one_weighted_compatible_pattern,
                forall|ci: int| 0 <= ci < len && ci != cidx ==> wave.grid.cells@[ci] == cells_entry[ci],
                forall|q: int|
                    p <= q < n ==> ((#[trigger] wave.grid.cells@[cidx].spec_admits(q))
                        == cells_entry[cidx].spec_admits(q)),
                forall|q: int|
                    0 <= q < p && q != pattern_id_to_keep ==> !(#[trigger] wave.grid.cells@[
                        cidx
                    ].spec_admits(q)),
                forall|q: int|
                    0 <= q < n ==> ((#[trigger] wave.grid.cells@[cidx].spec_admits(q)) ==> cells_entry[
                        cidx
                    ].spec_admits(q)),
                wave.grid.cells@[cidx].spec_admits(pattern_id_to_keep as int) == cells_entry[
                    cidx
                ].spec_admits(pattern_id_to_keep as int),
                wave.grid.cells@[cidx].spec_num_ways()[pattern_id_to_keep as int] == cells_entry[
                    cidx
                ].spec_num_ways()[pattern_id_to_keep as int],
                wave.grid.cells@[cidx].noise == cells_entry[cidx].noise,
                forall|i: int|
                    wl_entry.len() <= i < self.propagator.removed_patterns_to_propagate@.len()
                        ==> (#[trigger] self.propagator.removed_patterns_to_propagate@[
                        i
                    ]).pattern_id < p,
                forall|i: int, j: int|
                    wl_entry.len() <= i < j < self.propagator.removed_patterns_to_propagate@.len()
                        ==> (#[trigger] self.propagator.removed_patterns_to_propagate@[
                        i
                    ]).pattern_id < (
                    #[trigger] self.propagator.removed_patterns_to_propagate@[j]).pattern_id,
            decreases num_patterns - p,
        {
            if p as u32 != pattern_id_to_keep {
                let ghost cells_before = wave.grid.cells@;
                let remove = {
                    let cell = wave.grid.get_checked(coord);
                    cell.is_pattern_compatible(p as u32, global_stats)
                };
                if remove {
                    let cell = wave.grid.get_checked_mut(coord);
                    cell.remove_pattern(p as u32, global_stats);
                    let ghost wl_before = self.propagator.removed_patterns_to_propagate@;
                    self.propagator.removed_patterns_to_propagate.push(RemovedPattern {
                        coord,
                        pattern_id: p as u32,
                    });
                    proof {
                        let wl_now = self.propagator.removed_patterns_to_propagate@;
                        assert forall|p2: int|
                            0 <= p2 < p + 1 && p2 != pattern_id_to_keep && cells_entry[
                            cidx
                        ].spec_admits(p2) implies exists|i: int|
                            wl_entry.len() <= i < wl_now.len() && (#[trigger] wl_now[
                            i
                        ]).pattern_id == p2 && wl_now[i].coord == coord by {
                            if p2 < p {
                                let j = choose|j: int|
                                    wl_entry.len() <= j < wl_before.len() && (#[trigger] wl_before[
                                    j
                                ]).pattern_id == p2 && wl_before[j].coord == coord;
                                assert(wl_now[j].pattern_id == p2 && wl_now[j].coord == coord);
                            } else {
                                assert(wl_now[wl_now.len() - 1].pattern_id == p2);
                            }
                        }
                    }
                    proof {
                        let cell_now = wave.grid.cells@[cidx];
                        let cell_prev = cells_before[cidx];
                        assert(cell_now.spec_num_ways() == cell_prev.spec_num_ways().update(
                            p as int,
                            crate::wave::NumWaysToBecomePattern::spec_zero(),
                        ));
                        assert(!crate::wave::NumWaysToBecomePattern::spec_zero().spec_admitted());
                        assert forall|q: int| 0 <= q < n && q != p as int implies (
                        #[trigger] cell_now.spec_admits(q)) == cell_prev.spec_admits(q) by {
                            assert(cell_now.spec_num_ways()[q] == cell_prev.spec_num_ways()[q]);
                        }
                    }
                }
            }
            p = p + 1;
        }
        proof {
            let cell = wave.grid.cells@[cidx];
            assert forall|q: int| 0 <= q < n && q != pattern_id_to_keep as int implies !(
            #[trigger] cell.spec_num_ways()[q]).spec_admitted() by {
                assert(!wave.grid.cells@[cidx].spec_admits(q));
            }
            if cells_entry[cidx].spec_admits(pattern_id_to_keep as int) {
                assert(cell.spec_num_ways()[pattern_id_to_keep as int].spec_admitted());
                lemma_count_exact_single(cell.spec_num_ways(), n, pattern_id_to_keep as int);
            } else {
                assert forall|q: int| 0 <= q < n implies !(#[trigger] cell.spec_num_ways()[
                    q
                ]).spec_admitted() by {
                    assert(!wave.grid.cells@[cidx].spec_admits(q));
                }
                crate::wave::lemma_none_admitted(cell.spec_num_ways(), n);
                lemma_aggregates_nonneg(
                    cell.spec_num_ways(),
                    global_stats.pattern_weights.table@,
                    n,
                );
            }
        }
    }
}

} // verus!
