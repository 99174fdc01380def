//! AC-3-style constraint propagation: a worklist of removed patterns whose
//! consequences cascade to neighbouring cells by support decrements.

use vstd::prelude::*;
use crate::coord::{Coord, Size};
use crate::direction::CardinalDirection;
use crate::pattern::{spec_count_weighted, GlobalStats, PatternId};
use crate::wave::{
    lemma_aggregates_nonneg, lemma_count_live_nonneg, lemma_count_live_update,
    lemma_live_contributes, lemma_total_admitted_nonneg, lemma_total_admitted_update,
    spec_count_live, spec_live, DecrementOutcome, EntropyWithNoise, Wave,
};
use crate::wrap::Wrap;

verus! {

/// Propagation failed: some cell lost its last admitted pattern. The wave
/// must be reset before further use.
#[derive(Clone, Copy, Debug, PartialEq, Eq, Structural)]
pub enum PropagateError {
    Contradiction,
}

/// One entry of the worklist: this pattern was removed at this cell and its
/// neighbours' support counts have not yet been told.
#[derive(Clone, Copy, Debug)]
pub struct RemovedPattern {
    pub coord: Coord,
    pub pattern_id: PatternId,
}

/// The LIFO worklist of removals to propagate.
pub struct Propagator {
    pub removed_patterns_to_propagate: Vec<RemovedPattern>,
}

/// Every worklist entry names an in-bounds cell and a real pattern.
pub open spec fn spec_worklist_wf(wl: Seq<RemovedPattern>, size: Size, num_patterns: int) -> bool {
    forall|i: int|
        0 <= i < wl.len() ==> (#[trigger] wl[i]).coord.spec_is_valid(size) && wl[i].pattern_id
            < num_patterns
}

/// The observer's fast-path counter dominates the number of live cells,
/// except in the degenerate mode with at most one weighted pattern overall,
/// where the solve is trivially complete and the counter stays zero.
pub open spec fn spec_counter_ok(counter: int, cells: Seq<crate::wave::WaveCell>, len: int, global_stats: GlobalStats) -> bool {
    counter >= spec_count_live(cells, len) || spec_count_weighted(
        global_stats.pattern_weights.table@,
        global_stats.spec_num_patterns(),
    ) <= 1
}

/// Recorded entropy changes are for cells that can still be sampled.
pub open spec fn spec_changes_wf(ch: Seq<Option<EntropyWithNoise>>) -> bool {
    forall|i: int|
        0 <= i < ch.len() ==> ((#[trigger] ch[i]) matches Some(e)
            ==> e.num_weighted_compatible_patterns >= 1)
}

/// Every support slot of `b` is at most the matching slot of `a`: supports
/// only ever decrease.
pub open spec fn spec_supports_le(
    b: Seq<crate::wave::WaveCell>,
    a: Seq<crate::wave::WaveCell>,
    num_patterns: int,
) -> bool {
    forall|ci: int, p: int, dd: CardinalDirection|
        #![trigger b[ci].spec_num_ways()[p].direction_table.spec_get(dd)]
        0 <= ci < b.len() && 0 <= p < num_patterns
            ==> b[ci].spec_num_ways()[p].direction_table.spec_get(dd) <= a[ci].spec_num_ways()[
            p
        ].direction_table.spec_get(dd)
}

/// The removal `entry` has been told to its neighbours: for each direction
/// and each pattern compatible with the removed one, the support slot it
/// feeds is now strictly below its value in `before` or has reached zero.
pub open spec fn spec_removal_applied<W: Wrap>(
    entry: RemovedPattern,
    before: Seq<crate::wave::WaveCell>,
    after: Seq<crate::wave::WaveCell>,
    global_stats: GlobalStats,
    size: Size,
) -> bool {
    forall|di: int, k: int|
        #![trigger global_stats.spec_compat(entry.pattern_id as int, CardinalDirection::spec_from_index(di))[k]]
        0 <= di < 4 && 0 <= k < global_stats.spec_compat(
            entry.pattern_id as int,
            CardinalDirection::spec_from_index(di),
        ).len() ==> spec_slot_applied::<W>(entry, before, after, global_stats, size, di, k)
}

/// One slot of a removal's fan-out: strictly lowered, or already zero.
pub open spec fn spec_slot_applied<W: Wrap>(
    entry: RemovedPattern,
    before: Seq<crate::wave::WaveCell>,
    after: Seq<crate::wave::WaveCell>,
    global_stats: GlobalStats,
    size: Size,
    di: int,
    k: int,
) -> bool {
    match W::spec_normalize(
        crate::laws::spec_step(entry.coord, CardinalDirection::spec_from_index(di)),
        size,
    ) {
        Some(c2) => c2.spec_is_valid(size) ==> ({
            let dd = CardinalDirection::spec_from_index(di);
            let q = global_stats.spec_compat(entry.pattern_id as int, dd)[k] as int;
            let ci = size.spec_index_of(c2);
            let s1 = after[ci].spec_num_ways()[q].direction_table.spec_get(dd);
            let s0 = before[ci].spec_num_ways()[q].direction_table.spec_get(dd);
            s1 < s0 || s1 == 0
        }),
        None => true,
    }
}

impl Propagator {
    pub fn new() -> (r: Propagator)
        ensures
            r.removed_patterns_to_propagate@.len() == 0,
    {
        Propagator { removed_patterns_to_propagate: Vec::new() }
    }

    pub fn clear(&mut self)
        ensures
            final(self).removed_patterns_to_propagate@.len() == 0,
    {
        self.removed_patterns_to_propagate.clear();
    }

    /// Drains the worklist. For each removal and each direction, every
    /// pattern compatible with the removed one loses one way of support in
    /// the wrapped neighbour; patterns whose support runs out are removed in
    /// turn and enqueued. Entropy changes are recorded per cell (keeping the
    /// smallest key), cells that become decided or weightless drop their
    /// pending change, and a cell with nothing left aborts the run.
    pub fn propagate<W: Wrap>(
        &mut self,
        wave: &mut Wave,
        global_stats: &GlobalStats,
        entropy_changes: &mut Vec<Option<EntropyWithNoise>>,
        num_cells_counter: &mut u32,
    ) -> (r: Result<(), PropagateError>)
        requires
            global_stats.wf(),
            old(wave).wf(*global_stats),
            spec_worklist_wf(
                old(self).removed_patterns_to_propagate@,
                old(wave).grid.size,
                global_stats.spec_num_patterns(),
            ),
            old(entropy_changes)@.len() == old(wave).grid.cells@.len(),
            spec_counter_ok(
                *old(num_cells_counter) as int,
                old(wave).grid.cells@,
                old(wave).grid.cells@.len() as int,
                *global_stats,
            ),
        ensures
            final(wave).wf(*global_stats),
            final(wave).grid.size == old(wave).grid.size,
            final(wave).grid.cells@.len() == old(wave).grid.cells@.len(),
            spec_worklist_wf(
                final(self).removed_patterns_to_propagate@,
                old(wave).grid.size,
                global_stats.spec_num_patterns(),
            ),
            final(entropy_changes)@.len() == old(wave).grid.cells@.len(),
            spec_changes_wf(final(entropy_changes)@),
            spec_counter_ok(
                *final(num_cells_counter) as int,
                final(wave).grid.cells@,
                final(wave).grid.cells@.len() as int,
                *global_stats,
            ),
            *final(num_cells_counter) <= *old(num_cells_counter),
            r is Ok ==> final(self).removed_patterns_to_propagate@.len() == 0,
            r is Err ==> exists|ci: int|
                0 <= ci < final(wave).grid.cells@.len() && (#[trigger] final(wave).grid.cells@[ci]).num_compatible_patterns == 0,
            r is Ok ==> forall|ci: int|
                0 <= ci < final(wave).grid.cells@.len() && (#[trigger] final(wave).grid.cells@[ci]).num_compatible_patterns == 0 ==> old(wave).grid.cells@[ci].num_compatible_patterns == 0,
            r is Ok && old(self).removed_patterns_to_propagate@.len() > 0
                ==> spec_removal_applied::<W>(
                old(self).removed_patterns_to_propagate@.last(),
                old(wave).grid.cells@,
                final(wave).grid.cells@,
                *global_stats,
                old(wave).grid.size,
            ),
            spec_supports_le(final(wave).grid.cells@, old(wave).grid.cells@, global_stats.spec_num_patterns()),
            final(wave).spec_total(*global_stats) <= old(wave).spec_total(*global_stats),
            forall|ci: int, p: int|
                0 <= ci < old(wave).grid.cells@.len() && 0 <= p
                    < global_stats.spec_num_patterns() && (#[trigger] final(wave).grid.cells@[ci].spec_admits(p)) ==> old(wave).grid.cells@[ci].spec_admits(p),
            forall|ci: int|
                0 <= ci < old(wave).grid.cells@.len() ==> (#[trigger] final(wave).grid.cells@[ci]).noise == old(wave).grid.cells@[ci].noise,
    {
        let ghost n = global_stats.spec_num_patterns();
        let ghost len = old(wave).grid.cells@.len() as int;
        let ghost cells0 = old(wave).grid.cells@;
        let ghost counter0 = *old(num_cells_counter);
        let ghost wl0 = old(self).removed_patterns_to_propagate@;
        let ghost mut first_done = false;
        let size = wave.size();
        let mut idx: usize = 0;
        let changes_len = entropy_changes.len();
        while idx < changes_len
            invariant
                changes_len == entropy_changes@.len(),
                idx <= changes_len,
                forall|i: int| 0 <= i < idx ==> (#[trigger] entropy_changes@[i]) is None,
            decreases changes_len - idx,
        {
            entropy_changes.set(idx, None);
            idx = idx + 1;
        }
        proof {
            lemma_total_admitted_nonneg(wave.grid.cells@, n, len);
        }
        while self.removed_patterns_to_propagate.len() > 0
            invariant
                global_stats.wf(),
                n == global_stats.spec_num_patterns(),
                wave.wf(*global_stats),
                wave.grid.size == old(wave).grid.size,
                size == wave.grid.size,
                wave.grid.cells@.len() == len,
                cells0 == old(wave).grid.cells@,
                len == cells0.len(),
                counter0 == *old(num_cells_counter),
                spec_worklist_wf(self.removed_patterns_to_propagate@, size, n),
                entropy_changes@.len() == len,
                spec_changes_wf(entropy_changes@),
                spec_counter_ok(*num_cells_counter as int, wave.grid.cells@, len, *global_stats),
                *num_cells_counter <= counter0,
                wave.spec_total(*global_stats) <= old(wave).spec_total(*global_stats),
                wave.spec_total(*global_stats) >= 0,
                forall|ci: int, p: int|
                    0 <= ci < len && 0 <= p < n && (#[trigger] wave.grid.cells@[ci].spec_admits(p))
                        ==> cells0[ci].spec_admits(p),
                forall|ci: int|
                    0 <= ci < len ==> (#[trigger] wave.grid.cells@[ci]).noise == cells0[ci].noise,
                forall|ci: int|
                    0 <= ci < len && (#[trigger] wave.grid.cells@[ci]).num_compatible_patterns
                        == 0 ==> cells0[ci].num_compatible_patterns == 0,
                wl0 == old(self).removed_patterns_to_propagate@,
                spec_worklist_wf(wl0, size, n),
                spec_supports_le(wave.grid.cells@, cells0, n),
                !first_done ==> wave.grid.cells@ == cells0
                    && self.removed_patterns_to_propagate@ == wl0,
                first_done && wl0.len() > 0 ==> spec_removal_applied::<W>(
                    wl0.last(),
                    cells0,
                    wave.grid.cells@,
                    *global_stats,
                    size,
                ),
            decreases wave.spec_total(*global_stats) + self.removed_patterns_to_propagate@.len(),
        {
            let removed = match self.removed_patterns_to_propagate.pop() {
                Some(r) => r,
                None => {
                    return Ok(());
                },
            };
            let ghost budget = wave.spec_total(*global_stats)
                + self.removed_patterns_to_propagate@.len();
            let ghost cells_iter = wave.grid.cells@;
            let ghost entry_is_first = !first_done;
            proof {
                assert(spec_supports_le(cells_iter, cells0, n));
            }
            let mut d: usize = 0;
            while d < 4
                invariant
                    global_stats.wf(),
                    n == global_stats.spec_num_patterns(),
                    wave.wf(*global_stats),
                    wave.grid.size == old(wave).grid.size,
                    size == wave.grid.size,
                    wave.grid.cells@.len() == len,
                    cells0 == old(wave).grid.cells@,
                    len == cells0.len(),
                    counter0 == *old(num_cells_counter),
                    d <= 4,
                    removed.coord.spec_is_valid(size),
                    removed.pattern_id < n,
                    spec_worklist_wf(self.removed_patterns_to_propagate@, size, n),
                    entropy_changes@.len() == len,
                    spec_changes_wf(entropy_changes@),
                    spec_counter_ok(*num_cells_counter as int, wave.grid.cells@, len, *global_stats),
                    *num_cells_counter <= counter0,
                    wave.spec_total(*global_stats) + self.removed_patterns_to_propagate@.len()
                        <= budget,
                    wave.spec_total(*global_stats) <= old(wave).spec_total(*global_stats),
                    wave.spec_total(*global_stats) >= 0,
                    forall|ci: int, p: int|
                        0 <= ci < len && 0 <= p < n && (#[trigger] wave.grid.cells@[
                            ci
                        ].spec_admits(p)) ==> cells0[ci].spec_admits(p),
                    forall|ci: int|
                        0 <= ci < len ==> (#[trigger] wave.grid.cells@[ci]).noise
                            == cells0[ci].noise,
                    forall|ci: int|
                        0 <= ci < len && (#[trigger] wave.grid.cells@[ci]).num_compatible_patterns
                            == 0 ==> cells0[ci].num_compatible_patterns == 0,
                    spec_supports_le(wave.grid.cells@, cells_iter, n),
                    spec_supports_le(cells_iter, cells0, n),
                    cells_iter.len() == len,
                    forall|di: int, k2: int|
                        #![trigger global_stats.spec_compat(removed.pattern_id as int, CardinalDirection::spec_from_index(di))[k2]]
                        0 <= di < d && 0 <= k2 < global_stats.spec_compat(
                            removed.pattern_id as int,
                            CardinalDirection::spec_from_index(di),
                        ).len() ==> spec_slot_applied::<W>(
                            removed,
                            cells_iter,
                            wave.grid.cells@,
                            *global_stats,
                            size,
                            di,
                            k2,
                        ),
                decreases 4 - d,
            {
                let direction = CardinalDirection::from_index(d);
                let stepped = direction.step(removed.coord);
                match W::normalize_coord(stepped, size) {
                    None => {},
                    Some(coord_to_update) => {
                        let num_compat = global_stats.compatible_patterns_in_direction(
                            removed.pattern_id,
                            direction,
                        ).len();
                        let mut k: usize = 0;
                        while k < num_compat
                            invariant
                                global_stats.wf(),
                                n == global_stats.spec_num_patterns(),
                                wave.wf(*global_stats),
                                wave.grid.size == old(wave).grid.size,
                                size == wave.grid.size,
                                wave.grid.cells@.len() == len,
                                cells0 == old(wave).grid.cells@,
                                len == cells0.len(),
                                counter0 == *old(num_cells_counter),
                                k <= num_compat,
                                removed.pattern_id < n,
                                num_compat == global_stats.spec_compat(
                                    removed.pattern_id as int,
                                    direction,
                                ).len(),
                                coord_to_update.spec_is_valid(size),
                                spec_worklist_wf(self.removed_patterns_to_propagate@, size, n),
                                entropy_changes@.len() == len,
                                spec_changes_wf(entropy_changes@),
                                spec_counter_ok(*num_cells_counter as int, wave.grid.cells@, len, *global_stats),
                                *num_cells_counter <= counter0,
                                wave.spec_total(*global_stats)
                                    + self.removed_patterns_to_propagate@.len() <= budget,
                                wave.spec_total(*global_stats) <= old(wave).spec_total(
                                    *global_stats,
                                ),
                                wave.spec_total(*global_stats) >= 0,
                                forall|ci: int, p: int|
                                    0 <= ci < len && 0 <= p < n && (#[trigger] wave.grid.cells@[
                                        ci
                                    ].spec_admits(p)) ==> cells0[ci].spec_admits(p),
                                forall|ci: int|
                                    0 <= ci < len ==> (#[trigger] wave.grid.cells@[ci]).noise
                                        == cells0[ci].noise,
                                forall|ci: int|
                                    0 <= ci < len && (#[trigger] wave.grid.cells@[ci]).num_compatible_patterns
                                        == 0 ==> cells0[ci].num_compatible_patterns == 0,
                                spec_supports_le(wave.grid.cells@, cells_iter, n),
                                spec_supports_le(cells_iter, cells0, n),
                                cells_iter.len() == len,
                                direction == CardinalDirection::spec_from_index(d as int),
                                d < 4,
                                W::spec_normalize(
                                    crate::laws::spec_step(removed.coord, direction),
                                    size,
                                ) == Some(coord_to_update),
                                forall|di: int, k2: int|
                                    #![trigger global_stats.spec_compat(removed.pattern_id as int, CardinalDirection::spec_from_index(di))[k2]]
                                    ((0 <= di < d && 0 <= k2 < global_stats.spec_compat(
                                        removed.pattern_id as int,
                                        CardinalDirection::spec_from_index(di),
                                    ).len()) || (di == d && 0 <= k2 < k))
                                        ==> spec_slot_applied::<W>(
                                        removed,
                                        cells_iter,
                                        wave.grid.cells@,
                                        *global_stats,
                                        size,
                                        di,
                                        k2,
                                    ),
                            decreases num_compat - k,
                        {
                            let compat_list = global_stats.compatible_patterns_in_direction(
                                removed.pattern_id,
                                direction,
                            );
                            let q: PatternId = compat_list[k];
                            proof {
                                assert(global_stats.spec_compat(
                                    removed.pattern_id as int,
                                    direction,
                                )[k as int] < n);
                            }
                            let ghost cells_before = wave.grid.cells@;
                            let ghost counter_before = *num_cells_counter;
                            let ghost cidx = wave.grid.spec_index_of(coord_to_update);
                            proof {
                                wave.grid.lemma_index_of_bounds(coord_to_update);
                            }
                            let cell = wave.grid.get_checked_mut(coord_to_update);
                            let outcome = cell.decrement_num_ways_to_become_pattern(
                                q,
                                direction,
                                global_stats,
                            );
                            proof {
                                let cells_after = wave.grid.cells@;
                                lemma_total_admitted_update(cells_before, cells_after, n, cidx, len);
                                lemma_count_live_update(cells_before, cells_after, cidx, len);
                                lemma_count_live_nonneg(cells_after, len);
                                lemma_total_admitted_nonneg(cells_after, n, len);
                                lemma_aggregates_nonneg(
                                    cells_after[cidx].spec_num_ways(),
                                    global_stats.pattern_weights.table@,
                                    n,
                                );
                                if outcome != DecrementOutcome::NoPatternRemoved {
                                    crate::wave::lemma_aggregates_update(
                                        cells_before[cidx].spec_num_ways(),
                                        cells_after[cidx].spec_num_ways(),
                                        global_stats.pattern_weights.table@,
                                        q as int,
                                        n,
                                    );
                                }
                                assert forall|ci: int, p: int|
                                    0 <= ci < len && 0 <= p < n && (#[trigger] cells_after[
                                        ci
                                    ].spec_admits(p)) implies cells0[ci].spec_admits(p) by {
                                    assert(cells_before[ci].spec_admits(p));
                                }
                                // this step lowered one slot (or left it at zero); every
                                // other slot is untouched
                                assert forall|ci: int, p: int, dd: CardinalDirection|
                                    #![trigger cells_after[ci].spec_num_ways()[p].direction_table.spec_get(dd)]
                                    0 <= ci < len && 0 <= p < n implies cells_after[
                                    ci
                                ].spec_num_ways()[p].direction_table.spec_get(dd) <= cells_before[
                                    ci
                                ].spec_num_ways()[p].direction_table.spec_get(dd) by {
                                    if ci == cidx {
                                        if p == q as int {
                                            assert(cells_before[ci].spec_num_ways()[p].wf());
                                        } else {
                                            assert(cells_after[ci].spec_num_ways()[p]
                                                == cells_before[ci].spec_num_ways()[p]);
                                        }
                                    } else {
                                        assert(cells_after[ci] == cells_before[ci]);
                                    }
                                }
                                assert(spec_supports_le(cells_after, cells_iter, n));
                                // the slot this step fed is now applied; earlier slots stay so
                                let target_di = d as int;
                                let target_dd = CardinalDirection::spec_from_index(target_di);
                                assert(W::spec_normalize(
                                    crate::laws::spec_step(removed.coord, target_dd),
                                    size,
                                ) == Some(coord_to_update));
                                assert(size.spec_index_of(coord_to_update) == cidx);
                                assert(spec_slot_applied::<W>(
                                    removed,
                                    cells_iter,
                                    cells_after,
                                    *global_stats,
                                    size,
                                    target_di,
                                    k as int,
                                )) by {
                                    let s_pre = cells_before[cidx].spec_num_ways()[
                                        q as int
                                    ].direction_table.spec_get(target_dd);
                                    let s_post = cells_after[cidx].spec_num_ways()[
                                        q as int
                                    ].direction_table.spec_get(target_dd);
                                    if outcome == DecrementOutcome::NoPatternRemoved {
                                        if s_pre == 0 {
                                            assert(s_post == 0);
                                        } else {
                                            assert(s_post == s_pre - 1);
                                        }
                                    } else {
                                        assert(s_post == 0);
                                    }
                                }
                                assert forall|di: int, k2: int|
                                    ((0 <= di < d && 0 <= k2 < global_stats.spec_compat(
                                        removed.pattern_id as int,
                                        CardinalDirection::spec_from_index(di),
                                    ).len()) || (di == d && 0 <= k2 < k + 1)) implies
                                    spec_slot_applied::<W>(
                                        removed,
                                        cells_iter,
                                        cells_after,
                                        *global_stats,
                                        size,
                                        di,
                                        k2,
                                    ) by {
                                    if !(di == d as int && k2 == k as int) {
                                        assert(spec_slot_applied::<W>(
                                            removed,
                                            cells_iter,
                                            cells_before,
                                            *global_stats,
                                            size,
                                            di,
                                            k2,
                                        ));
                                        let ddx = CardinalDirection::spec_from_index(di);
                                        match W::spec_normalize(
                                            crate::laws::spec_step(removed.coord, ddx),
                                            size,
                                        ) {
                                            Some(c2) => {
                                                if c2.spec_is_valid(size) {
                                                    let q2 = global_stats.spec_compat(
                                                        removed.pattern_id as int,
                                                        ddx,
                                                    )[k2] as int;
                                                    let ci2 = size.spec_index_of(c2);
                                                    size.lemma_index_of_bounds(c2);
                                                    assert(q2 < n);
                                                    assert(cells_after[ci2].spec_num_ways()[
                                                        q2
                                                    ].direction_table.spec_get(ddx)
                                                        <= cells_before[ci2].spec_num_ways()[
                                                        q2
                                                    ].direction_table.spec_get(ddx));
                                                }
                                            },
                                            None => {},
                                        }
                                    }
                                }
                            }
                            match outcome {
                                DecrementOutcome::NoPatternRemoved => {},
                                DecrementOutcome::RemovedNonWeightedPattern => {
                                    self.removed_patterns_to_propagate.push(RemovedPattern {
                                        coord: coord_to_update,
                                        pattern_id: q,
                                    });
                                },
                                DecrementOutcome::RemovedWeightedPatternMultipleCandidatesRemain => {
                                    let cidx_exec = wave.grid.index_of_coord(coord_to_update);
                                    let cell_now = wave.grid.get_checked(coord_to_update);
                                    proof {
                                        lemma_aggregates_nonneg(
                                            cell_now.spec_num_ways(),
                                            global_stats.pattern_weights.table@,
                                            n,
                                        );
                                    }
                                    let entropy = cell_now.entropy_with_noise(global_stats);
                                    let existing = entropy_changes[cidx_exec];
                                    match existing {
                                        Some(e) => {
                                            if entropy.lt(&e) {
                                                entropy_changes.set(cidx_exec, Some(entropy));
                                            }
                                        },
                                        None => {
                                            entropy_changes.set(cidx_exec, Some(entropy));
                                        },
                                    }
                                    self.removed_patterns_to_propagate.push(RemovedPattern {
                                        coord: coord_to_update,
                                        pattern_id: q,
                                    });
                                },
                                DecrementOutcome::Finalized => {
                                    proof {
                                        crate::wave::lemma_admitted_below_full(
                                            cells_before[cidx].spec_num_ways(),
                                            global_stats.pattern_weights.table@,
                                            n,
                                        );
                                        crate::pattern::lemma_full_sums_monotonic(
                                            global_stats.pattern_weights.table@,
                                            0,
                                            n,
                                        );
                                        assert(spec_count_weighted(
                                            global_stats.pattern_weights.table@,
                                            n,
                                        ) >= 2);
                                        assert(spec_live(cells_before[cidx]));
                                        lemma_live_contributes(cells_before, len, cidx);
                                    }
                                    *num_cells_counter = *num_cells_counter - 1;
                                    let cidx_exec = wave.grid.index_of_coord(coord_to_update);
                                    entropy_changes.set(cidx_exec, None);
                                    self.removed_patterns_to_propagate.push(RemovedPattern {
                                        coord: coord_to_update,
                                        pattern_id: q,
                                    });
                                },
                                DecrementOutcome::RemovedFinalWeightedCompatiblePattern => {
                                    let cidx_exec = wave.grid.index_of_coord(coord_to_update);
                                    entropy_changes.set(cidx_exec, None);
                                    self.removed_patterns_to_propagate.push(RemovedPattern {
                                        coord: coord_to_update,
                                        pattern_id: q,
                                    });
                                },
                                DecrementOutcome::RemovedFinalCompatiblePattern => {
                                    proof {
                                        assert forall|ci: int, p: int, dd: CardinalDirection|
                                            0 <= ci < len && 0 <= p < n implies (
                                        #[trigger] wave.grid.cells@[ci].spec_num_ways()[
                                            p
                                        ].direction_table.spec_get(dd)) <= cells0[
                                            ci
                                        ].spec_num_ways()[p].direction_table.spec_get(dd) by {
                                            assert(wave.grid.cells@[ci].spec_num_ways()[
                                                p
                                            ].direction_table.spec_get(dd) <= cells_iter[
                                                ci
                                            ].spec_num_ways()[p].direction_table.spec_get(dd));
                                            assert(cells_iter[ci].spec_num_ways()[
                                                p
                                            ].direction_table.spec_get(dd) <= cells0[
                                                ci
                                            ].spec_num_ways()[p].direction_table.spec_get(dd));
                                        }
                                    }
                                    return Err(PropagateError::Contradiction);
                                },
                            }
                            k = k + 1;
                        }
                    },
                }
                d = d + 1;
            }
            proof {
                assert(spec_supports_le(wave.grid.cells@, cells0, n)) by {
                    assert forall|ci: int, p: int, dd: CardinalDirection|
                        0 <= ci < len && 0 <= p < n implies (#[trigger] wave.grid.cells@[
                        ci
                    ].spec_num_ways()[p].direction_table.spec_get(dd)) <= cells0[
                        ci
                    ].spec_num_ways()[p].direction_table.spec_get(dd) by {
                        assert(wave.grid.cells@[ci].spec_num_ways()[p].direction_table.spec_get(dd)
                            <= cells_iter[ci].spec_num_ways()[p].direction_table.spec_get(dd));
                        assert(cells_iter[ci].spec_num_ways()[p].direction_table.spec_get(dd)
                            <= cells0[ci].spec_num_ways()[p].direction_table.spec_get(dd));
                    }
                }
                if entry_is_first {
                    assert(removed == wl0.last());
                    assert(cells_iter == cells0);
                    first_done = true;
                } else {
                    if wl0.len() > 0 {
                        assert forall|di: int, k2: int|
                            0 <= di < 4 && 0 <= k2 < global_stats.spec_compat(
                                wl0.last().pattern_id as int,
                                CardinalDirection::spec_from_index(di),
                            ).len() implies spec_slot_applied::<W>(
                                wl0.last(),
                                cells0,
                                wave.grid.cells@,
                                *global_stats,
                                size,
                                di,
                                k2,
                            ) by {
                            assert(spec_slot_applied::<W>(
                                wl0.last(),
                                cells0,
                                cells_iter,
                                *global_stats,
                                size,
                                di,
                                k2,
                            ));
                            match W::spec_normalize(
                                crate::laws::spec_step(
                                    wl0.last().coord,
                                    CardinalDirection::spec_from_index(di),
                                ),
                                size,
                            ) {
                                Some(c2) => {
                                    if c2.spec_is_valid(size) {
                                        let dd = CardinalDirection::spec_from_index(di);
                                        let q2 = global_stats.spec_compat(
                                            wl0.last().pattern_id as int,
                                            dd,
                                        )[k2] as int;
                                        let ci = size.spec_index_of(c2);
                                        size.lemma_index_of_bounds(c2);
                                        assert(wl0.last().pattern_id < n);
                                        assert(crate::pattern::spec_id_list_wf(
                                            global_stats.spec_compat(
                                                wl0.last().pattern_id as int,
                                                dd,
                                            ),
                                            n,
                                        ));
                                        assert(q2 < n);
                                        assert(wave.grid.cells@[ci].spec_num_ways()[
                                            q2
                                        ].direction_table.spec_get(dd) <= cells_iter[
                                            ci
                                        ].spec_num_ways()[q2].direction_table.spec_get(dd));
                                    }
                                },
                                None => {},
                            }
                        }
                    }
                }
            }
        }
        Ok(())
    }
}

} // verus!
