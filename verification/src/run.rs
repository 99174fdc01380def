//! The run controller: owns a wave and its context, alternates observation
//! and propagation until the solve completes or contradicts, and lets
//! callers pre-seed constraints through forbid hooks.

use vstd::prelude::*;
use crate::context::{Context, Observe};
use crate::coord::{Coord, Size};
use crate::pattern::{GlobalStats, PatternId};
use crate::propagator::{PropagateError, RemovedPattern};
use crate::wave::{lemma_count_live_update, lemma_total_admitted_update, Wave, WaveCell};
use crate::wrap::Wrap;

verus! {

/// Forbidding a pattern in a cell where it is the only option would make the
/// cell empty at once; such a call is rejected without touching the state.
/// `Contradiction` reports that the propagation after an accepted forbid
/// failed (the run has been reset).
#[derive(Clone, Copy, Debug, PartialEq, Eq, Structural)]
pub enum ForbidPatternError {
    WouldCauseContradiction,
    Contradiction,
}

/// What a reset leaves behind: a fresh wave whose cells admit exactly the
/// initially admissible patterns, with the full initial support counts, and
/// an empty worklist.
pub open spec fn spec_freshly_initialized(fi_wave: Wave, global_stats: GlobalStats) -> bool {
    &&& forall|ci: int, p: int|
        0 <= ci < fi_wave.grid.cells@.len() && 0 <= p < global_stats.spec_num_patterns() ==> ((
        #[trigger] fi_wave.grid.cells@[ci].spec_admits(p))
            <==> crate::wave::spec_initially_admissible(global_stats, p))
    &&& forall|ci: int, p: int, d: crate::direction::CardinalDirection|
        #![trigger fi_wave.grid.cells@[ci].spec_num_ways()[p].direction_table.spec_get(d)]
        0 <= ci < fi_wave.grid.cells@.len() && 0 <= p < global_stats.spec_num_patterns()
            ==> fi_wave.grid.cells@[ci].spec_num_ways()[p].direction_table.spec_get(d) as int == (
        if crate::wave::spec_initially_admissible(global_stats, p) {
            global_stats.spec_compat(p, d.spec_opposite()).len() as int
        } else {
            0
        })
}

/// The working state of one solve: the wave, its context, and the wrap
/// policy. Forbid hooks receive it as their interface to the run.
pub struct ForbidInterface<W: Wrap> {
    pub wave: Wave,
    pub context: Context,
    pub output_wrap: W,
}

impl<W: Wrap> ForbidInterface<W> {
    pub open spec fn wf(self, global_stats: GlobalStats) -> bool {
        &&& self.wave.wf(global_stats)
        &&& self.context.wf(self.wave, global_stats)
    }

    pub fn new(
        output_size: Size,
        global_stats: &GlobalStats,
        output_wrap: W,
        rng: &mut rand_xorshift::XorShiftRng,
    ) -> (r: ForbidInterface<W>)
        requires
            global_stats.wf(),
            output_size.wf(),
            output_size.x >= 1,
            output_size.y >= 1,
            output_size.spec_count() <= u32::MAX,
        ensures
            r.wf(*global_stats),
            r.wave.grid.size == output_size,
    {
        let wave = Wave::new(output_size, global_stats, rng);
        let mut context = Context::new();
        context.init(&wave, global_stats);
        ForbidInterface { wave, context, output_wrap }
    }

    /// Starts the solve over: fresh noise, every pattern possible again.
    pub fn reset(&mut self, global_stats: &GlobalStats, rng: &mut rand_xorshift::XorShiftRng)
        requires
            global_stats.wf(),
            old(self).wave.wf(*global_stats),
        ensures
            final(self).wf(*global_stats),
            final(self).wave.grid.size == old(self).wave.grid.size,
            spec_freshly_initialized(final(self).wave, *global_stats),
            final(self).context.propagator.removed_patterns_to_propagate@.len() == 0,
    {
        let size = self.wave.size();
        self.wave = Wave::new(size, global_stats, rng);
        self.context.init(&self.wave, global_stats);
    }

    pub fn wave_size(&self) -> (r: Size)
        ensures
            r == self.wave.grid.size,
    {
        self.wave.size()
    }

    pub(crate) fn propagate(&mut self, global_stats: &GlobalStats) -> (r: Result<
        (),
        PropagateError,
    >)
        requires
            global_stats.wf(),
            old(self).wf(*global_stats),
        ensures
            final(self).wf(*global_stats),
            final(self).wave.grid.size == old(self).wave.grid.size,
            final(self).wave.grid.cells@.len() == old(self).wave.grid.cells@.len(),
            final(self).wave.spec_total(*global_stats) <= old(self).wave.spec_total(*global_stats),
            r is Ok ==> final(self).context.propagator.removed_patterns_to_propagate@.len() == 0,
            forall|ci: int, p: int|
                0 <= ci < old(self).wave.grid.cells@.len() && 0 <= p
                    < global_stats.spec_num_patterns() && (#[trigger] final(self).wave.grid.cells@[ci].spec_admits(p)) ==> old(self).wave.grid.cells@[ci].spec_admits(p),
    {
        let ForbidInterface { wave, context, output_wrap } = self;
        context.propagate::<W>(wave, global_stats)
    }

    pub(crate) fn observe(
        &mut self,
        global_stats: &GlobalStats,
        rng: &mut rand_xorshift::XorShiftRng,
    ) -> (r: Observe)
        requires
            global_stats.wf(),
            old(self).wf(*global_stats),
        ensures
            final(self).wf(*global_stats),
            final(self).wave.grid.size == old(self).wave.grid.size,
            r == Observe::Complete ==> final(self).wave == old(self).wave && (final(self).context.num_cells_with_more_than_one_weighted_compatible_pattern == 0 || (final(self).context.observer.entropy_priority_queue@.len() == 0 && forall|j: int|
                0 <= j < old(self).context.observer.entropy_priority_queue@.len()
                    ==> crate::observer::spec_stale(
                    #[trigger] old(self).context.observer.entropy_priority_queue@[j],
                    old(self).wave,
                ))),
            r == Observe::Incomplete ==> final(self).wave.spec_total(*global_stats) < old(self).wave.spec_total(*global_stats),
    {
        let ForbidInterface { wave, context, output_wrap } = self;
        context.observe(wave, global_stats, rng)
    }

    /// One observe step followed, if the solve is not complete, by a
    /// propagation. A contradiction resets the run before it is surfaced.
    pub fn step(
        &mut self,
        global_stats: &GlobalStats,
        rng: &mut rand_xorshift::XorShiftRng,
    ) -> (r: Result<Observe, PropagateError>)
        requires
            global_stats.wf(),
            old(self).wf(*global_stats),
        ensures
            final(self).wf(*global_stats),
            final(self).wave.grid.size == old(self).wave.grid.size,
            r == Ok::<Observe, PropagateError>(Observe::Incomplete) ==> final(self).wave.spec_total(*global_stats) < old(self).wave.spec_total(*global_stats)
                && final(self).context.propagator.removed_patterns_to_propagate@.len() == 0,
            r == Ok::<Observe, PropagateError>(Observe::Complete) ==> final(self).wave == old(self).wave && (final(self).context.num_cells_with_more_than_one_weighted_compatible_pattern == 0 || final(self).context.observer.entropy_priority_queue@.len() == 0),
            r is Err ==> spec_freshly_initialized(final(self).wave, *global_stats) && final(self).context.propagator.removed_patterns_to_propagate@.len() == 0,
    {
        match self.observe(global_stats, rng) {
            Observe::Complete => Ok(Observe::Complete),
            Observe::Incomplete => {
                match self.propagate(global_stats) {
                    Ok(()) => Ok(Observe::Incomplete),
                    Err(e) => {
                        self.reset(global_stats, rng);
                        Err(e)
                    },
                }
            },
        }
    }

    /// Steps until the solve completes or contradicts. On completion, no
    /// cell is counted as needing observation any more (or the entropy queue
    /// has run dry). A contradiction resets the run before it is surfaced.
    pub fn collapse(
        &mut self,
        global_stats: &GlobalStats,
        rng: &mut rand_xorshift::XorShiftRng,
    ) -> (r: Result<(), PropagateError>)
        requires
            global_stats.wf(),
            old(self).wf(*global_stats),
        ensures
            final(self).wf(*global_stats),
            final(self).wave.grid.size == old(self).wave.grid.size,
            r is Ok ==> (final(self).context.num_cells_with_more_than_one_weighted_compatible_pattern == 0 || final(self).context.observer.entropy_priority_queue@.len() == 0),
            r is Err ==> spec_freshly_initialized(final(self).wave, *global_stats) && final(self).context.propagator.removed_patterns_to_propagate@.len() == 0,
    {
        proof {
            crate::wave::lemma_total_admitted_nonneg(
                self.wave.grid.cells@,
                global_stats.spec_num_patterns(),
                self.wave.grid.cells@.len() as int,
            );
        }
        loop
            invariant
                global_stats.wf(),
                self.wf(*global_stats),
                self.wave.grid.size == old(self).wave.grid.size,
                self.wave.spec_total(*global_stats) >= 0,
            ensures
                self.wf(*global_stats),
                self.wave.grid.size == old(self).wave.grid.size,
            decreases self.wave.spec_total(*global_stats),
        {
            match self.step(global_stats, rng) {
                Ok(Observe::Complete) => {
                    return Ok(());
                },
                Ok(Observe::Incomplete) => {
                    proof {
                        crate::wave::lemma_total_admitted_nonneg(
                            self.wave.grid.cells@,
                            global_stats.spec_num_patterns(),
                            self.wave.grid.cells@.len() as int,
                        );
                    }
                },
                Err(e) => {
                    return Err(e);
                },
            }
        }
    }

    /// Removes every admitted pattern but `pattern_id` from the cell at
    /// `coord` and propagates the removals. A contradiction resets the run
    /// before it is surfaced.
    pub fn forbid_all_patterns_except(
        &mut self,
        coord: Coord,
        pattern_id: PatternId,
        global_stats: &GlobalStats,
        rng: &mut rand_xorshift::XorShiftRng,
    ) -> (r: Result<(), PropagateError>)
        requires
            global_stats.wf(),
            old(self).wf(*global_stats),
            coord.spec_is_valid(old(self).wave.grid.size),
            pattern_id < global_stats.spec_num_patterns(),
        ensures
            final(self).wf(*global_stats),
            final(self).wave.grid.size == old(self).wave.grid.size,
            r is Ok ==> forall|p: int|
                0 <= p < global_stats.spec_num_patterns() && (#[trigger] final(self).wave.grid.spec_get(coord).spec_admits(p)) ==> p == pattern_id,
            r is Ok ==> final(self).context.propagator.removed_patterns_to_propagate@.len() == 0,
            r is Err ==> spec_freshly_initialized(final(self).wave, *global_stats),
    {
        let ghost cells_entry = self.wave.grid.cells@;
        let ghost len = self.wave.grid.cells@.len() as int;
        let ghost n = global_stats.spec_num_patterns();
        let ghost cidx = self.wave.grid.spec_index_of(coord);
        proof {
            self.wave.grid.lemma_index_of_bounds(coord);
        }
        let ForbidInterface { wave, context, output_wrap } = self;
        context.remove_all_patterns_except_one(wave, coord, pattern_id, global_stats);
        proof {
            lemma_count_live_update(cells_entry, self.wave.grid.cells@, cidx, len);
        }
        let ghost cells_mid = self.wave.grid.cells@;
        let result = self.propagate(global_stats);
        proof {
            if result is Ok {
                assert forall|p: int|
                    0 <= p < n && (#[trigger] self.wave.grid.spec_get(coord).spec_admits(p))
                        implies p == pattern_id by {
                    assert(self.wave.grid.cells@[cidx].spec_admits(p));
                    assert(cells_mid[cidx].spec_admits(p));
                }
            }
        }
        match result {
            Ok(()) => Ok(()),
            Err(e) => {
                self.reset(global_stats, rng);
                Err(e)
            },
        }
    }

    /// Removes `pattern_id` from the cell at `coord`, unless it is the
    /// cell's only admitted pattern: that request is rejected unchanged, as
    /// it would contradict at once. An accepted removal is propagated; a
    /// contradiction found then resets the run before it is surfaced.
    pub fn forbid_pattern(
        &mut self,
        coord: Coord,
        pattern_id: PatternId,
        global_stats: &GlobalStats,
        rng: &mut rand_xorshift::XorShiftRng,
    ) -> (r: Result<(), ForbidPatternError>)
        requires
            global_stats.wf(),
            old(self).wf(*global_stats),
            coord.spec_is_valid(old(self).wave.grid.size),
            pattern_id < global_stats.spec_num_patterns(),
        ensures
            final(self).wf(*global_stats),
            final(self).wave.grid.size == old(self).wave.grid.size,
            r == Err::<(), ForbidPatternError>(ForbidPatternError::WouldCauseContradiction) <==> (
            old(self).wave.grid.spec_get(coord).spec_admits(pattern_id as int) && old(self).wave.grid.spec_get(coord).num_compatible_patterns == 1),
            r == Err::<(), ForbidPatternError>(ForbidPatternError::WouldCauseContradiction)
                ==> *final(self) == *old(self),
            r is Ok ==> !final(self).wave.grid.spec_get(coord).spec_admits(pattern_id as int),
            !old(self).wave.grid.spec_get(coord).spec_admits(pattern_id as int) ==> r == Ok::<
                (),
                ForbidPatternError,
            >(()) && *final(self) == *old(self),
            r is Ok && old(self).wave.grid.spec_get(coord).spec_admits(pattern_id as int)
                ==> final(self).context.propagator.removed_patterns_to_propagate@.len() == 0,
            r is Err && !(r == Err::<(), ForbidPatternError>(
                ForbidPatternError::WouldCauseContradiction,
            )) ==> spec_freshly_initialized(final(self).wave, *global_stats),
    {
        let ghost cells_entry = self.wave.grid.cells@;
        let ghost len = self.wave.grid.cells@.len() as int;
        let ghost n = global_stats.spec_num_patterns();
        let ghost cidx = self.wave.grid.spec_index_of(coord);
        proof {
            self.wave.grid.lemma_index_of_bounds(coord);
        }
        let admitted = {
            let cell = self.wave.grid.get_checked(coord);
            cell.is_pattern_compatible(pattern_id, global_stats)
        };
        if !admitted {
            return Ok(());
        }
        let num_compatible = {
            let cell = self.wave.grid.get_checked(coord);
            cell.num_compatible_patterns
        };
        if num_compatible == 1 {
            return Err(ForbidPatternError::WouldCauseContradiction);
        }
        {
            let cell = self.wave.grid.get_checked_mut(coord);
            cell.remove_pattern(pattern_id, global_stats);
        }
        proof {
            lemma_count_live_update(cells_entry, self.wave.grid.cells@, cidx, len);
            lemma_total_admitted_update(cells_entry, self.wave.grid.cells@, n, cidx, len);
        }
        self.context.propagator.removed_patterns_to_propagate.push(RemovedPattern {
            coord,
            pattern_id,
        });
        let ghost cells_mid = self.wave.grid.cells@;
        let result = self.propagate(global_stats);
        proof {
            if result is Ok {
                if self.wave.grid.spec_get(coord).spec_admits(pattern_id as int) {
                    assert(cells_mid[cidx].spec_admits(pattern_id as int));
                }
            }
        }
        match result {
            Ok(()) => Ok(()),
            Err(PropagateError::Contradiction) => {
                self.reset(global_stats, rng);
                Err(ForbidPatternError::Contradiction)
            },
        }
    }
}

/// A caller-supplied constraint hook, run when a solve starts and after
/// every reset. It may forbid patterns in chosen cells through the
/// interface; each accepted forbid is propagated at once.
pub trait ForbidPattern {
    fn forbid<W: Wrap>(
        &mut self,
        fi: &mut ForbidInterface<W>,
        global_stats: &GlobalStats,
        rng: &mut rand_xorshift::XorShiftRng,
    )
        requires
            global_stats.wf(),
            old(fi).wf(*global_stats),
        ensures
            final(fi).wf(*global_stats),
            final(fi).wave.grid.size == old(fi).wave.grid.size,
    ;
}

/// The default hook: forbids nothing.
#[derive(Clone, Copy, Debug)]
pub struct ForbidNothing;

impl ForbidPattern for ForbidNothing {
    fn forbid<W: Wrap>(
        &mut self,
        fi: &mut ForbidInterface<W>,
        global_stats: &GlobalStats,
        rng: &mut rand_xorshift::XorShiftRng,
    ) {
    }
}

/// A running instance of the solver that owns its wave and context.
pub struct RunOwn<W: Wrap, F: crate::run::ForbidPattern> {
    pub core: ForbidInterface<W>,
    pub forbid: F,
}

impl RunOwn<crate::wrap::WrapXY, ForbidNothing> {
    pub fn new(
        output_size: Size,
        global_stats: &GlobalStats,
        rng: &mut rand_xorshift::XorShiftRng,
    ) -> (r: RunOwn<crate::wrap::WrapXY, ForbidNothing>)
        requires
            global_stats.wf(),
            output_size.wf(),
            output_size.x >= 1,
            output_size.y >= 1,
            output_size.spec_count() <= u32::MAX,
        ensures
            r.core.wf(*global_stats),
            r.core.wave.grid.size == output_size,
    {
        RunOwn::new_wrap_forbid(
            output_size,
            global_stats,
            crate::wrap::WrapXY,
            ForbidNothing,
            rng,
        )
    }
}

impl<W: Wrap> RunOwn<W, ForbidNothing> {
    pub fn new_wrap(
        output_size: Size,
        global_stats: &GlobalStats,
        output_wrap: W,
        rng: &mut rand_xorshift::XorShiftRng,
    ) -> (r: RunOwn<W, ForbidNothing>)
        requires
            global_stats.wf(),
            output_size.wf(),
            output_size.x >= 1,
            output_size.y >= 1,
            output_size.spec_count() <= u32::MAX,
        ensures
            r.core.wf(*global_stats),
            r.core.wave.grid.size == output_size,
    {
        RunOwn::new_wrap_forbid(output_size, global_stats, output_wrap, ForbidNothing, rng)
    }
}

impl<F: crate::run::ForbidPattern> RunOwn<crate::wrap::WrapXY, F> {
    pub fn new_forbid(
        output_size: Size,
        global_stats: &GlobalStats,
        forbid: F,
        rng: &mut rand_xorshift::XorShiftRng,
    ) -> (r: RunOwn<crate::wrap::WrapXY, F>)
        requires
            global_stats.wf(),
            output_size.wf(),
            output_size.x >= 1,
            output_size.y >= 1,
            output_size.spec_count() <= u32::MAX,
        ensures
            r.core.wf(*global_stats),
            r.core.wave.grid.size == output_size,
    {
        RunOwn::new_wrap_forbid(output_size, global_stats, crate::wrap::WrapXY, forbid, rng)
    }
}

impl<W: Wrap, F: crate::run::ForbidPattern> RunOwn<W, F> {
    pub fn new_wrap_forbid(
        output_size: Size,
        global_stats: &GlobalStats,
        output_wrap: W,
        forbid: F,
        rng: &mut rand_xorshift::XorShiftRng,
    ) -> (r: RunOwn<W, F>)
        requires
            global_stats.wf(),
            output_size.wf(),
            output_size.x >= 1,
            output_size.y >= 1,
            output_size.spec_count() <= u32::MAX,
        ensures
            r.core.wf(*global_stats),
            r.core.wave.grid.size == output_size,
    {
        let mut core = ForbidInterface::new(output_size, global_stats, output_wrap, rng);
        let mut forbid = forbid;
        forbid.forbid(&mut core, global_stats, rng);
        RunOwn { core, forbid }
    }

    /// Starts the solve over and reapplies the forbid hook.
    pub fn reset(&mut self, global_stats: &GlobalStats, rng: &mut rand_xorshift::XorShiftRng)
        requires
            global_stats.wf(),
            old(self).core.wave.wf(*global_stats),
        ensures
            final(self).core.wf(*global_stats),
            final(self).core.wave.grid.size == old(self).core.wave.grid.size,
    {
        self.core.reset(global_stats, rng);
        let RunOwn { core, forbid } = self;
        forbid.forbid(core, global_stats, rng);
    }

    /// One observe step followed by propagation; a contradiction resets the
    /// run (reapplying the forbid hook) before it is surfaced.
    pub fn step(
        &mut self,
        global_stats: &GlobalStats,
        rng: &mut rand_xorshift::XorShiftRng,
    ) -> (r: Result<Observe, PropagateError>)
        requires
            global_stats.wf(),
            old(self).core.wf(*global_stats),
        ensures
            final(self).core.wf(*global_stats),
            final(self).core.wave.grid.size == old(self).core.wave.grid.size,
    {
        let result = self.core.step(global_stats, rng);
        if result.is_err() {
            self.reset(global_stats, rng);
        }
        result
    }

    /// Runs the solve to completion; a contradiction resets the run
    /// (reapplying the forbid hook) before it is surfaced.
    pub fn collapse(
        &mut self,
        global_stats: &GlobalStats,
        rng: &mut rand_xorshift::XorShiftRng,
    ) -> (r: Result<(), PropagateError>)
        requires
            global_stats.wf(),
            old(self).core.wf(*global_stats),
        ensures
            final(self).core.wf(*global_stats),
            final(self).core.wave.grid.size == old(self).core.wave.grid.size,
            r is Ok ==> (final(self).core.context.num_cells_with_more_than_one_weighted_compatible_pattern == 0 || final(self).core.context.observer.entropy_priority_queue@.len() == 0),
    {
        let result = self.core.collapse(global_stats, rng);
        if result.is_err() {
            self.reset(global_stats, rng);
        }
        result
    }

    pub fn forbid_all_patterns_except(
        &mut self,
        coord: Coord,
        pattern_id: PatternId,
        global_stats: &GlobalStats,
        rng: &mut rand_xorshift::XorShiftRng,
    ) -> (r: Result<(), PropagateError>)
        requires
            global_stats.wf(),
            old(self).core.wf(*global_stats),
            coord.spec_is_valid(old(self).core.wave.grid.size),
            pattern_id < global_stats.spec_num_patterns(),
        ensures
            final(self).core.wf(*global_stats),
            final(self).core.wave.grid.size == old(self).core.wave.grid.size,
            r is Ok ==> forall|p: int|
                0 <= p < global_stats.spec_num_patterns() && (#[trigger] final(self).core.wave.grid.spec_get(coord).spec_admits(p)) ==> p == pattern_id,
    {
        self.core.forbid_all_patterns_except(coord, pattern_id, global_stats, rng)
    }

    pub fn forbid_pattern(
        &mut self,
        coord: Coord,
        pattern_id: PatternId,
        global_stats: &GlobalStats,
        rng: &mut rand_xorshift::XorShiftRng,
    ) -> (r: Result<(), ForbidPatternError>)
        requires
            global_stats.wf(),
            old(self).core.wf(*global_stats),
            coord.spec_is_valid(old(self).core.wave.grid.size),
            pattern_id < global_stats.spec_num_patterns(),
        ensures
            final(self).core.wf(*global_stats),
            final(self).core.wave.grid.size == old(self).core.wave.grid.size,
            r == Err::<(), ForbidPatternError>(ForbidPatternError::WouldCauseContradiction) <==> (
            old(self).core.wave.grid.spec_get(coord).spec_admits(pattern_id as int) && old(self).core.wave.grid.spec_get(coord).num_compatible_patterns == 1),
            r is Ok ==> !final(self).core.wave.grid.spec_get(coord).spec_admits(
                pattern_id as int,
            ),
    {
        self.core.forbid_pattern(coord, pattern_id, global_stats, rng)
    }

    pub fn wave_size(&self) -> (r: Size)
        ensures
            r == self.core.wave.grid.size,
    {
        self.core.wave_size()
    }

    pub fn wave_cell_ref<'a>(&'a self, coord: Coord, global_stats: &'a GlobalStats) -> (r:
        WaveCellRef<'a>)
        requires
            self.core.wave.grid.wf(),
            coord.spec_is_valid(self.core.wave.grid.size),
        ensures
            *r.wave_cell == self.core.wave.grid.spec_get(coord),
            r.global_stats == global_stats,
    {
        WaveCellRef { wave_cell: self.core.wave.get_checked(coord), global_stats }
    }

    /// Surrenders the solved (or partially solved) wave.
    pub fn into_wave(self) -> (r: Wave)
        ensures
            r == self.core.wave,
    {
        self.core.wave
    }

    /// Collapses under the bounded retry policy: contradictions reset and
    /// retry until the budget is spent.
    pub fn collapse_retrying(
        self,
        retry: crate::retry::NumTimes,
        global_stats: &GlobalStats,
        rng: &mut rand_xorshift::XorShiftRng,
    ) -> (r: Result<Wave, PropagateError>)
        requires
            global_stats.wf(),
            self.core.wf(*global_stats),
        ensures
            r matches Ok(w) ==> w.wf(*global_stats),
    {
        retry.retry(self, global_stats, rng)
    }
}

/// Reading weights through a borrowed cell: `Weight` carries a pattern's
/// weight; a cell whose single admitted pattern is unweighted reports
/// `SingleNonWeightedPattern`.
pub enum WaveCellRefWeight {
    Weight(u32),
    SingleNonWeightedPattern,
}

/// A cell that cannot enumerate weighted patterns but is still decided.
pub enum NoPatternsWithWeights {
    SingleCompatiblePattern(PatternId),
}

/// What a borrowed cell can say about its admitted patterns' weights.
pub enum EnumerateCompatiblePatternWeights {
    CompatiblePatternsWithWeights(Vec<(PatternId, u32)>),
    SingleCompatiblePatternWithoutWeight(PatternId),
    NoCompatiblePattern,
    MultipleCompatiblePatternsWithoutWeights,
}

/// The enumeration a cell with weighted admissions hands out: one entry per
/// admitted pattern, in any order, each carrying that pattern's weight (zero
/// when it has none), with every admitted pattern present.
pub open spec fn spec_weights_enumeration_ok(
    v: Seq<(PatternId, u32)>,
    cell: WaveCell,
    global_stats: GlobalStats,
) -> bool {
    &&& v.len() == crate::wave::spec_count_admitted(
        cell.spec_num_ways(),
        global_stats.spec_num_patterns(),
    )
    &&& forall|i: int|
        0 <= i < v.len() ==> cell.spec_admits((#[trigger] v[i]).0 as int) && v[i].1 as int
            == crate::wave::contrib_weight(
            cell.spec_num_ways()[v[i].0 as int],
            global_stats.pattern_weights.table@[v[i].0 as int],
        )
    &&& forall|p: int|
        0 <= p < global_stats.spec_num_patterns() && cell.spec_admits(p) ==> exists|i: int|
            0 <= i < v.len() && (#[trigger] v[i]).0 == p
    &&& forall|i: int, j: int| 0 <= i < j < v.len() ==> (#[trigger] v[i]).0 < (#[trigger] v[j]).0
}

/// A read-only view of one cell together with the solve's statistics.
pub struct WaveCellRef<'a> {
    pub wave_cell: &'a WaveCell,
    pub global_stats: &'a GlobalStats,
}

impl<'a> WaveCellRef<'a> {
    pub fn sum_compatible_pattern_weight(&self) -> (r: u32)
        ensures
            r == self.wave_cell.stats.sum_compatible_pattern_weight,
    {
        self.wave_cell.stats.sum_compatible_pattern_weight
    }

    pub fn chosen_pattern_id(&self) -> (r: Result<PatternId, crate::wave::ChosenPatternIdError>)
        requires
            self.wave_cell.wf(*self.global_stats),
            self.global_stats.wf(),
        ensures
            r is Ok <==> self.wave_cell.num_compatible_patterns == 1,
            r matches Ok(pid) ==> pid < self.global_stats.spec_num_patterns()
                && self.wave_cell.spec_admits(pid as int),
    {
        self.wave_cell.chosen_pattern_id(self.global_stats)
    }

    /// The cell's admitted patterns and their weights (zero for an admitted
    /// pattern without one), in pattern-id order; or the reason no such
    /// enumeration exists.
    pub fn enumerate_compatible_pattern_weights(&self) -> (r: EnumerateCompatiblePatternWeights)
        requires
            self.wave_cell.wf(*self.global_stats),
            self.global_stats.wf(),
        ensures
            r matches EnumerateCompatiblePatternWeights::CompatiblePatternsWithWeights(v)
                ==> spec_weights_enumeration_ok(v@, *self.wave_cell, *self.global_stats),
            r is NoCompatiblePattern <==> self.wave_cell.num_compatible_patterns == 0,
            r is SingleCompatiblePatternWithoutWeight <==> (self.wave_cell.num_compatible_patterns
                == 1 && self.wave_cell.stats.num_weighted_compatible_patterns == 0),
            r matches EnumerateCompatiblePatternWeights::SingleCompatiblePatternWithoutWeight(pid)
                ==> pid < self.global_stats.spec_num_patterns() && self.wave_cell.spec_admits(
                pid as int,
            ),
            r is MultipleCompatiblePatternsWithoutWeights <==> (
            self.wave_cell.num_compatible_patterns >= 2
                && self.wave_cell.stats.num_weighted_compatible_patterns == 0),
            r is CompatiblePatternsWithWeights <==> (self.wave_cell.num_compatible_patterns >= 1
                && self.wave_cell.stats.num_weighted_compatible_patterns >= 1),
    {
        if self.wave_cell.num_compatible_patterns == 0 {
            return EnumerateCompatiblePatternWeights::NoCompatiblePattern;
        }
        if self.wave_cell.stats.num_weighted_compatible_patterns == 0 {
            if self.wave_cell.num_compatible_patterns == 1 {
                match self.wave_cell.chosen_pattern_id(self.global_stats) {
                    Ok(pattern_id) => {
                        return EnumerateCompatiblePatternWeights::SingleCompatiblePatternWithoutWeight(
                            pattern_id,
                        );
                    },
                    Err(_) => {
                        return EnumerateCompatiblePatternWeights::MultipleCompatiblePatternsWithoutWeights;
                    },
                }
            } else {
                return EnumerateCompatiblePatternWeights::MultipleCompatiblePatternsWithoutWeights;
            }
        }
        let n = self.global_stats.num_patterns();
        let mut out: Vec<(PatternId, u32)> = Vec::new();
        let mut p: usize = 0;
        let ghost s = self.wave_cell.spec_num_ways();
        let ghost w = self.global_stats.pattern_weights.table@;
        while p < n
            invariant
                self.wave_cell.wf(*self.global_stats),
                self.global_stats.wf(),
                p <= n,
                n == self.global_stats.spec_num_patterns(),
                s == self.wave_cell.spec_num_ways(),
                w == self.global_stats.pattern_weights.table@,
                out@.len() == crate::wave::spec_count_admitted(s, p as int),
                forall|i: int|
                    0 <= i < out@.len() ==> self.wave_cell.spec_admits((#[trigger] out@[i]).0 as int)
                        && out@[i].1 as int == crate::wave::contrib_weight(
                        s[out@[i].0 as int],
                        w[out@[i].0 as int],
                    ),
                forall|p2: int|
                    0 <= p2 < p && self.wave_cell.spec_admits(p2) ==> exists|i: int|
                        0 <= i < out@.len() && (#[trigger] out@[i]).0 == p2,
                forall|i: int| 0 <= i < out@.len() ==> (#[trigger] out@[i]).0 < p,
                forall|i: int, j: int|
                    0 <= i < j < out@.len() ==> (#[trigger] out@[i]).0 < (#[trigger] out@[j]).0,
            decreases n - p,
        {
            let admitted = !self.wave_cell.num_ways_to_become_each_pattern.get(p as u32).is_zero();
            let ghost out_before = out@;
            if admitted {
                let weight: u32 = match *self.global_stats.pattern_stats(p as u32) {
                    Some(pw) => pw.weight,
                    None => 0,
                };
                out.push((p as u32, weight));
            }
            proof {
                assert forall|p2: int|
                    0 <= p2 < p + 1 && self.wave_cell.spec_admits(p2) implies exists|i: int|
                        0 <= i < out@.len() && (#[trigger] out@[i]).0 == p2 by {
                    if p2 < p {
                        let j = choose|j: int|
                            0 <= j < out_before.len() && (#[trigger] out_before[j]).0 == p2;
                        assert(out@[j].0 == p2);
                    } else {
                        assert(out@[out@.len() - 1].0 == p2);
                    }
                }
            }
            p = p + 1;
        }
        proof {
            assert(spec_weights_enumeration_ok(out@, *self.wave_cell, *self.global_stats));
        }
        EnumerateCompatiblePatternWeights::CompatiblePatternsWithWeights(out)
    }
}

} // verus!
