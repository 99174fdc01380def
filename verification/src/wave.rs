//! Per-cell solver state: per-pattern support counts in each direction, the
//! aggregate statistics kept incrementally, and the grid of cells.
//!
//! Between steps every cell keeps two invariants: a pattern's support counts
//! are either all zero or all nonzero (all-zero is the "removed" sentinel),
//! and the cached counts and sums equal what a recomputation from the
//! admitted set would give. Both are part of [`WaveCell::wf`].

use vstd::prelude::*;
use crate::coord::Size;
use crate::direction::{CardinalDirection, CardinalDirectionTable};
use crate::entropy::{entropy_fix, spec_entropy_fix};
use crate::grid::Grid;
use crate::pattern::{GlobalStats, PatternId, PatternTable, PatternWeight};

verus! {

/// For one pattern at one cell: the number of ways each neighbour could be
/// assigned a pattern that allows this cell to be that pattern. All four
/// counts zero means the pattern has been removed here.
#[derive(Clone, Copy, Debug)]
pub struct NumWaysToBecomePattern {
    pub direction_table: CardinalDirectionTable<u32>,
}

impl NumWaysToBecomePattern {
    /// Support coherence: the counts are all zero or all nonzero.
    pub open spec fn wf(self) -> bool {
        &&& self.spec_admitted() ==> self.direction_table.north > 0 && self.direction_table.east
            > 0 && self.direction_table.south > 0 && self.direction_table.west > 0
        &&& !self.spec_admitted() ==> self.direction_table.north == 0 && self.direction_table.east
            == 0 && self.direction_table.south == 0 && self.direction_table.west == 0
    }

    /// Whether the pattern is still admitted. Under `wf`, testing one
    /// component is enough.
    pub open spec fn spec_admitted(self) -> bool {
        self.direction_table.north > 0
    }

    pub open spec fn spec_zero() -> NumWaysToBecomePattern {
        NumWaysToBecomePattern {
            direction_table: CardinalDirectionTable { north: 0u32, east: 0u32, south: 0u32, west: 0u32 },
        }
    }

    /// Clamps to all-zero if any direction is zero: such a pattern can never
    /// be supported and counts as removed from the start.
    pub fn new(direction_table: CardinalDirectionTable<u32>) -> (r: NumWaysToBecomePattern)
        ensures
            r.wf(),
            r.spec_admitted() <==> (direction_table.north > 0 && direction_table.east > 0
                && direction_table.south > 0 && direction_table.west > 0),
            r.spec_admitted() ==> r.direction_table == direction_table,
            !r.spec_admitted() ==> r == NumWaysToBecomePattern::spec_zero(),
    {
        if direction_table.north == 0 || direction_table.east == 0 || direction_table.south == 0
            || direction_table.west == 0 {
            NumWaysToBecomePattern::spec_zero_exec()
        } else {
            NumWaysToBecomePattern { direction_table }
        }
    }

    fn spec_zero_exec() -> (r: NumWaysToBecomePattern)
        ensures
            r == NumWaysToBecomePattern::spec_zero(),
    {
        NumWaysToBecomePattern {
            direction_table: CardinalDirectionTable { north: 0, east: 0, south: 0, west: 0 },
        }
    }

    pub fn is_zero(&self) -> (r: bool)
        requires
            self.wf(),
        ensures
            r == !self.spec_admitted(),
    {
        *self.direction_table.get(CardinalDirection::North) == 0
    }

    pub fn clear_all_directions(&mut self)
        ensures
            *final(self) == NumWaysToBecomePattern::spec_zero(),
    {
        *self = NumWaysToBecomePattern::spec_zero_exec();
    }

    /// Takes one support way out of `direction`. Removing the last way in
    /// any direction removes the pattern: all four counts clamp to zero.
    pub fn try_decrement(&mut self, direction: CardinalDirection) -> (removed: bool)
        requires
            old(self).wf(),
        ensures
            final(self).wf(),
            removed == (old(self).direction_table.spec_get(direction) == 1),
            removed ==> *final(self) == NumWaysToBecomePattern::spec_zero() && old(self).spec_admitted(),
            !removed ==> final(self).spec_admitted() == old(self).spec_admitted(),
            old(self).direction_table.spec_get(direction) == 0 ==> *final(self) == *old(self),
            old(self).direction_table.spec_get(direction) > 1 ==> final(self).direction_table.spec_get(direction) == old(self).direction_table.spec_get(direction)
                - 1 && forall|d: CardinalDirection|
                d != direction ==> final(self).direction_table.spec_get(d) == old(self).direction_table.spec_get(d),
    {
        let count = *self.direction_table.get(direction);
        if count == 0 {
            proof {
                assert(!old(self).spec_admitted());
            }
            false
        } else if count != 1 {
            proof {
                assert(old(self).spec_admitted());
            }
            self.direction_table.set(direction, count - 1);
            proof {
                assert(forall|d: CardinalDirection|
                    d != direction ==> self.direction_table.spec_get(d) == old(self).direction_table.spec_get(d));
                assert(self.direction_table.spec_get(CardinalDirection::North) > 0);
                assert(self.direction_table.spec_get(CardinalDirection::East) > 0);
                assert(self.direction_table.spec_get(CardinalDirection::South) > 0);
                assert(self.direction_table.spec_get(CardinalDirection::West) > 0);
            }
            false
        } else {
            self.clear_all_directions();
            true
        }
    }
}

/// A sequence with an admitted entry at `j` has positive count, and if that
/// entry is weighted its weight and log-weight bound the sums from below.
pub proof fn lemma_admitted_contributes(
    s: Seq<NumWaysToBecomePattern>,
    w: Seq<Option<PatternWeight>>,
    n: int,
    j: int,
)
    requires
        0 <= j < n,
        n <= s.len(),
        n <= w.len(),
        s[j].spec_admitted(),
    ensures
        spec_count_admitted(s, n) >= 1,
        w[j] is Some ==> spec_count_weighted_admitted(s, w, n) >= 1,
        w[j] matches Some(pw) ==> spec_sum_weight_admitted(s, w, n) >= pw.weight,
        w[j] matches Some(pw) ==> spec_sum_wlw_admitted(s, w, n) >= pw.weight_log_weight,
    decreases n,
{
    lemma_aggregates_nonneg(s, w, n - 1);
    if j < n - 1 {
        lemma_admitted_contributes(s, w, n - 1, j);
    }
}

/// The aggregates are non-negative and the weighted count never exceeds the
/// plain count.
pub proof fn lemma_aggregates_nonneg(
    s: Seq<NumWaysToBecomePattern>,
    w: Seq<Option<PatternWeight>>,
    n: int,
)
    ensures
        spec_count_admitted(s, n) >= 0,
        spec_count_weighted_admitted(s, w, n) >= 0,
        spec_sum_weight_admitted(s, w, n) >= 0,
        spec_sum_wlw_admitted(s, w, n) >= 0,
        spec_count_weighted_admitted(s, w, n) <= spec_count_admitted(s, n),
    decreases n,
{
    if n > 0 {
        lemma_aggregates_nonneg(s, w, n - 1);
    }
}

/// With exactly one admitted pattern in the first `n`, any two admitted
/// indices coincide.
pub proof fn lemma_single_admitted(s: Seq<NumWaysToBecomePattern>, n: int, a: int, b: int)
    requires
        0 <= a < n,
        0 <= b < n,
        n <= s.len(),
        s[a].spec_admitted(),
        s[b].spec_admitted(),
        spec_count_admitted(s, n) <= 1,
    ensures
        a == b,
    decreases n,
{
    if a != b {
        let lo = if a < b {
            a
        } else {
            b
        };
        let hi = if a < b {
            b
        } else {
            a
        };
        lemma_two_admitted(s, n, lo, hi);
    }
}

proof fn lemma_two_admitted(s: Seq<NumWaysToBecomePattern>, n: int, a: int, b: int)
    requires
        0 <= a < b < n,
        n <= s.len(),
        s[a].spec_admitted(),
        s[b].spec_admitted(),
    ensures
        spec_count_admitted(s, n) >= 2,
    decreases n,
{
    if b == n - 1 {
        lemma_admitted_contributes(s, Seq::new(s.len() as nat, |i: int| None), n - 1, a);
    } else {
        lemma_two_admitted(s, n - 1, a, b);
    }
}

/// If nothing in the first `n` is admitted, the count is zero.
pub proof fn lemma_none_admitted(s: Seq<NumWaysToBecomePattern>, n: int)
    requires
        n <= s.len(),
        forall|j: int| 0 <= j < n ==> !(#[trigger] s[j]).spec_admitted(),
    ensures
        spec_count_admitted(s, n) <= 0,
    decreases n,
{
    if n > 0 {
        lemma_none_admitted(s, n - 1);
    }
}

/// Aggregates over the weighted patterns a cell still admits.
#[derive(Clone, Copy, Debug)]
pub struct WaveCellStats {
    pub num_weighted_compatible_patterns: u32,
    pub sum_compatible_pattern_weight: u32,
    pub sum_compatible_pattern_weight_log_weight: u64,
}

/// How a cell's entries stand in the entropy queue: the key orders by
/// fixed-point entropy, ties broken by the cell's noise. The weighted-pattern
/// count is a snapshot for lazy invalidation, not part of the order.
#[derive(Clone, Copy, Debug, PartialEq, Eq, Structural)]
pub struct EntropyWithNoise {
    pub entropy: i64,
    pub noise: u32,
    pub num_weighted_compatible_patterns: u32,
}

impl EntropyWithNoise {
    pub open spec fn spec_lt(self, other: EntropyWithNoise) -> bool {
        self.entropy < other.entropy || (self.entropy == other.entropy && self.noise < other.noise)
    }

    pub fn lt(&self, other: &EntropyWithNoise) -> (r: bool)
        ensures
            r == self.spec_lt(*other),
    {
        self.entropy < other.entropy || (self.entropy == other.entropy && self.noise < other.noise)
    }
}

/// Reading the single pattern of a cell that is not in fact collapsed.
#[derive(Clone, Copy, Debug, PartialEq, Eq, Structural)]
pub enum ChosenPatternIdError {
    NoCompatiblePatterns,
    MultipleCompatiblePatterns,
}

/// What removing one support way from one pattern did to the cell.
#[derive(Clone, Copy, Debug, PartialEq, Eq, Structural)]
pub enum DecrementOutcome {
    NoPatternRemoved,
    RemovedNonWeightedPattern,
    RemovedFinalCompatiblePattern,
    RemovedFinalWeightedCompatiblePattern,
    Finalized,
    RemovedWeightedPatternMultipleCandidatesRemain,
}

/// Number of admitted patterns among the first `n`.
pub open spec fn spec_count_admitted(s: Seq<NumWaysToBecomePattern>, n: int) -> int
    decreases n,
{
    if n <= 0 {
        0
    } else {
        spec_count_admitted(s, n - 1) + if s[n - 1].spec_admitted() {
            1int
        } else {
            0int
        }
    }
}

/// Number of admitted weighted patterns among the first `n`.
pub open spec fn spec_count_weighted_admitted(
    s: Seq<NumWaysToBecomePattern>,
    w: Seq<Option<PatternWeight>>,
    n: int,
) -> int
    decreases n,
{
    if n <= 0 {
        0
    } else {
        spec_count_weighted_admitted(s, w, n - 1) + if s[n - 1].spec_admitted() && w[n - 1]
            is Some {
            1int
        } else {
            0int
        }
    }
}

/// Sum of weights of admitted weighted patterns among the first `n`.
pub open spec fn spec_sum_weight_admitted(
    s: Seq<NumWaysToBecomePattern>,
    w: Seq<Option<PatternWeight>>,
    n: int,
) -> int
    decreases n,
{
    if n <= 0 {
        0
    } else {
        spec_sum_weight_admitted(s, w, n - 1) + if s[n - 1].spec_admitted() {
            match w[n - 1] {
                Some(pw) => pw.weight as int,
                None => 0,
            }
        } else {
            0
        }
    }
}

/// Sum of fixed-point `w * log2(w)` of admitted weighted patterns among the
/// first `n`.
pub open spec fn spec_sum_wlw_admitted(
    s: Seq<NumWaysToBecomePattern>,
    w: Seq<Option<PatternWeight>>,
    n: int,
) -> int
    decreases n,
{
    if n <= 0 {
        0
    } else {
        spec_sum_wlw_admitted(s, w, n - 1) + if s[n - 1].spec_admitted() {
            match w[n - 1] {
                Some(pw) => pw.weight_log_weight as int,
                None => 0,
            }
        } else {
            0
        }
    }
}

/// Updating entry `j` shifts each aggregate by the difference of the old and
/// new entry's contribution; entries past `n` do not matter.
pub proof fn lemma_aggregates_update(
    s1: Seq<NumWaysToBecomePattern>,
    s2: Seq<NumWaysToBecomePattern>,
    w: Seq<Option<PatternWeight>>,
    j: int,
    n: int,
)
    requires
        0 <= j < n,
        n <= s1.len(),
        s2.len() == s1.len(),
        forall|i: int| 0 <= i < n && i != j ==> s1[i] == s2[i],
    ensures
        spec_count_admitted(s2, n) == spec_count_admitted(s1, n) - contrib_one(s1[j])
            + contrib_one(s2[j]),
        spec_count_weighted_admitted(s2, w, n) == spec_count_weighted_admitted(s1, w, n)
            - contrib_weighted(s1[j], w[j]) + contrib_weighted(s2[j], w[j]),
        spec_sum_weight_admitted(s2, w, n) == spec_sum_weight_admitted(s1, w, n) - contrib_weight(
            s1[j],
            w[j],
        ) + contrib_weight(s2[j], w[j]),
        spec_sum_wlw_admitted(s2, w, n) == spec_sum_wlw_admitted(s1, w, n) - contrib_wlw(
            s1[j],
            w[j],
        ) + contrib_wlw(s2[j], w[j]),
    decreases n,
{
    if n - 1 == j {
        lemma_aggregates_congruent(s1, s2, w, n - 1);
    } else {
        lemma_aggregates_update(s1, s2, w, j, n - 1);
    }
}

/// Aggregates agree when the first `n` entries agree.
pub proof fn lemma_aggregates_congruent(
    s1: Seq<NumWaysToBecomePattern>,
    s2: Seq<NumWaysToBecomePattern>,
    w: Seq<Option<PatternWeight>>,
    n: int,
)
    requires
        n <= s1.len(),
        n <= s2.len(),
        forall|i: int| 0 <= i < n ==> s1[i] == s2[i],
    ensures
        spec_count_admitted(s2, n) == spec_count_admitted(s1, n),
        spec_count_weighted_admitted(s2, w, n) == spec_count_weighted_admitted(s1, w, n),
        spec_sum_weight_admitted(s2, w, n) == spec_sum_weight_admitted(s1, w, n),
        spec_sum_wlw_admitted(s2, w, n) == spec_sum_wlw_admitted(s1, w, n),
    decreases n,
{
    if n > 0 {
        lemma_aggregates_congruent(s1, s2, w, n - 1);
    }
}

pub open spec fn contrib_one(nw: NumWaysToBecomePattern) -> int {
    if nw.spec_admitted() {
        1
    } else {
        0
    }
}

pub open spec fn contrib_weighted(nw: NumWaysToBecomePattern, w: Option<PatternWeight>) -> int {
    if nw.spec_admitted() && w is Some {
        1
    } else {
        0
    }
}

pub open spec fn contrib_weight(nw: NumWaysToBecomePattern, w: Option<PatternWeight>) -> int {
    if nw.spec_admitted() {
        match w {
            Some(pw) => pw.weight as int,
            None => 0,
        }
    } else {
        0
    }
}

pub open spec fn contrib_wlw(nw: NumWaysToBecomePattern, w: Option<PatternWeight>) -> int {
    if nw.spec_admitted() {
        match w {
            Some(pw) => pw.weight_log_weight as int,
            None => 0,
        }
    } else {
        0
    }
}

/// Basic bounds: counts lie in `[0, n]`, sums are non-negative, each count
/// is at most the plain count, and the weight sum dominates the weighted
/// count (weights are at least one) while the log sum stays within
/// `sum * 2^21` (each per-pattern log is below `2^21`).
pub proof fn lemma_aggregates_bounds(
    s: Seq<NumWaysToBecomePattern>,
    w: Seq<Option<PatternWeight>>,
    n: int,
)
    requires
        0 <= n,
        n <= s.len(),
        n <= w.len(),
        forall|i: int|
            0 <= i < n ==> match #[trigger] w[i] {
                Some(pw) => pw.wf(),
                None => true,
            },
    ensures
        0 <= spec_count_admitted(s, n) <= n,
        0 <= spec_count_weighted_admitted(s, w, n) <= spec_count_admitted(s, n),
        spec_count_weighted_admitted(s, w, n) <= spec_sum_weight_admitted(s, w, n),
        0 <= spec_sum_wlw_admitted(s, w, n) <= spec_sum_weight_admitted(s, w, n) * 0x20_0000,
    decreases n,
{
    if n > 0 {
        lemma_aggregates_bounds(s, w, n - 1);
        if s[n - 1].spec_admitted() {
            match w[n - 1] {
                Some(pw) => {
                    crate::entropy::lemma_log2_fix_range(pw.weight as int);
                    assert(pw.weight_log_weight as int <= pw.weight as int * 0x20_0000)
                        by (nonlinear_arith)
                        requires
                            pw.weight_log_weight == (pw.weight as int) * crate::entropy::spec_log2_fix(
                                pw.weight as int,
                            ),
                            1 <= pw.weight,
                            0 <= crate::entropy::spec_log2_fix(pw.weight as int) <= 0x20_0000,
                    ;
                    assert((spec_sum_weight_admitted(s, w, n - 1) + pw.weight as int) * 0x20_0000
                        == spec_sum_weight_admitted(s, w, n - 1) * 0x20_0000 + pw.weight as int
                        * 0x20_0000) by (nonlinear_arith);
                },
                None => {
                    assert(spec_sum_weight_admitted(s, w, n) * 0x20_0000
                        == spec_sum_weight_admitted(s, w, n - 1) * 0x20_0000);
                },
            }
        } else {
            assert(spec_sum_weight_admitted(s, w, n) * 0x20_0000 == spec_sum_weight_admitted(
                s,
                w,
                n - 1,
            ) * 0x20_0000);
        }
    }
}

/// One output cell: its tie-breaking noise, the count of patterns it still
/// admits, aggregates over the weighted ones, and per-pattern support.
#[derive(Clone, Debug)]
pub struct WaveCell {
    pub noise: u32,
    pub num_compatible_patterns: u32,
    pub stats: WaveCellStats,
    pub num_ways_to_become_each_pattern: PatternTable<NumWaysToBecomePattern>,
}

impl WaveCell {
    pub open spec fn spec_num_ways(self) -> Seq<NumWaysToBecomePattern> {
        self.num_ways_to_become_each_pattern.table@
    }

    /// Whether this cell still admits `pattern_id`.
    pub open spec fn spec_admits(self, pattern_id: int) -> bool {
        self.spec_num_ways()[pattern_id].spec_admitted()
    }

    /// The cell's invariants against the solve's statistics: support
    /// coherence per pattern, and cached counts equal to recomputation.
    pub open spec fn wf(self, global_stats: GlobalStats) -> bool {
        let s = self.spec_num_ways();
        let w = global_stats.pattern_weights.table@;
        let n = global_stats.spec_num_patterns();
        &&& s.len() == n
        &&& forall|i: int| 0 <= i < n ==> (#[trigger] s[i]).wf()
        &&& self.num_compatible_patterns == spec_count_admitted(s, n)
        &&& self.stats.num_weighted_compatible_patterns == spec_count_weighted_admitted(s, w, n)
        &&& self.stats.sum_compatible_pattern_weight == spec_sum_weight_admitted(s, w, n)
        &&& self.stats.sum_compatible_pattern_weight_log_weight == spec_sum_wlw_admitted(s, w, n)
    }

    /// A fresh cell: every pattern whose initial supports are all positive is
    /// admitted; the rest are removed from the start.
    pub fn init(global_stats: &GlobalStats, noise: u32) -> (r: WaveCell)
        requires
            global_stats.wf(),
        ensures
            r.wf(*global_stats),
            r.noise == noise,
            forall|i: int|
                0 <= i < global_stats.spec_num_patterns() ==> (#[trigger] r.spec_admits(i)
                    <==> spec_initially_admissible(*global_stats, i)),
            forall|i: int, d: CardinalDirection|
                #![trigger r.spec_num_ways()[i].direction_table.spec_get(d)]
                0 <= i < global_stats.spec_num_patterns()
                    ==> r.spec_num_ways()[i].direction_table.spec_get(d) as int == (
                if spec_initially_admissible(*global_stats, i) {
                    global_stats.spec_compat(i, d.spec_opposite()).len() as int
                } else {
                    0
                }),
    {
        let n = global_stats.num_patterns();
        let mut num_ways: PatternTable<NumWaysToBecomePattern> = PatternTable::new();
        let mut num_compatible: u32 = 0;
        let mut num_weighted: u32 = 0;
        let mut sum_weight: u32 = 0;
        let mut sum_wlw: u64 = 0;
        let mut i: usize = 0;
        let ghost w = global_stats.pattern_weights.table@;
        while i < n
            invariant
                global_stats.wf(),
                n == global_stats.spec_num_patterns(),
                i <= n,
                num_ways.table@.len() == i,
                w == global_stats.pattern_weights.table@,
                forall|j: int| 0 <= j < i ==> (#[trigger] num_ways.table@[j]).wf(),
                forall|j: int|
                    0 <= j < i ==> ((#[trigger] num_ways.table@[j]).spec_admitted()
                        <==> spec_initially_admissible(*global_stats, j)),
                forall|j: int, d: CardinalDirection|
                    #![trigger num_ways.table@[j].direction_table.spec_get(d)]
                    0 <= j < i ==> num_ways.table@[j].direction_table.spec_get(d) as int == (
                    if spec_initially_admissible(*global_stats, j) {
                        global_stats.spec_compat(j, d.spec_opposite()).len() as int
                    } else {
                        0
                    }),
                num_compatible == spec_count_admitted(num_ways.table@, i as int),
                num_weighted == spec_count_weighted_admitted(num_ways.table@, w, i as int),
                sum_weight == spec_sum_weight_admitted(num_ways.table@, w, i as int),
                sum_wlw == spec_sum_wlw_admitted(num_ways.table@, w, i as int),
                num_compatible <= i,
            decreases n - i,
        {
            let s0 = global_stats.num_ways_to_become_pattern(i as u32);
            let nw = NumWaysToBecomePattern::new(s0);
            let ghost before = num_ways.table@;
            num_ways.push(nw);
            proof {
                lemma_aggregates_congruent(before, num_ways.table@, w, i as int);
                assert(s0.spec_get(CardinalDirection::North) == global_stats.spec_compat(
                    i as int,
                    CardinalDirection::South,
                ).len());
                assert(s0.spec_get(CardinalDirection::East) == global_stats.spec_compat(
                    i as int,
                    CardinalDirection::West,
                ).len());
                assert(s0.spec_get(CardinalDirection::South) == global_stats.spec_compat(
                    i as int,
                    CardinalDirection::North,
                ).len());
                assert(s0.spec_get(CardinalDirection::West) == global_stats.spec_compat(
                    i as int,
                    CardinalDirection::East,
                ).len());
                assert(nw.spec_admitted() <==> spec_initially_admissible(*global_stats, i as int));
                lemma_admitted_below_full(num_ways.table@, w, i as int + 1);
                crate::pattern::lemma_full_sums_monotonic(w, i as int + 1, n as int);
            }
            if nw.is_zero() {
                proof {
                    assert(spec_count_admitted(num_ways.table@, i as int + 1) == num_compatible);
                }
            } else {
                num_compatible = num_compatible + 1;
                match *global_stats.pattern_stats(i as u32) {
                    Some(pw) => {
                        num_weighted = num_weighted + 1;
                        sum_weight = sum_weight + pw.weight();
                        sum_wlw = sum_wlw + pw.weight_log_weight();
                    },
                    None => (),
                }
            }
            i = i + 1;
        }
        WaveCell {
            noise,
            num_compatible_patterns: num_compatible,
            stats: WaveCellStats {
                num_weighted_compatible_patterns: num_weighted,
                sum_compatible_pattern_weight: sum_weight,
                sum_compatible_pattern_weight_log_weight: sum_wlw,
            },
            num_ways_to_become_each_pattern: num_ways,
        }
    }
}

/// The outcome the decrement classifies, from the values after the removal.
/// A cell whose last admitted pattern goes is the hard contradiction whether
/// or not that pattern carried weight: even unweighted admissions running out
/// leaves the cell empty, and the solve must be reset.
pub open spec fn spec_outcome_for(
    weighted: bool,
    num_compatible_after: int,
    num_weighted_after: int,
) -> DecrementOutcome {
    if num_compatible_after == 0 {
        DecrementOutcome::RemovedFinalCompatiblePattern
    } else if !weighted {
        DecrementOutcome::RemovedNonWeightedPattern
    } else if num_weighted_after == 0 {
        DecrementOutcome::RemovedFinalWeightedCompatiblePattern
    } else if num_compatible_after == 1 {
        DecrementOutcome::Finalized
    } else {
        DecrementOutcome::RemovedWeightedPatternMultipleCandidatesRemain
    }
}

impl WaveCell {
    /// Removes one way for this cell to become `pattern_id` from `direction`.
    /// If that was the last way in that direction the pattern is removed and
    /// the cached counts and sums are brought up to date; the outcome says
    /// what the removal meant for the cell.
    pub(crate) fn decrement_num_ways_to_become_pattern(
        &mut self,
        pattern_id: PatternId,
        direction: CardinalDirection,
        global_stats: &GlobalStats,
    ) -> (r: DecrementOutcome)
        requires
            old(self).wf(*global_stats),
            global_stats.wf(),
            pattern_id < global_stats.spec_num_patterns(),
        ensures
            final(self).wf(*global_stats),
            final(self).noise == old(self).noise,
            (r == DecrementOutcome::NoPatternRemoved) == (old(self).spec_num_ways()[
                pattern_id as int
            ].direction_table.spec_get(direction) != 1),
            r == DecrementOutcome::NoPatternRemoved ==> {
                &&& forall|i: int|
                    0 <= i < global_stats.spec_num_patterns() ==> final(self).spec_admits(i) == old(self).spec_admits(i)
                &&& final(self).num_compatible_patterns == old(self).num_compatible_patterns
                &&& final(self).stats == old(self).stats
                &&& final(self).spec_num_ways() == old(self).spec_num_ways().update(
                    pattern_id as int,
                    final(self).spec_num_ways()[pattern_id as int],
                )
                &&& (old(self).spec_num_ways()[pattern_id as int].direction_table.spec_get(
                    direction,
                ) == 0 ==> final(self).spec_num_ways() == old(self).spec_num_ways())
                &&& (old(self).spec_num_ways()[pattern_id as int].direction_table.spec_get(
                    direction,
                ) > 1 ==> final(self).spec_num_ways()[pattern_id as int].direction_table.spec_get(
                    direction,
                ) == old(self).spec_num_ways()[pattern_id as int].direction_table.spec_get(
                    direction,
                ) - 1 && forall|d: CardinalDirection|
                    d != direction ==> final(self).spec_num_ways()[
                        pattern_id as int
                    ].direction_table.spec_get(d) == old(self).spec_num_ways()[
                        pattern_id as int
                    ].direction_table.spec_get(d))
            },
            r != DecrementOutcome::NoPatternRemoved ==> {
                &&& old(self).spec_admits(pattern_id as int)
                &&& final(self).spec_num_ways() == old(self).spec_num_ways().update(
                    pattern_id as int,
                    NumWaysToBecomePattern::spec_zero(),
                )
                &&& final(self).num_compatible_patterns == old(self).num_compatible_patterns - 1
                &&& r == spec_outcome_for(
                    global_stats.pattern_weights.table@[pattern_id as int] is Some,
                    final(self).num_compatible_patterns as int,
                    final(self).stats.num_weighted_compatible_patterns as int,
                )
                &&& match global_stats.pattern_weights.table@[pattern_id as int] {
                    Some(pw) => final(self).stats.num_weighted_compatible_patterns == old(self).stats.num_weighted_compatible_patterns - 1 && final(self).stats.sum_compatible_pattern_weight == old(self).stats.sum_compatible_pattern_weight - pw.weight && final(self).stats.sum_compatible_pattern_weight_log_weight == old(self).stats.sum_compatible_pattern_weight_log_weight - pw.weight_log_weight,
                    None => final(self).stats == old(self).stats,
                }
            },
    {
        let ghost n = global_stats.spec_num_patterns();
        let ghost w = global_stats.pattern_weights.table@;
        let ghost s1 = self.spec_num_ways();
        let nw = self.num_ways_to_become_each_pattern.get_mut(pattern_id);
        let removed = nw.try_decrement(direction);
        proof {
            lemma_aggregates_update(s1, self.spec_num_ways(), w, pattern_id as int, n);
        }
        if removed {
            proof {
                lemma_admitted_contributes(s1, w, n, pattern_id as int);
                lemma_aggregates_nonneg(self.spec_num_ways(), w, n);
            }
            self.num_compatible_patterns = self.num_compatible_patterns - 1;
            match *global_stats.pattern_stats(pattern_id) {
                Some(pattern_stats) => {
                    self.stats.num_weighted_compatible_patterns =
                        self.stats.num_weighted_compatible_patterns - 1;
                    self.stats.sum_compatible_pattern_weight =
                        self.stats.sum_compatible_pattern_weight - pattern_stats.weight;
                    self.stats.sum_compatible_pattern_weight_log_weight =
                        self.stats.sum_compatible_pattern_weight_log_weight
                        - pattern_stats.weight_log_weight;
                    if self.stats.num_weighted_compatible_patterns == 0 {
                        if self.num_compatible_patterns == 0 {
                            DecrementOutcome::RemovedFinalCompatiblePattern
                        } else {
                            DecrementOutcome::RemovedFinalWeightedCompatiblePattern
                        }
                    } else {
                        if self.num_compatible_patterns == 1 {
                            DecrementOutcome::Finalized
                        } else {
                            DecrementOutcome::RemovedWeightedPatternMultipleCandidatesRemain
                        }
                    }
                },
                None => {
                    if self.num_compatible_patterns == 0 {
                        DecrementOutcome::RemovedFinalCompatiblePattern
                    } else {
                        DecrementOutcome::RemovedNonWeightedPattern
                    }
                },
            }
        } else {
            proof {
                assert(forall|i: int|
                    0 <= i < n && i != pattern_id as int ==> final(self).spec_num_ways()[i] == old(self).spec_num_ways()[i]);
            }
            DecrementOutcome::NoPatternRemoved
        }
    }

    /// Removes `pattern_id` from this cell outright (a forbid or an
    /// observation of another pattern), updating the cached aggregates.
    pub(crate) fn remove_pattern(&mut self, pattern_id: PatternId, global_stats: &GlobalStats)
        requires
            old(self).wf(*global_stats),
            global_stats.wf(),
            pattern_id < global_stats.spec_num_patterns(),
            old(self).spec_admits(pattern_id as int),
        ensures
            final(self).wf(*global_stats),
            final(self).noise == old(self).noise,
            final(self).spec_num_ways() == old(self).spec_num_ways().update(
                pattern_id as int,
                NumWaysToBecomePattern::spec_zero(),
            ),
            final(self).num_compatible_patterns == old(self).num_compatible_patterns - 1,
            match global_stats.pattern_weights.table@[pattern_id as int] {
                Some(pw) => final(self).stats.num_weighted_compatible_patterns == old(self).stats.num_weighted_compatible_patterns - 1 && final(self).stats.sum_compatible_pattern_weight == old(self).stats.sum_compatible_pattern_weight - pw.weight && final(self).stats.sum_compatible_pattern_weight_log_weight == old(self).stats.sum_compatible_pattern_weight_log_weight - pw.weight_log_weight,
                None => final(self).stats == old(self).stats,
            },
    {
        let ghost n = global_stats.spec_num_patterns();
        let ghost w = global_stats.pattern_weights.table@;
        let ghost s1 = self.spec_num_ways();
        let nw = self.num_ways_to_become_each_pattern.get_mut(pattern_id);
        nw.clear_all_directions();
        proof {
            lemma_aggregates_update(s1, self.spec_num_ways(), w, pattern_id as int, n);
            lemma_admitted_contributes(s1, w, n, pattern_id as int);
        }
        self.num_compatible_patterns = self.num_compatible_patterns - 1;
        match *global_stats.pattern_stats(pattern_id) {
            Some(pattern_stats) => {
                self.stats.num_weighted_compatible_patterns =
                    self.stats.num_weighted_compatible_patterns - 1;
                self.stats.sum_compatible_pattern_weight =
                    self.stats.sum_compatible_pattern_weight - pattern_stats.weight;
                self.stats.sum_compatible_pattern_weight_log_weight =
                    self.stats.sum_compatible_pattern_weight_log_weight
                    - pattern_stats.weight_log_weight;
            },
            None => (),
        }
    }

    /// Whether this cell still admits `pattern_id`.
    pub fn is_pattern_compatible(&self, pattern_id: PatternId, global_stats: &GlobalStats) -> (r:
        bool)
        requires
            self.wf(*global_stats),
            pattern_id < global_stats.spec_num_patterns(),
        ensures
            r == self.spec_admits(pattern_id as int),
    {
        !self.num_ways_to_become_each_pattern.get(pattern_id).is_zero()
    }
}

impl WaveCell {
    /// The single admitted pattern of a collapsed cell, or which way the
    /// cell fails to be collapsed.
    pub fn chosen_pattern_id(&self, global_stats: &GlobalStats) -> (r: Result<
        PatternId,
        ChosenPatternIdError,
    >)
        requires
            self.wf(*global_stats),
            global_stats.wf(),
        ensures
            r is Ok <==> self.num_compatible_patterns == 1,
            r matches Ok(pid) ==> pid < global_stats.spec_num_patterns() && self.spec_admits(
                pid as int,
            ) && forall|j: int|
                0 <= j < global_stats.spec_num_patterns() && self.spec_admits(j) ==> j == pid,
            r == Err::<PatternId, ChosenPatternIdError>(ChosenPatternIdError::NoCompatiblePatterns)
                <==> self.num_compatible_patterns == 0,
            r == Err::<PatternId, ChosenPatternIdError>(
                ChosenPatternIdError::MultipleCompatiblePatterns,
            ) <==> self.num_compatible_patterns >= 2,
    {
        let ghost s = self.spec_num_ways();
        let ghost np = global_stats.spec_num_patterns();
        if self.num_compatible_patterns == 1 {
            let n = global_stats.num_patterns();
            let mut i: usize = 0;
            while i < n
                invariant
                    self.wf(*global_stats),
                    global_stats.wf(),
                    s == self.spec_num_ways(),
                    np == global_stats.spec_num_patterns(),
                    n == np,
                    self.num_compatible_patterns == 1,
                    i <= n,
                    forall|j: int| 0 <= j < i ==> !(#[trigger] s[j]).spec_admitted(),
                decreases n - i,
            {
                if !self.num_ways_to_become_each_pattern.get(i as u32).is_zero() {
                    proof {
                        assert forall|j: int|
                            0 <= j < np && self.spec_admits(j) implies j == i as int by {
                            lemma_single_admitted(s, np, j, i as int);
                        }
                    }
                    return Ok(i as u32);
                }
                i = i + 1;
            }
            proof {
                lemma_none_admitted(s, np);
            }
            Err(ChosenPatternIdError::NoCompatiblePatterns)
        } else if self.num_compatible_patterns == 0 {
            Err(ChosenPatternIdError::NoCompatiblePatterns)
        } else {
            Err(ChosenPatternIdError::MultipleCompatiblePatterns)
        }
    }

    /// The admitted weighted pattern whose cumulative-weight interval holds
    /// `remaining`: the pattern weight-proportional sampling lands on.
    pub fn pick_weighted_pattern(&self, global_stats: &GlobalStats, remaining: u32) -> (r:
        PatternId)
        requires
            self.wf(*global_stats),
            global_stats.wf(),
            remaining < self.stats.sum_compatible_pattern_weight,
        ensures
            r < global_stats.spec_num_patterns(),
            self.spec_admits(r as int),
            global_stats.pattern_weights.table@[r as int] is Some,
            spec_sum_weight_admitted(
                self.spec_num_ways(),
                global_stats.pattern_weights.table@,
                r as int,
            ) <= remaining < spec_sum_weight_admitted(
                self.spec_num_ways(),
                global_stats.pattern_weights.table@,
                r as int + 1,
            ),
    {
        let ghost s = self.spec_num_ways();
        let ghost w = global_stats.pattern_weights.table@;
        let ghost np = global_stats.spec_num_patterns();
        let ghost remaining0 = remaining as int;
        let mut rem = remaining;
        let n = global_stats.num_patterns();
        let mut i: usize = 0;
        while i < n
            invariant
                self.wf(*global_stats),
                global_stats.wf(),
                s == self.spec_num_ways(),
                w == global_stats.pattern_weights.table@,
                np == global_stats.spec_num_patterns(),
                n == np,
                i <= n,
                remaining0 < self.stats.sum_compatible_pattern_weight,
                remaining == remaining0,
                rem == remaining0 - spec_sum_weight_admitted(s, w, i as int),
                spec_sum_weight_admitted(s, w, i as int) <= remaining0,
            decreases n - i,
        {
            if !self.num_ways_to_become_each_pattern.get(i as u32).is_zero() {
                match *global_stats.pattern_stats(i as u32) {
                    Some(pattern_stats) => {
                        if rem >= pattern_stats.weight {
                            rem = rem - pattern_stats.weight;
                        } else {
                            proof {
                                assert(spec_sum_weight_admitted(s, w, i as int + 1)
                                    == spec_sum_weight_admitted(s, w, i as int)
                                    + pattern_stats.weight as int);
                            }
                            return i as u32;
                        }
                    },
                    None => (),
                }
            }
            i = i + 1;
        }
        proof {
            assert(spec_sum_weight_admitted(s, w, np) == self.stats.sum_compatible_pattern_weight);
            assert(false);
        }
        0
    }

    /// Samples an admitted weighted pattern, each with probability
    /// proportional to its weight under the generator's uniform draw.
    pub fn choose_pattern_id(
        &self,
        global_stats: &GlobalStats,
        rng: &mut rand_xorshift::XorShiftRng,
    ) -> (r: PatternId)
        requires
            self.wf(*global_stats),
            global_stats.wf(),
            self.stats.num_weighted_compatible_patterns >= 1,
        ensures
            r < global_stats.spec_num_patterns(),
            self.spec_admits(r as int),
            global_stats.pattern_weights.table@[r as int] is Some,
    {
        proof {
            lemma_weighted_count_below_sum(
                self.spec_num_ways(),
                global_stats.pattern_weights.table@,
                global_stats.spec_num_patterns(),
            );
        }
        let remaining = crate::rng::rng_below(rng, self.stats.sum_compatible_pattern_weight);
        self.pick_weighted_pattern(global_stats, remaining)
    }

    /// This cell's key for the entropy queue, with the current
    /// weighted-pattern count as the staleness snapshot.
    pub fn entropy_with_noise(&self, global_stats: &GlobalStats) -> (r: EntropyWithNoise)
        requires
            self.wf(*global_stats),
            global_stats.wf(),
            self.stats.num_weighted_compatible_patterns >= 1,
        ensures
            r.entropy == spec_entropy_fix(
                self.stats.sum_compatible_pattern_weight as int,
                self.stats.sum_compatible_pattern_weight_log_weight as int,
            ),
            r.noise == self.noise,
            r.num_weighted_compatible_patterns == self.stats.num_weighted_compatible_patterns,
    {
        proof {
            lemma_weighted_count_below_sum(
                self.spec_num_ways(),
                global_stats.pattern_weights.table@,
                global_stats.spec_num_patterns(),
            );
            lemma_aggregates_bounds(
                self.spec_num_ways(),
                global_stats.pattern_weights.table@,
                global_stats.spec_num_patterns(),
            );
            assert(self.stats.sum_compatible_pattern_weight_log_weight
                < 0x20_0000_0000_0000) by (nonlinear_arith)
                requires
                    self.stats.sum_compatible_pattern_weight_log_weight as int
                        <= self.stats.sum_compatible_pattern_weight as int * 0x20_0000,
                    self.stats.sum_compatible_pattern_weight <= u32::MAX,
            ;
        }
        let entropy = entropy_fix(
            self.stats.sum_compatible_pattern_weight,
            self.stats.sum_compatible_pattern_weight_log_weight,
        );
        EntropyWithNoise {
            entropy,
            noise: self.noise,
            num_weighted_compatible_patterns: self.stats.num_weighted_compatible_patterns,
        }
    }

    pub fn sum_compatible_pattern_weight(&self) -> (r: u32)
        ensures
            r == self.stats.sum_compatible_pattern_weight,
    {
        self.stats.sum_compatible_pattern_weight
    }

    pub fn noise(&self) -> (r: u32)
        ensures
            r == self.noise,
    {
        self.noise
    }
}

/// At least one admitted weighted pattern forces a positive weight sum.
pub proof fn lemma_weighted_count_below_sum(
    s: Seq<NumWaysToBecomePattern>,
    w: Seq<Option<PatternWeight>>,
    n: int,
)
    requires
        0 <= n,
        n <= s.len(),
        n <= w.len(),
        forall|i: int|
            0 <= i < n ==> match #[trigger] w[i] {
                Some(pw) => pw.wf(),
                None => true,
            },
    ensures
        spec_count_weighted_admitted(s, w, n) <= spec_sum_weight_admitted(s, w, n),
    decreases n,
{
    lemma_aggregates_bounds(s, w, n);
}

/// A pattern's initial per-direction support counts are all positive: the
/// compatibility list in each direction's opposite is nonempty.
pub open spec fn spec_initially_admissible(global_stats: GlobalStats, i: int) -> bool {
    &&& global_stats.spec_compat(i, CardinalDirection::South).len() > 0
    &&& global_stats.spec_compat(i, CardinalDirection::West).len() > 0
    &&& global_stats.spec_compat(i, CardinalDirection::North).len() > 0
    &&& global_stats.spec_compat(i, CardinalDirection::East).len() > 0
}

/// The admitted-set aggregates never exceed the same sums taken over every
/// pattern: used to rule out overflow while accumulating.
pub proof fn lemma_admitted_below_full(
    s: Seq<NumWaysToBecomePattern>,
    w: Seq<Option<PatternWeight>>,
    n: int,
)
    requires
        n <= s.len(),
        n <= w.len(),
    ensures
        spec_count_weighted_admitted(s, w, n) <= crate::pattern::spec_count_weighted(w, n),
        spec_sum_weight_admitted(s, w, n) <= crate::pattern::spec_sum_weight(w, n),
        spec_sum_wlw_admitted(s, w, n) <= crate::pattern::spec_sum_weight_log_weight(w, n),
    decreases n,
{
    if n > 0 {
        lemma_admitted_below_full(s, w, n - 1);
    }
}

/// Total number of (cell, pattern) admissions over the first `n` cells.
pub open spec fn spec_total_admitted(cells: Seq<WaveCell>, num_patterns: int, n: int) -> int
    decreases n,
{
    if n <= 0 {
        0
    } else {
        spec_total_admitted(cells, num_patterns, n - 1) + spec_count_admitted(
            cells[n - 1].spec_num_ways(),
            num_patterns,
        )
    }
}

/// Replacing one cell shifts the total by that cell's difference.
pub proof fn lemma_total_admitted_update(
    c1: Seq<WaveCell>,
    c2: Seq<WaveCell>,
    num_patterns: int,
    j: int,
    n: int,
)
    requires
        0 <= j < n,
        n <= c1.len(),
        c2.len() == c1.len(),
        forall|i: int| 0 <= i < n && i != j ==> c1[i] == c2[i],
    ensures
        spec_total_admitted(c2, num_patterns, n) == spec_total_admitted(c1, num_patterns, n)
            - spec_count_admitted(c1[j].spec_num_ways(), num_patterns) + spec_count_admitted(
            c2[j].spec_num_ways(),
            num_patterns,
        ),
    decreases n,
{
    if n - 1 == j {
        lemma_total_admitted_congruent(c1, c2, num_patterns, n - 1);
    } else {
        lemma_total_admitted_update(c1, c2, num_patterns, j, n - 1);
    }
}

pub proof fn lemma_total_admitted_congruent(
    c1: Seq<WaveCell>,
    c2: Seq<WaveCell>,
    num_patterns: int,
    n: int,
)
    requires
        n <= c1.len(),
        n <= c2.len(),
        forall|i: int| 0 <= i < n ==> c1[i] == c2[i],
    ensures
        spec_total_admitted(c2, num_patterns, n) == spec_total_admitted(c1, num_patterns, n),
    decreases n,
{
    if n > 0 {
        lemma_total_admitted_congruent(c1, c2, num_patterns, n - 1);
    }
}

pub proof fn lemma_total_admitted_nonneg(cells: Seq<WaveCell>, num_patterns: int, n: int)
    ensures
        spec_total_admitted(cells, num_patterns, n) >= 0,
    decreases n,
{
    if n > 0 {
        lemma_total_admitted_nonneg(cells, num_patterns, n - 1);
        lemma_aggregates_nonneg(cells[n - 1].spec_num_ways(), Seq::empty(), num_patterns);
    }
}

/// The grid of cells of one solve.
pub struct Wave {
    pub grid: Grid<WaveCell>,
}

impl Wave {
    pub open spec fn wf(self, global_stats: GlobalStats) -> bool {
        &&& self.grid.wf()
        &&& self.grid.size.x >= 1
        &&& self.grid.size.y >= 1
        &&& self.grid.size.spec_count() <= u32::MAX
        &&& forall|i: int|
            0 <= i < self.grid.cells@.len() ==> (#[trigger] self.grid.cells@[i]).wf(global_stats)
    }

    /// The solve's termination measure: admissions only ever disappear.
    pub open spec fn spec_total(self, global_stats: GlobalStats) -> int {
        spec_total_admitted(
            self.grid.cells@,
            global_stats.spec_num_patterns(),
            self.grid.cells@.len() as int,
        )
    }

    /// A fresh wave: every cell admits exactly the initially admissible
    /// patterns, with fresh noise drawn from the generator.
    pub fn new(
        size: Size,
        global_stats: &GlobalStats,
        rng: &mut rand_xorshift::XorShiftRng,
    ) -> (r: Wave)
        requires
            global_stats.wf(),
            size.wf(),
            size.x >= 1,
            size.y >= 1,
            size.spec_count() <= u32::MAX,
        ensures
            r.wf(*global_stats),
            r.grid.size == size,
            forall|i: int, p: int|
                0 <= i < r.grid.cells@.len() && 0 <= p < global_stats.spec_num_patterns() ==> ((
                #[trigger] r.grid.cells@[i].spec_admits(p)) <==> spec_initially_admissible(
                    *global_stats,
                    p,
                )),
            forall|i: int, p: int, d: CardinalDirection|
                #![trigger r.grid.cells@[i].spec_num_ways()[p].direction_table.spec_get(d)]
                0 <= i < r.grid.cells@.len() && 0 <= p < global_stats.spec_num_patterns()
                    ==> r.grid.cells@[i].spec_num_ways()[p].direction_table.spec_get(d) as int == (
                if spec_initially_admissible(*global_stats, p) {
                    global_stats.spec_compat(p, d.spec_opposite()).len() as int
                } else {
                    0
                }),
    {
        let count = size.count();
        let mut cells: Vec<WaveCell> = Vec::new();
        let mut i: u64 = 0;
        while i < count
            invariant
                global_stats.wf(),
                i <= count,
                count == size.spec_count(),
                cells@.len() == i,
                forall|j: int| 0 <= j < i ==> (#[trigger] cells@[j]).wf(*global_stats),
                forall|j: int, p: int|
                    0 <= j < i && 0 <= p < global_stats.spec_num_patterns() ==> ((
                    #[trigger] cells@[j].spec_admits(p)) <==> spec_initially_admissible(
                        *global_stats,
                        p,
                    )),
                forall|j: int, p: int, d: CardinalDirection|
                    #![trigger cells@[j].spec_num_ways()[p].direction_table.spec_get(d)]
                    0 <= j < i && 0 <= p < global_stats.spec_num_patterns()
                        ==> cells@[j].spec_num_ways()[p].direction_table.spec_get(d) as int == (
                    if spec_initially_admissible(*global_stats, p) {
                        global_stats.spec_compat(p, d.spec_opposite()).len() as int
                    } else {
                        0
                    }),
            decreases count - i,
        {
            let noise = crate::rng::rng_next_u32(rng);
            let cell = WaveCell::init(global_stats, noise);
            cells.push(cell);
            i = i + 1;
        }
        proof {
            vstd::std_specs::vec::axiom_spec_len(&cells);
        }
        Wave { grid: Grid::from_vec(size, cells) }
    }

    pub fn size(&self) -> (r: Size)
        ensures
            r == self.grid.size,
    {
        self.grid.size()
    }

    pub fn grid(&self) -> (r: &Grid<WaveCell>)
        ensures
            r == &self.grid,
    {
        &self.grid
    }

    pub fn get_checked(&self, coord: crate::coord::Coord) -> (r: &WaveCell)
        requires
            self.grid.wf(),
            coord.spec_is_valid(self.grid.size),
        ensures
            *r == self.grid.spec_get(coord),
    {
        self.grid.get_checked(coord)
    }
}

/// A cell is live while it could still be chosen for observation: at least
/// two admitted patterns, at least one of them weighted.
pub open spec fn spec_live(cell: WaveCell) -> bool {
    cell.num_compatible_patterns >= 2 && cell.stats.num_weighted_compatible_patterns >= 1
}

/// Number of live cells among the first `n`.
pub open spec fn spec_count_live(cells: Seq<WaveCell>, n: int) -> int
    decreases n,
{
    if n <= 0 {
        0
    } else {
        spec_count_live(cells, n - 1) + if spec_live(cells[n - 1]) {
            1int
        } else {
            0int
        }
    }
}

pub proof fn lemma_count_live_update(c1: Seq<WaveCell>, c2: Seq<WaveCell>, j: int, n: int)
    requires
        0 <= j < n,
        n <= c1.len(),
        c2.len() == c1.len(),
        forall|i: int| 0 <= i < n && i != j ==> c1[i] == c2[i],
    ensures
        spec_count_live(c2, n) == spec_count_live(c1, n) - (if spec_live(c1[j]) {
            1int
        } else {
            0int
        }) + (if spec_live(c2[j]) {
            1int
        } else {
            0int
        }),
    decreases n,
{
    if n - 1 == j {
        lemma_count_live_congruent(c1, c2, n - 1);
    } else {
        lemma_count_live_update(c1, c2, j, n - 1);
    }
}

pub proof fn lemma_count_live_congruent(c1: Seq<WaveCell>, c2: Seq<WaveCell>, n: int)
    requires
        n <= c1.len(),
        n <= c2.len(),
        forall|i: int| 0 <= i < n ==> c1[i] == c2[i],
    ensures
        spec_count_live(c2, n) == spec_count_live(c1, n),
    decreases n,
{
    if n > 0 {
        lemma_count_live_congruent(c1, c2, n - 1);
    }
}

pub proof fn lemma_count_live_bounds(cells: Seq<WaveCell>, n: int)
    requires
        0 <= n <= cells.len(),
    ensures
        0 <= spec_count_live(cells, n) <= n,
    decreases n,
{
    if n > 0 {
        lemma_count_live_bounds(cells, n - 1);
    }
}

/// A live cell at `j` makes the live count positive.
pub proof fn lemma_live_contributes(cells: Seq<WaveCell>, n: int, j: int)
    requires
        0 <= j < n,
        n <= cells.len(),
        spec_live(cells[j]),
    ensures
        spec_count_live(cells, n) >= 1,
    decreases n,
{
    if j < n - 1 {
        lemma_live_contributes(cells, n - 1, j);
    } else {
        lemma_count_live_nonneg(cells, n - 1);
    }
}

pub proof fn lemma_count_live_nonneg(cells: Seq<WaveCell>, n: int)
    ensures
        spec_count_live(cells, n) >= 0,
    decreases n,
{
    if n > 0 {
        lemma_count_live_nonneg(cells, n - 1);
    }
}

/// With no live cell, every cell is either decided (at most one admitted
/// pattern) or has only unweighted admissions left.
pub proof fn lemma_no_live_cells(cells: Seq<WaveCell>, n: int, j: int)
    requires
        0 <= j < n,
        n <= cells.len(),
        spec_count_live(cells, n) <= 0,
    ensures
        cells[j].num_compatible_patterns <= 1
            || cells[j].stats.num_weighted_compatible_patterns == 0,
    decreases n,
{
    if spec_live(cells[j]) {
        lemma_live_contributes(cells, n, j);
    }
}

/// With `j` admitted and everything else removed, the count is exactly one.
pub proof fn lemma_count_exact_single(s: Seq<NumWaysToBecomePattern>, n: int, j: int)
    requires
        0 <= j < n,
        n <= s.len(),
        s[j].spec_admitted(),
        forall|q: int| 0 <= q < n && q != j ==> !(#[trigger] s[q]).spec_admitted(),
    ensures
        spec_count_admitted(s, n) == 1,
    decreases n,
{
    if j == n - 1 {
        lemma_none_admitted(s, n - 1);
        lemma_aggregates_nonneg(s, Seq::empty(), n - 1);
    } else {
        lemma_count_exact_single(s, n - 1, j);
    }
}

} // verus!
