//! The pattern vocabulary: per-pattern weights, per-direction adjacency
//! lists, and the aggregate statistics a solve reads.

use vstd::prelude::*;
use crate::direction::{CardinalDirection, CardinalDirectionTable};
use crate::entropy::{log2_fix, spec_log2_fix};

verus! {

/// A dense index into the pattern table.
pub type PatternId = u32;

/// A vector indexed by `PatternId`.
#[derive(Clone, Debug)]
pub struct PatternTable<T> {
    pub table: Vec<T>,
}

impl<T> PatternTable<T> {
    pub open spec fn view_seq(self) -> Seq<T> {
        self.table@
    }

    pub fn new() -> (r: PatternTable<T>)
        ensures
            r.table@.len() == 0,
    {
        PatternTable { table: Vec::new() }
    }

    pub fn from_vec(table: Vec<T>) -> (r: PatternTable<T>)
        ensures
            r.table == table,
    {
        PatternTable { table }
    }

    pub fn len(&self) -> (r: usize)
        ensures
            r == self.table@.len(),
    {
        self.table.len()
    }

    /// Removes and returns every entry, leaving the table empty.
    pub fn drain(&mut self) -> (r: Vec<T>)
        ensures
            r == old(self).table,
            final(self).table@.len() == 0,
    {
        let mut out: Vec<T> = Vec::new();
        core::mem::swap(&mut out, &mut self.table);
        out
    }

    /// The entries, indexable by `PatternId`.
    pub fn iter(&self) -> (r: &Vec<T>)
        ensures
            r == &self.table,
    {
        &self.table
    }

    /// The entries, for in-place update.
    pub fn iter_mut(&mut self) -> (r: &mut Vec<T>)
        ensures
            *r == old(self).table,
            final(self).table == *final(r),
    {
        &mut self.table
    }

    pub fn get(&self, pattern_id: PatternId) -> (r: &T)
        requires
            pattern_id < self.table@.len(),
        ensures
            *r == self.table@[pattern_id as int],
    {
        &self.table[pattern_id as usize]
    }

    pub fn get_mut(&mut self, pattern_id: PatternId) -> (r: &mut T)
        requires
            pattern_id < old(self).table@.len(),
        ensures
            *r == old(self).table@[pattern_id as int],
            final(self).table@ == old(self).table@.update(pattern_id as int, *final(r)),
    {
        &mut self.table[pattern_id as usize]
    }

    pub fn push(&mut self, value: T)
        ensures
            final(self).table@ == old(self).table@.push(value),
    {
        self.table.push(value);
    }
}

impl<T: Clone> PatternTable<T> {
    /// Grows or shrinks the table to `size` entries, filling with clones of
    /// `value`; existing entries below `size` are kept.
    pub fn resize(&mut self, size: usize, value: T)
        ensures
            final(self).table@.len() == size,
            forall|i: int|
                0 <= i < size && i < old(self).table@.len() ==> final(self).table@[i] == old(self).table@[i],
            forall|i: int|
                old(self).table@.len() <= i < size ==> vstd::pervasive::cloned::<T>(
                    value,
                    #[trigger] final(self).table@[i],
                ),
    {
        self.table.resize(size, value);
    }
}

impl<T: Copy> PatternTable<T> {
    /// The entries paired with their ids, in id order.
    pub fn enumerate(&self) -> (r: Vec<(PatternId, T)>)
        requires
            self.table@.len() <= u32::MAX,
        ensures
            r@.len() == self.table@.len(),
            forall|i: int|
                0 <= i < r@.len() ==> (#[trigger] r@[i]).0 == i && r@[i].1 == self.table@[i],
    {
        let mut out: Vec<(PatternId, T)> = Vec::new();
        let mut i: usize = 0;
        let n = self.table.len();
        while i < n
            invariant
                i <= n,
                n == self.table@.len() <= u32::MAX,
                out@.len() == i,
                forall|j: int|
                    0 <= j < i ==> (#[trigger] out@[j]).0 == j && out@[j].1 == self.table@[j],
            decreases n - i,
        {
            out.push(((i as u32), self.table[i]));
            i = i + 1;
        }
        out
    }
}

/// The weight of a sampleable pattern: a positive count and its fixed-point
/// `w * log2(w)`, the pattern's contribution to entropy sums.
#[derive(Clone, Copy, Debug)]
pub struct PatternWeight {
    pub weight: u32,
    pub weight_log_weight: u64,
}

impl PatternWeight {
    pub open spec fn wf(self) -> bool {
        &&& self.weight >= 1
        &&& self.weight_log_weight == self.weight * spec_log2_fix(self.weight as int)
    }

    pub fn new(weight: u32) -> (r: PatternWeight)
        requires
            weight >= 1,
        ensures
            r.wf(),
            r.weight == weight,
    {
        let lg = log2_fix(weight);
        proof {
            assert((weight as int) * (lg as int) < 0x1_0000_0000 * 0x20_0000)
                by (nonlinear_arith)
                requires
                    weight < 0x1_0000_0000,
                    0 <= lg < 0x20_0000,
            ;
        }
        PatternWeight { weight, weight_log_weight: (weight as u64) * lg }
    }

    pub fn weight(&self) -> (r: u32)
        ensures
            r == self.weight,
    {
        self.weight
    }

    pub fn weight_log_weight(&self) -> (r: u64)
        ensures
            r == self.weight_log_weight,
    {
        self.weight_log_weight
    }
}

/// What a caller states about one pattern: an optional positive weight and,
/// for each direction, the sorted list of patterns allowed one step away.
#[derive(Clone, Debug)]
pub struct PatternDescription {
    pub weight: Option<u32>,
    pub allowed_neighbours: CardinalDirectionTable<Vec<PatternId>>,
}

impl PatternDescription {
    pub fn new(weight: Option<u32>, allowed_neighbours: CardinalDirectionTable<Vec<PatternId>>)
        -> (r: PatternDescription)
        requires
            weight matches Some(w) ==> w >= 1,
        ensures
            r.weight == weight,
            r.allowed_neighbours == allowed_neighbours,
    {
        PatternDescription { weight, allowed_neighbours }
    }
}

/// A strictly increasing id list whose entries are below `n`.
pub open spec fn spec_id_list_wf(s: Seq<PatternId>, n: int) -> bool {
    &&& forall|i: int| 0 <= i < s.len() ==> s[i] < n
    &&& forall|i: int, j: int| 0 <= i < j < s.len() ==> s[i] < s[j]
}

/// Number of `Some` weights among the first `n` entries.
pub open spec fn spec_count_weighted(s: Seq<Option<PatternWeight>>, n: int) -> int
    decreases n,
{
    if n <= 0 {
        0
    } else {
        spec_count_weighted(s, n - 1) + if s[n - 1] is Some {
            1int
        } else {
            0int
        }
    }
}

/// Sum of the weights among the first `n` entries.
pub open spec fn spec_sum_weight(s: Seq<Option<PatternWeight>>, n: int) -> int
    decreases n,
{
    if n <= 0 {
        0
    } else {
        spec_sum_weight(s, n - 1) + match s[n - 1] {
            Some(w) => w.weight as int,
            None => 0,
        }
    }
}

/// Sum of the fixed-point `w * log2(w)` among the first `n` entries.
pub open spec fn spec_sum_weight_log_weight(s: Seq<Option<PatternWeight>>, n: int) -> int
    decreases n,
{
    if n <= 0 {
        0
    } else {
        spec_sum_weight_log_weight(s, n - 1) + match s[n - 1] {
            Some(w) => w.weight_log_weight as int,
            None => 0,
        }
    }
}

/// The immutable statistics of a solve: per-pattern weights, the
/// compatibility relation, and their precomputed aggregates.
pub struct GlobalStats {
    pub pattern_weights: PatternTable<Option<PatternWeight>>,
    pub compatibility_per_pattern: PatternTable<CardinalDirectionTable<Vec<PatternId>>>,
    pub num_weighted_patterns: u32,
    pub sum_pattern_weight: u32,
    pub sum_pattern_weight_log_weight: u64,
}

impl GlobalStats {
    pub open spec fn spec_num_patterns(self) -> int {
        self.pattern_weights.table@.len() as int
    }

    /// The ids compatible with `pattern_id` one step in `direction`.
    pub open spec fn spec_compat(self, pattern_id: int, direction: CardinalDirection) -> Seq<
        PatternId,
    > {
        self.compatibility_per_pattern.table@[pattern_id].spec_get(direction)@
    }

    pub open spec fn wf(self) -> bool {
        &&& self.pattern_weights.table@.len() <= u32::MAX
        &&& self.compatibility_per_pattern.table@.len() == self.spec_num_patterns()
        &&& forall|i: int|
            0 <= i < self.spec_num_patterns() ==> match #[trigger] self.pattern_weights.table@[i] {
                Some(w) => w.wf(),
                None => true,
            }
        &&& forall|i: int, d: CardinalDirection|
            0 <= i < self.spec_num_patterns() ==> spec_id_list_wf(
                #[trigger] self.spec_compat(i, d),
                self.spec_num_patterns(),
            )
        &&& self.num_weighted_patterns == spec_count_weighted(
            self.pattern_weights.table@,
            self.spec_num_patterns(),
        )
        &&& self.sum_pattern_weight == spec_sum_weight(
            self.pattern_weights.table@,
            self.spec_num_patterns(),
        )
        &&& self.sum_pattern_weight_log_weight == spec_sum_weight_log_weight(
            self.pattern_weights.table@,
            self.spec_num_patterns(),
        )
    }

    pub fn num_weighted_patterns(&self) -> (r: u32)
        ensures
            r == self.num_weighted_patterns,
    {
        self.num_weighted_patterns
    }

    pub fn sum_pattern_weight(&self) -> (r: u32)
        ensures
            r == self.sum_pattern_weight,
    {
        self.sum_pattern_weight
    }

    pub fn sum_pattern_weight_log_weight(&self) -> (r: u64)
        ensures
            r == self.sum_pattern_weight_log_weight,
    {
        self.sum_pattern_weight_log_weight
    }

    pub fn num_patterns(&self) -> (r: usize)
        ensures
            r == self.spec_num_patterns(),
    {
        self.pattern_weights.len()
    }

    pub fn pattern_stats(&self, pattern_id: PatternId) -> (r: &Option<PatternWeight>)
        requires
            pattern_id < self.spec_num_patterns(),
        ensures
            *r == self.pattern_weights.table@[pattern_id as int],
    {
        self.pattern_weights.get(pattern_id)
    }

    pub fn compatible_patterns_in_direction(
        &self,
        pattern_id: PatternId,
        direction: CardinalDirection,
    ) -> (r: &Vec<PatternId>)
        requires
            self.wf(),
            pattern_id < self.spec_num_patterns(),
        ensures
            r@ == self.spec_compat(pattern_id as int, direction),
    {
        self.compatibility_per_pattern.get(pattern_id).get(direction)
    }

    /// The initial per-direction support of `pattern_id`: how many patterns
    /// in the neighbour one step in each direction admit it, i.e. the length
    /// of the compatibility list in the opposite direction.
    pub fn num_ways_to_become_pattern(&self, pattern_id: PatternId) -> (r: CardinalDirectionTable<
        u32,
    >)
        requires
            self.wf(),
            pattern_id < self.spec_num_patterns(),
        ensures
            forall|d: CardinalDirection|
                #[trigger] r.spec_get(d) == self.spec_compat(
                    pattern_id as int,
                    d.spec_opposite(),
                ).len(),
    {
        let compat = self.compatibility_per_pattern.get(pattern_id);
        proof {
            assert forall|d: CardinalDirection| #[trigger]
                self.spec_compat(pattern_id as int, d).len() <= u32::MAX by {
                lemma_id_list_len(
                    self.spec_compat(pattern_id as int, d),
                    self.spec_num_patterns(),
                );
            }
        }
        CardinalDirectionTable {
            north: compat.get(CardinalDirection::South).len() as u32,
            east: compat.get(CardinalDirection::West).len() as u32,
            south: compat.get(CardinalDirection::North).len() as u32,
            west: compat.get(CardinalDirection::East).len() as u32,
        }
    }

    /// Builds the statistics from per-pattern descriptions. Inputs a solve
    /// would trip over are left out: id lists must be strictly increasing and
    /// in range, weights positive, and the total weight must fit in `u32`.
    pub fn new(pattern_descriptions: PatternTable<PatternDescription>) -> (r: GlobalStats)
        requires
            pattern_descriptions.table@.len() <= u32::MAX,
            forall|i: int|
                0 <= i < pattern_descriptions.table@.len() ==> (
                #[trigger] pattern_descriptions.table@[i].weight matches Some(w) ==> w >= 1),
            forall|i: int, d: CardinalDirection|
                0 <= i < pattern_descriptions.table@.len() ==> spec_id_list_wf(
                    #[trigger] pattern_descriptions.table@[i].allowed_neighbours.spec_get(d)@,
                    pattern_descriptions.table@.len() as int,
                ),
            spec_sum_desc_weight(pattern_descriptions.table@, pattern_descriptions.table@.len()
                as int) <= u32::MAX,
        ensures
            r.wf(),
            r.spec_num_patterns() == pattern_descriptions.table@.len(),
            forall|i: int|
                0 <= i < r.spec_num_patterns() ==> #[trigger] r.compatibility_per_pattern.table@[i]
                    == pattern_descriptions.table@[i].allowed_neighbours,
            forall|i: int|
                0 <= i < r.spec_num_patterns() ==> match pattern_descriptions.table@[i].weight {
                    Some(w) => (#[trigger] r.pattern_weights.table@[i]) matches Some(pw)
                        && pw.weight == w && pw.wf(),
                    None => r.pattern_weights.table@[i] is None,
                },
    {
        let ghost descs = pattern_descriptions.table@;
        let n = pattern_descriptions.len();
        let mut pattern_descriptions = pattern_descriptions;
        let mut weights: PatternTable<Option<PatternWeight>> = PatternTable::new();
        let mut compat: PatternTable<CardinalDirectionTable<Vec<PatternId>>> = PatternTable::new();
        let mut num_weighted: u32 = 0;
        let mut sum_weight: u32 = 0;
        let mut sum_wlw: u64 = 0;
        let mut items = pattern_descriptions.drain();
        let mut i: usize = 0;
        while i < n
            invariant
                n == descs.len() <= u32::MAX,
                items@ =~= descs.subrange(i as int, n as int),
                i <= n,
                weights.table@.len() == i,
                compat.table@.len() == i,
                forall|j: int|
                    0 <= j < i ==> #[trigger] compat.table@[j] == descs[j].allowed_neighbours,
                forall|j: int|
                    0 <= j < i ==> match descs[j].weight {
                        Some(w) => (#[trigger] weights.table@[j]) matches Some(pw) && pw.weight
                            == w && pw.wf(),
                        None => weights.table@[j] is None,
                    },
                forall|j: int|
                    0 <= j < descs.len() ==> (#[trigger] descs[j].weight matches Some(w) ==> w
                        >= 1),
                spec_sum_desc_weight(descs, n as int) <= u32::MAX,
                num_weighted <= i,
                num_weighted == spec_count_weighted(weights.table@, i as int),
                sum_weight == spec_sum_weight(weights.table@, i as int),
                sum_weight == spec_sum_desc_weight(descs, i as int),
                sum_wlw == spec_sum_weight_log_weight(weights.table@, i as int),
                sum_wlw <= sum_weight as int * 0x20_0000,
            decreases n - i,
        {
            proof {
                lemma_sum_desc_weight_monotonic(descs, i + 1, n as int);
            }
            let item = items.remove(0);
            proof {
                assert(item == descs[i as int]);
            }
            let entry: Option<PatternWeight> = match item.weight {
                Some(w) => {
                    let pw = PatternWeight::new(w);
                    num_weighted = num_weighted + 1;
                    proof {
                        crate::entropy::lemma_log2_fix_range(w as int);
                        assert(pw.weight_log_weight <= w as int * 0x20_0000) by (nonlinear_arith)
                            requires
                                pw.weight_log_weight == (w as int) * spec_log2_fix(w as int),
                                1 <= w,
                                0 <= spec_log2_fix(w as int) <= 0x20_0000,
                        ;
                        assert((sum_weight + w) as int * 0x20_0000 == sum_weight as int * 0x20_0000
                            + w as int * 0x20_0000) by (nonlinear_arith);
                        assert((sum_weight + w) as int * 0x20_0000 <= 0x1_0000_0000 * 0x20_0000)
                            by (nonlinear_arith)
                            requires
                                0 <= sum_weight as int + w as int <= u32::MAX as int + 1,
                        ;
                    }
                    sum_weight = sum_weight + w;
                    sum_wlw = sum_wlw + pw.weight_log_weight();
                    Some(pw)
                },
                None => None,
            };
            let ghost weights_before = weights.table@;
            weights.push(entry);
            compat.push(item.allowed_neighbours);
            proof {
                lemma_count_weighted_prefix(weights_before, weights.table@, i as int);
                lemma_sum_weight_prefix(weights_before, weights.table@, i as int);
                lemma_sum_weight_log_weight_prefix(weights_before, weights.table@, i as int);
            }
            i = i + 1;
            proof {
                assert(items@ =~= descs.subrange(i as int, n as int));
            }
        }
        GlobalStats {
            pattern_weights: weights,
            compatibility_per_pattern: compat,
            num_weighted_patterns: num_weighted,
            sum_pattern_weight: sum_weight,
            sum_pattern_weight_log_weight: sum_wlw,
        }
    }
}

/// Sum of the declared weights among the first `n` descriptions.
pub open spec fn spec_sum_desc_weight(s: Seq<PatternDescription>, n: int) -> int
    decreases n,
{
    if n <= 0 {
        0
    } else {
        spec_sum_desc_weight(s, n - 1) + match s[n - 1].weight {
            Some(w) => w as int,
            None => 0,
        }
    }
}

proof fn lemma_sum_desc_weight_monotonic(s: Seq<PatternDescription>, m: int, n: int)
    requires
        0 <= m <= n <= s.len(),
        forall|j: int| 0 <= j < s.len() ==> (#[trigger] s[j].weight matches Some(w) ==> w >= 1),
    ensures
        spec_sum_desc_weight(s, m) <= spec_sum_desc_weight(s, n),
    decreases n - m,
{
    if m < n {
        lemma_sum_desc_weight_monotonic(s, m, n - 1);
    }
}

/// A strictly increasing list of ids below `n` has at most `n` entries.
pub proof fn lemma_id_list_len(s: Seq<PatternId>, n: int)
    requires
        spec_id_list_wf(s, n),
        0 <= n,
    ensures
        s.len() <= n,
{
    if s.len() > n {
        // pigeonhole on strictly increasing entries: s[i] >= s[0] + i >= i
        assert forall|i: int| 0 <= i < s.len() implies s[i] >= i by {
            lemma_id_list_lower_bound(s, n, i);
        }
        assert(s[n] >= n);
    }
}

proof fn lemma_id_list_lower_bound(s: Seq<PatternId>, n: int, i: int)
    requires
        spec_id_list_wf(s, n),
        0 <= i < s.len(),
    ensures
        s[i] >= i,
    decreases i,
{
    if i > 0 {
        lemma_id_list_lower_bound(s, n, i - 1);
        assert(s[i - 1] < s[i]);
    }
}


/// Two sequences equal on their first `n` entries have equal prefix counts.
proof fn lemma_count_weighted_prefix(
    s1: Seq<Option<PatternWeight>>,
    s2: Seq<Option<PatternWeight>>,
    n: int,
)
    requires
        n <= s1.len(),
        n <= s2.len(),
        forall|j: int| 0 <= j < n ==> s1[j] == s2[j],
    ensures
        spec_count_weighted(s1, n) == spec_count_weighted(s2, n),
    decreases n,
{
    if n > 0 {
        lemma_count_weighted_prefix(s1, s2, n - 1);
    }
}

proof fn lemma_sum_weight_prefix(
    s1: Seq<Option<PatternWeight>>,
    s2: Seq<Option<PatternWeight>>,
    n: int,
)
    requires
        n <= s1.len(),
        n <= s2.len(),
        forall|j: int| 0 <= j < n ==> s1[j] == s2[j],
    ensures
        spec_sum_weight(s1, n) == spec_sum_weight(s2, n),
    decreases n,
{
    if n > 0 {
        lemma_sum_weight_prefix(s1, s2, n - 1);
    }
}

proof fn lemma_sum_weight_log_weight_prefix(
    s1: Seq<Option<PatternWeight>>,
    s2: Seq<Option<PatternWeight>>,
    n: int,
)
    requires
        n <= s1.len(),
        n <= s2.len(),
        forall|j: int| 0 <= j < n ==> s1[j] == s2[j],
    ensures
        spec_sum_weight_log_weight(s1, n) == spec_sum_weight_log_weight(s2, n),
    decreases n,
{
    if n > 0 {
        lemma_sum_weight_log_weight_prefix(s1, s2, n - 1);
    }
}


/// Prefix sums over the weight table grow with the prefix.
pub proof fn lemma_full_sums_monotonic(w: Seq<Option<PatternWeight>>, m: int, n: int)
    requires
        0 <= m <= n <= w.len(),
    ensures
        spec_count_weighted(w, m) <= spec_count_weighted(w, n),
        spec_sum_weight(w, m) <= spec_sum_weight(w, n),
        spec_sum_weight_log_weight(w, m) <= spec_sum_weight_log_weight(w, n),
    decreases n - m,
{
    if m < n {
        lemma_full_sums_monotonic(w, m, n - 1);
    }
}

} // verus!
