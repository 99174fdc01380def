//! The library's stated laws: what holds of every wave a sequence of valid
//! operations can produce, written out as proof functions so a reader sees
//! the statements themselves rather than having to assemble them from the
//! operations' contracts.

use vstd::prelude::*;
use crate::context::Context;
use crate::coord::Coord;
use crate::direction::CardinalDirection;
use crate::overlapping::{lemma_window_compatible_symmetric, OverlappingPatterns};
use crate::pattern::{spec_count_weighted, GlobalStats};
use crate::wave::{
    lemma_no_live_cells, spec_count_admitted, spec_count_live, spec_count_weighted_admitted,
    spec_sum_weight_admitted, spec_sum_wlw_admitted, Wave, WaveCell,
};
use crate::wrap::Wrap;

verus! {

/// Support/admittance coherence: at every cell, a pattern's four support
/// counts are either all zero or all positive, and the pattern is admitted
/// exactly in the latter case.
pub proof fn lemma_support_admittance_coherence(
    cell: WaveCell,
    global_stats: GlobalStats,
    pattern_id: int,
)
    requires
        cell.wf(global_stats),
        0 <= pattern_id < global_stats.spec_num_patterns(),
    ensures
        cell.spec_admits(pattern_id) ==> cell.spec_num_ways()[pattern_id].direction_table.north
            > 0 && cell.spec_num_ways()[pattern_id].direction_table.east > 0
            && cell.spec_num_ways()[pattern_id].direction_table.south > 0
            && cell.spec_num_ways()[pattern_id].direction_table.west > 0,
        !cell.spec_admits(pattern_id) ==> cell.spec_num_ways()[pattern_id].direction_table.north
            == 0 && cell.spec_num_ways()[pattern_id].direction_table.east == 0
            && cell.spec_num_ways()[pattern_id].direction_table.south == 0
            && cell.spec_num_ways()[pattern_id].direction_table.west == 0,
{
}

/// Count consistency: the cached per-cell aggregates equal what recomputing
/// them from the admitted set gives.
pub proof fn lemma_count_consistency(cell: WaveCell, global_stats: GlobalStats)
    requires
        cell.wf(global_stats),
    ensures
        cell.num_compatible_patterns == spec_count_admitted(
            cell.spec_num_ways(),
            global_stats.spec_num_patterns(),
        ),
        cell.stats.num_weighted_compatible_patterns == spec_count_weighted_admitted(
            cell.spec_num_ways(),
            global_stats.pattern_weights.table@,
            global_stats.spec_num_patterns(),
        ),
        cell.stats.sum_compatible_pattern_weight == spec_sum_weight_admitted(
            cell.spec_num_ways(),
            global_stats.pattern_weights.table@,
            global_stats.spec_num_patterns(),
        ),
        cell.stats.sum_compatible_pattern_weight_log_weight == spec_sum_wlw_admitted(
            cell.spec_num_ways(),
            global_stats.pattern_weights.table@,
            global_stats.spec_num_patterns(),
        ),
{
}

/// Number of entries of the id list `list` that `cell` admits.
pub open spec fn spec_count_support(list: Seq<u32>, cell: WaveCell, k: int) -> int
    decreases k,
{
    if k <= 0 {
        0
    } else {
        spec_count_support(list, cell, k - 1) + if cell.spec_admits(list[k - 1] as int) {
            1int
        } else {
            0int
        }
    }
}

/// The coordinate one step in `d` from `c` (in unbounded coordinates).
pub open spec fn spec_step(c: Coord, d: CardinalDirection) -> Coord {
    Coord { x: (c.x + d.spec_dx()) as i32, y: (c.y + d.spec_dy()) as i32 }
}

/// Per-direction support counts agree with the neighbourhood: at every cell
/// `c` and direction `d` whose wrapped neighbour exists, a pattern's support
/// count from `d` equals the number of patterns compatible with it in `d`
/// that the neighbour still admits. This is the propagator's working
/// invariant; it is what each support decrement is maintaining.
pub open spec fn spec_support_accurate<W: Wrap>(wave: Wave, global_stats: GlobalStats) -> bool {
    forall|c: Coord, pid: int, d: CardinalDirection|
        #![trigger wave.grid.spec_get(c).spec_num_ways()[pid].direction_table.spec_get(d.spec_opposite())]
        c.spec_is_valid(wave.grid.size) && 0 <= pid < global_stats.spec_num_patterns()
            ==> match W::spec_normalize(spec_step(c, d), wave.grid.size) {
            Some(nc) => wave.grid.spec_get(c).spec_num_ways()[pid].direction_table.spec_get(
                d.spec_opposite(),
            ) == spec_count_support(
                global_stats.spec_compat(pid, d),
                wave.grid.spec_get(nc),
                global_stats.spec_compat(pid, d).len() as int,
            ),
            None => true,
        }
}

/// Neighbourhood consistency at quiescence: wherever the support counts
/// agree with the neighbourhood, every admitted pattern of every cell finds,
/// in each existing wrapped neighbour, at least one admitted pattern it is
/// compatible with.
pub proof fn lemma_neighborhood_consistency<W: Wrap>(
    wave: Wave,
    global_stats: GlobalStats,
    c: Coord,
    pattern_id: int,
    d: CardinalDirection,
    nc: Coord,
)
    requires
        global_stats.wf(),
        wave.wf(global_stats),
        spec_support_accurate::<W>(wave, global_stats),
        c.spec_is_valid(wave.grid.size),
        0 <= pattern_id < global_stats.spec_num_patterns(),
        wave.grid.spec_get(c).spec_admits(pattern_id),
        W::spec_normalize(spec_step(c, d), wave.grid.size) == Some(nc),
    ensures
        exists|k: int|
            0 <= k < global_stats.spec_compat(pattern_id, d).len() && wave.grid.spec_get(
                nc,
            ).spec_admits(#[trigger] global_stats.spec_compat(pattern_id, d)[k] as int),
{
    let list = global_stats.spec_compat(pattern_id, d);
    let cell = wave.grid.spec_get(c);
    let neighbour = wave.grid.spec_get(nc);
    assert(cell.spec_num_ways()[pattern_id].direction_table.spec_get(d.spec_opposite())
        == spec_count_support(list, neighbour, list.len() as int));
    assert(cell.spec_num_ways()[pattern_id].direction_table.spec_get(d.spec_opposite()) > 0) by {
        wave.grid.lemma_index_of_bounds(c);
        assert(wave.grid.cells@[wave.grid.spec_index_of(c)].wf(global_stats));
        assert(cell.spec_num_ways()[pattern_id].wf());
    }
    lemma_count_support_witness(list, neighbour, list.len() as int);
}

proof fn lemma_count_support_witness(list: Seq<u32>, cell: WaveCell, k: int)
    requires
        0 <= k <= list.len(),
        spec_count_support(list, cell, k) > 0,
    ensures
        exists|i: int| 0 <= i < k && cell.spec_admits(#[trigger] list[i] as int),
    decreases k,
{
    if k > 0 {
        if cell.spec_admits(list[k - 1] as int) {
            assert(0 <= k - 1 < k && cell.spec_admits(list[k - 1] as int));
        } else {
            lemma_count_support_witness(list, cell, k - 1);
        }
    }
}

/// Compatibility symmetry at the pattern level: `q` fits one step in `d`
/// from `p` exactly when `p` fits one step the opposite way from `q`.
pub proof fn lemma_compat_ids_symmetric(
    op: OverlappingPatterns,
    i: int,
    q: int,
    d: CardinalDirection,
)
    requires
        0 <= i < op.pattern_table.table@.len(),
        0 <= q < op.pattern_table.table@.len(),
    ensures
        op.spec_compat_ids(i, q, d) == op.spec_compat_ids(q, i, d.spec_opposite()),
{
    lemma_window_compatible_symmetric(
        op.grid,
        op.grid,
        op.pattern_size,
        op.pattern_table.table@[i].coords@[0],
        op.pattern_table.table@[i].orientation,
        op.pattern_table.table@[q].coords@[0],
        op.pattern_table.table@[q].orientation,
        d,
    );
}

/// Compatibility symmetry at the statistics level: in statistics whose
/// adjacency lists mirror the extractor's window agreement (what
/// `global_stats` builds), `q` lies in `p`'s list for `d` exactly when `p`
/// lies in `q`'s list for the opposite direction.
pub proof fn lemma_global_compat_symmetric(
    op: OverlappingPatterns,
    global_stats: GlobalStats,
    i: int,
    q: int,
    d: CardinalDirection,
)
    requires
        global_stats.spec_num_patterns() == op.pattern_table.table@.len(),
        0 <= i < global_stats.spec_num_patterns(),
        0 <= q < global_stats.spec_num_patterns(),
        forall|i2: int, d2: CardinalDirection, q2: int|
            #![trigger global_stats.spec_compat(i2, d2).contains(q2 as u32)]
            0 <= i2 < global_stats.spec_num_patterns() && 0 <= q2
                < global_stats.spec_num_patterns() ==> (global_stats.spec_compat(i2, d2).contains(
                q2 as u32,
            ) <==> op.spec_compat_ids(i2, q2, d2)),
    ensures
        global_stats.spec_compat(i, d).contains(q as u32) <==> global_stats.spec_compat(
            q,
            d.spec_opposite(),
        ).contains(i as u32),
{
    lemma_compat_ids_symmetric(op, i, q, d);
}

/// Completion means total determinism: while the counter dominates the live
/// cells (as every operation maintains) and it has reached zero, every cell
/// either has at most one admitted pattern or retains only unweighted
/// admissions. The degenerate statistics with fewer than two weighted
/// patterns are trivially complete from the start and are not covered.
pub proof fn lemma_complete_means_decided(ctx: Context, wave: Wave, global_stats: GlobalStats)
    requires
        global_stats.wf(),
        wave.wf(global_stats),
        ctx.wf(wave, global_stats),
        ctx.num_cells_with_more_than_one_weighted_compatible_pattern == 0,
        spec_count_weighted(
            global_stats.pattern_weights.table@,
            global_stats.spec_num_patterns(),
        ) >= 2,
    ensures
        forall|ci: int|
            0 <= ci < wave.grid.cells@.len() ==> (#[trigger] wave.grid.cells@[ci]).num_compatible_patterns
                <= 1 || wave.grid.cells@[ci].stats.num_weighted_compatible_patterns == 0,
{
    let len = wave.grid.cells@.len() as int;
    assert(spec_count_live(wave.grid.cells@, len) <= 0);
    assert forall|ci: int|
        0 <= ci < len implies (#[trigger] wave.grid.cells@[ci]).num_compatible_patterns <= 1
            || wave.grid.cells@[ci].stats.num_weighted_compatible_patterns == 0 by {
        lemma_no_live_cells(wave.grid.cells@, len, ci);
    }
}

/// The supports of a freshly initialized wave: every pattern's count for a
/// direction is the length of its compatibility list in the opposite
/// direction, clamped to zero where the pattern is not initially admissible.
pub open spec fn spec_fresh_supports(wave: Wave, global_stats: GlobalStats) -> bool {
    forall|ci: int, p: int, d: CardinalDirection|
        #![trigger wave.grid.cells@[ci].spec_num_ways()[p].direction_table.spec_get(d)]
        0 <= ci < wave.grid.cells@.len() && 0 <= p < global_stats.spec_num_patterns()
            ==> wave.grid.cells@[ci].spec_num_ways()[p].direction_table.spec_get(d) as int == (
        if crate::wave::spec_initially_admissible(global_stats, p) {
            global_stats.spec_compat(p, d.spec_opposite()).len() as int
        } else {
            0
        })
}

/// Support accuracy holds of a fresh wave whenever every pattern is
/// initially admissible (an initially clamped pattern would leave its
/// absence unpropagated, as the solve's design accepts). The wrap policy
/// must send neighbours onto the grid, which all four policies do.
pub proof fn lemma_fresh_wave_support_accuracy<W: Wrap>(wave: Wave, global_stats: GlobalStats)
    requires
        global_stats.wf(),
        wave.wf(global_stats),
        spec_fresh_supports(wave, global_stats),
        forall|p: int|
            0 <= p < global_stats.spec_num_patterns()
                ==> #[trigger] crate::wave::spec_initially_admissible(global_stats, p),
        forall|c2: Coord, d2: CardinalDirection|
            c2.spec_is_valid(wave.grid.size) ==> (#[trigger] W::spec_normalize(
                spec_step(c2, d2),
                wave.grid.size,
            ) matches Some(nc2) ==> nc2.spec_is_valid(wave.grid.size)),
    ensures
        spec_support_accurate::<W>(wave, global_stats),
{
    let n = global_stats.spec_num_patterns();
    assert forall|c: Coord, pid: int, d: CardinalDirection|
        c.spec_is_valid(wave.grid.size) && 0 <= pid < n implies match W::spec_normalize(
        spec_step(c, d),
        wave.grid.size,
    ) {
        Some(nc) => (#[trigger] wave.grid.spec_get(c).spec_num_ways()[pid].direction_table.spec_get(
            d.spec_opposite(),
        )) == spec_count_support(
            global_stats.spec_compat(pid, d),
            wave.grid.spec_get(nc),
            global_stats.spec_compat(pid, d).len() as int,
        ),
        None => true,
    } by {
        wave.grid.lemma_index_of_bounds(c);
        let cidx = wave.grid.spec_index_of(c);
        match W::spec_normalize(spec_step(c, d), wave.grid.size) {
            Some(nc) => {
                wave.grid.lemma_index_of_bounds(nc);
                let nidx = wave.grid.spec_index_of(nc);
                let list = global_stats.spec_compat(pid, d);
                let neighbour = wave.grid.spec_get(nc);
                assert(d.spec_opposite().spec_opposite() == d);
                assert(wave.grid.cells@[cidx].spec_num_ways()[pid].direction_table.spec_get(
                    d.spec_opposite(),
                ) as int == list.len() as int);
                assert forall|k: int| 0 <= k < list.len() implies neighbour.spec_admits(
                    #[trigger] list[k] as int,
                ) by {
                    let q = list[k] as int;
                    assert(wave.grid.cells@[nidx].spec_num_ways()[q].direction_table.spec_get(
                        CardinalDirection::North,
                    ) as int == global_stats.spec_compat(
                        q,
                        CardinalDirection::South,
                    ).len() as int);
                    assert(global_stats.spec_compat(q, CardinalDirection::South).len() > 0);
                }
                lemma_count_support_all(list, neighbour, list.len() as int);
            },
            None => {},
        }
    }
}

proof fn lemma_count_support_all(list: Seq<u32>, cell: WaveCell, k: int)
    requires
        0 <= k <= list.len(),
        forall|i: int| 0 <= i < k ==> cell.spec_admits(#[trigger] list[i] as int),
    ensures
        spec_count_support(list, cell, k) == k,
    decreases k,
{
    if k > 0 {
        lemma_count_support_all(list, cell, k - 1);
    }
}

} // verus!
