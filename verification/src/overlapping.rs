//! The overlapping-pattern model: every `n x n` window of the input grid (in
//! every requested orientation) becomes a pattern; two patterns may sit one
//! step apart exactly when their windows agree on the overlap.

use vstd::prelude::*;
use crate::coord::{Coord, Size};
use crate::direction::CardinalDirection;
use crate::grid::Grid;
use crate::orientation::Orientation;
use crate::tiled_slice::TiledGridSlice;

verus! {

/// Where the two windows are anchored when deciding `direction`-adjacency:
/// the second window is slid one step in `direction`, and the windows are
/// compared on the region where they still overlap.
pub open spec fn spec_offsets(direction: CardinalDirection) -> (Coord, Coord) {
    match direction {
        CardinalDirection::North => (Coord { x: 0, y: 0 }, Coord { x: 0, y: 1 }),
        CardinalDirection::South => (Coord { x: 0, y: 1 }, Coord { x: 0, y: 0 }),
        CardinalDirection::East => (Coord { x: 1, y: 0 }, Coord { x: 0, y: 0 }),
        CardinalDirection::West => (Coord { x: 0, y: 0 }, Coord { x: 1, y: 0 }),
    }
}

/// The overlap region: one row or one column shorter than the window.
pub open spec fn spec_compare_size(size: Size, direction: CardinalDirection) -> Size {
    match direction {
        CardinalDirection::North => Size { x: size.x, y: (size.y - 1) as u32 },
        CardinalDirection::South => Size { x: size.x, y: (size.y - 1) as u32 },
        CardinalDirection::East => Size { x: (size.x - 1) as u32, y: size.y },
        CardinalDirection::West => Size { x: (size.x - 1) as u32, y: size.y },
    }
}

/// Whether a window of `a_grid` anchored at `a_offset` under
/// `a_orientation` tolerates the like window of `b_grid` one step in
/// `direction`: the two agree on every cell of the overlap region.
pub open spec fn spec_window_compatible(
    a_grid: Grid<u32>,
    b_grid: Grid<u32>,
    size: Size,
    a_offset: Coord,
    a_orientation: Orientation,
    b_offset: Coord,
    b_orientation: Orientation,
    direction: CardinalDirection,
) -> bool {
    forall|c: Coord|
        #![trigger c.spec_is_valid(spec_compare_size(size, direction))]
        c.spec_is_valid(spec_compare_size(size, direction))
            ==> crate::tiled_slice::spec_window_get(
            a_grid,
            size,
            a_offset,
            a_orientation,
            Coord {
                x: (c.x + spec_offsets(direction).0.x) as i32,
                y: (c.y + spec_offsets(direction).0.y) as i32,
            },
        ) == crate::tiled_slice::spec_window_get(
            b_grid,
            size,
            b_offset,
            b_orientation,
            Coord {
                x: (c.x + spec_offsets(direction).1.x) as i32,
                y: (c.y + spec_offsets(direction).1.y) as i32,
            },
        )
}

/// The same adjacency test, phrased over two slices of a grid.
pub open spec fn spec_patterns_compatible<'a>(
    a: TiledGridSlice<'a, u32>,
    b: TiledGridSlice<'a, u32>,
    direction: CardinalDirection,
) -> bool {
    spec_window_compatible(
        *a.grid,
        *b.grid,
        a.size,
        a.offset,
        a.orientation,
        b.offset,
        b.orientation,
        direction,
    )
}

/// Adjacency is symmetric under turning around: the window at `b` fits one
/// step in `direction` from the window at `a` exactly when the one at `a`
/// fits one step the opposite way from the one at `b`.
pub proof fn lemma_window_compatible_symmetric(
    a_grid: Grid<u32>,
    b_grid: Grid<u32>,
    size: Size,
    a_offset: Coord,
    a_orientation: Orientation,
    b_offset: Coord,
    b_orientation: Orientation,
    direction: CardinalDirection,
)
    ensures
        spec_window_compatible(
            a_grid,
            b_grid,
            size,
            a_offset,
            a_orientation,
            b_offset,
            b_orientation,
            direction,
        ) == spec_window_compatible(
            b_grid,
            a_grid,
            size,
            b_offset,
            b_orientation,
            a_offset,
            a_orientation,
            direction.spec_opposite(),
        ),
{
    let od = direction.spec_opposite();
    assert(spec_compare_size(size, direction) == spec_compare_size(size, od));
    if spec_window_compatible(
        a_grid,
        b_grid,
        size,
        a_offset,
        a_orientation,
        b_offset,
        b_orientation,
        direction,
    ) {
        assert forall|c: Coord|
            c.spec_is_valid(spec_compare_size(size, od)) implies crate::tiled_slice::spec_window_get(
            b_grid,
            size,
            b_offset,
            b_orientation,
            Coord { x: (c.x + spec_offsets(od).0.x) as i32, y: (c.y + spec_offsets(od).0.y) as i32 },
        ) == crate::tiled_slice::spec_window_get(
            a_grid,
            size,
            a_offset,
            a_orientation,
            Coord { x: (c.x + spec_offsets(od).1.x) as i32, y: (c.y + spec_offsets(od).1.y) as i32 },
        ) by {
            assert(c.spec_is_valid(spec_compare_size(size, direction)));
        }
    }
    if spec_window_compatible(
        b_grid,
        a_grid,
        size,
        b_offset,
        b_orientation,
        a_offset,
        a_orientation,
        od,
    ) {
        assert forall|c: Coord|
            c.spec_is_valid(spec_compare_size(size, direction)) implies crate::tiled_slice::spec_window_get(
            a_grid,
            size,
            a_offset,
            a_orientation,
            Coord {
                x: (c.x + spec_offsets(direction).0.x) as i32,
                y: (c.y + spec_offsets(direction).0.y) as i32,
            },
        ) == crate::tiled_slice::spec_window_get(
            b_grid,
            size,
            b_offset,
            b_orientation,
            Coord {
                x: (c.x + spec_offsets(direction).1.x) as i32,
                y: (c.y + spec_offsets(direction).1.y) as i32,
            },
        ) by {
            assert(c.spec_is_valid(spec_compare_size(size, od)));
        }
    }
}

/// Decides whether window `b` may sit one step in `direction` from `a`,
/// comparing the overlap cell by cell.
pub fn are_patterns_compatible_slices<'a>(
    a: &TiledGridSlice<'a, u32>,
    b: &TiledGridSlice<'a, u32>,
    b_offset_direction: CardinalDirection,
) -> (r: bool)
    requires
        a.wf(),
        b.wf(),
        a.size == b.size,
        a.size.x >= 1,
        a.size.y >= 1,
    ensures
        r == spec_patterns_compatible(*a, *b, b_offset_direction),
{
    let (a_off, b_off): (Coord, Coord) = match b_offset_direction {
        CardinalDirection::North => (Coord::new(0, 0), Coord::new(0, 1)),
        CardinalDirection::South => (Coord::new(0, 1), Coord::new(0, 0)),
        CardinalDirection::East => (Coord::new(1, 0), Coord::new(0, 0)),
        CardinalDirection::West => (Coord::new(0, 0), Coord::new(1, 0)),
    };
    let compare_w: u32 = match b_offset_direction {
        CardinalDirection::East | CardinalDirection::West => a.size.width() - 1,
        _ => a.size.width(),
    };
    let compare_h: u32 = match b_offset_direction {
        CardinalDirection::North | CardinalDirection::South => a.size.height() - 1,
        _ => a.size.height(),
    };
    let ghost cs = spec_compare_size(a.size, b_offset_direction);
    proof {
        assert(cs.x == compare_w && cs.y == compare_h);
    }
    let mut y: u32 = 0;
    while y < compare_h
        invariant
            a.wf(),
            b.wf(),
            a.size == b.size,
            a.size.x >= 1,
            a.size.y >= 1,
            cs == spec_compare_size(a.size, b_offset_direction),
            cs.x == compare_w,
            cs.y == compare_h,
            (a_off, b_off) == spec_offsets(b_offset_direction),
            y <= compare_h,
            forall|c: Coord|
                #![trigger c.spec_is_valid(cs)]
                c.spec_is_valid(cs) && c.y < y ==> a.spec_get(
                    Coord { x: (c.x + a_off.x) as i32, y: (c.y + a_off.y) as i32 },
                ) == b.spec_get(Coord { x: (c.x + b_off.x) as i32, y: (c.y + b_off.y) as i32 }),
        decreases compare_h - y,
    {
        let mut x: u32 = 0;
        while x < compare_w
            invariant
                a.wf(),
                b.wf(),
                a.size == b.size,
                a.size.x >= 1,
                a.size.y >= 1,
                cs == spec_compare_size(a.size, b_offset_direction),
                cs.x == compare_w,
                cs.y == compare_h,
                (a_off, b_off) == spec_offsets(b_offset_direction),
                y < compare_h,
                x <= compare_w,
                forall|c: Coord|
                    #![trigger c.spec_is_valid(cs)]
                    c.spec_is_valid(cs) && (c.y < y || (c.y == y && c.x < x)) ==> a.spec_get(
                        Coord { x: (c.x + a_off.x) as i32, y: (c.y + a_off.y) as i32 },
                    ) == b.spec_get(
                        Coord { x: (c.x + b_off.x) as i32, y: (c.y + b_off.y) as i32 },
                    ),
            decreases compare_w - x,
        {
            let ca = Coord::new(x as i32 + a_off.x, y as i32 + a_off.y);
            let cb = Coord::new(x as i32 + b_off.x, y as i32 + b_off.y);
            let va = *a.get_checked(ca);
            let vb = *b.get_checked(cb);
            if va != vb {
                proof {
                    let cw = Coord { x: x as i32, y: y as i32 };
                    assert(cw.spec_is_valid(cs));
                }
                return false;
            }
            x = x + 1;
        }
        y = y + 1;
    }
    true
}

/// What an id-grid slot means: the recorded pattern exists, was first seen
/// under this orientation, and names this cell among its occurrence offsets.
pub open spec fn spec_id_entry_ok(
    patterns: Seq<Pattern>,
    grid_size: Size,
    j: int,
    o: Orientation,
    pid: crate::pattern::PatternId,
) -> bool {
    &&& pid < patterns.len()
    &&& patterns[pid as int].orientation == o
    &&& exists|k: int|
        0 <= k < patterns[pid as int].coords@.len() && grid_size.spec_index_of(
            #[trigger] patterns[pid as int].coords@[k],
        ) == j
}

/// The cell values a pattern stands for: its representative window.
pub open spec fn spec_pattern_content(grid: Grid<u32>, size: Size, p: Pattern) -> Seq<u32> {
    crate::tiled_slice::spec_window_view(grid, size, p.coords@[0], p.orientation)
}

/// Number of the first `t` scanned windows (orientation-major, then cell
/// index) whose cell values equal `content`.
pub open spec fn spec_count_matching_windows(
    grid: Grid<u32>,
    size: Size,
    orientations: Seq<Orientation>,
    content: Seq<u32>,
    t: int,
    cell_count: int,
) -> int
    decreases t,
{
    if t <= 0 {
        0
    } else {
        spec_count_matching_windows(grid, size, orientations, content, t - 1, cell_count) + (
        if crate::tiled_slice::spec_window_view(
            grid,
            size,
            grid.size.spec_coord_of_index((t - 1) % cell_count),
            orientations[(t - 1) / cell_count],
        ) == content {
            1int
        } else {
            0int
        })
    }
}

/// The matching count is non-negative.
proof fn lemma_matching_nonneg(
    grid: Grid<u32>,
    size: Size,
    orientations: Seq<Orientation>,
    content: Seq<u32>,
    t: int,
    cell_count: int,
)
    ensures
        spec_count_matching_windows(grid, size, orientations, content, t, cell_count) >= 0,
    decreases t,
{
    if t > 0 {
        lemma_matching_nonneg(grid, size, orientations, content, t - 1, cell_count);
    }
}

/// A positive matching count yields a concrete earlier window.
proof fn lemma_matching_witness(
    grid: Grid<u32>,
    size: Size,
    orientations: Seq<Orientation>,
    content: Seq<u32>,
    t: int,
    cell_count: int,
)
    requires
        spec_count_matching_windows(grid, size, orientations, content, t, cell_count) > 0,
    ensures
        exists|u: int|
            0 <= u < t && crate::tiled_slice::spec_window_view(
                grid,
                size,
                grid.size.spec_coord_of_index(u % cell_count),
                #[trigger] orientations[u / cell_count],
            ) == content,
    decreases t,
{
    if t > 0 {
        if crate::tiled_slice::spec_window_view(
            grid,
            size,
            grid.size.spec_coord_of_index((t - 1) % cell_count),
            orientations[(t - 1) / cell_count],
        ) == content {
            assert(0 <= t - 1 < t);
        } else {
            lemma_matching_witness(grid, size, orientations, content, t - 1, cell_count);
        }
    }
}

/// The window at cell index `ci` under orientation `oi` holds the same cell
/// values as some pattern of the table.
pub open spec fn spec_window_represented(
    grid: Grid<u32>,
    size: Size,
    orientations: Seq<Orientation>,
    patterns: Seq<Pattern>,
    oi: int,
    ci: int,
) -> bool {
    exists|i: int|
        0 <= i < patterns.len() && crate::tiled_slice::spec_window_view(
            grid,
            size,
            grid.size.spec_coord_of_index(ci),
            orientations[oi],
        ) == spec_pattern_content(grid, size, #[trigger] patterns[i])
}

/// `c` is a place the pattern `p` was seen: under some requested
/// orientation, the window anchored at `c` holds exactly `p`'s cell values.
pub open spec fn spec_occurrence_of(
    grid: Grid<u32>,
    size: Size,
    orientations: Seq<Orientation>,
    c: Coord,
    p: Pattern,
) -> bool {
    exists|oi: int|
        0 <= oi < orientations.len() && crate::tiled_slice::spec_window_view(
            grid,
            size,
            c,
            #[trigger] orientations[oi],
        ) == crate::tiled_slice::spec_window_view(grid, size, p.coords@[0], p.orientation)
}

/// One extracted pattern: every offset where its window occurred, how often
/// it occurred, and the orientation it was first seen under. The first
/// offset is the pattern's representative.
#[derive(Clone, Debug)]
pub struct Pattern {
    pub coords: Vec<Coord>,
    pub count: u32,
    pub orientation: Orientation,
}

impl Pattern {
    pub open spec fn wf(self, grid_size: Size) -> bool {
        &&& self.coords@.len() >= 1
        &&& forall|i: int| 0 <= i < self.coords@.len() ==> (#[trigger] self.coords@[i]).spec_is_valid(grid_size)
    }

    /// The representative offset: where the pattern was first seen.
    pub fn coord(&self) -> (r: Coord)
        requires
            self.coords@.len() >= 1,
        ensures
            r == self.coords@[0],
    {
        self.coords[0]
    }

    /// Makes the pattern unsampleable: it stays in the table and in
    /// adjacency lists, but carries no weight.
    pub fn clear_count(&mut self)
        ensures
            final(self).count == 0,
            final(self).coords == old(self).coords,
            final(self).orientation == old(self).orientation,
    {
        self.count = 0;
    }
}

/// Sum of occurrence counts over the first `n` patterns.
pub open spec fn spec_sum_counts(s: Seq<Pattern>, n: int) -> int
    decreases n,
{
    if n <= 0 {
        0
    } else {
        spec_sum_counts(s, n - 1) + s[n - 1].count as int
    }
}

proof fn lemma_sum_counts_congruent(s1: Seq<Pattern>, s2: Seq<Pattern>, n: int)
    requires
        n <= s1.len(),
        n <= s2.len(),
        forall|i: int| 0 <= i < n ==> (#[trigger] s2[i]).count == s1[i].count,
    ensures
        spec_sum_counts(s2, n) == spec_sum_counts(s1, n),
    decreases n,
{
    if n > 0 {
        lemma_sum_counts_congruent(s1, s2, n - 1);
    }
}

proof fn lemma_sum_counts_update(s1: Seq<Pattern>, s2: Seq<Pattern>, j: int, n: int)
    requires
        0 <= j < n,
        n <= s1.len(),
        s2.len() == s1.len(),
        forall|i: int| 0 <= i < n && i != j ==> (#[trigger] s2[i]).count == s1[i].count,
    ensures
        spec_sum_counts(s2, n) == spec_sum_counts(s1, n) - s1[j].count + s2[j].count,
    decreases n,
{
    if n - 1 == j {
        lemma_sum_counts_congruent(s1, s2, n - 1);
    } else {
        lemma_sum_counts_update(s1, s2, j, n - 1);
    }
}

proof fn lemma_sum_counts_nonneg(s: Seq<Pattern>, n: int)
    ensures
        spec_sum_counts(s, n) >= 0,
    decreases n,
{
    if n > 0 {
        lemma_sum_counts_nonneg(s, n - 1);
    }
}

/// Removing one pattern takes exactly its count out of the sum.
proof fn lemma_sum_counts_remove(s: Seq<Pattern>, j: int)
    requires
        0 <= j < s.len(),
    ensures
        spec_sum_counts(s.remove(j), s.len() - 1) == spec_sum_counts(s, s.len() as int) - s[j].count,
    decreases s.len(),
{
    let n = s.len() as int;
    if j == n - 1 {
        lemma_sum_counts_congruent(s, s.remove(j), n - 1);
    } else {
        let t = s.drop_last();
        lemma_sum_counts_remove(t, j);
        assert(t.remove(j) =~= s.remove(j).drop_last());
        lemma_sum_counts_congruent(t.remove(j), s.remove(j), n - 2);
        lemma_sum_counts_congruent(t, s, n - 1);
        assert(s.remove(j)[n - 2] == s[n - 1]);
    }
}

/// The id order of extracted patterns: representative offsets compared by
/// `x`, then `y`.
pub open spec fn spec_coord_key_le(a: Coord, b: Coord) -> bool {
    a.x < b.x || (a.x == b.x && a.y <= b.y)
}

fn coord_key_le(a: Coord, b: Coord) -> (r: bool)
    ensures
        r == spec_coord_key_le(a, b),
{
    a.x < b.x || (a.x == b.x && a.y <= b.y)
}

/// The learned vocabulary: the input grid, the window size, and the
/// deduplicated patterns.
pub struct OverlappingPatterns {
    pub pattern_table: crate::pattern::PatternTable<Pattern>,
    pub pattern_size: Size,
    pub grid: Grid<u32>,
}

impl OverlappingPatterns {
    pub open spec fn wf(self) -> bool {
        &&& self.grid.wf()
        &&& self.grid.size.x >= 1
        &&& self.grid.size.y >= 1
        &&& self.pattern_size.wf()
        &&& self.pattern_size.x >= 1
        &&& self.pattern_size.y >= 1
        &&& self.pattern_table.table@.len() <= u32::MAX
        &&& forall|i: int|
            0 <= i < self.pattern_table.table@.len() ==> (#[trigger] self.pattern_table.table@[i]).wf(
                self.grid.size,
            )
        &&& spec_sum_counts(self.pattern_table.table@, self.pattern_table.table@.len() as int)
            <= u32::MAX
    }

    /// The window this pattern reads, as a slice of the input grid.
    pub fn pattern_slice<'a>(&'a self, pattern_id: crate::pattern::PatternId) -> (r:
        TiledGridSlice<'a, u32>)
        requires
            self.wf(),
            pattern_id < self.pattern_table.table@.len(),
        ensures
            r.wf(),
            r.grid == &self.grid,
            r.size == self.pattern_size,
            r.offset == self.pattern_table.table@[pattern_id as int].coords@[0],
            r.orientation == self.pattern_table.table@[pattern_id as int].orientation,
    {
        let pattern = self.pattern_table.get(pattern_id);
        TiledGridSlice::new(&self.grid, pattern.coord(), self.pattern_size, pattern.orientation)
    }

    /// Learns the pattern set of `grid`: every window offset under every
    /// requested orientation, deduplicated by cell content; each pattern
    /// counts its occurrences and remembers every offset it occurred at.
    /// The occurrence counts sum to exactly (number of cells) times (number
    /// of orientations).
    pub fn new(grid: Grid<u32>, pattern_size: Size, orientations: &Vec<Orientation>) -> (r:
        OverlappingPatterns)
        requires
            grid.wf(),
            grid.size.x >= 1,
            grid.size.y >= 1,
            pattern_size.wf(),
            pattern_size.x >= 1,
            pattern_size.y >= 1,
            orientations@.len() >= 1,
            grid.size.spec_count() * orientations@.len() <= u32::MAX,
        ensures
            r.wf(),
            r.grid == grid,
            r.pattern_size == pattern_size,
            spec_sum_counts(r.pattern_table.table@, r.pattern_table.table@.len() as int)
                == grid.size.spec_count() * orientations@.len(),
            r.pattern_table.table@.len() >= 1,
            forall|i: int|
                0 <= i < r.pattern_table.table@.len() ==> (#[trigger] r.pattern_table.table@[i]).count
                    >= 1,
            forall|i: int, j: int|
                0 <= i < j < r.pattern_table.table@.len() ==> spec_coord_key_le(
                    (#[trigger] r.pattern_table.table@[i]).coords@[0],
                    (#[trigger] r.pattern_table.table@[j]).coords@[0],
                ),
            forall|i: int, k: int|
                #![trigger r.pattern_table.table@[i].coords@[k]]
                0 <= i < r.pattern_table.table@.len() && 0 <= k
                    < r.pattern_table.table@[i].coords@.len() ==> spec_occurrence_of(
                    grid,
                    pattern_size,
                    orientations@,
                    r.pattern_table.table@[i].coords@[k],
                    r.pattern_table.table@[i],
                ),
            forall|i: int, j: int|
                0 <= i < j < r.pattern_table.table@.len() ==> spec_pattern_content(
                    grid,
                    pattern_size,
                    (#[trigger] r.pattern_table.table@[i]),
                ) != spec_pattern_content(grid, pattern_size, (#[trigger] r.pattern_table.table@[j])),
            forall|oi: int, ci: int|
                0 <= oi < orientations@.len() && 0 <= ci < grid.size.spec_count()
                    ==> #[trigger] spec_window_represented(
                    grid,
                    pattern_size,
                    orientations@,
                    r.pattern_table.table@,
                    oi,
                    ci,
                ),
            forall|i: int|
                0 <= i < r.pattern_table.table@.len() ==> (#[trigger] r.pattern_table.table@[i]).count
                    as int == spec_count_matching_windows(
                    grid,
                    pattern_size,
                    orientations@,
                    spec_pattern_content(grid, pattern_size, r.pattern_table.table@[i]),
                    orientations@.len() * grid.size.spec_count(),
                    grid.size.spec_count(),
                ),
            forall|i: int|
                0 <= i < r.pattern_table.table@.len() ==> (#[trigger] r.pattern_table.table@[i]).count
                    as int == r.pattern_table.table@[i].coords@.len(),
    {
        let mut patterns: Vec<Pattern> = Vec::new();
        let num_orientations = orientations.len();
        let cell_count = grid.size().count();
        proof {
            assert(grid.size.x as int * grid.size.y as int >= 1) by (nonlinear_arith)
                requires
                    grid.size.x >= 1,
                    grid.size.y >= 1,
            ;
        }
        let mut oi: usize = 0;
        while oi < num_orientations
            invariant
                grid.wf(),
                grid.size.x >= 1,
                grid.size.y >= 1,
                pattern_size.wf(),
                pattern_size.x >= 1,
                pattern_size.y >= 1,
                oi <= num_orientations,
                num_orientations == orientations@.len(),
                cell_count == grid.size.spec_count(),
                cell_count >= 1,
                grid.size.spec_count() * orientations@.len() <= u32::MAX,
                patterns@.len() <= u32::MAX,
                spec_sum_counts(patterns@, patterns@.len() as int) == cell_count as int * oi as int,
                forall|i: int| 0 <= i < patterns@.len() ==> (#[trigger] patterns@[i]).wf(grid.size),
                forall|i: int| 0 <= i < patterns@.len() ==> (#[trigger] patterns@[i]).count >= 1,
                oi >= 1 ==> patterns@.len() >= 1,
                forall|i2: int, k: int|
                    #![trigger patterns@[i2].coords@[k]]
                    0 <= i2 < patterns@.len() && 0 <= k < patterns@[i2].coords@.len()
                        ==> spec_occurrence_of(
                        grid,
                        pattern_size,
                        orientations@,
                        patterns@[i2].coords@[k],
                        patterns@[i2],
                    ),
                forall|i2: int, j2: int|
                    0 <= i2 < j2 < patterns@.len() ==> spec_pattern_content(
                        grid,
                        pattern_size,
                        (#[trigger] patterns@[i2]),
                    ) != spec_pattern_content(grid, pattern_size, (#[trigger] patterns@[j2])),
                forall|oi2: int, ci2: int|
                    0 <= oi2 < oi && 0 <= ci2 < grid.size.spec_count()
                        ==> #[trigger] spec_window_represented(
                        grid,
                        pattern_size,
                        orientations@,
                        patterns@,
                        oi2,
                        ci2,
                    ),
                forall|i2: int|
                    0 <= i2 < patterns@.len() ==> (#[trigger] patterns@[i2]).count as int
                        == spec_count_matching_windows(
                        grid,
                        pattern_size,
                        orientations@,
                        spec_pattern_content(grid, pattern_size, patterns@[i2]),
                        oi as int * cell_count as int,
                        cell_count as int,
                    ),
                forall|i2: int|
                    0 <= i2 < patterns@.len() ==> (#[trigger] patterns@[i2]).count as int == patterns@[
                        i2
                    ].coords@.len(),
            decreases num_orientations - oi,
        {
            let orientation = orientations[oi];
            let mut ci: u64 = 0;
            proof {
                assert(cell_count as int * (oi + 1) as int <= cell_count as int
                    * num_orientations as int) by (nonlinear_arith)
                    requires
                        0 <= cell_count,
                        0 <= oi,
                        oi + 1 <= num_orientations,
                ;
                assert(cell_count as int * (oi + 1) as int == cell_count as int * oi as int
                    + cell_count as int) by (nonlinear_arith);
            }
            while ci < cell_count
                invariant
                    grid.wf(),
                    grid.size.x >= 1,
                    grid.size.y >= 1,
                    pattern_size.wf(),
                    pattern_size.x >= 1,
                    pattern_size.y >= 1,
                    ci <= cell_count,
                    cell_count == grid.size.spec_count(),
                    cell_count >= 1,
                    cell_count as int * oi as int + cell_count as int <= u32::MAX,
                    patterns@.len() <= u32::MAX,
                    spec_sum_counts(patterns@, patterns@.len() as int) == cell_count as int
                        * oi as int + ci as int,
                    forall|i: int|
                        0 <= i < patterns@.len() ==> (#[trigger] patterns@[i]).wf(grid.size),
                    forall|i: int| 0 <= i < patterns@.len() ==> (#[trigger] patterns@[i]).count >= 1,
                    ci >= 1 ==> patterns@.len() >= 1,
                    oi >= 1 ==> patterns@.len() >= 1,
                    oi < num_orientations,
                    num_orientations == orientations@.len(),
                    orientation == orientations@[oi as int],
                    forall|i2: int, k: int|
                        #![trigger patterns@[i2].coords@[k]]
                        0 <= i2 < patterns@.len() && 0 <= k < patterns@[i2].coords@.len()
                            ==> spec_occurrence_of(
                            grid,
                            pattern_size,
                            orientations@,
                            patterns@[i2].coords@[k],
                            patterns@[i2],
                        ),
                    forall|i2: int, j2: int|
                        0 <= i2 < j2 < patterns@.len() ==> spec_pattern_content(
                            grid,
                            pattern_size,
                            (#[trigger] patterns@[i2]),
                        ) != spec_pattern_content(grid, pattern_size, (#[trigger] patterns@[j2])),
                    forall|oi2: int, ci2: int|
                        (0 <= oi2 < oi && 0 <= ci2 < grid.size.spec_count()) || (oi2 == oi && 0
                            <= ci2 < ci) ==> #[trigger] spec_window_represented(
                            grid,
                            pattern_size,
                            orientations@,
                            patterns@,
                            oi2,
                            ci2,
                        ),
                    forall|i2: int|
                        0 <= i2 < patterns@.len() ==> (#[trigger] patterns@[i2]).count as int
                            == spec_count_matching_windows(
                            grid,
                            pattern_size,
                            orientations@,
                            spec_pattern_content(grid, pattern_size, patterns@[i2]),
                            oi as int * cell_count as int + ci as int,
                            cell_count as int,
                        ),
                    forall|i2: int|
                        0 <= i2 < patterns@.len() ==> (#[trigger] patterns@[i2]).count as int == patterns@[
                            i2
                        ].coords@.len(),
                decreases cell_count - ci,
            {
                let coord = grid.size().coord_of_index(ci);
                let slice = TiledGridSlice::new(&grid, coord, pattern_size, orientation);
                let mut found: bool = false;
                let mut pi: usize = 0;
                let n = patterns.len();
                let ghost patterns_before = patterns@;
                while pi < n && !found
                    invariant
                        grid.wf(),
                        grid.size.x >= 1,
                        grid.size.y >= 1,
                        pattern_size.wf(),
                        pattern_size.x >= 1,
                        pattern_size.y >= 1,
                        coord.spec_is_valid(grid.size),
                        slice.wf(),
                        slice.grid == &grid,
                        slice.size == pattern_size,
                        pi <= n,
                        n == patterns@.len(),
                        patterns@.len() <= u32::MAX,
                        forall|i: int|
                            0 <= i < patterns@.len() ==> (#[trigger] patterns@[i]).wf(grid.size),
                        forall|i: int|
                            0 <= i < patterns@.len() ==> (#[trigger] patterns@[i]).count >= 1,
                        !found ==> patterns@ == patterns_before,
                        found ==> patterns@.len() == patterns_before.len() && spec_sum_counts(
                            patterns@,
                            patterns@.len() as int,
                        ) == spec_sum_counts(patterns_before, patterns_before.len() as int) + 1,
                        spec_sum_counts(patterns_before, patterns_before.len() as int)
                            < u32::MAX,
                        found ==> (forall|i: int|
                            0 <= i < patterns@.len() ==> (#[trigger] patterns@[i]).count
                                >= 1 && patterns@[i].wf(grid.size)),
                        oi < num_orientations,
                        num_orientations == orientations@.len(),
                        orientation == orientations@[oi as int],
                        slice.offset == coord,
                        slice.orientation == orientation,
                        !found ==> forall|i2: int|
                            0 <= i2 < pi ==> crate::tiled_slice::spec_window_view(
                                grid,
                                pattern_size,
                                coord,
                                orientation,
                            ) != spec_pattern_content(
                                grid,
                                pattern_size,
                                (#[trigger] patterns@[i2]),
                            ),
                        ci < cell_count,
                        cell_count == grid.size.spec_count(),
                        coord == grid.size.spec_coord_of_index(ci as int),
                        forall|oi2: int, ci2: int|
                            (0 <= oi2 < oi && 0 <= ci2 < grid.size.spec_count()) || (oi2 == oi
                                && 0 <= ci2 < ci) ==> #[trigger] spec_window_represented(
                                grid,
                                pattern_size,
                                orientations@,
                                patterns@,
                                oi2,
                                ci2,
                            ),
                        found ==> spec_window_represented(
                            grid,
                            pattern_size,
                            orientations@,
                            patterns@,
                            oi as int,
                            ci as int,
                        ),
                        !found ==> forall|i2: int|
                            0 <= i2 < patterns@.len() ==> (#[trigger] patterns@[i2]).count as int
                                == spec_count_matching_windows(
                                grid,
                                pattern_size,
                                orientations@,
                                spec_pattern_content(grid, pattern_size, patterns@[i2]),
                                oi as int * cell_count as int + ci as int,
                                cell_count as int,
                            ),
                        found ==> forall|i2: int|
                            0 <= i2 < patterns@.len() ==> (#[trigger] patterns@[i2]).count as int
                                == spec_count_matching_windows(
                                grid,
                                pattern_size,
                                orientations@,
                                spec_pattern_content(grid, pattern_size, patterns@[i2]),
                                oi as int * cell_count as int + ci as int + 1,
                                cell_count as int,
                            ),
                        forall|i2: int|
                            0 <= i2 < patterns@.len() ==> (#[trigger] patterns@[i2]).count as int
                                == patterns@[i2].coords@.len(),
                        cell_count == grid.size.spec_count(),

                        forall|i2: int, k: int|
                            #![trigger patterns@[i2].coords@[k]]
                            0 <= i2 < patterns@.len() && 0 <= k < patterns@[i2].coords@.len()
                                ==> spec_occurrence_of(
                                grid,
                                pattern_size,
                                orientations@,
                                patterns@[i2].coords@[k],
                                patterns@[i2],
                            ),
                        forall|i2: int, j2: int|
                            0 <= i2 < j2 < patterns@.len() ==> spec_pattern_content(
                                grid,
                                pattern_size,
                                (#[trigger] patterns@[i2]),
                            ) != spec_pattern_content(grid, pattern_size, (#[trigger] patterns@[j2])),
                    decreases n - pi,
                {
                    let candidate = {
                        let p = &patterns[pi];
                        TiledGridSlice::new(&grid, p.coords[0], pattern_size, p.orientation)
                    };
                    if slice.equals(&candidate) {
                        let ghost before_update = patterns@;
                        proof {
                            lemma_sum_counts_bound(patterns@, patterns@.len() as int, pi as int);
                        }
                        let p = &mut patterns[pi];
                        p.count = p.count + 1;
                        p.coords.push(coord);
                        found = true;
                        proof {
                            lemma_sum_counts_update(
                                before_update,
                                patterns@,
                                pi as int,
                                patterns@.len() as int,
                            );
                            let pold = before_update[pi as int];
                            let pnow = patterns@[pi as int];
                            assert(pnow.coords@ == pold.coords@.push(coord));
                            assert(pnow.coords@[0] == pold.coords@[0]);
                            assert(forall|i2: int|
                                0 <= i2 < patterns@.len() ==> spec_pattern_content(
                                    grid,
                                    pattern_size,
                                    (#[trigger] patterns@[i2]),
                                ) == spec_pattern_content(
                                    grid,
                                    pattern_size,
                                    before_update[i2],
                                ));
                            assert(spec_window_represented(
                                grid,
                                pattern_size,
                                orientations@,
                                patterns@,
                                oi as int,
                                ci as int,
                            )) by {
                                assert(crate::tiled_slice::spec_window_view(
                                    grid,
                                    pattern_size,
                                    grid.size.spec_coord_of_index(ci as int),
                                    orientations@[oi as int],
                                ) == spec_pattern_content(grid, pattern_size, patterns@[pi as int]));
                            }
            // the window just counted is the t-th of the scan
                            let t = oi as int * cell_count as int + ci as int;
                            vstd::arithmetic::div_mod::lemma_fundamental_div_mod_converse(
                                t,
                                cell_count as int,
                                oi as int,
                                ci as int,
                            );
                            assert(crate::tiled_slice::spec_window_view(
                                grid,
                                pattern_size,
                                grid.size.spec_coord_of_index(t % cell_count as int),
                                orientations@[t / cell_count as int],
                            ) == spec_pattern_content(grid, pattern_size, patterns@[pi as int]));
                            assert forall|i2: int|
                                0 <= i2 < patterns@.len() implies (#[trigger] patterns@[
                                i2
                            ]).count as int == spec_count_matching_windows(
                                grid,
                                pattern_size,
                                orientations@,
                                spec_pattern_content(grid, pattern_size, patterns@[i2]),
                                t + 1,
                                cell_count as int,
                            ) by {
                                if i2 != pi as int {
                                    assert(spec_pattern_content(grid, pattern_size, patterns@[i2])
                                        != spec_pattern_content(
                                        grid,
                                        pattern_size,
                                        patterns@[pi as int],
                                    ));
                                }
                            }
                            assert forall|oi2: int, ci2: int|
                                (0 <= oi2 < oi && 0 <= ci2 < grid.size.spec_count()) || (oi2
                                    == oi && 0 <= ci2 < ci) implies
                                #[trigger] spec_window_represented(
                                    grid,
                                    pattern_size,
                                    orientations@,
                                    patterns@,
                                    oi2,
                                    ci2,
                                ) by {
                                assert(spec_window_represented(
                                    grid,
                                    pattern_size,
                                    orientations@,
                                    before_update,
                                    oi2,
                                    ci2,
                                ));
                                let w = choose|w: int|
                                    0 <= w < before_update.len()
                                        && crate::tiled_slice::spec_window_view(
                                        grid,
                                        pattern_size,
                                        grid.size.spec_coord_of_index(ci2),
                                        orientations@[oi2],
                                    ) == spec_pattern_content(
                                        grid,
                                        pattern_size,
                                        #[trigger] before_update[w],
                                    );
                                assert(spec_pattern_content(grid, pattern_size, patterns@[w])
                                    == spec_pattern_content(grid, pattern_size, before_update[w]));
                            }
                            assert(crate::tiled_slice::spec_window_view(
                                grid,
                                pattern_size,
                                coord,
                                orientations@[oi as int],
                            ) == crate::tiled_slice::spec_window_view(
                                grid,
                                pattern_size,
                                pnow.coords@[0],
                                pnow.orientation,
                            ));
                            assert forall|i2: int, k: int|
                                0 <= i2 < patterns@.len() && 0 <= k < patterns@[
                                i2
                            ].coords@.len() implies spec_occurrence_of(
                                grid,
                                pattern_size,
                                orientations@,
                                #[trigger] patterns@[i2].coords@[k],
                                patterns@[i2],
                            ) by {
                                if i2 == pi as int {
                                    if k == pnow.coords@.len() - 1 {
                                        assert(patterns@[i2].coords@[k] == coord);
                                    } else {
                                        assert(before_update[i2].coords@[k]
                                            == patterns@[i2].coords@[k]);
                                        assert(spec_occurrence_of(
                                            grid,
                                            pattern_size,
                                            orientations@,
                                            before_update[i2].coords@[k],
                                            before_update[i2],
                                        ));
                                        let oi2 = choose|oi2: int|
                                            0 <= oi2 < orientations@.len()
                                                && crate::tiled_slice::spec_window_view(
                                                grid,
                                                pattern_size,
                                                before_update[i2].coords@[k],
                                                #[trigger] orientations@[oi2],
                                            ) == crate::tiled_slice::spec_window_view(
                                                grid,
                                                pattern_size,
                                                pold.coords@[0],
                                                pold.orientation,
                                            );
                                    }
                                } else {
                                    assert(patterns@[i2] == before_update[i2]);
                                }
                            }
                        }
                    }
                    pi = pi + 1;
                }
                if !found {
                    let mut coords: Vec<Coord> = Vec::new();
                    coords.push(coord);
                    let ghost before_push = patterns@;
                    patterns.push(Pattern { coords, count: 1, orientation });
                    proof {
                        lemma_sum_counts_congruent(
                            before_push,
                            patterns@,
                            before_push.len() as int,
                        );
                        assert(patterns@.len() <= u32::MAX) by {
                            lemma_sum_counts_all_ones(patterns@, patterns@.len() as int);
                        }
                        let pnew = patterns@[patterns@.len() - 1];
                        assert(pnew.coords@ == Seq::<Coord>::empty().push(coord));
                        assert(pnew.coords@[0] == coord);
                        assert(spec_pattern_content(grid, pattern_size, pnew)
                            == crate::tiled_slice::spec_window_view(
                            grid,
                            pattern_size,
                            coord,
                            orientation,
                        ));
                        assert forall|i2: int, j2: int|
                            0 <= i2 < j2 < patterns@.len() implies spec_pattern_content(
                            grid,
                            pattern_size,
                            (patterns@[i2]),
                        ) != spec_pattern_content(grid, pattern_size, (patterns@[j2])) by {
                            if j2 == patterns@.len() - 1 {
                                assert(patterns@[i2] == before_push[i2]);
                            } else {
                                assert(patterns@[i2] == before_push[i2]);
                                assert(patterns@[j2] == before_push[j2]);
                            }
                        }
                        assert(spec_window_represented(
                            grid,
                            pattern_size,
                            orientations@,
                            patterns@,
                            oi as int,
                            ci as int,
                        )) by {
                            assert(crate::tiled_slice::spec_window_view(
                                grid,
                                pattern_size,
                                grid.size.spec_coord_of_index(ci as int),
                                orientations@[oi as int],
                            ) == spec_pattern_content(
                                grid,
                                pattern_size,
                                patterns@[patterns@.len() - 1],
                            ));
                        }
                        let t = oi as int * cell_count as int + ci as int;
                        vstd::arithmetic::div_mod::lemma_fundamental_div_mod_converse(
                            t,
                            cell_count as int,
                            oi as int,
                            ci as int,
                        );
                        let new_content = spec_pattern_content(grid, pattern_size, pnew);
                        assert(crate::tiled_slice::spec_window_view(
                            grid,
                            pattern_size,
                            grid.size.spec_coord_of_index(t % cell_count as int),
                            orientations@[t / cell_count as int],
                        ) == new_content);
                        // no earlier window matches the new content: an earlier match would
                        // be represented by an existing pattern of equal content, which the
                        // scan would have found
                        assert(spec_count_matching_windows(
                            grid,
                            pattern_size,
                            orientations@,
                            new_content,
                            t,
                            cell_count as int,
                        ) == 0) by {
                            if spec_count_matching_windows(
                                grid,
                                pattern_size,
                                orientations@,
                                new_content,
                                t,
                                cell_count as int,
                            ) != 0 {
                                lemma_matching_nonneg(
                                    grid,
                                    pattern_size,
                                    orientations@,
                                    new_content,
                                    t,
                                    cell_count as int,
                                );
                                lemma_matching_witness(
                                    grid,
                                    pattern_size,
                                    orientations@,
                                    new_content,
                                    t,
                                    cell_count as int,
                                );
                                let u = choose|u: int|
                                    0 <= u < t && crate::tiled_slice::spec_window_view(
                                        grid,
                                        pattern_size,
                                        grid.size.spec_coord_of_index(u % cell_count as int),
                                        #[trigger] orientations@[u / cell_count as int],
                                    ) == new_content;
                                let uo = u / cell_count as int;
                                let uc = u % cell_count as int;
                                vstd::arithmetic::div_mod::lemma_fundamental_div_mod(
                                    u,
                                    cell_count as int,
                                );
                                vstd::arithmetic::div_mod::lemma_mod_division_less_than_divisor(
                                    u,
                                    cell_count as int,
                                );
                                assert((0 <= uo < oi) || (uo == oi && 0 <= uc < ci))
                                    by (nonlinear_arith)
                                    requires
                                        0 <= u < t,
                                        t == oi as int * cell_count as int + ci as int,
                                        cell_count >= 1,
                                        0 <= uc < cell_count,
                                        u == uo * cell_count as int + uc,
                                        0 <= ci < cell_count,
                                ;
                                assert(spec_window_represented(
                                    grid,
                                    pattern_size,
                                    orientations@,
                                    before_push,
                                    uo,
                                    uc,
                                ));
                                let w = choose|w: int|
                                    0 <= w < before_push.len()
                                        && crate::tiled_slice::spec_window_view(
                                        grid,
                                        pattern_size,
                                        grid.size.spec_coord_of_index(uc),
                                        orientations@[uo],
                                    ) == spec_pattern_content(
                                        grid,
                                        pattern_size,
                                        #[trigger] before_push[w],
                                    );
                                assert(crate::tiled_slice::spec_window_view(
                                    grid,
                                    pattern_size,
                                    coord,
                                    orientation,
                                ) != spec_pattern_content(grid, pattern_size, before_push[w]));
                            }
                        }
                        assert forall|i2: int|
                            0 <= i2 < patterns@.len() implies (#[trigger] patterns@[
                            i2
                        ]).count as int == spec_count_matching_windows(
                            grid,
                            pattern_size,
                            orientations@,
                            spec_pattern_content(grid, pattern_size, patterns@[i2]),
                            t + 1,
                            cell_count as int,
                        ) by {
                            if i2 == patterns@.len() - 1 {
                                assert(patterns@[i2] == pnew);
                            } else {
                                assert(patterns@[i2] == before_push[i2]);
                                assert(crate::tiled_slice::spec_window_view(
                                    grid,
                                    pattern_size,
                                    coord,
                                    orientation,
                                ) != spec_pattern_content(grid, pattern_size, patterns@[i2]));
                            }
                        }
                        assert forall|oi2: int, ci2: int|
                            (0 <= oi2 < oi && 0 <= ci2 < grid.size.spec_count()) || (oi2 == oi && 0
                                <= ci2 < ci) implies #[trigger] spec_window_represented(
                                grid,
                                pattern_size,
                                orientations@,
                                patterns@,
                                oi2,
                                ci2,
                            ) by {
                            assert(spec_window_represented(
                                grid,
                                pattern_size,
                                orientations@,
                                before_push,
                                oi2,
                                ci2,
                            ));
                            let w = choose|w: int|
                                0 <= w < before_push.len()
                                    && crate::tiled_slice::spec_window_view(
                                    grid,
                                    pattern_size,
                                    grid.size.spec_coord_of_index(ci2),
                                    orientations@[oi2],
                                ) == spec_pattern_content(
                                    grid,
                                    pattern_size,
                                    #[trigger] before_push[w],
                                );
                            assert(patterns@[w] == before_push[w]);
                        }
                        assert forall|i2: int, k: int|
                            0 <= i2 < patterns@.len() && 0 <= k < patterns@[
                            i2
                        ].coords@.len() implies spec_occurrence_of(
                            grid,
                            pattern_size,
                            orientations@,
                            #[trigger] patterns@[i2].coords@[k],
                            patterns@[i2],
                        ) by {
                            if i2 == patterns@.len() - 1 {
                                assert(patterns@[i2].coords@[k] == coord);
                                assert(crate::tiled_slice::spec_window_view(
                                    grid,
                                    pattern_size,
                                    coord,
                                    orientations@[oi as int],
                                ) == crate::tiled_slice::spec_window_view(
                                    grid,
                                    pattern_size,
                                    pnew.coords@[0],
                                    pnew.orientation,
                                ));
                            } else {
                                assert(patterns@[i2] == before_push[i2]);
                            }
                        }
                    }
                }
                ci = ci + 1;
            }
            proof {
                assert((oi + 1) as int * cell_count as int == oi as int * cell_count as int
                    + cell_count as int) by (nonlinear_arith);
            }
            oi = oi + 1;
        }
        let ghost unsorted = patterns@;
        let patterns = sort_patterns_by_coord(patterns);
        proof {
            assert forall|i2: int, k: int|
                0 <= i2 < patterns@.len() && 0 <= k < patterns@[i2].coords@.len() implies
                spec_occurrence_of(
                    grid,
                    pattern_size,
                    orientations@,
                    #[trigger] patterns@[i2].coords@[k],
                    patterns@[i2],
                ) by {
                let j = choose|j: int| 0 <= j < unsorted.len() && patterns@[i2] == unsorted[j];
                assert(spec_occurrence_of(
                    grid,
                    pattern_size,
                    orientations@,
                    unsorted[j].coords@[k],
                    unsorted[j],
                ));
            }
            assert(unsorted.no_duplicates()) by {
                assert forall|i2: int, j2: int|
                    0 <= i2 < unsorted.len() && 0 <= j2 < unsorted.len() && i2 != j2 implies
                    unsorted[i2] != unsorted[j2] by {
                    if i2 < j2 {
                        assert(spec_pattern_content(grid, pattern_size, unsorted[i2])
                            != spec_pattern_content(grid, pattern_size, unsorted[j2]));
                    } else {
                        assert(spec_pattern_content(grid, pattern_size, unsorted[j2])
                            != spec_pattern_content(grid, pattern_size, unsorted[i2]));
                    }
                }
            }
            unsorted.lemma_multiset_has_no_duplicates();
            assert(patterns@.to_multiset() == unsorted.to_multiset());
            patterns@.lemma_multiset_has_no_duplicates_conv();
            unsorted.to_multiset_ensures();
            patterns@.to_multiset_ensures();
            assert forall|oi2: int, ci2: int|
                0 <= oi2 < orientations@.len() && 0 <= ci2 < grid.size.spec_count() implies
                #[trigger] spec_window_represented(
                    grid,
                    pattern_size,
                    orientations@,
                    patterns@,
                    oi2,
                    ci2,
                ) by {
                assert(spec_window_represented(
                    grid,
                    pattern_size,
                    orientations@,
                    unsorted,
                    oi2,
                    ci2,
                ));
                let w = choose|w: int|
                    0 <= w < unsorted.len() && crate::tiled_slice::spec_window_view(
                        grid,
                        pattern_size,
                        grid.size.spec_coord_of_index(ci2),
                        orientations@[oi2],
                    ) == spec_pattern_content(grid, pattern_size, #[trigger] unsorted[w]);
                assert(unsorted.to_multiset().contains(unsorted[w])) by {
                    assert(unsorted.contains(unsorted[w]));
                }
                assert(patterns@.to_multiset().contains(unsorted[w]));
                assert(patterns@.contains(unsorted[w]));
                let w2 = choose|w2: int| 0 <= w2 < patterns@.len() && patterns@[w2] == unsorted[w];
            }
            assert forall|i2: int, j2: int|
                0 <= i2 < j2 < patterns@.len() implies spec_pattern_content(
                grid,
                pattern_size,
                (patterns@[i2]),
            ) != spec_pattern_content(grid, pattern_size, (patterns@[j2])) by {
                if spec_pattern_content(grid, pattern_size, patterns@[i2])
                    == spec_pattern_content(grid, pattern_size, patterns@[j2]) {
                    assert(patterns@[i2] != patterns@[j2]);
                    let a = choose|a: int| 0 <= a < unsorted.len() && patterns@[i2] == unsorted[a];
                    let b = choose|b: int| 0 <= b < unsorted.len() && patterns@[j2] == unsorted[b];
                    assert(a != b);
                    if a < b {
                        assert(spec_pattern_content(grid, pattern_size, unsorted[a])
                            != spec_pattern_content(grid, pattern_size, unsorted[b]));
                    } else {
                        assert(spec_pattern_content(grid, pattern_size, unsorted[b])
                            != spec_pattern_content(grid, pattern_size, unsorted[a]));
                    }
                }
            }
        }
        let table = crate::pattern::PatternTable::from_vec(patterns);
        OverlappingPatterns { pattern_table: table, pattern_size, grid }
    }
}

/// Orders patterns by their representative offset, `x` before `y`, so that
/// pattern ids do not depend on the order windows were visited in.
fn sort_patterns_by_coord(input: Vec<Pattern>) -> (r: Vec<Pattern>)
    requires
        forall|i: int| 0 <= i < input@.len() ==> (#[trigger] input@[i]).coords@.len() >= 1,
    ensures
        r@.len() == input@.len(),
        r@.to_multiset() == input@.to_multiset(),
        spec_sum_counts(r@, r@.len() as int) == spec_sum_counts(input@, input@.len() as int),
        forall|i: int, j: int|
            0 <= i < j < r@.len() ==> spec_coord_key_le(
                (#[trigger] r@[i]).coords@[0],
                (#[trigger] r@[j]).coords@[0],
            ),
        forall|i: int|
            0 <= i < r@.len() ==> exists|j: int| 0 <= j < input@.len() && (#[trigger] r@[i]) == input@[j],
{
    let ghost total = spec_sum_counts(input@, input@.len() as int);
    let ghost len0 = input@.len() as int;
    let mut remaining = input;
    let mut out: Vec<Pattern> = Vec::new();
    proof {
        out@.to_multiset_ensures();
        remaining@.to_multiset_ensures();
        assert(out@.to_multiset().add(remaining@.to_multiset()) =~= input@.to_multiset());
    }
    while remaining.len() > 0
        invariant
            out@.len() + remaining@.len() == len0,
            out@.to_multiset().add(remaining@.to_multiset()) == input@.to_multiset(),
            spec_sum_counts(out@, out@.len() as int) + spec_sum_counts(
                remaining@,
                remaining@.len() as int,
            ) == total,
            forall|i: int|
                0 <= i < remaining@.len() ==> (#[trigger] remaining@[i]).coords@.len() >= 1,
            forall|i: int, j: int|
                0 <= i < j < out@.len() ==> spec_coord_key_le(
                    (#[trigger] out@[i]).coords@[0],
                    (#[trigger] out@[j]).coords@[0],
                ),
            forall|i: int, j: int|
                0 <= i < out@.len() && 0 <= j < remaining@.len() ==> spec_coord_key_le(
                    (#[trigger] out@[i]).coords@[0],
                    (#[trigger] remaining@[j]).coords@[0],
                ),
            forall|i: int|
                0 <= i < out@.len() ==> exists|j: int| 0 <= j < input@.len() && (#[trigger] out@[i])
                    == input@[j],
            forall|i: int|
                0 <= i < remaining@.len() ==> exists|j: int|
                    0 <= j < input@.len() && (#[trigger] remaining@[i]) == input@[j],
        decreases remaining@.len(),
    {
        let mut best: usize = 0;
        let mut i: usize = 1;
        let n = remaining.len();
        while i < n
            invariant
                n == remaining@.len(),
                best < i <= n,
                forall|i2: int|
                    0 <= i2 < remaining@.len() ==> (#[trigger] remaining@[i2]).coords@.len() >= 1,
                forall|j: int|
                    0 <= j < i ==> spec_coord_key_le(
                        remaining@[best as int].coords@[0],
                        (#[trigger] remaining@[j]).coords@[0],
                    ),
            decreases n - i,
        {
            let cand = remaining[i].coords[0];
            let cur = remaining[best].coords[0];
            if !coord_key_le(cur, cand) {
                proof {
                    assert forall|j: int|
                        0 <= j < i + 1 implies spec_coord_key_le(
                        remaining@[i as int].coords@[0],
                        (#[trigger] remaining@[j]).coords@[0],
                    ) by {
                        assert(spec_coord_key_le(
                            remaining@[best as int].coords@[0],
                            remaining@[j].coords@[0],
                        ) || j == i);
                    }
                }
                best = i;
            }
            i = i + 1;
        }
        let ghost rem_before = remaining@;
        proof {
            lemma_sum_counts_remove(remaining@, best as int);
            rem_before.to_multiset_ensures();
        }
        let picked = remaining.remove(best);
        let ghost out_before = out@;
        out.push(picked);
        proof {
            lemma_sum_counts_congruent(out_before, out@, out_before.len() as int);
            out_before.to_multiset_ensures();
            assert(out@.to_multiset() =~= out_before.to_multiset().insert(picked));
            assert(remaining@.to_multiset() =~= rem_before.to_multiset().remove(picked));
            assert(rem_before.to_multiset().contains(picked)) by {
                assert(rem_before.contains(picked));
            }
            assert(out@.to_multiset().add(remaining@.to_multiset()) =~= out_before.to_multiset().add(
                rem_before.to_multiset(),
            ));
            assert forall|i2: int|
                0 <= i2 < remaining@.len() implies spec_coord_key_le(
                picked.coords@[0],
                (#[trigger] remaining@[i2]).coords@[0],
            ) by {
                if i2 < best {
                    assert(remaining@[i2] == rem_before[i2]);
                } else {
                    assert(remaining@[i2] == rem_before[i2 + 1]);
                }
            }
            assert forall|i2: int|
                0 <= i2 < remaining@.len() implies (#[trigger] remaining@[i2]).coords@.len() >= 1
                    && (exists|j: int|
                    0 <= j < input@.len() && remaining@[i2] == input@[j]) by {
                if i2 < best {
                    assert(remaining@[i2] == rem_before[i2]);
                } else {
                    assert(remaining@[i2] == rem_before[i2 + 1]);
                }
            }
        }
    }
    proof {
        remaining@.to_multiset_ensures();
        assert(remaining@.to_multiset().len() == 0);
        assert(out@.to_multiset() =~= input@.to_multiset());
    }
    out
}

/// A prefix of the counts never exceeds the whole sum (counts are
/// non-negative), so a single count is bounded by the total.
proof fn lemma_sum_counts_bound(s: Seq<Pattern>, n: int, j: int)
    requires
        0 <= j < n,
        n <= s.len(),
    ensures
        s[j].count as int <= spec_sum_counts(s, n),
    decreases n,
{
    lemma_sum_counts_nonneg(s, n - 1);
    if j < n - 1 {
        lemma_sum_counts_bound(s, n - 1, j);
    }
}

/// With every count at least one, the sum dominates the length.
proof fn lemma_sum_counts_all_ones(s: Seq<Pattern>, n: int)
    requires
        0 <= n <= s.len(),
        forall|i: int| 0 <= i < n ==> (#[trigger] s[i]).count >= 1,
    ensures
        spec_sum_counts(s, n) >= n,
    decreases n,
{
    if n > 0 {
        lemma_sum_counts_all_ones(s, n - 1);
    }
}

impl OverlappingPatterns {
    /// Whether pattern `q` may sit one step in `direction` from pattern `i`.
    pub open spec fn spec_compat_ids(self, i: int, q: int, direction: CardinalDirection) -> bool {
        spec_window_compatible(
            self.grid,
            self.grid,
            self.pattern_size,
            self.pattern_table.table@[i].coords@[0],
            self.pattern_table.table@[i].orientation,
            self.pattern_table.table@[q].coords@[0],
            self.pattern_table.table@[q].orientation,
            direction,
        )
    }

    pub fn grid(&self) -> (r: &Grid<u32>)
        ensures
            r == &self.grid,
    {
        &self.grid
    }

    pub fn pattern(&self, pattern_id: crate::pattern::PatternId) -> (r: &Pattern)
        requires
            pattern_id < self.pattern_table.table@.len(),
        ensures
            *r == self.pattern_table.table@[pattern_id as int],
    {
        self.pattern_table.get(pattern_id)
    }

    pub fn pattern_mut(&mut self, pattern_id: crate::pattern::PatternId) -> (r: &mut Pattern)
        requires
            pattern_id < old(self).pattern_table.table@.len(),
        ensures
            *r == old(self).pattern_table.table@[pattern_id as int],
            final(self).pattern_table.table@ == old(self).pattern_table.table@.update(
                pattern_id as int,
                *final(r),
            ),
            final(self).pattern_size == old(self).pattern_size,
            final(self).grid == old(self).grid,
    {
        self.pattern_table.get_mut(pattern_id)
    }

    /// The input cell value at the top-left corner of a pattern's window.
    pub fn pattern_top_left_value(&self, pattern_id: crate::pattern::PatternId) -> (r: u32)
        requires
            self.wf(),
            pattern_id < self.pattern_table.table@.len(),
        ensures
            r == crate::tiled_slice::spec_window_get(
                self.grid,
                self.pattern_size,
                self.pattern_table.table@[pattern_id as int].coords@[0],
                self.pattern_table.table@[pattern_id as int].orientation,
                Coord { x: 0, y: 0 },
            ),
    {
        let slice = self.pattern_slice(pattern_id);
        *slice.get_checked(Coord::new(0, 0))
    }

    /// Describes every pattern for the solver: its occurrence count as the
    /// weight (absent when cleared), and, per direction, the sorted list of
    /// ids whose windows agree with it on the overlap.
    pub fn pattern_descriptions(&self) -> (r: crate::pattern::PatternTable<
        crate::pattern::PatternDescription,
    >)
        requires
            self.wf(),
        ensures
            r.table@.len() == self.pattern_table.table@.len(),
            forall|i: int|
                0 <= i < r.table@.len() ==> (#[trigger] r.table@[i]).weight == (
                if self.pattern_table.table@[i].count >= 1 {
                    Some(self.pattern_table.table@[i].count)
                } else {
                    None
                }),
            forall|i: int, d: CardinalDirection|
                0 <= i < r.table@.len() ==> crate::pattern::spec_id_list_wf(
                    (#[trigger] r.table@[i].allowed_neighbours.spec_get(d))@,
                    r.table@.len() as int,
                ),
            forall|i: int, d: CardinalDirection, q: int|
                #![trigger r.table@[i].allowed_neighbours.spec_get(d)@.contains(q as u32)]
                0 <= i < r.table@.len() && 0 <= q < r.table@.len() ==> (
                r.table@[i].allowed_neighbours.spec_get(d)@.contains(q as u32)
                    <==> self.spec_compat_ids(i, q, d)),
    {
        let n = self.pattern_table.len();
        let mut out: Vec<crate::pattern::PatternDescription> = Vec::new();
        let mut i: usize = 0;
        while i < n
            invariant
                self.wf(),
                i <= n,
                n == self.pattern_table.table@.len(),
                out@.len() == i,
                forall|i2: int|
                    0 <= i2 < i ==> (#[trigger] out@[i2]).weight == (
                    if self.pattern_table.table@[i2].count >= 1 {
                        Some(self.pattern_table.table@[i2].count)
                    } else {
                        None
                    }),
                forall|i2: int, d: CardinalDirection|
                    0 <= i2 < i ==> crate::pattern::spec_id_list_wf(
                        (#[trigger] out@[i2].allowed_neighbours.spec_get(d))@,
                        n as int,
                    ),
                forall|i2: int, d: CardinalDirection, q: int|
                    #![trigger out@[i2].allowed_neighbours.spec_get(d)@.contains(q as u32)]
                    0 <= i2 < i && 0 <= q < n ==> (
                    out@[i2].allowed_neighbours.spec_get(d)@.contains(q as u32)
                        <==> self.spec_compat_ids(i2, q, d)),
            decreases n - i,
        {
            let count = self.pattern_table.get(i as u32).count;
            let weight: Option<u32> = if count >= 1 {
                Some(count)
            } else {
                None
            };
            let north = self.compatible_patterns(i as u32, CardinalDirection::North);
            let east = self.compatible_patterns(i as u32, CardinalDirection::East);
            let south = self.compatible_patterns(i as u32, CardinalDirection::South);
            let west = self.compatible_patterns(i as u32, CardinalDirection::West);
            let allowed_neighbours = crate::direction::CardinalDirectionTable {
                north,
                east,
                south,
                west,
            };
            let desc = crate::pattern::PatternDescription { weight, allowed_neighbours };
            out.push(desc);
            i = i + 1;
        }
        crate::pattern::PatternTable::from_vec(out)
    }

    /// The ascending list of pattern ids whose windows may sit one step in
    /// `direction` from pattern `i`'s window.
    fn compatible_patterns(&self, i: crate::pattern::PatternId, direction: CardinalDirection)
        -> (r: Vec<crate::pattern::PatternId>)
        requires
            self.wf(),
            i < self.pattern_table.table@.len(),
        ensures
            crate::pattern::spec_id_list_wf(r@, self.pattern_table.table@.len() as int),
            forall|q: int|
                0 <= q < self.pattern_table.table@.len() ==> (r@.contains(q as u32)
                    <==> self.spec_compat_ids(i as int, q, direction)),
    {
        let n = self.pattern_table.len();
        let mut out: Vec<crate::pattern::PatternId> = Vec::new();
        let slice_i = self.pattern_slice(i);
        let mut q: usize = 0;
        while q < n
            invariant
                self.wf(),
                q <= n,
                n == self.pattern_table.table@.len(),
                i < n,
                slice_i.grid == &self.grid,
                slice_i.size == self.pattern_size,
                slice_i.offset == self.pattern_table.table@[i as int].coords@[0],
                slice_i.orientation == self.pattern_table.table@[i as int].orientation,
                slice_i.wf(),
                forall|j: int, k: int| 0 <= j < k < out@.len() ==> out@[j] < out@[k],
                forall|j: int| 0 <= j < out@.len() ==> out@[j] < q,
                forall|q2: int|
                    0 <= q2 < q ==> (out@.contains(q2 as u32) <==> self.spec_compat_ids(
                        i as int,
                        q2,
                        direction,
                    )),
            decreases n - q,
        {
            let slice_q = self.pattern_slice(q as u32);
            let compatible = are_patterns_compatible_slices(&slice_i, &slice_q, direction);
            let ghost out_before = out@;
            if compatible {
                out.push(q as u32);
            }
            proof {
                assert forall|q2: int|
                    0 <= q2 < q + 1 implies (out@.contains(q2 as u32) <==> self.spec_compat_ids(
                    i as int,
                    q2,
                    direction,
                )) by {
                    if q2 < q {
                        if out_before.contains(q2 as u32) {
                            let j = choose|j: int|
                                0 <= j < out_before.len() && out_before[j] == q2 as u32;
                            assert(out@[j] == q2 as u32);
                        }
                        if out@.contains(q2 as u32) {
                            let j = choose|j: int| 0 <= j < out@.len() && out@[j] == q2 as u32;
                            assert(j < out_before.len());
                            assert(out_before[j] == q2 as u32);
                        }
                    } else {
                        if compatible {
                            assert(out@[out@.len() - 1] == q2 as u32);
                        } else {
                            if out@.contains(q2 as u32) {
                                let j = choose|j: int| 0 <= j < out@.len() && out@[j] == q2 as u32;
                            }
                        }
                    }
                }
            }
            q = q + 1;
        }
        out
    }

    /// The solver statistics learned from this pattern set: weights are the
    /// occurrence counts, adjacency is window-overlap agreement.
    pub fn global_stats(&self) -> (r: crate::pattern::GlobalStats)
        requires
            self.wf(),
        ensures
            r.wf(),
            r.spec_num_patterns() == self.pattern_table.table@.len(),
            forall|i: int|
                0 <= i < r.spec_num_patterns() ==> match self.pattern_table.table@[i].count {
                    0u32 => (#[trigger] r.pattern_weights.table@[i]) is None,
                    c => r.pattern_weights.table@[i] matches Some(pw) && pw.weight == c,
                },
            forall|i: int, d: CardinalDirection, q: int|
                #![trigger r.spec_compat(i, d).contains(q as u32)]
                0 <= i < r.spec_num_patterns() && 0 <= q < r.spec_num_patterns() ==> (
                r.spec_compat(i, d).contains(q as u32) <==> self.spec_compat_ids(i, q, d)),
    {
        let descriptions = self.pattern_descriptions();
        proof {
            lemma_desc_weight_below_counts(
                descriptions.table@,
                self.pattern_table.table@,
                descriptions.table@.len() as int,
            );
            lemma_sum_counts_nonneg(self.pattern_table.table@, 0);
        }
        crate::pattern::GlobalStats::new(descriptions)
    }
}

/// Description weights never exceed the occurrence counts they were drawn
/// from, so their sum fits whenever the counts' sum does.
proof fn lemma_desc_weight_below_counts(
    descs: Seq<crate::pattern::PatternDescription>,
    pats: Seq<Pattern>,
    n: int,
)
    requires
        n <= descs.len(),
        n <= pats.len(),
        forall|i: int|
            0 <= i < n ==> (#[trigger] descs[i]).weight == (if pats[i].count >= 1 {
                Some(pats[i].count)
            } else {
                None
            }),
    ensures
        crate::pattern::spec_sum_desc_weight(descs, n) <= spec_sum_counts(pats, n),
    decreases n,
{
    if n > 0 {
        lemma_desc_weight_below_counts(descs, pats, n - 1);
    }
}

impl OverlappingPatterns {
    /// Learns patterns under all eight orientations.
    pub fn new_all_orientations(grid: Grid<u32>, pattern_size: Size) -> (r: OverlappingPatterns)
        requires
            grid.wf(),
            grid.size.x >= 1,
            grid.size.y >= 1,
            pattern_size.wf(),
            pattern_size.x >= 1,
            pattern_size.y >= 1,
            grid.size.spec_count() * 8 <= u32::MAX,
        ensures
            r.wf(),
            r.grid == grid,
            r.pattern_size == pattern_size,
            spec_sum_counts(r.pattern_table.table@, r.pattern_table.table@.len() as int)
                == grid.size.spec_count() * (crate::orientation::spec_all_orientations()).len(),
            r.pattern_table.table@.len() >= 1,
            forall|i: int|
                0 <= i < r.pattern_table.table@.len() ==> (#[trigger] r.pattern_table.table@[i]).count
                    >= 1,
            forall|i: int, j: int|
                0 <= i < j < r.pattern_table.table@.len() ==> spec_coord_key_le(
                    (#[trigger] r.pattern_table.table@[i]).coords@[0],
                    (#[trigger] r.pattern_table.table@[j]).coords@[0],
                ),
            forall|i: int, k: int|
                #![trigger r.pattern_table.table@[i].coords@[k]]
                0 <= i < r.pattern_table.table@.len() && 0 <= k
                    < r.pattern_table.table@[i].coords@.len() ==> spec_occurrence_of(
                    grid,
                    pattern_size,
                    crate::orientation::spec_all_orientations(),
                    r.pattern_table.table@[i].coords@[k],
                    r.pattern_table.table@[i],
                ),
            forall|i: int, j: int|
                0 <= i < j < r.pattern_table.table@.len() ==> spec_pattern_content(
                    grid,
                    pattern_size,
                    (#[trigger] r.pattern_table.table@[i]),
                ) != spec_pattern_content(grid, pattern_size, (#[trigger] r.pattern_table.table@[j])),
            forall|oi: int, ci: int|
                0 <= oi < (crate::orientation::spec_all_orientations()).len() && 0 <= ci < grid.size.spec_count()
                    ==> #[trigger] spec_window_represented(
                    grid,
                    pattern_size,
                    crate::orientation::spec_all_orientations(),
                    r.pattern_table.table@,
                    oi,
                    ci,
                ),
    {
        let orientations = crate::orientation::all_orientations();
        OverlappingPatterns::new(grid, pattern_size, &orientations)
    }

    /// Learns patterns in the input's own orientation only.
    pub fn new_original_orientation(grid: Grid<u32>, pattern_size: Size) -> (r:
        OverlappingPatterns)
        requires
            grid.wf(),
            grid.size.x >= 1,
            grid.size.y >= 1,
            pattern_size.wf(),
            pattern_size.x >= 1,
            pattern_size.y >= 1,
            grid.size.spec_count() <= u32::MAX,
        ensures
            r.wf(),
            r.grid == grid,
            r.pattern_size == pattern_size,
            spec_sum_counts(r.pattern_table.table@, r.pattern_table.table@.len() as int)
                == grid.size.spec_count() * (seq![Orientation::Original]).len(),
            r.pattern_table.table@.len() >= 1,
            forall|i: int|
                0 <= i < r.pattern_table.table@.len() ==> (#[trigger] r.pattern_table.table@[i]).count
                    >= 1,
            forall|i: int, j: int|
                0 <= i < j < r.pattern_table.table@.len() ==> spec_coord_key_le(
                    (#[trigger] r.pattern_table.table@[i]).coords@[0],
                    (#[trigger] r.pattern_table.table@[j]).coords@[0],
                ),
            forall|i: int, k: int|
                #![trigger r.pattern_table.table@[i].coords@[k]]
                0 <= i < r.pattern_table.table@.len() && 0 <= k
                    < r.pattern_table.table@[i].coords@.len() ==> spec_occurrence_of(
                    grid,
                    pattern_size,
                    seq![Orientation::Original],
                    r.pattern_table.table@[i].coords@[k],
                    r.pattern_table.table@[i],
                ),
            forall|i: int, j: int|
                0 <= i < j < r.pattern_table.table@.len() ==> spec_pattern_content(
                    grid,
                    pattern_size,
                    (#[trigger] r.pattern_table.table@[i]),
                ) != spec_pattern_content(grid, pattern_size, (#[trigger] r.pattern_table.table@[j])),
            forall|oi: int, ci: int|
                0 <= oi < (seq![Orientation::Original]).len() && 0 <= ci < grid.size.spec_count()
                    ==> #[trigger] spec_window_represented(
                    grid,
                    pattern_size,
                    seq![Orientation::Original],
                    r.pattern_table.table@,
                    oi,
                    ci,
                ),
    {
        let mut orientations: Vec<Orientation> = Vec::new();
        orientations.push(Orientation::Original);
        proof {
            assert(orientations@ =~= seq![Orientation::Original]);
        }
        OverlappingPatterns::new(grid, pattern_size, &orientations)
    }

    /// For every input cell, which pattern (if any) has its representative
    /// window there, per orientation.
    pub fn id_grid(&self) -> (r: Grid<crate::orientation::OrientationTable<
        crate::pattern::PatternId,
    >>)
        requires
            self.wf(),
        ensures
            r.wf(),
            r.size == self.grid.size,
            forall|j: int| 0 <= j < r.cells@.len() ==> (#[trigger] r.cells@[j]).wf(),
            forall|j: int, o: Orientation|
                0 <= j < r.cells@.len() ==> ((#[trigger] r.cells@[j].spec_get(o)) matches Some(pid)
                    ==> spec_id_entry_ok(
                    self.pattern_table.table@,
                    self.grid.size,
                    j,
                    o,
                    pid,
                )),
            forall|pid: int, k: int|
                #![trigger self.pattern_table.table@[pid].coords@[k]]
                0 <= pid < self.pattern_table.table@.len() && 0 <= k
                    < self.pattern_table.table@[pid].coords@.len() ==> r.cells@[
                    self.grid.size.spec_index_of(self.pattern_table.table@[pid].coords@[k])
                ].spec_get(self.pattern_table.table@[pid].orientation) is Some,
    {
        let len = self.grid.len();
        let mut cells: Vec<crate::orientation::OrientationTable<crate::pattern::PatternId>> =
            Vec::new();
        let mut i: usize = 0;
        while i < len
            invariant
                i <= len,
                len == self.grid.cells@.len(),
                cells@.len() == i,
                forall|j: int| 0 <= j < i ==> (#[trigger] cells@[j]).wf(),
                forall|j: int, o: Orientation|
                    0 <= j < i ==> (#[trigger] cells@[j].spec_get(o)) is None,
            decreases len - i,
        {
            cells.push(crate::orientation::OrientationTable::new());
            i = i + 1;
        }
        let ghost cells_snapshot = cells@;
        let mut id_grid = Grid::from_vec(self.grid.size(), cells);
        proof {
            assert(id_grid.cells@ == cells_snapshot);
            assert forall|j: int|
                0 <= j < id_grid.cells@.len() implies (#[trigger] id_grid.cells@[j]).wf() by {
                assert(cells_snapshot[j].wf());
            }
            assert forall|j: int, o: Orientation|
                0 <= j < id_grid.cells@.len() implies (#[trigger] id_grid.cells@[j].spec_get(o))
                    is None by {
                assert(cells_snapshot[j].spec_get(o) is None);
            }
        }
        let n = self.pattern_table.len();
        let mut pid: usize = 0;
        while pid < n
            invariant
                self.wf(),
                pid <= n,
                n == self.pattern_table.table@.len(),
                id_grid.wf(),
                id_grid.size == self.grid.size,
                forall|j: int|
                    0 <= j < id_grid.cells@.len() ==> (#[trigger] id_grid.cells@[j]).wf(),
                forall|j: int, o: Orientation|
                    0 <= j < id_grid.cells@.len() ==> ((#[trigger] id_grid.cells@[j].spec_get(o))
                        matches Some(pid2) ==> spec_id_entry_ok(
                        self.pattern_table.table@,
                        self.grid.size,
                        j,
                        o,
                        pid2,
                    )),
                forall|pid2: int, k2: int|
                    #![trigger self.pattern_table.table@[pid2].coords@[k2]]
                    (pid2 < pid) && 0 <= k2 < self.pattern_table.table@[pid2].coords@.len()
                        && 0 <= pid2 < self.pattern_table.table@.len() ==> id_grid.cells@[
                        self.grid.size.spec_index_of(self.pattern_table.table@[pid2].coords@[k2])
                    ].spec_get(self.pattern_table.table@[pid2].orientation) is Some,
            decreases n - pid,
        {
            let pattern = self.pattern_table.get(pid as u32);
            let num_coords = pattern.coords.len();
            let orientation = pattern.orientation;
            let mut k: usize = 0;
            while k < num_coords
                invariant
                    self.wf(),
                    pid < n,
                    n == self.pattern_table.table@.len(),
                    k <= num_coords,
                    pattern == &self.pattern_table.table@[pid as int],
                    num_coords == pattern.coords@.len(),
                    orientation == pattern.orientation,
                    id_grid.wf(),
                    id_grid.size == self.grid.size,
                    forall|j: int|
                        0 <= j < id_grid.cells@.len() ==> (#[trigger] id_grid.cells@[j]).wf(),
                    forall|j: int, o: Orientation|
                        0 <= j < id_grid.cells@.len() ==> ((#[trigger] id_grid.cells@[j].spec_get(o))
                            matches Some(pid2) ==> spec_id_entry_ok(
                            self.pattern_table.table@,
                            self.grid.size,
                            j,
                            o,
                            pid2,
                        )),
                    forall|pid2: int, k2: int|
                        #![trigger self.pattern_table.table@[pid2].coords@[k2]]
                        (pid2 < pid || (pid2 == pid && k2 < k)) && 0 <= k2 < self.pattern_table.table@[pid2].coords@.len()
                            && 0 <= pid2 < self.pattern_table.table@.len() ==> id_grid.cells@[
                            self.grid.size.spec_index_of(self.pattern_table.table@[pid2].coords@[k2])
                        ].spec_get(self.pattern_table.table@[pid2].orientation) is Some,
                decreases num_coords - k,
            {
                let coord = pattern.coords[k];
                let ghost cells_before = id_grid.cells@;
                proof {
                    id_grid.lemma_index_of_bounds(coord);
                }
                let table = id_grid.get_checked_mut(coord);
                table.insert(orientation, pid as u32);
                proof {
                    assert forall|j: int|
                        0 <= j < id_grid.cells@.len() implies (#[trigger] id_grid.cells@[j]).wf()
                        by {
                        if j != id_grid.spec_index_of(coord) {
                            assert(id_grid.cells@[j] == cells_before[j]);
                        }
                    }
                    let cidx = id_grid.spec_index_of(coord);
                    assert forall|j: int, o: Orientation|
                        0 <= j < id_grid.cells@.len() implies ((#[trigger] id_grid.cells@[
                        j
                    ].spec_get(o)) matches Some(pid2) ==> spec_id_entry_ok(
                        self.pattern_table.table@,
                        self.grid.size,
                        j,
                        o,
                        pid2,
                    )) by {
                        if j == cidx && o == orientation {
                            assert(id_grid.cells@[j].spec_get(o) == Some(pid as u32));
                            assert(self.pattern_table.table@[pid as int].coords@[k as int]
                                == coord);
                            assert(self.grid.size.spec_index_of(coord) == cidx);
                        } else if j == cidx {
                            assert(id_grid.cells@[j].spec_get(o) == cells_before[j].spec_get(o));
                        } else {
                            assert(id_grid.cells@[j] == cells_before[j]);
                        }
                    }
                    assert forall|pid2: int, k2: int|
                        (pid2 < pid || (pid2 == pid && k2 < k + 1)) && 0 <= k2
                            < self.pattern_table.table@[pid2].coords@.len() && 0 <= pid2
                            < self.pattern_table.table@.len() implies id_grid.cells@[
                        self.grid.size.spec_index_of(
                            #[trigger] self.pattern_table.table@[pid2].coords@[k2],
                        )
                    ].spec_get(self.pattern_table.table@[pid2].orientation) is Some by {
                        let c2 = self.pattern_table.table@[pid2].coords@[k2];
                        let o2 = self.pattern_table.table@[pid2].orientation;
                        let j2 = self.grid.size.spec_index_of(c2);
                        assert(self.pattern_table.table@[pid2].wf(self.grid.size));
                        assert(c2.spec_is_valid(self.grid.size));
                        self.grid.size.lemma_index_of_bounds(c2);
                        if pid2 == pid as int && k2 == k as int {
                            assert(id_grid.cells@[j2].spec_get(o2) is Some);
                        } else {
                            assert(cells_before[j2].spec_get(o2) is Some);
                            if j2 == cidx && o2 == orientation {
                                assert(id_grid.cells@[j2].spec_get(o2) == Some(pid as u32));
                            } else if j2 == cidx {
                                assert(id_grid.cells@[j2].spec_get(o2) == cells_before[
                                    j2
                                ].spec_get(o2));
                            } else {
                                assert(id_grid.cells@[j2] == cells_before[j2]);
                            }
                        }
                    }
                }
                k = k + 1;
            }
            pid = pid + 1;
        }
        id_grid
    }

    /// The identity-orientation pattern id at every input cell, or `None`
    /// when some cell has no pattern anchored there in that orientation.
    pub fn id_grid_original_orientation(&self) -> (r: Option<Grid<crate::pattern::PatternId>>)
        requires
            self.wf(),
        ensures
            r matches Some(g) ==> g.wf() && g.size == self.grid.size && forall|c: Coord|
                c.spec_is_valid(g.size) ==> spec_id_entry_ok(
                    self.pattern_table.table@,
                    self.grid.size,
                    g.spec_index_of(c),
                    Orientation::Original,
                    #[trigger] g.spec_get(c),
                ),
            r is None ==> exists|ci: int|
                #![trigger self.grid.cells@[ci]]
                0 <= ci < self.grid.cells@.len() && forall|pid: int, k: int|
                    #![trigger self.pattern_table.table@[pid].coords@[k]]
                    0 <= pid < self.pattern_table.table@.len() && 0 <= k
                        < self.pattern_table.table@[pid].coords@.len()
                        && self.pattern_table.table@[pid].orientation == Orientation::Original
                        ==> self.grid.size.spec_index_of(
                        self.pattern_table.table@[pid].coords@[k],
                    ) != ci,
    {
        let id_grid = self.id_grid();
        let len = id_grid.len();
        let mut cells: Vec<crate::pattern::PatternId> = Vec::new();
        let mut i: usize = 0;
        while i < len
            invariant
                self.wf(),
                id_grid.wf(),
                id_grid.size == self.grid.size,
                forall|j: int|
                    0 <= j < id_grid.cells@.len() ==> (#[trigger] id_grid.cells@[j]).wf(),
                forall|j: int, o: Orientation|
                    0 <= j < id_grid.cells@.len() ==> ((#[trigger] id_grid.cells@[j].spec_get(o))
                        matches Some(pid2) ==> spec_id_entry_ok(
                        self.pattern_table.table@,
                        self.grid.size,
                        j,
                        o,
                        pid2,
                    )),
                forall|pid2: int, k2: int|
                    #![trigger self.pattern_table.table@[pid2].coords@[k2]]
                    0 <= pid2 < self.pattern_table.table@.len() && 0 <= k2
                        < self.pattern_table.table@[pid2].coords@.len() ==> id_grid.cells@[
                        self.grid.size.spec_index_of(
                            self.pattern_table.table@[pid2].coords@[k2],
                        )
                    ].spec_get(self.pattern_table.table@[pid2].orientation) is Some,
                len == self.grid.cells@.len(),
                i <= len,
                len == id_grid.cells@.len(),
                cells@.len() == i,
                forall|j: int|
                    0 <= j < i ==> spec_id_entry_ok(
                        self.pattern_table.table@,
                        self.grid.size,
                        j,
                        Orientation::Original,
                        #[trigger] cells@[j],
                    ),
            decreases len - i,
        {
            let table = id_grid.get_index_checked(i);
            match table.get(crate::orientation::Orientation::Original) {
                Some(pid) => cells.push(pid),
                None => {
                    proof {
                        assert forall|pid2: int, k2: int|
                            0 <= pid2 < self.pattern_table.table@.len() && 0 <= k2
                                < self.pattern_table.table@[pid2].coords@.len()
                                && self.pattern_table.table@[pid2].orientation
                                == Orientation::Original implies self.grid.size.spec_index_of(
                            #[trigger] self.pattern_table.table@[pid2].coords@[k2],
                        ) != i as int by {
                            if self.grid.size.spec_index_of(
                                self.pattern_table.table@[pid2].coords@[k2],
                            ) == i as int {
                                assert(id_grid.cells@[i as int].spec_get(
                                    Orientation::Original,
                                ) is Some);
                            }
                        }
                        assert((i as int) < self.grid.cells@.len());
                        let witness_cell = self.grid.cells@[i as int];
                        assert(witness_cell == self.grid.cells@[i as int]);
                    }
                    return None;
                },
            }
            i = i + 1;
        }
        let result = Grid::from_vec(id_grid.size(), cells);
        proof {
            assert forall|c: Coord| c.spec_is_valid(result.size) implies spec_id_entry_ok(
                self.pattern_table.table@,
                self.grid.size,
                result.spec_index_of(c),
                Orientation::Original,
                #[trigger] result.spec_get(c),
            ) by {
                result.lemma_index_of_bounds(c);
            }
        }
        Some(result)
    }
}

/// Decides adjacency between the two `pattern_size` windows of `grid`
/// anchored at `a` and `b` (identity orientation): whether the window at `b`
/// may sit one step in `b_offset_direction` from the window at `a`.
pub fn are_patterns_compatible(
    a: Coord,
    b: Coord,
    b_offset_direction: CardinalDirection,
    pattern_size: Size,
    grid: &Grid<u32>,
) -> (r: bool)
    requires
        grid.wf(),
        grid.size.x >= 1,
        grid.size.y >= 1,
        pattern_size.wf(),
        pattern_size.x >= 1,
        pattern_size.y >= 1,
    ensures
        r == spec_window_compatible(
            *grid,
            *grid,
            pattern_size,
            a,
            Orientation::Original,
            b,
            Orientation::Original,
            b_offset_direction,
        ),
{
    let slice_a = TiledGridSlice::new(grid, a, pattern_size, Orientation::Original);
    let slice_b = TiledGridSlice::new(grid, b, pattern_size, Orientation::Original);
    are_patterns_compatible_slices(&slice_a, &slice_b, b_offset_direction)
}

} // verus!
