//! End-to-end solver tests: extraction, collapse, forbids, retries and
//! determinism.

use rand::SeedableRng;
use rand_xorshift::XorShiftRng;
use wfc::context::Observe;
use wfc::coord::{Coord, Size};
use wfc::direction::{CardinalDirection, CardinalDirectionTable};
use wfc::grid::Grid;
use wfc::overlapping::OverlappingPatterns;
use wfc::pattern::{GlobalStats, PatternDescription, PatternTable};
use wfc::propagator::PropagateError;
use wfc::retry::NumTimes;
use wfc::run::{EnumerateCompatiblePatternWeights, ForbidPatternError, RunOwn};
use wfc::wave::ChosenPatternIdError;

fn grid_from_rows(rows: &[&[u32]]) -> Grid<u32> {
    let h = rows.len() as u32;
    let w = rows[0].len() as u32;
    let mut cells = Vec::new();
    for row in rows {
        for &v in *row {
            cells.push(v);
        }
    }
    Grid::from_vec(Size::new(w, h), cells)
}

fn stripes_patterns() -> OverlappingPatterns {
    let grid = grid_from_rows(&[&[0, 1], &[0, 1]]);
    OverlappingPatterns::new_original_orientation(grid, Size::new(2, 2))
}

fn neighbours(
    north: Vec<u32>,
    east: Vec<u32>,
    south: Vec<u32>,
    west: Vec<u32>,
) -> CardinalDirectionTable<Vec<u32>> {
    CardinalDirectionTable { north, east, south, west }
}

/// The top-left value of the pattern chosen at every cell of a completed run.
fn output_values<W: wfc::wrap::Wrap, F: wfc::run::ForbidPattern>(
    run: &RunOwn<W, F>,
    op: &OverlappingPatterns,
    stats: &GlobalStats,
) -> Vec<u32> {
    let size = run.wave_size();
    let mut out = Vec::new();
    for y in 0..size.height() as i32 {
        for x in 0..size.width() as i32 {
            let cell = run.wave_cell_ref(Coord::new(x, y), stats);
            let pid = cell.chosen_pattern_id().expect("cell not decided");
            out.push(op.pattern_top_left_value(pid));
        }
    }
    out
}

#[test]
fn stripes_complete_with_monochrome_columns() {
    let op = stripes_patterns();
    let stats = op.global_stats();
    let mut rng = XorShiftRng::seed_from_u64(3);
    let run = RunOwn::new(Size::new(4, 4), &stats, &mut rng);
    let run = {
        let mut run = run;
        let result = run.collapse(&stats, &mut rng);
        assert!(result.is_ok());
        run
    };
    let values = output_values(&run, &op, &stats);
    for x in 0..4 {
        let top = values[x];
        for y in 0..4 {
            assert_eq!(values[y * 4 + x], top, "column {} is not monochrome", x);
        }
    }
}

#[test]
fn unreachable_pattern_is_unadmitted_at_init() {
    // the second pattern's list for one direction is empty, so one of its
    // initial support counts is zero
    let all = || vec![0u32, 1];
    let mut descs = Vec::new();
    descs.push(PatternDescription::new(Some(1), neighbours(all(), all(), all(), all())));
    descs.push(PatternDescription::new(Some(1), neighbours(vec![], all(), all(), all())));
    let stats = GlobalStats::new(PatternTable::from_vec(descs));
    let mut rng = XorShiftRng::seed_from_u64(1);
    let wave = wfc::wave::Wave::new(Size::new(3, 3), &stats, &mut rng);
    for y in 0..3 {
        for x in 0..3 {
            let cell = wave.get_checked(Coord::new(x, y));
            assert!(cell.is_pattern_compatible(0, &stats));
            assert!(!cell.is_pattern_compatible(1, &stats));
        }
    }
}

#[test]
fn contradiction_surfaces_with_no_retries() {
    // two patterns that must alternate horizontally: on a 3-wide wrapped
    // output the parity cannot close, so every attempt contradicts
    let p0 = PatternDescription::new(Some(1), neighbours(vec![0], vec![1], vec![0], vec![1]));
    let p1 = PatternDescription::new(Some(1), neighbours(vec![1], vec![0], vec![1], vec![0]));
    let stats = GlobalStats::new(PatternTable::from_vec(vec![p0, p1]));
    let mut rng = XorShiftRng::seed_from_u64(5);
    let run = RunOwn::new(Size::new(3, 3), &stats, &mut rng);
    let result = run.collapse_retrying(NumTimes(0), &stats, &mut rng);
    match result {
        Err(PropagateError::Contradiction) => (),
        Ok(_) => panic!("expected a contradiction"),
    }
}

#[test]
fn solvable_stats_complete_under_retries() {
    // the same alternating patterns on an even-sized wrapped output tile
    let p0 = PatternDescription::new(Some(1), neighbours(vec![0], vec![1], vec![0], vec![1]));
    let p1 = PatternDescription::new(Some(1), neighbours(vec![1], vec![0], vec![1], vec![0]));
    let stats = GlobalStats::new(PatternTable::from_vec(vec![p0, p1]));
    let mut rng = XorShiftRng::seed_from_u64(5);
    let run = RunOwn::new(Size::new(4, 4), &stats, &mut rng);
    let result = run.collapse_retrying(NumTimes(50), &stats, &mut rng);
    assert!(result.is_ok());
}

#[test]
fn forbid_anchor_fixes_last_row() {
    // horizontal stripes: a whole row may hold one pattern
    let grid = grid_from_rows(&[&[0, 0], &[1, 1]]);
    let op = OverlappingPatterns::new_original_orientation(grid, Size::new(2, 2));
    let stats = op.global_stats();
    let mut rng = XorShiftRng::seed_from_u64(11);
    let mut run = RunOwn::new(Size::new(8, 8), &stats, &mut rng);
    let anchor_value = op.pattern_top_left_value(0);
    for x in 0..8 {
        run.forbid_all_patterns_except(Coord::new(x, 7), 0, &stats, &mut rng)
            .expect("anchoring the last row should not contradict");
    }
    run.collapse(&stats, &mut rng).expect("completion");
    let values = output_values(&run, &op, &stats);
    for x in 0..8 {
        assert_eq!(values[7 * 8 + x], anchor_value);
    }
}

#[test]
fn forbidding_the_last_pattern_is_rejected() {
    let op = stripes_patterns();
    let stats = op.global_stats();
    let mut rng = XorShiftRng::seed_from_u64(11);
    let mut run = RunOwn::new(Size::new(4, 4), &stats, &mut rng);
    run.forbid_all_patterns_except(Coord::new(0, 0), 0, &stats, &mut rng)
        .expect("anchoring one cell");
    let result = run.forbid_pattern(Coord::new(0, 0), 0, &stats, &mut rng);
    assert_eq!(result, Err(ForbidPatternError::WouldCauseContradiction));
    // forbidding an already-absent pattern is a quiet success
    let other = run.forbid_pattern(Coord::new(0, 0), 1, &stats, &mut rng);
    assert_eq!(other, Ok(()));
}

#[test]
fn identity_assignment_round_trips() {
    // the input grid taken as its own output: forcing every cell to its own
    // pattern propagates without contradiction
    let op = stripes_patterns();
    let stats = op.global_stats();
    let ids = op
        .id_grid_original_orientation()
        .expect("every cell anchors a pattern in the original orientation");
    let mut rng = XorShiftRng::seed_from_u64(2);
    let mut run = RunOwn::new(Size::new(2, 2), &stats, &mut rng);
    for y in 0..2 {
        for x in 0..2 {
            let c = Coord::new(x, y);
            let pid = *ids.get_checked(c);
            run.forbid_all_patterns_except(c, pid, &stats, &mut rng)
                .expect("the identity assignment is consistent");
        }
    }
    run.collapse(&stats, &mut rng).expect("completion");
    for y in 0..2 {
        for x in 0..2 {
            let c = Coord::new(x, y);
            let cell = run.wave_cell_ref(c, &stats);
            assert_eq!(cell.chosen_pattern_id(), Ok(*ids.get_checked(c)));
        }
    }
}

#[test]
fn identical_seeds_give_identical_outputs() {
    let mut outputs = Vec::new();
    for _ in 0..2 {
        let op = stripes_patterns();
        let stats = op.global_stats();
        let mut rng = XorShiftRng::seed_from_u64(42);
        let mut run = RunOwn::new(Size::new(6, 6), &stats, &mut rng);
        run.collapse(&stats, &mut rng).expect("completion");
        outputs.push(output_values(&run, &op, &stats));
    }
    assert_eq!(outputs[0], outputs[1]);
}

#[test]
fn stepping_reaches_completion() {
    let op = stripes_patterns();
    let stats = op.global_stats();
    let mut rng = XorShiftRng::seed_from_u64(9);
    let mut run = RunOwn::new(Size::new(4, 4), &stats, &mut rng);
    let mut steps = 0;
    loop {
        match run.step(&stats, &mut rng) {
            Ok(Observe::Complete) => break,
            Ok(Observe::Incomplete) => steps += 1,
            Err(_) => {
                // a contradiction resets the run; keep stepping
                steps += 1;
            }
        }
        assert!(steps < 1000, "solve did not terminate in a reasonable time");
    }
}

#[test]
fn fresh_cells_report_multiple_patterns() {
    let op = stripes_patterns();
    let stats = op.global_stats();
    let mut rng = XorShiftRng::seed_from_u64(1);
    let run = RunOwn::new(Size::new(4, 4), &stats, &mut rng);
    let cell = run.wave_cell_ref(Coord::new(1, 1), &stats);
    assert_eq!(
        cell.chosen_pattern_id(),
        Err(ChosenPatternIdError::MultipleCompatiblePatterns)
    );
    match cell.enumerate_compatible_pattern_weights() {
        EnumerateCompatiblePatternWeights::CompatiblePatternsWithWeights(weights) => {
            // the stripes input has two patterns, each seen twice
            assert_eq!(weights, vec![(0, 2), (1, 2)]);
        }
        _ => panic!("a fresh cell admits weighted patterns"),
    }
    assert_eq!(cell.sum_compatible_pattern_weight(), 4);
}

#[test]
fn no_compatible_patterns_is_reported() {
    // a single unweighted pattern with no support anywhere: unadmitted from
    // the start, so every cell has nothing
    let p0 = PatternDescription::new(None, neighbours(vec![], vec![], vec![], vec![]));
    let stats = GlobalStats::new(PatternTable::from_vec(vec![p0]));
    let mut rng = XorShiftRng::seed_from_u64(1);
    let wave = wfc::wave::Wave::new(Size::new(2, 2), &stats, &mut rng);
    let cell = wave.get_checked(Coord::new(0, 0));
    assert_eq!(
        cell.chosen_pattern_id(&stats),
        Err(ChosenPatternIdError::NoCompatiblePatterns)
    );
}

#[test]
fn weighted_sampling_lands_by_cumulative_weight() {
    // weights 1 and 2: draw 0 lands on the first pattern, draws 1 and 2 on
    // the second
    let all = || vec![0u32, 1];
    let p0 = PatternDescription::new(Some(1), neighbours(all(), all(), all(), all()));
    let p1 = PatternDescription::new(Some(2), neighbours(all(), all(), all(), all()));
    let stats = GlobalStats::new(PatternTable::from_vec(vec![p0, p1]));
    let mut rng = XorShiftRng::seed_from_u64(1);
    let wave = wfc::wave::Wave::new(Size::new(1, 1), &stats, &mut rng);
    let cell = wave.get_checked(Coord::new(0, 0));
    assert_eq!(cell.pick_weighted_pattern(&stats, 0), 0);
    assert_eq!(cell.pick_weighted_pattern(&stats, 1), 1);
    assert_eq!(cell.pick_weighted_pattern(&stats, 2), 1);
}

#[test]
fn extraction_counts_and_order() {
    let op = stripes_patterns();
    // two distinct 2x2 windows on the wrapped stripes input, each twice
    assert_eq!(op.pattern_table.len(), 2);
    assert_eq!(op.pattern(0).count, 2);
    assert_eq!(op.pattern(1).count, 2);
    // representatives are ordered by x then y
    let c0 = op.pattern(0).coord();
    let c1 = op.pattern(1).coord();
    assert!(c0.x < c1.x || (c0.x == c1.x && c0.y <= c1.y));
    // the two patterns start with different columns
    let v0 = op.pattern_top_left_value(0);
    let v1 = op.pattern_top_left_value(1);
    assert_ne!(v0, v1);
}

#[test]
fn cleared_counts_make_patterns_unsampleable() {
    let op = {
        let mut op = stripes_patterns();
        op.pattern_mut(1).clear_count();
        op
    };
    let stats = op.global_stats();
    assert_eq!(stats.num_weighted_patterns(), 1);
    assert!(stats.pattern_stats(1).is_none());
    assert_eq!(stats.num_patterns(), 2);
}

#[test]
fn forced_corner_adjacency_in_stats() {
    // the 3x2 two-colour input: the pattern at (0,0) tolerates the one at
    // (1,0) to its east and north, but not south or west
    let r = 0u32;
    let b = 1u32;
    let grid = grid_from_rows(&[&[r, b, b], &[b, r, b]]);
    let op = OverlappingPatterns::new_original_orientation(grid, Size::new(2, 2));
    let ids = op.id_grid_original_orientation().expect("identity ids");
    let id_a = *ids.get_checked(Coord::new(0, 0));
    let id_b = *ids.get_checked(Coord::new(1, 0));
    let stats = op.global_stats();
    let east = stats.compatible_patterns_in_direction(id_a, CardinalDirection::East);
    assert!(east.contains(&id_b));
    let north = stats.compatible_patterns_in_direction(id_a, CardinalDirection::North);
    assert!(north.contains(&id_b));
    let south = stats.compatible_patterns_in_direction(id_a, CardinalDirection::South);
    assert!(!south.contains(&id_b));
    let west = stats.compatible_patterns_in_direction(id_a, CardinalDirection::West);
    assert!(!west.contains(&id_b));
}
