//! Tests of the statistics layer: fixed-point logarithms, weights, and the
//! aggregates of `GlobalStats`.

use wfc::direction::CardinalDirectionTable;
use wfc::entropy::log2_fix;
use wfc::pattern::{GlobalStats, PatternDescription, PatternTable, PatternWeight};

fn neighbours(
    north: Vec<u32>,
    east: Vec<u32>,
    south: Vec<u32>,
    west: Vec<u32>,
) -> CardinalDirectionTable<Vec<u32>> {
    CardinalDirectionTable { north, east, south, west }
}

#[test]
fn log2_fix_on_powers_of_two() {
    assert_eq!(log2_fix(1), 0);
    assert_eq!(log2_fix(2), 1 << 16);
    assert_eq!(log2_fix(4), 2 << 16);
    assert_eq!(log2_fix(1 << 20), 20 << 16);
    assert_eq!(log2_fix(1 << 31), 31 << 16);
}

#[test]
fn log2_fix_orders_values() {
    // between consecutive powers of two, and monotone over a few samples
    assert!(log2_fix(3) > 1 << 16);
    assert!(log2_fix(3) < 2 << 16);
    let mut previous = log2_fix(1);
    for x in [2u32, 3, 5, 9, 100, 1000, u32::MAX] {
        let next = log2_fix(x);
        assert!(next > previous);
        previous = next;
    }
}

#[test]
fn pattern_weight_carries_weight_log_weight() {
    let w = PatternWeight::new(4);
    assert_eq!(w.weight(), 4);
    assert_eq!(w.weight_log_weight(), 4 * (2 << 16));
    let one = PatternWeight::new(1);
    assert_eq!(one.weight_log_weight(), 0);
}

#[test]
fn global_stats_aggregates() {
    // three patterns: weights 2, none, 3; all pairs compatible everywhere
    let all = || vec![0u32, 1, 2];
    let mut descs = Vec::new();
    descs.push(PatternDescription::new(Some(2), neighbours(all(), all(), all(), all())));
    descs.push(PatternDescription::new(None, neighbours(all(), all(), all(), all())));
    descs.push(PatternDescription::new(Some(3), neighbours(all(), all(), all(), all())));
    let stats = GlobalStats::new(PatternTable::from_vec(descs));
    assert_eq!(stats.num_patterns(), 3);
    assert_eq!(stats.num_weighted_patterns(), 2);
    assert_eq!(stats.sum_pattern_weight(), 5);
    assert_eq!(
        stats.sum_pattern_weight_log_weight(),
        2 * (1 << 16) + 3 * log2_fix(3)
    );
    assert!(stats.pattern_stats(1).is_none());
    assert_eq!(stats.pattern_stats(2).unwrap().weight(), 3);
    assert_eq!(
        stats
            .compatible_patterns_in_direction(0, wfc::direction::CardinalDirection::North)
            .clone(),
        vec![0, 1, 2]
    );
}

#[test]
fn pattern_table_basics() {
    let mut table: PatternTable<u32> = PatternTable::from_vec(vec![5, 6, 7]);
    assert_eq!(table.len(), 3);
    assert_eq!(*table.get(1), 6);
    assert_eq!(table.iter().clone(), vec![5, 6, 7]);
    let pairs = table.enumerate();
    assert_eq!(pairs, vec![(0, 5), (1, 6), (2, 7)]);
    table.iter_mut()[0] = 50;
    assert_eq!(*table.get(0), 50);
    table.resize(5, 9);
    assert_eq!(table.len(), 5);
    let drained = table.drain();
    assert_eq!(drained, vec![50, 6, 7, 9, 9]);
    assert_eq!(table.len(), 0);
    let empty: PatternTable<u32> = PatternTable::new();
    assert_eq!(empty.len(), 0);
}
