//! Tests of the leaf components: wrapping, orientations, tiled slices and
//! pattern adjacency.

use wfc::coord::{Coord, Size};
use wfc::direction::CardinalDirection;
use wfc::grid::Grid;
use wfc::orientation::{Orientation, OrientationTable};
use wfc::overlapping::are_patterns_compatible;
use wfc::tiled_slice::TiledGridSlice;
use wfc::wrap::{normalize_value, value_is_valid, Wrap, WrapNone, WrapX, WrapXY, WrapY};

fn grid_from_rows(rows: &[&[u32]]) -> Grid<u32> {
    let h = rows.len() as u32;
    let w = rows[0].len() as u32;
    let mut cells = Vec::new();
    for row in rows {
        assert_eq!(row.len() as u32, w);
        for &v in *row {
            cells.push(v);
        }
    }
    Grid::from_vec(Size::new(w, h), cells)
}

#[test]
fn wraps() {
    assert_eq!(
        WrapNone::normalize_coord(Coord::new(2, 3), Size::new(4, 5)),
        Some(Coord::new(2, 3))
    );
    assert_eq!(WrapNone::normalize_coord(Coord::new(4, 3), Size::new(4, 5)), None);
    assert_eq!(
        WrapX::normalize_coord(Coord::new(4, 3), Size::new(4, 5)),
        Some(Coord::new(0, 3))
    );
    assert_eq!(WrapY::normalize_coord(Coord::new(4, 3), Size::new(4, 5)), None);
    assert_eq!(
        WrapY::normalize_coord(Coord::new(2, 6), Size::new(4, 5)),
        Some(Coord::new(2, 1))
    );
    assert_eq!(
        WrapXY::normalize_coord(Coord::new(2, 6), Size::new(4, 5)),
        Some(Coord::new(2, 1))
    );
}

#[test]
fn wrap_values() {
    assert!(value_is_valid(0, 4));
    assert!(!value_is_valid(-1, 4));
    assert!(!value_is_valid(4, 4));
    assert_eq!(normalize_value(-1, 4), 3);
    assert_eq!(normalize_value(-4, 4), 0);
    assert_eq!(normalize_value(7, 4), 3);
    assert_eq!(normalize_value(i32::MIN, 3), ((i32::MIN as i64).rem_euclid(3)) as i32);
}

#[test]
fn checks() {
    let size = Size::new(3, 3);
    assert_eq!(
        Orientation::Clockwise90.transform_coord(size, Coord::new(1, 2)),
        Coord::new(2, 1)
    );
    assert_eq!(
        Orientation::Clockwise90.transform_coord(size, Coord::new(0, 0)),
        Coord::new(0, 2)
    );
}

#[test]
fn orientation_table_inserts() {
    let mut table: OrientationTable<u32> = OrientationTable::new();
    assert_eq!(table.get(Orientation::Original), None);
    table.insert(Orientation::Original, 7);
    table.insert(Orientation::Clockwise180, 9);
    assert_eq!(table.get(Orientation::Original), Some(7));
    assert_eq!(table.get(Orientation::Clockwise180), Some(9));
    assert_eq!(table.get(Orientation::Clockwise90), None);
    assert_eq!(table.iter(), vec![7, 9]);
}

#[test]
fn tiling() {
    // a grid whose value at (x, y) encodes the coordinate, so a wrapped read
    // is visible in the value
    let mut cells = Vec::new();
    for y in 0..4u32 {
        for x in 0..4u32 {
            cells.push(y * 4 + x);
        }
    }
    let grid = Grid::from_vec(Size::new(4, 4), cells);
    let slice = TiledGridSlice::new(&grid, Coord::new(-1, -1), Size::new(2, 2), Orientation::Original);
    let value = *slice.get_checked(Coord::new(0, 1));
    // offset (-1, -1) + (0, 1) = (-1, 0), wrapped to (3, 0)
    assert_eq!(value, 3);
}

#[test]
fn tiled_grid_slice_hash() {
    let mut cells = vec![0u32; 16];
    cells[3 * 4 + 1] = 1;
    let grid = Grid::from_vec(Size::new(4, 4), cells);
    let size = Size::new(2, 2);
    let a = TiledGridSlice::new(&grid, Coord::new(0, 0), size, Orientation::Original);
    let b = TiledGridSlice::new(&grid, Coord::new(2, 2), size, Orientation::Original);
    let c = TiledGridSlice::new(&grid, Coord::new(0, 2), size, Orientation::Original);
    let d = TiledGridSlice::new(&grid, Coord::new(1, 2), size, Orientation::Clockwise270);
    // count the distinct patterns among the four slices by content equality
    let slices = [&a, &b, &c, &d];
    let mut distinct = 0;
    for i in 0..slices.len() {
        let mut seen_before = false;
        for j in 0..i {
            if slices[i].equals(slices[j]) {
                seen_before = true;
            }
        }
        if !seen_before {
            distinct += 1;
        }
    }
    assert_eq!(distinct, 2);
}

#[test]
fn overlapping_compatibile_patterns() {
    let r = 0u32;
    let b = 1u32;
    let grid = grid_from_rows(&[&[r, b, b], &[b, r, b]]);
    let pattern_size = Size::new(2, 2);
    assert!(are_patterns_compatible(
        Coord::new(0, 0),
        Coord::new(1, 0),
        CardinalDirection::East,
        pattern_size,
        &grid,
    ));
    assert!(are_patterns_compatible(
        Coord::new(0, 0),
        Coord::new(1, 0),
        CardinalDirection::North,
        pattern_size,
        &grid,
    ));
    assert!(!are_patterns_compatible(
        Coord::new(0, 0),
        Coord::new(1, 0),
        CardinalDirection::South,
        pattern_size,
        &grid,
    ));
    assert!(!are_patterns_compatible(
        Coord::new(0, 0),
        Coord::new(1, 0),
        CardinalDirection::West,
        pattern_size,
        &grid,
    ));
}

#[test]
fn main_compatibile_patterns() {
    // the same shape with colour-valued cells: red and blue packed as rgb
    let r = 255u32 << 16;
    let b = 255u32;
    let grid = grid_from_rows(&[&[r, b, b], &[b, r, b]]);
    let pattern_size = Size::new(2, 2);
    assert!(are_patterns_compatible(
        Coord::new(0, 0),
        Coord::new(1, 0),
        CardinalDirection::East,
        pattern_size,
        &grid,
    ));
    assert!(are_patterns_compatible(
        Coord::new(0, 0),
        Coord::new(1, 0),
        CardinalDirection::North,
        pattern_size,
        &grid,
    ));
    assert!(!are_patterns_compatible(
        Coord::new(0, 0),
        Coord::new(1, 0),
        CardinalDirection::South,
        pattern_size,
        &grid,
    ));
    assert!(!are_patterns_compatible(
        Coord::new(0, 0),
        Coord::new(1, 0),
        CardinalDirection::West,
        pattern_size,
        &grid,
    ));
}
