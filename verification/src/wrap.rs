//! Wrap policies: how a possibly out-of-bounds coordinate maps back onto the
//! output grid, if at all. Propagation across a wrapped edge makes the output
//! toroidal along that axis.

use vstd::prelude::*;
use crate::coord::{Coord, Size};

verus! {

/// The value `value` wrapped into `[0, size)`. `%` on `int` is Euclidean
/// here, so the result is non-negative for positive `size`.
pub open spec fn spec_wrap_value(value: int, size: int) -> int {
    value % size
}

/// True when `value` lies in `[0, size)` as-is.
pub fn value_is_valid(value: i32, size: u32) -> (r: bool)
    ensures
        r == (0 <= value < size),
{
    value >= 0 && (value as u32) < size
}

/// Wraps `value` into `[0, size)`, congruent to `value` modulo `size`.
pub fn normalize_value(value: i32, size: u32) -> (r: i32)
    requires
        1 <= size <= i32::MAX,
    ensures
        r == spec_wrap_value(value as int, size as int),
        0 <= r < size,
{
    normalize_value_i64(value as i64, size)
}

/// As `normalize_value`, for sums of coordinates that may exceed `i32`.
pub fn normalize_value_i64(value: i64, size: u32) -> (r: i32)
    requires
        1 <= size <= i32::MAX,
        i64::MIN < value,
    ensures
        r == spec_wrap_value(value as int, size as int),
        0 <= r < size,
{
    if value >= 0 {
        let m: u64 = (value as u64) % (size as u64);
        m as i32
    } else {
        let d: u64 = (-value) as u64;
        let s: u64 = size as u64;
        let m: u64 = d % s;
        let r: u64 = if m == 0 {
            0
        } else {
            s - m
        };
        proof {
            let v = value as int;
            let si = size as int;
            let q = d as int / si;
            vstd::arithmetic::div_mod::lemma_fundamental_div_mod(d as int, si);
            assert(si * (-q) == -(si * q) && si * (-q - 1) == -(si * q) - si)
                by (nonlinear_arith);
            if m == 0 {
                assert(v == si * (-q) + 0);
                vstd::arithmetic::div_mod::lemma_mod_multiples_vanish(-q, 0, si);
                vstd::arithmetic::div_mod::lemma_small_mod(0, size as nat);
            } else {
                assert(v == si * (-q - 1) + (si - m));
                vstd::arithmetic::div_mod::lemma_mod_multiples_vanish(-q - 1, si - m as int, si);
                vstd::arithmetic::div_mod::lemma_small_mod((si - m as int) as nat, size as nat);
            }
        }
        r as i32
    }
}

/// A coordinate-normalization policy. `spec_normalize` is the policy's
/// mathematical definition; `normalize_coord` computes it.
pub trait Wrap: Sized + Clone {
    spec fn spec_normalize(coord: Coord, size: Size) -> Option<Coord>;

    fn normalize_coord(coord: Coord, size: Size) -> (r: Option<Coord>)
        requires
            size.wf(),
            size.x >= 1,
            size.y >= 1,
        ensures
            r == Self::spec_normalize(coord, size),
            r matches Some(c) ==> c.spec_is_valid(size),
    ;
}

/// No wrapping: out-of-bounds coordinates have no cell.
#[derive(Clone, Copy, Debug)]
pub struct WrapNone;

/// Wrap along the `x` axis only.
#[derive(Clone, Copy, Debug)]
pub struct WrapX;

/// Wrap along the `y` axis only.
#[derive(Clone, Copy, Debug)]
pub struct WrapY;

/// Wrap along both axes: the output is a torus.
#[derive(Clone, Copy, Debug)]
pub struct WrapXY;

impl Wrap for WrapNone {
    open spec fn spec_normalize(coord: Coord, size: Size) -> Option<Coord> {
        if coord.spec_is_valid(size) {
            Some(coord)
        } else {
            None
        }
    }

    fn normalize_coord(coord: Coord, size: Size) -> (r: Option<Coord>) {
        if coord.is_valid(size) {
            Some(coord)
        } else {
            None
        }
    }
}

impl Wrap for WrapX {
    open spec fn spec_normalize(coord: Coord, size: Size) -> Option<Coord> {
        if 0 <= coord.y < size.y {
            Some(Coord { x: spec_wrap_value(coord.x as int, size.x as int) as i32, y: coord.y })
        } else {
            None
        }
    }

    fn normalize_coord(coord: Coord, size: Size) -> (r: Option<Coord>) {
        if value_is_valid(coord.y, size.y) {
            let x = normalize_value(coord.x, size.x);
            Some(Coord::new(x, coord.y))
        } else {
            None
        }
    }
}

impl Wrap for WrapY {
    open spec fn spec_normalize(coord: Coord, size: Size) -> Option<Coord> {
        if 0 <= coord.x < size.x {
            Some(Coord { x: coord.x, y: spec_wrap_value(coord.y as int, size.y as int) as i32 })
        } else {
            None
        }
    }

    fn normalize_coord(coord: Coord, size: Size) -> (r: Option<Coord>) {
        if value_is_valid(coord.x, size.x) {
            let y = normalize_value(coord.y, size.y);
            Some(Coord::new(coord.x, y))
        } else {
            None
        }
    }
}

impl Wrap for WrapXY {
    open spec fn spec_normalize(coord: Coord, size: Size) -> Option<Coord> {
        Some(Coord {
            x: spec_wrap_value(coord.x as int, size.x as int) as i32,
            y: spec_wrap_value(coord.y as int, size.y as int) as i32,
        })
    }

    fn normalize_coord(coord: Coord, size: Size) -> (r: Option<Coord>) {
        let x = normalize_value(coord.x, size.x);
        let y = normalize_value(coord.y, size.y);
        Some(Coord::new(x, y))
    }
}

} // verus!
