//! Two-dimensional coordinates and grid sizes.

use vstd::prelude::*;

verus! {

/// A position in a grid. May lie outside the grid; wrap policies decide
/// whether and how such a position maps back onto the grid.
#[derive(Clone, Copy, Debug, PartialEq, Eq, Structural)]
pub struct Coord {
    pub x: i32,
    pub y: i32,
}

/// The dimensions of a grid. Each axis is at most `i32::MAX`, so that every
/// in-bounds position fits in a `Coord`.
#[derive(Clone, Copy, Debug, PartialEq, Eq, Structural)]
pub struct Size {
    pub x: u32,
    pub y: u32,
}

impl Coord {
    pub fn new(x: i32, y: i32) -> (r: Coord)
        ensures
            r.x == x,
            r.y == y,
    {
        Coord { x, y }
    }

    /// True when the coordinate lies inside a grid of the given size.
    pub open spec fn spec_is_valid(self, size: Size) -> bool {
        0 <= self.x < size.x && 0 <= self.y < size.y
    }

    pub fn is_valid(&self, size: Size) -> (r: bool)
        ensures
            r == self.spec_is_valid(size),
    {
        self.x >= 0 && (self.x as u32) < size.x && self.y >= 0 && (self.y as u32) < size.y
    }
}

impl Size {
    /// Both axes fit in an `i32`, so every in-bounds position is a `Coord`.
    pub open spec fn wf(self) -> bool {
        self.x <= i32::MAX && self.y <= i32::MAX
    }

    pub fn new(x: u32, y: u32) -> (r: Size)
        requires
            x <= i32::MAX,
            y <= i32::MAX,
        ensures
            r.x == x,
            r.y == y,
            r.wf(),
    {
        Size { x, y }
    }

    /// The number of cells in a grid of this size.
    pub open spec fn spec_count(self) -> int {
        self.x * self.y
    }

    pub fn width(&self) -> (r: u32)
        ensures
            r == self.x,
    {
        self.x
    }

    pub fn height(&self) -> (r: u32)
        ensures
            r == self.y,
    {
        self.y
    }

    pub fn count(&self) -> (r: u64)
        ensures
            r == self.spec_count(),
    {
        proof {
            assert(self.x as int * self.y as int <= u32::MAX as int * u32::MAX as int)
                by (nonlinear_arith)
                requires
                    self.x <= u32::MAX,
                    self.y <= u32::MAX,
            ;
        }
        self.x as u64 * self.y as u64
    }

    /// The row-major index of an in-bounds coordinate.
    pub open spec fn spec_index_of(self, coord: Coord) -> int {
        coord.y * self.x + coord.x
    }

    /// The in-bounds coordinate whose row-major index is `index`.
    pub open spec fn spec_coord_of_index(self, index: int) -> Coord {
        Coord { x: (index % self.x as int) as i32, y: (index / self.x as int) as i32 }
    }

    pub proof fn lemma_index_of_bounds(self, coord: Coord)
        requires
            self.wf(),
            coord.spec_is_valid(self),
        ensures
            0 <= self.spec_index_of(coord) < self.spec_count(),
    {
        assert(coord.y * self.x + coord.x < self.x * self.y && 0 <= coord.y * self.x)
            by (nonlinear_arith)
            requires
                0 <= coord.x < self.x,
                0 <= coord.y < self.y,
        ;
    }

    pub proof fn lemma_coord_of_index(self, index: int)
        requires
            self.wf(),
            self.x >= 1,
            0 <= index < self.spec_count(),
        ensures
            self.spec_coord_of_index(index).spec_is_valid(self),
            self.spec_index_of(self.spec_coord_of_index(index)) == index,
    {
        let sx = self.x as int;
        let sy = self.y as int;
        vstd::arithmetic::div_mod::lemma_fundamental_div_mod(index, sx);
        vstd::arithmetic::div_mod::lemma_mod_division_less_than_divisor(index, sx);
        assert(0 <= index / sx < sy && (index / sx) * sx + index % sx == index)
            by (nonlinear_arith)
            requires
                sx >= 1,
                0 <= index < sx * sy,
                index == sx * (index / sx) + index % sx,
                0 <= index % sx < sx,
        ;
    }

    pub fn coord_of_index(&self, index: u64) -> (r: Coord)
        requires
            self.wf(),
            self.x >= 1,
            index < self.spec_count(),
        ensures
            r == self.spec_coord_of_index(index as int),
            r.spec_is_valid(*self),
            self.spec_index_of(r) == index,
    {
        proof {
            self.lemma_coord_of_index(index as int);
        }
        let x = (index % self.x as u64) as i32;
        let y = (index / self.x as u64) as i32;
        Coord { x, y }
    }
}

} // verus!
