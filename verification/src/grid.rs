//! A fixed-size 2D array stored row-major, with toroidal reads.

use vstd::prelude::*;
use crate::coord::{Coord, Size};
use crate::wrap::{normalize_value, spec_wrap_value};

verus! {

/// A rectangular array of `T`, `size.x` columns by `size.y` rows, stored in
/// row-major order.
pub struct Grid<T> {
    pub size: Size,
    pub cells: Vec<T>,
}

impl<T> Grid<T> {
    pub open spec fn wf(self) -> bool {
        &&& self.size.wf()
        &&& self.cells@.len() == self.size.spec_count()
    }

    /// The row-major index of an in-bounds coordinate.
    pub open spec fn spec_index_of(self, coord: Coord) -> int {
        coord.y * self.size.x + coord.x
    }

    pub open spec fn spec_get(self, coord: Coord) -> T {
        self.cells@[self.spec_index_of(coord)]
    }

    /// The value at `coord` wrapped onto the grid along both axes.
    pub open spec fn spec_get_tiled(self, coord: Coord) -> T {
        self.spec_get(Coord {
            x: spec_wrap_value(coord.x as int, self.size.x as int) as i32,
            y: spec_wrap_value(coord.y as int, self.size.y as int) as i32,
        })
    }

    pub proof fn lemma_index_of_bounds(self, coord: Coord)
        requires
            self.wf(),
            coord.spec_is_valid(self.size),
        ensures
            0 <= self.spec_index_of(coord) < self.size.spec_count(),
    {
        assert(coord.y * self.size.x + coord.x < self.size.x * self.size.y
            && 0 <= coord.y * self.size.x) by (nonlinear_arith)
            requires
                0 <= coord.x < self.size.x,
                0 <= coord.y < self.size.y,
        ;
    }

    /// Distinct in-bounds coordinates have distinct row-major indices.
    pub proof fn lemma_index_of_injective(self, a: Coord, b: Coord)
        requires
            self.wf(),
            a.spec_is_valid(self.size),
            b.spec_is_valid(self.size),
            self.spec_index_of(a) == self.spec_index_of(b),
        ensures
            a == b,
    {
        assert(a.y == b.y && a.x == b.x) by (nonlinear_arith)
            requires
                0 <= a.x < self.size.x,
                0 <= a.y < self.size.y,
                0 <= b.x < self.size.x,
                0 <= b.y < self.size.y,
                a.y * self.size.x + a.x == b.y * self.size.x + b.x,
        ;
    }

    pub fn from_vec(size: Size, cells: Vec<T>) -> (r: Grid<T>)
        requires
            size.wf(),
            cells@.len() == size.spec_count(),
        ensures
            r.wf(),
            r.size == size,
            r.cells == cells,
    {
        Grid { size, cells }
    }

    pub fn size(&self) -> (r: Size)
        ensures
            r == self.size,
    {
        self.size
    }

    pub fn index_of_coord(&self, coord: Coord) -> (r: usize)
        requires
            self.wf(),
            coord.spec_is_valid(self.size),
        ensures
            r == self.spec_index_of(coord),
            r < self.cells@.len(),
    {
        proof {
            self.lemma_index_of_bounds(coord);
            assert(coord.y as int * self.size.x as int <= i32::MAX as int * i32::MAX as int)
                by (nonlinear_arith)
                requires
                    0 <= coord.y <= i32::MAX,
                    0 <= self.size.x <= i32::MAX,
            ;
        }
        let idx: u64 = coord.y as u64 * self.size.x as u64 + coord.x as u64;
        proof {
            vstd::std_specs::vec::axiom_spec_len(&self.cells);
            assert(idx < self.cells@.len());
        }
        idx as usize
    }

    /// The in-bounds coordinate whose row-major index is `index`.
    pub open spec fn spec_coord_of_index(self, index: int) -> Coord {
        Coord {
            x: (index % self.size.x as int) as i32,
            y: (index / self.size.x as int) as i32,
        }
    }

    pub proof fn lemma_coord_of_index(self, index: int)
        requires
            self.wf(),
            self.size.x >= 1,
            0 <= index < self.size.spec_count(),
        ensures
            self.spec_coord_of_index(index).spec_is_valid(self.size),
            self.spec_index_of(self.spec_coord_of_index(index)) == index,
    {
        let sx = self.size.x as int;
        let sy = self.size.y as int;
        vstd::arithmetic::div_mod::lemma_fundamental_div_mod(index, sx);
        vstd::arithmetic::div_mod::lemma_mod_division_less_than_divisor(index, sx);
        assert(index / sx < sy) by (nonlinear_arith)
            requires
                sx >= 1,
                0 <= index < sx * sy,
                index == sx * (index / sx) + index % sx,
                0 <= index % sx < sx,
        ;
        assert(index / sx >= 0) by (nonlinear_arith)
            requires
                sx >= 1,
                0 <= index,
                index == sx * (index / sx) + index % sx,
                0 <= index % sx < sx,
        ;
        assert((index / sx) * sx + index % sx == index) by (nonlinear_arith)
            requires
                index == sx * (index / sx) + index % sx,
        ;
    }

    pub fn coord_of_index(&self, index: usize) -> (r: Coord)
        requires
            self.wf(),
            self.size.x >= 1,
            index < self.size.spec_count(),
        ensures
            r == self.spec_coord_of_index(index as int),
            r.spec_is_valid(self.size),
            self.spec_index_of(r) == index,
    {
        proof {
            self.lemma_coord_of_index(index as int);
        }
        let x = (index as u64 % self.size.x as u64) as i32;
        let y = (index as u64 / self.size.x as u64) as i32;
        Coord { x, y }
    }

    pub fn get_checked(&self, coord: Coord) -> (r: &T)
        requires
            self.wf(),
            coord.spec_is_valid(self.size),
        ensures
            *r == self.spec_get(coord),
    {
        let idx = self.index_of_coord(coord);
        &self.cells[idx]
    }

    pub fn get_checked_mut(&mut self, coord: Coord) -> (r: &mut T)
        requires
            old(self).wf(),
            coord.spec_is_valid(old(self).size),
        ensures
            *r == old(self).spec_get(coord),
            final(self).size == old(self).size,
            final(self).cells@ == old(self).cells@.update(
                old(self).spec_index_of(coord),
                *final(r),
            ),
            final(self).wf(),
    {
        let idx = self.index_of_coord(coord);
        &mut self.cells[idx]
    }

    pub fn get_index_checked(&self, index: usize) -> (r: &T)
        requires
            self.wf(),
            index < self.cells@.len(),
        ensures
            *r == self.cells@[index as int],
    {
        &self.cells[index]
    }

    pub fn get_index_checked_mut(&mut self, index: usize) -> (r: &mut T)
        requires
            old(self).wf(),
            index < old(self).cells@.len(),
        ensures
            *r == old(self).cells@[index as int],
            final(self).size == old(self).size,
            final(self).cells@ == old(self).cells@.update(index as int, *final(r)),
            final(self).wf(),
    {
        &mut self.cells[index]
    }

    /// Reads `coord` with toroidal wrapping along both axes.
    pub fn get_tiled(&self, coord: Coord) -> (r: &T)
        requires
            self.wf(),
            self.size.x >= 1,
            self.size.y >= 1,
        ensures
            *r == self.spec_get_tiled(coord),
    {
        let x = normalize_value(coord.x, self.size.x);
        let y = normalize_value(coord.y, self.size.y);
        self.get_checked(Coord { x, y })
    }

    pub fn len(&self) -> (r: usize)
        ensures
            r == self.cells@.len(),
    {
        self.cells.len()
    }
}

} // verus!
