//! A windowed, optionally reoriented view of a grid, read with toroidal
//! wrapping. Two slices with the same window size and the same cell values in
//! row-major order stand for the same pattern.

use vstd::prelude::*;
use crate::coord::{Coord, Size};
use crate::grid::Grid;
use crate::orientation::Orientation;
use crate::wrap::{normalize_value_i64, spec_wrap_value};

verus! {

/// What a window of `size` anchored at `offset` under `orientation` reads
/// from `grid` at window coordinate `coord`, with toroidal wrapping.
pub open spec fn spec_window_get<T>(
    grid: Grid<T>,
    size: Size,
    offset: Coord,
    orientation: Orientation,
    coord: Coord,
) -> T {
    let t = orientation.spec_transform_coord(size, coord);
    grid.spec_get(Coord {
        x: spec_wrap_value(offset.x + t.x, grid.size.x as int) as i32,
        y: spec_wrap_value(offset.y + t.y, grid.size.y as int) as i32,
    })
}

/// The whole window as a value sequence: what a window of `size` anchored at
/// `offset` under `orientation` reads from `grid`, in row-major order of the
/// window. Two windows hold the same pattern exactly when these are equal.
pub open spec fn spec_window_view<T>(
    grid: Grid<T>,
    size: Size,
    offset: Coord,
    orientation: Orientation,
) -> Seq<T> {
    Seq::new(
        size.spec_count() as nat,
        |i: int| spec_window_get(grid, size, offset, orientation, size.spec_coord_of_index(i)),
    )
}

/// A view of `grid` through a window of size `size`, whose coordinate `c`
/// reads the grid at `offset + orientation(c)`, wrapped toroidally.
pub struct TiledGridSlice<'a, T> {
    pub grid: &'a Grid<T>,
    pub offset: Coord,
    pub size: Size,
    pub orientation: Orientation,
}

impl<'a, T> TiledGridSlice<'a, T> {
    pub open spec fn wf(self) -> bool {
        &&& self.grid.wf()
        &&& self.grid.size.x >= 1
        &&& self.grid.size.y >= 1
        &&& self.size.wf()
    }

    /// The value this view holds at `coord`.
    pub open spec fn spec_get(self, coord: Coord) -> T {
        spec_window_get(*self.grid, self.size, self.offset, self.orientation, coord)
    }

    /// The view's cell values in row-major order of the window.
    pub open spec fn view_seq(self) -> Seq<T> {
        spec_window_view(*self.grid, self.size, self.offset, self.orientation)
    }

    pub fn new(grid: &'a Grid<T>, offset: Coord, size: Size, orientation: Orientation) -> (r:
        TiledGridSlice<'a, T>)
        requires
            grid.wf(),
            grid.size.x >= 1,
            grid.size.y >= 1,
            size.wf(),
        ensures
            r.wf(),
            r.grid == grid,
            r.offset == offset,
            r.size == size,
            r.orientation == orientation,
    {
        TiledGridSlice { grid, offset, size, orientation }
    }

    pub fn size(&self) -> (r: Size)
        ensures
            r == self.size,
    {
        self.size
    }

    pub fn offset(&self) -> (r: Coord)
        ensures
            r == self.offset,
    {
        self.offset
    }

    fn get_valid(&self, coord: Coord) -> (r: &'a T)
        requires
            self.wf(),
            coord.spec_is_valid(self.size),
        ensures
            *r == self.spec_get(coord),
    {
        let transformed = self.orientation.transform_coord(self.size, coord);
        let vx: i64 = self.offset.x as i64 + transformed.x as i64;
        let vy: i64 = self.offset.y as i64 + transformed.y as i64;
        let x = normalize_value_i64(vx, self.grid.size.width());
        let y = normalize_value_i64(vy, self.grid.size.height());
        self.grid.get_checked(Coord { x, y })
    }

    pub fn get_checked(&self, coord: Coord) -> (r: &'a T)
        requires
            self.wf(),
            coord.spec_is_valid(self.size),
        ensures
            *r == self.spec_get(coord),
    {
        self.get_valid(coord)
    }
}

impl<'a> TiledGridSlice<'a, u32> {
    /// The view's values as a vector, in row-major order of the window.
    pub fn to_vec(&self) -> (r: Vec<u32>)
        requires
            self.wf(),
        ensures
            r@ == self.view_seq(),
    {
        let n = self.size.count();
        let mut out: Vec<u32> = Vec::new();
        let mut i: u64 = 0;
        while i < n
            invariant
                self.wf(),
                i <= n,
                n == self.size.spec_count(),
                out@.len() == i,
                forall|j: int| 0 <= j < i ==> out@[j] == self.view_seq()[j],
            decreases n - i,
        {
            proof {
                assert(self.size.x >= 1) by (nonlinear_arith)
                    requires
                        0 <= i < self.size.x * self.size.y,
                ;
            }
            let c = self.size.coord_of_index(i);
            let v = *self.get_valid(c);
            out.push(v);
            i = i + 1;
        }
        proof {
            assert(out@ =~= self.view_seq());
        }
        out
    }

    /// Whether two slices stand for the same pattern: same window size and
    /// pairwise equal values.
    pub fn equals(&self, other: &TiledGridSlice<'a, u32>) -> (r: bool)
        requires
            self.wf(),
            other.wf(),
        ensures
            r == (self.size == other.size && self.view_seq() =~= other.view_seq()),
    {
        if self.size.width() != other.size.width() || self.size.height() != other.size.height() {
            proof {
                assert(self.size != other.size);
            }
            return false;
        }
        let a = self.to_vec();
        let b = other.to_vec();
        let mut i: usize = 0;
        let n = a.len();
        proof {
            assert(a@.len() == b@.len());
        }
        while i < n
            invariant
                n == a@.len(),
                a@.len() == b@.len(),
                i <= n,
                a@ == self.view_seq(),
                b@ == other.view_seq(),
                forall|j: int| 0 <= j < i ==> a@[j] == b@[j],
            decreases n - i,
        {
            if a[i] != b[i] {
                return false;
            }
            i = i + 1;
        }
        proof {
            assert(a@ =~= b@);
        }
        true
    }
}

} // verus!
