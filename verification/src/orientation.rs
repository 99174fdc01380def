//! The eight symmetries of the square, as coordinate remappings within a
//! rectangular window, and a small table keyed by orientation.

use vstd::prelude::*;
use crate::coord::{Coord, Size};

verus! {

/// One of the eight symmetries of the square: four rotations, each optionally
/// preceded by a flip across the main diagonal. `Original` is the identity.
#[derive(Clone, Copy, Debug, PartialEq, Eq, Structural)]
pub enum Orientation {
    Original,
    Clockwise90,
    Clockwise180,
    Clockwise270,
    DiagonallyFlipped,
    DiagonallyFlippedClockwise90,
    DiagonallyFlippedClockwise180,
    DiagonallyFlippedClockwise270,
}

pub const NUM_ORIENTATIONS: usize = 8;

impl Orientation {
    /// Where this orientation sends `coord` within a window of size `size`.
    pub open spec fn spec_transform_coord(self, size: Size, coord: Coord) -> Coord {
        match self {
            Orientation::Original => coord,
            Orientation::Clockwise90 => Coord {
                x: coord.y,
                y: (size.x - 1 - coord.x) as i32,
            },
            Orientation::Clockwise180 => Coord {
                x: (size.x - 1 - coord.x) as i32,
                y: (size.y - 1 - coord.y) as i32,
            },
            Orientation::Clockwise270 => Coord {
                x: (size.y - 1 - coord.y) as i32,
                y: coord.x,
            },
            Orientation::DiagonallyFlipped => Coord { x: coord.y, y: coord.x },
            Orientation::DiagonallyFlippedClockwise90 => Coord {
                x: (size.x - 1 - coord.x) as i32,
                y: coord.y,
            },
            Orientation::DiagonallyFlippedClockwise180 => Coord {
                x: (size.y - 1 - coord.y) as i32,
                y: (size.x - 1 - coord.x) as i32,
            },
            Orientation::DiagonallyFlippedClockwise270 => Coord {
                x: coord.x,
                y: (size.y - 1 - coord.y) as i32,
            },
        }
    }

    pub fn transform_coord(self, size: Size, coord: Coord) -> (r: Coord)
        requires
            size.wf(),
            coord.spec_is_valid(size),
        ensures
            r == self.spec_transform_coord(size, coord),
    {
        let sx = size.width() as i32;
        let sy = size.height() as i32;
        match self {
            Orientation::Original => coord,
            Orientation::Clockwise90 => Coord { x: coord.y, y: sx - 1 - coord.x },
            Orientation::Clockwise180 => Coord { x: sx - 1 - coord.x, y: sy - 1 - coord.y },
            Orientation::Clockwise270 => Coord { x: sy - 1 - coord.y, y: coord.x },
            Orientation::DiagonallyFlipped => Coord { x: coord.y, y: coord.x },
            Orientation::DiagonallyFlippedClockwise90 => Coord { x: sx - 1 - coord.x, y: coord.y },
            Orientation::DiagonallyFlippedClockwise180 => Coord {
                x: sy - 1 - coord.y,
                y: sx - 1 - coord.x,
            },
            Orientation::DiagonallyFlippedClockwise270 => Coord {
                x: coord.x,
                y: sy - 1 - coord.y,
            },
        }
    }

    /// The orientations in their fixed enumeration order.
    pub open spec fn spec_from_index(i: int) -> Orientation {
        if i == 0 {
            Orientation::Original
        } else if i == 1 {
            Orientation::Clockwise90
        } else if i == 2 {
            Orientation::Clockwise180
        } else if i == 3 {
            Orientation::Clockwise270
        } else if i == 4 {
            Orientation::DiagonallyFlipped
        } else if i == 5 {
            Orientation::DiagonallyFlippedClockwise90
        } else if i == 6 {
            Orientation::DiagonallyFlippedClockwise180
        } else {
            Orientation::DiagonallyFlippedClockwise270
        }
    }

    pub open spec fn spec_index(self) -> int {
        match self {
            Orientation::Original => 0,
            Orientation::Clockwise90 => 1,
            Orientation::Clockwise180 => 2,
            Orientation::Clockwise270 => 3,
            Orientation::DiagonallyFlipped => 4,
            Orientation::DiagonallyFlippedClockwise90 => 5,
            Orientation::DiagonallyFlippedClockwise180 => 6,
            Orientation::DiagonallyFlippedClockwise270 => 7,
        }
    }

    pub fn index(self) -> (r: usize)
        ensures
            r == self.spec_index(),
            r < 8,
    {
        match self {
            Orientation::Original => 0,
            Orientation::Clockwise90 => 1,
            Orientation::Clockwise180 => 2,
            Orientation::Clockwise270 => 3,
            Orientation::DiagonallyFlipped => 4,
            Orientation::DiagonallyFlippedClockwise90 => 5,
            Orientation::DiagonallyFlippedClockwise180 => 6,
            Orientation::DiagonallyFlippedClockwise270 => 7,
        }
    }
}

/// The eight orientations in their fixed enumeration order, as a sequence.
pub open spec fn spec_all_orientations() -> Seq<Orientation> {
    Seq::new(8, |i: int| Orientation::spec_from_index(i))
}

/// All eight orientations, in their fixed enumeration order.
pub fn all_orientations() -> (r: Vec<Orientation>)
    ensures
        r@ == spec_all_orientations(),
{
    let mut v: Vec<Orientation> = Vec::new();
    v.push(Orientation::Original);
    v.push(Orientation::Clockwise90);
    v.push(Orientation::Clockwise180);
    v.push(Orientation::Clockwise270);
    v.push(Orientation::DiagonallyFlipped);
    v.push(Orientation::DiagonallyFlippedClockwise90);
    v.push(Orientation::DiagonallyFlippedClockwise180);
    v.push(Orientation::DiagonallyFlippedClockwise270);
    proof {
        assert(v@ =~= spec_all_orientations());
    }
    v
}

/// A table holding at most one value per orientation.
#[derive(Clone, Debug)]
pub struct OrientationTable<T> {
    slots: Vec<Option<T>>,
}

impl<T: Copy> OrientationTable<T> {
    pub closed spec fn wf(self) -> bool {
        self.slots@.len() == 8
    }

    pub closed spec fn spec_get(self, orientation: Orientation) -> Option<T> {
        self.slots@[orientation.spec_index()]
    }

    pub fn new() -> (r: OrientationTable<T>)
        ensures
            r.wf(),
            forall|o: Orientation| r.spec_get(o) is None,
    {
        let mut slots: Vec<Option<T>> = Vec::new();
        let mut i: usize = 0;
        while i < 8
            invariant
                i <= 8,
                slots@.len() == i,
                forall|j: int| 0 <= j < i ==> slots@[j] is None,
            decreases 8 - i,
        {
            slots.push(None);
            i = i + 1;
        }
        OrientationTable { slots }
    }

    pub fn get(&self, orientation: Orientation) -> (r: Option<T>)
        requires
            self.wf(),
        ensures
            r == self.spec_get(orientation),
    {
        self.slots[orientation.index()]
    }

    pub fn insert(&mut self, orientation: Orientation, value: T)
        requires
            old(self).wf(),
        ensures
            final(self).wf(),
            final(self).spec_get(orientation) == Some(value),
            forall|o: Orientation|
                o != orientation ==> final(self).spec_get(o) == old(self).spec_get(o),
    {
        let i = orientation.index();
        self.slots.set(i, Some(value));
        proof {
            assert(forall|o: Orientation|
                o != orientation ==> o.spec_index() != orientation.spec_index());
        }
    }

    /// The values this table would hand out, slot by slot in orientation
    /// order: the occupied slots' values, each exactly once.
    pub open spec fn spec_values_up_to(self, k: int) -> Seq<T>
        decreases k,
    {
        if k <= 0 {
            Seq::empty()
        } else {
            self.spec_values_up_to(k - 1) + match self.spec_get(
                Orientation::spec_from_index(k - 1),
            ) {
                Some(v) => seq![v],
                None => Seq::empty(),
            }
        }
    }

    /// The stored values: exactly the occupied slots' values, in orientation
    /// order.
    pub fn iter(&self) -> (r: Vec<T>)
        requires
            self.wf(),
        ensures
            r@ == self.spec_values_up_to(8),
            r@.len() <= 8,
    {
        let mut out: Vec<T> = Vec::new();
        let mut i: usize = 0;
        while i < 8
            invariant
                i <= 8,
                self.wf(),
                out@.len() <= i,
                out@ == self.spec_values_up_to(i as int),
            decreases 8 - i,
        {
            let ghost out_before = out@;
            match self.slots[i] {
                Some(v) => out.push(v),
                None => (),
            }
            proof {
                let oi = Orientation::spec_from_index(i as int);
                assert(oi.spec_index() == i as int);
                assert(self.spec_get(oi) == self.slots@[i as int]);
                match self.spec_get(oi) {
                    Some(v) => {
                        assert(out@ =~= out_before + seq![v]);
                    },
                    None => {
                        assert(out@ =~= out_before + Seq::<T>::empty());
                    },
                }
            }
            i = i + 1;
        }
        out
    }
}

} // verus!
