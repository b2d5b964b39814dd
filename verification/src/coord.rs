//! Lattice coordinates: a pair of signed integers with a row-major total
//! order (primary key `y`, secondary key `x`) and an eight-point
//! neighbourhood.

use vstd::prelude::*;

use crate::sorted::insert_sorted;

verus! {

/// One cell position on the integer lattice.
#[derive(Clone, Copy, PartialEq, Eq, Structural, Debug)]
pub struct Coord {
    pub x: i32,
    pub y: i32,
}

impl View for Coord {
    type V = (int, int);

    open spec fn view(&self) -> (int, int) {
        (self.x as int, self.y as int)
    }
}

/// Row-major order on lattice points: by `y` first, then by `x`.
pub open spec fn row_major_lt(a: (int, int), b: (int, int)) -> bool {
    a.1 < b.1 || (a.1 == b.1 && a.0 < b.0)
}

/// The lattice is logically infinite, but a cell can only be stored when
/// both of its coordinates are representable by the machine; points beyond
/// that range are never live and never match a query.
pub open spec fn in_bounds(p: (int, int)) -> bool {
    i32::MIN <= p.0 <= i32::MAX && i32::MIN <= p.1 <= i32::MAX
}

/// Two distinct points whose coordinates differ by at most one on each axis:
/// the eight-point neighbourhood relation, with no cell its own neighbour.
pub open spec fn adjacent(p: (int, int), q: (int, int)) -> bool {
    p != q && -1 <= p.0 - q.0 <= 1 && -1 <= p.1 - q.1 <= 1
}

/// The representable neighbours of a point.
pub open spec fn neighbour_set(p: (int, int)) -> Set<(int, int)> {
    Set::new(|q: (int, int)| in_bounds(q) && adjacent(q, p))
}

/// The set of lattice points denoted by a sequence of coordinates.
pub open spec fn point_set(s: Seq<Coord>) -> Set<(int, int)> {
    Set::new(|p: (int, int)| exists|i: int| 0 <= i < s.len() && s[i]@ == p)
}

/// Strictly ascending in row-major order; in particular, all entries are
/// distinct.
pub open spec fn strictly_sorted(s: Seq<Coord>) -> bool {
    forall|i: int, j: int| 0 <= i < j < s.len() ==> row_major_lt(s[i]@, s[j]@)
}

impl Coord {
    /// The neighbours of this cell that exist on the representable lattice:
    /// all eight of them away from the coordinate limits, fewer on the rim.
    /// Returned in ascending row-major order.
    pub fn neighbours(&self) -> (nb: Vec<Coord>)
        ensures
            strictly_sorted(nb@),
            point_set(nb@) == neighbour_set(self@),
            nb@.len() <= 8,
    {
        let x = self.x;
        let y = self.y;
        let mut nb: Vec<Coord> = Vec::new();
        if x > i32::MIN && y > i32::MIN {
            insert_sorted(&mut nb, Coord { x: x - 1, y: y - 1 });
        }
        if y > i32::MIN {
            insert_sorted(&mut nb, Coord { x, y: y - 1 });
        }
        if x < i32::MAX && y > i32::MIN {
            insert_sorted(&mut nb, Coord { x: x + 1, y: y - 1 });
        }
        if x > i32::MIN {
            insert_sorted(&mut nb, Coord { x: x - 1, y });
        }
        if x < i32::MAX {
            insert_sorted(&mut nb, Coord { x: x + 1, y });
        }
        if x > i32::MIN && y < i32::MAX {
            insert_sorted(&mut nb, Coord { x: x - 1, y: y + 1 });
        }
        if y < i32::MAX {
            insert_sorted(&mut nb, Coord { x, y: y + 1 });
        }
        if x < i32::MAX && y < i32::MAX {
            insert_sorted(&mut nb, Coord { x: x + 1, y: y + 1 });
        }
        proof {
            assert(point_set(nb@) =~= neighbour_set(self@));
        }
        nb
    }
}

} // verus!
