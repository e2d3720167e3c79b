//! A set of coordinates that remembers the order of insertion.

use crate::hex_coordinates::{Coordinate, Hex};
use vstd::prelude::*;

verus! {

/// A finite set of coordinates. Walking it yields the members in the order
/// in which they were first inserted.
pub struct CoordinateSet {
    cells: Vec<Coordinate>,
}

impl CoordinateSet {
    /// The members in the order of their insertion.
    pub closed spec fn cells(&self) -> Seq<Coordinate> {
        self.cells@
    }

    /// No member is listed twice.
    pub open spec fn wf(&self) -> bool {
        forall|i: int, j: int| 0 <= i < j < self.cells().len() ==> self.cells()[i] != self.cells()[j]
    }

    /// The set of the members' cells.
    pub open spec fn view(&self) -> Set<Hex> {
        Set::new(|h: Hex| exists|i: int| 0 <= i < self.cells().len() && (#[trigger] self.cells()[i])@ == h)
    }

    pub fn new() -> (set: Self)
        ensures
            set.wf(),
            set.cells() == Seq::<Coordinate>::empty(),
            set@ == Set::<Hex>::empty(),
    {
        let set = CoordinateSet { cells: Vec::new() };
        assert(set@ =~= Set::<Hex>::empty());
        set
    }

    pub fn len(&self) -> (n: usize)
        ensures
            n == self.cells().len(),
    {
        self.cells.len()
    }

    pub fn contains(&self, coord: Coordinate) -> (b: bool)
        ensures
            b == self@.contains(coord@),
    {
        let mut i: usize = 0;
        while i < self.cells.len()
            invariant
                0 <= i <= self.cells@.len(),
                forall|j: int| 0 <= j < i ==> self.cells@[j] != coord,
            decreases self.cells@.len() - i,
        {
            if self.cells[i] == coord {
                return true;
            }
            i = i + 1;
        }
        false
    }

    /// Adds a coordinate. Returns whether it was new.
    pub fn insert(&mut self, coord: Coordinate) -> (added: bool)
        requires
            old(self).wf(),
        ensures
            final(self).wf(),
            added == !old(self)@.contains(coord@),
            final(self)@ == old(self)@.insert(coord@),
            final(self).cells() == if added {
                old(self).cells().push(coord)
            } else {
                old(self).cells()
            },
    {
        if self.contains(coord) {
            assert(final(self)@ =~= old(self)@.insert(coord@));
            false
        } else {
            self.cells.push(coord);
            assert forall|h: Hex| final(self)@.contains(h) <==> old(self)@.insert(coord@).contains(h) by {
                if final(self)@.contains(h) {
                    let i = choose|i: int| 0 <= i < self.cells().len() && (#[trigger] self.cells()[i])@ == h;
                    if i < old(self).cells().len() {
                        assert(old(self).cells()[i]@ == h);
                    }
                }
                if old(self)@.contains(h) {
                    let i = choose|i: int|
                        0 <= i < old(self).cells().len() && (#[trigger] old(self).cells()[i])@ == h;
                    assert(self.cells()[i]@ == h);
                }
                if h == coord@ {
                    assert(self.cells()[self.cells().len() - 1]@ == h);
                }
            }
            assert(final(self)@ =~= old(self)@.insert(coord@));
            true
        }
    }

    /// The members in the order of their insertion.
    pub fn iter(&self) -> (cells: &Vec<Coordinate>)
        ensures
            cells@ == self.cells(),
    {
        &self.cells
    }

    pub fn clear(&mut self)
        ensures
            final(self).wf(),
            final(self).cells() == Seq::<Coordinate>::empty(),
            final(self)@ == Set::<Hex>::empty(),
    {
        self.cells.clear();
        assert(final(self)@ =~= Set::<Hex>::empty());
    }
}

} // verus!
