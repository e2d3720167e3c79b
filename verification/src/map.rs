//! The tile grid: a rectangle of tiles addressed by hex coordinates.

use crate::hex_coordinates::{
    lemma_index_roundtrip, Coordinate, Direction, Hex, MAX_SPAN,
};
use crate::store::Entity;
use crate::tile::{Tile, TileType};
use vstd::prelude::*;

verus! {

/// The map. Tiles are stored as an "odd-q" rectangle in row-major order.
pub struct HexMap {
    tiles: Vec<Tile>,
    width: i32,
    height: i32,
}

impl HexMap {
    pub closed spec fn width(&self) -> int {
        self.width as int
    }

    pub closed spec fn height(&self) -> int {
        self.height as int
    }

    /// The tiles in storage order.
    pub closed spec fn tiles(&self) -> Seq<Tile> {
        self.tiles@
    }

    /// The map's invariant: one well-formed tile per cell of a rectangle
    /// whose sides do not exceed [`MAX_SPAN`].
    pub open spec fn wf(&self) -> bool {
        &&& 0 <= self.width() <= MAX_SPAN
        &&& 0 <= self.height() <= MAX_SPAN
        &&& self.tiles().len() == self.width() * self.height()
        &&& forall|i: int| 0 <= i < self.tiles().len() ==> (#[trigger] self.tiles()[i]).wf()
    }

    /// The cell lies inside the rectangle.
    pub open spec fn contains(&self, h: Hex) -> bool {
        &&& 0 <= h.col() < self.width()
        &&& 0 <= h.row() < self.height()
    }

    /// The tile of a cell inside the rectangle.
    pub open spec fn tile_at(&self, h: Hex) -> Tile {
        self.tiles()[self.slot_of(h)]
    }

    /// The storage index of a cell: `row * width + column`.
    pub closed spec fn slot_of(&self, h: Hex) -> int {
        h.index(self.width())
    }

    /// The cell stored at index `i`.
    pub closed spec fn cell(&self, i: int) -> Hex {
        Hex::at_index(i, self.width())
    }

    /// The formulas behind `slot_of` and `cell`.
    pub proof fn lemma_slot_formula(&self, h: Hex, i: int)
        ensures
            self.slot_of(h) == h.index(self.width()),
            self.cell(i) == Hex::at_index(i, self.width()),
    {
    }

    /// The cell may be entered: it lies inside the rectangle and its tile
    /// is not blocked.
    pub open spec fn legal(&self, h: Hex) -> bool {
        self.contains(h) && !self.tile_at(h).blocked()
    }

    /// Light does not pass the cell: its tile is a wall, or it lies outside
    /// the rectangle.
    pub open spec fn opaque_at(&self, h: Hex) -> bool {
        !self.contains(h) || self.tile_at(h).opaque()
    }

    /// The two maps have the same size, and the same tiles but for what
    /// was seen.
    pub open spec fn same_ground(&self, other: &HexMap) -> bool {
        &&& self.width() == other.width()
        &&& self.height() == other.height()
        &&& self.tiles().len() == other.tiles().len()
        &&& forall|i: int|
            0 <= i < self.tiles().len() ==> (#[trigger] self.tiles()[i]).kind() == other.tiles()[i].kind()
    }

    /// Inside the rectangle, a cell's index is below the number of tiles,
    /// and cells and indices correspond one to one.
    pub proof fn lemma_index_bijection(&self, h: Hex, idx: int)
        requires
            self.wf(),
        ensures
            self.contains(h) ==> 0 <= self.slot_of(h) < self.tiles().len() && self.cell(self.slot_of(h)) == h,
            0 <= idx < self.tiles().len() ==> self.contains(self.cell(idx)) && self.slot_of(self.cell(idx)) == idx,
    {
        let w = self.width();
        let ht = self.height();
        if self.contains(h) {
            lemma_index_roundtrip(h, 0, w);
            assert(h.row() * w + h.col() < w * ht) by (nonlinear_arith)
                requires
                    0 <= h.col() < w,
                    0 <= h.row() < ht,
            ;
            assert(0 <= h.row() * w) by (nonlinear_arith)
                requires
                    0 <= h.row(),
                    0 <= w,
            ;
        }
        if 0 <= idx < self.tiles().len() {
            assert(w > 0) by (nonlinear_arith)
                requires
                    0 <= idx < w * ht,
                    0 <= w,
            ;
            lemma_index_roundtrip(h, idx, w);
            vstd::arithmetic::div_mod::lemma_fundamental_div_mod(idx, w);
            assert(idx / w < ht) by (nonlinear_arith)
                requires
                    0 <= idx < w * ht,
                    0 < w,
                    idx == w * (idx / w) + idx % w,
                    0 <= idx % w < w,
            ;
            assert(0 <= idx / w) by (nonlinear_arith)
                requires
                    0 <= idx,
                    0 < w,
                    idx == w * (idx / w) + idx % w,
                    0 <= idx % w < w,
            ;
        }
    }

    /// A cell has a tile exactly if it lies inside the rectangle: so the
    /// neighbor of any cell in any direction has a valid index exactly if it
    /// is in bounds, and the index leads back to the neighbor.
    pub proof fn lemma_neighbor_index(&self, c: Hex, d: Direction)
        requires
            self.wf(),
        ensures
            self.contains(c.step(d)) <==> exists|i: int|
                0 <= i < self.tiles().len() && #[trigger] self.cell(i) == c.step(d),
            self.contains(c.step(d)) ==> 0 <= self.slot_of(c.step(d)) < self.tiles().len() && self.cell(
                self.slot_of(c.step(d)),
            ) == c.step(d),
    {
        let h = c.step(d);
        self.lemma_index_bijection(h, 0);
        if self.contains(h) {
            assert(self.cell(self.slot_of(h)) == h);
        }
        if exists|i: int| 0 <= i < self.tiles().len() && #[trigger] self.cell(i) == h {
            let i = choose|i: int| 0 <= i < self.tiles().len() && #[trigger] self.cell(i) == h;
            self.lemma_index_bijection(h, i);
        }
    }

    /// The number of tiles is bounded, and a cell on the map has small
    /// components.
    pub proof fn lemma_size(&self)
        requires
            self.wf(),
        ensures
            self.tiles().len() <= MAX_SPAN * MAX_SPAN,
            forall|h: Hex| self.contains(h) ==> #[trigger] h.within(MAX_SPAN as int),
    {
        assert(self.width() * self.height() <= MAX_SPAN * MAX_SPAN) by (nonlinear_arith)
            requires
                0 <= self.width() <= MAX_SPAN,
                0 <= self.height() <= MAX_SPAN,
        ;
    }

    /// A map of walls.
    pub fn new(width: i32, height: i32) -> (map: Self)
        requires
            0 <= width <= MAX_SPAN,
            0 <= height <= MAX_SPAN,
        ensures
            map.wf(),
            map.width() == width,
            map.height() == height,
            forall|i: int|
                0 <= i < map.tiles().len() ==> {
                    &&& (#[trigger] map.tiles()[i]).kind() == TileType::Wall
                    &&& map.tiles()[i].blocked()
                    &&& !map.tiles()[i].revealed()
                    &&& map.tiles()[i].occupants() == Seq::<Entity>::empty()
                },
    {
        assert(0 <= width * height <= MAX_SPAN * MAX_SPAN) by (nonlinear_arith)
            requires
                0 <= width <= MAX_SPAN,
                0 <= height <= MAX_SPAN,
        ;
        let total: usize = (width as usize) * (height as usize);
        let mut tiles: Vec<Tile> = Vec::new();
        let mut i: usize = 0;
        while i < total
            invariant
                0 <= i <= total,
                tiles@.len() == i,
                forall|j: int|
                    0 <= j < i ==> {
                        &&& (#[trigger] tiles@[j]).kind() == TileType::Wall
                        &&& tiles@[j].blocked()
                        &&& !tiles@[j].revealed()
                        &&& tiles@[j].occupants() == Seq::<Entity>::empty()
                        &&& tiles@[j].wf()
                    },
            decreases total - i,
        {
            tiles.push(Tile::wall());
            i = i + 1;
        }
        HexMap { tiles, width, height }
    }

    /// Number of tiles.
    pub fn tiles_len(&self) -> (n: usize)
        ensures
            n == self.tiles().len(),
    {
        self.tiles.len()
    }

    /// Width and height.
    pub fn dimensions(&self) -> (size: (i32, i32))
        ensures
            size.0 == self.width(),
            size.1 == self.height(),
    {
        (self.width, self.height)
    }

    /// The coordinate of the tile stored at `idx`.
    pub fn coordinate_at(&self, idx: usize) -> (coord: Coordinate)
        requires
            self.wf(),
            idx < self.tiles().len(),
        ensures
            coord@ == self.cell(idx as int),
            self.contains(coord@),
            self.slot_of(coord@) == idx,
    {
        proof {
            self.lemma_index_bijection(Hex { q: 0, r: 0 }, idx as int);
        }
        Coordinate::from_index(idx, self.width)
    }

    /// The coordinates of all tiles in storage order.
    pub fn iter(&self) -> (cells: Vec<Coordinate>)
        requires
            self.wf(),
        ensures
            cells@.len() == self.tiles().len(),
            forall|i: int| 0 <= i < cells@.len() ==> (#[trigger] cells@[i])@ == self.cell(i),
    {
        let mut cells: Vec<Coordinate> = Vec::new();
        let mut i: usize = 0;
        while i < self.tiles.len()
            invariant
                self.wf(),
                0 <= i <= self.tiles@.len(),
                cells@.len() == i,
                forall|j: int| 0 <= j < i ==> (#[trigger] cells@[j])@ == self.cell(j),
            decreases self.tiles@.len() - i,
        {
            cells.push(self.coordinate_at(i));
            i = i + 1;
        }
        cells
    }

    /// Marks every tile as seen.
    pub fn reveal_all(&mut self)
        requires
            old(self).wf(),
        ensures
            final(self).wf(),
            final(self).same_ground(old(self)),
            forall|i: int|
                0 <= i < final(self).tiles().len() ==> {
                    &&& (#[trigger] final(self).tiles()[i]).revealed()
                    &&& final(self).tiles()[i].blocked() == old(self).tiles()[i].blocked()
                    &&& final(self).tiles()[i].occupants() == old(self).tiles()[i].occupants()
                },
    {
        let mut i: usize = 0;
        while i < self.tiles.len()
            invariant
                0 <= i <= self.tiles@.len(),
                self.width == old(self).width,
                self.height == old(self).height,
                self.tiles@.len() == old(self).tiles@.len(),
                forall|j: int|
                    0 <= j < self.tiles@.len() ==> {
                        &&& (#[trigger] self.tiles@[j]).kind() == old(self).tiles@[j].kind()
                        &&& self.tiles@[j].blocked() == old(self).tiles@[j].blocked()
                        &&& self.tiles@[j].occupants() == old(self).tiles@[j].occupants()
                        &&& self.tiles@[j].wf() == old(self).tiles@[j].wf()
                    },
                forall|j: int| 0 <= j < i ==> (#[trigger] self.tiles@[j]).revealed(),
            decreases self.tiles@.len() - i,
        {
            self.tiles[i].mark_revealed();
            i = i + 1;
        }
    }

    pub fn in_bounds(&self, coord: Coordinate) -> (b: bool)
        ensures
            b == self.contains(coord@),
    {
        let x: i32 = coord.col();
        let y: i64 = coord.row();
        0 <= x && x < self.width && 0 <= y && y < self.height as i64
    }

    /// The storage index of a coordinate inside the rectangle; `None` for
    /// one outside.
    pub fn coordinate_to_index(&self, coord: Coordinate) -> (idx: Option<usize>)
        requires
            self.wf(),
        ensures
            idx is Some <==> self.contains(coord@),
            idx is Some ==> idx.unwrap() == self.slot_of(coord@) && idx.unwrap() < self.tiles().len(),
    {
        if self.in_bounds(coord) {
            proof {
                self.lemma_index_bijection(coord@, 0);
            }
            let n: usize = self.tiles.len();
            assert(coord@.index(self.width()) < n);
            Some(coord.to_index(self.width))
        } else {
            None
        }
    }

    /// The tile of a coordinate inside the rectangle; `None` for one
    /// outside.
    pub fn tile(&self, coord: Coordinate) -> (tile: Option<&Tile>)
        requires
            self.wf(),
        ensures
            tile is Some <==> self.contains(coord@),
            tile is Some ==> *tile.unwrap() == self.tile_at(coord@),
    {
        match self.coordinate_to_index(coord) {
            Some(idx) => Some(&self.tiles[idx]),
            None => None,
        }
    }

    /// Replaces the tile of a coordinate inside the rectangle. Returns
    /// whether the coordinate was inside; nothing changes for one outside.
    pub fn set_tile(&mut self, coord: Coordinate, tile: Tile) -> (done: bool)
        requires
            old(self).wf(),
            tile.wf(),
        ensures
            final(self).wf(),
            done == old(self).contains(coord@),
            final(self).width() == old(self).width(),
            final(self).height() == old(self).height(),
            final(self).tiles() == if done {
                old(self).tiles().update(old(self).slot_of(coord@), tile)
            } else {
                old(self).tiles()
            },
    {
        match self.coordinate_to_index(coord) {
            Some(idx) => {
                self.tiles[idx] = tile;
                true
            },
            None => false,
        }
    }

    /// Whether the coordinate lies inside the rectangle on a tile that is
    /// not blocked.
    pub fn is_free(&self, coord: Coordinate) -> (b: bool)
        requires
            self.wf(),
        ensures
            b == self.legal(coord@),
    {
        match self.tile(coord) {
            Some(tile) => !tile.is_blocked(),
            None => false,
        }
    }

    /// Whether light stops at the coordinate.
    pub fn is_opaque_at(&self, coord: Coordinate) -> (b: bool)
        requires
            self.wf(),
        ensures
            b == self.opaque_at(coord@),
    {
        match self.tile(coord) {
            Some(tile) => tile.is_opaque(),
            None => true,
        }
    }

    /// Forgets who stands where: every tile loses its occupants, and only
    /// walls stay blocked.
    pub fn reset_index(&mut self)
        requires
            old(self).wf(),
        ensures
            final(self).wf(),
            final(self).same_ground(old(self)),
            forall|i: int|
                0 <= i < final(self).tiles().len() ==> {
                    &&& (#[trigger] final(self).tiles()[i]).revealed() == old(self).tiles()[i].revealed()
                    &&& final(self).tiles()[i].blocked() == (old(self).tiles()[i].kind() == TileType::Wall)
                    &&& final(self).tiles()[i].occupants() == Seq::<Entity>::empty()
                },
    {
        let mut i: usize = 0;
        while i < self.tiles.len()
            invariant
                0 <= i <= self.tiles@.len(),
                self.width == old(self).width,
                self.height == old(self).height,
                self.tiles@.len() == old(self).tiles@.len(),
                forall|j: int|
                    0 <= j < self.tiles@.len() ==> {
                        &&& (#[trigger] self.tiles@[j]).kind() == old(self).tiles@[j].kind()
                        &&& self.tiles@[j].revealed() == old(self).tiles@[j].revealed()
                        &&& self.tiles@[j].wf()
                    },
                forall|j: int|
                    0 <= j < i ==> {
                        &&& (#[trigger] self.tiles@[j]).blocked() == (old(self).tiles@[j].kind() == TileType::Wall)
                        &&& self.tiles@[j].occupants() == Seq::<Entity>::empty()
                    },
            decreases self.tiles@.len() - i,
        {
            self.tiles[i].reset_index();
            i = i + 1;
        }
    }

    /// Marks the tile of `coord` as blocked. Nothing changes for a
    /// coordinate outside the map.
    pub fn block(&mut self, coord: Coordinate)
        requires
            old(self).wf(),
        ensures
            final(self).wf(),
            final(self).same_ground(old(self)),
            forall|i: int|
                0 <= i < final(self).tiles().len() ==> {
                    &&& (#[trigger] final(self).tiles()[i]).revealed() == old(self).tiles()[i].revealed()
                    &&& final(self).tiles()[i].occupants() == old(self).tiles()[i].occupants()
                    &&& final(self).tiles()[i].blocked() == (old(self).tiles()[i].blocked() || (old(self).contains(
                        coord@,
                    ) && i == old(self).slot_of(coord@)))
                },
    {
        match self.coordinate_to_index(coord) {
            Some(idx) => {
                self.tiles[idx].block();
            },
            None => {},
        }
    }

    /// Appends an occupant to the tile of `coord`. Nothing changes for a
    /// coordinate outside the map.
    pub fn add_entity(&mut self, coord: Coordinate, entity: Entity)
        requires
            old(self).wf(),
        ensures
            final(self).wf(),
            final(self).same_ground(old(self)),
            forall|i: int|
                0 <= i < final(self).tiles().len() ==> {
                    &&& (#[trigger] final(self).tiles()[i]).revealed() == old(self).tiles()[i].revealed()
                    &&& final(self).tiles()[i].blocked() == old(self).tiles()[i].blocked()
                    &&& final(self).tiles()[i].occupants() == if old(self).contains(coord@) && i == old(
                        self,
                    ).slot_of(coord@) {
                        old(self).tiles()[i].occupants().push(entity)
                    } else {
                        old(self).tiles()[i].occupants()
                    }
                },
    {
        match self.coordinate_to_index(coord) {
            Some(idx) => {
                self.tiles[idx].add_entity(entity);
            },
            None => {},
        }
    }

    /// Marks the tile of `coord` as seen. Nothing changes for a coordinate
    /// outside the map.
    pub fn reveal_at(&mut self, coord: Coordinate)
        requires
            old(self).wf(),
        ensures
            final(self).wf(),
            final(self).same_ground(old(self)),
            forall|i: int|
                0 <= i < final(self).tiles().len() ==> {
                    &&& (#[trigger] final(self).tiles()[i]).blocked() == old(self).tiles()[i].blocked()
                    &&& final(self).tiles()[i].occupants() == old(self).tiles()[i].occupants()
                    &&& final(self).tiles()[i].revealed() == (old(self).tiles()[i].revealed() || (old(self).contains(
                        coord@,
                    ) && i == old(self).slot_of(coord@)))
                },
    {
        match self.coordinate_to_index(coord) {
            Some(idx) => {
                self.tiles[idx].mark_revealed();
            },
            None => {},
        }
    }

    /// Maps of the same size store the same cells at the same indices.
    pub proof fn lemma_dimensions(&self, other: &HexMap, h: Hex, t: int)
        requires
            self.width() == other.width(),
            self.height() == other.height(),
        ensures
            self.contains(h) == other.contains(h),
            self.slot_of(h) == other.slot_of(h),
            self.cell(t) == other.cell(t),
    {
    }

    /// `same_ground` keeps what depends on the ground alone.
    pub proof fn lemma_same_ground(&self, other: &HexMap, h: Hex)
        requires
            self.same_ground(other),
        ensures
            self.contains(h) == other.contains(h),
            self.slot_of(h) == other.slot_of(h),
            self.cell(h.q) == other.cell(h.q),
            self.wf() && other.wf() ==> self.opaque_at(h) == other.opaque_at(h),
    {
        if self.wf() && other.wf() && self.contains(h) {
            self.lemma_index_bijection(h, 0);
        }
    }
}

} // verus!
