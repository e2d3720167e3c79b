//! One cell of the map.

use crate::store::{Entity, Storage};
use vstd::prelude::*;

verus! {

/// What a tile is made of.
#[derive(Clone, Copy, Debug, PartialEq, Eq, Structural)]
pub enum TileType {
    Floor,
    Wall,
}

/// A tile: its kind, whether it was ever seen, and the per-tick index of
/// who stands on it.
pub struct Tile {
    tile_type: TileType,
    blocked: bool,
    revealed: bool,
    contents: Vec<Entity>,
}

impl Tile {
    pub closed spec fn kind(&self) -> TileType {
        self.tile_type
    }

    pub closed spec fn blocked(&self) -> bool {
        self.blocked
    }

    pub closed spec fn revealed(&self) -> bool {
        self.revealed
    }

    /// The entities standing on the tile, in the order in which they were
    /// indexed.
    pub closed spec fn occupants(&self) -> Seq<Entity> {
        self.contents@
    }

    /// A wall blocks light.
    pub open spec fn opaque(&self) -> bool {
        self.kind() == TileType::Wall
    }

    /// A wall is always blocked.
    pub open spec fn wf(&self) -> bool {
        self.kind() == TileType::Wall ==> self.blocked()
    }

    /// The first occupant that has a component in `table`.
    pub open spec fn first_occupant_in<T>(&self, table: Map<Entity, T>) -> Option<Entity> {
        first_in(self.occupants(), table)
    }

    /// An unrevealed, blocked wall with no occupants.
    pub fn wall() -> (tile: Self)
        ensures
            tile.kind() == TileType::Wall,
            tile.blocked(),
            !tile.revealed(),
            tile.occupants() == Seq::<Entity>::empty(),
            tile.wf(),
    {
        Tile { tile_type: TileType::Wall, blocked: true, revealed: false, contents: Vec::new() }
    }

    /// An unrevealed, free floor with no occupants.
    pub fn floor() -> (tile: Self)
        ensures
            tile.kind() == TileType::Floor,
            !tile.blocked(),
            !tile.revealed(),
            tile.occupants() == Seq::<Entity>::empty(),
            tile.wf(),
    {
        Tile { tile_type: TileType::Floor, blocked: false, revealed: false, contents: Vec::new() }
    }

    pub fn tile_type(&self) -> (kind: TileType)
        ensures
            kind == self.kind(),
    {
        self.tile_type
    }

    pub fn is_opaque(&self) -> (b: bool)
        ensures
            b == self.opaque(),
    {
        self.tile_type == TileType::Wall
    }

    pub fn is_blocked(&self) -> (b: bool)
        ensures
            b == self.blocked(),
    {
        self.blocked
    }

    pub fn is_revealed(&self) -> (b: bool)
        ensures
            b == self.revealed(),
    {
        self.revealed
    }

    /// The occupants in the order in which they were indexed.
    pub fn iter(&self) -> (occupants: &Vec<Entity>)
        ensures
            occupants@ == self.occupants(),
    {
        &self.contents
    }

    /// The first occupant that has a component in `storage`.
    pub fn entity<T>(&self, storage: &Storage<T>) -> (found: Option<Entity>)
        ensures
            found == self.first_occupant_in(storage@),
    {
        let mut i: usize = 0;
        while i < self.contents.len()
            invariant
                0 <= i <= self.contents@.len(),
                forall|j: int| 0 <= j < i ==> !storage@.contains_key(self.contents@[j]),
            decreases self.contents@.len() - i,
        {
            if storage.contains(self.contents[i]) {
                proof {
                    lemma_first_in(self.contents@, storage@, i as int);
                }
                return Some(self.contents[i]);
            }
            i = i + 1;
        }
        proof {
            lemma_none_in(self.contents@, storage@);
        }
        None
    }

    /// Forgets the occupants; only a wall stays blocked.
    pub fn reset_index(&mut self)
        ensures
            final(self).kind() == old(self).kind(),
            final(self).revealed() == old(self).revealed(),
            final(self).blocked() == (old(self).kind() == TileType::Wall),
            final(self).occupants() == Seq::<Entity>::empty(),
            final(self).wf(),
    {
        self.blocked = self.tile_type == TileType::Wall;
        self.contents.clear();
    }

    pub fn block(&mut self)
        ensures
            final(self).kind() == old(self).kind(),
            final(self).revealed() == old(self).revealed(),
            final(self).blocked(),
            final(self).occupants() == old(self).occupants(),
            final(self).wf(),
    {
        self.blocked = true;
    }

    /// Marks the tile as seen. A revealed tile stays revealed.
    pub fn mark_revealed(&mut self)
        ensures
            final(self).kind() == old(self).kind(),
            final(self).revealed(),
            final(self).blocked() == old(self).blocked(),
            final(self).occupants() == old(self).occupants(),
            final(self).wf() == old(self).wf(),
    {
        self.revealed = true;
    }

    /// Appends an occupant.
    pub fn add_entity(&mut self, entity: Entity)
        ensures
            final(self).kind() == old(self).kind(),
            final(self).revealed() == old(self).revealed(),
            final(self).blocked() == old(self).blocked(),
            final(self).occupants() == old(self).occupants().push(entity),
            final(self).wf() == old(self).wf(),
    {
        self.contents.push(entity);
    }
}

/// The first element of `list` that is a key of `table`.
pub open spec fn first_in<T>(list: Seq<Entity>, table: Map<Entity, T>) -> Option<Entity>
    decreases list.len(),
{
    if list.len() == 0 {
        None
    } else if table.contains_key(list[0]) {
        Some(list[0])
    } else {
        first_in(list.drop_first(), table)
    }
}

/// An element that is a key of `table`, after elements that are not, is the
/// first one.
pub proof fn lemma_first_in<T>(list: Seq<Entity>, table: Map<Entity, T>, i: int)
    requires
        0 <= i < list.len(),
        table.contains_key(list[i]),
        forall|j: int| 0 <= j < i ==> !table.contains_key(list[j]),
    ensures
        first_in(list, table) == Some(list[i]),
    decreases i,
{
    if i > 0 {
        lemma_first_in(list.drop_first(), table, i - 1);
    }
}

/// Where no element is a key of `table`, there is no first one.
pub proof fn lemma_none_in<T>(list: Seq<Entity>, table: Map<Entity, T>)
    requires
        forall|j: int| 0 <= j < list.len() ==> !table.contains_key(list[j]),
    ensures
        first_in(list, table) is None,
    decreases list.len(),
{
    if list.len() > 0 {
        lemma_none_in(list.drop_first(), table);
    }
}

} // verus!
