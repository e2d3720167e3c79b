//! Picking things up and carrying them.

use crate::appearance::Appearance;
use crate::game_log::{GameLog, LogEntry};
use crate::hex_coordinates::Coordinate;
use crate::store::{put, Entities, Entity, Storage};
use vstd::prelude::*;

verus! {

/// The wish of an entity to pick up an item.
#[derive(Clone, Copy, Debug, PartialEq, Eq, Structural)]
pub struct WantsToPickUp(pub Entity);

/// The player's items in the order in which they are offered for use.
pub struct Inventory(pub Vec<Entity>);

/// Marks an item as carried, and names who carries it.
#[derive(Clone, Copy, Debug, PartialEq, Eq, Structural)]
pub struct InInventory(pub Entity);

impl Inventory {
    /// An empty inventory.
    pub fn new() -> (inventory: Self)
        ensures
            inventory.0@ == Seq::<Entity>::empty(),
    {
        Inventory(Vec::new())
    }
}

impl Default for Inventory {
    fn default() -> (inventory: Self)
        ensures
            inventory.0@ == Seq::<Entity>::empty(),
    {
        Inventory::new()
    }
}

/// The pass that carries out the wishes to pick something up.
pub struct ItemPickupSystem;

/// The pass that keeps the list of the player's items.
pub struct PlayerInventorySystem;

/// The wish in slot `j` is for `item`.
pub open spec fn wants(intents: &Storage<WantsToPickUp>, j: int, item: Entity) -> bool {
    intents.slot(j) is Some && intents.slot(j).unwrap().1.0 == item
}

/// Some wish in a slot below `upto` is for `item`.
pub open spec fn wanted(intents: &Storage<WantsToPickUp>, item: Entity, upto: int) -> bool {
    exists|j: int| 0 <= j < upto && #[trigger] wants(intents, j, item)
}

/// Who carries what after the wishes in the slots below `upto` were carried
/// out by increasing slot: each item goes to the one who wished for it
/// last.
pub open spec fn carried(
    intents: &Storage<WantsToPickUp>,
    before: Map<Entity, InInventory>,
    upto: int,
) -> Map<Entity, InInventory>
    decreases upto,
{
    if upto <= 0 {
        before
    } else {
        let previous = carried(intents, before, upto - 1);
        match intents.slot(upto - 1) {
            Some((recipient, wish)) => if wish.0.storable() {
                put(previous, wish.0, InInventory(recipient))
            } else {
                previous
            },
            None => previous,
        }
    }
}

/// The log lines for what the player picked up among the wishes in the
/// slots below `upto`: one line for each named item.
pub open spec fn pickup_notes(
    intents: &Storage<WantsToPickUp>,
    names: Map<Entity, Appearance>,
    player: Entity,
    upto: int,
) -> Seq<LogEntry>
    decreases upto,
{
    if upto <= 0 {
        Seq::empty()
    } else {
        let previous = pickup_notes(intents, names, player, upto - 1);
        match intents.slot(upto - 1) {
            Some((recipient, wish)) => if recipient == player && names.contains_key(wish.0) && wish.0.storable() {
                previous.push(LogEntry::PlayerPickup { item: names[wish.0].name })
            } else {
                previous
            },
            None => previous,
        }
    }
}

impl ItemPickupSystem {
    /// Carries out every wish to pick something up, by increasing index of
    /// the one who wishes: the item leaves the map and is carried by the
    /// recipient. All wishes are forgotten.
    pub fn run(
        &self,
        player: Entity,
        game_log: &mut GameLog,
        pickup_intents: &mut Storage<WantsToPickUp>,
        positions: &mut Storage<Coordinate>,
        names: &Storage<Appearance>,
        in_inventory: &mut Storage<InInventory>,
    )
        ensures
            final(pickup_intents)@ == Map::<Entity, WantsToPickUp>::empty(),
            final(positions)@ == old(positions)@.remove_keys(
                Set::new(
                    |e: Entity| e.storable() && wanted(old(pickup_intents), e, old(pickup_intents).slot_count() as int),
                ),
            ),
            final(in_inventory)@ == carried(
                old(pickup_intents),
                old(in_inventory)@,
                old(pickup_intents).slot_count() as int,
            ),
            final(game_log)@ == old(game_log)@ + pickup_notes(
                old(pickup_intents),
                names@,
                player,
                old(pickup_intents).slot_count() as int,
            ),
    {
        let n: usize = pickup_intents.slots();
        let mut i: usize = 0;
        assert(game_log@ =~= old(game_log)@ + pickup_notes(pickup_intents, names@, player, 0));
        assert(positions@ =~= old(positions)@.remove_keys(
            Set::new(|e: Entity| e.storable() && wanted(pickup_intents, e, 0)),
        ));
        while i < n
            invariant
                0 <= i <= n,
                n == pickup_intents.slot_count(),
                pickup_intents == old(pickup_intents),
                positions@ == old(positions)@.remove_keys(
                    Set::new(|e: Entity| e.storable() && wanted(pickup_intents, e, i as int)),
                ),
                in_inventory@ == carried(pickup_intents, old(in_inventory)@, i as int),
                game_log@ == old(game_log)@ + pickup_notes(pickup_intents, names@, player, i as int),
            decreases n - i,
        {
            let wish: Option<(Entity, Entity)> = match pickup_intents.entry(i) {
                Some((recipient, wish)) => Some((recipient, wish.0)),
                None => None,
            };
            let ghost positions_before = positions@;
            if let Some((recipient, item)) = wish {
                if item.index < usize::MAX {
                    positions.remove(item);
                    in_inventory.insert(item, InInventory(recipient));
                    if recipient == player {
                        if let Some(item_appearance) = names.get(item) {
                            game_log.player_pickup(item_appearance);
                        }
                    }
                }
            }
            proof {
                assert(game_log@ =~= old(game_log)@ + pickup_notes(pickup_intents, names@, player, i + 1));
                assert forall|e: Entity| (e.storable() && wanted(pickup_intents, e, i + 1)) <==> ((e.storable() && wanted(
                    pickup_intents,
                    e,
                    i as int,
                )) || (e.storable() && wants(pickup_intents, i as int, e))) by {
                    if wanted(pickup_intents, e, i + 1) {
                        let j = choose|j: int| 0 <= j < i + 1 && #[trigger] wants(pickup_intents, j, e);
                        if j < i {
                            assert(wanted(pickup_intents, e, i as int));
                        }
                    }
                    if wanted(pickup_intents, e, i as int) {
                        let j = choose|j: int| 0 <= j < i && #[trigger] wants(pickup_intents, j, e);
                        assert(wants(pickup_intents, j, e));
                    }
                    if wants(pickup_intents, i as int, e) {
                        assert(wanted(pickup_intents, e, i + 1));
                    }
                }
                assert(positions@ =~= old(positions)@.remove_keys(
                    Set::new(|e: Entity| e.storable() && wanted(pickup_intents, e, i + 1)),
                ));
            }
            i = i + 1;
        }
        pickup_intents.clear();
    }
}

/// The player carries the living item `e`.
pub open spec fn owned(in_inventory: Map<Entity, InInventory>, entities: &Entities, player: Entity, e: Entity) -> bool {
    in_inventory.contains_key(e) && in_inventory[e].0 == player && entities.alive(e)
}

/// Those of the first `upto` entries of `list` that the player still
/// carries, in their order.
pub open spec fn kept(
    list: Seq<Entity>,
    in_inventory: Map<Entity, InInventory>,
    entities: &Entities,
    player: Entity,
    upto: int,
) -> Seq<Entity>
    decreases upto,
{
    if upto <= 0 {
        Seq::empty()
    } else {
        let previous = kept(list, in_inventory, entities, player, upto - 1);
        if owned(in_inventory, entities, player, list[upto - 1]) {
            previous.push(list[upto - 1])
        } else {
            previous
        }
    }
}

/// `start`, followed by the items in the slots below `upto` that the
/// player carries and that are not yet listed, by increasing slot.
pub open spec fn gathered(
    start: Seq<Entity>,
    in_inventory: &Storage<InInventory>,
    entities: &Entities,
    player: Entity,
    upto: int,
) -> Seq<Entity>
    decreases upto,
{
    if upto <= 0 {
        start
    } else {
        let previous = gathered(start, in_inventory, entities, player, upto - 1);
        match in_inventory.slot(upto - 1) {
            Some((e, _)) => if owned(in_inventory@, entities, player, e) && !previous.contains(e) {
                previous.push(e)
            } else {
                previous
            },
            None => previous,
        }
    }
}

/// Whether `x` is listed.
fn listed(list: &Vec<Entity>, x: Entity) -> (b: bool)
    ensures
        b == list@.contains(x),
{
    let mut i: usize = 0;
    while i < list.len()
        invariant
            0 <= i <= list@.len(),
            forall|j: int| 0 <= j < i ==> list@[j] != x,
        decreases list@.len() - i,
    {
        if list[i] == x {
            return true;
        }
        i = i + 1;
    }
    false
}

impl PlayerInventorySystem {
    /// Brings the list of the player's items up to date: items that the
    /// player no longer carries leave the list, the others keep their
    /// order, and newly carried items follow by increasing index.
    pub fn run(
        &self,
        inventory: &mut Inventory,
        player: Entity,
        entities: &Entities,
        in_inventory: &Storage<InInventory>,
    )
        requires
            entities.wf(),
        ensures
            final(inventory).0@ == gathered(
                kept(old(inventory).0@, in_inventory@, entities, player, old(inventory).0@.len() as int),
                in_inventory,
                entities,
                player,
                in_inventory.slot_count() as int,
            ),
    {
        let mut items: Vec<Entity> = Vec::new();
        let mut i: usize = 0;
        while i < inventory.0.len()
            invariant
                entities.wf(),
                *inventory == *old(inventory),
                0 <= i <= inventory.0@.len(),
                items@ == kept(inventory.0@, in_inventory@, entities, player, i as int),
            decreases inventory.0@.len() - i,
        {
            let item = inventory.0[i];
            let carried: bool = match in_inventory.get(item) {
                Some(holder) => holder.0 == player && entities.is_alive(item),
                None => false,
            };
            if carried {
                items.push(item);
            }
            i = i + 1;
        }
        let ghost start = items@;
        let n: usize = in_inventory.slots();
        let mut i: usize = 0;
        while i < n
            invariant
                entities.wf(),
                0 <= i <= n,
                n == in_inventory.slot_count(),
                items@ == gathered(start, in_inventory, entities, player, i as int),
            decreases n - i,
        {
            proof {
                in_inventory.lemma_slot(i as int);
            }
            match in_inventory.entry(i) {
                Some((item, holder)) => {
                    if holder.0 == player && entities.is_alive(item) && !listed(&items, item) {
                        items.push(item);
                    }
                },
                None => {},
            }
            i = i + 1;
        }
        inventory.0 = items;
    }
}

} // verus!
