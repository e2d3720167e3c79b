//! The kinds of entities.

use crate::appearance::{Appearance, ORANGE, RED};
use crate::durability::{all_wf, Durability};
use crate::effect::{healing_wf, DealsDamage, ProvidesHealing, Usable};
use crate::field_of_view::{positions_in_reach, viewsheds_wf, Viewshed};
use crate::hex_coordinates::{Coordinate, MAX_SPAN};
use crate::initiative::Initiative;
use crate::map_index::BlocksTile;
use crate::store::{put, vacated, Entity, Storage};
use crate::world::{usables_wf, World};
use vstd::prelude::*;

verus! {

/// Marks the player entity.
#[derive(Clone, Copy, Debug, Default, PartialEq, Eq, Structural)]
pub struct Player;

/// Marks monsters.
#[derive(Clone, Copy, Debug, Default, PartialEq, Eq, Structural)]
pub struct Monster;

/// Marks things that can be picked up.
#[derive(Clone, Copy, Debug, PartialEq, Eq, Structural)]
pub enum Item {
    /// Used up by its first use.
    Consumable,
}

/// Rounds that a creature waits between its turns.
pub const DEFAULT_SPEED: i32 = 1;

/// What a new entity is to be made of.
pub struct EntityBuilder {
    pub player: bool,
    pub monster: bool,
    pub blocks_tile: bool,
    pub item: Option<Item>,
    pub appearance: Option<Appearance>,
    pub durability: Option<Durability>,
    pub usable: Option<Usable>,
    pub deals_damage: Option<DealsDamage>,
    pub provides_healing: Option<ProvidesHealing>,
    pub viewshed: Option<Viewshed>,
    pub coordinate: Option<Coordinate>,
    pub initiative: Option<Initiative>,
}

/// The kinds of entities that a level is populated with.
#[derive(Clone, Copy, Debug, PartialEq, Eq, Structural)]
pub enum SpawnBuilder {
    Player,
    InfectedCrewmember,
    AlienHatchling,
    RepairKit,
    Grenade,
}

/// What is spawned at random: two monsters and two items.
pub fn spawn_table() -> (table: [SpawnBuilder; 4])
    ensures
        table[0] == SpawnBuilder::InfectedCrewmember,
        table[1] == SpawnBuilder::AlienHatchling,
        table[2] == SpawnBuilder::RepairKit,
        table[3] == SpawnBuilder::Grenade,
{
    [
        SpawnBuilder::InfectedCrewmember,
        SpawnBuilder::AlienHatchling,
        SpawnBuilder::RepairKit,
        SpawnBuilder::Grenade,
    ]
}

impl EntityBuilder {
    /// What the builder holds would keep a world well-formed.
    pub open spec fn wf(&self) -> bool {
        &&& self.durability is Some ==> self.durability.unwrap().wf()
        &&& self.provides_healing is Some ==> self.provides_healing.unwrap().0 >= 0
        &&& self.viewshed is Some ==> self.viewshed.unwrap().wf()
        &&& self.coordinate is Some ==> self.coordinate.unwrap()@.in_reach()
        &&& match self.usable {
            Some(Usable::OnGround { range }) => range <= MAX_SPAN,
            _ => true,
        }
    }

    /// The builder holds no component.
    pub open spec fn is_bare(&self) -> bool {
        &&& !self.player
        &&& !self.monster
        &&& !self.blocks_tile
        &&& self.item is None
        &&& self.appearance is None
        &&& self.durability is None
        &&& self.usable is None
        &&& self.deals_damage is None
        &&& self.provides_healing is None
        &&& self.viewshed is None
        &&& self.coordinate is None
        &&& self.initiative is None
    }

    /// The builder of an entity without any component.
    pub fn new() -> (builder: Self)
        ensures
            builder.wf(),
            builder.is_bare(),
    {
        EntityBuilder {
            player: false,
            monster: false,
            blocks_tile: false,
            item: None,
            appearance: None,
            durability: None,
            usable: None,
            deals_damage: None,
            provides_healing: None,
            viewshed: None,
            coordinate: None,
            initiative: None,
        }
    }

    /// The same builder, with a position.
    pub fn with(self, coordinate: Coordinate) -> (builder: Self)
        requires
            self.wf(),
            coordinate@.in_reach(),
        ensures
            builder.wf(),
            builder == (EntityBuilder { coordinate: Some(coordinate), ..self }),
    {
        let mut builder = self;
        builder.coordinate = Some(coordinate);
        builder
    }

    /// The same builder, with a countdown to its turns.
    pub fn with_initiative(self, initiative: Initiative) -> (builder: Self)
        requires
            self.wf(),
        ensures
            builder.wf(),
            builder == (EntityBuilder { initiative: Some(initiative), ..self }),
    {
        let mut builder = self;
        builder.initiative = Some(initiative);
        builder
    }

    /// Creates the entity in `world` and stores its components. An entity
    /// made as the player becomes the world's player.
    pub fn build(self, world: &mut World) -> (entity: Entity)
        requires
            self.wf(),
            old(world).wf(),
        ensures
            final(world).wf(),
            !old(world).entities.alive(entity),
            final(world).entities.alive(entity),
            entity.storable(),
            forall|x: Entity| x != entity ==> final(world).entities.alive(x) == old(world).entities.alive(x),
            forall|x: Entity| x != entity ==> final(world).entities.doomed(x) == old(world).entities.doomed(x),
            final(world).map == old(world).map,
            final(world).inventory == old(world).inventory,
            final(world).game_log == old(world).game_log,
            final(world).intents == old(world).intents,
            final(world).targeting == old(world).targeting,
            final(world).reticule == old(world).reticule,
            final(world).last_rejection == old(world).last_rejection,
            final(world).in_inventory == old(world).in_inventory,
            final(world).initiative.has_initiative == old(world).initiative.has_initiative,
            final(world).player == if self.player {
                entity
            } else {
                old(world).player
            },
            final(world).players@ == stored(old(world).players@, entity, flag(self.player, Player)),
            final(world).monsters@ == stored(old(world).monsters@, entity, flag(self.monster, Monster)),
            final(world).blockers@ == stored(old(world).blockers@, entity, flag(self.blocks_tile, BlocksTile)),
            final(world).items@ == stored(old(world).items@, entity, self.item),
            final(world).names@ == stored(old(world).names@, entity, self.appearance),
            final(world).durabilities@ == stored(old(world).durabilities@, entity, self.durability),
            final(world).usables@ == stored(old(world).usables@, entity, self.usable),
            final(world).deals_damage@ == stored(old(world).deals_damage@, entity, self.deals_damage),
            final(world).provides_healing@ == stored(old(world).provides_healing@, entity, self.provides_healing),
            final(world).viewsheds@ == stored(old(world).viewsheds@, entity, self.viewshed),
            final(world).coordinates@ == stored(old(world).coordinates@, entity, self.coordinate),
            final(world).initiative.initiatives@ == stored(
                old(world).initiative.initiatives@,
                entity,
                self.initiative,
            ),
    {
        let entity = world.entities.create();
        proof {
            world.entities.lemma_alive_in_slots(entity);
            lemma_stored_wf(world, entity, &self);
        }
        if self.player {
            world.player = entity;
        }
        store(&mut world.players, entity, mark(self.player, Player));
        store(&mut world.monsters, entity, mark(self.monster, Monster));
        store(&mut world.blockers, entity, mark(self.blocks_tile, BlocksTile));
        store(&mut world.items, entity, self.item);
        store(&mut world.names, entity, self.appearance);
        store(&mut world.durabilities, entity, self.durability);
        store(&mut world.usables, entity, self.usable);
        store(&mut world.deals_damage, entity, self.deals_damage);
        store(&mut world.provides_healing, entity, self.provides_healing);
        store(&mut world.viewsheds, entity, self.viewshed);
        store(&mut world.coordinates, entity, self.coordinate);
        store(&mut world.initiative.initiatives, entity, self.initiative);
        entity
    }
}

/// Gives a new entity its component, if it has one of this kind, in place
/// of whatever the entity's slot held.
fn store<T>(table: &mut Storage<T>, e: Entity, component: Option<T>)
    requires
        e.storable(),
    ensures
        final(table)@ == stored(old(table)@, e, component),
{
    match component {
        Some(value) => {
            table.insert(e, value);
        },
        None => {
            table.vacate(e);
        },
    }
}

/// A marker component where the flag is set.
fn mark<T>(set: bool, marker: T) -> (component: Option<T>)
    ensures
        component == flag(set, marker),
{
    if set {
        Some(marker)
    } else {
        None
    }
}

/// Storing the components of a well-formed builder keeps the tables
/// well-formed.
pub proof fn lemma_stored_wf(world: &World, e: Entity, builder: &EntityBuilder)
    requires
        builder.wf(),
        all_wf(world.durabilities@),
        healing_wf(world.provides_healing@),
        viewsheds_wf(world.viewsheds@),
        positions_in_reach(world.coordinates@),
        usables_wf(world.usables@),
    ensures
        all_wf(stored(world.durabilities@, e, builder.durability)),
        healing_wf(stored(world.provides_healing@, e, builder.provides_healing)),
        viewsheds_wf(stored(world.viewsheds@, e, builder.viewshed)),
        positions_in_reach(stored(world.coordinates@, e, builder.coordinate)),
        usables_wf(stored(world.usables@, e, builder.usable)),
{
    assert forall|x: Entity| stored(world.durabilities@, e, builder.durability).contains_key(x) implies (
    #[trigger] stored(world.durabilities@, e, builder.durability)[x]).wf() by {
        if x != e || builder.durability is None {
            assert(world.durabilities@[x].wf());
        }
    }
    assert forall|x: Entity| stored(world.provides_healing@, e, builder.provides_healing).contains_key(x) implies (
    #[trigger] stored(world.provides_healing@, e, builder.provides_healing)[x]).0 >= 0 by {
        if x != e || builder.provides_healing is None {
            assert(world.provides_healing@[x].0 >= 0);
        }
    }
    assert forall|x: Entity| stored(world.viewsheds@, e, builder.viewshed).contains_key(x) implies (#[trigger] stored(
        world.viewsheds@,
        e,
        builder.viewshed,
    )[x]).wf() by {
        if x != e || builder.viewshed is None {
            assert(world.viewsheds@[x].wf());
        }
    }
    assert forall|x: Entity| stored(world.coordinates@, e, builder.coordinate).contains_key(x) implies (#[trigger] stored(
        world.coordinates@,
        e,
        builder.coordinate,
    )[x])@.in_reach() by {
        if x != e || builder.coordinate is None {
            assert(world.coordinates@[x]@.in_reach());
        }
    }
    assert forall|x: Entity| stored(world.usables@, e, builder.usable).contains_key(x) implies match #[trigger] stored(
        world.usables@,
        e,
        builder.usable,
    )[x] {
        Usable::OnGround { range } => range <= MAX_SPAN,
        _ => true,
    } by {
        if x != e || builder.usable is None {
            assert(match world.usables@[x] {
                Usable::OnGround { range } => range <= MAX_SPAN,
                _ => true,
            });
        }
    }
}

/// A marker component where the flag is set.
pub open spec fn flag<T>(set: bool, marker: T) -> Option<T> {
    if set {
        Some(marker)
    } else {
        None
    }
}

/// The table after a new entity was given its component, if it has one of
/// this kind: whatever the slot of the entity held before is gone.
pub open spec fn stored<T>(table: Map<Entity, T>, e: Entity, component: Option<T>) -> Map<Entity, T> {
    match component {
        Some(value) => put(table, e, value),
        None => vacated(table, e),
    }
}

impl World {
    /// The builder of a new entity.
    pub fn create_entity(&self) -> (builder: EntityBuilder)
        ensures
            builder.wf(),
            builder.is_bare(),
    {
        EntityBuilder::new()
    }
}

/// The player: 30 health behind a defense of 2, a strike of 5 at arm's
/// length, and a view of 25 cells.
pub fn player(entity: EntityBuilder) -> (builder: EntityBuilder)
    requires
        entity.wf(),
    ensures
        builder.wf(),
        builder.player,
        builder.monster == entity.monster,
        builder.blocks_tile == entity.blocks_tile,
        builder.item == entity.item,
        builder.coordinate == entity.coordinate,
        builder.provides_healing == entity.provides_healing,
        builder.appearance is Some,
        builder.appearance.unwrap().name@ == "Player"@,
        builder.appearance.unwrap().glyph == '@',
        builder.durability is Some,
        builder.durability.unwrap().health_points() == 30,
        builder.durability.unwrap().max_health() == 30,
        builder.durability.unwrap().defense() == 2,
        builder.durability.unwrap().shield_points() == 0,
        builder.durability.unwrap().max_shield() == 0,
        builder.usable == Some(Usable::OnTarget { range: 1 }),
        builder.deals_damage == Some(DealsDamage(5)),
        unseeing(builder.viewshed, true),
        builder.initiative == Some(Initiative { current: 0, speed: DEFAULT_SPEED }),
{
    let mut builder = entity;
    builder.player = true;
    builder.appearance = Some(Appearance::player());
    builder.durability = Some(Durability::new(30, 2));
    builder.usable = Some(Usable::OnTarget { range: 1 });
    builder.deals_damage = Some(DealsDamage(5));
    builder.viewshed = Some(Viewshed::new(25));
    builder.initiative = Some(Initiative { current: 0, speed: DEFAULT_SPEED });
    builder
}

/// What all monsters of the game have in common: 16 health behind a
/// defense of 1, a strike of 4 at arm's length, a view of 25 cells, and a
/// body that blocks its tile.
pub open spec fn is_monster(builder: EntityBuilder, entity: EntityBuilder, name: Seq<char>, glyph: char) -> bool {
    &&& builder.wf()
    &&& builder.monster
    &&& builder.blocks_tile
    &&& builder.player == entity.player
    &&& builder.item == entity.item
    &&& builder.coordinate == entity.coordinate
    &&& builder.provides_healing == entity.provides_healing
    &&& builder.appearance is Some
    &&& builder.appearance.unwrap().name@ == name
    &&& builder.appearance.unwrap().glyph == glyph
    &&& builder.appearance.unwrap().foreground == RED
    &&& builder.durability is Some
    &&& builder.durability.unwrap().health_points() == 16
    &&& builder.durability.unwrap().max_health() == 16
    &&& builder.durability.unwrap().defense() == 1
    &&& builder.durability.unwrap().shield_points() == 0
    &&& builder.durability.unwrap().max_shield() == 0
    &&& builder.usable == Some(Usable::OnTarget { range: 1 })
    &&& builder.deals_damage == Some(DealsDamage(4))
    &&& unseeing(builder.viewshed, true)
    &&& builder.initiative == Some(Initiative { current: 0, speed: DEFAULT_SPEED })
}

fn monster(entity: EntityBuilder, name: &str, glyph: char) -> (builder: EntityBuilder)
    requires
        entity.wf(),
    ensures
        is_monster(builder, entity, name@, glyph),
{
    let mut builder = entity;
    builder.monster = true;
    builder.blocks_tile = true;
    builder.appearance = Some(Appearance::monster(name, glyph, RED));
    builder.durability = Some(Durability::new(16, 1));
    builder.usable = Some(Usable::OnTarget { range: 1 });
    builder.deals_damage = Some(DealsDamage(4));
    builder.viewshed = Some(Viewshed::new(25));
    builder.initiative = Some(Initiative { current: 0, speed: DEFAULT_SPEED });
    builder
}

pub fn infected_crewmember(entity: EntityBuilder) -> (builder: EntityBuilder)
    requires
        entity.wf(),
    ensures
        is_monster(builder, entity, "Infected Crewmember"@, 'z'),
{
    monster(entity, "Infected Crewmember", 'z')
}

pub fn alien_hatchling(entity: EntityBuilder) -> (builder: EntityBuilder)
    requires
        entity.wf(),
    ensures
        is_monster(builder, entity, "Alien Hatchling"@, 'h'),
{
    monster(entity, "Alien Hatchling", 'h')
}

/// A consumable that heals its user by 8.
pub fn repair_kit(entity: EntityBuilder) -> (builder: EntityBuilder)
    requires
        entity.wf(),
    ensures
        builder.wf(),
        builder.item == Some(Item::Consumable),
        builder.appearance is Some,
        builder.appearance.unwrap().name@ == "Repair Kit"@,
        builder.appearance.unwrap().glyph == '\u{3b4}',
        builder.appearance.unwrap().foreground == ORANGE,
        builder.usable == Some(Usable::OnSelf),
        builder.provides_healing == Some(ProvidesHealing(8)),
        builder.deals_damage == entity.deals_damage,
        builder.player == entity.player,
        builder.monster == entity.monster,
        builder.blocks_tile == entity.blocks_tile,
        builder.durability == entity.durability,
        builder.viewshed == entity.viewshed,
        builder.coordinate == entity.coordinate,
        builder.initiative == entity.initiative,
{
    let mut builder = entity;
    builder.item = Some(Item::Consumable);
    builder.appearance = Some(Appearance::item("Repair Kit", '\u{3b4}', ORANGE));
    builder.usable = Some(Usable::OnSelf);
    builder.provides_healing = Some(ProvidesHealing(8));
    builder
}

/// A consumable that strikes a target within 6 cells for 9.
pub fn grenade(entity: EntityBuilder) -> (builder: EntityBuilder)
    requires
        entity.wf(),
    ensures
        builder.wf(),
        builder.item == Some(Item::Consumable),
        builder.appearance is Some,
        builder.appearance.unwrap().name@ == "Grenade"@,
        builder.appearance.unwrap().glyph == '*',
        builder.appearance.unwrap().foreground == ORANGE,
        builder.usable == Some(Usable::OnTarget { range: 6 }),
        builder.deals_damage == Some(DealsDamage(9)),
        builder.provides_healing == entity.provides_healing,
        builder.player == entity.player,
        builder.monster == entity.monster,
        builder.blocks_tile == entity.blocks_tile,
        builder.durability == entity.durability,
        builder.viewshed == entity.viewshed,
        builder.coordinate == entity.coordinate,
        builder.initiative == entity.initiative,
{
    let mut builder = entity;
    builder.item = Some(Item::Consumable);
    builder.appearance = Some(Appearance::item("Grenade", '*', ORANGE));
    builder.usable = Some(Usable::OnTarget { range: 6 });
    builder.deals_damage = Some(DealsDamage(9));
    builder
}

/// What an entity of a kind is made of.
pub ghost struct Outfit {
    pub name: Seq<char>,
    pub glyph: char,
    /// Health and defense, for a creature.
    pub body: Option<(int, int)>,
    pub usable: Usable,
    pub deals_damage: Option<DealsDamage>,
    pub provides_healing: Option<ProvidesHealing>,
}

/// What the entities of each kind are made of.
pub open spec fn outfit(kind: SpawnBuilder) -> Outfit {
    match kind {
        SpawnBuilder::Player => Outfit {
            name: "Player"@,
            glyph: '@',
            body: Some((30, 2)),
            usable: Usable::OnTarget { range: 1 },
            deals_damage: Some(DealsDamage(5)),
            provides_healing: None,
        },
        SpawnBuilder::InfectedCrewmember => Outfit {
            name: "Infected Crewmember"@,
            glyph: 'z',
            body: Some((16, 1)),
            usable: Usable::OnTarget { range: 1 },
            deals_damage: Some(DealsDamage(4)),
            provides_healing: None,
        },
        SpawnBuilder::AlienHatchling => Outfit {
            name: "Alien Hatchling"@,
            glyph: 'h',
            body: Some((16, 1)),
            usable: Usable::OnTarget { range: 1 },
            deals_damage: Some(DealsDamage(4)),
            provides_healing: None,
        },
        SpawnBuilder::RepairKit => Outfit {
            name: "Repair Kit"@,
            glyph: '\u{3b4}',
            body: None,
            usable: Usable::OnSelf,
            deals_damage: None,
            provides_healing: Some(ProvidesHealing(8)),
        },
        SpawnBuilder::Grenade => Outfit {
            name: "Grenade"@,
            glyph: '*',
            body: None,
            usable: Usable::OnTarget { range: 6 },
            deals_damage: Some(DealsDamage(9)),
            provides_healing: None,
        },
    }
}

/// The kind is a monster.
pub open spec fn is_monster_kind(kind: SpawnBuilder) -> bool {
    kind == SpawnBuilder::InfectedCrewmember || kind == SpawnBuilder::AlienHatchling
}

/// The kind is an item.
pub open spec fn is_item_kind(kind: SpawnBuilder) -> bool {
    kind == SpawnBuilder::RepairKit || kind == SpawnBuilder::Grenade
}

/// The durability is that of a creature at full health, without a shield.
pub open spec fn hale(durability: Option<Durability>, body: Option<(int, int)>) -> bool {
    match body {
        Some((health, defense)) => {
            &&& durability is Some
            &&& durability.unwrap().health_points() == health
            &&& durability.unwrap().max_health() == health
            &&& durability.unwrap().defense() == defense
            &&& durability.unwrap().shield_points() == 0
            &&& durability.unwrap().max_shield() == 0
        },
        None => durability is None,
    }
}

/// The viewshed is that of a creature that has not looked around yet.
pub open spec fn unseeing(viewshed: Option<Viewshed>, creature: bool) -> bool {
    if creature {
        viewshed is Some && viewshed.unwrap().reach() == 25 && viewshed.unwrap().dirty() && viewshed.unwrap().visible()
            == Set::<crate::hex_coordinates::Hex>::empty()
    } else {
        viewshed is None
    }
}

/// The countdown of a creature that may act at once.
pub open spec fn eager(initiative: Option<Initiative>, creature: bool) -> bool {
    initiative == if creature {
        Some(Initiative { current: 0, speed: DEFAULT_SPEED })
    } else {
        None::<Initiative>
    }
}

/// The builder holds what makes an entity of the kind, and nothing else
/// but, possibly, a position.
pub open spec fn outfitted(builder: EntityBuilder, kind: SpawnBuilder) -> bool {
    let made_of = outfit(kind);
    &&& builder.player == (kind == SpawnBuilder::Player)
    &&& builder.monster == is_monster_kind(kind)
    &&& builder.blocks_tile == is_monster_kind(kind)
    &&& builder.item == if is_item_kind(kind) {
        Some(Item::Consumable)
    } else {
        None::<Item>
    }
    &&& builder.appearance is Some
    &&& builder.appearance.unwrap().name@ == made_of.name
    &&& builder.appearance.unwrap().glyph == made_of.glyph
    &&& builder.usable == Some(made_of.usable)
    &&& builder.deals_damage == made_of.deals_damage
    &&& builder.provides_healing == made_of.provides_healing
    &&& hale(builder.durability, made_of.body)
    &&& unseeing(builder.viewshed, made_of.body is Some)
    &&& eager(builder.initiative, made_of.body is Some)
}

impl SpawnBuilder {
    /// Adds to the builder what makes an entity of this kind.
    pub fn apply(self, entity: EntityBuilder) -> (builder: EntityBuilder)
        requires
            entity.wf(),
        ensures
            builder.wf(),
            builder.coordinate == entity.coordinate,
            builder.player == (entity.player || self == SpawnBuilder::Player),
            builder.appearance is Some,
            builder.usable is Some,
            entity.is_bare() ==> outfitted(builder, self),
    {
        match self {
            SpawnBuilder::Player => player(entity),
            SpawnBuilder::InfectedCrewmember => infected_crewmember(entity),
            SpawnBuilder::AlienHatchling => alien_hatchling(entity),
            SpawnBuilder::RepairKit => repair_kit(entity),
            SpawnBuilder::Grenade => grenade(entity),
        }
    }
}

} // verus!
