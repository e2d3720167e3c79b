//! Building a level: the deck, its walls, and what is spawned where.

use crate::bisection_generator::{add_walls, walls_added};
use crate::effect::lookup;
use crate::entity::{
    eager, hale, is_item_kind, is_monster_kind, outfit, outfitted, unseeing, SpawnBuilder,
};
use crate::hex_coordinates::{hexes, Coordinate, MAX_SPAN};
use crate::map::HexMap;
use crate::spawner::{generate_regions, region_cells, region_keys, spawn_region, spawned_in, Dice};
use crate::store::Entity;
use crate::template::{
    add_engines, center_of, empty_deck, engines_added, is_empty_deck, map_center, rebuilt,
};
use crate::world::World;
use bracket_lib::random::RandomNumberGenerator;
use vstd::prelude::*;

verus! {

/// A level in the making: the map and the spawns, each on a cell of its
/// own.
pub struct DeckBuilder {
    pub map: HexMap,
    pub spawns: Vec<(Coordinate, SpawnBuilder)>,
}

/// Puts a spawn on a cell, in place of a spawn that was put there before.
fn put_spawn(spawns: &mut Vec<(Coordinate, SpawnBuilder)>, coord: Coordinate, kind: SpawnBuilder)
    requires
        forall|i: int| 0 <= i < old(spawns)@.len() ==> (#[trigger] old(spawns)@[i]).0@.in_reach(),
        coord@.in_reach(),
    ensures
        forall|i: int| 0 <= i < final(spawns)@.len() ==> (#[trigger] final(spawns)@[i]).0@.in_reach(),
        final(spawns)@ == placed(old(spawns)@, coord, kind),
        final(spawns)@.len() >= old(spawns)@.len(),
{
    let mut i: usize = 0;
    while i < spawns.len()
        invariant
            0 <= i <= spawns@.len(),
            *spawns == *old(spawns),
            coord@.in_reach(),
            forall|j: int| 0 <= j < spawns@.len() ==> (#[trigger] spawns@[j]).0@.in_reach(),
            forall|j: int| 0 <= j < i ==> (#[trigger] spawns@[j]).0 != coord,
        decreases spawns@.len() - i,
    {
        if spawns[i].0 == coord {
            spawns[i] = (coord, kind);
            proof {
                lemma_placed(old(spawns)@, coord, kind, i as int);
            }
            return;
        }
        i = i + 1;
    }
    proof {
        lemma_placed(old(spawns)@, coord, kind, spawns@.len() as int);
    }
    spawns.push((coord, kind));
}

/// The least index at which a spawn is put on `coord`; the number of spawns
/// if none is.
pub open spec fn place_of(spawns: Seq<(Coordinate, SpawnBuilder)>, coord: Coordinate) -> int
    decreases spawns.len(),
{
    if spawns.len() == 0 {
        0
    } else if spawns[0].0 == coord {
        0
    } else {
        1 + place_of(spawns.drop_first(), coord)
    }
}

/// The spawns after one was put on `coord`: it takes the place of the
/// first spawn on that cell, or comes last if the cell was free.
pub open spec fn placed(
    spawns: Seq<(Coordinate, SpawnBuilder)>,
    coord: Coordinate,
    kind: SpawnBuilder,
) -> Seq<(Coordinate, SpawnBuilder)> {
    let at = place_of(spawns, coord);
    if at < spawns.len() {
        spawns.update(at, (coord, kind))
    } else {
        spawns.push((coord, kind))
    }
}

/// The first spawn on a cell, after spawns on other cells, stands at the
/// cell's place.
pub proof fn lemma_placed(spawns: Seq<(Coordinate, SpawnBuilder)>, coord: Coordinate, kind: SpawnBuilder, i: int)
    requires
        0 <= i <= spawns.len(),
        i < spawns.len() ==> spawns[i].0 == coord,
        forall|j: int| 0 <= j < i ==> (#[trigger] spawns[j]).0 != coord,
    ensures
        place_of(spawns, coord) == i,
    decreases i,
{
    if i > 0 {
        lemma_placed(spawns.drop_first(), coord, kind, i - 1);
    }
}

impl DeckBuilder {
    /// The map is well-formed, and every spawn is within reach.
    pub open spec fn wf(&self) -> bool {
        &&& self.map.wf()
        &&& forall|i: int| 0 <= i < self.spawns@.len() ==> (#[trigger] self.spawns@[i]).0@.in_reach()
    }

    /// An empty deck with the player in its middle.
    pub fn new(width: i32, height: i32) -> (deck: Self)
        requires
            0 <= width <= MAX_SPAN,
            0 <= height <= MAX_SPAN,
        ensures
            deck.wf(),
            is_empty_deck(&deck.map, width as int, height as int),
            deck.spawns@.len() == 1,
            deck.spawns@[0].0@ == center_of(width as int, height as int),
            deck.spawns@[0].1 == SpawnBuilder::Player,
    {
        let map = empty_deck(width, height);
        let mut spawns: Vec<(Coordinate, SpawnBuilder)> = Vec::new();
        spawns.push((map_center(width, height), SpawnBuilder::Player));
        DeckBuilder { map, spawns }
    }

    /// The same deck with the three engine blocks.
    pub fn with_engines(self) -> (deck: Self)
        requires
            self.wf(),
        ensures
            deck.wf(),
            deck.spawns == self.spawns,
            engines_added(&self.map, &deck.map),
    {
        let mut deck = self;
        add_engines(&mut deck.map);
        deck
    }

    /// The same deck, cut into rooms by walls.
    pub fn with_walls(self, rng: &mut RandomNumberGenerator) -> (deck: Self)
        requires
            self.wf(),
        ensures
            deck.wf(),
            deck.spawns == self.spawns,
            walls_added(&self.map, &deck.map),
            rebuilt(&self.map, &deck.map),
    {
        let mut deck = self;
        add_walls(&mut deck.map, rng);
        deck
    }

    /// The same deck with spawns in every region: `marks` holds the region
    /// mark of every tile, and each region receives what one die of six
    /// sides shows, less three. A spawn takes the place of an earlier one
    /// on the same cell.
    pub fn with_spawns(
        self,
        rng: &mut RandomNumberGenerator,
        spawn_table: &Vec<SpawnBuilder>,
        marks: &Vec<u32>,
    ) -> (deck: Self)
        requires
            self.wf(),
            0 < spawn_table@.len() < i32::MAX,
            marks@.len() == self.map.tiles().len(),
        ensures
            deck.wf(),
            deck.map == self.map,
            populated(&self, &deck, spawn_table@, marks@),
    {
        let mut deck = self;
        let regions = generate_regions(&deck.map, marks);
        let spawn_dice = Dice { n_dice: 1, die_type: 6, bonus: -3 };
        proof {
            deck.map.lemma_size();
            assert(MAX_SPAN * MAX_SPAN < i32::MAX);
        }
        let mut k: usize = 0;
        let ghost mut draws: Seq<Seq<(Coordinate, SpawnBuilder)>> = Seq::empty();
        while k < regions.len()
            invariant
                deck.wf(),
                deck.map == self.map,
                0 <= k <= regions@.len(),
                0 < spawn_table@.len() < i32::MAX,
                spawn_dice == region_dice(),
                draws.len() == k,
                forall|m: int| 0 <= m < k ==> spawned_in(regions@[m]@, spawn_table@, region_dice(), #[trigger] draws[m]),
                deck.spawns@ == all_placed(self.spawns@, draws, k as int),
                forall|m: int, j: int|
                    0 <= m < regions@.len() && 0 <= j < regions@[m]@.len() ==> deck.map.contains(
                        #[trigger] regions@[m]@[j]@,
                    ),
                forall|m: int| 0 <= m < regions@.len() ==> (#[trigger] regions@[m])@.len() < i32::MAX,
            decreases regions@.len() - k,
        {
            let region = &regions[k];
            let spawns = spawn_region(rng, region, spawn_table, spawn_dice);
            let ghost before = deck.spawns@;
            let mut i: usize = 0;
            while i < spawns.len()
                invariant
                    deck.wf(),
                    deck.map == self.map,
                    0 <= i <= spawns@.len(),
                    deck.spawns@ == placed_all(before, spawns@, i as int),
                    forall|j: int| 0 <= j < spawns@.len() ==> deck.map.contains((#[trigger] spawns@[j]).0@),
                decreases spawns@.len() - i,
            {
                proof {
                    deck.map.lemma_size();
                    assert(deck.map.contains(spawns@[i as int].0@));
                }
                put_spawn(&mut deck.spawns, spawns[i].0, spawns[i].1);
                i = i + 1;
            }
            proof {
                let longer = draws.push(spawns@);
                assert forall|m: int| 0 <= m <= k implies all_placed(self.spawns@, longer, m) == all_placed(
                    self.spawns@,
                    draws,
                    m,
                ) by {
                    lemma_all_placed_agrees(self.spawns@, draws, longer, m);
                }
                draws = longer;
            }
            k = k + 1;
        }
        proof {
            assert(populated_by(&self, &deck, spawn_table@, marks@, regions@, draws));
        }
        deck
    }

    /// Creates an entity for every spawn, in the order of the spawns, and
    /// hands over the map. Every spawn becomes a new entity of its kind on
    /// its cell; the entities that lived before live on.
    pub fn spawn(self, world: &mut World) -> (map: HexMap)
        requires
            self.wf(),
            old(world).wf(),
        ensures
            final(world).wf(),
            map == self.map,
            final(world).map == old(world).map,
            final(world).intents == old(world).intents,
            final(world).game_log == old(world).game_log,
            forall|x: Entity| old(world).entities.alive(x) ==> final(world).entities.alive(x),
            forall|i: int|
                0 <= i < self.spawns@.len() ==> settled(old(world), final(world), #[trigger] self.spawns@[i]),
            has_player(self.spawns@, self.spawns@.len() as int) ==> final(world).entities.alive(final(world).player)
                && final(world).coordinates@.contains_key(final(world).player),
    {
        let mut i: usize = 0;
        while i < self.spawns.len()
            invariant
                self.wf(),
                world.wf(),
                0 <= i <= self.spawns@.len(),
                world.map == old(world).map,
                world.intents == old(world).intents,
                world.game_log == old(world).game_log,
                forall|x: Entity| old(world).entities.alive(x) ==> world.entities.alive(x),
                forall|j: int| 0 <= j < i ==> settled(old(world), world, #[trigger] self.spawns@[j]),
                has_player(self.spawns@, i as int) ==> world.entities.alive(world.player)
                    && world.coordinates@.contains_key(world.player),
            decreases self.spawns@.len() - i,
        {
            let (coord, kind) = self.spawns[i];
            let builder = kind.apply(world.create_entity()).with(coord);
            let ghost before = *world;
            let ghost made_player = builder.player;
            assert(outfitted(builder, kind));
            let entity = builder.build(world);
            proof {
                if has_player(self.spawns@, i + 1) && !made_player {
                    let w = choose|w: int| 0 <= w < i + 1 && (#[trigger] self.spawns@[w]).1 == SpawnBuilder::Player;
                    assert(w < i);
                    assert(has_player(self.spawns@, i as int));
                    assert(before.player != entity);
                    if before.player.index == entity.index {
                        world.entities.lemma_alive_unique(before.player, entity);
                    }
                    assert(world.coordinates@.contains_key(before.player));
                }
                assert(stands_as(world, entity, (coord, kind)));
                assert(settled(old(world), world, self.spawns@[i as int]));
                assert forall|j: int| 0 <= j < i implies settled(old(world), world, #[trigger] self.spawns@[j]) by {
                    assert(settled(old(world), &before, self.spawns@[j]));
                    let e = choose|e: Entity|
                        before.entities.alive(e) && !old(world).entities.alive(e) && stands_as(
                            &before,
                            e,
                            self.spawns@[j],
                        );
                    if e.index == entity.index {
                        world.entities.lemma_alive_unique(e, entity);
                    }
                    assert(stands_as(world, e, self.spawns@[j]));
                }
            }
            i = i + 1;
        }
        self.map
    }
}

/// The entity `e` stands on the cell of the spawn and is made of what
/// makes an entity of its kind.
pub open spec fn stands_as(world: &World, e: Entity, spawn: (Coordinate, SpawnBuilder)) -> bool {
    let made_of = outfit(spawn.1);
    &&& world.coordinates@.contains_key(e)
    &&& world.coordinates@[e] == spawn.0
    &&& world.players@.contains_key(e) == (spawn.1 == SpawnBuilder::Player)
    &&& world.monsters@.contains_key(e) == is_monster_kind(spawn.1)
    &&& world.blockers@.contains_key(e) == is_monster_kind(spawn.1)
    &&& world.items@.contains_key(e) == is_item_kind(spawn.1)
    &&& world.names@.contains_key(e)
    &&& world.names@[e].name@ == made_of.name
    &&& world.names@[e].glyph == made_of.glyph
    &&& lookup(world.usables@, e) == Some(made_of.usable)
    &&& lookup(world.deals_damage@, e) == made_of.deals_damage
    &&& lookup(world.provides_healing@, e) == made_of.provides_healing
    &&& hale(lookup(world.durabilities@, e), made_of.body)
    &&& unseeing(lookup(world.viewsheds@, e), made_of.body is Some)
    &&& eager(lookup(world.initiative.initiatives@, e), made_of.body is Some)
}

/// The spawn has become an entity of `after` that did not live in
/// `before`.
pub open spec fn settled(before: &World, after: &World, spawn: (Coordinate, SpawnBuilder)) -> bool {
    exists|e: Entity| after.entities.alive(e) && !before.entities.alive(e) && stands_as(after, e, spawn)
}

/// The dice of a region: one die of six sides, less three.
pub open spec fn region_dice() -> Dice {
    Dice { n_dice: 1, die_type: 6, bonus: (-3) as i32 }
}

/// The spawns after the first `n` of `added` were put on their cells, one
/// after the other.
pub open spec fn placed_all(
    start: Seq<(Coordinate, SpawnBuilder)>,
    added: Seq<(Coordinate, SpawnBuilder)>,
    n: int,
) -> Seq<(Coordinate, SpawnBuilder)>
    decreases n,
{
    if n <= 0 {
        start
    } else {
        placed(placed_all(start, added, n - 1), added[n - 1].0, added[n - 1].1)
    }
}

/// The spawns after the draws of the first `k` regions were put on their
/// cells, region after region.
pub open spec fn all_placed(
    start: Seq<(Coordinate, SpawnBuilder)>,
    draws: Seq<Seq<(Coordinate, SpawnBuilder)>>,
    k: int,
) -> Seq<(Coordinate, SpawnBuilder)>
    decreases k,
{
    if k <= 0 {
        start
    } else {
        placed_all(all_placed(start, draws, k - 1), draws[k - 1], draws[k - 1].len() as int)
    }
}

/// Draws that agree for the first regions give the same spawns for them.
pub proof fn lemma_all_placed_agrees(
    start: Seq<(Coordinate, SpawnBuilder)>,
    draws: Seq<Seq<(Coordinate, SpawnBuilder)>>,
    longer: Seq<Seq<(Coordinate, SpawnBuilder)>>,
    k: int,
)
    requires
        k <= draws.len() <= longer.len(),
        forall|m: int| 0 <= m < draws.len() ==> longer[m] == draws[m],
    ensures
        all_placed(start, longer, k) == all_placed(start, draws, k),
    decreases k,
{
    if k > 0 {
        lemma_all_placed_agrees(start, draws, longer, k - 1);
    }
}

/// `after` is `before` with the spawns `draws`, those of each of the
/// regions `regions` in turn, put on their cells.
pub open spec fn populated_by(
    before: &DeckBuilder,
    after: &DeckBuilder,
    spawn_table: Seq<SpawnBuilder>,
    marks: Seq<u32>,
    regions: Seq<Vec<Coordinate>>,
    draws: Seq<Seq<(Coordinate, SpawnBuilder)>>,
) -> bool {
    &&& regions.len() == region_keys(&before.map, marks, marks.len() as int).len()
    &&& forall|k: int|
        0 <= k < regions.len() ==> hexes((#[trigger] regions[k])@) == region_cells(
            &before.map,
            marks,
            region_keys(&before.map, marks, marks.len() as int)[k],
            marks.len() as int,
        )
    &&& draws.len() == regions.len()
    &&& forall|k: int| 0 <= k < regions.len() ==> spawned_in(regions[k]@, spawn_table, region_dice(), #[trigger] draws[k])
    &&& after.spawns@ == all_placed(before.spawns@, draws, draws.len() as int)
}

/// `after` is `before` with spawns in the regions that `marks` mark out:
/// for every region some spawns that the dice allow, and each put on its
/// cell in place of what was there.
pub open spec fn populated(
    before: &DeckBuilder,
    after: &DeckBuilder,
    spawn_table: Seq<SpawnBuilder>,
    marks: Seq<u32>,
) -> bool {
    exists|regions: Seq<Vec<Coordinate>>, draws: Seq<Seq<(Coordinate, SpawnBuilder)>>| #[trigger]
        populated_by(before, after, spawn_table, marks, regions, draws)
}

/// One of the first `upto` spawns is the player.
pub open spec fn has_player(spawns: Seq<(Coordinate, SpawnBuilder)>, upto: int) -> bool {
    exists|i: int| 0 <= i < upto && (#[trigger] spawns[i]).1 == SpawnBuilder::Player
}

/// Populates the world with the spawns of the deck and lays out its map.
pub fn build_level(world: &mut World, deck: DeckBuilder)
    requires
        old(world).wf(),
        deck.wf(),
    ensures
        final(world).wf(),
        final(world).map == deck.map,
        final(world).intents == old(world).intents,
        final(world).game_log == old(world).game_log,
        forall|x: Entity| old(world).entities.alive(x) ==> final(world).entities.alive(x),
        forall|i: int| 0 <= i < deck.spawns@.len() ==> settled(old(world), final(world), #[trigger] deck.spawns@[i]),
        has_player(deck.spawns@, deck.spawns@.len() as int) ==> final(world).entities.alive(final(world).player)
            && final(world).coordinates@.contains_key(final(world).player),
{
    let ghost spawns = deck.spawns@;
    let map = deck.spawn(world);
    let ghost populated = *world;
    world.map = map;
    proof {
        assert forall|i: int| 0 <= i < spawns.len() implies settled(old(world), world, #[trigger] spawns[i]) by {
            assert(settled(old(world), &populated, spawns[i]));
            let e = choose|e: Entity|
                populated.entities.alive(e) && !old(world).entities.alive(e) && stands_as(&populated, e, spawns[i]);
            assert(stands_as(world, e, spawns[i]));
        }
    }
}

/// A deck with engine blocks and walls, but without spawns.
pub fn build_map(width: i32, height: i32, rng: &mut RandomNumberGenerator) -> (map: HexMap)
    requires
        0 <= width <= MAX_SPAN,
        0 <= height <= MAX_SPAN,
    ensures
        map.wf(),
        map.width() == width,
        map.height() == height,
        exists|deck: HexMap, fitted: HexMap|
            is_empty_deck(&deck, width as int, height as int) && #[trigger] engines_added(&deck, &fitted) && walls_added(
                &fitted,
                &map,
            ),
{
    let mut map = empty_deck(width, height);
    let ghost deck = map;
    add_engines(&mut map);
    let ghost fitted = map;
    add_walls(&mut map, rng);
    proof {
        assert(engines_added(&deck, &fitted) && walls_added(&fitted, &map));
    }
    map
}

} // verus!
