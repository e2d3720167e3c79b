//! Where the inhabitants of a level are put: the open tiles are grouped
//! into regions, and a few cells of every region receive a spawn.

use crate::entity::SpawnBuilder;
use crate::hex_coordinates::{hexes, Coordinate, Hex};
use crate::map::HexMap;
use crate::random::{rng_entry, rng_roll};
use bracket_lib::random::RandomNumberGenerator;
use vstd::prelude::*;

verus! {

/// Dice: `n_dice` dice with `die_type` sides each, and a bonus on the sum.
#[derive(Clone, Copy, Debug, PartialEq, Eq, Structural)]
pub struct Dice {
    pub n_dice: i32,
    pub die_type: i32,
    pub bonus: i32,
}

/// Draws per spawn that `spawn_region` makes at most before it gives up
/// looking for a free cell.
pub const DRAWS_PER_SPAWN: usize = 100;

/// The region marks of the open tiles below index `upto`, each once, in
/// the order in which they first occur.
pub open spec fn region_keys(map: &HexMap, marks: Seq<u32>, upto: int) -> Seq<u32>
    decreases upto,
{
    if upto <= 0 {
        Seq::empty()
    } else {
        let previous = region_keys(map, marks, upto - 1);
        if !map.tiles()[upto - 1].blocked() && !previous.contains(marks[upto - 1]) {
            previous.push(marks[upto - 1])
        } else {
            previous
        }
    }
}

/// The cells of the open tiles below index `upto` that carry the region
/// mark `key`, by increasing index.
pub open spec fn region_cells(map: &HexMap, marks: Seq<u32>, key: u32, upto: int) -> Seq<Hex>
    decreases upto,
{
    if upto <= 0 {
        Seq::empty()
    } else {
        let previous = region_cells(map, marks, key, upto - 1);
        if !map.tiles()[upto - 1].blocked() && marks[upto - 1] == key {
            previous.push(map.cell(upto - 1))
        } else {
            previous
        }
    }
}

/// A mark that is no key has no cells, and the keys are distinct.
pub proof fn lemma_region_keys(map: &HexMap, marks: Seq<u32>, key: u32, upto: int)
    ensures
        !region_keys(map, marks, upto).contains(key) ==> region_cells(map, marks, key, upto) == Seq::<Hex>::empty(),
        region_keys(map, marks, upto).no_duplicates(),
    decreases upto,
{
    if upto > 0 {
        lemma_region_keys(map, marks, key, upto - 1);
        let previous = region_keys(map, marks, upto - 1);
        let now = region_keys(map, marks, upto);
        if !map.tiles()[upto - 1].blocked() && !previous.contains(marks[upto - 1]) {
            assert(now[now.len() - 1] == marks[upto - 1]);
            assert forall|i: int, j: int| 0 <= i < now.len() && 0 <= j < now.len() && i != j implies now[i] != now[j] by {
                if i < previous.len() {
                    assert(previous[i] == now[i]);
                }
                if j < previous.len() {
                    assert(previous[j] == now[j]);
                }
            }
        }
        if !now.contains(key) && previous.contains(key) {
            let i = choose|i: int| 0 <= i < previous.len() && previous[i] == key;
            assert(now[i] == key);
        }
        if !now.contains(key) && !map.tiles()[upto - 1].blocked() && marks[upto - 1] == key {
            if previous.contains(key) {
            } else {
                assert(now[now.len() - 1] == key);
            }
        }
    }
}

/// The index of `key` among `keys`.
fn find_key(keys: &Vec<u32>, key: u32) -> (at: Option<usize>)
    ensures
        at is Some ==> at.unwrap() < keys@.len() && keys@[at.unwrap() as int] == key,
        at is None ==> !keys@.contains(key),
{
    let mut i: usize = 0;
    while i < keys.len()
        invariant
            0 <= i <= keys@.len(),
            forall|j: int| 0 <= j < i ==> keys@[j] != key,
        decreases keys@.len() - i,
    {
        if keys[i] == key {
            return Some(i);
        }
        i = i + 1;
    }
    None
}

/// Groups the open tiles of the map into regions: `marks` holds one region
/// mark per tile, in storage order, and tiles of the same mark form a
/// region. The regions come in the order in which their marks first occur,
/// and the cells of a region in storage order.
pub fn generate_regions(map: &HexMap, marks: &Vec<u32>) -> (regions: Vec<Vec<Coordinate>>)
    requires
        map.wf(),
        marks@.len() == map.tiles().len(),
    ensures
        regions@.len() == region_keys(map, marks@, marks@.len() as int).len(),
        forall|k: int|
            0 <= k < regions@.len() ==> hexes((#[trigger] regions@[k])@) == region_cells(
                map,
                marks@,
                region_keys(map, marks@, marks@.len() as int)[k],
                marks@.len() as int,
            ),
        forall|k: int, j: int|
            0 <= k < regions@.len() && 0 <= j < regions@[k]@.len() ==> map.contains(#[trigger] regions@[k]@[j]@),
        forall|k: int| 0 <= k < regions@.len() ==> (#[trigger] regions@[k])@.len() <= marks@.len(),
{
    let mut regions: Vec<Vec<Coordinate>> = Vec::new();
    let mut keys: Vec<u32> = Vec::new();
    let n: usize = marks.len();
    let mut i: usize = 0;
    while i < n
        invariant
            map.wf(),
            n == marks@.len(),
            n == map.tiles().len(),
            0 <= i <= n,
            keys@ == region_keys(map, marks@, i as int),
            regions@.len() == keys@.len(),
            forall|k: int|
                0 <= k < regions@.len() ==> hexes((#[trigger] regions@[k])@) == region_cells(
                    map,
                    marks@,
                    keys@[k],
                    i as int,
                ),
            forall|k: int, j: int|
                0 <= k < regions@.len() && 0 <= j < regions@[k]@.len() ==> map.contains(#[trigger] regions@[k]@[j]@),
            forall|k: int| 0 <= k < regions@.len() ==> (#[trigger] regions@[k])@.len() <= i,
        decreases n - i,
    {
        let coord = map.coordinate_at(i);
        let ghost before = regions@;
        let ghost keys_before = keys@;
        proof {
            lemma_region_keys(map, marks@, marks@[i as int], i as int);
            lemma_region_keys(map, marks@, marks@[i as int], i + 1);
        }
        if map.is_free(coord) {
            let mark: u32 = marks[i];
            match find_key(&keys, mark) {
                Some(k) => {
                    let mut region: Vec<Coordinate> = Vec::new();
                    core::mem::swap(&mut regions[k], &mut region);
                    region.push(coord);
                    core::mem::swap(&mut regions[k], &mut region);
                    proof {
                        assert(hexes(regions@[k as int]@) =~= hexes(before[k as int]@).push(coord@));
                        assert forall|m: int| 0 <= m < regions@.len() implies (#[trigger] regions@[m])@.len() <= i + 1 by {
                            if m != k {
                                assert(regions@[m] == before[m]);
                            }
                        }
                        assert forall|m: int| 0 <= m < regions@.len() implies hexes((#[trigger] regions@[m])@)
                            == region_cells(map, marks@, keys@[m], i + 1) by {
                            if m != k {
                                assert(regions@[m] == before[m]);
                                assert(keys@[m] != keys@[k as int]);
                            }
                        }
                        assert forall|m: int, j: int|
                            0 <= m < regions@.len() && 0 <= j < regions@[m]@.len() implies map.contains(
                            #[trigger] regions@[m]@[j]@,
                        ) by {
                            if m != k {
                                assert(regions@[m] == before[m]);
                                assert(map.contains(before[m]@[j]@));
                            } else if j < before[m]@.len() {
                                assert(map.contains(before[m]@[j]@));
                            }
                        }
                    }
                },
                None => {
                    let mut region: Vec<Coordinate> = Vec::new();
                    region.push(coord);
                    keys.push(mark);
                    regions.push(region);
                    proof {
                        assert(hexes(regions@[regions@.len() - 1]@) =~= seq![coord@]);
                        assert forall|m: int| 0 <= m < regions@.len() implies (#[trigger] regions@[m])@.len() <= i + 1 by {
                            if m < before.len() {
                                assert(regions@[m] == before[m]);
                            }
                        }
                        assert(region_cells(map, marks@, mark, i as int) == Seq::<Hex>::empty());
                        assert(region_cells(map, marks@, mark, i + 1) =~= seq![coord@]);
                        assert forall|m: int| 0 <= m < regions@.len() implies hexes((#[trigger] regions@[m])@)
                            == region_cells(map, marks@, keys@[m], i + 1) by {
                            if m < before.len() {
                                assert(regions@[m] == before[m]);
                                assert(keys@[m] == keys_before[m]);
                                assert(keys_before.contains(keys_before[m]));
                            }
                        }
                        assert forall|m: int, j: int|
                            0 <= m < regions@.len() && 0 <= j < regions@[m]@.len() implies map.contains(
                            #[trigger] regions@[m]@[j]@,
                        ) by {
                            if m < before.len() {
                                assert(regions@[m] == before[m]);
                                assert(map.contains(before[m]@[j]@));
                            }
                        }
                    }
                },
            }
        } else {
            proof {
                map.lemma_index_bijection(coord@, i as int);
            }
        }
        i = i + 1;
    }
    regions
}

/// Whether some spawn is already put on `coord`.
fn taken(spawns: &Vec<(Coordinate, SpawnBuilder)>, coord: Coordinate) -> (b: bool)
    ensures
        b <==> exists|i: int| 0 <= i < spawns@.len() && (#[trigger] spawns@[i]).0 == coord,
{
    let mut i: usize = 0;
    while i < spawns.len()
        invariant
            0 <= i <= spawns@.len(),
            forall|j: int| 0 <= j < i ==> (#[trigger] spawns@[j]).0 != coord,
        decreases spawns@.len() - i,
    {
        if spawns[i].0 == coord {
            return true;
        }
        i = i + 1;
    }
    false
}

/// No two spawns are put on the same cell.
pub open spec fn apart(spawns: Seq<(Coordinate, SpawnBuilder)>) -> bool {
    forall|i: int, j: int| 0 <= i < j < spawns.len() ==> (#[trigger] spawns[i]).0 != (#[trigger] spawns[j]).0
}

/// The most spawns that the dice can ask for in a region of `size` cells.
pub open spec fn most_spawns(dice: Dice, size: int) -> int {
    let most = dice.n_dice * dice.die_type + dice.bonus;
    if most < 0 {
        0
    } else if most > size {
        size
    } else {
        most
    }
}

/// What holds of the spawns of a region, whatever the dice show: they are
/// apart, on cells of the region and of kinds of the table, and no more than
/// the dice can ask for.
pub open spec fn spawned_in(
    region: Seq<Coordinate>,
    spawn_table: Seq<SpawnBuilder>,
    spawn_dice: Dice,
    spawns: Seq<(Coordinate, SpawnBuilder)>,
) -> bool {
    &&& apart(spawns)
    &&& spawns.len() <= most_spawns(spawn_dice, region.len() as int)
    &&& forall|i: int|
        0 <= i < spawns.len() ==> region.contains((#[trigger] spawns[i]).0) && spawn_table.contains(spawns[i].1)
}

/// Some spawn is already put on `coord`.
pub open spec fn occupied(spawns: Seq<(Coordinate, SpawnBuilder)>, coord: Coordinate) -> bool {
    exists|i: int| 0 <= i < spawns.len() && (#[trigger] spawns[i]).0 == coord
}

/// The spawns that the first `n` draws leave: a draw of a cell that is
/// still free puts its spawn there, and a draw of a taken cell is lost.
pub open spec fn gathered_spawns(draws: Seq<(Coordinate, SpawnBuilder)>, n: int) -> Seq<(Coordinate, SpawnBuilder)>
    decreases n,
{
    if n <= 0 {
        Seq::empty()
    } else {
        let previous = gathered_spawns(draws, n - 1);
        if occupied(previous, draws[n - 1].0) {
            previous
        } else {
            previous.push(draws[n - 1])
        }
    }
}

/// The number of spawns asked for when the dice show `rolled`: no fewer
/// than none and no more than the region has cells.
pub open spec fn asked_for(rolled: int, size: int) -> int {
    if rolled < 0 {
        0
    } else if rolled > size {
        size
    } else {
        rolled
    }
}

/// `spawns` is what comes of the dice showing `rolled` and of the draws
/// `draws`, each a cell of the region with a kind of the table: draws are
/// made as long as fewer spawns are put than were asked for, and no more
/// than [`DRAWS_PER_SPAWN`] for each spawn asked for.
pub open spec fn drawn_for(
    region: Seq<Coordinate>,
    spawn_table: Seq<SpawnBuilder>,
    spawn_dice: Dice,
    rolled: int,
    draws: Seq<(Coordinate, SpawnBuilder)>,
    spawns: Seq<(Coordinate, SpawnBuilder)>,
) -> bool {
    let wanted = asked_for(rolled, region.len() as int);
    &&& spawn_dice.n_dice + spawn_dice.bonus <= rolled <= spawn_dice.n_dice * spawn_dice.die_type + spawn_dice.bonus
    &&& draws.len() <= wanted * DRAWS_PER_SPAWN
    &&& forall|i: int|
        0 <= i < draws.len() ==> region.contains((#[trigger] draws[i]).0) && spawn_table.contains(draws[i].1)
    &&& forall|d: int| 0 <= d < draws.len() ==> (#[trigger] gathered_spawns(draws, d)).len() < wanted
    &&& spawns == gathered_spawns(draws, draws.len() as int)
    &&& spawns.len() == wanted || draws.len() == wanted * DRAWS_PER_SPAWN
}

/// Draws that agree in their first entries leave the same spawns there.
pub proof fn lemma_gathered_agrees(
    shorter: Seq<(Coordinate, SpawnBuilder)>,
    longer: Seq<(Coordinate, SpawnBuilder)>,
    n: int,
)
    requires
        n <= shorter.len() <= longer.len(),
        forall|i: int| 0 <= i < shorter.len() ==> longer[i] == shorter[i],
    ensures
        gathered_spawns(longer, n) == gathered_spawns(shorter, n),
    decreases n,
{
    if n > 0 {
        lemma_gathered_agrees(shorter, longer, n - 1);
    }
}

/// Puts spawns on cells of the region: the dice say how many, no more than
/// the region has cells; each goes to a cell drawn at random that is still
/// free, and is of a kind drawn at random from the table. The search for a
/// free cell ends after [`DRAWS_PER_SPAWN`] draws for every spawn asked
/// for. Where the dice cannot show less than one and the region has a cell,
/// at least one spawn is put: the first draw finds every cell free.
pub fn spawn_region(
    rng: &mut RandomNumberGenerator,
    region: &Vec<Coordinate>,
    spawn_table: &Vec<SpawnBuilder>,
    spawn_dice: Dice,
) -> (spawns: Vec<(Coordinate, SpawnBuilder)>)
    requires
        region@.len() < i32::MAX,
        0 < spawn_table@.len() < i32::MAX,
        0 <= spawn_dice.n_dice <= 1000,
        1 <= spawn_dice.die_type <= 1000,
        -1000 <= spawn_dice.bonus <= 1000,
    ensures
        spawned_in(region@, spawn_table@, spawn_dice, spawns@),
        exists|rolled: int, draws: Seq<(Coordinate, SpawnBuilder)>| #[trigger]
            drawn_for(region@, spawn_table@, spawn_dice, rolled, draws, spawns@),
        spawn_dice.n_dice + spawn_dice.bonus >= 1 && region@.len() >= 1 ==> spawns@.len() >= 1,
{
    let mut spawns: Vec<(Coordinate, SpawnBuilder)> = Vec::new();
    let rolled: i32 = rng_roll(rng, spawn_dice.n_dice, spawn_dice.die_type, spawn_dice.bonus);
    let num_spawns: usize = if rolled < 0 {
        0
    } else if rolled as usize > region.len() {
        region.len()
    } else {
        rolled as usize
    };
    assert(spawn_dice.n_dice * spawn_dice.die_type <= 1000 * 1000) by (nonlinear_arith)
        requires
            0 <= spawn_dice.n_dice <= 1000,
            1 <= spawn_dice.die_type <= 1000,
    ;
    let draws: usize = num_spawns * DRAWS_PER_SPAWN;
    let mut drawn: usize = 0;
    let ghost mut made: Seq<(Coordinate, SpawnBuilder)> = Seq::empty();
    while spawns.len() < num_spawns && drawn < draws
        invariant
            region@.len() < i32::MAX,
            0 < spawn_table@.len() < i32::MAX,
            num_spawns <= region@.len(),
            draws == num_spawns * DRAWS_PER_SPAWN,
            apart(spawns@),
            spawns@.len() <= num_spawns,
            0 <= drawn <= draws,
            made.len() == drawn,
            forall|i: int|
                0 <= i < made.len() ==> region@.contains((#[trigger] made[i]).0) && spawn_table@.contains(made[i].1),
            forall|d: int| 0 <= d < made.len() ==> (#[trigger] gathered_spawns(made, d)).len() < num_spawns,
            spawns@ == gathered_spawns(made, made.len() as int),
            drawn > 0 ==> spawns@.len() > 0,
            forall|i: int|
                0 <= i < spawns@.len() ==> region@.contains((#[trigger] spawns@[i]).0) && spawn_table@.contains(
                    spawns@[i].1,
                ),
        decreases draws - drawn,
    {
        let ghost before = spawns@;
        let ghost earlier = made;
        let coord: Coordinate = match rng_entry(rng, region) {
            Some(coord) => *coord,
            None => {
                proof {
                    assert(false);
                }
                return spawns;
            },
        };
        let free = !taken(&spawns, coord);
        let ghost mut kind: SpawnBuilder = spawn_table@[0];
        if free {
            match rng_entry(rng, spawn_table) {
                Some(spawn) => {
                    proof {
                        kind = *spawn;
                    }
                    spawns.push((coord, *spawn));
                    assert forall|i: int| 0 <= i < spawns@.len() implies region@.contains((#[trigger] spawns@[i]).0)
                        && spawn_table@.contains(spawns@[i].1) by {
                        if i < before.len() {
                            assert(spawns@[i] == before[i]);
                        }
                    }
                },
                None => {
                    proof {
                        assert(false);
                    }
                },
            }
        }
        proof {
            made = earlier.push((coord, kind));
            assert(spawn_table@.contains(spawn_table@[0]));
            lemma_gathered_agrees(earlier, made, earlier.len() as int);
            assert forall|d: int| 0 <= d < made.len() implies (#[trigger] gathered_spawns(made, d)).len()
                < num_spawns by {
                lemma_gathered_agrees(earlier, made, d);
            }
            assert(occupied(before, coord) == !free);
            assert(spawns@ == gathered_spawns(made, made.len() as int));
        }
        drawn = drawn + 1;
    }
    proof {
        assert(num_spawns == asked_for(rolled as int, region@.len() as int));
        assert(drawn_for(region@, spawn_table@, spawn_dice, rolled as int, made, spawns@));
    }
    spawns
}

} // verus!
