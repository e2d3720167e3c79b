//! Fighting at arm's length, on plain character sheets.
//!
//! All blows of a tick are struck at once: each is blocked by the defense
//! that its target had before the first blow, and a target takes the sum of
//! what is left of the blows against it.

use crate::appearance::Appearance;
use crate::character_sheet::CharacterSheet;
use crate::effect::DealsDamage;
use crate::game_log::{damage_entry, GameLog, LogEntry};
use crate::hex_coordinates::Coordinate;
use crate::store::{lemma_put_existing, Entity, Storage};
use vstd::prelude::*;

verus! {

/// The wish of an entity to strike another with what it has at hand.
#[derive(Clone, Copy, Debug, PartialEq, Eq, Structural)]
pub struct WantsToMelee(pub Entity);

/// The pass that resolves the blows.
pub struct MeleeCombatSystem;

/// Whether `to` can be struck from `from` without a weapon that reaches
/// farther than one step.
pub fn in_melee_range(from: Coordinate, to: Coordinate) -> (b: bool)
    ensures
        b == (from@.distance(to@) <= 1),
{
    from.wide_distance(to) <= 1
}

/// What the pass reads.
pub struct Fighters<'a> {
    pub names: &'a Storage<Appearance>,
    pub damages: &'a Storage<DealsDamage>,
    pub melee_intents: &'a Storage<WantsToMelee>,
}

/// The damage that each target is to take, and the log, while blows are
/// struck.
pub ghost struct Volley {
    pub totals: Map<Entity, i32>,
    pub log: Seq<LogEntry>,
}

/// Totals and log taken together.
pub open spec fn volley(totals: Map<Entity, i32>, log: Seq<LogEntry>) -> Option<Volley> {
    Some(Volley { totals, log })
}

impl<'a> Fighters<'a> {
    /// The wish in slot `j` leads to a blow: attacker and target are named
    /// and alive, and the attacker deals damage.
    pub open spec fn strikes(&self, sheets: Map<Entity, CharacterSheet>, j: int) -> bool {
        match self.melee_intents.slot(j) {
            Some((attacker, wish)) => {
                &&& self.names@.contains_key(attacker)
                &&& self.damages@.contains_key(attacker)
                &&& sheets.contains_key(attacker)
                &&& sheets[attacker].hit_points() > 0
                &&& self.names@.contains_key(wish.0)
                &&& sheets.contains_key(wish.0)
                &&& sheets[wish.0].hit_points() > 0
            },
            None => false,
        }
    }

    /// The volley after the blow of slot `j`; `None` if the numbers leave
    /// the range of `i32`. The blow is logged; what the target does not
    /// block of it is added to what the target is to take.
    pub open spec fn blow(&self, sheets: Map<Entity, CharacterSheet>, before: Option<Volley>, j: int) -> Option<Volley> {
        match before {
            None => None,
            Some(v) => if !self.strikes(sheets, j) {
                before
            } else {
                let attacker = self.melee_intents.slot(j).unwrap().0;
                let target = self.melee_intents.slot(j).unwrap().1.0;
                let raw = self.damages@[attacker].0 as int;
                let damage = sheets[target].blocked(raw);
                let so_far = if v.totals.contains_key(target) {
                    v.totals[target] as int
                } else {
                    0
                };
                if raw - sheets[target].defense() > i32::MAX || so_far + damage > i32::MAX {
                    None
                } else {
                    Some(
                        Volley {
                            totals: if damage > 0 {
                                v.totals.insert(target, (so_far + damage) as i32)
                            } else {
                                v.totals
                            },
                            log: v.log.push(
                                damage_entry(self.names@[attacker].name, self.names@[target].name, damage as i32),
                            ),
                        },
                    )
                }
            },
        }
    }

    /// The volley after the blows of the slots below `upto`, by increasing
    /// slot.
    pub open spec fn blows(&self, sheets: Map<Entity, CharacterSheet>, before: Option<Volley>, upto: int) -> Option<
        Volley,
    >
        decreases upto,
    {
        if upto <= 0 {
            before
        } else {
            self.blow(sheets, self.blows(sheets, before, upto - 1), upto - 1)
        }
    }

    /// Where the numbers stay in range for all blows, they do for the first
    /// of them.
    pub proof fn lemma_blows_prefix(&self, sheets: Map<Entity, CharacterSheet>, before: Option<Volley>, upto: int, n: int)
        requires
            upto <= n,
            self.blows(sheets, before, n) is Some,
        ensures
            self.blows(sheets, before, upto) is Some,
        decreases n - upto,
    {
        if upto < n {
            self.lemma_blows_prefix(sheets, before, upto + 1, n);
        }
    }
}

/// Every target can take what it is to take without leaving the range of
/// `i32`.
pub open spec fn bearable(sheets: Map<Entity, CharacterSheet>, totals: Map<Entity, i32>) -> bool {
    forall|e: Entity|
        sheets.contains_key(e) && totals.contains_key(e) ==> i32::MIN <= (#[trigger] sheets[e]).hit_points()
            - totals[e] <= i32::MAX
}

/// Slot `j` of the sheets after every target has taken what it is to take.
pub open spec fn struck_slot(
    sheets: &Storage<CharacterSheet>,
    totals: Map<Entity, i32>,
    j: int,
) -> Option<(Entity, CharacterSheet)> {
    match sheets.slot(j) {
        Some((e, sheet)) => Some(
            (
                e,
                if totals.contains_key(e) {
                    sheet.hit(totals[e] as int)
                } else {
                    sheet
                },
            ),
        ),
        None => None,
    }
}

impl MeleeCombatSystem {
    /// Resolves every wish to strike, by increasing index of the attacker,
    /// lets every target take the sum of what it did not block, and forgets
    /// all wishes. The numbers have to stay in the range of `i32`.
    pub fn run(
        &self,
        names: &Storage<Appearance>,
        damages: &Storage<DealsDamage>,
        character_sheets: &mut Storage<CharacterSheet>,
        melee_intents: &mut Storage<WantsToMelee>,
        game_log: &mut GameLog,
    )
        requires
            struck(names, damages, old(melee_intents), old(character_sheets)@, old(game_log)@) is Some,
            bearable(
                old(character_sheets)@,
                struck(names, damages, old(melee_intents), old(character_sheets)@, old(game_log)@).unwrap().totals,
            ),
        ensures
            final(melee_intents)@ == Map::<Entity, WantsToMelee>::empty(),
            final(game_log)@ == struck(
                names,
                damages,
                old(melee_intents),
                old(character_sheets)@,
                old(game_log)@,
            ).unwrap().log,
            forall|j: int|
                #[trigger] final(character_sheets).slot(j) == struck_slot(
                    old(character_sheets),
                    struck(names, damages, old(melee_intents), old(character_sheets)@, old(game_log)@).unwrap().totals,
                    j,
                ),
    {
        let ghost fighters = Fighters { names, damages, melee_intents: old(melee_intents) };
        let ghost sheets = character_sheets@;
        let ghost start = volley(Map::<Entity, i32>::empty(), game_log@);
        let mut damage_taken: Storage<i32> = Storage::new();
        let n: usize = melee_intents.slots();
        let mut i: usize = 0;
        while i < n
            invariant
                0 <= i <= n,
                n == melee_intents.slot_count(),
                melee_intents == old(melee_intents),
                character_sheets == old(character_sheets),
                sheets == character_sheets@,
                fighters == (Fighters { names, damages, melee_intents: old(melee_intents) }),
                start == volley(Map::<Entity, i32>::empty(), old(game_log)@),
                fighters.blows(sheets, start, n as int) is Some,
                volley(damage_taken@, game_log@) == fighters.blows(sheets, start, i as int),
                forall|e: Entity| damage_taken@.contains_key(e) ==> sheets.contains_key(e),
            decreases n - i,
        {
            proof {
                melee_intents.lemma_slot(i as int);
                fighters.lemma_blows_prefix(sheets, start, i + 1, n as int);
            }
            let wish: Option<(Entity, Entity)> = match melee_intents.entry(i) {
                Some((attacker, wish)) => Some((attacker, wish.0)),
                None => None,
            };
            if let Some((attacker, target_entity)) = wish {
                let attack: Option<(&Appearance, DealsDamage)> = match (names.get(attacker), damages.get(attacker)) {
                    (Some(name), Some(deals)) => Some((name, *deals)),
                    _ => None,
                };
                let attacker_alive: bool = match character_sheets.get(attacker) {
                    Some(sheet) => sheet.is_alive(),
                    None => false,
                };
                let defense: Option<(&Appearance, CharacterSheet)> = match (
                    names.get(target_entity),
                    character_sheets.get(target_entity),
                ) {
                    (Some(name), Some(sheet)) => Some((name, *sheet)),
                    _ => None,
                };
                match (attack, defense) {
                    (Some((attacker_appearance, attacker_damage)), Some((target_name, target))) => {
                        if attacker_alive && target.is_alive() {
                            assert(fighters.strikes(sheets, i as int));
                            let damage: i32 = target.block_damage(attacker_damage.0);
                            game_log.damage(attacker_appearance, target_name, damage);
                            if damage > 0 {
                                let so_far: i32 = match damage_taken.get(target_entity) {
                                    Some(total) => *total,
                                    None => 0,
                                };
                                proof {
                                    character_sheets.lemma_key_storable(target_entity);
                                    lemma_put_unique(&damage_taken, character_sheets, target_entity, (so_far + damage) as i32);
                                }
                                damage_taken.insert(target_entity, so_far + damage);
                            }
                        }
                    },
                    _ => {},
                }
            }
            i = i + 1;
        }
        let ghost totals = damage_taken@;
        let m: usize = character_sheets.slots();
        let mut j: usize = 0;
        while j < m
            invariant
                0 <= j <= m,
                m == old(character_sheets).slot_count(),
                totals == damage_taken@,
                bearable(old(character_sheets)@, totals),
                forall|t: int| t >= j ==> character_sheets.slot(t) == old(character_sheets).slot(t),
                forall|t: int|
                    0 <= t < j ==> #[trigger] character_sheets.slot(t) == struck_slot(
                        old(character_sheets),
                        totals,
                        t,
                    ),
            decreases m - j,
        {
            let found: Option<(Entity, CharacterSheet)> = match character_sheets.entry(j) {
                Some((entity, sheet)) => Some((entity, *sheet)),
                None => None,
            };
            proof {
                character_sheets.lemma_slot(j as int);
                character_sheets.lemma_bounded(j as int);
                old(character_sheets).lemma_slot(j as int);
            }
            if let Some((entity, sheet)) = found {
                if let Some(damage) = damage_taken.get(entity) {
                    let mut target = sheet;
                    assert(old(character_sheets)@[entity] == sheet);
                    target.apply_damage(*damage);
                    character_sheets.insert(entity, target);
                }
            }
            j = j + 1;
        }
        proof {
            assert forall|t: int| #[trigger] character_sheets.slot(t) == struck_slot(old(character_sheets), totals, t) by {
                old(character_sheets).lemma_slot(t);
                character_sheets.lemma_slot(t);
            }
        }
        melee_intents.clear();
    }
}

/// What the blows of a tick come to: the damage that each target is to
/// take, and the log; `None` if the numbers leave the range of `i32`.
pub open spec fn struck(
    names: &Storage<Appearance>,
    damages: &Storage<DealsDamage>,
    melee_intents: &Storage<WantsToMelee>,
    sheets: Map<Entity, CharacterSheet>,
    log: Seq<LogEntry>,
) -> Option<Volley> {
    (Fighters { names, damages, melee_intents }).blows(
        sheets,
        volley(Map::<Entity, i32>::empty(), log),
        melee_intents.slot_count() as int,
    )
}

/// Among the entities of a table, each has its slot to itself: storing a
/// value for one of them in another table whose entities are among them
/// touches no other.
pub proof fn lemma_put_unique<T, U>(table: &Storage<T>, among: &Storage<U>, e: Entity, value: T)
    requires
        among@.contains_key(e),
        forall|x: Entity| table@.contains_key(x) ==> among@.contains_key(x),
    ensures
        crate::store::put(table@, e, value) == table@.insert(e, value),
        forall|x: Entity| table@.insert(e, value).contains_key(x) ==> among@.contains_key(x),
{
    assert forall|x: Entity| table@.contains_key(x) && x.index == e.index implies x == e by {
        among.lemma_key_storable(x);
        among.lemma_key_storable(e);
    }
    assert(crate::store::put(table@, e, value) =~= table@.insert(e, value));
}

} // verus!
