//! A plain character sheet: hit points, power and defense without shields.

use crate::appearance::Appearance;
use crate::entity::Player;
use crate::game_log::{GameLog, LogEntry};
use crate::store::{Entities, Entity, Storage};
use vstd::prelude::*;

verus! {

/// Hit points, attack power and defense of a character.
#[derive(Clone, Copy, Debug, PartialEq, Eq, Structural)]
pub struct CharacterSheet {
    hp: i32,
    max_hp: i32,
    power: i32,
    defense: i32,
}

impl CharacterSheet {
    pub closed spec fn hit_points(&self) -> int {
        self.hp as int
    }

    pub closed spec fn max_hit_points(&self) -> int {
        self.max_hp as int
    }

    pub closed spec fn power(&self) -> int {
        self.power as int
    }

    pub closed spec fn defense(&self) -> int {
        self.defense as int
    }

    /// What is left of `raw_damage` after the defense.
    pub open spec fn blocked(&self, raw_damage: int) -> int {
        if raw_damage - self.defense() > 0 {
            raw_damage - self.defense()
        } else {
            0
        }
    }

    /// The hit points after healing: no more than the maximum.
    pub open spec fn healed(&self, healing: int) -> int {
        if self.hit_points() + healing < self.max_hit_points() {
            self.hit_points() + healing
        } else {
            self.max_hit_points()
        }
    }

    /// The sheet after `damage` hit points were taken away.
    pub closed spec fn hit(self, damage: int) -> CharacterSheet {
        CharacterSheet { hp: (self.hp - damage) as i32, ..self }
    }

    /// The sheet after healing by `healing` hit points.
    pub closed spec fn cured(self, healing: int) -> CharacterSheet {
        CharacterSheet { hp: self.healed(healing) as i32, ..self }
    }

    /// The sheet at full hit points.
    pub closed spec fn restored(self) -> CharacterSheet {
        CharacterSheet { hp: self.max_hp, ..self }
    }

    /// A strike of `raw_damage` can be blocked and what is left of it taken
    /// without leaving the range of `i32`.
    pub open spec fn can_take(&self, raw_damage: int) -> bool {
        raw_damage - self.defense() <= i32::MAX && i32::MIN <= self.hit_points() - self.blocked(raw_damage)
    }

    /// Healing by `healing` hit points does not leave the range of `i32`.
    pub open spec fn can_heal(&self, healing: int) -> bool {
        i32::MIN <= self.healed(healing)
    }

    /// What the changes keep and what they set.
    pub proof fn lemma_changes(self, amount: int)
        ensures
            i32::MIN <= self.hit_points() <= i32::MAX,
            i32::MIN <= self.max_hit_points() <= i32::MAX,
            i32::MIN <= self.defense() <= i32::MAX,
            i32::MIN <= self.hit_points() - amount <= i32::MAX ==> self.hit(amount).hit_points() == self.hit_points()
                - amount,
            self.hit(amount).max_hit_points() == self.max_hit_points(),
            self.hit(amount).power() == self.power(),
            self.hit(amount).defense() == self.defense(),
            i32::MIN <= self.healed(amount) ==> self.cured(amount).hit_points() == self.healed(amount),
            self.cured(amount).max_hit_points() == self.max_hit_points(),
            self.cured(amount).power() == self.power(),
            self.cured(amount).defense() == self.defense(),
            self.restored().hit_points() == self.max_hit_points(),
            self.restored().max_hit_points() == self.max_hit_points(),
            self.restored().power() == self.power(),
            self.restored().defense() == self.defense(),
    {
    }

    /// A character at full hit points.
    pub fn new(hp: i32, power: i32, defense: i32) -> (sheet: Self)
        ensures
            sheet.hit_points() == hp,
            sheet.max_hit_points() == hp,
            sheet.power() == power,
            sheet.defense() == defense,
    {
        CharacterSheet { hp, max_hp: hp, power, defense }
    }

    /// Hit points and their maximum.
    pub fn hp(&self) -> (hp: (i32, i32))
        ensures
            hp.0 == self.hit_points(),
            hp.1 == self.max_hit_points(),
    {
        (self.hp, self.max_hp)
    }

    pub fn is_alive(&self) -> (b: bool)
        ensures
            b == (self.hit_points() > 0),
    {
        self.hp > 0
    }

    pub fn melee_damage(&self) -> (damage: i32)
        ensures
            damage == self.power(),
    {
        self.power
    }

    /// What is left of `raw_damage` after the defense.
    pub fn block_damage(&self, raw_damage: i32) -> (damage: i32)
        requires
            raw_damage - self.defense() <= i32::MAX,
        ensures
            damage == self.blocked(raw_damage as int),
    {
        let left: i64 = raw_damage as i64 - self.defense as i64;
        if left > 0 {
            left as i32
        } else {
            0
        }
    }

    /// Heals by `healing` hit points, up to the maximum.
    pub fn heal(&mut self, healing: i32)
        requires
            i32::MIN <= old(self).healed(healing as int),
        ensures
            *final(self) == old(self).cured(healing as int),
            final(self).hit_points() == old(self).healed(healing as int),
            final(self).max_hit_points() == old(self).max_hit_points(),
            final(self).power() == old(self).power(),
            final(self).defense() == old(self).defense(),
    {
        let sum: i64 = self.hp as i64 + healing as i64;
        self.hp = if sum < self.max_hp as i64 {
            sum as i32
        } else {
            self.max_hp
        };
    }

    /// Takes `damage` hit points away. The hit points may become negative.
    pub fn apply_damage(&mut self, damage: i32)
        requires
            i32::MIN <= old(self).hit_points() - damage <= i32::MAX,
        ensures
            *final(self) == old(self).hit(damage as int),
            final(self).hit_points() == old(self).hit_points() - damage,
            final(self).max_hit_points() == old(self).max_hit_points(),
            final(self).power() == old(self).power(),
            final(self).defense() == old(self).defense(),
    {
        self.hp = self.hp - damage;
    }

    /// Restores full hit points.
    pub fn restore(&mut self)
        ensures
            *final(self) == old(self).restored(),
            final(self).hit_points() == old(self).max_hit_points(),
            final(self).max_hit_points() == old(self).max_hit_points(),
            final(self).power() == old(self).power(),
            final(self).defense() == old(self).defense(),
    {
        self.hp = self.max_hp;
    }
}

/// The pass that buries the characters that have fallen.
pub struct MaintainCharacterSheetSystem;

/// The character has fallen: it has a name and no hit points left.
pub open spec fn fallen(sheets: Map<Entity, CharacterSheet>, names: Map<Entity, Appearance>, e: Entity) -> bool {
    sheets.contains_key(e) && names.contains_key(e) && sheets[e].hit_points() <= 0
}

/// The character has fallen and is not the player.
pub open spec fn lost(
    sheets: Map<Entity, CharacterSheet>,
    names: Map<Entity, Appearance>,
    players: Map<Entity, Player>,
    e: Entity,
) -> bool {
    fallen(sheets, names, e) && !players.contains_key(e)
}

/// Slot `j` of the sheets after the pass: a fallen player is back at full
/// hit points.
pub open spec fn maintained_slot(
    sheets: &Storage<CharacterSheet>,
    names: Map<Entity, Appearance>,
    players: Map<Entity, Player>,
    j: int,
) -> Option<(Entity, CharacterSheet)> {
    match sheets.slot(j) {
        Some((e, sheet)) => Some(
            (
                e,
                if fallen(sheets@, names, e) && players.contains_key(e) {
                    sheet.restored()
                } else {
                    sheet
                },
            ),
        ),
        None => None,
    }
}

/// The log lines for the fallen in the slots below `upto`, by increasing
/// slot.
pub open spec fn epitaphs(
    sheets: &Storage<CharacterSheet>,
    names: Map<Entity, Appearance>,
    players: Map<Entity, Player>,
    upto: int,
) -> Seq<LogEntry>
    decreases upto,
{
    if upto <= 0 {
        Seq::empty()
    } else {
        let previous = epitaphs(sheets, names, players, upto - 1);
        match sheets.slot(upto - 1) {
            Some((e, _)) => if !fallen(sheets@, names, e) {
                previous
            } else if players.contains_key(e) {
                previous.push(LogEntry::PlayerDeath)
            } else {
                previous.push(LogEntry::Death { victim: names[e].name })
            },
            None => previous,
        }
    }
}

impl MaintainCharacterSheetSystem {
    /// Deals with every named character that has no hit points left. The
    /// player is restored to full hit points. Any other character is marked
    /// for destruction.
    pub fn run(
        &self,
        entities: &mut Entities,
        players: &Storage<Player>,
        names: &Storage<Appearance>,
        character_sheets: &mut Storage<CharacterSheet>,
        game_log: &mut GameLog,
    )
        requires
            old(entities).wf(),
        ensures
            final(entities).wf(),
            forall|j: int|
                #[trigger] final(character_sheets).slot(j) == maintained_slot(old(character_sheets), names@, players@, j),
            final(game_log)@ == old(game_log)@ + epitaphs(
                old(character_sheets),
                names@,
                players@,
                old(character_sheets).slot_count() as int,
            ),
            final(entities).slot_count() == old(entities).slot_count(),
            forall|x: Entity| final(entities).alive(x) == old(entities).alive(x),
            forall|x: Entity|
                final(entities).doomed(x) == (old(entities).doomed(x) || (lost(
                    old(character_sheets)@,
                    names@,
                    players@,
                    x,
                ) && old(entities).alive(x))),
    {
        let n: usize = character_sheets.slots();
        let mut i: usize = 0;
        assert(game_log@ =~= old(game_log)@ + epitaphs(old(character_sheets), names@, players@, 0));
        while i < n
            invariant
                0 <= i <= n,
                n == old(character_sheets).slot_count(),
                entities.wf(),
                forall|j: int| j >= i ==> character_sheets.slot(j) == old(character_sheets).slot(j),
                forall|j: int|
                    0 <= j < i ==> #[trigger] character_sheets.slot(j) == maintained_slot(
                        old(character_sheets),
                        names@,
                        players@,
                        j,
                    ),
                game_log@ == old(game_log)@ + epitaphs(old(character_sheets), names@, players@, i as int),
                entities.slot_count() == old(entities).slot_count(),
                forall|x: Entity| entities.alive(x) == old(entities).alive(x),
                forall|x: Entity|
                    entities.doomed(x) == (old(entities).doomed(x) || (lost(
                        old(character_sheets)@,
                        names@,
                        players@,
                        x,
                    ) && x.index < i && old(entities).alive(x))),
            decreases n - i,
        {
            let found: Option<(Entity, CharacterSheet)> = match character_sheets.entry(i) {
                Some((entity, sheet)) => Some((entity, *sheet)),
                None => None,
            };
            proof {
                character_sheets.lemma_slot(i as int);
                character_sheets.lemma_bounded(i as int);
                old(character_sheets).lemma_slot(i as int);
            }
            if let Some((entity, sheet)) = found {
                match names.get(entity) {
                    Some(name) => {
                        if !sheet.is_alive() {
                            if players.contains(entity) {
                                game_log.player_death();
                                let mut sheet = sheet;
                                sheet.restore();
                                character_sheets.insert(entity, sheet);
                            } else {
                                game_log.death(name);
                                entities.delete(entity);
                            }
                        }
                    },
                    None => {},
                }
            }
            proof {
                assert(game_log@ =~= old(game_log)@ + epitaphs(old(character_sheets), names@, players@, i + 1));
                assert forall|e: Entity| lost(old(character_sheets)@, names@, players@, e) && e.index == i implies old(
                    character_sheets,
                ).slot(i as int) is Some && old(character_sheets).slot(i as int).unwrap().0 == e by {
                    old(character_sheets).lemma_key_storable(e);
                }
            }
            i = i + 1;
        }
        proof {
            assert forall|j: int| #[trigger] character_sheets.slot(j) == maintained_slot(
                old(character_sheets),
                names@,
                players@,
                j,
            ) by {
                old(character_sheets).lemma_slot(j);
                character_sheets.lemma_slot(j);
            }
            assert forall|e: Entity| lost(old(character_sheets)@, names@, players@, e) implies e.index < n by {
                old(character_sheets).lemma_key_storable(e);
            }
        }
    }
}

} // verus!
