//! Health, shield and defense of an entity, and the passes that regenerate
//! shields and bury the dead.

use crate::appearance::Appearance;
use crate::entity::Player;
use crate::game_log::{GameLog, LogEntry};
use crate::hex_coordinates::Coordinate;
use crate::initiative::HasInitiative;
use crate::store::{Entities, Entity, Storage};
use vstd::prelude::*;

verus! {

/// How much punishment an entity can take.
#[derive(Clone, Copy, Debug, PartialEq, Eq, Structural)]
pub struct Durability {
    health: i32,
    max_health: i32,
    shield: i32,
    max_shield: i32,
    defense: i32,
    shield_defense: i32,
    took_damage: bool,
    shield_regen: i32,
}

/// Shield points that a shielded entity regains in a tick without damage.
pub const SHIELD_REGEN: i32 = 5;

pub open spec fn min(a: int, b: int) -> int {
    if a <= b {
        a
    } else {
        b
    }
}

pub open spec fn max(a: int, b: int) -> int {
    if a >= b {
        a
    } else {
        b
    }
}

/// `x` held between `low` and `high`.
pub open spec fn clamp(x: int, low: int, high: int) -> int {
    if x < low {
        low
    } else if x > high {
        high
    } else {
        x
    }
}

impl Durability {
    pub closed spec fn health_points(&self) -> int {
        self.health as int
    }

    pub closed spec fn max_health(&self) -> int {
        self.max_health as int
    }

    pub closed spec fn shield_points(&self) -> int {
        self.shield as int
    }

    pub closed spec fn max_shield(&self) -> int {
        self.max_shield as int
    }

    pub closed spec fn defense(&self) -> int {
        self.defense as int
    }

    pub closed spec fn shield_defense(&self) -> int {
        self.shield_defense as int
    }

    pub closed spec fn shield_regen(&self) -> int {
        self.shield_regen as int
    }

    /// Whether damage was taken since the last shield regeneration.
    pub closed spec fn took_damage(&self) -> bool {
        self.took_damage
    }

    /// Health and shield stay between nothing and their maxima, and the
    /// shield never shrinks by regenerating.
    pub open spec fn wf(&self) -> bool {
        &&& 0 <= self.health_points() <= self.max_health()
        &&& 0 <= self.shield_points() <= self.max_shield()
        &&& 0 <= self.shield_regen()
        &&& self.max_health() + self.max_shield() <= i32::MAX
    }

    /// `other` differs from `self` at most in health, shield and the
    /// damage mark.
    pub open spec fn same_build(&self, other: &Durability) -> bool {
        &&& self.max_health() == other.max_health()
        &&& self.max_shield() == other.max_shield()
        &&& self.defense() == other.defense()
        &&& self.shield_defense() == other.shield_defense()
        &&& self.shield_regen() == other.shield_regen()
    }

    /// What the shield loses to a strike of `raw` damage: the part of the
    /// strike above the shield's defense, as far as the shield lasts.
    pub open spec fn damage_to_shield(&self, raw: int) -> int {
        if self.shield_points() > 0 {
            min(self.shield_points(), max(0, raw - self.shield_defense()))
        } else {
            0
        }
    }

    /// What of a strike of `raw` damage gets past the shield.
    pub open spec fn unshielded_damage(&self, raw: int) -> int {
        if self.shield_points() > 0 {
            max(0, raw - self.shield_defense()) - self.damage_to_shield(raw)
        } else {
            raw
        }
    }

    /// What the health loses to a strike of `raw` damage: what gets past the
    /// shield, less the defense, as far as the health lasts.
    pub open spec fn damage_to_health(&self, raw: int) -> int {
        clamp(self.unshielded_damage(raw) - self.defense(), 0, self.health_points())
    }

    /// What is healed by `healing` points: no more than what is missing.
    pub open spec fn healed(&self, healing: int) -> int {
        min(healing, self.max_health() - self.health_points())
    }

    /// The shield after a tick of regeneration.
    pub open spec fn regenerated_shield(&self) -> int {
        min(self.shield_points() + self.shield_regen(), self.max_shield())
    }

    /// The durability after a strike of `raw` damage.
    pub closed spec fn struck(self, raw: int) -> Durability {
        Durability {
            health: (self.health - self.damage_to_health(raw)) as i32,
            shield: (self.shield - self.damage_to_shield(raw)) as i32,
            took_damage: true,
            ..self
        }
    }

    /// The durability after healing by `healing` points.
    pub closed spec fn mended(self, healing: int) -> Durability {
        Durability { health: (self.health + self.healed(healing)) as i32, ..self }
    }

    /// The durability after a tick of shield bookkeeping: after a tick with
    /// damage the mark is cleared and the shield stays; otherwise the shield
    /// regenerates.
    pub closed spec fn regenerated(self) -> Durability {
        if self.took_damage {
            Durability { took_damage: false, ..self }
        } else {
            Durability { shield: self.regenerated_shield() as i32, ..self }
        }
    }

    /// The durability at full health.
    pub closed spec fn revived(self) -> Durability {
        Durability { health: self.max_health, ..self }
    }

    /// What a strike changes.
    pub proof fn lemma_struck(self, raw: int)
        requires
            self.wf(),
        ensures
            self.struck(raw).wf(),
            self.struck(raw).same_build(&self),
            self.struck(raw).took_damage(),
            self.struck(raw).shield_points() == self.shield_points() - self.damage_to_shield(raw),
            self.struck(raw).health_points() == self.health_points() - self.damage_to_health(raw),
    {
    }

    /// What healing changes.
    pub proof fn lemma_mended(self, healing: int)
        requires
            self.wf(),
            healing >= 0,
        ensures
            self.mended(healing).wf(),
            self.mended(healing).same_build(&self),
            self.mended(healing).took_damage() == self.took_damage(),
            self.mended(healing).shield_points() == self.shield_points(),
            self.mended(healing).health_points() == self.health_points() + self.healed(healing),
    {
    }

    /// What a tick of shield bookkeeping changes.
    pub proof fn lemma_regenerated(self)
        requires
            self.wf(),
        ensures
            self.regenerated().wf(),
            self.regenerated().same_build(&self),
            self.regenerated().health_points() == self.health_points(),
            !self.regenerated().took_damage(),
            self.regenerated().shield_points() == if self.took_damage() {
                self.shield_points()
            } else {
                self.regenerated_shield()
            },
    {
    }

    /// What reviving changes.
    pub proof fn lemma_revived(self)
        requires
            self.wf(),
        ensures
            self.revived().wf(),
            self.revived().same_build(&self),
            self.revived().health_points() == self.max_health(),
            self.revived().shield_points() == self.shield_points(),
            self.revived().took_damage() == self.took_damage(),
    {
    }

    /// Full health, no shield.
    pub fn new(health: i32, defense: i32) -> (d: Self)
        requires
            health >= 0,
        ensures
            d.wf(),
            d.health_points() == health,
            d.max_health() == health,
            d.shield_points() == 0,
            d.max_shield() == 0,
            d.defense() == defense,
            d.shield_defense() == 0,
            d.shield_regen() == 0,
            !d.took_damage(),
    {
        Durability {
            health,
            max_health: health,
            shield: 0,
            max_shield: 0,
            defense,
            shield_defense: 0,
            shield_regen: 0,
            took_damage: false,
        }
    }

    /// The same with a full shield.
    pub fn with_shield(self, shield: i32, shield_defense: i32) -> (d: Self)
        requires
            self.wf(),
            shield >= 0,
            self.max_health() + shield <= i32::MAX,
        ensures
            d.wf(),
            d.health_points() == self.health_points(),
            d.max_health() == self.max_health(),
            d.defense() == self.defense(),
            d.took_damage() == self.took_damage(),
            d.shield_points() == shield,
            d.max_shield() == shield,
            d.shield_defense() == shield_defense,
            d.shield_regen() == SHIELD_REGEN,
    {
        let mut d = self;
        d.shield = shield;
        d.max_shield = shield;
        d.shield_defense = shield_defense;
        d.shield_regen = SHIELD_REGEN;
        d
    }

    /// Health and its maximum.
    pub fn health(&self) -> (h: (i32, i32))
        ensures
            h.0 == self.health_points(),
            h.1 == self.max_health(),
    {
        (self.health, self.max_health)
    }

    /// Shield and its maximum, for an entity that has a shield.
    pub fn shield(&self) -> (s: Option<(i32, i32)>)
        ensures
            s is Some <==> self.max_shield() > 0,
            s is Some ==> s.unwrap().0 == self.shield_points() && s.unwrap().1 == self.max_shield(),
    {
        if self.max_shield > 0 {
            Some((self.shield, self.max_shield))
        } else {
            None
        }
    }

    pub fn is_alive(&self) -> (b: bool)
        ensures
            b == (self.health_points() > 0),
    {
        self.health > 0
    }

    /// Heals up to `healing` points and returns the amount healed.
    pub fn heal(&mut self, healing: i32) -> (healed: i32)
        requires
            old(self).wf(),
            healing >= 0,
        ensures
            final(self).wf(),
            *final(self) == old(self).mended(healing as int),
            healed == old(self).healed(healing as int),
            final(self).health_points() == old(self).health_points() + healed,
            final(self).shield_points() == old(self).shield_points(),
            final(self).took_damage() == old(self).took_damage(),
            final(self).same_build(old(self)),
    {
        let missing: i32 = self.max_health - self.health;
        let healing: i32 = if healing < missing {
            healing
        } else {
            missing
        };
        self.health = self.health + healing;
        healing
    }

    /// Takes a strike of `damage` and returns what it took from shield and
    /// health together.
    pub fn take_damage(&mut self, damage: i32) -> (taken: i32)
        requires
            old(self).wf(),
        ensures
            final(self).wf(),
            *final(self) == old(self).struck(damage as int),
            taken == old(self).damage_to_shield(damage as int) + old(self).damage_to_health(damage as int),
            final(self).shield_points() == old(self).shield_points() - old(self).damage_to_shield(damage as int),
            final(self).health_points() == old(self).health_points() - old(self).damage_to_health(damage as int),
            final(self).took_damage(),
            final(self).same_build(old(self)),
    {
        self.took_damage = true;
        let (damage_to_shield, unshielded_damage): (i64, i64) = if self.shield > 0 {
            let above: i64 = damage as i64 - self.shield_defense as i64;
            let blocked_damage: i64 = if above > 0 {
                above
            } else {
                0
            };
            let damage_to_shield: i64 = if blocked_damage < self.shield as i64 {
                blocked_damage
            } else {
                self.shield as i64
            };
            self.shield = (self.shield as i64 - damage_to_shield) as i32;
            (damage_to_shield, blocked_damage - damage_to_shield)
        } else {
            (0, damage as i64)
        };
        let past_defense: i64 = unshielded_damage - self.defense as i64;
        let damage_to_health: i64 = if past_defense < 0 {
            0
        } else if past_defense > self.health as i64 {
            self.health as i64
        } else {
            past_defense
        };
        self.health = (self.health as i64 - damage_to_health) as i32;
        (damage_to_shield + damage_to_health) as i32
    }

    /// One tick of shield bookkeeping: after a tick with damage the mark is
    /// cleared and the shield stays; otherwise the shield regenerates.
    pub fn regenerate(&mut self)
        requires
            old(self).wf(),
        ensures
            final(self).wf(),
            *final(self) == old(self).regenerated(),
            final(self).same_build(old(self)),
            final(self).health_points() == old(self).health_points(),
            !final(self).took_damage(),
            final(self).shield_points() == if old(self).took_damage() {
                old(self).shield_points()
            } else {
                old(self).regenerated_shield()
            },
    {
        if self.took_damage {
            self.took_damage = false;
        } else {
            let grown: i64 = self.shield as i64 + self.shield_regen as i64;
            self.shield = if grown < self.max_shield as i64 {
                grown as i32
            } else {
                self.max_shield
            };
        }
    }

    /// Restores full health.
    pub fn revive(&mut self)
        requires
            old(self).wf(),
        ensures
            final(self).wf(),
            *final(self) == old(self).revived(),
            final(self).same_build(old(self)),
            final(self).health_points() == old(self).max_health(),
            final(self).shield_points() == old(self).shield_points(),
            final(self).took_damage() == old(self).took_damage(),
    {
        self.health = self.max_health;
    }
}

/// A strike takes from shield and health no more than they hold, and
/// healing gives no more than is missing.
pub proof fn lemma_damage_within_bounds(d: Durability, raw: int, healing: int)
    requires
        d.wf(),
    ensures
        0 <= d.damage_to_shield(raw) <= d.shield_points(),
        0 <= d.damage_to_health(raw) <= d.health_points(),
        healing >= 0 ==> 0 <= d.healed(healing) <= d.max_health() - d.health_points(),
{
}

/// Healing an entity and then striking it, and striking it and then healing
/// it, both leave its health between nothing and its maximum, and its
/// shield likewise.
pub proof fn lemma_heal_and_damage_keep_bounds(d: Durability, healing: int, raw: int)
    requires
        d.wf(),
        healing >= 0,
    ensures
        d.mended(healing).struck(raw).wf(),
        0 <= d.mended(healing).struck(raw).health_points() <= d.max_health(),
        0 <= d.mended(healing).struck(raw).shield_points() <= d.max_shield(),
        d.struck(raw).mended(healing).wf(),
        0 <= d.struck(raw).mended(healing).health_points() <= d.max_health(),
        0 <= d.struck(raw).mended(healing).shield_points() <= d.max_shield(),
{
    d.lemma_mended(healing);
    d.mended(healing).lemma_struck(raw);
    d.lemma_struck(raw);
    d.struck(raw).lemma_mended(healing);
}

/// The pass that regenerates shields.
pub struct ShieldRegenSystem;

/// The pass that buries the dead.
pub struct DeathSystem;

/// Every durability keeps its bounds.
pub open spec fn all_wf(durabilities: Map<Entity, Durability>) -> bool {
    forall|e: Entity| durabilities.contains_key(e) ==> (#[trigger] durabilities[e]).wf()
}

/// Slot `j` of the durabilities after shield regeneration.
pub open spec fn regenerated_slot(
    durabilities: &Storage<Durability>,
    turn: Map<Entity, HasInitiative>,
    j: int,
) -> Option<(Entity, Durability)> {
    match durabilities.slot(j) {
        Some((e, d)) => Some(
            (
                e,
                if turn.contains_key(e) {
                    d.regenerated()
                } else {
                    d
                },
            ),
        ),
        None => None,
    }
}

impl ShieldRegenSystem {
    /// One tick of shield bookkeeping for every entity whose turn it is:
    /// the shield regenerates unless the entity took damage since the last
    /// regeneration, and the damage mark is cleared.
    pub fn run(&self, durabilities: &mut Storage<Durability>, has_initiative: &Storage<HasInitiative>)
        requires
            all_wf(old(durabilities)@),
        ensures
            all_wf(final(durabilities)@),
            forall|j: int| #[trigger] final(durabilities).slot(j) == regenerated_slot(old(durabilities), has_initiative@, j),
            final(durabilities)@.dom() == old(durabilities)@.dom(),
            forall|e: Entity|
                old(durabilities)@.contains_key(e) ==> #[trigger] final(durabilities)@[e] == if has_initiative@.contains_key(
                    e,
                ) {
                    old(durabilities)@[e].regenerated()
                } else {
                    old(durabilities)@[e]
                },
    {
        let n: usize = durabilities.slots();
        let mut i: usize = 0;
        while i < n
            invariant
                0 <= i <= n,
                n == old(durabilities).slot_count(),
                all_wf(old(durabilities)@),
                forall|j: int| j >= i ==> durabilities.slot(j) == old(durabilities).slot(j),
                forall|j: int|
                    0 <= j < i ==> #[trigger] durabilities.slot(j) == regenerated_slot(
                        old(durabilities),
                        has_initiative@,
                        j,
                    ),
            decreases n - i,
        {
            let found: Option<(Entity, Durability)> = match durabilities.entry(i) {
                Some((entity, durability)) => Some((entity, *durability)),
                None => None,
            };
            proof {
                durabilities.lemma_slot(i as int);
                durabilities.lemma_bounded(i as int);
                old(durabilities).lemma_slot(i as int);
            }
            if let Some((entity, durability)) = found {
                if has_initiative.contains(entity) {
                    let mut durability = durability;
                    assert(old(durabilities)@[entity].wf());
                    durability.regenerate();
                    durabilities.insert(entity, durability);
                }
            }
            i = i + 1;
        }
        proof {
            assert forall|j: int| #[trigger] durabilities.slot(j) == regenerated_slot(
                old(durabilities),
                has_initiative@,
                j,
            ) by {
                old(durabilities).lemma_slot(j);
                durabilities.lemma_slot(j);
            }
            assert forall|e: Entity|
                durabilities@.contains_key(e) == old(durabilities)@.contains_key(e) && (old(
                    durabilities,
                )@.contains_key(e) ==> durabilities@[e].wf() && #[trigger] durabilities@[e] == if has_initiative@.contains_key(
                    e,
                ) {
                    old(durabilities)@[e].regenerated()
                } else {
                    old(durabilities)@[e]
                }) by {
                old(durabilities).lemma_slot(e.index as int);
                durabilities.lemma_slot(e.index as int);
                assert(durabilities.slot(e.index as int) == regenerated_slot(
                    old(durabilities),
                    has_initiative@,
                    e.index as int,
                ));
                if old(durabilities)@.contains_key(e) {
                    assert(old(durabilities)@[e].wf());
                    old(durabilities)@[e].lemma_regenerated();
                }
            }
            assert(durabilities@.dom() =~= old(durabilities)@.dom());
        }
    }
}

/// The entity is found dead by the pass: it has a name and no health
/// left.
pub open spec fn dies(durabilities: Map<Entity, Durability>, names: Map<Entity, Appearance>, e: Entity) -> bool {
    durabilities.contains_key(e) && names.contains_key(e) && durabilities[e].health_points() <= 0
}

/// The entity is found dead and is not the player.
pub open spec fn perishes(
    durabilities: Map<Entity, Durability>,
    names: Map<Entity, Appearance>,
    players: Map<Entity, Player>,
    e: Entity,
) -> bool {
    dies(durabilities, names, e) && !players.contains_key(e)
}

/// Slot `j` of the durabilities after the pass: a dead player is back at
/// full health.
pub open spec fn buried_slot(
    durabilities: &Storage<Durability>,
    names: Map<Entity, Appearance>,
    players: Map<Entity, Player>,
    j: int,
) -> Option<(Entity, Durability)> {
    match durabilities.slot(j) {
        Some((e, d)) => Some(
            (
                e,
                if dies(durabilities@, names, e) && players.contains_key(e) {
                    d.revived()
                } else {
                    d
                },
            ),
        ),
        None => None,
    }
}

/// The log lines for the dead in the slots below `upto`, by increasing
/// slot.
pub open spec fn obituaries(
    durabilities: &Storage<Durability>,
    names: Map<Entity, Appearance>,
    players: Map<Entity, Player>,
    upto: int,
) -> Seq<LogEntry>
    decreases upto,
{
    if upto <= 0 {
        Seq::empty()
    } else {
        let previous = obituaries(durabilities, names, players, upto - 1);
        match durabilities.slot(upto - 1) {
            Some((e, d)) => if !dies(durabilities@, names, e) {
                previous
            } else if players.contains_key(e) {
                previous.push(LogEntry::PlayerDeath)
            } else {
                previous.push(LogEntry::Death { victim: names[e].name })
            },
            None => previous,
        }
    }
}

impl DeathSystem {
    /// Deals with every named entity that has no health left. The player
    /// is restored to full health. Any other entity loses its position at
    /// once and is marked for destruction.
    pub fn run(
        &self,
        entities: &mut Entities,
        players: &Storage<Player>,
        names: &Storage<Appearance>,
        durabilities: &mut Storage<Durability>,
        positions: &mut Storage<Coordinate>,
        game_log: &mut GameLog,
    )
        requires
            old(entities).wf(),
            all_wf(old(durabilities)@),
        ensures
            final(entities).wf(),
            all_wf(final(durabilities)@),
            forall|j: int| #[trigger] final(durabilities).slot(j) == buried_slot(old(durabilities), names@, players@, j),
            final(positions)@ == old(positions)@.remove_keys(
                Set::new(|e: Entity| perishes(old(durabilities)@, names@, players@, e)),
            ),
            final(game_log)@ == old(game_log)@ + obituaries(
                old(durabilities),
                names@,
                players@,
                old(durabilities).slot_count() as int,
            ),
            final(entities).slot_count() == old(entities).slot_count(),
            forall|x: Entity| final(entities).alive(x) == old(entities).alive(x),
            forall|x: Entity|
                final(entities).doomed(x) == (old(entities).doomed(x) || (perishes(
                    old(durabilities)@,
                    names@,
                    players@,
                    x,
                ) && old(entities).alive(x))),
    {
        let n: usize = durabilities.slots();
        let mut i: usize = 0;
        assert(game_log@ =~= old(game_log)@ + obituaries(old(durabilities), names@, players@, 0));
        assert(positions@ =~= old(positions)@.remove_keys(
            Set::new(|e: Entity| perishes(old(durabilities)@, names@, players@, e) && e.index < 0),
        ));
        while i < n
            invariant
                0 <= i <= n,
                n == old(durabilities).slot_count(),
                entities.wf(),
                all_wf(old(durabilities)@),
                forall|j: int| j >= i ==> durabilities.slot(j) == old(durabilities).slot(j),
                forall|j: int|
                    0 <= j < i ==> #[trigger] durabilities.slot(j) == buried_slot(old(durabilities), names@, players@, j),
                positions@ == old(positions)@.remove_keys(
                    Set::new(|e: Entity| perishes(old(durabilities)@, names@, players@, e) && e.index < i),
                ),
                game_log@ == old(game_log)@ + obituaries(old(durabilities), names@, players@, i as int),
                entities.slot_count() == old(entities).slot_count(),
                forall|x: Entity| entities.alive(x) == old(entities).alive(x),
                forall|x: Entity|
                    entities.doomed(x) == (old(entities).doomed(x) || (perishes(
                        old(durabilities)@,
                        names@,
                        players@,
                        x,
                    ) && x.index < i && old(entities).alive(x))),
            decreases n - i,
        {
            let found: Option<(Entity, Durability)> = match durabilities.entry(i) {
                Some((entity, durability)) => Some((entity, *durability)),
                None => None,
            };
            proof {
                durabilities.lemma_slot(i as int);
                durabilities.lemma_bounded(i as int);
                old(durabilities).lemma_slot(i as int);
            }
            let ghost log_before = game_log@;
            if let Some((entity, durability)) = found {
                match names.get(entity) {
                    Some(appearance) => {
                        if !durability.is_alive() {
                            if players.contains(entity) {
                                game_log.player_death();
                                let mut durability = durability;
                                assert(old(durabilities)@[entity].wf());
                                durability.revive();
                                durabilities.insert(entity, durability);
                            } else {
                                game_log.death(appearance);
                                positions.remove(entity);
                                entities.delete(entity);
                            }
                        }
                    },
                    None => {},
                }
            }
            proof {
                assert(game_log@ =~= old(game_log)@ + obituaries(old(durabilities), names@, players@, i + 1));
                assert forall|e: Entity| perishes(old(durabilities)@, names@, players@, e) && e.index == i implies old(
                    durabilities,
                ).slot(i as int) is Some && old(durabilities).slot(i as int).unwrap().0 == e by {
                    old(durabilities).lemma_key_storable(e);
                }
                assert(positions@ =~= old(positions)@.remove_keys(
                    Set::new(|e: Entity| perishes(old(durabilities)@, names@, players@, e) && e.index < i + 1),
                ));
            }
            i = i + 1;
        }
        proof {
            assert forall|j: int| #[trigger] durabilities.slot(j) == buried_slot(old(durabilities), names@, players@, j) by {
                old(durabilities).lemma_slot(j);
                durabilities.lemma_slot(j);
            }
            assert forall|e: Entity| perishes(old(durabilities)@, names@, players@, e) implies e.index < n by {
                old(durabilities).lemma_key_storable(e);
            }
            assert(Set::new(|e: Entity| perishes(old(durabilities)@, names@, players@, e) && e.index < n) =~= Set::new(
                |e: Entity| perishes(old(durabilities)@, names@, players@, e),
            ));
            assert forall|e: Entity| durabilities@.contains_key(e) implies (#[trigger] durabilities@[e]).wf() by {
                durabilities.lemma_key_storable(e);
                old(durabilities).lemma_slot(e.index as int);
                assert(durabilities.slot(e.index as int) == buried_slot(
                    old(durabilities),
                    names@,
                    players@,
                    e.index as int,
                ));
                assert(old(durabilities)@[e].wf());
                old(durabilities)@[e].lemma_revived();
            }
        }
    }
}

} // verus!
