//! Effects: what an entity does to others when it is used on them, and the
//! pass that resolves the uses that were asked for.

use crate::appearance::Appearance;
use crate::durability::Durability;
use crate::entity::Item;
use crate::game_log::{damage_entry, GameLog, LogEntry};
use crate::inventory::InInventory;
use crate::store::{lemma_put_existing, Entities, Entity, Storage};
use vstd::prelude::*;

verus! {

/// On what an effect can be used.
#[derive(Clone, Copy, Debug, PartialEq, Eq, Structural)]
pub enum Usable {
    /// On its user.
    OnSelf,
    /// On an entity within `range` of its user.
    OnTarget { range: i32 },
    /// On the occupants of a cell within `range` of its user.
    OnGround { range: i32 },
}

/// The request to apply an effect to the listed targets, in that order.
pub struct BeingUsed(pub Vec<Entity>);

/// The raw damage of an effect.
#[derive(Clone, Copy, Debug, PartialEq, Eq, Structural)]
pub struct DealsDamage(pub i32);

/// The healing of an effect.
#[derive(Clone, Copy, Debug, PartialEq, Eq, Structural)]
pub struct ProvidesHealing(pub i32);

/// The pass that resolves the uses of effects.
pub struct EffectUseSystem;

/// Durabilities and log while effects are resolved.
pub ghost struct Outcome {
    pub durabilities: Map<Entity, Durability>,
    pub log: Seq<LogEntry>,
}

/// Durabilities and log taken together.
pub open spec fn outcome(durabilities: Map<Entity, Durability>, log: Seq<LogEntry>) -> Outcome {
    Outcome { durabilities, log }
}

/// The value stored for `e`, if any.
pub open spec fn lookup<T>(table: Map<Entity, T>, e: Entity) -> Option<T> {
    if table.contains_key(e) {
        Some(table[e])
    } else {
        None
    }
}

/// The name of `e`, if it has an appearance.
pub open spec fn name_of(names: Map<Entity, Appearance>, e: Entity) -> Option<String> {
    if names.contains_key(e) {
        Some(names[e].name)
    } else {
        None
    }
}

/// What a strike of `raw` damage takes from shield and health together.
pub open spec fn taken(d: Durability, raw: int) -> int {
    d.damage_to_shield(raw) + d.damage_to_health(raw)
}

/// The outcome of applying an effect to one target. A target without
/// durability is left alone. Damage comes before healing, and each is
/// logged if the target has a name.
pub open spec fn strike(
    before: Outcome,
    target: Entity,
    source: String,
    target_name: Option<String>,
    damage: Option<DealsDamage>,
    healing: Option<ProvidesHealing>,
) -> Outcome {
    if !before.durabilities.contains_key(target) {
        before
    } else {
        let d0 = before.durabilities[target];
        let d1 = match damage {
            Some(deals) => d0.struck(deals.0 as int),
            None => d0,
        };
        let log1 = match (damage, target_name) {
            (Some(deals), Some(name)) => before.log.push(damage_entry(source, name, taken(d0, deals.0 as int) as i32)),
            _ => before.log,
        };
        let d2 = match healing {
            Some(heals) => d1.mended(heals.0 as int),
            None => d1,
        };
        let log2 = match (healing, target_name) {
            (Some(heals), Some(name)) => log1.push(
                LogEntry::Healing { source, target: name, amount: d1.healed(heals.0 as int) as i32 },
            ),
            _ => log1,
        };
        Outcome { durabilities: before.durabilities.insert(target, d2), log: log2 }
    }
}

/// The outcome of applying an effect to the first `k` of its targets, one
/// after the other.
pub open spec fn strike_all(
    before: Outcome,
    targets: Seq<Entity>,
    k: int,
    source: String,
    names: Map<Entity, Appearance>,
    damage: Option<DealsDamage>,
    healing: Option<ProvidesHealing>,
) -> Outcome
    decreases k,
{
    if k <= 0 {
        before
    } else {
        strike(
            strike_all(before, targets, k - 1, source, names, damage, healing),
            targets[k - 1],
            source,
            name_of(names, targets[k - 1]),
            damage,
            healing,
        )
    }
}

/// The outcome of resolving the uses stored in the slots below `upto`, by
/// increasing slot. Only an effect with an appearance is resolved.
pub open spec fn resolved(
    uses: &Storage<BeingUsed>,
    names: Map<Entity, Appearance>,
    deals: Map<Entity, DealsDamage>,
    heals: Map<Entity, ProvidesHealing>,
    before: Outcome,
    upto: int,
) -> Outcome
    decreases upto,
{
    if upto <= 0 {
        before
    } else {
        let previous = resolved(uses, names, deals, heals, before, upto - 1);
        match uses.slot(upto - 1) {
            Some((effect, used)) => if names.contains_key(effect) {
                strike_all(
                    previous,
                    used.0@,
                    used.0@.len() as int,
                    names[effect].name,
                    names,
                    lookup(deals, effect),
                    lookup(heals, effect),
                )
            } else {
                previous
            },
            None => previous,
        }
    }
}

/// The effect is used up by this pass: it is in use, has an appearance and
/// is an item.
pub open spec fn consumed(
    uses: Map<Entity, BeingUsed>,
    names: Map<Entity, Appearance>,
    item_types: Map<Entity, Item>,
    e: Entity,
) -> bool {
    uses.contains_key(e) && names.contains_key(e) && item_types.contains_key(e)
}

/// Every durability keeps its bounds.
pub open spec fn durabilities_wf(durabilities: Map<Entity, Durability>) -> bool {
    crate::durability::all_wf(durabilities)
}

/// No effect heals by a negative amount.
pub open spec fn healing_wf(heals: Map<Entity, ProvidesHealing>) -> bool {
    forall|e: Entity| heals.contains_key(e) ==> (#[trigger] heals[e]).0 >= 0
}

/// Striking keeps the durabilities within their bounds.
pub proof fn lemma_strike_wf(
    before: Outcome,
    target: Entity,
    source: String,
    target_name: Option<String>,
    damage: Option<DealsDamage>,
    healing: Option<ProvidesHealing>,
)
    requires
        durabilities_wf(before.durabilities),
        healing is Some ==> healing.unwrap().0 >= 0,
    ensures
        durabilities_wf(strike(before, target, source, target_name, damage, healing).durabilities),
        strike(before, target, source, target_name, damage, healing).durabilities.dom() == before.durabilities.dom(),
{
    if before.durabilities.contains_key(target) {
        let d0 = before.durabilities[target];
        assert(d0.wf());
        let d1 = match damage {
            Some(deals) => d0.struck(deals.0 as int),
            None => d0,
        };
        if damage is Some {
            d0.lemma_struck(damage.unwrap().0 as int);
        }
        if healing is Some {
            d1.lemma_mended(healing.unwrap().0 as int);
        }
        let after = strike(before, target, source, target_name, damage, healing);
        assert(after.durabilities.dom() =~= before.durabilities.dom());
        assert forall|e: Entity| after.durabilities.contains_key(e) implies (#[trigger] after.durabilities[e]).wf() by {
            if e != target {
                assert(before.durabilities[e].wf());
            }
        }
    }
}

impl EffectUseSystem {
    /// Applies one effect to one target.
    fn apply(
        durabilities: &mut Storage<Durability>,
        game_log: &mut GameLog,
        names: &Storage<Appearance>,
        target: Entity,
        source: &Appearance,
        damage: Option<DealsDamage>,
        healing: Option<ProvidesHealing>,
    )
        requires
            durabilities_wf(old(durabilities)@),
            healing is Some ==> healing.unwrap().0 >= 0,
        ensures
            durabilities_wf(final(durabilities)@),
            outcome(final(durabilities)@, final(game_log)@) == strike(
                outcome(old(durabilities)@, old(game_log)@),
                target,
                source.name,
                name_of(names@, target),
                damage,
                healing,
            ),
    {
        proof {
            lemma_strike_wf(
                outcome(durabilities@, game_log@),
                target,
                source.name,
                name_of(names@, target),
                damage,
                healing,
            );
        }
        let found: Option<Durability> = match durabilities.get(target) {
            Some(d) => Some(*d),
            None => None,
        };
        if let Some(d0) = found {
            let mut durability = d0;
            proof {
                assert(d0.wf());
                durabilities.lemma_key_storable(target);
            }
            if let Some(deals) = damage {
                let taken: i32 = durability.take_damage(deals.0);
                if let Some(target_name) = names.get(target) {
                    game_log.damage(source, target_name, taken);
                }
            }
            if let Some(heals) = healing {
                let amount: i32 = durability.heal(heals.0);
                if let Some(target_name) = names.get(target) {
                    game_log.healing(source, target_name, amount);
                }
            }
            proof {
                lemma_put_existing(durabilities, target, durability);
            }
            durabilities.insert(target, durability);
        }
    }

    /// Resolves every use of an effect, by increasing index of the effect
    /// and in the order of its targets, consumes the items among the effects
    /// and forgets all uses.
    pub fn run(
        &self,
        entities: &mut Entities,
        item_types: &Storage<Item>,
        durabilities: &mut Storage<Durability>,
        uses: &mut Storage<BeingUsed>,
        deals_damage: &Storage<DealsDamage>,
        provides_healing: &Storage<ProvidesHealing>,
        in_inventory: &mut Storage<InInventory>,
        names: &Storage<Appearance>,
        game_log: &mut GameLog,
    )
        requires
            old(entities).wf(),
            durabilities_wf(old(durabilities)@),
            healing_wf(provides_healing@),
        ensures
            final(entities).wf(),
            durabilities_wf(final(durabilities)@),
            final(uses)@ == Map::<Entity, BeingUsed>::empty(),
            outcome(final(durabilities)@, final(game_log)@) == resolved(
                old(uses),
                names@,
                deals_damage@,
                provides_healing@,
                outcome(old(durabilities)@, old(game_log)@),
                old(uses).slot_count() as int,
            ),
            final(in_inventory)@ == old(in_inventory)@.remove_keys(
                Set::new(|e: Entity| consumed(old(uses)@, names@, item_types@, e)),
            ),
            final(entities).slot_count() == old(entities).slot_count(),
            forall|x: Entity| final(entities).alive(x) == old(entities).alive(x),
            forall|x: Entity|
                final(entities).doomed(x) == (old(entities).doomed(x) || (consumed(
                    old(uses)@,
                    names@,
                    item_types@,
                    x,
                ) && old(entities).alive(x))),
    {
        let n: usize = uses.slots();
        let ghost start = outcome(durabilities@, game_log@);
        let mut i: usize = 0;
        assert(in_inventory@ =~= old(in_inventory)@.remove_keys(
            Set::new(|e: Entity| consumed(old(uses)@, names@, item_types@, e) && e.index < 0),
        ));
        while i < n
            invariant
                0 <= i <= n,
                n == uses.slot_count(),
                uses == old(uses),
                entities.wf(),
                durabilities_wf(durabilities@),
                healing_wf(provides_healing@),
                start == outcome(old(durabilities)@, old(game_log)@),
                outcome(durabilities@, game_log@) == resolved(
                    old(uses),
                    names@,
                    deals_damage@,
                    provides_healing@,
                    start,
                    i as int,
                ),
                in_inventory@ == old(in_inventory)@.remove_keys(
                    Set::new(|e: Entity| consumed(old(uses)@, names@, item_types@, e) && e.index < i),
                ),
                entities.slot_count() == old(entities).slot_count(),
                forall|x: Entity| entities.alive(x) == old(entities).alive(x),
                forall|x: Entity|
                    entities.doomed(x) == (old(entities).doomed(x) || (consumed(
                        old(uses)@,
                        names@,
                        item_types@,
                        x,
                    ) && x.index < i && old(entities).alive(x))),
            decreases n - i,
        {
            let ghost inventory_before = in_inventory@;
            proof {
                uses.lemma_slot(i as int);
            }
            match uses.entry(i) {
                Some((effect, used)) => {
                    match names.get(effect) {
                        Some(source) => {
                            let damage: Option<DealsDamage> = match deals_damage.get(effect) {
                                Some(deals) => Some(*deals),
                                None => None,
                            };
                            let healing: Option<ProvidesHealing> = match provides_healing.get(effect) {
                                Some(heals) => Some(*heals),
                                None => None,
                            };
                            let ghost previous = outcome(durabilities@, game_log@);
                            let mut k: usize = 0;
                            while k < used.0.len()
                                invariant
                                    0 <= k <= used.0@.len(),
                                    durabilities_wf(durabilities@),
                                    healing is Some ==> healing.unwrap().0 >= 0,
                                    outcome(durabilities@, game_log@) == strike_all(
                                        previous,
                                        used.0@,
                                        k as int,
                                        source.name,
                                        names@,
                                        damage,
                                        healing,
                                    ),
                                decreases used.0@.len() - k,
                            {
                                Self::apply(durabilities, game_log, names, used.0[k], source, damage, healing);
                                k = k + 1;
                            }
                            if item_types.contains(effect) {
                                in_inventory.remove(effect);
                                entities.delete(effect);
                            }
                        },
                        None => {},
                    }
                },
                None => {},
            }
            proof {
                assert(in_inventory@ =~= old(in_inventory)@.remove_keys(
                    Set::new(|e: Entity| consumed(old(uses)@, names@, item_types@, e) && e.index < i + 1),
                )) by {
                    assert forall|e: Entity| consumed(old(uses)@, names@, item_types@, e) && e.index == i implies uses.slot(
                        i as int,
                    ) is Some && uses.slot(i as int).unwrap().0 == e by {
                        uses.lemma_key_storable(e);
                    }
                }
                assert forall|x: Entity|
                    entities.doomed(x) == (old(entities).doomed(x) || (consumed(old(uses)@, names@, item_types@, x)
                        && x.index < i + 1 && old(entities).alive(x))) by {
                    if consumed(old(uses)@, names@, item_types@, x) && x.index == i {
                        uses.lemma_key_storable(x);
                    }
                }
            }
            i = i + 1;
        }
        proof {
            assert forall|e: Entity| consumed(old(uses)@, names@, item_types@, e) implies e.index < n by {
                uses.lemma_key_storable(e);
            }
            assert(Set::new(|e: Entity| consumed(old(uses)@, names@, item_types@, e) && e.index < n) =~= Set::new(
                |e: Entity| consumed(old(uses)@, names@, item_types@, e),
            ));
        }
        uses.clear();
    }
}

} // verus!
