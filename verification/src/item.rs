//! The use of items on characters with a plain character sheet. An item
//! is used up by its use.

use crate::appearance::Appearance;
use crate::character_sheet::CharacterSheet;
use crate::effect::{lookup, name_of, BeingUsed, DealsDamage, ProvidesHealing};
use crate::game_log::{damage_entry, GameLog, LogEntry};
use crate::inventory::InInventory;
use crate::store::{lemma_put_existing, Entities, Entity, Storage};
use vstd::prelude::*;

verus! {

/// The pass that resolves the uses of items.
pub struct ItemUseSystem;

/// Character sheets and log while items are used.
pub ghost struct Tally {
    pub sheets: Map<Entity, CharacterSheet>,
    pub log: Seq<LogEntry>,
}

/// Sheets and log taken together.
pub open spec fn tally(sheets: Map<Entity, CharacterSheet>, log: Seq<LogEntry>) -> Option<Tally> {
    Some(Tally { sheets, log })
}

/// The tally after an item was used on one target; `None` if the numbers
/// leave the range of `i32`. A target without a character sheet is left
/// alone. The target blocks what it can of the damage and takes the rest;
/// then it is healed. Each is logged if the target has a name.
pub open spec fn treat(
    before: Option<Tally>,
    target: Entity,
    source: String,
    target_name: Option<String>,
    damage: Option<DealsDamage>,
    healing: Option<ProvidesHealing>,
) -> Option<Tally> {
    match before {
        None => None,
        Some(t) => if !t.sheets.contains_key(target) {
            before
        } else {
            let s0 = t.sheets[target];
            let hurt = match damage {
                Some(deals) => s0.hit(s0.blocked(deals.0 as int)),
                None => s0,
            };
            let log1 = match (damage, target_name) {
                (Some(deals), Some(name)) => t.log.push(damage_entry(source, name, s0.blocked(deals.0 as int) as i32)),
                _ => t.log,
            };
            let healed = match healing {
                Some(heals) => hurt.cured(heals.0 as int),
                None => hurt,
            };
            let log2 = match (healing, target_name) {
                (Some(heals), Some(name)) => log1.push(LogEntry::Healing { source, target: name, amount: heals.0 }),
                _ => log1,
            };
            if (damage is Some && !s0.can_take(damage.unwrap().0 as int)) || (healing is Some && !hurt.can_heal(
                healing.unwrap().0 as int,
            )) {
                None
            } else {
                Some(Tally { sheets: t.sheets.insert(target, healed), log: log2 })
            }
        },
    }
}

/// The tally after an item was used on the first `k` of its targets, one
/// after the other.
pub open spec fn treat_all(
    before: Option<Tally>,
    targets: Seq<Entity>,
    k: int,
    source: String,
    names: Map<Entity, Appearance>,
    damage: Option<DealsDamage>,
    healing: Option<ProvidesHealing>,
) -> Option<Tally>
    decreases k,
{
    if k <= 0 {
        before
    } else {
        treat(
            treat_all(before, targets, k - 1, source, names, damage, healing),
            targets[k - 1],
            source,
            name_of(names, targets[k - 1]),
            damage,
            healing,
        )
    }
}

/// The tally after the uses in the slots below `upto` were resolved, by
/// increasing slot. Only an item with an appearance is used.
pub open spec fn items_used(
    uses: &Storage<BeingUsed>,
    names: Map<Entity, Appearance>,
    deals: Map<Entity, DealsDamage>,
    heals: Map<Entity, ProvidesHealing>,
    before: Option<Tally>,
    upto: int,
) -> Option<Tally>
    decreases upto,
{
    if upto <= 0 {
        before
    } else {
        let previous = items_used(uses, names, deals, heals, before, upto - 1);
        match uses.slot(upto - 1) {
            Some((item, used)) => if names.contains_key(item) {
                treat_all(
                    previous,
                    used.0@,
                    used.0@.len() as int,
                    names[item].name,
                    names,
                    lookup(deals, item),
                    lookup(heals, item),
                )
            } else {
                previous
            },
            None => previous,
        }
    }
}

/// Where the numbers stay in range for all targets of an item, they do for
/// the first of them.
pub proof fn lemma_treat_all_prefix(
    before: Option<Tally>,
    targets: Seq<Entity>,
    k: int,
    n: int,
    source: String,
    names: Map<Entity, Appearance>,
    damage: Option<DealsDamage>,
    healing: Option<ProvidesHealing>,
)
    requires
        k <= n,
        treat_all(before, targets, n, source, names, damage, healing) is Some,
    ensures
        treat_all(before, targets, k, source, names, damage, healing) is Some,
    decreases n - k,
{
    if k < n {
        lemma_treat_all_prefix(before, targets, k + 1, n, source, names, damage, healing);
    }
}

/// Where the numbers stay in range for all uses, they do for the first of
/// them.
pub proof fn lemma_items_used_prefix(
    uses: &Storage<BeingUsed>,
    names: Map<Entity, Appearance>,
    deals: Map<Entity, DealsDamage>,
    heals: Map<Entity, ProvidesHealing>,
    before: Option<Tally>,
    upto: int,
    n: int,
)
    requires
        upto <= n,
        items_used(uses, names, deals, heals, before, n) is Some,
    ensures
        items_used(uses, names, deals, heals, before, upto) is Some,
    decreases n - upto,
{
    if upto < n {
        lemma_items_used_prefix(uses, names, deals, heals, before, upto + 1, n);
        let previous = items_used(uses, names, deals, heals, before, upto);
        match uses.slot(upto) {
            Some((item, used)) => {
                if names.contains_key(item) && upto >= 0 {
                    assert(items_used(uses, names, deals, heals, before, upto + 1) == treat_all(
                        previous,
                        used.0@,
                        used.0@.len() as int,
                        names[item].name,
                        names,
                        lookup(deals, item),
                        lookup(heals, item),
                    ));
                    lemma_treat_all_prefix(
                        previous,
                        used.0@,
                        0,
                        used.0@.len() as int,
                        names[item].name,
                        names,
                        lookup(deals, item),
                        lookup(heals, item),
                    );
                }
            },
            None => {},
        }
    }
}

/// The item is used up by this pass: it is in use and has an appearance.
pub open spec fn spent(uses: Map<Entity, BeingUsed>, names: Map<Entity, Appearance>, e: Entity) -> bool {
    uses.contains_key(e) && names.contains_key(e)
}

impl ItemUseSystem {
    /// Uses one item on one target.
    fn apply(
        character_sheets: &mut Storage<CharacterSheet>,
        game_log: &mut GameLog,
        names: &Storage<Appearance>,
        target: Entity,
        source: &Appearance,
        damage: Option<DealsDamage>,
        healing: Option<ProvidesHealing>,
    )
        requires
            treat(
                tally(old(character_sheets)@, old(game_log)@),
                target,
                source.name,
                name_of(names@, target),
                damage,
                healing,
            ) is Some,
        ensures
            tally(final(character_sheets)@, final(game_log)@) == treat(
                tally(old(character_sheets)@, old(game_log)@),
                target,
                source.name,
                name_of(names@, target),
                damage,
                healing,
            ),
    {
        let found: Option<CharacterSheet> = match character_sheets.get(target) {
            Some(sheet) => Some(*sheet),
            None => None,
        };
        if let Some(s0) = found {
            let mut sheet = s0;
            proof {
                character_sheets.lemma_key_storable(target);
                s0.lemma_changes(0);
            }
            if let Some(deals) = damage {
                assert(s0.can_take(deals.0 as int));
                let blocked_damage: i32 = sheet.block_damage(deals.0);
                proof {
                    s0.lemma_changes(blocked_damage as int);
                    assert(blocked_damage >= 0);
                }
                sheet.apply_damage(blocked_damage);
                if let Some(target_name) = names.get(target) {
                    game_log.damage(source, target_name, blocked_damage);
                }
            }
            if let Some(heals) = healing {
                proof {
                    sheet.lemma_changes(heals.0 as int);
                    assert(sheet.can_heal(heals.0 as int));
                }
                sheet.heal(heals.0);
                if let Some(target_name) = names.get(target) {
                    game_log.healing(source, target_name, heals.0);
                }
            }
            proof {
                lemma_put_existing(character_sheets, target, sheet);
            }
            character_sheets.insert(target, sheet);
        }
    }

    /// Resolves every use of an item, by increasing index of the item and
    /// in the order of its targets. Every item that was used leaves the
    /// inventory and is marked for destruction, and all uses are forgotten.
    /// The numbers have to stay in the range of `i32`.
    pub fn run(
        &self,
        entities: &mut Entities,
        character_sheets: &mut Storage<CharacterSheet>,
        uses: &mut Storage<BeingUsed>,
        deals_damage: &Storage<DealsDamage>,
        provides_healing: &Storage<ProvidesHealing>,
        in_inventory: &mut Storage<InInventory>,
        names: &Storage<Appearance>,
        game_log: &mut GameLog,
    )
        requires
            old(entities).wf(),
            items_used(
                old(uses),
                names@,
                deals_damage@,
                provides_healing@,
                tally(old(character_sheets)@, old(game_log)@),
                old(uses).slot_count() as int,
            ) is Some,
        ensures
            final(entities).wf(),
            final(uses)@ == Map::<Entity, BeingUsed>::empty(),
            tally(final(character_sheets)@, final(game_log)@) == items_used(
                old(uses),
                names@,
                deals_damage@,
                provides_healing@,
                tally(old(character_sheets)@, old(game_log)@),
                old(uses).slot_count() as int,
            ),
            final(in_inventory)@ == old(in_inventory)@.remove_keys(Set::new(|e: Entity| spent(old(uses)@, names@, e))),
            final(entities).slot_count() == old(entities).slot_count(),
            forall|x: Entity| final(entities).alive(x) == old(entities).alive(x),
            forall|x: Entity|
                final(entities).doomed(x) == (old(entities).doomed(x) || (spent(old(uses)@, names@, x) && old(
                    entities,
                ).alive(x))),
    {
        let n: usize = uses.slots();
        let ghost start = tally(character_sheets@, game_log@);
        let mut i: usize = 0;
        assert(in_inventory@ =~= old(in_inventory)@.remove_keys(
            Set::new(|e: Entity| spent(old(uses)@, names@, e) && e.index < 0),
        ));
        while i < n
            invariant
                0 <= i <= n,
                n == uses.slot_count(),
                uses == old(uses),
                entities.wf(),
                start == tally(old(character_sheets)@, old(game_log)@),
                items_used(old(uses), names@, deals_damage@, provides_healing@, start, n as int) is Some,
                tally(character_sheets@, game_log@) == items_used(
                    old(uses),
                    names@,
                    deals_damage@,
                    provides_healing@,
                    start,
                    i as int,
                ),
                in_inventory@ == old(in_inventory)@.remove_keys(
                    Set::new(|e: Entity| spent(old(uses)@, names@, e) && e.index < i),
                ),
                entities.slot_count() == old(entities).slot_count(),
                forall|x: Entity| entities.alive(x) == old(entities).alive(x),
                forall|x: Entity|
                    entities.doomed(x) == (old(entities).doomed(x) || (spent(old(uses)@, names@, x) && x.index < i
                        && old(entities).alive(x))),
            decreases n - i,
        {
            proof {
                uses.lemma_slot(i as int);
                lemma_items_used_prefix(uses, names@, deals_damage@, provides_healing@, start, i + 1, n as int);
            }
            match uses.entry(i) {
                Some((item, used)) => {
                    match names.get(item) {
                        Some(source) => {
                            let damage: Option<DealsDamage> = match deals_damage.get(item) {
                                Some(deals) => Some(*deals),
                                None => None,
                            };
                            let healing: Option<ProvidesHealing> = match provides_healing.get(item) {
                                Some(heals) => Some(*heals),
                                None => None,
                            };
                            let ghost previous = tally(character_sheets@, game_log@);
                            let mut k: usize = 0;
                            while k < used.0.len()
                                invariant
                                    0 <= k <= used.0@.len(),
                                    treat_all(
                                        previous,
                                        used.0@,
                                        used.0@.len() as int,
                                        source.name,
                                        names@,
                                        damage,
                                        healing,
                                    ) is Some,
                                    tally(character_sheets@, game_log@) == treat_all(
                                        previous,
                                        used.0@,
                                        k as int,
                                        source.name,
                                        names@,
                                        damage,
                                        healing,
                                    ),
                                decreases used.0@.len() - k,
                            {
                                proof {
                                    lemma_treat_all_prefix(
                                        previous,
                                        used.0@,
                                        k + 1,
                                        used.0@.len() as int,
                                        source.name,
                                        names@,
                                        damage,
                                        healing,
                                    );
                                }
                                Self::apply(character_sheets, game_log, names, used.0[k], source, damage, healing);
                                k = k + 1;
                            }
                            in_inventory.remove(item);
                            entities.delete(item);
                        },
                        None => {},
                    }
                },
                None => {},
            }
            proof {
                assert(in_inventory@ =~= old(in_inventory)@.remove_keys(
                    Set::new(|e: Entity| spent(old(uses)@, names@, e) && e.index < i + 1),
                )) by {
                    assert forall|e: Entity| spent(old(uses)@, names@, e) && e.index == i implies uses.slot(i as int) is Some
                        && uses.slot(i as int).unwrap().0 == e by {
                        uses.lemma_key_storable(e);
                    }
                }
                assert forall|x: Entity|
                    entities.doomed(x) == (old(entities).doomed(x) || (spent(old(uses)@, names@, x) && x.index < i + 1
                        && old(entities).alive(x))) by {
                    if spent(old(uses)@, names@, x) && x.index == i {
                        uses.lemma_key_storable(x);
                    }
                }
            }
            i = i + 1;
        }
        proof {
            assert forall|e: Entity| spent(old(uses)@, names@, e) implies e.index < n by {
                uses.lemma_key_storable(e);
            }
            assert(Set::new(|e: Entity| spent(old(uses)@, names@, e) && e.index < n) =~= Set::new(
                |e: Entity| spent(old(uses)@, names@, e),
            ));
        }
        uses.clear();
    }
}

} // verus!
