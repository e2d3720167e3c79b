//! The append-only log of what happened in the game.

use crate::appearance::Appearance;
use vstd::prelude::*;

verus! {

/// One line of the log, before it is put into words.
#[derive(Clone, Debug, PartialEq, Eq)]
pub enum LogEntry {
    Welcome,
    /// `source` struck `target` and took `amount` from its shield and health.
    Damage { source: String, target: String, amount: i32 },
    /// `source` struck `target` without any effect.
    Harmless { source: String, target: String },
    Healing { source: String, target: String, amount: i32 },
    PlayerPickup { item: String },
    PlayerDeath,
    Death { victim: String },
}

/// The log. Entries are only ever appended.
pub struct GameLog {
    entries: Vec<LogEntry>,
}

/// The entry for a strike: a strike that took nothing is reported as
/// harmless.
pub open spec fn damage_entry(source: String, target: String, damage: i32) -> LogEntry {
    if damage == 0 {
        LogEntry::Harmless { source, target }
    } else {
        LogEntry::Damage { source, target, amount: damage }
    }
}

impl GameLog {
    /// The entries, oldest first.
    pub closed spec fn view(&self) -> Seq<LogEntry> {
        self.entries@
    }

    /// A log that holds the welcome line.
    pub fn new() -> (log: Self)
        ensures
            log@ == seq![LogEntry::Welcome],
    {
        let mut entries: Vec<LogEntry> = Vec::new();
        entries.push(LogEntry::Welcome);
        assert(entries@ =~= seq![LogEntry::Welcome]);
        GameLog { entries }
    }

    /// The entries, oldest first.
    pub fn entries(&self) -> (entries: &Vec<LogEntry>)
        ensures
            entries@ == self@,
    {
        &self.entries
    }

    pub fn damage(&mut self, source: &Appearance, target: &Appearance, damage: i32)
        ensures
            final(self)@ == old(self)@.push(damage_entry(source.name, target.name, damage)),
    {
        if damage == 0 {
            self.log(LogEntry::Harmless { source: source.name.clone(), target: target.name.clone() });
        } else {
            self.log(
                LogEntry::Damage { source: source.name.clone(), target: target.name.clone(), amount: damage },
            );
        }
    }

    pub fn healing(&mut self, source: &Appearance, target: &Appearance, amount: i32)
        ensures
            final(self)@ == old(self)@.push(
                LogEntry::Healing { source: source.name, target: target.name, amount },
            ),
    {
        self.log(LogEntry::Healing { source: source.name.clone(), target: target.name.clone(), amount });
    }

    pub fn player_pickup(&mut self, item: &Appearance)
        ensures
            final(self)@ == old(self)@.push(LogEntry::PlayerPickup { item: item.name }),
    {
        self.log(LogEntry::PlayerPickup { item: item.name.clone() });
    }

    pub fn player_death(&mut self)
        ensures
            final(self)@ == old(self)@.push(LogEntry::PlayerDeath),
    {
        self.log(LogEntry::PlayerDeath);
    }

    pub fn death(&mut self, victim: &Appearance)
        ensures
            final(self)@ == old(self)@.push(LogEntry::Death { victim: victim.name }),
    {
        self.log(LogEntry::Death { victim: victim.name.clone() });
    }

    fn log(&mut self, entry: LogEntry)
        ensures
            final(self)@ == old(self)@.push(entry),
    {
        self.entries.push(entry);
    }
}

impl Default for GameLog {
    fn default() -> (log: Self)
        ensures
            log@ == seq![LogEntry::Welcome],
    {
        GameLog::new()
    }
}

} // verus!
