//! Settings of the relational store's connection.
use vstd::prelude::*;

verus! {

/// How SQLite keeps its rollback journal.
#[derive(Clone, Copy, Debug, PartialEq, Eq, Structural)]
pub enum JournalMode {
    Delete,
    Truncate,
    Persist,
    Memory,
    Wal,
    Off,
}

impl JournalMode {
    /// The mode's name as the `journal_mode` pragma takes it.
    pub fn pragma_value(&self) -> (r: &'static str)
        ensures
            r@ == match *self {
                JournalMode::Delete => "DELETE"@,
                JournalMode::Truncate => "TRUNCATE"@,
                JournalMode::Persist => "PERSIST"@,
                JournalMode::Memory => "MEMORY"@,
                JournalMode::Wal => "WAL"@,
                JournalMode::Off => "OFF"@,
            },
    {
        match self {
            JournalMode::Delete => "DELETE",
            JournalMode::Truncate => "TRUNCATE",
            JournalMode::Persist => "PERSIST",
            JournalMode::Memory => "MEMORY",
            JournalMode::Wal => "WAL",
            JournalMode::Off => "OFF",
        }
    }
}

/// Pool size and pragmas for a database connection.
#[derive(Clone, Copy, Debug, PartialEq, Eq, Structural)]
pub struct DatabaseConfig {
    pub max_connections: u32,
    pub enable_wal: bool,
    pub journal_mode: JournalMode,
    pub foreign_keys: bool,
}

impl Default for DatabaseConfig {
    /// Five connections, write-ahead logging, foreign keys enforced.
    fn default() -> (r: DatabaseConfig)
        ensures
            r == (DatabaseConfig {
                max_connections: 5,
                enable_wal: true,
                journal_mode: JournalMode::Wal,
                foreign_keys: true,
            }),
    {
        DatabaseConfig {
            max_connections: 5,
            enable_wal: true,
            journal_mode: JournalMode::Wal,
            foreign_keys: true,
        }
    }
}

} // verus!
