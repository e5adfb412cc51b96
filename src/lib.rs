//! A log of radio contacts: the record model, an in-memory record set with the storage
//! contract, the ADIF codec, the relational row mapping, the storage manager, the screen
//! state with its entry forms, and log statistics.
use vstd::prelude::*;

pub mod adif;
pub mod adif_laws;
pub mod adif_read;
pub mod adif_write;
pub mod app;
pub mod db;
pub mod error;
pub mod form;
pub mod manager;
pub mod numtext;
pub mod record;
pub mod row;
pub mod stats;
pub mod store;
pub mod text;

pub use app::{App, AppMode};
pub use error::StorageError;
pub use manager::StorageManager;
pub use record::{LogEntry, Timestamp};

verus! {

/// The three on-disk representations a log can be kept in.
#[derive(Clone, Copy, Debug, PartialEq, Eq, Structural)]
pub enum StorageFormat {
    Json,
    Adif,
    Sqlite,
}

} // verus!
