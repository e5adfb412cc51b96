//! Errors of the storage layer.
use vstd::prelude::*;

verus! {

/// What can go wrong in storage; each variant carries a description of the cause.
#[derive(Clone, Debug, PartialEq, Eq)]
pub enum StorageError {
    Io(String),
    Sqlx(String),
    Json(String),
    Adif(String),
    Validation(String),
    Backend(String),
    NotFound(String),
    Migration(String),
    Database(String),
    EntryExists,
    ParseError(String),
}

impl StorageError {
    /// The description the error carries.
    pub fn describe(&self) -> (r: String)
        ensures
            r@ == match self {
                StorageError::Io(m) => m@,
                StorageError::Sqlx(m) => m@,
                StorageError::Json(m) => m@,
                StorageError::Adif(m) => m@,
                StorageError::Validation(m) => m@,
                StorageError::Backend(m) => m@,
                StorageError::NotFound(m) => m@,
                StorageError::Migration(m) => m@,
                StorageError::Database(m) => m@,
                StorageError::EntryExists => "Entry already exists"@,
                StorageError::ParseError(m) => m@,
            },
    {
        match self {
            StorageError::Io(m) => m.clone(),
            StorageError::Sqlx(m) => m.clone(),
            StorageError::Json(m) => m.clone(),
            StorageError::Adif(m) => m.clone(),
            StorageError::Validation(m) => m.clone(),
            StorageError::Backend(m) => m.clone(),
            StorageError::NotFound(m) => m.clone(),
            StorageError::Migration(m) => m.clone(),
            StorageError::Database(m) => m.clone(),
            StorageError::EntryExists => "Entry already exists".to_string(),
            StorageError::ParseError(m) => m.clone(),
        }
    }
}

} // verus!
