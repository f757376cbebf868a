//! The schema version of the persistent store, which decides whether the
//! engine can open it.

use crate::error::{Error, MetadataStoreError};
use vstd::prelude::*;

verus! {

/// What to do with a store before it is used.
#[derive(Clone, Copy, Debug, PartialEq, Eq, Structural)]
pub enum SchemaCheck {
    /// The store has the engine's schema.
    Current,
    /// The store has an older schema and is to be migrated from that version
    /// to the engine's.
    Migrate { from: u64, to: u64 },
}

/// Decides whether a store written with the schema version `found` can be
/// used by an engine whose schema version is `supported`: as it is, after a
/// migration from an older version, or, where it comes from a newer engine,
/// not at all.
pub fn check_schema(found: u64, supported: u64) -> (r: Result<SchemaCheck, Error>)
    ensures
        r == if found == supported {
            Ok::<SchemaCheck, Error>(SchemaCheck::Current)
        } else if found < supported {
            Ok(SchemaCheck::Migrate { from: found, to: supported })
        } else {
            Err(Error::MetadataStore(MetadataStoreError::VersionIncompatible(found, supported)))
        },
{
    if found == supported {
        Ok(SchemaCheck::Current)
    } else if found < supported {
        Ok(SchemaCheck::Migrate { from: found, to: supported })
    } else {
        Err(Error::from(MetadataStoreError::VersionIncompatible(found, supported)))
    }
}

} // verus!
