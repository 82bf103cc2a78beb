//! The ways a log command can fail.

use vstd::prelude::*;

verus! {

/// A failed log command. Variants that come from the store carry the store's
/// own message.
#[derive(PartialEq, Eq, Debug)]
pub enum LogError {
    /// The store could not be opened or created.
    StoreUnavailable(String),
    /// The table of entries could not be created.
    SchemaInitFailed(String),
    /// A preset and an explicit bound were both given.
    ConfigConflict,
    /// An explicit bound is not an instant in the canonical text form.
    TimestampParseError,
    /// Writing an entry failed.
    WriteFailed(String),
    /// Reading entries failed.
    QueryFailed(String),
    /// The export file could not be written.
    ExportIOFailure(String),
}

} // verus!
