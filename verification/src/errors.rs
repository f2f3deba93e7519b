//! The error taxonomy of the store.

use vstd::prelude::*;

verus! {

/// Every fallible operation of the store returns one of these values.
///
/// `NotFound` and `KeyExists` are expected outcomes of lookups and ordered
/// inserts; `MapFull` is recoverable by growing the map and retrying;
/// the configuration errors arise at set-up time; `IoError` and `TxnError`
/// are fatal for the transaction that saw them.
#[derive(Clone, Copy, PartialEq, Eq, Structural, Debug)]
pub enum MdbError {
    /// The key, or the (key, value) item, is absent.
    NotFound,
    /// An insert or append would violate a uniqueness or ordering invariant.
    KeyExists,
    /// The write would exceed the environment's map size.
    MapFull,
    /// The operation needs exclusivity that is currently held elsewhere.
    Busy,
    /// All reader slots are taken.
    ReaderSlotsExhausted,
    /// A database was re-opened with flags differing from its registration.
    DbFlagsMismatch,
    /// Opening one more named database would exceed `max_dbs`.
    TooManyDbs,
    /// The environment configuration is inconsistent.
    InvalidConfig,
    /// The environment was opened read-only.
    ReadOnlyEnvironment,
    /// A value could not be converted to the requested type.
    EncodingError,
    /// The underlying storage failed.
    IoError,
    /// The transaction could not make its writes durable; it is rolled back.
    TxnError,
    /// A cursor or transaction was used while unpositioned or terminated.
    Invalid,
}

} // verus!
