//! An embedded, transactional key/value store: environments, transactions,
//! named databases, cursors and value conversion.
//!
//! The store keeps named databases of ordered keys, each key with one value
//! or — under the duplicate flag — a sorted list of values. An
//! [`env::Environment`] owns the committed state and hands out transactions:
//! one read-write transaction at a time, working on its own copy and
//! publishing it atomically at commit, beside any number of read-only
//! transactions, each owning a consistent snapshot. Ordering is a
//! capability: every database carries two [`order::KeyOrd`] comparators, for
//! keys and for duplicate values, and every ordering-sensitive operation —
//! lookups, ordered inserts, append checks, cursors, range queries — is
//! specified and verified against whichever comparators are registered.
//!
//! The single-writer / multi-reader discipline is enforced through
//! ownership: mutation demands `&mut`, snapshots are owned values, so a view
//! can never dangle and a resize can never invalidate a reader. Every
//! operation's contract is stated against the store model of [`store`], and
//! the laws of [`laws`] tie the pieces together: writes are read back,
//! deleted keys are gone, the lowest duplicate is served first, and
//! iteration follows the registered comparator.

pub mod errors;
pub mod flags;
pub mod order;
pub mod val;
pub mod store;
pub mod env;
pub mod txn;
pub mod laws;
pub mod cursor;

pub use cursor::Cursor;
pub use env::{DbHandle, EnvBuilder, Environment, MdbStat, StoreImage};
pub use errors::MdbError;
pub use flags::{DbFlags, EnvFlags};
pub use order::{Cmp, KeyOrd, LexOrd, RevOrd};
pub use txn::{ReadonlyTransaction, Transaction};
pub use val::{as_slices, FromMdbValue, MdbValue, ToMdbValue};
