//! Flag sets for environments and databases.
//!
//! The sets are plain structs of booleans; `union` and `contains` take the
//! place of bit operations.

use vstd::prelude::*;

verus! {

/// Configuration of one database, fixed at creation; every later open of the
/// same name must present an equal set.
#[derive(Clone, Copy, PartialEq, Eq, Structural, Debug)]
pub struct DbFlags {
    /// Several values may be stored under one key.
    pub allow_dups: bool,
    /// Keys are fixed-width big-endian integers.
    pub int_key: bool,
    /// Duplicate values are fixed-width big-endian integers.
    pub int_dups: bool,
    /// Duplicate values all have the same size.
    pub fixed_dups: bool,
    /// Keys are ordered back-to-front.
    pub reverse_key: bool,
}

impl DbFlags {
    /// The empty flag set: single values, byte-lexicographic keys.
    pub fn empty() -> (r: DbFlags)
        ensures
            r == (DbFlags {
                allow_dups: false,
                int_key: false,
                int_dups: false,
                fixed_dups: false,
                reverse_key: false,
            }),
    {
        DbFlags { allow_dups: false, int_key: false, int_dups: false, fixed_dups: false, reverse_key: false }
    }

    /// This set, with duplicate values allowed.
    pub fn with_dups(self) -> (r: DbFlags)
        ensures
            r == (DbFlags { allow_dups: true, ..self }),
    {
        DbFlags { allow_dups: true, ..self }
    }

    /// This set, with integer keys.
    pub fn with_int_key(self) -> (r: DbFlags)
        ensures
            r == (DbFlags { int_key: true, ..self }),
    {
        DbFlags { int_key: true, ..self }
    }

    /// This set, with integer duplicate values.
    pub fn with_int_dups(self) -> (r: DbFlags)
        ensures
            r == (DbFlags { int_dups: true, ..self }),
    {
        DbFlags { int_dups: true, ..self }
    }

    /// This set, with fixed-size duplicate values.
    pub fn with_fixed_dups(self) -> (r: DbFlags)
        ensures
            r == (DbFlags { fixed_dups: true, ..self }),
    {
        DbFlags { fixed_dups: true, ..self }
    }

    /// This set, with reverse key ordering.
    pub fn with_reverse_key(self) -> (r: DbFlags)
        ensures
            r == (DbFlags { reverse_key: true, ..self }),
    {
        DbFlags { reverse_key: true, ..self }
    }
}

/// Runtime flags of an environment.
#[derive(Clone, Copy, PartialEq, Eq, Structural, Debug)]
pub struct EnvFlags {
    /// The environment rejects read-write transactions.
    pub read_only: bool,
    /// Commits do not flush data pages.
    pub no_sync: bool,
    /// Commits do not flush the metadata page.
    pub no_meta_sync: bool,
    /// Freshly mapped memory is not zero-initialised.
    pub no_mem_init: bool,
    /// Every commit performs a durable sync.
    pub durable_sync: bool,
}

impl EnvFlags {
    /// The empty flag set.
    pub fn empty() -> (r: EnvFlags)
        ensures
            r == (EnvFlags {
                read_only: false,
                no_sync: false,
                no_meta_sync: false,
                no_mem_init: false,
                durable_sync: false,
            }),
    {
        EnvFlags { read_only: false, no_sync: false, no_meta_sync: false, no_mem_init: false, durable_sync: false }
    }

    /// This set, read-only.
    pub fn with_read_only(self) -> (r: EnvFlags)
        ensures
            r == (EnvFlags { read_only: true, ..self }),
    {
        EnvFlags { read_only: true, ..self }
    }

    /// This set, without data-page flushing.
    pub fn with_no_sync(self) -> (r: EnvFlags)
        ensures
            r == (EnvFlags { no_sync: true, ..self }),
    {
        EnvFlags { no_sync: true, ..self }
    }

    /// This set, without metadata flushing.
    pub fn with_no_meta_sync(self) -> (r: EnvFlags)
        ensures
            r == (EnvFlags { no_meta_sync: true, ..self }),
    {
        EnvFlags { no_meta_sync: true, ..self }
    }

    /// This set, without memory initialisation.
    pub fn with_no_mem_init(self) -> (r: EnvFlags)
        ensures
            r == (EnvFlags { no_mem_init: true, ..self }),
    {
        EnvFlags { no_mem_init: true, ..self }
    }

    /// This set, with durable syncs on commit.
    pub fn with_durable_sync(self) -> (r: EnvFlags)
        ensures
            r == (EnvFlags { durable_sync: true, ..self }),
    {
        EnvFlags { durable_sync: true, ..self }
    }

    /// The union of the two sets, as a value.
    pub open spec fn union_spec(self, other: EnvFlags) -> EnvFlags {
        EnvFlags {
            read_only: self.read_only || other.read_only,
            no_sync: self.no_sync || other.no_sync,
            no_meta_sync: self.no_meta_sync || other.no_meta_sync,
            no_mem_init: self.no_mem_init || other.no_mem_init,
            durable_sync: self.durable_sync || other.durable_sync,
        }
    }

    /// The set difference of the two sets, as a value.
    pub open spec fn minus_spec(self, other: EnvFlags) -> EnvFlags {
        EnvFlags {
            read_only: self.read_only && !other.read_only,
            no_sync: self.no_sync && !other.no_sync,
            no_meta_sync: self.no_meta_sync && !other.no_meta_sync,
            no_mem_init: self.no_mem_init && !other.no_mem_init,
            durable_sync: self.durable_sync && !other.durable_sync,
        }
    }

    /// The union of the two sets.
    pub fn union(self, other: EnvFlags) -> (r: EnvFlags)
        ensures
            r == self.union_spec(other),
    {
        EnvFlags {
            read_only: self.read_only || other.read_only,
            no_sync: self.no_sync || other.no_sync,
            no_meta_sync: self.no_meta_sync || other.no_meta_sync,
            no_mem_init: self.no_mem_init || other.no_mem_init,
            durable_sync: self.durable_sync || other.durable_sync,
        }
    }

    /// The set difference of the two sets.
    pub fn minus(self, other: EnvFlags) -> (r: EnvFlags)
        ensures
            r == self.minus_spec(other),
    {
        EnvFlags {
            read_only: self.read_only && !other.read_only,
            no_sync: self.no_sync && !other.no_sync,
            no_meta_sync: self.no_meta_sync && !other.no_meta_sync,
            no_mem_init: self.no_mem_init && !other.no_mem_init,
            durable_sync: self.durable_sync && !other.durable_sync,
        }
    }

    /// Does this set contain every flag of `other`?
    pub fn contains(self, other: EnvFlags) -> (r: bool)
        ensures
            r == ((other.read_only ==> self.read_only) && (other.no_sync ==> self.no_sync)
                && (other.no_meta_sync ==> self.no_meta_sync) && (other.no_mem_init
                ==> self.no_mem_init) && (other.durable_sync ==> self.durable_sync)),
    {
        (!other.read_only || self.read_only) && (!other.no_sync || self.no_sync) && (!other.no_meta_sync
            || self.no_meta_sync) && (!other.no_mem_init || self.no_mem_init) && (!other.durable_sync
            || self.durable_sync)
    }
}

} // verus!
