//! Environments: the top-level handle to one store.
//!
//! An environment owns the committed databases, their registry of names and
//! flag sets, and the capacity (map size) that writes are held to. It hands
//! out read-write transactions (one at a time) and read-only transactions
//! (each with its own snapshot), registers databases, and grows the map.

use vstd::prelude::*;
use vstd::string::StringSliceAdditionalSpecFns;
use crate::errors::MdbError;
use crate::flags::{DbFlags, EnvFlags};
use crate::order::{KeyOrd, LexOrd};
use crate::store::{
    bytes_eq, copy_store, db_items, db_items_exec, store_flags, DbState, DbView, Store,
};
use crate::txn::{ReadonlyTransaction, Transaction};

verus! {

/// A lightweight identifier of one database, bound to an environment by
/// index and carrying the database's flag set and its two comparators.
///
/// The comparators registered here govern every ordering-sensitive
/// operation; a handle must present the same comparators on every use of
/// the database, as the well-formedness preconditions of the transactional
/// operations state.
pub struct DbHandle<C: KeyOrd, D: KeyOrd> {
    /// Index of the database inside its environment.
    pub dbi: usize,
    /// The database's flag set.
    pub flags: DbFlags,
    /// Ordering of keys.
    pub key_ord: C,
    /// Ordering of duplicate values within one key.
    pub dup_ord: D,
}

impl<C: KeyOrd, D: KeyOrd> DbHandle<C, D> {
    /// Register a custom key comparator, overriding the present one for all
    /// ordering-dependent operations made through the returned handle.
    /// Register it before the database holds data, and use it consistently.
    pub fn set_compare<C2: KeyOrd>(self, cmp: C2) -> (r: DbHandle<C2, D>)
        ensures
            r.dbi == self.dbi,
            r.flags == self.flags,
            r.key_ord == cmp,
            r.dup_ord == self.dup_ord,
    {
        DbHandle { dbi: self.dbi, flags: self.flags, key_ord: cmp, dup_ord: self.dup_ord }
    }

    /// Register a custom comparator for duplicate values, leaving the key
    /// ordering untouched.
    pub fn set_dupsort<D2: KeyOrd>(self, cmp: D2) -> (r: DbHandle<C, D2>)
        ensures
            r.dbi == self.dbi,
            r.flags == self.flags,
            r.key_ord == self.key_ord,
            r.dup_ord == cmp,
    {
        DbHandle { dbi: self.dbi, flags: self.flags, key_ord: self.key_ord, dup_ord: cmp }
    }
}

/// Counters of one database, or of the environment as a whole.
///
/// Only the entry count is modelled; the tree geometry belongs to the
/// storage engine and is reported with nominal values.
#[derive(Clone, Copy, PartialEq, Eq, Structural, Debug)]
pub struct MdbStat {
    pub ms_psize: usize,
    pub ms_depth: usize,
    pub ms_branch_pages: usize,
    pub ms_leaf_pages: usize,
    pub ms_overflow_pages: usize,
    pub ms_entries: usize,
}

/// The committed content of a closed environment: what a re-open sees.
pub struct StoreImage {
    store: Store,
    names: Vec<Vec<u8>>,
    default_configured: bool,
}

impl StoreImage {
    /// The databases.
    pub closed spec fn dbs(&self) -> Seq<DbView> {
        self.store@
    }

    /// Their flag sets.
    pub closed spec fn dbs_flags(&self) -> Seq<DbFlags> {
        store_flags(self.store)
    }

    /// Their names.
    pub closed spec fn db_names(&self) -> Seq<Seq<u8>> {
        self.names.deep_view()
    }

    /// Were the default database's flags fixed already?
    pub closed spec fn default_set(&self) -> bool {
        self.default_configured
    }

    /// The image is consistent: one name per database, and a default
    /// database present.
    pub closed spec fn wf(&self) -> bool {
        self.names@.len() == self.store.dbs@.len() && self.store.dbs@.len() >= 1
    }
}

/// Index of the named database called `nb` at or after `i`; `-1` if none.
/// The default database (index `0`) is never found by name.
pub open spec fn name_find_from(names: Seq<Seq<u8>>, nb: Seq<u8>, i: int) -> int
    decreases names.len() - i,
{
    if i < 1 || i >= names.len() {
        -1
    } else if names[i] == nb {
        i
    } else {
        name_find_from(names, nb, i + 1)
    }
}

/// Index of the named database called `nb`; `-1` if none.
pub open spec fn name_find(names: Seq<Seq<u8>>, nb: Seq<u8>) -> int {
    name_find_from(names, nb, 1)
}

/// The top-level, single-process handle to one store.
///
/// A read-write transaction is exclusive: while one is pending, beginning
/// another fails with `Busy` and growing the map fails with `Busy`. Each
/// read-only transaction owns a snapshot of the committed state, so readers
/// never block the writer and a resize cannot invalidate them; reader slots
/// are therefore not counted in this model.
pub struct Environment {
    store: Store,
    names: Vec<Vec<u8>>,
    default_configured: bool,
    map_size: usize,
    max_dbs: usize,
    max_readers: usize,
    env_flags: EnvFlags,
    writer_active: bool,
}

impl Environment {
    /// The committed databases.
    pub closed spec fn dbs(&self) -> Seq<DbView> {
        self.store@
    }

    /// Their flag sets.
    pub closed spec fn dbs_flags(&self) -> Seq<DbFlags> {
        store_flags(self.store)
    }

    /// Their names (the default database has the empty name).
    pub closed spec fn db_names(&self) -> Seq<Seq<u8>> {
        self.names.deep_view()
    }

    /// The capacity in bytes that writes are held to.
    pub closed spec fn capacity(&self) -> nat {
        self.map_size as nat
    }

    /// The bound on named databases.
    pub closed spec fn max_dbs_spec(&self) -> nat {
        self.max_dbs as nat
    }

    /// The bound on concurrent readers.
    pub closed spec fn max_readers_spec(&self) -> nat {
        self.max_readers as nat
    }

    /// The runtime flag set.
    pub closed spec fn env_flags_spec(&self) -> EnvFlags {
        self.env_flags
    }

    /// Was the environment opened read-only?
    pub closed spec fn is_read_only(&self) -> bool {
        self.env_flags.read_only
    }

    /// Is a read-write transaction pending?
    pub closed spec fn writer_pending(&self) -> bool {
        self.writer_active
    }

    /// Were the default database's flags fixed already?
    pub closed spec fn default_set(&self) -> bool {
        self.default_configured
    }

    /// The environment is consistent: one name per database, a default
    /// database present, and a non-zero capacity.
    pub closed spec fn wf(&self) -> bool {
        self.names@.len() == self.store.dbs@.len() && self.store.dbs@.len() >= 1 && self.map_size
            >= 1
    }

    /// Install a committed working store and release the writer.
    pub(crate) fn install(&mut self, work: Store)
        requires
            old(self).wf(),
            work@.len() == old(self).dbs().len(),
        ensures
            final(self).wf(),
            final(self).dbs() == work@,
            final(self).dbs_flags() == store_flags(work),
            !final(self).writer_pending(),
            final(self).db_names() == old(self).db_names(),
            final(self).capacity() == old(self).capacity(),
            final(self).max_dbs_spec() == old(self).max_dbs_spec(),
            final(self).max_readers_spec() == old(self).max_readers_spec(),
            final(self).env_flags_spec() == old(self).env_flags_spec(),
            final(self).default_set() == old(self).default_set(),
    {
        self.store = work;
        self.writer_active = false;
    }

    /// Release the writer without installing anything.
    pub(crate) fn release_writer(&mut self)
        requires
            old(self).wf(),
        ensures
            final(self).wf(),
            !final(self).writer_pending(),
            final(self).dbs() == old(self).dbs(),
            final(self).dbs_flags() == old(self).dbs_flags(),
            final(self).db_names() == old(self).db_names(),
            final(self).capacity() == old(self).capacity(),
            final(self).max_dbs_spec() == old(self).max_dbs_spec(),
            final(self).max_readers_spec() == old(self).max_readers_spec(),
            final(self).env_flags_spec() == old(self).env_flags_spec(),
            final(self).default_set() == old(self).default_set(),
    {
        self.writer_active = false;
    }

    /// Begin a read-write transaction over a snapshot of the committed
    /// state, holding the writer slot until commit or abort.
    ///
    /// Fails with `ReadOnlyEnvironment` on a read-only environment, and
    /// with `Busy` while another read-write transaction is pending (a
    /// single-threaded model cannot block, so the wait of the multi-threaded
    /// store surfaces as an error).
    pub fn new_transaction(&mut self) -> (r: Result<Transaction, MdbError>)
        requires
            old(self).wf(),
        ensures
            final(self).wf(),
            final(self).dbs() == old(self).dbs(),
            final(self).dbs_flags() == old(self).dbs_flags(),
            final(self).db_names() == old(self).db_names(),
            final(self).capacity() == old(self).capacity(),
            final(self).env_flags_spec() == old(self).env_flags_spec(),
            final(self).max_dbs_spec() == old(self).max_dbs_spec(),
            final(self).default_set() == old(self).default_set(),
            old(self).is_read_only() ==> r == Err::<Transaction, MdbError>(
                MdbError::ReadOnlyEnvironment,
            ) && final(self).writer_pending() == old(self).writer_pending(),
            !old(self).is_read_only() && old(self).writer_pending() ==> r == Err::<
                Transaction,
                MdbError,
            >(MdbError::Busy) && final(self).writer_pending(),
            !old(self).is_read_only() && !old(self).writer_pending() ==> ({
                &&& r is Ok
                &&& final(self).writer_pending()
                &&& r.unwrap().dbs() == old(self).dbs()
                &&& r.unwrap().dbs_flags() == old(self).dbs_flags()
                &&& r.unwrap().capacity() == old(self).capacity()
            }),
    {
        if self.env_flags.read_only {
            return Err(MdbError::ReadOnlyEnvironment);
        }
        if self.writer_active {
            return Err(MdbError::Busy);
        }
        let work = copy_store(&self.store);
        self.writer_active = true;
        Ok(Transaction::begin(work, self.map_size))
    }

    /// Begin a read-only transaction over its own snapshot of the committed
    /// state. Snapshots are owned, so reader slots can never run out here
    /// and the call always succeeds.
    pub fn get_reader(&self) -> (r: Result<ReadonlyTransaction, MdbError>)
        requires
            self.wf(),
        ensures
            r is Ok,
            r.unwrap().dbs() == self.dbs(),
            r.unwrap().dbs_flags() == self.dbs_flags(),
    {
        Ok(ReadonlyTransaction::begin(copy_store(&self.store)))
    }

    /// Open (or register) the default database, fixing its flag set on the
    /// first call; later calls must present an equal set or fail with
    /// `DbFlagsMismatch`.
    pub fn get_default_db(&mut self, flags: DbFlags) -> (r: Result<
        DbHandle<LexOrd, LexOrd>,
        MdbError,
    >)
        requires
            old(self).wf(),
        ensures
            final(self).wf(),
            final(self).dbs() == old(self).dbs(),
            final(self).db_names() == old(self).db_names(),
            final(self).capacity() == old(self).capacity(),
            final(self).env_flags_spec() == old(self).env_flags_spec(),
            final(self).writer_pending() == old(self).writer_pending(),
            final(self).max_dbs_spec() == old(self).max_dbs_spec(),
            !old(self).default_set() ==> ({
                &&& r matches Ok(h) && h.dbi == 0 && h.flags == flags && h.key_ord == LexOrd
                    && h.dup_ord == LexOrd
                &&& final(self).dbs_flags() == old(self).dbs_flags().update(0, flags)
                &&& final(self).default_set()
            }),
            old(self).default_set() && flags == old(self).dbs_flags()[0] ==> ({
                &&& r matches Ok(h) && h.dbi == 0 && h.flags == flags && h.key_ord == LexOrd
                    && h.dup_ord == LexOrd
                &&& final(self).dbs_flags() == old(self).dbs_flags()
            }),
            old(self).default_set() && flags != old(self).dbs_flags()[0] ==> r == Err::<
                DbHandle<LexOrd, LexOrd>,
                MdbError,
            >(MdbError::DbFlagsMismatch) && final(self).dbs_flags() == old(self).dbs_flags(),
            final(self).default_set() == (old(self).default_set() || r is Ok),
    {
        if !self.default_configured {
            let mut tmp = DbState { flags, entries: Vec::new() };
            self.store.dbs.set_and_swap(0, &mut tmp);
            let st = DbState { flags, entries: tmp.entries };
            self.store.dbs.set(0, st);
            self.default_configured = true;
            proof {
                assert(self.store@ =~= old(self).store@);
                assert(store_flags(self.store) =~= store_flags(old(self).store).update(0, flags));
            }
            Ok(DbHandle { dbi: 0, flags, key_ord: LexOrd, dup_ord: LexOrd })
        } else {
            let st = &self.store.dbs[0];
            proof {
                assert(self.dbs_flags()[0] == st.flags);
            }
            if st.flags == flags {
                Ok(DbHandle { dbi: 0, flags, key_ord: LexOrd, dup_ord: LexOrd })
            } else {
                Err(MdbError::DbFlagsMismatch)
            }
        }
    }

    /// Register or open the database called `name`; an empty name means the
    /// default database. A fresh registration counts against `max_dbs` and
    /// starts empty; re-opening an existing name must present an equal flag
    /// set or fail with `DbFlagsMismatch`.
    pub fn create_db(&mut self, name: &str, flags: DbFlags) -> (r: Result<
        DbHandle<LexOrd, LexOrd>,
        MdbError,
    >)
        requires
            old(self).wf(),
        ensures
            final(self).wf(),
            final(self).capacity() == old(self).capacity(),
            final(self).env_flags_spec() == old(self).env_flags_spec(),
            final(self).writer_pending() == old(self).writer_pending(),
            final(self).max_dbs_spec() == old(self).max_dbs_spec(),
            name.spec_bytes().len() != 0 ==> ({
                let nb = name.spec_bytes();
                let f = name_find(old(self).db_names(), nb);
                &&& final(self).default_set() == old(self).default_set()
                &&& (f >= 1 ==> ({
                    &&& final(self).dbs() == old(self).dbs()
                    &&& final(self).db_names() == old(self).db_names()
                    &&& final(self).dbs_flags() == old(self).dbs_flags()
                    &&& (flags == old(self).dbs_flags()[f] ==> (r matches Ok(h) && h.dbi == f
                        && h.flags == flags && h.key_ord == LexOrd && h.dup_ord == LexOrd))
                    &&& (flags != old(self).dbs_flags()[f] ==> r == Err::<
                        DbHandle<LexOrd, LexOrd>,
                        MdbError,
                    >(MdbError::DbFlagsMismatch))
                }))
                &&& (f == -1 && old(self).dbs().len() - 1 >= old(self).max_dbs_spec() ==> ({
                    &&& r == Err::<DbHandle<LexOrd, LexOrd>, MdbError>(MdbError::TooManyDbs)
                    &&& final(self).dbs() == old(self).dbs()
                    &&& final(self).db_names() == old(self).db_names()
                    &&& final(self).dbs_flags() == old(self).dbs_flags()
                }))
                &&& (f == -1 && old(self).dbs().len() - 1 < old(self).max_dbs_spec() ==> ({
                    &&& r matches Ok(h) && h.dbi == old(self).dbs().len() && h.flags == flags
                        && h.key_ord == LexOrd && h.dup_ord == LexOrd
                    &&& final(self).dbs() == old(self).dbs().push(Seq::empty())
                    &&& final(self).db_names() == old(self).db_names().push(nb)
                    &&& final(self).dbs_flags() == old(self).dbs_flags().push(flags)
                }))
            }),
            name.spec_bytes().len() == 0 ==> ({
                &&& final(self).dbs() == old(self).dbs()
                &&& final(self).db_names() == old(self).db_names()
                &&& (!old(self).default_set() ==> (r matches Ok(h) && h.dbi == 0 && h.flags == flags
                    && final(self).dbs_flags() == old(self).dbs_flags().update(0, flags)))
                &&& (old(self).default_set() && flags == old(self).dbs_flags()[0] ==> (r matches Ok(h)
                    && h.dbi == 0 && h.flags == flags && final(self).dbs_flags() == old(self).dbs_flags()))
                &&& (old(self).default_set() && flags != old(self).dbs_flags()[0] ==> r == Err::<
                    DbHandle<LexOrd, LexOrd>,
                    MdbError,
                >(MdbError::DbFlagsMismatch) && final(self).dbs_flags() == old(self).dbs_flags())
            }),
    {
        let nb = name.as_bytes();
        if nb.len() == 0 {
            return self.get_default_db(flags);
        }
        let ghost nbs = name.spec_bytes();
        proof {
            assert(nb@ == name.spec_bytes());
            assert(nbs.len() != 0);
        }
        let ghost nv = self.db_names();
        let n = self.names.len();
        let mut i: usize = 1;
        while i < n
            invariant
                *self == *old(self),
                self.wf(),
                n == self.names@.len(),
                nv == self.db_names(),
                nv.len() == n,
                1 <= i <= n,
                nbs == nb@,
                nbs == name.spec_bytes(),
                nbs.len() != 0,
                name_find_from(nv, nbs, 1) == name_find_from(nv, nbs, i as int),
            decreases n - i,
        {
            proof {
                assert(nv[i as int] == self.names@[i as int]@);
                assert(self.store.dbs@.len() == n);
            }
            if bytes_eq(self.names[i].as_slice(), nb) {
                let st = &self.store.dbs[i];
                proof {
                    assert(nv[i as int] == nbs);
                    assert(name_find_from(nv, nbs, i as int) == i as int);
                    assert(name_find(self.db_names(), nbs) == i as int);
                    assert(self.dbs_flags()[i as int] == st.flags);
                }
                if st.flags == flags {
                    return Ok(DbHandle { dbi: i, flags, key_ord: LexOrd, dup_ord: LexOrd });
                } else {
                    return Err(MdbError::DbFlagsMismatch);
                }
            }
            i = i + 1;
        }
        if n - 1 >= self.max_dbs {
            return Err(MdbError::TooManyDbs);
        }
        let new_dbi = n;
        let fresh_name = slice_to_vec_bytes(nb);
        proof {
            crate::store::lemma_bytes_deep_view(fresh_name);
        }
        self.names.push(fresh_name);
        self.store.dbs.push(DbState { flags, entries: Vec::new() });
        proof {
            assert(self.db_names() =~~= nv.push(nbs));
            assert(self.dbs() =~~= old(self).dbs().push(Seq::empty()));
            assert(self.dbs_flags() =~= old(self).dbs_flags().push(flags));
        }
        Ok(DbHandle { dbi: new_dbi, flags, key_ord: LexOrd, dup_ord: LexOrd })
    }

    /// Grow the environment's capacity. Only legal with no pending
    /// read-write transaction (`Busy` otherwise), and the new size must be
    /// non-zero (`InvalidConfig` otherwise). Later transactions see the new
    /// capacity; a transaction already begun keeps the capacity it saw.
    pub fn set_mapsize(&mut self, new_size: usize) -> (r: Result<(), MdbError>)
        requires
            old(self).wf(),
        ensures
            final(self).wf(),
            final(self).dbs() == old(self).dbs(),
            final(self).dbs_flags() == old(self).dbs_flags(),
            final(self).db_names() == old(self).db_names(),
            final(self).env_flags_spec() == old(self).env_flags_spec(),
            final(self).writer_pending() == old(self).writer_pending(),
            final(self).max_dbs_spec() == old(self).max_dbs_spec(),
            final(self).default_set() == old(self).default_set(),
            old(self).writer_pending() ==> r == Err::<(), MdbError>(MdbError::Busy) && final(self).capacity() == old(self).capacity(),
            !old(self).writer_pending() && new_size == 0 ==> r == Err::<(), MdbError>(
                MdbError::InvalidConfig,
            ) && final(self).capacity() == old(self).capacity(),
            !old(self).writer_pending() && new_size >= 1 ==> r == Ok::<(), MdbError>(()) && final(self).capacity() == new_size,
    {
        if self.writer_active {
            return Err(MdbError::Busy);
        }
        if new_size == 0 {
            return Err(MdbError::InvalidConfig);
        }
        self.map_size = new_size;
        Ok(())
    }

    /// Counters of the environment: the entries of the default database
    /// plus one entry per named database.
    pub fn stat(&self) -> (r: Result<MdbStat, MdbError>)
        requires
            self.wf(),
        ensures
            r is Ok,
            db_items(self.dbs()[0]) + self.dbs().len() - 1 <= usize::MAX ==> r.unwrap().ms_entries
                == db_items(self.dbs()[0]) + self.dbs().len() - 1,
    {
        let st = &self.store.dbs[0];
        proof {
            assert(self.dbs()[0] == st@);
        }
        let base = match db_items_exec(&st.entries) {
            Some(x) => x,
            None => {
                return Ok(stat_of(usize::MAX));
            },
        };
        match base.checked_add(self.store.dbs.len() - 1) {
            Some(total) => Ok(stat_of(total)),
            None => Ok(stat_of(usize::MAX)),
        }
    }

    /// The runtime flag set.
    pub fn get_flags(&self) -> (r: Result<EnvFlags, MdbError>)
        ensures
            r == Ok::<EnvFlags, MdbError>(self.env_flags_spec()),
    {
        Ok(self.env_flags)
    }

    /// Turn the given flags on (or off) for the rest of the environment's
    /// life.
    pub fn set_flags(&mut self, flags: EnvFlags, onoff: bool) -> (r: Result<(), MdbError>)
        requires
            old(self).wf(),
        ensures
            final(self).wf(),
            r is Ok,
            final(self).dbs() == old(self).dbs(),
            final(self).dbs_flags() == old(self).dbs_flags(),
            final(self).db_names() == old(self).db_names(),
            final(self).capacity() == old(self).capacity(),
            final(self).writer_pending() == old(self).writer_pending(),
            final(self).max_dbs_spec() == old(self).max_dbs_spec(),
            final(self).default_set() == old(self).default_set(),
            onoff ==> final(self).env_flags_spec() == old(self).env_flags_spec().union_spec(flags),
            !onoff ==> final(self).env_flags_spec() == old(self).env_flags_spec().minus_spec(flags),
    {
        if onoff {
            self.env_flags = self.env_flags.union(flags);
        } else {
            self.env_flags = self.env_flags.minus(flags);
        }
        Ok(())
    }

    /// Flush buffered writes. Durability belongs to the storage engine; in
    /// this model the committed state is always current, so this is a
    /// successful no-op.
    pub fn sync(&mut self, _force: bool) -> (r: Result<(), MdbError>)
        requires
            old(self).wf(),
        ensures
            r is Ok,
            *final(self) == *old(self),
    {
        Ok(())
    }

    /// Close the environment, yielding its committed content for a later
    /// re-open.
    pub fn close(self) -> (r: StoreImage)
        requires
            self.wf(),
        ensures
            r.wf(),
            r.dbs() == self.dbs(),
            r.dbs_flags() == self.dbs_flags(),
            r.db_names() == self.db_names(),
            r.default_set() == self.default_set(),
    {
        StoreImage {
            store: self.store,
            names: self.names,
            default_configured: self.default_configured,
        }
    }
}

/// A stat block with the given entry count and nominal tree geometry.
fn stat_of(entries: usize) -> (r: MdbStat)
    ensures
        r.ms_entries == entries,
{
    MdbStat {
        ms_psize: 4096,
        ms_depth: 1,
        ms_branch_pages: 0,
        ms_leaf_pages: 0,
        ms_overflow_pages: 0,
        ms_entries: entries,
    }
}

/// Copy a byte slice into a vector.
fn slice_to_vec_bytes(b: &[u8]) -> (r: Vec<u8>)
    ensures
        r@ == b@,
{
    vstd::slice::slice_to_vec(b)
}

/// Configuration of an environment before it opens.
pub struct EnvBuilder {
    map_size: usize,
    max_dbs: usize,
    max_readers: usize,
    flags: EnvFlags,
}

impl EnvBuilder {
    /// The capacity the builder will open with.
    pub closed spec fn map_size_spec(&self) -> nat {
        self.map_size as nat
    }

    /// The named-database bound the builder will open with.
    pub closed spec fn max_dbs_spec(&self) -> nat {
        self.max_dbs as nat
    }

    /// The reader bound the builder will open with.
    pub closed spec fn max_readers_spec(&self) -> nat {
        self.max_readers as nat
    }

    /// The flags the builder will open with.
    pub closed spec fn flags_spec(&self) -> EnvFlags {
        self.flags
    }

    /// A builder with the default configuration: a one-mebibyte map, no
    /// named databases, 126 reader slots, no flags.
    pub fn new() -> (r: EnvBuilder)
        ensures
            r.map_size_spec() == 1048576,
            r.max_dbs_spec() == 0,
            r.max_readers_spec() == 126,
            r.flags_spec() == (EnvFlags {
                read_only: false,
                no_sync: false,
                no_meta_sync: false,
                no_mem_init: false,
                durable_sync: false,
            }),
    {
        EnvBuilder {
            map_size: 1048576,
            max_dbs: 0,
            max_readers: 126,
            flags: EnvFlags {
                read_only: false,
                no_sync: false,
                no_meta_sync: false,
                no_mem_init: false,
                durable_sync: false,
            },
        }
    }

    /// Set the capacity in bytes.
    pub fn map_size(self, v: usize) -> (r: EnvBuilder)
        ensures
            r.map_size_spec() == v,
            r.max_dbs_spec() == self.max_dbs_spec(),
            r.max_readers_spec() == self.max_readers_spec(),
            r.flags_spec() == self.flags_spec(),
    {
        EnvBuilder { map_size: v, ..self }
    }

    /// Set the bound on named databases.
    pub fn max_dbs(self, v: usize) -> (r: EnvBuilder)
        ensures
            r.max_dbs_spec() == v,
            r.map_size_spec() == self.map_size_spec(),
            r.max_readers_spec() == self.max_readers_spec(),
            r.flags_spec() == self.flags_spec(),
    {
        EnvBuilder { max_dbs: v, ..self }
    }

    /// Set the bound on concurrent readers.
    pub fn max_readers(self, v: usize) -> (r: EnvBuilder)
        ensures
            r.max_readers_spec() == v,
            r.map_size_spec() == self.map_size_spec(),
            r.max_dbs_spec() == self.max_dbs_spec(),
            r.flags_spec() == self.flags_spec(),
    {
        EnvBuilder { max_readers: v, ..self }
    }

    /// Set the opening flags.
    pub fn flags(self, v: EnvFlags) -> (r: EnvBuilder)
        ensures
            r.flags_spec() == v,
            r.map_size_spec() == self.map_size_spec(),
            r.max_dbs_spec() == self.max_dbs_spec(),
            r.max_readers_spec() == self.max_readers_spec(),
    {
        EnvBuilder { flags: v, ..self }
    }

    /// Open a fresh, empty environment. Fails with `InvalidConfig` exactly
    /// when the configured map size is zero.
    pub fn open(self) -> (r: Result<Environment, MdbError>)
        ensures
            self.map_size_spec() == 0 ==> r == Err::<Environment, MdbError>(MdbError::InvalidConfig),
            self.map_size_spec() >= 1 ==> ({
                &&& r is Ok
                &&& r.unwrap().wf()
                &&& r.unwrap().dbs() =~= seq![Seq::<(Seq<u8>, Seq<Seq<u8>>)>::empty()]
                &&& r.unwrap().capacity() == self.map_size_spec()
                &&& r.unwrap().max_dbs_spec() == self.max_dbs_spec()
                &&& r.unwrap().max_readers_spec() == self.max_readers_spec()
                &&& r.unwrap().env_flags_spec() == self.flags_spec()
                &&& !r.unwrap().writer_pending()
                &&& !r.unwrap().default_set()
            }),
    {
        if self.map_size == 0 {
            return Err(MdbError::InvalidConfig);
        }
        let mut dbs: Vec<DbState> = Vec::new();
        dbs.push(DbState {
            flags: DbFlags {
                allow_dups: false,
                int_key: false,
                int_dups: false,
                fixed_dups: false,
                reverse_key: false,
            },
            entries: Vec::new(),
        });
        let mut names: Vec<Vec<u8>> = Vec::new();
        names.push(Vec::new());
        let env = Environment {
            store: Store { dbs },
            names,
            default_configured: false,
            map_size: self.map_size,
            max_dbs: self.max_dbs,
            max_readers: self.max_readers,
            env_flags: self.flags,
            writer_active: false,
        };
        proof {
            assert(env.dbs() =~~= seq![Seq::<(Seq<u8>, Seq<Seq<u8>>)>::empty()]);
            assert(env.dbs()[0] =~= Seq::<(Seq<u8>, Seq<Seq<u8>>)>::empty());
        }
        Ok(env)
    }

    /// Re-open an environment over the committed content of a closed one.
    /// Fails with `InvalidConfig` exactly when the configured map size is
    /// zero.
    pub fn open_from(self, image: StoreImage) -> (r: Result<Environment, MdbError>)
        requires
            image.wf(),
        ensures
            self.map_size_spec() == 0 ==> r == Err::<Environment, MdbError>(MdbError::InvalidConfig),
            self.map_size_spec() >= 1 ==> ({
                &&& r is Ok
                &&& r.unwrap().wf()
                &&& r.unwrap().dbs() == image.dbs()
                &&& r.unwrap().dbs_flags() == image.dbs_flags()
                &&& r.unwrap().db_names() == image.db_names()
                &&& r.unwrap().default_set() == image.default_set()
                &&& r.unwrap().capacity() == self.map_size_spec()
                &&& r.unwrap().max_dbs_spec() == self.max_dbs_spec()
                &&& r.unwrap().env_flags_spec() == self.flags_spec()
                &&& !r.unwrap().writer_pending()
            }),
    {
        if self.map_size == 0 {
            return Err(MdbError::InvalidConfig);
        }
        Ok(
            Environment {
                store: image.store,
                names: image.names,
                default_configured: image.default_configured,
                map_size: self.map_size,
                max_dbs: self.max_dbs,
                max_readers: self.max_readers,
                env_flags: self.flags,
                writer_active: false,
            },
        )
    }
}

} // verus!
