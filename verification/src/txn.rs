//! Transactions: read-write and read-only units of work.
//!
//! A read-write transaction works on its own copy of the committed
//! databases and publishes it atomically at commit; an abort discards it
//! whole. A read-only transaction owns a consistent snapshot. Every
//! operation is specified against the store model of [`crate::store`]; the
//! well-formedness preconditions oblige the caller to present each
//! database's registered comparators consistently, as the storage contract
//! demands.

use vstd::prelude::*;
use crate::env::{DbHandle, Environment, MdbStat};
use crate::errors::MdbError;
use crate::flags::DbFlags;
use crate::order::KeyOrd;
use crate::store::{
    db_append, db_append_build, db_append_dup, db_append_dup_build, db_can_append,
    db_can_append_dup, db_del, db_del_build, db_del_item, db_del_item_build, db_dups,
    db_dups_exec, db_get, db_get_exec, db_has_item, db_has_key, db_items, db_items_exec,
    db_pairs, db_range, db_range_pairs, db_seek, db_set, db_set_build, db_wf, kv_view,
    lemma_db_wf_vals_nonempty, store_bytes, store_bytes_with_exec, store_flags, DbState, DbView,
    Store,
};
use crate::val::{MdbValue, ToMdbValue};

verus! {

/// The byte strings behind a sequence of value views.
pub open spec fn mdb_views(s: Seq<MdbValue>) -> Seq<Seq<u8>> {
    s.map_values(|m: MdbValue| m@)
}

/// A read-write transaction: a private working copy of all databases,
/// published atomically by `commit` against the environment it came from.
pub struct Transaction {
    work: Store,
    map_size: usize,
}

/// A read-only transaction: an owned, consistent snapshot of all databases.
pub struct ReadonlyTransaction {
    snap: Store,
}

impl Transaction {
    /// The working databases.
    pub closed spec fn dbs(&self) -> Seq<DbView> {
        self.work@
    }

    /// Their flag sets.
    pub closed spec fn dbs_flags(&self) -> Seq<DbFlags> {
        store_flags(self.work)
    }

    /// The capacity this transaction was begun under; writes are held to
    /// it even if the environment is resized meanwhile.
    pub closed spec fn capacity(&self) -> nat {
        self.map_size as nat
    }

    /// Begin over a working copy.
    pub(crate) fn begin(work: Store, map_size: usize) -> (r: Transaction)
        ensures
            r.dbs() == work@,
            r.dbs_flags() == store_flags(work),
            r.capacity() == map_size,
    {
        Transaction { work, map_size }
    }

    /// The first (lowest under the duplicate order) value stored under
    /// `key`; `NotFound` exactly when the key is absent.
    pub fn get<C: KeyOrd, D: KeyOrd, K: ToMdbValue>(&self, db: &DbHandle<C, D>, key: &K) -> (r:
        Result<MdbValue, MdbError>)
        requires
            db.dbi < self.dbs().len(),
            db_wf(db.key_ord, db.dup_ord, self.dbs()[db.dbi as int]),
        ensures
            ({
                let g = db_get(db.key_ord, self.dbs()[db.dbi as int], key.mdb_bytes());
                match r {
                    Ok(mv) => g == Some(mv@),
                    Err(e) => g is None && e == MdbError::NotFound,
                }
            }),
    {
        let kv = key.to_mdb_value();
        let st = &self.work.dbs[db.dbi];
        proof {
            assert(self.dbs()[db.dbi as int] == st@);
            lemma_db_wf_vals_nonempty(&db.key_ord, &db.dup_ord, st@);
        }
        match db_get_exec(&db.key_ord, &st.entries, kv.get_ref()) {
            Some(v) => Ok(MdbValue::new(v)),
            None => Err(MdbError::NotFound),
        }
    }

    /// Upsert `(key, value)`: under duplicates an additional value, else a
    /// replacement; `MapFull` exactly when the new state would exceed the
    /// capacity this transaction was begun under, leaving the data
    /// untouched.
    pub fn set<C: KeyOrd, D: KeyOrd, K: ToMdbValue, V: ToMdbValue>(
        &mut self,
        db: &DbHandle<C, D>,
        key: &K,
        value: &V,
    ) -> (r: Result<(), MdbError>)
        requires
            db.dbi < old(self).dbs().len(),
            db_wf(db.key_ord, db.dup_ord, old(self).dbs()[db.dbi as int]),
        ensures
            final(self).capacity() == old(self).capacity(),
            final(self).dbs_flags() == old(self).dbs_flags(),
            final(self).dbs().len() == old(self).dbs().len(),
            db_wf(db.key_ord, db.dup_ord, final(self).dbs()[db.dbi as int]),
            ({
                let nd = db_set(
                    db.key_ord,
                    db.dup_ord,
                    old(self).dbs()[db.dbi as int],
                    key.mdb_bytes(),
                    value.mdb_bytes(),
                    db.flags.allow_dups,
                );
                let ns = old(self).dbs().update(db.dbi as int, nd);
                if store_bytes(ns) > old(self).capacity() {
                    r == Err::<(), MdbError>(MdbError::MapFull) && final(self).dbs() == old(self).dbs()
                } else {
                    r == Ok::<(), MdbError>(()) && final(self).dbs() == ns
                }
            }),
    {
        let kv = key.to_mdb_value();
        let vv = value.to_mdb_value();
        let dbi = db.dbi;
        let st = &self.work.dbs[dbi];
        proof {
            assert(self.dbs()[dbi as int] == st@);
        }
        let cand = db_set_build(
            &db.key_ord,
            &db.dup_ord,
            &st.entries,
            kv.get_ref(),
            vv.get_ref(),
            db.flags.allow_dups,
        );
        self.finish_write(dbi, cand)
    }

    /// Insert `(key, value)`; `KeyExists` exactly when the key is already
    /// present, `MapFull` as for `set`.
    pub fn insert<C: KeyOrd, D: KeyOrd, K: ToMdbValue, V: ToMdbValue>(
        &mut self,
        db: &DbHandle<C, D>,
        key: &K,
        value: &V,
    ) -> (r: Result<(), MdbError>)
        requires
            db.dbi < old(self).dbs().len(),
            db_wf(db.key_ord, db.dup_ord, old(self).dbs()[db.dbi as int]),
        ensures
            final(self).capacity() == old(self).capacity(),
            final(self).dbs_flags() == old(self).dbs_flags(),
            final(self).dbs().len() == old(self).dbs().len(),
            db_wf(db.key_ord, db.dup_ord, final(self).dbs()[db.dbi as int]),
            ({
                let dbv = old(self).dbs()[db.dbi as int];
                let k = key.mdb_bytes();
                if db_has_key(db.key_ord, dbv, k) {
                    r == Err::<(), MdbError>(MdbError::KeyExists) && final(self).dbs() == old(self).dbs()
                } else {
                    let nd = db_set(
                        db.key_ord,
                        db.dup_ord,
                        dbv,
                        k,
                        value.mdb_bytes(),
                        db.flags.allow_dups,
                    );
                    let ns = old(self).dbs().update(db.dbi as int, nd);
                    if store_bytes(ns) > old(self).capacity() {
                        r == Err::<(), MdbError>(MdbError::MapFull) && final(self).dbs() == old(self).dbs()
                    } else {
                        r == Ok::<(), MdbError>(()) && final(self).dbs() == ns
                    }
                }
            }),
    {
        let kv = key.to_mdb_value();
        let vv = value.to_mdb_value();
        let dbi = db.dbi;
        let st = &self.work.dbs[dbi];
        proof {
            assert(self.dbs()[dbi as int] == st@);
        }
        let (_, found) = db_seek(&db.key_ord, &st.entries, kv.get_ref());
        if found {
            return Err(MdbError::KeyExists);
        }
        let cand = db_set_build(
            &db.key_ord,
            &db.dup_ord,
            &st.entries,
            kv.get_ref(),
            vv.get_ref(),
            db.flags.allow_dups,
        );
        self.finish_write(dbi, cand)
    }

    /// Remove `key` and all its values; `NotFound` exactly when it is
    /// absent.
    pub fn del<C: KeyOrd, D: KeyOrd, K: ToMdbValue>(&mut self, db: &DbHandle<C, D>, key: &K) -> (r:
        Result<(), MdbError>)
        requires
            db.dbi < old(self).dbs().len(),
            db_wf(db.key_ord, db.dup_ord, old(self).dbs()[db.dbi as int]),
        ensures
            final(self).capacity() == old(self).capacity(),
            final(self).dbs_flags() == old(self).dbs_flags(),
            final(self).dbs().len() == old(self).dbs().len(),
            db_wf(db.key_ord, db.dup_ord, final(self).dbs()[db.dbi as int]),
            ({
                let dbv = old(self).dbs()[db.dbi as int];
                let k = key.mdb_bytes();
                if db_has_key(db.key_ord, dbv, k) {
                    r == Ok::<(), MdbError>(()) && final(self).dbs() == old(self).dbs().update(
                        db.dbi as int,
                        db_del(db.key_ord, dbv, k),
                    )
                } else {
                    r == Err::<(), MdbError>(MdbError::NotFound) && final(self).dbs() == old(self).dbs()
                }
            }),
    {
        let kv = key.to_mdb_value();
        let dbi = db.dbi;
        let st = &self.work.dbs[dbi];
        proof {
            assert(self.dbs()[dbi as int] == st@);
        }
        let (cand, had) = db_del_build(&db.key_ord, &db.dup_ord, &st.entries, kv.get_ref());
        if !had {
            return Err(MdbError::NotFound);
        }
        let fl = st.flags;
        self.work.dbs.set(dbi, DbState { flags: fl, entries: cand });
        proof {
            assert(self.work@ =~= old(self).work@.update(
                dbi as int,
                db_del(db.key_ord, old(self).dbs()[dbi as int], key.mdb_bytes()),
            ));
            assert(store_flags(self.work) =~= store_flags(old(self).work));
        }
        Ok(())
    }

    /// Remove the single item `(key, value)`; `NotFound` exactly when that
    /// exact item is absent.
    pub fn del_item<C: KeyOrd, D: KeyOrd, K: ToMdbValue, V: ToMdbValue>(
        &mut self,
        db: &DbHandle<C, D>,
        key: &K,
        value: &V,
    ) -> (r: Result<(), MdbError>)
        requires
            db.dbi < old(self).dbs().len(),
            db_wf(db.key_ord, db.dup_ord, old(self).dbs()[db.dbi as int]),
        ensures
            final(self).capacity() == old(self).capacity(),
            final(self).dbs_flags() == old(self).dbs_flags(),
            final(self).dbs().len() == old(self).dbs().len(),
            db_wf(db.key_ord, db.dup_ord, final(self).dbs()[db.dbi as int]),
            ({
                let dbv = old(self).dbs()[db.dbi as int];
                let k = key.mdb_bytes();
                let v = value.mdb_bytes();
                if db_has_item(db.key_ord, db.dup_ord, dbv, k, v) {
                    r == Ok::<(), MdbError>(()) && final(self).dbs() == old(self).dbs().update(
                        db.dbi as int,
                        db_del_item(db.key_ord, db.dup_ord, dbv, k, v),
                    )
                } else {
                    r == Err::<(), MdbError>(MdbError::NotFound) && final(self).dbs() == old(self).dbs()
                }
            }),
    {
        let kv = key.to_mdb_value();
        let vv = value.to_mdb_value();
        let dbi = db.dbi;
        let st = &self.work.dbs[dbi];
        proof {
            assert(self.dbs()[dbi as int] == st@);
        }
        let (cand, had) = db_del_item_build(
            &db.key_ord,
            &db.dup_ord,
            &st.entries,
            kv.get_ref(),
            vv.get_ref(),
        );
        if !had {
            return Err(MdbError::NotFound);
        }
        let fl = st.flags;
        self.work.dbs.set(dbi, DbState { flags: fl, entries: cand });
        proof {
            assert(self.work@ =~= old(self).work@.update(
                dbi as int,
                db_del_item(
                    db.key_ord,
                    db.dup_ord,
                    old(self).dbs()[dbi as int],
                    key.mdb_bytes(),
                    value.mdb_bytes(),
                ),
            ));
            assert(store_flags(self.work) =~= store_flags(old(self).work));
        }
        Ok(())
    }

    /// Append `(key, value)`, optimized for a key known to sort after every
    /// stored one; `KeyExists` exactly when it does not, `MapFull` as for
    /// `set`.
    pub fn append<C: KeyOrd, D: KeyOrd, K: ToMdbValue, V: ToMdbValue>(
        &mut self,
        db: &DbHandle<C, D>,
        key: &K,
        value: &V,
    ) -> (r: Result<(), MdbError>)
        requires
            db.dbi < old(self).dbs().len(),
            db_wf(db.key_ord, db.dup_ord, old(self).dbs()[db.dbi as int]),
        ensures
            final(self).capacity() == old(self).capacity(),
            final(self).dbs_flags() == old(self).dbs_flags(),
            final(self).dbs().len() == old(self).dbs().len(),
            db_wf(db.key_ord, db.dup_ord, final(self).dbs()[db.dbi as int]),
            ({
                let dbv = old(self).dbs()[db.dbi as int];
                let k = key.mdb_bytes();
                if !db_can_append(db.key_ord, dbv, k) {
                    r == Err::<(), MdbError>(MdbError::KeyExists) && final(self).dbs() == old(self).dbs()
                } else {
                    let ns = old(self).dbs().update(
                        db.dbi as int,
                        db_append(db.key_ord, dbv, k, value.mdb_bytes()),
                    );
                    if store_bytes(ns) > old(self).capacity() {
                        r == Err::<(), MdbError>(MdbError::MapFull) && final(self).dbs() == old(self).dbs()
                    } else {
                        r == Ok::<(), MdbError>(()) && final(self).dbs() == ns
                    }
                }
            }),
    {
        let kv = key.to_mdb_value();
        let vv = value.to_mdb_value();
        let dbi = db.dbi;
        let st = &self.work.dbs[dbi];
        proof {
            assert(self.dbs()[dbi as int] == st@);
        }
        let (cand, ok) = db_append_build(
            &db.key_ord,
            &db.dup_ord,
            &st.entries,
            kv.get_ref(),
            vv.get_ref(),
        );
        if !ok {
            return Err(MdbError::KeyExists);
        }
        self.finish_write(dbi, cand)
    }

    /// Append `value` as a duplicate of `key`, optimized for an item known
    /// to sort after every stored one; `KeyExists` exactly when it does
    /// not, `MapFull` as for `set`.
    pub fn append_duplicate<C: KeyOrd, D: KeyOrd, K: ToMdbValue, V: ToMdbValue>(
        &mut self,
        db: &DbHandle<C, D>,
        key: &K,
        value: &V,
    ) -> (r: Result<(), MdbError>)
        requires
            db.dbi < old(self).dbs().len(),
            db_wf(db.key_ord, db.dup_ord, old(self).dbs()[db.dbi as int]),
        ensures
            final(self).capacity() == old(self).capacity(),
            final(self).dbs_flags() == old(self).dbs_flags(),
            final(self).dbs().len() == old(self).dbs().len(),
            db_wf(db.key_ord, db.dup_ord, final(self).dbs()[db.dbi as int]),
            ({
                let dbv = old(self).dbs()[db.dbi as int];
                let k = key.mdb_bytes();
                let v = value.mdb_bytes();
                if !db_can_append_dup(db.key_ord, db.dup_ord, dbv, k, v) {
                    r == Err::<(), MdbError>(MdbError::KeyExists) && final(self).dbs() == old(self).dbs()
                } else {
                    let ns = old(self).dbs().update(
                        db.dbi as int,
                        db_append_dup(db.key_ord, db.dup_ord, dbv, k, v),
                    );
                    if store_bytes(ns) > old(self).capacity() {
                        r == Err::<(), MdbError>(MdbError::MapFull) && final(self).dbs() == old(self).dbs()
                    } else {
                        r == Ok::<(), MdbError>(()) && final(self).dbs() == ns
                    }
                }
            }),
    {
        let kv = key.to_mdb_value();
        let vv = value.to_mdb_value();
        let dbi = db.dbi;
        let st = &self.work.dbs[dbi];
        proof {
            assert(self.dbs()[dbi as int] == st@);
        }
        let (cand, ok) = db_append_dup_build(
            &db.key_ord,
            &db.dup_ord,
            &st.entries,
            kv.get_ref(),
            vv.get_ref(),
        );
        if !ok {
            return Err(MdbError::KeyExists);
        }
        self.finish_write(dbi, cand)
    }

    /// Borrow one database's state.
    pub(crate) fn db_state(&self, dbi: usize) -> (r: &DbState)
        requires
            dbi < self.dbs().len(),
        ensures
            r@ == self.dbs()[dbi as int],
    {
        let st = &self.work.dbs[dbi];
        proof {
            assert(self.dbs()[dbi as int] == st@);
        }
        st
    }

    /// Install a candidate database unconditionally (shrinking operations).
    pub(crate) fn install_db(&mut self, dbi: usize, cand: Vec<crate::store::Entry>)
        requires
            dbi < old(self).dbs().len(),
        ensures
            final(self).capacity() == old(self).capacity(),
            final(self).dbs_flags() == old(self).dbs_flags(),
            final(self).dbs() == old(self).dbs().update(dbi as int, crate::store::db_view(cand@)),
    {
        let ghost cv = crate::store::db_view(cand@);
        let fl = self.work.dbs[dbi].flags;
        self.work.dbs.set(dbi, DbState { flags: fl, entries: cand });
        proof {
            assert(self.work@ =~= old(self).work@.update(dbi as int, cv));
            assert(store_flags(self.work) =~= store_flags(old(self).work));
        }
    }

    /// Check the candidate against the capacity and install it.
    pub(crate) fn finish_write(&mut self, dbi: usize, cand: Vec<crate::store::Entry>) -> (r: Result<
        (),
        MdbError,
    >)
        requires
            dbi < old(self).dbs().len(),
        ensures
            final(self).capacity() == old(self).capacity(),
            final(self).dbs_flags() == old(self).dbs_flags(),
            final(self).dbs().len() == old(self).dbs().len(),
            ({
                let ns = old(self).dbs().update(dbi as int, crate::store::db_view(cand@));
                if store_bytes(ns) > old(self).capacity() {
                    r == Err::<(), MdbError>(MdbError::MapFull) && final(self).dbs() == old(self).dbs()
                } else {
                    r == Ok::<(), MdbError>(()) && final(self).dbs() == ns
                }
            }),
    {
        let ghost cv = crate::store::db_view(cand@);
        let over = match store_bytes_with_exec(&self.work, dbi, &cand) {
            Some(nb) => nb > self.map_size,
            None => true,
        };
        if over {
            return Err(MdbError::MapFull);
        }
        let fl = self.work.dbs[dbi].flags;
        self.work.dbs.set(dbi, DbState { flags: fl, entries: cand });
        proof {
            assert(self.work@ =~= old(self).work@.update(dbi as int, cv));
            assert(store_flags(self.work) =~= store_flags(old(self).work));
        }
        Ok(())
    }

    /// Counters of one database; the entry count includes duplicates.
    pub fn stat<C: KeyOrd, D: KeyOrd>(&self, db: &DbHandle<C, D>) -> (r: Result<MdbStat, MdbError>)
        requires
            db.dbi < self.dbs().len(),
        ensures
            r is Ok,
            db_items(self.dbs()[db.dbi as int]) <= usize::MAX ==> r.unwrap().ms_entries == db_items(
                self.dbs()[db.dbi as int],
            ),
    {
        let st = &self.work.dbs[db.dbi];
        proof {
            assert(self.dbs()[db.dbi as int] == st@);
        }
        let n = match db_items_exec(&st.entries) {
            Some(x) => x,
            None => usize::MAX,
        };
        Ok(MdbStat {
            ms_psize: 4096,
            ms_depth: 1,
            ms_branch_pages: 0,
            ms_leaf_pages: 0,
            ms_overflow_pages: 0,
            ms_entries: n,
        })
    }

    /// All key/value pairs of the database in comparator order, duplicates
    /// expanded.
    pub fn iter<C: KeyOrd, D: KeyOrd>(&self, db: &DbHandle<C, D>) -> (r: Result<
        Vec<(Vec<u8>, Vec<u8>)>,
        MdbError,
    >)
        requires
            db.dbi < self.dbs().len(),
            db_wf(db.key_ord, db.dup_ord, self.dbs()[db.dbi as int]),
        ensures
            r matches Ok(v) && kv_view(v@) == db_pairs(self.dbs()[db.dbi as int]),
    {
        let st = &self.work.dbs[db.dbi];
        proof {
            assert(self.dbs()[db.dbi as int] == st@);
        }
        let out = db_range_pairs(&db.key_ord, &st.entries, None, None, false);
        proof {
            lemma_range_all(db.key_ord, st@);
        }
        Ok(out)
    }

    /// The pairs with key at or above `lower`, ascending.
    pub fn keyrange_from<C: KeyOrd, D: KeyOrd, K: ToMdbValue>(
        &self,
        db: &DbHandle<C, D>,
        lower: &K,
    ) -> (r: Result<Vec<(Vec<u8>, Vec<u8>)>, MdbError>)
        requires
            db.dbi < self.dbs().len(),
            db_wf(db.key_ord, db.dup_ord, self.dbs()[db.dbi as int]),
        ensures
            r matches Ok(v) && kv_view(v@) == db_pairs(
                db_range(
                    db.key_ord,
                    self.dbs()[db.dbi as int],
                    Some(lower.mdb_bytes()),
                    None,
                    false,
                ),
            ),
    {
        let lv = lower.to_mdb_value();
        let st = &self.work.dbs[db.dbi];
        proof {
            assert(self.dbs()[db.dbi as int] == st@);
        }
        Ok(db_range_pairs(&db.key_ord, &st.entries, Some(lv.get_ref()), None, false))
    }

    /// The pairs with key strictly below `upper`, ascending from the first
    /// key.
    pub fn keyrange_to<C: KeyOrd, D: KeyOrd, K: ToMdbValue>(
        &self,
        db: &DbHandle<C, D>,
        upper: &K,
    ) -> (r: Result<Vec<(Vec<u8>, Vec<u8>)>, MdbError>)
        requires
            db.dbi < self.dbs().len(),
            db_wf(db.key_ord, db.dup_ord, self.dbs()[db.dbi as int]),
        ensures
            r matches Ok(v) && kv_view(v@) == db_pairs(
                db_range(
                    db.key_ord,
                    self.dbs()[db.dbi as int],
                    None,
                    Some(upper.mdb_bytes()),
                    false,
                ),
            ),
    {
        let uv = upper.to_mdb_value();
        let st = &self.work.dbs[db.dbi];
        proof {
            assert(self.dbs()[db.dbi as int] == st@);
        }
        Ok(db_range_pairs(&db.key_ord, &st.entries, None, Some(uv.get_ref()), false))
    }

    /// The pairs with `lower <= key <= upper`, ascending.
    pub fn keyrange<C: KeyOrd, D: KeyOrd, K: ToMdbValue>(
        &self,
        db: &DbHandle<C, D>,
        lower: &K,
        upper: &K,
    ) -> (r: Result<Vec<(Vec<u8>, Vec<u8>)>, MdbError>)
        requires
            db.dbi < self.dbs().len(),
            db_wf(db.key_ord, db.dup_ord, self.dbs()[db.dbi as int]),
        ensures
            r matches Ok(v) && kv_view(v@) == db_pairs(
                db_range(
                    db.key_ord,
                    self.dbs()[db.dbi as int],
                    Some(lower.mdb_bytes()),
                    Some(upper.mdb_bytes()),
                    true,
                ),
            ),
    {
        let lv = lower.to_mdb_value();
        let uv = upper.to_mdb_value();
        let st = &self.work.dbs[db.dbi];
        proof {
            assert(self.dbs()[db.dbi as int] == st@);
        }
        Ok(db_range_pairs(&db.key_ord, &st.entries, Some(lv.get_ref()), Some(uv.get_ref()), true))
    }

    /// The pairs with `lower <= key < upper`, ascending.
    pub fn keyrange_from_to<C: KeyOrd, D: KeyOrd, K: ToMdbValue>(
        &self,
        db: &DbHandle<C, D>,
        lower: &K,
        upper: &K,
    ) -> (r: Result<Vec<(Vec<u8>, Vec<u8>)>, MdbError>)
        requires
            db.dbi < self.dbs().len(),
            db_wf(db.key_ord, db.dup_ord, self.dbs()[db.dbi as int]),
        ensures
            r matches Ok(v) && kv_view(v@) == db_pairs(
                db_range(
                    db.key_ord,
                    self.dbs()[db.dbi as int],
                    Some(lower.mdb_bytes()),
                    Some(upper.mdb_bytes()),
                    false,
                ),
            ),
    {
        let lv = lower.to_mdb_value();
        let uv = upper.to_mdb_value();
        let st = &self.work.dbs[db.dbi];
        proof {
            assert(self.dbs()[db.dbi as int] == st@);
        }
        Ok(db_range_pairs(&db.key_ord, &st.entries, Some(lv.get_ref()), Some(uv.get_ref()), false))
    }

    /// The duplicate values of `key`, lowest first: a finite, forward-only
    /// sequence, empty (not an error) when the key is absent.
    pub fn item_iter<C: KeyOrd, D: KeyOrd, K: ToMdbValue>(&self, db: &DbHandle<C, D>, key: &K) -> (r:
        Result<Vec<MdbValue>, MdbError>)
        requires
            db.dbi < self.dbs().len(),
            db_wf(db.key_ord, db.dup_ord, self.dbs()[db.dbi as int]),
        ensures
            r matches Ok(v) && mdb_views(v@) == db_dups(
                db.key_ord,
                self.dbs()[db.dbi as int],
                key.mdb_bytes(),
            ),
    {
        let kv = key.to_mdb_value();
        let st = &self.work.dbs[db.dbi];
        proof {
            assert(self.dbs()[db.dbi as int] == st@);
        }
        let vals = db_dups_exec(&db.key_ord, &st.entries, kv.get_ref());
        Ok(wrap_values(vals))
    }

    /// Publish every write atomically into the environment this transaction
    /// was begun against, and release the writer slot. In this model the
    /// store cannot fail mid-commit, so the result is always `Ok`; on a
    /// failing store the effects would be rolled back whole, as an abort.
    pub fn commit(self, env: &mut Environment) -> (r: Result<(), MdbError>)
        requires
            old(env).wf(),
            self.dbs().len() == old(env).dbs().len(),
        ensures
            r is Ok,
            final(env).wf(),
            final(env).dbs() == self.dbs(),
            final(env).dbs_flags() == self.dbs_flags(),
            !final(env).writer_pending(),
            final(env).db_names() == old(env).db_names(),
            final(env).capacity() == old(env).capacity(),
            final(env).max_dbs_spec() == old(env).max_dbs_spec(),
            final(env).env_flags_spec() == old(env).env_flags_spec(),
            final(env).default_set() == old(env).default_set(),
    {
        env.install(self.work);
        Ok(())
    }

    /// Discard every write and release the writer slot.
    pub fn abort(self, env: &mut Environment)
        requires
            old(env).wf(),
        ensures
            final(env).wf(),
            final(env).dbs() == old(env).dbs(),
            final(env).dbs_flags() == old(env).dbs_flags(),
            !final(env).writer_pending(),
            final(env).db_names() == old(env).db_names(),
            final(env).capacity() == old(env).capacity(),
            final(env).max_dbs_spec() == old(env).max_dbs_spec(),
            final(env).env_flags_spec() == old(env).env_flags_spec(),
            final(env).default_set() == old(env).default_set(),
    {
        env.release_writer();
    }
}

/// Entries of an empty range selection: iterating everything is selecting
/// with no bounds.
proof fn lemma_range_all<C: KeyOrd>(c: C, db: DbView)
    ensures
        db_range(c, db, None, None, false) == db,
{
    lemma_range_all_from(c, db, 0);
    assert(db.skip(0) =~= db);
}

proof fn lemma_range_all_from<C: KeyOrd>(c: C, db: DbView, i: int)
    requires
        0 <= i <= db.len(),
    ensures
        crate::store::db_range_from(c, db, None, None, false, i) == db.skip(i),
    decreases db.len() - i,
{
    if i < db.len() {
        lemma_range_all_from(c, db, i + 1);
        assert(crate::store::db_range_from(c, db, None, None, false, i) == seq![db[i]]
            + db.skip(i + 1));
        assert(seq![db[i]] + db.skip(i + 1) =~= db.skip(i));
    } else {
        assert(db.skip(i) =~= Seq::<(Seq<u8>, Seq<Seq<u8>>)>::empty());
    }
}

/// Wrap owned byte strings as value views.
fn wrap_values(vals: Vec<Vec<u8>>) -> (r: Vec<MdbValue>)
    ensures
        mdb_views(r@) == vals.deep_view(),
{
    let mut r: Vec<MdbValue> = Vec::new();
    let mut i: usize = 0;
    let n = vals.len();
    while i < n
        invariant
            n == vals@.len(),
            i <= n,
            r@.len() == i,
            forall|j: int| 0 <= j < i ==> mdb_views(r@)[j] == vals.deep_view()[j],
        decreases n - i,
    {
        r.push(MdbValue::new(crate::val::copy_bytes(&vals[i])));
        i = i + 1;
    }
    proof {
        assert(mdb_views(r@) =~= vals.deep_view());
    }
    r
}

impl ReadonlyTransaction {
    /// The snapshot's databases.
    pub closed spec fn dbs(&self) -> Seq<DbView> {
        self.snap@
    }

    /// Their flag sets.
    pub closed spec fn dbs_flags(&self) -> Seq<DbFlags> {
        store_flags(self.snap)
    }

    /// Begin over an owned snapshot.
    pub(crate) fn begin(snap: Store) -> (r: ReadonlyTransaction)
        ensures
            r.dbs() == snap@,
            r.dbs_flags() == store_flags(snap),
    {
        ReadonlyTransaction { snap }
    }

    /// The first value stored under `key`; `NotFound` exactly when absent.
    pub fn get<C: KeyOrd, D: KeyOrd, K: ToMdbValue>(&self, db: &DbHandle<C, D>, key: &K) -> (r:
        Result<MdbValue, MdbError>)
        requires
            db.dbi < self.dbs().len(),
            db_wf(db.key_ord, db.dup_ord, self.dbs()[db.dbi as int]),
        ensures
            ({
                let g = db_get(db.key_ord, self.dbs()[db.dbi as int], key.mdb_bytes());
                match r {
                    Ok(mv) => g == Some(mv@),
                    Err(e) => g is None && e == MdbError::NotFound,
                }
            }),
    {
        let kv = key.to_mdb_value();
        let st = &self.snap.dbs[db.dbi];
        proof {
            assert(self.dbs()[db.dbi as int] == st@);
            lemma_db_wf_vals_nonempty(&db.key_ord, &db.dup_ord, st@);
        }
        match db_get_exec(&db.key_ord, &st.entries, kv.get_ref()) {
            Some(v) => Ok(MdbValue::new(v)),
            None => Err(MdbError::NotFound),
        }
    }

    /// All key/value pairs of the database in comparator order, duplicates
    /// expanded.
    pub fn iter<C: KeyOrd, D: KeyOrd>(&self, db: &DbHandle<C, D>) -> (r: Result<
        Vec<(Vec<u8>, Vec<u8>)>,
        MdbError,
    >)
        requires
            db.dbi < self.dbs().len(),
            db_wf(db.key_ord, db.dup_ord, self.dbs()[db.dbi as int]),
        ensures
            r matches Ok(v) && kv_view(v@) == db_pairs(self.dbs()[db.dbi as int]),
    {
        let st = &self.snap.dbs[db.dbi];
        proof {
            assert(self.dbs()[db.dbi as int] == st@);
        }
        let out = db_range_pairs(&db.key_ord, &st.entries, None, None, false);
        proof {
            lemma_range_all(db.key_ord, st@);
        }
        Ok(out)
    }

    /// The pairs with key at or above `lower`, ascending.
    pub fn keyrange_from<C: KeyOrd, D: KeyOrd, K: ToMdbValue>(
        &self,
        db: &DbHandle<C, D>,
        lower: &K,
    ) -> (r: Result<Vec<(Vec<u8>, Vec<u8>)>, MdbError>)
        requires
            db.dbi < self.dbs().len(),
            db_wf(db.key_ord, db.dup_ord, self.dbs()[db.dbi as int]),
        ensures
            r matches Ok(v) && kv_view(v@) == db_pairs(
                db_range(
                    db.key_ord,
                    self.dbs()[db.dbi as int],
                    Some(lower.mdb_bytes()),
                    None,
                    false,
                ),
            ),
    {
        let lv = lower.to_mdb_value();
        let st = &self.snap.dbs[db.dbi];
        proof {
            assert(self.dbs()[db.dbi as int] == st@);
        }
        Ok(db_range_pairs(&db.key_ord, &st.entries, Some(lv.get_ref()), None, false))
    }

    /// The pairs with key strictly below `upper`, ascending from the first
    /// key.
    pub fn keyrange_to<C: KeyOrd, D: KeyOrd, K: ToMdbValue>(
        &self,
        db: &DbHandle<C, D>,
        upper: &K,
    ) -> (r: Result<Vec<(Vec<u8>, Vec<u8>)>, MdbError>)
        requires
            db.dbi < self.dbs().len(),
            db_wf(db.key_ord, db.dup_ord, self.dbs()[db.dbi as int]),
        ensures
            r matches Ok(v) && kv_view(v@) == db_pairs(
                db_range(
                    db.key_ord,
                    self.dbs()[db.dbi as int],
                    None,
                    Some(upper.mdb_bytes()),
                    false,
                ),
            ),
    {
        let uv = upper.to_mdb_value();
        let st = &self.snap.dbs[db.dbi];
        proof {
            assert(self.dbs()[db.dbi as int] == st@);
        }
        Ok(db_range_pairs(&db.key_ord, &st.entries, None, Some(uv.get_ref()), false))
    }

    /// The pairs with `lower <= key <= upper`, ascending.
    pub fn keyrange<C: KeyOrd, D: KeyOrd, K: ToMdbValue>(
        &self,
        db: &DbHandle<C, D>,
        lower: &K,
        upper: &K,
    ) -> (r: Result<Vec<(Vec<u8>, Vec<u8>)>, MdbError>)
        requires
            db.dbi < self.dbs().len(),
            db_wf(db.key_ord, db.dup_ord, self.dbs()[db.dbi as int]),
        ensures
            r matches Ok(v) && kv_view(v@) == db_pairs(
                db_range(
                    db.key_ord,
                    self.dbs()[db.dbi as int],
                    Some(lower.mdb_bytes()),
                    Some(upper.mdb_bytes()),
                    true,
                ),
            ),
    {
        let lv = lower.to_mdb_value();
        let uv = upper.to_mdb_value();
        let st = &self.snap.dbs[db.dbi];
        proof {
            assert(self.dbs()[db.dbi as int] == st@);
        }
        Ok(db_range_pairs(&db.key_ord, &st.entries, Some(lv.get_ref()), Some(uv.get_ref()), true))
    }

    /// The pairs with `lower <= key < upper`, ascending.
    pub fn keyrange_from_to<C: KeyOrd, D: KeyOrd, K: ToMdbValue>(
        &self,
        db: &DbHandle<C, D>,
        lower: &K,
        upper: &K,
    ) -> (r: Result<Vec<(Vec<u8>, Vec<u8>)>, MdbError>)
        requires
            db.dbi < self.dbs().len(),
            db_wf(db.key_ord, db.dup_ord, self.dbs()[db.dbi as int]),
        ensures
            r matches Ok(v) && kv_view(v@) == db_pairs(
                db_range(
                    db.key_ord,
                    self.dbs()[db.dbi as int],
                    Some(lower.mdb_bytes()),
                    Some(upper.mdb_bytes()),
                    false,
                ),
            ),
    {
        let lv = lower.to_mdb_value();
        let uv = upper.to_mdb_value();
        let st = &self.snap.dbs[db.dbi];
        proof {
            assert(self.dbs()[db.dbi as int] == st@);
        }
        Ok(db_range_pairs(&db.key_ord, &st.entries, Some(lv.get_ref()), Some(uv.get_ref()), false))
    }

    /// The duplicate values of `key`, lowest first; empty (not an error)
    /// when the key is absent.
    pub fn item_iter<C: KeyOrd, D: KeyOrd, K: ToMdbValue>(&self, db: &DbHandle<C, D>, key: &K) -> (r:
        Result<Vec<MdbValue>, MdbError>)
        requires
            db.dbi < self.dbs().len(),
            db_wf(db.key_ord, db.dup_ord, self.dbs()[db.dbi as int]),
        ensures
            r matches Ok(v) && mdb_views(v@) == db_dups(
                db.key_ord,
                self.dbs()[db.dbi as int],
                key.mdb_bytes(),
            ),
    {
        let kv = key.to_mdb_value();
        let st = &self.snap.dbs[db.dbi];
        proof {
            assert(self.dbs()[db.dbi as int] == st@);
        }
        let vals = db_dups_exec(&db.key_ord, &st.entries, kv.get_ref());
        Ok(wrap_values(vals))
    }

    /// Release the snapshot; always succeeds.
    pub fn commit(self) -> (r: Result<(), MdbError>)
        ensures
            r is Ok,
    {
        Ok(())
    }

    /// Release the snapshot.
    pub fn abort(self) {
    }
}

} // verus!
