//! Cursors: positioned iteration over one database's ordered keys and
//! duplicate values.
//!
//! A cursor is unpositioned until a seek succeeds; a position is an entry
//! index and a duplicate index into the transaction's working state of one
//! database. Every operation takes the transaction and the database handle
//! the cursor was opened for; `valid_for` ties the position to the current
//! state of that database.

use vstd::prelude::*;
use crate::env::DbHandle;
use crate::errors::MdbError;
use crate::order::KeyOrd;
use crate::store::{
    db_del, db_del_build, db_del_item, db_del_item_build, db_find, db_lower, db_seek, db_set,
    db_set_build, db_wf, dup_find, dup_seek, lemma_db_find_at, lemma_db_find_from,
    lemma_db_find_unique, lemma_db_lower_from, lemma_db_set_wf, lemma_db_wf_vals_nonempty, lemma_dup_find_at,
    lemma_dups_add_find, store_bytes, DbView,
};
use crate::txn::Transaction;
use crate::val::{copy_bytes, MdbValue, ToMdbValue};

verus! {

/// A positioned iterator over one database, scoped to one transaction.
pub struct Cursor {
    pos: Option<(usize, usize)>,
}

impl Cursor {
    /// The position: entry index and duplicate index, if positioned.
    pub closed spec fn pos_spec(&self) -> Option<(int, int)> {
        match self.pos {
            Some(p) => Some((p.0 as int, p.1 as int)),
            None => None,
        }
    }

    /// Does the position point into the database?
    pub open spec fn valid_for(&self, db: DbView) -> bool {
        match self.pos_spec() {
            Some(p) => 0 <= p.0 < db.len() && 0 <= p.1 < db[p.0].1.len(),
            None => true,
        }
    }

    /// Move to the first key's first value; `NotFound` on an empty
    /// database, leaving the cursor unpositioned.
    pub fn to_first<C: KeyOrd, D: KeyOrd>(
        &mut self,
        txn: &Transaction,
        db: &DbHandle<C, D>,
    ) -> (r: Result<(), MdbError>)
        requires
            db.dbi < txn.dbs().len(),
            db_wf(db.key_ord, db.dup_ord, txn.dbs()[db.dbi as int]),
        ensures
            final(self).valid_for(txn.dbs()[db.dbi as int]),
            ({
                let dbv = txn.dbs()[db.dbi as int];
                if dbv.len() == 0 {
                    r == Err::<(), MdbError>(MdbError::NotFound) && final(self).pos_spec() is None
                } else {
                    r == Ok::<(), MdbError>(()) && final(self).pos_spec() == Some((0int, 0int))
                }
            }),
    {
        let st = txn.db_state(db.dbi);
        proof {
            lemma_db_wf_vals_nonempty(&db.key_ord, &db.dup_ord, st@);
        }
        if st.entries.len() == 0 {
            self.pos = None;
            Err(MdbError::NotFound)
        } else {
            self.pos = Some((0, 0));
            Ok(())
        }
    }

    /// Move to the last key's last value; `NotFound` on an empty database.
    pub fn to_last<C: KeyOrd, D: KeyOrd>(
        &mut self,
        txn: &Transaction,
        db: &DbHandle<C, D>,
    ) -> (r: Result<(), MdbError>)
        requires
            db.dbi < txn.dbs().len(),
            db_wf(db.key_ord, db.dup_ord, txn.dbs()[db.dbi as int]),
        ensures
            final(self).valid_for(txn.dbs()[db.dbi as int]),
            ({
                let dbv = txn.dbs()[db.dbi as int];
                if dbv.len() == 0 {
                    r == Err::<(), MdbError>(MdbError::NotFound) && final(self).pos_spec() is None
                } else {
                    r == Ok::<(), MdbError>(()) && final(self).pos_spec() == Some(
                        (dbv.len() - 1, dbv.last().1.len() - 1),
                    )
                }
            }),
    {
        let st = txn.db_state(db.dbi);
        proof {
            lemma_db_wf_vals_nonempty(&db.key_ord, &db.dup_ord, st@);
        }
        let n = st.entries.len();
        if n == 0 {
            self.pos = None;
            Err(MdbError::NotFound)
        } else {
            let e = &st.entries[n - 1];
            proof {
                assert(st@[n - 1] == e@);
            }
            self.pos = Some((n - 1, e.vals.len() - 1));
            Ok(())
        }
    }

    /// Move to the first value of the key equal to `key`; `NotFound` when
    /// it is absent, leaving the cursor unpositioned.
    pub fn to_key<C: KeyOrd, D: KeyOrd, K: ToMdbValue>(
        &mut self,
        txn: &Transaction,
        db: &DbHandle<C, D>,
        key: &K,
    ) -> (r: Result<(), MdbError>)
        requires
            db.dbi < txn.dbs().len(),
            db_wf(db.key_ord, db.dup_ord, txn.dbs()[db.dbi as int]),
        ensures
            final(self).valid_for(txn.dbs()[db.dbi as int]),
            ({
                let dbv = txn.dbs()[db.dbi as int];
                let f = db_find(db.key_ord, dbv, key.mdb_bytes());
                if f >= 0 {
                    r == Ok::<(), MdbError>(()) && final(self).pos_spec() == Some((f, 0int))
                } else {
                    r == Err::<(), MdbError>(MdbError::NotFound) && final(self).pos_spec() is None
                }
            }),
    {
        let kv = key.to_mdb_value();
        let st = txn.db_state(db.dbi);
        proof {
            lemma_db_wf_vals_nonempty(&db.key_ord, &db.dup_ord, st@);
            lemma_db_find_from(db.key_ord, st@, key.mdb_bytes(), 0);
        }
        let (p, found) = db_seek(&db.key_ord, &st.entries, kv.get_ref());
        if found {
            self.pos = Some((p, 0));
            Ok(())
        } else {
            self.pos = None;
            Err(MdbError::NotFound)
        }
    }

    /// Move to the first value of the nearest key at or above `key`;
    /// `NotFound` when every key is below it.
    pub fn to_range<C: KeyOrd, D: KeyOrd, K: ToMdbValue>(
        &mut self,
        txn: &Transaction,
        db: &DbHandle<C, D>,
        key: &K,
    ) -> (r: Result<(), MdbError>)
        requires
            db.dbi < txn.dbs().len(),
            db_wf(db.key_ord, db.dup_ord, txn.dbs()[db.dbi as int]),
        ensures
            final(self).valid_for(txn.dbs()[db.dbi as int]),
            ({
                let dbv = txn.dbs()[db.dbi as int];
                let l = db_lower(db.key_ord, dbv, key.mdb_bytes());
                if l < dbv.len() {
                    r == Ok::<(), MdbError>(()) && final(self).pos_spec() == Some((l, 0int))
                } else {
                    r == Err::<(), MdbError>(MdbError::NotFound) && final(self).pos_spec() is None
                }
            }),
    {
        let kv = key.to_mdb_value();
        let st = txn.db_state(db.dbi);
        proof {
            lemma_db_wf_vals_nonempty(&db.key_ord, &db.dup_ord, st@);
            lemma_db_lower_from(db.key_ord, st@, key.mdb_bytes(), 0);
        }
        let (p, _) = db_seek(&db.key_ord, &st.entries, kv.get_ref());
        if p < st.entries.len() {
            self.pos = Some((p, 0));
            Ok(())
        } else {
            self.pos = None;
            Err(MdbError::NotFound)
        }
    }

    /// Move to the next key's first value; `NotFound` at the end, keeping
    /// the position; `Invalid` while unpositioned.
    pub fn next<C: KeyOrd, D: KeyOrd>(&mut self, txn: &Transaction, db: &DbHandle<C, D>) -> (r:
        Result<(), MdbError>)
        requires
            db.dbi < txn.dbs().len(),
            db_wf(db.key_ord, db.dup_ord, txn.dbs()[db.dbi as int]),
            old(self).valid_for(txn.dbs()[db.dbi as int]),
        ensures
            final(self).valid_for(txn.dbs()[db.dbi as int]),
            ({
                let dbv = txn.dbs()[db.dbi as int];
                match old(self).pos_spec() {
                    None => r == Err::<(), MdbError>(MdbError::Invalid) && final(self).pos_spec()
                        is None,
                    Some(p) => if p.0 + 1 < dbv.len() {
                        r == Ok::<(), MdbError>(()) && final(self).pos_spec() == Some(
                            (p.0 + 1, 0int),
                        )
                    } else {
                        r == Err::<(), MdbError>(MdbError::NotFound) && final(self).pos_spec()
                            == old(self).pos_spec()
                    },
                }
            }),
    {
        let st = txn.db_state(db.dbi);
        proof {
            lemma_db_wf_vals_nonempty(&db.key_ord, &db.dup_ord, st@);
        }
        match self.pos {
            None => Err(MdbError::Invalid),
            Some(p) => {
                let n = st.entries.len();
                proof {
                    assert(p.0 < n);
                }
                if p.0 + 1 < n {
                    self.pos = Some((p.0 + 1, 0));
                    Ok(())
                } else {
                    Err(MdbError::NotFound)
                }
            },
        }
    }

    /// Move to the previous key's first value; `NotFound` at the start,
    /// keeping the position; `Invalid` while unpositioned.
    pub fn prev<C: KeyOrd, D: KeyOrd>(&mut self, txn: &Transaction, db: &DbHandle<C, D>) -> (r:
        Result<(), MdbError>)
        requires
            db.dbi < txn.dbs().len(),
            db_wf(db.key_ord, db.dup_ord, txn.dbs()[db.dbi as int]),
            old(self).valid_for(txn.dbs()[db.dbi as int]),
        ensures
            final(self).valid_for(txn.dbs()[db.dbi as int]),
            ({
                let dbv = txn.dbs()[db.dbi as int];
                match old(self).pos_spec() {
                    None => r == Err::<(), MdbError>(MdbError::Invalid) && final(self).pos_spec()
                        is None,
                    Some(p) => if p.0 > 0 {
                        r == Ok::<(), MdbError>(()) && final(self).pos_spec() == Some(
                            (p.0 - 1, 0int),
                        )
                    } else {
                        r == Err::<(), MdbError>(MdbError::NotFound) && final(self).pos_spec()
                            == old(self).pos_spec()
                    },
                }
            }),
    {
        let st = txn.db_state(db.dbi);
        proof {
            lemma_db_wf_vals_nonempty(&db.key_ord, &db.dup_ord, st@);
        }
        match self.pos {
            None => Err(MdbError::Invalid),
            Some(p) => {
                if p.0 > 0 {
                    self.pos = Some((p.0 - 1, 0));
                    Ok(())
                } else {
                    Err(MdbError::NotFound)
                }
            },
        }
    }

    /// Move to the next duplicate of the current key; `NotFound` past the
    /// last one, keeping the position; `Invalid` while unpositioned.
    pub fn next_item<C: KeyOrd, D: KeyOrd>(&mut self, txn: &Transaction, db: &DbHandle<C, D>) -> (r:
        Result<(), MdbError>)
        requires
            db.dbi < txn.dbs().len(),
            db_wf(db.key_ord, db.dup_ord, txn.dbs()[db.dbi as int]),
            old(self).valid_for(txn.dbs()[db.dbi as int]),
        ensures
            final(self).valid_for(txn.dbs()[db.dbi as int]),
            ({
                let dbv = txn.dbs()[db.dbi as int];
                match old(self).pos_spec() {
                    None => r == Err::<(), MdbError>(MdbError::Invalid) && final(self).pos_spec()
                        is None,
                    Some(p) => if p.1 + 1 < dbv[p.0].1.len() {
                        r == Ok::<(), MdbError>(()) && final(self).pos_spec() == Some(
                            (p.0, p.1 + 1),
                        )
                    } else {
                        r == Err::<(), MdbError>(MdbError::NotFound) && final(self).pos_spec()
                            == old(self).pos_spec()
                    },
                }
            }),
    {
        let st = txn.db_state(db.dbi);
        match self.pos {
            None => Err(MdbError::Invalid),
            Some(p) => {
                let e = &st.entries[p.0];
                let m = e.vals.len();
                proof {
                    assert(st@[p.0 as int] == e@);
                    assert(p.1 < m);
                }
                if p.1 + 1 < m {
                    self.pos = Some((p.0, p.1 + 1));
                    Ok(())
                } else {
                    Err(MdbError::NotFound)
                }
            },
        }
    }

    /// Move to the previous duplicate of the current key; `NotFound` before
    /// the first one, keeping the position; `Invalid` while unpositioned.
    pub fn prev_item<C: KeyOrd, D: KeyOrd>(&mut self, txn: &Transaction, db: &DbHandle<C, D>) -> (r:
        Result<(), MdbError>)
        requires
            db.dbi < txn.dbs().len(),
            db_wf(db.key_ord, db.dup_ord, txn.dbs()[db.dbi as int]),
            old(self).valid_for(txn.dbs()[db.dbi as int]),
        ensures
            final(self).valid_for(txn.dbs()[db.dbi as int]),
            ({
                match old(self).pos_spec() {
                    None => r == Err::<(), MdbError>(MdbError::Invalid) && final(self).pos_spec()
                        is None,
                    Some(p) => if p.1 > 0 {
                        r == Ok::<(), MdbError>(()) && final(self).pos_spec() == Some(
                            (p.0, p.1 - 1),
                        )
                    } else {
                        r == Err::<(), MdbError>(MdbError::NotFound) && final(self).pos_spec()
                            == old(self).pos_spec()
                    },
                }
            }),
    {
        match self.pos {
            None => Err(MdbError::Invalid),
            Some(p) => {
                if p.1 > 0 {
                    self.pos = Some((p.0, p.1 - 1));
                    Ok(())
                } else {
                    Err(MdbError::NotFound)
                }
            },
        }
    }

    /// Read the key and value at the position; `Invalid` while
    /// unpositioned.
    pub fn get<C: KeyOrd, D: KeyOrd>(&self, txn: &Transaction, db: &DbHandle<C, D>) -> (r: Result<
        (MdbValue, MdbValue),
        MdbError,
    >)
        requires
            db.dbi < txn.dbs().len(),
            self.valid_for(txn.dbs()[db.dbi as int]),
        ensures
            ({
                let dbv = txn.dbs()[db.dbi as int];
                match self.pos_spec() {
                    None => r == Err::<(MdbValue, MdbValue), MdbError>(MdbError::Invalid),
                    Some(p) => (r matches Ok(kv) && kv.0@ == dbv[p.0].0 && kv.1@ == dbv[p.0].1[p.1]),
                }
            }),
    {
        let st = txn.db_state(db.dbi);
        match self.pos {
            None => Err(MdbError::Invalid),
            Some(p) => {
                let e = &st.entries[p.0];
                proof {
                    assert(st@[p.0 as int] == e@);
                }
                Ok((MdbValue::new(copy_bytes(&e.key)), MdbValue::new(copy_bytes(&e.vals[p.1]))))
            },
        }
    }

    /// Read the key at the position; `Invalid` while unpositioned.
    pub fn get_key<C: KeyOrd, D: KeyOrd>(&self, txn: &Transaction, db: &DbHandle<C, D>) -> (r:
        Result<MdbValue, MdbError>)
        requires
            db.dbi < txn.dbs().len(),
            self.valid_for(txn.dbs()[db.dbi as int]),
        ensures
            ({
                let dbv = txn.dbs()[db.dbi as int];
                match self.pos_spec() {
                    None => r == Err::<MdbValue, MdbError>(MdbError::Invalid),
                    Some(p) => (r matches Ok(kv) && kv@ == dbv[p.0].0),
                }
            }),
    {
        let st = txn.db_state(db.dbi);
        match self.pos {
            None => Err(MdbError::Invalid),
            Some(p) => {
                let e = &st.entries[p.0];
                proof {
                    assert(st@[p.0 as int] == e@);
                }
                Ok(MdbValue::new(copy_bytes(&e.key)))
            },
        }
    }

    /// Read the value at the position; `Invalid` while unpositioned.
    pub fn get_value<C: KeyOrd, D: KeyOrd>(&self, txn: &Transaction, db: &DbHandle<C, D>) -> (r:
        Result<MdbValue, MdbError>)
        requires
            db.dbi < txn.dbs().len(),
            self.valid_for(txn.dbs()[db.dbi as int]),
        ensures
            ({
                let dbv = txn.dbs()[db.dbi as int];
                match self.pos_spec() {
                    None => r == Err::<MdbValue, MdbError>(MdbError::Invalid),
                    Some(p) => (r matches Ok(kv) && kv@ == dbv[p.0].1[p.1]),
                }
            }),
    {
        let st = txn.db_state(db.dbi);
        match self.pos {
            None => Err(MdbError::Invalid),
            Some(p) => {
                let e = &st.entries[p.0];
                proof {
                    assert(st@[p.0 as int] == e@);
                }
                Ok(MdbValue::new(copy_bytes(&e.vals[p.1])))
            },
        }
    }

    /// The number of duplicates of the current key; `Invalid` while
    /// unpositioned.
    pub fn item_count<C: KeyOrd, D: KeyOrd>(&self, txn: &Transaction, db: &DbHandle<C, D>) -> (r:
        Result<usize, MdbError>)
        requires
            db.dbi < txn.dbs().len(),
            self.valid_for(txn.dbs()[db.dbi as int]),
        ensures
            ({
                let dbv = txn.dbs()[db.dbi as int];
                match self.pos_spec() {
                    None => r == Err::<usize, MdbError>(MdbError::Invalid),
                    Some(p) => r == Ok::<usize, MdbError>(dbv[p.0].1.len() as usize),
                }
            }),
    {
        let st = txn.db_state(db.dbi);
        match self.pos {
            None => Err(MdbError::Invalid),
            Some(p) => {
                let e = &st.entries[p.0];
                proof {
                    assert(st@[p.0 as int] == e@);
                }
                Ok(e.vals.len())
            },
        }
    }

    /// Add `value` under the current key and move to it; `MapFull` as for
    /// `set`, keeping position and data; `Invalid` while unpositioned.
    pub fn add_item<C: KeyOrd, D: KeyOrd, V: ToMdbValue>(
        &mut self,
        txn: &mut Transaction,
        db: &DbHandle<C, D>,
        value: &V,
    ) -> (r: Result<(), MdbError>)
        requires
            db.dbi < old(txn).dbs().len(),
            db_wf(db.key_ord, db.dup_ord, old(txn).dbs()[db.dbi as int]),
            old(self).valid_for(old(txn).dbs()[db.dbi as int]),
            old(self).pos_spec() is Some,
        ensures
            final(txn).capacity() == old(txn).capacity(),
            final(txn).dbs_flags() == old(txn).dbs_flags(),
            final(txn).dbs().len() == old(txn).dbs().len(),
            db_wf(db.key_ord, db.dup_ord, final(txn).dbs()[db.dbi as int]),
            final(self).valid_for(final(txn).dbs()[db.dbi as int]),
            ({
                let dbv = old(txn).dbs()[db.dbi as int];
                let p = old(self).pos_spec().unwrap();
                let k = dbv[p.0].0;
                let nd = db_set(db.key_ord, db.dup_ord, dbv, k, value.mdb_bytes(), db.flags.allow_dups);
                let ns = old(txn).dbs().update(db.dbi as int, nd);
                if store_bytes(ns) > old(txn).capacity() {
                    r == Err::<(), MdbError>(MdbError::MapFull) && final(txn).dbs() == old(txn).dbs() && final(self).pos_spec() == old(self).pos_spec()
                } else {
                    r == Ok::<(), MdbError>(()) && final(txn).dbs() == ns && final(self).pos_spec() == Some(
                        (
                            db_find(db.key_ord, nd, k),
                            dup_find(db.dup_ord, nd[db_find(db.key_ord, nd, k)].1, value.mdb_bytes()),
                        ),
                    )
                }
            }),
    {
        let ghost dbv = old(txn).dbs()[db.dbi as int];
        let vv = value.to_mdb_value();
        let dbi = db.dbi;
        let pe = match self.pos {
            Some(p) => p.0,
            None => {
                proof {
                    assert(false);
                }
                0
            },
        };
        let key_copy = {
            let st = txn.db_state(dbi);
            let e = &st.entries[pe];
            proof {
                assert(st@[pe as int] == e@);
            }
            copy_bytes(&e.key)
        };
        let ghost k = dbv[pe as int].0;
        let cand = {
            let st = txn.db_state(dbi);
            db_set_build(
                &db.key_ord,
                &db.dup_ord,
                &st.entries,
                key_copy.as_slice(),
                vv.get_ref(),
                db.flags.allow_dups,
            )
        };
        proof {
            lemma_db_find_at(&db.key_ord, dbv, pe as int);
            lemma_db_set_wf(&db.key_ord, &db.dup_ord, dbv, k, value.mdb_bytes(), db.flags.allow_dups);
        }
        match txn.finish_write(dbi, cand) {
            Ok(()) => {
                let ghost nd = db_set(
                    db.key_ord,
                    db.dup_ord,
                    dbv,
                    k,
                    value.mdb_bytes(),
                    db.flags.allow_dups,
                );
                proof {
                    assert(nd[pe as int].0 == k);
                    lemma_db_find_at(&db.key_ord, nd, pe as int);
                    if db.flags.allow_dups {
                        assert(dups_sorted_of(db.dup_ord, dbv[pe as int].1));
                        lemma_dups_add_find(&db.dup_ord, dbv[pe as int].1, value.mdb_bytes());
                    } else {
                        crate::order::lemma_eqv_refl(&db.dup_ord, value.mdb_bytes());
                        assert(nd[pe as int].1 == seq![value.mdb_bytes()]);
                        assert(dup_find(db.dup_ord, nd[pe as int].1, value.mdb_bytes()) == 0);
                    }
                    crate::store::lemma_dup_find_from(
                        db.dup_ord,
                        nd[pe as int].1,
                        value.mdb_bytes(),
                        0,
                    );
                }
                let st2 = txn.db_state(dbi);
                proof {
                    assert(st2@ == nd);
                }
                let (pe2, found2) = db_seek(&db.key_ord, &st2.entries, key_copy.as_slice());
                proof {
                    assert(found2);
                    assert(pe2 as int == db_find(db.key_ord, nd, k));
                    assert(pe2 as int == pe as int);
                }
                let e2 = &st2.entries[pe2];
                proof {
                    assert(st2@[pe2 as int] == e2@);
                    assert(crate::store::dups_wf(db.dup_ord, nd[pe2 as int].1));
                }
                let (pd2, foundd) = dup_seek(&db.dup_ord, &e2.vals, vv.get_ref());
                proof {
                    assert(foundd);
                }
                self.pos = Some((pe2, pd2));
                Ok(())
            },
            Err(e) => Err(e),
        }
    }

    /// Remove the duplicate at the position. The cursor stays on the entry
    /// (clamped to its last value); when the entry's last value goes, it
    /// moves to the next entry or becomes unpositioned. `Invalid` while
    /// unpositioned.
    pub fn del_item<C: KeyOrd, D: KeyOrd>(&mut self, txn: &mut Transaction, db: &DbHandle<C, D>) -> (r:
        Result<(), MdbError>)
        requires
            db.dbi < old(txn).dbs().len(),
            db_wf(db.key_ord, db.dup_ord, old(txn).dbs()[db.dbi as int]),
            old(self).valid_for(old(txn).dbs()[db.dbi as int]),
            old(self).pos_spec() is Some,
        ensures
            final(txn).capacity() == old(txn).capacity(),
            final(txn).dbs_flags() == old(txn).dbs_flags(),
            final(txn).dbs().len() == old(txn).dbs().len(),
            db_wf(db.key_ord, db.dup_ord, final(txn).dbs()[db.dbi as int]),
            final(self).valid_for(final(txn).dbs()[db.dbi as int]),
            r is Ok,
            ({
                let dbv = old(txn).dbs()[db.dbi as int];
                let p = old(self).pos_spec().unwrap();
                let k = dbv[p.0].0;
                let v = dbv[p.0].1[p.1];
                let nd = db_del_item(db.key_ord, db.dup_ord, dbv, k, v);
                &&& final(txn).dbs() == old(txn).dbs().update(db.dbi as int, nd)
                &&& (nd.len() == dbv.len() ==> final(self).pos_spec() == Some(
                    (p.0, if p.1 < nd[p.0].1.len() { p.1 } else { nd[p.0].1.len() - 1 }),
                ))
                &&& (nd.len() < dbv.len() && p.0 < nd.len() ==> final(self).pos_spec() == Some(
                    (p.0, 0int),
                ))
                &&& (nd.len() < dbv.len() && p.0 >= nd.len() ==> final(self).pos_spec() is None)
            }),
    {
        let ghost dbv = old(txn).dbs()[db.dbi as int];
        let dbi = db.dbi;
        let p = match self.pos {
            Some(p) => p,
            None => {
                proof {
                    assert(false);
                }
                (0, 0)
            },
        };
        let (key_copy, val_copy) = {
            let st = txn.db_state(dbi);
            let e = &st.entries[p.0];
            proof {
                assert(st@[p.0 as int] == e@);
                crate::store::lemma_bytes_deep_view(e.vals@[p.1 as int]);
            }
            (copy_bytes(&e.key), copy_bytes(&e.vals[p.1]))
        };
        proof {
            assert(key_copy@ == dbv[p.0 as int].0);
            assert(val_copy@ == dbv[p.0 as int].1[p.1 as int]);
            lemma_db_find_at(&db.key_ord, dbv, p.0 as int);
            assert(dups_sorted_of(db.dup_ord, dbv[p.0 as int].1));
            lemma_dup_find_at(&db.dup_ord, dbv[p.0 as int].1, p.1 as int);
        }
        let ghost nd = db_del_item(
            db.key_ord,
            db.dup_ord,
            dbv,
            dbv[p.0 as int].0,
            dbv[p.0 as int].1[p.1 as int],
        );
        let cand = {
            let st = txn.db_state(dbi);
            let (c, _had) = db_del_item_build(
                &db.key_ord,
                &db.dup_ord,
                &st.entries,
                key_copy.as_slice(),
                val_copy.as_slice(),
            );
            c
        };
        proof {
            assert(crate::store::db_view(cand@) == nd);
            lemma_db_wf_vals_nonempty(&db.key_ord, &db.dup_ord, crate::store::db_view(cand@));
        }
        let new_len = cand.len();
        let entry_survived = {
            let st = txn.db_state(dbi);
            new_len == st.entries.len()
        };
        if entry_survived {
            let e2 = &cand[p.0];
            let m = e2.vals.len();
            proof {
                assert(crate::store::db_view(cand@)[p.0 as int] == e2@);
                assert(nd[p.0 as int].1.len() >= 1);
            }
            if p.1 < m {
                self.pos = Some((p.0, p.1));
            } else {
                self.pos = Some((p.0, m - 1));
            }
        } else {
            if p.0 < new_len {
                proof {
                    assert(nd[p.0 as int].1.len() >= 1);
                }
                self.pos = Some((p.0, 0));
            } else {
                self.pos = None;
            }
        }
        txn.install_db(dbi, cand);
        Ok(())
    }

    /// Remove the current key with all its duplicates, leaving the cursor
    /// unpositioned. `Invalid` while unpositioned.
    pub fn del_all<C: KeyOrd, D: KeyOrd>(&mut self, txn: &mut Transaction, db: &DbHandle<C, D>) -> (r:
        Result<(), MdbError>)
        requires
            db.dbi < old(txn).dbs().len(),
            db_wf(db.key_ord, db.dup_ord, old(txn).dbs()[db.dbi as int]),
            old(self).valid_for(old(txn).dbs()[db.dbi as int]),
            old(self).pos_spec() is Some,
        ensures
            final(txn).capacity() == old(txn).capacity(),
            final(txn).dbs_flags() == old(txn).dbs_flags(),
            final(txn).dbs().len() == old(txn).dbs().len(),
            db_wf(db.key_ord, db.dup_ord, final(txn).dbs()[db.dbi as int]),
            final(self).pos_spec() is None,
            r is Ok,
            ({
                let dbv = old(txn).dbs()[db.dbi as int];
                let p = old(self).pos_spec().unwrap();
                final(txn).dbs() == old(txn).dbs().update(
                    db.dbi as int,
                    db_del(db.key_ord, dbv, dbv[p.0].0),
                )
            }),
    {
        let ghost dbv = old(txn).dbs()[db.dbi as int];
        let dbi = db.dbi;
        let p = match self.pos {
            Some(p) => p,
            None => {
                proof {
                    assert(false);
                }
                (0, 0)
            },
        };
        let key_copy = {
            let st = txn.db_state(dbi);
            let e = &st.entries[p.0];
            proof {
                assert(st@[p.0 as int] == e@);
            }
            copy_bytes(&e.key)
        };
        proof {
            lemma_db_find_at(&db.key_ord, dbv, p.0 as int);
        }
        let cand = {
            let st = txn.db_state(dbi);
            let (c, _had) = db_del_build(&db.key_ord, &db.dup_ord, &st.entries, key_copy.as_slice());
            c
        };
        self.pos = None;
        txn.install_db(dbi, cand);
        Ok(())
    }

    /// Replace the value at the position with `value`: the old duplicate is
    /// removed and the new one inserted in order, and the cursor moves to
    /// it. On `MapFull` the removal stands but the insertion does not, as
    /// with an explicit delete and re-insert, and the cursor becomes
    /// unpositioned. `Invalid` while unpositioned.
    pub fn replace<C: KeyOrd, D: KeyOrd, V: ToMdbValue>(
        &mut self,
        txn: &mut Transaction,
        db: &DbHandle<C, D>,
        value: &V,
    ) -> (r: Result<(), MdbError>)
        requires
            db.dbi < old(txn).dbs().len(),
            db_wf(db.key_ord, db.dup_ord, old(txn).dbs()[db.dbi as int]),
            old(self).valid_for(old(txn).dbs()[db.dbi as int]),
            old(self).pos_spec() is Some,
        ensures
            final(txn).capacity() == old(txn).capacity(),
            final(txn).dbs_flags() == old(txn).dbs_flags(),
            final(txn).dbs().len() == old(txn).dbs().len(),
            db_wf(db.key_ord, db.dup_ord, final(txn).dbs()[db.dbi as int]),
            final(self).valid_for(final(txn).dbs()[db.dbi as int]),
            ({
                let dbv = old(txn).dbs()[db.dbi as int];
                let p = old(self).pos_spec().unwrap();
                let k = dbv[p.0].0;
                let curv = dbv[p.0].1[p.1];
                let mid = db_del_item(db.key_ord, db.dup_ord, dbv, k, curv);
                let nd = db_set(db.key_ord, db.dup_ord, mid, k, value.mdb_bytes(), db.flags.allow_dups);
                let ns = old(txn).dbs().update(db.dbi as int, nd);
                if store_bytes(ns) > old(txn).capacity() {
                    r == Err::<(), MdbError>(MdbError::MapFull) && final(txn).dbs() == old(txn).dbs().update(db.dbi as int, mid) && final(self).pos_spec() is None
                } else {
                    r == Ok::<(), MdbError>(()) && final(txn).dbs() == ns && final(self).pos_spec() == Some(
                        (
                            db_find(db.key_ord, nd, k),
                            dup_find(db.dup_ord, nd[db_find(db.key_ord, nd, k)].1, value.mdb_bytes()),
                        ),
                    )
                }
            }),
    {
        let ghost dbv = old(txn).dbs()[db.dbi as int];
        let vv = value.to_mdb_value();
        let dbi = db.dbi;
        let p = match self.pos {
            Some(p) => p,
            None => {
                proof {
                    assert(false);
                }
                (0, 0)
            },
        };
        let (key_copy, val_copy) = {
            let st = txn.db_state(dbi);
            let e = &st.entries[p.0];
            proof {
                assert(st@[p.0 as int] == e@);
                crate::store::lemma_bytes_deep_view(e.vals@[p.1 as int]);
            }
            (copy_bytes(&e.key), copy_bytes(&e.vals[p.1]))
        };
        let ghost k = dbv[p.0 as int].0;
        proof {
            assert(key_copy@ == k);
            assert(val_copy@ == dbv[p.0 as int].1[p.1 as int]);
            lemma_db_find_at(&db.key_ord, dbv, p.0 as int);
            assert(dups_sorted_of(db.dup_ord, dbv[p.0 as int].1));
            lemma_dup_find_at(&db.dup_ord, dbv[p.0 as int].1, p.1 as int);
        }
        let cand1 = {
            let st = txn.db_state(dbi);
            let (c, _had) = db_del_item_build(
                &db.key_ord,
                &db.dup_ord,
                &st.entries,
                key_copy.as_slice(),
                val_copy.as_slice(),
            );
            c
        };
        txn.install_db(dbi, cand1);
        let ghost mid = db_del_item(db.key_ord, db.dup_ord, dbv, k, dbv[p.0 as int].1[p.1 as int]);
        let cand2 = {
            let st = txn.db_state(dbi);
            proof {
                assert(st@ == mid);
            }
            db_set_build(
                &db.key_ord,
                &db.dup_ord,
                &st.entries,
                key_copy.as_slice(),
                vv.get_ref(),
                db.flags.allow_dups,
            )
        };
        let ghost nd = db_set(db.key_ord, db.dup_ord, mid, k, value.mdb_bytes(), db.flags.allow_dups);
        proof {
            assert(old(txn).dbs().update(dbi as int, mid).update(dbi as int, nd) =~= old(txn).dbs().update(dbi as int, nd));
            lemma_db_set_wf(&db.key_ord, &db.dup_ord, mid, k, value.mdb_bytes(), db.flags.allow_dups);
        }
        match txn.finish_write(dbi, cand2) {
            Ok(()) => {
                proof {
                    lemma_db_find_from(db.key_ord, nd, k, 0);
                    lemma_set_find_some(
                        &db.key_ord,
                        &db.dup_ord,
                        mid,
                        k,
                        value.mdb_bytes(),
                        db.flags.allow_dups,
                    );
                    crate::store::lemma_dup_find_from(
                        db.dup_ord,
                        nd[db_find(db.key_ord, nd, k)].1,
                        value.mdb_bytes(),
                        0,
                    );
                }
                let st2 = txn.db_state(dbi);
                proof {
                    assert(st2@ == nd);
                }
                let (pe2, found2) = db_seek(&db.key_ord, &st2.entries, key_copy.as_slice());
                proof {
                    assert(found2);
                    assert(pe2 as int == db_find(db.key_ord, nd, k));
                }
                let e2 = &st2.entries[pe2];
                proof {
                    assert(st2@[pe2 as int] == e2@);
                    assert(crate::store::dups_wf(db.dup_ord, nd[pe2 as int].1));
                }
                let (pd2, foundd) = dup_seek(&db.dup_ord, &e2.vals, vv.get_ref());
                proof {
                    assert(foundd);
                }
                self.pos = Some((pe2, pd2));
                Ok(())
            },
            Err(e) => {
                self.pos = None;
                Err(e)
            },
        }
    }
}

/// Shorthand: the duplicate list of one entry is sorted.
pub open spec fn dups_sorted_of<D: KeyOrd>(d: D, vs: Seq<Seq<u8>>) -> bool {
    forall|p: int, q: int| 0 <= p < q < vs.len() ==> crate::order::ord_lt(d, #[trigger] vs[p], #[trigger] vs[q])
}

/// After `db_set`, a key equal to the one set is present, and the value set
/// is among its duplicates.
proof fn lemma_set_find_some<C: KeyOrd, D: KeyOrd>(
    c: &C,
    d: &D,
    db: DbView,
    k: Seq<u8>,
    v: Seq<u8>,
    allow_dups: bool,
)
    requires
        db_wf(*c, *d, db),
    ensures
        ({
            let nd = db_set(*c, *d, db, k, v, allow_dups);
            let f = db_find(*c, nd, k);
            &&& 0 <= f < nd.len()
            &&& 0 <= dup_find(*d, nd[f].1, v) < nd[f].1.len()
        }),
{
    let nd = db_set(*c, *d, db, k, v, allow_dups);
    lemma_db_set_wf(c, d, db, k, v, allow_dups);
    let f0 = db_find(*c, db, k);
    lemma_db_find_from(*c, db, k, 0);
    if f0 >= 0 {
        assert(nd[f0].0 == db[f0].0);
        crate::order::lemma_eqv_refl(c, k);
        lemma_db_find_from(*c, nd, k, 0);
        lemma_db_find_unique(c, nd, k);
        let f = db_find(*c, nd, k);
        assert(crate::order::ord_eqv(*c, nd[f0].0, k));
        assert(f == f0);
        if allow_dups {
            lemma_dups_add_find(d, db[f0].1, v);
        } else {
            assert(nd[f0].1 == seq![v]);
            crate::order::lemma_eqv_refl(d, v);
            assert(nd[f0].1[0] == v);
        }
    } else {
        let l = db_lower(*c, db, k);
        lemma_db_lower_from(*c, db, k, 0);
        db.insert_ensures(l, (k, seq![v]));
        assert(nd[l] == (k, seq![v]));
        lemma_db_find_at(c, nd, l);
        crate::order::lemma_eqv_refl(d, v);
        assert(nd[l].1[0] == v);
        lemma_dup_find_at(d, nd[l].1, 0);
    }
}

impl Transaction {
    /// Open a cursor over one database of this transaction; it begins
    /// unpositioned.
    pub fn new_cursor<C: KeyOrd, D: KeyOrd>(&self, db: &DbHandle<C, D>) -> (r: Result<
        Cursor,
        MdbError,
    >)
        ensures
            r matches Ok(cur) && cur.pos_spec() is None,
    {
        Ok(Cursor { pos: None })
    }
}

} // verus!
