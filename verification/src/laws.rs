//! Laws of the store model: what reads see after writes, and in what order
//! iteration serves its pairs.
//!
//! Each law is stated over the same spec functions that the transactional
//! operations' contracts use, so it carries over to the executable layer:
//! `Transaction::set` ends in `db_set`, `commit` publishes the working
//! databases verbatim, and `Environment::get_reader` hands a fresh
//! read-only transaction exactly the committed databases.

use vstd::prelude::*;
use crate::order::{lemma_eqv_refl, lemma_trichotomy, ord_eqv, ord_lt, KeyOrd};
use crate::store::{
    db_del, db_del_item, db_find, db_get, db_has_key, db_lower, db_pairs, db_set,
    db_wf, dup_find, dup_lower, dups_add, dups_del, entry_pairs, lemma_db_find_at,
    lemma_db_find_from, lemma_db_find_from_none, lemma_db_find_unique, lemma_db_lower_from,
    lemma_db_set_wf, lemma_dup_find_from, lemma_dup_lower_from, DbView,
};

verus! {

/// Law: a write is read back. Upserting `(k, v)` into a well-formed
/// database and looking `k` up yields `v`, provided the upsert replaces (no
/// duplicates) or the key is fresh; under duplicates an older, lower value
/// would be served first instead. Committing publishes the working
/// databases verbatim and a fresh reader sees them verbatim, so the same
/// holds across a commit.
pub proof fn lemma_set_then_get<C: KeyOrd, D: KeyOrd>(
    c: &C,
    d: &D,
    db: DbView,
    k: Seq<u8>,
    v: Seq<u8>,
    allow_dups: bool,
)
    requires
        db_wf(*c, *d, db),
        !allow_dups || !db_has_key(*c, db, k),
    ensures
        db_get(*c, db_set(*c, *d, db, k, v, allow_dups), k) == Some(v),
{
    let nd = db_set(*c, *d, db, k, v, allow_dups);
    lemma_db_set_wf(c, d, db, k, v, allow_dups);
    let f0 = db_find(*c, db, k);
    lemma_db_find_from(*c, db, k, 0);
    lemma_eqv_refl(c, k);
    if f0 >= 0 {
        assert(nd[f0] == (db[f0].0, seq![v]));
        lemma_db_find_from(*c, nd, k, 0);
        lemma_db_find_unique(c, nd, k);
        let f = db_find(*c, nd, k);
        assert(ord_eqv(*c, nd[f0].0, k));
        assert(f == f0);
        assert(nd[f].1[0] == v);
    } else {
        let l = db_lower(*c, db, k);
        lemma_db_lower_from(*c, db, k, 0);
        db.insert_ensures(l, (k, seq![v]));
        assert(nd[l] == (k, seq![v]));
        lemma_db_find_at(c, nd, l);
        assert(nd[l].1[0] == v);
    }
}

/// Law: a deleted key is gone. After removing `k` from a well-formed
/// database, looking `k` up finds nothing, whatever was stored before.
pub proof fn lemma_del_then_get<C: KeyOrd, D: KeyOrd>(c: &C, d: &D, db: DbView, k: Seq<u8>)
    requires
        db_wf(*c, *d, db),
    ensures
        db_get(*c, db_del(*c, db, k), k) is None,
{
    let f = db_find(*c, db, k);
    lemma_db_find_from(*c, db, k, 0);
    if f >= 0 {
        lemma_db_find_unique(c, db, k);
        let nd = db.remove(f);
        db.remove_ensures(f);
        assert forall|j: int| 0 <= j < nd.len() implies !ord_eqv(*c, (#[trigger] nd[j]).0, k) by {
            if j < f {
                assert(nd[j] == db[j]);
            } else {
                assert(nd[j] == db[j + 1]);
            }
        }
        lemma_db_find_from_none(*c, nd, k, 0);
    }
}

/// Law: the lowest duplicate is served first, and deleting it uncovers the
/// next. With `k` fresh and `v1` sorting before `v2`, after upserting
/// `(k, v1)` then `(k, v2)` under duplicates, a lookup yields `v1`; after
/// deleting the item `(k, v1)`, it yields `v2`.
pub proof fn lemma_dup_order<C: KeyOrd, D: KeyOrd>(
    c: &C,
    d: &D,
    db: DbView,
    k: Seq<u8>,
    v1: Seq<u8>,
    v2: Seq<u8>,
)
    requires
        db_wf(*c, *d, db),
        !db_has_key(*c, db, k),
        ord_lt(*d, v1, v2),
    ensures
        ({
            let db1 = db_set(*c, *d, db, k, v1, true);
            let db2 = db_set(*c, *d, db1, k, v2, true);
            &&& db_get(*c, db2, k) == Some(v1)
            &&& db_get(*c, db_del_item(*c, *d, db2, k, v1), k) == Some(v2)
        }),
{
    let db1 = db_set(*c, *d, db, k, v1, true);
    lemma_db_set_wf(c, d, db, k, v1, true);
    lemma_db_find_from(*c, db, k, 0);
    lemma_eqv_refl(c, k);
    lemma_eqv_refl(d, v1);
    lemma_trichotomy(d, v1, v2);
    let l = db_lower(*c, db, k);
    lemma_db_lower_from(*c, db, k, 0);
    db.insert_ensures(l, (k, seq![v1]));
    assert(db1[l] == (k, seq![v1]));
    lemma_db_find_at(c, db1, l);

    let db2 = db_set(*c, *d, db1, k, v2, true);
    lemma_db_set_wf(c, d, db1, k, v2, true);
    let vs1 = seq![v1];
    lemma_dup_find_from(*d, vs1, v2, 0);
    lemma_dup_lower_from(*d, vs1, v2, 0);
    assert(dup_find(*d, vs1, v2) == -1);
    assert(dup_lower(*d, vs1, v2) == 1);
    let vs2 = dups_add(*d, vs1, v2);
    vs1.insert_ensures(1, v2);
    assert(vs2 =~= seq![v1, v2]);
    assert(db2 == db1.update(l, (db1[l].0, vs2)));
    assert(db2[l].0 == k);
    lemma_db_find_at(c, db2, l);
    assert(db_get(*c, db2, k) == Some(v1));

    let db3 = db_del_item(*c, *d, db2, k, v1);
    lemma_dup_find_from(*d, vs2, v1, 0);
    assert(dup_find(*d, vs2, v1) == 0);
    let vs3 = dups_del(*d, vs2, v1);
    vs2.remove_ensures(0);
    assert(vs3 =~= seq![v2]);
    assert(db3 == db2.update(l, (db2[l].0, vs3)));
    assert(db3[l].0 == k);
    assert(forall|i: int, j: int|
        0 <= i < j < db3.len() ==> ord_lt(*c, (#[trigger] db3[i]).0, (#[trigger] db3[j]).0));
    lemma_db_find_at(c, db3, l);
    assert(db_get(*c, db3, k) == Some(v2));
}

/// Every pair of a database's pair sequence carries the key of some entry,
/// and a pair from the tail carries a key of a later entry.
proof fn lemma_db_pairs_key(db: DbView, i: int)
    requires
        0 <= i < db_pairs(db).len(),
    ensures
        exists|e: int| 0 <= e < db.len() && db_pairs(db)[i].0 == (#[trigger] db[e]).0,
    decreases db.len(),
{
    let ep = entry_pairs(db[0]);
    let rest = db_pairs(db.skip(1));
    assert(db_pairs(db) == ep + rest);
    if i < ep.len() {
        assert(db_pairs(db)[i] == ep[i]);
        assert(ep[i].0 == db[0].0);
        assert(0 <= 0 < db.len() && db_pairs(db)[i].0 == db[0].0);
    } else {
        lemma_db_pairs_key(db.skip(1), i - ep.len());
        let e0 = choose|e: int|
            0 <= e < db.skip(1).len() && db_pairs(db.skip(1))[i - ep.len()].0 == (#[trigger] db.skip(
                1,
            )[e]).0;
        assert(db.skip(1)[e0] == db[e0 + 1]);
        assert(db_pairs(db)[i] == rest[i - ep.len()]);
        assert(0 <= e0 + 1 < db.len() && db_pairs(db)[i].0 == db[e0 + 1].0);
    }
}

/// Law: iteration follows the registered comparator. In the pair sequence
/// of a well-formed database — what full-table iteration returns — the keys
/// never step backwards under the database's key comparator, whichever
/// comparator that is.
pub proof fn lemma_iter_sorted<C: KeyOrd, D: KeyOrd>(c: &C, d: &D, db: DbView)
    requires
        db_wf(*c, *d, db),
    ensures
        forall|i: int, j: int|
            0 <= i <= j < db_pairs(db).len() ==> c.le(
                (#[trigger] db_pairs(db)[i]).0,
                (#[trigger] db_pairs(db)[j]).0,
            ),
    decreases db.len(),
{
    if db.len() > 0 {
        let tail = db.skip(1);
        assert(forall|x: int| 0 <= x < tail.len() ==> #[trigger] tail[x] == db[x + 1]);
        assert(db_wf(*c, *d, tail)) by {
            assert(forall|i: int, j: int|
                0 <= i < j < tail.len() ==> ord_lt(*c, (#[trigger] tail[i]).0, (#[trigger] tail[j]).0));
            assert(forall|i: int|
                0 <= i < tail.len() ==> crate::store::dups_wf(*d, (#[trigger] tail[i]).1));
        }
        lemma_iter_sorted(c, d, tail);
        let ps = db_pairs(db);
        let ep = entry_pairs(db[0]);
        let rest = db_pairs(tail);
        assert(ps == ep + rest);
        assert forall|i: int, j: int| 0 <= i <= j < ps.len() implies c.le(
            (#[trigger] ps[i]).0,
            (#[trigger] ps[j]).0,
        ) by {
            if j < ep.len() {
                assert(ps[i].0 == db[0].0 && ps[j].0 == db[0].0);
                c.total(db[0].0, db[0].0);
            } else if i < ep.len() {
                assert(ps[i].0 == db[0].0);
                assert(ps[j] == rest[j - ep.len()]);
                lemma_db_pairs_key(tail, j - ep.len());
                let e0 = choose|e: int|
                    0 <= e < tail.len() && db_pairs(tail)[j - ep.len()].0 == (#[trigger] tail[e]).0;
                assert(ps[j].0 == db[e0 + 1].0);
                assert(ord_lt(*c, db[0].0, db[e0 + 1].0));
            } else {
                assert(ps[i] == rest[i - ep.len()]);
                assert(ps[j] == rest[j - ep.len()]);
                assert(c.le(rest[i - ep.len()].0, rest[j - ep.len()].0));
            }
        }
    }
}

} // verus!
