//! The data model of the store.
//!
//! A database is a sequence of entries, each a key with its non-empty,
//! strictly ascending list of duplicate values; the entries themselves are
//! kept strictly ascending by key under the database's comparator. A store
//! is the sequence of all databases of one environment. Every operation of
//! the transactional layer is specified against this model.

use vstd::prelude::*;
use vstd::slice::slice_to_vec;
use vstd::pervasive::VecAdditionalExecFns;
use crate::flags::DbFlags;
use crate::order::{Cmp, KeyOrd, lemma_eqv_lt, lemma_lt_trans, lemma_trichotomy, ord_eqv, ord_lt};
use crate::val::copy_bytes;

verus! {

/// The mathematical shape of one database: keys with their duplicate lists.
pub type DbView = Seq<(Seq<u8>, Seq<Seq<u8>>)>;

/// One key and its duplicate values.
pub struct Entry {
    pub key: Vec<u8>,
    pub vals: Vec<Vec<u8>>,
}

impl View for Entry {
    type V = (Seq<u8>, Seq<Seq<u8>>);

    open spec fn view(&self) -> (Seq<u8>, Seq<Seq<u8>>) {
        (self.key@, self.vals.deep_view())
    }
}

/// One database: its flag set and its entries.
pub struct DbState {
    pub flags: DbFlags,
    pub entries: Vec<Entry>,
}

impl View for DbState {
    type V = DbView;

    open spec fn view(&self) -> DbView {
        db_view(self.entries@)
    }
}

/// All databases of one environment.
pub struct Store {
    pub dbs: Vec<DbState>,
}

impl View for Store {
    type V = Seq<DbView>;

    open spec fn view(&self) -> Seq<DbView> {
        self.dbs@.map_values(|s: DbState| s@)
    }
}

/// The view of a sequence of entries.
pub open spec fn db_view(entries: Seq<Entry>) -> DbView {
    entries.map_values(|e: Entry| e@)
}

/// The flag sets of all databases of a store.
pub open spec fn store_flags(s: Store) -> Seq<DbFlags> {
    s.dbs@.map_values(|st: DbState| st.flags)
}

/// A duplicate list is well-formed: non-empty and strictly ascending.
pub open spec fn dups_wf<D: KeyOrd>(d: D, vs: Seq<Seq<u8>>) -> bool {
    vs.len() >= 1 && (forall|p: int, q: int|
        0 <= p < q < vs.len() ==> ord_lt(d, #[trigger] vs[p], #[trigger] vs[q]))
}

/// The keys of a database are strictly ascending under `c`.
pub open spec fn db_keys_sorted<C: KeyOrd>(c: C, db: DbView) -> bool {
    forall|i: int, j: int|
        0 <= i < j < db.len() ==> ord_lt(c, (#[trigger] db[i]).0, (#[trigger] db[j]).0)
}

/// Every duplicate list of a database is well-formed under `d`.
pub open spec fn db_dups_wf<D: KeyOrd>(d: D, db: DbView) -> bool {
    forall|i: int| 0 <= i < db.len() ==> dups_wf(d, (#[trigger] db[i]).1)
}

/// A database is well-formed under its two comparators.
pub open spec fn db_wf<C: KeyOrd, D: KeyOrd>(c: C, d: D, db: DbView) -> bool {
    db_keys_sorted(c, db) && db_dups_wf(d, db)
}

/// Index of the first entry at or after `i` whose key equals `k`; `-1` if none.
pub open spec fn db_find_from<C: KeyOrd>(c: C, db: DbView, k: Seq<u8>, i: int) -> int
    decreases db.len() - i,
{
    if i < 0 || i >= db.len() {
        -1
    } else if ord_eqv(c, db[i].0, k) {
        i
    } else {
        db_find_from(c, db, k, i + 1)
    }
}

/// Index of the entry whose key equals `k`; `-1` if absent.
pub open spec fn db_find<C: KeyOrd>(c: C, db: DbView, k: Seq<u8>) -> int {
    db_find_from(c, db, k, 0)
}

/// Index of the first entry at or after `i` whose key does not sort before
/// `k`; the length if all do.
pub open spec fn db_lower_from<C: KeyOrd>(c: C, db: DbView, k: Seq<u8>, i: int) -> int
    decreases db.len() - i,
{
    if i < 0 || i >= db.len() {
        db.len() as int
    } else if ord_lt(c, db[i].0, k) {
        db_lower_from(c, db, k, i + 1)
    } else {
        i
    }
}

/// Insertion position of key `k`.
pub open spec fn db_lower<C: KeyOrd>(c: C, db: DbView, k: Seq<u8>) -> int {
    db_lower_from(c, db, k, 0)
}

/// Index of the first duplicate at or after `i` equal to `v`; `-1` if none.
pub open spec fn dup_find_from<D: KeyOrd>(d: D, vs: Seq<Seq<u8>>, v: Seq<u8>, i: int) -> int
    decreases vs.len() - i,
{
    if i < 0 || i >= vs.len() {
        -1
    } else if ord_eqv(d, vs[i], v) {
        i
    } else {
        dup_find_from(d, vs, v, i + 1)
    }
}

/// Index of the duplicate equal to `v`; `-1` if absent.
pub open spec fn dup_find<D: KeyOrd>(d: D, vs: Seq<Seq<u8>>, v: Seq<u8>) -> int {
    dup_find_from(d, vs, v, 0)
}

/// Index of the first duplicate at or after `i` that does not sort before
/// `v`; the length if all do.
pub open spec fn dup_lower_from<D: KeyOrd>(d: D, vs: Seq<Seq<u8>>, v: Seq<u8>, i: int) -> int
    decreases vs.len() - i,
{
    if i < 0 || i >= vs.len() {
        vs.len() as int
    } else if ord_lt(d, vs[i], v) {
        dup_lower_from(d, vs, v, i + 1)
    } else {
        i
    }
}

/// Insertion position of duplicate `v`.
pub open spec fn dup_lower<D: KeyOrd>(d: D, vs: Seq<Seq<u8>>, v: Seq<u8>) -> int {
    dup_lower_from(d, vs, v, 0)
}

/// What `db_find_from` returns: the first index with an equal key.
pub proof fn lemma_db_find_from<C: KeyOrd>(c: C, db: DbView, k: Seq<u8>, i: int)
    requires
        0 <= i <= db.len(),
    ensures
        ({
            let f = db_find_from(c, db, k, i);
            &&& f == -1 || i <= f < db.len()
            &&& f >= 0 ==> ord_eqv(c, db[f].0, k)
            &&& f >= 0 ==> forall|j: int| i <= j < f ==> !ord_eqv(c, (#[trigger] db[j]).0, k)
            &&& f == -1 ==> forall|j: int| i <= j < db.len() ==> !ord_eqv(c, (#[trigger] db[j]).0, k)
        }),
    decreases db.len() - i,
{
    if i < db.len() && !ord_eqv(c, db[i].0, k) {
        lemma_db_find_from(c, db, k, i + 1);
    }
}

/// What `db_lower_from` returns: the first index whose key is not before `k`.
pub proof fn lemma_db_lower_from<C: KeyOrd>(c: C, db: DbView, k: Seq<u8>, i: int)
    requires
        0 <= i <= db.len(),
    ensures
        ({
            let l = db_lower_from(c, db, k, i);
            &&& i <= l <= db.len()
            &&& forall|j: int| i <= j < l ==> ord_lt(c, (#[trigger] db[j]).0, k)
            &&& l < db.len() ==> !ord_lt(c, db[l].0, k)
        }),
    decreases db.len() - i,
{
    if i < db.len() && ord_lt(c, db[i].0, k) {
        lemma_db_lower_from(c, db, k, i + 1);
    }
}

/// When no key at or after `i` equals `k`, the search fails.
pub proof fn lemma_db_find_from_none<C: KeyOrd>(c: C, db: DbView, k: Seq<u8>, i: int)
    requires
        0 <= i <= db.len(),
        forall|j: int| i <= j < db.len() ==> !ord_eqv(c, (#[trigger] db[j]).0, k),
    ensures
        db_find_from(c, db, k, i) == -1,
    decreases db.len() - i,
{
    if i < db.len() {
        lemma_db_find_from_none(c, db, k, i + 1);
    }
}

/// In a key-sorted database, an equal key stands nowhere but at `db_find`.
pub proof fn lemma_db_find_unique<C: KeyOrd>(c: &C, db: DbView, k: Seq<u8>)
    requires
        db_keys_sorted(*c, db),
    ensures
        forall|j: int|
            0 <= j < db.len() && ord_eqv(*c, (#[trigger] db[j]).0, k) ==> j == db_find(*c, db, k),
{
    lemma_db_find_from(*c, db, k, 0);
    let f = db_find(*c, db, k);
    assert forall|j: int|
        0 <= j < db.len() && ord_eqv(*c, (#[trigger] db[j]).0, k) implies j == f by {
        if f == -1 {
        } else if j > f {
            lemma_trichotomy(c, db[j].0, k);
            lemma_eqv_lt(c, k, db[f].0, db[j].0);
        } else if j < f {
        }
    }
}

/// What `dup_find_from` returns.
pub proof fn lemma_dup_find_from<D: KeyOrd>(d: D, vs: Seq<Seq<u8>>, v: Seq<u8>, i: int)
    requires
        0 <= i <= vs.len(),
    ensures
        ({
            let f = dup_find_from(d, vs, v, i);
            &&& f == -1 || i <= f < vs.len()
            &&& f >= 0 ==> ord_eqv(d, vs[f], v)
            &&& f >= 0 ==> forall|j: int| i <= j < f ==> !ord_eqv(d, #[trigger] vs[j], v)
            &&& f == -1 ==> forall|j: int| i <= j < vs.len() ==> !ord_eqv(d, #[trigger] vs[j], v)
        }),
    decreases vs.len() - i,
{
    if i < vs.len() && !ord_eqv(d, vs[i], v) {
        lemma_dup_find_from(d, vs, v, i + 1);
    }
}

/// What `dup_lower_from` returns.
pub proof fn lemma_dup_lower_from<D: KeyOrd>(d: D, vs: Seq<Seq<u8>>, v: Seq<u8>, i: int)
    requires
        0 <= i <= vs.len(),
    ensures
        ({
            let l = dup_lower_from(d, vs, v, i);
            &&& i <= l <= vs.len()
            &&& forall|j: int| i <= j < l ==> ord_lt(d, #[trigger] vs[j], v)
            &&& l < vs.len() ==> !ord_lt(d, vs[l], v)
        }),
    decreases vs.len() - i,
{
    if i < vs.len() && ord_lt(d, vs[i], v) {
        lemma_dup_lower_from(d, vs, v, i + 1);
    }
}

/// When no duplicate at or after `i` equals `v`, the search fails.
pub proof fn lemma_dup_find_from_none<D: KeyOrd>(d: D, vs: Seq<Seq<u8>>, v: Seq<u8>, i: int)
    requires
        0 <= i <= vs.len(),
        forall|j: int| i <= j < vs.len() ==> !ord_eqv(d, #[trigger] vs[j], v),
    ensures
        dup_find_from(d, vs, v, i) == -1,
    decreases vs.len() - i,
{
    if i < vs.len() {
        lemma_dup_find_from_none(d, vs, v, i + 1);
    }
}

/// In a sorted duplicate list, an equal value stands nowhere but at `dup_find`.
pub proof fn lemma_dup_find_unique<D: KeyOrd>(d: &D, vs: Seq<Seq<u8>>, v: Seq<u8>)
    requires
        forall|p: int, q: int| 0 <= p < q < vs.len() ==> ord_lt(*d, #[trigger] vs[p], #[trigger] vs[q]),
    ensures
        forall|j: int|
            0 <= j < vs.len() && ord_eqv(*d, #[trigger] vs[j], v) ==> j == dup_find(*d, vs, v),
{
    lemma_dup_find_from(*d, vs, v, 0);
    let f = dup_find(*d, vs, v);
    assert forall|j: int|
        0 <= j < vs.len() && ord_eqv(*d, #[trigger] vs[j], v) implies j == f by {
        if f == -1 {
        } else if j > f {
            lemma_trichotomy(d, vs[j], v);
            lemma_eqv_lt(d, v, vs[f], vs[j]);
        }
    }
}

/// In a key-sorted database, searching for the key of entry `e` finds `e`.
pub proof fn lemma_db_find_at<C: KeyOrd>(c: &C, db: DbView, e: int)
    requires
        db_keys_sorted(*c, db),
        0 <= e < db.len(),
    ensures
        db_find(*c, db, db[e].0) == e,
{
    crate::order::lemma_eqv_refl(c, db[e].0);
    lemma_db_find_from(*c, db, db[e].0, 0);
    lemma_db_find_unique(c, db, db[e].0);
}

/// In a sorted duplicate list, searching for the value at `p` finds `p`.
pub proof fn lemma_dup_find_at<D: KeyOrd>(d: &D, vs: Seq<Seq<u8>>, p: int)
    requires
        forall|i: int, j: int| 0 <= i < j < vs.len() ==> ord_lt(*d, #[trigger] vs[i], #[trigger] vs[j]),
        0 <= p < vs.len(),
    ensures
        dup_find(*d, vs, vs[p]) == p,
{
    crate::order::lemma_eqv_refl(d, vs[p]);
    lemma_dup_find_from(*d, vs, vs[p], 0);
    lemma_dup_find_unique(d, vs, vs[p]);
}

/// After `dups_add`, a value equal to the added one is found.
pub proof fn lemma_dups_add_find<D: KeyOrd>(d: &D, vs: Seq<Seq<u8>>, v: Seq<u8>)
    requires
        forall|p: int, q: int| 0 <= p < q < vs.len() ==> ord_lt(*d, #[trigger] vs[p], #[trigger] vs[q]),
    ensures
        ({
            let r = dups_add(*d, vs, v);
            0 <= dup_find(*d, r, v) < r.len()
        }),
{
    let g = dup_find(*d, vs, v);
    lemma_dup_find_from(*d, vs, v, 0);
    if g < 0 {
        let l = dup_lower(*d, vs, v);
        lemma_dup_lower_from(*d, vs, v, 0);
        vs.insert_ensures(l, v);
        let r = dups_add(*d, vs, v);
        lemma_dups_add_wf(d, vs, v);
        assert(r[l] == v);
        lemma_dup_find_at(d, r, l);
    }
}

/// Copy a duplicate list.
pub fn copy_vals(vs: &Vec<Vec<u8>>) -> (r: Vec<Vec<u8>>)
    ensures
        r.deep_view() == vs.deep_view(),
{
    let mut r: Vec<Vec<u8>> = Vec::new();
    let mut i: usize = 0;
    let n = vs.len();
    while i < n
        invariant
            n == vs@.len(),
            i <= n,
            r@.len() == i,
            forall|j: int| 0 <= j < i ==> r.deep_view()[j] == vs.deep_view()[j],
        decreases n - i,
    {
        r.push(copy_bytes(&vs[i]));
        i = i + 1;
    }
    proof {
        assert(r.deep_view() =~= vs.deep_view());
    }
    r
}

/// Copy one entry.
pub fn copy_entry(e: &Entry) -> (r: Entry)
    ensures
        r@ == e@,
{
    Entry { key: copy_bytes(&e.key), vals: copy_vals(&e.vals) }
}

/// Copy the entries of a database.
pub fn copy_entries(entries: &Vec<Entry>) -> (r: Vec<Entry>)
    ensures
        db_view(r@) == db_view(entries@),
{
    let mut r: Vec<Entry> = Vec::new();
    let mut i: usize = 0;
    let n = entries.len();
    while i < n
        invariant
            n == entries@.len(),
            i <= n,
            r@.len() == i,
            forall|j: int| 0 <= j < i ==> db_view(r@)[j] == db_view(entries@)[j],
        decreases n - i,
    {
        r.push(copy_entry(&entries[i]));
        i = i + 1;
    }
    proof {
        assert(db_view(r@) =~= db_view(entries@));
    }
    r
}

/// Copy a whole store, flags included.
pub fn copy_store(s: &Store) -> (r: Store)
    ensures
        r@ == s@,
        store_flags(r) == store_flags(*s),
{
    let mut dbs: Vec<DbState> = Vec::new();
    let mut i: usize = 0;
    let n = s.dbs.len();
    while i < n
        invariant
            n == s.dbs@.len(),
            i <= n,
            dbs@.len() == i,
            forall|j: int| 0 <= j < i ==> dbs@.map_values(|st: DbState| st@)[j] == s@[j],
            forall|j: int| 0 <= j < i ==> (#[trigger] dbs@[j]).flags == s.dbs@[j].flags,
        decreases n - i,
    {
        let st = &s.dbs[i];
        dbs.push(DbState { flags: st.flags, entries: copy_entries(&st.entries) });
        i = i + 1;
    }
    let r = Store { dbs };
    proof {
        assert(r@ =~= s@);
        assert(store_flags(r) =~= store_flags(*s));
    }
    r
}

/// Find key `k` in a key-sorted database: its position if present, else its
/// insertion position.
pub fn db_seek<C: KeyOrd>(c: &C, entries: &Vec<Entry>, k: &[u8]) -> (r: (usize, bool))
    requires
        db_keys_sorted(*c, db_view(entries@)),
    ensures
        ({
            let db = db_view(entries@);
            &&& r.0 == db_lower(*c, db, k@)
            &&& r.1 == (db_find(*c, db, k@) >= 0)
            &&& r.1 ==> db_find(*c, db, k@) == r.0 as int
        }),
{
    let ghost db = db_view(entries@);
    let n = entries.len();
    let mut i: usize = 0;
    while i < n
        invariant
            n == entries@.len(),
            db == db_view(entries@),
            db.len() == n,
            i <= n,
            db_keys_sorted(*c, db),
            db_find_from(*c, db, k@, 0) == db_find_from(*c, db, k@, i as int),
            db_lower_from(*c, db, k@, 0) == db_lower_from(*c, db, k@, i as int),
            forall|j: int| 0 <= j < i ==> ord_lt(*c, (#[trigger] db[j]).0, k@),
        decreases n - i,
    {
        let e = &entries[i];
        proof {
            assert(db[i as int] == e@);
        }
        match c.cmp(e.key.as_slice(), k) {
            Cmp::Less => {
                proof {
                    lemma_trichotomy(c, db[i as int].0, k@);
                }
                i = i + 1;
            },
            Cmp::Equal => {
                proof {
                    lemma_trichotomy(c, db[i as int].0, k@);
                }
                return (i, true);
            },
            Cmp::Greater => {
                proof {
                    lemma_trichotomy(c, db[i as int].0, k@);
                    assert forall|j: int| i <= j < db.len() implies !ord_eqv(
                        *c,
                        (#[trigger] db[j]).0,
                        k@,
                    ) by {
                        if j > i {
                            lemma_lt_trans(c, k@, db[i as int].0, db[j].0);
                        }
                        lemma_trichotomy(c, db[j].0, k@);
                    }
                    lemma_db_find_from_none(*c, db, k@, i as int);
                }
                return (i, false);
            },
        }
    }
    (i, false)
}

/// Find duplicate `v` in a sorted duplicate list: its position if present,
/// else its insertion position.
pub fn dup_seek<D: KeyOrd>(d: &D, vs: &Vec<Vec<u8>>, v: &[u8]) -> (r: (usize, bool))
    requires
        forall|p: int, q: int|
            0 <= p < q < vs.deep_view().len() ==> ord_lt(
                *d,
                #[trigger] vs.deep_view()[p],
                #[trigger] vs.deep_view()[q],
            ),
    ensures
        ({
            let dv = vs.deep_view();
            &&& r.0 == dup_lower(*d, dv, v@)
            &&& r.1 == (dup_find(*d, dv, v@) >= 0)
            &&& r.1 ==> dup_find(*d, dv, v@) == r.0 as int
        }),
{
    let ghost dv = vs.deep_view();
    let n = vs.len();
    let mut i: usize = 0;
    while i < n
        invariant
            n == vs@.len(),
            dv == vs.deep_view(),
            dv.len() == n,
            i <= n,
            forall|p: int, q: int|
                0 <= p < q < dv.len() ==> ord_lt(*d, #[trigger] dv[p], #[trigger] dv[q]),
            dup_find_from(*d, dv, v@, 0) == dup_find_from(*d, dv, v@, i as int),
            dup_lower_from(*d, dv, v@, 0) == dup_lower_from(*d, dv, v@, i as int),
        decreases n - i,
    {
        proof {
            assert(dv[i as int] == vs@[i as int]@);
        }
        match d.cmp(vs[i].as_slice(), v) {
            Cmp::Less => {
                proof {
                    lemma_trichotomy(d, dv[i as int], v@);
                }
                i = i + 1;
            },
            Cmp::Equal => {
                proof {
                    lemma_trichotomy(d, dv[i as int], v@);
                }
                return (i, true);
            },
            Cmp::Greater => {
                proof {
                    lemma_trichotomy(d, dv[i as int], v@);
                    assert forall|j: int| i <= j < dv.len() implies !ord_eqv(*d, #[trigger] dv[j], v@) by {
                        if j > i {
                            lemma_lt_trans(d, v@, dv[i as int], dv[j]);
                        }
                        lemma_trichotomy(d, dv[j], v@);
                    }
                    lemma_dup_find_from_none(*d, dv, v@, i as int);
                }
                return (i, false);
            },
        }
    }
    (i, false)
}

/// Does the database hold an entry whose key equals `k`?
pub open spec fn db_has_key<C: KeyOrd>(c: C, db: DbView, k: Seq<u8>) -> bool {
    db_find(c, db, k) >= 0
}

/// The first (lowest) value stored under `k`, if any.
pub open spec fn db_get<C: KeyOrd>(c: C, db: DbView, k: Seq<u8>) -> Option<Seq<u8>> {
    let f = db_find(c, db, k);
    if f >= 0 {
        Some(db[f].1[0])
    } else {
        None
    }
}

/// All values stored under `k`, lowest first; empty if the key is absent.
pub open spec fn db_dups<C: KeyOrd>(c: C, db: DbView, k: Seq<u8>) -> Seq<Seq<u8>> {
    let f = db_find(c, db, k);
    if f >= 0 {
        db[f].1
    } else {
        Seq::empty()
    }
}

/// A sorted duplicate list after adding `v`: unchanged when an equal value
/// is already there, else `v` stands at its insertion position.
pub open spec fn dups_add<D: KeyOrd>(d: D, vs: Seq<Seq<u8>>, v: Seq<u8>) -> Seq<Seq<u8>> {
    if dup_find(d, vs, v) >= 0 {
        vs
    } else {
        vs.insert(dup_lower(d, vs, v), v)
    }
}

/// A sorted duplicate list after removing the value equal to `v`, if any.
pub open spec fn dups_del<D: KeyOrd>(d: D, vs: Seq<Seq<u8>>, v: Seq<u8>) -> Seq<Seq<u8>> {
    let g = dup_find(d, vs, v);
    if g >= 0 {
        vs.remove(g)
    } else {
        vs
    }
}

/// The database after an upsert of `(k, v)`.
///
/// Under duplicates, an additional value is added to the key's list (a no-op
/// when an equal value is present); otherwise the single value is replaced.
/// A fresh key takes its insertion position. The stored key bytes of an
/// existing entry are kept.
pub open spec fn db_set<C: KeyOrd, D: KeyOrd>(
    c: C,
    d: D,
    db: DbView,
    k: Seq<u8>,
    v: Seq<u8>,
    allow_dups: bool,
) -> DbView {
    let f = db_find(c, db, k);
    if f >= 0 {
        if allow_dups {
            db.update(f, (db[f].0, dups_add(d, db[f].1, v)))
        } else {
            db.update(f, (db[f].0, seq![v]))
        }
    } else {
        db.insert(db_lower(c, db, k), (k, seq![v]))
    }
}

/// The database after removing the key equal to `k` with all its values.
pub open spec fn db_del<C: KeyOrd>(c: C, db: DbView, k: Seq<u8>) -> DbView {
    let f = db_find(c, db, k);
    if f >= 0 {
        db.remove(f)
    } else {
        db
    }
}

/// Does the database hold the exact item `(k, v)`?
pub open spec fn db_has_item<C: KeyOrd, D: KeyOrd>(
    c: C,
    d: D,
    db: DbView,
    k: Seq<u8>,
    v: Seq<u8>,
) -> bool {
    let f = db_find(c, db, k);
    f >= 0 && dup_find(d, db[f].1, v) >= 0
}

/// The database after removing the single item `(k, v)`; the entry goes
/// entirely when its last value goes.
pub open spec fn db_del_item<C: KeyOrd, D: KeyOrd>(
    c: C,
    d: D,
    db: DbView,
    k: Seq<u8>,
    v: Seq<u8>,
) -> DbView {
    let f = db_find(c, db, k);
    if f < 0 {
        db
    } else {
        let nv = dups_del(d, db[f].1, v);
        if nv.len() == 0 {
            db.remove(f)
        } else {
            db.update(f, (db[f].0, nv))
        }
    }
}

/// May `(k, v)` be appended? Only when `k` sorts after every stored key.
pub open spec fn db_can_append<C: KeyOrd>(c: C, db: DbView, k: Seq<u8>) -> bool {
    db.len() == 0 || ord_lt(c, db.last().0, k)
}

/// The database after appending the fresh greatest key `k` with value `v`.
pub open spec fn db_append<C: KeyOrd>(c: C, db: DbView, k: Seq<u8>, v: Seq<u8>) -> DbView {
    db.push((k, seq![v]))
}

/// May `(k, v)` be appended as a duplicate? Either `k` sorts after every
/// stored key, or it equals the greatest key and `v` sorts after that key's
/// greatest value.
pub open spec fn db_can_append_dup<C: KeyOrd, D: KeyOrd>(
    c: C,
    d: D,
    db: DbView,
    k: Seq<u8>,
    v: Seq<u8>,
) -> bool {
    db.len() == 0 || ord_lt(c, db.last().0, k) || (ord_eqv(c, db.last().0, k) && ord_lt(
        d,
        db.last().1.last(),
        v,
    ))
}

/// The database after an append-duplicate of `(k, v)`.
pub open spec fn db_append_dup<C: KeyOrd, D: KeyOrd>(
    c: C,
    d: D,
    db: DbView,
    k: Seq<u8>,
    v: Seq<u8>,
) -> DbView {
    if db.len() == 0 || ord_lt(c, db.last().0, k) {
        db.push((k, seq![v]))
    } else {
        db.update(db.len() - 1, (db.last().0, db.last().1.push(v)))
    }
}

/// A duplicate list stays sorted, and keeps at least one value, through
/// `dups_add`.
pub proof fn lemma_dups_add_wf<D: KeyOrd>(d: &D, vs: Seq<Seq<u8>>, v: Seq<u8>)
    requires
        forall|p: int, q: int| 0 <= p < q < vs.len() ==> ord_lt(*d, #[trigger] vs[p], #[trigger] vs[q]),
    ensures
        ({
            let r = dups_add(*d, vs, v);
            &&& r.len() >= 1
            &&& r.len() >= vs.len()
            &&& forall|p: int, q: int|
                0 <= p < q < r.len() ==> ord_lt(*d, #[trigger] r[p], #[trigger] r[q])
        }),
{
    let g = dup_find(*d, vs, v);
    lemma_dup_find_from(*d, vs, v, 0);
    if g < 0 {
        let l = dup_lower(*d, vs, v);
        lemma_dup_lower_from(*d, vs, v, 0);
        vs.insert_ensures(l, v);
        let r = vs.insert(l, v);
        assert forall|j: int| l <= j < vs.len() implies ord_lt(*d, v, #[trigger] vs[j]) by {
            lemma_trichotomy(d, vs[j], v);
            if j > l && ord_lt(*d, vs[j], v) {
                lemma_lt_trans(d, vs[l], vs[j], v);
            }
        }
        assert forall|p: int, q: int| 0 <= p < q < r.len() implies ord_lt(
            *d,
            #[trigger] r[p],
            #[trigger] r[q],
        ) by {
            if q < l {
                assert(r[p] == vs[p] && r[q] == vs[q]);
            } else if q == l {
                assert(r[p] == vs[p] && r[q] == v);
            } else {
                assert(r[q] == vs[q - 1]);
                if p < l {
                    assert(r[p] == vs[p]);
                    if p == q - 1 {
                        assert(false);
                    }
                } else if p == l {
                    assert(r[p] == v);
                } else {
                    assert(r[p] == vs[p - 1]);
                }
            }
        }
    }
}

/// A well-formed database stays well-formed through `db_set`.
pub proof fn lemma_db_set_wf<C: KeyOrd, D: KeyOrd>(
    c: &C,
    d: &D,
    db: DbView,
    k: Seq<u8>,
    v: Seq<u8>,
    allow_dups: bool,
)
    requires
        db_wf(*c, *d, db),
    ensures
        db_wf(*c, *d, db_set(*c, *d, db, k, v, allow_dups)),
{
    let f = db_find(*c, db, k);
    lemma_db_find_from(*c, db, k, 0);
    let r = db_set(*c, *d, db, k, v, allow_dups);
    if f >= 0 {
        assert(r.len() == db.len());
        assert(forall|i: int| 0 <= i < db.len() ==> (#[trigger] r[i]).0 == db[i].0);
        assert forall|i: int, j: int| 0 <= i < j < r.len() implies ord_lt(
            *c,
            (#[trigger] r[i]).0,
            (#[trigger] r[j]).0,
        ) by {
            assert(ord_lt(*c, db[i].0, db[j].0));
        }
        if allow_dups {
            lemma_dups_add_wf(d, db[f].1, v);
        }
        assert forall|i: int| 0 <= i < r.len() implies dups_wf(*d, (#[trigger] r[i]).1) by {
            if i != f {
                assert(r[i].1 == db[i].1);
            }
        }
    } else {
        let l = db_lower(*c, db, k);
        lemma_db_lower_from(*c, db, k, 0);
        db.insert_ensures(l, (k, seq![v]));
        assert forall|j: int| l <= j < db.len() implies ord_lt(*c, k, (#[trigger] db[j]).0) by {
            lemma_trichotomy(c, db[j].0, k);
            if j > l && ord_lt(*c, db[j].0, k) {
                lemma_lt_trans(c, db[l].0, db[j].0, k);
            }
        }
        assert forall|p: int, q: int| 0 <= p < q < r.len() implies ord_lt(
            *c,
            (#[trigger] r[p]).0,
            (#[trigger] r[q]).0,
        ) by {
            if q < l {
                assert(r[p] == db[p] && r[q] == db[q]);
            } else if q == l {
                assert(r[p] == db[p] && r[q] == (k, seq![v]));
            } else {
                assert(r[q] == db[q - 1]);
                if p < l {
                    assert(r[p] == db[p]);
                    if p == q - 1 {
                        assert(false);
                    }
                } else if p == l {
                    assert(r[p] == (k, seq![v]));
                } else {
                    assert(r[p] == db[p - 1]);
                }
            }
        }
        assert forall|i: int| 0 <= i < r.len() implies dups_wf(*d, (#[trigger] r[i]).1) by {
            if i < l {
                assert(r[i] == db[i]);
            } else if i == l {
                assert(r[i].1 == seq![v]);
                assert(r[i].1.len() == 1);
            } else {
                assert(r[i] == db[i - 1]);
            }
        }
    }
}

/// A well-formed database stays well-formed through `db_del`.
pub proof fn lemma_db_del_wf<C: KeyOrd, D: KeyOrd>(c: &C, d: &D, db: DbView, k: Seq<u8>)
    requires
        db_wf(*c, *d, db),
    ensures
        db_wf(*c, *d, db_del(*c, db, k)),
{
    let f = db_find(*c, db, k);
    lemma_db_find_from(*c, db, k, 0);
    if f >= 0 {
        db.remove_ensures(f);
        let r = db.remove(f);
        assert forall|i: int, j: int| 0 <= i < j < r.len() implies ord_lt(
            *c,
            (#[trigger] r[i]).0,
            (#[trigger] r[j]).0,
        ) by {
            if i < f && j < f {
                assert(r[i] == db[i] && r[j] == db[j]);
            } else if i < f {
                assert(r[i] == db[i] && r[j] == db[j + 1]);
            } else {
                assert(r[i] == db[i + 1] && r[j] == db[j + 1]);
            }
        }
        assert forall|i: int| 0 <= i < r.len() implies dups_wf(*d, (#[trigger] r[i]).1) by {
            if i < f {
                assert(r[i] == db[i]);
            } else {
                assert(r[i] == db[i + 1]);
            }
        }
    }
}

/// A well-formed database stays well-formed through `db_del_item`.
pub proof fn lemma_db_del_item_wf<C: KeyOrd, D: KeyOrd>(
    c: &C,
    d: &D,
    db: DbView,
    k: Seq<u8>,
    v: Seq<u8>,
)
    requires
        db_wf(*c, *d, db),
    ensures
        db_wf(*c, *d, db_del_item(*c, *d, db, k, v)),
{
    let f = db_find(*c, db, k);
    lemma_db_find_from(*c, db, k, 0);
    if f >= 0 {
        let vs = db[f].1;
        let g = dup_find(*d, vs, v);
        lemma_dup_find_from(*d, vs, v, 0);
        let nv = dups_del(*d, vs, v);
        if g >= 0 {
            vs.remove_ensures(g);
            assert forall|p: int, q: int| 0 <= p < q < nv.len() implies ord_lt(
                *d,
                #[trigger] nv[p],
                #[trigger] nv[q],
            ) by {
                if p < g && q < g {
                    assert(nv[p] == vs[p] && nv[q] == vs[q]);
                } else if p < g {
                    assert(nv[p] == vs[p] && nv[q] == vs[q + 1]);
                } else {
                    assert(nv[p] == vs[p + 1] && nv[q] == vs[q + 1]);
                }
            }
        }
        let r = db_del_item(*c, *d, db, k, v);
        if nv.len() == 0 {
            lemma_db_del_wf(c, d, db, k);
            assert(r == db.remove(f));
            assert(db_del(*c, db, k) == db.remove(f));
        } else {
            assert(r == db.update(f, (db[f].0, nv)));
            assert(r.len() == db.len());
            assert(forall|i: int| 0 <= i < db.len() ==> (#[trigger] r[i]).0 == db[i].0);
            assert forall|i: int, j: int| 0 <= i < j < r.len() implies ord_lt(
                *c,
                (#[trigger] r[i]).0,
                (#[trigger] r[j]).0,
            ) by {
                assert(ord_lt(*c, db[i].0, db[j].0));
            }
            assert forall|i: int| 0 <= i < r.len() implies dups_wf(*d, (#[trigger] r[i]).1) by {
                if i != f {
                    assert(r[i].1 == db[i].1);
                }
            }
        }
    }
}

/// A well-formed database stays well-formed through a permitted append.
pub proof fn lemma_db_append_wf<C: KeyOrd, D: KeyOrd>(c: &C, d: &D, db: DbView, k: Seq<u8>, v: Seq<u8>)
    requires
        db_wf(*c, *d, db),
        db_can_append(*c, db, k),
    ensures
        db_wf(*c, *d, db_append(*c, db, k, v)),
{
    let r = db_append(*c, db, k, v);
    assert forall|i: int, j: int| 0 <= i < j < r.len() implies ord_lt(
        *c,
        (#[trigger] r[i]).0,
        (#[trigger] r[j]).0,
    ) by {
        if j < db.len() {
            assert(r[i] == db[i] && r[j] == db[j]);
        } else {
            assert(r[j] == (k, seq![v]));
            assert(r[i] == db[i]);
            if i < db.len() - 1 {
                assert(ord_lt(*c, db[i].0, db[db.len() - 1].0));
                lemma_lt_trans(c, db[i].0, db[db.len() - 1].0, k);
            }
        }
    }
    assert forall|i: int| 0 <= i < r.len() implies dups_wf(*d, (#[trigger] r[i]).1) by {
        if i < db.len() {
            assert(r[i] == db[i]);
        } else {
            assert(r[i].1 == seq![v]);
            assert(r[i].1.len() == 1);
        }
    }
}

/// A well-formed database stays well-formed through a permitted
/// append-duplicate.
pub proof fn lemma_db_append_dup_wf<C: KeyOrd, D: KeyOrd>(
    c: &C,
    d: &D,
    db: DbView,
    k: Seq<u8>,
    v: Seq<u8>,
)
    requires
        db_wf(*c, *d, db),
        db_can_append_dup(*c, *d, db, k, v),
    ensures
        db_wf(*c, *d, db_append_dup(*c, *d, db, k, v)),
{
    if db.len() == 0 || ord_lt(*c, db.last().0, k) {
        lemma_db_append_wf(c, d, db, k, v);
        assert(db_append_dup(*c, *d, db, k, v) == db_append(*c, db, k, v));
    } else {
        let f = db.len() - 1;
        let vs = db[f].1;
        let nv = vs.push(v);
        let r = db.update(f, (db[f].0, nv));
        assert forall|p: int, q: int| 0 <= p < q < nv.len() implies ord_lt(
            *d,
            #[trigger] nv[p],
            #[trigger] nv[q],
        ) by {
            if q < vs.len() {
                assert(nv[p] == vs[p] && nv[q] == vs[q]);
            } else {
                assert(nv[q] == v);
                assert(nv[p] == vs[p]);
                if p < vs.len() - 1 {
                    assert(ord_lt(*d, vs[p], vs[vs.len() - 1]));
                    lemma_lt_trans(d, vs[p], vs[vs.len() - 1], v);
                }
            }
        }
        assert(forall|i: int| 0 <= i < db.len() ==> (#[trigger] r[i]).0 == db[i].0);
        assert forall|i: int, j: int| 0 <= i < j < r.len() implies ord_lt(
            *c,
            (#[trigger] r[i]).0,
            (#[trigger] r[j]).0,
        ) by {
            assert(ord_lt(*c, db[i].0, db[j].0));
        }
        assert forall|i: int| 0 <= i < r.len() implies dups_wf(*d, (#[trigger] r[i]).1) by {
            if i != f {
                assert(r[i].1 == db[i].1);
            }
        }
    }
}

/// A byte vector's deep view is its view.
pub proof fn lemma_bytes_deep_view(x: Vec<u8>)
    ensures
        x.deep_view() == x@,
{
    assert(x.deep_view() =~= x@);
}

/// A duplicate list of one value.
pub fn single_val(v: &[u8]) -> (r: Vec<Vec<u8>>)
    ensures
        r.deep_view() == seq![v@],
{
    let mut r: Vec<Vec<u8>> = Vec::new();
    let x = slice_to_vec(v);
    proof {
        lemma_bytes_deep_view(x);
    }
    r.push(x);
    proof {
        assert(r.deep_view() =~= seq![v@]);
    }
    r
}

/// Build the duplicate list with `v` added.
pub fn dups_add_build<D: KeyOrd>(d: &D, vs: &Vec<Vec<u8>>, v: &[u8]) -> (r: Vec<Vec<u8>>)
    requires
        forall|p: int, q: int|
            0 <= p < q < vs.deep_view().len() ==> ord_lt(
                *d,
                #[trigger] vs.deep_view()[p],
                #[trigger] vs.deep_view()[q],
            ),
    ensures
        r.deep_view() == dups_add(*d, vs.deep_view(), v@),
{
    let ghost dv = vs.deep_view();
    let (pos, found) = dup_seek(d, vs, v);
    let mut r = copy_vals(vs);
    if !found {
        proof {
            lemma_dup_lower_from(*d, dv, v@, 0);
        }
        let ghost rv = r@;
        let x = slice_to_vec(v);
        proof {
            lemma_bytes_deep_view(x);
        }
        r.insert(pos, x);
        proof {
            dv.insert_ensures(pos as int, v@);
            rv.insert_ensures(pos as int, x);
            assert(r.deep_view() =~= dv.insert(pos as int, v@));
        }
    }
    proof {
        assert(r.deep_view() =~= dups_add(*d, dv, v@));
    }
    r
}

/// Build the database with `(k, v)` upserted.
pub fn db_set_build<C: KeyOrd, D: KeyOrd>(
    c: &C,
    d: &D,
    entries: &Vec<Entry>,
    k: &[u8],
    v: &[u8],
    allow_dups: bool,
) -> (r: Vec<Entry>)
    requires
        db_wf(*c, *d, db_view(entries@)),
    ensures
        db_view(r@) == db_set(*c, *d, db_view(entries@), k@, v@, allow_dups),
        db_wf(*c, *d, db_view(r@)),
{
    let ghost db = db_view(entries@);
    let (pos, found) = db_seek(c, entries, k);
    proof {
        lemma_db_find_from(*c, db, k@, 0);
        lemma_db_lower_from(*c, db, k@, 0);
    }
    let mut r = copy_entries(entries);
    if found {
        let old_e = &entries[pos];
        proof {
            assert(db[pos as int] == old_e@);
            assert(dups_wf(*d, db[pos as int].1));
        }
        let new_vals = if allow_dups {
            dups_add_build(d, &old_e.vals, v)
        } else {
            single_val(v)
        };
        r.set(pos, Entry { key: copy_bytes(&old_e.key), vals: new_vals });
        proof {
            assert(db_view(r@) =~= db_set(*c, *d, db, k@, v@, allow_dups));
        }
    } else {
        let ghost rv = r@;
        let new_e = Entry { key: slice_to_vec(k), vals: single_val(v) };
        proof {
            assert(new_e@ == (k@, seq![v@]));
        }
        r.insert(pos, new_e);
        proof {
            db.insert_ensures(pos as int, (k@, seq![v@]));
            rv.insert_ensures(pos as int, new_e);
            assert(db_view(r@) =~= db.insert(pos as int, (k@, seq![v@])));
        }
    }
    proof {
        lemma_db_set_wf(c, d, db, k@, v@, allow_dups);
    }
    r
}

/// Every entry keeps at least one value (the comparator-free part of
/// well-formedness that point reads need).
pub open spec fn db_vals_nonempty(db: DbView) -> bool {
    forall|i: int| 0 <= i < db.len() ==> (#[trigger] db[i]).1.len() >= 1
}

/// A well-formed database has non-empty duplicate lists.
pub proof fn lemma_db_wf_vals_nonempty<C: KeyOrd, D: KeyOrd>(c: &C, d: &D, db: DbView)
    requires
        db_wf(*c, *d, db),
    ensures
        db_vals_nonempty(db),
{
    assert forall|i: int| 0 <= i < db.len() implies (#[trigger] db[i]).1.len() >= 1 by {
        assert(dups_wf(*d, db[i].1));
    }
}

/// Build the database with the key equal to `k` removed; the flag says
/// whether it was there.
pub fn db_del_build<C: KeyOrd, D: KeyOrd>(
    c: &C,
    d: &D,
    entries: &Vec<Entry>,
    k: &[u8],
) -> (r: (Vec<Entry>, bool))
    requires
        db_wf(*c, *d, db_view(entries@)),
    ensures
        db_view(r.0@) == db_del(*c, db_view(entries@), k@),
        r.1 == db_has_key(*c, db_view(entries@), k@),
        db_wf(*c, *d, db_view(r.0@)),
{
    let ghost db = db_view(entries@);
    let (pos, found) = db_seek(c, entries, k);
    proof {
        lemma_db_find_from(*c, db, k@, 0);
    }
    let mut r = copy_entries(entries);
    if found {
        let ghost rv = r@;
        r.remove(pos);
        proof {
            db.remove_ensures(pos as int);
            rv.remove_ensures(pos as int);
            assert(db_view(r@) =~= db.remove(pos as int));
        }
    } else {
        proof {
            assert(db_view(r@) =~= db);
        }
    }
    proof {
        lemma_db_del_wf(c, d, db, k@);
    }
    (r, found)
}

/// Build the database with the single item `(k, v)` removed; the flag says
/// whether it was there.
pub fn db_del_item_build<C: KeyOrd, D: KeyOrd>(
    c: &C,
    d: &D,
    entries: &Vec<Entry>,
    k: &[u8],
    v: &[u8],
) -> (r: (Vec<Entry>, bool))
    requires
        db_wf(*c, *d, db_view(entries@)),
    ensures
        db_view(r.0@) == db_del_item(*c, *d, db_view(entries@), k@, v@),
        r.1 == db_has_item(*c, *d, db_view(entries@), k@, v@),
        db_wf(*c, *d, db_view(r.0@)),
{
    let ghost db = db_view(entries@);
    let (pos, found) = db_seek(c, entries, k);
    proof {
        lemma_db_find_from(*c, db, k@, 0);
        lemma_db_del_item_wf(c, d, db, k@, v@);
    }
    let mut r = copy_entries(entries);
    if !found {
        proof {
            assert(db_view(r@) =~= db);
        }
        return (r, false);
    }
    let e = &entries[pos];
    let ghost vs = db[pos as int].1;
    proof {
        assert(db[pos as int] == e@);
        assert(dups_wf(*d, vs));
    }
    let (dpos, dfound) = dup_seek(d, &e.vals, v);
    proof {
        lemma_dup_find_from(*d, vs, v@, 0);
    }
    if !dfound {
        proof {
            assert(db_view(r@) =~= db);
        }
        return (r, false);
    }
    proof {
        vs.remove_ensures(dpos as int);
    }
    if e.vals.len() == 1 {
        let ghost rv = r@;
        r.remove(pos);
        proof {
            assert(dups_del(*d, vs, v@).len() == 0);
            db.remove_ensures(pos as int);
            rv.remove_ensures(pos as int);
            assert(db_view(r@) =~= db.remove(pos as int));
        }
    } else {
        let mut nv = copy_vals(&e.vals);
        let ghost nvv = nv@;
        nv.remove(dpos);
        let new_e = Entry { key: copy_bytes(&e.key), vals: nv };
        proof {
            nvv.remove_ensures(dpos as int);
            assert(new_e@.1 =~= dups_del(*d, vs, v@));
            assert(dups_del(*d, vs, v@).len() > 0);
        }
        r.set(pos, new_e);
        proof {
            assert(db_view(r@) =~= db.update(pos as int, (db[pos as int].0, dups_del(*d, vs, v@))));
        }
    }
    (r, true)
}

/// Build the database with `(k, v)` appended after every stored key; the
/// flag reports whether the append order held, and on `false` the database
/// comes back unchanged.
pub fn db_append_build<C: KeyOrd, D: KeyOrd>(
    c: &C,
    d: &D,
    entries: &Vec<Entry>,
    k: &[u8],
    v: &[u8],
) -> (r: (Vec<Entry>, bool))
    requires
        db_wf(*c, *d, db_view(entries@)),
    ensures
        r.1 == db_can_append(*c, db_view(entries@), k@),
        r.1 ==> db_view(r.0@) == db_append(*c, db_view(entries@), k@, v@),
        !r.1 ==> db_view(r.0@) == db_view(entries@),
        db_wf(*c, *d, db_view(r.0@)),
{
    let ghost db = db_view(entries@);
    let n = entries.len();
    let ok: bool = if n == 0 {
        true
    } else {
        let e = &entries[n - 1];
        proof {
            assert(db[n - 1] == e@);
        }
        match c.cmp(e.key.as_slice(), k) {
            Cmp::Less => true,
            Cmp::Equal => false,
            Cmp::Greater => false,
        }
    };
    let mut r = copy_entries(entries);
    if ok {
        r.push(Entry { key: slice_to_vec(k), vals: single_val(v) });
        proof {
            assert(db_view(r@) =~= db.push((k@, seq![v@])));
            lemma_db_append_wf(c, d, db, k@, v@);
        }
    } else {
        proof {
            assert(db_view(r@) =~= db);
        }
    }
    (r, ok)
}

/// Build the database with the duplicate `(k, v)` appended after every
/// stored item; the flag reports whether the append order held, and on
/// `false` the database comes back unchanged.
pub fn db_append_dup_build<C: KeyOrd, D: KeyOrd>(
    c: &C,
    d: &D,
    entries: &Vec<Entry>,
    k: &[u8],
    v: &[u8],
) -> (r: (Vec<Entry>, bool))
    requires
        db_wf(*c, *d, db_view(entries@)),
    ensures
        r.1 == db_can_append_dup(*c, *d, db_view(entries@), k@, v@),
        r.1 ==> db_view(r.0@) == db_append_dup(*c, *d, db_view(entries@), k@, v@),
        !r.1 ==> db_view(r.0@) == db_view(entries@),
        db_wf(*c, *d, db_view(r.0@)),
{
    let ghost db = db_view(entries@);
    let n = entries.len();
    let mut r = copy_entries(entries);
    if n == 0 {
        r.push(Entry { key: slice_to_vec(k), vals: single_val(v) });
        proof {
            assert(db_view(r@) =~= db.push((k@, seq![v@])));
            lemma_db_append_dup_wf(c, d, db, k@, v@);
        }
        return (r, true);
    }
    let e = &entries[n - 1];
    let ghost vs = db[n - 1].1;
    proof {
        assert(db[n - 1] == e@);
        assert(dups_wf(*d, vs));
    }
    match c.cmp(e.key.as_slice(), k) {
        Cmp::Less => {
            r.push(Entry { key: slice_to_vec(k), vals: single_val(v) });
            proof {
                assert(db_view(r@) =~= db.push((k@, seq![v@])));
                lemma_db_append_dup_wf(c, d, db, k@, v@);
            }
            (r, true)
        },
        Cmp::Equal => {
            let m = e.vals.len();
            proof {
                assert(vs.len() == m);
            }
            let last_val = &e.vals[m - 1];
            proof {
                assert(vs[m - 1] == last_val@);
            }
            match d.cmp(last_val.as_slice(), v) {
                Cmp::Less => {
                    let mut nv = copy_vals(&e.vals);
                    let x = slice_to_vec(v);
                    proof {
                        lemma_bytes_deep_view(x);
                    }
                    nv.push(x);
                    let new_e = Entry { key: copy_bytes(&e.key), vals: nv };
                    proof {
                        assert(new_e@.1 =~= vs.push(v@));
                    }
                    r.set(n - 1, new_e);
                    proof {
                        assert(db_view(r@) =~= db.update(n - 1, (db[n - 1].0, vs.push(v@))));
                        lemma_db_append_dup_wf(c, d, db, k@, v@);
                    }
                    (r, true)
                },
                Cmp::Equal => {
                    proof {
                        assert(db_view(r@) =~= db);
                    }
                    (r, false)
                },
                Cmp::Greater => {
                    proof {
                        assert(db_view(r@) =~= db);
                    }
                    (r, false)
                },
            }
        },
        Cmp::Greater => {
            proof {
                assert(db_view(r@) =~= db);
            }
            (r, false)
        },
    }
}

/// Read the first value stored under `k`.
pub fn db_get_exec<C: KeyOrd>(c: &C, entries: &Vec<Entry>, k: &[u8]) -> (r: Option<Vec<u8>>)
    requires
        db_keys_sorted(*c, db_view(entries@)),
        db_vals_nonempty(db_view(entries@)),
    ensures
        ({
            let g = db_get(*c, db_view(entries@), k@);
            match r {
                Some(v) => g == Some(v@),
                None => g is None,
            }
        }),
{
    let ghost db = db_view(entries@);
    let (pos, found) = db_seek(c, entries, k);
    proof {
        lemma_db_find_from(*c, db, k@, 0);
    }
    if found {
        let e = &entries[pos];
        proof {
            assert(db[pos as int] == e@);
        }
        Some(copy_bytes(&e.vals[0]))
    } else {
        None
    }
}

/// Read all values stored under `k`, lowest first; empty if absent.
pub fn db_dups_exec<C: KeyOrd>(c: &C, entries: &Vec<Entry>, k: &[u8]) -> (r: Vec<Vec<u8>>)
    requires
        db_keys_sorted(*c, db_view(entries@)),
    ensures
        r.deep_view() == db_dups(*c, db_view(entries@), k@),
{
    let ghost db = db_view(entries@);
    let (pos, found) = db_seek(c, entries, k);
    proof {
        lemma_db_find_from(*c, db, k@, 0);
    }
    if found {
        let e = &entries[pos];
        proof {
            assert(db[pos as int] == e@);
        }
        copy_vals(&e.vals)
    } else {
        let r: Vec<Vec<u8>> = Vec::new();
        proof {
            assert(r.deep_view() =~= Seq::<Seq<u8>>::empty());
        }
        r
    }
}

/// Bytes held by a duplicate list, starting at index `i`.
pub open spec fn vals_bytes_from(vs: Seq<Seq<u8>>, i: int) -> nat
    decreases vs.len() - i,
{
    if i < 0 || i >= vs.len() {
        0
    } else {
        vs[i].len() + vals_bytes_from(vs, i + 1)
    }
}

/// Bytes held by a duplicate list.
pub open spec fn vals_bytes(vs: Seq<Seq<u8>>) -> nat {
    vals_bytes_from(vs, 0)
}

/// Bytes held by one entry: its key and all its values.
pub open spec fn entry_bytes(e: (Seq<u8>, Seq<Seq<u8>>)) -> nat {
    e.0.len() + vals_bytes(e.1)
}

/// Bytes held by a database, starting at entry `i`.
pub open spec fn db_bytes_from(db: DbView, i: int) -> nat
    decreases db.len() - i,
{
    if i < 0 || i >= db.len() {
        0
    } else {
        entry_bytes(db[i]) + db_bytes_from(db, i + 1)
    }
}

/// Bytes held by a database.
pub open spec fn db_bytes(db: DbView) -> nat {
    db_bytes_from(db, 0)
}

/// Bytes held by all databases of a store, starting at database `i`.
pub open spec fn store_bytes_from(s: Seq<DbView>, i: int) -> nat
    decreases s.len() - i,
{
    if i < 0 || i >= s.len() {
        0
    } else {
        db_bytes(s[i]) + store_bytes_from(s, i + 1)
    }
}

/// Bytes held by all databases of a store: what counts against the map size.
pub open spec fn store_bytes(s: Seq<DbView>) -> nat {
    store_bytes_from(s, 0)
}

/// Sum the bytes of a duplicate list; `None` when the sum leaves `usize`.
pub fn vals_bytes_exec(vs: &Vec<Vec<u8>>) -> (r: Option<usize>)
    ensures
        match r {
            Some(n) => n == vals_bytes(vs.deep_view()),
            None => vals_bytes(vs.deep_view()) > usize::MAX,
        },
{
    let ghost dv = vs.deep_view();
    let mut acc: usize = 0;
    let mut i: usize = 0;
    let n = vs.len();
    while i < n
        invariant
            n == vs@.len(),
            dv == vs.deep_view(),
            dv.len() == n,
            i <= n,
            acc + vals_bytes_from(dv, i as int) == vals_bytes(dv),
        decreases n - i,
    {
        let l = vs[i].len();
        proof {
            assert(dv[i as int] == vs@[i as int]@);
        }
        match acc.checked_add(l) {
            Some(a) => {
                acc = a;
            },
            None => {
                return None;
            },
        }
        i = i + 1;
    }
    Some(acc)
}

/// Sum the bytes of a database; `None` when the sum leaves `usize`.
pub fn db_bytes_exec(entries: &Vec<Entry>) -> (r: Option<usize>)
    ensures
        match r {
            Some(n) => n == db_bytes(db_view(entries@)),
            None => db_bytes(db_view(entries@)) > usize::MAX,
        },
{
    let ghost db = db_view(entries@);
    let mut acc: usize = 0;
    let mut i: usize = 0;
    let n = entries.len();
    while i < n
        invariant
            n == entries@.len(),
            db == db_view(entries@),
            db.len() == n,
            i <= n,
            acc + db_bytes_from(db, i as int) == db_bytes(db),
        decreases n - i,
    {
        let e = &entries[i];
        proof {
            assert(db[i as int] == e@);
        }
        let vb = match vals_bytes_exec(&e.vals) {
            Some(x) => x,
            None => {
                return None;
            },
        };
        let eb = match e.key.len().checked_add(vb) {
            Some(x) => x,
            None => {
                return None;
            },
        };
        match acc.checked_add(eb) {
            Some(a) => {
                acc = a;
            },
            None => {
                return None;
            },
        }
        i = i + 1;
    }
    Some(acc)
}

/// Sum the bytes of a store as it would stand with database `dbi` replaced
/// by `cand`; `None` when the sum leaves `usize`.
pub fn store_bytes_with_exec(s: &Store, dbi: usize, cand: &Vec<Entry>) -> (r: Option<usize>)
    requires
        dbi < s.dbs@.len(),
    ensures
        ({
            let u = s@.update(dbi as int, db_view(cand@));
            match r {
                Some(n) => n == store_bytes(u),
                None => store_bytes(u) > usize::MAX,
            }
        }),
{
    let ghost u = s@.update(dbi as int, db_view(cand@));
    let mut acc: usize = 0;
    let mut i: usize = 0;
    let n = s.dbs.len();
    proof {
        assert(u.len() == n);
    }
    while i < n
        invariant
            n == s.dbs@.len(),
            dbi < n,
            u == s@.update(dbi as int, db_view(cand@)),
            u.len() == n,
            i <= n,
            acc + store_bytes_from(u, i as int) == store_bytes(u),
        decreases n - i,
    {
        let b = if i == dbi {
            proof {
                assert(u[i as int] == db_view(cand@));
            }
            db_bytes_exec(cand)
        } else {
            let st = &s.dbs[i];
            proof {
                assert(u[i as int] == s@[i as int]);
                assert(s@[i as int] == st@);
            }
            db_bytes_exec(&st.entries)
        };
        let db_b = match b {
            Some(x) => x,
            None => {
                return None;
            },
        };
        match acc.checked_add(db_b) {
            Some(a) => {
                acc = a;
            },
            None => {
                return None;
            },
        }
        i = i + 1;
    }
    Some(acc)
}

/// Number of stored items (duplicates counted) from entry `i` on.
pub open spec fn db_items_from(db: DbView, i: int) -> nat
    decreases db.len() - i,
{
    if i < 0 || i >= db.len() {
        0
    } else {
        db[i].1.len() + db_items_from(db, i + 1)
    }
}

/// Number of stored items of a database, duplicates counted.
pub open spec fn db_items(db: DbView) -> nat {
    db_items_from(db, 0)
}

/// Count the stored items; `None` when the count leaves `usize`.
pub fn db_items_exec(entries: &Vec<Entry>) -> (r: Option<usize>)
    ensures
        match r {
            Some(n) => n == db_items(db_view(entries@)),
            None => db_items(db_view(entries@)) > usize::MAX,
        },
{
    let ghost db = db_view(entries@);
    let mut acc: usize = 0;
    let mut i: usize = 0;
    let n = entries.len();
    while i < n
        invariant
            n == entries@.len(),
            db == db_view(entries@),
            db.len() == n,
            i <= n,
            acc + db_items_from(db, i as int) == db_items(db),
        decreases n - i,
    {
        let e = &entries[i];
        proof {
            assert(db[i as int] == e@);
        }
        match acc.checked_add(e.vals.len()) {
            Some(a) => {
                acc = a;
            },
            None => {
                return None;
            },
        }
        i = i + 1;
    }
    Some(acc)
}

/// Are two byte strings identical?
pub fn bytes_eq(a: &[u8], b: &[u8]) -> (r: bool)
    ensures
        r == (a@ == b@),
{
    let n = a.len();
    if n != b.len() {
        proof {
            assert(a@ != b@);
        }
        return false;
    }
    let mut i: usize = 0;
    while i < n
        invariant
            n == a@.len(),
            n == b@.len(),
            i <= n,
            forall|j: int| 0 <= j < i ==> a@[j] == b@[j],
        decreases n - i,
    {
        if a[i] != b[i] {
            return false;
        }
        i = i + 1;
    }
    proof {
        assert(a@ =~= b@);
    }
    true
}

/// The key/value pairs of one entry: the key beside each of its values.
pub open spec fn entry_pairs(e: (Seq<u8>, Seq<Seq<u8>>)) -> Seq<(Seq<u8>, Seq<u8>)> {
    e.1.map_values(|v: Seq<u8>| (e.0, v))
}

/// All key/value pairs of a database in order, duplicates expanded.
pub open spec fn db_pairs(db: DbView) -> Seq<(Seq<u8>, Seq<u8>)>
    decreases db.len(),
{
    if db.len() == 0 {
        Seq::empty()
    } else {
        entry_pairs(db[0]) + db_pairs(db.skip(1))
    }
}

/// `db_pairs` peels one entry at a time.
pub proof fn lemma_db_pairs_cons(e: (Seq<u8>, Seq<Seq<u8>>), rest: DbView)
    ensures
        db_pairs(seq![e] + rest) == entry_pairs(e) + db_pairs(rest),
{
    let s = seq![e] + rest;
    assert(s[0] == e);
    assert(s.skip(1) =~= rest);
}

/// Is `k` within the bounds? The lower bound is inclusive; the upper bound
/// is inclusive exactly when `hi_incl`.
pub open spec fn key_in_range<C: KeyOrd>(
    c: C,
    k: Seq<u8>,
    lo: Option<Seq<u8>>,
    hi: Option<Seq<u8>>,
    hi_incl: bool,
) -> bool {
    (match lo {
        Some(l) => !ord_lt(c, k, l),
        None => true,
    }) && (match hi {
        Some(h) => if hi_incl {
            !ord_lt(c, h, k)
        } else {
            ord_lt(c, k, h)
        },
        None => true,
    })
}

/// The entries with keys within the bounds, in order, starting at entry `i`.
pub open spec fn db_range_from<C: KeyOrd>(
    c: C,
    db: DbView,
    lo: Option<Seq<u8>>,
    hi: Option<Seq<u8>>,
    hi_incl: bool,
    i: int,
) -> DbView
    decreases db.len() - i,
{
    if i < 0 || i >= db.len() {
        Seq::empty()
    } else if key_in_range(c, db[i].0, lo, hi, hi_incl) {
        seq![db[i]] + db_range_from(c, db, lo, hi, hi_incl, i + 1)
    } else {
        db_range_from(c, db, lo, hi, hi_incl, i + 1)
    }
}

/// The entries with keys within the bounds, in order.
pub open spec fn db_range<C: KeyOrd>(
    c: C,
    db: DbView,
    lo: Option<Seq<u8>>,
    hi: Option<Seq<u8>>,
    hi_incl: bool,
) -> DbView {
    db_range_from(c, db, lo, hi, hi_incl, 0)
}

/// Entries before `i` that are out of range do not change the selection.
pub proof fn lemma_db_range_skip_prefix<C: KeyOrd>(
    c: C,
    db: DbView,
    lo: Option<Seq<u8>>,
    hi: Option<Seq<u8>>,
    hi_incl: bool,
    i: int,
)
    requires
        0 <= i <= db.len(),
        forall|j: int| 0 <= j < i ==> !key_in_range(c, (#[trigger] db[j]).0, lo, hi, hi_incl),
    ensures
        db_range(c, db, lo, hi, hi_incl) == db_range_from(c, db, lo, hi, hi_incl, i),
    decreases i,
{
    if i > 0 {
        lemma_db_range_skip_prefix_step(c, db, lo, hi, hi_incl, 0, i);
    }
}

/// Helper: walking the selection forward over out-of-range entries.
proof fn lemma_db_range_skip_prefix_step<C: KeyOrd>(
    c: C,
    db: DbView,
    lo: Option<Seq<u8>>,
    hi: Option<Seq<u8>>,
    hi_incl: bool,
    j: int,
    i: int,
)
    requires
        0 <= j <= i <= db.len(),
        forall|q: int| j <= q < i ==> !key_in_range(c, (#[trigger] db[q]).0, lo, hi, hi_incl),
    ensures
        db_range_from(c, db, lo, hi, hi_incl, j) == db_range_from(c, db, lo, hi, hi_incl, i),
    decreases i - j,
{
    if j < i {
        lemma_db_range_skip_prefix_step(c, db, lo, hi, hi_incl, j + 1, i);
    }
}

/// When everything at or after `i` is out of range, the selection there is
/// empty.
pub proof fn lemma_db_range_empty_suffix<C: KeyOrd>(
    c: C,
    db: DbView,
    lo: Option<Seq<u8>>,
    hi: Option<Seq<u8>>,
    hi_incl: bool,
    i: int,
)
    requires
        0 <= i <= db.len(),
        forall|j: int| i <= j < db.len() ==> !key_in_range(c, (#[trigger] db[j]).0, lo, hi, hi_incl),
    ensures
        db_range_from(c, db, lo, hi, hi_incl, i) == Seq::<(Seq<u8>, Seq<Seq<u8>>)>::empty(),
    decreases db.len() - i,
{
    if i < db.len() {
        lemma_db_range_empty_suffix(c, db, lo, hi, hi_incl, i + 1);
    }
}

/// The view of collected key/value pairs.
pub open spec fn kv_view(s: Seq<(Vec<u8>, Vec<u8>)>) -> Seq<(Seq<u8>, Seq<u8>)> {
    s.map_values(|p: (Vec<u8>, Vec<u8>)| (p.0@, p.1@))
}

/// The bytes behind an optional bound.
pub open spec fn opt_bytes(o: Option<&[u8]>) -> Option<Seq<u8>> {
    match o {
        Some(s) => Some(s@),
        None => None,
    }
}

/// Collect the key/value pairs whose keys lie within the bounds, in
/// database order, duplicates expanded.
pub fn db_range_pairs<C: KeyOrd>(
    c: &C,
    entries: &Vec<Entry>,
    lo: Option<&[u8]>,
    hi: Option<&[u8]>,
    hi_incl: bool,
) -> (r: Vec<(Vec<u8>, Vec<u8>)>)
    requires
        db_keys_sorted(*c, db_view(entries@)),
    ensures
        kv_view(r@) == db_pairs(db_range(*c, db_view(entries@), opt_bytes(lo), opt_bytes(hi), hi_incl)),
{
    let ghost db = db_view(entries@);
    let ghost glo = opt_bytes(lo);
    let ghost ghi = opt_bytes(hi);
    let ghost total = db_pairs(db_range(*c, db, glo, ghi, hi_incl));
    let n = entries.len();
    let start: usize = match lo {
        Some(l) => {
            let (p, _) = db_seek(c, entries, l);
            p
        },
        None => 0,
    };
    proof {
        if glo is Some {
            lemma_db_lower_from(*c, db, glo.unwrap(), 0);
        }
        assert forall|j: int| 0 <= j < start implies !key_in_range(
            *c,
            (#[trigger] db[j]).0,
            glo,
            ghi,
            hi_incl,
        ) by {}
        lemma_db_range_skip_prefix(*c, db, glo, ghi, hi_incl, start as int);
    }
    let mut out: Vec<(Vec<u8>, Vec<u8>)> = Vec::new();
    let mut i: usize = start;
    proof {
        assert(kv_view(out@) =~= Seq::<(Seq<u8>, Seq<u8>)>::empty());
        assert(kv_view(out@) + db_pairs(db_range_from(*c, db, glo, ghi, hi_incl, i as int)) =~= total);
    }
    while i < n
        invariant
            n == entries@.len(),
            db == db_view(entries@),
            db.len() == n,
            db_keys_sorted(*c, db),
            start <= i <= n,
            glo == opt_bytes(lo),
            ghi == opt_bytes(hi),
            glo matches Some(l) ==> start as int == db_lower(*c, db, l),
            total == db_pairs(db_range(*c, db, glo, ghi, hi_incl)),
            kv_view(out@) + db_pairs(db_range_from(*c, db, glo, ghi, hi_incl, i as int)) == total,
        decreases n - i,
    {
        let e = &entries[i];
        proof {
            assert(db[i as int] == e@);
        }
        let upper_ok: bool = match hi {
            Some(h) => match c.cmp(e.key.as_slice(), h) {
                Cmp::Less => true,
                Cmp::Equal => hi_incl,
                Cmp::Greater => false,
            },
            None => true,
        };
        if !upper_ok {
            proof {
                let h = ghi.unwrap();
                lemma_trichotomy(c, db[i as int].0, h);
                assert forall|j: int| i <= j < n implies !key_in_range(
                    *c,
                    (#[trigger] db[j]).0,
                    glo,
                    ghi,
                    hi_incl,
                ) by {
                    if j > i {
                        if ord_eqv(*c, db[i as int].0, h) {
                            lemma_eqv_lt(c, h, db[i as int].0, db[j].0);
                        } else {
                            lemma_lt_trans(c, h, db[i as int].0, db[j].0);
                        }
                        lemma_trichotomy(c, db[j].0, h);
                    }
                }
                lemma_db_range_empty_suffix(*c, db, glo, ghi, hi_incl, i as int);
                assert(kv_view(out@) =~= total);
            }
            return out;
        }
        proof {
            if glo is Some {
                let l = glo.unwrap();
                lemma_db_lower_from(*c, db, l, 0);
                if i > start {
                    if ord_lt(*c, db[i as int].0, l) {
                        lemma_lt_trans(c, db[start as int].0, db[i as int].0, l);
                    }
                }
            }
            if ghi is Some {
                lemma_trichotomy(c, db[i as int].0, ghi.unwrap());
            }
            assert(key_in_range(*c, db[i as int].0, glo, ghi, hi_incl));
        }
        let ghost base = kv_view(out@);
        let m = e.vals.len();
        let mut j: usize = 0;
        while j < m
            invariant
                m == e.vals@.len(),
                j <= m,
                kv_view(out@).len() == base.len() + j,
                forall|q: int| 0 <= q < base.len() ==> kv_view(out@)[q] == base[q],
                forall|q: int| 0 <= q < j ==> kv_view(out@)[base.len() + q] == (e@.0, e@.1[q]),
            decreases m - j,
        {
            out.push((copy_bytes(&e.key), copy_bytes(&e.vals[j])));
            proof {
                assert(e@.1[j as int] == e.vals@[j as int]@);
            }
            j = j + 1;
        }
        proof {
            assert(kv_view(out@) =~= base + entry_pairs(e@));
            let rest = db_range_from(*c, db, glo, ghi, hi_incl, i + 1);
            assert(db_range_from(*c, db, glo, ghi, hi_incl, i as int) == seq![db[i as int]] + rest);
            lemma_db_pairs_cons(db[i as int], rest);
            assert(kv_view(out@) + db_pairs(rest) =~= total);
        }
        i = i + 1;
    }
    proof {
        assert(db_pairs(db_range_from(*c, db, glo, ghi, hi_incl, n as int)) =~= Seq::<(
            Seq<u8>,
            Seq<u8>,
        )>::empty());
        assert(kv_view(out@) =~= total);
    }
    out
}

} // verus!
