//! Key and duplicate-value ordering.
//!
//! The store invokes a comparator for every ordering-sensitive operation:
//! lookups, ordered inserts, append checks, cursor movement and range
//! queries. A comparator is a capability object implementing [`KeyOrd`]: a
//! total preorder `le` on byte strings together with an executable three-way
//! comparison proved to agree with it. Two byte strings may compare equal
//! without being identical; the store then treats them as the same key.

use vstd::prelude::*;

verus! {

/// Result of a three-way comparison.
#[derive(Clone, Copy, PartialEq, Eq, Structural, Debug)]
pub enum Cmp {
    Less,
    Equal,
    Greater,
}

/// A total preorder on byte strings, with an executable comparison.
///
/// `le` need not be antisymmetric: a comparator may identify distinct byte
/// strings, and every ordering-sensitive operation of the store then treats
/// them as equal.
pub trait KeyOrd: Sized {
    /// The ordering itself: does `a` sort no later than `b`?
    spec fn le(&self, a: Seq<u8>, b: Seq<u8>) -> bool;

    /// `le` is transitive.
    proof fn transitive(&self, a: Seq<u8>, b: Seq<u8>, c: Seq<u8>)
        requires
            self.le(a, b),
            self.le(b, c),
        ensures
            self.le(a, c),
    ;

    /// `le` is total.
    proof fn total(&self, a: Seq<u8>, b: Seq<u8>)
        ensures
            self.le(a, b) || self.le(b, a),
    ;

    /// Three-way comparison agreeing with `le`.
    fn cmp(&self, a: &[u8], b: &[u8]) -> (c: Cmp)
        ensures
            c == Cmp::Less ==> self.le(a@, b@) && !self.le(b@, a@),
            c == Cmp::Equal ==> self.le(a@, b@) && self.le(b@, a@),
            c == Cmp::Greater ==> self.le(b@, a@) && !self.le(a@, b@),
    ;
}

/// `a` sorts strictly before `b` under `c`.
pub open spec fn ord_lt<C: KeyOrd>(c: C, a: Seq<u8>, b: Seq<u8>) -> bool {
    c.le(a, b) && !c.le(b, a)
}

/// `a` and `b` are equal under `c`.
pub open spec fn ord_eqv<C: KeyOrd>(c: C, a: Seq<u8>, b: Seq<u8>) -> bool {
    c.le(a, b) && c.le(b, a)
}

/// Of `ord_lt(c, a, b)`, `ord_eqv(c, a, b)` and `ord_lt(c, b, a)`, exactly
/// one holds.
pub proof fn lemma_trichotomy<C: KeyOrd>(c: &C, a: Seq<u8>, b: Seq<u8>)
    ensures
        ord_lt(*c, a, b) || ord_eqv(*c, a, b) || ord_lt(*c, b, a),
        !(ord_lt(*c, a, b) && ord_eqv(*c, a, b)),
        !(ord_lt(*c, a, b) && ord_lt(*c, b, a)),
        !(ord_eqv(*c, a, b) && ord_lt(*c, b, a)),
{
    c.total(a, b);
}

/// Strict order composed with strict order is strict.
pub proof fn lemma_lt_trans<C: KeyOrd>(c: &C, a: Seq<u8>, b: Seq<u8>, x: Seq<u8>)
    requires
        ord_lt(*c, a, b),
        ord_lt(*c, b, x),
    ensures
        ord_lt(*c, a, x),
{
    c.transitive(a, b, x);
    if c.le(x, a) {
        c.transitive(b, x, a);
    }
}

/// Equality composed with strict order is strict.
pub proof fn lemma_eqv_lt<C: KeyOrd>(c: &C, a: Seq<u8>, b: Seq<u8>, x: Seq<u8>)
    requires
        ord_eqv(*c, a, b),
        ord_lt(*c, b, x),
    ensures
        ord_lt(*c, a, x),
{
    c.transitive(a, b, x);
    if c.le(x, a) {
        c.transitive(x, a, b);
    }
}

/// Strict order composed with equality is strict.
pub proof fn lemma_lt_eqv<C: KeyOrd>(c: &C, a: Seq<u8>, b: Seq<u8>, x: Seq<u8>)
    requires
        ord_lt(*c, a, b),
        ord_eqv(*c, b, x),
    ensures
        ord_lt(*c, a, x),
{
    c.transitive(a, b, x);
    if c.le(x, a) {
        c.transitive(b, x, a);
    }
}

/// Equality under a comparator is transitive.
pub proof fn lemma_eqv_trans<C: KeyOrd>(c: &C, a: Seq<u8>, b: Seq<u8>, x: Seq<u8>)
    requires
        ord_eqv(*c, a, b),
        ord_eqv(*c, b, x),
    ensures
        ord_eqv(*c, a, x),
{
    c.transitive(a, b, x);
    c.transitive(x, b, a);
}

/// Equality under a comparator is reflexive.
pub proof fn lemma_eqv_refl<C: KeyOrd>(c: &C, a: Seq<u8>)
    ensures
        ord_eqv(*c, a, a),
{
    c.total(a, a);
}

/// Byte-lexicographic order: is `a` no later than `b`?
pub open spec fn lex_le(a: Seq<u8>, b: Seq<u8>) -> bool
    decreases a.len(),
{
    if a.len() == 0 {
        true
    } else if b.len() == 0 {
        false
    } else if a[0] < b[0] {
        true
    } else if a[0] > b[0] {
        false
    } else {
        lex_le(a.skip(1), b.skip(1))
    }
}

/// Byte-lexicographic order is total.
pub proof fn lemma_lex_total(a: Seq<u8>, b: Seq<u8>)
    ensures
        lex_le(a, b) || lex_le(b, a),
    decreases a.len(),
{
    if a.len() != 0 && b.len() != 0 && a[0] == b[0] {
        lemma_lex_total(a.skip(1), b.skip(1));
    }
}

/// Byte-lexicographic order is transitive.
pub proof fn lemma_lex_trans(a: Seq<u8>, b: Seq<u8>, c: Seq<u8>)
    requires
        lex_le(a, b),
        lex_le(b, c),
    ensures
        lex_le(a, c),
    decreases a.len(),
{
    if a.len() != 0 && b.len() != 0 && c.len() != 0 && a[0] == b[0] && b[0] == c[0] {
        lemma_lex_trans(a.skip(1), b.skip(1), c.skip(1));
    }
}

/// When the first `i` bytes agree, the order is decided by the rest.
proof fn lemma_lex_skip(a: Seq<u8>, b: Seq<u8>, i: int)
    requires
        0 <= i <= a.len(),
        i <= b.len(),
        forall|j: int| 0 <= j < i ==> a[j] == b[j],
    ensures
        lex_le(a, b) == lex_le(a.skip(i), b.skip(i)),
    decreases i,
{
    if i == 0 {
        assert(a.skip(0) =~= a);
        assert(b.skip(0) =~= b);
    } else {
        assert(a.skip(1).skip(i - 1) =~= a.skip(i));
        assert(b.skip(1).skip(i - 1) =~= b.skip(i));
        assert(forall|j: int| 0 <= j < i - 1 ==> a.skip(1)[j] == b.skip(1)[j]);
        lemma_lex_skip(a.skip(1), b.skip(1), i - 1);
        assert(a[0] == b[0]);
        assert(lex_le(a, b) == lex_le(a.skip(1), b.skip(1)));
    }
}

/// The default comparator: byte-lexicographic order, shorter strings first.
#[derive(Clone, Copy, PartialEq, Eq, Structural, Debug)]
pub struct LexOrd;

impl KeyOrd for LexOrd {
    open spec fn le(&self, a: Seq<u8>, b: Seq<u8>) -> bool {
        lex_le(a, b)
    }

    proof fn transitive(&self, a: Seq<u8>, b: Seq<u8>, c: Seq<u8>) {
        lemma_lex_trans(a, b, c);
    }

    proof fn total(&self, a: Seq<u8>, b: Seq<u8>) {
        lemma_lex_total(a, b);
    }

    fn cmp(&self, a: &[u8], b: &[u8]) -> (c: Cmp) {
        lex_cmp(a, b)
    }
}

/// A comparator that reverses the byte-lexicographic order.
#[derive(Clone, Copy, PartialEq, Eq, Structural, Debug)]
pub struct RevOrd;

impl KeyOrd for RevOrd {
    open spec fn le(&self, a: Seq<u8>, b: Seq<u8>) -> bool {
        lex_le(b, a)
    }

    proof fn transitive(&self, a: Seq<u8>, b: Seq<u8>, c: Seq<u8>) {
        lemma_lex_trans(c, b, a);
    }

    proof fn total(&self, a: Seq<u8>, b: Seq<u8>) {
        lemma_lex_total(b, a);
    }

    fn cmp(&self, a: &[u8], b: &[u8]) -> (c: Cmp) {
        lex_cmp(b, a)
    }
}

/// Three-way byte-lexicographic comparison.
pub fn lex_cmp(a: &[u8], b: &[u8]) -> (c: Cmp)
    ensures
        c == Cmp::Less ==> lex_le(a@, b@) && !lex_le(b@, a@),
        c == Cmp::Equal ==> lex_le(a@, b@) && lex_le(b@, a@),
        c == Cmp::Greater ==> lex_le(b@, a@) && !lex_le(a@, b@),
{
    let alen = a.len();
    let blen = b.len();
    let mut i: usize = 0;
    while i < alen && i < blen
        invariant
            alen == a@.len(),
            blen == b@.len(),
            i <= alen,
            i <= blen,
            forall|j: int| 0 <= j < i ==> a@[j] == b@[j],
        decreases alen - i,
    {
        let x = a[i];
        let y = b[i];
        if x < y {
            proof {
                lemma_lex_skip(a@, b@, i as int);
                lemma_lex_skip(b@, a@, i as int);
            }
            return Cmp::Less;
        }
        if x > y {
            proof {
                lemma_lex_skip(a@, b@, i as int);
                lemma_lex_skip(b@, a@, i as int);
            }
            return Cmp::Greater;
        }
        i = i + 1;
    }
    proof {
        lemma_lex_skip(a@, b@, i as int);
        lemma_lex_skip(b@, a@, i as int);
    }
    if alen == blen {
        Cmp::Equal
    } else if alen < blen {
        Cmp::Less
    } else {
        Cmp::Greater
    }
}

} // verus!
