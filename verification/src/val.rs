//! Conversion of typed values to and from the store's byte strings.
//!
//! [`MdbValue`] is the value view handed across the store's boundary: in this
//! safe model it owns its bytes, so a view obtained from a transaction may be
//! converted at leisure. [`ToMdbValue`] produces a view from a typed value;
//! [`FromMdbValue`] reconstructs a typed value from a view, validating where
//! the target type demands it (UTF-8 for `String`).

use vstd::prelude::*;
use vstd::slice::slice_to_vec;
use vstd::utf8::{decode_utf8, valid_utf8};
use crate::errors::MdbError;

verus! {

/// A value view: one byte string read from or written to the store.
#[derive(PartialEq, Eq, Debug)]
pub struct MdbValue {
    bytes: Vec<u8>,
}

impl View for MdbValue {
    type V = Seq<u8>;

    closed spec fn view(&self) -> Seq<u8> {
        self.bytes@
    }
}

impl MdbValue {
    /// Wrap a byte string.
    pub fn new(bytes: Vec<u8>) -> (r: MdbValue)
        ensures
            r@ == bytes@,
    {
        MdbValue { bytes }
    }

    /// The number of bytes in the view.
    pub fn get_size(&self) -> (r: usize)
        ensures
            r == self@.len(),
    {
        self.bytes.len()
    }

    /// The bytes themselves.
    pub fn get_ref(&self) -> (r: &[u8])
        ensures
            r@ == self@,
    {
        self.bytes.as_slice()
    }

    /// The bytes, owned.
    pub fn into_vec(self) -> (r: Vec<u8>)
        ensures
            r@ == self@,
    {
        self.bytes
    }

    /// The bytes decoded as UTF-8; `EncodingError` exactly on invalid input.
    pub fn as_string(&self) -> (r: Result<String, MdbError>)
        ensures
            r is Ok <==> valid_utf8(self@),
            r matches Ok(s) ==> s@ == decode_utf8(self@),
            r is Err ==> r == Err::<String, MdbError>(MdbError::EncodingError),
    {
        let copy: Vec<u8> = slice_to_vec(self.bytes.as_slice());
        match string_from_utf8(copy) {
            Some(s) => Ok(s),
            None => Err(MdbError::EncodingError),
        }
    }
}

/// Relies on `String::from_utf8`: it returns `Ok` exactly on valid UTF-8,
/// and the string holds the decoding of the bytes.
#[verifier::external_body]
fn string_from_utf8(bytes: Vec<u8>) -> (r: Option<String>)
    ensures
        r is Some <==> valid_utf8(bytes@),
        r matches Some(s) ==> s@ == decode_utf8(bytes@),
{
    String::from_utf8(bytes).ok()
}

/// Copy a byte string.
pub fn copy_bytes(v: &Vec<u8>) -> (r: Vec<u8>)
    ensures
        r@ == v@,
{
    slice_to_vec(v.as_slice())
}

/// A typed value that can be turned into a value view.
pub trait ToMdbValue {
    /// The byte string the view will hold.
    spec fn mdb_bytes(&self) -> Seq<u8>;

    /// Produce the view.
    fn to_mdb_value(&self) -> (r: MdbValue)
        ensures
            r@ == self.mdb_bytes(),
    ;
}

/// A typed value that can be reconstructed from a value view.
pub trait FromMdbValue: Sized {
    /// Which byte strings convert; conversion of others would have to fail.
    spec fn accepts(bytes: Seq<u8>) -> bool;

    /// Does this value faithfully render the byte string?
    spec fn reflects(&self, bytes: Seq<u8>) -> bool;

    /// Reconstruct the value.
    fn from_mdb_value(value: &MdbValue) -> (r: Self)
        requires
            Self::accepts(value@),
        ensures
            r.reflects(value@),
    ;
}

impl ToMdbValue for Vec<u8> {
    open spec fn mdb_bytes(&self) -> Seq<u8> {
        self@
    }

    fn to_mdb_value(&self) -> (r: MdbValue) {
        MdbValue::new(copy_bytes(self))
    }
}

impl ToMdbValue for MdbValue {
    open spec fn mdb_bytes(&self) -> Seq<u8> {
        self@
    }

    fn to_mdb_value(&self) -> (r: MdbValue) {
        MdbValue::new(copy_bytes(&self.bytes))
    }
}

impl ToMdbValue for String {
    open spec fn mdb_bytes(&self) -> Seq<u8> {
        vstd::utf8::encode_utf8(self@)
    }

    fn to_mdb_value(&self) -> (r: MdbValue) {
        MdbValue::new(slice_to_vec(self.as_str().as_bytes()))
    }
}

impl<'a> ToMdbValue for &'a str {
    open spec fn mdb_bytes(&self) -> Seq<u8> {
        vstd::utf8::encode_utf8(self@)
    }

    fn to_mdb_value(&self) -> (r: MdbValue) {
        MdbValue::new(slice_to_vec(self.as_bytes()))
    }
}

impl<'a> ToMdbValue for &'a [u8] {
    open spec fn mdb_bytes(&self) -> Seq<u8> {
        self@
    }

    fn to_mdb_value(&self) -> (r: MdbValue) {
        MdbValue::new(slice_to_vec(self))
    }
}

/// The big-endian encoding of a 64-bit integer.
pub open spec fn be_bytes_u64(n: u64) -> Seq<u8> {
    seq![
        ((n >> 56) & 0xff) as u8,
        ((n >> 48) & 0xff) as u8,
        ((n >> 40) & 0xff) as u8,
        ((n >> 32) & 0xff) as u8,
        ((n >> 24) & 0xff) as u8,
        ((n >> 16) & 0xff) as u8,
        ((n >> 8) & 0xff) as u8,
        (n & 0xff) as u8,
    ]
}

/// Encode a 64-bit integer as eight big-endian bytes.
pub fn u64_to_be(n: u64) -> (r: Vec<u8>)
    ensures
        r@ == be_bytes_u64(n),
{
    let mut r: Vec<u8> = Vec::new();
    r.push(((n >> 56) & 0xff) as u8);
    r.push(((n >> 48) & 0xff) as u8);
    r.push(((n >> 40) & 0xff) as u8);
    r.push(((n >> 32) & 0xff) as u8);
    r.push(((n >> 24) & 0xff) as u8);
    r.push(((n >> 16) & 0xff) as u8);
    r.push(((n >> 8) & 0xff) as u8);
    r.push((n & 0xff) as u8);
    proof {
        assert(r@ =~= be_bytes_u64(n));
    }
    r
}

impl ToMdbValue for u64 {
    open spec fn mdb_bytes(&self) -> Seq<u8> {
        be_bytes_u64(*self)
    }

    fn to_mdb_value(&self) -> (r: MdbValue) {
        MdbValue::new(u64_to_be(*self))
    }
}

impl ToMdbValue for i64 {
    open spec fn mdb_bytes(&self) -> Seq<u8> {
        be_bytes_u64(*self as u64)
    }

    fn to_mdb_value(&self) -> (r: MdbValue) {
        MdbValue::new(u64_to_be(*self as u64))
    }
}

impl FromMdbValue for Vec<u8> {
    open spec fn accepts(bytes: Seq<u8>) -> bool {
        true
    }

    open spec fn reflects(&self, bytes: Seq<u8>) -> bool {
        self@ == bytes
    }

    fn from_mdb_value(value: &MdbValue) -> (r: Self) {
        slice_to_vec(value.get_ref())
    }
}

impl FromMdbValue for String {
    open spec fn accepts(bytes: Seq<u8>) -> bool {
        valid_utf8(bytes)
    }

    open spec fn reflects(&self, bytes: Seq<u8>) -> bool {
        self@ == decode_utf8(bytes)
    }

    fn from_mdb_value(value: &MdbValue) -> (r: Self) {
        match value.as_string() {
            Ok(s) => s,
            Err(_) => {
                proof {
                    assert(false);
                }
                String::new()
            },
        }
    }
}

impl FromMdbValue for () {
    open spec fn accepts(bytes: Seq<u8>) -> bool {
        true
    }

    open spec fn reflects(&self, bytes: Seq<u8>) -> bool {
        true
    }

    fn from_mdb_value(value: &MdbValue) -> (r: Self) {
    }
}

/// Borrow each string of a vector as a slice.
pub fn as_slices<'a>(v: &'a Vec<String>) -> (r: Vec<&'a str>)
    ensures
        r@.len() == v@.len(),
        forall|i: int| 0 <= i < v@.len() ==> r@[i]@ == v@[i]@,
{
    let mut r: Vec<&'a str> = Vec::new();
    let mut i: usize = 0;
    let n = v.len();
    while i < n
        invariant
            n == v@.len(),
            i <= n,
            r@.len() == i,
            forall|j: int| 0 <= j < i ==> r@[j]@ == v@[j]@,
        decreases n - i,
    {
        r.push(v[i].as_str());
        i = i + 1;
    }
    r
}

} // verus!
