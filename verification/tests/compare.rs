use mdb::{Cmp, DbFlags, EnvBuilder, FromMdbValue, KeyOrd, RevOrd};

/// Reads the first four bytes as a big-endian integer, negated when odd.
fn negative_if_odd_val(v: &[u8]) -> i32 {
    let mut t_val: [u8; 4] = [0_u8; 4];
    for i in 0..t_val.len() {
        t_val[i] = v[i];
    }
    let i = i32::from_be_bytes(t_val);
    if i % 2 == 0 {
        i
    } else {
        -i
    }
}

/// A nonsensical comparison that sorts differently than byte-by-byte
/// comparison: odd integers sort as their negated magnitude.
///
/// The ordering members below stand for the ghost half of `KeyOrd`; they
/// are never executed, only `cmp` is.
struct NegativeOddOrd;

impl KeyOrd for NegativeOddOrd {
    fn le(&self, _a: vstd::seq::Seq<u8>, _b: vstd::seq::Seq<u8>) -> bool {
        unreachable!()
    }

    fn transitive(&self, _a: vstd::seq::Seq<u8>, _b: vstd::seq::Seq<u8>, _c: vstd::seq::Seq<u8>) {
        unreachable!()
    }

    fn total(&self, _a: vstd::seq::Seq<u8>, _b: vstd::seq::Seq<u8>) {
        unreachable!()
    }

    fn cmp(&self, a: &[u8], b: &[u8]) -> Cmp {
        let lhs = negative_if_odd_val(a);
        let rhs = negative_if_odd_val(b);
        if lhs < rhs {
            Cmp::Less
        } else if lhs == rhs {
            Cmp::Equal
        } else {
            Cmp::Greater
        }
    }
}

#[test]
fn test_compare() {
    let mut env = EnvBuilder::new().open().unwrap();
    let db_handle = env.get_default_db(DbFlags::empty()).unwrap();
    let db_handle = db_handle.set_compare(NegativeOddOrd);
    let val: Vec<u8> = 0_u32.to_be_bytes().to_vec();
    let two = 2_u32.to_be_bytes().to_vec();
    let three = 3_u32.to_be_bytes().to_vec();
    let four = 4_u32.to_be_bytes().to_vec();
    let five = 5_u32.to_be_bytes().to_vec();

    let mut txn = env.new_transaction().unwrap();
    let i: Vec<u8> = two.clone();
    txn.set(&db_handle, &i, &val).unwrap();
    let i: Vec<u8> = three.clone();
    txn.set(&db_handle, &i, &val).unwrap();
    assert!(txn.commit(&mut env).is_ok());

    let mut txn = env.new_transaction().unwrap();
    let i: Vec<u8> = four.clone();
    txn.set(&db_handle, &i, &val).unwrap();
    let i: Vec<u8> = five.clone();
    txn.set(&db_handle, &i, &val).unwrap();
    assert!(txn.commit(&mut env).is_ok());

    let txn = env.new_transaction().unwrap();
    let keys: Vec<Vec<u8>> = txn.iter(&db_handle).unwrap().into_iter().map(|(k, _v)| k).collect();
    assert_eq!(keys, [five, three, two, four]);
}

#[test]
fn test_dupsort() {
    let mut env = EnvBuilder::new().open().unwrap();
    let db_handle = env.get_default_db(DbFlags::empty().with_dups()).unwrap();
    let db_handle = db_handle.set_dupsort(NegativeOddOrd);
    let key: Vec<u8> = 0_u32.to_be_bytes().to_vec();
    let two = 2_u32.to_be_bytes().to_vec();
    let three = 3_u32.to_be_bytes().to_vec();
    let four = 4_u32.to_be_bytes().to_vec();
    let five = 5_u32.to_be_bytes().to_vec();

    let mut txn = env.new_transaction().unwrap();
    let i: Vec<u8> = two.clone();
    txn.set(&db_handle, &key, &i).unwrap();
    let i: Vec<u8> = three.clone();
    txn.set(&db_handle, &key, &i).unwrap();
    assert!(txn.commit(&mut env).is_ok());

    let mut txn = env.new_transaction().unwrap();
    let i: Vec<u8> = four.clone();
    txn.set(&db_handle, &key, &i).unwrap();
    let i: Vec<u8> = five.clone();
    txn.set(&db_handle, &key, &i).unwrap();
    assert!(txn.commit(&mut env).is_ok());

    let txn = env.new_transaction().unwrap();
    let vals: Vec<Vec<u8>> = txn.item_iter(&db_handle, &key).unwrap().iter().map(
        |cv| Vec::from_mdb_value(cv),
    ).collect();
    assert_eq!(vals, [five, three, two, four]);
}

/// A comparator registered through set_compare reorders full-table
/// iteration: under the reversed byte order, keys come back largest first.
#[test]
fn reversed_comparator_reorders_iteration() {
    let mut env = EnvBuilder::new().open().unwrap();
    let db = env.get_default_db(DbFlags::empty()).unwrap();
    let db = db.set_compare(RevOrd);
    let mut txn = env.new_transaction().unwrap();
    txn.set(&db, &"apple", &"1").unwrap();
    txn.set(&db, &"cherry", &"2").unwrap();
    txn.set(&db, &"banana", &"3").unwrap();
    txn.commit(&mut env).unwrap();

    let reader = env.get_reader().unwrap();
    let keys: Vec<String> = reader.iter(&db).unwrap().into_iter().map(
        |(k, _v)| String::from_utf8(k).unwrap(),
    ).collect();
    assert_eq!(mdb::as_slices(&keys), vec!["cherry", "banana", "apple"]);
}
