use mdb::{DbFlags, EnvBuilder, EnvFlags, FromMdbValue, MdbError};

#[test]
fn test_keyrange_to() {
    let mut env = EnvBuilder::new().open().unwrap();
    let db = env.get_default_db(DbFlags::empty().with_int_key()).unwrap();
    let one = 1_i32.to_be_bytes().to_vec();
    let two = 2_i32.to_be_bytes().to_vec();
    let three = 3_i32.to_be_bytes().to_vec();
    let four = 4_i32.to_be_bytes().to_vec();
    let five = 5_i32.to_be_bytes().to_vec();
    let six = 6_i32.to_be_bytes().to_vec();
    let keys: Vec<Vec<u8>> = vec![one, two, three];
    let values: Vec<Vec<u8>> = vec![four, five, six];

    // to avoid problems caused by updates
    assert_eq!(keys.len(), values.len());

    let mut txn = env.new_transaction().unwrap();
    for (k, v) in keys.clone().iter().zip(values.iter()) {
        assert!(txn.set(&db, k, v).is_ok());
    }
    assert!(txn.commit(&mut env).is_ok());

    let txn = env.get_reader().unwrap();
    let last_idx = keys.len() - 1;
    let last_key: &Vec<u8> = &keys[last_idx];
    // last key is excluded
    let res: Vec<Vec<u8>> = txn.keyrange_to(&db, last_key).unwrap().into_iter().map(|(_k, v)| v).collect();
    assert_eq!(&res[..], &values[..last_idx]);
}

/// Test that selecting a key range with an upper bound smaller than
/// the smallest key in the db yields an empty range.
#[test]
fn test_keyrange_to_init_cursor() {
    let mut env = EnvBuilder::new().open().unwrap();
    let db = env.get_default_db(DbFlags::empty().with_int_key()).unwrap();
    let ten = 10_u32.to_be_bytes().to_vec();
    let fifty = 50_u32.to_be_bytes().to_vec();
    let eleven = 11_u32.to_be_bytes().to_vec();
    let sixty = 60_u32.to_be_bytes().to_vec();
    let twelve = 12_u32.to_be_bytes().to_vec();
    let seventy = 70_u32.to_be_bytes().to_vec();
    let recs: Vec<(Vec<u8>, Vec<u8>)> = vec![(ten, fifty), (eleven, sixty), (twelve, seventy)];

    let mut txn = env.new_transaction().unwrap();
    for (k, v) in recs.iter() {
        assert!(txn.set(&db, k, v).is_ok());
    }
    assert!(txn.commit(&mut env).is_ok());

    let txn = env.get_reader().unwrap();
    // last key is excluded
    let upper_bound: Vec<u8> = 1_u32.to_be_bytes().to_vec();
    let res: Vec<Vec<u8>> = txn.keyrange_to(&db, &upper_bound).unwrap().into_iter().map(|(_k, v)| v).collect();
    assert!(res.is_empty());
}

#[test]
fn test_keyrange_from() {
    let mut env = EnvBuilder::new().open().unwrap();
    let db = env.get_default_db(DbFlags::empty().with_int_key()).unwrap();
    let one = 1_u32.to_be_bytes().to_vec();
    let two = 2_u32.to_be_bytes().to_vec();
    let three = 3_u32.to_be_bytes().to_vec();
    let seven = 7_u32.to_be_bytes().to_vec();
    let five = 5_u32.to_be_bytes().to_vec();
    let six = 6_u32.to_be_bytes().to_vec();
    let keys: Vec<Vec<u8>> = vec![one, two, three];
    let values: Vec<Vec<u8>> = vec![five, six, seven];

    // to avoid problems caused by updates
    assert_eq!(keys.len(), values.len());

    let mut txn = env.new_transaction().unwrap();
    for (k, v) in keys.iter().zip(values.iter()) {
        assert!(txn.set(&db, k, v).is_ok());
    }
    assert!(txn.commit(&mut env).is_ok());

    let txn = env.get_reader().unwrap();
    let start_idx = 1; // second key
    let last_key: &Vec<u8> = &keys[start_idx];
    let res: Vec<Vec<u8>> = txn.keyrange_from(&db, last_key).unwrap().into_iter().map(|(_k, v)| v).collect();
    assert_eq!(&res[..], &values[start_idx..]);
}

/// Test that selecting a key range with a lower bound greater than
/// the biggest key in the db yields an empty range.
#[test]
fn test_keyrange_from_init_cursor() {
    let mut env = EnvBuilder::new().open().unwrap();
    let db = env.get_default_db(DbFlags::empty().with_int_key()).unwrap();
    let ten = 10_u32.to_be_bytes().to_vec();
    let fifty = 50_u32.to_be_bytes().to_vec();
    let eleven = 11_u32.to_be_bytes().to_vec();
    let sixty = 60_u32.to_be_bytes().to_vec();
    let twelve = 12_u32.to_be_bytes().to_vec();
    let seventy = 70_u32.to_be_bytes().to_vec();
    let recs: Vec<(Vec<u8>, Vec<u8>)> = vec![(ten, fifty), (eleven, sixty), (twelve, seventy)];

    let mut txn = env.new_transaction().unwrap();
    for (k, v) in recs.clone().iter() {
        assert!(txn.set(&db, k, v).is_ok());
    }
    assert!(txn.commit(&mut env).is_ok());

    let txn = env.get_reader().unwrap();
    // last key is excluded
    let v_val = &recs.clone()[recs.clone().len() - 1].0;
    let mut t_val: [u8; 4] = [0_u8; 4];
    for i in 0..t_val.len() {
        t_val[i] = v_val[i];
    }
    let lower_bound = (u32::from_be_bytes(t_val) + 1).to_be_bytes().to_vec();
    let res: Vec<Vec<u8>> = txn.keyrange_from(&db, &lower_bound).unwrap().into_iter().map(|(_k, v)| v).collect();
    assert!(res.is_empty());
}

#[test]
fn test_keyrange() {
    let mut env = EnvBuilder::new().open().unwrap();
    let db = env.get_default_db(DbFlags::empty().with_dups().with_int_key()).unwrap();
    let one = 1_u32.to_be_bytes().to_vec();
    let two = 2_u32.to_be_bytes().to_vec();
    let three = 3_u32.to_be_bytes().to_vec();
    let four = 4_u32.to_be_bytes().to_vec();
    let five = 5_u32.to_be_bytes().to_vec();
    let six = 6_u32.to_be_bytes().to_vec();
    let keys: Vec<Vec<u8>> = vec![one, two, three, four, five, six];
    let ten = 10_u32.to_be_bytes().to_vec();
    let eleven = 11_u32.to_be_bytes().to_vec();
    let twelve = 12_u32.to_be_bytes().to_vec();
    let thirteen = 13_u32.to_be_bytes().to_vec();
    let fourteen = 14_u32.to_be_bytes().to_vec();
    let fifteen = 15_u32.to_be_bytes().to_vec();
    let values: Vec<Vec<u8>> = vec![ten, eleven, twelve, thirteen, fourteen, fifteen];

    // to avoid problems caused by updates
    assert_eq!(keys.len(), values.len());

    let mut txn = env.new_transaction().unwrap();
    for (k, v) in keys.iter().zip(values.iter()) {
        assert!(txn.set(&db, k, v).is_ok());
    }
    assert!(txn.commit(&mut env).is_ok());

    let txn = env.get_reader().unwrap();
    let start_idx = 1;
    let end_idx = 3;
    let res: Vec<Vec<u8>> = txn.keyrange(&db, &keys[start_idx], &keys[end_idx]).unwrap().into_iter().map(
        |(_k, v)| v,
    ).collect();

    //  +1 as Rust slices do not include end
    assert_eq!(&res[..], &values[start_idx..end_idx + 1]);
}

/// Test that selecting a key range outside the available data correctly
/// yields an empty range.
#[test]
fn test_keyrange_init_cursor() {
    let mut env = EnvBuilder::new().open().unwrap();
    let db = env.get_default_db(DbFlags::empty().with_dups().with_int_key()).unwrap();
    let one = 1_u32.to_be_bytes().to_vec();
    let two = 2_u32.to_be_bytes().to_vec();
    let three = 3_u32.to_be_bytes().to_vec();
    let four = 4_u32.to_be_bytes().to_vec();
    let five = 5_u32.to_be_bytes().to_vec();
    let six = 6_u32.to_be_bytes().to_vec();
    let keys: Vec<Vec<u8>> = vec![one, two, three, four, five, six];
    let ten = 10_u32.to_be_bytes().to_vec();
    let eleven = 11_u32.to_be_bytes().to_vec();
    let twelve = 12_u32.to_be_bytes().to_vec();
    let thirteen = 13_u32.to_be_bytes().to_vec();
    let fourteen = 14_u32.to_be_bytes().to_vec();
    let fifteen = 15_u32.to_be_bytes().to_vec();
    let values: Vec<Vec<u8>> = vec![ten, eleven, twelve, thirteen, fourteen, fifteen];

    // to avoid problems caused by updates
    assert_eq!(keys.len(), values.len());

    let mut txn = env.new_transaction().unwrap();
    for (k, v) in keys.iter().zip(values.iter()) {
        assert!(txn.set(&db, k, v).is_ok());
    }
    assert!(txn.commit(&mut env).is_ok());

    // test the range selection before the available data range
    let txn = env.get_reader().unwrap();
    {
        let zero = 0u64.to_be_bytes().to_vec();
        let start_key = zero.clone();
        let end_key = zero;
        let res: Vec<Vec<u8>> = txn.keyrange(&db, &start_key, &end_key).unwrap().into_iter().map(
            |(_k, v)| v,
        ).collect();
        assert!(res.is_empty());
    }

    // test the range selection after the available data range
    {
        let start_key: Vec<u8> = 10_u32.to_be_bytes().to_vec();
        let end_key: Vec<u8> = 10_u32.to_be_bytes().to_vec();
        let res: Vec<Vec<u8>> = txn.keyrange(&db, &start_key, &end_key).unwrap().into_iter().map(
            |(_k, v)| v,
        ).collect();
        assert!(res.is_empty());
    }
}

#[test]
fn test_keyrange_from_to() {
    let mut env = EnvBuilder::new().open().unwrap();
    let db = env.get_default_db(DbFlags::empty().with_dups().with_int_key()).unwrap();
    let ten = 10_u32.to_be_bytes().to_vec();
    let eleven = 11_u32.to_be_bytes().to_vec();
    let twenty = 20_u32.to_be_bytes().to_vec();
    let twenty_one = 21_u32.to_be_bytes().to_vec();
    let thirty = 30_u32.to_be_bytes().to_vec();
    let thirty_one = 31_u32.to_be_bytes().to_vec();
    let fourty = 40_u32.to_be_bytes().to_vec();
    let fourty_one = 41_u32.to_be_bytes().to_vec();
    let fifty = 50_u32.to_be_bytes().to_vec();
    let fifty_one = 51_u32.to_be_bytes().to_vec();
    let recs: Vec<(Vec<u8>, Vec<u8>)> = vec![
        (ten, eleven),
        (twenty, twenty_one),
        (thirty, thirty_one),
        (fourty, fourty_one),
        (fifty, fifty_one),
    ];

    let mut txn = env.new_transaction().unwrap();
    for (k, v) in recs.clone().iter() {
        assert!(txn.set(&db, k, v).is_ok());
    }
    assert!(txn.commit(&mut env).is_ok());

    let txn = env.get_reader().unwrap();
    let start_idx = 1;
    let end_idx = 3;
    let res: Vec<Vec<u8>> = txn.keyrange_from_to(&db, &recs[start_idx].0, &recs[end_idx].0).unwrap()
        .into_iter().map(|(_k, v)| v).collect();
    // ~ end_key must be excluded here
    let exp: Vec<Vec<u8>> = recs[start_idx..end_idx].iter().map(|x| x.1.clone()).collect();
    assert_eq!(res, exp);
}

#[test]
fn test_readonly_env() {
    let ten = 10_u32.to_be_bytes().to_vec();
    let eleven = 11_u32.to_be_bytes().to_vec();
    let twelve = 12_u32.to_be_bytes().to_vec();
    let thirteen = 13_u32.to_be_bytes().to_vec();
    let fourteen = 14_u32.to_be_bytes().to_vec();
    let recs: Vec<(Vec<u8>, Vec<u8>)> = vec![
        (ten, eleven.clone()),
        (eleven, twelve.clone()),
        (twelve, thirteen.clone()),
        (thirteen, fourteen),
    ];

    // ~ first create a new read-write environment with its default
    // database containing a few entries
    let image = {
        let mut rw_env = EnvBuilder::new().open().unwrap();
        let dbh = rw_env.get_default_db(DbFlags::empty().with_int_key()).unwrap();
        let mut tx = rw_env.new_transaction().unwrap();
        for rec in recs.clone().iter() {
            tx.set(&dbh, &rec.0, &rec.1).unwrap();
        }
        tx.commit(&mut rw_env).unwrap();
        rw_env.close()
    };

    // ~ now re-open the previously written store in read-only mode
    // and iterate the key/value pairs
    let mut ro_env = EnvBuilder::new()
        .flags(EnvFlags::empty().with_read_only())
        .open_from(image)
        .unwrap();
    let dbh = ro_env.get_default_db(DbFlags::empty().with_int_key()).unwrap();
    assert!(ro_env.new_transaction().is_err());
    let tx = ro_env.get_reader().unwrap();
    let kvs: Vec<(Vec<u8>, Vec<u8>)> = tx.iter(&dbh).unwrap();
    assert_eq!(recs, kvs);
    tx.abort();
}

/// Keys 1, 2 and 3 (big-endian) map to values 4, 5 and 6; selecting
/// strictly below key 3 over the committed snapshot yields 4 and 5 in that
/// order.
#[test]
fn three_records_keyrange_to() {
    let mut env = EnvBuilder::new().open().unwrap();
    let db = env.get_default_db(DbFlags::empty().with_int_key()).unwrap();
    let keys: Vec<Vec<u8>> = vec![
        1_u32.to_be_bytes().to_vec(),
        2_u32.to_be_bytes().to_vec(),
        3_u32.to_be_bytes().to_vec(),
    ];
    let values: Vec<Vec<u8>> = vec![
        4_u32.to_be_bytes().to_vec(),
        5_u32.to_be_bytes().to_vec(),
        6_u32.to_be_bytes().to_vec(),
    ];
    let mut txn = env.new_transaction().unwrap();
    for (k, v) in keys.iter().zip(values.iter()) {
        txn.set(&db, k, v).unwrap();
    }
    txn.commit(&mut env).unwrap();

    let reader = env.get_reader().unwrap();
    let res: Vec<Vec<u8>> = reader.keyrange_to(&db, &keys[2]).unwrap().into_iter().map(|(_k, v)| v).collect();
    assert_eq!(&res[..], &values[..2]);
}

/// A read-only environment rejects a write transaction with the read-only
/// error, while a reader sees the previously committed data unchanged.
#[test]
fn read_only_env_rejects_writer() {
    let image = {
        let mut rw = EnvBuilder::new().open().unwrap();
        let db = rw.get_default_db(DbFlags::empty()).unwrap();
        let mut tx = rw.new_transaction().unwrap();
        tx.set(&db, &"stable", &"datum").unwrap();
        tx.commit(&mut rw).unwrap();
        rw.close()
    };
    let mut ro = EnvBuilder::new().flags(EnvFlags::empty().with_read_only()).open_from(image).unwrap();
    let db = ro.get_default_db(DbFlags::empty()).unwrap();
    match ro.new_transaction() {
        Err(MdbError::ReadOnlyEnvironment) => (),
        _ => panic!("expected ReadOnlyEnvironment"),
    }
    let reader = ro.get_reader().unwrap();
    let v = String::from_mdb_value(&reader.get(&db, &"stable").unwrap());
    assert_eq!(v, "datum");
}
