use mdb::{DbFlags, EnvBuilder, FromMdbValue, MdbError};

#[test]
fn test_cursors() {
    let mut env = EnvBuilder::new().max_dbs(5).open().unwrap();

    let db = env.get_default_db(DbFlags::empty().with_dups()).unwrap();
    let mut txn = env.new_transaction().unwrap();

    let test_key1 = "key1";
    let test_key2 = "key2";
    let test_values: Vec<&str> = vec!["value1", "value2", "value3", "value4"];

    assert!(txn.get(&db, &test_key1).is_err(), "Key shouldn't exist yet");

    for t in test_values.iter() {
        let _ = txn.set(&db, &test_key1, t);
        let _ = txn.set(&db, &test_key2, t);
    }

    let mut cursor = txn.new_cursor(&db).unwrap();
    assert!(cursor.to_first(&txn, &db).is_ok());

    assert!(cursor.to_key(&txn, &db, &test_key1).is_ok());
    assert!(cursor.item_count(&txn, &db).unwrap() == 4);

    assert!(cursor.del_item(&mut txn, &db).is_ok());
    assert!(cursor.item_count(&txn, &db).unwrap() == 3);

    assert!(cursor.to_key(&txn, &db, &test_key1).is_ok());
    let new_value = "testme";

    assert!(cursor.replace(&mut txn, &db, &new_value).is_ok());
    {
        let (_, v) = cursor.get(&txn, &db).unwrap();
        assert!(String::from_mdb_value(&v) == new_value);
    }

    assert!(cursor.del_all(&mut txn, &db).is_ok());
    assert!(cursor.to_key(&txn, &db, &test_key1).is_err());

    assert!(cursor.to_key(&txn, &db, &test_key2).is_ok());
}

#[test]
fn test_cursor_item_manip() {
    let mut env = EnvBuilder::new().max_dbs(5).open().unwrap();

    let db = env.get_default_db(DbFlags::empty().with_dups().with_int_dups()).unwrap();
    let mut txn = env.new_transaction().unwrap();

    let test_key1 = "key1";
    let test_val_3 = 3u64.to_be_bytes().to_vec();
    let test_val_4 = 4u64.to_be_bytes().to_vec();
    let test_val_5 = 5u64.to_be_bytes().to_vec();
    let test_val_6 = 6u64.to_be_bytes().to_vec();

    assert!(txn.set(&db, &test_key1, &test_val_3).is_ok());

    let mut cursor = txn.new_cursor(&db).unwrap();
    assert!(cursor.to_key(&txn, &db, &test_key1).is_ok());

    let values: Vec<Vec<u8>> = txn.item_iter(&db, &test_key1).unwrap().iter().map(
        |cv| Vec::from_mdb_value(cv),
    ).collect();
    assert_eq!(values, vec![test_val_3.to_vec()]);

    assert!(cursor.add_item(&mut txn, &db, &test_val_4).is_ok());
    assert!(cursor.add_item(&mut txn, &db, &test_val_5).is_ok());

    let values: Vec<Vec<u8>> = txn.item_iter(&db, &test_key1).unwrap().iter().map(
        |cv| Vec::from_mdb_value(cv),
    ).collect();
    assert_eq!(values, vec![test_val_3.to_vec(), test_val_4.to_vec(), test_val_5.to_vec()]);

    assert!(cursor.replace(&mut txn, &db, &test_val_6).is_ok());
    let values: Vec<Vec<u8>> = txn.item_iter(&db, &test_key1).unwrap().iter().map(
        |cv| Vec::from_mdb_value(cv),
    ).collect();

    assert_eq!(values, vec![test_val_3, test_val_4, test_val_6]);
}

#[test]
fn test_item_iter() {
    let mut env = EnvBuilder::new().max_dbs(5).open().unwrap();

    let db = env.get_default_db(DbFlags::empty().with_dups()).unwrap();
    let mut txn = env.new_transaction().unwrap();

    let test_key1 = "key1";
    let test_data1 = "value1";
    let test_data2 = "value2";
    let test_key2 = "key2";
    let test_key3 = "key3";

    assert!(txn.set(&db, &test_key1, &test_data1).is_ok());
    assert!(txn.set(&db, &test_key1, &test_data2).is_ok());
    assert!(txn.set(&db, &test_key2, &test_data1).is_ok());

    let iter = txn.item_iter(&db, &test_key1).unwrap();
    let values: Vec<String> = iter.iter().map(|cv| String::from_mdb_value(cv)).collect();
    assert_eq!(mdb::as_slices(&values), vec![test_data1, test_data2]);

    let iter = txn.item_iter(&db, &test_key2).unwrap();
    let values: Vec<String> = iter.iter().map(|cv| String::from_mdb_value(cv)).collect();
    assert_eq!(mdb::as_slices(&values), vec![test_data1]);

    let iter = txn.item_iter(&db, &test_key3).unwrap();
    let values: Vec<String> = iter.iter().map(|cv| String::from_mdb_value(cv)).collect();
    assert_eq!(values.len(), 0);
}

#[test]
fn test_cursor_in_txns() {
    let mut env = EnvBuilder::new().max_dbs(5).open().unwrap();

    {
        let db = env.create_db("test1", DbFlags::empty().with_dups().with_int_dups()).unwrap();
        let txn = env.new_transaction().unwrap();

        let cursor = txn.new_cursor(&db);
        assert!(cursor.is_ok());

        assert!(txn.commit(&mut env).is_ok());
    }

    {
        let db = env.create_db("test1", DbFlags::empty().with_dups().with_int_dups()).unwrap();
        let txn = env.new_transaction().unwrap();

        let cursor = txn.new_cursor(&db);
        assert!(cursor.is_ok());

        assert!(txn.commit(&mut env).is_ok());
    }
}

#[test]
fn cursor_walks_keys_and_items() {
    let mut env = EnvBuilder::new().open().unwrap();
    let db = env.get_default_db(DbFlags::empty().with_dups()).unwrap();
    let mut txn = env.new_transaction().unwrap();
    txn.set(&db, &"a", &"1").unwrap();
    txn.set(&db, &"a", &"2").unwrap();
    txn.set(&db, &"b", &"3").unwrap();

    let mut cursor = txn.new_cursor(&db).unwrap();
    assert!(cursor.to_first(&txn, &db).is_ok());
    let k = String::from_mdb_value(&cursor.get_key(&txn, &db).unwrap());
    assert_eq!(k, "a");
    assert!(cursor.next_item(&txn, &db).is_ok());
    let v = String::from_mdb_value(&cursor.get_value(&txn, &db).unwrap());
    assert_eq!(v, "2");
    assert!(cursor.next(&txn, &db).is_ok());
    let k = String::from_mdb_value(&cursor.get_key(&txn, &db).unwrap());
    assert_eq!(k, "b");
    match cursor.next(&txn, &db) {
        Err(MdbError::NotFound) => (),
        _ => panic!("expected NotFound at the last key"),
    }
    assert!(cursor.prev(&txn, &db).is_ok());
    assert!(cursor.to_last(&txn, &db).is_ok());
    let v = String::from_mdb_value(&cursor.get_value(&txn, &db).unwrap());
    assert_eq!(v, "3");
    assert!(cursor.prev_item(&txn, &db).is_err());
    assert!(cursor.to_range(&txn, &db, &"ab").is_ok());
    let k = String::from_mdb_value(&cursor.get_key(&txn, &db).unwrap());
    assert_eq!(k, "b");
}

#[test]
fn unpositioned_cursor_is_invalid() {
    let mut env = EnvBuilder::new().open().unwrap();
    let db = env.get_default_db(DbFlags::empty()).unwrap();
    let txn = env.new_transaction().unwrap();
    let cursor = txn.new_cursor(&db).unwrap();
    match cursor.get(&txn, &db) {
        Err(MdbError::Invalid) => (),
        _ => panic!("expected Invalid from an unpositioned cursor"),
    }
    match cursor.item_count(&txn, &db) {
        Err(MdbError::Invalid) => (),
        _ => panic!("expected Invalid from an unpositioned cursor"),
    }
}
