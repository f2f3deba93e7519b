use mdb::{DbFlags, EnvBuilder, EnvFlags, FromMdbValue, MdbError};

#[test]
fn test_environment() {
    let mut env = EnvBuilder::new().max_readers(33).open().unwrap();

    env.sync(true).unwrap();

    let test_flags = EnvFlags::empty().with_no_mem_init().with_no_meta_sync();

    env.set_flags(test_flags, true).unwrap();
    let new_flags = env.get_flags().unwrap();
    assert!(new_flags.contains(test_flags), "Get flags != set flags");

    let db = env.get_default_db(DbFlags::empty()).unwrap();
    let mut txn = env.new_transaction().unwrap();

    let key = "hello";
    let value = "world";

    txn.set(&db, &key, &value).unwrap();

    let v = String::from_mdb_value(&txn.get(&db, &key).unwrap());
    assert!(v == value, "Written {} and read {}", &value, &v);
}

#[test]
fn test_single_values() {
    let mut env = EnvBuilder::new().max_dbs(5).open().unwrap();

    let db = env.get_default_db(DbFlags::empty()).unwrap();
    let mut txn = env.new_transaction().unwrap();

    let test_key1 = "key1";
    let test_data1 = "value1";
    let test_data2 = "value2";

    assert!(txn.get(&db, &test_key1).is_err(), "Key shouldn't exist yet");

    assert!(txn.set(&db, &test_key1, &test_data1).is_ok());
    let v = String::from_mdb_value(&txn.get(&db, &test_key1).unwrap());
    assert!(v == test_data1, "Data written differs from data read");

    assert!(txn.set(&db, &test_key1, &test_data2).is_ok());
    let v = String::from_mdb_value(&txn.get(&db, &test_key1).unwrap());
    assert!(v == test_data2, "Data written differs from data read");

    assert!(txn.del(&db, &test_key1).is_ok());
    assert!(txn.get(&db, &test_key1).is_err(), "Key should be deleted");
}

#[test]
fn test_multiple_values() {
    let mut env = EnvBuilder::new().max_dbs(5).open().unwrap();

    let db = env.get_default_db(DbFlags::empty().with_dups()).unwrap();
    let mut txn = env.new_transaction().unwrap();

    let test_key1 = "key1";
    let test_data1 = "value1";
    let test_data2 = "value2";

    assert!(txn.get(&db, &test_key1).is_err(), "Key shouldn't exist yet");

    assert!(txn.set(&db, &test_key1, &test_data1).is_ok());
    let v = String::from_mdb_value(&txn.get(&db, &test_key1).unwrap());
    assert!(v == test_data1, "Data written differs from data read");

    assert!(txn.set(&db, &test_key1, &test_data2).is_ok());
    let v = String::from_mdb_value(&txn.get(&db, &test_key1).unwrap());
    assert!(v == test_data1, "It should still return first value");

    assert!(txn.del_item(&db, &test_key1, &test_data1).is_ok());

    let v = String::from_mdb_value(&txn.get(&db, &test_key1).unwrap());
    assert!(v == test_data2, "It should return second value");
    assert!(txn.del(&db, &test_key1).is_ok());

    assert!(txn.get(&db, &test_key1).is_err(), "Key shouldn't exist anymore!");
}

#[test]
fn test_append_duplicate() {
    let mut env = EnvBuilder::new().max_dbs(5).open().unwrap();

    let db = env.get_default_db(DbFlags::empty().with_dups()).unwrap();
    let mut txn = env.new_transaction().unwrap();

    let test_key1 = "key1";
    let test_data1 = "value1";
    let test_data2 = "value2";

    assert!(txn.append(&db, &test_key1, &test_data1).is_ok());
    let v = String::from_mdb_value(&txn.get(&db, &test_key1).unwrap());
    assert!(v == test_data1, "Data written differs from data read");

    assert!(txn.append_duplicate(&db, &test_key1, &test_data2).is_ok());
    let v = String::from_mdb_value(&txn.get(&db, &test_key1).unwrap());
    assert!(v == test_data1, "It should still return first value");

    assert!(txn.del_item(&db, &test_key1, &test_data1).is_ok());

    let v = String::from_mdb_value(&txn.get(&db, &test_key1).unwrap());
    assert!(v == test_data2, "It should return second value");

    match txn.append_duplicate(&db, &test_key1, &test_data1).err().unwrap() {
        MdbError::KeyExists => (),
        _ => panic!("Expected KeyExists error"),
    }
}

#[test]
fn test_insert_values() {
    let mut env = EnvBuilder::new().max_dbs(5).open().unwrap();

    let db = env.get_default_db(DbFlags::empty()).unwrap();
    let mut txn = env.new_transaction().unwrap();

    let test_key1 = "key1";
    let test_data1 = "value1";
    let test_data2 = "value2";

    assert!(txn.get(&db, &test_key1).is_err(), "Key shouldn't exist yet");

    assert!(txn.set(&db, &test_key1, &test_data1).is_ok());
    let v = String::from_mdb_value(&txn.get(&db, &test_key1).unwrap());
    assert!(v == test_data1, "Data written differs from data read");

    assert!(txn.insert(&db, &test_key1, &test_data2).is_err(), "Inserting should fail if key exists");

    assert!(txn.del(&db, &test_key1).is_ok());
    assert!(txn.get(&db, &test_key1).is_err(), "Key should be deleted");

    assert!(txn.insert(&db, &test_key1, &test_data2).is_ok(), "Inserting should succeed");
}

#[test]
fn test_resize_map() {
    let mut env = EnvBuilder::new()
        .max_dbs(5)
        .map_size(0x1000)
        .open()
        .unwrap();

    let db = env.get_default_db(DbFlags::empty()).unwrap();

    let mut key_idx = 0u64;
    let test_data: Vec<u8> = vec![0x5A; 0xFF];

    // write data until running into the MapFull error
    loop {
        let mut txn = env.new_transaction().unwrap();
        let test_key = format!("key_{}", key_idx);
        match txn.set(&db, &test_key, &test_data) {
            Err(MdbError::MapFull) => {
                txn.abort(&mut env);
                break;
            }
            Err(_) => panic!("unexpected db error"),
            Ok(()) => {}
        }
        key_idx += 1;
        txn.commit(&mut env).unwrap();
    }

    // env should be still ok and resizable
    assert!(env.set_mapsize(0x100000).is_ok(), "Couldn't resize map");

    // next write after resize should not fail
    let mut txn = env.new_transaction().unwrap();
    let test_key = "different_key";
    assert!(txn.set(&db, &test_key, &test_data).is_ok(), "set after resize failed");
    assert!(txn.commit(&mut env).is_ok(), "Commit failed after resizing map");
}

#[test]
fn test_stat() {
    let mut env = EnvBuilder::new().max_dbs(5).open().unwrap();

    // ~ the datasets; each to end up in its own database
    let dss = [
        // ~ keep the "default db" dataset here at the beginning (see
        // the assertion at the end of this test)
        ("", vec![("default", "db"), ("has", "some"), ("extras", "prepared")]),
        ("db1", vec![("foo", "bar"), ("quux", "qak")]),
        ("db2", vec![("a", "abc"), ("b", "bcd"), ("c", "cde"), ("d", "def")]),
        ("db3", vec![("hip", "hop")]),
    ];

    // ~ create each db, populate it, and assert db stat for each separately
    for &(name, ref ds) in &dss {
        let db = env.create_db(name, DbFlags::empty()).unwrap();
        let mut tx = env.new_transaction().unwrap();
        for &(k, v) in ds {
            assert!(tx.set(&db, &k, &v).is_ok());
        }
        // ~ verify the expected number of entries (key/value pairs) in the db
        let stat = tx.stat(&db).unwrap();
        assert_eq!(ds.len() as usize, stat.ms_entries);
        tx.commit(&mut env).unwrap();
    }

    // ~ now verify the number of data items in this _environment_ (this
    // is the number of key/value pairs in the default database plus the
    // number of other databases)
    let stat = env.stat().unwrap();
    assert_eq!(dss[0].1.len() + dss[1..].len(), stat.ms_entries);
}

#[test]
fn test_db_creation() {
    let mut env = EnvBuilder::new().max_dbs(5).open().unwrap();
    assert!(env.create_db("test-db", DbFlags::empty()).is_ok());
}

#[test]
fn test_read_only_txn() {
    let env = EnvBuilder::new().max_dbs(5).open().unwrap();
    env.get_reader().unwrap();
}

#[test]
fn commit_makes_writes_visible_to_fresh_reader() {
    let mut env = EnvBuilder::new().open().unwrap();
    let db = env.get_default_db(DbFlags::empty()).unwrap();
    let mut txn = env.new_transaction().unwrap();
    txn.set(&db, &"alpha", &"one").unwrap();
    txn.set(&db, &"beta", &"two").unwrap();
    txn.commit(&mut env).unwrap();

    let reader = env.get_reader().unwrap();
    let a = String::from_mdb_value(&reader.get(&db, &"alpha").unwrap());
    let b = String::from_mdb_value(&reader.get(&db, &"beta").unwrap());
    assert_eq!(a, "one");
    assert_eq!(b, "two");
}

#[test]
fn del_then_get_is_notfound() {
    let mut env = EnvBuilder::new().open().unwrap();
    let db = env.get_default_db(DbFlags::empty()).unwrap();
    let mut txn = env.new_transaction().unwrap();
    txn.set(&db, &"gone", &"soon").unwrap();
    txn.del(&db, &"gone").unwrap();
    match txn.get(&db, &"gone") {
        Err(MdbError::NotFound) => (),
        _ => panic!("expected NotFound after del"),
    }
}

#[test]
fn abort_discards_writes() {
    let mut env = EnvBuilder::new().open().unwrap();
    let db = env.get_default_db(DbFlags::empty()).unwrap();
    let mut txn = env.new_transaction().unwrap();
    txn.set(&db, &"temp", &"data").unwrap();
    txn.abort(&mut env);
    let reader = env.get_reader().unwrap();
    assert!(reader.get(&db, &"temp").is_err());
}

#[test]
fn second_writer_is_busy() {
    let mut env = EnvBuilder::new().open().unwrap();
    let _txn = env.new_transaction().unwrap();
    match env.new_transaction() {
        Err(MdbError::Busy) => (),
        _ => panic!("expected Busy while a writer is pending"),
    }
}

#[test]
fn db_flags_must_match_on_reopen() {
    let mut env = EnvBuilder::new().max_dbs(5).open().unwrap();
    env.create_db("acct", DbFlags::empty().with_dups()).unwrap();
    match env.create_db("acct", DbFlags::empty()) {
        Err(MdbError::DbFlagsMismatch) => (),
        _ => panic!("expected DbFlagsMismatch"),
    }
}

#[test]
fn too_many_dbs_is_reported() {
    let mut env = EnvBuilder::new().max_dbs(1).open().unwrap();
    env.create_db("one", DbFlags::empty()).unwrap();
    match env.create_db("two", DbFlags::empty()) {
        Err(MdbError::TooManyDbs) => (),
        _ => panic!("expected TooManyDbs"),
    }
}

#[test]
fn zero_map_size_is_invalid() {
    match EnvBuilder::new().map_size(0).open() {
        Err(MdbError::InvalidConfig) => (),
        _ => panic!("expected InvalidConfig for a zero map size"),
    }
    let mut env = EnvBuilder::new().open().unwrap();
    match env.set_mapsize(0) {
        Err(MdbError::InvalidConfig) => (),
        _ => panic!("expected InvalidConfig for a zero resize"),
    }
}

#[test]
fn resize_while_writer_pending_is_busy() {
    let mut env = EnvBuilder::new().open().unwrap();
    let txn = env.new_transaction().unwrap();
    match env.set_mapsize(1 << 21) {
        Err(MdbError::Busy) => (),
        _ => panic!("expected Busy while a writer is pending"),
    }
    txn.abort(&mut env);
    assert!(env.set_mapsize(1 << 21).is_ok());
}

#[test]
fn append_out_of_order_is_keyexists() {
    let mut env = EnvBuilder::new().open().unwrap();
    let db = env.get_default_db(DbFlags::empty()).unwrap();
    let mut txn = env.new_transaction().unwrap();
    txn.append(&db, &"m", &"1").unwrap();
    match txn.append(&db, &"a", &"2") {
        Err(MdbError::KeyExists) => (),
        _ => panic!("expected KeyExists for an out-of-order append"),
    }
}
