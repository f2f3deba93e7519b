use mdb::{DbFlags, EnvBuilder, FromMdbValue, MdbError, MdbValue, ToMdbValue};

#[test]
fn test_conversion_to_vecu8() {
    let ten = 10_u32.to_be_bytes().to_vec();
    let rec: (Vec<u8>, Vec<u8>) = (ten, vec![1, 2, 3, 4, 5]);

    let mut env = EnvBuilder::new().open().unwrap();
    let db = env.get_default_db(DbFlags::empty().with_int_key()).unwrap();

    // ~ add our test record
    let mut tx = env.new_transaction().unwrap();
    tx.set(&db, &rec.0, &rec.1).unwrap();
    tx.commit(&mut env).unwrap();

    // ~ validate the behavior
    let mut tx = env.new_transaction().unwrap();
    {
        let xs: Vec<u8> = Vec::from_mdb_value(&tx.get(&db, &rec.0).unwrap());
        assert_eq!(rec.1, xs);
    }
    tx.abort(&mut env);
}

#[test]
fn test_conversion_to_string() {
    let ten = 10_u32.to_be_bytes().to_vec();
    let rec: (Vec<u8>, String) = (ten, "hello, world".to_owned());

    let mut env = EnvBuilder::new().open().unwrap();
    let db = env.get_default_db(DbFlags::empty().with_int_key()).unwrap();

    // ~ add our test record
    let mut tx = env.new_transaction().unwrap();
    tx.set(&db, &rec.0, &rec.1).unwrap();
    tx.commit(&mut env).unwrap();

    // ~ validate the behavior
    let mut tx = env.new_transaction().unwrap();
    {
        let xs: String = String::from_mdb_value(&tx.get(&db, &rec.0).unwrap());
        assert_eq!(rec.1, xs);
    }
    tx.abort(&mut env);
}

#[test]
fn view_round_trips_bytes_and_strings() {
    let bytes: Vec<u8> = vec![7, 0, 255, 42];
    let view = bytes.to_mdb_value();
    assert_eq!(view.get_size(), 4);
    assert_eq!(view.get_ref(), &bytes[..]);
    let back: Vec<u8> = Vec::from_mdb_value(&view);
    assert_eq!(back, bytes);

    let s = "grüß dich";
    let view = s.to_mdb_value();
    let back: String = String::from_mdb_value(&view);
    assert_eq!(back, s);
}

#[test]
fn invalid_utf8_is_an_encoding_error() {
    let view = MdbValue::new(vec![0xff, 0xfe, 0x41]);
    match view.as_string() {
        Err(MdbError::EncodingError) => (),
        _ => panic!("expected EncodingError for invalid UTF-8"),
    }
    let view = MdbValue::new(vec![0x41, 0x42]);
    assert_eq!(view.as_string().unwrap(), "AB");
}

#[test]
fn integers_encode_big_endian() {
    let n: u64 = 0x0102030405060708;
    let view = n.to_mdb_value();
    assert_eq!(view.get_ref(), &n.to_be_bytes()[..]);

    let m: i64 = -2;
    let view = m.to_mdb_value();
    assert_eq!(view.get_ref(), &m.to_be_bytes()[..]);

    let view = MdbValue::new(vec![1u8, 2, 3]).into_vec();
    assert_eq!(view, vec![1u8, 2, 3]);
}

#[test]
fn slices_borrow_strings() {
    let owned: Vec<String> = vec!["a".to_owned(), "bc".to_owned()];
    let slices = mdb::as_slices(&owned);
    assert_eq!(slices, vec!["a", "bc"]);
}
