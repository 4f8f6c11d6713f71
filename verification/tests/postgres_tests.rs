use indy_wallet::errors::WalletStorageError;
use indy_wallet::postgres_wallet::add_record_result;
use indy_wallet::postgres_wallet::starts_with;
use indy_wallet::postgres_wallet::storage_result;
use indy_wallet::postgres_wallet::storagerecord_to_postgresrecord;
use indy_wallet::postgres_wallet::ErrorCode;
use indy_wallet::postgres_wallet::InmemWalletContext;
use indy_wallet::postgres_wallet::InmemWalletEntity;
use indy_wallet::postgres_wallet::InmemWalletRecord;
use indy_wallet::postgres_wallet::PostgresWallet;
use indy_wallet::postgres_wallet::StorageRecord;
use indy_wallet::strmap::StrMap;
use indy_wallet::tags::tags_from_json;
use indy_wallet::tags::tags_names_to_json;
use indy_wallet::tags::tags_to_json;
use indy_wallet::tags::Tag;
use indy_wallet::tags::TagName;

fn record(type_: &str, id: &str, value: &[u8], tags: &str) -> InmemWalletRecord {
    InmemWalletRecord { type_: type_.to_string(), id: id.to_string(), value: value.to_vec(), tags: tags.to_string() }
}

/// A plug-in state with one in-memory wallet `w1` (two records of type
/// `key` and one of type `did`), open under handle 7.
fn with_inmem_wallet() -> PostgresWallet<String> {
    let mut pw: PostgresWallet<String> = PostgresWallet::new();
    let mut records = StrMap::new();
    records.insert("key-k1".to_string(), record("key", "k1", &[1, 2], "{\"a\":\"1\"}"));
    records.insert("key-k2".to_string(), record("key", "k2", &[3], "{}"));
    records.insert("did-d1".to_string(), record("did", "d1", &[4], "{\"x\":\"y\"}"));
    pw.inmem_wallets.insert("w1".to_string(), InmemWalletEntity { metadata: "meta".to_string(), records });
    pw.inmem_open_wallets.insert(7, InmemWalletContext { id: "w1".to_string() });
    pw
}

fn tags_of(pw: &PostgresWallet<String>, key: &str) -> String {
    pw.inmem_wallets.get("w1").unwrap().records.get(key).unwrap().tags.clone()
}

#[test]
fn build_record_id_joins_type_and_id() {
    assert_eq!("type-id", PostgresWallet::<String>::build_record_id("type", "id"));
    assert_eq!("-", PostgresWallet::<String>::build_record_id("", ""));
}

#[test]
fn starts_with_works() {
    assert!(starts_with("key-k1", "key"));
    assert!(starts_with("key", ""));
    assert!(!starts_with("key", "key-"));
    assert!(!starts_with("did-d1", "key"));
}

#[test]
fn next_ids_are_distinct_and_grow() {
    let mut pw: PostgresWallet<String> = PostgresWallet::new();
    assert_eq!(2, pw.get_next_id());
    assert_eq!(3, pw.get_next_id());
    assert_eq!(3, pw.ids_counter);
}

#[test]
fn tags_to_json_writes_base64_members() {
    let tags = vec![Tag::Encrypted(vec![1, 5, 8], vec![3, 5, 6])];
    assert_eq!("{\"AQUI\":\"AwUG\"}", tags_to_json(&tags).unwrap());

    let tags = vec![Tag::PlainText(vec![1, 5, 8], "Plain value".to_string())];
    assert_eq!("{\"~AQUI\":\"Plain value\"}", tags_to_json(&tags).unwrap());

    let tags = vec![
        Tag::Encrypted(vec![1, 5, 8], vec![3, 5, 6]),
        Tag::PlainText(vec![1, 5, 8], "Plain value".to_string()),
        Tag::Encrypted(vec![1, 5, 8], vec![3, 5, 7]),
    ];
    assert_eq!("{\"AQUI\":\"AwUH\",\"~AQUI\":\"Plain value\"}", tags_to_json(&tags).unwrap());

    assert_eq!("{}", tags_to_json(&Vec::new()).unwrap());
}

#[test]
fn tags_from_json_reads_what_tags_to_json_wrote() {
    let json = tags_to_json(&vec![
        Tag::Encrypted(vec![1, 5, 8], vec![3, 5, 6]),
        Tag::PlainText(vec![1, 5, 8], "Plain value".to_string()),
    ])
    .unwrap();
    let tags = tags_from_json(&json).unwrap();
    assert_eq!(2, tags.len());
    match &tags[0] {
        Tag::Encrypted(n, v) => {
            assert_eq!(&vec![1u8, 5, 8], n);
            assert_eq!(&vec![3u8, 5, 6], v);
        },
        other => panic!("unexpected tag {:?}", other),
    }
    match &tags[1] {
        Tag::PlainText(n, v) => {
            assert_eq!(&vec![1u8, 5, 8], n);
            assert_eq!("Plain value", v);
        },
        other => panic!("unexpected tag {:?}", other),
    }
}

#[test]
fn tags_with_quoted_values_read_back_as_written() {
    let tags = vec![
        Tag::PlainText(vec![0], "a \"quoted\" \\ value".to_string()),
        Tag::Encrypted(vec![255, 1], vec![]),
    ];
    let json = tags_to_json(&tags).unwrap();
    assert_eq!("{\"/wE=\":\"\",\"~AA==\":\"a \\\"quoted\\\" \\\\ value\"}", json);
    let back = tags_from_json(&json).unwrap();
    assert_eq!(2, back.len());
    let mut seen_plain = false;
    let mut seen_encrypted = false;
    for t in &back {
        match t {
            Tag::PlainText(n, v) => {
                assert_eq!(&vec![0u8], n);
                assert_eq!("a \"quoted\" \\ value", v);
                seen_plain = true;
            },
            Tag::Encrypted(n, v) => {
                assert_eq!(&vec![255u8, 1], n);
                assert!(v.is_empty());
                seen_encrypted = true;
            },
        }
    }
    assert!(seen_plain && seen_encrypted);
}

#[test]
fn tags_from_json_refuses_bad_input() {
    assert!(matches!(tags_from_json("not json"), Err(WalletStorageError::IOError(_))));
    assert!(matches!(tags_from_json("{\"a\":1}"), Err(WalletStorageError::IOError(_))));
    assert!(matches!(tags_from_json("{\"@@@\":\"AQUI\"}"), Err(WalletStorageError::IOError(_))));
    assert!(matches!(tags_from_json("{\"~@@@\":\"x\"}"), Err(WalletStorageError::IOError(_))));
    assert_eq!(0, tags_from_json("{}").unwrap().len());
}

#[test]
fn tags_names_to_json_works() {
    let names = vec![TagName::OfEncrypted(vec![1, 5, 8]), TagName::OfPlain(vec![1, 5, 8])];
    assert_eq!("[\"AQUI\",\"~AQUI\"]", tags_names_to_json(&names).unwrap());
    assert_eq!("[]", tags_names_to_json(&Vec::new()).unwrap());
}

#[test]
fn storage_record_is_converted_for_handing_out() {
    let rec = StorageRecord {
        rec_id: 12,
        id: vec![1, 2],
        type_: Some(vec![3]),
        value: None,
        tags: Some(vec![Tag::PlainText(vec![1, 5, 8], "v".to_string())]),
    };
    let out = storagerecord_to_postgresrecord(&rec).unwrap();
    assert_eq!(12, out.rec_id);
    assert_eq!(vec![1u8, 2], out.id);
    assert_eq!(vec![3u8], out.type_);
    assert!(out.value.is_empty());
    assert_eq!("{\"~AQUI\":\"v\"}", out.tags);

    let rec = StorageRecord { rec_id: 1, id: vec![], type_: None, value: Some(vec![9]), tags: None };
    let out = storagerecord_to_postgresrecord(&rec).unwrap();
    assert!(out.type_.is_empty());
    assert_eq!(vec![9u8], out.value);
    assert_eq!("", out.tags);
}

#[test]
fn storage_errors_map_to_codes() {
    assert_eq!(ErrorCode::Success, add_record_result(&Ok(())));
    assert_eq!(ErrorCode::WalletItemAlreadyExists, add_record_result(&Err(WalletStorageError::ItemAlreadyExists)));
    assert_eq!(ErrorCode::WalletStorageError, add_record_result(&Err(WalletStorageError::NotFound)));
    assert_eq!(ErrorCode::Success, storage_result(&Ok(())));
    assert_eq!(ErrorCode::WalletStorageError, storage_result(&Err(WalletStorageError::ItemAlreadyExists)));
}

#[test]
fn update_record_value_replaces_the_value() {
    let mut pw = with_inmem_wallet();
    assert_eq!(ErrorCode::Success, pw.postgreswallet_fn_update_record_value(7, "key", "k1", vec![9, 9]));
    let rec = pw.inmem_wallets.get("w1").unwrap().records.get("key-k1").unwrap();
    assert_eq!(vec![9u8, 9], rec.value);
    assert_eq!("{\"a\":\"1\"}", rec.tags);

    assert_eq!(ErrorCode::WalletItemNotFound, pw.postgreswallet_fn_update_record_value(7, "key", "nope", vec![1]));
    assert_eq!(ErrorCode::CommonInvalidState, pw.postgreswallet_fn_update_record_value(8, "key", "k1", vec![1]));
}

#[test]
fn add_record_tags_merges_new_over_old() {
    let mut pw = with_inmem_wallet();
    assert_eq!(ErrorCode::Success, pw.postgreswallet_fn_add_record_tags(7, "key", "k1", "{\"b\":\"2\",\"a\":\"3\"}"));
    assert_eq!("{\"a\":\"3\",\"b\":\"2\"}", tags_of(&pw, "key-k1"));

    assert_eq!(ErrorCode::CommonInvalidStructure, pw.postgreswallet_fn_add_record_tags(7, "key", "k1", "[1]"));
    assert_eq!("{\"a\":\"3\",\"b\":\"2\"}", tags_of(&pw, "key-k1"));
    assert_eq!(ErrorCode::WalletItemNotFound, pw.postgreswallet_fn_add_record_tags(7, "key", "nope", "{}"));
    assert_eq!(ErrorCode::CommonInvalidState, pw.postgreswallet_fn_add_record_tags(1, "key", "k1", "{}"));
}

#[test]
fn update_record_tags_replaces_the_tags() {
    let mut pw = with_inmem_wallet();
    assert_eq!(ErrorCode::Success, pw.postgreswallet_fn_update_record_tags(7, "did", "d1", "{\"n\":\"m\"}"));
    assert_eq!("{\"n\":\"m\"}", tags_of(&pw, "did-d1"));
    assert_eq!(ErrorCode::WalletItemNotFound, pw.postgreswallet_fn_update_record_tags(7, "did", "d2", "{}"));
}

#[test]
fn delete_record_tags_removes_by_name() {
    let mut pw = with_inmem_wallet();
    pw.postgreswallet_fn_update_record_tags(7, "key", "k2", "{\"a\":\"1\",\"b\":\"2\",\"c\":\"3\"}");
    assert_eq!(ErrorCode::Success, pw.postgreswallet_fn_delete_record_tags(7, "key", "k2", "[\"b\",\"zz\"]"));
    assert_eq!("{\"a\":\"1\",\"c\":\"3\"}", tags_of(&pw, "key-k2"));

    assert_eq!(ErrorCode::CommonInvalidStructure, pw.postgreswallet_fn_delete_record_tags(7, "key", "k2", "{\"b\":\"2\"}"));
    assert_eq!("{\"a\":\"1\",\"c\":\"3\"}", tags_of(&pw, "key-k2"));
}

#[test]
fn delete_record_removes_the_record() {
    let mut pw = with_inmem_wallet();
    assert_eq!(ErrorCode::Success, pw.postgreswallet_fn_delete_record(7, "key", "k1"));
    assert!(!pw.inmem_wallets.get("w1").unwrap().records.contains_key("key-k1"));
    assert_eq!(ErrorCode::WalletItemNotFound, pw.postgreswallet_fn_delete_record(7, "key", "k1"));
    assert!(pw.inmem_wallets.get("w1").unwrap().records.contains_key("key-k2"));
}

#[test]
fn storage_metadata_round_trip() {
    let mut pw = with_inmem_wallet();
    let h = pw.postgreswallet_fn_get_storage_metadata(7).unwrap();
    assert_eq!(2, h);
    assert_eq!("meta", pw.active_metadatas.get(&h).unwrap());

    assert_eq!(ErrorCode::Success, pw.postgreswallet_fn_set_storage_metadata(7, "new meta"));
    let h2 = pw.postgreswallet_fn_get_storage_metadata(7).unwrap();
    assert_eq!(3, h2);
    assert_eq!("new meta", pw.active_metadatas.get(&h2).unwrap());
    assert_eq!("meta", pw.active_metadatas.get(&h).unwrap());

    assert_eq!(ErrorCode::Success, pw.postgreswallet_fn_free_storage_metadata(7, h));
    assert!(!pw.active_metadatas.contains_key(&h));
    assert_eq!(ErrorCode::CommonInvalidState, pw.postgreswallet_fn_free_storage_metadata(7, h));
    assert_eq!(Err(ErrorCode::CommonInvalidState), pw.postgreswallet_fn_get_storage_metadata(5));
    assert_eq!(ErrorCode::CommonInvalidState, pw.postgreswallet_fn_set_storage_metadata(5, "x"));
}

#[test]
fn search_hands_out_matching_records_from_the_end() {
    let mut pw = with_inmem_wallet();
    let s = pw.postgreswallet_fn_search_records(7, "key").unwrap();
    assert_eq!(Ok(2), pw.postgreswallet_fn_get_search_total_count(7, s));

    let r1 = pw.postgreswallet_fn_fetch_search_next_record(7, s).unwrap();
    assert_eq!("k2", pw.active_records.get(&r1).unwrap().id);
    let r2 = pw.postgreswallet_fn_fetch_search_next_record(7, s).unwrap();
    assert_eq!("k1", pw.active_records.get(&r2).unwrap().id);
    assert_ne!(r1, r2);
    assert_eq!(Ok(0), pw.postgreswallet_fn_get_search_total_count(7, s));
    assert_eq!(Err(ErrorCode::WalletItemNotFound), pw.postgreswallet_fn_fetch_search_next_record(7, s));

    assert_eq!(ErrorCode::Success, pw.postgreswallet_fn_free_search(7, s));
    assert_eq!(Err(ErrorCode::CommonInvalidState), pw.postgreswallet_fn_get_search_total_count(7, s));
    assert_eq!(ErrorCode::CommonInvalidState, pw.postgreswallet_fn_free_search(7, s));
}

#[test]
fn search_all_records_lists_every_record() {
    let mut pw = with_inmem_wallet();
    let s = pw.postgreswallet_fn_search_all_records(7).unwrap();
    assert_eq!(Ok(3), pw.postgreswallet_fn_get_search_total_count(7, s));
    let r = pw.postgreswallet_fn_fetch_search_next_record(7, s).unwrap();
    assert_eq!("d1", pw.active_records.get(&r).unwrap().id);
    assert_eq!(Err(ErrorCode::CommonInvalidState), pw.postgreswallet_fn_search_all_records(3));
    assert_eq!(Err(ErrorCode::CommonInvalidState), pw.postgreswallet_fn_search_records(3, "key"));
}

#[test]
fn cleanup_forgets_inmem_wallets() {
    let mut pw = with_inmem_wallet();
    let s = pw.postgreswallet_fn_search_all_records(7).unwrap();
    pw.cleanup();
    assert!(!pw.inmem_wallets.contains_key("w1"));
    assert!(!pw.inmem_open_wallets.contains_key(&7));
    assert!(pw.active_searches.contains_key(&s));
    assert_eq!(ErrorCode::CommonInvalidState, pw.postgreswallet_fn_delete_record(7, "key", "k1"));
}

#[test]
fn open_registers_a_storage_once() {
    let mut pw: PostgresWallet<String> = PostgresWallet::new();
    assert_eq!(Ok(()), pw.postgreswallet_fn_open_check("wallet1"));
    let h = pw.postgreswallet_fn_open_finish("wallet1", "{}", "{\"key\":\"k\"}", Ok("storage".to_string())).unwrap();
    assert_eq!(2, h);
    assert_eq!(Err(ErrorCode::WalletAlreadyOpenedError), pw.postgreswallet_fn_open_check("wallet1"));
    assert_eq!(Ok(()), pw.postgreswallet_fn_open_check("wallet2"));
    assert_eq!(Ok(&"storage".to_string()), pw.storage_for(h));
    assert_eq!(Err(ErrorCode::CommonInvalidState), pw.storage_for(h + 1));

    assert_eq!(
        Err(ErrorCode::WalletNotFoundError),
        pw.postgreswallet_fn_open_finish("wallet2", "{}", "{}", Err(WalletStorageError::NotFound))
    );
    assert_eq!(2, pw.ids_counter);

    assert_eq!(Ok("storage".to_string()), pw.postgreswallet_fn_close_take(h));
    assert_eq!(Err(ErrorCode::CommonInvalidState), pw.postgreswallet_fn_close_take(h));
    assert_eq!(Ok(()), pw.postgreswallet_fn_open_check("wallet1"));
}

#[test]
fn fetched_record_parts_are_handed_out() {
    let mut pw: PostgresWallet<String> = PostgresWallet::new();
    let h = pw.postgreswallet_fn_open_finish("wallet1", "{}", "{}", Ok("storage".to_string())).unwrap();
    let rec = StorageRecord {
        rec_id: 40,
        id: b"id1".to_vec(),
        type_: Some(b"type1".to_vec()),
        value: Some(vec![1, 2, 3]),
        tags: Some(vec![Tag::Encrypted(vec![1, 5, 8], vec![3, 5, 6])]),
    };
    let rh = pw.postgreswallet_fn_get_record_finish(Ok(rec)).unwrap();
    assert_eq!(40, rh);
    assert_eq!(Ok(&b"id1".to_vec()), pw.postgreswallet_fn_get_record_id(h, rh));
    assert_eq!(Ok(&b"type1".to_vec()), pw.postgreswallet_fn_get_record_type(h, rh));
    assert_eq!(Ok(&vec![1u8, 2, 3]), pw.postgreswallet_fn_get_record_value(h, rh));
    assert_eq!(Ok(&"{\"AQUI\":\"AwUG\"}".to_string()), pw.postgreswallet_fn_get_record_tags(h, rh));
    assert_eq!(Err(ErrorCode::CommonInvalidState), pw.postgreswallet_fn_get_record_id(h + 1, rh));
    assert_eq!(Err(ErrorCode::CommonInvalidState), pw.postgreswallet_fn_get_record_value(h, rh + 1));

    assert_eq!(Err(ErrorCode::WalletStorageError), pw.postgreswallet_fn_get_record_finish(Err(WalletStorageError::ItemNotFound)));

    assert_eq!(ErrorCode::Success, pw.postgreswallet_fn_free_record(h, rh));
    assert_eq!(Err(ErrorCode::CommonInvalidState), pw.postgreswallet_fn_get_record_tags(h, rh));
    assert_eq!(ErrorCode::CommonInvalidState, pw.postgreswallet_fn_free_record(h, rh));
}

#[test]
fn handed_out_handles_never_collide() {
    let mut pw = with_inmem_wallet();
    let storage = pw.postgreswallet_fn_open_finish("wallet1", "{}", "{}", Ok("s".to_string())).unwrap();
    let metadata = pw.postgreswallet_fn_get_storage_metadata(7).unwrap();
    let search = pw.postgreswallet_fn_search_all_records(7).unwrap();
    let record = pw.postgreswallet_fn_fetch_search_next_record(7, search).unwrap();
    let handles = [storage, metadata, search, record];
    for i in 0..handles.len() {
        for j in 0..i {
            assert_ne!(handles[i], handles[j]);
        }
        assert!(handles[i] as usize <= pw.ids_counter);
    }
}
