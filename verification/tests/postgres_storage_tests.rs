//! The plug-in's handle steps run against an in-memory storage that answers
//! as the Postgres storage does.

use indy_wallet::errors::WalletStorageError;
use indy_wallet::postgres_wallet::add_record_result;
use indy_wallet::postgres_wallet::storage_result;
use indy_wallet::postgres_wallet::ErrorCode;
use indy_wallet::postgres_wallet::PostgresWallet;
use indy_wallet::postgres_wallet::StorageRecord;
use indy_wallet::tags::tags_from_json;
use indy_wallet::tags::tags_to_json;
use indy_wallet::tags::Tag;
use std::cell::RefCell;
use std::rc::Rc;

struct StoredRecord {
    type_: Vec<u8>,
    id: Vec<u8>,
    value: Vec<u8>,
    tags_json: String,
}

type Records = Rc<RefCell<Vec<StoredRecord>>>;

/// An open storage: the records of one wallet.
struct Storage {
    records: Records,
}

impl Storage {
    fn add(&self, type_: &[u8], id: &[u8], value: &[u8], tags_json: &str) -> Result<(), WalletStorageError> {
        let mut records = self.records.borrow_mut();
        if records.iter().any(|r| r.type_ == type_ && r.id == id) {
            return Err(WalletStorageError::ItemAlreadyExists);
        }
        records.push(StoredRecord { type_: type_.to_vec(), id: id.to_vec(), value: value.to_vec(), tags_json: tags_json.to_string() });
        Ok(())
    }

    fn get(&self, type_: &[u8], id: &[u8]) -> Result<StorageRecord, WalletStorageError> {
        let records = self.records.borrow();
        match records.iter().position(|r| r.type_ == type_ && r.id == id) {
            Some(i) => {
                let r = &records[i];
                Ok(StorageRecord {
                    rec_id: i as i32,
                    id: r.id.clone(),
                    type_: Some(r.type_.clone()),
                    value: Some(r.value.clone()),
                    tags: Some(tags_from_json(&r.tags_json).unwrap()),
                })
            },
            None => Err(WalletStorageError::ItemNotFound),
        }
    }
}

/// The wallets that exist, by id.
struct Server {
    wallets: RefCell<Vec<(String, Records)>>,
}

impl Server {
    fn new() -> Server {
        Server { wallets: RefCell::new(Vec::new()) }
    }

    fn create(&self, id: &str) -> ErrorCode {
        let res = if self.wallets.borrow().iter().any(|(n, _)| n == id) {
            Err(WalletStorageError::AlreadyExists)
        } else {
            self.wallets.borrow_mut().push((id.to_string(), Rc::new(RefCell::new(Vec::new()))));
            Ok(())
        };
        storage_result(&res)
    }

    fn delete(&self, id: &str) -> ErrorCode {
        self.wallets.borrow_mut().retain(|(n, _)| n != id);
        ErrorCode::Success
    }

    fn open(&self, pw: &mut PostgresWallet<Storage>, id: &str, handle: &mut i32) -> ErrorCode {
        if let Err(e) = pw.postgreswallet_fn_open_check(id) {
            return e;
        }
        let storage = match self.wallets.borrow().iter().find(|(n, _)| n == id) {
            Some((_, records)) => Ok(Storage { records: records.clone() }),
            None => Err(WalletStorageError::NotFound),
        };
        match pw.postgreswallet_fn_open_finish(id, "{}", "{}", storage) {
            Ok(h) => {
                *handle = h;
                ErrorCode::Success
            },
            Err(e) => e,
        }
    }

    fn close(&self, pw: &mut PostgresWallet<Storage>, handle: i32) -> ErrorCode {
        match pw.postgreswallet_fn_close_take(handle) {
            Ok(_storage) => ErrorCode::Success,
            Err(e) => e,
        }
    }
}

fn add_record(pw: &PostgresWallet<Storage>, handle: i32, type_: &[u8], id: &[u8], value: &[u8], tags_json: &str) -> ErrorCode {
    match pw.storage_for(handle) {
        Ok(storage) => add_record_result(&storage.add(type_, id, value, tags_json)),
        Err(e) => e,
    }
}

fn get_record(pw: &mut PostgresWallet<Storage>, handle: i32, type_: &[u8], id: &[u8], rec_handle: &mut i32) -> ErrorCode {
    let res = match pw.storage_for(handle) {
        Ok(storage) => storage.get(type_, id),
        Err(e) => return e,
    };
    match pw.postgreswallet_fn_get_record_finish(res) {
        Ok(h) => {
            *rec_handle = h;
            ErrorCode::Success
        },
        Err(e) => e,
    }
}

fn type_of(i: u8) -> Vec<u8> {
    vec![i, 1 + i, 2 + i]
}

fn id_of(i: u8) -> Vec<u8> {
    vec![3 + i, 4 + i, 5 + i]
}

fn value_of(i: u8) -> Vec<u8> {
    let mut v = vec![6 + i, 7 + i, 8 + i];
    v.extend(vec![i; 32]);
    v
}

fn tags() -> Vec<Tag> {
    vec![
        Tag::Encrypted(vec![1, 5, 8], vec![3, 5, 6]),
        Tag::PlainText(vec![1, 5, 8, 1], "Plain value 1".to_string()),
        Tag::Encrypted(vec![2, 5, 8], vec![3, 5, 7]),
        Tag::PlainText(vec![2, 5, 8, 1], "Plain value 2".to_string()),
    ]
}

fn sort_tags(tags: Vec<Tag>) -> Vec<String> {
    let mut v: Vec<String> = tags.iter().map(|t| format!("{:?}", t)).collect();
    v.sort();
    v
}

fn create_and_open(s: &Server, pw: &mut PostgresWallet<Storage>) -> i32 {
    assert_eq!(ErrorCode::Success, s.create("walle1"));
    let mut handle: i32 = -1;
    assert_eq!(ErrorCode::Success, s.open(pw, "walle1", &mut handle));
    handle
}

#[test]
fn postgres_wallet_crud_works() {
    let s = Server::new();
    let mut pw: PostgresWallet<Storage> = PostgresWallet::new();
    let mut handle: i32 = -1;
    assert_eq!(ErrorCode::WalletNotFoundError, s.open(&mut pw, "walle1", &mut handle));
    assert_eq!(-1, handle);
    assert_eq!(ErrorCode::Success, s.create("walle1"));
    assert_eq!(ErrorCode::Success, s.open(&mut pw, "walle1", &mut handle));
    assert_eq!(ErrorCode::Success, s.close(&mut pw, handle));
    assert_eq!(ErrorCode::Success, s.delete("walle1"));
    let before = handle;
    assert_eq!(ErrorCode::WalletNotFoundError, s.open(&mut pw, "walle1", &mut handle));
    assert_eq!(before, handle);
}

#[test]
fn postgres_wallet_add_record_works() {
    let s = Server::new();
    let mut pw: PostgresWallet<Storage> = PostgresWallet::new();
    let handle = create_and_open(&s, &mut pw);
    let type_ = base64::encode(&type_of(1));
    let id = base64::encode(&id_of(1));
    let tags = tags_to_json(&tags()).unwrap();
    let value = value_of(1);
    assert_eq!(ErrorCode::Success, add_record(&pw, handle, type_.as_bytes(), id.as_bytes(), &value, &tags));
    assert_eq!(ErrorCode::WalletItemAlreadyExists, add_record(&pw, handle, type_.as_bytes(), id.as_bytes(), &value, &tags));
    assert_eq!(ErrorCode::WalletItemAlreadyExists, add_record(&pw, handle, type_.as_bytes(), id.as_bytes(), &value, &tags));
    assert_eq!(ErrorCode::Success, s.close(&mut pw, handle));
    assert_eq!(ErrorCode::Success, s.delete("walle1"));
}

#[test]
fn postgres_wallet_get_record_works() {
    let s = Server::new();
    let mut pw: PostgresWallet<Storage> = PostgresWallet::new();
    let handle = create_and_open(&s, &mut pw);
    let tags1 = tags_to_json(&tags()).unwrap();
    assert_eq!(ErrorCode::Success, add_record(&pw, handle, &type_of(1), &id_of(1), &value_of(1), &tags1));
    let tags2 = tags_to_json(&tags()).unwrap();
    assert_eq!(ErrorCode::Success, add_record(&pw, handle, &type_of(2), &id_of(2), &value_of(2), &tags2));

    let mut rec_handle: i32 = -1;
    assert_eq!(ErrorCode::Success, get_record(&mut pw, handle, &type_of(1), &id_of(1), &mut rec_handle));

    let id = pw.postgreswallet_fn_get_record_id(handle, rec_handle).unwrap();
    assert_eq!(&id_of(1), id);
    let type_ = pw.postgreswallet_fn_get_record_type(handle, rec_handle).unwrap();
    assert_eq!(&type_of(1), type_);
    let value = pw.postgreswallet_fn_get_record_value(handle, rec_handle).unwrap();
    assert_eq!(&value_of(1), value);
    let tags_json = pw.postgreswallet_fn_get_record_tags(handle, rec_handle).unwrap();
    let read_back = tags_from_json(tags_json).unwrap();
    assert_eq!(sort_tags(tags()), sort_tags(read_back));

    assert_eq!(ErrorCode::Success, s.close(&mut pw, handle));
    assert_eq!(ErrorCode::Success, s.delete("walle1"));
}
