//! The remote wallet's steps run against an in-memory item service that
//! answers requests as the REST wallet service does.

use indy_wallet::errors::WalletError;
use indy_wallet::proxy::rest_extract_response_body;
use indy_wallet::proxy::RestBody;
use indy_wallet::proxy::RestError;
use indy_wallet::proxy::RestMethod;
use indy_wallet::proxy::RestRequest;
use indy_wallet::proxy::RestResponse;
use indy_wallet::remote::FetchOutcome;
use indy_wallet::remote::GetStep;
use indy_wallet::remote::RemoteWallet;
use indy_wallet::remote::RemoteWalletCredentials;
use indy_wallet::remote::RemoteWalletRuntimeConfig;
use indy_wallet::remote::RemoteWalletType;
use rand::Rng;
use std::cell::RefCell;

const ITEMS: &str = "http://localhost:8000/items/";
const CREATED: &str = "2018-02-27T17:05:09.577673Z";
const CREATED_SECS: i64 = 1519751109;

struct StoredItem {
    id: u64,
    wallet_name: String,
    item_type: String,
    item_id: String,
    item_value: String,
}

/// An item service kept in memory.
struct Service {
    items: RefCell<Vec<StoredItem>>,
    next_id: RefCell<u64>,
}

fn ok(status: u16, body: String) -> Result<RestResponse, RestError> {
    Ok(RestResponse { status, status_text: status.to_string(), body: body.into_bytes() })
}

fn field(fields: &[(String, String)], name: &str) -> String {
    fields.iter().find(|(k, _)| k == name).map(|(_, v)| v.clone()).unwrap_or_default()
}

impl Service {
    fn new() -> Service {
        Service { items: RefCell::new(Vec::new()), next_id: RefCell::new(1) }
    }

    fn item_json(i: &StoredItem) -> serde_json::Value {
        let mut m = serde_json::Map::new();
        m.insert("id".to_string(), serde_json::Value::from(i.id));
        m.insert("wallet_name".to_string(), serde_json::Value::String(i.wallet_name.clone()));
        m.insert("item_type".to_string(), serde_json::Value::String(i.item_type.clone()));
        m.insert("item_id".to_string(), serde_json::Value::String(i.item_id.clone()));
        m.insert("item_value".to_string(), serde_json::Value::String(i.item_value.clone()));
        m.insert("created".to_string(), serde_json::Value::String(CREATED.to_string()));
        serde_json::Value::Object(m)
    }

    fn send(&self, req: &RestRequest) -> Result<RestResponse, RestError> {
        if req.url == "http://localhost:8000/schema/" {
            return ok(200, "{}".to_string());
        }
        let path = req.url.strip_prefix(ITEMS).expect("an items address");
        let parts: Vec<&str> = path.split('/').filter(|p| !p.is_empty()).collect();
        match (&req.method, &req.body) {
            (RestMethod::Get, _) => {
                let items = self.items.borrow();
                let found: Vec<serde_json::Value> = items
                    .iter()
                    .filter(|i| match parts.len() {
                        3 => i.wallet_name == parts[0] && i.item_type == parts[1] && i.item_id == parts[2],
                        2 => i.wallet_name == parts[0] && i.item_type == parts[1],
                        _ => false,
                    })
                    .map(Service::item_json)
                    .collect();
                ok(200, serde_json::Value::Array(found).to_string())
            },
            (RestMethod::Post, RestBody::Fields(f)) => {
                let id = *self.next_id.borrow();
                *self.next_id.borrow_mut() = id + 1;
                self.items.borrow_mut().push(StoredItem {
                    id,
                    wallet_name: field(f, "wallet_name"),
                    item_type: field(f, "item_type"),
                    item_id: field(f, "item_id"),
                    item_value: field(f, "item_value"),
                });
                ok(201, "{}".to_string())
            },
            (RestMethod::Put, RestBody::Fields(f)) => {
                let id: u64 = parts[0].parse().unwrap();
                for i in self.items.borrow_mut().iter_mut() {
                    if i.id == id {
                        i.item_value = field(f, "item_value");
                    }
                }
                ok(200, "{}".to_string())
            },
            _ => ok(400, String::new()),
        }
    }

    fn fetch(&self, req: &RestRequest) -> FetchOutcome {
        match self.send(req) {
            Err(e) => FetchOutcome::Failed(e),
            Ok(res) => match rest_extract_response_body(&res) {
                Err(e) => FetchOutcome::Failed(e),
                Ok(text) => FetchOutcome::Body(text),
            },
        }
    }

    fn create(&self, t: &RemoteWalletType, name: &str) -> Result<(), WalletError> {
        t.create_start(name, false)?;
        t.create_finish(&self.send(&RemoteWalletType::ping_request()))
    }

    fn open(&self, t: &RemoteWalletType, name: &str, config: RemoteWalletRuntimeConfig, creds: RemoteWalletCredentials) -> Result<RemoteWallet, WalletError> {
        t.open_finish(name, "pool1", config, creds, &self.send(&RemoteWalletType::ping_request()))
    }

    fn set(&self, w: &RemoteWallet, key: &str, value: &str) -> Result<(), WalletError> {
        let outcome = self.fetch(&w.lookup_request(key));
        let req = w.set_after_lookup(key, value, &outcome);
        RemoteWallet::set_finish(&self.send(&req))
    }

    fn get(&self, w: &RemoteWallet, key: &str) -> Result<String, WalletError> {
        let outcome = self.fetch(&w.lookup_request(key));
        match w.get_after_selected(key, &outcome) {
            GetStep::Done(r) => r,
            GetStep::Fetch(req) => w.get_after_root(&self.fetch(&req)),
        }
    }

    fn list(&self, w: &RemoteWallet, prefix: &str) -> Result<Vec<(String, String)>, WalletError> {
        RemoteWallet::list_finish(&self.fetch(&w.list_request(prefix)))
    }
}

fn token_credentials() -> RemoteWalletCredentials {
    RemoteWalletCredentials { auth_token: Some("1234567890".to_string()), virtual_wallet: None }
}

fn virtual_credentials(virtual_wallet: &str) -> RemoteWalletCredentials {
    RemoteWalletCredentials { auth_token: Some("1234567890".to_string()), virtual_wallet: Some(virtual_wallet.to_string()) }
}

fn config() -> RemoteWalletRuntimeConfig {
    RemoteWalletRuntimeConfig::default()
}

fn rand_type(prefix: &str) -> String {
    let num: i32 = rand::thread_rng().gen_range(0, 999999);
    format!("{}{:06}", prefix, num)
}

fn rand_key(key_type: &str, key_prefix: &str) -> String {
    let num: i32 = rand::thread_rng().gen_range(0, 999999);
    format!("{}::{}{:06}", key_type, key_prefix, num)
}

#[test]
fn remote_wallet_type_create_works() {
    let s = Service::new();
    let wallet_type = RemoteWalletType::new();
    s.create(&wallet_type, "wallet1").unwrap();
}

#[test]
fn remote_wallet_type_create_works_for_twice() {
    let s = Service::new();
    let wallet_type = RemoteWalletType::new();
    s.create(&wallet_type, "wallet1").unwrap();
    let res = s.create(&wallet_type, "wallet1");
    assert!(matches!(res, Ok(())));
}

#[test]
fn remote_wallet_type_delete_works() {
    let s = Service::new();
    let wallet_type = RemoteWalletType::new();
    s.create(&wallet_type, "wallet1").unwrap();
    wallet_type.delete("wallet1", None, None).unwrap();
    s.create(&wallet_type, "wallet1").unwrap();
}

#[test]
fn remote_wallet_type_open_works() {
    let s = Service::new();
    let wallet_type = RemoteWalletType::new();
    s.create(&wallet_type, "wallet1").unwrap();
    s.open(&wallet_type, "wallet1", config(), RemoteWalletCredentials::default()).unwrap();
}

#[test]
fn remote_virtual_wallet_type_open_works() {
    let s = Service::new();
    let wallet_type = RemoteWalletType::new();
    s.create(&wallet_type, "wallet1").unwrap();
    for v in ["some1", "some2", "some3"] {
        let creds = RemoteWalletCredentials { auth_token: Some(String::new()), virtual_wallet: Some(v.to_string()) };
        s.open(&wallet_type, "wallet1", config(), creds).unwrap();
    }
}

fn set_then_get(s: &Service) {
    let wallet_type = RemoteWalletType::new();
    s.create(&wallet_type, "wallet1").unwrap();
    let wallet = s.open(&wallet_type, "wallet1", config(), token_credentials()).unwrap();
    let my_id = rand_key("type", "key_");
    assert!(matches!(s.get(&wallet, &my_id), Err(WalletError::NotFound(_))));
    s.set(&wallet, &my_id, "value1").unwrap();
    let value = s.get(&wallet, &my_id).unwrap();
    assert_eq!("value1", value);
}

#[test]
fn virtual_wallet_set_get_works_base1() {
    set_then_get(&Service::new());
}

#[test]
fn virtual_wallet_set_get_works_base2() {
    set_then_get(&Service::new());
}

#[test]
fn remote_virtual_wallet_set_get_works() {
    let s = Service::new();
    let wallet_type = RemoteWalletType::new();
    s.create(&wallet_type, "wallet1").unwrap();
    let my_key1 = rand_key("type", "key_");
    let my_key2 = rand_key("type", "key_");
    let my_key3 = rand_key("type", "key_");
    let my_key4 = rand_key("type", "root_");

    let wallet1 = s.open(&wallet_type, "wallet1", config(), virtual_credentials("some1")).unwrap();
    s.set(&wallet1, &my_key1, "value1").unwrap();
    assert_eq!("value1", s.get(&wallet1, &my_key1).unwrap());

    let wallet2 = s.open(&wallet_type, "wallet1", config(), virtual_credentials("some2")).unwrap();
    s.set(&wallet2, &my_key2, "value2").unwrap();
    assert_eq!("value2", s.get(&wallet2, &my_key2).unwrap());

    let wallet3 = s.open(&wallet_type, "wallet1", config(), virtual_credentials("some1")).unwrap();
    assert_eq!("value1", s.get(&wallet3, &my_key1).unwrap());

    let wallet4 = s.open(&wallet_type, "wallet1", config(), token_credentials()).unwrap();
    s.set(&wallet4, &my_key3, "value_root").unwrap();
    assert_eq!("value_root", s.get(&wallet4, &my_key3).unwrap());

    let wallet5 = s.open(&wallet_type, "wallet1", config(), virtual_credentials("some2")).unwrap();
    assert_eq!("value2", s.get(&wallet5, &my_key2).unwrap());

    let wallet6 = s.open(&wallet_type, "wallet1", config(), token_credentials()).unwrap();
    assert_eq!("value_root", s.get(&wallet6, &my_key3).unwrap());

    let wallet7 = s.open(&wallet_type, "wallet1", config(), token_credentials()).unwrap();
    s.set(&wallet7, &my_key4, "value_root_only").unwrap();
    assert_eq!("value_root_only", s.get(&wallet7, &my_key4).unwrap());

    let wallet8 = s.open(&wallet_type, "wallet1", config(), virtual_credentials("some2")).unwrap();
    assert_eq!("value_root_only", s.get(&wallet8, &my_key4).unwrap());
}

#[test]
fn remote_virtual_wallet_set_get_works_for_reopen() {
    let s = Service::new();
    let my_key1 = rand_key("type", "key_");
    let wallet_type = RemoteWalletType::new();
    s.create(&wallet_type, "wallet1").unwrap();
    {
        let wallet = s.open(&wallet_type, "wallet1", config(), token_credentials()).unwrap();
        s.set(&wallet, &my_key1, "value1").unwrap();
    }
    let wallet = s.open(&wallet_type, "wallet1", config(), token_credentials()).unwrap();
    assert_eq!("value1", s.get(&wallet, &my_key1).unwrap());
}

#[test]
fn remote_virtual_wallet_get_works_for_unknown() {
    let s = Service::new();
    let wallet_type = RemoteWalletType::new();
    s.create(&wallet_type, "wallet1").unwrap();
    let my_key1 = rand_key("type", "key_");
    let wallet = s.open(&wallet_type, "wallet1", config(), token_credentials()).unwrap();
    assert!(matches!(s.get(&wallet, &my_key1), Err(WalletError::NotFound(_))));
}

#[test]
fn remote_virtual_wallet_set_get_works_for_update() {
    let s = Service::new();
    let wallet_type = RemoteWalletType::new();
    s.create(&wallet_type, "wallet1").unwrap();
    let wallet = s.open(&wallet_type, "wallet1", config(), token_credentials()).unwrap();
    let my_key1 = rand_key("type", "key_");
    s.set(&wallet, &my_key1, "value1").unwrap();
    assert_eq!("value1", s.get(&wallet, &my_key1).unwrap());
    s.set(&wallet, &my_key1, "value2").unwrap();
    assert_eq!("value2", s.get(&wallet, &my_key1).unwrap());
}

#[test]
fn remote_virtual_wallet_set_get_not_expired_works() {
    let s = Service::new();
    let cfg = RemoteWalletRuntimeConfig { endpoint: ITEMS.to_string(), freshness_time: 1 };
    let wallet_type = RemoteWalletType::new();
    s.create(&wallet_type, "wallet1").unwrap();
    let my_key1 = rand_key("type", "key_");
    let wallet = s.open(&wallet_type, "wallet1", cfg, token_credentials()).unwrap();
    s.set(&wallet, &my_key1, "value1").unwrap();
    // Five seconds after the item was created.
    let outcome = s.fetch(&wallet.lookup_request(&my_key1));
    let value = wallet.get_not_expired_finish(&my_key1, &outcome, CREATED_SECS + 5, 0);
    assert!(matches!(value, Err(WalletError::NotFound(_))));
}

fn sorted(mut v: Vec<(String, String)>) -> Vec<(String, String)> {
    v.sort();
    v
}

#[test]
fn remote_virtual_wallet_list_works() {
    // One wallet.
    let s = Service::new();
    let wallet_type = RemoteWalletType::new();
    s.create(&wallet_type, "wallet1").unwrap();
    let wallet = s.open(&wallet_type, "wallet1", config(), token_credentials()).unwrap();
    let my_type = rand_type("type");
    let my_key = rand_key(&my_type, "key_");
    let (k1, k2) = (format!("{}1", my_key), format!("{}2", my_key));
    s.set(&wallet, &k1, "value1").unwrap();
    s.set(&wallet, &k2, "value2").unwrap();
    let mut key_values = sorted(s.list(&wallet, &format!("{}::", my_type)).unwrap());
    assert_eq!(2, key_values.len());
    assert_eq!((k2.clone(), "value2".to_string()), key_values.pop().unwrap());
    assert_eq!((k1.clone(), "value1".to_string()), key_values.pop().unwrap());

    // Two virtual wallets do not see each other's items.
    let s = Service::new();
    s.create(&wallet_type, "wallet1").unwrap();
    let my_type = rand_type("type");
    let my_key = rand_key(&my_type, "key_");
    let keys: Vec<String> = (1..=5).map(|n| format!("{}{}", my_key, n)).collect();
    {
        let wallet = s.open(&wallet_type, "wallet1", config(), virtual_credentials("client1")).unwrap();
        s.set(&wallet, &keys[0], "value1").unwrap();
        s.set(&wallet, &keys[1], "value2").unwrap();
    }
    {
        let wallet = s.open(&wallet_type, "wallet1", config(), virtual_credentials("client2")).unwrap();
        s.set(&wallet, &keys[2], "value3").unwrap();
        s.set(&wallet, &keys[3], "value4").unwrap();
        s.set(&wallet, &keys[4], "value5").unwrap();
    }
    let prefix = format!("{}::", my_type);
    {
        let wallet = s.open(&wallet_type, "wallet1", config(), virtual_credentials("client1")).unwrap();
        let mut key_values = sorted(s.list(&wallet, &prefix).unwrap());
        assert_eq!(2, key_values.len());
        assert_eq!((keys[1].clone(), "value2".to_string()), key_values.pop().unwrap());
        assert_eq!((keys[0].clone(), "value1".to_string()), key_values.pop().unwrap());
    }
    {
        let wallet = s.open(&wallet_type, "wallet1", config(), virtual_credentials("client2")).unwrap();
        let mut key_values = sorted(s.list(&wallet, &prefix).unwrap());
        assert_eq!(3, key_values.len());
        assert_eq!((keys[4].clone(), "value5".to_string()), key_values.pop().unwrap());
        assert_eq!((keys[3].clone(), "value4".to_string()), key_values.pop().unwrap());
        assert_eq!((keys[2].clone(), "value3".to_string()), key_values.pop().unwrap());
    }
}

#[test]
fn remote_wallet_get_pool_name_works() {
    let s = Service::new();
    let remote_wallet_type = RemoteWalletType::new();
    s.create(&remote_wallet_type, "wallet1").unwrap();
    let wallet = s.open(&remote_wallet_type, "wallet1", config(), token_credentials()).unwrap();
    assert_eq!(wallet.get_pool_name(), "pool1");
}

#[test]
fn remote_wallet_get_name_works() {
    let s = Service::new();
    let remote_wallet_type = RemoteWalletType::new();
    s.create(&remote_wallet_type, "wallet1").unwrap();
    let wallet = s.open(&remote_wallet_type, "wallet1", config(), token_credentials()).unwrap();
    assert_eq!(wallet.get_name(), "wallet1");
}
