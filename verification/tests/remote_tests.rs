use indy_wallet::errors::CommonError;
use indy_wallet::errors::WalletError;
use indy_wallet::keys::item_type_id_to_key;
use indy_wallet::keys::key_prefix_to_type;
use indy_wallet::keys::key_to_item_type_id;
use indy_wallet::keys::split_key;
use indy_wallet::proxy::RestBody;
use indy_wallet::proxy::RestError;
use indy_wallet::proxy::RestMethod;
use indy_wallet::proxy::RestResponse;
use indy_wallet::remote::call_get_internal_result;
use indy_wallet::remote::call_get_internal_result_checked;
use indy_wallet::remote::list_decidable;
use indy_wallet::remote::lookup_decidable;
use indy_wallet::remote::in_virtual_wallet;
use indy_wallet::remote::rest_body_to_items;
use indy_wallet::remote::rest_endpoint_for_resource;
use indy_wallet::remote::rest_endpoint_for_resource_id;
use indy_wallet::remote::root_wallet_name;
use indy_wallet::remote::virtual_wallet_name;
use indy_wallet::remote::FetchOutcome;
use indy_wallet::remote::GetStep;
use indy_wallet::remote::RemoteWallet;
use indy_wallet::remote::RemoteWalletCredentials;
use indy_wallet::remote::RemoteWalletRuntimeConfig;
use indy_wallet::remote::RemoteWalletType;

fn item(fields: &[(&str, &str)]) -> serde_json::Value {
    let mut members = serde_json::Map::new();
    for (k, v) in fields {
        members.insert(k.to_string(), serde_json::Value::String(v.to_string()));
    }
    serde_json::Value::Object(members)
}

fn items(list: Vec<serde_json::Value>) -> FetchOutcome {
    FetchOutcome::Body(serde_json::Value::Array(list).to_string())
}

fn wallet(virtual_wallet: Option<&str>) -> RemoteWallet {
    let creds = RemoteWalletCredentials {
        auth_token: Some("1234567890".to_string()),
        virtual_wallet: virtual_wallet.map(|s| s.to_string()),
    };
    RemoteWallet::new("wallet1", "pool1", RemoteWalletRuntimeConfig::default(), creds)
}

#[test]
fn remote_virtual_wallet_name_works() {
    let w1 = root_wallet_name("root");
    assert_eq!("root", w1);

    let credentials1 = RemoteWalletCredentials {
        auth_token: Some(String::from("Token 1234567890")),
        virtual_wallet: Some(String::from("virtual")),
    };
    let w2 = virtual_wallet_name("root", &credentials1);
    assert_eq!("virtual", w2);

    let w3 = root_wallet_name("root");
    assert_eq!("root", w3);

    let credentials2 = RemoteWalletCredentials { auth_token: Some(String::from("Token 1234567890")), virtual_wallet: None };
    let w4 = virtual_wallet_name("root", &credentials2);
    assert_eq!("root", w4);
}

#[test]
fn in_virtual_wallet_works() {
    assert!(in_virtual_wallet("root_wallet", "virtual_wallet"));
    assert!(!in_virtual_wallet("root_wallet", "root_wallet"));
}

#[test]
fn remote_wallet_type_new_works() {
    RemoteWalletType::new();
}

#[test]
fn keys_split_and_join() {
    assert_eq!(key_to_item_type_id("type::key_1"), ("type".to_string(), "key_1".to_string()));
    assert_eq!(item_type_id_to_key("type", "key_1"), "type::key_1");
    assert_eq!(key_to_item_type_id(&item_type_id_to_key("claim", "42")), ("claim".to_string(), "42".to_string()));
    assert_eq!(split_key("a:::b"), vec!["a".to_string(), ":b".to_string()]);
    assert_eq!(split_key("a::b::c"), vec!["a".to_string(), "b".to_string(), "c".to_string()]);
    assert_eq!(split_key("plain"), vec!["plain".to_string()]);
    assert_eq!(split_key("::"), vec!["".to_string(), "".to_string()]);
    assert_eq!(key_prefix_to_type("key1::"), "key1");
    assert_eq!(key_prefix_to_type("key1"), "key1");
    assert_eq!(key_prefix_to_type("type123::key_"), "type123");
}

#[test]
fn default_config_and_credentials() {
    let c = RemoteWalletRuntimeConfig::default();
    assert_eq!(c.endpoint, "http://localhost:8000/items/");
    assert_eq!(c.freshness_time, 1000);
    let k = RemoteWalletCredentials::default();
    assert!(k.auth_token.is_none() && k.virtual_wallet.is_none());
}

#[test]
fn lookup_request_targets_the_selected_wallet() {
    let w = wallet(Some("some 1"));
    let r = w.lookup_request("type::key_1");
    assert_eq!(r.method, RestMethod::Get);
    assert_eq!(r.url, "http://localhost:8000/items/some%201/type/key_1/");
    assert_eq!(r.headers.unwrap().authorization, "Token 1234567890");
    assert!(matches!(r.body, RestBody::Empty));
}

#[test]
fn lookup_decides_on_the_item_count() {
    let one = items(vec![item(&[("id", "5"), ("item_value", "value1")])]);
    assert_eq!(call_get_internal_result(&one).unwrap(), ("5".to_string(), "value1".to_string()));
    match call_get_internal_result(&items(vec![])) {
        Err(WalletError::NotFound(m)) => assert_eq!(m, "Error Item not found"),
        _ => panic!("expected not found"),
    }
    let two = items(vec![item(&[("id", "1"), ("item_value", "a")]), item(&[("id", "2"), ("item_value", "b")])]);
    match call_get_internal_result(&two) {
        Err(WalletError::NotFound(m)) => assert_eq!(m, "Error Multiple Items found"),
        _ => panic!("expected not found"),
    }
    match call_get_internal_result(&FetchOutcome::Body("\"x\"".to_string())) {
        Err(WalletError::CommonError(CommonError::InvalidStructure(m))) => assert_eq!(m, "Invalid response from wallet"),
        _ => panic!("expected an invalid structure"),
    }
    assert!(matches!(
        call_get_internal_result(&FetchOutcome::Failed(RestError::RestRequestError("down".to_string()))),
        Err(WalletError::NotFound(_))
    ));
}

#[test]
fn get_falls_back_to_root_only_in_virtual_wallet() {
    let found = items(vec![item(&[("id", "5"), ("item_value", "value1")])]);
    let missing = items(vec![]);

    let virt = wallet(Some("some1"));
    match virt.get_after_selected("type::key_1", &found) {
        GetStep::Done(Ok(v)) => assert_eq!(v, "value1"),
        _ => panic!("expected the value"),
    }
    match virt.get_after_selected("type::key_1", &missing) {
        GetStep::Fetch(req) => assert_eq!(req.url, "http://localhost:8000/items/wallet1/type/key_1/"),
        _ => panic!("expected a root lookup"),
    }
    assert_eq!(virt.get_after_root(&found).unwrap(), "value1");
    assert!(matches!(virt.get_after_root(&missing), Err(WalletError::NotFound(_))));

    let root = wallet(None);
    assert!(matches!(root.get_after_selected("type::key_1", &missing), GetStep::Done(Err(WalletError::NotFound(_)))));
}

#[test]
fn set_puts_existing_and_posts_new() {
    let w = wallet(Some("client1"));
    let existing = items(vec![item(&[("id", "17"), ("item_value", "old")])]);
    let put = w.set_after_lookup("type::key_1", "value2", &existing);
    assert_eq!(put.method, RestMethod::Put);
    assert_eq!(put.url, "http://localhost:8000/items/17/");
    let post = w.set_after_lookup("type::key_1", "value2", &items(vec![]));
    assert_eq!(post.method, RestMethod::Post);
    assert_eq!(post.url, "http://localhost:8000/items/");
    match post.body {
        RestBody::Fields(f) => assert_eq!(
            f,
            vec![
                ("wallet_name".to_string(), "client1".to_string()),
                ("item_type".to_string(), "type".to_string()),
                ("item_id".to_string(), "key_1".to_string()),
                ("item_value".to_string(), "value2".to_string()),
            ]
        ),
        _ => panic!("expected fields"),
    }
    let ok = RestResponse { status: 201, status_text: "201".to_string(), body: b"{}".to_vec() };
    assert!(RemoteWallet::set_finish(&Ok(ok)).is_ok());
    let bad = RestResponse { status: 400, status_text: "400".to_string(), body: vec![] };
    assert!(matches!(RemoteWallet::set_finish(&Ok(bad)), Err(WalletError::NotFound(_))));
}

#[test]
fn list_rebuilds_keys() {
    let w = wallet(None);
    let req = w.list_request("type123::");
    assert_eq!(req.url, "http://localhost:8000/items/wallet1/type123/");
    let out = RemoteWallet::list_finish(&items(vec![
        item(&[("item_type", "type123"), ("item_id", "key_1"), ("item_value", "value1")]),
        item(&[("item_type", "type123"), ("item_id", "key_2"), ("item_value", "value2")]),
    ]))
    .unwrap();
    assert_eq!(out, vec![
        ("type123::key_1".to_string(), "value1".to_string()),
        ("type123::key_2".to_string(), "value2".to_string()),
    ]);
}

#[test]
fn get_not_expired_checks_freshness() {
    let mut w = wallet(None);
    w.config.freshness_time = 1;
    let found = items(vec![item(&[("id", "5"), ("item_value", "value1"), ("created", "2018-02-27T17:05:09.577673Z")])]);
    let created: i64 = 1519751109;
    assert_eq!(w.get_not_expired_finish("type::key_1", &found, created, 0).unwrap(), "value1");
    assert_eq!(w.get_not_expired_finish("type::key_1", &found, created + 1, 999_999_999).unwrap(), "value1");
    match w.get_not_expired_finish("type::key_1", &found, created + 5, 0) {
        Err(WalletError::NotFound(m)) => assert_eq!(m, "type::key_1"),
        _ => panic!("expected stale"),
    }
    w.config.freshness_time = 0;
    assert_eq!(w.get_not_expired_finish("type::key_1", &found, created + 5000, 0).unwrap(), "value1");
    let no_time = items(vec![item(&[("id", "5"), ("item_value", "value1")])]);
    assert!(w.get_not_expired_finish_checked("type::key_1", &no_time, created, 0).is_none());
    let bad_time = items(vec![item(&[("id", "5"), ("item_value", "v"), ("created", "yesterday")])]);
    assert!(w.get_not_expired_finish_checked("type::key_1", &bad_time, created, 0).is_none());
    assert!(matches!(w.get_not_expired_finish_checked("type::key_1", &items(vec![]), created, 0), Some(Err(WalletError::NotFound(_)))));
}

#[test]
fn wallet_type_create_and_open() {
    let t = RemoteWalletType::new();
    assert!(matches!(t.create_start("wallet1", true), Err(WalletError::AlreadyExists(ref n)) if n == "wallet1"));
    assert!(t.create_start("wallet1", false).is_ok());
    let ping = RemoteWalletType::ping_request();
    assert_eq!(ping.url, "http://localhost:8000/schema/");
    assert!(ping.headers.is_none());
    let up = RestResponse { status: 200, status_text: "200".to_string(), body: b"schema".to_vec() };
    assert!(t.create_finish(&Ok(up)).is_ok());
    assert!(matches!(t.create_finish(&Err(RestError::RestRequestError("x".to_string()))), Err(WalletError::AccessFailed(_))));
    assert!(t.delete("wallet1", None, None).is_ok());
    let up = RestResponse { status: 200, status_text: "200".to_string(), body: b"schema".to_vec() };
    let w = t
        .open_finish("wallet1", "pool1", RemoteWalletRuntimeConfig::default(), RemoteWalletCredentials::default(), &Ok(up))
        .unwrap();
    assert_eq!(w.get_name(), "wallet1");
    assert_eq!(w.get_pool_name(), "pool1");
    assert!(w.close().is_ok());
}

#[test]
fn rest_body_to_items_maps_errors() {
    match rest_body_to_items("eof") {
        Err(WalletError::CommonError(CommonError::InvalidStructure(m))) => assert_eq!(m, "Invalid response from wallet"),
        _ => panic!("expected an invalid structure"),
    }
}

#[test]
fn one_key_in_two_wallets_has_two_addresses() {
    let config = RemoteWalletRuntimeConfig::default();
    let creds = RemoteWalletCredentials::default();
    let a = rest_endpoint_for_resource_id(&config, &creds, "wallet one", "claim", "42");
    let b = rest_endpoint_for_resource_id(&config, &creds, "wallet two", "claim", "42");
    assert_eq!("http://localhost:8000/items/wallet%20one/claim/42/", a);
    assert_eq!("http://localhost:8000/items/wallet%20two/claim/42/", b);
    assert_ne!(a, b);
    assert_ne!(
        rest_endpoint_for_resource(&config, &creds, "", "claim"),
        rest_endpoint_for_resource(&config, &creds, "w", "claim")
    );
    // Names with `%`, or ending with `/`, can meet.
    assert_eq!(
        rest_endpoint_for_resource_id(&config, &creds, "a b", "claim", "42"),
        rest_endpoint_for_resource_id(&config, &creds, "a%20b", "claim", "42")
    );
    assert_eq!(
        rest_endpoint_for_resource_id(&config, &creds, "a/", "claim", "42"),
        rest_endpoint_for_resource_id(&config, &creds, "a", "claim", "42")
    );
}

#[test]
fn response_bodies_are_read_as_json() {
    let body = FetchOutcome::Body(r#"[{"id": 5, "item_value": "v", "created": null}]"#.to_string());
    match call_get_internal_result(&body) {
        Ok((id, v)) => {
            assert_eq!(id, "5");
            assert_eq!(v, "v");
        },
        Err(e) => panic!("{:?}", e),
    }
    let v = rest_body_to_items(r#"{"item_type": "t", "item_id": "i", "item_value": {"a": 1}}"#).unwrap();
    assert_eq!(v.len(), 1);
    assert_eq!(v[0].get("item_value").unwrap(), r#"{"a":1}"#);
}

#[test]
fn checked_steps_refuse_items_without_members() {
    let w = wallet(Some("virtual"));
    let no_value = items(vec![item(&[("id", "5")])]);
    assert!(!lookup_decidable(&no_value));
    assert!(call_get_internal_result_checked(&no_value).is_none());
    assert!(w.get_after_root_checked(&no_value).is_none());
    assert!(w.get_after_selected_checked("type::key_1", &no_value).is_none());
    assert!(w.set_after_lookup_checked("type::key_1", "x", &no_value).is_none());

    let good = items(vec![item(&[("id", "5"), ("item_value", "v")])]);
    assert!(lookup_decidable(&good));
    assert!(matches!(w.get_after_root_checked(&good), Some(Ok(ref v)) if v == "v"));
    assert!(matches!(call_get_internal_result_checked(&good), Some(Ok((ref id, _))) if id == "5"));

    let no_id = items(vec![item(&[("item_type", "t"), ("item_value", "v")])]);
    assert!(!list_decidable(&no_id));
    assert!(RemoteWallet::list_finish_checked(&no_id).is_none());
    let listed = items(vec![item(&[("item_type", "t"), ("item_id", "i"), ("item_value", "v")])]);
    assert!(list_decidable(&listed));
    match RemoteWallet::list_finish_checked(&listed) {
        Some(Ok(v)) => assert_eq!(v, vec![("t::i".to_string(), "v".to_string())]),
        _ => panic!("expected a listing"),
    }
}
