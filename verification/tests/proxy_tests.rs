use indy_wallet::proxy::body_as_vec;
use indy_wallet::proxy::ensure_trailing_slash;
use indy_wallet::proxy::rest_append_path;
use indy_wallet::proxy::rest_auth_headers;
use indy_wallet::proxy::rest_check_result;
use indy_wallet::proxy::rest_endpoint;
use indy_wallet::proxy::rest_extract_response_body;
use indy_wallet::proxy::rest_extract_response_item;
use indy_wallet::proxy::rest_extract_response_item_checked;
use indy_wallet::proxy::rest_get_request;
use indy_wallet::proxy::rest_post_request;
use indy_wallet::proxy::rest_post_request_auth;
use indy_wallet::proxy::rest_post_request_map;
use indy_wallet::proxy::rest_resource_endpoint;
use indy_wallet::proxy::RestBody;
use indy_wallet::proxy::RestError;
use indy_wallet::proxy::RestMethod;
use indy_wallet::proxy::RestResponse;
use rand::Rng;
use url::percent_encoding::percent_decode;
use url::percent_encoding::utf8_percent_encode;
use url::percent_encoding::DEFAULT_ENCODE_SET;

fn keys() -> Vec<String> {
    ["wallet_name", "item_type", "item_id", "item_value", "id", "created"].iter().map(|s| s.to_string()).collect()
}

fn response(status: u16, text: &str, body: &[u8]) -> RestResponse {
    RestResponse { status, status_text: text.to_string(), body: body.to_vec() }
}

#[test]
fn ensure_url_encoding_works() {
    let input = "confident, productive systems programming";

    let encoded = utf8_percent_encode(input, DEFAULT_ENCODE_SET).to_string();
    assert_eq!(encoded, "confident,%20productive%20systems%20programming");

    let decoded = percent_decode(encoded.as_bytes()).decode_utf8().unwrap();
    assert_eq!(decoded, "confident, productive systems programming");
}

#[test]
fn ensure_trailing_slash_works() {
    let s1 = "http://my.host.com/api".to_owned();
    let s2 = "http://my.host.com/api/".to_owned();
    let s3 = ensure_trailing_slash(&s1);
    assert_eq!(s2, s3);

    let s4 = ensure_trailing_slash(&s3);
    assert_eq!(s3, s4);
}

#[test]
fn rest_append_path_works() {
    let s1 = "http://my.host.com/api".to_owned();
    let s2 = "my_wallet".to_owned();
    let s3 = "http://my.host.com/api/my_wallet/".to_owned();
    let s4 = rest_append_path(&s1, &s2);
    assert_eq!(s3, s4);
}

#[test]
fn rest_endpoint_works() {
    let s1 = "http://my.host.com/api/".to_owned();
    let s2 = Some("my_wallet");
    let s3 = "http://my.host.com/api/my_wallet/".to_owned();
    let s4 = rest_endpoint(&s1, s2);
    assert_eq!(s3, s4);

    let s5 = rest_endpoint(&s1, None);
    assert_eq!(s1, s5);
}

#[test]
fn rest_resource_endpoint_works() {
    let s1 = "http://my.host.com/api/my_wallet/".to_owned();
    let s2 = "some_id".to_owned();
    let s3 = "http://my.host.com/api/my_wallet/some_id/".to_owned();
    let s4 = rest_resource_endpoint(&s1, &s2);
    assert_eq!(s3, s4);
}

#[test]
fn rest_auth_headers_works() {
    let my_token = "Some_Token".to_owned();
    let headers = rest_auth_headers(&my_token);
    assert_eq!(headers.authorization, "Token Some_Token");
}

#[test]
fn validate_body_as_vec_works() {
    let mut rng = rand::thread_rng();
    let num: i32 = rng.gen_range(0, 999999);
    let snum: String = format!("{:06}", num);
    let mut body = "[
            {\"url\":\"http://localhost:8000/api/v1/keyval/1/\",
            \"id\":1,
            \"created\":\"2018-02-27T17:05:09.577673Z\",
            \"wallet_name\":\"Rust_Wallet\",
            \"item_type\":\"rust_claim\",
            \"item_id\":\"888\",
            \"item_value\":\"{\\\"this\\\":\\\"is\\\", \\\"a\\\":\\\"claim\\\", \\\"from\\\":\\\"rust\\\"}\",
            \"creator\":\"ian\"},
            {\"url\":\"http://localhost:8000/api/v1/keyval/2/\",
            \"id\":2,
            \"created\":\"2018-02-27T17:17:17.635730Z\",
            \"wallet_name\":\"Rust_Wallet\",
            \"item_type\":\"rust_claim\",
            \"item_id\":\"".to_owned();
    body.push_str(&snum);
    body.push_str("\",
            \"item_value\":\"{\\\"this\\\":\\\"is\\\", \\\"a\\\":\\\"claim\\\", \\\"from\\\":\\\"rust\\\"}\",
            \"creator\":\"ian\"}
            ]");

    let objects = body_as_vec(&body, &keys());
    match objects {
        Ok(v) => {
            assert_eq!(v.len(), 2);
            let hm = &v[0];
            assert_eq!("Rust_Wallet", hm.get("wallet_name").unwrap());
            assert_eq!("rust_claim", hm.get("item_type").unwrap());
            assert_eq!("888", hm.get("item_id").unwrap());
            assert_eq!("2018-02-27T17:05:09.577673Z", hm.get("created").unwrap());
            assert_eq!("1", hm.get("id").unwrap());
            assert_eq!("{\"this\":\"is\", \"a\":\"claim\", \"from\":\"rust\"}", hm.get("item_value").unwrap());
        },
        Err(e) => assert!(false, "{:?}", e),
    }
}

#[test]
fn body_as_vec_single_object_keeps_only_named_members() {
    let v = body_as_vec(r#"{"id": 7, "item_value": "x", "other": true}"#, &keys()).unwrap();
    assert_eq!(v.len(), 1);
    assert_eq!(v[0].get("id").unwrap(), "7");
    assert_eq!(v[0].get("item_value").unwrap(), "x");
    assert!(v[0].get("other").is_none());
    assert!(v[0].get("created").is_none());
}

#[test]
fn body_as_vec_rejects_non_objects() {
    match body_as_vec(r#""just text""#, &keys()) {
        Err(RestError::RestResponseFormatError(m)) => assert_eq!(m, "Expecting an object or array but got a string just text"),
        _ => panic!("expected a format error"),
    }
    match body_as_vec("42", &keys()) {
        Err(RestError::RestResponseFormatError(m)) => assert!(m.starts_with("Expecting an array of objects ")),
        _ => panic!("expected a format error"),
    }
    match body_as_vec(r#"[{"id": 1}, 3, "x"]"#, &keys()) {
        Err(RestError::RestResponseFormatError(m)) => assert!(m.starts_with("Expecting an array of objects Number")),
        _ => panic!("expected a format error"),
    }
    match body_as_vec("not json", &keys()) {
        Err(RestError::RestResponseFormatError(m)) => assert!(m.starts_with("Expecting a json object or array ")),
        _ => panic!("expected a format error"),
    }
    assert_eq!(body_as_vec("[]", &keys()).unwrap().len(), 0);
}

#[test]
fn rest_check_result_by_status() {
    assert!(rest_check_result(&response(200, "200", b"ok")).is_ok());
    match rest_check_result(&response(201, "201", &[0xff, 0xfe])) {
        Err(RestError::RestInvalidResponse(m)) => assert!(m.starts_with("Invalid UTF-8 sequence: ")),
        _ => panic!("expected an invalid response"),
    }
    match rest_check_result(&response(503, "503", b"")) {
        Err(RestError::RestServerError(m)) => assert_eq!(m, "Server error 503"),
        _ => panic!("expected a server error"),
    }
    match rest_check_result(&response(404, "404", b"")) {
        Err(RestError::RestOtherError(m)) => assert_eq!(m, "Something else happened 404"),
        _ => panic!("expected another error"),
    }
}

#[test]
fn rest_extract_response_body_gives_text() {
    assert_eq!(rest_extract_response_body(&response(200, "200", "héllo".as_bytes())).unwrap(), "héllo");
    assert!(matches!(rest_extract_response_body(&response(500, "500", b"x")), Err(RestError::RestServerError(_))));
}

#[test]
fn rest_extract_response_item_reads_token() {
    let res = response(200, "200", br#"{"token": "abc123"}"#);
    assert_eq!(rest_extract_response_item(&res, "token").unwrap(), "abc123");
    assert_eq!(rest_extract_response_item_checked(&res, "token").unwrap().unwrap(), "abc123");
    assert!(rest_extract_response_item_checked(&res, "other").is_none());
    assert!(rest_extract_response_item_checked(&response(200, "200", b"[1]"), "token").is_none());
    assert!(matches!(
        rest_extract_response_item_checked(&response(401, "401", b"no"), "token"),
        Some(Err(RestError::RestOtherError(_)))
    ));
}

#[test]
fn rest_append_path_encodes() {
    assert_eq!(rest_append_path("http://h/api/", "a b#c"), "http://h/api/a%20b%23c/");
    assert_eq!(rest_append_path("http://h/api", "é"), "http://h/api/%C3%A9/");
    assert_eq!(rest_append_path("http://h", ""), "http://h/");
}

#[test]
fn request_builders() {
    let r = rest_post_request_auth("http://localhost:8000/api/v1/api-token-auth/", "ian", "pass1234");
    assert_eq!(r.method, RestMethod::Post);
    assert_eq!(r.url, "http://localhost:8000/api/v1/api-token-auth/");
    assert!(r.headers.is_none());
    match r.body {
        RestBody::Fields(f) => {
            assert_eq!(f, vec![("username".to_string(), "ian".to_string()), ("password".to_string(), "pass1234".to_string())])
        },
        _ => panic!("expected fields"),
    }
    let g = rest_get_request("http://x/", Some(rest_auth_headers("t")));
    assert_eq!(g.method, RestMethod::Get);
    assert_eq!(g.headers.unwrap().authorization, "Token t");
    let p = rest_post_request("http://x/", None, Some("{}"));
    assert!(matches!(p.body, RestBody::Json(ref t) if t == "{}"));
}

#[test]
fn validate_rest_authenticate_works() {
    let endpoint = "http://localhost:8000/api/v1/api-token-auth/";
    let request = rest_post_request_auth(endpoint, "ian", "pass1234");
    assert_eq!(request.method, RestMethod::Post);
    assert_eq!(request.url, endpoint);
    // The service answers a login with a JSON object holding the token.
    let reply = response(200, "200 OK", br#"{"token": "9944b09199c62bcf9418ad846dd0e4bbdfc6ee4b"}"#);
    let result = rest_extract_response_item(&reply, "token");
    match result {
        Ok(s) => assert_eq!(s, "9944b09199c62bcf9418ad846dd0e4bbdfc6ee4b"),
        Err(e) => assert!(false, "{:?}", e),
    }
}

#[test]
fn validate_unauth_rest_get_works() {
    let endpoint = "http://localhost:8000/api/v1/schema/";
    let request = rest_get_request(endpoint, None);
    assert_eq!(request.method, RestMethod::Get);
    assert_eq!(request.url, endpoint);
    assert!(request.headers.is_none());
    // The schema is open to anyone.
    let reply = response(200, "200 OK", b"{\"schema\": {}}");
    match rest_check_result(&reply) {
        Ok(()) => (),
        Err(e) => assert!(false, "{:?}", e),
    }
}

#[test]
fn validate_rest_auth_get_works() {
    let get_endpoint = "http://localhost:8000/api/v1/keyval/my_wallet/type/";
    let request = rest_get_request(get_endpoint, None);
    assert!(request.headers.is_none());
    // Without a token the service refuses.
    let refused = response(401, "401 Unauthorized", b"{\"detail\":\"Authentication credentials were not provided.\"}");
    assert!(rest_check_result(&refused).is_err());

    let login = response(200, "200 OK", br#"{"token": "abc123"}"#);
    let token = rest_extract_response_item(&login, "token").unwrap();
    let request = rest_get_request(get_endpoint, Some(rest_auth_headers(&token)));
    assert_eq!(request.headers.unwrap().authorization, "Token abc123");
    let accepted = response(200, "200 OK", b"[]");
    match rest_check_result(&accepted) {
        Ok(()) => (),
        Err(e) => assert!(false, "{:?}", e),
    }
}

#[test]
fn validate_rest_auth_post_works() {
    let get_endpoint = "http://localhost:8000/api/v1/keyval/";
    let num: i32 = rand::thread_rng().gen_range(0, 999999);
    let snum = format!("{:06}", num);
    let json = format!(
        "{{\"wallet_name\":\"my_wallet\", \"item_type\":\"claim\", \"item_id\":\"{}\", \"item_value\":\"{{\\\"this\\\":\\\"is\\\", \\\"a\\\":\\\"claim\\\", \\\"from\\\":\\\"rust\\\"}}\"}}",
        snum
    );
    let request = rest_post_request(get_endpoint, None, Some(&json));
    assert_eq!(request.method, RestMethod::Post);
    assert!(request.headers.is_none());
    match &request.body {
        RestBody::Json(j) => assert_eq!(j, &json),
        _ => panic!("expected the JSON text"),
    }
    let refused = response(401, "401 Unauthorized", b"{}");
    assert!(rest_check_result(&refused).is_err());

    let headers = rest_auth_headers("abc123");
    let request = rest_post_request(get_endpoint, Some(headers), Some(&json));
    assert_eq!(request.headers.unwrap().authorization, "Token abc123");
    let created = response(201, "201 Created", b"{}");
    assert!(rest_check_result(&created).is_ok());

    let map: Vec<(String, String)> = vec![
        ("wallet_name".to_string(), "Rust_Wallet".to_string()),
        ("item_type".to_string(), "rust_claim".to_string()),
        ("item_id".to_string(), snum.clone()),
        ("item_value".to_string(), "{\"this\":\"is\", \"a\":\"claim\", \"from\":\"rust\"}".to_string()),
    ];
    let request = rest_post_request_map(get_endpoint, Some(rest_auth_headers("abc123")), Some(map.clone()));
    match &request.body {
        RestBody::Fields(f) => assert_eq!(f, &map[..]),
        _ => panic!("expected the fields"),
    }
    assert!(rest_check_result(&created).is_ok());
}

#[test]
fn validate_rest_auth_get_list_works() {
    let list_endpoint = "http://localhost:8000/api/v1/keyval/Rust_Wallet/rust_claim/";
    let request = rest_get_request(list_endpoint, Some(rest_auth_headers("abc123")));
    assert_eq!(request.url, list_endpoint);
    let body = br#"[{"id": 1, "created": "2018-02-27T17:05:09.577673Z", "wallet_name": "Rust_Wallet", "item_type": "rust_claim", "item_id": "1", "item_value": "v1"},
                    {"id": 2, "created": "2018-02-27T17:05:10.000000Z", "wallet_name": "Rust_Wallet", "item_type": "rust_claim", "item_id": "2", "item_value": "v2"}]"#;
    let reply = response(200, "200 OK", body);
    let text = rest_extract_response_body(&reply).unwrap();
    let objects = body_as_vec(&text, &keys()).unwrap();
    assert_eq!(2, objects.len());
    for o in &objects {
        assert_eq!("Rust_Wallet", o.get("wallet_name").unwrap());
        assert_eq!("rust_claim", o.get("item_type").unwrap());
    }
    assert_eq!("2", objects[1].get("id").unwrap());
}
