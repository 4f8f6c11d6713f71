//! The remote wallet: a proxy to a REST wallet service that keeps a root
//! wallet and any number of virtual (per-subject) wallets. Items are stored
//! under keys `item_type::item_id`; a lookup in a virtual wallet falls back
//! to the root wallet. The requests sent and the decisions taken on each
//! response are computed here; sending them is left to the caller.

use vstd::prelude::*;
use crate::errors::CommonError;
use crate::errors::WalletError;
use crate::errors::wallet_error_text;
use crate::errors::wallet_error_debug;
use crate::errors::CommonErrorView;
use crate::errors::WalletErrorView;
use crate::freshness::elapsed_in_range;
use crate::freshness::elapsed_seconds;
use crate::freshness::expired;
use crate::freshness::is_stale;
use crate::freshness::parsed_utc_instant;
use crate::freshness::strptime_utc;
use crate::freshness::valid_nsec;
use crate::keys::item_key;
use crate::keys::item_type_id_to_key;
use crate::keys::key_prefix_to_type;
use crate::keys::key_to_item_type_id;
use crate::keys::split_sep;
use crate::proxy::RestError;
use crate::proxy::RestHeaders;
use crate::proxy::RestMethod;
use crate::proxy::RestRequest;
use crate::proxy::RestResponse;
use crate::proxy::appended_path;
use crate::proxy::is_success;
use crate::proxy::item_text;
use crate::proxy::body_as_vec;
use crate::proxy::decoded_view_items;
use crate::proxy::parsed_json_body;
use crate::proxy::field_view_text;
use crate::proxy::JsonBodyView;
use crate::proxy::JsonFieldView;
use crate::proxy::lemma_body_view_items_decoded;
use crate::proxy::keys_view;
use crate::proxy::rest_auth_headers;
use crate::proxy::rest_check_result;
use crate::proxy::rest_error_text;
use crate::proxy::rest_error_debug;
use crate::proxy::check_error;
use crate::proxy::rest_get_request;
use crate::proxy::rest_post_request_map;
use crate::proxy::rest_put_request_map;
use crate::proxy::rest_resource_endpoint;
use crate::proxy::wallet_endpoint;
use crate::proxy::with_trailing_slash;
use crate::proxy::slash_tail;
use crate::proxy::path_encoded;
use crate::proxy::lemma_trailing_slash_idempotent;
use crate::proxy::lemma_appended_path_extends;
use crate::proxy::lemma_path_encoded_last;
use crate::proxy::lemma_path_encoded_injective;
use vstd::utf8::encode_utf8;
use crate::strmap::StrMap;
use vstd::utf8::valid_utf8;

verus! {

/// Runtime configuration: the service endpoint and the freshness time (in
/// seconds; 0 turns the check off).
pub struct RemoteWalletRuntimeConfig {
    pub endpoint: String,
    pub freshness_time: i64,
}

impl Default for RemoteWalletRuntimeConfig {
    fn default() -> (r: Self)
        ensures
            r.endpoint@ == "http://localhost:8000/items/"@,
            r.freshness_time == 1000,
    {
        RemoteWalletRuntimeConfig { endpoint: String::from_str("http://localhost:8000/items/"), freshness_time: 1000 }
    }
}

/// Credentials: the authentication token and the virtual wallet to use (the
/// root wallet where there is none).
pub struct RemoteWalletCredentials {
    pub auth_token: Option<String>,
    pub virtual_wallet: Option<String>,
}

impl Default for RemoteWalletCredentials {
    fn default() -> (r: Self)
        ensures
            r.auth_token is None,
            r.virtual_wallet is None,
    {
        RemoteWalletCredentials { auth_token: None, virtual_wallet: None }
    }
}

/// An open remote wallet.
pub struct RemoteWallet {
    pub wallet_name: String,
    pub pool_name: String,
    pub config: RemoteWalletRuntimeConfig,
    pub credentials: RemoteWalletCredentials,
}

/// The name of the wallet that the credentials select: the virtual wallet,
/// or the wallet itself.
pub open spec fn virtual_name_of(wallet_name: Seq<char>, credentials: RemoteWalletCredentials) -> Seq<char> {
    match credentials.virtual_wallet {
        Some(s) => s@,
        None => wallet_name,
    }
}

/// The name of the root wallet of a wallet.
pub fn root_wallet_name(wallet_name: &str) -> (r: String)
    ensures
        r@ == wallet_name@,
{
    String::from_str(wallet_name)
}

/// The name of the wallet the credentials select.
pub fn virtual_wallet_name(wallet_name: &str, credentials: &RemoteWalletCredentials) -> (r: String)
    ensures
        r@ == virtual_name_of(wallet_name@, *credentials),
{
    match &credentials.virtual_wallet {
        Some(s) => s.clone(),
        None => String::from_str(wallet_name),
    }
}

/// Whether the selected wallet is a virtual one (not the root).
pub fn in_virtual_wallet(root_wallet_name: &str, virtual_wallet_name: &str) -> (r: bool)
    ensures
        r == (root_wallet_name@ != virtual_wallet_name@),
{
    String::from_str(root_wallet_name) != String::from_str(virtual_wallet_name)
}

/// The endpoint of the selected wallet.
pub fn rest_endpoint(config: &RemoteWalletRuntimeConfig, credentials: &RemoteWalletCredentials, wallet_name: &str) -> (r: String)
    ensures
        r@ == wallet_endpoint(config.endpoint@, Some(virtual_name_of(wallet_name@, *credentials))),
{
    let name = virtual_wallet_name(wallet_name, credentials);
    crate::proxy::rest_endpoint(config.endpoint.as_str(), Some(name.as_str()))
}

/// The endpoint to store an item at: the item's own where it has an id,
/// the collection's otherwise.
pub fn rest_endpoint_for_set(config: &RemoteWalletRuntimeConfig, credentials: &RemoteWalletCredentials, id: Option<&str>) -> (r: String)
    ensures
        r@ == wallet_endpoint(config.endpoint@, match id {
            Some(i) => Some(i@),
            None => None,
        }),
{
    crate::proxy::rest_endpoint(config.endpoint.as_str(), id)
}

/// The endpoint of the items of one type in a wallet.
pub open spec fn resource_url(endpoint: Seq<char>, wallet_name: Seq<char>, item_key: Seq<char>) -> Seq<char> {
    appended_path(wallet_endpoint(endpoint, Some(wallet_name)), item_key)
}

/// The endpoint of the items of one type in a wallet.
pub fn rest_endpoint_for_resource(
    config: &RemoteWalletRuntimeConfig,
    credentials: &RemoteWalletCredentials,
    item_wallet_name: &str,
    item_key: &str,
) -> (r: String)
    ensures
        r@ == resource_url(config.endpoint@, item_wallet_name@, item_key@),
{
    let endpoint = crate::proxy::rest_endpoint(config.endpoint.as_str(), Some(item_wallet_name));
    rest_resource_endpoint(endpoint.as_str(), item_key)
}

/// The endpoint of one item, by its type and id, in a wallet.
pub open spec fn resource_id_url(endpoint: Seq<char>, wallet_name: Seq<char>, item_type: Seq<char>, item_id: Seq<char>) -> Seq<char> {
    appended_path(appended_path(wallet_endpoint(endpoint, Some(wallet_name)), item_type), item_id)
}

/// The address of a wallet, and of anything under it, starts with the base
/// endpoint and the wallet's own path component.
proof fn lemma_wallet_urls(endpoint: Seq<char>, w: Seq<char>, t: Seq<char>, i: Seq<char>)
    ensures
        resource_url(endpoint, w, t) == with_trailing_slash(endpoint) + slash_tail(path_encoded(w))
            + slash_tail(path_encoded(t)),
        resource_id_url(endpoint, w, t, i) == with_trailing_slash(endpoint) + slash_tail(path_encoded(w))
            + slash_tail(path_encoded(t)) + slash_tail(path_encoded(i)),
{
    let base = with_trailing_slash(endpoint);
    lemma_trailing_slash_idempotent(endpoint);
    lemma_appended_path_extends(base, w);
    assert(appended_path(endpoint, w) == appended_path(base, w));
    let we = appended_path(base, w);
    lemma_appended_path_extends(we, t);
    let te = appended_path(we, t);
    lemma_appended_path_extends(te, i);
}

/// Two wallet names (without `%`, not ending with `/`) whose path
/// components agree are the same name.
proof fn lemma_wallet_component_injective(w1: Seq<char>, w2: Seq<char>)
    requires
        !w1.contains('%'),
        !w2.contains('%'),
        w1.len() > 0 ==> w1.last() != '/',
        w2.len() > 0 ==> w2.last() != '/',
        slash_tail(path_encoded(w1)) == slash_tail(path_encoded(w2)),
    ensures
        w1 == w2,
{
    let e1 = path_encoded(w1);
    let e2 = path_encoded(w2);
    if w1.len() > 0 {
        lemma_path_encoded_last(w1);
    } else {
        assert(encode_utf8(w1) =~= Seq::<u8>::empty());
    }
    if w2.len() > 0 {
        lemma_path_encoded_last(w2);
    } else {
        assert(encode_utf8(w2) =~= Seq::<u8>::empty());
    }
    if e1.len() > 0 && e2.len() > 0 {
        assert(e1 =~= slash_tail(e1).drop_last());
        assert(e2 =~= slash_tail(e2).drop_last());
    }
    lemma_path_encoded_injective(w1, w2);
}

/// Keys can be repeated across wallets: one key in two different wallets
/// (named without `%` and not ending with `/`) is looked up and listed at
/// two different addresses.
pub proof fn lemma_wallets_keep_items_apart(
    endpoint: Seq<char>,
    w1: Seq<char>,
    w2: Seq<char>,
    item_type: Seq<char>,
    item_id: Seq<char>,
)
    requires
        w1 != w2,
        !w1.contains('%'),
        !w2.contains('%'),
        w1.len() > 0 ==> w1.last() != '/',
        w2.len() > 0 ==> w2.last() != '/',
    ensures
        resource_id_url(endpoint, w1, item_type, item_id) != resource_id_url(endpoint, w2, item_type, item_id),
        resource_url(endpoint, w1, item_type) != resource_url(endpoint, w2, item_type),
{
    lemma_wallet_urls(endpoint, w1, item_type, item_id);
    lemma_wallet_urls(endpoint, w2, item_type, item_id);
    let base = with_trailing_slash(endpoint);
    let a1 = slash_tail(path_encoded(w1));
    let a2 = slash_tail(path_encoded(w2));
    let tt = slash_tail(path_encoded(item_type));
    let ti = slash_tail(path_encoded(item_id));
    if resource_id_url(endpoint, w1, item_type, item_id) == resource_id_url(endpoint, w2, item_type, item_id) {
        let u = base + a1 + tt + ti;
        assert(u == base + a2 + tt + ti);
        assert(a1.len() == a2.len());
        assert(a1 =~= u.subrange(base.len() as int, (base.len() + a1.len()) as int));
        assert(a2 =~= (base + a2 + tt + ti).subrange(base.len() as int, (base.len() + a2.len()) as int));
        lemma_wallet_component_injective(w1, w2);
    }
    if resource_url(endpoint, w1, item_type) == resource_url(endpoint, w2, item_type) {
        let u = base + a1 + tt;
        assert(u == base + a2 + tt);
        assert(a1.len() == a2.len());
        assert(a1 =~= u.subrange(base.len() as int, (base.len() + a1.len()) as int));
        assert(a2 =~= (base + a2 + tt).subrange(base.len() as int, (base.len() + a2.len()) as int));
        lemma_wallet_component_injective(w1, w2);
    }
}

/// The endpoint of one item, by its type and id, in a wallet.
pub fn rest_endpoint_for_resource_id(
    config: &RemoteWalletRuntimeConfig,
    credentials: &RemoteWalletCredentials,
    item_wallet_name: &str,
    item_type: &str,
    item_id: &str,
) -> (r: String)
    ensures
        r@ == resource_id_url(config.endpoint@, item_wallet_name@, item_type@, item_id@),
{
    let endpoint = crate::proxy::rest_endpoint(config.endpoint.as_str(), Some(item_wallet_name));
    let endpoint = rest_resource_endpoint(endpoint.as_str(), item_type);
    rest_resource_endpoint(endpoint.as_str(), item_id)
}

/// The headers carry the credentials' token.
pub open spec fn authenticates(h: Option<RestHeaders>, credentials: RemoteWalletCredentials) -> bool {
    h matches Some(hh) && credentials.auth_token matches Some(t) && hh.authorization@ == "Token "@ + t@
}

/// The authentication headers for the credentials, which must hold a token.
pub fn rest_auth_header(config: &RemoteWalletRuntimeConfig, credentials: &RemoteWalletCredentials) -> (r: RestHeaders)
    requires
        credentials.auth_token is Some,
    ensures
        authenticates(Some(r), *credentials),
{
    match &credentials.auth_token {
        Some(s) => rest_auth_headers(s.as_str()),
        None => RestHeaders { authorization: String::new() },
    }
}

/// The members that an item of the service carries.
pub open spec fn item_keys() -> Seq<Seq<char>> {
    seq!["wallet_name"@, "item_type"@, "item_id"@, "item_value"@, "id"@, "created"@]
}

fn item_key_names() -> (r: Vec<String>)
    ensures
        keys_view(r@) == item_keys(),
{
    let mut keys: Vec<String> = Vec::new();
    keys.push(String::from_str("wallet_name"));
    keys.push(String::from_str("item_type"));
    keys.push(String::from_str("item_id"));
    keys.push(String::from_str("item_value"));
    keys.push(String::from_str("id"));
    keys.push(String::from_str("created"));
    assert(keys_view(keys@) =~= item_keys());
    keys
}

/// The items a response body decodes to: the body read as JSON, then each
/// object's members named in `item_keys()`; `None` where the body is not an
/// object or an array of objects.
pub open spec fn body_items(text: Seq<char>) -> Option<Seq<Map<Seq<char>, Seq<char>>>> {
    decoded_view_items(parsed_json_body(text), item_keys())
}

/// The fields a response item is decoded with are exactly the service's
/// item fields `wallet_name`, `item_type`, `item_id`, `item_value`, `id`
/// and `created`: a body holding one JSON object decodes to one item that
/// maps each of these members of the object to its text, and holds no
/// other member.
pub proof fn lemma_items_carry_the_service_fields(text: Seq<char>, m: Map<Seq<char>, JsonFieldView>, k: Seq<char>)
    requires
        parsed_json_body(text) == Ok::<JsonBodyView, Seq<char>>(JsonBodyView::Object(m)),
    ensures
        body_items(text) matches Some(items) && items.len() == 1 && ({
            let field = k == "wallet_name"@ || k == "item_type"@ || k == "item_id"@ || k == "item_value"@
                || k == "id"@ || k == "created"@;
            &&& items[0].contains_key(k) <==> (field && m.contains_key(k))
            &&& items[0].contains_key(k) ==> items[0][k] == field_view_text(m[k])
        }),
{
    reveal_strlit("wallet_name");
    reveal_strlit("item_type");
    reveal_strlit("item_id");
    reveal_strlit("item_value");
    reveal_strlit("id");
    reveal_strlit("created");
    let keys = item_keys();
    assert(keys[0] == "wallet_name"@ && keys[1] == "item_type"@ && keys[2] == "item_id"@);
    assert(keys[3] == "item_value"@ && keys[4] == "id"@ && keys[5] == "created"@);
    if keys.contains(k) {
        let j = choose|j: int| 0 <= j < keys.len() && keys[j] == k;
        assert(j == 0 || j == 1 || j == 2 || j == 3 || j == 4 || j == 5);
    }
    if k == "wallet_name"@ { assert(keys[0] == k); }
    if k == "item_type"@ { assert(keys[1] == k); }
    if k == "item_id"@ { assert(keys[2] == k); }
    if k == "item_value"@ { assert(keys[3] == k); }
    if k == "id"@ { assert(keys[4] == k); }
    if k == "created"@ { assert(keys[5] == k); }
}

/// Decodes a response body into the service's items; a body that is not
/// JSON, or not an object or an array of objects, is an invalid response.
pub fn rest_body_to_items(body: &str) -> (r: Result<Vec<StrMap<String>>, WalletError>)
    ensures
        match body_items(body@) {
            Some(items) => r matches Ok(v) && v@.len() == items.len() && forall|j: int| 0 <= j < v@.len() ==>
                (#[trigger] v@[j]).wf() && item_text(v@[j]) == items[j],
            None => r matches Err(WalletError::CommonError(CommonError::InvalidStructure(m)))
                && m@ == "Invalid response from wallet"@,
        },
{
    let keys = item_key_names();
    let objects = body_as_vec(body, &keys);
    proof {
        lemma_body_view_items_decoded(parsed_json_body(body@), item_keys(), objects);
    }
    match objects {
        Ok(s) => Ok(s),
        Err(_) => Err(WalletError::CommonError(CommonError::InvalidStructure(String::from_str("Invalid response from wallet")))),
    }
}

/// How a fetch of items from the service ended.
pub enum FetchOutcome {
    /// Sending the request, or reading the response, failed.
    Failed(RestError),
    /// A successful response, with its body text.
    Body(String),
}

/// The items a fetch gave, or `None` where it failed or the body was not a
/// list of items.
pub open spec fn fetched_items(outcome: FetchOutcome) -> Option<Seq<Map<Seq<char>, Seq<char>>>> {
    match outcome {
        FetchOutcome::Failed(_) => None,
        FetchOutcome::Body(text) => body_items(text@),
    }
}

/// A fetch found exactly one item.
pub open spec fn single_item(outcome: FetchOutcome) -> bool {
    fetched_items(outcome) matches Some(items) && items.len() == 1
}

/// The one item of a fetch that found exactly one.
pub open spec fn the_item(outcome: FetchOutcome) -> Map<Seq<char>, Seq<char>> {
    fetched_items(outcome)->0[0]
}

/// A lookup can be decided on this outcome: its body is usable and a single
/// item carries an `id` and an `item_value`.
pub open spec fn lookup_defined(outcome: FetchOutcome) -> bool {
    &&& single_item(outcome) ==> the_item(outcome).contains_key("id"@) && the_item(outcome).contains_key("item_value"@)
}

/// The error a lookup that did not find exactly one item answers with.
pub open spec fn lookup_error(outcome: FetchOutcome) -> WalletErrorView {
    match outcome {
        FetchOutcome::Failed(why) => WalletErrorView::NotFound(rest_error_debug(why@)),
        FetchOutcome::Body(text) => match body_items(text@) {
            None => WalletErrorView::CommonError(CommonErrorView::InvalidStructure("Invalid response from wallet"@)),
            Some(items) => if items.len() == 0 {
                WalletErrorView::NotFound("Error Item not found"@)
            } else {
                WalletErrorView::NotFound("Error Multiple Items found"@)
            },
        },
    }
}

/// What a lookup of one item answers on a fetch outcome.
pub open spec fn lookup_spec(outcome: FetchOutcome, r: Result<(String, String), WalletError>) -> bool {
    match outcome {
        FetchOutcome::Failed(why) => r matches Err(WalletError::NotFound(m)) && m@ == rest_error_debug(why@),
        FetchOutcome::Body(text) => match body_items(text@) {
            None => r matches Err(WalletError::CommonError(CommonError::InvalidStructure(m)))
                && m@ == "Invalid response from wallet"@,
            Some(items) => if items.len() == 0 {
                r matches Err(WalletError::NotFound(m)) && m@ == "Error Item not found"@
            } else if items.len() > 1 {
                r matches Err(WalletError::NotFound(m)) && m@ == "Error Multiple Items found"@
            } else {
                r matches Ok((id, v)) && id@ == items[0]["id"@] && v@ == items[0]["item_value"@]
            },
        },
    }
}

/// The request that looks the item `key` up in the wallet `wallet_name`.
pub open spec fn is_lookup_request(
    r: RestRequest,
    config: RemoteWalletRuntimeConfig,
    credentials: RemoteWalletCredentials,
    wallet_name: Seq<char>,
    key: Seq<char>,
) -> bool {
    &&& r.method == RestMethod::Get
    &&& r.url@ == resource_id_url(config.endpoint@, wallet_name, split_sep(key)[0], split_sep(key)[1])
    &&& authenticates(r.headers, credentials)
    &&& r.body is Empty
}

/// A well-formed item key: exactly one `::`.
pub open spec fn valid_key(key: Seq<char>) -> bool {
    split_sep(key).len() == 2
}

/// The request that fetches the item `key` of the wallet `wallet_name`.
pub fn call_get_internal_request(
    root_wallet_name: &str,
    wallet_name: &str,
    config: &RemoteWalletRuntimeConfig,
    credentials: &RemoteWalletCredentials,
    key: &str,
) -> (r: RestRequest)
    requires
        valid_key(key@),
        credentials.auth_token is Some,
    ensures
        is_lookup_request(r, *config, *credentials, wallet_name@, key@),
{
    let (item_type, item_id) = key_to_item_type_id(key);
    let req_url = rest_endpoint_for_resource_id(config, credentials, wallet_name, item_type.as_str(), item_id.as_str());
    let headers = rest_auth_header(config, credentials);
    rest_get_request(req_url.as_str(), Some(headers))
}

fn not_found(why: String) -> (e: WalletError)
    ensures
        e matches WalletError::NotFound(m) && m@ == why@,
{
    WalletError::NotFound(why)
}

/// The lookup of one item, decided on the outcome of its fetch: its
/// service id and value where exactly one item came back.
pub fn call_get_internal_result(outcome: &FetchOutcome) -> (r: Result<(String, String), WalletError>)
    requires
        lookup_defined(*outcome),
    ensures
        lookup_spec(*outcome, r),
{
    match outcome {
        FetchOutcome::Failed(why) => Err(not_found(rest_error_text(why))),
        FetchOutcome::Body(text) => {
            let hm = rest_body_to_items(text.as_str());
            match hm {
                Ok(v) => {
                    if v.len() == 0 {
                        Err(not_found(String::from_str("Error Item not found")))
                    } else if v.len() > 1 {
                        Err(not_found(String::from_str("Error Multiple Items found")))
                    } else {
                        proof {
                            assert(item_text(v@[0]).contains_key("id"@));
                        }
                        let id = v[0].get("id").unwrap().clone();
                        let value = v[0].get("item_value").unwrap().clone();
                        Ok((id, value))
                    }
                },
                Err(e) => Err(e),
            }
        },
    }
}

/// The value a lookup yields where it found exactly one item.
pub open spec fn lookup_value(outcome: FetchOutcome) -> Option<Seq<char>> {
    if single_item(outcome) {
        Some(the_item(outcome)["item_value"@])
    } else {
        None
    }
}

/// The service id of the item a lookup found, or the empty text.
pub open spec fn lookup_id(outcome: FetchOutcome) -> Seq<char> {
    if single_item(outcome) {
        the_item(outcome)["id"@]
    } else {
        Seq::empty()
    }
}

proof fn lemma_lookup_spec(outcome: FetchOutcome, r: Result<(String, String), WalletError>)
    requires
        lookup_spec(outcome, r),
    ensures
        r is Ok <==> single_item(outcome),
        r matches Ok((id, v)) ==> id@ == lookup_id(outcome) && v@ == the_item(outcome)["item_value"@],
        r matches Err(e) ==> !(e is AlreadyExists) && !(e is AccessFailed),
        r matches Err(e) ==> e@ == lookup_error(outcome),
{
}

/// The next step of a `get` after the lookup in the selected wallet.
pub enum GetStep {
    /// Look the key up with this request (in the root wallet).
    Fetch(RestRequest),
    /// The answer.
    Done(Result<String, WalletError>),
}

/// The fields of the body that stores an item.
pub open spec fn is_item_body(f: Seq<(String, String)>, wallet_name: Seq<char>, item_type: Seq<char>, item_id: Seq<char>, value: Seq<char>) -> bool {
    &&& f.len() == 4
    &&& f[0].0@ == "wallet_name"@ && f[0].1@ == wallet_name
    &&& f[1].0@ == "item_type"@ && f[1].1@ == item_type
    &&& f[2].0@ == "item_id"@ && f[2].1@ == item_id
    &&& f[3].0@ == "item_value"@ && f[3].1@ == value
}

/// Every item of a list fetch carries a type, an id and a value.
pub open spec fn list_defined(outcome: FetchOutcome) -> bool {
    &&& fetched_items(outcome) matches Some(items) ==> forall|j: int| 0 <= j < items.len() ==> {
        &&& (#[trigger] items[j]).contains_key("item_type"@)
        &&& items[j].contains_key("item_id"@)
        &&& items[j].contains_key("item_value"@)
    }
}

/// The creation instant of the one item a fetch found.
pub open spec fn created_instant(outcome: FetchOutcome) -> Option<(int, int)> {
    parsed_utc_instant(the_item(outcome)["created"@])
}

/// The one item a fetch found is stale at `now`.
pub open spec fn item_stale(outcome: FetchOutcome, freshness_time: i64, now_sec: int, now_nsec: int) -> bool {
    let t = created_instant(outcome)->0;
    is_stale(freshness_time, elapsed_seconds(now_sec, now_nsec, t.0, t.1))
}

/// A freshness-checked lookup can be decided on this outcome at `now`: the
/// one item found has a parsable creation time whose age fits, and a value
/// where it is not stale.
pub open spec fn not_expired_defined(outcome: FetchOutcome, freshness_time: i64, now_sec: int, now_nsec: int) -> bool {
    &&& valid_nsec(now_nsec)
    &&& single_item(outcome) ==> {
        &&& the_item(outcome).contains_key("created"@)
        &&& created_instant(outcome) matches Some(t) && (freshness_time != 0 ==> elapsed_in_range(now_sec, t.0))
        &&& !item_stale(outcome, freshness_time, now_sec, now_nsec) ==> the_item(outcome).contains_key("item_value"@)
    }
}

/// What a freshness-checked lookup answers on a fetch outcome at `now`.
pub open spec fn not_expired_spec(outcome: FetchOutcome, freshness_time: i64, now_sec: int, now_nsec: int, key: Seq<char>, r: Result<String, WalletError>) -> bool {
    match outcome {
        FetchOutcome::Failed(why) => r matches Err(WalletError::NotFound(m)) && m@ == rest_error_debug(why@),
        FetchOutcome::Body(text) => match body_items(text@) {
            None => r matches Err(WalletError::CommonError(CommonError::InvalidStructure(m)))
                && m@ == "Invalid response from wallet"@,
            Some(items) => if items.len() == 0 {
                r matches Err(WalletError::NotFound(m)) && m@ == "Error Item not found"@
            } else if items.len() > 1 {
                r matches Err(WalletError::NotFound(m)) && m@ == "Error Multiple Items found"@
            } else if item_stale(outcome, freshness_time, now_sec, now_nsec) {
                r matches Err(WalletError::NotFound(m)) && m@ == key
            } else {
                r matches Ok(v) && v@ == items[0]["item_value"@]
            },
        },
    }
}

/// A freshness-checked lookup that found one item created at
/// (`created_sec`, `created_nsec`):
/// with a positive freshness time, an item more than that many seconds
/// plus one old is not found (under the key asked for); with no freshness
/// time (0), or an age of at most the freshness time in whole seconds, its
/// value is handed out. In general it is not found exactly when the
/// freshness time is not 0 and the item's age in whole seconds (rounded
/// toward zero) exceeds it.
pub proof fn lemma_freshness_decides_expiry(
    outcome: FetchOutcome,
    freshness_time: i64,
    now_sec: int,
    now_nsec: int,
    key: Seq<char>,
    r: Result<String, WalletError>,
    created_sec: int,
    created_nsec: int,
)
    requires
        outcome matches FetchOutcome::Body(text) && body_items(text@) matches Some(items) && items.len() == 1,
        created_instant(outcome) == Some((created_sec, created_nsec)),
        valid_nsec(now_nsec),
        valid_nsec(created_nsec),
        not_expired_spec(outcome, freshness_time, now_sec, now_nsec, key, r),
    ensures
        freshness_time > 0 && now_sec - created_sec > freshness_time + 1
            ==> (r matches Err(WalletError::NotFound(m)) && m@ == key),
        (freshness_time == 0 || (freshness_time > 0 && now_sec - created_sec <= freshness_time))
            ==> (r matches Ok(v) && v@ == the_item(outcome)["item_value"@]),
        (r matches Err(WalletError::NotFound(m)) && m@ == key)
            <==> (freshness_time != 0 && elapsed_seconds(now_sec, now_nsec, created_sec, created_nsec) > freshness_time),
{
    crate::freshness::lemma_staleness(freshness_time, now_sec, now_nsec, created_sec, created_nsec);
}

/// What `get` answers after the lookup in the selected wallet: the value
/// if it was found; otherwise, in a virtual wallet, the lookup in the root
/// wallet, and in the root wallet not found with the lookup's error text.
pub open spec fn get_selected_spec_of(w: RemoteWallet, key: Seq<char>, outcome: FetchOutcome, r: GetStep) -> bool {
    match lookup_value(outcome) {
        Some(v) => r matches GetStep::Done(Ok(s)) && s@ == v,
        None => if w.in_virtual() {
            r matches GetStep::Fetch(req) && is_lookup_request(req, w.config, w.credentials, w.wallet_name@, key)
        } else {
            r matches GetStep::Done(Err(WalletError::NotFound(m))) && m@ == wallet_error_debug(lookup_error(outcome))
        },
    }
}

/// What `get` answers after the lookup in the root wallet: the value if it
/// was found, otherwise not found with the lookup's error text.
pub open spec fn get_root_spec(outcome: FetchOutcome, r: Result<String, WalletError>) -> bool {
    match lookup_value(outcome) {
        Some(v) => r matches Ok(s) && s@ == v,
        None => r matches Err(WalletError::NotFound(m)) && m@ == wallet_error_debug(lookup_error(outcome)),
    }
}

/// The request that `set` sends after the lookup: a PUT to the item found
/// (by its service id) or a POST of a new item, authenticated, with the
/// item's fields.
pub open spec fn set_request_spec_of(w: RemoteWallet, key: Seq<char>, value: Seq<char>, outcome: FetchOutcome, r: RestRequest) -> bool {
    &&& lookup_id(outcome).len() > 0 ==> r.method == RestMethod::Put
        && r.url@ == wallet_endpoint(w.config.endpoint@, Some(lookup_id(outcome)))
    &&& lookup_id(outcome).len() == 0 ==> r.method == RestMethod::Post
        && r.url@ == wallet_endpoint(w.config.endpoint@, None)
    &&& authenticates(r.headers, w.credentials)
    &&& r.body matches crate::proxy::RestBody::Fields(f)
        && is_item_body(f@, w.selected_name(), split_sep(key)[0], split_sep(key)[1], value)
}

/// What `list` answers on the outcome of the list request: each item as its
/// key `item_type::item_id` and its value, in the order the service gave.
pub open spec fn list_spec(outcome: FetchOutcome, r: Result<Vec<(String, String)>, WalletError>) -> bool {
    match outcome {
        FetchOutcome::Failed(why) => r matches Err(WalletError::NotFound(m)) && m@ == rest_error_debug(why@),
        FetchOutcome::Body(text) => match body_items(text@) {
            None => r matches Err(WalletError::CommonError(CommonError::InvalidStructure(m)))
                && m@ == "Invalid response from wallet"@,
            Some(items) => r matches Ok(v) && v@.len() == items.len() && forall|j: int| 0 <= j < v@.len() ==>
                (#[trigger] v@[j]).0@ == item_key(items[j]["item_type"@], items[j]["item_id"@])
                && v@[j].1@ == items[j]["item_value"@],
        },
    }
}

/// Whether a lookup can be decided on this outcome (`lookup_defined`).
pub fn lookup_decidable(outcome: &FetchOutcome) -> (r: bool)
    ensures
        r == lookup_defined(*outcome),
{
    match outcome {
        FetchOutcome::Failed(_) => true,
        FetchOutcome::Body(text) => match rest_body_to_items(text.as_str()) {
            Ok(v) => {
                if v.len() == 1 {
                    proof {
                        assert(item_text(v@[0]).contains_key("id"@) == v@[0]@.contains_key("id"@));
                        assert(item_text(v@[0]).contains_key("item_value"@) == v@[0]@.contains_key("item_value"@));
                    }
                    v[0].contains_key("id") && v[0].contains_key("item_value")
                } else {
                    true
                }
            },
            Err(_) => true,
        },
    }
}

/// Whether a listing can be decided on this outcome (`list_defined`).
pub fn list_decidable(outcome: &FetchOutcome) -> (r: bool)
    ensures
        r == list_defined(*outcome),
{
    match outcome {
        FetchOutcome::Failed(_) => true,
        FetchOutcome::Body(text) => match rest_body_to_items(text.as_str()) {
            Ok(v) => {
                let ghost items = body_items(text@)->0;
                let mut i: usize = 0;
                while i < v.len()
                    invariant
                        i <= v@.len(),
                        v@.len() == items.len(),
                        body_items(text@) == Some(items),
                        fetched_items(*outcome) == Some(items),
                        forall|j: int| 0 <= j < v@.len() ==> (#[trigger] v@[j]).wf() && item_text(v@[j]) == items[j],
                        forall|j: int| 0 <= j < i ==> {
                            &&& (#[trigger] items[j]).contains_key("item_type"@)
                            &&& items[j].contains_key("item_id"@)
                            &&& items[j].contains_key("item_value"@)
                        },
                    decreases v@.len() - i,
                {
                    proof {
                        assert(item_text(v@[i as int]) == items[i as int]);
                    }
                    let ok = v[i].contains_key("item_type") && v[i].contains_key("item_id") && v[i].contains_key("item_value");
                    proof {
                        assert(item_text(v@[i as int]).contains_key("item_type"@) == v@[i as int]@.contains_key("item_type"@));
                        assert(item_text(v@[i as int]).contains_key("item_id"@) == v@[i as int]@.contains_key("item_id"@));
                        assert(item_text(v@[i as int]).contains_key("item_value"@) == v@[i as int]@.contains_key("item_value"@));
                    }
                    if !ok {
                        proof {
                            assert(!(items[i as int].contains_key("item_type"@) && items[i as int].contains_key("item_id"@)
                                && items[i as int].contains_key("item_value"@)));
                            assert(fetched_items(*outcome) matches Some(its) && its[i as int] == items[i as int]);
                            assert(!list_defined(*outcome));
                        }
                        return false;
                    }
                    i = i + 1;
                }
                true
            },
            Err(_) => true,
        },
    }
}

/// The lookup of one item where it can be decided; `None` on an outcome
/// whose single item lacks an `id` or an `item_value`.
pub fn call_get_internal_result_checked(outcome: &FetchOutcome) -> (r: Option<Result<(String, String), WalletError>>)
    ensures
        r is None <==> !lookup_defined(*outcome),
        r matches Some(x) ==> lookup_spec(*outcome, x),
{
    if lookup_decidable(outcome) {
        Some(call_get_internal_result(outcome))
    } else {
        None
    }
}

impl RemoteWallet {
    pub fn new(name: &str, pool_name: &str, config: RemoteWalletRuntimeConfig, credentials: RemoteWalletCredentials) -> (r: RemoteWallet)
        ensures
            r.wallet_name@ == name@,
            r.pool_name@ == pool_name@,
            r.config == config,
            r.credentials == credentials,
    {
        RemoteWallet {
            wallet_name: String::from_str(name),
            pool_name: String::from_str(pool_name),
            config: config,
            credentials: credentials,
        }
    }

    /// What `get` answers after the lookup in the selected wallet.
    pub open spec fn get_selected_spec(&self, key: Seq<char>, outcome: FetchOutcome, r: GetStep) -> bool {
        get_selected_spec_of(*self, key, outcome, r)
    }

    /// The request that `set` sends after the lookup.
    pub open spec fn set_request_spec(&self, key: Seq<char>, value: Seq<char>, outcome: FetchOutcome, r: RestRequest) -> bool {
        set_request_spec_of(*self, key, value, outcome, r)
    }

    /// `get_after_selected` where the lookup can be decided; `None` otherwise.
    pub fn get_after_selected_checked(&self, key: &str, outcome: &FetchOutcome) -> (r: Option<GetStep>)
        requires
            valid_key(key@),
            self.credentials.auth_token is Some,
        ensures
            r is None <==> !lookup_defined(*outcome),
            r matches Some(x) ==> self.get_selected_spec(key@, *outcome, x),
    {
        if lookup_decidable(outcome) {
            Some(self.get_after_selected(key, outcome))
        } else {
            None
        }
    }

    /// `get_after_root` where the lookup can be decided; `None` otherwise.
    pub fn get_after_root_checked(&self, outcome: &FetchOutcome) -> (r: Option<Result<String, WalletError>>)
        ensures
            r is None <==> !lookup_defined(*outcome),
            r matches Some(x) ==> get_root_spec(*outcome, x),
    {
        if lookup_decidable(outcome) {
            Some(self.get_after_root(outcome))
        } else {
            None
        }
    }

    /// `set_after_lookup` where the lookup can be decided; `None` otherwise.
    pub fn set_after_lookup_checked(&self, key: &str, value: &str, outcome: &FetchOutcome) -> (r: Option<RestRequest>)
        requires
            valid_key(key@),
            self.credentials.auth_token is Some,
        ensures
            r is None <==> !lookup_defined(*outcome),
            r matches Some(x) ==> self.set_request_spec(key@, value@, *outcome, x),
    {
        if lookup_decidable(outcome) {
            Some(self.set_after_lookup(key, value, outcome))
        } else {
            None
        }
    }

    /// `list_finish` where every item listed carries a type, an id and a
    /// value; `None` otherwise.
    pub fn list_finish_checked(outcome: &FetchOutcome) -> (r: Option<Result<Vec<(String, String)>, WalletError>>)
        ensures
            r is None <==> !list_defined(*outcome),
            r matches Some(x) ==> list_spec(*outcome, x),
    {
        if list_decidable(outcome) {
            Some(RemoteWallet::list_finish(outcome))
        } else {
            None
        }
    }

    /// The name of the wallet the credentials select.
    pub open spec fn selected_name(&self) -> Seq<char> {
        virtual_name_of(self.wallet_name@, self.credentials)
    }

    /// The selected wallet is a virtual one.
    pub open spec fn in_virtual(&self) -> bool {
        self.wallet_name@ != self.selected_name()
    }

    /// The request that looks `key` up in the selected wallet: the first
    /// step of `get`, `set` and `get_not_expired`.
    pub fn lookup_request(&self, key: &str) -> (r: RestRequest)
        requires
            valid_key(key@),
            self.credentials.auth_token is Some,
        ensures
            is_lookup_request(r, self.config, self.credentials, self.selected_name(), key@),
    {
        let root = root_wallet_name(self.wallet_name.as_str());
        let name = virtual_wallet_name(self.wallet_name.as_str(), &self.credentials);
        call_get_internal_request(root.as_str(), name.as_str(), &self.config, &self.credentials, key)
    }

    /// `get`, after the lookup in the selected wallet: the value if it was
    /// found; otherwise, in a virtual wallet, the lookup in the root wallet.
    pub fn get_after_selected(&self, key: &str, outcome: &FetchOutcome) -> (r: GetStep)
        requires
            lookup_defined(*outcome),
            valid_key(key@),
            self.credentials.auth_token is Some,
        ensures
            self.get_selected_spec(key@, *outcome, r),
    {
        let result = call_get_internal_result(outcome);
        proof {
            lemma_lookup_spec(*outcome, result);
        }
        match result {
            Ok((_s, record)) => GetStep::Done(Ok(record)),
            Err(why) => {
                let root = root_wallet_name(self.wallet_name.as_str());
                let name = virtual_wallet_name(self.wallet_name.as_str(), &self.credentials);
                if in_virtual_wallet(root.as_str(), name.as_str()) {
                    GetStep::Fetch(call_get_internal_request(root.as_str(), root.as_str(), &self.config, &self.credentials, key))
                } else {
                    GetStep::Done(Err(not_found(wallet_error_text(&why))))
                }
            },
        }
    }

    /// `get`, after the lookup in the root wallet: the value if it was found.
    pub fn get_after_root(&self, outcome: &FetchOutcome) -> (r: Result<String, WalletError>)
        requires
            lookup_defined(*outcome),
        ensures
            get_root_spec(*outcome, r),
    {
        let result = call_get_internal_result(outcome);
        proof {
            lemma_lookup_spec(*outcome, result);
        }
        match result {
            Ok((_s, record)) => Ok(record),
            Err(why) => Err(not_found(wallet_error_text(&why))),
        }
    }

    /// `set`, after the lookup in the selected wallet: the request that
    /// stores `value` at `key`, a PUT to the item found or a POST of a new
    /// item.
    pub fn set_after_lookup(&self, key: &str, value: &str, outcome: &FetchOutcome) -> (r: RestRequest)
        requires
            lookup_defined(*outcome),
            valid_key(key@),
            self.credentials.auth_token is Some,
        ensures
            self.set_request_spec(key@, value@, *outcome, r),
    {
        let (item_type, item_id) = key_to_item_type_id(key);
        let result = call_get_internal_result(outcome);
        proof {
            lemma_lookup_spec(*outcome, result);
        }
        let tmp_id = match result {
            Ok((id, _s)) => id,
            Err(_e) => String::new(),
        };
        let has_id = tmp_id.unicode_len() > 0;
        let req_url = if has_id {
            rest_endpoint_for_set(&self.config, &self.credentials, Some(tmp_id.as_str()))
        } else {
            rest_endpoint_for_set(&self.config, &self.credentials, None)
        };
        let headers = rest_auth_header(&self.config, &self.credentials);
        let wallet_name = virtual_wallet_name(self.wallet_name.as_str(), &self.credentials);
        let mut map: Vec<(String, String)> = Vec::new();
        map.push((String::from_str("wallet_name"), wallet_name));
        map.push((String::from_str("item_type"), item_type));
        map.push((String::from_str("item_id"), item_id));
        map.push((String::from_str("item_value"), String::from_str(value)));
        if has_id {
            rest_put_request_map(req_url.as_str(), Some(headers), Some(map))
        } else {
            rest_post_request_map(req_url.as_str(), Some(headers), Some(map))
        }
    }

    /// `set`, after the store request: done where the service accepted it.
    pub fn set_finish(response: &Result<RestResponse, RestError>) -> (r: Result<(), WalletError>)
        ensures
            match response {
                Ok(res) => if is_success(res.status) && valid_utf8(res.body@) {
                    r is Ok
                } else {
                    r matches Err(WalletError::NotFound(m)) && m@ == rest_error_debug(check_error(*res))
                },
                Err(why) => r matches Err(WalletError::NotFound(m)) && m@ == rest_error_debug(why@),
            },
    {
        match response {
            Ok(res) => {
                match rest_check_result(res) {
                    Ok(()) => Ok(()),
                    Err(why) => Err(not_found(rest_error_text(&why))),
                }
            },
            Err(why) => Err(not_found(rest_error_text(why))),
        }
    }

    /// The request that lists the items of the type of `key_prefix` (the
    /// text before its first `::`) in the selected wallet.
    pub fn list_request(&self, key_prefix: &str) -> (r: RestRequest)
        requires
            self.credentials.auth_token is Some,
        ensures
            r.method == RestMethod::Get,
            r.url@ == resource_url(self.config.endpoint@, self.selected_name(), split_sep(key_prefix@)[0]),
            authenticates(r.headers, self.credentials),
            r.body is Empty,
    {
        let item_type = key_prefix_to_type(key_prefix);
        let name = virtual_wallet_name(self.wallet_name.as_str(), &self.credentials);
        let req_url = rest_endpoint_for_resource(&self.config, &self.credentials, name.as_str(), item_type.as_str());
        let headers = rest_auth_header(&self.config, &self.credentials);
        rest_get_request(req_url.as_str(), Some(headers))
    }

    /// `list`, after the list request: each item as its key
    /// `item_type::item_id` and its value, in the order the service gave.
    pub fn list_finish(outcome: &FetchOutcome) -> (r: Result<Vec<(String, String)>, WalletError>)
        requires
            list_defined(*outcome),
        ensures
            list_spec(*outcome, r),
    {
        match outcome {
            FetchOutcome::Failed(why) => Err(not_found(rest_error_text(why))),
            FetchOutcome::Body(text) => {
                match rest_body_to_items(text.as_str()) {
                    Ok(v) => {
                        let ghost items = body_items(text@)->0;
                        let mut key_values: Vec<(String, String)> = Vec::new();
                        let mut i: usize = 0;
                        while i < v.len()
                            invariant
                                i <= v@.len(),
                                v@.len() == items.len(),
                                forall|j: int| 0 <= j < v@.len() ==> (#[trigger] v@[j]).wf() && item_text(v@[j]) == items[j],
                                forall|j: int| 0 <= j < items.len() ==> {
                                    &&& (#[trigger] items[j]).contains_key("item_type"@)
                                    &&& items[j].contains_key("item_id"@)
                                    &&& items[j].contains_key("item_value"@)
                                },
                                key_values@.len() == i,
                                forall|j: int| 0 <= j < i ==>
                                    (#[trigger] key_values@[j]).0@ == item_key(items[j]["item_type"@], items[j]["item_id"@])
                                    && key_values@[j].1@ == items[j]["item_value"@],
                            decreases v@.len() - i,
                        {
                            let record = &v[i];
                            proof {
                                assert(items[i as int].contains_key("item_type"@));
                            }
                            let item_type = record.get("item_type").unwrap();
                            let item_id = record.get("item_id").unwrap();
                            let item_value = record.get("item_value").unwrap().clone();
                            let key = item_type_id_to_key(item_type.as_str(), item_id.as_str());
                            key_values.push((key, item_value));
                            i = i + 1;
                        }
                        Ok(key_values)
                    },
                    Err(e) => Err(e),
                }
            },
        }
    }

    /// `get_not_expired`, after the lookup in the selected wallet (the
    /// request is `lookup_request`): the value where exactly one item came
    /// back and it is not stale at `now`.
    pub fn get_not_expired_finish(&self, key: &str, outcome: &FetchOutcome, now_sec: i64, now_nsec: i32) -> (r: Result<String, WalletError>)
        requires
            not_expired_defined(*outcome, self.config.freshness_time, now_sec as int, now_nsec as int),
        ensures
            not_expired_spec(*outcome, self.config.freshness_time, now_sec as int, now_nsec as int, key@, r),
    {
        match outcome {
            FetchOutcome::Failed(why) => Err(not_found(rest_error_text(why))),
            FetchOutcome::Body(text) => {
                match rest_body_to_items(text.as_str()) {
                    Ok(v) => {
                        if v.len() == 0 {
                            Err(not_found(String::from_str("Error Item not found")))
                        } else if v.len() > 1 {
                            Err(not_found(String::from_str("Error Multiple Items found")))
                        } else {
                            proof {
                                assert(item_text(v@[0]).contains_key("created"@));
                            }
                            let created = v[0].get("created").unwrap();
                            let t = strptime_utc(created.as_str(), "%Y-%m-%dT%H:%M:%S").unwrap();
                            if self.config.freshness_time != 0
                                && expired(self.config.freshness_time, now_sec, now_nsec, t.0, t.1) {
                                return Err(not_found(String::from_str(key)));
                            }
                            Ok(v[0].get("item_value").unwrap().clone())
                        }
                    },
                    Err(e) => Err(e),
                }
            },
        }
    }

    /// `get_not_expired_finish` where it is defined; `None` on the outcomes
    /// it is not defined on (a single item without a usable creation time,
    /// or without a value while fresh).
    pub fn get_not_expired_finish_checked(&self, key: &str, outcome: &FetchOutcome, now_sec: i64, now_nsec: i32) -> (r: Option<Result<String, WalletError>>)
        requires
            valid_nsec(now_nsec as int),
        ensures
            r is None <==> !not_expired_defined(*outcome, self.config.freshness_time, now_sec as int, now_nsec as int),
            r matches Some(x) ==> not_expired_spec(*outcome, self.config.freshness_time, now_sec as int, now_nsec as int, key@, x),
    {
        match outcome {
            FetchOutcome::Failed(_) => Some(self.get_not_expired_finish(key, outcome, now_sec, now_nsec)),
            FetchOutcome::Body(text) => {
                match rest_body_to_items(text.as_str()) {
                    Ok(v) => {
                        if v.len() != 1 {
                            return Some(self.get_not_expired_finish(key, outcome, now_sec, now_nsec));
                        }
                        let created = match v[0].get("created") {
                            Some(c) => c,
                            None => { return None; },
                        };
                        let t = match strptime_utc(created.as_str(), "%Y-%m-%dT%H:%M:%S") {
                            Some(t) => t,
                            None => { return None; },
                        };
                        let in_range = (now_sec as i128) - (t.0 as i128) <= 9223372036854775i128
                            && (now_sec as i128) - (t.0 as i128) >= -9223372036854775i128;
                        if self.config.freshness_time != 0 && !in_range {
                            return None;
                        }
                        let stale = self.config.freshness_time != 0
                            && expired(self.config.freshness_time, now_sec, now_nsec, t.0, t.1);
                        if !stale && !v[0].contains_key("item_value") {
                            return None;
                        }
                        Some(self.get_not_expired_finish(key, outcome, now_sec, now_nsec))
                    },
                    Err(_) => Some(self.get_not_expired_finish(key, outcome, now_sec, now_nsec)),
                }
            },
        }
    }

    /// Closing a remote wallet holds no resources: it always succeeds.
    pub fn close(&self) -> (r: Result<(), WalletError>)
        ensures
            r is Ok,
    {
        Ok(())
    }

    pub fn get_pool_name(&self) -> (r: String)
        ensures
            r@ == self.pool_name@,
    {
        self.pool_name.clone()
    }

    pub fn get_name(&self) -> (r: String)
        ensures
            r@ == self.wallet_name@,
    {
        self.wallet_name.clone()
    }
}

/// The remote wallet type: creates, deletes and opens remote wallets.
pub struct RemoteWalletType {}

/// The address of the service's schema, which answers while it is up.
pub open spec fn ping_url() -> Seq<char> {
    appended_path("http://localhost:8000/"@, "schema"@)
}

impl RemoteWalletType {
    pub fn new() -> (r: RemoteWalletType) {
        RemoteWalletType {}
    }

    /// The request that checks that the service is up: an unauthenticated
    /// GET of its schema.
    pub fn ping_request() -> (r: RestRequest)
        ensures
            r.method == RestMethod::Get,
            r.url@ == ping_url(),
            r.headers is None,
            r.body is Empty,
    {
        let endpoint = crate::proxy::rest_append_path("http://localhost:8000/", "schema");
        rest_get_request(endpoint.as_str(), None)
    }

    /// `create`, before anything is sent: a wallet whose local store
    /// already exists is refused.
    pub fn create_start(&self, name: &str, path_exists: bool) -> (r: Result<(), WalletError>)
        ensures
            path_exists ==> (r matches Err(WalletError::AlreadyExists(n)) && n@ == name@),
            !path_exists ==> r is Ok,
    {
        let root_name = root_wallet_name(name);
        if path_exists {
            return Err(WalletError::AlreadyExists(root_name));
        }
        Ok(())
    }

    /// `create`, after the ping: done where the service answered.
    pub fn create_finish(&self, response: &Result<RestResponse, RestError>) -> (r: Result<(), WalletError>)
        ensures
            match response {
                Ok(res) => if is_success(res.status) && valid_utf8(res.body@) {
                    r is Ok
                } else {
                    r matches Err(WalletError::AccessFailed(m)) && m@ == rest_error_debug(check_error(*res))
                },
                Err(why) => r matches Err(WalletError::AccessFailed(m)) && m@ == rest_error_debug(why@),
            },
    {
        match response {
            Ok(res) => match rest_check_result(res) {
                Ok(()) => Ok(()),
                Err(e) => Err(WalletError::AccessFailed(rest_error_text(&e))),
            },
            Err(e) => Err(WalletError::AccessFailed(rest_error_text(e))),
        }
    }

    /// Deleting a remote wallet does nothing and succeeds.
    pub fn delete(&self, name: &str, config: Option<&str>, credentials: Option<&str>) -> (r: Result<(), WalletError>)
        ensures
            r is Ok,
    {
        Ok(())
    }

    /// `open`, after the ping: the wallet, where the service answered.
    pub fn open_finish(
        &self,
        name: &str,
        pool_name: &str,
        runtime_config: RemoteWalletRuntimeConfig,
        credentials: RemoteWalletCredentials,
        response: &Result<RestResponse, RestError>,
    ) -> (r: Result<RemoteWallet, WalletError>)
        ensures
            match response {
                Ok(res) => if is_success(res.status) && valid_utf8(res.body@) {
                    r is Ok
                } else {
                    r matches Err(WalletError::AccessFailed(m)) && m@ == rest_error_debug(check_error(*res))
                },
                Err(why) => r matches Err(WalletError::AccessFailed(m)) && m@ == rest_error_debug(why@),
            },
            r matches Ok(w) ==> w.wallet_name@ == name@ && w.pool_name@ == pool_name@
                && w.config == runtime_config && w.credentials == credentials,
    {
        match response {
            Ok(res) => match rest_check_result(res) {
                Ok(()) => Ok(RemoteWallet::new(name, pool_name, runtime_config, credentials)),
                Err(e) => Err(WalletError::AccessFailed(rest_error_text(&e))),
            },
            Err(e) => Err(WalletError::AccessFailed(rest_error_text(e))),
        }
    }
}

} // verus!
