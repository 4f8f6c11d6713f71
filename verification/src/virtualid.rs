//! The virtual wallet: one encrypted SQL store holding a root wallet and
//! any number of virtual (per-subject) wallets, told apart by a column. The
//! statements, the rows to write and the decisions on what the store answers
//! are computed here; running them against the store is left to the caller.

use vstd::prelude::*;
use crate::errors::CommonError;
use crate::errors::WalletError;
use crate::errors::invalid_credentials;
use crate::errors::wallet_error_text;
use crate::errors::debug_quote;
use crate::errors::debug_quoted;
use crate::errors::wallet_error_debug;
use crate::errors::WalletErrorView;
use crate::freshness::elapsed_in_range;
use crate::freshness::elapsed_seconds;
use crate::freshness::expired;
use crate::freshness::is_stale;
use crate::freshness::valid_nsec;

verus! {

/// Runtime configuration: the freshness time in seconds (0 turns the check
/// off).
pub struct VirtualWalletRuntimeConfig {
    pub freshness_time: i64,
}

impl Default for VirtualWalletRuntimeConfig {
    fn default() -> (r: Self)
        ensures
            r.freshness_time == 1000,
    {
        VirtualWalletRuntimeConfig { freshness_time: 1000 }
    }
}

/// Credentials: the store's key, a new key to change to, and the virtual
/// wallet to use (the root wallet where there is none).
pub struct VirtualWalletCredentials {
    pub key: String,
    pub rekey: Option<String>,
    pub virtual_wallet: Option<String>,
}

impl Default for VirtualWalletCredentials {
    fn default() -> (r: Self)
        ensures
            r.key@ == Seq::<char>::empty(),
            r.rekey is None,
            r.virtual_wallet is None,
    {
        VirtualWalletCredentials { key: String::new(), rekey: None, virtual_wallet: None }
    }
}

/// An open virtual wallet.
pub struct VirtualWallet {
    pub wallet_name: String,
    pub pool_name: String,
    pub config: VirtualWalletRuntimeConfig,
    pub credentials: VirtualWalletCredentials,
}

/// The name of the wallet that the credentials select.
pub open spec fn virtual_name_of(wallet_name: Seq<char>, credentials: VirtualWalletCredentials) -> Seq<char> {
    match credentials.virtual_wallet {
        Some(s) => s@,
        None => wallet_name,
    }
}

/// The name of the root wallet of a wallet.
pub fn root_wallet_name(wallet_name: &str) -> (r: String)
    ensures
        r@ == wallet_name@,
{
    String::from_str(wallet_name)
}

/// The name of the wallet the credentials select.
pub fn virtual_wallet_name(wallet_name: &str, credentials: &VirtualWalletCredentials) -> (r: String)
    ensures
        r@ == virtual_name_of(wallet_name@, *credentials),
{
    match &credentials.virtual_wallet {
        Some(s) => s.clone(),
        None => String::from_str(wallet_name),
    }
}

/// A row to write to the store.
pub struct WalletRow {
    pub virtual_wallet: String,
    pub key: String,
    pub value: String,
}

/// A lookup of one key in one wallet of a store.
pub struct VirtualLookup {
    /// The store (named after its root wallet).
    pub root_wallet_name: String,
    /// The wallet to look in.
    pub wallet_name: String,
    pub key: String,
}

/// A listing of the rows of one wallet whose keys match a `LIKE` pattern,
/// in key order.
pub struct VirtualListQuery {
    pub root_wallet_name: String,
    pub wallet_name: String,
    pub pattern: String,
}

/// A row read back from the store: its value and when it was written.
pub struct StoredRecord {
    pub value: String,
    pub created_sec: i64,
    pub created_nsec: i32,
}

/// How a lookup ended: the store could not be opened (`Err`), or the query
/// found the value or failed with the given text.
pub type LookupOutcome = Result<Result<String, String>, WalletError>;

/// The value a lookup found, if any.
pub open spec fn lookup_value(outcome: LookupOutcome) -> Option<Seq<char>> {
    match outcome {
        Ok(Ok(v)) => Some(v@),
        _ => None,
    }
}

/// The error of a lookup that found no value: the error of opening the
/// store, or not found with the query's error text.
pub open spec fn lookup_error(outcome: LookupOutcome) -> WalletErrorView {
    match outcome {
        Ok(Err(why)) => WalletErrorView::NotFound(why@),
        Err(e) => e@,
        Ok(Ok(_)) => WalletErrorView::NotFound(Seq::empty()),
    }
}

/// The answer of one lookup: the value, the error of opening the store, or
/// not found.
pub fn call_get_internal_result(outcome: LookupOutcome) -> (r: Result<String, WalletError>)
    ensures
        match outcome {
            Ok(Ok(v)) => r matches Ok(s) && s@ == v@,
            Ok(Err(why)) => r matches Err(WalletError::NotFound(m)) && m@ == why@,
            Err(e) => r == Err::<String, WalletError>(e),
        },
{
    match outcome {
        Ok(Ok(v)) => Ok(v),
        Ok(Err(why)) => Err(WalletError::NotFound(why)),
        Err(e) => Err(e),
    }
}

/// The next step of a `get` after the lookup in the selected wallet.
pub enum VirtualGetStep {
    /// Look the key up again, in the root wallet.
    Fetch(VirtualLookup),
    /// The answer.
    Done(Result<String, WalletError>),
}

/// The error a wallet operation gives for credentials that still ask for a
/// key change.
pub open spec fn is_invalid_credentials(e: WalletError) -> bool {
    e matches WalletError::CommonError(CommonError::InvalidStructure(m)) && m@ == "Invalid wallet credentials json"@
}

impl VirtualWallet {
    pub fn new(name: &str, pool_name: &str, config: VirtualWalletRuntimeConfig, credentials: VirtualWalletCredentials) -> (r: VirtualWallet)
        ensures
            r.wallet_name@ == name@,
            r.pool_name@ == pool_name@,
            r.config == config,
            r.credentials == credentials,
    {
        VirtualWallet {
            wallet_name: String::from_str(name),
            pool_name: String::from_str(pool_name),
            config: config,
            credentials: credentials,
        }
    }

    /// The name of the wallet the credentials select.
    pub open spec fn selected_name(&self) -> Seq<char> {
        virtual_name_of(self.wallet_name@, self.credentials)
    }

    /// `set`: the row that stores `value` at `key` in the selected wallet
    /// (replacing any row there), unless the credentials still ask for a key
    /// change.
    pub fn set_row(&self, key: &str, value: &str) -> (r: Result<WalletRow, WalletError>)
        ensures
            self.credentials.rekey is Some ==> (r matches Err(e) && is_invalid_credentials(e)),
            self.credentials.rekey is None ==> (r matches Ok(row) && row.virtual_wallet@ == self.selected_name()
                && row.key@ == key@ && row.value@ == value@),
    {
        if self.credentials.rekey.is_some() {
            return Err(invalid_credentials());
        }
        Ok(WalletRow {
            virtual_wallet: virtual_wallet_name(self.wallet_name.as_str(), &self.credentials),
            key: String::from_str(key),
            value: String::from_str(value),
        })
    }

    fn lookup_in(&self, wallet_name: String, key: &str) -> (r: VirtualLookup)
        ensures
            r.root_wallet_name@ == self.wallet_name@,
            r.wallet_name == wallet_name,
            r.key@ == key@,
    {
        VirtualLookup {
            root_wallet_name: root_wallet_name(self.wallet_name.as_str()),
            wallet_name: wallet_name,
            key: String::from_str(key),
        }
    }

    /// `get`, first step: the lookup of `key` in the selected wallet,
    /// unless the credentials still ask for a key change.
    pub fn get_start(&self, key: &str) -> (r: Result<VirtualLookup, WalletError>)
        ensures
            self.credentials.rekey is Some ==> (r matches Err(e) && is_invalid_credentials(e)),
            self.credentials.rekey is None ==> (r matches Ok(q) && q.root_wallet_name@ == self.wallet_name@
                && q.wallet_name@ == self.selected_name() && q.key@ == key@),
    {
        if self.credentials.rekey.is_some() {
            return Err(invalid_credentials());
        }
        let name = virtual_wallet_name(self.wallet_name.as_str(), &self.credentials);
        Ok(self.lookup_in(name, key))
    }

    /// `get`, after the lookup in the selected wallet: the value if it was
    /// found, otherwise the lookup in the root wallet.
    pub fn get_after_selected(&self, key: &str, outcome: LookupOutcome) -> (r: VirtualGetStep)
        ensures
            match lookup_value(outcome) {
                Some(v) => r matches VirtualGetStep::Done(Ok(s)) && s@ == v,
                None => r matches VirtualGetStep::Fetch(q) && q.root_wallet_name@ == self.wallet_name@
                    && q.wallet_name@ == self.wallet_name@ && q.key@ == key@,
            },
    {
        match call_get_internal_result(outcome) {
            Ok(record) => VirtualGetStep::Done(Ok(record)),
            Err(_why) => {
                let root = root_wallet_name(self.wallet_name.as_str());
                VirtualGetStep::Fetch(self.lookup_in(root, key))
            },
        }
    }

    /// `get`, after the lookup in the root wallet: the value if it was found.
    pub fn get_after_root(&self, outcome: LookupOutcome) -> (r: Result<String, WalletError>)
        ensures
            match lookup_value(outcome) {
                Some(v) => r matches Ok(s) && s@ == v,
                None => r matches Err(WalletError::NotFound(m)) && m@ == wallet_error_debug(lookup_error(outcome)),
            },
    {
        match call_get_internal_result(outcome) {
            Ok(record) => Ok(record),
            Err(why) => Err(WalletError::NotFound(wallet_error_text(&why))),
        }
    }

    /// `list`: the listing of the selected wallet's rows whose keys start
    /// with `key_prefix` (a `LIKE` pattern: the prefix and `%`), unless the
    /// credentials still ask for a key change.
    pub fn list_query(&self, key_prefix: &str) -> (r: Result<VirtualListQuery, WalletError>)
        ensures
            self.credentials.rekey is Some ==> (r matches Err(e) && is_invalid_credentials(e)),
            self.credentials.rekey is None ==> (r matches Ok(q) && q.root_wallet_name@ == self.wallet_name@
                && q.wallet_name@ == self.selected_name() && q.pattern@ == key_prefix@ + "%"@),
    {
        if self.credentials.rekey.is_some() {
            return Err(invalid_credentials());
        }
        let mut pattern = String::from_str(key_prefix);
        pattern.append("%");
        Ok(VirtualListQuery {
            root_wallet_name: root_wallet_name(self.wallet_name.as_str()),
            wallet_name: virtual_wallet_name(self.wallet_name.as_str(), &self.credentials),
            pattern: pattern,
        })
    }

    /// `get_not_expired`, first step: the lookup of `key` in the selected
    /// wallet (no fall-back to the root), unless the credentials still ask
    /// for a key change.
    pub fn get_not_expired_start(&self, key: &str) -> (r: Result<VirtualLookup, WalletError>)
        ensures
            self.credentials.rekey is Some ==> (r matches Err(e) && is_invalid_credentials(e)),
            self.credentials.rekey is None ==> (r matches Ok(q) && q.root_wallet_name@ == self.wallet_name@
                && q.wallet_name@ == self.selected_name() && q.key@ == key@),
    {
        self.get_start(key)
    }

    /// `get_not_expired`, after the lookup: the value unless the row is
    /// stale at `now`.
    pub fn get_not_expired_finish(
        &self,
        key: &str,
        record: Result<StoredRecord, WalletError>,
        now_sec: i64,
        now_nsec: i32,
    ) -> (r: Result<String, WalletError>)
        requires
            valid_nsec(now_nsec as int),
            record matches Ok(rec) ==> valid_nsec(rec.created_nsec as int)
                && (self.config.freshness_time != 0 ==> elapsed_in_range(now_sec as int, rec.created_sec as int)),
        ensures
            match record {
                Err(e) => r == Err::<String, WalletError>(e),
                Ok(rec) => if is_stale(
                    self.config.freshness_time,
                    elapsed_seconds(now_sec as int, now_nsec as int, rec.created_sec as int, rec.created_nsec as int),
                ) {
                    r matches Err(WalletError::NotFound(m)) && m@ == key@
                } else {
                    r matches Ok(v) && v@ == rec.value@
                },
            },
    {
        let record = match record {
            Ok(rec) => rec,
            Err(e) => { return Err(e); },
        };
        if self.config.freshness_time != 0
            && expired(self.config.freshness_time, now_sec, now_nsec, record.created_sec, record.created_nsec) {
            return Err(WalletError::NotFound(String::from_str(key)));
        }
        Ok(record.value)
    }

    /// Closing holds no resources: it always succeeds.
    pub fn close(&self) -> (r: Result<(), WalletError>)
        ensures
            r is Ok,
    {
        Ok(())
    }

    pub fn get_pool_name(&self) -> (r: String)
        ensures
            r@ == self.pool_name@,
    {
        self.pool_name.clone()
    }

    pub fn get_name(&self) -> (r: String)
        ensures
            r@ == self.wallet_name@,
    {
        self.wallet_name.clone()
    }
}

/// How a connection to a store is set up, by the credentials.
pub enum ConnectionPlan {
    /// Open with the key.
    Plain,
    /// Open with the (empty) key and export the store into an encrypted one
    /// under the new key.
    ExportToEncrypted(String),
    /// Open with the key and change it to the new one.
    Rekey(String),
    /// Open with the key and export the store into an unencrypted one.
    ExportToPlain,
}

/// How the connection is set up: a new key turns an unencrypted store into
/// an encrypted one, changes the key of an encrypted one, or (when empty)
/// turns an encrypted store into an unencrypted one.
pub open spec fn connection_plan_spec(credentials: VirtualWalletCredentials, r: ConnectionPlan) -> bool {
    match credentials.rekey {
        None => r is Plain,
        Some(rk) => if credentials.key@.len() == 0 && rk@.len() > 0 {
            r matches ConnectionPlan::ExportToEncrypted(k) && k@ == rk@
        } else if rk@.len() > 0 {
            r matches ConnectionPlan::Rekey(k) && k@ == rk@
        } else {
            r is ExportToPlain
        },
    }
}

/// Only a new key changes the store: credentials that ask for no new key
/// open it as it is, whatever their key; a new key always leads to an export
/// or a rekey, and a non-empty new key is the one the store ends up under
/// (an empty one exports the store into an unencrypted one).
pub proof fn lemma_only_a_new_key_changes_the_store(credentials: VirtualWalletCredentials, r: ConnectionPlan)
    requires
        connection_plan_spec(credentials, r),
    ensures
        credentials.rekey is None <==> r is Plain,
        match credentials.rekey {
            None => r is Plain,
            Some(rk) => if rk@.len() > 0 {
                match r {
                    ConnectionPlan::ExportToEncrypted(k) => k@ == rk@ && credentials.key@.len() == 0,
                    ConnectionPlan::Rekey(k) => k@ == rk@ && credentials.key@.len() > 0,
                    _ => false,
                }
            } else {
                r is ExportToPlain
            },
        },
{
}

/// Decides how to set up the connection to a store for the credentials.
pub fn connection_plan(credentials: &VirtualWalletCredentials) -> (r: ConnectionPlan)
    ensures
        connection_plan_spec(*credentials, r),
        credentials.rekey is None ==> r is Plain,
        credentials.rekey is Some ==> !(r is Plain),
{
    match &credentials.rekey {
        None => ConnectionPlan::Plain,
        Some(rk) => {
            if credentials.key.unicode_len() == 0 && rk.unicode_len() > 0 {
                ConnectionPlan::ExportToEncrypted(rk.clone())
            } else if rk.unicode_len() > 0 {
                ConnectionPlan::Rekey(rk.clone())
            } else {
                ConnectionPlan::ExportToPlain
            }
        },
    }
}

/// The statement that sets the key of a connection.
pub fn pragma_key_statement(key: &str) -> (r: String)
    ensures
        r@ == "PRAGMA key='"@ + key@ + "'"@,
{
    let mut s = String::from_str("PRAGMA key='");
    s.append(key);
    s.append("'");
    s
}

/// The statement that changes the key of a store.
pub fn pragma_rekey_statement(rekey: &str) -> (r: String)
    ensures
        r@ == "PRAGMA rekey='"@ + rekey@ + "'"@,
{
    let mut s = String::from_str("PRAGMA rekey='");
    s.append(rekey);
    s.append("'");
    s
}

/// The statement that attaches an unencrypted store at `path` as
/// `plaintext`.
pub fn attach_plaintext_statement(path: &str) -> (r: String)
    ensures
        r@ == "ATTACH DATABASE "@ + debug_quoted(path@) + " AS plaintext KEY ''"@,
{
    let mut s = String::from_str("ATTACH DATABASE ");
    let q = debug_quote(path);
    s.append(q.as_str());
    s.append(" AS plaintext KEY ''");
    s
}

/// The statement that attaches an encrypted store at `path` under `key` as
/// `encrypted`.
pub fn attach_encrypted_statement(path: &str, key: &str) -> (r: String)
    ensures
        r@ == "ATTACH DATABASE "@ + debug_quoted(path@) + " AS encrypted KEY '"@ + key@ + "'"@,
{
    let mut s = String::from_str("ATTACH DATABASE ");
    let q = debug_quote(path);
    s.append(q.as_str());
    s.append(" AS encrypted KEY '");
    s.append(key);
    s.append("'");
    s
}

/// The credentials a wallet is opened with: a new key, if one was asked
/// for, becomes the key.
pub open spec fn opened_credentials(c: VirtualWalletCredentials) -> VirtualWalletCredentials {
    VirtualWalletCredentials {
        key: match c.rekey {
            Some(rk) => rk,
            None => c.key,
        },
        rekey: None,
        virtual_wallet: c.virtual_wallet,
    }
}

/// A wallet opened with any credentials asks for no key change, so its
/// operations never refuse the credentials; it uses the new key where one
/// was asked for, and the same virtual wallet.
pub proof fn lemma_opened_wallet_accepts(c: VirtualWalletCredentials)
    ensures
        opened_credentials(c).rekey is None,
        c.rekey matches Some(rk) ==> opened_credentials(c).key == rk,
        c.rekey is None ==> opened_credentials(c).key == c.key,
        opened_credentials(c).virtual_wallet == c.virtual_wallet,
{
}

/// The virtual wallet type: creates, deletes and opens virtual wallets.
pub struct VirtualWalletType {}

impl VirtualWalletType {
    pub fn new() -> (r: VirtualWalletType) {
        VirtualWalletType {}
    }

    /// `create`, before the store is made: refused where the store already
    /// exists or the credentials ask for a key change.
    pub fn create_check(&self, name: &str, path_exists: bool, credentials: &VirtualWalletCredentials) -> (r: Result<(), WalletError>)
        ensures
            path_exists ==> (r matches Err(WalletError::AlreadyExists(n)) && n@ == name@),
            !path_exists && credentials.rekey is Some ==> (r matches Err(e) && is_invalid_credentials(e)),
            !path_exists && credentials.rekey is None ==> r is Ok,
    {
        let root_name = root_wallet_name(name);
        if path_exists {
            return Err(WalletError::AlreadyExists(root_name));
        }
        if credentials.rekey.is_some() {
            return Err(invalid_credentials());
        }
        Ok(())
    }

    /// `open`, once the store answered: the wallet, whose credentials take
    /// the new key (if one was asked for) as their key.
    pub fn open_finish(
        &self,
        name: &str,
        pool_name: &str,
        runtime_config: VirtualWalletRuntimeConfig,
        credentials: VirtualWalletCredentials,
    ) -> (r: VirtualWallet)
        ensures
            r.wallet_name@ == name@,
            r.pool_name@ == pool_name@,
            r.config == runtime_config,
            r.credentials == opened_credentials(credentials),
    {
        let mut runtime_auth = credentials;
        match runtime_auth.rekey {
            Some(rekey) => {
                runtime_auth.key = rekey;
                runtime_auth.rekey = None;
            },
            None => {},
        }
        VirtualWallet::new(name, pool_name, runtime_config, runtime_auth)
    }
}

} // verus!
