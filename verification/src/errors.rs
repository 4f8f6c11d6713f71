//! Error kinds shared by the wallet back ends.

use vstd::prelude::*;

verus! {

/// Errors common to all components.
#[derive(Debug)]
pub enum CommonError {
    InvalidStructure(String),
    InvalidState(String),
    IOError(String),
}

/// Errors of a wallet.
#[derive(Debug)]
pub enum WalletError {
    AlreadyExists(String),
    NotFound(String),
    AccessFailed(String),
    CommonError(CommonError),
}

/// Errors of a storage back end.
#[derive(Debug)]
pub enum WalletStorageError {
    AlreadyExists,
    NotFound,
    ItemNotFound,
    ItemAlreadyExists,
    ConfigError,
    CredentialsError,
    IOError(String),
    CommonError(CommonError),
}

/// A `CommonError` as plain values.
pub enum CommonErrorView {
    InvalidStructure(Seq<char>),
    InvalidState(Seq<char>),
    IOError(Seq<char>),
}

impl View for CommonError {
    type V = CommonErrorView;

    open spec fn view(&self) -> CommonErrorView {
        match self {
            CommonError::InvalidStructure(m) => CommonErrorView::InvalidStructure(m@),
            CommonError::InvalidState(m) => CommonErrorView::InvalidState(m@),
            CommonError::IOError(m) => CommonErrorView::IOError(m@),
        }
    }
}

/// A `WalletError` as plain values.
pub enum WalletErrorView {
    AlreadyExists(Seq<char>),
    NotFound(Seq<char>),
    AccessFailed(Seq<char>),
    CommonError(CommonErrorView),
}

impl View for WalletError {
    type V = WalletErrorView;

    open spec fn view(&self) -> WalletErrorView {
        match self {
            WalletError::AlreadyExists(m) => WalletErrorView::AlreadyExists(m@),
            WalletError::NotFound(m) => WalletErrorView::NotFound(m@),
            WalletError::AccessFailed(m) => WalletErrorView::AccessFailed(m@),
            WalletError::CommonError(c) => WalletErrorView::CommonError(c@),
        }
    }
}

/// The debug rendering (quoted and escaped) of a text.
pub uninterp spec fn debug_quoted(s: Seq<char>) -> Seq<char>;

/// Calls `format!("{:?}")` on a string slice (std's `Debug` for `str`):
/// the text quoted, with quotes, backslashes and control characters
/// escaped.
#[verifier::external_body]
pub(crate) fn debug_quote(s: &str) -> (r: String)
    ensures
        r@ == debug_quoted(s@),
{
    format!("{:?}", s)
}

/// The debug text of a one-field variant: its name and its field's debug
/// text in brackets.
pub open spec fn variant_debug(name: Seq<char>, field: Seq<char>) -> Seq<char> {
    name + "("@ + field + ")"@
}

/// Writes the debug text of a one-field variant.
pub(crate) fn variant_text(name: &str, field: &str) -> (r: String)
    ensures
        r@ == variant_debug(name@, field@),
{
    let mut s = String::from_str(name);
    s.append("(");
    s.append(field);
    s.append(")");
    s
}

/// The debug text of a `CommonError`: the variant and its quoted message.
pub open spec fn common_error_debug(e: CommonErrorView) -> Seq<char> {
    match e {
        CommonErrorView::InvalidStructure(m) => variant_debug("InvalidStructure"@, debug_quoted(m)),
        CommonErrorView::InvalidState(m) => variant_debug("InvalidState"@, debug_quoted(m)),
        CommonErrorView::IOError(m) => variant_debug("IOError"@, debug_quoted(m)),
    }
}

/// The debug text of a `WalletError`: the variant and its quoted message,
/// or the nested common error.
pub open spec fn wallet_error_debug(e: WalletErrorView) -> Seq<char> {
    match e {
        WalletErrorView::AlreadyExists(m) => variant_debug("AlreadyExists"@, debug_quoted(m)),
        WalletErrorView::NotFound(m) => variant_debug("NotFound"@, debug_quoted(m)),
        WalletErrorView::AccessFailed(m) => variant_debug("AccessFailed"@, debug_quoted(m)),
        WalletErrorView::CommonError(c) => variant_debug("CommonError"@, common_error_debug(c)),
    }
}

fn common_error_text(e: &CommonError) -> (r: String)
    ensures
        r@ == common_error_debug(e@),
{
    match e {
        CommonError::InvalidStructure(m) => variant_text("InvalidStructure", debug_quote(m.as_str()).as_str()),
        CommonError::InvalidState(m) => variant_text("InvalidState", debug_quote(m.as_str()).as_str()),
        CommonError::IOError(m) => variant_text("IOError", debug_quote(m.as_str()).as_str()),
    }
}

/// The debug text of a `WalletError`, as its derived `Debug` writes it.
pub(crate) fn wallet_error_text(e: &WalletError) -> (r: String)
    ensures
        r@ == wallet_error_debug(e@),
{
    match e {
        WalletError::AlreadyExists(m) => variant_text("AlreadyExists", debug_quote(m.as_str()).as_str()),
        WalletError::NotFound(m) => variant_text("NotFound", debug_quote(m.as_str()).as_str()),
        WalletError::AccessFailed(m) => variant_text("AccessFailed", debug_quote(m.as_str()).as_str()),
        WalletError::CommonError(c) => variant_text("CommonError", common_error_text(c).as_str()),
    }
}

/// The error for an unusable credentials object.
pub fn invalid_credentials() -> (e: WalletError)
    ensures
        e matches WalletError::CommonError(CommonError::InvalidStructure(m)) && m@ == "Invalid wallet credentials json"@,
{
    WalletError::CommonError(CommonError::InvalidStructure(String::from_str("Invalid wallet credentials json")))
}

} // verus!
