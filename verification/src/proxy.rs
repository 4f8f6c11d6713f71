//! Helpers for talking to a REST wallet service: endpoint building, auth
//! headers, response checking and decoding of JSON item lists.

use vstd::prelude::*;
use vstd::utf8::encode_utf8;
use vstd::utf8::valid_utf8;
use vstd::utf8::decode_utf8;
use vstd::utf8::encode_scalar;
use vstd::utf8::has_width_1_encoding;
use vstd::utf8::has_width_2_encoding;
use vstd::utf8::has_width_3_encoding;
use vstd::utf8::leading_byte_width_1;
use vstd::utf8::leading_byte_width_2;
use vstd::utf8::leading_byte_width_3;
use vstd::utf8::leading_byte_width_4;
use vstd::utf8::last_continuation_byte;
use vstd::utf8::second_last_continuation_byte;
use vstd::utf8::third_last_continuation_byte;
use crate::strmap::StrMap;
use serde_json::Value;
use crate::errors::debug_quote;
use crate::errors::debug_quoted;
use crate::errors::variant_debug;
use crate::errors::variant_text;

verus! {

/// What can go wrong when talking to the REST service.
#[derive(Debug)]
pub enum RestError {
    RestRequestError(String),
    RestServerError(String),
    RestOtherError(String),
    RestInvalidResponse(String),
    RestResponseFormatError(String),
}

/// A `RestError` as plain values.
pub enum RestErrorView {
    RestRequestError(Seq<char>),
    RestServerError(Seq<char>),
    RestOtherError(Seq<char>),
    RestInvalidResponse(Seq<char>),
    RestResponseFormatError(Seq<char>),
}

impl View for RestError {
    type V = RestErrorView;

    open spec fn view(&self) -> RestErrorView {
        match self {
            RestError::RestRequestError(m) => RestErrorView::RestRequestError(m@),
            RestError::RestServerError(m) => RestErrorView::RestServerError(m@),
            RestError::RestOtherError(m) => RestErrorView::RestOtherError(m@),
            RestError::RestInvalidResponse(m) => RestErrorView::RestInvalidResponse(m@),
            RestError::RestResponseFormatError(m) => RestErrorView::RestResponseFormatError(m@),
        }
    }
}

/// The string `s` with a `/` appended unless it already ends with one.
pub open spec fn with_trailing_slash(s: Seq<char>) -> Seq<char> {
    if s.len() > 0 && s.last() == '/' {
        s
    } else {
        s.push('/')
    }
}

/// A text with a trailing slash ends with `/`, and adding one again
/// changes nothing; a text that already ends with `/` is left as it is.
pub proof fn lemma_trailing_slash_idempotent(s: Seq<char>)
    ensures
        with_trailing_slash(s).len() > 0,
        with_trailing_slash(s).last() == '/',
        with_trailing_slash(with_trailing_slash(s)) == with_trailing_slash(s),
        s.len() > 0 && s.last() == '/' ==> with_trailing_slash(s) == s,
{
}

/// Appends a `/` to `s` unless it already ends with one.
pub fn ensure_trailing_slash(s: &str) -> (r: String)
    ensures
        r@ == with_trailing_slash(s@),
{
    let n = s.unicode_len();
    let mut ss = String::from_str(s);
    if n > 0 && s.get_char(n - 1) == '/' {
        ss
    } else {
        proof {
            reveal_strlit("/");
        }
        ss.append("/");
        ss
    }
}

/// Whether a byte is escaped in a URL path component: C0 controls, non-ASCII
/// bytes, and space, `"`, `#`, `<`, `>`, backtick, `?`, `{`, `}`.
pub open spec fn in_path_encode_set(b: u8) -> bool {
    ||| b < 0x20
    ||| b > 0x7e
    ||| b == 0x20
    ||| b == 0x22
    ||| b == 0x23
    ||| b == 0x3c
    ||| b == 0x3e
    ||| b == 0x60
    ||| b == 0x3f
    ||| b == 0x7b
    ||| b == 0x7d
}

/// The upper-case hexadecimal digit for `n < 16`.
pub open spec fn hex_digit(n: int) -> char {
    if n < 10 {
        (n + 48) as char
    } else {
        (n + 55) as char
    }
}

/// One byte as it appears in an encoded path: itself, or `%` and two digits.
pub open spec fn percent_encoded_byte(b: u8) -> Seq<char> {
    if in_path_encode_set(b) {
        seq!['%', hex_digit(b as int / 16), hex_digit(b as int % 16)]
    } else {
        seq![b as char]
    }
}

/// The bytes `bs` percent-encoded for a URL path component.
pub open spec fn percent_encoded(bs: Seq<u8>) -> Seq<char>
    decreases bs.len(),
{
    if bs.len() == 0 {
        Seq::empty()
    } else {
        percent_encoded(bs.drop_last()) + percent_encoded_byte(bs.last())
    }
}

/// The text `s` percent-encoded (over its UTF-8 bytes) for a URL path.
pub open spec fn path_encoded(s: Seq<char>) -> Seq<char> {
    percent_encoded(encode_utf8(s))
}

/// Calls `url::percent_encoding::utf8_percent_encode` with the path encode
/// set (`DEFAULT_ENCODE_SET`): each UTF-8 byte of `s` in that set becomes `%`
/// and two upper-case hex digits, every other byte stays as it is.
#[verifier::external_body]
fn utf8_percent_encode_path(s: &str) -> (r: String)
    ensures
        r@ == path_encoded(s@),
{
    url::percent_encoding::utf8_percent_encode(s, url::percent_encoding::DEFAULT_ENCODE_SET).to_string()
}

/// A character that a URL path keeps as it is: printable ASCII outside the
/// escaped set.
pub open spec fn path_safe_char(c: char) -> bool {
    '!' <= c <= '~' && !in_path_encode_set(c as u8)
}

/// Text made only of characters that a URL path keeps is left unchanged by
/// percent-encoding.
pub proof fn lemma_path_encoded_safe(s: Seq<char>)
    requires
        forall|i: int| 0 <= i < s.len() ==> path_safe_char(#[trigger] s[i]),
    ensures
        path_encoded(s) == s,
{
    assert(vstd::utf8::is_ascii_chars(s));
    vstd::utf8::is_ascii_chars_encode_utf8(s);
    let b = encode_utf8(s);
    lemma_percent_encoded_prefix(s, b, s.len() as int);
    assert(b.take(s.len() as int) =~= b);
    assert(s.take(s.len() as int) =~= s);
}

proof fn lemma_percent_encoded_prefix(s: Seq<char>, b: Seq<u8>, n: int)
    requires
        0 <= n <= s.len(),
        b.len() == s.len(),
        forall|i: int| 0 <= i < s.len() ==> path_safe_char(#[trigger] s[i]),
        forall|i: int| 0 <= i < s.len() ==> s[i] as u8 == #[trigger] b[i],
    ensures
        percent_encoded(b.take(n)) == s.take(n),
    decreases n,
{
    if n > 0 {
        lemma_percent_encoded_prefix(s, b, n - 1);
        assert(b.take(n).drop_last() =~= b.take(n - 1));
        let c = s[n - 1];
        assert(path_safe_char(c));
        assert(b[n - 1] == c as u8);
        assert((c as u32) < 128);
        assert((c as u8) as u32 == c as u32);
        vstd::utf8::char_u32_cast(c, c as u32);
        assert((c as u8) as char == c);
        assert(percent_encoded_byte(b[n - 1]) =~= seq![c]);
        assert(s.take(n) =~= s.take(n - 1).push(c));
    }
}

/// No byte of `b` is `%`.
pub open spec fn no_percent_byte(b: Seq<u8>) -> bool {
    forall|i: int| 0 <= i < b.len() ==> #[trigger] b[i] != 0x25u8
}

proof fn lemma_scalar_no_percent(v: u32)
    requires
        v != 0x25,
    ensures
        no_percent_byte(encode_scalar(v)),
{
    if has_width_1_encoding(v) {
        assert(leading_byte_width_1(v) != 0x25u8) by (bit_vector)
            requires
                v <= 0x7F,
                v != 0x25,
        ;
    } else if has_width_2_encoding(v) {
        assert(leading_byte_width_2(v) != 0x25u8) by (bit_vector);
        assert(last_continuation_byte(v) != 0x25u8) by (bit_vector);
    } else if has_width_3_encoding(v) {
        assert(leading_byte_width_3(v) != 0x25u8) by (bit_vector);
        assert(second_last_continuation_byte(v) != 0x25u8) by (bit_vector);
        assert(last_continuation_byte(v) != 0x25u8) by (bit_vector);
    } else {
        assert(leading_byte_width_4(v) != 0x25u8) by (bit_vector);
        assert(third_last_continuation_byte(v) != 0x25u8) by (bit_vector);
        assert(second_last_continuation_byte(v) != 0x25u8) by (bit_vector);
        assert(last_continuation_byte(v) != 0x25u8) by (bit_vector);
    }
}

/// A text without `%` encodes to bytes without `%`.
proof fn lemma_encode_utf8_no_percent(s: Seq<char>)
    requires
        !s.contains('%'),
    ensures
        no_percent_byte(encode_utf8(s)),
    decreases s.len(),
{
    if s.len() > 0 {
        let d = s.drop_first();
        assert(!d.contains('%')) by {
            if d.contains('%') {
                let j = choose|j: int| 0 <= j < d.len() && d[j] == '%';
                assert(s[j + 1] == '%');
            }
        }
        lemma_encode_utf8_no_percent(d);
        assert(s[0] != '%');
        assert((s[0] as u32) != 0x25u32) by {
            if (s[0] as u32) == 0x25u32 {
                vstd::utf8::char_u32_cast(s[0], 0x25u32);
                vstd::utf8::char_u32_cast('%', '%' as u32);
                assert(('%' as u32) == 0x25u32);
            }
        }
        lemma_scalar_no_percent(s[0] as u32);
        let a = encode_scalar(s[0] as u32);
        let b = encode_utf8(d);
        assert forall|i: int| 0 <= i < (a + b).len() implies #[trigger] (a + b)[i] != 0x25u8 by {
            if i < a.len() {
                assert((a + b)[i] == a[i]);
            } else {
                assert((a + b)[i] == b[i - a.len()]);
            }
        }
    }
}

proof fn lemma_hex_digit(n: int)
    requires
        0 <= n < 16,
    ensures
        hex_digit(n) != '%',
        (hex_digit(n) as u32) == if n < 10 { n + 48 } else { n + 55 },
{
    let c = hex_digit(n);
    let u: int = if n < 10 { n + 48 } else { n + 55 };
    assert(c == u as char);
    assert((c as u32) == u);
    if c == '%' {
        assert(('%' as u32) == 0x25u32);
    }
}

/// The characters one byte (not `%`) is encoded to: `%` and two hex digits
/// where it is escaped, or the byte's own character, which is not `%`.
proof fn lemma_chunk_shape(x: u8)
    requires
        x != 0x25u8,
    ensures
        in_path_encode_set(x) ==> percent_encoded_byte(x).len() == 3 && percent_encoded_byte(x)[0] == '%'
            && percent_encoded_byte(x)[1] != '%' && percent_encoded_byte(x)[2] != '%',
        !in_path_encode_set(x) ==> percent_encoded_byte(x).len() == 1 && percent_encoded_byte(x)[0] != '%',
{
    if in_path_encode_set(x) {
        lemma_hex_digit(x as int / 16);
        lemma_hex_digit(x as int % 16);
    } else {
        let c = x as char;
        assert((c as u32) == x as u32);
        if c == '%' {
            assert(('%' as u32) == 0x25u32);
        }
    }
}

proof fn lemma_chunk_injective(x: u8, y: u8)
    requires
        x != 0x25u8,
        y != 0x25u8,
        percent_encoded_byte(x) == percent_encoded_byte(y),
    ensures
        x == y,
{
    lemma_chunk_shape(x);
    lemma_chunk_shape(y);
    if in_path_encode_set(x) {
        lemma_hex_digit(x as int / 16);
        lemma_hex_digit(x as int % 16);
        lemma_hex_digit(y as int / 16);
        lemma_hex_digit(y as int % 16);
        assert(percent_encoded_byte(x)[1] == percent_encoded_byte(y)[1]);
        assert(percent_encoded_byte(x)[2] == percent_encoded_byte(y)[2]);
        assert(x as int / 16 == y as int / 16);
        assert(x as int % 16 == y as int % 16);
    } else {
        assert(percent_encoded_byte(x)[0] == percent_encoded_byte(y)[0]);
        assert(((x as char) as u32) == x as u32);
        assert(((y as char) as u32) == y as u32);
    }
}

proof fn lemma_percent_encoded_len(b: Seq<u8>)
    ensures
        percent_encoded(b).len() >= b.len(),
    decreases b.len(),
{
    if b.len() > 0 {
        lemma_percent_encoded_len(b.drop_last());
    }
}

/// The last character of an encoding of bytes without `%` is not `%`, and
/// neither is the one before it.
proof fn lemma_percent_encoded_tail(b: Seq<u8>)
    requires
        no_percent_byte(b),
        b.len() > 0,
    ensures
        percent_encoded(b).len() > 0,
        percent_encoded(b).last() != '%',
        percent_encoded(b).len() >= 2 ==> percent_encoded(b)[percent_encoded(b).len() - 2] != '%',
    decreases b.len(),
{
    let d = b.drop_last();
    let x = b.last();
    assert(x == b[b.len() - 1]);
    lemma_chunk_shape(x);
    let p = percent_encoded(b);
    let q = percent_encoded(d);
    let c = percent_encoded_byte(x);
    assert(p == q + c);
    assert(p.last() == c.last());
    if c.len() == 1 && p.len() >= 2 {
        lemma_percent_encoded_len(d);
        if d.len() == 0 {
            assert(q.len() == 0);
        } else {
            assert(no_percent_byte(d)) by {
                assert forall|i: int| 0 <= i < d.len() implies #[trigger] d[i] != 0x25u8 by {
                    assert(d[i] == b[i]);
                }
            }
            lemma_percent_encoded_tail(d);
            assert(p[p.len() - 2] == q.last());
        }
    } else if c.len() == 3 {
        assert(p[p.len() - 2] == c[1]);
    }
}

/// Percent-encoding keeps bytes without `%` apart.
proof fn lemma_percent_encoded_injective(b1: Seq<u8>, b2: Seq<u8>)
    requires
        no_percent_byte(b1),
        no_percent_byte(b2),
        percent_encoded(b1) == percent_encoded(b2),
    ensures
        b1 == b2,
    decreases b1.len(),
{
    lemma_percent_encoded_len(b1);
    lemma_percent_encoded_len(b2);
    if b1.len() == 0 || b2.len() == 0 {
        if b1.len() > 0 {
            lemma_percent_encoded_tail(b1);
        }
        if b2.len() > 0 {
            lemma_percent_encoded_tail(b2);
        }
        assert(b1 =~= b2);
    } else {
        let d1 = b1.drop_last();
        let d2 = b2.drop_last();
        let x1 = b1.last();
        let x2 = b2.last();
        assert(x1 == b1[b1.len() - 1] && x2 == b2[b2.len() - 1]);
        lemma_chunk_shape(x1);
        lemma_chunk_shape(x2);
        let p = percent_encoded(b1);
        let q1 = percent_encoded(d1);
        let q2 = percent_encoded(d2);
        let c1 = percent_encoded_byte(x1);
        let c2 = percent_encoded_byte(x2);
        assert(p == q1 + c1);
        assert(p == q2 + c2);
        assert(no_percent_byte(d1)) by {
            assert forall|i: int| 0 <= i < d1.len() implies #[trigger] d1[i] != 0x25u8 by {
                assert(d1[i] == b1[i]);
            }
        }
        assert(no_percent_byte(d2)) by {
            assert forall|i: int| 0 <= i < d2.len() implies #[trigger] d2[i] != 0x25u8 by {
                assert(d2[i] == b2[i]);
            }
        }
        let l: int = p.len() as int;
        if c1.len() == 3 && c2.len() == 1 {
            assert(p[l - 3] == '%');
            lemma_percent_encoded_len(d2);
            lemma_percent_encoded_tail(d2);
            assert(p[l - 3] == q2[q2.len() - 2]);
        }
        if c1.len() == 1 && c2.len() == 3 {
            assert(p[l - 3] == '%');
            lemma_percent_encoded_len(d1);
            lemma_percent_encoded_tail(d1);
            assert(p[l - 3] == q1[q1.len() - 2]);
        }
        assert(c1.len() == c2.len());
        assert(q1 =~= p.subrange(0, l - c1.len()));
        assert(q2 =~= p.subrange(0, l - c2.len()));
        assert(c1 =~= p.subrange(l - c1.len(), l));
        assert(c2 =~= p.subrange(l - c2.len(), l));
        lemma_chunk_injective(x1, x2);
        lemma_percent_encoded_injective(d1, d2);
        assert(b1 =~= d1.push(x1));
        assert(b2 =~= d2.push(x2));
    }
}

/// Two texts without `%` that encode to the same path component are the
/// same text.
pub proof fn lemma_path_encoded_injective(s1: Seq<char>, s2: Seq<char>)
    requires
        !s1.contains('%'),
        !s2.contains('%'),
        path_encoded(s1) == path_encoded(s2),
    ensures
        s1 == s2,
{
    lemma_encode_utf8_no_percent(s1);
    lemma_encode_utf8_no_percent(s2);
    lemma_percent_encoded_injective(encode_utf8(s1), encode_utf8(s2));
    vstd::utf8::encode_utf8_decode_utf8(s1);
    vstd::utf8::encode_utf8_decode_utf8(s2);
}

proof fn lemma_encode_utf8_last(s: Seq<char>)
    requires
        s.len() > 0,
    ensures
        encode_utf8(s) == encode_utf8(s.drop_last()) + encode_scalar(s.last() as u32),
    decreases s.len(),
{
    if s.len() == 1 {
        assert(s.drop_last() =~= Seq::<char>::empty());
        assert(s.drop_first() =~= Seq::<char>::empty());
        assert(encode_utf8(s.drop_first()) == Seq::<u8>::empty());
        assert(encode_utf8(s) =~= encode_scalar(s[0] as u32));
        assert(encode_utf8(s.drop_last()) == Seq::<u8>::empty());
        assert(encode_utf8(s) =~= encode_utf8(s.drop_last()) + encode_scalar(s.last() as u32));
    } else {
        let f = s.drop_first();
        lemma_encode_utf8_last(f);
        assert(f.drop_last() =~= s.drop_last().drop_first());
        assert(f.last() == s.last());
        assert(s.drop_last()[0] == s[0]);
        assert(encode_utf8(s.drop_last()) == encode_scalar(s[0] as u32) + encode_utf8(s.drop_last().drop_first()));
        assert(encode_utf8(s) =~= encode_utf8(s.drop_last()) + encode_scalar(s.last() as u32));
    }
}

/// The encoding of a text that does not end with `/` does not end with `/`.
pub proof fn lemma_path_encoded_last(s: Seq<char>)
    requires
        s.len() > 0,
        s.last() != '/',
    ensures
        path_encoded(s).len() > 0,
        path_encoded(s).last() != '/',
{
    lemma_encode_utf8_last(s);
    let c = s.last();
    let v = c as u32;
    let sc = encode_scalar(v);
    let b = encode_utf8(s);
    assert(sc.len() > 0);
    assert(b.last() == sc.last());
    let y = b.last();
    assert(percent_encoded(b) == percent_encoded(b.drop_last()) + percent_encoded_byte(y));
    if has_width_1_encoding(v) {
        assert(sc.last() == leading_byte_width_1(v));
        assert(leading_byte_width_1(v) as u32 == v) by (bit_vector)
            requires
                v <= 0x7F,
        ;
        if v == 0x2Fu32 {
            vstd::utf8::char_u32_cast(c, 0x2Fu32);
            vstd::utf8::char_u32_cast('/', '/' as u32);
            assert(('/' as u32) == 0x2Fu32);
        }
    } else {
        assert(sc.last() == last_continuation_byte(v));
        assert(last_continuation_byte(v) >= 0x80u8) by (bit_vector);
    }
    if in_path_encode_set(y) {
        lemma_hex_digit(y as int % 16);
    } else {
        assert(((y as char) as u32) == y as u32);
        if (y as char) == '/' {
            assert(('/' as u32) == 0x2Fu32);
        }
    }
}

/// The path component that `appended_path` adds: the encoded text and a
/// `/`, or nothing for an empty encoding.
pub open spec fn slash_tail(e: Seq<char>) -> Seq<char> {
    if e.len() == 0 {
        Seq::empty()
    } else {
        with_trailing_slash(e)
    }
}

/// Appending a path component to an endpoint that ends with `/` extends it.
pub proof fn lemma_appended_path_extends(endpoint: Seq<char>, app_path: Seq<char>)
    requires
        endpoint.len() > 0,
        endpoint.last() == '/',
    ensures
        appended_path(endpoint, app_path) == endpoint + slash_tail(path_encoded(app_path)),
        appended_path(endpoint, app_path).len() > 0,
        appended_path(endpoint, app_path).last() == '/',
{
    let e = path_encoded(app_path);
    assert(with_trailing_slash(endpoint) == endpoint);
    if e.len() == 0 {
        assert(endpoint + e =~= endpoint);
    } else {
        assert((endpoint + e).last() == e.last());
        if e.last() != '/' {
            assert((endpoint + e).push('/') =~= endpoint + e.push('/'));
        }
    }
}

/// `endpoint` with a trailing slash, the encoded `app_path`, and a slash.
pub open spec fn appended_path(endpoint: Seq<char>, app_path: Seq<char>) -> Seq<char> {
    with_trailing_slash(with_trailing_slash(endpoint) + path_encoded(app_path))
}

/// Appending a non-empty path component made of characters a URL path
/// keeps, and not ending with `/`, to an endpoint that ends with `/` gives
/// the endpoint, the component and a `/`.
pub proof fn lemma_appended_safe_path(endpoint: Seq<char>, app_path: Seq<char>)
    requires
        endpoint.len() > 0 && endpoint.last() == '/',
        app_path.len() > 0 && app_path.last() != '/',
        forall|i: int| 0 <= i < app_path.len() ==> path_safe_char(#[trigger] app_path[i]),
    ensures
        appended_path(endpoint, app_path) == (endpoint + app_path).push('/'),
{
    lemma_path_encoded_safe(app_path);
    assert((endpoint + app_path).last() == app_path.last());
}

/// Appends the path component `app_path` (percent-encoded) to `endpoint`.
pub fn rest_append_path(endpoint: &str, app_path: &str) -> (r: String)
    ensures
        r@ == appended_path(endpoint@, app_path@),
{
    let mut ret_endpoint = ensure_trailing_slash(endpoint);
    let encoded = utf8_percent_encode_path(app_path);
    ret_endpoint.append(encoded.as_str());
    ensure_trailing_slash(ret_endpoint.as_str())
}

/// The endpoint of a (virtual) wallet: the base endpoint, the encoded wallet
/// name if there is one, and a trailing slash.
pub open spec fn wallet_endpoint(endpoint: Seq<char>, name: Option<Seq<char>>) -> Seq<char> {
    match name {
        Some(n) => appended_path(endpoint, n),
        None => with_trailing_slash(with_trailing_slash(endpoint)),
    }
}

/// Builds the endpoint for the wallet `virtual_wallet_name` under `endpoint`.
pub fn rest_endpoint(endpoint: &str, virtual_wallet_name: Option<&str>) -> (r: String)
    ensures
        r@ == wallet_endpoint(endpoint@, match virtual_wallet_name {
            Some(n) => Some(n@),
            None => None,
        }),
{
    let mut ret_endpoint = ensure_trailing_slash(endpoint);
    match virtual_wallet_name {
        Some(s) => {
            let encoded = utf8_percent_encode_path(s);
            ret_endpoint.append(encoded.as_str());
        },
        None => {},
    }
    ensure_trailing_slash(ret_endpoint.as_str())
}

/// Builds the endpoint of the resource `resource_id` under `endpoint`.
pub fn rest_resource_endpoint(endpoint: &str, resource_id: &str) -> (r: String)
    ensures
        r@ == appended_path(endpoint@, resource_id@),
{
    rest_append_path(endpoint, resource_id)
}

/// The debug text of a `RestError`: the variant and its quoted message.
pub open spec fn rest_error_debug(e: RestErrorView) -> Seq<char> {
    match e {
        RestErrorView::RestRequestError(m) => variant_debug("RestRequestError"@, debug_quoted(m)),
        RestErrorView::RestServerError(m) => variant_debug("RestServerError"@, debug_quoted(m)),
        RestErrorView::RestOtherError(m) => variant_debug("RestOtherError"@, debug_quoted(m)),
        RestErrorView::RestInvalidResponse(m) => variant_debug("RestInvalidResponse"@, debug_quoted(m)),
        RestErrorView::RestResponseFormatError(m) => variant_debug("RestResponseFormatError"@, debug_quoted(m)),
    }
}

/// The debug text of a `RestError`, as its derived `Debug` writes it.
pub(crate) fn rest_error_text(e: &RestError) -> (r: String)
    ensures
        r@ == rest_error_debug(e@),
{
    match e {
        RestError::RestRequestError(m) => variant_text("RestRequestError", debug_quote(m.as_str()).as_str()),
        RestError::RestServerError(m) => variant_text("RestServerError", debug_quote(m.as_str()).as_str()),
        RestError::RestOtherError(m) => variant_text("RestOtherError", debug_quote(m.as_str()).as_str()),
        RestError::RestInvalidResponse(m) => variant_text("RestInvalidResponse", debug_quote(m.as_str()).as_str()),
        RestError::RestResponseFormatError(m) => variant_text("RestResponseFormatError", debug_quote(m.as_str()).as_str()),
    }
}

/// The headers that go with a request: the value of `Authorization`.
pub struct RestHeaders {
    pub authorization: String,
}

/// Builds the headers that authenticate with `auth_token` (`Token <token>`).
pub fn rest_auth_headers(auth_token: &str) -> (h: RestHeaders)
    ensures
        h.authorization@ == "Token "@ + auth_token@,
{
    let mut auth_str = String::from_str("Token ");
    auth_str.append(auth_token);
    RestHeaders { authorization: auth_str }
}

/// The HTTP methods the wallet uses.
#[derive(PartialEq, Eq, Structural, Debug, Clone, Copy)]
pub enum RestMethod {
    Get,
    Post,
    Put,
}

/// The body of a request.
pub enum RestBody {
    /// No body.
    Empty,
    /// JSON text, sent as it is with the JSON content type.
    Json(String),
    /// A flat JSON object of string fields, in the order given.
    Fields(Vec<(String, String)>),
}

/// A request to send to the REST service.
pub struct RestRequest {
    pub method: RestMethod,
    pub url: String,
    pub headers: Option<RestHeaders>,
    pub body: RestBody,
}

/// What came back from the REST service: the status code, its text, and the
/// raw body.
pub struct RestResponse {
    pub status: u16,
    pub status_text: String,
    pub body: Vec<u8>,
}

/// A GET of `req_url` with the given headers.
pub fn rest_get_request(req_url: &str, headers: Option<RestHeaders>) -> (r: RestRequest)
    ensures
        r.method == RestMethod::Get,
        r.url@ == req_url@,
        r.headers == headers,
        r.body is Empty,
{
    RestRequest { method: RestMethod::Get, url: String::from_str(req_url), headers, body: RestBody::Empty }
}

/// A POST of `req_url` with the given headers and, if there is one, a JSON
/// text body.
pub fn rest_post_request(req_url: &str, headers: Option<RestHeaders>, body: Option<&str>) -> (r: RestRequest)
    ensures
        r.method == RestMethod::Post,
        r.url@ == req_url@,
        r.headers == headers,
        match body {
            Some(b) => r.body matches RestBody::Json(t) && t@ == b@,
            None => r.body is Empty,
        },
{
    let b = match body {
        Some(t) => RestBody::Json(String::from_str(t)),
        None => RestBody::Empty,
    };
    RestRequest { method: RestMethod::Post, url: String::from_str(req_url), headers, body: b }
}

/// A POST of `req_url` with the given headers and, if there is one, a body
/// of string fields.
pub fn rest_post_request_map(req_url: &str, headers: Option<RestHeaders>, body: Option<Vec<(String, String)>>) -> (r: RestRequest)
    ensures
        r.method == RestMethod::Post,
        r.url@ == req_url@,
        r.headers == headers,
        match body {
            Some(b) => r.body == RestBody::Fields(b),
            None => r.body is Empty,
        },
{
    let b = match body {
        Some(f) => RestBody::Fields(f),
        None => RestBody::Empty,
    };
    RestRequest { method: RestMethod::Post, url: String::from_str(req_url), headers, body: b }
}

/// A PUT of `req_url` with the given headers and, if there is one, a body of
/// string fields.
pub fn rest_put_request_map(req_url: &str, headers: Option<RestHeaders>, body: Option<Vec<(String, String)>>) -> (r: RestRequest)
    ensures
        r.method == RestMethod::Put,
        r.url@ == req_url@,
        r.headers == headers,
        match body {
            Some(b) => r.body == RestBody::Fields(b),
            None => r.body is Empty,
        },
{
    let b = match body {
        Some(f) => RestBody::Fields(f),
        None => RestBody::Empty,
    };
    RestRequest { method: RestMethod::Put, url: String::from_str(req_url), headers, body: b }
}

/// The request that asks `req_url` for an authentication token for the user
/// `userid` with `password`: a POST of the fields `username` and `password`.
pub fn rest_post_request_auth(req_url: &str, userid: &str, password: &str) -> (r: RestRequest)
    ensures
        r.method == RestMethod::Post,
        r.url@ == req_url@,
        r.headers is None,
        r.body matches RestBody::Fields(f) && f@.len() == 2
            && f@[0].0@ == "username"@ && f@[0].1@ == userid@
            && f@[1].0@ == "password"@ && f@[1].1@ == password@,
{
    let mut map: Vec<(String, String)> = Vec::new();
    map.push((String::from_str("username"), String::from_str(userid)));
    map.push((String::from_str("password"), String::from_str(password)));
    rest_post_request_map(req_url, None, Some(map))
}

/// The status is a success (2xx).
pub open spec fn is_success(status: u16) -> bool {
    200 <= status <= 299
}

/// Every 2xx status, and no other, is a success (as reqwest's
/// `is_success`); a 5xx status is a server error and never a success.
pub proof fn lemma_success_is_any_2xx(status: u16)
    ensures
        is_success(status) <==> 200 <= status <= 299,
        is_server_error(status) ==> !is_success(status),
{
}

/// The status is a server error (5xx).
pub open spec fn is_server_error(status: u16) -> bool {
    500 <= status <= 599
}

/// The text that `format!("{:?}")` writes for the error `std::str::from_utf8`
/// gives on bytes that are not UTF-8 (where the valid prefix ends, and the
/// length of the bad sequence).
pub uninterp spec fn utf8_error_debug(bytes: Seq<u8>) -> Seq<char>;

/// Calls `std::str::from_utf8`: succeeds exactly on valid UTF-8, with the
/// decoded text; on failure hands back the error's debug text.
#[verifier::external_body]
fn decode_utf8_text(bytes: &[u8]) -> (r: Result<String, String>)
    ensures
        r is Ok <==> valid_utf8(bytes@),
        r matches Ok(s) ==> s@ == decode_utf8(bytes@),
        r matches Err(m) ==> m@ == utf8_error_debug(bytes@),
{
    match std::str::from_utf8(bytes) {
        Ok(s) => Ok(s.to_owned()),
        Err(e) => Err(format!("{:?}", e)),
    }
}

/// The error for a body that is not UTF-8.
pub open spec fn invalid_utf8_error(bytes: Seq<u8>) -> RestErrorView {
    RestErrorView::RestInvalidResponse("Invalid UTF-8 sequence: "@ + utf8_error_debug(bytes))
}

/// The error that a response without success carries, by its status.
pub open spec fn status_error(status: u16, status_text: Seq<char>) -> RestErrorView {
    if is_server_error(status) {
        RestErrorView::RestServerError("Server error "@ + status_text)
    } else {
        RestErrorView::RestOtherError("Something else happened "@ + status_text)
    }
}

/// `e` is the error that a response without success carries.
pub open spec fn failed_status_error(e: RestError, status: u16, status_text: Seq<char>) -> bool {
    e@ == status_error(status, status_text)
}

/// The error that checking a response gives where it fails: the status
/// error, or for a successful status the UTF-8 error of the body.
pub open spec fn check_error(res: RestResponse) -> RestErrorView {
    if is_success(res.status) {
        invalid_utf8_error(res.body@)
    } else {
        status_error(res.status, res.status_text@)
    }
}

fn failed_status(res: &RestResponse) -> (e: RestError)
    requires
        !is_success(res.status),
    ensures
        failed_status_error(e, res.status, res.status_text@),
{
    if 500 <= res.status && res.status <= 599 {
        let mut m = String::from_str("Server error ");
        m.append(res.status_text.as_str());
        RestError::RestServerError(m)
    } else {
        let mut m = String::from_str("Something else happened ");
        m.append(res.status_text.as_str());
        RestError::RestOtherError(m)
    }
}

fn invalid_utf8(why: String) -> (e: RestError)
    ensures
        e matches RestError::RestInvalidResponse(m) && m@ == "Invalid UTF-8 sequence: "@ + why@,
{
    let mut m = String::from_str("Invalid UTF-8 sequence: ");
    m.append(why.as_str());
    RestError::RestInvalidResponse(m)
}

/// Checks that a response succeeded and that its body is UTF-8 text.
pub fn rest_check_result(res: &RestResponse) -> (r: Result<(), RestError>)
    ensures
        is_success(res.status) ==> match r {
            Ok(()) => valid_utf8(res.body@),
            Err(e) => !valid_utf8(res.body@) && e@ == invalid_utf8_error(res.body@),
        },
        !is_success(res.status) ==> (r matches Err(e) && failed_status_error(e, res.status, res.status_text@)),
        200 <= res.status <= 299 && valid_utf8(res.body@) ==> r is Ok,
        !(200 <= res.status <= 299) ==> r is Err,
{
    if 200 <= res.status && res.status <= 299 {
        match decode_utf8_text(res.body.as_slice()) {
            Ok(_) => Ok(()),
            Err(why) => Err(invalid_utf8(why)),
        }
    } else {
        Err(failed_status(res))
    }
}

/// The body of a successful response, as text.
pub fn rest_extract_response_body(res: &RestResponse) -> (r: Result<String, RestError>)
    ensures
        is_success(res.status) ==> match r {
            Ok(s) => valid_utf8(res.body@) && s@ == decode_utf8(res.body@),
            Err(e) => !valid_utf8(res.body@) && e@ == invalid_utf8_error(res.body@),
        },
        !is_success(res.status) ==> (r matches Err(e) && failed_status_error(e, res.status, res.status_text@)),
        200 <= res.status <= 299 && valid_utf8(res.body@) ==> (r matches Ok(s) && s@ == decode_utf8(res.body@)),
        !(200 <= res.status <= 299) ==> r is Err,
{
    if 200 <= res.status && res.status <= 299 {
        match decode_utf8_text(res.body.as_slice()) {
            Ok(s) => Ok(s),
            Err(why) => Err(invalid_utf8(why)),
        }
    } else {
        Err(failed_status(res))
    }
}

/// What `serde_json` makes of the member `name` of the JSON text `text`: the
/// member's string if the text is JSON, the member exists and is a string.
pub uninterp spec fn json_member_string(text: Seq<char>, name: Seq<char>) -> Option<Seq<char>>;

/// Calls `serde_json::from_str` into a `serde_json::Value`, indexes it with
/// `name` and takes `as_str`: `None` where the text is not JSON or the member
/// is missing or not a string.
#[verifier::external_body]
fn json_str_member(text: &str, name: &str) -> (r: Option<String>)
    ensures
        json_member_string(text@, name@) == match r {
            Some(s) => Some(s@),
            None => None::<Seq<char>>,
        },
{
    match serde_json::from_str::<serde_json::Value>(text) {
        Ok(v) => match v[name].as_str() {
            Some(s) => Some(s.to_owned()),
            None => None,
        },
        Err(_) => None,
    }
}

/// A successful response holds a JSON body with a string member `name`; the
/// item extraction is defined on exactly those (and on failed responses).
pub open spec fn response_item_defined(res: &RestResponse, name: Seq<char>) -> bool {
    is_success(res.status) && valid_utf8(res.body@) ==> json_member_string(decode_utf8(res.body@), name) is Some
}

/// The string member `item_name` of the JSON body of a successful response.
pub fn rest_extract_response_item(res: &RestResponse, item_name: &str) -> (r: Result<String, RestError>)
    requires
        response_item_defined(res, item_name@),
    ensures
        is_success(res.status) ==> match r {
            Ok(s) => valid_utf8(res.body@) && json_member_string(decode_utf8(res.body@), item_name@) == Some(s@),
            Err(e) => !valid_utf8(res.body@) && e@ == invalid_utf8_error(res.body@),
        },
        !is_success(res.status) ==> (r matches Err(e) && failed_status_error(e, res.status, res.status_text@)),
        200 <= res.status <= 299 && valid_utf8(res.body@)
            ==> (r matches Ok(s) && json_member_string(decode_utf8(res.body@), item_name@) == Some(s@)),
        !(200 <= res.status <= 299) ==> r is Err,
{
    if 200 <= res.status && res.status <= 299 {
        match decode_utf8_text(res.body.as_slice()) {
            Ok(text) => {
                match json_str_member(text.as_str(), item_name) {
                    Some(s) => Ok(s),
                    None => Err(invalid_utf8(text)),
                }
            },
            Err(why) => Err(invalid_utf8(why)),
        }
    } else {
        Err(failed_status(res))
    }
}

/// The item extraction where it is defined; `None` on a successful UTF-8
/// response whose body has no string member `item_name`.
pub fn rest_extract_response_item_checked(res: &RestResponse, item_name: &str) -> (r: Option<Result<String, RestError>>)
    ensures
        r is None <==> !response_item_defined(res, item_name@),
        r matches Some(x) ==> (is_success(res.status) ==> match x {
            Ok(s) => valid_utf8(res.body@) && json_member_string(decode_utf8(res.body@), item_name@) == Some(s@),
            Err(e) => !valid_utf8(res.body@) && e@ == invalid_utf8_error(res.body@),
        }),
        r matches Some(x) ==> (!is_success(res.status) ==> (x matches Err(e) && failed_status_error(e, res.status, res.status_text@))),
        200 <= res.status <= 299 && valid_utf8(res.body@) && json_member_string(decode_utf8(res.body@), item_name@) is Some
            ==> (r matches Some(Ok(s)) && json_member_string(decode_utf8(res.body@), item_name@) == Some(s@)),
        !(200 <= res.status <= 299) ==> (r matches Some(Err(_))),
{
    if 200 <= res.status && res.status <= 299 {
        match decode_utf8_text(res.body.as_slice()) {
            Ok(text) => {
                match json_str_member(text.as_str(), item_name) {
                    Some(_) => Some(rest_extract_response_item(res, item_name)),
                    None => None,
                }
            },
            Err(_) => Some(rest_extract_response_item(res, item_name)),
        }
    } else {
        Some(rest_extract_response_item(res, item_name))
    }
}

/// A member value of a JSON object, as the item decoding reads it: the text
/// of a JSON string, or the compact JSON text of any other value.
pub enum JsonField {
    Text(String),
    Encoded(String),
}

/// A JSON object: its members by name.
pub struct JsonObject {
    pub members: StrMap<JsonField>,
}

/// An element of a JSON array: an object, or anything else (with its debug
/// text).
pub enum JsonElement {
    Object(JsonObject),
    Other(String),
}

/// A parsed JSON response body, as far as the item decoding reads it.
pub enum JsonBody {
    /// A JSON string, with its text.
    Text(String),
    Object(JsonObject),
    Array(Vec<JsonElement>),
    /// Any other value (null, a boolean, a number), with its debug text.
    Other(String),
}

/// A member value as plain values.
pub enum JsonFieldView {
    Text(Seq<char>),
    Encoded(Seq<char>),
}

impl View for JsonField {
    type V = JsonFieldView;

    open spec fn view(&self) -> JsonFieldView {
        match self {
            JsonField::Text(s) => JsonFieldView::Text(s@),
            JsonField::Encoded(t) => JsonFieldView::Encoded(t@),
        }
    }
}

/// The members of an object as plain values.
pub open spec fn members_view(o: JsonObject) -> Map<Seq<char>, JsonFieldView> {
    o.members@.map_values(|f: JsonField| f@)
}

/// An array element as plain values: an object's members, or a debug text.
pub enum JsonElementView {
    Object(Map<Seq<char>, JsonFieldView>),
    Other(Seq<char>),
}

impl View for JsonElement {
    type V = JsonElementView;

    open spec fn view(&self) -> JsonElementView {
        match self {
            JsonElement::Object(o) => JsonElementView::Object(members_view(*o)),
            JsonElement::Other(d) => JsonElementView::Other(d@),
        }
    }
}

/// A parsed body as plain values.
pub enum JsonBodyView {
    Text(Seq<char>),
    Object(Map<Seq<char>, JsonFieldView>),
    Array(Seq<JsonElementView>),
    Other(Seq<char>),
}

impl View for JsonBody {
    type V = JsonBodyView;

    open spec fn view(&self) -> JsonBodyView {
        match self {
            JsonBody::Text(s) => JsonBodyView::Text(s@),
            JsonBody::Object(o) => JsonBodyView::Object(members_view(*o)),
            JsonBody::Array(a) => JsonBodyView::Array(a@.map_values(|e: JsonElement| e@)),
            JsonBody::Other(d) => JsonBodyView::Other(d@),
        }
    }
}

/// A parse outcome as plain values.
pub open spec fn parsed_view(r: Result<JsonBody, String>) -> Result<JsonBodyView, Seq<char>> {
    match r {
        Ok(b) => Ok(b@),
        Err(m) => Err(m@),
    }
}

/// The outer shape of a JSON text: a string's text, or the debug text of
/// an object (`serde_json::Map`), of an array (`Vec<serde_json::Value>`) or
/// of any other value.
pub enum JsonTop {
    Text(String),
    Object(String),
    Array(String),
    Other(String),
}

/// The outer shape of a JSON text as plain values.
pub enum JsonTopView {
    Text(Seq<char>),
    Object(Seq<char>),
    Array(Seq<char>),
    Other(Seq<char>),
}

impl View for JsonTop {
    type V = JsonTopView;

    open spec fn view(&self) -> JsonTopView {
        match self {
            JsonTop::Text(s) => JsonTopView::Text(s@),
            JsonTop::Object(d) => JsonTopView::Object(d@),
            JsonTop::Array(d) => JsonTopView::Array(d@),
            JsonTop::Other(d) => JsonTopView::Other(d@),
        }
    }
}

/// What `serde_json::from_str` into a `serde_json::Value` makes of a text,
/// by its outer shape (a string by its text, anything else by its debug
/// text), or the debug text of the parse error.
pub uninterp spec fn parsed_json_top(text: Seq<char>) -> Result<JsonTopView, Seq<char>>;

/// The text parses as a JSON object.
pub open spec fn top_is_object(text: Seq<char>) -> bool {
    parsed_json_top(text) matches Ok(JsonTopView::Object(_))
}

/// The text parses as a JSON array.
pub open spec fn top_is_array(text: Seq<char>) -> bool {
    parsed_json_top(text) matches Ok(JsonTopView::Array(_))
}

/// Calls `serde_json::from_str` into a `serde_json::Value` and tells its
/// variants apart.
#[verifier::external_body]
pub(crate) fn parse_json_top(text: &str) -> (r: Result<JsonTop, String>)
    ensures
        parsed_json_top(text@) == match r {
            Ok(t) => Ok::<JsonTopView, Seq<char>>(t@),
            Err(m) => Err::<JsonTopView, Seq<char>>(m@),
        },
{
    match serde_json::from_str::<Value>(text) {
        Ok(Value::String(s)) => Ok(JsonTop::Text(s)),
        Ok(Value::Object(o)) => Ok(JsonTop::Object(format!("{:?}", o))),
        Ok(Value::Array(a)) => Ok(JsonTop::Array(format!("{:?}", a))),
        Ok(v) => Ok(JsonTop::Other(format!("{:?}", v))),
        Err(e) => Err(format!("{:?}", e)),
    }
}

/// What `serde_json::from_str` into a `serde_json::Map<String, Value>`
/// makes of a JSON object text: its members, a string member by its text and
/// any other by its compact JSON text (`to_string`); `None` where the text
/// is not a JSON object.
pub uninterp spec fn parsed_json_members(text: Seq<char>) -> Option<Map<Seq<char>, JsonFieldView>>;

/// Calls `serde_json::from_str` into a `serde_json::Map<String, Value>` (a
/// map, so its keys are distinct) and converts each member. A text that
/// parses as an object parses as such a map.
#[verifier::external_body]
pub(crate) fn parse_json_members(text: &str) -> (r: Option<JsonObject>)
    ensures
        parsed_json_members(text@) == match r {
            Some(o) => Some(members_view(o)),
            None => None::<Map<Seq<char>, JsonFieldView>>,
        },
        r matches Some(o) ==> o.members.wf(),
        match r {
            Some(_) => true,
            None => !top_is_object(text@),
        },
{
    match serde_json::from_str::<serde_json::Map<String, Value>>(text) {
        Ok(o) => Some(JsonObject { members: StrMap { entries: o.into_iter().map(|(k, v)| (k, match v {
            Value::String(s) => JsonField::Text(s),
            v => JsonField::Encoded(v.to_string()),
        })).collect() } }),
        Err(_) => None,
    }
}

/// What `serde_json::from_str` into a `Vec<serde_json::Value>` makes of a
/// JSON array text: each element, an object by its compact JSON text
/// (`to_string`) and anything else by its debug text; `None` where the text
/// is not a JSON array.
pub uninterp spec fn parsed_json_elements(text: Seq<char>) -> Option<Seq<Result<Seq<char>, Seq<char>>>>;

/// Calls `serde_json::from_str` into a `Vec<serde_json::Value>` and
/// converts each element. A text that parses as an array parses as such a
/// vector, and an object's compact text parses back as an object.
#[verifier::external_body]
pub(crate) fn parse_json_elements(text: &str) -> (r: Option<Vec<Result<String, String>>>)
    ensures
        parsed_json_elements(text@) == match r {
            Some(v) => Some(v@.map_values(|e: Result<String, String>| match e {
                Ok(t) => Ok::<Seq<char>, Seq<char>>(t@),
                Err(d) => Err::<Seq<char>, Seq<char>>(d@),
            })),
            None => None::<Seq<Result<Seq<char>, Seq<char>>>>,
        },
        match r {
            Some(_) => true,
            None => !top_is_array(text@),
        },
        r matches Some(v) ==> forall|i: int| 0 <= i < v@.len() ==> (#[trigger] v@[i] matches Ok(t) ==> top_is_object(t@)),
{
    match serde_json::from_str::<Vec<Value>>(text) {
        Ok(a) => Some(a.into_iter().map(|e| match e {
            Value::Object(o) => Ok(Value::Object(o).to_string()),
            e => Err(format!("{:?}", e)),
        }).collect()),
        Err(_) => None,
    }
}

/// An array element as plain values, from its parse: an object's members,
/// or its debug text.
pub open spec fn element_view(e: Result<Seq<char>, Seq<char>>) -> JsonElementView {
    match e {
        Ok(t) => JsonElementView::Object(parsed_json_members(t)->0),
        Err(d) => JsonElementView::Other(d),
    }
}

/// What `serde_json` makes of a response body, as far as the item decoding
/// reads it: a string's text; an object's members; an array's elements,
/// each an object's members or a debug text; the debug text of any other
/// value; or the debug text of the parse error.
pub open spec fn parsed_json_body(text: Seq<char>) -> Result<JsonBodyView, Seq<char>> {
    match parsed_json_top(text) {
        Err(e) => Err(e),
        Ok(JsonTopView::Text(s)) => Ok(JsonBodyView::Text(s)),
        Ok(JsonTopView::Other(d)) => Ok(JsonBodyView::Other(d)),
        Ok(JsonTopView::Object(_)) => Ok(JsonBodyView::Object(parsed_json_members(text)->0)),
        Ok(JsonTopView::Array(_)) => Ok(JsonBodyView::Array(parsed_json_elements(text)->0.map_values(|e: Result<Seq<char>, Seq<char>>| element_view(e)))),
    }
}

/// Reads a response body as JSON into the library's view of it.
pub(crate) fn parse_json_body(text: &str) -> (r: Result<JsonBody, String>)
    ensures
        parsed_view(r) == parsed_json_body(text@),
        r matches Ok(b) ==> body_wf(b),
{
    match parse_json_top(text) {
        Err(e) => Err(e),
        Ok(JsonTop::Text(s)) => Ok(JsonBody::Text(s)),
        Ok(JsonTop::Other(d)) => Ok(JsonBody::Other(d)),
        Ok(JsonTop::Object(_)) => match parse_json_members(text) {
            Some(o) => Ok(JsonBody::Object(o)),
            None => Err(String::new()),
        },
        Ok(JsonTop::Array(_)) => match parse_json_elements(text) {
            Some(es) => {
                let ghost ev = parsed_json_elements(text@)->0;
                let mut out: Vec<JsonElement> = Vec::new();
                let mut i: usize = 0;
                while i < es.len()
                    invariant
                        i <= es@.len(),
                        ev.len() == es@.len(),
                        forall|j: int| 0 <= j < es@.len() ==> #[trigger] ev[j] == match es@[j] {
                            Ok(t) => Ok::<Seq<char>, Seq<char>>(t@),
                            Err(d) => Err::<Seq<char>, Seq<char>>(d@),
                        },
                        forall|j: int| 0 <= j < es@.len() ==> (#[trigger] es@[j] matches Ok(t)
                            ==> top_is_object(t@)),
                        out@.len() == i,
                        forall|j: int| 0 <= j < i ==> (#[trigger] out@[j])@ == element_view(ev[j]),
                        forall|j: int| 0 <= j < i ==> (#[trigger] out@[j] matches JsonElement::Object(o) ==> o.members.wf()),
                    decreases es@.len() - i,
                {
                    match &es[i] {
                        Ok(t) => {
                            match parse_json_members(t.as_str()) {
                                Some(o) => out.push(JsonElement::Object(o)),
                                None => out.push(JsonElement::Other(String::new())),
                            }
                        },
                        Err(d) => out.push(JsonElement::Other(d.clone())),
                    }
                    i = i + 1;
                }
                proof {
                    assert(out@.map_values(|e: JsonElement| e@) =~= ev.map_values(|e: Result<Seq<char>, Seq<char>>| element_view(e)));
                }
                Ok(JsonBody::Array(out))
            },
            None => Err(String::new()),
        },
    }
}


/// The string a member value stands for in a decoded item.
pub open spec fn field_text(f: JsonField) -> Seq<char> {
    match f {
        JsonField::Text(s) => s@,
        JsonField::Encoded(t) => t@,
    }
}

/// The item an object decodes to: the members named in `keys`, each with its
/// text.
pub open spec fn object_item(o: JsonObject, keys: Seq<Seq<char>>) -> Map<Seq<char>, Seq<char>> {
    Map::new(
        |k: Seq<char>| keys.contains(k) && o.members@.contains_key(k),
        |k: Seq<char>| field_text(o.members@[k]),
    )
}

/// The key names as text.
pub open spec fn keys_view(keys: Seq<String>) -> Seq<Seq<char>> {
    keys.map_values(|k: String| k@)
}

fn field_string(f: &JsonField) -> (r: String)
    ensures
        r@ == field_text(*f),
{
    match f {
        JsonField::Text(s) => s.clone(),
        JsonField::Encoded(t) => t.clone(),
    }
}

proof fn lemma_object_item_step(obj: JsonObject, kv: Seq<Seq<char>>, i: int)
    requires
        0 <= i < kv.len(),
    ensures
        object_item(obj, kv.take(i + 1)) == (if obj.members@.contains_key(kv[i]) {
            object_item(obj, kv.take(i)).insert(kv[i], field_text(obj.members@[kv[i]]))
        } else {
            object_item(obj, kv.take(i))
        }),
{
    let ki = kv[i];
    assert forall|k: Seq<char>| kv.take(i + 1).contains(k) <==> (kv.take(i).contains(k) || k == ki) by {
        if kv.take(i + 1).contains(k) {
            let j = choose|j: int| 0 <= j < i + 1 && #[trigger] kv.take(i + 1)[j] == k;
            if j < i {
                assert(kv.take(i)[j] == k);
            }
        }
        if kv.take(i).contains(k) {
            let j = choose|j: int| 0 <= j < i && #[trigger] kv.take(i)[j] == k;
            assert(kv.take(i + 1)[j] == k);
        }
        if k == ki {
            assert(kv.take(i + 1)[i] == k);
        }
    }
    let a = object_item(obj, kv.take(i + 1));
    let b = object_item(obj, kv.take(i));
    assert forall|k: Seq<char>| #[trigger] a.contains_key(k) <==> (kv.take(i + 1).contains(k) && obj.members@.contains_key(k)) by {}
    assert forall|k: Seq<char>| #[trigger] b.contains_key(k) <==> (kv.take(i).contains(k) && obj.members@.contains_key(k)) by {}
    if obj.members@.contains_key(ki) {
        let c = b.insert(ki, field_text(obj.members@[ki]));
        assert forall|k: Seq<char>| #[trigger] a.contains_key(k) <==> c.contains_key(k) by {
            assert(kv.take(i + 1).contains(k) <==> (kv.take(i).contains(k) || k == ki));
        }
        assert forall|k: Seq<char>| a.contains_key(k) implies #[trigger] a[k] == c[k] by {}
        assert(a =~= c);
    } else {
        assert forall|k: Seq<char>| #[trigger] a.contains_key(k) <==> b.contains_key(k) by {
            assert(kv.take(i + 1).contains(k) <==> (kv.take(i).contains(k) || k == ki));
        }
        assert(a =~= b);
    }
}

/// The members of `obj` named in `keys`, each with its text.
pub fn object_as_hashmap(obj: &JsonObject, keys: &Vec<String>) -> (r: StrMap<String>)
    requires
        obj.members.wf(),
    ensures
        r.wf(),
        r@.map_values(|v: String| v@) == object_item(*obj, keys_view(keys@)),
{
    let mut hm: StrMap<String> = StrMap::new();
    let ghost kv = keys_view(keys@);
    let mut i: usize = 0;
    while i < keys.len()
        invariant
            i <= keys@.len(),
            obj.members.wf(),
            hm.wf(),
            kv == keys_view(keys@),
            hm@.map_values(|v: String| v@) == object_item(*obj, kv.take(i as int)),
        decreases keys@.len() - i,
    {
        let ghost before = hm@;
        let ghost ki = keys@[i as int]@;
        proof {
            lemma_object_item_step(*obj, kv, i as int);
            assert(kv[i as int] == ki);
        }
        match obj.members.get(keys[i].as_str()) {
            Some(v) => {
                let sv = field_string(v);
                let kc = keys[i].clone();
                assert(kc@ == ki);
                hm.insert(kc, sv);
                assert(hm@.map_values(|v: String| v@) =~= before.map_values(|v: String| v@).insert(ki, field_text(obj.members@[ki])));
            },
            None => {
                assert(!obj.members@.contains_key(ki));
            },
        }
        i = i + 1;
    }
    proof {
        assert(kv.take(keys@.len() as int) =~= kv);
    }
    hm
}

/// The index of the first element of `a` that is not an object, if any.
pub open spec fn first_non_object(a: Seq<JsonElement>) -> Option<int> {
    if exists|i: int| 0 <= i < a.len() && #[trigger] a[i] is Other {
        Some(choose|i: int| 0 <= i < a.len() && #[trigger] a[i] is Other && forall|j: int| 0 <= j < i ==> !(#[trigger] a[j] is Other))
    } else {
        None
    }
}

/// Every object in the body has well-formed members.
pub open spec fn body_wf(b: JsonBody) -> bool {
    match b {
        JsonBody::Object(o) => o.members.wf(),
        JsonBody::Array(a) => forall|i: int| 0 <= i < a@.len() ==> (#[trigger] a@[i] matches JsonElement::Object(o) ==> o.members.wf()),
        _ => true,
    }
}

/// The error text of a format error, and whether `e` is that error.
pub open spec fn format_error(e: RestError, msg: Seq<char>) -> bool {
    e matches RestError::RestResponseFormatError(m) && m@ == msg
}

/// What decoding a parsed body into items gives: the objects' items, or the
/// format error with its message.
pub open spec fn body_items_spec(body: Result<JsonBody, String>, keys: Seq<Seq<char>>, r: Result<Vec<StrMap<String>>, RestError>) -> bool {
    match body {
        Err(e) => r matches Err(x) && format_error(x, "Expecting a json object or array "@ + e@),
        Ok(JsonBody::Text(s)) => r matches Err(x) && format_error(x, "Expecting an object or array but got a string "@ + s@),
        Ok(JsonBody::Other(d)) => r matches Err(x) && format_error(x, "Expecting an array of objects "@ + d@),
        Ok(JsonBody::Object(o)) => r matches Ok(v) && v@.len() == 1 && v@[0].wf()
            && v@[0]@.map_values(|s: String| s@) == object_item(o, keys),
        Ok(JsonBody::Array(a)) => match first_non_object(a@) {
            Some(i) => r matches Err(x) && (a@[i] matches JsonElement::Other(d) && format_error(x, "Expecting an array of objects "@ + d@)),
            None => r matches Ok(v) && v@.len() == a@.len() && forall|j: int| 0 <= j < v@.len() ==>
                (#[trigger] v@[j]).wf() && (a@[j] matches JsonElement::Object(o) && v@[j]@.map_values(|s: String| s@) == object_item(o, keys)),
        },
    }
}

fn format_err(prefix: &str, what: &String) -> (e: RestError)
    ensures
        format_error(e, prefix@ + what@),
{
    let mut m = String::from_str(prefix);
    m.append(what.as_str());
    RestError::RestResponseFormatError(m)
}

/// Decodes a parsed response body into items: an object gives one item, an
/// array of objects one per element; each item holds the members named in
/// `keys`. Anything else is a format error.
pub fn parsed_body_as_vec(body: &Result<JsonBody, String>, keys: &Vec<String>) -> (r: Result<Vec<StrMap<String>>, RestError>)
    requires
        *body matches Ok(b) ==> body_wf(b),
    ensures
        body_items_spec(*body, keys_view(keys@), r),
{
    let mut r_values: Vec<StrMap<String>> = Vec::new();
    match body {
        Err(e) => {
            return Err(format_err("Expecting a json object or array ", e));
        },
        Ok(JsonBody::Text(s)) => {
            return Err(format_err("Expecting an object or array but got a string ", s));
        },
        Ok(JsonBody::Other(d)) => {
            return Err(format_err("Expecting an array of objects ", d));
        },
        Ok(JsonBody::Object(o)) => {
            let om = object_as_hashmap(o, keys);
            r_values.push(om);
        },
        Ok(JsonBody::Array(a)) => {
            let mut i: usize = 0;
            while i < a.len()
                invariant
                    i <= a@.len(),
                    *body == Ok::<JsonBody, String>(JsonBody::Array(*a)),
                    body_wf(JsonBody::Array(*a)),
                    r_values@.len() == i,
                    forall|j: int| 0 <= j < i ==> !(#[trigger] a@[j] is Other),
                    forall|j: int| 0 <= j < i ==> (#[trigger] r_values@[j]).wf()
                        && (a@[j] matches JsonElement::Object(o) && r_values@[j]@.map_values(|s: String| s@) == object_item(o, keys_view(keys@))),
                decreases a@.len() - i,
            {
                match &a[i] {
                    JsonElement::Object(o) => {
                        let om = object_as_hashmap(o, keys);
                        r_values.push(om);
                    },
                    JsonElement::Other(d) => {
                        let e = format_err("Expecting an array of objects ", d);
                        proof {
                            assert(a@[i as int] is Other && forall|j: int| 0 <= j < i ==> !(#[trigger] a@[j] is Other));
                            assert(exists|k: int| 0 <= k < a@.len() && #[trigger] a@[k] is Other && forall|j: int| 0 <= j < k ==> !(#[trigger] a@[j] is Other));
                            let k = choose|k: int| 0 <= k < a@.len() && #[trigger] a@[k] is Other && forall|j: int| 0 <= j < k ==> !(#[trigger] a@[j] is Other);
                            if k < i {
                                assert(!(a@[k] is Other));
                            }
                            if k > i {
                                assert(!(a@[i as int] is Other));
                            }
                            assert(first_non_object(a@) == Some(i as int));
                        }
                        return Err(e);
                    },
                }
                i = i + 1;
            }
            proof {
                assert(first_non_object(a@) is None);
            }
        },
    }
    Ok(r_values)
}

/// The items a parsed body decodes to, or `None` where decoding fails.
pub open spec fn decoded_items(body: Result<JsonBody, String>, keys: Seq<Seq<char>>) -> Option<Seq<Map<Seq<char>, Seq<char>>>> {
    match body {
        Ok(JsonBody::Object(o)) => Some(seq![object_item(o, keys)]),
        Ok(JsonBody::Array(a)) => if first_non_object(a@) is None {
            Some(Seq::new(a@.len(), |j: int| match a@[j] {
                JsonElement::Object(o) => object_item(o, keys),
                JsonElement::Other(_) => Map::empty(),
            }))
        } else {
            None
        },
        _ => None,
    }
}

/// The text view of a decoded item.
pub open spec fn item_text(m: StrMap<String>) -> Map<Seq<char>, Seq<char>> {
    m@.map_values(|v: String| v@)
}

/// Decoding succeeds exactly where `decoded_items` says, with those items.
pub proof fn lemma_body_items_decoded(body: Result<JsonBody, String>, keys: Seq<Seq<char>>, r: Result<Vec<StrMap<String>>, RestError>)
    requires
        body_items_spec(body, keys, r),
    ensures
        r is Ok <==> decoded_items(body, keys) is Some,
        r matches Ok(v) ==> (v@.len() == decoded_items(body, keys)->0.len() && forall|j: int| 0 <= j < v@.len() ==>
            (#[trigger] v@[j]).wf() && item_text(v@[j]) == decoded_items(body, keys)->0[j]),
{
    match body {
        Ok(JsonBody::Array(a)) => {
            if first_non_object(a@) is None {
                assert forall|j: int| 0 <= j < a@.len() implies #[trigger] a@[j] is Object by {
                    if a@[j] is Other {
                        assert(exists|i: int| 0 <= i < a@.len() && #[trigger] a@[i] is Other);
                    }
                }
            }
        },
        _ => {},
    }
}

/// The string a member value stands for, as plain values.
pub open spec fn field_view_text(f: JsonFieldView) -> Seq<char> {
    match f {
        JsonFieldView::Text(s) => s,
        JsonFieldView::Encoded(t) => t,
    }
}

/// The item the members of an object decode to: those named in `keys`,
/// each with its text.
pub open spec fn members_item(m: Map<Seq<char>, JsonFieldView>, keys: Seq<Seq<char>>) -> Map<Seq<char>, Seq<char>> {
    Map::new(|k: Seq<char>| keys.contains(k) && m.contains_key(k), |k: Seq<char>| field_view_text(m[k]))
}

/// The index of the first element that is not an object, if any.
pub open spec fn first_non_object_view(a: Seq<JsonElementView>) -> Option<int> {
    if exists|i: int| 0 <= i < a.len() && #[trigger] a[i] is Other {
        Some(choose|i: int| 0 <= i < a.len() && #[trigger] a[i] is Other && forall|j: int| 0 <= j < i ==> !(#[trigger] a[j] is Other))
    } else {
        None
    }
}

/// The message of the format error for a body (as plain values) that does
/// not decode to items.
pub open spec fn body_format_message(body: Result<JsonBodyView, Seq<char>>) -> Seq<char> {
    match body {
        Err(e) => "Expecting a json object or array "@ + e,
        Ok(JsonBodyView::Text(s)) => "Expecting an object or array but got a string "@ + s,
        Ok(JsonBodyView::Array(a)) => "Expecting an array of objects "@ + a[first_non_object_view(a)->0]->Other_0,
        Ok(JsonBodyView::Other(d)) => "Expecting an array of objects "@ + d,
        Ok(JsonBodyView::Object(_)) => Seq::empty(),
    }
}

/// What decoding a parsed body (as plain values) into items gives: the
/// items `decoded_view_items` lists, or the format error with its message.
pub open spec fn body_view_items_spec(body: Result<JsonBodyView, Seq<char>>, keys: Seq<Seq<char>>, r: Result<Vec<StrMap<String>>, RestError>) -> bool {
    match decoded_view_items(body, keys) {
        Some(items) => r matches Ok(v) && v@.len() == items.len() && forall|j: int| 0 <= j < v@.len() ==>
            (#[trigger] v@[j]).wf() && item_text(v@[j]) == items[j],
        None => r matches Err(x) && format_error(x, body_format_message(body)),
    }
}

/// The items a parsed body (as plain values) decodes to, or `None` where
/// decoding fails.
pub open spec fn decoded_view_items(body: Result<JsonBodyView, Seq<char>>, keys: Seq<Seq<char>>) -> Option<Seq<Map<Seq<char>, Seq<char>>>> {
    match body {
        Ok(JsonBodyView::Object(m)) => Some(seq![members_item(m, keys)]),
        Ok(JsonBodyView::Array(a)) => if first_non_object_view(a) is None {
            Some(Seq::new(a.len(), |j: int| match a[j] {
                JsonElementView::Object(m) => members_item(m, keys),
                JsonElementView::Other(_) => Map::empty(),
            }))
        } else {
            None
        },
        _ => None,
    }
}

proof fn lemma_object_item_view(o: JsonObject, keys: Seq<Seq<char>>)
    ensures
        object_item(o, keys) == members_item(members_view(o), keys),
{
    assert(object_item(o, keys) =~= members_item(members_view(o), keys));
}

proof fn lemma_first_non_object_view(a: Seq<JsonElement>)
    ensures
        first_non_object(a) == first_non_object_view(a.map_values(|e: JsonElement| e@)),
{
    let v = a.map_values(|e: JsonElement| e@);
    assert forall|i: int| 0 <= i < a.len() implies (#[trigger] a[i] is Other) == (v[i] is Other) by {
        assert(v[i] == a[i]@);
    }
    if exists|i: int| 0 <= i < a.len() && #[trigger] a[i] is Other {
        let i0 = choose|i: int| 0 <= i < a.len() && #[trigger] a[i] is Other;
        assert(v[i0] is Other);
        assert(exists|i: int| 0 <= i < v.len() && #[trigger] v[i] is Other);
        let k1 = first_non_object(a)->0;
        let k2 = first_non_object_view(v)->0;
        // both are the first element that is not an object
        assert(exists|k: int| 0 <= k < a.len() && #[trigger] a[k] is Other && forall|j: int| 0 <= j < k ==> !(#[trigger] a[j] is Other)) by {
            lemma_first_other_exists(a, i0);
        }
        assert(exists|k: int| 0 <= k < v.len() && #[trigger] v[k] is Other && forall|j: int| 0 <= j < k ==> !(#[trigger] v[j] is Other)) by {
            lemma_first_other_exists(a, i0);
            let k = choose|k: int| 0 <= k < a.len() && #[trigger] a[k] is Other && forall|j: int| 0 <= j < k ==> !(#[trigger] a[j] is Other);
            assert(v[k] is Other);
            assert forall|j: int| 0 <= j < k implies !(#[trigger] v[j] is Other) by {
                assert(!(a[j] is Other));
            }
        }
        if k1 < k2 {
            assert(a[k1] is Other);
            assert(v[k1] is Other);
        } else if k2 < k1 {
            assert(v[k2] is Other);
            assert(a[k2] is Other);
        }
    } else {
        assert forall|i: int| 0 <= i < v.len() implies !(#[trigger] v[i] is Other) by {
            assert(!(a[i] is Other));
        }
    }
}

proof fn lemma_first_other_exists(a: Seq<JsonElement>, i0: int)
    requires
        0 <= i0 < a.len(),
        a[i0] is Other,
    ensures
        exists|k: int| 0 <= k < a.len() && #[trigger] a[k] is Other && forall|j: int| 0 <= j < k ==> !(#[trigger] a[j] is Other),
    decreases i0,
{
    if exists|j: int| 0 <= j < i0 && #[trigger] a[j] is Other {
        let j = choose|j: int| 0 <= j < i0 && #[trigger] a[j] is Other;
        lemma_first_other_exists(a, j);
    } else {
        assert(forall|j: int| 0 <= j < i0 ==> !(#[trigger] a[j] is Other));
    }
}

/// The first element of an array that is not an object is the first of its
/// view.
proof fn lemma_first_view_is(a: Seq<JsonElement>, k: int)
    requires
        0 <= k < a.len(),
        a[k] is Other,
        forall|j: int| 0 <= j < k ==> !(#[trigger] a[j] is Other),
    ensures
        first_non_object_view(a.map_values(|e: JsonElement| e@)) == Some(k),
{
    let v = a.map_values(|e: JsonElement| e@);
    assert(v[k] == a[k]@);
    assert(v[k] is Other);
    let c = choose|i: int| 0 <= i < v.len() && #[trigger] v[i] is Other && forall|j: int| 0 <= j < i ==> !(#[trigger] v[j] is Other);
    assert(exists|i: int| 0 <= i < v.len() && #[trigger] v[i] is Other && forall|j: int| 0 <= j < i ==> !(#[trigger] v[j] is Other)) by {
        assert forall|j: int| 0 <= j < k implies !(#[trigger] v[j] is Other) by {
            assert(v[j] == a[j]@);
        }
    }
    if c < k {
        assert(v[c] == a[c]@);
    }
}

proof fn lemma_first_non_object_is(a: Seq<JsonElement>, i: int)
    requires
        first_non_object(a) == Some(i),
    ensures
        0 <= i < a.len(),
        a[i] is Other,
        forall|j: int| 0 <= j < i ==> !(#[trigger] a[j] is Other),
{
    let w = choose|w: int| 0 <= w < a.len() && #[trigger] a[w] is Other;
    lemma_first_other_exists(a, w);
}

proof fn lemma_array_items_view(a: Vec<JsonElement>, i: int, x: RestError)
    requires
        first_non_object(a@) == Some(i),
        a@[i] matches JsonElement::Other(d) && format_error(x, "Expecting an array of objects "@ + d@),
    ensures
        format_error(x, body_format_message(Ok(JsonBodyView::Array(a@.map_values(|e: JsonElement| e@))))),
{
    lemma_first_non_object_is(a@, i);
    lemma_first_view_is(a@, i);
    assert(a@.map_values(|e: JsonElement| e@)[i] == a@[i]@);
}

proof fn lemma_array_decoded_view(a: Vec<JsonElement>, keys: Seq<Seq<char>>)
    ensures
        decoded_items(Ok(JsonBody::Array(a)), keys)
            == decoded_view_items(Ok(JsonBodyView::Array(a@.map_values(|e: JsonElement| e@))), keys),
{
    let v = a@.map_values(|e: JsonElement| e@);
    lemma_first_non_object_view(a@);
    if first_non_object(a@) is None {
        let d1 = decoded_items(Ok(JsonBody::Array(a)), keys)->0;
        let d2 = decoded_view_items(Ok(JsonBodyView::Array(v)), keys)->0;
        assert forall|j: int| 0 <= j < d1.len() implies #[trigger] d1[j] == d2[j] by {
            assert(v[j] == a@[j]@);
            if let JsonElement::Object(o) = a@[j] {
                lemma_object_item_view(o, keys);
            }
        }
        assert(d1 =~= d2);
    }
}

/// What the decoding of a parsed body says, said of the body as plain
/// values.
proof fn lemma_body_items_view(body: Result<JsonBody, String>, keys: Seq<Seq<char>>, r: Result<Vec<StrMap<String>>, RestError>)
    requires
        body_items_spec(body, keys, r),
    ensures
        body_view_items_spec(parsed_view(body), keys, r),
        decoded_items(body, keys) == decoded_view_items(parsed_view(body), keys),
{
    lemma_body_items_decoded(body, keys, r);
    match body {
        Ok(JsonBody::Object(o)) => {
            lemma_object_item_view(o, keys);
            assert(decoded_items(body, keys)->0 =~= decoded_view_items(parsed_view(body), keys)->0);
        },
        Ok(JsonBody::Array(a)) => {
            lemma_array_decoded_view(a, keys);
            if first_non_object(a@) is Some {
                lemma_array_items_view(a, first_non_object(a@)->0, r->Err_0);
            }
        },
        _ => {},
    }
}

/// Decodes a response body into items: the text is read as JSON; an object
/// gives one item, an array of objects one per element; each item holds the
/// members named in `keys`. Anything else is a format error.
pub fn body_as_vec(body: &str, keys: &Vec<String>) -> (r: Result<Vec<StrMap<String>>, RestError>)
    ensures
        body_view_items_spec(parsed_json_body(body@), keys_view(keys@), r),
{
    let parsed = parse_json_body(body);
    let r = parsed_body_as_vec(&parsed, keys);
    proof {
        lemma_body_items_view(parsed, keys_view(keys@), r);
    }
    r
}

/// Decoding succeeds exactly where `decoded_view_items` says, with those
/// items.
pub proof fn lemma_body_view_items_decoded(body: Result<JsonBodyView, Seq<char>>, keys: Seq<Seq<char>>, r: Result<Vec<StrMap<String>>, RestError>)
    requires
        body_view_items_spec(body, keys, r),
    ensures
        r is Ok <==> decoded_view_items(body, keys) is Some,
        r matches Ok(v) ==> (v@.len() == decoded_view_items(body, keys)->0.len() && forall|j: int| 0 <= j < v@.len() ==>
            (#[trigger] v@[j]).wf() && item_text(v@[j]) == decoded_view_items(body, keys)->0[j]),
{
    match body {
        Ok(JsonBodyView::Array(a)) => {
            if first_non_object_view(a) is None {
                assert forall|j: int| 0 <= j < a.len() implies #[trigger] a[j] is Object by {
                    if a[j] is Other {
                        assert(exists|i: int| 0 <= i < a.len() && #[trigger] a[i] is Other);
                    }
                }
            }
        },
        _ => {},
    }
}

} // verus!
