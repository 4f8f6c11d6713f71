//! The report that the REST client prints of a response body: the body, then
//! what it holds by its JSON shape, and for an array of items the fields of
//! each item.

use vstd::prelude::*;
use crate::errors::debug_quote;
use crate::errors::debug_quoted;
use crate::proxy::parse_json_elements;
use crate::proxy::parse_json_members;
use crate::proxy::parse_json_top;
use crate::proxy::parsed_json_elements;
use crate::proxy::parsed_json_members;
use crate::proxy::parsed_json_top;
use crate::proxy::members_view;
use crate::proxy::JsonField;
use crate::proxy::JsonFieldView;
use crate::proxy::JsonObject;
use crate::proxy::JsonTop;
use crate::proxy::JsonTopView;
use crate::tags::texts_view;

verus! {

/// The digit character of `d` (below ten).
pub open spec fn digit_char(d: nat) -> char {
    if d == 0 {
        '0'
    } else if d == 1 {
        '1'
    } else if d == 2 {
        '2'
    } else if d == 3 {
        '3'
    } else if d == 4 {
        '4'
    } else if d == 5 {
        '5'
    } else if d == 6 {
        '6'
    } else if d == 7 {
        '7'
    } else if d == 8 {
        '8'
    } else {
        '9'
    }
}

/// The decimal text of a number, without leading zeros.
pub open spec fn decimal_digits(n: nat) -> Seq<char>
    decreases n,
{
    if n < 10 {
        seq![digit_char(n)]
    } else {
        decimal_digits(n / 10).push(digit_char(n % 10))
    }
}

fn digit_text(d: usize) -> (r: &'static str)
    requires
        d < 10,
    ensures
        r@ == seq![digit_char(d as nat)],
{
    proof {
        reveal_strlit("0");
        reveal_strlit("1");
        reveal_strlit("2");
        reveal_strlit("3");
        reveal_strlit("4");
        reveal_strlit("5");
        reveal_strlit("6");
        reveal_strlit("7");
        reveal_strlit("8");
        reveal_strlit("9");
    }
    if d == 0 {
        "0"
    } else if d == 1 {
        "1"
    } else if d == 2 {
        "2"
    } else if d == 3 {
        "3"
    } else if d == 4 {
        "4"
    } else if d == 5 {
        "5"
    } else if d == 6 {
        "6"
    } else if d == 7 {
        "7"
    } else if d == 8 {
        "8"
    } else {
        "9"
    }
}

/// Writes a number in decimal.
pub fn decimal_text(n: usize) -> (r: String)
    ensures
        r@ == decimal_digits(n as nat),
    decreases n,
{
    if n < 10 {
        String::from_str(digit_text(n))
    } else {
        let mut s = decimal_text(n / 10);
        s.append(digit_text(n % 10));
        s
    }
}

/// The JSON string literal (quoted and escaped) that `serde_json` writes
/// for a text.
pub uninterp spec fn json_string_text(s: Seq<char>) -> Seq<char>;

/// Calls `serde_json::to_string` on a string slice, which cannot fail.
#[verifier::external_body]
fn json_quote(s: &str) -> (r: String)
    ensures
        r@ == json_string_text(s@),
{
    serde_json::to_string(s).unwrap()
}

/// The JSON text of a member value as `serde_json` displays it: a string
/// as its literal, anything else as its compact text.
pub open spec fn field_display(f: JsonFieldView) -> Seq<char> {
    match f {
        JsonFieldView::Text(s) => json_string_text(s),
        JsonFieldView::Encoded(t) => t,
    }
}

/// The line of a named field of an item: its name, a space and its JSON
/// text.
pub open spec fn field_line(m: Map<Seq<char>, JsonFieldView>, k: Seq<char>) -> Seq<char> {
    k + " "@ + field_display(m[k])
}

/// The item has every field that the report prints.
pub open spec fn has_report_fields(m: Map<Seq<char>, JsonFieldView>) -> bool {
    &&& m.contains_key("wallet_name"@)
    &&& m.contains_key("item_type"@)
    &&& m.contains_key("item_id"@)
    &&& m.contains_key("created"@)
    &&& m.contains_key("id"@)
    &&& m.contains_key("item_value"@)
}

/// The lines of the element at `i` of an array: for an object, that it is
/// one and its named fields; otherwise that it is not.
pub open spec fn element_report(i: nat, e: Result<Seq<char>, Seq<char>>) -> Seq<Seq<char>> {
    match e {
        Ok(t) => {
            let m = parsed_json_members(t)->0;
            seq![
                "a "@ + decimal_digits(i) + " is an object"@,
                field_line(m, "wallet_name"@),
                field_line(m, "item_type"@),
                field_line(m, "item_id"@),
                field_line(m, "created"@),
                field_line(m, "id"@),
                field_line(m, "item_value"@),
            ]
        },
        Err(_) => seq!["a "@ + decimal_digits(i) + " is not an object"@],
    }
}

/// The lines of the elements of an array, in order.
pub open spec fn elements_report(es: Seq<Result<Seq<char>, Seq<char>>>) -> Seq<Seq<char>>
    decreases es.len(),
{
    if es.len() == 0 {
        Seq::empty()
    } else {
        elements_report(es.drop_last()) + element_report((es.len() - 1) as nat, es.last())
    }
}

/// The report of a response body: the body itself, then by its JSON shape
/// the string's debug text, the array's debug text, length and elements,
/// the object's debug text, a note for any other value, or the debug text
/// of the parse error.
pub open spec fn body_report_lines(text: Seq<char>) -> Seq<Seq<char>> {
    seq![text] + match parsed_json_top(text) {
        Err(e) => seq!["Error "@ + e],
        Ok(JsonTopView::Text(s)) => seq!["Got a string "@ + debug_quoted(s)],
        Ok(JsonTopView::Array(d)) => {
            let es = parsed_json_elements(text)->0;
            seq!["Got an array "@ + d, "Array len "@ + decimal_digits(es.len())] + elements_report(es)
        },
        Ok(JsonTopView::Object(d)) => seq!["Got an object "@ + d],
        Ok(JsonTopView::Other(_)) => seq!["Got something else"@],
    }
}

/// The report can be made: every object in an array body has the fields it
/// prints (reading a missing one panics).
pub open spec fn report_defined(text: Seq<char>) -> bool {
    parsed_json_top(text) matches Ok(JsonTopView::Array(_)) ==> forall|i: int|
        0 <= i < parsed_json_elements(text)->0.len() ==> (#[trigger] parsed_json_elements(text)->0[i] matches Ok(t)
            ==> has_report_fields(parsed_json_members(t)->0))
}

fn joined(a: &str, b: &str) -> (r: String)
    ensures
        r@ == a@ + b@,
{
    let mut s = String::from_str(a);
    s.append(b);
    s
}

fn item_field_line(o: &JsonObject, k: &str) -> (r: String)
    requires
        o.members.wf(),
        members_view(*o).contains_key(k@),
    ensures
        r@ == field_line(members_view(*o), k@),
{
    let mut s = joined(k, " ");
    match o.members.get(k) {
        Some(JsonField::Text(v)) => {
            let q = json_quote(v.as_str());
            s.append(q.as_str());
        },
        Some(JsonField::Encoded(t)) => {
            s.append(t.as_str());
        },
        None => {},
    }
    s
}

fn object_has_report_fields(o: &JsonObject) -> (r: bool)
    requires
        o.members.wf(),
    ensures
        r == has_report_fields(members_view(*o)),
{
    o.members.contains_key("wallet_name") && o.members.contains_key("item_type") && o.members.contains_key("item_id")
        && o.members.contains_key("created") && o.members.contains_key("id") && o.members.contains_key("item_value")
}

/// Whether the report can be made of this body (`report_defined`).
pub fn report_decidable(body: &str) -> (r: bool)
    ensures
        r == report_defined(body@),
{
    match parse_json_top(body) {
        Ok(JsonTop::Array(_)) => match parse_json_elements(body) {
            Some(es) => {
                let ghost ev = parsed_json_elements(body@)->0;
                let mut i: usize = 0;
                while i < es.len()
                    invariant
                        i <= es@.len(),
                        ev.len() == es@.len(),
                        forall|j: int| 0 <= j < es@.len() ==> #[trigger] ev[j] == match es@[j] {
                            Ok(t) => Ok::<Seq<char>, Seq<char>>(t@),
                            Err(d) => Err::<Seq<char>, Seq<char>>(d@),
                        },
                        forall|j: int| 0 <= j < i ==> (#[trigger] ev[j] matches Ok(t) ==> has_report_fields(parsed_json_members(t)->0)),
                        forall|j: int| 0 <= j < es@.len() ==> (#[trigger] es@[j] matches Ok(t) ==> crate::proxy::top_is_object(t@)),
                        ev == parsed_json_elements(body@)->0,
                        parsed_json_top(body@) matches Ok(JsonTopView::Array(_)),
                    decreases es@.len() - i,
                {
                    proof {
                        assert(ev[i as int] == match es@[i as int] {
                            Ok(t) => Ok::<Seq<char>, Seq<char>>(t@),
                            Err(d) => Err::<Seq<char>, Seq<char>>(d@),
                        });
                    }
                    if let Ok(t) = &es[i] {
                        match parse_json_members(t.as_str()) {
                            Some(o) => {
                                if !object_has_report_fields(&o) {
                                    proof {
                                        assert(ev[i as int] == Ok::<Seq<char>, Seq<char>>(t@));
                                    }
                                    return false;
                                }
                            },
                            None => {
                                proof {
                                    assert(es@[i as int] matches Ok(tt) ==> crate::proxy::top_is_object(tt@));
                                }
                                return false;
                            },
                        }
                    }
                    i = i + 1;
                }
                true
            },
            None => true,
        },
        _ => true,
    }
}

/// Makes the report of a response body, line by line.
pub fn body_report(body: &str) -> (r: Vec<String>)
    requires
        report_defined(body@),
    ensures
        texts_view(r@) == body_report_lines(body@),
{
    let mut out: Vec<String> = Vec::new();
    out.push(String::from_str(body));
    let ghost head = texts_view(out@);
    match parse_json_top(body) {
        Err(e) => {
            out.push(joined("Error ", e.as_str()));
        },
        Ok(JsonTop::Text(s)) => {
            let q = debug_quote(s.as_str());
            out.push(joined("Got a string ", q.as_str()));
        },
        Ok(JsonTop::Object(d)) => {
            out.push(joined("Got an object ", d.as_str()));
        },
        Ok(JsonTop::Other(_)) => {
            out.push(String::from_str("Got something else"));
        },
        Ok(JsonTop::Array(d)) => {
            out.push(joined("Got an array ", d.as_str()));
            match parse_json_elements(body) {
                Some(es) => {
                    let n = decimal_text(es.len());
                    out.push(joined("Array len ", n.as_str()));
                    let ghost ev = parsed_json_elements(body@)->0;
                    let ghost start = texts_view(out@);
                    let mut i: usize = 0;
                    while i < es.len()
                        invariant
                            i <= es@.len(),
                            ev.len() == es@.len(),
                            ev == parsed_json_elements(body@)->0,
                            report_defined(body@),
                            parsed_json_top(body@) matches Ok(JsonTopView::Array(_)),
                            forall|j: int| 0 <= j < es@.len() ==> #[trigger] ev[j] == match es@[j] {
                                Ok(t) => Ok::<Seq<char>, Seq<char>>(t@),
                                Err(d) => Err::<Seq<char>, Seq<char>>(d@),
                            },
                            forall|j: int| 0 <= j < es@.len() ==> (#[trigger] es@[j] matches Ok(t) ==> crate::proxy::top_is_object(t@)),
                            texts_view(out@) == start + elements_report(ev.take(i as int)),
                        decreases es@.len() - i,
                    {
                        proof {
                            assert(ev.take(i + 1).drop_last() =~= ev.take(i as int));
                            assert(ev.take(i + 1).last() == ev[i as int]);
                            assert(ev[i as int] == match es@[i as int] {
                                Ok(t) => Ok::<Seq<char>, Seq<char>>(t@),
                                Err(d) => Err::<Seq<char>, Seq<char>>(d@),
                            });
                        }
                        let ghost before = texts_view(out@);
                        let idx = decimal_text(i);
                        let a = joined("a ", idx.as_str());
                        match &es[i] {
                            Ok(t) => {
                                match parse_json_members(t.as_str()) {
                                    Some(o) => {
                                        proof {
                                            assert(parsed_json_elements(body@)->0[i as int] == Ok::<Seq<char>, Seq<char>>(t@));
                                            assert(has_report_fields(members_view(o)));
                                        }
                                        out.push(joined(a.as_str(), " is an object"));
                                        out.push(item_field_line(&o, "wallet_name"));
                                        out.push(item_field_line(&o, "item_type"));
                                        out.push(item_field_line(&o, "item_id"));
                                        out.push(item_field_line(&o, "created"));
                                        out.push(item_field_line(&o, "id"));
                                        out.push(item_field_line(&o, "item_value"));
                                        proof {
                                            assert(texts_view(out@) =~= before + element_report(i as nat, ev[i as int]));
                                        }
                                    },
                                    None => {
                                        proof {
                                            assert(false);
                                        }
                                    },
                                }
                            },
                            Err(_) => {
                                out.push(joined(a.as_str(), " is not an object"));
                                proof {
                                    assert(texts_view(out@) =~= before + element_report(i as nat, ev[i as int]));
                                }
                            },
                        }
                        i = i + 1;
                    }
                    proof {
                        assert(ev.take(es@.len() as int) =~= ev);
                    }
                },
                None => {
                    proof {
                        assert(false);
                    }
                },
            }
        },
    }
    proof {
        assert(texts_view(out@) =~= body_report_lines(body@));
    }
    out
}

/// The report of a response body, or `None` where an object in an array
/// body lacks a field that the report prints.
pub fn body_report_checked(body: &str) -> (r: Option<Vec<String>>)
    ensures
        match r {
            Some(v) => report_defined(body@) && texts_view(v@) == body_report_lines(body@),
            None => !report_defined(body@),
        },
{
    if report_decidable(body) {
        Some(body_report(body))
    } else {
        None
    }
}

} // verus!
