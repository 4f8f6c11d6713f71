//! Record tags and their JSON form: a JSON object of strings where an
//! encrypted tag is stored as base64 name to base64 value, and a plain tag
//! as `~` and the base64 name to the plain value.

use vstd::prelude::*;
use crate::errors::WalletStorageError;
use crate::strmap::StrMap;
use crate::strmap::entries_map;

verus! {

/// A tag of a record: encrypted (name and value bytes) or plain (name
/// bytes and text value).
#[derive(Debug)]
pub enum Tag {
    Encrypted(Vec<u8>, Vec<u8>),
    PlainText(Vec<u8>, String),
}

/// A tag as plain values.
pub enum TagView {
    Encrypted(Seq<u8>, Seq<u8>),
    PlainText(Seq<u8>, Seq<char>),
}

impl View for Tag {
    type V = TagView;

    open spec fn view(&self) -> TagView {
        match self {
            Tag::Encrypted(n, v) => TagView::Encrypted(n@, v@),
            Tag::PlainText(n, v) => TagView::PlainText(n@, v@),
        }
    }
}

/// The name of a tag, by its kind.
pub enum TagName {
    OfEncrypted(Vec<u8>),
    OfPlain(Vec<u8>),
}

/// What the `base64` crate encodes the bytes to.
pub uninterp spec fn base64_encoded(bytes: Seq<u8>) -> Seq<char>;

/// What `base64::decode` makes of the text: the bytes, or the text
/// (`to_string`) of its error where the text is not base64.
pub uninterp spec fn base64_decode_result(text: Seq<char>) -> Result<Seq<u8>, Seq<char>>;

/// The bytes the text decodes to, or `None` where it is not base64.
pub open spec fn base64_decoded(text: Seq<char>) -> Option<Seq<u8>> {
    match base64_decode_result(text) {
        Ok(b) => Some(b),
        Err(_) => None,
    }
}

/// The error text of decoding a text that is not base64.
pub open spec fn base64_decode_error(text: Seq<char>) -> Seq<char> {
    match base64_decode_result(text) {
        Ok(_) => Seq::empty(),
        Err(m) => m,
    }
}

/// Calls `base64::encode` (standard alphabet, with padding): the text is
/// made of `A`-`Z`, `a`-`z`, `0`-`9`, `+`, `/` and `=`, so it holds no `~`.
#[verifier::external_body]
fn base64_encode(bytes: &[u8]) -> (r: String)
    ensures
        r@ == base64_encoded(bytes@),
        forall|i: int| 0 <= i < r@.len() ==> r@[i] != '~',
{
    base64::encode(bytes)
}

/// Calls `base64::decode`; on failure hands back the error's text. A text
/// that `base64::encode` wrote decodes to the bytes it was written from.
#[verifier::external_body]
fn base64_decode(text: &str) -> (r: Result<Vec<u8>, String>)
    ensures
        base64_decode_result(text@) == match r {
            Ok(v) => Ok::<Seq<u8>, Seq<char>>(v@),
            Err(m) => Err::<Seq<u8>, Seq<char>>(m@),
        },
        forall|b: Seq<u8>| #[trigger] base64_encoded(b) == text@ ==> match r {
            Ok(v) => v@ == b,
            Err(_) => false,
        },
{
    match base64::decode(text) {
        Ok(v) => Ok(v),
        Err(e) => Err(e.to_string()),
    }
}

/// What `serde_json` writes for the pairs gathered into its JSON object
/// type (`serde_json::Map`, where a later pair with the same key wins): a
/// compact JSON object of strings.
pub uninterp spec fn json_object_written(e: Seq<(Seq<char>, Seq<char>)>) -> Seq<char>;

/// Gathers the pairs into a `serde_json::Map` of string values and writes
/// it with `serde_json` (`Display` of `Value`, which cannot fail).
#[verifier::external_body]
pub(crate) fn write_json_object(entries: &Vec<(String, String)>) -> (r: String)
    ensures
        r@ == json_object_written(pairs_view(entries@)),
{
    let m: serde_json::Map<String, serde_json::Value> =
        entries.iter().map(|(k, v)| (k.clone(), serde_json::Value::String(v.clone()))).collect();
    serde_json::Value::Object(m).to_string()
}

/// What `serde_json::to_string` writes for a list of strings: a compact JSON
/// array of strings.
pub uninterp spec fn json_array_written(e: Seq<Seq<char>>) -> Seq<char>;

/// Calls `serde_json::to_string` on a list of strings, which cannot fail.
#[verifier::external_body]
fn write_json_array(v: &Vec<String>) -> (r: String)
    ensures
        r@ == json_array_written(texts_view(v@)),
{
    serde_json::to_string(v).unwrap()
}

/// What `serde_json` makes of a text read as a JSON object of strings (into
/// a `BTreeMap`): its entries, ordered by key, or the text (`to_string`) of
/// its error where the text is not one.
pub uninterp spec fn json_string_map_result(text: Seq<char>) -> Result<Seq<(Seq<char>, Seq<char>)>, Seq<char>>;

/// The entries of a JSON object of strings, or `None` where the text is not
/// one.
pub open spec fn json_string_entries(text: Seq<char>) -> Option<Seq<(Seq<char>, Seq<char>)>> {
    match json_string_map_result(text) {
        Ok(e) => Some(e),
        Err(_) => None,
    }
}

/// The error text of reading a text that is not a JSON object of strings.
pub open spec fn json_string_map_error(text: Seq<char>) -> Seq<char> {
    match json_string_map_result(text) {
        Ok(_) => Seq::empty(),
        Err(m) => m,
    }
}

/// The texts `serde_json` reads from a JSON array of strings, or `None`
/// where the text is not one.
pub uninterp spec fn json_string_array(text: Seq<char>) -> Option<Seq<Seq<char>>>;

/// Pairs of strings as pairs of texts.
pub open spec fn pairs_view(v: Seq<(String, String)>) -> Seq<(Seq<char>, Seq<char>)> {
    v.map_values(|p: (String, String)| (p.0@, p.1@))
}

/// Texts of strings.
pub open spec fn texts_view(v: Seq<String>) -> Seq<Seq<char>> {
    v.map_values(|s: String| s@)
}

/// No key occurs twice among the pairs.
pub open spec fn texts_distinct(e: Seq<(Seq<char>, Seq<char>)>) -> bool {
    forall|i: int, j: int| 0 <= i < j < e.len() ==> #[trigger] e[i].0 != #[trigger] e[j].0
}

/// Calls `serde_json::from_str` into a `BTreeMap<String, String>` and lists
/// its entries (in key order, so with distinct keys); on failure hands back
/// the error's text. What `serde_json` wrote for a list of pairs is read
/// back as the map of those pairs (a later pair with the same key winning).
#[verifier::external_body]
pub(crate) fn parse_json_string_map(text: &str) -> (r: Result<Vec<(String, String)>, String>)
    ensures
        json_string_map_result(text@) == match r {
            Ok(v) => Ok::<Seq<(Seq<char>, Seq<char>)>, Seq<char>>(pairs_view(v@)),
            Err(m) => Err::<Seq<(Seq<char>, Seq<char>)>, Seq<char>>(m@),
        },
        r matches Ok(v) ==> forall|i: int, j: int| 0 <= i < j < v@.len() ==> #[trigger] v@[i].0@ != #[trigger] v@[j].0@,
        forall|e: Seq<(Seq<char>, Seq<char>)>| #[trigger] json_object_written(e) == text@ ==> match r {
            Ok(v) => pairs_map(pairs_view(v@)) == pairs_map(e),
            Err(_) => false,
        },
{
    match serde_json::from_str::<std::collections::BTreeMap<String, String>>(text) {
        Ok(m) => Ok(m.into_iter().collect()),
        Err(e) => Err(e.to_string()),
    }
}

/// Calls `serde_json::from_str` into a `Vec<String>`.
#[verifier::external_body]
pub(crate) fn parse_json_string_list(text: &str) -> (r: Option<Vec<String>>)
    ensures
        json_string_array(text@) == match r {
            Some(v) => Some(texts_view(v@)),
            None => None::<Seq<Seq<char>>>,
        },
{
    match serde_json::from_str::<Vec<String>>(text) {
        Ok(v) => Some(v),
        Err(_) => None,
    }
}

/// The map that a list of pairs stands for (a later pair wins).
pub open spec fn pairs_map(e: Seq<(Seq<char>, Seq<char>)>) -> Map<Seq<char>, Seq<char>>
    decreases e.len(),
{
    if e.len() == 0 {
        Map::empty()
    } else {
        pairs_map(e.drop_last()).insert(e.last().0, e.last().1)
    }
}

/// Sets each pair of `v` in the map `m`, in order (a later pair wins).
pub fn insert_pairs(m: &mut StrMap<String>, v: &Vec<(String, String)>)
    requires
        old(m).wf(),
    ensures
        final(m).wf(),
        text_map(final(m)@) == text_map(old(m)@).union_prefer_right(pairs_map(pairs_view(v@))),
{
    let ghost start = text_map(m@);
    let ghost e = pairs_view(v@);
    let mut i: usize = 0;
    while i < v.len()
        invariant
            i <= v@.len(),
            m.wf(),
            e == pairs_view(v@),
            text_map(m@) == start.union_prefer_right(pairs_map(e.take(i as int))),
        decreases v@.len() - i,
    {
        let ghost before = text_map(m@);
        m.insert(v[i].0.clone(), v[i].1.clone());
        proof {
            assert(e.take(i + 1).drop_last() =~= e.take(i as int));
            assert(e.take(i + 1).last() == e[i as int]);
            assert(text_map(m@) =~= before.insert(e[i as int].0, e[i as int].1));
            assert(text_map(m@) =~= start.union_prefer_right(pairs_map(e.take(i + 1))));
        }
        i = i + 1;
    }
    proof {
        assert(e.take(v@.len() as int) =~= e);
    }
}

/// Removes each of `names` from the map `m`.
pub fn remove_names(m: &mut StrMap<String>, names: &Vec<String>)
    requires
        old(m).wf(),
    ensures
        final(m).wf(),
        text_map(final(m)@) == text_map(old(m)@).remove_keys(texts_view(names@).to_set()),
{
    let ghost start = text_map(m@);
    let ghost t = texts_view(names@);
    let mut i: usize = 0;
    while i < names.len()
        invariant
            i <= names@.len(),
            m.wf(),
            t == texts_view(names@),
            text_map(m@) == start.remove_keys(t.take(i as int).to_set()),
        decreases names@.len() - i,
    {
        let ghost before = text_map(m@);
        let _ = m.remove(names[i].as_str());
        proof {
            assert(t.take(i + 1).to_set() =~= t.take(i as int).to_set().insert(t[i as int])) by {
                assert forall|x: Seq<char>| t.take(i + 1).to_set().contains(x) <==> t.take(i as int).to_set().insert(t[i as int]).contains(x) by {
                    if t.take(i + 1).contains(x) {
                        let j = choose|j: int| 0 <= j < i + 1 && #[trigger] t.take(i + 1)[j] == x;
                        if j < i {
                            assert(t.take(i as int)[j] == x);
                        }
                    }
                    if t.take(i as int).contains(x) {
                        let j = choose|j: int| 0 <= j < i && #[trigger] t.take(i as int)[j] == x;
                        assert(t.take(i + 1)[j] == x);
                    }
                    if x == t[i as int] {
                        assert(t.take(i + 1)[i as int] == x);
                    }
                }
            }
            assert(text_map(m@) =~= before.remove(t[i as int]));
            assert(text_map(m@) =~= start.remove_keys(t.take(i + 1).to_set()));
        }
        i = i + 1;
    }
    proof {
        assert(t.take(names@.len() as int) =~= t);
    }
}

/// The JSON member (key and value) that a tag is stored as.
pub open spec fn tag_entry(t: TagView) -> (Seq<char>, Seq<char>) {
    match t {
        TagView::Encrypted(n, v) => (base64_encoded(n), base64_encoded(v)),
        TagView::PlainText(n, v) => ("~"@ + base64_encoded(n), v),
    }
}

/// The JSON members of a list of tags (a later tag with the same key wins).
pub open spec fn tags_map(tags: Seq<TagView>) -> Map<Seq<char>, Seq<char>>
    decreases tags.len(),
{
    if tags.len() == 0 {
        Map::empty()
    } else {
        tags_map(tags.drop_last()).insert(tag_entry(tags.last()).0, tag_entry(tags.last()).1)
    }
}

/// Tags as plain values.
pub open spec fn tags_view(tags: Seq<Tag>) -> Seq<TagView> {
    tags.map_values(|t: Tag| t@)
}

/// The text view of a string map.
pub open spec fn text_map(m: Map<Seq<char>, String>) -> Map<Seq<char>, Seq<char>> {
    m.map_values(|v: String| v@)
}

/// A key that marks a plain tag: it starts with `~`.
pub open spec fn tilde_key(k: Seq<char>) -> bool {
    k.len() > 0 && k[0] == '~'
}

/// `s` is a JSON text as `tags_to_json` writes it for the tags: one member
/// per distinct key (a later tag with the same key winning), where the key
/// of an encrypted tag does not start with `~`.
pub open spec fn written_tags_json(ts: Seq<TagView>, s: Seq<char>) -> bool {
    &&& exists|e: Seq<(String, String)>|
        crate::strmap::keys_distinct(e) && text_map(entries_map(e)) == tags_map(ts) && s == json_object_written(pairs_view(e))
    &&& forall|i: int| 0 <= i < ts.len() && (#[trigger] ts[i]) is Encrypted ==> !tilde_key(tag_entry(ts[i]).0)
}

fn tag_member(t: &Tag) -> (r: (String, String))
    ensures
        r.0@ == tag_entry(t@).0,
        r.1@ == tag_entry(t@).1,
        t@ is Encrypted ==> !tilde_key(r.0@),
{
    match t {
        Tag::Encrypted(name, value) => {
            let k = base64_encode(name.as_slice());
            proof {
                if k@.len() > 0 {
                    assert(k@[0] != '~');
                }
            }
            (k, base64_encode(value.as_slice()))
        },
        Tag::PlainText(name, value) => {
            let mut key = String::from_str("~");
            let n = base64_encode(name.as_slice());
            key.append(n.as_str());
            (key, value.clone())
        },
    }
}

/// Writes tags as their JSON object with `serde_json`: each tag one member
/// (a later tag with the same key wins).
pub fn tags_to_json(tags: &Vec<Tag>) -> (r: Result<String, WalletStorageError>)
    ensures
        r matches Ok(s) && written_tags_json(tags_view(tags@), s@),
{
    let mut string_tags: StrMap<String> = StrMap::new();
    let mut i: usize = 0;
    while i < tags.len()
        invariant
            i <= tags@.len(),
            string_tags.wf(),
            text_map(string_tags@) == tags_map(tags_view(tags@).take(i as int)),
            forall|j: int| 0 <= j < i && (#[trigger] tags_view(tags@)[j]) is Encrypted
                ==> !tilde_key(tag_entry(tags_view(tags@)[j]).0),
        decreases tags@.len() - i,
    {
        let (k, v) = tag_member(&tags[i]);
        let ghost before = string_tags@;
        string_tags.insert(k, v);
        proof {
            let tv = tags_view(tags@);
            assert(tv[i as int] == tags@[i as int]@);
            assert(tv.take(i + 1).drop_last() =~= tv.take(i as int));
            assert(text_map(string_tags@) =~= text_map(before).insert(tag_entry(tv[i as int]).0, tag_entry(tv[i as int]).1));
        }
        i = i + 1;
    }
    proof {
        assert(tags_view(tags@).take(tags@.len() as int) =~= tags_view(tags@));
    }
    let s = write_json_object(&string_tags.entries);
    proof {
        let e = string_tags.entries@;
        assert(crate::strmap::keys_distinct(e) && text_map(entries_map(e)) == tags_map(tags_view(tags@))
            && s@ == json_object_written(pairs_view(e)));
    }
    Ok(s)
}

/// The tag that a JSON member stands for: a `~` key is a plain tag with a
/// base64 name; any other key is an encrypted tag with a base64 name and
/// value. `None` where the base64 does not decode.
pub open spec fn entry_tag(k: Seq<char>, v: Seq<char>) -> Option<TagView> {
    if k.len() > 0 && k[0] == '~' {
        match base64_decoded(k.drop_first()) {
            Some(n) => Some(TagView::PlainText(n, v)),
            None => None,
        }
    } else {
        match (base64_decoded(k), base64_decoded(v)) {
            (Some(n), Some(x)) => Some(TagView::Encrypted(n, x)),
            _ => None,
        }
    }
}

/// The error text of a member that does not decode: that of its base64
/// name, or (for an encrypted tag with a good name) of its base64 value.
pub open spec fn entry_error(k: Seq<char>, v: Seq<char>) -> Seq<char> {
    if k.len() > 0 && k[0] == '~' {
        base64_decode_error(k.drop_first())
    } else if base64_decoded(k) is None {
        base64_decode_error(k)
    } else {
        base64_decode_error(v)
    }
}

/// The tags of a list of JSON members, or `None` where one does not decode.
pub open spec fn entries_tags(e: Seq<(Seq<char>, Seq<char>)>) -> Option<Seq<TagView>>
    decreases e.len(),
{
    if e.len() == 0 {
        Some(Seq::empty())
    } else {
        match (entries_tags(e.drop_last()), entry_tag(e.last().0, e.last().1)) {
            (Some(ts), Some(t)) => Some(ts.push(t)),
            _ => None,
        }
    }
}

/// The error text of the first member of the list that does not decode.
pub open spec fn entries_tags_error(e: Seq<(Seq<char>, Seq<char>)>) -> Seq<char>
    decreases e.len(),
{
    if e.len() == 0 {
        Seq::empty()
    } else if entries_tags(e.drop_last()) is None {
        entries_tags_error(e.drop_last())
    } else {
        entry_error(e.last().0, e.last().1)
    }
}

/// The map of a list of string pairs is the text view of the entries' map.
proof fn lemma_pairs_map_entries(e: Seq<(String, String)>)
    ensures
        pairs_map(pairs_view(e)) == text_map(entries_map(e)),
    decreases e.len(),
{
    if e.len() > 0 {
        lemma_pairs_map_entries(e.drop_last());
        assert(pairs_view(e).drop_last() =~= pairs_view(e.drop_last()));
        assert(text_map(entries_map(e)) =~= text_map(entries_map(e.drop_last())).insert(e.last().0@, e.last().1@));
    } else {
        assert(pairs_map(pairs_view(e)) =~= text_map(entries_map(e)));
    }
}

/// With distinct keys, each pair is in the map of the pairs.
proof fn lemma_pairs_map_index(e: Seq<(Seq<char>, Seq<char>)>, j: int)
    requires
        texts_distinct(e),
        0 <= j < e.len(),
    ensures
        pairs_map(e).contains_key(e[j].0),
        pairs_map(e)[e[j].0] == e[j].1,
    decreases e.len(),
{
    if j < e.len() - 1 {
        let d = e.drop_last();
        assert(d[j] == e[j]);
        assert(texts_distinct(d)) by {
            assert forall|a: int, b: int| 0 <= a < b < d.len() implies #[trigger] d[a].0 != #[trigger] d[b].0 by {
                assert(d[a] == e[a] && d[b] == e[b]);
            }
        }
        lemma_pairs_map_index(d, j);
        assert(e[j].0 != e.last().0);
    }
}

/// A key of the tags' members is the member of some tag.
proof fn lemma_tags_map_key(ts: Seq<TagView>, k: Seq<char>)
    requires
        tags_map(ts).contains_key(k),
    ensures
        exists|j: int| 0 <= j < ts.len() && tag_entry(#[trigger] ts[j]) == (k, tags_map(ts)[k]),
    decreases ts.len(),
{
    if ts.len() == 0 {
        assert(tags_map(ts) =~= Map::<Seq<char>, Seq<char>>::empty());
    } else if tag_entry(ts.last()).0 == k {
        assert(tag_entry(ts[ts.len() - 1]) == (k, tags_map(ts)[k]));
    } else {
        let d = ts.drop_last();
        lemma_tags_map_key(d, k);
        let j = choose|j: int| 0 <= j < d.len() && tag_entry(#[trigger] d[j]) == (k, tags_map(d)[k]);
        assert(ts[j] == d[j]);
    }
}

/// The tags read from members, one per member in order.
proof fn lemma_entries_tags_index(e: Seq<(Seq<char>, Seq<char>)>, ts: Seq<TagView>)
    requires
        entries_tags(e) == Some(ts),
    ensures
        ts.len() == e.len(),
        forall|j: int| 0 <= j < e.len() ==> entry_tag(e[j].0, e[j].1) == Some(#[trigger] ts[j]),
    decreases e.len(),
{
    if e.len() > 0 {
        let d = e.drop_last();
        let a = entries_tags(d)->0;
        lemma_entries_tags_index(d, a);
        assert(ts =~= a.push(entry_tag(e.last().0, e.last().1)->0));
        assert forall|j: int| 0 <= j < e.len() implies entry_tag(e[j].0, e[j].1) == Some(#[trigger] ts[j]) by {
            if j < e.len() - 1 {
                assert(d[j] == e[j]);
            }
        }
    }
}

/// Tags whose members are the pairs, in order, stand for the pairs' map.
proof fn lemma_tags_map_of_members(ts: Seq<TagView>, e: Seq<(Seq<char>, Seq<char>)>)
    requires
        ts.len() == e.len(),
        forall|j: int| 0 <= j < e.len() ==> tag_entry(#[trigger] ts[j]) == e[j],
    ensures
        tags_map(ts) == pairs_map(e),
    decreases e.len(),
{
    if e.len() > 0 {
        let d = ts.drop_last();
        let f = e.drop_last();
        assert forall|j: int| 0 <= j < f.len() implies tag_entry(#[trigger] d[j]) == f[j] by {
            assert(d[j] == ts[j] && f[j] == e[j]);
        }
        lemma_tags_map_of_members(d, f);
        assert(tag_entry(ts.last()) == e.last());
    } else {
        assert(tags_map(ts) =~= pairs_map(e));
    }
}

/// The member `(k, v)` reads back as any tag that is written as it (where
/// an encrypted tag's key does not start with `~`).
pub open spec fn member_decodes(k: Seq<char>, v: Seq<char>) -> bool {
    forall|t: TagView| #[trigger] tag_entry(t) == (k, v) && (t is Encrypted ==> !tilde_key(k)) ==> entry_tag(k, v) == Some(t)
}

fn io_error(why: String) -> (e: WalletStorageError)
    ensures
        e matches WalletStorageError::IOError(m) && m@ == why@,
{
    WalletStorageError::IOError(why)
}

fn member_tag(k: &String, v: &String) -> (r: Result<Tag, WalletStorageError>)
    ensures
        match entry_tag(k@, v@) {
            Some(t) => r matches Ok(tag) && tag@ == t,
            None => r matches Err(WalletStorageError::IOError(m)) && m@ == entry_error(k@, v@),
        },
        member_decodes(k@, v@),
{
    let n = k.as_str().unicode_len();
    if n > 0 && k.as_str().get_char(0) == '~' {
        let key = k.as_str().substring_char(1, n);
        proof {
            assert(key@ =~= k@.drop_first());
        }
        let dk = base64_decode(key);
        proof {
            assert forall|t: TagView| #[trigger] tag_entry(t) == (k@, v@) && (t is Encrypted ==> !tilde_key(k@))
                implies entry_tag(k@, v@) == Some(t) by {
                if let TagView::PlainText(nn, x) = t {
                    reveal_strlit("~");
                    assert(("~"@ + base64_encoded(nn)).drop_first() =~= base64_encoded(nn));
                    assert(key@ == base64_encoded(nn));
                }
            }
        }
        match dk {
            Ok(name) => Ok(Tag::PlainText(name, v.clone())),
            Err(why) => Err(io_error(why)),
        }
    } else {
        proof {
            assert forall|t: TagView| #[trigger] tag_entry(t) == (k@, v@) implies t is Encrypted by {
                if let TagView::PlainText(nn, x) = t {
                    reveal_strlit("~");
                    assert(k@.len() > 0);
                    assert(k@[0] == ("~"@ + base64_encoded(nn))[0]);
                }
            }
        }
        let dk = base64_decode(k.as_str());
        match dk {
            Ok(name) => {
                let dv = base64_decode(v.as_str());
                proof {
                    assert forall|t: TagView| #[trigger] tag_entry(t) == (k@, v@) && (t is Encrypted ==> !tilde_key(k@))
                        implies entry_tag(k@, v@) == Some(t) by {
                        if let TagView::Encrypted(nn, x) = t {
                            assert(k@ == base64_encoded(nn));
                            assert(v@ == base64_encoded(x));
                        }
                    }
                }
                match dv {
                    Ok(value) => Ok(Tag::Encrypted(name, value)),
                    Err(why) => Err(io_error(why)),
                }
            },
            Err(why) => {
                proof {
                    assert forall|t: TagView| #[trigger] tag_entry(t) == (k@, v@) && (t is Encrypted ==> !tilde_key(k@))
                        implies entry_tag(k@, v@) == Some(t) by {
                        if let TagView::Encrypted(nn, x) = t {
                            assert(k@ == base64_encoded(nn));
                        }
                    }
                }
                Err(io_error(why))
            },
        }
    }
}

/// Reads tags from their JSON object, one per member, in the order
/// `serde_json` lists the members. A text that is not a JSON object of
/// strings, or a member whose base64 does not decode, is an I/O error.
pub fn tags_from_json(json: &str) -> (r: Result<Vec<Tag>, WalletStorageError>)
    ensures
        match json_string_entries(json@) {
            None => r matches Err(WalletStorageError::IOError(m)) && m@ == json_string_map_error(json@),
            Some(e) => match entries_tags(e) {
                Some(ts) => r matches Ok(v) && tags_view(v@) == ts,
                None => r matches Err(WalletStorageError::IOError(m)) && m@ == entries_tags_error(e),
            },
        },
        forall|ts: Seq<TagView>| #[trigger] written_tags_json(ts, json@)
            ==> (r matches Ok(v) && tags_map(tags_view(v@)) == tags_map(ts)),
        forall|ts: Seq<TagView>| #[trigger] written_tags_json(ts, json@) && tag_keys_distinct(ts)
            ==> (r matches Ok(v) && same_tags_once(tags_view(v@), ts)),
{
    let parsed = parse_json_string_map(json);
    let string_tags = match parsed {
        Ok(m) => m,
        Err(why) => {
            proof {
                assert forall|ts: Seq<TagView>| #[trigger] written_tags_json(ts, json@) implies false by {
                    let e0 = choose|e0: Seq<(String, String)>|
                        crate::strmap::keys_distinct(e0) && text_map(entries_map(e0)) == tags_map(ts)
                            && json@ == json_object_written(pairs_view(e0));
                }
            }
            return Err(io_error(why));
        },
    };
    let ghost e = pairs_view(string_tags@);
    proof {
        assert(texts_distinct(e)) by {
            assert forall|a: int, b: int| 0 <= a < b < e.len() implies #[trigger] e[a].0 != #[trigger] e[b].0 by {
                assert(e[a].0 == string_tags@[a].0@ && e[b].0 == string_tags@[b].0@);
            }
        }
        assert forall|ts: Seq<TagView>| #[trigger] written_tags_json(ts, json@) implies pairs_map(e) == tags_map(ts) by {
            let e0 = choose|e0: Seq<(String, String)>|
                crate::strmap::keys_distinct(e0) && text_map(entries_map(e0)) == tags_map(ts)
                    && json@ == json_object_written(pairs_view(e0));
            lemma_pairs_map_entries(e0);
        }
    }
    let mut tags: Vec<Tag> = Vec::new();
    let mut i: usize = 0;
    while i < string_tags.len()
        invariant
            i <= string_tags@.len(),
            e == pairs_view(string_tags@),
            json_string_entries(json@) == Some(e),
            entries_tags(e.take(i as int)) == Some(tags_view(tags@)),
            texts_distinct(e),
            forall|ts: Seq<TagView>| #[trigger] written_tags_json(ts, json@) ==> pairs_map(e) == tags_map(ts),
            forall|j: int| 0 <= j < i ==> #[trigger] member_decodes(e[j].0, e[j].1),
        decreases string_tags@.len() - i,
    {
        proof {
            assert(e.take(i + 1).drop_last() =~= e.take(i as int));
            assert(e[i as int] == (string_tags@[i as int].0@, string_tags@[i as int].1@));
        }
        match member_tag(&string_tags[i].0, &string_tags[i].1) {
            Ok(t) => {
                let ghost before = tags@;
                tags.push(t);
                proof {
                    assert(tags_view(tags@) =~= tags_view(before).push(t@));
                }
            },
            Err(x) => {
                proof {
                    assert(e[i as int] == (string_tags@[i as int].0@, string_tags@[i as int].1@));
                    assert(e.take(i + 1).last() == e[i as int]);
                    assert(entries_tags(e.take(i + 1)) is None);
                    assert(e.take(i + 1).drop_last() =~= e.take(i as int));
                    assert(entries_tags_error(e.take(i + 1)) == entry_error(e[i as int].0, e[i as int].1));
                    lemma_entries_tags_none_extends(e, i as int + 1);
                    assert forall|ts: Seq<TagView>| #[trigger] written_tags_json(ts, json@) implies false by {
                        lemma_written_member(ts, e, i as int);
                    }
                }
                return Err(x);
            },
        }
        i = i + 1;
    }
    proof {
        assert(e.take(string_tags@.len() as int) =~= e);
        assert forall|ts: Seq<TagView>| #[trigger] written_tags_json(ts, json@)
            implies tags_map(tags_view(tags@)) == tags_map(ts) by {
            lemma_entries_tags_index(e, tags_view(tags@));
            assert forall|j: int| 0 <= j < e.len() implies tag_entry(#[trigger] tags_view(tags@)[j]) == e[j] by {
                lemma_written_member(ts, e, j);
            }
            lemma_tags_map_of_members(tags_view(tags@), e);
        }
        assert forall|ts: Seq<TagView>| #[trigger] written_tags_json(ts, json@) && tag_keys_distinct(ts)
            implies same_tags_once(tags_view(tags@), ts) by {
            lemma_entries_tags_index(e, tags_view(tags@));
            lemma_read_back_same_tags(ts, e, tags_view(tags@));
        }
    }
    Ok(tags)
}

/// No two of the tags are stored under the same JSON key.
pub open spec fn tag_keys_distinct(ts: Seq<TagView>) -> bool {
    forall|i: int, j: int| #![trigger ts[i], ts[j]] 0 <= i < j < ts.len() ==> tag_entry(ts[i]).0 != tag_entry(ts[j]).0
}

/// `back` holds the tags of `ts`, each once, in some order.
pub open spec fn same_tags_once(back: Seq<TagView>, ts: Seq<TagView>) -> bool {
    &&& back.len() == ts.len()
    &&& back.no_duplicates()
    &&& back.to_set() == ts.to_set()
}

/// A key of the map of pairs is the key of one of the pairs.
proof fn lemma_pairs_map_has(e: Seq<(Seq<char>, Seq<char>)>, k: Seq<char>)
    requires
        pairs_map(e).contains_key(k),
    ensures
        exists|j: int| 0 <= j < e.len() && (#[trigger] e[j]).0 == k,
    decreases e.len(),
{
    if e.len() == 0 {
        assert(pairs_map(e) =~= Map::<Seq<char>, Seq<char>>::empty());
    } else if e.last().0 == k {
        assert(e[e.len() - 1].0 == k);
    } else {
        let d = e.drop_last();
        lemma_pairs_map_has(d, k);
        let j = choose|j: int| 0 <= j < d.len() && (#[trigger] d[j]).0 == k;
        assert(e[j] == d[j]);
    }
}

/// With distinct keys, each tag's member is in the tags' map.
proof fn lemma_tags_map_index(ts: Seq<TagView>, i: int)
    requires
        tag_keys_distinct(ts),
        0 <= i < ts.len(),
    ensures
        tags_map(ts).contains_key(tag_entry(ts[i]).0),
        tags_map(ts)[tag_entry(ts[i]).0] == tag_entry(ts[i]).1,
    decreases ts.len(),
{
    if i < ts.len() - 1 {
        let d = ts.drop_last();
        assert(d[i] == ts[i]);
        assert(tag_keys_distinct(d)) by {
            assert forall|a: int, b: int| #![trigger d[a], d[b]] 0 <= a < b < d.len()
                implies tag_entry(d[a]).0 != tag_entry(d[b]).0 by {
                assert(d[a] == ts[a] && d[b] == ts[b]);
            }
        }
        lemma_tags_map_index(d, i);
        assert(ts.last() == ts[ts.len() - 1]);
        assert(tag_entry(ts[i]).0 != tag_entry(ts[ts.len() - 1]).0);
    }
}

/// Tags read one per member of a text written for tags with distinct keys
/// are those tags, each once.
proof fn lemma_read_back_same_tags(ts: Seq<TagView>, e: Seq<(Seq<char>, Seq<char>)>, back: Seq<TagView>)
    requires
        texts_distinct(e),
        pairs_map(e) == tags_map(ts),
        tag_keys_distinct(ts),
        forall|i: int| 0 <= i < ts.len() && (#[trigger] ts[i]) is Encrypted ==> !tilde_key(tag_entry(ts[i]).0),
        back.len() == e.len(),
        forall|j: int| 0 <= j < e.len() ==> entry_tag(e[j].0, e[j].1) == Some(#[trigger] back[j]),
        forall|j: int| 0 <= j < e.len() ==> #[trigger] member_decodes(e[j].0, e[j].1),
    ensures
        same_tags_once(back, ts),
{
    assert forall|j: int| 0 <= j < back.len() implies ts.contains(back[j]) && tag_entry(#[trigger] back[j]) == e[j] by {
        lemma_pairs_map_index(e, j);
        lemma_tags_map_key(ts, e[j].0);
        let jj = choose|jj: int| 0 <= jj < ts.len() && tag_entry(#[trigger] ts[jj]) == (e[j].0, tags_map(ts)[e[j].0]);
        assert(tag_entry(ts[jj]) == e[j]);
        assert(ts[jj] is Encrypted ==> !tilde_key(e[j].0));
        assert(member_decodes(e[j].0, e[j].1));
        assert(entry_tag(e[j].0, e[j].1) == Some(ts[jj]));
        assert(back[j] == ts[jj]);
    }
    assert forall|i: int| 0 <= i < ts.len() implies back.contains(#[trigger] ts[i]) by {
        lemma_tags_map_index(ts, i);
        let k = tag_entry(ts[i]).0;
        lemma_pairs_map_has(e, k);
        let j = choose|j: int| 0 <= j < e.len() && (#[trigger] e[j]).0 == k;
        lemma_pairs_map_index(e, j);
        assert(e[j] == tag_entry(ts[i]));
        assert(ts[i] is Encrypted ==> !tilde_key(k));
        assert(member_decodes(e[j].0, e[j].1));
        assert(entry_tag(e[j].0, e[j].1) == Some(ts[i]));
        assert(back[j] == ts[i]);
    }
    assert(back.no_duplicates()) by {
        assert forall|a: int, b: int| 0 <= a < back.len() && 0 <= b < back.len() && a != b
            implies back[a] != back[b] by {
            assert(tag_entry(back[a]) == e[a] && tag_entry(back[b]) == e[b]);
        }
    }
    assert(ts.no_duplicates()) by {
        assert forall|a: int, b: int| 0 <= a < ts.len() && 0 <= b < ts.len() && a != b
            implies ts[a] != ts[b] by {
            if a < b {
                assert(tag_entry(ts[a]).0 != tag_entry(ts[b]).0);
            } else {
                assert(tag_entry(ts[b]).0 != tag_entry(ts[a]).0);
            }
        }
    }
    assert(back.to_set() =~= ts.to_set()) by {
        assert forall|t: TagView| back.to_set().contains(t) <==> ts.to_set().contains(t) by {
            if back.contains(t) {
                let j = choose|j: int| 0 <= j < back.len() && back[j] == t;
                assert(ts.contains(back[j]));
            }
            if ts.contains(t) {
                let i = choose|i: int| 0 <= i < ts.len() && ts[i] == t;
                assert(back.contains(ts[i]));
            }
        }
    }
    back.unique_seq_to_set();
    ts.unique_seq_to_set();
}

/// A member of a text written for the tags reads back as a tag written as
/// that member.
proof fn lemma_written_member(ts: Seq<TagView>, e: Seq<(Seq<char>, Seq<char>)>, j: int)
    requires
        texts_distinct(e),
        0 <= j < e.len(),
        pairs_map(e) == tags_map(ts),
        forall|i: int| 0 <= i < ts.len() && (#[trigger] ts[i]) is Encrypted ==> !tilde_key(tag_entry(ts[i]).0),
        member_decodes(e[j].0, e[j].1),
    ensures
        entry_tag(e[j].0, e[j].1) matches Some(t) && tag_entry(t) == e[j],
{
    lemma_pairs_map_index(e, j);
    lemma_tags_map_key(ts, e[j].0);
    let jj = choose|jj: int| 0 <= jj < ts.len() && tag_entry(#[trigger] ts[jj]) == (e[j].0, tags_map(ts)[e[j].0]);
    let t = ts[jj];
    assert(tag_entry(t) == e[j]);
    assert(t is Encrypted ==> !tilde_key(e[j].0));
}

proof fn lemma_entries_tags_none_extends(e: Seq<(Seq<char>, Seq<char>)>, i: int)
    requires
        0 <= i <= e.len(),
        entries_tags(e.take(i)) is None,
    ensures
        entries_tags(e) is None,
        entries_tags_error(e) == entries_tags_error(e.take(i)),
    decreases e.len() - i,
{
    if i < e.len() {
        assert(e.take(i + 1).drop_last() =~= e.take(i));
        lemma_entries_tags_none_extends(e, i + 1);
    } else {
        assert(e.take(i) =~= e);
    }
}

/// The text a tag name is written as: the base64 name, behind `~` for a
/// plain tag.
pub open spec fn tag_name_text(n: TagName) -> Seq<char> {
    match n {
        TagName::OfEncrypted(b) => base64_encoded(b@),
        TagName::OfPlain(b) => "~"@ + base64_encoded(b@),
    }
}

/// Writes tag names as a JSON array of their texts, in order.
pub fn tags_names_to_json(tag_names: &Vec<TagName>) -> (r: Result<String, WalletStorageError>)
    ensures
        r matches Ok(s) && s@ == json_array_written(tag_names@.map_values(|n: TagName| tag_name_text(n))),
{
    let mut names: Vec<String> = Vec::new();
    let mut i: usize = 0;
    while i < tag_names.len()
        invariant
            i <= tag_names@.len(),
            texts_view(names@) == tag_names@.take(i as int).map_values(|n: TagName| tag_name_text(n)),
        decreases tag_names@.len() - i,
    {
        let t = match &tag_names[i] {
            TagName::OfEncrypted(b) => base64_encode(b.as_slice()),
            TagName::OfPlain(b) => {
                let mut t = String::from_str("~");
                let n = base64_encode(b.as_slice());
                t.append(n.as_str());
                t
            },
        };
        assert(t@ == tag_name_text(tag_names@[i as int]));
        let ghost before = names@;
        names.push(t);
        proof {
            assert(texts_view(names@) =~= texts_view(before).push(t@));
            assert(tag_names@.take(i + 1) =~= tag_names@.take(i as int).push(tag_names@[i as int]));
            assert(tag_names@.take(i + 1).map_values(|n: TagName| tag_name_text(n)) =~=
                tag_names@.take(i as int).map_values(|n: TagName| tag_name_text(n)).push(tag_name_text(tag_names@[i as int])));
        }
        i = i + 1;
    }
    proof {
        assert(tag_names@.take(tag_names@.len() as int) =~= tag_names@);
    }
    Ok(write_json_array(&names))
}

} // verus!
