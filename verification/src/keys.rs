//! Wallet keys of the form `item_type::item_id`, and their splitting on the
//! `::` separator (left to right, without overlaps, as `str::split` does).

use vstd::prelude::*;

verus! {

/// A separator `::` starts at index `i` of `s`.
pub open spec fn sep_at(s: Seq<char>, i: int) -> bool {
    0 <= i && i + 1 < s.len() && s[i] == ':' && s[i + 1] == ':'
}

/// The first index at or after `j` where a separator starts, or `s.len()`
/// if there is none.
pub open spec fn next_sep(s: Seq<char>, j: int) -> int
    decreases s.len() - j,
{
    if j < 0 || j + 1 >= s.len() {
        s.len() as int
    } else if sep_at(s, j) {
        j
    } else {
        next_sep(s, j + 1)
    }
}

/// The pieces of `s` from index `start` on, split at each separator.
pub open spec fn pieces_from(s: Seq<char>, start: int) -> Seq<Seq<char>>
    decreases s.len() - start,
{
    if start < 0 || start > s.len() {
        Seq::empty()
    } else {
        let i = next_sep(s, start);
        proof {
            lemma_next_sep_bounds(s, start);
        }
        if i >= s.len() {
            seq![s.subrange(start, s.len() as int)]
        } else {
            seq![s.subrange(start, i)] + pieces_from(s, i + 2)
        }
    }
}

/// The pieces of `s` split at each `::`.
pub open spec fn split_sep(s: Seq<char>) -> Seq<Seq<char>> {
    pieces_from(s, 0)
}

pub proof fn lemma_next_sep_bounds(s: Seq<char>, j: int)
    requires
        0 <= j,
    ensures
        next_sep(s, j) == s.len() || (j <= next_sep(s, j) && sep_at(s, next_sep(s, j))),
        forall|k: int| j <= k < next_sep(s, j) ==> !sep_at(s, k),
    decreases s.len() - j,
{
    if j + 1 < s.len() && !sep_at(s, j) {
        lemma_next_sep_bounds(s, j + 1);
    }
}

/// `s` holds no `::`.
pub open spec fn no_sep(s: Seq<char>) -> bool {
    forall|i: int| !#[trigger] sep_at(s, i)
}

/// The key of an item type and id: `item_type::item_id`.
pub open spec fn item_key(item_type: Seq<char>, item_id: Seq<char>) -> Seq<char> {
    item_type + "::"@ + item_id
}

/// Splits `key` at each `::`, as `key.split("::")` does.
pub fn split_key(key: &str) -> (r: Vec<String>)
    ensures
        r@.map_values(|s: String| s@) == split_sep(key@),
{
    let n = key.unicode_len();
    let ghost s = key@;
    let mut out: Vec<String> = Vec::new();
    let mut start: usize = 0;
    let mut j: usize = 0;
    proof {
        lemma_next_sep_bounds(s, 0);
    }
    while n - j > 1
        invariant
            n == s.len(),
            s == key@,
            start <= j <= n,
            out@.map_values(|x: String| x@) + pieces_from(s, start as int) == split_sep(s),
            next_sep(s, start as int) == next_sep(s, j as int),
        decreases n - j,
    {
        if key.get_char(j) == ':' && key.get_char(j + 1) == ':' {
            let piece = key.substring_char(start, j);
            proof {
                lemma_next_sep_bounds(s, start as int);
                assert(sep_at(s, j as int));
                assert(next_sep(s, j as int) == j);
                assert(pieces_from(s, start as int) == seq![s.subrange(start as int, j as int)] + pieces_from(s, j + 2));
            }
            let ghost old_out = out@;
            out.push(String::from_str(piece));
            proof {
                assert(out@.map_values(|x: String| x@) =~= old_out.map_values(|x: String| x@).push(s.subrange(start as int, j as int)));
                assert(out@.map_values(|x: String| x@) + pieces_from(s, j + 2) =~= old_out.map_values(|x: String| x@) + pieces_from(s, start as int));
            }
            start = j + 2;
            j = j + 2;
        } else {
            proof {
                assert(!sep_at(s, j as int));
                assert(next_sep(s, j as int) == next_sep(s, j + 1));
            }
            j = j + 1;
        }
    }
    let piece = key.substring_char(start, n);
    proof {
        assert(next_sep(s, j as int) == n);
        assert(pieces_from(s, start as int) == seq![s.subrange(start as int, n as int)]);
    }
    let ghost old_out = out@;
    out.push(String::from_str(piece));
    proof {
        assert(out@.map_values(|x: String| x@) =~= old_out.map_values(|x: String| x@).push(s.subrange(start as int, n as int)));
    }
    out
}

pub proof fn lemma_next_sep_exact(s: Seq<char>, j: int, m: int)
    requires
        0 <= j <= m,
        sep_at(s, m),
        forall|k: int| j <= k < m ==> !#[trigger] sep_at(s, k),
    ensures
        next_sep(s, j) == m,
    decreases m - j,
{
    if j < m {
        assert(!sep_at(s, j));
        lemma_next_sep_exact(s, j + 1, m);
    }
}

pub proof fn lemma_next_sep_none(s: Seq<char>, j: int)
    requires
        0 <= j,
        forall|k: int| j <= k ==> !#[trigger] sep_at(s, k),
    ensures
        next_sep(s, j) == s.len(),
    decreases s.len() - j,
{
    if j + 1 < s.len() {
        assert(!sep_at(s, j));
        lemma_next_sep_none(s, j + 1);
    }
}

pub proof fn lemma_split_nonempty(s: Seq<char>)
    ensures
        split_sep(s).len() >= 1,
{
    lemma_next_sep_bounds(s, 0);
}

/// Splitting the key of an item type and id gives back the type and the id,
/// when neither holds `::` and the type does not end with `:`.
pub proof fn lemma_split_item_key(item_type: Seq<char>, item_id: Seq<char>)
    requires
        no_sep(item_type),
        no_sep(item_id),
        !(item_type.len() > 0 && item_type.last() == ':'),
    ensures
        split_sep(item_key(item_type, item_id)) == seq![item_type, item_id],
{
    reveal_strlit("::");
    let s = item_key(item_type, item_id);
    let t = item_type.len() as int;
    assert(s.len() == t + 2 + item_id.len());
    assert forall|k: int| 0 <= k < t implies !#[trigger] sep_at(s, k) by {
        if k + 1 < t {
            assert(!sep_at(item_type, k));
            assert(s[k] == item_type[k] && s[k + 1] == item_type[k + 1]);
        } else {
            assert(s[k] == item_type.last());
        }
    }
    assert(sep_at(s, t));
    lemma_next_sep_exact(s, 0, t);
    assert forall|k: int| t + 2 <= k implies !#[trigger] sep_at(s, k) by {
        if sep_at(s, k) {
            assert(s[k] == item_id[k - t - 2] && s[k + 1] == item_id[k + 1 - t - 2]);
            assert(sep_at(item_id, k - t - 2));
        }
    }
    lemma_next_sep_none(s, t + 2);
    assert(s.subrange(0, t) =~= item_type);
    assert(s.subrange(t + 2, s.len() as int) =~= item_id);
    assert(pieces_from(s, t + 2) == seq![item_id]);
    assert(split_sep(s) =~= seq![item_type, item_id]);
}

/// Whenever a key splits into exactly two pieces, joining them with `::`
/// gives the key back.
pub proof fn lemma_item_key_of_split(key: Seq<char>)
    requires
        split_sep(key).len() == 2,
    ensures
        item_key(split_sep(key)[0], split_sep(key)[1]) == key,
{
    reveal_strlit("::");
    lemma_next_sep_bounds(key, 0);
    let m = next_sep(key, 0);
    if m >= key.len() {
        assert(split_sep(key).len() == 1);
    } else {
        lemma_next_sep_bounds(key, m + 2);
        let m2 = next_sep(key, m + 2);
        if m2 < key.len() {
            assert(pieces_from(key, m + 2).len() >= 2) by {
                lemma_split_from_nonempty(key, m2 + 2);
            }
        }
        assert(pieces_from(key, m + 2) == seq![key.subrange(m + 2, key.len() as int)]);
        assert(item_key(split_sep(key)[0], split_sep(key)[1]) =~= key);
    }
}

proof fn lemma_split_from_nonempty(s: Seq<char>, start: int)
    requires
        0 <= start <= s.len(),
    ensures
        pieces_from(s, start).len() >= 1,
{
    lemma_next_sep_bounds(s, start);
}

/// The first piece of the key of an item type and any id is the type, when
/// the type holds no `::` and does not end with `:`.
pub proof fn lemma_first_piece_of_item_key(item_type: Seq<char>, item_id: Seq<char>)
    requires
        no_sep(item_type),
        !(item_type.len() > 0 && item_type.last() == ':'),
    ensures
        split_sep(item_key(item_type, item_id))[0] == item_type,
{
    reveal_strlit("::");
    let s = item_key(item_type, item_id);
    let t = item_type.len() as int;
    assert forall|k: int| 0 <= k < t implies !#[trigger] sep_at(s, k) by {
        if k + 1 < t {
            assert(!sep_at(item_type, k));
            assert(s[k] == item_type[k] && s[k + 1] == item_type[k + 1]);
        } else {
            assert(s[k] == item_type.last());
        }
    }
    assert(sep_at(s, t));
    lemma_next_sep_exact(s, 0, t);
    assert(s.subrange(0, t) =~= item_type);
}

/// Splits a key `item_type::item_id` into its type and id. The key holds
/// exactly one `::` (anything else is a caller error).
pub fn key_to_item_type_id(key: &str) -> (r: (String, String))
    requires
        split_sep(key@).len() == 2,
    ensures
        r.0@ == split_sep(key@)[0],
        r.1@ == split_sep(key@)[1],
{
    let mut v = split_key(key);
    assert(v@.map_values(|s: String| s@)[0] == v@[0]@);
    assert(v@.map_values(|s: String| s@)[1] == v@[1]@);
    let id = v.pop().unwrap();
    let ty = v.pop().unwrap();
    (ty, id)
}

/// The key of an item type and id: `item_type::item_id`.
pub fn item_type_id_to_key(item_type: &str, item_id: &str) -> (r: String)
    ensures
        r@ == item_key(item_type@, item_id@),
{
    let mut key = String::from_str(item_type);
    key.append("::");
    key.append(item_id);
    key
}

/// The item type of a key prefix: the text before the first `::`.
pub fn key_prefix_to_type(key_prefix: &str) -> (r: String)
    ensures
        r@ == split_sep(key_prefix@)[0],
{
    let mut v = split_key(key_prefix);
    proof {
        lemma_split_nonempty(key_prefix@);
        assert(v@.map_values(|s: String| s@)[0] == v@[0]@);
    }
    v.swap_remove(0)
}

} // verus!
