//! JSON documents as the view and style code reads them, parsed by the `json`
//! crate, and the reading of a tag's head (`name key=value ...`).
use vstd::prelude::*;
use crate::strmap::StrMap;
use crate::text::{split, trim, split_on, trimmed, chars_of, string_of};

verus! {

/// A JSON value, holding what the view and style code reads of it.
pub struct JsonNode {
    /// What `to_string()` gives: a string's own text, or the value's JSON text.
    pub text: String,
    /// Whether the value is a string.
    pub is_string: bool,
    /// Whether the value is an array.
    pub is_array: bool,
    /// The members of an array, in order (none for other values).
    pub members: Vec<JsonNode>,
    /// The entries of an object, in order (none for other values).
    pub fields: Vec<(String, JsonNode)>,
}

#[verifier::external_type_specification]
#[verifier::external_body]
pub struct ExJsonValue(json::JsonValue);

/// What the `json` crate's parser makes of a text: the document, or nothing
/// when the text is not JSON.
pub uninterp spec fn json_parse(text: Seq<char>) -> Option<JsonNode>;

/// Parses `text` with `json::parse`; the result is named `json_parse(text)`.
#[verifier::external_body]
pub(crate) fn parse_json(text: &str) -> (r: Option<JsonNode>)
    ensures
        r == json_parse(text@),
{
    match json::parse(text) {
        Ok(v) => Some(node_of(&v)),
        Err(_) => None,
    }
}

/// Copies a parsed `json::JsonValue` into a `JsonNode`, reading it with
/// `to_string`, `is_string`, `is_array`, `members` and `entries`; nothing is stated of it
/// beyond what `parse_json` names.
#[verifier::external_body]
fn node_of(v: &json::JsonValue) -> JsonNode {
    JsonNode {
        text: v.to_string(),
        is_string: v.is_string(),
        is_array: v.is_array(),
        members: v.members().map(node_of).collect(),
        fields: v.entries().map(|e| (e.0.to_string(), node_of(e.1))).collect(),
    }
}

/// `null`.
pub open spec fn null_text() -> Seq<char> {
    seq!['n', 'u', 'l', 'l']
}

/// The position of the first entry of `v` under `key`.
pub open spec fn field_index(v: JsonNode, key: Seq<char>) -> int {
    choose|i: int|
        0 <= i < v.fields@.len() && v.fields@[i].0@ == key && forall|j: int|
            0 <= j < i ==> v.fields@[j].0@ != key
}

/// `v` has an entry under `key`.
pub open spec fn has_field(v: JsonNode, key: Seq<char>) -> bool {
    exists|i: int| 0 <= i < v.fields@.len() && v.fields@[i].0@ == key
}

/// What `v[key].to_string()` gives: the entry's text, or `null` when there is
/// no entry under `key`.
pub open spec fn field_text(v: JsonNode, key: Seq<char>) -> Seq<char> {
    if has_field(v, key) {
        v.fields@[field_index(v, key)].1.text@
    } else {
        null_text()
    }
}

/// Whether `v[key]` is an array.
pub open spec fn field_is_array(v: JsonNode, key: Seq<char>) -> bool {
    has_field(v, key) && v.fields@[field_index(v, key)].1.is_array
}

/// The members of the array `v[key]`.
pub open spec fn field_members(v: JsonNode, key: Seq<char>) -> Seq<JsonNode> {
    v.fields@[field_index(v, key)].1.members@
}

/// The first entry under `key` is an entry of `v`.
pub proof fn lemma_field_index(v: JsonNode, key: Seq<char>)
    requires
        has_field(v, key),
    ensures
        0 <= field_index(v, key) < v.fields@.len(),
        v.fields@[field_index(v, key)].0@ == key,
{
    let i = choose|i: int| 0 <= i < v.fields@.len() && v.fields@[i].0@ == key;
    lemma_first_index(v, key, i);
}

proof fn lemma_first_index(v: JsonNode, key: Seq<char>, i: int)
    requires
        0 <= i < v.fields@.len(),
        v.fields@[i].0@ == key,
    ensures
        exists|k: int|
            0 <= k < v.fields@.len() && v.fields@[k].0@ == key && forall|j: int|
                0 <= j < k ==> v.fields@[j].0@ != key,
    decreases i,
{
    if exists|j: int| 0 <= j < i && v.fields@[j].0@ == key {
        let j = choose|j: int| 0 <= j < i && v.fields@[j].0@ == key;
        lemma_first_index(v, key, j);
    } else {
        assert(forall|j: int| 0 <= j < i ==> v.fields@[j].0@ != key);
    }
}

impl JsonNode {
    /// The position of the first entry under `key`.
    pub fn field_position(&self, key: &Vec<char>) -> (r: Option<usize>)
        ensures
            match r {
                Some(i) => has_field(*self, key@) && i == field_index(*self, key@) && i
                    < self.fields@.len(),
                None => !has_field(*self, key@),
            },
    {
        let k = string_of(key);
        let mut i: usize = 0;
        while i < self.fields.len()
            invariant
                i <= self.fields.len(),
                k@ == key@,
                forall|j: int| 0 <= j < i ==> self.fields@[j].0@ != key@,
            decreases self.fields.len() - i,
        {
            if self.fields[i].0.eq(&k) {
                proof {
                    let c = field_index(*self, key@);
                    assert(0 <= i < self.fields@.len() && self.fields@[i as int].0@ == key@
                        && forall|j: int| 0 <= j < i ==> self.fields@[j].0@ != key@);
                    if c < i {
                    } else if c > i {
                        assert(self.fields@[i as int].0@ != key@);
                    }
                }
                return Some(i);
            }
            i += 1;
        }
        None
    }

    /// What `self[key].to_string()` gives.
    pub fn text_at(&self, key: &Vec<char>) -> (r: Vec<char>)
        ensures
            r@ == field_text(*self, key@),
    {
        match self.field_position(key) {
            Some(i) => chars_of(self.fields[i].1.text.as_str()),
            None => {
                let r = vec!['n', 'u', 'l', 'l'];
                assert(r@ =~= null_text());
                r
            },
        }
    }
}

/// The name of a tag whose head is `ts`: the text before the first space.
pub open spec fn head_name(ts: Seq<char>) -> Seq<char> {
    split(ts, ' ')[0]
}

/// Every attribute of the head `ts` has an `=`.
pub open spec fn head_ok(ts: Seq<char>) -> bool {
    forall|i: int| 1 <= i < split(ts, ' ').len() ==> split(#[trigger] split(ts, ' ')[i], '=').len() >= 2
}

/// The attributes that the pieces `ps` set: each `key=value` (anything after a
/// second `=` dropped), a later key winning.
pub open spec fn attrs_of_pieces(ps: Seq<Seq<char>>) -> Map<Seq<char>, Seq<char>>
    decreases ps.len(),
{
    if ps.len() == 0 {
        Map::empty()
    } else {
        let kv = split(ps.last(), '=');
        attrs_of_pieces(ps.drop_last()).insert(kv[0], kv[1])
    }
}

/// The attributes of the head `ts`: all pieces after the name.
pub open spec fn head_attrs(ts: Seq<char>) -> Map<Seq<char>, Seq<char>> {
    attrs_of_pieces(split(ts, ' ').skip(1))
}

/// A tag's head read from the trimmed text `raw`: its name and attributes, or
/// nothing when an attribute lacks an `=`.
pub fn parse_head(raw: &Vec<char>) -> (r: Option<(String, StrMap)>)
    ensures
        match r {
            Some((name, attrs)) => head_ok(trim(raw@)) && name@ == head_name(trim(raw@))
                && attrs.wf() && attrs.map() == head_attrs(trim(raw@)),
            None => !head_ok(trim(raw@)),
        },
{
    let ts = trimmed(raw);
    let pieces = split_on(&ts, ' ');
    proof {
        crate::text::lemma_split_nonempty(ts@, ' ');
    }
    let ghost ps = split(ts@, ' ');
    let name = string_of(&pieces[0]);
    assert(pieces.deep_view()[0] == pieces[0]@);
    let mut attrs = StrMap::new();
    let mut i: usize = 1;
    assert(ps.skip(1).take(0) =~= Seq::<Seq<char>>::empty());
    while i < pieces.len()
        invariant
            1 <= i <= pieces.len(),
            pieces.deep_view() == ps,
            ps == split(trim(raw@), ' '),
            ps.len() >= 1,
            attrs.wf(),
            attrs.map() == attrs_of_pieces(ps.skip(1).take(i - 1)),
            forall|j: int| 1 <= j < i ==> split(#[trigger] ps[j], '=').len() >= 2,
        decreases pieces.len() - i,
    {
        let kv = split_on(&pieces[i], '=');
        assert(pieces.deep_view()[i as int] == pieces[i as int]@);
        if kv.len() < 2 {
            assert(kv.deep_view().len() == kv.len());
            assert(split(ps[i as int], '=').len() < 2);
            assert(ps == split(trim(raw@), ' '));
            assert(!head_ok(trim(raw@))) by {
                if head_ok(trim(raw@)) {
                    assert(split(split(trim(raw@), ' ')[i as int], '=').len() >= 2);
                }
            }
            return None;
        }
        assert(kv.deep_view()[0] == kv[0]@);
        assert(kv.deep_view()[1] == kv[1]@);
        attrs.insert(&kv[0], &kv[1]);
        assert(ps.skip(1).take(i as int).drop_last() =~= ps.skip(1).take(i - 1));
        assert(ps.skip(1).take(i as int).last() == ps[i as int]);
        i += 1;
    }
    assert(ps.skip(1).take(i - 1) =~= ps.skip(1));
    Some((name, attrs))
}

} // verus!
