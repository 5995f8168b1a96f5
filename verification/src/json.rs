//! JSON documents: the tree that a `serde_json` value holds, and the operations
//! of that crate which read, build and change one.

use serde_json::{Map as JsonMap, Value};
use vstd::prelude::*;

verus! {

// --- the tree ---------------------------------------------------------------

/// A JSON document. A number is held by the text that it is written as, an
/// object by its members in order.
#[verifier::ext_equal]
pub ghost enum Json {
    Null,
    Bool(bool),
    Number(Seq<char>),
    Str(Seq<char>),
    Array(Seq<Json>),
    Object(Seq<(Seq<char>, Json)>),
}

/// The members of an object, in order.
pub type Members = Seq<(Seq<char>, Json)>;

/// No two members have one name.
pub open spec fn unique_keys(ms: Members) -> bool {
    forall|i: int, j: int| 0 <= i < j < ms.len() ==> (#[trigger] ms[i]).0 != (#[trigger] ms[j]).0
}

/// Some member is named `key`.
pub open spec fn has_key(ms: Members, key: Seq<char>) -> bool {
    exists|i: int| 0 <= i < ms.len() && (#[trigger] ms[i]).0 == key
}

/// The position of the member named `key`.
pub open spec fn key_at(ms: Members, key: Seq<char>) -> int {
    choose|i: int| 0 <= i < ms.len() && (#[trigger] ms[i]).0 == key
}

/// The value of the member named `key`.
pub open spec fn lookup(ms: Members, key: Seq<char>) -> Option<Json> {
    if has_key(ms, key) {
        Some(ms[key_at(ms, key)].1)
    } else {
        None
    }
}

/// The members with `key` set to `value`: in its place where the name is there,
/// at the end where it is not.
pub open spec fn upsert(ms: Members, key: Seq<char>, value: Json) -> Members {
    if has_key(ms, key) {
        ms.update(key_at(ms, key), (key, value))
    } else {
        ms.push((key, value))
    }
}

/// A number's text has no exponent, a negative one, or one of at most two digits
/// behind its sign.
pub open spec fn small_exponent(text: Seq<char>) -> bool {
    forall|p: int|
        0 <= p < text.len() && #[trigger] text[p] == 'e' ==> text.len() - p <= 4 || text[p + 1]
            == '-'
}

impl Json {
    /// The members of an object; none of anything else.
    pub open spec fn members(self) -> Members {
        match self {
            Json::Object(ms) => ms,
            _ => Seq::empty(),
        }
    }

    /// The member `key` of an object.
    pub open spec fn member(self, key: Seq<char>) -> Option<Json> {
        lookup(self.members(), key)
    }

    /// Objects and arrays are nested at most `n` deep, and no number has an exponent
    /// above 99.
    pub open spec fn plain(self, n: nat) -> bool
        decreases self,
    {
        match self {
            Json::Number(text) => small_exponent(text),
            Json::Array(items) => n > 0 && forall|i: int|
                0 <= i < items.len() ==> (#[trigger] items[i]).plain((n - 1) as nat),
            Json::Object(ms) => n > 0 && forall|i: int|
                0 <= i < ms.len() ==> (#[trigger] ms[i]).1.plain((n - 1) as nat),
            _ => true,
        }
    }

    /// No name occurs twice in any object.
    pub open spec fn proper(self) -> bool
        decreases self,
    {
        match self {
            Json::Array(items) => forall|i: int|
                0 <= i < items.len() ==> (#[trigger] items[i]).proper(),
            Json::Object(ms) => unique_keys(ms) && forall|i: int|
                0 <= i < ms.len() ==> (#[trigger] ms[i]).1.proper(),
            _ => true,
        }
    }

    /// The same document but for the digits of numbers that are no integers.
    pub open spec fn alike(self, other: Json) -> bool
        decreases self,
    {
        match (self, other) {
            (Json::Number(s), Json::Number(t)) => s == t || s.contains('.') || s.contains('e'),
            (Json::Array(xs), Json::Array(ys)) => xs.len() == ys.len() && forall|i: int|
                0 <= i < xs.len() ==> (#[trigger] xs[i]).alike(ys[i]),
            (Json::Object(xs), Json::Object(ys)) => xs.len() == ys.len() && forall|i: int|
                0 <= i < xs.len() ==> (#[trigger] xs[i]).0 == ys[i].0 && xs[i].1.alike(ys[i].1),
            _ => self == other,
        }
    }
}

// --- serde_json -------------------------------------------------------------

/// `serde_json::Value`.
#[verifier::external_type_specification]
#[verifier::external_body]
pub struct ExValue(Value);

/// `serde_json::Map`.
#[verifier::external_type_specification]
#[verifier::external_body]
#[verifier::reject_recursive_types(K)]
#[verifier::reject_recursive_types(V)]
pub struct ExJsonMap<K, V>(JsonMap<K, V>);

/// The document that a value holds.
pub uninterp spec fn json_tree(value: Value) -> Json;

/// The members that a map holds, in order.
pub uninterp spec fn map_entries(map: JsonMap<String, Value>) -> Members;

/// What `serde_json::from_str` makes of a text; `None` where it refuses it.
pub uninterp spec fn json_parsed(text: Seq<char>) -> Option<Json>;

/// The text that `serde_json::to_string_pretty` writes for a document.
pub uninterp spec fn json_pretty(tree: Json) -> Seq<char>;

/// Nesting that `serde_json` still reads.
pub open spec fn nesting_limit() -> nat {
    127
}

/// The text reads back as the document, but for the digits of numbers that are no
/// integers.
pub open spec fn reads_back(text: Seq<char>, doc: Json) -> bool {
    json_parsed(text) matches Some(back) && doc.alike(back)
}

/// `serde_json::from_str` into a `Value`: the document that the text holds, or
/// nothing where the text is not one JSON value. No name occurs twice in any
/// object: of members of one name the last counts.
#[verifier::external_body]
pub(crate) fn parse(text: &str) -> (value: Option<Value>)
    ensures
        value is Some <==> json_parsed(text@) is Some,
        value matches Some(v) ==> json_parsed(text@) == Some(json_tree(v)) && json_tree(v).proper(),
{
    serde_json::from_str::<Value>(text).ok()
}

/// `serde_json::to_string_pretty` of a `Value`, which never fails. Followed by
/// a line break, the text reads back as the document, where nesting stays
/// within the reader's limit and no number has an exponent above 99; a number that
/// is no integer may read back as a neighbouring one. Of larger numbers nothing
/// is said: the reader refuses one that its rounding takes out of range.
#[verifier::external_body]
pub(crate) fn pretty(value: &Value) -> (text: Option<String>)
    ensures
        text is Some,
        text->0@ == json_pretty(json_tree(*value)),
        json_tree(*value).plain(nesting_limit()) ==> reads_back(
            text->0@.push('\n'),
            json_tree(*value),
        ),
{
    serde_json::to_string_pretty(value).ok()
}

/// `Value::is_object`: whether the document is an object.
pub assume_specification[ Value::is_object ](value: &Value) -> (r: bool)
    ensures
        r == (json_tree(*value) is Object),
;

/// `Value::as_object`: the members of an object, whose names are all different.
pub assume_specification[ Value::as_object ](value: &Value) -> (map: Option<
    &JsonMap<String, Value>,
>)
    ensures
        map is Some <==> json_tree(*value) is Object,
        map matches Some(m) ==> json_tree(*value) == Json::Object(map_entries(*m)) && unique_keys(
            map_entries(*m),
        ),
;

/// `Value::as_object_mut`: the members of an object, to be changed in place.
pub assume_specification[ Value::as_object_mut ](value: &mut Value) -> (map: Option<
    &mut JsonMap<String, Value>,
>)
    ensures
        map is Some <==> json_tree(*old(value)) is Object,
        map is None ==> *final(value) == *old(value),
        map matches Some(m) ==> json_tree(*old(value)) == Json::Object(map_entries(*m))
            && unique_keys(map_entries(*m)) && json_tree(*final(value)) == Json::Object(
            map_entries(*final(m)),
        ),
;

/// `Value::as_str`: the text of a string.
pub assume_specification[ Value::as_str ](value: &Value) -> (text: Option<&str>)
    ensures
        text is Some <==> json_tree(*value) is Str,
        text matches Some(s) ==> json_tree(*value) == Json::Str(s@),
;

/// `Value::get` with a name: that member of an object; of anything else, nothing.
#[verifier::external_body]
pub(crate) fn member<'a>(value: &'a Value, key: &str) -> (found: Option<&'a Value>)
    ensures
        found is Some <==> json_tree(*value).member(key@) is Some,
        found matches Some(v) ==> json_tree(*value).member(key@) == Some(json_tree(*v)),
{
    value.get(key)
}

/// `Value::Object`: the object with these members.
#[verifier::external_body]
pub(crate) fn object_value(map: JsonMap<String, Value>) -> (value: Value)
    ensures
        json_tree(value) == Json::Object(map_entries(map)),
{
    Value::Object(map)
}

/// `Value::String`: a string.
#[verifier::external_body]
pub(crate) fn string_value(text: String) -> (value: Value)
    ensures
        json_tree(value) == Json::Str(text@),
{
    Value::String(text)
}

/// `Map::new`: no members.
pub assume_specification[ JsonMap::<String, Value>::new ]() -> (map: JsonMap<String, Value>)
    ensures
        map_entries(map) == Members::empty(),
;

/// `Map::is_empty`: whether there are no members.
pub assume_specification[ JsonMap::<String, Value>::is_empty ](
    map: &JsonMap<String, Value>,
) -> (r: bool)
    ensures
        r == (map_entries(*map).len() == 0),
;

/// `Map::insert`: sets a member, in its place where the name is there, at the
/// end where it is not, and hands back the value that it replaced.
pub assume_specification[ JsonMap::<String, Value>::insert ](
    map: &mut JsonMap<String, Value>,
    key: String,
    value: Value,
) -> (replaced: Option<Value>)
    ensures
        map_entries(*final(map)) == upsert(map_entries(*old(map)), key@, json_tree(value)),
        replaced is Some <==> has_key(map_entries(*old(map)), key@),
        replaced matches Some(v) ==> lookup(map_entries(*old(map)), key@) == Some(json_tree(v)),
;

/// `Map::get_mut`: a member's value, to be changed in place.
#[verifier::external_body]
pub(crate) fn member_mut<'a>(map: &'a mut JsonMap<String, Value>, key: &str) -> (found: Option<
    &'a mut Value,
>)
    ensures
        found is Some <==> has_key(map_entries(*old(map)), key@),
        found is None ==> *final(map) == *old(map),
        found matches Some(v) ==> lookup(map_entries(*old(map)), key@) == Some(json_tree(*v))
            && map_entries(*final(map)) == upsert(
            map_entries(*old(map)),
            key@,
            json_tree(*final(v)),
        ),
{
    map.get_mut(key)
}

/// The names and documents of a list of members.
pub open spec fn pair_views(pairs: Seq<(&String, &Value)>) -> Members {
    pairs.map_values(|p: (&String, &Value)| (p.0@, json_tree(*p.1)))
}

/// `Map::iter`: the members in order, whose names are all different.
#[verifier::external_body]
pub(crate) fn member_list<'a>(map: &'a JsonMap<String, Value>) -> (pairs: Vec<
    (&'a String, &'a Value),
>)
    ensures
        pair_views(pairs@) == map_entries(*map),
        unique_keys(pair_views(pairs@)),
{
    map.iter().collect()
}

/// `Value::clone`: the same document.
pub assume_specification[ <Value as Clone>::clone ](value: &Value) -> (copy: Value)
    ensures
        json_tree(copy) == json_tree(*value),
;

// --- facts about members ----------------------------------------------------

/// Where no name occurs twice, a name has one position.
pub proof fn lemma_key_at(ms: Members, key: Seq<char>, i: int)
    requires
        unique_keys(ms),
        0 <= i < ms.len(),
        ms[i].0 == key,
    ensures
        has_key(ms, key),
        key_at(ms, key) == i,
{
    let j = key_at(ms, key);
    assert(0 <= j < ms.len() && ms[j].0 == key);
    if i < j {
        assert(ms[i].0 != ms[j].0);
    } else if j < i {
        assert(ms[j].0 != ms[i].0);
    }
}

/// Setting a member keeps names different from one another.
pub proof fn lemma_upsert_unique(ms: Members, key: Seq<char>, value: Json)
    requires
        unique_keys(ms),
    ensures
        unique_keys(upsert(ms, key, value)),
{
    let after = upsert(ms, key, value);
    if has_key(ms, key) {
        let at = key_at(ms, key);
        assert(forall|i: int| 0 <= i < ms.len() ==> (#[trigger] after[i]).0 == ms[i].0);
    } else {
        assert(forall|i: int| 0 <= i < ms.len() ==> #[trigger] after[i] == ms[i]);
    }
}

/// A member that was set is found with its value, every other one as before.
pub proof fn lemma_upsert_lookup(ms: Members, key: Seq<char>, value: Json)
    requires
        unique_keys(ms),
    ensures
        has_key(upsert(ms, key, value), key),
        lookup(upsert(ms, key, value), key) == Some(value),
        forall|other: Seq<char>|
            other != key ==> #[trigger] lookup(upsert(ms, key, value), other) == lookup(ms, other),
{
    let after = upsert(ms, key, value);
    lemma_upsert_unique(ms, key, value);
    let at = if has_key(ms, key) {
        key_at(ms, key)
    } else {
        ms.len() as int
    };
    assert(after[at] == (key, value));
    lemma_key_at(after, key, at);
    assert forall|other: Seq<char>| other != key implies #[trigger] lookup(after, other) == lookup(
        ms,
        other,
    ) by {
        if has_key(ms, other) {
            let i = key_at(ms, other);
            assert(after[i] == ms[i]);
            lemma_key_at(after, other, i);
        } else if has_key(after, other) {
            let i = key_at(after, other);
            assert(after[i].0 == other);
            assert(ms[i].0 == other);
        }
    }
}

/// Of two settings of one member, the later counts.
pub proof fn lemma_upsert_twice(ms: Members, key: Seq<char>, first: Json, second: Json)
    requires
        unique_keys(ms),
    ensures
        upsert(upsert(ms, key, first), key, second) == upsert(ms, key, second),
{
    let once = upsert(ms, key, first);
    lemma_upsert_unique(ms, key, first);
    let at = if has_key(ms, key) {
        key_at(ms, key)
    } else {
        ms.len() as int
    };
    assert(once[at] == (key, first));
    lemma_key_at(once, key, at);
    assert(upsert(once, key, second) =~= upsert(ms, key, second));
}

} // verus!
