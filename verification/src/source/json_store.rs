//! Reading and writing the JSON files that hold scripts. Which file, and under
//! which key the scripts stand in it, is for the caller to say.

use serde_json::{Map as JsonMap, Value};
use vstd::prelude::*;

use crate::json::{
    has_key, json_parsed, json_pretty, json_tree, key_at, lemma_key_at, lemma_upsert_lookup,
    lemma_upsert_twice, lemma_upsert_unique, lookup, map_entries, member, member_list, member_mut,
    nesting_limit, object_value, pair_views, parse, pretty, reads_back, string_value, unique_keys,
    upsert, Json, Members,
};
use crate::text::same_text;

use super::{listed, text_view};

verus! {

// --- what the operations do to a document -----------------------------------

/// The document that a file holds: an empty object where there is no file, or
/// where its text is not JSON.
pub open spec fn opened(text: Option<Seq<char>>) -> Json {
    match text {
        Some(t) => match json_parsed(t) {
            Some(doc) => doc,
            None => Json::Object(Seq::empty()),
        },
        None => Json::Object(Seq::empty()),
    }
}

/// The text that a document is written as.
pub open spec fn stored(doc: Json) -> Seq<char> {
    json_pretty(doc).push('\n')
}

/// The members under `key`, or those of the document itself.
pub open spec fn scripts_in(doc: Json, key: Option<Seq<char>>) -> Members {
    match key {
        None => doc.members(),
        Some(k) => match doc.member(k) {
            Some(inner) => inner.members(),
            None => Seq::empty(),
        },
    }
}

/// The document with these members under `key`, or as its own.
pub open spec fn with_scripts(doc: Json, key: Option<Seq<char>>, ms: Members) -> Json {
    match key {
        None => Json::Object(ms),
        Some(k) => Json::Object(upsert(doc.members(), k, Json::Object(ms))),
    }
}

/// The document with one script set.
pub open spec fn script_set(
    doc: Json,
    key: Option<Seq<char>>,
    name: Seq<char>,
    command: Seq<char>,
) -> Json {
    with_scripts(doc, key, upsert(scripts_in(doc, key), name, Json::Str(command)))
}

/// The members with `old` renamed to `new` and its value set to `command`. The
/// member stays in its place. Where `old` is not there, `new` is set. Where both
/// are there, one member is left of the two, at the earlier of their places.
pub open spec fn renamed(
    ms: Members,
    old_name: Seq<char>,
    new_name: Seq<char>,
    command: Seq<char>,
) -> Members {
    let entry = (new_name, Json::Str(command));
    if old_name == new_name || !has_key(ms, old_name) {
        upsert(ms, new_name, Json::Str(command))
    } else if !has_key(ms, new_name) {
        ms.update(key_at(ms, old_name), entry)
    } else if key_at(ms, new_name) < key_at(ms, old_name) {
        ms.update(key_at(ms, new_name), entry).remove(key_at(ms, old_name))
    } else {
        ms.update(key_at(ms, old_name), entry).remove(key_at(ms, new_name))
    }
}

/// The document with one script renamed and its command set.
pub open spec fn script_renamed(
    doc: Json,
    key: Option<Seq<char>>,
    old_name: Seq<char>,
    new_name: Seq<char>,
    command: Seq<char>,
) -> Json {
    with_scripts(doc, key, renamed(scripts_in(doc, key), old_name, new_name, command))
}

// --- the operations -----------------------------------------------------------

/// Reads a file's text. With no file, or with a broken one, an empty object.
pub fn read(text: Option<&str>) -> (value: Value)
    ensures
        json_tree(value) == opened(text_view(text)),
        json_tree(value).proper(),
{
    match text {
        Some(t) => match parse(t) {
            Some(value) => value,
            None => object_value(JsonMap::<String, Value>::new()),
        },
        None => object_value(JsonMap::<String, Value>::new()),
    }
}

/// The text to write: indented by two spaces, with a line break at the end.
pub fn write(value: &Value) -> (text: String)
    ensures
        text@ == stored(json_tree(*value)),
        json_tree(*value).plain(nesting_limit()) ==> reads_back(text@, json_tree(*value)),
{
    let mut text = pretty(value).unwrap();
    text.push('\n');
    text
}

/// Sets a script: in its place where the name is there, at the end otherwise.
pub fn set_script(value: &mut Value, key: Option<&str>, name: &str, command: &str)
    ensures
        json_tree(*final(value)) == script_set(
            json_tree(*old(value)),
            text_view(key),
            name@,
            command@,
        ),
{
    let map = scripts_map(value, key);
    map.insert(name.to_string(), string_value(command.to_string()));
}

/// Renames a script and sets its command.
pub fn rename_script(
    value: &mut Value,
    key: Option<&str>,
    old_name: &str,
    new_name: &str,
    command: &str,
)
    ensures
        json_tree(*final(value)) == script_renamed(
            json_tree(*old(value)),
            text_view(key),
            old_name@,
            new_name@,
            command@,
        ),
{
    let map = scripts_map(value, key);
    if same_text(old_name, new_name) {
        map.insert(new_name.to_string(), string_value(command.to_string()));
        return;
    }
    let pairs = member_list(map);
    let ghost ms = map_entries(*map);
    let mut rebuilt = JsonMap::<String, Value>::new();
    let mut replaced = false;
    assert(ms.take(0) =~= Members::empty());
    let mut n: usize = 0;
    while n < pairs.len()
        invariant
            n <= pairs.len(),
            pair_views(pairs@) == ms,
            unique_keys(ms),
            old_name@ != new_name@,
            replaced == has_key(ms.take(n as int), old_name@),
            map_entries(rebuilt) == carried(ms.take(n as int), old_name@, new_name@, command@),
        decreases pairs.len() - n,
    {
        proof {
            lemma_carried_step(ms, old_name@, new_name@, command@, n as int);
            assert(ms[n as int] == (pairs@[n as int].0@, json_tree(*pairs@[n as int].1)));
        }
        let name = pairs[n].0;
        if same_text(name, old_name) {
            rebuilt.insert(new_name.to_string(), string_value(command.to_string()));
            replaced = true;
        } else if !replaced || !same_text(name, new_name) {
            let kept = pairs[n].1.clone();
            rebuilt.insert(name.clone(), kept);
        }
        n += 1;
    }
    assert(ms.take(n as int) =~= ms);
    if !replaced {
        rebuilt.insert(new_name.to_string(), string_value(command.to_string()));
    }
    *map = rebuilt;
}

/// The members under `key`, or those of the value itself, to be changed in
/// place. What is not an object there is replaced by an empty one.
fn scripts_map<'a>(value: &'a mut Value, key: Option<&str>) -> (map: &'a mut JsonMap<String, Value>)
    ensures
        unique_keys(map_entries(*map)),
        map_entries(*map) == scripts_in(json_tree(*old(value)), text_view(key)),
        json_tree(*final(value)) == with_scripts(
            json_tree(*old(value)),
            text_view(key),
            map_entries(*final(map)),
        ),
{
    if !value.is_object() {
        *value = object_value(JsonMap::<String, Value>::new());
    }
    match key {
        None => value.as_object_mut().unwrap(),
        Some(k) => {
            let is_there = match member(value, k) {
                Some(inner) => inner.is_object(),
                None => false,
            };
            let obj = value.as_object_mut().unwrap();
            let ghost ms = map_entries(*obj);
            if !is_there {
                proof {
                    lemma_upsert_lookup(ms, k@, Json::Object(Seq::empty()));
                    assert forall|last: Json| #[trigger]
                        upsert(upsert(ms, k@, Json::Object(Seq::empty())), k@, last) == upsert(
                        ms,
                        k@,
                        last,
                    ) by {
                        lemma_upsert_twice(ms, k@, Json::Object(Seq::empty()), last);
                    }
                }
                obj.insert(k.to_string(), object_value(JsonMap::<String, Value>::new()));
            }
            member_mut(obj, k).unwrap().as_object_mut().unwrap()
        },
    }
}

// --- renaming, member by member -----------------------------------------------

/// What renaming leaves of a list of members: the list itself as long as `old`
/// is not in it.
spec fn carried(
    ms: Members,
    old_name: Seq<char>,
    new_name: Seq<char>,
    command: Seq<char>,
) -> Members {
    if has_key(ms, old_name) {
        renamed(ms, old_name, new_name, command)
    } else {
        ms
    }
}


/// One more member, carried over.
proof fn lemma_carried_step(
    ms: Members,
    old_name: Seq<char>,
    new_name: Seq<char>,
    command: Seq<char>,
    n: int,
)
    requires
        unique_keys(ms),
        old_name != new_name,
        0 <= n < ms.len(),
    ensures
        has_key(ms.take(n + 1), old_name) <==> has_key(ms.take(n), old_name) || ms[n].0
            == old_name,
        carried(ms.take(n + 1), old_name, new_name, command) == if ms[n].0 == old_name {
            upsert(carried(ms.take(n), old_name, new_name, command), new_name, Json::Str(command))
        } else if has_key(ms.take(n), old_name) && ms[n].0 == new_name {
            carried(ms.take(n), old_name, new_name, command)
        } else {
            upsert(carried(ms.take(n), old_name, new_name, command), ms[n].0, ms[n].1)
        },
{
    let short = ms.take(n);
    let long = ms.take(n + 1);
    let entry = (new_name, Json::Str(command));
    assert(long =~= short.push(ms[n]));
    assert(long[n] == ms[n]);
    assert(forall|i: int| 0 <= i < n ==> #[trigger] long[i] == short[i]);
    assert forall|key: Seq<char>| #[trigger] has_key(long, key) == (has_key(short, key) || ms[n].0
        == key) by {
        if has_key(short, key) {
            let i = key_at(short, key);
            assert(long[i].0 == key);
        }
        if has_key(long, key) {
            let i = key_at(long, key);
            if i < n {
                assert(short[i].0 == key);
            }
        }
    }
    assert forall|key: Seq<char>| #[trigger] has_key(short, key) implies key_at(long, key)
        == key_at(short, key) by {
        let i = key_at(short, key);
        assert(long[i].0 == key);
        lemma_key_at(long, key, i);
    }
    assert(!has_key(short, ms[n].0)) by {
        if has_key(short, ms[n].0) {
            let i = key_at(short, ms[n].0);
            assert(ms[i].0 != ms[n].0);
        }
    }
    lemma_key_at(long, ms[n].0, n);
    let before = carried(short, old_name, new_name, command);
    let after = carried(long, old_name, new_name, command);
    if ms[n].0 == old_name {
        if has_key(short, new_name) {
            assert(after =~= short.update(key_at(short, new_name), entry));
        } else {
            assert(after =~= short.push(entry));
        }
    } else if ms[n].0 == new_name {
        if has_key(short, old_name) {
            let at = key_at(short, old_name);
            assert(before =~= short.update(at, entry));
            assert(after =~= before);
        } else {
            assert(after =~= short.push(ms[n]));
        }
    } else {
        assert(!has_key(before, ms[n].0)) by {
            if has_key(before, ms[n].0) {
                let i = key_at(before, ms[n].0);
                assert(before[i].0 == ms[n].0);
                lemma_carried_names(short, old_name, new_name, command, i);
            }
        }
        assert(after =~= before.push(ms[n]));
    }
}

/// Renaming brings in no name but the new one.
proof fn lemma_carried_names(
    ms: Members,
    old_name: Seq<char>,
    new_name: Seq<char>,
    command: Seq<char>,
    i: int,
)
    requires
        0 <= i < carried(ms, old_name, new_name, command).len(),
    ensures
        ({
            let name = carried(ms, old_name, new_name, command)[i].0;
            name == new_name || has_key(ms, name)
        }),
{
    let after = carried(ms, old_name, new_name, command);
    if has_key(ms, old_name) {
        let at = key_at(ms, old_name);
        if has_key(ms, new_name) {
            let other = key_at(ms, new_name);
            let gone = if other < at {
                at
            } else {
                other
            };
            if old_name == new_name {
                assert(after[i].0 == ms[i].0 || after[i].0 == new_name);
            } else if i < gone {
                assert(after[i].0 == ms[i].0 || after[i].0 == new_name);
            } else {
                assert(after[i].0 == ms[i + 1].0 || after[i].0 == new_name);
            }
        } else {
            assert(after[i].0 == ms[i].0 || after[i].0 == new_name);
        }
    } else {
        assert(after[i].0 == ms[i].0);
    }
}

// --- reading back what was written --------------------------------------------

/// In a document without names that occur twice, the scripts have none either.
pub(crate) proof fn lemma_proper_scripts(doc: Json, key: Option<Seq<char>>)
    requires
        doc.proper(),
    ensures
        unique_keys(doc.members()),
        unique_keys(scripts_in(doc, key)),
{
    if let Some(k) = key {
        if let Some(inner) = doc.member(k) {
            let at = key_at(doc.members(), k);
            assert(doc.members()[at].1 == inner);
            assert(inner.proper());
        }
    }
}

/// Every member's value is plain.
pub open spec fn plain_members(ms: Members, n: nat) -> bool {
    forall|i: int| 0 <= i < ms.len() ==> (#[trigger] ms[i]).1.plain(n)
}

/// Setting a member to a plain value keeps all values plain.
proof fn lemma_upsert_plain(ms: Members, key: Seq<char>, value: Json, n: nat)
    requires
        plain_members(ms, n),
        value.plain(n),
    ensures
        plain_members(upsert(ms, key, value), n),
{
    let after = upsert(ms, key, value);
    assert forall|i: int| 0 <= i < after.len() implies (#[trigger] after[i]).1.plain(n) by {
        if i < ms.len() {
            assert(ms[i].1.plain(n));
        }
    }
}

/// Writing plain scripts into a plain document keeps it plain.
proof fn lemma_with_scripts_plain(doc: Json, key: Option<Seq<char>>, ms: Members, n: nat)
    requires
        n >= 2,
        doc.plain(n),
        key is None ==> plain_members(ms, (n - 1) as nat),
        key is Some ==> plain_members(ms, (n - 2) as nat),
    ensures
        with_scripts(doc, key, ms).plain(n),
{
    reveal_with_fuel(Json::plain, 2);
    if let Some(k) = key {
        assert(plain_members(doc.members(), (n - 1) as nat));
        assert(Json::Object(ms).plain((n - 1) as nat));
        lemma_upsert_plain(doc.members(), k, Json::Object(ms), (n - 1) as nat);
    }
}

/// The scripts of a plain document are plain.
proof fn lemma_scripts_plain(doc: Json, key: Option<Seq<char>>, n: nat)
    requires
        n >= 2,
        doc.plain(n),
    ensures
        key is None ==> plain_members(scripts_in(doc, key), (n - 1) as nat),
        key is Some ==> plain_members(scripts_in(doc, key), (n - 2) as nat),
{
    if let Some(k) = key {
        if let Some(inner) = doc.member(k) {
            let at = key_at(doc.members(), k);
            assert(doc.members()[at].1 == inner);
            assert(inner.plain((n - 1) as nat));
            assert(plain_members(inner.members(), (n - 2) as nat));
        }
    }
}

/// Setting a script keeps a plain document plain.
pub(crate) proof fn lemma_set_plain(
    doc: Json,
    key: Option<Seq<char>>,
    name: Seq<char>,
    command: Seq<char>,
)
    requires
        doc.plain(nesting_limit()),
    ensures
        script_set(doc, key, name, command).plain(nesting_limit()),
{
    let n = nesting_limit();
    lemma_scripts_plain(doc, key, n);
    let depth = if key is None {
        (n - 1) as nat
    } else {
        (n - 2) as nat
    };
    lemma_upsert_plain(scripts_in(doc, key), name, Json::Str(command), depth);
    lemma_with_scripts_plain(
        doc,
        key,
        upsert(scripts_in(doc, key), name, Json::Str(command)),
        n,
    );
}

/// Renaming a script keeps a plain document plain.
pub(crate) proof fn lemma_rename_plain(
    doc: Json,
    key: Option<Seq<char>>,
    old_name: Seq<char>,
    new_name: Seq<char>,
    command: Seq<char>,
)
    requires
        doc.plain(nesting_limit()),
    ensures
        script_renamed(doc, key, old_name, new_name, command).plain(nesting_limit()),
{
    let n = nesting_limit();
    lemma_scripts_plain(doc, key, n);
    let depth = if key is None {
        (n - 1) as nat
    } else {
        (n - 2) as nat
    };
    let ms = scripts_in(doc, key);
    let after = renamed(ms, old_name, new_name, command);
    lemma_upsert_plain(ms, new_name, Json::Str(command), depth);
    assert(plain_members(after, depth)) by {
        if old_name != new_name && has_key(ms, old_name) {
            let at = key_at(ms, old_name);
            assert(0 <= at < ms.len());
            if has_key(ms, new_name) {
                let other = key_at(ms, new_name);
                assert(0 <= other < ms.len());
                assert(ms[other].1.plain(depth));
                let gone = if other < at {
                    at
                } else {
                    other
                };
                assert forall|i: int| 0 <= i < after.len() implies (
                #[trigger] after[i]).1.plain(depth) by {
                    if i < gone {
                        assert(ms[i].1.plain(depth));
                    } else {
                        assert(ms[i + 1].1.plain(depth));
                    }
                }
            } else {
                assert forall|i: int| 0 <= i < after.len() implies (
                #[trigger] after[i]).1.plain(depth) by {
                    assert(ms[i].1.plain(depth));
                }
            }
        }
    }
    lemma_with_scripts_plain(doc, key, after, n);
}

/// Values that differ in the digits of numbers alone list the same scripts.
proof fn lemma_alike_listed(a: Json, b: Json, source: Seq<char>)
    requires
        a.alike(b),
    ensures
        listed(a.members(), source) == listed(b.members(), source),
        a is Object == b is Object,
{
    let xs = a.members();
    let ys = b.members();
    assert(xs.len() == ys.len());
    assert forall|i: int| 0 <= i < xs.len() implies #[trigger] listed(xs, source)[i] == listed(
        ys,
        source,
    )[i] by {
        assert(xs[i].0 == ys[i].0);
        assert(xs[i].1.alike(ys[i].1));
    }
    assert(listed(xs, source) =~= listed(ys, source));
}

/// Two documents that differ in the digits of numbers alone list the same scripts.
pub(crate) proof fn lemma_alike_lists(
    doc: Json,
    back: Json,
    key: Option<Seq<char>>,
    source: Seq<char>,
)
    requires
        unique_keys(doc.members()),
        doc.alike(back),
    ensures
        listed(scripts_in(doc, key), source) == listed(scripts_in(back, key), source),
        key matches Some(k) ==> (doc.member(k) matches Some(inner) && inner is Object) == (
        back.member(k) matches Some(inner) && inner is Object),
{
    let xs = doc.members();
    let ys = back.members();
    assert(xs.len() == ys.len());
    assert(forall|i: int|
        0 <= i < xs.len() ==> (#[trigger] xs[i]).0 == ys[i].0 && xs[i].1.alike(ys[i].1));
    match key {
        None => {
            lemma_alike_listed(doc, back, source);
        },
        Some(k) => {
            if has_key(xs, k) {
                let at = key_at(xs, k);
                assert(ys[at].0 == k);
                assert forall|i: int, j: int| 0 <= i < j < ys.len() implies (#[trigger] ys[i]).0
                    != (#[trigger] ys[j]).0 by {
                    assert(xs[i].0 != xs[j].0);
                }
                lemma_key_at(ys, k, at);
                let a = xs[at].1;
                let b = ys[at].1;
                lemma_alike_listed(a, b, source);
            } else if has_key(ys, k) {
                let at = key_at(ys, k);
                assert(ys[at].0 == k);
                assert(xs[at].0 == k);
            }
        },
    }
}

// --- laws ---------------------------------------------------------------------

/// A script that was set is found with its command, every other script as
/// before; every name keeps its place, and a new one comes last.
pub proof fn law_set_keeps_the_rest(ms: Members, name: Seq<char>, command: Seq<char>)
    requires
        unique_keys(ms),
    ensures
        ({
            let after = upsert(ms, name, Json::Str(command));
            &&& lookup(after, name) == Some(Json::Str(command))
            &&& forall|other: Seq<char>|
                other != name ==> #[trigger] lookup(after, other) == lookup(ms, other)
            &&& after.len() == ms.len() + if has_key(ms, name) {
                0int
            } else {
                1int
            }
            &&& forall|i: int| 0 <= i < ms.len() ==> (#[trigger] after[i]).0 == ms[i].0
            &&& !has_key(ms, name) ==> after.last().0 == name
        }),
{
    lemma_upsert_lookup(ms, name, Json::Str(command));
}

/// A script that gets a name of its own stays in its place, and all others stay
/// as they are.
pub proof fn law_rename_keeps_position(
    ms: Members,
    old_name: Seq<char>,
    new_name: Seq<char>,
    command: Seq<char>,
)
    requires
        unique_keys(ms),
        has_key(ms, old_name),
        new_name == old_name || !has_key(ms, new_name),
    ensures
        renamed(ms, old_name, new_name, command) == ms.update(
            key_at(ms, old_name),
            (new_name, Json::Str(command)),
        ),
{
}

/// After a renaming the old name is gone, the new one has the command, and no
/// other script has changed, also where the new name was taken.
pub proof fn law_rename_sets_command(
    ms: Members,
    old_name: Seq<char>,
    new_name: Seq<char>,
    command: Seq<char>,
)
    requires
        unique_keys(ms),
    ensures
        ({
            let after = renamed(ms, old_name, new_name, command);
            &&& unique_keys(after)
            &&& lookup(after, new_name) == Some(Json::Str(command))
            &&& old_name != new_name ==> !has_key(after, old_name)
            &&& forall|other: Seq<char>|
                other != old_name && other != new_name ==> #[trigger] lookup(after, other)
                    == lookup(ms, other)
        }),
{
    let after = renamed(ms, old_name, new_name, command);
    let entry = (new_name, Json::Str(command));
    lemma_upsert_lookup(ms, new_name, Json::Str(command));
    lemma_upsert_unique(ms, new_name, Json::Str(command));
    if old_name == new_name {
    } else if !has_key(ms, old_name) {
        if has_key(after, old_name) {
            let i = key_at(after, old_name);
            assert(after[i].0 == old_name);
            assert(ms[i].0 == old_name);
        }
    } else if !has_key(ms, new_name) {
        let at = key_at(ms, old_name);
        assert forall|i: int, j: int| 0 <= i < j < after.len() implies (#[trigger] after[i]).0 != (
        #[trigger] after[j]).0 by {
            assert(ms[i].0 != ms[j].0);
        }
        assert(after[at] == entry);
        lemma_key_at(after, new_name, at);
        if has_key(after, old_name) {
            let i = key_at(after, old_name);
            assert(after[i].0 == old_name);
            assert(ms[i].0 == old_name);
            lemma_key_at(ms, old_name, i);
        }
        assert forall|other: Seq<char>| other != old_name && other != new_name implies
            #[trigger] lookup(after, other) == lookup(ms, other) by {
            if has_key(ms, other) {
                let i = key_at(ms, other);
                assert(after[i] == ms[i]);
                lemma_key_at(after, other, i);
            } else if has_key(after, other) {
                let i = key_at(after, other);
                assert(after[i].0 == other);
                assert(ms[i].0 == other);
            }
        }
    } else {
        let at_old = key_at(ms, old_name);
        let at_new = key_at(ms, new_name);
        assert(ms[at_old].0 == old_name && ms[at_new].0 == new_name);
        let (kept, gone) = if at_new < at_old {
            (at_new, at_old)
        } else {
            (at_old, at_new)
        };
        assert forall|i: int| 0 <= i < after.len() implies #[trigger] after[i] == if i == kept {
            entry
        } else if i < gone {
            ms[i]
        } else {
            ms[i + 1]
        } by {}
        assert forall|i: int, j: int| 0 <= i < j < after.len() implies (#[trigger] after[i]).0 != (
        #[trigger] after[j]).0 by {
            let oi = if i < gone {
                i
            } else {
                i + 1
            };
            let oj = if j < gone {
                j
            } else {
                j + 1
            };
            assert(ms[oi].0 != ms[oj].0);
            assert(oi < at_new ==> ms[oi].0 != ms[at_new].0);
            assert(at_new < oj ==> ms[at_new].0 != ms[oj].0);
            assert(at_new < oi ==> ms[at_new].0 != ms[oi].0);
            assert(oj < at_new ==> ms[oj].0 != ms[at_new].0);
        }
        assert(after[kept] == entry);
        lemma_key_at(after, new_name, kept);
        if has_key(after, old_name) {
            let i = key_at(after, old_name);
            assert(after[i].0 == old_name);
            let oi = if i < gone {
                i
            } else {
                i + 1
            };
            assert(ms[oi].0 == old_name);
            lemma_key_at(ms, old_name, oi);
        }
        assert forall|other: Seq<char>| other != old_name && other != new_name implies
            #[trigger] lookup(after, other) == lookup(ms, other) by {
            if has_key(ms, other) {
                let i = key_at(ms, other);
                let ni = if i < gone {
                    i
                } else {
                    i - 1
                };
                assert(after[ni] == ms[i]);
                lemma_key_at(after, other, ni);
            } else if has_key(after, other) {
                let i = key_at(after, other);
                assert(after[i].0 == other);
                let oi = if i < gone {
                    i
                } else {
                    i + 1
                };
                assert(ms[oi].0 == other);
            }
        }
    }
}

/// Renaming keeps names different from one another, and gives a name that it
/// leaves either the value that it had or the command.
pub(crate) proof fn lemma_renamed_lookup(
    ms: Members,
    old_name: Seq<char>,
    new_name: Seq<char>,
    command: Seq<char>,
)
    requires
        unique_keys(ms),
    ensures
        ({
            let after = renamed(ms, old_name, new_name, command);
            &&& unique_keys(after)
            &&& forall|name: Seq<char>|
                #![trigger lookup(after, name)]
                lookup(after, name) matches Some(value) ==> lookup(ms, name) == Some(value) || value
                    == Json::Str(command)
        }),
{
    law_rename_sets_command(ms, old_name, new_name, command);
}

/// Writing scripts under a key leaves the document's other members as they
/// are, and their order too.
pub proof fn law_other_members_stay(doc: Json, key: Seq<char>, scripts: Members)
    requires
        unique_keys(doc.members()),
    ensures
        ({
            let after = with_scripts(doc, Some(key), scripts);
            &&& after.member(key) == Some(Json::Object(scripts))
            &&& forall|other: Seq<char>|
                other != key ==> #[trigger] after.member(other) == doc.member(other)
            &&& forall|i: int|
                0 <= i < doc.members().len() ==> (#[trigger] after.members()[i]).0
                    == doc.members()[i].0
        }),
{
    lemma_upsert_lookup(doc.members(), key, Json::Object(scripts));
}

} // verus!
