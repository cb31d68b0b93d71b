//! JSON text: reading and writing values with serde_json.
//!
//! Everything that is taken on trust about serde_json's values stands here (its
//! numbers: see [`crate::json`]). A value of serde_json is opaque to the
//! verifier; [`value_view`] names what it holds.

use crate::json::{
    entries_view, items_view, lemma_entries_view_push, lemma_items_view, lemma_items_view_push,
    opt_value, Json, JsonObject, JsonView,
};
use crate::text::same_text;
use serde_json::Value;
use vstd::prelude::*;

verus! {

/// The value type of serde_json.
#[verifier::external_type_specification]
#[verifier::external_body]
pub struct ExValue(serde_json::Value);

/// What a value of serde_json holds.
pub uninterp spec fn value_view(value: serde_json::Value) -> JsonView;

/// The compact JSON text that serde_json writes for a value.
pub uninterp spec fn json_text(value: JsonView) -> Seq<char>;

/// The value that serde_json reads from a text; `None` where it reports an error.
pub uninterp spec fn parsed_json(text: Seq<char>) -> Option<JsonView>;

/// The number that serde_json makes of an unsigned integer.
pub uninterp spec fn unsigned_number(n: u64) -> serde_json::Number;

/// What each value of a list holds.
pub open spec fn values_view(values: Seq<Value>) -> Seq<JsonView> {
    values.map_values(|v: Value| value_view(v))
}

/// The members that a list of entries with distinct keys gives an object.
pub open spec fn members_view(entries: Seq<(String, Value)>) -> Map<Seq<char>, JsonView>
    decreases entries.len(),
{
    if entries.len() == 0 {
        Map::empty()
    } else {
        members_view(entries.drop_last()).insert(entries.last().0@, value_view(entries.last().1))
    }
}

/// No two entries have the same key.
pub open spec fn distinct_keys(entries: Seq<(String, Value)>) -> bool {
    forall|i: int, j: int|
        0 <= i < j < entries.len() ==> #[trigger] entries[i].0@ != #[trigger] entries[j].0@
}

/// One layer of a value of serde_json.
pub enum Node {
    Null,
    Bool(bool),
    Number(serde_json::Number),
    String(String),
    Array(Vec<Value>),
    Object(Vec<(String, Value)>),
}

impl Node {
    /// What the value holds of which this is the outermost layer.
    pub open spec fn holds(self) -> JsonView {
        match self {
            Node::Null => JsonView::Null,
            Node::Bool(b) => JsonView::Bool(b),
            Node::Number(n) => JsonView::Number(n),
            Node::String(s) => JsonView::String(s@),
            Node::Array(items) => JsonView::Array(values_view(items@)),
            Node::Object(entries) => JsonView::Object(members_view(entries@)),
        }
    }

    /// No two entries of an object have the same key.
    pub open spec fn keys_distinct(self) -> bool {
        match self {
            Node::Object(entries) => distinct_keys(entries@),
            _ => true,
        }
    }
}

/// Matches on `serde_json::Value`, one arm for each variant; the entries of an
/// object come from `serde_json::Map::into_iter`, which yields each key once.
#[verifier::external_body]
fn open(value: Value) -> (node: Node)
    ensures
        node.holds() == value_view(value),
        node.keys_distinct(),
{
    match value {
        Value::Null => Node::Null,
        Value::Bool(b) => Node::Bool(b),
        Value::Number(n) => Node::Number(n),
        Value::String(s) => Node::String(s),
        Value::Array(items) => Node::Array(items),
        Value::Object(members) => Node::Object(members.into_iter().collect()),
    }
}

/// `serde_json::Value::Null`: the null value.
#[verifier::external_body]
fn null_value() -> (value: Value)
    ensures
        value_view(value) == JsonView::Null,
{
    Value::Null
}

/// `serde_json::Value::Bool`: the boolean that it is given.
#[verifier::external_body]
fn bool_value(b: bool) -> (value: Value)
    ensures
        value_view(value) == JsonView::Bool(b),
{
    Value::Bool(b)
}

/// `serde_json::Value::Number`: the number that it is given.
#[verifier::external_body]
fn number_value(n: serde_json::Number) -> (value: Value)
    ensures
        value_view(value) == JsonView::Number(n),
{
    Value::Number(n)
}

/// `serde_json::Value::String`: the string that it is given.
#[verifier::external_body]
fn string_value(s: String) -> (value: Value)
    ensures
        value_view(value) == JsonView::String(s@),
{
    Value::String(s)
}

/// `serde_json::Value::Array`: the values that it is given, in their order.
#[verifier::external_body]
fn array_value(items: Vec<Value>) -> (value: Value)
    ensures
        value_view(value) == JsonView::Array(values_view(items@)),
{
    Value::Array(items)
}

/// `serde_json::Value::Object` of the map that `serde_json::Map::from_iter` makes
/// of the entries: with distinct keys each entry is a member, and there is no other.
#[verifier::external_body]
fn object_value(entries: Vec<(String, Value)>) -> (value: Value)
    requires
        distinct_keys(entries@),
    ensures
        value_view(value) == JsonView::Object(members_view(entries@)),
{
    Value::Object(entries.into_iter().collect())
}

/// `to_string` of `serde_json::Value`: the text is named [`json_text`]; it depends
/// on what the value holds and on nothing else.
#[verifier::external_body]
fn value_text(value: &Value) -> (text: String)
    ensures
        text@ == json_text(value_view(*value)),
{
    value.to_string()
}

/// `serde_json::from_str` at `serde_json::Value`: the outcome is named
/// [`parsed_json`]; it depends on the text and on nothing else.
#[verifier::external_body]
fn text_value(text: &str) -> (value: Option<Value>)
    ensures
        match value {
            Some(v) => parsed_json(text@) == Some(value_view(v)),
            None => parsed_json(text@) is None,
        },
{
    serde_json::from_str(text).ok()
}

/// `serde_json::Number::from` at `u64`: the number is named [`unsigned_number`].
#[verifier::external_body]
pub(crate) fn number(n: u64) -> (number: serde_json::Number)
    ensures
        number == unsigned_number(n),
{
    serde_json::Number::from(n)
}

proof fn lemma_members_view_push(entries: Seq<(String, Value)>, entry: (String, Value))
    ensures
        members_view(entries.push(entry)) == members_view(entries).insert(
            entry.0@,
            value_view(entry.1),
        ),
{
    assert(entries.push(entry).drop_last() =~= entries);
}

/// The keys of the members are those of the entries.
proof fn lemma_members_view_keys(entries: Seq<(String, Value)>)
    ensures
        forall|key: Seq<char>|
            members_view(entries).contains_key(key) <==> (exists|i: int|
                0 <= i < entries.len() && #[trigger] entries[i].0@ == key),
    decreases entries.len(),
{
    if entries.len() > 0 {
        let before = entries.drop_last();
        lemma_members_view_keys(before);
        assert forall|key: Seq<char>|
            members_view(entries).contains_key(key) implies exists|i: int|
            0 <= i < entries.len() && #[trigger] entries[i].0@ == key by {
            if members_view(before).contains_key(key) {
                let i = choose|i: int| 0 <= i < before.len() && #[trigger] before[i].0@ == key;
                assert(entries[i].0@ == key);
            } else {
                assert(entries[entries.len() - 1].0@ == key);
            }
        }
        assert forall|i: int| 0 <= i < entries.len() implies members_view(entries).contains_key(
            #[trigger] entries[i].0@,
        ) by {
            if i < before.len() {
                assert(before[i].0@ == entries[i].0@);
            }
        }
    }
}

fn has_key(entries: &Vec<(String, Value)>, key: &str) -> (yes: bool)
    ensures
        yes == exists|i: int| 0 <= i < entries@.len() && #[trigger] entries@[i].0@ == key@,
{
    let mut i: usize = 0;
    while i < entries.len()
        invariant
            i <= entries@.len(),
            forall|j: int| 0 <= j < i ==> #[trigger] entries@[j].0@ != key@,
        decreases entries@.len() - i,
    {
        if same_text(entries[i].0.as_str(), key) {
            return true;
        }
        i += 1;
    }
    false
}

/// The value of serde_json that holds what `json` holds.
pub fn to_value(json: &Json) -> (value: Value)
    ensures
        value_view(value) == json@,
    decreases json,
{
    match json {
        Json::Null => null_value(),
        Json::Bool(b) => bool_value(*b),
        Json::Number(n) => number_value(n.clone()),
        Json::String(s) => string_value(s.clone()),
        Json::Array(items) => {
            let mut values: Vec<Value> = Vec::new();
            let mut i: usize = 0;
            while i < items.len()
                invariant
                    i <= items@.len(),
                    json == Json::Array(*items),
                    values@.len() == i,
                    forall|j: int| 0 <= j < i ==> value_view(#[trigger] values@[j]) == items@[j]@,
                decreases items@.len() - i,
            {
                assert(decreases_to!(json => json->Array_0));
                assert(decreases_to!(items => items@[i as int]));
                values.push(to_value(&items[i]));
                i += 1;
            }
            proof {
                lemma_items_view(items@);
                assert(values_view(values@) =~= items_view(items@));
            }
            array_value(values)
        },
        Json::Object(object) => {
            let mut entries: Vec<(String, Value)> = Vec::new();
            let mut n: usize = object.entries.len();
            assert(object.entries@.take(n as int) =~= object.entries@);
            assert(entries_view(object.entries@).union_prefer_right(members_view(entries@))
                =~= entries_view(object.entries@));
            while n > 0
                invariant
                    n <= object.entries@.len(),
                    json == Json::Object(*object),
                    distinct_keys(entries@),
                    entries_view(object.entries@.take(n as int)).union_prefer_right(
                        members_view(entries@),
                    ) == entries_view(object.entries@),
                decreases n,
            {
                let ghost earlier = object.entries@.take(n - 1);
                let ghost found = members_view(entries@);
                proof {
                    assert(object.entries@.take(n as int).drop_last() =~= earlier);
                    lemma_members_view_keys(entries@);
                }
                n -= 1;
                assert(decreases_to!(json => json->Object_0));
                assert(decreases_to!(object => object.entries));
                assert(decreases_to!(object.entries => object.entries@[n as int]));
                assert(decreases_to!(object.entries@[n as int] => object.entries@[n as int].1));
                if !has_key(&entries, object.entries[n].0.as_str()) {
                    let entry = (object.entries[n].0.clone(), to_value(&object.entries[n].1));
                    proof {
                        lemma_members_view_push(entries@, entry);
                    }
                    entries.push(entry);
                }
                assert(entries_view(earlier).union_prefer_right(members_view(entries@))
                    =~= entries_view(earlier).insert(
                    object.entries@[n as int].0@,
                    object.entries@[n as int].1@,
                ).union_prefer_right(found));
            }
            assert(object.entries@.take(0) =~= seq![]);
            assert(entries_view(object.entries@.take(0)).union_prefer_right(members_view(entries@))
                =~= members_view(entries@));
            object_value(entries)
        },
    }
}

/// The compact JSON text of `json`.
pub fn to_text(json: &Json) -> (text: String)
    ensures
        text@ == json_text(json@),
{
    value_text(&to_value(json))
}

/// The members of an object are finitely many, and where no key occurs twice
/// each entry is a member.
proof fn lemma_members_view(entries: Seq<(String, Value)>, n: int)
    requires
        0 <= n <= entries.len(),
        distinct_keys(entries),
    ensures
        members_view(entries.take(n)).dom().finite(),
        forall|i: int|
            0 <= i < n ==> {
                let key = (#[trigger] entries[i]).0@;
                &&& members_view(entries.take(n)).contains_key(key)
                &&& members_view(entries.take(n))[key] == value_view(entries[i].1)
            },
    decreases n,
{
    if n > 0 {
        lemma_members_view(entries, n - 1);
        assert(entries.take(n).drop_last() =~= entries.take(n - 1));
        assert(entries.take(n).last() == entries[n - 1]);
    }
}

/// What the value of serde_json holds.
pub fn from_value(value: Value) -> (json: Json)
    ensures
        json@ == value_view(value),
    decreases value_view(value),
{
    let ghost whole = value_view(value);
    match open(value) {
        Node::Null => Json::Null,
        Node::Bool(b) => Json::Bool(b),
        Node::Number(n) => Json::Number(n),
        Node::String(s) => Json::String(s),
        Node::Array(values) => {
            let mut items: Vec<Json> = Vec::new();
            let ghost all = values@;
            for v in iter: values
                invariant
                    iter.seq() == all,
                    whole == JsonView::Array(values_view(all)),
                    whole == value_view(value),
                    items_view(items@) == values_view(all).take(iter.index() as int),
            {
                proof {
                    let i = iter.index() as int;
                    assert(decreases_to!(whole => whole->Array_0));
                    assert(decreases_to!(values_view(all) => values_view(all)[i]));
                    assert(values_view(all).take(i + 1) =~= values_view(all).take(i).push(
                        value_view(v),
                    ));
                }
                let item = from_value(v);
                proof {
                    lemma_items_view_push(items@, item);
                }
                items.push(item);
            }
            assert(values_view(all).take(all.len() as int) =~= values_view(all));
            Json::Array(items)
        },
        Node::Object(members) => {
            let mut entries: Vec<(String, Json)> = Vec::new();
            let ghost all = members@;
            proof {
                lemma_members_view(all, all.len() as int);
                assert(all.take(all.len() as int) =~= all);
                assert(all.take(0) =~= seq![]);
            }
            for member in iter: members
                invariant
                    iter.seq() == all,
                    whole == JsonView::Object(members_view(all)),
                    whole == value_view(value),
                    members_view(all).dom().finite(),
                    forall|i: int|
                        0 <= i < all.len() ==> {
                            let key = (#[trigger] all[i]).0@;
                            &&& members_view(all).contains_key(key)
                            &&& members_view(all)[key] == value_view(all[i].1)
                        },
                    entries_view(entries@) == members_view(all.take(iter.index() as int)),
            {
                proof {
                    let i = iter.index() as int;
                    let key = all[i].0@;
                    assert(decreases_to!(whole => whole->Object_0));
                    assert(decreases_to!(members_view(all) => members_view(all)[key]));
                    assert(all.take(i + 1).drop_last() =~= all.take(i));
                    assert(all.take(i + 1).last() == member);
                }
                let (key, v) = member;
                let item = from_value(v);
                proof {
                    lemma_entries_view_push(entries@, (key, item));
                }
                entries.push((key, item));
            }
            Json::Object(JsonObject { entries })
        },
    }
}

/// The value that `text` writes in JSON, where it does.
pub fn parse_text(text: &str) -> (json: Option<Json>)
    ensures
        opt_value(json) == parsed_json(text@),
{
    match text_value(text) {
        Some(value) => Some(from_value(value)),
        None => None,
    }
}

} // verus!
