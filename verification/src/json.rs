//! JSON values: the type that the translation reads and builds, and its model.

use crate::text::same_text;
use vstd::prelude::*;

verus! {

/// The number type of serde_json, carried through unread.
#[verifier::external_type_specification]
#[verifier::external_body]
pub struct ExNumber(serde_json::Number);

/// What a JSON value is.
#[verifier::ext_equal]
pub enum JsonView {
    Null,
    Bool(bool),
    Number(serde_json::Number),
    String(Seq<char>),
    Array(Seq<JsonView>),
    Object(Map<Seq<char>, JsonView>),
}

/// A JSON value.
pub enum Json {
    Null,
    Bool(bool),
    Number(serde_json::Number),
    String(String),
    Array(Vec<Json>),
    Object(JsonObject),
}

/// A JSON object: a list of entries in which a later entry shadows an earlier
/// one with the same key.
pub struct JsonObject {
    pub entries: Vec<(String, Json)>,
}

/// The views of a list of values.
pub open spec fn items_view(items: Seq<Json>) -> Seq<JsonView>
    decreases items,
{
    if items.len() == 0 {
        seq![]
    } else {
        items_view(items.drop_last()).push(items.last().value())
    }
}

/// The map that a list of entries stands for.
pub open spec fn entries_view(entries: Seq<(String, Json)>) -> Map<Seq<char>, JsonView>
    decreases entries,
{
    if entries.len() == 0 {
        Map::empty()
    } else {
        entries_view(entries.drop_last()).insert(entries.last().0@, entries.last().1.value())
    }
}

impl Json {
    /// What the value is.
    pub open spec fn value(self) -> JsonView
        decreases self,
    {
        match self {
            Json::Null => JsonView::Null,
            Json::Bool(b) => JsonView::Bool(b),
            Json::Number(n) => JsonView::Number(n),
            Json::String(s) => JsonView::String(s@),
            Json::Array(items) => JsonView::Array(items_view(items@)),
            Json::Object(object) => JsonView::Object(entries_view(object.entries@)),
        }
    }
}

impl View for Json {
    type V = JsonView;

    open spec fn view(&self) -> JsonView {
        self.value()
    }
}

impl View for JsonObject {
    type V = Map<Seq<char>, JsonView>;

    open spec fn view(&self) -> Map<Seq<char>, JsonView> {
        entries_view(self.entries@)
    }
}

impl JsonView {
    /// The member of an object under `key`.
    pub open spec fn get(self, key: Seq<char>) -> Option<JsonView> {
        match self {
            JsonView::Object(members) => if members.contains_key(key) {
                Some(members[key])
            } else {
                None
            },
            _ => None,
        }
    }

    /// The text of a string.
    pub open spec fn text(self) -> Option<Seq<char>> {
        match self {
            JsonView::String(s) => Some(s),
            _ => None,
        }
    }

    /// The value of a boolean.
    pub open spec fn boolean(self) -> Option<bool> {
        match self {
            JsonView::Bool(b) => Some(b),
            _ => None,
        }
    }

    /// The text of the member under `key`, where that is a string.
    pub open spec fn text_at(self, key: Seq<char>) -> Option<Seq<char>> {
        match self.get(key) {
            Some(member) => member.text(),
            None => None,
        }
    }
}

/// The text of the member under `key`, or the empty text.
pub open spec fn text_or_empty(value: JsonView, key: Seq<char>) -> Seq<char> {
    match value.text_at(key) {
        Some(text) => text,
        None => seq![],
    }
}

/// The view of an optional value.
pub open spec fn opt_value(value: Option<Json>) -> Option<JsonView> {
    match value {
        Some(v) => Some(v@),
        None => None,
    }
}

/// The view of each value, in order.
pub proof fn lemma_items_view(items: Seq<Json>)
    ensures
        items_view(items).len() == items.len(),
        forall|i: int| 0 <= i < items.len() ==> #[trigger] items_view(items)[i] == items[i]@,
    decreases items.len(),
{
    if items.len() > 0 {
        lemma_items_view(items.drop_last());
    }
}

/// Appending a value appends its view.
pub proof fn lemma_items_view_push(items: Seq<Json>, item: Json)
    ensures
        items_view(items.push(item)) == items_view(items).push(item@),
{
    assert(items.push(item).drop_last() =~= items);
}

/// Appending an entry overrides what the earlier ones say of its key.
pub proof fn lemma_entries_view_push(entries: Seq<(String, Json)>, entry: (String, Json))
    ensures
        entries_view(entries.push(entry)) == entries_view(entries).insert(entry.0@, entry.1@),
{
    assert(entries.push(entry).drop_last() =~= entries);
}

impl JsonObject {
    /// The object without members.
    pub fn new() -> (object: JsonObject)
        ensures
            object@ == Map::<Seq<char>, JsonView>::empty(),
    {
        JsonObject { entries: Vec::new() }
    }

    /// The object with the member `value` under `key`.
    pub fn with(self, key: &str, value: Json) -> (object: JsonObject)
        ensures
            object@ == self@.insert(key@, value@),
    {
        let mut entries = self.entries;
        let name = key.to_owned();
        proof {
            lemma_entries_view_push(entries@, (name, value));
        }
        entries.push((name, value));
        JsonObject { entries }
    }

    /// The member under `key`.
    pub fn get(&self, key: &str) -> (member: Option<&Json>)
        ensures
            match member {
                Some(value) => self@.contains_key(key@) && self@[key@] == value@,
                None => !self@.contains_key(key@),
            },
    {
        let mut n = self.entries.len();
        assert(self.entries@.take(n as int) =~= self.entries@);
        while n > 0
            invariant
                n <= self.entries@.len(),
                self@.contains_key(key@) == entries_view(self.entries@.take(n as int)).contains_key(
                    key@,
                ),
                self@.contains_key(key@) ==> self@[key@] == entries_view(
                    self.entries@.take(n as int),
                )[key@],
            decreases n,
        {
            let ghost rest = self.entries@.take(n as int);
            assert(rest.drop_last() =~= self.entries@.take(n - 1));
            assert(rest.last() == self.entries@[n - 1]);
            if same_text(self.entries[n - 1].0.as_str(), key) {
                return Some(&self.entries[n - 1].1);
            }
            n -= 1;
        }
        None
    }
}

impl Json {
    /// A string.
    pub fn string(text: &str) -> (value: Json)
        ensures
            value@ == JsonView::String(text@),
    {
        Json::String(text.to_owned())
    }

    /// The member of an object under `key`.
    pub fn get(&self, key: &str) -> (member: Option<&Json>)
        ensures
            match member {
                Some(value) => self@.get(key@) == Some(value@),
                None => self@.get(key@) is None,
            },
    {
        match self {
            Json::Object(object) => object.get(key),
            _ => None,
        }
    }

    /// The text of a string.
    pub fn as_str(&self) -> (text: Option<&str>)
        ensures
            match text {
                Some(t) => self@.text() == Some(t@),
                None => self@.text() is None,
            },
    {
        match self {
            Json::String(s) => Some(s.as_str()),
            _ => None,
        }
    }

    /// The value of a boolean.
    pub fn as_bool(&self) -> (value: Option<bool>)
        ensures
            value == self@.boolean(),
    {
        match self {
            Json::Bool(b) => Some(*b),
            _ => None,
        }
    }

    /// The text of the member under `key`, where that is a string.
    pub fn get_str(&self, key: &str) -> (text: Option<&str>)
        ensures
            match text {
                Some(t) => self@.text_at(key@) == Some(t@),
                None => self@.text_at(key@) is None,
            },
    {
        match self.get(key) {
            Some(member) => member.as_str(),
            None => None,
        }
    }

    /// Whether the member under `key` is the string `text`.
    pub fn has_text(&self, key: &str, text: &str) -> (yes: bool)
        ensures
            yes == (self@.text_at(key@) == Some(text@)),
    {
        match self.get_str(key) {
            Some(t) => same_text(t, text),
            None => false,
        }
    }

    /// The text of the member under `key`, or the empty text.
    pub fn get_str_or_empty(&self, key: &str) -> (text: String)
        ensures
            text@ == text_or_empty(self@, key@),
    {
        match self.get_str(key) {
            Some(t) => t.to_owned(),
            None => String::new(),
        }
    }
}

/// `Clone` of `serde_json::Number`: the clone is the number itself.
pub assume_specification[ <serde_json::Number as Clone>::clone ](
    n: &serde_json::Number,
) -> (copy: serde_json::Number)
    ensures
        copy == *n,
;

impl Clone for Json {
    fn clone(&self) -> (copy: Json)
        ensures
            copy@ == self@,
        decreases self,
    {
        match self {
            Json::Null => Json::Null,
            Json::Bool(b) => Json::Bool(*b),
            Json::Number(n) => Json::Number(n.clone()),
            Json::String(s) => Json::String(s.clone()),
            Json::Array(items) => {
                let mut copies: Vec<Json> = Vec::new();
                let mut i: usize = 0;
                assert(items@.take(0) =~= seq![]);
                while i < items.len()
                    invariant
                        i <= items@.len(),
                        self == Json::Array(*items),
                        items_view(copies@) == items_view(items@.take(i as int)),
                    decreases items@.len() - i,
                {
                    assert(decreases_to!(self => self->Array_0));
                    assert(decreases_to!(items => items@[i as int]));
                    let copy = items[i].clone();
                    proof {
                        lemma_items_view_push(copies@, copy);
                        assert(items@.take(i + 1).drop_last() =~= items@.take(i as int));
                    }
                    copies.push(copy);
                    i += 1;
                }
                assert(items@.take(items@.len() as int) =~= items@);
                Json::Array(copies)
            },
            Json::Object(object) => {
                let mut copies: Vec<(String, Json)> = Vec::new();
                let mut i: usize = 0;
                assert(object.entries@.take(0) =~= seq![]);
                while i < object.entries.len()
                    invariant
                        i <= object.entries@.len(),
                        self == Json::Object(*object),
                        entries_view(copies@) == entries_view(object.entries@.take(i as int)),
                    decreases object.entries@.len() - i,
                {
                    let key = object.entries[i].0.clone();
                    assert(decreases_to!(self => self->Object_0));
                    assert(decreases_to!(object => object.entries));
                    assert(decreases_to!(object.entries => object.entries@[i as int]));
                    assert(decreases_to!(object.entries@[i as int] => object.entries@[i as int].1));
                    let copy = object.entries[i].1.clone();
                    proof {
                        lemma_entries_view_push(copies@, (key, copy));
                        assert(object.entries@.take(i + 1).drop_last() =~= object.entries@.take(
                            i as int,
                        ));
                    }
                    copies.push((key, copy));
                    i += 1;
                }
                assert(object.entries@.take(object.entries@.len() as int) =~= object.entries@);
                Json::Object(JsonObject { entries: copies })
            },
        }
    }
}

} // verus!
