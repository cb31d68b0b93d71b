//! What holds of every JSON value that the proxy builds or reads.

use crate::assertion::{assertion_claims, assertion_header};
use crate::content::text_block;
use crate::event::{event_json, EventView, HeaderView};
use crate::json::{
    entries_view, items_view, lemma_items_view, text_or_empty, Json, JsonObject, JsonView,
};
use crate::json_text::{parsed_json, unsigned_number};
use crate::response::{reply_json, tool_use, tool_uses, CallView};
use crate::tools::{function_choice, function_definition, function_definitions};
use vstd::prelude::*;

verus! {

/// The value is an object with members under these keys, and no others.
pub open spec fn has_keys(json: JsonView, keys: Set<Seq<char>>) -> bool {
    json is Object && json->Object_0.dom() == keys
}

/// The member of an object under `key`.
pub open spec fn at(json: JsonView, key: Seq<char>) -> JsonView {
    json->Object_0[key]
}

/// The keys that are used differ from each other.
proof fn lemma_keys()
    ensures
        "id"@.len() == 2,
        "type"@.len() == 4,
        "text"@.len() == 4,
        "name"@.len() == 4,
        "role"@.len() == 4,
        "type"@ != "text"@,
        "type"@ != "name"@,
        "type"@ != "role"@,
        "text"@ != "name"@,
        "text"@ != "role"@,
        "name"@ != "role"@,
        "input"@.len() == 5,
        "model"@.len() == 5,
        "usage"@.len() == 5,
        "index"@.len() == 5,
        "delta"@.len() == 5,
        "input"@ != "model"@,
        "input"@ != "usage"@,
        "model"@ != "usage"@,
        "index"@ != "delta"@,
        "usage"@ != "delta"@,
        "content"@.len() == 7,
        "message"@.len() == 7,
        "content"@ != "message"@,
        "function"@.len() == 8,
        "parameters"@.len() == 10,
        "description"@.len() == 11,
        "stop_reason"@.len() == 11,
        "input_tokens"@.len() == 12,
        "partial_json"@.len() == 12,
        "output_tokens"@.len() == 13,
        "stop_sequence"@.len() == 13,
        "content_block"@.len() == 13,
        "output_tokens"@ != "stop_sequence"@,
        "iss"@.len() == 3,
        "aud"@.len() == 3,
        "iat"@.len() == 3,
        "exp"@.len() == 3,
        "alg"@.len() == 3,
        "typ"@.len() == 3,
        "scope"@.len() == 5,
        "alg"@ != "typ"@,
        "iss"@ != "aud"@,
        "iss"@ != "iat"@,
        "iss"@ != "exp"@,
        "aud"@ != "iat"@,
        "aud"@ != "exp"@,
        "iat"@ != "exp"@,
{
    reveal_strlit("id");
    reveal_strlit("type");
    reveal_strlit("text");
    reveal_strlit("name");
    reveal_strlit("role");
    reveal_strlit("input");
    reveal_strlit("model");
    reveal_strlit("usage");
    reveal_strlit("index");
    reveal_strlit("delta");
    reveal_strlit("content");
    reveal_strlit("message");
    reveal_strlit("function");
    reveal_strlit("parameters");
    reveal_strlit("description");
    reveal_strlit("stop_reason");
    reveal_strlit("input_tokens");
    reveal_strlit("partial_json");
    reveal_strlit("output_tokens");
    reveal_strlit("stop_sequence");
    reveal_strlit("content_block");
    reveal_strlit("iss");
    reveal_strlit("aud");
    reveal_strlit("iat");
    reveal_strlit("exp");
    reveal_strlit("alg");
    reveal_strlit("typ");
    reveal_strlit("scope");
    assert("type"@[1] == 'y' && "text"@[1] == 'e' && "name"@[1] == 'a' && "role"@[1] == 'o');
    assert("input"@[0] == 'i' && "model"@[0] == 'm' && "usage"@[0] == 'u');
    assert("index"@[0] == 'i' && "delta"@[0] == 'd');
    assert("content"@[0] == 'c' && "message"@[0] == 'm');
    assert("output_tokens"@[0] == 'o' && "stop_sequence"@[0] == 's');
    assert("alg"@[0] == 'a' && "typ"@[0] == 't');
    assert("iss"@[1] == 's' && "aud"@[1] == 'u' && "iat"@[1] == 'a' && "exp"@[1] == 'x');
}

/// Each value stands for what it holds: an array for its elements in order, an
/// object for its entries.
pub proof fn law_values_stand_for_their_contents(json: Json)
    ensures
        json is Null ==> json@ == JsonView::Null,
        json matches Json::Bool(b) ==> json@ == JsonView::Bool(b),
        json matches Json::Number(n) ==> json@ == JsonView::Number(n),
        json matches Json::String(s) ==> json@ == JsonView::String(s@),
        json matches Json::Array(items) ==> {
            &&& json@ is Array
            &&& json@->Array_0.len() == items@.len()
            &&& forall|i: int| 0 <= i < items@.len() ==> json@->Array_0[i] == (#[trigger] items@[i])@
        },
        json matches Json::Object(object) ==> json@ == JsonView::Object(object@),
{
    if let Json::Array(items) = json {
        lemma_items_view(items@);
    }
}

/// A list of values stands for what each of them stands for.
pub proof fn law_items_stand_for_themselves(items: Seq<Json>)
    ensures
        items_view(items).len() == items.len(),
        forall|i: int| 0 <= i < items.len() ==> items_view(items)[i] == (#[trigger] items[i])@,
{
    lemma_items_view(items);
}

/// A key is in an object exactly when an entry has it, and the last such entry says
/// what is under it.
pub proof fn law_last_entry_counts(object: JsonObject, key: Seq<char>, i: int)
    requires
        0 <= i < object.entries@.len(),
        object.entries@[i].0@ == key,
        forall|j: int| i < j < object.entries@.len() ==> #[trigger] object.entries@[j].0@ != key,
    ensures
        object@.contains_key(key),
        object@[key] == object.entries@[i].1@,
{
    lemma_last_entry(object.entries@, key, i);
}

/// A key that no entry has is not in the object.
pub proof fn law_no_entry_no_member(object: JsonObject, key: Seq<char>)
    requires
        forall|j: int| 0 <= j < object.entries@.len() ==> #[trigger] object.entries@[j].0@ != key,
    ensures
        !object@.contains_key(key),
{
    lemma_no_entry(object.entries@, key);
}

proof fn lemma_last_entry(entries: Seq<(String, Json)>, key: Seq<char>, i: int)
    requires
        0 <= i < entries.len(),
        entries[i].0@ == key,
        forall|j: int| i < j < entries.len() ==> #[trigger] entries[j].0@ != key,
    ensures
        entries_view(entries).contains_key(key),
        entries_view(entries)[key] == entries[i].1@,
    decreases entries.len(),
{
    let before = entries.drop_last();
    if i < entries.len() - 1 {
        assert(entries[entries.len() - 1].0@ != key);
        assert forall|j: int| i < j < before.len() implies #[trigger] before[j].0@ != key by {
            assert(entries[j].0@ != key);
        }
        lemma_last_entry(before, key, i);
    }
}

proof fn lemma_no_entry(entries: Seq<(String, Json)>, key: Seq<char>)
    requires
        forall|j: int| 0 <= j < entries.len() ==> #[trigger] entries[j].0@ != key,
    ensures
        !entries_view(entries).contains_key(key),
    decreases entries.len(),
{
    if entries.len() > 0 {
        let before = entries.drop_last();
        assert(entries[entries.len() - 1].0@ != key);
        assert forall|j: int| 0 <= j < before.len() implies #[trigger] before[j].0@ != key by {
            assert(entries[j].0@ != key);
        }
        lemma_no_entry(before, key);
    }
}

/// A lookup finds what is under the key of an object, and nothing elsewhere; a text
/// or a boolean is found only where one is.
pub proof fn law_lookups(json: JsonView, key: Seq<char>)
    ensures
        json.get(key) matches Some(v) ==> json is Object && json->Object_0.contains_key(key) && v
            == json->Object_0[key],
        json.get(key) is None ==> !(json is Object && json->Object_0.contains_key(key)),
        json.text() matches Some(t) ==> json == JsonView::String(t),
        json.text() is None ==> !(json is String),
        json.boolean() matches Some(b) ==> json == JsonView::Bool(b),
        json.boolean() is None ==> !(json is Bool),
        json.text_at(key) matches Some(t) ==> json.get(key) == Some(JsonView::String(t)),
        json.text_at(key) is None ==> !(json.get(key) matches Some(v) && v is String),
        json.text_at(key) is None ==> text_or_empty(json, key).len() == 0,
        json.text_at(key) matches Some(t) ==> text_or_empty(json, key) == t,
{
}

/// The block for a text says that it is text, and holds the text.
pub proof fn law_text_block_holds_its_text(text: Seq<char>)
    ensures
        has_keys(text_block(text), set!["type"@, "text"@]),
        at(text_block(text), "type"@) == JsonView::String("text"@),
        at(text_block(text), "text"@) == JsonView::String(text),
{
    lemma_keys();
    assert(text_block(text)->Object_0.dom() =~= set!["type"@, "text"@]);
}

/// The block for a tool call holds its id, its name, and what its arguments say; an
/// empty object stands for arguments that say nothing.
pub proof fn law_tool_use_holds_its_call(call: CallView, parsed: Option<JsonView>)
    ensures
        has_keys(tool_use(call, parsed), set!["type"@, "id"@, "name"@, "input"@]),
        at(tool_use(call, parsed), "type"@) == JsonView::String("tool_use"@),
        at(tool_use(call, parsed), "id"@) == JsonView::String(call.id),
        at(tool_use(call, parsed), "name"@) == JsonView::String(call.name),
        parsed matches Some(v) ==> at(tool_use(call, parsed), "input"@) == v,
        parsed is None ==> has_keys(at(tool_use(call, parsed), "input"@), Set::empty()),
{
    lemma_keys();
    assert(tool_use(call, parsed)->Object_0.dom() =~= set!["type"@, "id"@, "name"@, "input"@]);
    if parsed is None {
        assert(at(tool_use(call, parsed), "input"@)->Object_0.dom() =~= Set::empty());
    }
}

/// Every tool call becomes a block, in order, with what its arguments say.
pub proof fn law_every_call_becomes_a_block(calls: Seq<CallView>)
    ensures
        tool_uses(calls).len() == calls.len(),
        forall|i: int|
            0 <= i < calls.len() ==> #[trigger] tool_uses(calls)[i] == tool_use(
                calls[i],
                parsed_json(calls[i].arguments),
            ),
{
}

/// The JSON of a reply holds all content blocks, the stop reason and the counts
/// that it is given, under the id and the model that it is sent for.
pub proof fn law_reply_holds_everything(
    id: Seq<char>,
    model: Seq<char>,
    content: Seq<JsonView>,
    stop_reason: Seq<char>,
    input_tokens: nat,
    output_tokens: nat,
)
    ensures
        ({
            let json = reply_json(id, model, content, stop_reason, input_tokens, output_tokens);
            let usage = at(json, "usage"@);
            &&& has_keys(
                json,
                set![
                    "id"@,
                    "type"@,
                    "role"@,
                    "model"@,
                    "content"@,
                    "stop_reason"@,
                    "stop_sequence"@,
                    "usage"@,
                ],
            )
            &&& at(json, "id"@) == JsonView::String(id)
            &&& at(json, "type"@) == JsonView::String("message"@)
            &&& at(json, "role"@) == JsonView::String("assistant"@)
            &&& at(json, "model"@) == JsonView::String(model)
            &&& at(json, "content"@) is Array
            &&& at(json, "content"@)->Array_0.len() == content.len()
            &&& forall|i: int|
                0 <= i < content.len() ==> #[trigger] at(json, "content"@)->Array_0[i]
                    == content[i]
            &&& at(json, "stop_reason"@) == JsonView::String(stop_reason)
            &&& at(json, "stop_sequence"@) == JsonView::Null
            &&& has_keys(usage, set!["input_tokens"@, "output_tokens"@])
            &&& at(usage, "input_tokens"@) == JsonView::Number(
                unsigned_number(input_tokens as u64),
            )
            &&& at(usage, "output_tokens"@) == JsonView::Number(
                unsigned_number(output_tokens as u64),
            )
        }),
{
    lemma_keys();
    let json = reply_json(id, model, content, stop_reason, input_tokens, output_tokens);
    assert(json->Object_0.dom() =~= set![
        "id"@,
        "type"@,
        "role"@,
        "model"@,
        "content"@,
        "stop_reason"@,
        "stop_sequence"@,
        "usage"@,
    ]);
    assert(at(json, "usage"@)->Object_0.dom() =~= set!["input_tokens"@, "output_tokens"@]);
}

/// Replies that differ in id, model, content or stop reason are sent as different
/// JSON.
pub proof fn law_replies_differ(
    id: Seq<char>,
    model: Seq<char>,
    content: Seq<JsonView>,
    stop_reason: Seq<char>,
    id2: Seq<char>,
    model2: Seq<char>,
    content2: Seq<JsonView>,
    stop_reason2: Seq<char>,
    input_tokens: nat,
    output_tokens: nat,
)
    requires
        reply_json(id, model, content, stop_reason, input_tokens, output_tokens) == reply_json(
            id2,
            model2,
            content2,
            stop_reason2,
            input_tokens,
            output_tokens,
        ),
    ensures
        id == id2,
        model == model2,
        content == content2,
        stop_reason == stop_reason2,
{
    law_reply_holds_everything(id, model, content, stop_reason, input_tokens, output_tokens);
    law_reply_holds_everything(id2, model2, content2, stop_reason2, input_tokens, output_tokens);
    assert(content =~= content2);
}

/// The event that opens a reply holds its id, the model and the input count, and
/// otherwise an empty message.
pub proof fn law_opening_holds_its_message(id: Seq<char>, model: Seq<char>, input_tokens: nat)
    ensures
        ({
            let json = event_json(EventView::MessageStart { id, model, input_tokens });
            let message = at(json, "message"@);
            let usage = at(message, "usage"@);
            &&& has_keys(json, set!["type"@, "message"@])
            &&& at(json, "type"@) == JsonView::String("message_start"@)
            &&& has_keys(
                message,
                set![
                    "id"@,
                    "type"@,
                    "role"@,
                    "model"@,
                    "content"@,
                    "stop_reason"@,
                    "stop_sequence"@,
                    "usage"@,
                ],
            )
            &&& at(message, "id"@) == JsonView::String(id)
            &&& at(message, "type"@) == JsonView::String("message"@)
            &&& at(message, "role"@) == JsonView::String("assistant"@)
            &&& at(message, "model"@) == JsonView::String(model)
            &&& at(message, "content"@) is Array
            &&& at(message, "content"@)->Array_0.len() == 0
            &&& at(message, "stop_reason"@) == JsonView::Null
            &&& at(message, "stop_sequence"@) == JsonView::Null
            &&& has_keys(usage, set!["input_tokens"@, "output_tokens"@])
            &&& at(usage, "input_tokens"@) == JsonView::Number(
                unsigned_number(input_tokens as u64),
            )
            &&& at(usage, "output_tokens"@) == JsonView::Number(unsigned_number(0))
        }),
{
    lemma_keys();
    let json = event_json(EventView::MessageStart { id, model, input_tokens });
    let message = at(json, "message"@);
    assert(json->Object_0.dom() =~= set!["type"@, "message"@]);
    assert(message->Object_0.dom() =~= set![
        "id"@,
        "type"@,
        "role"@,
        "model"@,
        "content"@,
        "stop_reason"@,
        "stop_sequence"@,
        "usage"@,
    ]);
    assert(at(message, "usage"@)->Object_0.dom() =~= set!["input_tokens"@, "output_tokens"@]);
}

/// The event that opens a block holds its index and says what the block is: text,
/// empty so far, or the use of a tool by its id and name, without input so far.
pub proof fn law_block_start_holds_its_block(index: nat, block: HeaderView)
    ensures
        ({
            let json = event_json(EventView::BlockStart { index, block });
            let header = at(json, "content_block"@);
            &&& has_keys(json, set!["type"@, "index"@, "content_block"@])
            &&& at(json, "type"@) == JsonView::String("content_block_start"@)
            &&& at(json, "index"@) == JsonView::Number(unsigned_number(index as u64))
            &&& block is Text ==> {
                &&& has_keys(header, set!["type"@, "text"@])
                &&& at(header, "type"@) == JsonView::String("text"@)
                &&& at(header, "text"@) is String
                &&& at(header, "text"@)->String_0.len() == 0
            }
            &&& block matches HeaderView::ToolUse { id, name } ==> {
                &&& has_keys(header, set!["type"@, "id"@, "name"@, "input"@])
                &&& at(header, "type"@) == JsonView::String("tool_use"@)
                &&& at(header, "id"@) == JsonView::String(id)
                &&& at(header, "name"@) == JsonView::String(name)
                &&& has_keys(at(header, "input"@), Set::empty())
            }
        }),
{
    lemma_keys();
    reveal_strlit("");
    let json = event_json(EventView::BlockStart { index, block });
    let header = at(json, "content_block"@);
    assert(json->Object_0.dom() =~= set!["type"@, "index"@, "content_block"@]);
    match block {
        HeaderView::Text => {
            assert(header->Object_0.dom() =~= set!["type"@, "text"@]);
        },
        HeaderView::ToolUse { id, name } => {
            assert(header->Object_0.dom() =~= set!["type"@, "id"@, "name"@, "input"@]);
            assert(at(header, "input"@)->Object_0.dom() =~= Set::empty());
        },
    }
}

/// A delta holds the index of its block and the text or the arguments that it adds.
pub proof fn law_deltas_hold_what_they_add(index: nat, added: Seq<char>)
    ensures
        ({
            let json = event_json(EventView::TextDelta { index, text: added });
            let delta = at(json, "delta"@);
            &&& has_keys(json, set!["type"@, "index"@, "delta"@])
            &&& at(json, "type"@) == JsonView::String("content_block_delta"@)
            &&& at(json, "index"@) == JsonView::Number(unsigned_number(index as u64))
            &&& has_keys(delta, set!["type"@, "text"@])
            &&& at(delta, "type"@) == JsonView::String("text_delta"@)
            &&& at(delta, "text"@) == JsonView::String(added)
        }),
        ({
            let json = event_json(EventView::JsonDelta { index, partial_json: added });
            let delta = at(json, "delta"@);
            &&& has_keys(json, set!["type"@, "index"@, "delta"@])
            &&& at(json, "type"@) == JsonView::String("content_block_delta"@)
            &&& at(json, "index"@) == JsonView::Number(unsigned_number(index as u64))
            &&& has_keys(delta, set!["type"@, "partial_json"@])
            &&& at(delta, "type"@) == JsonView::String("input_json_delta"@)
            &&& at(delta, "partial_json"@) == JsonView::String(added)
        }),
{
    lemma_keys();
    let json = event_json(EventView::TextDelta { index, text: added });
    assert(json->Object_0.dom() =~= set!["type"@, "index"@, "delta"@]);
    assert(at(json, "delta"@)->Object_0.dom() =~= set!["type"@, "text"@]);
    let json = event_json(EventView::JsonDelta { index, partial_json: added });
    assert(json->Object_0.dom() =~= set!["type"@, "index"@, "delta"@]);
    assert(at(json, "delta"@)->Object_0.dom() =~= set!["type"@, "partial_json"@]);
}

/// The event that closes a block holds its index.
pub proof fn law_block_stop_holds_its_index(index: nat)
    ensures
        ({
            let json = event_json(EventView::BlockStop { index });
            &&& has_keys(json, set!["type"@, "index"@])
            &&& at(json, "type"@) == JsonView::String("content_block_stop"@)
            &&& at(json, "index"@) == JsonView::Number(unsigned_number(index as u64))
        }),
{
    lemma_keys();
    let json = event_json(EventView::BlockStop { index });
    assert(json->Object_0.dom() =~= set!["type"@, "index"@]);
}

/// The event that ends the content of a reply holds the stop reason and the output
/// count that it is given; the last event holds nothing else.
pub proof fn law_ending_holds_reason_and_count(stop_reason: Seq<char>, output_tokens: nat)
    ensures
        ({
            let json = event_json(EventView::MessageDelta { stop_reason, output_tokens });
            let delta = at(json, "delta"@);
            let usage = at(json, "usage"@);
            &&& has_keys(json, set!["type"@, "delta"@, "usage"@])
            &&& at(json, "type"@) == JsonView::String("message_delta"@)
            &&& has_keys(delta, set!["stop_reason"@, "stop_sequence"@])
            &&& at(delta, "stop_reason"@) == JsonView::String(stop_reason)
            &&& at(delta, "stop_sequence"@) == JsonView::Null
            &&& has_keys(usage, set!["output_tokens"@])
            &&& at(usage, "output_tokens"@) == JsonView::Number(
                unsigned_number(output_tokens as u64),
            )
        }),
        ({
            let json = event_json(EventView::MessageStop);
            &&& has_keys(json, set!["type"@])
            &&& at(json, "type"@) == JsonView::String("message_stop"@)
        }),
{
    lemma_keys();
    let json = event_json(EventView::MessageDelta { stop_reason, output_tokens });
    assert(json->Object_0.dom() =~= set!["type"@, "delta"@, "usage"@]);
    assert(at(json, "delta"@)->Object_0.dom() =~= set!["stop_reason"@, "stop_sequence"@]);
    assert(at(json, "usage"@)->Object_0.dom() =~= set!["output_tokens"@]);
    let json = event_json(EventView::MessageStop);
    assert(json->Object_0.dom() =~= set!["type"@]);
}

/// Endings with different stop reasons, deltas with different texts, and blocks
/// with different headers are sent as different JSON.
pub proof fn law_events_differ(a: EventView, b: EventView)
    requires
        event_json(a) == event_json(b),
    ensures
        a matches EventView::MessageDelta { stop_reason: r, .. } ==> (
        b matches EventView::MessageDelta { stop_reason: q, .. } ==> r == q),
        a matches EventView::TextDelta { text: t, .. } ==> (
        b matches EventView::TextDelta { text: u, .. } ==> t == u),
        a matches EventView::JsonDelta { partial_json: t, .. } ==> (
        b matches EventView::JsonDelta { partial_json: u, .. } ==> t == u),
        a matches EventView::BlockStart { block: h, .. } ==> (
        b matches EventView::BlockStart { block: k, .. } ==> h == k),
        a matches EventView::MessageStart { id: i, model: m, .. } ==> (
        b matches EventView::MessageStart { id: j, model: n, .. } ==> i == j && m == n),
{
    lemma_event_is_read_back(a);
    lemma_event_is_read_back(b);
}

/// What an event carries stands in its JSON.
proof fn lemma_event_is_read_back(event: EventView)
    ensures
        ({
            let json = event_json(event);
            let header = at(json, "content_block"@);
            &&& event matches EventView::MessageDelta { stop_reason, .. } ==> JsonView::String(
                stop_reason,
            ) == at(at(json, "delta"@), "stop_reason"@)
            &&& event matches EventView::TextDelta { text, .. } ==> JsonView::String(text) == at(
                at(json, "delta"@),
                "text"@,
            )
            &&& event matches EventView::JsonDelta { partial_json, .. } ==> JsonView::String(
                partial_json,
            ) == at(at(json, "delta"@), "partial_json"@)
            &&& event matches EventView::MessageStart { id, model, .. } ==> JsonView::String(id)
                == at(at(json, "message"@), "id"@) && JsonView::String(model) == at(
                at(json, "message"@),
                "model"@,
            )
            &&& event matches EventView::BlockStart { block, .. } ==> {
                &&& block is Text ==> at(header, "type"@) == JsonView::String("text"@)
                &&& block matches HeaderView::ToolUse { id, name } ==> {
                    &&& at(header, "type"@) == JsonView::String("tool_use"@)
                    &&& at(header, "id"@) == JsonView::String(id)
                    &&& at(header, "name"@) == JsonView::String(name)
                }
                &&& "text"@ != "tool_use"@
            }
        }),
{
    reveal_strlit("text");
    reveal_strlit("tool_use");
    assert("text"@.len() != "tool_use"@.len());
    match event {
        EventView::MessageStart { id, model, input_tokens } => {
            law_opening_holds_its_message(id, model, input_tokens);
        },
        EventView::BlockStart { index, block } => {
            law_block_start_holds_its_block(index, block);
        },
        EventView::TextDelta { index, text } => {
            law_deltas_hold_what_they_add(index, text);
        },
        EventView::JsonDelta { index, partial_json } => {
            law_deltas_hold_what_they_add(index, partial_json);
        },
        EventView::BlockStop { index } => {},
        EventView::MessageDelta { stop_reason, output_tokens } => {
            law_ending_holds_reason_and_count(stop_reason, output_tokens);
        },
        EventView::MessageStop => {},
    }
}

/// A tool whose name is a string is offered as a function of that name, with its
/// description, or an empty one, and with its schema, or that of any object; no
/// other tool is offered.
pub proof fn law_named_tools_are_offered(tool: JsonView)
    ensures
        function_definition(tool) is Some <==> tool.text_at("name"@) is Some,
        function_definition(tool) matches Some(json) ==> {
            let function = at(json, "function"@);
            let parameters = at(function, "parameters"@);
            &&& has_keys(json, set!["type"@, "function"@])
            &&& at(json, "type"@) == JsonView::String("function"@)
            &&& has_keys(function, set!["name"@, "description"@, "parameters"@])
            &&& tool.text_at("name"@) matches Some(name) && at(function, "name"@)
                == JsonView::String(name)
            &&& tool.text_at("description"@) matches Some(d) ==> at(function, "description"@)
                == JsonView::String(d)
            &&& tool.text_at("description"@) is None ==> at(function, "description"@) is String
                && at(function, "description"@)->String_0.len() == 0
            &&& tool.get("input_schema"@) matches Some(schema) ==> parameters == schema
            &&& tool.get("input_schema"@) is None ==> has_keys(parameters, set!["type"@]) && at(
                parameters,
                "type"@,
            ) == JsonView::String("object"@)
        },
{
    lemma_keys();
    if let Some(json) = function_definition(tool) {
        let function = at(json, "function"@);
        assert(json->Object_0.dom() =~= set!["type"@, "function"@]);
        assert(function->Object_0.dom() =~= set!["name"@, "description"@, "parameters"@]);
        if tool.get("input_schema"@) is None {
            assert(at(function, "parameters"@)->Object_0.dom() =~= set!["type"@]);
        }
    }
}

/// How many of the tools have a string for a name.
pub open spec fn named(tools: Seq<JsonView>) -> nat {
    tools.filter(|tool: JsonView| tool.text_at("name"@) is Some).len()
}

/// Every tool with a name is offered: there is a definition for each, and that of
/// the tool number `i` stands behind those of the tools before it.
pub proof fn law_every_named_tool_is_offered(tools: Seq<JsonView>, i: int)
    requires
        0 <= i < tools.len(),
    ensures
        function_definitions(tools).len() == named(tools),
        tools[i].text_at("name"@) is Some ==> {
            &&& named(tools.take(i)) < named(tools)
            &&& function_definitions(tools)[named(tools.take(i)) as int] == function_definition(
                tools[i],
            )->0
        },
    decreases tools.len(),
{
    lemma_count_definitions(tools);
    let keeps = |tool: JsonView| tool.text_at("name"@) is Some;
    let before = tools.drop_last();
    assert(before.push(tools.last()) =~= tools);
    before.lemma_filter_push(tools.last(), keeps);
    law_named_tools_are_offered(tools.last());
    lemma_count_definitions(before);
    if i < tools.len() - 1 {
        law_every_named_tool_is_offered(before, i);
        assert(before.take(i) =~= tools.take(i));
    } else {
        assert(tools.take(i) =~= before);
    }
}

proof fn lemma_count_definitions(tools: Seq<JsonView>)
    ensures
        function_definitions(tools).len() == named(tools),
    decreases tools.len(),
{
    let keeps = |tool: JsonView| tool.text_at("name"@) is Some;
    if tools.len() == 0 {
        assert(tools.filter(keeps).len() == 0) by {
            reveal(Seq::filter);
        }
    } else {
        let before = tools.drop_last();
        assert(before.push(tools.last()) =~= tools);
        before.lemma_filter_push(tools.last(), keeps);
        lemma_count_definitions(before);
        law_named_tools_are_offered(tools.last());
    }
}

/// The tool choice of the client decides that of the endpoint: none stays none, any
/// means that a tool is required, a tool with a name is asked for by that name, and
/// everything else leaves the choice open.
pub proof fn law_tool_choices(choice: JsonView)
    ensures
        choice.text_at("type"@) == Some("none"@) ==> function_choice(choice) == JsonView::String(
            "none"@,
        ),
        choice.text_at("type"@) == Some("any"@) ==> function_choice(choice) == JsonView::String(
            "required"@,
        ),
        choice.text_at("type"@) == Some("tool"@) ==> (choice.text_at("name"@) matches Some(name)
            ==> {
            let json = function_choice(choice);
            &&& has_keys(json, set!["type"@, "function"@])
            &&& at(json, "type"@) == JsonView::String("function"@)
            &&& has_keys(at(json, "function"@), set!["name"@])
            &&& at(at(json, "function"@), "name"@) == JsonView::String(name)
        }),
        choice.text_at("type"@) == Some("tool"@) && choice.text_at("name"@) is None
            ==> function_choice(choice) == JsonView::String("auto"@),
        choice.text_at("type"@) != Some("none"@) && choice.text_at("type"@) != Some("any"@)
            && choice.text_at("type"@) != Some("tool"@) ==> function_choice(choice)
            == JsonView::String("auto"@),
{
    lemma_keys();
    reveal_strlit("none");
    reveal_strlit("any");
    reveal_strlit("tool");
    assert("none"@.len() == 4 && "any"@.len() == 3 && "tool"@.len() == 4);
    assert("none"@[0] == 'n' && "tool"@[0] == 't');
    let json = function_choice(choice);
    if choice.text_at("type"@) == Some("tool"@) && choice.text_at("name"@) is Some {
        assert(json->Object_0.dom() =~= set!["type"@, "function"@]);
        assert(at(json, "function"@)->Object_0.dom() =~= set!["name"@]);
    }
}

/// An assertion says how it is signed, who asks, for what, where, and from when on it
/// is valid for an hour.
pub proof fn law_assertion_claims(email: Seq<char>, token_uri: Seq<char>, now: nat)
    ensures
        ({
            let header = assertion_header();
            let claims = assertion_claims(email, token_uri, now);
            &&& has_keys(header, set!["alg"@, "typ"@])
            &&& at(header, "alg"@) == JsonView::String("RS256"@)
            &&& at(header, "typ"@) == JsonView::String("JWT"@)
            &&& has_keys(claims, set!["iss"@, "scope"@, "aud"@, "iat"@, "exp"@])
            &&& at(claims, "iss"@) == JsonView::String(email)
            &&& at(claims, "scope"@) == JsonView::String(
                "https://www.googleapis.com/auth/cloud-platform"@,
            )
            &&& at(claims, "aud"@) == JsonView::String(token_uri)
            &&& at(claims, "iat"@) == JsonView::Number(unsigned_number(now as u64))
            &&& at(claims, "exp"@) == JsonView::Number(unsigned_number((now + 3600) as u64))
        }),
{
    lemma_keys();
    let claims = assertion_claims(email, token_uri, now);
    assert(assertion_header()->Object_0.dom() =~= set!["alg"@, "typ"@]);
    assert(claims->Object_0.dom() =~= set!["iss"@, "scope"@, "aud"@, "iat"@, "exp"@]);
}

} // verus!
