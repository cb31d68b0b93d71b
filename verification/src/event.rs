//! The events of a streamed reply to the client.

use crate::json::{Json, JsonObject, JsonView};
use crate::json_text::{json_text, number, to_text, unsigned_number};
use vstd::prelude::*;

verus! {

/// A content block as it is announced.
pub enum BlockHeader {
    Text,
    ToolUse { id: String, name: String },
}

/// An event of the stream.
pub enum StreamEvent {
    MessageStart { id: String, model: String, input_tokens: usize },
    BlockStart { index: usize, block: BlockHeader },
    TextDelta { index: usize, text: String },
    JsonDelta { index: usize, partial_json: String },
    BlockStop { index: usize },
    MessageDelta { stop_reason: String, output_tokens: usize },
    MessageStop,
}

/// What a block header is.
#[verifier::ext_equal]
pub enum HeaderView {
    Text,
    ToolUse { id: Seq<char>, name: Seq<char> },
}

/// What an event is.
#[verifier::ext_equal]
pub enum EventView {
    MessageStart { id: Seq<char>, model: Seq<char>, input_tokens: nat },
    BlockStart { index: nat, block: HeaderView },
    TextDelta { index: nat, text: Seq<char> },
    JsonDelta { index: nat, partial_json: Seq<char> },
    BlockStop { index: nat },
    MessageDelta { stop_reason: Seq<char>, output_tokens: nat },
    MessageStop,
}

impl View for BlockHeader {
    type V = HeaderView;

    open spec fn view(&self) -> HeaderView {
        match self {
            BlockHeader::Text => HeaderView::Text,
            BlockHeader::ToolUse { id, name } => HeaderView::ToolUse { id: id@, name: name@ },
        }
    }
}

impl View for StreamEvent {
    type V = EventView;

    open spec fn view(&self) -> EventView {
        match self {
            StreamEvent::MessageStart { id, model, input_tokens } => EventView::MessageStart {
                id: id@,
                model: model@,
                input_tokens: *input_tokens as nat,
            },
            StreamEvent::BlockStart { index, block } => EventView::BlockStart {
                index: *index as nat,
                block: block@,
            },
            StreamEvent::TextDelta { index, text } => EventView::TextDelta {
                index: *index as nat,
                text: text@,
            },
            StreamEvent::JsonDelta { index, partial_json } => EventView::JsonDelta {
                index: *index as nat,
                partial_json: partial_json@,
            },
            StreamEvent::BlockStop { index } => EventView::BlockStop { index: *index as nat },
            StreamEvent::MessageDelta { stop_reason, output_tokens } => EventView::MessageDelta {
                stop_reason: stop_reason@,
                output_tokens: *output_tokens as nat,
            },
            StreamEvent::MessageStop => EventView::MessageStop,
        }
    }
}

/// The views of a list of events.
pub open spec fn events_view(events: Seq<StreamEvent>) -> Seq<EventView> {
    events.map_values(|e: StreamEvent| e@)
}

/// The object without members.
pub open spec fn no_members() -> Map<Seq<char>, JsonView> {
    Map::empty()
}

/// A number that counts something.
pub open spec fn count_json(n: nat) -> JsonView {
    JsonView::Number(unsigned_number(n as u64))
}

/// The name under which an event is sent.
pub open spec fn event_name(event: EventView) -> Seq<char> {
    match event {
        EventView::MessageStart { .. } => "message_start"@,
        EventView::BlockStart { .. } => "content_block_start"@,
        EventView::TextDelta { .. } => "content_block_delta"@,
        EventView::JsonDelta { .. } => "content_block_delta"@,
        EventView::BlockStop { .. } => "content_block_stop"@,
        EventView::MessageDelta { .. } => "message_delta"@,
        EventView::MessageStop => "message_stop"@,
    }
}

/// The JSON of a block header.
pub open spec fn header_json(block: HeaderView) -> JsonView {
    match block {
        HeaderView::Text => JsonView::Object(
            no_members().insert("type"@, JsonView::String("text"@)).insert(
                "text"@,
                JsonView::String(""@),
            ),
        ),
        HeaderView::ToolUse { id, name } => JsonView::Object(
            no_members().insert("type"@, JsonView::String("tool_use"@)).insert(
                "id"@,
                JsonView::String(id),
            ).insert("name"@, JsonView::String(name)).insert(
                "input"@,
                JsonView::Object(no_members()),
            ),
        ),
    }
}

/// The JSON of a message that has just begun.
pub open spec fn opening_message(
    id: Seq<char>,
    model: Seq<char>,
    input_tokens: nat,
) -> JsonView {
    JsonView::Object(
        no_members().insert("id"@, JsonView::String(id)).insert(
            "type"@,
            JsonView::String("message"@),
        ).insert("role"@, JsonView::String("assistant"@)).insert(
            "model"@,
            JsonView::String(model),
        ).insert("content"@, JsonView::Array(seq![])).insert("stop_reason"@, JsonView::Null).insert(
            "stop_sequence"@,
            JsonView::Null,
        ).insert(
            "usage"@,
            JsonView::Object(
                no_members().insert("input_tokens"@, count_json(input_tokens)).insert(
                    "output_tokens"@,
                    count_json(0),
                ),
            ),
        ),
    )
}

/// The members of an event besides its type.
pub open spec fn event_members(
    typed: Map<Seq<char>, JsonView>,
    event: EventView,
) -> Map<Seq<char>, JsonView> {
    match event {
        EventView::MessageStart { id, model, input_tokens } => typed.insert(
            "message"@,
            opening_message(id, model, input_tokens),
        ),
        EventView::BlockStart { index, block } => typed.insert("index"@, count_json(index)).insert(
            "content_block"@,
            header_json(block),
        ),
        EventView::TextDelta { index, text } => typed.insert("index"@, count_json(index)).insert(
            "delta"@,
            JsonView::Object(
                no_members().insert("type"@, JsonView::String("text_delta"@)).insert(
                    "text"@,
                    JsonView::String(text),
                ),
            ),
        ),
        EventView::JsonDelta { index, partial_json } => typed.insert(
            "index"@,
            count_json(index),
        ).insert(
            "delta"@,
            JsonView::Object(
                no_members().insert("type"@, JsonView::String("input_json_delta"@)).insert(
                    "partial_json"@,
                    JsonView::String(partial_json),
                ),
            ),
        ),
        EventView::BlockStop { index } => typed.insert("index"@, count_json(index)),
        EventView::MessageDelta { stop_reason, output_tokens } => typed.insert(
            "delta"@,
            JsonView::Object(
                no_members().insert("stop_reason"@, JsonView::String(stop_reason)).insert(
                    "stop_sequence"@,
                    JsonView::Null,
                ),
            ),
        ).insert(
            "usage"@,
            JsonView::Object(no_members().insert("output_tokens"@, count_json(output_tokens))),
        ),
        EventView::MessageStop => typed,
    }
}

/// The JSON of an event.
pub open spec fn event_json(event: EventView) -> JsonView {
    JsonView::Object(
        event_members(no_members().insert("type"@, JsonView::String(event_name(event))), event),
    )
}

fn count(n: usize) -> (json: Json)
    ensures
        json@ == count_json(n as nat),
{
    Json::Number(number(n as u64))
}

impl BlockHeader {
    fn to_json(&self) -> (json: Json)
        ensures
            json@ == header_json(self@),
    {
        match self {
            BlockHeader::Text => Json::Object(
                JsonObject::new().with("type", Json::string("text")).with("text", Json::string("")),
            ),
            BlockHeader::ToolUse { id, name } => Json::Object(
                JsonObject::new().with("type", Json::string("tool_use")).with(
                    "id",
                    Json::string(id.as_str()),
                ).with("name", Json::string(name.as_str())).with(
                    "input",
                    Json::Object(JsonObject::new()),
                ),
            ),
        }
    }
}

fn opening_message_json(id: &str, model: &str, input_tokens: usize) -> (json: Json)
    ensures
        json@ == opening_message(id@, model@, input_tokens as nat),
{
    let usage = JsonObject::new().with("input_tokens", count(input_tokens)).with(
        "output_tokens",
        count(0),
    );
    let content: Vec<Json> = Vec::new();
    Json::Object(
        JsonObject::new().with("id", Json::string(id)).with("type", Json::string("message")).with(
            "role",
            Json::string("assistant"),
        ).with("model", Json::string(model)).with("content", Json::Array(content)).with(
            "stop_reason",
            Json::Null,
        ).with("stop_sequence", Json::Null).with("usage", Json::Object(usage)),
    )
}

impl StreamEvent {
    /// The name under which the event is sent.
    pub fn name(&self) -> (name: &'static str)
        ensures
            name@ == event_name(self@),
    {
        match self {
            StreamEvent::MessageStart { .. } => "message_start",
            StreamEvent::BlockStart { .. } => "content_block_start",
            StreamEvent::TextDelta { .. } => "content_block_delta",
            StreamEvent::JsonDelta { .. } => "content_block_delta",
            StreamEvent::BlockStop { .. } => "content_block_stop",
            StreamEvent::MessageDelta { .. } => "message_delta",
            StreamEvent::MessageStop => "message_stop",
        }
    }

    /// The JSON of the event.
    pub fn to_json(&self) -> (json: Json)
        ensures
            json@ == event_json(self@),
    {
        let typed = JsonObject::new().with("type", Json::string(self.name()));
        let object = match self {
            StreamEvent::MessageStart { id, model, input_tokens } => typed.with(
                "message",
                opening_message_json(id.as_str(), model.as_str(), *input_tokens),
            ),
            StreamEvent::BlockStart { index, block } => typed.with("index", count(*index)).with(
                "content_block",
                block.to_json(),
            ),
            StreamEvent::TextDelta { index, text } => {
                let delta = JsonObject::new().with("type", Json::string("text_delta")).with(
                    "text",
                    Json::string(text.as_str()),
                );
                typed.with("index", count(*index)).with("delta", Json::Object(delta))
            },
            StreamEvent::JsonDelta { index, partial_json } => {
                let delta = JsonObject::new().with("type", Json::string("input_json_delta")).with(
                    "partial_json",
                    Json::string(partial_json.as_str()),
                );
                typed.with("index", count(*index)).with("delta", Json::Object(delta))
            },
            StreamEvent::BlockStop { index } => typed.with("index", count(*index)),
            StreamEvent::MessageDelta { stop_reason, output_tokens } => {
                let delta = JsonObject::new().with(
                    "stop_reason",
                    Json::string(stop_reason.as_str()),
                ).with("stop_sequence", Json::Null);
                let usage = JsonObject::new().with("output_tokens", count(*output_tokens));
                typed.with("delta", Json::Object(delta)).with("usage", Json::Object(usage))
            },
            StreamEvent::MessageStop => typed,
        };
        Json::Object(object)
    }

    /// The data that the event is sent with: its JSON text.
    pub fn data(&self) -> (text: String)
        ensures
            text@ == json_text(event_json(self@)),
    {
        to_text(&self.to_json())
    }
}

/// Every event is sent under the name of its kind, which is also the type in its
/// JSON.
pub proof fn law_event_names(event: EventView)
    ensures
        event is MessageStart ==> event_name(event) == "message_start"@,
        event is BlockStart ==> event_name(event) == "content_block_start"@,
        event is TextDelta || event is JsonDelta ==> event_name(event) == "content_block_delta"@,
        event is BlockStop ==> event_name(event) == "content_block_stop"@,
        event is MessageDelta ==> event_name(event) == "message_delta"@,
        event is MessageStop ==> event_name(event) == "message_stop"@,
{
}

} // verus!
