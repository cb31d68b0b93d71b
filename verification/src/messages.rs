//! Conversation turns: from content blocks to chat messages.

use crate::content::{
    blocks_of, blocks_text, collect_text, content_blocks, flat_text, flatten_text,
    flatten_tool_result_content, tool_result_text,
};
use crate::json::{
    items_view, lemma_items_view, opt_value, text_or_empty, Json, JsonView,
};
use crate::json_text::{json_text, to_text};
use crate::text::{join, opt_view, same_text};
use vstd::prelude::*;
use vstd::string::*;

verus! {

/// A turn of the conversation as the client sends it.
pub struct AnthropicMessage {
    pub role: String,
    pub content: Json,
}

/// A chat message for the upstream endpoint. The content may be absent from an
/// assistant message that only carries tool calls.
pub struct OpenAIMessage {
    pub role: String,
    pub content: Option<String>,
    pub tool_calls: Option<Vec<OpenAIToolCall>>,
    pub tool_call_id: Option<String>,
}

/// A tool call of an assistant message.
pub struct OpenAIToolCall {
    pub id: String,
    pub kind: String,
    pub function: OpenAIFunctionCall,
}

/// The function that a tool call names, with its arguments as JSON text.
pub struct OpenAIFunctionCall {
    pub name: String,
    pub arguments: String,
}

/// What a turn is.
#[verifier::ext_equal]
pub struct TurnView {
    pub role: Seq<char>,
    pub content: JsonView,
}

/// What a chat message is.
#[verifier::ext_equal]
pub struct ChatView {
    pub role: Seq<char>,
    pub content: Option<Seq<char>>,
    pub tool_calls: Option<Seq<ToolCallView>>,
    pub tool_call_id: Option<Seq<char>>,
}

/// What a tool call is.
#[verifier::ext_equal]
pub struct ToolCallView {
    pub id: Seq<char>,
    pub kind: Seq<char>,
    pub name: Seq<char>,
    pub arguments: Seq<char>,
}

impl View for AnthropicMessage {
    type V = TurnView;

    open spec fn view(&self) -> TurnView {
        TurnView { role: self.role@, content: self.content@ }
    }
}

impl View for OpenAIToolCall {
    type V = ToolCallView;

    open spec fn view(&self) -> ToolCallView {
        ToolCallView {
            id: self.id@,
            kind: self.kind@,
            name: self.function.name@,
            arguments: self.function.arguments@,
        }
    }
}

impl View for OpenAIMessage {
    type V = ChatView;

    open spec fn view(&self) -> ChatView {
        ChatView {
            role: self.role@,
            content: opt_view(self.content),
            tool_calls: match self.tool_calls {
                Some(calls) => Some(calls_view(calls@)),
                None => None,
            },
            tool_call_id: opt_view(self.tool_call_id),
        }
    }
}

/// The views of a list of turns.
pub open spec fn turns_view(turns: Seq<AnthropicMessage>) -> Seq<TurnView> {
    turns.map_values(|m: AnthropicMessage| m@)
}

/// The views of a list of tool calls.
pub open spec fn calls_view(calls: Seq<OpenAIToolCall>) -> Seq<ToolCallView> {
    calls.map_values(|c: OpenAIToolCall| c@)
}

/// The views of a list of chat messages.
pub open spec fn chat_view(messages: Seq<OpenAIMessage>) -> Seq<ChatView> {
    messages.map_values(|m: OpenAIMessage| m@)
}

/// A chat message that carries nothing but text.
pub open spec fn text_message(role: Seq<char>, text: Seq<char>) -> ChatView {
    ChatView { role, content: Some(text), tool_calls: None, tool_call_id: None }
}

/// The tool call for a tool use block. An absent input is an empty object.
pub open spec fn tool_call(block: JsonView) -> ToolCallView {
    ToolCallView {
        id: text_or_empty(block, "id"@),
        kind: "function"@,
        name: text_or_empty(block, "name"@),
        arguments: match block.get("input"@) {
            Some(input) => json_text(input),
            None => "{}"@,
        },
    }
}

/// The tool calls for the tool use blocks, in order.
pub open spec fn tool_calls(blocks: Seq<JsonView>) -> Seq<ToolCallView>
    decreases blocks.len(),
{
    if blocks.len() == 0 {
        seq![]
    } else {
        let before = tool_calls(blocks.drop_last());
        if blocks.last().text_at("type"@) == Some("tool_use"@) {
            before.push(tool_call(blocks.last()))
        } else {
            before
        }
    }
}

/// The message for an assistant turn. A turn without text and tool calls has
/// none: the endpoint rejects empty assistant messages.
pub open spec fn assistant_turn(blocks: Seq<JsonView>) -> Seq<ChatView> {
    let text = blocks_text(blocks);
    let calls = tool_calls(blocks);
    if text.len() == 0 && calls.len() == 0 {
        seq![]
    } else {
        seq![
            ChatView {
                role: "assistant"@,
                content: if text.len() == 0 {
                    None
                } else {
                    Some(text)
                },
                tool_calls: if calls.len() == 0 {
                    None
                } else {
                    Some(calls)
                },
                tool_call_id: None,
            },
        ]
    }
}

/// The text of a tool result block, marked where the tool failed.
pub open spec fn result_text(block: JsonView) -> Seq<char> {
    let text = match block.get("content"@) {
        Some(content) => tool_result_text(content),
        None => seq![],
    };
    if block.get("is_error"@) == Some(JsonView::Bool(true)) {
        "[tool_error] "@ + text
    } else {
        text
    }
}

/// The message for a tool result block.
pub open spec fn tool_message(block: JsonView) -> ChatView {
    ChatView {
        role: "tool"@,
        content: Some(result_text(block)),
        tool_calls: None,
        tool_call_id: Some(text_or_empty(block, "tool_use_id"@)),
    }
}

/// The messages for the tool result blocks, in order.
pub open spec fn tool_messages(blocks: Seq<JsonView>) -> Seq<ChatView>
    decreases blocks.len(),
{
    if blocks.len() == 0 {
        seq![]
    } else {
        let before = tool_messages(blocks.drop_last());
        if blocks.last().text_at("type"@) == Some("tool_result"@) {
            before.push(tool_message(blocks.last()))
        } else {
            before
        }
    }
}

/// The messages for the text of a turn: one, or none where there is no text.
pub open spec fn spoken(role: Seq<char>, text: Seq<char>) -> Seq<ChatView> {
    if text.len() == 0 {
        seq![]
    } else {
        seq![text_message(role, text)]
    }
}

/// The messages for a turn that is not the assistant's: the tool results come
/// first, since they must follow the assistant message that made the calls.
pub open spec fn user_turn(role: Seq<char>, blocks: Seq<JsonView>) -> Seq<ChatView> {
    tool_messages(blocks) + spoken(role, blocks_text(blocks))
}

/// The messages for a turn.
pub open spec fn turn_messages(turn: TurnView) -> Seq<ChatView> {
    if turn.role == "assistant"@ {
        assistant_turn(blocks_of(turn.content))
    } else {
        user_turn(turn.role, blocks_of(turn.content))
    }
}

/// The messages for a list of turns, in order.
pub open spec fn turns_messages(turns: Seq<TurnView>) -> Seq<ChatView>
    decreases turns.len(),
{
    if turns.len() == 0 {
        seq![]
    } else {
        turns_messages(turns.drop_last()) + turn_messages(turns.last())
    }
}

/// The messages for the system prompt: one, or none where it has no text.
pub open spec fn system_messages(system: Option<JsonView>) -> Seq<ChatView> {
    match system {
        Some(prompt) => spoken("system"@, flat_text(prompt)),
        None => seq![],
    }
}

/// The chat messages for a conversation.
pub open spec fn conversation(system: Option<JsonView>, turns: Seq<TurnView>) -> Seq<ChatView> {
    system_messages(system) + turns_messages(turns)
}

fn plain_message(role: &str, text: String) -> (message: OpenAIMessage)
    ensures
        message@ == text_message(role@, text@),
{
    OpenAIMessage {
        role: role.to_owned(),
        content: Some(text),
        tool_calls: None,
        tool_call_id: None,
    }
}

fn make_tool_call(block: &Json) -> (call: OpenAIToolCall)
    ensures
        call@ == tool_call(block@),
{
    let arguments = match block.get("input") {
        Some(input) => to_text(input),
        None => "{}".to_owned(),
    };
    OpenAIToolCall {
        id: block.get_str_or_empty("id"),
        kind: "function".to_owned(),
        function: OpenAIFunctionCall { name: block.get_str_or_empty("name"), arguments },
    }
}

/// The first `n + 1` blocks are the first `n` and one more.
proof fn lemma_take_step(blocks: Seq<Json>, n: int)
    requires
        0 <= n < blocks.len(),
    ensures
        items_view(blocks).take(n + 1).drop_last() == items_view(blocks).take(n),
        items_view(blocks).take(n + 1).last() == blocks[n]@,
{
    lemma_items_view(blocks);
    assert(items_view(blocks).take(n + 1).drop_last() =~= items_view(blocks).take(n));
}

fn translate_assistant(blocks: &Vec<Json>) -> (message: Option<OpenAIMessage>)
    ensures
        match message {
            Some(m) => assistant_turn(items_view(blocks@)) == seq![m@],
            None => assistant_turn(items_view(blocks@)).len() == 0,
        },
{
    let ghost all = items_view(blocks@);
    let mut calls: Vec<OpenAIToolCall> = Vec::new();
    let mut i: usize = 0;
    proof {
        lemma_items_view(blocks@);
        assert(all.take(0) =~= seq![]);
        assert(calls_view(calls@) =~= seq![]);
    }
    while i < blocks.len()
        invariant
            i <= blocks@.len(),
            all == items_view(blocks@),
            all.len() == blocks@.len(),
            calls_view(calls@) == tool_calls(all.take(i as int)),
        decreases blocks@.len() - i,
    {
        let ghost before = calls@;
        proof {
            lemma_take_step(blocks@, i as int);
        }
        if blocks[i].has_text("type", "tool_use") {
            let call = make_tool_call(&blocks[i]);
            calls.push(call);
            assert(calls_view(calls@) =~= calls_view(before).push(call@));
        }
        i += 1;
    }
    assert(all.take(all.len() as int) =~= all);
    let text = join(&collect_text(blocks.as_slice()), "\n");
    let content = if text.as_str().is_empty() {
        None
    } else {
        Some(text)
    };
    let tool_calls = if calls.len() == 0 {
        None
    } else {
        Some(calls)
    };
    if content.is_none() && tool_calls.is_none() {
        return None;
    }
    let message = OpenAIMessage {
        role: "assistant".to_owned(),
        content,
        tool_calls,
        tool_call_id: None,
    };
    assert(assistant_turn(all) =~= seq![message@]);
    Some(message)
}

fn make_tool_message(block: &Json) -> (message: OpenAIMessage)
    ensures
        message@ == tool_message(block@),
{
    let text = match block.get("content") {
        Some(content) => flatten_tool_result_content(content),
        None => String::new(),
    };
    let failed = match block.get("is_error") {
        Some(flag) => flag.as_bool(),
        None => None,
    };
    let content = if let Some(true) = failed {
        let mut marked = "[tool_error] ".to_owned();
        marked.append(text.as_str());
        marked
    } else {
        text
    };
    OpenAIMessage {
        role: "tool".to_owned(),
        content: Some(content),
        tool_calls: None,
        tool_call_id: Some(block.get_str_or_empty("tool_use_id")),
    }
}

fn translate_user(role: &str, blocks: &Vec<Json>) -> (messages: Vec<OpenAIMessage>)
    ensures
        chat_view(messages@) == user_turn(role@, items_view(blocks@)),
{
    let ghost all = items_view(blocks@);
    let mut messages: Vec<OpenAIMessage> = Vec::new();
    let mut i: usize = 0;
    proof {
        lemma_items_view(blocks@);
        assert(all.take(0) =~= seq![]);
        assert(chat_view(messages@) =~= seq![]);
    }
    while i < blocks.len()
        invariant
            i <= blocks@.len(),
            all == items_view(blocks@),
            all.len() == blocks@.len(),
            chat_view(messages@) == tool_messages(all.take(i as int)),
        decreases blocks@.len() - i,
    {
        let ghost before = messages@;
        proof {
            lemma_take_step(blocks@, i as int);
        }
        if blocks[i].has_text("type", "tool_result") {
            let message = make_tool_message(&blocks[i]);
            messages.push(message);
            assert(chat_view(messages@) =~= chat_view(before).push(message@));
        }
        i += 1;
    }
    assert(all.take(all.len() as int) =~= all);
    let text = join(&collect_text(blocks.as_slice()), "\n");
    let ghost results = messages@;
    if !text.as_str().is_empty() {
        let message = plain_message(role, text);
        messages.push(message);
        assert(chat_view(messages@) =~= chat_view(results) + seq![message@]);
    }
    assert(chat_view(messages@) =~= user_turn(role@, all));
    messages
}

fn translate_turn(turn: &AnthropicMessage, out: &mut Vec<OpenAIMessage>)
    ensures
        chat_view(final(out)@) == chat_view(old(out)@) + turn_messages(turn@),
{
    let blocks = content_blocks(&turn.content);
    if same_text(turn.role.as_str(), "assistant") {
        if let Some(message) = translate_assistant(&blocks) {
            out.push(message);
        }
        assert(chat_view(out@) =~= chat_view(old(out)@) + turn_messages(turn@));
    } else {
        let mut messages = translate_user(turn.role.as_str(), &blocks);
        out.append(&mut messages);
        assert(chat_view(out@) =~= chat_view(old(out)@) + turn_messages(turn@));
    }
}

/// The chat messages for a conversation: the system prompt, then each turn.
pub fn translate_messages(system: &Option<Json>, messages: &[AnthropicMessage]) -> (out: Vec<
    OpenAIMessage,
>)
    ensures
        chat_view(out@) == conversation(opt_value(*system), turns_view(messages@)),
{
    let mut out: Vec<OpenAIMessage> = Vec::new();
    if let Some(prompt) = system {
        let text = flatten_text(prompt);
        if !text.as_str().is_empty() {
            out.push(plain_message("system", text));
        }
    }
    let ghost turns = turns_view(messages@);
    proof {
        assert(chat_view(out@) =~= system_messages(opt_value(*system)));
        assert(turns.take(0) =~= seq![]);
        assert(chat_view(out@) =~= system_messages(opt_value(*system)) + turns_messages(
            turns.take(0),
        ));
    }
    let mut i: usize = 0;
    while i < messages.len()
        invariant
            i <= messages@.len(),
            turns == turns_view(messages@),
            chat_view(out@) == system_messages(opt_value(*system)) + turns_messages(
                turns.take(i as int),
            ),
        decreases messages@.len() - i,
    {
        let ghost before = chat_view(out@);
        translate_turn(&messages[i], &mut out);
        proof {
            let step = turns.take(i + 1);
            assert(step.drop_last() =~= turns.take(i as int));
            assert(step.last() == messages@[i as int]@);
            assert(chat_view(out@) =~= system_messages(opt_value(*system)) + turns_messages(step));
        }
        i += 1;
    }
    assert(turns.take(turns.len() as int) =~= turns);
    out
}

} // verus!
