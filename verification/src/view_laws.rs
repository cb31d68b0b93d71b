//! What the values that the program handles stand for: nothing that they hold is
//! lost, and lists stand for their elements, in order.

use crate::auth::pairs_view;
use crate::chunk::{
    call_deltas_view, or_empty, OpenAIChoice, OpenAIChunk, OpenAIDelta, OpenAIToolCallDelta,
};
use crate::cli::{Command, CommandView};
use crate::event::{events_view, BlockHeader, EventView, HeaderView, StreamEvent};
use crate::json::{lemma_items_view, opt_value, Json};
use crate::log::{entries_of, RequestLog, Stats};
use crate::messages::{
    calls_view, chat_view, turns_view, AnthropicMessage, OpenAIMessage, OpenAIToolCall,
};
use crate::request::{opt_items, opt_texts};
use crate::response::{
    answer_calls, OpenAINonStreamChoice, OpenAINonStreamResponse, OpenAIToolCallResp,
};
use crate::sse::LineBuffer;
use crate::stream::{StreamState, ToolStreamState};
use crate::text::{opt_view, views};
use vstd::prelude::*;

verus! {

/// Texts stand for their characters, where there are any texts.
pub proof fn law_texts(text: Option<String>, texts: Seq<String>, list: Option<Vec<String>>)
    ensures
        text matches Some(t) ==> opt_view(text) == Some(t@),
        text is None ==> opt_view(text) is None,
        text matches Some(t) ==> or_empty(text) == t@,
        text is None ==> or_empty(text).len() == 0,
        views(texts).len() == texts.len(),
        forall|i: int| 0 <= i < texts.len() ==> views(texts)[i] == (#[trigger] texts[i])@,
        list matches Some(l) ==> opt_texts(list) matches Some(v) && v.len() == l@.len() && forall|
            i: int,
        |
            0 <= i < l@.len() ==> v[i] == (#[trigger] l@[i])@,
        list is None ==> opt_texts(list) is None,
{
}

/// Pairs of texts stand for their two texts.
pub proof fn law_pairs(pairs: Seq<(String, String)>)
    ensures
        pairs_view(pairs).len() == pairs.len(),
        forall|i: int|
            0 <= i < pairs.len() ==> pairs_view(pairs)[i].0 == (#[trigger] pairs[i]).0@
                && pairs_view(pairs)[i].1 == pairs[i].1@,
{
}

/// Optional values and lists of values stand for the values in them.
pub proof fn law_optional_values(value: Option<Json>, list: Option<Vec<Json>>)
    ensures
        value matches Some(v) ==> opt_value(value) == Some(v@),
        value is None ==> opt_value(value) is None,
        list matches Some(l) ==> opt_items(list) matches Some(v) && v.len() == l@.len() && forall|
            i: int,
        |
            0 <= i < l@.len() ==> v[i] == (#[trigger] l@[i])@,
        list is None ==> opt_items(list) is None,
{
    if let Some(l) = list {
        lemma_items_view(l@);
    }
}

/// A turn is its role and its content.
pub proof fn law_turns(turns: Seq<AnthropicMessage>)
    ensures
        turns_view(turns).len() == turns.len(),
        forall|i: int|
            0 <= i < turns.len() ==> {
                let turn = #[trigger] turns[i];
                &&& turns_view(turns)[i] == turn@
                &&& turns_view(turns)[i].role == turn.role@
                &&& turns_view(turns)[i].content == turn.content@
            },
{
}

/// A tool call is its id, its kind, its name and its arguments.
pub proof fn law_tool_calls(calls: Seq<OpenAIToolCall>)
    ensures
        calls_view(calls).len() == calls.len(),
        forall|i: int|
            0 <= i < calls.len() ==> {
                let call = #[trigger] calls[i];
                &&& calls_view(calls)[i] == call@
                &&& calls_view(calls)[i].id == call.id@
                &&& calls_view(calls)[i].kind == call.kind@
                &&& calls_view(calls)[i].name == call.function.name@
                &&& calls_view(calls)[i].arguments == call.function.arguments@
            },
{
}

/// A chat message is its role, its content, its tool calls and the id of the call
/// that it answers.
pub proof fn law_chat_messages(messages: Seq<OpenAIMessage>)
    ensures
        chat_view(messages).len() == messages.len(),
        forall|i: int|
            0 <= i < messages.len() ==> {
                let message = #[trigger] messages[i];
                let view = chat_view(messages)[i];
                &&& view == message@
                &&& view.role == message.role@
                &&& message.content matches Some(text) ==> view.content == Some(text@)
                &&& message.content is None ==> view.content is None
                &&& message.tool_calls matches Some(calls) ==> view.tool_calls == Some(
                    calls_view(calls@),
                )
                &&& message.tool_calls is None ==> view.tool_calls is None
                &&& message.tool_call_id matches Some(id) ==> view.tool_call_id == Some(id@)
                &&& message.tool_call_id is None ==> view.tool_call_id is None
            },
{
}

/// A tool call delta is its index and the texts that it gives.
pub proof fn law_call_deltas(deltas: Seq<OpenAIToolCallDelta>)
    ensures
        call_deltas_view(deltas).len() == deltas.len(),
        forall|i: int|
            0 <= i < deltas.len() ==> {
                let delta = #[trigger] deltas[i];
                let view = call_deltas_view(deltas)[i];
                &&& view == delta@
                &&& view.index == delta.index
                &&& delta.id matches Some(id) ==> view.id == id@
                &&& delta.id is None ==> view.id.len() == 0
                &&& delta.function matches Some(f) ==> {
                    &&& f.name matches Some(name) ==> view.name == name@
                    &&& f.name is None ==> view.name.len() == 0
                    &&& f.arguments matches Some(arguments) ==> view.arguments == arguments@
                    &&& f.arguments is None ==> view.arguments.len() == 0
                }
                &&& delta.function is None ==> view.name.len() == 0 && view.arguments.len() == 0
            },
{
}

/// A chunk is what the first of its choices adds.
pub proof fn law_chunks(chunk: OpenAIChunk)
    ensures
        chunk.choices is None ==> chunk@.text.len() == 0 && chunk@.calls.len() == 0
            && chunk@.finish is None,
        chunk.choices matches Some(choices) ==> {
            &&& choices@.len() == 0 ==> chunk@.text.len() == 0 && chunk@.calls.len() == 0
                && chunk@.finish is None
            &&& choices@.len() > 0 ==> adds(choices@[0], chunk)
        },
{
}

/// The chunk is what the choice adds.
pub open spec fn adds(choice: OpenAIChoice, chunk: OpenAIChunk) -> bool {
    &&& choice.finish_reason matches Some(reason) ==> chunk@.finish == Some(reason@)
    &&& choice.finish_reason is None ==> chunk@.finish is None
    &&& choice.delta is None ==> chunk@.text.len() == 0 && chunk@.calls.len() == 0
    &&& choice.delta matches Some(delta) ==> delta_adds(delta, chunk)
}

/// The chunk has the text and the tool call deltas of the delta.
pub open spec fn delta_adds(delta: OpenAIDelta, chunk: OpenAIChunk) -> bool {
    &&& delta.content matches Some(text) ==> chunk@.text == text@
    &&& delta.content is None ==> chunk@.text.len() == 0
    &&& delta.tool_calls matches Some(calls) ==> chunk@.calls == call_deltas_view(calls@)
    &&& delta.tool_calls is None ==> chunk@.calls.len() == 0
}

/// An event is its kind and what it carries.
pub proof fn law_events(events: Seq<StreamEvent>, i: int)
    requires
        0 <= i < events.len(),
    ensures
        events_view(events).len() == events.len(),
        events_view(events)[i] == events[i]@,
        events[i] matches StreamEvent::MessageStart { id, model, input_tokens } ==> events[i]@
            == (EventView::MessageStart { id: id@, model: model@, input_tokens: input_tokens as nat }),
        events[i] matches StreamEvent::BlockStart { index, block } ==> events[i]@
            == (EventView::BlockStart { index: index as nat, block: block@ }),
        events[i] matches StreamEvent::TextDelta { index, text } ==> events[i]@
            == (EventView::TextDelta { index: index as nat, text: text@ }),
        events[i] matches StreamEvent::JsonDelta { index, partial_json } ==> events[i]@
            == (EventView::JsonDelta { index: index as nat, partial_json: partial_json@ }),
        events[i] matches StreamEvent::BlockStop { index } ==> events[i]@
            == (EventView::BlockStop { index: index as nat }),
        events[i] matches StreamEvent::MessageDelta { stop_reason, output_tokens } ==> events[i]@
            == (EventView::MessageDelta {
            stop_reason: stop_reason@,
            output_tokens: output_tokens as nat,
        }),
        events[i] is MessageStop ==> events[i]@ == EventView::MessageStop,
{
}

/// A block header is its kind, and the id and name of a tool use.
pub proof fn law_headers(block: BlockHeader)
    ensures
        block is Text ==> block@ == HeaderView::Text,
        block matches BlockHeader::ToolUse { id, name } ==> block@ == (HeaderView::ToolUse {
            id: id@,
            name: name@,
        }),
{
}

/// The state of a stream is its counters, its current block, its tool calls and its
/// finish reason.
pub proof fn law_stream_states(state: StreamState, k: u32)
    ensures
        state@.next == state.next_block_idx,
        state@.tokens == state.output_tokens,
        state.current_block matches Some((idx, kind)) ==> state@.current == Some(
            (idx as nat, kind),
        ),
        state.current_block is None ==> state@.current is None,
        state.finish_reason matches Some(reason) ==> state@.finish == Some(reason@),
        state.finish_reason is None ==> state@.finish is None,
        state@.tools.contains_key(k) == state.tools@.contains_key(k),
        state.tools@.contains_key(k) ==> state@.tools[k] == state.tools@[k]@,
{
}

/// What is known of a tool call is its block, its id and name, and what waits.
pub proof fn law_tool_states(tool: ToolStreamState)
    ensures
        tool.block_idx matches Some(idx) ==> tool@.block == Some(idx as nat),
        tool.block_idx is None ==> tool@.block is None,
        tool.id matches Some(id) ==> tool@.id == Some(id@),
        tool.id is None ==> tool@.id is None,
        tool.name matches Some(name) ==> tool@.name == Some(name@),
        tool.name is None ==> tool@.name is None,
        tool@.pending == tool.pending_args@,
{
}

/// What has arrived of an unfinished line is that text.
pub proof fn law_line_buffers(buffer: LineBuffer)
    ensures
        buffer@ == buffer.rest@,
{
}

/// A reply in one piece is what the first of its choices says, and the counts that
/// it reports.
pub proof fn law_answers(response: OpenAINonStreamResponse)
    ensures
        response.choices@.len() == 0 ==> response@.text.len() == 0 && response@.calls.len() == 0
            && response@.finish is None,
        response.choices@.len() > 0 ==> says(response.choices@[0], response),
        response.usage matches Some(usage) ==> response@.input_tokens == usage.prompt_tokens
            && response@.output_tokens == usage.completion_tokens,
        response.usage is None ==> response@.input_tokens is None && response@.output_tokens
            is None,
{
}

/// The reply has the text, the tool calls and the finish reason of the choice.
pub open spec fn says(choice: OpenAINonStreamChoice, response: OpenAINonStreamResponse) -> bool {
    &&& choice.message.content matches Some(text) ==> response@.text == text@
    &&& choice.message.content is None ==> response@.text.len() == 0
    &&& choice.message.tool_calls matches Some(calls) ==> response@.calls == answer_calls(calls@)
    &&& choice.message.tool_calls is None ==> response@.calls.len() == 0
    &&& choice.finish_reason matches Some(reason) ==> response@.finish == Some(reason@)
    &&& choice.finish_reason is None ==> response@.finish is None
}

/// A tool call of a reply is its id, its name and its arguments.
pub proof fn law_answer_calls(calls: Seq<OpenAIToolCallResp>)
    ensures
        answer_calls(calls).len() == calls.len(),
        forall|i: int|
            0 <= i < calls.len() ==> {
                let call = #[trigger] calls[i];
                let view = answer_calls(calls)[i];
                &&& view == call@
                &&& view.id == call.id@
                &&& view.name == call.function.name@
                &&& view.arguments == call.function.arguments@
            },
{
}

/// A log entry is all that it holds.
pub proof fn law_log_entries(logs: Seq<RequestLog>)
    ensures
        entries_of(logs).len() == logs.len(),
        forall|i: int|
            0 <= i < logs.len() ==> {
                let log = #[trigger] logs[i];
                let view = entries_of(logs)[i];
                &&& view == log@
                &&& view.id == log.id@
                &&& view.timestamp == log.timestamp@
                &&& view.model == log.model_requested@
                &&& view.status == log.status@
                &&& view.input_tokens == log.input_tokens
                &&& view.output_tokens == log.output_tokens
                &&& view.duration_ms == log.duration_ms
            },
{
}

/// The log and the counters are all that they hold.
pub proof fn law_stats(stats: Stats)
    ensures
        stats@.entries == entries_of(stats.logs@),
        stats@.requests == stats.total_requests,
        stats@.input_tokens == stats.total_input_tokens,
        stats@.output_tokens == stats.total_output_tokens,
        stats@.rates == stats.rps_history@,
{
}

/// A command is what it asks for, and a launch its command with all arguments.
pub proof fn law_commands(command: Command)
    ensures
        command is Interactive ==> command@ is Interactive,
        command is Serve ==> command@ is Serve,
        command is LaunchNothing ==> command@ is LaunchNothing,
        command is Help ==> command@ is Help,
        command matches Command::Unknown(word) ==> command@ == CommandView::Unknown(word@),
        command matches Command::Launch { cmd, args } ==> (command@ matches CommandView::Launch {
            cmd: c,
            args: a,
        } && c == cmd@ && a.len() == args@.len() && forall|i: int|
            0 <= i < args@.len() ==> a[i] == (#[trigger] args@[i])@),
{
}

} // verus!
