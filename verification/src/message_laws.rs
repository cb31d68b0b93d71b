//! What holds of every translated conversation and request.

use crate::content::{
    block_text, blocks_of, blocks_text, flat_text, text_block, text_parts, tool_result_text,
};
use crate::json::JsonView;
use crate::json_laws::{law_every_named_tool_is_offered, named};
use crate::json_text::{json_text, parsed_json};
use crate::messages::{
    assistant_turn, conversation, result_text, system_messages, text_message, tool_calls, tool_messages,
    turn_messages, turns_messages, user_turn, ChatView, ToolCallView, TurnView,
};
use crate::request::{
    calls_text, capped, completions_address, input_text, message_text, wanted_stops, wanted_tools,
    wants_stream,
};
use crate::response::{
    answer_blocks, answer_calls_text, answer_text, reported_or, tool_input, tool_use, tool_uses,
    AnswerView, CallView,
};
use crate::text::joined;
use crate::tools::{function_definition, function_definitions};
use vstd::prelude::*;

verus! {

/// The message carries something that the endpoint accepts: tool calls, or a text
/// that is not empty, or the result of a tool call.
pub open spec fn is_substantial(message: ChatView) -> bool {
    ||| message.tool_calls matches Some(calls) && calls.len() > 0
    ||| message.content matches Some(text) && text.len() > 0
    ||| message.tool_call_id is Some && message.content is Some
}

proof fn lemma_tool_messages(blocks: Seq<JsonView>)
    ensures
        forall|i: int|
            0 <= i < tool_messages(blocks).len() ==> {
                let message = #[trigger] tool_messages(blocks)[i];
                message.tool_call_id is Some && message.content is Some
            },
    decreases blocks.len(),
{
    if blocks.len() > 0 {
        lemma_tool_messages(blocks.drop_last());
    }
}

proof fn lemma_turn_is_substantial(turn: TurnView)
    ensures
        forall|i: int|
            0 <= i < turn_messages(turn).len() ==> is_substantial(#[trigger] turn_messages(turn)[i]),
{
    lemma_tool_messages(blocks_of(turn.content));
}

proof fn lemma_turns_are_substantial(turns: Seq<TurnView>)
    ensures
        forall|i: int|
            0 <= i < turns_messages(turns).len() ==> is_substantial(
                #[trigger] turns_messages(turns)[i],
            ),
    decreases turns.len(),
{
    if turns.len() > 0 {
        let before = turns_messages(turns.drop_last());
        lemma_turns_are_substantial(turns.drop_last());
        lemma_turn_is_substantial(turns.last());
        assert forall|i: int| 0 <= i < turns_messages(turns).len() implies is_substantial(
            #[trigger] turns_messages(turns)[i],
        ) by {
            if i < before.len() {
                assert(turns_messages(turns)[i] == before[i]);
            } else {
                assert(turns_messages(turns)[i] == turn_messages(turns.last())[i - before.len()]);
            }
        }
    }
}

/// No message of a conversation is empty.
pub proof fn law_no_empty_messages(system: Option<JsonView>, turns: Seq<TurnView>)
    ensures
        forall|i: int|
            0 <= i < conversation(system, turns).len() ==> is_substantial(
                #[trigger] conversation(system, turns)[i],
            ),
{
    lemma_turns_are_substantial(turns);
}

/// The results of tool calls come before the text of the same turn.
pub proof fn law_tool_results_first(role: Seq<char>, blocks: Seq<JsonView>, i: int, j: int)
    requires
        0 <= i < j < user_turn(role, blocks).len(),
        user_turn(role, blocks)[j].tool_call_id is Some,
    ensures
        user_turn(role, blocks)[i].tool_call_id is Some,
{
    lemma_tool_messages(blocks);
}

proof fn lemma_turns_concat(a: Seq<TurnView>, b: Seq<TurnView>)
    ensures
        turns_messages(a + b) == turns_messages(a) + turns_messages(b),
    decreases b.len(),
{
    if b.len() == 0 {
        assert(a + b =~= a);
        assert(turns_messages(a) + seq![] =~= turns_messages(a));
    } else {
        lemma_turns_concat(a, b.drop_last());
        assert((a + b).drop_last() =~= a + b.drop_last());
        assert((a + b).last() == b.last());
        assert(turns_messages(a + b) =~= turns_messages(a) + turns_messages(b));
    }
}

/// Later turns add messages behind those of the earlier turns, and change none.
pub proof fn law_turns_append(
    system: Option<JsonView>,
    earlier: Seq<TurnView>,
    later: Seq<TurnView>,
)
    ensures
        conversation(system, earlier + later) == conversation(system, earlier) + turns_messages(
            later,
        ),
{
    lemma_turns_concat(earlier, later);
    assert(system_messages(system) + (turns_messages(earlier) + turns_messages(later))
        =~= conversation(system, earlier) + turns_messages(later));
}

/// The first message is the system prompt, where that has text.
pub proof fn law_system_prompt_leads(prompt: JsonView, turns: Seq<TurnView>)
    requires
        flat_text(prompt).len() > 0,
    ensures
        conversation(Some(prompt), turns).len() > 0,
        conversation(Some(prompt), turns)[0] == text_message("system"@, flat_text(prompt)),
{
}

proof fn lemma_text_block(text: Seq<char>)
    ensures
        text_block(text).text_at("type"@) == Some("text"@),
        block_text(text_block(text)) == Some(text),
        text_parts(seq![text_block(text)]) == seq![text],
        blocks_text(seq![text_block(text)]) == text,
        tool_messages(seq![text_block(text)]).len() == 0,
        tool_calls(seq![text_block(text)]).len() == 0,
{
    reveal_strlit("type");
    reveal_strlit("text");
    reveal_strlit("tool_result");
    reveal_strlit("tool_use");
    assert("type"@[1] != "text"@[1]);
    assert("tool_result"@.len() != "text"@.len());
    assert("tool_use"@.len() != "text"@.len());
    let blocks = seq![text_block(text)];
    assert(blocks.drop_last() =~= seq![]);
    assert(blocks.last() == text_block(text));
    assert(text_parts(blocks.drop_last()) =~= seq![]);
    assert(text_parts(blocks) =~= seq![text]);
    assert(tool_messages(blocks.drop_last()).len() == 0);
    assert(tool_calls(blocks.drop_last()).len() == 0);
}

/// A turn that is plain text stays what it is, whoever speaks.
pub proof fn law_plain_text_is_kept(role: Seq<char>, text: Seq<char>)
    requires
        text.len() > 0,
    ensures
        turn_messages(TurnView { role, content: JsonView::String(text) }) == seq![
            text_message(role, text),
        ],
{
    lemma_text_block(text);
    let turn = TurnView { role, content: JsonView::String(text) };
    if role == "assistant"@ {
        assert(assistant_turn(blocks_of(turn.content)) =~= seq![text_message(role, text)]);
    } else {
        assert(user_turn(role, blocks_of(turn.content)) =~= seq![text_message(role, text)]);
    }
}

/// The tool call that a call of an answer becomes when the client sends it back:
/// id and name are kept, the arguments are written anew from what they say.
pub open spec fn repeated_call(call: CallView) -> ToolCallView {
    ToolCallView {
        id: call.id,
        kind: "function"@,
        name: call.name,
        arguments: json_text(tool_input(parsed_json(call.arguments))),
    }
}

proof fn lemma_tool_use(call: CallView)
    ensures
        ({
            let block = tool_use(call, parsed_json(call.arguments));
            &&& block.text_at("type"@) == Some("tool_use"@)
            &&& block_text(block) is None
            &&& crate::messages::tool_call(block) == repeated_call(call)
        }),
{
    reveal_strlit("type");
    reveal_strlit("id");
    reveal_strlit("name");
    reveal_strlit("input");
    reveal_strlit("text");
    reveal_strlit("tool_use");
    assert("type"@[0] != "name"@[0]);
    assert("id"@.len() != "type"@.len() && "id"@.len() != "name"@.len());
    assert("input"@.len() != "type"@.len() && "input"@.len() != "id"@.len());
    assert("tool_use"@.len() != "text"@.len());
}

proof fn lemma_tool_uses(blocks: Seq<JsonView>, calls: Seq<CallView>)
    ensures
        text_parts(blocks + tool_uses(calls)) == text_parts(blocks),
        tool_calls(blocks + tool_uses(calls)) == tool_calls(blocks) + calls.map_values(
            |call: CallView| repeated_call(call),
        ),
    decreases calls.len(),
{
    let all = blocks + tool_uses(calls);
    let repeated = calls.map_values(|call: CallView| repeated_call(call));
    if calls.len() == 0 {
        assert(all =~= blocks);
        assert(tool_calls(blocks) + repeated =~= tool_calls(blocks));
    } else {
        let before = calls.drop_last();
        lemma_tool_uses(blocks, before);
        lemma_tool_use(calls.last());
        assert(all.drop_last() =~= blocks + tool_uses(before));
        assert(all.last() == tool_use(calls.last(), parsed_json(calls.last().arguments)));
        assert(tool_calls(blocks) + repeated =~= (tool_calls(blocks) + before.map_values(
            |call: CallView| repeated_call(call),
        )).push(repeated_call(calls.last())));
    }
}

/// An answer that the client sends back as a turn of the assistant keeps its text
/// and its tool calls.
pub proof fn law_answer_comes_back(answer: AnswerView)
    ensures
        blocks_text(answer_blocks(answer)) == answer.text,
        tool_calls(answer_blocks(answer)) == answer.calls.map_values(
            |call: CallView| repeated_call(call),
        ),
{
    let spoken = if answer.text.len() == 0 {
        seq![]
    } else {
        seq![text_block(answer.text)]
    };
    lemma_tool_uses(spoken, answer.calls);
    let repeated = answer.calls.map_values(|call: CallView| repeated_call(call));
    if answer.text.len() == 0 {
        assert(tool_calls(spoken) + repeated =~= repeated);
        assert(joined(text_parts(spoken), "\n"@) =~= answer.text);
    } else {
        lemma_text_block(answer.text);
        assert(tool_calls(spoken) =~= seq![]);
        assert(tool_calls(spoken) + repeated =~= repeated);
    }
}

/// The request never asks for more output than the server allows, nor for more
/// than the client asked for.
pub proof fn law_output_is_capped(limit: u32, cap: u32)
    ensures
        capped(Some(limit), cap) matches Some(n) && n <= cap && n <= limit && (n == cap || n
            == limit),
{
}

/// Each tool is translated by itself, in order; one without a name adds nothing.
pub proof fn law_tools_one_by_one(tools: Seq<JsonView>, tool: JsonView)
    ensures
        function_definitions(tools.push(tool)) == match function_definition(tool) {
            Some(definition) => function_definitions(tools).push(definition),
            None => function_definitions(tools),
        },
        function_definition(tool) is None <==> tool.text_at("name"@) is None,
{
    assert(tools.push(tool).drop_last() =~= tools);
}

/// Tools that come in two lists are translated as those of one list.
pub proof fn law_tools_append(a: Seq<JsonView>, b: Seq<JsonView>)
    ensures
        function_definitions(a + b) == function_definitions(a) + function_definitions(b),
    decreases b.len(),
{
    if b.len() == 0 {
        assert(a + b =~= a);
        assert(function_definitions(a) + function_definitions(b) =~= function_definitions(a));
    } else {
        law_tools_append(a, b.drop_last());
        assert((a + b).drop_last() =~= a + b.drop_last());
        assert((a + b).last() == b.last());
        assert(function_definitions(a + b) =~= function_definitions(a) + function_definitions(b));
    }
}

proof fn lemma_blocks_append(a: Seq<JsonView>, b: Seq<JsonView>)
    ensures
        text_parts(a + b) == text_parts(a) + text_parts(b),
        tool_calls(a + b) == tool_calls(a) + tool_calls(b),
        tool_messages(a + b) == tool_messages(a) + tool_messages(b),
    decreases b.len(),
{
    if b.len() == 0 {
        assert(a + b =~= a);
        assert(text_parts(a) + text_parts(b) =~= text_parts(a));
        assert(tool_calls(a) + tool_calls(b) =~= tool_calls(a));
        assert(tool_messages(a) + tool_messages(b) =~= tool_messages(a));
    } else {
        lemma_blocks_append(a, b.drop_last());
        assert((a + b).drop_last() =~= a + b.drop_last());
        assert((a + b).last() == b.last());
        assert(text_parts(a + b) =~= text_parts(a) + text_parts(b));
        assert(tool_calls(a + b) =~= tool_calls(a) + tool_calls(b));
        assert(tool_messages(a + b) =~= tool_messages(a) + tool_messages(b));
    }
}

/// A block that is neither text, nor a tool use, nor a tool result counts for
/// nothing, wherever it stands.
pub proof fn law_other_blocks_do_not_count(
    role: Seq<char>,
    before: Seq<JsonView>,
    block: JsonView,
    after: Seq<JsonView>,
)
    requires
        block.text_at("type"@) != Some("text"@),
        block.text_at("type"@) != Some("tool_use"@),
        block.text_at("type"@) != Some("tool_result"@),
    ensures
        turn_messages(TurnView { role, content: JsonView::Array(before + seq![block] + after) })
            == turn_messages(TurnView { role, content: JsonView::Array(before + after) }),
{
    let one = seq![block];
    assert(one.drop_last() =~= seq![]);
    assert(text_parts(one.drop_last()) =~= seq![]);
    assert(tool_calls(one.drop_last()) =~= seq![]);
    assert(tool_messages(one.drop_last()) =~= seq![]);
    lemma_blocks_append(before, one);
    lemma_blocks_append(before + one, after);
    lemma_blocks_append(before, after);
    let all = before + one + after;
    assert(text_parts(all) =~= text_parts(before + after));
    assert(tool_calls(all) =~= tool_calls(before + after));
    assert(tool_messages(all) =~= tool_messages(before + after));
}

/// A block has a text exactly when its type is text and its text is a string, and
/// then it is that string.
pub proof fn law_text_of_a_block(block: JsonView, text: Seq<char>)
    ensures
        block_text(block) == Some(text) <==> block.text_at("type"@) == Some("text"@)
            && block.text_at("text"@) == Some(text),
        text_parts(seq![block]) == match block_text(block) {
            Some(t) => seq![t],
            None => seq![],
        },
{
    let one = seq![block];
    assert(one.drop_last() =~= seq![]);
    assert(text_parts(one.drop_last()) =~= seq![]);
    assert(text_parts(one) =~= match block_text(block) {
        Some(t) => seq![t],
        None => seq![],
    });
}

/// Blocks that come in two lists have the texts, the tool calls and the tool results
/// of the first list and then those of the second.
pub proof fn law_blocks_append(a: Seq<JsonView>, b: Seq<JsonView>)
    ensures
        text_parts(a + b) == text_parts(a) + text_parts(b),
        tool_calls(a + b) == tool_calls(a) + tool_calls(b),
        tool_messages(a + b) == tool_messages(a) + tool_messages(b),
        text_parts(seq![]).len() == 0,
        tool_calls(seq![]).len() == 0,
        tool_messages(seq![]).len() == 0,
{
    lemma_blocks_append(a, b);
}

/// The text of blocks is that of each of them, one to a line: the text of two lists
/// of blocks is that of the first, a line end, and that of the second, and a list
/// without a text block adds nothing.
pub proof fn law_texts_are_lines(a: Seq<JsonView>, b: Seq<JsonView>, block: JsonView)
    ensures
        text_parts(a).len() > 0 && text_parts(b).len() > 0 ==> blocks_text(a + b) == blocks_text(a)
            + "\n"@ + blocks_text(b),
        text_parts(a).len() == 0 ==> blocks_text(a + b) == blocks_text(b),
        text_parts(b).len() == 0 ==> blocks_text(a + b) == blocks_text(a),
        text_parts(a).len() == 0 ==> blocks_text(a).len() == 0,
        block_text(block) matches Some(t) ==> blocks_text(seq![block]) == t,
        block_text(block) is None ==> text_parts(seq![block]).len() == 0,
{
    lemma_blocks_append(a, b);
    crate::text::law_joined_append(text_parts(a), text_parts(b), "\n"@);
    crate::text::law_joined_append(seq![], seq![], "\n"@);
    assert(text_parts(a).len() == 0 ==> text_parts(a) =~= seq![]);
    law_text_of_a_block(block, seq![]);
    if let Some(t) = block_text(block) {
        crate::text::law_joined_one(t, "\n"@);
    }
}

/// A string is its own text, an array has the text of its blocks, and any other
/// content has none; only a tool result that is neither is written out as JSON.
pub proof fn law_text_of_content(content: JsonView)
    ensures
        content matches JsonView::String(s) ==> flat_text(content) == s && tool_result_text(content)
            == s && blocks_of(content).len() == 1 && blocks_of(content)[0] == text_block(s),
        content matches JsonView::Array(blocks) ==> flat_text(content) == blocks_text(blocks)
            && tool_result_text(content) == blocks_text(blocks) && blocks_of(content) == blocks,
        content is Null ==> flat_text(content).len() == 0 && tool_result_text(content).len() == 0
            && blocks_of(content).len() == 0,
        content is Bool || content is Number || content is Object ==> flat_text(content).len() == 0
            && tool_result_text(content) == json_text(content) && blocks_of(content).len() == 0,
{
}

/// A tool use block is a tool call with its id and name, or empty ones, and with its
/// input as JSON text, or an empty object; no other block is a tool call.
pub proof fn law_tool_use_is_a_call(block: JsonView)
    ensures
        block.text_at("type"@) != Some("tool_use"@) ==> tool_calls(seq![block]).len() == 0,
        block.text_at("type"@) == Some("tool_use"@) ==> {
            let calls = tool_calls(seq![block]);
            &&& calls.len() == 1
            &&& block.text_at("id"@) matches Some(id) ==> calls[0].id == id
            &&& block.text_at("id"@) is None ==> calls[0].id.len() == 0
            &&& calls[0].kind == "function"@
            &&& block.text_at("name"@) matches Some(name) ==> calls[0].name == name
            &&& block.text_at("name"@) is None ==> calls[0].name.len() == 0
            &&& block.get("input"@) matches Some(input) ==> calls[0].arguments == json_text(input)
            &&& block.get("input"@) is None ==> calls[0].arguments == "{}"@
        },
{
    let one = seq![block];
    assert(one.drop_last() =~= seq![]);
    assert(tool_calls(one.drop_last()).len() == 0);
}

/// The text of a tool result is that of its content, whatever form that has, and
/// nothing where it has none; where the tool failed, a mark stands before it.
pub proof fn law_failed_tools_are_marked(block: JsonView)
    ensures
        ({
            let text = match block.get("content"@) {
                Some(content) => tool_result_text(content),
                None => seq![],
            };
            &&& block.get("is_error"@) == Some(JsonView::Bool(true)) ==> result_text(block)
                == "[tool_error] "@ + text
            &&& block.get("is_error"@) != Some(JsonView::Bool(true)) ==> result_text(block) == text
        }),
{
}

/// A tool result block is a message that answers the call with its id, or an empty
/// one, by its text; no other block is such a message.
pub proof fn law_tool_result_is_a_message(block: JsonView)
    ensures
        block.text_at("type"@) != Some("tool_result"@) ==> tool_messages(seq![block]).len() == 0,
        block.text_at("type"@) == Some("tool_result"@) ==> {
            let messages = tool_messages(seq![block]);
            &&& messages.len() == 1
            &&& messages[0].role == "tool"@
            &&& messages[0].content == Some(result_text(block))
            &&& messages[0].tool_calls is None
            &&& block.text_at("tool_use_id"@) matches Some(id) ==> messages[0].tool_call_id
                == Some(id)
            &&& block.text_at("tool_use_id"@) is None ==> (
            messages[0].tool_call_id matches Some(id) && id.len() == 0)
        },
{
    let one = seq![block];
    assert(one.drop_last() =~= seq![]);
    assert(tool_messages(one.drop_last()).len() == 0);
}

/// An assistant's turn is one message with its text and its tool calls, of which one
/// may be missing, or none where it has neither.
pub proof fn law_assistant_turns(content: JsonView)
    ensures
        ({
            let messages = turn_messages(TurnView { role: "assistant"@, content });
            let text = blocks_text(blocks_of(content));
            let calls = tool_calls(blocks_of(content));
            &&& text.len() == 0 && calls.len() == 0 ==> messages.len() == 0
            &&& text.len() > 0 || calls.len() > 0 ==> {
                &&& messages.len() == 1
                &&& messages[0].role == "assistant"@
                &&& messages[0].tool_call_id is None
                &&& text.len() > 0 ==> messages[0].content == Some(text)
                &&& text.len() == 0 ==> messages[0].content is None
                &&& calls.len() > 0 ==> messages[0].tool_calls == Some(calls)
                &&& calls.len() == 0 ==> messages[0].tool_calls is None
            }
        }),
{
}

/// Any other turn is the messages for its tool results, then one with its text in
/// its role, or none where it has no text.
pub proof fn law_other_turns(role: Seq<char>, content: JsonView)
    requires
        role != "assistant"@,
    ensures
        ({
            let messages = turn_messages(TurnView { role, content });
            let results = tool_messages(blocks_of(content));
            let text = blocks_text(blocks_of(content));
            &&& messages.len() == results.len() + if text.len() > 0 {
                1int
            } else {
                0int
            }
            &&& forall|i: int| 0 <= i < results.len() ==> #[trigger] messages[i] == results[i]
            &&& text.len() > 0 ==> {
                &&& messages.last().role == role
                &&& messages.last().content == Some(text)
                &&& messages.last().tool_calls is None
                &&& messages.last().tool_call_id is None
            }
        }),
{
}

/// A conversation is the system prompt, where it has text, and then each turn.
pub proof fn law_conversation_is_its_turns(
    system: Option<JsonView>,
    turns: Seq<TurnView>,
    turn: TurnView,
)
    ensures
        conversation(system, turns.push(turn)) == conversation(system, turns) + turn_messages(turn),
        system is None ==> conversation(system, seq![]).len() == 0,
        system matches Some(prompt) ==> {
            &&& flat_text(prompt).len() == 0 ==> conversation(system, seq![]).len() == 0
            &&& flat_text(prompt).len() > 0 ==> {
                &&& conversation(system, seq![]).len() == 1
                &&& conversation(system, seq![])[0].role == "system"@
                &&& conversation(system, seq![])[0].content == Some(flat_text(prompt))
                &&& conversation(system, seq![])[0].tool_calls is None
                &&& conversation(system, seq![])[0].tool_call_id is None
            }
        },
{
    assert(turns.push(turn).drop_last() =~= turns);
    assert(conversation(system, turns.push(turn)) =~= conversation(system, turns) + turn_messages(
        turn,
    ));
    assert(conversation(system, seq![]) =~= system_messages(system));
}

/// The upstream request offers every tool that has a name, in order, and has no
/// list of tools where there is none.
pub proof fn law_request_offers_every_tool(list: Seq<JsonView>, i: int)
    requires
        0 <= i < list.len(),
    ensures
        wanted_tools(None) is None,
        named(list) == 0 ==> wanted_tools(Some(list)) is None,
        named(list) > 0 ==> (wanted_tools(Some(list)) matches Some(offered) && {
            &&& offered.len() == named(list)
            &&& list[i].text_at("name"@) is Some ==> named(list.take(i)) < named(list)
                && offered[named(list.take(i)) as int] == function_definition(list[i])->0
        }),
{
    law_every_named_tool_is_offered(list, i);
}

/// Stop sequences are passed on, all of them and in order, unless there are none; a
/// stream is asked for where the client asks for one; a request without a token
/// limit is passed on without.
pub proof fn law_request_passes_on(stops: Seq<Seq<char>>, cap: u32)
    ensures
        wanted_stops(None) is None,
        stops.len() == 0 ==> wanted_stops(Some(stops)) is None,
        stops.len() > 0 ==> (wanted_stops(Some(stops)) matches Some(passed) && passed.len()
            == stops.len() && forall|i: int|
            0 <= i < stops.len() ==> #[trigger] passed[i] == stops[i]),
        wants_stream(Some(true)),
        !wants_stream(Some(false)),
        !wants_stream(None),
        capped(None, cap) is None,
{
}

/// The input is counted by the text of all messages, in order: their content, then
/// the name and the arguments of each tool call.
pub proof fn law_input_is_all_text(
    messages: Seq<ChatView>,
    message: ChatView,
    calls: Seq<ToolCallView>,
    call: ToolCallView,
)
    ensures
        input_text(seq![]).len() == 0,
        input_text(messages.push(message)) == input_text(messages) + message_text(message),
        calls_text(seq![]).len() == 0,
        calls_text(calls.push(call)) == calls_text(calls) + call.name + call.arguments,
        message.content matches Some(text) ==> (message.tool_calls matches Some(c) ==> message_text(
            message,
        ) == text + calls_text(c)),
        message.content matches Some(text) ==> (message.tool_calls is None ==> message_text(message)
            == text),
        message.content is None ==> (message.tool_calls matches Some(c) ==> message_text(message)
            == calls_text(c)),
        message.content is None && message.tool_calls is None ==> message_text(message).len() == 0,
{
    assert(messages.push(message).drop_last() =~= messages);
    assert(calls.push(call).drop_last() =~= calls);
    if let Some(text) = message.content {
        if message.tool_calls is None {
            assert(message_text(message) =~= text);
        }
    } else {
        if let Some(c) = message.tool_calls {
            assert(message_text(message) =~= calls_text(c));
        }
    }
}

/// The address names the endpoint, the project and the region, each in its place.
pub proof fn law_address_names_its_parts(
    endpoint: Seq<char>,
    project: Seq<char>,
    region: Seq<char>,
)
    ensures
        ({
            let address = completions_address(endpoint, project, region);
            let start = "https://"@ + endpoint + "/v1/projects/"@;
            let end = "/locations/"@ + region + "/endpoints/openapi/chat/completions"@;
            &&& address.len() == start.len() + project.len() + end.len()
            &&& address.take(start.len() as int) == start
            &&& address.skip(start.len() as int).take(project.len() as int) == project
            &&& address.skip(address.len() - end.len()) == end
        }),
{
    let address = completions_address(endpoint, project, region);
    let start = "https://"@ + endpoint + "/v1/projects/"@;
    let end = "/locations/"@ + region + "/endpoints/openapi/chat/completions"@;
    assert(address =~= start + project + end);
    assert(address.take(start.len() as int) =~= start);
    assert(address.skip(start.len() as int).take(project.len() as int) =~= project);
    assert(address.skip(address.len() - end.len()) =~= end);
}

/// An answer has a block for its text, where it has any, and then one for each of
/// its tool calls.
pub proof fn law_answer_has_all_blocks(answer: AnswerView)
    ensures
        ({
            let blocks = answer_blocks(answer);
            let spoken = if answer.text.len() > 0 {
                1int
            } else {
                0int
            };
            &&& blocks.len() == spoken + answer.calls.len()
            &&& answer.text.len() > 0 ==> blocks[0] == text_block(answer.text)
            &&& forall|i: int|
                0 <= i < answer.calls.len() ==> #[trigger] blocks[spoken + i] == tool_use(
                    answer.calls[i],
                    parsed_json(answer.calls[i].arguments),
                )
        }),
{
}

/// The output is counted by the text of the answer and then the name and the
/// arguments of each tool call.
pub proof fn law_output_is_all_text(answer: AnswerView, calls: Seq<CallView>, call: CallView)
    ensures
        answer_calls_text(seq![]).len() == 0,
        answer_calls_text(calls.push(call)) == answer_calls_text(calls) + call.name
            + call.arguments,
        answer_text(answer).len() == answer.text.len() + answer_calls_text(answer.calls).len(),
        answer_text(answer).take(answer.text.len() as int) == answer.text,
        answer_text(answer).skip(answer.text.len() as int) == answer_calls_text(answer.calls),
{
    assert(calls.push(call).drop_last() =~= calls);
    assert(answer_text(answer).take(answer.text.len() as int) =~= answer.text);
    assert(answer_text(answer).skip(answer.text.len() as int) =~= answer_calls_text(answer.calls));
}

/// A count that is reported is used; otherwise the estimate is, as far as 32 bits
/// hold it.
pub proof fn law_reported_counts_come_first(n: u32, estimate: nat)
    ensures
        reported_or(Some(n), estimate) == n,
        estimate <= 0xffff_ffff ==> reported_or(None, estimate) == estimate,
        reported_or(None, estimate) < 0x1_0000_0000,
        (estimate - reported_or(None, estimate)) % 0x1_0000_0000 == 0,
{
}

} // verus!
