//! A reply that comes in one piece.

use crate::content::text_block;
use crate::event::{count_json, no_members};
use crate::json::{items_view, lemma_items_view_push, opt_value, Json, JsonObject, JsonView};
use crate::json_text::{number, parse_text, parsed_json};
use crate::stop_reason::{final_stop_reason, stop_reason_or_default};
use crate::text::opt_view;
use crate::tokens::{estimate_tokens, token_estimate};
use vstd::prelude::*;
use vstd::string::*;

verus! {

/// A reply of the upstream endpoint.
pub struct OpenAINonStreamResponse {
    pub choices: Vec<OpenAINonStreamChoice>,
    pub usage: Option<OpenAIUsage>,
}

/// One alternative of the reply; only the first is used.
pub struct OpenAINonStreamChoice {
    pub message: OpenAINonStreamMessage,
    pub finish_reason: Option<String>,
}

/// The message of the reply.
pub struct OpenAINonStreamMessage {
    pub content: Option<String>,
    pub tool_calls: Option<Vec<OpenAIToolCallResp>>,
}

/// A tool call of the reply.
pub struct OpenAIToolCallResp {
    pub id: String,
    pub function: OpenAIFunctionCallResp,
}

/// The function that a tool call names, with its arguments as JSON text.
pub struct OpenAIFunctionCallResp {
    pub name: String,
    pub arguments: String,
}

/// The token counts that the endpoint reports.
pub struct OpenAIUsage {
    pub prompt_tokens: Option<u32>,
    pub completion_tokens: Option<u32>,
}

/// What a tool call is.
#[verifier::ext_equal]
pub struct CallView {
    pub id: Seq<char>,
    pub name: Seq<char>,
    pub arguments: Seq<char>,
}

/// What a reply is: its message, where a text that it does not give is empty, and
/// the token counts that it reports.
#[verifier::ext_equal]
pub struct AnswerView {
    pub text: Seq<char>,
    pub calls: Seq<CallView>,
    pub finish: Option<Seq<char>>,
    pub input_tokens: Option<u32>,
    pub output_tokens: Option<u32>,
}

impl View for OpenAIToolCallResp {
    type V = CallView;

    open spec fn view(&self) -> CallView {
        CallView {
            id: self.id@,
            name: self.function.name@,
            arguments: self.function.arguments@,
        }
    }
}

/// The views of a list of tool calls.
pub open spec fn answer_calls(calls: Seq<OpenAIToolCallResp>) -> Seq<CallView> {
    calls.map_values(|c: OpenAIToolCallResp| c@)
}

impl View for OpenAINonStreamResponse {
    type V = AnswerView;

    open spec fn view(&self) -> AnswerView {
        let input_tokens = reported_input(self.usage);
        let output_tokens = reported_output(self.usage);
        if self.choices@.len() == 0 {
            AnswerView { text: seq![], calls: seq![], finish: None, input_tokens, output_tokens }
        } else {
            let choice = self.choices@[0];
            AnswerView {
                text: crate::chunk::or_empty(choice.message.content),
                calls: match choice.message.tool_calls {
                    Some(calls) => answer_calls(calls@),
                    None => seq![],
                },
                finish: opt_view(choice.finish_reason),
                input_tokens,
                output_tokens,
            }
        }
    }
}

/// The input of a tool use: what its arguments say, or an empty object where they
/// are not JSON.
pub open spec fn tool_input(parsed: Option<JsonView>) -> JsonView {
    match parsed {
        Some(value) => value,
        None => JsonView::Object(no_members()),
    }
}

/// The block for a tool call, given what its arguments say.
pub open spec fn tool_use(call: CallView, parsed: Option<JsonView>) -> JsonView {
    JsonView::Object(
        no_members().insert("type"@, JsonView::String("tool_use"@)).insert(
            "id"@,
            JsonView::String(call.id),
        ).insert("name"@, JsonView::String(call.name)).insert("input"@, tool_input(parsed)),
    )
}

/// The blocks for tool calls, in order.
pub open spec fn tool_uses(calls: Seq<CallView>) -> Seq<JsonView> {
    calls.map_values(|call: CallView| tool_use(call, parsed_json(call.arguments)))
}

/// The blocks of a reply: its text, where it has any, then its tool calls.
pub open spec fn answer_blocks(answer: AnswerView) -> Seq<JsonView> {
    (if answer.text.len() == 0 {
        seq![]
    } else {
        seq![text_block(answer.text)]
    }) + tool_uses(answer.calls)
}

/// The text of tool calls: name and arguments of each, in order.
pub open spec fn answer_calls_text(calls: Seq<CallView>) -> Seq<char>
    decreases calls.len(),
{
    if calls.len() == 0 {
        seq![]
    } else {
        answer_calls_text(calls.drop_last()) + calls.last().name + calls.last().arguments
    }
}

/// The text of a reply, by which its output is counted.
pub open spec fn answer_text(answer: AnswerView) -> Seq<char> {
    answer.text + answer_calls_text(answer.calls)
}

/// The count that the endpoint reports, or else the low 32 bits of `estimate`.
pub open spec fn reported_or(reported: Option<u32>, estimate: nat) -> nat {
    match reported {
        Some(n) => n as nat,
        None => estimate % 0x1_0000_0000,
    }
}

/// The number of input tokens that the endpoint reports.
pub open spec fn reported_input(usage: Option<OpenAIUsage>) -> Option<u32> {
    match usage {
        Some(u) => u.prompt_tokens,
        None => None,
    }
}

/// The number of output tokens that the endpoint reports.
pub open spec fn reported_output(usage: Option<OpenAIUsage>) -> Option<u32> {
    match usage {
        Some(u) => u.completion_tokens,
        None => None,
    }
}

/// The reply to the client.
pub struct Reply {
    pub content: Vec<Json>,
    pub stop_reason: String,
    pub input_tokens: u32,
    pub output_tokens: u32,
}

/// The block for a tool call, given what its arguments say.
pub fn tool_use_block(call: &OpenAIToolCallResp, parsed: Option<Json>) -> (block: Json)
    ensures
        block@ == tool_use(call@, opt_value(parsed)),
{
    let input = match parsed {
        Some(value) => value,
        None => Json::Object(JsonObject::new()),
    };
    Json::Object(
        JsonObject::new().with("type", Json::string("tool_use")).with(
            "id",
            Json::string(call.id.as_str()),
        ).with("name", Json::string(call.function.name.as_str())).with("input", input),
    )
}

fn reported_or_estimate(reported: Option<u32>, estimate: usize) -> (tokens: u32)
    ensures
        tokens == reported_or(reported, estimate as nat),
{
    match reported {
        Some(n) => n,
        None => {
            let wide = estimate as u64;
            assert(#[verifier::truncate] (wide as u32) == wide % 0x1_0000_0000) by (bit_vector);
            #[verifier::truncate]
            (wide as u32)
        },
    }
}

fn push_call(content: &mut Vec<Json>, text: &mut String, call: &OpenAIToolCallResp)
    ensures
        items_view(final(content)@) == items_view(old(content)@).push(
            tool_use(call@, parsed_json(call@.arguments)),
        ),
        final(text)@ == old(text)@ + call@.name + call@.arguments,
{
    text.append(call.function.name.as_str());
    text.append(call.function.arguments.as_str());
    let block = tool_use_block(call, parse_text(call.function.arguments.as_str()));
    proof {
        lemma_items_view_push(content@, block);
    }
    content.push(block);
}

fn push_calls(content: &mut Vec<Json>, text: &mut String, calls: &Vec<OpenAIToolCallResp>)
    ensures
        items_view(final(content)@) == items_view(old(content)@) + tool_uses(
            answer_calls(calls@),
        ),
        final(text)@ == old(text)@ + answer_calls_text(answer_calls(calls@)),
{
    let ghost blocks = items_view(content@);
    let ghost start = text@;
    let ghost all = answer_calls(calls@);
    let mut i: usize = 0;
    proof {
        assert(all.take(0) =~= seq![]);
        assert(start + seq![] =~= start);
        assert(blocks + tool_uses(all.take(0)) =~= blocks);
    }
    while i < calls.len()
        invariant
            i <= calls@.len(),
            all == answer_calls(calls@),
            items_view(content@) == blocks + tool_uses(all.take(i as int)),
            text@ == start + answer_calls_text(all.take(i as int)),
        decreases calls@.len() - i,
    {
        proof {
            assert(all.take(i + 1).drop_last() =~= all.take(i as int));
            assert(all.take(i + 1).last() == calls@[i as int]@);
        }
        push_call(content, text, &calls[i]);
        proof {
            assert(items_view(content@) =~= blocks + tool_uses(all.take(i + 1)));
            assert(text@ =~= start + answer_calls_text(all.take(i + 1)));
        }
        i += 1;
    }
    assert(all.take(all.len() as int) =~= all);
}

/// The reply to the client. Token counts that the endpoint does not report are
/// estimated, the input by `input_tokens`.
pub fn translate_response(response: &OpenAINonStreamResponse, input_tokens: usize) -> (reply: Reply)
    ensures
        items_view(reply.content@) == answer_blocks(response@),
        reply.stop_reason@ == stop_reason_or_default(response@.finish),
        reply.input_tokens == reported_or(response@.input_tokens, input_tokens as nat),
        reply.output_tokens == reported_or(
            response@.output_tokens,
            token_estimate(answer_text(response@)),
        ),
{
    let mut content: Vec<Json> = Vec::new();
    let mut text = String::new();
    let mut finish: Option<String> = None;
    if response.choices.len() > 0 {
        let choice = &response.choices[0];
        if let Some(t) = &choice.message.content {
            if !t.as_str().is_empty() {
                text.append(t.as_str());
                let block = Json::Object(
                    JsonObject::new().with("type", Json::string("text")).with(
                        "text",
                        Json::string(t.as_str()),
                    ),
                );
                proof {
                    lemma_items_view_push(content@, block);
                }
                content.push(block);
            }
        }
        proof {
            assert(text@ =~= response@.text);
            assert(items_view(content@) =~= if response@.text.len() == 0 {
                seq![]
            } else {
                seq![text_block(response@.text)]
            });
        }
        if let Some(calls) = &choice.message.tool_calls {
            push_calls(&mut content, &mut text, calls);
        }
        finish = choice.finish_reason.clone();
    }
    proof {
        assert(text@ =~= answer_text(response@));
        assert(items_view(content@) =~= answer_blocks(response@));
    }
    let (reported_in, reported_out) = match &response.usage {
        Some(usage) => (usage.prompt_tokens, usage.completion_tokens),
        None => (None, None),
    };
    Reply {
        content,
        stop_reason: final_stop_reason(&finish).to_owned(),
        input_tokens: reported_or_estimate(reported_in, input_tokens),
        output_tokens: reported_or_estimate(reported_out, estimate_tokens(text.as_str())),
    }
}

/// The JSON of a reply.
pub open spec fn reply_json(
    id: Seq<char>,
    model: Seq<char>,
    content: Seq<JsonView>,
    stop_reason: Seq<char>,
    input_tokens: nat,
    output_tokens: nat,
) -> JsonView {
    JsonView::Object(
        no_members().insert("id"@, JsonView::String(id)).insert(
            "type"@,
            JsonView::String("message"@),
        ).insert("role"@, JsonView::String("assistant"@)).insert(
            "model"@,
            JsonView::String(model),
        ).insert("content"@, JsonView::Array(content)).insert(
            "stop_reason"@,
            JsonView::String(stop_reason),
        ).insert("stop_sequence"@, JsonView::Null).insert(
            "usage"@,
            JsonView::Object(
                no_members().insert("input_tokens"@, count_json(input_tokens)).insert(
                    "output_tokens"@,
                    count_json(output_tokens),
                ),
            ),
        ),
    )
}

impl Reply {
    /// The JSON of the reply, sent under `id` for the model that was asked for.
    pub fn into_json(self, id: &str, model: &str) -> (json: Json)
        ensures
            json@ == reply_json(
                id@,
                model@,
                items_view(self.content@),
                self.stop_reason@,
                self.input_tokens as nat,
                self.output_tokens as nat,
            ),
    {
        let usage = JsonObject::new().with(
            "input_tokens",
            Json::Number(number(self.input_tokens as u64)),
        ).with("output_tokens", Json::Number(number(self.output_tokens as u64)));
        Json::Object(
            JsonObject::new().with("id", Json::string(id)).with(
                "type",
                Json::string("message"),
            ).with("role", Json::string("assistant")).with("model", Json::string(model)).with(
                "content",
                Json::Array(self.content),
            ).with("stop_reason", Json::String(self.stop_reason)).with(
                "stop_sequence",
                Json::Null,
            ).with("usage", Json::Object(usage)),
        )
    }
}

} // verus!
