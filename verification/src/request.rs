//! The request: from the client's form to the upstream one.

use crate::json::{items_view, opt_value, Json, JsonView};
use crate::messages::{
    calls_view, chat_view, conversation, translate_messages, turns_view, AnthropicMessage,
    ChatView, OpenAIMessage, OpenAIToolCall, ToolCallView,
};
use crate::text::views;
use crate::tokens::{estimate_tokens, token_estimate};
use crate::tools::{
    function_choice, function_definitions, translate_tool_choice, translate_tools,
};
use vstd::prelude::*;
use vstd::string::*;

verus! {

/// A request of the client. The sampling parameters, of type `F`, are passed on
/// unread.
pub struct AnthropicRequest<F> {
    pub model: Option<String>,
    pub messages: Vec<AnthropicMessage>,
    pub max_tokens: Option<u32>,
    pub stream: Option<bool>,
    pub system: Option<Json>,
    pub temperature: Option<F>,
    pub top_p: Option<F>,
    pub tools: Option<Vec<Json>>,
    pub tool_choice: Option<Json>,
    pub stop_sequences: Option<Vec<String>>,
}

/// A request to the upstream endpoint.
pub struct OpenAIRequest<F> {
    pub model: String,
    pub messages: Vec<OpenAIMessage>,
    pub stream: bool,
    pub max_tokens: Option<u32>,
    pub temperature: Option<F>,
    pub top_p: Option<F>,
    pub tools: Option<Vec<Json>>,
    pub tool_choice: Option<Json>,
    pub stop: Option<Vec<String>>,
}

/// The views of an optional list of values.
pub open spec fn opt_items(items: Option<Vec<Json>>) -> Option<Seq<JsonView>> {
    match items {
        Some(list) => Some(items_view(list@)),
        None => None,
    }
}

/// The views of an optional list of texts.
pub open spec fn opt_texts(texts: Option<Vec<String>>) -> Option<Seq<Seq<char>>> {
    match texts {
        Some(list) => Some(views(list@)),
        None => None,
    }
}

/// The function definitions for the tools, where there are any.
pub open spec fn wanted_tools(tools: Option<Seq<JsonView>>) -> Option<Seq<JsonView>> {
    match tools {
        Some(list) => if function_definitions(list).len() == 0 {
            None
        } else {
            Some(function_definitions(list))
        },
        None => None,
    }
}

/// The stop sequences, where there are any.
pub open spec fn wanted_stops(stops: Option<Seq<Seq<char>>>) -> Option<Seq<Seq<char>>> {
    match stops {
        Some(list) => if list.len() == 0 {
            None
        } else {
            Some(list)
        },
        None => None,
    }
}

/// The token limit that is asked for, but not more than `cap`.
pub open spec fn capped(limit: Option<u32>, cap: u32) -> Option<u32> {
    match limit {
        Some(n) => Some(if n <= cap {
            n
        } else {
            cap
        }),
        None => None,
    }
}

/// Whether the client wants a streamed reply.
pub open spec fn wants_stream(stream: Option<bool>) -> bool {
    stream == Some(true)
}

fn copy_texts(texts: &Vec<String>) -> (copies: Vec<String>)
    ensures
        views(copies@) == views(texts@),
{
    let mut copies: Vec<String> = Vec::new();
    let mut i: usize = 0;
    while i < texts.len()
        invariant
            i <= texts@.len(),
            copies@ == texts@.take(i as int),
        decreases texts@.len() - i,
    {
        copies.push(texts[i].clone());
        assert(copies@ =~= texts@.take(i + 1));
        i += 1;
    }
    assert(texts@.take(texts@.len() as int) =~= texts@);
    copies
}

/// The request to the upstream endpoint, which serves `model` and at most
/// `max_output_tokens` tokens.
pub fn translate_request<F: Copy>(
    request: &AnthropicRequest<F>,
    model: &str,
    max_output_tokens: u32,
) -> (out: OpenAIRequest<F>)
    ensures
        out.model@ == model@,
        chat_view(out.messages@) == conversation(
            opt_value(request.system),
            turns_view(request.messages@),
        ),
        out.stream == wants_stream(request.stream),
        out.max_tokens == capped(request.max_tokens, max_output_tokens),
        out.temperature == request.temperature,
        out.top_p == request.top_p,
        opt_items(out.tools) == wanted_tools(opt_items(request.tools)),
        opt_value(out.tool_choice) == match request.tool_choice {
            Some(choice) => Some(function_choice(choice@)),
            None => None,
        },
        opt_texts(out.stop) == wanted_stops(opt_texts(request.stop_sequences)),
{
    let tools = match &request.tools {
        Some(list) => {
            let definitions = translate_tools(list.as_slice());
            proof {
                crate::json::lemma_items_view(definitions@);
            }
            if definitions.len() == 0 {
                None
            } else {
                Some(definitions)
            }
        },
        None => None,
    };
    let tool_choice = match &request.tool_choice {
        Some(choice) => Some(translate_tool_choice(choice)),
        None => None,
    };
    let stop = match &request.stop_sequences {
        Some(list) => if list.len() == 0 {
            None
        } else {
            Some(copy_texts(list))
        },
        None => None,
    };
    let max_tokens = match request.max_tokens {
        Some(n) => if n <= max_output_tokens {
            Some(n)
        } else {
            Some(max_output_tokens)
        },
        None => None,
    };
    let stream = match request.stream {
        Some(wanted) => wanted,
        None => false,
    };
    OpenAIRequest {
        model: model.to_owned(),
        messages: translate_messages(&request.system, request.messages.as_slice()),
        stream,
        max_tokens,
        temperature: request.temperature,
        top_p: request.top_p,
        tools,
        tool_choice,
        stop,
    }
}

/// The model that the client asked for, or the empty text.
pub fn requested_model<F>(request: &AnthropicRequest<F>) -> (model: String)
    ensures
        model@ == crate::chunk::or_empty(request.model),
{
    match &request.model {
        Some(model) => model.clone(),
        None => String::new(),
    }
}

/// The text of tool calls: name and arguments of each, in order.
pub open spec fn calls_text(calls: Seq<ToolCallView>) -> Seq<char>
    decreases calls.len(),
{
    if calls.len() == 0 {
        seq![]
    } else {
        calls_text(calls.drop_last()) + calls.last().name + calls.last().arguments
    }
}

/// The text of a message: its content, then its tool calls.
pub open spec fn message_text(message: ChatView) -> Seq<char> {
    (match message.content {
        Some(text) => text,
        None => seq![],
    }) + (match message.tool_calls {
        Some(calls) => calls_text(calls),
        None => seq![],
    })
}

/// The text of all messages, by which the input is counted.
pub open spec fn input_text(messages: Seq<ChatView>) -> Seq<char>
    decreases messages.len(),
{
    if messages.len() == 0 {
        seq![]
    } else {
        input_text(messages.drop_last()) + message_text(messages.last())
    }
}

fn append_calls(text: &mut String, calls: &Vec<OpenAIToolCall>)
    ensures
        final(text)@ == old(text)@ + calls_text(calls_view(calls@)),
{
    let ghost start = text@;
    let ghost all = calls_view(calls@);
    let mut i: usize = 0;
    assert(all.take(0) =~= seq![]);
    assert(start + seq![] =~= start);
    while i < calls.len()
        invariant
            i <= calls@.len(),
            all == calls_view(calls@),
            text@ == start + calls_text(all.take(i as int)),
        decreases calls@.len() - i,
    {
        proof {
            assert(all.take(i + 1).drop_last() =~= all.take(i as int));
            assert(all.take(i + 1).last() == calls@[i as int]@);
        }
        text.append(calls[i].function.name.as_str());
        text.append(calls[i].function.arguments.as_str());
        assert(text@ =~= start + calls_text(all.take(i + 1)));
        i += 1;
    }
    assert(all.take(all.len() as int) =~= all);
}

/// The estimated number of input tokens of the messages.
pub fn input_tokens(messages: &[OpenAIMessage]) -> (tokens: usize)
    ensures
        tokens == token_estimate(input_text(chat_view(messages@))),
{
    let mut text = String::new();
    let ghost all = chat_view(messages@);
    let mut i: usize = 0;
    assert(all.take(0) =~= seq![]);
    while i < messages.len()
        invariant
            i <= messages@.len(),
            all == chat_view(messages@),
            text@ == input_text(all.take(i as int)),
        decreases messages@.len() - i,
    {
        proof {
            assert(all.take(i + 1).drop_last() =~= all.take(i as int));
            assert(all.take(i + 1).last() == messages@[i as int]@);
        }
        if let Some(content) = &messages[i].content {
            text.append(content.as_str());
        }
        if let Some(calls) = &messages[i].tool_calls {
            append_calls(&mut text, calls);
        }
        assert(text@ =~= input_text(all.take(i + 1)));
        i += 1;
    }
    assert(all.take(all.len() as int) =~= all);
    estimate_tokens(text.as_str())
}

/// The address of the chat completions of a project.
pub open spec fn completions_address(
    endpoint: Seq<char>,
    project: Seq<char>,
    region: Seq<char>,
) -> Seq<char> {
    "https://"@ + endpoint + "/v1/projects/"@ + project + "/locations/"@ + region
        + "/endpoints/openapi/chat/completions"@
}

/// The address of the chat completions of a project.
pub fn completions_url(endpoint: &str, project_id: &str, region: &str) -> (url: String)
    ensures
        url@ == completions_address(endpoint@, project_id@, region@),
{
    let mut url = "https://".to_owned();
    url.append(endpoint);
    url.append("/v1/projects/");
    url.append(project_id);
    url.append("/locations/");
    url.append(region);
    url.append("/endpoints/openapi/chat/completions");
    url
}

/// The value of the authorization header for an access token.
pub fn bearer(access_token: &str) -> (value: String)
    ensures
        value@ == "Bearer "@ + access_token@,
{
    let mut value = "Bearer ".to_owned();
    value.append(access_token);
    value
}

} // verus!
