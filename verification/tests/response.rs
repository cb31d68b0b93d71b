use vertex_ai_proxy::json_text::{parse_text, to_text};
use vertex_ai_proxy::messages::{translate_messages, AnthropicMessage};
use vertex_ai_proxy::json::Json;
use vertex_ai_proxy::response::{
    tool_use_block, translate_response, OpenAIFunctionCallResp, OpenAINonStreamChoice,
    OpenAINonStreamMessage, OpenAINonStreamResponse, OpenAIToolCallResp, OpenAIUsage,
};
use vertex_ai_proxy::stop_reason::{final_stop_reason, map_stop_reason};

fn call(id: &str, name: &str, arguments: &str) -> OpenAIToolCallResp {
    OpenAIToolCallResp {
        id: id.to_string(),
        function: OpenAIFunctionCallResp {
            name: name.to_string(),
            arguments: arguments.to_string(),
        },
    }
}

fn response(
    content: Option<&str>,
    calls: Option<Vec<OpenAIToolCallResp>>,
    finish: Option<&str>,
) -> OpenAINonStreamResponse {
    OpenAINonStreamResponse {
        choices: vec![OpenAINonStreamChoice {
            message: OpenAINonStreamMessage {
                content: content.map(String::from),
                tool_calls: calls,
            },
            finish_reason: finish.map(String::from),
        }],
        usage: None,
    }
}

fn shown(content: &[Json]) -> Vec<String> {
    content.iter().map(to_text).collect()
}

#[test]
fn text_replies() {
    let reply = translate_response(&response(Some("Hello!"), None, Some("stop")), 7);
    assert_eq!(shown(&reply.content), vec![r#"{"text":"Hello!","type":"text"}"#]);
    assert_eq!(reply.stop_reason, "end_turn");
    assert_eq!(reply.input_tokens, 7);
    assert_eq!(reply.output_tokens, 2);
    assert_eq!(
        to_text(&reply.into_json("msg_1", "some-model")),
        concat_lines(&[
            r#"{"content":[{"text":"Hello!","type":"text"}],"id":"msg_1","model":"some-model","#,
            r#""role":"assistant","stop_reason":"end_turn","stop_sequence":null,"type":"message","#,
            r#""usage":{"input_tokens":7,"output_tokens":2}}"#,
        ])
    );
}

fn concat_lines(parts: &[&str]) -> String {
    parts.join("")
}

#[test]
fn tool_replies() {
    let calls = vec![
        call("t1", "read", r#" {"path": "a", "n": 1.50} "#),
        call("t2", "bad", "{not json"),
        call("t3", "none", ""),
        call("t4", "list", "[1]"),
    ];
    let reply = translate_response(&response(Some("Looking"), Some(calls), Some("tool_calls")), 1);
    assert_eq!(
        shown(&reply.content),
        vec![
            r#"{"text":"Looking","type":"text"}"#,
            r#"{"id":"t1","input":{"n":1.5,"path":"a"},"name":"read","type":"tool_use"}"#,
            r#"{"id":"t2","input":{},"name":"bad","type":"tool_use"}"#,
            r#"{"id":"t3","input":{},"name":"none","type":"tool_use"}"#,
            r#"{"id":"t4","input":[1],"name":"list","type":"tool_use"}"#,
        ]
    );
    assert_eq!(reply.stop_reason, "tool_use");
    let counted = "Looking".len() + "read".len() + r#" {"path": "a", "n": 1.50} "#.len()
        + "bad".len() + "{not json".len() + "none".len() + "list".len() + "[1]".len();
    assert_eq!(reply.output_tokens as usize, counted / 4 + 1);
}

#[test]
fn tool_use_blocks_take_what_was_parsed() {
    let c = call("t", "n", "unread");
    assert_eq!(
        to_text(&tool_use_block(&c, parse_text(r#"{"k":true}"#))),
        r#"{"id":"t","input":{"k":true},"name":"n","type":"tool_use"}"#
    );
    assert_eq!(
        to_text(&tool_use_block(&c, None)),
        r#"{"id":"t","input":{},"name":"n","type":"tool_use"}"#
    );
}

#[test]
fn empty_replies() {
    let nothing = OpenAINonStreamResponse { choices: Vec::new(), usage: None };
    let reply = translate_response(&nothing, 3);
    assert!(reply.content.is_empty());
    assert_eq!(reply.stop_reason, "end_turn");
    assert_eq!(reply.input_tokens, 3);
    assert_eq!(reply.output_tokens, 1);
    for content in [None, Some("")] {
        let reply = translate_response(&response(content, None, None), 3);
        assert!(reply.content.is_empty());
        assert_eq!(reply.stop_reason, "end_turn");
    }
}

#[test]
fn only_the_first_alternative_counts() {
    let mut many = response(Some("first"), None, Some("length"));
    many.choices.push(response(Some("second"), None, Some("stop")).choices.remove(0));
    let reply = translate_response(&many, 1);
    assert_eq!(shown(&reply.content), vec![r#"{"text":"first","type":"text"}"#]);
    assert_eq!(reply.stop_reason, "max_tokens");
}

#[test]
fn reported_usage_counts() {
    let mut r = response(Some("Hello!"), None, Some("stop"));
    r.usage = Some(OpenAIUsage { prompt_tokens: Some(11), completion_tokens: Some(22) });
    let reply = translate_response(&r, 5);
    assert_eq!((reply.input_tokens, reply.output_tokens), (11, 22));
    r.usage = Some(OpenAIUsage { prompt_tokens: None, completion_tokens: Some(0) });
    let reply = translate_response(&r, 5);
    assert_eq!((reply.input_tokens, reply.output_tokens), (5, 0));
    r.usage = Some(OpenAIUsage { prompt_tokens: Some(9), completion_tokens: None });
    let reply = translate_response(&r, 5);
    assert_eq!((reply.input_tokens, reply.output_tokens), (9, 2));
}

#[test]
fn large_estimates_keep_their_low_bits() {
    let r = response(None, None, None);
    let wide = 0x1_0000_0005u64 as usize;
    assert_eq!(translate_response(&r, wide).input_tokens, wide as u32);
}

#[test]
fn answers_come_back_as_turns() {
    let calls = vec![call("t1", "read", r#"{"b":2,"a":1}"#), call("t2", "bad", "{")];
    let reply = translate_response(&response(Some("Looking"), Some(calls), None), 1);
    let turns = vec![AnthropicMessage {
        role: "assistant".to_string(),
        content: Json::Array(reply.content),
    }];
    let messages = translate_messages(&None, &turns);
    assert_eq!(messages.len(), 1);
    assert_eq!(messages[0].content, Some("Looking".to_string()));
    let calls = messages[0].tool_calls.as_ref().unwrap();
    assert_eq!(calls.len(), 2);
    assert_eq!((calls[0].id.as_str(), calls[0].function.name.as_str()), ("t1", "read"));
    assert_eq!(calls[0].function.arguments, r#"{"a":1,"b":2}"#);
    assert_eq!((calls[1].id.as_str(), calls[1].function.name.as_str()), ("t2", "bad"));
    assert_eq!(calls[1].function.arguments, "{}");
}

#[test]
fn stop_reasons() {
    assert_eq!(map_stop_reason("tool_calls"), "tool_use");
    assert_eq!(map_stop_reason("length"), "max_tokens");
    assert_eq!(map_stop_reason("stop"), "end_turn");
    assert_eq!(map_stop_reason("content_filter"), "end_turn");
    assert_eq!(map_stop_reason("anything"), "end_turn");
    assert_eq!(final_stop_reason(&None), "end_turn");
    assert_eq!(final_stop_reason(&Some("length".to_string())), "max_tokens");
}
