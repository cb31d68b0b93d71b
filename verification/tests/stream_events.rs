use vertex_ai_proxy::chunk::{
    OpenAIChoice, OpenAIChunk, OpenAIDelta, OpenAIFunctionDelta, OpenAIToolCallDelta,
};
use vertex_ai_proxy::event::{BlockHeader, StreamEvent};
use vertex_ai_proxy::stream::{opening, StreamState};
use vertex_ai_proxy::tokens::estimate_tokens;

fn chunk(
    content: Option<&str>,
    calls: Option<Vec<OpenAIToolCallDelta>>,
    finish: Option<&str>,
) -> OpenAIChunk {
    OpenAIChunk {
        choices: Some(vec![OpenAIChoice {
            delta: Some(OpenAIDelta { content: content.map(String::from), tool_calls: calls }),
            finish_reason: finish.map(String::from),
        }]),
    }
}

fn text(t: &str) -> OpenAIChunk {
    chunk(Some(t), None, None)
}

fn delta(index: u32, id: Option<&str>, name: Option<&str>, args: Option<&str>) -> OpenAIToolCallDelta {
    OpenAIToolCallDelta {
        index,
        id: id.map(String::from),
        function: Some(OpenAIFunctionDelta {
            name: name.map(String::from),
            arguments: args.map(String::from),
        }),
    }
}

fn calls(list: Vec<OpenAIToolCallDelta>) -> OpenAIChunk {
    chunk(None, Some(list), None)
}

fn shown(event: &StreamEvent) -> String {
    match event {
        StreamEvent::MessageStart { id, model, input_tokens } => {
            format!("start {id} {model} {input_tokens}")
        }
        StreamEvent::BlockStart { index, block: BlockHeader::Text } => format!("open {index} text"),
        StreamEvent::BlockStart { index, block: BlockHeader::ToolUse { id, name } } => {
            format!("open {index} {id} {name}")
        }
        StreamEvent::TextDelta { index, text } => format!("text {index} {text}"),
        StreamEvent::JsonDelta { index, partial_json } => format!("json {index} {partial_json}"),
        StreamEvent::BlockStop { index } => format!("close {index}"),
        StreamEvent::MessageDelta { stop_reason, output_tokens } => {
            format!("end {stop_reason} {output_tokens}")
        }
        StreamEvent::MessageStop => "stop".to_string(),
    }
}

fn run(chunks: &[OpenAIChunk]) -> Vec<String> {
    let mut state = StreamState::new();
    let mut events: Vec<String> = Vec::new();
    assert_eq!(shown(&opening("msg_1", "m", 5)), "start msg_1 m 5");
    for c in chunks {
        events.extend(state.take_chunk(c).unwrap().iter().map(shown));
    }
    events.extend(state.finish().iter().map(shown));
    events
}

#[test]
fn an_empty_stream_only_ends() {
    assert_eq!(run(&[]), vec!["end end_turn 0", "stop"]);
    let silent = [
        OpenAIChunk { choices: None },
        OpenAIChunk { choices: Some(Vec::new()) },
        OpenAIChunk { choices: Some(vec![OpenAIChoice { delta: None, finish_reason: None }]) },
        chunk(None, None, None),
        text(""),
        calls(Vec::new()),
    ];
    assert_eq!(run(&silent), vec!["end end_turn 0", "stop"]);
}

#[test]
fn text_streams_in_one_block() {
    let chunks = [text("Hel"), text(""), text("lo!"), chunk(None, None, Some("stop"))];
    assert_eq!(
        run(&chunks),
        vec!["open 0 text", "text 0 Hel", "text 0 lo!", "close 0", "end end_turn 2", "stop"]
    );
}

#[test]
fn a_tool_call_gets_its_own_block() {
    let chunks = [
        text("Look"),
        calls(vec![delta(0, Some("t1"), Some("read"), None)]),
        calls(vec![delta(0, None, None, Some("{\"a\""))]),
        calls(vec![delta(0, Some(""), Some(""), Some(":1}"))]),
        chunk(None, None, Some("tool_calls")),
    ];
    let tokens = estimate_tokens("Look") + estimate_tokens("{\"a\"") + estimate_tokens(":1}");
    assert_eq!(
        run(&chunks),
        vec![
            "open 0 text".to_string(),
            "text 0 Look".to_string(),
            "close 0".to_string(),
            "open 1 t1 read".to_string(),
            "json 1 {\"a\"".to_string(),
            "json 1 :1}".to_string(),
            "close 1".to_string(),
            format!("end tool_use {tokens}"),
            "stop".to_string(),
        ]
    );
}

#[test]
fn text_after_a_tool_call_opens_a_new_block() {
    let chunks = [calls(vec![delta(0, Some("t"), Some("n"), Some("{}"))]), text("ok")];
    assert_eq!(
        run(&chunks),
        vec![
            "open 0 t n", "json 0 {}", "close 0", "open 1 text", "text 1 ok", "close 1",
            "end end_turn 2", "stop"
        ]
    );
}

#[test]
fn arguments_wait_for_id_and_name() {
    let chunks = [
        calls(vec![delta(3, None, None, Some("{\"a"))]),
        calls(vec![delta(3, Some("t"), None, Some("\":"))]),
        calls(vec![delta(3, None, Some("n"), Some("1}"))]),
    ];
    let tokens = estimate_tokens("{\"a\":") + estimate_tokens("1}");
    assert_eq!(
        run(&chunks),
        vec![
            "open 0 t n".to_string(),
            "json 0 {\"a\":".to_string(),
            "json 0 1}".to_string(),
            "close 0".to_string(),
            format!("end end_turn {tokens}"),
            "stop".to_string(),
        ]
    );
    let unnamed = [calls(vec![delta(0, Some("t"), None, Some("{}"))])];
    assert_eq!(run(&unnamed), vec!["end end_turn 0", "stop"]);
    let no_function =
        [calls(vec![OpenAIToolCallDelta { index: 0, id: Some("t".to_string()), function: None }])];
    assert_eq!(run(&no_function), vec!["end end_turn 0", "stop"]);
}

#[test]
fn two_tool_calls_in_one_chunk() {
    let chunks = [calls(vec![
        delta(0, Some("a"), Some("x"), Some("{}")),
        delta(1, Some("b"), Some("y"), Some("[]")),
    ])];
    assert_eq!(
        run(&chunks),
        vec![
            "open 0 a x", "json 0 {}", "close 0", "open 1 b y", "json 1 []", "close 1",
            "end end_turn 2", "stop"
        ]
    );
}

#[test]
fn late_arguments_go_to_their_own_block() {
    let chunks = [
        calls(vec![
            delta(0, Some("a"), Some("x"), Some("1")),
            delta(1, Some("b"), Some("y"), Some("2")),
        ]),
        calls(vec![delta(0, None, None, Some("3"))]),
    ];
    assert_eq!(
        run(&chunks),
        vec![
            "open 0 a x", "json 0 1", "close 0", "open 1 b y", "json 1 2", "close 1", "json 0 3",
            "close 0", "end end_turn 3", "stop"
        ]
    );
}

#[test]
fn the_last_finish_reason_counts() {
    let chunks = [
        chunk(Some("a"), None, Some("tool_calls")),
        chunk(Some("b"), None, None),
        chunk(None, None, Some("length")),
    ];
    assert_eq!(run(&chunks).iter().rev().nth(1).unwrap(), "end max_tokens 2");
}

#[test]
fn only_the_first_choice_is_streamed() {
    let mut both = text("first");
    let mut other = text("second");
    both.choices.as_mut().unwrap().append(other.choices.as_mut().unwrap());
    assert!(run(&[both]).contains(&"text 0 first".to_string()));
}

#[test]
fn everything_that_arrives_is_sent() {
    let pieces = ["Hel", "lo", ", ", "wör", "ld"];
    let mut chunks: Vec<OpenAIChunk> = Vec::new();
    for (i, p) in pieces.iter().enumerate() {
        chunks.push(text(p));
        let id = format!("t{i}");
        chunks.push(calls(vec![delta(i as u32, Some(&id), Some("n"), Some(p))]));
        chunks.push(calls(vec![delta(i as u32, None, None, Some("!"))]));
    }
    let mut state = StreamState::new();
    let mut said = String::new();
    let mut tokens = 0;
    let mut open: Option<usize> = None;
    let mut next = 0;
    let mut arguments = vec![String::new(); 2 * pieces.len()];
    for c in &chunks {
        for e in state.take_chunk(c).unwrap() {
            match e {
                StreamEvent::BlockStart { index, .. } => {
                    assert_eq!((open, index), (None, next));
                    open = Some(index);
                    next += 1;
                }
                StreamEvent::TextDelta { index, text } => {
                    assert_eq!(open, Some(index));
                    tokens += estimate_tokens(&text);
                    said.push_str(&text);
                }
                StreamEvent::JsonDelta { index, partial_json } => {
                    assert_eq!(open, Some(index));
                    tokens += estimate_tokens(&partial_json);
                    arguments[index].push_str(&partial_json);
                }
                StreamEvent::BlockStop { index } => {
                    assert_eq!(open, Some(index));
                    open = None;
                }
                _ => panic!("unexpected event"),
            }
        }
    }
    assert_eq!(said, "Hello, wörld");
    for (i, p) in pieces.iter().enumerate() {
        assert_eq!(arguments[2 * i + 1], format!("{p}!"));
    }
    assert_eq!(state.output_tokens, tokens);
    assert_eq!(state.next_block_idx, next);
    assert_eq!(shown(&state.finish()[0]), format!("close {}", next - 1));
}

#[test]
fn blocks_have_their_use() {
    let chunks = [
        text("a"),
        calls(vec![delta(0, Some("t"), Some("n"), Some(""))]),
        text("b"),
        calls(vec![delta(1, None, None, Some("1")), delta(0, None, None, Some("2"))]),
        calls(vec![delta(1, Some("u"), Some("m"), None)]),
        text(""),
        text("c"),
    ];
    let mut state = StreamState::new();
    let mut events: Vec<StreamEvent> = Vec::new();
    for c in &chunks {
        events.extend(state.take_chunk(c).unwrap());
    }
    let mut text_blocks: Vec<usize> = Vec::new();
    let mut tool_blocks: Vec<usize> = Vec::new();
    for (i, event) in events.iter().enumerate() {
        match event {
            StreamEvent::BlockStart { index, block: BlockHeader::Text } => {
                text_blocks.push(*index);
                assert!(matches!(
                    &events[i + 1],
                    StreamEvent::TextDelta { index: at, .. } if at == index
                ));
            }
            StreamEvent::BlockStart { index, block: BlockHeader::ToolUse { .. } } => {
                tool_blocks.push(*index);
                let owners = state.tools.values().filter(|t| t.block_idx == Some(*index)).count();
                assert_eq!(owners, 1);
            }
            StreamEvent::TextDelta { index, text } => {
                assert!(!text.is_empty() && text_blocks.contains(index));
            }
            StreamEvent::JsonDelta { index, partial_json } => {
                assert!(!partial_json.is_empty() && tool_blocks.contains(index));
            }
            _ => {}
        }
    }
    assert_eq!((text_blocks.len(), tool_blocks.len()), (3, 2));
}

#[test]
fn counters_do_not_overflow() {
    let mut state = StreamState::new();
    state.output_tokens = usize::MAX - 1;
    assert!(state.take_chunk(&text("abc")).is_some());
    assert_eq!(state.output_tokens, usize::MAX);
    assert!(state.take_chunk(&text("abc")).is_none());
    let mut state = StreamState::new();
    state.next_block_idx = usize::MAX;
    assert!(state.take_chunk(&text("abc")).is_none());
}

#[test]
fn events_are_sent_as_json() {
    let samples: Vec<(StreamEvent, &str, String)> = vec![
        (
            opening("msg_1", "m", 12),
            "message_start",
            [
                r#"{"message":{"content":[],"id":"msg_1","model":"m","role":"assistant","#,
                r#""stop_reason":null,"stop_sequence":null,"type":"message","#,
                r#""usage":{"input_tokens":12,"output_tokens":0}},"type":"message_start"}"#,
            ]
            .join(""),
        ),
        (
            StreamEvent::BlockStart { index: 0, block: BlockHeader::Text },
            "content_block_start",
            r#"{"content_block":{"text":"","type":"text"},"index":0,"type":"content_block_start"}"#
                .to_string(),
        ),
        (
            StreamEvent::BlockStart {
                index: 1,
                block: BlockHeader::ToolUse { id: "t".to_string(), name: "n".to_string() },
            },
            "content_block_start",
            [
                r#"{"content_block":{"id":"t","input":{},"name":"n","type":"tool_use"},"#,
                r#""index":1,"type":"content_block_start"}"#,
            ]
            .join(""),
        ),
        (
            StreamEvent::TextDelta { index: 0, text: "say \"hi\"\n".to_string() },
            "content_block_delta",
            [
                r#"{"delta":{"text":"say \"hi\"\n","type":"text_delta"},"#,
                r#""index":0,"type":"content_block_delta"}"#,
            ]
            .join(""),
        ),
        (
            StreamEvent::JsonDelta { index: 2, partial_json: "{\"a".to_string() },
            "content_block_delta",
            [
                r#"{"delta":{"partial_json":"{\"a","type":"input_json_delta"},"#,
                r#""index":2,"type":"content_block_delta"}"#,
            ]
            .join(""),
        ),
        (
            StreamEvent::BlockStop { index: 7 },
            "content_block_stop",
            r#"{"index":7,"type":"content_block_stop"}"#.to_string(),
        ),
        (
            StreamEvent::MessageDelta { stop_reason: "end_turn".to_string(), output_tokens: 9 },
            "message_delta",
            [
                r#"{"delta":{"stop_reason":"end_turn","stop_sequence":null},"#,
                r#""type":"message_delta","usage":{"output_tokens":9}}"#,
            ]
            .join(""),
        ),
        (StreamEvent::MessageStop, "message_stop", r#"{"type":"message_stop"}"#.to_string()),
    ];
    for (event, name, data) in samples {
        assert_eq!(event.name(), name);
        assert_eq!(event.data(), data);
    }
}
