use vertex_ai_proxy::content::{
    collect_text, content_blocks, flatten_text, flatten_tool_result_content,
};
use vertex_ai_proxy::json::Json;
use vertex_ai_proxy::json_text::{parse_text, to_text};
use vertex_ai_proxy::messages::{translate_messages, AnthropicMessage, OpenAIMessage};

fn json(text: &str) -> Json {
    parse_text(text).unwrap()
}

fn turn(role: &str, content: &str) -> AnthropicMessage {
    AnthropicMessage { role: role.to_string(), content: json(content) }
}

fn shown(message: &OpenAIMessage) -> String {
    let calls = match &message.tool_calls {
        Some(calls) => calls
            .iter()
            .map(|c| format!("{}/{}/{}/{}", c.id, c.kind, c.function.name, c.function.arguments))
            .collect::<Vec<String>>()
            .join(";"),
        None => "-".to_string(),
    };
    format!("{}|{:?}|{}|{:?}", message.role, message.content, calls, message.tool_call_id)
}

fn conversation(system: Option<&str>, turns: Vec<AnthropicMessage>) -> Vec<String> {
    let system = system.map(json);
    translate_messages(&system, &turns).iter().map(shown).collect()
}

#[test]
fn text_of_content() {
    assert_eq!(flatten_text(&json(r#""plain""#)), "plain");
    assert_eq!(
        flatten_text(&json(
            r#"[{"type":"text","text":"a"},{"type":"image"},{"type":"text"},{"type":"text","text":7},
                {"text":"no type"},"bare",{"type":"text","text":"b"}]"#
        )),
        "a\nb"
    );
    assert_eq!(flatten_text(&json("[]")), "");
    assert_eq!(flatten_text(&json("null")), "");
    assert_eq!(flatten_text(&json("12")), "");
    assert_eq!(flatten_text(&json(r#"{"type":"text","text":"a"}"#)), "");
}

#[test]
fn text_of_tool_results() {
    assert_eq!(flatten_tool_result_content(&json(r#""plain""#)), "plain");
    assert_eq!(
        flatten_tool_result_content(&json(
            r#"[{"type":"text","text":"a"},{"type":"image","source":{}},{"type":"text","text":"b"}]"#
        )),
        "a\nb"
    );
    assert_eq!(flatten_tool_result_content(&json("null")), "");
    assert_eq!(flatten_tool_result_content(&json("12")), "12");
    assert_eq!(flatten_tool_result_content(&json("true")), "true");
    assert_eq!(flatten_tool_result_content(&json(r#"{"b":1,"a":[2]}"#)), r#"{"a":[2],"b":1}"#);
}

#[test]
fn blocks_of_content() {
    let blocks = content_blocks(&json(r#""hi""#));
    assert_eq!(blocks.len(), 1);
    assert_eq!(to_text(&blocks[0]), r#"{"text":"hi","type":"text"}"#);
    let blocks = content_blocks(&json(r#"[1,{"type":"x"}]"#));
    assert_eq!(blocks.len(), 2);
    assert_eq!(to_text(&blocks[0]), "1");
    assert_eq!(to_text(&blocks[1]), r#"{"type":"x"}"#);
    assert_eq!(content_blocks(&json("null")).len(), 0);
    assert_eq!(content_blocks(&json("{}")).len(), 0);
    assert_eq!(collect_text(&content_blocks(&json(r#""hi""#))), vec!["hi".to_string()]);
}

#[test]
fn plain_text_is_kept() {
    assert_eq!(
        conversation(None, vec![turn("user", r#""Hello, world""#)]),
        vec![r#"user|Some("Hello, world")|-|None"#]
    );
    assert_eq!(
        conversation(None, vec![turn("assistant", r#""Hi""#)]),
        vec![r#"assistant|Some("Hi")|-|None"#]
    );
    assert_eq!(
        conversation(None, vec![turn("developer", r#""Hi""#)]),
        vec![r#"developer|Some("Hi")|-|None"#]
    );
}

#[test]
fn system_prompt_leads() {
    let turns = || vec![turn("user", r#""hi""#)];
    assert_eq!(
        conversation(Some(r#""Be brief.""#), turns()),
        vec![r#"system|Some("Be brief.")|-|None"#, r#"user|Some("hi")|-|None"#]
    );
    assert_eq!(
        conversation(
            Some(r#"[{"type":"text","text":"A"},{"type":"text","text":"B"}]"#),
            turns()
        )[0],
        r#"system|Some("A\nB")|-|None"#
    );
    assert_eq!(conversation(Some(r#""""#), turns()).len(), 1);
    assert_eq!(conversation(Some("null"), turns()).len(), 1);
    assert_eq!(conversation(None, turns()).len(), 1);
}

#[test]
fn assistant_turns_carry_tool_calls() {
    let content = r#"[{"type":"text","text":"Let me look."},
        {"type":"tool_use","id":"t1","name":"read","input":{"path":"a","line":3}},
        {"type":"tool_use","id":"t2","name":"list"},
        {"type":"thinking","thinking":"hm"},
        {"type":"text","text":"Done."}]"#;
    assert_eq!(
        conversation(None, vec![turn("assistant", content)]),
        vec![
            r#"assistant|Some("Let me look.\nDone.")|t1/function/read/{"line":3,"path":"a"};t2/function/list/{}|None"#
        ]
    );
    let only_calls = r#"[{"type":"tool_use","id":7,"input":null}]"#;
    assert_eq!(
        conversation(None, vec![turn("assistant", only_calls)]),
        vec!["assistant|None|/function//null|None"]
    );
}

#[test]
fn empty_assistant_turns_are_dropped() {
    assert!(conversation(None, vec![turn("assistant", r#""""#)]).is_empty());
    assert!(conversation(None, vec![turn("assistant", "[]")]).is_empty());
    assert!(conversation(None, vec![turn("assistant", "null")]).is_empty());
    assert!(conversation(None, vec![turn("assistant", r#"[{"type":"image"}]"#)]).is_empty());
    assert!(conversation(
        None,
        vec![turn("assistant", r#"[{"type":"tool_result","tool_use_id":"x","content":"y"}]"#)]
    )
    .is_empty());
    assert!(conversation(None, vec![turn("user", r#""""#)]).is_empty());
}

#[test]
fn tool_results_come_first() {
    let content = r#"[{"type":"text","text":"before"},
        {"type":"tool_result","tool_use_id":"t1","content":"one"},
        {"type":"text","text":"after"},
        {"type":"tool_result","tool_use_id":"t2","content":[{"type":"text","text":"two"}],"is_error":true},
        {"type":"tool_result","content":{"k":1},"is_error":false},
        {"type":"tool_result","tool_use_id":"t4","is_error":"true"}]"#;
    assert_eq!(
        conversation(None, vec![turn("user", content)]),
        vec![
            r#"tool|Some("one")|-|Some("t1")"#,
            r#"tool|Some("[tool_error] two")|-|Some("t2")"#,
            r#"tool|Some("{\"k\":1}")|-|Some("")"#,
            r#"tool|Some("")|-|Some("t4")"#,
            r#"user|Some("before\nafter")|-|None"#,
        ]
    );
}

#[test]
fn other_blocks_do_not_count() {
    let known = [
        r#"{"type":"text","text":"a"}"#,
        r#"{"type":"tool_use","id":"t","name":"n","input":{}}"#,
        r#"{"type":"tool_result","tool_use_id":"t","content":"r"}"#,
        r#"{"type":"text","text":"b"}"#,
    ];
    for role in ["user", "assistant"] {
        let plain = conversation(None, vec![turn(role, &format!("[{}]", known.join(",")))]);
        for other in [r#"{"type":"image","text":"x"}"#, r#"{"text":"x"}"#, "7", r#"{"type":1}"#] {
            for at in 0..=known.len() {
                let mut blocks = known.to_vec();
                blocks.insert(at, other);
                let content = format!("[{}]", blocks.join(","));
                assert_eq!(conversation(None, vec![turn(role, &content)]), plain);
            }
        }
    }
}

#[test]
fn later_turns_append() {
    let turns = || {
        vec![
            turn("user", r#""one""#),
            turn("assistant", r#"[{"type":"tool_use","id":"t","name":"n","input":{}}]"#),
            turn("user", r#"[{"type":"tool_result","tool_use_id":"t","content":"r"}]"#),
            turn("assistant", r#""two""#),
        ]
    };
    let all = conversation(Some(r#""s""#), turns());
    assert_eq!(all.len(), 5);
    for n in 0..5 {
        let mut some = turns();
        let rest = some.split_off(n.min(4));
        let mut both = conversation(Some(r#""s""#), some);
        both.extend(conversation(None, rest));
        assert_eq!(both, all);
    }
}
