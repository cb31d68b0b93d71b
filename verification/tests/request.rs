use vertex_ai_proxy::json::Json;
use vertex_ai_proxy::json_text::{parse_text, to_text};
use vertex_ai_proxy::messages::AnthropicMessage;
use vertex_ai_proxy::request::{
    bearer, completions_url, input_tokens, requested_model, translate_request, AnthropicRequest,
};
use vertex_ai_proxy::tools::{translate_tool_choice, translate_tools};

fn json(text: &str) -> Json {
    parse_text(text).unwrap()
}

fn list(text: &str) -> Vec<Json> {
    match json(text) {
        Json::Array(items) => items,
        _ => panic!("not an array"),
    }
}

fn texts(items: &[Json]) -> Vec<String> {
    items.iter().map(to_text).collect()
}

fn greeting() -> AnthropicRequest<f64> {
    AnthropicRequest {
        model: Some("some-3-opus-20240229".to_string()),
        messages: vec![AnthropicMessage {
            role: "user".to_string(),
            content: Json::string("Hello, world"),
        }],
        max_tokens: Some(1024),
        stream: None,
        system: None,
        temperature: None,
        top_p: None,
        tools: None,
        tool_choice: None,
        stop_sequences: None,
    }
}

#[test]
fn a_plain_request_is_translated() {
    let out = translate_request(&greeting(), "qwen/qwen3-235b-a22b-instruct-2507-maas", 16384);
    assert_eq!(out.model, "qwen/qwen3-235b-a22b-instruct-2507-maas");
    assert_eq!(out.messages.len(), 1);
    assert_eq!(out.messages[0].role, "user");
    assert_eq!(out.messages[0].content, Some("Hello, world".to_string()));
    assert!(out.messages[0].tool_calls.is_none());
    assert!(out.messages[0].tool_call_id.is_none());
    assert_eq!(out.max_tokens, Some(1024));
    assert!(!out.stream);
    assert_eq!(out.temperature, None);
    assert_eq!(out.top_p, None);
    assert!(out.tools.is_none());
    assert!(out.tool_choice.is_none());
    assert!(out.stop.is_none());
}

#[test]
fn output_is_capped() {
    let mut request = greeting();
    for (limit, cap, expected) in [
        (Some(1024), 16384, Some(1024)),
        (Some(16384), 16384, Some(16384)),
        (Some(16385), 16384, Some(16384)),
        (Some(u32::MAX), 1, Some(1)),
        (Some(0), 1, Some(0)),
        (None, 1, None),
    ] {
        request.max_tokens = limit;
        assert_eq!(translate_request(&request, "m", cap).max_tokens, expected);
    }
}

#[test]
fn parameters_are_passed_on() {
    let mut request = greeting();
    request.stream = Some(true);
    request.temperature = Some(0.25);
    request.top_p = Some(0.9);
    request.stop_sequences = Some(vec!["END".to_string(), "STOP".to_string()]);
    request.system = Some(Json::string("Be brief."));
    let out = translate_request(&request, "m", 10);
    assert!(out.stream);
    assert_eq!(out.temperature, Some(0.25));
    assert_eq!(out.top_p, Some(0.9));
    assert_eq!(out.stop, Some(vec!["END".to_string(), "STOP".to_string()]));
    assert_eq!(out.messages.len(), 2);
    assert_eq!(out.messages[0].role, "system");
    request.stream = Some(false);
    request.stop_sequences = Some(Vec::new());
    let out = translate_request(&request, "m", 10);
    assert!(!out.stream);
    assert!(out.stop.is_none());
}

#[test]
fn tools_are_translated() {
    let tools = list(
        r#"[{"name":"read","description":"Reads.","input_schema":{"type":"object","properties":{"n":{"type":"integer","maximum":1.5}}}},
            {"description":"no name"}, {"name":3}, "x",
            {"name":"list"}, {"name":"odd","description":7,"input_schema":null}]"#,
    );
    assert_eq!(
        texts(&translate_tools(&tools)),
        vec![
            r#"{"function":{"description":"Reads.","name":"read","parameters":{"properties":{"n":{"maximum":1.5,"type":"integer"}},"type":"object"}},"type":"function"}"#,
            r#"{"function":{"description":"","name":"list","parameters":{"type":"object"}},"type":"function"}"#,
            r#"{"function":{"description":"","name":"odd","parameters":null},"type":"function"}"#,
        ]
    );
    assert!(translate_tools(&[]).is_empty());
}

#[test]
fn tools_are_translated_one_by_one() {
    let tools = || list(r#"[{"name":"a"},{"x":1},{"name":"b"},{"name":"c"}]"#);
    let all = texts(&translate_tools(&tools()));
    let mut parts: Vec<String> = Vec::new();
    for tool in tools() {
        parts.extend(texts(&translate_tools(&[tool])));
    }
    assert_eq!(parts, all);
    assert_eq!(all.len(), 3);
    for cut in 0..=4 {
        let mut first = tools();
        let second = first.split_off(cut);
        let mut both = texts(&translate_tools(&first));
        both.extend(texts(&translate_tools(&second)));
        assert_eq!(both, all);
    }
}

#[test]
fn tools_without_names_are_no_tools() {
    let mut request = greeting();
    request.tools = Some(list(r#"[{"description":"x"}]"#));
    request.tool_choice = Some(json(r#"{"type":"any"}"#));
    let out = translate_request(&request, "m", 10);
    assert!(out.tools.is_none());
    assert_eq!(to_text(&out.tool_choice.unwrap()), r#""required""#);
    request.tools = Some(list(r#"[{"name":"x"}]"#));
    assert_eq!(translate_request(&request, "m", 10).tools.unwrap().len(), 1);
    request.tools = Some(Vec::new());
    assert!(translate_request(&request, "m", 10).tools.is_none());
}

#[test]
fn tool_choices_are_translated() {
    for (choice, expected) in [
        (r#"{"type":"auto"}"#, r#""auto""#),
        (r#"{"type":"none"}"#, r#""none""#),
        (r#"{"type":"any"}"#, r#""required""#),
        (r#"{"type":"tool","name":"read"}"#, r#"{"function":{"name":"read"},"type":"function"}"#),
        (r#"{"type":"tool"}"#, r#""auto""#),
        (r#"{"type":"tool","name":1}"#, r#""auto""#),
        (r#"{"type":"else"}"#, r#""auto""#),
        (r#"{}"#, r#""auto""#),
        (r#""any""#, r#""auto""#),
        ("null", r#""auto""#),
    ] {
        assert_eq!(to_text(&translate_tool_choice(&json(choice))), expected, "{choice}");
    }
}

#[test]
fn the_requested_model_may_be_missing() {
    let mut request = greeting();
    assert_eq!(requested_model(&request), "some-3-opus-20240229");
    request.model = None;
    assert_eq!(requested_model(&request), "");
}

#[test]
fn input_tokens_count_content_and_calls() {
    let mut request = greeting();
    let out = translate_request(&request, "m", 10);
    assert_eq!(input_tokens(&out.messages), 12 / 4 + 1);
    request.system = Some(Json::string("four"));
    request.messages.push(AnthropicMessage {
        role: "assistant".to_string(),
        content: json(r#"[{"type":"tool_use","id":"ignored","name":"read","input":{"a":1}}]"#),
    });
    request.messages.push(AnthropicMessage {
        role: "user".to_string(),
        content: json(r#"[{"type":"tool_result","tool_use_id":"ignored","content":"ééé"}]"#),
    });
    let out = translate_request(&request, "m", 10);
    assert_eq!(input_tokens(&out.messages), (4 + 12 + 4 + 7 + 6) / 4 + 1);
    assert_eq!(input_tokens(&[]), 1);
}

#[test]
fn addresses_and_headers() {
    assert_eq!(
        completions_url("aiplatform.googleapis.com", "proj", "global"),
        "https://aiplatform.googleapis.com/v1/projects/proj/locations/global/endpoints/openapi/chat/completions"
    );
    assert_eq!(bearer("abc"), "Bearer abc");
}
