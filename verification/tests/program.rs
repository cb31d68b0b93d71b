use vertex_ai_proxy::cli::{
    base_url, bind_address, choose_host, exit_code, extract_host, health_url, listens_externally,
    next_poll, parse_command, Command, Poll, POLL_LIMIT, POLL_PAUSE_MS,
};
use vertex_ai_proxy::config::{choose_project, parse_port, settings, Environment};
use vertex_ai_proxy::display::{
    can_truncate, counter_texts, ends_display, external_command, listening_text, local_command,
    log_row, log_rows, routable_address, truncate_str, Key,
};
use vertex_ai_proxy::gcloud::{active_configuration, configuration_file, find_project};
use vertex_ai_proxy::log::{RequestLog, Stats};

fn args(list: &[&str]) -> Vec<String> {
    list.iter().map(|s| s.to_string()).collect()
}

fn extracted(list: &[&str]) -> (Option<String>, Vec<String>) {
    let mut a = args(list);
    let host = extract_host(&mut a);
    (host, a)
}

#[test]
fn the_bind_address_is_taken_out() {
    let all = Some("0.0.0.0".to_string());
    assert_eq!(extracted(&["p", "--host", "0.0.0.0", "serve"]), (all.clone(), args(&["p", "serve"])));
    assert_eq!(extracted(&["p", "serve", "--host", "0.0.0.0"]), (all.clone(), args(&["p", "serve"])));
    assert_eq!(extracted(&["p", "--host=0.0.0.0"]), (all.clone(), args(&["p"])));
    assert_eq!(extracted(&["p", "--host="]), (Some(String::new()), args(&["p"])));
    assert_eq!(extracted(&["p", "--host"]), (None, args(&["p"])));
    assert_eq!(
        extracted(&["p", "--host=a", "--host=b"]),
        (Some("a".to_string()), args(&["p", "--host=b"]))
    );
    assert_eq!(
        extracted(&["p", "--host", "0.0.0.0", "launch", "c"]),
        (all, args(&["p", "launch", "c"]))
    );
}

#[test]
fn without_an_address_nothing_changes() {
    for list in [
        vec![],
        vec!["p"],
        vec!["--host"],
        vec!["--host=x"],
        vec!["p", "serve", "--hostname"],
        vec!["p", "launch", "c", "--host", "h"],
    ] {
        assert_eq!(extracted(&list), (None, args(&list)));
    }
}

#[test]
fn the_launched_command_keeps_its_flags() {
    assert_eq!(
        extracted(&["p", "--host=a", "launch", "c", "--host", "b", "--host=d"]),
        (Some("a".to_string()), args(&["p", "launch", "c", "--host", "b", "--host=d"]))
    );
    assert_eq!(
        extracted(&["p", "--host", "launch", "c", "-x"]),
        (Some("launch".to_string()), args(&["p", "c", "-x"]))
    );
}

fn command(list: &[&str]) -> String {
    match parse_command(&args(list)) {
        Command::Interactive => "interactive".to_string(),
        Command::Serve => "serve".to_string(),
        Command::Launch { cmd, args } => format!("launch {cmd} {args:?}"),
        Command::LaunchNothing => "launch nothing".to_string(),
        Command::Help => "help".to_string(),
        Command::Unknown(word) => format!("unknown {word}"),
    }
}

#[test]
fn commands_are_recognized() {
    assert_eq!(command(&[]), "interactive");
    assert_eq!(command(&["p"]), "interactive");
    assert_eq!(command(&["p", "serve"]), "serve");
    assert_eq!(command(&["p", "serve", "more"]), "serve");
    assert_eq!(command(&["p", "--help"]), "help");
    assert_eq!(command(&["p", "-h"]), "help");
    assert_eq!(command(&["p", "launch"]), "launch nothing");
    assert_eq!(command(&["p", "launch", "c"]), "launch c []");
    assert_eq!(
        command(&["p", "launch", "c", "-p", "Hello, world"]),
        r#"launch c ["-p", "Hello, world"]"#
    );
    assert_eq!(command(&["p", "run"]), "unknown run");
}

#[test]
fn addresses_of_the_server() {
    assert_eq!(choose_host(Some("a".to_string()), Some("b".to_string())), "a");
    assert_eq!(choose_host(None, Some("b".to_string())), "b");
    assert_eq!(choose_host(None, None), "127.0.0.1");
    assert_eq!(base_url(8082), "http://127.0.0.1:8082");
    assert_eq!(health_url("http://127.0.0.1:8082"), "http://127.0.0.1:8082/health");
    assert_eq!(bind_address("0.0.0.0", 80), "0.0.0.0:80");
}

#[test]
fn loopback_is_not_external() {
    for host in ["127.0.0.1", "localhost", "::1"] {
        assert!(!listens_externally(host));
    }
    for host in ["0.0.0.0", "192.168.1.5", "127.0.0.2", "", "Localhost"] {
        assert!(listens_externally(host));
    }
}

#[test]
fn a_starting_server_is_asked_often() {
    assert!(next_poll(1, true) == Poll::Proceed);
    let mut asked = 1;
    while next_poll(asked, false) == Poll::WaitMs(POLL_PAUSE_MS) {
        asked += 1;
    }
    assert_eq!(asked, POLL_LIMIT);
    assert_eq!((POLL_LIMIT, POLL_PAUSE_MS), (50, 100));
    assert!(next_poll(asked, false) == Poll::WaitThenProceedMs(100));
}

#[test]
fn exit_codes_are_passed_on() {
    assert_eq!(exit_code(Some(0)), 0);
    assert_eq!(exit_code(Some(-7)), -7);
    assert_eq!(exit_code(None), 1);
}

fn environment() -> Environment {
    Environment { endpoint: None, region: None, model: None, port: None, max_output_tokens: None }
}

#[test]
fn settings_have_defaults() {
    let s = settings(&environment()).unwrap();
    assert_eq!(s.endpoint, "aiplatform.googleapis.com");
    assert_eq!(s.region, "global");
    assert_eq!(s.model, "qwen/qwen3-235b-a22b-instruct-2507-maas");
    assert_eq!(s.port, 8082);
    assert_eq!(s.max_output_tokens, 16384);
}

#[test]
fn settings_come_from_the_environment() {
    let some = |s: &str| Some(s.to_string());
    let s = settings(&Environment {
        endpoint: some("e"),
        region: some("r"),
        model: some("m"),
        port: some("80"),
        max_output_tokens: some("4096"),
    })
    .unwrap();
    assert_eq!((s.endpoint.as_str(), s.region.as_str(), s.model.as_str()), ("e", "r", "m"));
    assert_eq!((s.port, s.max_output_tokens), (80, 4096));
    let mut odd = environment();
    odd.max_output_tokens = some("many");
    assert_eq!(settings(&odd).unwrap().max_output_tokens, 16384);
    odd.port = some("http");
    assert!(settings(&odd).is_none());
}

#[test]
fn ports_are_numbers() {
    let port = |s: &str| parse_port(&Some(s.to_string()));
    assert_eq!(parse_port(&None), Some(8082));
    assert_eq!(port("0"), Some(0));
    assert_eq!(port("65535"), Some(65535));
    assert_eq!(port("65536"), None);
    assert_eq!(port(""), None);
    assert_eq!(port(" 80"), None);
    assert_eq!(port("-1"), None);
}

#[test]
fn the_project_is_chosen() {
    let some = |s: &str| Some(s.to_string());
    assert_eq!(choose_project(some("e"), some("q"), some("c")), some("e"));
    assert_eq!(choose_project(None, some("q"), some("c")), some("q"));
    assert_eq!(choose_project(None, None, some("c")), some("c"));
    assert_eq!(choose_project(None, None, None), None);
}

#[test]
fn the_configured_project_is_found() {
    assert_eq!(active_configuration(&Some(" work\n".to_string())), "work");
    assert_eq!(active_configuration(&None), "default");
    assert_eq!(configuration_file("work"), "config_work");
    let some = |s: &str| Some(s.to_string());
    assert_eq!(
        find_project("[core]\r\naccount = a@b\r\n  project =  my-proj \r\nproject = other\r\n"),
        some("my-proj")
    );
    assert_eq!(find_project("project=x"), some("x"));
    assert_eq!(find_project("project\t=\n"), some(""));
    assert_eq!(find_project("project_id = x\nmy project = y\nproject : z"), None);
    assert_eq!(find_project("project = a = b"), some("a = b"));
    assert_eq!(find_project(""), None);
}

#[test]
fn long_texts_are_cut() {
    assert_eq!(truncate_str("short", 30), "short");
    assert_eq!(truncate_str("exactly", 7), "exactly");
    assert_eq!(truncate_str("toolong", 6), "toolo…");
    assert_eq!(truncate_str("ab", 1), "…");
    assert_eq!(truncate_str("éab", 3), "é…");
    assert!(can_truncate("éab", 3));
    assert!(!can_truncate("éab", 2));
    assert!(!can_truncate("a", 0));
    assert!(can_truncate("", 0));
    for max in 1..10usize {
        assert!(can_truncate("abcdefgh", max));
    }
    for text in ["abcdefgh", "éàüö", "a…b…", "😀😀", ""] {
        for max in 0..16usize {
            if can_truncate(text, max) {
                let once = truncate_str(text, max);
                assert!(once.chars().count() <= max);
                assert!(can_truncate(&once, max));
                assert_eq!(truncate_str(&once, max), once);
            }
        }
    }
}

fn entry(n: usize) -> RequestLog {
    RequestLog {
        id: format!("id{n}"),
        timestamp: "12:34:56".to_string(),
        model_requested: "a-model-with-quite-a-long-name-indeed".to_string(),
        status: if n % 2 == 0 { "ok".to_string() } else { "failed".to_string() },
        input_tokens: n,
        output_tokens: 123_456,
        duration_ms: 789,
    }
}

#[test]
fn log_entries_become_rows() {
    let row = log_row(&entry(4));
    assert_eq!(row.timestamp, "12:34:56");
    assert_eq!(row.id, "id4");
    assert_eq!(row.tokens, format!("{:>5}→{:<5}", 4, 123_456));
    assert_eq!(row.duration, "   789ms");
    assert_eq!(row.status, "ok");
    assert!(row.served);
    assert_eq!(row.model, "a-model-with-quite-a-long-nam…");
    assert!(!log_row(&entry(5)).served);
    let mut short = entry(0);
    short.output_tokens = 7;
    short.duration_ms = 12_345_678;
    assert_eq!(log_row(&short).tokens, "    0→7    ");
    assert_eq!(log_row(&short).duration, "12345678ms");
}

#[test]
fn the_latest_rows_come_first() {
    let logs: Vec<RequestLog> = (0..3).map(entry).collect();
    let ids: Vec<String> = log_rows(&logs).into_iter().map(|r| r.id).collect();
    assert_eq!(ids, vec!["id2", "id1", "id0"]);
    let logs: Vec<RequestLog> = (0..80).map(entry).collect();
    let rows = log_rows(&logs);
    assert_eq!(rows.len(), 50);
    assert_eq!(rows[0].id, "id79");
    assert_eq!(rows[49].id, "id30");
    assert!(log_rows(&Vec::new()).is_empty());
}

#[test]
fn counters_are_shown() {
    let mut stats = Stats::new();
    stats.total_requests = 1500;
    stats.total_input_tokens = 1500;
    stats.total_output_tokens = 2_500_000;
    let texts = counter_texts(&stats);
    let pairs: Vec<(&str, &str)> = texts.iter().map(|(l, v)| (l.as_str(), v.as_str())).collect();
    assert_eq!(
        pairs,
        vec![("Requests", "1500"), ("Input Tokens", "1.5K"), ("Output Tokens", "2.5M")]
    );
}

#[test]
fn invocations_are_shown() {
    assert_eq!(listening_text("0.0.0.0", 8082), " listening on 0.0.0.0:8082");
    assert_eq!(local_command(8082, "tool"), "ANTHROPIC_BASE_URL=http://127.0.0.1:8082 tool");
    assert_eq!(
        external_command("0.0.0.0", 8082, &Some("10.0.0.7".to_string()), "tool"),
        Some("ANTHROPIC_BASE_URL=http://10.0.0.7:8082 tool".to_string())
    );
    assert_eq!(
        external_command("0.0.0.0", 1, &None, "tool"),
        Some("ANTHROPIC_BASE_URL=http://<this-host>:1 tool".to_string())
    );
    assert_eq!(external_command("localhost", 8082, &None, "tool"), None);
}

#[test]
fn only_routable_addresses_are_shown() {
    let ip = || "10.0.0.7".to_string();
    assert_eq!(routable_address(ip(), false, false), Some(ip()));
    assert_eq!(routable_address(ip(), true, false), None);
    assert_eq!(routable_address(ip(), false, true), None);
}

#[test]
fn keys_end_the_display() {
    assert!(ends_display(true, Key::Char('q')));
    assert!(ends_display(true, Key::Esc));
    assert!(!ends_display(true, Key::Char('Q')));
    assert!(!ends_display(true, Key::Other));
    assert!(!ends_display(false, Key::Char('q')));
    assert!(!ends_display(false, Key::Esc));
}
