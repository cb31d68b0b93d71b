use vertex_ai_proxy::auth::{
    accept_credentials, credentials_path, refresh_form, token_url, AdcCredentials, Credentials,
    CredentialsError, CredentialsPath, ServiceAccountKey, TokenCache, TokenError, SECOND,
};
use vertex_ai_proxy::assertion::{base64url_text, signed_assertion, signing_input};
use vertex_ai_proxy::display::log_row;
use vertex_ai_proxy::error::{outcome, succeeded, Outcome, ProxyError};
use vertex_ai_proxy::ids::{message_id, new_request_ids};
use vertex_ai_proxy::log::{RequestLog, Stats, LOG_LIMIT, RATE_LIMIT};

#[test]
fn request_ids_are_random_uuids() {
    let ids = new_request_ids();
    let other = new_request_ids();
    assert_ne!(ids.request, other.request);
    assert_eq!(ids.request.len(), 36);
    let groups: Vec<usize> = ids.request.split('-').map(str::len).collect();
    assert_eq!(groups, vec![8, 4, 4, 4, 12]);
    assert!(ids.request.chars().all(|c| c == '-' || matches!(c, '0'..='9' | 'a'..='f')));
    assert_eq!(&ids.request[14..15], "4");
    assert!(matches!(&ids.request[19..20], "8" | "9" | "a" | "b"));
    assert_eq!(ids.message, format!("msg_{}", &ids.request[..24]));
}

#[test]
fn message_ids_take_the_first_bytes() {
    assert_eq!(
        message_id("01234567-89ab-4def-8123-456789abcdef"),
        "msg_01234567-89ab-4def-8123-"
    );
}

fn entry(n: usize) -> RequestLog {
    RequestLog {
        id: format!("{n}"),
        timestamp: "00:00:00".to_string(),
        model_requested: "m".to_string(),
        status: "ok".to_string(),
        input_tokens: n,
        output_tokens: 2 * n,
        duration_ms: 1,
    }
}

#[test]
fn nothing_was_served_at_first() {
    let stats = Stats::new();
    assert!(stats.logs.is_empty());
    assert_eq!(stats.total_requests, 0);
    assert_eq!(stats.total_input_tokens, 0);
    assert_eq!(stats.total_output_tokens, 0);
    assert_eq!(stats.rps_history, vec![0; RATE_LIMIT]);
}

#[test]
fn the_log_keeps_the_latest_requests() {
    let mut stats = Stats::new();
    for n in 0..LOG_LIMIT + 20 {
        assert!(stats.has_room(n, 2 * n));
        stats.record(entry(n));
        assert_eq!(stats.logs.len(), (n + 1).min(LOG_LIMIT));
    }
    assert_eq!(stats.logs.first().unwrap().id, "20");
    assert_eq!(stats.logs.last().unwrap().id, "519");
    assert_eq!(stats.total_requests, 520);
    assert_eq!(stats.total_input_tokens, 519 * 520 / 2);
    assert_eq!(stats.total_output_tokens, 519 * 520);
}

#[test]
fn served_requests_are_logged() {
    let mut stats = Stats::new();
    stats.log_request("01234567-89ab-4def-8123-456789abcdef", "model", "ok", 3, 4, 56);
    let log = &stats.logs[0];
    assert_eq!(log.id, "01234567");
    assert_eq!(log.model_requested, "model");
    assert_eq!(log.status, "ok");
    assert_eq!((log.input_tokens, log.output_tokens, log.duration_ms), (3, 4, 56));
    let parts: Vec<u32> = log.timestamp.split(':').map(|p| p.parse().unwrap()).collect();
    assert_eq!(log.timestamp.len(), 8);
    assert_eq!(parts.len(), 3);
    assert!(parts[0] < 24 && parts[1] < 60 && parts[2] < 60);
    assert_eq!(stats.total_requests, 1);
    assert_eq!(stats.total_input_tokens, 3);
    assert_eq!(stats.total_output_tokens, 4);
}

#[test]
fn failed_requests_are_logged() {
    let mut stats = Stats::new();
    let errors = [
        (ProxyError::Token("t".to_string()), "500"),
        (ProxyError::Unreachable("u".to_string()), "502"),
        (ProxyError::Refused { status: 429, body: "slow down".to_string() }, "429"),
        (ProxyError::Refused { status: 7, body: String::new() }, "502"),
        (ProxyError::Malformed("m".to_string()), "502"),
    ];
    for (n, (error, status)) in errors.iter().enumerate() {
        stats.log_failure("01234567-89ab-4def-8123-456789abcdef", "model", error, 3, 56);
        let log = &stats.logs[n];
        assert_eq!(log.id, "01234567");
        assert_eq!(log.model_requested, "model");
        assert_eq!(log.status, *status);
        assert_eq!(error.status().to_string(), *status);
        assert_eq!((log.input_tokens, log.output_tokens, log.duration_ms), (3, 0, 56));
        assert_eq!(log.timestamp.len(), 8);
        assert!(!log_row(log).served);
    }
    assert_eq!(stats.total_requests, 5);
    assert_eq!(stats.total_input_tokens, 15);
    assert_eq!(stats.total_output_tokens, 0);
}

#[test]
fn full_totals_have_no_room() {
    let mut stats = Stats::new();
    stats.total_input_tokens = u64::MAX - 5;
    assert!(stats.has_room(5, 0));
    assert!(!stats.has_room(6, 0));
    stats.total_output_tokens = u64::MAX;
    assert!(!stats.has_room(0, 1));
    assert!(stats.has_room(0, 0));
    stats.total_requests = u64::MAX;
    assert!(!stats.has_room(0, 0));
}

#[test]
fn the_rate_keeps_the_last_minute() {
    let mut stats = Stats::new();
    let mut last = 0;
    for second in 0..75usize {
        for _ in 0..second % 3 {
            stats.record(entry(1));
        }
        last = stats.tick(last);
        assert_eq!(last, stats.total_requests);
        assert_eq!(stats.rps_history.len(), RATE_LIMIT);
        assert_eq!(*stats.rps_history.last().unwrap(), (second % 3) as u64);
    }
    let expected: Vec<u64> = (15..75).map(|s| s % 3).collect();
    assert_eq!(stats.rps_history, expected);
    let mut all = vec![0; RATE_LIMIT];
    all.extend((0..75u64).map(|s| s % 3));
    assert_eq!(stats.rps_history, all[all.len() - RATE_LIMIT..]);
}

#[test]
fn failures_are_answered() {
    assert_eq!(ProxyError::Token("no token".to_string()).answer(), (500, "no token".to_string()));
    assert_eq!(
        ProxyError::Unreachable("timeout".to_string()).answer(),
        (502, "Upstream error: timeout".to_string())
    );
    assert_eq!(
        ProxyError::Refused { status: 429, body: "slow down".to_string() }.answer(),
        (429, "slow down".to_string())
    );
    assert_eq!(ProxyError::Refused { status: 99, body: String::new() }.answer().0, 502);
    assert_eq!(ProxyError::Refused { status: 100, body: String::new() }.answer().0, 100);
    assert_eq!(ProxyError::Refused { status: 999, body: String::new() }.answer().0, 999);
    assert_eq!(ProxyError::Refused { status: 1000, body: String::new() }.answer().0, 502);
    assert_eq!(
        ProxyError::Malformed("EOF while parsing".to_string()).answer(),
        (502, "EOF while parsing".to_string())
    );
}

#[test]
fn success_is_two_hundred_and_up() {
    for (status, yes) in [(199, false), (200, true), (204, true), (299, true), (300, false)] {
        assert_eq!(succeeded(status), yes);
    }
}

#[test]
fn refusals_are_passed_on_and_replies_are_read() {
    for status in 100..1000u16 {
        for streaming in [false, true] {
            let refused = outcome(status, streaming) == Outcome::Refusal;
            assert_eq!(refused, !(200..300).contains(&status));
            if refused {
                let (shown, text) =
                    ProxyError::Refused { status, body: "why".to_string() }.answer();
                assert_eq!((shown, text.as_str()), (status, "why"));
                assert!(!succeeded(shown));
            }
        }
    }
    assert!(outcome(200, true) == Outcome::Stream);
    assert!(outcome(200, false) == Outcome::Whole);
}

fn login(cred_type: &str, quota: Option<&str>) -> Result<AdcCredentials, String> {
    Ok(AdcCredentials {
        client_id: "id".to_string(),
        client_secret: "secret".to_string(),
        refresh_token: "refresh".to_string(),
        cred_type: cred_type.to_string(),
        quota_project_id: quota.map(String::from),
    })
}

fn key(cred_type: &str, quota: Option<&str>) -> Option<ServiceAccountKey> {
    Some(ServiceAccountKey {
        client_email: "me@project".to_string(),
        private_key: "key".to_string(),
        token_uri: "https://tokens".to_string(),
        cred_type: cred_type.to_string(),
        quota_project_id: quota.map(String::from),
    })
}

fn unreadable_login() -> Result<AdcCredentials, String> {
    Err("missing field `client_id` at line 3 column 1".to_string())
}

fn accepted(login: Result<AdcCredentials, String>, key: Option<ServiceAccountKey>) -> String {
    match accept_credentials(login, key) {
        Ok((Credentials::User { client_id, client_secret, refresh_token }, quota)) => {
            format!("user {client_id} {client_secret} {refresh_token} {quota:?}")
        }
        Ok((Credentials::ServiceAccount { client_email, private_key, token_uri }, quota)) => {
            format!("account {client_email} {private_key} {token_uri} {quota:?}")
        }
        Err(error) => error.message(),
    }
}

#[test]
fn user_credentials_are_accepted() {
    let user = "authorized_user";
    assert_eq!(
        accepted(login(user, Some("quota")), None),
        r#"user id secret refresh Some("quota")"#
    );
    assert_eq!(accepted(login(user, None), key(user, None)), "user id secret refresh None");
}

#[test]
fn service_account_keys_are_accepted() {
    let account = "service_account";
    assert_eq!(
        accepted(unreadable_login(), key(account, Some("quota"))),
        r#"account me@project key https://tokens Some("quota")"#
    );
    assert_eq!(
        accepted(login(account, Some("quota")), key(account, None)),
        "account me@project key https://tokens None"
    );
}

#[test]
fn unreadable_credentials_are_refused() {
    let told = "Failed to parse credentials: missing field `client_id` at line 3 column 1";
    assert_eq!(accepted(unreadable_login(), None), told);
    assert_eq!(accepted(unreadable_login(), key("external_account", None)), told);
}

#[test]
fn other_credentials_are_refused() {
    for other in ["external_account", "service_account", ""] {
        assert_eq!(
            accepted(login(other, None), None),
            format!("Unsupported credential type '{other}'. Expected 'authorized_user'.\nRun: gcloud auth application-default login")
        );
    }
    let unreadable =
        CredentialsError::Unreadable { path: "/p".to_string(), cause: "gone".to_string() };
    assert_eq!(
        unreadable.message(),
        "Cannot read credentials at /p: gone\nRun: gcloud auth application-default login"
    );
}

#[test]
fn credentials_are_looked_for() {
    let path = |explicit: Option<&str>, home: Option<&str>| {
        match credentials_path(explicit.map(String::from), home.map(String::from)) {
            CredentialsPath::Explicit(p) => format!("at {p}"),
            CredentialsPath::UnderHome(h) => format!("under {h}"),
        }
    };
    assert_eq!(path(Some("/c.json"), Some("/home/u")), "at /c.json");
    assert_eq!(path(None, Some("/home/u")), "under /home/u");
    assert_eq!(path(None, None), "under /root");
}

fn user() -> Credentials {
    Credentials::User {
        client_id: "id".to_string(),
        client_secret: "secret".to_string(),
        refresh_token: "refresh".to_string(),
    }
}

fn account() -> Credentials {
    Credentials::ServiceAccount {
        client_email: "me@project".to_string(),
        private_key: "key".to_string(),
        token_uri: "https://tokens".to_string(),
    }
}

fn form(credentials: &Credentials, assertion: &str) -> Vec<String> {
    refresh_form(credentials, assertion).iter().map(|(k, v)| format!("{k}={v}")).collect()
}

#[test]
fn the_refresh_form_of_a_user_has_four_fields() {
    let fields = vec![
        "client_id=id", "client_secret=secret", "refresh_token=refresh", "grant_type=refresh_token",
    ];
    assert_eq!(form(&user(), ""), fields);
    assert_eq!(form(&user(), "unused"), fields);
    assert_eq!(token_url(&user()), "https://oauth2.googleapis.com/token");
}

#[test]
fn the_refresh_form_of_a_service_account_has_its_assertion() {
    assert_eq!(
        form(&account(), "a.b.c"),
        vec!["grant_type=urn:ietf:params:oauth:grant-type:jwt-bearer", "assertion=a.b.c"]
    );
    assert_eq!(token_url(&account()), "https://tokens");
}

#[test]
fn bytes_are_encoded_in_url_safe_base_64() {
    for (bytes, text) in [
        ("", ""), ("f", "Zg"), ("fo", "Zm8"), ("foo", "Zm9v"), ("foob", "Zm9vYg"),
        ("fooba", "Zm9vYmE"), ("foobar", "Zm9vYmFy"),
    ] {
        assert_eq!(base64url_text(bytes.as_bytes()), text);
    }
    assert_eq!(base64url_text(&[0xfb, 0xff, 0xfe]), "-__-");
    assert_eq!(base64url_text(&[0xff]), "_w");
}

fn decoded(text: &str) -> String {
    let digits = "ABCDEFGHIJKLMNOPQRSTUVWXYZabcdefghijklmnopqrstuvwxyz0123456789-_";
    let mut bits: u32 = 0;
    let mut held = 0;
    let mut bytes: Vec<u8> = Vec::new();
    for c in text.chars() {
        bits = bits << 6 | digits.find(c).unwrap() as u32;
        held += 6;
        if held >= 8 {
            held -= 8;
            bytes.push((bits >> held) as u8);
            bits &= (1 << held) - 1;
        }
    }
    String::from_utf8(bytes).unwrap()
}

#[test]
fn assertions_say_who_asks_for_what() {
    let input = signing_input("me@project", "https://tokens", 1_000);
    let parts: Vec<String> = input.split('.').map(decoded).collect();
    assert_eq!(
        parts,
        vec![
            r#"{"alg":"RS256","typ":"JWT"}"#.to_string(),
            [
                r#"{"aud":"https://tokens","exp":4600,"iat":1000,"iss":"me@project","#,
                r#""scope":"https://www.googleapis.com/auth/cloud-platform"}"#,
            ]
            .join(""),
        ]
    );
    assert_eq!(signed_assertion(&input, b"foo"), format!("{input}.Zm9v"));
}

#[test]
fn token_failures_are_told() {
    let cause = || "why".to_string();
    assert_eq!(
        TokenError::Unsigned { cause: cause() }.message(),
        "Failed to sign token request: why"
    );
    assert_eq!(
        TokenError::Unreachable { cause: cause() }.message(),
        "Token refresh request failed: why"
    );
    assert_eq!(TokenError::Refused { body: cause() }.message(), "Token refresh failed: why");
    assert_eq!(
        TokenError::Malformed { cause: cause() }.message(),
        "Failed to parse token response: why"
    );
}

#[test]
fn tokens_are_used_until_a_minute_before_they_expire() {
    let mut cache = TokenCache::new();
    assert_eq!(cache.lookup(0), None);
    let start = 5 * SECOND;
    cache.store("first", 3600, start);
    assert_eq!(cache.lookup(start), Some("first".to_string()));
    assert_eq!(cache.lookup(start + 3540 * SECOND - 1), Some("first".to_string()));
    assert_eq!(cache.lookup(start + 3540 * SECOND), None);
    assert_eq!(cache.lookup(start + 3600 * SECOND), None);
    cache.store("short", 60, start);
    assert_eq!(cache.lookup(start), None);
    cache.store("shorter", 0, start);
    assert_eq!(cache.lookup(start), None);
    cache.store("second", 61, start);
    assert_eq!(cache.lookup(start), Some("second".to_string()));
    assert_eq!(cache.lookup(start + SECOND), None);
}
