//! The texts of the terminal display.

use crate::cli::{external, listens_externally};
use crate::log::{RequestLog, Stats};
use crate::text::{
    byte_len, byte_prefix, decimal, decimal_text, lemma_ascii_prefix, lemma_byte_prefix,
    lemma_chars_are_bytes, lemma_encode_concat, on_boundary, prefix_bytes, same_text, text_len,
};
use crate::tokens::{format_tokens, formatted_tokens};
use vstd::prelude::*;
use vstd::string::*;
use vstd::utf8::*;

verus! {

/// How many log entries are shown.
pub const SHOWN_LOGS: usize = 50;

/// How many bytes of a model name are shown.
pub const SHOWN_MODEL: usize = 30;

/// The text can be cut to `max` bytes: it fits, or a character ends where it has to
/// be cut.
pub open spec fn can_cut(text: Seq<char>, max: nat) -> bool {
    byte_len(text) <= max || (max >= 1 && on_boundary(text, (max - 1) as nat))
}

/// The text where it has at most `max` bytes, and else its first `max - 1` bytes
/// and an ellipsis.
pub open spec fn cut(text: Seq<char>, max: nat) -> Seq<char> {
    if byte_len(text) > max {
        byte_prefix(text, (max - 1) as nat) + "…"@
    } else {
        text
    }
}

/// Whether the text can be cut to `max` bytes.
pub fn can_truncate(s: &str, max: usize) -> (yes: bool)
    ensures
        yes == can_cut(s@, max as nat),
{
    text_len(s) <= max || (max >= 1 && s.is_char_boundary(max - 1))
}

/// The text where it has at most `max` bytes, and else its first `max - 1` bytes
/// and an ellipsis.
pub fn truncate_str(s: &str, max: usize) -> (text: String)
    requires
        can_cut(s@, max as nat),
    ensures
        text@ == cut(s@, max as nat),
{
    if text_len(s) > max {
        let mut text = prefix_bytes(s, max - 1);
        text.append("…");
        text
    } else {
        s.to_owned()
    }
}

/// A run of `n` spaces.
pub open spec fn spaces(n: nat) -> Seq<char> {
    Seq::new(n, |i: int| ' ')
}

/// The spaces that bring a text to the width `width`.
pub open spec fn padding(text: Seq<char>, width: nat) -> Seq<char> {
    if text.len() < width {
        spaces((width - text.len()) as nat)
    } else {
        seq![]
    }
}

fn make_padding(text: &str, width: usize) -> (pad: String)
    ensures
        pad@ == padding(text@, width as nat),
{
    let n = text.unicode_len();
    let mut pad = String::new();
    let mut i = n;
    assert(pad@ =~= spaces(0));
    while i < width
        invariant
            n <= i,
            i <= width || i == n,
            pad@ == spaces((i - n) as nat),
        decreases width - i,
    {
        proof {
            reveal_strlit(" ");
        }
        pad.append(" ");
        assert(pad@ =~= spaces((i + 1 - n) as nat));
        i += 1;
    }
    assert(pad@ =~= padding(text@, width as nat));
    pad
}

/// The texts of a row of the request log.
pub struct LogRow {
    pub timestamp: String,
    pub id: String,
    pub tokens: String,
    pub duration: String,
    pub status: String,
    pub served: bool,
    pub model: String,
}

/// The token counts of a row: input, an arrow, output.
pub open spec fn tokens_text(input: nat, output: nat) -> Seq<char> {
    padding(decimal(input), 5) + decimal(input) + "→"@ + decimal(output) + padding(
        decimal(output),
        5,
    )
}

/// The duration of a row, in milliseconds.
pub open spec fn duration_text(duration_ms: nat) -> Seq<char> {
    padding(decimal(duration_ms), 6) + decimal(duration_ms) + "ms"@
}

/// The row shows the log entry.
pub open spec fn shows(row: LogRow, log: RequestLog) -> bool {
    &&& row.timestamp@ == log.timestamp@
    &&& row.id@ == log.id@
    &&& row.tokens@ == tokens_text(log.input_tokens as nat, log.output_tokens as nat)
    &&& row.duration@ == duration_text(log.duration_ms as nat)
    &&& row.status@ == log.status@
    &&& row.served == (log.status@ == "ok"@)
    &&& row.model@ == cut(log.model_requested@, SHOWN_MODEL as nat)
}

/// The row of a log entry.
pub fn log_row(log: &RequestLog) -> (row: LogRow)
    requires
        can_cut(log.model_requested@, SHOWN_MODEL as nat),
    ensures
        shows(row, *log),
{
    let input = decimal_text(log.input_tokens as u128);
    let output = decimal_text(log.output_tokens as u128);
    let mut tokens = make_padding(input.as_str(), 5);
    tokens.append(input.as_str());
    tokens.append("→");
    tokens.append(output.as_str());
    tokens.append(make_padding(output.as_str(), 5).as_str());
    let millis = decimal_text(log.duration_ms as u128);
    let mut duration = make_padding(millis.as_str(), 6);
    duration.append(millis.as_str());
    duration.append("ms");
    LogRow {
        timestamp: log.timestamp.clone(),
        id: log.id.clone(),
        tokens,
        duration,
        status: log.status.clone(),
        served: same_text(log.status.as_str(), "ok"),
        model: truncate_str(log.model_requested.as_str(), SHOWN_MODEL),
    }
}

/// The number of rows for a log.
pub open spec fn row_count(logs: nat) -> nat {
    if logs <= SHOWN_LOGS {
        logs
    } else {
        SHOWN_LOGS as nat
    }
}

/// The rows for a log, the latest entry first.
pub fn log_rows(logs: &Vec<RequestLog>) -> (rows: Vec<LogRow>)
    requires
        forall|i: int|
            0 <= i < logs@.len() && logs@.len() <= i + SHOWN_LOGS ==> can_cut(
                (#[trigger] logs@[i]).model_requested@,
                SHOWN_MODEL as nat,
            ),
    ensures
        rows@.len() == row_count(logs@.len()),
        forall|i: int|
            0 <= i < rows@.len() ==> shows(#[trigger] rows@[i], logs@[logs@.len() - 1 - i]),
{
    let mut rows: Vec<LogRow> = Vec::new();
    let n = logs.len();
    let mut i: usize = 0;
    while i < n && i < SHOWN_LOGS
        invariant
            n == logs@.len(),
            i <= n,
            i <= SHOWN_LOGS,
            rows@.len() == i,
            forall|j: int|
                0 <= j < logs@.len() && logs@.len() <= j + SHOWN_LOGS ==> can_cut(
                    (#[trigger] logs@[j]).model_requested@,
                    SHOWN_MODEL as nat,
                ),
            forall|j: int| 0 <= j < i ==> shows(#[trigger] rows@[j], logs@[n - 1 - j]),
        decreases n - i,
    {
        rows.push(log_row(&logs[n - 1 - i]));
        i += 1;
    }
    rows
}

/// The labels and values of the counters.
pub open spec fn counters(stats: Stats) -> Seq<(Seq<char>, Seq<char>)> {
    seq![
        ("Requests"@, decimal(stats.total_requests as nat)),
        ("Input Tokens"@, formatted_tokens(stats.total_input_tokens as nat)),
        ("Output Tokens"@, formatted_tokens(stats.total_output_tokens as nat)),
    ]
}

/// The labels and values of the counters.
pub fn counter_texts(stats: &Stats) -> (texts: Vec<(String, String)>)
    ensures
        crate::auth::pairs_view(texts@) == counters(*stats),
{
    let mut texts: Vec<(String, String)> = Vec::new();
    texts.push(("Requests".to_owned(), decimal_text(stats.total_requests as u128)));
    texts.push(("Input Tokens".to_owned(), format_tokens(stats.total_input_tokens)));
    texts.push(("Output Tokens".to_owned(), format_tokens(stats.total_output_tokens)));
    assert(crate::auth::pairs_view(texts@) =~= counters(*stats));
    texts
}

/// The command line that runs `client` against the proxy under the given address.
pub open spec fn client_command(host: Seq<char>, port: nat, client: Seq<char>) -> Seq<char> {
    "ANTHROPIC_BASE_URL=http://"@ + host + ":"@ + decimal(port) + " "@ + client
}

fn client_command_text(host: &str, port: u16, client: &str) -> (text: String)
    ensures
        text@ == client_command(host@, port as nat, client@),
{
    let mut text = "ANTHROPIC_BASE_URL=http://".to_owned();
    text.append(host);
    text.append(":");
    text.append(decimal_text(port as u128).as_str());
    text.append(" ");
    text.append(client);
    text
}

/// Where the proxy listens.
pub fn listening_text(host: &str, port: u16) -> (text: String)
    ensures
        text@ == " listening on "@ + host@ + ":"@ + decimal(port as nat),
{
    let mut text = " listening on ".to_owned();
    text.append(host);
    text.append(":");
    text.append(decimal_text(port as u128).as_str());
    text
}

/// How to run `client` on this machine.
pub fn local_command(port: u16, client: &str) -> (text: String)
    ensures
        text@ == client_command("127.0.0.1"@, port as nat, client@),
{
    client_command_text("127.0.0.1", port, client)
}

/// How to run `client` on other machines, where the proxy can be reached from them.
/// `address` is the address of this machine, if it is known.
pub fn external_command(
    host: &str,
    port: u16,
    address: &Option<String>,
    client: &str,
) -> (text: Option<String>)
    ensures
        match text {
            Some(t) => external(host@) && t@ == client_command(
                match *address {
                    Some(ip) => ip@,
                    None => "<this-host>"@,
                },
                port as nat,
                client@,
            ),
            None => !external(host@),
        },
{
    if !listens_externally(host) {
        return None;
    }
    match address {
        Some(ip) => Some(client_command_text(ip.as_str(), port, client)),
        None => Some(client_command_text("<this-host>", port, client)),
    }
}

/// The address of this machine, unless it is of no use to other machines.
pub fn routable_address(ip: String, loopback: bool, unspecified: bool) -> (address: Option<String>)
    ensures
        address == if loopback || unspecified {
            None
        } else {
            Some(ip)
        },
{
    if loopback || unspecified {
        None
    } else {
        Some(ip)
    }
}

/// A key of the terminal.
#[derive(Clone, Copy, PartialEq, Eq, Structural)]
pub enum Key {
    Char(char),
    Esc,
    Other,
}

/// Whether the key, which was pressed or released, ends the display.
pub fn ends_display(pressed: bool, key: Key) -> (yes: bool)
    ensures
        yes == (pressed && (key == Key::Char('q') || key == Key::Esc)),
{
    match key {
        Key::Char(c) => pressed && c == 'q',
        Key::Esc => pressed,
        Key::Other => false,
    }
}

/// A text that can be cut to `max` bytes has at most `max` characters afterwards, and
/// cutting it again changes nothing. One of at most `max` bytes stays as it is.
pub proof fn law_cut_is_short(text: Seq<char>, max: nat)
    requires
        can_cut(text, max),
    ensures
        cut(text, max).len() <= max,
        can_cut(cut(text, max), max),
        cut(cut(text, max), max) == cut(text, max),
        byte_len(text) <= max ==> cut(text, max) == text,
{
    lemma_chars_are_bytes(text);
    if byte_len(text) > max {
        let n = (max - 1) as nat;
        let head = byte_prefix(text, n);
        reveal_strlit("…");
        lemma_byte_prefix(text, n);
        lemma_encode_concat(head, "…"@);
        lemma_byte_prefix(cut(text, max), n);
        let bytes = encode_utf8(cut(text, max));
        assert(bytes.subrange(0, n as int) =~= encode_utf8(head));
        encode_utf8_decode_utf8(head);
    }
}

/// A text of ASCII characters can be cut anywhere.
pub proof fn law_ascii_can_be_cut(text: Seq<char>, max: nat)
    requires
        is_ascii_chars(text),
        max >= 1,
    ensures
        can_cut(text, max),
{
    lemma_ascii_prefix(text, text.len());
    if text.len() > max {
        lemma_ascii_prefix(text, (max - 1) as nat);
    }
}

/// A text of more than `max` bytes whose first characters make up `max - 1` of them
/// can be cut: these characters are left, and a mark follows them.
pub proof fn law_cut_keeps_the_start(head: Seq<char>, tail: Seq<char>, max: nat)
    requires
        byte_len(head) + 1 == max,
        byte_len(head + tail) > max,
    ensures
        can_cut(head + tail, max),
        cut(head + tail, max) == head + "…"@,
{
    crate::text::law_prefix_of_a_text(head, tail);
}

/// A text that fits can be cut, and stays as it is.
pub proof fn law_what_fits_is_kept(text: Seq<char>, max: nat)
    requires
        byte_len(text) <= max,
    ensures
        can_cut(text, max),
        cut(text, max) == text,
{
}

/// Padding is as many spaces as a text lacks to the width.
pub proof fn law_padding(text: Seq<char>, width: nat)
    ensures
        text.len() < width ==> text.len() + padding(text, width).len() == width,
        text.len() >= width ==> padding(text, width).len() == 0,
        forall|i: int|
            0 <= i < padding(text, width).len() ==> #[trigger] padding(text, width)[i] == ' ',
{
}

/// The counts of a row stand on both sides of an arrow, the input before it and
/// padded before, the output after it and padded after.
pub proof fn law_token_texts(input: nat, output: nat)
    ensures
        ({
            let text = tokens_text(input, output);
            let left = padding(decimal(input), 5) + decimal(input);
            let right = decimal(output) + padding(decimal(output), 5);
            &&& text.len() == left.len() + 1 + right.len()
            &&& text.take(left.len() as int) == left
            &&& text[left.len() as int] == '→'
            &&& text.skip(left.len() as int + 1) == right
        }),
{
    reveal_strlit("→");
    let text = tokens_text(input, output);
    let left = padding(decimal(input), 5) + decimal(input);
    let right = decimal(output) + padding(decimal(output), 5);
    assert(text =~= left + seq!['→'] + right);
    assert(text.take(left.len() as int) =~= left);
    assert(text.skip(left.len() as int + 1) =~= right);
}

/// A duration is its milliseconds, padded before, and their unit.
pub proof fn law_duration_texts(duration_ms: nat)
    ensures
        ({
            let text = duration_text(duration_ms);
            let number = padding(decimal(duration_ms), 6) + decimal(duration_ms);
            &&& text.take(number.len() as int) == number
            &&& text.skip(number.len() as int) == "ms"@
        }),
{
    let text = duration_text(duration_ms);
    let number = padding(decimal(duration_ms), 6) + decimal(duration_ms);
    assert(text.take(number.len() as int) =~= number);
    assert(text.skip(number.len() as int) =~= "ms"@);
}

/// A row shows all of its entry, and tells whether the request was served; there are
/// at most 50 rows.
pub proof fn law_rows_show_everything(row: LogRow, log: RequestLog, logs: nat)
    requires
        shows(row, log),
    ensures
        row.timestamp@ == log.timestamp@,
        row.id@ == log.id@,
        row.tokens@ == tokens_text(log.input_tokens as nat, log.output_tokens as nat),
        row.duration@ == duration_text(log.duration_ms as nat),
        row.status@ == log.status@,
        row.served <==> log.status@ == "ok"@,
        row.model@ == cut(log.model_requested@, 30),
        logs <= 50 ==> row_count(logs) == logs,
        logs > 50 ==> row_count(logs) == 50,
{
}

/// The counters are the requests in full, and the input and the output in short, each
/// with its label.
pub proof fn law_counters(stats: Stats)
    ensures
        counters(stats).len() == 3,
        counters(stats)[0] == ("Requests"@, decimal(stats.total_requests as nat)),
        counters(stats)[1] == ("Input Tokens"@, formatted_tokens(stats.total_input_tokens as nat)),
        counters(stats)[2] == ("Output Tokens"@, formatted_tokens(stats.total_output_tokens as nat)),
{
}

/// The command line names the address, the port and the client.
pub proof fn law_client_commands(host: Seq<char>, port: nat, client: Seq<char>)
    ensures
        ({
            let text = client_command(host, port, client);
            let start = "ANTHROPIC_BASE_URL=http://"@;
            let end = ":"@ + decimal(port) + " "@ + client;
            &&& text.len() == start.len() + host.len() + end.len()
            &&& text.take(start.len() as int) == start
            &&& text.skip(start.len() as int).take(host.len() as int) == host
            &&& text.skip(text.len() - end.len()) == end
        }),
{
    let text = client_command(host, port, client);
    let start = "ANTHROPIC_BASE_URL=http://"@;
    let end = ":"@ + decimal(port) + " "@ + client;
    assert(text =~= start + host + end);
    assert(text.take(start.len() as int) =~= start);
    assert(text.skip(start.len() as int).take(host.len() as int) =~= host);
    assert(text.skip(text.len() - end.len()) =~= end);
}

} // verus!
