//! The request log and the counters shown with it.

use crate::error::{error_status, ProxyError};
use crate::text::{
    byte_len, byte_prefix, decimal, decimal_text, digit_char, law_decimal_reads_back,
    law_prefix_of_a_text, on_boundary, prefix_bytes,
};
use vstd::prelude::*;

verus! {

/// How many requests the log keeps.
pub const LOG_LIMIT: usize = 500;

/// Over how many seconds the request rate is kept.
pub const RATE_LIMIT: usize = 60;

/// A request that was answered.
pub struct RequestLog {
    pub id: String,
    pub timestamp: String,
    pub model_requested: String,
    pub status: String,
    pub input_tokens: usize,
    pub output_tokens: usize,
    pub duration_ms: u64,
}

/// The request log, the totals, and the requests of each of the last seconds.
pub struct Stats {
    pub logs: Vec<RequestLog>,
    pub total_requests: u64,
    pub total_input_tokens: u64,
    pub total_output_tokens: u64,
    pub rps_history: Vec<u64>,
}

/// What a log entry is.
#[verifier::ext_equal]
pub struct EntryView {
    pub id: Seq<char>,
    pub timestamp: Seq<char>,
    pub model: Seq<char>,
    pub status: Seq<char>,
    pub input_tokens: nat,
    pub output_tokens: nat,
    pub duration_ms: nat,
}

/// What the log and the counters are.
#[verifier::ext_equal]
pub struct StatsView {
    pub entries: Seq<EntryView>,
    pub requests: nat,
    pub input_tokens: nat,
    pub output_tokens: nat,
    pub rates: Seq<u64>,
}

impl View for RequestLog {
    type V = EntryView;

    open spec fn view(&self) -> EntryView {
        EntryView {
            id: self.id@,
            timestamp: self.timestamp@,
            model: self.model_requested@,
            status: self.status@,
            input_tokens: self.input_tokens as nat,
            output_tokens: self.output_tokens as nat,
            duration_ms: self.duration_ms as nat,
        }
    }
}

/// The views of a list of log entries.
pub open spec fn entries_of(logs: Seq<RequestLog>) -> Seq<EntryView> {
    logs.map_values(|l: RequestLog| l@)
}

impl View for Stats {
    type V = StatsView;

    open spec fn view(&self) -> StatsView {
        StatsView {
            entries: entries_of(self.logs@),
            requests: self.total_requests as nat,
            input_tokens: self.total_input_tokens as nat,
            output_tokens: self.total_output_tokens as nat,
            rates: self.rps_history@,
        }
    }
}

/// The last `n` elements, or all where there are fewer.
pub open spec fn last_n<T>(items: Seq<T>, n: nat) -> Seq<T> {
    if items.len() > n {
        items.skip(items.len() - n)
    } else {
        items
    }
}

/// The log and counters before any request was answered.
pub open spec fn no_stats() -> StatsView {
    StatsView {
        entries: seq![],
        requests: 0,
        input_tokens: 0,
        output_tokens: 0,
        rates: Seq::new(RATE_LIMIT as nat, |i: int| 0u64),
    }
}

/// Takes up an answered request: the log keeps the latest entries, the totals grow.
pub open spec fn recorded(stats: StatsView, entry: EntryView) -> StatsView {
    StatsView {
        entries: last_n(stats.entries.push(entry), LOG_LIMIT as nat),
        requests: stats.requests + 1,
        input_tokens: stats.input_tokens + entry.input_tokens,
        output_tokens: stats.output_tokens + entry.output_tokens,
        rates: stats.rates,
    }
}

/// The totals fit the machine.
pub open spec fn totals_fit(stats: StatsView) -> bool {
    &&& stats.requests <= u64::MAX
    &&& stats.input_tokens <= u64::MAX
    &&& stats.output_tokens <= u64::MAX
}

/// The two decimal digits of a number below one hundred.
pub open spec fn two_digits(n: nat) -> Seq<char> {
    seq![digit_char(n / 10), digit_char(n % 10)]
}

/// A time of day, as hours, minutes and seconds.
pub open spec fn clock_text(h: nat, m: nat, s: nat) -> Seq<char> {
    two_digits(h) + seq![':'] + two_digits(m) + seq![':'] + two_digits(s)
}

/// The text is a time of day.
pub open spec fn is_clock_text(text: Seq<char>) -> bool {
    exists|h: nat, m: nat, s: nat|
        h < 24 && m < 60 && s < 60 && text == #[trigger] clock_text(h, m, s)
}

/// `chrono::Utc::now`, formatted with `%H:%M:%S`: a time of day. Which one it is
/// depends on the clock. The call does not return where the clock stands before
/// the year 1970.
#[verifier::external_body]
fn utc_time_of_day() -> (text: String)
    ensures
        is_clock_text(text@),
{
    chrono::Utc::now().format("%H:%M:%S").to_string()
}

/// The log entry for a request that was answered at the time `timestamp`; of the
/// request's id it keeps the first eight bytes.
pub open spec fn entry_for(
    id: Seq<char>,
    timestamp: Seq<char>,
    model: Seq<char>,
    status: Seq<char>,
    input_tokens: nat,
    output_tokens: nat,
    duration_ms: nat,
) -> EntryView {
    EntryView {
        id: byte_prefix(id, 8),
        timestamp,
        model,
        status,
        input_tokens,
        output_tokens,
        duration_ms,
    }
}

impl Stats {
    /// The log and counters before any request was answered.
    pub fn new() -> (stats: Stats)
        ensures
            stats@ == no_stats(),
    {
        let mut rps_history: Vec<u64> = Vec::new();
        let mut i: usize = 0;
        while i < RATE_LIMIT
            invariant
                i <= RATE_LIMIT,
                rps_history@ == Seq::new(i as nat, |j: int| 0u64),
            decreases RATE_LIMIT - i,
        {
            rps_history.push(0);
            assert(rps_history@ =~= Seq::new((i + 1) as nat, |j: int| 0u64));
            i += 1;
        }
        let stats = Stats {
            logs: Vec::new(),
            total_requests: 0,
            total_input_tokens: 0,
            total_output_tokens: 0,
            rps_history,
        };
        assert(stats@.entries =~= seq![]);
        stats
    }

    /// Whether the totals can take a request with the given token counts.
    pub fn has_room(&self, input_tokens: usize, output_tokens: usize) -> (room: bool)
        ensures
            room == {
                &&& self@.requests + 1 <= u64::MAX
                &&& self@.input_tokens + input_tokens <= u64::MAX
                &&& self@.output_tokens + output_tokens <= u64::MAX
            },
    {
        self.total_requests < u64::MAX && input_tokens as u64 <= u64::MAX - self.total_input_tokens
            && output_tokens as u64 <= u64::MAX - self.total_output_tokens
    }

    /// Takes up an answered request.
    pub fn record(&mut self, log: RequestLog)
        requires
            totals_fit(recorded(old(self)@, log@)),
        ensures
            final(self)@ == recorded(old(self)@, log@),
    {
        let ghost before = self@;
        let ghost entry = log@;
        self.total_requests = self.total_requests + 1;
        self.total_input_tokens = self.total_input_tokens + log.input_tokens as u64;
        self.total_output_tokens = self.total_output_tokens + log.output_tokens as u64;
        self.logs.push(log);
        assert(entries_of(self.logs@) =~= before.entries.push(entry));
        let ghost all = self.logs@;
        let n = self.logs.len();
        if n > LOG_LIMIT {
            self.logs = self.logs.split_off(n - LOG_LIMIT);
            assert(entries_of(self.logs@) =~= entries_of(all).skip(n - LOG_LIMIT));
        }
        assert(self@ =~= recorded(before, entry));
    }

    /// Takes up a request that has just been answered.
    pub fn log_request(
        &mut self,
        id: &str,
        model: &str,
        status: &str,
        input_tokens: usize,
        output_tokens: usize,
        duration_ms: u64,
    )
        requires
            on_boundary(id@, 8),
            old(self)@.requests + 1 <= u64::MAX,
            old(self)@.input_tokens + input_tokens <= u64::MAX,
            old(self)@.output_tokens + output_tokens <= u64::MAX,
        ensures
            exists|timestamp: Seq<char>|
                is_clock_text(timestamp) && final(self)@ == recorded(
                    old(self)@,
                    #[trigger] entry_for(
                        id@,
                        timestamp,
                        model@,
                        status@,
                        input_tokens as nat,
                        output_tokens as nat,
                        duration_ms as nat,
                    ),
                ),
    {
        let timestamp = utc_time_of_day();
        let log = RequestLog {
            id: prefix_bytes(id, 8),
            timestamp,
            model_requested: model.to_owned(),
            status: status.to_owned(),
            input_tokens,
            output_tokens,
            duration_ms,
        };
        assert(log@ == entry_for(
            id@,
            timestamp@,
            model@,
            status@,
            input_tokens as nat,
            output_tokens as nat,
            duration_ms as nat,
        ));
        self.record(log);
    }

    /// Takes up a request that has just failed: its status is that of the answer, and
    /// it has no output.
    pub fn log_failure(
        &mut self,
        id: &str,
        model: &str,
        error: &ProxyError,
        input_tokens: usize,
        duration_ms: u64,
    )
        requires
            on_boundary(id@, 8),
            old(self)@.requests + 1 <= u64::MAX,
            old(self)@.input_tokens + input_tokens <= u64::MAX,
        ensures
            exists|timestamp: Seq<char>|
                is_clock_text(timestamp) && final(self)@ == recorded(
                    old(self)@,
                    #[trigger] entry_for(
                        id@,
                        timestamp,
                        model@,
                        decimal(error_status(*error) as nat),
                        input_tokens as nat,
                        0,
                        duration_ms as nat,
                    ),
                ),
    {
        let status = decimal_text(error.status() as u128);
        self.log_request(id, model, status.as_str(), input_tokens, 0, duration_ms);
    }

    /// Takes up that a second has passed since the total was `last_count`, and
    /// returns the total. The rate keeps the latest seconds.
    pub fn tick(&mut self, last_count: u64) -> (count: u64)
        requires
            last_count <= old(self).total_requests,
        ensures
            count == old(self).total_requests,
            final(self)@ == (StatsView {
                rates: last_n(
                    old(self)@.rates.push((old(self).total_requests - last_count) as u64),
                    RATE_LIMIT as nat,
                ),
                ..old(self)@
            }),
    {
        let count = self.total_requests;
        self.rps_history.push(count - last_count);
        let ghost all = self.rps_history@;
        let n = self.rps_history.len();
        if n > RATE_LIMIT {
            self.rps_history = self.rps_history.split_off(n - RATE_LIMIT);
            assert(self.rps_history@ =~= all.skip(n - RATE_LIMIT));
        }
        count
    }
}

/// The log and counters after requests were answered one after the other.
pub open spec fn recorded_all(entries: Seq<EntryView>) -> StatsView
    decreases entries.len(),
{
    if entries.len() == 0 {
        no_stats()
    } else {
        recorded(recorded_all(entries.drop_last()), entries.last())
    }
}

/// The input tokens of all requests.
pub open spec fn input_sum(entries: Seq<EntryView>) -> nat
    decreases entries.len(),
{
    if entries.len() == 0 {
        0
    } else {
        input_sum(entries.drop_last()) + entries.last().input_tokens
    }
}

/// The output tokens of all requests.
pub open spec fn output_sum(entries: Seq<EntryView>) -> nat
    decreases entries.len(),
{
    if entries.len() == 0 {
        0
    } else {
        output_sum(entries.drop_last()) + entries.last().output_tokens
    }
}

/// Whatever was answered, the log holds the last 500 requests in order, and the
/// totals count all of them.
pub proof fn law_log_and_totals(entries: Seq<EntryView>)
    ensures
        recorded_all(entries).entries == last_n(entries, LOG_LIMIT as nat),
        recorded_all(entries).entries.len() <= LOG_LIMIT,
        recorded_all(entries).requests == entries.len(),
        recorded_all(entries).input_tokens == input_sum(entries),
        recorded_all(entries).output_tokens == output_sum(entries),
    decreases entries.len(),
{
    if entries.len() > 0 {
        let before = entries.drop_last();
        law_log_and_totals(before);
        assert(before.push(entries.last()) =~= entries);
        assert(last_n(last_n(before, LOG_LIMIT as nat).push(entries.last()), LOG_LIMIT as nat) =~= last_n(entries, LOG_LIMIT as nat));
    } else {
        assert(last_n(entries, LOG_LIMIT as nat) =~= seq![]);
    }
}

/// The rate never covers more than 60 seconds; once it covers that many, each new
/// second takes the place of the oldest.
pub proof fn law_rate_is_bounded(rates: Seq<u64>, rate: u64)
    ensures
        rates.len() == RATE_LIMIT ==> last_n(rates.push(rate), RATE_LIMIT as nat) == rates.skip(
            1,
        ).push(rate),
        last_n(rates.push(rate), RATE_LIMIT as nat).len() <= RATE_LIMIT,
        last_n(rates.push(rate), RATE_LIMIT as nat).last() == rate,
{
    if rates.len() == RATE_LIMIT {
        assert(last_n(rates.push(rate), RATE_LIMIT as nat) =~= rates.skip(1).push(rate));
    }
}

/// The rates after further seconds, one after the other.
pub open spec fn ticked_all(rates: Seq<u64>, further: Seq<u64>) -> Seq<u64>
    decreases further.len(),
{
    if further.len() == 0 {
        rates
    } else {
        last_n(
            ticked_all(rates, further.drop_last()).push(further.last()),
            RATE_LIMIT as nat,
        )
    }
}

/// However many seconds pass, the rate holds the last 60 of them, in order.
pub proof fn law_rate_is_a_window(rates: Seq<u64>, further: Seq<u64>)
    requires
        rates.len() <= RATE_LIMIT,
    ensures
        ticked_all(rates, further) == last_n(rates + further, RATE_LIMIT as nat),
    decreases further.len(),
{
    let limit = RATE_LIMIT as nat;
    if further.len() == 0 {
        assert(rates + further =~= rates);
    } else {
        let before = rates + further.drop_last();
        law_rate_is_a_window(rates, further.drop_last());
        assert(rates + further =~= before.push(further.last()));
        assert(last_n(last_n(before, limit).push(further.last()), limit) =~= last_n(
            rates + further,
            limit,
        ));
    }
}

/// A failed request is logged as one that was not served: its status is not `ok`.
pub proof fn law_failures_show(error: ProxyError)
    ensures
        decimal(error_status(error) as nat) != "ok"@,
{
    reveal_strlit("ok");
    law_decimal_reads_back(error_status(error) as nat, 65535);
    if decimal(error_status(error) as nat) == "ok"@ {
        assert("ok"@.last() == 'k');
    }
}

/// The last `n` of a list are its elements from the end, all of them where there
/// are no more than `n`.
pub proof fn law_last_elements<T>(items: Seq<T>, n: nat)
    ensures
        items.len() <= n ==> last_n(items, n).len() == items.len(),
        items.len() > n ==> last_n(items, n).len() == n,
        forall|i: int|
            0 <= i < last_n(items, n).len() ==> #[trigger] last_n(items, n)[i] == items[items.len()
                - last_n(items, n).len() + i],
{
}

/// A request adds one entry to the log, with all that it holds, one to the requests,
/// and its tokens to the totals; the rate stays as it is.
pub proof fn law_requests_count(stats: StatsView, entry: EntryView)
    requires
        stats.entries.len() <= LOG_LIMIT,
    ensures
        ({
            let after = recorded(stats, entry);
            &&& after.requests == stats.requests + 1
            &&& after.input_tokens == stats.input_tokens + entry.input_tokens
            &&& after.output_tokens == stats.output_tokens + entry.output_tokens
            &&& after.rates == stats.rates
            &&& after.entries.len() > 0 && after.entries.last() == entry
            &&& stats.entries.len() < 500 ==> after.entries.drop_last() == stats.entries
            &&& stats.entries.len() == 500 ==> after.entries.drop_last() == stats.entries.skip(1)
        }),
{
    let after = recorded(stats, entry);
    if stats.entries.len() < LOG_LIMIT {
        assert(after.entries.drop_last() =~= stats.entries);
    } else {
        assert(after.entries.drop_last() =~= stats.entries.skip(1));
    }
}

/// At first there are no entries, the totals are zero, and there were no requests in
/// any of the last 60 seconds.
pub proof fn law_nothing_at_first()
    ensures
        no_stats().entries.len() == 0,
        no_stats().requests == 0,
        no_stats().input_tokens == 0,
        no_stats().output_tokens == 0,
        no_stats().rates.len() == 60,
        forall|i: int| 0 <= i < 60 ==> #[trigger] no_stats().rates[i] == 0,
{
}

/// An entry keeps the first eight bytes of the id, whatever follows them, and all
/// else that it is made of.
pub proof fn law_entries_keep_everything(
    head: Seq<char>,
    tail: Seq<char>,
    timestamp: Seq<char>,
    model: Seq<char>,
    status: Seq<char>,
    input_tokens: nat,
    output_tokens: nat,
    duration_ms: nat,
)
    requires
        byte_len(head) == 8,
    ensures
        ({
            let entry = entry_for(
                head + tail,
                timestamp,
                model,
                status,
                input_tokens,
                output_tokens,
                duration_ms,
            );
            &&& entry.id == head
            &&& entry.timestamp == timestamp
            &&& entry.model == model
            &&& entry.status == status
            &&& entry.input_tokens == input_tokens
            &&& entry.output_tokens == output_tokens
            &&& entry.duration_ms == duration_ms
        }),
{
    law_prefix_of_a_text(head, tail);
}

/// A time of day has two digits each for the hour, the minute and the second.
pub proof fn law_clock_texts(h: nat, m: nat, s: nat)
    requires
        h < 24,
        m < 60,
        s < 60,
    ensures
        is_clock_text(clock_text(h, m, s)),
        clock_text(h, m, s).len() == 8,
        clock_text(h, m, s)[2] == ':',
        clock_text(h, m, s)[5] == ':',
        ({
            let text = clock_text(h, m, s);
            let digit = |i: int| text[i] as int - '0' as int;
            &&& digit(0) * 10 + digit(1) == h
            &&& digit(3) * 10 + digit(4) == m
            &&& digit(6) * 10 + digit(7) == s
        }),
{
}

} // verus!
