//! Metrics of the gateway, in the Prometheus text format 0.0.4.
//!
//! - `gateway_requests_total{route,model_alias,provider,status_code}`: counter
//! - `gateway_request_duration_seconds{route,model_alias}`: sum and count
//! - `gateway_providers_configured`: gauge
//! - `gateway_uptime_seconds`: gauge
use crate::clock;
use crate::double::{
    distance, few_bits_are_exact, half_even, half_even_is_close, half_even_keeps_order,
    half_even_of_multiples, half_even_of_near, half_even_of_sum, nearest, nearest_is_close,
    nearest_keeps_order, nearest_multiple, round_half_even, round_to_nearest,
    rounding_takes_the_fitting_unit, small_numbers_are_exact,
};
use crate::table::{
    ascending, holds_at, items_map, lemma_item_in_map, same_content_same_order, Table, TableKey,
};
use crate::text::{
    chars_of, decimal, last_digits, push_decimal, push_last_digits, text_before, text_precedes,
    text_precedes_irreflexive, text_precedes_total, text_precedes_transitive,
};
use vstd::arithmetic::power2::{
    lemma2_to64, lemma2_to64_rest, lemma_pow2_adds, lemma_pow2_pos, pow2,
};
use vstd::prelude::*;

verus! {

/// Labels of a request.
#[derive(Debug, Clone, PartialEq, Eq, Hash)]
pub struct RequestLabels {
    pub route: String,
    pub model_alias: String,
    pub provider: String,
    pub status_code: u16,
}

/// Labels of a duration.
#[derive(Debug, Clone, PartialEq, Eq, Hash)]
pub struct DurationLabels {
    pub route: String,
    pub model_alias: String,
}

/// Route, alias, provider and status of a request.
pub type RequestKey = (Seq<char>, Seq<char>, Seq<char>, u16);

/// Route and alias of a duration.
pub type DurationKey = (Seq<char>, Seq<char>);

impl View for RequestLabels {
    type V = RequestKey;

    open spec fn view(&self) -> RequestKey {
        (self.route@, self.model_alias@, self.provider@, self.status_code)
    }
}

impl View for DurationLabels {
    type V = DurationKey;

    open spec fn view(&self) -> DurationKey {
        (self.route@, self.model_alias@)
    }
}

impl TableKey for RequestLabels {
    open spec fn precedes(a: RequestKey, b: RequestKey) -> bool {
        ||| text_precedes(a.0, b.0)
        ||| a.0 == b.0 && text_precedes(a.1, b.1)
        ||| a.0 == b.0 && a.1 == b.1 && text_precedes(a.2, b.2)
        ||| a.0 == b.0 && a.1 == b.1 && a.2 == b.2 && a.3 < b.3
    }

    proof fn precedes_irreflexive(a: RequestKey) {
        text_precedes_irreflexive(a.0);
        text_precedes_irreflexive(a.1);
        text_precedes_irreflexive(a.2);
    }

    proof fn precedes_transitive(a: RequestKey, b: RequestKey, c: RequestKey) {
        if text_precedes(a.0, b.0) && text_precedes(b.0, c.0) {
            text_precedes_transitive(a.0, b.0, c.0);
        }
        if text_precedes(a.1, b.1) && text_precedes(b.1, c.1) {
            text_precedes_transitive(a.1, b.1, c.1);
        }
        if text_precedes(a.2, b.2) && text_precedes(b.2, c.2) {
            text_precedes_transitive(a.2, b.2, c.2);
        }
    }

    proof fn precedes_total(a: RequestKey, b: RequestKey) {
        text_precedes_total(a.0, b.0);
        text_precedes_total(a.1, b.1);
        text_precedes_total(a.2, b.2);
    }

    fn before(&self, other: &RequestLabels) -> (r: bool) {
        proof {
            text_precedes_irreflexive(self.route@);
            text_precedes_irreflexive(self.model_alias@);
            text_precedes_irreflexive(self.provider@);
        }
        if self.route != other.route {
            text_before(self.route.as_str(), other.route.as_str())
        } else if self.model_alias != other.model_alias {
            text_before(self.model_alias.as_str(), other.model_alias.as_str())
        } else if self.provider != other.provider {
            text_before(self.provider.as_str(), other.provider.as_str())
        } else {
            self.status_code < other.status_code
        }
    }
}

impl TableKey for DurationLabels {
    open spec fn precedes(a: DurationKey, b: DurationKey) -> bool {
        ||| text_precedes(a.0, b.0)
        ||| a.0 == b.0 && text_precedes(a.1, b.1)
    }

    proof fn precedes_irreflexive(a: DurationKey) {
        text_precedes_irreflexive(a.0);
        text_precedes_irreflexive(a.1);
    }

    proof fn precedes_transitive(a: DurationKey, b: DurationKey, c: DurationKey) {
        if text_precedes(a.0, b.0) && text_precedes(b.0, c.0) {
            text_precedes_transitive(a.0, b.0, c.0);
        }
        if text_precedes(a.1, b.1) && text_precedes(b.1, c.1) {
            text_precedes_transitive(a.1, b.1, c.1);
        }
    }

    proof fn precedes_total(a: DurationKey, b: DurationKey) {
        text_precedes_total(a.0, b.0);
        text_precedes_total(a.1, b.1);
    }

    fn before(&self, other: &DurationLabels) -> (r: bool) {
        proof {
            text_precedes_irreflexive(self.route@);
            text_precedes_irreflexive(self.model_alias@);
        }
        if self.route != other.route {
            text_before(self.route.as_str(), other.route.as_str())
        } else {
            text_before(self.model_alias.as_str(), other.model_alias.as_str())
        }
    }
}

/// Sum and number of the durations seen for some labels.
#[derive(Debug, Clone, Copy)]
pub struct DurationStat {
    pub sum_ms: u64,
    pub count: u64,
}

/// The metrics of one gateway.
pub struct Metrics {
    requests_total: Table<RequestLabels, u64>,
    durations: Table<DurationLabels, DurationStat>,
    providers_configured: u64,
    started: std::time::Instant,
}

/// The counter of some labels; 0 where there is none.
pub open spec fn count_of(m: Map<RequestKey, u64>, key: RequestKey) -> int {
    if m.contains_key(key) {
        m[key] as int
    } else {
        0
    }
}

/// Sum and number of the durations of some labels; 0 where there are none.
pub open spec fn stat_of(m: Map<DurationKey, DurationStat>, key: DurationKey) -> DurationStat {
    if m.contains_key(key) {
        m[key]
    } else {
        DurationStat { sum_ms: 0, count: 0 }
    }
}

/// The milliseconds that a latency adds to a sum: its lowest 64 bits.
pub open spec fn added_ms(latency_ms: u128) -> int {
    latency_ms as int % 0x1_0000_0000_0000_0000
}

/// The counters after one more request.
pub open spec fn counted(m: Map<RequestKey, u64>, key: RequestKey) -> Map<RequestKey, u64> {
    m.insert(key, (count_of(m, key) + 1) as u64)
}

/// The durations after one more.
pub open spec fn timed(
    m: Map<DurationKey, DurationStat>,
    key: DurationKey,
    latency_ms: Option<u128>,
) -> Map<DurationKey, DurationStat> {
    match latency_ms {
        Some(ms) => m.insert(
            key,
            DurationStat {
                sum_ms: (stat_of(m, key).sum_ms + added_ms(ms)) as u64,
                count: (stat_of(m, key).count + 1) as u64,
            },
        ),
        None => m,
    }
}

/// Neither counters nor durations overflow with one more request.
pub open spec fn room_for(
    requests: Map<RequestKey, u64>,
    durations: Map<DurationKey, DurationStat>,
    key: RequestKey,
    latency_ms: Option<u128>,
) -> bool {
    &&& count_of(requests, key) < u64::MAX
    &&& latency_ms matches Some(ms) ==> {
        &&& stat_of(durations, (key.0, key.1)).count < u64::MAX
        &&& stat_of(durations, (key.0, key.1)).sum_ms + added_ms(ms) <= u64::MAX
    }
}

impl Metrics {
    /// The counters of the requests.
    pub closed spec fn requests(&self) -> Table<RequestLabels, u64> {
        self.requests_total
    }

    /// The durations.
    pub closed spec fn latencies(&self) -> Table<DurationLabels, DurationStat> {
        self.durations
    }

    /// The number of providers.
    pub closed spec fn providers(&self) -> u64 {
        self.providers_configured
    }

    /// When the gateway started.
    pub closed spec fn start(&self) -> std::time::Instant {
        self.started
    }

    /// Metrics without any request.
    pub fn new(providers_configured: usize) -> (r: Self)
        ensures
            r.requests()@ == Map::<RequestKey, u64>::empty(),
            r.latencies()@ == Map::<DurationKey, DurationStat>::empty(),
            r.providers() == providers_configured,
    {
        Metrics {
            requests_total: Table::new(),
            durations: Table::new(),
            providers_configured: providers_configured as u64,
            started: clock::now(),
        }
    }

    /// The counter of some labels; 0 where there is none.
    fn request_count(&self, labels: &RequestLabels) -> (r: u64)
        ensures
            r == count_of(self.requests()@, labels@),
    {
        match self.requests_total.get(labels) {
            Some(n) => *n,
            None => 0,
        }
    }

    /// Sum and number of the durations of some labels; 0 where there are none.
    fn duration_stat(&self, labels: &DurationLabels) -> (r: DurationStat)
        ensures
            r == stat_of(self.latencies()@, labels@),
    {
        match self.durations.get(labels) {
            Some(stat) => *stat,
            None => DurationStat { sum_ms: 0, count: 0 },
        }
    }

    /// Tells whether one more such request can be recorded without an overflow.
    pub fn can_record(
        &self,
        route: &str,
        model_alias: &str,
        provider: &str,
        status_code: u16,
        latency_ms: Option<u128>,
    ) -> (r: bool)
        ensures
            r == room_for(
                self.requests()@,
                self.latencies()@,
                (route@, model_alias@, provider@, status_code),
                latency_ms,
            ),
    {
        let labels = RequestLabels {
            route: route.to_owned(),
            model_alias: model_alias.to_owned(),
            provider: provider.to_owned(),
            status_code,
        };
        if self.request_count(&labels) == u64::MAX {
            return false;
        }
        match latency_ms {
            Some(full_ms) => {
                let ms: u64 = (full_ms % 0x1_0000_0000_0000_0000) as u64;
                let stat = self.duration_stat(
                    &DurationLabels {
                        route: route.to_owned(),
                        model_alias: model_alias.to_owned(),
                    },
                );
                stat.count < u64::MAX && stat.sum_ms <= u64::MAX - ms
            },
            None => true,
        }
    }

    /// Counts a request, and its latency in milliseconds where it is given.
    pub fn record_request(
        &mut self,
        route: &str,
        model_alias: &str,
        provider: &str,
        status_code: u16,
        latency_ms: Option<u128>,
    )
        requires
            room_for(
                old(self).requests()@,
                old(self).latencies()@,
                (route@, model_alias@, provider@, status_code),
                latency_ms,
            ),
        ensures
            final(self).requests()@ == counted(
                old(self).requests()@,
                (route@, model_alias@, provider@, status_code),
            ),
            final(self).latencies()@ == timed(
                old(self).latencies()@,
                (route@, model_alias@),
                latency_ms,
            ),
            final(self).providers() == old(self).providers(),
            final(self).start() == old(self).start(),
    {
        let labels = RequestLabels {
            route: route.to_owned(),
            model_alias: model_alias.to_owned(),
            provider: provider.to_owned(),
            status_code,
        };
        let n: u64 = self.request_count(&labels);
        self.requests_total.insert(labels, n + 1);
        if let Some(full_ms) = latency_ms {
            let key = DurationLabels {
                route: route.to_owned(),
                model_alias: model_alias.to_owned(),
            };
            let ms: u64 = (full_ms % 0x1_0000_0000_0000_0000) as u64;
            let stat = self.duration_stat(&key);
            self.durations.insert(
                key,
                DurationStat { sum_ms: stat.sum_ms + ms, count: stat.count + 1 },
            );
        }
    }
}

// ---------------------------------------------------------------------------
// Export
// ---------------------------------------------------------------------------

/// A character of a label value, escaped.
pub open spec fn escaped_char(c: char) -> Seq<char> {
    if c == '\\' {
        seq!['\\', '\\']
    } else if c == '"' {
        seq!['\\', '"']
    } else {
        seq![c]
    }
}

/// A label value with its backslashes and double quotes escaped.
pub open spec fn escaped(s: Seq<char>) -> Seq<char>
    decreases s.len(),
{
    if s.len() == 0 {
        Seq::empty()
    } else {
        escaped(s.drop_last()) + escaped_char(s.last())
    }
}

/// Escapes the backslashes and double quotes of a label value.
pub fn escape_label(s: &str) -> (r: String)
    ensures
        r@ == escaped(s@),
{
    let chars = chars_of(s);
    let mut out = String::new();
    let mut i: usize = 0;
    assert(s@.take(0) =~= Seq::<char>::empty());
    while i < chars.len()
        invariant
            chars@ == s@,
            i <= chars.len(),
            out@ == escaped(s@.take(i as int)),
        decreases chars.len() - i,
    {
        let c: char = chars[i];
        let ghost done = out@;
        if c == '\\' || c == '"' {
            out.push('\\');
        }
        out.push(c);
        assert(s@.take(i + 1).drop_last() =~= s@.take(i as int));
        assert(out@ =~= done + escaped_char(c));
        i = i + 1;
    }
    assert(s@.take(i as int) =~= s@);
    out
}

/// Seconds with three decimals, of a number of milliseconds.
pub open spec fn seconds_text(ms: nat) -> Seq<char> {
    decimal(ms / 1000) + "."@ + last_digits(ms % 1000, 3)
}

/// Seconds with six decimals, of a number of microseconds.
pub open spec fn fine_seconds_text(micros: nat) -> Seq<char> {
    decimal(micros / 1_000_000) + "."@ + last_digits(micros % 1_000_000, 6)
}

/// The line of a counter.
pub open spec fn request_line(key: RequestKey, count: u64) -> Seq<char> {
    "gateway_requests_total{route=\""@ + escaped(key.0) + "\",model_alias=\""@ + escaped(key.1)
        + "\",provider=\""@ + escaped(key.2) + "\",status_code=\""@ + decimal(key.3 as nat)
        + "\"} "@ + decimal(count as nat) + "\n"@
}

/// The lines of the durations of some labels.
pub open spec fn duration_lines_of(key: DurationKey, stat: DurationStat) -> Seq<char> {
    "gateway_request_duration_seconds_sum{route=\""@ + escaped(key.0) + "\",model_alias=\""@
        + escaped(key.1) + "\"} "@ + fine_seconds_text(shown_micros(stat.sum_ms as nat)) + "\n"@
        + "gateway_request_duration_seconds_count{route=\""@ + escaped(key.0)
        + "\",model_alias=\""@ + escaped(key.1) + "\"} "@ + decimal(stat.count as nat) + "\n"@
}

/// The lines of the entries of a table, one after the other.
pub open spec fn lines_of<K: TableKey, V>(
    items: Seq<(K, V)>,
    line: spec_fn(K::V, V) -> Seq<char>,
) -> Seq<char>
    decreases items.len(),
{
    if items.len() == 0 {
        Seq::empty()
    } else {
        lines_of(items.drop_last(), line) + line(items.last().0@, items.last().1)
    }
}

/// The lines of the counters.
pub open spec fn request_lines(items: Seq<(RequestLabels, u64)>) -> Seq<char> {
    lines_of(items, |key: RequestKey, count: u64| request_line(key, count))
}

/// The lines of the durations.
pub open spec fn duration_lines(items: Seq<(DurationLabels, DurationStat)>) -> Seq<char> {
    lines_of(items, |key: DurationKey, stat: DurationStat| duration_lines_of(key, stat))
}

/// 2 to the 82: an uptime is held in seconds, as a multiple of its inverse.
pub const UPTIME_SCALE: u128 = 0x4_0000_0000_0000_0000_0000;

/// 2 to the 62: a sum is held in seconds, as a multiple of its inverse.
pub const SUM_SCALE: u128 = 0x4000_0000_0000_0000;

/// The milliseconds that are shown of an uptime. Its seconds are a double-precision
/// number: the whole seconds and the quotient of the nanoseconds.
pub open spec fn shown_ms(nanos: nat) -> nat {
    let part = nearest((nanos % 1_000_000_000) * UPTIME_SCALE as nat, 1_000_000_000);
    let seconds = nearest(nanos / 1_000_000_000 * UPTIME_SCALE as nat + part, 1);
    half_even(seconds * 1000, UPTIME_SCALE as nat)
}

/// The microseconds that are shown of a sum. Its seconds are a double-precision
/// number: the quotient of the milliseconds.
pub open spec fn shown_micros(ms: nat) -> nat {
    let seconds = nearest(nearest(ms, 1) * SUM_SCALE as nat, 1000);
    half_even(seconds * 1_000_000, SUM_SCALE as nat)
}

/// The export up to the uptime.
pub open spec fn export_head(
    requests: Seq<(RequestLabels, u64)>,
    durations: Seq<(DurationLabels, DurationStat)>,
    providers: u64,
) -> Seq<char> {
    "# HELP gateway_requests_total Nombre total de requetes traitees par le gateway.\n"@
        + "# TYPE gateway_requests_total counter\n"@ + request_lines(requests)
        + "# HELP gateway_request_duration_seconds Duree des requetes en secondes.\n"@
        + "# TYPE gateway_request_duration_seconds summary\n"@ + duration_lines(durations)
        + "# HELP gateway_providers_configured Nombre de providers configures au demarrage.\n"@
        + "# TYPE gateway_providers_configured gauge\n"@ + "gateway_providers_configured "@
        + decimal(providers as nat) + "\n"@
        + "# HELP gateway_uptime_seconds Duree de vie du gateway en secondes.\n"@
        + "# TYPE gateway_uptime_seconds gauge\n"@ + "gateway_uptime_seconds "@
}

/// The export.
pub open spec fn export_text(
    requests: Seq<(RequestLabels, u64)>,
    durations: Seq<(DurationLabels, DurationStat)>,
    providers: u64,
    uptime_nanos: u64,
) -> Seq<char> {
    export_head(requests, durations, providers) + seconds_text(shown_ms(uptime_nanos as nat))
        + "\n"@
}

/// Appends seconds with three decimals.
fn push_seconds(out: &mut String, ms: u64)
    ensures
        final(out)@ == old(out)@ + seconds_text(ms as nat),
{
    push_decimal(out, ms / 1000);
    out.append(".");
    push_last_digits(out, ms % 1000, 3);
    assert(out@ =~= old(out)@ + seconds_text(ms as nat));
}

/// Appends a sum of milliseconds, in seconds with six decimals.
fn push_sum(out: &mut String, ms: u64)
    ensures
        final(out)@ == old(out)@ + fine_seconds_text(shown_micros(ms as nat)),
{
    let whole_ms: u128 = round_to_nearest(ms as u128, 1);
    let seconds: u128 = round_to_nearest(whole_ms * SUM_SCALE, 1000);
    let whole: u128 = seconds / SUM_SCALE;
    let rest: u128 = seconds % SUM_SCALE;
    let part: u128 = round_half_even(rest * 1_000_000, SUM_SCALE);
    let micros: u128 = whole * 1_000_000 + part;
    proof {
        half_even_of_sum((whole * 1_000_000) as nat, (rest * 1_000_000) as nat, SUM_SCALE as nat);
        assert(seconds * 1_000_000 == whole * 1_000_000 * SUM_SCALE + rest * 1_000_000);
    }
    push_decimal(out, (micros / 1_000_000) as u64);
    out.append(".");
    push_last_digits(out, (micros % 1_000_000) as u64, 6);
    assert(out@ =~= old(out)@ + fine_seconds_text(micros as nat));
}

/// The milliseconds that are shown of an uptime.
fn uptime_ms(nanos: u64) -> (r: u64)
    ensures
        r == shown_ms(nanos as nat),
{
    let part: u128 = round_to_nearest(
        (nanos % 1_000_000_000) as u128 * UPTIME_SCALE,
        1_000_000_000,
    );
    let seconds: u128 = round_to_nearest(
        (nanos / 1_000_000_000) as u128 * UPTIME_SCALE + part,
        1,
    );
    round_half_even(seconds * 1000, UPTIME_SCALE) as u64
}

/// Appends the line of a counter.
fn push_request_line(out: &mut String, labels: &RequestLabels, count: u64)
    ensures
        final(out)@ == old(out)@ + request_line(labels@, count),
{
    out.append("gateway_requests_total{route=\"");
    out.append(escape_label(labels.route.as_str()).as_str());
    out.append("\",model_alias=\"");
    out.append(escape_label(labels.model_alias.as_str()).as_str());
    out.append("\",provider=\"");
    out.append(escape_label(labels.provider.as_str()).as_str());
    out.append("\",status_code=\"");
    push_decimal(out, labels.status_code as u64);
    out.append("\"} ");
    push_decimal(out, count);
    out.append("\n");
    assert(out@ =~= old(out)@ + request_line(labels@, count));
}

/// Appends the lines of the durations of some labels.
fn push_duration_lines(out: &mut String, labels: &DurationLabels, stat: DurationStat)
    ensures
        final(out)@ == old(out)@ + duration_lines_of(labels@, stat),
{
    let route = escape_label(labels.route.as_str());
    let alias = escape_label(labels.model_alias.as_str());
    out.append("gateway_request_duration_seconds_sum{route=\"");
    out.append(route.as_str());
    out.append("\",model_alias=\"");
    out.append(alias.as_str());
    out.append("\"} ");
    push_sum(out, stat.sum_ms);
    out.append("\n");
    out.append("gateway_request_duration_seconds_count{route=\"");
    out.append(route.as_str());
    out.append("\",model_alias=\"");
    out.append(alias.as_str());
    out.append("\"} ");
    push_decimal(out, stat.count);
    out.append("\n");
    assert(out@ =~= old(out)@ + duration_lines_of(labels@, stat));
}

impl Metrics {
    /// The export when the gateway has run for `uptime_nanos`.
    pub fn render_at(&self, uptime_nanos: u64) -> (r: String)
        ensures
            r@ == export_text(
                self.requests().items(),
                self.latencies().items(),
                self.providers(),
                uptime_nanos,
            ),
            ascending(self.requests().items()),
            ascending(self.latencies().items()),
    {
        let mut out = String::new();
        out.append(
            "# HELP gateway_requests_total Nombre total de requetes traitees par le gateway.\n",
        );
        out.append("# TYPE gateway_requests_total counter\n");
        let ghost head = out@;
        let ghost requests = self.requests().items();
        let n: usize = self.requests_total.len();
        let mut i: usize = 0;
        assert(requests.take(0) =~= Seq::empty());
        while i < n
            invariant
                i <= n,
                requests == self.requests_total.items(),
                n == requests.len(),
                out@ == head + request_lines(requests.take(i as int)),
            decreases n - i,
        {
            push_request_line(
                &mut out,
                self.requests_total.key_at(i),
                *self.requests_total.value_at(i),
            );
            assert(requests.take(i + 1).drop_last() =~= requests.take(i as int));
            assert(out@ =~= head + request_lines(requests.take(i + 1)));
            i = i + 1;
        }
        assert(requests.take(n as int) =~= requests);
        out.append("# HELP gateway_request_duration_seconds Duree des requetes en secondes.\n");
        out.append("# TYPE gateway_request_duration_seconds summary\n");
        let ghost middle = out@;
        let ghost durations = self.latencies().items();
        let k: usize = self.durations.len();
        let mut j: usize = 0;
        assert(durations.take(0) =~= Seq::empty());
        while j < k
            invariant
                j <= k,
                durations == self.durations.items(),
                k == durations.len(),
                out@ == middle + duration_lines(durations.take(j as int)),
            decreases k - j,
        {
            push_duration_lines(&mut out, self.durations.key_at(j), *self.durations.value_at(j));
            assert(durations.take(j + 1).drop_last() =~= durations.take(j as int));
            assert(out@ =~= middle + duration_lines(durations.take(j + 1)));
            j = j + 1;
        }
        assert(durations.take(k as int) =~= durations);
        out.append(
            "# HELP gateway_providers_configured Nombre de providers configures au demarrage.\n",
        );
        out.append("# TYPE gateway_providers_configured gauge\n");
        out.append("gateway_providers_configured ");
        push_decimal(&mut out, self.providers_configured);
        out.append("\n");
        out.append("# HELP gateway_uptime_seconds Duree de vie du gateway en secondes.\n");
        out.append("# TYPE gateway_uptime_seconds gauge\n");
        out.append("gateway_uptime_seconds ");
        push_seconds(&mut out, uptime_ms(uptime_nanos));
        out.append("\n");
        assert(out@ =~= export_text(requests, durations, self.providers(), uptime_nanos));
        out
    }

    /// The export at this moment.
    pub fn render(&self) -> (r: String)
        ensures
            exists|uptime_nanos: u64|
                r@ == #[trigger] export_text(
                    self.requests().items(),
                    self.latencies().items(),
                    self.providers(),
                    uptime_nanos,
                ),
            ascending(self.requests().items()),
            ascending(self.latencies().items()),
    {
        self.render_at(clock::nanos_since(&self.started))
    }
}

// ---------------------------------------------------------------------------
// Laws
// ---------------------------------------------------------------------------

/// Escaping keeps label values apart: two values that are escaped alike are the
/// same.
pub proof fn escaping_is_injective(a: Seq<char>, b: Seq<char>)
    requires
        escaped(a) == escaped(b),
    ensures
        a == b,
    decreases a.len(),
{
    if a.len() == 0 || b.len() == 0 {
        assert(a.len() > 0 ==> escaped(a).len() > 0);
        assert(b.len() > 0 ==> escaped(b).len() > 0);
        assert(a =~= b);
    } else {
        let (x, y) = (escaped_char(a.last()), escaped_char(b.last()));
        let (p, q) = (escaped(a.drop_last()), escaped(b.drop_last()));
        assert((p + x).last() == a.last());
        assert((q + y).last() == b.last());
        assert(a.last() == b.last());
        assert(p =~= (p + x).take(p.len() as int));
        assert(q =~= (q + y).take(q.len() as int));
        escaping_is_injective(a.drop_last(), b.drop_last());
        assert(a =~= a.drop_last().push(a.last()));
        assert(b =~= b.drop_last().push(b.last()));
    }
}

/// The export depends on what was counted alone, not on the order in which it
/// came.
pub proof fn export_depends_on_content(
    r1: Seq<(RequestLabels, u64)>,
    r2: Seq<(RequestLabels, u64)>,
    d1: Seq<(DurationLabels, DurationStat)>,
    d2: Seq<(DurationLabels, DurationStat)>,
    providers: u64,
    uptime_nanos: u64,
)
    requires
        ascending(r1),
        ascending(r2),
        ascending(d1),
        ascending(d2),
        items_map(r1) == items_map(r2),
        items_map(d1) == items_map(d2),
    ensures
        export_text(r1, d1, providers, uptime_nanos) == export_text(
            r2,
            d2,
            providers,
            uptime_nanos,
        ),
{
    same_content_same_order(r1, r2);
    same_content_same_order(d1, d2);
    lemma_same_lines(r1, r2, |key: RequestKey, count: u64| request_line(key, count));
    lemma_same_lines(d1, d2, |key: DurationKey, stat: DurationStat| duration_lines_of(key, stat));
}

/// Equal entries give equal lines.
proof fn lemma_same_lines<K: TableKey, V>(
    a: Seq<(K, V)>,
    b: Seq<(K, V)>,
    line: spec_fn(K::V, V) -> Seq<char>,
)
    requires
        a.len() == b.len(),
        forall|i: int|
            #![trigger a[i]]
            0 <= i < a.len() ==> a[i].0@ == b[i].0@ && a[i].1 == b[i].1,
    ensures
        lines_of(a, line) == lines_of(b, line),
    decreases a.len(),
{
    if a.len() > 0 {
        assert forall|i: int| #![trigger a.drop_last()[i]] 0 <= i < a.len() - 1 implies (
        a.drop_last()[i].0@ == b.drop_last()[i].0@ && a.drop_last()[i].1 == b.drop_last()[i].1) by {
            assert(a[i].0@ == b[i].0@);
        }
        lemma_same_lines(a.drop_last(), b.drop_last(), line);
        assert(a[a.len() - 1].0@ == b[b.len() - 1].0@);
    }
}

/// Two exports of unchanged metrics differ in the uptime alone, and the later one
/// does not show a shorter uptime.
pub proof fn exports_differ_in_uptime_alone(
    requests: Seq<(RequestLabels, u64)>,
    durations: Seq<(DurationLabels, DurationStat)>,
    providers: u64,
    earlier: u64,
    later: u64,
)
    requires
        earlier <= later,
    ensures
        export_text(requests, durations, providers, earlier) == export_head(
            requests,
            durations,
            providers,
        ) + seconds_text(shown_ms(earlier as nat)) + "\n"@,
        export_text(requests, durations, providers, later) == export_head(
            requests,
            durations,
            providers,
        ) + seconds_text(shown_ms(later as nat)) + "\n"@,
        shown_ms(earlier as nat) <= shown_ms(later as nat),
{
    let billion: nat = 1_000_000_000;
    let scale = UPTIME_SCALE as nat;
    let (s1, s2) = (earlier as nat / billion, later as nat / billion);
    let (p1, p2) = (
        nearest((earlier as nat % billion) * scale, billion),
        nearest((later as nat % billion) * scale, billion),
    );
    assert(s1 * scale + p1 <= s2 * scale + p2) by {
        if s1 == s2 {
            nearest_keeps_order(
                (earlier as nat % billion) * scale,
                (later as nat % billion) * scale,
                billion,
            );
        } else {
            lemma_part_of_a_second((earlier as nat % billion) * scale);
        }
    }
    nearest_keeps_order(s1 * scale + p1, s2 * scale + p2, 1);
    half_even_keeps_order(
        nearest(s1 * scale + p1, 1) * 1000,
        nearest(s2 * scale + p2, 1) * 1000,
        scale,
    );
}

/// A part of a second is a second at most.
proof fn lemma_part_of_a_second(a: nat)
    requires
        a <= 1_000_000_000 * UPTIME_SCALE,
    ensures
        nearest(a, 1_000_000_000) <= UPTIME_SCALE,
{
    let second = (1_000_000_000 * UPTIME_SCALE) as nat;
    nearest_keeps_order(a, second, 1_000_000_000);
    assert(nearest(second, 1_000_000_000) == UPTIME_SCALE) by {
        reveal_with_fuel(nearest_multiple, 32);
    }
}

/// Up to 2 to the 22 seconds an uptime is shown to the nearest millisecond.
pub proof fn uptimes_are_shown_to_the_millisecond(nanos: nat)
    requires
        nanos < 0x40_0000 * 1_000_000_000,
    ensures
        distance(shown_ms(nanos) * 1_000_000, nanos) <= 500_000,
{
    let billion: nat = 1_000_000_000;
    let scale = UPTIME_SCALE as nat;
    let (whole, rest) = (nanos / billion, nanos % billion);
    let part = nearest(rest * scale, billion);
    let sum = whole * scale + part;
    let seconds = nearest(sum, 1);
    nearest_is_close(rest * scale, billion);
    lemma_part_of_a_second(rest * scale);
    nearest_is_close(sum, 1);
    half_even_is_close(seconds * 1000, scale);
}

/// Up to 2 to the 32 seconds a sum is shown as it is, to the millisecond.
pub proof fn sums_are_shown_exactly(ms: nat)
    requires
        ms < 0x1_0000_0000 * 1000,
    ensures
        shown_micros(ms) == 1000 * ms,
{
    let scale = SUM_SCALE as nat;
    small_numbers_are_exact(ms);
    nearest_is_close(ms * scale, 1000);
    let seconds = nearest(ms * scale, 1000);
    half_even_of_near(seconds * 1_000_000, scale, 1000 * ms);
}

/// `part` stands in `text` at `at`.
pub open spec fn stands_at(text: Seq<char>, part: Seq<char>, at: int) -> bool {
    0 <= at && at + part.len() <= text.len() && text.subrange(at, at + part.len()) == part
}

/// The line of every entry stands among the lines.
proof fn lemma_line_stands<K: TableKey, V>(
    items: Seq<(K, V)>,
    line: spec_fn(K::V, V) -> Seq<char>,
    i: int,
) -> (at: int)
    requires
        0 <= i < items.len(),
    ensures
        stands_at(lines_of(items, line), line(items[i].0@, items[i].1), at),
    decreases items.len(),
{
    let all = lines_of(items, line);
    let before = lines_of(items.drop_last(), line);
    let last = line(items.last().0@, items.last().1);
    assert(all == before + last);
    if i == items.len() - 1 {
        assert(all.subrange(before.len() as int, all.len() as int) =~= last);
        before.len() as int
    } else {
        let at = lemma_line_stands(items.drop_last(), line, i);
        let wanted = line(items[i].0@, items[i].1);
        assert(items.drop_last()[i] == items[i]);
        assert(all.subrange(at, at + wanted.len()) =~= before.subrange(at, at + wanted.len()));
        at
    }
}

/// What stands in a part of a text stands in the text.
proof fn lemma_stands_within(
    before: Seq<char>,
    inner: Seq<char>,
    after: Seq<char>,
    part: Seq<char>,
    at: int,
)
    requires
        stands_at(inner, part, at),
    ensures
        stands_at(before + inner + after, part, before.len() + at),
{
    let text = before + inner + after;
    assert(text.subrange(before.len() + at, before.len() + at + part.len()) =~= inner.subrange(
        at,
        at + part.len(),
    ));
}

/// The export shows every counter with its value.
pub proof fn export_shows_every_counter(
    requests: Seq<(RequestLabels, u64)>,
    durations: Seq<(DurationLabels, DurationStat)>,
    providers: u64,
    uptime_nanos: u64,
    key: RequestKey,
)
    requires
        ascending(requests),
        items_map(requests).contains_key(key),
    ensures
        exists|at: int| #[trigger]
            stands_at(
                export_text(requests, durations, providers, uptime_nanos),
                request_line(key, items_map(requests)[key]),
                at,
            ),
{
    let i = choose|i: int| #[trigger] holds_at(requests, key, i);
    lemma_item_in_map(requests, i);
    let at = lemma_line_stands(requests, |k: RequestKey, n: u64| request_line(k, n), i);
    let line = request_line(key, items_map(requests)[key]);
    let text = export_text(requests, durations, providers, uptime_nanos);
    let before =
        "# HELP gateway_requests_total Nombre total de requetes traitees par le gateway.\n"@
        + "# TYPE gateway_requests_total counter\n"@;
    let inner = request_lines(requests);
    let after = text.skip((before + inner).len() as int);
    assert(text =~= before + inner + after);
    lemma_stands_within(before, inner, after, line, at);
}

/// The export shows every duration with its sum and its number.
pub proof fn export_shows_every_duration(
    requests: Seq<(RequestLabels, u64)>,
    durations: Seq<(DurationLabels, DurationStat)>,
    providers: u64,
    uptime_nanos: u64,
    key: DurationKey,
)
    requires
        ascending(durations),
        items_map(durations).contains_key(key),
    ensures
        exists|at: int| #[trigger]
            stands_at(
                export_text(requests, durations, providers, uptime_nanos),
                duration_lines_of(key, items_map(durations)[key]),
                at,
            ),
{
    let i = choose|i: int| #[trigger] holds_at(durations, key, i);
    lemma_item_in_map(durations, i);
    let at = lemma_line_stands(
        durations,
        |k: DurationKey, stat: DurationStat| duration_lines_of(k, stat),
        i,
    );
    let lines = duration_lines_of(key, items_map(durations)[key]);
    let text = export_text(requests, durations, providers, uptime_nanos);
    let before =
        "# HELP gateway_requests_total Nombre total de requetes traitees par le gateway.\n"@
        + "# TYPE gateway_requests_total counter\n"@ + request_lines(requests)
        + "# HELP gateway_request_duration_seconds Duree des requetes en secondes.\n"@
        + "# TYPE gateway_request_duration_seconds summary\n"@;
    let inner = duration_lines(durations);
    let after = text.skip((before + inner).len() as int);
    assert(text =~= before + inner + after);
    lemma_stands_within(before, inner, after, lines, at);
}

/// A request adds one to the counter of its labels, with or without a latency, and
/// changes no other.
pub proof fn request_is_counted_once(m: Map<RequestKey, u64>, key: RequestKey, other: RequestKey)
    requires
        count_of(m, key) < u64::MAX,
    ensures
        count_of(counted(m, key), key) == count_of(m, key) + 1,
        counted(m, key).contains_key(key),
        other != key ==> count_of(counted(m, key), other) == count_of(m, other),
        other != key ==> counted(m, key).contains_key(other) == m.contains_key(other),
{
}

/// After a request the export shows the counter of its labels one higher, and every
/// other counter as before.
pub proof fn recorded_request_is_shown(
    before: Seq<(RequestLabels, u64)>,
    after: Seq<(RequestLabels, u64)>,
    durations: Seq<(DurationLabels, DurationStat)>,
    providers: u64,
    uptime_nanos: u64,
    key: RequestKey,
    other: RequestKey,
)
    requires
        ascending(before),
        ascending(after),
        count_of(items_map(before), key) < u64::MAX,
        items_map(after) == counted(items_map(before), key),
    ensures
        exists|at: int| #[trigger]
            stands_at(
                export_text(after, durations, providers, uptime_nanos),
                request_line(key, (count_of(items_map(before), key) + 1) as u64),
                at,
            ),
        other != key && items_map(before).contains_key(other) ==> exists|at: int| #[trigger]
            stands_at(
                export_text(after, durations, providers, uptime_nanos),
                request_line(other, items_map(before)[other]),
                at,
            ),
        other != key ==> items_map(after).contains_key(other) == items_map(before).contains_key(
            other,
        ),
{
    export_shows_every_counter(after, durations, providers, uptime_nanos, key);
    if other != key && items_map(before).contains_key(other) {
        export_shows_every_counter(after, durations, providers, uptime_nanos, other);
    }
}

/// After a latency the export shows the sum of its labels longer by it and their
/// number one higher, and every other duration as before.
pub proof fn recorded_latency_is_shown(
    requests: Seq<(RequestLabels, u64)>,
    before: Seq<(DurationLabels, DurationStat)>,
    after: Seq<(DurationLabels, DurationStat)>,
    providers: u64,
    uptime_nanos: u64,
    key: DurationKey,
    latency_ms: u128,
    other: DurationKey,
)
    requires
        ascending(before),
        ascending(after),
        stat_of(items_map(before), key).count < u64::MAX,
        stat_of(items_map(before), key).sum_ms + latency_ms <= u64::MAX,
        items_map(after) == timed(items_map(before), key, Some(latency_ms)),
    ensures
        exists|at: int| #[trigger]
            stands_at(
                export_text(requests, after, providers, uptime_nanos),
                duration_lines_of(
                    key,
                    DurationStat {
                        sum_ms: (stat_of(items_map(before), key).sum_ms + latency_ms) as u64,
                        count: (stat_of(items_map(before), key).count + 1) as u64,
                    },
                ),
                at,
            ),
        other != key && items_map(before).contains_key(other) ==> exists|at: int| #[trigger]
            stands_at(
                export_text(requests, after, providers, uptime_nanos),
                duration_lines_of(other, items_map(before)[other]),
                at,
            ),
        other != key ==> items_map(after).contains_key(other) == items_map(before).contains_key(
            other,
        ),
{
    export_shows_every_duration(requests, after, providers, uptime_nanos, key);
    if other != key && items_map(before).contains_key(other) {
        export_shows_every_duration(requests, after, providers, uptime_nanos, other);
    }
}

/// A latency adds its milliseconds and one to the durations of its labels, and
/// changes no others. Without a latency nothing changes.
pub proof fn latency_is_added_once(
    m: Map<DurationKey, DurationStat>,
    key: DurationKey,
    latency_ms: u128,
    other: DurationKey,
)
    requires
        stat_of(m, key).count < u64::MAX,
        stat_of(m, key).sum_ms + latency_ms <= u64::MAX,
    ensures
        stat_of(timed(m, key, Some(latency_ms)), key).sum_ms == stat_of(m, key).sum_ms + latency_ms,
        stat_of(timed(m, key, Some(latency_ms)), key).count == stat_of(m, key).count + 1,
        timed(m, key, Some(latency_ms)).contains_key(key),
        other != key ==> stat_of(timed(m, key, Some(latency_ms)), other) == stat_of(m, other),
        other != key ==> timed(m, key, Some(latency_ms)).contains_key(other) == m.contains_key(
            other,
        ),
        timed(m, key, None) == m,
{
}

/// The counters after a history of requests.
pub open spec fn counts_after(history: Seq<RequestKey>) -> Map<RequestKey, u64>
    decreases history.len(),
{
    if history.len() == 0 {
        Map::empty()
    } else {
        counted(counts_after(history.drop_last()), history.last())
    }
}

/// How often some labels occur in a history.
pub open spec fn occurrences(history: Seq<RequestKey>, key: RequestKey) -> nat
    decreases history.len(),
{
    if history.len() == 0 {
        0
    } else if history.last() == key {
        occurrences(history.drop_last(), key) + 1
    } else {
        occurrences(history.drop_last(), key)
    }
}

/// A counter says how often its labels were recorded, and there is one for just
/// the labels that were.
pub proof fn counters_count(history: Seq<RequestKey>, key: RequestKey)
    requires
        history.len() <= u64::MAX,
    ensures
        counts_after(history).contains_key(key) <==> occurrences(history, key) > 0,
        count_of(counts_after(history), key) == occurrences(history, key),
        occurrences(history, key) <= history.len(),
    decreases history.len(),
{
    if history.len() > 0 {
        counters_count(history.drop_last(), key);
    }
}

/// The durations after a history of latencies.
pub open spec fn stats_after(history: Seq<(DurationKey, u128)>) -> Map<DurationKey, DurationStat>
    decreases history.len(),
{
    if history.len() == 0 {
        Map::empty()
    } else {
        timed(stats_after(history.drop_last()), history.last().0, Some(history.last().1))
    }
}

/// How many latencies a history has for some labels.
pub open spec fn latencies_of(history: Seq<(DurationKey, u128)>, key: DurationKey) -> nat
    decreases history.len(),
{
    if history.len() == 0 {
        0
    } else if history.last().0 == key {
        latencies_of(history.drop_last(), key) + 1
    } else {
        latencies_of(history.drop_last(), key)
    }
}

/// The sum of the latencies that a history has for some labels.
pub open spec fn total_ms(history: Seq<(DurationKey, u128)>, key: DurationKey) -> int
    decreases history.len(),
{
    if history.len() == 0 {
        0
    } else if history.last().0 == key {
        total_ms(history.drop_last(), key) + added_ms(history.last().1)
    } else {
        total_ms(history.drop_last(), key)
    }
}

/// The durations of some labels are the sum and the number of the latencies
/// recorded for them, as long as both fit in 64 bits.
pub proof fn durations_add_up(history: Seq<(DurationKey, u128)>, key: DurationKey)
    requires
        history.len() <= u64::MAX,
        total_ms(history, key) <= u64::MAX,
    ensures
        stat_of(stats_after(history), key).count == latencies_of(history, key),
        stat_of(stats_after(history), key).sum_ms == total_ms(history, key),
        latencies_of(history, key) <= history.len(),
        0 <= total_ms(history, key),
    decreases history.len(),
{
    if history.len() > 0 {
        lemma_total_nonnegative(history.drop_last(), key);
        durations_add_up(history.drop_last(), key);
    }
}

/// A sum of latencies is not negative.
proof fn lemma_total_nonnegative(history: Seq<(DurationKey, u128)>, key: DurationKey)
    ensures
        0 <= total_ms(history, key),
    decreases history.len(),
{
    if history.len() > 0 {
        lemma_total_nonnegative(history.drop_last(), key);
    }
}

// ---------------------------------------------------------------------------
// What a request adds, and what is written of it
// ---------------------------------------------------------------------------

/// A request adds one to its own counter, from nothing where there was none.
pub proof fn counters_start_at_one(m: Map<RequestKey, u64>, key: RequestKey)
    ensures
        m.contains_key(key) && m[key] < u64::MAX ==> counted(m, key) == m.insert(
            key,
            (m[key] + 1) as u64,
        ),
        !m.contains_key(key) ==> counted(m, key) == m.insert(key, 1),
{
}

/// A latency adds the lowest 64 bits of its milliseconds to the sum of its labels,
/// and one to their number, from nothing where there was none.
pub proof fn durations_start_at_nothing(
    m: Map<DurationKey, DurationStat>,
    key: DurationKey,
    ms: u64,
    above: u64,
)
    ensures
        !m.contains_key(key) ==> timed(
            m,
            key,
            Some((above * 0x1_0000_0000_0000_0000 + ms) as u128),
        ) == m.insert(key, DurationStat { sum_ms: ms, count: 1 }),
        m.contains_key(key) && m[key].sum_ms + ms <= u64::MAX && m[key].count < u64::MAX ==> timed(
            m,
            key,
            Some((above * 0x1_0000_0000_0000_0000 + ms) as u128),
        ) == m.insert(
            key,
            DurationStat {
                sum_ms: (m[key].sum_ms + ms) as u64,
                count: (m[key].count + 1) as u64,
            },
        ),
        timed(m, key, None) == m,
{
    assert((above * 0x1_0000_0000_0000_0000 + ms) <= u128::MAX) by (nonlinear_arith)
        requires
            above <= u64::MAX,
            ms <= u64::MAX,
    ;
    assert((above * 0x1_0000_0000_0000_0000 + ms) % 0x1_0000_0000_0000_0000 == ms);
}

/// A request can be recorded unless one of its counters stands at the largest number
/// that 64 bits hold, or the sum of its durations would pass it.
pub proof fn room_is_left_below_the_largest(
    requests: Map<RequestKey, u64>,
    durations: Map<DurationKey, DurationStat>,
    key: RequestKey,
    ms: u64,
)
    ensures
        room_for(requests, durations, key, None) <==> (requests.contains_key(key) ==> requests[key]
            < 0xffff_ffff_ffff_ffff),
        room_for(requests, durations, key, Some(ms as u128)) <==> {
            &&& requests.contains_key(key) ==> requests[key] < 0xffff_ffff_ffff_ffff
            &&& durations.contains_key((key.0, key.1)) ==> durations[(key.0, key.1)].count
                < 0xffff_ffff_ffff_ffff && durations[(key.0, key.1)].sum_ms + ms
                <= 0xffff_ffff_ffff_ffff
        },
{
}

/// A label value is escaped character by character: a backslash goes before each
/// backslash and each double quote, and nothing else changes.
pub proof fn escaping_goes_by_characters(a: Seq<char>, b: Seq<char>, c: char)
    ensures
        escaped(Seq::empty()) == Seq::<char>::empty(),
        escaped(a + b) == escaped(a) + escaped(b),
        escaped(seq!['\\']) == seq!['\\', '\\'],
        escaped(seq!['"']) == seq!['\\', '"'],
        c != '\\' && c != '"' ==> escaped(seq![c]) == seq![c],
    decreases b.len(),
{
    let none = Seq::<char>::empty();
    assert(escaped(none) == none);
    assert(seq![c].drop_last() =~= none);
    assert(seq!['\\'].drop_last() =~= none);
    assert(seq!['"'].drop_last() =~= none);
    assert(escaped(seq![c]) =~= escaped_char(c));
    assert(escaped(seq!['\\']) =~= escaped_char('\\'));
    assert(escaped(seq!['"']) =~= escaped_char('"'));
    if b.len() == 0 {
        assert(a + b =~= a);
        assert(escaped(a) + escaped(b) =~= escaped(a));
    } else {
        assert((a + b).drop_last() =~= a + b.drop_last());
        escaping_goes_by_characters(a, b.drop_last(), c);
        assert(escaped(a) + escaped(b.drop_last()) + escaped_char(b.last()) =~= escaped(a) + (
        escaped(b.drop_last()) + escaped_char(b.last())));
    }
}

/// Seconds are written with a point, and three digits for the milliseconds or six
/// for the microseconds.
pub proof fn seconds_have_their_decimals(seconds: nat, ms: nat, micros: nat)
    requires
        ms < 1000,
        micros < 1_000_000,
    ensures
        seconds_text(1000 * seconds + ms) == decimal(seconds).push('.') + last_digits(ms, 3),
        fine_seconds_text(1_000_000 * seconds + micros) == decimal(seconds).push('.') + last_digits(
            micros,
            6,
        ),
{
    reveal_strlit(".");
    assert((1000 * seconds + ms) / 1000 == seconds && (1000 * seconds + ms) % 1000 == ms);
    assert((1_000_000 * seconds + micros) / 1_000_000 == seconds && (1_000_000 * seconds + micros)
        % 1_000_000 == micros);
    assert(decimal(seconds) + "."@ =~= decimal(seconds).push('.'));
}

/// The line of a counter names its labels, each escaped and in quotes, and ends in
/// its count.
pub proof fn counters_are_written_with_their_labels(
    route: Seq<char>,
    alias: Seq<char>,
    provider: Seq<char>,
    status: u16,
    count: u64,
)
    ensures
        request_line((route, alias, provider, status), count)
            == "gateway_requests_total{route=\""@ + escaped(route) + "\",model_alias=\""@ + escaped(
            alias,
        ) + "\",provider=\""@ + escaped(provider) + "\",status_code=\""@ + decimal(status as nat)
            + "\"} "@ + decimal(count as nat) + "\n"@,
{
}

/// The lines of a duration name its labels, each escaped and in quotes. One ends in
/// the sum, in seconds with six decimals, and one in the number.
pub proof fn durations_are_written_with_their_labels(
    route: Seq<char>,
    alias: Seq<char>,
    stat: DurationStat,
)
    ensures
        duration_lines_of((route, alias), stat)
            == "gateway_request_duration_seconds_sum{route=\""@ + escaped(route)
            + "\",model_alias=\""@ + escaped(alias) + "\"} "@ + fine_seconds_text(
            shown_micros(stat.sum_ms as nat),
        ) + "\n"@ + "gateway_request_duration_seconds_count{route=\""@ + escaped(route)
            + "\",model_alias=\""@ + escaped(alias) + "\"} "@ + decimal(stat.count as nat)
            + "\n"@,
{
}

/// The export has the counters first, then the durations, then the number of the
/// providers, and at last the uptime, in seconds with three decimals. Each part has
/// its help and its type.
pub proof fn export_has_four_parts(
    requests: Seq<(RequestLabels, u64)>,
    durations: Seq<(DurationLabels, DurationStat)>,
    providers: u64,
    uptime_nanos: u64,
)
    ensures
        export_text(requests, durations, providers, uptime_nanos)
            == "# HELP gateway_requests_total Nombre total de requetes traitees par le gateway.\n"@
            + "# TYPE gateway_requests_total counter\n"@ + request_lines(requests)
            + "# HELP gateway_request_duration_seconds Duree des requetes en secondes.\n"@
            + "# TYPE gateway_request_duration_seconds summary\n"@ + duration_lines(durations)
            + "# HELP gateway_providers_configured Nombre de providers configures au demarrage.\n"@
            + "# TYPE gateway_providers_configured gauge\n"@ + "gateway_providers_configured "@
            + decimal(providers as nat) + "\n"@
            + "# HELP gateway_uptime_seconds Duree de vie du gateway en secondes.\n"@
            + "# TYPE gateway_uptime_seconds gauge\n"@ + "gateway_uptime_seconds "@
            + seconds_text(shown_ms(uptime_nanos as nat)) + "\n"@,
{
}

/// Each counter and each duration has its lines, in the order of the tables.
pub proof fn lines_follow_the_tables(
    requests: Seq<(RequestLabels, u64)>,
    counter: (RequestLabels, u64),
    durations: Seq<(DurationLabels, DurationStat)>,
    duration: (DurationLabels, DurationStat),
)
    ensures
        request_lines(Seq::empty()).len() == 0,
        duration_lines(Seq::empty()).len() == 0,
        request_lines(requests.push(counter)) == request_lines(requests) + request_line(
            (
                counter.0.route@,
                counter.0.model_alias@,
                counter.0.provider@,
                counter.0.status_code,
            ),
            counter.1,
        ),
        duration_lines(durations.push(duration)) == duration_lines(durations) + duration_lines_of(
            (duration.0.route@, duration.0.model_alias@),
            duration.1,
        ),
{
    assert(requests.push(counter).drop_last() =~= requests);
    assert(durations.push(duration).drop_last() =~= durations);
}

/// Counters are ordered by route, then by alias, then by provider, then by status,
/// and durations by route, then by alias.
pub proof fn labels_are_ordered_in_turn(a: RequestKey, b: RequestKey)
    ensures
        a.0 != b.0 ==> (RequestLabels::precedes(a, b) <==> text_precedes(a.0, b.0)),
        a.0 == b.0 && a.1 != b.1 ==> (RequestLabels::precedes(a, b) <==> text_precedes(a.1, b.1)),
        a.0 == b.0 && a.1 == b.1 && a.2 != b.2 ==> (RequestLabels::precedes(a, b) <==> text_precedes(
            a.2,
            b.2,
        )),
        a.0 == b.0 && a.1 == b.1 && a.2 == b.2 ==> (RequestLabels::precedes(a, b) <==> a.3 < b.3),
        a.0 != b.0 ==> (DurationLabels::precedes((a.0, a.1), (b.0, b.1)) <==> text_precedes(
            a.0,
            b.0,
        )),
        a.0 == b.0 ==> (DurationLabels::precedes((a.0, a.1), (b.0, b.1)) <==> text_precedes(
            a.1,
            b.1,
        )),
{
    text_precedes_irreflexive(a.0);
    text_precedes_irreflexive(a.1);
    text_precedes_irreflexive(a.2);
}

// ---------------------------------------------------------------------------
// How seconds are rounded
// ---------------------------------------------------------------------------

/// Two powers of two that make the scale of the sums.
proof fn lemma_sum_scale(i: nat)
    requires
        i <= 62,
    ensures
        pow2(i) * pow2((62 - i) as nat) == SUM_SCALE,
        pow2(i) > 0,
        pow2((62 - i) as nat) > 0,
{
    lemma2_to64_rest();
    lemma_pow2_adds(i, (62 - i) as nat);
    lemma_pow2_pos(i);
    lemma_pow2_pos((62 - i) as nat);
}

/// Two powers of two that make the scale of the uptimes.
proof fn lemma_uptime_scale(i: nat)
    requires
        i <= 82,
    ensures
        pow2(i) * pow2((82 - i) as nat) == UPTIME_SCALE,
        pow2(i) > 0,
        pow2((82 - i) as nat) > 0,
{
    lemma2_to64();
    lemma_pow2_adds(64, 18);
    assert(pow2(64) * pow2(18) == UPTIME_SCALE) by (nonlinear_arith)
        requires
            pow2(64) == 0x10000000000000000,
            pow2(18) == 0x40000,
            UPTIME_SCALE == 0x4_0000_0000_0000_0000_0000,
    ;
    lemma_pow2_adds(i, (82 - i) as nat);
    lemma_pow2_pos(i);
    lemma_pow2_pos((82 - i) as nat);
}

/// A sum is shown from its seconds with 53 bits. `m` is the sum with 53 bits, and
/// `2^-i` of a second the unit that its seconds have 53 bits in front of.
pub proof fn sums_have_53_bits(ms: nat, m: nat, i: nat)
    requires
        m == nearest(ms, 1),
        i <= 62,
        4503599627370496 * 1000 <= m * pow2(i) < 9007199254740992 * 1000,
    ensures
        shown_micros(ms) == half_even(half_even(m * pow2(i), 1000) * 1_000_000, pow2(i)),
{
    let u = pow2(i);
    let k = (62 - i) as nat;
    let f = pow2(k);
    lemma_sum_scale(i);
    let a = m * SUM_SCALE as nat;
    assert(a == (m * u) * f) by (nonlinear_arith)
        requires
            a == m * (u * f),
    ;
    assert(a < 9007199254740992 * (1000 * f) && a >= 4503599627370496 * (1000 * f))
        by (nonlinear_arith)
        requires
            a == (m * u) * f,
            4503599627370496 * 1000 <= m * u < 9007199254740992 * 1000,
            f > 0,
    ;
    rounding_takes_the_fitting_unit(a, 1000, 1, k);
    half_even_of_multiples(m * u, 1000, f);
    let q = half_even(m * u, 1000);
    assert(nearest(a, 1000) == q * f);
    assert((q * f) * 1_000_000 == (q * 1_000_000) * f) by (nonlinear_arith);
    half_even_of_multiples(q * 1_000_000, u, f);
}

/// An uptime is shown from its seconds as double-precision numbers: the part of a
/// second is rounded to 53 bits, to a unit of `2^-i`, then with the whole seconds
/// to 53 bits, to a unit of `2^-j`, and that to the millisecond.
pub proof fn uptimes_have_53_bits(whole: nat, rest: nat, i: nat, j: nat, q: nat)
    requires
        rest < 1_000_000_000,
        i <= 82,
        j <= 82,
        4503599627370496 * 1_000_000_000 <= rest * pow2(i) < 9007199254740992 * 1_000_000_000,
        q == half_even(rest * pow2(i), 1_000_000_000),
        4503599627370496 * pow2(i) <= (whole * pow2(i) + q) * pow2(j) < 9007199254740992 * pow2(i),
    ensures
        shown_ms(1_000_000_000 * whole + rest) == half_even(
            half_even((whole * pow2(i) + q) * pow2(j), pow2(i)) * 1000,
            pow2(j),
        ),
{
    let billion: nat = 1_000_000_000;
    let nanos = billion * whole + rest;
    assert(nanos / billion == whole && nanos % billion == rest);
    let scale = UPTIME_SCALE as nat;
    let (u, f) = (pow2(i), pow2((82 - i) as nat));
    let (v, g) = (pow2(j), pow2((82 - j) as nat));
    lemma_uptime_scale(i);
    lemma_uptime_scale(j);

    let a = rest * scale;
    assert(a == (rest * u) * f) by (nonlinear_arith)
        requires
            a == rest * (u * f),
    ;
    assert(a < 9007199254740992 * (billion * f) && a >= 4503599627370496 * (billion * f))
        by (nonlinear_arith)
        requires
            a == (rest * u) * f,
            4503599627370496 * billion <= rest * u < 9007199254740992 * billion,
            f > 0,
    ;
    rounding_takes_the_fitting_unit(a, billion, 1, (82 - i) as nat);
    half_even_of_multiples(rest * u, billion, f);
    assert(nearest(a, billion) == q * f);

    let w = whole * u + q;
    let sum = whole * scale + q * f;
    assert(sum == w * f) by (nonlinear_arith)
        requires
            sum == whole * (u * f) + q * f,
            w == whole * u + q,
    ;
    assert(sum < 9007199254740992 * g && sum >= 4503599627370496 * g) by (nonlinear_arith)
        requires
            sum == w * f,
            4503599627370496 * u <= w * v < 9007199254740992 * u,
            u * f == scale,
            v * g == scale,
            f > 0,
            g > 0,
            scale > 0,
    {
        assert((w * v) * (f * g) == (w * f) * (v * g));
        assert(u * (f * g) == g * (u * f));
        assert((w * v) * (f * g) < (9007199254740992 * u) * (f * g));
        assert((w * v) * (f * g) >= (4503599627370496 * u) * (f * g));
        assert((w * f) * scale < (9007199254740992 * g) * scale);
        assert((w * f) * scale >= (4503599627370496 * g) * scale);
    }
    rounding_takes_the_fitting_unit(sum, 1, 1, (82 - j) as nat);
    let s = half_even(w * v, u);
    assert(half_even(sum, g) == s) by {
        half_even_of_multiples(sum, g, v);
        half_even_of_multiples(w * v, u, f);
        assert(sum * v == (w * v) * f && g * v == u * f) by (nonlinear_arith)
            requires
                sum == w * f,
                u * f == scale,
                v * g == scale,
        ;
    }
    assert(nearest(sum, 1) == s * g);
    assert((s * g) * 1000 == (s * 1000) * g) by (nonlinear_arith);
    half_even_of_multiples(s * 1000, v, g);
}

/// Whole seconds are shown as they are.
pub proof fn whole_seconds_are_exact(whole: nat)
    requires
        whole < 9007199254740992,
    ensures
        shown_ms(1_000_000_000 * whole) == 1000 * whole,
{
    let billion: nat = 1_000_000_000;
    let nanos = billion * whole;
    let scale = UPTIME_SCALE as nat;
    assert(nanos / billion == whole && nanos % billion == 0);
    lemma_uptime_scale(82);
    lemma2_to64();
    assert(pow2(82) == scale) by {
        assert(pow2(82) * 1 == scale);
    }
    few_bits_are_exact(0, 0, billion, 1);
    assert(nearest(0, billion) == 0);
    few_bits_are_exact(whole, 82, 1, 1);
    let seconds = whole * scale;
    assert(nearest(seconds, 1) == seconds);
    let ms = seconds * 1000;
    assert(ms == (1000 * whole) * scale) by (nonlinear_arith)
        requires
            ms == (whole * scale) * 1000,
    ;
    half_even_of_near(ms, scale, 1000 * whole);
}

} // verus!
