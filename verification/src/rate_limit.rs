//! Rate limit of inbound requests, per client address.
//!
//! Each client has a window of one minute. The first request opens it, each
//! request that passes is counted, and when the count has reached the limit the
//! requests that follow are refused until more than a minute has passed. A limit of 0 lets
//! everything pass.
//!
//! The limit holds on the POST endpoints (chat and embeddings) only.
use crate::clock;
use crate::headers::{field_text, header_text, lower_name};
use crate::table::{Table, TableKey};
use crate::text::{first_index, first_index_is, opt_text, trim, trim_before, trimmed};
use vstd::prelude::*;

verus! {

/// Length of a window, in nanoseconds.
pub const WINDOW_NANOS: u64 = 60_000_000_000;

/// Above this number of windows those that are over are dropped.
pub const SWEEP_ABOVE: usize = 1000;

/// The address of a client, as a number in network order.
#[derive(Debug, Clone, Copy, PartialEq, Eq, Structural)]
pub enum ClientIp {
    V4(u32),
    V6(u128),
}

/// `127.0.0.1`.
pub const LOCALHOST: u32 = 0x7f00_0001;

impl View for ClientIp {
    type V = ClientIp;

    open spec fn view(&self) -> ClientIp {
        *self
    }
}

impl TableKey for ClientIp {
    open spec fn precedes(a: ClientIp, b: ClientIp) -> bool {
        match (a, b) {
            (ClientIp::V4(x), ClientIp::V4(y)) => x < y,
            (ClientIp::V4(_), ClientIp::V6(_)) => true,
            (ClientIp::V6(_), ClientIp::V4(_)) => false,
            (ClientIp::V6(x), ClientIp::V6(y)) => x < y,
        }
    }

    proof fn precedes_irreflexive(a: ClientIp) {
    }

    proof fn precedes_transitive(a: ClientIp, b: ClientIp, c: ClientIp) {
    }

    proof fn precedes_total(a: ClientIp, b: ClientIp) {
    }

    fn before(&self, other: &ClientIp) -> (r: bool) {
        match (*self, *other) {
            (ClientIp::V4(x), ClientIp::V4(y)) => x < y,
            (ClientIp::V4(_), ClientIp::V6(_)) => true,
            (ClientIp::V6(_), ClientIp::V4(_)) => false,
            (ClientIp::V6(x), ClientIp::V6(y)) => x < y,
        }
    }
}

// ---------------------------------------------------------------------------
// The address of a client
// ---------------------------------------------------------------------------

/// What `X-Forwarded-For` says of the client: the first element of its list.
pub open spec fn forwarded_text(value: Option<Seq<char>>) -> Option<Seq<char>> {
    match value {
        Some(text) => Some(trimmed(text.take(first_index(text, ',')))),
        None => None,
    }
}

/// What `X-Real-IP` says of the client.
pub open spec fn direct_text(value: Option<Seq<char>>) -> Option<Seq<char>> {
    match value {
        Some(text) => Some(trimmed(text)),
        None => None,
    }
}

/// What the headers of a request say of its client. Neither text need denote an
/// address.
#[derive(Debug)]
pub struct ClientTexts {
    pub forwarded: Option<String>,
    pub direct: Option<String>,
}

/// Finds in the headers of a request what they say of its client.
pub fn client_texts(headers: &axum::http::HeaderMap) -> (r: ClientTexts)
    ensures
        opt_text(r.forwarded) == forwarded_text(field_text(*headers, "x-forwarded-for"@)),
        opt_text(r.direct) == direct_text(field_text(*headers, "x-real-ip"@)),
{
    proof {
        reveal_strlit("x-forwarded-for");
        reveal_strlit("x-real-ip");
        assert(lower_name("x-forwarded-for"@));
        assert(lower_name("x-real-ip"@));
    }
    ClientTexts {
        forwarded: match header_text(headers, "x-forwarded-for") {
            Some(value) => Some(trim_before(value.as_str(), ',')),
            None => None,
        },
        direct: match header_text(headers, "x-real-ip") {
            Some(value) => Some(trim(value.as_str())),
            None => None,
        },
    }
}

/// The forwarded address where there is one, else the direct one, else localhost.
pub open spec fn client_address(
    forwarded: Option<ClientIp>,
    direct: Option<ClientIp>,
) -> ClientIp {
    match (forwarded, direct) {
        (Some(ip), _) => ip,
        (None, Some(ip)) => ip,
        (None, None) => ClientIp::V4(LOCALHOST),
    }
}

/// Chooses between the addresses that the two headers denote.
pub fn choose_address(forwarded: Option<ClientIp>, direct: Option<ClientIp>) -> (r: ClientIp)
    ensures
        r == client_address(forwarded, direct),
{
    match forwarded {
        Some(ip) => ip,
        None => match direct {
            Some(ip) => ip,
            None => ClientIp::V4(LOCALHOST),
        },
    }
}

/// `ip` is what `address` reads in a text; nothing where there is no text.
pub open spec fn reads<F: Fn(&String) -> Option<ClientIp>>(
    address: F,
    text: Option<Seq<char>>,
    ip: Option<ClientIp>,
) -> bool {
    match text {
        Some(t) => exists|s: String| s@ == t && #[trigger] call_ensures(address, (&s,), ip),
        None => ip is None,
    }
}

/// The address of the client, from the headers of a request. `address` reads the
/// address that a text denotes, where it denotes one.
///
/// In this order: the first element of `X-Forwarded-For`, `X-Real-IP`,
/// `127.0.0.1`. A header that denotes no address is passed over.
pub fn extract_client_ip<F: Fn(&String) -> Option<ClientIp>>(
    headers: &axum::http::HeaderMap,
    address: F,
) -> (r: ClientIp)
    requires
        forall|text: String| call_requires(address, (&text,)),
    ensures
        exists|forwarded: Option<ClientIp>, direct: Option<ClientIp>|
            {
                &&& r == #[trigger] client_address(forwarded, direct)
                &&& reads(
                    address,
                    forwarded_text(field_text(*headers, "x-forwarded-for"@)),
                    forwarded,
                )
                &&& reads(address, direct_text(field_text(*headers, "x-real-ip"@)), direct)
            },
{
    let texts = client_texts(headers);
    let forwarded: Option<ClientIp> = match &texts.forwarded {
        Some(text) => address(text),
        None => None,
    };
    let direct: Option<ClientIp> = match &texts.direct {
        Some(text) => address(text),
        None => None,
    };
    assert(reads(address, opt_text(texts.forwarded), forwarded));
    assert(reads(address, opt_text(texts.direct), direct));
    choose_address(forwarded, direct)
}

// ---------------------------------------------------------------------------
// Windows
// ---------------------------------------------------------------------------

/// The window of a client: the requests that passed since it was opened.
#[derive(Debug, Clone, Copy)]
pub struct Window {
    pub count: u32,
    pub started_at: u64,
}

/// A window is over when more than a minute has passed since it was opened.
pub open spec fn expired(w: Window, now: u64) -> bool {
    now - w.started_at > WINDOW_NANOS
}

/// Tells whether a window is over.
fn is_expired(w: Window, now: u64) -> (r: bool)
    ensures
        r == expired(w, now),
{
    now >= w.started_at && now - w.started_at > WINDOW_NANOS
}

/// The window that counts a request at `now`: the one that is open, else a new
/// one.
pub open spec fn current(windows: Map<ClientIp, Window>, ip: ClientIp, now: u64) -> Window {
    if windows.contains_key(ip) && !expired(windows[ip], now) {
        windows[ip]
    } else {
        Window { count: 0, started_at: now }
    }
}

/// A request may pass.
pub open spec fn admits(
    windows: Map<ClientIp, Window>,
    limit: u32,
    ip: ClientIp,
    now: u64,
) -> bool {
    limit == 0 || current(windows, ip, now).count < limit
}

/// The windows without those that are over, where there are too many.
pub open spec fn swept(windows: Map<ClientIp, Window>, now: u64) -> Map<ClientIp, Window> {
    if windows.dom().len() > SWEEP_ABOVE {
        windows.restrict(
            Set::new(|ip: ClientIp| windows.contains_key(ip) && !expired(windows[ip], now)),
        )
    } else {
        windows
    }
}

/// The windows after a request.
pub open spec fn after_request(
    windows: Map<ClientIp, Window>,
    limit: u32,
    ip: ClientIp,
    now: u64,
) -> Map<ClientIp, Window> {
    if limit == 0 {
        windows
    } else {
        let w = current(windows, ip, now);
        swept(windows, now).insert(
            ip,
            if w.count < limit {
                Window { count: (w.count + 1) as u32, started_at: w.started_at }
            } else {
                w
            },
        )
    }
}

/// Rate limiter, by client address.
pub struct RateLimiter {
    windows: Table<ClientIp, Window>,
    max_per_minute: u32,
    epoch: std::time::Instant,
}

impl RateLimiter {
    /// The windows of the clients, with their starts in nanoseconds since the
    /// limiter was made.
    pub closed spec fn windows(self) -> Map<ClientIp, Window> {
        self.windows@
    }

    /// The limit per minute; 0 stands for none.
    pub closed spec fn limit(self) -> u32 {
        self.max_per_minute
    }

    /// The moment from which the times of the limiter are measured.
    pub closed spec fn origin(self) -> std::time::Instant {
        self.epoch
    }

    /// A limiter that has seen no request. With `max_per_minute == 0` it lets
    /// every request pass.
    pub fn new(max_per_minute: u32) -> (r: Self)
        ensures
            r.limit() == max_per_minute,
            r.windows() == Map::<ClientIp, Window>::empty(),
    {
        RateLimiter { windows: Table::new(), max_per_minute, epoch: clock::now() }
    }

    /// Decides on a request that comes now, and counts it if it passes.
    pub fn check_and_increment(&mut self, ip: ClientIp) -> (r: bool)
        ensures
            final(self).limit() == old(self).limit(),
            final(self).origin() == old(self).origin(),
            exists|now: u64|
                r == admits(old(self).windows(), old(self).limit(), ip, now)
                    && final(self).windows() == #[trigger] after_request(
                    old(self).windows(),
                    old(self).limit(),
                    ip,
                    now,
                ),
    {
        let now: u64 = clock::nanos_since(&self.epoch);
        self.check_and_increment_at(ip, now)
    }

    /// Decides on a request that comes at `now`, and counts it if it passes.
    pub fn check_and_increment_at(&mut self, ip: ClientIp, now: u64) -> (r: bool)
        ensures
            final(self).limit() == old(self).limit(),
            final(self).origin() == old(self).origin(),
            r == admits(old(self).windows(), old(self).limit(), ip, now),
            final(self).windows() == after_request(
                old(self).windows(),
                old(self).limit(),
                ip,
                now,
            ),
    {
        if self.max_per_minute == 0 {
            return true;
        }
        let ghost before = self.windows@;
        let w: Window = match self.windows.get(&ip) {
            Some(found) => if is_expired(*found, now) {
                Window { count: 0, started_at: now }
            } else {
                *found
            },
            None => Window { count: 0, started_at: now },
        };
        if self.windows.len() > SWEEP_ABOVE {
            let open = |w: Window| -> (kept: bool)
                ensures
                    kept == !expired(w, now),
            {
                !is_expired(w, now)
            };
            self.windows.retain(open, Ghost(|w: Window| !expired(w, now)));
        }
        assert(self.windows@ =~= swept(before, now));
        if w.count >= self.max_per_minute {
            self.windows.insert(ip, w);
            false
        } else {
            self.windows.insert(ip, Window { count: w.count + 1, started_at: w.started_at });
            true
        }
    }

    /// The configured limit.
    pub fn max_per_minute(&self) -> (r: u32)
        ensures
            r == self.limit(),
    {
        self.max_per_minute
    }
}

// ---------------------------------------------------------------------------
// What holds of every limiter
// ---------------------------------------------------------------------------

/// Without a limit every request passes.
pub proof fn no_limit_admits_all(windows: Map<ClientIp, Window>, ip: ClientIp, now: u64)
    ensures
        admits(windows, 0, ip, now),
        after_request(windows, 0, ip, now) == windows,
{
}

/// Dropping the windows that are over changes no decision from then on.
pub proof fn sweep_is_invisible(
    windows: Map<ClientIp, Window>,
    ip: ClientIp,
    now: u64,
    later: u64,
)
    requires
        now <= later,
    ensures
        current(swept(windows, now), ip, later) == current(windows, ip, later),
{
}

/// The requests of one client change no later decision on another.
pub proof fn clients_are_independent(
    windows: Map<ClientIp, Window>,
    limit: u32,
    ip: ClientIp,
    other: ClientIp,
    now: u64,
    later: u64,
)
    requires
        ip != other,
        now <= later,
    ensures
        current(after_request(windows, limit, ip, now), other, later) == current(
            windows,
            other,
            later,
        ),
        admits(after_request(windows, limit, ip, now), limit, other, later) == admits(
            windows,
            limit,
            other,
            later,
        ),
{
    sweep_is_invisible(windows, other, now, later);
}

/// When its window is over a client starts afresh.
pub proof fn expired_window_is_reset(
    windows: Map<ClientIp, Window>,
    limit: u32,
    ip: ClientIp,
    now: u64,
)
    requires
        windows.contains_key(ip),
        expired(windows[ip], now),
    ensures
        admits(windows, limit, ip, now),
{
}

/// A count never passes the limit.
pub proof fn counts_stay_within_limit(
    windows: Map<ClientIp, Window>,
    limit: u32,
    ip: ClientIp,
    now: u64,
)
    requires
        limit > 0,
        forall|k: ClientIp| #[trigger] windows.contains_key(k) ==> windows[k].count <= limit,
    ensures
        forall|k: ClientIp| #[trigger]
            after_request(windows, limit, ip, now).contains_key(k) ==> after_request(
                windows,
                limit,
                ip,
                now,
            )[k].count <= limit,
{
}

/// The windows after a series of requests.
pub open spec fn after_all(
    windows: Map<ClientIp, Window>,
    limit: u32,
    requests: Seq<(ClientIp, u64)>,
) -> Map<ClientIp, Window>
    decreases requests.len(),
{
    if requests.len() == 0 {
        windows
    } else {
        let (ip, now) = requests.last();
        after_request(after_all(windows, limit, requests.drop_last()), limit, ip, now)
    }
}

/// How many of the requests come from `ip`.
pub open spec fn sent(requests: Seq<(ClientIp, u64)>, ip: ClientIp) -> nat
    decreases requests.len(),
{
    if requests.len() == 0 {
        0
    } else {
        sent(requests.drop_last(), ip) + if requests.last().0 == ip {
            1nat
        } else {
            0nat
        }
    }
}

/// How many of the requests of `ip` pass.
pub open spec fn passed(
    windows: Map<ClientIp, Window>,
    limit: u32,
    requests: Seq<(ClientIp, u64)>,
    ip: ClientIp,
) -> nat
    decreases requests.len(),
{
    if requests.len() == 0 {
        0
    } else {
        let before = requests.drop_last();
        passed(windows, limit, before, ip) + if requests.last().0 == ip && admits(
            after_all(windows, limit, before),
            limit,
            ip,
            requests.last().1,
        ) {
            1nat
        } else {
            0nat
        }
    }
}

/// The requests come in order, within a minute from `from` on.
pub open spec fn within_a_window(requests: Seq<(ClientIp, u64)>, from: u64) -> bool {
    &&& forall|i: int|
        0 <= i < requests.len() ==> from <= (#[trigger] requests[i]).1 && requests[i].1 - from
            <= WINDOW_NANOS
    &&& forall|i: int, j: int|
        0 <= i < j < requests.len() ==> (#[trigger] requests[i]).1 <= (#[trigger] requests[j]).1
}

/// What stands in the table after requests within a window.
proof fn lemma_window_after(
    windows: Map<ClientIp, Window>,
    limit: u32,
    requests: Seq<(ClientIp, u64)>,
    ip: ClientIp,
    from: u64,
)
    requires
        limit > 0,
        within_a_window(requests, from),
        !windows.contains_key(ip) || expired(windows[ip], from),
    ensures
        passed(windows, limit, requests, ip) == if sent(requests, ip) <= limit {
            sent(requests, ip)
        } else {
            limit as nat
        },
        ({
            let m = after_all(windows, limit, requests);
            if sent(requests, ip) == 0 {
                !m.contains_key(ip) || expired(m[ip], from)
            } else {
                &&& m.contains_key(ip)
                &&& m[ip].started_at >= from
                &&& m[ip].count == passed(windows, limit, requests, ip)
            }
        }),
    decreases requests.len(),
{
    if requests.len() > 0 {
        let before = requests.drop_last();
        assert forall|i: int| 0 <= i < before.len() implies from <= (#[trigger] before[i]).1
            && before[i].1 - from <= WINDOW_NANOS by {
            assert(before[i] == requests[i]);
        }
        assert forall|i: int, j: int| 0 <= i < j < before.len() implies (#[trigger] before[i]).1
            <= (#[trigger] before[j]).1 by {
            assert(before[i] == requests[i]);
            assert(before[j] == requests[j]);
        }
        lemma_window_after(windows, limit, before, ip, from);
        let last = requests[requests.len() - 1];
        assert(requests.last() == last);
    }
}

/// Of the requests that a client sends within a minute, when none of its windows
/// is open, as many pass as the limit allows, and no more, whatever other clients
/// send in between.
pub proof fn quota_per_window(
    windows: Map<ClientIp, Window>,
    limit: u32,
    requests: Seq<(ClientIp, u64)>,
    ip: ClientIp,
    from: u64,
)
    requires
        limit > 0,
        within_a_window(requests, from),
        !windows.contains_key(ip) || expired(windows[ip], from),
    ensures
        passed(windows, limit, requests, ip) == if sent(requests, ip) <= limit {
            sent(requests, ip)
        } else {
            limit as nat
        },
{
    lemma_window_after(windows, limit, requests, ip, from);
}

/// A request within the minute of its client's window is counted in that window:
/// it passes while the count is below the limit, and the window keeps its start.
pub proof fn request_in_an_open_window(
    windows: Map<ClientIp, Window>,
    limit: u32,
    ip: ClientIp,
    now: u64,
)
    requires
        limit > 0,
        windows.contains_key(ip),
        now - windows[ip].started_at <= 60_000_000_000,
    ensures
        admits(windows, limit, ip, now) <==> windows[ip].count < limit,
        after_request(windows, limit, ip, now).contains_key(ip),
        after_request(windows, limit, ip, now)[ip].started_at == windows[ip].started_at,
        after_request(windows, limit, ip, now)[ip].count == windows[ip].count + if windows[ip].count
            < limit {
            1int
        } else {
            0int
        },
{
}

/// A request whose client has no window, or one that is older than a minute,
/// passes, and opens a window that starts with it.
pub proof fn request_opens_a_window(
    windows: Map<ClientIp, Window>,
    limit: u32,
    ip: ClientIp,
    now: u64,
)
    requires
        limit > 0,
        !windows.contains_key(ip) || now - windows[ip].started_at > 60_000_000_000,
    ensures
        admits(windows, limit, ip, now),
        after_request(windows, limit, ip, now).contains_key(ip),
        after_request(windows, limit, ip, now)[ip] == (Window { count: 1, started_at: now }),
{
}

/// Whether a request passes or not, the window that counts it keeps the start that
/// it has when the request comes.
pub proof fn requests_keep_the_start(
    windows: Map<ClientIp, Window>,
    limit: u32,
    ip: ClientIp,
    now: u64,
)
    requires
        limit > 0,
    ensures
        after_request(windows, limit, ip, now)[ip].started_at == current(
            windows,
            ip,
            now,
        ).started_at,
        after_request(windows, limit, ip, now)[ip].started_at == if windows.contains_key(ip) && now
            - windows[ip].started_at <= 60_000_000_000 {
            windows[ip].started_at
        } else {
            now
        },
{
}

/// A request changes no window of another client. It drops those that are older
/// than a minute where there are more than a thousand windows, and no others.
pub proof fn requests_leave_other_windows(
    windows: Map<ClientIp, Window>,
    limit: u32,
    ip: ClientIp,
    now: u64,
    other: ClientIp,
)
    requires
        limit > 0,
        other != ip,
    ensures
        after_request(windows, limit, ip, now).contains_key(other) <==> windows.contains_key(other)
            && (windows.dom().len() <= 1000 || now - windows[other].started_at <= 60_000_000_000),
        after_request(windows, limit, ip, now).contains_key(other) ==> after_request(
            windows,
            limit,
            ip,
            now,
        )[other] == windows[other],
{
}

/// The window that a request opens lasts a minute from that request on, however
/// many requests follow within it and whoever sends them. Then it is over, and the
/// next request of the client passes and opens another.
pub proof fn window_lasts_a_minute(
    windows: Map<ClientIp, Window>,
    limit: u32,
    requests: Seq<(ClientIp, u64)>,
    ip: ClientIp,
    t: u64,
    now: u64,
)
    requires
        limit > 0,
        !windows.contains_key(ip) || t - windows[ip].started_at > 60_000_000_000,
        requests.len() > 0,
        requests[0] == (ip, t),
        forall|i: int|
            0 <= i < requests.len() ==> t <= (#[trigger] requests[i]).1 <= t + 60_000_000_000,
    ensures
        after_all(windows, limit, requests).contains_key(ip),
        after_all(windows, limit, requests)[ip].started_at == t,
        t <= now <= t + 60_000_000_000 ==> !expired(after_all(windows, limit, requests)[ip], now),
        now > t + 60_000_000_000 ==> {
            &&& expired(after_all(windows, limit, requests)[ip], now)
            &&& admits(after_all(windows, limit, requests), limit, ip, now)
            &&& after_request(after_all(windows, limit, requests), limit, ip, now)[ip] == (Window {
                count: 1,
                started_at: now,
            })
        },
    decreases requests.len(),
{
    let before = requests.drop_last();
    let (client, at) = requests[requests.len() - 1];
    assert(requests.last() == (client, at));
    if before.len() == 0 {
        assert(after_all(windows, limit, before) == windows);
        request_opens_a_window(windows, limit, ip, t);
    } else {
        assert(before[0] == requests[0]);
        assert forall|i: int| 0 <= i < before.len() implies t <= (#[trigger] before[i]).1 <= t
            + 60_000_000_000 by {
            assert(before[i] == requests[i]);
        }
        window_lasts_a_minute(windows, limit, before, ip, t, now);
        let m = after_all(windows, limit, before);
        if client == ip {
            request_in_an_open_window(m, limit, ip, at);
        } else {
            requests_leave_other_windows(m, limit, client, at, ip);
        }
    }
}

/// `X-Forwarded-For` names the client before its first comma, or altogether where
/// it has none. White space around the name is left out, and around `X-Real-IP`.
pub proof fn forwarded_is_the_first_of_the_list(first: Seq<char>, rest: Seq<char>)
    requires
        !first.contains(','),
    ensures
        forwarded_text(Some(first)) == Some(trimmed(first)),
        forwarded_text(Some(first + seq![','] + rest)) == Some(trimmed(first)),
        forwarded_text(None) is None,
        direct_text(Some(rest)) == Some(trimmed(rest)),
        direct_text(None) is None,
{
    let n = first.len() as int;
    assert forall|i: int| 0 <= i < n implies first[i] != ',' by {
        assert(first.contains(first[i]));
    }
    first_index_is(first, ',', n);
    assert(first.take(n) =~= first);
    let list = first + seq![','] + rest;
    assert forall|i: int| 0 <= i < n implies list[i] != ',' by {
        assert(list[i] == first[i]);
    }
    first_index_is(list, ',', n);
    assert(list.take(n) =~= first);
}

/// The forwarded address comes first, the direct one counts where there is no
/// other, and without both the client is 127.0.0.1.
pub proof fn forwarded_address_comes_first(ip: ClientIp, direct: Option<ClientIp>)
    ensures
        client_address(Some(ip), direct) == ip,
        client_address(None, Some(ip)) == ip,
        client_address(None, None) == ClientIp::V4(
            (127 * 0x100_0000 + 0 * 0x1_0000 + 0 * 0x100 + 1) as u32,
        ),
{
}

/// What a header says is read as the address that it denotes, and without a header
/// there is none to read.
pub proof fn headers_denote_their_address<F: Fn(&String) -> Option<ClientIp>>(
    address: F,
    text: Seq<char>,
    denoted: Option<ClientIp>,
    ip: Option<ClientIp>,
)
    requires
        forall|s: String, r: Option<ClientIp>|
            s@ == text && #[trigger] call_ensures(address, (&s,), r) ==> r == denoted,
    ensures
        reads(address, Some(text), ip) ==> ip == denoted,
        reads(address, None, ip) <==> ip is None,
{
}

} // verus!
