//! The journal of the requests that a provider was asked for.
use crate::metrics::{
    counted, room_for, timed, DurationKey, DurationStat, Metrics, RequestKey,
};
use vstd::prelude::*;

verus! {

/// An entry of the journal.
#[derive(Debug)]
pub struct RequestLogEntry {
    /// The model that the client named.
    pub model_alias: String,
    /// The provider that was asked last.
    pub provider_real: String,
    /// The model that stands behind the alias.
    pub real_model: String,
    pub route: String,
    pub latency_ms: Option<u64>,
    pub status_code: u16,
    pub streamed: bool,
    pub error_message: Option<String>,
}

/// The latency of an entry, as the metrics count it.
pub open spec fn latency_of(entry: RequestLogEntry) -> Option<u128> {
    match entry.latency_ms {
        Some(ms) => Some(ms as u128),
        None => None,
    }
}

/// The labels under which an entry is counted.
pub open spec fn labels_of(entry: RequestLogEntry) -> (Seq<char>, Seq<char>, Seq<char>, u16) {
    (entry.route@, entry.model_alias@, entry.provider_real@, entry.status_code)
}

impl RequestLogEntry {
    /// Counts the request in the metrics. Where a counter would overflow, nothing
    /// is counted and the result is `false`.
    pub fn count_in(&self, metrics: &mut Metrics) -> (r: bool)
        ensures
            r == room_for(
                old(metrics).requests()@,
                old(metrics).latencies()@,
                labels_of(*self),
                latency_of(*self),
            ),
            r ==> {
                &&& final(metrics).requests()@ == counted(
                    old(metrics).requests()@,
                    labels_of(*self),
                )
                &&& final(metrics).latencies()@ == timed(
                    old(metrics).latencies()@,
                    (self.route@, self.model_alias@),
                    latency_of(*self),
                )
                &&& final(metrics).requests()@ == old(metrics).requests()@.insert(
                    (self.route@, self.model_alias@, self.provider_real@, self.status_code),
                    (if old(metrics).requests()@.contains_key(
                        (self.route@, self.model_alias@, self.provider_real@, self.status_code),
                    ) {
                        old(metrics).requests()@[(
                            self.route@,
                            self.model_alias@,
                            self.provider_real@,
                            self.status_code,
                        )] + 1
                    } else {
                        1
                    }) as u64,
                )
                &&& final(metrics).providers() == old(metrics).providers()
                &&& final(metrics).start() == old(metrics).start()
            },
            !r ==> *final(metrics) == *old(metrics),
    {
        let latency: Option<u128> = match self.latency_ms {
            Some(ms) => Some(ms as u128),
            None => None,
        };
        let route = self.route.as_str();
        let alias = self.model_alias.as_str();
        let provider = self.provider_real.as_str();
        if metrics.can_record(route, alias, provider, self.status_code, latency) {
            metrics.record_request(route, alias, provider, self.status_code, latency);
            true
        } else {
            false
        }
    }
}

/// An entry is counted under its route, alias, provider and status: that counter is
/// one higher, from nothing where there was none, and no other changes. The
/// milliseconds that it took are added under its route and alias.
pub proof fn entry_is_counted_under_its_labels(
    entry: RequestLogEntry,
    requests: Map<RequestKey, u64>,
    durations: Map<DurationKey, DurationStat>,
    other: RequestKey,
    elsewhere: DurationKey,
)
    requires
        room_for(requests, durations, labels_of(entry), latency_of(entry)),
    ensures
        ({
            let key = (
                entry.route@,
                entry.model_alias@,
                entry.provider_real@,
                entry.status_code,
            );
            let after = counted(requests, labels_of(entry));
            &&& after.contains_key(key)
            &&& after[key] == if requests.contains_key(key) {
                requests[key] + 1
            } else {
                1
            }
            &&& other != key ==> after.contains_key(other) == requests.contains_key(other)
            &&& other != key && requests.contains_key(other) ==> after[other] == requests[other]
        }),
        ({
            let key = (entry.route@, entry.model_alias@);
            let after = timed(durations, key, latency_of(entry));
            &&& entry.latency_ms matches Some(ms) ==> {
                &&& after.contains_key(key)
                &&& durations.contains_key(key) ==> after[key].sum_ms == durations[key].sum_ms + ms
                    && after[key].count == durations[key].count + 1
                &&& !durations.contains_key(key) ==> after[key].sum_ms == ms && after[key].count
                    == 1
                &&& elsewhere != key ==> after.contains_key(elsewhere) == durations.contains_key(
                    elsewhere,
                )
                &&& elsewhere != key && durations.contains_key(elsewhere) ==> after[elsewhere]
                    == durations[elsewhere]
            }
            &&& entry.latency_ms is None ==> after == durations
        }),
{
}

/// An entry can be counted unless one of its counters stands at the largest number
/// that 64 bits hold, or the sum of its durations would pass it.
pub proof fn entry_finds_room(
    entry: RequestLogEntry,
    requests: Map<RequestKey, u64>,
    durations: Map<DurationKey, DurationStat>,
)
    ensures
        ({
            let key = (
                entry.route@,
                entry.model_alias@,
                entry.provider_real@,
                entry.status_code,
            );
            let pair = (entry.route@, entry.model_alias@);
            room_for(requests, durations, labels_of(entry), latency_of(entry)) <==> {
                &&& requests.contains_key(key) ==> requests[key] < 0xffff_ffff_ffff_ffff
                &&& entry.latency_ms matches Some(ms) ==> durations.contains_key(pair) ==> {
                    &&& durations[pair].count < 0xffff_ffff_ffff_ffff
                    &&& durations[pair].sum_ms + ms <= 0xffff_ffff_ffff_ffff
                }
            }
        }),
{
}

} // verus!
