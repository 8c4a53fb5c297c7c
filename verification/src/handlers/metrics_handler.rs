//! `GET /metrics`: the metrics, in the Prometheus text format 0.0.4.
use crate::metrics::{export_text, Metrics};
use crate::reply::Reply;
use crate::table::ascending;
use vstd::prelude::*;

verus! {

/// Answers `GET /metrics`.
pub fn handler(metrics: &Metrics) -> (r: Reply)
    ensures
        r.status == 200,
        r.content_type@ == "text/plain; version=0.0.4; charset=utf-8"@,
        r.retry_after is None,
        exists|uptime_nanos: u64|
            r.body@ == #[trigger] export_text(
                metrics.requests().items(),
                metrics.latencies().items(),
                metrics.providers(),
                uptime_nanos,
            ),
        ascending(metrics.requests().items()),
        ascending(metrics.latencies().items()),
{
    Reply {
        status: 200,
        content_type: "text/plain; version=0.0.4; charset=utf-8",
        retry_after: None,
        body: metrics.render(),
    }
}

} // verus!
