//! Resource census: client counts, queue depths and resident memory.
use crate::text::{decimal, push_decimal};
use vstd::prelude::*;

verus! {

/// Everything that a census line tells.
pub struct StatsSnapshot {
    /// Resident memory in bytes, where known.
    pub rss_bytes: Option<u64>,
    pub bridge_json: usize,
    pub bridge_msgpack: usize,
    /// Game clients.
    pub ws: usize,
    pub watch_depth: usize,
    pub proc_depth: usize,
    pub ws_depth: usize,
}

/// Tenths of a mebibyte, rounded to the nearest.
pub open spec fn tenths_of_mb(bytes: u64) -> nat {
    ((bytes * 10 + 524_288) / 1_048_576) as nat
}

/// Resident memory as text.
pub open spec fn memory_text(rss: Option<u64>) -> Seq<char> {
    match rss {
        Some(bytes) => decimal(tenths_of_mb(bytes) / 10) + "."@ + decimal(tenths_of_mb(bytes) % 10)
            + "MB"@,
        None => "n/a"@,
    }
}

/// The census line.
pub open spec fn census_text(reason: Seq<char>, s: StatsSnapshot) -> Seq<char> {
    "[stats] "@ + reason + " rss="@ + memory_text(s.rss_bytes) + " bridge=json:"@ + decimal(
        s.bridge_json as nat,
    ) + ",msgpack:"@ + decimal(s.bridge_msgpack as nat) + " ws="@ + decimal(s.ws as nat)
        + " queues=watch:"@ + decimal(s.watch_depth as nat) + ",proc:"@ + decimal(
        s.proc_depth as nat,
    ) + ",ws:"@ + decimal(s.ws_depth as nat)
}

/// Render the census line for `reason`.
pub fn format_resource_stats(reason: &str, snapshot: &StatsSnapshot) -> (r: String)
    ensures
        r@ == census_text(reason@, *snapshot),
{
    let mut out = String::new();
    out.append("[stats] ");
    assert(out@ == "[stats] "@);
    out.append(reason);
    out.append(" rss=");
    match snapshot.rss_bytes {
        Some(bytes) => {
            let ghost before = out@;
            let tenths: u128 = (bytes as u128 * 10 + 524_288) / 1_048_576;
            let tenths: u64 = tenths as u64;
            assert(tenths == tenths_of_mb(bytes));
            push_decimal(tenths / 10, &mut out);
            out.append(".");
            push_decimal(tenths % 10, &mut out);
            out.append("MB");
            assert(out@ == before + memory_text(snapshot.rss_bytes));
        },
        None => out.append("n/a"),
    }
    out.append(" bridge=json:");
    push_decimal(snapshot.bridge_json as u64, &mut out);
    out.append(",msgpack:");
    push_decimal(snapshot.bridge_msgpack as u64, &mut out);
    out.append(" ws=");
    push_decimal(snapshot.ws as u64, &mut out);
    out.append(" queues=watch:");
    push_decimal(snapshot.watch_depth as u64, &mut out);
    out.append(",proc:");
    push_decimal(snapshot.proc_depth as u64, &mut out);
    out.append(",ws:");
    push_decimal(snapshot.ws_depth as u64, &mut out);
    out
}

/// The counts of a census, as their owners report them.
pub struct StatsCtx {
    pub watch: usize,
    pub proc_events: usize,
    pub ws_events: usize,
    pub bridge_json: usize,
    pub bridge_msgpack: usize,
    pub ws_clients: usize,
}

impl StatsCtx {
    /// The census line for `reason`, with the resident memory read before.
    pub fn snapshot(&self, reason: &str, rss_bytes: Option<u64>) -> (r: String)
        ensures
            r@ == census_text(
                reason@,
                (StatsSnapshot {
                    rss_bytes,
                    bridge_json: self.bridge_json,
                    bridge_msgpack: self.bridge_msgpack,
                    ws: self.ws_clients,
                    watch_depth: self.watch,
                    proc_depth: self.proc_events,
                    ws_depth: self.ws_events,
                }),
            ),
    {
        format_resource_stats(
            reason,
            &StatsSnapshot {
                rss_bytes,
                bridge_json: self.bridge_json,
                bridge_msgpack: self.bridge_msgpack,
                ws: self.ws_clients,
                watch_depth: self.watch,
                proc_depth: self.proc_events,
                ws_depth: self.ws_events,
            },
        )
    }
}

} // verus!
