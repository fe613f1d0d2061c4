//! The resource census.
use rsrpc::bridge::{Bridge, BridgeConfig};
use rsrpc::census::{format_resource_stats, StatsCtx, StatsSnapshot};
use rsrpc::consumer::BridgeProtocol;
use rsrpc::user::RpcUser;

#[test]
fn format_resource_stats_mentions_reason_and_fields() {
    // 40 MiB exactly: deterministic rendering check.
    let snapshot = StatsSnapshot {
        rss_bytes: Some(41_943_040),
        bridge_json: 1,
        bridge_msgpack: 0,
        ws: 2,
        watch_depth: 3,
        proc_depth: 4,
        ws_depth: 5,
    };
    let line = format_resource_stats("hourly", &snapshot);
    assert!(line.contains("hourly"), "reason missing: {line}");
    assert!(line.contains("40.0MB"), "rss missing: {line}");
    assert!(line.contains("json:1"), "bridge json count missing: {line}");
    assert!(
        line.contains("msgpack:0"),
        "bridge msgpack count missing: {line}"
    );
    assert!(line.contains("ws=2"), "ws client count missing: {line}");
    assert!(line.contains("watch:3"), "watch depth missing: {line}");
    assert!(line.contains("proc:4"), "proc depth missing: {line}");
    assert!(line.contains("ws:5"), "ws depth missing: {line}");
}

#[test]
fn stats_ctx_snapshot_reports_zeroed_state() {
    let stats = StatsCtx {
        watch: 0,
        proc_events: 0,
        ws_events: 0,
        bridge_json: 0,
        bridge_msgpack: 0,
        ws_clients: 0,
    };
    let line = stats.snapshot("boot", None);
    assert!(line.contains("boot"), "reason missing: {line}");
    assert!(line.contains("watch:0"), "watch depth missing: {line}");
}

#[test]
fn memory_is_rounded_to_tenths() {
    let mut snapshot = StatsSnapshot {
        rss_bytes: None,
        bridge_json: 0,
        bridge_msgpack: 0,
        ws: 0,
        watch_depth: 0,
        proc_depth: 0,
        ws_depth: 0,
    };
    assert!(format_resource_stats("x", &snapshot).contains("rss=n/a"));
    snapshot.rss_bytes = Some(1_572_864);
    assert!(format_resource_stats("x", &snapshot).contains("rss=1.5MB"));
    snapshot.rss_bytes = Some(0);
    assert!(format_resource_stats("x", &snapshot).contains("rss=0.0MB"));
}

#[test]
fn the_bridge_counts_its_consumers() {
    let config = BridgeConfig::new(0, 0, 0, 0);
    let Ok(mut bridge) = Bridge::bind(
        &config,
        RpcUser::default(),
        RpcUser::default(),
        1,
        2,
        None,
    ) else {
        panic!("binds");
    };
    for (id, uri) in [(1, "/"), (2, "/"), (3, "/?format=msgpack")] {
        assert!(bridge
            .shared
            .on_connect(id, None, uri, BridgeProtocol::Json)
            .is_some());
    }
    let line = bridge.census("boot", None, 7, 0, 0, 0);
    assert!(line.contains("json:2"), "{line}");
    assert!(line.contains("msgpack:1"), "{line}");
    assert!(line.contains("ws=7"), "{line}");
    bridge.shared.on_disconnect(1);
    assert_eq!(
        bridge.shared.census_snapshot(None, 0, 0, 0, 0).bridge_json,
        1
    );
}
