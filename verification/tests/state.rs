//! State snapshots and their slots.
use rsrpc::payload::{cached_activity, ActivityCmd};
use rsrpc::replay::ReplayCache;
use rsrpc::state::{
    is_stale_tmp, now_secs, path_inside, select_slot, slot_reusable, snapshot_tmp, stamp_reusable,
    start_time_text, state_activities, StateActivity, StateServer, StateServers, StateSnapshot,
};
use rsrpc::time::{clock_millis, clock_secs, Clock};

fn snapshot_at(ms: i64) -> String {
    let mut snapshot = StateSnapshot::new("0.35.0", StateServers::default(), vec![]);
    snapshot.timestamp = ms;
    snapshot.to_json().expect("encodes")
}

/// Snapshots stamp the caller daemon version, never the defining crate's
/// version.
#[test]
fn snapshot_carries_caller_version_not_crate_version() {
    let snapshot = StateSnapshot::new("9.9.9-test", StateServers::default(), vec![]);
    assert_eq!(snapshot.app_version, "9.9.9-test");
}

#[test]
fn missing_slot_is_reusable() {
    let slot = select_slot("/run/state", &vec![None; 10], 1_700_000_000).expect("a slot");
    assert_eq!(slot, "/run/state/rsrpc-state-0");
    let slot = select_slot("/run/state", &vec![], 1_700_000_000).expect("a slot");
    assert_eq!(slot, "/run/state/rsrpc-state-0");
}

#[test]
fn fresh_slot_is_skipped_stale_slot_is_reused() {
    let now_secs = 1_700_000_000_u64;

    // Fresh snapshot in slot 0 (timestamp == now): selection must skip to
    // slot 1.
    let fresh = vec![Some(snapshot_at(now_secs as i64 * 1000))];
    let slot = select_slot("/d", &fresh, now_secs).expect("a slot");
    assert_eq!(slot, "/d/rsrpc-state-1");

    // Age slot 0 past staleness: it becomes reusable again.
    let stale = vec![Some(snapshot_at((now_secs - 60) as i64 * 1000))];
    let slot = select_slot("/d", &stale, now_secs).expect("a slot");
    assert_eq!(slot, "/d/rsrpc-state-0");

    // Corrupt slot: reusable too.
    let corrupt = vec![Some("{not json".to_string())];
    let slot = select_slot("/d", &corrupt, now_secs).expect("a slot");
    assert_eq!(slot, "/d/rsrpc-state-0");

    // Every slot is owned.
    let owned: Vec<Option<String>> = (0..10)
        .map(|_| Some(snapshot_at(now_secs as i64 * 1000)))
        .collect();
    assert!(select_slot("/d", &owned, now_secs).is_none());
}

#[test]
fn snapshot_round_trips_through_json() {
    let snapshot = StateSnapshot::new(
        "0.35.0",
        StateServers {
            bridge: Some(StateServer {
                host: "127.0.0.1".to_string(),
                port: 1337,
            }),
            msgpack: None,
            websocket: None,
            ipc: Some("/tmp/discord-ipc-0".to_string()),
        },
        vec![StateActivity {
            socket_id: "42".to_string(),
            name: Some("A \"G\"".to_string()),
            application_id: None,
            pid: Some(42),
            start_time: Some("17".to_string()),
        }],
    );
    let text = snapshot.to_json().expect("encodes");
    assert_eq!(
        text,
        format!(
            r#"{{"appVersion":"0.35.0","timestamp":{},"servers":{{"bridge":{{"host":"127.0.0.1","port":1337}},"ipc":"/tmp/discord-ipc-0"}},"activities":[{{"socketId":"42","name":"A \"G\"","pid":42,"startTime":"17"}}]}}"#,
            snapshot.timestamp
        )
    );
    let back: serde_json::Value = serde_json::from_str(&text).expect("json");
    assert_eq!(back["appVersion"], "0.35.0");
    assert_eq!(back["timestamp"].as_i64(), Some(snapshot.timestamp));
    assert_eq!(back["servers"]["bridge"]["port"], 1337);
    assert_eq!(back["servers"]["ipc"], "/tmp/discord-ipc-0");
    assert_eq!(back["activities"][0]["name"], "A \"G\"");
    assert_eq!(back["activities"][0]["pid"], 42);
    let empty: serde_json::Value = serde_json::from_str(
        &StateSnapshot::new("0.35.0", StateServers::default(), vec![])
            .to_json()
            .expect("encodes"),
    )
    .expect("json");
    assert!(empty.get("servers").is_some());
    assert!(empty.get("activities").is_some());
}

/// Slot selection sweeps stale crash temps and keeps fresh ones, under the
/// same staleness rule as slots; other programs' temps are never touched.
#[test]
fn select_slot_sweeps_only_stale_tmps() {
    let real_now = now_secs();
    assert!(is_stale_tmp(
        "rsrpc-state-0.tmp-1-1",
        Some(real_now),
        real_now + 3600
    ));
    assert!(!is_stale_tmp(
        "rsrpc-state-1.tmp-1-2",
        Some(real_now),
        real_now
    ));
    assert!(!is_stale_tmp(
        "other-program.tmp-9-9",
        Some(real_now),
        real_now + 3600
    ));
    assert!(!is_stale_tmp("rsrpc-state-0", Some(0), real_now));
    assert!(!is_stale_tmp("rsrpc-state-0.tmp-1-1", None, real_now));
}

#[test]
fn staleness_is_exact() {
    assert!(!stamp_reusable(Some(1_000_000), 1_010));
    assert!(stamp_reusable(Some(1_000_000), 1_011));
    assert!(!stamp_reusable(Some(9_000_000), 1_000));
    assert!(stamp_reusable(Some(-5), 11));
    assert!(stamp_reusable(None, 0));
    assert!(slot_reusable(Some("{\"timestamp\":\"soon\"}"), 5));
    assert!(!slot_reusable(Some("{\"timestamp\":5000}"), 5));
    assert!(slot_reusable(None, 5));
}

#[test]
fn every_write_has_its_own_temp() {
    assert_eq!(
        snapshot_tmp("/d/rsrpc-state-0", 12, 3),
        "/d/rsrpc-state-0.tmp-12-3"
    );
    assert_eq!(snapshot_tmp("/a.b/slot", 1, 2), "/a.b/slot.tmp-1-2");
    assert_eq!(path_inside("/d/", "x"), "/d/x");
    assert_eq!(path_inside("", "x"), "x");
}

#[test]
fn cached_cards_become_activities() {
    let doc = r#"{"cmd":"SET_ACTIVITY","args":{"pid":42,"activity":{"name":"G","application_id":"app","timestamps":{"start":17}}},"nonce":"n"}"#;
    let cmd = ActivityCmd::from_json(doc).expect("command");
    let payload = cached_activity(&cmd).expect("payload");
    let mut cache: ReplayCache = ReplayCache::new();
    cache.put("42".to_string(), (payload, 1));
    let facts = state_activities(&cache);
    assert_eq!(facts.len(), 1);
    assert_eq!(facts[0].socket_id, "42");
    assert_eq!(facts[0].name.as_deref(), Some("G"));
    assert_eq!(facts[0].application_id.as_deref(), Some("app"));
    assert_eq!(facts[0].pid, Some(42));
    assert_eq!(facts[0].start_time.as_deref(), Some("17"));
    assert_eq!(
        start_time_text(Some("a".to_string()), Some("\"a\"".to_string())).as_deref(),
        Some("a")
    );
    assert!(start_time_text(None, None).is_none());
}

#[test]
fn clocks_are_read_in_either_unit() {
    assert!(now_secs() > 1_500_000_000);
    let at = Clock::default();
    assert_eq!(clock_secs(at), 0);
    assert_eq!(clock_millis(at), 0);
    assert_eq!(clock_secs(Some((5, 7_000_000))), 5);
    assert_eq!(clock_millis(Some((5, 7_999_999))), 5_007);
    assert_eq!(clock_millis(Some((u64::MAX, 0))), 0);
}
