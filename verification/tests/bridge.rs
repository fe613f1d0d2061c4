//! The bridge: consumers, replay, handoff between sources.
use std::sync::Arc;

use rsrpc::bridge::{Bridge, BridgeConfig, PortScan, Shared};
use rsrpc::consumer::{message_frame, BridgeProtocol, Consumers};
use rsrpc::flood::RecentActivities;
use rsrpc::handoff::{HandoffState, ProcInput};
use rsrpc::message::Message;
use rsrpc::payload::{
    cached_activity, empty_cached, generic_payload, to_millis, ActivityCmd, CachedActivity,
    ScannedGame,
};
use rsrpc::replay::{
    cache_entry_pid, prune_cache, resolve_pid, ReplayCache, MAX_CACHED_ACTIVITIES,
};
use rsrpc::router::{
    is_genuine_clear, next_occupancy, table_transition, take_matching_process,
    Router,
};
use rsrpc::table::Table;
use rsrpc::time::Duration;
use rsrpc::user::RpcUser;

fn shared() -> Shared {
    let mut config = BridgeConfig::new(0, 0, 0, 0);
    config.app_version = "test-bridge".to_string();
    Shared::new(
        &config,
        RpcUser::default(),
        RpcUser::default(),
        1337,
        1338,
        None,
    )
}

fn set_activity(pid: u64, name: &str) -> ActivityCmd {
    ActivityCmd::from_json(&format!(
        r#"{{"cmd":"SET_ACTIVITY","application_id":"app-1","args":{{"pid":{pid},"activity":{{"name":"{name}","type":0}}}},"nonce":"n1"}}"#
    ))
    .expect("command")
}

/// The same, as a transport hands it on: the activity names its application.
fn stamped_activity(pid: u64, name: &str) -> ActivityCmd {
    set_activity(pid, name).stamp(None)
}

fn clear(pid: u64) -> ActivityCmd {
    ActivityCmd::from_json(&format!(
        r#"{{"cmd":"SET_ACTIVITY","application_id":"app-1","args":{{"pid":{pid},"activity":null}},"nonce":"n2"}}"#
    ))
    .expect("command")
}

fn scanned(id: &str, pid: u64) -> ScannedGame {
    ScannedGame {
        id: id.to_string(),
        name: "Scanned".to_string(),
        pid,
        start: 1_700_000_000,
    }
}

fn body(payload: &CachedActivity) -> serde_json::Value {
    serde_json::from_str(&payload.json).expect("payload json")
}

fn json_of(message: &Message) -> serde_json::Value {
    match message {
        Message::Text(text) => serde_json::from_str(text).expect("json frame"),
        Message::Binary(bytes) => rmp_serde::from_slice(bytes).expect("msgpack frame"),
        _ => panic!("unknown frame"),
    }
}

fn drain(shared: &mut Shared) -> Vec<serde_json::Value> {
    shared
        .router
        .take_outbox()
        .iter()
        .map(|payload| body(payload))
        .collect()
}

fn join(shared: &mut Shared, id: u64) -> Vec<serde_json::Value> {
    shared
        .on_connect(id, None, "/?format=json", BridgeProtocol::Json)
        .expect("admitted")
        .iter()
        .map(json_of)
        .collect()
}

/// Registration means presence in the protocol table: refused origins never
/// insert, so their ids stay unknown even if a frame arrives.
#[test]
fn registration_means_protocol_table_presence() {
    let mut shared = shared();
    assert!(!shared.is_registered(7));
    shared
        .consumers
        .consumer_protocol
        .insert(7, BridgeProtocol::Json);
    assert!(shared.is_registered(7));
    assert!(!shared.is_registered(8));
}

/// Publishing past the replay bound keeps the cache within it: steady memory
/// no matter how many distinct publishers arrive.
#[test]
fn broadcast_keeps_replay_cache_bounded() {
    let mut shared = shared();
    for i in 0..(MAX_CACHED_ACTIVITIES * 2) {
        let cmd = ActivityCmd::from_json(&format!(
            r#"{{"cmd":"SET_ACTIVITY","application_id":"app-{i}","args":{{"pid":{i},"activity":{{"name":"G","type":0}}}},"nonce":"n"}}"#
        ))
        .expect("test command builds");
        let payload = cached_activity(&cmd).expect("fixed shapes build");
        shared.router.broadcast_activity(payload, i.to_string());
    }
    let len = shared.router.cache.len();
    assert!(
        len <= MAX_CACHED_ACTIVITIES,
        "cache must stay bounded, got {len}"
    );
    assert!(shared.router.cache.has("99"));
    assert!(!shared.router.cache.has("0"));
}

/// Session lines fire only on empty<->non-empty edges; slot churn stays
/// quiet.
#[test]
fn table_transition_fires_only_on_state_edges() {
    let game = ScannedGame {
        id: "1".to_string(),
        name: "G".to_string(),
        pid: 7,
        start: 0,
    };
    // Empty -> game: session start; repeats stay quiet.
    assert_eq!(
        table_transition(false, &ProcInput::Detected(game.clone())),
        Some("game-start")
    );
    assert_eq!(table_transition(true, &ProcInput::Detected(game)), None);
    // Stale removals (pid mismatch) release nothing; matching ones do.
    let mut table = Table::new();
    table.put("1".to_string(), 7u64);
    assert_eq!(take_matching_process(&mut table, "1", 8), None);
    assert!(table.has("1"));
    assert_eq!(take_matching_process(&mut table, "1", 7), Some(7));
    assert!(!table.has("1"));
    assert_eq!(take_matching_process(&mut table, "9", 7), None);
    // Game -> empty: session end; repeats stay quiet.
    assert_eq!(
        table_transition(true, &ProcInput::Cleared),
        Some("game-end")
    );
    assert_eq!(table_transition(false, &ProcInput::Cleared), None);
    // Per-slot churn stays quiet in both occupancy states.
    assert_eq!(
        table_transition(true, &ProcInput::Removed("1".to_string(), 7)),
        None
    );
    assert_eq!(
        table_transition(false, &ProcInput::Removed("1".to_string(), 7)),
        None
    );
    assert!(next_occupancy(true, &ProcInput::Removed("1".to_string(), 7)));
    assert!(!next_occupancy(true, &ProcInput::Cleared));
}

/// The replay cache never outgrows its bound, no matter how many distinct
/// publishers arrive.
#[test]
fn prune_keeps_cache_within_bound() {
    let mut cache: ReplayCache = ReplayCache::new();
    for i in 0..(MAX_CACHED_ACTIVITIES * 3) {
        let id = i.to_string();
        let payload = empty_cached(i as u64, &id).expect("fixed shapes build");
        cache.put(id, (payload, i as u64));
    }
    prune_cache(&mut cache);
    assert!(
        cache.len() <= MAX_CACHED_ACTIVITIES,
        "cache must stay bounded, got {}",
        cache.len()
    );
}

fn cached_with(pid_json: &str) -> CachedActivity {
    CachedActivity {
        json: format!(r#"{{"activity":null,"pid":{pid_json}}}"#),
        msgpack: Vec::new(),
        is_clear: true,
        activity_json: String::new(),
    }
}

#[test]
fn prefers_numeric_socket_id() {
    let payload = cached_with("42");
    assert_eq!(cache_entry_pid("4242", &payload), Some(4242));
}

#[test]
fn falls_back_to_body() {
    let payload = cached_with("77");
    assert_eq!(cache_entry_pid("some-app-id", &payload), Some(77));
}

#[test]
fn rejects_zero_and_garbage() {
    let payload = cached_with("0");
    assert_eq!(cache_entry_pid("0", &payload), None);
    let payload = cached_with("9");
    assert_eq!(cache_entry_pid("0", &payload), None);
    let broken = CachedActivity {
        json: "not json".to_string(),
        msgpack: Vec::new(),
        is_clear: true,
        activity_json: String::new(),
    };
    assert_eq!(cache_entry_pid("app", &broken), None);
    assert_eq!(resolve_pid("app", Some(0)), None);
    assert_eq!(resolve_pid("app", Some(5)), Some(5));
}

#[test]
fn publish_reaches_both_protocols_with_replay() {
    let mut shared = shared();
    let ready = join(&mut shared, 1);
    assert_eq!(ready.len(), 1);
    assert_eq!(ready[0]["evt"], "READY");
    let packed = shared
        .on_connect(2, None, "/?format=msgpack", BridgeProtocol::Json)
        .expect("admitted");
    assert!(matches!(packed[0], Message::Binary(_)));
    assert_eq!(json_of(&packed[0])["evt"], "READY");

    let _ = shared.on_command(&set_activity(42, "Game"), 0, &vec![]);
    let sent = shared.router.take_outbox();
    assert_eq!(sent.len(), 1);
    let got = body(&sent[0]);
    assert_eq!(got["activity"]["name"], "Game");
    assert_eq!(got["pid"], 42);
    assert_eq!(got["socketId"], "42");
    let pack: serde_json::Value = rmp_serde::from_slice(&sent[0].msgpack).expect("msgpack");
    assert_eq!(pack, got);

    let _ = shared.on_command(&set_activity(43, "GameLeg"), 0, &vec![]);
    let got = drain(&mut shared);
    assert_eq!(got[0]["activity"]["name"], "GameLeg");
    assert_eq!(got[0]["pid"], 43);

    // Late joiner replays the cached presence (both slots, any order).
    let late = join(&mut shared, 3);
    let mut names: Vec<&str> = late[1..]
        .iter()
        .map(|v| v["activity"]["name"].as_str().expect("name"))
        .collect();
    names.sort();
    assert_eq!(names, vec!["Game", "GameLeg"]);
}

#[test]
fn set_user_fans_out_current_user_update() {
    let mut shared = shared();
    join(&mut shared, 1);
    let replies = shared.on_message(
        1,
        &Message::from(r#"{"type":"SET_USER","nonce":"1","patch":{"username":"web"}}"#),
        BridgeProtocol::Json,
    );
    let ack = json_of(&replies.to_sender.expect("ack"));
    assert_eq!(ack["type"], "SET_USER_ACK");
    assert_eq!(ack["nonce"], "1");
    let update: serde_json::Value =
        serde_json::from_str(&replies.to_all.expect("update")).expect("json");
    assert_eq!(update["evt"], "CURRENT_USER_UPDATE");
    assert_eq!(update["data"]["username"], "web");
    // The same patch again changes nothing, and a reset undoes it.
    let again = shared.on_message(
        1,
        &Message::from(r#"{"type":"SET_USER","nonce":"1","patch":{"username":"web"}}"#),
        BridgeProtocol::Json,
    );
    assert!(again.to_all.is_none());
    let reset = shared.on_message(
        1,
        &Message::from(r#"{"type":"RESET_USER"}"#),
        BridgeProtocol::Json,
    );
    let ack = json_of(&reset.to_sender.expect("ack"));
    assert_eq!(ack["type"], "RESET_USER_ACK");
    assert!(ack["nonce"].is_null());
    assert!(shared.user.same_as(&RpcUser::default()));
    // Strangers drive nothing; anything else is echoed.
    let stranger = shared.on_message(
        9,
        &Message::from(r#"{"type":"SET_USER","patch":{"username":"x"}}"#),
        BridgeProtocol::Json,
    );
    assert!(stranger.to_sender.is_none() && stranger.to_all.is_none());
    let echo = shared.on_message(1, &Message::from("hello"), BridgeProtocol::Json);
    assert_eq!(echo.to_sender, Some(Message::from("hello")));
}

#[test]
fn genuine_clear_empties_replay() {
    let mut shared = shared();
    join(&mut shared, 1);
    let _ = shared.on_command(&set_activity(42, "Game"), 0, &vec![]);
    assert_eq!(drain(&mut shared)[0]["activity"]["name"], "Game");
    // Genuine clear: null activity, nonzero pid.
    let _ = shared.on_command(&clear(42), 10, &vec![]);
    assert!(drain(&mut shared)[0]["activity"].is_null());
    // Late joiner replays nothing (only READY arrives).
    assert_eq!(join(&mut shared, 2).len(), 1, "cleared slot must not replay");
    assert!(is_genuine_clear(&clear(42)));
    assert!(!is_genuine_clear(&clear(0)));
    assert!(!is_genuine_clear(&set_activity(42, "Game")));
}

#[test]
fn process_scan_publishes_generic_and_null_clears() {
    let mut shared = shared();
    let reason = shared.on_scan(&ProcInput::Detected(scanned("game-9", 4242)), &vec![4242]);
    assert_eq!(reason, Some("game-start"));
    let got = drain(&mut shared);
    assert_eq!(got[0]["activity"]["name"], "Scanned");
    assert_eq!(got[0]["pid"], 4242);
    let reason = shared.on_scan(&ProcInput::Cleared, &vec![4242]);
    assert_eq!(reason, Some("game-end"));
    assert!(drain(&mut shared)[0]["activity"].is_null());
}

#[test]
fn null_scan_clears_live_generic_exactly_once() {
    let mut shared = shared();
    let live = 777;
    shared.on_scan(&ProcInput::Detected(scanned("123456789", live)), &vec![live]);
    assert_eq!(drain(&mut shared).len(), 1);
    shared.on_scan(&ProcInput::Cleared, &vec![live]);
    let cleared = drain(&mut shared);
    assert_eq!(
        cleared.len(),
        1,
        "null sweep must not re-clear after the table clear"
    );
    assert!(cleared[0]["activity"].is_null());
    shared.on_scan(&ProcInput::Cleared, &vec![live]);
    assert!(drain(&mut shared).is_empty());
}

#[test]
fn format_override_consumer_stays_on_resolved_protocol() {
    let mut shared = shared();
    assert!(shared
        .on_connect(5, None, "/?format=msgpack", BridgeProtocol::Json)
        .is_some());
    assert_eq!(
        shared.consumers.protocol_for(5, BridgeProtocol::Json),
        BridgeProtocol::MsgPack
    );
    assert_eq!(shared.consumers.count(BridgeProtocol::MsgPack), 1);
    assert_eq!(shared.consumers.count(BridgeProtocol::Json), 0);
}

#[test]
fn null_scan_reaps_dead_pid_cards_from_replay() {
    let mut shared = shared();
    let dead = u32::MAX as u64;
    let _ = shared.on_command(&set_activity(dead, "Ghost"), 0, &vec![]);
    assert_eq!(drain(&mut shared)[0]["activity"]["name"], "Ghost");
    assert!(shared.watched_pids().contains(&dead));
    shared.on_scan(&ProcInput::Cleared, &vec![]);
    let cleared = drain(&mut shared);
    assert!(
        cleared[0]["activity"].is_null(),
        "expected clear for dead pid"
    );
    assert_eq!(cleared[0]["pid"], dead);
    assert_eq!(join(&mut shared, 1).len(), 1, "ghost must not replay");
}

#[test]
fn null_scan_keeps_live_pid_cards() {
    let mut shared = shared();
    let live = 4321;
    let _ = shared.on_command(&set_activity(live, "Live"), 0, &vec![live]);
    assert_eq!(drain(&mut shared)[0]["activity"]["name"], "Live");
    shared.on_scan(&ProcInput::Cleared, &vec![live]);
    assert!(drain(&mut shared).is_empty());
    let late = join(&mut shared, 1);
    assert_eq!(late[1]["activity"]["name"], "Live");
}

/// The generic card goes the moment the game reports itself, and comes back
/// when its owner clears while the game still runs.
#[test]
fn self_reported_presence_takes_over_and_hands_back() {
    let mut shared = shared();
    shared.on_scan(&ProcInput::Detected(scanned("app-1", 7)), &vec![7]);
    assert_eq!(drain(&mut shared)[0]["activity"]["name"], "Scanned");
    let _ = shared.on_command(&stamped_activity(42, "Own"), 0, &vec![7, 42]);
    let sent = drain(&mut shared);
    assert_eq!(sent.len(), 2);
    assert!(sent[0]["activity"].is_null());
    assert_eq!(sent[0]["socketId"], "app-1");
    assert_eq!(sent[1]["activity"]["name"], "Own");
    // Detected again: still withdrawn.
    shared.on_scan(&ProcInput::Detected(scanned("app-1", 7)), &vec![7, 42]);
    assert!(drain(&mut shared).is_empty());
    // A close of a publisher that was superseded is ignored.
    let _ = shared.on_command(&stamped_activity(43, "Second"), 10, &vec![7, 42, 43]);
    drain(&mut shared);
    let _ = shared.on_command(&clear(42), 20, &vec![7, 42, 43]);
    let sent = drain(&mut shared);
    assert_eq!(sent.len(), 1);
    assert_eq!(sent[0]["socketId"], "42");
    // The owner clears: the generic card is back.
    let _ = shared.on_command(&clear(43), 30, &vec![7, 43]);
    let names: Vec<bool> = drain(&mut shared)
        .iter()
        .map(|v| v["activity"].is_null())
        .collect();
    assert_eq!(names, vec![false, true]);
    assert!(shared.router.cache.has("app-1"));
    // Not for a game that is gone.
    let _ = shared.on_command(&stamped_activity(44, "Third"), 40, &vec![]);
    let _ = shared.on_command(&clear(44), 50, &vec![]);
    assert!(!shared.router.cache.has("app-1"));
}

#[test]
fn identical_publishes_are_silent() {
    let mut router = Router::new(1000);
    let cmd = set_activity(42, "Game");
    router.handle_set_activity(&cmd, 0, &vec![]);
    assert_eq!(router.take_outbox().len(), 1);
    // Within the window the flood guard drops it, later the comparison does.
    assert!(router.flood_dropped(&cmd, 999));
    router.handle_set_activity(&cmd, 5_000, &vec![]);
    assert!(router.take_outbox().is_empty());
    assert!(router.activity_changed(42, Some("{}")));
    router.handle_set_activity(&set_activity(42, "Other"), 5_001, &vec![]);
    assert_eq!(router.take_outbox().len(), 1);
}

#[test]
fn the_flood_window_is_per_publisher() {
    let mut recent = RecentActivities::new(1000);
    assert!(!recent.should_drop("a", 1, Some("x"), 0));
    assert!(recent.should_drop("a", 1, Some("x"), 999));
    assert!(!recent.should_drop("a", 2, Some("x"), 999));
    assert!(!recent.should_drop("b", 1, Some("x"), 999));
    assert!(!recent.should_drop("a", 1, Some("y"), 999));
    assert!(!recent.should_drop("a", 1, Some("y"), 1999));
}

#[test]
fn refreshes_send_the_cache_again() {
    let mut router = Router::new(0);
    assert!(router.take_dirty());
    assert!(!router.take_dirty());
    router.refresh_once();
    assert!(router.take_outbox().is_empty());
    assert!(router.take_dirty());
    router.handle_set_activity(&set_activity(1, "A"), 0, &vec![]);
    router.handle_set_activity(&set_activity(2, "B"), 0, &vec![]);
    router.take_outbox();
    router.refresh_once();
    assert_eq!(router.take_outbox().len(), 2);
}

#[test]
fn shown_generic_cards_are_taken_once() {
    let mut router = Router::new(0);
    router.resume_generic(&scanned("b", 2));
    router.resume_generic(&scanned("a", 9));
    router.resume_generic(&scanned("c", 1));
    assert_eq!(
        router.take_process_clear(),
        vec![
            ("c".to_string(), 1),
            ("b".to_string(), 2),
            ("a".to_string(), 9)
        ]
    );
    assert!(router.take_process_clear().is_empty());
}

#[test]
fn handoff_follows_the_last_publisher() {
    let mut handoff = HandoffState::new();
    handoff.note_publish("app", 1);
    handoff.note_publish("app", 2);
    assert!(handoff.is_suppressed("app"));
    assert!(!handoff.note_clear("app", 1));
    assert!(handoff.is_suppressed("app"));
    assert!(handoff.note_clear("app", 2));
    assert!(!handoff.is_suppressed("app"));
    handoff.note_publish("x", 5);
    handoff.note_publish("y", 5);
    let mut freed = handoff.note_clear_pid(5);
    freed.sort();
    assert_eq!(freed, vec!["x".to_string(), "y".to_string()]);
    handoff.note_scan(Some(&scanned("x", 3)));
    assert_eq!(handoff.resume_for("x").map(|g| g.pid), Some(3));
    handoff.note_remove("x", 4);
    assert!(handoff.resume_for("x").is_some());
    handoff.note_remove("x", 3);
    assert!(handoff.resume_for("x").is_none());
}

#[test]
fn generic_payloads_have_the_wire_shape() {
    let payload = generic_payload(&scanned("game-9", 4242));
    let got = body(&payload);
    assert_eq!(got["socketId"], "game-9");
    assert_eq!(got["pid"], 4242);
    assert_eq!(got["activity"]["application_id"], "game-9");
    assert_eq!(got["activity"]["name"], "Scanned");
    assert_eq!(got["activity"]["timestamps"]["start"], 1_700_000_000_u64);
    assert_eq!(got["activity"]["type"], 0);
    assert!(!payload.is_clear);
    let pack: serde_json::Value = rmp_serde::from_slice(&payload.msgpack).expect("msgpack");
    assert_eq!(pack, got);
}

#[test]
fn other_events_are_forwarded_in_used_encodings() {
    let mut shared = shared();
    let doc = r#"{"cmd":"INVITE_BROWSER","args":{"code":"abc"},"nonce":"n"}"#;
    let cmd = ActivityCmd::from_json(doc).expect("command");
    let (json, pack) = shared.on_command(&cmd, 0, &vec![]);
    assert!(json.is_none() && pack.is_none());
    join(&mut shared, 1);
    let (json, pack) = shared.on_command(&cmd, 0, &vec![]);
    assert_eq!(json_of(&json.expect("frame"))["cmd"], "INVITE_BROWSER");
    assert!(pack.is_none());
    assert!(message_frame("not json", BridgeProtocol::MsgPack).is_none());
    assert!(message_frame("not json", BridgeProtocol::Json).is_some());
}

#[test]
fn stuck_consumers_are_released_and_counted() {
    let mut consumers = Consumers::new();
    consumers.join(1, BridgeProtocol::Json);
    consumers.join(2, BridgeProtocol::Json);
    consumers.join(3, BridgeProtocol::MsgPack);
    consumers.prune(BridgeProtocol::Json, &vec![1, 3, 9], true);
    assert!(!consumers.is_registered(1));
    assert!(consumers.is_registered(2));
    assert!(consumers.is_registered(3));
    assert_eq!(consumers.dropped, 1);
    consumers.prune(BridgeProtocol::Json, &vec![2], false);
    assert_eq!(consumers.dropped, 1);
    consumers.leave(3);
    assert_eq!(consumers.count(BridgeProtocol::MsgPack), 0);
}

#[test]
fn foreign_origins_are_refused() {
    let mut config = BridgeConfig::new(0, 0, 0, 0);
    config.allow_origin("HTTPS://My-Client.Example/");
    let mut shared = Shared::new(
        &config,
        RpcUser::default(),
        RpcUser::default(),
        1,
        2,
        None,
    );
    assert!(shared
        .on_connect(1, Some("https://evil.example"), "/", BridgeProtocol::Json)
        .is_none());
    assert!(!shared.is_registered(1));
    assert!(shared
        .on_connect(
            1,
            Some("https://my-client.example"),
            "/",
            BridgeProtocol::Json
        )
        .is_some());
}

#[test]
fn cadences_of_zero_are_refused() {
    let mut config = BridgeConfig::new(0, 0, 0, 0);
    assert!(config.validate().is_ok());
    config.refresh_interval = Duration::from_secs(0);
    let Err(err) = config.validate() else {
        panic!("zero cadence");
    };
    assert_eq!(
        err.to_string(),
        "invalid transport config: refresh_interval must be non-zero"
    );
    config.persist_interval = Duration::from_millis(0);
    let Err(err) = Bridge::bind(
        &config,
        RpcUser::default(),
        RpcUser::default(),
        1,
        2,
        None,
    ) else {
        panic!("zero cadence");
    };
    assert_eq!(
        err.to_string(),
        "invalid transport config: persist_interval must be non-zero"
    );
}

fn ports(mut scan: PortScan) -> Vec<u16> {
    let mut out = Vec::new();
    while let Some(port) = scan.next_port() {
        out.push(port);
    }
    out
}

#[test]
fn ports_are_offered_once_and_in_order() {
    let config = BridgeConfig::new(1337, 1340, 1338, 1340);
    assert_eq!(
        ports(Bridge::json_ports(&config)),
        vec![1337, 1338, 1339, 1340]
    );
    assert_eq!(
        ports(Bridge::msgpack_ports(&config, 1339)),
        vec![1338, 1340]
    );
    let reversed = BridgeConfig::new(7, 3, 65535, 65535);
    assert_eq!(ports(Bridge::json_ports(&reversed)), vec![7]);
    assert_eq!(ports(Bridge::msgpack_ports(&reversed, 7)), vec![65535]);
    assert_eq!(
        Bridge::exhausted("json", 7, 3).to_string(),
        "bridge json launch failed on ports 7-7: all in use"
    );
}

#[test]
fn the_bound_bridge_reports_its_places() {
    let config = BridgeConfig::new(0, 0, 0, 0);
    let Ok(mut bridge) = Bridge::bind(
        &config,
        RpcUser::default(),
        RpcUser::default(),
        1337,
        1338,
        Some("/d/rsrpc-state-0".to_string()),
    ) else {
        panic!("binds");
    };
    assert_eq!(bridge.json_port(), 1337);
    assert_eq!(bridge.msgpack_port(), 1338);
    assert_eq!(bridge.state_path(), Some("/d/rsrpc-state-0"));
    assert_eq!(bridge.dropped_total(), 0);
    bridge.shared.consumers.dropped = u64::MAX;
    bridge.shared.router.dropped_broadcasts = 3;
    assert_eq!(bridge.dropped_total(), 2);
    let servers = bridge.shared.servers();
    assert_eq!(servers.bridge.map(|s| s.port), Some(1337));
    assert!(servers.websocket.is_none());
    assert_eq!(
        Bridge::drain_remaining(Duration::from_secs(2)),
        Some(Duration::from_secs(3))
    );
    assert_eq!(Bridge::drain_remaining(Duration::from_secs(5)), None);
}

#[test]
fn caches_share_payloads() {
    let mut router = Router::new(0);
    router.handle_set_activity(&set_activity(1, "A"), 0, &vec![]);
    let sent = router.take_outbox();
    let cached = router.cache.get("1").expect("cached");
    assert!(Arc::ptr_eq(&sent[0], &cached.0));
}

/// `i64::MIN` seconds would overflow `* 1000`: saturation keeps the floor
/// instead of panicking (debug) or wrapping (release).
#[test]
fn hostile_timestamps_saturate_instead_of_overflowing() {
    let mut cmd = ActivityCmd::from_json(&format!(
        r#"{{"cmd":"SET_ACTIVITY","application_id":"app","args":{{"pid":7,"activity":{{"name":"G","type":0,"timestamps":{{"start":{0},"end":{0}}}}}}},"nonce":"n"}}"#,
        i64::MIN
    ))
    .expect("command");
    // Must return, not panic.
    cmd.fix_timestamps();
    let activity = cmd.args.as_ref().unwrap().activity.as_ref().unwrap();
    let rendered: serde_json::Value = serde_json::from_str(&activity.json).expect("json");
    assert_eq!(rendered["timestamps"]["start"], i64::MIN);
    assert_eq!(rendered["timestamps"]["end"], i64::MIN);
    assert!(
        activity.json.contains("-9223372036854775808"),
        "must saturate at the floor, got {}",
        activity.json
    );
}

#[test]
fn published_timestamps_are_milliseconds() {
    assert_eq!(to_millis(1_700_000_000), 1_700_000_000_000);
    assert_eq!(to_millis(1_700_000_000_000), 1_700_000_000_000);
    assert_eq!(to_millis(9_999_999_999), 9_999_999_999_000);
    assert_eq!(to_millis(10_000_000_000), 10_000_000_000);
    assert_eq!(to_millis(-1), -1000);
    let doc = r#"{"cmd":"SET_ACTIVITY","args":{"pid":42,"activity":{"name":"G","timestamps":{"start":1700000000,"end":"soon"}}},"nonce":"n"}"#;
    let cmd = ActivityCmd::from_json(doc).expect("command");
    let mut router = Router::new(0);
    router.handle_set_activity(&cmd, 0, &vec![]);
    let sent = router.take_outbox();
    let got = body(&sent[0]);
    assert_eq!(got["activity"]["timestamps"]["start"], 1_700_000_000_000_i64);
    assert_eq!(got["activity"]["timestamps"]["end"], "soon");
    assert_eq!(got["activity"]["name"], "G");
    let pack: serde_json::Value = rmp_serde::from_slice(&sent[0].msgpack).expect("msgpack");
    assert_eq!(pack, got);
    // The same command again is the same activity.
    router.handle_set_activity(&cmd, 5_000, &vec![]);
    assert!(router.take_outbox().is_empty());
}

#[test]
fn repeated_clears_are_silent() {
    let mut router = Router::new(0);
    router.handle_set_activity(&set_activity(42, "Game"), 0, &vec![]);
    router.handle_set_activity(&clear(42), 1, &vec![]);
    router.take_outbox();
    router.handle_set_activity(&clear(42), 2, &vec![]);
    assert!(router.take_outbox().is_empty());
    assert!(!router.cache.has("42"));
}

/// Where each key stands in an encoding.
fn key_order(bytes: &[u8], keys: &[&str]) -> Vec<usize> {
    keys.iter()
        .map(|key| {
            bytes
                .windows(key.len())
                .position(|w| w == key.as_bytes())
                .expect("key")
        })
        .collect()
}

/// Payloads keep the order of their fields in either encoding; control
/// frames are sorted in MessagePack.
#[test]
fn fields_keep_their_order() {
    let payload = generic_payload(&scanned("game-9", 4242));
    let keys = [
        "activity",
        "application_id",
        "name",
        "timestamps",
        "start",
        "type",
        "metadata",
        "flags",
        "pid",
        "socketId",
    ];
    assert!(key_order(&payload.msgpack, &keys).is_sorted());
    assert!(key_order(payload.json.as_bytes(), &keys).is_sorted());
    assert_eq!(
        payload.json,
        r#"{"activity":{"application_id":"game-9","name":"Scanned","timestamps":{"start":1700000000},"type":0,"metadata":{},"flags":0},"pid":4242,"socketId":"game-9"}"#
    );
    // A map of three fields, the first one named `activity`.
    assert_eq!(payload.msgpack[0], 0x83);
    assert_eq!(payload.msgpack[1], 0xa8);
    let Some(Message::Binary(ready)) = message_frame(
        &RpcUser::default().ready_payload(),
        BridgeProtocol::MsgPack,
    ) else {
        panic!("binary frame");
    };
    assert!(key_order(&ready, &["cmd", "data", "config", "user", "evt", "nonce"]).is_sorted());
    let mut shared = shared();
    assert!(shared
        .on_connect(1, None, "/?format=msgpack", BridgeProtocol::Json)
        .is_some());
    let doc = r#"{"nonce":"n","cmd":"DEEP_LINK","args":{"zz":1,"yy":2}}"#;
    let cmd = ActivityCmd::from_json(doc).expect("command");
    let (_, Some(Message::Binary(raw))) = shared.on_command(&cmd, 0, &vec![]) else {
        panic!("binary frame");
    };
    assert!(key_order(&raw, &["nonce", "cmd", "args", "zz", "yy"]).is_sorted());
}

/// Names are escaped as JSON asks.
#[test]
fn texts_are_escaped() {
    let mut game = scanned("g", 1);
    game.name = "q\"b\\t\tc\u{1}u\u{1f}\u{7f}\u{8}\u{c}\n\ré".to_string();
    let payload = generic_payload(&game);
    assert!(payload
        .json
        .contains("\"name\":\"q\\\"b\\\\t\\tc\\u0001u\\u001f\u{7f}\\b\\f\\n\\ré\""));
    assert_eq!(body(&payload)["activity"]["name"], game.name.as_str());
}

/// A repeat that was dropped, sent again after the window, is silent as long
/// as the card carries the same activity.
#[test]
fn a_dropped_repeat_stays_silent_later() {
    let mut router = Router::new(1000);
    let cmd = stamped_activity(42, "Game");
    router.handle_set_activity(&cmd, 0, &vec![]);
    assert_eq!(router.take_outbox().len(), 1);
    router.handle_set_activity(&cmd, 500, &vec![]);
    assert!(router.take_outbox().is_empty());
    router.handle_set_activity(&cmd, 5_000, &vec![]);
    assert!(router.take_outbox().is_empty());
    assert!(router.cache.has("42"));
}
