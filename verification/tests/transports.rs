//! The game transports: websocket and IPC.
use rsrpc::commands::{answer_command, command, Command};
use rsrpc::frame::{
    check_header, decode_header, encode, is_pong, Connection, PacketType, Refusal,
    MAX_IPC_PAYLOAD,
};
use rsrpc::ipc::{socket_base, BindAttempt, BindStep, SocketScan};
use rsrpc::message::Message;
use rsrpc::paths::{
    candidate_dirs_from, fanout_socket_link, is_ours, paths_equal, remove_socket_links,
    socket_file_name, LinkAction, LinkState,
};
use rsrpc::payload::ActivityCmd;
use rsrpc::publications::{Publications, MAX_PUBLICATIONS};
use rsrpc::query::query_params;
use rsrpc::sink::{channel_depth, queue_depth, EventSink};
use rsrpc::user::RpcUser;
use rsrpc::ws::{on_connect, origin_allowed, WsClients, WsTransportConfig};

const SET_ACTIVITY: &str =
    r#"{"cmd":"SET_ACTIVITY","args":{"pid":123,"activity":{"name":"Game","type":0}},"nonce":"1"}"#;

const URI: &str = "/?v=1&encoding=json&client_id=test-app";

fn config() -> WsTransportConfig {
    WsTransportConfig {
        port_start: 6463,
        port_end: 6472,
        event_queue: 64,
        max_connections: 64,
        per_client_queue: 64,
        set_activity: true,
        secondary_events: true,
    }
}

fn connect(clients: &mut WsClients, id: u64, uri: &str) -> bool {
    match on_connect(uri, None, &RpcUser::default()) {
        Some(greeting) => {
            let ready: serde_json::Value =
                serde_json::from_str(&greeting.ready).expect("ready json");
            assert_eq!(ready["evt"], "READY");
            clients.register(id, greeting.client_id);
            true
        }
        None => false,
    }
}

fn send(clients: &mut WsClients, id: u64, text: &str) -> (Vec<ActivityCmd>, Option<String>) {
    let handled = clients.on_message(id, &Message::from(text), &RpcUser::default(), true, true);
    (handled.forward, handled.reply)
}

fn json(text: &str) -> serde_json::Value {
    serde_json::from_str(text).expect("json")
}

fn is_clear(cmd: &ActivityCmd) -> bool {
    cmd.cmd == "SET_ACTIVITY" && cmd.args.as_ref().is_some_and(|args| args.activity.is_none())
}

fn pid_of(cmd: &ActivityCmd) -> Option<u64> {
    cmd.args.as_ref().and_then(|args| args.pid)
}

#[test]
fn transport_origin_policy() {
    assert!(origin_allowed(None));
    assert!(origin_allowed(Some("https://discord.com")));
    assert!(origin_allowed(Some("https://canary.discord.com")));
    assert!(origin_allowed(Some("https://ptb.discord.com")));
    assert!(!origin_allowed(Some("https://evil.example")));
    assert!(!origin_allowed(Some("")));
}

#[test]
fn query_params_match_legacy_semantics() {
    let params = query_params("/?v=1&client_id=abc");
    assert_eq!(params.get("v").map(String::as_str), Some("1"));
    assert_eq!(params.get("client_id").map(String::as_str), Some("abc"));
}

#[test]
fn emit_never_blocks_and_counts() {
    let (mut sink, mut rx) = EventSink::bounded(1);
    sink.emit(ActivityCmd::empty());
    sink.emit(ActivityCmd::empty());
    assert_eq!(sink.dropped_total(), 1);
    assert!(rx.try_recv().is_ok());
}

#[test]
fn queued_commands_arrive_unchanged_and_in_order() {
    let (mut sink, mut rx) = EventSink::bounded(2);
    let first = ActivityCmd::clear_for(Some("a".to_string()), 1);
    let second = ActivityCmd::clear_for(Some("b".to_string()), 2);
    assert!(sink.emit(first));
    assert!(sink.emit(second));
    assert!(!sink.emit(ActivityCmd::clear_for(None, 3)));
    let first = rx.try_recv().expect("queued");
    assert_eq!(first.application_id.as_deref(), Some("a"));
    assert_eq!(pid_of(&first), Some(1));
    let second = rx.try_recv().expect("queued");
    assert_eq!(second.application_id.as_deref(), Some("b"));
    assert_eq!(pid_of(&second), Some(2));
    assert!(rx.try_recv().is_err());
}

#[test]
fn depths_count_what_is_queued() {
    assert_eq!(queue_depth(64, 60), 4);
    assert_eq!(queue_depth(60, 64), 0);
    assert_eq!(channel_depth(None), 0);
    let (mut sink, mut rx) = EventSink::bounded(3);
    assert_eq!(sink.depth(), 0);
    for _ in 0..5 {
        sink.emit(ActivityCmd::empty());
    }
    assert_eq!(sink.depth(), 3);
    assert_eq!(sink.dropped_total(), 2);
    assert!(rx.try_recv().is_ok());
    assert_eq!(sink.depth(), 2);
}

#[test]
fn set_activity_flows_to_sink_with_reply() {
    let mut clients = WsClients::new();
    assert!(connect(&mut clients, 1, URI));
    assert_eq!(clients.client_count(), 1);
    let (forward, reply) = send(&mut clients, 1, SET_ACTIVITY);
    assert_eq!(forward.len(), 1);
    let cmd = &forward[0];
    assert_eq!(cmd.cmd, "SET_ACTIVITY");
    // client_id falls back to the connect query when the command omits it.
    assert_eq!(cmd.application_id.as_deref(), Some("test-app"));
    assert_eq!(pid_of(cmd), Some(123));
    let reply = json(&reply.expect("reply"));
    assert_eq!(reply["cmd"], "SET_ACTIVITY");
    assert_eq!(reply["nonce"], "1");
    assert_eq!(reply["data"]["name"], "Game");
    assert_eq!(reply["data"]["application_id"], "test-app");
    assert!(reply["evt"].is_null());
}

#[test]
fn invalid_version_is_closed_without_sink_traffic() {
    let mut clients = WsClients::new();
    assert!(!connect(
        &mut clients,
        1,
        "/?v=2&encoding=json&client_id=test-app"
    ));
    let (forward, reply) = send(&mut clients, 1, SET_ACTIVITY);
    assert!(forward.is_empty());
    assert!(reply.is_none());
    assert!(on_connect("/?encoding=json", None, &RpcUser::default()).is_none());
    assert!(on_connect("/?v=1&encoding=etf", None, &RpcUser::default()).is_none());
    assert!(on_connect(URI, Some("https://evil.example"), &RpcUser::default()).is_none());
}

#[test]
fn disconnect_emits_clear_for_last_activity() {
    let mut clients = WsClients::new();
    assert!(connect(&mut clients, 1, URI));
    let (forward, _) = send(&mut clients, 1, SET_ACTIVITY);
    assert!(!is_clear(&forward[0]));
    let clears = clients.remove_and_clear(1);
    assert_eq!(clears.len(), 1);
    assert_eq!(clears[0].cmd, "SET_ACTIVITY");
    assert_eq!(clears[0].application_id.as_deref(), Some("test-app"));
    assert_eq!(pid_of(&clears[0]), Some(123));
    assert!(is_clear(&clears[0]));
    assert!(clients.remove_and_clear(1).is_empty());
    assert_eq!(clients.client_count(), 0);
}

#[test]
fn closed_sink_counts_drops_and_stays_alive() {
    let mut clients = WsClients::new();
    assert!(connect(&mut clients, 1, URI));
    let (mut sink, rx) = EventSink::bounded(4);
    drop(rx);
    for _ in 0..5 {
        let (forward, reply) = send(&mut clients, 1, SET_ACTIVITY);
        for cmd in forward {
            if !sink.emit(cmd) {
                clients.note_dropped();
            }
        }
        assert_eq!(json(&reply.expect("reply"))["cmd"], "SET_ACTIVITY");
    }
    assert_eq!(clients.dropped_total(), 5);
    assert_eq!(sink.dropped_total(), 5);
}

fn activity_cmd(pid: u64, app: &str, name: &str) -> String {
    format!(
        r#"{{"cmd":"SET_ACTIVITY","application_id":"{app}","args":{{"pid":{pid},"activity":{{"name":"{name}","type":0}}}},"nonce":"n{pid}"}}"#
    )
}

#[test]
fn abrupt_close_clears_every_published_pid() {
    let mut clients = WsClients::new();
    assert!(connect(&mut clients, 1, URI));
    for (pid, app) in [(11u64, "app-a"), (22u64, "app-b")] {
        let (forward, _) = send(&mut clients, 1, &activity_cmd(pid, app, "G"));
        assert_eq!(pid_of(&forward[0]), Some(pid));
    }
    let mut clears: Vec<(Option<String>, Option<u64>)> = clients
        .remove_and_clear(1)
        .iter()
        .map(|cmd| (cmd.application_id.clone(), pid_of(cmd)))
        .collect();
    clears.sort();
    assert_eq!(
        clears,
        vec![
            (Some("app-a".to_string()), Some(11)),
            (Some("app-b".to_string()), Some(22)),
        ]
    );
}

#[test]
fn published_pid_history_is_bounded() {
    let mut clients = WsClients::new();
    assert!(connect(&mut clients, 1, URI));
    let mut pids: Vec<u64> = Vec::new();
    for pid in 1u64..=20 {
        let (forward, _) = send(&mut clients, 1, &activity_cmd(pid, "app", "G"));
        pids.extend(forward.iter().filter(|c| is_clear(c)).filter_map(pid_of));
    }
    assert_eq!(pids.len(), 20 - MAX_PUBLICATIONS);
    pids.extend(clients.remove_and_clear(1).iter().filter_map(pid_of));
    pids.sort_unstable();
    assert_eq!(pids, (1u64..=20).collect::<Vec<_>>());
}

#[test]
fn close_while_reply_is_undeliverable_clears_publication() {
    let mut clients = WsClients::new();
    assert!(connect(&mut clients, 1, "/?v=1&encoding=json&client_id=gone"));
    let (forward, reply) = send(
        &mut clients,
        1,
        r#"{"cmd":"SET_ACTIVITY","args":{"pid":42,"activity":{"name":"Ghost","type":0}},"nonce":"1"}"#,
    );
    assert_eq!(forward.len(), 1);
    drop(reply);
    let clears = clients.remove_and_clear(1);
    assert_eq!(clears.len(), 1);
    assert_eq!(pid_of(&clears[0]), Some(42));
    assert!(is_clear(&clears[0]));
}

#[test]
fn cleared_publications_are_not_cleared_again() {
    let mut clients = WsClients::new();
    assert!(connect(&mut clients, 1, URI));
    send(&mut clients, 1, SET_ACTIVITY);
    let (forward, reply) = send(
        &mut clients,
        1,
        r#"{"cmd":"SET_ACTIVITY","args":{"pid":123,"activity":null},"nonce":"2"}"#,
    );
    assert!(is_clear(&forward[0]));
    assert!(json(&reply.expect("reply"))["data"].is_null());
    assert!(clients.remove_and_clear(1).is_empty());
}

#[test]
fn malformed_commands_are_ignored() {
    let mut clients = WsClients::new();
    assert!(connect(&mut clients, 1, URI));
    for text in [
        "not json",
        "[]",
        r#"{"args":{}}"#,
        r#"{"cmd":7}"#,
        r#"{"cmd":"SET_ACTIVITY","application_id":5}"#,
        r#"{"cmd":"SET_ACTIVITY","args":[]}"#,
        r#"{"cmd":"SET_ACTIVITY","args":{"pid":"x"}}"#,
        r#"{"cmd":"SET_ACTIVITY","args":{"activity":true}}"#,
        r#"{"cmd":"SET_ACTIVITY","args":{"activity":{"name":1}}}"#,
    ] {
        let (forward, reply) = send(&mut clients, 1, text);
        assert!(forward.is_empty(), "{text}");
        assert!(reply.is_none(), "{text}");
    }
    let handled = clients.on_message(
        1,
        &Message::from(vec![1u8]),
        &RpcUser::default(),
        true,
        true,
    );
    assert!(handled.forward.is_empty() && handled.reply.is_none());
}

#[test]
fn missing_args_are_refused() {
    let mut clients = WsClients::new();
    assert!(connect(&mut clients, 1, URI));
    let (forward, reply) = send(&mut clients, 1, r#"{"cmd":"SET_ACTIVITY","nonce":"x"}"#);
    assert!(forward.is_empty());
    let reply = json(&reply.expect("reply"));
    assert_eq!(reply["evt"], "ERROR");
    assert_eq!(reply["data"]["code"], 4005);
    assert_eq!(reply["data"]["message"], "Missing activity args");
    assert_eq!(reply["nonce"], "x");
}

#[test]
fn a_null_application_in_the_activity_is_filled_in() {
    let mut clients = WsClients::new();
    assert!(connect(&mut clients, 1, URI));
    let (forward, reply) = send(
        &mut clients,
        1,
        r#"{"cmd":"SET_ACTIVITY","args":{"pid":1,"activity":{"name":"G","application_id":null}}}"#,
    );
    assert_eq!(
        json(&reply.expect("reply"))["data"]["application_id"],
        "test-app"
    );
    let activity = forward[0].args.as_ref().and_then(|a| a.activity.as_ref());
    assert_eq!(
        activity.and_then(|a| a.application_id.as_deref()),
        Some("test-app")
    );
}

#[test]
fn switched_off_commands_are_ignored() {
    let mut clients = WsClients::new();
    assert!(connect(&mut clients, 1, URI));
    let user = RpcUser::default();
    let off = clients.on_message(1, &Message::from(SET_ACTIVITY), &user, false, true);
    assert!(off.forward.is_empty() && off.reply.is_none());
    let link = Message::from(r#"{"cmd":"DEEP_LINK","args":{},"nonce":"1"}"#);
    let off = clients.on_message(1, &link, &user, true, false);
    assert!(off.forward.is_empty() && off.reply.is_none());
    let on = clients.on_message(1, &link, &user, true, true);
    assert_eq!(on.forward.len(), 1);
    assert!(json(&on.reply.expect("ack"))["data"].is_null());
}

fn answer(doc: &str, check_codes: bool) -> (bool, serde_json::Value) {
    let cmd = ActivityCmd::from_json(doc).expect("command");
    let answered = answer_command(&cmd, &RpcUser::default(), check_codes);
    (answered.forward, json(&answered.reply))
}

#[test]
fn the_command_table_answers_everything() {
    let (forward, reply) = answer(r#"{"cmd":"SUBSCRIBE","nonce":"s1"}"#, true);
    assert!(!forward);
    assert_eq!(reply["cmd"], "SUBSCRIBE");
    assert_eq!(reply["nonce"], "s1");
    let (_, reply) = answer(r#"{"cmd":"GET_USER","nonce":"u1"}"#, true);
    assert_eq!(reply["data"]["username"], "arRPC");
    let (_, reply) = answer(r#"{"cmd":"GET_USER","args":{"id":"somebody"}}"#, true);
    assert!(reply["data"].is_null());
    let (forward, reply) = answer(r#"{"cmd":"INVITE_BROWSER","args":{"code":"abc"}}"#, true);
    assert!(forward);
    assert!(reply["evt"].is_null());
    for (cmd, code) in [
        ("INVITE_BROWSER", 4011),
        ("GUILD_TEMPLATE_BROWSER", 4017),
        ("GIFT_CODE_BROWSER", 4016),
    ] {
        let doc = format!(r#"{{"cmd":"{cmd}","args":{{}}}}"#);
        let (forward, reply) = answer(&doc, true);
        assert!(!forward);
        assert_eq!(reply["data"]["code"], code);
        let (forward, _) = answer(&doc, false);
        assert!(forward);
    }
    for (cmd, code, message) in [
        (
            "CONNECTIONS_CALLBACK",
            1000,
            "CONNECTIONS_CALLBACK is not supported",
        ),
        (
            "AUTHORIZE",
            5000,
            "Authorization requires the real Discord client",
        ),
        (
            "ACTIVITY_INVITE_USER",
            5006,
            "No eligible activity: invites require the real Discord client",
        ),
        ("GET_GUILD", 1000, "requires the real Discord client"),
        ("GET_CHANNEL", 1000, "requires the real Discord client"),
        ("SELECT_VOICE_CHANNEL", 1000, "requires the real Discord client"),
        ("SET_VOICE_SETTINGS", 1000, "requires the real Discord client"),
        ("OVERLAY", 1000, "requires the real Discord client"),
        ("GET_SKUS", 1000, "requires the real Discord client"),
        ("CAPTURE_SHORTCUT", 1000, "requires the real Discord client"),
        ("NO_SUCH", 1000, "Unknown command"),
    ] {
        let (forward, reply) = answer(&format!(r#"{{"cmd":"{cmd}"}}"#), true);
        assert!(!forward);
        assert_eq!(reply["evt"], "ERROR");
        assert_eq!(reply["data"]["code"], code);
        assert_eq!(reply["data"]["message"], message);
    }
    assert_eq!(command("SET_ACTIVITY"), Command::SetActivity);
}

#[test]
fn bounds_of_zero_are_refused() {
    assert!(config().validate().is_ok());
    let mut bad = config();
    bad.per_client_queue = 0;
    let Err(err) = bad.validate() else {
        panic!("zero bound");
    };
    assert_eq!(
        err.to_string(),
        "invalid transport config: per_client_queue must be non-zero"
    );
    bad.max_connections = 0;
    let Err(err) = bad.validate() else {
        panic!("zero bound");
    };
    assert_eq!(
        err.to_string(),
        "invalid transport config: max_connections must be non-zero"
    );
    bad.event_queue = 0;
    let Err(err) = bad.validate() else {
        panic!("zero bound");
    };
    assert_eq!(
        err.to_string(),
        "invalid transport config: event_queue must be non-zero"
    );
    let mut scan = config().ports();
    assert_eq!(scan.next_port(), Some(6463));
    assert_eq!(
        config().bind_failure(None).to_string(),
        "websocket bind failed on ports 6463-6472: all in use"
    );
    assert_eq!(
        config().bind_failure(Some("denied".to_string())).to_string(),
        "websocket bind failed on ports 6463-6472: denied"
    );
}

/// Frames of a byte stream.
fn frames(mut bytes: &[u8]) -> Vec<(u32, String)> {
    let mut out = Vec::new();
    while !bytes.is_empty() {
        assert!(bytes.len() >= 8, "torn response frame");
        let (kind, length) = decode_header(&bytes[..8]);
        assert!(
            PacketType::try_from_u32(kind).is_some(),
            "unknown response type"
        );
        assert!(length <= MAX_IPC_PAYLOAD, "oversize response frame");
        let total = 8 + length as usize;
        assert!(bytes.len() >= total, "truncated response frame");
        out.push((
            kind,
            String::from_utf8(bytes[8..total].to_vec()).expect("text"),
        ));
        bytes = &bytes[total..];
    }
    out
}

const HANDSHAKE: &str = r#"{"v":1,"client_id":"test-app"}"#;

#[test]
fn handshake_set_activity_close_flow() {
    let mut conn = Connection::fresh();
    let user = RpcUser::default();
    // 1. Handshake -> READY frame.
    let step = conn.on_packet(&user, PacketType::Handshake, HANDSHAKE.as_bytes());
    let sent = frames(&step.output);
    assert_eq!(sent[0].0, 1);
    assert!(sent[0].1.contains("READY"), "expected READY");
    // 2. SUBSCRIBE -> local ack, nothing downstream.
    let step = conn.on_packet(
        &user,
        PacketType::Frame,
        br#"{"cmd":"SUBSCRIBE","evt":"VOICE_STATE_UPDATE","nonce":"s1"}"#,
    );
    assert!(frames(&step.output)[0].1.contains("SUBSCRIBE"));
    assert!(
        step.forward.is_empty(),
        "subscribe must not reach the sink"
    );
    // 3. SET_ACTIVITY -> echo + sink event stamped with the handshake id.
    let step = conn.on_packet(
        &user,
        PacketType::Frame,
        br#"{"cmd":"SET_ACTIVITY","args":{"pid":7,"activity":{"name":"G","type":0}},"nonce":"n1"}"#,
    );
    assert!(frames(&step.output)[0].1.contains("SET_ACTIVITY"));
    let cmd = &step.forward[0];
    assert_eq!(cmd.cmd, "SET_ACTIVITY");
    assert_eq!(cmd.application_id.as_deref(), Some("test-app"));
    assert_eq!(pid_of(cmd), Some(7));
    // 4. Close -> sink clear carrying the same identity.
    let step = conn.on_packet(&user, PacketType::Close, b"{}");
    assert!(step.close);
    let clear = &step.forward[0];
    assert_eq!(clear.cmd, "SET_ACTIVITY");
    assert_eq!(clear.application_id.as_deref(), Some("test-app"));
    assert!(is_clear(clear));
}

/// A handshake and one publication, as bytes.
fn published() -> Vec<u8> {
    let mut bytes = encode(PacketType::Handshake, HANDSHAKE);
    bytes.extend(encode(
        PacketType::Frame,
        r#"{"cmd":"SET_ACTIVITY","args":{"pid":9,"activity":{"name":"G","type":0}},"nonce":"n1"}"#,
    ));
    bytes
}

#[test]
fn oversize_frame_close_still_clears_presence() {
    let mut bytes = published();
    // 2 MiB declared, nothing sent: refused with close AND clear.
    bytes.extend(1u32.to_le_bytes());
    bytes.extend((2 * 1024 * 1024u32).to_le_bytes());
    let mut conn = Connection::fresh();
    let run = conn.handle_stream(&RpcUser::default(), &bytes);
    assert!(run.close);
    let sent = frames(&run.output);
    let (kind, body) = sent.last().expect("close frame");
    assert_eq!(*kind, 2, "expected close frame, got: {body}");
    assert!(body.contains("1003"), "expected 1003 close, got: {body}");
    assert!(body.contains("Payload too large"));
    let clear = run.forward.last().expect("clear");
    assert_eq!(clear.cmd, "SET_ACTIVITY");
    assert_eq!(pid_of(clear), Some(9));
    assert!(is_clear(clear));
}

#[test]
fn unknown_packet_type_close_still_clears_presence() {
    let mut bytes = published();
    // Unknown type 99, empty body: close AND clear.
    bytes.extend(99u32.to_le_bytes());
    bytes.extend(0u32.to_le_bytes());
    let mut conn = Connection::fresh();
    let run = conn.handle_stream(&RpcUser::default(), &bytes);
    let sent = frames(&run.output);
    let (kind, body) = sent.last().expect("close frame");
    assert_eq!(*kind, 2, "expected close frame, got: {body}");
    let clear = run.forward.last().expect("clear");
    assert_eq!(clear.cmd, "SET_ACTIVITY");
    assert_eq!(pid_of(clear), Some(9));
    assert!(is_clear(clear));
}

#[test]
fn lost_connections_clear_too() {
    for cut in [0, 3, 8, 20] {
        let mut bytes = published();
        bytes.extend(&encode(PacketType::Ping, "0123456789abcdef")[..cut]);
        let mut conn = Connection::fresh();
        let run = conn.handle_stream(&RpcUser::default(), &bytes);
        assert!(run.close);
        assert_eq!(run.forward.len(), 2);
        assert!(is_clear(&run.forward[1]));
        assert_eq!(pid_of(&run.forward[1]), Some(9));
    }
    let lost = Connection::fresh().on_lost();
    assert!(lost.close && lost.forward.is_empty() && lost.output.is_empty());
}

#[test]
fn handshakes_are_checked() {
    let user = RpcUser::default();
    for (payload, code, message) in [
        (r#"{"v":2,"client_id":"a"}"#, "4004", "Invalid version"),
        (r#"{"client_id":"a"}"#, "4004", "Invalid version"),
        ("not json", "4004", "Invalid version"),
        (r#"{"v":1,"client_id":""}"#, "4000", "Invalid client_id"),
        (r#"{"v":1}"#, "4000", "Invalid client_id"),
    ] {
        let mut conn = Connection::fresh();
        let step = conn.on_packet(&user, PacketType::Handshake, payload.as_bytes());
        assert!(step.close);
        let sent = frames(&step.output);
        assert_eq!(sent[0].0, 2);
        assert!(sent[0].1.contains(code), "{payload}");
        assert!(sent[0].1.contains(message), "{payload}");
    }
    // Nothing is taken before the handshake.
    let mut conn = Connection::fresh();
    let step = conn.on_packet(&user, PacketType::Frame, SET_ACTIVITY.as_bytes());
    assert!(step.forward.is_empty() && step.output.is_empty() && !step.close);
}

#[test]
fn pings_are_echoed_and_bad_encodings_answered() {
    let user = RpcUser::default();
    let mut conn = Connection::fresh();
    let step = conn.on_packet(&user, PacketType::Ping, b"rsrpc-probe");
    assert_eq!(frames(&step.output), vec![(4, "rsrpc-probe".to_string())]);
    assert!(is_pong(&step.output[..8]));
    assert!(!is_pong(&encode(PacketType::Ping, "")[..8]));
    conn.on_packet(&user, PacketType::Handshake, HANDSHAKE.as_bytes());
    for payload in [&b"not json"[..], &[0xffu8, 0xfe][..]] {
        let step = conn.on_packet(&user, PacketType::Frame, payload);
        let sent = frames(&step.output);
        assert_eq!(json(&sent[0].1)["data"]["code"], 4005);
        assert_eq!(json(&sent[0].1)["data"]["message"], "Invalid encoding");
    }
}

#[test]
fn frames_are_little_endian() {
    assert_eq!(
        encode(PacketType::Pong, "hé"),
        vec![4, 0, 0, 0, 3, 0, 0, 0, b'h', 0xc3, 0xa9]
    );
    assert_eq!(
        decode_header(&[1, 2, 0, 0, 0, 0, 1, 0]),
        (513, 65536)
    );
    assert_eq!(check_header(1, MAX_IPC_PAYLOAD), Ok(PacketType::Frame));
    assert_eq!(check_header(1, MAX_IPC_PAYLOAD + 1), Err(Refusal::TooLarge));
    assert_eq!(check_header(5, 0), Err(Refusal::UnsupportedType));
}

/// Whatever arrives, the answer is whole frames.
#[test]
fn arbitrary_bytes_get_whole_frames() {
    let mut seed: u64 = 0x9e37_79b9_7f4a_7c15;
    for round in 0..200 {
        let mut bytes = if round % 2 == 0 {
            published()
        } else {
            Vec::new()
        };
        for _ in 0..(round * 3) {
            seed = seed
                .wrapping_mul(6_364_136_223_846_793_005)
                .wrapping_add(1_442_695_040_888_963_407);
            let byte = (seed >> 33) as u8;
            bytes.push(if round % 3 == 0 { byte % 6 } else { byte });
        }
        let mut conn = Connection::fresh();
        let run = conn.handle_stream(&RpcUser::default(), &bytes);
        assert!(run.close);
        frames(&run.output);
    }
}

#[test]
fn publications_remember_the_latest_application() {
    let mut publications = Publications::new();
    assert!(publications.record(1, Some("a")).is_none());
    assert!(publications.record(2, None).is_none());
    assert!(publications.record(1, Some("b")).is_none());
    publications.withdraw(2);
    let clears = publications.take_clears();
    assert_eq!(clears.len(), 1);
    assert_eq!(clears[0].application_id.as_deref(), Some("b"));
    assert!(publications.take_clears().is_empty());
}

#[test]
fn candidate_directories_are_distinct_and_end_in_tmp() {
    let dirs = candidate_dirs_from([
        ("XDG_RUNTIME_DIR", Some("/run/user/1000".to_string())),
        ("TMPDIR", Some("/tmp".to_string())),
        ("TMP", None),
        ("TEMP", Some("/run/user/1000".to_string())),
    ]);
    assert_eq!(dirs, vec!["/run/user/1000", "/tmp"]);
    // Wherever it is named.
    let dirs = candidate_dirs_from([
        ("XDG_RUNTIME_DIR", Some("/run/user/1000".to_string())),
        ("TMPDIR", Some("/tmp".to_string())),
        ("TMP", Some("/var/tmp".to_string())),
        ("TEMP", None),
    ]);
    assert_eq!(dirs, vec!["/run/user/1000", "/var/tmp", "/tmp"]);
    let dirs = candidate_dirs_from([
        ("XDG_RUNTIME_DIR", Some("//tmp/./".to_string())),
        ("TMPDIR", Some("/".to_string())),
        ("TMP", Some("/a/".to_string())),
        ("TEMP", Some("/a".to_string())),
    ]);
    assert_eq!(dirs, vec!["/a", "/tmp"]);
    let dirs = candidate_dirs_from([
        ("XDG_RUNTIME_DIR", None),
        ("TMPDIR", None),
        ("TMP", None),
        ("TEMP", None),
    ]);
    assert_eq!(dirs, vec!["/tmp"]);
    assert!(paths_equal("/a//b/", "/a/b"));
    assert!(!paths_equal("/a/b", "a/b"));
    assert_eq!(socket_file_name("/run/user/1000/discord-ipc-3"), "discord-ipc-3");
}

#[test]
fn foreign_files_are_left_alone() {
    let bound = "/run/discord-ipc-0";
    assert_eq!(
        fanout_socket_link("/tmp/discord-ipc-0", bound, &LinkState::Absent),
        LinkAction::Create
    );
    assert_eq!(
        fanout_socket_link(bound, bound, &LinkState::Absent),
        LinkAction::Skip
    );
    assert_eq!(
        fanout_socket_link("/tmp/discord-ipc-0", bound, &LinkState::Foreign),
        LinkAction::Skip
    );
    assert_eq!(
        fanout_socket_link(
            "/tmp/discord-ipc-0",
            bound,
            &LinkState::Link(Some("/gone/discord-ipc-0".to_string()))
        ),
        LinkAction::Replace
    );
    assert_eq!(
        fanout_socket_link(
            "/tmp/discord-ipc-0",
            bound,
            &LinkState::Link(Some("/etc/passwd".to_string()))
        ),
        LinkAction::Skip
    );
    assert!(is_ours(&Some("/run/discord-ipc-7".to_string())));
    assert!(!is_ours(&Some("/etc/passwd".to_string())));
    assert!(!is_ours(&None));
    assert!(remove_socket_links(
        "/tmp/discord-ipc-0",
        bound,
        &Some(bound.to_string())
    ));
    assert!(!remove_socket_links("/tmp/discord-ipc-0", bound, &None));
}

#[test]
fn stale_sockets_are_reclaimed_and_live_ones_kept() {
    let mut scan = SocketScan::new(socket_base(Some("/run/user/1000")));
    assert_eq!(scan.path(), "/run/user/1000/discord-ipc-0");
    // Held by a live holder: the next name.
    assert_eq!(
        scan.on_attempt(BindAttempt::InUse("in use".to_string())),
        BindStep::Probe
    );
    assert_eq!(scan.on_probe(true), BindStep::Try);
    assert_eq!(scan.path(), "/run/user/1000/discord-ipc-1");
    // Stale: reclaimed.
    assert_eq!(
        scan.on_attempt(BindAttempt::InUse("in use".to_string())),
        BindStep::Probe
    );
    assert_eq!(scan.on_probe(false), BindStep::Reclaim);
    assert_eq!(scan.on_rebind(true), BindStep::Done);
    assert_eq!(scan.path(), "/run/user/1000/discord-ipc-1");
    assert_eq!(socket_base(None), "/tmp/discord-ipc");
}

#[test]
fn ten_names_are_tried() {
    let mut scan = SocketScan::new("b".to_string());
    for i in 0..10 {
        assert_eq!(scan.path(), format!("b-{i}"));
        let step = if i % 2 == 0 {
            scan.on_attempt(BindAttempt::Failed(format!("cause {i}")))
        } else {
            scan.on_attempt(BindAttempt::InUse(format!("cause {i}")));
            scan.on_probe(false);
            scan.on_rebind(false)
        };
        assert_eq!(
            step,
            if i < 9 {
                BindStep::Try
            } else {
                BindStep::GiveUp
            }
        );
    }
    assert_eq!(
        scan.failure().to_string(),
        "ipc bind failed after 10 attempts: cause 9"
    );
}
