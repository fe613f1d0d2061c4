//! What the JSON that the library writes says, member by member.
use crate::commands::{
    command_of, confirm_json, invalid_code_message, other_forwarded, other_reply, refuse_json,
    reply_json, Command,
};
use crate::json::{json_i64, json_quoted, json_replaced_i64, json_text, msgpack_of, opt_text};
use crate::members::{
    all_whole, distinct_keys, field, law_literal_reads_back, lemma_array, lemma_begin, lemma_finish,
    lemma_go_on, lemma_joined_nonempty, lemma_leave_out, lemma_members, lemma_object,
    lemma_whole_chain, lemma_whole_decimal, lemma_whole_quoted, members, record, text_under, walk,
    whole, whole_values,
};
use crate::payload::{
    activity_payload, clear_payload, envelope, generic_activity, generic_view, in_millis, stamped,
    timestamps_fixed, with_app, CmdView, GameView,
};
use crate::state::{
    activity_fields, activity_json, comma_joined, server_field, server_fields, signed,
    snapshot_json, ActivityFacts, StateActivity, StateServer, StateServers, StateSnapshot,
};
use crate::text::decimal;
use crate::user::{bool_json, control_nonce, user_json, UserView};
use vstd::prelude::*;

verus! {

/// The literal of a text that is there.
spec fn quoted_opt(text: Option<Seq<char>>) -> Option<Seq<char>> {
    match text {
        Some(text) => Some(json_quoted(text)),
        None => None,
    }
}

/// The decimal of a number that is there.
pub open spec fn decimal_opt(n: Option<u64>) -> Option<Seq<char>> {
    match n {
        Some(n) => Some(decimal(n as nat)),
        None => None,
    }
}

proof fn lemma_quoted_opt(text: Option<Seq<char>>)
    ensures
        quoted_opt(text) is Some ==> whole(quoted_opt(text)->0),
        (match quoted_opt(text) {
            Some(value) => Some(crate::members::literal_text(value)),
            None => None,
        }) == text,
{
    if let Some(t) = text {
        lemma_whole_quoted(t);
        law_literal_reads_back(t);
    }
}

proof fn lemma_decimal_opt(n: Option<u64>)
    ensures
        decimal_opt(n) is Some ==> whole(decimal_opt(n)->0),
{
    if let Some(n) = n {
        lemma_whole_decimal(n as nat);
    }
}

spec fn activity_keys() -> Seq<Seq<char>> {
    seq![
        "\"socketId\":"@,
        "\"name\":"@,
        "\"application_id\":"@,
        "\"pid\":"@,
        "\"startTime\":"@,
    ]
}

#[verifier::rlimit(40)]
proof fn lemma_activity_keys()
    ensures
        distinct_keys(activity_keys()),
        forall|i: int| 0 <= i < 5 ==> (#[trigger] activity_keys()[i]).len() >= 4,
{
    reveal_strlit("\"socketId\":");
    reveal_strlit("\"name\":");
    reveal_strlit("\"application_id\":");
    reveal_strlit("\"pid\":");
    reveal_strlit("\"startTime\":");
    reveal_with_fuel(walk, 18);
    assert(whole("\"socketId\":"@));
    assert(whole("\"name\":"@));
    assert(whole("\"application_id\":"@));
    assert(whole("\"pid\":"@));
    assert(whole("\"startTime\":"@));
}

/// A written activity reads back as what was put in: each of its texts is
/// there exactly when the activity has it, and is that text; its number is
/// there exactly when the activity has a process, in decimal.
#[verifier::rlimit(40)]
pub proof fn law_activity_reads_back(a: ActivityFacts)
    ensures
        whole(activity_json(a)),
        text_under(activity_json(a), "\"socketId\":"@) == Some(a.socket_id),
        text_under(activity_json(a), "\"name\":"@) == a.name,
        text_under(activity_json(a), "\"application_id\":"@) == a.application_id,
        text_under(activity_json(a), "\"startTime\":"@) == a.start_time,
        field(activity_json(a), "\"pid\":"@) == decimal_opt(a.pid),
{
    let keys = activity_keys();
    let values = seq![
        quoted_opt(Some(a.socket_id)),
        quoted_opt(a.name),
        quoted_opt(a.application_id),
        decimal_opt(a.pid),
        quoted_opt(a.start_time),
    ];
    lemma_activity_keys();
    lemma_quoted_opt(Some(a.socket_id));
    lemma_quoted_opt(a.name);
    lemma_quoted_opt(a.application_id);
    lemma_quoted_opt(a.start_time);
    lemma_decimal_opt(a.pid);
    assert(whole_values(values));
    assert(record(keys, values) =~= activity_fields(a)) by {
        reveal_with_fuel(record, 6);
    }
    lemma_object(activity_json(a), keys, values);
    assert(keys[0] == "\"socketId\":"@);
    assert(keys[1] == "\"name\":"@);
    assert(keys[2] == "\"application_id\":"@);
    assert(keys[3] == "\"pid\":"@);
    assert(keys[4] == "\"startTime\":"@);
}

/// The JSON of a server.
spec fn server_text(server: StateServer) -> Seq<char> {
    "{\"host\":"@ + json_quoted(server.host@) + ",\"port\":"@ + decimal(server.port as nat) + "}"@
}

#[verifier::rlimit(40)]
proof fn lemma_server(server: StateServer)
    ensures
        whole(server_text(server)),
        text_under(server_text(server), "\"host\":"@) == Some(server.host@),
        field(server_text(server), "\"port\":"@) == Some(decimal(server.port as nat)),
{
    let keys = seq!["\"host\":"@, "\"port\":"@];
    let values = seq![Some(json_quoted(server.host@)), Some(decimal(server.port as nat))];
    reveal_strlit("\"host\":");
    reveal_strlit("\"port\":");
    reveal_strlit("{\"host\":");
    reveal_strlit(",\"port\":");
    reveal_strlit(",");
    reveal_strlit("{");
    assert(distinct_keys(keys)) by {
        reveal_with_fuel(walk, 9);
        assert(whole("\"host\":"@));
        assert(whole("\"port\":"@));
    }
    lemma_whole_quoted(server.host@);
    law_literal_reads_back(server.host@);
    lemma_whole_decimal(server.port as nat);
    assert(whole_values(values));
    let m1 = "\"host\":"@ + json_quoted(server.host@);
    let m2 = "\"port\":"@ + decimal(server.port as nat);
    assert(record(keys, values) =~= seq![m1, m2]) by {
        reveal_with_fuel(record, 3);
    }
    assert(comma_joined(seq![m1, m2]) == m1 + ","@ + m2) by {
        reveal_with_fuel(comma_joined, 3);
        assert(seq![m1, m2].drop_last() =~= seq![m1]);
    }
    assert(server_text(server) =~= "{"@ + (m1 + ","@ + m2) + "}"@);
    lemma_object(server_text(server), keys, values);
    assert(keys[0] == "\"host\":"@);
    assert(keys[1] == "\"port\":"@);
}

spec fn server_opt(server: Option<StateServer>) -> Option<Seq<char>> {
    match server {
        Some(server) => Some(server_text(server)),
        None => None,
    }
}

/// Whether the JSON object `t` tells of `server` under `key`: it has such a
/// member exactly when the server runs, with its host and its port.
pub open spec fn tells_server(t: Seq<char>, key: Seq<char>, server: Option<StateServer>) -> bool {
    match server {
        Some(server) => {
            &&& field(t, key) is Some
            &&& text_under(field(t, key)->0, "\"host\":"@) == Some(server.host@)
            &&& field(field(t, key)->0, "\"port\":"@) == Some(decimal(server.port as nat))
        },
        None => field(t, key) is None,
    }
}

spec fn servers_text(servers: StateServers) -> Seq<char> {
    "{"@ + comma_joined(server_fields(servers)) + "}"@
}

spec fn servers_keys() -> Seq<Seq<char>> {
    seq!["\"bridge\":"@, "\"msgpack\":"@, "\"websocket\":"@, "\"ipc\":"@]
}

#[verifier::rlimit(40)]
proof fn lemma_servers_keys()
    ensures
        distinct_keys(servers_keys()),
        forall|i: int| 0 <= i < 4 ==> (#[trigger] servers_keys()[i]).len() >= 4,
{
    reveal_strlit("\"bridge\":");
    reveal_strlit("\"msgpack\":");
    reveal_strlit("\"websocket\":");
    reveal_strlit("\"ipc\":");
    reveal_with_fuel(walk, 14);
    assert(whole("\"bridge\":"@));
    assert(whole("\"msgpack\":"@));
    assert(whole("\"websocket\":"@));
    assert(whole("\"ipc\":"@));
}

proof fn lemma_server_field(key: Seq<char>, server: Option<StateServer>)
    ensures
        server_opt(server) is Some ==> whole(server_opt(server)->0),
        server_field(key, server) == (match server_opt(server) {
            Some(value) => seq![key + value],
            None => Seq::empty(),
        }),
        server matches Some(s) ==> {
            &&& text_under(server_text(s), "\"host\":"@) == Some(s.host@)
            &&& field(server_text(s), "\"port\":"@) == Some(decimal(s.port as nat))
        },
{
    if let Some(s) = server {
        lemma_server(s);
        assert(key + server_text(s) =~= key + "{\"host\":"@ + json_quoted(s.host@)
            + ",\"port\":"@ + decimal(s.port as nat) + "}"@);
    }
}

#[verifier::rlimit(40)]
proof fn lemma_servers(servers: StateServers)
    ensures
        whole(servers_text(servers)),
        tells_server(servers_text(servers), "\"bridge\":"@, servers.bridge),
        tells_server(servers_text(servers), "\"msgpack\":"@, servers.msgpack),
        tells_server(servers_text(servers), "\"websocket\":"@, servers.websocket),
        text_under(servers_text(servers), "\"ipc\":"@) == opt_text(servers.ipc),
{
    let keys = servers_keys();
    let values = seq![
        server_opt(servers.bridge),
        server_opt(servers.msgpack),
        server_opt(servers.websocket),
        quoted_opt(opt_text(servers.ipc)),
    ];
    lemma_servers_keys();
    lemma_server_field("\"bridge\":"@, servers.bridge);
    lemma_server_field("\"msgpack\":"@, servers.msgpack);
    lemma_server_field("\"websocket\":"@, servers.websocket);
    lemma_quoted_opt(opt_text(servers.ipc));
    assert(whole_values(values));
    assert(record(keys, values) =~= server_fields(servers)) by {
        reveal_with_fuel(record, 5);
    }
    lemma_object(servers_text(servers), keys, values);
    assert(keys[0] == "\"bridge\":"@);
    assert(keys[1] == "\"msgpack\":"@);
    assert(keys[2] == "\"websocket\":"@);
    assert(keys[3] == "\"ipc\":"@);
}

proof fn lemma_whole_signed(n: int)
    ensures
        whole(signed(n)),
{
    if n < 0 {
        reveal_strlit("-");
        reveal_with_fuel(walk, 2);
        assert(whole("-"@));
        lemma_whole_decimal((-n) as nat);
        lemma_whole_chain("-"@, decimal((-n) as nat));
    } else {
        lemma_whole_decimal(n as nat);
    }
}

spec fn snapshot_keys() -> Seq<Seq<char>> {
    seq!["\"appVersion\":"@, "\"timestamp\":"@, "\"servers\":"@, "\"activities\":"@]
}

#[verifier::rlimit(40)]
proof fn lemma_snapshot_keys()
    ensures
        distinct_keys(snapshot_keys()),
        forall|i: int| 0 <= i < 4 ==> (#[trigger] snapshot_keys()[i]).len() >= 4,
{
    reveal_strlit("\"appVersion\":");
    reveal_strlit("\"timestamp\":");
    reveal_strlit("\"servers\":");
    reveal_strlit("\"activities\":");
    reveal_with_fuel(walk, 15);
    assert(whole("\"appVersion\":"@));
    assert(whole("\"timestamp\":"@));
    assert(whole("\"servers\":"@));
    assert(whole("\"activities\":"@));
}

proof fn lemma_group_open(a: Seq<char>, k: Seq<char>, o: Seq<char>, v: Seq<char>)
    ensures
        a + (k + o) + v == a + k + (o + v),
{
    assert(a + (k + o) + v =~= a + k + (o + v));
}

proof fn lemma_group_next(
    f: Seq<char>,
    i: Seq<char>,
    c: Seq<char>,
    k: Seq<char>,
    o: Seq<char>,
    w: Seq<char>,
)
    ensures
        f + i + (c + k + o) + w == f + (i + c) + k + (o + w),
{
    assert(f + i + (c + k + o) =~= f + (i + c) + k + o);
    assert(f + (i + c) + k + o + w =~= f + (i + c) + k + (o + w));
}

proof fn lemma_group_close(f: Seq<char>, i: Seq<char>, c: Seq<char>, e: Seq<char>)
    ensures
        f + i + (c + e) == f + (i + c) + e,
{
    assert(f + i + (c + e) =~= f + (i + c) + e);
}

proof fn lemma_snapshot_text(head: Seq<char>, v: Seq<char>, w: Seq<char>)
    ensures
        head + ",\"servers\":{"@ + v + "},\"activities\":["@ + w + "]}"@ == head + ",\"servers\":"@ + (
        "{"@ + v + "}"@) + ",\"activities\":"@ + ("["@ + w + "]"@) + "}"@,
{
    assert(",\"servers\":{"@ =~= ",\"servers\":"@ + "{"@) by {
        reveal_strlit(",\"servers\":{");
        reveal_strlit(",\"servers\":");
        reveal_strlit("{");
    }
    assert("},\"activities\":["@ =~= "}"@ + ",\"activities\":"@ + "["@) by {
        reveal_strlit("},\"activities\":[");
        reveal_strlit(",\"activities\":");
        reveal_strlit("}");
        reveal_strlit("[");
    }
    assert("]}"@ =~= "]"@ + "}"@) by {
        reveal_strlit("]}");
        reveal_strlit("]");
        reveal_strlit("}");
    }
    lemma_group_open(head, ",\"servers\":"@, "{"@, v);
    lemma_group_next(
        head + ",\"servers\":"@,
        "{"@ + v,
        "}"@,
        ",\"activities\":"@,
        "["@,
        w,
    );
    lemma_group_close(
        head + ",\"servers\":"@ + ("{"@ + v + "}"@) + ",\"activities\":"@,
        "["@ + w,
        "]"@,
        "}"@,
    );
}

#[verifier::rlimit(40)]
proof fn lemma_snapshot(s: StateSnapshot, activities: Seq<char>)
    requires
        activities == "["@ + comma_joined(
            s.activities@.map_values(|a: StateActivity| activity_json(a@)),
        ) + "]"@,
        whole(activities),
    ensures
        text_under(snapshot_json(s), "\"appVersion\":"@) == Some(s.app_version@),
        field(snapshot_json(s), "\"timestamp\":"@) == Some(signed(s.timestamp as int)),
        field(snapshot_json(s), "\"servers\":"@) == Some(servers_text(s.servers)),
        field(snapshot_json(s), "\"activities\":"@) == Some(activities),
{
    assert("{\"appVersion\":"@ =~= "{"@ + "\"appVersion\":"@) by {
        reveal_strlit("{\"appVersion\":");
        reveal_strlit("\"appVersion\":");
        reveal_strlit("{");
    }
    assert(",\"timestamp\":"@ =~= ","@ + "\"timestamp\":"@) by {
        reveal_strlit(",\"timestamp\":");
        reveal_strlit("\"timestamp\":");
        reveal_strlit(",");
    }
    assert(",\"servers\":"@ =~= ","@ + "\"servers\":"@) by {
        reveal_strlit(",\"servers\":");
        reveal_strlit("\"servers\":");
        reveal_strlit(",");
    }
    assert(",\"activities\":"@ =~= ","@ + "\"activities\":"@) by {
        reveal_strlit(",\"activities\":");
        reveal_strlit("\"activities\":");
        reveal_strlit(",");
    }
    lemma_snapshot_keys();
    lemma_whole_quoted(s.app_version@);
    law_literal_reads_back(s.app_version@);
    lemma_whole_signed(s.timestamp as int);
    lemma_servers(s.servers);
    let version = json_quoted(s.app_version@);
    let stamp = signed(s.timestamp as int);
    let servers = servers_text(s.servers);
    let text = "{\"appVersion\":"@ + version;
    let keys = seq!["\"appVersion\":"@];
    let values = seq![Some(version)];
    lemma_begin("{\"appVersion\":"@, "\"appVersion\":"@, version);
    lemma_go_on(text, keys, values, ",\"timestamp\":"@, "\"timestamp\":"@, stamp);
    let text = text + ",\"timestamp\":"@ + stamp;
    let keys = keys.push("\"timestamp\":"@);
    let values = values.push(Some(stamp));
    lemma_snapshot_text(
        text,
        comma_joined(server_fields(s.servers)),
        comma_joined(s.activities@.map_values(|a: StateActivity| activity_json(a@))),
    );
    lemma_go_on(text, keys, values, ",\"servers\":"@, "\"servers\":"@, servers);
    let text = text + ",\"servers\":"@ + servers;
    let keys = keys.push("\"servers\":"@);
    let values = values.push(Some(servers));
    lemma_go_on(text, keys, values, ",\"activities\":"@, "\"activities\":"@, activities);
    let text = text + ",\"activities\":"@ + activities;
    let keys = keys.push("\"activities\":"@);
    let values = values.push(Some(activities));
    assert(keys == snapshot_keys());
    lemma_finish(text, keys, values);
    assert(text + "}"@ == snapshot_json(s));
    assert(keys[0] == "\"appVersion\":"@);
    assert(keys[1] == "\"timestamp\":"@);
    assert(keys[2] == "\"servers\":"@);
    assert(keys[3] == "\"activities\":"@);
}

/// A written snapshot reads back as what was put in: its version, its stamp,
/// each server that runs under its own name, and its activities in their
/// order, each with its own texts and process.
#[verifier::rlimit(40)]
pub proof fn law_snapshot_reads_back(s: StateSnapshot)
    ensures
        text_under(snapshot_json(s), "\"appVersion\":"@) == Some(s.app_version@),
        field(snapshot_json(s), "\"timestamp\":"@) == Some(signed(s.timestamp as int)),
        field(snapshot_json(s), "\"servers\":"@) matches Some(servers) && {
            &&& tells_server(servers, "\"bridge\":"@, s.servers.bridge)
            &&& tells_server(servers, "\"msgpack\":"@, s.servers.msgpack)
            &&& tells_server(servers, "\"websocket\":"@, s.servers.websocket)
            &&& text_under(servers, "\"ipc\":"@) == opt_text(s.servers.ipc)
        },
        field(snapshot_json(s), "\"activities\":"@) matches Some(activities) && {
            &&& members(activities).len() == s.activities@.len()
            &&& forall|k: int|
                #![trigger members(activities)[k]]
                #![trigger s.activities@[k]]
                0 <= k < s.activities@.len() ==> {
                    let a = s.activities@[k];
                    let told = members(activities)[k];
                    &&& text_under(told, "\"socketId\":"@) == Some(a.socket_id@)
                    &&& text_under(told, "\"name\":"@) == opt_text(a.name)
                    &&& text_under(told, "\"application_id\":"@) == opt_text(a.application_id)
                    &&& text_under(told, "\"startTime\":"@) == opt_text(a.start_time)
                    &&& field(told, "\"pid\":"@) == decimal_opt(a.pid)
                }
        },
{
    let items = s.activities@.map_values(|a: StateActivity| activity_json(a@));
    let activities = "["@ + comma_joined(items) + "]"@;
    reveal_strlit("{");
    assert forall|k: int| 0 <= k < items.len() implies whole(#[trigger] items[k])
        && items[k].len() > 0 by {
        law_activity_reads_back(s.activities@[k]@);
    }
    lemma_array(activities, items);
    lemma_snapshot(s, activities);
    lemma_servers(s.servers);
    assert forall|k: int| 0 <= k < s.activities@.len() implies {
        let a = s.activities@[k];
        let told = #[trigger] members(activities)[k];
        &&& text_under(told, "\"socketId\":"@) == Some(a.socket_id@)
        &&& text_under(told, "\"name\":"@) == opt_text(a.name)
        &&& text_under(told, "\"application_id\":"@) == opt_text(a.application_id)
        &&& text_under(told, "\"startTime\":"@) == opt_text(a.start_time)
        &&& field(told, "\"pid\":"@) == decimal_opt(a.pid)
    } by {
        law_activity_reads_back(s.activities@[k]@);
        assert(members(activities)[k] == items[k]);
    }
}

proof fn lemma_whole_words()
    ensures
        whole("null"@),
        whole("true"@),
        whole("false"@),
        whole("\"ERROR\""@),
{
    reveal_strlit("null");
    reveal_strlit("true");
    reveal_strlit("false");
    reveal_strlit("\"ERROR\"");
    reveal_with_fuel(walk, 9);
}

spec fn user_keys() -> Seq<Seq<char>> {
    seq![
        "\"avatar\":"@,
        "\"bot\":"@,
        "\"discriminator\":"@,
        "\"flags\":"@,
        "\"global_name\":"@,
        "\"id\":"@,
        "\"premium_type\":"@,
        "\"username\":"@,
    ]
}

#[verifier::rlimit(40)]
proof fn lemma_user_keys()
    ensures
        distinct_keys(user_keys()),
        forall|i: int| 0 <= i < 8 ==> (#[trigger] user_keys()[i]).len() >= 4,
{
    reveal_strlit("\"avatar\":");
    reveal_strlit("\"bot\":");
    reveal_strlit("\"discriminator\":");
    reveal_strlit("\"flags\":");
    reveal_strlit("\"global_name\":");
    reveal_strlit("\"id\":");
    reveal_strlit("\"premium_type\":");
    reveal_strlit("\"username\":");
    reveal_with_fuel(walk, 17);
    assert(whole("\"avatar\":"@));
    assert(whole("\"bot\":"@));
    assert(whole("\"discriminator\":"@));
    assert(whole("\"flags\":"@));
    assert(whole("\"global_name\":"@));
    assert(whole("\"id\":"@));
    assert(whole("\"premium_type\":"@));
    assert(whole("\"username\":"@));
}

/// A written identity reads back as what was put in.
#[verifier::rlimit(50)]
#[verifier::spinoff_prover]
pub proof fn law_user_reads_back(user: UserView)
    ensures
        whole(user_json(user)),
        text_under(user_json(user), "\"id\":"@) == Some(user.id),
        text_under(user_json(user), "\"username\":"@) == Some(user.username),
        text_under(user_json(user), "\"global_name\":"@) == Some(user.global_name),
        text_under(user_json(user), "\"discriminator\":"@) == Some(user.discriminator),
        match user.avatar {
            Some(text) => text_under(user_json(user), "\"avatar\":"@) == Some(text),
            None => field(user_json(user), "\"avatar\":"@) == Some("null"@),
        },
        field(user_json(user), "\"bot\":"@) == Some(
            if user.bot {
                "true"@
            } else {
                "false"@
            },
        ),
        field(user_json(user), "\"flags\":"@) == Some(decimal(user.flags as nat)),
        field(user_json(user), "\"premium_type\":"@) == Some(decimal(user.premium_type as nat)),
{
    assert("{\"avatar\":"@ =~= "{"@ + "\"avatar\":"@) by {
        reveal_strlit("{\"avatar\":");
        reveal_strlit("\"avatar\":");
        reveal_strlit("{");
    }
    assert(",\"bot\":"@ =~= ","@ + "\"bot\":"@) by {
        reveal_strlit(",\"bot\":");
        reveal_strlit("\"bot\":");
        reveal_strlit(",");
    }
    assert(",\"discriminator\":"@ =~= ","@ + "\"discriminator\":"@) by {
        reveal_strlit(",\"discriminator\":");
        reveal_strlit("\"discriminator\":");
        reveal_strlit(",");
    }
    assert(",\"flags\":"@ =~= ","@ + "\"flags\":"@) by {
        reveal_strlit(",\"flags\":");
        reveal_strlit("\"flags\":");
        reveal_strlit(",");
    }
    assert(",\"global_name\":"@ =~= ","@ + "\"global_name\":"@) by {
        reveal_strlit(",\"global_name\":");
        reveal_strlit("\"global_name\":");
        reveal_strlit(",");
    }
    assert(",\"id\":"@ =~= ","@ + "\"id\":"@) by {
        reveal_strlit(",\"id\":");
        reveal_strlit("\"id\":");
        reveal_strlit(",");
    }
    assert(",\"premium_type\":"@ =~= ","@ + "\"premium_type\":"@) by {
        reveal_strlit(",\"premium_type\":");
        reveal_strlit("\"premium_type\":");
        reveal_strlit(",");
    }
    assert(",\"username\":"@ =~= ","@ + "\"username\":"@) by {
        reveal_strlit(",\"username\":");
        reveal_strlit("\"username\":");
        reveal_strlit(",");
    }
    lemma_user_keys();
    lemma_quoted_opt(user.avatar);
    lemma_whole_words();
    let avatar = match user.avatar {
        Some(text) => json_quoted(text),
        None => "null"@,
    };
    lemma_quoted_opt(Some(user.discriminator));
    lemma_quoted_opt(Some(user.global_name));
    lemma_quoted_opt(Some(user.id));
    lemma_quoted_opt(Some(user.username));
    lemma_whole_decimal(user.flags as nat);
    lemma_whole_decimal(user.premium_type as nat);
    let text = "{\"avatar\":"@ + avatar;
    let keys = seq!["\"avatar\":"@];
    let values = seq![Some(avatar)];
    lemma_begin("{\"avatar\":"@, "\"avatar\":"@, avatar);
    lemma_go_on(text, keys, values, ",\"bot\":"@, "\"bot\":"@, bool_json(user.bot));
    let text = text + ",\"bot\":"@ + bool_json(user.bot);
    let keys = keys.push("\"bot\":"@);
    let values = values.push(Some(bool_json(user.bot)));
    lemma_go_on(
        text,
        keys,
        values,
        ",\"discriminator\":"@,
        "\"discriminator\":"@,
        json_quoted(user.discriminator),
    );
    let text = text + ",\"discriminator\":"@ + json_quoted(user.discriminator);
    let keys = keys.push("\"discriminator\":"@);
    let values = values.push(Some(json_quoted(user.discriminator)));
    lemma_go_on(text, keys, values, ",\"flags\":"@, "\"flags\":"@, decimal(user.flags as nat));
    let text = text + ",\"flags\":"@ + decimal(user.flags as nat);
    let keys = keys.push("\"flags\":"@);
    let values = values.push(Some(decimal(user.flags as nat)));
    lemma_go_on(
        text,
        keys,
        values,
        ",\"global_name\":"@,
        "\"global_name\":"@,
        json_quoted(user.global_name),
    );
    let text = text + ",\"global_name\":"@ + json_quoted(user.global_name);
    let keys = keys.push("\"global_name\":"@);
    let values = values.push(Some(json_quoted(user.global_name)));
    lemma_go_on(text, keys, values, ",\"id\":"@, "\"id\":"@, json_quoted(user.id));
    let text = text + ",\"id\":"@ + json_quoted(user.id);
    let keys = keys.push("\"id\":"@);
    let values = values.push(Some(json_quoted(user.id)));
    lemma_go_on(
        text,
        keys,
        values,
        ",\"premium_type\":"@,
        "\"premium_type\":"@,
        decimal(user.premium_type as nat),
    );
    let text = text + ",\"premium_type\":"@ + decimal(user.premium_type as nat);
    let keys = keys.push("\"premium_type\":"@);
    let values = values.push(Some(decimal(user.premium_type as nat)));
    lemma_go_on(
        text,
        keys,
        values,
        ",\"username\":"@,
        "\"username\":"@,
        json_quoted(user.username),
    );
    let text = text + ",\"username\":"@ + json_quoted(user.username);
    let keys = keys.push("\"username\":"@);
    let values = values.push(Some(json_quoted(user.username)));
    assert(keys == user_keys());
    lemma_finish(text, keys, values);
    assert(text + "}"@ == user_json(user));
    assert(keys[0] == "\"avatar\":"@);
    assert(keys[1] == "\"bot\":"@);
    assert(keys[2] == "\"discriminator\":"@);
    assert(keys[3] == "\"flags\":"@);
    assert(keys[4] == "\"global_name\":"@);
    assert(keys[5] == "\"id\":"@);
    assert(keys[6] == "\"premium_type\":"@);
    assert(keys[7] == "\"username\":"@);
}

spec fn reply_keys() -> Seq<Seq<char>> {
    seq!["\"cmd\":"@, "\"data\":"@, "\"evt\":"@, "\"nonce\":"@]
}

#[verifier::rlimit(40)]
proof fn lemma_reply_keys()
    ensures
        distinct_keys(reply_keys()),
        forall|i: int| 0 <= i < 4 ==> (#[trigger] reply_keys()[i]).len() >= 4,
{
    reveal_strlit("\"cmd\":");
    reveal_strlit("\"data\":");
    reveal_strlit("\"evt\":");
    reveal_strlit("\"nonce\":");
    reveal_with_fuel(walk, 9);
    assert(whole("\"cmd\":"@));
    assert(whole("\"data\":"@));
    assert(whole("\"evt\":"@));
    assert(whole("\"nonce\":"@));
}

#[verifier::rlimit(40)]
proof fn lemma_reply(cmd: Seq<char>, data: Seq<char>, evt: Seq<char>, nonce: Seq<char>)
    requires
        whole(data),
        whole(evt),
        whole(nonce),
    ensures
        text_under(reply_json(cmd, data, evt, nonce), "\"cmd\":"@) == Some(cmd),
        field(reply_json(cmd, data, evt, nonce), "\"data\":"@) == Some(data),
        field(reply_json(cmd, data, evt, nonce), "\"evt\":"@) == Some(evt),
        field(reply_json(cmd, data, evt, nonce), "\"nonce\":"@) == Some(nonce),
{
    assert("{\"cmd\":"@ =~= "{"@ + "\"cmd\":"@) by {
        reveal_strlit("{\"cmd\":");
        reveal_strlit("\"cmd\":");
        reveal_strlit("{");
    }
    assert(",\"data\":"@ =~= ","@ + "\"data\":"@) by {
        reveal_strlit(",\"data\":");
        reveal_strlit("\"data\":");
        reveal_strlit(",");
    }
    assert(",\"evt\":"@ =~= ","@ + "\"evt\":"@) by {
        reveal_strlit(",\"evt\":");
        reveal_strlit("\"evt\":");
        reveal_strlit(",");
    }
    assert(",\"nonce\":"@ =~= ","@ + "\"nonce\":"@) by {
        reveal_strlit(",\"nonce\":");
        reveal_strlit("\"nonce\":");
        reveal_strlit(",");
    }
    lemma_reply_keys();
    lemma_quoted_opt(Some(cmd));
    let text = "{\"cmd\":"@ + json_quoted(cmd);
    let keys = seq!["\"cmd\":"@];
    let values = seq![Some(json_quoted(cmd))];
    lemma_begin("{\"cmd\":"@, "\"cmd\":"@, json_quoted(cmd));
    lemma_go_on(text, keys, values, ",\"data\":"@, "\"data\":"@, data);
    let text = text + ",\"data\":"@ + data;
    let keys = keys.push("\"data\":"@);
    let values = values.push(Some(data));
    lemma_go_on(text, keys, values, ",\"evt\":"@, "\"evt\":"@, evt);
    let text = text + ",\"evt\":"@ + evt;
    let keys = keys.push("\"evt\":"@);
    let values = values.push(Some(evt));
    lemma_go_on(text, keys, values, ",\"nonce\":"@, "\"nonce\":"@, nonce);
    let text = text + ",\"nonce\":"@ + nonce;
    let keys = keys.push("\"nonce\":"@);
    let values = values.push(Some(nonce));
    assert(keys == reply_keys());
    lemma_finish(text, keys, values);
    assert(text + "}"@ == reply_json(cmd, data, evt, nonce));
    assert(keys[0] == "\"cmd\":"@);
    assert(keys[1] == "\"data\":"@);
    assert(keys[2] == "\"evt\":"@);
    assert(keys[3] == "\"nonce\":"@);
}

spec fn refusal_keys() -> Seq<Seq<char>> {
    seq!["\"code\":"@, "\"message\":"@]
}

proof fn lemma_refusal_keys()
    ensures
        distinct_keys(refusal_keys()),
        forall|i: int| 0 <= i < 2 ==> (#[trigger] refusal_keys()[i]).len() >= 4,
{
    reveal_strlit("\"code\":");
    reveal_strlit("\"message\":");
    reveal_with_fuel(walk, 11);
    assert(whole("\"code\":"@));
    assert(whole("\"message\":"@));
}

/// The data of a refusal reads back as its code and its message.
pub proof fn lemma_refusal(code: u64, message: Seq<char>)
    ensures
        ({
            let data = "{\"code\":"@ + decimal(code as nat) + ",\"message\":"@ + json_quoted(message)
                + "}"@;
            &&& whole(data)
            &&& field(data, "\"code\":"@) == Some(decimal(code as nat))
            &&& text_under(data, "\"message\":"@) == Some(message)
        }),
{
    assert("{\"code\":"@ =~= "{"@ + "\"code\":"@) by {
        reveal_strlit("{\"code\":");
        reveal_strlit("\"code\":");
        reveal_strlit("{");
    }
    assert(",\"message\":"@ =~= ","@ + "\"message\":"@) by {
        reveal_strlit(",\"message\":");
        reveal_strlit("\"message\":");
        reveal_strlit(",");
    }
    lemma_refusal_keys();
    lemma_quoted_opt(Some(message));
    lemma_whole_decimal(code as nat);
    let data = "{\"code\":"@ + decimal(code as nat) + ",\"message\":"@ + json_quoted(message) + "}"@;
    let text = "{\"code\":"@ + decimal(code as nat);
    let keys = seq!["\"code\":"@];
    let values = seq![Some(decimal(code as nat))];
    lemma_begin("{\"code\":"@, "\"code\":"@, decimal(code as nat));
    lemma_go_on(text, keys, values, ",\"message\":"@, "\"message\":"@, json_quoted(message));
    let text = text + ",\"message\":"@ + json_quoted(message);
    let keys = keys.push("\"message\":"@);
    let values = values.push(Some(json_quoted(message)));
    assert(keys == refusal_keys());
    lemma_finish(text, keys, values);
    assert(text + "}"@ == data);
    assert(keys[0] == "\"code\":"@);
    assert(keys[1] == "\"message\":"@);
}

/// Whether `reply` confirms with `data`.
pub open spec fn confirms(reply: Seq<char>, data: Seq<char>) -> bool {
    field(reply, "\"evt\":"@) == Some("null"@) && field(reply, "\"data\":"@) == Some(data)
}

/// Whether `reply` refuses with a code and a message.
pub open spec fn refuses(reply: Seq<char>, code: nat, message: Seq<char>) -> bool {
    &&& field(reply, "\"evt\":"@) == Some("\"ERROR\""@)
    &&& field(reply, "\"data\":"@) matches Some(data) && field(data, "\"code\":"@) == Some(
        decimal(code),
    ) && text_under(data, "\"message\":"@) == Some(message)
}

/// Whether the parts of `cmd` that a reply repeats are values themselves.
pub open spec fn repeatable(cmd: CmdView) -> bool {
    whole(cmd.nonce) && (cmd.activity() matches Some(activity) ==> whole(activity.json))
}

proof fn lemma_refuse(cmd: CmdView, code: u64, message: Seq<char>)
    requires
        whole(cmd.nonce),
    ensures
        refuses(refuse_json(cmd, code, message), code as nat, message),
        text_under(refuse_json(cmd, code, message), "\"cmd\":"@) == Some(cmd.cmd),
        field(refuse_json(cmd, code, message), "\"nonce\":"@) == Some(cmd.nonce),
{
    lemma_refusal(code, message);
    lemma_whole_words();
    lemma_reply(
        cmd.cmd,
        "{\"code\":"@ + decimal(code as nat) + ",\"message\":"@ + json_quoted(message) + "}"@,
        "\"ERROR\""@,
        cmd.nonce,
    );
}

proof fn lemma_confirm(cmd: CmdView, data: Seq<char>)
    requires
        whole(cmd.nonce),
        whole(data),
    ensures
        confirms(confirm_json(cmd, data), data),
        text_under(confirm_json(cmd, data), "\"cmd\":"@) == Some(cmd.cmd),
        field(confirm_json(cmd, data), "\"nonce\":"@) == Some(cmd.nonce),
{
    lemma_whole_words();
    lemma_reply(cmd.cmd, data, "null"@, cmd.nonce);
}

/// Every reply names the command and repeats its nonce. A command that goes on
/// to the bridge is confirmed, and one that is refused does not go on.
pub proof fn law_reply_names_its_command(
    cmd: CmdView,
    user: UserView,
    check_codes: bool,
    wanted: Option<Seq<char>>,
    code: Option<Seq<char>>,
)
    requires
        repeatable(cmd),
    ensures
        text_under(other_reply(cmd, user, check_codes, wanted, code), "\"cmd\":"@) == Some(
            cmd.cmd,
        ),
        field(other_reply(cmd, user, check_codes, wanted, code), "\"nonce\":"@) == Some(
            cmd.nonce,
        ),
        other_forwarded(cmd, check_codes, code) ==> field(
            other_reply(cmd, user, check_codes, wanted, code),
            "\"evt\":"@,
        ) == Some("null"@),
{
    lemma_whole_words();
    law_user_reads_back(user);
    lemma_confirm(cmd, "null"@);
    lemma_confirm(cmd, user_json(user));
    if let Some(json) = cmd.fingerprint() {
        lemma_confirm(cmd, json);
    }
    lemma_refuse(cmd, 4005, "Missing activity args"@);
    lemma_refuse(cmd, 1000, "CONNECTIONS_CALLBACK is not supported"@);
    lemma_refuse(cmd, 5000, "Authorization requires the real Discord client"@);
    lemma_refuse(
        cmd,
        5006,
        "No eligible activity: invites require the real Discord client"@,
    );
    lemma_refuse(cmd, 1000, "requires the real Discord client"@);
    lemma_refuse(cmd, 1000, "Unknown command"@);
    if let Command::Browser { invalid } = command_of(cmd.cmd) {
        lemma_refuse(cmd, invalid, invalid_code_message(invalid));
    }
}

/// What the names of the known commands ask for.
#[verifier::rlimit(40)]
pub proof fn lemma_names()
    ensures
        command_of("SET_ACTIVITY"@) == Command::SetActivity,
        command_of("SUBSCRIBE"@) == Command::Subscribe,
        command_of("UNSUBSCRIBE"@) == Command::Subscribe,
        command_of("GET_USER"@) == Command::GetUser,
        command_of("INVITE_BROWSER"@) == (Command::Browser { invalid: 4011 }),
        command_of("GUILD_TEMPLATE_BROWSER"@) == (Command::Browser { invalid: 4017 }),
        command_of("GIFT_CODE_BROWSER"@) == (Command::Browser { invalid: 4016 }),
        command_of("DEEP_LINK"@) == Command::DeepLink,
        command_of("CONNECTIONS_CALLBACK"@) == Command::ConnectionsCallback,
        command_of("AUTHORIZE"@) == Command::Authorize,
        command_of("AUTHENTICATE"@) == Command::Authorize,
        command_of("SEND_ACTIVITY_JOIN_INVITE"@) == Command::Invite,
        command_of("CLOSE_ACTIVITY_REQUEST"@) == Command::Invite,
        command_of("ACCEPT_ACTIVITY_INVITE"@) == Command::Invite,
        command_of("ACTIVITY_INVITE_USER"@) == Command::Invite,
        command_of("GET_GUILD"@) == Command::Client,
        command_of("GET_GUILDS"@) == Command::Client,
        command_of("GET_CHANNEL"@) == Command::Client,
        command_of("GET_CHANNELS"@) == Command::Client,
        command_of("SELECT_TEXT_CHANNEL"@) == Command::Client,
        command_of("CREATE_CHANNEL_INVITE"@) == Command::Client,
        command_of("SELECT_VOICE_CHANNEL"@) == Command::Client,
        command_of("GET_SELECTED_VOICE_CHANNEL"@) == Command::Client,
        command_of("GET_VOICE_SETTINGS"@) == Command::Client,
        command_of("SET_VOICE_SETTINGS"@) == Command::Client,
        command_of("SET_VOICE_SETTINGS_2"@) == Command::Client,
        command_of("SET_USER_VOICE_SETTINGS"@) == Command::Client,
        command_of("SET_USER_VOICE_SETTINGS_2"@) == Command::Client,
        command_of("SET_CERTIFIED_DEVICES"@) == Command::Client,
        command_of("PUSH_TO_TALK"@) == Command::Client,
        command_of("CONNECT_TO_LOBBY_VOICE"@) == Command::Client,
        command_of("DISCONNECT_FROM_LOBBY_VOICE"@) == Command::Client,
        command_of("OVERLAY"@) == Command::Client,
        command_of("SET_OVERLAY_LOCKED"@) == Command::Client,
        command_of("OPEN_OVERLAY_ACTIVITY_INVITE"@) == Command::Client,
        command_of("OPEN_OVERLAY_GUILD_INVITE"@) == Command::Client,
        command_of("OPEN_OVERLAY_VOICE_SETTINGS"@) == Command::Client,
        command_of("GET_SKUS"@) == Command::Client,
        command_of("GET_ENTITLEMENTS"@) == Command::Client,
        command_of("GET_ENTITLEMENT_TICKET"@) == Command::Client,
        command_of("START_PURCHASE"@) == Command::Client,
        command_of("VALIDATE_APPLICATION"@) == Command::Client,
        command_of("CAPTURE_SHORTCUT"@) == Command::Client,
{
    reveal_strlit("SET_ACTIVITY");
    reveal_strlit("SUBSCRIBE");
    reveal_strlit("UNSUBSCRIBE");
    reveal_strlit("GET_USER");
    reveal_strlit("INVITE_BROWSER");
    reveal_strlit("GUILD_TEMPLATE_BROWSER");
    reveal_strlit("GIFT_CODE_BROWSER");
    reveal_strlit("DEEP_LINK");
    reveal_strlit("CONNECTIONS_CALLBACK");
    reveal_strlit("AUTHORIZE");
    reveal_strlit("AUTHENTICATE");
    reveal_strlit("SEND_ACTIVITY_JOIN_INVITE");
    reveal_strlit("CLOSE_ACTIVITY_REQUEST");
    reveal_strlit("ACCEPT_ACTIVITY_INVITE");
    reveal_strlit("ACTIVITY_INVITE_USER");
    reveal_strlit("GET_GUILD");
    reveal_strlit("GET_GUILDS");
    reveal_strlit("GET_CHANNEL");
    reveal_strlit("GET_CHANNELS");
    reveal_strlit("SELECT_TEXT_CHANNEL");
    reveal_strlit("CREATE_CHANNEL_INVITE");
    reveal_strlit("SELECT_VOICE_CHANNEL");
    reveal_strlit("GET_SELECTED_VOICE_CHANNEL");
    reveal_strlit("GET_VOICE_SETTINGS");
    reveal_strlit("SET_VOICE_SETTINGS");
    reveal_strlit("SET_VOICE_SETTINGS_2");
    reveal_strlit("SET_USER_VOICE_SETTINGS");
    reveal_strlit("SET_USER_VOICE_SETTINGS_2");
    reveal_strlit("SET_CERTIFIED_DEVICES");
    reveal_strlit("PUSH_TO_TALK");
    reveal_strlit("CONNECT_TO_LOBBY_VOICE");
    reveal_strlit("DISCONNECT_FROM_LOBBY_VOICE");
    reveal_strlit("OVERLAY");
    reveal_strlit("SET_OVERLAY_LOCKED");
    reveal_strlit("OPEN_OVERLAY_ACTIVITY_INVITE");
    reveal_strlit("OPEN_OVERLAY_GUILD_INVITE");
    reveal_strlit("OPEN_OVERLAY_VOICE_SETTINGS");
    reveal_strlit("GET_SKUS");
    reveal_strlit("GET_ENTITLEMENTS");
    reveal_strlit("GET_ENTITLEMENT_TICKET");
    reveal_strlit("START_PURCHASE");
    reveal_strlit("VALIDATE_APPLICATION");
    reveal_strlit("CAPTURE_SHORTCUT");
    assert("SET_ACTIVITY"@.len() == 12);
    assert("SUBSCRIBE"@.len() == 9);
    assert("UNSUBSCRIBE"@.len() == 11);
    assert("GET_USER"@.len() == 8);
    assert("INVITE_BROWSER"@.len() == 14);
    assert("GUILD_TEMPLATE_BROWSER"@.len() == 22);
    assert("GIFT_CODE_BROWSER"@.len() == 17);
    assert("DEEP_LINK"@.len() == 9);
    assert("CONNECTIONS_CALLBACK"@.len() == 20);
    assert("AUTHORIZE"@.len() == 9);
    assert("AUTHENTICATE"@.len() == 12);
    assert("SEND_ACTIVITY_JOIN_INVITE"@.len() == 25);
    assert("CLOSE_ACTIVITY_REQUEST"@.len() == 22);
    assert("ACCEPT_ACTIVITY_INVITE"@.len() == 22);
    assert("ACTIVITY_INVITE_USER"@.len() == 20);
    assert("GET_GUILD"@.len() == 9);
    assert("GET_GUILDS"@.len() == 10);
    assert("GET_CHANNEL"@.len() == 11);
    assert("GET_CHANNELS"@.len() == 12);
    assert("SELECT_TEXT_CHANNEL"@.len() == 19);
    assert("CREATE_CHANNEL_INVITE"@.len() == 21);
    assert("SELECT_VOICE_CHANNEL"@.len() == 20);
    assert("GET_SELECTED_VOICE_CHANNEL"@.len() == 26);
    assert("GET_VOICE_SETTINGS"@.len() == 18);
    assert("SET_VOICE_SETTINGS"@.len() == 18);
    assert("SET_VOICE_SETTINGS_2"@.len() == 20);
    assert("SET_USER_VOICE_SETTINGS"@.len() == 23);
    assert("SET_USER_VOICE_SETTINGS_2"@.len() == 25);
    assert("SET_CERTIFIED_DEVICES"@.len() == 21);
    assert("PUSH_TO_TALK"@.len() == 12);
    assert("CONNECT_TO_LOBBY_VOICE"@.len() == 22);
    assert("DISCONNECT_FROM_LOBBY_VOICE"@.len() == 27);
    assert("OVERLAY"@.len() == 7);
    assert("SET_OVERLAY_LOCKED"@.len() == 18);
    assert("OPEN_OVERLAY_ACTIVITY_INVITE"@.len() == 28);
    assert("OPEN_OVERLAY_GUILD_INVITE"@.len() == 25);
    assert("OPEN_OVERLAY_VOICE_SETTINGS"@.len() == 27);
    assert("GET_SKUS"@.len() == 8);
    assert("GET_ENTITLEMENTS"@.len() == 16);
    assert("GET_ENTITLEMENT_TICKET"@.len() == 22);
    assert("START_PURCHASE"@.len() == 14);
    assert("VALIDATE_APPLICATION"@.len() == 20);
    assert("CAPTURE_SHORTCUT"@.len() == 16);
    assert("SET_ACTIVITY"@[0] != "AUTHENTICATE"@[0]);
    assert("SET_ACTIVITY"@[0] != "GET_CHANNELS"@[0]);
    assert("AUTHENTICATE"@[0] != "GET_CHANNELS"@[0]);
    assert("SET_ACTIVITY"@[0] != "PUSH_TO_TALK"@[0]);
    assert("AUTHENTICATE"@[0] != "PUSH_TO_TALK"@[0]);
    assert("SUBSCRIBE"@[0] != "DEEP_LINK"@[0]);
    assert("SUBSCRIBE"@[0] != "AUTHORIZE"@[0]);
    assert("DEEP_LINK"@[0] != "AUTHORIZE"@[0]);
    assert("SUBSCRIBE"@[0] != "GET_GUILD"@[0]);
    assert("DEEP_LINK"@[0] != "GET_GUILD"@[0]);
    assert("AUTHORIZE"@[0] != "GET_GUILD"@[0]);
    assert("UNSUBSCRIBE"@[0] != "GET_CHANNEL"@[0]);
    assert("GET_USER"@[4] != "GET_SKUS"@[4]);
    assert("INVITE_BROWSER"@[0] != "START_PURCHASE"@[0]);
    assert("GUILD_TEMPLATE_BROWSER"@[0] != "CLOSE_ACTIVITY_REQUEST"@[0]);
    assert("GUILD_TEMPLATE_BROWSER"@[0] != "ACCEPT_ACTIVITY_INVITE"@[0]);
    assert("CLOSE_ACTIVITY_REQUEST"@[0] != "ACCEPT_ACTIVITY_INVITE"@[0]);
    assert("GUILD_TEMPLATE_BROWSER"@[0] != "CONNECT_TO_LOBBY_VOICE"@[0]);
    assert("CLOSE_ACTIVITY_REQUEST"@[1] != "CONNECT_TO_LOBBY_VOICE"@[1]);
    assert("ACCEPT_ACTIVITY_INVITE"@[0] != "CONNECT_TO_LOBBY_VOICE"@[0]);
    assert("GUILD_TEMPLATE_BROWSER"@[1] != "GET_ENTITLEMENT_TICKET"@[1]);
    assert("CLOSE_ACTIVITY_REQUEST"@[0] != "GET_ENTITLEMENT_TICKET"@[0]);
    assert("ACCEPT_ACTIVITY_INVITE"@[0] != "GET_ENTITLEMENT_TICKET"@[0]);
    assert("CONNECTIONS_CALLBACK"@[0] != "ACTIVITY_INVITE_USER"@[0]);
    assert("CONNECTIONS_CALLBACK"@[0] != "SELECT_VOICE_CHANNEL"@[0]);
    assert("ACTIVITY_INVITE_USER"@[0] != "SELECT_VOICE_CHANNEL"@[0]);
    assert("CONNECTIONS_CALLBACK"@[0] != "SET_VOICE_SETTINGS_2"@[0]);
    assert("ACTIVITY_INVITE_USER"@[0] != "SET_VOICE_SETTINGS_2"@[0]);
    assert("CONNECTIONS_CALLBACK"@[0] != "VALIDATE_APPLICATION"@[0]);
    assert("ACTIVITY_INVITE_USER"@[0] != "VALIDATE_APPLICATION"@[0]);
    assert("SEND_ACTIVITY_JOIN_INVITE"@[2] != "SET_USER_VOICE_SETTINGS_2"@[2]);
    assert("SEND_ACTIVITY_JOIN_INVITE"@[0] != "OPEN_OVERLAY_GUILD_INVITE"@[0]);
}

/// The activity command goes on exactly when it has arguments. Its confirmation
/// gives the game its own activity again, `null` for a clear; without arguments
/// it is refused.
pub proof fn law_activity_is_confirmed(
    cmd: CmdView,
    user: UserView,
    check_codes: bool,
    wanted: Option<Seq<char>>,
    code: Option<Seq<char>>,
)
    requires
        repeatable(cmd),
        cmd.cmd == "SET_ACTIVITY"@,
    ensures
        other_forwarded(cmd, check_codes, code) == (cmd.args is Some),
        match cmd.args {
            Some((_, Some(activity))) => confirms(
                other_reply(cmd, user, check_codes, wanted, code),
                activity.json,
            ),
            Some((_, None)) => confirms(
                other_reply(cmd, user, check_codes, wanted, code),
                "null"@,
            ),
            None => refuses(
                other_reply(cmd, user, check_codes, wanted, code),
                4005,
                "Missing activity args"@,
            ),
        },
{
    lemma_names();
    lemma_whole_words();
    lemma_confirm(cmd, "null"@);
    if let Some(json) = cmd.fingerprint() {
        lemma_confirm(cmd, json);
    }
    lemma_refuse(cmd, 4005, "Missing activity args"@);
}

/// A request for the reported identity by its own id is answered as one without
/// an id: with that identity. A request by any other id is answered with
/// `null`. Neither goes on to the bridge.
pub proof fn law_user_request(
    cmd: CmdView,
    user: UserView,
    check_codes: bool,
    wanted: Option<Seq<char>>,
    code: Option<Seq<char>>,
)
    requires
        whole(cmd.nonce),
        cmd.cmd == "GET_USER"@,
    ensures
        !other_forwarded(cmd, check_codes, code),
        other_reply(cmd, user, check_codes, Some(user.id), code) == other_reply(
            cmd,
            user,
            check_codes,
            None,
            code,
        ),
        confirms(other_reply(cmd, user, check_codes, None, code), user_json(user)),
        wanted is Some && wanted->0 != user.id ==> confirms(
            other_reply(cmd, user, check_codes, wanted, code),
            "null"@,
        ),
{
    lemma_names();
    lemma_whole_words();
    law_user_reads_back(user);
    lemma_confirm(cmd, "null"@);
    lemma_confirm(cmd, user_json(user));
}

/// The commands that open a browser.
pub open spec fn opens_browser(name: Seq<char>) -> bool {
    name == "INVITE_BROWSER"@ || name == "GUILD_TEMPLATE_BROWSER"@ || name == "GIFT_CODE_BROWSER"@
}

/// A browser code that can be used.
pub open spec fn usable(code: Option<Seq<char>>) -> bool {
    code matches Some(text) && text.len() > 0
}

/// Browser commands go on and are confirmed; one without a code, or with an
/// empty one, is refused instead where codes are checked, with the error of
/// its own kind. Links go on.
#[verifier::rlimit(40)]
pub proof fn law_browser_commands(
    cmd: CmdView,
    user: UserView,
    check_codes: bool,
    wanted: Option<Seq<char>>,
    code: Option<Seq<char>>,
)
    requires
        whole(cmd.nonce),
    ensures
        opens_browser(cmd.cmd) ==> other_forwarded(cmd, check_codes, code) == (!check_codes
            || usable(code)),
        opens_browser(cmd.cmd) && (!check_codes || usable(code)) ==> confirms(
            other_reply(cmd, user, check_codes, wanted, code),
            "null"@,
        ),
        cmd.cmd == "INVITE_BROWSER"@ && check_codes && !usable(code) ==> refuses(
            other_reply(cmd, user, check_codes, wanted, code),
            4011,
            "Invalid invite"@,
        ),
        cmd.cmd == "GUILD_TEMPLATE_BROWSER"@ && check_codes && !usable(code) ==> refuses(
            other_reply(cmd, user, check_codes, wanted, code),
            4017,
            "Invalid guild template"@,
        ),
        cmd.cmd == "GIFT_CODE_BROWSER"@ && check_codes && !usable(code) ==> refuses(
            other_reply(cmd, user, check_codes, wanted, code),
            4016,
            "Invalid gift code"@,
        ),
        cmd.cmd == "DEEP_LINK"@ ==> other_forwarded(cmd, check_codes, code) && confirms(
            other_reply(cmd, user, check_codes, wanted, code),
            "null"@,
        ),
{
    lemma_names();
    lemma_whole_words();
    lemma_confirm(cmd, "null"@);
    lemma_refuse(cmd, 4011, "Invalid invite"@);
    lemma_refuse(cmd, 4017, "Invalid guild template"@);
    lemma_refuse(cmd, 4016, "Invalid gift code"@);
    reveal_strlit("INVITE_BROWSER");
    reveal_strlit("GUILD_TEMPLATE_BROWSER");
    reveal_strlit("GIFT_CODE_BROWSER");
}

/// The commands on guilds, channels, voice, the overlay, the store and
/// capturing.
pub open spec fn needs_the_client(name: Seq<char>) -> bool {
    ||| name == "GET_GUILD"@
    ||| name == "GET_GUILDS"@
    ||| name == "GET_CHANNEL"@
    ||| name == "GET_CHANNELS"@
    ||| name == "SELECT_TEXT_CHANNEL"@
    ||| name == "CREATE_CHANNEL_INVITE"@
    ||| name == "SELECT_VOICE_CHANNEL"@
    ||| name == "GET_SELECTED_VOICE_CHANNEL"@
    ||| name == "GET_VOICE_SETTINGS"@
    ||| name == "SET_VOICE_SETTINGS"@
    ||| name == "SET_VOICE_SETTINGS_2"@
    ||| name == "SET_USER_VOICE_SETTINGS"@
    ||| name == "SET_USER_VOICE_SETTINGS_2"@
    ||| name == "SET_CERTIFIED_DEVICES"@
    ||| name == "PUSH_TO_TALK"@
    ||| name == "CONNECT_TO_LOBBY_VOICE"@
    ||| name == "DISCONNECT_FROM_LOBBY_VOICE"@
    ||| name == "OVERLAY"@
    ||| name == "SET_OVERLAY_LOCKED"@
    ||| name == "OPEN_OVERLAY_ACTIVITY_INVITE"@
    ||| name == "OPEN_OVERLAY_GUILD_INVITE"@
    ||| name == "OPEN_OVERLAY_VOICE_SETTINGS"@
    ||| name == "GET_SKUS"@
    ||| name == "GET_ENTITLEMENTS"@
    ||| name == "GET_ENTITLEMENT_TICKET"@
    ||| name == "START_PURCHASE"@
    ||| name == "VALIDATE_APPLICATION"@
    ||| name == "CAPTURE_SHORTCUT"@
}

/// Subscriptions are confirmed here. Commands that need the real client are
/// refused, each group with its own error, and so is any command that is not
/// known; none of them goes on to the bridge.
#[verifier::rlimit(40)]
pub proof fn law_unsupported_commands(
    cmd: CmdView,
    user: UserView,
    check_codes: bool,
    wanted: Option<Seq<char>>,
    code: Option<Seq<char>>,
)
    requires
        whole(cmd.nonce),
    ensures
        cmd.cmd == "SUBSCRIBE"@ || cmd.cmd == "UNSUBSCRIBE"@ ==> !other_forwarded(
            cmd,
            check_codes,
            code,
        ) && confirms(other_reply(cmd, user, check_codes, wanted, code), "null"@),
        cmd.cmd == "CONNECTIONS_CALLBACK"@ ==> !other_forwarded(cmd, check_codes, code) && refuses(
            other_reply(cmd, user, check_codes, wanted, code),
            1000,
            "CONNECTIONS_CALLBACK is not supported"@,
        ),
        cmd.cmd == "AUTHORIZE"@ || cmd.cmd == "AUTHENTICATE"@ ==> !other_forwarded(
            cmd,
            check_codes,
            code,
        ) && refuses(
            other_reply(cmd, user, check_codes, wanted, code),
            5000,
            "Authorization requires the real Discord client"@,
        ),
        cmd.cmd == "SEND_ACTIVITY_JOIN_INVITE"@ || cmd.cmd == "CLOSE_ACTIVITY_REQUEST"@ || cmd.cmd
            == "ACCEPT_ACTIVITY_INVITE"@ || cmd.cmd == "ACTIVITY_INVITE_USER"@
            ==> !other_forwarded(cmd, check_codes, code) && refuses(
            other_reply(cmd, user, check_codes, wanted, code),
            5006,
            "No eligible activity: invites require the real Discord client"@,
        ),
        needs_the_client(cmd.cmd) ==> !other_forwarded(cmd, check_codes, code) && refuses(
            other_reply(cmd, user, check_codes, wanted, code),
            1000,
            "requires the real Discord client"@,
        ),
        command_of(cmd.cmd) is Unknown ==> !other_forwarded(cmd, check_codes, code) && refuses(
            other_reply(cmd, user, check_codes, wanted, code),
            1000,
            "Unknown command"@,
        ),
{
    lemma_names();
    lemma_whole_words();
    lemma_confirm(cmd, "null"@);
    lemma_refuse(cmd, 1000, "CONNECTIONS_CALLBACK is not supported"@);
    lemma_refuse(cmd, 5000, "Authorization requires the real Discord client"@);
    lemma_refuse(
        cmd,
        5006,
        "No eligible activity: invites require the real Discord client"@,
    );
    lemma_refuse(cmd, 1000, "requires the real Discord client"@);
    lemma_refuse(cmd, 1000, "Unknown command"@);
}

spec fn envelope_keys() -> Seq<Seq<char>> {
    seq!["\"activity\":"@, "\"pid\":"@, "\"socketId\":"@]
}

proof fn lemma_envelope_keys()
    ensures
        distinct_keys(envelope_keys()),
        forall|i: int| 0 <= i < 3 ==> (#[trigger] envelope_keys()[i]).len() >= 4,
{
    reveal_strlit("\"activity\":");
    reveal_strlit("\"pid\":");
    reveal_strlit("\"socketId\":");
    reveal_with_fuel(walk, 12);
    assert(whole("\"activity\":"@));
    assert(whole("\"pid\":"@));
    assert(whole("\"socketId\":"@));
}

/// A published object reads back as what was put in: its activity, its process
/// where one is named, and its publisher.
#[verifier::rlimit(40)]
pub proof fn law_envelope_reads_back(activity: Seq<char>, pid: Option<u64>, socket_id: Seq<char>)
    requires
        whole(activity),
    ensures
        whole(envelope(activity, pid, socket_id)),
        field(envelope(activity, pid, socket_id), "\"activity\":"@) == Some(activity),
        field(envelope(activity, pid, socket_id), "\"pid\":"@) == decimal_opt(pid),
        text_under(envelope(activity, pid, socket_id), "\"socketId\":"@) == Some(socket_id),
{
    assert("{\"activity\":"@ =~= "{"@ + "\"activity\":"@) by {
        reveal_strlit("{\"activity\":");
        reveal_strlit("\"activity\":");
        reveal_strlit("{");
    }
    assert(",\"pid\":"@ =~= ","@ + "\"pid\":"@) by {
        reveal_strlit(",\"pid\":");
        reveal_strlit("\"pid\":");
        reveal_strlit(",");
    }
    assert(",\"socketId\":"@ =~= ","@ + "\"socketId\":"@) by {
        reveal_strlit(",\"socketId\":");
        reveal_strlit("\"socketId\":");
        reveal_strlit(",");
    }
    lemma_envelope_keys();
    lemma_quoted_opt(Some(socket_id));
    lemma_decimal_opt(pid);
    let head = "{\"activity\":"@ + activity;
    let keys = seq!["\"activity\":"@];
    let values = seq![Some(activity)];
    lemma_begin("{\"activity\":"@, "\"activity\":"@, activity);
    let mid = match pid {
        Some(pid) => head + ",\"pid\":"@ + decimal(pid as nat),
        None => head,
    };
    match pid {
        Some(pid) => {
            lemma_go_on(head, keys, values, ",\"pid\":"@, "\"pid\":"@, decimal(pid as nat));
        },
        None => {
            lemma_leave_out(head, keys, values, "\"pid\":"@);
        },
    }
    let keys = keys.push("\"pid\":"@);
    let values = values.push(decimal_opt(pid));
    lemma_go_on(
        mid,
        keys,
        values,
        ",\"socketId\":"@,
        "\"socketId\":"@,
        json_quoted(socket_id),
    );
    let text = mid + ",\"socketId\":"@ + json_quoted(socket_id);
    let keys = keys.push("\"socketId\":"@);
    let values = values.push(Some(json_quoted(socket_id)));
    assert(keys == envelope_keys());
    lemma_finish(text, keys, values);
    assert(keys[0] == "\"activity\":"@);
    assert(keys[1] == "\"pid\":"@);
    assert(keys[2] == "\"socketId\":"@);
}

/// A clear says so in both of its forms: no activity, the process and the
/// publisher that it clears.
pub proof fn law_clear_says_what_it_clears(pid: u64, socket_id: Seq<char>)
    ensures
        clear_payload(pid, socket_id) matches Some(clear) ==> {
            &&& clear.is_clear
            &&& field(clear.json, "\"activity\":"@) == Some("null"@)
            &&& field(clear.json, "\"pid\":"@) == Some(decimal(pid as nat))
            &&& text_under(clear.json, "\"socketId\":"@) == Some(socket_id)
            &&& msgpack_of(clear.json) == Some(clear.msgpack)
        },
{
    lemma_whole_words();
    law_envelope_reads_back("null"@, Some(pid), socket_id);
}

/// The payload of an activity command carries its activity, or `null` for a
/// clear, its process where it names one, and the number of that process as
/// its publisher; a command without arguments has none.
pub proof fn law_payload_carries_command(cmd: CmdView)
    requires
        cmd.activity() matches Some(activity) ==> whole(activity.json),
    ensures
        cmd.args is None ==> activity_payload(cmd) is None,
        activity_payload(cmd) matches Some(payload) ==> {
            &&& payload.is_clear == (cmd.activity() is None)
            &&& field(payload.json, "\"activity\":"@) == Some(
                if cmd.activity() is Some {
                    cmd.activity()->0.json
                } else {
                    "null"@
                },
            )
            &&& cmd.activity() is Some ==> payload.activity_json == cmd.activity()->0.json
            &&& field(payload.json, "\"pid\":"@) == decimal_opt((cmd.args->0).0)
            &&& text_under(payload.json, "\"socketId\":"@) == Some(
                if (cmd.args->0).0 is Some {
                    decimal((cmd.args->0).0->0 as nat)
                } else {
                    decimal(0)
                },
            )
            &&& msgpack_of(payload.json) == Some(payload.msgpack)
        },
{
    lemma_whole_words();
    if cmd.args is Some {
        let activity = match cmd.fingerprint() {
            Some(json) => json,
            None => "null"@,
        };
        law_envelope_reads_back(activity, (cmd.args->0).0, decimal(cmd.pid() as nat));
    }
}

spec fn generic_keys() -> Seq<Seq<char>> {
    seq![
        "\"application_id\":"@,
        "\"name\":"@,
        "\"timestamps\":"@,
        "\"type\":"@,
        "\"metadata\":"@,
        "\"flags\":"@,
    ]
}

#[verifier::rlimit(40)]
proof fn lemma_generic_keys()
    ensures
        distinct_keys(generic_keys()),
        forall|i: int| 0 <= i < 6 ==> (#[trigger] generic_keys()[i]).len() >= 4,
{
    reveal_strlit("\"application_id\":");
    reveal_strlit("\"name\":");
    reveal_strlit("\"timestamps\":");
    reveal_strlit("\"type\":");
    reveal_strlit("\"metadata\":");
    reveal_strlit("\"flags\":");
    reveal_with_fuel(walk, 18);
    assert(whole("\"application_id\":"@));
    assert(whole("\"name\":"@));
    assert(whole("\"timestamps\":"@));
    assert(whole("\"type\":"@));
    assert(whole("\"metadata\":"@));
    assert(whole("\"flags\":"@));
}

proof fn lemma_start(start: u64)
    ensures
        whole("{\"start\":"@ + decimal(start as nat) + "}"@),
        field("{\"start\":"@ + decimal(start as nat) + "}"@, "\"start\":"@) == Some(
            decimal(start as nat),
        ),
{
    assert("{\"start\":"@ =~= "{"@ + "\"start\":"@) by {
        reveal_strlit("{\"start\":");
        reveal_strlit("\"start\":");
        reveal_strlit("{");
    }
    let keys = seq!["\"start\":"@];
    reveal_strlit("\"start\":");
    assert(distinct_keys(keys)) by {
        reveal_with_fuel(walk, 10);
        assert(whole("\"start\":"@));
    }
    lemma_whole_decimal(start as nat);
    let values = seq![Some(decimal(start as nat))];
    lemma_begin("{\"start\":"@, "\"start\":"@, decimal(start as nat));
    lemma_finish("{\"start\":"@ + decimal(start as nat), keys, values);
    assert(keys[0] == "\"start\":"@);
}

#[verifier::rlimit(40)]
proof fn lemma_generic_text(id: Seq<char>, name: Seq<char>, n: Seq<char>)
    ensures
        "{\"application_id\":"@ + id + ",\"name\":"@ + name + ",\"timestamps\":{\"start\":"@ + n
            + "},\"type\":0,\"metadata\":{},\"flags\":0}"@ == "{\"application_id\":"@ + id
            + ",\"name\":"@ + name + ",\"timestamps\":"@ + ("{\"start\":"@ + n + "}"@)
            + ",\"type\":"@ + "0"@ + ",\"metadata\":"@ + "{}"@ + ",\"flags\":"@ + "0"@ + "}"@,
{
    assert(",\"timestamps\":{\"start\":"@ =~= ",\"timestamps\":"@ + "{\"start\":"@) by {
        reveal_strlit(",\"timestamps\":{\"start\":");
        reveal_strlit(",\"timestamps\":");
        reveal_strlit("{\"start\":");
    }
    let tail = "}"@ + ",\"type\":"@ + "0"@ + ",\"metadata\":"@ + "{}"@ + ",\"flags\":"@ + "0"@
        + "}"@;
    assert("},\"type\":0,\"metadata\":{},\"flags\":0}"@ =~= tail) by {
        reveal_strlit("},\"type\":0,\"metadata\":{},\"flags\":0}");
        reveal_strlit("}");
        reveal_strlit(",\"type\":");
        reveal_strlit("0");
        reveal_strlit(",\"metadata\":");
        reveal_strlit("{}");
        reveal_strlit(",\"flags\":");
    }
    let head = "{\"application_id\":"@ + id + ",\"name\":"@ + name;
    let mid = ",\"timestamps\":"@ + "{\"start\":"@;
    assert(head + mid + n =~= head + ",\"timestamps\":"@ + ("{\"start\":"@ + n));
    let front = head + ",\"timestamps\":"@;
    let inner = "{\"start\":"@ + n;
    assert(front + inner + tail =~= front + (inner + "}"@) + ",\"type\":"@ + "0"@
        + ",\"metadata\":"@ + "{}"@ + ",\"flags\":"@ + "0"@ + "}"@);
}

/// The generic activity of a game reads back as what was put in.
#[verifier::rlimit(40)]
pub proof fn law_generic_activity_reads_back(id: Seq<char>, name: Seq<char>, start: u64)
    ensures
        whole(generic_activity(id, name, start)),
        text_under(generic_activity(id, name, start), "\"application_id\":"@) == Some(id),
        text_under(generic_activity(id, name, start), "\"name\":"@) == Some(name),
        field(generic_activity(id, name, start), "\"timestamps\":"@) matches Some(stamps) && field(
            stamps,
            "\"start\":"@,
        ) == Some(decimal(start as nat)),
        field(generic_activity(id, name, start), "\"type\":"@) == Some("0"@),
        field(generic_activity(id, name, start), "\"flags\":"@) == Some("0"@),
{
    assert("{\"application_id\":"@ =~= "{"@ + "\"application_id\":"@) by {
        reveal_strlit("{\"application_id\":");
        reveal_strlit("\"application_id\":");
        reveal_strlit("{");
    }
    assert(",\"name\":"@ =~= ","@ + "\"name\":"@) by {
        reveal_strlit(",\"name\":");
        reveal_strlit("\"name\":");
        reveal_strlit(",");
    }
    assert(",\"timestamps\":"@ =~= ","@ + "\"timestamps\":"@) by {
        reveal_strlit(",\"timestamps\":");
        reveal_strlit("\"timestamps\":");
        reveal_strlit(",");
    }
    assert(",\"type\":"@ =~= ","@ + "\"type\":"@) by {
        reveal_strlit(",\"type\":");
        reveal_strlit("\"type\":");
        reveal_strlit(",");
    }
    assert(",\"metadata\":"@ =~= ","@ + "\"metadata\":"@) by {
        reveal_strlit(",\"metadata\":");
        reveal_strlit("\"metadata\":");
        reveal_strlit(",");
    }
    assert(",\"flags\":"@ =~= ","@ + "\"flags\":"@) by {
        reveal_strlit(",\"flags\":");
        reveal_strlit("\"flags\":");
        reveal_strlit(",");
    }
    lemma_generic_keys();
    lemma_quoted_opt(Some(id));
    lemma_quoted_opt(Some(name));
    lemma_start(start);
    lemma_whole_marks();
    lemma_generic_text(json_quoted(id), json_quoted(name), decimal(start as nat));
    let stamps = "{\"start\":"@ + decimal(start as nat) + "}"@;
    let text = "{\"application_id\":"@ + json_quoted(id);
    let keys = seq!["\"application_id\":"@];
    let values = seq![Some(json_quoted(id))];
    lemma_begin("{\"application_id\":"@, "\"application_id\":"@, json_quoted(id));
    lemma_go_on(text, keys, values, ",\"name\":"@, "\"name\":"@, json_quoted(name));
    let text = text + ",\"name\":"@ + json_quoted(name);
    let keys = keys.push("\"name\":"@);
    let values = values.push(Some(json_quoted(name)));
    lemma_go_on(text, keys, values, ",\"timestamps\":"@, "\"timestamps\":"@, stamps);
    let text = text + ",\"timestamps\":"@ + stamps;
    let keys = keys.push("\"timestamps\":"@);
    let values = values.push(Some(stamps));
    lemma_go_on(text, keys, values, ",\"type\":"@, "\"type\":"@, "0"@);
    let text = text + ",\"type\":"@ + "0"@;
    let keys = keys.push("\"type\":"@);
    let values = values.push(Some("0"@));
    lemma_go_on(text, keys, values, ",\"metadata\":"@, "\"metadata\":"@, "{}"@);
    let text = text + ",\"metadata\":"@ + "{}"@;
    let keys = keys.push("\"metadata\":"@);
    let values = values.push(Some("{}"@));
    lemma_go_on(text, keys, values, ",\"flags\":"@, "\"flags\":"@, "0"@);
    let text = text + ",\"flags\":"@ + "0"@;
    let keys = keys.push("\"flags\":"@);
    let values = values.push(Some("0"@));
    assert(keys == generic_keys());
    lemma_finish(text, keys, values);
    assert(text + "}"@ == generic_activity(id, name, start));
    assert(keys[0] == "\"application_id\":"@);
    assert(keys[1] == "\"name\":"@);
    assert(keys[2] == "\"timestamps\":"@);
    assert(keys[3] == "\"type\":"@);
    assert(keys[4] == "\"metadata\":"@);
    assert(keys[5] == "\"flags\":"@);
}

proof fn lemma_whole_marks()
    ensures
        whole("0"@),
        whole("{}"@),
{
    reveal_strlit("0");
    reveal_strlit("{}");
    reveal_with_fuel(walk, 4);
}

/// The generic card of a game carries its activity under its application id
/// and its process.
pub proof fn law_generic_card_carries_game(game: GameView)
    ensures
        ({
            let card = generic_view(game);
            &&& !card.is_clear
            &&& text_under(card.json, "\"socketId\":"@) == Some(game.id)
            &&& field(card.json, "\"pid\":"@) == Some(decimal(game.pid as nat))
            &&& field(card.json, "\"activity\":"@) == Some(card.activity_json)
            &&& text_under(card.activity_json, "\"application_id\":"@) == Some(game.id)
            &&& text_under(card.activity_json, "\"name\":"@) == Some(game.name)
            &&& field(card.activity_json, "\"timestamps\":"@) matches Some(stamps) && field(
                stamps,
                "\"start\":"@,
            ) == Some(decimal(game.start as nat))
            &&& msgpack_of(card.json) matches Some(bytes) ==> card.msgpack == bytes
        }),
{
    law_generic_activity_reads_back(game.id, game.name, game.start);
    law_envelope_reads_back(
        generic_activity(game.id, game.name, game.start),
        Some(game.pid),
        game.id,
    );
}

/// Naming the application adds one member at the end of an activity and keeps
/// all the others.
#[verifier::rlimit(40)]
pub proof fn law_named_activity_keeps_members(fields: Seq<Seq<char>>, app: Seq<char>)
    requires
        all_whole(fields),
        forall|i: int| 0 <= i < fields.len() ==> (#[trigger] fields[i]).len() > 0,
    ensures
        members(with_app("{"@ + comma_joined(fields) + "}"@, app)) == fields.push(
            "\"application_id\":"@ + json_quoted(app),
        ),
{
    let json = "{"@ + comma_joined(fields) + "}"@;
    let named = "\"application_id\":"@ + json_quoted(app);
    let all = fields.push(named);
    reveal_strlit("{");
    reveal_strlit("}");
    reveal_strlit("");
    lemma_activity_keys();
    assert(activity_keys()[2] == "\"application_id\":"@);
    lemma_whole_quoted(app);
    lemma_whole_chain("\"application_id\":"@, json_quoted(app));
    assert forall|i: int| 0 <= i < all.len() implies whole(#[trigger] all[i]) && all[i].len()
        > 0 by {
        if i < fields.len() {
            assert(all[i] == fields[i]);
        }
    }
    assert(json.drop_last() =~= "{"@ + comma_joined(fields));
    assert(all.drop_last() =~= fields);
    lemma_joined_nonempty(all);
    if fields.len() == 0 {
        assert(comma_joined(all) == named);
        assert(json.len() == 2);
        assert(with_app(json, app) =~= "{"@ + comma_joined(all) + "}"@);
    } else {
        lemma_joined_nonempty(fields);
        assert(comma_joined(all) == comma_joined(fields) + ","@ + named);
        assert(with_app(json, app) =~= "{"@ + comma_joined(all) + "}"@);
    }
    lemma_members("{"@, all, "}"@);
}

/// A command keeps the application that it names and gets the connection's
/// otherwise. Its activity keeps the application that it names and gets that
/// of the command otherwise. Nothing else of it changes.
pub proof fn law_stamped_command(cmd: CmdView, fallback: Option<Seq<char>>)
    ensures
        ({
            let after = stamped(cmd, fallback);
            let app = if cmd.application_id is Some {
                cmd.application_id
            } else {
                fallback
            };
            &&& after.application_id == app
            &&& after.cmd == cmd.cmd && after.nonce == cmd.nonce && after.raw == cmd.raw
            &&& after.pid() == cmd.pid()
            &&& after.args is Some == cmd.args is Some
            &&& after.activity() is Some == cmd.activity() is Some
            &&& cmd.activity() matches Some(activity) ==> {
                &&& after.activity()->0.name == activity.name
                &&& activity.application_id is Some || app is None ==> after.activity()
                    == cmd.activity()
                &&& activity.application_id is None && app is Some
                    ==> after.activity()->0.application_id == app && after.activity()->0.json
                    == with_app(activity.json, app->0)
            }
        }),
{
}

/// Seconds become milliseconds and milliseconds stay: a stamp is scaled by a
/// thousand exactly when it lies before the first number that counts
/// milliseconds, as far as the result fits.
pub proof fn law_stamps_in_millis(stamp: i64)
    ensures
        stamp >= 10_000_000_000 ==> in_millis(stamp) == stamp,
        -9_223_372_036_854_775 <= stamp < 10_000_000_000 ==> in_millis(stamp) == stamp * 1000,
        stamp < -9_223_372_036_854_775 ==> in_millis(stamp) == i64::MIN,
        i64::MIN <= in_millis(stamp) <= i64::MAX,
        stamp >= 10_000_000 ==> in_millis(in_millis(stamp) as i64) == in_millis(stamp),
{
}

/// A time stamp that is no number stays as it is; one that is becomes the same
/// moment in milliseconds, its start before its end, and an activity without
/// either is not touched.
pub proof fn law_timestamps(json: Seq<char>)
    ensures
        json_i64(json, "/timestamps/start"@) is None && json_i64(json, "/timestamps/end"@) is None
            ==> timestamps_fixed(json) == json,
        json_i64(json, "/timestamps/start"@) matches Some(start) ==> (json_replaced_i64(
            json,
            "/timestamps/start"@,
            in_millis(start) as i64,
        ) matches Some(fixed) ==> timestamps_fixed(json) == match json_i64(
            fixed,
            "/timestamps/end"@,
        ) {
            Some(end) => match json_replaced_i64(
                fixed,
                "/timestamps/end"@,
                in_millis(end) as i64,
            ) {
                Some(both) => both,
                None => fixed,
            },
            None => fixed,
        }),
        json_i64(json, "/timestamps/start"@) is None ==> (json_i64(json, "/timestamps/end"@)
            matches Some(end) ==> (json_replaced_i64(
            json,
            "/timestamps/end"@,
            in_millis(end) as i64,
        ) matches Some(fixed) ==> timestamps_fixed(json) == fixed)),
{
}

/// A control message is answered with the nonce that it carries, and with
/// `null` where it carries none.
pub proof fn law_answered_nonce(text: Seq<char>)
    ensures
        json_text(text, "/nonce"@) is Some ==> Some(control_nonce(text)) == json_text(
            text,
            "/nonce"@,
        ),
        json_text(text, "/nonce"@) is None ==> control_nonce(text) == "null"@,
{
}

} // verus!
