//! Laws of the connections: who may connect, what a handshake and a frame do,
//! and how both game transports agree.
use crate::commands::command_of;
use crate::consumer::{requested, BridgeProtocol};
use crate::frame::{
    close_json, encoding_error, frame_bytes, frame_step, header_check, law_frame_round_trip,
    le_value, ConnView, PacketType, Refusal, StepView,
};
use crate::json::{json_str, json_text, json_u64};
use crate::members::{field, text_under};
use crate::message::MessageView;
use crate::origin::{canonical_origin, framed, unslashed};
use crate::payload::{clear_cmd, parsed_cmd, stamped, CmdView};
use crate::publications::{
    clears_of, lemma_withdrawn, published, withdrawn, Publication, MAX_PUBLICATIONS,
};
use crate::query::{parameters, query, query_part};
use crate::readback::{lemma_names, lemma_refusal};
use crate::router::genuine_clear;
use crate::stream::{conversation, delivered, first_packet};
use crate::table::{law_table_update, lookup};
use crate::text::{at, decimal, find, holds, lemma_rfind, lower, lower_char, split, trimmed, white};
use crate::text_laws::{
    blank, law_find, law_trimmed, law_trimmed_again, lemma_split_at_last, without_char,
};
use crate::user::{ready_json, UserView};
use crate::ws::{activity_step, admits, message_step, speaks, SlotModel, WsTransportConfig};
use vstd::prelude::*;
use vstd::utf8::{encode_utf8, encode_utf8_decode_utf8, encode_utf8_valid_utf8, valid_utf8};

verus! {

proof fn lemma_find_after(front: Seq<char>, c: char, rest: Seq<char>)
    requires
        without_char(front, c),
    ensures
        find(front.push(c) + rest, c) == front.len(),
{
    let s = front.push(c) + rest;
    law_find(s, c);
    assert(s[front.len() as int] == c);
    let i = find(s, c);
    if i < front.len() && i >= 0 {
        assert(s[i] == front[i]);
    }
}

/// The piece `name=value` of a query.
pub open spec fn piece(name: Seq<char>, value: Seq<char>) -> Seq<char> {
    name.push('=') + value
}

/// Whether `name` and `value` can stand in a query as they are.
pub open spec fn plain_pair(name: Seq<char>, value: Seq<char>) -> bool {
    without_char(name, '=') && without_char(name, '&') && without_char(value, '&')
}

proof fn lemma_parameter(pieces: Seq<Seq<char>>, name: Seq<char>, value: Seq<char>, other: Seq<char>)
    requires
        plain_pair(name, value),
        other != name,
    ensures
        lookup(parameters(pieces.push(piece(name, value))), name) == Some(value),
        lookup(parameters(pieces.push(piece(name, value))), other) == lookup(
            parameters(pieces),
            other,
        ),
{
    let all = pieces.push(piece(name, value));
    assert(all.drop_last() =~= pieces);
    lemma_find_after(name, '=', value);
    assert(piece(name, value).take(name.len() as int) =~= name);
    assert(piece(name, value).skip(name.len() as int + 1) =~= value);
    law_table_update(parameters(pieces), name, value, other);
}

proof fn lemma_one_piece(s: Seq<char>)
    requires
        without_char(s, '&'),
    ensures
        split(s, '&') == seq![s],
{
    lemma_rfind(s, '&');
    assert(split(s, '&') =~= seq![s]);
}

/// A parameter at the end of a URI has its value, whatever stood there before
/// under its name, and every other parameter keeps its own. A URI without a
/// question mark has none.
#[verifier::rlimit(40)]
pub proof fn law_query_parameter(
    path: Seq<char>,
    rest: Seq<char>,
    name: Seq<char>,
    value: Seq<char>,
    other: Seq<char>,
)
    requires
        without_char(path, '?'),
        plain_pair(name, value),
        other != name,
    ensures
        lookup(query(path.push('?') + piece(name, value)), name) == Some(value),
        lookup(query(path.push('?') + piece(name, value)), other) is None,
        lookup(query(path.push('?') + (rest.push('&') + piece(name, value))), name) == Some(value),
        lookup(query(path.push('?') + (rest.push('&') + piece(name, value))), other) == lookup(
            query(path.push('?') + rest),
            other,
        ),
        lookup(query(path), name) is None,
{
    let last = piece(name, value);
    assert forall|i: int| 0 <= i < last.len() implies last[i] != '&' by {
        if i < name.len() {
            assert(last[i] == name[i]);
        } else if i > name.len() {
            assert(last[i] == value[i - name.len() - 1]);
        }
    }
    lemma_find_after(path, '?', last);
    assert((path.push('?') + last).skip(path.len() as int + 1) =~= last);
    lemma_one_piece(last);
    let none = Seq::<Seq<char>>::empty();
    lemma_parameter(none, name, value, other);
    assert(none.push(last) =~= seq![last]);
    assert(parameters(none) =~= Seq::empty());
    let more = rest.push('&') + last;
    lemma_find_after(path, '?', more);
    assert((path.push('?') + more).skip(path.len() as int + 1) =~= more);
    lemma_split_at_last(rest, '&', last);
    lemma_parameter(split(rest, '&'), name, value, other);
    lemma_find_after(path, '?', rest);
    assert((path.push('?') + rest).skip(path.len() as int + 1) =~= rest);
    law_find(path, '?');
    assert(query_part(path) =~= Seq::empty());
    lemma_one_piece(query_part(path));
    let nothing = Seq::<char>::empty();
    law_find(nothing, '=');
    assert(seq![nothing].drop_last() =~= none);
    assert(parameters(seq![nothing]) == parameters(none));
}

/// A client is let in by version one and the JSON encoding, which may go
/// without saying, from no page or one of Discord's; any other version or
/// encoding keeps it out, and so does any other page.
#[verifier::rlimit(40)]
pub proof fn law_admission(path: Seq<char>, value: Seq<char>, origin: Option<Seq<char>>)
    requires
        without_char(path, '?'),
        without_char(value, '&'),
    ensures
        speaks(path.push('?') + piece("v"@, value)) == (value == "1"@),
        speaks(path.push('?') + (piece("v"@, "1"@).push('&') + piece("encoding"@, value))) == (value
            == "json"@),
        speaks(path.push('?') + (piece("encoding"@, "json"@).push('&') + piece("v"@, value))) == (
        value == "1"@),
        !speaks(path),
        admits(path.push('?') + piece("v"@, value), None) == (value == "1"@),
        admits(path.push('?') + piece("v"@, "1"@), origin) == (origin is None || origin
            == Some("https://discord.com"@) || origin == Some("https://canary.discord.com"@)
            || origin == Some("https://ptb.discord.com"@)),
{
    reveal_strlit("v");
    reveal_strlit("encoding");
    reveal_strlit("1");
    reveal_strlit("json");
    assert("v"@.len() == 1 && "encoding"@.len() == 8);
    law_query_parameter(path, Seq::empty(), "v"@, value, "encoding"@);
    law_query_parameter(path, Seq::empty(), "v"@, "1"@, "encoding"@);
    law_query_parameter(path, piece("v"@, "1"@), "encoding"@, value, "v"@);
    law_query_parameter(path, Seq::empty(), "encoding"@, "json"@, "v"@);
    law_query_parameter(path, piece("encoding"@, "json"@), "v"@, value, "encoding"@);
}

/// A consumer gets the encoding that it asks for by name, and the one of its
/// port without a request or with any other.
pub proof fn law_requested_format(path: Seq<char>, value: Seq<char>, port: BridgeProtocol)
    requires
        without_char(path, '?'),
        without_char(value, '&'),
    ensures
        requested(path.push('?') + piece("format"@, "msgpack"@), port) == BridgeProtocol::MsgPack,
        requested(path.push('?') + piece("format"@, "messagepack"@), port)
            == BridgeProtocol::MsgPack,
        requested(path.push('?') + piece("format"@, "json"@), port) == BridgeProtocol::Json,
        value != "msgpack"@ && value != "messagepack"@ && value != "json"@ ==> requested(
            path.push('?') + piece("format"@, value),
            port,
        ) == port,
        requested(path, port) == port,
{
    reveal_strlit("format");
    reveal_strlit("msgpack");
    reveal_strlit("messagepack");
    reveal_strlit("json");
    assert("messagepack"@.len() == 11);
    assert("msgpack"@.len() == 7 && "json"@.len() == 4 && "format"@.len() == 6);
    let other = "format"@.push('s');
    assert(other.len() == 7);
    law_query_parameter(path, Seq::empty(), "format"@, value, other);
    law_query_parameter(path, Seq::empty(), "format"@, "messagepack"@, other);
    law_query_parameter(path, Seq::empty(), "format"@, "msgpack"@, other);
    law_query_parameter(path, Seq::empty(), "format"@, "json"@, other);
}

/// A host name in lower case: letters, digits, hyphens and full stops.
pub open spec fn host_name(host: Seq<char>) -> bool {
    host.len() > 0 && forall|i: int|
        0 <= i < host.len() ==> ('a' <= #[trigger] host[i] <= 'z' || '0' <= host[i] <= '9'
            || host[i] == '-' || host[i] == '.')
}

proof fn lemma_trimmed_is(s: Seq<char>)
    requires
        s.len() > 0,
        !white(s[0]),
        !white(s.last()),
    ensures
        trimmed(s) == s,
{
    law_trimmed(s);
    let (a, b) = choose|a: int, b: int|
        {
            &&& 0 <= a <= b <= s.len()
            &&& trimmed(s) == #[trigger] s.subrange(a, b)
            &&& blank(s.take(a))
            &&& blank(s.skip(b))
        };
    if a > 0 {
        assert(s.take(a)[0] == s[0]);
    }
    if b < s.len() {
        assert(s.skip(b)[s.len() - b - 1] == s.last());
    }
    assert(s.subrange(0, s.len() as int) =~= s);
}

#[verifier::rlimit(40)]
proof fn lemma_origin_text(scheme: Seq<char>, host: Seq<char>, port: Seq<char>)
    requires
        host_name(host),
        scheme == "http://"@ || scheme == "https://"@,
        port == Seq::<char>::empty() || port == ":80"@ || port == ":443"@ || (port.len() > 1
            && port[0] == ':' && forall|i: int|
            1 <= i < port.len() ==> '0' <= #[trigger] port[i] <= '9'),
    ensures
        ({
            let s = scheme + host + port;
            &&& trimmed(s) == s
            &&& trimmed(s.push('/')) == s.push('/')
            &&& unslashed(s) == s
            &&& unslashed(s.push('/')) == s
            &&& lower(s) == s
        }),
{
    reveal_strlit("http://");
    reveal_strlit("https://");
    reveal_strlit(":80");
    reveal_strlit(":443");
    let s = scheme + host + port;
    assert forall|i: int| 0 <= i < s.len() implies lower_char(#[trigger] s[i]) == s[i] by {
        if i < scheme.len() {
            assert(s[i] == scheme[i]);
        } else if i < scheme.len() + host.len() {
            assert(s[i] == host[i - scheme.len()]);
        } else {
            assert(s[i] == port[i - scheme.len() - host.len()]);
        }
    }
    assert(lower(s) =~= s);
    assert(s[0] == scheme[0]);
    let n = s.len() - 1;
    if port.len() == 0 {
        assert(s[n] == host[host.len() - 1]);
    } else {
        assert(s[n] == port[port.len() - 1]);
    }
    assert(s.last() != '/' && !white(s.last()));
    lemma_trimmed_is(s);
    lemma_trimmed_is(s.push('/'));
    assert(s.push('/').drop_last() =~= s);
    assert(unslashed(s) == s);
    assert(unslashed(s.push('/')) == unslashed(s));
}

/// A configured origin is brought to the form that browsers send: the default
/// port of its scheme leaves, any other stays, a trailing slash leaves, and
/// white space around it does not count.
#[verifier::rlimit(40)]
pub proof fn law_origin_form(host: Seq<char>, port: Seq<char>, origin: Seq<char>)
    requires
        host_name(host),
        port.len() > 1,
        port[0] == ':',
        forall|i: int| 1 <= i < port.len() ==> '0' <= #[trigger] port[i] <= '9',
    ensures
        canonical_origin("http://"@ + host + port) == if port == ":80"@ {
            "http://"@ + host
        } else {
            "http://"@ + host + port
        },
        canonical_origin("https://"@ + host + port) == if port == ":443"@ {
            "https://"@ + host
        } else {
            "https://"@ + host + port
        },
        canonical_origin(("https://"@ + host + port).push('/')) == canonical_origin(
            "https://"@ + host + port,
        ),
        canonical_origin(("http://"@ + host + port).push('/')) == canonical_origin(
            "http://"@ + host + port,
        ),
        canonical_origin(trimmed(origin)) == canonical_origin(origin),
{
    lemma_origin_text("http://"@, host, port);
    lemma_origin_text("https://"@, host, port);
    law_trimmed_again(origin);
    reveal_strlit("http://");
    reveal_strlit("https://");
    reveal_strlit(":80");
    reveal_strlit(":443");
    let plain = "http://"@ + host + port;
    let secure = "https://"@ + host + port;
    lemma_framed_port("http://"@, host, port, ":80"@);
    lemma_framed_port("https://"@, host, port, ":443"@);
    assert(!framed(plain, "https://"@, ":443"@)) by {
        if framed(plain, "https://"@, ":443"@) {
            assert(plain.take(8)[4] == plain[4]);
            assert(plain[4] == "http://"@[4]);
        }
    }
    assert(!framed(secure, "http://"@, ":80"@)) by {
        if framed(secure, "http://"@, ":80"@) {
            assert(secure.take(7)[4] == secure[4]);
            assert(secure[4] == "https://"@[4]);
        }
    }
    assert(plain.take(plain.len() - port.len()) =~= "http://"@ + host);
    assert(secure.take(secure.len() - port.len()) =~= "https://"@ + host);
}

proof fn lemma_framed_port(scheme: Seq<char>, host: Seq<char>, port: Seq<char>, usual: Seq<char>)
    requires
        host_name(host),
        port.len() > 1,
        port[0] == ':',
        forall|i: int| 1 <= i < port.len() ==> '0' <= #[trigger] port[i] <= '9',
        usual.len() > 1,
        usual[0] == ':',
        forall|i: int| 1 <= i < usual.len() ==> '0' <= #[trigger] usual[i] <= '9',
    ensures
        framed(scheme + host + port, scheme, usual) <==> port == usual,
{
    let s = scheme + host + port;
    assert(s.take(scheme.len() as int) =~= scheme);
    assert(s.skip(s.len() - port.len()) =~= port);
    if framed(s, scheme, usual) {
        let tail = s.skip(s.len() - usual.len());
        if usual.len() < port.len() {
            let i = port.len() - usual.len();
            assert(tail[0] == s[s.len() - usual.len()]);
            assert(s[s.len() - usual.len()] == port[i]);
        } else if usual.len() > port.len() {
            let i = usual.len() - port.len();
            assert(tail[i] == s[s.len() - port.len()]);
            assert(s[s.len() - port.len()] == port[0]);
            assert(usual[i] == ':');
        }
    }
}

/// A close says why: its code and its message.
pub proof fn law_close_says_why()
    ensures
        field(close_json(Refusal::UnsupportedType), "\"code\":"@) == Some(decimal(1003)),
        field(close_json(Refusal::TooLarge), "\"code\":"@) == Some(decimal(1003)),
        field(close_json(Refusal::InvalidVersion), "\"code\":"@) == Some(decimal(4004)),
        field(close_json(Refusal::InvalidClientId), "\"code\":"@) == Some(decimal(4000)),
        text_under(close_json(Refusal::UnsupportedType), "\"message\":"@) == Some(
            "Unsupported packet type"@,
        ),
        text_under(close_json(Refusal::TooLarge), "\"message\":"@) == Some("Payload too large"@),
        text_under(close_json(Refusal::InvalidVersion), "\"message\":"@) == Some(
            "Invalid version"@,
        ),
        text_under(close_json(Refusal::InvalidClientId), "\"message\":"@) == Some(
            "Invalid client_id"@,
        ),
{
    lemma_refusal(1003, "Unsupported packet type"@);
    lemma_refusal(1003, "Payload too large"@);
    lemma_refusal(4004, "Invalid version"@);
    lemma_refusal(4000, "Invalid client_id"@);
}

/// A header is taken exactly when its type is known and its payload is no
/// longer than a mebibyte, and is taken for the type that has its number. An
/// unknown type is told before a payload that is too long.
pub proof fn law_headers(opcode: u32, length: u32, kind: PacketType, other: PacketType)
    ensures
        header_check(opcode, length) is Ok <==> opcode <= 4 && length <= 1_048_576,
        header_check(opcode, length) == Ok::<PacketType, Refusal>(kind) ==> kind.opcode() == opcode,
        length <= 1_048_576 ==> header_check(kind.opcode(), length) == Ok::<PacketType, Refusal>(
            kind,
        ),
        opcode > 4 ==> header_check(opcode, length) == Err::<PacketType, Refusal>(
            Refusal::UnsupportedType,
        ),
        opcode <= 4 && length > 1_048_576 ==> header_check(opcode, length) == Err::<
            PacketType,
            Refusal,
        >(Refusal::TooLarge),
        kind.opcode() == other.opcode() ==> kind == other,
        PacketType::Handshake.opcode() == 0,
        PacketType::Frame.opcode() == 1,
        PacketType::Close.opcode() == 2,
        PacketType::Ping.opcode() == 3,
        PacketType::Pong.opcode() == 4,
{
}

/// A first handshake with version one and an application greets the client
/// with its identity and opens the connection under that application. Another
/// version is refused first, then a missing or empty application; a refusal
/// ends the connection. A second handshake does nothing.
pub proof fn law_handshake(conn: ConnView, user: UserView, text: Seq<char>)
    ensures
        ({
            let step = frame_step(conn, user, PacketType::Handshake, Some(text));
            let version = json_u64(text, "/v"@);
            let id = json_str(text, "/client_id"@);
            let named = id is Some && id->0.len() > 0;
            &&& conn.handshake ==> step.conn == conn && step.send is None && step.forward.len() == 0
                && !step.close
            &&& !conn.handshake && version == Some(1u64) && named ==> {
                &&& step.conn.handshake
                &&& step.conn.slot.client_id == id
                &&& step.conn.slot.publications == conn.slot.publications
                &&& step.send == Some((PacketType::Frame, ready_json(user)))
                &&& step.forward.len() == 0
                &&& !step.close
            }
            &&& !conn.handshake && version != Some(1u64) ==> {
                &&& step.send == Some((PacketType::Close, close_json(Refusal::InvalidVersion)))
                &&& step.close
                &&& !step.conn.handshake
            }
            &&& !conn.handshake && version == Some(1u64) && !named ==> {
                &&& step.send == Some((PacketType::Close, close_json(Refusal::InvalidClientId)))
                &&& step.close
                &&& !step.conn.handshake
            }
        }),
{
}

/// A ping is answered with its own payload and changes nothing; a pong does
/// nothing; a close ends the connection without a word, and every card that it
/// published is cleared.
pub proof fn law_control_frames(
    conn: ConnView,
    user: UserView,
    text: Seq<char>,
    payload: Option<Seq<char>>,
    i: int,
)
    requires
        0 <= i < conn.slot.publications.len(),
    ensures
        ({
            let step = frame_step(conn, user, PacketType::Ping, Some(text));
            step.send == Some((PacketType::Pong, text)) && step.conn == conn && step.forward.len()
                == 0 && !step.close
        }),
        ({
            let step = frame_step(conn, user, PacketType::Pong, payload);
            step.send is None && step.conn == conn && step.forward.len() == 0 && !step.close
        }),
        ({
            let step = frame_step(conn, user, PacketType::Close, payload);
            &&& step.send is None
            &&& step.close
            &&& step.conn.slot.publications.len() == 0
            &&& step.forward.len() == conn.slot.publications.len()
            &&& step.forward[i] == clear_cmd(
                conn.slot.publications[i].1,
                conn.slot.publications[i].0,
            )
        }),
{
}

/// A frame before the handshake does nothing. After it, one that spells no
/// command is answered with an error and changes nothing, and one that spells
/// a command is answered.
pub proof fn law_command_frames(
    conn: ConnView,
    user: UserView,
    payload: Option<Seq<char>>,
)
    ensures
        ({
            let step = frame_step(conn, user, PacketType::Frame, payload);
            let spelled = payload is Some && parsed_cmd(payload->0) is Some;
            &&& !conn.handshake ==> step.conn == conn && step.send is None && step.forward.len()
                == 0
            &&& conn.handshake && !spelled ==> step.conn == conn && step.send == Some(
                (PacketType::Frame, encoding_error()),
            ) && step.forward.len() == 0
            &&& conn.handshake && spelled ==> step.send is Some && (step.send->0).0
                == PacketType::Frame && step.conn.handshake
            &&& !step.close
        }),
{
}

/// Both transports answer a command alike: the same reply, the same commands
/// for the bridge and the same memory of what was published. They part only
/// over browser commands, whose codes the websocket checks.
pub proof fn law_transports_agree(conn: ConnView, user: UserView, text: Seq<char>)
    requires
        conn.handshake,
        parsed_cmd(text) matches Some(cmd) && !(command_of(cmd.cmd) is Browser),
    ensures
        ({
            let ipc = frame_step(conn, user, PacketType::Frame, Some(text));
            let ws = message_step(conn.slot, MessageView::Text(text), user, true, true);
            &&& ws.reply is Some
            &&& ipc.send == Some((PacketType::Frame, ws.reply->0))
            &&& ipc.forward == ws.forward
            &&& ipc.conn.slot == ws.slot
        }),
{
}

/// A command of a kind that is switched off is ignored: no reply, nothing for
/// the bridge, nothing remembered. Any other is answered. Binary messages and
/// texts that spell no command are ignored too.
#[verifier::rlimit(40)]
pub proof fn law_switched_off_commands(
    slot: SlotModel,
    text: Seq<char>,
    bytes: Seq<u8>,
    user: UserView,
    set_activity: bool,
    secondary: bool,
)
    ensures
        ({
            let done = message_step(slot, MessageView::Text(text), user, set_activity, secondary);
            let cmd = parsed_cmd(text);
            let secondary_kind = cmd is Some && (cmd->0.cmd == "INVITE_BROWSER"@ || cmd->0.cmd
                == "GUILD_TEMPLATE_BROWSER"@ || cmd->0.cmd == "GIFT_CODE_BROWSER"@ || cmd->0.cmd
                == "DEEP_LINK"@ || cmd->0.cmd == "CONNECTIONS_CALLBACK"@);
            let off = cmd is None || (cmd->0.cmd == "SET_ACTIVITY"@ && !set_activity) || (
            secondary_kind && !secondary);
            &&& off ==> done.reply is None && done.forward.len() == 0 && done.slot == slot
            &&& !off ==> done.reply is Some
        }),
        message_step(slot, MessageView::Binary(bytes), user, set_activity, secondary).reply is None,
        message_step(slot, MessageView::Binary(bytes), user, set_activity, secondary).forward.len()
            == 0,
        message_step(slot, MessageView::Binary(bytes), user, set_activity, secondary).slot == slot,
{
    lemma_names();
}

/// A publish goes on with its application named, and the connection remembers
/// its process with that application, once, as the latest; what it remembers
/// of other processes stays, but for the oldest beyond the bound, whose card
/// is cleared. A clear goes on and its process is forgotten.
#[verifier::rlimit(40)]
pub proof fn law_connection_remembers(slot: SlotModel, sent: CmdView, x: Publication)
    requires
        sent.args is Some,
        x.0 != sent.pid(),
    ensures
        ({
            let step = activity_step(slot, sent);
            let cmd = stamped(sent, slot.client_id);
            let kept = step.slot.publications;
            &&& step.forward.len() > 0 && step.forward[0] == cmd
            &&& step.slot.client_id == slot.client_id
            &&& sent.activity() is None ==> step.forward.len() == 1 && (kept.contains(x)
                <==> slot.publications.contains(x)) && forall|i: int|
                0 <= i < kept.len() ==> (#[trigger] kept[i]).0 != sent.pid()
            &&& sent.activity() is Some ==> {
                &&& kept.last() == (sent.pid(), cmd.application_id)
                &&& forall|i: int|
                    0 <= i < kept.len() - 1 ==> (#[trigger] kept[i]).0 != sent.pid()
                &&& kept.contains(x) ==> slot.publications.contains(x)
                &&& slot.publications.contains(x) && !kept.contains(x) ==> step.forward.len() == 2
                    && step.forward[1] == clear_cmd(x.1, x.0)
                &&& slot.publications.len() < MAX_PUBLICATIONS ==> step.forward.len() == 1
            }
        }),
{
    let pid = sent.pid();
    let cmd = stamped(sent, slot.client_id);
    let w = withdrawn(slot.publications, pid);
    lemma_withdrawn(slot.publications, pid, x);
    assert forall|i: int| 0 <= i < w.len() implies (#[trigger] w[i]).0 != pid by {
        lemma_withdrawn(slot.publications, pid, w[i]);
        assert(w.contains(w[i]));
    }
    assert(cmd.pid() == pid);
    if sent.activity() is Some {
        let all = published(slot.publications, pid, cmd.application_id);
        let step = activity_step(slot, sent);
        let kept = step.slot.publications;
        assert(all.drop_last() =~= w);
        if all.len() > MAX_PUBLICATIONS {
            assert(kept == all.skip(1));
            assert forall|i: int| 0 <= i < kept.len() - 1 implies (#[trigger] kept[i]).0 != pid by {
                assert(kept[i] == w[i + 1]);
            }
            if kept.contains(x) {
                let i = choose|i: int| 0 <= i < kept.len() && kept[i] == x;
                assert(i < kept.len() - 1);
                assert(w[i + 1] == x);
            }
            if slot.publications.contains(x) && !kept.contains(x) {
                let i = choose|i: int| 0 <= i < w.len() && w[i] == x;
                if i > 0 {
                    assert(kept[i - 1] == x);
                }
                assert(all[0] == x);
            }
        } else {
            assert(kept == all);
            if kept.contains(x) {
                let i = choose|i: int| 0 <= i < kept.len() && kept[i] == x;
                assert(i < kept.len() - 1);
                assert(w[i] == x);
            }
            if slot.publications.contains(x) {
                let i = choose|i: int| 0 <= i < w.len() && w[i] == x;
                assert(kept[i] == x);
            }
            assert forall|i: int| 0 <= i < kept.len() - 1 implies (#[trigger] kept[i]).0 != pid by {
                assert(kept[i] == w[i]);
            }
        }
    }
}

/// What the end of a connection sends for a card is its clear: the activity
/// command of that process and application, without an activity.
pub proof fn law_end_clears_each(s: Seq<Publication>, i: int)
    requires
        0 <= i < s.len(),
    ensures
        clears_of(s).len() == s.len(),
        clears_of(s)[i].cmd == "SET_ACTIVITY"@,
        clears_of(s)[i].pid() == s[i].0,
        clears_of(s)[i].application_id == s[i].1,
        clears_of(s)[i].activity() is None,
        s[i].0 != 0 ==> genuine_clear(clears_of(s)[i]),
{
}

/// A connection takes its input packet by packet: a whole packet of a text is
/// one step, what it sends goes out as one packet, and the rest of the input
/// follows, unless the step ends the connection.
#[verifier::rlimit(40)]
pub proof fn law_conversation_goes_by_packets(
    conn: ConnView,
    user: UserView,
    kind: PacketType,
    text: Seq<char>,
    rest: Seq<u8>,
)
    requires
        encode_utf8(text).len() <= 1_048_576,
        ({
            let send = frame_step(conn, user, kind, Some(text)).send;
            send matches Some(sent) ==> encode_utf8(sent.1).len() <= u32::MAX
        }),
    ensures
        ({
            let step = frame_step(conn, user, kind, Some(text));
            let out = match step.send {
                Some(sent) => frame_bytes(sent.0, encode_utf8(sent.1)),
                None => Seq::empty(),
            };
            let all = conversation(conn, user, frame_bytes(kind, encode_utf8(text)) + rest);
            &&& step.close ==> all.output == out && all.forward == step.forward && all.close
                && all.conn == step.conn
            &&& !step.close ==> {
                let then = conversation(step.conn, user, rest);
                all.output == out + then.output && all.forward == step.forward + then.forward
                    && all.close == then.close && all.conn == then.conn
            }
        }),
{
    let payload = encode_utf8(text);
    let packet = frame_bytes(kind, payload);
    let input = packet + rest;
    law_frame_round_trip(kind, payload);
    encode_utf8_valid_utf8(text);
    encode_utf8_decode_utf8(text);
    let length = payload.len() as int;
    assert(input.take(4) =~= packet.take(8).take(4));
    assert(input.subrange(4, 8) =~= packet.take(8).skip(4));
    assert(input.subrange(8, 8 + length) =~= packet.skip(8));
    assert(input.skip(8 + length) =~= rest);
    law_headers(kind.opcode(), length as u32, kind, kind);
    assert(input.len() >= 8 + length);
    let step = frame_step(conn, user, kind, Some(text));
    assert(first_packet(conn, user, input).1 == 8 + length);
    assert(first_packet(conn, user, input).0 == delivered(step));
}

/// Input that stops inside a packet ends the connection, and every card that
/// it published is cleared.
pub proof fn law_cut_input_ends_the_connection(conn: ConnView, user: UserView, input: Seq<u8>)
    requires
        input.len() < 8 || (le_value(input.take(4)) <= 4 && le_value(input.subrange(4, 8))
            <= 1_048_576 && input.len() < 8 + le_value(input.subrange(4, 8))),
    ensures
        conversation(conn, user, input).close,
        conversation(conn, user, input).output.len() == 0,
        conversation(conn, user, input).forward == clears_of(conn.slot.publications),
{
}

/// A header that is refused ends the connection with the reason, whatever
/// follows it.
pub proof fn law_refused_header_ends_the_connection(
    conn: ConnView,
    user: UserView,
    input: Seq<u8>,
)
    requires
        input.len() >= 8,
        0 <= le_value(input.take(4)) <= u32::MAX,
        0 <= le_value(input.subrange(4, 8)) <= u32::MAX,
        le_value(input.take(4)) > 4 || le_value(input.subrange(4, 8)) > 1_048_576,
    ensures
        ({
            let all = conversation(conn, user, input);
            let why = if le_value(input.take(4)) > 4 {
                close_json(Refusal::UnsupportedType)
            } else {
                close_json(Refusal::TooLarge)
            };
            &&& all.close
            &&& all.forward == clears_of(conn.slot.publications)
                || encode_utf8(why).len() > u32::MAX
            &&& encode_utf8(why).len() <= u32::MAX ==> all.output == frame_bytes(
                PacketType::Close,
                encode_utf8(why),
            )
        }),
{
}

/// A transport configuration is sound exactly when each of its queues has
/// room and it takes connections; the first that has none is named.
pub proof fn law_configuration_faults(config: WsTransportConfig)
    ensures
        config.fault() is None <==> config.event_queue > 0 && config.max_connections > 0
            && config.per_client_queue > 0,
        config.event_queue == 0 ==> config.fault() == Some("event_queue must be non-zero"@),
        config.event_queue > 0 && config.max_connections == 0 ==> config.fault() == Some(
            "max_connections must be non-zero"@,
        ),
        config.event_queue > 0 && config.max_connections > 0 && config.per_client_queue == 0
            ==> config.fault() == Some("per_client_queue must be non-zero"@),
{
}

/// Whether the value at `pointer` is missing or null.
pub open spec fn missing(doc: Seq<char>, pointer: Seq<char>) -> bool {
    json_text(doc, pointer) is None || json_text(doc, pointer) == Some("null"@)
}

/// A text spells a command exactly when it names one and each part that it has
/// is of its kind: texts, a number, objects. The command has these parts, and
/// lacks those that are missing or null; its nonce is repeated as it stands.
#[verifier::rlimit(40)]
pub proof fn law_spelled_command(doc: Seq<char>)
    ensures
        json_str(doc, "/cmd"@) is None ==> parsed_cmd(doc) is None,
        !missing(doc, "/application_id"@) && json_str(doc, "/application_id"@) is None
            ==> parsed_cmd(doc) is None,
        parsed_cmd(doc) matches Some(cmd) ==> {
            &&& Some(cmd.cmd) == json_str(doc, "/cmd"@)
            &&& cmd.raw == doc
            &&& missing(doc, "/application_id"@) ==> cmd.application_id is None
            &&& !missing(doc, "/application_id"@) ==> cmd.application_id == json_str(
                doc,
                "/application_id"@,
            )
            &&& json_text(doc, "/nonce"@) is Some ==> Some(cmd.nonce) == json_text(doc, "/nonce"@)
            &&& json_text(doc, "/nonce"@) is None ==> cmd.nonce == "null"@
            &&& cmd.args is None <==> missing(doc, "/args"@)
            &&& cmd.args is Some && missing(doc, "/args/pid"@) ==> (cmd.args->0).0 is None
            &&& cmd.args is Some && !missing(doc, "/args/pid"@) ==> (cmd.args->0).0 is Some
                && (cmd.args->0).0 == json_u64(doc, "/args/pid"@)
            &&& cmd.args is Some ==> (cmd.activity() is None <==> missing(doc, "/args/activity"@))
            &&& cmd.activity() is Some ==> {
                let activity = cmd.activity()->0;
                &&& Some(activity.json) == json_text(doc, "/args/activity"@)
                &&& missing(doc, "/args/activity/name"@) ==> activity.name is None
                &&& !missing(doc, "/args/activity/name"@) ==> activity.name is Some
                    && activity.name == json_str(doc, "/args/activity/name"@)
                &&& missing(doc, "/args/activity/application_id"@)
                    ==> activity.application_id is None
                &&& !missing(doc, "/args/activity/application_id"@)
                    ==> activity.application_id is Some && activity.application_id == json_str(
                    doc,
                    "/args/activity/application_id"@,
                )
            }
        },
        json_str(doc, "/cmd"@) is Some && missing(doc, "/application_id"@) && missing(doc, "/args"@)
            ==> parsed_cmd(doc) is Some,
{
}

/// A packet whose payload is no text is taken as one without a payload: a
/// command is answered with an error, a ping with an empty pong.
pub proof fn law_unreadable_packet(
    conn: ConnView,
    user: UserView,
    kind: PacketType,
    payload: Seq<u8>,
    rest: Seq<u8>,
)
    requires
        payload.len() <= 1_048_576,
        !valid_utf8(payload),
    ensures
        first_packet(conn, user, frame_bytes(kind, payload) + rest).0 == delivered(
            frame_step(conn, user, kind, None),
        ),
        first_packet(conn, user, frame_bytes(kind, payload) + rest).1 == 8 + payload.len(),
        frame_step(conn, user, PacketType::Ping, None).send == Some(
            (PacketType::Pong, Seq::<char>::empty()),
        ),
        !conn.handshake ==> frame_step(conn, user, PacketType::Handshake, None).send == Some(
            (PacketType::Close, close_json(Refusal::InvalidVersion)),
        ),
{
    let packet = frame_bytes(kind, payload);
    let input = packet + rest;
    law_frame_round_trip(kind, payload);
    let length = payload.len() as int;
    assert(input.take(4) =~= packet.take(8).take(4));
    assert(input.subrange(4, 8) =~= packet.take(8).skip(4));
    assert(input.subrange(8, 8 + length) =~= packet.skip(8));
    law_headers(kind.opcode(), length as u32, kind, kind);
    assert(input.len() >= 8 + length);
}

/// A reply that is too long for a packet ends the connection: nothing is sent,
/// and every card that it published is cleared.
pub proof fn law_reply_too_long(step: StepView)
    requires
        step.send matches Some(sent) && encode_utf8(sent.1).len() > u32::MAX,
    ensures
        delivered(step).close,
        delivered(step).output.len() == 0,
        delivered(step).forward == step.forward + clears_of(step.conn.slot.publications),
        delivered(step).conn.slot.publications.len() == 0,
{
}

/// The answer to a payload that spells no command says so.
pub proof fn law_encoding_error()
    ensures
        holds(encoding_error(), "\"data\":{\"code\":4005,\"message\":\"Invalid encoding\"}"@),
        holds(encoding_error(), "\"evt\":\"ERROR\",\"nonce\":null}"@),
{
    let t = encoding_error();
    reveal_strlit(
        "{\"cmd\":\"DISPATCH\",\"data\":{\"code\":4005,\"message\":\"Invalid encoding\"},\"evt\":\"ERROR\",\"nonce\":null}",
    );
    reveal_strlit("\"data\":{\"code\":4005,\"message\":\"Invalid encoding\"}");
    reveal_strlit("\"evt\":\"ERROR\",\"nonce\":null}");
    let w = "\"data\":{\"code\":4005,\"message\":\"Invalid encoding\"}"@;
    assert(t.subrange(18, 18 + w.len() as int) =~= w);
    assert(at(t, 18, w));
    let v = "\"evt\":\"ERROR\",\"nonce\":null}"@;
    let p: int = t.len() - v.len();
    assert(t.subrange(p, p + v.len()) =~= v);
    assert(at(t, p, v));
}

} // verus!
