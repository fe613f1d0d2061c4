//! Frames of the IPC transport, and what a connection does with them.
//!
//! A frame is a four-byte opcode, a four-byte length and a payload, both
//! numbers little-endian.
use crate::commands::{answer_command, command, command_of, other_forwarded, other_reply, Command};
use crate::json::{json_quote, json_quoted, json_str, json_str_at, json_u64, json_u64_at, opt_text};
use crate::payload::{parsed_cmd, ActivityCmd, CmdView};
use crate::publications::{clears_of, cmds_view, Publications};
use crate::text::{decimal, push_decimal};
use crate::user::{ready_json, RpcUser, UserView};
use crate::ws::{activity_step, ClientSlot, SlotModel};
use vstd::prelude::*;
use vstd::utf8::encode_utf8;

verus! {

/// What a frame is.
#[derive(Clone, Copy, PartialEq, Eq, Structural, Debug)]
pub enum PacketType {
    Handshake,
    Frame,
    Close,
    Ping,
    Pong,
}

/// The longest payload that is taken.
pub const MAX_IPC_PAYLOAD: u32 = 1_048_576;

impl PacketType {
    /// The opcode.
    pub open spec fn opcode(self) -> u32 {
        match self {
            PacketType::Handshake => 0,
            PacketType::Frame => 1,
            PacketType::Close => 2,
            PacketType::Ping => 3,
            PacketType::Pong => 4,
        }
    }

    /// The opcode as a number.
    pub fn to_u32(self) -> (r: u32)
        ensures
            r == self.opcode(),
    {
        match self {
            PacketType::Handshake => 0,
            PacketType::Frame => 1,
            PacketType::Close => 2,
            PacketType::Ping => 3,
            PacketType::Pong => 4,
        }
    }

    /// The packet type of an opcode, if there is one.
    pub fn try_from_u32(n: u32) -> (r: Option<PacketType>)
        ensures
            match r {
                Some(kind) => kind.opcode() == n,
                None => n > 4,
            },
    {
        if n == 0 {
            Some(PacketType::Handshake)
        } else if n == 1 {
            Some(PacketType::Frame)
        } else if n == 2 {
            Some(PacketType::Close)
        } else if n == 3 {
            Some(PacketType::Ping)
        } else if n == 4 {
            Some(PacketType::Pong)
        } else {
            None
        }
    }
}

/// The four little-endian bytes of `n`.
pub open spec fn le_bytes(n: u32) -> Seq<u8> {
    seq![
        (n % 256) as u8,
        (n / 256 % 256) as u8,
        (n / 65536 % 256) as u8,
        (n / 16777216 % 256) as u8,
    ]
}

/// The number that four little-endian bytes spell.
pub open spec fn le_value(b: Seq<u8>) -> int {
    b[0] + b[1] * 256 + b[2] * 65536 + b[3] * 16777216
}

/// Append the four little-endian bytes of `n`.
fn push_le(n: u32, out: &mut Vec<u8>)
    ensures
        final(out)@ == old(out)@ + le_bytes(n),
{
    out.push((n % 256) as u8);
    out.push((n / 256 % 256) as u8);
    out.push((n / 65536 % 256) as u8);
    out.push((n / 16777216 % 256) as u8);
    assert(out@ =~= old(out)@ + le_bytes(n));
}

/// The bytes of a frame.
pub open spec fn frame_bytes(kind: PacketType, payload: Seq<u8>) -> Seq<u8> {
    le_bytes(kind.opcode()) + le_bytes(payload.len() as u32) + payload
}

/// Encode a frame.
pub fn encode(kind: PacketType, payload: &str) -> (r: Vec<u8>)
    requires
        encode_utf8(payload@).len() <= u32::MAX,
    ensures
        r@ == frame_bytes(kind, encode_utf8(payload@)),
{
    let bytes = payload.as_bytes();
    let len: usize = bytes.len();
    let mut out: Vec<u8> = Vec::new();
    push_le(kind.to_u32(), &mut out);
    push_le(len as u32, &mut out);
    let ghost head = out@;
    assert(head =~= le_bytes(kind.opcode()) + le_bytes(len as u32));
    let mut i: usize = 0;
    assert(head + bytes@.take(0) =~= head);
    while i < len
        invariant
            i <= len,
            len == bytes@.len(),
            out@ == head + bytes@.take(i as int),
        decreases len - i,
    {
        out.push(bytes[i]);
        assert(head + bytes@.take(i + 1) =~= (head + bytes@.take(i as int)).push(bytes@[i as int]));
        i = i + 1;
    }
    assert(bytes@.take(len as int) =~= bytes@);
    out
}

/// The opcode and the length of a frame header.
pub fn decode_header(header: &[u8]) -> (r: (u32, u32))
    requires
        header@.len() == 8,
    ensures
        r.0 == le_value(header@.take(4)),
        r.1 == le_value(header@.skip(4)),
{
    let opcode: u32 = header[0] as u32 + header[1] as u32 * 256 + header[2] as u32 * 65536
        + header[3] as u32 * 16777216;
    let length: u32 = header[4] as u32 + header[5] as u32 * 256 + header[6] as u32 * 65536
        + header[7] as u32 * 16777216;
    (opcode, length)
}

proof fn lemma_le_round_trip(n: u32)
    ensures
        le_bytes(n).len() == 4,
        le_value(le_bytes(n)) == n,
{
    let q1 = n as int / 256;
    let q2 = q1 / 256;
    let q3 = q2 / 256;
    assert(n as int / 65536 == q2);
    assert(n as int / 16777216 == q3);
    assert(0 <= q3 < 256);
    assert(n as int == q1 * 256 + n as int % 256);
    assert(q1 == q2 * 256 + q1 % 256);
    assert(q2 == q3 * 256 + q2 % 256);
    let b = le_bytes(n);
    assert(b[0] == n as int % 256);
    assert(b[1] == q1 % 256);
    assert(b[2] == q2 % 256);
    assert(b[3] == q3);
}

/// Reading the header of an encoded frame gives its opcode and length, and
/// what follows is the payload.
pub proof fn law_frame_round_trip(kind: PacketType, payload: Seq<u8>)
    requires
        payload.len() <= u32::MAX,
    ensures
        ({
            let bytes = frame_bytes(kind, payload);
            &&& bytes.len() == 8 + payload.len()
            &&& le_value(bytes.take(8).take(4)) == kind.opcode()
            &&& le_value(bytes.take(8).skip(4)) == payload.len()
            &&& bytes.skip(8) == payload
        }),
{
    let bytes = frame_bytes(kind, payload);
    let head = le_bytes(kind.opcode());
    let length = le_bytes(payload.len() as u32);
    lemma_le_round_trip(kind.opcode());
    lemma_le_round_trip(payload.len() as u32);
    assert(bytes == head + length + payload);
    assert(bytes.take(8).take(4) =~= head);
    assert(bytes.take(8).skip(4) =~= length);
    assert(bytes.skip(8) =~= payload);
}

/// Why a frame is refused.
#[derive(Clone, Copy, PartialEq, Eq, Structural, Debug)]
pub enum Refusal {
    UnsupportedType,
    TooLarge,
    InvalidVersion,
    InvalidClientId,
}

impl Refusal {
    /// The close code.
    pub open spec fn code(self) -> u64 {
        match self {
            Refusal::UnsupportedType => 1003,
            Refusal::TooLarge => 1003,
            Refusal::InvalidVersion => 4004,
            Refusal::InvalidClientId => 4000,
        }
    }

    /// The close message.
    pub open spec fn message(self) -> Seq<char> {
        match self {
            Refusal::UnsupportedType => "Unsupported packet type"@,
            Refusal::TooLarge => "Payload too large"@,
            Refusal::InvalidVersion => "Invalid version"@,
            Refusal::InvalidClientId => "Invalid client_id"@,
        }
    }

    /// The payload of the close frame.
    pub fn close_payload(self) -> (r: String)
        ensures
            r@ == close_json(self),
    {
        let (code, message): (u64, &str) = match self {
            Refusal::UnsupportedType => (1003, "Unsupported packet type"),
            Refusal::TooLarge => (1003, "Payload too large"),
            Refusal::InvalidVersion => (4004, "Invalid version"),
            Refusal::InvalidClientId => (4000, "Invalid client_id"),
        };
        let mut out = String::new();
        out.append("{\"code\":");
        assert(out@ == "{\"code\":"@);
        push_decimal(code, &mut out);
        out.append(",\"message\":");
        out.append(json_quote(message).as_str());
        out.append("}");
        out
    }
}

/// The payload of a close frame.
pub open spec fn close_json(refusal: Refusal) -> Seq<char> {
    "{\"code\":"@ + decimal(refusal.code() as nat) + ",\"message\":"@ + json_quoted(
        refusal.message(),
    ) + "}"@
}

/// What a header announces: a frame of a known type and bounded length.
pub open spec fn header_check(opcode: u32, length: u32) -> Result<PacketType, Refusal> {
    if opcode == 0 || opcode == 1 || opcode == 2 || opcode == 3 || opcode == 4 {
        if length > MAX_IPC_PAYLOAD {
            Err(Refusal::TooLarge)
        } else if opcode == 0 {
            Ok(PacketType::Handshake)
        } else if opcode == 1 {
            Ok(PacketType::Frame)
        } else if opcode == 2 {
            Ok(PacketType::Close)
        } else if opcode == 3 {
            Ok(PacketType::Ping)
        } else {
            Ok(PacketType::Pong)
        }
    } else {
        Err(Refusal::UnsupportedType)
    }
}

/// Check a header before its payload is read.
pub fn check_header(opcode: u32, length: u32) -> (r: Result<PacketType, Refusal>)
    ensures
        r == header_check(opcode, length),
{
    match PacketType::try_from_u32(opcode) {
        None => Err(Refusal::UnsupportedType),
        Some(kind) => if length > MAX_IPC_PAYLOAD {
            Err(Refusal::TooLarge)
        } else {
            Ok(kind)
        },
    }
}

/// Whether a frame header answers a probe.
pub fn is_pong(header: &[u8]) -> (r: bool)
    requires
        header@.len() == 8,
    ensures
        r == (le_value(header@.take(4)) == PacketType::Pong.opcode()),
{
    let (opcode, _) = decode_header(header);
    opcode == PacketType::Pong.to_u32()
}

/// What a connection does with a frame.
pub struct IpcStep {
    /// A frame to send.
    pub send: Option<(PacketType, String)>,
    /// Commands for the bridge, in order.
    pub forward: Vec<ActivityCmd>,
    /// Whether the connection ends.
    pub close: bool,
}

/// Model of a connection.
#[verifier::ext_equal]
pub struct ConnView {
    pub handshake: bool,
    pub slot: SlotModel,
}

/// Model of what a connection does with a frame: the connection afterwards
/// and the step.
#[verifier::ext_equal]
pub struct StepView {
    pub conn: ConnView,
    pub send: Option<(PacketType, Seq<char>)>,
    pub forward: Seq<CmdView>,
    pub close: bool,
}

/// A game connection.
pub struct Connection {
    /// Whether the handshake is done.
    pub handshake: bool,
    pub slot: ClientSlot,
}

impl View for Connection {
    type V = ConnView;

    open spec fn view(&self) -> ConnView {
        ConnView { handshake: self.handshake, slot: self.slot@ }
    }
}

/// The reply to a payload that is no command.
pub open spec fn encoding_error() -> Seq<char> {
    "{\"cmd\":\"DISPATCH\",\"data\":{\"code\":4005,\"message\":\"Invalid encoding\"},\"evt\":\"ERROR\",\"nonce\":null}"@
}

/// Nothing happens.
pub open spec fn idle(conn: ConnView) -> StepView {
    StepView { conn, send: None, forward: Seq::empty(), close: false }
}

/// The connection ends: whatever it published is cleared.
pub open spec fn ended(conn: ConnView, send: Option<(PacketType, Seq<char>)>) -> StepView {
    StepView {
        conn: ConnView {
            slot: SlotModel { publications: Seq::empty(), ..conn.slot },
            ..conn
        },
        send,
        forward: clears_of(conn.slot.publications),
        close: true,
    }
}

/// The connection is refused: told why, and ended.
pub open spec fn refused(conn: ConnView, refusal: Refusal) -> StepView {
    ended(conn, Some((PacketType::Close, close_json(refusal))))
}

/// A handshake, with what was read of it: version 1 and an application that
/// is named.
pub open spec fn handshake_step(
    conn: ConnView,
    user: UserView,
    version: Option<u64>,
    client_id: Option<Seq<char>>,
) -> StepView {
    if conn.handshake {
        idle(conn)
    } else if version != Some(1u64) {
        refused(conn, Refusal::InvalidVersion)
    } else if client_id is None || client_id->0.len() == 0 {
        refused(conn, Refusal::InvalidClientId)
    } else {
        StepView {
            conn: ConnView {
                handshake: true,
                slot: SlotModel { client_id, ..conn.slot },
            },
            send: Some((PacketType::Frame, ready_json(user))),
            forward: Seq::empty(),
            close: false,
        }
    }
}

/// A command.
pub open spec fn ipc_command_step(conn: ConnView, user: UserView, cmd: CmdView) -> StepView {
    if command_of(cmd.cmd) == Command::SetActivity {
        let model = activity_step(conn.slot, cmd);
        StepView {
            conn: ConnView { slot: model.slot, ..conn },
            send: Some((PacketType::Frame, model.reply->0)),
            forward: model.forward,
            close: false,
        }
    } else {
        let code = json_str(cmd.raw, "/args/code"@);
        StepView {
            conn,
            send: Some(
                (
                    PacketType::Frame,
                    other_reply(cmd, user, false, json_str(cmd.raw, "/args/id"@), code),
                ),
            ),
            forward: if other_forwarded(cmd, false, code) {
                seq![cmd]
            } else {
                Seq::empty()
            },
            close: false,
        }
    }
}

/// A frame; `payload` is nothing when its bytes are no text.
pub open spec fn frame_step(
    conn: ConnView,
    user: UserView,
    kind: PacketType,
    payload: Option<Seq<char>>,
) -> StepView {
    match kind {
        PacketType::Ping => StepView {
            conn,
            send: Some(
                (
                    PacketType::Pong,
                    match payload {
                        Some(text) => text,
                        None => Seq::empty(),
                    },
                ),
            ),
            forward: Seq::empty(),
            close: false,
        },
        PacketType::Pong => idle(conn),
        PacketType::Close => ended(conn, None),
        PacketType::Handshake => match payload {
            Some(text) => handshake_step(
                conn,
                user,
                json_u64(text, "/v"@),
                json_str(text, "/client_id"@),
            ),
            None => handshake_step(conn, user, None, None),
        },
        PacketType::Frame => if !conn.handshake {
            idle(conn)
        } else {
            match payload {
                Some(text) => match parsed_cmd(text) {
                    Some(cmd) => ipc_command_step(conn, user, cmd),
                    None => StepView {
                        conn,
                        send: Some((PacketType::Frame, encoding_error())),
                        forward: Seq::empty(),
                        close: false,
                    },
                },
                None => StepView {
                    conn,
                    send: Some((PacketType::Frame, encoding_error())),
                    forward: Seq::empty(),
                    close: false,
                },
            }
        },
    }
}

/// Model of an optional frame.
pub open spec fn send_view(send: Option<(PacketType, String)>) -> Option<(PacketType, Seq<char>)> {
    match send {
        Some((kind, text)) => Some((kind, text@)),
        None => None,
    }
}

/// Whether `r` and the connection `conn` are what `model` says.
pub open spec fn step_is(r: IpcStep, conn: ConnView, model: StepView) -> bool {
    &&& conn == model.conn
    &&& send_view(r.send) == model.send
    &&& cmds_view(r.forward@) == model.forward
    &&& r.close == model.close
}

/// A step that sends at most one frame.
fn quiet(send: Option<(PacketType, String)>) -> (r: IpcStep)
    ensures
        r.send == send,
        cmds_view(r.forward@) == Seq::<CmdView>::empty(),
        !r.close,
{
    let forward: Vec<ActivityCmd> = Vec::new();
    assert(cmds_view(forward@) =~= Seq::<CmdView>::empty());
    IpcStep { send, forward, close: false }
}

impl Connection {
    /// Before the handshake.
    pub fn fresh() -> (r: Self)
        ensures
            r@ == (ConnView {
                handshake: false,
                slot: SlotModel { publications: Seq::empty(), client_id: None },
            }),
    {
        Connection {
            handshake: false,
            slot: ClientSlot { publications: Publications::new(), client_id: None },
        }
    }

    /// End the connection, with a last frame or without.
    pub fn end(&mut self, send: Option<(PacketType, String)>) -> (r: IpcStep)
        ensures
            step_is(r, final(self)@, ended(old(self)@, send_view(send))),
    {
        let forward = self.slot.publications.take_clears();
        IpcStep { send, forward, close: true }
    }

    /// Refuse a frame.
    pub fn refuse(&mut self, refusal: Refusal) -> (r: IpcStep)
        ensures
            step_is(r, final(self)@, refused(old(self)@, refusal)),
    {
        self.end(Some((PacketType::Close, refusal.close_payload())))
    }

    /// Carry out a handshake, with what was read of it.
    pub fn on_handshake(
        &mut self,
        user: &RpcUser,
        version: Option<u64>,
        client_id: Option<String>,
    ) -> (r: IpcStep)
        ensures
            step_is(
                r,
                final(self)@,
                handshake_step(old(self)@, user@, version, opt_text(client_id)),
            ),
    {
        if self.handshake {
            return quiet(None);
        }
        if version != Some(1u64) {
            return self.refuse(Refusal::InvalidVersion);
        }
        let named = match &client_id {
            Some(id) => !id.as_str().is_empty(),
            None => false,
        };
        if !named {
            return self.refuse(Refusal::InvalidClientId);
        }
        self.handshake = true;
        self.slot.client_id = client_id;
        quiet(Some((PacketType::Frame, user.ready_payload())))
    }

    /// Carry out a command.
    pub fn on_command(&mut self, user: &RpcUser, cmd: ActivityCmd) -> (r: IpcStep)
        ensures
            step_is(r, final(self)@, ipc_command_step(old(self)@, user@, cmd@)),
    {
        if command(cmd.cmd.as_str()) == Command::SetActivity {
            let handled = self.slot.on_activity(cmd);
            let send = match handled.reply {
                Some(reply) => Some((PacketType::Frame, reply)),
                None => None,
            };
            return IpcStep { send, forward: handled.forward, close: false };
        }
        let answered = answer_command(&cmd, user, false);
        let mut forward: Vec<ActivityCmd> = Vec::new();
        assert(cmds_view(forward@) =~= Seq::<CmdView>::empty());
        if answered.forward {
            let ghost shown = cmd@;
            forward.push(cmd);
            assert(cmds_view(forward@) =~= seq![shown]);
        }
        IpcStep { send: Some((PacketType::Frame, answered.reply)), forward, close: false }
    }

    /// Carry out a frame; `payload` is nothing when its bytes are no text.
    pub fn on_frame(&mut self, user: &RpcUser, kind: PacketType, payload: Option<&str>) -> (r:
        IpcStep)
        ensures
            step_is(
                r,
                final(self)@,
                frame_step(old(self)@, user@, kind, crate::json::opt_str(payload)),
            ),
    {
        proof {
            reveal_strlit("");
            assert(""@ =~= Seq::<char>::empty());
        }
        match kind {
            PacketType::Ping => {
                let echo = match payload {
                    Some(text) => text,
                    None => "",
                };
                quiet(Some((PacketType::Pong, echo.to_owned())))
            },
            PacketType::Pong => quiet(None),
            PacketType::Close => self.end(None),
            PacketType::Handshake => match payload {
                Some(text) => self.on_handshake(
                    user,
                    json_u64_at(text, "/v"),
                    json_str_at(text, "/client_id"),
                ),
                None => self.on_handshake(user, None, None),
            },
            PacketType::Frame => {
                if !self.handshake {
                    return quiet(None);
                }
                if let Some(text) = payload {
                    if let Some(cmd) = ActivityCmd::from_json(text) {
                        return self.on_command(user, cmd);
                    }
                }
                quiet(
                    Some(
                        (
                            PacketType::Frame,
                            "{\"cmd\":\"DISPATCH\",\"data\":{\"code\":4005,\"message\":\"Invalid encoding\"},\"evt\":\"ERROR\",\"nonce\":null}".to_owned(),
                        ),
                    ),
                )
            },
        }
    }
}

/// Whatever ends a connection, everything that it published is cleared and
/// it publishes nothing more.
pub proof fn law_end_clears_everything(conn: ConnView, refusal: Refusal)
    ensures
        ended(conn, None).forward == clears_of(conn.slot.publications),
        refused(conn, refusal).forward == clears_of(conn.slot.publications),
        refused(conn, refusal).close,
        ended(conn, None).conn.slot.publications.len() == 0,
        refused(conn, refusal).conn.slot.publications.len() == 0,
{
}

/// Before the handshake nothing reaches the bridge.
pub proof fn law_no_command_before_handshake(
    conn: ConnView,
    user: UserView,
    kind: PacketType,
    payload: Option<Seq<char>>,
)
    requires
        !conn.handshake,
        conn.slot.publications.len() == 0,
    ensures
        frame_step(conn, user, kind, payload).forward.len() == 0,
{
}

} // verus!
