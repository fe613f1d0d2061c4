//! A whole IPC connection: bytes in, frames and commands out.
use crate::frame::{
    check_header, decode_header, encode, ended, frame_bytes, frame_step, header_check,
    law_frame_round_trip, le_value, refused, step_is, ConnView, Connection, IpcStep, PacketType,
    Refusal, StepView,
};
use crate::payload::{ActivityCmd, CmdView};
use crate::procfs::utf8_text;
use crate::publications::cmds_view;
use crate::user::{RpcUser, UserView};
use vstd::prelude::*;
use vstd::slice::slice_subrange;
use vstd::utf8::{decode_utf8, encode_utf8, encode_utf8_decode_utf8, valid_utf8};

verus! {

/// What a connection does with a packet.
pub struct Packet {
    /// Bytes to write.
    pub output: Vec<u8>,
    /// Commands for the bridge, in order.
    pub forward: Vec<ActivityCmd>,
    /// Whether the connection ends.
    pub close: bool,
}

/// Model of what a connection does with bytes.
#[verifier::ext_equal]
pub struct PacketView {
    pub conn: ConnView,
    pub output: Seq<u8>,
    pub forward: Seq<CmdView>,
    pub close: bool,
}

/// Whether a frame can announce the length of its payload.
pub open spec fn fits(send: Option<(PacketType, Seq<char>)>) -> bool {
    send matches Some((_, text)) ==> encode_utf8(text).len() <= u32::MAX
}

/// The bytes of an optional frame.
pub open spec fn wire(send: Option<(PacketType, Seq<char>)>) -> Seq<u8> {
    match send {
        Some((kind, text)) => frame_bytes(kind, encode_utf8(text)),
        None => Seq::empty(),
    }
}

/// A step on the wire. A frame that cannot be written ends the connection.
pub open spec fn delivered(step: StepView) -> PacketView {
    if fits(step.send) {
        PacketView {
            conn: step.conn,
            output: wire(step.send),
            forward: step.forward,
            close: step.close,
        }
    } else {
        let over = ended(step.conn, None);
        PacketView {
            conn: over.conn,
            output: Seq::empty(),
            forward: step.forward + over.forward,
            close: true,
        }
    }
}

/// The text of a payload, if it is one.
pub open spec fn payload_text(payload: Seq<u8>) -> Option<Seq<char>> {
    if valid_utf8(payload) {
        Some(decode_utf8(payload))
    } else {
        None
    }
}

/// One packet of a known type.
pub open spec fn packet_step(
    conn: ConnView,
    user: UserView,
    kind: PacketType,
    payload: Seq<u8>,
) -> PacketView {
    delivered(frame_step(conn, user, kind, payload_text(payload)))
}

/// The connection is lost.
pub open spec fn lost(conn: ConnView) -> PacketView {
    delivered(ended(conn, None))
}

/// What a connection does with the first packet of `input`, and where that
/// packet ends. A stream that stops short ends the connection.
pub open spec fn first_packet(conn: ConnView, user: UserView, input: Seq<u8>) -> (PacketView, int) {
    if input.len() < 8 {
        (lost(conn), 0)
    } else {
        let length = le_value(input.subrange(4, 8));
        match header_check(le_value(input.take(4)) as u32, length as u32) {
            Err(refusal) => (delivered(refused(conn, refusal)), 8),
            Ok(kind) => if input.len() < 8 + length {
                (lost(conn), 8)
            } else {
                (packet_step(conn, user, kind, input.subrange(8, 8 + length)), 8 + length)
            },
        }
    }
}

/// What was done so far, and what follows.
pub open spec fn followed(output: Seq<u8>, forward: Seq<CmdView>, rest: PacketView) -> PacketView {
    PacketView { output: output + rest.output, forward: forward + rest.forward, ..rest }
}

/// Everything that a connection does with what its client ever sends: packet
/// by packet, up to the first that ends it.
pub open spec fn conversation(conn: ConnView, user: UserView, input: Seq<u8>) -> PacketView
    decreases input.len(),
{
    let (step, end) = first_packet(conn, user, input);
    if step.close || end <= 0 || end > input.len() {
        step
    } else {
        followed(
            step.output,
            step.forward,
            conversation(step.conn, user, input.skip(end)),
        )
    }
}

/// Whether `r` and the connection `conn` are what `model` says.
pub open spec fn packet_is(r: Packet, conn: ConnView, model: PacketView) -> bool {
    &&& conn == model.conn
    &&& r.output@ == model.output
    &&& cmds_view(r.forward@) == model.forward
    &&& r.close == model.close
}

/// Append commands.
fn append_cmds(out: &mut Vec<ActivityCmd>, more: Vec<ActivityCmd>)
    ensures
        cmds_view(final(out)@) == cmds_view(old(out)@) + cmds_view(more@),
{
    let mut more = more;
    let ghost tail = more@;
    let ghost head = out@;
    out.append(&mut more);
    assert(cmds_view(head + tail) =~= cmds_view(head) + cmds_view(tail));
}

impl Connection {
    /// Put a step on the wire.
    fn deliver(&mut self, step: IpcStep, Ghost(model): Ghost<StepView>) -> (r: Packet)
        requires
            step_is(step, old(self)@, model),
        ensures
            packet_is(r, final(self)@, delivered(model)),
    {
        match step.send {
            Some((kind, text)) => if text.as_str().as_bytes().len() <= u32::MAX as usize {
                Packet {
                    output: encode(kind, text.as_str()),
                    forward: step.forward,
                    close: step.close,
                }
            } else {
                let over = self.end(None);
                let mut forward = step.forward;
                append_cmds(&mut forward, over.forward);
                let output: Vec<u8> = Vec::new();
                assert(output@ =~= Seq::<u8>::empty());
                Packet { output, forward, close: true }
            },
            None => {
                let output: Vec<u8> = Vec::new();
                assert(output@ =~= Seq::<u8>::empty());
                Packet { output, forward: step.forward, close: step.close }
            },
        }
    }

    /// Carry out one packet.
    pub fn on_packet(&mut self, user: &RpcUser, kind: PacketType, payload: &[u8]) -> (r: Packet)
        ensures
            packet_is(r, final(self)@, packet_step(old(self)@, user@, kind, payload@)),
    {
        let ghost model = frame_step(self@, user@, kind, payload_text(payload@));
        let step = match utf8_text(payload) {
            Ok(text) => {
                proof {
                    encode_utf8_decode_utf8(text@);
                }
                self.on_frame(user, kind, Some(text))
            },
            Err(_) => self.on_frame(user, kind, None),
        };
        self.deliver(step, Ghost(model))
    }

    /// Refuse a header.
    pub fn on_refusal(&mut self, refusal: Refusal) -> (r: Packet)
        ensures
            packet_is(r, final(self)@, delivered(refused(old(self)@, refusal))),
    {
        let ghost model = refused(self@, refusal);
        let step = self.refuse(refusal);
        self.deliver(step, Ghost(model))
    }

    /// The connection is lost.
    pub fn on_lost(&mut self) -> (r: Packet)
        ensures
            packet_is(r, final(self)@, lost(old(self)@)),
    {
        let ghost model = ended(self@, None);
        let step = self.end(None);
        self.deliver(step, Ghost(model))
    }

    /// Carry out the first packet of `input`; where it ends.
    fn on_input(&mut self, user: &RpcUser, input: &[u8]) -> (r: (Packet, usize))
        ensures
            packet_is(r.0, final(self)@, first_packet(old(self)@, user@, input@).0),
            r.1 == first_packet(old(self)@, user@, input@).1,
            !r.0.close ==> 0 < r.1 <= input@.len(),
    {
        let total: usize = input.len();
        if total < 8 {
            return (self.on_lost(), 0);
        }
        let header = slice_subrange(input, 0, 8);
        let (opcode, length) = decode_header(header);
        assert(header@.take(4) =~= input@.take(4));
        assert(header@.skip(4) =~= input@.subrange(4, 8));
        match check_header(opcode, length) {
            Ok(kind) => {
                let length: usize = length as usize;
                if total - 8 < length {
                    return (self.on_lost(), 8);
                }
                let payload = slice_subrange(input, 8, 8 + length);
                (self.on_packet(user, kind, payload), 8 + length)
            },
            Err(refusal) => (self.on_refusal(refusal), 8),
        }
    }

    /// Carry out everything that a client ever sends.
    pub fn handle_stream(&mut self, user: &RpcUser, input: &[u8]) -> (r: Packet)
        ensures
            packet_is(r, final(self)@, conversation(old(self)@, user@, input@)),
    {
        let ghost whole = conversation(self@, user@, input@);
        let mut output: Vec<u8> = Vec::new();
        let mut forward: Vec<ActivityCmd> = Vec::new();
        let mut rest: &[u8] = input;
        proof {
            assert(cmds_view(forward@) =~= Seq::<CmdView>::empty());
            assert(whole == followed(output@, cmds_view(forward@), whole));
        }
        loop
            invariant
                whole == conversation(old(self)@, user@, input@),
                whole == followed(
                    output@,
                    cmds_view(forward@),
                    conversation(self@, user@, rest@),
                ),
            decreases rest@.len(),
        {
            let ghost here = conversation(self@, user@, rest@);
            let ghost out = output@;
            let ghost cmds = cmds_view(forward@);
            let ghost left = rest@;
            let (step, end) = self.on_input(user, rest);
            let mut step_output = step.output;
            let ghost shown = step_output@;
            let ghost more = cmds_view(step.forward@);
            output.append(&mut step_output);
            append_cmds(&mut forward, step.forward);
            if step.close {
                return Packet { output, forward, close: true };
            }
            let len: usize = rest.len();
            rest = slice_subrange(rest, end, len);
            proof {
                assert(rest@ =~= left.skip(end as int));
                let after = conversation(self@, user@, rest@);
                assert(out + (shown + after.output) =~= (out + shown) + after.output);
                assert(cmds + (more + after.forward) =~= (cmds + more) + after.forward);
            }
        }
    }
}

/// Whether `bytes` are whole frames of known types and nothing else.
pub open spec fn whole_frames(bytes: Seq<u8>) -> bool
    decreases bytes.len(),
{
    bytes.len() == 0 || {
        &&& bytes.len() >= 8
        &&& le_value(bytes.take(4)) <= 4
        &&& bytes.len() >= 8 + le_value(bytes.subrange(4, 8))
        &&& whole_frames(bytes.skip(8 + le_value(bytes.subrange(4, 8))))
    }
}

proof fn lemma_whole_chain(a: Seq<u8>, b: Seq<u8>)
    requires
        whole_frames(a),
        whole_frames(b),
    ensures
        whole_frames(a + b),
    decreases a.len(),
{
    if a.len() == 0 {
        assert(a + b =~= b);
    } else {
        let length = le_value(a.subrange(4, 8));
        assert((a + b).take(4) =~= a.take(4));
        assert((a + b).subrange(4, 8) =~= a.subrange(4, 8));
        assert((a + b).skip(8 + length) =~= a.skip(8 + length) + b);
        lemma_whole_chain(a.skip(8 + length), b);
    }
}

proof fn lemma_wire(send: Option<(PacketType, Seq<char>)>)
    requires
        fits(send),
    ensures
        whole_frames(wire(send)),
{
    if let Some((kind, text)) = send {
        let payload = encode_utf8(text);
        let bytes = frame_bytes(kind, payload);
        law_frame_round_trip(kind, payload);
        assert(bytes.take(8).take(4) =~= bytes.take(4));
        assert(bytes.take(8).skip(4) =~= bytes.subrange(4, 8));
        assert(bytes.skip(8 + payload.len() as int) =~= Seq::<u8>::empty());
        assert(whole_frames(bytes.skip(8 + payload.len() as int)));
    }
}

/// Whatever a client sends, what it is sent are whole frames of known types:
/// nothing torn, nothing between them.
pub proof fn law_output_is_whole_frames(conn: ConnView, user: UserView, input: Seq<u8>)
    ensures
        whole_frames(conversation(conn, user, input).output),
    decreases input.len(),
{
    let (step, end) = first_packet(conn, user, input);
    assert(whole_frames(Seq::<u8>::empty()));
    let over = ended(conn, None);
    lemma_wire(over.send);
    if input.len() >= 8 {
        let length = le_value(input.subrange(4, 8));
        match header_check(le_value(input.take(4)) as u32, length as u32) {
            Err(refusal) => {
                if fits(refused(conn, refusal).send) {
                    lemma_wire(refused(conn, refusal).send);
                }
            },
            Ok(kind) => {
                if input.len() >= 8 + length {
                    let text = payload_text(input.subrange(8, 8 + length));
                    let next = frame_step(conn, user, kind, text);
                    if fits(next.send) {
                        lemma_wire(next.send);
                    }
                }
            },
        }
    }
    if !step.close {
        law_output_is_whole_frames(step.conn, user, input.skip(end));
        lemma_whole_chain(step.output, conversation(step.conn, user, input.skip(end)).output);
    }
}

} // verus!
