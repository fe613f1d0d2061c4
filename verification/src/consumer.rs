//! Consumer management: who listens in which encoding, and what is sent.
use crate::json::{json_to_msgpack, json_to_msgpack_sorted, msgpack_of, msgpack_sorted};
use crate::message::{Message, MessageView};
use crate::payload::{ActivityCmd, CachedActivity, CachedView};
use crate::query::{query, query_params};
use crate::router::{bump, bumped};
use crate::table::lookup;
use crate::text::same;
use std::collections::{HashMap, HashSet};
use vstd::prelude::*;

verus! {

broadcast use vstd::std_specs::hash::group_hash_axioms;

/// Which wire encoding a bridge consumer speaks.
#[derive(Clone, Copy, PartialEq, Eq, Structural, Debug)]
pub enum BridgeProtocol {
    /// JSON text frames.
    Json,
    /// MessagePack binary frames.
    MsgPack,
}

/// Encoding that a connection URI asks for; the default of its port without
/// a known `format` parameter.
pub open spec fn requested(uri: Seq<char>, default: BridgeProtocol) -> BridgeProtocol {
    match lookup(query(uri), "format"@) {
        Some(format) => if format == "msgpack"@ || format == "messagepack"@ {
            BridgeProtocol::MsgPack
        } else if format == "json"@ {
            BridgeProtocol::Json
        } else {
            default
        },
        None => default,
    }
}

impl BridgeProtocol {
    /// Encoding that a connection URI asks for.
    pub fn from_query(uri: &str, default: BridgeProtocol) -> (r: BridgeProtocol)
        ensures
            r == requested(uri@, default),
    {
        let params = query_params(uri);
        match params.get("format") {
            Some(format) => if same(format.as_str(), "msgpack") || same(
                format.as_str(),
                "messagepack",
            ) {
                BridgeProtocol::MsgPack
            } else if same(format.as_str(), "json") {
                BridgeProtocol::Json
            } else {
                default
            },
            None => default,
        }
    }
}

/// Frame that carries the JSON text `data`; none when it has no MessagePack
/// form.
pub open spec fn frame(data: Seq<char>, protocol: BridgeProtocol) -> Option<MessageView> {
    match protocol {
        BridgeProtocol::Json => Some(MessageView::Text(data)),
        BridgeProtocol::MsgPack => match msgpack_sorted(data) {
            Some(bytes) => Some(MessageView::Binary(bytes)),
            None => None,
        },
    }
}

/// Model of an optional message.
pub open spec fn opt_message(m: Option<Message>) -> Option<MessageView> {
    match m {
        Some(message) => Some(message@),
        None => None,
    }
}

/// Encode the JSON text `data` for a consumer.
pub fn message_frame(data: &str, protocol: BridgeProtocol) -> (r: Option<Message>)
    ensures
        opt_message(r) == frame(data@, protocol),
{
    match protocol {
        BridgeProtocol::Json => Some(Message::text(data)),
        BridgeProtocol::MsgPack => match json_to_msgpack_sorted(data) {
            Some(bytes) => Some(Message::binary(bytes)),
            None => None,
        },
    }
}

/// Frame that forwards the JSON text `data` of a game, its fields in the order
/// in which they came; none when it has no MessagePack form.
pub open spec fn raw_frame(data: Seq<char>, protocol: BridgeProtocol) -> Option<MessageView> {
    match protocol {
        BridgeProtocol::Json => Some(MessageView::Text(data)),
        BridgeProtocol::MsgPack => match msgpack_of(data) {
            Some(bytes) => Some(MessageView::Binary(bytes)),
            None => None,
        },
    }
}

/// Encode the JSON text `data` of a game for a consumer.
fn forward_frame(data: &str, protocol: BridgeProtocol) -> (r: Option<Message>)
    ensures
        opt_message(r) == raw_frame(data@, protocol),
{
    match protocol {
        BridgeProtocol::Json => Some(Message::text(data)),
        BridgeProtocol::MsgPack => match json_to_msgpack(data) {
            Some(bytes) => Some(Message::binary(bytes)),
            None => None,
        },
    }
}

/// Frame that carries a payload.
pub open spec fn payload_frame(payload: CachedView, protocol: BridgeProtocol) -> MessageView {
    match protocol {
        BridgeProtocol::Json => MessageView::Text(payload.json),
        BridgeProtocol::MsgPack => MessageView::Binary(payload.msgpack),
    }
}

/// Copy of `bytes`.
fn copy_bytes(bytes: &Vec<u8>) -> (r: Vec<u8>)
    ensures
        r@ == bytes@,
{
    let mut out: Vec<u8> = Vec::new();
    let mut i: usize = 0;
    while i < bytes.len()
        invariant
            i <= bytes@.len(),
            out@ == bytes@.take(i as int),
        decreases bytes@.len() - i,
    {
        out.push(bytes[i]);
        i = i + 1;
    }
    assert(bytes@.take(bytes@.len() as int) == bytes@);
    out
}

/// The frame of an already encoded payload for a consumer.
pub fn send_cached(payload: &CachedActivity, protocol: BridgeProtocol) -> (r: Message)
    ensures
        r@ == payload_frame(payload@, protocol),
{
    match protocol {
        BridgeProtocol::Json => Message::text(payload.json.as_str()),
        BridgeProtocol::MsgPack => Message::binary(copy_bytes(&payload.msgpack)),
    }
}

/// Who listens. Every consumer stands in the protocol table and in the
/// client set of its encoding.
pub struct Consumers {
    pub json_clients: HashSet<u64>,
    pub msgpack_clients: HashSet<u64>,
    pub consumer_protocol: HashMap<u64, BridgeProtocol>,
    /// Frames that a full or gone consumer cost.
    pub dropped: u64,
}

/// Model of [`Consumers`].
#[verifier::ext_equal]
pub struct ConsumersView {
    pub json: Set<u64>,
    pub msgpack: Set<u64>,
    pub protocols: Map<u64, BridgeProtocol>,
    pub dropped: u64,
}

impl View for Consumers {
    type V = ConsumersView;

    open spec fn view(&self) -> ConsumersView {
        ConsumersView {
            json: self.json_clients@,
            msgpack: self.msgpack_clients@,
            protocols: self.consumer_protocol@,
            dropped: self.dropped,
        }
    }
}

impl ConsumersView {
    /// The tables agree: a client set holds exactly the consumers that the
    /// protocol table gives its encoding.
    pub open spec fn wf(self) -> bool {
        &&& self.json.finite()
        &&& self.msgpack.finite()
        &&& forall|id: u64| #[trigger]
            self.json.contains(id) <==> self.protocols.contains_pair(id, BridgeProtocol::Json)
        &&& forall|id: u64| #[trigger]
            self.msgpack.contains(id) <==> self.protocols.contains_pair(id, BridgeProtocol::MsgPack)
    }

    /// The client set of one encoding.
    pub open spec fn clients(self, protocol: BridgeProtocol) -> Set<u64> {
        match protocol {
            BridgeProtocol::Json => self.json,
            BridgeProtocol::MsgPack => self.msgpack,
        }
    }

    /// Consumers after `id` joined with an encoding.
    pub open spec fn joined(self, id: u64, protocol: BridgeProtocol) -> ConsumersView {
        ConsumersView {
            json: if protocol == BridgeProtocol::Json {
                self.json.insert(id)
            } else {
                self.json.remove(id)
            },
            msgpack: if protocol == BridgeProtocol::MsgPack {
                self.msgpack.insert(id)
            } else {
                self.msgpack.remove(id)
            },
            protocols: self.protocols.insert(id, protocol),
            ..self
        }
    }

    /// Consumers after `id` left.
    pub open spec fn left(self, id: u64) -> ConsumersView {
        ConsumersView {
            json: self.json.remove(id),
            msgpack: self.msgpack.remove(id),
            protocols: self.protocols.remove(id),
            ..self
        }
    }

    /// Consumers after the sends of one encoding to `dead` failed: those of
    /// them that speak it leave, and each is counted when `counted`.
    pub open spec fn pruned(
        self,
        protocol: BridgeProtocol,
        dead: Seq<u64>,
        counted: bool,
    ) -> ConsumersView
        decreases dead.len(),
    {
        if dead.len() == 0 {
            self
        } else {
            let before = self.pruned(protocol, dead.drop_last(), counted);
            if before.clients(protocol).contains(dead.last()) {
                ConsumersView {
                    dropped: if counted {
                        bumped(before.dropped)
                    } else {
                        before.dropped
                    },
                    ..before.left(dead.last())
                }
            } else {
                before
            }
        }
    }
}

impl Consumers {
    /// Nobody listens.
    pub fn new() -> (r: Self)
        ensures
            r@ == (ConsumersView {
                json: Set::empty(),
                msgpack: Set::empty(),
                protocols: Map::empty(),
                dropped: 0,
            }),
    {
        Consumers {
            json_clients: HashSet::new(),
            msgpack_clients: HashSet::new(),
            consumer_protocol: HashMap::new(),
            dropped: 0,
        }
    }

    /// Whether `id` is a consumer: it stands in the protocol table. Refused
    /// origins never enter it.
    pub fn is_registered(&self, id: u64) -> (r: bool)
        ensures
            r == self@.protocols.dom().contains(id),
    {
        self.consumer_protocol.contains_key(&id)
    }

    /// Encoding that a consumer speaks; the default for an unknown one.
    pub fn protocol_for(&self, id: u64, default: BridgeProtocol) -> (r: BridgeProtocol)
        ensures
            r == if self@.protocols.dom().contains(id) {
                self@.protocols[id]
            } else {
                default
            },
    {
        match self.consumer_protocol.get(&id) {
            Some(protocol) => *protocol,
            None => default,
        }
    }

    /// How many consumers speak an encoding.
    pub fn count(&self, protocol: BridgeProtocol) -> (r: usize)
        ensures
            r == self@.clients(protocol).len(),
    {
        match protocol {
            BridgeProtocol::Json => self.json_clients.len(),
            BridgeProtocol::MsgPack => self.msgpack_clients.len(),
        }
    }

    /// `id` joins with an encoding.
    pub fn join(&mut self, id: u64, protocol: BridgeProtocol)
        ensures
            final(self)@ == old(self)@.joined(id, protocol),
    {
        let _ = self.consumer_protocol.insert(id, protocol);
        match protocol {
            BridgeProtocol::Json => {
                let _ = self.json_clients.insert(id);
                let _ = self.msgpack_clients.remove(&id);
            },
            BridgeProtocol::MsgPack => {
                let _ = self.msgpack_clients.insert(id);
                let _ = self.json_clients.remove(&id);
            },
        }
    }

    /// `id` leaves; every table forgets it.
    pub fn leave(&mut self, id: u64)
        ensures
            final(self)@ == old(self)@.left(id),
    {
        let _ = self.consumer_protocol.remove(&id);
        let _ = self.json_clients.remove(&id);
        let _ = self.msgpack_clients.remove(&id);
    }

    /// Sends of one encoding to `dead` failed: release them now, so that a
    /// stuck consumer cannot pin memory.
    pub fn prune(&mut self, protocol: BridgeProtocol, dead: &Vec<u64>, counted: bool)
        ensures
            final(self)@ == old(self)@.pruned(protocol, dead@, counted),
    {
        let ghost before = self@;
        let mut i: usize = 0;
        assert(dead@.take(0) == Seq::<u64>::empty());
        while i < dead.len()
            invariant
                i <= dead@.len(),
                self@ == before.pruned(protocol, dead@.take(i as int), counted),
            decreases dead@.len() - i,
        {
            let id = dead[i];
            assert(dead@.take(i + 1).drop_last() == dead@.take(i as int));
            assert(dead@.take(i + 1).last() == id);
            let speaks = match protocol {
                BridgeProtocol::Json => self.json_clients.contains(&id),
                BridgeProtocol::MsgPack => self.msgpack_clients.contains(&id),
            };
            if speaks {
                self.leave(id);
                if counted {
                    self.dropped = bump(self.dropped);
                }
            }
            i = i + 1;
        }
        assert(dead@.take(dead@.len() as int) == dead@);
    }

    /// Frames that forward an event which is no activity: one per encoding
    /// that somebody listens in. A frame that cannot be encoded is dropped.
    pub fn broadcast_raw(&self, cmd: &ActivityCmd) -> (r: (Option<Message>, Option<Message>))
        ensures
            opt_message(r.0) == if self@.json.len() == 0 {
                None
            } else {
                raw_frame(cmd@.raw, BridgeProtocol::Json)
            },
            opt_message(r.1) == if self@.msgpack.len() == 0 {
                None
            } else {
                raw_frame(cmd@.raw, BridgeProtocol::MsgPack)
            },
    {
        let json = if self.json_clients.len() == 0 {
            None
        } else {
            forward_frame(cmd.raw.as_str(), BridgeProtocol::Json)
        };
        let msgpack = if self.msgpack_clients.len() == 0 {
            None
        } else {
            forward_frame(cmd.raw.as_str(), BridgeProtocol::MsgPack)
        };
        (json, msgpack)
    }
}

/// Joining, leaving and pruning keep the tables in agreement.
pub proof fn law_tables_stay_paired(
    state: ConsumersView,
    id: u64,
    protocol: BridgeProtocol,
    dead: Seq<u64>,
    counted: bool,
)
    requires
        state.wf(),
    ensures
        state.joined(id, protocol).wf(),
        state.left(id).wf(),
        state.pruned(protocol, dead, counted).wf(),
    decreases dead.len(),
{
    lemma_joined(state, id, protocol);
    lemma_left(state, id);
    if dead.len() > 0 {
        law_tables_stay_paired(state, id, protocol, dead.drop_last(), counted);
        lemma_left(state.pruned(protocol, dead.drop_last(), counted), dead.last());
    }
}

proof fn lemma_joined(state: ConsumersView, id: u64, protocol: BridgeProtocol)
    requires
        state.wf(),
    ensures
        state.joined(id, protocol).wf(),
{
    let after = state.joined(id, protocol);
    assert forall|k: u64| #[trigger]
        after.json.contains(k) <==> after.protocols.contains_pair(k, BridgeProtocol::Json) by {
        assert(state.json.contains(k) <==> state.protocols.contains_pair(k, BridgeProtocol::Json));
    }
    assert forall|k: u64| #[trigger]
        after.msgpack.contains(k) <==> after.protocols.contains_pair(
            k,
            BridgeProtocol::MsgPack,
        ) by {
        assert(state.msgpack.contains(k) <==> state.protocols.contains_pair(
            k,
            BridgeProtocol::MsgPack,
        ));
    }
}

proof fn lemma_left(state: ConsumersView, id: u64)
    requires
        state.wf(),
    ensures
        state.left(id).wf(),
{
    let after = state.left(id);
    assert forall|k: u64| #[trigger]
        after.json.contains(k) <==> after.protocols.contains_pair(k, BridgeProtocol::Json) by {
        assert(state.json.contains(k) <==> state.protocols.contains_pair(k, BridgeProtocol::Json));
    }
    assert forall|k: u64| #[trigger]
        after.msgpack.contains(k) <==> after.protocols.contains_pair(
            k,
            BridgeProtocol::MsgPack,
        ) by {
        assert(state.msgpack.contains(k) <==> state.protocols.contains_pair(
            k,
            BridgeProtocol::MsgPack,
        ));
    }
}

/// A failed send releases its consumer; consumers of the other encoding and
/// those whose send went through stay.
pub proof fn law_prune_releases_exactly_the_dead(
    state: ConsumersView,
    protocol: BridgeProtocol,
    dead: Seq<u64>,
    counted: bool,
    id: u64,
)
    requires
        state.wf(),
    ensures
        dead.contains(id) ==> !state.pruned(protocol, dead, counted).clients(protocol).contains(id),
        !dead.contains(id) || !state.clients(protocol).contains(id) ==> (state.pruned(
            protocol,
            dead,
            counted,
        ).protocols.dom().contains(id) <==> state.protocols.dom().contains(id)),
    decreases dead.len(),
{
    if dead.len() > 0 {
        let front = dead.drop_last();
        law_prune_releases_exactly_the_dead(state, protocol, front, counted, id);
        law_tables_stay_paired(state, id, protocol, front, counted);
        let before = state.pruned(protocol, front, counted);
        assert(dead == front.push(dead.last()));
        if dead.contains(id) && id != dead.last() {
            let k = choose|k: int| 0 <= k < dead.len() && dead[k] == id;
            assert(front[k] == id);
        }
        if front.contains(id) {
            let k = choose|k: int| 0 <= k < front.len() && front[k] == id;
            assert(dead[k] == id);
        }
        assert(dead[dead.len() - 1] == dead.last());
        if id == dead.last() && !state.clients(protocol).contains(id) {
            // Not listening in this encoding before, so not now either.
            lemma_pruned_subset(state, protocol, front, counted, id);
        }
    }
}

proof fn lemma_pruned_subset(
    state: ConsumersView,
    protocol: BridgeProtocol,
    dead: Seq<u64>,
    counted: bool,
    id: u64,
)
    ensures
        state.pruned(protocol, dead, counted).clients(protocol).contains(id)
            ==> state.clients(protocol).contains(id),
    decreases dead.len(),
{
    if dead.len() > 0 {
        lemma_pruned_subset(state, protocol, dead.drop_last(), counted, id);
    }
}

} // verus!
