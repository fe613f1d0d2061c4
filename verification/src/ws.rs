//! The game websocket transport: who may connect, what a message does, and
//! what the end of a connection clears.
use crate::bridge::PortScan;
use crate::commands::{
    activity_reply, answer_activity, answer_command, command, command_of, other_forwarded,
    other_reply, Command,
};
use crate::error::RsrpcError;
use crate::json::{json_str, opt_str, opt_text};
use crate::message::{Message, MessageView};
use crate::origin::{game_allows, is_discord};
use crate::payload::{clear_cmd, parsed_cmd, stamped, ActivityCmd, CmdView};
use crate::publications::{
    clears_of, cmds_view, published, withdrawn, Publication, Publications, MAX_PUBLICATIONS,
};
use crate::query::{query, query_params};
use crate::router::{bump, bumped};
use crate::table::lookup;
use crate::text::same;
use crate::user::{ready_json, RpcUser, UserView};
use std::collections::HashMap;
use vstd::prelude::*;

verus! {

broadcast use vstd::std_specs::hash::group_hash_axioms;

/// Configuration of the game websocket.
pub struct WsTransportConfig {
    pub port_start: u16,
    pub port_end: u16,
    pub event_queue: usize,
    pub max_connections: usize,
    pub per_client_queue: usize,
    /// Whether activities are taken.
    pub set_activity: bool,
    /// Whether browser, deep-link and callback commands are taken.
    pub secondary_events: bool,
}

impl WsTransportConfig {
    /// What is wrong with the bounds: a queue or connection bound of zero.
    pub open spec fn fault(self) -> Option<Seq<char>> {
        if self.event_queue == 0 {
            Some("event_queue must be non-zero"@)
        } else if self.max_connections == 0 {
            Some("max_connections must be non-zero"@)
        } else if self.per_client_queue == 0 {
            Some("per_client_queue must be non-zero"@)
        } else {
            None
        }
    }

    /// Refuse bounds of zero.
    pub fn validate(&self) -> (r: Result<(), RsrpcError>)
        ensures
            match r {
                Ok(_) => self.fault() is None,
                Err(e) => e matches RsrpcError::InvalidConfig(what) && self.fault() == Some(what@),
            },
    {
        if self.event_queue == 0 {
            return Err(RsrpcError::InvalidConfig("event_queue must be non-zero"));
        }
        if self.max_connections == 0 {
            return Err(RsrpcError::InvalidConfig("max_connections must be non-zero"));
        }
        if self.per_client_queue == 0 {
            return Err(RsrpcError::InvalidConfig("per_client_queue must be non-zero"));
        }
        Ok(())
    }

    /// Walk over the ports of the range.
    pub fn ports(&self) -> (r: PortScan)
        ensures
            forall|port: u16| #[trigger]
                r.offers(port) <==> self.port_start <= port <= self.port_end,
    {
        PortScan { next: self.port_start as u32, end: self.port_end, skip: None }
    }

    /// The failure of a walk that bound no port, with the cause of the last
    /// failed bind.
    pub fn bind_failure(&self, last: Option<String>) -> (r: RsrpcError)
        ensures
            r == match last {
                Some(source) => RsrpcError::WsBind {
                    start: self.port_start,
                    end: self.port_end,
                    source,
                },
                None => RsrpcError::WsExhausted { start: self.port_start, end: self.port_end },
            },
    {
        match last {
            Some(source) => RsrpcError::WsBind {
                start: self.port_start,
                end: self.port_end,
                source,
            },
            None => RsrpcError::WsExhausted { start: self.port_start, end: self.port_end },
        }
    }
}

/// Whether a game client with this `Origin` may connect: Discord's pages, and
/// clients without one.
pub fn origin_allowed(origin: Option<&str>) -> (r: bool)
    ensures
        r == game_allows(opt_str(origin)),
{
    match origin {
        None => true,
        Some(value) => is_discord(value),
    }
}

/// Whether a connection URI asks for the protocol that is spoken: version 1,
/// and JSON where it names an encoding.
pub open spec fn speaks(uri: Seq<char>) -> bool {
    lookup(query(uri), "v"@) == Some("1"@) && (lookup(query(uri), "encoding"@) is None || lookup(
        query(uri),
        "encoding"@,
    ) == Some("json"@))
}

/// Whether a client may connect.
pub open spec fn admits(uri: Seq<char>, origin: Option<Seq<char>>) -> bool {
    speaks(uri) && game_allows(origin)
}

/// What an admitted client is sent and remembered by.
pub struct Greeting {
    pub ready: String,
    /// Application of commands that name none.
    pub client_id: Option<String>,
}

/// A client connects: refused (and closed, before any reply) when it speaks
/// another protocol or comes from a foreign page.
pub fn on_connect(uri: &str, origin: Option<&str>, user: &RpcUser) -> (r: Option<Greeting>)
    ensures
        r is Some <==> admits(uri@, opt_str(origin)),
        r matches Some(greeting) ==> greeting.ready@ == ready_json(user@) && opt_text(
            greeting.client_id,
        ) == lookup(query(uri@), "client_id"@),
{
    let params = query_params(uri);
    let version = match params.get("v") {
        Some(v) => same(v.as_str(), "1"),
        None => false,
    };
    let encoding = match params.get("encoding") {
        Some(e) => same(e.as_str(), "json"),
        None => true,
    };
    if !version || !encoding || !origin_allowed(origin) {
        return None;
    }
    Some(
        Greeting {
            ready: user.ready_payload(),
            client_id: match params.get("client_id") {
                Some(id) => Some(id.clone()),
                None => None,
            },
        },
    )
}

/// A connected client.
pub struct ClientSlot {
    pub publications: Publications,
    pub client_id: Option<String>,
}

/// Model of a [`ClientSlot`].
#[verifier::ext_equal]
pub struct SlotModel {
    pub publications: Seq<Publication>,
    pub client_id: Option<Seq<char>>,
}

impl View for ClientSlot {
    type V = SlotModel;

    open spec fn view(&self) -> SlotModel {
        SlotModel { publications: self.publications@, client_id: opt_text(self.client_id) }
    }
}

/// What a message does.
pub struct Handled {
    /// Commands for the bridge, in order.
    pub forward: Vec<ActivityCmd>,
    /// Reply to the client.
    pub reply: Option<String>,
}

/// Model of what a message does: the client afterwards, the commands for the
/// bridge and the reply.
#[verifier::ext_equal]
pub struct HandledView {
    pub slot: SlotModel,
    pub forward: Seq<CmdView>,
    pub reply: Option<Seq<char>>,
}

/// Nothing happens.
pub open spec fn ignored(slot: SlotModel) -> HandledView {
    HandledView { slot, forward: Seq::empty(), reply: None }
}

/// Whether a command is switched off.
pub open spec fn switched_off(name: Seq<char>, set_activity: bool, secondary: bool) -> bool {
    match command_of(name) {
        Command::SetActivity => !set_activity,
        Command::Browser { invalid } => !secondary,
        Command::DeepLink => !secondary,
        Command::ConnectionsCallback => !secondary,
        _ => false,
    }
}

/// An activity command of a client: forwarded under its application, and
/// remembered until the connection ends. A publication that falls out of the
/// memory is cleared at once. Without arguments nothing happens but the
/// refusal.
pub open spec fn activity_step(slot: SlotModel, sent: CmdView) -> HandledView {
    let cmd = stamped(sent, slot.client_id);
    let reply = Some(activity_reply(cmd));
    if cmd.args is None {
        HandledView { slot, forward: Seq::empty(), reply }
    } else if cmd.activity() is None {
        HandledView {
            slot: SlotModel { publications: withdrawn(slot.publications, cmd.pid()), ..slot },
            forward: seq![cmd],
            reply,
        }
    } else {
        let all = published(slot.publications, cmd.pid(), cmd.application_id);
        if all.len() > MAX_PUBLICATIONS {
            HandledView {
                slot: SlotModel { publications: all.skip(1), ..slot },
                forward: seq![cmd, clear_cmd(all[0].1, all[0].0)],
                reply,
            }
        } else {
            HandledView {
                slot: SlotModel { publications: all, ..slot },
                forward: seq![cmd],
                reply,
            }
        }
    }
}

/// A command of a client.
pub open spec fn command_step(
    slot: SlotModel,
    cmd: CmdView,
    user: UserView,
    set_activity: bool,
    secondary: bool,
) -> HandledView {
    if switched_off(cmd.cmd, set_activity, secondary) {
        ignored(slot)
    } else if command_of(cmd.cmd) == Command::SetActivity {
        activity_step(slot, cmd)
    } else {
        let code = json_str(cmd.raw, "/args/code"@);
        HandledView {
            slot,
            forward: if other_forwarded(cmd, true, code) {
                seq![cmd]
            } else {
                Seq::empty()
            },
            reply: Some(other_reply(cmd, user, true, json_str(cmd.raw, "/args/id"@), code)),
        }
    }
}

/// A message of a client: a text that spells a command; anything else is
/// ignored.
pub open spec fn message_step(
    slot: SlotModel,
    message: MessageView,
    user: UserView,
    set_activity: bool,
    secondary: bool,
) -> HandledView {
    match message {
        MessageView::Text(text) => match parsed_cmd(text) {
            Some(cmd) => command_step(slot, cmd, user, set_activity, secondary),
            None => ignored(slot),
        },
        MessageView::Binary(_) => ignored(slot),
    }
}

/// Whether `r` and the client `slot` are what `model` says.
pub open spec fn handled_is(r: Handled, slot: SlotModel, model: HandledView) -> bool {
    &&& slot == model.slot
    &&& cmds_view(r.forward@) == model.forward
    &&& opt_text(r.reply) == model.reply
}

impl ClientSlot {
    /// Carry out an activity command.
    pub fn on_activity(&mut self, sent: ActivityCmd) -> (r: Handled)
        ensures
            handled_is(r, final(self)@, activity_step(old(self)@, sent@)),
    {
        let fallback = match &self.client_id {
            Some(id) => Some(id.as_str()),
            None => None,
        };
        let cmd = sent.stamp(fallback);
        let answered = answer_activity(&cmd);
        let mut forward: Vec<ActivityCmd> = Vec::new();
        if !answered.forward {
            assert(cmds_view(forward@) =~= Seq::<CmdView>::empty());
            return Handled { forward, reply: Some(answered.reply) };
        }
        let pid = cmd.pid();
        let publishes = cmd.fingerprint().is_some();
        let ghost model = cmd@;
        assert(model.fingerprint() is Some == model.activity() is Some);
        let evicted = if publishes {
            let app = match &cmd.application_id {
                Some(app) => Some(app.as_str()),
                None => None,
            };
            self.publications.record(pid, app)
        } else {
            self.publications.withdraw(pid);
            None
        };
        forward.push(cmd);
        assert(cmds_view(forward@) =~= seq![model]);
        if let Some(clear) = evicted {
            let ghost shown = clear@;
            forward.push(clear);
            assert(cmds_view(forward@) =~= seq![model, shown]);
        }
        Handled { forward, reply: Some(answered.reply) }
    }

    /// Carry out a command.
    pub fn on_command(
        &mut self,
        cmd: ActivityCmd,
        user: &RpcUser,
        set_activity: bool,
        secondary: bool,
    ) -> (r: Handled)
        ensures
            handled_is(
                r,
                final(self)@,
                command_step(old(self)@, cmd@, user@, set_activity, secondary),
            ),
    {
        let kind = command(cmd.cmd.as_str());
        let off = match kind {
            Command::SetActivity => !set_activity,
            Command::Browser { .. } => !secondary,
            Command::DeepLink => !secondary,
            Command::ConnectionsCallback => !secondary,
            _ => false,
        };
        let mut forward: Vec<ActivityCmd> = Vec::new();
        assert(cmds_view(forward@) =~= Seq::<CmdView>::empty());
        if off {
            return Handled { forward, reply: None };
        }
        if kind == Command::SetActivity {
            return self.on_activity(cmd);
        }
        let answered = answer_command(&cmd, user, true);
        if answered.forward {
            let ghost shown = cmd@;
            forward.push(cmd);
            assert(cmds_view(forward@) =~= seq![shown]);
        }
        Handled { forward, reply: Some(answered.reply) }
    }

    /// Carry out a message.
    pub fn on_message(
        &mut self,
        message: &Message,
        user: &RpcUser,
        set_activity: bool,
        secondary: bool,
    ) -> (r: Handled)
        ensures
            handled_is(
                r,
                final(self)@,
                message_step(old(self)@, message@, user@, set_activity, secondary),
            ),
    {
        if let Message::Text(text) = message {
            if let Some(cmd) = ActivityCmd::from_json(text.as_str()) {
                return self.on_command(cmd, user, set_activity, secondary);
            }
        }
        let forward: Vec<ActivityCmd> = Vec::new();
        assert(cmds_view(forward@) =~= Seq::<CmdView>::empty());
        Handled { forward, reply: None }
    }
}

/// The connected clients.
pub struct WsClients {
    pub clients: HashMap<u64, ClientSlot>,
    /// Commands that a full or gone bridge cost.
    pub dropped: u64,
}

impl WsClients {
    /// Nobody is connected.
    pub fn new() -> (r: Self)
        ensures
            r.clients@ == Map::<u64, ClientSlot>::empty(),
            r.dropped == 0,
    {
        WsClients { clients: HashMap::new(), dropped: 0 }
    }

    /// How many clients are connected.
    pub fn client_count(&self) -> (r: usize)
        ensures
            r == self.clients@.len(),
    {
        self.clients.len()
    }

    /// Commands shed so far.
    pub fn dropped_total(&self) -> (r: u64)
        ensures
            r == self.dropped,
    {
        self.dropped
    }

    /// A command could not be handed to the bridge.
    pub fn note_dropped(&mut self)
        ensures
            final(self).dropped == bumped(old(self).dropped),
            final(self).clients == old(self).clients,
    {
        self.dropped = bump(self.dropped);
    }

    /// A client was greeted.
    pub fn register(&mut self, id: u64, client_id: Option<String>)
        ensures
            final(self).clients@.dom() == old(self).clients@.dom().insert(id),
            final(self).clients@[id]@ == (SlotModel {
                publications: Seq::empty(),
                client_id: opt_text(client_id),
            }),
            forall|other: u64|
                other != id && old(self).clients@.dom().contains(other) ==> #[trigger] final(self).clients@[other] == old(self).clients@[other],
            final(self).dropped == old(self).dropped,
    {
        let slot = ClientSlot { publications: Publications::new(), client_id };
        let _ = self.clients.insert(id, slot);
    }

    /// A client is gone, or a reply could not be delivered: the clears of
    /// everything that it published.
    pub fn remove_and_clear(&mut self, id: u64) -> (r: Vec<ActivityCmd>)
        ensures
            final(self).clients@ == old(self).clients@.remove(id),
            final(self).dropped == old(self).dropped,
            cmds_view(r@) == if old(self).clients@.dom().contains(id) {
                clears_of(old(self).clients@[id].publications@)
            } else {
                Seq::empty()
            },
    {
        match self.clients.remove(&id) {
            Some(slot) => {
                let mut slot = slot;
                slot.publications.take_clears()
            },
            None => {
                let none: Vec<ActivityCmd> = Vec::new();
                assert(cmds_view(none@) =~= Seq::<CmdView>::empty());
                none
            },
        }
    }

    /// A client sends a message. Strangers (refused or pruned clients) drive
    /// nothing.
    pub fn on_message(
        &mut self,
        id: u64,
        message: &Message,
        user: &RpcUser,
        set_activity: bool,
        secondary: bool,
    ) -> (r: Handled)
        ensures
            final(self).dropped == old(self).dropped,
            final(self).clients@.dom() == old(self).clients@.dom(),
            forall|other: u64|
                other != id && old(self).clients@.dom().contains(other) ==> #[trigger] final(self).clients@[other] == old(self).clients@[other],
            old(self).clients@.dom().contains(id) ==> handled_is(
                r,
                final(self).clients@[id]@,
                message_step(old(self).clients@[id]@, message@, user@, set_activity, secondary),
            ),
            !old(self).clients@.dom().contains(id) ==> r.forward@.len() == 0 && r.reply is None,
    {
        match self.clients.remove(&id) {
            Some(slot) => {
                let mut slot = slot;
                let handled = slot.on_message(message, user, set_activity, secondary);
                let _ = self.clients.insert(id, slot);
                assert(self.clients@.dom() =~= old(self).clients@.dom());
                handled
            },
            None => {
                assert(self.clients@ =~= old(self).clients@);
                Handled { forward: Vec::new(), reply: None }
            },
        }
    }
}

/// A connection that ends leaves no card: whatever an accepted activity
/// command publishes is among the clears at the end of the connection, or
/// was cleared before.
pub proof fn law_publication_is_cleared_at_the_end(slot: SlotModel, sent: CmdView)
    requires
        sent.args is Some,
        sent.activity() is Some,
    ensures
        ({
            let cmd = stamped(sent, slot.client_id);
            let after = activity_step(slot, sent);
            &&& after.forward[0] == cmd
            &&& clears_of(after.slot.publications).contains(
                clear_cmd(cmd.application_id, cmd.pid()),
            )
        }),
{
    let cmd = stamped(sent, slot.client_id);
    let all = published(slot.publications, cmd.pid(), cmd.application_id);
    let after = activity_step(slot, sent);
    let kept = after.slot.publications;
    assert(all.last() == (cmd.pid(), cmd.application_id));
    assert(kept.last() == (cmd.pid(), cmd.application_id));
    let clears = clears_of(kept);
    assert(clears[clears.len() - 1] == clear_cmd(cmd.application_id, cmd.pid()));
}

/// A malformed activity command is refused and changes nothing.
pub proof fn law_missing_args_change_nothing(slot: SlotModel, sent: CmdView)
    requires
        sent.args is None,
    ensures
        activity_step(slot, sent).slot == slot,
        activity_step(slot, sent).forward.len() == 0,
{
}

} // verus!
