//! The activity bridge: configuration, ports, consumers and presence.
//!
//! Every event of the outside world is one method of [`Shared`]; what it
//! returns, and what it queues in the router's outbox, is to be sent.
use crate::census::{census_text, format_resource_stats, StatsSnapshot};
use crate::consumer::{
    frame, message_frame, opt_message, payload_frame, raw_frame, requested, send_cached, BridgeProtocol,
    Consumers, ConsumersView,
};
use crate::error::RsrpcError;
use crate::handoff::ProcInput;
use crate::json::{opt_str, opt_text};
use crate::message::{Message, MessageView};
use crate::origin::{bridge_allows, canonical_origin, normalize_origin, origin_allowed};
use crate::payload::{ActivityCmd, CachedView, GameView};
use crate::replay::{cache_entry_pid, CacheView};
use crate::router::{
    card_owners, next_occupancy, occupied, table_transition, transition, Router, RouterView,
};
use crate::state::{cache_facts, state_activities, StateActivity, StateServer, StateServers};
use crate::table::texts;
use crate::text::same;
use crate::time::Duration;
use crate::user::{
    ack_json, control_nonce, control_of, control_patch, controlled, current_user_update,
    handle_bridge_control, ready_json, user_update_json, RpcUser, UserView,
};
use vstd::prelude::*;

verus! {

/// Configuration of the bridge.
pub struct BridgeConfig {
    pub json_port_start: u16,
    pub json_port_end: u16,
    pub msgpack_port_start: u16,
    pub msgpack_port_end: u16,
    pub persist_interval: Duration,
    pub refresh_interval: Duration,
    /// How long identical republishes are dropped, in milliseconds.
    pub flood_window_ms: u64,
    pub app_version: String,
    pub state_dir: Option<String>,
    pub ws_port: Option<u16>,
    pub ipc_path: Option<String>,
    /// Extra origins in browser form.
    pub allowed_origins: Vec<String>,
}

impl BridgeConfig {
    /// Configuration with the default cadences: snapshots every five
    /// seconds, refreshes every thirty.
    pub fn new(
        json_port_start: u16,
        json_port_end: u16,
        msgpack_port_start: u16,
        msgpack_port_end: u16,
    ) -> (r: Self)
        ensures
            r.json_port_start == json_port_start,
            r.json_port_end == json_port_end,
            r.msgpack_port_start == msgpack_port_start,
            r.msgpack_port_end == msgpack_port_end,
            r.persist_interval.nanos == 5_000_000_000,
            r.refresh_interval.nanos == 30_000_000_000,
            r.flood_window_ms == 1000,
            r.app_version@ == Seq::<char>::empty(),
            r.state_dir is None,
            r.ws_port is None,
            r.ipc_path is None,
            r.allowed_origins@ == Seq::<String>::empty(),
    {
        BridgeConfig {
            json_port_start,
            json_port_end,
            msgpack_port_start,
            msgpack_port_end,
            persist_interval: Duration::from_secs(5),
            refresh_interval: Duration::from_secs(30),
            flood_window_ms: 1000,
            app_version: String::new(),
            state_dir: None,
            ws_port: None,
            ipc_path: None,
            allowed_origins: Vec::new(),
        }
    }

    /// Allow one more browser origin, brought to browser form.
    pub fn allow_origin(&mut self, origin: &str)
        ensures
            texts(final(self).allowed_origins@) == texts(old(self).allowed_origins@).push(
                canonical_origin(origin@),
            ),
            *final(self) == (BridgeConfig {
                allowed_origins: final(self).allowed_origins,
                ..*old(self)
            }),
    {
        let ghost before = texts(self.allowed_origins@);
        self.allowed_origins.push(normalize_origin(origin));
        assert(texts(self.allowed_origins@) =~= before.push(canonical_origin(origin@)));
    }

    /// Refuse cadences that never elapse.
    pub fn validate(&self) -> (r: Result<(), RsrpcError>)
        ensures
            match r {
                Ok(_) => self.persist_interval.nanos != 0 && self.refresh_interval.nanos != 0,
                Err(e) => e matches RsrpcError::InvalidConfig(what) && (if self.persist_interval.nanos
                    == 0 {
                    what@ == "persist_interval must be non-zero"@
                } else {
                    self.refresh_interval.nanos == 0 && what@
                        == "refresh_interval must be non-zero"@
                }),
            },
    {
        if self.persist_interval.is_zero() {
            return Err(RsrpcError::InvalidConfig("persist_interval must be non-zero"));
        }
        if self.refresh_interval.is_zero() {
            return Err(RsrpcError::InvalidConfig("refresh_interval must be non-zero"));
        }
        Ok(())
    }
}

/// A walk over the ports of a range, lowest first, that leaves one out.
pub struct PortScan {
    pub next: u32,
    pub end: u16,
    pub skip: Option<u16>,
}

impl PortScan {
    /// The ports still to be offered.
    pub open spec fn offers(self, port: u16) -> bool {
        self.next <= port <= self.end && Some(port) != self.skip
    }

    /// Walk over `start..=end`; a range that ends before it begins holds its
    /// first port only.
    pub fn new(start: u16, end: u16, skip: Option<u16>) -> (r: Self)
        ensures
            r.next == start,
            r.skip == skip,
            r.end == if end < start {
                start
            } else {
                end
            },
    {
        PortScan {
            next: start as u32,
            end: if end < start {
                start
            } else {
                end
            },
            skip,
        }
    }

    /// The lowest port that was not offered yet.
    pub fn next_port(&mut self) -> (r: Option<u16>)
        ensures
            final(self).end == old(self).end,
            final(self).skip == old(self).skip,
            match r {
                Some(port) => old(self).offers(port) && final(self).next == port + 1 && forall|
                    lower: u16,
                |
                    lower < port ==> !#[trigger] old(self).offers(lower),
                None => forall|port: u16| !#[trigger] old(self).offers(port),
            },
    {
        let mut port: u32 = self.next;
        while port <= self.end as u32
            invariant
                self.next <= port,
                *self == *old(self),
                forall|lower: u16| lower < port ==> !#[trigger] old(self).offers(lower),
            decreases self.end + 1 - port,
        {
            let candidate: u16 = port as u16;
            let skipped = match self.skip {
                Some(skip) => skip == candidate,
                None => false,
            };
            if !skipped {
                self.next = port + 1;
                return Some(candidate);
            }
            port = port + 1;
        }
        None
    }
}

/// A port is offered once: what follows in the walk is exactly the higher
/// ports.
pub proof fn law_port_scan_offers_once(scan: PortScan, port: u16, later: PortScan, other: u16)
    requires
        scan.offers(port),
        later.next == port + 1,
        later.end == scan.end,
        later.skip == scan.skip,
    ensures
        later.offers(other) <==> scan.offers(other) && other > port,
{
}

/// Everything that the bridge knows.
pub struct Shared {
    pub consumers: Consumers,
    pub router: Router,
    pub user: RpcUser,
    /// Identity at startup.
    pub startup: RpcUser,
    pub app_version: String,
    pub state_path: Option<String>,
    pub json_port: u16,
    pub msgpack_port: u16,
    pub ws_port: Option<u16>,
    pub ipc_path: Option<String>,
    pub allowed_origins: Vec<String>,
    /// Whether the scanner's table holds games.
    pub had_games: bool,
}

/// Frames by their views.
pub open spec fn frames(v: Seq<Message>) -> Seq<MessageView> {
    v.map_values(|m: Message| m@)
}

/// What a new consumer is sent: the greeting, and every cached payload.
pub open spec fn greeting(
    user: UserView,
    cache: CacheView,
    protocol: BridgeProtocol,
) -> Seq<MessageView> {
    (match frame(ready_json(user), protocol) {
        Some(ready) => seq![ready],
        None => Seq::empty(),
    }) + cache.map_values(
        |card: (Seq<char>, (CachedView, u64))| payload_frame(card.1.0, protocol),
    )
}

/// Answers to a consumer's message.
pub struct Replies {
    /// For the sender.
    pub to_sender: Option<Message>,
    /// JSON text for every consumer.
    pub to_all: Option<String>,
}

impl Shared {
    /// Whether nobody used this bridge yet.
    pub open spec fn fresh(
        self,
        config: BridgeConfig,
        user: RpcUser,
        startup: RpcUser,
        json_port: u16,
        msgpack_port: u16,
        state_path: Option<String>,
    ) -> bool {
        &&& self.consumers@ == ConsumersView {
            json: Set::empty(),
            msgpack: Set::empty(),
            protocols: Map::empty(),
            dropped: 0,
        }
        &&& self.router@ == RouterView {
            cache: Seq::empty(),
            activity_seq: 0,
            last_process: Seq::empty(),
            handoff: crate::handoff::HandoffView::fresh(),
            recent: Seq::empty(),
            window_ms: config.flood_window_ms,
            dirty: true,
            dropped: 0,
            outbox: Seq::empty(),
        }
        &&& self.user == user
        &&& self.startup == startup
        &&& self.app_version@ == config.app_version@
        &&& self.state_path == state_path
        &&& self.json_port == json_port
        &&& self.msgpack_port == msgpack_port
        &&& self.ws_port == config.ws_port
        &&& opt_text(self.ipc_path) == opt_text(config.ipc_path)
        &&& texts(self.allowed_origins@) == texts(config.allowed_origins@)
        &&& !self.had_games
    }

    /// A bridge that nobody uses yet.
    pub fn new(
        config: &BridgeConfig,
        user: RpcUser,
        startup: RpcUser,
        json_port: u16,
        msgpack_port: u16,
        state_path: Option<String>,
    ) -> (r: Self)
        ensures
            r.fresh(*config, user, startup, json_port, msgpack_port, state_path),
    {
        let mut allowed_origins: Vec<String> = Vec::new();
        let mut i: usize = 0;
        while i < config.allowed_origins.len()
            invariant
                i <= config.allowed_origins@.len(),
                texts(allowed_origins@) == texts(config.allowed_origins@.take(i as int)),
            decreases config.allowed_origins@.len() - i,
        {
            let ghost before = texts(allowed_origins@);
            let origin = config.allowed_origins[i].clone();
            let ghost shown = origin@;
            allowed_origins.push(origin);
            assert(texts(allowed_origins@) == before.push(shown));
            assert(config.allowed_origins@.take(i + 1) == config.allowed_origins@.take(
                i as int,
            ).push(config.allowed_origins@[i as int]));
            i = i + 1;
        }
        assert(config.allowed_origins@.take(config.allowed_origins@.len() as int)
            == config.allowed_origins@);
        Shared {
            consumers: Consumers::new(),
            router: Router::new(config.flood_window_ms),
            user,
            startup,
            app_version: config.app_version.clone(),
            state_path,
            json_port,
            msgpack_port,
            ws_port: config.ws_port,
            ipc_path: match &config.ipc_path {
                Some(path) => Some(path.clone()),
                None => None,
            },
            allowed_origins,
            had_games: false,
        }
    }

    /// Whether `id` is a consumer.
    pub fn is_registered(&self, id: u64) -> (r: bool)
        ensures
            r == self.consumers@.protocols.dom().contains(id),
    {
        self.consumers.is_registered(id)
    }

    /// A consumer connects on the port with the encoding `default`. Refused
    /// (nothing, and nothing changes) when its origin may not connect; else
    /// the frames that it is sent, in order, before anything else.
    pub fn on_connect(
        &mut self,
        id: u64,
        origin: Option<&str>,
        uri: &str,
        default: BridgeProtocol,
    ) -> (r: Option<Vec<Message>>)
        ensures
            *final(self) == (Shared { consumers: final(self).consumers, ..*old(self) }),
            r is Some <==> bridge_allows(opt_str(origin), texts(old(self).allowed_origins@)),
            match r {
                Some(sent) => frames(sent@) == greeting(
                    old(self).user@,
                    old(self).router@.cache,
                    requested(uri@, default),
                ) && final(self).consumers@ == old(self).consumers@.joined(
                    id,
                    requested(uri@, default),
                ),
                None => *final(self) == *old(self),
            },
    {
        if !origin_allowed(origin, self.allowed_origins.as_slice()) {
            return None;
        }
        let protocol = BridgeProtocol::from_query(uri, default);
        let mut out: Vec<Message> = Vec::new();
        assert(frames(out@) == Seq::<MessageView>::empty());
        let ready = self.user.ready_payload();
        if let Some(hello) = message_frame(ready.as_str(), protocol) {
            let ghost shown = hello@;
            out.push(hello);
            assert(frames(out@) == seq![shown]);
        }
        let ghost head = frames(out@);
        let ghost cards = self.router@.cache.map_values(
            |card: (Seq<char>, (CachedView, u64))| payload_frame(card.1.0, protocol),
        );
        assert(head + cards.take(0) == head);
        let mut i: usize = 0;
        while i < self.router.cache.entries.len()
            invariant
                i <= self.router.cache.entries@.len(),
                *self == *old(self),
                cards == self.router@.cache.map_values(
                    |card: (Seq<char>, (CachedView, u64))| payload_frame(card.1.0, protocol),
                ),
                frames(out@) == head + cards.take(i as int),
            decreases self.router.cache.entries@.len() - i,
        {
            let next = send_cached(&self.router.cache.entries[i].1.0, protocol);
            let ghost before = frames(out@);
            assert(next@ == cards[i as int]);
            out.push(next);
            assert(frames(out@) == before.push(cards[i as int]));
            assert(head + cards.take(i + 1) == (head + cards.take(i as int)).push(
                cards[i as int],
            ));
            i = i + 1;
        }
        assert(cards.take(cards.len() as int) == cards);
        self.consumers.join(id, protocol);
        Some(out)
    }

    /// A consumer is gone.
    pub fn on_disconnect(&mut self, id: u64)
        ensures
            final(self).consumers@ == old(self).consumers@.left(id),
            *final(self) == (Shared { consumers: final(self).consumers, ..*old(self) }),
    {
        self.consumers.leave(id);
    }

    /// A consumer sends a message. Control messages are answered and a
    /// changed identity is told to everybody; anything else is echoed
    /// untouched. Strangers drive nothing.
    pub fn on_message(&mut self, id: u64, message: &Message, default: BridgeProtocol) -> (r: Replies)
        ensures
            *final(self) == (Shared { user: final(self).user, ..*old(self) }),
            !old(self).consumers@.protocols.dom().contains(id) ==> r.to_sender is None
                && r.to_all is None && final(self).user == old(self).user,
            old(self).consumers@.protocols.dom().contains(id) ==> match message@ {
                MessageView::Text(text) => match control_of(text) {
                    Some(kind) => {
                        &&& final(self).user@ == controlled(
                            old(self).user@,
                            old(self).startup@,
                            kind,
                            control_patch(text),
                        )
                        &&& opt_message(r.to_sender) == frame(
                            ack_json(kind, control_nonce(text), final(self).user@),
                            old(self).consumers@.protocols[id],
                        )
                        &&& opt_text(r.to_all) == if final(self).user@ != old(self).user@ {
                            Some(user_update_json(final(self).user@))
                        } else {
                            None
                        }
                    },
                    None => final(self).user == old(self).user && r.to_all is None && opt_message(
                        r.to_sender,
                    ) == Some(message@),
                },
                MessageView::Binary(_) => final(self).user == old(self).user && r.to_all is None
                    && opt_message(r.to_sender) == Some(message@),
            },
    {
        if !self.consumers.is_registered(id) {
            return Replies { to_sender: None, to_all: None };
        }
        match message {
            Message::Text(text) => match handle_bridge_control(
                &mut self.user,
                &self.startup,
                text.as_str(),
            ) {
                Some((ack, changed)) => {
                    let protocol = self.consumers.protocol_for(id, default);
                    Replies {
                        to_sender: message_frame(ack.as_str(), protocol),
                        to_all: match changed {
                            Some(user) => Some(current_user_update(&user)),
                            None => None,
                        },
                    }
                },
                None => Replies { to_sender: Some(message.clone()), to_all: None },
            },
            Message::Binary(_) => Replies { to_sender: Some(message.clone()), to_all: None },
        }
    }

    /// A game sends a command at `now_ms`, while the processes of `live` run.
    /// Activities are routed; any other event is forwarded as the returned
    /// frames, one per encoding that somebody listens in.
    pub fn on_command(&mut self, cmd: &ActivityCmd, now_ms: u64, live: &Vec<u64>) -> (r: (
        Option<Message>,
        Option<Message>,
    ))
        ensures
            *final(self) == (Shared { router: final(self).router, ..*old(self) }),
            cmd@.cmd == "SET_ACTIVITY"@ ==> r.0 is None && r.1 is None && final(self).router@
                == old(self).router@.set_activity(cmd@, now_ms, live@),
            cmd@.cmd != "SET_ACTIVITY"@ ==> {
                &&& final(self).router == old(self).router
                &&& opt_message(r.0) == if old(self).consumers@.json.len() == 0 {
                    None
                } else {
                    raw_frame(cmd@.raw, BridgeProtocol::Json)
                }
                &&& opt_message(r.1) == if old(self).consumers@.msgpack.len() == 0 {
                    None
                } else {
                    raw_frame(cmd@.raw, BridgeProtocol::MsgPack)
                }
            },
    {
        if !same(cmd.cmd.as_str(), "SET_ACTIVITY") {
            return self.consumers.broadcast_raw(cmd);
        }
        self.router.handle_set_activity(cmd, now_ms, live);
        (None, None)
    }

    /// The scanner reports, while the processes of `live` run. The session
    /// boundary that the report crosses, if any.
    pub fn on_scan(&mut self, input: &ProcInput, live: &Vec<u64>) -> (r: Option<&'static str>)
        ensures
            opt_str(r) == transition(old(self).had_games, *input),
            final(self).had_games == occupied(old(self).had_games, *input),
            final(self).router@ == old(self).router@.scan(*input, live@),
            *final(self) == (Shared {
                router: final(self).router,
                had_games: final(self).had_games,
                ..*old(self)
            }),
    {
        let reason = table_transition(self.had_games, input);
        self.had_games = next_occupancy(self.had_games, input);
        self.router.handle_scan(input, live);
        reason
    }

    /// Processes whose liveness decides what [`Shared::on_command`] and
    /// [`Shared::on_scan`] do next: the owners of cached cards and the
    /// remembered games.
    pub fn watched_pids(&self) -> (r: Vec<u64>)
        ensures
            r@ == self.router@.watched(),
    {
        let mut out: Vec<u64> = Vec::new();
        let ghost cache = self.router@.cache;
        let ghost scans = self.router@.handoff.scans.map_values(
            |scan: (Seq<char>, GameView)| scan.1.pid,
        );
        let mut i: usize = 0;
        assert(cache.take(0) == Seq::<(Seq<char>, (CachedView, u64))>::empty());
        while i < self.router.cache.entries.len()
            invariant
                i <= self.router.cache.entries@.len(),
                cache == self.router@.cache,
                out@ == card_owners(cache.take(i as int)),
            decreases self.router.cache.entries@.len() - i,
        {
            assert(cache.take(i + 1).drop_last() == cache.take(i as int));
            assert(cache.take(i + 1).last() == cache[i as int]);
            let id = &self.router.cache.entries[i].0;
            let payload = &self.router.cache.entries[i].1.0;
            if let Some(pid) = cache_entry_pid(id.as_str(), payload) {
                out.push(pid);
            }
            i = i + 1;
        }
        assert(cache.take(cache.len() as int) == cache);
        let ghost owners = out@;
        let mut j: usize = 0;
        assert(owners + scans.take(0) == owners);
        while j < self.router.handoff.scans.entries.len()
            invariant
                j <= self.router.handoff.scans.entries@.len(),
                scans == self.router@.handoff.scans.map_values(
                    |scan: (Seq<char>, GameView)| scan.1.pid,
                ),
                out@ == owners + scans.take(j as int),
            decreases self.router.handoff.scans.entries@.len() - j,
        {
            out.push(self.router.handoff.scans.entries[j].1.pid);
            assert(owners + scans.take(j + 1) == (owners + scans.take(j as int)).push(
                scans[j as int],
            ));
            j = j + 1;
        }
        assert(scans.take(scans.len() as int) == scans);
        out
    }

    /// Where the bridge and its neighbours listen.
    pub fn servers(&self) -> (r: StateServers)
        ensures
            r.bridge matches Some(s) && s.host@ == "127.0.0.1"@ && s.port == self.json_port,
            r.msgpack matches Some(s) && s.host@ == "127.0.0.1"@ && s.port == self.msgpack_port,
            match self.ws_port {
                Some(port) => r.websocket matches Some(s) && s.host@ == "127.0.0.1"@ && s.port
                    == port,
                None => r.websocket is None,
            },
            opt_text(r.ipc) == opt_text(self.ipc_path),
    {
        StateServers {
            bridge: Some(StateServer { host: "127.0.0.1".to_owned(), port: self.json_port }),
            msgpack: Some(StateServer { host: "127.0.0.1".to_owned(), port: self.msgpack_port }),
            websocket: match self.ws_port {
                Some(port) => Some(StateServer { host: "127.0.0.1".to_owned(), port }),
                None => None,
            },
            ipc: match &self.ipc_path {
                Some(path) => Some(path.clone()),
                None => None,
            },
        }
    }

    /// What is shown, for a snapshot.
    pub fn activities(&self) -> (r: Vec<StateActivity>)
        ensures
            r@.map_values(|a: StateActivity| a@) == cache_facts(self.router@.cache),
    {
        state_activities(&self.router.cache)
    }

    /// The census: consumers per encoding, with what the owners of the other
    /// numbers report.
    pub fn census_snapshot(
        &self,
        rss_bytes: Option<u64>,
        game_clients: usize,
        watch_depth: usize,
        proc_depth: usize,
        ws_depth: usize,
    ) -> (r: StatsSnapshot)
        ensures
            r.bridge_json == self.consumers@.json.len(),
            r.bridge_msgpack == self.consumers@.msgpack.len(),
            r.rss_bytes == rss_bytes,
            r.ws == game_clients,
            r.watch_depth == watch_depth,
            r.proc_depth == proc_depth,
            r.ws_depth == ws_depth,
    {
        StatsSnapshot {
            rss_bytes,
            bridge_json: self.consumers.count(BridgeProtocol::Json),
            bridge_msgpack: self.consumers.count(BridgeProtocol::MsgPack),
            ws: game_clients,
            watch_depth,
            proc_depth,
            ws_depth,
        }
    }
}

/// A bound bridge.
pub struct Bridge {
    pub shared: Shared,
}

impl Bridge {
    /// The bridge of a valid configuration that was bound to these ports.
    pub fn bind(
        config: &BridgeConfig,
        user: RpcUser,
        startup: RpcUser,
        json_port: u16,
        msgpack_port: u16,
        state_path: Option<String>,
    ) -> (r: Result<Self, RsrpcError>)
        ensures
            r is Ok <==> config.persist_interval.nanos != 0 && config.refresh_interval.nanos != 0,
            match r {
                Ok(bridge) => bridge.shared.fresh(
                    *config,
                    user,
                    startup,
                    json_port,
                    msgpack_port,
                    state_path,
                ),
                Err(e) => e matches RsrpcError::InvalidConfig(what) && what@ == (if
                config.persist_interval.nanos == 0 {
                    "persist_interval must be non-zero"@
                } else {
                    "refresh_interval must be non-zero"@
                }),
            },
    {
        match config.validate() {
            Ok(_) => {},
            Err(e) => {
                return Err(e);
            },
        }
        Ok(
            Bridge {
                shared: Shared::new(config, user, startup, json_port, msgpack_port, state_path),
            },
        )
    }

    /// Walk over the JSON ports of a configuration.
    pub fn json_ports(config: &BridgeConfig) -> (r: PortScan)
        ensures
            forall|port: u16| #[trigger]
                r.offers(port) <==> config.json_port_start <= port && (port
                    <= config.json_port_end || port == config.json_port_start),
    {
        PortScan::new(config.json_port_start, config.json_port_end, None)
    }

    /// Walk over the MessagePack ports of a configuration: never the port
    /// that the JSON server took.
    pub fn msgpack_ports(config: &BridgeConfig, json_port: u16) -> (r: PortScan)
        ensures
            forall|port: u16| #[trigger]
                r.offers(port) <==> port != json_port && config.msgpack_port_start <= port && (port
                    <= config.msgpack_port_end || port == config.msgpack_port_start),
    {
        PortScan::new(config.msgpack_port_start, config.msgpack_port_end, Some(json_port))
    }

    /// The failure of a walk that found no free port.
    pub fn exhausted(name: &'static str, start: u16, end: u16) -> (r: RsrpcError)
        ensures
            r == (RsrpcError::BridgeBind {
                name,
                start,
                end: if end < start {
                    start
                } else {
                    end
                },
            }),
    {
        RsrpcError::BridgeBind {
            name,
            start,
            end: if end < start {
                start
            } else {
                end
            },
        }
    }

    /// Bound JSON port.
    pub fn json_port(&self) -> (r: u16)
        ensures
            r == self.shared.json_port,
    {
        self.shared.json_port
    }

    /// Bound MessagePack port.
    pub fn msgpack_port(&self) -> (r: u16)
        ensures
            r == self.shared.msgpack_port,
    {
        self.shared.msgpack_port
    }

    /// Selected snapshot slot, where snapshots are on.
    pub fn state_path(&self) -> (r: Option<&str>)
        ensures
            opt_str(r) == opt_text(self.shared.state_path),
    {
        match &self.shared.state_path {
            Some(path) => Some(path.as_str()),
            None => None,
        }
    }

    /// Frames shed since the bridge was bound: payloads that could not be
    /// encoded and consumers that did not keep up. The count wraps.
    pub fn dropped_total(&self) -> (r: u64)
        ensures
            r == (self.shared.router@.dropped + self.shared.consumers@.dropped) % (u64::MAX + 1),
    {
        let total: u128 = self.shared.router.dropped_broadcasts as u128
            + self.shared.consumers.dropped as u128;
        (total % 0x1_0000_0000_0000_0000) as u64
    }

    /// The census line for `reason`.
    pub fn census(
        &self,
        reason: &str,
        rss_bytes: Option<u64>,
        game_clients: usize,
        watch_depth: usize,
        proc_depth: usize,
        ws_depth: usize,
    ) -> (r: String)
        ensures
            r@ == census_text(
                reason@,
                (StatsSnapshot {
                    rss_bytes,
                    bridge_json: self.shared.consumers@.json.len() as usize,
                    bridge_msgpack: self.shared.consumers@.msgpack.len() as usize,
                    ws: game_clients,
                    watch_depth,
                    proc_depth,
                    ws_depth,
                }),
            ),
    {
        let snapshot = self.shared.census_snapshot(
            rss_bytes,
            game_clients,
            watch_depth,
            proc_depth,
            ws_depth,
        );
        format_resource_stats(reason, &snapshot)
    }

    /// How long a drain may still wait after `elapsed`; nothing once its
    /// deadline of five seconds is over.
    pub fn drain_remaining(elapsed: Duration) -> (r: Option<Duration>)
        ensures
            match r {
                Some(left) => left.nanos > 0 && elapsed.nanos + left.nanos == 5_000_000_000,
                None => elapsed.nanos >= 5_000_000_000,
            },
    {
        if elapsed.nanos < 5_000_000_000 {
            Some(Duration { nanos: 5_000_000_000 - elapsed.nanos })
        } else {
            None
        }
    }
}

} // verus!
