//! Activity routing: game commands and scanner reports in, fan-out decisions
//! out.
//!
//! Decides what each input means (new publish, duplicate flood, genuine
//! clear, handoff between self-reported and generic presence) and queues the
//! payloads for every consumer in `outbox`.
use crate::flood::{noted, recents, repeats, RecentActivities, RecentView};
use crate::handoff::{owned_by, HandoffState, HandoffView, ProcInput};
use crate::json::{json_u64, opt_str};
use crate::payload::{
    activity_payload, cached_activity, clear_payload, empty_cached, fixed_cmd, generic_payload,
    generic_view, share, ActivityCmd, CachedActivity, CachedView, CmdView, GameView, ScannedGame,
};
use crate::replay::{cache_entry_pid, entry_pid, prune_cache, pruned, CacheView, ReplayCache};
use crate::slots::{ordered, slots_view, sort_slots};
use crate::table::{lookup, texts, with, without, Table};
use crate::text::{decimal, decimal_text, same};
use std::sync::Arc;
use vstd::prelude::*;

verus! {

/// Presence state of the bridge.
pub struct Router {
    /// Last payload per publisher.
    pub cache: ReplayCache,
    /// Sequence number of the last cached payload.
    pub activity_seq: u64,
    /// Generic cards that are shown: application id to pid.
    pub last_process: Table<u64>,
    pub handoff: HandoffState,
    pub recent: RecentActivities,
    /// Whether the state snapshot is out of date.
    pub dirty: bool,
    /// Payloads that were shed.
    pub dropped_broadcasts: u64,
    /// Payloads for every consumer, in order.
    pub outbox: Vec<Arc<CachedActivity>>,
}

/// Model of a [`Router`].
#[verifier::ext_equal]
pub struct RouterView {
    pub cache: CacheView,
    pub activity_seq: u64,
    pub last_process: Seq<(Seq<char>, u64)>,
    pub handoff: HandoffView,
    pub recent: Seq<RecentView>,
    pub window_ms: u64,
    pub dirty: bool,
    pub dropped: u64,
    pub outbox: Seq<CachedView>,
}

/// Payloads by their views.
pub open spec fn payloads(v: Seq<Arc<CachedActivity>>) -> Seq<CachedView> {
    v.map_values(|p: Arc<CachedActivity>| p@)
}

impl View for Router {
    type V = RouterView;

    open spec fn view(&self) -> RouterView {
        RouterView {
            cache: self.cache@,
            activity_seq: self.activity_seq,
            last_process: self.last_process@,
            handoff: self.handoff@,
            recent: recents(self.recent.entries@),
            window_ms: self.recent.window_ms,
            dirty: self.dirty,
            dropped: self.dropped_broadcasts,
            outbox: payloads(self.outbox@),
        }
    }
}

/// Session-boundary reason of a scanner report: the table went from empty to
/// non-empty or back. Repeats within a state stay quiet.
pub open spec fn transition(had_games: bool, input: ProcInput) -> Option<Seq<char>> {
    match input {
        ProcInput::Detected(_) => if had_games {
            None
        } else {
            Some("game-start"@)
        },
        ProcInput::Cleared => if had_games {
            Some("game-end"@)
        } else {
            None
        },
        ProcInput::Removed(_, _) => None,
    }
}

/// Session-boundary reason of a scanner report.
pub fn table_transition(had_games: bool, input: &ProcInput) -> (r: Option<&'static str>)
    ensures
        opt_str(r) == transition(had_games, *input),
{
    match input {
        ProcInput::Detected(_) => if had_games {
            None
        } else {
            Some("game-start")
        },
        ProcInput::Cleared => if had_games {
            Some("game-end")
        } else {
            None
        },
        ProcInput::Removed(_, _) => None,
    }
}

/// Whether games run after a scanner report. A removal leaves the answer as
/// it was: other games may remain.
pub open spec fn occupied(had_games: bool, input: ProcInput) -> bool {
    match input {
        ProcInput::Detected(_) => true,
        ProcInput::Cleared => false,
        ProcInput::Removed(_, _) => had_games,
    }
}

/// Whether games run after a scanner report.
pub fn next_occupancy(had_games: bool, input: &ProcInput) -> (r: bool)
    ensures
        r == occupied(had_games, *input),
{
    match input {
        ProcInput::Detected(_) => true,
        ProcInput::Cleared => false,
        ProcInput::Removed(_, _) => had_games,
    }
}

/// A clear from a real connection: no activity, and a process that is named.
pub open spec fn genuine_clear(cmd: CmdView) -> bool {
    cmd.args is Some && cmd.pid() != 0 && cmd.activity() is None
}

/// Whether a command is a clear from a real connection.
pub fn is_genuine_clear(cmd: &ActivityCmd) -> (r: bool)
    ensures
        r == genuine_clear(cmd@),
{
    match &cmd.args {
        Some(args) => cmd.pid() != 0 && args.activity.is_none(),
        None => false,
    }
}

/// One more shed payload; the counter wraps.
pub open spec fn bumped(n: u64) -> u64 {
    if n == u64::MAX {
        0
    } else {
        (n + 1) as u64
    }
}

/// One more shed payload; the counter wraps.
pub fn bump(n: u64) -> (r: u64)
    ensures
        r == bumped(n),
{
    if n == u64::MAX {
        0
    } else {
        n + 1
    }
}

/// Sequence number after `n`; it stops at its limit.
pub open spec fn next_seq(n: u64) -> u64 {
    if n == u64::MAX {
        n
    } else {
        (n + 1) as u64
    }
}

/// Whether a publish changes what its publisher shows.
pub open spec fn changes(
    cached: Option<(CachedView, u64)>,
    fingerprint: Option<Seq<char>>,
) -> bool {
    match cached {
        None => fingerprint is Some,
        Some((entry, _)) => match fingerprint {
            None => !entry.is_clear,
            Some(text) => entry.is_clear || entry.activity_json != text,
        },
    }
}

/// The scanned games of `apps` that run.
pub open spec fn resumable(
    scans: Seq<(Seq<char>, GameView)>,
    apps: Seq<Seq<char>>,
    live: Seq<u64>,
) -> Seq<GameView>
    decreases apps.len(),
{
    if apps.len() == 0 {
        Seq::empty()
    } else {
        let before = resumable(scans, apps.drop_last(), live);
        match lookup(scans, apps.last()) {
            Some(game) if live.contains(game.pid) => before.push(game),
            _ => before,
        }
    }
}

/// Cards of `cache` whose process is named and does not run.
pub open spec fn ghosts(cache: CacheView, live: Seq<u64>) -> Seq<(Seq<char>, u64)>
    decreases cache.len(),
{
    if cache.len() == 0 {
        Seq::empty()
    } else {
        let before = ghosts(cache.drop_last(), live);
        let card = cache.last();
        match entry_pid(card.0, json_u64(card.1.0.json, "/pid"@)) {
            Some(pid) if !live.contains(pid) => before.push((card.0, pid)),
            _ => before,
        }
    }
}

/// The processes that the cards of `cache` name, in order.
pub open spec fn card_owners(cache: CacheView) -> Seq<u64>
    decreases cache.len(),
{
    if cache.len() == 0 {
        Seq::empty()
    } else {
        let before = card_owners(cache.drop_last());
        let card = cache.last();
        match entry_pid(card.0, json_u64(card.1.0.json, "/pid"@)) {
            Some(pid) => before.push(pid),
            None => before,
        }
    }
}

impl RouterView {
    /// The processes whose liveness matters: the owners of cached cards and
    /// the remembered games.
    pub open spec fn watched(self) -> Seq<u64> {
        card_owners(self.cache) + self.handoff.scans.map_values(
            |scan: (Seq<char>, GameView)| scan.1.pid,
        )
    }

    /// State after `payload` was broadcast for `socket_id`: clears leave the
    /// replay cache, anything else enters it as its latest card.
    pub open spec fn broadcast(self, payload: CachedView, socket_id: Seq<char>) -> RouterView {
        let sent = RouterView { outbox: self.outbox.push(payload), dirty: true, ..self };
        if payload.is_clear {
            RouterView { cache: without(self.cache, socket_id), ..sent }
        } else {
            let seq = next_seq(self.activity_seq);
            RouterView {
                activity_seq: seq,
                cache: pruned(with(self.cache, socket_id, (payload, seq))),
                ..sent
            }
        }
    }

    /// State after the card of `socket_id` was cleared. A clear that cannot
    /// be encoded is shed and counted.
    pub open spec fn clear_card(self, socket_id: Seq<char>, pid: u64) -> RouterView {
        match clear_payload(pid, socket_id) {
            Some(payload) => self.broadcast(payload, socket_id),
            None => RouterView { dropped: bumped(self.dropped), ..self },
        }
    }

    /// State after the cards of `slots` were cleared in order.
    pub open spec fn clear_cards(self, slots: Seq<(Seq<char>, u64)>) -> RouterView
        decreases slots.len(),
    {
        if slots.len() == 0 {
            self
        } else {
            self.clear_cards(slots.drop_last()).clear_card(slots.last().0, slots.last().1)
        }
    }

    /// State after the generic card of `app` was withdrawn, if shown.
    pub open spec fn withdraw(self, app: Seq<char>) -> RouterView {
        match lookup(self.last_process, app) {
            Some(pid) => RouterView {
                last_process: without(self.last_process, app),
                ..self
            }.clear_card(app, pid),
            None => self,
        }
    }

    /// State after the generic card of `game` was shown.
    pub open spec fn show(self, game: GameView) -> RouterView {
        RouterView {
            last_process: with(self.last_process, game.id, game.pid),
            ..self
        }.broadcast(generic_view(game), game.id)
    }

    /// State after the generic cards of `games` were shown in order.
    pub open spec fn show_all(self, games: Seq<GameView>) -> RouterView
        decreases games.len(),
    {
        if games.len() == 0 {
            self
        } else {
            self.show_all(games.drop_last()).show(games.last())
        }
    }

    /// Self-reported presence takes its application slot over and the
    /// generic card leaves.
    pub open spec fn sdk_publish(self, cmd: CmdView) -> RouterView {
        match cmd.activity() {
            Some(activity) => match activity.application_id {
                Some(app) => RouterView {
                    handoff: self.handoff.publish(app, cmd.pid()),
                    ..self
                }.withdraw(app),
                None => self,
            },
            None => self,
        }
    }

    /// A genuine clear hands the slots of its publisher back to the scanned
    /// games that run: the slot that the command names, or every slot of a
    /// publisher that closed without naming one.
    pub open spec fn resume(self, cmd: CmdView, live: Seq<u64>) -> RouterView {
        if !genuine_clear(cmd) {
            self
        } else {
            match cmd.application_id {
                Some(app) => if self.handoff.clears(app, cmd.pid()) {
                    RouterView { handoff: self.handoff.clear(app, cmd.pid()), ..self }.show_all(
                        resumable(self.handoff.scans, seq![app], live),
                    )
                } else {
                    self
                },
                None => RouterView {
                    handoff: self.handoff.clear_pid(cmd.pid()),
                    ..self
                }.show_all(
                    resumable(
                        self.handoff.scans,
                        owned_by(self.handoff.owners, cmd.pid()),
                        live,
                    ),
                ),
            }
        }
    }

    /// Whether the flood guard drops `cmd`.
    pub open spec fn floods(self, cmd: CmdView, now_ms: u64) -> bool {
        repeats(
            self.recent,
            match cmd.application_id {
                Some(app) => app,
                None => Seq::empty(),
            },
            cmd.pid(),
            cmd.fingerprint(),
            self.window_ms,
            now_ms,
        )
    }

    /// State after the flood guard saw `cmd`.
    pub open spec fn guarded(self, cmd: CmdView, now_ms: u64) -> RouterView {
        RouterView {
            recent: noted(
                self.recent,
                match cmd.application_id {
                    Some(app) => app,
                    None => Seq::empty(),
                },
                cmd.pid(),
                cmd.fingerprint(),
                self.window_ms,
                now_ms,
            ),
            ..self
        }
    }

    /// State after an activity command, whose time stamps are brought to
    /// milliseconds first.
    pub open spec fn set_activity(self, sent: CmdView, now_ms: u64, live: Seq<u64>) -> RouterView {
        self.routed(fixed_cmd(sent), now_ms, live)
    }

    /// State after an activity command with time stamps in milliseconds.
    /// Repeats within the flood window and malformed commands show nothing; a
    /// publish that changes nothing is not sent again.
    pub open spec fn routed(self, cmd: CmdView, now_ms: u64, live: Seq<u64>) -> RouterView {
        if self.floods(cmd, now_ms) {
            self
        } else {
            let seen = self.guarded(cmd, now_ms);
            match activity_payload(cmd) {
                None => seen,
                Some(payload) => {
                    let socket_id = decimal(cmd.pid() as nat);
                    let taken = seen.sdk_publish(cmd);
                    let changed = changes(lookup(taken.cache, socket_id), cmd.fingerprint());
                    let resumed = taken.resume(cmd, live);
                    if changed {
                        resumed.broadcast(payload, socket_id)
                    } else {
                        resumed
                    }
                },
            }
        }
    }

    /// State after the scanner reported an empty table: every generic card
    /// is cleared, by pid, and then every card of a dead process.
    pub open spec fn cleared(self, live: Seq<u64>) -> RouterView {
        let forgotten = RouterView {
            handoff: self.handoff.unscanned(),
            last_process: Seq::empty(),
            ..self
        };
        let emptied = forgotten.clear_cards(ordered(self.last_process, true));
        emptied.clear_cards(ghosts(emptied.cache, live))
    }

    /// State after the scanner reported `game`: remembered always, shown
    /// unless a live publisher owns the slot or the card is shown already.
    pub open spec fn detected(self, game: GameView) -> RouterView {
        let remembered = RouterView { handoff: self.handoff.scanned(game), ..self };
        if remembered.handoff.suppressed(game.id) {
            remembered.withdraw(game.id)
        } else if lookup(remembered.last_process, game.id) is Some {
            remembered
        } else {
            remembered.show(game)
        }
    }

    /// State after the scanner reported that `(app, pid)` vanished. A stale
    /// report, about an older process of the slot, clears nothing.
    pub open spec fn removed(self, app: Seq<char>, pid: u64) -> RouterView {
        let forgotten = RouterView { handoff: self.handoff.removed(app, pid), ..self };
        if lookup(self.last_process, app) == Some(pid) {
            forgotten.withdraw(app)
        } else {
            forgotten
        }
    }

    /// State after a scanner report.
    pub open spec fn scan(self, input: ProcInput, live: Seq<u64>) -> RouterView {
        match input {
            ProcInput::Cleared => self.cleared(live),
            ProcInput::Detected(game) => self.detected(game@),
            ProcInput::Removed(app, pid) => self.removed(app@, pid),
        }
    }
}

/// Remove one generic card from the table only when its pid matches the
/// report: a stale report must not clear a newer detection.
pub fn take_matching_process(last_process: &mut Table<u64>, app_id: &str, pid: u64) -> (r: Option<
    u64,
>)
    ensures
        lookup(old(last_process)@, app_id@) == Some(pid) ==> r == Some(pid) && final(last_process)@
            == without(old(last_process)@, app_id@),
        lookup(old(last_process)@, app_id@) != Some(pid) ==> r is None && *final(last_process)
            == *old(last_process),
{
    let matching = match last_process.get(app_id) {
        Some(known) => *known == pid,
        None => false,
    };
    if matching {
        last_process.remove(app_id)
    } else {
        None
    }
}

/// Whether `live` holds `pid`.
pub(crate) fn is_live(live: &Vec<u64>, pid: u64) -> (r: bool)
    ensures
        r == live@.contains(pid),
{
    let mut i: usize = 0;
    while i < live.len()
        invariant
            i <= live@.len(),
            forall|j: int| 0 <= j < i ==> live@[j] != pid,
        decreases live@.len() - i,
    {
        if live[i] == pid {
            return true;
        }
        i = i + 1;
    }
    false
}

impl Router {
    /// Nothing published yet.
    pub fn new(window_ms: u64) -> (r: Self)
        ensures
            r@ == (RouterView {
                cache: Seq::empty(),
                activity_seq: 0,
                last_process: Seq::empty(),
                handoff: HandoffView::fresh(),
                recent: Seq::empty(),
                window_ms,
                dirty: true,
                dropped: 0,
                outbox: Seq::empty(),
            }),
    {
        let r = Router {
            cache: Table::new(),
            activity_seq: 0,
            last_process: Table::new(),
            handoff: HandoffState::new(),
            recent: RecentActivities::new(window_ms),
            dirty: true,
            dropped_broadcasts: 0,
            outbox: Vec::new(),
        };
        assert(payloads(r.outbox@) =~= Seq::<CachedView>::empty());
        r
    }

    /// Broadcast a payload: keep the replay cache in step, mark the snapshot
    /// dirty and queue the payload for every consumer.
    pub fn broadcast_activity(&mut self, payload: Arc<CachedActivity>, socket_id: String)
        ensures
            final(self)@ == old(self)@.broadcast(payload@, socket_id@),
    {
        let ghost before = self@;
        if payload.is_clear {
            let _ = self.cache.remove(socket_id.as_str());
        } else {
            if self.activity_seq < u64::MAX {
                self.activity_seq = self.activity_seq + 1;
            }
            self.cache.put(socket_id, (share(&payload), self.activity_seq));
            prune_cache(&mut self.cache);
        }
        let ghost queued = payloads(self.outbox@);
        self.outbox.push(payload);
        assert(payloads(self.outbox@) =~= queued.push(payload@));
        self.dirty = true;
    }

    /// Clear one card; a clear that cannot be encoded is shed and counted.
    fn clear_one(&mut self, socket_id: &str, pid: u64)
        ensures
            final(self)@ == old(self)@.clear_card(socket_id@, pid),
    {
        match empty_cached(pid, socket_id) {
            Some(payload) => self.broadcast_activity(payload, socket_id.to_owned()),
            None => {
                self.dropped_broadcasts = bump(self.dropped_broadcasts);
            },
        }
    }

    /// Clear the cards of `slots` in order.
    fn clear_all(&mut self, slots: &Vec<(String, u64)>)
        ensures
            final(self)@ == old(self)@.clear_cards(slots_view(slots@)),
    {
        let ghost all = slots_view(slots@);
        let ghost before = self@;
        let mut i: usize = 0;
        assert(all.take(0) == Seq::<(Seq<char>, u64)>::empty());
        while i < slots.len()
            invariant
                i <= slots@.len(),
                all == slots_view(slots@),
                self@ == before.clear_cards(all.take(i as int)),
            decreases slots@.len() - i,
        {
            assert(all.take(i + 1).drop_last() == all.take(i as int));
            assert(all.take(i + 1).last() == all[i as int]);
            self.clear_one(slots[i].0.as_str(), slots[i].1);
            i = i + 1;
        }
        assert(all.take(all.len() as int) == all);
    }

    /// Withdraw the generic card of `app`, if shown.
    fn withdraw_generic(&mut self, app: &str)
        ensures
            final(self)@ == old(self)@.withdraw(app@),
    {
        let ghost before = self@;
        if !self.last_process.has(app) {
            return;
        }
        if let Some(pid) = self.last_process.remove(app) {
            self.clear_one(app, pid);
        }
    }

    /// Consume the shown generic cards for clearing, ordered by pid. A second
    /// call finds none.
    pub fn take_process_clear(&mut self) -> (r: Vec<(String, u64)>)
        ensures
            slots_view(r@) == ordered(old(self)@.last_process, true),
            final(self)@ == (RouterView { last_process: Seq::empty(), ..old(self)@ }),
    {
        let outstanding = sort_slots(&self.last_process.entries, true);
        assert(slots_view(self.last_process.entries@) =~= self@.last_process);
        self.last_process = Table::new();
        outstanding
    }

    /// Self-reported presence takes its application slot over from generic
    /// detection; the last publisher wins.
    pub fn note_sdk_publish(&mut self, cmd: &ActivityCmd)
        ensures
            final(self)@ == old(self)@.sdk_publish(cmd@),
    {
        let pid = cmd.pid();
        if let Some(args) = &cmd.args {
            if let Some(activity) = &args.activity {
                if let Some(app) = &activity.application_id {
                    self.handoff.note_publish(app.as_str(), pid);
                    self.withdraw_generic(app.as_str());
                }
            }
        }
    }

    /// Whether a publish of `pid` changes what it shows.
    pub fn activity_changed(&self, pid: u64, fingerprint: Option<&str>) -> (r: bool)
        ensures
            r == changes(lookup(self@.cache, decimal(pid as nat)), opt_str(fingerprint)),
    {
        let socket_id = decimal_text(pid);
        match self.cache.get(socket_id.as_str()) {
            None => fingerprint.is_some(),
            Some(card) => match fingerprint {
                None => !card.0.is_clear,
                Some(text) => card.0.is_clear || !same(card.0.activity_json.as_str(), text),
            },
        }
    }

    /// Show the generic card of a scanned game again after its source
    /// cleared.
    pub fn resume_generic(&mut self, game: &ScannedGame)
        ensures
            final(self)@ == old(self)@.show(game@),
    {
        self.last_process.put(game.id.clone(), game.pid);
        self.broadcast_activity(generic_payload(game), game.id.clone());
    }

    /// Show the generic cards of the scanned games of `apps` that run.
    fn resume_apps(&mut self, apps: &Vec<String>, live: &Vec<u64>)
        ensures
            final(self)@ == old(self)@.show_all(
                resumable(old(self)@.handoff.scans, texts(apps@), live@),
            ),
    {
        let ghost before = self@;
        let ghost scans = self@.handoff.scans;
        let ghost all = texts(apps@);
        let mut i: usize = 0;
        assert(all.take(0) == Seq::<Seq<char>>::empty());
        while i < apps.len()
            invariant
                i <= apps@.len(),
                all == texts(apps@),
                self@ == before.show_all(resumable(scans, all.take(i as int), live@)),
                self@.handoff.scans == scans,
            decreases apps@.len() - i,
        {
            assert(all.take(i + 1).drop_last() == all.take(i as int));
            assert(all.take(i + 1).last() == all[i as int]);
            let ghost games = resumable(scans, all.take(i as int), live@);
            if let Some(game) = self.handoff.resume_for(apps[i].as_str()) {
                if is_live(live, game.pid) {
                    assert(games.push(game@).drop_last() == games);
                    self.resume_generic(&game);
                }
            }
            i = i + 1;
        }
        assert(all.take(all.len() as int) == all);
    }

    /// A genuine clear hands its slots back to generic detection. `live`
    /// lists the processes that run.
    pub fn resume_after_clear(&mut self, cmd: &ActivityCmd, live: &Vec<u64>)
        ensures
            final(self)@ == old(self)@.resume(cmd@, live@),
    {
        if !is_genuine_clear(cmd) {
            return;
        }
        let pid = cmd.pid();
        match &cmd.application_id {
            Some(app) => {
                if self.handoff.note_clear(app.as_str(), pid) {
                    let mut apps: Vec<String> = Vec::new();
                    apps.push(app.clone());
                    assert(texts(apps@) =~= seq![app@]);
                    self.resume_apps(&apps, live);
                }
            },
            None => {
                let apps = self.handoff.note_clear_pid(pid);
                self.resume_apps(&apps, live);
            },
        }
    }

    /// Flood guard: whether an identical publish was accepted within the
    /// window. Takes the time in milliseconds.
    pub fn flood_dropped(&mut self, cmd: &ActivityCmd, now_ms: u64) -> (r: bool)
        ensures
            r == old(self)@.floods(cmd@, now_ms),
            final(self)@ == old(self)@.guarded(cmd@, now_ms),
    {
        let app = match &cmd.application_id {
            Some(app) => app.as_str(),
            None => "",
        };
        proof {
            reveal_strlit("");
            assert(""@ =~= Seq::<char>::empty());
        }
        self.recent.should_drop(app, cmd.pid(), cmd.fingerprint(), now_ms)
    }

    /// Handle one activity command at `now_ms`. `live` lists the processes
    /// that run.
    pub fn handle_set_activity(&mut self, cmd: &ActivityCmd, now_ms: u64, live: &Vec<u64>)
        ensures
            final(self)@ == old(self)@.set_activity(cmd@, now_ms, live@),
    {
        let mut fixed = cmd.clone();
        fixed.fix_timestamps();
        let cmd = &fixed;
        if self.flood_dropped(cmd, now_ms) {
            return;
        }
        let payload = match cached_activity(cmd) {
            Some(payload) => payload,
            None => {
                return;
            },
        };
        self.note_sdk_publish(cmd);
        let pid = cmd.pid();
        let changed = self.activity_changed(pid, cmd.fingerprint());
        self.resume_after_clear(cmd, live);
        if changed {
            self.broadcast_activity(payload, decimal_text(pid));
        }
    }

    /// Cards of processes that are named and do not run.
    fn find_ghosts(&self, live: &Vec<u64>) -> (r: Vec<(String, u64)>)
        ensures
            slots_view(r@) == ghosts(self@.cache, live@),
    {
        let ghost all = self@.cache;
        let mut out: Vec<(String, u64)> = Vec::new();
        let mut i: usize = 0;
        assert(all.take(0) == Seq::<(Seq<char>, (CachedView, u64))>::empty());
        assert(slots_view(out@) == Seq::<(Seq<char>, u64)>::empty());
        while i < self.cache.entries.len()
            invariant
                i <= self.cache.entries@.len(),
                all == self@.cache,
                slots_view(out@) == ghosts(all.take(i as int), live@),
            decreases self.cache.entries@.len() - i,
        {
            assert(all.take(i + 1).drop_last() == all.take(i as int));
            assert(all.take(i + 1).last() == all[i as int]);
            let id = &self.cache.entries[i].0;
            let payload = &self.cache.entries[i].1.0;
            if let Some(pid) = cache_entry_pid(id.as_str(), payload) {
                if !is_live(live, pid) {
                    let ghost before = slots_view(out@);
                    out.push((id.clone(), pid));
                    assert(slots_view(out@) =~= before.push((all[i as int].0, pid)));
                }
            }
            i = i + 1;
        }
        assert(all.take(all.len() as int) == all);
        out
    }

    /// Handle one scanner report. `live` lists the processes that run.
    pub fn handle_scan(&mut self, input: &ProcInput, live: &Vec<u64>)
        ensures
            final(self)@ == old(self)@.scan(*input, live@),
    {
        match input {
            ProcInput::Cleared => {
                self.handoff.note_scan(None);
                let outstanding = self.take_process_clear();
                self.clear_all(&outstanding);
                let dead = self.find_ghosts(live);
                self.clear_all(&dead);
            },
            ProcInput::Detected(game) => {
                self.handoff.note_scan(Some(game));
                if self.handoff.is_suppressed(game.id.as_str()) {
                    self.withdraw_generic(game.id.as_str());
                } else if !self.last_process.has(game.id.as_str()) {
                    self.resume_generic(game);
                }
            },
            ProcInput::Removed(app, pid) => {
                self.handoff.note_remove(app.as_str(), *pid);
                if let Some(pid) = take_matching_process(&mut self.last_process, app.as_str(), *pid) {
                    self.clear_one(app.as_str(), pid);
                }
            },
        }
    }

    /// Cached payloads to send again; the snapshot becomes dirty even when
    /// there are none, so that an idle bridge never looks stale.
    pub fn refresh_once(&mut self)
        ensures
            final(self)@ == (RouterView {
                outbox: old(self)@.outbox + old(self)@.cache.map_values(
                    |card: (Seq<char>, (CachedView, u64))| card.1.0,
                ),
                dirty: true,
                ..old(self)@
            }),
    {
        let ghost queued = self@.outbox;
        let ghost cards = self@.cache.map_values(|card: (Seq<char>, (CachedView, u64))| card.1.0);
        let ghost before = self@;
        let mut i: usize = 0;
        assert(queued + cards.take(0) =~= queued);
        while i < self.cache.entries.len()
            invariant
                i <= self.cache.entries@.len(),
                cards == self@.cache.map_values(
                    |card: (Seq<char>, (CachedView, u64))| card.1.0,
                ),
                self@ == (RouterView { outbox: queued + cards.take(i as int), ..before }),
            decreases self.cache.entries@.len() - i,
        {
            let payload = share(&self.cache.entries[i].1.0);
            let ghost out = payloads(self.outbox@);
            assert(payload@ == cards[i as int]);
            self.outbox.push(payload);
            assert(payloads(self.outbox@) =~= out.push(cards[i as int]));
            assert(queued + cards.take(i + 1) =~= (queued + cards.take(i as int)).push(
                cards[i as int],
            ));
            i = i + 1;
        }
        assert(cards.take(cards.len() as int) =~= cards);
        self.dirty = true;
    }

    /// Whether a snapshot is due; asking makes it not due.
    pub fn take_dirty(&mut self) -> (r: bool)
        ensures
            r == old(self)@.dirty,
            final(self)@ == (RouterView { dirty: false, ..old(self)@ }),
    {
        let r = self.dirty;
        self.dirty = false;
        r
    }

    /// Hand out the queued payloads.
    pub fn take_outbox(&mut self) -> (r: Vec<Arc<CachedActivity>>)
        ensures
            payloads(r@) == old(self)@.outbox,
            final(self)@ == (RouterView { outbox: Seq::empty(), ..old(self)@ }),
    {
        let mut out: Vec<Arc<CachedActivity>> = Vec::new();
        std::mem::swap(&mut out, &mut self.outbox);
        assert(payloads(self.outbox@) =~= Seq::<CachedView>::empty());
        out
    }
}

} // verus!
