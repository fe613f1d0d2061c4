//! The loops of detection as state machines: the scan tick, the event
//! watcher and the database refresh. Whoever drives them waits, reads and
//! sends.
use crate::detectables::{
    bodies, game_bodies, generation_builds, slim_list, DetectableActivity,
};
use crate::matching::ScannedHit;
use crate::server::ProcessServer;
use crate::slots::{
    law_ordered, law_vanished, ordered, removed_slots, slots_view, sort_slots, vanished, SlotView,
};
use crate::table::IdSet;
use crate::text::same;
use crate::time::{scan_cadence, stretched, Duration};
use std::collections::HashSet;
use vstd::prelude::*;

verus! {

broadcast use vstd::std_specs::hash::group_hash_axioms;

/// How many ids are remembered as seen; beyond, first sightings are no longer
/// reported.
pub const MAX_SEEN_IDS: usize = 1024;

/// What detection publishes.
pub enum ProcessDetectedEvent {
    Detected(ScannedHit),
    Removed(String, u64),
    Cleared,
}

impl ProcessDetectedEvent {
    /// A game runs.
    pub fn detected(hit: ScannedHit) -> (r: Self)
        ensures
            r == ProcessDetectedEvent::Detected(hit),
    {
        ProcessDetectedEvent::Detected(hit)
    }

    /// One game vanished.
    pub fn removed(id: String, pid: u64) -> (r: Self)
        ensures
            r == ProcessDetectedEvent::Removed(id, pid),
    {
        ProcessDetectedEvent::Removed(id, pid)
    }

    /// No game runs.
    pub fn cleared() -> (r: Self)
        ensures
            r == ProcessDetectedEvent::Cleared,
    {
        ProcessDetectedEvent::Cleared
    }
}

/// Model of a [`ProcessDetectedEvent`].
pub enum EventView {
    Detected(ScannedHit),
    Removed(Seq<char>, u64),
    Cleared,
}

impl View for ProcessDetectedEvent {
    type V = EventView;

    open spec fn view(&self) -> EventView {
        match *self {
            ProcessDetectedEvent::Detected(hit) => EventView::Detected(hit),
            ProcessDetectedEvent::Removed(id, pid) => EventView::Removed(id@, pid),
            ProcessDetectedEvent::Cleared => EventView::Cleared,
        }
    }
}

/// Events by their views.
pub open spec fn events_view(v: Seq<ProcessDetectedEvent>) -> Seq<EventView> {
    v.map_values(|e: ProcessDetectedEvent| e@)
}

/// The hits of `detected` that are seen for the first time, and what counts
/// as seen then. A full memory learns nothing new.
pub open spec fn sightings(seen: Seq<Seq<char>>, detected: Seq<ScannedHit>) -> (
    Seq<ScannedHit>,
    Seq<Seq<char>>,
)
    decreases detected.len(),
{
    if detected.len() == 0 {
        (Seq::empty(), seen)
    } else {
        let (out, known) = sightings(seen, detected.drop_last());
        let id = detected.last().entry.id@;
        if known.len() < MAX_SEEN_IDS && !known.contains(id) {
            (out.push(detected.last()), known.push(id))
        } else {
            (out, known)
        }
    }
}

/// The hits behind references.
pub open spec fn behind(v: Seq<&ScannedHit>) -> Seq<ScannedHit> {
    v.map_values(|h: &ScannedHit| *h)
}

/// Hits of `detected` whose application is seen for the first time; `seen`
/// learns them, up to its cap.
pub fn first_sightings<'a>(seen: &mut IdSet, detected: &'a [ScannedHit]) -> (r: Vec<
    &'a ScannedHit,
>)
    ensures
        (behind(r@), final(seen)@) == sightings(old(seen)@, detected@),
{
    let mut out: Vec<&'a ScannedHit> = Vec::new();
    let ghost start = seen@;
    let ghost all = detected@;
    let mut i: usize = 0;
    assert(all.take(0) == Seq::<ScannedHit>::empty());
    assert(behind(out@) == Seq::<ScannedHit>::empty());
    while i < detected.len()
        invariant
            i <= detected@.len(),
            all == detected@,
            (behind(out@), seen@) == sightings(start, all.take(i as int)),
        decreases detected@.len() - i,
    {
        assert(all.take(i + 1).drop_last() == all.take(i as int));
        assert(all.take(i + 1).last() == all[i as int]);
        let hit = &detected[i];
        if seen.len() < MAX_SEEN_IDS {
            let ghost before = behind(out@);
            if seen.insert(hit.entry.id.clone()) {
                out.push(hit);
                assert(behind(out@) == before.push(*hit));
            }
        }
        i = i + 1;
    }
    assert(all.take(all.len() as int) == all);
    out
}

/// The hits of `detected` whose application is not ignored, in order.
pub open spec fn unignored(detected: Seq<ScannedHit>, ignored: Seq<Seq<char>>) -> Seq<ScannedHit>
    decreases detected.len(),
{
    if detected.len() == 0 {
        detected
    } else {
        let before = unignored(detected.drop_last(), ignored);
        if ignored.contains(detected.last().entry.id@) {
            before
        } else {
            before.push(detected.last())
        }
    }
}

/// Drop the hits whose application is ignored, keeping the order.
pub fn apply_ignore_list(detected: Vec<ScannedHit>, ignored_ids: &IdSet) -> (r: Vec<ScannedHit>)
    ensures
        r@ == unignored(detected@, ignored_ids@),
{
    let mut out: Vec<ScannedHit> = Vec::new();
    let ghost all = detected@;
    let mut i: usize = 0;
    assert(all.take(0) == Seq::<ScannedHit>::empty());
    while i < detected.len()
        invariant
            i <= detected@.len(),
            all == detected@,
            out@ == unignored(all.take(i as int), ignored_ids@),
        decreases detected@.len() - i,
    {
        assert(all.take(i + 1).drop_last() == all.take(i as int));
        assert(all.take(i + 1).last() == all[i as int]);
        if !ignored_ids.contains(detected[i].entry.id.as_str()) {
            out.push(detected[i].clone());
        }
        i = i + 1;
    }
    assert(all.take(all.len() as int) == all);
    out
}

/// Whether a hit of the event watcher is ignored.
pub fn exec_hit_ignored(ignored_ids: &IdSet, hit: &ScannedHit) -> (r: bool)
    ensures
        r == ignored_ids@.contains(hit.entry.id@),
{
    ignored_ids.contains(hit.entry.id.as_str())
}

/// The slots of `hits`, in order of application and pid.
pub open spec fn snapshot(hits: Seq<ScannedHit>) -> Seq<SlotView> {
    ordered(hits.map_values(|h: ScannedHit| (h.entry.id@, h.pid)), false)
}

/// The slots of `hits`, in order of application and pid.
fn take_snapshot(hits: &Vec<ScannedHit>) -> (r: Vec<(String, u64)>)
    ensures
        slots_view(r@) == snapshot(hits@),
{
    let mut slots: Vec<(String, u64)> = Vec::new();
    let mut i: usize = 0;
    while i < hits.len()
        invariant
            i <= hits@.len(),
            slots_view(slots@) == hits@.take(i as int).map_values(
                |h: ScannedHit| (h.entry.id@, h.pid),
            ),
        decreases hits@.len() - i,
    {
        let ghost before = slots_view(slots@);
        let id = hits[i].entry.id.clone();
        let ghost shown = id@;
        slots.push((id, hits[i].pid));
        assert(slots_view(slots@) == before.push((shown, hits@[i as int].pid)));
        assert(hits@.take(i + 1) == hits@.take(i as int).push(hits@[i as int]));
        i = i + 1;
    }
    assert(hits@.take(hits@.len() as int) == hits@);
    sort_slots(&slots, false)
}

/// Whether two tables hold the same slots in the same order.
fn same_slots(a: &Vec<(String, u64)>, b: &Vec<(String, u64)>) -> (r: bool)
    ensures
        r == (slots_view(a@) == slots_view(b@)),
{
    if a.len() != b.len() {
        assert(slots_view(a@).len() != slots_view(b@).len());
        return false;
    }
    let mut i: usize = 0;
    while i < a.len()
        invariant
            i <= a@.len(),
            a@.len() == b@.len(),
            forall|j: int| 0 <= j < i ==> #[trigger] slots_view(a@)[j] == slots_view(b@)[j],
        decreases a@.len() - i,
    {
        if a[i].1 != b[i].1 || !same(a[i].0.as_str(), b[i].0.as_str()) {
            assert(slots_view(a@)[i as int] != slots_view(b@)[i as int]);
            return false;
        }
        i = i + 1;
    }
    assert(slots_view(a@) =~= slots_view(b@));
    true
}

/// What a tick publishes: nothing when the table is as it was published last
/// and no publication is forced. Else first the slots that vanished, then the
/// whole table, or its emptiness.
pub open spec fn tick_events(
    last: Seq<SlotView>,
    hits: Seq<ScannedHit>,
    forced: bool,
) -> Seq<EventView> {
    if snapshot(hits) != last || forced {
        vanished(last, snapshot(hits)).map_values(
            |s: SlotView| EventView::Removed(s.0, s.1),
        ) + (if hits.len() == 0 {
            seq![EventView::Cleared]
        } else {
            hits.map_values(|h: ScannedHit| EventView::Detected(h))
        })
    } else {
        Seq::empty()
    }
}

/// Processes of `hits`.
pub open spec fn pids_of(hits: Seq<ScannedHit>) -> Set<u64>
    decreases hits.len(),
{
    if hits.len() == 0 {
        Set::empty()
    } else {
        pids_of(hits.drop_last()).insert(hits.last().pid)
    }
}

/// What a tick did.
pub struct TickReport {
    /// Games that are seen for the first time.
    pub announced: Vec<ScannedHit>,
    /// What is to be published, in order.
    pub events: Vec<ProcessDetectedEvent>,
    /// Whether this was the first tick.
    pub first: bool,
    /// How many games run.
    pub games: usize,
}

/// State of the scan thread.
pub struct ScanLoop {
    /// Ticks without games in a row.
    pub idle_ticks: u32,
    pub seen_ids: IdSet,
    /// The table that was published last.
    pub last_emitted: Vec<(String, u64)>,
    pub first_tick: bool,
}

impl ScanLoop {
    /// Before the first tick.
    pub fn new() -> (r: Self)
        ensures
            r.idle_ticks == 0,
            r.seen_ids@ == Seq::<Seq<char>>::empty(),
            slots_view(r.last_emitted@) == Seq::<SlotView>::empty(),
            r.first_tick,
    {
        let r = ScanLoop {
            idle_ticks: 0,
            seen_ids: IdSet::new(),
            last_emitted: Vec::new(),
            first_tick: true,
        };
        assert(slots_view(r.last_emitted@) =~= Seq::<SlotView>::empty());
        r
    }

    /// Events for the table `hits`, published before as `last`.
    fn events(last: &Vec<(String, u64)>, now: &Vec<(String, u64)>, hits: &Vec<ScannedHit>) -> (r:
        Vec<ProcessDetectedEvent>)
        ensures
            events_view(r@) == vanished(slots_view(last@), slots_view(now@)).map_values(
                |s: SlotView| EventView::Removed(s.0, s.1),
            ) + (if hits@.len() == 0 {
                seq![EventView::Cleared]
            } else {
                hits@.map_values(|h: ScannedHit| EventView::Detected(h))
            }),
    {
        let gone = removed_slots(last, now);
        let ghost lost = slots_view(gone@).map_values(
            |s: SlotView| EventView::Removed(s.0, s.1),
        );
        let mut out: Vec<ProcessDetectedEvent> = Vec::new();
        let mut i: usize = 0;
        while i < gone.len()
            invariant
                i <= gone@.len(),
                lost == slots_view(gone@).map_values(|s: SlotView| EventView::Removed(s.0, s.1)),
                events_view(out@) == lost.take(i as int),
            decreases gone@.len() - i,
        {
            let ghost before = events_view(out@);
            let event = ProcessDetectedEvent::removed(gone[i].0.clone(), gone[i].1);
            let ghost shown = event@;
            out.push(event);
            assert(events_view(out@) == before.push(shown));
            assert(lost.take(i + 1) == lost.take(i as int).push(lost[i as int]));
            i = i + 1;
        }
        assert(lost.take(lost.len() as int) == lost);
        if hits.len() == 0 {
            out.push(ProcessDetectedEvent::cleared());
            assert(events_view(out@) == lost + seq![EventView::Cleared]);
            return out;
        }
        let ghost found = hits@.map_values(|h: ScannedHit| EventView::Detected(h));
        let mut j: usize = 0;
        assert(lost + found.take(0) == lost);
        while j < hits.len()
            invariant
                j <= hits@.len(),
                found == hits@.map_values(|h: ScannedHit| EventView::Detected(h)),
                events_view(out@) == lost + found.take(j as int),
            decreases hits@.len() - j,
        {
            let ghost before = events_view(out@);
            out.push(ProcessDetectedEvent::detected(hits[j].clone()));
            assert(events_view(out@) == before.push(found[j as int]));
            assert(lost + found.take(j + 1) == (lost + found.take(j as int)).push(
                found[j as int],
            ));
            j = j + 1;
        }
        assert(found.take(found.len() as int) == found);
        out
    }

    /// One tick: `detected` is what the scan found.
    pub fn tick(&mut self, server: &mut ProcessServer, detected: Vec<ScannedHit>) -> (r: TickReport)
        ensures
            ({
                let hits = unignored(detected@, old(server).ignored_ids@);
                let last = slots_view(old(self).last_emitted@);
                &&& events_view(r.events@) == tick_events(last, hits, old(server).scan_dirty)
                &&& slots_view(final(self).last_emitted@) == snapshot(hits)
                &&& (r.announced@, final(self).seen_ids@) == sightings(old(self).seen_ids@, hits)
                &&& r.games == hits.len()
                &&& r.first == old(self).first_tick
                &&& !final(self).first_tick
                &&& final(self).idle_ticks == if hits.len() > 0 {
                    0
                } else if old(self).idle_ticks == u32::MAX {
                    u32::MAX
                } else {
                    (old(self).idle_ticks + 1) as u32
                }
                &&& final(server).detected_pids@ == pids_of(hits)
                &&& *final(server) == (ProcessServer {
                    detected_pids: final(server).detected_pids,
                    scan_dirty: false,
                    ..*old(server)
                })
            }),
    {
        let hits = apply_ignore_list(detected, &server.ignored_ids);
        let first = self.first_tick;
        self.first_tick = false;
        let fresh = first_sightings(&mut self.seen_ids, hits.as_slice());
        let mut announced: Vec<ScannedHit> = Vec::new();
        let mut k: usize = 0;
        while k < fresh.len()
            invariant
                k <= fresh@.len(),
                announced@ == behind(fresh@).take(k as int),
            decreases fresh@.len() - k,
        {
            announced.push(fresh[k].clone());
            k = k + 1;
            assert(announced@ == behind(fresh@).take(k as int));
        }
        assert(behind(fresh@).take(behind(fresh@).len() as int) == behind(fresh@));
        let mut pids: HashSet<u64> = HashSet::new();
        let mut i: usize = 0;
        assert(hits@.take(0) == Seq::<ScannedHit>::empty());
        while i < hits.len()
            invariant
                i <= hits@.len(),
                pids@ == pids_of(hits@.take(i as int)),
            decreases hits@.len() - i,
        {
            assert(hits@.take(i + 1).drop_last() == hits@.take(i as int));
            assert(hits@.take(i + 1).last() == hits@[i as int]);
            let _ = pids.insert(hits[i].pid);
            i = i + 1;
        }
        assert(hits@.take(hits@.len() as int) == hits@);
        server.detected_pids = pids;
        let now = take_snapshot(&hits);
        let forced = server.scan_dirty;
        server.scan_dirty = false;
        let emit = !same_slots(&now, &self.last_emitted) || forced;
        let events = if emit {
            ScanLoop::events(&self.last_emitted, &now, &hits)
        } else {
            Vec::new()
        };
        if !emit {
            assert(events_view(events@) =~= Seq::<EventView>::empty());
        }
        self.last_emitted = now;
        if hits.len() == 0 {
            if self.idle_ticks < u32::MAX {
                self.idle_ticks = self.idle_ticks + 1;
            }
        } else {
            self.idle_ticks = 0;
        }
        TickReport { announced, events, first, games: hits.len() }
    }

    /// How long to wait before the next tick.
    pub fn cadence(&self, base: Duration, watcher_live: bool) -> (r: Duration)
        ensures
            r.nanos == if watcher_live {
                stretched(base.nanos as nat, self.idle_ticks as nat)
            } else {
                base.nanos as nat
            },
    {
        scan_cadence(base, self.idle_ticks, watcher_live)
    }

    /// The wait is over; one that was cut short resets the idle stretch.
    pub fn after_wait(&mut self, early: bool)
        ensures
            *final(self) == (ScanLoop {
                idle_ticks: if early {
                    0
                } else {
                    old(self).idle_ticks
                },
                ..*old(self)
            }),
    {
        if early {
            self.idle_ticks = 0;
        }
    }
}

/// What a receiver of events shows: the slots that were detected and neither
/// removed nor cleared since.
pub open spec fn mirrored(table: Set<SlotView>, events: Seq<EventView>) -> Set<SlotView>
    decreases events.len(),
{
    if events.len() == 0 {
        table
    } else {
        let before = mirrored(table, events.drop_last());
        match events.last() {
            EventView::Detected(hit) => before.insert((hit.entry.id@, hit.pid)),
            EventView::Removed(id, pid) => before.remove((id, pid)),
            EventView::Cleared => Set::empty(),
        }
    }
}

proof fn lemma_mirrored_append(table: Set<SlotView>, a: Seq<EventView>, b: Seq<EventView>)
    ensures
        mirrored(table, a + b) == mirrored(mirrored(table, a), b),
    decreases b.len(),
{
    if b.len() == 0 {
        assert(a + b == a);
    } else {
        assert((a + b).drop_last() == a + b.drop_last());
        assert((a + b).last() == b.last());
        lemma_mirrored_append(table, a, b.drop_last());
    }
}

proof fn lemma_mirrored_removed(table: Set<SlotView>, slots: Seq<SlotView>, x: SlotView)
    ensures
        mirrored(
            table,
            slots.map_values(|s: SlotView| EventView::Removed(s.0, s.1)),
        ).contains(x) <==> table.contains(x) && !slots.contains(x),
    decreases slots.len(),
{
    let events = slots.map_values(|s: SlotView| EventView::Removed(s.0, s.1));
    if slots.len() > 0 {
        let front = slots.drop_last();
        assert(events.drop_last() == front.map_values(
            |s: SlotView| EventView::Removed(s.0, s.1),
        ));
        lemma_mirrored_removed(table, front, x);
        assert(slots == front.push(slots.last()));
        if front.contains(x) {
            let i = choose|i: int| 0 <= i < front.len() && front[i] == x;
            assert(slots[i] == x);
        }
        if slots.contains(x) && x != slots.last() {
            let i = choose|i: int| 0 <= i < slots.len() && slots[i] == x;
            assert(front[i] == x);
        }
        assert(slots[slots.len() - 1] == slots.last());
    }
}

proof fn lemma_mirrored_detected(table: Set<SlotView>, hits: Seq<ScannedHit>, x: SlotView)
    ensures
        mirrored(
            table,
            hits.map_values(|h: ScannedHit| EventView::Detected(h)),
        ).contains(x) <==> table.contains(x) || hits.map_values(
            |h: ScannedHit| (h.entry.id@, h.pid),
        ).contains(x),
    decreases hits.len(),
{
    let events = hits.map_values(|h: ScannedHit| EventView::Detected(h));
    let slots = hits.map_values(|h: ScannedHit| (h.entry.id@, h.pid));
    if hits.len() > 0 {
        let front = hits.drop_last();
        let front_slots = front.map_values(|h: ScannedHit| (h.entry.id@, h.pid));
        assert(events.drop_last() == front.map_values(|h: ScannedHit| EventView::Detected(h)));
        lemma_mirrored_detected(table, front, x);
        if front_slots.contains(x) {
            let i = choose|i: int| 0 <= i < front_slots.len() && front_slots[i] == x;
            assert(slots[i] == x);
        }
        if slots.contains(x) && x != slots.last() {
            let i = choose|i: int| 0 <= i < slots.len() && slots[i] == x;
            assert(front_slots[i] == x);
        }
        assert(slots[slots.len() - 1] == slots.last());
    }
}

proof fn lemma_ordered_contains(slots: Seq<SlotView>, x: SlotView)
    ensures
        ordered(slots, false).contains(x) <==> slots.contains(x),
{
    broadcast use vstd::seq_lib::group_to_multiset_ensures;

    law_ordered(slots, false);
    assert(ordered(slots, false).to_multiset().contains(x) <==> slots.to_multiset().contains(x));
}

/// Publishing differences loses nothing: a receiver that shows the table
/// published last shows exactly the current one after the events of a tick.
pub proof fn law_ticks_mirror_the_table(
    last: Seq<SlotView>,
    hits: Seq<ScannedHit>,
    forced: bool,
    x: SlotView,
)
    ensures
        mirrored(last.to_set(), tick_events(last, hits, forced)).contains(x) <==> snapshot(
            hits,
        ).contains(x),
{
    let now = snapshot(hits);
    let slots = hits.map_values(|h: ScannedHit| (h.entry.id@, h.pid));
    lemma_ordered_contains(slots, x);
    if now != last || forced {
        let lost = vanished(last, now);
        let removed = lost.map_values(|s: SlotView| EventView::Removed(s.0, s.1));
        let rest = if hits.len() == 0 {
            seq![EventView::Cleared]
        } else {
            hits.map_values(|h: ScannedHit| EventView::Detected(h))
        };
        lemma_mirrored_append(last.to_set(), removed, rest);
        let kept = mirrored(last.to_set(), removed);
        lemma_mirrored_removed(last.to_set(), lost, x);
        law_vanished(last, now, x);
        if hits.len() == 0 {
            assert(rest.drop_last() == Seq::<EventView>::empty());
            assert(mirrored(kept, rest) == Set::<SlotView>::empty());
        } else {
            lemma_mirrored_detected(kept, hits, x);
        }
    }
}

proof fn lemma_unignored(detected: Seq<ScannedHit>, ignored: Seq<Seq<char>>)
    ensures
        forall|i: int|
            0 <= i < unignored(detected, ignored).len() ==> !ignored.contains(
                (#[trigger] unignored(detected, ignored)[i]).entry.id@,
            ),
    decreases detected.len(),
{
    if detected.len() > 0 {
        let before = unignored(detected.drop_last(), ignored);
        let all = unignored(detected, ignored);
        lemma_unignored(detected.drop_last(), ignored);
        assert forall|i: int| 0 <= i < all.len() implies !ignored.contains(
            (#[trigger] all[i]).entry.id@,
        ) by {
            if i < before.len() {
                assert(all[i] == before[i]);
            }
        }
    }
}

/// An ignored application is absent: no tick publishes it, whatever was
/// detected.
pub proof fn law_ignored_are_never_published(
    last: Seq<SlotView>,
    detected: Seq<ScannedHit>,
    ignored: Seq<Seq<char>>,
    forced: bool,
    hit: ScannedHit,
)
    requires
        ignored.contains(hit.entry.id@),
    ensures
        !tick_events(last, unignored(detected, ignored), forced).contains(
            EventView::Detected(hit),
        ),
{
    let hits = unignored(detected, ignored);
    lemma_unignored(detected, ignored);
    let events = tick_events(last, hits, forced);
    if events.contains(EventView::Detected(hit)) {
        let k = choose|k: int| 0 <= k < events.len() && events[k] == EventView::Detected(hit);
        let lost = vanished(last, snapshot(hits));
        if k >= lost.len() && hits.len() > 0 {
            assert(events[k] == EventView::Detected(hits[k - lost.len()]));
            assert(hits[k - lost.len()] == hit);
        }
    }
}

/// A tick that finds the table as it was published is silent, unless a
/// publication is forced; the empty table is published once.
pub proof fn law_unchanged_table_is_silent(last: Seq<SlotView>, hits: Seq<ScannedHit>)
    ensures
        snapshot(hits) == last ==> tick_events(last, hits, false).len() == 0,
        snapshot(hits) == last && hits.len() == 0 ==> tick_events(last, hits, true) == seq![
            EventView::Cleared,
        ],
{
    if snapshot(hits) == last && hits.len() == 0 {
        let slots = hits.map_values(|h: ScannedHit| (h.entry.id@, h.pid));
        law_ordered(slots, false);
        assert(last.len() == 0);
        assert(tick_events(last, hits, true) =~= seq![EventView::Cleared]);
    }
}

impl ProcessServer {
    /// The event watcher saw a process start and `hit` is its
    /// classification. A game that is not ignored is published at once; the
    /// next tick then publishes its whole table, or a game that dies before
    /// it would never be cleared.
    pub fn on_exec(&mut self, hit: Option<ScannedHit>) -> (r: Option<ProcessDetectedEvent>)
        ensures
            match hit {
                Some(hit) if !old(self).ignored_ids@.contains(hit.entry.id@) => {
                    &&& r == Some(ProcessDetectedEvent::Detected(hit))
                    &&& final(self).detected_pids@ == old(self).detected_pids@.insert(hit.pid)
                    &&& *final(self) == (ProcessServer {
                        detected_pids: final(self).detected_pids,
                        scan_dirty: true,
                        ..*old(self)
                    })
                },
                _ => r is None && *final(self) == *old(self),
            },
    {
        match hit {
            Some(hit) => {
                if exec_hit_ignored(&self.ignored_ids, &hit) {
                    return None;
                }
                let _ = self.detected_pids.insert(hit.pid);
                self.scan_dirty = true;
                Some(ProcessDetectedEvent::detected(hit))
            },
            None => None,
        }
    }
}

/// What the watcher thread does next.
#[derive(Clone, Copy, PartialEq, Eq, Structural, Debug)]
pub enum WatchStep {
    /// Block in the watch.
    Watch,
    /// End.
    Stop,
    /// Wake the scan, wait that many seconds and try again. The first failure
    /// is worth a warning.
    Retry { warn: bool, wait_secs: u64 },
}

/// How long the watcher waits before it tries again: five minutes.
pub const WATCH_RETRY_SECS: u64 = 300;

/// State of the watcher thread.
pub struct WatchLoop {
    /// Failures so far.
    pub attempts: u32,
}

impl WatchLoop {
    /// Before the first watch.
    pub fn new() -> (r: Self)
        ensures
            r.attempts == 0,
    {
        WatchLoop { attempts: 0 }
    }

    /// About to watch: the watcher is believed up while the watch blocks.
    pub fn before_watch(&self, server: &mut ProcessServer) -> (r: WatchStep)
        ensures
            r == if old(server).shutdown {
                WatchStep::Stop
            } else {
                WatchStep::Watch
            },
            *final(server) == (ProcessServer {
                watcher_live: if old(server).shutdown {
                    old(server).watcher_live
                } else {
                    true
                },
                ..*old(server)
            }),
    {
        if server.shutdown {
            return WatchStep::Stop;
        }
        server.watcher_live = true;
        WatchStep::Watch
    }

    /// The watch ended: quietly when detection ends, else with a failure.
    /// Either way the watcher is down.
    pub fn after_watch(&mut self, server: &mut ProcessServer, failed: bool) -> (r: WatchStep)
        ensures
            *final(server) == (ProcessServer { watcher_live: false, ..*old(server) }),
            final(self).attempts == if !failed {
                old(self).attempts
            } else if old(self).attempts == u32::MAX {
                u32::MAX
            } else {
                (old(self).attempts + 1) as u32
            },
            r == if !failed || old(server).shutdown {
                WatchStep::Stop
            } else {
                WatchStep::Retry { warn: old(self).attempts == 0, wait_secs: WATCH_RETRY_SECS }
            },
    {
        server.watcher_live = false;
        if !failed {
            return WatchStep::Stop;
        }
        let warn = self.attempts == 0;
        if self.attempts < u32::MAX {
            self.attempts = self.attempts + 1;
        }
        if server.shutdown {
            WatchStep::Stop
        } else {
            WatchStep::Retry { warn, wait_secs: WATCH_RETRY_SECS }
        }
    }
}

/// What the refresh thread does next.
#[derive(Clone, Copy, PartialEq, Eq, Structural, Debug)]
pub enum RefreshStep {
    /// Ask for the exclusions.
    Prime,
    /// Wait that many seconds, or until detection ends.
    Wait { secs: u64 },
    /// Ask for the exclusions and for the database.
    Fetch,
    /// Give freed memory back to the system.
    Trim,
    /// End.
    Stop,
}

/// How long the refresh thread waits between two fetches: an hour.
pub const REFRESH_SECS: u64 = 3600;

/// How long it waits after new games were installed, until no tick holds the
/// old generation any more.
pub const SETTLE_SECS: u64 = 60;

/// Where the refresh thread stands.
#[derive(Clone, Copy, PartialEq, Eq, Structural, Debug)]
pub enum RefreshPhase {
    Starting,
    Resting,
    Due,
    Settling,
    Settled,
}

/// State of the refresh thread.
pub struct RefreshLoop {
    pub phase: RefreshPhase,
}

impl RefreshLoop {
    /// Before the first wait: the database was fetched at startup.
    pub fn new() -> (r: Self)
        ensures
            r.phase == RefreshPhase::Starting,
    {
        RefreshLoop { phase: RefreshPhase::Starting }
    }

    /// The next step. Detection that ends stops the thread wherever it
    /// stands.
    pub fn next(&mut self, server: &ProcessServer) -> (r: RefreshStep)
        ensures
            (r, final(self).phase) == if server.shutdown {
                (RefreshStep::Stop, old(self).phase)
            } else {
                match old(self).phase {
                    RefreshPhase::Starting => (RefreshStep::Prime, RefreshPhase::Resting),
                    RefreshPhase::Resting => (
                        RefreshStep::Wait { secs: REFRESH_SECS },
                        RefreshPhase::Due,
                    ),
                    RefreshPhase::Due => (RefreshStep::Fetch, RefreshPhase::Resting),
                    RefreshPhase::Settling => (
                        RefreshStep::Wait { secs: SETTLE_SECS },
                        RefreshPhase::Settled,
                    ),
                    RefreshPhase::Settled => (RefreshStep::Trim, RefreshPhase::Resting),
                }
            },
    {
        if server.shutdown {
            return RefreshStep::Stop;
        }
        let (step, phase) = match self.phase {
            RefreshPhase::Starting => (RefreshStep::Prime, RefreshPhase::Resting),
            RefreshPhase::Resting => (RefreshStep::Wait { secs: REFRESH_SECS }, RefreshPhase::Due),
            RefreshPhase::Due => (RefreshStep::Fetch, RefreshPhase::Resting),
            RefreshPhase::Settling => (
                RefreshStep::Wait { secs: SETTLE_SECS },
                RefreshPhase::Settled,
            ),
            RefreshPhase::Settled => (RefreshStep::Trim, RefreshPhase::Resting),
        };
        self.phase = phase;
        step
    }

    /// The source was asked; new games were installed or not.
    pub fn after_fetch(&mut self, installed: bool)
        ensures
            final(self).phase == if installed {
                RefreshPhase::Settling
            } else {
                old(self).phase
            },
    {
        if installed {
            self.phase = RefreshPhase::Settling;
        }
    }
}

/// What the source of the database answered.
pub enum FetchOutcome {
    /// The tag still holds.
    Unchanged,
    /// A new tag for the same games.
    SameContent { etag: Option<String>, content_hash: u64, trimmed_hash: u64 },
    /// New games.
    Updated {
        etag: Option<String>,
        content_hash: u64,
        trimmed_hash: u64,
        detectable: Vec<DetectableActivity>,
    },
    /// The source could not be asked.
    Failed,
}

/// What tells whether the database changed.
pub struct Validators {
    pub etag: Option<String>,
    pub content_hash: Option<u64>,
    pub trimmed_hash: Option<u64>,
}

impl Validators {
    /// Whether these are the validators of an answer.
    pub open spec fn of(self, etag: Option<String>, content_hash: u64, trimmed_hash: u64) -> bool {
        &&& self.etag == etag
        &&& self.content_hash == Some(content_hash)
        &&& self.trimmed_hash == Some(trimmed_hash)
    }

    /// Take an answer in. New games are installed first; their validators
    /// count only once they are, or a refused list would be believed
    /// current. Whether new games were installed.
    pub fn on_fetch(&mut self, server: &mut ProcessServer, outcome: FetchOutcome) -> (r: bool)
        requires
            old(server).wf(),
        ensures
            final(server).wf(),
            *final(server) == (ProcessServer {
                detectables: final(server).detectables,
                ..*old(server)
            }),
            match outcome {
                FetchOutcome::Unchanged => !r && *final(self) == *old(self),
                FetchOutcome::Failed => !r && *final(self) == *old(self),
                FetchOutcome::SameContent { etag, content_hash, trimmed_hash } => !r && final(self).of(etag, content_hash, trimmed_hash),
                FetchOutcome::Updated { etag, content_hash, trimmed_hash, detectable } => {
                    &&& r ==> final(self).of(etag, content_hash, trimmed_hash) && slim_list(
                        final(server).detectables.list@,
                        detectable@,
                    ) && final(server).detectables.custom@ == old(server).detectables.custom@
                    &&& !r ==> *final(self) == *old(self)
                    &&& r == (detectable@.len() > 0 && generation_builds(
                        game_bodies(detectable@),
                        bodies(old(server).detectables.custom@),
                        old(server).detectables.platform,
                    ))
                },
            },
            !r ==> final(server).detectables == old(server).detectables,
    {
        match outcome {
            FetchOutcome::Unchanged => false,
            FetchOutcome::Failed => false,
            FetchOutcome::SameContent { etag, content_hash, trimmed_hash } => {
                self.etag = etag;
                self.content_hash = Some(content_hash);
                self.trimmed_hash = Some(trimmed_hash);
                false
            },
            FetchOutcome::Updated { etag, content_hash, trimmed_hash, detectable } => {
                if !server.update_main_detectables(detectable) {
                    return false;
                }
                self.etag = etag;
                self.content_hash = Some(content_hash);
                self.trimmed_hash = Some(trimmed_hash);
                true
            },
        }
    }
}

} // verus!
