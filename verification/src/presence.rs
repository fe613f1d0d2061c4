//! Laws of activity routing: what every state keeps, and what a viewer can
//! rely on.
use crate::handoff::{
    law_handoff_keeps_wf, law_publish_then_clear, owned_by, released, HandoffView, ProcInput,
};
use crate::json::json_u64;
use crate::payload::{
    activity_payload, clear_payload, fixed_cmd, generic_view, CachedView, CmdView, GameView,
};
use crate::replay::{
    chronological, entry_pid, law_pruned, lemma_oldest, oldest, pruned, CacheView,
    MAX_CACHED_ACTIVITIES,
};
use crate::router::{
    card_owners, changes, genuine_clear, ghosts, next_seq, resumable, RouterView,
};
use crate::slots::{law_ordered, ordered};
use crate::table::{
    distinct, law_table_update, lemma_lookup, lemma_without, lemma_without_lookup, lookup, with,
    without,
};
use crate::text::{decimal, law_decimal_round_trip};
use vstd::prelude::*;

verus! {

/// Every remembered game stands under its own application id.
pub open spec fn keyed(scans: Seq<(Seq<char>, GameView)>) -> bool {
    forall|i: int| 0 <= i < scans.len() ==> (#[trigger] scans[i]).0 == scans[i].1.id
}

/// A replay cache in order: no publisher twice, within the bound, oldest
/// first, never a clear, nothing newer than `seq`.
pub open spec fn cache_wf(cache: CacheView, seq: u64) -> bool {
    &&& distinct(cache)
    &&& cache.len() <= MAX_CACHED_ACTIVITIES
    &&& chronological(cache)
    &&& forall|i: int|
        0 <= i < cache.len() ==> (#[trigger] cache[i]).1.1 <= seq && !cache[i].1.0.is_clear
}

/// No generic card is shown in a slot that a live publisher owns.
pub open spec fn exclusive(state: RouterView) -> bool {
    forall|app: Seq<char>|
        #![trigger lookup(state.last_process, app)]
        #![trigger state.handoff.suppressed(app)]
        state.handoff.suppressed(app) ==> lookup(state.last_process, app) is None
}

impl RouterView {
    /// What holds of every reachable state.
    pub open spec fn wf(self) -> bool {
        &&& self.handoff.wf()
        &&& keyed(self.handoff.scans)
        &&& distinct(self.last_process)
        &&& cache_wf(self.cache, self.activity_seq)
        &&& exclusive(self)
    }
}

proof fn lemma_cache_without(cache: CacheView, seq: u64, k: Seq<char>)
    requires
        cache_wf(cache, seq),
    ensures
        cache_wf(without(cache, k), seq),
    decreases cache.len(),
{
    lemma_without(cache, k);
    let w = without(cache, k);
    assert forall|i: int| 0 <= i < w.len() implies (#[trigger] w[i]).1.1 <= seq
        && !w[i].1.0.is_clear by {
        let m = choose|m: int| 0 <= m < cache.len() && cache[m] == w[i];
        assert(cache[m].1.1 <= seq);
    }
    if cache.len() > 0 {
        let t = cache.drop_last();
        assert(cache_wf(t, seq)) by {
            assert forall|i: int| 0 <= i < t.len() implies (#[trigger] t[i]).1.1 <= seq
                && !t[i].1.0.is_clear by {
                assert(t[i] == cache[i]);
            }
            assert forall|i: int, j: int| 0 <= i < j < t.len() implies (#[trigger] t[i]).0 != (
            #[trigger] t[j]).0 by {
                assert(t[i] == cache[i] && t[j] == cache[j]);
            }
            assert forall|i: int, j: int| 0 <= i < j < t.len() implies (#[trigger] t[i]).1.1 <= (
            #[trigger] t[j]).1.1 by {
                assert(t[i] == cache[i] && t[j] == cache[j]);
            }
        }
        lemma_cache_without(t, seq, k);
        lemma_without(t, k);
        let wt = without(t, k);
        assert forall|i: int, j: int| 0 <= i < j < w.len() implies (#[trigger] w[i]).1.1 <= (
        #[trigger] w[j]).1.1 by {
            if j < wt.len() {
                assert(w[i] == wt[i] && w[j] == wt[j]);
            } else {
                assert(w[i] == wt[i]);
                let m = choose|m: int| 0 <= m < t.len() && t[m] == wt[i];
                assert(cache[m] == w[i]);
                assert(cache[cache.len() - 1] == w[j]);
            }
        }
    }
}

/// What a card's arrival makes of the cache: within its bound, with the card
/// as the latest one.
pub proof fn law_publish_enters_cache(cache: CacheView, seq: u64, id: Seq<char>, p: CachedView)
    requires
        cache_wf(cache, seq),
        !p.is_clear,
    ensures
        ({
            let after = pruned(with(cache, id, (p, next_seq(seq))));
            &&& cache_wf(after, next_seq(seq))
            &&& after.len() > 0 && after.last() == (id, (p, next_seq(seq)))
            &&& lookup(after, id) == Some((p, next_seq(seq)))
        }),
{
    let n = next_seq(seq);
    let w = with(cache, id, (p, n));
    lemma_cache_without(cache, seq, id);
    law_table_update(cache, id, (p, n), id);
    let base = without(cache, id);
    lemma_without(cache, id);
    assert forall|i: int, j: int| 0 <= i < j < w.len() implies (#[trigger] w[i]).1.1 <= (
    #[trigger] w[j]).1.1 by {
        if j < base.len() {
            assert(w[i] == base[i] && w[j] == base[j]);
        } else {
            assert(w[i] == base[i]);
        }
    }
    law_pruned(w);
    let after = pruned(w);
    if w.len() > MAX_CACHED_ACTIVITIES {
        let d = w.len() - MAX_CACHED_ACTIVITIES;
        assert(after == w.skip(d));
        assert forall|i: int, j: int| 0 <= i < j < after.len() implies (#[trigger] after[i]).0 != (
        #[trigger] after[j]).0 by {
            assert(after[i] == w[i + d] && after[j] == w[j + d]);
        }
        assert forall|i: int, j: int| 0 <= i < j < after.len() implies (#[trigger] after[i]).1.1
            <= (#[trigger] after[j]).1.1 by {
            assert(after[i] == w[i + d] && after[j] == w[j + d]);
        }
    }
    assert(after.last() == w.last());
    assert forall|i: int| 0 <= i < after.len() implies (#[trigger] after[i]).1.1 <= n
        && !after[i].1.0.is_clear by {
        let k = if w.len() > MAX_CACHED_ACTIVITIES {
            i + (w.len() - MAX_CACHED_ACTIVITIES)
        } else {
            i
        };
        assert(after[i] == w[k]);
        if k < base.len() {
            assert(w[k] == base[k]);
        }
    }
}

/// A broadcast keeps the state in order.
pub proof fn law_broadcast_keeps_wf(state: RouterView, payload: CachedView, id: Seq<char>)
    requires
        state.wf(),
    ensures
        state.broadcast(payload, id).wf(),
        state.broadcast(payload, id).handoff == state.handoff,
        state.broadcast(payload, id).last_process == state.last_process,
{
    if payload.is_clear {
        lemma_cache_without(state.cache, state.activity_seq, id);
    } else {
        law_publish_enters_cache(state.cache, state.activity_seq, id, payload);
    }
}

proof fn lemma_clear_card(state: RouterView, id: Seq<char>, pid: u64)
    requires
        state.wf(),
    ensures
        state.clear_card(id, pid).wf(),
        state.clear_card(id, pid).handoff == state.handoff,
        state.clear_card(id, pid).last_process == state.last_process,
        state.clear_card(id, pid).activity_seq == state.activity_seq,
        clear_payload(pid, id) is Some ==> state.clear_card(id, pid).cache == without(
            state.cache,
            id,
        ),
        clear_payload(pid, id) is None ==> state.clear_card(id, pid).cache == state.cache,
{
    if let Some(payload) = clear_payload(pid, id) {
        law_broadcast_keeps_wf(state, payload, id);
    }
}

proof fn lemma_clear_cards(state: RouterView, slots: Seq<(Seq<char>, u64)>)
    requires
        state.wf(),
    ensures
        state.clear_cards(slots).wf(),
        state.clear_cards(slots).handoff == state.handoff,
        state.clear_cards(slots).last_process == state.last_process,
        state.clear_cards(slots).activity_seq == state.activity_seq,
    decreases slots.len(),
{
    if slots.len() > 0 {
        lemma_clear_cards(state, slots.drop_last());
        lemma_clear_card(
            state.clear_cards(slots.drop_last()),
            slots.last().0,
            slots.last().1,
        );
    }
}

proof fn lemma_fewer_cards(state: RouterView, app: Seq<char>)
    requires
        state.wf(),
    ensures
        (RouterView { last_process: without(state.last_process, app), ..state }).wf(),
        lookup(without(state.last_process, app), app) is None,
{
    lemma_without(state.last_process, app);
    let less = RouterView { last_process: without(state.last_process, app), ..state };
    assert forall|other: Seq<char>| less.handoff.suppressed(other) implies lookup(
        less.last_process,
        other,
    ) is None by {
        assert(state.handoff.suppressed(other));
        if other != app {
            lemma_without_lookup(state.last_process, app, other);
        }
    }
}

proof fn lemma_withdraw(state: RouterView, app: Seq<char>)
    requires
        state.wf(),
    ensures
        state.withdraw(app).wf(),
        state.withdraw(app).handoff == state.handoff,
        lookup(state.withdraw(app).last_process, app) is None,
{
    if let Some(pid) = lookup(state.last_process, app) {
        lemma_fewer_cards(state, app);
        lemma_clear_card(
            RouterView { last_process: without(state.last_process, app), ..state },
            app,
            pid,
        );
    }
}

proof fn lemma_show(state: RouterView, game: GameView)
    requires
        state.wf(),
        !state.handoff.suppressed(game.id),
    ensures
        state.show(game).wf(),
        state.show(game).handoff == state.handoff,
        lookup(state.show(game).last_process, game.id) == Some(game.pid),
        state.show(game).outbox == state.outbox.push(generic_view(game)),
        lookup(state.show(game).cache, game.id) matches Some(card) && card.0 == generic_view(game),
{
    let listed = RouterView {
        last_process: with(state.last_process, game.id, game.pid),
        ..state
    };
    law_table_update(state.last_process, game.id, game.pid, game.id);
    assert forall|other: Seq<char>| listed.handoff.suppressed(other) implies lookup(
        listed.last_process,
        other,
    ) is None by {
        assert(state.handoff.suppressed(other));
        law_table_update(state.last_process, game.id, game.pid, other);
    }
    law_broadcast_keeps_wf(listed, generic_view(game), game.id);
    law_publish_enters_cache(state.cache, state.activity_seq, game.id, generic_view(game));
}

proof fn lemma_show_all(state: RouterView, games: Seq<GameView>)
    requires
        state.wf(),
        forall|i: int|
            0 <= i < games.len() ==> !state.handoff.suppressed((#[trigger] games[i]).id),
    ensures
        state.show_all(games).wf(),
        state.show_all(games).handoff == state.handoff,
    decreases games.len(),
{
    if games.len() > 0 {
        let front = games.drop_last();
        assert forall|i: int| 0 <= i < front.len() implies !state.handoff.suppressed(
            (#[trigger] front[i]).id,
        ) by {
            assert(front[i] == games[i]);
        }
        lemma_show_all(state, front);
        assert(!state.handoff.suppressed(games[games.len() - 1].id));
        lemma_show(state.show_all(front), games.last());
    }
}

proof fn lemma_lookup_keyed(scans: Seq<(Seq<char>, GameView)>, app: Seq<char>)
    requires
        keyed(scans),
    ensures
        lookup(scans, app) matches Some(game) ==> game.id == app,
    decreases scans.len(),
{
    if scans.len() > 0 {
        assert(scans[scans.len() - 1].0 == scans[scans.len() - 1].1.id);
        let t = scans.drop_last();
        assert forall|i: int| 0 <= i < t.len() implies (#[trigger] t[i]).0 == t[i].1.id by {
            assert(t[i] == scans[i]);
        }
        lemma_lookup_keyed(t, app);
    }
}

proof fn lemma_resumable(scans: Seq<(Seq<char>, GameView)>, apps: Seq<Seq<char>>, live: Seq<u64>)
    requires
        keyed(scans),
    ensures
        forall|i: int|
            0 <= i < resumable(scans, apps, live).len() ==> apps.contains(
                (#[trigger] resumable(scans, apps, live)[i]).id,
            ) && live.contains(resumable(scans, apps, live)[i].pid),
    decreases apps.len(),
{
    if apps.len() > 0 {
        let front = apps.drop_last();
        lemma_resumable(scans, front, live);
        lemma_lookup_keyed(scans, apps.last());
        let r = resumable(scans, apps, live);
        let rf = resumable(scans, front, live);
        assert forall|i: int| 0 <= i < r.len() implies apps.contains((#[trigger] r[i]).id)
            && live.contains(r[i].pid) by {
            if i < rf.len() {
                assert(r[i] == rf[i]);
                let m = choose|m: int| 0 <= m < front.len() && front[m] == rf[i].id;
                assert(apps[m] == r[i].id);
            } else {
                assert(apps[apps.len() - 1] == r[i].id);
            }
        }
    }
}

proof fn lemma_owned(owners: Seq<(Seq<char>, u64)>, pid: u64, app: Seq<char>)
    requires
        distinct(owners),
        owned_by(owners, pid).contains(app),
    ensures
        lookup(owners, app) == Some(pid),
    decreases owners.len(),
{
    if owners.len() > 0 {
        let t = owners.drop_last();
        assert(distinct(t)) by {
            assert forall|i: int, j: int| 0 <= i < j < t.len() implies (#[trigger] t[i]).0 != (
            #[trigger] t[j]).0 by {
                assert(t[i] == owners[i] && t[j] == owners[j]);
            }
        }
        let k = choose|k: int|
            0 <= k < owned_by(owners, pid).len() && owned_by(owners, pid)[k] == app;
        if owners.last().1 == pid && k == owned_by(owners, pid).len() - 1 {
        } else {
            assert(owned_by(t, pid)[k] == app);
            assert(owned_by(t, pid).contains(app));
            lemma_owned(t, pid, app);
            lemma_lookup(t, app);
            let m = choose|m: int| 0 <= m < t.len() && (#[trigger] t[m]).0 == app;
            assert(owners[m].0 == app);
            assert(owners[owners.len() - 1].0 != owners[m].0);
        }
    }
}

/// Releasing a slot keeps the state in order.
proof fn lemma_release(state: RouterView, handoff: HandoffView)
    requires
        state.wf(),
        handoff.wf(),
        handoff.scans == state.handoff.scans,
        forall|app: Seq<char>| #[trigger]
            handoff.suppressed(app) ==> state.handoff.suppressed(app),
    ensures
        (RouterView { handoff, ..state }).wf(),
{
    let after = RouterView { handoff, ..state };
    assert forall|app: Seq<char>| after.handoff.suppressed(app) implies lookup(
        after.last_process,
        app,
    ) is None by {
        assert(state.handoff.suppressed(app));
    }
}

proof fn lemma_clear_suppressed(handoff: HandoffView, app: Seq<char>, pid: u64, other: Seq<char>)
    ensures
        handoff.clear(app, pid).suppressed(other) ==> handoff.suppressed(other),
        handoff.clears(app, pid) ==> !handoff.clear(app, pid).suppressed(app),
{
    if handoff.clears(app, pid) {
        lemma_without(handoff.owners, app);
        if other != app {
            lemma_without_lookup(handoff.owners, app, other);
        }
    }
}

proof fn lemma_released_suppressed(owners: Seq<(Seq<char>, u64)>, pid: u64, other: Seq<char>)
    requires
        distinct(owners),
    ensures
        lookup(crate::handoff::released(owners, pid), other) is Some ==> lookup(owners, other)
            is Some && lookup(owners, other) != Some(pid),
    decreases owners.len(),
{
    if owners.len() > 0 {
        let t = owners.drop_last();
        assert(distinct(t)) by {
            assert forall|i: int, j: int| 0 <= i < j < t.len() implies (#[trigger] t[i]).0 != (
            #[trigger] t[j]).0 by {
                assert(t[i] == owners[i] && t[j] == owners[j]);
            }
        }
        lemma_released_suppressed(t, pid, other);
        let r = crate::handoff::released(owners, pid);
        let rt = crate::handoff::released(t, pid);
        if owners.last().1 == pid {
            if lookup(r, other) is Some {
                lemma_lookup(t, other);
                let m = choose|m: int| 0 <= m < t.len() && (#[trigger] t[m]).0 == other;
                assert(owners[m].0 == other);
                assert(owners[owners.len() - 1].0 != owners[m].0);
            }
        } else {
            assert(r.drop_last() == rt);
        }
    }
}

proof fn lemma_sdk_publish(state: RouterView, cmd: CmdView)
    requires
        state.wf(),
    ensures
        state.sdk_publish(cmd).wf(),
        state.sdk_publish(cmd).recent == state.recent,
{
    if let Some(activity) = cmd.activity() {
        if let Some(app) = activity.application_id {
            let pid = cmd.pid();
            let game = GameView { id: app, name: app, pid, start: 0 };
            law_handoff_keeps_wf(state.handoff, app, pid, game);
            // The generic card leaves first and the owner enters then: the
            // order does not matter to either table.
            lemma_withdraw(state, app);
            let gone = state.withdraw(app);
            let taken = RouterView { handoff: state.handoff.publish(app, pid), ..state };
            let after = taken.withdraw(app);
            assert(after == RouterView { handoff: taken.handoff, ..gone });
            assert forall|other: Seq<char>| after.handoff.suppressed(other) implies lookup(
                after.last_process,
                other,
            ) is None by {
                law_publish_then_clear(state.handoff, app, pid, other);
                if other != app {
                    assert(gone.handoff.suppressed(other));
                }
            }
        }
    }
}

proof fn lemma_resume(state: RouterView, cmd: CmdView, live: Seq<u64>)
    requires
        state.wf(),
    ensures
        state.resume(cmd, live).wf(),
{
    if genuine_clear(cmd) {
        let pid = cmd.pid();
        let dummy = GameView { id: Seq::empty(), name: Seq::empty(), pid, start: 0 };
        match cmd.application_id {
            Some(app) => {
                if state.handoff.clears(app, pid) {
                    let handoff = state.handoff.clear(app, pid);
                    law_handoff_keeps_wf(state.handoff, app, pid, dummy);
                    assert forall|other: Seq<char>| #[trigger]
                        handoff.suppressed(other) implies state.handoff.suppressed(other) by {
                        lemma_clear_suppressed(state.handoff, app, pid, other);
                    }
                    lemma_release(state, handoff);
                    let games = resumable(state.handoff.scans, seq![app], live);
                    lemma_resumable(state.handoff.scans, seq![app], live);
                    lemma_clear_suppressed(state.handoff, app, pid, app);
                    assert forall|i: int| 0 <= i < games.len() implies !handoff.suppressed(
                        (#[trigger] games[i]).id,
                    ) by {
                        assert(seq![app].contains(games[i].id));
                    }
                    lemma_show_all(RouterView { handoff, ..state }, games);
                }
            },
            None => {
                let handoff = state.handoff.clear_pid(pid);
                law_handoff_keeps_wf(state.handoff, Seq::empty(), pid, dummy);
                assert forall|other: Seq<char>| #[trigger]
                    handoff.suppressed(other) implies state.handoff.suppressed(other) by {
                    lemma_released_suppressed(state.handoff.owners, pid, other);
                }
                lemma_release(state, handoff);
                let apps = owned_by(state.handoff.owners, pid);
                let games = resumable(state.handoff.scans, apps, live);
                lemma_resumable(state.handoff.scans, apps, live);
                assert forall|i: int| 0 <= i < games.len() implies !handoff.suppressed(
                    (#[trigger] games[i]).id,
                ) by {
                    lemma_owned(state.handoff.owners, pid, games[i].id);
                    lemma_released_suppressed(state.handoff.owners, pid, games[i].id);
                }
                lemma_show_all(RouterView { handoff, ..state }, games);
            },
        }
    }
}

/// An activity command keeps the state in order: the cache stays bounded and
/// free of doubles, and no generic card stands in a slot that a live
/// publisher owns.
pub proof fn law_set_activity_keeps_wf(state: RouterView, sent: CmdView, now_ms: u64, live: Seq<u64>)
    requires
        state.wf(),
    ensures
        state.set_activity(sent, now_ms, live).wf(),
{
    let cmd = fixed_cmd(sent);
    if !state.floods(cmd, now_ms) {
        let seen = state.guarded(cmd, now_ms);
        assert(exclusive(seen)) by {
            assert forall|app: Seq<char>| seen.handoff.suppressed(app) implies lookup(
                seen.last_process,
                app,
            ) is None by {
                assert(state.handoff.suppressed(app));
            }
        }
        if let Some(payload) = activity_payload(cmd) {
            lemma_sdk_publish(seen, cmd);
            let taken = seen.sdk_publish(cmd);
            lemma_resume(taken, cmd, live);
            law_broadcast_keeps_wf(taken.resume(cmd, live), payload, decimal(cmd.pid() as nat));
        }
    }
}

/// A scanner report keeps the state in order.
pub proof fn law_scan_keeps_wf(state: RouterView, input: ProcInput, live: Seq<u64>)
    requires
        state.wf(),
    ensures
        state.scan(input, live).wf(),
{
    match input {
        ProcInput::Cleared => {
            let dummy = GameView { id: Seq::empty(), name: Seq::empty(), pid: 0, start: 0 };
            law_handoff_keeps_wf(state.handoff, Seq::empty(), 0, dummy);
            let forgotten = RouterView {
                handoff: state.handoff.unscanned(),
                last_process: Seq::empty(),
                ..state
            };
            assert(forgotten.wf());
            lemma_clear_cards(forgotten, ordered(state.last_process, true));
            let emptied = forgotten.clear_cards(ordered(state.last_process, true));
            lemma_clear_cards(emptied, ghosts(emptied.cache, live));
        },
        ProcInput::Detected(found) => {
            let game = found@;
            law_handoff_keeps_wf(state.handoff, game.id, game.pid, game);
            let remembered = RouterView { handoff: state.handoff.scanned(game), ..state };
            lemma_without(state.handoff.scans, game.id);
            assert(keyed(remembered.handoff.scans)) by {
                let base = without(state.handoff.scans, game.id);
                assert forall|i: int| 0 <= i < remembered.handoff.scans.len() implies (
                #[trigger] remembered.handoff.scans[i]).0 == remembered.handoff.scans[i].1.id by {
                    if i < base.len() {
                        let m = choose|m: int|
                            0 <= m < state.handoff.scans.len() && state.handoff.scans[m] == base[i];
                        assert(state.handoff.scans[m].0 == state.handoff.scans[m].1.id);
                    }
                }
            }
            assert(exclusive(remembered)) by {
                assert forall|app: Seq<char>| remembered.handoff.suppressed(app) implies lookup(
                    remembered.last_process,
                    app,
                ) is None by {
                    assert(state.handoff.suppressed(app));
                }
            }
            if remembered.handoff.suppressed(game.id) {
                lemma_withdraw(remembered, game.id);
            } else {
                lemma_show(remembered, game);
            }
        },
        ProcInput::Removed(name, pid) => {
            let app = name@;
            let dummy = GameView { id: app, name: app, pid, start: 0 };
            law_handoff_keeps_wf(state.handoff, app, pid, dummy);
            let forgotten = RouterView { handoff: state.handoff.removed(app, pid), ..state };
            lemma_without(state.handoff.scans, app);
            assert(keyed(forgotten.handoff.scans)) by {
                let base = forgotten.handoff.scans;
                assert forall|i: int| 0 <= i < base.len() implies (#[trigger] base[i]).0
                    == base[i].1.id by {
                    if base == without(state.handoff.scans, app) {
                        let m = choose|m: int|
                            0 <= m < state.handoff.scans.len() && state.handoff.scans[m] == base[i];
                        assert(state.handoff.scans[m].0 == state.handoff.scans[m].1.id);
                    }
                }
            }
            assert(exclusive(forgotten)) by {
                assert forall|other: Seq<char>| forgotten.handoff.suppressed(other) implies lookup(
                    forgotten.last_process,
                    other,
                ) is None by {
                    assert(state.handoff.suppressed(other));
                }
            }
            lemma_withdraw(forgotten, app);
        },
    }
}


proof fn lemma_cache_lookup(cache: CacheView, id: Seq<char>)
    ensures
        lookup(cache, id) matches Some(card) ==> cache.contains((id, card)),
    decreases cache.len(),
{
    if cache.len() > 0 {
        if cache.last().0 == id {
            assert(cache[cache.len() - 1] == (id, cache.last().1));
        } else {
            lemma_cache_lookup(cache.drop_last(), id);
            if let Some(card) = lookup(cache, id) {
                let t = cache.drop_last();
                let i = choose|i: int| 0 <= i < t.len() && t[i] == (id, card);
                assert(cache[i] == (id, card));
            }
        }
    }
}

/// An accepted publish is what its publisher shows afterwards, with its time
/// stamps in milliseconds, and a late joiner is sent it.
pub proof fn law_publish_is_shown(state: RouterView, sent: CmdView, now_ms: u64, live: Seq<u64>)
    requires
        state.wf(),
        !state.floods(fixed_cmd(sent), now_ms),
        activity_payload(fixed_cmd(sent)) is Some,
        sent.activity() is Some,
    ensures
        ({
            let cmd = fixed_cmd(sent);
            let after = state.set_activity(sent, now_ms, live);
            lookup(after.cache, decimal(cmd.pid() as nat)) matches Some(card)
                && !card.0.is_clear && Some(card.0.activity_json) == cmd.fingerprint()
        }),
{
    let cmd = fixed_cmd(sent);
    let id = decimal(cmd.pid() as nat);
    let payload = activity_payload(cmd)->0;
    let seen = state.guarded(cmd, now_ms);
    assert(seen.wf()) by {
        assert forall|app: Seq<char>| seen.handoff.suppressed(app) implies lookup(
            seen.last_process,
            app,
        ) is None by {
            assert(state.handoff.suppressed(app));
        }
    }
    lemma_sdk_publish(seen, cmd);
    let taken = seen.sdk_publish(cmd);
    if changes(lookup(taken.cache, id), cmd.fingerprint()) {
        law_publish_enters_cache(taken.cache, taken.activity_seq, id, payload);
    }
}

proof fn lemma_sdk_publish_owns(state: RouterView, cmd: CmdView, app: Seq<char>)
    requires
        cmd.activity() matches Some(activity) && activity.application_id == Some(app),
    ensures
        state.sdk_publish(cmd).handoff == state.handoff.publish(app, cmd.pid()),
{
    let taken = RouterView { handoff: state.handoff.publish(app, cmd.pid()), ..state };
    if let Some(pid) = lookup(state.last_process, app) {
        assert(taken.withdraw(app).handoff == taken.handoff);
    }
}

/// The games whose generic cards a command brings back.
pub open spec fn brought_back(state: RouterView, cmd: CmdView, live: Seq<u64>) -> Seq<GameView> {
    if !genuine_clear(cmd) {
        Seq::empty()
    } else {
        match cmd.application_id {
            Some(app) => if state.handoff.clears(app, cmd.pid()) {
                resumable(state.handoff.scans, seq![app], live)
            } else {
                Seq::empty()
            },
            None => resumable(
                state.handoff.scans,
                owned_by(state.handoff.owners, cmd.pid()),
                live,
            ),
        }
    }
}

/// Whether a clear that takes no card down brings back a generic card under
/// the very number of its publisher: an application id that is also a pid.
pub open spec fn clashes(state: RouterView, cmd: CmdView, live: Seq<u64>) -> bool {
    let id = decimal(cmd.pid() as nat);
    lookup(state.cache, id) is None && exists|i: int|
        0 <= i < brought_back(state, cmd, live).len() && (#[trigger] brought_back(
            state,
            cmd,
            live,
        )[i]).id == id
}

proof fn lemma_pruned_contains(s: CacheView, card: (Seq<char>, (CachedView, u64)))
    requires
        pruned(s).contains(card),
    ensures
        s.contains(card),
    decreases s.len(),
{
    if s.len() > MAX_CACHED_ACTIVITIES {
        lemma_oldest(s);
        let o = oldest(s);
        let r = s.remove(o);
        lemma_pruned_contains(r, card);
        let i = choose|i: int| 0 <= i < r.len() && r[i] == card;
        if i < o {
            assert(s[i] == card);
        } else {
            assert(s[i + 1] == card);
        }
    }
}

proof fn lemma_pruned_lookup(s: CacheView, id: Seq<char>)
    requires
        lookup(s, id) is None,
    ensures
        lookup(pruned(s), id) is None,
{
    if lookup(pruned(s), id) is Some {
        lemma_lookup(pruned(s), id);
        let i = choose|i: int| 0 <= i < pruned(s).len() && (#[trigger] pruned(s)[i]).0 == id;
        lemma_pruned_contains(s, pruned(s)[i]);
        let k = choose|k: int| 0 <= k < s.len() && s[k] == pruned(s)[i];
        assert(s[k].0 == id);
        lemma_lookup(s, id);
    }
}

/// Generic cards leave other slots and the owners alone.
proof fn lemma_show_all_elsewhere(state: RouterView, games: Seq<GameView>, id: Seq<char>)
    ensures
        state.show_all(games).handoff == state.handoff,
        lookup(state.cache, id) is None && (forall|i: int|
            0 <= i < games.len() ==> (#[trigger] games[i]).id != id) ==> lookup(
            state.show_all(games).cache,
            id,
        ) is None,
    decreases games.len(),
{
    if games.len() > 0 {
        let front = games.drop_last();
        let game = games.last();
        lemma_show_all_elsewhere(state, front, id);
        let before = state.show_all(front);
        if lookup(state.cache, id) is None && (forall|i: int|
            0 <= i < games.len() ==> (#[trigger] games[i]).id != id) {
            assert forall|i: int| 0 <= i < front.len() implies (#[trigger] front[i]).id != id by {
                assert(front[i] == games[i]);
            }
            assert(games[games.len() - 1].id != id);
            let card = (generic_view(game), next_seq(before.activity_seq));
            law_table_update(before.cache, game.id, card, id);
            lemma_pruned_lookup(with(before.cache, game.id, card), id);
        }
    }
}

proof fn lemma_released_owns_nothing(owners: Seq<(Seq<char>, u64)>, pid: u64)
    ensures
        owned_by(released(owners, pid), pid).len() == 0,
        released(released(owners, pid), pid) == released(owners, pid),
    decreases owners.len(),
{
    if owners.len() > 0 {
        let front = owners.drop_last();
        lemma_released_owns_nothing(front, pid);
        if owners.last().1 != pid {
            assert(released(owners, pid).drop_last() =~= released(front, pid));
        }
    }
}

/// What a clear leaves behind: its publisher owns nothing any more, and shows
/// nothing unless the two numbers clash.
proof fn lemma_after_clear(state: RouterView, cmd: CmdView, now_ms: u64, live: Seq<u64>)
    requires
        state.wf(),
        !state.floods(cmd, now_ms),
        activity_payload(cmd) is Some,
        cmd.activity() is None,
        !clashes(state, cmd, live),
    ensures
        ({
            let after = state.routed(cmd, now_ms, live);
            &&& lookup(after.cache, decimal(cmd.pid() as nat)) is None
            &&& genuine_clear(cmd) ==> match cmd.application_id {
                Some(app) => !after.handoff.clears(app, cmd.pid()),
                None => after.handoff == after.handoff.clear_pid(cmd.pid()) && owned_by(
                    after.handoff.owners,
                    cmd.pid(),
                ).len() == 0,
            }
        }),
{
    let id = decimal(cmd.pid() as nat);
    let seen = state.guarded(cmd, now_ms);
    let resumed = seen.resume(cmd, live);
    let games = brought_back(state, cmd, live);
    assert(seen.sdk_publish(cmd) == seen);
    if genuine_clear(cmd) {
        match cmd.application_id {
            Some(app) => {
                let handoff = state.handoff.clear(app, cmd.pid());
                lemma_show_all_elsewhere(RouterView { handoff, ..seen }, games, id);
                lemma_without(state.handoff.owners, app);
            },
            None => {
                let handoff = state.handoff.clear_pid(cmd.pid());
                lemma_show_all_elsewhere(RouterView { handoff, ..seen }, games, id);
                lemma_released_owns_nothing(state.handoff.owners, cmd.pid());
            },
        }
    }
    if let Some(card) = lookup(state.cache, id) {
        lemma_cache_lookup(state.cache, id);
        let i = choose|i: int| 0 <= i < state.cache.len() && state.cache[i] == (id, card);
        assert(!state.cache[i].1.0.is_clear);
        lemma_without(resumed.cache, id);
    }
}

/// Whether a publish for an application whose id is the very number of its
/// publisher withdraws the generic card under that number.
pub open spec fn withdraws_own(state: RouterView, cmd: CmdView) -> bool {
    let id = decimal(cmd.pid() as nat);
    lookup(state.last_process, id) is Some && (cmd.activity() matches Some(activity)
        && activity.application_id == Some(id))
}

/// Whether a payload is for another slot than `id`: the clear or the generic
/// card of another one.
pub open spec fn elsewhere(payload: CachedView, id: Seq<char>) -> bool {
    ||| exists|game: GameView| game.id != id && payload == #[trigger] generic_view(game)
    ||| exists|pid: u64, app: Seq<char>|
        app != id && #[trigger] clear_payload(pid, app) == Some(payload)
}

/// Whether nothing was sent for the slot `id` between two states, and its card
/// is as it was.
pub open spec fn quiet_for(before: RouterView, after: RouterView, id: Seq<char>) -> bool {
    &&& lookup(after.cache, id) == lookup(before.cache, id)
    &&& before.outbox.len() <= after.outbox.len()
    &&& after.outbox.take(before.outbox.len() as int) == before.outbox
    &&& forall|k: int|
        before.outbox.len() <= k < after.outbox.len() ==> elsewhere(
            #[trigger] after.outbox[k],
            id,
        )
}

/// A command that changes nothing of what its publisher shows sends nothing
/// for its slot and leaves its card as it is. Not so where the numbers of the
/// publisher and of an application clash.
pub proof fn law_unchanged_card_is_silent(
    state: RouterView,
    sent: CmdView,
    now_ms: u64,
    live: Seq<u64>,
)
    requires
        state.wf(),
        !changes(
            lookup(state.cache, decimal(sent.pid() as nat)),
            fixed_cmd(sent).fingerprint(),
        ),
        !clashes(state, fixed_cmd(sent), live),
        !withdraws_own(state, fixed_cmd(sent)),
    ensures
        quiet_for(
            state,
            state.set_activity(sent, now_ms, live),
            decimal(sent.pid() as nat),
        ),
{
    let cmd = fixed_cmd(sent);
    let id = decimal(cmd.pid() as nat);
    let after = state.set_activity(sent, now_ms, live);
    assert(state.outbox.take(state.outbox.len() as int) =~= state.outbox);
    if !state.floods(cmd, now_ms) && activity_payload(cmd) is Some {
        let seen = state.guarded(cmd, now_ms);
        if cmd.activity() is Some {
            if let Some(app) = cmd.activity()->0.application_id {
                if let Some(pid) = lookup(state.last_process, app) {
                    assert(app != id);
                    lemma_without_lookup(state.cache, app, id);
                    if let Some(payload) = clear_payload(pid, app) {
                        assert(after.outbox == state.outbox.push(payload));
                        assert(after.outbox.take(state.outbox.len() as int) =~= state.outbox);
                        assert(elsewhere(payload, id));
                    }
                }
            }
        } else {
            assert(seen.sdk_publish(cmd) == seen);
            lemma_no_card(state, cmd);
            lemma_brought_back_elsewhere(state, seen, cmd, live);
        }
    }
}

/// A publisher that a clear does not change shows no card.
proof fn lemma_no_card(state: RouterView, cmd: CmdView)
    requires
        state.wf(),
        cmd.activity() is None,
        !changes(lookup(state.cache, decimal(cmd.pid() as nat)), cmd.fingerprint()),
    ensures
        lookup(state.cache, decimal(cmd.pid() as nat)) is None,
{
    let id = decimal(cmd.pid() as nat);
    if let Some(card) = lookup(state.cache, id) {
        lemma_cache_lookup(state.cache, id);
        let i = choose|i: int| 0 <= i < state.cache.len() && state.cache[i] == (id, card);
        assert(!state.cache[i].1.0.is_clear);
    }
}

/// What a clear brings back stands in other slots, unless the numbers clash.
proof fn lemma_brought_back_elsewhere(
    state: RouterView,
    seen: RouterView,
    cmd: CmdView,
    live: Seq<u64>,
)
    requires
        seen.handoff == state.handoff,
        seen.cache == state.cache,
        seen.outbox == state.outbox,
        lookup(state.cache, decimal(cmd.pid() as nat)) is None,
        !clashes(state, cmd, live),
    ensures
        quiet_for(state, seen.resume(cmd, live), decimal(cmd.pid() as nat)),
{
    let id = decimal(cmd.pid() as nat);
    let games = brought_back(state, cmd, live);
    let resumed = seen.resume(cmd, live);
    assert(state.outbox.take(state.outbox.len() as int) =~= state.outbox);
    if genuine_clear(cmd) && (cmd.application_id matches Some(app) ==> state.handoff.clears(
        app,
        cmd.pid(),
    )) {
        let handoff = match cmd.application_id {
            Some(app) => state.handoff.clear(app, cmd.pid()),
            None => state.handoff.clear_pid(cmd.pid()),
        };
        let released = RouterView { handoff, ..seen };
        assert(resumed == released.show_all(games));
        lemma_show_all_elsewhere(released, games, id);
        lemma_show_all_outbox(released, games);
        assert(resumed.outbox.take(state.outbox.len() as int) =~= state.outbox);
        assert forall|k: int| state.outbox.len() <= k < resumed.outbox.len() implies elsewhere(
            #[trigger] resumed.outbox[k],
            id,
        ) by {
            let game = games[k - state.outbox.len()];
            assert(game.id != id);
            assert(resumed.outbox[state.outbox.len() + (k - state.outbox.len())] == generic_view(
                game,
            ));
        }
    }
}

/// The same command again, activity or clear, at any later time, sends
/// nothing for the slot of its publisher and leaves its card as it is; where
/// the first was not dropped as a repeat, it sends nothing at all and changes
/// no card. A first that was dropped leaves the card to others: the second is
/// silent as long as the card still carries the same activity. Not so where
/// the numbers of the publisher and of an application clash and the second is
/// let through.
pub proof fn law_republish_is_silent(
    state: RouterView,
    sent: CmdView,
    now_ms: u64,
    later_ms: u64,
    live: Seq<u64>,
    live_later: Seq<u64>,
)
    requires
        state.wf(),
        state.floods(fixed_cmd(sent), now_ms) && !state.floods(fixed_cmd(sent), later_ms) ==> {
            &&& !changes(
                lookup(state.cache, decimal(sent.pid() as nat)),
                fixed_cmd(sent).fingerprint(),
            )
            &&& !clashes(state, fixed_cmd(sent), live_later)
            &&& !withdraws_own(state, fixed_cmd(sent))
        },
        !state.floods(fixed_cmd(sent), now_ms) && clashes(state, fixed_cmd(sent), live)
            ==> state.set_activity(sent, now_ms, live).floods(fixed_cmd(sent), later_ms),
    ensures
        ({
            let once = state.set_activity(sent, now_ms, live);
            let twice = once.set_activity(sent, later_ms, live_later);
            &&& quiet_for(once, twice, decimal(sent.pid() as nat))
            &&& !state.floods(fixed_cmd(sent), now_ms) ==> twice.outbox == once.outbox
                && twice.cache == once.cache && twice.last_process == once.last_process
        }),
{
    let cmd = fixed_cmd(sent);
    let once = state.set_activity(sent, now_ms, live);
    assert(once.outbox.take(once.outbox.len() as int) =~= once.outbox);
    if state.floods(cmd, now_ms) {
        if !state.floods(cmd, later_ms) {
            law_unchanged_card_is_silent(state, sent, later_ms, live_later);
        }
    } else if activity_payload(cmd) is Some && !once.floods(cmd, later_ms) {
        law_set_activity_keeps_wf(state, sent, now_ms, live);
        if cmd.activity() is Some {
            law_publish_is_shown(state, sent, now_ms, live);
            if let Some(app) = cmd.activity()->0.application_id {
                lemma_sdk_publish_owns(state.guarded(cmd, now_ms), cmd, app);
                law_publish_then_clear(state.handoff, app, cmd.pid(), app);
                assert(once.handoff == state.handoff.publish(app, cmd.pid()));
                assert(once.handoff.suppressed(app));
                assert(lookup(once.last_process, app) is None);
            }
        } else {
            lemma_after_clear(state, cmd, now_ms, live);
            let seen = once.guarded(cmd, later_ms);
            assert(seen.sdk_publish(cmd) == seen);
            if genuine_clear(cmd) && cmd.application_id is None {
                let apps = owned_by(seen.handoff.owners, cmd.pid());
                assert(resumable(seen.handoff.scans, apps, live_later).len() == 0);
            }
        }
    }
}

/// The clear of a publisher that shows a card takes the card out of the
/// replay cache and is sent.
pub proof fn law_clear_removes_card(state: RouterView, cmd: CmdView, now_ms: u64, live: Seq<u64>)
    requires
        state.wf(),
        !state.floods(cmd, now_ms),
        activity_payload(cmd) is Some,
        cmd.activity() is None,
        lookup(state.cache, decimal(cmd.pid() as nat)) is Some,
    ensures
        ({
            let after = state.set_activity(cmd, now_ms, live);
            &&& lookup(after.cache, decimal(cmd.pid() as nat)) is None
            &&& after.outbox.len() > state.outbox.len()
            &&& after.outbox.last() == activity_payload(cmd)->0
        }),
{
    let id = decimal(cmd.pid() as nat);
    let seen = state.guarded(cmd, now_ms);
    lemma_cache_lookup(state.cache, id);
    let card = lookup(state.cache, id)->0;
    let i = choose|i: int| 0 <= i < state.cache.len() && state.cache[i] == (id, card);
    assert(!state.cache[i].1.0.is_clear);
    let resumed = seen.resume(cmd, live);
    lemma_resume_outbox(seen, cmd, live);
    lemma_without(resumed.cache, id);
}

proof fn lemma_show_all_outbox(state: RouterView, games: Seq<GameView>)
    ensures
        state.show_all(games).outbox.len() == state.outbox.len() + games.len(),
        forall|i: int|
            0 <= i < games.len() ==> state.show_all(games).outbox[state.outbox.len() + i]
                == generic_view(#[trigger] games[i]),
        forall|i: int|
            0 <= i < state.outbox.len() ==> (#[trigger] state.show_all(games).outbox[i])
                == state.outbox[i],
    decreases games.len(),
{
    if games.len() > 0 {
        let front = games.drop_last();
        lemma_show_all_outbox(state, front);
        let before = state.show_all(front);
        assert(state.show_all(games).outbox == before.outbox.push(generic_view(games.last())));
        assert forall|i: int| 0 <= i < games.len() implies state.show_all(
            games,
        ).outbox[state.outbox.len() + i] == generic_view(#[trigger] games[i]) by {
            if i < front.len() {
                assert(front[i] == games[i]);
            }
        }
    }
}

proof fn lemma_resume_outbox(state: RouterView, cmd: CmdView, live: Seq<u64>)
    ensures
        state.resume(cmd, live).outbox.len() >= state.outbox.len(),
{
    if genuine_clear(cmd) {
        match cmd.application_id {
            Some(app) => {
                lemma_show_all_outbox(
                    RouterView { handoff: state.handoff.clear(app, cmd.pid()), ..state },
                    resumable(state.handoff.scans, seq![app], live),
                );
            },
            None => {
                lemma_show_all_outbox(
                    RouterView { handoff: state.handoff.clear_pid(cmd.pid()), ..state },
                    resumable(
                        state.handoff.scans,
                        owned_by(state.handoff.owners, cmd.pid()),
                        live,
                    ),
                );
            },
        }
    }
}

/// When the owner of a slot clears and the scanned game of that slot still
/// runs, the generic card is shown again at once; when it does not run, no
/// generic card appears.
pub proof fn law_owner_clear_resumes_generic(
    state: RouterView,
    cmd: CmdView,
    now_ms: u64,
    live: Seq<u64>,
    app: Seq<char>,
    game: GameView,
)
    requires
        state.wf(),
        !state.floods(cmd, now_ms),
        activity_payload(cmd) is Some,
        genuine_clear(cmd),
        cmd.application_id == Some(app),
        state.handoff.clears(app, cmd.pid()),
        lookup(state.handoff.scans, app) == Some(game),
    ensures
        ({
            let after = state.set_activity(cmd, now_ms, live);
            &&& !after.handoff.suppressed(app)
            &&& live.contains(game.pid) ==> lookup(after.last_process, app) == Some(game.pid)
                && after.outbox.contains(generic_view(game))
            &&& !live.contains(game.pid) ==> lookup(after.last_process, app) is None
        }),
{
    let seen = state.guarded(cmd, now_ms);
    let released = RouterView { handoff: state.handoff.clear(app, cmd.pid()), ..seen };
    let games = resumable(state.handoff.scans, seq![app], live);
    assert(seq![app].drop_last() == Seq::<Seq<char>>::empty());
    assert(resumable(state.handoff.scans, seq![app].drop_last(), live) == Seq::<
        GameView,
    >::empty());
    lemma_lookup_keyed(state.handoff.scans, app);
    lemma_clear_suppressed(state.handoff, app, cmd.pid(), app);
    assert(state.handoff.suppressed(app));
    let resumed = seen.resume(cmd, live);
    assert(resumed == released.show_all(games));
    if live.contains(game.pid) {
        assert(games =~= seq![game]);
        assert(games.drop_last() =~= Seq::<GameView>::empty());
        assert(released.show_all(games.drop_last()) == released);
        assert(resumed == released.show(game));
        law_table_update(released.last_process, game.id, game.pid, game.id);
        assert(resumed.outbox == released.outbox.push(generic_view(game)));
        let after = state.set_activity(cmd, now_ms, live);
        assert(after.outbox[released.outbox.len() as int] == generic_view(game));
    } else {
        assert(games =~= Seq::<GameView>::empty());
        assert(resumed == released);
    }
}

/// A report that an older process of a slot vanished touches no card.
pub proof fn law_stale_removal_is_ignored(state: RouterView, app: Seq<char>, pid: u64)
    requires
        lookup(state.last_process, app) != Some(pid),
    ensures
        state.removed(app, pid).outbox == state.outbox,
        state.removed(app, pid).cache == state.cache,
        state.removed(app, pid).last_process == state.last_process,
{
}

/// A game that is shown already is not sent again.
pub proof fn law_detection_repeat_is_silent(state: RouterView, game: GameView)
    requires
        lookup(state.last_process, game.id) is Some,
        !state.handoff.suppressed(game.id),
    ensures
        state.detected(game).outbox == state.outbox,
        state.detected(game).cache == state.cache,
{
}

/// A detected game in a free slot is shown; in a slot that a live publisher
/// owns it is not.
pub proof fn law_detected_game_is_shown(state: RouterView, game: GameView)
    requires
        state.wf(),
    ensures
        !state.handoff.suppressed(game.id) ==> lookup(state.detected(game).last_process, game.id)
            is Some,
        state.handoff.suppressed(game.id) ==> lookup(state.detected(game).last_process, game.id)
            is None,
        !state.handoff.suppressed(game.id) && lookup(state.last_process, game.id) is None
            ==> state.detected(game).outbox == state.outbox.push(generic_view(game)),
{
    let remembered = RouterView { handoff: state.handoff.scanned(game), ..state };
    law_table_update(state.last_process, game.id, game.pid, game.id);
    lemma_without(state.last_process, game.id);
}

/// Whether a card belongs to a process that is named and does not run.
pub open spec fn ghost_card(card: (Seq<char>, (CachedView, u64)), live: Seq<u64>) -> bool {
    entry_pid(card.0, json_u64(card.1.0.json, "/pid"@)) matches Some(pid) && !live.contains(pid)
}

proof fn lemma_ghosts(cache: CacheView, live: Seq<u64>)
    ensures
        forall|k: int|
            0 <= k < ghosts(cache, live).len() ==> exists|i: int|
                0 <= i < cache.len() && (#[trigger] cache[i]).0 == (#[trigger] ghosts(
                    cache,
                    live,
                )[k]).0 && ghost_card(cache[i], live),
        forall|i: int|
            0 <= i < cache.len() && ghost_card(#[trigger] cache[i], live) ==> exists|k: int|
                0 <= k < ghosts(cache, live).len() && (#[trigger] ghosts(cache, live)[k]).0
                    == cache[i].0,
    decreases cache.len(),
{
    if cache.len() > 0 {
        let t = cache.drop_last();
        lemma_ghosts(t, live);
        let g = ghosts(cache, live);
        let gt = ghosts(t, live);
        assert forall|k: int| 0 <= k < g.len() implies exists|i: int|
            0 <= i < cache.len() && (#[trigger] cache[i]).0 == (#[trigger] g[k]).0 && ghost_card(
                cache[i],
                live,
            ) by {
            if k < gt.len() {
                assert(g[k] == gt[k]);
                let i = choose|i: int|
                    0 <= i < t.len() && (#[trigger] t[i]).0 == gt[k].0 && ghost_card(t[i], live);
                assert(cache[i] == t[i]);
            } else {
                assert(cache[cache.len() - 1].0 == g[k].0);
            }
        }
        assert forall|i: int| 0 <= i < cache.len() && ghost_card(
            #[trigger] cache[i],
            live,
        ) implies exists|k: int| 0 <= k < g.len() && (#[trigger] g[k]).0 == cache[i].0 by {
            if i < t.len() {
                assert(t[i] == cache[i]);
                let k = choose|k: int| 0 <= k < gt.len() && (#[trigger] gt[k]).0 == t[i].0;
                assert(g[k] == gt[k]);
            } else {
                assert(g[g.len() - 1].0 == cache[i].0);
            }
        }
    }
}

/// Whether some slot of `slots` carries `id`.
pub open spec fn named_in(slots: Seq<(Seq<char>, u64)>, id: Seq<char>) -> bool {
    exists|k: int| 0 <= k < slots.len() && (#[trigger] slots[k]).0 == id
}

/// Every clear can be encoded.
pub open spec fn clears_encode() -> bool {
    forall|pid: u64, id: Seq<char>| (#[trigger] clear_payload(pid, id)) is Some
}

proof fn lemma_clear_cards_cache(state: RouterView, slots: Seq<(Seq<char>, u64)>, id: Seq<char>)
    ensures
        !named_in(slots, id) ==> lookup(state.clear_cards(slots).cache, id) == lookup(
            state.cache,
            id,
        ),
        clears_encode() && named_in(slots, id) ==> lookup(state.clear_cards(slots).cache, id)
            is None,
        forall|i: int|
            0 <= i < state.clear_cards(slots).cache.len() ==> state.cache.contains(
                #[trigger] state.clear_cards(slots).cache[i],
            ),
    decreases slots.len(),
{
    if slots.len() == 0 {
        assert forall|i: int| 0 <= i < state.cache.len() implies state.cache.contains(
            #[trigger] state.cache[i],
        ) by {}
    } else {
        let front = slots.drop_last();
        let (last_id, last_pid) = slots.last();
        lemma_clear_cards_cache(state, front, id);
        let mid = state.clear_cards(front);
        let after = state.clear_cards(slots);
        assert(slots[slots.len() - 1].0 == last_id);
        if named_in(front, id) {
            let k = choose|k: int| 0 <= k < front.len() && (#[trigger] front[k]).0 == id;
            assert(slots[k].0 == id);
        }
        if named_in(slots, id) && id != last_id {
            let k = choose|k: int| 0 <= k < slots.len() && (#[trigger] slots[k]).0 == id;
            assert(front[k].0 == id);
        }
        if let Some(payload) = clear_payload(last_pid, last_id) {
            lemma_without(mid.cache, last_id);
            if id != last_id {
                lemma_without_lookup(mid.cache, last_id, id);
            }
            assert forall|i: int| 0 <= i < after.cache.len() implies state.cache.contains(
                #[trigger] after.cache[i],
            ) by {
                assert(mid.cache.contains(after.cache[i]));
                let m = choose|m: int| 0 <= m < mid.cache.len() && mid.cache[m] == after.cache[i];
                assert(state.cache.contains(mid.cache[m]));
            }
        } else {
            assert(after.cache == mid.cache);
            assert(!clears_encode());
        }
    }
}

proof fn lemma_ordered_names(slots: Seq<(Seq<char>, u64)>, id: Seq<char>)
    ensures
        named_in(ordered(slots, true), id) == named_in(slots, id),
{
    broadcast use vstd::seq_lib::group_to_multiset_ensures;

    law_ordered(slots, true);
    let o = ordered(slots, true);
    if named_in(o, id) {
        let k = choose|k: int| 0 <= k < o.len() && (#[trigger] o[k]).0 == id;
        assert(o.to_multiset().contains(o[k])) by {
            assert(o.contains(o[k]));
        }
        assert(slots.contains(o[k]));
        let m = choose|m: int| 0 <= m < slots.len() && slots[m] == o[k];
        assert(slots[m].0 == id);
    }
    if named_in(slots, id) {
        let k = choose|k: int| 0 <= k < slots.len() && (#[trigger] slots[k]).0 == id;
        assert(slots.to_multiset().contains(slots[k])) by {
            assert(slots.contains(slots[k]));
        }
        assert(o.contains(slots[k]));
        let m = choose|m: int| 0 <= m < o.len() && o[m] == slots[k];
        assert(o[m].0 == id);
    }
}

/// An empty scan clears every generic card; with clears that encode, no card
/// of a dead process is left either. A card of a publisher that shows no
/// generic card and whose process is not known to be dead stays as it was.
pub proof fn law_empty_scan(state: RouterView, live: Seq<u64>, id: Seq<char>)
    requires
        state.wf(),
    ensures
        ({
            let after = state.cleared(live);
            &&& after.last_process.len() == 0
            &&& clears_encode() && lookup(state.last_process, id) is Some ==> lookup(after.cache, id)
                is None
            &&& clears_encode() ==> forall|i: int|
                0 <= i < after.cache.len() ==> !ghost_card(#[trigger] after.cache[i], live)
            &&& lookup(state.last_process, id) is None && lookup(state.cache, id) is Some
                && !ghost_card((id, lookup(state.cache, id)->0), live) ==> lookup(after.cache, id)
                == lookup(state.cache, id)
        }),
{
    let forgotten = RouterView {
        handoff: state.handoff.unscanned(),
        last_process: Seq::empty(),
        ..state
    };
    let shown = ordered(state.last_process, true);
    let emptied = forgotten.clear_cards(shown);
    let dead = ghosts(emptied.cache, live);
    let after = emptied.clear_cards(dead);
    assert(forgotten.wf());
    lemma_clear_cards(forgotten, shown);
    lemma_clear_cards(emptied, dead);
    lemma_clear_cards_cache(forgotten, shown, id);
    lemma_clear_cards_cache(emptied, dead, id);
    lemma_ordered_names(state.last_process, id);
    lemma_lookup(state.last_process, id);
    lemma_ghosts(emptied.cache, live);
    if clears_encode() {
        assert forall|i: int| 0 <= i < after.cache.len() implies !ghost_card(
            #[trigger] after.cache[i],
            live,
        ) by {
            let card = after.cache[i];
            if ghost_card(card, live) {
                assert(emptied.cache.contains(card));
                let m = choose|m: int| 0 <= m < emptied.cache.len() && emptied.cache[m] == card;
                assert(ghost_card(emptied.cache[m], live));
                assert(named_in(dead, card.0));
                lemma_clear_cards_cache(emptied, dead, card.0);
                lemma_lookup(after.cache, card.0);
                assert(after.cache[i].0 == card.0);
            }
        }
        if lookup(state.last_process, id) is Some {
            assert(lookup(emptied.cache, id) is None);
            lemma_lookup(emptied.cache, id);
            if named_in(dead, id) {
            } else {
                assert(lookup(after.cache, id) is None);
            }
        }
    }
    if lookup(state.last_process, id) is None {
        if let Some(card) = lookup(state.cache, id) {
            if !ghost_card((id, card), live) {
                assert(lookup(emptied.cache, id) == Some(card));
                if named_in(dead, id) {
                    let k = choose|k: int| 0 <= k < dead.len() && (#[trigger] dead[k]).0 == id;
                    let i = choose|i: int|
                        0 <= i < emptied.cache.len() && (#[trigger] emptied.cache[i]).0 == dead[k].0
                            && ghost_card(emptied.cache[i], live);
                    lemma_cache_lookup(emptied.cache, id);
                    let j = choose|j: int|
                        0 <= j < emptied.cache.len() && emptied.cache[j] == (id, card);
                    assert(emptied.cache[i].0 == emptied.cache[j].0);
                    assert(i == j);
                    assert(false);
                }
            }
        }
    }
}

/// The owner of a card that a game published is the process that it stands
/// for.
proof fn lemma_publisher(pid: u64, body_pid: Option<u64>)
    requires
        pid != 0,
    ensures
        entry_pid(decimal(pid as nat), body_pid) == Some(pid),
{
    law_decimal_round_trip(pid as nat);
    let text = decimal(pid as nat);
    assert(text.len() > 0);
    assert(crate::text::digit(text[0]));
    assert(crate::text::unsigned_part(text) == text);
}

/// A game that died without a word leaves no card: the next empty scan takes
/// it down, with clears that encode.
pub proof fn law_dead_publisher_is_reaped(state: RouterView, live: Seq<u64>, pid: u64)
    requires
        state.wf(),
        clears_encode(),
        pid != 0,
        !live.contains(pid),
    ensures
        lookup(state.cleared(live).cache, decimal(pid as nat)) is None,
{
    let id = decimal(pid as nat);
    let after = state.cleared(live);
    law_empty_scan(state, live, id);
    if let Some(card) = lookup(after.cache, id) {
        lemma_cache_lookup(after.cache, id);
        let i = choose|i: int| 0 <= i < after.cache.len() && after.cache[i] == (id, card);
        lemma_publisher(pid, json_u64(card.0.json, "/pid"@));
        assert(!ghost_card(after.cache[i], live));
    }
}

/// Whether two lists of running processes agree on everything that matters to
/// `state`.
pub open spec fn agree(state: RouterView, live: Seq<u64>, other: Seq<u64>) -> bool {
    forall|pid: u64| #[trigger]
        state.watched().contains(pid) ==> (live.contains(pid) <==> other.contains(pid))
}

proof fn lemma_owner_watched(cache: CacheView, i: int, pid: u64)
    requires
        0 <= i < cache.len(),
        entry_pid(cache[i].0, json_u64(cache[i].1.0.json, "/pid"@)) == Some(pid),
    ensures
        card_owners(cache).contains(pid),
    decreases cache.len(),
{
    let before = card_owners(cache.drop_last());
    let all = card_owners(cache);
    if i == cache.len() - 1 {
        assert(all[all.len() - 1] == pid);
    } else {
        assert(cache.drop_last()[i] == cache[i]);
        lemma_owner_watched(cache.drop_last(), i, pid);
        let k = choose|k: int| 0 <= k < before.len() && before[k] == pid;
        assert(all[k] == pid);
    }
}

proof fn lemma_ghosts_agree(cache: CacheView, live: Seq<u64>, other: Seq<u64>)
    requires
        forall|i: int|
            0 <= i < cache.len() ==> (entry_pid(
                (#[trigger] cache[i]).0,
                json_u64(cache[i].1.0.json, "/pid"@),
            ) matches Some(pid) ==> (live.contains(pid) <==> other.contains(pid))),
    ensures
        ghosts(cache, live) == ghosts(cache, other),
    decreases cache.len(),
{
    if cache.len() > 0 {
        let t = cache.drop_last();
        assert forall|i: int| 0 <= i < t.len() implies (entry_pid(
            (#[trigger] t[i]).0,
            json_u64(t[i].1.0.json, "/pid"@),
        ) matches Some(pid) ==> (live.contains(pid) <==> other.contains(pid))) by {
            assert(t[i] == cache[i]);
        }
        lemma_ghosts_agree(t, live, other);
        assert(cache[cache.len() - 1] == cache.last());
    }
}

proof fn lemma_clears_keep_cards(state: RouterView, slots: Seq<(Seq<char>, u64)>)
    ensures
        forall|card: (Seq<char>, (CachedView, u64))| #[trigger]
            state.clear_cards(slots).cache.contains(card) ==> state.cache.contains(card),
    decreases slots.len(),
{
    if slots.len() > 0 {
        let before = state.clear_cards(slots.drop_last());
        lemma_clears_keep_cards(state, slots.drop_last());
        lemma_without(before.cache, slots.last().0);
        let after = state.clear_cards(slots);
        assert forall|card: (Seq<char>, (CachedView, u64))| #[trigger]
            after.cache.contains(card) implies state.cache.contains(card) by {
            let i = choose|i: int| 0 <= i < after.cache.len() && after.cache[i] == card;
            if clear_payload(slots.last().1, slots.last().0) is Some {
                assert(after.cache == without(before.cache, slots.last().0));
                assert(before.cache.contains(card));
            } else {
                assert(before.cache[i] == card);
                assert(before.cache.contains(card));
            }
        }
    }
}

proof fn lemma_scan_watched(scans: Seq<(Seq<char>, GameView)>, app: Seq<char>)
    requires
        lookup(scans, app) is Some,
    ensures
        scans.map_values(|scan: (Seq<char>, GameView)| scan.1.pid).contains(
            lookup(scans, app)->0.pid,
        ),
    decreases scans.len(),
{
    let pids = scans.map_values(|scan: (Seq<char>, GameView)| scan.1.pid);
    if scans.last().0 == app {
        assert(pids[pids.len() - 1] == scans.last().1.pid);
    } else {
        let t = scans.drop_last();
        lemma_scan_watched(t, app);
        let rest = t.map_values(|scan: (Seq<char>, GameView)| scan.1.pid);
        let k = choose|k: int| 0 <= k < rest.len() && rest[k] == lookup(scans, app)->0.pid;
        assert(pids[k] == rest[k]);
    }
}

proof fn lemma_resumable_agree(
    state: RouterView,
    apps: Seq<Seq<char>>,
    live: Seq<u64>,
    other: Seq<u64>,
)
    requires
        agree(state, live, other),
    ensures
        resumable(state.handoff.scans, apps, live) == resumable(state.handoff.scans, apps, other),
    decreases apps.len(),
{
    if apps.len() > 0 {
        lemma_resumable_agree(state, apps.drop_last(), live, other);
        let scans = state.handoff.scans;
        if let Some(game) = lookup(scans, apps.last()) {
            lemma_scan_watched(scans, apps.last());
            let owners = card_owners(state.cache);
            let pids = scans.map_values(|scan: (Seq<char>, GameView)| scan.1.pid);
            let k = choose|k: int| 0 <= k < pids.len() && pids[k] == game.pid;
            assert(state.watched()[owners.len() + k] == game.pid);
            assert(state.watched().contains(game.pid));
        }
    }
}

/// Only watched processes matter: two lists of running processes that agree
/// on them lead to the same state.
pub proof fn law_only_watched_processes_matter(
    state: RouterView,
    cmd: CmdView,
    now_ms: u64,
    input: ProcInput,
    live: Seq<u64>,
    other: Seq<u64>,
)
    requires
        agree(state, live, other),
    ensures
        state.scan(input, live) == state.scan(input, other),
        state.set_activity(cmd, now_ms, live) == state.set_activity(cmd, now_ms, other),
{
    let forgotten = RouterView {
        handoff: state.handoff.unscanned(),
        last_process: Seq::empty(),
        ..state
    };
    let slots = ordered(state.last_process, true);
    let emptied = forgotten.clear_cards(slots);
    lemma_clears_keep_cards(forgotten, slots);
    assert forall|i: int| 0 <= i < emptied.cache.len() implies (entry_pid(
        (#[trigger] emptied.cache[i]).0,
        json_u64(emptied.cache[i].1.0.json, "/pid"@),
    ) matches Some(pid) ==> (live.contains(pid) <==> other.contains(pid))) by {
        let card = emptied.cache[i];
        if let Some(pid) = entry_pid(card.0, json_u64(card.1.0.json, "/pid"@)) {
            assert(emptied.cache.contains(card));
            let k = choose|k: int| 0 <= k < state.cache.len() && state.cache[k] == card;
            lemma_owner_watched(state.cache, k, pid);
            let owners = card_owners(state.cache);
            let m = choose|m: int| 0 <= m < owners.len() && owners[m] == pid;
            assert(state.watched()[m] == pid);
            assert(state.watched().contains(pid));
        }
    }
    lemma_ghosts_agree(emptied.cache, live, other);
    if genuine_clear(cmd) {
        assert(fixed_cmd(cmd) == cmd);
        let taken = state.guarded(cmd, now_ms).sdk_publish(cmd);
        assert(cmd.activity() is None);
        assert(taken.handoff == state.handoff);
        match cmd.application_id {
            Some(app) => {
                lemma_resumable_agree(state, seq![app], live, other);
            },
            None => {
                lemma_resumable_agree(
                    state,
                    owned_by(state.handoff.owners, cmd.pid()),
                    live,
                    other,
                );
            },
        }
    }
}

} // verus!
