//! Laws of the handover between cards: what each report and command puts up,
//! takes down, sends and leaves alone.
use crate::flood::{in_window, law_flood_window, noted, others, repeats, RecentView};
use crate::handoff::{law_gone_publisher_owns_nothing, owned_by, released, ProcInput};
use crate::payload::{
    activity_payload, clear_payload, fixed_cmd, generic_view, timestamps_fixed, CachedView, CmdView,
    GameView,
};
use crate::presence::{keyed, law_publish_enters_cache, law_scan_keeps_wf};
use crate::replay::{lemma_oldest, oldest, pruned, MAX_CACHED_ACTIVITIES};
use crate::router::{changes, genuine_clear, ghosts, occupied, resumable, transition, RouterView};
use crate::slots::{law_ordered, ordered};
use crate::table::{
    distinct, law_table_update, lemma_lookup, lemma_without, lemma_without_lookup, lookup, with,
};
use crate::text::decimal;
use vstd::prelude::*;

verus! {

/// When the process of a shown generic card vanishes, the card leaves the
/// table, and its clear, where it can be encoded, is sent and takes the card
/// out of the replay cache; nothing else is sent. A clear that cannot be
/// encoded is counted instead. No card of another slot changes, no slot
/// changes its owner, and the game is forgotten.
#[verifier::rlimit(40)]
pub proof fn law_vanished_game_is_cleared(
    state: RouterView,
    input: ProcInput,
    app: Seq<char>,
    pid: u64,
    live: Seq<u64>,
    other: Seq<char>,
)
    requires
        input matches ProcInput::Removed(name, gone) && name@ == app && gone == pid,
        lookup(state.last_process, app) == Some(pid),
        other != app,
    ensures
        ({
            let after = state.scan(input, live);
            &&& lookup(after.last_process, app) is None
            &&& lookup(after.last_process, other) == lookup(state.last_process, other)
            &&& lookup(after.cache, other) == lookup(state.cache, other)
            &&& after.handoff.owners == state.handoff.owners
            &&& lookup(after.handoff.scans, other) == lookup(state.handoff.scans, other)
            &&& lookup(state.handoff.scans, app) matches Some(game) ==> lookup(
                after.handoff.scans,
                app,
            ) == (if game.pid == pid {
                None
            } else {
                Some(game)
            })
            &&& match clear_payload(pid, app) {
                Some(clear) => {
                    &&& lookup(after.cache, app) is None
                    &&& after.outbox == state.outbox.push(clear)
                    &&& after.dropped == state.dropped
                    &&& after.dirty
                },
                None => {
                    &&& after.cache == state.cache
                    &&& after.outbox == state.outbox
                    &&& after.dropped != state.dropped
                },
            }
        }),
{
    lemma_without(state.last_process, app);
    lemma_without_lookup(state.last_process, app, other);
    lemma_without(state.cache, app);
    lemma_without_lookup(state.cache, app, other);
    lemma_without(state.handoff.scans, app);
    lemma_without_lookup(state.handoff.scans, app, other);
}

/// A report about another process than the shown one sends nothing and changes
/// no card; the game is forgotten only if it was remembered under that very
/// process.
pub proof fn law_other_process_vanishes(
    state: RouterView,
    input: ProcInput,
    app: Seq<char>,
    pid: u64,
    live: Seq<u64>,
)
    requires
        input matches ProcInput::Removed(name, gone) && name@ == app && gone == pid,
        lookup(state.last_process, app) != Some(pid),
    ensures
        ({
            let after = state.scan(input, live);
            &&& after.outbox == state.outbox
            &&& after.cache == state.cache
            &&& after.last_process == state.last_process
            &&& after.handoff.owners == state.handoff.owners
            &&& lookup(after.handoff.scans, app) == (if lookup(state.handoff.scans, app) is Some
                && lookup(state.handoff.scans, app)->0.pid == pid {
                None
            } else {
                lookup(state.handoff.scans, app)
            })
        }),
{
    lemma_without(state.handoff.scans, app);
}

/// A detected game is remembered, and no other slot changes. In a free slot
/// without a card its card goes up under its own process and is all that is
/// sent; a card that is up stays as it is; in a slot that a live publisher
/// owns nothing is sent.
#[verifier::rlimit(40)]
pub proof fn law_detection(
    state: RouterView,
    input: ProcInput,
    game: GameView,
    live: Seq<u64>,
    other: Seq<char>,
)
    requires
        state.wf(),
        input matches ProcInput::Detected(found) && found@ == game,
        other != game.id,
    ensures
        ({
            let after = state.scan(input, live);
            let owned = lookup(state.handoff.owners, game.id) is Some;
            let up = lookup(state.last_process, game.id) is Some;
            &&& lookup(after.handoff.scans, game.id) == Some(game)
            &&& lookup(after.handoff.scans, other) == lookup(state.handoff.scans, other)
            &&& after.handoff.owners == state.handoff.owners
            &&& lookup(after.last_process, other) == lookup(state.last_process, other)
            &&& !owned && !up ==> {
                &&& lookup(after.last_process, game.id) == Some(game.pid)
                &&& after.outbox == state.outbox.push(generic_view(game))
                &&& lookup(after.cache, game.id) is Some
                &&& (lookup(after.cache, game.id)->0).0 == generic_view(game)
                &&& after.dirty
            }
            &&& owned || up ==> {
                &&& after.outbox == state.outbox
                &&& after.cache == state.cache
                &&& after.last_process == state.last_process
                &&& after.dirty == state.dirty
            }
        }),
{
    law_table_update(state.handoff.scans, game.id, game, other);
    law_table_update(state.last_process, game.id, game.pid, other);
    law_publish_enters_cache(state.cache, state.activity_seq, game.id, generic_view(game));
    let remembered = RouterView { handoff: state.handoff.scanned(game), ..state };
    if state.handoff.suppressed(game.id) {
        assert(lookup(remembered.last_process, game.id) is None);
        assert(remembered.withdraw(game.id) == remembered);
    }
}

/// A game that vanished and is found again, under whatever process, is shown
/// again.
pub proof fn law_returned_game_is_shown(
    state: RouterView,
    gone: ProcInput,
    back: ProcInput,
    game: GameView,
    pid: u64,
    live: Seq<u64>,
)
    requires
        state.wf(),
        gone matches ProcInput::Removed(name, was) && name@ == game.id && was == pid,
        back matches ProcInput::Detected(found) && found@ == game,
        lookup(state.last_process, game.id) == Some(pid),
    ensures
        lookup(state.scan(gone, live).scan(back, live).last_process, game.id) == Some(game.pid),
        state.scan(gone, live).scan(back, live).outbox == state.scan(gone, live).outbox.push(
            generic_view(game),
        ),
{
    let other = game.id.push('x');
    assert(other.len() != game.id.len());
    law_vanished_game_is_cleared(state, gone, game.id, pid, live, other);
    law_scan_keeps_wf(state, gone, live);
    let away = state.scan(gone, live);
    assert(lookup(state.handoff.owners, game.id) is None) by {
        if state.handoff.suppressed(game.id) {
            assert(lookup(state.last_process, game.id) is None);
        }
    }
    law_detection(away, back, game, live, other);
}

/// Whether the card that a publisher shows already carries this activity.
pub open spec fn carries(
    cached: Option<(CachedView, u64)>,
    activity: Seq<char>,
) -> bool {
    cached matches Some(card) && !card.0.is_clear && card.0.activity_json == activity
}

/// A publish takes the slot of its application over: the publisher owns it,
/// its generic card is down, and the clear of that card is sent first. Then
/// the activity itself is sent, unless the publisher shows it already. Other
/// slots keep their owners and their cards, and what the scanner found stays
/// remembered.
#[verifier::rlimit(40)]
pub proof fn law_publish_takes_over(
    state: RouterView,
    sent: CmdView,
    now_ms: u64,
    live: Seq<u64>,
    app: Seq<char>,
    other: Seq<char>,
)
    requires
        state.wf(),
        !state.floods(fixed_cmd(sent), now_ms),
        activity_payload(fixed_cmd(sent)) is Some,
        sent.activity() matches Some(activity) && activity.application_id == Some(app),
        other != app,
    ensures
        ({
            let cmd = fixed_cmd(sent);
            let id = decimal(cmd.pid() as nat);
            let after = state.set_activity(sent, now_ms, live);
            let news = if id != app && carries(lookup(state.cache, id), cmd.fingerprint()->0) {
                Seq::<CachedView>::empty()
            } else {
                seq![activity_payload(cmd)->0]
            };
            &&& lookup(after.handoff.owners, app) == Some(cmd.pid())
            &&& lookup(after.handoff.owners, other) == lookup(state.handoff.owners, other)
            &&& after.handoff.scans == state.handoff.scans
            &&& lookup(after.last_process, app) is None
            &&& lookup(after.last_process, other) == lookup(state.last_process, other)
            &&& id != app ==> match lookup(state.last_process, app) {
                Some(pid) => match clear_payload(pid, app) {
                    Some(clear) => after.outbox == state.outbox.push(clear) + news && lookup(
                        after.cache,
                        app,
                    ) is None,
                    None => after.outbox == state.outbox + news,
                },
                None => after.outbox == state.outbox + news,
            }
        }),
{
    let cmd = fixed_cmd(sent);
    let id = decimal(cmd.pid() as nat);
    let seen = state.guarded(cmd, now_ms);
    let after = state.set_activity(sent, now_ms, live);
    law_table_update(state.handoff.owners, app, cmd.pid(), other);
    lemma_without(state.last_process, app);
    lemma_without_lookup(state.last_process, app, other);
    lemma_without(state.cache, app);
    let taken = seen.sdk_publish(cmd);
    assert(!genuine_clear(cmd));
    assert(taken.resume(cmd, live) == taken);
    let payload = activity_payload(cmd)->0;
    if id != app {
        lemma_without_lookup(state.cache, app, id);
        assert(lookup(taken.cache, id) == lookup(state.cache, id));
        assert(changes(lookup(taken.cache, id), cmd.fingerprint()) == !carries(
            lookup(state.cache, id),
            cmd.fingerprint()->0,
        ));
        if changes(lookup(taken.cache, id), cmd.fingerprint()) {
            assert(after.outbox == taken.outbox.push(payload));
            assert(after.outbox =~= taken.outbox + seq![payload]);
            if let Some(pid) = lookup(state.last_process, app) {
                if clear_payload(pid, app) is Some {
                    let updated = with(taken.cache, id, (payload, after.activity_seq));
                    assert(after.cache == pruned(updated));
                    lemma_lookup(taken.cache, app);
                    law_table_update(taken.cache, id, (payload, after.activity_seq), app);
                    lemma_pruned_keeps_absent(updated, app);
                }
            }
        } else {
            assert(after.outbox =~= taken.outbox + Seq::<CachedView>::empty());
        }
    }
}

proof fn lemma_pruned_keeps_absent(s: Seq<(Seq<char>, (CachedView, u64))>, id: Seq<char>)
    requires
        lookup(s, id) is None,
    ensures
        lookup(pruned(s), id) is None,
    decreases s.len(),
{
    if s.len() > MAX_CACHED_ACTIVITIES {
        lemma_oldest(s);
        let o = oldest(s);
        let r = s.remove(o);
        lemma_lookup(s, id);
        lemma_lookup(r, id);
        assert(lookup(r, id) is None) by {
            if lookup(r, id) is Some {
                let i = choose|i: int| 0 <= i < r.len() && (#[trigger] r[i]).0 == id;
                if i < o {
                    assert(s[i].0 == id);
                } else {
                    assert(s[i + 1].0 == id);
                }
            }
        }
        lemma_pruned_keeps_absent(r, id);
    }
}

/// A command that the flood guard drops changes nothing, and so does one that
/// cannot be encoded or has no arguments, but for the guard's own memory.
pub proof fn law_dropped_command_shows_nothing(
    state: RouterView,
    sent: CmdView,
    now_ms: u64,
    live: Seq<u64>,
)
    ensures
        state.floods(fixed_cmd(sent), now_ms) ==> state.set_activity(sent, now_ms, live) == state,
        sent.args is None || activity_payload(fixed_cmd(sent)) is None ==> {
            let after = state.set_activity(sent, now_ms, live);
            &&& after.outbox == state.outbox
            &&& after.cache == state.cache
            &&& after.last_process == state.last_process
            &&& after.handoff == state.handoff
            &&& after.dirty == state.dirty
        },
{
}

/// A clear without a process, or by a process that does not own the slot it
/// names, hands nothing back: no slot changes its owner and no generic card
/// goes up or down.
pub proof fn law_strange_clear_hands_nothing_back(
    state: RouterView,
    sent: CmdView,
    now_ms: u64,
    live: Seq<u64>,
)
    requires
        sent.activity() is None,
        sent.pid() == 0 || (sent.application_id matches Some(app) && lookup(
            state.handoff.owners,
            app,
        ) != Some(sent.pid())),
    ensures
        state.set_activity(sent, now_ms, live).handoff == state.handoff,
        state.set_activity(sent, now_ms, live).last_process == state.last_process,
{
    let cmd = fixed_cmd(sent);
    let seen = state.guarded(cmd, now_ms);
    assert(seen.sdk_publish(cmd) == seen);
    assert(seen.resume(cmd, live) == seen);
}

#[verifier::rlimit(40)]
proof fn lemma_show_all_process(state: RouterView, games: Seq<GameView>, app: Seq<char>)
    ensures
        (forall|i: int| 0 <= i < games.len() ==> (#[trigger] games[i]).id != app) ==> lookup(
            state.show_all(games).last_process,
            app,
        ) == lookup(state.last_process, app),
        (exists|i: int| 0 <= i < games.len() && (#[trigger] games[i]).id == app) ==> exists|i: int|
            0 <= i < games.len() && (#[trigger] games[i]).id == app && lookup(
                state.show_all(games).last_process,
                app,
            ) == Some(games[i].pid),
        state.show_all(games).handoff == state.handoff,
    decreases games.len(),
{
    if games.len() > 0 {
        let front = games.drop_last();
        let last = games.last();
        lemma_show_all_process(state, front, app);
        let before = state.show_all(front);
        law_table_update(before.last_process, last.id, last.pid, app);
        assert(state.show_all(games).last_process == with(before.last_process, last.id, last.pid));
        assert(games[games.len() - 1] == last);
        if last.id != app {
            if forall|i: int| 0 <= i < games.len() ==> (#[trigger] games[i]).id != app {
                assert forall|i: int| 0 <= i < front.len() implies (#[trigger] front[i]).id
                    != app by {
                    assert(front[i] == games[i]);
                }
            }
            if exists|i: int| 0 <= i < games.len() && (#[trigger] games[i]).id == app {
                let i = choose|i: int| 0 <= i < games.len() && (#[trigger] games[i]).id == app;
                assert(front[i] == games[i]);
                let k = choose|k: int|
                    0 <= k < front.len() && (#[trigger] front[k]).id == app && lookup(
                        before.last_process,
                        app,
                    ) == Some(front[k].pid);
                assert(games[k] == front[k]);
            }
        }
    }
}

proof fn lemma_resumable_has(
    scans: Seq<(Seq<char>, GameView)>,
    apps: Seq<Seq<char>>,
    live: Seq<u64>,
    k: int,
)
    requires
        0 <= k < apps.len(),
        lookup(scans, apps[k]) matches Some(game) && live.contains(game.pid),
    ensures
        resumable(scans, apps, live).contains(lookup(scans, apps[k])->0),
    decreases apps.len(),
{
    let all = resumable(scans, apps, live);
    if k == apps.len() - 1 {
        assert(all[all.len() - 1] == lookup(scans, apps[k])->0);
    } else {
        let front = apps.drop_last();
        assert(front[k] == apps[k]);
        lemma_resumable_has(scans, front, live, k);
        let before = resumable(scans, front, live);
        let game = lookup(scans, apps[k])->0;
        let i = choose|i: int| 0 <= i < before.len() && before[i] == game;
        assert(all[i] == game);
    }
}

proof fn lemma_resumable_from(
    scans: Seq<(Seq<char>, GameView)>,
    apps: Seq<Seq<char>>,
    live: Seq<u64>,
)
    requires
        keyed(scans),
    ensures
        forall|i: int|
            0 <= i < resumable(scans, apps, live).len() ==> {
                let game = #[trigger] resumable(scans, apps, live)[i];
                lookup(scans, game.id) == Some(game) && live.contains(game.pid) && apps.contains(
                    game.id,
                )
            },
    decreases apps.len(),
{
    if apps.len() > 0 {
        let front = apps.drop_last();
        lemma_resumable_from(scans, front, live);
        lemma_found_under_own_id(scans, apps.last());
        let all = resumable(scans, apps, live);
        let before = resumable(scans, front, live);
        assert forall|i: int| 0 <= i < all.len() implies {
            let game = #[trigger] all[i];
            lookup(scans, game.id) == Some(game) && live.contains(game.pid) && apps.contains(
                game.id,
            )
        } by {
            if i < before.len() {
                assert(all[i] == before[i]);
                let k = choose|k: int| 0 <= k < front.len() && front[k] == before[i].id;
                assert(apps[k] == before[i].id);
            } else {
                assert(apps[apps.len() - 1] == all[i].id);
            }
        }
    }
}

proof fn lemma_found_under_own_id(scans: Seq<(Seq<char>, GameView)>, app: Seq<char>)
    requires
        keyed(scans),
    ensures
        lookup(scans, app) matches Some(game) ==> game.id == app,
    decreases scans.len(),
{
    if scans.len() > 0 {
        assert(scans[scans.len() - 1].0 == scans[scans.len() - 1].1.id);
        let t = scans.drop_last();
        assert forall|i: int| 0 <= i < t.len() implies (#[trigger] t[i]).0 == t[i].1.id by {
            assert(t[i] == scans[i]);
        }
        lemma_found_under_own_id(t, app);
    }
}

proof fn lemma_owned_has(owners: Seq<(Seq<char>, u64)>, pid: u64, app: Seq<char>)
    requires
        distinct(owners),
    ensures
        owned_by(owners, pid).contains(app) <==> lookup(owners, app) == Some(pid),
    decreases owners.len(),
{
    if owners.len() > 0 {
        let t = owners.drop_last();
        assert(distinct(t)) by {
            assert forall|i: int, j: int| 0 <= i < j < t.len() implies (#[trigger] t[i]).0 != (
            #[trigger] t[j]).0 by {
                assert(t[i] == owners[i] && t[j] == owners[j]);
            }
        }
        lemma_owned_has(t, pid, app);
        let before = owned_by(t, pid);
        let all = owned_by(owners, pid);
        let (name, owner) = owners.last();
        if owner == pid {
            assert(all.drop_last() =~= before);
            assert(all[all.len() - 1] == name);
            if all.contains(app) && app != name {
                let i = choose|i: int| 0 <= i < all.len() && all[i] == app;
                assert(before[i] == app);
            }
            if before.contains(app) {
                let i = choose|i: int| 0 <= i < before.len() && before[i] == app;
                assert(all[i] == app);
            }
        }
        if name == app && owner != pid {
            if before.contains(app) {
                assert(lookup(t, app) == Some(pid));
                lemma_lookup(t, app);
                let i = choose|i: int| 0 <= i < t.len() && (#[trigger] t[i]).0 == app;
                assert(owners[i].0 == owners[owners.len() - 1].0);
                assert(false);
            }
        }
    }
}

/// A connection that closes without naming an application gives every slot of
/// its process back. In each of them the game that the scanner found shows its
/// generic card again, if it still runs; where none runs the table stays as it
/// was. The slots of other publishers stay theirs.
#[verifier::rlimit(40)]
pub proof fn law_closed_connection_gives_all_back(
    state: RouterView,
    sent: CmdView,
    now_ms: u64,
    live: Seq<u64>,
    app: Seq<char>,
)
    requires
        state.wf(),
        !state.floods(sent, now_ms),
        activity_payload(sent) is Some,
        sent.activity() is None,
        sent.pid() != 0,
        sent.application_id is None,
    ensures
        ({
            let after = state.set_activity(sent, now_ms, live);
            let owner = lookup(state.handoff.owners, app);
            let found = lookup(state.handoff.scans, app);
            &&& owner == Some(sent.pid()) ==> !after.handoff.suppressed(app)
            &&& owner is Some && owner != Some(sent.pid()) ==> after.handoff.suppressed(app)
            &&& after.handoff.scans == state.handoff.scans
            &&& owner == Some(sent.pid()) && found is Some && live.contains(found->0.pid)
                ==> lookup(after.last_process, app) == Some(found->0.pid)
            &&& owner != Some(sent.pid()) || found is None || !live.contains(found->0.pid)
                ==> lookup(after.last_process, app) == lookup(state.last_process, app)
        }),
{
    let pid = sent.pid();
    let seen = state.guarded(sent, now_ms);
    assert(fixed_cmd(sent) == sent);
    assert(seen.sdk_publish(sent) == seen);
    let apps = owned_by(state.handoff.owners, pid);
    let scans = state.handoff.scans;
    let games = resumable(scans, apps, live);
    let given_back = RouterView { handoff: state.handoff.clear_pid(pid), ..seen };
    let resumed = seen.resume(sent, live);
    assert(resumed == given_back.show_all(games));
    lemma_show_all_process(given_back, games, app);
    lemma_resumable_from(scans, apps, live);
    lemma_owned_has(state.handoff.owners, pid, app);
    law_gone_publisher_owns_nothing(state.handoff, pid, app);
    let owner = lookup(state.handoff.owners, app);
    if owner == Some(pid) {
        lemma_released_keeps_absent(state.handoff.owners, pid, app);
    }
    let found = lookup(scans, app);
    lemma_found_under_own_id(scans, app);
    if owner == Some(pid) && found is Some && live.contains(found->0.pid) {
        let k = choose|k: int| 0 <= k < apps.len() && apps[k] == app;
        lemma_resumable_has(scans, apps, live, k);
        let i = choose|i: int| 0 <= i < games.len() && games[i] == found->0;
        assert(games[i].id == app);
        let m = choose|m: int|
            0 <= m < games.len() && (#[trigger] games[m]).id == app && lookup(
                resumed.last_process,
                app,
            ) == Some(games[m].pid);
        assert(lookup(scans, games[m].id) == Some(games[m]));
    } else {
        assert forall|i: int| 0 <= i < games.len() implies (#[trigger] games[i]).id != app by {
            if games[i].id == app {
                assert(lookup(scans, games[i].id) == Some(games[i]));
                assert(apps.contains(app));
            }
        }
    }
}

proof fn lemma_released_keeps_absent(owners: Seq<(Seq<char>, u64)>, pid: u64, app: Seq<char>)
    requires
        distinct(owners),
        lookup(owners, app) == Some(pid),
    ensures
        lookup(released(owners, pid), app) is None,
{
    let r = released(owners, pid);
    lemma_lookup(r, app);
    if lookup(r, app) is Some {
        let i = choose|i: int| 0 <= i < r.len() && (#[trigger] r[i]).0 == app;
        lemma_released_entries(owners, pid, i);
        let m = choose|m: int| 0 <= m < owners.len() && owners[m] == r[i];
        lemma_lookup_of(owners, m);
        assert(false);
    }
}

proof fn lemma_released_entries(owners: Seq<(Seq<char>, u64)>, pid: u64, i: int)
    requires
        0 <= i < released(owners, pid).len(),
    ensures
        released(owners, pid)[i].1 != pid,
        owners.contains(released(owners, pid)[i]),
    decreases owners.len(),
{
    if owners.len() > 0 {
        let t = owners.drop_last();
        let before = released(t, pid);
        if i < before.len() {
            lemma_released_entries(t, pid, i);
            let m = choose|m: int| 0 <= m < t.len() && t[m] == before[i];
            assert(owners[m] == before[i]);
        } else {
            assert(owners[owners.len() - 1] == released(owners, pid)[i]);
        }
    }
}

proof fn lemma_lookup_of(s: Seq<(Seq<char>, u64)>, m: int)
    requires
        distinct(s),
        0 <= m < s.len(),
    ensures
        lookup(s, s[m].0) == Some(s[m].1),
    decreases s.len(),
{
    if m < s.len() - 1 {
        let t = s.drop_last();
        assert(s[m].0 != s[s.len() - 1].0);
        assert(distinct(t)) by {
            assert forall|i: int, j: int| 0 <= i < j < t.len() implies (#[trigger] t[i]).0 != (
            #[trigger] t[j]).0 by {
                assert(t[i] == s[i] && t[j] == s[j]);
            }
        }
        assert(t[m] == s[m]);
        lemma_lookup_of(t, m);
    }
}

/// A broadcast sends exactly its payload and makes the snapshot outdated. A
/// clear takes the card down, anything else becomes the card; below the bound
/// of the cache every other card stays.
pub proof fn law_broadcast(state: RouterView, payload: CachedView, id: Seq<char>, other: Seq<char>)
    requires
        state.wf(),
        other != id,
    ensures
        ({
            let after = state.broadcast(payload, id);
            &&& after.outbox == state.outbox.push(payload)
            &&& after.dirty
            &&& payload.is_clear ==> lookup(after.cache, id) is None && after.activity_seq
                == state.activity_seq
            &&& !payload.is_clear ==> lookup(after.cache, id) is Some && (lookup(after.cache, id)->0).0
                == payload && (lookup(after.cache, id)->0).1 == after.activity_seq
            &&& !payload.is_clear && state.activity_seq < u64::MAX ==> after.activity_seq
                == state.activity_seq + 1
            &&& payload.is_clear || state.cache.len() < MAX_CACHED_ACTIVITIES ==> lookup(
                after.cache,
                other,
            ) == lookup(state.cache, other)
        }),
{
    lemma_without(state.cache, id);
    lemma_without_lookup(state.cache, id, other);
    if !payload.is_clear {
        law_publish_enters_cache(state.cache, state.activity_seq, id, payload);
        let seq = state.broadcast(payload, id).activity_seq;
        law_table_update(state.cache, id, (payload, seq), other);
    }
}

proof fn lemma_clear_cards_sent(state: RouterView, slots: Seq<(Seq<char>, u64)>)
    ensures
        state.clear_cards(slots).outbox.len() >= state.outbox.len(),
        forall|i: int|
            0 <= i < state.outbox.len() ==> state.clear_cards(slots).outbox[i]
                == #[trigger] state.outbox[i],
        forall|i: int|
            0 <= i < slots.len() && clear_payload((#[trigger] slots[i]).1, slots[i].0) is Some
                ==> state.clear_cards(slots).outbox.contains(
                clear_payload(slots[i].1, slots[i].0)->0,
            ),
        state.clear_cards(slots).handoff == state.handoff,
    decreases slots.len(),
{
    if slots.len() > 0 {
        let front = slots.drop_last();
        lemma_clear_cards_sent(state, front);
        let before = state.clear_cards(front);
        let after = state.clear_cards(slots);
        assert forall|i: int|
            0 <= i < slots.len() && clear_payload((#[trigger] slots[i]).1, slots[i].0)
                is Some implies after.outbox.contains(
            clear_payload(slots[i].1, slots[i].0)->0,
        ) by {
            let clear = clear_payload(slots[i].1, slots[i].0)->0;
            if i < front.len() {
                assert(front[i] == slots[i]);
                let k = choose|k: int| 0 <= k < before.outbox.len() && before.outbox[k] == clear;
                assert(after.outbox[k] == clear);
            } else {
                assert(after.outbox == before.outbox.push(clear));
                assert(after.outbox[before.outbox.len() as int] == clear);
            }
        }
    }
}

/// An empty scan sends the clear of every generic card that was shown, where
/// it can be encoded, forgets every game, and takes no slot from its owner.
pub proof fn law_empty_scan_sends_clears(
    state: RouterView,
    live: Seq<u64>,
    app: Seq<char>,
)
    requires
        state.wf(),
    ensures
        ({
            let after = state.scan(ProcInput::Cleared, live);
            &&& lookup(after.handoff.scans, app) is None
            &&& after.handoff.owners == state.handoff.owners
            &&& lookup(state.last_process, app) is Some && clear_payload(
                lookup(state.last_process, app)->0,
                app,
            ) is Some ==> after.outbox.contains(
                clear_payload(lookup(state.last_process, app)->0, app)->0,
            )
        }),
{
    let forgotten = RouterView {
        handoff: state.handoff.unscanned(),
        last_process: Seq::empty(),
        ..state
    };
    let shown = ordered(state.last_process, true);
    let emptied = forgotten.clear_cards(shown);
    let dead = ghosts(emptied.cache, live);
    let after = emptied.clear_cards(dead);
    lemma_clear_cards_sent(forgotten, shown);
    lemma_clear_cards_sent(emptied, dead);
    if let Some(pid) = lookup(state.last_process, app) {
        if let Some(clear) = clear_payload(pid, app) {
            lemma_lookup_entry(state.last_process, app);
            lemma_ordered_has(state.last_process, (app, pid));
            let i = choose|i: int| 0 <= i < shown.len() && shown[i] == (app, pid);
            assert(clear_payload(shown[i].1, shown[i].0) == Some(clear));
            assert(emptied.outbox.contains(clear));
            let k = choose|k: int| 0 <= k < emptied.outbox.len() && emptied.outbox[k] == clear;
            assert(after.outbox[k] == emptied.outbox[k]);
        }
    }
}

proof fn lemma_lookup_entry(s: Seq<(Seq<char>, u64)>, k: Seq<char>)
    ensures
        lookup(s, k) matches Some(v) ==> s.contains((k, v)),
    decreases s.len(),
{
    if s.len() > 0 {
        if s.last().0 == k {
            assert(s[s.len() - 1] == (k, s.last().1));
        } else {
            lemma_lookup_entry(s.drop_last(), k);
            if let Some(v) = lookup(s, k) {
                let t = s.drop_last();
                let i = choose|i: int| 0 <= i < t.len() && t[i] == (k, v);
                assert(s[i] == (k, v));
            }
        }
    }
}

proof fn lemma_ordered_has(s: Seq<(Seq<char>, u64)>, x: (Seq<char>, u64))
    requires
        s.contains(x),
    ensures
        ordered(s, true).contains(x),
{
    broadcast use vstd::seq_lib::group_to_multiset_ensures;

    law_ordered(s, true);
    assert(s.to_multiset().count(x) > 0);
    assert(ordered(s, true).to_multiset().count(x) > 0);
}

/// A session starts with the report that brings the first game, ends with the
/// report that leaves none, and no other report is a boundary.
pub proof fn law_session_boundaries(had_games: bool, input: ProcInput)
    ensures
        transition(had_games, input) == Some("game-start"@) <==> !had_games && occupied(
            had_games,
            input,
        ),
        transition(had_games, input) == Some("game-end"@) <==> had_games && !occupied(
            had_games,
            input,
        ),
        transition(had_games, input) is None <==> had_games == occupied(had_games, input),
        input is Detected ==> occupied(had_games, input),
        input is Cleared ==> !occupied(had_games, input),
        input is Removed ==> occupied(had_games, input) == had_games,
{
    reveal_strlit("game-start");
    reveal_strlit("game-end");
    assert("game-start"@.len() != "game-end"@.len());
}

/// The flood guard judges each publisher and application for itself: what one
/// of them sends does not change what the guard says of another.
pub proof fn law_flood_guard_is_separate(
    s: Seq<RecentView>,
    app: Seq<char>,
    pid: u64,
    fingerprint: Option<Seq<char>>,
    other_app: Seq<char>,
    other_pid: u64,
    other_fingerprint: Option<Seq<char>>,
    window_ms: u64,
    now_ms: u64,
    later_ms: u64,
)
    requires
        now_ms <= later_ms,
        app != other_app || pid != other_pid,
    ensures
        repeats(
            noted(s, app, pid, fingerprint, window_ms, now_ms),
            other_app,
            other_pid,
            other_fingerprint,
            window_ms,
            later_ms,
        ) == repeats(s, other_app, other_pid, other_fingerprint, window_ms, later_ms),
{
    let t = noted(s, app, pid, fingerprint, window_ms, now_ms);
    let rest = others(s, app, pid, window_ms, now_ms);
    lemma_others_kept(s, app, pid, window_ms, now_ms);
    if !repeats(s, app, pid, fingerprint, window_ms, now_ms) {
        if repeats(t, other_app, other_pid, other_fingerprint, window_ms, later_ms) {
            let i = choose|i: int|
                0 <= i < t.len() && (#[trigger] t[i]).app == other_app && t[i].pid == other_pid
                    && t[i].fingerprint == other_fingerprint && in_window(
                    t[i],
                    window_ms,
                    later_ms,
                );
            assert(i < rest.len());
            assert(rest[i] == t[i]);
            let k = choose|k: int| 0 <= k < s.len() && s[k] == rest[i];
            assert(s[k].app == other_app);
        }
        if repeats(s, other_app, other_pid, other_fingerprint, window_ms, later_ms) {
            let i = choose|i: int|
                0 <= i < s.len() && (#[trigger] s[i]).app == other_app && s[i].pid == other_pid
                    && s[i].fingerprint == other_fingerprint && in_window(
                    s[i],
                    window_ms,
                    later_ms,
                );
            assert(in_window(s[i], window_ms, now_ms));
            assert(rest.contains(s[i]));
            let k = choose|k: int| 0 <= k < rest.len() && rest[k] == s[i];
            assert(t[k] == s[i]);
        }
    }
}

proof fn lemma_others_kept(
    s: Seq<RecentView>,
    app: Seq<char>,
    pid: u64,
    window_ms: u64,
    now_ms: u64,
)
    ensures
        forall|i: int|
            0 <= i < others(s, app, pid, window_ms, now_ms).len() ==> s.contains(
                #[trigger] others(s, app, pid, window_ms, now_ms)[i],
            ),
        forall|i: int|
            0 <= i < s.len() && !((#[trigger] s[i]).app == app && s[i].pid == pid) && in_window(
                s[i],
                window_ms,
                now_ms,
            ) ==> others(s, app, pid, window_ms, now_ms).contains(s[i]),
    decreases s.len(),
{
    if s.len() > 0 {
        let t = s.drop_last();
        lemma_others_kept(t, app, pid, window_ms, now_ms);
        let before = others(t, app, pid, window_ms, now_ms);
        let all = others(s, app, pid, window_ms, now_ms);
        assert forall|i: int| 0 <= i < all.len() implies s.contains(#[trigger] all[i]) by {
            if i < before.len() {
                assert(all[i] == before[i]);
                let k = choose|k: int| 0 <= k < t.len() && t[k] == before[i];
                assert(s[k] == before[i]);
            } else {
                assert(s[s.len() - 1] == all[i]);
            }
        }
        assert forall|i: int|
            0 <= i < s.len() && !((#[trigger] s[i]).app == app && s[i].pid == pid) && in_window(
                s[i],
                window_ms,
                now_ms,
            ) implies all.contains(s[i]) by {
            if i < t.len() {
                assert(t[i] == s[i]);
                let k = choose|k: int| 0 <= k < before.len() && before[k] == s[i];
                assert(all[k] == s[i]);
            } else {
                assert(all[all.len() - 1] == s[i]);
            }
        }
    }
}

/// A publisher that goes back to an earlier activity is heard: only its latest
/// activity counts as a repeat.
pub proof fn law_alternating_activities_are_heard(
    s: Seq<RecentView>,
    app: Seq<char>,
    pid: u64,
    first: Option<Seq<char>>,
    second: Option<Seq<char>>,
    window_ms: u64,
    now_ms: u64,
    later_ms: u64,
)
    requires
        first != second,
        !repeats(s, app, pid, second, window_ms, now_ms),
    ensures
        !repeats(
            noted(s, app, pid, second, window_ms, now_ms),
            app,
            pid,
            first,
            window_ms,
            later_ms,
        ),
{
    let t = noted(s, app, pid, second, window_ms, now_ms);
    let rest = others(s, app, pid, window_ms, now_ms);
    lemma_others_foreign(s, app, pid, window_ms, now_ms);
    assert forall|i: int| 0 <= i < t.len() && (#[trigger] t[i]).app == app && t[i].pid
        == pid implies t[i].fingerprint == second by {
        if i < rest.len() {
            assert(t[i] == rest[i]);
        }
    }
}

proof fn lemma_others_foreign(
    s: Seq<RecentView>,
    app: Seq<char>,
    pid: u64,
    window_ms: u64,
    now_ms: u64,
)
    ensures
        forall|i: int|
            0 <= i < others(s, app, pid, window_ms, now_ms).len() ==> !((#[trigger] others(
                s,
                app,
                pid,
                window_ms,
                now_ms,
            )[i]).app == app && others(s, app, pid, window_ms, now_ms)[i].pid == pid),
    decreases s.len(),
{
    if s.len() > 0 {
        lemma_others_foreign(s.drop_last(), app, pid, window_ms, now_ms);
    }
}

/// The application that the flood guard takes a command for.
pub open spec fn guarded_app(cmd: CmdView) -> Seq<char> {
    if cmd.application_id is Some {
        cmd.application_id->0
    } else {
        Seq::empty()
    }
}

proof fn lemma_show_all_recent(state: RouterView, games: Seq<GameView>)
    ensures
        state.show_all(games).recent == state.recent,
        state.show_all(games).window_ms == state.window_ms,
    decreases games.len(),
{
    if games.len() > 0 {
        lemma_show_all_recent(state, games.drop_last());
    }
}

proof fn lemma_recent(state: RouterView, sent: CmdView, now_ms: u64, live: Seq<u64>)
    requires
        !state.floods(fixed_cmd(sent), now_ms),
    ensures
        ({
            let cmd = fixed_cmd(sent);
            let after = state.set_activity(sent, now_ms, live);
            &&& after.window_ms == state.window_ms
            &&& after.recent == noted(
                state.recent,
                guarded_app(cmd),
                cmd.pid(),
                cmd.fingerprint(),
                state.window_ms,
                now_ms,
            )
        }),
{
    let cmd = fixed_cmd(sent);
    let seen = state.guarded(cmd, now_ms);
    if activity_payload(cmd) is Some {
        let taken = seen.sdk_publish(cmd);
        assert(taken.recent == seen.recent && taken.window_ms == seen.window_ms);
        if genuine_clear(cmd) {
            let games = match cmd.application_id {
                Some(app) => resumable(taken.handoff.scans, seq![app], live),
                None => resumable(
                    taken.handoff.scans,
                    owned_by(taken.handoff.owners, cmd.pid()),
                    live,
                ),
            };
            match cmd.application_id {
                Some(app) => {
                    lemma_show_all_recent(
                        RouterView { handoff: taken.handoff.clear(app, cmd.pid()), ..taken },
                        games,
                    );
                },
                None => {
                    lemma_show_all_recent(
                        RouterView { handoff: taken.handoff.clear_pid(cmd.pid()), ..taken },
                        games,
                    );
                },
            }
        }
        let resumed = taken.resume(cmd, live);
        assert(resumed.recent == seen.recent && resumed.window_ms == seen.window_ms);
    }
}

/// A command that was taken makes the same one, by the same process for the
/// same application, a flood until the window is over. It makes no flood of
/// what another process or another application sends, and none of another
/// activity of its own.
pub proof fn law_flooding_commands(
    state: RouterView,
    first: CmdView,
    second: CmdView,
    now_ms: u64,
    later_ms: u64,
    live: Seq<u64>,
)
    requires
        !state.floods(fixed_cmd(first), now_ms),
        now_ms <= later_ms,
    ensures
        ({
            let (a, b) = (fixed_cmd(first), fixed_cmd(second));
            let after = state.set_activity(first, now_ms, live);
            let same_sender = guarded_app(a) == guarded_app(b) && a.pid() == b.pid();
            &&& same_sender && a.fingerprint() == b.fingerprint() ==> after.floods(b, later_ms) == (
            later_ms - now_ms < state.window_ms)
            &&& same_sender && a.fingerprint() != b.fingerprint() ==> !after.floods(b, later_ms)
            &&& !same_sender ==> after.floods(b, later_ms) == state.floods(b, later_ms)
        }),
{
    let (a, b) = (fixed_cmd(first), fixed_cmd(second));
    lemma_recent(state, first, now_ms, live);
    let w = state.window_ms;
    let s = state.recent;
    if guarded_app(a) == guarded_app(b) && a.pid() == b.pid() {
        law_flood_window(s, guarded_app(a), a.pid(), a.fingerprint(), w, now_ms, later_ms);
        if a.fingerprint() != b.fingerprint() {
            law_alternating_activities_are_heard(
                s,
                guarded_app(a),
                a.pid(),
                b.fingerprint(),
                a.fingerprint(),
                w,
                now_ms,
                later_ms,
            );
        }
    } else {
        law_flood_guard_is_separate(
            s,
            guarded_app(a),
            a.pid(),
            a.fingerprint(),
            guarded_app(b),
            b.pid(),
            b.fingerprint(),
            w,
            now_ms,
            later_ms,
        );
    }
}

/// Bringing time stamps to milliseconds changes nothing of a command but the
/// text of its activity.
pub proof fn law_fixed_command(cmd: CmdView)
    ensures
        ({
            let after = fixed_cmd(cmd);
            &&& after.cmd == cmd.cmd && after.nonce == cmd.nonce && after.raw == cmd.raw
            &&& after.application_id == cmd.application_id
            &&& after.pid() == cmd.pid()
            &&& after.args is Some == cmd.args is Some
            &&& after.activity() is Some == cmd.activity() is Some
            &&& cmd.activity() is Some ==> after.activity()->0.name == cmd.activity()->0.name
                && after.activity()->0.application_id == cmd.activity()->0.application_id
                && after.activity()->0.json == timestamps_fixed(cmd.activity()->0.json)
        }),
{
}

/// A publish that names no application takes no slot over: no owner changes
/// and no generic card goes up or down.
pub proof fn law_publish_without_application(
    state: RouterView,
    sent: CmdView,
    now_ms: u64,
    live: Seq<u64>,
)
    requires
        sent.activity() matches Some(activity) && activity.application_id is None,
    ensures
        state.set_activity(sent, now_ms, live).handoff == state.handoff,
        state.set_activity(sent, now_ms, live).last_process == state.last_process,
{
    let cmd = fixed_cmd(sent);
    let seen = state.guarded(cmd, now_ms);
    assert(seen.sdk_publish(cmd) == seen);
    assert(seen.resume(cmd, live) == seen);
}

/// No more than fifty cards are kept, and none of them is a clear.
pub proof fn law_cache_is_bounded(state: RouterView, i: int)
    requires
        state.wf(),
        0 <= i < state.cache.len(),
    ensures
        state.cache.len() <= 50,
        !state.cache[i].1.0.is_clear,
{
}

} // verus!
