//! Handoff between self-reported presence and generic detection.
//!
//! A game that reports itself owns its application slot: the generic card
//! stays away until that publisher clears. The last publisher wins.
use crate::payload::{GameView, ScannedGame};
use crate::table::{
    distinct, law_table_update, lemma_without, lookup, opt_view, texts, with, without, Table,
};
use vstd::prelude::*;

verus! {

/// What the process scanner reports.
pub enum ProcInput {
    /// A game runs.
    Detected(ScannedGame),
    /// One `(application id, pid)` pair vanished while others remain.
    Removed(String, u64),
    /// No game runs.
    Cleared,
}

/// Slot owners and the scanner's memory.
pub struct HandoffState {
    /// Publisher that owns each application slot.
    pub owners: Table<u64>,
    /// Last scanned game per application.
    pub scans: Table<ScannedGame>,
}

/// Model of a [`HandoffState`].
#[verifier::ext_equal]
pub struct HandoffView {
    pub owners: Seq<(Seq<char>, u64)>,
    pub scans: Seq<(Seq<char>, GameView)>,
}

impl View for HandoffState {
    type V = HandoffView;

    open spec fn view(&self) -> HandoffView {
        HandoffView { owners: self.owners@, scans: self.scans@ }
    }
}

/// Applications of `owners` that `pid` owns.
pub open spec fn owned_by(owners: Seq<(Seq<char>, u64)>, pid: u64) -> Seq<Seq<char>>
    decreases owners.len(),
{
    if owners.len() == 0 {
        Seq::empty()
    } else if owners.last().1 == pid {
        owned_by(owners.drop_last(), pid).push(owners.last().0)
    } else {
        owned_by(owners.drop_last(), pid)
    }
}

/// Entries of `owners` that `pid` does not own.
pub open spec fn released(owners: Seq<(Seq<char>, u64)>, pid: u64) -> Seq<(Seq<char>, u64)>
    decreases owners.len(),
{
    if owners.len() == 0 {
        owners
    } else if owners.last().1 == pid {
        released(owners.drop_last(), pid)
    } else {
        released(owners.drop_last(), pid).push(owners.last())
    }
}

impl HandoffView {
    /// Nothing owned, nothing scanned.
    pub open spec fn fresh() -> HandoffView {
        HandoffView { owners: Seq::empty(), scans: Seq::empty() }
    }

    /// No slot has two owners, no application is remembered twice.
    pub open spec fn wf(self) -> bool {
        distinct(self.owners) && distinct(self.scans)
    }

    /// `pid` published for `app`: it owns the slot now.
    pub open spec fn publish(self, app: Seq<char>, pid: u64) -> HandoffView {
        HandoffView { owners: with(self.owners, app, pid), ..self }
    }

    /// Whether a live publisher owns the slot.
    pub open spec fn suppressed(self, app: Seq<char>) -> bool {
        lookup(self.owners, app) is Some
    }

    /// Whether a clear of `app` by `pid` releases the slot.
    pub open spec fn clears(self, app: Seq<char>, pid: u64) -> bool {
        lookup(self.owners, app) == Some(pid)
    }

    /// State after a clear of `app` by `pid`.
    pub open spec fn clear(self, app: Seq<char>, pid: u64) -> HandoffView {
        if self.clears(app, pid) {
            HandoffView { owners: without(self.owners, app), ..self }
        } else {
            self
        }
    }

    /// State after the publisher `pid` is gone.
    pub open spec fn clear_pid(self, pid: u64) -> HandoffView {
        HandoffView { owners: released(self.owners, pid), ..self }
    }

    /// State after the scanner reported `game`.
    pub open spec fn scanned(self, game: GameView) -> HandoffView {
        HandoffView { scans: with(self.scans, game.id, game), ..self }
    }

    /// State after the scanner reported an empty table.
    pub open spec fn unscanned(self) -> HandoffView {
        HandoffView { scans: Seq::empty(), ..self }
    }

    /// State after the scanner reported that `(app, pid)` vanished.
    pub open spec fn removed(self, app: Seq<char>, pid: u64) -> HandoffView {
        match lookup(self.scans, app) {
            Some(game) if game.pid == pid => HandoffView {
                scans: without(self.scans, app),
                ..self
            },
            _ => self,
        }
    }
}

impl HandoffState {
    /// Nothing owned, nothing scanned.
    pub fn new() -> (r: Self)
        ensures
            r@ == HandoffView::fresh(),
    {
        HandoffState { owners: Table::new(), scans: Table::new() }
    }

    /// A live publisher takes the slot over; the last publisher wins.
    pub fn note_publish(&mut self, app: &str, pid: u64)
        ensures
            final(self)@ == old(self)@.publish(app@, pid),
    {
        self.owners.put(app.to_owned(), pid);
    }

    /// Whether a live publisher owns the slot.
    pub fn is_suppressed(&self, app: &str) -> (r: bool)
        ensures
            r == self@.suppressed(app@),
    {
        self.owners.has(app)
    }

    /// A publisher clears its slot. Only the current owner releases it: a
    /// stale close from a superseded publisher changes nothing.
    pub fn note_clear(&mut self, app: &str, pid: u64) -> (r: bool)
        ensures
            r == old(self)@.clears(app@, pid),
            final(self)@ == old(self)@.clear(app@, pid),
    {
        let owner = match self.owners.get(app) {
            Some(owner) => Some(*owner),
            None => None,
        };
        if owner == Some(pid) {
            let _ = self.owners.remove(app);
            true
        } else {
            false
        }
    }

    /// A publisher is gone: release every slot it owned and name them.
    pub fn note_clear_pid(&mut self, pid: u64) -> (r: Vec<String>)
        ensures
            texts(r@) == owned_by(old(self)@.owners, pid),
            final(self)@ == old(self)@.clear_pid(pid),
    {
        let ghost all = self.owners@;
        let mut kept: Vec<(String, u64)> = Vec::new();
        let mut gone: Vec<String> = Vec::new();
        let mut i: usize = 0;
        assert(all.take(0) == Seq::<(Seq<char>, u64)>::empty());
        assert(texts(gone@) == Seq::<Seq<char>>::empty());
        assert(crate::table::entries_view(kept@) == Seq::<(Seq<char>, u64)>::empty());
        while i < self.owners.entries.len()
            invariant
                all == self.owners@,
                i <= self.owners.entries@.len(),
                texts(gone@) == owned_by(all.take(i as int), pid),
                crate::table::entries_view(kept@) == released(all.take(i as int), pid),
            decreases self.owners.entries@.len() - i,
        {
            let ghost g = texts(gone@);
            let ghost k = crate::table::entries_view(kept@);
            assert(all.take(i + 1).drop_last() == all.take(i as int));
            assert(all.take(i + 1).last() == all[i as int]);
            let app = self.owners.entries[i].0.clone();
            let owner = self.owners.entries[i].1;
            if owner == pid {
                gone.push(app);
                assert(texts(gone@) == g.push(all[i as int].0));
            } else {
                kept.push((app, owner));
                assert(crate::table::entries_view(kept@) == k.push(all[i as int]));
            }
            i = i + 1;
        }
        assert(all.take(all.len() as int) == all);
        self.owners = Table { entries: kept };
        gone
    }

    /// The scanned game that a release hands the slot back to.
    pub fn resume_for(&self, app: &str) -> (r: Option<ScannedGame>)
        ensures
            opt_view(r) == lookup(self@.scans, app@),
    {
        match self.scans.get(app) {
            Some(game) => Some(game.clone()),
            None => None,
        }
    }

    /// Remember what the scanner reported; an empty table forgets all.
    pub fn note_scan(&mut self, game: Option<&ScannedGame>)
        ensures
            final(self)@ == match game {
                Some(game) => old(self)@.scanned(game@),
                None => old(self)@.unscanned(),
            },
    {
        match game {
            Some(game) => {
                self.scans.put(game.id.clone(), game.clone());
            },
            None => {
                self.scans = Table::new();
            },
        }
    }

    /// Forget a vanished game, unless the slot holds a newer process.
    pub fn note_remove(&mut self, app: &str, pid: u64)
        ensures
            final(self)@ == old(self)@.removed(app@, pid),
    {
        let matching = match self.scans.get(app) {
            Some(game) => game.pid == pid,
            None => false,
        };
        if matching {
            let _ = self.scans.remove(app);
        }
    }
}

/// The last publisher wins: a close from a superseded publisher releases
/// nothing and leaves the slot with its new owner.
pub proof fn law_superseded_close_is_ignored(
    state: HandoffView,
    app: Seq<char>,
    first: u64,
    second: u64,
)
    requires
        first != second,
    ensures
        ({
            let taken = state.publish(app, first).publish(app, second);
            &&& !taken.clears(app, first)
            &&& taken.clear(app, first) == taken
            &&& taken.clears(app, second)
        }),
{
    let mid = state.publish(app, first).owners;
    law_table_update(mid, app, second, app);
}

/// A publish suppresses the generic card of its slot and of no other; the
/// clear of the owner gives the slot back.
pub proof fn law_publish_then_clear(state: HandoffView, app: Seq<char>, pid: u64, other: Seq<char>)
    ensures
        state.publish(app, pid).suppressed(app),
        !state.publish(app, pid).clear(app, pid).suppressed(app),
        other != app ==> state.publish(app, pid).suppressed(other) == state.suppressed(other),
        state.publish(app, pid).scans == state.scans,
        state.publish(app, pid).clear(app, pid).scans == state.scans,
{
    law_table_update(state.owners, app, pid, other);
    law_table_update(state.owners, app, pid, app);
    lemma_without(state.publish(app, pid).owners, app);
}

proof fn lemma_released(owners: Seq<(Seq<char>, u64)>, pid: u64)
    requires
        distinct(owners),
    ensures
        distinct(released(owners, pid)),
        forall|i: int|
            0 <= i < released(owners, pid).len() ==> (#[trigger] released(owners, pid)[i]).1 != pid
                && owners.contains(released(owners, pid)[i]),
        forall|i: int|
            0 <= i < owners.len() && (#[trigger] owners[i]).1 != pid ==> released(
                owners,
                pid,
            ).contains(owners[i]),
    decreases owners.len(),
{
    if owners.len() > 0 {
        let t = owners.drop_last();
        assert(distinct(t)) by {
            assert forall|i: int, j: int| 0 <= i < j < t.len() implies (#[trigger] t[i]).0 != (
            #[trigger] t[j]).0 by {
                assert(t[i] == owners[i] && t[j] == owners[j]);
            }
        }
        lemma_released(t, pid);
        let r = released(owners, pid);
        let rt = released(t, pid);
        assert forall|i: int| 0 <= i < r.len() implies (#[trigger] r[i]).1 != pid
            && owners.contains(r[i]) by {
            if i < rt.len() {
                assert(r[i] == rt[i]);
                let m = choose|m: int| 0 <= m < t.len() && t[m] == rt[i];
                assert(owners[m] == r[i]);
            } else {
                assert(owners[owners.len() - 1] == r[i]);
            }
        }
        assert forall|i: int| 0 <= i < owners.len() && (#[trigger] owners[i]).1 != pid implies
            r.contains(owners[i]) by {
            if i < t.len() {
                assert(t[i] == owners[i]);
                let m = choose|m: int| 0 <= m < rt.len() && rt[m] == owners[i];
                assert(r[m] == owners[i]);
            } else {
                assert(r[r.len() - 1] == owners[i]);
            }
        }
        assert forall|i: int, j: int| 0 <= i < j < r.len() implies (#[trigger] r[i]).0 != (
        #[trigger] r[j]).0 by {
            if j < rt.len() {
                assert(r[i] == rt[i] && r[j] == rt[j]);
            } else {
                assert(r[i] == rt[i]);
                let m = choose|m: int| 0 <= m < t.len() && t[m] == rt[i];
                assert(owners[m] == r[i] && owners[owners.len() - 1] == r[j]);
            }
        }
    }
}

/// A publisher that is gone suppresses nothing any more; slots of other
/// publishers stay theirs.
pub proof fn law_gone_publisher_owns_nothing(state: HandoffView, pid: u64, app: Seq<char>)
    requires
        state.wf(),
    ensures
        lookup(state.clear_pid(pid).owners, app) != Some(pid),
        lookup(state.owners, app) is Some && lookup(state.owners, app) != Some(pid)
            ==> state.clear_pid(pid).suppressed(app),
        state.clear_pid(pid).wf(),
{
    lemma_released(state.owners, pid);
    let r = released(state.owners, pid);
    lemma_lookup_entry(r, app);
    lemma_lookup_entry(state.owners, app);
    if lookup(state.owners, app) is Some && lookup(state.owners, app) != Some(pid) {
        let v = lookup(state.owners, app)->0;
        let i = choose|i: int| 0 <= i < state.owners.len() && state.owners[i] == (app, v);
        assert(r.contains(state.owners[i]));
        let m = choose|m: int| 0 <= m < r.len() && r[m] == (app, v);
        assert(r[m].0 == app);
        crate::table::lemma_lookup(r, app);
    }
}

proof fn lemma_lookup_entry(s: Seq<(Seq<char>, u64)>, k: Seq<char>)
    ensures
        lookup(s, k) matches Some(v) ==> s.contains((k, v)),
    decreases s.len(),
{
    if s.len() > 0 {
        if s.last().0 == k {
            assert(s[s.len() - 1] == (k, s.last().1));
        } else {
            lemma_lookup_entry(s.drop_last(), k);
            if lookup(s, k) is Some {
                let v = lookup(s, k)->0;
                let i = choose|i: int| 0 <= i < s.drop_last().len() && s.drop_last()[i] == (k, v);
                assert(s[i] == (k, v));
            }
        }
    }
}

/// Every operation keeps the tables free of double entries.
pub proof fn law_handoff_keeps_wf(state: HandoffView, app: Seq<char>, pid: u64, game: GameView)
    requires
        state.wf(),
    ensures
        HandoffView::fresh().wf(),
        state.publish(app, pid).wf(),
        state.clear(app, pid).wf(),
        state.clear_pid(pid).wf(),
        state.scanned(game).wf(),
        state.unscanned().wf(),
        state.removed(app, pid).wf(),
{
    law_table_update(state.owners, app, pid, app);
    lemma_without(state.owners, app);
    lemma_released(state.owners, pid);
    law_table_update(state.scans, game.id, game, game.id);
    lemma_without(state.scans, app);
}

} // verus!
