//! Flood guard: identical republishes within a short window are dropped.
use crate::json::{opt_str, opt_text};
use crate::text::same;
use vstd::prelude::*;

verus! {

/// One recently accepted publish.
pub struct Recent {
    pub app: String,
    pub pid: u64,
    pub fingerprint: Option<String>,
    pub at_ms: u64,
}

/// Model of a [`Recent`].
pub struct RecentView {
    pub app: Seq<char>,
    pub pid: u64,
    pub fingerprint: Option<Seq<char>>,
    pub at_ms: u64,
}

impl View for Recent {
    type V = RecentView;

    open spec fn view(&self) -> RecentView {
        RecentView {
            app: self.app@,
            pid: self.pid,
            fingerprint: opt_text(self.fingerprint),
            at_ms: self.at_ms,
        }
    }
}

/// Recently accepted publishes, oldest first.
pub struct RecentActivities {
    pub window_ms: u64,
    pub entries: Vec<Recent>,
}

/// The entries of `v` by their views.
pub open spec fn recents(v: Seq<Recent>) -> Seq<RecentView> {
    v.map_values(|e: Recent| e@)
}

/// Whether `e` is no older than the window.
pub open spec fn in_window(e: RecentView, window_ms: u64, now_ms: u64) -> bool {
    now_ms < e.at_ms || now_ms - e.at_ms < window_ms
}

/// Whether a publish repeats one of `s` within the window.
pub open spec fn repeats(
    s: Seq<RecentView>,
    app: Seq<char>,
    pid: u64,
    fingerprint: Option<Seq<char>>,
    window_ms: u64,
    now_ms: u64,
) -> bool {
    exists|i: int|
        0 <= i < s.len() && (#[trigger] s[i]).app == app && s[i].pid == pid && s[i].fingerprint
            == fingerprint && in_window(s[i], window_ms, now_ms)
}

/// The entries of `s` that still count when `(app, pid)` publishes anew.
pub open spec fn others(
    s: Seq<RecentView>,
    app: Seq<char>,
    pid: u64,
    window_ms: u64,
    now_ms: u64,
) -> Seq<RecentView>
    decreases s.len(),
{
    if s.len() == 0 {
        s
    } else {
        let rest = others(s.drop_last(), app, pid, window_ms, now_ms);
        if (s.last().app == app && s.last().pid == pid) || !in_window(
            s.last(),
            window_ms,
            now_ms,
        ) {
            rest
        } else {
            rest.push(s.last())
        }
    }
}

/// Entries after a publish at `now_ms`: a repeat changes nothing, anything
/// else becomes the latest publish of its `(app, pid)`.
pub open spec fn noted(
    s: Seq<RecentView>,
    app: Seq<char>,
    pid: u64,
    fingerprint: Option<Seq<char>>,
    window_ms: u64,
    now_ms: u64,
) -> Seq<RecentView> {
    if repeats(s, app, pid, fingerprint, window_ms, now_ms) {
        s
    } else {
        others(s, app, pid, window_ms, now_ms).push(
            RecentView { app, pid, fingerprint, at_ms: now_ms },
        )
    }
}

/// Whether two optional texts are the same.
pub fn same_opt(a: &Option<String>, b: Option<&str>) -> (r: bool)
    ensures
        r == (opt_text(*a) == opt_str(b)),
{
    match a {
        Some(x) => match b {
            Some(y) => same(x.as_str(), y),
            None => false,
        },
        None => b.is_none(),
    }
}

impl RecentActivities {
    /// Nothing published yet.
    pub fn new(window_ms: u64) -> (r: Self)
        ensures
            r.window_ms == window_ms,
            recents(r.entries@) == Seq::<RecentView>::empty(),
    {
        let r = RecentActivities { window_ms, entries: Vec::new() };
        assert(recents(r.entries@) =~= Seq::<RecentView>::empty());
        r
    }

    /// Whether a publish repeats an accepted one within the window. One that
    /// does not is remembered.
    pub fn should_drop(&mut self, app: &str, pid: u64, fingerprint: Option<&str>, now_ms: u64) -> (r:
        bool)
        ensures
            final(self).window_ms == old(self).window_ms,
            r == repeats(
                recents(old(self).entries@),
                app@,
                pid,
                opt_str(fingerprint),
                old(self).window_ms,
                now_ms,
            ),
            recents(final(self).entries@) == noted(
                recents(old(self).entries@),
                app@,
                pid,
                opt_str(fingerprint),
                old(self).window_ms,
                now_ms,
            ),
    {
        let ghost s = recents(self.entries@);
        let ghost fp = opt_str(fingerprint);
        let window_ms = self.window_ms;
        let mut i: usize = 0;
        while i < self.entries.len()
            invariant
                s == recents(self.entries@),
                s == recents(old(self).entries@),
                window_ms == old(self).window_ms,
                window_ms == self.window_ms,
                fp == opt_str(fingerprint),
                i <= self.entries@.len(),
                forall|j: int|
                    0 <= j < i ==> !((#[trigger] s[j]).app == app@ && s[j].pid == pid
                        && s[j].fingerprint == fp && in_window(s[j], window_ms, now_ms)),
            decreases self.entries@.len() - i,
        {
            let e = &self.entries[i];
            assert(s[i as int] == e@);
            if e.pid == pid && same(e.app.as_str(), app) && same_opt(&e.fingerprint, fingerprint)
                && (now_ms < e.at_ms || now_ms - e.at_ms < window_ms) {
                return true;
            }
            i = i + 1;
        }
        assert(!repeats(s, app@, pid, fp, window_ms, now_ms));
        let mut kept: Vec<Recent> = Vec::new();
        assert(s.take(0) == Seq::<RecentView>::empty());
        assert(recents(kept@) == Seq::<RecentView>::empty());
        let mut k: usize = 0;
        while k < self.entries.len()
            invariant
                s == recents(self.entries@),
                k <= self.entries@.len(),
                recents(kept@) == others(s.take(k as int), app@, pid, window_ms, now_ms),
            decreases self.entries@.len() - k,
        {
            assert(s.take(k + 1).drop_last() == s.take(k as int));
            assert(s.take(k + 1).last() == s[k as int]);
            let e = &self.entries[k];
            assert(s[k as int] == e@);
            let mine = e.pid == pid && same(e.app.as_str(), app);
            if !mine && (now_ms < e.at_ms || now_ms - e.at_ms < window_ms) {
                let ghost before = recents(kept@);
                kept.push(
                    Recent {
                        app: e.app.clone(),
                        pid: e.pid,
                        fingerprint: match &e.fingerprint {
                            Some(text) => Some(text.clone()),
                            None => None,
                        },
                        at_ms: e.at_ms,
                    },
                );
                assert(recents(kept@) == before.push(s[k as int]));
            }
            k = k + 1;
        }
        assert(s.take(s.len() as int) == s);
        let ghost before = recents(kept@);
        kept.push(
            Recent {
                app: app.to_owned(),
                pid,
                fingerprint: match fingerprint {
                    Some(text) => Some(text.to_owned()),
                    None => None,
                },
                at_ms: now_ms,
            },
        );
        assert(recents(kept@) == before.push(
            RecentView { app: app@, pid, fingerprint: fp, at_ms: now_ms },
        ));
        self.entries = kept;
        false
    }
}

/// A publish that was accepted is dropped when it comes again within the
/// window, and accepted again once the window is over.
pub proof fn law_flood_window(
    s: Seq<RecentView>,
    app: Seq<char>,
    pid: u64,
    fingerprint: Option<Seq<char>>,
    window_ms: u64,
    now_ms: u64,
    later_ms: u64,
)
    requires
        !repeats(s, app, pid, fingerprint, window_ms, now_ms),
        now_ms <= later_ms,
    ensures
        repeats(
            noted(s, app, pid, fingerprint, window_ms, now_ms),
            app,
            pid,
            fingerprint,
            window_ms,
            later_ms,
        ) == (later_ms - now_ms < window_ms),
{
    let t = noted(s, app, pid, fingerprint, window_ms, now_ms);
    let rest = others(s, app, pid, window_ms, now_ms);
    lemma_others(s, app, pid, window_ms, now_ms);
    assert(t[t.len() - 1] == (RecentView { app, pid, fingerprint, at_ms: now_ms }));
    assert forall|i: int| 0 <= i < t.len() && (#[trigger] t[i]).app == app && t[i].pid
        == pid implies i == t.len() - 1 by {
        if i < rest.len() {
            assert(t[i] == rest[i]);
        }
    }
}

proof fn lemma_others(s: Seq<RecentView>, app: Seq<char>, pid: u64, window_ms: u64, now_ms: u64)
    ensures
        forall|i: int|
            0 <= i < others(s, app, pid, window_ms, now_ms).len() ==> !((#[trigger] others(
                s,
                app,
                pid,
                window_ms,
                now_ms,
            )[i]).app == app && others(s, app, pid, window_ms, now_ms)[i].pid == pid),
    decreases s.len(),
{
    if s.len() > 0 {
        lemma_others(s.drop_last(), app, pid, window_ms, now_ms);
    }
}

} // verus!
