//! What one game connection has published, so that its end can clear it.
use crate::json::{opt_str, opt_text};
use crate::payload::{clear_cmd, ActivityCmd, CmdView};
use vstd::prelude::*;

verus! {

/// How many publishing processes a connection is remembered for.
pub const MAX_PUBLICATIONS: usize = 16;

/// Publishing processes of a connection and the application of each, oldest
/// first.
pub struct Publications {
    pub entries: Vec<(u64, Option<String>)>,
}

/// Model of an entry.
pub type Publication = (u64, Option<Seq<char>>);

/// Entries by their views.
pub open spec fn publications_view(v: Seq<(u64, Option<String>)>) -> Seq<Publication> {
    v.map_values(|e: (u64, Option<String>)| (e.0, opt_text(e.1)))
}

impl View for Publications {
    type V = Seq<Publication>;

    open spec fn view(&self) -> Seq<Publication> {
        publications_view(self.entries@)
    }
}

/// `s` without the entries of `pid`.
pub open spec fn withdrawn(s: Seq<Publication>, pid: u64) -> Seq<Publication>
    decreases s.len(),
{
    if s.len() == 0 {
        s
    } else if s.last().0 == pid {
        withdrawn(s.drop_last(), pid)
    } else {
        withdrawn(s.drop_last(), pid).push(s.last())
    }
}

/// `s` after `pid` published for `app`, before the bound is applied.
pub open spec fn published(s: Seq<Publication>, pid: u64, app: Option<Seq<char>>) -> Seq<
    Publication,
> {
    withdrawn(s, pid).push((pid, app))
}

/// The commands that clear the entries of `s`, in order.
pub open spec fn clears_of(s: Seq<Publication>) -> Seq<CmdView> {
    s.map_values(|e: Publication| clear_cmd(e.1, e.0))
}

/// Commands by their views.
pub open spec fn cmds_view(v: Seq<ActivityCmd>) -> Seq<CmdView> {
    v.map_values(|c: ActivityCmd| c@)
}

pub proof fn lemma_withdrawn(s: Seq<Publication>, pid: u64, x: Publication)
    ensures
        withdrawn(s, pid).len() <= s.len(),
        withdrawn(s, pid).contains(x) <==> s.contains(x) && x.0 != pid,
    decreases s.len(),
{
    if s.len() > 0 {
        let t = s.drop_last();
        lemma_withdrawn(t, pid, x);
        let w = withdrawn(t, pid);
        if t.contains(x) {
            let i = choose|i: int| 0 <= i < t.len() && t[i] == x;
            assert(s[i] == x);
        }
        if s.contains(x) && x != s.last() {
            let i = choose|i: int| 0 <= i < s.len() && s[i] == x;
            assert(t[i] == x);
        }
        assert(s[s.len() - 1] == s.last());
        if s.last().0 != pid {
            let p = w.push(s.last());
            if w.contains(x) {
                let i = choose|i: int| 0 <= i < w.len() && w[i] == x;
                assert(p[i] == x);
            }
            if p.contains(x) && x != s.last() {
                let i = choose|i: int| 0 <= i < p.len() && p[i] == x;
                assert(w[i] == x);
            }
            assert(p[w.len() as int] == s.last());
        }
    }
}

impl Publications {
    /// Nothing published.
    pub fn new() -> (r: Self)
        ensures
            r@ == Seq::<Publication>::empty(),
    {
        let r = Publications { entries: Vec::new() };
        assert(r@ =~= Seq::<Publication>::empty());
        r
    }

    /// Forget what `pid` published.
    pub fn withdraw(&mut self, pid: u64)
        ensures
            final(self)@ == withdrawn(old(self)@, pid),
    {
        let ghost all = self@;
        let mut kept: Vec<(u64, Option<String>)> = Vec::new();
        let mut i: usize = 0;
        assert(all.take(0) == Seq::<Publication>::empty());
        assert(publications_view(kept@) == Seq::<Publication>::empty());
        while i < self.entries.len()
            invariant
                all == self@,
                i <= self.entries@.len(),
                publications_view(kept@) == withdrawn(all.take(i as int), pid),
            decreases self.entries@.len() - i,
        {
            assert(all.take(i + 1).drop_last() == all.take(i as int));
            assert(all.take(i + 1).last() == all[i as int]);
            if self.entries[i].0 != pid {
                let ghost before = publications_view(kept@);
                let app = match &self.entries[i].1 {
                    Some(app) => Some(app.clone()),
                    None => None,
                };
                let ghost shown = (self.entries[i as int].0, opt_text(app));
                kept.push((self.entries[i].0, app));
                assert(publications_view(kept@) == before.push(shown));
            }
            i = i + 1;
        }
        assert(all.take(all.len() as int) == all);
        self.entries = kept;
    }

    /// Remember that `pid` published for `app`. Beyond the bound the oldest
    /// entry leaves; its clear is handed back, so that nothing stays on
    /// screen that is not remembered.
    pub fn record(&mut self, pid: u64, app: Option<&str>) -> (r: Option<ActivityCmd>)
        ensures
            ({
                let all = published(old(self)@, pid, opt_str(app));
                if all.len() > MAX_PUBLICATIONS {
                    &&& final(self)@ == all.skip(1)
                    &&& r matches Some(clear) && clear@ == clear_cmd(all[0].1, all[0].0)
                } else {
                    final(self)@ == all && r is None
                }
            }),
    {
        self.withdraw(pid);
        let ghost before = self@;
        let app = match app {
            Some(app) => Some(app.to_owned()),
            None => None,
        };
        let ghost shown = opt_text(app);
        self.entries.push((pid, app));
        assert(self@ == before.push((pid, shown)));
        let ghost all = self@;
        if self.entries.len() > MAX_PUBLICATIONS {
            let (gone, gone_app) = self.entries.remove(0);
            assert(self@ == all.skip(1));
            assert(all[0] == (gone, opt_text(gone_app)));
            Some(ActivityCmd::clear_for(gone_app, gone))
        } else {
            None
        }
    }

    /// The clears of everything that is remembered, oldest first; nothing is
    /// remembered then.
    pub fn take_clears(&mut self) -> (r: Vec<ActivityCmd>)
        ensures
            cmds_view(r@) == clears_of(old(self)@),
            final(self)@ == Seq::<Publication>::empty(),
    {
        let ghost all = self@;
        let mut out: Vec<ActivityCmd> = Vec::new();
        let mut i: usize = 0;
        assert(cmds_view(out@) == Seq::<CmdView>::empty());
        while i < self.entries.len()
            invariant
                all == self@,
                i <= self.entries@.len(),
                cmds_view(out@) == clears_of(all.take(i as int)),
            decreases self.entries@.len() - i,
        {
            let ghost before = cmds_view(out@);
            let app = match &self.entries[i].1 {
                Some(app) => Some(app.clone()),
                None => None,
            };
            let clear = ActivityCmd::clear_for(app, self.entries[i].0);
            let ghost shown = clear@;
            out.push(clear);
            assert(cmds_view(out@) == before.push(shown));
            assert(all.take(i + 1) == all.take(i as int).push(all[i as int]));
            i = i + 1;
        }
        assert(all.take(all.len() as int) == all);
        self.entries = Vec::new();
        assert(self@ =~= Seq::<Publication>::empty());
        out
    }
}

/// Recording a publication never loses one: whatever was remembered still
/// is, or was handed back to be cleared at once, or is the earlier
/// publication of the same process.
pub proof fn law_publications_never_ghost(
    s: Seq<Publication>,
    pid: u64,
    app: Option<Seq<char>>,
    x: Publication,
)
    requires
        s.contains(x),
    ensures
        ({
            let all = published(s, pid, app);
            let kept = if all.len() > MAX_PUBLICATIONS {
                all.skip(1)
            } else {
                all
            };
            x.0 == pid || kept.contains(x) || (all.len() > MAX_PUBLICATIONS && all[0] == x)
        }),
{
    let all = published(s, pid, app);
    if x.0 != pid {
        lemma_withdrawn(s, pid, x);
        let w = withdrawn(s, pid);
        let i = choose|i: int| 0 <= i < w.len() && w[i] == x;
        assert(all[i] == x);
        if all.len() > MAX_PUBLICATIONS && i > 0 {
            assert(all.skip(1)[i - 1] == x);
        }
    }
}

/// The memory of a connection stays within its bound.
pub proof fn law_publications_bounded(s: Seq<Publication>, pid: u64, app: Option<Seq<char>>)
    requires
        s.len() <= MAX_PUBLICATIONS,
    ensures
        ({
            let all = published(s, pid, app);
            let kept = if all.len() > MAX_PUBLICATIONS {
                all.skip(1)
            } else {
                all
            };
            kept.len() <= MAX_PUBLICATIONS
        }),
{
    lemma_withdrawn(s, pid, (pid, app));
}

} // verus!
