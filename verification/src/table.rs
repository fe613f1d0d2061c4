//! Small tables keyed by text, kept in the order of their last update.
use crate::text::same;
use vstd::prelude::*;

verus! {

/// Value stored under `k`.
pub open spec fn lookup<V>(s: Seq<(Seq<char>, V)>, k: Seq<char>) -> Option<V>
    decreases s.len(),
{
    if s.len() == 0 {
        None
    } else if s.last().0 == k {
        Some(s.last().1)
    } else {
        lookup(s.drop_last(), k)
    }
}

/// `s` without the entries under `k`.
pub open spec fn without<V>(s: Seq<(Seq<char>, V)>, k: Seq<char>) -> Seq<(Seq<char>, V)>
    decreases s.len(),
{
    if s.len() == 0 {
        s
    } else if s.last().0 == k {
        without(s.drop_last(), k)
    } else {
        without(s.drop_last(), k).push(s.last())
    }
}

/// `s` with `v` stored under `k`, as its latest entry.
pub open spec fn with<V>(s: Seq<(Seq<char>, V)>, k: Seq<char>, v: V) -> Seq<(Seq<char>, V)> {
    without(s, k).push((k, v))
}

/// No key occurs twice.
pub open spec fn distinct<V>(s: Seq<(Seq<char>, V)>) -> bool {
    forall|i: int, j: int| 0 <= i < j < s.len() ==> (#[trigger] s[i]).0 != (#[trigger] s[j]).0
}

/// Every entry left by [`without`] is an entry of `s` under another key, and
/// the order is kept.
pub proof fn lemma_without<V>(s: Seq<(Seq<char>, V)>, k: Seq<char>)
    ensures
        without(s, k).len() <= s.len(),
        forall|i: int|
            0 <= i < without(s, k).len() ==> (#[trigger] without(s, k)[i]).0 != k && s.contains(
                without(s, k)[i],
            ),
        forall|i: int|
            0 <= i < s.len() && (#[trigger] s[i]).0 != k ==> without(s, k).contains(s[i]),
        lookup(without(s, k), k) is None,
        distinct(s) ==> distinct(without(s, k)),
    decreases s.len(),
{
    if s.len() > 0 {
        let t = s.drop_last();
        lemma_without(t, k);
        let w = without(s, k);
        assert forall|i: int| 0 <= i < w.len() implies (#[trigger] w[i]).0 != k && s.contains(
            w[i],
        ) by {
            if i < without(t, k).len() {
                assert(w[i] == without(t, k)[i]);
                let j = choose|j: int| 0 <= j < t.len() && t[j] == w[i];
                assert(s[j] == w[i]);
            } else {
                assert(s[s.len() - 1] == w[i]);
            }
        }
        assert forall|i: int| 0 <= i < s.len() && (#[trigger] s[i]).0 != k implies w.contains(
            s[i],
        ) by {
            if i < t.len() {
                assert(t[i] == s[i]);
                let j = choose|j: int| 0 <= j < without(t, k).len() && without(t, k)[j] == s[i];
                assert(w[j] == s[i]);
            } else {
                assert(w[w.len() - 1] == s[i]);
            }
        }
        if s.last().0 != k {
            assert(w.drop_last() == without(t, k));
        }
        if distinct(s) {
            assert(distinct(t)) by {
                assert forall|i: int, j: int| 0 <= i < j < t.len() implies (#[trigger] t[i]).0 != (
                #[trigger] t[j]).0 by {
                    assert(t[i] == s[i] && t[j] == s[j]);
                }
            }
            assert forall|i: int, j: int| 0 <= i < j < w.len() implies (#[trigger] w[i]).0 != (
            #[trigger] w[j]).0 by {
                if j < without(t, k).len() {
                    assert(w[i] == without(t, k)[i] && w[j] == without(t, k)[j]);
                } else {
                    assert(w[i] == without(t, k)[i]);
                    let m = choose|m: int| 0 <= m < t.len() && t[m] == w[i];
                    assert(s[m] == w[i]);
                    assert(s[s.len() - 1] == w[j]);
                }
            }
        }
    }
}

/// What is stored under other keys stays.
pub proof fn lemma_without_lookup<V>(s: Seq<(Seq<char>, V)>, k: Seq<char>, o: Seq<char>)
    requires
        o != k,
    ensures
        lookup(without(s, k), o) == lookup(s, o),
    decreases s.len(),
{
    if s.len() > 0 {
        lemma_without_lookup(s.drop_last(), k, o);
        if s.last().0 != k {
            assert(without(s, k).drop_last() == without(s.drop_last(), k));
        }
    }
}

/// Reading after an update gives the new value under its key and the old
/// values elsewhere; no key becomes double.
pub proof fn law_table_update<V>(s: Seq<(Seq<char>, V)>, k: Seq<char>, v: V, o: Seq<char>)
    ensures
        lookup(with(s, k, v), k) == Some(v),
        o != k ==> lookup(with(s, k, v), o) == lookup(s, o),
        distinct(s) ==> distinct(with(s, k, v)),
        with(s, k, v).len() <= s.len() + 1,
{
    lemma_without(s, k);
    assert(with(s, k, v).drop_last() == without(s, k));
    if o != k {
        lemma_without_lookup(s, k, o);
    }
}

/// A key is found exactly when some entry carries it.
pub proof fn lemma_lookup<V>(s: Seq<(Seq<char>, V)>, k: Seq<char>)
    ensures
        lookup(s, k) is Some <==> exists|i: int| 0 <= i < s.len() && (#[trigger] s[i]).0 == k,
    decreases s.len(),
{
    if s.len() > 0 {
        let t = s.drop_last();
        lemma_lookup(t, k);
        if s.last().0 == k {
            assert(s[s.len() - 1].0 == k);
        } else {
            assert forall|i: int| 0 <= i < s.len() && (#[trigger] s[i]).0 == k implies lookup(
                t,
                k,
            ) is Some by {
                assert(t[i].0 == k);
            }
            if lookup(t, k) is Some {
                let i = choose|i: int| 0 <= i < t.len() && (#[trigger] t[i]).0 == k;
                assert(s[i].0 == k);
            }
        }
    }
}

/// The entries of `v`, keys and values by their views.
pub open spec fn entries_view<V: View>(v: Seq<(String, V)>) -> Seq<(Seq<char>, V::V)> {
    v.map_values(|e: (String, V)| (e.0@, e.1@))
}

/// View of an optional value.
pub open spec fn opt_view<V: View>(v: Option<V>) -> Option<V::V> {
    match v {
        Some(x) => Some(x@),
        None => None,
    }
}

/// A table from text to `V`, oldest update first.
pub struct Table<V> {
    pub entries: Vec<(String, V)>,
}

impl<V: View> View for Table<V> {
    type V = Seq<(Seq<char>, V::V)>;

    open spec fn view(&self) -> Seq<(Seq<char>, V::V)> {
        entries_view(self.entries@)
    }
}

impl<V: View> Table<V> {
    /// The empty table.
    pub fn new() -> (r: Self)
        ensures
            r@ == Seq::<(Seq<char>, V::V)>::empty(),
    {
        let r = Table { entries: Vec::new() };
        assert(r@ =~= Seq::<(Seq<char>, V::V)>::empty());
        r
    }

    /// Number of entries.
    pub fn len(&self) -> (r: usize)
        ensures
            r == self@.len(),
    {
        self.entries.len()
    }

    /// The value under `k`.
    pub fn get(&self, k: &str) -> (r: Option<&V>)
        ensures
            match r {
                Some(v) => lookup(self@, k@) == Some(v@),
                None => lookup(self@, k@) is None,
            },
    {
        let mut i: usize = self.entries.len();
        assert(self@.take(i as int) == self@);
        while i > 0
            invariant
                i <= self.entries@.len(),
                lookup(self@.take(i as int), k@) == lookup(self@, k@),
            decreases i,
        {
            assert(self@.take(i as int).drop_last() == self@.take(i - 1));
            assert(self@.take(i as int).last() == self@[i - 1]);
            if same(self.entries[i - 1].0.as_str(), k) {
                return Some(&self.entries[i - 1].1);
            }
            i = i - 1;
        }
        None
    }

    /// Whether some value is stored under `k`.
    pub fn has(&self, k: &str) -> (r: bool)
        ensures
            r == (lookup(self@, k@) is Some),
    {
        self.get(k).is_some()
    }

    /// Drop what is stored under `k` and hand it back.
    pub fn remove(&mut self, k: &str) -> (r: Option<V>)
        ensures
            final(self)@ == without(old(self)@, k@),
            opt_view(r) == lookup(old(self)@, k@),
    {
        let ghost all = self@;
        let mut r: Option<V> = None;
        let mut i: usize = 0;
        let ghost mut seen: int = 0;
        assert(all.take(0) =~= Seq::<(Seq<char>, V::V)>::empty());
        assert(self@ =~= without(all.take(0), k@) + all.skip(0));
        while i < self.entries.len()
            invariant
                0 <= seen <= all.len(),
                self@ == without(all.take(seen), k@) + all.skip(seen),
                i == without(all.take(seen), k@).len(),
                opt_view(r) == lookup(all.take(seen), k@),
                self@.len() == self.entries@.len(),
            decreases all.len() - seen,
        {
            assert(seen < all.len()) by {
                assert(self@.len() == without(all.take(seen), k@).len() + all.skip(seen).len());
            }
            assert(all.take(seen + 1).drop_last() == all.take(seen));
            assert(all.take(seen + 1).last() == all[seen]);
            assert(self@[i as int] == all[seen]);
            let ghost before = self@;
            if same(self.entries[i].0.as_str(), k) {
                let e = self.entries.remove(i);
                r = Some(e.1);
                assert(self@ =~= before.remove(i as int));
                assert(before.remove(i as int) =~= without(all.take(seen), k@) + all.skip(seen + 1));
            } else {
                i = i + 1;
                assert(before =~= without(all.take(seen + 1), k@) + all.skip(seen + 1));
            }
            proof {
                seen = seen + 1;
            }
        }
        assert(seen == all.len()) by {
            assert(self@.len() == without(all.take(seen), k@).len() + all.skip(seen).len());
        }
        assert(all.take(seen) =~= all);
        assert(self@ =~= without(all, k@));
        r
    }

    /// Store `v` under `k`.
    pub fn put(&mut self, k: String, v: V)
        ensures
            final(self)@ == with(old(self)@, k@, v@),
    {
        let _ = self.remove(k.as_str());
        let ghost before = self@;
        self.entries.push((k, v));
        assert(self@ =~= before.push((k@, v@)));
    }
}

/// A set of texts.
pub struct IdSet {
    pub ids: Vec<String>,
}

/// The texts of `v` as character sequences.
pub open spec fn texts(v: Seq<String>) -> Seq<Seq<char>> {
    v.map_values(|s: String| s@)
}

impl View for IdSet {
    type V = Seq<Seq<char>>;

    open spec fn view(&self) -> Seq<Seq<char>> {
        texts(self.ids@)
    }
}

impl IdSet {
    /// The empty set.
    pub fn new() -> (r: Self)
        ensures
            r@ == Seq::<Seq<char>>::empty(),
    {
        let r = IdSet { ids: Vec::new() };
        assert(r@ =~= Seq::<Seq<char>>::empty());
        r
    }

    /// Number of members.
    pub fn len(&self) -> (r: usize)
        ensures
            r == self@.len(),
    {
        self.ids.len()
    }

    /// Whether `id` is a member.
    pub fn contains(&self, id: &str) -> (r: bool)
        ensures
            r == self@.contains(id@),
    {
        let mut i: usize = 0;
        while i < self.ids.len()
            invariant
                i <= self.ids@.len(),
                forall|j: int| 0 <= j < i ==> #[trigger] self@[j] != id@,
            decreases self.ids@.len() - i,
        {
            if same(self.ids[i].as_str(), id) {
                assert(self@[i as int] == id@);
                return true;
            }
            assert(self@[i as int] != id@);
            i = i + 1;
        }
        false
    }

    /// Add `id`; whether it was new.
    pub fn insert(&mut self, id: String) -> (r: bool)
        ensures
            r == !old(self)@.contains(id@),
            final(self)@ == if r {
                old(self)@.push(id@)
            } else {
                old(self)@
            },
    {
        if self.contains(id.as_str()) {
            return false;
        }
        let ghost before = self@;
        self.ids.push(id);
        assert(self@ =~= before.push(id@));
        true
    }
}

} // verus!
