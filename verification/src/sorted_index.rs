//! A sorted lookup table from text to a position.
use crate::table::lookup;
use crate::text::{
    lemma_lex_irreflexive, lemma_lex_total, lemma_lex_transitive, less, lex_less, same,
};
use vstd::prelude::*;

verus! {

/// Keys stand in strictly ascending order.
pub open spec fn ascending(s: Seq<(Seq<char>, usize)>) -> bool {
    forall|i: int, j: int|
        0 <= i < j < s.len() ==> lex_less((#[trigger] s[i]).0, (#[trigger] s[j]).0)
}

/// Entries by their views.
pub open spec fn index_view(v: Seq<(String, usize)>) -> Seq<(Seq<char>, usize)> {
    v.map_values(|e: (String, usize)| (e.0@, e.1))
}

/// Positions by key, found by halving.
pub struct SortedIndex {
    entries: Vec<(String, usize)>,
}

impl View for SortedIndex {
    type V = Seq<(Seq<char>, usize)>;

    closed spec fn view(&self) -> Seq<(Seq<char>, usize)> {
        index_view(self.entries@)
    }
}

proof fn lemma_absent(s: Seq<(Seq<char>, usize)>, k: Seq<char>)
    requires
        forall|i: int| 0 <= i < s.len() ==> (#[trigger] s[i]).0 != k,
    ensures
        lookup(s, k) is None,
    decreases s.len(),
{
    if s.len() > 0 {
        assert(s[s.len() - 1].0 != k);
        let t = s.drop_last();
        assert forall|i: int| 0 <= i < t.len() implies (#[trigger] t[i]).0 != k by {
            assert(t[i] == s[i]);
        }
        lemma_absent(t, k);
    }
}

proof fn lemma_present(s: Seq<(Seq<char>, usize)>, i: int)
    requires
        0 <= i < s.len(),
        ascending(s),
    ensures
        lookup(s, s[i].0) == Some(s[i].1),
    decreases s.len(),
{
    if i < s.len() - 1 {
        assert(lex_less(s[i].0, s[s.len() - 1].0));
        lemma_lex_irreflexive(s[i].0);
        let t = s.drop_last();
        assert forall|a: int, b: int| 0 <= a < b < t.len() implies lex_less(
            (#[trigger] t[a]).0,
            (#[trigger] t[b]).0,
        ) by {
            assert(t[a] == s[a] && t[b] == s[b]);
        }
        lemma_present(t, i);
    }
}

/// What lookups in `s` with `(k, v)` put at `p` find.
proof fn lemma_inserted(s: Seq<(Seq<char>, usize)>, p: int, k: Seq<char>, v: usize)
    requires
        ascending(s),
        0 <= p <= s.len(),
        forall|i: int| 0 <= i < p ==> lex_less((#[trigger] s[i]).0, k),
        forall|i: int| p <= i < s.len() ==> lex_less(k, (#[trigger] s[i]).0),
    ensures
        ascending(s.insert(p, (k, v))),
        lookup(s.insert(p, (k, v)), k) == Some(v),
        lookup(s, k) is None,
        forall|o: Seq<char>|
            o != k ==> #[trigger] lookup(s.insert(p, (k, v)), o) == lookup(s, o),
{
    let t = s.insert(p, (k, v));
    assert forall|i: int, j: int| 0 <= i < j < t.len() implies lex_less(
        (#[trigger] t[i]).0,
        (#[trigger] t[j]).0,
    ) by {
        if i < p && j > p {
            assert(t[i] == s[i] && t[j] == s[j - 1]);
        } else if j < p {
            assert(t[i] == s[i] && t[j] == s[j]);
        } else if i > p {
            assert(t[i] == s[i - 1] && t[j] == s[j - 1]);
        } else if i == p {
            assert(t[j] == s[j - 1]);
        } else {
            assert(t[i] == s[i]);
        }
    }
    assert(t[p].0 == k);
    lemma_present(t, p);
    assert forall|i: int| 0 <= i < s.len() implies (#[trigger] s[i]).0 != k by {
        lemma_lex_irreflexive(k);
    }
    lemma_absent(s, k);
    assert forall|o: Seq<char>| o != k implies #[trigger] lookup(t, o) == lookup(s, o) by {
        if exists|i: int| 0 <= i < s.len() && (#[trigger] s[i]).0 == o {
            let i = choose|i: int| 0 <= i < s.len() && (#[trigger] s[i]).0 == o;
            lemma_present(s, i);
            let i2 = if i < p { i } else { i + 1 };
            assert(t[i2] == s[i]);
            lemma_present(t, i2);
        } else {
            lemma_absent(s, o);
            assert forall|i: int| 0 <= i < t.len() implies (#[trigger] t[i]).0 != o by {
                if i < p {
                    assert(t[i] == s[i]);
                } else if i > p {
                    assert(t[i] == s[i - 1]);
                }
            }
            lemma_absent(t, o);
        }
    }
}

impl SortedIndex {
    #[verifier::type_invariant]
    spec fn sorted(self) -> bool {
        ascending(index_view(self.entries@))
    }

    /// The empty table.
    pub fn new() -> (r: Self)
        ensures
            r@ == Seq::<(Seq<char>, usize)>::empty(),
    {
        let r = SortedIndex { entries: Vec::new() };
        assert(r@ =~= Seq::<(Seq<char>, usize)>::empty());
        r
    }

    /// Where `key` stands among `entries`, or where it would.
    fn place_of(entries: &Vec<(String, usize)>, key: &str) -> (r: (bool, usize))
        requires
            ascending(index_view(entries@)),
        ensures
            r.1 <= entries@.len(),
            r.0 ==> r.1 < entries@.len() && entries@[r.1 as int].0@ == key@,
            !r.0 ==> forall|i: int|
                0 <= i < r.1 ==> lex_less((#[trigger] index_view(entries@)[i]).0, key@),
            !r.0 ==> forall|i: int|
                r.1 <= i < entries@.len() ==> lex_less(
                    key@,
                    (#[trigger] index_view(entries@)[i]).0,
                ),
    {
        let ghost s = index_view(entries@);
        let mut lo: usize = 0;
        let mut hi: usize = entries.len();
        while lo < hi
            invariant
                lo <= hi <= entries@.len(),
                s == index_view(entries@),
                ascending(s),
                forall|i: int| 0 <= i < lo ==> lex_less((#[trigger] s[i]).0, key@),
                forall|i: int| hi <= i < s.len() ==> lex_less(key@, (#[trigger] s[i]).0),
            decreases hi - lo,
        {
            let mid: usize = lo + (hi - lo) / 2;
            let here = entries[mid].0.as_str();
            assert(s[mid as int].0 == here@);
            if same(here, key) {
                return (true, mid);
            }
            if less(here, key) {
                assert forall|i: int| 0 <= i < mid + 1 implies lex_less(
                    (#[trigger] s[i]).0,
                    key@,
                ) by {
                    if i < mid {
                        lemma_lex_transitive(s[i].0, s[mid as int].0, key@);
                    }
                }
                lo = mid + 1;
            } else {
                proof {
                    lemma_lex_total(here@, key@);
                }
                assert forall|i: int| mid <= i < s.len() implies lex_less(
                    key@,
                    (#[trigger] s[i]).0,
                ) by {
                    if i > mid {
                        lemma_lex_transitive(key@, s[mid as int].0, s[i].0);
                    }
                }
                hi = mid;
            }
        }
        (false, lo)
    }

    /// The position under `key`.
    pub fn get(&self, key: &str) -> (r: Option<usize>)
        ensures
            r == lookup(self@, key@),
    {
        proof {
            use_type_invariant(&*self);
        }
        let (found, i) = SortedIndex::place_of(&self.entries, key);
        let ghost s = index_view(self.entries@);
        if found {
            proof {
                assert(s[i as int].0 == key@);
                lemma_present(s, i as int);
            }
            Some(self.entries[i].1)
        } else {
            proof {
                assert forall|k: int| 0 <= k < s.len() implies (#[trigger] s[k]).0 != key@ by {
                    lemma_lex_irreflexive(key@);
                }
                lemma_absent(s, key@);
            }
            None
        }
    }

    /// Store a position under `key`, unless one is stored already.
    pub fn add_first(&mut self, key: String, position: usize)
        ensures
            lookup(final(self)@, key@) == Some(
                match lookup(old(self)@, key@) {
                    Some(earlier) => earlier,
                    None => position,
                },
            ),
            forall|o: Seq<char>|
                o != key@ ==> #[trigger] lookup(final(self)@, o) == lookup(old(self)@, o),
    {
        proof {
            use_type_invariant(&*self);
        }
        let mut entries: Vec<(String, usize)> = Vec::new();
        std::mem::swap(&mut entries, &mut self.entries);
        let (found, i) = SortedIndex::place_of(&entries, key.as_str());
        let ghost s = index_view(entries@);
        if found {
            proof {
                assert(s[i as int].0 == key@);
                lemma_present(s, i as int);
            }
        } else {
            proof {
                lemma_inserted(s, i as int, key@, position);
            }
            entries.insert(i, (key, position));
            assert(index_view(entries@) =~= s.insert(i as int, (key@, position)));
        }
        self.entries = entries;
    }
}

} // verus!
