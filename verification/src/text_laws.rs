//! Laws of the text functions.
use crate::text::{
    alphanumeric, decimal, digit, digits_value, find, law_decimal_round_trip, lemma_lex_irreflexive,
    lemma_rfind, lex_less, lower, parsed, rfind, split, trim_end, trim_start, trimmed, white,
};
use vstd::prelude::*;

verus! {

/// Nothing but white space.
pub open spec fn blank(s: Seq<char>) -> bool {
    forall|i: int| 0 <= i < s.len() ==> white(#[trigger] s[i])
}

proof fn lemma_trim_start(s: Seq<char>) -> (a: int)
    ensures
        0 <= a <= s.len(),
        trim_start(s) == s.skip(a),
        forall|i: int| 0 <= i < a ==> white(#[trigger] s[i]),
        a < s.len() ==> !white(s[a]),
    decreases s.len(),
{
    if s.len() > 0 && white(s[0]) {
        let b = lemma_trim_start(s.drop_first());
        assert(s.drop_first().skip(b) =~= s.skip(b + 1));
        assert forall|i: int| 0 <= i < b + 1 implies white(#[trigger] s[i]) by {
            if i > 0 {
                assert(s.drop_first()[i - 1] == s[i]);
            }
        }
        if b < s.drop_first().len() {
            assert(s.drop_first()[b] == s[b + 1]);
        }
        b + 1
    } else {
        assert(s.skip(0) =~= s);
        0
    }
}

proof fn lemma_trim_end(s: Seq<char>) -> (b: int)
    ensures
        0 <= b <= s.len(),
        trim_end(s) == s.take(b),
        forall|i: int| b <= i < s.len() ==> white(#[trigger] s[i]),
        b > 0 ==> !white(s[b - 1]),
    decreases s.len(),
{
    if s.len() > 0 && white(s.last()) {
        let b = lemma_trim_end(s.drop_last());
        assert(s.drop_last().take(b) =~= s.take(b));
        assert forall|i: int| b <= i < s.len() implies white(#[trigger] s[i]) by {
            if i < s.len() - 1 {
                assert(s.drop_last()[i] == s[i]);
            }
        }
        if b > 0 {
            assert(s.drop_last()[b - 1] == s[b - 1]);
        }
        b
    } else {
        assert(s.take(s.len() as int) =~= s);
        s.len() as int
    }
}

/// A trimmed text is what is left of the text between white space: all that
/// was cut off is white space, and no end of what is left is.
#[verifier::rlimit(40)]
pub proof fn law_trimmed(s: Seq<char>)
    ensures
        exists|a: int, b: int|
            {
                &&& 0 <= a <= b <= s.len()
                &&& trimmed(s) == #[trigger] s.subrange(a, b)
                &&& blank(s.take(a))
                &&& blank(s.skip(b))
            },
        trimmed(s).len() > 0 ==> !white(trimmed(s)[0]) && !white(trimmed(s).last()),
        trimmed(s).len() == 0 <==> blank(s),
{
    let a = lemma_trim_start(s);
    let t = s.skip(a);
    let e = lemma_trim_end(t);
    let b = a + e;
    assert(t.take(e) =~= s.subrange(a, b));
    assert forall|i: int| 0 <= i < s.skip(b).len() implies white(#[trigger] s.skip(b)[i]) by {
        assert(s.skip(b)[i] == t[e + i]);
    }
    assert(blank(s.take(a)));
    if e > 0 {
        assert(t[e - 1] == s[b - 1]);
        assert(t[0] == s[a]);
        assert(!white(s[a]));
    } else {
        assert forall|i: int| 0 <= i < s.len() implies white(#[trigger] s[i]) by {
            if i >= a {
                assert(t[i - a] == s[i]);
            }
        }
    }
    assert(trimmed(s) == s.subrange(a, b));
}

/// White space around a text does not change what is left of it.
pub proof fn law_trimmed_again(s: Seq<char>)
    ensures
        trimmed(trimmed(s)) == trimmed(s),
{
    law_trimmed(s);
    let t = trimmed(s);
    let a = lemma_trim_start(t);
    if t.len() > 0 {
        assert(a == 0);
        assert(t.skip(0) =~= t);
        let b = lemma_trim_end(t);
        assert(b == t.len());
        assert(t.take(b) =~= t);
    }
}

/// Folding keeps the length, leaves no capital, changes nothing but capitals,
/// and changes nothing the second time.
pub proof fn law_lower(s: Seq<char>)
    ensures
        lower(s).len() == s.len(),
        forall|i: int|
            0 <= i < s.len() ==> !('A' <= #[trigger] lower(s)[i] <= 'Z') && (if 'A' <= s[i] <= 'Z' {
                lower(s)[i] as u32 == s[i] as u32 + 32
            } else {
                lower(s)[i] == s[i]
            }),
        lower(lower(s)) == lower(s),
{
    assert(lower(lower(s)) =~= lower(s));
}

/// What `find` finds is the first occurrence.
pub proof fn law_find(s: Seq<char>, c: char)
    ensures
        -1 <= find(s, c) < s.len(),
        find(s, c) >= 0 ==> s[find(s, c)] == c,
        forall|i: int| 0 <= i < s.len() && (find(s, c) < 0 || i < find(s, c)) ==> s[i] != c,
    decreases s.len(),
{
    if s.len() > 0 && s[0] != c {
        let rest = s.drop_first();
        law_find(rest, c);
        assert forall|i: int|
            0 <= i < s.len() && (find(s, c) < 0 || i < find(s, c)) implies s[i] != c by {
            if i > 0 {
                assert(rest[i - 1] == s[i]);
            }
        }
    }
}

/// The pieces with `c` between neighbours.
pub open spec fn joined(pieces: Seq<Seq<char>>, c: char) -> Seq<char>
    decreases pieces.len(),
{
    if pieces.len() == 0 {
        Seq::empty()
    } else if pieces.len() == 1 {
        pieces[0]
    } else {
        joined(pieces.drop_last(), c).push(c) + pieces.last()
    }
}

/// A text without `c`.
pub open spec fn without_char(s: Seq<char>, c: char) -> bool {
    forall|i: int| 0 <= i < s.len() ==> s[i] != c
}

/// Joining the pieces of a text gives the text again, and no piece holds what
/// they were split at.
#[verifier::rlimit(40)]
pub proof fn law_split(s: Seq<char>, c: char)
    ensures
        split(s, c).len() > 0,
        joined(split(s, c), c) == s,
        forall|k: int| 0 <= k < split(s, c).len() ==> without_char(#[trigger] split(s, c)[k], c),
    decreases s.len(),
{
    lemma_rfind(s, c);
    let i = rfind(s, c);
    if i >= 0 {
        law_split(s.take(i), c);
        let ps = split(s, c);
        assert(ps.drop_last() =~= split(s.take(i), c));
        assert(s.take(i).push(c) + s.skip(i + 1) =~= s);
        assert forall|k: int| 0 <= k < ps.len() implies without_char(#[trigger] ps[k], c) by {
            if k < ps.len() - 1 {
                assert(ps[k] == split(s.take(i), c)[k]);
            }
        }
    }
}

proof fn lemma_rfind_is(s: Seq<char>, c: char, i: int)
    requires
        0 <= i < s.len(),
        s[i] == c,
        forall|k: int| i < k < s.len() ==> s[k] != c,
    ensures
        rfind(s, c) == i,
{
    lemma_rfind(s, c);
}

proof fn lemma_rfind_none(s: Seq<char>, c: char)
    requires
        without_char(s, c),
    ensures
        rfind(s, c) == -1,
{
    lemma_rfind(s, c);
}

/// One more piece after a separator.
#[verifier::rlimit(40)]
pub proof fn lemma_split_at_last(front: Seq<char>, c: char, last: Seq<char>)
    requires
        without_char(last, c),
    ensures
        split(front.push(c) + last, c) == split(front, c).push(last),
{
    let s = front.push(c) + last;
    lemma_rfind_is(s, c, front.len() as int);
    assert(s.take(front.len() as int) =~= front);
    assert(s.skip(front.len() as int + 1) =~= last);
}

/// Splitting what was joined gives the pieces again.
#[verifier::rlimit(40)]
pub proof fn law_split_joined(pieces: Seq<Seq<char>>, c: char)
    requires
        pieces.len() > 0,
        forall|k: int| 0 <= k < pieces.len() ==> without_char(#[trigger] pieces[k], c),
    ensures
        split(joined(pieces, c), c) == pieces,
    decreases pieces.len(),
{
    let last = pieces.last();
    assert(without_char(pieces[pieces.len() - 1], c));
    if pieces.len() == 1 {
        lemma_rfind_none(last, c);
        assert(split(last, c) == seq![last]);
        assert(seq![last] =~= pieces);
    } else {
        let front = pieces.drop_last();
        assert forall|k: int| 0 <= k < front.len() implies without_char(#[trigger] front[k], c) by {
            assert(front[k] == pieces[k]);
        }
        law_split_joined(front, c);
        let text = joined(front, c);
        assert(joined(pieces, c) == text.push(c) + last);
        lemma_split_at_last(text, c, last);
        assert(front.push(last) =~= pieces);
    }
}

/// Numbers are read as they are written, with or without a plus sign, up to
/// the limit and not beyond it.
pub proof fn law_parsed_decimal(n: nat, max: nat)
    ensures
        parsed(decimal(n), max) == if n <= max {
            Some(n)
        } else {
            None
        },
        parsed(seq!['+'] + decimal(n), max) == parsed(decimal(n), max),
{
    law_decimal_round_trip(n);
    let plus = seq!['+'] + decimal(n);
    assert(digit(decimal(n)[0]));
    assert(plus.drop_first() =~= decimal(n));
}

/// A text with any other character, or with no digit, is no number.
pub proof fn law_parsed_refuses(s: Seq<char>, i: int, max: nat)
    requires
        s.len() == 0 || s == seq!['+'] || (0 <= i < s.len() && !digit(s[i]) && (i > 0 || s[i]
            != '+')),
    ensures
        parsed(s, max) is None,
{
    if s.len() > 0 && s[0] == '+' {
        if s.len() > 1 {
            assert(s.drop_first()[i - 1] == s[i]);
        }
    }
}

/// No two numbers are written alike, and none with a leading zero.
pub proof fn law_decimal_is_unique(m: nat, n: nat)
    ensures
        decimal(m) == decimal(n) ==> m == n,
        n > 0 ==> decimal(n)[0] != '0',
    decreases n,
{
    law_decimal_round_trip(m);
    law_decimal_round_trip(n);
    if n >= 10 {
        law_decimal_is_unique(m, n / 10);
        law_decimal_round_trip(n / 10);
        assert(decimal(n)[0] == decimal(n / 10)[0]);
    }
}

/// Digits count from the left, each worth ten times the next.
pub proof fn law_digits_value(s: Seq<char>, c: char)
    requires
        digit(c),
    ensures
        digits_value(s.push(c)) == 10 * digits_value(s) + (c as u32 - '0' as u32),
        digits_value(seq![c]) == c as u32 - '0' as u32,
{
    assert(s.push(c).drop_last() =~= s);
    assert(seq![c].drop_last() =~= Seq::empty());
    assert(digits_value(seq![c].drop_last()) == 0);
}

/// Texts are ordered as in a dictionary: the first character that differs
/// decides, and a text comes before any that it begins.
pub proof fn law_dictionary_order(front: Seq<char>, a: Seq<char>, b: Seq<char>)
    ensures
        a.len() > 0 && b.len() > 0 && a[0] < b[0] ==> lex_less(front + a, front + b) && !lex_less(
            front + b,
            front + a,
        ),
        a.len() > 0 ==> lex_less(front, front + a) && !lex_less(front + a, front),
        !lex_less(a, a),
    decreases front.len(),
{
    lemma_lex_irreflexive(a);
    if front.len() == 0 {
        assert(front + a =~= a);
        assert(front + b =~= b);
        assert(front =~= Seq::empty());
    } else {
        let rest = front.drop_first();
        law_dictionary_order(rest, a, b);
        assert((front + a).drop_first() =~= rest + a);
        assert((front + b).drop_first() =~= rest + b);
        assert((front + a)[0] == front[0] && (front + b)[0] == front[0]);
    }
}

/// The white space of the ASCII range, and that no visible ASCII character is.
pub proof fn law_ascii_white_space(c: char)
    requires
        (c as u32) < 128,
    ensures
        white(c) <==> c == ' ' || c == '\t' || c == '\n' || c == '\r' || c as u32 == 11 || c as u32
            == 12,
        alphanumeric(c) <==> 'a' <= c <= 'z' || 'A' <= c <= 'Z' || '0' <= c <= '9',
        alphanumeric(c) ==> !white(c),
{
}

} // verus!
