//! Reading JSON objects and arrays by their members.
//!
//! A text is walked character by character, with its nesting and its string
//! literals; the members of an object, and the elements of an array, are what
//! stands between the commas outside of all nesting.
use crate::json::{all_escaped, escaped, hex_digit, json_quoted};
use crate::state::comma_joined;
use crate::text::{at, decimal, digit, law_decimal_round_trip};
use vstd::prelude::*;

verus! {

/// Where a walk stands.
pub struct Cursor {
    /// How many objects and arrays are open.
    pub depth: nat,
    /// Whether a string literal is open.
    pub quoted: bool,
    /// Whether the next character is escaped.
    pub escape: bool,
}

/// Outside of string literals, with `depth` objects and arrays open.
pub open spec fn outside(depth: nat) -> Cursor {
    Cursor { depth, quoted: false, escape: false }
}

/// Inside a string literal, with `depth` objects and arrays open.
pub open spec fn inside_literal(depth: nat) -> Cursor {
    Cursor { depth, quoted: true, escape: false }
}

/// The walk after one more character; nothing where a member ends.
pub open spec fn walked(c: Cursor, ch: char) -> Option<Cursor> {
    if c.quoted {
        if c.escape {
            Some(inside_literal(c.depth))
        } else if ch == '\\' {
            Some(Cursor { escape: true, ..c })
        } else if ch == '"' {
            Some(outside(c.depth))
        } else {
            Some(c)
        }
    } else if ch == '"' {
        Some(inside_literal(c.depth))
    } else if ch == '{' || ch == '[' {
        Some(outside(c.depth + 1))
    } else if ch == '}' || ch == ']' {
        if c.depth == 0 {
            None
        } else {
            Some(outside((c.depth - 1) as nat))
        }
    } else if ch == ',' && c.depth == 0 {
        None
    } else {
        Some(c)
    }
}

/// The walk over `t` from its character `i` on.
pub open spec fn walk(c: Cursor, t: Seq<char>, i: int) -> Option<Cursor>
    decreases t.len() - i,
{
    if i < 0 || i >= t.len() {
        Some(c)
    } else {
        match walked(c, t[i]) {
            Some(d) => walk(d, t, i + 1),
            None => None,
        }
    }
}

/// Whether `t` is one whole member: balanced, and without a comma outside of
/// all nesting.
pub open spec fn whole(t: Seq<char>) -> bool {
    walk(outside(0), t, 0) == Some(outside(0))
}

/// The members of `t`, and where a walk over it stands.
pub open spec fn cut(t: Seq<char>) -> (Seq<Seq<char>>, Cursor)
    decreases t.len(),
{
    if t.len() == 0 {
        (seq![Seq::empty()], outside(0))
    } else {
        let (ms, c) = cut(t.drop_last());
        if c == outside(0) && t.last() == ',' {
            (ms.push(Seq::empty()), outside(0))
        } else {
            (
                ms.drop_last().push(ms.last().push(t.last())),
                match walked(c, t.last()) {
                    Some(d) => d,
                    None => c,
                },
            )
        }
    }
}

/// The members of the object, or the elements of the array, `t`.
pub open spec fn members(t: Seq<char>) -> Seq<Seq<char>> {
    if t.len() <= 2 {
        Seq::empty()
    } else {
        cut(t.subrange(1, t.len() - 1)).0
    }
}

/// The rest of the first of `ms` that begins with `key`.
pub open spec fn first_with(ms: Seq<Seq<char>>, key: Seq<char>) -> Option<Seq<char>>
    decreases ms.len(),
{
    if ms.len() == 0 {
        None
    } else if at(ms[0], 0, key) {
        Some(ms[0].skip(key.len() as int))
    } else {
        first_with(ms.drop_first(), key)
    }
}

/// The value of the object `t` under `key`, which is a quoted name with its
/// colon.
pub open spec fn field(t: Seq<char>, key: Seq<char>) -> Option<Seq<char>> {
    first_with(members(t), key)
}

proof fn lemma_walk_suffix(c: Cursor, a: Seq<char>, b: Seq<char>, j: int)
    requires
        0 <= j <= b.len(),
    ensures
        walk(c, a + b, a.len() + j) == walk(c, b, j),
    decreases b.len() - j,
{
    if j < b.len() {
        assert((a + b)[a.len() + j] == b[j]);
        if let Some(d) = walked(c, b[j]) {
            lemma_walk_suffix(d, a, b, j + 1);
        }
    }
}

proof fn lemma_walk_from(c: Cursor, a: Seq<char>, b: Seq<char>, i: int)
    requires
        0 <= i <= a.len(),
    ensures
        walk(c, a + b, i) == match walk(c, a, i) {
            Some(d) => walk(d, b, 0),
            None => None,
        },
    decreases a.len() - i,
{
    if i < a.len() {
        assert((a + b)[i] == a[i]);
        if let Some(d) = walked(c, a[i]) {
            lemma_walk_from(d, a, b, i + 1);
        }
    } else {
        lemma_walk_suffix(c, a, b, 0);
    }
}

/// A walk goes on where the one before it ended.
pub proof fn lemma_walk_chain(c: Cursor, a: Seq<char>, b: Seq<char>)
    ensures
        walk(c, a + b, 0) == match walk(c, a, 0) {
            Some(d) => walk(d, b, 0),
            None => None,
        },
{
    lemma_walk_from(c, a, b, 0);
}

proof fn lemma_deeper(c: Cursor, t: Seq<char>, i: int, k: nat)
    requires
        0 <= i <= t.len(),
        walk(c, t, i) is Some,
    ensures
        walk(Cursor { depth: c.depth + k, ..c }, t, i) == Some(
            Cursor { depth: walk(c, t, i)->0.depth + k, ..walk(c, t, i)->0 },
        ),
    decreases t.len() - i,
{
    if i < t.len() {
        let d = walked(c, t[i])->0;
        assert(walked(c, t[i]) is Some);
        assert(walked(Cursor { depth: c.depth + k, ..c }, t[i]) == Some(
            Cursor { depth: d.depth + k, ..d },
        ));
        lemma_deeper(d, t, i + 1, k);
    }
}

/// A whole member is passed over at any depth.
pub proof fn lemma_whole_deeper(t: Seq<char>, depth: nat)
    requires
        whole(t),
    ensures
        walk(outside(depth), t, 0) == Some(outside(depth)),
{
    lemma_deeper(outside(0), t, 0, depth);
}

/// Two whole members in a row are one.
pub proof fn lemma_whole_chain(a: Seq<char>, b: Seq<char>)
    requires
        whole(a),
        whole(b),
    ensures
        whole(a + b),
{
    lemma_walk_chain(outside(0), a, b);
}

proof fn lemma_cut_nonempty(t: Seq<char>)
    ensures
        cut(t).0.len() > 0,
    decreases t.len(),
{
    if t.len() > 0 {
        lemma_cut_nonempty(t.drop_last());
    }
}

#[verifier::rlimit(40)]
proof fn lemma_cut_append(t: Seq<char>, v: Seq<char>)
    requires
        walk(cut(t).1, v, 0) is Some,
    ensures
        cut(t + v).0 == cut(t).0.drop_last().push(cut(t).0.last() + v),
        cut(t + v).1 == walk(cut(t).1, v, 0)->0,
    decreases v.len(),
{
    lemma_cut_nonempty(t);
    let (ms, c) = cut(t);
    if v.len() == 0 {
        assert(t + v =~= t);
        assert(ms.last() + v =~= ms.last());
        assert(ms.drop_last().push(ms.last()) =~= ms);
    } else {
        let front = v.drop_last();
        let ch = v.last();
        assert(v =~= front + seq![ch]);
        lemma_walk_chain(c, front, seq![ch]);
        lemma_cut_append(t, front);
        assert((t + v).drop_last() =~= t + front);
        assert((t + v).last() == ch);
        let d = walk(c, front, 0)->0;
        assert(walk(d, seq![ch], 0) == match walked(d, ch) {
            Some(e) => Some(e),
            None => None,
        }) by {
            reveal_with_fuel(walk, 2);
        }
        assert(walked(d, ch) is Some);
        let before = cut(t + front).0;
        assert(before.last() == ms.last() + front);
        assert((ms.last() + front).push(ch) =~= ms.last() + v);
        assert(before.drop_last() =~= ms.drop_last());
    }
}

/// Every piece is one whole member.
pub open spec fn all_whole(fields: Seq<Seq<char>>) -> bool {
    forall|i: int| 0 <= i < fields.len() ==> whole(#[trigger] fields[i])
}

#[verifier::rlimit(40)]
proof fn lemma_cut_joined(fields: Seq<Seq<char>>)
    requires
        fields.len() > 0,
        all_whole(fields),
    ensures
        cut(comma_joined(fields)) == (fields, outside(0)),
    decreases fields.len(),
{
    let nothing = Seq::<char>::empty();
    assert(cut(nothing) == (seq![nothing], outside(0)));
    if fields.len() == 1 {
        lemma_cut_append(nothing, fields[0]);
        assert(nothing + fields[0] =~= fields[0]);
        assert(cut(fields[0]).0 =~= fields);
    } else {
        let front = fields.drop_last();
        assert forall|i: int| 0 <= i < front.len() implies whole(#[trigger] front[i]) by {
            assert(front[i] == fields[i]);
        }
        lemma_cut_joined(front);
        let head = comma_joined(front);
        let last = fields.last();
        assert(whole(fields[fields.len() - 1]));
        reveal_strlit(",");
        let open = head + ","@;
        assert(open.drop_last() =~= head);
        assert(open.last() == ',');
        assert(cut(open) == (front.push(nothing), outside(0)));
        lemma_cut_append(open, last);
        assert(front.push(nothing).drop_last() =~= front);
        assert(nothing + last =~= last);
        assert(front.push(last) =~= fields);
        assert(comma_joined(fields) == open + last);
    }
}

/// What is joined inside brackets is read back member by member.
pub proof fn lemma_members(open: Seq<char>, fields: Seq<Seq<char>>, close: Seq<char>)
    requires
        open.len() == 1,
        close.len() == 1,
        fields.len() > 0,
        all_whole(fields),
        comma_joined(fields).len() > 0,
    ensures
        members(open + comma_joined(fields) + close) == fields,
{
    let t = open + comma_joined(fields) + close;
    lemma_cut_joined(fields);
    assert(t.subrange(1, t.len() - 1) =~= comma_joined(fields));
}

proof fn lemma_joined_walk(fields: Seq<Seq<char>>, depth: nat)
    requires
        depth > 0,
        all_whole(fields),
    ensures
        walk(outside(depth), comma_joined(fields), 0) == Some(outside(depth)),
    decreases fields.len(),
{
    if fields.len() == 1 {
        lemma_whole_deeper(fields[0], depth);
    } else if fields.len() > 1 {
        let front = fields.drop_last();
        assert forall|i: int| 0 <= i < front.len() implies whole(#[trigger] front[i]) by {
            assert(front[i] == fields[i]);
        }
        lemma_joined_walk(front, depth);
        lemma_whole_deeper(fields[fields.len() - 1], depth);
        reveal_strlit(",");
        lemma_walk_chain(outside(depth), comma_joined(front), ","@);
        assert(walk(outside(depth), ","@, 0) == Some(outside(depth))) by {
            reveal_with_fuel(walk, 2);
        }
        lemma_walk_chain(outside(depth), comma_joined(front) + ","@, fields.last());
    }
}

/// An object or array of whole members is whole.
pub proof fn lemma_whole_group(open: Seq<char>, fields: Seq<Seq<char>>, close: Seq<char>)
    requires
        open == "{"@ && close == "}"@ || open == "["@ && close == "]"@,
        all_whole(fields),
    ensures
        whole(open + comma_joined(fields) + close),
{
    reveal_strlit("{");
    reveal_strlit("}");
    reveal_strlit("[");
    reveal_strlit("]");
    lemma_joined_walk(fields, 1);
    assert(walk(outside(0), open, 0) == Some(outside(1))) by {
        reveal_with_fuel(walk, 2);
    }
    assert(walk(outside(1), close, 0) == Some(outside(0))) by {
        reveal_with_fuel(walk, 2);
    }
    lemma_walk_chain(outside(0), open, comma_joined(fields));
    lemma_walk_chain(outside(0), open + comma_joined(fields), close);
}

proof fn lemma_plain(c: Cursor, t: Seq<char>, i: int)
    requires
        0 <= i <= t.len(),
        !c.quoted,
        !c.escape,
        forall|k: int| 0 <= k < t.len() ==> digit(#[trigger] t[k]),
    ensures
        walk(c, t, i) == Some(c),
    decreases t.len() - i,
{
    if i < t.len() {
        assert(digit(t[i]));
        lemma_plain(c, t, i + 1);
    }
}

/// A number is whole.
pub proof fn lemma_whole_decimal(n: nat)
    ensures
        whole(decimal(n)),
        decimal(n).len() > 0,
{
    law_decimal_round_trip(n);
    lemma_plain(outside(0), decimal(n), 0);
}

proof fn lemma_hex(n: int)
    requires
        0 <= n < 16,
    ensures
        hex_digit(n) != '"',
        hex_digit(n) != '\\',
{
}

proof fn lemma_escaped(c: char)
    ensures
        walk(inside_literal(0), escaped(c), 0) == Some(inside_literal(0)),
{
    reveal_with_fuel(walk, 7);
    if (c as u32) < 32 {
        lemma_hex(c as int / 16);
        lemma_hex(c as int % 16);
    }
}

proof fn lemma_all_escaped(s: Seq<char>)
    ensures
        walk(inside_literal(0), all_escaped(s), 0) == Some(inside_literal(0)),
    decreases s.len(),
{
    if s.len() > 0 {
        lemma_all_escaped(s.drop_last());
        lemma_escaped(s.last());
        lemma_walk_chain(inside_literal(0), all_escaped(s.drop_last()), escaped(s.last()));
    }
}

/// A string literal is whole, whatever it holds.
pub proof fn lemma_whole_quoted(s: Seq<char>)
    ensures
        whole(json_quoted(s)),
{
    lemma_all_escaped(s);
    assert(walk(outside(0), seq!['"'], 0) == Some(inside_literal(0))) by {
        reveal_with_fuel(walk, 2);
    }
    assert(walk(inside_literal(0), seq!['"'], 0) == Some(outside(0))) by {
        reveal_with_fuel(walk, 2);
    }
    lemma_walk_chain(outside(0), seq!['"'], all_escaped(s));
    lemma_walk_chain(outside(0), seq!['"'] + all_escaped(s), seq!['"']);
}

/// The number of a hexadecimal digit.
pub open spec fn hex_value(c: char) -> int {
    if '0' <= c <= '9' {
        c as int - '0' as int
    } else {
        c as int - 'a' as int + 10
    }
}

/// The character that a backslash before `c` stands for.
pub open spec fn meant(c: char) -> char {
    if c == 'b' {
        '\u{8}'
    } else if c == 't' {
        '\t'
    } else if c == 'n' {
        '\n'
    } else if c == 'f' {
        '\u{c}'
    } else if c == 'r' {
        '\r'
    } else {
        c
    }
}

/// The text that the inside of a string literal stands for, from its
/// character `i` on.
pub open spec fn spoken(t: Seq<char>, i: int) -> Seq<char>
    decreases t.len() - i,
{
    if i < 0 || i >= t.len() {
        Seq::empty()
    } else if t[i] != '\\' {
        seq![t[i]] + spoken(t, i + 1)
    } else if i + 1 >= t.len() {
        Seq::empty()
    } else if t[i + 1] != 'u' {
        seq![meant(t[i + 1])] + spoken(t, i + 2)
    } else if i + 5 >= t.len() {
        Seq::empty()
    } else {
        seq![
            (hex_value(t[i + 2]) * 4096 + hex_value(t[i + 3]) * 256 + hex_value(t[i + 4]) * 16
                + hex_value(t[i + 5])) as char,
        ] + spoken(t, i + 6)
    }
}

/// The text that the string literal `t` stands for.
pub open spec fn literal_text(t: Seq<char>) -> Seq<char> {
    spoken(t.subrange(1, t.len() - 1), 0)
}

#[verifier::rlimit(40)]
proof fn lemma_spoken_suffix(a: Seq<char>, b: Seq<char>, j: int)
    requires
        0 <= j,
    ensures
        spoken(a + b, a.len() + j) == spoken(b, j),
    decreases b.len() - j,
{
    if j < b.len() {
        let t = a + b;
        let i = a.len() + j;
        assert(t[i] == b[j]);
        if j + 1 < b.len() {
            assert(t[i + 1] == b[j + 1]);
        }
        if j + 5 < b.len() {
            assert(t[i + 2] == b[j + 2]);
            assert(t[i + 3] == b[j + 3]);
            assert(t[i + 4] == b[j + 4]);
            assert(t[i + 5] == b[j + 5]);
        }
        lemma_spoken_suffix(a, b, j + 1);
        if j + 2 <= b.len() {
            lemma_spoken_suffix(a, b, j + 2);
        }
        if j + 6 <= b.len() {
            lemma_spoken_suffix(a, b, j + 6);
        }
    }
}

proof fn lemma_all_escaped_front(s: Seq<char>)
    requires
        s.len() > 0,
    ensures
        all_escaped(s) == escaped(s[0]) + all_escaped(s.skip(1)),
    decreases s.len(),
{
    if s.len() == 1 {
        assert(s.drop_last() =~= Seq::empty());
        assert(s.skip(1) =~= Seq::empty());
        assert(all_escaped(s.drop_last()) =~= Seq::empty());
        assert(all_escaped(s.skip(1)) =~= Seq::empty());
        assert(all_escaped(s) =~= escaped(s[0]));
    } else {
        lemma_all_escaped_front(s.drop_last());
        assert(s.drop_last().skip(1) =~= s.skip(1).drop_last());
        assert(s.skip(1).last() == s.last());
        assert(all_escaped(s) =~= escaped(s[0]) + all_escaped(s.skip(1)));
    }
}

#[verifier::rlimit(40)]
proof fn lemma_spoken_one(c: char, rest: Seq<char>)
    ensures
        spoken(escaped(c) + rest, 0) == seq![c] + spoken(rest, 0),
{
    let e = escaped(c);
    let t = e + rest;
    lemma_spoken_suffix(e, rest, 0);
    assert(t[0] == e[0]);
    if c == '"' || c == '\\' || c == '\u{8}' || c == '\t' || c == '\n' || c == '\u{c}' || c == '\r' {
        assert(e.len() == 2);
        assert(t[1] == e[1]);
        assert(meant(e[1]) == c);
    } else if (c as u32) < 32 {
        assert(e.len() == 6);
        assert(t[1] == e[1] && t[2] == e[2] && t[3] == e[3] && t[4] == e[4] && t[5] == e[5]);
        let n = c as int;
        assert(hex_value(hex_digit(n / 16)) == n / 16);
        assert(hex_value(hex_digit(n % 16)) == n % 16);
        assert((n / 16) * 16 + n % 16 == n);
        assert(n as char == c);
    } else {
        assert(e.len() == 1);
    }
}

proof fn lemma_spoken_all(s: Seq<char>)
    ensures
        spoken(all_escaped(s), 0) == s,
    decreases s.len(),
{
    if s.len() > 0 {
        lemma_all_escaped_front(s);
        lemma_spoken_one(s[0], all_escaped(s.skip(1)));
        lemma_spoken_all(s.skip(1));
        assert(seq![s[0]] + s.skip(1) =~= s);
    }
}

/// A quoted text reads back as that text, so that two texts never share a
/// literal.
pub proof fn law_literal_reads_back(s: Seq<char>)
    ensures
        literal_text(json_quoted(s)) == s,
{
    let t = json_quoted(s);
    lemma_spoken_all(s);
    assert(t.subrange(1, t.len() - 1) =~= all_escaped(s));
}

/// The text of the object `t` under `key`, which is a quoted name with its
/// colon.
pub open spec fn text_under(t: Seq<char>, key: Seq<char>) -> Option<Seq<char>> {
    match field(t, key) {
        Some(value) => Some(literal_text(value)),
        None => None,
    }
}

/// Looking a key up in two lists, one after the other.
pub proof fn lemma_first_with_chain(a: Seq<Seq<char>>, b: Seq<Seq<char>>, key: Seq<char>)
    ensures
        first_with(a + b, key) == match first_with(a, key) {
            Some(value) => Some(value),
            None => first_with(b, key),
        },
    decreases a.len(),
{
    if a.len() == 0 {
        assert(a + b =~= b);
    } else {
        assert((a + b)[0] == a[0]);
        assert((a + b).drop_first() =~= a.drop_first() + b);
        lemma_first_with_chain(a.drop_first(), b, key);
    }
}

/// A member is found under its own key.
pub proof fn lemma_own_key(key: Seq<char>, value: Seq<char>)
    ensures
        first_with(seq![key + value], key) == Some(value),
{
    let m = key + value;
    assert(m.subrange(0, key.len() as int) =~= key);
    assert(m.skip(key.len() as int) =~= value);
    assert(seq![m][0] == m);
    assert(at(m, 0, key));
}

/// A member is not found under a key that differs from its own at `i`.
pub proof fn lemma_other_key(own: Seq<char>, value: Seq<char>, key: Seq<char>, i: int)
    requires
        0 <= i < own.len(),
        i < key.len(),
        own[i] != key[i],
    ensures
        first_with(seq![own + value], key) is None,
{
    let m = own + value;
    assert(m[i] == own[i]);
    if at(m, 0, key) {
        assert(m.subrange(0, key.len() as int)[i] == m[i]);
        assert(m[0 + i] == key[i]);
        assert(false);
    }
    assert(seq![m][0] == m);
    assert(seq![m].drop_first() =~= Seq::empty());
    assert(first_with(seq![m].drop_first(), key) is None);
}

/// Two keys that are told apart by their first letters.
pub open spec fn apart(a: Seq<char>, b: Seq<char>) -> bool {
    a.len() >= 4 && b.len() >= 4 && (a[1] != b[1] || a[2] != b[2] || a[3] != b[3])
}

/// Whole keys that are told apart.
pub open spec fn distinct_keys(keys: Seq<Seq<char>>) -> bool {
    &&& forall|i: int| 0 <= i < keys.len() ==> whole(#[trigger] keys[i])
    &&& forall|i: int, j: int|
        0 <= i < keys.len() && 0 <= j < keys.len() && i != j ==> apart(
            #[trigger] keys[i],
            #[trigger] keys[j],
        )
}

/// Every value that is there is one whole member.
pub open spec fn whole_values(values: Seq<Option<Seq<char>>>) -> bool {
    forall|i: int|
        0 <= i < values.len() && (#[trigger] values[i]) is Some ==> whole(values[i]->0)
}

/// The members with these keys, without those that have no value.
pub open spec fn record(keys: Seq<Seq<char>>, values: Seq<Option<Seq<char>>>) -> Seq<Seq<char>>
    decreases keys.len(),
{
    if keys.len() == 0 {
        Seq::empty()
    } else {
        record(keys.drop_last(), values.drop_last()) + (match values.last() {
            Some(value) => seq![keys.last() + value],
            None => Seq::empty(),
        })
    }
}

#[verifier::rlimit(40)]
proof fn lemma_record(keys: Seq<Seq<char>>, values: Seq<Option<Seq<char>>>)
    requires
        keys.len() == values.len(),
        distinct_keys(keys),
        forall|i: int| 0 <= i < keys.len() ==> (#[trigger] keys[i]).len() >= 4,
        whole_values(values),
    ensures
        all_whole(record(keys, values)),
        forall|i: int|
            0 <= i < record(keys, values).len() ==> (#[trigger] record(keys, values)[i]).len() > 0,
        forall|i: int|
            0 <= i < keys.len() ==> first_with(record(keys, values), #[trigger] keys[i])
                == values[i],
        forall|key: Seq<char>|
            (forall|i: int| 0 <= i < keys.len() ==> apart(#[trigger] keys[i], key)) ==> (
            #[trigger] first_with(record(keys, values), key)) is None,
    decreases keys.len(),
{
    if keys.len() > 0 {
        let n = keys.len() - 1;
        let ks = keys.drop_last();
        let vs = values.drop_last();
        assert forall|i: int| 0 <= i < ks.len() implies whole(#[trigger] ks[i]) by {
            assert(ks[i] == keys[i]);
        }
        assert forall|i: int, j: int|
            0 <= i < ks.len() && 0 <= j < ks.len() && i != j implies apart(
            #[trigger] ks[i],
            #[trigger] ks[j],
        ) by {
            assert(ks[i] == keys[i]);
            assert(ks[j] == keys[j]);
        }
        assert forall|i: int| 0 <= i < vs.len() && (#[trigger] vs[i]) is Some implies whole(
            vs[i]->0,
        ) by {
            assert(vs[i] == values[i]);
        }
        lemma_record(ks, vs);
        let front = record(ks, vs);
        let last: Seq<Seq<char>> = match values.last() {
            Some(value) => seq![keys.last() + value],
            None => Seq::empty(),
        };
        let all = record(keys, values);
        assert(all == front + last);
        assert(whole(keys[n]));
        if let Some(value) = values.last() {
            assert(values[n] is Some);
            lemma_whole_chain(keys.last(), value);
        }
        assert forall|i: int| 0 <= i < all.len() implies whole(#[trigger] all[i]) by {
            if i < front.len() {
                assert(all[i] == front[i]);
            } else {
                assert(all[i] == last[0]);
            }
        }
        assert forall|key: Seq<char>|
            (forall|i: int| 0 <= i < keys.len() ==> apart(#[trigger] keys[i], key)) implies (
        #[trigger] first_with(all, key)) is None by {
            lemma_first_with_chain(front, last, key);
            assert forall|i: int| 0 <= i < ks.len() implies apart(#[trigger] ks[i], key) by {
                assert(ks[i] == keys[i]);
            }
            lemma_apart_last(keys.last(), values.last(), key);
        }
        assert forall|i: int| 0 <= i < keys.len() implies first_with(all, #[trigger] keys[i])
            == values[i] by {
            let key = keys[i];
            lemma_first_with_chain(front, last, key);
            if i < n {
                assert(ks[i] == key);
                assert(apart(keys[n], keys[i]));
                lemma_apart_last(keys.last(), values.last(), key);
            } else {
                assert forall|j: int| 0 <= j < ks.len() implies apart(#[trigger] ks[j], key) by {
                    assert(ks[j] == keys[j]);
                    assert(apart(keys[j], keys[n]));
                }
                assert(first_with(front, key) is None);
                if let Some(value) = values.last() {
                    lemma_own_key(key, value);
                }
            }
        }
        assert forall|i: int| 0 <= i < all.len() implies (#[trigger] all[i]).len() > 0 by {
            if i < front.len() {
                assert(all[i] == front[i]);
            } else {
                assert(all[i] == keys[n] + values[n]->0);
            }
        }
    }
}

proof fn lemma_apart_last(own: Seq<char>, value: Option<Seq<char>>, key: Seq<char>)
    requires
        apart(own, key),
    ensures
        first_with(
            match value {
                Some(value) => seq![own + value],
                None => Seq::empty(),
            },
            key,
        ) is None,
{
    if let Some(v) = value {
        let i: int = if own[1] != key[1] {
            1
        } else if own[2] != key[2] {
            2
        } else {
            3
        };
        lemma_other_key(own, v, key, i);
    }
}

/// Joined members are no empty text.
pub proof fn lemma_joined_nonempty(fields: Seq<Seq<char>>)
    requires
        fields.len() > 0,
        fields[0].len() > 0,
    ensures
        comma_joined(fields).len() > 0,
    decreases fields.len(),
{
    if fields.len() > 1 {
        assert(fields.drop_last()[0] == fields[0]);
        lemma_joined_nonempty(fields.drop_last());
    }
}

/// An object is whole, and gives each of its values under its key.
pub proof fn lemma_object(text: Seq<char>, keys: Seq<Seq<char>>, values: Seq<Option<Seq<char>>>)
    requires
        text == "{"@ + comma_joined(record(keys, values)) + "}"@,
        keys.len() == values.len(),
        distinct_keys(keys),
        forall|i: int| 0 <= i < keys.len() ==> (#[trigger] keys[i]).len() >= 4,
        whole_values(values),
    ensures
        whole(text),
        forall|i: int| 0 <= i < keys.len() ==> field(text, #[trigger] keys[i]) == values[i],
{
    let fields = record(keys, values);
    lemma_record(keys, values);
    lemma_whole_group("{"@, fields, "}"@);
    reveal_strlit("{");
    reveal_strlit("}");
    if fields.len() == 0 {
        assert(text.len() == 2);
        assert(members(text) =~= fields);
    } else {
        lemma_joined_nonempty(fields);
        lemma_members("{"@, fields, "}"@);
    }
}

/// An array is whole, and its elements are those that were joined.
pub proof fn lemma_array(text: Seq<char>, items: Seq<Seq<char>>)
    requires
        text == "["@ + comma_joined(items) + "]"@,
        all_whole(items),
        forall|i: int| 0 <= i < items.len() ==> (#[trigger] items[i]).len() > 0,
    ensures
        whole(text),
        members(text) == items,
{
    lemma_whole_group("["@, items, "]"@);
    reveal_strlit("[");
    reveal_strlit("]");
    if items.len() == 0 {
        assert(text.len() == 2);
        assert(members(text) =~= items);
    } else {
        lemma_joined_nonempty(items);
        lemma_members("["@, items, "]"@);
    }
}

/// Whether `text` is the object with these members, but for its closing
/// brace.
pub open spec fn object_so_far(
    text: Seq<char>,
    keys: Seq<Seq<char>>,
    values: Seq<Option<Seq<char>>>,
) -> bool {
    &&& keys.len() == values.len()
    &&& record(keys, values).len() > 0
    &&& text == "{"@ + comma_joined(record(keys, values))
}

/// An object begins with its first member.
pub proof fn lemma_begin(opening: Seq<char>, key: Seq<char>, value: Seq<char>)
    requires
        opening == "{"@ + key,
    ensures
        object_so_far(opening + value, seq![key], seq![Some(value)]),
{
    reveal_with_fuel(record, 2);
    assert(record(seq![key], seq![Some(value)]) =~= seq![key + value]);
    assert(opening + value =~= "{"@ + (key + value));
}

proof fn lemma_record_push(
    keys: Seq<Seq<char>>,
    values: Seq<Option<Seq<char>>>,
    key: Seq<char>,
    value: Option<Seq<char>>,
)
    ensures
        record(keys.push(key), values.push(value)) == record(keys, values) + (match value {
            Some(value) => seq![key + value],
            None => Seq::empty(),
        }),
{
    assert(keys.push(key).drop_last() =~= keys);
    assert(values.push(value).drop_last() =~= values);
}

/// An object goes on with a comma and its next member.
pub proof fn lemma_go_on(
    text: Seq<char>,
    keys: Seq<Seq<char>>,
    values: Seq<Option<Seq<char>>>,
    link: Seq<char>,
    key: Seq<char>,
    value: Seq<char>,
)
    requires
        object_so_far(text, keys, values),
        link == ","@ + key,
    ensures
        object_so_far(text + link + value, keys.push(key), values.push(Some(value))),
{
    lemma_record_push(keys, values, key, Some(value));
    let before = record(keys, values);
    let after = record(keys.push(key), values.push(Some(value)));
    assert(after == before + seq![key + value]);
    assert(after.drop_last() =~= before);
    assert(after.last() == key + value);
    assert(comma_joined(after) == comma_joined(before) + ","@ + (key + value));
    assert(text + link + value =~= "{"@ + (comma_joined(before) + ","@ + (key + value)));
}

/// A member without a value is left out.
pub proof fn lemma_leave_out(
    text: Seq<char>,
    keys: Seq<Seq<char>>,
    values: Seq<Option<Seq<char>>>,
    key: Seq<char>,
)
    requires
        object_so_far(text, keys, values),
    ensures
        object_so_far(text, keys.push(key), values.push(None)),
{
    lemma_record_push(keys, values, key, None);
    assert(record(keys.push(key), values.push(None)) =~= record(keys, values));
}

/// A finished object is whole, and gives each of its values under its key.
pub proof fn lemma_finish(text: Seq<char>, keys: Seq<Seq<char>>, values: Seq<Option<Seq<char>>>)
    requires
        object_so_far(text, keys, values),
        distinct_keys(keys),
        forall|i: int| 0 <= i < keys.len() ==> (#[trigger] keys[i]).len() >= 4,
        whole_values(values),
    ensures
        whole(text + "}"@),
        forall|i: int| 0 <= i < keys.len() ==> field(text + "}"@, #[trigger] keys[i]) == values[i],
{
    lemma_object(text + "}"@, keys, values);
}

} // verus!
