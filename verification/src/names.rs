//! Name normalisation and the small path parsers of process detection.
use crate::text::{
    alphanumeric, at, chars_of, digit, has_char, is_alphanumeric, is_digit, is_white, last_index,
    lower, lower_char, lower_into, parse_u64, parsed, rfind, stands_at, trim, trim_end, trim_start,
    trimmed, white,
};
use vstd::prelude::*;

verus! {

/// Punctuation that no Windows file name can hold.
pub open spec fn forbidden(c: char) -> bool {
    c == '<' || c == '>' || c == ':' || c == '"' || c == '/' || c == '\\' || c == '|' || c == '?'
        || c == '*'
}

/// Where a name breaks into words: white space, forbidden punctuation and,
/// with `dots`, the full stop.
pub open spec fn breaks(c: char, dots: bool) -> bool {
    white(c) || forbidden(c) || (dots && c == '.')
}

/// The words of `s`: its maximal runs of characters that are no breaks.
pub open spec fn words(s: Seq<char>, dots: bool) -> Seq<Seq<char>>
    decreases s.len(),
{
    if s.len() == 0 {
        Seq::empty()
    } else {
        let before = words(s.drop_last(), dots);
        if breaks(s.last(), dots) {
            before
        } else if s.len() == 1 || breaks(s[s.len() - 2], dots) {
            before.push(seq![s.last()])
        } else {
            before.update(before.len() - 1, before.last().push(s.last()))
        }
    }
}

/// The words `ws` with one space between neighbours.
pub open spec fn joined(ws: Seq<Seq<char>>) -> Seq<char>
    decreases ws.len(),
{
    if ws.len() == 0 {
        Seq::empty()
    } else if ws.len() == 1 {
        ws[0]
    } else {
        joined(ws.drop_last()).push(' ') + ws.last()
    }
}

/// Comparison form of a name: ASCII lower case, words separated by single
/// spaces.
pub open spec fn normalized(name: Seq<char>) -> Seq<char> {
    joined(words(lower(name), false))
}

proof fn lemma_word_open(s: Seq<char>, dots: bool)
    requires
        s.len() > 0,
        !breaks(s.last(), dots),
    ensures
        words(s, dots).len() > 0,
    decreases s.len(),
{
    if s.len() > 1 && !breaks(s[s.len() - 2], dots) {
        lemma_word_open(s.drop_last(), dots);
    }
}

proof fn lemma_joined_grow(ws: Seq<Seq<char>>, c: char)
    requires
        ws.len() > 0,
    ensures
        joined(ws.update(ws.len() - 1, ws.last().push(c))) == joined(ws).push(c),
{
    let us = ws.update(ws.len() - 1, ws.last().push(c));
    assert(us.drop_last() == ws.drop_last());
    assert(us.last() == ws.last().push(c));
    if ws.len() == 1 {
        assert(us[0] == ws[0].push(c));
    } else {
        assert(joined(us) == joined(ws.drop_last()).push(' ') + ws.last().push(c));
        assert(joined(ws) == joined(ws.drop_last()).push(' ') + ws.last());
    }
}

proof fn lemma_joined_add(ws: Seq<Seq<char>>, c: char)
    ensures
        joined(ws.push(seq![c])) == if ws.len() == 0 {
            seq![c]
        } else {
            joined(ws).push(' ').push(c)
        },
{
    let us = ws.push(seq![c]);
    assert(us.drop_last() == ws);
    if ws.len() > 0 {
        assert(joined(us) == joined(ws).push(' ') + seq![c]);
    }
}

/// Whether a name breaks at `c`.
fn is_break(c: char, dots: bool) -> (r: bool)
    ensures
        r == breaks(c, dots),
{
    is_white(c) || c == '<' || c == '>' || c == ':' || c == '"' || c == '/' || c == '\\' || c == '|'
        || c == '?' || c == '*' || (dots && c == '.')
}

/// Refill `out` with the words of `name`, one space between neighbours.
fn join_words_into(name: &str, dots: bool, out: &mut String)
    ensures
        final(out)@ == joined(words(name@, dots)),
{
    out.clear();
    let mut empty = true;
    let mut inside = false;
    for c in it: name.chars()
        invariant
            it.seq() == name@,
            out@ == joined(words(name@.take(it.index()), dots)),
            empty == (words(name@.take(it.index()), dots).len() == 0),
            inside == (it.index() > 0 && !breaks(name@[it.index() - 1], dots)),
    {
        let ghost t = name@.take(it.index());
        let ghost u = name@.take(it.index() + 1);
        proof {
            assert(u.drop_last() == t);
            assert(u.last() == c);
            if it.index() > 0 {
                assert(u[u.len() - 2] == name@[it.index() - 1]);
            }
        }
        if is_break(c, dots) {
            inside = false;
        } else {
            proof {
                if inside {
                    assert(t.last() == name@[it.index() - 1]);
                    lemma_word_open(t, dots);
                    lemma_joined_grow(words(t, dots), c);
                } else {
                    lemma_joined_add(words(t, dots), c);
                }
                lemma_word_open(u, dots);
            }
            if !inside && !empty {
                out.push(' ');
            }
            out.push(c);
            empty = false;
            inside = true;
        }
    }
    assert(name@.take(name@.len() as int) == name@);
}

proof fn lemma_words_skip_break(s: Seq<char>, dots: bool)
    requires
        s.len() > 0,
        breaks(s[0], dots),
    ensures
        words(s.drop_first(), dots) == words(s, dots),
    decreases s.len(),
{
    let r = s.drop_first();
    if s.len() == 1 {
        assert(words(s.drop_last(), dots) == Seq::<Seq<char>>::empty());
        assert(r.len() == 0);
    } else {
        lemma_words_skip_break(s.drop_last(), dots);
        assert(s.drop_last().drop_first() == r.drop_last());
        assert(r.last() == s.last());
        if r.len() > 1 {
            assert(r[r.len() - 2] == s[s.len() - 2]);
        }
    }
}

proof fn lemma_words_trim_start(s: Seq<char>, dots: bool)
    ensures
        words(trim_start(s), dots) == words(s, dots),
    decreases s.len(),
{
    if s.len() > 0 && white(s[0]) {
        lemma_words_trim_start(s.drop_first(), dots);
        lemma_words_skip_break(s, dots);
    }
}

proof fn lemma_words_trim_end(s: Seq<char>, dots: bool)
    ensures
        words(trim_end(s), dots) == words(s, dots),
    decreases s.len(),
{
    if s.len() > 0 && white(s.last()) {
        lemma_words_trim_end(s.drop_last(), dots);
    }
}

proof fn lemma_lower_trim(s: Seq<char>)
    ensures
        lower(trimmed(s)) == trimmed(lower(s)),
{
    lemma_lower_trim_start(s);
    lemma_lower_trim_end(trim_start(s));
}

proof fn lemma_lower_trim_start(s: Seq<char>)
    ensures
        lower(trim_start(s)) == trim_start(lower(s)),
    decreases s.len(),
{
    if s.len() > 0 {
        assert(white(s[0]) == white(lower(s)[0]));
        if white(s[0]) {
            lemma_lower_trim_start(s.drop_first());
            assert(lower(s).drop_first() == lower(s.drop_first()));
        }
    }
}

proof fn lemma_lower_trim_end(s: Seq<char>)
    ensures
        lower(trim_end(s)) == trim_end(lower(s)),
    decreases s.len(),
{
    if s.len() > 0 {
        assert(white(s.last()) == white(lower(s).last()));
        if white(s.last()) {
            lemma_lower_trim_end(s.drop_last());
            assert(lower(s).drop_last() == lower(s.drop_last()));
        }
    }
}

/// White space around a name never changes its comparison form.
pub proof fn law_normalized_ignores_padding(name: Seq<char>)
    ensures
        normalized(trimmed(name)) == normalized(name),
{
    lemma_lower_trim(name);
    lemma_words_trim_end(trim_start(lower(name)), false);
    lemma_words_trim_start(lower(name), false);
}

/// Comparison form of a name (see [`normalized`]): ASCII case is folded,
/// characters forbidden in Windows file names act as spaces, runs collapse.
pub fn normalize_name(name: &str) -> (r: String)
    ensures
        r@ == normalized(name@),
{
    let mut lower_buf = String::new();
    let mut out = String::new();
    normalize_name_into(name, &mut lower_buf, &mut out);
    out
}

/// Refill `out` with the comparison form of `name`, reusing both buffers:
/// the same text as [`normalize_name`]. `lower_buf` is left holding the trimmed,
/// lower-case name.
pub fn normalize_name_into(name: &str, lower_buf: &mut String, out: &mut String)
    ensures
        final(out)@ == normalized(name@),
        final(lower_buf)@ == lower(trimmed(name@)),
{
    lower_into(trim(name), lower_buf);
    normalize_lowered_into(lower_buf.as_str(), out);
    proof {
        law_normalized_ignores_padding(name@);
    }
}

/// Refill `out` with the normalised form of a name that is lower case
/// already.
pub fn normalize_lowered_into(name: &str, out: &mut String)
    ensures
        final(out)@ == joined(words(name@, false)),
        lower(name@) == name@ ==> final(out)@ == normalized(name@),
{
    join_words_into(name, false, out);
}

/// `s` with every full stop replaced by a space.
pub open spec fn dedotted(s: Seq<char>) -> Seq<char> {
    s.map_values(|c: char| if c == '.' { ' ' } else { c })
}

/// Replace every full stop by a space.
pub fn dedot(name: &str) -> (r: String)
    ensures
        r@ == dedotted(name@),
{
    let mut out = String::new();
    for c in it: name.chars()
        invariant
            it.seq() == name@,
            out@ == dedotted(name@.take(it.index())),
    {
        out.push(if c == '.' { ' ' } else { c });
        assert(name@.take(it.index() + 1) == name@.take(it.index()).push(c));
    }
    assert(name@.take(name@.len() as int) == name@);
    out
}

/// Full stops act as word breaks exactly as if they had been replaced by
/// spaces first.
pub proof fn law_dots_break_like_spaces(s: Seq<char>)
    ensures
        words(s, true) == words(dedotted(s), false),
    decreases s.len(),
{
    if s.len() > 0 {
        law_dots_break_like_spaces(s.drop_last());
        let d = dedotted(s);
        assert(d.drop_last() == dedotted(s.drop_last()));
        assert(breaks(d.last(), false) == breaks(s.last(), true));
        if s.len() > 1 {
            assert(breaks(d[d.len() - 2], false) == breaks(s[s.len() - 2], true));
        }
    }
}

proof fn lemma_dedot_lower(s: Seq<char>)
    ensures
        dedotted(lower(s)) == lower(dedotted(s)),
{
    assert(dedotted(lower(s)) =~= lower(dedotted(s)));
}

/// Refill `out` with the normalised form of a lower-case name whose full
/// stops act as spaces.
pub fn normalize_lowered_dedotted_into(name: &str, out: &mut String)
    ensures
        final(out)@ == joined(words(name@, true)),
        lower(name@) == name@ ==> final(out)@ == normalized(dedotted(name@)),
{
    join_words_into(name, true, out);
    proof {
        law_dots_break_like_spaces(name@);
        lemma_dedot_lower(name@);
    }
}


/// A word as [`words`] yields it: not empty, without a break, lower case.
spec fn plain_word(w: Seq<char>) -> bool {
    w.len() > 0 && forall|i: int|
        0 <= i < w.len() ==> !breaks(#[trigger] w[i], false) && lower_char(w[i]) == w[i]
}

spec fn plain_words(ws: Seq<Seq<char>>) -> bool {
    forall|k: int| 0 <= k < ws.len() ==> plain_word(#[trigger] ws[k])
}

proof fn lemma_words_plain(s: Seq<char>)
    requires
        lower(s) == s,
    ensures
        plain_words(words(s, false)),
    decreases s.len(),
{
    if s.len() > 0 {
        let t = s.drop_last();
        assert(lower(t) =~= t) by {
            assert forall|i: int| 0 <= i < t.len() implies lower(t)[i] == t[i] by {
                assert(lower(s)[i] == s[i]);
            }
        }
        lemma_words_plain(t);
        assert(lower(s)[s.len() - 1] == s.last());
        if !breaks(s.last(), false) {
            if s.len() > 1 && !breaks(s[s.len() - 2], false) {
                lemma_word_open(t, false);
            }
        }
    }
}

proof fn lemma_words_append(s: Seq<char>, w: Seq<char>)
    requires
        s.len() == 0 || breaks(s.last(), false),
        plain_word(w),
    ensures
        words(s + w, false) == words(s, false).push(w),
    decreases w.len(),
{
    let t = s + w;
    assert(t.last() == w.last());
    if w.len() == 1 {
        assert(t.drop_last() == s);
        assert(w == seq![w.last()]);
        if t.len() > 1 {
            assert(t[t.len() - 2] == s.last());
        }
    } else {
        let v = w.drop_last();
        assert(t.drop_last() == s + v);
        assert forall|i: int| 0 <= i < v.len() implies !breaks(#[trigger] v[i], false)
            && lower_char(v[i]) == v[i] by {
            assert(v[i] == w[i]);
        }
        lemma_words_append(s, v);
        assert(t[t.len() - 2] == w[w.len() - 2]);
        assert(v.push(w.last()) == w);
        assert(words(t, false) == words(s, false).push(v).update(
            words(s, false).len() as int,
            v.push(w.last()),
        ));
        assert(words(t, false) =~= words(s, false).push(w));
    }
}

proof fn lemma_words_of_joined(ws: Seq<Seq<char>>)
    requires
        plain_words(ws),
    ensures
        words(joined(ws), false) == ws,
        lower(joined(ws)) == joined(ws),
    decreases ws.len(),
{
    if ws.len() == 0 {
        assert(lower(joined(ws)) =~= joined(ws));
        assert(words(joined(ws), false) =~= ws);
    } else {
        let front = ws.drop_last();
        let w = ws.last();
        assert(plain_word(w));
        assert forall|k: int| 0 <= k < front.len() implies plain_word(#[trigger] front[k]) by {
            assert(front[k] == ws[k]);
        }
        lemma_words_of_joined(front);
        if ws.len() == 1 {
            lemma_words_append(Seq::empty(), w);
            assert(Seq::<char>::empty() + w =~= w);
            assert(words(Seq::<char>::empty(), false).push(w) =~= ws);
            assert(lower(w) =~= w);
        } else {
            let s = joined(front).push(' ');
            assert(s.drop_last() == joined(front));
            lemma_words_append(s, w);
            assert(front.push(w) =~= ws);
            assert forall|i: int| 0 <= i < joined(ws).len() implies lower(joined(ws))[i]
                == joined(ws)[i] by {
                if i < joined(front).len() {
                    assert(lower(joined(front))[i] == joined(front)[i]);
                } else if i > joined(front).len() {
                    assert(joined(ws)[i] == w[i - joined(front).len() - 1]);
                }
            }
            assert(lower(joined(ws)) =~= joined(ws));
        }
    }
}

proof fn lemma_lower_idempotent(s: Seq<char>)
    ensures
        lower(lower(s)) == lower(s),
{
    assert(lower(lower(s)) =~= lower(s));
}

/// Normalising twice is normalising once.
pub proof fn law_normalized_is_idempotent(name: Seq<char>)
    ensures
        normalized(normalized(name)) == normalized(name),
        lower(normalized(name)) == normalized(name),
{
    lemma_lower_idempotent(name);
    lemma_words_plain(lower(name));
    lemma_words_of_joined(words(lower(name), false));
}

/// ASCII case never changes the comparison form of a name.
pub proof fn law_normalized_ignores_case(name: Seq<char>)
    ensures
        normalized(lower(name)) == normalized(name),
{
    lemma_lower_idempotent(name);
}

/// Names that may match by title alone: several words, six characters or more.
pub open spec fn matchable(name: Seq<char>) -> bool {
    name.contains(' ') && name.len() >= 6
}

/// Gate of the title heuristics: single words and very short names never
/// match by title.
pub fn name_matchable(normalized_name: &str) -> (r: bool)
    ensures
        r == matchable(normalized_name@),
{
    has_char(normalized_name, ' ') && normalized_name.unicode_len() >= 6
}

/// What follows the last `/` of a path.
pub open spec fn base_name(path: Seq<char>) -> Seq<char> {
    path.skip(rfind(path, '/') + 1)
}

/// The base name of a path without its extension. A leading full stop
/// starts no extension.
pub open spec fn stem(path: Seq<char>) -> Seq<char> {
    let base = base_name(path);
    let dot = rfind(base, '.');
    if dot > 0 {
        base.take(dot)
    } else {
        base
    }
}

/// Executable stem of a `/`-separated path: the base name up to its last
/// full stop.
pub fn exe_stem(normalized_path: &str) -> (r: &str)
    ensures
        r@ == stem(normalized_path@),
{
    let v = chars_of(normalized_path);
    let ghost path = normalized_path@;
    assert(v@.take(v@.len() as int) == path);
    let from: usize = match last_index(&v, v.len(), '/') {
        Some(i) => i + 1,
        None => 0,
    };
    let ghost base = base_name(path);
    assert(base == v@.skip(from as int));
    let mut dot: usize = v.len();
    assert(base.take(base.len() as int) == base);
    while dot > from && v[dot - 1] != '.'
        invariant
            from <= dot <= v@.len(),
            base == v@.skip(from as int),
            rfind(base, '.') == rfind(base.take(dot - from), '.'),
        decreases dot,
    {
        assert(base.take(dot - from).drop_last() == base.take(dot - from - 1));
        assert(base.take(dot - from).last() == v@[dot - 1]);
        dot = dot - 1;
    }
    if dot > from {
        assert(base.take(dot - from).last() == v@[dot - 1]);
    }
    if dot - from > 1 {
        assert(base.take(dot - from - 1) == path.subrange(from as int, dot - 1));
        normalized_path.substring_char(from, dot - 1)
    } else {
        assert(base == path.subrange(from as int, path.len() as int));
        normalized_path.substring_char(from, v.len())
    }
}

/// Index of the first character of `s` that is no white space, from `i` on.
pub open spec fn first_visible(s: Seq<char>, i: int) -> Option<char>
    decreases s.len() - i,
{
    if i < 0 || i >= s.len() {
        None
    } else if white(s[i]) {
        first_visible(s, i + 1)
    } else {
        Some(s[i])
    }
}

/// State letter of a process `stat` line: the first visible character after
/// the last closing parenthesis (the command name may hold parentheses).
pub open spec fn stat_state(stat: Seq<char>) -> Option<char> {
    if rfind(stat, ')') < 0 {
        None
    } else {
        first_visible(stat, rfind(stat, ')') + 1)
    }
}

/// Process state out of a `stat` line; nothing when the line is malformed.
pub fn parse_stat_state(stat: &str) -> (r: Option<char>)
    ensures
        r == stat_state(stat@),
{
    let v = chars_of(stat);
    assert(v@.take(v@.len() as int) == stat@);
    let mut i: usize = match last_index(&v, v.len(), ')') {
        Some(i) => i + 1,
        None => {
            return None;
        },
    };
    while i < v.len()
        invariant
            i <= v@.len(),
            v@ == stat@,
            first_visible(stat@, i as int) == stat_state(stat@),
        decreases v@.len() - i,
    {
        if !is_white(v[i]) {
            return Some(v[i]);
        }
        i = i + 1;
    }
    None
}

/// Whether a process state letter means suspended.
pub open spec fn suspended_state(state: Option<char>) -> bool {
    state == Some('T') || state == Some('t')
}

/// Whether a `stat` line describes a suspended process. An unreadable line
/// never does.
pub fn is_suspended(stat: Option<&str>) -> (r: bool)
    ensures
        r == (stat matches Some(line) && suspended_state(stat_state(line@))),
{
    match stat {
        Some(line) => match parse_stat_state(line) {
            Some(c) => c == 'T' || c == 't',
            None => false,
        },
        None => false,
    }
}

/// The launcher's application id token.
pub open spec fn app_id_token() -> Seq<char> {
    seq!['A', 'p', 'p', 'I', 'd', '=']
}

/// Whether an application id starts after a token at `p`: the token stands
/// at a word boundary and a digit follows.
pub open spec fn app_id_starts(args: Seq<char>, p: int) -> bool {
    &&& at(args, p, app_id_token())
    &&& (p == 0 || !alphanumeric(args[p - 1]))
    &&& p + 6 < args.len()
    &&& digit(args[p + 6])
}

/// End of the run of digits of `s` that begins at `i`.
pub open spec fn digits_end(s: Seq<char>, i: int) -> int
    decreases s.len() - i,
{
    if 0 <= i < s.len() && digit(s[i]) {
        digits_end(s, i + 1)
    } else {
        i
    }
}

/// Whether `id` is the application id that `args` names: the digits after
/// the first token that starts one.
pub open spec fn names_app_id(args: Seq<char>, id: Seq<char>) -> bool {
    exists|p: int|
        {
            &&& #[trigger] app_id_starts(args, p)
            &&& forall|q: int| 0 <= q < p ==> !#[trigger] app_id_starts(args, q)
            &&& id == args.subrange(p + 6, digits_end(args, p + 6))
        }
}

/// Launcher application id out of a command line, such as
/// `reaper SteamLaunch AppId=4508340`.
pub fn app_id_from_args(arguments: Option<&str>) -> (r: Option<&str>)
    ensures
        match r {
            Some(id) => arguments matches Some(args) && names_app_id(args@, id@),
            None => arguments matches Some(args) ==> forall|p: int|
                !#[trigger] app_id_starts(args@, p),
        },
{
    let args = match arguments {
        Some(args) => args,
        None => {
            return None;
        },
    };
    let v = chars_of(args);
    let mut token: Vec<char> = Vec::new();
    token.push('A');
    token.push('p');
    token.push('p');
    token.push('I');
    token.push('d');
    token.push('=');
    assert(token@ == app_id_token());
    let mut p: usize = 0;
    while p < v.len()
        invariant
            p <= v@.len(),
            v@ == args@,
            token@ == app_id_token(),
            arguments == Some(args),
            forall|q: int| 0 <= q < p ==> !#[trigger] app_id_starts(args@, q),
        decreases v@.len() - p,
    {
        if stands_at(&v, p, &token) && (p == 0 || !is_alphanumeric(v[p - 1])) && v.len() - p > 6
            && is_digit(v[p + 6]) {
            assert(app_id_starts(args@, p as int));
            let mut end: usize = p + 6;
            while end < v.len() && is_digit(v[end])
                invariant
                    p + 6 <= end <= v@.len(),
                    v@ == args@,
                    digits_end(args@, p + 6) == digits_end(args@, end as int),
                decreases v@.len() - end,
            {
                end = end + 1;
            }
            let id = args.substring_char(p + 6, end);
            assert(names_app_id(args@, id@));
            return Some(id);
        }
        p = p + 1;
    }
    None
}

/// The high bit that marks launcher-assigned ids of foreign shortcuts.
pub const SHORTCUT_BIT: u64 = 0x8000_0000;

/// Whether an id lies in the range that the launcher assigns to foreign
/// shortcuts: a 32-bit number with the high bit set.
pub open spec fn shortcut_id(app_id: Seq<char>) -> bool {
    parsed(app_id, u32::MAX as nat) matches Some(n) && n >= SHORTCUT_BIT
}

/// Whether `app_id` is a launcher-assigned id of a foreign shortcut.
pub fn is_shortcut_id(app_id: &str) -> (r: bool)
    ensures
        r == shortcut_id(app_id@),
{
    match parse_u64(app_id) {
        Some(n) => SHORTCUT_BIT <= n && n <= 0xffff_ffff,
        None => false,
    }
}

} // verus!
