//! Which web origins may connect.
//!
//! A missing `Origin` (native clients) always passes; Discord's own pages
//! pass; other pages need an explicit entry.
use crate::text::{chars_of, lower, lower_into, same, stands_at, text_of, trim_bounds, trimmed};
use crate::table::texts;
use vstd::prelude::*;

verus! {

/// Discord's own pages.
pub open spec fn discord_origin(value: Seq<char>) -> bool {
    value == "https://discord.com"@ || value == "https://canary.discord.com"@ || value
        == "https://ptb.discord.com"@
}

/// Whether `value` is one of Discord's own pages.
pub fn is_discord(value: &str) -> (r: bool)
    ensures
        r == discord_origin(value@),
{
    same(value, "https://discord.com") || same(value, "https://canary.discord.com") || same(
        value,
        "https://ptb.discord.com",
    )
}

/// The origin policy of the bridge.
pub open spec fn bridge_allows(origin: Option<Seq<char>>, extra: Seq<Seq<char>>) -> bool {
    match origin {
        None => true,
        Some(value) => discord_origin(value) || extra.contains(value),
    }
}

/// Whether a bridge consumer with this `Origin` may connect. Entries of
/// `extra` are compared exactly: normalise them once, when configured.
pub fn origin_allowed(origin: Option<&str>, extra: &[String]) -> (r: bool)
    ensures
        r == bridge_allows(crate::json::opt_str(origin), texts(extra@)),
{
    match origin {
        None => true,
        Some(value) => {
            if is_discord(value) {
                return true;
            }
            let mut i: usize = 0;
            while i < extra.len()
                invariant
                    i <= extra@.len(),
                    origin == Some(value),
                    !discord_origin(value@),
                    forall|j: int| 0 <= j < i ==> #[trigger] texts(extra@)[j] != value@,
                decreases extra@.len() - i,
            {
                if same(extra[i].as_str(), value) {
                    assert(texts(extra@)[i as int] == value@);
                    return true;
                }
                assert(texts(extra@)[i as int] != value@);
                i = i + 1;
            }
            false
        },
    }
}

/// The origin policy of the game websocket.
pub open spec fn game_allows(origin: Option<Seq<char>>) -> bool {
    match origin {
        None => true,
        Some(value) => discord_origin(value),
    }
}

/// `s` without trailing slashes.
pub open spec fn unslashed(s: Seq<char>) -> Seq<char>
    decreases s.len(),
{
    if s.len() > 0 && s.last() == '/' {
        unslashed(s.drop_last())
    } else {
        s
    }
}

/// Whether `s` begins with `prefix` and what follows ends with `suffix`.
pub open spec fn framed(s: Seq<char>, prefix: Seq<char>, suffix: Seq<char>) -> bool {
    &&& prefix.len() + suffix.len() <= s.len()
    &&& s.take(prefix.len() as int) == prefix
    &&& s.skip(s.len() - suffix.len()) == suffix
}

/// `s` without the default port of its scheme.
pub open spec fn portless(s: Seq<char>) -> Seq<char> {
    if framed(s, "http://"@, ":80"@) {
        s.take(s.len() - ":80"@.len())
    } else if framed(s, "https://"@, ":443"@) {
        s.take(s.len() - ":443"@.len())
    } else {
        s
    }
}

/// Browser form of a configured origin: no padding, no trailing slash, lower
/// case, no default port.
pub open spec fn canonical_origin(origin: Seq<char>) -> Seq<char> {
    portless(lower(unslashed(trimmed(origin))))
}

/// Length of `v` without a trailing `suffix`, when `v` is framed by `prefix`
/// and `suffix`.
fn framed_length(v: &Vec<char>, prefix: &str, suffix: &str) -> (r: Option<usize>)
    ensures
        match r {
            Some(n) => framed(v@, prefix@, suffix@) && n == v@.len() - suffix@.len(),
            None => !framed(v@, prefix@, suffix@),
        },
{
    let p = chars_of(prefix);
    let q = chars_of(suffix);
    if p.len() > v.len() || q.len() > v.len() - p.len() {
        return None;
    }
    let n: usize = v.len() - q.len();
    let head = stands_at(v, 0, &p);
    let tail = stands_at(v, n, &q);
    assert(v@.subrange(0, p@.len() as int) == v@.take(p@.len() as int));
    assert(v@.subrange(n as int, n + q@.len()) == v@.skip(n as int));
    if head && tail {
        Some(n)
    } else {
        None
    }
}

/// Normalise a configured origin to the form that browsers send.
pub fn normalize_origin(origin: &str) -> (r: String)
    ensures
        r@ == canonical_origin(origin@),
{
    let v = chars_of(origin);
    let (a, b) = trim_bounds(&v);
    let ghost t = trimmed(origin@);
    let mut end: usize = b;
    assert(v@.subrange(a as int, b as int) == t);
    while end > a && v[end - 1] == '/'
        invariant
            a <= end <= b <= v@.len(),
            unslashed(v@.subrange(a as int, end as int)) == unslashed(t),
        decreases end,
    {
        assert(v@.subrange(a as int, end as int).last() == v@[end - 1]);
        assert(v@.subrange(a as int, end as int).drop_last() == v@.subrange(a as int, end - 1));
        end = end - 1;
    }
    assert(unslashed(t) == v@.subrange(a as int, end as int)) by {
        if end > a {
            assert(v@.subrange(a as int, end as int).last() == v@[end - 1]);
        }
    }
    let bare = text_of(&v, a, end);
    let mut canonical = String::new();
    lower_into(bare.as_str(), &mut canonical);
    let w = chars_of(canonical.as_str());
    if let Some(n) = framed_length(&w, "http://", ":80") {
        let r = text_of(&w, 0, n);
        assert(r@ == w@.take(n as int));
        return r;
    }
    if let Some(n) = framed_length(&w, "https://", ":443") {
        let r = text_of(&w, 0, n);
        assert(r@ == w@.take(n as int));
        return r;
    }
    canonical
}

/// A consumer from a page that is neither Discord's nor configured is always
/// refused; one without an origin never is.
pub proof fn law_origin_policy(origin: Seq<char>, extra: Seq<Seq<char>>)
    ensures
        bridge_allows(None, extra),
        game_allows(None),
        !discord_origin(origin) && !extra.contains(origin) ==> !bridge_allows(Some(origin), extra),
        game_allows(Some(origin)) ==> bridge_allows(Some(origin), extra),
{
}

} // verus!
