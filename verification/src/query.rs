//! Query parameters of a connection URI.
use crate::table::{with, Table};
use crate::text::{chars_of, find, first_index, split, split_text, text_of};
use vstd::prelude::*;

verus! {

/// What follows the first question mark; nothing without one.
pub open spec fn query_part(uri: Seq<char>) -> Seq<char> {
    let q = find(uri, '?');
    if q < 0 {
        Seq::empty()
    } else {
        uri.skip(q + 1)
    }
}

/// Parameters out of `name=value` pieces: pieces without an equals sign say
/// nothing, the last value of a name counts.
pub open spec fn parameters(pieces: Seq<Seq<char>>) -> Seq<(Seq<char>, Seq<char>)>
    decreases pieces.len(),
{
    if pieces.len() == 0 {
        Seq::empty()
    } else {
        let before = parameters(pieces.drop_last());
        let piece = pieces.last();
        let e = find(piece, '=');
        if e < 0 {
            before
        } else {
            with(before, piece.take(e), piece.skip(e + 1))
        }
    }
}

/// Query parameters of `uri`.
pub open spec fn query(uri: Seq<char>) -> Seq<(Seq<char>, Seq<char>)> {
    parameters(split(query_part(uri), '&'))
}

/// The query parameters of `uri` by name.
pub fn query_params(uri: &str) -> (r: Table<String>)
    ensures
        r@ == query(uri@),
{
    let v = chars_of(uri);
    let len: usize = v.len();
    let part = match first_index(&v, '?') {
        Some(q) => text_of(&v, q + 1, len),
        None => String::new(),
    };
    assert(part@ == query_part(uri@));
    let pieces = split_text(part.as_str(), '&');
    let ghost ps = pieces@.map_values(|t: String| t@);
    let mut out: Table<String> = Table::new();
    let mut i: usize = 0;
    assert(ps.take(0) == Seq::<Seq<char>>::empty());
    while i < pieces.len()
        invariant
            i <= pieces@.len(),
            ps == pieces@.map_values(|t: String| t@),
            out@ == parameters(ps.take(i as int)),
        decreases pieces@.len() - i,
    {
        assert(ps.take(i + 1).drop_last() == ps.take(i as int));
        assert(ps.take(i + 1).last() == ps[i as int]);
        let w = chars_of(pieces[i].as_str());
        assert(w@ == ps[i as int]);
        let end: usize = w.len();
        if let Some(e) = first_index(&w, '=') {
            let name = text_of(&w, 0, e);
            let value = text_of(&w, e + 1, end);
            assert(name@ == ps[i as int].take(e as int));
            assert(value@ == ps[i as int].skip(e + 1));
            out.put(name, value);
        }
        i = i + 1;
    }
    assert(ps.take(ps.len() as int) == ps);
    out
}

} // verus!
