//! Socket placement: the official directory order and the links that fan a
//! bound socket out.
use crate::json::opt_text;
use crate::origin::unslashed;
use crate::table::texts;
use crate::text::{
    at, chars_of, same, split, split_text, stands_at, text_of,
};
use vstd::prelude::*;

verus! {

/// Whether a piece of a path is a component: not empty, and no `.` unless a
/// relative path begins with it.
pub open spec fn is_component(piece: Seq<char>, first: bool) -> bool {
    piece.len() > 0 && (piece != "."@ || first)
}

/// The components among the first `n` pieces.
pub open spec fn components(pieces: Seq<Seq<char>>, n: int) -> Seq<Seq<char>>
    decreases n,
{
    if n <= 0 {
        Seq::empty()
    } else {
        let before = components(pieces, n - 1);
        if is_component(pieces[n - 1], n == 1) {
            before.push(pieces[n - 1])
        } else {
            before
        }
    }
}

/// The components of a path.
pub open spec fn path_parts(path: Seq<char>) -> Seq<Seq<char>> {
    let pieces = split(path, '/');
    components(pieces, pieces.len() as int)
}

/// Whether two paths are the same, component by component.
pub open spec fn same_path(a: Seq<char>, b: Seq<char>) -> bool {
    (a.len() > 0 && a[0] == '/') == (b.len() > 0 && b[0] == '/') && path_parts(a) == path_parts(b)
}

/// The components of a path.
fn parts_of(path: &str) -> (r: Vec<String>)
    ensures
        texts(r@) == path_parts(path@),
{
    let pieces = split_text(path, '/');
    let ghost all = split(path@, '/');
    assert(texts(pieces@) =~= all);
    let mut out: Vec<String> = Vec::new();
    let mut i: usize = 0;
    assert(texts(out@) =~= Seq::<Seq<char>>::empty());
    while i < pieces.len()
        invariant
            i <= pieces@.len(),
            texts(pieces@) == all,
            texts(out@) == components(all, i as int),
        decreases pieces@.len() - i,
    {
        let piece = pieces[i].as_str();
        assert(piece@ == all[i as int]);
        if !piece.is_empty() && (!same(piece, ".") || i == 0) {
            let ghost before = texts(out@);
            out.push(pieces[i].clone());
            assert(texts(out@) =~= before.push(all[i as int]));
        }
        i = i + 1;
    }
    assert(texts(pieces@).len() == pieces@.len());
    out
}

/// Whether a path is absolute.
fn is_absolute(path: &str) -> (r: bool)
    ensures
        r == (path@.len() > 0 && path@[0] == '/'),
{
    let v = chars_of(path);
    v.len() > 0 && v[0] == '/'
}

/// Whether two paths are the same, component by component.
pub fn paths_equal(a: &str, b: &str) -> (r: bool)
    ensures
        r == same_path(a@, b@),
{
    if is_absolute(a) != is_absolute(b) {
        return false;
    }
    let p = parts_of(a);
    let q = parts_of(b);
    if p.len() != q.len() {
        assert(texts(p@).len() != texts(q@).len());
        return false;
    }
    let mut i: usize = 0;
    while i < p.len()
        invariant
            i <= p@.len(),
            p@.len() == q@.len(),
            texts(p@) == path_parts(a@),
            texts(q@) == path_parts(b@),
            forall|j: int| 0 <= j < i ==> #[trigger] texts(p@)[j] == texts(q@)[j],
        decreases p@.len() - i,
    {
        if !same(p[i].as_str(), q[i].as_str()) {
            assert(texts(p@)[i as int] != texts(q@)[i as int]);
            return false;
        }
        assert(texts(p@)[i as int] == texts(q@)[i as int]);
        i = i + 1;
    }
    assert(texts(p@) =~= texts(q@));
    true
}

/// Whether `dirs` lists the directory `dir`, under whatever spelling.
pub open spec fn lists(dirs: Seq<Seq<char>>, dir: Seq<char>) -> bool {
    exists|i: int| 0 <= i < dirs.len() && same_path(#[trigger] dirs[i], dir)
}

/// `dirs` with the directory of one variable: trailing slashes dropped;
/// blanks, repetitions and `/tmp`, which has its own place, leave `dirs` as
/// it is.
pub open spec fn with_dir(dirs: Seq<Seq<char>>, value: Option<Seq<char>>) -> Seq<Seq<char>> {
    match value {
        Some(value) => {
            let dir = unslashed(value);
            if dir.len() == 0 || same_path(dir, "/tmp"@) || lists(dirs, dir) {
                dirs
            } else {
                dirs.push(dir)
            }
        },
        None => dirs,
    }
}

/// The candidate directories out of four variables, in order, and `/tmp`
/// behind them all.
pub open spec fn candidates(vars: Seq<Option<Seq<char>>>) -> Seq<Seq<char>> {
    with_dir(
        with_dir(with_dir(with_dir(Seq::empty(), vars[0]), vars[1]), vars[2]),
        vars[3],
    ).push("/tmp"@)
}

/// Whether `dirs` lists the directory `dir`.
fn holds_dir(dirs: &Vec<String>, dir: &str) -> (r: bool)
    ensures
        r == lists(texts(dirs@), dir@),
{
    let mut i: usize = 0;
    while i < dirs.len()
        invariant
            i <= dirs@.len(),
            forall|j: int| 0 <= j < i ==> !same_path(#[trigger] texts(dirs@)[j], dir@),
        decreases dirs@.len() - i,
    {
        if paths_equal(dirs[i].as_str(), dir) {
            assert(same_path(texts(dirs@)[i as int], dir@));
            return true;
        }
        assert(!same_path(texts(dirs@)[i as int], dir@));
        i = i + 1;
    }
    false
}

/// Add the directory of one variable.
fn add_dir(dirs: &mut Vec<String>, value: &Option<String>)
    ensures
        texts(final(dirs)@) == with_dir(texts(old(dirs)@), opt_text(*value)),
{
    if let Some(value) = value {
        let v = chars_of(value.as_str());
        let mut end: usize = v.len();
        assert(v@.take(v@.len() as int) == v@);
        while end > 0 && v[end - 1] == '/'
            invariant
                end <= v@.len(),
                unslashed(v@.take(end as int)) == unslashed(v@),
            decreases end,
        {
            assert(v@.take(end as int).last() == v@[end - 1]);
            assert(v@.take(end as int).drop_last() == v@.take(end - 1));
            end = end - 1;
        }
        assert(unslashed(v@) == v@.take(end as int)) by {
            if end > 0 {
                assert(v@.take(end as int).last() == v@[end - 1]);
            }
        }
        let dir = text_of(&v, 0, end);
        assert(dir@ == unslashed(value@)) by {
            assert(v@.subrange(0, end as int) == v@.take(end as int));
        }
        if end > 0 && !paths_equal(dir.as_str(), "/tmp") && !holds_dir(dirs, dir.as_str()) {
            let ghost before = texts(dirs@);
            let ghost shown = dir@;
            dirs.push(dir);
            assert(texts(dirs@) =~= before.push(shown));
        }
    }
}

/// Candidate socket directories out of the values of four environment
/// variables: first seen first, blanks and repetitions dropped, `/tmp` last.
pub fn candidate_dirs_from(vars: [(&str, Option<String>); 4]) -> (r: Vec<String>)
    ensures
        texts(r@) == candidates(
            seq![
                opt_text(vars@[0].1),
                opt_text(vars@[1].1),
                opt_text(vars@[2].1),
                opt_text(vars@[3].1),
            ],
        ),
        texts(r@).last() == "/tmp"@,
{
    let mut dirs: Vec<String> = Vec::new();
    assert(texts(dirs@) =~= Seq::<Seq<char>>::empty());
    add_dir(&mut dirs, &vars[0].1);
    add_dir(&mut dirs, &vars[1].1);
    add_dir(&mut dirs, &vars[2].1);
    add_dir(&mut dirs, &vars[3].1);
    let ghost before = texts(dirs@);
    dirs.push("/tmp".to_owned());
    assert(texts(dirs@) =~= before.push("/tmp"@));
    dirs
}

proof fn lemma_with_dir(dirs: Seq<Seq<char>>, value: Option<Seq<char>>)
    requires
        forall|i: int, j: int|
            0 <= i < j < dirs.len() ==> !same_path(#[trigger] dirs[i], #[trigger] dirs[j]),
        forall|i: int|
            0 <= i < dirs.len() ==> (#[trigger] dirs[i]).len() > 0 && !same_path(
                dirs[i],
                "/tmp"@,
            ),
    ensures
        forall|i: int, j: int|
            0 <= i < j < with_dir(dirs, value).len() ==> !same_path(
                #[trigger] with_dir(dirs, value)[i],
                #[trigger] with_dir(dirs, value)[j],
            ),
        forall|i: int|
            0 <= i < with_dir(dirs, value).len() ==> (#[trigger] with_dir(dirs, value)[i]).len()
                > 0 && !same_path(with_dir(dirs, value)[i], "/tmp"@),
{
}

/// No candidate is blank or listed twice, and `/tmp` is always the last.
pub proof fn law_candidates_are_distinct(vars: Seq<Option<Seq<char>>>)
    ensures
        candidates(vars).last() == "/tmp"@,
        forall|i: int, j: int|
            0 <= i < j < candidates(vars).len() ==> !same_path(
                #[trigger] candidates(vars)[i],
                #[trigger] candidates(vars)[j],
            ),
        forall|i: int|
            0 <= i < candidates(vars).len() ==> (#[trigger] candidates(vars)[i]).len() > 0,
{
    let d0 = Seq::<Seq<char>>::empty();
    let d1 = with_dir(d0, vars[0]);
    let d2 = with_dir(d1, vars[1]);
    let d3 = with_dir(d2, vars[2]);
    let d4 = with_dir(d3, vars[3]);
    lemma_with_dir(d0, vars[0]);
    lemma_with_dir(d1, vars[1]);
    lemma_with_dir(d2, vars[2]);
    lemma_with_dir(d3, vars[3]);
    reveal_strlit("/tmp");
    let c = candidates(vars);
    assert(c == d4.push("/tmp"@));
}

/// File name of a path: its last component, unless that is `.` or `..`.
pub open spec fn file_name(path: Seq<char>) -> Option<Seq<char>> {
    let parts = path_parts(path);
    if parts.len() == 0 || parts.last() == ".."@ || parts.last() == "."@ {
        None
    } else {
        Some(parts.last())
    }
}

/// File name of a path.
fn name_of(path: &str) -> (r: Option<String>)
    ensures
        opt_text(r) == file_name(path@),
{
    let parts = parts_of(path);
    assert(texts(parts@).len() == parts@.len());
    if parts.len() == 0 {
        return None;
    }
    let last = parts[parts.len() - 1].as_str();
    assert(last@ == texts(parts@).last());
    if same(last, "..") || same(last, ".") {
        None
    } else {
        Some(last.to_owned())
    }
}

/// File name of a bound socket; `discord-ipc-0` where the path has none.
pub fn socket_file_name(bound_path: &str) -> (r: String)
    ensures
        r@ == match file_name(bound_path@) {
            Some(name) => name,
            None => "discord-ipc-0"@,
        },
{
    match name_of(bound_path) {
        Some(name) => name,
        None => "discord-ipc-0".to_owned(),
    }
}

/// What stands where a link is to be.
pub enum LinkState {
    /// Nothing.
    Absent,
    /// A file or socket.
    Foreign,
    /// A link, with its target where that could be read.
    Link(Option<String>),
}

/// What to do with a link.
#[derive(Clone, Copy, PartialEq, Eq, Structural, Debug)]
pub enum LinkAction {
    Skip,
    Create,
    Replace,
}

/// Whether a link target has the shape of our sockets.
pub open spec fn ours(target: Option<Seq<char>>) -> bool {
    match target {
        Some(path) => file_name(path) matches Some(name) && at(name, 0, "discord-ipc-"@),
        None => false,
    }
}

/// Whether a link target has the shape of our sockets.
pub fn is_ours(target: &Option<String>) -> (r: bool)
    ensures
        r == ours(opt_text(*target)),
{
    match target {
        Some(path) => match name_of(path.as_str()) {
            Some(name) => {
                let v = chars_of(name.as_str());
                let w = chars_of("discord-ipc-");
                stands_at(&v, 0, &w)
            },
            None => false,
        },
        None => false,
    }
}

/// What to do with the link `link` to the socket `bound`: missing links are
/// made, links of our shape are pointed at the live socket, anything else is
/// left alone.
pub fn fanout_socket_link(link: &str, bound: &str, state: &LinkState) -> (r: LinkAction)
    ensures
        r == if same_path(link@, bound@) {
            LinkAction::Skip
        } else {
            match *state {
                LinkState::Absent => LinkAction::Create,
                LinkState::Foreign => LinkAction::Skip,
                LinkState::Link(target) => if ours(opt_text(target)) {
                    LinkAction::Replace
                } else {
                    LinkAction::Skip
                },
            }
        },
{
    if paths_equal(link, bound) {
        return LinkAction::Skip;
    }
    match state {
        LinkState::Absent => LinkAction::Create,
        LinkState::Foreign => LinkAction::Skip,
        LinkState::Link(target) => if is_ours(target) {
            LinkAction::Replace
        } else {
            LinkAction::Skip
        },
    }
}

/// Whether the link `link` to the socket `bound` is to be removed when the
/// socket goes: a link of our shape.
pub fn remove_socket_links(link: &str, bound: &str, target: &Option<String>) -> (r: bool)
    ensures
        r == (!same_path(link@, bound@) && ours(opt_text(*target))),
{
    !paths_equal(link, bound) && is_ours(target)
}

} // verus!
