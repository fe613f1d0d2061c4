//! Classification: one process in, an optional hit out.
//!
//! Cheapest source first: native patterns, the bare executable joined with
//! its working directory, the launcher's application id, Windows patterns,
//! the install directory, and last the title heuristics. What must be read
//! from the system is asked for only when a decision needs it.
use crate::detectables::{
    entry_positions, in_scope, ints, leftmost, os_applies, pattern_at, pattern_hit, patterns_in,
    positions, positions_valid, prefers_leftmost, rooted, rooted_path, search, unmarked,
    DetectablesBundle, Matcher, ScannedEntry, Scope,
};
use crate::json::{opt_str, opt_text};
use crate::names::{
    app_id_from_args, app_id_starts, base_name, exe_stem, is_shortcut_id, joined, matchable,
    name_matchable, names_app_id, normalize_lowered_dedotted_into, normalize_lowered_into,
    shortcut_id, stem, words,
};
use crate::payload::share;
use crate::procfs::Exec;
use crate::sorted_index::SortedIndex;
use crate::table::{lookup, texts, IdSet};
use crate::text::{
    at, chars_of, contains, has_char, holds, last_index, lower, lower_into, reverse_into, reversed,
    rfind, same, split, split_text, stands_at, text_of,
};
use crate::time::{clock, clock_millis};
use std::sync::Arc;
use vstd::prelude::*;

verus! {

/// A detected game: the entry, its process and when it was seen.
pub struct ScannedHit {
    pub entry: Arc<ScannedEntry>,
    pub pid: u64,
    /// Milliseconds since the epoch.
    pub start: i64,
}

impl ScannedHit {
    /// A sighting of this moment, whatever the clock says.
    pub fn stamp(entry: Arc<ScannedEntry>, pid: u64) -> (r: Self)
        ensures
            r.entry == entry,
            r.pid == pid,
            r.start >= 0,
    {
        ScannedHit { entry, pid, start: clock_millis(clock()) }
    }
}

impl Clone for ScannedHit {
    fn clone(&self) -> (r: Self)
        ensures
            r == *self,
    {
        ScannedHit { entry: share(&self.entry), pid: self.pid, start: self.start }
    }
}

/// Buffers that are reused from process to process.
pub struct MatchScratch {
    pub lowered: String,
    pub norm_out: String,
}

impl Default for MatchScratch {
    fn default() -> (r: Self)
        ensures
            r.lowered@ == Seq::<char>::empty(),
            r.norm_out@ == Seq::<char>::empty(),
    {
        MatchScratch { lowered: String::new(), norm_out: String::new() }
    }
}

/// `s` with every `w` taken out, from left to right.
pub open spec fn stripped(s: Seq<char>, w: Seq<char>) -> Seq<char>
    decreases s.len(),
{
    if s.len() == 0 || w.len() == 0 {
        s
    } else if at(s, 0, w) {
        stripped(s.skip(w.len() as int), w)
    } else {
        seq![s[0]] + stripped(s.drop_first(), w)
    }
}

/// Take every `w` out of `s`.
fn strip_all(s: &str, w: &str) -> (r: String)
    requires
        w@.len() > 0,
    ensures
        r@ == stripped(s@, w@),
{
    let v = chars_of(s);
    let mark = chars_of(w);
    let mut out = String::new();
    let mut i: usize = 0;
    assert(v@.skip(0) == v@);
    assert(out@ + stripped(v@.skip(0), w@) == stripped(v@, w@));
    while i < v.len()
        invariant
            i <= v.len(),
            mark@ == w@,
            w@.len() > 0,
            out@ + stripped(v@.skip(i as int), w@) == stripped(v@, w@),
        decreases v.len() - i,
    {
        let ghost rest = v@.skip(i as int);
        let here = stands_at(&v, i, &mark);
        proof {
            if i + w@.len() <= v@.len() {
                assert(rest.subrange(0, w@.len() as int) == v@.subrange(i as int, i + w@.len()));
            }
            assert(here == at(rest, 0, w@));
        }
        if here {
            assert(rest.skip(w@.len() as int) == v@.skip(i + w@.len()));
            i = i + mark.len();
        } else {
            assert(rest.drop_first() == v@.skip(i + 1));
            let ghost before = out@;
            out.push(v[i]);
            assert(before + (seq![rest[0]] + stripped(rest.drop_first(), w@)) == out@ + stripped(
                rest.drop_first(),
                w@,
            ));
            i = i + 1;
        }
    }
    assert(v@.skip(v@.len() as int) == Seq::<char>::empty());
    assert(out@ + Seq::<char>::empty() == out@);
    out
}

/// `s` without the 64-bit mark `w`, where it holds one.
pub open spec fn unmarked_variant(s: Seq<char>, w: Seq<char>) -> Seq<Seq<char>> {
    if holds(s, w) {
        seq![stripped(s, w)]
    } else {
        Seq::empty()
    }
}

/// A path and what is left of it without its 64-bit marks, so that
/// `wow64.exe` is tried as `wow.exe` too.
pub open spec fn variants(path: Seq<char>) -> Seq<Seq<char>> {
    seq![path] + unmarked_variant(path, "64"@) + unmarked_variant(path, ".x64"@) + unmarked_variant(
        path,
        "x64"@,
    ) + unmarked_variant(path, "_64"@)
}

/// Add the variant of `path` without the mark `w`.
fn push_variant(path: &str, w: &str, out: &mut Vec<String>)
    requires
        w@.len() > 0,
    ensures
        texts(final(out)@) == texts(old(out)@) + unmarked_variant(path@, w@),
{
    let ghost before = texts(out@);
    if contains(path, w) {
        let variant = strip_all(path, w);
        let ghost shown = variant@;
        out.push(variant);
        assert(texts(out@) == before + seq![shown]);
    } else {
        assert(before + Seq::<Seq<char>>::empty() == before);
    }
}

/// A path and its variants without 64-bit marks.
pub fn path_variants(path: &str) -> (r: Vec<String>)
    ensures
        texts(r@) == variants(path@),
{
    proof {
        reveal_strlit("64");
        reveal_strlit(".x64");
        reveal_strlit("x64");
        reveal_strlit("_64");
    }
    let mut out: Vec<String> = Vec::new();
    out.push(path.to_owned());
    assert(texts(out@) == seq![path@]);
    push_variant(path, "64", &mut out);
    push_variant(path, ".x64", &mut out);
    push_variant(path, "x64", &mut out);
    push_variant(path, "_64", &mut out);
    out
}

/// The executable that a matcher of `list` finds in the reversed path `hay`.
pub open spec fn probe_one(
    matcher: Matcher,
    list: Seq<Arc<ScannedEntry>>,
    hay: Seq<char>,
) -> Option<(Arc<ScannedEntry>, int)> {
    match pattern_hit(patterns_in(matcher.ac), hay) {
        Some(i) => Some((list[matcher.slots@[i].0 as int], matcher.slots@[i].1 as int)),
        None => None,
    }
}

/// The executable that a matcher of `list` finds in the first of `vars` in
/// which it finds one.
pub open spec fn probe_all(
    matcher: Matcher,
    list: Seq<Arc<ScannedEntry>>,
    vars: Seq<Seq<char>>,
) -> Option<(Arc<ScannedEntry>, int)>
    decreases vars.len(),
{
    if vars.len() == 0 {
        None
    } else {
        match probe_one(matcher, list, reversed(vars[0])) {
            Some(found) => Some(found),
            None => probe_all(matcher, list, vars.drop_first()),
        }
    }
}

/// Model of an optional finding.
pub open spec fn found_view(found: Option<(Arc<ScannedEntry>, usize)>) -> Option<
    (Arc<ScannedEntry>, int),
> {
    match found {
        Some((entry, exe)) => Some((entry, exe as int)),
        None => None,
    }
}

/// A matcher whose positions name executables of `list`.
pub open spec fn matcher_fits(matcher: Matcher, list: Seq<Arc<ScannedEntry>>) -> bool {
    &&& positions_valid(list, ints(matcher.slots@))
    &&& patterns_in(matcher.ac).len() == matcher.slots@.len()
    &&& matcher.ac matches Some(ac) ==> prefers_leftmost(ac)
}

/// Search one reversed path.
fn probe(matcher: &Matcher, list: &Vec<Arc<ScannedEntry>>, reversed_path: &str) -> (r: Option<
    (Arc<ScannedEntry>, usize),
>)
    requires
        matcher_fits(*matcher, list@),
    ensures
        found_view(r) == probe_one(*matcher, list@, reversed_path@),
{
    match search(&matcher.ac, reversed_path) {
        Some(i) => {
            let (entry, exe) = matcher.slots[i];
            assert(ints(matcher.slots@)[i as int] == (
                entry as int,
                exe as int,
            ));
            Some((share(&list[entry]), exe))
        },
        None => None,
    }
}

/// Search the variants of a path in order.
fn probe_paths(matcher: &Matcher, list: &Vec<Arc<ScannedEntry>>, vars: &Vec<String>) -> (r: Option<
    (Arc<ScannedEntry>, usize),
>)
    requires
        matcher_fits(*matcher, list@),
    ensures
        found_view(r) == probe_all(*matcher, list@, texts(vars@)),
{
    let mut reversed_path = String::new();
    let ghost all = texts(vars@);
    let mut i: usize = 0;
    assert(all.skip(0) == all);
    while i < vars.len()
        invariant
            i <= vars@.len(),
            all == texts(vars@),
            matcher_fits(*matcher, list@),
            probe_all(*matcher, list@, all.skip(i as int)) == probe_all(*matcher, list@, all),
        decreases vars@.len() - i,
    {
        assert(all.skip(i as int)[0] == all[i as int]);
        assert(all.skip(i as int).drop_first() == all.skip(i + 1));
        reverse_into(vars[i].as_str(), &mut reversed_path);
        if let Some(found) = probe(matcher, list, reversed_path.as_str()) {
            return Some(found);
        }
        i = i + 1;
    }
    None
}

/// What native patterns find: the overrides over every variant first, the
/// main list then. An override always wins over the main list.
pub open spec fn native_probe(bundle: DetectablesBundle, path: Seq<char>) -> Option<
    (Arc<ScannedEntry>, int),
> {
    match probe_all(bundle.overrides, bundle.custom@, variants(path)) {
        Some(found) => Some(found),
        None => probe_all(bundle.main, bundle.list@, variants(path)),
    }
}

/// What Windows patterns find on Linux.
pub open spec fn windows_probe(bundle: DetectablesBundle, path: Seq<char>) -> Option<
    (Arc<ScannedEntry>, int),
> {
    probe_all(bundle.proton, bundle.list@, variants(path))
}

proof fn lemma_fits(bundle: DetectablesBundle)
    requires
        bundle.wf(),
    ensures
        matcher_fits(bundle.main, bundle.list@),
        matcher_fits(bundle.overrides, bundle.custom@),
        matcher_fits(bundle.proton, bundle.list@),
{
    assert(ints(bundle.main.slots@).len() == bundle.main.slots@.len());
    assert(ints(bundle.overrides.slots@).len()
        == bundle.overrides.slots@.len());
    assert(ints(bundle.proton.slots@).len() == bundle.proton.slots@.len());
}

/// Single probe of a reversed path: the overrides, then the main list.
pub fn ac_probe(reversed_path: &str, bundle: &DetectablesBundle) -> (r: Option<
    (Arc<ScannedEntry>, usize),
>)
    requires
        bundle.wf(),
    ensures
        found_view(r) == match probe_one(bundle.overrides, bundle.custom@, reversed_path@) {
            Some(found) => Some(found),
            None => probe_one(bundle.main, bundle.list@, reversed_path@),
        },
{
    proof {
        lemma_fits(*bundle);
    }
    match probe(&bundle.overrides, &bundle.custom, reversed_path) {
        Some(found) => Some(found),
        None => probe(&bundle.main, &bundle.list, reversed_path),
    }
}

/// Single probe of a reversed path for Windows executables.
pub fn proton_probe(reversed_path: &str, bundle: &DetectablesBundle) -> (r: Option<
    (Arc<ScannedEntry>, usize),
>)
    requires
        bundle.wf(),
    ensures
        found_view(r) == probe_one(bundle.proton, bundle.list@, reversed_path@),
{
    proof {
        lemma_fits(*bundle);
    }
    probe(&bundle.proton, &bundle.list, reversed_path)
}

/// Probe a path and its variants: native patterns, or Windows ones.
pub fn probe_variants(path: &str, bundle: &DetectablesBundle, proton: bool) -> (r: Option<
    (Arc<ScannedEntry>, usize),
>)
    requires
        bundle.wf(),
    ensures
        found_view(r) == if proton {
            windows_probe(*bundle, path@)
        } else {
            native_probe(*bundle, path@)
        },
{
    proof {
        lemma_fits(*bundle);
    }
    let vars = path_variants(path);
    if proton {
        return probe_paths(&bundle.proton, &bundle.list, &vars);
    }
    match probe_paths(&bundle.overrides, &bundle.custom, &vars) {
        Some(found) => Some(found),
        None => probe_paths(&bundle.main, &bundle.list, &vars),
    }
}

/// First of `custom` with the store id `id`.
pub open spec fn custom_sku(custom: Seq<Arc<ScannedEntry>>, id: Seq<char>) -> Option<
    Arc<ScannedEntry>,
>
    decreases custom.len(),
{
    if custom.len() == 0 {
        None
    } else if texts(custom[0].steam_ids@).contains(id) {
        Some(custom[0])
    } else {
        custom_sku(custom.drop_first(), id)
    }
}

/// The entry of a store id: the first override that carries it, else the main
/// list through its index.
pub open spec fn steam_entry(
    id: Option<Seq<char>>,
    steam_map: Seq<(Seq<char>, usize)>,
    list: Seq<Arc<ScannedEntry>>,
    custom: Seq<Arc<ScannedEntry>>,
) -> Option<Arc<ScannedEntry>> {
    match id {
        None => None,
        Some(id) => match custom_sku(custom, id) {
            Some(entry) => Some(entry),
            None => match lookup(steam_map, id) {
                Some(i) => if i < list.len() {
                    Some(list[i as int])
                } else {
                    None
                },
                None => None,
            },
        },
    }
}

/// Whether `ids` holds `id`.
fn holds_text(ids: &Vec<String>, id: &str) -> (r: bool)
    ensures
        r == texts(ids@).contains(id@),
{
    let mut i: usize = 0;
    while i < ids.len()
        invariant
            i <= ids@.len(),
            forall|j: int| 0 <= j < i ==> #[trigger] texts(ids@)[j] != id@,
        decreases ids@.len() - i,
    {
        if same(ids[i].as_str(), id) {
            assert(texts(ids@)[i as int] == id@);
            return true;
        }
        assert(texts(ids@)[i as int] != id@);
        i = i + 1;
    }
    false
}

/// The entry of a store id.
fn find_steam_entry(
    steam_app_id: Option<&str>,
    steam_map: &SortedIndex,
    detectable_list: &[Arc<ScannedEntry>],
    custom: &[Arc<ScannedEntry>],
) -> (r: Option<Arc<ScannedEntry>>)
    ensures
        r == steam_entry(opt_str(steam_app_id), steam_map@, detectable_list@, custom@),
{
    let id = match steam_app_id {
        Some(id) => id,
        None => {
            return None;
        },
    };
    let ghost all = custom@;
    let mut k: usize = 0;
    assert(all.skip(0) == all);
    while k < custom.len()
        invariant
            k <= custom@.len(),
            all == custom@,
            custom_sku(all.skip(k as int), id@) == custom_sku(all, id@),
            opt_str(steam_app_id) == Some(id@),
        decreases custom@.len() - k,
    {
        assert(all.skip(k as int)[0] == all[k as int]);
        assert(all.skip(k as int).drop_first() == all.skip(k + 1));
        if holds_text(&custom[k].steam_ids, id) {
            return Some(share(&custom[k]));
        }
        k = k + 1;
    }
    match steam_map.get(id) {
        Some(i) => if i < detectable_list.len() {
            Some(share(&detectable_list[i]))
        } else {
            None
        },
        None => None,
    }
}

/// The entry that the folder `c` names. With `dots` only folders that hold a
/// full stop count, without it only those that hold none.
pub open spec fn folder_entry(
    c: Seq<char>,
    map: Seq<(Seq<char>, usize)>,
    len: nat,
    dots: bool,
) -> Option<usize> {
    let folder = joined(words(c, dots));
    if c.contains('.') == dots && matchable(folder) {
        match lookup(map, folder) {
            Some(i) if i < len => Some(i),
            _ => None,
        }
    } else {
        None
    }
}

/// The entry that the last of `folders` names which names one.
pub open spec fn nearest_folder(
    folders: Seq<Seq<char>>,
    map: Seq<(Seq<char>, usize)>,
    len: nat,
    dots: bool,
) -> Option<usize>
    decreases folders.len(),
{
    if folders.len() == 0 {
        None
    } else {
        match folder_entry(folders.last(), map, len, dots) {
            Some(i) => Some(i),
            None => nearest_folder(folders.drop_last(), map, len, dots),
        }
    }
}

/// The entry that a lower-case path names: its stem, else its nearest folder
/// by exact title, else its nearest dotted folder by the title without
/// dots.
pub open spec fn title_entry(
    path: Seq<char>,
    name_map: Seq<(Seq<char>, usize)>,
    name_map_nodot: Seq<(Seq<char>, usize)>,
    len: nat,
) -> Option<usize> {
    let by_stem = if matchable(stem(path)) {
        match lookup(name_map, stem(path)) {
            Some(i) if i < len => Some(i),
            _ => None,
        }
    } else {
        None
    };
    match by_stem {
        Some(i) => Some(i),
        None => {
            let folders = split(path, '/').drop_last();
            match nearest_folder(folders, name_map, len, false) {
                Some(i) => Some(i),
                None => nearest_folder(folders, name_map_nodot, len, true),
            }
        },
    }
}

/// What the folder buffer holds after a walk: what it held before, or the
/// normal form of a folder of `path`.
pub open spec fn folder_buffer(before: Seq<char>, after: Seq<char>, path: Seq<char>) -> bool {
    after == before || exists|c: Seq<char>, dots: bool| #[trigger]
        split(path, '/').contains(c) && after == joined(#[trigger] words(c, dots))
}

/// Walk the folders of a path from the nearest outwards.
fn walk_folders(
    pieces: &Vec<String>,
    map: &SortedIndex,
    len: usize,
    dots: bool,
    norm_out: &mut String,
    Ghost(path): Ghost<Seq<char>>,
) -> (r: Option<usize>)
    requires
        texts(pieces@) == split(path, '/'),
        pieces@.len() > 0,
    ensures
        r == nearest_folder(split(path, '/').drop_last(), map@, len as nat, dots),
        folder_buffer(old(norm_out)@, final(norm_out)@, path),
{
    let ghost folders = split(path, '/').drop_last();
    let mut k: usize = pieces.len() - 1;
    assert(folders.take(k as int) == folders);
    while k > 0
        invariant
            k <= folders.len(),
            folders.len() == pieces@.len() - 1,
            texts(pieces@) == split(path, '/'),
            folders == split(path, '/').drop_last(),
            nearest_folder(folders.take(k as int), map@, len as nat, dots) == nearest_folder(
                folders,
                map@,
                len as nat,
                dots,
            ),
            folder_buffer(old(norm_out)@, norm_out@, path),
        decreases k,
    {
        assert(folders.take(k as int).last() == folders[k - 1]);
        assert(folders.take(k as int).drop_last() == folders.take(k - 1));
        let c = pieces[k - 1].as_str();
        assert(c@ == split(path, '/')[k - 1]);
        assert(c@ == folders[k - 1]);
        if has_char(c, '.') == dots {
            if dots {
                normalize_lowered_dedotted_into(c, norm_out);
            } else {
                normalize_lowered_into(c, norm_out);
            }
            assert(norm_out@ == joined(words(c@, dots)));
            assert(split(path, '/').contains(c@));
            if name_matchable(norm_out.as_str()) {
                if let Some(i) = map.get(norm_out.as_str()) {
                    if i < len {
                        return Some(i);
                    }
                }
            }
        }
        k = k - 1;
    }
    None
}

/// The position of the entry that a lower-case path names.
fn find_title_entry(
    process_path: &str,
    name_map: &SortedIndex,
    name_map_nodot: &SortedIndex,
    len: usize,
    norm_out: &mut String,
) -> (r: Option<usize>)
    ensures
        r == title_entry(process_path@, name_map@, name_map_nodot@, len as nat),
        folder_buffer(old(norm_out)@, final(norm_out)@, process_path@),
{
    let stem_text = exe_stem(process_path);
    if name_matchable(stem_text) {
        if let Some(i) = name_map.get(stem_text) {
            if i < len {
                return Some(i);
            }
        }
    }
    let pieces = split_text(process_path, '/');
    assert(texts(pieces@) =~= split(process_path@, '/'));
    proof {
        crate::text::lemma_split_push(process_path@, '/', 'a');
    }
    assert(texts(pieces@).len() == pieces@.len());
    let near = walk_folders(&pieces, name_map, len, false, norm_out, Ghost(process_path@));
    if near.is_some() {
        return near;
    }
    walk_folders(&pieces, name_map_nodot, len, true, norm_out, Ghost(process_path@))
}

/// A sighting of a process that runs; nothing of a suspended one, which is
/// not being played.
pub fn live_or_none(entry: &Arc<ScannedEntry>, pid: u64, suspended: bool, now_ms: i64) -> (r:
    Option<ScannedHit>)
    ensures
        r == if suspended {
            None
        } else {
            Some(ScannedHit { entry: *entry, pid, start: now_ms })
        },
{
    if suspended {
        None
    } else {
        Some(ScannedHit { entry: share(entry), pid, start: now_ms })
    }
}

/// A finding as a sighting.
pub open spec fn sighting(
    entry: Option<Arc<ScannedEntry>>,
    pid: u64,
    suspended: bool,
    now_ms: i64,
) -> Option<ScannedHit> {
    match entry {
        Some(entry) => if suspended {
            None
        } else {
            Some(ScannedHit { entry, pid, start: now_ms })
        },
        None => None,
    }
}

/// Match by store id.
pub fn match_steam_id(
    steam_app_id: Option<&str>,
    pid: u64,
    suspended: bool,
    now_ms: i64,
    steam_map: &SortedIndex,
    detectable_list: &[Arc<ScannedEntry>],
    custom: &[Arc<ScannedEntry>],
) -> (r: Option<ScannedHit>)
    ensures
        r == sighting(
            steam_entry(opt_str(steam_app_id), steam_map@, detectable_list@, custom@),
            pid,
            suspended,
            now_ms,
        ),
{
    match find_steam_entry(steam_app_id, steam_map, detectable_list, custom) {
        Some(entry) => live_or_none(&entry, pid, suspended, now_ms),
        None => None,
    }
}

/// Match a lower-case path by title: its stem, then its folders.
pub fn match_name_or_folder(
    process_path: &str,
    pid: u64,
    suspended: bool,
    now_ms: i64,
    name_map: &SortedIndex,
    name_map_nodot: &SortedIndex,
    detectable_list: &[Arc<ScannedEntry>],
    norm_out: &mut String,
) -> (r: Option<ScannedHit>)
    ensures
        r == sighting(
            match title_entry(
                process_path@,
                name_map@,
                name_map_nodot@,
                detectable_list@.len(),
            ) {
                Some(i) => Some(detectable_list@[i as int]),
                None => None,
            },
            pid,
            suspended,
            now_ms,
        ),
        folder_buffer(old(norm_out)@, final(norm_out)@, process_path@),
{
    let len: usize = detectable_list.len();
    match find_title_entry(process_path, name_map, name_map_nodot, len, norm_out) {
        Some(i) => {
            proof {
                lemma_title_bound(process_path@, name_map@, name_map_nodot@, len as nat);
            }
            live_or_none(&detectable_list[i], pid, suspended, now_ms)
        },
        None => None,
    }
}

proof fn lemma_folder_bound(
    folders: Seq<Seq<char>>,
    map: Seq<(Seq<char>, usize)>,
    len: nat,
    dots: bool,
)
    ensures
        nearest_folder(folders, map, len, dots) matches Some(i) ==> i < len,
    decreases folders.len(),
{
    if folders.len() > 0 {
        lemma_folder_bound(folders.drop_last(), map, len, dots);
    }
}

proof fn lemma_title_bound(
    path: Seq<char>,
    name_map: Seq<(Seq<char>, usize)>,
    name_map_nodot: Seq<(Seq<char>, usize)>,
    len: nat,
)
    ensures
        title_entry(path, name_map, name_map_nodot, len) matches Some(i) ==> i < len,
{
    let folders = split(path, '/').drop_last();
    lemma_folder_bound(folders, name_map, len, false);
    lemma_folder_bound(folders, name_map_nodot, len, true);
}

/// Something that may not have been read from the system yet.
pub enum Reading<T> {
    Unread,
    Read(T),
}

/// What was read about a process. A missing value stands for an unreadable
/// one.
pub struct Facts {
    /// Working directory, lower case.
    pub cwd: Reading<Option<String>>,
    /// Launcher id of its environment.
    pub app_id: Reading<Option<String>>,
    pub suspended: Reading<bool>,
    /// Whether an exclusion pattern matches its base name.
    pub excluded_by_pattern: bool,
    pub now_ms: i64,
}

/// What a decision needs to be read.
#[derive(Clone, Copy, PartialEq, Eq, Structural, Debug)]
pub enum Need {
    Cwd,
    AppId,
    Suspended,
}

/// Outcome of a classification.
pub enum Verdict {
    Hit(ScannedHit),
    Miss,
    Needs(Need),
}

/// Model of a [`Verdict`].
pub enum Class {
    Hit(Arc<ScannedEntry>),
    Miss,
    Needs(Need),
}

/// Model of a verdict on the process `pid` at `now_ms`.
pub open spec fn verdict_is(v: Verdict, class: Class, pid: u64, now_ms: i64) -> bool {
    match v {
        Verdict::Hit(hit) => class == Class::Hit(hit.entry) && hit.pid == pid && hit.start == now_ms,
        Verdict::Miss => class == Class::Miss,
        Verdict::Needs(need) => class == Class::Needs(need),
    }
}

/// A finding counts unless its process is suspended.
pub open spec fn settled(entry: Arc<ScannedEntry>, facts: Facts) -> Class {
    match facts.suspended {
        Reading::Unread => Class::Needs(Need::Suspended),
        Reading::Read(suspended) => if suspended {
            Class::Miss
        } else {
            Class::Hit(entry)
        },
    }
}

/// Whether a process satisfies the arguments that an executable asks for.
pub open spec fn arguments_match(wanted: Option<String>, given: Option<String>) -> bool {
    match wanted {
        Some(wanted) => given matches Some(given) && holds(given@, wanted@),
        None => true,
    }
}

/// A found executable counts when it exists, its arguments are there and its
/// process is not suspended.
pub open spec fn finished(
    found: (Arc<ScannedEntry>, int),
    process: Exec,
    facts: Facts,
) -> Class {
    if 0 <= found.1 < found.0.executables@.len() && arguments_match(
        found.0.executables@[found.1].arguments,
        process.arguments,
    ) {
        settled(found.0, facts)
    } else {
        Class::Miss
    }
}

/// The executable of a path without directories.
pub open spec fn bare(path: Seq<char>) -> Option<Seq<char>> {
    if rfind(path, '/') == 0 && path.len() > 1 {
        Some(path.drop_first())
    } else {
        None
    }
}

/// The executable of a rooted path without directories.
pub fn bare_exe(path: &str) -> (r: Option<&str>)
    ensures
        opt_str(r) == bare(path@),
{
    let v = chars_of(path);
    let len: usize = v.len();
    assert(v@.take(v@.len() as int) == path@);
    match last_index(&v, len, '/') {
        Some(i) => if i == 0 && len > 1 {
            let exe = path.substring_char(1, len);
            assert(exe@ == path@.drop_first());
            Some(exe)
        } else {
            None
        },
        None => None,
    }
}

/// The launcher id that a command line names.
pub open spec fn args_app_id(arguments: Option<String>) -> Option<Seq<char>> {
    match arguments {
        Some(args) => if exists|p: int| #[trigger] app_id_starts(args@, p) {
            Some(choose|id: Seq<char>| names_app_id(args@, id))
        } else {
            None
        },
        None => None,
    }
}

proof fn lemma_one_app_id(args: Seq<char>, a: Seq<char>, b: Seq<char>)
    requires
        names_app_id(args, a),
        names_app_id(args, b),
    ensures
        a == b,
{
    let p = choose|p: int|
        {
            &&& #[trigger] app_id_starts(args, p)
            &&& forall|q: int| 0 <= q < p ==> !#[trigger] app_id_starts(args, q)
            &&& a == args.subrange(p + 6, crate::names::digits_end(args, p + 6))
        };
    let q = choose|q: int|
        {
            &&& #[trigger] app_id_starts(args, q)
            &&& forall|o: int| 0 <= o < q ==> !#[trigger] app_id_starts(args, o)
            &&& b == args.subrange(q + 6, crate::names::digits_end(args, q + 6))
        };
    if p < q {
        assert(!app_id_starts(args, p));
    } else if q < p {
        assert(!app_id_starts(args, q));
    }
}

/// The launcher id of a command line is the one that it names.
pub proof fn lemma_args_app_id(arguments: Option<String>, id: Seq<char>)
    requires
        arguments is Some,
        names_app_id(arguments->0@, id),
    ensures
        args_app_id(arguments) == Some(id),
{
    let text = arguments->0@;
    assert(exists|p: int| #[trigger] app_id_starts(text, p));
    let named = args_app_id(arguments)->0;
    assert(names_app_id(text, named));
    lemma_one_app_id(text, id, named);
}

/// The launcher id that a command line names.
fn find_args_app_id(arguments: &Option<String>) -> (r: Option<String>)
    ensures
        opt_text(r) == args_app_id(*arguments),
{
    let args = match arguments {
        Some(args) => Some(args.as_str()),
        None => None,
    };
    match app_id_from_args(args) {
        Some(id) => {
            proof {
                assert(names_app_id(arguments->0@, id@));
                lemma_args_app_id(*arguments, id@);
            }
            Some(id.to_owned())
        },
        None => {
            proof {
                if let Some(text) = arguments {
                    assert(args->0@ == text@);
                    assert forall|p: int| !#[trigger] app_id_starts(text@, p) by {
                        assert(!app_id_starts(args->0@, p));
                    }
                }
            }
            None
        },
    }
}

/// Install directories of the launcher's libraries, each with the id of the
/// game in it.
pub struct SteamLibraries {
    pub dirs: Vec<(String, String)>,
}

/// Whether `path` is `dir` or lies in it.
pub open spec fn lies_in(path: Seq<char>, dir: Seq<char>) -> bool {
    at(path, 0, dir) && (path.len() == dir.len() || path[dir.len() as int] == '/')
}

/// Install directories by their views.
pub open spec fn dirs_view(v: Seq<(String, String)>) -> Seq<(Seq<char>, Seq<char>)> {
    v.map_values(|d: (String, String)| (d.0@, d.1@))
}

/// Id of the first of `dirs` that `path` lies in.
pub open spec fn library_id(dirs: Seq<(Seq<char>, Seq<char>)>, path: Seq<char>) -> Option<Seq<char>>
    decreases dirs.len(),
{
    if dirs.len() == 0 {
        None
    } else if lies_in(path, dirs[0].0) {
        Some(dirs[0].1)
    } else {
        library_id(dirs.drop_first(), path)
    }
}

impl SteamLibraries {
    /// Id of the game whose install directory `normalized_path` lies in.
    pub fn match_prefix(&self, normalized_path: &str) -> (r: Option<&str>)
        ensures
            opt_str(r) == library_id(dirs_view(self.dirs@), normalized_path@),
    {
        let path = chars_of(normalized_path);
        let ghost all = dirs_view(self.dirs@);
        let mut i: usize = 0;
        assert(all.skip(0) == all);
        while i < self.dirs.len()
            invariant
                i <= self.dirs@.len(),
                all == dirs_view(self.dirs@),
                path@ == normalized_path@,
                library_id(all.skip(i as int), path@) == library_id(all, path@),
            decreases self.dirs@.len() - i,
        {
            assert(all.skip(i as int)[0] == all[i as int]);
            assert(all.skip(i as int).drop_first() == all.skip(i + 1));
            let dir = chars_of(self.dirs[i].0.as_str());
            if stands_at(&path, 0, &dir) {
                if path.len() == dir.len() || path[dir.len()] == '/' {
                    return Some(self.dirs[i].1.as_str());
                }
            }
            i = i + 1;
        }
        None
    }
}

/// Names of processes that never match.
pub struct Exclusions {
    /// Base names, lower case.
    pub names: IdSet,
}

/// What a classification reads besides the bundle.
pub struct Context {
    pub exclusions: Exclusions,
    pub steam_libraries: SteamLibraries,
}

/// The launcher id of a process: of its environment, else of its command
/// line.
pub open spec fn launcher_id(environ: Option<String>, arguments: Option<String>) -> Option<
    Seq<char>,
> {
    match environ {
        Some(id) => Some(id@),
        None => args_app_id(arguments),
    }
}

/// Classification of a process that no native pattern found, with the
/// launcher id `app_id`.
pub open spec fn classify_rest(
    bundle: DetectablesBundle,
    context: Context,
    process: Exec,
    facts: Facts,
    app_id: Option<Seq<char>>,
) -> Class {
    let path = rooted(process.path@);
    let lowered = lower(path);
    let by_id = steam_entry(app_id, bundle.steam_map@, bundle.list@, bundle.custom@);
    let shortcut = app_id matches Some(id) && shortcut_id(id);
    let by_title = title_entry(
        lowered,
        bundle.name_map@,
        bundle.name_map_nodot@,
        bundle.list@.len(),
    );
    let library = library_id(dirs_view(context.steam_libraries.dirs@), lowered);
    let by_library = steam_entry(library, bundle.steam_map@, bundle.list@, bundle.custom@);
    if by_id is Some {
        settled(by_id->0, facts)
    } else if shortcut && by_title is Some {
        settled(bundle.list@[by_title->0 as int], facts)
    } else if windows_probe(bundle, path) is Some {
        finished(windows_probe(bundle, path)->0, process, facts)
    } else if by_library is Some {
        settled(by_library->0, facts)
    } else if by_title is Some {
        settled(bundle.list@[by_title->0 as int], facts)
    } else {
        Class::Miss
    }
}

/// Classification of a process that no native pattern found: it needs the
/// launcher id.
pub open spec fn classify_tail(
    bundle: DetectablesBundle,
    context: Context,
    process: Exec,
    facts: Facts,
) -> Class {
    match facts.app_id {
        Reading::Unread => Class::Needs(Need::AppId),
        Reading::Read(environ) => classify_rest(
            bundle,
            context,
            process,
            facts,
            launcher_id(environ, process.arguments),
        ),
    }
}

/// Whether a process is invisible to detection.
pub open spec fn excluded(context: Context, process: Exec, facts: Facts) -> bool {
    context.exclusions.names@.contains(lower(base_name(rooted(process.path@))))
        || facts.excluded_by_pattern
}

/// Classification of a process.
pub open spec fn classify(
    bundle: DetectablesBundle,
    context: Context,
    process: Exec,
    facts: Facts,
) -> Class {
    let path = rooted(process.path@);
    if excluded(context, process, facts) {
        Class::Miss
    } else {
        match native_probe(bundle, path) {
            Some(found) => finished(found, process, facts),
            None => match bare(path) {
                None => classify_tail(bundle, context, process, facts),
                Some(exe) => match facts.cwd {
                    Reading::Unread => Class::Needs(Need::Cwd),
                    Reading::Read(None) => classify_tail(bundle, context, process, facts),
                    Reading::Read(Some(cwd)) => match native_probe(
                        bundle,
                        cwd@.push('/') + exe,
                    ) {
                        Some(found) => finished(found, process, facts),
                        None => classify_tail(bundle, context, process, facts),
                    },
                },
            },
        }
    }
}

/// Whether a process shows that recording software runs.
pub open spec fn shows_recording(context: Context, process: Exec, facts: Facts) -> bool {
    !excluded(context, process, facts) && (holds(rooted(process.path@), "obs64"@) || holds(
        rooted(process.path@),
        "streamlabs"@,
    ))
}

/// Turn a finding into a verdict.
fn settle(entry: Arc<ScannedEntry>, process: &Exec, facts: &Facts) -> (r: Verdict)
    ensures
        verdict_is(r, settled(entry, *facts), process.pid, facts.now_ms),
{
    match facts.suspended {
        Reading::Unread => Verdict::Needs(Need::Suspended),
        Reading::Read(suspended) => match live_or_none(
            &entry,
            process.pid,
            suspended,
            facts.now_ms,
        ) {
            Some(hit) => Verdict::Hit(hit),
            None => Verdict::Miss,
        },
    }
}

/// Judge a found executable: no game without the executable at that position,
/// nor without the arguments that it wants.
pub fn finish_direct_hit(
    entry: Arc<ScannedEntry>,
    exe_index: usize,
    process: &Exec,
    facts: &Facts,
) -> (r: Verdict)
    ensures
        verdict_is(
            r,
            finished((entry, exe_index as int), *process, *facts),
            process.pid,
            facts.now_ms,
        ),
{
    if exe_index >= entry.executables.len() {
        return Verdict::Miss;
    }
    if let Some(wanted) = &entry.executables[exe_index].arguments {
        let there = match &process.arguments {
            Some(given) => contains(given.as_str(), wanted.as_str()),
            None => false,
        };
        if !there {
            return Verdict::Miss;
        }
    }
    settle(entry, process, facts)
}

/// Classify a process that no native pattern found.
fn match_rest(
    bundle: &DetectablesBundle,
    context: &Context,
    process: &Exec,
    path: &str,
    facts: &Facts,
    app_id: Option<String>,
    match_scratch: &mut MatchScratch,
) -> (r: Verdict)
    requires
        bundle.wf(),
        path@ == rooted(process.path@),
        old(match_scratch).lowered@ == lower(path@),
    ensures
        verdict_is(
            r,
            classify_rest(*bundle, *context, *process, *facts, opt_text(app_id)),
            process.pid,
            facts.now_ms,
        ),
        final(match_scratch).lowered == old(match_scratch).lowered,
        folder_buffer(
            old(match_scratch).norm_out@,
            final(match_scratch).norm_out@,
            lower(path@),
        ),
{
    let id = match &app_id {
        Some(id) => Some(id.as_str()),
        None => None,
    };
    if let Some(entry) = find_steam_entry(
        id,
        &bundle.steam_map,
        bundle.list.as_slice(),
        bundle.custom.as_slice(),
    ) {
        return settle(entry, process, facts);
    }
    let shortcut = match id {
        Some(id) => is_shortcut_id(id),
        None => false,
    };
    let len: usize = bundle.list.len();
    proof {
        lemma_title_bound(lower(path@), bundle.name_map@, bundle.name_map_nodot@, len as nat);
    }
    if shortcut {
        if let Some(i) = find_title_entry(
            match_scratch.lowered.as_str(),
            &bundle.name_map,
            &bundle.name_map_nodot,
            len,
            &mut match_scratch.norm_out,
        ) {
            return settle(share(&bundle.list[i]), process, facts);
        }
    }
    if let Some((entry, exe_index)) = probe_variants(path, bundle, true) {
        return finish_direct_hit(entry, exe_index, process, facts);
    }
    let library = context.steam_libraries.match_prefix(match_scratch.lowered.as_str());
    if let Some(entry) = find_steam_entry(
        library,
        &bundle.steam_map,
        bundle.list.as_slice(),
        bundle.custom.as_slice(),
    ) {
        return settle(entry, process, facts);
    }
    if shortcut {
        return Verdict::Miss;
    }
    match find_title_entry(
        match_scratch.lowered.as_str(),
        &bundle.name_map,
        &bundle.name_map_nodot,
        len,
        &mut match_scratch.norm_out,
    ) {
        Some(i) => settle(share(&bundle.list[i]), process, facts),
        None => Verdict::Miss,
    }
}

/// Classify one process. A verdict that needs a reading is to be asked for
/// again with that reading; every reading is asked for at most once.
pub fn match_process(
    process: &Exec,
    bundle: &DetectablesBundle,
    context: &Context,
    facts: &Facts,
    obs_open: &mut bool,
    match_scratch: &mut MatchScratch,
) -> (r: Verdict)
    requires
        bundle.wf(),
    ensures
        verdict_is(
            r,
            classify(*bundle, *context, *process, *facts),
            process.pid,
            facts.now_ms,
        ),
        *final(obs_open) == (*old(obs_open) || shows_recording(*context, *process, *facts)),
        final(match_scratch).lowered@ == old(match_scratch).lowered@
            || final(match_scratch).lowered@ == lower(rooted(process.path@)),
        folder_buffer(
            old(match_scratch).norm_out@,
            final(match_scratch).norm_out@,
            lower(rooted(process.path@)),
        ),
{
    let path_text = rooted_path(process.path.as_str());
    let path = path_text.as_str();
    let v = chars_of(path);
    let len: usize = v.len();
    assert(v@.take(v@.len() as int) == path@);
    let from: usize = match last_index(&v, len, '/') {
        Some(i) => i + 1,
        None => 0,
    };
    let base = text_of(&v, from, len);
    assert(base@ == base_name(path@));
    let mut basename = String::new();
    lower_into(base.as_str(), &mut basename);
    if context.exclusions.names.contains(basename.as_str()) || facts.excluded_by_pattern {
        return Verdict::Miss;
    }
    if !*obs_open && (contains(path, "obs64") || contains(path, "streamlabs")) {
        *obs_open = true;
    }
    if let Some((entry, exe_index)) = probe_variants(path, bundle, false) {
        return finish_direct_hit(entry, exe_index, process, facts);
    }
    if let Some(exe) = bare_exe(path) {
        match &facts.cwd {
            Reading::Unread => {
                return Verdict::Needs(Need::Cwd);
            },
            Reading::Read(None) => {},
            Reading::Read(Some(cwd)) => {
                let mut candidate = cwd.clone();
                candidate.push('/');
                candidate.append(exe);
                if let Some((entry, exe_index)) = probe_variants(
                    candidate.as_str(),
                    bundle,
                    false,
                ) {
                    return finish_direct_hit(entry, exe_index, process, facts);
                }
            },
        }
    }
    match &facts.app_id {
        Reading::Unread => Verdict::Needs(Need::AppId),
        Reading::Read(environ) => {
            lower_into(path, &mut match_scratch.lowered);
            let app_id = match environ {
                Some(id) => Some(id.clone()),
                None => find_args_app_id(&process.arguments),
            };
            match_rest(bundle, context, process, path, facts, app_id, match_scratch)
        },
    }
}

/// Whether everything was read.
pub open spec fn fully_read(facts: Facts) -> bool {
    facts.cwd is Read && facts.app_id is Read && facts.suspended is Read
}

/// Whether `later` knows all that `facts` knows.
pub open spec fn extends(later: Facts, facts: Facts) -> bool {
    &&& facts.cwd is Read ==> later.cwd == facts.cwd
    &&& facts.app_id is Read ==> later.app_id == facts.app_id
    &&& facts.suspended is Read ==> later.suspended == facts.suspended
    &&& later.excluded_by_pattern == facts.excluded_by_pattern
}

/// Once everything was read the classification is decided.
pub proof fn law_full_facts_decide(
    bundle: DetectablesBundle,
    context: Context,
    process: Exec,
    facts: Facts,
)
    requires
        fully_read(facts),
    ensures
        !(classify(bundle, context, process, facts) is Needs),
{
}

/// A reading is asked for only where it was not done yet, and a decision
/// that was reached with few readings is never changed by more.
pub proof fn law_readings_refine(
    bundle: DetectablesBundle,
    context: Context,
    process: Exec,
    facts: Facts,
    later: Facts,
)
    requires
        extends(later, facts),
    ensures
        match classify(bundle, context, process, facts) {
            Class::Needs(Need::Cwd) => facts.cwd is Unread,
            Class::Needs(Need::AppId) => facts.app_id is Unread,
            Class::Needs(Need::Suspended) => facts.suspended is Unread,
            decided => classify(bundle, context, process, later) == decided,
        },
{
}

/// A suspended process never counts as a game.
pub proof fn law_suspended_never_hits(
    bundle: DetectablesBundle,
    context: Context,
    process: Exec,
    facts: Facts,
)
    requires
        facts.suspended == Reading::Read(true),
    ensures
        !(classify(bundle, context, process, facts) is Hit),
{
}

/// An excluded process never counts as a game and shows no recording.
pub proof fn law_excluded_is_absent(
    bundle: DetectablesBundle,
    context: Context,
    process: Exec,
    facts: Facts,
)
    requires
        excluded(context, process, facts),
    ensures
        classify(bundle, context, process, facts) == Class::Miss,
        !shows_recording(context, process, facts),
{
}

/// An override decides before any main pattern, whatever variant of the path
/// either matches, and before the main list where both carry a store id.
pub proof fn law_overrides_win(bundle: DetectablesBundle, path: Seq<char>, id: Seq<char>)
    ensures
        probe_all(bundle.overrides, bundle.custom@, variants(path)) is Some ==> native_probe(
            bundle,
            path,
        ) == probe_all(bundle.overrides, bundle.custom@, variants(path)),
        custom_sku(bundle.custom@, id) is Some ==> steam_entry(
            Some(id),
            bundle.steam_map@,
            bundle.list@,
            bundle.custom@,
        ) == custom_sku(bundle.custom@, id),
{
}

proof fn lemma_leftmost_exists(pats: Seq<Seq<char>>, hay: Seq<char>, j: int, t: int)
    requires
        0 <= j < pats.len(),
        pattern_at(pats[j], hay, t),
    ensures
        exists|i: int, s: int| #[trigger] leftmost(pats, hay, i, s) && s <= t,
    decreases t, j,
{
    if !leftmost(pats, hay, j, t) {
        let (k, u) = choose|k: int, u: int|
            0 <= k < pats.len() && (u < t || (u == t && k < j)) && #[trigger] pattern_at(
                pats[k],
                hay,
                u,
            );
        lemma_leftmost_exists(pats, hay, k, u);
    }
}

proof fn lemma_entry_position(entry: Arc<ScannedEntry>, index: int, scope: Scope, n: int, e: int)
    requires
        0 <= e < n <= entry.executables@.len(),
        in_scope(scope, entry.executables@[e].os@),
    ensures
        entry_positions(entry, index, scope, n).contains((index, e)),
    decreases n,
{
    let before = entry_positions(entry, index, scope, n - 1);
    let all = entry_positions(entry, index, scope, n);
    if e == n - 1 {
        assert(all[all.len() - 1] == (index, e));
    } else {
        lemma_entry_position(entry, index, scope, n - 1, e);
        let m = choose|m: int| 0 <= m < before.len() && before[m] == (index, e);
        assert(all[m] == (index, e));
    }
}

proof fn lemma_position(list: Seq<Arc<ScannedEntry>>, scope: Scope, k: int, e: int)
    requires
        0 <= k < list.len(),
        0 <= e < list[k].executables@.len(),
        in_scope(scope, list[k].executables@[e].os@),
    ensures
        positions(list, scope).contains((k, e)),
    decreases list.len(),
{
    let before = positions(list.drop_last(), scope);
    let last = list.last();
    let own = entry_positions(last, list.len() - 1, scope, last.executables@.len() as int);
    let all = positions(list, scope);
    if k == list.len() - 1 {
        lemma_entry_position(last, k, scope, last.executables@.len() as int, e);
        let m = choose|m: int| 0 <= m < own.len() && own[m] == (k, e);
        assert(all[before.len() + m] == (k, e));
    } else {
        assert(list.drop_last()[k] == list[k]);
        lemma_position(list.drop_last(), scope, k, e);
        let m = choose|m: int| 0 <= m < before.len() && before[m] == (k, e);
        assert(all[m] == (k, e));
    }
}

/// Whether `path` ends with `end`, ASCII case aside.
pub open spec fn ends_with(path: Seq<char>, end: Seq<char>) -> bool {
    end.len() <= path.len() && lower(path.skip(path.len() - end.len())) == lower(end)
}

/// A matcher finds every executable in its scope by every path that ends with
/// its rooted name.
proof fn lemma_found(
    matcher: Matcher,
    list: Seq<Arc<ScannedEntry>>,
    scope: Scope,
    path: Seq<char>,
    k: int,
    e: int,
)
    requires
        matcher.covers(list, scope),
        0 <= k < list.len(),
        0 <= e < list[k].executables@.len(),
        in_scope(scope, list[k].executables@[e].os@),
        ends_with(path, rooted(unmarked(list[k].executables@[e].name@))),
    ensures
        probe_all(matcher, list, variants(path)) is Some,
{
    let slots = ints(matcher.slots@);
    let pats = patterns_in(matcher.ac);
    let hay = reversed(path);
    let name = rooted(unmarked(list[k].executables@[e].name@));
    lemma_position(list, scope, k, e);
    let m = choose|m: int| 0 <= m < slots.len() && slots[m] == (k, e);
    assert(pats[m] == reversed(name));
    assert(pattern_at(pats[m], hay, 0)) by {
        let front = hay.subrange(0, name.len() as int);
        let end = path.skip(path.len() - name.len());
        assert(front =~= reversed(end));
        assert forall|i: int| 0 <= i < name.len() implies #[trigger] lower(front)[i] == lower(
            reversed(name),
        )[i] by {
            assert(lower(end)[name.len() - 1 - i] == lower(name)[name.len() - 1 - i]);
        }
        assert(lower(front) =~= lower(reversed(name)));
    }
    lemma_leftmost_exists(pats, hay, m, 0);
    assert(variants(path)[0] == path);
    assert(probe_one(matcher, list, hay) is Some);
}

/// An executable of the main list that applies to the platform is found by
/// every path that ends with its rooted name, whatever the case of either.
pub proof fn law_listed_executable_is_found(
    bundle: DetectablesBundle,
    path: Seq<char>,
    k: int,
    e: int,
)
    requires
        bundle.wf(),
        0 <= k < bundle.list@.len(),
        0 <= e < bundle.list@[k].executables@.len(),
        os_applies(bundle.platform, bundle.list@[k].executables@[e].os@),
        ends_with(path, rooted(unmarked(bundle.list@[k].executables@[e].name@))),
    ensures
        native_probe(bundle, path) is Some,
{
    lemma_found(bundle.main, bundle.list@, Scope::Native(bundle.platform), path, k, e);
}

/// An executable of an override is found by every path that ends with its
/// rooted name, whatever the case of either and whatever platform it is for,
/// and what is found is an override.
pub proof fn law_override_is_found(
    bundle: DetectablesBundle,
    path: Seq<char>,
    k: int,
    e: int,
)
    requires
        bundle.wf(),
        0 <= k < bundle.custom@.len(),
        0 <= e < bundle.custom@[k].executables@.len(),
        ends_with(path, rooted(unmarked(bundle.custom@[k].executables@[e].name@))),
    ensures
        native_probe(bundle, path) is Some,
        native_probe(bundle, path) == probe_all(
            bundle.overrides,
            bundle.custom@,
            variants(path),
        ),
{
    lemma_found(bundle.overrides, bundle.custom@, Scope::Custom, path, k, e);
}

} // verus!
