//! The detectable games: entries, executable patterns, and the bundle of
//! everything that one classification reads.
use crate::names::{dedot, dedotted, matchable, name_matchable, normalize_name, normalized};
use crate::sorted_index::SortedIndex;
use crate::table::{lookup, texts};
use crate::text::{
    chars_of, has_char, lower, reverse_into, reversed, same,
};
use aho_corasick::{AhoCorasick, BuildError};
use std::sync::Arc;
use vstd::prelude::*;

verus! {

/// The multi-pattern automaton of the `aho-corasick` crate.
#[verifier::external_type_specification]
#[verifier::external_body]
pub struct ExAhoCorasick(aho_corasick::AhoCorasick);

/// Why an automaton could not be built.
#[verifier::external_type_specification]
#[verifier::external_body]
pub struct ExBuildError(aho_corasick::BuildError);

/// The patterns that an automaton searches for, in order.
pub uninterp spec fn automaton_patterns(ac: AhoCorasick) -> Seq<Seq<char>>;

/// Whether an automaton folds ASCII case, prefers the leftmost match and then
/// the first pattern, and searches whole texts.
pub uninterp spec fn prefers_leftmost(ac: AhoCorasick) -> bool;

/// Whether the pattern `p` stands in `hay` at `s`, ASCII case aside.
pub open spec fn pattern_at(p: Seq<char>, hay: Seq<char>, s: int) -> bool {
    0 <= s && s + p.len() <= hay.len() && lower(hay.subrange(s, s + p.len())) == lower(p)
}

/// Whether pattern `i` is the leftmost match, the first of those that begin
/// there.
pub open spec fn leftmost(pats: Seq<Seq<char>>, hay: Seq<char>, i: int, s: int) -> bool {
    &&& 0 <= i < pats.len()
    &&& pattern_at(pats[i], hay, s)
    &&& forall|j: int, t: int|
        0 <= j < pats.len() && (t < s || (t == s && j < i)) ==> !#[trigger] pattern_at(
            pats[j],
            hay,
            t,
        )
}

/// Whether an automaton for `patterns` can be built: their number, lengths
/// and states must stay below fixed limits of the crate.
pub uninterp spec fn automaton_builds(patterns: Seq<Seq<char>>) -> bool;

/// `AhoCorasick::builder`, matching ASCII letters of either case and
/// preferring the leftmost match and then the first pattern, `build`: it
/// succeeds as [`automaton_builds`] says, and an automaton that is built
/// searches for exactly the given patterns.
#[verifier::external_body]
fn build_automaton(patterns: &Vec<String>) -> (r: Result<AhoCorasick, BuildError>)
    ensures
        r is Ok == automaton_builds(texts(patterns@)),
        r matches Ok(ac) ==> automaton_patterns(ac) == texts(patterns@) && prefers_leftmost(ac),
{
    AhoCorasick::builder()
        .ascii_case_insensitive(true)
        .match_kind(aho_corasick::MatchKind::LeftmostFirst)
        .build(patterns)
}

/// `AhoCorasick::find`: the pattern of the leftmost match, the first pattern
/// of those that begin there; nothing when no pattern occurs.
#[verifier::external_body]
fn find_pattern(ac: &AhoCorasick, hay: &str) -> (r: Option<usize>)
    requires
        prefers_leftmost(*ac),
    ensures
        match r {
            Some(i) => exists|s: int| #[trigger]
                leftmost(automaton_patterns(*ac), hay@, i as int, s),
            None => forall|j: int, t: int|
                0 <= j < automaton_patterns(*ac).len() ==> !#[trigger] pattern_at(
                    automaton_patterns(*ac)[j],
                    hay@,
                    t,
                ),
        },
{
    ac.find(hay).map(|m| m.pattern().as_usize())
}

/// The pattern of `pats` that a search of `hay` reports.
pub open spec fn pattern_hit(pats: Seq<Seq<char>>, hay: Seq<char>) -> Option<int> {
    if exists|i: int, s: int| #[trigger] leftmost(pats, hay, i, s) {
        let (i, s) = choose|i: int, s: int| #[trigger] leftmost(pats, hay, i, s);
        Some(i)
    } else {
        None
    }
}

/// A search has one answer.
pub proof fn lemma_leftmost_unique(
    pats: Seq<Seq<char>>,
    hay: Seq<char>,
    i: int,
    s: int,
    j: int,
    t: int,
)
    requires
        leftmost(pats, hay, i, s),
        leftmost(pats, hay, j, t),
    ensures
        i == j,
        s == t,
{
    if s < t {
        assert(!pattern_at(pats[i], hay, s));
    } else if t < s {
        assert(!pattern_at(pats[j], hay, t));
    } else if i < j {
        assert(!pattern_at(pats[i], hay, s));
    } else if j < i {
        assert(!pattern_at(pats[j], hay, t));
    }
}

/// Patterns of an automaton that may be missing.
pub open spec fn patterns_in(ac: Option<AhoCorasick>) -> Seq<Seq<char>> {
    match ac {
        Some(ac) => automaton_patterns(ac),
        None => Seq::empty(),
    }
}

/// Search `hay` for the patterns of an automaton; a missing one has none.
pub fn search(ac: &Option<AhoCorasick>, hay: &str) -> (r: Option<usize>)
    requires
        *ac matches Some(ac) ==> prefers_leftmost(ac),
    ensures
        match r {
            Some(i) => pattern_hit(patterns_in(*ac), hay@) == Some(i as int) && i < patterns_in(
                *ac,
            ).len(),
            None => pattern_hit(patterns_in(*ac), hay@) is None,
        },
{
    let ghost pats = patterns_in(*ac);
    match ac {
        Some(ac) => {
            let r = find_pattern(ac, hay);
            proof {
                match r {
                    Some(i) => {
                        let s = choose|s: int| #[trigger] leftmost(pats, hay@, i as int, s);
                        let (j, t) = choose|j: int, t: int| #[trigger] leftmost(pats, hay@, j, t);
                        lemma_leftmost_unique(pats, hay@, i as int, s, j, t);
                    },
                    None => {
                        assert forall|i: int, s: int| !#[trigger] leftmost(pats, hay@, i, s) by {
                            if leftmost(pats, hay@, i, s) {
                                assert(pattern_at(pats[i], hay@, s));
                            }
                        }
                    },
                }
            }
            r
        },
        None => None,
    }
}

/// The platform that processes run on.
#[derive(Clone, Copy, PartialEq, Eq, Structural, Debug)]
pub enum Platform {
    Linux,
    Windows,
    MacOs,
    Other,
}

/// Whether the `os` tag of an executable applies; unknown platforms match
/// all.
pub open spec fn os_applies(platform: Platform, os: Seq<char>) -> bool {
    match platform {
        Platform::Windows => os == "win32"@,
        Platform::MacOs => os == "darwin"@,
        Platform::Linux => os == "linux"@,
        Platform::Other => true,
    }
}

/// Whether the `os` tag of an executable applies.
pub fn os_matches(platform: Platform, os: &str) -> (r: bool)
    ensures
        r == os_applies(platform, os@),
{
    match platform {
        Platform::Windows => same(os, "win32"),
        Platform::MacOs => same(os, "darwin"),
        Platform::Linux => same(os, "linux"),
        Platform::Other => true,
    }
}

/// An executable of a game.
pub struct Executable {
    pub name: String,
    pub is_launcher: bool,
    pub os: String,
    /// Arguments that the command line must contain.
    pub arguments: Option<String>,
}

/// A store that sells a game, and the id of the game there.
pub struct ThirdPartySku {
    pub distributor: String,
    pub id: Option<String>,
}

/// A game of the database.
pub struct DetectableActivity {
    pub id: String,
    pub name: String,
    pub hook: bool,
    pub executables: Vec<Executable>,
    pub third_party_skus: Vec<ThirdPartySku>,
    pub aliases: Vec<String>,
}

/// What the scanner keeps of a game.
pub struct ScannedEntry {
    pub id: String,
    pub name: String,
    pub executables: Vec<Executable>,
    pub steam_ids: Vec<String>,
    pub aliases: Vec<String>,
}

/// Store ids of `skus` on Steam, in order.
pub open spec fn steam_ids_of(skus: Seq<ThirdPartySku>) -> Seq<Seq<char>>
    decreases skus.len(),
{
    if skus.len() == 0 {
        Seq::empty()
    } else {
        let before = steam_ids_of(skus.drop_last());
        match skus.last().id {
            Some(id) => if skus.last().distributor@ == "steam"@ {
                before.push(id@)
            } else {
                before
            },
            None => before,
        }
    }
}

impl ScannedEntry {
    /// Whether this is the slim form of `game`.
    pub open spec fn slims(self, game: DetectableActivity) -> bool {
        &&& self.id@ == game.id@
        &&& self.name@ == game.name@
        &&& self.executables@ == game.executables@
        &&& texts(self.steam_ids@) == steam_ids_of(game.third_party_skus@)
        &&& texts(self.aliases@) == texts(game.aliases@)
    }

    /// The slim form of a game.
    pub fn from_owned(game: DetectableActivity) -> (r: Self)
        ensures
            r.slims(game),
    {
        let mut steam_ids: Vec<String> = Vec::new();
        let ghost skus = game.third_party_skus@;
        let mut i: usize = 0;
        assert(skus.take(0) == Seq::<ThirdPartySku>::empty());
        assert(texts(steam_ids@) == Seq::<Seq<char>>::empty());
        while i < game.third_party_skus.len()
            invariant
                i <= game.third_party_skus@.len(),
                skus == game.third_party_skus@,
                texts(steam_ids@) == steam_ids_of(skus.take(i as int)),
            decreases game.third_party_skus@.len() - i,
        {
            assert(skus.take(i + 1).drop_last() == skus.take(i as int));
            assert(skus.take(i + 1).last() == skus[i as int]);
            let sku = &game.third_party_skus[i];
            if let Some(id) = &sku.id {
                if same(sku.distributor.as_str(), "steam") {
                    let ghost before = texts(steam_ids@);
                    steam_ids.push(id.clone());
                    assert(texts(steam_ids@) == before.push(id@));
                }
            }
            i = i + 1;
        }
        assert(skus.take(skus.len() as int) == skus);
        ScannedEntry {
            id: game.id,
            name: game.name,
            executables: game.executables,
            steam_ids,
            aliases: game.aliases,
        }
    }
}

/// The slim forms of games, each shared.
pub open spec fn slim_list(entries: Seq<Arc<ScannedEntry>>, games: Seq<DetectableActivity>) -> bool {
    &&& entries.len() == games.len()
    &&& forall|i: int| 0 <= i < games.len() ==> (#[trigger] entries[i]).slims(games[i])
}

/// The slim forms of games, each shared, in order.
pub fn slim_entries(games: Vec<DetectableActivity>) -> (r: Vec<Arc<ScannedEntry>>)
    ensures
        slim_list(r@, games@),
{
    let mut out: Vec<Arc<ScannedEntry>> = Vec::new();
    for game in it: games
        invariant
            it.seq() == games@,
            out@.len() == it.index(),
            forall|k: int| 0 <= k < out@.len() ==> (#[trigger] out@[k]).slims(games@[k]),
    {
        out.push(Arc::new(ScannedEntry::from_owned(game)));
    }
    out
}

/// `s` with forward slashes only.
pub open spec fn forward_slashes(s: Seq<char>) -> Seq<char> {
    s.map_values(|c: char| if c == '\\' { '/' } else { c })
}

/// `s` with forward slashes only, one of them in front.
pub open spec fn rooted(s: Seq<char>) -> Seq<char> {
    let t = forward_slashes(s);
    if t.len() > 0 && t[0] == '/' {
        t
    } else {
        seq!['/'] + t
    }
}

/// Bring a path to forward slashes, one of them in front.
pub fn rooted_path(s: &str) -> (r: String)
    ensures
        r@ == rooted(s@),
{
    let v = chars_of(s);
    let mut out = String::new();
    let slashed = v.len() > 0 && (v[0] == '/' || v[0] == '\\');
    if !slashed {
        out.push('/');
    }
    let ghost head = out@;
    let mut i: usize = 0;
    while i < v.len()
        invariant
            i <= v@.len(),
            v@ == s@,
            out@ == head + forward_slashes(s@.take(i as int)),
        decreases v@.len() - i,
    {
        out.push(if v[i] == '\\' { '/' } else { v[i] });
        assert(s@.take(i + 1) == s@.take(i as int).push(v@[i as int]));
        i = i + 1;
        assert(out@ == head + forward_slashes(s@.take(i as int)));
    }
    assert(s@.take(s@.len() as int) == s@);
    assert(out@ =~= rooted(s@));
    out
}

/// `name` without the mark of exact names.
pub open spec fn unmarked(name: Seq<char>) -> Seq<char> {
    if name.len() > 0 && name[0] == '>' {
        name.drop_first()
    } else {
        name
    }
}

/// Search pattern of an executable: its rooted name, backwards, as paths are
/// searched backwards. A name is found wherever a path component begins with
/// it; the match closest to the end of the path counts.
pub open spec fn exe_pattern(name: Seq<char>) -> Seq<char> {
    reversed(rooted(unmarked(name)))
}

/// Search pattern of an executable.
fn pattern_text(name: &str) -> (r: String)
    ensures
        r@ == exe_pattern(name@),
{
    let v = chars_of(name);
    let bare = if v.len() > 0 && v[0] == '>' {
        crate::text::text_of(&v, 1, v.len())
    } else {
        name.to_owned()
    };
    assert(bare@ == unmarked(name@));
    let path = rooted_path(bare.as_str());
    let mut out = String::new();
    reverse_into(path.as_str(), &mut out);
    out
}

/// Which executables an automaton searches for.
#[derive(Clone, Copy, PartialEq, Eq, Structural, Debug)]
pub enum Scope {
    /// Those of the platform.
    Native(Platform),
    /// All: overrides bypass the platform filter.
    Custom,
    /// Windows executables, on Linux.
    Proton(Platform),
}

/// Whether an executable with this `os` tag is in scope.
pub open spec fn in_scope(scope: Scope, os: Seq<char>) -> bool {
    match scope {
        Scope::Native(platform) => os_applies(platform, os),
        Scope::Custom => true,
        Scope::Proton(platform) => platform == Platform::Linux && os == "win32"@,
    }
}

/// Whether an executable with this `os` tag is in scope.
fn scope_holds(scope: Scope, os: &str) -> (r: bool)
    ensures
        r == in_scope(scope, os@),
{
    match scope {
        Scope::Native(platform) => os_matches(platform, os),
        Scope::Custom => true,
        Scope::Proton(platform) => platform == Platform::Linux && same(os, "win32"),
    }
}

/// Positions `(entry, executable)` of the first `n` executables of an entry
/// that are in scope.
pub open spec fn entry_positions(
    entry: Arc<ScannedEntry>,
    index: int,
    scope: Scope,
    n: int,
) -> Seq<(int, int)>
    decreases n,
{
    if n <= 0 {
        Seq::empty()
    } else {
        let before = entry_positions(entry, index, scope, n - 1);
        if in_scope(scope, entry.executables@[n - 1].os@) {
            before.push((index, n - 1))
        } else {
            before
        }
    }
}

/// Positions of all executables of `list` that are in scope.
pub open spec fn positions(list: Seq<Arc<ScannedEntry>>, scope: Scope) -> Seq<(int, int)>
    decreases list.len(),
{
    if list.len() == 0 {
        Seq::empty()
    } else {
        positions(list.drop_last(), scope) + entry_positions(
            list.last(),
            list.len() - 1,
            scope,
            list.last().executables@.len() as int,
        )
    }
}

/// Patterns of the executables at `slots` of `list`.
pub open spec fn patterns_at(list: Seq<Arc<ScannedEntry>>, slots: Seq<(int, int)>) -> Seq<
    Seq<char>,
> {
    slots.map_values(|p: (int, int)| exe_pattern(list[p.0].executables@[p.1].name@))
}

/// Positions by their values.
pub open spec fn ints(v: Seq<(usize, usize)>) -> Seq<(int, int)> {
    v.map_values(|p: (usize, usize)| (p.0 as int, p.1 as int))
}

/// Every position names an executable of `list`.
pub open spec fn positions_valid(list: Seq<Arc<ScannedEntry>>, slots: Seq<(int, int)>) -> bool {
    forall|k: int|
        0 <= k < slots.len() ==> 0 <= (#[trigger] slots[k]).0 < list.len() && 0 <= slots[k].1
            < list[slots[k].0].executables@.len()
}

/// Patterns and positions of the executables of `list` that are in scope.
fn collect_patterns(list: &Vec<Arc<ScannedEntry>>, scope: Scope) -> (r: (
    Vec<String>,
    Vec<(usize, usize)>,
))
    ensures
        ints(r.1@) == positions(list@, scope),
        positions_valid(list@, ints(r.1@)),
        texts(r.0@) == patterns_at(list@, ints(r.1@)),
{
    let mut patterns: Vec<String> = Vec::new();
    let mut slots: Vec<(usize, usize)> = Vec::new();
    let ghost all = list@;
    assert(all.take(0) == Seq::<Arc<ScannedEntry>>::empty());
    assert(ints(slots@) == Seq::<(int, int)>::empty());
    assert(texts(patterns@) == patterns_at(all, ints(slots@)));
    let mut i: usize = 0;
    while i < list.len()
        invariant
            i <= list@.len(),
            all == list@,
            ints(slots@) == positions(all.take(i as int), scope),
            positions_valid(all, ints(slots@)),
            texts(patterns@) == patterns_at(all, ints(slots@)),
        decreases list@.len() - i,
    {
        let ghost base = positions(all.take(i as int), scope);
        let ghost entry = all[i as int];
        let mut j: usize = 0;
        assert(base + entry_positions(entry, i as int, scope, 0) == base);
        while j < list[i].executables.len()
            invariant
                i < list@.len(),
                all == list@,
                entry == all[i as int],
                j <= entry.executables@.len(),
                ints(slots@) == base + entry_positions(entry, i as int, scope, j as int),
                positions_valid(all, ints(slots@)),
                texts(patterns@) == patterns_at(all, ints(slots@)),
            decreases entry.executables@.len() - j,
        {
            let exe = &list[i].executables[j];
            if scope_holds(scope, exe.os.as_str()) {
                let ghost before = ints(slots@);
                let ghost shown = texts(patterns@);
                let pattern = pattern_text(exe.name.as_str());
                let ghost text = pattern@;
                patterns.push(pattern);
                slots.push((i, j));
                assert(ints(slots@) == before.push((i as int, j as int)));
                assert(texts(patterns@) == shown.push(text));
                assert(patterns_at(all, ints(slots@)) == patterns_at(all, before).push(text));
                assert(base + entry_positions(entry, i as int, scope, j as int).push(
                    (i as int, j as int),
                ) == (base + entry_positions(entry, i as int, scope, j as int)).push(
                    (i as int, j as int),
                ));
            }
            j = j + 1;
        }
        assert(all.take(i + 1).drop_last() == all.take(i as int));
        assert(all.take(i + 1).last() == all[i as int]);
        i = i + 1;
    }
    assert(all.take(all.len() as int) == all);
    (patterns, slots)
}

/// The executables of each entry of `list`.
pub open spec fn bodies(list: Seq<Arc<ScannedEntry>>) -> Seq<Seq<Executable>> {
    list.map_values(|entry: Arc<ScannedEntry>| entry.executables@)
}

/// The executables of each game.
pub open spec fn game_bodies(games: Seq<DetectableActivity>) -> Seq<Seq<Executable>> {
    games.map_values(|game: DetectableActivity| game.executables@)
}

/// Slim forms keep the executables.
pub proof fn lemma_bodies(entries: Seq<Arc<ScannedEntry>>, games: Seq<DetectableActivity>)
    requires
        slim_list(entries, games),
    ensures
        bodies(entries) == game_bodies(games),
{
    assert forall|i: int| 0 <= i < games.len() implies bodies(entries)[i] == game_bodies(
        games,
    )[i] by {
        assert(entries[i].slims(games[i]));
    }
    assert(bodies(entries) =~= game_bodies(games));
}

/// Patterns of the first `n` executables of `body` that are in scope.
pub open spec fn body_patterns(body: Seq<Executable>, scope: Scope, n: int) -> Seq<Seq<char>>
    decreases n,
{
    if n <= 0 {
        Seq::empty()
    } else {
        let before = body_patterns(body, scope, n - 1);
        if in_scope(scope, body[n - 1].os@) {
            before.push(exe_pattern(body[n - 1].name@))
        } else {
            before
        }
    }
}

/// Patterns of all executables that are in scope, in order.
pub open spec fn scope_patterns(all: Seq<Seq<Executable>>, scope: Scope) -> Seq<Seq<char>>
    decreases all.len(),
{
    if all.len() == 0 {
        Seq::empty()
    } else {
        scope_patterns(all.drop_last(), scope) + body_patterns(
            all.last(),
            scope,
            all.last().len() as int,
        )
    }
}

/// Whether the matcher of these executables can be built: there is nothing to
/// search for, or an automaton for it can be built.
pub open spec fn matcher_builds(all: Seq<Seq<Executable>>, scope: Scope) -> bool {
    scope_patterns(all, scope).len() == 0 || automaton_builds(scope_patterns(all, scope))
}

/// Whether a generation with these executables in its main list and its
/// overrides can be built.
pub open spec fn generation_builds(
    list: Seq<Seq<Executable>>,
    custom: Seq<Seq<Executable>>,
    platform: Platform,
) -> bool {
    &&& matcher_builds(list, Scope::Native(platform))
    &&& matcher_builds(custom, Scope::Custom)
    &&& matcher_builds(list, Scope::Proton(platform))
}

proof fn lemma_body_patterns(list: Seq<Arc<ScannedEntry>>, i: int, scope: Scope, n: int)
    requires
        0 <= i < list.len(),
        n <= list[i].executables@.len(),
    ensures
        patterns_at(list, entry_positions(list[i], i, scope, n)) == body_patterns(
            list[i].executables@,
            scope,
            n,
        ),
    decreases n,
{
    let slots = entry_positions(list[i], i, scope, n);
    let patterns = body_patterns(list[i].executables@, scope, n);
    if n > 0 {
        lemma_body_patterns(list, i, scope, n - 1);
    }
    assert(patterns_at(list, slots) =~= patterns);
}

proof fn lemma_patterns_taken(list: Seq<Arc<ScannedEntry>>, scope: Scope, n: int)
    requires
        0 <= n <= list.len(),
    ensures
        patterns_at(list, positions(list.take(n), scope)) == scope_patterns(
            bodies(list.take(n)),
            scope,
        ),
    decreases n,
{
    let front = list.take(n);
    if n > 0 {
        lemma_patterns_taken(list, scope, n - 1);
        assert(front.drop_last() =~= list.take(n - 1));
        assert(bodies(front).drop_last() =~= bodies(list.take(n - 1)));
        let last = list[n - 1];
        assert(front.last() == last);
        assert(bodies(front).last() == last.executables@);
        lemma_body_patterns(list, n - 1, scope, last.executables@.len() as int);
        let own = entry_positions(last, n - 1, scope, last.executables@.len() as int);
        let before = positions(list.take(n - 1), scope);
        assert(patterns_at(list, before + own) =~= patterns_at(list, before) + patterns_at(
            list,
            own,
        ));
    } else {
        assert(patterns_at(list, positions(front, scope)) =~= Seq::<Seq<char>>::empty());
    }
}

proof fn lemma_scope_patterns(list: Seq<Arc<ScannedEntry>>, scope: Scope)
    ensures
        patterns_at(list, positions(list, scope)) == scope_patterns(bodies(list), scope),
{
    lemma_patterns_taken(list, scope, list.len() as int);
    assert(list.take(list.len() as int) =~= list);
}

/// Why a bundle could not be built.
pub enum BundleError {
    /// An automaton could not be built.
    Automaton,
}

/// An automaton and what its patterns stand for.
pub struct Matcher {
    pub ac: Option<AhoCorasick>,
    pub slots: Vec<(usize, usize)>,
}

impl Matcher {
    /// The matcher searches for exactly the executables of `list` in scope.
    pub open spec fn covers(self, list: Seq<Arc<ScannedEntry>>, scope: Scope) -> bool {
        &&& ints(self.slots@) == positions(list, scope)
        &&& positions_valid(list, ints(self.slots@))
        &&& patterns_in(self.ac) == patterns_at(list, ints(self.slots@))
        &&& self.ac matches Some(ac) ==> prefers_leftmost(ac)
    }

    /// Build the matcher of `list`. Without patterns there is no automaton
    /// and nothing can fail.
    fn build(list: &Vec<Arc<ScannedEntry>>, scope: Scope) -> (r: Result<Self, BundleError>)
        ensures
            r matches Ok(matcher) ==> matcher.covers(list@, scope),
            r is Ok <==> matcher_builds(bodies(list@), scope),
    {
        let (patterns, slots) = collect_patterns(list, scope);
        assert(texts(patterns@).len() == ints(slots@).len());
        proof {
            lemma_scope_patterns(list@, scope);
        }
        if patterns.len() == 0 {
            assert(texts(patterns@) == Seq::<Seq<char>>::empty());
            return Ok(Matcher { ac: None, slots });
        }
        match build_automaton(&patterns) {
            Ok(ac) => Ok(Matcher { ac: Some(ac), slots }),
            Err(_) => Err(BundleError::Automaton),
        }
    }
}

/// Lowest entry of `list` with the store id `id`.
pub open spec fn steam_position(list: Seq<Arc<ScannedEntry>>, id: Seq<char>) -> Option<usize>
    decreases list.len(),
{
    if list.len() == 0 {
        None
    } else {
        match steam_position(list.drop_last(), id) {
            Some(i) => Some(i),
            None => if texts(list.last().steam_ids@).contains(id) {
                Some((list.len() - 1) as usize)
            } else {
                None
            },
        }
    }
}

/// The lookup key of a title. With `dots`, full stops act as spaces and only
/// titles that hold one count. Titles of a single word have no key.
pub open spec fn title_key(title: Seq<char>, dots: bool) -> Option<Seq<char>> {
    let key = if dots {
        normalized(dedotted(title))
    } else {
        normalized(title)
    };
    if (dots && !title.contains('.')) || !matchable(key) {
        None
    } else {
        Some(key)
    }
}

/// The titles of an entry: its name and its aliases.
pub open spec fn titles(entry: Arc<ScannedEntry>) -> Seq<Seq<char>> {
    seq![entry.name@] + texts(entry.aliases@)
}

/// Whether some of `titles` has the key `key`.
pub open spec fn keyed_by(titles: Seq<Seq<char>>, key: Seq<char>, dots: bool) -> bool
    decreases titles.len(),
{
    titles.len() > 0 && (keyed_by(titles.drop_last(), key, dots) || title_key(titles.last(), dots)
        == Some(key))
}

/// Lowest entry of `list` without executables that has a title with the key
/// `key`.
pub open spec fn name_position(list: Seq<Arc<ScannedEntry>>, key: Seq<char>, dots: bool) -> Option<
    usize,
>
    decreases list.len(),
{
    if list.len() == 0 {
        None
    } else {
        match name_position(list.drop_last(), key, dots) {
            Some(i) => Some(i),
            None => if list.last().executables@.len() == 0 && keyed_by(
                titles(list.last()),
                key,
                dots,
            ) {
                Some((list.len() - 1) as usize)
            } else {
                None
            },
        }
    }
}

/// The lookup key of a title.
fn title_key_text(title: &str, dots: bool) -> (r: Option<String>)
    ensures
        crate::json::opt_text(r) == title_key(title@, dots),
{
    if dots && !has_char(title, '.') {
        return None;
    }
    let key = if dots {
        let spaced = dedot(title);
        normalize_name(spaced.as_str())
    } else {
        normalize_name(title)
    };
    if name_matchable(key.as_str()) {
        Some(key)
    } else {
        None
    }
}

/// Index of the store ids of `list`.
fn index_steam(list: &Vec<Arc<ScannedEntry>>) -> (r: SortedIndex)
    ensures
        forall|id: Seq<char>| #[trigger] lookup(r@, id) == steam_position(list@, id),
{
    let mut index = SortedIndex::new();
    let ghost all = list@;
    assert(all.take(0) == Seq::<Arc<ScannedEntry>>::empty());
    let mut i: usize = 0;
    while i < list.len()
        invariant
            i <= list@.len(),
            all == list@,
            forall|id: Seq<char>| #[trigger]
                lookup(index@, id) == steam_position(all.take(i as int), id),
        decreases list@.len() - i,
    {
        let ghost ids = texts(all[i as int].steam_ids@);
        let ghost base = all.take(i as int);
        let mut j: usize = 0;
        assert(ids.take(0) == Seq::<Seq<char>>::empty());
        while j < list[i].steam_ids.len()
            invariant
                i < list@.len(),
                all == list@,
                base == all.take(i as int),
                ids == texts(all[i as int].steam_ids@),
                j <= ids.len(),
                ids.len() == all[i as int].steam_ids@.len(),
                forall|id: Seq<char>| #[trigger]
                    lookup(index@, id) == match steam_position(base, id) {
                        Some(k) => Some(k),
                        None => if ids.take(j as int).contains(id) {
                            Some(i)
                        } else {
                            None
                        },
                    },
            decreases ids.len() - j,
        {
            let ghost before = index@;
            let id = list[i].steam_ids[j].clone();
            assert(id@ == ids[j as int]);
            index.add_first(id, i);
            assert forall|o: Seq<char>| #[trigger]
                lookup(index@, o) == match steam_position(base, o) {
                    Some(k) => Some(k),
                    None => if ids.take(j + 1).contains(o) {
                        Some(i)
                    } else {
                        None
                    },
                } by {
                lemma_take_contains(ids, j as int, o);
                if o == ids[j as int] {
                    assert(lookup(before, o) == match steam_position(base, o) {
                        Some(k) => Some(k),
                        None => if ids.take(j as int).contains(o) {
                            Some(i)
                        } else {
                            None
                        },
                    });
                }
            }
            j = j + 1;
        }
        assert(ids.take(ids.len() as int) == ids);
        assert(all.take(i + 1).drop_last() == base);
        assert(all.take(i + 1).last() == all[i as int]);
        i = i + 1;
    }
    assert(all.take(all.len() as int) == all);
    index
}

proof fn lemma_take_contains(s: Seq<Seq<char>>, j: int, o: Seq<char>)
    requires
        0 <= j < s.len(),
    ensures
        s.take(j + 1).contains(o) <==> s.take(j).contains(o) || o == s[j],
{
    let t = s.take(j);
    let u = s.take(j + 1);
    if t.contains(o) {
        let k = choose|k: int| 0 <= k < t.len() && t[k] == o;
        assert(u[k] == o);
    }
    if u.contains(o) {
        let k = choose|k: int| 0 <= k < u.len() && u[k] == o;
        if k < j {
            assert(t[k] == o);
        }
    }
    assert(u[j] == s[j]);
}

/// Add the key of one title of entry `i`.
fn add_title(index: &mut SortedIndex, title: &str, dots: bool, i: usize)
    ensures
        forall|o: Seq<char>| #[trigger]
            lookup(final(index)@, o) == match lookup(old(index)@, o) {
                Some(k) => Some(k),
                None => if title_key(title@, dots) == Some(o) {
                    Some(i)
                } else {
                    None
                },
            },
{
    let ghost before = index@;
    if let Some(key) = title_key_text(title, dots) {
        index.add_first(key, i);
    }
}

/// Index of the titles of `list`.
fn index_names(list: &Vec<Arc<ScannedEntry>>, dots: bool) -> (r: SortedIndex)
    ensures
        forall|key: Seq<char>| #[trigger] lookup(r@, key) == name_position(list@, key, dots),
{
    let mut index = SortedIndex::new();
    let ghost all = list@;
    assert(all.take(0) == Seq::<Arc<ScannedEntry>>::empty());
    let mut i: usize = 0;
    while i < list.len()
        invariant
            i <= list@.len(),
            all == list@,
            forall|key: Seq<char>| #[trigger]
                lookup(index@, key) == name_position(all.take(i as int), key, dots),
        decreases list@.len() - i,
    {
        let ghost base = all.take(i as int);
        let ghost ts = titles(all[i as int]);
        assert(all.take(i + 1).drop_last() == base);
        assert(all.take(i + 1).last() == all[i as int]);
        if list[i].executables.len() == 0 {
            let ghost zero = index@;
            assert(ts.take(1).drop_last() == Seq::<Seq<char>>::empty());
            assert(ts.take(1).last() == all[i as int].name@);
            add_title(&mut index, list[i].name.as_str(), dots, i);
            assert forall|key: Seq<char>| #[trigger]
                lookup(index@, key) == match name_position(base, key, dots) {
                    Some(k) => Some(k),
                    None => if keyed_by(ts.take(1), key, dots) {
                        Some(i)
                    } else {
                        None
                    },
                } by {
                assert(lookup(zero, key) == name_position(base, key, dots));
                assert(!keyed_by(ts.take(1).drop_last(), key, dots));
            }
            let mut j: usize = 0;
            while j < list[i].aliases.len()
                invariant
                    i < list@.len(),
                    all == list@,
                    base == all.take(i as int),
                    ts == titles(all[i as int]),
                    j <= all[i as int].aliases@.len(),
                    forall|key: Seq<char>| #[trigger]
                        lookup(index@, key) == match name_position(base, key, dots) {
                            Some(k) => Some(k),
                            None => if keyed_by(ts.take(j + 1), key, dots) {
                                Some(i)
                            } else {
                                None
                            },
                        },
                decreases all[i as int].aliases@.len() - j,
            {
                let ghost before = index@;
                assert(ts.take(j + 2).drop_last() == ts.take(j + 1));
                assert(ts.take(j + 2).last() == all[i as int].aliases@[j as int]@);
                add_title(&mut index, list[i].aliases[j].as_str(), dots, i);
                assert forall|key: Seq<char>| #[trigger]
                    lookup(index@, key) == match name_position(base, key, dots) {
                        Some(k) => Some(k),
                        None => if keyed_by(ts.take(j + 2), key, dots) {
                            Some(i)
                        } else {
                            None
                        },
                    } by {
                    assert(lookup(before, key) == match name_position(base, key, dots) {
                        Some(k) => Some(k),
                        None => if keyed_by(ts.take(j + 1), key, dots) {
                            Some(i)
                        } else {
                            None
                        },
                    });
                }
                j = j + 1;
            }
            assert(ts.take(ts.len() as int) == ts);
        }
        i = i + 1;
    }
    assert(all.take(all.len() as int) == all);
    index
}

/// One generation of the database: everything that a classification reads,
/// built together and replaced together.
pub struct DetectablesBundle {
    pub platform: Platform,
    pub list: Vec<Arc<ScannedEntry>>,
    pub custom: Vec<Arc<ScannedEntry>>,
    pub main: Matcher,
    pub overrides: Matcher,
    pub proton: Matcher,
    pub steam_map: SortedIndex,
    pub name_map: SortedIndex,
    pub name_map_nodot: SortedIndex,
}

impl DetectablesBundle {
    /// Every part is derived from the same lists.
    pub open spec fn wf(self) -> bool {
        &&& self.main.covers(self.list@, Scope::Native(self.platform))
        &&& self.overrides.covers(self.custom@, Scope::Custom)
        &&& self.proton.covers(self.list@, Scope::Proton(self.platform))
        &&& forall|id: Seq<char>| #[trigger]
            lookup(self.steam_map@, id) == steam_position(self.list@, id)
        &&& forall|key: Seq<char>| #[trigger]
            lookup(self.name_map@, key) == name_position(self.list@, key, false)
        &&& forall|key: Seq<char>| #[trigger]
            lookup(self.name_map_nodot@, key) == name_position(self.list@, key, true)
    }
}

impl DetectablesBundle {
    /// The generation without games.
    pub fn empty(platform: Platform) -> (r: Self)
        ensures
            r.wf(),
            r.list@.len() == 0,
            r.custom@.len() == 0,
            r.platform == platform,
    {
        let r = DetectablesBundle {
            platform,
            list: Vec::new(),
            custom: Vec::new(),
            main: Matcher { ac: None, slots: Vec::new() },
            overrides: Matcher { ac: None, slots: Vec::new() },
            proton: Matcher { ac: None, slots: Vec::new() },
            steam_map: SortedIndex::new(),
            name_map: SortedIndex::new(),
            name_map_nodot: SortedIndex::new(),
        };
        assert(ints(r.main.slots@) =~= Seq::<(int, int)>::empty());
        assert(patterns_at(r.list@, ints(r.main.slots@)) =~= Seq::<Seq<char>>::empty());
        assert(patterns_at(r.custom@, ints(r.overrides.slots@)) =~= Seq::<Seq<char>>::empty());
        r
    }
}

/// Build a generation out of the main list and the overrides. Fails only
/// where an automaton cannot be built.
pub fn build_bundle(
    list: Vec<Arc<ScannedEntry>>,
    custom: Vec<Arc<ScannedEntry>>,
    platform: Platform,
) -> (r: Result<DetectablesBundle, BundleError>)
    ensures
        r matches Ok(bundle) ==> bundle.wf() && bundle.list == list && bundle.custom == custom
            && bundle.platform == platform,
        r is Ok <==> generation_builds(bodies(list@), bodies(custom@), platform),
{
    let main = match Matcher::build(&list, Scope::Native(platform)) {
        Ok(matcher) => matcher,
        Err(e) => {
            return Err(e);
        },
    };
    let overrides = match Matcher::build(&custom, Scope::Custom) {
        Ok(matcher) => matcher,
        Err(e) => {
            return Err(e);
        },
    };
    let proton = match Matcher::build(&list, Scope::Proton(platform)) {
        Ok(matcher) => matcher,
        Err(e) => {
            return Err(e);
        },
    };
    let steam_map = index_steam(&list);
    let name_map = index_names(&list, false);
    let name_map_nodot = index_names(&list, true);
    Ok(
        DetectablesBundle {
            platform,
            list,
            custom,
            main,
            overrides,
            proton,
            steam_map,
            name_map,
            name_map_nodot,
        },
    )
}

} // verus!
