//! Laws of detection: what a hit must satisfy, and which finding decides.
use crate::detectables::{
    entry_positions, forward_slashes, in_scope, ints, keyed_by, leftmost, name_position, os_applies,
    pattern_at, patterns_in, positions, rooted, steam_ids_of, steam_position, title_key, titles,
    unmarked, DetectableActivity, DetectablesBundle, Matcher, ScannedEntry, Scope, ThirdPartySku,
};
use crate::matching::{
    args_app_id, bare, classify, custom_sku, dirs_view, excluded, finished, folder_entry,
    launcher_id, library_id, lemma_args_app_id, lies_in, native_probe, nearest_folder, probe_all,
    probe_one, shows_recording, sighting, steam_entry, stripped, title_entry, variants,
    windows_probe, Class, Context, Facts, Need, Reading,
};
use crate::names::{
    app_id_starts, app_id_token, base_name, dedotted, digits_end, first_visible,
    law_dots_break_like_spaces, matchable, names_app_id, normalized, shortcut_id, stat_state, stem,
    suspended_state,
};
use crate::procfs::Exec;
use crate::table::{lookup, texts};
use crate::text::{
    alphanumeric, at, decimal, digit, holds, law_decimal_round_trip, lemma_rfind, lower, reversed,
    rfind, split, white,
};
use crate::text_laws::{law_parsed_decimal, without_char};
use std::sync::Arc;
use vstd::prelude::*;

verus! {

/// Whether `w` occurs in `s` in one piece.
pub open spec fn occurs(s: Seq<char>, w: Seq<char>) -> bool {
    exists|i: int|
        0 <= i && i + w.len() <= s.len() && #[trigger] s.subrange(i, i + w.len()) == w
}

proof fn lemma_occurs(s: Seq<char>, w: Seq<char>)
    ensures
        occurs(s, w) <==> holds(s, w),
{
    if occurs(s, w) {
        let i = choose|i: int|
            0 <= i && i + w.len() <= s.len() && #[trigger] s.subrange(i, i + w.len()) == w;
        assert(at(s, i, w));
    }
    if holds(s, w) {
        let p = choose|p: int| at(s, p, w);
        assert(s.subrange(p, p + w.len()) == w);
    }
}

/// Whether the command line of a process has the arguments `wanted` in one
/// piece; nothing wanted is always there.
pub open spec fn has_arguments(process: Exec, wanted: Option<String>) -> bool {
    wanted matches Some(w) ==> process.arguments matches Some(given) && occurs(given@, w@)
}

proof fn lemma_finished(found: (Arc<ScannedEntry>, int), process: Exec, facts: Facts)
    requires
        0 <= found.1 < found.0.executables@.len(),
    ensures
        ({
            let there = has_arguments(process, found.0.executables@[found.1].arguments);
            &&& finished(found, process, facts) is Hit ==> there && finished(found, process, facts)
                == Class::Hit(found.0)
            &&& there && facts.suspended == Reading::Read(false) ==> finished(found, process, facts)
                == Class::Hit(found.0)
            &&& !there ==> finished(found, process, facts) == Class::Miss
            &&& facts.suspended == Reading::Read(true) ==> finished(found, process, facts)
                == Class::Miss
        }),
{
    if let Some(w) = found.0.executables@[found.1].arguments {
        if let Some(given) = process.arguments {
            lemma_occurs(given@, w@);
        }
    }
}

/// The executable that native patterns find in the path of a process decides
/// alone. The process is a hit by it exactly when it is not suspended and
/// every argument that the executable declares stands in its command line, in
/// one piece.
pub proof fn law_declared_arguments_decide(
    bundle: DetectablesBundle,
    context: Context,
    process: Exec,
    facts: Facts,
    entry: Arc<ScannedEntry>,
    exe: int,
)
    requires
        !excluded(context, process, facts),
        native_probe(bundle, rooted(process.path@)) == Some((entry, exe)),
        0 <= exe < entry.executables@.len(),
    ensures
        classify(bundle, context, process, facts) is Hit ==> classify(
            bundle,
            context,
            process,
            facts,
        ) == Class::Hit(entry) && has_arguments(process, entry.executables@[exe].arguments),
        has_arguments(process, entry.executables@[exe].arguments) && facts.suspended
            == Reading::Read(false) ==> classify(bundle, context, process, facts) == Class::Hit(
            entry,
        ),
        !has_arguments(process, entry.executables@[exe].arguments) ==> classify(
            bundle,
            context,
            process,
            facts,
        ) == Class::Miss,
{
    lemma_finished((entry, exe), process, facts);
}

/// So does the executable that is found in the working directory, for a
/// process whose path is a bare name that no pattern finds by itself.
pub proof fn law_declared_arguments_decide_in_cwd(
    bundle: DetectablesBundle,
    context: Context,
    process: Exec,
    facts: Facts,
    cwd: String,
    name: Seq<char>,
    entry: Arc<ScannedEntry>,
    exe: int,
)
    requires
        !excluded(context, process, facts),
        rooted(process.path@) == seq!['/'] + name,
        name.len() > 0,
        without_char(name, '/'),
        native_probe(bundle, rooted(process.path@)) is None,
        facts.cwd == Reading::Read(Some(cwd)),
        native_probe(bundle, cwd@ + rooted(process.path@)) == Some((entry, exe)),
        0 <= exe < entry.executables@.len(),
    ensures
        classify(bundle, context, process, facts) is Hit ==> classify(
            bundle,
            context,
            process,
            facts,
        ) == Class::Hit(entry) && has_arguments(process, entry.executables@[exe].arguments),
        has_arguments(process, entry.executables@[exe].arguments) && facts.suspended
            == Reading::Read(false) ==> classify(bundle, context, process, facts) == Class::Hit(
            entry,
        ),
        !has_arguments(process, entry.executables@[exe].arguments) ==> classify(
            bundle,
            context,
            process,
            facts,
        ) == Class::Miss,
{
    law_bare_name(name);
    assert(cwd@.push('/') + name =~= cwd@ + rooted(process.path@));
    lemma_finished((entry, exe), process, facts);
}

/// A rooted path is bare exactly when a name without a slash follows its root,
/// and that name is what is left.
pub proof fn law_bare_name(name: Seq<char>)
    ensures
        bare(seq!['/'] + name) == if name.len() > 0 && without_char(name, '/') {
            Some(name)
        } else {
            None
        },
{
    let path = seq!['/'] + name;
    lemma_rfind(path, '/');
    assert(path[0] == '/');
    if without_char(name, '/') {
        if rfind(path, '/') > 0 {
            assert(name[rfind(path, '/') - 1] == path[rfind(path, '/')]);
        }
    } else {
        let i = choose|i: int| 0 <= i < name.len() && name[i] == '/';
        assert(path[i + 1] == '/');
    }
    assert(path.drop_first() =~= name);
}

/// Whether no native pattern finds a process, by its path or in its working
/// directory.
pub open spec fn no_native_finding(bundle: DetectablesBundle, process: Exec, facts: Facts) -> bool {
    let path = rooted(process.path@);
    &&& native_probe(bundle, path) is None
    &&& bare(path) matches Some(exe) ==> {
        ||| facts.cwd == Reading::Read(None::<String>)
        ||| facts.cwd matches Reading::Read(Some(cwd)) && native_probe(
            bundle,
            cwd@.push('/') + exe,
        ) is None
    }
}

/// Without a native finding the store id decides first, a shortcut's title
/// next, then Windows patterns, then the install directory, and the title last;
/// where none of them finds an entry there is no hit.
#[verifier::rlimit(40)]
pub proof fn law_later_findings(
    bundle: DetectablesBundle,
    context: Context,
    process: Exec,
    facts: Facts,
    environ: Option<String>,
)
    requires
        !excluded(context, process, facts),
        no_native_finding(bundle, process, facts),
        facts.app_id == Reading::Read(environ),
        facts.suspended == Reading::Read(false),
    ensures
        ({
            let path = rooted(process.path@);
            let id = launcher_id(environ, process.arguments);
            let by_id = steam_entry(id, bundle.steam_map@, bundle.list@, bundle.custom@);
            let title = title_entry(
                lower(path),
                bundle.name_map@,
                bundle.name_map_nodot@,
                bundle.list@.len(),
            );
            let dir = library_id(dirs_view(context.steam_libraries.dirs@), lower(path));
            let by_dir = steam_entry(dir, bundle.steam_map@, bundle.list@, bundle.custom@);
            let windows = windows_probe(bundle, path);
            let foreign = id is Some && shortcut_id(id->0);
            let class = classify(bundle, context, process, facts);
            &&& by_id is Some ==> class == Class::Hit(by_id->0)
            &&& by_id is None && foreign && title is Some ==> class == Class::Hit(
                bundle.list@[title->0 as int],
            )
            &&& by_id is None && !(foreign && title is Some) && windows is Some ==> class
                == finished(windows->0, process, facts)
            &&& by_id is None && !(foreign && title is Some) && windows is None && by_dir is Some
                ==> class == Class::Hit(by_dir->0)
            &&& by_id is None && windows is None && by_dir is None && title is Some ==> class
                == Class::Hit(bundle.list@[title->0 as int])
            &&& by_id is None && windows is None && by_dir is None && title is None ==> class
                == Class::Miss
        }),
{
}

/// A reading is asked for only when it can matter: the working directory for a
/// bare name that no pattern finds, the launcher id after the native patterns
/// failed, the state for a process that would be a hit.
pub proof fn law_readings_are_needed(
    bundle: DetectablesBundle,
    context: Context,
    process: Exec,
    facts: Facts,
)
    ensures
        classify(bundle, context, process, facts) == Class::Needs(Need::Cwd) ==> !excluded(
            context,
            process,
            facts,
        ) && native_probe(bundle, rooted(process.path@)) is None && bare(rooted(process.path@))
            is Some,
        classify(bundle, context, process, facts) == Class::Needs(Need::AppId) ==> !excluded(
            context,
            process,
            facts,
        ) && no_native_finding(bundle, process, facts),
        !excluded(context, process, facts) && native_probe(bundle, rooted(process.path@)) is None
            && bare(rooted(process.path@)) is Some && facts.cwd is Unread ==> classify(
            bundle,
            context,
            process,
            facts,
        ) == Class::Needs(Need::Cwd),
        !excluded(context, process, facts) && no_native_finding(bundle, process, facts)
            && facts.app_id is Unread ==> classify(bundle, context, process, facts)
            == Class::Needs(Need::AppId),
{
}

/// A process is excluded exactly when its base name, in lower case, is on the
/// list or a pattern matched it.
pub proof fn law_exclusion(context: Context, process: Exec, facts: Facts)
    ensures
        facts.excluded_by_pattern ==> excluded(context, process, facts),
        context.exclusions.names@.contains(lower(base_name(rooted(process.path@)))) ==> excluded(
            context,
            process,
            facts,
        ),
        excluded(context, process, facts) ==> facts.excluded_by_pattern
            || context.exclusions.names@.contains(lower(base_name(rooted(process.path@)))),
{
}

/// The environment's launcher id comes before that of the command line.
pub proof fn law_environment_comes_first(environ: String, arguments: Option<String>)
    ensures
        launcher_id(Some(environ), arguments) == Some(environ@),
        launcher_id(None, None) is None,
{
}

/// The index of a store id names the first entry that carries it, and names
/// none only where no entry does.
pub proof fn law_store_id(list: Seq<Arc<ScannedEntry>>, id: Seq<char>)
    requires
        list.len() <= usize::MAX,
    ensures
        match steam_position(list, id) {
            Some(i) => {
                &&& i < list.len()
                &&& texts(list[i as int].steam_ids@).contains(id)
                &&& forall|j: int| 0 <= j < i ==> !texts((#[trigger] list[j]).steam_ids@).contains(
                    id,
                )
            },
            None => forall|j: int|
                0 <= j < list.len() ==> !texts((#[trigger] list[j]).steam_ids@).contains(id),
        },
    decreases list.len(),
{
    if list.len() > 0 {
        let front = list.drop_last();
        law_store_id(front, id);
        if let Some(i) = steam_position(front, id) {
            assert(list[i as int] == front[i as int]);
        }
        assert forall|j: int| 0 <= j < front.len() implies #[trigger] list[j] == front[j] by {}
    }
}

/// An override with a store id comes before the main list, the first one
/// before the others; the main list answers for all other ids. Without an id
/// there is no entry.
#[verifier::rlimit(40)]
pub proof fn law_store_entry(bundle: DetectablesBundle, id: Seq<char>)
    requires
        bundle.wf(),
        bundle.list@.len() <= usize::MAX,
    ensures
        ({
            let entry = steam_entry(
                Some(id),
                bundle.steam_map@,
                bundle.list@,
                bundle.custom@,
            );
            &&& entry matches Some(e) ==> texts(e.steam_ids@).contains(id)
            &&& forall|j: int|
                #![trigger bundle.custom@[j]]
                0 <= j < bundle.custom@.len() && texts(bundle.custom@[j].steam_ids@).contains(id)
                    && (forall|i: int|
                    0 <= i < j ==> !texts((#[trigger] bundle.custom@[i]).steam_ids@).contains(id))
                    ==> entry == Some(bundle.custom@[j])
            &&& forall|j: int|
                #![trigger bundle.list@[j]]
                0 <= j < bundle.list@.len() && texts(bundle.list@[j].steam_ids@).contains(id)
                    ==> entry is Some
        }),
        steam_entry(None, bundle.steam_map@, bundle.list@, bundle.custom@) is None,
{
    law_store_id(bundle.list@, id);
    lemma_custom_sku(bundle.custom@, id);
    assert(lookup(bundle.steam_map@, id) == steam_position(bundle.list@, id));
    let entry = steam_entry(Some(id), bundle.steam_map@, bundle.list@, bundle.custom@);
    assert forall|j: int|
        #![trigger bundle.custom@[j]]
        0 <= j < bundle.custom@.len() && texts(bundle.custom@[j].steam_ids@).contains(id) && (
        forall|i: int|
            0 <= i < j ==> !texts((#[trigger] bundle.custom@[i]).steam_ids@).contains(
                id,
            )) implies entry == Some(bundle.custom@[j]) by {
        let k = choose|k: int|
            0 <= k < bundle.custom@.len() && custom_sku(bundle.custom@, id) == Some(
                #[trigger] bundle.custom@[k],
            ) && texts(bundle.custom@[k].steam_ids@).contains(id) && (forall|i: int|
                0 <= i < k ==> !texts((#[trigger] bundle.custom@[i]).steam_ids@).contains(id));
        if j < k {
            assert(!texts(bundle.custom@[j].steam_ids@).contains(id));
        } else if k < j {
            assert(!texts(bundle.custom@[k].steam_ids@).contains(id));
        }
    }
}

proof fn lemma_custom_sku(custom: Seq<Arc<ScannedEntry>>, id: Seq<char>)
    ensures
        match custom_sku(custom, id) {
            Some(entry) => exists|k: int|
                0 <= k < custom.len() && custom_sku(custom, id) == Some(#[trigger] custom[k])
                    && texts(custom[k].steam_ids@).contains(id) && (forall|i: int|
                    0 <= i < k ==> !texts((#[trigger] custom[i]).steam_ids@).contains(id)),
            None => forall|i: int|
                0 <= i < custom.len() ==> !texts((#[trigger] custom[i]).steam_ids@).contains(id),
        },
    decreases custom.len(),
{
    if custom.len() > 0 {
        if texts(custom[0].steam_ids@).contains(id) {
            assert(custom_sku(custom, id) == Some(custom[0]));
        } else {
            let rest = custom.drop_first();
            lemma_custom_sku(rest, id);
            if custom_sku(rest, id) is Some {
                let k = choose|k: int|
                    0 <= k < rest.len() && custom_sku(rest, id) == Some(#[trigger] rest[k])
                        && texts(rest[k].steam_ids@).contains(id) && (forall|i: int|
                        0 <= i < k ==> !texts((#[trigger] rest[i]).steam_ids@).contains(id));
                assert(custom[k + 1] == rest[k]);
                assert forall|i: int| 0 <= i < k + 1 implies !texts(
                    (#[trigger] custom[i]).steam_ids@,
                ).contains(id) by {
                    if i > 0 {
                        assert(rest[i - 1] == custom[i]);
                    }
                }
            } else {
                assert forall|i: int| 0 <= i < custom.len() implies !texts(
                    (#[trigger] custom[i]).steam_ids@,
                ).contains(id) by {
                    if i > 0 {
                        assert(rest[i - 1] == custom[i]);
                    }
                }
            }
        }
    }
}

/// The store ids of an entry are those of its Steam listings.
pub proof fn law_steam_ids(skus: Seq<ThirdPartySku>, id: Seq<char>)
    ensures
        steam_ids_of(skus).contains(id) <==> exists|i: int|
            0 <= i < skus.len() && (#[trigger] skus[i]).distributor@ == "steam"@
                && skus[i].id is Some && skus[i].id->0@ == id,
    decreases skus.len(),
{
    if skus.len() > 0 {
        let front = skus.drop_last();
        law_steam_ids(front, id);
        let before = steam_ids_of(front);
        let all = steam_ids_of(skus);
        if all.contains(id) {
            let k = choose|k: int| 0 <= k < all.len() && all[k] == id;
            if k < before.len() {
                assert(before[k] == id);
                let i = choose|i: int|
                    0 <= i < front.len() && (#[trigger] front[i]).distributor@ == "steam"@
                        && front[i].id is Some && front[i].id->0@ == id;
                assert(skus[i] == front[i]);
            } else {
                assert(skus[skus.len() - 1].id->0@ == id);
            }
        }
        if exists|i: int|
            0 <= i < skus.len() && (#[trigger] skus[i]).distributor@ == "steam"@ && skus[i].id
                is Some && skus[i].id->0@ == id {
            let i = choose|i: int|
                0 <= i < skus.len() && (#[trigger] skus[i]).distributor@ == "steam"@ && skus[i].id
                    is Some && skus[i].id->0@ == id;
            if i < front.len() {
                assert(front[i] == skus[i]);
                let k = choose|k: int| 0 <= k < before.len() && before[k] == id;
                assert(all[k] == id);
            } else {
                assert(all[all.len() - 1] == id);
            }
        }
    }
}

proof fn lemma_keyed_by(names: Seq<Seq<char>>, key: Seq<char>, dots: bool)
    ensures
        keyed_by(names, key, dots) <==> exists|i: int|
            0 <= i < names.len() && title_key(#[trigger] names[i], dots) == Some(key),
    decreases names.len(),
{
    if names.len() > 0 {
        let front = names.drop_last();
        lemma_keyed_by(front, key, dots);
        if keyed_by(front, key, dots) {
            let i = choose|i: int|
                0 <= i < front.len() && title_key(#[trigger] front[i], dots) == Some(key);
            assert(title_key(names[i], dots) == Some(key));
        }
        if exists|i: int|
            0 <= i < names.len() && title_key(#[trigger] names[i], dots) == Some(key) {
            let i = choose|i: int|
                0 <= i < names.len() && title_key(#[trigger] names[i], dots) == Some(key);
            if i < front.len() {
                assert(title_key(front[i], dots) == Some(key));
            }
        }
        assert(names[names.len() - 1] == names.last());
    }
}

/// Whether an entry may be found by a title with the key `key`: it has no
/// executables, and its name or one of its aliases has that key.
pub open spec fn titled(entry: Arc<ScannedEntry>, key: Seq<char>, dots: bool) -> bool {
    entry.executables@.len() == 0 && (title_key(entry.name@, dots) == Some(key) || exists|i: int|
        0 <= i < entry.aliases@.len() && title_key((#[trigger] entry.aliases@[i])@, dots) == Some(
            key,
        ))
}

proof fn lemma_titled(entry: Arc<ScannedEntry>, key: Seq<char>, dots: bool)
    ensures
        titled(entry, key, dots) <==> entry.executables@.len() == 0 && keyed_by(
            titles(entry),
            key,
            dots,
        ),
{
    let names = titles(entry);
    lemma_keyed_by(names, key, dots);
    if keyed_by(names, key, dots) {
        let i = choose|i: int|
            0 <= i < names.len() && title_key(#[trigger] names[i], dots) == Some(key);
        if i > 0 {
            assert(names[i] == entry.aliases@[i - 1]@);
        }
    }
    if exists|i: int|
        0 <= i < entry.aliases@.len() && title_key((#[trigger] entry.aliases@[i])@, dots) == Some(
            key,
        ) {
        let i = choose|i: int|
            0 <= i < entry.aliases@.len() && title_key((#[trigger] entry.aliases@[i])@, dots)
                == Some(key);
        assert(names[i + 1] == entry.aliases@[i]@);
    }
    assert(names[0] == entry.name@);
}

/// The title index names the first entry without executables that has a title
/// with the key, and names none only where no such entry does.
pub proof fn law_title_index(list: Seq<Arc<ScannedEntry>>, key: Seq<char>, dots: bool)
    requires
        list.len() <= usize::MAX,
    ensures
        match name_position(list, key, dots) {
            Some(i) => {
                &&& i < list.len()
                &&& titled(list[i as int], key, dots)
                &&& forall|j: int| 0 <= j < i ==> !titled(#[trigger] list[j], key, dots)
            },
            None => forall|j: int| 0 <= j < list.len() ==> !titled(#[trigger] list[j], key, dots),
        },
    decreases list.len(),
{
    if list.len() > 0 {
        let front = list.drop_last();
        law_title_index(front, key, dots);
        lemma_titled(list.last(), key, dots);
        if let Some(i) = name_position(front, key, dots) {
            assert(list[i as int] == front[i as int]);
        }
        assert forall|j: int| 0 <= j < front.len() implies #[trigger] list[j] == front[j] by {}
    }
}

/// A path that is a listed directory, or lies below one, belongs to the game
/// of the first such directory; any other path to none.
pub proof fn law_library(dirs: Seq<(Seq<char>, Seq<char>)>, path: Seq<char>)
    ensures
        match library_id(dirs, path) {
            Some(id) => exists|k: int|
                0 <= k < dirs.len() && (#[trigger] dirs[k]).1 == id && below(path, dirs[k].0) && (
                forall|i: int| 0 <= i < k ==> !below(path, (#[trigger] dirs[i]).0)),
            None => forall|i: int| 0 <= i < dirs.len() ==> !below(path, (#[trigger] dirs[i]).0),
        },
    decreases dirs.len(),
{
    if dirs.len() > 0 {
        lemma_below(path, dirs[0].0);
        if lies_in(path, dirs[0].0) {
            assert(dirs[0].1 == library_id(dirs, path)->0);
        } else {
            let rest = dirs.drop_first();
            law_library(rest, path);
            if library_id(rest, path) is Some {
                let id = library_id(rest, path)->0;
                let k = choose|k: int|
                    0 <= k < rest.len() && (#[trigger] rest[k]).1 == id && below(path, rest[k].0)
                        && (forall|i: int| 0 <= i < k ==> !below(path, (#[trigger] rest[i]).0));
                assert(dirs[k + 1] == rest[k]);
                assert forall|i: int| 0 <= i < k + 1 implies !below(
                    path,
                    (#[trigger] dirs[i]).0,
                ) by {
                    if i > 0 {
                        assert(rest[i - 1] == dirs[i]);
                    }
                }
            } else {
                assert forall|i: int| 0 <= i < dirs.len() implies !below(
                    path,
                    (#[trigger] dirs[i]).0,
                ) by {
                    if i > 0 {
                        assert(rest[i - 1] == dirs[i]);
                    }
                }
            }
        }
    }
}

/// Whether `path` is `dir`, or `dir` followed by a slash and anything.
pub open spec fn below(path: Seq<char>, dir: Seq<char>) -> bool {
    path == dir || exists|rest: Seq<char>| path == dir + #[trigger] (seq!['/'] + rest)
}

proof fn lemma_below(path: Seq<char>, dir: Seq<char>)
    ensures
        below(path, dir) <==> lies_in(path, dir),
{
    if path == dir {
        assert(path.subrange(0, dir.len() as int) =~= dir);
    } else if lies_in(path, dir) {
        if path.len() == dir.len() {
            assert(path.subrange(0, dir.len() as int) =~= path);
        } else {
            let rest = path.skip(dir.len() as int + 1);
            assert(path =~= dir + (seq!['/'] + rest)) by {
                assert forall|i: int| 0 <= i < dir.len() implies path[i] == dir[i] by {
                    assert(path.subrange(0, dir.len() as int)[i] == path[i]);
                }
            }
        }
    } else if exists|rest: Seq<char>| path == dir + #[trigger] (seq!['/'] + rest) {
        let rest = choose|rest: Seq<char>| path == dir + #[trigger] (seq!['/'] + rest);
        assert(path.subrange(0, dir.len() as int) =~= dir);
        assert(path[dir.len() as int] == '/');
    }
}

/// Of the folders of a path the nearest one that names an entry decides.
pub proof fn law_nearest_folder(
    folders: Seq<Seq<char>>,
    map: Seq<(Seq<char>, usize)>,
    len: nat,
    dots: bool,
)
    ensures
        match nearest_folder(folders, map, len, dots) {
            Some(found) => exists|k: int|
                0 <= k < folders.len() && folder_entry(#[trigger] folders[k], map, len, dots)
                    == Some(found) && (forall|i: int|
                    k < i < folders.len() ==> folder_entry(#[trigger] folders[i], map, len, dots)
                        is None),
            None => forall|i: int|
                0 <= i < folders.len() ==> folder_entry(#[trigger] folders[i], map, len, dots)
                    is None,
        },
    decreases folders.len(),
{
    if folders.len() > 0 {
        let last = folders.len() - 1;
        if folder_entry(folders.last(), map, len, dots) is Some {
            assert(folder_entry(folders[last], map, len, dots) == nearest_folder(
                folders,
                map,
                len,
                dots,
            ));
        } else {
            let front = folders.drop_last();
            law_nearest_folder(front, map, len, dots);
            if nearest_folder(front, map, len, dots) is Some {
                let found = nearest_folder(front, map, len, dots)->0;
                let k = choose|k: int|
                    0 <= k < front.len() && folder_entry(#[trigger] front[k], map, len, dots)
                        == Some(found) && (forall|i: int|
                        k < i < front.len() ==> folder_entry(#[trigger] front[i], map, len, dots)
                            is None);
                assert(folder_entry(folders[k], map, len, dots) == Some(found));
                assert forall|i: int| k < i < folders.len() implies folder_entry(
                    #[trigger] folders[i],
                    map,
                    len,
                    dots,
                ) is None by {
                    if i < front.len() {
                        assert(front[i] == folders[i]);
                    }
                }
            } else {
                assert forall|i: int| 0 <= i < folders.len() implies folder_entry(
                    #[trigger] folders[i],
                    map,
                    len,
                    dots,
                ) is None by {
                    if i < front.len() {
                        assert(front[i] == folders[i]);
                    }
                }
            }
        }
    }
}

/// The stem of a path decides by title before its folders, and exact folder
/// names before dotted ones. The last component is no folder.
pub proof fn law_title_order(
    path: Seq<char>,
    name_map: Seq<(Seq<char>, usize)>,
    name_map_nodot: Seq<(Seq<char>, usize)>,
    len: nat,
)
    ensures
        ({
            let folders = split(path, '/').drop_last();
            let by_name = lookup(name_map, stem(path));
            let named = matchable(stem(path)) && by_name is Some && by_name->0 < len;
            let plain = nearest_folder(folders, name_map, len, false);
            let found = title_entry(path, name_map, name_map_nodot, len);
            &&& named ==> found == by_name
            &&& !named && plain is Some ==> found == plain
            &&& !named && plain is None ==> found == nearest_folder(
                folders,
                name_map_nodot,
                len,
                true,
            )
        }),
{
}

/// Only names with a space and six characters or more are matched by title.
pub proof fn law_short_names_never_match(name: Seq<char>)
    ensures
        name.len() < 6 || without_char(name, ' ') ==> !matchable(name),
        name.len() >= 6 && !without_char(name, ' ') ==> matchable(name),
{
    if !without_char(name, ' ') {
        let i = choose|i: int| 0 <= i < name.len() && name[i] == ' ';
        assert(name[i] == ' ');
    }
}

/// A rooted path begins with a slash, holds no backslash, and is the path
/// itself with each backslash turned, behind at most one new slash.
pub proof fn law_rooted(path: Seq<char>)
    ensures
        rooted(path).len() > 0 && rooted(path)[0] == '/',
        without_char(rooted(path), '\\'),
        path.len() > 0 && (path[0] == '/' || path[0] == '\\') ==> rooted(path).len() == path.len(),
        path.len() == 0 || (path[0] != '/' && path[0] != '\\') ==> rooted(path).len() == path.len()
            + 1,
        forall|i: int|
            0 <= i < path.len() ==> {
                let c = #[trigger] path[i];
                let t = rooted(path)[rooted(path).len() - path.len() + i];
                t == if c == '\\' {
                    '/'
                } else {
                    c
                }
            },
        rooted(rooted(path)) == rooted(path),
{
    let t = forward_slashes(path);
    assert forall|i: int| 0 <= i < rooted(path).len() implies rooted(path)[i] != '\\' by {
        if rooted(path) != t {
            if i > 0 {
                assert(rooted(path)[i] == t[i - 1]);
            }
        }
    }
    assert(forward_slashes(rooted(path)) =~= rooted(path));
}

/// The base name of a path is what follows its last slash, and its stem is
/// that name up to the last full stop behind its first character.
#[verifier::rlimit(40)]
pub proof fn law_stem(dir: Seq<char>, base: Seq<char>, ext: Seq<char>)
    requires
        without_char(base, '/'),
        without_char(ext, '/'),
    ensures
        base_name(dir.push('/') + base) == base,
        base_name(base) == base,
        without_char(base, '.') ==> stem(dir.push('/') + base) == base,
        base.len() > 0 && without_char(ext, '.') ==> stem(
            dir.push('/') + (base.push('.') + ext),
        ) == base,
        base.len() == 0 && without_char(ext, '.') ==> stem(
            dir.push('/') + (base.push('.') + ext),
        ) == base.push('.') + ext,
{
    let path = dir.push('/') + base;
    lemma_last_slash(dir, base);
    lemma_rfind(base, '/');
    assert(base.skip(0) =~= base);
    lemma_rfind(base, '.');
    let full = base.push('.') + ext;
    assert(without_char(full, '/'));
    lemma_last_slash(dir, full);
    if without_char(ext, '.') {
        lemma_rfind(full, '.');
        assert(full[base.len() as int] == '.');
        if rfind(full, '.') > base.len() {
            assert(ext[rfind(full, '.') - base.len() - 1] == full[rfind(full, '.')]);
        }
        assert(full.take(base.len() as int) =~= base);
    }
}

proof fn lemma_last_slash(dir: Seq<char>, base: Seq<char>)
    requires
        without_char(base, '/'),
    ensures
        base_name(dir.push('/') + base) == base,
{
    let path = dir.push('/') + base;
    lemma_rfind(path, '/');
    assert(path[dir.len() as int] == '/');
    if rfind(path, '/') > dir.len() {
        assert(base[rfind(path, '/') - dir.len() - 1] == path[rfind(path, '/')]);
    }
    assert(path.skip(dir.len() as int + 1) =~= base);
}

/// The state of a process is the first visible character behind the last
/// closing parenthesis of its line, whatever its name holds.
#[verifier::rlimit(40)]
pub proof fn law_process_state(name: Seq<char>, gap: Seq<char>, state: char, rest: Seq<char>)
    requires
        forall|i: int| 0 <= i < gap.len() ==> white(#[trigger] gap[i]),
        !white(state),
        state != ')',
        without_char(rest, ')'),
    ensures
        stat_state(name.push(')') + gap + (seq![state] + rest)) == Some(state),
        suspended_state(Some(state)) <==> state == 'T' || state == 't',
        !suspended_state(None),
{
    let line = name.push(')') + gap + (seq![state] + rest);
    let n = name.len() as int;
    lemma_rfind(line, ')');
    assert(line[n] == ')');
    assert forall|i: int| n < i < line.len() implies line[i] != ')' by {
        if i < n + 1 + gap.len() {
            assert(line[i] == gap[i - n - 1]);
            assert(white(gap[i - n - 1]));
        } else if i > n + 1 + gap.len() {
            assert(line[i] == rest[i - n - 2 - gap.len()]);
        }
    }
    assert(rfind(line, ')') == n);
    lemma_first_visible(line, n + 1, n + 1 + gap.len(), gap);
}

proof fn lemma_first_visible(line: Seq<char>, i: int, end: int, gap: Seq<char>)
    requires
        0 <= i <= end < line.len(),
        forall|k: int| i <= k < end ==> white(#[trigger] line[k]),
        !white(line[end]),
    ensures
        first_visible(line, i) == Some(line[end]),
    decreases end - i,
{
    if i < end {
        assert(white(line[i]));
        lemma_first_visible(line, i + 1, end, gap);
    }
}

/// A run of digits ends where the digits do.
pub proof fn law_digits_end(s: Seq<char>, i: int)
    requires
        0 <= i <= s.len(),
    ensures
        i <= digits_end(s, i) <= s.len(),
        forall|k: int| i <= k < digits_end(s, i) ==> digit(#[trigger] s[k]),
        digits_end(s, i) < s.len() ==> !digit(s[digits_end(s, i)]),
    decreases s.len() - i,
{
    if i < s.len() && digit(s[i]) {
        law_digits_end(s, i + 1);
    }
}

/// A launcher id stands for a foreign shortcut exactly when it is a number of
/// 32 bits whose highest bit is set.
pub proof fn law_shortcut_ids(n: nat)
    ensures
        shortcut_id(decimal(n)) <==> 0x8000_0000 <= n <= 0xffff_ffff,
{
    law_parsed_decimal(n, u32::MAX as nat);
}

proof fn lemma_stripped_none(s: Seq<char>, w: Seq<char>)
    requires
        !holds(s, w),
    ensures
        stripped(s, w) == s,
    decreases s.len(),
{
    if s.len() > 0 && w.len() > 0 {
        assert(!at(s, 0, w));
        let rest = s.drop_first();
        assert(!holds(rest, w)) by {
            if holds(rest, w) {
                let p = choose|p: int| at(rest, p, w);
                assert(s.subrange(p + 1, p + 1 + w.len()) =~= rest.subrange(p, p + w.len()));
                assert(at(s, p + 1, w));
            }
        }
        lemma_stripped_none(rest, w);
        assert(seq![s[0]] + rest =~= s);
    }
}

proof fn lemma_stripped_once(a: Seq<char>, w: Seq<char>, b: Seq<char>)
    requires
        w.len() > 0,
        forall|p: int| 0 <= p < a.len() ==> !at(a + w + b, p, w),
        !holds(b, w),
    ensures
        stripped(a + w + b, w) == a + b,
    decreases a.len(),
{
    let s = a + w + b;
    if a.len() == 0 {
        assert(s.subrange(0, w.len() as int) =~= w);
        assert(s.skip(w.len() as int) =~= b);
        lemma_stripped_none(b, w);
        assert(a + b =~= b);
    } else {
        let rest = a.drop_first();
        assert(!at(s, 0, w));
        assert(s.drop_first() =~= rest + w + b);
        assert forall|p: int| 0 <= p < rest.len() implies !at(rest + w + b, p, w) by {
            if at(rest + w + b, p, w) {
                assert(s.subrange(p + 1, p + 1 + w.len()) =~= (rest + w + b).subrange(
                    p,
                    p + w.len(),
                ));
                assert(at(s, p + 1, w));
            }
        }
        lemma_stripped_once(rest, w, b);
        assert(seq![a[0]] + (rest + b) =~= a + b);
    }
}

/// The marks of 64-bit executables.
pub open spec fn bit_mark(w: Seq<char>) -> bool {
    w == "64"@ || w == ".x64"@ || w == "x64"@ || w == "_64"@
}

/// A path is tried as it is first, and then, for each 64-bit mark that it
/// holds, without that mark.
#[verifier::rlimit(40)]
pub proof fn law_variants(a: Seq<char>, w: Seq<char>, b: Seq<char>)
    requires
        bit_mark(w),
        forall|p: int| 0 <= p < a.len() ==> !at(a + w + b, p, w),
        !holds(b, w),
    ensures
        variants(a + w + b)[0] == a + w + b,
        variants(a + w + b).contains(a + b),
{
    reveal_strlit("64");
    reveal_strlit(".x64");
    reveal_strlit("x64");
    reveal_strlit("_64");
    let path = a + w + b;
    assert(path.subrange(a.len() as int, a.len() as int + w.len()) =~= w);
    assert(at(path, a.len() as int, w));
    assert(holds(path, w));
    lemma_stripped_once(a, w, b);
    let all = variants(path);
    let one = crate::matching::unmarked_variant(path, "64"@);
    let two = crate::matching::unmarked_variant(path, ".x64"@);
    let three = crate::matching::unmarked_variant(path, "x64"@);
    if w == "64"@ {
        assert(all[1] == a + b);
    } else if w == ".x64"@ {
        assert(all[1 + one.len() as int] == a + b);
    } else if w == "x64"@ {
        assert(all[1 + one.len() as int + two.len()] == a + b);
    } else {
        assert(all[1 + one.len() as int + two.len() + three.len()] == a + b);
    }
}

/// A path without a 64-bit mark is tried as it is only.
pub proof fn law_unmarked_path(path: Seq<char>)
    requires
        !holds(path, "64"@),
        !holds(path, ".x64"@),
        !holds(path, "x64"@),
        !holds(path, "_64"@),
    ensures
        variants(path) == seq![path],
{
    assert(variants(path) =~= seq![path]);
}

proof fn lemma_entry_positions_in_scope(
    entry: Arc<ScannedEntry>,
    index: int,
    scope: Scope,
    n: int,
    m: int,
)
    requires
        0 <= m < entry_positions(entry, index, scope, n).len(),
    ensures
        ({
            let p = entry_positions(entry, index, scope, n)[m];
            p.0 == index && 0 <= p.1 < n && in_scope(scope, entry.executables@[p.1].os@)
        }),
    decreases n,
{
    if n > 0 {
        let before = entry_positions(entry, index, scope, n - 1);
        if m < before.len() {
            lemma_entry_positions_in_scope(entry, index, scope, n - 1, m);
        }
    }
}

proof fn lemma_positions_in_scope(list: Seq<Arc<ScannedEntry>>, scope: Scope, m: int)
    requires
        0 <= m < positions(list, scope).len(),
    ensures
        ({
            let p = positions(list, scope)[m];
            0 <= p.0 < list.len() && 0 <= p.1 < list[p.0].executables@.len() && in_scope(
                scope,
                list[p.0].executables@[p.1].os@,
            )
        }),
    decreases list.len(),
{
    if list.len() > 0 {
        let front = list.drop_last();
        let before = positions(front, scope);
        let last = list.last();
        let n = last.executables@.len() as int;
        if m < before.len() {
            lemma_positions_in_scope(front, scope, m);
            assert(list[before[m].0] == front[before[m].0]);
        } else {
            lemma_entry_positions_in_scope(last, list.len() - 1, scope, n, m - before.len());
            assert(positions(list, scope)[m] == entry_positions(
                last,
                list.len() - 1,
                scope,
                n,
            )[m - before.len()]);
        }
    }
}

/// Whether the rooted name of an executable stands in `path`, ASCII case
/// aside.
pub open spec fn names_in(path: Seq<char>, name: Seq<char>) -> bool {
    exists|p: int| #[trigger] stands_folded(path, p, rooted(unmarked(name)))
}

/// Whether `w` stands in `path` at `p`, ASCII case aside.
pub open spec fn stands_folded(path: Seq<char>, p: int, w: Seq<char>) -> bool {
    0 <= p && p + w.len() <= path.len() && lower(path.subrange(p, p + w.len())) == lower(w)
}

#[verifier::rlimit(40)]
proof fn lemma_probe_sound(
    matcher: Matcher,
    list: Seq<Arc<ScannedEntry>>,
    scope: Scope,
    path: Seq<char>,
)
    requires
        matcher.covers(list, scope),
    ensures
        probe_one(matcher, list, reversed(path)) matches Some((entry, exe)) ==> list.contains(entry)
            && 0 <= exe < entry.executables@.len() && in_scope(
            scope,
            entry.executables@[exe].os@,
        ) && names_in(path, entry.executables@[exe].name@),
{
    let pats = patterns_in(matcher.ac);
    let hay = reversed(path);
    if let Some((entry, exe)) = probe_one(matcher, list, hay) {
        let (i, s) = choose|i: int, s: int| #[trigger] leftmost(pats, hay, i, s);
        let slots = ints(matcher.slots@);
        assert(slots.len() == matcher.slots@.len());
        assert(pats.len() == slots.len());
        lemma_positions_in_scope(list, scope, i);
        assert(slots[i] == (matcher.slots@[i].0 as int, matcher.slots@[i].1 as int));
        assert(list[slots[i].0] == entry);
        assert(slots[i].1 == exe);
        let name = rooted(unmarked(entry.executables@[exe].name@));
        assert(pats[i] == reversed(name));
        assert(pattern_at(pats[i], hay, s));
        let n = name.len();
        let p = path.len() - s - n;
        let part = hay.subrange(s, s + n);
        let here = path.subrange(p, p + n);
        assert(lower(here) =~= lower(name)) by {
            assert forall|k: int| 0 <= k < n implies #[trigger] lower(here)[k] == lower(
                name,
            )[k] by {
                assert(lower(part)[n - 1 - k] == lower(reversed(name))[n - 1 - k]);
                assert(part[n - 1 - k] == here[k]);
                assert(reversed(name)[n - 1 - k] == name[k]);
            }
        }
        assert(stands_folded(path, p, name));
    }
}

proof fn lemma_probe_all_sound(
    matcher: Matcher,
    list: Seq<Arc<ScannedEntry>>,
    scope: Scope,
    vars: Seq<Seq<char>>,
)
    requires
        matcher.covers(list, scope),
    ensures
        probe_all(matcher, list, vars) matches Some((entry, exe)) ==> list.contains(entry) && 0
            <= exe < entry.executables@.len() && in_scope(scope, entry.executables@[exe].os@) && (
        exists|k: int|
            0 <= k < vars.len() && names_in(#[trigger] vars[k], entry.executables@[exe].name@)),
    decreases vars.len(),
{
    if vars.len() > 0 {
        lemma_probe_sound(matcher, list, scope, vars[0]);
        if probe_one(matcher, list, reversed(vars[0])) is None {
            let rest = vars.drop_first();
            lemma_probe_all_sound(matcher, list, scope, rest);
            if let Some((entry, exe)) = probe_all(matcher, list, rest) {
                let k = choose|k: int|
                    0 <= k < rest.len() && names_in(
                        #[trigger] rest[k],
                        entry.executables@[exe].name@,
                    );
                assert(vars[k + 1] == rest[k]);
            }
        }
    }
}

/// What native patterns find is an executable of an override, or one of the
/// main list for this platform, whose rooted name stands in a variant of the
/// path, ASCII case aside. Windows patterns find Windows executables, and only
/// on Linux.
#[verifier::rlimit(40)]
pub proof fn law_found_executable_is_named(bundle: DetectablesBundle, path: Seq<char>)
    requires
        bundle.wf(),
    ensures
        native_probe(bundle, path) matches Some((entry, exe)) ==> {
            &&& 0 <= exe < entry.executables@.len()
            &&& bundle.custom@.contains(entry) || (bundle.list@.contains(entry) && os_applies(
                bundle.platform,
                entry.executables@[exe].os@,
            ))
            &&& exists|k: int|
                0 <= k < variants(path).len() && names_in(
                    #[trigger] variants(path)[k],
                    entry.executables@[exe].name@,
                )
        },
        windows_probe(bundle, path) matches Some((entry, exe)) ==> {
            &&& 0 <= exe < entry.executables@.len()
            &&& bundle.list@.contains(entry)
            &&& bundle.platform is Linux
            &&& entry.executables@[exe].os@ == "win32"@
            &&& exists|k: int|
                0 <= k < variants(path).len() && names_in(
                    #[trigger] variants(path)[k],
                    entry.executables@[exe].name@,
                )
        },
{
    lemma_probe_all_sound(bundle.overrides, bundle.custom@, Scope::Custom, variants(path));
    lemma_probe_all_sound(
        bundle.main,
        bundle.list@,
        Scope::Native(bundle.platform),
        variants(path),
    );
    lemma_probe_all_sound(
        bundle.proton,
        bundle.list@,
        Scope::Proton(bundle.platform),
        variants(path),
    );
}

/// A command line names the launcher id that stands, in digits, behind its
/// first token for one: at its beginning or behind a character that is neither
/// a letter nor a digit.
#[verifier::rlimit(40)]
pub proof fn law_arguments_name_app_id(args: String, front: Seq<char>, n: nat, rest: Seq<char>)
    requires
        args@ == front + app_id_token() + decimal(n) + rest,
        front.len() == 0 || !alphanumeric(front.last()),
        rest.len() == 0 || !digit(rest[0]),
        forall|q: int| 0 <= q < front.len() ==> !#[trigger] app_id_starts(args@, q),
    ensures
        app_id_token() == "AppId="@,
        args_app_id(Some(args)) == Some(decimal(n)),
        launcher_id(None, Some(args)) == Some(decimal(n)),
{
    reveal_strlit("AppId=");
    assert(app_id_token() =~= "AppId="@);
    let s = args@;
    let p = front.len() as int;
    let id = decimal(n);
    law_decimal_round_trip(n);
    assert(s.subrange(p, p + 6) =~= app_id_token());
    assert(s[p + 6] == id[0]);
    assert(digit(id[0]));
    if p > 0 {
        assert(s[p - 1] == front.last());
    }
    assert(app_id_starts(s, p));
    assert forall|k: int| p + 6 <= k < p + 6 + id.len() implies digit(#[trigger] s[k]) by {
        assert(s[k] == id[k - p - 6]);
        assert(digit(id[k - p - 6]));
    }
    let end = p + 6 + id.len();
    if end < s.len() {
        assert(s[end] == rest[0]);
    }
    lemma_digits_run(s, p + 6, end);
    assert(s.subrange(p + 6, end) =~= id);
    assert(names_app_id(s, id));
    lemma_args_app_id(Some(args), id);
}

proof fn lemma_digits_run(s: Seq<char>, i: int, end: int)
    requires
        0 <= i <= end <= s.len(),
        forall|k: int| i <= k < end ==> digit(#[trigger] s[k]),
        end < s.len() ==> !digit(s[end]),
    ensures
        digits_end(s, i) == end,
    decreases end - i,
{
    if i < end {
        assert(digit(s[i]));
        lemma_digits_run(s, i + 1, end);
    }
}

/// A command line without such a token names none.
pub proof fn law_arguments_without_app_id(args: String)
    requires
        forall|q: int| !#[trigger] app_id_starts(args@, q),
    ensures
        args_app_id(Some(args)) is None,
        args_app_id(None) is None,
{
}

/// The key of a title is its comparison form, for titles of several words. The
/// dotless index knows only titles with a full stop, by the form in which the
/// full stops are spaces.
pub proof fn law_title_keys(title: Seq<char>)
    ensures
        title_key(title, false) == if matchable(normalized(title)) {
            Some(normalized(title))
        } else {
            None
        },
        without_char(title, '.') ==> title_key(title, true) is None,
        !without_char(title, '.') ==> title_key(title, true) == if matchable(
            normalized(dedotted(title)),
        ) {
            Some(normalized(dedotted(title)))
        } else {
            None
        },
{
    if !without_char(title, '.') {
        let i = choose|i: int| 0 <= i < title.len() && title[i] == '.';
        assert(title[i] == '.');
        assert(title.contains('.'));
    }
}

/// A lower-case folder names the entry that its comparison form has in the
/// index: in the plain one where it has no full stop, in the dotless one where
/// it has, and only forms of several words count.
#[verifier::rlimit(40)]
pub proof fn law_folder_names(folder: Seq<char>, map: Seq<(Seq<char>, usize)>, len: nat)
    requires
        lower(folder) == folder,
    ensures
        without_char(folder, '.') ==> folder_entry(folder, map, len, true) is None,
        !without_char(folder, '.') ==> folder_entry(folder, map, len, false) is None,
        without_char(folder, '.') ==> match folder_entry(folder, map, len, false) {
            Some(i) => matchable(normalized(folder)) && lookup(map, normalized(folder)) == Some(i)
                && i < len,
            None => !matchable(normalized(folder)) || lookup(map, normalized(folder)) is None
                || lookup(map, normalized(folder))->0 >= len,
        },
        !without_char(folder, '.') ==> match folder_entry(folder, map, len, true) {
            Some(i) => matchable(normalized(dedotted(folder))) && lookup(
                map,
                normalized(dedotted(folder)),
            ) == Some(i) && i < len,
            None => !matchable(normalized(dedotted(folder))) || lookup(
                map,
                normalized(dedotted(folder)),
            ) is None || lookup(map, normalized(dedotted(folder)))->0 >= len,
        },
{
    if !without_char(folder, '.') {
        let i = choose|i: int| 0 <= i < folder.len() && folder[i] == '.';
        assert(folder[i] == '.');
        assert(folder.contains('.'));
    }
    law_dots_break_like_spaces(folder);
    assert(lower(dedotted(folder)) =~= dedotted(folder)) by {
        assert forall|i: int| 0 <= i < folder.len() implies lower(dedotted(folder))[i] == dedotted(
            folder,
        )[i] by {
            assert(lower(folder)[i] == folder[i]);
        }
    }
}

/// The slim form of a game keeps its id, name, executables and aliases, and of
/// its listings the Steam ids.
pub proof fn law_slim_form(entry: ScannedEntry, game: DetectableActivity, id: Seq<char>)
    requires
        entry.slims(game),
    ensures
        entry.id@ == game.id@,
        entry.name@ == game.name@,
        entry.executables@ == game.executables@,
        texts(entry.aliases@) == texts(game.aliases@),
        texts(entry.steam_ids@).contains(id) <==> exists|i: int|
            0 <= i < game.third_party_skus@.len() && (
            #[trigger] game.third_party_skus@[i]).distributor@ == "steam"@
                && game.third_party_skus@[i].id is Some && game.third_party_skus@[i].id->0@ == id,
{
    law_steam_ids(game.third_party_skus@, id);
}

/// A finding is a sighting of its own process at the time of the scan, unless
/// the process is suspended.
pub proof fn law_sighting(entry: Arc<ScannedEntry>, pid: u64, now_ms: i64)
    ensures
        sighting(Some(entry), pid, false, now_ms) matches Some(hit) && hit.entry == entry && hit.pid
            == pid && hit.start == now_ms,
        sighting(Some(entry), pid, true, now_ms) is None,
        sighting(None, pid, false, now_ms) is None,
{
}

/// A process shows recording software exactly when it is not excluded and its
/// path holds the name of one of two programs.
pub proof fn law_recording_software(context: Context, process: Exec, facts: Facts)
    ensures
        shows_recording(context, process, facts) <==> !excluded(context, process, facts) && (occurs(
            rooted(process.path@),
            "obs64"@,
        ) || occurs(rooted(process.path@), "streamlabs"@)),
{
    lemma_occurs(rooted(process.path@), "obs64"@);
    lemma_occurs(rooted(process.path@), "streamlabs"@);
}

/// The first variant of a path in which anything is found decides.
pub proof fn law_first_variant_decides(
    matcher: Matcher,
    list: Seq<Arc<ScannedEntry>>,
    vars: Seq<Seq<char>>,
    k: int,
)
    requires
        0 <= k < vars.len(),
        forall|i: int|
            0 <= i < k ==> probe_one(matcher, list, reversed(#[trigger] vars[i])) is None,
        probe_one(matcher, list, reversed(vars[k])) is Some,
    ensures
        probe_all(matcher, list, vars) == probe_one(matcher, list, reversed(vars[k])),
    decreases vars.len(),
{
    if k > 0 {
        let rest = vars.drop_first();
        assert(probe_one(matcher, list, reversed(vars[0])) is None);
        assert forall|i: int| 0 <= i < k - 1 implies probe_one(
            matcher,
            list,
            reversed(#[trigger] rest[i]),
        ) is None by {
            assert(rest[i] == vars[i + 1]);
        }
        assert(rest[k - 1] == vars[k]);
        law_first_variant_decides(matcher, list, rest, k - 1);
    }
}

/// Where no variant of a path finds anything, nothing is found.
pub proof fn law_no_variant_finds(
    matcher: Matcher,
    list: Seq<Arc<ScannedEntry>>,
    vars: Seq<Seq<char>>,
)
    requires
        forall|i: int|
            0 <= i < vars.len() ==> probe_one(matcher, list, reversed(#[trigger] vars[i])) is None,
    ensures
        probe_all(matcher, list, vars) is None,
    decreases vars.len(),
{
    if vars.len() > 0 {
        let rest = vars.drop_first();
        assert(probe_one(matcher, list, reversed(vars[0])) is None);
        assert forall|i: int| 0 <= i < rest.len() implies probe_one(
            matcher,
            list,
            reversed(#[trigger] rest[i]),
        ) is None by {
            assert(rest[i] == vars[i + 1]);
        }
        law_no_variant_finds(matcher, list, rest);
    }
}

} // verus!
