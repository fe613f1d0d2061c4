//! The process server: the current generation of the database, what scans
//! share, and the edits that replace a generation.
use crate::detectables::{
    bodies, build_bundle, game_bodies, generation_builds, lemma_bodies, slim_entries, slim_list,
    BundleError, DetectableActivity, DetectablesBundle, Platform, ScannedEntry,
};
use crate::error::RsrpcError;
use crate::matching::{
    ac_probe, classify, dirs_view, found_view, library_id, match_process, probe_one, proton_probe,
    shows_recording, verdict_is, Class, Context, Exclusions, Facts, MatchScratch, Need,
    ScannedHit, SteamLibraries, Verdict,
};
use crate::payload::share;
use crate::procfs::Exec;
use crate::table::{texts, IdSet};
use crate::text::same;
use crate::time::Duration;
use std::collections::HashSet;
use std::sync::Arc;
use vstd::prelude::*;

verus! {

broadcast use vstd::std_specs::hash::group_hash_axioms;

/// Whoever holds the guard scans; nobody else may meanwhile.
pub struct ScanGuard {
    held: bool,
}

impl ScanGuard {
    /// Take the guard; nothing while a scan is in progress.
    pub fn try_acquire(flag: &mut bool) -> (r: Option<Self>)
        ensures
            r is Some <==> !*old(flag),
            *final(flag),
    {
        if *flag {
            None
        } else {
            *flag = true;
            Some(ScanGuard { held: true })
        }
    }

    /// Give the guard back.
    pub fn release(self, flag: &mut bool)
        ensures
            !*final(flag),
    {
        *flag = false;
    }
}

/// What one sweep over the process table found.
pub struct ScanReport {
    /// The games, in the order of their processes.
    pub hits: Vec<ScannedHit>,
    /// Processes whose classification needs a reading.
    pub needs: Vec<(usize, Need)>,
    /// Whether recording software runs.
    pub obs_open: bool,
}

/// Which threads run besides the scan.
#[derive(Clone, Copy, PartialEq, Eq, Structural, Debug)]
pub struct StartPlan {
    pub refresh: bool,
    pub watch: bool,
}

/// The games among the first `n` processes.
pub open spec fn games(
    bundle: DetectablesBundle,
    context: Context,
    processes: Seq<Exec>,
    facts: Seq<Facts>,
    n: int,
) -> Seq<ScannedHit>
    decreases n,
{
    if n <= 0 {
        Seq::empty()
    } else {
        let before = games(bundle, context, processes, facts, n - 1);
        match classify(bundle, context, processes[n - 1], facts[n - 1]) {
            Class::Hit(entry) => before.push(
                ScannedHit { entry, pid: processes[n - 1].pid, start: facts[n - 1].now_ms },
            ),
            _ => before,
        }
    }
}

/// The readings that the first `n` processes need.
pub open spec fn readings(
    bundle: DetectablesBundle,
    context: Context,
    processes: Seq<Exec>,
    facts: Seq<Facts>,
    n: int,
) -> Seq<(usize, Need)>
    decreases n,
{
    if n <= 0 {
        Seq::empty()
    } else {
        let before = readings(bundle, context, processes, facts, n - 1);
        match classify(bundle, context, processes[n - 1], facts[n - 1]) {
            Class::Needs(need) => before.push(((n - 1) as usize, need)),
            _ => before,
        }
    }
}

/// Whether one of the first `n` processes shows that recording software
/// runs.
pub open spec fn recording(
    context: Context,
    processes: Seq<Exec>,
    facts: Seq<Facts>,
    n: int,
) -> bool
    decreases n,
{
    n > 0 && (recording(context, processes, facts, n - 1) || shows_recording(
        context,
        processes[n - 1],
        facts[n - 1],
    ))
}

/// The entries of `list` that are not named `name`.
pub open spec fn not_named(list: Seq<Arc<ScannedEntry>>, name: Seq<char>) -> Seq<Arc<ScannedEntry>>
    decreases list.len(),
{
    if list.len() == 0 {
        list
    } else if list.last().name@ == name {
        not_named(list.drop_last(), name)
    } else {
        not_named(list.drop_last(), name).push(list.last())
    }
}

/// Removing overrides by name undoes that they were appended: the earlier
/// overrides, of other names, are left as they were.
pub proof fn law_remove_undoes_append(
    custom: Seq<Arc<ScannedEntry>>,
    added: Seq<Arc<ScannedEntry>>,
    name: Seq<char>,
)
    requires
        forall|i: int| 0 <= i < custom.len() ==> (#[trigger] custom[i]).name@ != name,
        forall|i: int| 0 <= i < added.len() ==> (#[trigger] added[i]).name@ == name,
    ensures
        not_named(custom + added, name) == custom,
    decreases custom.len() + added.len(),
{
    let all = custom + added;
    if added.len() > 0 {
        let fewer = added.drop_last();
        assert(all.drop_last() =~= custom + fewer);
        assert(all.last() == added[added.len() - 1]);
        assert forall|i: int| 0 <= i < fewer.len() implies (#[trigger] fewer[i]).name@ == name by {
            assert(fewer[i] == added[i]);
        }
        law_remove_undoes_append(custom, fewer, name);
    } else if custom.len() > 0 {
        let fewer = custom.drop_last();
        assert(all =~= custom);
        assert(fewer + added =~= fewer);
        assert forall|i: int| 0 <= i < fewer.len() implies (#[trigger] fewer[i]).name@ != name by {
            assert(fewer[i] == custom[i]);
        }
        assert(custom[custom.len() - 1].name@ != name);
        law_remove_undoes_append(fewer, added, name);
        assert(fewer.push(custom.last()) =~= custom);
    } else {
        assert(all =~= custom);
    }
}

/// Another vector of handles on the same entries.
fn share_all(list: &Vec<Arc<ScannedEntry>>) -> (r: Vec<Arc<ScannedEntry>>)
    ensures
        r@ == list@,
{
    let mut out: Vec<Arc<ScannedEntry>> = Vec::new();
    let mut i: usize = 0;
    while i < list.len()
        invariant
            i <= list@.len(),
            out@ == list@.take(i as int),
        decreases list@.len() - i,
    {
        out.push(share(&list[i]));
        i = i + 1;
        assert(out@ == list@.take(i as int));
    }
    assert(list@.take(list@.len() as int) == list@);
    out
}

/// Process detection.
pub struct ProcessServer {
    /// The current generation. Readers that hold an older one keep it whole.
    pub detectables: Arc<DetectablesBundle>,
    pub context: Context,
    /// Applications that are never published.
    pub ignored_ids: IdSet,
    /// Whether the event watcher is wanted.
    pub enable_proc_events: bool,
    /// Whether the event watcher is believed up.
    pub watcher_live: bool,
    /// Processes of the detected games.
    pub detected_pids: HashSet<u64>,
    /// Whether the next scan must publish its whole table.
    pub scan_dirty: bool,
    pub scanning: bool,
    pub started: bool,
    pub shutdown: bool,
}

impl ProcessServer {
    /// The current generation is whole.
    pub open spec fn wf(self) -> bool {
        self.detectables.wf()
    }

    /// A server with a first generation.
    pub fn new_with_custom(
        detectable: Vec<DetectableActivity>,
        custom: Vec<DetectableActivity>,
        ignored_ids: Vec<String>,
        platform: Platform,
    ) -> (r: Self)
        ensures
            r.wf(),
            r.fresh(ignored_ids@, platform),
            if generation_builds(game_bodies(detectable@), game_bodies(custom@), platform) {
                slim_list(r.detectables.list@, detectable@) && slim_list(
                    r.detectables.custom@,
                    custom@,
                )
            } else {
                r.detectables.list@.len() == 0 && r.detectables.custom@.len() == 0
            },
    {
        let list = slim_entries(detectable);
        let overrides = slim_entries(custom);
        proof {
            lemma_bodies(list@, detectable@);
            lemma_bodies(overrides@, custom@);
        }
        let built = build_bundle(list, overrides, platform);
        ProcessServer::with_generation(built, ignored_ids, platform)
    }

    /// Whether nothing happened on this server yet.
    pub open spec fn fresh(self, ignored_ids: Seq<String>, platform: Platform) -> bool {
        &&& self.detectables.platform == platform
        &&& forall|id: Seq<char>|
            self.ignored_ids@.contains(id) <==> #[trigger] texts(ignored_ids).contains(id)
        &&& self.enable_proc_events
        &&& !self.watcher_live && !self.scan_dirty && !self.scanning && !self.started
        &&& !self.shutdown
        &&& self.detected_pids@ == Set::<u64>::empty()
        &&& self.context.exclusions.names@.len() == 0
        &&& self.context.steam_libraries.dirs@.len() == 0
    }

    /// A server with a generation that was built; with the empty one where
    /// that failed.
    pub fn with_generation(
        built: Result<DetectablesBundle, BundleError>,
        ignored_ids: Vec<String>,
        platform: Platform,
    ) -> (r: Self)
        requires
            built matches Ok(bundle) ==> bundle.platform == platform,
        ensures
            match built {
                Ok(bundle) => *r.detectables == bundle,
                Err(_) => r.wf() && r.detectables.list@.len() == 0
                    && r.detectables.custom@.len() == 0,
            },
            r.fresh(ignored_ids@, platform),
    {
        let bundle = match built {
            Ok(bundle) => bundle,
            Err(_) => DetectablesBundle::empty(platform),
        };
        let mut ids = IdSet::new();
        let ghost all = texts(ignored_ids@);
        let mut i: usize = 0;
        while i < ignored_ids.len()
            invariant
                i <= ignored_ids@.len(),
                all == texts(ignored_ids@),
                forall|id: Seq<char>|
                    ids@.contains(id) <==> #[trigger] all.take(i as int).contains(id),
            decreases ignored_ids@.len() - i,
        {
            let ghost before = ids@;
            let id = ignored_ids[i].clone();
            let ghost shown = id@;
            let new = ids.insert(id);
            assert forall|o: Seq<char>| ids@.contains(o) <==> #[trigger] all.take(i + 1).contains(
                o,
            ) by {
                lemma_push_contains(before, shown, o);
                lemma_push_contains(all.take(i as int), shown, o);
                assert(all.take(i + 1) == all.take(i as int).push(shown));
                assert(before.contains(o) <==> all.take(i as int).contains(o));
            }
            i = i + 1;
        }
        assert(all.take(all.len() as int) == all);
        ProcessServer {
            detectables: Arc::new(bundle),
            context: Context {
                exclusions: Exclusions { names: IdSet::new() },
                steam_libraries: SteamLibraries { dirs: Vec::new() },
            },
            ignored_ids: ids,
            enable_proc_events: true,
            watcher_live: false,
            detected_pids: HashSet::new(),
            scan_dirty: false,
            scanning: false,
            started: false,
            shutdown: false,
        }
    }

    /// Opt out of the event watcher, or in again.
    pub fn set_proc_events(&mut self, enable: bool)
        ensures
            *final(self) == (ProcessServer { enable_proc_events: enable, ..*old(self) }),
    {
        self.enable_proc_events = enable;
    }

    /// Replace the exclusions.
    pub fn set_exclusions(&mut self, exclusions: Exclusions)
        ensures
            final(self).context.exclusions == exclusions,
            final(self).context.steam_libraries == old(self).context.steam_libraries,
            *final(self) == (ProcessServer { context: final(self).context, ..*old(self) }),
    {
        self.context.exclusions = exclusions;
    }

    /// Replace the launcher's libraries.
    pub fn set_steam_libraries(&mut self, libraries: SteamLibraries)
        ensures
            final(self).context.steam_libraries == libraries,
            final(self).context.exclusions == old(self).context.exclusions,
            *final(self) == (ProcessServer { context: final(self).context, ..*old(self) }),
    {
        self.context.steam_libraries = libraries;
    }

    /// Id of the game whose install directory `normalized_path` lies in.
    pub fn steam_prefix_app_id(&self, normalized_path: &str) -> (r: Option<String>)
        ensures
            crate::json::opt_text(r) == library_id(
                dirs_view(self.context.steam_libraries.dirs@),
                normalized_path@,
            ),
    {
        match self.context.steam_libraries.match_prefix(normalized_path) {
            Some(id) => Some(id.to_owned()),
            None => None,
        }
    }

    /// The current generation.
    pub fn bundle(&self) -> (r: Arc<DetectablesBundle>)
        ensures
            r == self.detectables,
    {
        share(&self.detectables)
    }

    /// Install a generation that was built; keep the current one otherwise.
    /// Whether it was installed.
    pub fn install(&mut self, built: Result<DetectablesBundle, BundleError>) -> (r: bool)
        ensures
            r == (built is Ok),
            match built {
                Ok(bundle) => *final(self).detectables == bundle,
                Err(_) => final(self).detectables == old(self).detectables,
            },
            *final(self) == (ProcessServer { detectables: final(self).detectables, ..*old(self) }),
    {
        match built {
            Ok(bundle) => {
                self.detectables = Arc::new(bundle);
                true
            },
            Err(_) => false,
        }
    }

    /// Replace the main list and keep the overrides. An empty list is
    /// refused: it would blind detection. Whether the list was installed.
    pub fn update_main_detectables(&mut self, detectable: Vec<DetectableActivity>) -> (r: bool)
        requires
            old(self).wf(),
        ensures
            final(self).wf(),
            r == (detectable@.len() > 0 && generation_builds(
                game_bodies(detectable@),
                bodies(old(self).detectables.custom@),
                old(self).detectables.platform,
            )),
            r ==> slim_list(final(self).detectables.list@, detectable@)
                && final(self).detectables.custom@ == old(self).detectables.custom@,
            final(self).detectables.platform == old(self).detectables.platform,
            !r ==> final(self).detectables == old(self).detectables,
            *final(self) == (ProcessServer { detectables: final(self).detectables, ..*old(self) }),
    {
        if detectable.len() == 0 {
            return false;
        }
        let custom = share_all(&self.detectables.custom);
        let list = slim_entries(detectable);
        proof {
            lemma_bodies(list@, detectable@);
        }
        let built = build_bundle(list, custom, self.detectables.platform);
        self.install(built)
    }

    /// Add overrides behind the current ones. Whether they were installed.
    pub fn append_detectables(&mut self, detectable: Vec<DetectableActivity>) -> (r: bool)
        requires
            old(self).wf(),
        ensures
            final(self).wf(),
            r ==> final(self).detectables.list@ == old(self).detectables.list@ && exists|
                added: Seq<Arc<ScannedEntry>>,
            |
                #[trigger] slim_list(added, detectable@) && final(self).detectables.custom@
                    == old(self).detectables.custom@ + added,
            r == generation_builds(
                bodies(old(self).detectables.list@),
                bodies(old(self).detectables.custom@) + game_bodies(detectable@),
                old(self).detectables.platform,
            ),
            final(self).detectables.platform == old(self).detectables.platform,
            !r ==> final(self).detectables == old(self).detectables,
            *final(self) == (ProcessServer { detectables: final(self).detectables, ..*old(self) }),
    {
        let list = share_all(&self.detectables.list);
        let mut custom = share_all(&self.detectables.custom);
        let mut added = slim_entries(detectable);
        let ghost new = added@;
        let ghost before = custom@;
        custom.append(&mut added);
        assert(slim_list(new, detectable@));
        proof {
            lemma_bodies(new, detectable@);
            assert(bodies(custom@) =~= bodies(before) + bodies(new));
        }
        let built = build_bundle(list, custom, self.detectables.platform);
        self.install(built)
    }

    /// Drop the overrides with a display name. Whether the rest was
    /// installed.
    pub fn remove_detectable_by_name(&mut self, name: &str) -> (r: bool)
        requires
            old(self).wf(),
        ensures
            final(self).wf(),
            r ==> final(self).detectables.list@ == old(self).detectables.list@
                && final(self).detectables.custom@ == not_named(
                old(self).detectables.custom@,
                name@,
            ),
            r == generation_builds(
                bodies(old(self).detectables.list@),
                bodies(not_named(old(self).detectables.custom@, name@)),
                old(self).detectables.platform,
            ),
            final(self).detectables.platform == old(self).detectables.platform,
            !r ==> final(self).detectables == old(self).detectables,
            *final(self) == (ProcessServer { detectables: final(self).detectables, ..*old(self) }),
    {
        let list = share_all(&self.detectables.list);
        let mut custom: Vec<Arc<ScannedEntry>> = Vec::new();
        let ghost all = self.detectables.custom@;
        let mut i: usize = 0;
        assert(all.take(0) == Seq::<Arc<ScannedEntry>>::empty());
        while i < self.detectables.custom.len()
            invariant
                *self == *old(self),
                i <= self.detectables.custom@.len(),
                all == self.detectables.custom@,
                custom@ == not_named(all.take(i as int), name@),
            decreases self.detectables.custom@.len() - i,
        {
            assert(all.take(i + 1).drop_last() == all.take(i as int));
            assert(all.take(i + 1).last() == all[i as int]);
            if !same(self.detectables.custom[i].name.as_str(), name) {
                custom.push(share(&self.detectables.custom[i]));
            }
            i = i + 1;
        }
        assert(all.take(all.len() as int) == all);
        let built = build_bundle(list, custom, self.detectables.platform);
        self.install(built)
    }

    /// Single probe of a reversed path: the overrides, then the main list.
    pub fn ac_probe(&self, reversed_path: &str, bundle: &DetectablesBundle) -> (r: Option<
        (Arc<ScannedEntry>, usize),
    >)
        requires
            bundle.wf(),
        ensures
            found_view(r) == match probe_one(bundle.overrides, bundle.custom@, reversed_path@) {
                Some(found) => Some(found),
                None => probe_one(bundle.main, bundle.list@, reversed_path@),
            },
    {
        ac_probe(reversed_path, bundle)
    }

    /// Single probe of a reversed path for Windows executables.
    pub fn proton_probe(&self, reversed_path: &str, bundle: &DetectablesBundle) -> (r: Option<
        (Arc<ScannedEntry>, usize),
    >)
        requires
            bundle.wf(),
        ensures
            found_view(r) == probe_one(bundle.proton, bundle.list@, reversed_path@),
    {
        proton_probe(reversed_path, bundle)
    }

    /// Classify one process against a generation.
    pub fn match_process(
        &self,
        process: &Exec,
        bundle: &DetectablesBundle,
        facts: &Facts,
        obs_open: &mut bool,
        match_scratch: &mut MatchScratch,
    ) -> (r: Verdict)
        requires
            bundle.wf(),
        ensures
            verdict_is(
                r,
                classify(*bundle, self.context, *process, *facts),
                process.pid,
                facts.now_ms,
            ),
            *final(obs_open) == (*old(obs_open) || shows_recording(self.context, *process, *facts)),
    {
        match_process(process, bundle, &self.context, facts, obs_open, match_scratch)
    }

    /// One sweep over the process table against the current generation.
    /// Refused while another sweep is in progress; the guard is free again
    /// afterwards.
    pub fn scan_for_processes(
        &mut self,
        processes: &Vec<Exec>,
        facts: &Vec<Facts>,
        match_scratch: &mut MatchScratch,
    ) -> (r: Result<ScanReport, RsrpcError>)
        requires
            old(self).wf(),
            processes@.len() == facts@.len(),
        ensures
            *final(self) == *old(self),
            match r {
                Err(e) => old(self).scanning && e == RsrpcError::ScanInProgress,
                Ok(report) => {
                    &&& !old(self).scanning
                    &&& report.hits@ == games(
                        *old(self).detectables,
                        old(self).context,
                        processes@,
                        facts@,
                        processes@.len() as int,
                    )
                    &&& report.needs@ == readings(
                        *old(self).detectables,
                        old(self).context,
                        processes@,
                        facts@,
                        processes@.len() as int,
                    )
                    &&& report.obs_open == recording(
                        old(self).context,
                        processes@,
                        facts@,
                        processes@.len() as int,
                    )
                },
            },
    {
        let guard = match ScanGuard::try_acquire(&mut self.scanning) {
            Some(guard) => guard,
            None => {
                return Err(RsrpcError::ScanInProgress);
            },
        };
        let bundle = share(&self.detectables);
        let mut hits: Vec<ScannedHit> = Vec::new();
        let mut needs: Vec<(usize, Need)> = Vec::new();
        let mut obs_open = false;
        let mut i: usize = 0;
        while i < processes.len()
            invariant
                i <= processes@.len(),
                processes@.len() == facts@.len(),
                bundle.wf(),
                bundle == self.detectables,
                hits@ == games(*bundle, self.context, processes@, facts@, i as int),
                needs@ == readings(*bundle, self.context, processes@, facts@, i as int),
                obs_open == recording(self.context, processes@, facts@, i as int),
            decreases processes@.len() - i,
        {
            match match_process(
                &processes[i],
                &bundle,
                &self.context,
                &facts[i],
                &mut obs_open,
                match_scratch,
            ) {
                Verdict::Hit(hit) => {
                    hits.push(hit);
                },
                Verdict::Miss => {},
                Verdict::Needs(need) => {
                    needs.push((i, need));
                },
            }
            i = i + 1;
        }
        guard.release(&mut self.scanning);
        Ok(ScanReport { hits, needs, obs_open })
    }

    /// Whether the exit of a process wakes the scan early: only that of a
    /// detected game, and at most once per second. Only an actual wake
    /// forgets the process; a debounced one stays to wake later.
    pub fn should_wake_on_exit(&mut self, pid: u64, since_scan: Duration) -> (r: bool)
        ensures
            r == (old(self).detected_pids@.contains(pid) && since_scan.nanos >= 1_000_000_000),
            final(self).detected_pids@ == if r {
                old(self).detected_pids@.remove(pid)
            } else {
                old(self).detected_pids@
            },
            *final(self) == (ProcessServer {
                detected_pids: final(self).detected_pids,
                ..*old(self)
            }),
    {
        if !self.detected_pids.contains(&pid) {
            return false;
        }
        let due = since_scan.nanos >= 1_000_000_000;
        if due {
            let _ = self.detected_pids.remove(&pid);
        }
        due
    }

    /// Start detection: which threads are to run. Nothing for a second
    /// start, which is ignored. The scan always runs, the refresh where it is
    /// wanted and has a source, the event watcher on Linux unless it was
    /// opted out of.
    pub fn start(&mut self, refresh_enabled: bool, db_url: Option<&str>) -> (r: Option<StartPlan>)
        ensures
            r == if old(self).started {
                None
            } else {
                Some(
                    StartPlan {
                        refresh: refresh_enabled && db_url is Some,
                        watch: old(self).detectables.platform == Platform::Linux && old(self).enable_proc_events,
                    },
                )
            },
            *final(self) == (ProcessServer { started: true, ..*old(self) }),
    {
        if self.started {
            return None;
        }
        self.started = true;
        Some(
            StartPlan {
                refresh: refresh_enabled && db_url.is_some(),
                watch: self.detectables.platform == Platform::Linux && self.enable_proc_events,
            },
        )
    }

    /// Ask every thread to end.
    pub fn shutdown(&mut self)
        ensures
            *final(self) == (ProcessServer { shutdown: true, ..*old(self) }),
    {
        self.shutdown = true;
    }

    /// Whether threads are to end.
    pub fn is_shutting_down(&self) -> (r: bool)
        ensures
            r == self.shutdown,
    {
        self.shutdown
    }
}

/// Whether a failed send must end the calling thread: the receiver is gone,
/// and trying again would never succeed.
pub fn should_exit_on_send_error<E>(result: &Result<(), E>) -> (r: bool)
    ensures
        r == (*result is Err),
{
    result.is_err()
}

proof fn lemma_push_contains(s: Seq<Seq<char>>, y: Seq<char>, x: Seq<char>)
    ensures
        s.push(y).contains(x) <==> s.contains(x) || x == y,
{
    if s.contains(x) {
        let i = choose|i: int| 0 <= i < s.len() && s[i] == x;
        assert(s.push(y)[i] == x);
    }
    if x == y {
        assert(s.push(y)[s.len() as int] == x);
    }
}

} // verus!
