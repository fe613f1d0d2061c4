//! Process detection: generations, classification, ticks.
use std::sync::Arc;

use rsrpc::detectables::{
    build_bundle, os_matches, slim_entries, BundleError, DetectableActivity, DetectablesBundle,
    Executable, Platform, ScannedEntry, ThirdPartySku,
};
use rsrpc::matching::{
    bare_exe, live_or_none, match_name_or_folder, match_steam_id, path_variants, Exclusions, Facts,
    MatchScratch, Need, Reading, ScannedHit, SteamLibraries, Verdict,
};
use rsrpc::procfs::Exec;
use rsrpc::scan_loop::{
    apply_ignore_list, exec_hit_ignored, first_sightings, FetchOutcome, ProcessDetectedEvent,
    RefreshLoop, RefreshStep, ScanLoop, Validators, WatchLoop, WatchStep, MAX_SEEN_IDS,
};
use rsrpc::server::{should_exit_on_send_error, ProcessServer, ScanGuard};
use rsrpc::slots::{removed_slots, sort_slots};
use rsrpc::table::IdSet;
use rsrpc::time::{idle_wait, scan_cadence, Duration};

fn fixture_server() -> ProcessServer {
    ProcessServer::new_with_custom(vec![], vec![], vec![], Platform::Linux)
}

fn game(id: &str, name: &str, exes: &[(&str, &str)]) -> DetectableActivity {
    DetectableActivity {
        id: id.to_string(),
        name: name.to_string(),
        hook: true,
        executables: exes
            .iter()
            .map(|(name, os)| Executable {
                name: name.to_string(),
                is_launcher: false,
                os: os.to_string(),
                arguments: None,
            })
            .collect(),
        third_party_skus: vec![],
        aliases: vec![],
    }
}

fn custom_entry_named(id: &str) -> DetectableActivity {
    let exe = format!("shared-{id}.exe");
    game(
        id,
        &format!("Shared Generation {id}"),
        &[(exe.as_str(), "win32")],
    )
}

fn custom_entry() -> DetectableActivity {
    custom_entry_named("777")
}

fn custom_db() -> Vec<DetectableActivity> {
    vec![game("424242", "Swap Game", &[("swapgame.exe", "win32")])]
}

fn facts() -> Facts {
    Facts {
        cwd: Reading::Read(None),
        app_id: Reading::Read(None),
        suspended: Reading::Read(false),
        excluded_by_pattern: false,
        now_ms: 5,
    }
}

fn exec(pid: u64, path: &str) -> Exec {
    Exec {
        pid,
        path: path.to_string(),
        arguments: None,
    }
}

fn classify(server: &ProcessServer, process: &Exec, facts: &Facts) -> Verdict {
    let mut obs_open = false;
    let mut scratch = MatchScratch::default();
    let bundle = server.bundle();
    server.match_process(process, &bundle, facts, &mut obs_open, &mut scratch)
}

fn hit_id(verdict: Verdict) -> Option<String> {
    match verdict {
        Verdict::Hit(hit) => Some(hit.entry.id.clone()),
        _ => None,
    }
}

fn entry(id: &str) -> Arc<ScannedEntry> {
    Arc::new(ScannedEntry {
        id: id.to_string(),
        name: id.to_string(),
        executables: Vec::new(),
        steam_ids: Vec::new(),
        aliases: Vec::new(),
    })
}

fn hit(id: &str, pid: u64) -> ScannedHit {
    ScannedHit {
        entry: entry(id),
        pid,
        start: 0,
    }
}

/// `first_sightings` stops growing the set past the cap: detection results
/// still flow, only the "new this boot" report stops.
#[test]
fn first_sightings_stops_at_cap() {
    let hit = |id: &str| ScannedHit::stamp(entry(id), 1);
    let mut seen = IdSet::new();
    let many: Vec<ScannedHit> = (0..MAX_SEEN_IDS + 5)
        .map(|i| hit(&format!("g{i:04}")))
        .collect();
    let reported = first_sightings(&mut seen, &many);
    assert_eq!(reported.len(), MAX_SEEN_IDS);
    assert_eq!(seen.len(), MAX_SEEN_IDS);
    // At cap, even a brand-new id is no longer reported (nor stored).
    let fresh = vec![hit("brand-new")];
    assert!(first_sightings(&mut seen, &fresh).is_empty());
    assert_eq!(seen.len(), MAX_SEEN_IDS);
    // Below cap, novelty still reports.
    let mut small_seen = IdSet::new();
    assert_eq!(first_sightings(&mut small_seen, &fresh).len(), 1);
}

/// Vanished slots (including pid rotations) report once; survivors never do.
#[test]
fn removed_slots_reports_only_vanished_ids() {
    let previous = vec![("a".to_string(), 1), ("b".to_string(), 2)];
    let current = vec![("b".to_string(), 2)];
    assert_eq!(
        removed_slots(&previous, &current),
        vec![("a".to_string(), 1)]
    );
    // Identical tables: nothing to clear (downstream dedups repeats).
    assert!(removed_slots(&current, &current).is_empty());
    assert_eq!(removed_slots(&previous, &vec![]).len(), 2);
    // Pid replacement rotates the card: same id, new pid reports the old
    // pair as removed so the bridge clears before republishing.
    let restarted = vec![("a".to_string(), 9), ("b".to_string(), 2)];
    assert_eq!(
        removed_slots(&previous, &restarted),
        vec![("a".to_string(), 1)]
    );
}

/// A dropped receiver fails sends, and the policy says exit (no retry).
#[test]
fn closed_queue_exits_scan_instead_of_retrying() {
    let (tx, rx) = std::sync::mpsc::channel();
    drop(rx);
    let failed: Result<(), std::sync::mpsc::SendError<ProcessDetectedEvent>> =
        tx.send(ProcessDetectedEvent::cleared());
    assert!(failed.is_err());
    assert!(should_exit_on_send_error(&failed));
}

#[test]
fn delivered_sends_keep_the_scan() {
    let sent: Result<(), u8> = Ok(());
    assert!(!should_exit_on_send_error(&sent));
}

/// Ignored app ids never publish on the EXEC fast path either.
#[test]
fn exec_path_skips_ignored_ids() {
    let hit = ScannedHit::stamp(Arc::new(ScannedEntry::from_owned(custom_entry())), 4242);
    let mut ignored = IdSet::new();
    assert!(ignored.insert("777".to_string()));
    assert!(exec_hit_ignored(&ignored, &hit));
    let empty = IdSet::new();
    assert!(!exec_hit_ignored(&empty, &hit));
}

/// Backoff stretches idle ticks only while the watcher is confirmed live.
#[test]
fn backoff_applies_only_with_live_watcher() {
    let base = Duration::from_secs(5);
    // Polling-only paths (other OSes, disabled/failed watcher) never back
    // off: a short configured interval stays short.
    assert_eq!(scan_cadence(base, 4, false), base);
    assert_eq!(scan_cadence(base, 0, false), base);
    // Live watcher: idle ticks stretch up to the 30s cap.
    assert_eq!(scan_cadence(base, 0, true), base);
    assert_eq!(scan_cadence(base, 4, true), Duration::from_secs(30));
}

#[test]
fn idle_ticks_double_the_wait() {
    let base = Duration::from_secs(5);
    assert_eq!(idle_wait(base, 1), Duration::from_secs(10));
    assert_eq!(idle_wait(base, 2), Duration::from_secs(20));
    assert_eq!(idle_wait(base, 3), Duration::from_secs(30));
    assert_eq!(idle_wait(base, u32::MAX), Duration::from_secs(30));
    assert_eq!(
        idle_wait(Duration::from_millis(10), 10),
        Duration::from_millis(10_240)
    );
}

/// Refused bundle swaps report failure so validators are never committed.
#[test]
fn refused_bundle_swap_reports_failure() {
    // Empty input and failing builds must report failure so the refresh
    // thread keeps its old validators (next hour retries the data instead
    // of trusting tags for a bundle that was never installed).
    let mut server = fixture_server();
    assert!(!server.update_main_detectables(vec![]));
    assert!(server.update_main_detectables(vec![custom_entry()]));
}

/// A failed build keeps the current generation, and a server that starts
/// with one starts empty.
#[test]
fn failed_builds_install_nothing() {
    let mut server = fixture_server();
    assert!(server.append_detectables(vec![custom_entry()]));
    assert!(!server.install(Err(BundleError::Automaton)));
    assert_eq!(server.bundle().custom.len(), 1);
    let server = ProcessServer::with_generation(
        Err(BundleError::Automaton),
        vec!["9".to_string()],
        Platform::Other,
    );
    assert!(server.bundle().list.is_empty());
    assert!(server.ignored_ids.contains("9"));
}

/// `shutdown()` before `start()` is safe.
#[test]
fn shutdown_before_start_is_safe() {
    let mut server = fixture_server();
    server.shutdown();
    assert!(server.is_shutting_down());
    server.shutdown();
    assert!(server.is_shutting_down());
}

/// Appends swap in a new `Arc` generation that classifies immediately.
#[test]
fn append_swaps_in_a_new_classifying_generation() {
    let mut server = fixture_server();
    let before = server.bundle();
    server.append_detectables(custom_db());
    let after = server.bundle();
    // A new Arc: readers holding `before` keep a consistent old snapshot.
    assert!(!Arc::ptr_eq(&before, &after));

    let mut obs_open = false;
    let mut match_scratch = MatchScratch::default();
    let verdict = server.match_process(
        &exec(1, "/games/swapgame.exe"),
        &after,
        &facts(),
        &mut obs_open,
        &mut match_scratch,
    );
    let Verdict::Hit(hit) = verdict else {
        panic!("fresh generation classifies");
    };
    assert_eq!(&*hit.entry.id, "424242");
}

/// Removed entries stop classifying in the swapped generation.
#[test]
fn remove_by_name_drops_the_generation_entry() {
    let mut server = fixture_server();
    server.append_detectables(custom_db());
    server.remove_detectable_by_name("Swap Game");
    let bundle = server.bundle();
    let mut obs_open = false;
    let mut match_scratch = MatchScratch::default();
    assert!(
        matches!(
            server.match_process(
                &exec(1, "/games/swapgame.exe"),
                &bundle,
                &facts(),
                &mut obs_open,
                &mut match_scratch,
            ),
            Verdict::Miss
        ),
        "removed entry must not classify"
    );
}

/// Match scratch buffers survive across classifications: the lowercased path
/// buffer is refilled in place, never reallocated.
#[test]
fn match_scratch_reuses_lowered_buffer() {
    let mut server = fixture_server();
    server.append_detectables(custom_db());
    let bundle = server.bundle();
    let mut obs_open = false;
    let mut match_scratch = MatchScratch::default();
    let exec = exec(1, "/games/swapgame.exe");
    assert!(matches!(
        server.match_process(&exec, &bundle, &facts(), &mut obs_open, &mut match_scratch),
        Verdict::Hit(_)
    ));
    let lowered_ptr = match_scratch.lowered.as_ptr();
    let lowered_cap = match_scratch.lowered.capacity();
    assert!(matches!(
        server.match_process(&exec, &bundle, &facts(), &mut obs_open, &mut match_scratch),
        Verdict::Hit(_)
    ));
    assert!(
        std::ptr::eq(lowered_ptr, match_scratch.lowered.as_ptr()),
        "lowered moved"
    );
    assert!(match_scratch.lowered.capacity() >= lowered_cap);
}

/// Every handle on a server's generation is the same one, and a swap leaves
/// older handles whole.
#[test]
fn appends_accumulate_over_refreshes() {
    let mut server = fixture_server();
    for i in 0..8 {
        assert!(server.append_detectables(vec![custom_entry_named(&format!("{i}"))]));
        assert!(server.update_main_detectables(
            (0..30)
                .map(|k| {
                    let exe = format!("main-{k}.exe");
                    game(
                        &format!("main-{k}"),
                        &format!("Main {k}"),
                        &[(exe.as_str(), "win32")],
                    )
                })
                .collect()
        ));
    }
    assert_eq!(server.bundle().custom.len(), 8);
    assert_eq!(server.bundle().list.len(), 30);
}

#[test]
fn patterns_begin_at_path_components_in_any_case() {
    let mut server = fixture_server();
    assert!(server.update_main_detectables(vec![
        game("1", "One", &[("dir/game", "linux")]),
        game("2", "Two", &[("game", "linux")]),
        game("3", "Three", &[("other.exe", "win32")]),
    ]));
    assert_eq!(
        hit_id(classify(&server, &exec(7, "/opt/Dir/GAME"), &facts())),
        Some("1".to_string())
    );
    assert_eq!(
        hit_id(classify(&server, &exec(7, "/opt/x/game"), &facts())),
        Some("2".to_string())
    );
    assert_eq!(
        hit_id(classify(&server, &exec(7, "/opt/x/mygame"), &facts())),
        None
    );
    // Windows executables run under Linux too, after everything native.
    assert_eq!(
        hit_id(classify(&server, &exec(7, "C:\\Store\\Other.exe"), &facts())),
        Some("3".to_string())
    );
    // A component that only begins with a name is found too.
    assert_eq!(
        hit_id(classify(&server, &exec(7, "/games/run"), &facts())),
        Some("2".to_string())
    );
}

#[test]
fn an_override_wins_over_the_main_list() {
    let mut server = ProcessServer::new_with_custom(
        vec![game("1", "Main", &[("samegame", "linux")])],
        vec![game("2", "Custom", &[("samegame", "linux")])],
        vec![],
        Platform::Linux,
    );
    assert_eq!(
        hit_id(classify(&server, &exec(1, "/games/samegame"), &facts())),
        Some("2".to_string())
    );
    let bundle = server.bundle();
    let found = server.ac_probe("emagemas/semag/", &bundle).expect("found");
    assert_eq!(found.0.id, "2");
    assert!(server.proton_probe("emagemas/semag/", &bundle).is_none());
    // Whatever variant either matches, and whatever platform it is for.
    assert!(server.update_main_detectables(vec![game("main", "M", &[("wow64.exe", "linux")])]));
    assert!(server.append_detectables(vec![game("custom", "C", &[("wow.exe", "win32")])]));
    assert_eq!(
        hit_id(classify(&server, &exec(7, "/x/WOW64.exe"), &facts())),
        Some("custom".to_string())
    );
    assert!(server.remove_detectable_by_name("C"));
    assert_eq!(
        hit_id(classify(&server, &exec(7, "/x/WOW64.exe"), &facts())),
        Some("main".to_string())
    );
}

#[test]
fn suspended_processes_are_absent() {
    let mut server = fixture_server();
    assert!(server.update_main_detectables(vec![game("1", "One", &[("game", "linux")])]));
    let mut asleep = facts();
    asleep.suspended = Reading::Read(true);
    assert!(matches!(
        classify(&server, &exec(7, "/x/game"), &asleep),
        Verdict::Miss
    ));
    let mut unread = facts();
    unread.suspended = Reading::Unread;
    assert!(matches!(
        classify(&server, &exec(7, "/x/game"), &unread),
        Verdict::Needs(Need::Suspended)
    ));
}

#[test]
fn excluded_processes_are_absent() {
    let mut server = fixture_server();
    assert!(server.update_main_detectables(vec![game("1", "One", &[("game", "linux")])]));
    let mut by_pattern = facts();
    by_pattern.excluded_by_pattern = true;
    assert!(matches!(
        classify(&server, &exec(7, "/x/game"), &by_pattern),
        Verdict::Miss
    ));
    let mut names = IdSet::new();
    names.insert("game".to_string());
    server.set_exclusions(Exclusions { names });
    assert!(matches!(
        classify(&server, &exec(7, "/x/game"), &facts()),
        Verdict::Miss
    ));
}

#[test]
fn store_ids_find_games_without_executables() {
    let mut server = fixture_server();
    let mut stored = game("55", "Stored Game", &[]);
    stored.third_party_skus = vec![
        ThirdPartySku {
            distributor: "epic".to_string(),
            id: Some("12".to_string()),
        },
        ThirdPartySku {
            distributor: "steam".to_string(),
            id: Some("4508340".to_string()),
        },
    ];
    assert!(server.update_main_detectables(vec![stored]));
    let mut launched = facts();
    launched.app_id = Reading::Read(Some("4508340".to_string()));
    assert_eq!(
        hit_id(classify(&server, &exec(7, "/x/run"), &launched)),
        Some("55".to_string())
    );
    // The command line gives the id where the environment does not.
    let mut by_args = exec(7, "/x/run");
    by_args.arguments = Some("SteamLaunch AppId=4508340 --".to_string());
    assert_eq!(
        hit_id(classify(&server, &by_args, &facts())),
        Some("55".to_string())
    );
    // Other stores do not count.
    launched.app_id = Reading::Read(Some("12".to_string()));
    assert_eq!(hit_id(classify(&server, &exec(7, "/x/run"), &launched)), None);
    // The install directory names the game as well.
    server.set_steam_libraries(SteamLibraries {
        dirs: vec![("/lib/common/stored".to_string(), "4508340".to_string())],
    });
    assert_eq!(
        server.steam_prefix_app_id("/lib/common/stored/bin/run"),
        Some("4508340".to_string())
    );
    assert_eq!(server.steam_prefix_app_id("/lib/common/stored2/run"), None);
    assert_eq!(
        hit_id(classify(
            &server,
            &exec(7, "/lib/common/stored/bin/run"),
            &facts()
        )),
        Some("55".to_string())
    );
}

#[test]
fn folders_and_stems_find_games_by_name() {
    let mut server = fixture_server();
    let mut named = game("66", "Meccha Chameleon", &[]);
    named.aliases = vec!["Q.U.B.E. Two".to_string()];
    assert!(server.update_main_detectables(vec![named, game("67", "fish", &[])]));
    assert_eq!(
        hit_id(classify(
            &server,
            &exec(7, "/lib/meccha chameleon/run.exe"),
            &facts()
        )),
        Some("66".to_string())
    );
    assert_eq!(
        hit_id(classify(&server, &exec(7, "/lib/fish/run"), &facts())),
        None
    );
}

#[test]
fn tags_name_platforms() {
    assert!(os_matches(Platform::Linux, "linux"));
    assert!(!os_matches(Platform::Linux, "win32"));
    assert!(os_matches(Platform::Windows, "win32"));
    assert!(os_matches(Platform::MacOs, "darwin"));
    assert!(os_matches(Platform::Other, "anything"));
}

#[test]
fn a_scan_reports_hits_in_order_and_is_exclusive() {
    let mut server = fixture_server();
    assert!(server.update_main_detectables(vec![
        game("1", "One", &[("one", "linux")]),
        game("2", "Two", &[("two", "linux")]),
    ]));
    let processes = vec![exec(1, "/x/two"), exec(2, "/x/none"), exec(3, "/x/one")];
    let mut unread = facts();
    unread.cwd = Reading::Unread;
    let all = vec![facts(), facts(), facts()];
    let mut scratch = MatchScratch::default();
    let Ok(report) = server.scan_for_processes(&processes, &all, &mut scratch) else {
        panic!("free guard");
    };
    let ids: Vec<(String, u64)> = report
        .hits
        .iter()
        .map(|h| (h.entry.id.clone(), h.pid))
        .collect();
    assert_eq!(ids, vec![("2".to_string(), 1), ("1".to_string(), 3)]);
    assert!(report.hits.iter().all(|h| h.start == 5));
    assert!(report.needs.is_empty());
    server.scanning = true;
    let Err(busy) = server.scan_for_processes(&processes, &all, &mut scratch) else {
        panic!("held guard");
    };
    assert_eq!(busy.to_string(), "Scanning already in progress");
}

#[test]
fn the_guard_is_exclusive() {
    let mut flag = false;
    let guard = ScanGuard::try_acquire(&mut flag).expect("free");
    assert!(flag);
    assert!(ScanGuard::try_acquire(&mut flag).is_none());
    guard.release(&mut flag);
    assert!(!flag);
    assert!(ScanGuard::try_acquire(&mut flag).is_some());
}

#[test]
fn tracked_exits_wake_at_most_once_per_second() {
    let mut server = fixture_server();
    server.detected_pids.insert(9);
    assert!(!server.should_wake_on_exit(8, Duration::from_secs(5)));
    assert!(!server.should_wake_on_exit(9, Duration::from_millis(999)));
    assert!(server.should_wake_on_exit(9, Duration::from_secs(1)));
    assert!(!server.should_wake_on_exit(9, Duration::from_secs(5)));
}

#[test]
fn a_second_start_is_ignored() {
    let mut server = fixture_server();
    let plan = server.start(true, None).expect("first start");
    assert!(plan.watch);
    assert!(!plan.refresh);
    assert!(server.start(true, Some("http://x")).is_none());
    let mut server = ProcessServer::new_with_custom(vec![], vec![], vec![], Platform::Windows);
    let plan = server.start(true, Some("http://x")).expect("first start");
    assert!(!plan.watch);
    assert!(plan.refresh);
    let mut server = fixture_server();
    server.set_proc_events(false);
    assert!(!server.start(false, Some("http://x")).expect("start").watch);
}

#[test]
fn ticks_publish_changes_only() {
    let mut server =
        ProcessServer::new_with_custom(vec![], vec![], vec!["no".to_string()], Platform::Linux);
    let mut scan = ScanLoop::new();
    let report = scan.tick(&mut server, vec![hit("a", 1), hit("no", 2), hit("b", 3)]);
    assert!(report.first);
    assert_eq!(report.games, 2);
    assert_eq!(report.announced.len(), 2);
    assert_eq!(report.events.len(), 2);
    assert!(server.detected_pids.contains(&1));
    assert!(!server.detected_pids.contains(&2));
    // The same table again, in another order: silence.
    let report = scan.tick(&mut server, vec![hit("b", 3), hit("a", 1)]);
    assert!(!report.first);
    assert!(report.events.is_empty());
    assert!(report.announced.is_empty());
    // One game left.
    let report = scan.tick(&mut server, vec![hit("a", 1)]);
    let removed: Vec<(&str, u64)> = report
        .events
        .iter()
        .filter_map(|e| match e {
            ProcessDetectedEvent::Removed(id, pid) => Some((id.as_str(), *pid)),
            _ => None,
        })
        .collect();
    assert_eq!(removed, vec![("b", 3)]);
    // Nothing left: the table is cleared, and idle ticks count.
    let report = scan.tick(&mut server, vec![]);
    assert!(matches!(
        report.events.last(),
        Some(ProcessDetectedEvent::Cleared)
    ));
    assert_eq!(scan.idle_ticks, 1);
    assert_eq!(
        scan.cadence(Duration::from_secs(5), true),
        Duration::from_secs(10)
    );
    scan.after_wait(true);
    assert_eq!(scan.idle_ticks, 0);
}

#[test]
fn exec_hits_force_the_next_tick() {
    let mut server =
        ProcessServer::new_with_custom(vec![], vec![], vec!["no".to_string()], Platform::Linux);
    assert!(server.on_exec(None).is_none());
    assert!(server.on_exec(Some(hit("no", 4))).is_none());
    assert!(!server.scan_dirty);
    assert!(matches!(
        server.on_exec(Some(hit("a", 5))),
        Some(ProcessDetectedEvent::Detected(_))
    ));
    assert!(server.scan_dirty);
    assert!(server.detected_pids.contains(&5));
    // The game died before the tick: the empty table is still published.
    let mut scan = ScanLoop::new();
    let report = scan.tick(&mut server, vec![]);
    assert_eq!(report.events.len(), 1);
    assert!(matches!(report.events[0], ProcessDetectedEvent::Cleared));
    assert!(!server.scan_dirty);
}

#[test]
fn a_failed_watch_is_tried_again() {
    let mut server = fixture_server();
    let mut watch = WatchLoop::new();
    assert_eq!(watch.before_watch(&mut server), WatchStep::Watch);
    assert!(server.watcher_live);
    assert_eq!(
        watch.after_watch(&mut server, true),
        WatchStep::Retry {
            warn: true,
            wait_secs: 300
        }
    );
    assert!(!server.watcher_live);
    assert_eq!(
        watch.after_watch(&mut server, true),
        WatchStep::Retry {
            warn: false,
            wait_secs: 300
        }
    );
    server.shutdown();
    assert_eq!(watch.before_watch(&mut server), WatchStep::Stop);
    assert_eq!(watch.after_watch(&mut server, true), WatchStep::Stop);
}

#[test]
fn validators_follow_installed_lists_only() {
    let mut server = fixture_server();
    let mut validators = Validators {
        etag: None,
        content_hash: None,
        trimmed_hash: None,
    };
    assert!(!validators.on_fetch(&mut server, FetchOutcome::Unchanged));
    assert!(!validators.on_fetch(&mut server, FetchOutcome::Failed));
    assert!(validators.etag.is_none());
    let refused = FetchOutcome::Updated {
        etag: Some("e1".to_string()),
        content_hash: 1,
        trimmed_hash: 2,
        detectable: vec![],
    };
    assert!(!validators.on_fetch(&mut server, refused));
    assert!(validators.etag.is_none());
    let taken = FetchOutcome::Updated {
        etag: Some("e2".to_string()),
        content_hash: 3,
        trimmed_hash: 4,
        detectable: vec![custom_entry()],
    };
    assert!(validators.on_fetch(&mut server, taken));
    assert_eq!(validators.etag.as_deref(), Some("e2"));
    assert_eq!(validators.content_hash, Some(3));
    assert_eq!(server.bundle().list.len(), 1);
    let same = FetchOutcome::SameContent {
        etag: Some("e3".to_string()),
        content_hash: 5,
        trimmed_hash: 6,
    };
    assert!(!validators.on_fetch(&mut server, same));
    assert_eq!(validators.etag.as_deref(), Some("e3"));
    assert_eq!(validators.trimmed_hash, Some(6));
}

#[test]
fn ignored_hits_are_dropped_in_order() {
    let mut ignored = IdSet::new();
    ignored.insert("b".to_string());
    let kept = apply_ignore_list(vec![hit("a", 1), hit("b", 2), hit("c", 3)], &ignored);
    let ids: Vec<&str> = kept.iter().map(|h| h.entry.id.as_str()).collect();
    assert_eq!(ids, vec!["a", "c"]);
}

#[test]
fn slots_sort_by_either_key() {
    let slots = vec![
        ("b".to_string(), 1),
        ("a".to_string(), 3),
        ("a".to_string(), 2),
    ];
    assert_eq!(
        sort_slots(&slots, false),
        vec![
            ("a".to_string(), 2),
            ("a".to_string(), 3),
            ("b".to_string(), 1)
        ]
    );
    assert_eq!(
        sort_slots(&slots, true),
        vec![
            ("b".to_string(), 1),
            ("a".to_string(), 2),
            ("a".to_string(), 3)
        ]
    );
}

#[test]
fn bundles_keep_their_lists() {
    let list = slim_entries(custom_db());
    let Ok(bundle) = build_bundle(list, vec![], Platform::Linux) else {
        panic!("builds");
    };
    assert_eq!(bundle.list.len(), 1);
    assert!(bundle.overrides.ac.is_none());
    let none = DetectablesBundle::empty(Platform::Linux);
    assert!(none.main.ac.is_none());
}

#[test]
fn store_ids_prefer_the_overrides() {
    let sku = |id: &str| ThirdPartySku {
        distributor: "steam".to_string(),
        id: Some(id.to_string()),
    };
    let mut main = game("main", "Main", &[]);
    main.third_party_skus = vec![sku("10"), sku("5")];
    let mut custom = game("custom", "Custom", &[]);
    custom.third_party_skus = vec![sku("10"), sku("20")];
    let Ok(bundle) = build_bundle(
        slim_entries(vec![main]),
        slim_entries(vec![custom]),
        Platform::Linux,
    ) else {
        panic!("builds");
    };
    let find = |id: Option<&str>, suspended: bool| {
        match_steam_id(
            id,
            7,
            suspended,
            9,
            &bundle.steam_map,
            &bundle.list,
            &bundle.custom,
        )
        .map(|hit| (hit.entry.id.clone(), hit.pid, hit.start))
    };
    assert_eq!(find(Some("5"), false), Some(("main".to_string(), 7, 9)));
    assert_eq!(find(Some("10"), false), Some(("custom".to_string(), 7, 9)));
    assert_eq!(find(Some("20"), false), Some(("custom".to_string(), 7, 9)));
    assert_eq!(find(Some("30"), false), None);
    assert_eq!(find(Some("10"), true), None);
    assert_eq!(find(None, false), None);
}

#[test]
fn titles_are_found_by_stem_folder_and_without_dots() {
    let Ok(bundle) = build_bundle(
        slim_entries(vec![
            game("fish", "How to Fish", &[]),
            game("repo", "R.E.P.O. Ghost Haul", &[]),
            game("exe", "Has Executables", &[("x", "linux")]),
        ]),
        vec![],
        Platform::Linux,
    ) else {
        panic!("builds");
    };
    let find = |path: &str| {
        let mut buffer = String::new();
        match_name_or_folder(
            path,
            7,
            false,
            9,
            &bundle.name_map,
            &bundle.name_map_nodot,
            &bundle.list,
            &mut buffer,
        )
        .map(|hit| hit.entry.id.clone())
    };
    assert_eq!(find("/x/how to fish.exe"), Some("fish".to_string()));
    assert_eq!(find("/x/how to fish/run.exe"), Some("fish".to_string()));
    assert_eq!(find("/x/fish.exe"), None);
    assert_eq!(
        find("/x/r.e.p.o. ghost haul/run.exe"),
        Some("repo".to_string())
    );
    assert_eq!(find("/x/has executables/run"), None);
}

#[test]
fn paths_are_tried_without_marks() {
    assert_eq!(path_variants("/x/wow64.exe"), vec!["/x/wow64.exe", "/x/wow.exe"]);
    assert_eq!(
        path_variants("/x/a.x64"),
        vec!["/x/a.x64", "/x/a.x", "/x/a", "/x/a."]
    );
    assert_eq!(path_variants("/x/a"), vec!["/x/a"]);
    assert_eq!(bare_exe("/game.exe"), Some("game.exe"));
    assert_eq!(bare_exe("/x/game.exe"), None);
    assert_eq!(bare_exe("/"), None);
    let mut server = fixture_server();
    assert!(server.update_main_detectables(vec![game("1", "Wow", &[("wow.exe", "linux")])]));
    assert_eq!(
        hit_id(classify(&server, &exec(7, "/x/wow64.exe"), &facts())),
        Some("1".to_string())
    );
    assert!(live_or_none(&entry("a"), 1, true, 0).is_none());
    assert!(live_or_none(&entry("a"), 1, false, 0).is_some());
}

#[test]
fn bare_executables_are_joined_with_their_directory() {
    let mut server = fixture_server();
    assert!(server.update_main_detectables(vec![game(
        "doom",
        "Doom",
        &[("doom eternal/doom.exe", "linux")]
    )]));
    let mut unread = facts();
    unread.cwd = Reading::Unread;
    assert!(matches!(
        classify(&server, &exec(7, "doom.exe"), &unread),
        Verdict::Needs(Need::Cwd)
    ));
    let mut known = facts();
    known.cwd = Reading::Read(Some("/lib/doom eternal".to_string()));
    assert_eq!(
        hit_id(classify(&server, &exec(7, "doom.exe"), &known)),
        Some("doom".to_string())
    );
    assert_eq!(hit_id(classify(&server, &exec(7, "doom.exe"), &facts())), None);
}

#[test]
fn wanted_arguments_must_be_there() {
    let mut tf = game("tf", "Team", &[("hl2", "linux")]);
    tf.executables[0].arguments = Some("-game tf".to_string());
    let mut server = fixture_server();
    assert!(server.update_main_detectables(vec![tf]));
    let mut process = exec(7, "/x/hl2");
    assert_eq!(hit_id(classify(&server, &process, &facts())), None);
    process.arguments = Some("-steam -game tf -x".to_string());
    assert_eq!(
        hit_id(classify(&server, &process, &facts())),
        Some("tf".to_string())
    );
}

#[test]
fn recording_software_is_noticed_unless_excluded() {
    let mut server = fixture_server();
    let mut scratch = MatchScratch::default();
    let processes = vec![exec(1, "/usr/bin/obs64")];
    let all = vec![facts()];
    let Ok(report) = server.scan_for_processes(&processes, &all, &mut scratch) else {
        panic!("free guard");
    };
    assert!(report.obs_open);
    let mut names = IdSet::new();
    names.insert("obs64".to_string());
    server.set_exclusions(Exclusions { names });
    let Ok(report) = server.scan_for_processes(&processes, &all, &mut scratch) else {
        panic!("free guard");
    };
    assert!(!report.obs_open);
}

#[test]
fn the_database_is_asked_for_every_hour() {
    let mut server = fixture_server();
    let mut refresh = RefreshLoop::new();
    assert_eq!(refresh.next(&server), RefreshStep::Prime);
    assert_eq!(refresh.next(&server), RefreshStep::Wait { secs: 3600 });
    assert_eq!(refresh.next(&server), RefreshStep::Fetch);
    refresh.after_fetch(false);
    assert_eq!(refresh.next(&server), RefreshStep::Wait { secs: 3600 });
    assert_eq!(refresh.next(&server), RefreshStep::Fetch);
    refresh.after_fetch(true);
    assert_eq!(refresh.next(&server), RefreshStep::Wait { secs: 60 });
    assert_eq!(refresh.next(&server), RefreshStep::Trim);
    assert_eq!(refresh.next(&server), RefreshStep::Wait { secs: 3600 });
    server.shutdown();
    assert_eq!(refresh.next(&server), RefreshStep::Stop);
}
