//! What the process table tells, out of raw bytes.
use rsrpc::app_ids::AppIdCache;
use rsrpc::matching::Reading;
use rsrpc::procfs::{
    cmdline_path, process_list_into, read_exec, read_exec_into, read_steam_app_id, Exec,
    ExecScratch, TableEntry, MAX_CMDLINE_BYTES,
};

const CMDLINE: &[u8] = b"/usr/bin/game\0--fast\0level 2\0";

/// `read_exec_into` classifies exactly like `read_exec`: same presence, same
/// pid, same path, same arguments.
#[test]
fn read_exec_into_matches_read_exec() {
    for (pid, cmdline) in [
        (77, CMDLINE.to_vec()),
        (1, b"init\0".to_vec()),
        (2, b"\xff\xfe".to_vec()),
    ] {
        let mut slot = Exec::default();
        let mut scratch = ExecScratch::default();
        scratch.cmdline = cmdline.clone();
        let present = read_exec_into(pid, &mut slot, &mut scratch);
        match read_exec(pid, cmdline) {
            None => assert!(!present, "into() must agree on unreadable pid {pid}"),
            Some(expected) => {
                assert!(present, "into() must agree on readable pid {pid}");
                assert_eq!(slot.pid, expected.pid);
                assert_eq!(slot.path, expected.path);
                assert_eq!(slot.arguments, expected.arguments);
            }
        }
    }
    // Nothing read: both agree on absence without touching buffers.
    let mut slot = Exec::default();
    let mut scratch = ExecScratch::default();
    assert!(!read_exec_into(u64::MAX, &mut slot, &mut scratch));
    assert!(read_exec(u64::MAX, vec![]).is_none());
}

/// A second call with the same pid must not reallocate: scratch pointers and
/// capacities are stable, slot strings keep their buffers.
#[test]
fn read_exec_into_reuses_buffers() {
    let pid = 77;
    let mut slot = Exec::default();
    let mut scratch = ExecScratch::default();
    scratch.cmdline.extend_from_slice(CMDLINE);
    assert!(read_exec_into(pid, &mut slot, &mut scratch));
    let path_ptr = slot.path.as_ptr();
    let path_cap = slot.path.capacity();
    let cmd_ptr = scratch.cmdline.as_ptr();
    let cmd_cap = scratch.cmdline.capacity();
    scratch.cmdline.clear();
    scratch.cmdline.extend_from_slice(CMDLINE);
    assert!(read_exec_into(pid, &mut slot, &mut scratch));
    assert!(
        std::ptr::eq(path_ptr, slot.path.as_ptr()),
        "path buffer moved"
    );
    assert!(
        std::ptr::eq(cmd_ptr, scratch.cmdline.as_ptr()),
        "cmdline buffer moved"
    );
    assert!(slot.path.capacity() >= path_cap);
    assert!(scratch.cmdline.capacity() >= cmd_cap);
}

fn table() -> Vec<TableEntry> {
    [
        ("1", &b"/sbin/init\0"[..]),
        ("self", &b"x\0"[..]),
        ("12", &b""[..]),
        ("77", CMDLINE),
    ]
    .iter()
    .map(|(name, cmdline)| TableEntry {
        name: name.to_string(),
        cmdline: cmdline.to_vec(),
    })
    .collect()
}

/// `process_list_into` reuses the Vec backing and every slot across ticks:
/// same allocation, refreshed contents.
#[test]
fn process_list_into_reuses_slots_across_ticks() {
    let mut processes = Vec::new();
    let mut scratch = ExecScratch::default();
    let filled = process_list_into(&mut processes, table(), &mut scratch);
    assert_eq!(filled, 2);
    assert!(!processes.is_empty(), "some process must be visible");
    assert!(processes[..filled]
        .iter()
        .all(|e| e.pid > 0 && !e.path.is_empty()));
    let backing_ptr = processes.as_ptr();
    let (first_pid, first_path_ptr, first_path_cap) = (
        processes[0].pid,
        processes[0].path.as_ptr(),
        processes[0].path.capacity(),
    );
    let filled = process_list_into(&mut processes, table(), &mut scratch);
    assert_eq!(filled, 2);
    assert!(!processes.is_empty());
    assert!(
        std::ptr::eq(backing_ptr, processes.as_ptr()),
        "Vec backing moved"
    );
    if processes[0].pid == first_pid {
        assert!(
            std::ptr::eq(first_path_ptr, processes[0].path.as_ptr()),
            "slot string buffer moved"
        );
        assert!(processes[0].path.capacity() >= first_path_cap);
    }
    // A smaller table keeps the surplus slots.
    let high = processes.len();
    let filled = process_list_into(&mut processes, Vec::new(), &mut scratch);
    assert_eq!(filled, 0);
    assert_eq!(processes.len(), high);
    assert_eq!(processes[1].pid, 77);
}

#[test]
fn command_lines_split_at_zeros() {
    let exec = read_exec(77, CMDLINE.to_vec()).expect("readable");
    assert_eq!(exec.pid, 77);
    assert_eq!(exec.path, "/usr/bin/game");
    assert_eq!(exec.arguments.as_deref(), Some("--fast level 2 "));
    let bare = read_exec(1, b"game".to_vec()).expect("readable");
    assert_eq!(bare.path, "game");
    assert!(bare.arguments.is_none());
    // Up to the last whole character.
    let torn = read_exec(1, b"ga\xc3".to_vec()).expect("readable");
    assert_eq!(torn.path, "ga");
    let long = read_exec(1, vec![b'a'; MAX_CMDLINE_BYTES + 9]).expect("readable");
    assert_eq!(long.path.len(), MAX_CMDLINE_BYTES);
    let mut scratch = ExecScratch::default();
    cmdline_path(4711, &mut scratch);
    assert_eq!(scratch.path, "/proc/4711/cmdline");
}

#[test]
fn argument_vectors_are_joined() {
    let argv = vec!["game".to_string(), "a".to_string(), "b c".to_string()];
    let exec = Exec::from_argv(3, "/x/game".to_string(), &argv);
    assert_eq!(exec.path, "/x/game");
    assert_eq!(exec.arguments.as_deref(), Some("a b c"));
    let bare = Exec::from_argv(3, String::new(), &vec!["game".to_string()]);
    assert_eq!(bare.arguments.as_deref(), Some(""));
    assert!(Exec::from_argv(3, String::new(), &vec![]).arguments.is_none());
}

#[test]
fn environments_name_the_launcher_id() {
    assert_eq!(
        read_steam_app_id(b"A=1\0SteamAppId= 4508340 \0B=2"),
        Some("4508340".to_string())
    );
    assert_eq!(
        read_steam_app_id(b"SteamAppId=\0SteamAppId=7"),
        Some("7".to_string())
    );
    assert_eq!(read_steam_app_id(b"XSteamAppId=7"), None);
    assert_eq!(read_steam_app_id(b""), None);
}

#[test]
fn stale_readings_are_discarded() {
    let mut cache = AppIdCache::new();
    let (generation, reading) = cache.cached_app_id(5);
    assert!(matches!(reading, Reading::Unread));
    // A new image starts while the old environment is being read.
    cache.drop_appid(5);
    assert!(!cache.finish_read(5, generation, Some("old".to_string())));
    let (generation, reading) = cache.cached_app_id(5);
    assert!(matches!(reading, Reading::Unread));
    assert!(cache.finish_read(5, generation, Some("new".to_string())));
    assert!(cache.finish_read(6, 0, None));
    assert!(matches!(cache.cached_app_id(5).1, Reading::Read(Some(id)) if id == "new"));
    assert!(matches!(cache.cached_app_id(6).1, Reading::Read(None)));
    cache.sweep_dead_appids(&vec![6]);
    assert!(matches!(cache.cached_app_id(5).1, Reading::Unread));
    assert!(matches!(cache.cached_app_id(6).1, Reading::Read(None)));
}
