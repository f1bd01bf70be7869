use boppo::listing::{add_host_entry, device_entries, DirEntry, NonUtf8Name};
use boppo::name_map::NameMap;
use boppo::sync::{
    child, plan_dir, FileAttributes, Reason, Reporting, SyncDir, SyncOptions, SyncTask,
};
use boppo::sync_run::{FailurePoint, SyncAction, SyncEvent, SyncRun};

const PLAIN: Reporting = Reporting::Callbacks { progress: false };

fn options(delete: bool, dry_run: bool, reporting: Reporting) -> SyncOptions {
    SyncOptions { delete, dry_run, reporting }
}

fn entry(name: &str, size: u64, is_dir: bool) -> DirEntry {
    DirEntry { name: name.to_owned(), size, is_dir }
}

fn file(name: &str, size: u64) -> DirEntry {
    entry(name, size, false)
}

fn folder(name: &str) -> DirEntry {
    entry(name, 0, true)
}

/// Directories of one side, by path.
struct Side {
    dirs: Vec<(String, Vec<DirEntry>)>,
}

impl Side {
    fn new() -> Side {
        Side { dirs: Vec::new() }
    }

    fn dir(mut self, path: &str, entries: Vec<DirEntry>) -> Side {
        self.dirs.push((path.to_owned(), entries));
        self
    }

    fn list(&self, path: &str) -> NameMap<FileAttributes> {
        for (p, entries) in &self.dirs {
            if p == path {
                return device_entries(entries);
            }
        }
        NameMap::new()
    }

    fn size(&self, path: &str) -> u64 {
        for (dir, entries) in &self.dirs {
            for e in entries {
                if child(dir, &e.name) == path {
                    return e.size;
                }
            }
        }
        panic!("no such file: {}", path)
    }
}

/// Performs a run against the two sides, and says what it did.
fn drive(host: &Side, device: &Side, host_dir: &str, device_dir: &str, o: SyncOptions) -> Vec<String> {
    let mut log = Vec::new();
    let mut run = SyncRun::new(host_dir, device_dir, o);
    let mut event = SyncEvent::Proceed;
    loop {
        let step = run.step(event);
        for line in &step.lines {
            log.push(format!("line: {}", line));
        }
        event = match step.action {
            SyncAction::List { host_dir, device_dir } => {
                log.push(format!("list {} {}", host_dir, device_dir));
                SyncEvent::Listed { host: host.list(&host_dir), device: device.list(&device_dir) }
            }
            SyncAction::ListDevice { device_dir } => {
                log.push(format!("list {}", device_dir));
                SyncEvent::ListedDevice { device: device.list(&device_dir) }
            }
            SyncAction::Read { host_path } => {
                log.push(format!("read {}", host_path));
                SyncEvent::Read { size: host.size(&host_path) }
            }
            SyncAction::Upload { host_path: _, device_path, perform } => {
                if perform {
                    log.push(format!("upload {}", device_path));
                }
                SyncEvent::Proceed
            }
            SyncAction::Remove { device_path, perform } => {
                if perform {
                    log.push(format!("remove {}", device_path));
                }
                SyncEvent::Proceed
            }
            SyncAction::Done => return log,
            SyncAction::Unexpected => panic!("unexpected event"),
        };
    }
}

/// The requests to the device in a log.
fn requests(log: &[String]) -> Vec<String> {
    log.iter()
        .filter(|l| !l.starts_with("line: ") && !l.starts_with("read "))
        .cloned()
        .collect()
}

#[test]
fn sync_dir_uploads_missing_files() {
    let host = Side::new().dir("/tmp/host", vec![file("hello.txt", b"hello world".len() as u64)]);
    let device = Side::new().dir("/device", vec![]);
    let log = drive(&host, &device, "/tmp/host", "/device", options(false, false, PLAIN));
    assert_eq!(requests(&log), ["list /tmp/host /device", "upload /device/hello.txt"]);
}

#[test]
fn sync_dir_skips_files_with_matching_size() {
    let host = Side::new().dir("/tmp/host", vec![file("same.txt", b"12345".len() as u64)]);
    let device = Side::new().dir("/device", vec![file("same.txt", 5)]);
    let log = drive(&host, &device, "/tmp/host", "/device", options(false, false, PLAIN));
    assert_eq!(requests(&log), ["list /tmp/host /device"]);
}

#[test]
fn sync_dir_reuploads_files_with_different_size() {
    let host = Side::new().dir("/tmp/host", vec![file("changed.txt", b"new content".len() as u64)]);
    let device = Side::new().dir("/device", vec![file("changed.txt", 5)]);
    let log = drive(&host, &device, "/tmp/host", "/device", options(false, false, PLAIN));
    assert_eq!(requests(&log), ["list /tmp/host /device", "upload /device/changed.txt"]);
}

#[test]
fn sync_dir_recurses_into_subdirectories() {
    let host = Side::new()
        .dir("/tmp/host", vec![folder("docs"), file("root.txt", b"root".len() as u64)])
        .dir("/tmp/host/docs", vec![file("readme.txt", b"readme content".len() as u64)]);
    let device = Side::new().dir("/device", vec![folder("docs")]).dir("/device/docs", vec![]);
    let log = drive(&host, &device, "/tmp/host", "/device", options(false, false, PLAIN));
    assert_eq!(
        requests(&log),
        [
            "list /tmp/host /device",
            "upload /device/root.txt",
            "list /tmp/host/docs /device/docs",
            "upload /device/docs/readme.txt",
        ]
    );
}

#[test]
fn sync_dir_deletes_extra_device_files() {
    let host = Side::new().dir("/tmp/host", vec![]);
    let device = Side::new().dir("/device", vec![file("orphan.txt", 100)]);
    let log = drive(&host, &device, "/tmp/host", "/device", options(true, false, PLAIN));
    assert_eq!(requests(&log), ["list /tmp/host /device", "remove /device/orphan.txt"]);
    assert_eq!(
        log,
        ["list /tmp/host /device", "line: Removing /device/orphan.txt", "remove /device/orphan.txt"]
    );
}

#[test]
fn extra_device_files_stay_without_delete() {
    let host = Side::new().dir("h", vec![]);
    let device = Side::new().dir("d", vec![file("orphan.txt", 100)]);
    let log = drive(&host, &device, "h", "d", options(false, false, PLAIN));
    assert_eq!(log, ["list h d"]);
}

#[test]
fn files_in_directories_that_the_host_lacks_are_removed() {
    let host = Side::new().dir("H", vec![]);
    let device = Side::new()
        .dir("/device", vec![folder("old")])
        .dir("/device/old", vec![file("x.txt", 3)]);
    let log = drive(&host, &device, "H", "/device", options(true, false, PLAIN));
    assert_eq!(
        log,
        [
            "list H /device",
            "list /device/old",
            "line: Removing /device/old/x.txt",
            "remove /device/old/x.txt",
        ]
    );
    let log = drive(&host, &device, "H", "/device", options(false, false, PLAIN));
    assert_eq!(log, ["list H /device"]);
    let log = drive(&host, &device, "H", "/device", options(true, true, PLAIN));
    assert_eq!(
        log,
        ["list H /device", "list /device/old", "line: Removing /device/old/x.txt"]
    );
}

#[test]
fn sweeps_go_all_the_way_down_and_directories_stay() {
    let host = Side::new().dir("h", vec![folder("kept")]).dir("h/kept", vec![]);
    let device = Side::new()
        .dir("d", vec![folder("old"), file("a", 1), folder("kept")])
        .dir("d/old", vec![file("b", 2), folder("deep"), folder("empty")])
        .dir("d/old/deep", vec![file("c", 3)])
        .dir("d/old/empty", vec![])
        .dir("d/kept", vec![folder("gone")])
        .dir("d/kept/gone", vec![file("e", 4)]);
    let log = drive(&host, &device, "h", "d", options(true, false, PLAIN));
    assert_eq!(
        requests(&log),
        [
            "list h d",
            "list h/kept d/kept",
            "list d/kept/gone",
            "remove d/kept/gone/e",
            "list d/old",
            "list d/old/deep",
            "remove d/old/deep/c",
            "list d/old/empty",
            "remove d/old/b",
            "remove d/a",
        ]
    );
}

#[test]
fn a_device_directory_with_the_name_of_a_host_file_is_swept() {
    let host = Side::new().dir("h", vec![file("x", 5)]);
    let device = Side::new().dir("d", vec![folder("x")]).dir("d/x", vec![file("y", 1)]);
    let log = drive(&host, &device, "h", "d", options(true, false, PLAIN));
    assert_eq!(requests(&log), ["list h d", "upload d/x", "list d/x", "remove d/x/y"]);
}

#[test]
fn failures_of_a_sweep_name_the_directories_above() {
    let mut run = after_listing(PLAIN);
    run.step(SyncEvent::Listed {
        host: device_entries(&vec![]),
        device: device_entries(&vec![folder("old")]),
    });
    assert_eq!(run.failure(FailurePoint::Other), ["failed to sync host dir: top"]);
    let step = run.step(SyncEvent::Proceed);
    assert!(matches!(step.action, SyncAction::Unexpected));
    let step = run.step(SyncEvent::ListedDevice { device: device_entries(&vec![file("g", 2)]) });
    assert!(matches!(step.action, SyncAction::Remove { device_path, perform: true }
        if device_path == "dev/in/old/g"));
    assert_eq!(
        run.failure(FailurePoint::Other),
        ["failed to sync host dir: top", "failed to remove dev/in/old/g"]
    );
}

#[test]
fn a_dry_run_shows_what_a_run_shows() {
    let host = Side::new()
        .dir("h", vec![file("a", 1), folder("s")])
        .dir("h/s", vec![file("b", 2)]);
    let device = Side::new()
        .dir("d", vec![file("a", 9), folder("old")])
        .dir("d/old", vec![file("c", 3)]);
    for reporting in [PLAIN, Reporting::Console { verbose: true }] {
        let changes = |l: &&String| !l.starts_with("upload ") && !l.starts_with("remove ");
        let log = drive(&host, &device, "h", "d", options(true, false, reporting));
        let dry = drive(&host, &device, "h", "d", options(true, true, reporting));
        let rest: Vec<String> = log.iter().filter(changes).cloned().collect();
        assert_eq!(rest, dry);
        assert_eq!(log.len(), dry.len() + 3);
    }
}

#[test]
fn each_change_is_asked_for_once() {
    let host = Side::new()
        .dir("h", vec![file("a", 1), folder("s")])
        .dir("h/s", vec![file("a", 2)]);
    let device = Side::new()
        .dir("d", vec![folder("old"), file("z", 1)])
        .dir("d/old", vec![file("a", 3), file("z", 1)]);
    let log = drive(&host, &device, "h", "d", options(true, false, PLAIN));
    let changes: Vec<&String> =
        log.iter().filter(|l| l.starts_with("upload ") || l.starts_with("remove ")).collect();
    assert_eq!(
        changes,
        ["upload d/a", "upload d/s/a", "remove d/old/a", "remove d/old/z", "remove d/z"]
    );
}

#[test]
fn host_directory_keeps_device_file_of_its_name() {
    let host = Side::new().dir("h", vec![folder("x")]).dir("h/x", vec![]);
    let device = Side::new().dir("d", vec![file("x", 3)]);
    let log = drive(&host, &device, "h", "d", options(true, false, PLAIN));
    assert_eq!(requests(&log), ["list h d", "list h/x d/x"]);
}

#[test]
fn removals_come_after_what_is_below() {
    let host = Side::new()
        .dir("h", vec![folder("sub"), file("a", 1)])
        .dir("h/sub", vec![file("b", 2)]);
    let device = Side::new()
        .dir("d", vec![file("gone", 9)])
        .dir("d/sub", vec![file("lost", 9)]);
    let log = drive(&host, &device, "h", "d", options(true, false, PLAIN));
    assert_eq!(
        log,
        [
            "list h d",
            "read h/a",
            "line: Uploading h/a -> d/a (1 bytes, file is missing on device)",
            "upload d/a",
            "list h/sub d/sub",
            "read h/sub/b",
            "line: Uploading h/sub/b -> d/sub/b (2 bytes, file is missing on device)",
            "upload d/sub/b",
            "line: Removing d/sub/lost",
            "remove d/sub/lost",
            "line: Removing d/gone",
            "remove d/gone",
        ]
    );
}

#[test]
fn dry_run_only_reports() {
    let host = Side::new().dir("h", vec![file("a", 12)]);
    let device = Side::new().dir("d", vec![file("a", 7), file("b", 1)]);
    let log = drive(
        &host,
        &device,
        "h",
        "d",
        options(true, true, Reporting::Callbacks { progress: true }),
    );
    assert_eq!(
        log,
        [
            "list h d",
            "read h/a",
            "line: Uploading h/a -> d/a (12 bytes, sizes are different)",
            "line: Removing d/b",
        ]
    );
}

#[test]
fn progress_bar_takes_the_place_of_the_line() {
    let host = Side::new().dir("h", vec![file("a", 12)]);
    let device = Side::new();
    let log = drive(
        &host,
        &device,
        "h",
        "d",
        options(false, false, Reporting::Callbacks { progress: true }),
    );
    assert_eq!(log, ["list h d", "read h/a", "upload d/a"]);
}

#[test]
fn console_run_names_directories_and_reports_uploads() {
    let host = Side::new().dir("h", vec![file("a", 12), file("b", 5)]);
    let device = Side::new().dir("d", vec![file("a", 7), file("b", 5), file("c", 1)]);
    let verbose = Reporting::Console { verbose: true };
    let log = drive(&host, &device, "h", "d", options(true, false, verbose));
    assert_eq!(
        log,
        [
            "list h d",
            "line: Syncing h to d",
            "read h/a",
            "line: Uploading 12 bytes from h/a to d/a because sizes are different",
            "upload d/a",
            "line: Removing d/c",
            "remove d/c",
        ]
    );
    let quiet = Reporting::Console { verbose: false };
    let log = drive(&host, &device, "h", "d", options(false, true, quiet));
    assert_eq!(
        log,
        [
            "list h d",
            "read h/a",
            "line: Uploading 12 bytes from h/a to d/a because sizes are different",
        ]
    );
}

#[test]
fn a_second_run_finds_nothing_to_do() {
    let host = Side::new().dir("h", vec![file("a", 12), file("b", 5)]);
    let after = Side::new().dir("d", vec![file("a", 12), file("b", 5)]);
    let log = drive(&host, &after, "h", "d", options(true, false, PLAIN));
    assert_eq!(log, ["list h d"]);
}

fn after_listing(reporting: Reporting) -> SyncRun {
    let mut run = SyncRun::new("top", "dev", options(true, false, reporting));
    run.step(SyncEvent::Proceed);
    run.step(SyncEvent::Listed {
        host: device_entries(&vec![folder("in")]),
        device: device_entries(&vec![]),
    });
    run
}

#[test]
fn failures_name_what_failed_and_where() {
    let run = after_listing(PLAIN);
    assert_eq!(
        run.failure(FailurePoint::HostDir),
        ["failed to sync host dir: top", "failed to read host directory top/in"]
    );
    assert_eq!(run.failure(FailurePoint::Other), ["failed to sync host dir: top"]);

    let mut run = after_listing(PLAIN);
    run.step(SyncEvent::Listed {
        host: device_entries(&vec![file("f", 2)]),
        device: device_entries(&vec![file("g", 2)]),
    });
    assert_eq!(
        run.failure(FailurePoint::Other),
        ["failed to sync host dir: top", "failed to read top/in/f"]
    );
    run.step(SyncEvent::Read { size: 2 });
    assert_eq!(
        run.failure(FailurePoint::Other),
        ["failed to sync host dir: top", "failed to upload top/in/f"]
    );
    run.step(SyncEvent::Proceed);
    assert_eq!(
        run.failure(FailurePoint::Other),
        ["failed to sync host dir: top", "failed to remove dev/in/g"]
    );
}

#[test]
fn console_failures_have_fewer_contexts() {
    let mut run = after_listing(Reporting::Console { verbose: false });
    assert_eq!(run.failure(FailurePoint::HostDir), ["failed to sync host dir: top"]);
    run.step(SyncEvent::Listed {
        host: device_entries(&vec![file("f", 2)]),
        device: device_entries(&vec![file("g", 2)]),
    });
    assert_eq!(
        run.failure(FailurePoint::Other),
        ["failed to sync host dir: top", "failed to upload top/in/f"]
    );
    run.step(SyncEvent::Read { size: 2 });
    run.step(SyncEvent::Proceed);
    assert_eq!(run.failure(FailurePoint::Other), ["failed to sync host dir: top"]);
    let fresh = SyncRun::new("a", "b", options(false, false, PLAIN));
    assert!(fresh.failure(FailurePoint::Other).is_empty());
}

#[test]
fn an_event_that_does_not_fit_changes_nothing() {
    let mut run = SyncRun::new("h", "d", options(false, false, PLAIN));
    let step = run.step(SyncEvent::Read { size: 1 });
    assert!(matches!(step.action, SyncAction::Unexpected));
    let step = run.step(SyncEvent::Proceed);
    assert!(matches!(step.action, SyncAction::List { .. }));
    let step = run.step(SyncEvent::Proceed);
    assert!(matches!(step.action, SyncAction::Unexpected));
    let step = run.step(SyncEvent::Listed { host: NameMap::new(), device: NameMap::new() });
    assert!(matches!(step.action, SyncAction::Done));
}

#[test]
fn a_plan_lists_uploads_then_directories_then_removals() {
    let dir = SyncDir { host_dir: "h".to_owned(), device_dir: "d".to_owned(), trail: Vec::new() };
    let host = device_entries(&vec![folder("s"), file("new", 1), file("old", 2), file("same", 3)]);
    let device = device_entries(&vec![file("old", 9), file("same", 3), file("extra", 4)]);
    let tasks = plan_dir(&dir, true, &host, &device);
    assert_eq!(tasks.len(), 4);
    match &tasks[0] {
        SyncTask::Upload(j) => {
            assert_eq!(j.host_path, "h/new");
            assert_eq!(j.device_path, "d/new");
            assert_eq!(j.reason, Reason::Missing);
        }
        _ => panic!("an upload comes first"),
    }
    match &tasks[1] {
        SyncTask::Upload(j) => assert_eq!(j.reason, Reason::SizesDiffer),
        _ => panic!("an upload comes second"),
    }
    match &tasks[2] {
        SyncTask::Enter(d) => {
            assert_eq!(d.host_dir, "h/s");
            assert_eq!(d.device_dir, "d/s");
            assert_eq!(d.trail, ["h"]);
        }
        _ => panic!("a directory comes third"),
    }
    match &tasks[3] {
        SyncTask::Remove(j) => assert_eq!(j.device_path, "d/extra"),
        _ => panic!("a removal comes last"),
    }
}

#[test]
fn host_entries_with_odd_names_are_refused() {
    let mut entries: NameMap<FileAttributes> = NameMap::new();
    assert_eq!(add_host_entry(&mut entries, Some("a".to_owned()), 4, false), Ok(()));
    assert_eq!(add_host_entry(&mut entries, None, 4, false), Err(NonUtf8Name));
    assert_eq!(NonUtf8Name.message(), "non UTF-8 file name");
    assert_eq!(entries.len(), 1);
    assert_eq!(entries.get("a"), Some(&FileAttributes { size: 4, is_dir: false }));
}

/// The device after the uploads and removals in a log.
fn after(device: &Side, host: &Side, log: &[String]) -> Side {
    let mut dirs: Vec<(String, Vec<DirEntry>)> = device.dirs.clone();
    for line in log {
        if let Some(path) = line.strip_prefix("upload ") {
            let (dir, name) = path.rsplit_once('/').unwrap();
            let size = host.size(&path.replacen('d', "h", 1));
            if !dirs.iter().any(|(p, _)| p == dir) {
                dirs.push((dir.to_owned(), Vec::new()));
            }
            for (p, entries) in &mut dirs {
                if p == dir {
                    entries.retain(|e| e.name != name);
                    entries.push(file(name, size));
                }
            }
        }
        if let Some(path) = line.strip_prefix("remove ") {
            let (dir, name) = path.rsplit_once('/').unwrap();
            for (p, entries) in &mut dirs {
                if p == dir {
                    entries.retain(|e| e.name != name);
                }
            }
        }
    }
    Side { dirs }
}

#[test]
fn a_second_run_over_the_whole_tree_changes_nothing() {
    let host = Side::new()
        .dir("h", vec![file("a", 1), folder("s"), file("same", 7)])
        .dir("h/s", vec![file("b", 2), folder("t")])
        .dir("h/s/t", vec![file("c", 3)]);
    let device = Side::new()
        .dir("d", vec![file("a", 9), file("same", 7), file("x", 1), folder("old"), folder("s")])
        .dir("d/s", vec![file("y", 2)])
        .dir("d/old", vec![file("z", 3), folder("deep")])
        .dir("d/old/deep", vec![file("z", 4)]);
    let o = options(true, false, PLAIN);
    let first = drive(&host, &device, "h", "d", o);
    assert_eq!(first.iter().filter(|l| l.starts_with("upload ")).count(), 3);
    assert_eq!(first.iter().filter(|l| l.starts_with("remove ")).count(), 4);
    let mut listings: Vec<&String> = first.iter().filter(|l| l.starts_with("list ")).collect();
    let all = listings.len();
    listings.sort();
    listings.dedup();
    assert_eq!(listings.len(), all);
    let second = drive(&host, &after(&device, &host, &first), "h", "d", o);
    assert!(second.iter().all(|l| l.starts_with("list ")));
    assert_eq!(second.len(), all);
}
