use boppo::credential_store::{CredentialStore, DeviceCredentials};
use boppo::device::DiscoveredDevice;
use boppo::listing::DirEntry;
use boppo::wifi::{
    MusicFile, Output, WifiCommand, WifiReply, WifiRequest, WifiSession, WifiState, WifiStep,
    MUSIC_DIR,
};

fn text(s: &str) -> WifiReply {
    WifiReply::Text(s.to_owned())
}

fn store() -> CredentialStore {
    let mut s = CredentialStore::default();
    s.set_device(
        "1".to_owned(),
        DeviceCredentials { password: "one".to_owned(), nickname: Some("kitchen".to_owned()) },
    );
    s.set_default("1".to_owned());
    s
}

fn shown(step: &WifiStep) -> Vec<String> {
    step.output
        .iter()
        .map(|o| match o {
            Output::Line(s) => format!("out: {}", s),
            Output::Part(s) => format!("part: {}", s),
            Output::Note(s) => format!("err: {}", s),
        })
        .collect()
}

/// A session whose client was just made, and the step after that.
fn connected(command: WifiCommand, s: &mut CredentialStore) -> (WifiSession, WifiStep) {
    let mut session = WifiSession::new(command);
    let step = session.step(s, &None, WifiReply::Done);
    assert!(step.output.is_empty());
    match step.request {
        WifiRequest::Connect { url, password } => {
            assert_eq!(url, "https://boppo-1.local");
            assert_eq!(password, "one");
        }
        _ => panic!("a client is asked for first"),
    }
    let step = session.step(s, &None, WifiReply::Done);
    (session, step)
}

fn assert_finished(session: &WifiSession, step: &WifiStep) {
    assert!(matches!(step.request, WifiRequest::Finish));
    assert!(matches!(session.state, WifiState::Over));
}

#[test]
fn without_a_device_a_command_fails() {
    let mut s = CredentialStore::default();
    let mut session = WifiSession::new(WifiCommand::LsDir { path: "/".to_owned() });
    let step = session.step(&mut s, &Some("x".to_owned()), WifiReply::Done);
    match step.request {
        WifiRequest::Fail { message } => {
            assert_eq!(message, "device 'x' not found in credential store")
        }
        _ => panic!("there is no device"),
    }
    assert!(matches!(session.state, WifiState::Over));
}

#[test]
fn a_directory_is_synchronised() {
    let mut s = store();
    let command = WifiCommand::SyncDir {
        host_dir: "h".to_owned(),
        device_dir: "d".to_owned(),
        delete: true,
        dry_run: true,
        verbose: true,
    };
    let (mut session, step) = connected(command, &mut s);
    assert_eq!(shown(&step), ["err: Dry run..."]);
    match step.request {
        WifiRequest::SyncDir { host_dir, device_dir, delete, dry_run, verbose } => {
            assert_eq!((host_dir.as_str(), device_dir.as_str()), ("h", "d"));
            assert!(delete && dry_run && verbose);
        }
        _ => panic!("the directory is synchronised"),
    }
    let step = session.step(&mut s, &None, WifiReply::Done);
    assert_eq!(shown(&step), ["err: Done syncing all files."]);
    assert_finished(&session, &step);
}

#[test]
fn a_file_is_uploaded() {
    let mut s = store();
    let command =
        WifiCommand::UploadFile { host_path: "a.txt".to_owned(), device_path: "/b".to_owned() };
    let (mut session, step) = connected(command, &mut s);
    match step.request {
        WifiRequest::ReadFile { path, context } => {
            assert_eq!(path, "a.txt");
            assert_eq!(context, "failed to read a.txt");
        }
        _ => panic!("the file is read"),
    }
    let step = session.step(&mut s, &None, WifiReply::Contents(vec![1, 2]));
    match step.request {
        WifiRequest::Upload { device_path, data } => {
            assert_eq!(device_path, "/b");
            assert_eq!(data, [1, 2]);
        }
        _ => panic!("the file is uploaded"),
    }
    let step = session.step(&mut s, &None, WifiReply::Done);
    assert_eq!(shown(&step), ["err: Uploaded a.txt -> /b"]);
    assert_finished(&session, &step);
}

#[test]
fn music_is_uploaded_under_sanitized_names() {
    assert_eq!(MUSIC_DIR, "/sd/activities/user/music");
    let mut s = store();
    let file = |display: &str, name: Option<&str>| MusicFile {
        display: display.to_owned(),
        file_name: name.map(|n| n.to_owned()),
    };
    let command = WifiCommand::UploadMusic {
        files: vec![file("m/what?.mp3", Some("what?.mp3")), file("m/..", None)],
    };
    let (mut session, step) = connected(command, &mut s);
    match step.request {
        WifiRequest::ReadMusicFile { index, context } => {
            assert_eq!(index, 0);
            assert_eq!(context, "failed to read m/what?.mp3");
        }
        _ => panic!("the first file is read"),
    }
    let step = session.step(&mut s, &None, WifiReply::Contents(vec![9]));
    match step.request {
        WifiRequest::Upload { device_path, data } => {
            assert_eq!(device_path, "/sd/activities/user/music/what.mp3");
            assert_eq!(data, [9]);
        }
        _ => panic!("the first file is uploaded"),
    }
    let step = session.step(&mut s, &None, WifiReply::Done);
    assert_eq!(
        shown(&step),
        ["err: Uploaded m/what?.mp3 -> /sd/activities/user/music/what.mp3"]
    );
    match step.request {
        WifiRequest::Fail { message } => assert_eq!(message, "invalid file name: m/.."),
        _ => panic!("the second file has no name"),
    }
    let (session, step) = connected(WifiCommand::UploadMusic { files: vec![] }, &mut s);
    assert_finished(&session, &step);
}

#[test]
fn a_file_is_downloaded() {
    let mut s = store();
    let command =
        WifiCommand::DownloadFile { device_path: "/b".to_owned(), host_path: "a".to_owned() };
    let (mut session, step) = connected(command, &mut s);
    assert!(matches!(step.request, WifiRequest::Download { device_path } if device_path == "/b"));
    let step = session.step(&mut s, &None, WifiReply::Contents(vec![0; 12]));
    match step.request {
        WifiRequest::WriteFile { path, data, context } => {
            assert_eq!(path, "a");
            assert_eq!(data.len(), 12);
            assert_eq!(context, "failed to write a");
        }
        _ => panic!("the file is written"),
    }
    let step = session.step(&mut s, &None, WifiReply::Done);
    assert_eq!(shown(&step), ["err: Downloaded /b -> a (12 bytes)"]);
    assert_finished(&session, &step);
}

#[test]
fn a_directory_is_listed() {
    let mut s = store();
    let (mut session, step) = connected(WifiCommand::LsDir { path: "/sd".to_owned() }, &mut s);
    assert!(matches!(step.request, WifiRequest::ReadDir { path } if path == "/sd"));
    let entries = vec![
        DirEntry { name: "docs".to_owned(), size: 0, is_dir: true },
        DirEntry { name: "a.txt".to_owned(), size: 1234, is_dir: false },
    ];
    let step = session.step(&mut s, &None, WifiReply::Entries(entries));
    assert_eq!(shown(&step), ["out: d          0  docs", "out: f       1234  a.txt"]);
    assert_finished(&session, &step);
    let (mut session, _) = connected(WifiCommand::LsDir { path: "/sd".to_owned() }, &mut s);
    let step = session.step(&mut s, &None, WifiReply::Entries(vec![]));
    assert_eq!(shown(&step), ["out: (empty)"]);
}

#[test]
fn a_file_is_removed_and_a_command_is_run() {
    let mut s = store();
    let (mut session, step) = connected(WifiCommand::RmFile { path: "/x".to_owned() }, &mut s);
    assert!(matches!(step.request, WifiRequest::RemoveFile { path } if path == "/x"));
    let step = session.step(&mut s, &None, WifiReply::Done);
    assert_eq!(shown(&step), ["err: Removed /x"]);
    assert_finished(&session, &step);
    let command = WifiCommand::ExecuteCommand { command: "ls".to_owned() };
    let (mut session, step) = connected(command, &mut s);
    assert!(matches!(step.request, WifiRequest::RunCommand { command } if command == "ls"));
    let step = session.step(&mut s, &None, text("a\nb"));
    assert_eq!(shown(&step), ["part: a\nb"]);
    assert_finished(&session, &step);
}

#[test]
fn pairing_registers_the_device() {
    let mut s = store();
    let mut session = WifiSession::new(WifiCommand::Pair { serial: "1".to_owned() });
    let step = session.step(&mut s, &None, WifiReply::Done);
    assert_eq!(shown(&step), ["err: Pairing with device 1..."]);
    assert!(matches!(step.request, WifiRequest::Pair { serial } if serial == "1"));
    let step = session.step(&mut s, &None, text("new"));
    match step.request {
        WifiRequest::Ask { question } => {
            assert_eq!(question, "Nickname (Enter to keep \"kitchen\"): ")
        }
        _ => panic!("the nickname is asked for"),
    }
    assert_eq!(s.get_device("1").unwrap().password, "one");
    let step = session.step(&mut s, &None, text("\n"));
    assert!(matches!(step.request, WifiRequest::SaveStore));
    let c = s.get_device("1").unwrap();
    assert_eq!(c.password, "new");
    assert_eq!(c.nickname, Some("kitchen".to_owned()));
    let step = session.step(&mut s, &None, WifiReply::Done);
    assert_eq!(shown(&step), ["out: Device 1 paired and saved."]);
    assert_finished(&session, &step);
}

#[test]
fn discovered_devices_are_offered_one_by_one() {
    let mut s = store();
    s.clear_default();
    let mut session = WifiSession::new(WifiCommand::DiscoverDevices);
    let step = session.step(&mut s, &None, WifiReply::Done);
    assert_eq!(shown(&step), ["err: Searching for Boppo devices (5s)..."]);
    assert!(matches!(step.request, WifiRequest::Browse));
    let device = |serial: &str, name: &str| DiscoveredDevice {
        serial: serial.to_owned(),
        device_name: name.to_owned(),
    };
    let found =
        vec![device("1", "A"), device("2", "B"), device("3", "C"), device("2", "B"), device("4", "D")];
    let step = session.step(&mut s, &None, WifiReply::Found(found));
    assert_eq!(
        shown(&step),
        ["out:   1 \"A\" [already in store]", "out:   2 \"B\" [not paired]"]
    );
    match &step.request {
        WifiRequest::Ask { question } => assert_eq!(question, "Pair with this device? [Y/n] "),
        _ => panic!("the user is asked"),
    }
    let step = session.step(&mut s, &None, text("y\n"));
    assert!(matches!(step.request, WifiRequest::Pair { serial } if serial == "2"));
    let step = session.step(&mut s, &None, text("pw"));
    match step.request {
        WifiRequest::Ask { question } => {
            assert_eq!(question, "Nickname for this device (Enter for \"B\"): ")
        }
        _ => panic!("the nickname is asked for"),
    }
    let step = session.step(&mut s, &None, text(""));
    assert_eq!(shown(&step), ["out: Set as default device."]);
    assert!(matches!(step.request, WifiRequest::SaveStore));
    assert_eq!(s.default, Some("2".to_owned()));
    assert_eq!(s.get_device("2").unwrap().nickname, Some("B".to_owned()));
    let step = session.step(&mut s, &None, WifiReply::Done);
    assert_eq!(
        shown(&step),
        ["out: Device 2 paired and saved.", "out:   3 \"C\" [not paired]"]
    );
    let step = session.step(&mut s, &None, text("n"));
    assert_eq!(
        shown(&step),
        ["out:   2 \"B\" [already in store]", "out:   4 \"D\" [not paired]"]
    );
    session.step(&mut s, &None, text("Y"));
    session.step(&mut s, &None, text("pw4"));
    let step = session.step(&mut s, &None, text("den"));
    assert!(step.output.is_empty());
    assert_eq!(s.default, Some("2".to_owned()));
    assert_eq!(s.resolve_device("den").unwrap().0, "4");
    let step = session.step(&mut s, &None, WifiReply::Done);
    assert_eq!(shown(&step), ["out: Device 4 paired and saved."]);
    assert_finished(&session, &step);
    assert!(s.get_device("3").is_none());
}

#[test]
fn finding_no_device_is_reported() {
    let mut s = store();
    let mut session = WifiSession::new(WifiCommand::DiscoverDevices);
    session.step(&mut s, &None, WifiReply::Done);
    let step = session.step(&mut s, &None, WifiReply::Found(vec![]));
    assert_eq!(shown(&step), ["out: No devices found."]);
    assert_finished(&session, &step);
}

#[test]
fn a_reply_that_does_not_fit_changes_nothing() {
    let mut s = store();
    let mut session = WifiSession::new(WifiCommand::DiscoverDevices);
    let step = session.step(&mut s, &None, text("x"));
    assert!(matches!(step.request, WifiRequest::Unexpected));
    assert!(matches!(session.state, WifiState::Start(_)));
    session.step(&mut s, &None, WifiReply::Done);
    let step = session.step(&mut s, &None, WifiReply::Done);
    assert!(matches!(step.request, WifiRequest::Unexpected));
    assert!(matches!(session.state, WifiState::Browsing));
}
