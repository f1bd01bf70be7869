use boppo::cli::{
    choose_port, chosen_nickname, existing_nickname, get_active_device, is_unauthorized, is_yes,
    list_devices, nickname_prompt, record_repairing, recovery, run_device_command,
    sanitize_file_name, ActiveDeviceError, Cause, DeviceCommand, Recovery,
};
use boppo::credential_store::{CredentialStore, DeviceCredentials};

fn creds(password: &str, nickname: Option<&str>) -> DeviceCredentials {
    DeviceCredentials {
        password: password.to_owned(),
        nickname: nickname.map(|n| n.to_owned()),
    }
}

fn store() -> CredentialStore {
    let mut s = CredentialStore::default();
    s.set_device("1".to_owned(), creds("one", Some("kitchen")));
    s.set_device("2".to_owned(), creds("two", None));
    s
}

#[test]
fn file_names_are_sanitized() {
    assert_eq!(sanitize_file_name("  What's up?/\n song.mp3 "), "Whats up song.mp3");
    assert_eq!(sanitize_file_name("plain.mp3"), "plain.mp3");
    assert_eq!(sanitize_file_name("/?'"), "");
    assert_eq!(sanitize_file_name("' a '"), "a");
    for name in ["  What's up?/\n song.mp3 ", "' a '", "\u{3000}x?"] {
        let once = sanitize_file_name(name);
        assert_eq!(sanitize_file_name(&once), once);
    }
}

#[test]
fn the_device_asked_for_is_active() {
    let mut s = store();
    s.set_default("2".to_owned());
    let (serial, c) = get_active_device(&s, &Some("kitchen".to_owned())).unwrap();
    assert_eq!((serial, c.password.as_str()), ("1", "one"));
    let (serial, c) = get_active_device(&s, &None).unwrap();
    assert_eq!((serial, c.password.as_str()), ("2", "two"));
}

#[test]
fn of_two_devices_with_a_nickname_the_first_is_meant() {
    let mut s = store();
    s.set_device("0".to_owned(), creds("zero", Some("kitchen")));
    let asked = Some("kitchen".to_owned());
    assert_eq!(s.resolve_device("kitchen").unwrap().0, "1");
    assert_eq!(get_active_device(&s, &asked).unwrap().0, "1");
    run_device_command(&mut s, DeviceCommand::SetDefault { identifier: "kitchen".to_owned() })
        .unwrap();
    assert_eq!(s.default.as_deref(), Some("1"));
    run_device_command(&mut s, DeviceCommand::Remove { identifier: "kitchen".to_owned() }).unwrap();
    assert!(s.get_device("1").is_none());
    assert_eq!(get_active_device(&s, &asked).unwrap().0, "0");
}

#[test]
fn without_a_device_there_is_an_error() {
    let s = store();
    match get_active_device(&s, &Some("attic".to_owned())) {
        Err(e) => {
            assert!(matches!(&e, ActiveDeviceError::NotFound(i) if i == "attic"));
            assert_eq!(e.message(), "device 'attic' not found in credential store");
        }
        Ok(_) => panic!("there is no such device"),
    }
    match get_active_device(&s, &None) {
        Err(e) => assert_eq!(
            e.message(),
            "no default device set; use --device or `boppo device set-default`"
        ),
        Ok(_) => panic!("there is no default"),
    }
}

#[test]
fn devices_are_listed() {
    assert_eq!(list_devices(&CredentialStore::default()), ["No devices registered."]);
    let mut s = store();
    s.set_default("1".to_owned());
    let o = run_device_command(&mut s, DeviceCommand::List).unwrap();
    assert!(!o.save);
    assert_eq!(o.lines, ["1 [default] | nickname: kitchen", "2 | nickname: (none)"]);
}

#[test]
fn a_device_is_added() {
    let mut s = store();
    let o = run_device_command(
        &mut s,
        DeviceCommand::Add {
            serial: "3".to_owned(),
            password: "three".to_owned(),
            nickname: Some("attic".to_owned()),
        },
    )
    .unwrap();
    assert!(o.save);
    assert_eq!(o.lines, ["Device 3 added."]);
    assert_eq!(s.resolve_device("attic").unwrap().1.password, "three");
}

#[test]
fn a_removed_device_is_not_the_default() {
    let mut s = store();
    s.set_default("1".to_owned());
    let o = run_device_command(&mut s, DeviceCommand::Remove { identifier: "kitchen".to_owned() })
        .unwrap();
    assert!(o.save);
    assert_eq!(o.lines, ["Device 1 removed."]);
    assert!(s.default.is_none());
    assert!(s.get_device("1").is_none());
    s.set_default("other".to_owned());
    run_device_command(&mut s, DeviceCommand::Remove { identifier: "2".to_owned() }).unwrap();
    assert_eq!(s.default, Some("other".to_owned()));
    assert_eq!(
        run_device_command(&mut s, DeviceCommand::Remove { identifier: "2".to_owned() })
            .unwrap_err(),
        "device '2' not found"
    );
}

#[test]
fn the_default_is_set_by_nickname() {
    let mut s = store();
    let set = DeviceCommand::SetDefault { identifier: "kitchen".to_owned() };
    let o = run_device_command(&mut s, set).unwrap();
    assert!(o.save);
    assert_eq!(o.lines, ["Default device set to 1."]);
    assert_eq!(get_active_device(&s, &None).unwrap().0, "1");
    let set = DeviceCommand::SetDefault { identifier: "attic".to_owned() };
    assert_eq!(run_device_command(&mut s, set).unwrap_err(), "device 'attic' not found");
    assert_eq!(s.default, Some("1".to_owned()));
}

#[test]
fn answers_mean_yes_or_no() {
    for yes in ["", "\n", " y\n", "Y", "  "] {
        assert!(is_yes(yes));
    }
    for no in ["n", "yes", "yy", "no\n"] {
        assert!(!is_yes(no));
    }
}

#[test]
fn nicknames_are_asked_for() {
    let s = store();
    assert_eq!(existing_nickname(&s, "1"), Some("kitchen".to_owned()));
    assert_eq!(existing_nickname(&s, "2"), None);
    assert_eq!(existing_nickname(&s, "3"), None);
    assert_eq!(
        nickname_prompt(&Some("kitchen".to_owned())),
        "Nickname (Enter to keep \"kitchen\"): "
    );
    assert_eq!(nickname_prompt(&None), "Nickname (Enter to skip): ");
    assert_eq!(chosen_nickname(" attic \n", None), Some("attic".to_owned()));
    assert_eq!(chosen_nickname("\n", Some("kitchen".to_owned())), Some("kitchen".to_owned()));
    assert_eq!(chosen_nickname("\n", None), None);
}

#[test]
fn wrong_credentials_lead_to_an_offer() {
    let causes = vec![Cause::Other, Cause::Unauthorized];
    assert!(is_unauthorized(&causes));
    assert!(!is_unauthorized(&vec![Cause::Other]));
    assert!(!is_unauthorized(&vec![]));
    assert!(matches!(recovery(&vec![Cause::Other], &Some("1".to_owned())), Recovery::Stand));
    match recovery(&causes, &None) {
        Recovery::Report { line } => {
            assert_eq!(line, "Error: unauthorized (401) — is the password correct?")
        }
        _ => panic!("there is nothing to offer"),
    }
    match recovery(&causes, &Some("1".to_owned())) {
        Recovery::Offer { line, question } => {
            assert_eq!(line, "Error: unauthorized (401) — is the password correct?");
            assert_eq!(question, "Re-pair with device 1? [Y/n] ");
        }
        _ => panic!("pairing anew is offered"),
    }
}

#[test]
fn pairing_anew_keeps_the_nickname() {
    let mut s = store();
    assert_eq!(
        record_repairing(&mut s, "1", "new".to_owned()),
        "Device 1 re-paired and saved."
    );
    let c = s.get_device("1").unwrap();
    assert_eq!(c.password, "new");
    assert_eq!(c.nickname, Some("kitchen".to_owned()));
}

#[test]
fn the_port_asked_for_is_used() {
    let some = |s: &str| Some(s.to_owned());
    assert_eq!(choose_port(some("a"), some("b")), Ok("a".to_owned()));
    assert_eq!(choose_port(None, some("b")), Ok("b".to_owned()));
    assert_eq!(choose_port(None, None), Err("no Boppo device found on USB".to_owned()));
}
