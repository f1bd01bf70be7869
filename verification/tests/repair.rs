use boppo::cli::Cause;
use boppo::credential_store::{CredentialStore, DeviceCredentials};
use boppo::repair::{Repair, RepairAction, RepairEvent};

fn store() -> CredentialStore {
    let mut s = CredentialStore::default();
    let creds = DeviceCredentials {
        password: "old".to_owned(),
        nickname: Some("kitchen".to_owned()),
    };
    s.set_device("12".to_owned(), creds);
    s
}

fn unauthorized() -> RepairEvent {
    RepairEvent::Failed(vec![Cause::Other, Cause::Unauthorized])
}

#[test]
fn a_device_is_paired_anew_where_the_user_wants_it() {
    let mut s = store();
    let mut r = Repair::new(Some("12".to_owned()));
    match r.step(&mut s, unauthorized()) {
        RepairAction::Ask { line, question } => {
            assert_eq!(line, "Error: unauthorized (401) \u{2014} is the password correct?");
            assert_eq!(question, "Re-pair with device 12? [Y/n] ");
        }
        _ => panic!("the user is asked"),
    }
    match r.step(&mut s, RepairEvent::Answered("\n".to_owned())) {
        RepairAction::Pair { line, serial } => {
            assert_eq!(line, "Pairing with device 12...");
            assert_eq!(serial, "12");
        }
        _ => panic!("the device is paired"),
    }
    assert_eq!(s.get_device("12").unwrap().password, "old");
    assert!(matches!(
        r.step(&mut s, RepairEvent::Paired("new".to_owned())),
        RepairAction::SaveStore
    ));
    assert_eq!(s.get_device("12").unwrap().password, "new");
    assert_eq!(s.get_device("12").unwrap().nickname.as_deref(), Some("kitchen"));
    match r.step(&mut s, RepairEvent::Saved) {
        RepairAction::Finish { line } => assert_eq!(line, "Device 12 re-paired and saved."),
        _ => panic!("the command counts as done"),
    }
    assert!(matches!(r.step(&mut s, RepairEvent::Saved), RepairAction::Unexpected));
}

#[test]
fn the_error_stands_otherwise() {
    let mut s = store();
    let mut r = Repair::new(Some("12".to_owned()));
    r.step(&mut s, unauthorized());
    assert!(matches!(
        r.step(&mut s, RepairEvent::Answered("n".to_owned())),
        RepairAction::Fail
    ));
    let mut r = Repair::new(Some("12".to_owned()));
    let other = RepairEvent::Failed(vec![Cause::Other]);
    assert!(matches!(r.step(&mut s, other), RepairAction::Fail));
    let mut r = Repair::new(None);
    assert!(matches!(r.step(&mut s, unauthorized()), RepairAction::ReportAndFail { .. }));
    let mut r = Repair::new(Some("12".to_owned()));
    assert!(matches!(r.step(&mut s, RepairEvent::Saved), RepairAction::Unexpected));
    assert!(matches!(r.step(&mut s, unauthorized()), RepairAction::Ask { .. }));
    assert_eq!(s.get_device("12").unwrap().password, "old");
}
