use boppo::credential_store::{
    default_store_path, device_url, CredentialStore, DeviceCredentials, PathStart,
    StoreFile,
};
use boppo::name_map::NameMap;

fn creds(password: &str, nickname: Option<&str>) -> DeviceCredentials {
    DeviceCredentials {
        password: password.to_owned(),
        nickname: nickname.map(|n| n.to_owned()),
    }
}

fn store() -> CredentialStore {
    let mut s = CredentialStore::default();
    s.set_device("0120001234".to_owned(), creds("secret", Some("my-tablet")));
    s.set_device("0120005678".to_owned(), creds("other", None));
    s
}

#[test]
fn a_new_store_is_empty() {
    let s = CredentialStore::default();
    assert!(s.default.is_none());
    assert_eq!(s.devices.len(), 0);
    assert!(s.default_device().is_none());
    assert!(s.resolve_device("x").is_none());
    let c = DeviceCredentials::default();
    assert_eq!(c.password, "");
    assert_eq!(c.nickname, None);
}

#[test]
fn a_device_that_was_set_is_found() {
    let mut s = store();
    assert_eq!(s.get_device("0120001234").unwrap().password, "secret");
    assert!(s.get_device("my-tablet").is_none());
    s.set_device("0120001234".to_owned(), creds("changed", None));
    assert_eq!(s.devices.len(), 2);
    assert_eq!(s.get_device("0120001234").unwrap().password, "changed");
    assert_eq!(s.get_device("0120005678").unwrap().password, "other");
}

#[test]
fn a_device_that_was_removed_is_gone() {
    let mut s = store();
    assert!(s.remove_device("0120001234"));
    assert!(!s.remove_device("0120001234"));
    assert!(s.get_device("0120001234").is_none());
    assert!(s.get_device("0120005678").is_some());
}

#[test]
fn devices_are_resolved_by_serial_and_nickname() {
    let s = store();
    assert_eq!(s.resolve_device("my-tablet").unwrap().0, "0120001234");
    assert_eq!(s.resolve_device("0120005678").unwrap().0, "0120005678");
    assert_eq!(s.resolve_device("my-tablet").unwrap().1.password, "secret");
    assert!(s.resolve_device("nobody").is_none());
}

#[test]
fn serial_numbers_come_before_nicknames() {
    let mut s = CredentialStore::default();
    s.set_device("a".to_owned(), creds("1", Some("b")));
    s.set_device("b".to_owned(), creds("2", Some("a")));
    assert_eq!(s.resolve_device("a").unwrap().0, "a");
    assert_eq!(s.resolve_device("b").unwrap().0, "b");
    s.set_device("c".to_owned(), creds("3", Some("same")));
    s.set_device("d".to_owned(), creds("4", Some("same")));
    assert_eq!(s.resolve_device("same").unwrap().0, "c");
}

#[test]
fn the_default_device_must_be_registered() {
    let mut s = store();
    s.set_default("0120005678".to_owned());
    let (serial, c) = s.default_device().unwrap();
    assert_eq!(serial, "0120005678");
    assert_eq!(c.password, "other");
    s.set_default("unknown".to_owned());
    assert!(s.default_device().is_none());
    s.set_default("0120001234".to_owned());
    s.remove_device("0120001234");
    assert!(s.default_device().is_none());
    s.clear_default();
    assert!(s.default.is_none());
    assert!(s.default_device().is_none());
}

#[test]
fn loading_gives_back_what_was_saved() {
    let mut s = store();
    s.set_default("0120001234".to_owned());
    let again = CredentialStore::load(Some(s.save()));
    assert_eq!(again.default, s.default);
    assert_eq!(again.devices.len(), 2);
    for serial in ["0120001234", "0120005678"] {
        let a = again.get_device(serial).unwrap();
        let b = s.get_device(serial).unwrap();
        assert_eq!(a.password, b.password);
        assert_eq!(a.nickname, b.nickname);
    }
    let twice = vec![("x".to_owned(), creds("1", None)), ("x".to_owned(), creds("2", None))];
    let one = CredentialStore::load(Some(StoreFile { default: None, devices: twice }));
    assert_eq!(one.devices.len(), 1);
    assert_eq!(one.get_device("x").unwrap().password, "2");
    let absent = CredentialStore::load(None);
    assert!(absent.default.is_none());
    assert_eq!(absent.devices.len(), 0);
}

#[test]
fn clones_hold_the_same() {
    let s = store().clone();
    assert_eq!(s.devices.len(), 2);
    assert_eq!(s.resolve_device("my-tablet").unwrap().1.password, "secret");
}

#[test]
fn urls_carry_the_serial() {
    assert_eq!(device_url("0120001234"), "https://boppo-0120001234.local");
    assert_ne!(device_url("1"), device_url("2"));
}

#[test]
fn the_store_file_has_its_place() {
    let path = default_store_path(Some("/home/u/.config"));
    assert!(matches!(path.start, PathStart::Given("/home/u/.config")));
    assert_eq!(path.pieces, ["boppo", "devices.toml"]);
    let path = default_store_path::<&str>(None);
    assert!(matches!(path.start, PathStart::Named(dir) if dir == "."));
    assert_eq!(path.pieces, ["boppo", "devices.toml"]);
}

#[test]
fn names_keep_their_order() {
    let mut m: NameMap<u32> = NameMap::new();
    m.insert("b".to_owned(), 1);
    m.insert("a".to_owned(), 2);
    m.insert("b".to_owned(), 3);
    assert_eq!(m.len(), 2);
    assert_eq!(m.at(0), (&"b".to_owned(), &3));
    assert_eq!(m.at(1), (&"a".to_owned(), &2));
    assert!(m.contains_key("a"));
    assert_eq!(m.get_key_value("a"), Some((&"a".to_owned(), &2)));
    assert_eq!(m.remove("b"), Some(3));
    assert_eq!(m.remove("b"), None);
    assert_eq!(m.at(0), (&"a".to_owned(), &2));
}

#[test]
fn a_clone_holds_the_same_in_the_same_order() {
    let mut s = store();
    s.set_default("0120005678".to_owned());
    let c = s.clone();
    assert_eq!(c.default.as_deref(), Some("0120005678"));
    assert_eq!(c.devices.len(), 2);
    assert_eq!(c.devices.at(0).0, "0120001234");
    assert_eq!(c.devices.at(0).1.password, "secret");
    assert_eq!(c.devices.at(1).0, "0120005678");
}

#[test]
fn loading_keeps_the_order_of_the_file() {
    let file = StoreFile {
        default: None,
        devices: vec![
            ("9".to_owned(), creds("a", Some("x"))),
            ("1".to_owned(), creds("b", Some("x"))),
            ("9".to_owned(), creds("c", Some("x"))),
        ],
    };
    let s = CredentialStore::load(Some(file));
    assert_eq!(s.devices.len(), 2);
    assert_eq!(s.devices.at(0).0, "9");
    assert_eq!(s.resolve_device("x").unwrap().0, "9");
    assert_eq!(s.resolve_device("x").unwrap().1.password, "c");
}
