//! What the credential store and the commands on devices give, for every input.

use vstd::prelude::*;

use crate::cli;
use crate::cli::{
    choose_port, chosen_nickname, existing_nickname, get_active_device, is_unauthorized, is_yes,
    list_devices, nickname_prompt, record_repairing, recovery, run_device_command,
    sanitize_file_name, ActiveDeviceError, Cause, DeviceCommand, DeviceOutcome, Recovery,
};
use crate::credential_store;
use crate::credential_store::{
    default_store_path, device_url, CredentialStore, DeviceCredentials, PathStart, StoreFile,
    StorePath,
};
use crate::name_map;
use crate::text;
use crate::text_laws;

verus! {

/// Whether a device has exactly the given nickname, character for character.
pub open spec fn is_called(creds: DeviceCredentials, name: Seq<char>) -> bool {
    creds.nickname is Some && creds.nickname->0@.len() == name.len() && forall|i: int|
        0 <= i < name.len() ==> creds.nickname->0@[i] == #[trigger] name[i]
}

proof fn lemma_is_called(creds: DeviceCredentials, name: Seq<char>)
    ensures
        is_called(creds, name) <==> credential_store::has_nickname(creds, name),
{
    if is_called(creds, name) {
        assert(creds.nickname->0@ =~= name);
    }
}

/// The URL of a device is made of its serial number, whatever that is.
pub proof fn law_url_holds_the_serial(serial: &str, r: String)
    requires
        call_ensures(device_url, (serial,), r),
    ensures
        r@ == "https://boppo-"@ + serial@ + ".local"@,
{
}

/// A device is found by its serial number if and only if it is registered, with the
/// credentials that it is registered with.
pub proof fn law_device_is_found_by_serial(
    store: &CredentialStore,
    serial: &str,
    r: Option<&DeviceCredentials>,
)
    requires
        call_ensures(CredentialStore::get_device, (store, serial), r),
    ensures
        r is Some <==> store.devices@.contains_key(serial@),
        r matches Some(creds) ==> *creds == store.devices@[serial@],
{
}

/// Setting a device binds its serial number to the credentials, and leaves every other
/// device and the default as they were.
pub proof fn law_setting_binds_the_serial()
    ensures
        forall|store: &mut CredentialStore, serial: String, creds: DeviceCredentials| #[trigger]
            call_ensures(CredentialStore::set_device, (store, serial, creds), ())
                ==> final(store).devices@ == (*store).devices@.insert(serial@, creds)
                && final(store)@.default == (*store)@.default,
{
}

/// Removing a device unbinds its serial number and says whether it was bound, and leaves
/// every other device and the default as they were.
pub proof fn law_removing_unbinds_the_serial()
    ensures
        forall|store: &mut CredentialStore, serial: &str, r: bool| #[trigger]
            call_ensures(CredentialStore::remove_device, (store, serial), r) ==> final(store).devices@
                == (*store).devices@.remove(serial@) && final(store)@.default == (
            *store)@.default && r == (*store).devices@.contains_key(serial@),
{
}

/// Setting or clearing the default changes it, and no device.
pub proof fn law_default_is_set_and_cleared()
    ensures
        forall|store: &mut CredentialStore, serial: String| #[trigger]
            call_ensures(CredentialStore::set_default, (store, serial), ()) ==> final(store).default
                is Some && final(store).default->0@ == serial@ && final(store).devices@ == (
            *store).devices@,
        forall|store: &mut CredentialStore| #[trigger]
            call_ensures(CredentialStore::clear_default, (store,), ()) ==> final(store).default
                is None && final(store).devices@ == (*store).devices@,
{
    assert forall|store: &mut CredentialStore, serial: String| #[trigger]
        call_ensures(CredentialStore::set_default, (store, serial), ()) implies final(store).default
        is Some && final(store).default->0@ == serial@ && final(store).devices@ == (
    *store).devices@ by {
        assert(final(store)@.default == Some(serial@));
    }
    assert forall|store: &mut CredentialStore| #[trigger]
        call_ensures(CredentialStore::clear_default, (store,), ()) implies final(store).default
        is None && final(store).devices@ == (*store).devices@ by {
        assert(final(store)@.default is None);
    }
}

/// What an identifier resolves to. A registered serial number resolves to its own device.
/// Any other identifier resolves to a device whose nickname it is, character for
/// character, if there is one: to the only one, and of several to the one that comes first.
pub proof fn law_identifier_is_a_serial_or_a_whole_nickname(
    store: &CredentialStore,
    identifier: &str,
    r: Option<(&str, &DeviceCredentials)>,
    other: Seq<char>,
    i: int,
)
    requires
        call_ensures(CredentialStore::resolve_device, (store, identifier), r),
    ensures
        r matches Some((serial, creds)) ==> store.devices@.contains_key(serial@) && *creds
            == store.devices@[serial@],
        store.devices@.contains_key(identifier@) ==> r is Some,
        r matches Some((serial, creds)) ==> if store.devices@.contains_key(identifier@) {
            serial@ == identifier@
        } else {
            is_called(*creds, identifier@)
        },
        store.devices@.contains_key(other) && is_called(store.devices@[other], identifier@)
            ==> r is Some,
        r matches Some((serial, creds)) ==> !store.devices@.contains_key(identifier@)
            && store.devices@.contains_key(other) && (forall|x: Seq<char>|
            store.devices@.contains_key(x) && is_called(#[trigger] store.devices@[x], identifier@)
                ==> x == other) ==> serial@ == other,
        r matches Some((serial, creds)) ==> !store.devices@.contains_key(identifier@) && 0 <= i
            < store.devices.pairs().len() && is_called(store.devices.pairs()[i].1, identifier@)
            ==> exists|j: int| 0 <= j <= i && (#[trigger] store.devices.pairs()[j]).0 == serial@,
{
    let id = identifier@;
    let pairs = store.devices.pairs();
    if store.devices@.contains_key(id) {
        assert(store@.stands_for(id, id));
    }
    if let Some((serial, creds)) = r {
        lemma_is_called(*creds, id);
        if !store.devices@.contains_key(id) {
            let k = choose|k: int| #[trigger]
                credential_store::first_nicknamed(pairs, id, k) && pairs[k].0 == serial@;
            if 0 <= i < pairs.len() {
                lemma_is_called(pairs[i].1, id);
                if is_called(pairs[i].1, id) {
                    assert(k <= i);
                    assert(pairs[k].0 == serial@);
                }
            }
            assert(is_called(store.devices@[serial@], id));
        }
    }
    if store.devices@.contains_key(other) && is_called(store.devices@[other], id) {
        lemma_is_called(store.devices@[other], id);
        if !store.devices@.contains_key(id) {
            assert(store@.stands_for(id, other));
        }
    }
}

/// Credentials that are made without any have no password and no nickname, and a store that
/// is made without any has no device and no default. A copy holds the same.
pub proof fn law_beginnings_are_empty_and_copies_the_same(
    creds: DeviceCredentials,
    empty: CredentialStore,
    store: &CredentialStore,
    copy: CredentialStore,
    serial: Seq<char>,
)
    requires
        call_ensures(DeviceCredentials::default, (), creds),
        call_ensures(CredentialStore::default, (), empty),
        call_ensures(CredentialStore::clone, (store,), copy),
    ensures
        creds.password@.len() == 0,
        creds.nickname is None,
        empty.default is None,
        !empty.devices@.contains_key(serial),
        copy.default == store.default,
        copy.devices@ == store.devices@,
{
}

/// The default device is the registered device whose serial number is the default.
pub proof fn law_default_device_is_the_one_set(
    store: &CredentialStore,
    r: Option<(&str, &DeviceCredentials)>,
)
    requires
        call_ensures(CredentialStore::default_device, (store,), r),
    ensures
        r is Some <==> store.default is Some && store.devices@.contains_key(store.default->0@),
        r matches Some((serial, creds)) ==> serial@ == store.default->0@ && *creds
            == store.devices@[serial@],
{
}

/// What is saved, when it is loaded, gives the store back.
pub proof fn law_saving_and_loading_keeps_everything(
    store: &CredentialStore,
    file: StoreFile,
    loaded: CredentialStore,
)
    requires
        call_ensures(CredentialStore::save, (store,), file),
        call_ensures(CredentialStore::load, (Some(file),), loaded),
    ensures
        loaded.default == store.default,
        loaded.devices@ == store.devices@,
        loaded.devices.pairs() == store.devices.pairs(),
{
    name_map::lemma_collected_distinct(store.devices.pairs());
}

/// A file that is loaded gives its default, and for each serial number the last credentials
/// that stand with it; no file gives an empty store.
pub proof fn law_loading_takes_the_file_as_it_is(
    file: StoreFile,
    loaded: CredentialStore,
    empty: CredentialStore,
    serial: Seq<char>,
    i: int,
)
    requires
        call_ensures(CredentialStore::load, (Some(file),), loaded),
        call_ensures(CredentialStore::load, (None::<StoreFile>,), empty),
    ensures
        loaded.default == file.default,
        0 <= i < file.devices@.len() && (forall|j: int|
            i < j < file.devices@.len() ==> (#[trigger] file.devices@[j]).0@
                != file.devices@[i].0@) ==> loaded.devices@.contains_key(file.devices@[i].0@)
            && loaded.devices@[file.devices@[i].0@] == file.devices@[i].1,
        loaded.devices@.contains_key(serial) ==> exists|j: int|
            0 <= j < file.devices@.len() && (#[trigger] file.devices@[j]).0@ == serial,
        empty.default is None,
        !empty.devices@.contains_key(serial),
{
    let entries = name_map::pairs_of(file.devices@);
    if 0 <= i < entries.len() {
        let name = file.devices@[i].0@;
        assert(entries[i] == (name, file.devices@[i].1));
        if forall|j: int| i < j < file.devices@.len() ==> (#[trigger] file.devices@[j]).0@ != name {
            assert forall|j: int| i < j < entries.len() implies (#[trigger] entries[j]).0 != name by {
                assert(file.devices@[j].0@ != name);
            }
        }
        text_laws::law_last_entry_counts(entries, name, i);
    }
    text_laws::law_last_entry_counts(entries, serial, i);
    if loaded.devices@.contains_key(serial) {
        let j = choose|j: int| 0 <= j < entries.len() && (#[trigger] entries[j]).0 == serial;
        assert(file.devices@[j].0@ == serial);
    }
}

/// The store file is `boppo/devices.toml` below the directory that is given, or below the
/// current one.
pub proof fn law_store_file_has_its_place<P>(dir: P, r: StorePath<P>, s: StorePath<P>)
    requires
        call_ensures(default_store_path::<P>, (Some(dir),), r),
        call_ensures(default_store_path::<P>, (None::<P>,), s),
    ensures
        r.start == PathStart::Given(dir),
        s.start matches PathStart::Named(d) && d@ == "."@,
        text::views(r.pieces@) == seq!["boppo"@, "devices.toml"@],
        text::views(s.pieces@) == seq!["boppo"@, "devices.toml"@],
{
}

/// Whether a character is one of the four that no file name on the device has: an
/// apostrophe, a line feed, a question mark or a slash.
pub open spec fn is_removed(c: char) -> bool {
    c == '\'' || c == '\n' || c == '?' || c == '/'
}

/// Sanitizing takes out the apostrophes, line feeds, question marks and slashes, then the
/// white space at both ends, and nothing else: every other character stays, as often and in
/// the same order as it was.
pub proof fn law_sanitizing_loses_nothing_else(name: &str, r: String)
    requires
        call_ensures(sanitize_file_name, (name,), r),
    ensures
        text_laws::is_core(r@, name@.filter(|c: char| !is_removed(c))),
{
    let f = |c: char| !is_removed(c);
    let g = |c: char| !cli::is_stripped(c);
    assert(f =~= g);
    text_laws::lemma_trimmed_is_core(name@.filter(f));
}

/// A name without an apostrophe, line feed, question mark or slash, and without white space
/// at either end, is left as it is.
pub proof fn law_clean_names_are_kept(name: &str, r: String)
    requires
        call_ensures(sanitize_file_name, (name,), r),
        !name@.contains('\''),
        !name@.contains('\n'),
        !name@.contains('?'),
        !name@.contains('/'),
        name@.len() > 0 ==> !text_laws::is_space(name@.first()) && !text_laws::is_space(
            name@.last(),
        ),
    ensures
        r@ == name@,
{
    let f = |c: char| !is_removed(c);
    law_sanitizing_loses_nothing_else(name, r);
    assert forall|i: int| 0 <= i < name@.len() implies f(#[trigger] name@[i]) by {
        assert(name@.contains(name@[i]));
    }
    cli::lemma_filter_all(name@, f);
    assert(text_laws::is_core_at(name@, name@, 0, name@.len() as int)) by {
        assert(name@.subrange(0, name@.len() as int) =~= name@);
    }
    text_laws::lemma_core_is_unique(name@, r@, name@);
}

/// With an identifier, the device to work with is the one that it resolves to, whatever the
/// default is; there is none where it resolves to none, and the error holds the identifier.
pub proof fn law_asked_device_is_active(
    store: &CredentialStore,
    identifier: String,
    id: &str,
    r: Result<(&str, &DeviceCredentials), ActiveDeviceError>,
    q: Option<(&str, &DeviceCredentials)>,
)
    requires
        id@ == identifier@,
        call_ensures(get_active_device, (store, &Some(identifier)), r),
        call_ensures(CredentialStore::resolve_device, (store, id), q),
    ensures
        r is Ok <==> q is Some,
        r matches Ok((serial, creds)) ==> (q matches Some((s, c)) && s@ == serial@ && *c == *creds),
        r matches Err(e) ==> e == ActiveDeviceError::NotFound(identifier),
{
    let arg = Some(identifier);
    if let Ok((serial, creds)) = r {
        assert(store@.stands_for(id@, serial@));
        if let Some((s, c)) = q {
            credential_store::law_resolution_is_unique(*store, id@, serial@, s@);
        }
    }
    if let Some((s, c)) = q {
        assert(cli::is_active(store@, arg, s@));
    }
}

/// Without an identifier, the device to work with is the default.
pub proof fn law_default_device_is_active(
    store: &CredentialStore,
    r: Result<(&str, &DeviceCredentials), ActiveDeviceError>,
)
    requires
        call_ensures(get_active_device, (store, &None::<String>), r),
    ensures
        r is Ok <==> store.default is Some && store.devices@.contains_key(store.default->0@),
        r matches Ok((serial, creds)) ==> serial@ == store.default->0@ && *creds
            == store.devices@[serial@],
        r matches Err(e) ==> e is NoDefault,
{
    if store.default is Some && store.devices@.contains_key(store.default->0@) {
        assert(cli::is_active(store@, None, store.default->0@));
    }
}

/// The message for an identifier that stands for no device names it.
pub proof fn law_missing_device_is_named(identifier: String, r: String, s: String)
    requires
        call_ensures(ActiveDeviceError::message, (&ActiveDeviceError::NotFound(identifier),), r),
        call_ensures(ActiveDeviceError::message, (&ActiveDeviceError::NoDefault,), s),
    ensures
        r@ == "device '"@ + identifier@ + "' not found in credential store"@,
        s@ == "no default device set; use --device or `boppo device set-default`"@,
{
}

/// Whether lines describe the registered devices, one in a line: its serial number, a mark
/// where it is the default, and its nickname.
pub open spec fn lists(store: CredentialStore, lines: Seq<String>) -> bool {
    let pairs = store.devices.pairs();
    if pairs.len() == 0 {
        lines.len() == 1 && lines[0]@ == "No devices registered."@
    } else {
        lines.len() == pairs.len() && forall|i: int|
            0 <= i < pairs.len() ==> (#[trigger] lines[i])@ == pairs[i].0 + (if store.default is Some
                && store.default->0@ == pairs[i].0 {
                " [default]"@
            } else {
                ""@
            }) + " | nickname: "@ + (if pairs[i].1.nickname is Some {
                pairs[i].1.nickname->0@
            } else {
                "(none)"@
            })
    }
}

proof fn lemma_lists(store: CredentialStore, lines: Seq<String>)
    requires
        text::views(lines) == cli::device_lines(store@.default, store.devices.pairs()),
    ensures
        lists(store, lines),
{
    let pairs = store.devices.pairs();
    assert(text::views(lines).len() == lines.len());
    assert forall|i: int| 0 <= i < lines.len() implies (#[trigger] lines[i])@ == text::views(
        lines,
    )[i] by {}
}

/// Registered devices are listed one in a line, each with its serial number, a mark where it
/// is the default, and its nickname.
pub proof fn law_devices_are_listed(store: &CredentialStore, r: Vec<String>)
    requires
        call_ensures(list_devices, (store,), r),
    ensures
        lists(*store, r@),
{
    lemma_lists(*store, r@);
}

/// To add a device binds its serial number to the given password and nickname, and leaves
/// every other device and the default as they were.
pub proof fn law_added_device_is_registered()
    ensures
        forall|
            store: &mut CredentialStore,
            serial: String,
            password: String,
            nickname: Option<String>,
            r: Result<DeviceOutcome, String>,
        |
            #[trigger] call_ensures(
                run_device_command,
                (store, DeviceCommand::Add { serial, password, nickname }),
                r,
            ) ==> {
                &&& final(store).devices@ == (*store).devices@.insert(
                    serial@,
                    DeviceCredentials { password, nickname },
                )
                &&& final(store)@.default == (*store)@.default
                &&& r matches Ok(o)
                &&& o.save
                &&& text::views(o.lines@) == seq!["Device "@ + serial@ + " added."@]
            },
{
}

/// Whether an identifier means a device: it is its serial number, or else its whole
/// nickname, and no device that comes before it has that nickname.
pub open spec fn means(store: CredentialStore, identifier: Seq<char>, serial: Seq<char>) -> bool {
    let pairs = store.devices.pairs();
    &&& store.devices@.contains_key(serial)
    &&& serial == identifier || {
        &&& !store.devices@.contains_key(identifier)
        &&& is_called(store.devices@[serial], identifier)
        &&& exists|i: int|
            0 <= i < pairs.len() && (#[trigger] pairs[i]).0 == serial && forall|j: int|
                0 <= j < i ==> !is_called((#[trigger] pairs[j]).1, identifier)
    }
}

proof fn lemma_means(store: CredentialStore, identifier: Seq<char>, serial: Seq<char>)
    ensures
        store.resolves_to(identifier, serial) ==> means(store, identifier, serial),
        means(store, identifier, serial) ==> store@.stands_for(identifier, serial),
{
    let pairs = store.devices.pairs();
    if store.devices@.contains_key(serial) {
        lemma_is_called(store.devices@[serial], identifier);
    }
    assert forall|i: int| 0 <= i < pairs.len() implies is_called((#[trigger] pairs[i]).1, identifier)
        == credential_store::has_nickname(pairs[i].1, identifier) by {
        lemma_is_called(pairs[i].1, identifier);
    }
    if store.resolves_to(identifier, serial) && !store.devices@.contains_key(identifier) {
        let i = choose|i: int| #[trigger]
            credential_store::first_nicknamed(pairs, identifier, i) && pairs[i].0 == serial;
        assert(pairs[i].0 == serial);
    }
}

/// To remove a device unbinds the serial number that the identifier stands for, and clears
/// the default where it was that one. An identifier that stands for no device is an error
/// that names it, and changes nothing.
pub proof fn law_removed_device_is_the_one_named()
    ensures
        forall|
            store: &mut CredentialStore,
            identifier: String,
            r: Result<DeviceOutcome, String>,
        |
            #[trigger] call_ensures(
                run_device_command,
                (store, DeviceCommand::Remove { identifier }),
                r,
            ) ==> removes_named(*store, identifier@, *final(store), r),
{
    assert forall|store: &mut CredentialStore, identifier: String, r: Result<DeviceOutcome, String>|
        #[trigger] call_ensures(
            run_device_command,
            (store, DeviceCommand::Remove { identifier }),
            r,
        ) implies removes_named(*store, identifier@, *final(store), r) by {
        let before = *store;
        if r is Ok {
            let serial = choose|serial: Seq<char>| #[trigger]
                before.resolves_to(identifier@, serial) && final(store)@ == cli::after_removal(
                    before@,
                    serial,
                ) && text::views(r->Ok_0.lines@) == seq!["Device "@ + serial + " removed."@];
            lemma_means(before, identifier@, serial);
            assert(removes(before, serial, *final(store), r->Ok_0));
        } else {
            assert forall|serial: Seq<char>| !means(before, identifier@, serial) by {
                lemma_means(before, identifier@, serial);
                if before@.stands_for(identifier@, serial) {
                    assert(before@.is_known(identifier@));
                }
            }
        }
    }
}

/// Whether a store is another without a device, which is not its default either, and this is
/// reported.
pub open spec fn removes(
    before: CredentialStore,
    serial: Seq<char>,
    after: CredentialStore,
    o: DeviceOutcome,
) -> bool {
    &&& after.devices@ == before.devices@.remove(serial)
    &&& if before@.default == Some(serial) {
        after.default is None
    } else {
        after@.default == before@.default
    }
    &&& o.save
    &&& text::views(o.lines@) == seq!["Device "@ + serial + " removed."@]
}

/// Whether removal by an identifier did what it should.
pub open spec fn removes_named(
    before: CredentialStore,
    identifier: Seq<char>,
    after: CredentialStore,
    r: Result<DeviceOutcome, String>,
) -> bool {
    match r {
        Ok(o) => exists|serial: Seq<char>| #[trigger]
            means(before, identifier, serial) && removes(before, serial, after, o),
        Err(m) => after == before && m@ == "device '"@ + identifier + "' not found"@ && forall|
            serial: Seq<char>,
        |
            !means(before, identifier, serial),
    }
}

/// Whether setting the default by an identifier did what it should.
pub open spec fn sets_default_named(
    before: CredentialStore,
    identifier: Seq<char>,
    after: CredentialStore,
    r: Result<DeviceOutcome, String>,
) -> bool {
    match r {
        Ok(o) => exists|serial: Seq<char>| #[trigger]
            means(before, identifier, serial) && after.devices@ == before.devices@
                && after@.default == Some(serial) && o.save && text::views(o.lines@) == seq![
                "Default device set to "@ + serial + "."@,
            ],
        Err(m) => after == before && m@ == "device '"@ + identifier + "' not found"@ && forall|
            serial: Seq<char>,
        |
            !means(before, identifier, serial),
    }
}

/// To set the default makes the serial number the default that the identifier stands for,
/// and changes no device. An identifier that stands for no device is an error that names
/// it, and changes nothing.
pub proof fn law_default_becomes_the_one_named()
    ensures
        forall|
            store: &mut CredentialStore,
            identifier: String,
            r: Result<DeviceOutcome, String>,
        |
            #[trigger] call_ensures(
                run_device_command,
                (store, DeviceCommand::SetDefault { identifier }),
                r,
            ) ==> sets_default_named(*store, identifier@, *final(store), r),
{
    assert forall|store: &mut CredentialStore, identifier: String, r: Result<DeviceOutcome, String>|
        #[trigger] call_ensures(
            run_device_command,
            (store, DeviceCommand::SetDefault { identifier }),
            r,
        ) implies sets_default_named(*store, identifier@, *final(store), r) by {
        let before = *store;
        if r is Ok {
            let serial = choose|serial: Seq<char>| #[trigger]
                before.resolves_to(identifier@, serial) && final(store)@ == before@.with_default(
                    Some(serial),
                ) && text::views(r->Ok_0.lines@) == seq![
                    "Default device set to "@ + serial + "."@,
                ];
            lemma_means(before, identifier@, serial);
        } else {
            assert forall|serial: Seq<char>| !means(before, identifier@, serial) by {
                lemma_means(before, identifier@, serial);
                if before@.stands_for(identifier@, serial) {
                    assert(before@.is_known(identifier@));
                }
            }
        }
    }
}

/// To list devices describes them, and changes nothing.
pub proof fn law_listing_devices_changes_nothing()
    ensures
        forall|store: &mut CredentialStore, r: Result<DeviceOutcome, String>| #[trigger]
            call_ensures(run_device_command, (store, DeviceCommand::List), r) ==> *final(store)
                == *store && (r matches Ok(o) && !o.save && lists(*store, o.lines@)),
{
    assert forall|store: &mut CredentialStore, r: Result<DeviceOutcome, String>| #[trigger]
        call_ensures(run_device_command, (store, DeviceCommand::List), r) implies *final(store)
        == *store && (r matches Ok(o) && !o.save && lists(*store, o.lines@)) by {
        lemma_lists(*store, r->Ok_0.lines@);
    }
}

/// An answer means yes if and only if nothing but white space is around nothing, a `y` or a
/// `Y`.
pub proof fn law_yes_is_nothing_or_y(answer: &str, r: bool, core: Seq<char>)
    requires
        call_ensures(is_yes, (answer,), r),
        text_laws::is_core(core, answer@),
    ensures
        r <==> core.len() == 0 || (core.len() == 1 && (core[0] == 'y' || core[0] == 'Y')),
{
    text_laws::lemma_trimmed_is_core(answer@);
    text_laws::lemma_core_is_unique(answer@, core, text::trimmed(answer@));
    reveal_strlit("y");
    reveal_strlit("Y");
    if core.len() == 1 {
        if core[0] == 'y' {
            assert(core =~= "y"@);
        }
        if core[0] == 'Y' {
            assert(core =~= "Y"@);
        }
    }
}

/// The nickname is the answer without the white space around it, or what it was otherwise
/// where that is empty.
pub proof fn law_nickname_is_the_answer(
    answer: &str,
    otherwise: Option<String>,
    r: Option<String>,
    core: Seq<char>,
)
    requires
        call_ensures(chosen_nickname, (answer, otherwise), r),
        text_laws::is_core(core, answer@),
    ensures
        core.len() == 0 ==> r == otherwise,
        core.len() > 0 ==> (r matches Some(n) && n@ == core),
{
    text_laws::lemma_trimmed_is_core(answer@);
    text_laws::lemma_core_is_unique(answer@, core, text::trimmed(answer@));
}

/// The nickname that a device has is the one that it is registered with.
pub proof fn law_existing_nickname_is_the_registered_one(
    store: &CredentialStore,
    serial: &str,
    r: Option<String>,
)
    requires
        call_ensures(existing_nickname, (store, serial), r),
    ensures
        r == if store.devices@.contains_key(serial@) {
            store.devices@[serial@].nickname
        } else {
            None
        },
{
}

/// The question for a nickname offers to keep the one that the device has.
pub proof fn law_nickname_question_offers_the_old_one(nick: String, r: String, s: String)
    requires
        call_ensures(nickname_prompt, (&Some(nick),), r),
        call_ensures(nickname_prompt, (&None::<String>,), s),
    ensures
        r@ == "Nickname (Enter to keep \""@ + nick@ + "\"): "@,
        s@ == "Nickname (Enter to skip): "@,
{
}

/// An error is one of refused credentials if and only if one of its causes is.
pub proof fn law_any_cause_counts(causes: &Vec<Cause>, r: bool)
    requires
        call_ensures(is_unauthorized, (causes,), r),
    ensures
        r <==> exists|i: int| 0 <= i < causes@.len() && (#[trigger] causes@[i]) is Unauthorized,
{
    if r {
        let i = choose|i: int| 0 <= i < causes@.len() && causes@[i] == Cause::Unauthorized;
        assert(causes@[i] is Unauthorized);
    }
    if exists|i: int| 0 <= i < causes@.len() && (#[trigger] causes@[i]) is Unauthorized {
        let i = choose|i: int| 0 <= i < causes@.len() && (#[trigger] causes@[i]) is Unauthorized;
        assert(causes@[i] == Cause::Unauthorized);
    }
}

/// The user is offered to pair anew if and only if the credentials were refused and there is
/// a device; without a device that is only reported.
pub proof fn law_recovery_is_offered(causes: &Vec<Cause>, active: &Option<String>, r: Recovery)
    requires
        call_ensures(recovery, (causes, active), r),
    ensures
        r is Stand <==> !causes@.contains(Cause::Unauthorized),
        r is Offer <==> causes@.contains(Cause::Unauthorized) && *active is Some,
        r matches Recovery::Report { line } ==> line@
            == "Error: unauthorized (401) — is the password correct?"@,
        r matches Recovery::Offer { line, question } ==> line@
            == "Error: unauthorized (401) — is the password correct?"@ && question@
            == "Re-pair with device "@ + (*active)->0@ + "? [Y/n] "@,
{
}

/// A device that is paired anew has the new password and the nickname that it had; every
/// other device and the default are as they were.
pub proof fn law_pairing_anew_changes_the_password()
    ensures
        forall|store: &mut CredentialStore, serial: &str, password: String, r: String| #[trigger]
            call_ensures(record_repairing, (store, serial, password), r) ==> {
                &&& final(store).devices@ == (*store).devices@.insert(
                    serial@,
                    DeviceCredentials {
                        password,
                        nickname: if (*store).devices@.contains_key(serial@) {
                            (*store).devices@[serial@].nickname
                        } else {
                            None
                        },
                    },
                )
                &&& final(store)@.default == (*store)@.default
                &&& r@ == "Device "@ + serial@ + " re-paired and saved."@
            },
{
}

/// A port that was asked for is used whatever was found.
pub proof fn law_asked_port_comes_first(
    asked: Option<String>,
    found: Option<String>,
    r: Result<String, String>,
)
    requires
        call_ensures(choose_port, (asked, found), r),
    ensures
        r is Ok <==> asked is Some || found is Some,
        r matches Ok(port) ==> port == if asked is Some {
            asked->0
        } else {
            found->0
        },
        r matches Err(m) ==> m@ == "no Boppo device found on USB"@,
{
}

} // verus!
