//! The decisions of the command line tool: which device is meant, what the device
//! commands do to the store, and what the user's answers mean.

use vstd::prelude::*;

use crate::credential_store;
use crate::credential_store::{CredentialStore, DeviceCredentials, StoreView};
use crate::text;
use crate::text::{chars_of, join3, str_eq, trim, trim_chars};

verus! {

/// The characters that no file name on the device has.
pub open spec fn is_stripped(c: char) -> bool {
    c == '\'' || c == '\n' || c == '?' || c == '/'
}

/// A file name without the characters that no file name on the device has, and
/// without white space around it.
pub open spec fn sanitized(name: Seq<char>) -> Seq<char> {
    text::trimmed(name.filter(|c: char| !is_stripped(c)))
}

/// The file name under which a file is stored on the device.
pub fn sanitize_file_name(name: &str) -> (r: String)
    ensures
        r@ == sanitized(name@),
{
    let v = chars_of(name);
    let ghost keep = |c: char| !is_stripped(c);
    let mut kept: Vec<char> = Vec::new();
    let mut i: usize = 0;
    proof {
        reveal(Seq::filter);
        assert(v@.take(0).filter(keep) =~= Seq::empty());
    }
    while i < v.len()
        invariant
            i <= v@.len(),
            keep == (|c: char| !is_stripped(c)),
            kept@ == v@.take(i as int).filter(keep),
        decreases v@.len() - i,
    {
        let c = v[i];
        proof {
            reveal(Seq::filter);
            assert(v@.take(i + 1).drop_last() =~= v@.take(i as int));
            assert(v@.take(i + 1).last() == c);
        }
        if !(c == '\'' || c == '\n' || c == '?' || c == '/') {
            kept.push(c);
        }
        i = i + 1;
    }
    assert(v@.take(i as int) =~= v@);
    trim_chars(&kept)
}

/// A sanitized name has none of the stripped characters.
pub proof fn law_sanitized_is_clean(name: Seq<char>)
    ensures
        forall|i: int| 0 <= i < sanitized(name).len() ==> !is_stripped(#[trigger] sanitized(name)[i]),
        sanitized(name).len() > 0 ==> !text::is_white_space(sanitized(name).first())
            && !text::is_white_space(sanitized(name).last()),
{
    let keep = |c: char| !is_stripped(c);
    let f = name.filter(keep);
    text::lemma_trimmed(f);
    let (a, b) = choose|a: int, b: int|
        0 <= a <= b <= f.len() && #[trigger] f.subrange(a, b) == text::trimmed(f);
    assert forall|i: int| 0 <= i < sanitized(name).len() implies !is_stripped(
        #[trigger] sanitized(name)[i],
    ) by {
        assert(sanitized(name)[i] == f[a + i]);
        name.lemma_filter_pred(keep, a + i);
    }
}

/// Nothing is left out of a sequence whose every character is kept.
pub proof fn lemma_filter_all(s: Seq<char>, keep: spec_fn(char) -> bool)
    requires
        forall|i: int| 0 <= i < s.len() ==> keep(#[trigger] s[i]),
    ensures
        s.filter(keep) == s,
    decreases s.len(),
{
    reveal(Seq::filter);
    if s.len() > 0 {
        let rest = s.drop_last();
        assert forall|i: int| 0 <= i < rest.len() implies keep(#[trigger] rest[i]) by {
            assert(rest[i] == s[i]);
        }
        lemma_filter_all(rest, keep);
        assert(keep(s[s.len() - 1]));
        assert(rest.push(s.last()) =~= s);
    }
}

/// Sanitizing a sanitized name changes nothing.
pub proof fn law_sanitizing_is_idempotent(name: Seq<char>)
    ensures
        sanitized(sanitized(name)) == sanitized(name),
{
    law_sanitized_is_clean(name);
    let s = sanitized(name);
    lemma_filter_all(s, |c: char| !is_stripped(c));
    text::lemma_trimmed_fixed(s);
}

/// Why there is no device to work with.
#[derive(Debug)]
pub enum ActiveDeviceError {
    /// The device that was asked for is not registered.
    NotFound(String),
    /// No device was asked for, and there is no default.
    NoDefault,
}

impl ActiveDeviceError {
    /// What to tell the user.
    pub fn message(&self) -> (r: String)
        ensures
            r@ == match self {
                ActiveDeviceError::NotFound(identifier) => "device '"@ + identifier@
                    + "' not found in credential store"@,
                ActiveDeviceError::NoDefault =>
                    "no default device set; use --device or `boppo device set-default`"@,
            },
    {
        match self {
            ActiveDeviceError::NotFound(identifier) => join3(
                "device '",
                identifier.as_str(),
                "' not found in credential store",
            ),
            ActiveDeviceError::NoDefault =>
                "no default device set; use --device or `boppo device set-default`".to_owned(),
        }
    }
}

/// Whether a device is the one to work with: the one that was asked for, by serial
/// number or nickname, or else the default.
pub open spec fn is_active(store: StoreView, device_arg: Option<String>, serial: Seq<char>) -> bool {
    match device_arg {
        Some(identifier) => store.stands_for(identifier@, serial),
        None => store.default_serial() == Some(serial),
    }
}

/// Whether a device is the one that is chosen: of several devices with the nickname
/// that was asked for, the one that it resolves to.
pub open spec fn is_chosen(
    store: CredentialStore,
    device_arg: Option<String>,
    serial: Seq<char>,
) -> bool {
    match device_arg {
        Some(identifier) => store.resolves_to(identifier@, serial),
        None => store@.default_serial() == Some(serial),
    }
}

/// The device to work with, and its credentials.
pub fn get_active_device<'a>(store: &'a CredentialStore, device_arg: &Option<String>) -> (r: Result<
    (&'a str, &'a DeviceCredentials),
    ActiveDeviceError,
>)
    ensures
        r is Ok <==> exists|serial: Seq<char>| is_active(store@, *device_arg, serial),
        r matches Ok((serial, creds)) ==> is_active(store@, *device_arg, serial@) && is_chosen(
            *store,
            *device_arg,
            serial@,
        ) && *creds == store@.devices[serial@],
        r matches Err(e) ==> match *device_arg {
            Some(identifier) => e == ActiveDeviceError::NotFound(identifier),
            None => e is NoDefault,
        },
{
    match device_arg {
        Some(identifier) => match store.resolve_device(identifier.as_str()) {
            Some((serial, creds)) => {
                assert(is_active(store@, *device_arg, serial@));
                Ok((serial, creds))
            },
            None => Err(ActiveDeviceError::NotFound(identifier.clone())),
        },
        None => match store.default_device() {
            Some((serial, creds)) => {
                assert(is_active(store@, *device_arg, serial@));
                Ok((serial, creds))
            },
            None => Err(ActiveDeviceError::NoDefault),
        },
    }
}

/// A command on the registered devices.
#[derive(Debug)]
pub enum DeviceCommand {
    List,
    Add { serial: String, password: String, nickname: Option<String> },
    Remove { identifier: String },
    SetDefault { identifier: String },
}

/// What came of a device command: whether the store is to be saved, then the lines
/// to show.
#[derive(Debug)]
pub struct DeviceOutcome {
    pub save: bool,
    pub lines: Vec<String>,
}

/// The line that describes a registered device.
pub open spec fn device_line(
    default: Option<Seq<char>>,
    serial: Seq<char>,
    creds: DeviceCredentials,
) -> Seq<char> {
    serial + (if default == Some(serial) {
        " [default]"@
    } else {
        ""@
    }) + " | nickname: "@ + (match creds.nickname {
        Some(n) => n@,
        None => "(none)"@,
    })
}

/// The lines that describe the registered devices, in order.
pub open spec fn device_lines(
    default: Option<Seq<char>>,
    pairs: Seq<(Seq<char>, DeviceCredentials)>,
) -> Seq<Seq<char>> {
    if pairs.len() == 0 {
        seq!["No devices registered."@]
    } else {
        pairs.map_values(|p: (Seq<char>, DeviceCredentials)| device_line(default, p.0, p.1))
    }
}

/// The store after a device was removed by command: it is not the default any more.
pub open spec fn after_removal(store: StoreView, serial: Seq<char>) -> StoreView {
    if store.default == Some(serial) {
        store.without_device(serial).with_default(None)
    } else {
        store.without_device(serial)
    }
}

/// Whether a device command does to the store what it says, and reports it. A command
/// that fails leaves the store as it is.
pub open spec fn device_command_done(
    command: DeviceCommand,
    before: CredentialStore,
    after: CredentialStore,
    r: Result<DeviceOutcome, String>,
) -> bool {
    match command {
        DeviceCommand::List => {
            &&& after == before
            &&& r matches Ok(o)
            &&& !o.save
            &&& text::views(o.lines@) == device_lines(before@.default, before.devices.pairs())
        },
        DeviceCommand::Add { serial, password, nickname } => {
            &&& after@ == before@.with_device(serial@, DeviceCredentials { password, nickname })
            &&& r matches Ok(o)
            &&& o.save
            &&& text::views(o.lines@) == seq!["Device "@ + serial@ + " added."@]
        },
        DeviceCommand::Remove { identifier } => {
            &&& r is Ok <==> before@.is_known(identifier@)
            &&& r matches Ok(o) ==> o.save && exists|serial: Seq<char>| #[trigger]
                before.resolves_to(identifier@, serial) && after@ == after_removal(before@, serial)
                    && text::views(o.lines@) == seq!["Device "@ + serial + " removed."@]
            &&& r matches Err(m) ==> after == before && m@ == not_found(identifier@)
        },
        DeviceCommand::SetDefault { identifier } => {
            &&& r is Ok <==> before@.is_known(identifier@)
            &&& r matches Ok(o) ==> o.save && exists|serial: Seq<char>| #[trigger]
                before.resolves_to(identifier@, serial) && after@ == before@.with_default(
                    Some(serial),
                ) && text::views(o.lines@) == seq!["Default device set to "@ + serial + "."@]
            &&& r matches Err(m) ==> after == before && m@ == not_found(identifier@)
        },
    }
}

/// What to tell the user of an identifier that stands for no device.
pub open spec fn not_found(identifier: Seq<char>) -> Seq<char> {
    "device '"@ + identifier + "' not found"@
}

/// One line, as a list.
fn one_line(line: String) -> (r: Vec<String>)
    ensures
        text::views(r@) == seq![line@],
{
    let mut r: Vec<String> = Vec::new();
    r.push(line);
    assert(text::views(r@) =~= seq![line@]);
    r
}

/// The line that describes a registered device.
fn describe_device(default: &Option<String>, serial: &str, creds: &DeviceCredentials) -> (r: String)
    ensures
        r@ == device_line(
            match *default {
                Some(s) => Some(s@),
                None => None,
            },
            serial@,
            *creds,
        ),
{
    let is_default = match default {
        Some(s) => str_eq(s.as_str(), serial),
        None => false,
    };
    let marker = if is_default {
        " [default]"
    } else {
        ""
    };
    let mut r = join3(serial, marker, " | nickname: ");
    match &creds.nickname {
        Some(n) => {
            r.append(n.as_str());
        },
        None => {
            r.append("(none)");
        },
    }
    r
}

/// The lines that describe the registered devices.
pub fn list_devices(store: &CredentialStore) -> (r: Vec<String>)
    ensures
        text::views(r@) == device_lines(store@.default, store.devices.pairs()),
{
    let ghost pairs = store.devices.pairs();
    let n: usize = store.devices.len();
    if n == 0 {
        return one_line("No devices registered.".to_owned());
    }
    let ghost all = device_lines(store@.default, pairs);
    let mut r: Vec<String> = Vec::new();
    let mut i: usize = 0;
    assert(text::views(r@) =~= all.take(0));
    while i < n
        invariant
            i <= n,
            0 < n == pairs.len(),
            pairs == store.devices.pairs(),
            all == device_lines(store@.default, pairs),
            text::views(r@) == all.take(i as int),
        decreases n - i,
    {
        let ghost before = text::views(r@);
        let (serial, creds) = store.devices.at(i);
        let line = describe_device(&store.default, serial.as_str(), creds);
        r.push(line);
        assert(line@ == all[i as int]);
        assert(text::views(r@) =~= before.push(line@));
        assert(text::views(r@) =~= all.take(i + 1));
        i = i + 1;
    }
    assert(all.take(i as int) =~= all);
    r
}

/// Carries out a device command on the store.
pub fn run_device_command(store: &mut CredentialStore, command: DeviceCommand) -> (r: Result<
    DeviceOutcome,
    String,
>)
    ensures
        device_command_done(command, *old(store), *final(store), r),
{
    match command {
        DeviceCommand::List => {
            let lines = list_devices(store);
            Ok(DeviceOutcome { save: false, lines })
        },
        DeviceCommand::Add { serial, password, nickname } => {
            let line = join3("Device ", serial.as_str(), " added.");
            store.set_device(serial, DeviceCredentials { password, nickname });
            Ok(DeviceOutcome { save: true, lines: one_line(line) })
        },
        DeviceCommand::Remove { identifier } => {
            let serial = match store.resolve_device(identifier.as_str()) {
                Some((serial, _)) => serial.to_owned(),
                None => {
                    return Err(join3("device '", identifier.as_str(), "' not found"));
                },
            };
            let ghost before = store@;
            assert(old(store).resolves_to(identifier@, serial@));
            let removed = store.remove_device(serial.as_str());
            assert(removed);
            let is_default = match &store.default {
                Some(s) => str_eq(s.as_str(), serial.as_str()),
                None => false,
            };
            if is_default {
                store.clear_default();
            }
            assert(store@ == after_removal(before, serial@));
            let line = join3("Device ", serial.as_str(), " removed.");
            Ok(DeviceOutcome { save: true, lines: one_line(line) })
        },
        DeviceCommand::SetDefault { identifier } => {
            let serial = match store.resolve_device(identifier.as_str()) {
                Some((serial, _)) => serial.to_owned(),
                None => {
                    return Err(join3("device '", identifier.as_str(), "' not found"));
                },
            };
            assert(old(store).resolves_to(identifier@, serial@));
            let line = join3("Default device set to ", serial.as_str(), ".");
            store.set_default(serial);
            Ok(DeviceOutcome { save: true, lines: one_line(line) })
        },
    }
}

/// The device that a command removed is neither registered nor the default; every
/// other device, and any other default, is as before.
pub proof fn law_removed_device_is_gone(store: StoreView, serial: Seq<char>, other: Seq<char>)
    ensures
        after_removal(store, serial).device(serial) is None,
        after_removal(store, serial).default != Some(serial),
        other != serial ==> after_removal(store, serial).device(other) == store.device(other),
        other != serial && store.default == Some(other) ==> after_removal(store, serial).default
            == Some(other),
{
}

/// The device that is chosen is active, and there is no more than one.
pub proof fn law_chosen_device_is_unique(
    store: CredentialStore,
    device_arg: Option<String>,
    a: Seq<char>,
    b: Seq<char>,
)
    requires
        is_chosen(store, device_arg, a),
        is_chosen(store, device_arg, b),
    ensures
        a == b,
        is_active(store@, device_arg, a),
{
    if let Some(identifier) = device_arg {
        credential_store::law_resolution_is_unique(store, identifier@, a, b);
    }
}

/// Once a device is made the default, it is the one to work with when none is asked
/// for.
pub proof fn law_default_is_active(store: StoreView, identifier: Seq<char>, serial: Seq<char>)
    requires
        store.stands_for(identifier, serial),
    ensures
        is_active(store.with_default(Some(serial)), None, serial),
        forall|other: Seq<char>|
            is_active(store.with_default(Some(serial)), None, other) ==> other == serial,
{
}

/// Whether an answer to a yes-or-no question means yes: nothing, or a `y`.
pub open spec fn says_yes(answer: Seq<char>) -> bool {
    let t = text::trimmed(answer);
    t.len() == 0 || t == "y"@ || t == "Y"@
}

/// Whether an answer to a yes-or-no question means yes.
pub fn is_yes(answer: &str) -> (r: bool)
    ensures
        r == says_yes(answer@),
{
    let t = trim(answer);
    t.as_str().is_empty() || str_eq(t.as_str(), "y") || str_eq(t.as_str(), "Y")
}

/// Whether `r` is the nickname that an answer gives: the answer without white space
/// around it, or what it was otherwise where that is empty.
pub open spec fn is_nickname_for(
    r: Option<String>,
    answer: Seq<char>,
    otherwise: Option<String>,
) -> bool {
    if text::trimmed(answer).len() == 0 {
        r == otherwise
    } else {
        r matches Some(n) && n@ == text::trimmed(answer)
    }
}

/// The nickname that an answer gives.
pub fn chosen_nickname(answer: &str, otherwise: Option<String>) -> (r: Option<String>)
    ensures
        is_nickname_for(r, answer@, otherwise),
{
    let t = trim(answer);
    if t.as_str().is_empty() {
        otherwise
    } else {
        Some(t)
    }
}

/// The nickname under which a device is registered, if it has one.
pub open spec fn nickname_of(store: StoreView, serial: Seq<char>) -> Option<String> {
    match store.device(serial) {
        Some(creds) => creds.nickname,
        None => None,
    }
}

/// The nickname under which a device is registered, if it has one.
pub fn existing_nickname(store: &CredentialStore, serial: &str) -> (r: Option<String>)
    ensures
        r == nickname_of(store@, serial@),
{
    match store.get_device(serial) {
        Some(creds) => match &creds.nickname {
            Some(n) => Some(n.clone()),
            None => None,
        },
        None => None,
    }
}

/// The question for the nickname of a device that was paired.
pub open spec fn nickname_question(existing: Option<String>) -> Seq<char> {
    match existing {
        Some(nick) => "Nickname (Enter to keep \""@ + nick@ + "\"): "@,
        None => "Nickname (Enter to skip): "@,
    }
}

/// The question for the nickname of a device that was paired.
pub fn nickname_prompt(existing: &Option<String>) -> (r: String)
    ensures
        r@ == nickname_question(*existing),
{
    match existing {
        Some(nick) => join3("Nickname (Enter to keep \"", nick.as_str(), "\"): "),
        None => "Nickname (Enter to skip): ".to_owned(),
    }
}

/// What an error on the way to a device was caused by.
#[derive(Debug, Clone, Copy, PartialEq, Eq, Structural)]
pub enum Cause {
    /// The device answered that the credentials are wrong.
    Unauthorized,
    /// Anything else.
    Other,
}

/// Returns true if the error chain contains a 401 Unauthorized device error.
pub fn is_unauthorized(causes: &Vec<Cause>) -> (r: bool)
    ensures
        r == causes@.contains(Cause::Unauthorized),
{
    let mut i: usize = 0;
    while i < causes.len()
        invariant
            i <= causes@.len(),
            forall|j: int| 0 <= j < i ==> causes@[j] != Cause::Unauthorized,
        decreases causes@.len() - i,
    {
        if causes[i] == Cause::Unauthorized {
            return true;
        }
        i = i + 1;
    }
    false
}

/// What to do about an error of a Wi-Fi command.
#[derive(Debug)]
pub enum Recovery {
    /// Nothing: the error stands.
    Stand,
    /// To show a line; the error stands.
    Report { line: String },
    /// To show a line and ask whether to pair anew with the device.
    Offer { line: String, question: String },
}

/// The line that reports wrong credentials.
pub open spec fn unauthorized_line() -> Seq<char> {
    "Error: unauthorized (401) — is the password correct?"@
}

/// What to do about an error of a Wi-Fi command with the given causes, when the
/// given device was the one to work with.
pub fn recovery(causes: &Vec<Cause>, active_serial: &Option<String>) -> (r: Recovery)
    ensures
        match r {
            Recovery::Stand => !causes@.contains(Cause::Unauthorized),
            Recovery::Report { line } => causes@.contains(Cause::Unauthorized)
                && active_serial is None && line@ == unauthorized_line(),
            Recovery::Offer { line, question } => {
                &&& causes@.contains(Cause::Unauthorized)
                &&& active_serial matches Some(serial)
                &&& line@ == unauthorized_line()
                &&& question@ == "Re-pair with device "@ + serial@ + "? [Y/n] "@
            },
        },
{
    if !is_unauthorized(causes) {
        return Recovery::Stand;
    }
    let line = "Error: unauthorized (401) — is the password correct?".to_owned();
    match active_serial {
        Some(serial) => Recovery::Offer {
            line,
            question: join3("Re-pair with device ", serial.as_str(), "? [Y/n] "),
        },
        None => Recovery::Report { line },
    }
}

/// Takes the new password of a device that was paired anew into the store. The device
/// keeps its nickname. Returns the line to show once the store is saved.
pub fn record_repairing(store: &mut CredentialStore, serial: &str, password: String) -> (r: String)
    ensures
        final(store)@ == old(store)@.with_device(
            serial@,
            DeviceCredentials { password, nickname: nickname_of(old(store)@, serial@) },
        ),
        r@ == "Device "@ + serial@ + " re-paired and saved."@,
{
    let nickname = existing_nickname(store, serial);
    store.set_device(serial.to_owned(), DeviceCredentials { password, nickname });
    join3("Device ", serial, " re-paired and saved.")
}

/// The serial port to use: the one that was asked for, or else the one that was
/// found.
pub fn choose_port(asked: Option<String>, found: Option<String>) -> (r: Result<String, String>)
    ensures
        match asked {
            Some(port) => r == Ok::<String, String>(port),
            None => match found {
                Some(port) => r == Ok::<String, String>(port),
                None => r matches Err(m) && m@ == "no Boppo device found on USB"@,
            },
        },
{
    match asked {
        Some(port) => Ok(port),
        None => match found {
            Some(port) => Ok(port),
            None => Err("no Boppo device found on USB".to_owned()),
        },
    }
}

} // verus!
