//! The store of device credentials.

use vstd::prelude::*;

use crate::name_map;
use crate::name_map::NameMap;
use crate::text;
use crate::text::{join3, str_eq};

verus! {

/// Credentials and connection info for a single Boppo device.
#[derive(Debug)]
pub struct DeviceCredentials {
    /// Bearer token returned by the device pairing flow.
    pub password: String,
    /// Optional human-readable name for the device.
    pub nickname: Option<String>,
}

impl Clone for DeviceCredentials {
    fn clone(&self) -> (r: Self)
        ensures
            r == *self,
    {
        let nickname = match &self.nickname {
            Some(n) => Some(n.clone()),
            None => None,
        };
        DeviceCredentials { password: self.password.clone(), nickname }
    }
}

impl Default for DeviceCredentials {
    fn default() -> (r: Self)
        ensures
            r.password@ == Seq::<char>::empty(),
            r.nickname is None,
    {
        DeviceCredentials { password: String::new(), nickname: None }
    }
}

/// Whether the credentials carry the given nickname.
pub open spec fn has_nickname(creds: DeviceCredentials, name: Seq<char>) -> bool {
    creds.nickname matches Some(n) && n@ == name
}

/// The base HTTPS URL of the device with the given serial number.
pub open spec fn url_of(serial: Seq<char>) -> Seq<char> {
    "https://boppo-"@ + serial + ".local"@
}

/// Returns the base HTTPS URL for a device given its serial number.
pub fn device_url(serial: &str) -> (r: String)
    ensures
        r@ == url_of(serial@),
{
    join3("https://boppo-", serial, ".local")
}

/// Devices have the same URL only if they have the same serial number.
pub proof fn law_device_url_is_injective(a: Seq<char>, b: Seq<char>)
    requires
        url_of(a) == url_of(b),
    ensures
        a == b,
{
    let head = "https://boppo-"@;
    let tail = ".local"@;
    assert(url_of(a).subrange(head.len() as int, url_of(a).len() - tail.len()) =~= a);
    assert(url_of(b).subrange(head.len() as int, url_of(b).len() - tail.len()) =~= b);
}

/// Store of device credentials, by serial number.
#[derive(Debug)]
pub struct CredentialStore {
    /// Serial number of the default device, if one has been set.
    pub default: Option<String>,
    /// The registered devices.
    pub devices: NameMap<DeviceCredentials>,
}

/// What a store holds: the serial number of its default device, and the credentials
/// of each registered device.
pub struct StoreView {
    pub default: Option<Seq<char>>,
    pub devices: Map<Seq<char>, DeviceCredentials>,
}

impl StoreView {
    /// The store with the credentials of a device added or replaced.
    pub open spec fn with_device(self, serial: Seq<char>, creds: DeviceCredentials) -> StoreView {
        StoreView { devices: self.devices.insert(serial, creds), ..self }
    }

    /// The store without a device.
    pub open spec fn without_device(self, serial: Seq<char>) -> StoreView {
        StoreView { devices: self.devices.remove(serial), ..self }
    }

    /// The store with another default device.
    pub open spec fn with_default(self, serial: Option<Seq<char>>) -> StoreView {
        StoreView { default: serial, ..self }
    }

    /// The credentials of a device.
    pub open spec fn device(self, serial: Seq<char>) -> Option<DeviceCredentials> {
        if self.devices.contains_key(serial) {
            Some(self.devices[serial])
        } else {
            None
        }
    }

    /// Whether an identifier may stand for a device: its serial number does, and
    /// its nickname where no device has it as serial number.
    pub open spec fn stands_for(self, identifier: Seq<char>, serial: Seq<char>) -> bool {
        self.devices.contains_key(serial) && if self.devices.contains_key(identifier) {
            serial == identifier
        } else {
            has_nickname(self.devices[serial], identifier)
        }
    }

    /// Whether an identifier stands for a device.
    pub open spec fn is_known(self, identifier: Seq<char>) -> bool {
        exists|serial: Seq<char>| self.stands_for(identifier, serial)
    }

    /// The default device, if one is set and registered.
    pub open spec fn default_serial(self) -> Option<Seq<char>> {
        match self.default {
            Some(serial) => if self.devices.contains_key(serial) {
                Some(serial)
            } else {
                None
            },
            None => None,
        }
    }
}

impl View for CredentialStore {
    type V = StoreView;

    open spec fn view(&self) -> StoreView {
        StoreView {
            default: match self.default {
                Some(s) => Some(s@),
                None => None,
            },
            devices: self.devices@,
        }
    }
}

impl Clone for CredentialStore {
    fn clone(&self) -> (r: Self)
        ensures
            r.default == self.default,
            r.devices.pairs() == self.devices.pairs(),
            r@ == self@,
    {
        let default = match &self.default {
            Some(s) => Some(s.clone()),
            None => None,
        };
        let devices = self.devices.clone();
        assert forall|i: int| 0 <= i < self.devices.pairs().len() implies #[trigger] devices.pairs()[i]
            == self.devices.pairs()[i] by {
            let a = self.devices.pairs()[i].1;
            let b = devices.pairs()[i].1;
            assert(cloned::<DeviceCredentials>(a, b));
        }
        assert(devices.pairs() =~= self.devices.pairs());
        CredentialStore { default, devices }
    }
}

impl Default for CredentialStore {
    fn default() -> (r: Self)
        ensures
            r@.default is None,
            r@.devices == Map::<Seq<char>, DeviceCredentials>::empty(),
            r.devices.pairs() == Seq::<(Seq<char>, DeviceCredentials)>::empty(),
    {
        CredentialStore { default: None, devices: NameMap::new() }
    }
}

/// Whether the entry at `i` is the first whose device has the given nickname.
pub open spec fn first_nicknamed(
    pairs: Seq<(Seq<char>, DeviceCredentials)>,
    name: Seq<char>,
    i: int,
) -> bool {
    &&& 0 <= i < pairs.len()
    &&& has_nickname(pairs[i].1, name)
    &&& forall|j: int| 0 <= j < i ==> !has_nickname((#[trigger] pairs[j]).1, name)
}

impl CredentialStore {
    /// Whether an identifier resolves to a device: a serial number to its own, a nickname
    /// to the first registered device that has it.
    pub open spec fn resolves_to(self, identifier: Seq<char>, serial: Seq<char>) -> bool {
        &&& self@.stands_for(identifier, serial)
        &&& self@.devices.contains_key(identifier) || exists|i: int| #[trigger]
            first_nicknamed(self.devices.pairs(), identifier, i) && self.devices.pairs()[i].0
                == serial
    }

    /// Look up a device by its serial number.
    pub fn get_device(&self, serial: &str) -> (r: Option<&DeviceCredentials>)
        ensures
            match self@.device(serial@) {
                Some(creds) => r == Some(&creds),
                None => r is None,
            },
    {
        self.devices.get(serial)
    }

    /// Add or replace the credentials for a device, keyed by serial number.
    pub fn set_device(&mut self, serial: String, creds: DeviceCredentials)
        ensures
            final(self)@ == old(self)@.with_device(serial@, creds),
            final(self).devices.pairs() == name_map::with_pair(
                old(self).devices.pairs(),
                serial@,
                creds,
            ),
    {
        self.devices.insert(serial, creds);
    }

    /// Remove a device by serial number. Returns `true` if it existed.
    pub fn remove_device(&mut self, serial: &str) -> (r: bool)
        ensures
            r == old(self)@.devices.contains_key(serial@),
            final(self)@ == old(self)@.without_device(serial@),
            final(self).devices.pairs() == name_map::without_pair(
                old(self).devices.pairs(),
                serial@,
            ),
    {
        self.devices.remove(serial).is_some()
    }

    /// Set the default device by serial number.
    pub fn set_default(&mut self, serial: String)
        ensures
            final(self)@ == old(self)@.with_default(Some(serial@)),
            final(self).devices == old(self).devices,
    {
        self.default = Some(serial);
    }

    /// Clear the default device.
    pub fn clear_default(&mut self)
        ensures
            final(self)@ == old(self)@.with_default(None),
            final(self).devices == old(self).devices,
    {
        self.default = None;
    }

    /// Find a device by serial number or nickname.
    ///
    /// Serial number is checked first; if no match is found, all nicknames are
    /// searched. Returns the canonical serial number alongside the credentials,
    /// or `None` if no device matches. Of several devices with the nickname the one
    /// that comes first in the store is found.
    pub fn resolve_device<'a>(&'a self, identifier: &str) -> (r: Option<
        (&'a str, &'a DeviceCredentials),
    >)
        ensures
            r is Some <==> self@.is_known(identifier@),
            r matches Some((serial, creds)) ==> self.resolves_to(identifier@, serial@) && *creds
                == self@.devices[serial@],
    {
        if let Some((serial, creds)) = self.devices.get_key_value(identifier) {
            assert(self@.stands_for(identifier@, serial@));
            return Some((serial.as_str(), creds));
        }
        let ghost pairs = self.devices.pairs();
        let n: usize = self.devices.len();
        let mut i: usize = 0;
        while i < n
            invariant
                i <= n,
                n == pairs.len(),
                pairs == self.devices.pairs(),
                name_map::distinct_names(pairs),
                !self@.devices.contains_key(identifier@),
                forall|j: int| 0 <= j < i ==> !has_nickname((#[trigger] pairs[j]).1, identifier@),
            decreases n - i,
        {
            let (serial, creds) = self.devices.at(i);
            if let Some(nickname) = &creds.nickname {
                if str_eq(nickname.as_str(), identifier) {
                    assert(self@.stands_for(identifier@, serial@));
                    assert(first_nicknamed(pairs, identifier@, i as int));
                    return Some((serial.as_str(), creds));
                }
            }
            i = i + 1;
        }
        assert forall|serial: Seq<char>| !self@.stands_for(identifier@, serial) by {
            if self@.devices.contains_key(serial) {
                let j = name_map::lemma_position(pairs, serial);
            }
        }
        None
    }

    /// Return the credentials for the default device, if one is configured.
    pub fn default_device<'a>(&'a self) -> (r: Option<(&'a str, &'a DeviceCredentials)>)
        ensures
            match self@.default_serial() {
                Some(serial) => r matches Some((s, creds)) && s@ == serial && *creds
                    == self@.devices[serial],
                None => r is None,
            },
    {
        match &self.default {
            Some(serial) => match self.devices.get(serial.as_str()) {
                Some(creds) => Some((serial.as_str(), creds)),
                None => None,
            },
            None => None,
        }
    }
}

/// The contents of a store file: the default device, and the credentials of each
/// device by serial number.
#[derive(Debug)]
pub struct StoreFile {
    pub default: Option<String>,
    pub devices: Vec<(String, DeviceCredentials)>,
}

impl CredentialStore {
    /// Load the store from the contents of its file. Returns an empty store if the file
    /// does not exist.
    pub fn load(file: Option<StoreFile>) -> (r: CredentialStore)
        ensures
            match file {
                Some(f) => {
                    &&& r.default == f.default
                    &&& r@.devices == name_map::collected_map(name_map::pairs_of(f.devices@))
                    &&& r.devices.pairs() == name_map::collected(name_map::pairs_of(f.devices@))
                },
                None => {
                    &&& r.default is None
                    &&& r@.devices == Map::<Seq<char>, DeviceCredentials>::empty()
                    &&& r.devices.pairs() == Seq::<(Seq<char>, DeviceCredentials)>::empty()
                },
            },
    {
        let file = match file {
            Some(file) => file,
            None => {
                return CredentialStore::default();
            },
        };
        let entries = file.devices;
        let ghost all = name_map::pairs_of(entries@);
        let mut devices: NameMap<DeviceCredentials> = NameMap::new();
        let mut i: usize = 0;
        assert(all.take(0) =~= Seq::empty());
        while i < entries.len()
            invariant
                i <= entries@.len(),
                all == name_map::pairs_of(entries@),
                devices@ == name_map::collected_map(all.take(i as int)),
                devices.pairs() == name_map::collected(all.take(i as int)),
            decreases entries@.len() - i,
        {
            assert(all.take(i + 1).drop_last() =~= all.take(i as int));
            assert(all.take(i + 1).last() == all[i as int]);
            devices.insert(entries[i].0.clone(), entries[i].1.clone());
            i = i + 1;
        }
        assert(all.take(i as int) =~= all);
        CredentialStore { default: file.default, devices }
    }

    /// The contents of the file that the store is saved in.
    pub fn save(&self) -> (r: StoreFile)
        ensures
            r.default == self.default,
            name_map::pairs_of(r.devices@) == self.devices.pairs(),
            name_map::distinct_names(self.devices.pairs()),
    {
        let ghost pairs = self.devices.pairs();
        let mut entries: Vec<(String, DeviceCredentials)> = Vec::new();
        let n: usize = self.devices.len();
        let mut i: usize = 0;
        assert(name_map::pairs_of(entries@) =~= pairs.take(0));
        while i < n
            invariant
                i <= n,
                n == pairs.len(),
                pairs == self.devices.pairs(),
                name_map::pairs_of(entries@) == pairs.take(i as int),
            decreases n - i,
        {
            let ghost before = name_map::pairs_of(entries@);
            let (serial, creds) = self.devices.at(i);
            entries.push((serial.clone(), creds.clone()));
            assert(name_map::pairs_of(entries@) =~= before.push(pairs[i as int]));
            assert(name_map::pairs_of(entries@) =~= pairs.take(i + 1));
            i = i + 1;
        }
        assert(pairs.take(i as int) =~= pairs);
        let default = match &self.default {
            Some(s) => Some(s.clone()),
            None => None,
        };
        StoreFile { default, devices: entries }
    }
}

/// Where a path begins: at a directory that was given, or at one that is named.
#[derive(Debug)]
pub enum PathStart<P> {
    Given(P),
    Named(String),
}

/// A path: where it begins, and the pieces that are joined to it one after the other.
#[derive(Debug)]
pub struct StorePath<P> {
    pub start: PathStart<P>,
    pub pieces: Vec<String>,
}

/// Returns the default path for the credential store file, given the platform's
/// configuration directory (`~/.config/boppo/devices.toml` for `~/.config`). Without
/// one it is below the current directory.
pub fn default_store_path<P>(config_dir: Option<P>) -> (r: StorePath<P>)
    ensures
        match config_dir {
            Some(dir) => r.start == PathStart::Given(dir),
            None => r.start matches PathStart::Named(dir) && dir@ == "."@,
        },
        text::views(r.pieces@) == seq!["boppo"@, "devices.toml"@],
{
    let start = match config_dir {
        Some(dir) => PathStart::Given(dir),
        None => PathStart::Named(".".to_owned()),
    };
    let mut pieces: Vec<String> = Vec::new();
    pieces.push("boppo".to_owned());
    pieces.push("devices.toml".to_owned());
    assert(text::views(pieces@) =~= seq!["boppo"@, "devices.toml"@]);
    StorePath { start, pieces }
}

/// Loading what was saved gives the store back: its default device, every registered
/// device with its credentials, in the same order, and no other.
pub proof fn law_load_gives_back_what_was_saved(
    store: CredentialStore,
    file: StoreFile,
    loaded: CredentialStore,
)
    requires
        name_map::distinct_names(store.devices.pairs()),
        file.default == store.default,
        name_map::pairs_of(file.devices@) == store.devices.pairs(),
        loaded.default == file.default,
        loaded.devices.pairs() == name_map::collected(name_map::pairs_of(file.devices@)),
    ensures
        loaded@ == store@,
        loaded.devices.pairs() == store.devices.pairs(),
{
    name_map::lemma_collected_distinct(store.devices.pairs());
}

/// A device that was set is found with its new credentials, and every other device
/// as before.
pub proof fn law_get_after_set(
    store: StoreView,
    serial: Seq<char>,
    creds: DeviceCredentials,
    other: Seq<char>,
)
    ensures
        store.with_device(serial, creds).device(serial) == Some(creds),
        other != serial ==> store.with_device(serial, creds).device(other) == store.device(other),
        store.with_device(serial, creds).default == store.default,
{
}

/// A device that was removed is not found, and every other device is as before.
pub proof fn law_get_after_remove(store: StoreView, serial: Seq<char>, other: Seq<char>)
    ensures
        store.without_device(serial).device(serial) is None,
        other != serial ==> store.without_device(serial).device(other) == store.device(other),
        store.without_device(serial).default == store.default,
{
}

/// A serial number always stands for its own device, whatever nicknames there are.
pub proof fn law_serial_comes_first(store: StoreView, serial: Seq<char>, other: Seq<char>)
    requires
        store.devices.contains_key(serial),
    ensures
        store.stands_for(serial, other) <==> other == serial,
{
}

/// What an identifier resolves to is a registered serial number, and resolves to
/// itself.
pub proof fn law_resolving_is_idempotent(
    store: StoreView,
    identifier: Seq<char>,
    serial: Seq<char>,
    other: Seq<char>,
)
    requires
        store.stands_for(identifier, serial),
    ensures
        store.device(serial) is Some,
        store.stands_for(serial, other) <==> other == serial,
{
}

/// An identifier resolves to no more than one device.
pub proof fn law_resolution_is_unique(
    store: CredentialStore,
    identifier: Seq<char>,
    a: Seq<char>,
    b: Seq<char>,
)
    requires
        store.resolves_to(identifier, a),
        store.resolves_to(identifier, b),
    ensures
        a == b,
{
    if !store@.devices.contains_key(identifier) {
        let pairs = store.devices.pairs();
        let i = choose|i: int| #[trigger] first_nicknamed(pairs, identifier, i) && pairs[i].0 == a;
        let j = choose|j: int| #[trigger] first_nicknamed(pairs, identifier, j) && pairs[j].0 == b;
        assert(i == j);
    }
}

/// A registered device that is made the default is the default device; without a
/// default, or with one that is not registered, there is none.
pub proof fn law_default_device(store: StoreView, serial: Seq<char>)
    ensures
        store.devices.contains_key(serial) ==> store.with_default(Some(serial)).default_serial()
            == Some(serial),
        !store.devices.contains_key(serial) ==> store.with_default(Some(serial)).default_serial()
            is None,
        store.with_default(None).default_serial() is None,
        store.with_default(Some(serial)).without_device(serial).default_serial() is None,
{
}

} // verus!
