//! What the commands over Wi-Fi ask for and show, reply by reply, for every input; and what
//! follows a command whose credentials were refused.

use vstd::prelude::*;

use crate::cli;
use crate::cli::{get_active_device, is_yes, ActiveDeviceError, Cause};
use crate::credential_store;
use crate::credential_store::{CredentialStore, DeviceCredentials};
use crate::device::DiscoveredDevice;
use crate::listing::DirEntry;
use crate::plan_laws;
use crate::repair;
use crate::repair::{Repair, RepairAction, RepairEvent, RepairState};
use crate::store_laws;
use crate::text;
use crate::text::{decimal_of, pad_left};
use crate::text_laws;
use crate::wifi;
use crate::wifi::{
    list_entries, MusicFile, Output, OutputView, WifiCommand, WifiReply, WifiRequest, WifiSession,
    WifiState, WifiStep,
};
use crate::wifi_laws;

verus! {

/// Whether a conversation that is in one state, given a reply, makes a step and is in another
/// state then, with the stores before and after.
pub open spec fn replied(
    pre: WifiState,
    before: CredentialStore,
    device_arg: Option<String>,
    reply: WifiReply,
    post: WifiState,
    after: CredentialStore,
    step: WifiStep,
) -> bool {
    wifi::converses(pre, before@, device_arg, reply, post, after@, step) && wifi::connects_to_chosen(
        before,
        device_arg,
        step,
    )
}

/// Each step of a session is such a one.
pub proof fn law_session_replies()
    ensures
        forall|
            session: &mut WifiSession,
            store: &mut CredentialStore,
            device_arg: &Option<String>,
            reply: WifiReply,
            r: WifiStep,
        |
            #[trigger] call_ensures(WifiSession::step, (session, store, device_arg, reply), r)
                ==> replied(
                (*session).state,
                *store,
                *device_arg,
                reply,
                final(session).state,
                *final(store),
                r,
            ),
{
}

/// Whether two stores hold the same.
pub open spec fn same_store(a: CredentialStore, b: CredentialStore) -> bool {
    a.devices@ == b.devices@ && a@.default == b@.default
}

/// Whether a step shows nothing.
pub open spec fn is_silent(step: WifiStep) -> bool {
    step.output@.len() == 0
}

/// Whether a step shows one line on the standard error, and nothing else.
pub open spec fn notes(step: WifiStep, s: Seq<char>) -> bool {
    step.output@.len() == 1 && (step.output@[0] matches Output::Note(n) && n@ == s)
}

/// Whether a step shows one line on the standard output, and nothing else.
pub open spec fn prints(step: WifiStep, s: Seq<char>) -> bool {
    step.output@.len() == 1 && (step.output@[0] matches Output::Line(n) && n@ == s)
}

proof fn lemma_shows(step: WifiStep)
    ensures
        wifi::output_views(step.output@).len() == step.output@.len(),
        forall|i: int|
            0 <= i < step.output@.len() ==> wifi::output_views(step.output@)[i] == (
            #[trigger] step.output@[i])@,
{
}

/// A session begins with its command.
pub proof fn law_session_begins_with_its_command(command: WifiCommand, r: WifiSession)
    requires
        call_ensures(WifiSession::new, (command,), r),
    ensures
        r.state == WifiState::Start(command),
{
}

/// Every command but those that discover devices or pair with one asks first for a client
/// to the device to work with, by its address and with its own password. Without such a
/// device it fails, and says so.
pub proof fn law_command_connects_to_the_active_device(
    command: WifiCommand,
    store: CredentialStore,
    device_arg: Option<String>,
    active: Result<(&str, &DeviceCredentials), ActiveDeviceError>,
    post: WifiState,
    after: CredentialStore,
    step: WifiStep,
)
    requires
        !(command is Pair) && !(command is DiscoverDevices),
        call_ensures(get_active_device, (&store, &device_arg), active),
        replied(WifiState::Start(command), store, device_arg, WifiReply::Done, post, after, step),
    ensures
        same_store(after, store),
        is_silent(step),
        active matches Ok((serial, creds)) ==> post == WifiState::Connecting(command) && (
        step.request matches WifiRequest::Connect { url, password } && url@ == "https://boppo-"@
            + serial@ + ".local"@ && password@ == creds.password@),
        active is Err ==> post is Over && (step.request matches WifiRequest::Fail { message }
            && message@ == (match device_arg {
            Some(identifier) => "device '"@ + identifier@ + "' not found in credential store"@,
            None => "no default device set; use --device or `boppo device set-default`"@,
        })),
{
    lemma_shows(step);
    if let Ok((serial, creds)) = active {
        assert(cli::is_active(store@, device_arg, serial@));
        assert(wifi::connects_to_chosen(store, device_arg, step));
        if let WifiRequest::Connect { url, password } = step.request {
            let s = choose|s: Seq<char>| #[trigger]
                cli::is_chosen(store, device_arg, s) && url@
                    == credential_store::url_of(s) && password
                    == store@.devices[s].password;
            cli::law_chosen_device_is_unique(store, device_arg, s, serial@);
        }
    }
}

/// To synchronise asks for just what the command says: its own directories, whether to
/// delete, whether only to report, and whether to be verbose. That changes are only reported
/// is told before, and that all is done, where it is verbose, after.
pub proof fn law_directory_is_synchronised_as_asked(
    host_dir: String,
    device_dir: String,
    delete: bool,
    dry_run: bool,
    verbose: bool,
    store: CredentialStore,
    device_arg: Option<String>,
    states: Seq<WifiState>,
    stores: Seq<CredentialStore>,
    steps: Seq<WifiStep>,
)
    requires
        states.len() == 2 && stores.len() == 2 && steps.len() == 2,
        replied(
            WifiState::Connecting(
                WifiCommand::SyncDir { host_dir, device_dir, delete, dry_run, verbose },
            ),
            store,
            device_arg,
            WifiReply::Done,
            states[0],
            stores[0],
            steps[0],
        ),
        replied(
            states[0],
            stores[0],
            device_arg,
            WifiReply::Done,
            states[1],
            stores[1],
            steps[1],
        ),
    ensures
        steps[0].request matches WifiRequest::SyncDir {
            host_dir: h,
            device_dir: d,
            delete: x,
            dry_run: y,
            verbose: z,
        } && h@ == host_dir@ && d@ == device_dir@ && x == delete && y == dry_run && z == verbose,
        if dry_run {
            notes(steps[0], "Dry run..."@)
        } else {
            is_silent(steps[0])
        },
        steps[1].request is Finish,
        states[1] is Over,
        if verbose {
            notes(steps[1], "Done syncing all files."@)
        } else {
            is_silent(steps[1])
        },
        same_store(stores[1], store),
{
    let command = WifiCommand::SyncDir { host_dir, device_dir, delete, dry_run, verbose };
    lemma_shows(steps[0]);
    lemma_shows(steps[1]);
}

/// To upload a file reads it, sends what was read to the device path, and tells of both
/// paths.
pub proof fn law_file_is_uploaded_as_it_is(
    host_path: String,
    device_path: String,
    data: Vec<u8>,
    store: CredentialStore,
    device_arg: Option<String>,
    states: Seq<WifiState>,
    stores: Seq<CredentialStore>,
    steps: Seq<WifiStep>,
)
    requires
        states.len() == 3 && stores.len() == 3 && steps.len() == 3,
        replied(
            WifiState::Connecting(WifiCommand::UploadFile { host_path, device_path }),
            store,
            device_arg,
            WifiReply::Done,
            states[0],
            stores[0],
            steps[0],
        ),
        replied(
            states[0],
            stores[0],
            device_arg,
            WifiReply::Contents(data),
            states[1],
            stores[1],
            steps[1],
        ),
        replied(
            states[1],
            stores[1],
            device_arg,
            WifiReply::Done,
            states[2],
            stores[2],
            steps[2],
        ),
    ensures
        steps[0].request matches WifiRequest::ReadFile { path, context } && path@ == host_path@
            && context@ == "failed to read "@ + host_path@,
        is_silent(steps[0]),
        steps[1].request matches WifiRequest::Upload { device_path: d, data: x } && d@
            == device_path@ && x@ == data@,
        is_silent(steps[1]),
        steps[2].request is Finish,
        states[2] is Over,
        notes(steps[2], "Uploaded "@ + host_path@ + " -> "@ + device_path@),
        same_store(stores[2], store),
{
    let command = WifiCommand::UploadFile { host_path, device_path };
    lemma_shows(steps[0]);
    lemma_shows(steps[1]);
    lemma_shows(steps[2]);
}

/// To download a file asks for it, writes what came to the host path, and tells of both
/// paths and of the number of bytes in decimal.
pub proof fn law_file_is_downloaded_as_it_is(
    device_path: String,
    host_path: String,
    data: Vec<u8>,
    digits: String,
    store: CredentialStore,
    device_arg: Option<String>,
    states: Seq<WifiState>,
    stores: Seq<CredentialStore>,
    steps: Seq<WifiStep>,
)
    requires
        states.len() == 3 && stores.len() == 3 && steps.len() == 3,
        call_ensures(decimal_of, (data@.len() as u64,), digits),
        replied(
            WifiState::Connecting(WifiCommand::DownloadFile { device_path, host_path }),
            store,
            device_arg,
            WifiReply::Done,
            states[0],
            stores[0],
            steps[0],
        ),
        replied(
            states[0],
            stores[0],
            device_arg,
            WifiReply::Contents(data),
            states[1],
            stores[1],
            steps[1],
        ),
        replied(
            states[1],
            stores[1],
            device_arg,
            WifiReply::Done,
            states[2],
            stores[2],
            steps[2],
        ),
    ensures
        steps[0].request matches WifiRequest::Download { device_path: d } && d@ == device_path@,
        is_silent(steps[0]),
        steps[1].request matches WifiRequest::WriteFile { path, data: x, context } && path@
            == host_path@ && x@ == data@ && context@ == "failed to write "@ + host_path@,
        is_silent(steps[1]),
        steps[2].request is Finish,
        states[2] is Over,
        notes(
            steps[2],
            "Downloaded "@ + device_path@ + " -> "@ + host_path@ + " ("@ + digits@ + " bytes)"@,
        ),
        same_store(stores[2], store),
{
    let command = WifiCommand::DownloadFile { device_path, host_path };
    lemma_shows(steps[0]);
    lemma_shows(steps[1]);
    lemma_shows(steps[2]);
}

/// Whether a line describes an entry of a device directory: `d` for a directory and `f` for
/// a file, its size in decimal, right-aligned, and its name.
pub open spec fn describes(line: Seq<char>, entry: DirEntry) -> bool {
    forall|digits: String, n: &str, size: String|
        #![trigger call_ensures(decimal_of, (entry.size,), digits), call_ensures(
            pad_left,
            (n, 10usize),
            size,
        )]
        call_ensures(decimal_of, (entry.size,), digits) && n@ == digits@ && call_ensures(
            pad_left,
            (n, 10usize),
            size,
        ) ==> line == (if entry.is_dir {
            seq!['d', ' ']
        } else {
            seq!['f', ' ']
        }) + size@ + "  "@ + entry.name@
}

/// Whether output describes the entries of a device directory, one in a line.
pub open spec fn describes_all(output: Seq<Output>, entries: Seq<DirEntry>) -> bool {
    if entries.len() == 0 {
        output.len() == 1 && (output[0] matches Output::Line(s) && s@ == "(empty)"@)
    } else {
        output.len() == entries.len() && forall|i: int|
            0 <= i < entries.len() ==> (#[trigger] output[i] matches Output::Line(s) && describes(
                s@,
                entries[i],
            ))
    }
}

proof fn lemma_describes_all(output: Seq<Output>, entries: Seq<DirEntry>)
    requires
        wifi::output_views(output) == wifi::entry_lines(entries),
    ensures
        describes_all(output, entries),
{
    let views = wifi::output_views(output);
    assert(views.len() == output.len());
    assert forall|i: int| 0 <= i < output.len() implies views[i] == (#[trigger] output[i])@ by {}
    reveal_strlit("d");
    reveal_strlit("f");
    reveal_strlit(" ");
    if entries.len() > 0 {
        assert forall|i: int| 0 <= i < entries.len() implies (#[trigger] output[i] matches
            Output::Line(s) && describes(s@, entries[i])) by {
            assert(views[i] == OutputView::Line(wifi::entry_line(entries[i])));
            assert("d"@ + " "@ =~= seq!['d', ' ']);
            assert("f"@ + " "@ =~= seq!['f', ' ']);
        }
    } else {
        assert(views[0] == output[0]@);
    }
}

/// The entries of a device directory are listed one in a line.
pub proof fn law_entries_are_described(entries: &Vec<DirEntry>, r: Vec<Output>)
    requires
        call_ensures(list_entries, (entries,), r),
    ensures
        describes_all(r@, entries@),
{
    lemma_describes_all(r@, entries@);
}

/// To list a directory asks for it and describes its entries.
pub proof fn law_directory_is_listed(
    path: String,
    entries: Vec<DirEntry>,
    store: CredentialStore,
    device_arg: Option<String>,
    states: Seq<WifiState>,
    stores: Seq<CredentialStore>,
    steps: Seq<WifiStep>,
)
    requires
        states.len() == 2 && stores.len() == 2 && steps.len() == 2,
        replied(
            WifiState::Connecting(WifiCommand::LsDir { path }),
            store,
            device_arg,
            WifiReply::Done,
            states[0],
            stores[0],
            steps[0],
        ),
        replied(
            states[0],
            stores[0],
            device_arg,
            WifiReply::Entries(entries),
            states[1],
            stores[1],
            steps[1],
        ),
    ensures
        steps[0].request matches WifiRequest::ReadDir { path: p } && p@ == path@,
        is_silent(steps[0]),
        steps[1].request is Finish,
        states[1] is Over,
        describes_all(steps[1].output@, entries@),
        same_store(stores[1], store),
{
    lemma_shows(steps[0]);
    lemma_describes_all(steps[1].output@, entries@);
}

/// To remove a file asks for just that, and tells of it.
pub proof fn law_file_is_removed(
    path: String,
    store: CredentialStore,
    device_arg: Option<String>,
    states: Seq<WifiState>,
    stores: Seq<CredentialStore>,
    steps: Seq<WifiStep>,
)
    requires
        states.len() == 2 && stores.len() == 2 && steps.len() == 2,
        replied(
            WifiState::Connecting(WifiCommand::RmFile { path }),
            store,
            device_arg,
            WifiReply::Done,
            states[0],
            stores[0],
            steps[0],
        ),
        replied(
            states[0],
            stores[0],
            device_arg,
            WifiReply::Done,
            states[1],
            stores[1],
            steps[1],
        ),
    ensures
        steps[0].request matches WifiRequest::RemoveFile { path: p } && p@ == path@,
        is_silent(steps[0]),
        steps[1].request is Finish,
        states[1] is Over,
        notes(steps[1], "Removed "@ + path@),
        same_store(stores[1], store),
{
    lemma_shows(steps[0]);
    lemma_shows(steps[1]);
}

/// A command is run on the device as it is, and its output is shown as it came.
pub proof fn law_command_is_run_as_it_is(
    command: String,
    output: String,
    store: CredentialStore,
    device_arg: Option<String>,
    states: Seq<WifiState>,
    stores: Seq<CredentialStore>,
    steps: Seq<WifiStep>,
)
    requires
        states.len() == 2 && stores.len() == 2 && steps.len() == 2,
        replied(
            WifiState::Connecting(WifiCommand::ExecuteCommand { command }),
            store,
            device_arg,
            WifiReply::Done,
            states[0],
            stores[0],
            steps[0],
        ),
        replied(
            states[0],
            stores[0],
            device_arg,
            WifiReply::Text(output),
            states[1],
            stores[1],
            steps[1],
        ),
    ensures
        steps[0].request matches WifiRequest::RunCommand { command: c } && c@ == command@,
        is_silent(steps[0]),
        steps[1].request is Finish,
        states[1] is Over,
        steps[1].output@.len() == 1 && (steps[1].output@[0] matches Output::Part(s) && s@
            == output@),
        same_store(stores[1], store),
{
    lemma_shows(steps[0]);
    lemma_shows(steps[1]);
}

/// Whether a step turns to a music file: it is read, unless there is none left or it has no
/// name that is text; its place on the device is below the music directory, under its
/// sanitized name.
pub open spec fn reads_music(
    files: Vec<MusicFile>,
    next: int,
    post: WifiState,
    step: WifiStep,
) -> bool {
    if next >= files@.len() {
        post is Over && step.request is Finish
    } else if files@[next].file_name is None {
        post is Over && (step.request matches WifiRequest::Fail { message } && message@
            == "invalid file name: "@ + files@[next].display@)
    } else {
        &&& step.request matches WifiRequest::ReadMusicFile { index, context }
        &&& index == next
        &&& context@ == "failed to read "@ + files@[next].display@
        &&& post matches WifiState::ReadingMusic { files: f, next: n, device_path }
        &&& f == files
        &&& n == next
        &&& is_music_path(device_path@, files@[next].file_name->0@)
    }
}

/// Whether a path is the place of a music file: below the music directory, under its
/// sanitized name.
pub open spec fn is_music_path(path: Seq<char>, file_name: Seq<char>) -> bool {
    exists|name: Seq<char>|
        text_laws::is_core(name, file_name.filter(|c: char| !store_laws::is_removed(c))) && path
            == #[trigger] plan_laws::below("/sd/activities/user/music"@, name)
}

proof fn lemma_music_path(file_name: Seq<char>)
    ensures
        is_music_path(wifi::music_path(file_name), file_name),
{
    let f = |c: char| !store_laws::is_removed(c);
    let g = |c: char| !cli::is_stripped(c);
    assert(f =~= g);
    let name = cli::sanitized(file_name);
    text_laws::lemma_trimmed_is_core(file_name.filter(f));
    reveal_strlit("/");
    assert(wifi::music_path(file_name) =~= plan_laws::below("/sd/activities/user/music"@, name));
}

/// To upload music turns to the first file, sends what was read of a file to its place, tells
/// of it, and turns to the next.
pub proof fn law_music_goes_to_its_place(
    files: Vec<MusicFile>,
    next: usize,
    device_path: String,
    data: Vec<u8>,
    store: CredentialStore,
    device_arg: Option<String>,
    states: Seq<WifiState>,
    stores: Seq<CredentialStore>,
    steps: Seq<WifiStep>,
)
    requires
        states.len() == 3 && stores.len() == 3 && steps.len() == 3,
        next < files@.len(),
        replied(
            WifiState::Connecting(WifiCommand::UploadMusic { files }),
            store,
            device_arg,
            WifiReply::Done,
            states[0],
            stores[0],
            steps[0],
        ),
        replied(
            WifiState::ReadingMusic { files, next, device_path },
            store,
            device_arg,
            WifiReply::Contents(data),
            states[1],
            stores[1],
            steps[1],
        ),
        replied(
            states[1],
            stores[1],
            device_arg,
            WifiReply::Done,
            states[2],
            stores[2],
            steps[2],
        ),
    ensures
        is_silent(steps[0]),
        reads_music(files, 0, states[0], steps[0]),
        is_silent(steps[1]),
        steps[1].request matches WifiRequest::Upload { device_path: d, data: x } && d@
            == device_path@ && x@ == data@,
        notes(steps[2], "Uploaded "@ + files@[next as int].display@ + " -> "@ + device_path@),
        reads_music(files, next + 1, states[2], steps[2]),
        same_store(stores[0], store),
        same_store(stores[2], store),
{
    lemma_shows(steps[0]);
    lemma_shows(steps[1]);
    lemma_shows(steps[2]);
    if files@[0].file_name is Some {
        lemma_music_path(files@[0].file_name->0@);
    }
    if next + 1 < files@.len() && files@[next + 1].file_name is Some {
        lemma_music_path(files@[next + 1].file_name->0@);
    }
}

/// To pair asks the device of the serial number, asks for a nickname, registers the device
/// with the password that it gave and the nickname that was chosen, and saves the store.
pub proof fn law_paired_device_is_registered(
    serial: String,
    password: String,
    answer: String,
    core: Seq<char>,
    store: CredentialStore,
    device_arg: Option<String>,
    states: Seq<WifiState>,
    stores: Seq<CredentialStore>,
    steps: Seq<WifiStep>,
)
    requires
        states.len() == 4 && stores.len() == 4 && steps.len() == 4,
        text_laws::is_core(core, answer@),
        replied(
            WifiState::Start(WifiCommand::Pair { serial }),
            store,
            device_arg,
            WifiReply::Done,
            states[0],
            stores[0],
            steps[0],
        ),
        replied(
            states[0],
            stores[0],
            device_arg,
            WifiReply::Text(password),
            states[1],
            stores[1],
            steps[1],
        ),
        replied(
            states[1],
            stores[1],
            device_arg,
            WifiReply::Text(answer),
            states[2],
            stores[2],
            steps[2],
        ),
        replied(
            states[2],
            stores[2],
            device_arg,
            WifiReply::Done,
            states[3],
            stores[3],
            steps[3],
        ),
    ensures
        notes(steps[0], "Pairing with device "@ + serial@ + "..."@),
        steps[0].request matches WifiRequest::Pair { serial: s } && s@ == serial@,
        is_silent(steps[1]),
        steps[1].request matches WifiRequest::Ask { question } && question@ == (
        if store.devices@.contains_key(serial@) && store.devices@[serial@].nickname is Some {
            "Nickname (Enter to keep \""@ + store.devices@[serial@].nickname->0@ + "\"): "@
        } else {
            "Nickname (Enter to skip): "@
        }),
        is_silent(steps[2]),
        steps[2].request is SaveStore,
        prints(steps[3], "Device "@ + serial@ + " paired and saved."@),
        steps[3].request is Finish,
        states[3] is Over,
        stores[3]@.default == store@.default,
        exists|nickname: Option<String>|
            stores[3].devices@ == #[trigger] store.devices@.insert(
                serial@,
                DeviceCredentials { password, nickname },
            ) && (if core.len() > 0 {
                nickname is Some && nickname->0@ == core
            } else if store.devices@.contains_key(serial@) {
                nickname == store.devices@[serial@].nickname
            } else {
                nickname is None
            }),
{
    lemma_shows(steps[0]);
    lemma_shows(steps[1]);
    lemma_shows(steps[2]);
    lemma_shows(steps[3]);
    text_laws::lemma_trimmed_is_core(answer@);
    text_laws::lemma_core_is_unique(answer@, core, text::trimmed(answer@));
    let existing = cli::nickname_of(store@, serial@);
    let nickname = choose|nickname: Option<String>| #[trigger]
        cli::is_nickname_for(nickname, answer@, existing) && stores[2]@ == stores[1]@.with_device(
            serial@,
            DeviceCredentials { password, nickname },
        );
    assert(stores[3].devices@ == store.devices@.insert(
        serial@,
        DeviceCredentials { password, nickname },
    ));
}

/// The line that names a device that was found, and says whether it is registered.
pub open spec fn found(device: DiscoveredDevice, store: CredentialStore) -> Seq<char> {
    "  "@ + device.serial@ + " \""@ + device.device_name@ + (if store.devices@.contains_key(
        device.serial@,
    ) {
        "\" [already in store]"@
    } else {
        "\" [not paired]"@
    })
}

/// Whether a step passes over registered devices: it names those from `from` on up to the
/// first that is not registered, which is at `at`, with that one, after `n` other outputs;
/// and asks whether to pair with that one, or finishes where there is none.
pub open spec fn passes_to(
    store: CredentialStore,
    devices: Vec<DiscoveredDevice>,
    from: int,
    at: int,
    n: nat,
    post: WifiState,
    step: WifiStep,
) -> bool {
    let last = if at < devices@.len() {
        at
    } else {
        at - 1
    };
    &&& from <= at <= devices@.len()
    &&& forall|i: int|
        from <= i < at ==> store.devices@.contains_key((#[trigger] devices@[i]).serial@)
    &&& at < devices@.len() ==> !store.devices@.contains_key(devices@[at].serial@)
    &&& step.output@.len() == n + (last + 1 - from)
    &&& forall|i: int|
        from <= i <= last ==> (#[trigger] step.output@[n + (i - from)] matches Output::Line(s) && s@
            == found(devices@[i], store))
    &&& if at < devices@.len() {
        &&& post matches WifiState::Inviting { devices: d, next }
        &&& d == devices
        &&& next == at
        &&& step.request matches WifiRequest::Ask { question }
        &&& question@ == "Pair with this device? [Y/n] "@
    } else {
        post is Over && step.request is Finish
    }
}

/// Whether a step passes over registered devices, from one on.
pub open spec fn passes_on(
    store: CredentialStore,
    devices: Vec<DiscoveredDevice>,
    from: int,
    n: nat,
    post: WifiState,
    step: WifiStep,
) -> bool {
    exists|at: int| passes_to(store, devices, from, at, n, post, step)
}

proof fn lemma_found_lines(store: CredentialStore, devices: Seq<DiscoveredDevice>, from: int)
    requires
        0 <= from <= devices.len(),
    ensures
        ({
            let at = wifi::first_unknown(store@, devices, from);
            let lines = wifi::found_lines(store@, devices, from);
            let last = if at < devices.len() {
                at
            } else {
                at - 1
            };
            &&& lines.len() == last + 1 - from
            &&& forall|i: int|
                from <= i <= last ==> #[trigger] lines[i - from] == OutputView::Line(
                    found(devices[i], store),
                )
        }),
    decreases devices.len() - from,
{
    if from < devices.len() && store@.device(devices[from].serial@) is Some {
        lemma_found_lines(store, devices, from + 1);
        let rest = wifi::found_lines(store@, devices, from + 1);
        let lines = wifi::found_lines(store@, devices, from);
        wifi_laws::law_only_unknown_devices_are_offered(store@, devices, from + 1);
        let at = wifi::first_unknown(store@, devices, from);
        let last = if at < devices.len() {
            at
        } else {
            at - 1
        };
        assert forall|i: int| from <= i <= last implies #[trigger] lines[i - from]
            == OutputView::Line(found(devices[i], store)) by {
            if i > from {
                assert(rest[i - (from + 1)] == OutputView::Line(found(devices[i], store)));
            }
        }
    }
}

proof fn lemma_passes_to(
    store: CredentialStore,
    devices: Vec<DiscoveredDevice>,
    from: int,
    output: Seq<OutputView>,
    post: WifiState,
    step: WifiStep,
)
    requires
        0 <= from <= devices@.len(),
        wifi::turns_to_found(store@, devices, from, output, post, step),
    ensures
        passes_on(store, devices, from, output.len(), post, step),
        forall|i: int|
            0 <= i < output.len() ==> (#[trigger] step.output@[i])@ == output[i],
{
    let at = wifi::first_unknown(store@, devices@, from);
    let lines = wifi::found_lines(store@, devices@, from);
    wifi_laws::law_only_unknown_devices_are_offered(store@, devices@, from);
    lemma_found_lines(store, devices@, from);
    lemma_shows(step);
    assert(devices@.len() == devices.len());
    assert forall|i: int| from <= i < at implies store.devices@.contains_key(
        (#[trigger] devices@[i]).serial@,
    ) by {
        assert(store@.device(devices@[i].serial@) is Some);
    }
    let last = if at < devices@.len() {
        at
    } else {
        at - 1
    };
    assert forall|i: int| from <= i <= last implies (#[trigger] step.output@[output.len() + (i
        - from)] matches Output::Line(s) && s@ == found(devices@[i], store)) by {
        let k = output.len() + (i - from);
        assert((output + lines)[k] == lines[i - from]);
        assert(step.output@[k]@ == OutputView::Line(found(devices@[i], store)));
    }
    assert(passes_to(store, devices, from, at, output.len(), post, step));
}

/// To discover devices browses for them, and then turns to those that were found, or says
/// that there are none.
pub proof fn law_found_devices_are_named(
    devices: Vec<DiscoveredDevice>,
    store: CredentialStore,
    device_arg: Option<String>,
    states: Seq<WifiState>,
    stores: Seq<CredentialStore>,
    steps: Seq<WifiStep>,
)
    requires
        states.len() == 2 && stores.len() == 2 && steps.len() == 2,
        replied(
            WifiState::Start(WifiCommand::DiscoverDevices),
            store,
            device_arg,
            WifiReply::Done,
            states[0],
            stores[0],
            steps[0],
        ),
        replied(
            states[0],
            stores[0],
            device_arg,
            WifiReply::Found(devices),
            states[1],
            stores[1],
            steps[1],
        ),
    ensures
        notes(steps[0], "Searching for Boppo devices (5s)..."@),
        steps[0].request is Browse,
        devices@.len() == 0 ==> prints(steps[1], "No devices found."@) && steps[1].request is Finish
            && states[1] is Over,
        devices@.len() > 0 ==> passes_on(store, devices, 0, 0, states[1], steps[1]),
        same_store(stores[1], store),
{
    lemma_shows(steps[0]);
    lemma_shows(steps[1]);
    if devices@.len() > 0 {
        lemma_passes_to(store, devices, 0, Seq::empty(), states[1], steps[1]);
    }
}

/// A device that was found is paired with if and only if the user says yes; otherwise the
/// next one is turned to.
pub proof fn law_user_decides_on_a_found_device(
    devices: Vec<DiscoveredDevice>,
    next: usize,
    answer: String,
    given: &str,
    yes: bool,
    store: CredentialStore,
    device_arg: Option<String>,
    post: WifiState,
    after: CredentialStore,
    step: WifiStep,
)
    requires
        next < devices@.len(),
        given@ == answer@,
        call_ensures(is_yes, (given,), yes),
        replied(
            WifiState::Inviting { devices, next },
            store,
            device_arg,
            WifiReply::Text(answer),
            post,
            after,
            step,
        ),
    ensures
        step.request is Pair <==> yes,
        yes ==> is_silent(step) && post == (WifiState::PairingFound { devices, next }) && (
        step.request matches WifiRequest::Pair { serial } && serial@
            == devices@[next as int].serial@),
        !yes ==> passes_on(store, devices, next + 1, 0, post, step),
        same_store(after, store),
{
    lemma_shows(step);
    if !yes {
        lemma_passes_to(store, devices, next + 1, Seq::empty(), post, step);
    }
}

/// A device that was found and paired is registered with the password that it gave and the
/// nickname that was chosen, or its own name; becomes the default where there was none; and
/// is saved. Then the next one is turned to.
pub proof fn law_found_device_is_named_and_saved(
    devices: Vec<DiscoveredDevice>,
    next: usize,
    password: String,
    answer: String,
    core: Seq<char>,
    store: CredentialStore,
    device_arg: Option<String>,
    states: Seq<WifiState>,
    stores: Seq<CredentialStore>,
    steps: Seq<WifiStep>,
)
    requires
        states.len() == 3 && stores.len() == 3 && steps.len() == 3,
        next < devices@.len(),
        text_laws::is_core(core, answer@),
        replied(
            WifiState::PairingFound { devices, next },
            store,
            device_arg,
            WifiReply::Text(password),
            states[0],
            stores[0],
            steps[0],
        ),
        replied(
            states[0],
            stores[0],
            device_arg,
            WifiReply::Text(answer),
            states[1],
            stores[1],
            steps[1],
        ),
        replied(
            states[1],
            stores[1],
            device_arg,
            WifiReply::Done,
            states[2],
            stores[2],
            steps[2],
        ),
    ensures
        is_silent(steps[0]),
        steps[0].request matches WifiRequest::Ask { question } && question@
            == "Nickname for this device (Enter for \""@ + devices@[next as int].device_name@
            + "\"): "@,
        steps[1].request is SaveStore,
        store.default is None ==> prints(steps[1], "Set as default device."@),
        store.default is Some ==> is_silent(steps[1]),
        stores[1]@.default == (if store.default is None {
            Some(devices@[next as int].serial@)
        } else {
            store@.default
        }),
        exists|nickname: Option<String>|
            stores[1].devices@ == #[trigger] store.devices@.insert(
                devices@[next as int].serial@,
                DeviceCredentials { password, nickname },
            ) && nickname is Some && nickname->0@ == (if core.len() > 0 {
                core
            } else {
                devices@[next as int].device_name@
            }),
        steps[2].output@.len() > 0 && (steps[2].output@[0] matches Output::Line(s) && s@
            == "Device "@ + devices@[next as int].serial@ + " paired and saved."@),
        passes_on(stores[1], devices, next + 1, 1, states[2], steps[2]),
        same_store(stores[2], stores[1]),
{
    lemma_shows(steps[0]);
    lemma_shows(steps[1]);
    lemma_shows(steps[2]);
    text_laws::lemma_trimmed_is_core(answer@);
    text_laws::lemma_core_is_unique(answer@, core, text::trimmed(answer@));
    let device = devices@[next as int];
    let nickname = choose|nickname: Option<String>| #[trigger]
        cli::is_nickname_for(nickname, answer@, Some(device.device_name)) && stores[1]@
            == wifi::with_found_device(
            stores[0]@,
            device.serial@,
            DeviceCredentials { password, nickname },
        );
    assert(stores[1].devices@ == store.devices@.insert(
        device.serial@,
        DeviceCredentials { password, nickname },
    ));
    let line = OutputView::Line("Device "@ + device.serial@ + " paired and saved."@);
    lemma_passes_to(stores[1], devices, next + 1, seq![line], states[2], steps[2]);
    assert(steps[2].output@[0]@ == seq![line][0]);
}

/// Whether a reply is one that a conversation waits for.
pub open spec fn fits(state: WifiState, reply: WifiReply) -> bool {
    match state {
        WifiState::Start(_) | WifiState::Syncing { .. } | WifiState::UploadingFile { .. }
        | WifiState::Writing { .. } | WifiState::Removing { .. }
        | WifiState::SavingPaired { .. } => reply is Done,
        WifiState::Connecting(command) => reply is Done && !(command is DiscoverDevices)
            && !(command is Pair),
        WifiState::UploadingMusic { files, next, .. } => reply is Done && next < files@.len(),
        WifiState::SavingFound { devices, next } => reply is Done && next < devices@.len(),
        WifiState::ReadingFile { .. } | WifiState::ReadingMusic { .. }
        | WifiState::Downloading { .. } => reply is Contents,
        WifiState::Listing => reply is Entries,
        WifiState::Running | WifiState::Pairing { .. } | WifiState::Naming { .. } => reply is Text,
        WifiState::Inviting { devices, next } => reply is Text && next < devices@.len(),
        WifiState::PairingFound { devices, next } => reply is Text && next < devices@.len(),
        WifiState::NamingFound { devices, next, .. } => reply is Text && next < devices@.len(),
        WifiState::Browsing => reply is Found,
        WifiState::Over => false,
    }
}

/// A reply that a conversation does not wait for changes nothing, and no other reply is
/// taken for one.
pub proof fn law_other_replies_change_nothing(
    pre: WifiState,
    before: CredentialStore,
    device_arg: Option<String>,
    reply: WifiReply,
    post: WifiState,
    after: CredentialStore,
    step: WifiStep,
)
    requires
        replied(pre, before, device_arg, reply, post, after, step),
    ensures
        step.request is Unexpected <==> !fits(pre, reply),
        step.request is Unexpected ==> post == pre && is_silent(step) && same_store(after, before),
{
    lemma_shows(step);
}

/// What is asked of the device, the host and the user comes of the command that calls for
/// it, and of no other.
pub proof fn law_requests_come_of_their_commands(
    pre: WifiState,
    before: CredentialStore,
    device_arg: Option<String>,
    reply: WifiReply,
    post: WifiState,
    after: CredentialStore,
    step: WifiStep,
)
    requires
        replied(pre, before, device_arg, reply, post, after, step),
    ensures
        step.request is Connect ==> pre is Start,
        step.request is SyncDir ==> (pre matches WifiState::Connecting(c) && c is SyncDir),
        step.request is ReadFile ==> (pre matches WifiState::Connecting(c) && c is UploadFile),
        step.request is Upload ==> pre is ReadingFile || pre is ReadingMusic,
        step.request is Download ==> (pre matches WifiState::Connecting(c) && c is DownloadFile),
        step.request is WriteFile ==> pre is Downloading,
        step.request is ReadDir ==> (pre matches WifiState::Connecting(c) && c is LsDir),
        step.request is RemoveFile ==> (pre matches WifiState::Connecting(c) && c is RmFile),
        step.request is RunCommand ==> (pre matches WifiState::Connecting(c) && c
            is ExecuteCommand),
        step.request is Browse ==> (pre matches WifiState::Start(c) && c is DiscoverDevices),
        step.request is Pair ==> pre is Inviting || (pre matches WifiState::Start(c) && c is Pair),
        step.request is SaveStore <==> (pre is Naming || pre is NamingFound) && fits(pre, reply),
        !same_store(after, before) ==> step.request is SaveStore,
{
}

/// Whether a recovery that is in one state, given an event, takes an action and is in another
/// state then, with the stores before and after.
pub open spec fn recovered(
    pre: RepairState,
    before: CredentialStore,
    event: RepairEvent,
    post: RepairState,
    after: CredentialStore,
    action: RepairAction,
) -> bool {
    repair::recovers(pre, before@, event, post, after@, action)
}

/// Each step of a recovery is such a one.
pub proof fn law_recovery_steps()
    ensures
        forall|
            repair: &mut Repair,
            store: &mut CredentialStore,
            event: RepairEvent,
            r: RepairAction,
        |
            #[trigger] call_ensures(Repair::step, (repair, store, event), r) ==> recovered(
                (*repair).state,
                *store,
                event,
                final(repair).state,
                *final(store),
                r,
            ),
{
}

/// When a command fails, the user is offered to pair anew if and only if the credentials were
/// refused and there is a device; without a device that is only told; and any other error
/// stands.
pub proof fn law_refused_credentials_lead_to_an_offer(
    serial: Option<String>,
    causes: Vec<Cause>,
    before: CredentialStore,
    post: RepairState,
    after: CredentialStore,
    action: RepairAction,
)
    requires
        recovered(
            RepairState::Start { active_serial: serial },
            before,
            RepairEvent::Failed(causes),
            post,
            after,
            action,
        ),
    ensures
        same_store(after, before),
        if !causes@.contains(Cause::Unauthorized) {
            action is Fail && post is Over
        } else if serial is None {
            post is Over && (action matches RepairAction::ReportAndFail { line } && line@
                == "Error: unauthorized (401) — is the password correct?"@)
        } else {
            &&& action matches RepairAction::Ask { line, question }
            &&& line@ == "Error: unauthorized (401) — is the password correct?"@
            &&& question@ == "Re-pair with device "@ + serial->0@ + "? [Y/n] "@
            &&& post == (RepairState::Asking { serial: serial->0 })
        },
{
}

/// A user who says yes is paired with the device anew, and otherwise the error stands.
pub proof fn law_user_decides_on_pairing_anew(
    serial: String,
    answer: String,
    given: &str,
    yes: bool,
    before: CredentialStore,
    post: RepairState,
    after: CredentialStore,
    action: RepairAction,
)
    requires
        given@ == answer@,
        call_ensures(is_yes, (given,), yes),
        recovered(
            RepairState::Asking { serial },
            before,
            RepairEvent::Answered(answer),
            post,
            after,
            action,
        ),
    ensures
        same_store(after, before),
        if yes {
            &&& action matches RepairAction::Pair { line, serial: s }
            &&& s@ == serial@
            &&& line@ == "Pairing with device "@ + serial@ + "..."@
            &&& post == (RepairState::Pairing { serial })
        } else {
            action is Fail && post is Over
        },
{
}

/// The device that was paired anew has the new password and the nickname that it had, the
/// store is saved, and then that is told.
pub proof fn law_device_paired_anew_is_saved(
    serial: String,
    password: String,
    before: CredentialStore,
    states: Seq<RepairState>,
    stores: Seq<CredentialStore>,
    actions: Seq<RepairAction>,
)
    requires
        states.len() == 2 && stores.len() == 2 && actions.len() == 2,
        recovered(
            RepairState::Pairing { serial },
            before,
            RepairEvent::Paired(password),
            states[0],
            stores[0],
            actions[0],
        ),
        recovered(
            states[0],
            stores[0],
            RepairEvent::Saved,
            states[1],
            stores[1],
            actions[1],
        ),
    ensures
        actions[0] is SaveStore,
        actions[1] matches RepairAction::Finish { line } && line@ == "Device "@ + serial@
            + " re-paired and saved."@,
        states[1] is Over,
        same_store(stores[1], stores[0]),
        stores[0]@.default == before@.default,
        stores[0].devices@ == before.devices@.insert(
            serial@,
            (DeviceCredentials {
                password,
                nickname: if before.devices@.contains_key(serial@) {
                    before.devices@[serial@].nickname
                } else {
                    None
                },
            }),
        ),
{
}

/// An event that a recovery does not wait for changes nothing.
pub proof fn law_recovery_ignores_other_events(
    pre: RepairState,
    before: CredentialStore,
    event: RepairEvent,
    post: RepairState,
    after: CredentialStore,
    action: RepairAction,
)
    requires
        recovered(pre, before, event, post, after, action),
    ensures
        action is Unexpected <==> !(match pre {
            RepairState::Start { .. } => event is Failed,
            RepairState::Asking { .. } => event is Answered,
            RepairState::Pairing { .. } => event is Paired,
            RepairState::Saving { .. } => event is Saved,
            RepairState::Over => false,
        }),
        action is Unexpected ==> post == pre && same_store(after, before),
{
}

/// A recovery begins with the device that was worked with.
pub proof fn law_recovery_begins_with_the_device(active_serial: Option<String>, r: Repair)
    requires
        call_ensures(Repair::new, (active_serial,), r),
    ensures
        r.state == (RepairState::Start { active_serial }),
{
}

} // verus!
