//! The commands over Wi-Fi, as conversations: each step shows some output and makes
//! one request; the reply to it is the input of the next step. A request that fails
//! ends the conversation.

use vstd::prelude::*;

use crate::cli;
use crate::cli::{
    chosen_nickname, existing_nickname, get_active_device, is_yes, nickname_prompt,
    sanitize_file_name,
};
use crate::credential_store;
use crate::credential_store::{device_url, CredentialStore, DeviceCredentials, StoreView};
use crate::device::DiscoveredDevice;
use crate::listing::DirEntry;
use crate::sync;
use crate::sync::child;
use crate::text;
use crate::text::{decimal_of, join2, join3, join5, pad_left};

verus! {

/// Where music is stored on the device.
pub const MUSIC_DIR: &'static str = "/sd/activities/user/music";

/// A music file of the host: its path as shown to the user, and its file name where
/// it has one that is UTF-8.
#[derive(Debug)]
pub struct MusicFile {
    pub display: String,
    pub file_name: Option<String>,
}

/// A command over Wi-Fi.
#[derive(Debug)]
pub enum WifiCommand {
    SyncDir { host_dir: String, device_dir: String, delete: bool, dry_run: bool, verbose: bool },
    UploadFile { host_path: String, device_path: String },
    UploadMusic { files: Vec<MusicFile> },
    DownloadFile { device_path: String, host_path: String },
    LsDir { path: String },
    RmFile { path: String },
    ExecuteCommand { command: String },
    DiscoverDevices,
    Pair { serial: String },
}

/// Something to show.
#[derive(Debug)]
pub enum Output {
    /// A line on the standard output.
    Line(String),
    /// Text on the standard output, as it is.
    Part(String),
    /// A line on the standard error.
    Note(String),
}

/// A request of a conversation. `context` is what its failure is wrapped in.
#[derive(Debug)]
pub enum WifiRequest {
    /// To make a client for the device.
    Connect { url: String, password: String },
    /// To synchronise a directory.
    SyncDir { host_dir: String, device_dir: String, delete: bool, dry_run: bool, verbose: bool },
    /// To read a host file.
    ReadFile { path: String, context: String },
    /// To read the music file at a position of the command.
    ReadMusicFile { index: usize, context: String },
    /// To upload a device file.
    Upload { device_path: String, data: Vec<u8> },
    /// To download a device file.
    Download { device_path: String },
    /// To write a host file.
    WriteFile { path: String, data: Vec<u8>, context: String },
    /// To list a device directory.
    ReadDir { path: String },
    /// To remove a device file.
    RemoveFile { path: String },
    /// To run a shell command on the device.
    RunCommand { command: String },
    /// To browse for devices.
    Browse,
    /// To pair with a device.
    Pair { serial: String },
    /// To ask the user and read a line.
    Ask { question: String },
    /// To save the credential store.
    SaveStore,
    /// Nothing: the command is done.
    Finish,
    /// Nothing: the command fails, with what to tell the user.
    Fail { message: String },
    /// Nothing: the reply does not answer the last request.
    Unexpected,
}

/// The reply to a request that succeeded.
#[derive(Debug)]
pub enum WifiReply {
    /// Nothing is handed back; also what starts a conversation.
    Done,
    /// The contents of a file.
    Contents(Vec<u8>),
    /// The entries of a device directory.
    Entries(Vec<DirEntry>),
    /// The output of a command, the password of a pairing, or the user's answer.
    Text(String),
    /// The devices that were found.
    Found(Vec<DiscoveredDevice>),
}

/// A step of a conversation: output to show, then a request.
#[derive(Debug)]
pub struct WifiStep {
    pub output: Vec<Output>,
    pub request: WifiRequest,
}

/// Where a conversation is.
#[derive(Debug)]
pub enum WifiState {
    Start(WifiCommand),
    Connecting(WifiCommand),
    Syncing { verbose: bool },
    ReadingFile { host_path: String, device_path: String },
    UploadingFile { host_path: String, device_path: String },
    ReadingMusic { files: Vec<MusicFile>, next: usize, device_path: String },
    UploadingMusic { files: Vec<MusicFile>, next: usize, device_path: String },
    Downloading { device_path: String, host_path: String },
    Writing { device_path: String, host_path: String, size: u64 },
    Listing,
    Removing { path: String },
    Running,
    Pairing { serial: String },
    Naming { serial: String, password: String, existing: Option<String> },
    SavingPaired { serial: String },
    Browsing,
    Inviting { devices: Vec<DiscoveredDevice>, next: usize },
    PairingFound { devices: Vec<DiscoveredDevice>, next: usize },
    NamingFound { devices: Vec<DiscoveredDevice>, next: usize, password: String },
    SavingFound { devices: Vec<DiscoveredDevice>, next: usize },
    Over,
}

/// The contents of an [`Output`].
pub enum OutputView {
    Line(Seq<char>),
    Part(Seq<char>),
    Note(Seq<char>),
}

impl View for Output {
    type V = OutputView;

    open spec fn view(&self) -> OutputView {
        match self {
            Output::Line(s) => OutputView::Line(s@),
            Output::Part(s) => OutputView::Part(s@),
            Output::Note(s) => OutputView::Note(s@),
        }
    }
}

/// The contents of each output.
pub open spec fn output_views(v: Seq<Output>) -> Seq<OutputView> {
    v.map_values(|o: Output| o@)
}

/// Whether a step shows exactly the given output.
pub open spec fn shows(step: WifiStep, output: Seq<OutputView>) -> bool {
    output_views(step.output@) == output
}

/// No output.
fn nothing() -> (r: Vec<Output>)
    ensures
        output_views(r@) == Seq::<OutputView>::empty(),
{
    let r: Vec<Output> = Vec::new();
    assert(output_views(r@) =~= Seq::<OutputView>::empty());
    r
}

/// One output.
fn only(o: Output) -> (r: Vec<Output>)
    ensures
        output_views(r@) == seq![o@],
{
    let mut r: Vec<Output> = Vec::new();
    r.push(o);
    assert(output_views(r@) =~= seq![o@]);
    r
}

/// Whether a conversation ends as it should: it is over, and the step says so.
pub open spec fn finishes(post: WifiState, step: WifiStep) -> bool {
    post is Over && step.request is Finish
}

/// Whether a conversation fails with the given message.
pub open spec fn fails(post: WifiState, step: WifiStep, message: Seq<char>) -> bool {
    &&& post is Over
    &&& shows(step, Seq::empty())
    &&& step.request matches WifiRequest::Fail { message: m }
    &&& m@ == message
}

/// What to tell the user when there is no device to work with.
pub open spec fn no_active_device(device_arg: Option<String>) -> Seq<char> {
    match device_arg {
        Some(identifier) => "device '"@ + identifier@ + "' not found in credential store"@,
        None => "no default device set; use --device or `boppo device set-default`"@,
    }
}

/// The first step: a command that needs a client asks for one to the active device,
/// with that device's password.
pub open spec fn starts(
    command: WifiCommand,
    store: StoreView,
    device_arg: Option<String>,
    post: WifiState,
    step: WifiStep,
) -> bool {
    match command {
        WifiCommand::Pair { serial } => {
            &&& post == WifiState::Pairing { serial }
            &&& shows(step, seq![OutputView::Note("Pairing with device "@ + serial@ + "..."@)])
            &&& step.request == WifiRequest::Pair { serial }
        },
        WifiCommand::DiscoverDevices => {
            &&& post is Browsing
            &&& shows(step, seq![OutputView::Note("Searching for Boppo devices (5s)..."@)])
            &&& step.request is Browse
        },
        _ => {
            if exists|serial: Seq<char>| cli::is_active(store, device_arg, serial) {
                &&& post == WifiState::Connecting(command)
                &&& shows(step, Seq::empty())
                &&& step.request matches WifiRequest::Connect { url, password }
                &&& exists|serial: Seq<char>| #[trigger]
                    cli::is_active(store, device_arg, serial) && url@ == credential_store::url_of(
                        serial,
                    ) && password == store.devices[serial].password
            } else {
                fails(post, step, no_active_device(device_arg))
            }
        },
    }
}

/// Whether a step, where it asks for a client, asks for one to the device that is
/// chosen, with that device's password.
pub open spec fn connects_to_chosen(
    store: CredentialStore,
    device_arg: Option<String>,
    step: WifiStep,
) -> bool {
    step.request matches WifiRequest::Connect { url, password } ==> exists|serial: Seq<char>|
        #[trigger] cli::is_chosen(store, device_arg, serial) && url@ == credential_store::url_of(
            serial,
        ) && password == store@.devices[serial].password
}

fn start(command: WifiCommand, store: &CredentialStore, device_arg: &Option<String>) -> (r: (
    WifiState,
    WifiStep,
))
    ensures
        starts(command, store@, *device_arg, r.0, r.1),
        connects_to_chosen(*store, *device_arg, r.1),
{
    match command {
        WifiCommand::Pair { serial } => {
            let note = join3("Pairing with device ", serial.as_str(), "...");
            let request = WifiRequest::Pair { serial: serial.clone() };
            (WifiState::Pairing { serial }, WifiStep { output: only(Output::Note(note)), request })
        },
        WifiCommand::DiscoverDevices => (
            WifiState::Browsing,
            WifiStep {
                output: only(Output::Note("Searching for Boppo devices (5s)...".to_owned())),
                request: WifiRequest::Browse,
            },
        ),
        _ => match get_active_device(store, device_arg) {
            Ok((serial, creds)) => {
                let request = WifiRequest::Connect {
                    url: device_url(serial),
                    password: creds.password.clone(),
                };
                assert(cli::is_active(store@, *device_arg, serial@));
                assert(cli::is_chosen(*store, *device_arg, serial@));
                (WifiState::Connecting(command), WifiStep { output: nothing(), request })
            },
            Err(e) => (
                WifiState::Over,
                WifiStep {
                    output: nothing(),
                    request: WifiRequest::Fail { message: e.message() },
                },
            ),
        },
    }
}

/// The path on the device of a music file.
pub open spec fn music_path(file_name: Seq<char>) -> Seq<char> {
    sync::child_path(MUSIC_DIR@, cli::sanitized(file_name))
}

/// Turning to the music file at `next`, after some output: it is read, unless there
/// is none left or its name is no good.
pub open spec fn turns_to_music(
    files: Vec<MusicFile>,
    next: int,
    output: Seq<OutputView>,
    post: WifiState,
    step: WifiStep,
) -> bool {
    &&& shows(step, output)
    &&& if next >= files@.len() {
        finishes(post, step)
    } else {
        let file = files@[next];
        match file.file_name {
            Some(name) => {
                &&& post matches WifiState::ReadingMusic { files: f, next: n, device_path }
                &&& f == files
                &&& n == next
                &&& device_path@ == music_path(name@)
                &&& step.request matches WifiRequest::ReadMusicFile { index, context }
                &&& index == next
                &&& context@ == "failed to read "@ + file.display@
            },
            None => {
                &&& post is Over
                &&& step.request matches WifiRequest::Fail { message }
                &&& message@ == "invalid file name: "@ + file.display@
            },
        }
    }
}

fn turn_to_music(files: Vec<MusicFile>, next: usize, output: Vec<Output>) -> (r: (
    WifiState,
    WifiStep,
))
    ensures
        turns_to_music(files, next as int, output_views(output@), r.0, r.1),
{
    if next >= files.len() {
        return (WifiState::Over, WifiStep { output, request: WifiRequest::Finish });
    }
    let device_path = match &files[next].file_name {
        Some(name) => {
            let sanitized = sanitize_file_name(name.as_str());
            child(MUSIC_DIR, sanitized.as_str())
        },
        None => {
            let message = join2("invalid file name: ", files[next].display.as_str());
            return (WifiState::Over, WifiStep { output, request: WifiRequest::Fail { message } });
        },
    };
    let context = join2("failed to read ", files[next].display.as_str());
    (
        WifiState::ReadingMusic { files, next, device_path },
        WifiStep { output, request: WifiRequest::ReadMusicFile { index: next, context } },
    )
}

/// The step after a client was made: the command's own request.
pub open spec fn proceeds(command: WifiCommand, post: WifiState, step: WifiStep) -> bool {
    match command {
        WifiCommand::SyncDir { host_dir, device_dir, delete, dry_run, verbose } => {
            &&& post == WifiState::Syncing { verbose }
            &&& shows(
                step,
                if dry_run {
                    seq![OutputView::Note("Dry run..."@)]
                } else {
                    Seq::empty()
                },
            )
            &&& step.request == WifiRequest::SyncDir {
                host_dir,
                device_dir,
                delete,
                dry_run,
                verbose,
            }
        },
        WifiCommand::UploadFile { host_path, device_path } => {
            &&& post == WifiState::ReadingFile { host_path, device_path }
            &&& shows(step, Seq::empty())
            &&& step.request matches WifiRequest::ReadFile { path, context }
            &&& path == host_path
            &&& context@ == "failed to read "@ + host_path@
        },
        WifiCommand::UploadMusic { files } => turns_to_music(files, 0, Seq::empty(), post, step),
        WifiCommand::DownloadFile { device_path, host_path } => {
            &&& post == WifiState::Downloading { device_path, host_path }
            &&& shows(step, Seq::empty())
            &&& step.request == WifiRequest::Download { device_path }
        },
        WifiCommand::LsDir { path } => {
            &&& post is Listing
            &&& shows(step, Seq::empty())
            &&& step.request == WifiRequest::ReadDir { path }
        },
        WifiCommand::RmFile { path } => {
            &&& post == WifiState::Removing { path }
            &&& shows(step, Seq::empty())
            &&& step.request == WifiRequest::RemoveFile { path }
        },
        WifiCommand::ExecuteCommand { command } => {
            &&& post is Running
            &&& shows(step, Seq::empty())
            &&& step.request == WifiRequest::RunCommand { command }
        },
        WifiCommand::DiscoverDevices => is_unexpected(WifiState::Connecting(command), post, step),
        WifiCommand::Pair { serial } => is_unexpected(WifiState::Connecting(command), post, step),
    }
}

/// Whether a reply did not fit: the conversation stays where it is.
pub open spec fn is_unexpected(pre: WifiState, post: WifiState, step: WifiStep) -> bool {
    &&& post == pre
    &&& shows(step, Seq::empty())
    &&& step.request is Unexpected
}

fn unexpected(state: WifiState) -> (r: (WifiState, WifiStep))
    ensures
        is_unexpected(state, r.0, r.1),
{
    (state, WifiStep { output: nothing(), request: WifiRequest::Unexpected })
}

fn proceed(command: WifiCommand) -> (r: (WifiState, WifiStep))
    ensures
        proceeds(command, r.0, r.1),
{
    match command {
        WifiCommand::SyncDir { host_dir, device_dir, delete, dry_run, verbose } => {
            let output = if dry_run {
                only(Output::Note("Dry run...".to_owned()))
            } else {
                nothing()
            };
            let request = WifiRequest::SyncDir { host_dir, device_dir, delete, dry_run, verbose };
            (WifiState::Syncing { verbose }, WifiStep { output, request })
        },
        WifiCommand::UploadFile { host_path, device_path } => {
            let context = join2("failed to read ", host_path.as_str());
            let request = WifiRequest::ReadFile { path: host_path.clone(), context };
            (
                WifiState::ReadingFile { host_path, device_path },
                WifiStep { output: nothing(), request },
            )
        },
        WifiCommand::UploadMusic { files } => turn_to_music(files, 0, nothing()),
        WifiCommand::DownloadFile { device_path, host_path } => {
            let request = WifiRequest::Download { device_path: device_path.clone() };
            (
                WifiState::Downloading { device_path, host_path },
                WifiStep { output: nothing(), request },
            )
        },
        WifiCommand::LsDir { path } => (
            WifiState::Listing,
            WifiStep { output: nothing(), request: WifiRequest::ReadDir { path } },
        ),
        WifiCommand::RmFile { path } => {
            let request = WifiRequest::RemoveFile { path: path.clone() };
            (WifiState::Removing { path }, WifiStep { output: nothing(), request })
        },
        WifiCommand::ExecuteCommand { command } => (
            WifiState::Running,
            WifiStep { output: nothing(), request: WifiRequest::RunCommand { command } },
        ),
        WifiCommand::DiscoverDevices => unexpected(
            WifiState::Connecting(WifiCommand::DiscoverDevices),
        ),
        WifiCommand::Pair { serial } => unexpected(
            WifiState::Connecting(WifiCommand::Pair { serial }),
        ),
    }
}

/// The line that describes an entry of a device directory.
pub open spec fn entry_line(entry: DirEntry) -> Seq<char> {
    (if entry.is_dir {
        "d"@
    } else {
        "f"@
    }) + " "@ + text::padded_left(text::decimal(entry.size as nat), 10) + "  "@ + entry.name@
}

/// The output that describes a device directory.
pub open spec fn entry_lines(entries: Seq<DirEntry>) -> Seq<OutputView> {
    if entries.len() == 0 {
        seq![OutputView::Line("(empty)"@)]
    } else {
        entries.map_values(|e: DirEntry| OutputView::Line(entry_line(e)))
    }
}

/// The output that describes a device directory.
pub fn list_entries(entries: &Vec<DirEntry>) -> (r: Vec<Output>)
    ensures
        output_views(r@) == entry_lines(entries@),
{
    if entries.len() == 0 {
        return only(Output::Line("(empty)".to_owned()));
    }
    let ghost all = entry_lines(entries@);
    let mut r: Vec<Output> = nothing();
    let mut i: usize = 0;
    assert(output_views(r@) =~= all.take(0));
    while i < entries.len()
        invariant
            i <= entries@.len(),
            0 < entries@.len(),
            all == entry_lines(entries@),
            output_views(r@) == all.take(i as int),
        decreases entries@.len() - i,
    {
        let e = &entries[i];
        let kind = if e.is_dir {
            "d"
        } else {
            "f"
        };
        let n = decimal_of(e.size);
        let size = pad_left(n.as_str(), 10);
        let line = join5(kind, " ", size.as_str(), "  ", e.name.as_str());
        let ghost before = output_views(r@);
        let o = Output::Line(line);
        r.push(o);
        assert(o@ == all[i as int]);
        assert(output_views(r@) =~= before.push(o@));
        assert(output_views(r@) =~= all.take(i + 1));
        i = i + 1;
    }
    assert(all.take(i as int) =~= all);
    r
}

/// The line that names a discovered device and says how it stands.
pub open spec fn found_line(device: DiscoveredDevice, known: bool) -> Seq<char> {
    "  "@ + device.serial@ + " \""@ + device.device_name@ + (if known {
        "\" [already in store]"@
    } else {
        "\" [not paired]"@
    })
}

/// The first of the discovered devices from `next` on that is not registered; their
/// number if there is none.
pub open spec fn first_unknown(
    store: StoreView,
    devices: Seq<DiscoveredDevice>,
    next: int,
) -> int
    decreases devices.len() - next,
{
    if next >= devices.len() {
        devices.len() as int
    } else if store.device(devices[next].serial@) is Some {
        first_unknown(store, devices, next + 1)
    } else {
        next
    }
}

/// The output that names the discovered devices from `next` on, up to the first that
/// is not registered.
pub open spec fn found_lines(
    store: StoreView,
    devices: Seq<DiscoveredDevice>,
    next: int,
) -> Seq<OutputView>
    decreases devices.len() - next,
{
    if next >= devices.len() {
        Seq::empty()
    } else if store.device(devices[next].serial@) is Some {
        seq![OutputView::Line(found_line(devices[next], true))] + found_lines(
            store,
            devices,
            next + 1,
        )
    } else {
        seq![OutputView::Line(found_line(devices[next], false))]
    }
}

/// Turning to the discovered devices from `next` on, after some output: registered
/// ones are only named; for the first other one the user is asked.
pub open spec fn turns_to_found(
    store: StoreView,
    devices: Vec<DiscoveredDevice>,
    next: int,
    output: Seq<OutputView>,
    post: WifiState,
    step: WifiStep,
) -> bool {
    let at = first_unknown(store, devices@, next);
    &&& shows(step, output + found_lines(store, devices@, next))
    &&& if at >= devices@.len() {
        finishes(post, step)
    } else {
        &&& post == WifiState::Inviting { devices, next: at as usize }
        &&& step.request matches WifiRequest::Ask { question }
        &&& question@ == "Pair with this device? [Y/n] "@
    }
}

fn turn_to_found(
    store: &CredentialStore,
    devices: Vec<DiscoveredDevice>,
    next: usize,
    output: Vec<Output>,
) -> (r: (WifiState, WifiStep))
    requires
        next <= devices@.len(),
    ensures
        turns_to_found(store@, devices, next as int, output_views(output@), r.0, r.1),
{
    let ghost first = output_views(output@);
    let ghost lines = found_lines(store@, devices@, next as int);
    let ghost at = first_unknown(store@, devices@, next as int);
    let mut shown = output;
    let mut i: usize = next;
    while i < devices.len()
        invariant
            next <= i <= devices@.len(),
            first == output_views(output@),
            lines == found_lines(store@, devices@, next as int),
            at == first_unknown(store@, devices@, next as int),
            first + lines == output_views(shown@) + found_lines(store@, devices@, i as int),
            at == first_unknown(store@, devices@, i as int),
        decreases devices@.len() - i,
    {
        let known = store.get_device(devices[i].serial.as_str()).is_some();
        let mark = if known {
            "\" [already in store]"
        } else {
            "\" [not paired]"
        };
        let line = join5(
            "  ",
            devices[i].serial.as_str(),
            " \"",
            devices[i].device_name.as_str(),
            mark,
        );
        let ghost before = output_views(shown@);
        let o = Output::Line(line);
        shown.push(o);
        assert(o@ == OutputView::Line(found_line(devices@[i as int], known)));
        assert(output_views(shown@) =~= before.push(o@));
        if !known {
            assert(output_views(shown@) =~= first + lines);
            return (
                WifiState::Inviting { devices, next: i },
                WifiStep {
                    output: shown,
                    request: WifiRequest::Ask {
                        question: "Pair with this device? [Y/n] ".to_owned(),
                    },
                },
            );
        }
        assert(output_views(shown@) + found_lines(store@, devices@, i + 1) =~= first + lines);
        i = i + 1;
    }
    assert(output_views(shown@) =~= first + lines);
    (WifiState::Over, WifiStep { output: shown, request: WifiRequest::Finish })
}

/// The store after a discovered device was paired: it becomes the default where there
/// was none.
pub open spec fn with_found_device(
    store: StoreView,
    serial: Seq<char>,
    creds: DeviceCredentials,
) -> StoreView {
    if store.default is None {
        store.with_device(serial, creds).with_default(Some(serial))
    } else {
        store.with_device(serial, creds)
    }
}

/// Whether the user's answer on a discovered device leads on as it should: to pairing
/// with it, or to the next device.
pub open spec fn invited(
    store: StoreView,
    devices: Vec<DiscoveredDevice>,
    next: usize,
    answer: Seq<char>,
    post: WifiState,
    step: WifiStep,
) -> bool {
    if cli::says_yes(answer) {
        &&& post == WifiState::PairingFound { devices, next }
        &&& shows(step, Seq::empty())
        &&& step.request == WifiRequest::Pair { serial: devices@[next as int].serial }
    } else {
        turns_to_found(store, devices, next + 1, Seq::empty(), post, step)
    }
}

/// Whether the nickname of a discovered device that was paired is taken in as it
/// should be, and saved.
pub open spec fn named_found(
    before: StoreView,
    after: StoreView,
    devices: Vec<DiscoveredDevice>,
    next: usize,
    password: String,
    answer: Seq<char>,
    post: WifiState,
    step: WifiStep,
) -> bool {
    let device = devices@[next as int];
    &&& exists|nickname: Option<String>| #[trigger]
        cli::is_nickname_for(nickname, answer, Some(device.device_name)) && after
            == with_found_device(before, device.serial@, DeviceCredentials { password, nickname })
    &&& post == WifiState::SavingFound { devices, next }
    &&& shows(
        step,
        if before.default is None {
            seq![OutputView::Line("Set as default device."@)]
        } else {
            Seq::empty()
        },
    )
    &&& step.request is SaveStore
}

/// What a reply does to a conversation and to the store.
pub open spec fn converses(
    pre: WifiState,
    before: StoreView,
    device_arg: Option<String>,
    reply: WifiReply,
    post: WifiState,
    after: StoreView,
    step: WifiStep,
) -> bool {
    match (pre, reply) {
        (WifiState::Start(command), WifiReply::Done) => after == before && starts(
            command,
            before,
            device_arg,
            post,
            step,
        ),
        (WifiState::Connecting(command), WifiReply::Done) => after == before && proceeds(
            command,
            post,
            step,
        ),
        (WifiState::Syncing { verbose }, WifiReply::Done) => {
            &&& after == before
            &&& finishes(post, step)
            &&& shows(
                step,
                if verbose {
                    seq![OutputView::Note("Done syncing all files."@)]
                } else {
                    Seq::empty()
                },
            )
        },
        (WifiState::ReadingFile { host_path, device_path }, WifiReply::Contents(data)) => {
            &&& after == before
            &&& post == WifiState::UploadingFile { host_path, device_path }
            &&& shows(step, Seq::empty())
            &&& step.request == WifiRequest::Upload { device_path, data }
        },
        (WifiState::UploadingFile { host_path, device_path }, WifiReply::Done) => {
            &&& after == before
            &&& finishes(post, step)
            &&& shows(
                step,
                seq![OutputView::Note("Uploaded "@ + host_path@ + " -> "@ + device_path@)],
            )
        },
        (WifiState::ReadingMusic { files, next, device_path }, WifiReply::Contents(data)) => {
            &&& after == before
            &&& post == WifiState::UploadingMusic { files, next, device_path }
            &&& shows(step, Seq::empty())
            &&& step.request == WifiRequest::Upload { device_path, data }
        },
        (WifiState::UploadingMusic { files, next, device_path }, WifiReply::Done) => {
            &&& after == before
            &&& if next < files@.len() {
                turns_to_music(
                    files,
                    next + 1,
                    seq![
                        OutputView::Note(
                            "Uploaded "@ + files@[next as int].display@ + " -> "@ + device_path@,
                        ),
                    ],
                    post,
                    step,
                )
            } else {
                is_unexpected(pre, post, step)
            }
        },
        (WifiState::Downloading { device_path, host_path }, WifiReply::Contents(data)) => {
            &&& after == before
            &&& post == WifiState::Writing { device_path, host_path, size: data@.len() as u64 }
            &&& shows(step, Seq::empty())
            &&& step.request matches WifiRequest::WriteFile { path, data: d, context }
            &&& path == host_path
            &&& d == data
            &&& context@ == "failed to write "@ + host_path@
        },
        (WifiState::Writing { device_path, host_path, size }, WifiReply::Done) => {
            &&& after == before
            &&& finishes(post, step)
            &&& shows(
                step,
                seq![
                    OutputView::Note(
                        "Downloaded "@ + device_path@ + " -> "@ + host_path@ + " ("@
                            + text::decimal(size as nat) + " bytes)"@,
                    ),
                ],
            )
        },
        (WifiState::Listing, WifiReply::Entries(entries)) => {
            &&& after == before
            &&& finishes(post, step)
            &&& shows(step, entry_lines(entries@))
        },
        (WifiState::Removing { path }, WifiReply::Done) => {
            &&& after == before
            &&& finishes(post, step)
            &&& shows(step, seq![OutputView::Note("Removed "@ + path@)])
        },
        (WifiState::Running, WifiReply::Text(output)) => {
            &&& after == before
            &&& finishes(post, step)
            &&& shows(step, seq![OutputView::Part(output@)])
        },
        (WifiState::Pairing { serial }, WifiReply::Text(password)) => {
            let existing = cli::nickname_of(before, serial@);
            &&& after == before
            &&& post == WifiState::Naming { serial, password, existing }
            &&& shows(step, Seq::empty())
            &&& step.request matches WifiRequest::Ask { question }
            &&& question@ == cli::nickname_question(existing)
        },
        (WifiState::Naming { serial, password, existing }, WifiReply::Text(answer)) => {
            &&& exists|nickname: Option<String>| #[trigger]
                cli::is_nickname_for(nickname, answer@, existing) && after == before.with_device(
                    serial@,
                    DeviceCredentials { password, nickname },
                )
            &&& post == WifiState::SavingPaired { serial }
            &&& shows(step, Seq::empty())
            &&& step.request is SaveStore
        },
        (WifiState::SavingPaired { serial }, WifiReply::Done) => {
            &&& after == before
            &&& finishes(post, step)
            &&& shows(step, seq![OutputView::Line("Device "@ + serial@ + " paired and saved."@)])
        },
        (WifiState::Browsing, WifiReply::Found(devices)) => {
            &&& after == before
            &&& if devices@.len() == 0 {
                finishes(post, step) && shows(step, seq![OutputView::Line("No devices found."@)])
            } else {
                turns_to_found(before, devices, 0, Seq::empty(), post, step)
            }
        },
        (WifiState::Inviting { devices, next }, WifiReply::Text(answer)) => {
            &&& after == before
            &&& if next < devices@.len() {
                invited(before, devices, next, answer@, post, step)
            } else {
                is_unexpected(pre, post, step)
            }
        },
        (WifiState::PairingFound { devices, next }, WifiReply::Text(password)) => {
            &&& after == before
            &&& if next < devices@.len() {
                &&& post == WifiState::NamingFound { devices, next, password }
                &&& shows(step, Seq::empty())
                &&& step.request matches WifiRequest::Ask { question }
                &&& question@ == "Nickname for this device (Enter for \""@
                    + devices@[next as int].device_name@ + "\"): "@
            } else {
                is_unexpected(pre, post, step)
            }
        },
        (WifiState::NamingFound { devices, next, password }, WifiReply::Text(answer)) => {
            if next < devices@.len() {
                named_found(before, after, devices, next, password, answer@, post, step)
            } else {
                after == before && is_unexpected(pre, post, step)
            }
        },
        (WifiState::SavingFound { devices, next }, WifiReply::Done) => {
            &&& after == before
            &&& if next < devices@.len() {
                turns_to_found(
                    before,
                    devices,
                    next + 1,
                    seq![
                        OutputView::Line(
                            "Device "@ + devices@[next as int].serial@ + " paired and saved."@,
                        ),
                    ],
                    post,
                    step,
                )
            } else {
                is_unexpected(pre, post, step)
            }
        },
        _ => after == before && is_unexpected(pre, post, step),
    }
}

/// A conversation with the user, the device and the credential store.
#[derive(Debug)]
pub struct WifiSession {
    pub state: WifiState,
}

/// The end of a conversation, with some output.
fn finish(output: Vec<Output>) -> (r: (WifiState, WifiStep))
    ensures
        finishes(r.0, r.1),
        r.1.output == output,
{
    (WifiState::Over, WifiStep { output, request: WifiRequest::Finish })
}

impl WifiSession {
    /// A conversation that carries out a command.
    pub fn new(command: WifiCommand) -> (r: WifiSession)
        ensures
            r.state == WifiState::Start(command),
    {
        WifiSession { state: WifiState::Start(command) }
    }

    /// Takes the conversation one step further. `device_arg` is the serial number or
    /// nickname of the device that the user asked for.
    pub fn step(
        &mut self,
        store: &mut CredentialStore,
        device_arg: &Option<String>,
        reply: WifiReply,
    ) -> (r: WifiStep)
        ensures
            converses(
                old(self).state,
                old(store)@,
                *device_arg,
                reply,
                final(self).state,
                final(store)@,
                r,
            ),
            connects_to_chosen(*old(store), *device_arg, r),
    {
        let mut state = WifiState::Over;
        std::mem::swap(&mut state, &mut self.state);
        let (state, step) = converse(state, store, device_arg, reply);
        self.state = state;
        step
    }
}

fn converse(
    state: WifiState,
    store: &mut CredentialStore,
    device_arg: &Option<String>,
    reply: WifiReply,
) -> (r: (WifiState, WifiStep))
    ensures
        converses(state, old(store)@, *device_arg, reply, r.0, final(store)@, r.1),
        connects_to_chosen(*old(store), *device_arg, r.1),
{
    match (state, reply) {
        (WifiState::Start(command), WifiReply::Done) => start(command, store, device_arg),
        (WifiState::Connecting(command), WifiReply::Done) => proceed(command),
        (WifiState::Syncing { verbose }, WifiReply::Done) => {
            if verbose {
                finish(only(Output::Note("Done syncing all files.".to_owned())))
            } else {
                finish(nothing())
            }
        },
        (WifiState::ReadingFile { host_path, device_path }, WifiReply::Contents(data)) => {
            let request = WifiRequest::Upload { device_path: device_path.clone(), data };
            (
                WifiState::UploadingFile { host_path, device_path },
                WifiStep { output: nothing(), request },
            )
        },
        (WifiState::UploadingFile { host_path, device_path }, WifiReply::Done) => {
            let mut note = join3("Uploaded ", host_path.as_str(), " -> ");
            note.append(device_path.as_str());
            finish(only(Output::Note(note)))
        },
        (WifiState::ReadingMusic { files, next, device_path }, WifiReply::Contents(data)) => {
            let request = WifiRequest::Upload { device_path: device_path.clone(), data };
            (
                WifiState::UploadingMusic { files, next, device_path },
                WifiStep { output: nothing(), request },
            )
        },
        (WifiState::UploadingMusic { files, next, device_path }, WifiReply::Done) => {
            if next < files.len() {
                let mut note = join3("Uploaded ", files[next].display.as_str(), " -> ");
                note.append(device_path.as_str());
                turn_to_music(files, next + 1, only(Output::Note(note)))
            } else {
                unexpected(WifiState::UploadingMusic { files, next, device_path })
            }
        },
        (WifiState::Downloading { device_path, host_path }, WifiReply::Contents(data)) => {
            let size: u64 = data.len() as u64;
            let context = join2("failed to write ", host_path.as_str());
            let request = WifiRequest::WriteFile { path: host_path.clone(), data, context };
            (
                WifiState::Writing { device_path, host_path, size },
                WifiStep { output: nothing(), request },
            )
        },
        (WifiState::Writing { device_path, host_path, size }, WifiReply::Done) => {
            let n = decimal_of(size);
            let mut note = join5(
                "Downloaded ",
                device_path.as_str(),
                " -> ",
                host_path.as_str(),
                " (",
            );
            note.append(n.as_str());
            note.append(" bytes)");
            finish(only(Output::Note(note)))
        },
        (WifiState::Listing, WifiReply::Entries(entries)) => finish(list_entries(&entries)),
        (WifiState::Removing { path }, WifiReply::Done) => finish(
            only(Output::Note(join2("Removed ", path.as_str()))),
        ),
        (WifiState::Running, WifiReply::Text(output)) => finish(only(Output::Part(output))),
        (WifiState::Pairing { serial }, WifiReply::Text(password)) => {
            let existing = existing_nickname(store, serial.as_str());
            let question = nickname_prompt(&existing);
            (
                WifiState::Naming { serial, password, existing },
                WifiStep { output: nothing(), request: WifiRequest::Ask { question } },
            )
        },
        (WifiState::Naming { serial, password, existing }, WifiReply::Text(answer)) => {
            let nickname = chosen_nickname(answer.as_str(), existing);
            store.set_device(serial.clone(), DeviceCredentials { password, nickname });
            (
                WifiState::SavingPaired { serial },
                WifiStep { output: nothing(), request: WifiRequest::SaveStore },
            )
        },
        (WifiState::SavingPaired { serial }, WifiReply::Done) => finish(
            only(Output::Line(join3("Device ", serial.as_str(), " paired and saved."))),
        ),
        (WifiState::Browsing, WifiReply::Found(devices)) => {
            if devices.len() == 0 {
                finish(only(Output::Line("No devices found.".to_owned())))
            } else {
                turn_to_found(store, devices, 0, nothing())
            }
        },
        (WifiState::Inviting { devices, next }, WifiReply::Text(answer)) => {
            if next < devices.len() {
                if is_yes(answer.as_str()) {
                    let request = WifiRequest::Pair { serial: devices[next].serial.clone() };
                    (
                        WifiState::PairingFound { devices, next },
                        WifiStep { output: nothing(), request },
                    )
                } else {
                    turn_to_found(store, devices, next + 1, nothing())
                }
            } else {
                unexpected(WifiState::Inviting { devices, next })
            }
        },
        (WifiState::PairingFound { devices, next }, WifiReply::Text(password)) => {
            if next < devices.len() {
                let question = join3(
                    "Nickname for this device (Enter for \"",
                    devices[next].device_name.as_str(),
                    "\"): ",
                );
                (
                    WifiState::NamingFound { devices, next, password },
                    WifiStep { output: nothing(), request: WifiRequest::Ask { question } },
                )
            } else {
                unexpected(WifiState::PairingFound { devices, next })
            }
        },
        (WifiState::NamingFound { devices, next, password }, WifiReply::Text(answer)) => {
            if next < devices.len() {
                let nickname = chosen_nickname(
                    answer.as_str(),
                    Some(devices[next].device_name.clone()),
                );
                let serial = devices[next].serial.clone();
                store.set_device(serial.clone(), DeviceCredentials { password, nickname });
                let output = if store.default.is_none() {
                    store.set_default(serial);
                    only(Output::Line("Set as default device.".to_owned()))
                } else {
                    nothing()
                };
                assert(cli::is_nickname_for(
                    nickname,
                    answer@,
                    Some(devices@[next as int].device_name),
                ));
                (
                    WifiState::SavingFound { devices, next },
                    WifiStep { output, request: WifiRequest::SaveStore },
                )
            } else {
                unexpected(WifiState::NamingFound { devices, next, password })
            }
        },
        (WifiState::SavingFound { devices, next }, WifiReply::Done) => {
            if next < devices.len() {
                let line = join3("Device ", devices[next].serial.as_str(), " paired and saved.");
                turn_to_found(store, devices, next + 1, only(Output::Line(line)))
            } else {
                unexpected(WifiState::SavingFound { devices, next })
            }
        },
        (state, _) => unexpected(state),
    }
}

} // verus!
