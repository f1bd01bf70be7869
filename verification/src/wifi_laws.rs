//! What holds of every conversation over Wi-Fi.

use vstd::prelude::*;

use crate::cli;
use crate::credential_store::{DeviceCredentials, StoreView};
use crate::device::DiscoveredDevice;
use crate::text;
use crate::wifi;
use crate::wifi::{
    MusicFile, WifiCommand, WifiReply, WifiRequest, WifiState, WifiStep, MUSIC_DIR,
};

verus! {

/// The store changes only by the answer that names a device which was paired, and
/// the next request is always to save it.
pub proof fn law_store_changes_only_with_naming(
    pre: WifiState,
    before: StoreView,
    device_arg: Option<String>,
    reply: WifiReply,
    post: WifiState,
    after: StoreView,
    step: WifiStep,
)
    requires
        wifi::converses(pre, before, device_arg, reply, post, after, step),
        after != before,
    ensures
        pre is Naming || pre is NamingFound,
        reply is Text,
        step.request is SaveStore,
{
}

/// A device that is paired anew, with an empty answer to the question for its
/// nickname, has the new password and the nickname that it had before.
pub proof fn law_pairing_anew_keeps_nickname(
    serial: String,
    password: String,
    answer: String,
    device_arg: Option<String>,
    store: StoreView,
    middle: WifiState,
    asked: WifiStep,
    post: WifiState,
    after: StoreView,
    step: WifiStep,
)
    requires
        wifi::converses(
            WifiState::Pairing { serial },
            store,
            device_arg,
            WifiReply::Text(password),
            middle,
            store,
            asked,
        ),
        wifi::converses(middle, store, device_arg, WifiReply::Text(answer), post, after, step),
        text::trimmed(answer@).len() == 0,
    ensures
        after == store.with_device(
            serial@,
            DeviceCredentials { password, nickname: cli::nickname_of(store, serial@) },
        ),
{
}

/// A discovered device that is paired is registered, becomes the default only where
/// there was none, and leaves every other device as it was.
pub proof fn law_found_device_is_registered(
    store: StoreView,
    serial: Seq<char>,
    creds: DeviceCredentials,
    other: Seq<char>,
)
    ensures
        wifi::with_found_device(store, serial, creds).device(serial) == Some(creds),
        other != serial ==> wifi::with_found_device(store, serial, creds).device(other)
            == store.device(other),
        wifi::with_found_device(store, serial, creds).default == match store.default {
            Some(d) => Some(d),
            None => Some(serial),
        },
{
}

/// The user is asked about the next device that is not registered: those passed over
/// are all registered.
pub proof fn law_only_unknown_devices_are_offered(
    store: StoreView,
    devices: Seq<DiscoveredDevice>,
    next: int,
)
    requires
        0 <= next <= devices.len(),
    ensures
        next <= wifi::first_unknown(store, devices, next) <= devices.len(),
        forall|i: int|
            next <= i < wifi::first_unknown(store, devices, next) ==> store.device(
                (#[trigger] devices[i]).serial@,
            ) is Some,
        wifi::first_unknown(store, devices, next) < devices.len() ==> store.device(
            devices[wifi::first_unknown(store, devices, next)].serial@,
        ) is None,
    decreases devices.len() - next,
{
    if next < devices.len() && store.device(devices[next].serial@) is Some {
        law_only_unknown_devices_are_offered(store, devices, next + 1);
    }
}

/// Music is stored in the music directory itself: the rest of its path holds no
/// separator.
pub proof fn law_music_stays_in_its_directory(file_name: Seq<char>)
    ensures
        wifi::music_path(file_name) == MUSIC_DIR@ + "/"@ + cli::sanitized(file_name),
        !cli::sanitized(file_name).contains('/'),
{
    cli::law_sanitized_is_clean(file_name);
    let s = cli::sanitized(file_name);
    assert forall|i: int| 0 <= i < s.len() implies s[i] != '/' by {
        assert(!cli::is_stripped(s[i]));
    }
}

/// A turn of a conversation: the reply that it took, the step that it made, and the state
/// and the store that it led to.
pub struct Turn {
    pub reply: WifiReply,
    pub step: WifiStep,
    pub state: WifiState,
    pub store: StoreView,
}

/// The state after `t` turns.
pub open spec fn state_at(start: WifiState, turns: Seq<Turn>, t: int) -> WifiState {
    if t == 0 {
        start
    } else {
        turns[t - 1].state
    }
}

/// The store after `t` turns.
pub open spec fn store_at(store: StoreView, turns: Seq<Turn>, t: int) -> StoreView {
    if t == 0 {
        store
    } else {
        turns[t - 1].store
    }
}

/// Whether the turn at `t` is one that the conversation can take.
pub open spec fn is_turn(
    start: WifiState,
    store: StoreView,
    device_arg: Option<String>,
    turns: Seq<Turn>,
    t: int,
) -> bool {
    wifi::converses(
        state_at(start, turns, t),
        store_at(store, turns, t),
        device_arg,
        turns[t].reply,
        turns[t].state,
        turns[t].store,
        turns[t].step,
    )
}

/// Whether the turns make a conversation.
pub open spec fn is_conversation(
    start: WifiState,
    store: StoreView,
    device_arg: Option<String>,
    turns: Seq<Turn>,
) -> bool {
    forall|t: int| 0 <= t < turns.len() ==> #[trigger] is_turn(start, store, device_arg, turns, t)
}

proof fn lemma_shorter_conversation(
    start: WifiState,
    store: StoreView,
    device_arg: Option<String>,
    turns: Seq<Turn>,
)
    requires
        turns.len() > 0,
        is_conversation(start, store, device_arg, turns),
    ensures
        is_conversation(start, store, device_arg, turns.drop_last()),
{
    let less = turns.drop_last();
    assert forall|t: int| 0 <= t < less.len() implies #[trigger] is_turn(
        start,
        store,
        device_arg,
        less,
        t,
    ) by {
        assert(is_turn(start, store, device_arg, turns, t));
    }
}

/// How many music files come before the first whose name is no good.
pub open spec fn nameable(files: Seq<MusicFile>) -> nat
    decreases files.len(),
{
    if files.len() == 0 || files.first().file_name is None {
        0
    } else {
        1 + nameable(files.drop_first())
    }
}

proof fn lemma_nameable(files: Seq<MusicFile>)
    ensures
        nameable(files) <= files.len(),
        forall|k: int| 0 <= k < nameable(files) ==> (#[trigger] files[k]).file_name is Some,
        nameable(files) < files.len() ==> files[nameable(files) as int].file_name is None,
    decreases files.len(),
{
    if files.len() > 0 && files.first().file_name is Some {
        let rest = files.drop_first();
        lemma_nameable(rest);
        assert forall|k: int| 0 <= k < nameable(files) implies (
        #[trigger] files[k]).file_name is Some by {
            if k > 0 {
                assert(files[k] == rest[k - 1]);
            }
        }
    }
}

/// The uploads that the turns ask for, in order: each with its path on the device and
/// the bytes that are sent.
pub open spec fn uploads(turns: Seq<Turn>) -> Seq<(Seq<char>, Seq<u8>)>
    decreases turns.len(),
{
    if turns.len() == 0 {
        Seq::empty()
    } else {
        let before = uploads(turns.drop_last());
        match turns.last().step.request {
            WifiRequest::Upload { device_path, data } => before.push((device_path@, data@)),
            _ => before,
        }
    }
}

/// Whether each reply answers the request before it, where the music file at a position
/// holds the given bytes.
pub open spec fn is_answered(turns: Seq<Turn>, bytes: spec_fn(int) -> Seq<u8>) -> bool {
    forall|t: int| 0 <= t < turns.len() ==> #[trigger] is_answer(turns, bytes, t)
}

/// Whether the reply of the turn at `t` answers the request before it.
pub open spec fn is_answer(turns: Seq<Turn>, bytes: spec_fn(int) -> Seq<u8>, t: int) -> bool {
    if t == 0 {
        turns[t].reply is Done
    } else {
        match turns[t - 1].step.request {
            WifiRequest::ReadMusicFile { index, context } => turns[t].reply matches
                WifiReply::Contents(data) && data@ == bytes(index as int),
            WifiRequest::Upload { device_path, data } => turns[t].reply is Done,
            _ => true,
        }
    }
}

/// The uploads that music files call for: each file up to the first whose name is no
/// good, to its place in the music directory.
pub open spec fn music_uploads(
    files: Seq<MusicFile>,
    bytes: spec_fn(int) -> Seq<u8>,
) -> Seq<(Seq<char>, Seq<u8>)> {
    Seq::new(
        nameable(files),
        |k: int| (wifi::music_path(files[k].file_name->0@), bytes(k)),
    )
}

/// Where a conversation that uploads music is after `n` turns.
spec fn is_at_music(files: Vec<MusicFile>, n: int, state: WifiState) -> bool {
    let all = nameable(files@);
    if n == 0 {
        state == WifiState::Connecting(WifiCommand::UploadMusic { files })
    } else if n > 2 * all {
        state is Over
    } else if n % 2 == 1 {
        &&& state matches WifiState::ReadingMusic { files: f, next, device_path }
        &&& f == files
        &&& next == n / 2
        &&& device_path@ == wifi::music_path(files@[n / 2].file_name->0@)
    } else {
        &&& state matches WifiState::UploadingMusic { files: f, next, device_path }
        &&& f == files
        &&& next == n / 2 - 1
        &&& device_path@ == wifi::music_path(files@[n / 2 - 1].file_name->0@)
    }
}

/// What the turn asks for that leads to `n` turns.
spec fn asks_for_music(
    files: Vec<MusicFile>,
    bytes: spec_fn(int) -> Seq<u8>,
    n: int,
    request: WifiRequest,
) -> bool {
    let all = nameable(files@);
    if n > 2 * all + 1 {
        request is Unexpected
    } else if n == 2 * all + 1 {
        if all == files@.len() {
            request is Finish
        } else {
            request matches WifiRequest::Fail { message } && message@ == "invalid file name: "@
                + files@[all as int].display@
        }
    } else if n % 2 == 1 {
        request matches WifiRequest::ReadMusicFile { index, context } && index == n / 2
    } else {
        &&& request matches WifiRequest::Upload { device_path, data }
        &&& device_path@ == wifi::music_path(files@[n / 2 - 1].file_name->0@)
        &&& data@ == bytes(n / 2 - 1)
    }
}

/// How many of the uploads that music files call for are asked for within `n` turns.
pub open spec fn uploads_within(files: Seq<MusicFile>, n: int) -> int {
    if n / 2 <= nameable(files) {
        n / 2
    } else {
        nameable(files) as int
    }
}

proof fn lemma_music(
    files: Vec<MusicFile>,
    bytes: spec_fn(int) -> Seq<u8>,
    device_arg: Option<String>,
    store: StoreView,
    turns: Seq<Turn>,
)
    requires
        is_conversation(
            WifiState::Connecting(WifiCommand::UploadMusic { files }),
            store,
            device_arg,
            turns,
        ),
        is_answered(turns, bytes),
    ensures
        ({
            let start = WifiState::Connecting(WifiCommand::UploadMusic { files });
            let n = turns.len() as int;
            &&& is_at_music(files, n, state_at(start, turns, n))
            &&& store_at(store, turns, n) == store
            &&& n > 0 ==> asks_for_music(files, bytes, n, turns.last().step.request)
            &&& uploads(turns) == music_uploads(files@, bytes).take(uploads_within(files@, n))
        }),
    decreases turns.len(),
{
    let start = WifiState::Connecting(WifiCommand::UploadMusic { files });
    let n = turns.len() as int;
    let expected = music_uploads(files@, bytes);
    lemma_nameable(files@);
    if n == 0 {
        assert(uploads(turns) =~= expected.take(0));
    } else {
        let less = turns.drop_last();
        lemma_shorter_conversation(start, store, device_arg, turns);
        assert forall|t: int| 0 <= t < less.len() implies #[trigger] is_answer(less, bytes, t) by {
            assert(is_answer(turns, bytes, t));
        }
        lemma_music(files, bytes, device_arg, store, less);
        assert(is_turn(start, store, device_arg, turns, n - 1));
        assert(is_answer(turns, bytes, n - 1));
        assert(state_at(start, turns, n - 1) == state_at(start, less, n - 1));
        assert(store_at(store, turns, n - 1) == store_at(store, less, n - 1));
        if n > 1 {
            assert(turns[n - 2] == less.last());
        }
        if n <= 2 * nameable(files@) && n % 2 == 0 {
            let k = n / 2 - 1;
            assert(expected.take(k + 1) =~= expected.take(k).push(expected[k]));
        }
    }
}

/// A conversation that uploads music asks, in order, for the upload of each file with
/// the file's bytes to its place in the music directory, one in every two turns. It
/// ends before the first file whose name is no good, with an error that names it, and
/// where a request fails. The store stays as it is.
pub proof fn law_music_is_uploaded_in_order(
    files: Vec<MusicFile>,
    bytes: spec_fn(int) -> Seq<u8>,
    device_arg: Option<String>,
    store: StoreView,
    turns: Seq<Turn>,
)
    requires
        is_conversation(
            WifiState::Connecting(WifiCommand::UploadMusic { files }),
            store,
            device_arg,
            turns,
        ),
        is_answered(turns, bytes),
    ensures
        uploads(turns) == music_uploads(files@, bytes).take(
            uploads_within(files@, turns.len() as int),
        ),
        store_at(store, turns, turns.len() as int) == store,
        turns.len() == 2 * nameable(files@) + 1 ==> {
            &&& turns.last().state is Over
            &&& uploads(turns) == music_uploads(files@, bytes)
            &&& if nameable(files@) == files@.len() {
                turns.last().step.request is Finish
            } else {
                turns.last().step.request matches WifiRequest::Fail { message } && message@
                    == "invalid file name: "@ + files@[nameable(files@) as int].display@
            }
        },
{
    lemma_music(files, bytes, device_arg, store, turns);
    let expected = music_uploads(files@, bytes);
    assert(expected.take(expected.len() as int) =~= expected);
}

/// Whether the turn at `t` asks for pairing with a device.
pub open spec fn pairs_at(turns: Seq<Turn>, t: int, serial: Seq<char>) -> bool {
    &&& 0 <= t < turns.len()
    &&& turns[t].step.request matches WifiRequest::Pair { serial: s }
    &&& s@ == serial
}

/// Whether the turns ask for pairing with a device.
pub open spec fn is_paired(turns: Seq<Turn>, serial: Seq<char>) -> bool {
    exists|t: int| pairs_at(turns, t, serial)
}

/// Whether a conversation is one that discovers devices, at a device that is not
/// registered where it is about one.
spec fn is_discovering(state: WifiState, store: StoreView) -> bool {
    match state {
        WifiState::Start(command) => command is DiscoverDevices,
        WifiState::Browsing => true,
        WifiState::Inviting { devices, next } => next < devices@.len() && store.device(
            devices@[next as int].serial@,
        ) is None,
        WifiState::PairingFound { devices, next } => next < devices@.len() && store.device(
            devices@[next as int].serial@,
        ) is None,
        WifiState::NamingFound { devices, next, password } => next < devices@.len()
            && store.device(devices@[next as int].serial@) is None,
        WifiState::SavingFound { devices, next } => next < devices@.len(),
        WifiState::Over => true,
        _ => false,
    }
}

/// The device that a conversation asked to pair with last, where it is still about it.
spec fn pairing_serial(state: WifiState) -> Option<Seq<char>> {
    match state {
        WifiState::PairingFound { devices, next } => Some(devices@[next as int].serial@),
        WifiState::NamingFound { devices, next, password } => Some(devices@[next as int].serial@),
        WifiState::SavingFound { devices, next } => Some(devices@[next as int].serial@),
        _ => None,
    }
}

/// Whether a conversation that discovers devices is as it should be after some turns.
spec fn discovers(store: StoreView, turns: Seq<Turn>) -> bool {
    let n = turns.len() as int;
    let state = state_at(WifiState::Start(WifiCommand::DiscoverDevices), turns, n);
    let end = store_at(store, turns, n);
    &&& is_discovering(state, end)
    &&& pairing_serial(state) matches Some(serial) ==> is_paired(turns, serial)
    &&& forall|serial: Seq<char>| #[trigger]
        store.device(serial) is Some ==> end.device(serial) == store.device(serial) && !is_paired(
            turns,
            serial,
        )
    &&& store.default is Some ==> end.default == store.default
    &&& forall|serial: Seq<char>|
        store.device(serial) is None && #[trigger] end.device(serial) is Some ==> is_paired(
            turns,
            serial,
        )
    &&& (forall|serial: Seq<char>| !is_paired(turns, serial)) ==> end == store && forall|t: int|
        0 <= t < n ==> !((#[trigger] turns[t]).step.request is SaveStore)
}

/// A turn more keeps what was asked for.
proof fn lemma_paired_longer(turns: Seq<Turn>, serial: Seq<char>)
    requires
        turns.len() > 0,
    ensures
        is_paired(turns.drop_last(), serial) ==> is_paired(turns, serial),
        is_paired(turns, serial) ==> is_paired(turns.drop_last(), serial) || pairs_at(
            turns,
            turns.len() - 1,
            serial,
        ),
{
    let less = turns.drop_last();
    if is_paired(less, serial) {
        let t = choose|t: int| pairs_at(less, t, serial);
        assert(pairs_at(turns, t, serial));
    }
    if is_paired(turns, serial) {
        let t = choose|t: int| pairs_at(turns, t, serial);
        if t < turns.len() - 1 {
            assert(pairs_at(less, t, serial));
        }
    }
}

proof fn lemma_discovery(device_arg: Option<String>, store: StoreView, turns: Seq<Turn>)
    requires
        is_conversation(
            WifiState::Start(WifiCommand::DiscoverDevices),
            store,
            device_arg,
            turns,
        ),
    ensures
        discovers(store, turns),
        forall|t: int|
            0 <= t < turns.len() && (#[trigger] turns[t]).step.request is Pair ==> state_at(
                WifiState::Start(WifiCommand::DiscoverDevices),
                turns,
                t,
            ) is Inviting && turns[t].reply is Text && cli::says_yes(turns[t].reply->Text_0@),
    decreases turns.len(),
{
    let start = WifiState::Start(WifiCommand::DiscoverDevices);
    let n = turns.len() as int;
    if n > 0 {
        let less = turns.drop_last();
        let turn = turns.last();
        lemma_shorter_conversation(start, store, device_arg, turns);
        lemma_discovery(device_arg, store, less);
        let pre = state_at(start, less, n - 1);
        let before = store_at(store, less, n - 1);
        assert(is_turn(start, store, device_arg, turns, n - 1));
        assert(state_at(start, turns, n - 1) == pre);
        assert(store_at(store, turns, n - 1) == before);
        assert forall|serial: Seq<char>|
            #![trigger is_paired(turns, serial)]
            #![trigger is_paired(less, serial)]
            (is_paired(less, serial) ==> is_paired(turns, serial)) && (is_paired(turns, serial)
                ==> is_paired(less, serial) || pairs_at(turns, n - 1, serial)) by {
            lemma_paired_longer(turns, serial);
        }
        lemma_discovery_turn(pre, before, device_arg, turn);
        if turn.step.request is Pair {
            let serial = turn.step.request->Pair_serial@;
            assert(pairs_at(turns, n - 1, serial));
            assert(is_paired(turns, serial));
        }
        assert forall|t: int| 0 <= t < n && (#[trigger] turns[t]).step.request is Pair implies state_at(
            start,
            turns,
            t,
        ) is Inviting && turns[t].reply is Text && cli::says_yes(turns[t].reply->Text_0@) by {
            if t < n - 1 {
                assert(less[t] == turns[t]);
                assert(state_at(start, less, t) == state_at(start, turns, t));
            }
        }
        assert forall|serial: Seq<char>| #[trigger]
            store.device(serial) is Some implies turn.store.device(serial) == store.device(serial)
            && !is_paired(turns, serial) by {
            assert(before.device(serial) == store.device(serial));
        }
        assert forall|serial: Seq<char>|
            store.device(serial) is None && #[trigger] turn.store.device(
                serial,
            ) is Some implies is_paired(turns, serial) by {
            if before.device(serial) is None {
                assert(pairing_serial(pre) == Some(serial));
            }
        }
        if forall|serial: Seq<char>| !is_paired(turns, serial) {
            assert forall|serial: Seq<char>| !is_paired(less, serial) by {
                if is_paired(less, serial) {
                    assert(is_paired(turns, serial));
                }
            }
            assert forall|t: int| 0 <= t < n implies !(
            (#[trigger] turns[t]).step.request is SaveStore) by {
                if t < n - 1 {
                    assert(less[t] == turns[t]);
                }
            }
        }
    }
}

/// What one turn of a conversation that discovers devices does.
proof fn lemma_discovery_turn(
    pre: WifiState,
    before: StoreView,
    device_arg: Option<String>,
    turn: Turn,
)
    requires
        is_discovering(pre, before),
        wifi::converses(pre, before, device_arg, turn.reply, turn.state, turn.store, turn.step),
    ensures
        is_discovering(turn.state, turn.store),
        turn.step.request is Pair ==> {
            &&& pre matches WifiState::Inviting { devices, next }
            &&& turn.step.request->Pair_serial@ == devices@[next as int].serial@
            &&& before.device(devices@[next as int].serial@) is None
            &&& turn.reply is Text
            &&& cli::says_yes(turn.reply->Text_0@)
        },
        pairing_serial(turn.state) matches Some(serial) ==> pairing_serial(pre) == Some(serial)
            || (turn.step.request is Pair && turn.step.request->Pair_serial@ == serial),
        forall|serial: Seq<char>|
            before.device(serial) is Some ==> #[trigger] turn.store.device(serial)
                == before.device(serial),
        before.default is Some ==> turn.store.default == before.default,
        forall|serial: Seq<char>|
            before.device(serial) is None && #[trigger] turn.store.device(serial) is Some
                ==> pairing_serial(pre) == Some(serial),
        pairing_serial(pre) is None ==> turn.store == before && !(turn.step.request is SaveStore),
{
    match pre {
        WifiState::Browsing => {
            if let WifiReply::Found(devices) = turn.reply {
                law_only_unknown_devices_are_offered(before, devices@, 0);
                assert(devices@.len() == devices.len());
            }
        },
        WifiState::Inviting { devices, next } => {
            law_only_unknown_devices_are_offered(before, devices@, next + 1);
            assert(devices@.len() == devices.len());
        },
        WifiState::SavingFound { devices, next } => {
            law_only_unknown_devices_are_offered(before, devices@, next + 1);
            assert(devices@.len() == devices.len());
        },
        _ => {},
    }
}

/// A conversation that discovers devices, however far it is:
///
/// - leaves registered devices with their credentials, and never pairs with them;
/// - pairs with another device if and only if the user says yes to it;
/// - registers no device but those that it pairs with;
/// - keeps the default, where one is set;
/// - changes nothing in the store, and does not save it, where it pairs with none.
pub proof fn law_discovery_adds_what_the_user_wants(
    device_arg: Option<String>,
    store: StoreView,
    turns: Seq<Turn>,
)
    requires
        is_conversation(
            WifiState::Start(WifiCommand::DiscoverDevices),
            store,
            device_arg,
            turns,
        ),
    ensures
        ({
            let start = WifiState::Start(WifiCommand::DiscoverDevices);
            let end = store_at(store, turns, turns.len() as int);
            &&& forall|serial: Seq<char>| #[trigger]
                store.device(serial) is Some ==> end.device(serial) == store.device(serial)
                    && !is_paired(turns, serial)
            &&& forall|t: int|
                0 <= t < turns.len() && (#[trigger] turns[t]).step.request is Pair ==> state_at(
                    start,
                    turns,
                    t,
                ) is Inviting && turns[t].reply is Text && cli::says_yes(turns[t].reply->Text_0@)
            &&& forall|t: int|
                0 <= t < turns.len() && state_at(start, turns, t) is Inviting && (
                #[trigger] turns[t]).reply is Text && cli::says_yes(turns[t].reply->Text_0@)
                    ==> turns[t].step.request is Pair
            &&& forall|serial: Seq<char>|
                store.device(serial) is None && #[trigger] end.device(serial) is Some
                    ==> is_paired(turns, serial)
            &&& store.default is Some ==> end.default == store.default
            &&& (forall|serial: Seq<char>| !is_paired(turns, serial)) ==> end == store && forall|
                t: int,
            |
                0 <= t < turns.len() ==> !((#[trigger] turns[t]).step.request is SaveStore)
        }),
{
    let start = WifiState::Start(WifiCommand::DiscoverDevices);
    lemma_discovery(device_arg, store, turns);
    assert forall|t: int|
        0 <= t < turns.len() && state_at(start, turns, t) is Inviting && (
        #[trigger] turns[t]).reply is Text && cli::says_yes(
            turns[t].reply->Text_0@,
        ) implies turns[t].step.request is Pair by {
        let less = turns.take(t);
        assert forall|i: int| 0 <= i < less.len() implies #[trigger] is_turn(
            start,
            store,
            device_arg,
            less,
            i,
        ) by {
            assert(is_turn(start, store, device_arg, turns, i));
        }
        lemma_discovery(device_arg, store, less);
        assert(state_at(start, less, t) == state_at(start, turns, t));
        assert(store_at(store, less, t) == store_at(store, turns, t));
        assert(is_turn(start, store, device_arg, turns, t));
    }
}

} // verus!
