//! What follows a Wi-Fi command that failed: where the device refused the credentials,
//! the user is offered to pair with it anew.

use vstd::prelude::*;

use crate::cli;
use crate::cli::{is_yes, record_repairing, recovery, Cause, Recovery};
use crate::credential_store::{CredentialStore, DeviceCredentials, StoreView};
use crate::text::join3;

verus! {

/// What came of the last action.
#[derive(Debug)]
pub enum RepairEvent {
    /// The command failed, for the given causes.
    Failed(Vec<Cause>),
    /// The user answered.
    Answered(String),
    /// The device was paired, with the given password.
    Paired(String),
    /// The credential store was saved.
    Saved,
}

/// What to do next. Where an action fails, its own error is what is told.
#[derive(Debug)]
pub enum RepairAction {
    /// To tell the error of the command.
    Fail,
    /// To show a line, and to tell the error of the command.
    ReportAndFail { line: String },
    /// To show a line, and to ask the user.
    Ask { line: String, question: String },
    /// To show a line, and to pair with a device.
    Pair { line: String, serial: String },
    /// To save the credential store.
    SaveStore,
    /// To show a line. The command counts as done.
    Finish { line: String },
    /// Nothing: the event does not answer the last action.
    Unexpected,
}

/// How far the recovery is.
#[derive(Debug)]
pub enum RepairState {
    /// Nothing happened yet. The device that was worked with, if there was one.
    Start { active_serial: Option<String> },
    Asking { serial: String },
    Pairing { serial: String },
    Saving { line: String },
    Over,
}

/// The recovery from a Wi-Fi command that failed.
#[derive(Debug)]
pub struct Repair {
    pub state: RepairState,
}

/// The store after a device was paired anew: it has the new password, and the nickname
/// that it had.
pub open spec fn repaired(store: StoreView, serial: Seq<char>, password: String) -> StoreView {
    store.with_device(
        serial,
        DeviceCredentials { password, nickname: cli::nickname_of(store, serial) },
    )
}

/// Whether an event does not fit: nothing changes.
pub open spec fn is_unexpected(pre: RepairState, post: RepairState, action: RepairAction) -> bool {
    post == pre && action is Unexpected
}

/// What an event does to the recovery and to the store.
pub open spec fn recovers(
    pre: RepairState,
    before: StoreView,
    event: RepairEvent,
    post: RepairState,
    after: StoreView,
    action: RepairAction,
) -> bool {
    match (pre, event) {
        (RepairState::Start { active_serial }, RepairEvent::Failed(causes)) => {
            &&& after == before
            &&& if !causes@.contains(Cause::Unauthorized) {
                post is Over && action is Fail
            } else {
                match active_serial {
                    Some(serial) => {
                        &&& post == RepairState::Asking { serial }
                        &&& action matches RepairAction::Ask { line, question }
                        &&& line@ == cli::unauthorized_line()
                        &&& question@ == "Re-pair with device "@ + serial@ + "? [Y/n] "@
                    },
                    None => {
                        &&& post is Over
                        &&& action matches RepairAction::ReportAndFail { line }
                        &&& line@ == cli::unauthorized_line()
                    },
                }
            }
        },
        (RepairState::Asking { serial }, RepairEvent::Answered(answer)) => {
            &&& after == before
            &&& if cli::says_yes(answer@) {
                &&& post == RepairState::Pairing { serial }
                &&& action matches RepairAction::Pair { line, serial: s }
                &&& s == serial
                &&& line@ == "Pairing with device "@ + serial@ + "..."@
            } else {
                post is Over && action is Fail
            }
        },
        (RepairState::Pairing { serial }, RepairEvent::Paired(password)) => {
            &&& after == repaired(before, serial@, password)
            &&& post matches RepairState::Saving { line }
            &&& line@ == "Device "@ + serial@ + " re-paired and saved."@
            &&& action is SaveStore
        },
        (RepairState::Saving { line }, RepairEvent::Saved) => {
            &&& after == before
            &&& post is Over
            &&& action == RepairAction::Finish { line }
        },
        _ => after == before && is_unexpected(pre, post, action),
    }
}

impl Repair {
    /// A recovery, where the given device was the one to work with.
    pub fn new(active_serial: Option<String>) -> (r: Repair)
        ensures
            r.state == (RepairState::Start { active_serial }),
    {
        Repair { state: RepairState::Start { active_serial } }
    }

    /// Takes the recovery one step further.
    pub fn step(&mut self, store: &mut CredentialStore, event: RepairEvent) -> (r: RepairAction)
        ensures
            recovers(old(self).state, old(store)@, event, final(self).state, final(store)@, r),
    {
        let mut state = RepairState::Over;
        std::mem::swap(&mut state, &mut self.state);
        match (state, event) {
            (RepairState::Start { active_serial }, RepairEvent::Failed(causes)) => {
                match recovery(&causes, &active_serial) {
                    Recovery::Stand => RepairAction::Fail,
                    Recovery::Report { line } => RepairAction::ReportAndFail { line },
                    Recovery::Offer { line, question } => match active_serial {
                        Some(serial) => {
                            self.state = RepairState::Asking { serial };
                            RepairAction::Ask { line, question }
                        },
                        None => RepairAction::Fail,
                    },
                }
            },
            (RepairState::Asking { serial }, RepairEvent::Answered(answer)) => {
                if is_yes(answer.as_str()) {
                    let line = join3("Pairing with device ", serial.as_str(), "...");
                    self.state = RepairState::Pairing { serial: serial.clone() };
                    RepairAction::Pair { line, serial }
                } else {
                    RepairAction::Fail
                }
            },
            (RepairState::Pairing { serial }, RepairEvent::Paired(password)) => {
                let line = record_repairing(store, serial.as_str(), password);
                self.state = RepairState::Saving { line };
                RepairAction::SaveStore
            },
            (RepairState::Saving { line }, RepairEvent::Saved) => RepairAction::Finish { line },
            (state, _) => {
                self.state = state;
                RepairAction::Unexpected
            },
        }
    }
}

/// The store changes only when a device was paired anew, and is then saved: every other
/// device, and the default, are as they were.
pub proof fn law_only_pairing_anew_changes_the_store(
    pre: RepairState,
    before: StoreView,
    event: RepairEvent,
    post: RepairState,
    after: StoreView,
    action: RepairAction,
    other: Seq<char>,
)
    requires
        recovers(pre, before, event, post, after, action),
        after != before,
    ensures
        action is SaveStore,
        after.default == before.default,
        pre matches RepairState::Pairing { serial } && event matches RepairEvent::Paired(password)
            && after == repaired(before, serial@, password) && (other != serial@ ==> after.device(
            other,
        ) == before.device(other)),
{
}

/// The whole recovery: a device that refused the credentials is paired anew if the user
/// says so, and then has the new password and its old nickname.
pub proof fn law_recovery_pairs_anew(
    serial: String,
    causes: Vec<Cause>,
    answer: String,
    password: String,
    store: StoreView,
    states: Seq<RepairState>,
    stores: Seq<StoreView>,
    actions: Seq<RepairAction>,
)
    requires
        states.len() == 4,
        stores.len() == 4,
        actions.len() == 4,
        causes@.contains(Cause::Unauthorized),
        cli::says_yes(answer@),
        recovers(
            RepairState::Start { active_serial: Some(serial) },
            store,
            RepairEvent::Failed(causes),
            states[0],
            stores[0],
            actions[0],
        ),
        recovers(
            states[0],
            stores[0],
            RepairEvent::Answered(answer),
            states[1],
            stores[1],
            actions[1],
        ),
        recovers(
            states[1],
            stores[1],
            RepairEvent::Paired(password),
            states[2],
            stores[2],
            actions[2],
        ),
        recovers(states[2], stores[2], RepairEvent::Saved, states[3], stores[3], actions[3]),
    ensures
        actions[0] is Ask,
        actions[1] matches RepairAction::Pair { line, serial: s } && s == serial,
        actions[2] is SaveStore,
        actions[3] matches RepairAction::Finish { line } && line@ == "Device "@ + serial@
            + " re-paired and saved."@,
        stores[3] == repaired(store, serial@, password),
{
}

} // verus!
