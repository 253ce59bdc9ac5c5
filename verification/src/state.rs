//! The states of an entry, the reconciliation of a marker with the rules, and
//! what carrying out an action does to the marker.

use vstd::prelude::*;

verus! {

/// What the rules in effect say of an entry.
#[derive(Clone, Copy, Debug, PartialEq, Eq, Structural)]
pub enum DesiredState {
    Excluded,
    Included,
}

/// What the marker persisted on an entry says. An entry without a marker is
/// `Unmarked`.
#[derive(Clone, Copy, Debug, PartialEq, Eq, Structural)]
pub enum ActualState {
    Marked,
    Unmarked,
}

/// A change to the marker of one entry.
#[derive(Clone, Copy, Debug, PartialEq, Eq, Structural)]
pub enum MarkerOp {
    Mark,
    Unmark,
}

/// What is to be done about one entry.
#[derive(Clone, Copy, Debug, PartialEq, Eq, Structural)]
pub enum Action {
    /// Marker and rules agree.
    NoOp,
    /// The marker is to be changed.
    Apply(MarkerOp),
    /// The entry is marked although no rule excludes it. The marker is left
    /// alone: only an explicit command removes a marker.
    ReportAnomaly,
}

/// The two marker stores. One of them is chosen for a whole run.
#[derive(Clone, Copy, Debug, PartialEq, Eq, Structural)]
pub enum StoreMode {
    /// Changes are persisted on the entry.
    Live,
    /// Changes are announced and nothing is persisted.
    Simulated,
}

/// What the caller does with an action under a given store.
#[derive(Clone, Copy, Debug, PartialEq, Eq, Structural)]
pub enum Effect {
    /// Nothing to do and nothing to say.
    Nothing,
    /// Announce the change and persist it.
    Persist(MarkerOp),
    /// Announce the change that would have been made.
    Announce(MarkerOp),
    /// Tell the user that the entry is marked without a rule that asks for it.
    Warn,
}

/// The name of the per-directory rule file.
pub const RULE_FILE_NAME: &'static str = ".dropboxignore";

/// The name of the attribute that holds the marker.
pub const MARKER_NAME: &'static str = "user.com.dropbox.ignored";

/// The one byte that a marker holds when it says "excluded".
pub const MARKER_BYTE: u8 = 0x31;

/// The payload that says "excluded": the single byte `MARKER_BYTE`.
pub open spec fn marked_payload() -> Seq<u8> {
    seq![MARKER_BYTE]
}

/// The state that a stored payload stands for: `Marked` for exactly
/// `marked_payload()`, `Unmarked` for any other payload and for none.
pub open spec fn payload_state(payload: Option<Seq<u8>>) -> ActualState {
    match payload {
        Some(bytes) if bytes == marked_payload() => ActualState::Marked,
        _ => ActualState::Unmarked,
    }
}

/// The truth table of reconciliation.
pub open spec fn reconciled(desired: DesiredState, actual: ActualState) -> Action {
    match (desired, actual) {
        (DesiredState::Excluded, ActualState::Unmarked) => Action::Apply(MarkerOp::Mark),
        (DesiredState::Excluded, ActualState::Marked) => Action::NoOp,
        (DesiredState::Included, ActualState::Marked) => Action::ReportAnomaly,
        (DesiredState::Included, ActualState::Unmarked) => Action::NoOp,
    }
}

/// What carrying out `action` under `mode` asks of the caller.
pub open spec fn effect_of(mode: StoreMode, action: Action) -> Effect {
    match action {
        Action::NoOp => Effect::Nothing,
        Action::ReportAnomaly => Effect::Warn,
        Action::Apply(op) => match mode {
            StoreMode::Live => Effect::Persist(op),
            StoreMode::Simulated => Effect::Announce(op),
        },
    }
}

/// The marker of an entry after the caller has carried out `effect` on it.
pub open spec fn marker_after(effect: Effect, actual: ActualState) -> ActualState {
    match effect {
        Effect::Persist(MarkerOp::Mark) => ActualState::Marked,
        Effect::Persist(MarkerOp::Unmark) => ActualState::Unmarked,
        _ => actual,
    }
}

/// Whether an action changes a marker when it is carried out on a live store.
pub open spec fn is_corrective(action: Action) -> bool {
    action is Apply
}

/// The payload to store on an entry that is to be marked.
pub fn marker_payload() -> (payload: Vec<u8>)
    ensures
        payload@ == marked_payload(),
        payload_state(Some(payload@)) == ActualState::Marked,
{
    let mut payload: Vec<u8> = Vec::new();
    payload.push(MARKER_BYTE);
    assert(payload@ =~= marked_payload());
    payload
}

/// Reads the state of an entry from what its marker attribute holds, `None`
/// where the entry has no such attribute.
pub fn marker_state(payload: Option<&Vec<u8>>) -> (actual: ActualState)
    ensures
        actual == payload_state(
            match payload {
                Some(bytes) => Some(bytes@),
                None => None,
            },
        ),
{
    match payload {
        Some(bytes) => {
            if bytes.len() == 1 && bytes[0] == MARKER_BYTE {
                assert(bytes@ =~= marked_payload());
                ActualState::Marked
            } else {
                assert(bytes@ != marked_payload()) by {
                    if bytes@ == marked_payload() {
                        assert(bytes@.len() == 1);
                        assert(bytes@[0] == MARKER_BYTE);
                    }
                }
                ActualState::Unmarked
            }
        },
        None => ActualState::Unmarked,
    }
}

/// Compares the state that the rules ask for with the state that the marker
/// shows, and says what is to be done.
pub fn reconcile(desired: DesiredState, actual: ActualState) -> (action: Action)
    ensures
        action == reconciled(desired, actual),
{
    match desired {
        DesiredState::Excluded => match actual {
            ActualState::Unmarked => Action::Apply(MarkerOp::Mark),
            ActualState::Marked => Action::NoOp,
        },
        DesiredState::Included => match actual {
            ActualState::Marked => Action::ReportAnomaly,
            ActualState::Unmarked => Action::NoOp,
        },
    }
}

/// Turns an action into what the caller has to do under the chosen store.
pub fn execute(mode: StoreMode, action: Action) -> (effect: Effect)
    ensures
        effect == effect_of(mode, action),
{
    match action {
        Action::NoOp => Effect::Nothing,
        Action::ReportAnomaly => Effect::Warn,
        Action::Apply(op) => match mode {
            StoreMode::Live => Effect::Persist(op),
            StoreMode::Simulated => Effect::Announce(op),
        },
    }
}

} // verus!
