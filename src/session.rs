use vstd::prelude::*;

use crate::error::TransferError;

verus! {

/// Which end of a transfer this process is.
#[derive(Clone, Copy, Debug, PartialEq, Eq, Structural)]
pub enum Role {
    Sender,
    Receiver,
}

/// Where a single-shot transfer stands.
#[derive(Clone, Copy, Debug, PartialEq, Eq, Structural)]
pub enum Phase {
    Idle,
    /// The sender packs its input into an archive.
    Archiving,
    /// The sender opens its outbound connection.
    Connecting,
    /// The receiver waits for its one inbound connection.
    Listening,
    /// Archive bytes move over the connection.
    Transferring,
    /// The receiver unpacks the archive it received.
    Extracting,
    Done,
    Failed(TransferError),
}

/// What the step that was just performed came to.
#[derive(Clone, Copy, Debug, PartialEq, Eq, Structural)]
pub enum Outcome {
    Succeeded,
    Failed(TransferError),
}

pub open spec fn is_terminal(p: Phase) -> bool {
    p is Done || p is Failed
}

/// The phase that follows a successful step of `phase`.
pub open spec fn successor(role: Role, phase: Phase) -> Phase {
    match (role, phase) {
        (Role::Sender, Phase::Idle) => Phase::Archiving,
        (Role::Sender, Phase::Archiving) => Phase::Connecting,
        (Role::Sender, Phase::Connecting) => Phase::Transferring,
        (Role::Sender, Phase::Transferring) => Phase::Done,
        (Role::Receiver, Phase::Idle) => Phase::Listening,
        (Role::Receiver, Phase::Listening) => Phase::Transferring,
        (Role::Receiver, Phase::Transferring) => Phase::Extracting,
        (Role::Receiver, Phase::Extracting) => Phase::Done,
        (_, p) => p,
    }
}

pub open spec fn step_spec(role: Role, phase: Phase, outcome: Outcome) -> Phase {
    if is_terminal(phase) {
        phase
    } else {
        match outcome {
            Outcome::Succeeded => successor(role, phase),
            Outcome::Failed(e) => Phase::Failed(e),
        }
    }
}

/// Decides the next phase of a transfer from the outcome of the step that
/// the current phase performed. Done and Failed are final.
pub fn step(role: Role, phase: Phase, outcome: Outcome) -> (r: Phase)
    ensures
        r == step_spec(role, phase, outcome),
{
    match phase {
        Phase::Done | Phase::Failed(_) => phase,
        _ => match outcome {
            Outcome::Failed(e) => Phase::Failed(e),
            Outcome::Succeeded => match (role, phase) {
                (Role::Sender, Phase::Idle) => Phase::Archiving,
                (Role::Sender, Phase::Archiving) => Phase::Connecting,
                (Role::Sender, Phase::Connecting) => Phase::Transferring,
                (Role::Sender, Phase::Transferring) => Phase::Done,
                (Role::Receiver, Phase::Idle) => Phase::Listening,
                (Role::Receiver, Phase::Listening) => Phase::Transferring,
                (Role::Receiver, Phase::Transferring) => Phase::Extracting,
                (Role::Receiver, Phase::Extracting) => Phase::Done,
                (_, p) => p,
            },
        },
    }
}

/// A finished transfer stays finished: no outcome leads out of Done or
/// Failed.
pub proof fn lemma_terminal_phases_absorb(role: Role, phase: Phase, outcome: Outcome)
    requires
        is_terminal(phase),
    ensures
        step_spec(role, phase, outcome) == phase,
{
}

/// A sender whose archiving fails ends in that failure without ever
/// reaching the connecting phase.
pub proof fn lemma_sender_fails_before_connecting(e: TransferError, outcome: Outcome)
    ensures
        step_spec(Role::Sender, Phase::Archiving, Outcome::Failed(e)) == Phase::Failed(e),
        step_spec(Role::Sender, Phase::Failed(e), outcome) == Phase::Failed(e),
{
}

} // verus!
