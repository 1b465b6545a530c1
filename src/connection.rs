//! When a send reuses the backend connection and when it opens a new one.
//! The connection itself, and the task that drives it, live with the I/O;
//! this is the decision they follow.
use vstd::prelude::*;

verus! {

/// What the connection slot holds when a send starts.
#[derive(Clone, Copy, Debug, PartialEq, Eq, Structural)]
pub enum Held {
    /// No connection yet.
    Nothing,
    /// A connection whose driver is still running.
    Open,
    /// A connection whose driver has finished: the transport is closed.
    Finished,
}

/// What a send does next.
#[derive(Clone, Copy, Debug, PartialEq, Eq, Structural)]
pub enum SendStep {
    /// Send the request on the held connection.
    Dispatch,
    /// Drop what is held and establish a new connection first.
    Connect,
}

pub open spec fn step_for(held: Held) -> SendStep {
    match held {
        Held::Open => SendStep::Dispatch,
        _ => SendStep::Connect,
    }
}

/// A connection is used only while its driver runs; otherwise a new one is
/// made.
pub fn send_step(held: Held) -> (r: SendStep)
    ensures
        r == step_for(held),
{
    match held {
        Held::Open => SendStep::Dispatch,
        _ => SendStep::Connect,
    }
}

/// The transports one send establishes, starting from `held`, when the one
/// it establishes is open once connected; and what the slot holds after.
pub open spec fn send_outcome(held: Held) -> (nat, Held) {
    match step_for(held) {
        SendStep::Dispatch => (0, held),
        SendStep::Connect => match step_for(Held::Open) {
            SendStep::Dispatch => (1, Held::Open),
            SendStep::Connect => (2, Held::Open),
        },
    }
}

/// Two sends in a row on an open connection establish no transport; a send
/// after the driver finished (or before any connection) establishes exactly
/// one, and leaves an open connection for the next send to reuse.
pub proof fn lemma_reuse_then_replace(held: Held)
    ensures
        held == Held::Open ==> send_outcome(held) == (0nat, Held::Open) && send_outcome(
            send_outcome(held).1,
        ).0 == 0,
        held != Held::Open ==> send_outcome(held) == (1nat, Held::Open) && send_outcome(
            send_outcome(held).1,
        ).0 == 0,
{
}

} // verus!
