//! The hot-spare maintainer's decisions.
//!
//! The maintainer keeps at most one pre-dialed connection warm.  The
//! dialing, sleeping and notification live outside; this function fixes
//! what the loop does on each observation: dial when the slot is empty,
//! install the stream on success, back off three seconds on failure, wait
//! for consumption while the slot is full, and debounce briefly after a
//! consumption before checking the slot again.

use vstd::prelude::*;

verus! {

/// What the maintainer loop just observed.
#[derive(Clone, Copy, PartialEq, Eq, Structural, Debug)]
pub enum MaintainerEvent {
    /// The spare slot is empty.
    SlotEmpty,
    /// A dial attempt succeeded.
    DialOk,
    /// A dial attempt failed.
    DialFailed,
    /// The spare slot holds a connection.
    SlotFull,
    /// The consumed notification fired.
    Consumed,
}

/// What the maintainer loop does next.
#[derive(Clone, Copy, PartialEq, Eq, Structural, Debug)]
pub enum MaintainerAction {
    /// Dial the recognition endpoint.
    Dial,
    /// Put the freshly dialed stream into the spare slot.
    InstallSpare,
    /// Back off for three seconds, then check the slot again.
    Sleep3s,
    /// Wait until the spare is consumed.
    WaitConsumed,
    /// Wait 100 ms, then check the slot again.
    Sleep100msThenRecheck,
}

/// One decision of the maintainer loop.
pub fn maintainer_step(ev: MaintainerEvent) -> (a: MaintainerAction)
    ensures
        a == (match ev {
            MaintainerEvent::SlotEmpty => MaintainerAction::Dial,
            MaintainerEvent::DialOk => MaintainerAction::InstallSpare,
            MaintainerEvent::DialFailed => MaintainerAction::Sleep3s,
            MaintainerEvent::SlotFull => MaintainerAction::WaitConsumed,
            MaintainerEvent::Consumed => MaintainerAction::Sleep100msThenRecheck,
        }),
{
    match ev {
        MaintainerEvent::SlotEmpty => MaintainerAction::Dial,
        MaintainerEvent::DialOk => MaintainerAction::InstallSpare,
        MaintainerEvent::DialFailed => MaintainerAction::Sleep3s,
        MaintainerEvent::SlotFull => MaintainerAction::WaitConsumed,
        MaintainerEvent::Consumed => MaintainerAction::Sleep100msThenRecheck,
    }
}

} // verus!
