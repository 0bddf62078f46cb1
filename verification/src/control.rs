//! The per-client command loop's decisions: how `start`, `stop` and `cancel`
//! move the controller between its states, and which actions the surrounding
//! task must perform, in order.
//!
//! The controller tracks whether an active session and a draining session
//! exist; the handles themselves (tasks, queues, sockets) live outside.

use vstd::prelude::*;

verus! {

/// A client command, already decoded from its JSON line.  Anything
/// unrecognized is `Unknown`.
#[derive(Clone, Copy, PartialEq, Eq, Structural, Debug)]
pub enum Command {
    Start,
    Stop,
    Cancel,
    Unknown,
}

/// One action the surrounding task performs on the controller's behalf, in
/// list order.
#[derive(Clone, Copy, PartialEq, Eq, Structural, Debug)]
pub enum ControlEffect {
    /// Hard-abort the draining session's task.
    AbortDraining,
    /// Revoke the audio routing target.
    ClearTarget,
    /// Hard-abort the active session's task.
    AbortActive,
    /// Take the hot spare, or report that none is there.
    TryConnect,
    /// Dial the recognition endpoint on demand.
    Dial,
    /// Route audio into a fresh queue and spawn the session task on it.
    InstallAudioAndSpawn,
    /// Tell the client: status `connecting`.
    EmitConnecting,
    /// Tell the client: status `recording`.
    EmitRecording,
    /// Tell the client: status `idle`.
    EmitIdle,
    /// Tell the client the dial error, verbatim.
    EmitDialError,
    /// Tell the client an unknown command arrived.
    EmitUnknownError,
}

/// Which sessions exist right now.
#[derive(Clone, Copy, PartialEq, Eq, Structural, Debug)]
pub struct ControllerState {
    pub active: bool,
    pub draining: bool,
}

/// The actions a command triggers.
pub open spec fn command_effects(st: ControllerState, cmd: Command) -> Seq<ControlEffect> {
    match cmd {
        Command::Start => (if st.draining {
            seq![ControlEffect::AbortDraining]
        } else {
            Seq::empty()
        }) + (if st.active {
            seq![ControlEffect::ClearTarget, ControlEffect::AbortActive]
        } else {
            Seq::empty()
        }) + seq![ControlEffect::TryConnect],
        Command::Stop => if st.active {
            seq![ControlEffect::ClearTarget] + (if st.draining {
                seq![ControlEffect::AbortDraining]
            } else {
                Seq::empty()
            })
        } else {
            seq![ControlEffect::ClearTarget, ControlEffect::EmitIdle]
        },
        Command::Cancel => seq![ControlEffect::ClearTarget] + (if st.active {
            seq![ControlEffect::AbortActive]
        } else {
            Seq::empty()
        }) + (if st.draining {
            seq![ControlEffect::AbortDraining]
        } else {
            Seq::empty()
        }) + seq![ControlEffect::EmitIdle],
        Command::Unknown => seq![ControlEffect::EmitUnknownError],
    }
}

/// The state a command leaves: `start` clears both slots until the
/// connection is settled; `stop` moves the active session to draining;
/// `cancel` empties both; an unknown command changes nothing.
pub open spec fn command_next(st: ControllerState, cmd: Command) -> ControllerState {
    match cmd {
        Command::Start => ControllerState { active: false, draining: false },
        Command::Stop => if st.active {
            ControllerState { active: false, draining: true }
        } else {
            st
        },
        Command::Cancel => ControllerState { active: false, draining: false },
        Command::Unknown => st,
    }
}

impl ControllerState {
    /// A fresh client handler: no sessions.
    pub fn new() -> (r: ControllerState)
        ensures
            !r.active,
            !r.draining,
    {
        ControllerState { active: false, draining: false }
    }

    /// Handle one client command; perform the returned actions in order.
    pub fn on_command(&mut self, cmd: Command) -> (effects: Vec<ControlEffect>)
        ensures
            effects@ == command_effects(*old(self), cmd),
            *final(self) == command_next(*old(self), cmd),
    {
        let mut effects: Vec<ControlEffect> = Vec::new();
        match cmd {
            Command::Start => {
                if self.draining {
                    effects.push(ControlEffect::AbortDraining);
                }
                if self.active {
                    effects.push(ControlEffect::ClearTarget);
                    effects.push(ControlEffect::AbortActive);
                }
                effects.push(ControlEffect::TryConnect);
                let next = ControllerState { active: false, draining: false };
                proof {
                    assert(effects@ =~= command_effects(*old(self), cmd));
                }
                *self = next;
            },
            Command::Stop => {
                effects.push(ControlEffect::ClearTarget);
                if self.active {
                    if self.draining {
                        effects.push(ControlEffect::AbortDraining);
                    }
                    let next = ControllerState { active: false, draining: true };
                    proof {
                        assert(effects@ =~= command_effects(*old(self), cmd));
                    }
                    *self = next;
                } else {
                    effects.push(ControlEffect::EmitIdle);
                    proof {
                        assert(effects@ =~= command_effects(*old(self), cmd));
                    }
                }
            },
            Command::Cancel => {
                effects.push(ControlEffect::ClearTarget);
                if self.active {
                    effects.push(ControlEffect::AbortActive);
                }
                if self.draining {
                    effects.push(ControlEffect::AbortDraining);
                }
                effects.push(ControlEffect::EmitIdle);
                let next = ControllerState { active: false, draining: false };
                proof {
                    assert(effects@ =~= command_effects(*old(self), cmd));
                }
                *self = next;
            },
            Command::Unknown => {
                effects.push(ControlEffect::EmitUnknownError);
                proof {
                    assert(effects@ =~= command_effects(*old(self), cmd));
                }
            },
        }
        effects
    }

    /// The spare slot answered a `TryConnect`: with a spare in hand the
    /// session starts at once; otherwise the client hears `connecting` and
    /// the endpoint is dialed.
    pub fn on_spare(&mut self, got_spare: bool) -> (effects: Vec<ControlEffect>)
        ensures
            got_spare ==> effects@ == seq![
                ControlEffect::InstallAudioAndSpawn,
                ControlEffect::EmitRecording,
            ] && *final(self) == (ControllerState { active: true, draining: old(self).draining }),
            !got_spare ==> effects@ == seq![ControlEffect::EmitConnecting, ControlEffect::Dial]
                && *final(self) == *old(self),
    {
        let mut effects: Vec<ControlEffect> = Vec::new();
        if got_spare {
            effects.push(ControlEffect::InstallAudioAndSpawn);
            effects.push(ControlEffect::EmitRecording);
            self.active = true;
            proof {
                assert(effects@ =~= seq![
                    ControlEffect::InstallAudioAndSpawn,
                    ControlEffect::EmitRecording,
                ]);
            }
        } else {
            effects.push(ControlEffect::EmitConnecting);
            effects.push(ControlEffect::Dial);
            proof {
                assert(effects@ =~= seq![ControlEffect::EmitConnecting, ControlEffect::Dial]);
            }
        }
        effects
    }

    /// The on-demand dial came back: on success the session starts; on
    /// failure the client hears the error and the controller stays ready
    /// for the next command.
    pub fn on_dial(&mut self, ok: bool) -> (effects: Vec<ControlEffect>)
        ensures
            ok ==> effects@ == seq![
                ControlEffect::InstallAudioAndSpawn,
                ControlEffect::EmitRecording,
            ] && *final(self) == (ControllerState { active: true, draining: old(self).draining }),
            !ok ==> effects@ == seq![ControlEffect::EmitDialError] && *final(self) == *old(self),
    {
        let mut effects: Vec<ControlEffect> = Vec::new();
        if ok {
            effects.push(ControlEffect::InstallAudioAndSpawn);
            effects.push(ControlEffect::EmitRecording);
            self.active = true;
            proof {
                assert(effects@ =~= seq![
                    ControlEffect::InstallAudioAndSpawn,
                    ControlEffect::EmitRecording,
                ]);
            }
        } else {
            effects.push(ControlEffect::EmitDialError);
            proof {
                assert(effects@ =~= seq![ControlEffect::EmitDialError]);
            }
        }
        effects
    }
}

} // verus!
