//! Error kinds of the daemon, with their user-visible descriptions.

use vstd::prelude::*;
use vstd::string::StringExecFns;

verus! {

/// What went wrong, by subsystem.
pub enum DaemonError {
    Audio(String),
    Config(String),
    WebSocket(String),
    Protocol(String),
    Io(String),
}

pub type DaemonResult<T> = Result<T, DaemonError>;

impl DaemonError {
    /// The description a log or a client sees: a fixed prefix naming the
    /// subsystem, then the detail.
    pub fn message(&self) -> (r: String)
        ensures
            match self {
                DaemonError::Audio(d) => r@ == "Audio device error: "@ + d@,
                DaemonError::Config(d) => r@ == "Configuration error: "@ + d@,
                DaemonError::WebSocket(d) => r@ == "WebSocket error: "@ + d@,
                DaemonError::Protocol(d) => r@ == "Protocol error: "@ + d@,
                DaemonError::Io(d) => r@ == "IO error: "@ + d@,
            },
    {
        match self {
            DaemonError::Audio(d) => String::from_str("Audio device error: ").concat(d.as_str()),
            DaemonError::Config(d) => String::from_str("Configuration error: ").concat(d.as_str()),
            DaemonError::WebSocket(d) => String::from_str("WebSocket error: ").concat(d.as_str()),
            DaemonError::Protocol(d) => String::from_str("Protocol error: ").concat(d.as_str()),
            DaemonError::Io(d) => String::from_str("IO error: ").concat(d.as_str()),
        }
    }
}

} // verus!
