//! Configuration resolution and the choice of the local socket path.
//!
//! Reading the environment happens outside the crate; the rules for
//! defaults, trimming and required values live here, on the plain values
//! that were read.

use vstd::prelude::*;
use vstd::string::StringExecFns;
use crate::text::{trim, trim_of};

verus! {

/// Immutable daemon configuration.
#[derive(Clone, Debug)]
pub struct AsrConfig {
    pub app_id: String,
    pub access_token: String,
    pub resource_id: String,
    pub mode: String,
}

impl AsrConfig {
    pub fn clone_cfg(&self) -> (r: AsrConfig)
        ensures
            r.app_id@ == self.app_id@,
            r.access_token@ == self.access_token@,
            r.resource_id@ == self.resource_id@,
            r.mode@ == self.mode@,
    {
        AsrConfig {
            app_id: self.app_id.clone(),
            access_token: self.access_token.clone(),
            resource_id: self.resource_id.clone(),
            mode: self.mode.clone(),
        }
    }
}

/// Build the configuration from the raw environment values: the two keys are
/// required (with a fixed message naming the missing one), the resource and
/// mode fall back to their defaults, and every value is trimmed.
pub fn resolve_config(
    app_id: Option<String>,
    access_token: Option<String>,
    resource_id: Option<String>,
    mode: Option<String>,
) -> (r: Result<AsrConfig, String>)
    ensures
        app_id is None ==> (r matches Err(e) && e@ == "missing ANYTALK_APP_ID"@),
        app_id is Some && access_token is None ==> (r matches Err(e) && e@
            == "missing ANYTALK_ACCESS_TOKEN"@),
        match (app_id, access_token) {
            (Some(a), Some(t)) => r matches Ok(cfg) && {
                &&& cfg.app_id@ == trim_of(a@)
                &&& cfg.access_token@ == trim_of(t@)
                &&& cfg.resource_id@ == (match resource_id {
                    Some(rid) => trim_of(rid@),
                    None => "volc.seedasr.sauc.duration"@,
                })
                &&& cfg.mode@ == (match mode {
                    Some(m) => trim_of(m@),
                    None => "bidi_async"@,
                })
            },
            _ => true,
        },
{
    let app_id: String = match app_id {
        Some(a) => trim(a.as_str()),
        None => {
            return Err(String::from_str("missing ANYTALK_APP_ID"));
        },
    };
    let access_token: String = match access_token {
        Some(t) => trim(t.as_str()),
        None => {
            return Err(String::from_str("missing ANYTALK_ACCESS_TOKEN"));
        },
    };
    let resource_id: String = match resource_id {
        Some(rid) => trim(rid.as_str()),
        None => String::from_str("volc.seedasr.sauc.duration"),
    };
    let mode: String = match mode {
        Some(m) => trim(m.as_str()),
        None => String::from_str("bidi_async"),
    };
    Ok(AsrConfig { app_id, access_token, resource_id, mode })
}

/// Where the local socket lives: the runtime directory if set, then the
/// per-user run directory, then the world-writable fallback.
pub enum SocketPathChoice {
    RuntimeDir(String),
    RunUser(String),
    Tmp,
}

/// Pick the socket directory from the environment values: the first of the
/// two directory variables whose trimmed value is non-empty wins.
pub fn socket_path_choice(xdg_runtime_dir: Option<String>, uid: Option<String>) -> (r:
    SocketPathChoice)
    ensures
        match r {
            SocketPathChoice::RuntimeDir(d) => xdg_runtime_dir matches Some(x) && d@ == x@
                && trim_of(x@).len() > 0,
            SocketPathChoice::RunUser(u) => uid matches Some(su) && u@ == su@ && trim_of(su@).len()
                > 0 && (xdg_runtime_dir matches Some(x) ==> trim_of(x@).len() == 0),
            SocketPathChoice::Tmp => (xdg_runtime_dir matches Some(x) ==> trim_of(x@).len() == 0)
                && (uid matches Some(su) ==> trim_of(su@).len() == 0),
        },
{
    if let Some(dir) = xdg_runtime_dir {
        let t: String = trim(dir.as_str());
        if !t.as_str().is_empty() {
            return SocketPathChoice::RuntimeDir(dir);
        }
    }
    if let Some(u) = uid {
        let t: String = trim(u.as_str());
        if !t.as_str().is_empty() {
            return SocketPathChoice::RunUser(u);
        }
    }
    SocketPathChoice::Tmp
}

} // verus!
