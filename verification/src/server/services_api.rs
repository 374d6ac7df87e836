//! The services panel's endpoints: what is declared and how it is doing,
//! and restart.
use vstd::prelude::*;
use crate::text::{push_str, push_decimal, decimal};

verus! {

/// What `GET /api/services` answers; `S` is the per-service status.
#[derive(Debug)]
pub struct ServicesResponse<S> {
    pub services: Vec<S>,
    /// Where the manifest was read from.
    pub manifest_path: String,
    /// Why the list is empty, when the manifest is missing or malformed.
    pub error: Option<String>,
}

/// `?range=` of the services history.
#[derive(Debug)]
pub struct HistoryQuery {
    pub range: Option<String>,
}

#[derive(Debug)]
pub struct RestartResponse {
    pub ok: bool,
    pub message: String,
}

/// `Option<u32>` as `{:?}` writes it.
pub open spec fn debug_pid(pid: Option<u32>) -> Seq<char> {
    match pid {
        Some(p) => "Some("@ + decimal(p as nat) + ")"@,
        None => "None"@,
    }
}

/// The message after SIGTERM was sent.
pub fn restart_message(name: &str, pid: Option<u32>) -> (m: String)
    ensures
        m@ == "sent SIGTERM to "@ + name@ + " (pid "@ + debug_pid(pid) + "); launchd will restart it"@,
{
    let mut m = String::new();
    push_str(&mut m, "sent SIGTERM to ");
    push_str(&mut m, name);
    push_str(&mut m, " (pid ");
    match pid {
        Some(p) => {
            push_str(&mut m, "Some(");
            push_decimal(&mut m, p as u64);
            push_str(&mut m, ")");
        },
        None => {
            push_str(&mut m, "None");
        },
    }
    push_str(&mut m, "); launchd will restart it");
    m
}

/// The message when a declared service could not be probed.
pub fn could_not_probe(name: &str) -> (m: String)
    ensures
        m@ == "could not probe '"@ + name@ + "'"@,
{
    let mut m = String::new();
    push_str(&mut m, "could not probe '");
    push_str(&mut m, name);
    push_str(&mut m, "'");
    m
}

/// The services response for a load outcome.
pub fn services_response<S>(outcome: Result<Vec<S>, String>, manifest_path: String) -> (r: ServicesResponse<S>)
    ensures
        r.manifest_path@ == manifest_path@,
        match outcome {
            Ok(s) => r.services@ == s@ && r.error is None,
            Err(e) => r.services@.len() == 0 && r.error is Some && r.error->0@ == e@,
        },
{
    match outcome {
        Ok(services) => ServicesResponse { services, manifest_path, error: None },
        Err(e) => ServicesResponse { services: Vec::new(), manifest_path, error: Some(e) },
    }
}

} // verus!
