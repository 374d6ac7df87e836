//! Service control: start, stop, restart, enable, disable.
//!
//! webtop holds no privilege; every verb is delegated to a root-owned
//! helper reached through `sudo -n`. Every mutating request must carry a
//! custom header, which forces a CORS preflight that webtop never answers,
//! so a page on another origin cannot trigger one. That stops drive-by
//! browser requests and nothing more: it is not authentication.
use vstd::prelude::*;
use crate::text::{push_str, trim, contains_seq, chars_of, trim_bounds, string_of_range, contains_str};

verus! {

/// Required on every mutating request; presence is what matters.
pub const CONTROL_HEADER: &'static str = "x-svc-control";

/// HTTP status codes the control endpoints answer with.
pub const FORBIDDEN: u16 = 403;
pub const BAD_REQUEST: u16 = 400;
pub const NOT_FOUND: u16 = 404;

#[derive(Debug)]
pub struct ControlResponse {
    pub ok: bool,
    pub message: String,
}

fn refusal(status: u16, message: String) -> (r: (u16, ControlResponse))
    ensures
        r.0 == status,
        !r.1.ok,
        r.1.message@ == message@,
{
    (status, ControlResponse { ok: false, message })
}

/// Refuse a request that a browser could have sent cross-origin: one
/// without the [`CONTROL_HEADER`].
pub fn guard(header_present: bool) -> (r: Result<(), (u16, ControlResponse)>)
    ensures
        header_present ==> r is Ok,
        !header_present ==> r is Err && r->Err_0.0 == FORBIDDEN && !r->Err_0.1.ok
            && r->Err_0.1.message@ == "missing x-svc-control header; control requests must set it"@,
{
    if header_present {
        return Ok(());
    }
    let mut m = String::new();
    push_str(&mut m, "missing x-svc-control header; control requests must set it");
    Err(refusal(FORBIDDEN, m))
}

/// The verbs the helper accepts.
pub open spec fn known_verb(verb: Seq<char>) -> bool {
    verb == "start"@ || verb == "stop"@ || verb == "restart"@ || verb == "enable"@ || verb
        == "disable"@
}

/// Whether the helper accepts `verb`. Checked before any process is
/// spawned; the helper validates again and is the authority.
pub fn is_known_verb(verb: &str) -> (b: bool)
    ensures
        b == known_verb(verb@),
{
    crate::text::str_eq(verb, "start") || crate::text::str_eq(verb, "stop")
        || crate::text::str_eq(verb, "restart") || crate::text::str_eq(verb, "enable")
        || crate::text::str_eq(verb, "disable")
}

/// Refuse an unknown verb with 400 Bad Request.
pub fn check_verb(verb: &str) -> (r: Result<(), (u16, ControlResponse)>)
    ensures
        known_verb(verb@) ==> r is Ok,
        !known_verb(verb@) ==> r is Err && r->Err_0.0 == BAD_REQUEST && !r->Err_0.1.ok
            && r->Err_0.1.message@ == "unknown verb '"@ + verb@ + "'"@,
{
    if is_known_verb(verb) {
        return Ok(());
    }
    let mut m = String::new();
    push_str(&mut m, "unknown verb '");
    push_str(&mut m, verb);
    push_str(&mut m, "'");
    Err(refusal(BAD_REQUEST, m))
}

/// The message for a name the manifest does not declare.
pub fn no_such_service(name: &str) -> (m: String)
    ensures
        m@ == "no service named '"@ + name@ + "' in the manifest"@,
{
    let mut m = String::new();
    push_str(&mut m, "no service named '");
    push_str(&mut m, name);
    push_str(&mut m, "' in the manifest");
    m
}

/// Refuse, with 404 Not Found, a service the manifest does not declare:
/// only declared names are forwarded to the helper.
pub fn check_declared(name: &str, declared: bool) -> (r: Result<(), (u16, ControlResponse)>)
    ensures
        declared ==> r is Ok,
        !declared ==> r is Err && r->Err_0.0 == NOT_FOUND && !r->Err_0.1.ok
            && r->Err_0.1.message@ == "no service named '"@ + name@ + "' in the manifest"@,
{
    if declared {
        return Ok(());
    }
    Err(refusal(NOT_FOUND, no_such_service(name)))
}

/// What a control request does next.
pub enum ControlStep {
    /// Find out whether the manifest declares the service, then decide again
    /// with the answer.
    LookUp,
    /// Every check passed: run the helper.
    RunHelper,
    /// Answer with this status and response; the helper is not run.
    Refuse(u16, ControlResponse),
}

/// The next step of a control request. The header is checked first, then
/// the verb, then, once it has been looked up (`declared` is `Some`),
/// whether the manifest declares the service. The helper runs only when all
/// three pass; the first check that fails decides the refusal.
pub fn control_step(header_present: bool, verb: &str, name: &str, declared: Option<bool>) -> (r:
    ControlStep)
    ensures
        !header_present ==> (r matches ControlStep::Refuse(s, m) && s == FORBIDDEN && !m.ok
            && m.message@ == "missing x-svc-control header; control requests must set it"@),
        header_present && !known_verb(verb@) ==> (r matches ControlStep::Refuse(s, m) && s
            == BAD_REQUEST && !m.ok && m.message@ == "unknown verb '"@ + verb@ + "'"@),
        header_present && known_verb(verb@) ==> match declared {
            None => r is LookUp,
            Some(true) => r is RunHelper,
            Some(false) => (r matches ControlStep::Refuse(s, m) && s == NOT_FOUND && !m.ok
                && m.message@ == "no service named '"@ + name@ + "' in the manifest"@),
        },
{
    if let Err((s, m)) = guard(header_present) {
        return ControlStep::Refuse(s, m);
    }
    if let Err((s, m)) = check_verb(verb) {
        return ControlStep::Refuse(s, m);
    }
    match declared {
        None => ControlStep::LookUp,
        Some(d) => match check_declared(name, d) {
            Ok(()) => ControlStep::RunHelper,
            Err((s, m)) => ControlStep::Refuse(s, m),
        },
    }
}

/// What a helper run means: on success its stdout (or stderr when stdout
/// is empty); on failure its stderr (or stdout), explained when sudo asked
/// for a password because the sudoers rule is missing.
pub open spec fn helper_outcome_spec(success: bool, stdout: Seq<char>, stderr: Seq<char>, helper: Seq<char>) -> Result<Seq<char>, Seq<char>> {
    let out = trim(stdout);
    let err = trim(stderr);
    if success {
        Ok(if out.len() == 0 { err } else { out })
    } else {
        let detail = if err.len() == 0 { out } else { err };
        if contains_seq(detail, "password is required"@) {
            Err(helper + " is not permitted without a password — install the sudoers rule ("@ + detail + ")"@)
        } else {
            Err(detail)
        }
    }
}

fn trimmed(s: &str) -> (r: String)
    ensures
        r@ == trim(s@),
{
    let cs = chars_of(s);
    let (a, b) = trim_bounds(cs.as_slice(), 0, cs.len());
    assert(cs@.subrange(0, cs@.len() as int) =~= cs@);
    string_of_range(cs.as_slice(), a, b)
}

pub fn helper_outcome(success: bool, stdout: &str, stderr: &str, helper: &str) -> (r: Result<String, String>)
    ensures
        match helper_outcome_spec(success, stdout@, stderr@, helper@) {
            Ok(m) => r is Ok && r->Ok_0@ == m,
            Err(m) => r is Err && r->Err_0@ == m,
        },
{
    let out = trimmed(stdout);
    let err = trimmed(stderr);
    if success {
        return Ok(if out.as_str().is_empty() {
            err
        } else {
            out
        });
    }
    let detail = if err.as_str().is_empty() {
        out
    } else {
        err
    };
    let dc = chars_of(detail.as_str());
    if contains_str(dc.as_slice(), "password is required") {
        let mut m = String::new();
        push_str(&mut m, helper);
        push_str(&mut m, " is not permitted without a password — install the sudoers rule (");
        push_str(&mut m, detail.as_str());
        push_str(&mut m, ")");
        Err(m)
    } else {
        Err(detail)
    }
}

/// The response for a helper outcome.
pub fn control_response(outcome: Result<String, String>) -> (r: ControlResponse)
    ensures
        match outcome {
            Ok(m) => r.ok && r.message@ == m@,
            Err(m) => !r.ok && r.message@ == m@,
        },
{
    match outcome {
        Ok(message) => ControlResponse { ok: true, message },
        Err(message) => ControlResponse { ok: false, message },
    }
}

} // verus!
