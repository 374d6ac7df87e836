//! The LaunchAgent that starts webtop at login and restarts it on crash.
//!
//! Writing the plist and driving `launchctl` is the caller's job; this
//! module produces the plist, the paths, and the messages.
use vstd::prelude::*;
use crate::paths::{join_spec, join_path};
use crate::text::{push_str, push_decimal, decimal, trim, chars_of, trim_bounds, string_of_range, occurs_at, contains_seq};

verus! {

/// The LaunchAgent's label.
pub const LABEL: &'static str = "com.webtop";

/// Where the plist lives under `home`.
pub open spec fn plist_path_spec(home: Seq<char>) -> Seq<char> {
    join_spec(join_spec(home, "Library/LaunchAgents"@), "com.webtop.plist"@)
}

/// Absolute path of the plist, for the user whose home is `home`.
pub fn plist_path(home: &str) -> (p: String)
    ensures
        p@ == plist_path_spec(home@),
{
    let dir = join_path(home, "Library/LaunchAgents");
    join_path(dir.as_str(), "com.webtop.plist")
}

/// The plist text: run `binary --port <port>` at load, keep it alive,
/// throttle respawns, run at background priority, log under
/// `<home>/.webtop`, start in `home`.
pub open spec fn plist_spec(binary: Seq<char>, port: u16, home: Seq<char>) -> Seq<char> {
    "<?xml version=\"1.0\" encoding=\"UTF-8\"?>\n<!DOCTYPE plist PUBLIC \"-//Apple//DTD PLIST 1.0//EN\" \"http://www.apple.com/DTDs/PropertyList-1.0.dtd\">\n<plist version=\"1.0\">\n<dict>\n    <key>Label</key>\n    <string>"@ + "com.webtop"@ + "</string>\n    <key>ProgramArguments</key>\n    <array>\n        <string>"@ + binary + "</string>\n        <string>--port</string>\n        <string>"@ + decimal(port as nat)
        + "</string>\n    </array>\n    <key>RunAtLoad</key>\n    <true/>\n    <key>KeepAlive</key>\n    <true/>\n\n    <!-- Without a throttle, a persistent startup failure (typically the port\n         already being bound) makes launchd respawn as fast as we can exit,\n         which floods the error log. 10 s between attempts is plenty. -->\n    <key>ThrottleInterval</key>\n    <integer>10</integer>\n\n    <!-- A background metrics collector should never compete with foreground\n         work for CPU or disk bandwidth. -->\n    <key>ProcessType</key>\n    <string>Background</string>\n    <key>LowPriorityIO</key>\n    <true/>\n\n    <!-- Leave room for the SQLite writer to finish its checkpoint on stop. -->\n    <key>ExitTimeOut</key>\n    <integer>15</integer>\n\n    <key>StandardOutPath</key>\n    <string>"@ + home + "/.webtop"@ + "/webtop.out.log</string>\n    <key>StandardErrorPath</key>\n    <string>"@ + home + "/.webtop"@ + "/webtop.err.log</string>\n    <key>WorkingDirectory</key>\n    <string>"@ + home
        + "</string>\n    <key>EnvironmentVariables</key>\n    <dict>\n        <key>PATH</key>\n        <string>/opt/homebrew/bin:/usr/local/bin:/usr/bin:/bin:/usr/sbin:/sbin</string>\n    </dict>\n</dict>\n</plist>\n"@
}

proof fn lemma_occurs_kept(t: Seq<char>)
    ensures
        forall|s: Seq<char>, y: Seq<char>, i: int|
            #![trigger occurs_at(s, t, i), s + y]
            occurs_at(s, t, i) ==> occurs_at(s + y, t, i),
        forall|x: Seq<char>, s: Seq<char>, i: int|
            #![trigger occurs_at(s, t, i), x + s]
            occurs_at(s, t, i) ==> occurs_at(x + s, t, x.len() + i),
{
    assert forall|s: Seq<char>, y: Seq<char>, i: int|
        #![trigger occurs_at(s, t, i), s + y]
        occurs_at(s, t, i) implies occurs_at(s + y, t, i) by {
        assert((s + y).subrange(i, i + t.len()) =~= s.subrange(i, i + t.len()));
    }
    assert forall|x: Seq<char>, s: Seq<char>, i: int|
        #![trigger occurs_at(s, t, i), x + s]
        occurs_at(s, t, i) implies occurs_at(x + s, t, x.len() + i) by {
        assert((x + s).subrange(x.len() + i, x.len() + i + t.len()) =~= s.subrange(i, i + t.len()));
    }
}

/// The agent starts at login and launchd restarts it whenever it exits:
/// every plist generated sets both `RunAtLoad` and `KeepAlive` to true.
pub proof fn law_the_agent_is_kept_alive(binary: Seq<char>, port: u16, home: Seq<char>)
    ensures
        contains_seq(plist_spec(binary, port, home), "<key>KeepAlive</key>\n    <true/>"@),
        contains_seq(plist_spec(binary, port, home), "<key>RunAtLoad</key>\n    <true/>"@),
{
    let keep = "<key>KeepAlive</key>\n    <true/>"@;
    let run = "<key>RunAtLoad</key>\n    <true/>"@;
    let middle = "</string>\n    </array>\n    <key>RunAtLoad</key>\n    <true/>\n    <key>KeepAlive</key>\n    <true/>\n\n    <!-- Without a throttle, a persistent startup failure (typically the port\n         already being bound) makes launchd respawn as fast as we can exit,\n         which floods the error log. 10 s between attempts is plenty. -->\n    <key>ThrottleInterval</key>\n    <integer>10</integer>\n\n    <!-- A background metrics collector should never compete with foreground\n         work for CPU or disk bandwidth. -->\n    <key>ProcessType</key>\n    <string>Background</string>\n    <key>LowPriorityIO</key>\n    <true/>\n\n    <!-- Leave room for the SQLite writer to finish its checkpoint on stop. -->\n    <key>ExitTimeOut</key>\n    <integer>15</integer>\n\n    <key>StandardOutPath</key>\n    <string>"@;
    reveal_strlit("<key>KeepAlive</key>\n    <true/>");
    reveal_strlit("<key>RunAtLoad</key>\n    <true/>");
    reveal_strlit("</string>\n    </array>\n    <key>RunAtLoad</key>\n    <true/>\n    <key>KeepAlive</key>\n    <true/>\n\n    <!-- Without a throttle, a persistent startup failure (typically the port\n         already being bound) makes launchd respawn as fast as we can exit,\n         which floods the error log. 10 s between attempts is plenty. -->\n    <key>ThrottleInterval</key>\n    <integer>10</integer>\n\n    <!-- A background metrics collector should never compete with foreground\n         work for CPU or disk bandwidth. -->\n    <key>ProcessType</key>\n    <string>Background</string>\n    <key>LowPriorityIO</key>\n    <true/>\n\n    <!-- Leave room for the SQLite writer to finish its checkpoint on stop. -->\n    <key>ExitTimeOut</key>\n    <integer>15</integer>\n\n    <key>StandardOutPath</key>\n    <string>");
    assert(middle.subrange(64, 96) =~= keep);
    assert(middle.subrange(27, 59) =~= run);
    assert(occurs_at(middle, keep, 64));
    assert(occurs_at(middle, run, 27));
    lemma_occurs_kept(keep);
    lemma_occurs_kept(run);
}

pub fn generate_plist(binary: &str, port: u16, home: &str) -> (s: String)
    ensures
        s@ == plist_spec(binary@, port, home@),
{
    let mut s = String::new();
    push_str(&mut s, "<?xml version=\"1.0\" encoding=\"UTF-8\"?>\n<!DOCTYPE plist PUBLIC \"-//Apple//DTD PLIST 1.0//EN\" \"http://www.apple.com/DTDs/PropertyList-1.0.dtd\">\n<plist version=\"1.0\">\n<dict>\n    <key>Label</key>\n    <string>");
    push_str(&mut s, "com.webtop");
    push_str(&mut s, "</string>\n    <key>ProgramArguments</key>\n    <array>\n        <string>");
    push_str(&mut s, binary);
    push_str(&mut s, "</string>\n        <string>--port</string>\n        <string>");
    push_decimal(&mut s, port as u64);
    push_str(&mut s, "</string>\n    </array>\n    <key>RunAtLoad</key>\n    <true/>\n    <key>KeepAlive</key>\n    <true/>\n\n    <!-- Without a throttle, a persistent startup failure (typically the port\n         already being bound) makes launchd respawn as fast as we can exit,\n         which floods the error log. 10 s between attempts is plenty. -->\n    <key>ThrottleInterval</key>\n    <integer>10</integer>\n\n    <!-- A background metrics collector should never compete with foreground\n         work for CPU or disk bandwidth. -->\n    <key>ProcessType</key>\n    <string>Background</string>\n    <key>LowPriorityIO</key>\n    <true/>\n\n    <!-- Leave room for the SQLite writer to finish its checkpoint on stop. -->\n    <key>ExitTimeOut</key>\n    <integer>15</integer>\n\n    <key>StandardOutPath</key>\n    <string>");
    push_str(&mut s, home);
    push_str(&mut s, "/.webtop");
    push_str(&mut s, "/webtop.out.log</string>\n    <key>StandardErrorPath</key>\n    <string>");
    push_str(&mut s, home);
    push_str(&mut s, "/.webtop");
    push_str(&mut s, "/webtop.err.log</string>\n    <key>WorkingDirectory</key>\n    <string>");
    push_str(&mut s, home);
    push_str(&mut s, "</string>\n    <key>EnvironmentVariables</key>\n    <dict>\n        <key>PATH</key>\n        <string>/opt/homebrew/bin:/usr/local/bin:/usr/bin:/bin:/usr/sbin:/sbin</string>\n    </dict>\n</dict>\n</plist>\n");
    s
}

/// The per-user GUI launchd domain, `gui/<uid>`.
pub fn gui_domain(uid: u32) -> (d: String)
    ensures
        d@ == "gui/"@ + decimal(uid as nat),
{
    let mut d = String::new();
    push_str(&mut d, "gui/");
    push_decimal(&mut d, uid as u64);
    d
}

/// The job's target in the GUI domain, `gui/<uid>/com.webtop`.
pub fn service_target(uid: u32) -> (t: String)
    ensures
        t@ == "gui/"@ + decimal(uid as nat) + "/com.webtop"@,
{
    let mut t = gui_domain(uid);
    push_str(&mut t, "/com.webtop");
    t
}

/// The launchd session name from `launchctl managername`'s output, or
/// `unknown` when it could not be asked.
pub fn manager_name(output: Option<&str>) -> (m: String)
    ensures
        m@ == match output {
            Some(o) => trim(o@),
            None => "unknown"@,
        },
{
    match output {
        Some(o) => {
            let cs = chars_of(o);
            let (a, b) = trim_bounds(cs.as_slice(), 0, cs.len());
            assert(cs@.subrange(0, cs@.len() as int) =~= cs@);
            string_of_range(cs.as_slice(), a, b)
        },
        None => {
            let mut m = String::new();
            push_str(&mut m, "unknown");
            m
        },
    }
}

/// Whether the process runs in a logged-in graphical session (`Aqua`),
/// the only place a LaunchAgent can be registered from.
pub fn in_gui_session(manager: &str) -> (b: bool)
    ensures
        b == (manager@ == "Aqua"@),
{
    crate::text::str_eq(manager, "Aqua")
}

/// What to say when `launchctl bootstrap` fails, given what it printed on
/// stderr and the session the process runs in.
pub open spec fn bootstrap_failure_spec(stderr: Seq<char>, manager: Seq<char>) -> Seq<char> {
    if manager == "Aqua"@ {
        "launchctl bootstrap failed: "@ + trim(stderr)
    } else {
        "launchctl could not reach the GUI session (currently in the '"@ + manager
            + "' launchd domain).\nRun `webtop install` from Terminal.app on the Mac itself — a LaunchAgent cannot be registered from an SSH or background session.\nlaunchctl said: "@
            + trim(stderr)
    }
}

pub fn bootstrap_failure(stderr: &str, manager: &str) -> (m: String)
    ensures
        m@ == bootstrap_failure_spec(stderr@, manager@),
{
    let cs = chars_of(stderr);
    let (a, b) = trim_bounds(cs.as_slice(), 0, cs.len());
    assert(cs@.subrange(0, cs@.len() as int) =~= cs@);
    let trimmed = string_of_range(cs.as_slice(), a, b);
    let mut m = String::new();
    if in_gui_session(manager) {
        push_str(&mut m, "launchctl bootstrap failed: ");
    } else {
        push_str(&mut m, "launchctl could not reach the GUI session (currently in the '");
        push_str(&mut m, manager);
        push_str(
            &mut m,
            "' launchd domain).\nRun `webtop install` from Terminal.app on the Mac itself — a LaunchAgent cannot be registered from an SSH or background session.\nlaunchctl said: ",
        );
    }
    push_str(&mut m, trimmed.as_str());
    m
}

} // verus!
