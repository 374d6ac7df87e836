//! Command-line configuration, as plain data.
//!
//! Argument parsing itself is the binary's job; this is what it produces
//! and the path resolution every consumer shares.
use vstd::prelude::*;
use crate::text::{chars_of, push_char, push_str};

verus! {

/// How the process was started.
#[derive(Debug)]
pub struct Config {
    pub port: u16,
    /// Metrics database; `~` stands for the home directory.
    pub db_path: String,
    /// Electricity price, in the smallest currency unit per kWh.
    pub electricity_rate: u32,
    /// Services manifest; `~` stands for the home directory.
    pub services_manifest: String,
    /// Root-owned helper that performs privileged service control.
    pub control_helper: String,
    /// Optional subcommand; without one the HTTP server runs.
    pub cmd: Option<Command>,
}

#[derive(Debug)]
pub enum Command {
    /// Install the LaunchAgent, optionally for another port.
    Install { port: Option<u16> },
    /// Remove the LaunchAgent and stop the running instance.
    Uninstall,
    /// Print the LaunchAgent's plist path and state.
    Status,
}

/// `s` with every `~` replaced by `home` (`str::replace`).
pub open spec fn replace_tilde(s: Seq<char>, home: Seq<char>) -> Seq<char>
    decreases s.len(),
{
    if s.len() == 0 {
        Seq::empty()
    } else {
        replace_tilde(s.drop_last(), home) + if s.last() == '~' {
            home
        } else {
            seq![s.last()]
        }
    }
}

/// Replace every `~` in `s` with `home`.
pub fn expand_tilde(s: &str, home: &str) -> (r: String)
    ensures
        r@ == replace_tilde(s@, home@),
{
    let cs = chars_of(s);
    let mut r = String::new();
    let n = cs.len();
    for i in 0..n
        invariant
            n == cs@.len(),
            r@ == replace_tilde(cs@.take(i as int), home@),
    {
        assert(cs@.take(i + 1).drop_last() =~= cs@.take(i as int));
        assert(cs@.take(i + 1).last() == cs@[i as int]);
        if cs[i] == '~' {
            push_str(&mut r, home);
        } else {
            push_char(&mut r, cs[i]);
            assert(r@ =~= replace_tilde(cs@.take(i as int), home@) + seq![cs@[i as int]]);
        }
    }
    assert(cs@.take(n as int) =~= cs@);
    r
}

impl Config {
    /// The metrics database path, with `~` expanded to `home`.
    pub fn resolved_db_path(&self, home: &str) -> (r: String)
        ensures
            r@ == replace_tilde(self.db_path@, home@),
    {
        expand_tilde(self.db_path.as_str(), home)
    }

    /// The services manifest path, with `~` expanded to `home`.
    pub fn resolved_manifest_path(&self, home: &str) -> (r: String)
        ensures
            r@ == replace_tilde(self.services_manifest@, home@),
    {
        expand_tilde(self.services_manifest.as_str(), home)
    }
}

/// The home directory when `HOME` is unset.
pub fn home_or_default(home: Option<String>) -> (r: String)
    ensures
        r@ == match home {
            Some(h) => h@,
            None => "/tmp"@,
        },
{
    match home {
        Some(h) => h,
        None => {
            let mut r = String::new();
            push_str(&mut r, "/tmp");
            r
        },
    }
}

} // verus!
