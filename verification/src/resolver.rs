//! The action resolver: a pure, closed table from switch names and one-shot
//! action identifiers to the scripts that realize them.
//!
//! The table is compile-time-known; unknown names resolve to nothing rather
//! than to a guessed path, so nothing outside the table can ever be executed.

use vstd::prelude::*;
use crate::text::str_eq;

verus! {

/// The switch names the resolver knows.
pub open spec fn switch_known(name: Seq<char>) -> bool {
    name == "ipv6"@ || name == "offload"@ || name == "tcp_tuning"@
}

/// The script that moves a known switch to the desired state.
pub open spec fn switch_script(name: Seq<char>, desired: bool) -> Seq<char> {
    "backend/"@ + name + (if desired {
        "_enable.ps1"@
    } else {
        "_disable.ps1"@
    })
}

/// The display name of the job that moves a switch to the desired state.
pub open spec fn switch_label(name: Seq<char>, desired: bool) -> Seq<char> {
    (if desired {
        "Enable "@
    } else {
        "Disable "@
    }) + name
}

/// The script behind a one-shot action identifier, if the identifier is known.
pub open spec fn action_script(id: Seq<char>) -> Option<Seq<char>> {
    if id == "PowerPlan"@ {
        Some("backend/powerplan.ps1"@)
    } else if id == "CleanUp"@ {
        Some("backend/clean_up.ps1"@)
    } else if id == "DriveOpt"@ {
        Some("backend/drive_optimization.ps1"@)
    } else {
        None
    }
}

/// Maps a requested action to the script that realizes it.  Pure and
/// deterministic: no filesystem lookup ever decides what runs.
pub struct ActionResolver {}

impl ActionResolver {
    /// The script for moving the switch `name` to the state `desired`, or
    /// nothing exactly when the name is unknown.
    pub fn resolve(name: &str, desired: bool) -> (r: Option<String>)
        ensures
            match r {
                Some(p) => switch_known(name@) && p@ == switch_script(name@, desired),
                None => !switch_known(name@),
            },
    {
        if str_eq(name, "ipv6") || str_eq(name, "offload") || str_eq(name, "tcp_tuning") {
            let mut p = String::from_str("backend/");
            p.append(name);
            if desired {
                p.append("_enable.ps1");
            } else {
                p.append("_disable.ps1");
            }
            Some(p)
        } else {
            None
        }
    }

    /// The display name of the job that `resolve` would start.
    pub fn label(name: &str, desired: bool) -> (r: String)
        ensures
            r@ == switch_label(name@, desired),
    {
        let mut l = if desired {
            String::from_str("Enable ")
        } else {
            String::from_str("Disable ")
        };
        l.append(name);
        l
    }

    /// The script for a one-shot action, or nothing exactly when the
    /// identifier is unknown.
    pub fn resolve_action(id: &str) -> (r: Option<String>)
        ensures
            match action_script(id@) {
                Some(p) => r matches Some(s) && s@ == p,
                None => r is None,
            },
    {
        if str_eq(id, "PowerPlan") {
            Some(String::from_str("backend/powerplan.ps1"))
        } else if str_eq(id, "CleanUp") {
            Some(String::from_str("backend/clean_up.ps1"))
        } else if str_eq(id, "DriveOpt") {
            Some(String::from_str("backend/drive_optimization.ps1"))
        } else {
            None
        }
    }
}

/// Law: for every known switch name and either desired state, the resolved
/// script path is non-empty (and, being a function of its arguments, it is
/// the same path on every call).
pub proof fn lemma_known_switch_resolves(name: Seq<char>, desired: bool)
    requires
        switch_known(name),
    ensures
        switch_script(name, desired).len() > 0,
{
    reveal_strlit("backend/");
}

} // verus!
