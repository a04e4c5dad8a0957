//! The coordinator's handling of one toggle event.
//!
//! A user toggles a switch: the new state is stored and persisted at once
//! (optimistically, regardless of how the job later fares), the switch is
//! resolved to its script, and a plan comes back saying what the
//! presentation loop must do next — spawn the planned job after checking the
//! script's path, or just show the diagnostic for an unknown switch.

use vstd::prelude::*;
use crate::config::{bool_text, render, upsert, valid_name};
use crate::errors::StoreError;
use crate::resolver::{switch_known, switch_label, switch_script, ActionResolver};
use crate::store::{BackingResource, ToggleStateStore};

verus! {

/// The diagnostic surfaced when a toggled switch name is unknown.
pub open spec fn unresolvable_text(name: Seq<char>) -> Seq<char> {
    "ActionUnresolvable: unknown switch "@ + name
}

/// The message surfaced when a switch was toggled and its job is planned.
pub open spec fn toggled_text(name: Seq<char>, desired: bool) -> Seq<char> {
    "Toggled "@ + name + " = "@ + bool_text(desired)
}

/// A job the presentation loop should start: its display name and the
/// script to run.
pub struct PlannedJob {
    pub label: String,
    pub path: String,
}

/// What one toggle event comes to.
pub struct TogglePlan {
    /// The message to show for the toggle itself.
    pub message: String,
    /// The job to start, absent exactly when the switch name is unknown.
    pub job: Option<PlannedJob>,
    /// The failure, if any, of writing the toggled mapping through.
    pub persist_error: Option<StoreError>,
}

/// Handle one toggle event: upsert and persist the switch's new state, then
/// resolve the switch to the job that realizes it.
///
/// The toggled value is persisted whether or not the switch is known and
/// whether or not the write succeeds; an unknown switch produces no job and
/// a diagnostic naming it, and nothing else changes.
pub fn plan_toggle(
    store: &mut ToggleStateStore,
    res: &mut BackingResource,
    name: &str,
    desired: bool,
) -> (plan: TogglePlan)
    requires
        old(store).wf(),
        valid_name(name@),
    ensures
        final(store).wf(),
        final(store)@ == upsert(old(store)@, name@, desired),
        final(store).mapping() == old(store).mapping().insert(name@, desired),
        old(res).writable ==> final(res).writable && (final(res).content matches Some(t) && t@
            == render(final(store)@)) && plan.persist_error is None,
        !old(res).writable ==> *final(res) == *old(res) && plan.persist_error == Some(
            StoreError::ConfigWriteFailed,
        ),
        switch_known(name@) ==> (plan.job matches Some(j) && j.label@ == switch_label(
            name@,
            desired,
        ) && j.path@ == switch_script(name@, desired)) && plan.message@ == toggled_text(
            name@,
            desired,
        ),
        !switch_known(name@) ==> plan.job is None && plan.message@ == unresolvable_text(name@),
{
    let persist_error = match store.set(res, name, desired) {
        Ok(_) => None,
        Err(e) => Some(e),
    };
    match ActionResolver::resolve(name, desired) {
        Some(path) => {
            let label = ActionResolver::label(name, desired);
            let mut message = String::from_str("Toggled ");
            message.append(name);
            message.append(" = ");
            if desired {
                message.append("true");
            } else {
                message.append("false");
            }
            TogglePlan { message, job: Some(PlannedJob { label, path }), persist_error }
        },
        None => {
            let mut message = String::from_str("ActionUnresolvable: unknown switch ");
            message.append(name);
            TogglePlan { message, job: None, persist_error }
        },
    }
}

/// Law: the diagnostic for an unknown switch carries the switch's name — the
/// message ends in exactly that name.
pub proof fn lemma_unresolvable_names_switch(name: Seq<char>)
    ensures
        unresolvable_text(name).len() >= name.len(),
        unresolvable_text(name).subrange(
            unresolvable_text(name).len() - name.len(),
            unresolvable_text(name).len() as int,
        ) == name,
{
    assert(unresolvable_text(name).subrange(
        unresolvable_text(name).len() - name.len(),
        unresolvable_text(name).len() as int,
    ) =~= name);
}

} // verus!
