//! Autostart decisions. The OS task scheduler is modeled as a registry
//! holding one fact: whether the named logon task exists. Toggling
//! decides the action to take (create or delete) and what to answer the
//! caller — optimistically, the requested state, so a caller cannot
//! tell success from an unsupported platform; querying reads the
//! registered state back, and the adapter around the library reports
//! `false` on any query failure. The adapter performs the actual
//! scheduler calls and keeps the model in step.

use vstd::prelude::*;

verus! {

/// The scheduler action a toggle decides on.
#[derive(Clone, Copy, PartialEq, Eq, Structural, Debug)]
pub enum StartupAction {
    /// Create the logon task, replacing any existing one.
    Create,
    /// Delete the logon task.
    Delete,
}

/// What toggling decides: create on enable, delete on disable.
pub open spec fn action_for(enable: bool) -> StartupAction {
    if enable {
        StartupAction::Create
    } else {
        StartupAction::Delete
    }
}

/// Whether the named logon task exists after an action is carried out.
pub open spec fn apply_action(state: bool, action: StartupAction) -> bool {
    action == StartupAction::Create
}

/// Decides the scheduler action for a requested autostart state.
pub fn startup_action(enable: bool) -> (r: StartupAction)
    ensures
        r == action_for(enable),
{
    if enable {
        StartupAction::Create
    } else {
        StartupAction::Delete
    }
}

/// The task scheduler's state, as far as this library reads it:
/// whether the named logon task is registered.
pub struct StartupRegistry {
    pub registered: bool,
}

impl StartupRegistry {
    /// A registry in which the task does not exist yet.
    pub fn new() -> (r: StartupRegistry)
        ensures
            r.registered == false,
    {
        StartupRegistry { registered: false }
    }

    /// Registers or deregisters the logon task, and answers with the
    /// requested state, whatever held before.
    pub fn toggle_startup(&mut self, enable: bool) -> (r: bool)
        ensures
            final(self).registered == apply_action(old(self).registered, action_for(enable)),
            final(self).registered == enable,
            r == enable,
    {
        self.registered = enable;
        enable
    }

    /// Reads back whether the logon task is registered.
    pub fn get_startup_setting(&self) -> (r: bool)
        ensures
            r == self.registered,
    {
        self.registered
    }
}

/// Autostart round-trip: toggling to a state and then querying reads
/// that state back, whatever was registered before.
pub proof fn lemma_startup_round_trip(state: bool, enable: bool)
    ensures
        apply_action(state, action_for(enable)) == enable,
{
}

} // verus!
