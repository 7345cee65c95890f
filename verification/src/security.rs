//! Guard checks that mutating operations run before touching any state:
//! admin authorization, the emergency pause, and the re-entrancy flag.

use vstd::prelude::*;
use crate::error::ContractError;
use crate::order::str_eq;
use crate::state::Registry;

verus! {

impl Registry {
    /// Succeeds exactly when `sender` is the configured admin.
    pub fn check_admin_permission(&self, sender: &str) -> (r: Result<(), ContractError>)
        ensures
            match r {
                Ok(()) => sender@ == self.config.admin@,
                Err(e) => sender@ != self.config.admin@ && (e matches
                    ContractError::Unauthorized { message: m } && m@
                    == "Admin permission required"@),
            },
    {
        if str_eq(sender, self.config.admin.as_str()) {
            Ok(())
        } else {
            Err(ContractError::Unauthorized { message: "Admin permission required".to_owned() })
        }
    }

    /// Succeeds exactly when the system is not under emergency pause.
    pub fn check_system_paused(&self) -> (r: Result<(), ContractError>)
        ensures
            match r {
                Ok(()) => !self.config.emergency_paused,
                Err(e) => self.config.emergency_paused && e == ContractError::SystemPaused,
            },
    {
        if self.config.emergency_paused {
            Err(ContractError::SystemPaused)
        } else {
            Ok(())
        }
    }

    /// Succeeds exactly when the re-entrancy flag is clear.
    pub fn check_reentrancy_lock(&self) -> (r: Result<(), ContractError>)
        ensures
            match r {
                Ok(()) => !self.reentrancy_lock,
                Err(e) => self.reentrancy_lock && e == ContractError::ReentrancyDetected,
            },
    {
        if self.reentrancy_lock {
            Err(ContractError::ReentrancyDetected)
        } else {
            Ok(())
        }
    }

    /// Sets or clears the re-entrancy flag; no other state changes.
    pub fn set_reentrancy_lock(&mut self, locked: bool) -> (r: Result<(), ContractError>)
        requires
            old(self).wf(),
        ensures
            final(self).wf(),
            final(self).reentrancy_lock == locked,
            final(self).config == old(self).config,
            final(self).rules == old(self).rules,
            final(self).users == old(self).users,
            final(self).leaderboard == old(self).leaderboard,
            r is Ok,
    {
        self.reentrancy_lock = locked;
        Ok(())
    }

    /// Cooldown bookkeeping is not recorded by this engine, so every check
    /// passes.
    pub fn check_cooldown(
        &self,
        _user: &str,
        _cooldown_type: &str,
        _cooldown_duration: u64,
    ) -> (r: Result<(), ContractError>)
        ensures
            r is Ok,
    {
        Ok(())
    }
}

} // verus!
