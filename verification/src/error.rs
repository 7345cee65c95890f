//! The error taxonomy of the engine.  Every operation reports failures
//! synchronously through these variants; validation always completes before
//! any mutation, so a returned error implies an unchanged registry.

use vstd::prelude::*;

verus! {

#[derive(Debug, Clone)]
pub enum ContractError {
    Unauthorized { message: String },
    UserNotRegistered { user: String },
    UserAlreadyRegistered { user: String },
    CircularReferral { referrer: String, referee: String },
    InvalidReferrer { referrer: String },
    InsufficientPoints { required: u128, available: u128 },
    SystemPaused,
    ReentrancyDetected,
    InvalidParameter { parameter: String, value: String },
    LimitExceeded { limit_type: String, limit_value: u32, actual_value: u32 },
    CooldownNotReached { cooldown_type: String, remaining_time: u64 },
    SystemError { message: String },
}

} // verus!
