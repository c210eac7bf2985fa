//! The user interface of the platform that runs the backend.
use vstd::prelude::*;

verus! {

#[verifier::external_type_specification]
#[verifier::external_body]
pub struct ExInstant(std::time::Instant);

/// Relies on std::time::Instant::now: a reading of the monotonic clock.
pub assume_specification[ std::time::Instant::now ]() -> std::time::Instant;

/// Relies on std::time::Instant::elapsed: the time since the reading.
pub assume_specification[ std::time::Instant::elapsed ](i: &std::time::Instant) -> core::time::Duration;

/// The platform's user interface: it confirms presence silently and counts
/// the time since it started.
pub struct UserInterface {
    start_time: std::time::Instant,
}

impl UserInterface {
    /// A user interface that starts counting now.
    pub fn new() -> (r: UserInterface) {
        UserInterface { start_time: std::time::Instant::now() }
    }

    /// Whether the user confirmed presence: always, without asking.
    pub fn check_user_presence(&self) -> (r: bool)
        ensures
            r,
    {
        true
    }

    /// The time since the interface started.
    pub fn uptime(&self) -> core::time::Duration {
        self.start_time.elapsed()
    }
}

} // verus!
