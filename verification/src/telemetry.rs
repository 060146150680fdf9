//! Timing of operations, and which log records are kept.
use vstd::prelude::*;

verus! {

/// The clock reading of the standard library, carried without being looked into.
#[verifier::external_type_specification]
#[verifier::external_body]
pub struct ExInstant(std::time::Instant);

/// `std::time::Instant::now`: a reading of the clock. Nothing is claimed of it.
pub assume_specification[ std::time::Instant::now ]() -> std::time::Instant;

/// A running measurement of one operation: when it began, what it is called, and how it went.
pub struct OpTimer {
    pub start: std::time::Instant,
    pub operation: &'static str,
    pub status: &'static str,
}

impl OpTimer {
    /// Begins to measure an operation, which counts as successful until an error is noted.
    pub fn start(operation: &'static str) -> (timer: Self)
        ensures
            timer.operation@ == operation@,
            timer.status@ == "success"@,
    {
        OpTimer { start: std::time::Instant::now(), operation, status: "success" }
    }

    /// Notes that the operation failed; the rest of the measurement stays as it is.
    pub fn error(&mut self)
        ensures
            final(self).status@ == "error"@,
            final(self).operation == old(self).operation,
            final(self).start == old(self).start,
    {
        self.status = "error";
    }
}

/// The log filter: warnings of all parts, and of the coordinator itself debugging records where
/// these are asked for, else informational ones.
pub fn filter_directives(debug: bool) -> (directives: &'static str)
    ensures
        directives@ == if debug {
            "warn,coordinator=debug"@
        } else {
            "warn,coordinator=info"@
        },
{
    if debug {
        "warn,coordinator=debug"
    } else {
        "warn,coordinator=info"
    }
}

} // verus!
