use vstd::prelude::*;

verus! {

/// The ways in which a computation of this crate can fail.
#[derive(Debug, Clone, Copy, PartialEq, Eq, Structural)]
pub enum NtError {
    /// A product left the representable range, or a count did not fit the
    /// machine integer it had to become.
    Overflow,
    /// The equation or congruence has no integer solution.
    NoSolns,
    /// An argument is outside the function's domain.
    BadArgument,
}

} // verus!
