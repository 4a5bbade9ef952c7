//! The rejection signal raised by the Verifier.

use vstd::prelude::*;

verus! {

/// A protocol rejection: the Verifier found a round message inconsistent
/// with its running target. A signal value carrying a reason, not a crash.
#[derive(Debug)]
pub struct RejectError {
    details: String,
}

impl View for RejectError {
    type V = Seq<char>;

    closed spec fn view(&self) -> Seq<char> {
        self.details@
    }
}

impl RejectError {
    /// Wraps the reason for the rejection.
    pub fn new(msg: &str) -> (r: RejectError)
        ensures
            r@ == msg@,
    {
        RejectError { details: msg.to_owned() }
    }

    /// The reason carried by the rejection.
    pub fn details(&self) -> (r: &str)
        ensures
            r@ == self@,
    {
        self.details.as_str()
    }
}

} // verus!
