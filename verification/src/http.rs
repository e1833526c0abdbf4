//! What a request is answered with when a guard or an extractor refuses it.

use vstd::prelude::*;

verus! {

/// `200 OK` up to the last success status.
pub open spec fn is_success(status: u16) -> bool {
    200 <= status <= 299
}

/// A refused request: the status it is answered with and the body text.
pub struct Rejection {
    pub status: u16,
    pub message: String,
}

impl Rejection {
    pub fn new(status: u16, message: &str) -> (r: Rejection)
        ensures
            r.status == status,
            r.message@ == message@,
    {
        Rejection { status, message: message.to_owned() }
    }
}

} // verus!
