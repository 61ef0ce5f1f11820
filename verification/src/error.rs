//! The library's error.

use vstd::prelude::*;

verus! {

/// Why an operation failed.
#[derive(Debug)]
pub struct XGBError {
    /// What went wrong, for people.
    pub desc: String,
}

/// What an operation gives.
pub type XGBResult<T> = Result<T, XGBError>;

impl XGBError {
    /// An error that says `desc`.
    pub fn new(desc: String) -> (r: XGBError)
        ensures
            r.desc == desc,
    {
        XGBError { desc }
    }
}

/// `r` failed, saying `message`.
pub open spec fn fails_with<T>(r: XGBResult<T>, message: Seq<char>) -> bool {
    r matches Err(e) && e.desc@ == message
}

/// A failure says why, and is no success.
pub proof fn law_failures_say_why<T>(r: XGBResult<T>, message: Seq<char>)
    ensures
        fails_with(r, message) <==> r is Err && r->Err_0.desc@ == message,
{
}

} // verus!
