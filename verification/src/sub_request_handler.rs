//! The outcome a site handler reports for one request.
use vstd::prelude::*;

verus! {

#[derive(Clone, Copy, Debug, PartialEq, Eq, Structural)]
pub enum HandleRequestResult {
    RequestHandledOK,
    RequestHandledDisconnect,
    RequestHandledError,
    RequestNotHandled,
}

impl HandleRequestResult {
    /// Whether some handler took the request, successfully or not.
    pub fn was_handled(&self) -> (r: bool)
        ensures
            r == (*self != HandleRequestResult::RequestNotHandled),
    {
        !(*self == HandleRequestResult::RequestNotHandled)
    }

    /// Whether handling ended in an error or a dropped connection.
    pub fn was_error(&self) -> (r: bool)
        ensures
            r == (*self == HandleRequestResult::RequestHandledDisconnect || *self
                == HandleRequestResult::RequestHandledError),
    {
        *self == HandleRequestResult::RequestHandledDisconnect || *self
            == HandleRequestResult::RequestHandledError
    }
}

} // verus!
