//! The outcome of a refused request.
use vstd::prelude::*;

verus! {

/// Why a request was refused.
#[derive(Clone, Copy, Debug, PartialEq, Eq, Structural)]
pub enum Code {
    /// The request itself is malformed.
    InvalidArgument,
    /// What the request names does not exist.
    NotFound,
    /// The request would exceed a limit.
    ResourceExhausted,
    /// The service broke an assumption of its own.
    Internal,
    /// What the request needs is not there at present.
    Unavailable,
    /// Another status code, by its number. The service only hands it on from the driver.
    Other(i32),
}

/// A refusal: its code, and a message for the caller.
#[derive(Clone, Debug, PartialEq, Eq)]
pub struct Status {
    pub code: Code,
    pub message: String,
}

impl View for Status {
    type V = (Code, Seq<char>);

    open spec fn view(&self) -> (Code, Seq<char>) {
        (self.code, self.message@)
    }
}

/// A result with its refusal, if any, taken by its view.
pub open spec fn outcome<T>(result: Result<T, Status>) -> Result<T, (Code, Seq<char>)> {
    match result {
        Ok(value) => Ok(value),
        Err(status) => Err(status@),
    }
}

impl Status {
    /// A refusal of a malformed request.
    pub fn invalid_argument(message: String) -> (status: Status)
        ensures
            status@ == (Code::InvalidArgument, message@),
    {
        Status { code: Code::InvalidArgument, message }
    }

    /// A refusal of a request for something that does not exist.
    pub fn not_found(message: String) -> (status: Status)
        ensures
            status@ == (Code::NotFound, message@),
    {
        Status { code: Code::NotFound, message }
    }

    /// A refusal of a request that would exceed a limit.
    pub fn resource_exhausted(message: String) -> (status: Status)
        ensures
            status@ == (Code::ResourceExhausted, message@),
    {
        Status { code: Code::ResourceExhausted, message }
    }

    /// A failure of the service itself.
    pub fn internal(message: String) -> (status: Status)
        ensures
            status@ == (Code::Internal, message@),
    {
        Status { code: Code::Internal, message }
    }

    /// A refusal of a request whose subject is not there at present.
    pub fn unavailable(message: String) -> (status: Status)
        ensures
            status@ == (Code::Unavailable, message@),
    {
        Status { code: Code::Unavailable, message }
    }
}

/// A result keeps its value, its code and its message when it is taken by its view.
pub proof fn law_outcomes_keep_everything<T>(result: Result<T, Status>)
    ensures
        outcome(result) is Ok <==> result is Ok,
        result is Ok ==> outcome(result)->Ok_0 == result->Ok_0,
        result is Err ==> outcome(result)->Err_0 == (
            result->Err_0.code,
            result->Err_0.message@,
        ),
{
}

} // verus!
