//! The error descriptor shared by every failure report.

use vstd::prelude::*;
use vstd::std_specs::cmp::PartialEqSpecImpl;
use vstd::string::*;
use crate::text::str_eq;
use crate::types::{any_views, anys_eq, clone_anys, Any, AnyView};

verus! {

/// The code of a successful outcome.
pub const OK: i32 = 0;

/// The code of work that stopped because its cancellation was requested.
pub const CANCELLED: i32 = 1;

/// The code that stands for every number outside the canonical codes.
pub const UNKNOWN: i32 = 2;

/// The code of a request that the caller got wrong.
pub const INVALID_ARGUMENT: i32 = 3;

/// The code of a request that names nothing that exists.
pub const NOT_FOUND: i32 = 5;

/// The code of a request that the state of its target does not allow.
pub const FAILED_PRECONDITION: i32 = 9;

/// The code of a method that a deployment does not offer.
pub const UNIMPLEMENTED: i32 = 12;

/// The code of a fault inside the service.
pub const INTERNAL: i32 = 13;

/// The greatest canonical code.
pub const LAST_CODE: i32 = 16;

/// The ways in which a tracking call can fail.
#[derive(Clone, Copy, Debug, PartialEq, Eq, Structural)]
pub enum ErrorKind {
    /// The name is unknown, or its record was deleted.
    NotFound,
    /// The target is in a state that forbids the call.
    FailedPrecondition,
    /// A filter or a page token is malformed.
    InvalidArgument,
    /// The method is not offered.
    Unimplemented,
    /// A failure of which nothing more is known.
    Unknown,
    /// A producer handed over something it must not.
    Internal,
}

impl ErrorKind {
    /// The canonical code that reports this kind of failure.
    pub open spec fn spec_code(self) -> i32 {
        match self {
            ErrorKind::NotFound => NOT_FOUND,
            ErrorKind::FailedPrecondition => FAILED_PRECONDITION,
            ErrorKind::InvalidArgument => INVALID_ARGUMENT,
            ErrorKind::Unimplemented => UNIMPLEMENTED,
            ErrorKind::Unknown => UNKNOWN,
            ErrorKind::Internal => INTERNAL,
        }
    }

    /// The message that reports this kind of failure.
    pub open spec fn spec_message(self) -> Seq<char> {
        match self {
            ErrorKind::NotFound => "operation not found"@,
            ErrorKind::FailedPrecondition => "operation state does not allow the request"@,
            ErrorKind::InvalidArgument => "malformed filter or page token"@,
            ErrorKind::Unimplemented => "method not implemented"@,
            ErrorKind::Unknown => "unknown failure"@,
            ErrorKind::Internal => "producer handed over an invalid value"@,
        }
    }

    /// The status that reports this kind of failure.
    pub open spec fn spec_status(self) -> StatusView {
        StatusView { code: self.spec_code(), message: self.spec_message(), details: Seq::empty() }
    }

    /// The status that reports this kind of failure: its code, its message
    /// and no details.
    pub fn to_status(self) -> (r: Status)
        ensures
            r@ == self.spec_status(),
            r@.is_failure(),
    {
        let message = match self {
            ErrorKind::NotFound => String::from_str("operation not found"),
            ErrorKind::FailedPrecondition => String::from_str(
                "operation state does not allow the request",
            ),
            ErrorKind::InvalidArgument => String::from_str("malformed filter or page token"),
            ErrorKind::Unimplemented => String::from_str("method not implemented"),
            ErrorKind::Unknown => String::from_str("unknown failure"),
            ErrorKind::Internal => String::from_str("producer handed over an invalid value"),
        };
        let r = Status { code: self.code(), message, details: Vec::new() };
        assert(any_views(r.details@) =~= Seq::empty());
        r
    }

    /// The canonical code that reports this kind of failure.
    pub fn code(self) -> (r: i32)
        ensures
            r == self.spec_code(),
            r != OK,
            spec_canonical_code(r) == r,
    {
        match self {
            ErrorKind::NotFound => NOT_FOUND,
            ErrorKind::FailedPrecondition => FAILED_PRECONDITION,
            ErrorKind::InvalidArgument => INVALID_ARGUMENT,
            ErrorKind::Unimplemented => UNIMPLEMENTED,
            ErrorKind::Unknown => UNKNOWN,
            ErrorKind::Internal => INTERNAL,
        }
    }
}

/// An error descriptor: a code, a message for developers and a list of typed
/// payloads with machine-readable context.
#[derive(Debug)]
pub struct Status {
    pub code: i32,
    pub message: String,
    pub details: Vec<Any>,
}

/// The mathematical value of a [`Status`].
pub struct StatusView {
    pub code: i32,
    pub message: Seq<char>,
    pub details: Seq<AnyView>,
}

impl View for Status {
    type V = StatusView;

    open spec fn view(&self) -> StatusView {
        StatusView {
            code: self.code,
            message: self.message@,
            details: any_views(self.details@),
        }
    }
}

/// The canonical code that a number stands for: the number itself where it
/// is one of the canonical codes, and [`UNKNOWN`] everywhere else.
pub open spec fn spec_canonical_code(code: i32) -> i32 {
    if OK <= code <= LAST_CODE {
        code
    } else {
        UNKNOWN
    }
}

/// Calls `tonic::Code::from_i32` and turns the code it gives back into its
/// number. The contract claims what the function's table shows: each number
/// from 0 to 16 names the code with that number, and every other number
/// names the code `Unknown`, whose number is 2.
#[verifier::external_body]
fn canonical_code(code: i32) -> (r: i32)
    ensures
        r == spec_canonical_code(code),
{
    i32::from(tonic::Code::from_i32(code))
}

impl StatusView {
    /// Whether this value may stand in the error arm of a finished
    /// operation: its code is canonical and is not the code of success.
    pub open spec fn is_failure(self) -> bool {
        self.code != OK && spec_canonical_code(self.code) == self.code
    }
}

impl Status {
    /// A status from its three parts.
    pub fn new(code: i32, message: String, details: Vec<Any>) -> (r: Self)
        ensures
            r.code == code,
            r.message == message,
            r.details == details,
    {
        Status { code, message, details }
    }

    /// The status of a successful outcome: code 0, no message, no details.
    pub fn ok() -> (r: Self)
        ensures
            r@ == (StatusView { code: OK, message: Seq::empty(), details: Seq::empty() }),
    {
        let r = Status { code: OK, message: String::new(), details: Vec::new() };
        assert(any_views(r.details@) =~= Seq::empty());
        r
    }

    /// The canonical code that this status's number stands for.
    pub fn canonical_code(&self) -> (r: i32)
        ensures
            r == spec_canonical_code(self.code),
    {
        canonical_code(self.code)
    }

    /// Whether this status reports a failure that a finished operation may
    /// carry.
    pub fn is_failure(&self) -> (r: bool)
        ensures
            r == self@.is_failure(),
    {
        self.code != OK && canonical_code(self.code) == self.code
    }
}

impl Clone for Status {
    fn clone(&self) -> (r: Self)
        ensures
            r@ == self@,
    {
        Status {
            code: self.code,
            message: self.message.clone(),
            details: clone_anys(&self.details),
        }
    }
}

impl PartialEq for Status {
    fn eq(&self, other: &Self) -> (r: bool) {
        self.code == other.code && str_eq(self.message.as_str(), other.message.as_str())
            && anys_eq(&self.details, &other.details)
    }
}

impl PartialEqSpecImpl for Status {
    open spec fn obeys_eq_spec() -> bool {
        true
    }

    open spec fn eq_spec(&self, other: &Self) -> bool {
        self@ == other@
    }
}

} // verus!
