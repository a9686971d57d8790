//! Operation records and the request and response messages of the protocol.

use vstd::prelude::*;
use vstd::std_specs::cmp::PartialEqSpecImpl;
use crate::text::str_eq;
use crate::types::{Any, AnyView, Duration};

pub mod operation;

verus! {

/// What a client sees of one unit of asynchronous work.
#[derive(Debug)]
pub struct Operation {
    /// The name under which the operation is addressed.
    pub name: String,
    /// What the producer last reported of its progress.
    pub metadata: Option<Any>,
    /// Whether the work has finished.
    pub done: bool,
    /// The outcome, present exactly when the work has finished.
    pub result: Option<operation::Result>,
}

/// The mathematical value of an [`Operation`].
pub struct OperationView {
    pub name: Seq<char>,
    pub metadata: Option<AnyView>,
    pub done: bool,
    pub result: Option<operation::ResultView>,
}

impl OperationView {
    /// A record carries an outcome exactly when it is done, and an error
    /// outcome reports a failure.
    pub open spec fn wf(self) -> bool {
        &&& self.done <==> self.result.is_some()
        &&& self.result.is_some() ==> self.result.unwrap().wf()
    }
}

/// The value of an optional payload.
pub open spec fn option_any_view(a: Option<Any>) -> Option<AnyView> {
    match a {
        Some(x) => Some(x@),
        None => None,
    }
}

/// The value of an optional outcome.
pub open spec fn option_result_view(r: Option<operation::Result>) -> Option<operation::ResultView> {
    match r {
        Some(x) => Some(x@),
        None => None,
    }
}

impl View for Operation {
    type V = OperationView;

    open spec fn view(&self) -> OperationView {
        OperationView {
            name: self.name@,
            metadata: option_any_view(self.metadata),
            done: self.done,
            result: option_result_view(self.result),
        }
    }
}

/// Copies an optional payload.
pub fn clone_option_any(a: &Option<Any>) -> (r: Option<Any>)
    ensures
        option_any_view(r) == option_any_view(*a),
{
    match a {
        Some(x) => Some(x.clone()),
        None => None,
    }
}

/// Copies an optional outcome.
pub fn clone_option_result(a: &Option<operation::Result>) -> (r: Option<operation::Result>)
    ensures
        option_result_view(r) == option_result_view(*a),
{
    match a {
        Some(x) => Some(x.clone()),
        None => None,
    }
}

impl Operation {
    /// Whether the record is one that the protocol allows: it carries an
    /// outcome exactly when it is done, and an error outcome reports a failure.
    pub fn is_well_formed(&self) -> (r: bool)
        ensures
            r == self@.wf(),
    {
        match &self.result {
            Some(x) => self.done && x.is_well_formed(),
            None => !self.done,
        }
    }
}

impl Clone for Operation {
    fn clone(&self) -> (r: Self)
        ensures
            r@ == self@,
    {
        Operation {
            name: self.name.clone(),
            metadata: clone_option_any(&self.metadata),
            done: self.done,
            result: clone_option_result(&self.result),
        }
    }
}

impl PartialEq for Operation {
    fn eq(&self, other: &Self) -> (r: bool) {
        let same_metadata = match (&self.metadata, &other.metadata) {
            (Some(a), Some(b)) => a == b,
            (None, None) => true,
            _ => false,
        };
        let same_result = match (&self.result, &other.result) {
            (Some(a), Some(b)) => a == b,
            (None, None) => true,
            _ => false,
        };
        str_eq(self.name.as_str(), other.name.as_str()) && same_metadata && self.done
            == other.done && same_result
    }
}

impl PartialEqSpecImpl for Operation {
    open spec fn obeys_eq_spec() -> bool {
        true
    }

    open spec fn eq_spec(&self, other: &Self) -> bool {
        self@ == other@
    }
}

/// Asks for the latest state of one operation.
#[derive(Clone, Debug, PartialEq)]
pub struct GetOperationRequest {
    /// The name of the operation.
    pub name: String,
}

/// Asks for one page of the operations that match a filter.
#[derive(Clone, Debug, PartialEq)]
pub struct ListOperationsRequest {
    /// The name of the parent resource of the operations.
    pub name: String,
    /// The filter that a listed operation has to match.
    pub filter: String,
    /// The greatest number of operations to return.
    pub page_size: i32,
    /// Where to resume: the token that came with the page before, or nothing.
    pub page_token: String,
}

/// One page of operations.
#[derive(Clone, Debug, PartialEq)]
pub struct ListOperationsResponse {
    /// The operations of this page, oldest first.
    pub operations: Vec<Operation>,
    /// The token that asks for the next page; empty after the last page.
    pub next_page_token: String,
}

/// Asks that the work behind an operation be cancelled.
#[derive(Clone, Debug, PartialEq)]
pub struct CancelOperationRequest {
    /// The name of the operation.
    pub name: String,
}

/// Asks that the record of an operation be discarded.
#[derive(Clone, Debug, PartialEq)]
pub struct DeleteOperationRequest {
    /// The name of the operation.
    pub name: String,
}

/// Asks to be held until an operation is done or a time has passed.
#[derive(Clone, Debug, PartialEq)]
pub struct WaitOperationRequest {
    /// The name of the operation.
    pub name: String,
    /// The longest time to wait; nothing leaves the bound to the transport.
    pub timeout: Option<Duration>,
}

/// Names the message types that a long-running method reports with.
#[derive(Clone, Debug, PartialEq)]
pub struct OperationInfo {
    /// The message type of the response of a finished operation.
    pub response_type: String,
    /// The message type of the metadata of an operation.
    pub metadata_type: String,
}

} // verus!
