//! The outcome of a finished operation.

use vstd::prelude::*;
use vstd::std_specs::cmp::PartialEqSpecImpl;
use crate::rpc::{Status, StatusView};
use crate::types::{Any, AnyView};

verus! {

/// The outcome of a finished operation: exactly one of an error and a
/// response.
#[derive(Debug)]
pub enum Result {
    /// The work failed or was cancelled.
    Error(Status),
    /// The work succeeded with this payload.
    Response(Any),
}

/// The mathematical value of a [`Result`].
pub enum ResultView {
    Error(StatusView),
    Response(AnyView),
}

impl ResultView {
    /// Whether this outcome may be stored: an error must report a failure.
    pub open spec fn wf(self) -> bool {
        match self {
            ResultView::Error(s) => s.is_failure(),
            ResultView::Response(_) => true,
        }
    }
}

impl View for Result {
    type V = ResultView;

    open spec fn view(&self) -> ResultView {
        match self {
            Result::Error(s) => ResultView::Error(s@),
            Result::Response(a) => ResultView::Response(a@),
        }
    }
}

impl Result {
    /// Whether this outcome may be stored: an error must report a failure.
    pub fn is_well_formed(&self) -> (r: bool)
        ensures
            r == self@.wf(),
    {
        match self {
            Result::Error(s) => s.is_failure(),
            Result::Response(_) => true,
        }
    }
}

impl Clone for Result {
    fn clone(&self) -> (r: Self)
        ensures
            r@ == self@,
    {
        match self {
            Result::Error(s) => Result::Error(s.clone()),
            Result::Response(a) => Result::Response(a.clone()),
        }
    }
}

impl PartialEq for Result {
    fn eq(&self, other: &Self) -> (r: bool) {
        match (self, other) {
            (Result::Error(a), Result::Error(b)) => a == b,
            (Result::Response(a), Result::Response(b)) => a == b,
            _ => false,
        }
    }
}

impl PartialEqSpecImpl for Result {
    open spec fn obeys_eq_spec() -> bool {
        true
    }

    open spec fn eq_spec(&self, other: &Self) -> bool {
        self@ == other@
    }
}

} // verus!
