//! How long a caller may be held, and what a caller that asks to wait is
//! told to do.

use vstd::prelude::*;
use crate::longrunning::{Operation, OperationView};
use crate::types::Duration;

verus! {

/// The shorter of two durations; the first where they are equally long.
pub open spec fn spec_shorter(a: Duration, b: Duration) -> Duration {
    if a.at_most(b) {
        a
    } else {
        b
    }
}

/// The longest time for which a caller may be held, from durations in
/// canonical form: the shortest of the transport's maximum, the caller's
/// own deadline where it has one, and the timeout it asked for where that
/// is present and not zero. A negative duration has run out and counts as
/// the empty span of time.
pub open spec fn spec_clamp_wait(
    timeout: Option<Duration>,
    deadline: Option<Duration>,
    maximum: Duration,
) -> Duration {
    let bound = match deadline {
        Some(d) => spec_shorter(d.spec_floored(), maximum.spec_floored()),
        None => maximum.spec_floored(),
    };
    match timeout {
        Some(t) => if t.is_zero() {
            bound
        } else {
            spec_shorter(t.spec_floored(), bound)
        },
        None => bound,
    }
}

/// Whether the nanoseconds of each of the durations are less than a whole
/// second in either direction.
pub open spec fn all_in_range(
    timeout: Option<Duration>,
    deadline: Option<Duration>,
    maximum: Duration,
) -> bool {
    &&& timeout.is_some() ==> timeout.unwrap().nanos_in_range()
    &&& deadline.is_some() ==> deadline.unwrap().nanos_in_range()
    &&& maximum.nanos_in_range()
}

/// The canonical form of an optional duration.
pub open spec fn spec_normalized_option(d: Option<Duration>) -> Option<Duration> {
    match d {
        Some(x) => Some(x.spec_normalized()),
        None => None,
    }
}

/// The longest time for which a caller may be held, from durations as they
/// arrive.
pub open spec fn spec_wait_budget(
    timeout: Option<Duration>,
    deadline: Option<Duration>,
    maximum: Duration,
) -> Duration {
    spec_clamp_wait(
        spec_normalized_option(timeout),
        spec_normalized_option(deadline),
        maximum.spec_normalized(),
    )
}

/// The longest time for which a caller may be held, from durations in
/// canonical form.
pub fn clamp_wait(timeout: Option<Duration>, deadline: Option<Duration>, maximum: Duration) -> (r:
    Duration)
    ensures
        r == spec_clamp_wait(timeout, deadline, maximum),
        all_in_range(timeout, deadline, maximum) ==> r.is_plain(),
{
    let bound = match deadline {
        Some(d) => d.floored().shorter(maximum.floored()),
        None => maximum.floored(),
    };
    match timeout {
        Some(t) => if t.seconds == 0 && t.nanos == 0 {
            bound
        } else {
            t.floored().shorter(bound)
        },
        None => bound,
    }
}

/// The canonical form of an optional duration.
pub fn normalized_option(d: Option<Duration>) -> (r: Option<Duration>)
    ensures
        r == spec_normalized_option(d),
        r.is_some() ==> r.unwrap().nanos_in_range(),
        d.is_some() && d.unwrap().is_plain() ==> r == d,
{
    match d {
        Some(x) => Some(x.normalized()),
        None => None,
    }
}

/// The longest time for which a caller may be held: the timeout it asked
/// for, cut down to its own deadline and to the transport's maximum. Each
/// duration is first brought into canonical form.
pub fn wait_budget(timeout: Option<Duration>, deadline: Option<Duration>, maximum: Duration) -> (r:
    Duration)
    ensures
        r == spec_wait_budget(timeout, deadline, maximum),
        r.is_plain(),
        (timeout.is_none() || timeout.unwrap().is_plain()) && (deadline.is_none()
            || deadline.unwrap().is_plain()) && maximum.is_plain() ==> r == spec_clamp_wait(
            timeout,
            deadline,
            maximum,
        ),
{
    clamp_wait(normalized_option(timeout), normalized_option(deadline), maximum.normalized())
}

/// The budget is never negative and never longer than any bound that
/// applies: the maximum, the deadline where there is one, and the timeout
/// where it is present and not zero.
pub proof fn lemma_clamp_wait_bounds(
    timeout: Option<Duration>,
    deadline: Option<Duration>,
    maximum: Duration,
)
    ensures
        !spec_clamp_wait(timeout, deadline, maximum).is_negative(),
        spec_clamp_wait(timeout, deadline, maximum).at_most(maximum.spec_floored()),
        deadline.is_some() ==> spec_clamp_wait(timeout, deadline, maximum).at_most(
            deadline.unwrap().spec_floored(),
        ),
        timeout.is_some() && !timeout.unwrap().is_zero() ==> spec_clamp_wait(
            timeout,
            deadline,
            maximum,
        ).at_most(timeout.unwrap().spec_floored()),
        timeout.is_none() || timeout.unwrap().is_zero() ==> spec_clamp_wait(
            timeout,
            deadline,
            maximum,
        ) == spec_clamp_wait(None, deadline, maximum),
{
}

/// What a caller that asks to wait has to do next.
#[derive(Debug)]
pub enum WaitStep {
    /// Answer at once with this state of the operation.
    Ready(Operation),
    /// Suspend under this ticket until the ticket is released or the
    /// budget has run out, whichever comes first, and then ask again.
    Suspend { ticket: u64, budget: Duration },
}

/// The mathematical value of a [`WaitStep`].
pub enum WaitStepView {
    Ready(OperationView),
    Suspend { ticket: u64, budget: Duration },
}

impl View for WaitStep {
    type V = WaitStepView;

    open spec fn view(&self) -> WaitStepView {
        match self {
            WaitStep::Ready(op) => WaitStepView::Ready(op@),
            WaitStep::Suspend { ticket, budget } => WaitStepView::Suspend {
                ticket: *ticket,
                budget: *budget,
            },
        }
    }
}

} // verus!
