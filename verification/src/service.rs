//! The protocol surface: list, get, delete, cancel and wait, and the calls
//! with which the producing work reports, all against one registry and one
//! wait coordinator.

use vstd::prelude::*;
use crate::coordinator::{
    lemma_all_released_once, lemma_waiters_off, ticket_numbers, CoordinatorView, WaitCoordinator,
};
use crate::lifecycle::{lemma_complete_then_get, lemma_step_effect, Step};
use crate::listing::{page_limit, spec_parse_filter};
use crate::longrunning::operation;
use crate::longrunning::{
    option_any_view, CancelOperationRequest, DeleteOperationRequest, GetOperationRequest,
    ListOperationsRequest, ListOperationsResponse, Operation, WaitOperationRequest,
};
use crate::registry::{operation_name, operation_views, snapshots, Registry, RegistryView};
use crate::rpc::{ErrorKind, Status};
use crate::types::{Any, Duration};
use crate::wait::{spec_wait_budget, wait_budget, WaitStep, WaitStepView};

verus! {

impl RegistryView {
    /// Whether an operation with this name is held and is not done.
    pub open spec fn pending(self, name: Seq<char>) -> bool {
        self.has(name) && !self.lookup(name).unwrap().done()
    }
}

/// Which of the optional methods a deployment offers. Getting an operation
/// is always offered.
#[derive(Clone, Copy, Debug, PartialEq, Eq, Structural)]
pub struct Deployment {
    pub list: bool,
    pub delete: bool,
    pub cancel: bool,
    pub wait: bool,
}

impl Deployment {
    /// The deployment that offers every method.
    pub fn full() -> (r: Self)
        ensures
            r == (Deployment { list: true, delete: true, cancel: true, wait: true }),
    {
        Deployment { list: true, delete: true, cancel: true, wait: true }
    }
}

/// The service that tracks long-running operations.
pub struct OperationsService {
    registry: Registry,
    coordinator: WaitCoordinator,
    maximum_wait: Duration,
    deployment: Deployment,
}

/// The mathematical value of the service.
pub struct ServiceView {
    pub registry: RegistryView,
    pub coordinator: CoordinatorView,
    /// The longest time for which the transport lets a caller be held.
    pub maximum_wait: Duration,
    /// The methods that are offered.
    pub deployment: Deployment,
}

impl ServiceView {
    /// The longest time for which a caller with this timeout and this
    /// deadline of its own may be held.
    pub open spec fn budget(self, timeout: Option<Duration>, deadline: Option<Duration>) -> Duration {
        spec_wait_budget(timeout, deadline, self.maximum_wait)
    }

    /// Why a page cannot be listed, if it cannot.
    pub open spec fn list_error(self, filter: Seq<char>, token: Seq<char>) -> Option<ErrorKind> {
        if !self.deployment.list {
            Some(ErrorKind::Unimplemented)
        } else if spec_parse_filter(filter).is_none() || self.registry.page_start(token).is_none() {
            Some(ErrorKind::InvalidArgument)
        } else {
            None
        }
    }

    /// Why an operation cannot be deleted, if it cannot.
    pub open spec fn delete_error(self, name: Seq<char>) -> Option<ErrorKind> {
        if !self.deployment.delete {
            Some(ErrorKind::Unimplemented)
        } else if !self.registry.has(name) {
            Some(ErrorKind::NotFound)
        } else {
            None
        }
    }

    /// Why the cancellation of an operation cannot be asked for, if it
    /// cannot.
    pub open spec fn cancel_error(self, name: Seq<char>) -> Option<ErrorKind> {
        if !self.deployment.cancel {
            Some(ErrorKind::Unimplemented)
        } else {
            self.registry.cancel_error(name)
        }
    }

    /// Why an operation cannot be waited on, if it cannot.
    pub open spec fn wait_error(self, name: Seq<char>) -> Option<ErrorKind> {
        if !self.deployment.wait {
            Some(ErrorKind::Unimplemented)
        } else if !self.registry.has(name) {
            Some(ErrorKind::NotFound)
        } else {
            None
        }
    }

    /// Whether a caller that asks to wait on an operation is held: the
    /// operation is pending, there is time to wait, and a ticket is left.
    pub open spec fn suspends(
        self,
        name: Seq<char>,
        timeout: Option<Duration>,
        deadline: Option<Duration>,
    ) -> bool {
        &&& self.registry.pending(name)
        &&& !self.budget(timeout, deadline).is_zero()
        &&& self.coordinator.next_ticket < u64::MAX
    }

    /// Registry and coordinator are well formed, and callers are held on
    /// pending operations only: nobody waits on an operation that is done
    /// or gone.
    pub open spec fn wf(self) -> bool {
        &&& self.registry.wf()
        &&& self.coordinator.wf()
        &&& forall|i: int|
            0 <= i < self.coordinator.waiters.len() ==> self.registry.pending(
                (#[trigger] self.coordinator.waiters[i]).name,
            )
    }
}

impl View for OperationsService {
    type V = ServiceView;

    closed spec fn view(&self) -> ServiceView {
        ServiceView {
            registry: self.registry@,
            coordinator: self.coordinator@,
            maximum_wait: self.maximum_wait,
            deployment: self.deployment,
        }
    }
}

/// A change of the registry that touches one name at most leaves every
/// caller that waits on another name on a pending operation.
proof fn lemma_others_stay_pending(
    before: ServiceView,
    registry: RegistryView,
    coordinator: CoordinatorView,
    name: Seq<char>,
)
    requires
        before.wf(),
        registry.wf(),
        coordinator.wf(),
        forall|other: Seq<char>| other != name ==> registry.lookup(other) == before.registry.lookup(other),
        forall|i: int|
            0 <= i < coordinator.waiters.len() ==> before.coordinator.waiters.contains(
                #[trigger] coordinator.waiters[i],
            ) && (coordinator.waiters[i].name != name || registry.pending(name)),
    ensures
        (ServiceView { registry, coordinator, ..before }).wf(),
{
    assert forall|i: int| 0 <= i < coordinator.waiters.len() implies registry.pending(
        (#[trigger] coordinator.waiters[i]).name,
    ) by {
        let w = coordinator.waiters[i];
        let j = choose|j: int|
            0 <= j < before.coordinator.waiters.len() && before.coordinator.waiters[j] == w;
        assert(before.registry.pending(before.coordinator.waiters[j].name));
        if w.name != name {
            assert(registry.lookup(w.name) == before.registry.lookup(w.name));
        }
    }
}

/// An accepted completion shows its outcome to everybody and holds nobody
/// back: the operation is done with that outcome, every caller that was
/// held on it is released, each once, and nobody is held on it afterwards.
/// Each released caller thus reads the same finished record.
pub proof fn lemma_completion_releases_all(v: ServiceView, name: Seq<char>, outcome: operation::ResultView)
    requires
        v.wf(),
        v.registry.complete_error(name, outcome).is_none(),
    ensures
        v.registry.completed(name, outcome).lookup(name).is_some(),
        v.registry.completed(name, outcome).lookup(name).unwrap().snapshot().done,
        v.registry.completed(name, outcome).lookup(name).unwrap().snapshot().result == Some(
            outcome,
        ),
        forall|i: int|
            0 <= i < v.coordinator.waiters.len() && (#[trigger] v.coordinator.waiters[i]).name
                == name ==> v.coordinator.waiting_on(name).contains(
                v.coordinator.waiters[i].ticket,
            ),
        v.coordinator.waiting_on(name).no_duplicates(),
        v.coordinator.released(name).waiting_on(name) == Seq::<nat>::empty(),
{
    lemma_complete_then_get(v.registry, name, outcome);
    lemma_all_released_once(v.coordinator, name);
}

impl OperationsService {
    /// Whether the service is in a state that its own methods can have left
    /// it in.
    pub open spec fn wf(&self) -> bool {
        self@.wf()
    }

    /// A service that tracks nothing yet. The maximum is the longest time
    /// for which the transport lets a caller be held; the deployment says
    /// which methods are offered.
    pub fn new(maximum_wait: Duration, deployment: Deployment) -> (r: Self)
        ensures
            r.wf(),
            r@ == (ServiceView {
                registry: RegistryView::empty(),
                coordinator: CoordinatorView::empty(),
                maximum_wait,
                deployment,
            }),
    {
        OperationsService {
            registry: Registry::new(),
            coordinator: WaitCoordinator::new(),
            maximum_wait,
            deployment,
        }
    }

    /// Whether a further operation can be given a name.
    pub fn can_create(&self) -> (r: bool)
        ensures
            r == (self@.registry.next_id < u64::MAX),
    {
        self.registry.can_create()
    }

    /// Accepts a new unit of work and hands out the name of its operation.
    pub fn create(&mut self, metadata: Option<Any>) -> (name: String)
        requires
            old(self).wf(),
            old(self)@.registry.next_id < u64::MAX,
        ensures
            final(self).wf(),
            name@ == operation_name(old(self)@.registry.next_id),
            !old(self)@.registry.has(name@),
            final(self)@ == (ServiceView {
                registry: old(self)@.registry.created(option_any_view(metadata)),
                ..old(self)@
            }),
    {
        let name = self.registry.create(metadata);
        proof {
            let step = Step::Create { initial: option_any_view(metadata) };
            lemma_step_effect(old(self)@.registry, step);
            assert forall|i: int| 0 <= i < self@.coordinator.waiters.len() implies self@.registry.pending(
                (#[trigger] self@.coordinator.waiters[i]).name,
            ) by {
                let w = self@.coordinator.waiters[i];
                assert(old(self)@.registry.pending(old(self)@.coordinator.waiters[i].name));
                assert(w.name != name@);
                assert(self@.registry.lookup(w.name) == old(self)@.registry.lookup(w.name));
            }
        }
        name
    }

    /// Stores what the producer reports of its progress.
    pub fn update_metadata(&mut self, name: &str, metadata: Any) -> (r: Result<(), Status>)
        requires
            old(self).wf(),
        ensures
            final(self).wf(),
            match r {
                Ok(()) => old(self)@.registry.update_error(name@).is_none() && final(self)@ == (
                ServiceView {
                    registry: old(self)@.registry.with_metadata(name@, metadata@),
                    ..old(self)@
                }),
                Err(s) => old(self)@.registry.update_error(name@).is_some() && s@ == old(
                    self,
                )@.registry.update_error(name@).unwrap().spec_status() && final(self)@ == old(
                    self,
                )@,
            },
    {
        match self.registry.update_metadata(name, metadata) {
            Ok(()) => {
                proof {
                    let step = Step::UpdateMetadata { name: name@, metadata: metadata@ };
                    lemma_step_effect(old(self)@.registry, step);
                    assert forall|i: int|
                        0 <= i < self@.coordinator.waiters.len() implies self@.registry.pending(
                        (#[trigger] self@.coordinator.waiters[i]).name,
                    ) by {
                        let w = self@.coordinator.waiters[i];
                        assert(old(self)@.registry.pending(old(self)@.coordinator.waiters[i].name));
                        if w.name != name@ {
                            assert(self@.registry.lookup(w.name) == old(self)@.registry.lookup(
                                w.name,
                            ));
                        }
                    }
                }
                Ok(())
            },
            Err(e) => Err(e.to_status()),
        }
    }

    /// Finishes an operation with its outcome and releases every caller
    /// that is held on it: the answer lists their tickets.
    pub fn complete(&mut self, name: &str, outcome: operation::Result) -> (r: Result<
        Vec<u64>,
        Status,
    >)
        requires
            old(self).wf(),
        ensures
            final(self).wf(),
            match r {
                Ok(tickets) => {
                    &&& old(self)@.registry.complete_error(name@, outcome@).is_none()
                    &&& final(self)@ == (ServiceView {
                        registry: old(self)@.registry.completed(name@, outcome@),
                        coordinator: old(self)@.coordinator.released(name@),
                        ..old(self)@
                    })
                    &&& ticket_numbers(tickets@) == old(self)@.coordinator.waiting_on(name@)
                },
                Err(s) => {
                    &&& old(self)@.registry.complete_error(name@, outcome@).is_some()
                    &&& s@ == old(self)@.registry.complete_error(
                        name@,
                        outcome@,
                    ).unwrap().spec_status()
                    &&& final(self)@ == old(self)@
                },
            },
    {
        match self.registry.complete(name, outcome) {
            Ok(()) => {
                let tickets = self.coordinator.release(name);
                proof {
                    let step = Step::Complete { name: name@, outcome: outcome@ };
                    lemma_step_effect(old(self)@.registry, step);
                    lemma_waiters_off(old(self)@.coordinator.waiters, name@);
                    let ws = self@.coordinator.waiters;
                    assert forall|i: int| 0 <= i < ws.len() implies old(
                        self,
                    )@.coordinator.waiters.contains(#[trigger] ws[i]) && ws[i].name != name@ by {
                        assert(ws.contains(ws[i]));
                    }
                    lemma_others_stay_pending(
                        old(self)@,
                        self@.registry,
                        self@.coordinator,
                        name@,
                    );
                }
                Ok(tickets)
            },
            Err(e) => Err(e.to_status()),
        }
    }

    /// One page of the operations that match the filter of the request.
    pub fn list_operations(&self, request: &ListOperationsRequest) -> (r: Result<
        ListOperationsResponse,
        Status,
    >)
        requires
            self.wf(),
        ensures
            match r {
                Ok(page) => {
                    &&& self@.list_error(request.filter@, request.page_token@).is_none()
                    &&& operation_views(page.operations@) == snapshots(
                        self@.registry.page(
                            spec_parse_filter(request.filter@).unwrap(),
                            self@.registry.page_start(request.page_token@).unwrap(),
                            page_limit(request.page_size),
                        ),
                    )
                    &&& page.next_page_token@ == self@.registry.next_page_token(
                        spec_parse_filter(request.filter@).unwrap(),
                        self@.registry.page_start(request.page_token@).unwrap(),
                        page_limit(request.page_size),
                    )
                },
                Err(s) => {
                    &&& self@.list_error(request.filter@, request.page_token@).is_some()
                    &&& s@ == self@.list_error(
                        request.filter@,
                        request.page_token@,
                    ).unwrap().spec_status()
                },
            },
    {
        if !self.deployment.list {
            return Err(ErrorKind::Unimplemented.to_status());
        }
        match self.registry.list(
            request.filter.as_str(),
            request.page_size,
            request.page_token.as_str(),
        ) {
            Ok((operations, next_page_token)) => Ok(
                ListOperationsResponse { operations, next_page_token },
            ),
            Err(e) => Err(e.to_status()),
        }
    }

    /// The latest state of an operation.
    pub fn get_operation(&self, request: &GetOperationRequest) -> (r: Result<Operation, Status>)
        requires
            self.wf(),
        ensures
            match r {
                Ok(op) => self@.registry.lookup(request.name@).is_some() && op@
                    == self@.registry.lookup(request.name@).unwrap().snapshot() && op@.wf(),
                Err(s) => self@.registry.lookup(request.name@).is_none() && s@
                    == ErrorKind::NotFound.spec_status(),
            },
    {
        match self.registry.get(request.name.as_str()) {
            Ok(op) => Ok(op),
            Err(e) => Err(e.to_status()),
        }
    }

    /// Discards the record of an operation, done or not, without touching
    /// the work, and releases every caller that is held on it: the answer
    /// lists their tickets.
    pub fn delete_operation(&mut self, request: &DeleteOperationRequest) -> (r: Result<
        Vec<u64>,
        Status,
    >)
        requires
            old(self).wf(),
        ensures
            final(self).wf(),
            match r {
                Ok(tickets) => {
                    &&& old(self)@.delete_error(request.name@).is_none()
                    &&& final(self)@ == (ServiceView {
                        registry: old(self)@.registry.deleted(request.name@),
                        coordinator: old(self)@.coordinator.released(request.name@),
                        ..old(self)@
                    })
                    &&& ticket_numbers(tickets@) == old(self)@.coordinator.waiting_on(
                        request.name@,
                    )
                },
                Err(s) => {
                    &&& old(self)@.delete_error(request.name@).is_some()
                    &&& s@ == old(self)@.delete_error(request.name@).unwrap().spec_status()
                    &&& final(self)@ == old(self)@
                },
            },
    {
        if !self.deployment.delete {
            return Err(ErrorKind::Unimplemented.to_status());
        }
        let name = request.name.as_str();
        match self.registry.delete(name) {
            Ok(()) => {
                let tickets = self.coordinator.release(name);
                proof {
                    let step = Step::Delete { name: name@ };
                    lemma_step_effect(old(self)@.registry, step);
                    lemma_waiters_off(old(self)@.coordinator.waiters, name@);
                    let ws = self@.coordinator.waiters;
                    assert forall|i: int| 0 <= i < ws.len() implies old(
                        self,
                    )@.coordinator.waiters.contains(#[trigger] ws[i]) && ws[i].name != name@ by {
                        assert(ws.contains(ws[i]));
                    }
                    lemma_others_stay_pending(
                        old(self)@,
                        self@.registry,
                        self@.coordinator,
                        name@,
                    );
                }
                Ok(tickets)
            },
            Err(e) => Err(e.to_status()),
        }
    }

    /// Records that the cancellation of the work was asked for. The answer
    /// says whether the request is the first one for the operation, which
    /// the caller has to pass on to the work; a repeated request is
    /// accepted and changes nothing.
    pub fn cancel_operation(&mut self, request: &CancelOperationRequest) -> (r: Result<
        bool,
        Status,
    >)
        requires
            old(self).wf(),
        ensures
            final(self).wf(),
            match r {
                Ok(first) => {
                    &&& old(self)@.cancel_error(request.name@).is_none()
                    &&& final(self)@ == (ServiceView {
                        registry: old(self)@.registry.cancelled(request.name@),
                        ..old(self)@
                    })
                    &&& first == !old(self)@.registry.lookup(
                        request.name@,
                    ).unwrap().cancel_requested
                },
                Err(s) => {
                    &&& old(self)@.cancel_error(request.name@).is_some()
                    &&& s@ == old(self)@.cancel_error(request.name@).unwrap().spec_status()
                    &&& final(self)@ == old(self)@
                },
            },
    {
        if !self.deployment.cancel {
            return Err(ErrorKind::Unimplemented.to_status());
        }
        let name = request.name.as_str();
        match self.registry.cancel(name) {
            Ok(first) => {
                proof {
                    let step = Step::Cancel { name: name@ };
                    lemma_step_effect(old(self)@.registry, step);
                    assert forall|i: int|
                        0 <= i < self@.coordinator.waiters.len() implies self@.registry.pending(
                        (#[trigger] self@.coordinator.waiters[i]).name,
                    ) by {
                        let w = self@.coordinator.waiters[i];
                        assert(old(self)@.registry.pending(old(self)@.coordinator.waiters[i].name));
                        if w.name != name@ {
                            assert(self@.registry.lookup(w.name) == old(self)@.registry.lookup(
                                w.name,
                            ));
                        }
                    }
                }
                Ok(first)
            },
            Err(e) => Err(e.to_status()),
        }
    }

    /// Answers a caller that asks to be held until an operation is done.
    /// An operation that is done is answered at once with its state. A
    /// pending one is answered at once too where no time is left to wait
    /// or no ticket is left; else the caller is registered and told to
    /// suspend, for the shorter of its timeout, its own deadline and the
    /// transport's maximum. A timeout is never an error.
    pub fn wait_operation(&mut self, request: &WaitOperationRequest, deadline: Option<Duration>) -> (r:
        Result<WaitStep, Status>)
        requires
            old(self).wf(),
        ensures
            final(self).wf(),
            final(self)@.registry == old(self)@.registry,
            final(self)@.maximum_wait == old(self)@.maximum_wait,
            final(self)@.deployment == old(self)@.deployment,
            match r {
                Ok(step) => {
                    &&& old(self)@.wait_error(request.name@).is_none()
                    &&& match step@ {
                        WaitStepView::Ready(op) => {
                            &&& !old(self)@.suspends(request.name@, request.timeout, deadline)
                            &&& op == old(self)@.registry.lookup(request.name@).unwrap().snapshot()
                            &&& op.wf()
                            &&& final(self)@ == old(self)@
                        },
                        WaitStepView::Suspend { ticket, budget } => {
                            &&& old(self)@.suspends(request.name@, request.timeout, deadline)
                            &&& ticket == old(self)@.coordinator.next_ticket
                            &&& budget == old(self)@.budget(request.timeout, deadline)
                            &&& budget.is_plain()
                            &&& final(self)@.coordinator == old(self)@.coordinator.registered(
                                request.name@,
                            )
                        },
                    }
                },
                Err(s) => {
                    &&& old(self)@.wait_error(request.name@).is_some()
                    &&& s@ == old(self)@.wait_error(request.name@).unwrap().spec_status()
                    &&& final(self)@ == old(self)@
                },
            },
    {
        if !self.deployment.wait {
            return Err(ErrorKind::Unimplemented.to_status());
        }
        let name = request.name.as_str();
        let op = match self.registry.get(name) {
            Ok(op) => op,
            Err(e) => {
                return Err(e.to_status());
            },
        };
        if op.done {
            return Ok(WaitStep::Ready(op));
        }
        let budget = wait_budget(request.timeout, deadline, self.maximum_wait);
        if (budget.seconds == 0 && budget.nanos == 0) || !self.coordinator.has_ticket_left() {
            return Ok(WaitStep::Ready(op));
        }
        let ticket = self.coordinator.register(name);
        proof {
            let ws = self@.coordinator.waiters;
            let before = old(self)@.coordinator.waiters;
            assert forall|i: int| 0 <= i < ws.len() implies self@.registry.pending(
                (#[trigger] ws[i]).name,
            ) by {
                if i < before.len() {
                    assert(ws[i] == before[i]);
                    assert(old(self)@.registry.pending(before[i].name));
                }
            }
        }
        Ok(WaitStep::Suspend { ticket, budget })
    }

    /// Answers a caller that was held and has woken, whether it was
    /// released or its time ran out: the caller is no longer held, and it
    /// gets the state of the operation as it now is, done or not. Only an
    /// operation that is gone is an error.
    pub fn finish_wait(&mut self, ticket: u64, name: &str) -> (r: Result<Operation, Status>)
        requires
            old(self).wf(),
        ensures
            final(self).wf(),
            final(self)@ == (ServiceView {
                coordinator: old(self)@.coordinator.withdrawn(ticket as nat),
                ..old(self)@
            }),
            !final(self)@.coordinator.holds(ticket as nat),
            match r {
                Ok(op) => old(self)@.registry.lookup(name@).is_some() && op@ == old(
                    self,
                )@.registry.lookup(name@).unwrap().snapshot() && op@.wf(),
                Err(s) => old(self)@.registry.lookup(name@).is_none() && s@
                    == ErrorKind::NotFound.spec_status(),
            },
    {
        let held = self.coordinator.withdraw(ticket);
        proof {
            let ws = self@.coordinator.waiters;
            let before = old(self)@.coordinator.waiters;
            if held {
                let k = old(self)@.coordinator.index_of(ticket as nat);
                assert forall|i: int| 0 <= i < ws.len() implies self@.registry.pending(
                    (#[trigger] ws[i]).name,
                ) by {
                    let s = if i < k {
                        i
                    } else {
                        i + 1
                    };
                    assert(ws[i] == before[s]);
                    assert(old(self)@.registry.pending(before[s].name));
                }
            }
        }
        match self.registry.get(name) {
            Ok(op) => Ok(op),
            Err(e) => Err(e.to_status()),
        }
    }

    /// Whether the cancellation of an operation has been asked for.
    pub fn cancel_requested(&self, name: &str) -> (r: Result<bool, Status>)
        requires
            self.wf(),
        ensures
            match r {
                Ok(asked) => self@.registry.lookup(name@).is_some() && asked
                    == self@.registry.lookup(name@).unwrap().cancel_requested,
                Err(s) => self@.registry.lookup(name@).is_none() && s@
                    == ErrorKind::NotFound.spec_status(),
            },
    {
        match self.registry.cancel_requested(name) {
            Ok(asked) => Ok(asked),
            Err(e) => Err(e.to_status()),
        }
    }

    /// The number of callers held on an operation.
    pub fn waiting(&self, name: &str) -> (r: usize)
        ensures
            r == self@.coordinator.waiting_on(name@).len(),
    {
        self.coordinator.waiting(name)
    }
}

} // verus!
