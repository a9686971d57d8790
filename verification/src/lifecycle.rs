//! What holds of a record over its life, whatever calls the registry sees.

use vstd::prelude::*;
use crate::longrunning::operation::ResultView;
use crate::registry::{
    lemma_index_of, lemma_operation_name_injective, lemma_unique_names, operation_name,
    RecordView, RegistryView,
};
use crate::rpc::{ErrorKind, StatusView, CANCELLED};
use crate::types::AnyView;

verus! {

/// One call that changes a registry.
pub enum Step {
    Create { initial: Option<AnyView> },
    UpdateMetadata { name: Seq<char>, metadata: AnyView },
    Complete { name: Seq<char>, outcome: ResultView },
    Cancel { name: Seq<char> },
    Delete { name: Seq<char> },
}

impl Step {
    /// Whether the registry accepts the call.
    pub open spec fn accepted(self, v: RegistryView) -> bool {
        match self {
            Step::Create { initial } => v.next_id < u64::MAX,
            Step::UpdateMetadata { name, metadata } => v.update_error(name).is_none(),
            Step::Complete { name, outcome } => v.complete_error(name, outcome).is_none(),
            Step::Cancel { name } => v.cancel_error(name).is_none(),
            Step::Delete { name } => v.has(name),
        }
    }

    /// The registry after the call: changed where the call is accepted, as
    /// it was where the call is refused.
    pub open spec fn apply(self, v: RegistryView) -> RegistryView {
        if !self.accepted(v) {
            v
        } else {
            match self {
                Step::Create { initial } => v.created(initial),
                Step::UpdateMetadata { name, metadata } => v.with_metadata(name, metadata),
                Step::Complete { name, outcome } => v.completed(name, outcome),
                Step::Cancel { name } => v.cancelled(name),
                Step::Delete { name } => v.deleted(name),
            }
        }
    }

    /// Whether the call is an accepted completion of the operation with
    /// this name.
    pub open spec fn completes(self, v: RegistryView, target: Seq<char>) -> bool {
        match self {
            Step::Complete { name, outcome } => name == target && self.accepted(v),
            _ => false,
        }
    }

    /// Whether the call is an accepted deletion of the operation with this
    /// name.
    pub open spec fn deletes(self, v: RegistryView, target: Seq<char>) -> bool {
        match self {
            Step::Delete { name } => name == target && self.accepted(v),
            _ => false,
        }
    }
}

/// Exchanging a record for one with the same identifier and name keeps the
/// registry well formed and every name at its position.
pub proof fn lemma_replaced(v: RegistryView, name: Seq<char>, record: RecordView)
    requires
        v.wf(),
        v.has(name),
        record.wf(),
        record.id == v.records[v.index_of(name)].id,
    ensures
        v.replaced(name, record).wf(),
        v.replaced(name, record).lookup(name) == Some(record),
        forall|other: Seq<char>|
            other != name ==> v.replaced(name, record).lookup(other) == v.lookup(other),
{
    let w = v.replaced(name, record);
    let k = v.index_of(name);
    assert(w.records[k] == record);
    assert forall|i: int| 0 <= i < w.records.len() implies (#[trigger] w.records[i]).wf()
        && w.records[i].id < w.next_id by {
        if i != k {
            assert(w.records[i] == v.records[i]);
        }
    }
    assert forall|i: int, j: int| 0 <= i < j < w.records.len() implies (#[trigger] w.records[i]).id
        < (#[trigger] w.records[j]).id by {
        assert(w.records[i].id == v.records[i].id);
        assert(w.records[j].id == v.records[j].id);
    }
    assert(record.name == name) by {
        assert(v.records[k].wf());
    }
    lemma_index_of(w, name, k);
    assert forall|other: Seq<char>| other != name implies w.lookup(other) == v.lookup(other) by {
        lemma_lookup_elsewhere(v, w, other, k);
    }
}

/// Two registries that differ at one position at most, which holds the same
/// name in both, agree on every other name.
proof fn lemma_lookup_elsewhere(v: RegistryView, w: RegistryView, other: Seq<char>, k: int)
    requires
        v.wf(),
        w.wf(),
        v.records.len() == w.records.len(),
        0 <= k < v.records.len(),
        v.records[k].name == w.records[k].name,
        v.records[k].name != other,
        forall|i: int| 0 <= i < v.records.len() && i != k ==> v.records[i] == w.records[i],
    ensures
        w.lookup(other) == v.lookup(other),
{
    if v.has(other) {
        let i = v.index_of(other);
        assert(w.records[i] == v.records[i]);
        lemma_index_of(w, other, i);
    } else if w.has(other) {
        let i = w.index_of(other);
        assert(w.records[i] == v.records[i]);
        lemma_index_of(v, other, i);
    }
}

/// A new operation is not done and shows no outcome, and its name is one
/// that no held record has.
pub proof fn lemma_created_is_pending(v: RegistryView, metadata: Option<AnyView>)
    requires
        v.wf(),
        v.next_id < u64::MAX,
    ensures
        v.created(metadata).wf(),
        !v.has(operation_name(v.next_id)),
        v.created(metadata).lookup(operation_name(v.next_id)).is_some(),
        !v.created(metadata).lookup(operation_name(v.next_id)).unwrap().snapshot().done,
        v.created(metadata).lookup(operation_name(v.next_id)).unwrap().snapshot().result.is_none(),
        v.created(metadata).lookup(operation_name(v.next_id)).unwrap().snapshot().metadata
            == metadata,
        forall|other: Seq<char>|
            other != operation_name(v.next_id) ==> v.created(metadata).lookup(other) == v.lookup(
                other,
            ),
{
    let w = v.created(metadata);
    let name = operation_name(v.next_id);
    let n = v.records.len() as int;
    assert forall|i: int| 0 <= i < n implies (#[trigger] v.records[i]).name != name by {
        if v.records[i].name == name {
            assert(v.records[i].wf());
            lemma_operation_name_injective(v.records[i].id, v.next_id);
        }
    }
    assert forall|i: int| 0 <= i < w.records.len() implies (#[trigger] w.records[i]).wf()
        && w.records[i].id < w.next_id by {
        if i < n {
            assert(w.records[i] == v.records[i]);
        }
    }
    assert forall|i: int, j: int| 0 <= i < j < w.records.len() implies (#[trigger] w.records[i]).id
        < (#[trigger] w.records[j]).id by {
        assert(w.records[i] == v.records[i]);
        if j < n {
            assert(w.records[j] == v.records[j]);
        }
    }
    lemma_index_of(w, name, n);
    assert forall|other: Seq<char>| other != name implies w.lookup(other) == v.lookup(other) by {
        if v.has(other) {
            let i = v.index_of(other);
            assert(w.records[i] == v.records[i]);
            lemma_index_of(w, other, i);
        } else if w.has(other) {
            let i = w.index_of(other);
            assert(w.records[i] == v.records[i]);
        }
    }
}

/// Discarding a record leaves a well-formed registry that no longer holds
/// the name and holds every other record as before.
pub proof fn lemma_deleted(v: RegistryView, name: Seq<char>)
    requires
        v.wf(),
        v.has(name),
    ensures
        v.deleted(name).wf(),
        !v.deleted(name).has(name),
        forall|other: Seq<char>| other != name ==> v.deleted(name).lookup(other) == v.lookup(other),
{
    let w = v.deleted(name);
    let k = v.index_of(name);
    assert forall|i: int| 0 <= i < w.records.len() implies (#[trigger] w.records[i])
        == v.records[if i < k {
        i
    } else {
        i + 1
    }] by {}
    assert forall|i: int| 0 <= i < w.records.len() implies (#[trigger] w.records[i]).wf()
        && w.records[i].id < w.next_id by {
        let s = if i < k {
            i
        } else {
            i + 1
        };
        assert(w.records[i] == v.records[s]);
    }
    assert forall|i: int, j: int| 0 <= i < j < w.records.len() implies (#[trigger] w.records[i]).id
        < (#[trigger] w.records[j]).id by {
        let si = if i < k {
            i
        } else {
            i + 1
        };
        let sj = if j < k {
            j
        } else {
            j + 1
        };
        assert(w.records[i] == v.records[si]);
        assert(w.records[j] == v.records[sj]);
    }
    if w.has(name) {
        let i = w.index_of(name);
        let s = if i < k {
            i
        } else {
            i + 1
        };
        assert(w.records[i] == v.records[s]);
        lemma_unique_names(v, s, k);
    }
    assert forall|other: Seq<char>| other != name implies w.lookup(other) == v.lookup(other) by {
        if v.has(other) {
            let s = v.index_of(other);
            let i = if s < k {
                s
            } else {
                s - 1
            };
            assert(w.records[i] == v.records[s]);
            lemma_index_of(w, other, i);
        } else if w.has(other) {
            let i = w.index_of(other);
            let s = if i < k {
                i
            } else {
                i + 1
            };
            assert(w.records[i] == v.records[s]);
        }
    }
}

/// Every call leaves the registry well formed.
pub proof fn lemma_step_keeps_wf(v: RegistryView, step: Step)
    requires
        v.wf(),
    ensures
        step.apply(v).wf(),
{
    lemma_step_effect(v, step);
}

/// What one call does to the records: the record it names changes as the
/// call says, and no other record changes.
pub proof fn lemma_step_effect(v: RegistryView, step: Step)
    requires
        v.wf(),
    ensures
        step.apply(v).wf(),
        !step.accepted(v) ==> step.apply(v) == v,
        step.accepted(v) ==> match step {
            Step::Create { initial } => {
                &&& !v.has(operation_name(v.next_id))
                &&& step.apply(v).lookup(operation_name(v.next_id)) == Some(
                    RecordView {
                        id: v.next_id,
                        name: operation_name(v.next_id),
                        metadata: initial,
                        cancel_requested: false,
                        outcome: None,
                    },
                )
                &&& forall|other: Seq<char>|
                    other != operation_name(v.next_id) ==> step.apply(v).lookup(other) == v.lookup(
                        other,
                    )
            },
            Step::UpdateMetadata { name, metadata } => {
                &&& step.apply(v).lookup(name) == Some(
                    RecordView { metadata: Some(metadata), ..v.lookup(name).unwrap() },
                )
                &&& forall|other: Seq<char>|
                    other != name ==> step.apply(v).lookup(other) == v.lookup(other)
            },
            Step::Complete { name, outcome } => {
                &&& step.apply(v).lookup(name) == Some(
                    RecordView { outcome: Some(outcome), ..v.lookup(name).unwrap() },
                )
                &&& forall|other: Seq<char>|
                    other != name ==> step.apply(v).lookup(other) == v.lookup(other)
            },
            Step::Cancel { name } => {
                &&& step.apply(v).lookup(name) == Some(
                    RecordView { cancel_requested: true, ..v.lookup(name).unwrap() },
                )
                &&& forall|other: Seq<char>|
                    other != name ==> step.apply(v).lookup(other) == v.lookup(other)
            },
            Step::Delete { name } => {
                &&& step.apply(v).lookup(name).is_none()
                &&& forall|other: Seq<char>|
                    other != name ==> step.apply(v).lookup(other) == v.lookup(other)
            },
        },
{
    if step.accepted(v) {
        match step {
            Step::Create { initial } => {
                lemma_created_is_pending(v, initial);
                lemma_index_of(v.created(initial), operation_name(v.next_id), v.records.len() as int);
            },
            Step::UpdateMetadata { name, metadata } => {
                let old_record = v.records[v.index_of(name)];
                assert(old_record.wf());
                lemma_replaced(v, name, RecordView { metadata: Some(metadata), ..old_record });
            },
            Step::Complete { name, outcome } => {
                let old_record = v.records[v.index_of(name)];
                assert(old_record.wf());
                lemma_replaced(v, name, RecordView { outcome: Some(outcome), ..old_record });
            },
            Step::Cancel { name } => {
                let old_record = v.records[v.index_of(name)];
                assert(old_record.wf());
                lemma_replaced(v, name, RecordView { cancel_requested: true, ..old_record });
            },
            Step::Delete { name } => {
                lemma_deleted(v, name);
            },
        }
    }
}

/// A pending operation stays pending, with no outcome to be seen, under
/// every call but its own accepted completion; it leaves the registry only
/// through its own deletion.
pub proof fn lemma_pending_until_completed(v: RegistryView, step: Step, name: Seq<char>)
    requires
        v.wf(),
        v.lookup(name).is_some(),
        !v.lookup(name).unwrap().done(),
    ensures
        match step.apply(v).lookup(name) {
            Some(r) => {
                &&& r.snapshot().done <==> step.completes(v, name)
                &&& r.snapshot().result.is_some() <==> step.completes(v, name)
            },
            None => step.deletes(v, name),
        },
{
    lemma_step_effect(v, step);
    lemma_created_name_is_new(v, name);
}

/// An operation that is done stays done, and what a client sees of it never
/// changes again: no call completes it a second time, and it leaves the
/// registry only through its own deletion.
pub proof fn lemma_done_is_final(v: RegistryView, step: Step, name: Seq<char>)
    requires
        v.wf(),
        v.lookup(name).is_some(),
        v.lookup(name).unwrap().done(),
    ensures
        !step.completes(v, name),
        match step.apply(v).lookup(name) {
            Some(r) => r.snapshot() == v.lookup(name).unwrap().snapshot(),
            None => step.deletes(v, name),
        },
{
    lemma_step_effect(v, step);
    lemma_created_name_is_new(v, name);
}

/// The name that the next operation gets is the name of no held record.
pub proof fn lemma_created_name_is_new(v: RegistryView, name: Seq<char>)
    requires
        v.wf(),
        v.has(name),
    ensures
        name != operation_name(v.next_id),
{
    let i = v.index_of(name);
    assert(v.records[i].wf());
    if name == operation_name(v.next_id) {
        lemma_operation_name_injective(v.records[i].id, v.next_id);
    }
}

/// After an accepted completion the operation is done and shows the outcome
/// it was completed with.
pub proof fn lemma_complete_then_get(v: RegistryView, name: Seq<char>, outcome: ResultView)
    requires
        v.wf(),
        v.complete_error(name, outcome).is_none(),
    ensures
        v.completed(name, outcome).wf(),
        v.completed(name, outcome).lookup(name).is_some(),
        v.completed(name, outcome).lookup(name).unwrap().snapshot().done,
        v.completed(name, outcome).lookup(name).unwrap().snapshot().result == Some(outcome),
        v.completed(name, outcome).lookup(name).unwrap().snapshot().wf(),
{
    lemma_step_effect(v, Step::Complete { name, outcome });
}

/// A second completion of the same operation is refused as a failed
/// precondition and changes nothing: the first outcome stays.
pub proof fn lemma_complete_twice(
    v: RegistryView,
    name: Seq<char>,
    first: ResultView,
    second: ResultView,
)
    requires
        v.wf(),
        v.complete_error(name, first).is_none(),
    ensures
        v.completed(name, first).complete_error(name, second) == Some(
            ErrorKind::FailedPrecondition,
        ),
        (Step::Complete { name, outcome: second }).apply(v.completed(name, first)) == v.completed(
            name,
            first,
        ),
        v.completed(name, first).lookup(name).unwrap().snapshot().result == Some(first),
{
    lemma_complete_then_get(v, name, first);
}

/// Asking for a cancellation a second time is accepted and changes nothing;
/// the operation is still pending after either request.
pub proof fn lemma_cancel_is_idempotent(v: RegistryView, name: Seq<char>)
    requires
        v.wf(),
        v.cancel_error(name).is_none(),
    ensures
        v.cancelled(name).wf(),
        v.cancelled(name).cancel_error(name).is_none(),
        v.cancelled(name).lookup(name).unwrap().cancel_requested,
        !v.cancelled(name).lookup(name).unwrap().done(),
        v.cancelled(name).cancelled(name) == v.cancelled(name),
{
    lemma_step_effect(v, Step::Cancel { name });
    let w = v.cancelled(name);
    assert(w.cancelled(name).records =~= w.records);
}

/// An operation whose cancellation was asked for can be completed with an
/// error of the cancellation code, and then shows exactly that error.
pub proof fn lemma_cancelled_completion(v: RegistryView, name: Seq<char>, status: StatusView)
    requires
        v.wf(),
        v.cancel_error(name).is_none(),
        status.code == CANCELLED,
    ensures
        v.cancelled(name).complete_error(name, ResultView::Error(status)).is_none(),
        v.cancelled(name).completed(name, ResultView::Error(status)).lookup(
            name,
        ).unwrap().snapshot().done,
        v.cancelled(name).completed(name, ResultView::Error(status)).lookup(
            name,
        ).unwrap().snapshot().result == Some(ResultView::Error(status)),
{
    lemma_cancel_is_idempotent(v, name);
    lemma_complete_then_get(v.cancelled(name), name, ResultView::Error(status));
}

/// A deleted operation is gone: every later call on its name finds nothing.
pub proof fn lemma_deleted_is_gone(v: RegistryView, name: Seq<char>, outcome: ResultView)
    requires
        v.wf(),
        v.has(name),
    ensures
        v.deleted(name).wf(),
        v.deleted(name).lookup(name).is_none(),
        v.deleted(name).complete_error(name, outcome) == Some(ErrorKind::NotFound),
        v.deleted(name).update_error(name) == Some(ErrorKind::NotFound),
        v.deleted(name).cancel_error(name) == Some(ErrorKind::NotFound),
{
    lemma_deleted(v, name);
}

/// The registry after a sequence of calls, the first one first.
pub open spec fn run(v: RegistryView, steps: Seq<Step>) -> RegistryView
    decreases steps.len(),
{
    if steps.len() == 0 {
        v
    } else {
        steps.last().apply(run(v, steps.drop_last()))
    }
}

/// Whether a call names the operation in a deletion.
pub open spec fn is_delete_of(step: Step, target: Seq<char>) -> bool {
    match step {
        Step::Delete { name } => name == target,
        _ => false,
    }
}

/// Whether a call names the operation in a completion.
pub open spec fn is_complete_of(step: Step, target: Seq<char>) -> bool {
    match step {
        Step::Complete { name, outcome } => name == target,
        _ => false,
    }
}

/// Whatever calls a registry sees, it stays well formed.
pub proof fn lemma_run_keeps_wf(v: RegistryView, steps: Seq<Step>)
    requires
        v.wf(),
    ensures
        run(v, steps).wf(),
    decreases steps.len(),
{
    if steps.len() > 0 {
        lemma_run_keeps_wf(v, steps.drop_last());
        lemma_step_keeps_wf(run(v, steps.drop_last()), steps.last());
    }
}

/// As long as nobody completes or deletes it, a pending operation is held
/// and shows no outcome, whatever else is called.
pub proof fn lemma_pending_through(v: RegistryView, steps: Seq<Step>, name: Seq<char>)
    requires
        v.wf(),
        v.lookup(name).is_some(),
        !v.lookup(name).unwrap().done(),
        forall|i: int|
            0 <= i < steps.len() ==> !is_complete_of(#[trigger] steps[i], name) && !is_delete_of(
                steps[i],
                name,
            ),
    ensures
        run(v, steps).lookup(name).is_some(),
        !run(v, steps).lookup(name).unwrap().snapshot().done,
        run(v, steps).lookup(name).unwrap().snapshot().result.is_none(),
    decreases steps.len(),
{
    if steps.len() > 0 {
        let before = steps.drop_last();
        assert forall|i: int| 0 <= i < before.len() implies !is_complete_of(
            #[trigger] before[i],
            name,
        ) && !is_delete_of(before[i], name) by {
            assert(before[i] == steps[i]);
        }
        lemma_pending_through(v, before, name);
        lemma_run_keeps_wf(v, before);
        assert(steps.last() == steps[steps.len() - 1]);
        lemma_pending_until_completed(run(v, before), steps.last(), name);
    }
}

/// As long as nobody deletes it, an operation that is done shows the same
/// record to every later reader, whatever else is called.
pub proof fn lemma_done_through(v: RegistryView, steps: Seq<Step>, name: Seq<char>)
    requires
        v.wf(),
        v.lookup(name).is_some(),
        v.lookup(name).unwrap().done(),
        forall|i: int| 0 <= i < steps.len() ==> !is_delete_of(#[trigger] steps[i], name),
    ensures
        run(v, steps).lookup(name).is_some(),
        run(v, steps).lookup(name).unwrap().snapshot() == v.lookup(name).unwrap().snapshot(),
    decreases steps.len(),
{
    if steps.len() > 0 {
        let before = steps.drop_last();
        assert forall|i: int| 0 <= i < before.len() implies !is_delete_of(
            #[trigger] before[i],
            name,
        ) by {
            assert(before[i] == steps[i]);
        }
        lemma_done_through(v, before, name);
        lemma_run_keeps_wf(v, before);
        assert(steps.last() == steps[steps.len() - 1]);
        lemma_done_is_final(run(v, before), steps.last(), name);
    }
}

/// Once deleted, a name stays unknown: no later call brings it back, since
/// every new operation gets a name that was never given out.
pub proof fn lemma_gone_through(v: RegistryView, steps: Seq<Step>, id: nat)
    requires
        v.wf(),
        id < v.next_id,
        !v.has(operation_name(id)),
    ensures
        !run(v, steps).has(operation_name(id)),
        id < run(v, steps).next_id,
    decreases steps.len(),
{
    if steps.len() > 0 {
        let before = steps.drop_last();
        lemma_gone_through(v, before, id);
        lemma_run_keeps_wf(v, before);
        let w = run(v, before);
        lemma_step_effect(w, steps.last());
        if steps.last().accepted(w) {
            match steps.last() {
                Step::Create { initial } => {
                    if operation_name(id) == operation_name(w.next_id) {
                        lemma_operation_name_injective(id, w.next_id);
                    }
                },
                Step::UpdateMetadata { name, metadata } => {},
                Step::Complete { name, outcome } => {},
                Step::Cancel { name } => {},
                Step::Delete { name } => {},
            }
        }
    }
}

} // verus!
