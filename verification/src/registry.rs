//! The registry: the single owner of every operation record, in the order in
//! which the operations were created.

use vstd::prelude::*;
use vstd::string::*;
use crate::decimal::{decimal, format_decimal, lemma_decimal_injective, parse_decimal};
use crate::listing::{page_limit, parse_filter, spec_parse_filter, DEFAULT_PAGE_SIZE};
use crate::longrunning::operation;
use crate::longrunning::{
    clone_option_any, clone_option_result, option_any_view, option_result_view, Operation,
    OperationView,
};
use crate::rpc::ErrorKind;
use crate::text::str_eq;
use crate::types::{Any, AnyView};

verus! {

/// The name of the operation with a given identifier.
pub open spec fn operation_name(id: nat) -> Seq<char> {
    "operations/"@ + decimal(id)
}

/// Operations with different identifiers have different names.
pub proof fn lemma_operation_name_injective(a: nat, b: nat)
    requires
        operation_name(a) == operation_name(b),
    ensures
        a == b,
{
    let p = "operations/"@;
    assert(decimal(a) =~= operation_name(a).subrange(p.len() as int, operation_name(a).len() as int));
    assert(decimal(b) =~= operation_name(b).subrange(p.len() as int, operation_name(b).len() as int));
    lemma_decimal_injective(a, b);
}

/// One record as the registry keeps it.
struct Record {
    id: u64,
    name: String,
    metadata: Option<Any>,
    cancel_requested: bool,
    outcome: Option<operation::Result>,
}

/// The mathematical value of a record.
pub struct RecordView {
    /// The identifier: the number of operations created before this one.
    pub id: nat,
    pub name: Seq<char>,
    pub metadata: Option<AnyView>,
    /// Whether a cancellation of the work has been asked for.
    pub cancel_requested: bool,
    /// The outcome; present exactly when the operation is done.
    pub outcome: Option<operation::ResultView>,
}

impl RecordView {
    /// Whether the operation is done.
    pub open spec fn done(self) -> bool {
        self.outcome.is_some()
    }

    /// What a client sees of the record.
    pub open spec fn snapshot(self) -> OperationView {
        OperationView {
            name: self.name,
            metadata: self.metadata,
            done: self.outcome.is_some(),
            result: self.outcome,
        }
    }

    /// The record is named after its identifier, and an error outcome
    /// reports a failure.
    pub open spec fn wf(self) -> bool {
        &&& self.name == operation_name(self.id)
        &&& self.outcome.is_some() ==> self.outcome.unwrap().wf()
    }
}

impl View for Record {
    type V = RecordView;

    closed spec fn view(&self) -> RecordView {
        RecordView {
            id: self.id as nat,
            name: self.name@,
            metadata: option_any_view(self.metadata),
            cancel_requested: self.cancel_requested,
            outcome: option_result_view(self.outcome),
        }
    }
}

impl Record {
    /// What a client sees of the record.
    fn snapshot(&self) -> (r: Operation)
        ensures
            r@ == self@.snapshot(),
    {
        Operation {
            name: self.name.clone(),
            metadata: clone_option_any(&self.metadata),
            done: self.outcome.is_some(),
            result: clone_option_result(&self.outcome),
        }
    }
}

/// What clients see of a sequence of records, in order.
pub open spec fn snapshots(records: Seq<RecordView>) -> Seq<OperationView> {
    records.map_values(|r: RecordView| r.snapshot())
}

/// The values of a sequence of operations, in order.
pub open spec fn operation_views(operations: Seq<Operation>) -> Seq<OperationView> {
    operations.map_values(|o: Operation| o@)
}

/// The registry of operation records.
pub struct Registry {
    records: Vec<Record>,
    next_id: u64,
}

/// The mathematical value of a registry: its records, oldest first, and the
/// identifier that the next operation gets.
pub struct RegistryView {
    pub records: Seq<RecordView>,
    pub next_id: nat,
}

impl RegistryView {
    /// Every record is well formed, identifiers grow with the position, and
    /// none has reached the identifier that comes next.
    pub open spec fn wf(self) -> bool {
        &&& self.next_id <= u64::MAX
        &&& forall|i: int|
            0 <= i < self.records.len() ==> (#[trigger] self.records[i]).wf() && self.records[i].id
                < self.next_id
        &&& forall|i: int, j: int|
            0 <= i < j < self.records.len() ==> (#[trigger] self.records[i]).id < (
            #[trigger] self.records[j]).id
    }

    /// Whether a record with this name is held.
    pub open spec fn has(self, name: Seq<char>) -> bool {
        exists|i: int| 0 <= i < self.records.len() && (#[trigger] self.records[i]).name == name
    }

    /// The position of the record with this name, where one is held.
    pub open spec fn index_of(self, name: Seq<char>) -> int {
        choose|i: int| 0 <= i < self.records.len() && (#[trigger] self.records[i]).name == name
    }

    /// The record with this name, if one is held.
    pub open spec fn lookup(self, name: Seq<char>) -> Option<RecordView> {
        if self.has(name) {
            Some(self.records[self.index_of(name)])
        } else {
            None
        }
    }

    /// The registry with no record.
    pub open spec fn empty() -> RegistryView {
        RegistryView { records: Seq::empty(), next_id: 0 }
    }

    /// The registry with the record of this name exchanged for another.
    pub open spec fn replaced(self, name: Seq<char>, record: RecordView) -> RegistryView {
        RegistryView { records: self.records.update(self.index_of(name), record), ..self }
    }

    /// The registry after a new operation was created with this metadata.
    pub open spec fn created(self, metadata: Option<AnyView>) -> RegistryView {
        RegistryView {
            records: self.records.push(
                RecordView {
                    id: self.next_id,
                    name: operation_name(self.next_id),
                    metadata,
                    cancel_requested: false,
                    outcome: None,
                },
            ),
            next_id: self.next_id + 1,
        }
    }

    /// Why the metadata of this operation cannot be changed, if it cannot.
    pub open spec fn update_error(self, name: Seq<char>) -> Option<ErrorKind> {
        if !self.has(name) {
            Some(ErrorKind::NotFound)
        } else if self.lookup(name).unwrap().done() {
            Some(ErrorKind::FailedPrecondition)
        } else {
            None
        }
    }

    /// The registry after the producer reported new metadata.
    pub open spec fn with_metadata(self, name: Seq<char>, metadata: AnyView) -> RegistryView {
        self.replaced(
            name,
            RecordView { metadata: Some(metadata), ..self.records[self.index_of(name)] },
        )
    }

    /// Why this operation cannot be completed with this outcome, if it
    /// cannot.
    pub open spec fn complete_error(self, name: Seq<char>, outcome: operation::ResultView) -> Option<
        ErrorKind,
    > {
        if !self.has(name) {
            Some(ErrorKind::NotFound)
        } else if self.lookup(name).unwrap().done() {
            Some(ErrorKind::FailedPrecondition)
        } else if !outcome.wf() {
            Some(ErrorKind::Internal)
        } else {
            None
        }
    }

    /// The registry after the operation finished with this outcome.
    pub open spec fn completed(self, name: Seq<char>, outcome: operation::ResultView) -> RegistryView {
        self.replaced(
            name,
            RecordView { outcome: Some(outcome), ..self.records[self.index_of(name)] },
        )
    }

    /// Why the cancellation of this operation cannot be asked for, if it
    /// cannot.
    pub open spec fn cancel_error(self, name: Seq<char>) -> Option<ErrorKind> {
        self.update_error(name)
    }

    /// The registry after the cancellation of the operation was asked for.
    pub open spec fn cancelled(self, name: Seq<char>) -> RegistryView {
        self.replaced(
            name,
            RecordView { cancel_requested: true, ..self.records[self.index_of(name)] },
        )
    }

    /// The registry after the record of the operation was discarded.
    pub open spec fn deleted(self, name: Seq<char>) -> RegistryView {
        RegistryView { records: self.records.remove(self.index_of(name)), ..self }
    }
}

/// In a well-formed registry a name is held at one position only.
pub proof fn lemma_unique_names(v: RegistryView, i: int, j: int)
    requires
        v.wf(),
        0 <= i < v.records.len(),
        0 <= j < v.records.len(),
        v.records[i].name == v.records[j].name,
    ensures
        i == j,
{
    lemma_operation_name_injective(v.records[i].id, v.records[j].id);
    if i < j {
        assert(v.records[i].id < v.records[j].id);
    }
    if j < i {
        assert(v.records[j].id < v.records[i].id);
    }
}

/// The position at which a name was found is the position of that name.
pub proof fn lemma_index_of(v: RegistryView, name: Seq<char>, i: int)
    requires
        v.wf(),
        0 <= i < v.records.len(),
        v.records[i].name == name,
    ensures
        v.has(name),
        v.index_of(name) == i,
        v.lookup(name) == Some(v.records[i]),
{
    lemma_unique_names(v, i, v.index_of(name));
}

impl View for Registry {
    type V = RegistryView;

    closed spec fn view(&self) -> RegistryView {
        RegistryView {
            records: self.records@.map_values(|r: Record| r@),
            next_id: self.next_id as nat,
        }
    }
}

impl Registry {
    /// Whether the registry is in a state that its own methods can have
    /// left it in.
    pub open spec fn wf(&self) -> bool {
        self@.wf()
    }

    /// A registry that holds nothing.
    pub fn new() -> (r: Self)
        ensures
            r.wf(),
            r@ == RegistryView::empty(),
    {
        let r = Registry { records: Vec::new(), next_id: 0 };
        assert(r@.records =~= Seq::empty());
        r
    }

    /// Whether a further operation can be given a name.
    pub fn can_create(&self) -> (r: bool)
        ensures
            r == (self@.next_id < u64::MAX),
    {
        self.next_id < u64::MAX
    }

    /// The number of records held.
    pub fn len(&self) -> (r: usize)
        ensures
            r == self@.records.len(),
    {
        self.records.len()
    }

    /// The position of the record with this name.
    fn find(&self, name: &str) -> (r: Option<usize>)
        requires
            self.wf(),
        ensures
            match r {
                Some(i) => i < self@.records.len() && self@.has(name@) && self@.index_of(name@)
                    == i,
                None => !self@.has(name@),
            },
    {
        let mut i: usize = 0;
        while i < self.records.len()
            invariant
                i <= self.records.len(),
                self.wf(),
                forall|j: int| 0 <= j < i ==> (#[trigger] self@.records[j]).name != name@,
            decreases self.records.len() - i,
        {
            if str_eq(self.records[i].name.as_str(), name) {
                proof {
                    assert(self@.records[i as int].name == name@);
                    lemma_index_of(self@, name@, i as int);
                }
                return Some(i);
            }
            assert(self@.records[i as int].name != name@);
            i += 1;
        }
        None
    }

    /// Accepts a new unit of work: a record that is not done, under a name
    /// that no record has had before.
    pub fn create(&mut self, metadata: Option<Any>) -> (name: String)
        requires
            old(self).wf(),
            old(self)@.next_id < u64::MAX,
        ensures
            final(self).wf(),
            final(self)@ == old(self)@.created(option_any_view(metadata)),
            name@ == operation_name(old(self)@.next_id),
            !old(self)@.has(name@),
    {
        let id = self.next_id;
        let mut name = String::from_str("operations/");
        name.append(format_decimal(id).as_str());
        let record = Record {
            id,
            name: name.clone(),
            metadata,
            cancel_requested: false,
            outcome: None,
        };
        proof {
            assert forall|i: int| 0 <= i < old(self)@.records.len() implies (
            #[trigger] old(self)@.records[i]).name != name@ by {
                if old(self)@.records[i].name == name@ {
                    lemma_operation_name_injective(old(self)@.records[i].id, id as nat);
                }
            }
        }
        self.records.push(record);
        self.next_id = id + 1;
        assert(self@.records =~= old(self)@.created(option_any_view(metadata)).records);
        name
    }

    /// Stores what the producer reports of its progress. Refused once the
    /// operation is done.
    pub fn update_metadata(&mut self, name: &str, metadata: Any) -> (r: Result<(), ErrorKind>)
        requires
            old(self).wf(),
        ensures
            final(self).wf(),
            match r {
                Ok(()) => old(self)@.update_error(name@).is_none() && final(self)@ == old(
                    self,
                )@.with_metadata(name@, metadata@),
                Err(e) => old(self)@.update_error(name@) == Some(e) && final(self)@ == old(self)@,
            },
    {
        match self.find(name) {
            None => Err(ErrorKind::NotFound),
            Some(i) => {
                if self.records[i].outcome.is_some() {
                    return Err(ErrorKind::FailedPrecondition);
                }
                self.records[i].metadata = Some(metadata);
                assert(self@.records =~= old(self)@.with_metadata(name@, metadata@).records);
                Ok(())
            },
        }
    }

    /// Finishes the operation with its outcome: the one step from pending to
    /// done. An outcome that is an error has to report a failure.
    pub fn complete(&mut self, name: &str, outcome: operation::Result) -> (r: Result<
        (),
        ErrorKind,
    >)
        requires
            old(self).wf(),
        ensures
            final(self).wf(),
            match r {
                Ok(()) => old(self)@.complete_error(name@, outcome@).is_none() && final(self)@
                    == old(self)@.completed(name@, outcome@),
                Err(e) => old(self)@.complete_error(name@, outcome@) == Some(e) && final(self)@
                    == old(self)@,
            },
    {
        match self.find(name) {
            None => Err(ErrorKind::NotFound),
            Some(i) => {
                if self.records[i].outcome.is_some() {
                    return Err(ErrorKind::FailedPrecondition);
                }
                if !outcome.is_well_formed() {
                    return Err(ErrorKind::Internal);
                }
                self.records[i].outcome = Some(outcome);
                assert(self@.records =~= old(self)@.completed(name@, outcome@).records);
                Ok(())
            },
        }
    }

    /// Records that the cancellation of the work was asked for. The answer
    /// says whether the request is the first one, which the caller has to
    /// pass on to the work; a repeated request changes nothing.
    pub fn cancel(&mut self, name: &str) -> (r: Result<bool, ErrorKind>)
        requires
            old(self).wf(),
        ensures
            final(self).wf(),
            match r {
                Ok(first) => old(self)@.cancel_error(name@).is_none() && final(self)@ == old(
                    self,
                )@.cancelled(name@) && first == !old(self)@.lookup(
                    name@,
                ).unwrap().cancel_requested,
                Err(e) => old(self)@.cancel_error(name@) == Some(e) && final(self)@ == old(self)@,
            },
    {
        match self.find(name) {
            None => Err(ErrorKind::NotFound),
            Some(i) => {
                if self.records[i].outcome.is_some() {
                    return Err(ErrorKind::FailedPrecondition);
                }
                let first = !self.records[i].cancel_requested;
                self.records[i].cancel_requested = true;
                assert(self@.records =~= old(self)@.cancelled(name@).records);
                Ok(first)
            },
        }
    }

    /// Whether the cancellation of the operation has been asked for: the
    /// record of the request, for work that looks for it on its own.
    pub fn cancel_requested(&self, name: &str) -> (r: Result<bool, ErrorKind>)
        requires
            self.wf(),
        ensures
            match r {
                Ok(asked) => self@.lookup(name@).is_some() && asked == self@.lookup(
                    name@,
                ).unwrap().cancel_requested,
                Err(e) => e == ErrorKind::NotFound && self@.lookup(name@).is_none(),
            },
    {
        match self.find(name) {
            Some(i) => Ok(self.records[i].cancel_requested),
            None => Err(ErrorKind::NotFound),
        }
    }

    /// Discards the record, done or not. The work itself is not touched.
    pub fn delete(&mut self, name: &str) -> (r: Result<(), ErrorKind>)
        requires
            old(self).wf(),
        ensures
            final(self).wf(),
            match r {
                Ok(()) => old(self)@.has(name@) && final(self)@ == old(self)@.deleted(name@),
                Err(e) => e == ErrorKind::NotFound && !old(self)@.has(name@) && final(self)@
                    == old(self)@,
            },
    {
        match self.find(name) {
            None => Err(ErrorKind::NotFound),
            Some(i) => {
                self.records.remove(i);
                assert(self@.records =~= old(self)@.deleted(name@).records);
                Ok(())
            },
        }
    }

    /// The position of the record with this identifier.
    fn find_id(&self, id: u64) -> (r: Option<usize>)
        requires
            self.wf(),
        ensures
            match r {
                Some(i) => i < self@.records.len() && self@.has_id(id as nat)
                    && self@.index_of_id(id as nat) == i,
                None => !self@.has_id(id as nat),
            },
    {
        let mut i: usize = 0;
        while i < self.records.len()
            invariant
                i <= self.records.len(),
                self.wf(),
                forall|j: int| 0 <= j < i ==> (#[trigger] self@.records[j]).id != id,
            decreases self.records.len() - i,
        {
            if self.records[i].id == id {
                proof {
                    let v = self@;
                    assert(v.records[i as int].id == id);
                    let k = v.index_of_id(id as nat);
                    if k < i {
                        assert(v.records[k].id < v.records[i as int].id);
                    }
                    if i < k {
                        assert(v.records[i as int].id < v.records[k].id);
                    }
                }
                return Some(i);
            }
            assert(self@.records[i as int].id != id);
            i += 1;
        }
        None
    }

    /// One page of the records that a filter keeps, oldest first, and the
    /// token that asks for the page after it. The token is empty after the
    /// last page. A text that is no filter and a token that resumes nowhere
    /// are invalid arguments.
    pub fn list(&self, filter: &str, page_size: i32, page_token: &str) -> (r: Result<
        (Vec<Operation>, String),
        ErrorKind,
    >)
        requires
            self.wf(),
        ensures
            match r {
                Ok((operations, next)) => {
                    &&& spec_parse_filter(filter@).is_some()
                    &&& self@.page_start(page_token@).is_some()
                    &&& operation_views(operations@) == snapshots(
                        self@.page(
                            spec_parse_filter(filter@).unwrap(),
                            self@.page_start(page_token@).unwrap(),
                            page_limit(page_size),
                        ),
                    )
                    &&& next@ == self@.next_page_token(
                        spec_parse_filter(filter@).unwrap(),
                        self@.page_start(page_token@).unwrap(),
                        page_limit(page_size),
                    )
                },
                Err(e) => {
                    &&& e == ErrorKind::InvalidArgument
                    &&& (spec_parse_filter(filter@).is_none() || self@.page_start(
                        page_token@,
                    ).is_none())
                },
            },
    {
        let f = match parse_filter(filter) {
            Some(f) => f,
            None => {
                return Err(ErrorKind::InvalidArgument);
            },
        };
        let start: usize = if page_token.is_empty() {
            0
        } else {
            match parse_decimal(page_token) {
                None => {
                    return Err(ErrorKind::InvalidArgument);
                },
                Some(id) => match self.find_id(id) {
                    None => {
                        return Err(ErrorKind::InvalidArgument);
                    },
                    Some(i) => i,
                },
            }
        };
        let limit: usize = if page_size <= 0 {
            DEFAULT_PAGE_SIZE as usize
        } else {
            page_size as usize
        };
        let ghost v = self@;
        let ghost all = v.matching_from(f, start as int);
        let ghost mut taken: Seq<RecordView> = Seq::empty();
        let mut out: Vec<Operation> = Vec::new();
        let mut i: usize = start;
        while i < self.records.len() && out.len() < limit
            invariant
                v == self@,
                start <= i,
                i <= self.records.len(),
                out@.len() == taken.len(),
                out@.len() <= limit,
                operation_views(out@) == snapshots(taken),
                taken + v.matching_from(f, i as int) == all,
            decreases self.records.len() - i,
        {
            let keep = f.keeps(self.records[i].outcome.is_some());
            proof {
                assert(v.records[i as int] == self.records[i as int]@);
                assert(keep == f.matches(v.records[i as int]));
            }
            if keep {
                let ghost before = taken;
                let ghost out_before = out@;
                out.push(self.records[i].snapshot());
                proof {
                    taken = taken.push(v.records[i as int]);
                    assert(taken + v.matching_from(f, i + 1) =~= before + v.matching_from(
                        f,
                        i as int,
                    ));
                    assert(operation_views(out@) =~= snapshots(taken)) by {
                        assert(operation_views(out_before) == snapshots(before));
                        assert forall|j: int| 0 <= j < out@.len() implies operation_views(out@)[j]
                            == snapshots(taken)[j] by {
                            if j < out_before.len() {
                                assert(operation_views(out_before)[j] == snapshots(before)[j]);
                            }
                        }
                    }
                }
            }
            i += 1;
        }
        let mut found = false;
        while i < self.records.len() && !found
            invariant
                v == self@,
                i <= self.records.len(),
                taken + v.matching_from(f, i as int) == all,
                found ==> i < self.records.len() && f.matches(v.records[i as int]),
            decreases self.records.len() - i + (if found { 0int } else { 1int }),
        {
            let keep = f.keeps(self.records[i].outcome.is_some());
            proof {
                assert(v.records[i as int] == self.records[i as int]@);
                assert(keep == f.matches(v.records[i as int]));
            }
            if keep {
                found = true;
            } else {
                i += 1;
            }
        }
        if found && out.len() >= limit {
            proof {
                let rest = v.matching_from(f, i as int);
                assert(rest[0] == v.records[i as int]);
                assert(all[limit as int] == rest[0]);
                assert(all.subrange(0, limit as int) =~= taken);
            }
            Ok((out, format_decimal(self.records[i].id)))
        } else {
            proof {
                if i >= self.records.len() {
                    assert(v.matching_from(f, i as int) =~= Seq::empty());
                    assert(all =~= taken);
                } else {
                }
            }
            Ok((out, String::new()))
        }
    }

    /// The current state of the operation with this name.
    pub fn get(&self, name: &str) -> (r: Result<Operation, ErrorKind>)
        requires
            self.wf(),
        ensures
            match r {
                Ok(op) => self@.lookup(name@).is_some() && op@ == self@.lookup(
                    name@,
                ).unwrap().snapshot() && op@.wf() && op@.name == name@,
                Err(e) => e == ErrorKind::NotFound && self@.lookup(name@).is_none(),
            },
    {
        match self.find(name) {
            Some(i) => {
                assert(self@.records[i as int].wf());
                Ok(self.records[i].snapshot())
            },
            None => Err(ErrorKind::NotFound),
        }
    }
}

} // verus!
