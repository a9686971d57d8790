//! The wait coordinator: who is held on which operation, and who is to be
//! released when an operation finishes.

use vstd::prelude::*;
use crate::text::str_eq;

verus! {

/// One held caller: its ticket and the name of the operation it waits on.
struct Waiter {
    ticket: u64,
    name: String,
}

/// The mathematical value of a held caller.
pub struct WaiterView {
    pub ticket: nat,
    pub name: Seq<char>,
}

impl View for Waiter {
    type V = WaiterView;

    closed spec fn view(&self) -> WaiterView {
        WaiterView { ticket: self.ticket as nat, name: self.name@ }
    }
}

/// The tickets of the callers held on an operation, in the order in which
/// they were registered.
pub open spec fn tickets_on(waiters: Seq<WaiterView>, name: Seq<char>) -> Seq<nat>
    decreases waiters.len(),
{
    if waiters.len() == 0 {
        Seq::empty()
    } else if waiters.last().name == name {
        tickets_on(waiters.drop_last(), name).push(waiters.last().ticket)
    } else {
        tickets_on(waiters.drop_last(), name)
    }
}

/// The callers held on any other operation, in the order in which they were
/// registered.
pub open spec fn waiters_off(waiters: Seq<WaiterView>, name: Seq<char>) -> Seq<WaiterView>
    decreases waiters.len(),
{
    if waiters.len() == 0 {
        Seq::empty()
    } else if waiters.last().name == name {
        waiters_off(waiters.drop_last(), name)
    } else {
        waiters_off(waiters.drop_last(), name).push(waiters.last())
    }
}

/// The numbers of a list of tickets.
pub open spec fn ticket_numbers(tickets: Seq<u64>) -> Seq<nat> {
    tickets.map_values(|t: u64| t as nat)
}

/// The bookkeeping of held callers.
pub struct WaitCoordinator {
    waiters: Vec<Waiter>,
    next_ticket: u64,
}

/// The mathematical value of a coordinator: the held callers in the order
/// of their registration, and the ticket that the next caller gets.
pub struct CoordinatorView {
    pub waiters: Seq<WaiterView>,
    pub next_ticket: nat,
}

impl CoordinatorView {
    /// Tickets grow with the position, and none has reached the ticket that
    /// comes next.
    pub open spec fn wf(self) -> bool {
        &&& self.next_ticket <= u64::MAX
        &&& forall|i: int|
            0 <= i < self.waiters.len() ==> (#[trigger] self.waiters[i]).ticket < self.next_ticket
        &&& forall|i: int, j: int|
            0 <= i < j < self.waiters.len() ==> (#[trigger] self.waiters[i]).ticket < (
            #[trigger] self.waiters[j]).ticket
    }

    /// The coordinator that holds nobody.
    pub open spec fn empty() -> CoordinatorView {
        CoordinatorView { waiters: Seq::empty(), next_ticket: 0 }
    }

    /// Whether the caller with this ticket is held.
    pub open spec fn holds(self, ticket: nat) -> bool {
        exists|i: int| 0 <= i < self.waiters.len() && (#[trigger] self.waiters[i]).ticket == ticket
    }

    /// The position of the caller with this ticket, where it is held.
    pub open spec fn index_of(self, ticket: nat) -> int {
        choose|i: int| 0 <= i < self.waiters.len() && (#[trigger] self.waiters[i]).ticket == ticket
    }

    /// The tickets of the callers held on an operation.
    pub open spec fn waiting_on(self, name: Seq<char>) -> Seq<nat> {
        tickets_on(self.waiters, name)
    }

    /// The coordinator after one more caller was registered.
    pub open spec fn registered(self, name: Seq<char>) -> CoordinatorView {
        CoordinatorView {
            waiters: self.waiters.push(WaiterView { ticket: self.next_ticket, name }),
            next_ticket: self.next_ticket + 1,
        }
    }

    /// The coordinator after every caller held on an operation was
    /// released.
    pub open spec fn released(self, name: Seq<char>) -> CoordinatorView {
        CoordinatorView { waiters: waiters_off(self.waiters, name), ..self }
    }

    /// The coordinator after the caller with this ticket left on its own.
    pub open spec fn withdrawn(self, ticket: nat) -> CoordinatorView {
        if self.holds(ticket) {
            CoordinatorView { waiters: self.waiters.remove(self.index_of(ticket)), ..self }
        } else {
            self
        }
    }
}

impl View for WaitCoordinator {
    type V = CoordinatorView;

    closed spec fn view(&self) -> CoordinatorView {
        CoordinatorView {
            waiters: self.waiters@.map_values(|w: Waiter| w@),
            next_ticket: self.next_ticket as nat,
        }
    }
}

/// Whether the tickets of the callers grow with the position.
pub open spec fn tickets_grow(waiters: Seq<WaiterView>) -> bool {
    forall|i: int, j: int|
        0 <= i < j < waiters.len() ==> (#[trigger] waiters[i]).ticket < (
        #[trigger] waiters[j]).ticket
}

/// Whether the numbers of a sequence grow with the position.
pub open spec fn numbers_grow(numbers: Seq<nat>) -> bool {
    forall|i: int, j: int| 0 <= i < j < numbers.len() ==> numbers[i] < numbers[j]
}

/// A ticket is among those held on an operation exactly when a caller with
/// that ticket is held on that operation.
pub proof fn lemma_tickets_on(waiters: Seq<WaiterView>, name: Seq<char>)
    ensures
        forall|t: nat| #[trigger]
            tickets_on(waiters, name).contains(t) <==> waiters.contains(
                WaiterView { ticket: t, name },
            ),
    decreases waiters.len(),
{
    let on = tickets_on(waiters, name);
    if waiters.len() > 0 {
        let rest = waiters.drop_last();
        let last = waiters.last();
        let on_rest = tickets_on(rest, name);
        lemma_tickets_on(rest, name);
        assert forall|t: nat| #[trigger]
            on.contains(t) <==> waiters.contains(WaiterView { ticket: t, name }) by {
            let w = WaiterView { ticket: t, name };
            if on.contains(t) {
                let i = choose|i: int| 0 <= i < on.len() && on[i] == t;
                if i < on_rest.len() {
                    assert(on_rest[i] == t);
                    assert(on_rest.contains(t));
                    let j = choose|j: int| 0 <= j < rest.len() && rest[j] == w;
                    assert(waiters[j] == w);
                } else {
                    assert(waiters[waiters.len() - 1] == w);
                }
            }
            if waiters.contains(w) {
                let j = choose|j: int| 0 <= j < waiters.len() && waiters[j] == w;
                if j < rest.len() {
                    assert(rest[j] == w);
                    assert(rest.contains(w));
                    assert(on_rest.contains(t));
                    let i = choose|i: int| 0 <= i < on_rest.len() && on_rest[i] == t;
                    assert(on[i] == t);
                } else {
                    assert(on[on.len() - 1] == t);
                }
            }
        }
    }
}

/// A caller stays after a release exactly when it was held, on another
/// operation.
pub proof fn lemma_waiters_off(waiters: Seq<WaiterView>, name: Seq<char>)
    ensures
        forall|w: WaiterView| #[trigger]
            waiters_off(waiters, name).contains(w) <==> waiters.contains(w) && w.name != name,
    decreases waiters.len(),
{
    let off = waiters_off(waiters, name);
    if waiters.len() > 0 {
        let rest = waiters.drop_last();
        let last = waiters.last();
        let off_rest = waiters_off(rest, name);
        lemma_waiters_off(rest, name);
        assert forall|w: WaiterView| #[trigger]
            off.contains(w) <==> waiters.contains(w) && w.name != name by {
            if off.contains(w) {
                let i = choose|i: int| 0 <= i < off.len() && off[i] == w;
                if i < off_rest.len() {
                    assert(off_rest[i] == w);
                    assert(off_rest.contains(w));
                    let j = choose|j: int| 0 <= j < rest.len() && rest[j] == w;
                    assert(waiters[j] == w);
                } else {
                    assert(waiters[waiters.len() - 1] == w);
                }
            }
            if waiters.contains(w) && w.name != name {
                let j = choose|j: int| 0 <= j < waiters.len() && waiters[j] == w;
                if j < rest.len() {
                    assert(rest[j] == w);
                    assert(rest.contains(w));
                    assert(off_rest.contains(w));
                    let i = choose|i: int| 0 <= i < off_rest.len() && off_rest[i] == w;
                    assert(off[i] == w);
                } else {
                    assert(off[off.len() - 1] == w);
                }
            }
        }
    }
}

/// Where tickets grow with the position among the held callers, they do so
/// among those held on one operation and among those that stay after a
/// release.
pub proof fn lemma_selection_grows(waiters: Seq<WaiterView>, name: Seq<char>)
    requires
        tickets_grow(waiters),
    ensures
        numbers_grow(tickets_on(waiters, name)),
        tickets_grow(waiters_off(waiters, name)),
    decreases waiters.len(),
{
    if waiters.len() > 0 {
        let rest = waiters.drop_last();
        let last = waiters.last();
        assert forall|i: int, j: int| 0 <= i < j < rest.len() implies (#[trigger] rest[i]).ticket
            < (#[trigger] rest[j]).ticket by {
            assert(rest[i] == waiters[i]);
            assert(rest[j] == waiters[j]);
        }
        lemma_selection_grows(rest, name);
        lemma_tickets_on(rest, name);
        lemma_waiters_off(rest, name);
        let on = tickets_on(waiters, name);
        let on_rest = tickets_on(rest, name);
        let off = waiters_off(waiters, name);
        let off_rest = waiters_off(rest, name);
        assert forall|i: int| 0 <= i < on_rest.len() implies on_rest[i] < last.ticket by {
            assert(on_rest.contains(on_rest[i]));
            let w = WaiterView { ticket: on_rest[i], name };
            let j = choose|j: int| 0 <= j < rest.len() && rest[j] == w;
            assert(waiters[j] == w);
            assert(waiters[j].ticket < waiters[waiters.len() - 1].ticket);
        }
        assert forall|i: int| 0 <= i < off_rest.len() implies (#[trigger] off_rest[i]).ticket
            < last.ticket by {
            assert(off_rest.contains(off_rest[i]));
            let j = choose|j: int| 0 <= j < rest.len() && rest[j] == off_rest[i];
            assert(waiters[j] == off_rest[i]);
            assert(waiters[j].ticket < waiters[waiters.len() - 1].ticket);
        }
        assert forall|i: int, j: int| 0 <= i < j < on.len() implies on[i] < on[j] by {
            if j < on_rest.len() {
                assert(on[i] == on_rest[i] && on[j] == on_rest[j]);
            } else {
                assert(on[i] == on_rest[i]);
            }
        }
        assert forall|i: int, j: int| 0 <= i < j < off.len() implies (#[trigger] off[i]).ticket < (
        #[trigger] off[j]).ticket by {
            if j < off_rest.len() {
                assert(off[i] == off_rest[i] && off[j] == off_rest[j]);
            } else {
                assert(off[i] == off_rest[i]);
            }
        }
    }
}

/// After a release nobody is held on the released operation, and whoever
/// is held on another operation is held as before.
pub proof fn lemma_release_is_exact(waiters: Seq<WaiterView>, name: Seq<char>, other: Seq<char>)
    ensures
        tickets_on(waiters_off(waiters, name), name) == Seq::<nat>::empty(),
        other != name ==> tickets_on(waiters_off(waiters, name), other) == tickets_on(
            waiters,
            other,
        ),
    decreases waiters.len(),
{
    if waiters.len() > 0 {
        let rest = waiters.drop_last();
        let last = waiters.last();
        lemma_release_is_exact(rest, name, other);
        if last.name != name {
            let off = waiters_off(waiters, name);
            assert(off.drop_last() =~= waiters_off(rest, name));
            assert(off.last() == last);
        }
    }
}

/// Releasing leaves a well-formed coordinator.
pub proof fn lemma_released_wf(v: CoordinatorView, name: Seq<char>)
    requires
        v.wf(),
    ensures
        v.released(name).wf(),
        numbers_grow(v.waiting_on(name)),
        v.released(name).waiting_on(name) == Seq::<nat>::empty(),
{
    lemma_selection_grows(v.waiters, name);
    lemma_waiters_off(v.waiters, name);
    lemma_release_is_exact(v.waiters, name, name);
    let off = waiters_off(v.waiters, name);
    assert forall|i: int| 0 <= i < off.len() implies (#[trigger] off[i]).ticket
        < v.next_ticket by {
        assert(off.contains(off[i]));
        let j = choose|j: int| 0 <= j < v.waiters.len() && v.waiters[j] == off[i];
        assert(v.waiters[j].ticket < v.next_ticket);
    }
}

/// A release reaches every caller held on the operation, each once: the
/// ticket of each such caller is among the released ones, no ticket is
/// released twice, and a second release finds nobody.
pub proof fn lemma_all_released_once(v: CoordinatorView, name: Seq<char>)
    requires
        v.wf(),
    ensures
        forall|i: int|
            0 <= i < v.waiters.len() && (#[trigger] v.waiters[i]).name == name
                ==> v.waiting_on(name).contains(v.waiters[i].ticket),
        v.waiting_on(name).no_duplicates(),
        v.released(name).waiting_on(name) == Seq::<nat>::empty(),
        v.released(name).released(name) == v.released(name),
        forall|other: Seq<char>|
            other != name ==> v.released(name).waiting_on(other) == v.waiting_on(other),
{
    lemma_released_wf(v, name);
    lemma_tickets_on(v.waiters, name);
    assert forall|i: int| 0 <= i < v.waiters.len() && (#[trigger] v.waiters[i]).name
        == name implies v.waiting_on(name).contains(v.waiters[i].ticket) by {
        let w = WaiterView { ticket: v.waiters[i].ticket, name };
        assert(v.waiters[i] == w);
        assert(v.waiters.contains(w));
    }
    assert forall|other: Seq<char>| other != name implies v.released(name).waiting_on(other)
        == v.waiting_on(other) by {
        lemma_release_is_exact(v.waiters, name, other);
    }
    lemma_nobody_to_release(waiters_off(v.waiters, name), name);
}

/// Where nobody is held on an operation, a release changes nothing.
pub proof fn lemma_nobody_to_release(waiters: Seq<WaiterView>, name: Seq<char>)
    requires
        tickets_on(waiters, name) == Seq::<nat>::empty(),
    ensures
        waiters_off(waiters, name) == waiters,
    decreases waiters.len(),
{
    if waiters.len() > 0 {
        let rest = waiters.drop_last();
        if waiters.last().name == name {
            assert(tickets_on(waiters, name).len() > 0);
        } else {
            lemma_nobody_to_release(rest, name);
            assert(waiters_off(waiters, name) =~= waiters);
        }
    } else {
        assert(waiters_off(waiters, name) =~= waiters);
    }
}

impl WaitCoordinator {
    /// Whether the coordinator is in a state that its own methods can have
    /// left it in.
    pub open spec fn wf(&self) -> bool {
        self@.wf()
    }

    /// A coordinator that holds nobody.
    pub fn new() -> (r: Self)
        ensures
            r.wf(),
            r@ == CoordinatorView::empty(),
    {
        let r = WaitCoordinator { waiters: Vec::new(), next_ticket: 0 };
        assert(r@.waiters =~= Seq::empty());
        r
    }

    /// Whether a further caller can be given a ticket.
    pub fn has_ticket_left(&self) -> (r: bool)
        ensures
            r == (self@.next_ticket < u64::MAX),
    {
        self.next_ticket < u64::MAX
    }

    /// The number of callers held on an operation.
    pub fn waiting(&self, name: &str) -> (r: usize)
        ensures
            r == self@.waiting_on(name@).len(),
    {
        let mut count: usize = 0;
        let mut i: usize = 0;
        let ghost v = self@;
        proof {
            assert(v.waiters.subrange(0, 0) =~= Seq::<WaiterView>::empty());
        }
        while i < self.waiters.len()
            invariant
                v == self@,
                i <= self.waiters.len(),
                count <= i,
                count == tickets_on(v.waiters.subrange(0, i as int), name@).len(),
            decreases self.waiters.len() - i,
        {
            proof {
                let next = v.waiters.subrange(0, i + 1);
                assert(next.drop_last() =~= v.waiters.subrange(0, i as int));
                assert(next.last() == self.waiters[i as int]@);
            }
            if str_eq(self.waiters[i].name.as_str(), name) {
                count += 1;
            }
            i += 1;
        }
        proof {
            assert(v.waiters.subrange(0, i as int) =~= v.waiters);
        }
        count
    }

    /// Holds one more caller on an operation and hands out its ticket.
    pub fn register(&mut self, name: &str) -> (ticket: u64)
        requires
            old(self).wf(),
            old(self)@.next_ticket < u64::MAX,
        ensures
            final(self).wf(),
            final(self)@ == old(self)@.registered(name@),
            ticket == old(self)@.next_ticket,
            final(self)@.waiting_on(name@) == old(self)@.waiting_on(name@).push(ticket as nat),
    {
        let ticket = self.next_ticket;
        self.waiters.push(Waiter { ticket, name: name.to_owned() });
        self.next_ticket = ticket + 1;
        proof {
            assert(self@.waiters =~= old(self)@.registered(name@).waiters);
            assert(self@.waiters.drop_last() =~= old(self)@.waiters);
        }
        ticket
    }

    /// Releases every caller held on an operation: their tickets, in the
    /// order of their registration. Nobody is held on the operation
    /// afterwards; whoever waits on another operation stays.
    pub fn release(&mut self, name: &str) -> (tickets: Vec<u64>)
        requires
            old(self).wf(),
        ensures
            final(self).wf(),
            final(self)@ == old(self)@.released(name@),
            ticket_numbers(tickets@) == old(self)@.waiting_on(name@),
    {
        let ghost v = self@;
        let mut kept: Vec<Waiter> = Vec::new();
        let mut tickets: Vec<u64> = Vec::new();
        let mut i: usize = 0;
        proof {
            assert(v.waiters.subrange(0, 0) =~= Seq::<WaiterView>::empty());
            assert(kept@.map_values(|w: Waiter| w@) =~= Seq::<WaiterView>::empty());
            assert(ticket_numbers(tickets@) =~= Seq::<nat>::empty());
        }
        while i < self.waiters.len()
            invariant
                v == self@,
                i <= self.waiters.len(),
                kept@.map_values(|w: Waiter| w@) == waiters_off(
                    v.waiters.subrange(0, i as int),
                    name@,
                ),
                ticket_numbers(tickets@) == tickets_on(v.waiters.subrange(0, i as int), name@),
            decreases self.waiters.len() - i,
        {
            let ghost kept_before = kept@.map_values(|w: Waiter| w@);
            let ghost tickets_before = ticket_numbers(tickets@);
            proof {
                let next = v.waiters.subrange(0, i + 1);
                assert(next.drop_last() =~= v.waiters.subrange(0, i as int));
                assert(next.last() == self.waiters[i as int]@);
            }
            if str_eq(self.waiters[i].name.as_str(), name) {
                tickets.push(self.waiters[i].ticket);
                assert(ticket_numbers(tickets@) =~= tickets_before.push(
                    self.waiters[i as int].ticket as nat,
                ));
            } else {
                let w = Waiter {
                    ticket: self.waiters[i].ticket,
                    name: self.waiters[i].name.clone(),
                };
                assert(w@ == self.waiters[i as int]@);
                kept.push(w);
                assert(kept@.map_values(|w: Waiter| w@) =~= kept_before.push(
                    self.waiters[i as int]@,
                ));
            }
            i += 1;
        }
        proof {
            assert(v.waiters.subrange(0, i as int) =~= v.waiters);
            lemma_released_wf(v, name@);
        }
        self.waiters = kept;
        tickets
    }

    /// Lets one caller go that gives up on its own, as after a timeout.
    /// Says whether the caller was still held.
    pub fn withdraw(&mut self, ticket: u64) -> (held: bool)
        requires
            old(self).wf(),
        ensures
            final(self).wf(),
            held == old(self)@.holds(ticket as nat),
            final(self)@ == old(self)@.withdrawn(ticket as nat),
            !final(self)@.holds(ticket as nat),
    {
        let ghost v = self@;
        let mut i: usize = 0;
        while i < self.waiters.len()
            invariant
                v == self@,
                v == old(self)@,
                v.wf(),
                i <= self.waiters.len(),
                forall|j: int| 0 <= j < i ==> (#[trigger] v.waiters[j]).ticket != ticket,
            decreases self.waiters.len() - i,
        {
            if self.waiters[i].ticket == ticket {
                proof {
                    assert(v.waiters[i as int].ticket == ticket as nat);
                    assert(v.holds(ticket as nat));
                    let k = v.index_of(ticket as nat);
                    if k < i {
                        assert(v.waiters[k].ticket < v.waiters[i as int].ticket);
                    }
                    if i < k {
                        assert(v.waiters[i as int].ticket < v.waiters[k].ticket);
                    }
                    assert(k == i);
                }
                self.waiters.remove(i);
                proof {
                    let w = self@;
                    assert(w.waiters =~= v.waiters.remove(i as int));
                    assert forall|a: int| 0 <= a < w.waiters.len() implies (
                    #[trigger] w.waiters[a]) == v.waiters[if a < i {
                        a
                    } else {
                        a + 1
                    }] by {}
                    assert forall|a: int| 0 <= a < w.waiters.len() implies (
                    #[trigger] w.waiters[a]).ticket < w.next_ticket && w.waiters[a].ticket
                        != ticket by {
                        let s = if a < i {
                            a
                        } else {
                            a + 1
                        };
                        assert(w.waiters[a] == v.waiters[s]);
                        if s < i {
                            assert(v.waiters[s].ticket < v.waiters[i as int].ticket);
                        } else {
                            assert(v.waiters[i as int].ticket < v.waiters[s].ticket);
                        }
                    }
                    assert forall|a: int, b: int| 0 <= a < b < w.waiters.len() implies (
                    #[trigger] w.waiters[a]).ticket < (#[trigger] w.waiters[b]).ticket by {
                        let sa = if a < i {
                            a
                        } else {
                            a + 1
                        };
                        let sb = if b < i {
                            b
                        } else {
                            b + 1
                        };
                        assert(w.waiters[a] == v.waiters[sa]);
                        assert(w.waiters[b] == v.waiters[sb]);
                    }
                }
                return true;
            }
            assert(v.waiters[i as int].ticket != ticket);
            i += 1;
        }
        false
    }
}

} // verus!
