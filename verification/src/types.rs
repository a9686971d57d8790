//! Plain values that travel inside operation records and requests: typed
//! payloads and signed durations.

use vstd::prelude::*;
use vstd::std_specs::cmp::PartialEqSpecImpl;
use crate::text::{bytes_eq, clone_bytes, str_eq};

verus! {

/// An opaque payload that names its own type: a type URL and the serialized
/// bytes of a message of that type.
#[derive(Debug)]
pub struct Any {
    pub type_url: String,
    pub value: Vec<u8>,
}

/// The mathematical value of an [`Any`].
pub struct AnyView {
    pub type_url: Seq<char>,
    pub value: Seq<u8>,
}

impl View for Any {
    type V = AnyView;

    open spec fn view(&self) -> AnyView {
        AnyView { type_url: self.type_url@, value: self.value@ }
    }
}

impl Clone for Any {
    fn clone(&self) -> (r: Self)
        ensures
            r@ == self@,
    {
        Any { type_url: self.type_url.clone(), value: clone_bytes(&self.value) }
    }
}

impl PartialEq for Any {
    fn eq(&self, other: &Self) -> (r: bool) {
        str_eq(self.type_url.as_str(), other.type_url.as_str()) && bytes_eq(
            &self.value,
            &other.value,
        )
    }
}

impl PartialEqSpecImpl for Any {
    open spec fn obeys_eq_spec() -> bool {
        true
    }

    open spec fn eq_spec(&self, other: &Self) -> bool {
        self@ == other@
    }
}

/// The values of a sequence of payloads, in order.
pub open spec fn any_views(items: Seq<Any>) -> Seq<AnyView> {
    items.map_values(|a: Any| a@)
}

/// Copies a list of payloads.
pub fn clone_anys(items: &Vec<Any>) -> (r: Vec<Any>)
    ensures
        any_views(r@) == any_views(items@),
{
    let mut out: Vec<Any> = Vec::new();
    let mut i: usize = 0;
    while i < items.len()
        invariant
            i <= items.len(),
            out@.len() == i,
            forall|j: int| 0 <= j < i ==> out@[j]@ == items@[j]@,
        decreases items.len() - i,
    {
        out.push(items[i].clone());
        i += 1;
    }
    assert(any_views(out@) =~= any_views(items@));
    out
}

/// Compares two lists of payloads item for item.
pub fn anys_eq(a: &Vec<Any>, b: &Vec<Any>) -> (r: bool)
    ensures
        r == (any_views(a@) == any_views(b@)),
{
    if a.len() != b.len() {
        assert(any_views(a@).len() != any_views(b@).len());
        return false;
    }
    let mut i: usize = 0;
    while i < a.len()
        invariant
            i <= a.len(),
            a.len() == b.len(),
            forall|j: int| 0 <= j < i ==> a@[j]@ == b@[j]@,
        decreases a.len() - i,
    {
        if !(a[i] == b[i]) {
            assert(any_views(a@)[i as int] != any_views(b@)[i as int]);
            return false;
        }
        i += 1;
    }
    assert(any_views(a@) =~= any_views(b@));
    true
}

/// The number of nanoseconds in a second.
pub const NANOS_PER_SECOND: i32 = 1_000_000_000;

/// A signed span of time: whole seconds and a nanosecond adjustment.
#[derive(Clone, Copy, Debug, PartialEq, Eq, Structural)]
pub struct Duration {
    pub seconds: i64,
    pub nanos: i32,
}

/// The seconds and nanoseconds that `prost_types::Duration::normalize`
/// leaves in a duration that held the given ones.
pub uninterp spec fn normalized_duration(seconds: i64, nanos: i32) -> (i64, i32);

/// Calls `prost_types::Duration::normalize` on a duration with the given
/// fields and hands back the fields it leaves. The contract names that
/// result, and claims two things of it. The nanoseconds it leaves are less
/// than a whole second in either direction: the method reduces a greater
/// amount by the remainder or replaces it by the greatest normal value, and
/// its sign correction moves by one second towards zero. And a duration
/// whose seconds are not negative and whose nanoseconds lie from zero up
/// to, but not at, a whole second passes through unchanged, because neither
/// the range check nor the sign check of the method then applies.
#[verifier::external_body]
fn normalize_fields(seconds: i64, nanos: i32) -> (r: (i64, i32))
    ensures
        r == normalized_duration(seconds, nanos),
        -NANOS_PER_SECOND < r.1 < NANOS_PER_SECOND,
        seconds >= 0 && 0 <= nanos < NANOS_PER_SECOND ==> r == (seconds, nanos),
{
    let mut d = prost_types::Duration { seconds, nanos };
    d.normalize();
    (d.seconds, d.nanos)
}

impl Duration {
    /// The empty span of time.
    pub open spec fn zero() -> Duration {
        Duration { seconds: 0, nanos: 0 }
    }

    /// Whether the duration is written in the one way that a span of time
    /// that is not negative has: full seconds, and less than a second of
    /// nanoseconds on top.
    pub open spec fn is_plain(self) -> bool {
        self.seconds >= 0 && 0 <= self.nanos < NANOS_PER_SECOND
    }

    /// Whether the nanoseconds are less than a whole second in either
    /// direction.
    pub open spec fn nanos_in_range(self) -> bool {
        -NANOS_PER_SECOND < self.nanos < NANOS_PER_SECOND
    }

    /// Whether the duration is the empty span of time.
    pub open spec fn is_zero(self) -> bool {
        self.seconds == 0 && self.nanos == 0
    }

    /// Whether either field is below zero.
    pub open spec fn is_negative(self) -> bool {
        self.seconds < 0 || self.nanos < 0
    }

    /// Whether this duration is at most as long as the other, comparing
    /// seconds first and nanoseconds second.
    pub open spec fn at_most(self, other: Duration) -> bool {
        self.seconds < other.seconds || (self.seconds == other.seconds && self.nanos
            <= other.nanos)
    }

    /// The duration in canonical form.
    pub open spec fn spec_normalized(self) -> Duration {
        Duration {
            seconds: normalized_duration(self.seconds, self.nanos).0,
            nanos: normalized_duration(self.seconds, self.nanos).1,
        }
    }

    /// A duration from its two fields.
    pub fn new(seconds: i64, nanos: i32) -> (r: Self)
        ensures
            r == (Duration { seconds, nanos }),
    {
        Duration { seconds, nanos }
    }

    /// The duration in canonical form: nanoseconds within a second and of
    /// the sign of the seconds. A plain duration is its own canonical form.
    pub fn normalized(self) -> (r: Self)
        ensures
            r == self.spec_normalized(),
            r.nanos_in_range(),
            self.is_plain() ==> r == self,
    {
        let fields = normalize_fields(self.seconds, self.nanos);
        Duration { seconds: fields.0, nanos: fields.1 }
    }

    /// The shorter of two durations; the first where they are equally long.
    pub fn shorter(self, other: Duration) -> (r: Self)
        ensures
            r == if self.at_most(other) {
                self
            } else {
                other
            },
    {
        if self.seconds < other.seconds || (self.seconds == other.seconds && self.nanos
            <= other.nanos) {
            self
        } else {
            other
        }
    }

    /// The duration itself, or the empty span of time in place of a
    /// negative one.
    pub fn floored(self) -> (r: Self)
        ensures
            r == self.spec_floored(),
    {
        if self.seconds < 0 || self.nanos < 0 {
            Duration { seconds: 0, nanos: 0 }
        } else {
            self
        }
    }

    /// The duration itself, or the empty span of time in place of a
    /// negative one.
    pub open spec fn spec_floored(self) -> Duration {
        if self.is_negative() {
            Duration::zero()
        } else {
            self
        }
    }
}

} // verus!
