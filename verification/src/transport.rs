//! What the protocol fixes about its transport: the paths of the methods,
//! the answer to an unknown path, and the compression settings of an
//! endpoint.

use vstd::prelude::*;
use vstd::string::*;
use crate::decimal::{all_digits, decimal_value, digit_of, digit_value};
use crate::rpc::{Status, StatusView, UNIMPLEMENTED, UNKNOWN};
use crate::text::str_eq;
use crate::types::{any_views, Duration};

verus! {

/// The five methods of the protocol.
#[derive(Clone, Copy, Debug, PartialEq, Eq, Structural)]
pub enum Method {
    ListOperations,
    GetOperation,
    DeleteOperation,
    CancelOperation,
    WaitOperation,
}

impl Method {
    /// The path under which the method is called.
    pub open spec fn spec_path(self) -> Seq<char> {
        match self {
            Method::ListOperations => "/google.longrunning.Operations/ListOperations"@,
            Method::GetOperation => "/google.longrunning.Operations/GetOperation"@,
            Method::DeleteOperation => "/google.longrunning.Operations/DeleteOperation"@,
            Method::CancelOperation => "/google.longrunning.Operations/CancelOperation"@,
            Method::WaitOperation => "/google.longrunning.Operations/WaitOperation"@,
        }
    }

    /// The path under which the method is called.
    pub fn path(self) -> (r: &'static str)
        ensures
            r@ == self.spec_path(),
    {
        match self {
            Method::ListOperations => "/google.longrunning.Operations/ListOperations",
            Method::GetOperation => "/google.longrunning.Operations/GetOperation",
            Method::DeleteOperation => "/google.longrunning.Operations/DeleteOperation",
            Method::CancelOperation => "/google.longrunning.Operations/CancelOperation",
            Method::WaitOperation => "/google.longrunning.Operations/WaitOperation",
        }
    }
}

/// The method that a path calls, if it calls one.
pub open spec fn spec_route(path: Seq<char>) -> Option<Method> {
    if path == Method::ListOperations.spec_path() {
        Some(Method::ListOperations)
    } else if path == Method::GetOperation.spec_path() {
        Some(Method::GetOperation)
    } else if path == Method::DeleteOperation.spec_path() {
        Some(Method::DeleteOperation)
    } else if path == Method::CancelOperation.spec_path() {
        Some(Method::CancelOperation)
    } else if path == Method::WaitOperation.spec_path() {
        Some(Method::WaitOperation)
    } else {
        None
    }
}

/// The method that a request path calls. A path that calls none is to be
/// answered as unimplemented.
pub fn route(path: &str) -> (r: Option<Method>)
    ensures
        r == spec_route(path@),
{
    if str_eq(path, Method::ListOperations.path()) {
        Some(Method::ListOperations)
    } else if str_eq(path, Method::GetOperation.path()) {
        Some(Method::GetOperation)
    } else if str_eq(path, Method::DeleteOperation.path()) {
        Some(Method::DeleteOperation)
    } else if str_eq(path, Method::CancelOperation.path()) {
        Some(Method::CancelOperation)
    } else if str_eq(path, Method::WaitOperation.path()) {
        Some(Method::WaitOperation)
    } else {
        None
    }
}

/// Every method is reached by its own path, and by no other method's.
pub proof fn lemma_route_of_path(method: Method)
    ensures
        spec_route(method.spec_path()) == Some(method),
{
    reveal_strlit("/google.longrunning.Operations/ListOperations");
    reveal_strlit("/google.longrunning.Operations/GetOperation");
    reveal_strlit("/google.longrunning.Operations/DeleteOperation");
    reveal_strlit("/google.longrunning.Operations/CancelOperation");
    reveal_strlit("/google.longrunning.Operations/WaitOperation");
    let l = Method::ListOperations.spec_path();
    let g = Method::GetOperation.spec_path();
    let d = Method::DeleteOperation.spec_path();
    let c = Method::CancelOperation.spec_path();
    let w = Method::WaitOperation.spec_path();
    assert(l[31] == 'L');
    assert(g[31] == 'G');
    assert(d[31] == 'D');
    assert(c[31] == 'C');
    assert(w[31] == 'W');
}

/// What an endpoint does with a request path.
#[derive(Clone, Copy, Debug, PartialEq, Eq, Structural)]
pub enum Dispatch {
    /// Hand the request to this method.
    Call(Method),
    /// Answer without a body: this HTTP status, and this code in the
    /// `grpc-status` header.
    Refuse { http_status: u16, grpc_status: i32 },
}

/// What an endpoint does with a request path: the method where the path
/// calls one, and else a refusal as unimplemented, which travels under the
/// HTTP status 200.
pub fn dispatch(path: &str) -> (r: Dispatch)
    ensures
        r == match spec_route(path@) {
            Some(m) => Dispatch::Call(m),
            None => Dispatch::Refuse { http_status: 200, grpc_status: UNIMPLEMENTED },
        },
{
    match route(path) {
        Some(m) => Dispatch::Call(m),
        None => Dispatch::Refuse { http_status: 200, grpc_status: UNIMPLEMENTED },
    }
}

/// The status with which a client gives up on a call because its transport
/// was not ready: the unknown code, and the reason after a fixed opening.
pub fn not_ready(reason: &str) -> (r: Status)
    ensures
        r@ == (StatusView {
            code: UNKNOWN,
            message: "Service was not ready: "@ + reason@,
            details: Seq::empty(),
        }),
{
    let mut message = String::from_str("Service was not ready: ");
    message.append(reason);
    let r = Status { code: UNKNOWN, message, details: Vec::new() };
    assert(any_views(r.details@) =~= Seq::empty());
    r
}

/// The compression settings of an endpoint.
#[derive(Clone, Copy, Debug, PartialEq, Eq, Structural)]
pub struct Compression {
    /// Whether gzip-compressed messages are accepted.
    pub accept: bool,
    /// Whether messages are sent gzip-compressed.
    pub send: bool,
}

impl Compression {
    /// No compression in either direction.
    pub fn none() -> (r: Self)
        ensures
            r == (Compression { accept: false, send: false }),
    {
        Compression { accept: false, send: false }
    }

    /// The same settings, with gzip-compressed messages accepted.
    pub fn accept_gzip(self) -> (r: Self)
        ensures
            r == (Compression { accept: true, ..self }),
    {
        Compression { accept: true, send: self.send }
    }

    /// The same settings, with messages sent gzip-compressed.
    pub fn send_gzip(self) -> (r: Self)
        ensures
            r == (Compression { send: true, ..self }),
    {
        Compression { accept: self.accept, send: true }
    }
}

/// The greatest number of digits in the value of a timeout header.
pub const TIMEOUT_DIGITS: usize = 8;

/// The span of time that a number of units stands for, for the six unit
/// letters of a timeout header: hours, minutes, seconds, milliseconds,
/// microseconds and nanoseconds.
pub open spec fn spec_timeout_of(value: int, unit: char) -> Option<Duration> {
    if unit == 'H' {
        Some(Duration { seconds: (value * 3600) as i64, nanos: 0 })
    } else if unit == 'M' {
        Some(Duration { seconds: (value * 60) as i64, nanos: 0 })
    } else if unit == 'S' {
        Some(Duration { seconds: value as i64, nanos: 0 })
    } else if unit == 'm' {
        Some(Duration { seconds: (value / 1000) as i64, nanos: ((value % 1000) * 1_000_000) as i32 })
    } else if unit == 'u' {
        Some(
            Duration {
                seconds: (value / 1_000_000) as i64,
                nanos: ((value % 1_000_000) * 1000) as i32,
            },
        )
    } else if unit == 'n' {
        Some(
            Duration {
                seconds: (value / 1_000_000_000) as i64,
                nanos: (value % 1_000_000_000) as i32,
            },
        )
    } else {
        None
    }
}

/// The time that a timeout header grants: one to eight digits and a unit
/// letter after them. Any other text grants nothing.
pub open spec fn spec_parse_timeout(s: Seq<char>) -> Option<Duration> {
    if 2 <= s.len() <= TIMEOUT_DIGITS + 1 && all_digits(s.drop_last()) {
        spec_timeout_of(decimal_value(s.drop_last()), s.last())
    } else {
        None
    }
}

/// Ten to a power.
pub open spec fn ten_to(n: nat) -> int
    decreases n,
{
    if n == 0 {
        1
    } else {
        10 * ten_to((n - 1) as nat)
    }
}

/// A text of digits writes a number below ten to the number of its digits.
pub proof fn lemma_digits_bound(s: Seq<char>)
    requires
        all_digits(s),
    ensures
        0 <= decimal_value(s) < ten_to(s.len()),
    decreases s.len(),
{
    if s.len() > 0 {
        let p = s.drop_last();
        assert forall|i: int| 0 <= i < p.len() implies digit_value(#[trigger] p[i]) >= 0 by {
            assert(p[i] == s[i]);
        }
        lemma_digits_bound(p);
        assert(0 <= digit_value(s.last()) <= 9);
    }
}

/// The time that a timeout header grants is a plain duration, and exactly
/// the number of units that the header writes: no unit overflows the
/// seconds, since eight digits stay below a hundred million.
pub proof fn lemma_timeout_is_plain(s: Seq<char>)
    requires
        spec_parse_timeout(s).is_some(),
    ensures
        spec_parse_timeout(s).unwrap().is_plain(),
        0 <= decimal_value(s.drop_last()) < 100_000_000,
        s.last() == 'H' ==> spec_parse_timeout(s).unwrap().seconds == decimal_value(s.drop_last())
            * 3600,
        s.last() == 'M' ==> spec_parse_timeout(s).unwrap().seconds == decimal_value(s.drop_last())
            * 60,
        s.last() == 'S' ==> spec_parse_timeout(s).unwrap().seconds == decimal_value(s.drop_last()),
        s.last() == 'm' ==> spec_parse_timeout(s).unwrap().seconds * 1000 + spec_parse_timeout(
            s,
        ).unwrap().nanos / 1_000_000 == decimal_value(s.drop_last()),
        s.last() == 'u' ==> spec_parse_timeout(s).unwrap().seconds * 1_000_000
            + spec_parse_timeout(s).unwrap().nanos / 1000 == decimal_value(s.drop_last()),
        s.last() == 'n' ==> spec_parse_timeout(s).unwrap().seconds == 0 && spec_parse_timeout(
            s,
        ).unwrap().nanos == decimal_value(s.drop_last()),
{
    let digits = s.drop_last();
    lemma_digits_bound(digits);
    reveal_with_fuel(ten_to, 10);
    lemma_ten_to_grows(digits.len(), 8);
}

/// Ten to a power grows with the power.
pub proof fn lemma_ten_to_grows(a: nat, b: nat)
    requires
        a <= b,
    ensures
        0 < ten_to(a) <= ten_to(b),
    decreases b,
{
    if a < b {
        lemma_ten_to_grows(a, (b - 1) as nat);
    } else if a > 0 {
        lemma_ten_to_grows((a - 1) as nat, (a - 1) as nat);
    }
}

/// Reads the time that a timeout header grants.
pub fn parse_timeout(s: &str) -> (r: Option<Duration>)
    ensures
        r == spec_parse_timeout(s@),
        r.is_some() ==> r.unwrap().is_plain(),
{
    let n = s.unicode_len();
    if n < 2 || n > TIMEOUT_DIGITS + 1 {
        return None;
    }
    let ghost digits = s@.drop_last();
    let mut value: u64 = 0;
    let mut i: usize = 0;
    proof {
        assert(digits.subrange(0, 0) =~= Seq::<char>::empty());
        reveal_with_fuel(ten_to, 10);
    }
    while i < n - 1
        invariant
            n == s@.len(),
            2 <= n <= TIMEOUT_DIGITS + 1,
            digits == s@.drop_last(),
            i <= n - 1,
            all_digits(digits.subrange(0, i as int)),
            value == decimal_value(digits.subrange(0, i as int)),
            value < ten_to(i as nat),
        decreases n - 1 - i,
    {
        let c = s.get_char(i);
        let ghost q = digits.subrange(0, i + 1);
        proof {
            assert(q.drop_last() =~= digits.subrange(0, i as int));
            assert(q.last() == c);
            reveal_with_fuel(ten_to, 10);
        }
        match digit_of(c) {
            None => {
                assert(digit_value(digits[i as int]) < 0);
                return None;
            },
            Some(d) => {
                assert(value < 100_000_000);
                value = value * 10 + d;
                proof {
                    assert forall|j: int| 0 <= j < q.len() implies digit_value(#[trigger] q[j])
                        >= 0 by {
                        if j < i {
                            assert(q[j] == digits.subrange(0, i as int)[j]);
                        }
                    }
                }
            },
        }
        i += 1;
    }
    proof {
        assert(digits.subrange(0, n - 1) =~= digits);
        reveal_with_fuel(ten_to, 10);
        assert(value < 100_000_000);
    }
    let unit = s.get_char(n - 1);
    if unit == 'H' {
        Some(Duration { seconds: (value * 3600) as i64, nanos: 0 })
    } else if unit == 'M' {
        Some(Duration { seconds: (value * 60) as i64, nanos: 0 })
    } else if unit == 'S' {
        Some(Duration { seconds: value as i64, nanos: 0 })
    } else if unit == 'm' {
        Some(Duration { seconds: (value / 1000) as i64, nanos: ((value % 1000) * 1_000_000) as i32 })
    } else if unit == 'u' {
        Some(
            Duration {
                seconds: (value / 1_000_000) as i64,
                nanos: ((value % 1_000_000) * 1000) as i32,
            },
        )
    } else if unit == 'n' {
        Some(
            Duration {
                seconds: (value / 1_000_000_000) as i64,
                nanos: (value % 1_000_000_000) as i32,
            },
        )
    } else {
        None
    }
}

} // verus!
