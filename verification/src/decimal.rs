//! Decimal numerals: how identifiers are written into names and page tokens,
//! and how they are read back.

use vstd::prelude::*;
use vstd::string::*;

verus! {

/// The character of one decimal digit.
pub open spec fn digit_char(d: int) -> char {
    if d == 0 {
        '0'
    } else if d == 1 {
        '1'
    } else if d == 2 {
        '2'
    } else if d == 3 {
        '3'
    } else if d == 4 {
        '4'
    } else if d == 5 {
        '5'
    } else if d == 6 {
        '6'
    } else if d == 7 {
        '7'
    } else if d == 8 {
        '8'
    } else {
        '9'
    }
}

/// The digit that a character writes, or -1 for any other character.
pub open spec fn digit_value(c: char) -> int {
    if c == '0' {
        0
    } else if c == '1' {
        1
    } else if c == '2' {
        2
    } else if c == '3' {
        3
    } else if c == '4' {
        4
    } else if c == '5' {
        5
    } else if c == '6' {
        6
    } else if c == '7' {
        7
    } else if c == '8' {
        8
    } else if c == '9' {
        9
    } else {
        -1
    }
}

/// The decimal numeral of a natural number: no sign, no leading zero.
pub open spec fn decimal(n: nat) -> Seq<char>
    decreases n,
{
    if n < 10 {
        seq![digit_char(n as int)]
    } else {
        decimal(n / 10).push(digit_char((n % 10) as int))
    }
}

/// Whether every character of the text is a decimal digit.
pub open spec fn all_digits(s: Seq<char>) -> bool {
    forall|i: int| 0 <= i < s.len() ==> digit_value(#[trigger] s[i]) >= 0
}

/// Whether the text is a decimal numeral: digits only, at least one, and no
/// leading zero but in the numeral of zero itself.
pub open spec fn is_decimal(s: Seq<char>) -> bool {
    &&& s.len() > 0
    &&& all_digits(s)
    &&& (s.len() == 1 || s[0] != '0')
}

/// The number that a text of digits writes.
pub open spec fn decimal_value(s: Seq<char>) -> int
    decreases s.len(),
{
    if s.len() == 0 {
        0
    } else {
        decimal_value(s.drop_last()) * 10 + digit_value(s.last())
    }
}

/// A numeral is a decimal text and writes the number it was made from.
pub proof fn lemma_decimal_round_trip(n: nat)
    ensures
        is_decimal(decimal(n)),
        decimal_value(decimal(n)) == n,
        n > 0 ==> decimal(n)[0] != '0',
    decreases n,
{
    if n < 10 {
        let s = decimal(n);
        assert(s.drop_last() =~= Seq::<char>::empty());
        assert(decimal_value(s.drop_last()) == 0);
        assert(s.last() == digit_char(n as int));
    } else {
        lemma_decimal_round_trip(n / 10);
        let p = decimal(n / 10);
        let s = decimal(n);
        assert(s.drop_last() =~= p);
        assert(s.last() == digit_char((n % 10) as int));
        assert(s[0] == p[0]);
        assert forall|i: int| 0 <= i < s.len() implies digit_value(#[trigger] s[i]) >= 0 by {
            if i < p.len() {
                assert(s[i] == p[i]);
            }
        }
    }
}

/// Two numbers with the same numeral are the same number.
pub proof fn lemma_decimal_injective(a: nat, b: nat)
    requires
        decimal(a) == decimal(b),
    ensures
        a == b,
{
    lemma_decimal_round_trip(a);
    lemma_decimal_round_trip(b);
}

/// A decimal text is the numeral of the number it writes.
pub proof fn lemma_decimal_of_value(s: Seq<char>)
    requires
        is_decimal(s),
    ensures
        decimal_value(s) >= 0,
        decimal(decimal_value(s) as nat) == s,
        s[0] != '0' ==> decimal_value(s) > 0,
    decreases s.len(),
{
    if s.len() == 1 {
        assert(s.drop_last() =~= Seq::<char>::empty());
        assert(decimal_value(s.drop_last()) == 0);
        assert(decimal_value(s) == digit_value(s[0]));
        assert(decimal(decimal_value(s) as nat) =~= s);
    } else {
        let p = s.drop_last();
        assert(is_decimal(p)) by {
            assert forall|i: int| 0 <= i < p.len() implies digit_value(#[trigger] p[i]) >= 0 by {
                assert(p[i] == s[i]);
            }
            assert(p[0] == s[0]);
        }
        lemma_decimal_of_value(p);
        let v = decimal_value(p);
        let d = digit_value(s.last());
        assert(0 <= d <= 9);
        assert(v > 0);
        let n = (v * 10 + d) as nat;
        assert(n >= 10);
        assert(n / 10 == v);
        assert(n % 10 == d);
        assert(digit_char(d) == s.last());
        assert(decimal(n) =~= s);
    }
}

/// The value of a text of digits is never below the value of one of its
/// prefixes.
pub proof fn lemma_prefix_value(s: Seq<char>, k: int)
    requires
        all_digits(s),
        0 <= k <= s.len(),
    ensures
        0 <= decimal_value(s.subrange(0, k)) <= decimal_value(s),
    decreases s.len() - k,
{
    if k == s.len() {
        assert(s.subrange(0, k) =~= s);
        lemma_value_non_negative(s);
    } else {
        lemma_prefix_value(s, k + 1);
        let q = s.subrange(0, k + 1);
        assert(q.drop_last() =~= s.subrange(0, k));
        assert(q.last() == s[k]);
        assert(all_digits(s.subrange(0, k))) by {
            assert forall|i: int| 0 <= i < k implies digit_value(
                #[trigger] s.subrange(0, k)[i],
            ) >= 0 by {
                assert(s.subrange(0, k)[i] == s[i]);
            }
        }
        lemma_value_non_negative(s.subrange(0, k));
    }
}

/// A text of digits writes no negative number.
pub proof fn lemma_value_non_negative(s: Seq<char>)
    requires
        all_digits(s),
    ensures
        decimal_value(s) >= 0,
    decreases s.len(),
{
    if s.len() > 0 {
        let p = s.drop_last();
        assert forall|i: int| 0 <= i < p.len() implies digit_value(#[trigger] p[i]) >= 0 by {
            assert(p[i] == s[i]);
        }
        lemma_value_non_negative(p);
        assert(digit_value(s.last()) >= 0);
    }
}

/// The one-character text of a decimal digit.
fn digit_text(d: u64) -> (r: &'static str)
    requires
        d < 10,
    ensures
        r@ == seq![digit_char(d as int)],
{
    proof {
        reveal_strlit("0");
        reveal_strlit("1");
        reveal_strlit("2");
        reveal_strlit("3");
        reveal_strlit("4");
        reveal_strlit("5");
        reveal_strlit("6");
        reveal_strlit("7");
        reveal_strlit("8");
        reveal_strlit("9");
    }
    let r = if d == 0 {
        "0"
    } else if d == 1 {
        "1"
    } else if d == 2 {
        "2"
    } else if d == 3 {
        "3"
    } else if d == 4 {
        "4"
    } else if d == 5 {
        "5"
    } else if d == 6 {
        "6"
    } else if d == 7 {
        "7"
    } else if d == 8 {
        "8"
    } else {
        "9"
    };
    assert(r@ =~= seq![digit_char(d as int)]);
    r
}

/// The digit that a character writes, if it writes one.
pub fn digit_of(c: char) -> (r: Option<u64>)
    ensures
        match r {
            Some(d) => d < 10 && digit_value(c) == d,
            None => digit_value(c) == -1,
        },
{
    if c == '0' {
        Some(0)
    } else if c == '1' {
        Some(1)
    } else if c == '2' {
        Some(2)
    } else if c == '3' {
        Some(3)
    } else if c == '4' {
        Some(4)
    } else if c == '5' {
        Some(5)
    } else if c == '6' {
        Some(6)
    } else if c == '7' {
        Some(7)
    } else if c == '8' {
        Some(8)
    } else if c == '9' {
        Some(9)
    } else {
        None
    }
}

/// Writes a number as its decimal numeral.
pub fn format_decimal(n: u64) -> (r: String)
    ensures
        r@ == decimal(n as nat),
    decreases n,
{
    if n < 10 {
        String::from_str(digit_text(n))
    } else {
        let mut s = format_decimal(n / 10);
        s.append(digit_text(n % 10));
        assert(s@ =~= decimal(n as nat));
        s
    }
}

/// What reading a text as a decimal numeral gives: the number it writes,
/// where the text is a numeral and the number fits in 64 bits.
pub open spec fn spec_parse_decimal(s: Seq<char>) -> Option<u64> {
    if is_decimal(s) && decimal_value(s) <= u64::MAX {
        Some(decimal_value(s) as u64)
    } else {
        None
    }
}

/// Reads a decimal numeral. Signs, spaces, leading zeros, other characters
/// and numbers beyond 64 bits are refused.
pub fn parse_decimal(s: &str) -> (r: Option<u64>)
    ensures
        r == spec_parse_decimal(s@),
{
    let n = s.unicode_len();
    if n == 0 {
        return None;
    }
    if n > 1 && s.get_char(0) == '0' {
        return None;
    }
    let mut acc: u64 = 0;
    let mut i: usize = 0;
    proof {
        assert(s@.subrange(0, 0) =~= Seq::<char>::empty());
    }
    while i < n
        invariant
            n == s@.len(),
            n > 0,
            n == 1 || s@[0] != '0',
            i <= n,
            all_digits(s@.subrange(0, i as int)),
            acc == decimal_value(s@.subrange(0, i as int)),
        decreases n - i,
    {
        let c = s.get_char(i);
        let ghost q = s@.subrange(0, i + 1);
        proof {
            assert(q.drop_last() =~= s@.subrange(0, i as int));
            assert(q.last() == c);
        }
        match digit_of(c) {
            None => {
                assert(!all_digits(s@));
                return None;
            },
            Some(d) => {
                if acc > (u64::MAX - d) / 10 {
                    proof {
                        if is_decimal(s@) {
                            lemma_prefix_value(s@, i + 1);
                        }
                    }
                    return None;
                }
                acc = acc * 10 + d;
                proof {
                    assert forall|j: int| 0 <= j < q.len() implies digit_value(#[trigger] q[j])
                        >= 0 by {
                        if j < i {
                            assert(q[j] == s@.subrange(0, i as int)[j]);
                        }
                    }
                }
            },
        }
        i += 1;
    }
    proof {
        assert(s@.subrange(0, n as int) =~= s@);
    }
    Some(acc)
}

/// Reading a numeral gives back the number that was written.
pub proof fn lemma_parse_format(n: u64)
    ensures
        spec_parse_decimal(decimal(n as nat)) == Some(n),
{
    lemma_decimal_round_trip(n as nat);
}

/// A text is read as a number exactly when it is that number's numeral.
pub proof fn lemma_parse_is_numeral(s: Seq<char>, n: u64)
    ensures
        spec_parse_decimal(s) == Some(n) <==> s == decimal(n as nat),
{
    if s == decimal(n as nat) {
        lemma_decimal_round_trip(n as nat);
    }
    if spec_parse_decimal(s) == Some(n) {
        lemma_decimal_of_value(s);
    }
}

} // verus!
