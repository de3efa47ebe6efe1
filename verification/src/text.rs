//! Decimal rendering of integers for log lines and labels.

use vstd::prelude::*;
use vstd::string::*;

verus! {

/// The decimal digit `d` (0 to 9) as text.
pub open spec fn spec_digit(d: int) -> Seq<char> {
    if d == 0 {
        "0"@
    } else if d == 1 {
        "1"@
    } else if d == 2 {
        "2"@
    } else if d == 3 {
        "3"@
    } else if d == 4 {
        "4"@
    } else if d == 5 {
        "5"@
    } else if d == 6 {
        "6"@
    } else if d == 7 {
        "7"@
    } else if d == 8 {
        "8"@
    } else {
        "9"@
    }
}

/// Decimal text of a natural number, without leading zeros.
pub open spec fn spec_nat_str(n: nat) -> Seq<char>
    decreases n,
{
    if n < 10 {
        spec_digit(n as int)
    } else {
        spec_nat_str(n / 10) + spec_digit((n % 10) as int)
    }
}

/// Decimal text of an integer, as `{}` formats it.
pub open spec fn spec_int_str(n: int) -> Seq<char> {
    if n < 0 {
        "-"@ + spec_nat_str((-n) as nat)
    } else {
        spec_nat_str(n as nat)
    }
}

/// Decimal text of an integer with an explicit sign, as `{:+}` formats it.
pub open spec fn spec_signed_str(n: int) -> Seq<char> {
    if n < 0 {
        spec_int_str(n)
    } else {
        "+"@ + spec_nat_str(n as nat)
    }
}

fn digit_str(d: u64) -> (r: &'static str)
    requires
        d < 10,
    ensures
        r@ == spec_digit(d as int),
{
    if d == 0 {
        "0"
    } else if d == 1 {
        "1"
    } else if d == 2 {
        "2"
    } else if d == 3 {
        "3"
    } else if d == 4 {
        "4"
    } else if d == 5 {
        "5"
    } else if d == 6 {
        "6"
    } else if d == 7 {
        "7"
    } else if d == 8 {
        "8"
    } else {
        "9"
    }
}

/// Decimal text of an unsigned number.
pub fn u64_to_string(n: u64) -> (r: String)
    ensures
        r@ == spec_nat_str(n as nat),
    decreases n,
{
    if n < 10 {
        String::from_str(digit_str(n))
    } else {
        let mut s = u64_to_string(n / 10);
        s.append(digit_str(n % 10));
        s
    }
}

/// Decimal text of a signed number.
pub fn i64_to_string(n: i64) -> (r: String)
    ensures
        r@ == spec_int_str(n as int),
{
    if n < 0 {
        let m: u64 = if n == i64::MIN {
            9223372036854775808u64
        } else {
            (-n) as u64
        };
        let s = u64_to_string(m);
        let mut r = String::from_str("-");
        r.append(s.as_str());
        r
    } else {
        u64_to_string(n as u64)
    }
}

/// Decimal text of a signed number with an explicit `+` on non-negatives.
pub fn i64_to_signed_string(n: i64) -> (r: String)
    ensures
        r@ == spec_signed_str(n as int),
{
    if n < 0 {
        i64_to_string(n)
    } else {
        let s = u64_to_string(n as u64);
        let mut r = String::from_str("+");
        r.append(s.as_str());
        r
    }
}

/// Concatenation of text pieces into a new string.
pub fn concat_strs(parts: &[&str]) -> (r: String)
    ensures
        r@ == spec_concat(parts@.map_values(|p: &str| p@)),
{
    let mut r = String::new();
    let mut i: usize = 0;
    while i < parts.len()
        invariant
            i <= parts@.len(),
            r@ == spec_concat(parts@.map_values(|p: &str| p@).take(i as int)),
        decreases parts@.len() - i,
    {
        r.append(parts[i]);
        proof {
            let m = parts@.map_values(|p: &str| p@);
            assert(m.take(i + 1).drop_last() == m.take(i as int));
        }
        i = i + 1;
    }
    proof {
        let m = parts@.map_values(|p: &str| p@);
        assert(m.take(parts@.len() as int) == m);
    }
    r
}

/// Concatenation of a sequence of texts.
pub open spec fn spec_concat(s: Seq<Seq<char>>) -> Seq<char>
    decreases s.len(),
{
    if s.len() == 0 {
        Seq::empty()
    } else {
        spec_concat(s.drop_last()) + s.last()
    }
}

} // verus!
