//! Decimal numbers in messages.

use vstd::prelude::*;
use vstd::string::StringExecFns;

verus! {

pub open spec fn digit(d: int) -> char {
    ('0' as u32 + d) as char
}

/// The decimal digits of a natural number, without leading zeros.
pub open spec fn digits_of(n: nat) -> Seq<char>
    decreases n,
{
    if n < 10 {
        seq![digit(n as int)]
    } else {
        digits_of(n / 10).push(digit((n % 10) as int))
    }
}

/// The decimal form of an integer.
pub open spec fn decimal_of(n: int) -> Seq<char> {
    if n < 0 {
        seq!['-'] + digits_of((-n) as nat)
    } else {
        digits_of(n as nat)
    }
}

/// The number that a sequence of digits stands for.
pub open spec fn value_of(s: Seq<char>) -> int
    decreases s.len(),
{
    if s.len() == 0 {
        0
    } else {
        10 * value_of(s.drop_last()) + (s.last() as u32 - '0' as u32)
    }
}

/// Digits read back as the number that they were made of.
pub proof fn digits_read_back(n: nat)
    ensures
        digits_of(n).len() > 0,
        value_of(digits_of(n)) == n,
        forall|i: int| 0 <= i < digits_of(n).len() ==> '0' <= #[trigger] digits_of(n)[i] <= '9',
    decreases n,
{
    if n >= 10 {
        digits_read_back(n / 10);
        assert(digits_of(n).drop_last() =~= digits_of(n / 10));
    } else {
        assert(digits_of(n).drop_last() =~= seq![]);
        assert(value_of(digits_of(n).drop_last()) == 0);
    }
}

/// A decimal form reads back as its number: digits, with a minus sign in front of them where
/// the number is below zero and only there.
pub proof fn decimals_read_back(n: int)
    ensures
        decimal_of(n).len() > 0,
        n >= 0 ==> value_of(decimal_of(n)) == n,
        n < 0 ==> decimal_of(n)[0] == '-' && value_of(decimal_of(n).skip(1)) == -n,
        n >= 0 ==> decimal_of(n)[0] != '-',
{
    if n < 0 {
        digits_read_back((-n) as nat);
        assert(decimal_of(n).skip(1) =~= digits_of((-n) as nat));
    } else {
        digits_read_back(n as nat);
        assert('0' <= digits_of(n as nat)[0]);
    }
}

/// The one-character string of a digit.
fn digit_str(d: u64) -> (s: &'static str)
    requires
        d < 10,
    ensures
        s@ == seq![digit(d as int)],
{
    proof {
        reveal_strlit("0");
        reveal_strlit("1");
        reveal_strlit("2");
        reveal_strlit("3");
        reveal_strlit("4");
        reveal_strlit("5");
        reveal_strlit("6");
        reveal_strlit("7");
        reveal_strlit("8");
        reveal_strlit("9");
    }
    let s = match d {
        0 => "0",
        1 => "1",
        2 => "2",
        3 => "3",
        4 => "4",
        5 => "5",
        6 => "6",
        7 => "7",
        8 => "8",
        _ => "9",
    };
    assert(s@ =~= seq![digit(d as int)]);
    s
}

fn digits(n: u64) -> (s: String)
    ensures
        s@ == digits_of(n as nat),
    decreases n,
{
    if n < 10 {
        digit_str(n).to_owned()
    } else {
        let mut s: String = digits(n / 10);
        s.append(digit_str(n % 10));
        assert(s@ =~= digits_of(n as nat));
        s
    }
}

/// The decimal form of an integer.
pub fn decimal(n: i64) -> (s: String)
    requires
        n > i64::MIN,
    ensures
        s@ == decimal_of(n as int),
{
    if n < 0 {
        proof {
            reveal_strlit("-");
        }
        let d: String = digits((-n) as u64);
        let s: String = "-".to_owned().concat(d.as_str());
        assert(s@ =~= decimal_of(n as int));
        s
    } else {
        digits(n as u64)
    }
}

} // verus!
