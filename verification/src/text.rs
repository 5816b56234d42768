//! Texts that hold numbers.
use vstd::prelude::*;
use vstd::string::StringExecFns;

verus! {

/// The decimal digit of `d`.
pub open spec fn digit(d: nat) -> char {
    ('0' as nat + d) as char
}

/// The decimal text of `n`, without leading zeros.
pub open spec fn decimal(n: nat) -> Seq<char>
    decreases n,
{
    if n < 10 {
        seq![digit(n)]
    } else {
        decimal(n / 10).push(digit(n % 10))
    }
}

/// Returns the decimal digit of `d` as a text.
fn digit_text(d: u64) -> (r: &'static str)
    requires
        d < 10,
    ensures
        r@ == seq![digit(d as nat)],
{
    proof {
        reveal_strlit("0");
        reveal_strlit("1");
        reveal_strlit("2");
        reveal_strlit("3");
        reveal_strlit("4");
        reveal_strlit("5");
        reveal_strlit("6");
        reveal_strlit("7");
        reveal_strlit("8");
        reveal_strlit("9");
    }
    let r = match d {
        0 => "0",
        1 => "1",
        2 => "2",
        3 => "3",
        4 => "4",
        5 => "5",
        6 => "6",
        7 => "7",
        8 => "8",
        _ => "9",
    };
    assert(r@ =~= seq![digit(d as nat)]);
    r
}

/// Returns the decimal text of `n`.
pub(crate) fn u64_to_string(n: u64) -> (r: String)
    ensures
        r@ == decimal(n as nat),
    decreases n,
{
    if n < 10 {
        String::from_str(digit_text(n))
    } else {
        let r = u64_to_string(n / 10).concat(digit_text(n % 10));
        assert(r@ =~= decimal(n as nat));
        r
    }
}

/// The text `a`, then `x` in decimal, then `b`, then `y` in decimal.
pub open spec fn two_numbers(a: Seq<char>, x: nat, b: Seq<char>, y: nat) -> Seq<char> {
    a + decimal(x) + b + decimal(y)
}

/// Returns the text `a`, then `x` in decimal, then `b`, then `y` in decimal.
pub(crate) fn join_two_numbers(a: &str, x: usize, b: &str, y: usize) -> (r: String)
    ensures
        r@ == two_numbers(a@, x as nat, b@, y as nat),
{
    let first = u64_to_string(x as u64);
    let second = u64_to_string(y as u64);
    String::from_str(a).concat(first.as_str()).concat(b).concat(second.as_str())
}

/// Returns the text `a`, then `b`.
pub(crate) fn join(a: &str, b: &str) -> (r: String)
    ensures
        r@ == a@ + b@,
{
    String::from_str(a).concat(b)
}

} // verus!
