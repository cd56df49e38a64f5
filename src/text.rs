//! Small text helpers: paths and decimal numbers.
use vstd::prelude::*;
use vstd::string::*;

verus! {

/// The path of the child `k` under the path `p`.
pub open spec fn child_path(p: Seq<char>, k: Seq<char>) -> Seq<char> {
    p + seq!['/'] + k
}

/// The ten decimal digits.
pub open spec fn digit_chars() -> Seq<char> {
    seq!['0', '1', '2', '3', '4', '5', '6', '7', '8', '9']
}

/// The decimal form of `n`, without sign or leading zeros.
pub open spec fn decimal(n: nat) -> Seq<char>
    decreases n,
{
    if n < 10 {
        seq![digit_chars()[n as int]]
    } else {
        decimal(n / 10) + seq![digit_chars()[(n % 10) as int]]
    }
}

/// Builds the path of the child `k` under the path `p`.
pub fn join_path(p: &str, k: &str) -> (r: String)
    ensures
        r@ == child_path(p@, k@),
{
    let mut s = p.to_owned();
    proof {
        reveal_strlit("/");
    }
    s.append("/");
    s.append(k);
    s
}

/// Appends the decimal form of `n` to `s`.
pub fn push_decimal(s: &mut String, n: usize)
    ensures
        final(s)@ == old(s)@ + decimal(n as nat),
    decreases n,
{
    proof {
        reveal_strlit("0123456789");
        assert("0123456789"@ =~= digit_chars());
    }
    if n >= 10 {
        push_decimal(s, n / 10);
    }
    let d: usize = n % 10;
    let t = "0123456789".substring_char(d, d + 1);
    assert(t@ =~= seq![digit_chars()[d as int]]);
    s.append(t);
    proof {
        if n >= 10 {
            assert(final(s)@ =~= old(s)@ + decimal(n as nat));
        }
    }
}

/// Builds the path of the item at index `i` under the path `p`.
pub fn join_index(p: &str, i: usize) -> (r: String)
    ensures
        r@ == child_path(p@, decimal(i as nat)),
{
    let mut s = p.to_owned();
    proof {
        reveal_strlit("/");
    }
    s.append("/");
    push_decimal(&mut s, i);
    assert(s@ =~= child_path(p@, decimal(i as nat)));
    s
}

} // verus!
