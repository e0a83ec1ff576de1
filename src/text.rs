//! Numbers written out as text.
use vstd::prelude::*;
use vstd::string::StrSliceExecFns;
use vstd::string::StringExecFns;

verus! {

/// The decimal digits of `n`, most significant first.
pub open spec fn decimal(n: nat) -> Seq<char>
    decreases n,
{
    if n < 10 {
        seq![digit_char(n)]
    } else {
        decimal(n / 10).push(digit_char(n % 10))
    }
}

pub open spec fn digit_char(d: nat) -> char {
    if d == 0 {
        '0'
    } else if d == 1 {
        '1'
    } else if d == 2 {
        '2'
    } else if d == 3 {
        '3'
    } else if d == 4 {
        '4'
    } else if d == 5 {
        '5'
    } else if d == 6 {
        '6'
    } else if d == 7 {
        '7'
    } else if d == 8 {
        '8'
    } else {
        '9'
    }
}

/// The ten digits, in order.
pub const DIGITS: &'static str = "0123456789";

/// The digit `d` (below 10) as a one-character string.
fn digit_str(d: u64) -> (r: &'static str)
    requires
        d < 10,
    ensures
        r@ == seq![digit_char(d as nat)],
{
    proof {
        reveal_strlit("0123456789");
    }
    let r = DIGITS.substring_char(d as usize, d as usize + 1);
    assert(r@ =~= seq![digit_char(d as nat)]);
    r
}

/// `n` written in decimal digits, with no sign, padding or separator.
pub fn decimal_string(n: u64) -> (r: String)
    ensures
        r@ == decimal(n as nat),
{
    let mut m: u64 = n;
    let mut low_first: Vec<u64> = Vec::new();
    let ghost mut suffix: Seq<char> = Seq::empty();
    while m >= 10
        invariant
            decimal(n as nat) == decimal(m as nat) + suffix,
            suffix.len() == low_first@.len(),
            forall|i: int| 0 <= i < low_first@.len() ==> #[trigger] low_first@[i] < 10,
            forall|i: int|
                0 <= i < suffix.len() ==> #[trigger] suffix[i] == digit_char(
                    low_first@[suffix.len() - 1 - i] as nat,
                ),
        decreases m,
    {
        let d = m % 10;
        let ghost old_low = low_first@;
        let ghost old_suffix = suffix;
        proof {
            assert(decimal(m as nat) == decimal((m / 10) as nat).push(digit_char(d as nat)));
            assert(decimal((m / 10) as nat).push(digit_char(d as nat)) + suffix =~= decimal(
                (m / 10) as nat,
            ) + seq![digit_char(d as nat)].add(suffix));
            suffix = seq![digit_char(d as nat)].add(suffix);
        }
        low_first.push(d);
        m = m / 10;
        assert forall|i: int|
            0 <= i < suffix.len() implies #[trigger] suffix[i] == digit_char(
                low_first@[suffix.len() - 1 - i] as nat,
            ) by {
            if i == 0 {
                assert(low_first@[suffix.len() - 1] == d);
            } else {
                assert(suffix[i] == old_suffix[i - 1]);
                assert(low_first@[suffix.len() - 1 - i] == old_low[old_suffix.len() - 1 - (i - 1)]);
            }
        }
    }
    let mut r = String::new();
    r.append(digit_str(m));
    assert(r@ =~= decimal(m as nat));
    let mut k: usize = low_first.len();
    while k > 0
        invariant
            k <= low_first@.len() == suffix.len(),
            forall|i: int| 0 <= i < low_first@.len() ==> #[trigger] low_first@[i] < 10,
            forall|i: int|
                0 <= i < suffix.len() ==> #[trigger] suffix[i] == digit_char(
                    low_first@[suffix.len() - 1 - i] as nat,
                ),
            r@ == decimal(m as nat) + suffix.subrange(0, suffix.len() - k),
        decreases k,
    {
        k = k - 1;
        assert(low_first@[k as int] < 10);
        assert(suffix[suffix.len() - 1 - k] == digit_char(low_first@[k as int] as nat));
        r.append(digit_str(low_first[k]));
        assert(r@ =~= decimal(m as nat) + suffix.subrange(0, suffix.len() - k));
    }
    assert(suffix.subrange(0, suffix.len() as int) =~= suffix);
    r
}

} // verus!
