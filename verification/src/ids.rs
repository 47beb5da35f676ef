//! Transaction identifiers for protocol requests.

use vstd::prelude::*;
use vstd::arithmetic::div_mod::lemma_fundamental_div_mod;
use vstd::string::StringExecFns;

verus! {

/// The character of one decimal digit.
pub open spec fn digit_char(d: nat) -> char {
    if d == 0 {
        '0'
    } else if d == 1 {
        '1'
    } else if d == 2 {
        '2'
    } else if d == 3 {
        '3'
    } else if d == 4 {
        '4'
    } else if d == 5 {
        '5'
    } else if d == 6 {
        '6'
    } else if d == 7 {
        '7'
    } else if d == 8 {
        '8'
    } else {
        '9'
    }
}

/// The decimal digits of `n`, most significant first, no leading zeros.
pub open spec fn spec_decimal(n: nat) -> Seq<char>
    decreases n,
{
    if n < 10 {
        seq![digit_char(n)]
    } else {
        spec_decimal(n / 10) + seq![digit_char(n % 10)]
    }
}

/// Every decimal form has at least one digit.
proof fn lemma_decimal_len(n: nat)
    ensures
        spec_decimal(n).len() >= 1,
{
}

/// Distinct numbers have distinct decimal forms: identifiers formed from a
/// counter that never repeats a value never collide.
pub proof fn lemma_decimal_injective(a: nat, b: nat)
    requires
        a != b,
    ensures
        spec_decimal(a) != spec_decimal(b),
    decreases a + b,
{
    let sa = spec_decimal(a);
    let sb = spec_decimal(b);
    if a < 10 && b < 10 {
        assert(digit_char(a) != digit_char(b));
        assert(sa[0] != sb[0]);
    } else if a < 10 {
        lemma_decimal_len(b / 10);
        assert(sb.len() >= 2 && sa.len() == 1);
    } else if b < 10 {
        lemma_decimal_len(a / 10);
        assert(sa.len() >= 2 && sb.len() == 1);
    } else {
        if sa == sb {
            assert(sa.last() == digit_char(a % 10));
            assert(sb.last() == digit_char(b % 10));
            if a % 10 == b % 10 {
                assert(a / 10 != b / 10) by {
                    lemma_fundamental_div_mod(a as int, 10);
                    lemma_fundamental_div_mod(b as int, 10);
                }
                lemma_decimal_injective(a / 10, b / 10);
                assert(sa.drop_last() =~= spec_decimal(a / 10));
                assert(sb.drop_last() =~= spec_decimal(b / 10));
                assert(false);
            } else {
                assert(digit_char(a % 10) != digit_char(b % 10));
                assert(false);
            }
        }
    }
}

/// Append the decimal digits of `n`.
fn push_decimal(s: &mut String, n: u64)
    ensures
        final(s)@ == old(s)@ + spec_decimal(n as nat),
    decreases n,
{
    if n >= 10 {
        push_decimal(s, n / 10);
    }
    let d = n % 10;
    proof {
        reveal_strlit("0");
        reveal_strlit("1");
        reveal_strlit("2");
        reveal_strlit("3");
        reveal_strlit("4");
        reveal_strlit("5");
        reveal_strlit("6");
        reveal_strlit("7");
        reveal_strlit("8");
        reveal_strlit("9");
    }
    if d == 0 {
        s.append("0");
    } else if d == 1 {
        s.append("1");
    } else if d == 2 {
        s.append("2");
    } else if d == 3 {
        s.append("3");
    } else if d == 4 {
        s.append("4");
    } else if d == 5 {
        s.append("5");
    } else if d == 6 {
        s.append("6");
    } else if d == 7 {
        s.append("7");
    } else if d == 8 {
        s.append("8");
    } else {
        s.append("9");
    }
    proof {
        assert(s@ =~= old(s)@ + spec_decimal(n as nat));
    }
}

/// A counter handing out one fresh identifier per protocol request.
pub struct TransactionIds {
    pub next: u64,
}

impl TransactionIds {
    /// The value the next identifier is formed from.
    pub open spec fn counter(&self) -> u64 {
        self.next
    }

    /// A counter starting at one.
    pub fn new() -> (r: TransactionIds)
        ensures
            r.counter() == 1,
    {
        TransactionIds { next: 1 }
    }

    /// The next identifier: the counter's decimal digits.  Each call uses
    /// the current value and moves the counter on, so no identifier is
    /// handed out twice.
    pub fn next_id(&mut self) -> (r: String)
        requires
            old(self).counter() < u64::MAX,
        ensures
            final(self).counter() == old(self).counter() + 1,
            r@ == spec_decimal(old(self).counter() as nat),
    {
        let mut s = String::new();
        push_decimal(&mut s, self.next);
        self.next = self.next + 1;
        proof {
            assert(s@ =~= spec_decimal(old(self).counter() as nat));
        }
        s
    }
}

} // verus!
