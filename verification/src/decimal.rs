//! The canonical decimal text of an integer: no leading zeros, and a sign only
//! in front of a negative value.

use vstd::prelude::*;

verus! {

/// The digits of `n`, most significant first, in ASCII.
pub open spec fn digits_of(n: nat) -> Seq<u8>
    decreases n,
{
    if n < 10 {
        seq![(0x30 + n) as u8]
    } else {
        digits_of(n / 10).push((0x30 + n % 10) as u8)
    }
}

/// The decimal text of `value`, in ASCII.
pub open spec fn decimal_text(value: int) -> Seq<u8> {
    if value < 0 {
        seq![0x2du8] + digits_of((-value) as nat)
    } else {
        digits_of(value as nat)
    }
}

/// The number that a sequence of ASCII digits stands for, read as a decimal.
pub open spec fn digits_value(digits: Seq<u8>) -> nat
    decreases digits.len(),
{
    if digits.len() == 0 {
        0
    } else {
        (10 * digits_value(digits.drop_last()) + (digits.last() - 0x30)) as nat
    }
}

/// Whether every byte of `text` is an ASCII digit.
pub open spec fn all_digits(text: Seq<u8>) -> bool {
    forall|i: int| 0 <= i < text.len() ==> 0x30 <= #[trigger] text[i] <= 0x39
}

/// The digits of a number are ASCII digits, at least one, and the first is a
/// zero only where the number is zero.
pub proof fn lemma_digits_shape(n: nat)
    ensures
        digits_of(n).len() >= 1,
        all_digits(digits_of(n)),
        digits_of(n)[0] == 0x30 <==> n == 0,
    decreases n,
{
    if n >= 10 {
        lemma_digits_shape(n / 10);
        let head = digits_of(n / 10);
        assert(digits_of(n)[0] == head[0]);
        assert forall|i: int| 0 <= i < digits_of(n).len() implies 0x30 <= #[trigger] digits_of(
            n,
        )[i] <= 0x39 by {
            if i < head.len() {
                assert(digits_of(n)[i] == head[i]);
            }
        }
    }
}

/// Reading the digits of a number gives the number back.
pub proof fn lemma_digits_round_trip(n: nat)
    ensures
        digits_value(digits_of(n)) == n,
    decreases n,
{
    if n < 10 {
        let one = digits_of(n);
        assert(one.drop_last() =~= Seq::<u8>::empty());
        assert(digits_value(one.drop_last()) == 0);
    } else {
        lemma_digits_round_trip(n / 10);
        let all = digits_of(n);
        assert(all.drop_last() =~= digits_of(n / 10));
    }
}

/// Two numbers with the same decimal text are the same number.
pub proof fn lemma_decimal_text_injective(a: int, b: int)
    requires
        decimal_text(a) == decimal_text(b),
    ensures
        a == b,
{
    lemma_digits_shape(if a < 0 { (-a) as nat } else { a as nat });
    lemma_digits_shape(if b < 0 { (-b) as nat } else { b as nat });
    lemma_digits_round_trip(if a < 0 { (-a) as nat } else { a as nat });
    lemma_digits_round_trip(if b < 0 { (-b) as nat } else { b as nat });
    if a < 0 && b < 0 {
        let da = digits_of((-a) as nat);
        let db = digits_of((-b) as nat);
        assert(decimal_text(a).skip(1) =~= da);
        assert(decimal_text(b).skip(1) =~= db);
    } else if a < 0 {
        assert(decimal_text(a)[0] == 0x2d);
        assert(decimal_text(b)[0] == digits_of(b as nat)[0]);
    } else if b < 0 {
        assert(decimal_text(b)[0] == 0x2d);
        assert(decimal_text(a)[0] == digits_of(a as nat)[0]);
    }
}

/// The decimal text of `value`.
pub fn format_decimal(value: i128) -> (text: Vec<u8>)
    ensures
        text@ == decimal_text(value as int),
{
    let negative = value < 0;
    let magnitude: u128 = if negative {
        (-(value + 1)) as u128 + 1
    } else {
        value as u128
    };
    let mut low: Vec<u8> = Vec::new();
    let mut rest: u128 = magnitude;
    loop
        invariant_except_break
            digits_of(magnitude as nat) == digits_of(rest as nat) + low@.reverse(),
        ensures
            digits_of(magnitude as nat) == low@.reverse(),
        decreases rest,
    {
        let digit: u8 = 0x30 + (rest % 10) as u8;
        let ghost before = low@;
        low.push(digit);
        proof {
            assert(low@.reverse() =~= seq![digit] + before.reverse());
            if rest >= 10 {
                assert(digits_of(rest as nat) == digits_of((rest / 10) as nat).push(digit));
                assert(digits_of((rest / 10) as nat).push(digit) + before.reverse() =~= digits_of(
                    (rest / 10) as nat,
                ) + low@.reverse());
            } else {
                assert(digits_of(rest as nat) =~= seq![digit]);
            }
        }
        if rest < 10 {
            break ;
        }
        rest = rest / 10;
    }
    let mut text: Vec<u8> = Vec::new();
    if negative {
        text.push(0x2d);
    }
    let ghost sign = text@;
    let mut left: usize = low.len();
    while left > 0
        invariant
            left <= low@.len(),
            text@ == sign + low@.reverse().take(low@.len() - left),
        decreases left,
    {
        left = left - 1;
        text.push(low[left]);
        proof {
            let turned = low@.reverse();
            let k = low@.len() - left - 1;
            assert(turned[k] == low@[left as int]);
            assert(turned.take(k + 1) =~= turned.take(k).push(turned[k]));
            assert(text@ =~= sign + turned.take(k + 1));
        }
    }
    proof {
        assert(low@.reverse().take(low@.len() as int) =~= low@.reverse());
        if negative {
            assert(sign =~= seq![0x2du8]);
            assert(magnitude == -(value as int));
        } else {
            assert(sign =~= Seq::<u8>::empty());
            assert(text@ =~= low@.reverse());
        }
    }
    text
}

} // verus!
