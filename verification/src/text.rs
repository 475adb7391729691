//! Numbers as text: the decimal digits of a power of two, however large.

use vstd::prelude::*;
use vstd::arithmetic::power2::{pow2, lemma_pow2_unfold, lemma2_to64};

verus! {

/// The character of a decimal digit.
pub open spec fn digit(d: nat) -> char {
    if d == 0 {
        '0'
    } else if d == 1 {
        '1'
    } else if d == 2 {
        '2'
    } else if d == 3 {
        '3'
    } else if d == 4 {
        '4'
    } else if d == 5 {
        '5'
    } else if d == 6 {
        '6'
    } else if d == 7 {
        '7'
    } else if d == 8 {
        '8'
    } else {
        '9'
    }
}

/// A number written in decimal, without leading zeros.
pub open spec fn decimal(n: nat) -> Seq<char>
    decreases n,
{
    if n < 10 {
        seq![digit(n)]
    } else {
        decimal(n / 10).push(digit(n % 10))
    }
}

/// The number that decimal digits stand for, the lowest digit first.
pub open spec fn digits_value(digits: Seq<u8>) -> nat
    decreases digits.len(),
{
    if digits.len() == 0 {
        0
    } else {
        digits[0] as nat + 10 * digits_value(digits.skip(1))
    }
}

/// Digits, the lowest first, as a number is written: at least one, each
/// below ten, the highest not zero.
pub open spec fn plain_digits(digits: Seq<u8>) -> bool {
    &&& digits.len() > 0
    &&& digits.last() != 0
    &&& forall|i: int| 0 <= i < digits.len() ==> digits[i] < 10
}

/// The digits of twice a number plus a carry, the lowest digit first.
pub open spec fn doubled(digits: Seq<u8>, carry: nat) -> Seq<u8>
    decreases digits.len(),
{
    if digits.len() == 0 {
        if carry > 0 {
            seq![carry as u8]
        } else {
            Seq::empty()
        }
    } else {
        let sum = 2 * digits[0] + carry;
        seq![(sum % 10) as u8] + doubled(digits.skip(1), (sum / 10) as nat)
    }
}

/// Digits given lowest first, written as text: highest first.
pub open spec fn digits_text(digits: Seq<u8>) -> Seq<char> {
    Seq::new(digits.len(), |i: int| digit(digits[digits.len() - 1 - i] as nat))
}

/// Doubling digits doubles the number they stand for and leaves digits as
/// a number is written.
pub proof fn lemma_doubled(digits: Seq<u8>, carry: nat)
    requires
        carry <= 1,
        forall|i: int| 0 <= i < digits.len() ==> digits[i] < 10,
    ensures
        digits_value(doubled(digits, carry)) == 2 * digits_value(digits) + carry,
        forall|i: int|
            0 <= i < doubled(digits, carry).len() ==> (#[trigger] doubled(digits, carry)[i]) < 10,
        doubled(digits, carry).len() >= digits.len(),
        digits.len() > 0 && digits.last() != 0 ==> doubled(digits, carry).last() != 0,
    decreases digits.len(),
{
    let out = doubled(digits, carry);
    if digits.len() == 0 {
        if carry > 0 {
            assert(out.skip(1) =~= Seq::<u8>::empty());
            assert(digits_value(out.skip(1)) == 0);
        }
    } else {
        let sum = 2 * digits[0] + carry;
        let rest = digits.skip(1);
        let tail = doubled(rest, (sum / 10) as nat);
        assert forall|i: int| 0 <= i < rest.len() implies rest[i] < 10 by {
            assert(rest[i] == digits[i + 1]);
        }
        lemma_doubled(rest, (sum / 10) as nat);
        assert(out.skip(1) =~= tail);
        assert(out[0] == (sum % 10) as u8);
        assert(digits_value(out) == sum % 10 + 10 * digits_value(tail));
        assert(digits_value(digits) == digits[0] + 10 * digits_value(rest));
        assert forall|i: int| 0 <= i < out.len() implies (#[trigger] out[i]) < 10 by {
            if i > 0 {
                assert(out[i] == tail[i - 1]);
            }
        }
        if digits.last() != 0 {
            if rest.len() > 0 {
                assert(rest.last() == digits.last());
                assert(out.last() == tail.last());
            } else {
                assert(digits[0] == digits.last());
                if sum / 10 > 0 {
                    assert(out.last() == tail.last());
                }
            }
        }
    }
}

/// Digits that end in a digit other than zero stand for a number other
/// than zero.
pub proof fn lemma_digits_value_positive(digits: Seq<u8>)
    requires
        digits.len() > 0,
        digits.last() != 0,
    ensures
        digits_value(digits) > 0,
    decreases digits.len(),
{
    if digits.len() > 1 {
        assert(digits.skip(1).last() == digits.last());
        lemma_digits_value_positive(digits.skip(1));
    }
}

/// Digits as a number is written, read highest first, are the number
/// written in decimal.
pub proof fn lemma_digits_text(digits: Seq<u8>)
    requires
        plain_digits(digits),
    ensures
        digits_text(digits) == decimal(digits_value(digits)),
    decreases digits.len(),
{
    let rest = digits.skip(1);
    if digits.len() == 1 {
        assert(digits_value(rest) == 0);
        assert(digits_text(digits) =~= seq![digit(digits[0] as nat)]);
    } else {
        assert(rest.last() == digits.last());
        assert forall|i: int| 0 <= i < rest.len() implies rest[i] < 10 by {
            assert(rest[i] == digits[i + 1]);
        }
        lemma_digits_value_positive(rest);
        lemma_digits_text(rest);
        let n = digits_value(digits);
        assert(n / 10 == digits_value(rest) && n % 10 == digits[0]);
        assert(digits_text(digits) =~= digits_text(rest).push(digit(digits[0] as nat)));
    }
}

/// Doubles a number given by its digits, the lowest first.
pub fn double_digits(digits: &Vec<u8>) -> (out: Vec<u8>)
    requires
        plain_digits(digits@),
    ensures
        plain_digits(out@),
        digits_value(out@) == 2 * digits_value(digits@),
{
    let mut out: Vec<u8> = Vec::new();
    let mut carry: u8 = 0;
    let mut i: usize = 0;
    proof {
        assert(digits@.skip(0) =~= digits@);
        assert(out@ + doubled(digits@, 0) =~= doubled(digits@, 0));
    }
    while i < digits.len()
        invariant
            i <= digits.len(),
            carry <= 1,
            forall|j: int| 0 <= j < digits.len() ==> digits[j] < 10,
            doubled(digits@, 0) == out@ + doubled(digits@.skip(i as int), carry as nat),
        decreases digits.len() - i,
    {
        let ghost rest = digits@.skip(i as int);
        let sum = 2 * digits[i] + carry;
        proof {
            assert(rest[0] == digits[i as int]);
            assert(rest.skip(1) =~= digits@.skip(i + 1));
            assert(out@.push(sum % 10) + doubled(rest.skip(1), (sum / 10) as nat) =~= out@ + (
            seq![sum % 10] + doubled(rest.skip(1), (sum / 10) as nat)));
        }
        out.push(sum % 10);
        carry = sum / 10;
        i += 1;
    }
    proof {
        assert(digits@.skip(digits.len() as int) =~= Seq::<u8>::empty());
    }
    if carry > 0 {
        out.push(carry);
    }
    proof {
        assert(out@ =~= doubled(digits@, 0));
        lemma_doubled(digits@, 0);
    }
    out
}

/// The digits of two to the given power, the lowest first.
pub fn power_digits(power: u8) -> (digits: Vec<u8>)
    ensures
        plain_digits(digits@),
        digits_value(digits@) == pow2(power as nat),
{
    let mut digits: Vec<u8> = Vec::new();
    digits.push(1);
    let mut i: u8 = 0;
    proof {
        lemma2_to64();
        assert(digits@.skip(1) =~= Seq::<u8>::empty());
        assert(digits_value(digits@.skip(1)) == 0);
    }
    while i < power
        invariant
            i <= power,
            plain_digits(digits@),
            digits_value(digits@) == pow2(i as nat),
        decreases power - i,
    {
        proof {
            lemma_pow2_unfold((i + 1) as nat);
        }
        digits = double_digits(&digits);
        i += 1;
    }
    digits
}

/// The text of one decimal digit.
pub fn digit_text(d: u8) -> (text: &'static str)
    requires
        d < 10,
    ensures
        text@ == seq![digit(d as nat)],
{
    proof {
        reveal_strlit("0");
        reveal_strlit("1");
        reveal_strlit("2");
        reveal_strlit("3");
        reveal_strlit("4");
        reveal_strlit("5");
        reveal_strlit("6");
        reveal_strlit("7");
        reveal_strlit("8");
        reveal_strlit("9");
    }
    let text = match d {
        0 => "0",
        1 => "1",
        2 => "2",
        3 => "3",
        4 => "4",
        5 => "5",
        6 => "6",
        7 => "7",
        8 => "8",
        _ => "9",
    };
    assert(text@ =~= seq![digit(d as nat)]);
    text
}

/// Two to the given power, written in decimal.
pub fn power_text(power: u8) -> (text: String)
    ensures
        text@ == decimal(pow2(power as nat)),
{
    let digits = power_digits(power);
    let mut text = String::new();
    let mut left: usize = digits.len();
    while left > 0
        invariant
            left <= digits.len(),
            plain_digits(digits@),
            text@ == digits_text(digits@).take(digits.len() - left),
        decreases left,
    {
        left -= 1;
        let piece = digit_text(digits[left]);
        text.append(piece);
        assert(text@ =~= digits_text(digits@).take(digits.len() - left));
    }
    proof {
        assert(digits_text(digits@).take(digits.len() as int) =~= digits_text(digits@));
        lemma_digits_text(digits@);
    }
    text
}

} // verus!
