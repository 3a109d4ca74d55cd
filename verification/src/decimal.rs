//! Decimal notation for integers, as text.
use vstd::prelude::*;
use vstd::arithmetic::power2::{pow2, lemma_pow2_pos, lemma_pow2_unfold, lemma2_to64};

verus! {

/// The character that writes the digit `d`.
pub open spec fn digit_char(d: int) -> char
    recommends
        0 <= d < 10,
{
    if d == 0 {
        '0'
    } else if d == 1 {
        '1'
    } else if d == 2 {
        '2'
    } else if d == 3 {
        '3'
    } else if d == 4 {
        '4'
    } else if d == 5 {
        '5'
    } else if d == 6 {
        '6'
    } else if d == 7 {
        '7'
    } else if d == 8 {
        '8'
    } else {
        '9'
    }
}

/// The decimal notation of a natural number: its digits from the most
/// significant one down, with no leading zero; zero is written `0`.
pub open spec fn decimal(n: nat) -> Seq<char>
    decreases n,
{
    if n < 10 {
        seq![digit_char(n as int)]
    } else {
        decimal(n / 10).push(digit_char((n % 10) as int))
    }
}

/// The decimal notation of an integer: a minus sign in front of the notation
/// of its absolute value where it is negative.
pub open spec fn signed_decimal(n: int) -> Seq<char> {
    if n < 0 {
        seq!['-'] + decimal((-n) as nat)
    } else {
        decimal(n as nat)
    }
}

/// The one-character text for a digit.
pub fn digit_text(d: u8) -> (text: &'static str)
    requires
        d < 10,
    ensures
        text@ == seq![digit_char(d as int)],
{
    let text = match d {
        0 => "0",
        1 => "1",
        2 => "2",
        3 => "3",
        4 => "4",
        5 => "5",
        6 => "6",
        7 => "7",
        8 => "8",
        _ => "9",
    };
    proof {
        reveal_strlit("0");
        reveal_strlit("1");
        reveal_strlit("2");
        reveal_strlit("3");
        reveal_strlit("4");
        reveal_strlit("5");
        reveal_strlit("6");
        reveal_strlit("7");
        reveal_strlit("8");
        reveal_strlit("9");
    }
    text
}

/// Appends the decimal notation of `n` to `out`.
pub fn append_decimal(out: &mut String, n: u64)
    ensures
        final(out)@ == old(out)@ + decimal(n as nat),
    decreases n,
{
    if n >= 10 {
        append_decimal(out, n / 10);
    }
    out.append(digit_text((n % 10) as u8));
}

/// Appends the decimal notation of `n`, with its sign, to `out`.
pub fn append_signed_decimal(out: &mut String, n: i64)
    ensures
        final(out)@ == old(out)@ + signed_decimal(n as int),
{
    if n < 0 {
        out.append("-");
        proof {
            reveal_strlit("-");
        }
        let magnitude: u64 = if n == i64::MIN {
            0x8000_0000_0000_0000u64
        } else {
            (-n) as u64
        };
        append_decimal(out, magnitude);
    } else {
        append_decimal(out, n as u64);
    }
}

/// The decimal notation of `n`, with its sign.
pub fn decimal_text(n: i64) -> (text: String)
    ensures
        text@ == signed_decimal(n as int),
{
    let mut text = String::new();
    append_signed_decimal(&mut text, n);
    text
}

/// The digits of a natural number from the least significant one up, with no
/// zero on top; zero has no digit.
pub open spec fn digits_le(n: nat) -> Seq<u8>
    decreases n,
{
    if n == 0 {
        Seq::empty()
    } else {
        seq![(n % 10) as u8] + digits_le(n / 10)
    }
}

/// What doubling does to digits that stand least significant first, with
/// `carry` coming in from below.
pub open spec fn doubled_digits(digits: Seq<u8>, carry: int) -> Seq<u8>
    decreases digits.len(),
{
    if digits.len() == 0 {
        if carry == 0 {
            Seq::empty()
        } else {
            seq![carry as u8]
        }
    } else {
        let sum = 2 * digits[0] + carry;
        seq![(sum % 10) as u8] + doubled_digits(digits.drop_first(), sum / 10)
    }
}

/// Every digit of a number is below ten, and the topmost is not zero.
pub proof fn lemma_digits_le_shape(n: nat)
    ensures
        forall|i: int| 0 <= i < digits_le(n).len() ==> #[trigger] digits_le(n)[i] < 10,
        n > 0 ==> digits_le(n).len() > 0 && digits_le(n).last() != 0,
    decreases n,
{
    if n > 0 {
        lemma_digits_le_shape(n / 10);
        let low = seq![(n % 10) as u8];
        let high = digits_le(n / 10);
        let all = digits_le(n);
        assert(all == low + high);
        assert forall|i: int| 0 <= i < all.len() implies #[trigger] all[i] < 10 by {
            if i > 0 {
                assert(all[i] == high[i - 1]);
            }
        }
        if n / 10 > 0 {
            assert(all.last() == high.last());
        }
    }
}

/// Doubling the digits of `n` with a carry of zero or one gives the digits of
/// `2 * n + carry`.
pub proof fn lemma_doubled_digits(n: nat, carry: int)
    requires
        0 <= carry <= 1,
    ensures
        doubled_digits(digits_le(n), carry) == digits_le((2 * n + carry) as nat),
    decreases n,
{
    if n == 0 {
        if carry == 1 {
            assert(digits_le(1) =~= seq![1u8] + digits_le(0));
            assert(doubled_digits(digits_le(0), 1) =~= digits_le(1));
        }
    } else {
        let low = (n % 10) as int;
        let high = n / 10;
        let sum = 2 * low + carry;
        let digits = digits_le(n);
        let twice = (2 * n + carry) as nat;
        assert(digits == seq![low as u8] + digits_le(high));
        assert(digits[0] == low);
        assert(digits.drop_first() =~= digits_le(high));
        lemma_doubled_digits(high, sum / 10);
        lemma_split_twice(n, carry);
        assert(digits_le(twice) == seq![(twice % 10) as u8] + digits_le(twice / 10));
        assert(doubled_digits(digits, carry) == seq![(sum % 10) as u8] + doubled_digits(
            digits.drop_first(),
            sum / 10,
        ));
    }
}

/// How the last digit and the rest of `2 * n + carry` come from those of `n`.
proof fn lemma_split_twice(n: nat, carry: int)
    requires
        0 <= carry <= 1,
    ensures
        (2 * n + carry) % 10 == (2 * (n % 10) + carry) % 10,
        (2 * n + carry) / 10 == 2 * (n / 10) + (2 * (n % 10) + carry) / 10,
{
    let low = (n % 10) as int;
    let high = (n / 10) as int;
    let sum = 2 * low + carry;
    assert(n == 10 * high + low);
    assert(2 * n + carry == 10 * (2 * high) + sum);
    if sum < 10 {
        assert((10 * (2 * high) + sum) / 10 == 2 * high);
        assert((10 * (2 * high) + sum) % 10 == sum);
    } else {
        assert(2 * n + carry == 10 * (2 * high + 1) + (sum - 10));
        assert((10 * (2 * high + 1) + (sum - 10)) / 10 == 2 * high + 1);
        assert((10 * (2 * high + 1) + (sum - 10)) % 10 == sum - 10);
    }
}

/// Two numbers with the same digits are the same number.
pub proof fn lemma_digits_le_one_to_one(a: nat, b: nat)
    requires
        digits_le(a) == digits_le(b),
    ensures
        a == b,
    decreases a,
{
    if a != 0 && b != 0 {
        assert(digits_le(a)[0] == (a % 10) as u8);
        assert(digits_le(b)[0] == (b % 10) as u8);
        assert(digits_le(a).drop_first() =~= digits_le(a / 10));
        assert(digits_le(b).drop_first() =~= digits_le(b / 10));
        lemma_digits_le_one_to_one(a / 10, b / 10);
    } else if a != 0 {
        assert(digits_le(a).len() > 0);
    } else if b != 0 {
        assert(digits_le(b).len() > 0);
    }
}

/// The digits of `n`, least significant first.
pub fn digits_of(n: u64) -> (digits: Vec<u8>)
    ensures
        digits@ == digits_le(n as nat),
{
    let mut digits: Vec<u8> = Vec::new();
    let mut rest: u64 = n;
    while rest > 0
        invariant
            digits@ + digits_le(rest as nat) == digits_le(n as nat),
        decreases rest,
    {
        digits.push((rest % 10) as u8);
        rest = rest / 10;
    }
    digits
}

/// The digits of twice the number whose digits are `digits`.
pub(crate) fn double_digits(digits: &Vec<u8>, Ghost(n): Ghost<nat>) -> (twice: Vec<u8>)
    requires
        digits@ == digits_le(n),
    ensures
        twice@ == digits_le(2 * n),
{
    let mut twice: Vec<u8> = Vec::new();
    let mut carry: u8 = 0;
    let mut i: usize = 0;
    proof {
        lemma_digits_le_shape(n);
        assert(digits@.skip(0) =~= digits@);
    }
    while i < digits.len()
        invariant
            i <= digits@.len(),
            carry <= 1,
            forall|j: int| 0 <= j < digits@.len() ==> #[trigger] digits@[j] < 10,
            twice@ + doubled_digits(digits@.skip(i as int), carry as int) == doubled_digits(
                digits@,
                0,
            ),
        decreases digits@.len() - i,
    {
        let sum: u8 = 2 * digits[i] + carry;
        twice.push(sum % 10);
        proof {
            assert(digits@.skip(i as int).drop_first() =~= digits@.skip(i + 1));
        }
        carry = sum / 10;
        i += 1;
    }
    if carry != 0 {
        twice.push(carry);
    }
    proof {
        lemma_doubled_digits(n, 0);
    }
    twice
}

/// The digits of `n * 2^shift`, least significant first.
pub fn scaled_digits(n: u64, shift: u32) -> (digits: Vec<u8>)
    ensures
        digits@ == digits_le(n as nat * pow2(shift as nat)),
{
    let mut digits = digits_of(n);
    let ghost mut value: nat = n as nat;
    let mut i: u32 = 0;
    proof {
        lemma2_to64();
    }
    while i < shift
        invariant
            i <= shift,
            digits@ == digits_le(value),
            value == n as nat * pow2(i as nat),
        decreases shift - i,
    {
        digits = double_digits(&digits, Ghost(value));
        proof {
            lemma_pow2_unfold((i + 1) as nat);
            let p = pow2(i as nat);
            assert(2 * (n as nat * p) == n as nat * (2 * p)) by (nonlinear_arith);
            value = 2 * value;
        }
        i += 1;
    }
    digits
}

/// Appends to `out` the decimal notation of the number above zero whose
/// digits, least significant first, are `digits`.
pub(crate) fn append_digits(out: &mut String, digits: &Vec<u8>, Ghost(n): Ghost<nat>)
    requires
        n > 0,
        digits@ == digits_le(n),
    ensures
        final(out)@ == old(out)@ + decimal(n),
{
    proof {
        lemma_digits_le_shape(n);
    }
    let mut i: usize = digits.len() - 1;
    let ghost mut upper: nat = digits@[i as int] as nat;
    out.append(digit_text(digits[i]));
    proof {
        assert(digits@.skip(i as int) =~= seq![digits@[i as int]] + digits_le(0));
    }
    while i > 0
        invariant
            i < digits@.len(),
            upper > 0,
            forall|j: int| 0 <= j < digits@.len() ==> #[trigger] digits@[j] < 10,
            digits@.skip(i as int) == digits_le(upper),
            out@ == old(out)@ + decimal(upper),
        decreases i,
    {
        i -= 1;
        let digit = digits[i];
        out.append(digit_text(digit));
        proof {
            upper = 10 * upper + digit as nat;
        }
    }
    proof {
        assert(digits@.skip(0) =~= digits@);
        lemma_digits_le_one_to_one(upper, n);
    }
}

/// Appends the decimal notation of `n * 2^shift` to `out`, whatever its
/// length.
pub fn append_scaled_decimal(out: &mut String, n: u64, shift: u32)
    ensures
        final(out)@ == old(out)@ + decimal(n as nat * pow2(shift as nat)),
{
    if n == 0 {
        out.append(digit_text(0));
    } else {
        let digits = scaled_digits(n, shift);
        proof {
            let p = pow2(shift as nat);
            lemma_pow2_pos(shift as nat);
            assert(n as nat * p > 0) by (nonlinear_arith)
                requires
                    n > 0,
                    p > 0,
            ;
        }
        append_digits(out, &digits, Ghost(n as nat * pow2(shift as nat)));
    }
}

} // verus!
