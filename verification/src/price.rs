//! Prices as IEEE 754 binary64 numbers, held by their bit pattern.
//!
//! A pattern has one sign bit, eleven exponent bits and fifty-two fraction
//! bits. Everything a price is asked for (its sign, its order against zero,
//! its text with two decimals) is defined here on those three fields.
use vstd::prelude::*;
use vstd::arithmetic::power2::{
    lemma2_to64, lemma2_to64_rest, lemma_pow2_strictly_increases, lemma_pow2_unfold, pow2,
};
use vstd::arithmetic::div_mod::{lemma_basic_div, lemma_fundamental_div_mod, lemma_small_mod};
use crate::decimal::{append_decimal, append_scaled_decimal, decimal, digit_char, digit_text};

verus! {

/// A binary64 amount of money.
#[derive(Clone, Copy, Debug)]
pub struct Price {
    /// The IEEE 754 bit pattern of the amount.
    pub bits: u64,
}

impl Price {
    /// Whether the sign bit is set. This holds of negative zero and of some
    /// NaNs too.
    pub open spec fn sign(self) -> bool {
        self.bits >= 0x8000_0000_0000_0000
    }

    /// The exponent field, as stored.
    pub open spec fn biased_exponent(self) -> int {
        (self.bits as int / 0x10_0000_0000_0000) % 0x800
    }

    /// The fraction field.
    pub open spec fn fraction(self) -> int {
        self.bits as int % 0x10_0000_0000_0000
    }

    /// Whether the pattern is not a number.
    pub open spec fn is_nan(self) -> bool {
        self.biased_exponent() == 0x7ff && self.fraction() != 0
    }

    /// Whether the pattern is one of the two infinities.
    pub open spec fn is_infinite(self) -> bool {
        self.biased_exponent() == 0x7ff && self.fraction() == 0
    }

    /// Whether the pattern is positive or negative zero.
    pub open spec fn is_zero(self) -> bool {
        self.biased_exponent() == 0 && self.fraction() == 0
    }

    /// The integer `m` of a finite pattern, whose absolute value is
    /// `m * 2^exponent()`.
    pub open spec fn significand(self) -> nat {
        if self.biased_exponent() == 0 {
            self.fraction() as nat
        } else {
            (self.fraction() + 0x10_0000_0000_0000) as nat
        }
    }

    /// The power of two that scales the significand of a finite pattern.
    pub open spec fn exponent(self) -> int {
        if self.biased_exponent() == 0 {
            -1074
        } else {
            self.biased_exponent() - 1075
        }
    }

    /// Whether the amount is less than zero. No NaN is, and neither zero is.
    pub open spec fn is_negative(self) -> bool {
        self.sign() && !self.is_nan() && !self.is_zero()
    }

    /// Whether the amount is zero or more. No NaN is; both zeros are.
    pub open spec fn is_non_negative(self) -> bool {
        !self.is_nan() && (!self.sign() || self.is_zero())
    }

    /// The absolute value of a finite amount in hundredths, rounded to the
    /// nearest whole number, and to the even one of two that are equally near.
    pub open spec fn hundredths(self) -> nat {
        if self.exponent() >= 0 {
            self.significand() * pow2(self.exponent() as nat) * 100
        } else {
            rounded_quotient(self.significand() * 100, pow2((-self.exponent()) as nat))
        }
    }

    /// The amount without its sign, as text: `inf`, or the digits with two
    /// decimals.
    pub open spec fn unsigned_text(self) -> Seq<char> {
        if self.is_infinite() {
            "inf"@
        } else {
            two_decimals(self.hundredths())
        }
    }

    /// The amount as text with two decimals: `NaN` for every NaN; else a
    /// minus sign where the sign bit is set, also before a zero, and then
    /// the amount without its sign.
    pub open spec fn two_decimal_text(self) -> Seq<char> {
        if self.is_nan() {
            "NaN"@
        } else if self.sign() {
            "-"@ + self.unsigned_text()
        } else {
            self.unsigned_text()
        }
    }

    /// Of a pattern that is a number, exactly one holds: it is less than
    /// zero, or it is zero or more. Of a NaN neither holds.
    pub proof fn lemma_order_against_zero(self)
        ensures
            !self.is_nan() ==> (self.is_negative() <==> !self.is_non_negative()),
            self.is_nan() ==> !self.is_negative() && !self.is_non_negative(),
    {
    }

    /// The price with the given bit pattern.
    pub fn from_bits(bits: u64) -> (price: Price)
        ensures
            price.bits == bits,
    {
        Price { bits }
    }

    /// The bit pattern of the price.
    pub fn to_bits(&self) -> (bits: u64)
        ensures
            bits == self.bits,
    {
        self.bits
    }

    /// Tells whether the amount is less than zero.
    pub fn below_zero(&self) -> (negative: bool)
        ensures
            negative == self.is_negative(),
    {
        0x8000_0000_0000_0000 < self.bits && self.bits <= 0xfff0_0000_0000_0000
    }
}

/// The quotient `n / d` rounded to the nearest whole number, and to the even
/// one of two that are equally near.
pub open spec fn rounded_quotient(n: nat, d: nat) -> nat
    recommends
        d > 0,
{
    let below = n / d;
    let rest = n % d;
    if 2 * rest > d || (2 * rest == d && below % 2 == 1) {
        below + 1
    } else {
        below
    }
}

/// A count of hundredths written with a decimal point and two decimals.
pub open spec fn two_decimals(hundredths: nat) -> Seq<char> {
    decimal(hundredths / 100) + seq![
        '.',
        digit_char((hundredths / 10 % 10) as int),
        digit_char((hundredths % 10) as int),
    ]
}

/// Divides `n` by `2^shift` and rounds to the nearest whole number, and to
/// the even one of two that are equally near.
pub fn round_shifted(n: u64, shift: u32) -> (rounded: u64)
    ensures
        rounded == rounded_quotient(n as nat, pow2(shift as nat)),
{
    proof {
        lemma2_to64();
        lemma2_to64_rest();
    }
    if shift >= 64 {
        proof {
            if shift > 64 {
                if shift > 65 {
                    lemma_pow2_strictly_increases(64, (shift - 1) as nat);
                }
                lemma_pow2_unfold(shift as nat);
            }
            let d = pow2(shift as nat);
            lemma_basic_div(n as int, d as int);
            lemma_small_mod(n as nat, d);
        }
        return if shift == 64 && n > 0x8000_0000_0000_0000 {
            1
        } else {
            0
        };
    }
    let mut d: u64 = 1;
    let mut i: u32 = 0;
    while i < shift
        invariant
            i <= shift <= 63,
            d == pow2(i as nat),
            d <= 0x8000_0000_0000_0000,
        decreases shift - i,
    {
        proof {
            lemma_pow2_unfold((i + 1) as nat);
            if i + 1 < 63 {
                lemma_pow2_strictly_increases((i + 1) as nat, 63);
            }
            lemma2_to64_rest();
        }
        d = 2 * d;
        i += 1;
    }
    let below = n / d;
    let rest = n % d;
    let short = d - rest;
    if rest > short || (rest == short && below % 2 == 1) {
        proof {
            if shift > 0 {
                lemma_pow2_unfold(shift as nat);
                assert(n == d * below + rest) by {
                    lemma_fundamental_div_mod(n as int, d as int);
                }
                assert(below < 0x8000_0000_0000_0000) by (nonlinear_arith)
                    requires
                        n == d * below + rest,
                        d >= 2,
                        n <= 0xffff_ffff_ffff_ffff,
                        rest >= 0,
                        below >= 0,
                ;
            }
        }
        below + 1
    } else {
        below
    }
}

impl Price {
    /// Writes the amount with two decimals, as the standard formatter does
    /// for a binary64 number at a precision of two.
    pub fn to_two_decimals(&self) -> (text: String)
        ensures
            text@ == self.two_decimal_text(),
    {
        let negative = self.bits >= 0x8000_0000_0000_0000;
        let biased: u64 = (self.bits / 0x10_0000_0000_0000) % 0x800;
        let fraction: u64 = self.bits % 0x10_0000_0000_0000;
        if biased == 0x7ff && fraction != 0 {
            return "NaN".to_string();
        }
        let mut text = String::new();
        if negative {
            text.append("-");
        }
        let ghost sign_text = text@;
        assert(sign_text =~= if self.sign() { "-"@ } else { Seq::<char>::empty() });
        if biased == 0x7ff {
            text.append("inf");
        } else if biased >= 1075 {
            let significand: u64 = fraction + 0x10_0000_0000_0000;
            let shift: u32 = (biased - 1075) as u32;
            append_scaled_decimal(&mut text, significand, shift);
            text.append(".00");
            proof {
                reveal_strlit(".00");
            }
        } else {
            let significand: u64 = if biased == 0 {
                fraction
            } else {
                fraction + 0x10_0000_0000_0000
            };
            let shift: u32 = if biased == 0 {
                1074
            } else {
                (1075 - biased) as u32
            };
            let hundredths = round_shifted(significand * 100, shift);
            append_decimal(&mut text, hundredths / 100);
            text.append(".");
            text.append(digit_text((hundredths / 10 % 10) as u8));
            text.append(digit_text((hundredths % 10) as u8));
            proof {
                reveal_strlit(".");
            }
        }
        text
    }
}

} // verus!
