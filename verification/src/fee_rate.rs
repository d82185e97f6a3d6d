use vstd::prelude::*;
use vstd::string::StringSliceAdditionalSpecFns;
use crate::error::Error;
use crate::text::{
    all_digits, digits_value, find, is_digit, lemma_ascii_length, lemma_digits_value_grows,
    position,
};

verus! {

/// The least integer that is not below `n / d`.
pub open spec fn ceil_div(n: nat, d: nat) -> nat
    recommends
        d > 0,
{
    if n % d == 0 {
        n / d
    } else {
        n / d + 1
    }
}

/// The fee in satoshis, at `numerator / denominator` satoshis per virtual
/// byte, of a transaction of `weight` weight units, four of which make one
/// virtual byte.
pub open spec fn fee_for(numerator: nat, denominator: nat, weight: nat) -> nat
    recommends
        denominator > 0,
{
    ceil_div(numerator * weight, 4 * denominator)
}

/// A fee rate in satoshis per virtual byte, held as an exact fraction.
#[derive(Clone, Copy, Debug, PartialEq, Eq)]
pub struct FeeRate {
    numerator: u64,
    denominator: u64,
}

impl FeeRate {
    #[verifier::type_invariant]
    spec fn positive_denominator(self) -> bool {
        self.denominator > 0
    }

    /// The fraction's numerator.
    pub closed spec fn num(self) -> nat {
        self.numerator as nat
    }

    /// The fraction's denominator.
    pub closed spec fn den(self) -> nat {
        self.denominator as nat
    }

    /// The fee that this rate asks of `weight` weight units, before it is
    /// cut to what 64 bits hold.
    pub open spec fn exact_fee(self, weight: nat) -> nat {
        fee_for(self.num(), self.den(), weight)
    }

    /// The fee that `fee` returns.
    pub open spec fn spec_fee(self, weight: u64) -> u64 {
        if self.exact_fee(weight as nat) > u64::MAX {
            u64::MAX
        } else {
            self.exact_fee(weight as nat) as u64
        }
    }

    /// The rate of `numerator / denominator` satoshis per virtual byte.
    pub fn new(numerator: u64, denominator: u64) -> (r: Result<FeeRate, Error>)
        ensures
            denominator == 0 <==> r is Err,
            r is Err ==> r == Err::<FeeRate, Error>(Error::InvalidFeeRate),
            r is Ok ==> r->Ok_0.num() == numerator && r->Ok_0.den() == denominator,
    {
        if denominator == 0 {
            Err(Error::InvalidFeeRate)
        } else {
            Ok(FeeRate { numerator, denominator })
        }
    }

    /// The numerator of the rate.
    pub fn numerator(&self) -> (r: u64)
        ensures
            r == self.num(),
    {
        self.numerator
    }

    /// The denominator of the rate, never zero.
    pub fn denominator(&self) -> (r: u64)
        ensures
            r == self.den(),
            r > 0,
    {
        proof {
            use_type_invariant(self);
        }
        self.denominator
    }

    /// The fee for `weight` weight units: the rate times a quarter of the
    /// weight, rounded up to whole satoshis, and at most `u64::MAX`.
    pub fn fee(&self, weight: u64) -> (r: u64)
        ensures
            r == self.spec_fee(weight),
    {
        proof {
            use_type_invariant(self);
        }
        let n: u128 = mul_wide(self.numerator, weight);
        let d: u128 = 4 * (self.denominator as u128);
        let q: u128 = n / d;
        assert(q <= n) by (nonlinear_arith)
            requires
                q == n / d,
                d >= 1,
                n >= 0,
        ;
        let c: u128 = if n % d == 0 {
            q
        } else {
            q + 1
        };
        if c > u64::MAX as u128 {
            u64::MAX
        } else {
            c as u64
        }
    }
}

/// The product of two 64-bit numbers.
fn mul_wide(a: u64, b: u64) -> (r: u128)
    ensures
        r == a * b,
        r < u128::MAX,
{
    assert(a * b <= u64::MAX * u64::MAX) by (nonlinear_arith)
        requires
            0 <= a <= u64::MAX,
            0 <= b <= u64::MAX,
    ;
    (a as u128) * (b as u128)
}

/// The fee is the least number of satoshis that is not below the rate
/// times the virtual bytes: with the rate as `numerator / denominator` and
/// four weight units to the virtual byte, the fee times four times the
/// denominator reaches the numerator times the weight, and one satoshi
/// less does not.
pub proof fn lemma_fee_is_ceiling(rate: FeeRate, weight: nat)
    requires
        rate.den() > 0,
    ensures
        rate.exact_fee(weight) * (4 * rate.den()) >= rate.num() * weight,
        rate.exact_fee(weight) > 0 ==> (rate.exact_fee(weight) - 1) * (4 * rate.den()) < rate.num()
            * weight,
{
    let n = rate.num() * weight;
    let d = 4 * rate.den();
    let c = ceil_div(n, d);
    vstd::arithmetic::div_mod::lemma_fundamental_div_mod(n as int, d as int);
    assert(c * d >= n && (c > 0 ==> (c - 1) * d < n)) by (nonlinear_arith)
        requires
            n == d * (n / d) + n % d,
            0 <= n % d < d,
            c == if n % d == 0 { n / d } else { n / d + 1 },
            d > 0,
            n / d >= 0,
    ;
}

/// Ten to the power of `n`.
pub open spec fn pow10(n: nat) -> nat
    decreases n,
{
    if n == 0 {
        1
    } else {
        10 * pow10((n - 1) as nat)
    }
}

/// The digits before and after the decimal point of a text: the point is
/// the first full stop, and without one all of the text stands before it.
pub open spec fn decimal_parts(text: Seq<u8>) -> (Seq<u8>, Seq<u8>) {
    match position(text, ".".spec_bytes()) {
        Some(point) => (text.take(point), text.skip(point + 1)),
        None => (text, Seq::empty()),
    }
}

/// The fraction that a decimal number writes: the number without its
/// point, over ten to the power of the number of digits after the point.
/// The text must hold digits only, but for the one point, and at least
/// one digit; numerator and denominator must fit in 64 bits.
pub open spec fn decimal_fraction(text: Seq<u8>) -> Option<(nat, nat)> {
    let (whole, fraction) = decimal_parts(text);
    let digits = whole + fraction;
    if digits.len() > 0 && all_digits(digits) && digits_value(digits) <= u64::MAX && pow10(
        fraction.len(),
    ) <= u64::MAX {
        Some((digits_value(digits), pow10(fraction.len())))
    } else {
        None
    }
}

/// Powers of ten grow with their exponents, and none is zero.
pub proof fn lemma_pow10_grows(smaller: nat, larger: nat)
    requires
        smaller <= larger,
    ensures
        1 <= pow10(smaller) <= pow10(larger),
    decreases larger,
{
    if smaller < larger {
        lemma_pow10_grows(smaller, (larger - 1) as nat);
    } else if smaller > 0 {
        lemma_pow10_grows((smaller - 1) as nat, (larger - 1) as nat);
    }
}

impl FeeRate {
    /// Reads a fee rate that is written as a decimal number, such as
    /// `3.3`, and holds it exactly.
    pub fn parse(text: &str) -> (r: Result<FeeRate, Error>)
        ensures
            match decimal_fraction(text.spec_bytes()) {
                Some((numerator, denominator)) => r is Ok && r->Ok_0.num() == numerator
                    && r->Ok_0.den() == denominator,
                None => r == Err::<FeeRate, Error>(Error::InvalidFeeRate),
            },
    {
        let bytes = text.as_bytes();
        let length: usize = bytes.len();
        proof {
            reveal_strlit(".");
            lemma_ascii_length("."@);
        }
        let point: Option<usize> = find(bytes, ".".as_bytes());
        let ghost parts = decimal_parts(bytes@);
        let ghost digits = parts.0 + parts.1;
        let stop: usize = match point {
            Some(point) => point,
            None => length,
        };
        let ghost gap: int = match point {
            Some(_) => 1,
            None => 0,
        };
        assert(parts.0 =~= bytes@.take(stop as int));
        assert(parts.1 =~= bytes@.skip(stop + gap)) by {
            if point is None {
                assert(bytes@.skip(length as int) =~= Seq::<u8>::empty());
            }
        }
        let mut numerator: u64 = 0;
        let mut denominator: u64 = 1;
        let mut i: usize = 0;
        let mut seen: usize = 0;
        assert(digits.take(0) =~= Seq::<u8>::empty());
        while i < length
            invariant
                i <= length,
                length == bytes@.len(),
                bytes@ == text.spec_bytes(),
                parts == decimal_parts(bytes@),
                stop <= length,
                gap == (if stop < length { 1int } else { 0int }),
                parts.0 == bytes@.take(stop as int),
                parts.1 == bytes@.skip(stop + gap),
                digits == parts.0 + parts.1,
                seen == (if i <= stop { i as int } else { i - gap }),
                seen <= digits.len(),
                all_digits(digits.take(seen as int)),
                numerator == digits_value(digits.take(seen as int)),
                denominator == pow10((if i <= stop { 0 } else { i - stop - 1 }) as nat),
            decreases length - i,
        {
            if i == stop {
                i += 1;
                continue ;
            }
            let byte: u8 = bytes[i];
            assert(digits[seen as int] == byte);
            proof {
                assert(digits.take(seen + 1).drop_last() =~= digits.take(seen as int));
                assert(digits.take(seen + 1).last() == byte);
            }
            if byte < 0x30 || byte > 0x39 {
                assert(!is_digit(digits[seen as int]));
                return Err(Error::InvalidFeeRate);
            }
            let digit: u64 = (byte - 0x30) as u64;
            proof {
                assert(all_digits(digits.take(seen + 1))) by {
                    assert forall|k: int| 0 <= k < seen + 1 implies is_digit(
                        #[trigger] digits.take(seen + 1)[k],
                    ) by {
                        if k < seen {
                            assert(digits.take(seen + 1)[k] == digits.take(seen as int)[k]);
                        }
                    }
                }
            }
            if numerator > (u64::MAX - digit) / 10 {
                proof {
                    assert(numerator * 10 + digit > u64::MAX);
                    if all_digits(digits) {
                        lemma_digits_value_grows(digits, seen + 1);
                    }
                }
                return Err(Error::InvalidFeeRate);
            }
            if i > stop {
                if denominator > u64::MAX / 10 {
                    proof {
                        lemma_pow10_grows((i - stop) as nat, parts.1.len());
                    }
                    return Err(Error::InvalidFeeRate);
                }
                denominator = denominator * 10;
            }
            numerator = numerator * 10 + digit;
            seen += 1;
            i += 1;
        }
        assert(digits.take(seen as int) =~= digits);
        if seen == 0 {
            return Err(Error::InvalidFeeRate);
        }
        proof {
            lemma_pow10_grows(0, parts.1.len());
        }
        Ok(FeeRate { numerator, denominator })
    }
}

} // verus!
