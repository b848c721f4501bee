//! Exact fractions: the numbers that triggers compute with.

use crate::fraction::{
    gcd, greatest_common_divisor, lemma_cross_product_fits, lemma_fraction_order,
    lemma_gcd_divides, lemma_quotient, lemma_running_mean_bounds, lemma_running_mean_value,
};
use vstd::prelude::*;
use vstd::std_specs::cmp::PartialEqSpecImpl;

verus! {

/// A fraction `num / den` with a positive denominator.
///
/// Two scalars are equal when they denote the same number, whatever their
/// numerators and denominators: `1/2 == 2/4`.
#[derive(Clone, Copy, Debug)]
pub struct Scalar {
    num: i64,
    den: u64,
}

impl View for Scalar {
    type V = real;

    /// The number that the fraction denotes.
    open spec fn view(&self) -> real {
        self.num() as real / self.den() as real
    }
}

impl Scalar {
    /// The denominator is never zero.
    #[verifier::type_invariant]
    pub open spec fn wf(self) -> bool {
        self.den() > 0
    }

    /// The numerator.
    pub closed spec fn num(self) -> int {
        self.num as int
    }

    /// The denominator.
    pub closed spec fn den(self) -> int {
        self.den as int
    }

    /// The fraction `num / den`, unless `den` is zero.
    pub fn new(num: i64, den: u64) -> (r: Option<Scalar>)
        ensures
            r is None <==> den == 0,
            r matches Some(s) ==> s.wf() && s.num() == num && s.den() == den,
    {
        if den == 0 {
            None
        } else {
            Some(Scalar { num, den })
        }
    }

    /// The whole number `value`.
    pub fn from_int(value: i64) -> (r: Scalar)
        ensures
            r.wf(),
            r.num() == value,
            r.den() == 1,
            r@ == value as real,
    {
        proof {
            lemma_quotient(value as real, 1 as real);
        }
        Scalar { num: value, den: 1 }
    }

    /// The numerator, as it was given or computed: fractions are not
    /// reduced to lowest terms.
    pub fn numerator(&self) -> (n: i64)
        ensures
            n == self.num(),
    {
        self.num
    }

    /// The denominator, as it was given or computed.
    pub fn denominator(&self) -> (d: u64)
        ensures
            d == self.den(),
            d > 0,
    {
        proof {
            use_type_invariant(self);
        }
        self.den
    }

    /// Whether `self` denotes a smaller number than `other`.
    pub fn less_than(&self, other: &Scalar) -> (r: bool)
        ensures
            r == (self@ < other@),
    {
        proof {
            use_type_invariant(self);
            use_type_invariant(other);
            lemma_fraction_order(self.num(), self.den(), other.num(), other.den());
            lemma_cross_product_fits(self.num(), other.den());
            lemma_cross_product_fits(other.num(), self.den());
        }
        let left: i128 = (self.num as i128) * (other.den as i128);
        let right: i128 = (other.num as i128) * (self.den as i128);
        left < right
    }

    /// Whether `self` denotes a greater number than `other`.
    pub fn greater_than(&self, other: &Scalar) -> (r: bool)
        ensures
            r == (self@ > other@),
    {
        other.less_than(self)
    }

    /// Numerator and denominator of the mean of `samples + 1` numbers, of
    /// which `samples` have the mean `self` and one more is `item`. The factor
    /// that `samples` shares with the denominator of `self` is cancelled
    /// before anything is multiplied.
    pub open spec fn running_mean_parts(self, samples: int, item: Scalar) -> (int, int) {
        let g = gcd(samples as nat, self.den() as nat) as int;
        (
            (samples / g) * self.num() * item.den() + item.num() * (self.den() / g),
            (self.den() / g) * item.den() * (samples + 1),
        )
    }

    /// Whether `running_mean` can hold its result: the count and both
    /// denominators fit in 32 bits, and the parts of the result in 64.
    pub open spec fn running_mean_fits(self, samples: int, item: Scalar) -> bool {
        &&& 0 < samples <= u32::MAX
        &&& self.den() <= u32::MAX
        &&& item.den() <= u32::MAX
        &&& i64::MIN <= self.running_mean_parts(samples, item).0 <= i64::MAX
        &&& self.running_mean_parts(samples, item).1 <= u64::MAX
    }

    /// Whether `running_mean` can hold its result, as `running_mean_fits`
    /// says it.
    pub fn can_take(&self, samples: u64, item: &Scalar) -> (r: bool)
        ensures
            r == self.running_mean_fits(samples as int, *item),
    {
        if samples == 0 || samples > 0xffff_ffff || self.den > 0xffff_ffff || item.den
            > 0xffff_ffff {
            return false;
        }
        let (num, den) = self.running_mean_wide(samples, item);
        -0x8000_0000_0000_0000 <= num && num <= 0x7fff_ffff_ffff_ffff && den
            <= 0xffff_ffff_ffff_ffff
    }

    /// Numerator and denominator of the running mean, in 128 bits.
    fn running_mean_wide(&self, samples: u64, item: &Scalar) -> (r: (i128, u128))
        requires
            0 < samples <= u32::MAX,
            self.den() <= u32::MAX,
            item.den() <= u32::MAX,
        ensures
            r.0 == self.running_mean_parts(samples as int, *item).0,
            r.1 == self.running_mean_parts(samples as int, *item).1,
            r.1 > 0,
            r.0 as real / r.1 as real == (samples as real * self@ + item@) / (samples + 1) as real,
    {
        proof {
            use_type_invariant(self);
            use_type_invariant(item);
            lemma_gcd_divides(samples as nat, self.den() as nat);
        }
        let g: u64 = greatest_common_divisor(samples, self.den);
        let count: u64 = samples / g;
        let den: u64 = self.den / g;
        proof {
            vstd::arithmetic::div_mod::lemma_fundamental_div_mod(samples as int, g as int);
            vstd::arithmetic::div_mod::lemma_fundamental_div_mod(self.den as int, g as int);
            assert(den > 0 && count > 0) by (nonlinear_arith)
                requires
                    self.den == g * den,
                    samples == g * count,
                    self.den > 0,
                    samples > 0,
                    g > 0,
            ;
            lemma_running_mean_bounds(
                count as int,
                self.num as int,
                item.den as int,
                item.num as int,
                den as int,
                samples as int,
            );
            lemma_running_mean_value(
                g as int,
                count as int,
                den as int,
                self.num as int,
                item.num as int,
                item.den as int,
            );
        }
        let scaled: i128 = (count as i128) * (self.num as i128);
        let left: i128 = scaled * (item.den as i128);
        let right: i128 = (item.num as i128) * (den as i128);
        let num: i128 = left + right;
        let below: u128 = (den as u128) * (item.den as u128);
        let whole: u128 = below * ((samples as u128) + 1);
        assert(whole > 0) by (nonlinear_arith)
            requires
                whole == den * item.den * (samples + 1),
                den > 0,
                item.den > 0,
                samples > 0,
        ;
        (num, whole)
    }

    /// The mean of `samples + 1` numbers, of which `samples` have the mean
    /// `self` and one more is `item`: `(samples * self + item) / (samples + 1)`.
    pub fn running_mean(&self, samples: u64, item: &Scalar) -> (r: Scalar)
        requires
            self.running_mean_fits(samples as int, *item),
        ensures
            r.wf(),
            r.num() == self.running_mean_parts(samples as int, *item).0,
            r.den() == self.running_mean_parts(samples as int, *item).1,
            r@ == (samples as real * self@ + item@) / (samples + 1) as real,
    {
        let (num, den) = self.running_mean_wide(samples, item);
        Scalar { num: num as i64, den: den as u64 }
    }

    /// The running mean where it can be held, as `running_mean` gives it,
    /// and nothing where it cannot.
    pub fn checked_running_mean(&self, samples: u64, item: &Scalar) -> (r: Option<Scalar>)
        ensures
            r is Some <==> self.running_mean_fits(samples as int, *item),
            r matches Some(mean) ==> {
                &&& mean.wf()
                &&& mean.num() == self.running_mean_parts(samples as int, *item).0
                &&& mean.den() == self.running_mean_parts(samples as int, *item).1
                &&& mean@ == (samples as real * self@ + item@) / (samples + 1) as real
            },
    {
        if self.can_take(samples, item) {
            Some(self.running_mean(samples, item))
        } else {
            None
        }
    }
}

impl PartialEq for Scalar {
    /// Whether both denote the same number.
    fn eq(&self, other: &Scalar) -> (r: bool) {
        proof {
            use_type_invariant(self);
            use_type_invariant(other);
            lemma_fraction_order(self.num(), self.den(), other.num(), other.den());
            lemma_cross_product_fits(self.num(), other.den());
            lemma_cross_product_fits(other.num(), self.den());
        }
        let left: i128 = (self.num as i128) * (other.den as i128);
        let right: i128 = (other.num as i128) * (self.den as i128);
        left == right
    }
}

impl PartialEqSpecImpl for Scalar {
    open spec fn obeys_eq_spec() -> bool {
        true
    }

    open spec fn eq_spec(&self, other: &Scalar) -> bool {
        self@ == other@
    }
}

} // verus!
