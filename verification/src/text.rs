//! Building text: numbers in decimal, and lines joined by a separator.

use crate::scalar::Scalar;
use vstd::prelude::*;
use vstd::string::StringExecFns;

verus! {

/// The character of one decimal digit.
pub open spec fn digit_char(d: int) -> char
    recommends
        0 <= d < 10,
{
    (48 + d) as char
}

/// The decimal digits of `n`, the most significant first and without
/// leading zeros.
pub open spec fn decimal(n: nat) -> Seq<char>
    decreases n,
{
    if n < 10 {
        seq![digit_char(n as int)]
    } else {
        decimal(n / 10).push(digit_char((n % 10) as int))
    }
}

/// The decimal digits of `n`, after a minus sign where `n` is negative.
pub open spec fn signed_decimal(n: int) -> Seq<char> {
    if n < 0 {
        seq!['-'] + decimal((-n) as nat)
    } else {
        decimal(n as nat)
    }
}

/// The parts in their order, with the separator between each two.
pub open spec fn joined(parts: Seq<Seq<char>>, separator: Seq<char>) -> Seq<char>
    decreases parts.len(),
{
    if parts.len() == 0 {
        Seq::empty()
    } else if parts.len() == 1 {
        parts[0]
    } else {
        joined(parts.drop_last(), separator) + separator + parts.last()
    }
}

/// What each of the strings holds.
pub open spec fn contents(parts: Seq<String>) -> Seq<Seq<char>> {
    parts.map_values(|part: String| part@)
}

fn digit_text(d: u8) -> (r: &'static str)
    requires
        d < 10,
    ensures
        r@ == seq![digit_char(d as int)],
{
    proof {
        reveal_strlit("0");
        reveal_strlit("1");
        reveal_strlit("2");
        reveal_strlit("3");
        reveal_strlit("4");
        reveal_strlit("5");
        reveal_strlit("6");
        reveal_strlit("7");
        reveal_strlit("8");
        reveal_strlit("9");
    }
    let r = match d {
        0 => "0",
        1 => "1",
        2 => "2",
        3 => "3",
        4 => "4",
        5 => "5",
        6 => "6",
        7 => "7",
        8 => "8",
        _ => "9",
    };
    assert(r@ =~= seq![digit_char(d as int)]);
    r
}

/// Appends one decimal digit.
pub fn push_digit(out: &mut String, d: u8)
    requires
        d < 10,
    ensures
        final(out)@ == old(out)@.push(digit_char(d as int)),
{
    out.append(digit_text(d));
    assert(out@ =~= old(out)@.push(digit_char(d as int)));
}

/// Appends the decimal digits of `n`.
pub fn push_decimal(out: &mut String, n: u64)
    ensures
        final(out)@ == old(out)@ + decimal(n as nat),
    decreases n,
{
    if n >= 10 {
        push_decimal(out, n / 10);
    }
    push_digit(out, (n % 10) as u8);
    assert(out@ =~= old(out)@ + decimal(n as nat));
}

/// Appends the decimal digits of `n`, after a minus sign where `n` is
/// negative.
pub fn push_signed_decimal(out: &mut String, n: i64)
    ensures
        final(out)@ == old(out)@ + signed_decimal(n as int),
{
    if n < 0 {
        proof {
            reveal_strlit("-");
        }
        out.append("-");
        let magnitude: u64 = if n == i64::MIN {
            0x8000_0000_0000_0000
        } else {
            (-n) as u64
        };
        push_decimal(out, magnitude);
        assert(out@ =~= old(out)@ + signed_decimal(n as int));
    } else {
        push_decimal(out, n as u64);
    }
}

/// Calls `itertools::Itertools::intersperse` on the parts, with the
/// separator as the element to put between them, and collects what it yields
/// into one string: the parts in their order with the separator between every
/// two neighbours, nothing before the first and nothing after the last.
#[verifier::external_body]
pub(crate) fn intersperse(parts: Vec<String>, separator: &str) -> (r: String)
    ensures
        r@ == joined(contents(parts@), separator@),
{
    itertools::Itertools::intersperse(parts.into_iter(), separator.to_string()).collect::<String>()
}

/// How many digits of a fraction `Scalar::to_text` writes at most.
pub const FRACTION_PLACES: u8 = 6;

/// How many of the smallest steps that `Scalar::to_text` shows make one: ten
/// to the power of `FRACTION_PLACES`.
pub const FRACTION_SCALE: u64 = 1_000_000;

/// The first `places` decimal digits of the fraction `rest / den`, which is
/// less than one, up to the digit after which nothing is left.
#[verifier::opaque]
pub open spec fn fraction_digits(rest: nat, den: nat, places: nat) -> Seq<char>
    decreases places,
{
    if places == 0 || rest == 0 {
        Seq::empty()
    } else {
        seq![digit_char((rest * 10 / den) as int)] + fraction_digits(
            (rest * 10 % den) as nat,
            den,
            (places - 1) as nat,
        )
    }
}

/// A minus sign for a negative number, nothing for another.
pub open spec fn sign_text(n: int) -> Seq<char> {
    if n < 0 {
        seq!['-']
    } else {
        Seq::empty()
    }
}

/// Nothing where no fraction is left, else a point and the first digits of
/// the fraction `rest / den`.
pub open spec fn fraction_text(rest: nat, den: nat) -> Seq<char> {
    if rest == 0 {
        Seq::empty()
    } else {
        seq!['.'] + fraction_digits(rest, den, FRACTION_PLACES as nat)
    }
}

/// Appends the first `places` decimal digits of the fraction `rest / den`.
pub fn push_fraction(out: &mut String, rest: u64, den: u64, places: u8)
    requires
        rest < den,
    ensures
        final(out)@ == old(out)@ + fraction_digits(rest as nat, den as nat, places as nat),
    decreases places,
{
    reveal(fraction_digits);
    if places == 0 || rest == 0 {
        assert(out@ =~= old(out)@ + Seq::<char>::empty());
    } else {
        let scaled: u128 = (rest as u128) * 10;
        let below: u128 = den as u128;
        let digit: u128 = scaled / below;
        let left: u128 = scaled % below;
        proof {
            vstd::arithmetic::div_mod::lemma_fundamental_div_mod(scaled as int, below as int);
            vstd::arithmetic::div_mod::lemma_mod_bound(scaled as int, below as int);
            assert(digit < 10) by (nonlinear_arith)
                requires
                    scaled == below * digit + left,
                    0 <= left,
                    scaled < below * 10,
                    below > 0,
            ;
        }
        push_digit(out, digit as u8);
        push_fraction(out, left as u64, den, places - 1);
        assert(out@ =~= old(out)@ + (seq![digit_char(digit as int)] + fraction_digits(
            left as nat,
            den as nat,
            (places - 1) as nat,
        )));
    }
}

impl Scalar {
    /// The numerator without its sign.
    pub open spec fn magnitude(self) -> nat {
        if self.num() < 0 {
            (-self.num()) as nat
        } else {
            self.num() as nat
        }
    }

    /// The number without its sign in millionths, rounded to the nearest
    /// whole millionth, a half going up.
    #[verifier::opaque]
    pub open spec fn millionths(self) -> nat {
        ((2 * self.magnitude() * FRACTION_SCALE + self.den()) as nat) / ((2 * self.den()) as nat)
    }

    /// The number in decimal, rounded to `FRACTION_PLACES` digits after the
    /// point: a minus sign where the rounded number is below zero, the digits
    /// of its whole part, and where a fraction is left, a point and the
    /// digits of the fraction up to the last that is not zero.
    pub open spec fn text(self) -> Seq<char> {
        sign_text(
            if self.millionths() == 0 {
                0
            } else {
                self.num()
            },
        ) + decimal(self.millionths() / (FRACTION_SCALE as nat)) + fraction_text(
            self.millionths() % (FRACTION_SCALE as nat),
            FRACTION_SCALE as nat,
        )
    }

    /// The rounded number without its sign: its whole part, and its
    /// millionths beyond the whole part.
    fn round(&self) -> (r: (u64, u64))
        ensures
            r.0 == self.millionths() / (FRACTION_SCALE as nat),
            r.1 == self.millionths() % (FRACTION_SCALE as nat),
            r.1 < FRACTION_SCALE,
    {
        proof {
            reveal(Scalar::millionths);
        }
        let num = self.numerator();
        let den = self.denominator();
        let magnitude: u64 = if num < 0 {
            if num == i64::MIN {
                0x8000_0000_0000_0000
            } else {
                (-num) as u64
            }
        } else {
            num as u64
        };
        let doubled: u128 = (magnitude as u128) * 2_000_000 + (den as u128);
        let below: u128 = (den as u128) * 2;
        let steps: u128 = doubled / below;
        proof {
            vstd::arithmetic::div_mod::lemma_fundamental_div_mod(doubled as int, below as int);
            vstd::arithmetic::div_mod::lemma_mod_bound(doubled as int, below as int);
            assert(steps <= magnitude * 1_000_000) by (nonlinear_arith)
                requires
                    doubled == below * steps + doubled % below,
                    0 <= doubled % below,
                    doubled == magnitude * 2_000_000 + den,
                    below == den * 2,
                    den >= 1,
                    steps >= 0,
                    magnitude >= 0,
            ;
        }
        ((steps / 1_000_000) as u64, (steps % 1_000_000) as u64)
    }

    /// The number in decimal, as `text` describes it.
    pub fn to_text(&self) -> (r: String)
        ensures
            r@ == self.text(),
    {
        let mut out = String::new();
        let (whole, rest) = self.round();
        if self.numerator() < 0 && (whole != 0 || rest != 0) {
            proof {
                reveal_strlit("-");
            }
            out.append("-");
        }
        let ghost sign = out@;
        assert(sign =~= sign_text(
            if self.millionths() == 0 {
                0
            } else {
                self.num()
            },
        ));
        push_decimal(&mut out, whole);
        if rest != 0 {
            proof {
                reveal_strlit(".");
            }
            out.append(".");
            push_fraction(&mut out, rest, FRACTION_SCALE, FRACTION_PLACES);
            assert(out@ =~= sign + decimal(whole as nat) + (seq!['.'] + fraction_digits(
                rest as nat,
                FRACTION_SCALE as nat,
                FRACTION_PLACES as nat,
            )));
        } else {
            assert(out@ =~= sign + decimal(whole as nat) + Seq::<char>::empty());
        }
        out
    }
}

/// Two fractions of the same value have the same whole part, and what is
/// left of them is of the same value again.
pub proof fn lemma_same_value_same_whole(x: nat, y: nat, u: nat, v: nat)
    requires
        y > 0,
        v > 0,
        x * v == u * y,
    ensures
        x / y == u / v,
        (x % y) * v == (u % v) * y,
{
    let q = (x / y) as int;
    let r = (x % y) as int;
    let p = (u / v) as int;
    let t = (u % v) as int;
    vstd::arithmetic::div_mod::lemma_fundamental_div_mod(x as int, y as int);
    vstd::arithmetic::div_mod::lemma_fundamental_div_mod(u as int, v as int);
    vstd::arithmetic::div_mod::lemma_mod_bound(x as int, y as int);
    vstd::arithmetic::div_mod::lemma_mod_bound(u as int, v as int);
    assert((p - q) * (y * v) == r * v - t * y) by (nonlinear_arith)
        requires
            x == y * q + r,
            u == v * p + t,
            x * v == u * y,
    ;
    assert(-(y * v) < r * v - t * y < y * v) by (nonlinear_arith)
        requires
            0 <= r < y,
            0 <= t < v,
            y > 0,
            v > 0,
    ;
    assert(p == q) by (nonlinear_arith)
        requires
            (p - q) * (y * v) == r * v - t * y,
            -(y * v) < r * v - t * y < y * v,
            y > 0,
            v > 0,
    ;
    assert(r * v == t * y) by (nonlinear_arith)
        requires
            (p - q) * (y * v) == r * v - t * y,
            p == q,
    ;
}

/// Two fractions of the same value have the same digits.
pub proof fn lemma_same_value_same_digits(x: nat, y: nat, u: nat, v: nat, places: nat)
    requires
        y > 0,
        v > 0,
        x * v == u * y,
    ensures
        fraction_digits(x, y, places) == fraction_digits(u, v, places),
    decreases places,
{
    reveal(fraction_digits);
    assert(x == 0 <==> u == 0) by (nonlinear_arith)
        requires
            x * v == u * y,
            y > 0,
            v > 0,
            x >= 0,
            u >= 0,
    ;
    if places != 0 && x != 0 {
        assert((x * 10) * v == (u * 10) * y) by (nonlinear_arith)
            requires
                x * v == u * y,
        ;
        lemma_same_value_same_whole(x * 10, y, u * 10, v);
        lemma_same_value_same_digits(
            (x * 10 % y) as nat,
            y,
            (u * 10 % v) as nat,
            v,
            (places - 1) as nat,
        );
    }
}

/// Scalars that denote the same number are shown as the same text.
pub proof fn lemma_equal_scalars_same_text(a: Scalar, b: Scalar)
    requires
        a.wf(),
        b.wf(),
        a@ == b@,
    ensures
        a.text() == b.text(),
{
    crate::fraction::lemma_fraction_order(a.num(), a.den(), b.num(), b.den());
    let x = a.magnitude();
    let y = a.den() as nat;
    let u = b.magnitude();
    let v = b.den() as nat;
    assert((a.num() < 0 <==> b.num() < 0) && x * v == u * y) by (nonlinear_arith)
        requires
            a.num() * b.den() == b.num() * a.den(),
            a.den() > 0,
            b.den() > 0,
            x == if a.num() < 0 {
                -a.num()
            } else {
                a.num()
            },
            u == if b.num() < 0 {
                -b.num()
            } else {
                b.num()
            },
            y == a.den(),
            v == b.den(),
    ;
    let scale = FRACTION_SCALE as nat;
    assert((2 * x * scale + y) * (2 * v) == (2 * u * scale + v) * (2 * y)) by (nonlinear_arith)
        requires
            x * v == u * y,
    ;
    reveal(Scalar::millionths);
    lemma_same_value_same_whole(2 * x * scale + y, 2 * y, 2 * u * scale + v, 2 * v);
}

} // verus!
