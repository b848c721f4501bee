//! Arithmetic of fractions: common divisors, and how quotients of whole
//! numbers compare, add and scale.

use vstd::prelude::*;

verus! {

/// The greatest common divisor, by Euclid's rule.
pub open spec fn gcd(a: nat, b: nat) -> nat
    decreases b,
{
    if b == 0 {
        a
    } else {
        gcd(b, a % b)
    }
}

/// The greatest common divisor divides both numbers, and is positive unless
/// both are zero.
pub proof fn lemma_gcd_divides(a: nat, b: nat)
    ensures
        a > 0 || b > 0 ==> gcd(a, b) > 0,
        gcd(a, b) > 0 ==> a % gcd(a, b) == 0 && b % gcd(a, b) == 0,
    decreases b,
{
    if b != 0 {
        let g = gcd(a, b);
        let r = a % b;
        lemma_gcd_divides(b, r);
        assert(g > 0);
        vstd::arithmetic::div_mod::lemma_fundamental_div_mod(a as int, b as int);
        let q = a / b;
        assert(a == b * q + r);
        let bq = b / g;
        let rq = r / g;
        vstd::arithmetic::div_mod::lemma_fundamental_div_mod(b as int, g as int);
        vstd::arithmetic::div_mod::lemma_fundamental_div_mod(r as int, g as int);
        assert(b == g * bq);
        assert(r == g * rq);
        assert(a == g * (bq * q + rq)) by (nonlinear_arith)
            requires
                a == b * q + r,
                b == g * bq,
                r == g * rq,
        ;
        vstd::arithmetic::div_mod::lemma_mod_multiples_basic((bq * q + rq) as int, g as int);
        assert(a % g == 0) by (nonlinear_arith)
            requires
                a == g * (bq * q + rq),
                (((bq * q + rq) as int) * (g as int)) % (g as int) == 0,
                g > 0,
        ;
    }
}

/// A number that divides another is their greatest common divisor.
pub proof fn lemma_gcd_of_multiple(a: nat, b: nat)
    requires
        b > 0,
        a % b == 0,
    ensures
        gcd(a, b) == b,
{
    assert(gcd(b, 0) == b);
}

/// The greatest common divisor of two 64-bit numbers.
pub fn greatest_common_divisor(a: u64, b: u64) -> (g: u64)
    ensures
        g == gcd(a as nat, b as nat),
{
    let mut x: u64 = a;
    let mut y: u64 = b;
    while y != 0
        invariant
            gcd(x as nat, y as nat) == gcd(a as nat, b as nat),
        decreases y,
    {
        let r: u64 = x % y;
        x = y;
        y = r;
    }
    x
}

/// Fractions with positive denominators compare as their cross products do.
pub proof fn lemma_fraction_order(a: int, b: int, c: int, d: int)
    requires
        b > 0,
        d > 0,
    ensures
        (a as real / b as real == c as real / d as real) <==> a * d == c * b,
        (a as real / b as real) < (c as real / d as real) <==> a * d < c * b,
{
    let ar = a as real;
    let br = b as real;
    let cr = c as real;
    let dr = d as real;
    let x = ar / br;
    let y = cr / dr;
    lemma_quotient(ar, br);
    lemma_quotient(cr, dr);
    assert((a * d) as real == (x * br) * dr) by (nonlinear_arith)
        requires
            x * br == a as real,
            dr == d as real,
    ;
    assert((c * b) as real == (y * dr) * br) by (nonlinear_arith)
        requires
            y * dr == c as real,
            br == b as real,
    ;
    assert((x * br) * dr - (y * dr) * br == (x - y) * (br * dr)) by (nonlinear_arith);
    assert(br * dr > 0 as real) by (nonlinear_arith)
        requires
            br > 0 as real,
            dr > 0 as real,
    ;
    let scale = br * dr;
    let gap = x - y;
    assert((gap * scale == 0 as real <==> gap == 0 as real) && (gap * scale < 0 as real <==> gap
        < 0 as real)) by (nonlinear_arith)
        requires
            scale > 0 as real,
    ;
}

/// The products that `running_mean` forms stay within 128 bits.
pub proof fn lemma_running_mean_bounds(count: int, a: int, d: int, c: int, b: int, samples: int)
    requires
        0 <= count <= u32::MAX,
        i64::MIN <= a <= i64::MAX,
        0 < d <= u32::MAX,
        i64::MIN <= c <= i64::MAX,
        0 <= b <= u32::MAX,
        0 < samples <= u32::MAX,
    ensures
        -0x7fff_ffff_8000_0000_0000_0000 <= count * a <= 0x7fff_ffff_8000_0000_0000_0000,
        -0x7fff_ffff_0000_0000_8000_0000_0000_0000 <= count * a * d <= 0x7fff_ffff_0000_0000_8000_0000_0000_0000,
        -0x7fff_ffff_8000_0000_0000_0000 <= c * b <= 0x7fff_ffff_8000_0000_0000_0000,
        0 <= b * d <= 0x1_0000_0000_0000_0000,
        0 <= b * d * (samples + 1) <= 0x1_0000_0000_0000_0000_0000_0000,
{
    assert(-0x7fff_ffff_8000_0000_0000_0000 <= count * a <= 0x7fff_ffff_8000_0000_0000_0000) by (nonlinear_arith)
        requires
            0 <= count <= 0xffff_ffff,
            -0x8000_0000_0000_0000 <= a <= 0x8000_0000_0000_0000,
    ;
    let scaled = count * a;
    assert(-0x7fff_ffff_0000_0000_8000_0000_0000_0000 <= scaled * d <= 0x7fff_ffff_0000_0000_8000_0000_0000_0000) by (nonlinear_arith)
        requires
            -0x7fff_ffff_8000_0000_0000_0000 <= scaled <= 0x7fff_ffff_8000_0000_0000_0000,
            0 <= d <= 0xffff_ffff,
    ;
    assert(-0x7fff_ffff_8000_0000_0000_0000 <= c * b <= 0x7fff_ffff_8000_0000_0000_0000) by (nonlinear_arith)
        requires
            0 <= b <= 0xffff_ffff,
            -0x8000_0000_0000_0000 <= c <= 0x8000_0000_0000_0000,
    ;
    assert(0 <= b * d <= 0x1_0000_0000_0000_0000) by (nonlinear_arith)
        requires
            0 <= b <= 0x1_0000_0000,
            0 <= d <= 0x1_0000_0000,
    ;
    let below = b * d;
    assert(0 <= below * (samples + 1) <= 0x1_0000_0000_0000_0000_0000_0000) by (nonlinear_arith)
        requires
            0 <= below <= 0x1_0000_0000_0000_0000,
            0 <= samples + 1 <= 0x1_0000_0000,
    ;
}

/// A quotient times its divisor is the dividend.
pub proof fn lemma_quotient(x: real, y: real)
    requires
        y != 0 as real,
    ensures
        (x / y) * y == x,
        y * (x / y) == x,
{
    assert((x / y) * y == x && y * (x / y) == x) by (nonlinear_arith)
        requires
            y != 0 as real,
    ;
}

/// What gives the dividend when multiplied by the divisor is the quotient.
pub proof fn lemma_quotient_unique(x: real, y: real, z: real)
    requires
        y != 0 as real,
        z * y == x,
    ensures
        x / y == z,
{
    lemma_quotient(x, y);
    assert(x / y == z) by (nonlinear_arith)
        requires
            y != 0 as real,
            z * y == x,
            (x / y) * y == x,
    ;
}

/// A sum times a number is the sum of the products.
pub proof fn lemma_distribute(x: real, y: real, z: real)
    ensures
        (x + y) * z == x * z + y * z,
{
    assert((x + y) * z == x * z + y * z) by (nonlinear_arith);
}

/// The running mean over `g * k` samples, multiplied out: with `p` the old
/// mean over the denominator `g * b` and `q` the new sample over `d`.
proof fn lemma_running_mean_product(g: real, k: real, b: real, d: real, p: real, q: real, m: real)
    requires
        m * (g * k + 1 as real) == g * k * p + q,
    ensures
        m * (b * d * (g * k + 1 as real)) == k * (p * (g * b)) * d + (q * d) * b,
{
    assert(m * (b * d * (g * k + 1 as real)) == (m * (g * k + 1 as real)) * (b * d))
        by (nonlinear_arith);
    lemma_distribute(g * k * p, q, b * d);
    assert((g * k * p) * (b * d) == k * (p * (g * b)) * d) by (nonlinear_arith);
    assert(q * (b * d) == (q * d) * b) by (nonlinear_arith);
}

/// Cancelling `g` from the count `g * count` and from the denominator
/// `g * b` leaves the running mean what it was.
pub proof fn lemma_running_mean_value(g: int, count: int, b: int, a: int, c: int, d: int)
    requires
        g > 0,
        count > 0,
        b > 0,
        d > 0,
    ensures
        (count * a * d + c * b) as real / (b * d * (g * count + 1)) as real == ((g * count) as real
            * (a as real / (g * b) as real) + c as real / d as real) / (g * count + 1) as real,
{
    let gr = g as real;
    let kr = count as real;
    let br = b as real;
    let ar = a as real;
    let cr = c as real;
    let dr = d as real;
    let one = 1 as real;
    let top = (count * a * d + c * b) as real;
    let whole = (b * d * (g * count + 1)) as real;
    let samples = (g * count) as real;
    let below = (g * b) as real;
    let more = (g * count + 1) as real;
    assert(samples == gr * kr && below == gr * br && below > 0 as real) by (nonlinear_arith)
        requires
            samples == (g * count) as real,
            below == (g * b) as real,
            gr == g as real,
            kr == count as real,
            br == b as real,
            g > 0,
            b > 0,
    ;
    assert(more == gr * kr + one && more > 0 as real) by (nonlinear_arith)
        requires
            more == (g * count + 1) as real,
            gr == g as real,
            kr == count as real,
            one == 1 as real,
            g > 0,
            count > 0,
    ;
    assert(top == kr * ar * dr + cr * br) by (nonlinear_arith)
        requires
            top == (count * a * d + c * b) as real,
            kr == count as real,
            ar == a as real,
            dr == d as real,
            cr == c as real,
            br == b as real,
    ;
    assert(whole == br * dr * (gr * kr + one) && whole > 0 as real) by (nonlinear_arith)
        requires
            whole == (b * d * (g * count + 1)) as real,
            gr == g as real,
            kr == count as real,
            dr == d as real,
            br == b as real,
            one == 1 as real,
            g > 0,
            count > 0,
            b > 0,
            d > 0,
    ;
    let p = ar / below;
    let q = cr / dr;
    let mean = (samples * p + q) / more;
    lemma_quotient(ar, below);
    lemma_quotient(cr, dr);
    lemma_quotient(samples * p + q, more);
    lemma_running_mean_product(gr, kr, br, dr, p, q, mean);
    assert(kr * (p * (gr * br)) * dr + (q * dr) * br == kr * ar * dr + cr * br) by (nonlinear_arith)
        requires
            p * (gr * br) == ar,
            q * dr == cr,
    ;
    lemma_quotient_unique(top, whole, mean);
}

/// A fraction over one denotes its numerator.
pub proof fn lemma_whole(a: int)
    ensures
        a as real / 1 as real == a as real,
{
    lemma_quotient(a as real, 1 as real);
}

/// A 64-bit numerator times a 64-bit denominator fits in 128 bits.
pub proof fn lemma_cross_product_fits(n: int, d: int)
    requires
        i64::MIN <= n <= i64::MAX,
        0 <= d <= u64::MAX,
    ensures
        i128::MIN <= n * d <= i128::MAX,
{
    assert(i128::MIN <= n * d <= i128::MAX) by (nonlinear_arith)
        requires
            -0x8000_0000_0000_0000 <= n <= 0x7fff_ffff_ffff_ffff,
            0 <= d <= 0xffff_ffff_ffff_ffff,
    ;
}

} // verus!
