//! Exact nonnegative rational arithmetic.
//!
//! Every rate in this crate (throughput, craft duration, facility speed,
//! productivity) is an exact rational number. The executable type [`Ratio`]
//! stores a numerator and a positive denominator, each a `u32`, always in
//! lowest terms, so equal values have equal representations. Arithmetic is
//! checked: an operation yields `None` exactly when the result, in lowest
//! terms, does not fit the representation.

use vstd::arithmetic::div_mod::{
    lemma_fundamental_div_mod, lemma_mod_multiples_basic, lemma_small_mod, lemma_sub_mod_noop,
};
use vstd::prelude::*;

verus! {

/// The mathematical value of a ratio: an unbounded numerator over an
/// unbounded denominator. Used only in specifications.
pub struct Frac {
    pub num: int,
    pub den: int,
}

/// A well-formed mathematical ratio: nonnegative, with a positive denominator.
pub open spec fn fwf(f: Frac) -> bool {
    f.den >= 1 && f.num >= 0
}

/// The two ratios denote the same rational number.
pub open spec fn feq(a: Frac, b: Frac) -> bool {
    a.num * b.den == b.num * a.den
}

/// `a` denotes a strictly smaller rational than `b` (for positive denominators).
pub open spec fn flt(a: Frac, b: Frac) -> bool {
    a.num * b.den < b.num * a.den
}

/// `a` denotes a rational no greater than `b` (for positive denominators).
pub open spec fn fle(a: Frac, b: Frac) -> bool {
    a.num * b.den <= b.num * a.den
}

pub open spec fn fadd(a: Frac, b: Frac) -> Frac {
    Frac { num: a.num * b.den + b.num * a.den, den: a.den * b.den }
}

pub open spec fn fmul(a: Frac, b: Frac) -> Frac {
    Frac { num: a.num * b.num, den: a.den * b.den }
}

/// Quotient `a / b`; meaningful only when `b.num != 0`.
pub open spec fn fdiv(a: Frac, b: Frac) -> Frac {
    Frac { num: a.num * b.den, den: a.den * b.num }
}

pub open spec fn frac_int(n: int) -> Frac {
    Frac { num: n, den: 1 }
}

/// Greatest common divisor, by Euclid's recursion.
pub open spec fn gcd(a: nat, b: nat) -> nat
    decreases b,
{
    if b == 0 {
        a
    } else {
        gcd(b, a % b)
    }
}

/// `f` in lowest terms; meaningful only when `fwf(f)`.
pub open spec fn canon(f: Frac) -> Frac
    recommends
        fwf(f),
{
    let g = gcd(f.num as nat, f.den as nat) as int;
    Frac { num: f.num / g, den: f.den / g }
}

/// Both components fit the executable representation.
pub open spec fn frac_fits(f: Frac) -> bool {
    f.num <= u32::MAX as int && f.den <= u32::MAX as int
}

/// The gcd of two numbers divides both of them, and is positive unless both
/// arguments are zero.
pub proof fn lemma_gcd_divides(a: nat, b: nat)
    ensures
        a > 0 || b > 0 ==> gcd(a, b) > 0,
        gcd(a, b) > 0 ==> a % gcd(a, b) == 0 && b % gcd(a, b) == 0,
    decreases b,
{
    if b == 0 {
        if a > 0 {
            lemma_mod_multiples_basic(1int, a as int);
            lemma_small_mod(0nat, a);
        }
    } else {
        let g = gcd(b, a % b);
        lemma_gcd_divides(b, a % b);
        lemma_fundamental_div_mod(a as int, b as int);
        lemma_fundamental_div_mod(b as int, g as int);
        lemma_fundamental_div_mod((a % b) as int, g as int);
        let q = a as int / b as int;
        let bq = b as int / g as int;
        let rq = (a % b) as int / g as int;
        assert(a as int == (q * bq + rq) * g as int) by (nonlinear_arith)
            requires
                a as int == b as int * q + (a % b) as int,
                b as int == g as int * bq,
                (a % b) as int == g as int * rq,
        ;
        lemma_mod_multiples_basic(q * bq + rq, g as int);
    }
}

/// Any common divisor of `a` and `b` divides their gcd.
pub proof fn lemma_gcd_greatest(a: nat, b: nat, c: nat)
    requires
        c > 0,
        a % c == 0,
        b % c == 0,
    ensures
        gcd(a, b) % c == 0,
    decreases b,
{
    if b == 0 {
    } else {
        lemma_fundamental_div_mod(a as int, b as int);
        let q = a as int / b as int;
        // a % b == a - b * q, and both a and b * q vanish mod c.
        lemma_fundamental_div_mod(b as int, c as int);
        let bc = b as int / c as int;
        assert(b as int * q == (bc * q) * c as int) by (nonlinear_arith)
            requires
                b as int == c as int * bc,
        ;
        lemma_mod_multiples_basic(bc * q, c as int);
        lemma_sub_mod_noop(a as int, b as int * q, c as int);
        lemma_small_mod(0nat, c);
        assert((a % b) as int % c as int == 0);
        lemma_gcd_greatest(b, a % b, c);
    }
}

/// Reducing by the gcd yields a coprime pair with a positive denominator.
pub proof fn lemma_canon_coprime(n: nat, d: nat)
    requires
        d >= 1,
    ensures
        gcd(n, d) >= 1,
        n % gcd(n, d) == 0,
        d % gcd(n, d) == 0,
        d / gcd(n, d) >= 1,
        n / gcd(n, d) <= n,
        d / gcd(n, d) <= d,
        gcd(n / gcd(n, d), d / gcd(n, d)) == 1,
{
    lemma_gcd_divides(n, d);
    let g = gcd(n, d);
    lemma_fundamental_div_mod(n as int, g as int);
    lemma_fundamental_div_mod(d as int, g as int);
    let rn = n / g;
    let rd = d / g;
    assert(rd >= 1) by (nonlinear_arith)
        requires
            d as int == g as int * rd as int,
            d >= 1,
            g >= 1,
    ;
    assert(rn <= n && rd <= d) by (nonlinear_arith)
        requires
            n as int == g as int * rn as int,
            d as int == g as int * rd as int,
            g >= 1,
    ;
    let h = gcd(rn, rd);
    lemma_gcd_divides(rn, rd);
    if h > 1 {
        lemma_fundamental_div_mod(rn as int, h as int);
        lemma_fundamental_div_mod(rd as int, h as int);
        let qn = rn / h;
        let qd = rd / h;
        assert(n as int == qn as int * (g * h) as int && d as int == qd as int * (g * h) as int)
            by (nonlinear_arith)
            requires
                n as int == g as int * rn as int,
                d as int == g as int * rd as int,
                rn as int == h as int * qn as int,
                rd as int == h as int * qd as int,
        ;
        assert((g * h) as int > 0) by (nonlinear_arith)
            requires
                g >= 1,
                h >= 1,
        ;
        lemma_mod_multiples_basic(qn as int, (g * h) as int);
        lemma_mod_multiples_basic(qd as int, (g * h) as int);
        lemma_gcd_greatest(n, d, g * h);
        assert(g < g * h) by (nonlinear_arith)
            requires
                g >= 1,
                h > 1,
        ;
        lemma_small_mod(g, g * h);
        assert(false);
    }
}

/// Reducing to lowest terms keeps the denoted rational unchanged.
pub proof fn lemma_canon_feq(f: Frac)
    requires
        fwf(f),
    ensures
        fwf(canon(f)),
        feq(canon(f), f),
        feq(f, canon(f)),
{
    lemma_canon_coprime(f.num as nat, f.den as nat);
    let g = gcd(f.num as nat, f.den as nat) as int;
    lemma_fundamental_div_mod(f.num, g);
    lemma_fundamental_div_mod(f.den, g);
    let rn = f.num / g;
    let rd = f.den / g;
    assert(rn * f.den == f.num * rd && f.num * rd == rn * f.den) by (nonlinear_arith)
        requires
            f.num == g * rn,
            f.den == g * rd,
    ;
}

/// Bounds on a product of bounded nonnegative factors.
proof fn lemma_mul_bounds(x: int, y: int, bx: int, by: int)
    by (nonlinear_arith)
    requires
        0 <= x <= bx,
        0 <= y <= by,
    ensures
        0 <= x * y <= bx * by,
{
}

/// A product of positive factors is positive.
proof fn lemma_mul_pos(x: int, y: int)
    by (nonlinear_arith)
    requires
        x >= 1,
        y >= 1,
    ensures
        x * y >= 1,
{
}

/// A ratio whose value exceeds `u32::MAX` cannot fit the representation,
/// however far it reduces.
pub proof fn lemma_canon_too_big(f: Frac)
    requires
        fwf(f),
        f.num > u32::MAX as int * f.den,
    ensures
        !frac_fits(canon(f)),
{
    lemma_canon_feq(f);
    let cf = canon(f);
    assert(cf.num > u32::MAX as int) by (nonlinear_arith)
        requires
            cf.num * f.den == f.num * cf.den,
            f.num > u32::MAX as int * f.den,
            cf.den >= 1,
            f.den >= 1,
    ;
}

/// Reducing keeps a positive value positive.
pub proof fn lemma_canon_pos(f: Frac)
    requires
        fwf(f),
        f.num >= 1,
    ensures
        canon(f).num >= 1,
{
    lemma_canon_feq(f);
    let cf = canon(f);
    assert(cf.num >= 1) by (nonlinear_arith)
        requires
            cf.num * f.den == f.num * cf.den,
            f.num >= 1,
            cf.den >= 1,
            f.den >= 1,
            cf.num >= 0,
    ;
}

/// An exact nonnegative rational rate, stored in lowest terms.
#[derive(Debug, Clone, Copy, PartialEq, Eq, Structural)]
pub struct Ratio {
    num: u32,
    den: u32,
}

impl View for Ratio {
    type V = Frac;

    closed spec fn view(&self) -> Frac {
        Frac { num: self.num as int, den: self.den as int }
    }
}

/// A ratio in canonical form: nonnegative, positive denominator, lowest
/// terms, within the stored range.
pub open spec fn frac_canonical(f: Frac) -> bool {
    f.den >= 1 && f.num >= 0 && gcd(f.num as nat, f.den as nat) == 1 && frac_fits(f)
}

impl Ratio {
    /// Canonical representation: positive denominator, lowest terms, both
    /// components within the stored range.
    pub open spec fn wf(self) -> bool {
        frac_canonical(self@)
    }
}

/// Euclid's algorithm.
fn gcd_u128(a: u128, b: u128) -> (g: u128)
    ensures
        g as nat == gcd(a as nat, b as nat),
{
    let mut x = a;
    let mut y = b;
    while y != 0
        invariant
            gcd(x as nat, y as nat) == gcd(a as nat, b as nat),
        decreases y,
    {
        let r = x % y;
        x = y;
        y = r;
    }
    x
}

/// Reduce `n / d` to lowest terms, if the result fits the representation.
pub(crate) fn reduce_u128(n: u128, d: u128) -> (r: Option<Ratio>)
    requires
        d >= 1,
    ensures
        r is Some <==> frac_fits(canon(Frac { num: n as int, den: d as int })),
        r matches Some(v) ==> v.wf() && v@ == canon(Frac { num: n as int, den: d as int }),
{
    proof {
        lemma_canon_coprime(n as nat, d as nat);
    }
    let g = gcd_u128(n, d);
    let rn = n / g;
    let rd = d / g;
    if rn <= u32::MAX as u128 && rd <= u32::MAX as u128 {
        Some(Ratio { num: rn as u32, den: rd as u32 })
    } else {
        None
    }
}

impl Ratio {
    /// The numerator of the lowest-terms representation.
    pub fn num(&self) -> (n: u32)
        ensures
            n as int == self@.num,
    {
        self.num
    }

    /// The denominator of the lowest-terms representation.
    pub fn den(&self) -> (d: u32)
        ensures
            d as int == self@.den,
    {
        self.den
    }

    /// The rational `num / den`, reduced; `None` when `den` is zero.
    pub fn new(num: u32, den: u32) -> (r: Option<Ratio>)
        ensures
            r is Some <==> den >= 1,
            r matches Some(v) ==> v.wf() && v@ == canon(
                Frac { num: num as int, den: den as int },
            ) && feq(v@, Frac { num: num as int, den: den as int }),
    {
        if den == 0 {
            None
        } else {
            proof {
                lemma_canon_coprime(num as nat, den as nat);
                lemma_canon_feq(Frac { num: num as int, den: den as int });
            }
            let r = reduce_u128(num as u128, den as u128);
            r
        }
    }

    /// The whole number `n`.
    pub fn from_int(n: u32) -> (r: Ratio)
        ensures
            r.wf(),
            r@ == frac_int(n as int),
    {
        proof {
            lemma_canon_coprime(n as nat, 1nat);
        }
        Ratio { num: n, den: 1 }
    }

    /// Zero.
    pub fn zero() -> (r: Ratio)
        ensures
            r.wf(),
            r@ == frac_int(0),
    {
        Ratio::from_int(0)
    }

    /// One.
    pub fn one() -> (r: Ratio)
        ensures
            r.wf(),
            r@ == frac_int(1),
    {
        Ratio::from_int(1)
    }

    pub fn is_zero(&self) -> (r: bool)
        requires
            self.wf(),
        ensures
            r <==> self@.num == 0,
    {
        self.num == 0
    }

    /// Exact comparison: `self < other`.
    pub fn lt(&self, other: &Ratio) -> (r: bool)
        requires
            self.wf(),
            other.wf(),
        ensures
            r == flt(self@, other@),
    {
        proof {
            lemma_mul_bounds(self.num as int, other.den as int, u32::MAX as int, u32::MAX as int);
            lemma_mul_bounds(other.num as int, self.den as int, u32::MAX as int, u32::MAX as int);
        }
        (self.num as u64) * (other.den as u64) < (other.num as u64) * (self.den as u64)
    }

    /// Exact comparison: `self <= other`.
    pub fn le(&self, other: &Ratio) -> (r: bool)
        requires
            self.wf(),
            other.wf(),
        ensures
            r == fle(self@, other@),
    {
        proof {
            lemma_mul_bounds(self.num as int, other.den as int, u32::MAX as int, u32::MAX as int);
            lemma_mul_bounds(other.num as int, self.den as int, u32::MAX as int, u32::MAX as int);
        }
        (self.num as u64) * (other.den as u64) <= (other.num as u64) * (self.den as u64)
    }

    /// Exact value equality.
    pub fn eq_value(&self, other: &Ratio) -> (r: bool)
        requires
            self.wf(),
            other.wf(),
        ensures
            r == feq(self@, other@),
    {
        proof {
            lemma_mul_bounds(self.num as int, other.den as int, u32::MAX as int, u32::MAX as int);
            lemma_mul_bounds(other.num as int, self.den as int, u32::MAX as int, u32::MAX as int);
        }
        (self.num as u64) * (other.den as u64) == (other.num as u64) * (self.den as u64)
    }

    /// Checked exact addition: `None` exactly when the reduced sum does not fit.
    pub fn checked_add(&self, other: &Ratio) -> (r: Option<Ratio>)
        requires
            self.wf(),
            other.wf(),
        ensures
            r is Some <==> frac_fits(canon(fadd(self@, other@))),
            r matches Some(v) ==> v.wf() && v@ == canon(fadd(self@, other@)),
    {
        proof {
            lemma_mul_bounds(self.num as int, other.den as int, u32::MAX as int, u32::MAX as int);
            lemma_mul_bounds(other.num as int, self.den as int, u32::MAX as int, u32::MAX as int);
            lemma_mul_bounds(self.den as int, other.den as int, u32::MAX as int, u32::MAX as int);
            lemma_mul_pos(self.den as int, other.den as int);
        }
        let n = (self.num as u128) * (other.den as u128) + (other.num as u128) * (self.den
            as u128);
        let d = (self.den as u128) * (other.den as u128);
        reduce_u128(n, d)
    }

    /// Checked exact multiplication: `None` exactly when the reduced product
    /// does not fit.
    pub fn checked_mul(&self, other: &Ratio) -> (r: Option<Ratio>)
        requires
            self.wf(),
            other.wf(),
        ensures
            r is Some <==> frac_fits(canon(fmul(self@, other@))),
            r matches Some(v) ==> v.wf() && v@ == canon(fmul(self@, other@)),
    {
        proof {
            lemma_mul_bounds(self.num as int, other.num as int, u32::MAX as int, u32::MAX as int);
            lemma_mul_bounds(self.den as int, other.den as int, u32::MAX as int, u32::MAX as int);
            lemma_mul_pos(self.den as int, other.den as int);
        }
        let n = (self.num as u128) * (other.num as u128);
        let d = (self.den as u128) * (other.den as u128);
        reduce_u128(n, d)
    }

    /// Checked exact division by a nonzero ratio: `None` exactly when the
    /// reduced quotient does not fit.
    pub fn checked_div(&self, other: &Ratio) -> (r: Option<Ratio>)
        requires
            self.wf(),
            other.wf(),
            other@.num >= 1,
        ensures
            r is Some <==> frac_fits(canon(fdiv(self@, other@))),
            r matches Some(v) ==> v.wf() && v@ == canon(fdiv(self@, other@)),
    {
        proof {
            lemma_mul_bounds(self.num as int, other.den as int, u32::MAX as int, u32::MAX as int);
            lemma_mul_bounds(self.den as int, other.num as int, u32::MAX as int, u32::MAX as int);
            lemma_mul_pos(self.den as int, other.num as int);
        }
        let n = (self.num as u128) * (other.den as u128);
        let d = (self.den as u128) * (other.num as u128);
        reduce_u128(n, d)
    }
}

} // verus!
