//! Exact rational runtime numbers.
//!
//! A runtime number is a numerator over a positive denominator. Sums,
//! differences, products, quotients and integral powers are computed exactly
//! in wide intermediate arithmetic; a result whose numerator or denominator
//! does not fit the representation is reported as absent, and the evaluator
//! turns that into a diagnostic instead of rounding.

use vstd::arithmetic::mul::lemma_mul_strictly_positive;
use vstd::prelude::*;
use vstd::string::StringExecFns;

use crate::text::{dec_digits, digit_char, digit_str, u64_text};

verus! {

/// An exact rational number: `n / d` with `d > 0`.
#[derive(Clone, Copy, Debug)]
pub struct Num {
    pub n: i64,
    pub d: u32,
}

impl Num {
    /// A well-formed number has a positive denominator.
    pub open spec fn wf(&self) -> bool {
        self.d > 0
    }

    /// The numerator as a mathematical integer.
    pub open spec fn ni(&self) -> int {
        self.n as int
    }

    /// The denominator as a mathematical integer.
    pub open spec fn di(&self) -> int {
        self.d as int
    }

    /// Whether the number denotes zero.
    pub open spec fn is_zero(&self) -> bool {
        self.n == 0
    }

    /// The number denoting an integer.
    pub fn from_int(n: i64) -> (r: Num)
        ensures
            r.wf() && r.n == n && r.d == 1,
    {
        Num { n, d: 1 }
    }
}

/// Whether two rationals with positive denominators denote the same number.
pub open spec fn rat_eq(n1: int, d1: int, n2: int, d2: int) -> bool {
    n1 * d2 == n2 * d1
}

/// Whether the first rational is strictly below the second (both denominators
/// positive).
pub open spec fn rat_lt(n1: int, d1: int, n2: int, d2: int) -> bool {
    n1 * d2 < n2 * d1
}

/// Whether the first rational is at or below the second (both denominators
/// positive).
pub open spec fn rat_le(n1: int, d1: int, n2: int, d2: int) -> bool {
    n1 * d2 <= n2 * d1
}

/// Whether an exact numerator fits the machine representation.
pub open spec fn fits_n(x: int) -> bool {
    i64::MIN <= x <= i64::MAX
}

/// Whether an exact denominator fits the machine representation.
pub open spec fn fits_d(x: int) -> bool {
    x <= u32::MAX
}

/// The exact numerator of a sum.
pub open spec fn sum_n(a: Num, b: Num) -> int {
    a.ni() * b.di() + b.ni() * a.di()
}

/// The exact numerator of a difference.
pub open spec fn diff_n(a: Num, b: Num) -> int {
    a.ni() * b.di() - b.ni() * a.di()
}

/// The exact denominator of a sum, difference or product.
pub open spec fn prod_d(a: Num, b: Num) -> int {
    a.di() * b.di()
}

/// The exact numerator of a product.
pub open spec fn prod_n(a: Num, b: Num) -> int {
    a.ni() * b.ni()
}

/// The exact numerator of a quotient (the divisor's sign moves into the
/// numerator so that the denominator stays positive).
pub open spec fn quot_n(a: Num, b: Num) -> int {
    if b.ni() >= 0 {
        a.ni() * b.di()
    } else {
        -(a.ni() * b.di())
    }
}

/// The exact denominator of a quotient.
pub open spec fn quot_d(a: Num, b: Num) -> int {
    if b.ni() >= 0 {
        a.di() * b.ni()
    } else {
        a.di() * -b.ni()
    }
}

proof fn lemma_mul_bound(x: int, y: int, bx: int, by: int)
    requires
        -bx <= x <= bx,
        -by <= y <= by,
        0 <= bx,
        0 <= by,
    ensures
        -(bx * by) <= x * y <= bx * by,
{
    assert(-(bx * by) <= x * y <= bx * by) by (nonlinear_arith)
        requires
            -bx <= x <= bx,
            -by <= y <= by,
            0 <= bx,
            0 <= by,
    ;
}

impl Num {
    /// The exact sum, or nothing where it does not fit the representation.
    pub fn add(self, other: Num) -> (r: Option<Num>)
        requires
            self.wf(),
            other.wf(),
        ensures
            match r {
                Some(c) => c.wf() && c.ni() == sum_n(self, other) && c.di() == prod_d(self, other),
                None => !(fits_n(sum_n(self, other)) && fits_d(prod_d(self, other))),
            },
    {
        proof {
            lemma_mul_bound(self.n as int, other.d as int, 0x8000_0000_0000_0000, 0xffff_ffff);
            lemma_mul_bound(other.n as int, self.d as int, 0x8000_0000_0000_0000, 0xffff_ffff);
            lemma_mul_bound(self.d as int, other.d as int, 0xffff_ffff, 0xffff_ffff);
            lemma_mul_strictly_positive(self.d as int, other.d as int);
        }
        let n: i128 = self.n as i128 * other.d as i128 + other.n as i128 * self.d as i128;
        let d: i128 = self.d as i128 * other.d as i128;
        if n < i64::MIN as i128 || n > i64::MAX as i128 || d > u32::MAX as i128 {
            None
        } else {
            Some(Num { n: n as i64, d: d as u32 })
        }
    }

    /// The exact difference, or nothing where it does not fit.
    pub fn sub(self, other: Num) -> (r: Option<Num>)
        requires
            self.wf(),
            other.wf(),
        ensures
            match r {
                Some(c) => c.wf() && c.ni() == diff_n(self, other) && c.di() == prod_d(self, other),
                None => !(fits_n(diff_n(self, other)) && fits_d(prod_d(self, other))),
            },
    {
        proof {
            lemma_mul_bound(self.n as int, other.d as int, 0x8000_0000_0000_0000, 0xffff_ffff);
            lemma_mul_bound(other.n as int, self.d as int, 0x8000_0000_0000_0000, 0xffff_ffff);
            lemma_mul_bound(self.d as int, other.d as int, 0xffff_ffff, 0xffff_ffff);
            lemma_mul_strictly_positive(self.d as int, other.d as int);
        }
        let n: i128 = self.n as i128 * other.d as i128 - other.n as i128 * self.d as i128;
        let d: i128 = self.d as i128 * other.d as i128;
        if n < i64::MIN as i128 || n > i64::MAX as i128 || d > u32::MAX as i128 {
            None
        } else {
            Some(Num { n: n as i64, d: d as u32 })
        }
    }

    /// The exact product, or nothing where it does not fit.
    pub fn mul(self, other: Num) -> (r: Option<Num>)
        requires
            self.wf(),
            other.wf(),
        ensures
            match r {
                Some(c) => c.wf() && c.ni() == prod_n(self, other) && c.di() == prod_d(self, other),
                None => !(fits_n(prod_n(self, other)) && fits_d(prod_d(self, other))),
            },
    {
        proof {
            lemma_mul_bound(
                self.n as int,
                other.n as int,
                0x8000_0000_0000_0000,
                0x8000_0000_0000_0000,
            );
            lemma_mul_bound(self.d as int, other.d as int, 0xffff_ffff, 0xffff_ffff);
            lemma_mul_strictly_positive(self.d as int, other.d as int);
        }
        let n: i128 = self.n as i128 * other.n as i128;
        let d: i128 = self.d as i128 * other.d as i128;
        if n < i64::MIN as i128 || n > i64::MAX as i128 || d > u32::MAX as i128 {
            None
        } else {
            Some(Num { n: n as i64, d: d as u32 })
        }
    }

    /// The exact quotient, or nothing where it does not fit. The divisor must
    /// not denote zero.
    pub fn div(self, other: Num) -> (r: Option<Num>)
        requires
            self.wf(),
            other.wf(),
            !other.is_zero(),
        ensures
            match r {
                Some(c) => c.wf() && c.ni() == quot_n(self, other) && c.di() == quot_d(self, other),
                None => !(fits_n(quot_n(self, other)) && fits_d(quot_d(self, other))),
            },
    {
        proof {
            lemma_mul_bound(self.n as int, other.d as int, 0x8000_0000_0000_0000, 0xffff_ffff);
            lemma_mul_bound(self.d as int, other.n as int, 0xffff_ffff, 0x8000_0000_0000_0000);
            lemma_mul_bound(self.d as int, -(other.n as int), 0xffff_ffff, 0x8000_0000_0000_0000);
            if other.n > 0 {
                lemma_mul_strictly_positive(self.d as int, other.n as int);
            } else {
                lemma_mul_strictly_positive(self.d as int, -(other.n as int));
            }
        }
        let n0: i128 = self.n as i128 * other.d as i128;
        let n: i128;
        let d: i128;
        if other.n >= 0 {
            n = n0;
            d = self.d as i128 * other.n as i128;
        } else {
            n = -n0;
            d = self.d as i128 * (-(other.n as i128));
        }
        if n < i64::MIN as i128 || n > i64::MAX as i128 || d > u32::MAX as i128 {
            None
        } else {
            Some(Num { n: n as i64, d: d as u32 })
        }
    }

    /// The exact negation, or nothing where it does not fit.
    pub fn neg(self) -> (r: Option<Num>)
        requires
            self.wf(),
        ensures
            match r {
                Some(c) => c.wf() && c.ni() == -self.ni() && c.di() == self.di(),
                None => !fits_n(-self.ni()),
            },
    {
        if self.n == i64::MIN {
            None
        } else {
            Some(Num { n: -self.n, d: self.d })
        }
    }

    /// Whether this number is strictly below the other.
    pub fn lt(self, other: Num) -> (r: bool)
        requires
            self.wf(),
            other.wf(),
        ensures
            r == rat_lt(self.ni(), self.di(), other.ni(), other.di()),
    {
        proof {
            lemma_mul_bound(self.n as int, other.d as int, 0x8000_0000_0000_0000, 0xffff_ffff);
            lemma_mul_bound(other.n as int, self.d as int, 0x8000_0000_0000_0000, 0xffff_ffff);
        }
        (self.n as i128 * other.d as i128) < (other.n as i128 * self.d as i128)
    }

    /// Whether this number is at or below the other.
    pub fn le(self, other: Num) -> (r: bool)
        requires
            self.wf(),
            other.wf(),
        ensures
            r == rat_le(self.ni(), self.di(), other.ni(), other.di()),
    {
        proof {
            lemma_mul_bound(self.n as int, other.d as int, 0x8000_0000_0000_0000, 0xffff_ffff);
            lemma_mul_bound(other.n as int, self.d as int, 0x8000_0000_0000_0000, 0xffff_ffff);
        }
        (self.n as i128 * other.d as i128) <= (other.n as i128 * self.d as i128)
    }

    /// Whether this number denotes the same value as the other.
    pub fn same_value(self, other: Num) -> (r: bool)
        requires
            self.wf(),
            other.wf(),
        ensures
            r == rat_eq(self.ni(), self.di(), other.ni(), other.di()),
    {
        proof {
            lemma_mul_bound(self.n as int, other.d as int, 0x8000_0000_0000_0000, 0xffff_ffff);
            lemma_mul_bound(other.n as int, self.d as int, 0x8000_0000_0000_0000, 0xffff_ffff);
        }
        self.n as i128 * other.d as i128 == other.n as i128 * self.d as i128
    }
}

/// The exact power pair `(n^e, d^e)` of a rational base.
pub open spec fn rat_pow(n: int, d: int, e: nat) -> (int, int)
    decreases e,
{
    if e == 0 {
        (1int, 1int)
    } else {
        let p = rat_pow(n, d, (e - 1) as nat);
        (p.0 * n, p.1 * d)
    }
}

/// Whether every prefix of the power computation fits the representation.
pub open spec fn rat_pow_fits(n: int, d: int, e: nat) -> bool
    decreases e,
{
    if e == 0 {
        true
    } else {
        rat_pow_fits(n, d, (e - 1) as nat) && fits_n(rat_pow(n, d, e).0) && fits_d(
            rat_pow(n, d, e).1,
        )
    }
}

/// A power of a positive denominator stays positive.
proof fn lemma_rat_pow_pos_d(n: int, d: int, e: nat)
    requires
        d > 0,
    ensures
        rat_pow(n, d, e).1 > 0,
    decreases e,
{
    if e > 0 {
        lemma_rat_pow_pos_d(n, d, (e - 1) as nat);
        lemma_mul_strictly_positive(rat_pow(n, d, (e - 1) as nat).1, d);
    }
}

/// A power of a base denoting one denotes one.
proof fn lemma_rat_pow_one(n: int, d: int, e: nat)
    requires
        n == d,
    ensures
        rat_pow(n, d, e).0 == rat_pow(n, d, e).1,
    decreases e,
{
    if e > 0 {
        lemma_rat_pow_one(n, d, (e - 1) as nat);
    }
}

/// A positive power of a base denoting zero has numerator zero.
proof fn lemma_rat_pow_zero(n: int, d: int, e: nat)
    requires
        n == 0,
        e > 0,
    ensures
        rat_pow(n, d, e).0 == 0,
    decreases e,
{
}

/// A power of a base denoting minus one denotes one or minus one by the
/// parity of the exponent.
proof fn lemma_rat_pow_neg_one(n: int, d: int, e: nat)
    requires
        n == -d,
    ensures
        e % 2 == 0 ==> rat_pow(n, d, e).0 == rat_pow(n, d, e).1,
        e % 2 == 1 ==> rat_pow(n, d, e).0 == -rat_pow(n, d, e).1,
    decreases e,
{
    if e > 0 {
        let p = rat_pow(n, d, (e - 1) as nat);
        lemma_rat_pow_neg_one(n, d, (e - 1) as nat);
        if (e - 1) % 2 == 0 {
            assert(p.0 * n == -(p.1 * d)) by (nonlinear_arith)
                requires
                    p.0 == p.1,
                    n == -d,
            ;
        } else {
            assert(p.0 * n == p.1 * d) by (nonlinear_arith)
                requires
                    p.0 == -p.1,
                    n == -d,
            ;
        }
    }
}

/// A prefix of a fitting power computation fits.
proof fn lemma_rat_pow_fits_mono(n: int, d: int, e1: nat, e2: nat)
    requires
        e1 <= e2,
        rat_pow_fits(n, d, e2),
    ensures
        rat_pow_fits(n, d, e1),
    decreases e2,
{
    if e1 < e2 {
        lemma_rat_pow_fits_mono(n, d, e1, (e2 - 1) as nat);
    }
}

/// Whether the power of a base can be answered at all: directly for bases
/// denoting zero, one and minus one, else only where every prefix of the
/// computation fits.
pub open spec fn pow_ok(n: int, d: int, e: nat) -> bool {
    (n == 0 && e > 0) || n == d || n == -d || rat_pow_fits(n, d, e)
}

/// The exact pair the power computation produces.
pub open spec fn pow_pair(n: int, d: int, e: nat) -> (int, int) {
    if n == 0 && e > 0 {
        (0int, 1int)
    } else if n == d {
        (1int, 1int)
    } else if n == -d {
        if e % 2 == 0 {
            (1int, 1int)
        } else {
            (-1int, 1int)
        }
    } else {
        rat_pow(n, d, e)
    }
}

impl Num {
    /// The exact non-negative integral power, or nothing where an
    /// intermediate result does not fit. Bases denoting zero, one and minus
    /// one are answered directly, whatever the exponent.
    pub fn pow_nat(self, e: u64) -> (r: Option<Num>)
        requires
            self.wf(),
        ensures
            match r {
                Some(c) => c.wf() && pow_ok(self.ni(), self.di(), e as nat) && (c.ni(), c.di())
                    == pow_pair(self.ni(), self.di(), e as nat) && rat_eq(
                    c.ni(),
                    c.di(),
                    rat_pow(self.ni(), self.di(), e as nat).0,
                    rat_pow(self.ni(), self.di(), e as nat).1,
                ),
                None => !pow_ok(self.ni(), self.di(), e as nat),
            },
    {
        let ghost bn = self.ni();
        let ghost bd = self.di();
        if self.n == 0 && e > 0 {
            proof {
                lemma_rat_pow_zero(bn, bd, e as nat);
                lemma_rat_pow_pos_d(bn, bd, e as nat);
                assert(rat_pow(bn, bd, e as nat).0 == 0);
                assert(0int * rat_pow(bn, bd, e as nat).1 == 0);
                assert(rat_eq(0, 1, rat_pow(bn, bd, e as nat).0, rat_pow(bn, bd, e as nat).1));
                assert((0int, 1int) == pow_pair(bn, bd, e as nat));
            }
            return Some(Num { n: 0, d: 1 });
        }
        if self.n == self.d as i64 {
            proof {
                lemma_rat_pow_one(bn, bd, e as nat);
                assert(rat_pow(bn, bd, e as nat).0 == rat_pow(bn, bd, e as nat).1);
                assert(rat_eq(1, 1, rat_pow(bn, bd, e as nat).0, rat_pow(bn, bd, e as nat).1));
                assert((1int, 1int) == pow_pair(bn, bd, e as nat));
            }
            return Some(Num { n: 1, d: 1 });
        }
        if self.n == -(self.d as i64) {
            proof {
                lemma_rat_pow_neg_one(bn, bd, e as nat);
                lemma_rat_pow_pos_d(bn, bd, e as nat);
            }
            if e % 2 == 0 {
                assert(rat_eq(1, 1, rat_pow(bn, bd, e as nat).0, rat_pow(bn, bd, e as nat).1));
                assert((1int, 1int) == pow_pair(bn, bd, e as nat));
                return Some(Num { n: 1, d: 1 });
            } else {
                assert(e as nat % 2 == 1);
                assert(rat_pow(bn, bd, e as nat).0 == -rat_pow(bn, bd, e as nat).1);
                assert(rat_eq(-1, 1, rat_pow(bn, bd, e as nat).0, rat_pow(bn, bd, e as nat).1));
                assert((-1int, 1int) == pow_pair(bn, bd, e as nat));
                return Some(Num { n: -1, d: 1 });
            }
        }
        let mut acc = Num { n: 1, d: 1 };
        let mut i: u64 = 0;
        while i < e
            invariant
                self.wf(),
                acc.wf(),
                i <= e,
                !(bn == 0 && e > 0),
                bn != bd,
                bn != -bd,
                bn == self.ni(),
                bd == self.di(),
                acc.ni() == rat_pow(bn, bd, i as nat).0,
                acc.di() == rat_pow(bn, bd, i as nat).1,
                rat_pow_fits(bn, bd, i as nat),
            decreases e - i,
        {
            match acc.mul(self) {
                Some(c) => {
                    acc = c;
                    i = i + 1;
                    assert(acc.ni() == rat_pow(bn, bd, i as nat).0);
                },
                None => {
                    proof {
                        assert(!rat_pow_fits(bn, bd, (i + 1) as nat));
                        if rat_pow_fits(bn, bd, e as nat) {
                            lemma_rat_pow_fits_mono(bn, bd, (i + 1) as nat, e as nat);
                        }
                    }
                    return None;
                },
            }
        }
        proof {
            assert((acc.ni(), acc.di()) == pow_pair(bn, bd, e as nat));
            assert(rat_eq(acc.ni(), acc.di(), rat_pow(bn, bd, e as nat).0, rat_pow(bn, bd, e as nat).1));
        }
        Some(acc)
    }
}

/// The decimal expansion of a proper fraction `rem / d`, at most `fuel`
/// digits, stopping early where the expansion terminates.
pub open spec fn frac_digits(rem: int, d: int, fuel: nat) -> Seq<char>
    decreases fuel,
{
    if fuel == 0 || rem <= 0 {
        Seq::empty()
    } else {
        seq![digit_char(rem * 10 / d)] + frac_digits(rem * 10 % d, d, (fuel - 1) as nat)
    }
}

/// How many fraction digits are rendered before a non-terminating decimal
/// expansion is cut off.
pub open spec fn frac_fuel() -> nat {
    30
}

/// The decimal text of a rational: an optional minus sign, the integer part,
/// and, where the value is not an integer, a point and the (possibly cut off)
/// decimal expansion of the fractional part.
pub open spec fn num_text_spec(n: int, d: int) -> Seq<char> {
    let a = if n < 0 {
        -n
    } else {
        n
    };
    let whole = dec_digits(a / d);
    let mag = if a % d == 0 {
        whole
    } else {
        whole + seq!['.'] + frac_digits(a % d, d, frac_fuel())
    };
    if n < 0 {
        seq!['-'] + mag
    } else {
        mag
    }
}

/// At most `fuel` decimal digits of the proper fraction `rem / d`.
fn frac_text(rem: u64, d: u64, fuel: u64) -> (s: String)
    requires
        0 < d <= 0xffff_ffff,
        rem < d,
    ensures
        s@ == frac_digits(rem as int, d as int, fuel as nat),
    decreases fuel,
{
    if fuel == 0 || rem == 0 {
        let s = String::new();
        assert(s@ =~= frac_digits(rem as int, d as int, fuel as nat));
        s
    } else {
        let r10: u64 = rem * 10;
        assert(r10 / d < 10) by (nonlinear_arith)
            requires
                0 < d,
                rem < d,
                r10 == rem * 10,
        ;
        let q = r10 / d;
        let mut s = digit_str(q).to_string();
        let rest = frac_text(r10 % d, d, fuel - 1);
        s.append(rest.as_str());
        assert(s@ =~= frac_digits(rem as int, d as int, fuel as nat));
        s
    }
}

/// The decimal text of a number.
pub fn num_text(a: Num) -> (s: String)
    requires
        a.wf(),
    ensures
        s@ == num_text_spec(a.ni(), a.di()),
{
    broadcast use vstd::string::to_string_from_display_ensures_for_str;

    let m: u64 = if a.n < 0 {
        (-(a.n as i128)) as u64
    } else {
        a.n as u64
    };
    let d: u64 = a.d as u64;
    let whole: u64 = m / d;
    let rem: u64 = m % d;
    let mut s = if a.n < 0 {
        "-".to_string()
    } else {
        String::new()
    };
    proof {
        reveal_strlit("-");
    }
    let whole_text = u64_text(whole);
    s.append(whole_text.as_str());
    if rem != 0 {
        s.append(".");
        let frac = frac_text(rem, d, 30);
        s.append(frac.as_str());
        proof {
            reveal_strlit(".");
        }
    }
    assert(s@ =~= num_text_spec(a.ni(), a.di()));
    s
}

} // verus!
