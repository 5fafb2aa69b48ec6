use vstd::prelude::*;

verus! {

/// Scale factor of the fixed-point scalars: a `Fx` with bit pattern `b`
/// stands for the real number `b / 65536`.
pub const SCALE: i64 = 65536;

/// Magnitude of an integer.
pub open spec fn mag(n: int) -> int {
    if n >= 0 {
        n
    } else {
        -n
    }
}

/// Quotient rounded toward zero, the rounding used by every fixed-point
/// multiplication and division in this crate.
pub open spec fn tdiv(n: int, d: int) -> int
    recommends
        d != 0,
{
    if (n >= 0) == (d >= 0) {
        mag(n) / mag(d)
    } else {
        -(mag(n) / mag(d))
    }
}

/// Product of two fixed-point scalars, by bit pattern.
pub open spec fn fx_mul(a: int, b: int) -> int {
    tdiv(a * b, SCALE as int)
}

/// Quotient of two fixed-point scalars, by bit pattern.
pub open spec fn fx_div(n: int, d: int) -> int
    recommends
        d != 0,
{
    tdiv(n * (SCALE as int), d)
}

/// Integer square root: the unique `k >= 0` with `k * k <= n < (k + 1) * (k + 1)`.
pub open spec fn isqrt(n: int) -> int
    decreases n,
{
    if n <= 0 {
        0
    } else if (isqrt(n - 1) + 1) * (isqrt(n - 1) + 1) <= n {
        isqrt(n - 1) + 1
    } else {
        isqrt(n - 1)
    }
}

/// Square root of a nonnegative fixed-point scalar, by bit pattern.
pub open spec fn fx_sqrt(b: int) -> int
    recommends
        b >= 0,
{
    isqrt(b * (SCALE as int))
}

/// Whether a mathematical integer fits the bit width of a scalar.
pub open spec fn fits64(n: int) -> bool {
    i64::MIN <= n <= i64::MAX
}

pub proof fn lemma_isqrt_props(n: int)
    requires
        n >= 0,
    ensures
        isqrt(n) >= 0,
        isqrt(n) * isqrt(n) <= n,
        n < (isqrt(n) + 1) * (isqrt(n) + 1),
    decreases n,
{
    if n == 0 {
    } else {
        lemma_isqrt_props(n - 1);
        let r = isqrt(n - 1);
        if (r + 1) * (r + 1) <= n {
            assert((r + 1 + 1) * (r + 1 + 1) > (r + 1) * (r + 1)) by (nonlinear_arith)
                requires
                    r >= 0,
            ;
            assert(n <= (r + 1) * (r + 1));
        }
    }
}

pub proof fn lemma_isqrt_unique(n: int, r: int)
    requires
        n >= 0,
        r >= 0,
        r * r <= n,
        n < (r + 1) * (r + 1),
    ensures
        r == isqrt(n),
{
    lemma_isqrt_props(n);
    let s = isqrt(n);
    if r < s {
        assert((r + 1) * (r + 1) <= s * s) by (nonlinear_arith)
            requires
                0 <= r,
                r < s,
        ;
    }
    if s < r {
        assert((s + 1) * (s + 1) <= r * r) by (nonlinear_arith)
            requires
                0 <= s,
                s < r,
        ;
    }
}

/// An upper bound on the square is an upper bound on the root.
pub proof fn lemma_isqrt_le(n: int, m: int)
    requires
        0 <= n,
        0 <= m,
        n <= m * m,
    ensures
        isqrt(n) <= m,
{
    lemma_isqrt_props(n);
    let s = isqrt(n);
    if m < s {
        assert((m + 1) * (m + 1) <= s * s && m * m < (m + 1) * (m + 1)) by (nonlinear_arith)
            requires
                0 <= m,
                m < s,
        ;
    }
}

/// A lower bound on the square is a lower bound on the root.
pub proof fn lemma_isqrt_ge(n: int, k: int)
    requires
        0 <= k,
        k * k <= n,
    ensures
        k <= isqrt(n),
{
    lemma_isqrt_props(n);
    let s = isqrt(n);
    if s < k {
        assert((s + 1) * (s + 1) <= k * k) by (nonlinear_arith)
            requires
                0 <= s,
                s < k,
        ;
    }
}

/// The magnitude of a truncated quotient is the quotient of the magnitudes.
pub proof fn lemma_tdiv_mag(n: int, d: int)
    requires
        d != 0,
    ensures
        mag(tdiv(n, d)) == mag(n) / mag(d),
        mag(n) / mag(d) >= 0,
{
    assert(mag(n) / mag(d) >= 0) by (nonlinear_arith)
        requires
            mag(n) >= 0,
            mag(d) >= 1,
    ;
}

/// Truncated division shrinks bounded numerators at least by the divisor's
/// lower bound.
pub proof fn lemma_tdiv_bound(n: int, d: int, nb: int, dmin: int)
    requires
        1 <= dmin <= d,
        mag(n) <= nb,
    ensures
        mag(tdiv(n, d)) <= nb / dmin,
        -(nb / dmin) <= tdiv(n, d) <= nb / dmin,
{
    lemma_tdiv_mag(n, d);
    assert(mag(n) / mag(d) <= nb / dmin) by (nonlinear_arith)
        requires
            0 <= mag(n) <= nb,
            1 <= dmin <= mag(d),
    ;
}

pub proof fn lemma_tdiv_mono(n1: int, n2: int, d: int)
    requires
        n1 <= n2,
        d >= 1,
    ensures
        tdiv(n1, d) <= tdiv(n2, d),
{
    assert(forall|x: int, y: int|
        0 <= x <= y ==> #[trigger] (x / d) <= #[trigger] (y / d)) by (nonlinear_arith)
        requires
            d >= 1,
    ;
    lemma_tdiv_mag(n1, d);
    lemma_tdiv_mag(n2, d);
}

pub proof fn lemma_fx_mul_bound(a: int, b: int, ab: int, bb: int)
    requires
        mag(a) <= ab,
        mag(b) <= bb,
    ensures
        mag(fx_mul(a, b)) <= (ab * bb) / 65536,
        -((ab * bb) / 65536) <= fx_mul(a, b) <= (ab * bb) / 65536,
{
    assert(mag(a * b) <= ab * bb) by (nonlinear_arith)
        requires
            mag(a) <= ab,
            mag(b) <= bb,
    ;
    lemma_tdiv_bound(a * b, 65536, ab * bb, 65536);
}

pub proof fn lemma_fx_div_bound(n: int, d: int, nb: int, dmin: int)
    requires
        mag(n) <= nb,
        1 <= dmin <= d,
    ensures
        mag(fx_div(n, d)) <= (nb * 65536) / dmin,
        -((nb * 65536) / dmin) <= fx_div(n, d) <= (nb * 65536) / dmin,
{
    assert(mag(n * 65536) <= nb * 65536) by (nonlinear_arith)
        requires
            mag(n) <= nb,
    ;
    lemma_tdiv_bound(n * 65536, d, nb * 65536, dmin);
}

/// Nonnegative operands give a nonnegative fixed-point product.
pub proof fn lemma_fx_mul_nonneg(a: int, b: int)
    requires
        a >= 0,
        b >= 0,
    ensures
        fx_mul(a, b) >= 0,
{
    assert(a * b >= 0) by (nonlinear_arith)
        requires
            a >= 0,
            b >= 0,
    ;
    lemma_tdiv_mag(a * b, 65536);
}

/// Multiplying or dividing by the scalar one (bit pattern `SCALE`) changes
/// nothing, and by minus one only the sign.
pub proof fn lemma_fx_scale_identity(x: int)
    ensures
        fx_mul(x, 65536) == x,
        fx_mul(65536, x) == x,
        fx_mul(x, -65536) == -x,
        fx_mul(-65536, x) == -x,
        fx_div(x, 65536) == x,
{
    assert(mag(x * 65536) == mag(x) * 65536 && mag(x * -65536) == mag(x) * 65536 && mag(
        65536 * x) == mag(x) * 65536 && mag(-65536 * x) == mag(x) * 65536 && (mag(x) * 65536)
        / 65536 == mag(x)) by (nonlinear_arith);
}

/// A fixed-point square is nonnegative.
pub proof fn lemma_fx_sq_nonneg(a: int)
    ensures
        fx_mul(a, a) >= 0,
{
    assert(a * a >= 0) by (nonlinear_arith);
    lemma_tdiv_mag(a * a, 65536);
}

/// A fixed-point scalar: the signed bit pattern of a number scaled by `SCALE`.
#[derive(Clone, Copy, PartialEq, Eq, Structural, Debug)]
pub struct Fx {
    pub bits: i64,
}

impl View for Fx {
    type V = int;

    open spec fn view(&self) -> int {
        self.bits as int
    }
}

impl Fx {
    pub fn from_bits(bits: i64) -> (r: Fx)
        ensures
            r@ == bits,
    {
        Fx { bits }
    }

    /// The scalar standing for the integer `v`.
    pub fn from_int(v: i32) -> (r: Fx)
        ensures
            r@ == v * (SCALE as int),
    {
        Fx { bits: (v as i64) * SCALE }
    }

    pub fn add(self, rhs: Fx) -> (r: Fx)
        requires
            fits64(self@ + rhs@),
        ensures
            r@ == self@ + rhs@,
    {
        Fx { bits: self.bits + rhs.bits }
    }

    pub fn sub(self, rhs: Fx) -> (r: Fx)
        requires
            fits64(self@ - rhs@),
        ensures
            r@ == self@ - rhs@,
    {
        Fx { bits: self.bits - rhs.bits }
    }

    pub fn neg(self) -> (r: Fx)
        requires
            fits64(-self@),
        ensures
            r@ == -self@,
    {
        Fx { bits: -self.bits }
    }

    pub fn mul(self, rhs: Fx) -> (r: Fx)
        requires
            fits64(fx_mul(self@, rhs@)),
        ensures
            r@ == fx_mul(self@, rhs@),
    {
        proof {
            assert(-0x40000000000000000000000000000000 <= (self.bits as int) * (rhs.bits as int)
                <= 0x40000000000000000000000000000000) by (nonlinear_arith)
                requires
                    -0x8000000000000000 <= self.bits as int <= 0x7fffffffffffffff,
                    -0x8000000000000000 <= rhs.bits as int <= 0x7fffffffffffffff,
            ;
        }
        let p: i128 = (self.bits as i128) * (rhs.bits as i128);
        let q = tdiv_i128(p, SCALE as i128);
        Fx { bits: q as i64 }
    }

    pub fn div(self, rhs: Fx) -> (r: Fx)
        requires
            rhs@ != 0,
            fits64(fx_div(self@, rhs@)),
        ensures
            r@ == fx_div(self@, rhs@),
    {
        let n: i128 = (self.bits as i128) * (SCALE as i128);
        let d: i128 = rhs.bits as i128;
        let q = if d > 0 {
            tdiv_i128(n, d)
        } else {
            tdiv_i128(-n, -d)
        };
        Fx { bits: q as i64 }
    }

    /// Square root, rounded down to the scalar grid.
    pub fn sqrt(self) -> (r: Fx)
        requires
            self@ >= 0,
        ensures
            r@ == fx_sqrt(self@),
            r@ >= 0,
    {
        let n: u128 = (self.bits as u128) * (SCALE as u128);
        proof {
            assert((n as int) < 0x100000000000000000000) by (nonlinear_arith)
                requires
                    n as int == self@ * 65536,
                    0 <= self@ < 0x8000000000000000,
            ;
        }
        let mut lo: u128 = 0;
        let mut hi: u128 = 0x10000000000;
        proof {
            assert((n as int) < (hi as int) * (hi as int)) by (nonlinear_arith)
                requires
                    (n as int) < 0x100000000000000000000,
                    hi as int == 0x10000000000,
            ;
        }
        while lo + 1 < hi
            invariant
                0 <= lo < hi <= 0x10000000000,
                (lo as int) * (lo as int) <= n as int,
                (n as int) < (hi as int) * (hi as int),
            decreases hi - lo,
        {
            let mid = lo + (hi - lo) / 2;
            proof {
                assert((mid as int) * (mid as int) <= 0x100000000000000000000) by (nonlinear_arith)
                    requires
                        0 <= mid as int <= 0x10000000000,
                ;
            }
            if mid * mid <= n {
                lo = mid;
            } else {
                hi = mid;
            }
        }
        proof {
            lemma_isqrt_unique(n as int, lo as int);
        }
        Fx { bits: lo as i64 }
    }

    pub fn lt(self, rhs: Fx) -> (r: bool)
        ensures
            r == (self@ < rhs@),
    {
        self.bits < rhs.bits
    }

    pub fn le(self, rhs: Fx) -> (r: bool)
        ensures
            r == (self@ <= rhs@),
    {
        self.bits <= rhs.bits
    }

    pub fn is_neg(self) -> (r: bool)
        ensures
            r == (self@ < 0),
    {
        self.bits < 0
    }
}

/// Truncated division of machine integers, the executable form of `tdiv`.
fn tdiv_i128(n: i128, d: i128) -> (q: i128)
    requires
        d > 0,
        n > i128::MIN,
    ensures
        q == tdiv(n as int, d as int),
{
    if n >= 0 {
        let uq = (n as u128) / (d as u128);
        proof {
            assert((n as u128) / (d as u128) <= n as u128) by (nonlinear_arith)
                requires
                    d as u128 >= 1,
            ;
        }
        uq as i128
    } else {
        let m = -n;
        let uq = (m as u128) / (d as u128);
        proof {
            assert((m as u128) / (d as u128) <= m as u128) by (nonlinear_arith)
                requires
                    d as u128 >= 1,
            ;
        }
        -(uq as i128)
    }
}

} // verus!
