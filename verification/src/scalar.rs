//! Q16.16 fixed-point scalar arithmetic on 32-bit signed encodings.
//!
//! Every operation is a pure function of the operand encodings: addition,
//! subtraction and negation wrap modulo 2^32; multiplication takes the
//! 64-bit product shifted right by 16 (floor); division takes the 64-bit
//! quotient `(a << 16) / b` truncated toward zero.  The wrapping policy is
//! part of the contract, so results are identical on every platform.

use vstd::prelude::*;

verus! {

use vstd::arithmetic::div_mod::{
    lemma_fundamental_div_mod,
    lemma_fundamental_div_mod_converse_mod,
    lemma_mod_division_less_than_divisor,
};

/// Reduce an unbounded integer to the 32-bit two's-complement domain
/// `[-2^31, 2^31)`.
pub open spec fn wrap32(x: int) -> int {
    ((x + 0x8000_0000) % 0x1_0000_0000) - 0x8000_0000
}

/// `true` when `x` already lies in the signed 32-bit range.
pub open spec fn fits32(x: int) -> bool {
    -0x8000_0000 <= x < 0x8000_0000
}

/// Absolute value of a mathematical integer.
pub open spec fn abs_int(x: int) -> int {
    if x < 0 {
        -x
    } else {
        x
    }
}

/// Integer division truncated toward zero, the rounding of the Q16.16
/// division (and of `to_int`).  Unspecified for `b == 0`.
pub open spec fn div_trunc(a: int, b: int) -> int {
    if (a >= 0) == (b >= 0) {
        abs_int(a) / abs_int(b)
    } else {
        -(abs_int(a) / abs_int(b))
    }
}

/// `wrap32(x)` equals `x % 2^32` shifted down by one modulus when that
/// remainder lands in the upper half of the unsigned range.
pub proof fn lemma_wrap32_cases(x: int)
    ensures
        ({
            let m = x % 0x1_0000_0000;
            wrap32(x) == if m >= 0x8000_0000 {
                m - 0x1_0000_0000
            } else {
                m
            }
        }),
{
    let md: int = 0x1_0000_0000;
    let h: int = 0x8000_0000;
    let m: int = x % md;
    lemma_fundamental_div_mod(x, md);
    lemma_mod_division_less_than_divisor(x, md);
    let q: int = x / md;
    if m < h {
        lemma_fundamental_div_mod_converse_mod(x + h, md, q, m + h);
    } else {
        lemma_fundamental_div_mod_converse_mod(x + h, md, q + 1, m + h - md);
    }
}

/// The wrapped value always fits in 32 bits.
pub proof fn lemma_wrap32_range(x: int)
    ensures
        fits32(wrap32(x)),
{
    lemma_wrap32_cases(x);
    lemma_mod_division_less_than_divisor(x, 0x1_0000_0000);
}

/// Wrapping is the identity on values that already fit.
pub proof fn lemma_wrap32_id(x: int)
    requires
        fits32(x),
    ensures
        wrap32(x) == x,
{
    let md: int = 0x1_0000_0000;
    let h: int = 0x8000_0000;
    lemma_wrap32_cases(x);
    if x >= 0 {
        lemma_fundamental_div_mod_converse_mod(x, md, 0, x);
    } else {
        lemma_fundamental_div_mod_converse_mod(x, md, -1, x + md);
    }
}

/// Two integers congruent modulo 2^32 wrap to the same encoding.
pub proof fn lemma_wrap32_congruent(x: int, y: int)
    requires
        x % 0x1_0000_0000 == y % 0x1_0000_0000,
    ensures
        wrap32(x) == wrap32(y),
{
    lemma_wrap32_cases(x);
    lemma_wrap32_cases(y);
}

/// A wrapped value is congruent to the value it came from.
pub proof fn lemma_wrap32_mod(x: int)
    ensures
        wrap32(x) % 0x1_0000_0000 == x % 0x1_0000_0000,
{
    let md: int = 0x1_0000_0000;
    let m: int = x % md;
    lemma_wrap32_cases(x);
    lemma_fundamental_div_mod(x, md);
    lemma_mod_division_less_than_divisor(x, md);
    if m >= 0x8000_0000 {
        lemma_fundamental_div_mod_converse_mod(m - md, md, -1, m);
    } else {
        lemma_fundamental_div_mod_converse_mod(m, md, 0, m);
    }
}

/// Q16.16 fixed-point scalar: the field holds the signed 32-bit encoding,
/// denoting `bits / 65536`.
#[derive(Clone, Copy, Debug, PartialEq, Eq, PartialOrd, Ord, Hash, Structural)]
pub struct Scalar {
    pub bits: i32,
}

impl Default for Scalar {
    /// The zero encoding.
    fn default() -> (r: Scalar)
        ensures
            r == Scalar::spec_zero(),
    {
        Scalar { bits: 0 }
    }
}

/// Reduce an `i64` to a 32-bit encoding; shared by every scalar operation.
fn wrap_i64(v: i64) -> (r: i32)
    ensures
        r as int == wrap32(v as int),
{
    let m: i64 = v.checked_rem_euclid(0x1_0000_0000i64).unwrap();
    proof {
        lemma_mod_division_less_than_divisor(v as int, 0x1_0000_0000);
        lemma_wrap32_cases(v as int);
    }
    let w: i64 = if m >= 0x8000_0000i64 {
        m - 0x1_0000_0000i64
    } else {
        m
    };
    w as i32
}

impl Scalar {
    /// The encoding of zero.
    pub open spec fn spec_zero() -> Scalar {
        Scalar { bits: 0 }
    }

    /// The encoding of one.
    pub open spec fn spec_one() -> Scalar {
        Scalar { bits: 0x10000 }
    }

    /// The encoding of two.
    pub open spec fn spec_two() -> Scalar {
        Scalar { bits: 0x20000 }
    }

    /// The encoding of one half.
    pub open spec fn spec_half() -> Scalar {
        Scalar { bits: 0x8000 }
    }

    #[verifier::when_used_as_spec(spec_zero)]
    pub fn zero() -> (r: Scalar)
        ensures
            r == Scalar::spec_zero(),
    {
        Scalar { bits: 0 }
    }

    #[verifier::when_used_as_spec(spec_one)]
    pub fn one() -> (r: Scalar)
        ensures
            r == Scalar::spec_one(),
    {
        Scalar { bits: 0x10000 }
    }

    #[verifier::when_used_as_spec(spec_two)]
    pub fn two() -> (r: Scalar)
        ensures
            r == Scalar::spec_two(),
    {
        Scalar { bits: 0x20000 }
    }

    #[verifier::when_used_as_spec(spec_half)]
    pub fn half() -> (r: Scalar)
        ensures
            r == Scalar::spec_half(),
    {
        Scalar { bits: 0x8000 }
    }

    /// Build a scalar from its raw encoding.
    pub fn from_bits(bits: i32) -> (r: Scalar)
        ensures
            r == (Scalar { bits }),
    {
        Scalar { bits }
    }

    /// The raw encoding.
    pub fn to_bits(&self) -> (r: i32)
        ensures
            r == self.bits,
    {
        self.bits
    }

    /// The encoding of a small integer: `v * 65536`, wrapped.
    pub open spec fn spec_from_int(v: int) -> Scalar {
        Scalar { bits: wrap32(v * 0x10000) as i32 }
    }

    /// Convert an integer count to its Q16.16 encoding, wrapping.
    pub fn from_int(v: i32) -> (r: Scalar)
        ensures
            r == Scalar::spec_from_int(v as int),
    {
        proof {
            lemma_wrap32_range((v as int) * 0x10000);
        }
        Scalar { bits: wrap_i64((v as i64) * 0x10000i64) }
    }

    /// Sum of the encodings, wrapping.
    pub open spec fn spec_add(self, rhs: Scalar) -> Scalar {
        Scalar { bits: wrap32(self.bits + rhs.bits) as i32 }
    }

    /// Difference of the encodings, wrapping.
    pub open spec fn spec_sub(self, rhs: Scalar) -> Scalar {
        Scalar { bits: wrap32(self.bits - rhs.bits) as i32 }
    }

    /// Negated encoding, wrapping (so the negation of the minimum is itself).
    pub open spec fn spec_neg(self) -> Scalar {
        Scalar { bits: wrap32(-self.bits) as i32 }
    }

    /// The 64-bit product of the encodings, shifted right by 16 (floor),
    /// then wrapped to 32 bits.
    pub open spec fn spec_mul(self, rhs: Scalar) -> Scalar {
        Scalar { bits: wrap32((self.bits * rhs.bits) / 0x10000) as i32 }
    }

    /// The 64-bit quotient `(a << 16) / b` truncated toward zero, then
    /// wrapped to 32 bits.  Unspecified for a zero divisor.
    pub open spec fn spec_div(self, rhs: Scalar) -> Scalar {
        Scalar { bits: wrap32(div_trunc(self.bits * 0x10000, rhs.bits as int)) as i32 }
    }

    /// Absolute value of the encoding; the minimum encoding is its own
    /// absolute value.
    pub open spec fn spec_abs(self) -> Scalar {
        if self.bits == i32::MIN {
            self
        } else if self.bits < 0 {
            Scalar { bits: -self.bits as i32 }
        } else {
            self
        }
    }

    #[verifier::when_used_as_spec(spec_add)]
    pub fn add(self, rhs: Scalar) -> (r: Scalar)
        ensures
            r == self.spec_add(rhs),
    {
        proof {
            lemma_wrap32_range(self.bits + rhs.bits);
        }
        Scalar { bits: wrap_i64((self.bits as i64) + (rhs.bits as i64)) }
    }

    #[verifier::when_used_as_spec(spec_sub)]
    pub fn sub(self, rhs: Scalar) -> (r: Scalar)
        ensures
            r == self.spec_sub(rhs),
    {
        proof {
            lemma_wrap32_range(self.bits - rhs.bits);
        }
        Scalar { bits: wrap_i64((self.bits as i64) - (rhs.bits as i64)) }
    }

    #[verifier::when_used_as_spec(spec_neg)]
    pub fn neg(self) -> (r: Scalar)
        ensures
            r == self.spec_neg(),
    {
        proof {
            lemma_wrap32_range(-(self.bits as int));
        }
        Scalar { bits: wrap_i64(-(self.bits as i64)) }
    }

    #[verifier::when_used_as_spec(spec_mul)]
    pub fn mul(self, rhs: Scalar) -> (r: Scalar)
        ensures
            r == self.spec_mul(rhs),
    {
        proof {
            assert(-0x4000_0000_0000_0000 <= (self.bits as int) * (rhs.bits as int)
                <= 0x4000_0000_0000_0000) by (nonlinear_arith)
                requires
                    -0x8000_0000 <= self.bits as int <= 0x7FFF_FFFF,
                    -0x8000_0000 <= rhs.bits as int <= 0x7FFF_FFFF,
            ;
        }
        let p: i64 = (self.bits as i64) * (rhs.bits as i64);
        proof {
            vstd::arithmetic::div_mod::lemma_div_is_ordered(
                -0x4000_0000_0000_0000,
                p as int,
                0x10000,
            );
            vstd::arithmetic::div_mod::lemma_div_is_ordered(
                p as int,
                0x4000_0000_0000_0000,
                0x10000,
            );
            lemma_wrap32_range((p as int) / 0x10000);
        }
        let q: i64 = p.checked_div_euclid(0x10000i64).unwrap();
        Scalar { bits: wrap_i64(q) }
    }

    #[verifier::when_used_as_spec(spec_div)]
    pub fn div(self, rhs: Scalar) -> (r: Scalar)
        requires
            rhs.bits != 0,
        ensures
            r == self.spec_div(rhs),
    {
        let num: i64 = (self.bits as i64) * 0x10000i64;
        let d: i64 = rhs.bits as i64;
        proof {
            lemma_div_trunc_bound(num as int, d as int);
        }
        let q: i64 = num.checked_div(d).unwrap();
        proof {
            lemma_wrap32_range(div_trunc(num as int, d as int));
        }
        Scalar { bits: wrap_i64(q) }
    }

    pub fn abs(&self) -> (r: Scalar)
        ensures
            r == self.spec_abs(),
    {
        if self.bits == i32::MIN {
            *self
        } else if self.bits < 0 {
            Scalar { bits: -self.bits }
        } else {
            *self
        }
    }

    /// The integer part of the value, truncated toward zero.
    pub open spec fn spec_to_int(self) -> int {
        div_trunc(self.bits as int, 0x10000)
    }

    pub fn to_int(&self) -> (r: i32)
        ensures
            r as int == self.spec_to_int(),
    {
        proof {
            lemma_div_trunc_bound(self.bits as int, 0x10000);
        }
        self.bits.checked_div(0x10000i32).unwrap()
    }

    /// One Newton step on the encodings: `(g + x / g) / 2`.
    pub open spec fn spec_sqrt_step(self, g: Scalar) -> Scalar {
        g.spec_add(self.spec_div(g)).spec_div(Scalar::spec_two())
    }

    /// Up to `n` Newton steps starting from `g`, stopping at a fixpoint.
    /// A zero iterate would divide by zero, so it yields zero instead.
    pub open spec fn spec_sqrt_iter(self, g: Scalar, n: nat) -> Scalar
        decreases n,
    {
        if n == 0 {
            g
        } else if g.bits == 0 {
            Scalar::spec_zero()
        } else {
            let nx = self.spec_sqrt_step(g);
            if nx == g {
                g
            } else {
                self.spec_sqrt_iter(nx, (n - 1) as nat)
            }
        }
    }

    /// Square root: zero for non-positive inputs, otherwise eight Newton
    /// steps from the halved encoding, stopped early at an exact fixpoint.
    pub open spec fn spec_sqrt(self) -> Scalar {
        if self.bits <= 0 {
            Scalar::spec_zero()
        } else {
            self.spec_sqrt_iter(Scalar { bits: (self.bits / 2) as i32 }, 8)
        }
    }

    /// Newton-Raphson square root with a data-independent iteration bound.
    #[verifier::rlimit(60)]
    pub fn sqrt(&self) -> (r: Scalar)
        ensures
            r == self.spec_sqrt(),
    {
        if self.bits <= 0 {
            return Scalar::zero();
        }
        let mut guess = Scalar { bits: self.bits / 2 };
        let x = *self;
        let mut i: u32 = 0;
        while i < 8
            invariant
                0 <= i <= 8,
                x == *self,
                x.bits > 0,
                x.spec_sqrt_iter(guess, (8 - i) as nat) == x.spec_sqrt(),
            decreases 8 - i,
        {
            if guess.bits == 0 {
                proof {
                    assert(x.spec_sqrt_iter(guess, (8 - i) as nat) == Scalar::spec_zero());
                }
                return Scalar::zero();
            }
            let next = guess.add(x.div(guess)).div(Scalar::two());
            proof {
                assert(next == x.spec_sqrt_step(guess));
                if next == guess {
                    assert(x.spec_sqrt_iter(guess, (8 - i) as nat) == guess);
                } else {
                    assert(x.spec_sqrt_iter(guess, (8 - i) as nat) == x.spec_sqrt_iter(
                        next,
                        (8 - (i + 1)) as nat,
                    ));
                }
            }
            if next.bits == guess.bits {
                return guess;
            }
            guess = next;
            i = i + 1;
        }
        guess
    }
}

/// Truncating division shrinks the magnitude: the quotient of `x` by a
/// nonzero divisor fits in any range that holds `x` and zero.
proof fn lemma_div_trunc_bound(x: int, d: int)
    requires
        d != 0,
    ensures
        abs_int(div_trunc(x, d)) <= abs_int(x),
        div_trunc(x, d) == if x == 0 {
            0
        } else if x > 0 && d > 0 {
            x / d
        } else if x < 0 && d < 0 {
            ((x * -1) / (d * -1))
        } else if x < 0 {
            ((x * -1) / d) * -1
        } else {
            (x / (d * -1)) * -1
        },
{
    let a = abs_int(x);
    let b = abs_int(d);
    assert(a / b <= a && a / b >= 0) by (nonlinear_arith)
        requires
            a >= 0,
            b >= 1,
    ;
}

/// The integer part of any 32-bit encoding lies in the signed 16-bit
/// range.
pub proof fn lemma_to_int_small(s: Scalar)
    ensures
        -0x8000 <= s.spec_to_int() < 0x8000,
{
    if s.bits >= 0 {
        vstd::arithmetic::div_mod::lemma_div_pos_is_pos(s.bits as int, 0x10000);
        vstd::arithmetic::div_mod::lemma_div_is_ordered(s.bits as int, 0x7FFF_FFFF, 0x10000);
        assert(0x7FFF_FFFFint / 0x10000 == 0x7FFF);
    } else {
        let a = abs_int(s.bits as int);
        vstd::arithmetic::div_mod::lemma_div_pos_is_pos(a, 0x10000);
        vstd::arithmetic::div_mod::lemma_div_is_ordered(a, 0x8000_0000, 0x10000);
        assert(0x8000_0000int / 0x10000 == 0x8000);
    }
}

/// Truncating division by a positive divisor is monotone in the
/// dividend.
pub proof fn lemma_div_trunc_monotone(a1: int, a2: int, d: int)
    requires
        a1 <= a2,
        d > 0,
    ensures
        div_trunc(a1, d) <= div_trunc(a2, d),
{
    if a1 >= 0 {
        vstd::arithmetic::div_mod::lemma_div_is_ordered(a1, a2, d);
    } else if a2 < 0 {
        vstd::arithmetic::div_mod::lemma_div_is_ordered(-a2, -a1, d);
    } else {
        vstd::arithmetic::div_mod::lemma_div_pos_is_pos(-a1, d);
        vstd::arithmetic::div_mod::lemma_div_pos_is_pos(a2, d);
    }
}

/// Addition of scalars is commutative.
pub proof fn lemma_add_commutative(a: Scalar, b: Scalar)
    ensures
        a.spec_add(b) == b.spec_add(a),
{
}

/// Addition of scalars is associative in the wrapping domain: both
/// groupings wrap the same integer sum.
pub proof fn lemma_add_associative(a: Scalar, b: Scalar, c: Scalar)
    ensures
        a.spec_add(b).spec_add(c) == a.spec_add(b.spec_add(c)),
{
    let md: int = 0x1_0000_0000;
    let ab: int = a.bits + b.bits;
    let bc: int = b.bits + c.bits;
    lemma_wrap32_mod(ab);
    lemma_wrap32_mod(bc);
    vstd::arithmetic::div_mod::lemma_add_mod_noop(wrap32(ab), c.bits as int, md);
    vstd::arithmetic::div_mod::lemma_add_mod_noop(ab, c.bits as int, md);
    vstd::arithmetic::div_mod::lemma_add_mod_noop(a.bits as int, wrap32(bc), md);
    vstd::arithmetic::div_mod::lemma_add_mod_noop(a.bits as int, bc, md);
    lemma_wrap32_congruent(wrap32(ab) + c.bits, ab + c.bits);
    lemma_wrap32_congruent(a.bits + wrap32(bc), a.bits + bc);
}

/// When no partial sum leaves the 32-bit range, no wrapping occurs and
/// addition is exact: both groupings give the integer sum of the encodings.
pub proof fn lemma_add_exact(a: Scalar, b: Scalar, c: Scalar)
    requires
        fits32(a.bits + b.bits),
        fits32(b.bits + c.bits),
        fits32(a.bits + b.bits + c.bits),
    ensures
        a.spec_add(b).spec_add(c).bits == a.bits + b.bits + c.bits,
        a.spec_add(b.spec_add(c)).bits == a.bits + b.bits + c.bits,
{
    lemma_wrap32_id(a.bits + b.bits);
    lemma_wrap32_id(b.bits + c.bits);
    lemma_wrap32_id(a.bits + b.bits + c.bits);
}

/// Multiplying by a nonzero scalar and dividing by it again returns the
/// multiplicand exactly, whenever the product loses no fractional bits
/// and its shifted form fits in 32 bits.  (With a product that does lose
/// bits the round trip is lossy: encodings 1 and 3 multiply to zero.)
pub proof fn lemma_mul_div_exact(a: Scalar, b: Scalar)
    requires
        b.bits != 0,
        (a.bits * b.bits) % 0x10000 == 0,
        fits32((a.bits * b.bits) / 0x10000),
    ensures
        a.spec_mul(b).spec_div(b) == a,
{
    let p: int = a.bits * b.bits;
    let m: int = p / 0x10000;
    lemma_fundamental_div_mod(p, 0x10000);
    assert(p == 0x10000 * m);
    lemma_wrap32_id(m);
    assert(a.spec_mul(b).bits == m);
    let aa: int = abs_int(a.bits as int);
    let bb: int = abs_int(b.bits as int);
    assert(abs_int(p) == aa * bb) by (nonlinear_arith)
        requires
            p == (a.bits as int) * (b.bits as int),
            aa == abs_int(a.bits as int),
            bb == abs_int(b.bits as int),
    ;
    assert((p >= 0) == ((a.bits >= 0) == (b.bits >= 0)) || a.bits == 0) by (nonlinear_arith)
        requires
            p == (a.bits as int) * (b.bits as int),
            b.bits != 0,
    ;
    vstd::arithmetic::div_mod::lemma_div_multiples_vanish(aa, bb);
    assert((bb * aa) / bb == aa);
    assert(aa * bb == bb * aa) by (nonlinear_arith);
    assert(div_trunc(p, b.bits as int) == a.bits);
    assert(m * 0x10000 == p) by (nonlinear_arith)
        requires
            p == 0x10000 * m,
    ;
    lemma_wrap32_id(a.bits as int);
    assert(a.spec_mul(b).spec_div(b).bits == a.bits);
}

/// Q16.16 product of two raw encodings: the 64-bit product shifted right
/// by 16 and wrapped to 32 bits.
pub fn mul_fixed(a: i32, b: i32) -> (r: i32)
    ensures
        r as int == wrap32((a * b) / 0x10000),
{
    Scalar::from_bits(a).mul(Scalar::from_bits(b)).bits
}

} // verus!
