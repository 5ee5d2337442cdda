use vstd::prelude::*;

verus! {

/// The numeric capabilities that the matrix engine needs from an element
/// type: ring-style operations, division, negation, absolute value, a square
/// root, an equality test, and conversion from a small integer coefficient.
///
/// Each executable operation is pinned to a specification-level twin
/// (`add_spec` for `add_val`, and so on), so every algorithm built on this
/// trait carries an exact contract relative to the element type's own
/// arithmetic.  No algebraic law (associativity, distributivity, ...) is
/// assumed of the operations: finite-precision element types do not obey
/// them, and the contracts of this library never rely on them.
pub trait Scalar: Sized + Copy {
    /// The additive neutral element, as the type represents it.
    open spec fn zero_spec() -> Self {
        vstd::pervasive::arbitrary()
    }

    /// The multiplicative neutral element, as the type represents it.
    open spec fn one_spec() -> Self {
        vstd::pervasive::arbitrary()
    }

    open spec fn add_spec(self, rhs: Self) -> Self {
        vstd::pervasive::arbitrary()
    }

    open spec fn sub_spec(self, rhs: Self) -> Self {
        vstd::pervasive::arbitrary()
    }

    open spec fn mul_spec(self, rhs: Self) -> Self {
        vstd::pervasive::arbitrary()
    }

    open spec fn div_spec(self, rhs: Self) -> Self {
        vstd::pervasive::arbitrary()
    }

    open spec fn neg_spec(self) -> Self {
        vstd::pervasive::arbitrary()
    }

    open spec fn abs_spec(self) -> Self {
        vstd::pervasive::arbitrary()
    }

    open spec fn sqrt_spec(self) -> Self {
        vstd::pervasive::arbitrary()
    }

    /// The type's own equality test (for floating-point style types this is
    /// the exact comparison, which need not be reflexive).
    open spec fn eq_spec(self, rhs: Self) -> bool {
        vstd::pervasive::arbitrary()
    }

    /// The element standing for the integer coefficient `z`.
    open spec fn from_int_spec(z: int) -> Self {
        vstd::pervasive::arbitrary()
    }

    fn zero_val() -> (r: Self)
        ensures
            r == Self::zero_spec(),
    ;

    fn one_val() -> (r: Self)
        ensures
            r == Self::one_spec(),
    ;

    fn add_val(self, rhs: Self) -> (r: Self)
        ensures
            r == self.add_spec(rhs),
    ;

    fn sub_val(self, rhs: Self) -> (r: Self)
        ensures
            r == self.sub_spec(rhs),
    ;

    fn mul_val(self, rhs: Self) -> (r: Self)
        ensures
            r == self.mul_spec(rhs),
    ;

    fn div_val(self, rhs: Self) -> (r: Self)
        ensures
            r == self.div_spec(rhs),
    ;

    fn neg_val(self) -> (r: Self)
        ensures
            r == self.neg_spec(),
    ;

    fn abs_val(self) -> (r: Self)
        ensures
            r == self.abs_spec(),
    ;

    fn sqrt_val(self) -> (r: Self)
        ensures
            r == self.sqrt_spec(),
    ;

    fn eq_val(self, rhs: Self) -> (r: bool)
        ensures
            r == self.eq_spec(rhs),
    ;

    fn from_int_val(z: i32) -> (r: Self)
        ensures
            r == Self::from_int_spec(z as int),
    ;
}

/// Floor of the square root of `n` (zero for negative `n`), by the
/// divide-by-four recurrence.
pub open spec fn isqrt_spec(n: int) -> int
    decreases n,
{
    if n <= 0 {
        0
    } else if n < 4 {
        1
    } else {
        let r = 2 * isqrt_spec(n / 4);
        if (r + 1) * (r + 1) <= n {
            r + 1
        } else {
            r
        }
    }
}

/// Exact `i64` arithmetic, wrapping on overflow.  This instantiation gives
/// the engine a concrete element type whose operations Verus knows fully, so
/// the laws proved about the algorithms can be stated over it without any
/// trust.
impl Scalar for i64 {
    open spec fn zero_spec() -> i64 {
        0
    }

    open spec fn one_spec() -> i64 {
        1
    }

    open spec fn add_spec(self, rhs: i64) -> i64 {
        vstd::wrapping::i64_specs::wrapping_add(self, rhs)
    }

    open spec fn sub_spec(self, rhs: i64) -> i64 {
        vstd::wrapping::i64_specs::wrapping_sub(self, rhs)
    }

    open spec fn mul_spec(self, rhs: i64) -> i64 {
        vstd::wrapping::i64_specs::wrapping_mul(self, rhs)
    }

    open spec fn div_spec(self, rhs: i64) -> i64 {
        match self.checked_div(rhs) {
            Some(q) => q,
            None => if rhs == 0 {
                0
            } else {
                i64::MIN
            },
        }
    }

    open spec fn neg_spec(self) -> i64 {
        if self == i64::MIN {
            i64::MIN
        } else {
            (-(self as int)) as i64
        }
    }

    open spec fn abs_spec(self) -> i64 {
        if self == i64::MIN {
            i64::MIN
        } else if self < 0 {
            (-(self as int)) as i64
        } else {
            self
        }
    }

    open spec fn sqrt_spec(self) -> i64 {
        isqrt_spec(self as int) as i64
    }

    open spec fn eq_spec(self, rhs: i64) -> bool {
        self == rhs
    }

    open spec fn from_int_spec(z: int) -> i64 {
        if z < i64::MIN {
            i64::MIN
        } else if z > i64::MAX {
            i64::MAX
        } else {
            z as i64
        }
    }

    fn zero_val() -> i64 {
        0
    }

    fn one_val() -> i64 {
        1
    }

    fn add_val(self, rhs: i64) -> i64 {
        self.wrapping_add(rhs)
    }

    fn sub_val(self, rhs: i64) -> i64 {
        self.wrapping_sub(rhs)
    }

    fn mul_val(self, rhs: i64) -> i64 {
        self.wrapping_mul(rhs)
    }

    fn div_val(self, rhs: i64) -> (r: i64) {
        match self.checked_div(rhs) {
            Some(q) => q,
            None => {
                if rhs == 0 {
                    0
                } else {
                    i64::MIN
                }
            },
        }
    }

    fn neg_val(self) -> i64 {
        if self == i64::MIN {
            i64::MIN
        } else {
            -self
        }
    }

    fn abs_val(self) -> i64 {
        if self == i64::MIN {
            i64::MIN
        } else if self < 0 {
            -self
        } else {
            self
        }
    }

    fn sqrt_val(self) -> (r: i64) {
        i64_isqrt(self)
    }

    fn eq_val(self, rhs: i64) -> bool {
        self == rhs
    }

    fn from_int_val(z: i32) -> i64 {
        z as i64
    }
}

/// Floor square root on `i64`, mirroring `isqrt_spec`.
fn i64_isqrt(n: i64) -> (r: i64)
    ensures
        r == isqrt_spec(n as int),
    decreases n,
{
    if n <= 0 {
        0
    } else if n < 4 {
        1
    } else {
        let quarter = ((n as u64) / 4) as i64;
        assert(quarter == n as int / 4);
        let half = i64_isqrt(quarter);
        proof {
            lemma_isqrt_bound(n as int / 4);
            let h = isqrt_spec(n as int / 4);
            assert(h <= 0x1_0000_0000) by (nonlinear_arith)
                requires
                    0 <= h,
                    h * h <= n as int / 4,
                    n as int / 4 < 0x4000_0000_0000_0000,
            ;
        }
        let r = 2 * half;
        proof {
            assert((r as int + 1) * (r as int + 1) < 0x1_0000_0000_0000_0000_0000) by (nonlinear_arith)
                requires
                    0 <= r as int <= 0x2_0000_0001,
            ;
        }
        let wide: i128 = (r as i128 + 1) * (r as i128 + 1);
        if wide <= n as i128 {
            r + 1
        } else {
            r
        }
    }
}

/// The floor square root of a non-negative number is non-negative and small
/// enough that doubling it stays far from overflow.
proof fn lemma_isqrt_bound(n: int)
    ensures
        0 <= isqrt_spec(n),
        n >= 0 ==> isqrt_spec(n) * isqrt_spec(n) <= n,
    decreases n,
{
    if n >= 4 {
        lemma_isqrt_bound(n / 4);
        let h = isqrt_spec(n / 4);
        assert(h * h <= n / 4);
        assert((2 * h) * (2 * h) == 4 * (h * h)) by (nonlinear_arith);
        assert(4 * (h * h) <= 4 * (n / 4)) by (nonlinear_arith)
            requires
                h * h <= n / 4,
        ;
        assert(4 * (n / 4) <= n) by (nonlinear_arith)
            requires
                n >= 0,
        ;
    }
}

} // verus!
