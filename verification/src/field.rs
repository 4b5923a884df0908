//! Goldilocks field elements and four-element words.
//!
//! A [`Felt`] always holds its canonical representative, the unique value below
//! [`MODULUS`]. The invariant is enforced by the type, so every public function of the
//! library may rely on it without stating it.
use vstd::prelude::*;
use vstd::arithmetic::div_mod::{
    lemma_fundamental_div_mod, lemma_mod_multiples_vanish, lemma_mul_mod_noop_right,
    lemma_sub_mod_noop,
};

verus! {

/// The Goldilocks prime `2^64 - 2^32 + 1`.
pub const MODULUS: u64 = 0xffff_ffff_0000_0001;

/// A Goldilocks field element in canonical form.
#[derive(Debug, Clone, Copy, PartialEq, Eq, Structural)]
pub struct Felt {
    value: u64,
}

impl View for Felt {
    type V = u64;

    closed spec fn view(&self) -> u64 {
        self.value
    }
}

impl Felt {
    #[verifier::type_invariant]
    spec fn canonical(self) -> bool {
        self.value < MODULUS
    }

    /// The additive identity.
    pub fn zero() -> (r: Felt)
        ensures
            r@ == 0,
    {
        Felt { value: 0 }
    }

    /// The multiplicative identity.
    pub fn one() -> (r: Felt)
        ensures
            r@ == 1,
    {
        Felt { value: 1 }
    }

    /// Builds the field element congruent to `value`, reducing it once if it is not
    /// already canonical (one subtraction suffices because `2 * MODULUS > u64::MAX`).
    pub fn new(value: u64) -> (r: Felt)
        ensures
            r@ as int == value as int % (MODULUS as int),
            r@ < MODULUS,
    {
        if value < MODULUS {
            Felt { value }
        } else {
            Felt { value: value - MODULUS }
        }
    }

    /// Embeds a `u32` into the field.
    pub fn from_u32(value: u32) -> (r: Felt)
        ensures
            r@ == value,
            r == Felt::spec_from(value as u64),
    {
        Felt { value: value as u64 }
    }

    /// Builds a field element from a value already known to be canonical.
    pub fn from_canonical(value: u64) -> (r: Felt)
        requires
            value < MODULUS,
        ensures
            r@ == value,
    {
        Felt { value }
    }

    /// Builds a field element from a value, or `None` if the value is not canonical.
    pub fn try_from_canonical(value: u64) -> (r: Option<Felt>)
        ensures
            value < MODULUS ==> r == Some(Felt::spec_from(value)),
            value >= MODULUS ==> r.is_none(),
            r matches Some(f) ==> f@ == value,
    {
        if value < MODULUS {
            Some(Felt { value })
        } else {
            None
        }
    }

    /// The element whose canonical value is `value` (meaningful for canonical values).
    pub closed spec fn spec_from(value: u64) -> Felt {
        Felt { value }
    }

    /// Field addition.
    pub fn add(self, rhs: Felt) -> (r: Felt)
        ensures
            r@ == fadd(self@ as int, rhs@ as int),
    {
        proof {
            use_type_invariant(&self);
            use_type_invariant(&rhs);
        }
        let a = self.value;
        let b = rhs.value;
        if a >= MODULUS - b {
            let v = a - (MODULUS - b);
            proof {
                lemma_mod_shift_down(a + b);
            }
            Felt { value: v }
        } else {
            proof {
                lemma_mod_small(a + b);
            }
            Felt { value: a + b }
        }
    }

    /// Field subtraction.
    pub fn sub(self, rhs: Felt) -> (r: Felt)
        ensures
            r@ == fsub(self@ as int, rhs@ as int),
    {
        proof {
            use_type_invariant(&self);
            use_type_invariant(&rhs);
        }
        let a = self.value;
        let b = rhs.value;
        if a >= b {
            proof {
                lemma_mod_small(a - b);
            }
            Felt { value: a - b }
        } else {
            proof {
                lemma_mod_shift_up(a - b);
            }
            Felt { value: a + (MODULUS - b) }
        }
    }

    /// Field multiplication.
    pub fn mul(self, rhs: Felt) -> (r: Felt)
        ensures
            r@ == fmul(self@ as int, rhs@ as int),
    {
        proof {
            use_type_invariant(&self);
            use_type_invariant(&rhs);
        }
        let a = self.value as u128;
        let b = rhs.value as u128;
        proof {
            assert(a * b <= 0xffff_ffff_ffff_ffffu128 * 0xffff_ffff_ffff_ffffu128)
                by (nonlinear_arith)
                requires
                    a <= 0xffff_ffff_ffff_ffffu128,
                    b <= 0xffff_ffff_ffff_ffffu128,
            ;
        }
        let prod: u128 = a * b;
        let v = (prod % (MODULUS as u128)) as u64;
        Felt { value: v }
    }

    /// Boolean negation `1 - self`.
    pub fn not(self) -> (r: Felt)
        ensures
            r@ == fsub(1, self@ as int),
    {
        Felt::one().sub(self)
    }

    /// Whether the element is zero.
    pub fn is_zero(self) -> (r: bool)
        ensures
            r == (self@ == 0),
    {
        self.value == 0
    }

    /// The canonical representative, in `0..MODULUS`.
    pub fn as_canonical_u64(&self) -> (r: u64)
        ensures
            r == self@,
            r < MODULUS,
    {
        proof {
            use_type_invariant(self);
        }
        self.value
    }
}

impl Felt {
    /// The multiplicative inverse, or zero for an element that has none (zero is the only one,
    /// the modulus being prime). Computed with the extended Euclidean algorithm on the canonical
    /// value and the modulus.
    pub fn inverse_or_zero(self) -> (r: Felt)
        ensures
            has_inverse(self@ as int) ==> is_inverse(self@ as int, r@ as int),
            !has_inverse(self@ as int) ==> r@ == 0,
            r@ == spec_inverse_or_zero(self@ as int),
    {
        proof {
            use_type_invariant(&self);
        }
        let x = self.value;
        let ghost xi = x as int;
        let mut r0: u64 = MODULUS;
        let mut r1: u64 = x;
        let mut s0: u64 = 0;
        let mut s1: u64 = 1;
        // Ghost Bezout coefficients `r_i == x * bs_i + MODULUS * bt_i`, and the coefficients
        // `MODULUS == a0 * r0 + a1 * r1`, `x == b0 * r0 + b1 * r1` that run the algorithm backwards.
        let ghost mut bs0: int = 0;
        let ghost mut bs1: int = 1;
        let ghost mut bt0: int = 1;
        let ghost mut bt1: int = 0;
        let ghost mut a0: int = 1;
        let ghost mut a1: int = 0;
        let ghost mut b0: int = 0;
        let ghost mut b1: int = 1;
        while r1 != 0
            invariant
                xi == x,
                x < MODULUS,
                r0 > 0,
                r0 == xi * bs0 + (MODULUS as int) * bt0,
                r1 == xi * bs1 + (MODULUS as int) * bt1,
                s0 < MODULUS,
                s1 < MODULUS,
                s0 == bs0 % (MODULUS as int),
                s1 == bs1 % (MODULUS as int),
                MODULUS == a0 * r0 + a1 * r1,
                xi == b0 * r0 + b1 * r1,
            decreases r1,
        {
            let q = r0 / r1;
            let rem = r0 % r1;
            proof {
                assert((q as u128) * (s1 as u128) <= 0xffff_ffff_ffff_ffffu128
                    * 0xffff_ffff_ffff_ffffu128) by (nonlinear_arith)
                    requires
                        q <= 0xffff_ffff_ffff_ffffu64,
                        s1 <= 0xffff_ffff_ffff_ffffu64,
                ;
            }
            let t = (((q as u128) * (s1 as u128)) % (MODULUS as u128)) as u64;
            let s_new = if s0 >= t {
                s0 - t
            } else {
                s0 + (MODULUS - t)
            };
            proof {
                let m = MODULUS as int;
                let qi = q as int;
                lemma_fundamental_div_mod(r0 as int, r1 as int);
                assert(r0 as int == r1 as int * qi + rem as int);
                lemma_mul_mod_noop_right(qi, bs1, m);
                assert(t as int == (qi * bs1) % m);
                lemma_sub_mod_noop(bs0, qi * bs1, m);
                if s0 >= t {
                    lemma_mod_small(s0 - t);
                } else {
                    lemma_mod_shift_up(s0 - t);
                }
                assert(s_new as int == (bs0 - qi * bs1) % m);
                let r0i = r0 as int;
                let r1i = r1 as int;
                let remi = rem as int;
                assert(remi == xi * (bs0 - qi * bs1) + m * (bt0 - qi * bt1)) by (nonlinear_arith)
                    requires
                        r0i == r1i * qi + remi,
                        r0i == xi * bs0 + m * bt0,
                        r1i == xi * bs1 + m * bt1,
                ;
                assert(m == (a0 * qi + a1) * r1i + a0 * remi) by (nonlinear_arith)
                    requires
                        r0i == r1i * qi + remi,
                        m == a0 * r0i + a1 * r1i,
                ;
                assert(xi == (b0 * qi + b1) * r1i + b0 * remi) by (nonlinear_arith)
                    requires
                        r0i == r1i * qi + remi,
                        xi == b0 * r0i + b1 * r1i,
                ;
                let nbs = bs0 - qi * bs1;
                let nbt = bt0 - qi * bt1;
                let na0 = a0 * qi + a1;
                let nb0 = b0 * qi + b1;
                bs0 = bs1;
                bs1 = nbs;
                bt0 = bt1;
                bt1 = nbt;
                a1 = a0;
                a0 = na0;
                b1 = b0;
                b0 = nb0;
            }
            r0 = r1;
            r1 = rem;
            s0 = s1;
            s1 = s_new;
        }
        let m = MODULUS;
        if r0 == 1 {
            proof {
                let mi = m as int;
                assert(xi * bs0 == mi * (-bt0) + 1);
                lemma_mul_mod_noop_right(xi, bs0, mi);
                lemma_mod_multiples_vanish(-bt0, 1, mi);
                assert(fmul(xi, s0 as int) == 1);
                assert(is_inverse(xi, s0 as int));
            }
            proof {
                lemma_inverse_unique(xi, s0 as int, choose|y: int| is_inverse(xi, y));
            }
            Felt { value: s0 }
        } else {
            proof {
                assert(MODULUS == a0 * r0);
                assert(xi == b0 * r0);
                assert forall|y: int| !is_inverse(xi, y) by {
                    if is_inverse(xi, y) {
                        lemma_no_common_factor(xi, y, r0 as int, a0, b0);
                    }
                }
            }
            Felt { value: 0 }
        }
    }
}

/// `y` is a multiplicative inverse of `x`: a canonical value whose product with `x` is one.
pub open spec fn is_inverse(x: int, y: int) -> bool {
    0 <= y < MODULUS && fmul(x, y) == 1
}

/// The inverse of `x`, or zero where there is none.
pub open spec fn spec_inverse_or_zero(x: int) -> int {
    if has_inverse(x) {
        choose|y: int| is_inverse(x, y)
    } else {
        0
    }
}

/// `x` has a multiplicative inverse.
pub open spec fn has_inverse(x: int) -> bool {
    exists|y: int| is_inverse(x, y)
}

/// If `g` divides both the modulus and `x`, and `x` has the inverse `y`, then `g` is one.
proof fn lemma_no_common_factor(x: int, y: int, g: int, a: int, b: int)
    requires
        g > 0,
        MODULUS == a * g,
        x == b * g,
        is_inverse(x, y),
    ensures
        g == 1,
{
    let m = MODULUS as int;
    let k = (x * y) / m;
    lemma_fundamental_div_mod(x * y, m);
    assert(x * y == m * k + 1);
    assert(g * (b * y - a * k) == 1) by (nonlinear_arith)
        requires
            x * y == m * k + 1,
            m == a * g,
            x == b * g,
    ;
    lemma_unit_factor(g, b * y - a * k);
}

proof fn lemma_unit_factor(g: int, c: int)
    requires
        g > 0,
        g * c == 1,
    ensures
        g == 1,
{
    if c <= 0 {
        assert(g * c <= 0) by (nonlinear_arith)
            requires
                g > 0,
                c <= 0,
        ;
    } else if g >= 2 {
        assert(g * c >= 2) by (nonlinear_arith)
            requires
                g >= 2,
                c >= 1,
        ;
    }
}

/// A field element has at most one inverse.
pub proof fn lemma_inverse_unique(x: int, y: int, z: int)
    requires
        is_inverse(x, y),
        is_inverse(x, z),
    ensures
        y == z,
{
    let m = MODULUS as int;
    lemma_mul_mod_noop_right(y, x * z, m);
    lemma_mul_mod_noop_right(z, y * x, m);
    assert(x * y == y * x) by (nonlinear_arith);
    assert(y * (x * z) == z * (y * x)) by (nonlinear_arith);
    lemma_mod_small(y);
    lemma_mod_small(z);
}

impl Default for Felt {
    fn default() -> (r: Felt)
        ensures
            r@ == 0,
    {
        Felt { value: 0 }
    }
}

/// Field addition on canonical representatives.
pub open spec fn fadd(a: int, b: int) -> int {
    (a + b) % (MODULUS as int)
}

/// Field subtraction on canonical representatives.
pub open spec fn fsub(a: int, b: int) -> int {
    (a - b) % (MODULUS as int)
}

/// Field multiplication on canonical representatives.
pub open spec fn fmul(a: int, b: int) -> int {
    (a * b) % (MODULUS as int)
}

/// One is the multiplicative identity on canonical values.
pub proof fn lemma_fmul_one(x: int)
    requires
        0 <= x < MODULUS,
    ensures
        fmul(1, x) == x,
        fmul(x, 1) == x,
{
    assert(1 * x == x);
    assert(x * 1 == x);
    lemma_mod_small(x);
}

proof fn lemma_mod_small(x: int)
    requires
        0 <= x < MODULUS,
    ensures
        x % (MODULUS as int) == x,
{
}

proof fn lemma_mod_shift_down(x: int)
    requires
        MODULUS <= x < 2 * (MODULUS as int),
    ensures
        x % (MODULUS as int) == x - MODULUS,
{
}

proof fn lemma_mod_shift_up(x: int)
    requires
        -(MODULUS as int) <= x < 0,
    ensures
        x % (MODULUS as int) == x + MODULUS,
{
}

/// Four field elements, the digest and chaining-value width of the hash.
pub type Word = [Felt; 4];

/// The canonical values of a sequence of field elements.
pub open spec fn felt_values(s: Seq<Felt>) -> Seq<u64> {
    s.map_values(|f: Felt| f@)
}

/// The all-zero word.
pub fn zero_word() -> (r: Word)
    ensures
        felt_values(r@) == seq![0u64, 0u64, 0u64, 0u64],
{
    let r = [Felt::zero(), Felt::zero(), Felt::zero(), Felt::zero()];
    assert(felt_values(r@) =~= seq![0u64, 0u64, 0u64, 0u64]);
    r
}

} // verus!
