//! Constraint evaluation at one pair of adjacent trace rows.
//!
//! A [`ConstraintBuilder`] holds the row context (first row, last row, transition) as field
//! values and records the value of every asserted constraint, gate included. A pair of rows
//! satisfies the constraints when every recorded value is zero.
use vstd::prelude::*;

use vstd::arithmetic::div_mod::{lemma_add_mod_noop, lemma_mul_mod_noop_right};

use crate::blakeg_messages::{pack_u32_le, spec_pack_le};
use crate::field::{fadd, felt_values, fmul, fsub, Felt, MODULUS};

verus! {

/// Evaluates constraints on concrete rows.
pub struct ConstraintBuilder {
    /// 1 on the first row, 0 elsewhere.
    pub is_first_row: Felt,
    /// 1 on the last row, 0 elsewhere.
    pub is_last_row: Felt,
    /// 1 on every row but the last, 0 on the last.
    pub is_transition: Felt,
    /// The value of each asserted constraint, in assertion order.
    pub constraints: Vec<Felt>,
}

/// The value `x * (x - 1)` of a booleanity constraint.
pub open spec fn bool_check(x: int) -> int {
    fmul(x, fsub(x, 1))
}

impl BoolNot for Felt {
    fn not(&self) -> (r: Felt)
        ensures
            r@ == fsub(1, self@ as int),
    {
        Felt::not(*self)
    }
}

/// The integer `sum(2^i * bits[i])` of little-endian limbs.
pub open spec fn bits_value(bits: Seq<u64>) -> int
    decreases bits.len(),
{
    if bits.len() == 0 {
        0
    } else {
        bits[0] + 2 * bits_value(bits.drop_first())
    }
}

/// Aggregate little-endian limbs into a field value with Horner's method:
/// `((limbs[N-1] * 2 + limbs[N-2]) * 2 + ...) * 2 + limbs[0]`, which is `sum(2^i * limbs[i])`.
pub fn horner_eval_bits<const N: usize>(limbs: &[Felt; N]) -> (r: Felt)
    requires
        N >= 1,
    ensures
        r@ == bits_value(felt_values(limbs@)) % (MODULUS as int),
{
    let ghost vals = felt_values(limbs@);
    let mut acc = limbs[N - 1];
    let _ = acc.as_canonical_u64();
    let mut i: usize = N - 1;
    proof {
        let last = vals.subrange(i as int, N as int);
        assert(last.drop_first() =~= Seq::<u64>::empty());
        assert(bits_value(Seq::<u64>::empty()) == 0);
        assert(bits_value(last) == vals[i as int]);
        assert(acc@ < MODULUS);
        assert((acc@ as int) % (MODULUS as int) == acc@);
    }
    while i > 0
        invariant
            N >= 1,
            i < N,
            vals == felt_values(limbs@),
            acc@ == bits_value(vals.subrange(i as int, N as int)) % (MODULUS as int),
        decreases i,
    {
        i = i - 1;
        let x = limbs[i];
        let _ = x.as_canonical_u64();
        let ghost b = bits_value(vals.subrange(i + 1, N as int));
        acc = acc.add(acc).add(x);
        proof {
            let m = MODULUS as int;
            assert(vals.subrange(i as int, N as int).drop_first() =~= vals.subrange(i + 1, N as int));
            assert(vals[i as int] == x@);
            lemma_mul_mod_noop_right(2, b, m);
            lemma_add_mod_noop(2 * b, x@ as int, m);
            assert((x@ as int) % m == x@);
            assert(fadd(b % m, b % m) == (2 * (b % m)) % m);
        }
    }
    assert(vals.subrange(0, N as int) =~= vals);
    acc
}

/// Pack four little-endian byte limbs into the field value `b0 + 2^8 b1 + 2^16 b2 + 2^24 b3`.
pub fn pack_u32_bytes_le(bytes: [Felt; 4]) -> (r: Felt)
    ensures
        r@ == spec_pack_le(bytes[0]@ as int, bytes[1]@ as int, bytes[2]@ as int, bytes[3]@ as int),
{
    pack_u32_le(bytes[0], bytes[1], bytes[2], bytes[3])
}

/// Boolean negation, `1 - x`.
pub trait BoolNot: Sized {
    fn not(&self) -> Self;
}

impl ConstraintBuilder {
    /// A builder for the given row context with no constraint recorded yet.
    pub fn new(is_first_row: Felt, is_last_row: Felt, is_transition: Felt) -> (r: ConstraintBuilder)
        ensures
            r.is_first_row == is_first_row,
            r.is_last_row == is_last_row,
            r.is_transition == is_transition,
            r.constraints@.len() == 0,
    {
        ConstraintBuilder { is_first_row, is_last_row, is_transition, constraints: Vec::new() }
    }

    /// The transition selector.
    pub fn is_transition(&self) -> (r: Felt)
        ensures
            r == self.is_transition,
    {
        self.is_transition
    }

    /// Assert that `x` vanishes.
    pub fn assert_zero(&mut self, x: Felt)
        ensures
            final(self).is_first_row == old(self).is_first_row,
            final(self).is_last_row == old(self).is_last_row,
            final(self).is_transition == old(self).is_transition,
            felt_values(final(self).constraints@) == felt_values(old(self).constraints@).push(x@),
    {
        self.constraints.push(x);
        proof {
            assert(felt_values(self.constraints@) =~= felt_values(old(self).constraints@).push(
                x@,
            ));
        }
    }

    /// Assert that `x` is boolean: records `x * (x - 1)`.
    pub fn assert_bool(&mut self, x: Felt)
        ensures
            final(self).is_first_row == old(self).is_first_row,
            final(self).is_last_row == old(self).is_last_row,
            final(self).is_transition == old(self).is_transition,
            felt_values(final(self).constraints@) == felt_values(old(self).constraints@).push(
                bool_check(x@ as int) as u64,
            ),
    {
        self.assert_zero(x.mul(x.sub(Felt::one())));
    }

    /// Assert that `x` vanishes wherever `gate` is one: records `gate * x`.
    pub fn assert_zero_when(&mut self, gate: Felt, x: Felt)
        ensures
            final(self).is_first_row == old(self).is_first_row,
            final(self).is_last_row == old(self).is_last_row,
            final(self).is_transition == old(self).is_transition,
            felt_values(final(self).constraints@) == felt_values(old(self).constraints@).push(
                fmul(gate@ as int, x@ as int) as u64,
            ),
    {
        self.assert_zero(gate.mul(x));
    }

    /// Assert that `x` is boolean wherever `gate` is one: records `gate * (x * (x - 1))`.
    pub fn assert_bool_when(&mut self, gate: Felt, x: Felt)
        ensures
            final(self).is_first_row == old(self).is_first_row,
            final(self).is_last_row == old(self).is_last_row,
            final(self).is_transition == old(self).is_transition,
            felt_values(final(self).constraints@) == felt_values(old(self).constraints@).push(
                fmul(gate@ as int, bool_check(x@ as int)) as u64,
            ),
    {
        let b = x.mul(x.sub(Felt::one()));
        self.assert_zero_when(gate, b);
    }

    /// Assert that `a` equals `b` wherever `gate` is one: records `gate * (a - b)`.
    pub fn assert_eq_when(&mut self, gate: Felt, a: Felt, b: Felt)
        ensures
            final(self).is_first_row == old(self).is_first_row,
            final(self).is_last_row == old(self).is_last_row,
            final(self).is_transition == old(self).is_transition,
            felt_values(final(self).constraints@) == felt_values(old(self).constraints@).push(
                fmul(gate@ as int, fsub(a@ as int, b@ as int)) as u64,
            ),
    {
        self.assert_zero_when(gate, a.sub(b));
    }

    /// Assert that `x` is one wherever `gate` is one: records `gate * (x - 1)`.
    pub fn assert_one_when(&mut self, gate: Felt, x: Felt)
        ensures
            final(self).is_first_row == old(self).is_first_row,
            final(self).is_last_row == old(self).is_last_row,
            final(self).is_transition == old(self).is_transition,
            felt_values(final(self).constraints@) == felt_values(old(self).constraints@).push(
                fmul(gate@ as int, fsub(x@ as int, 1)) as u64,
            ),
    {
        self.assert_zero_when(gate, x.sub(Felt::one()));
    }

    /// Whether every recorded constraint vanishes.
    pub fn is_satisfied(&self) -> (r: bool)
        ensures
            r == (forall|i: int|
                0 <= i < self.constraints@.len() ==> #[trigger] self.constraints@[i]@ == 0),
    {
        let mut i: usize = 0;
        while i < self.constraints.len()
            invariant
                i <= self.constraints@.len(),
                forall|j: int| 0 <= j < i ==> #[trigger] self.constraints@[j]@ == 0,
            decreases self.constraints@.len() - i,
        {
            if !self.constraints[i].is_zero() {
                return false;
            }
            i = i + 1;
        }
        true
    }
}

} // verus!
