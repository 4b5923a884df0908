//! Chiplet selector constraints and the precomputed per-chiplet flags.
//!
//! `s_ctrl = chiplets[0]` marks hasher-controller rows and the virtual selector
//! `s0 = 1 - s_ctrl` marks every other chiplet row. The selectors `s1..s4` subdivide the `s0`
//! region, and the shared mode cell is the bitwise-local stream mode:
//!
//! | Chiplet     | Active when                    |
//! |-------------|--------------------------------|
//! | Controller  | `s_ctrl`                       |
//! | Bitwise     | `s0 * !s1`                     |
//! | Memory      | `s0 * s1 * !s2`                |
//! | ACE         | `s0 * s1 * s2 * !s3`           |
//! | Kernel ROM  | `s0 * s1 * s2 * s3 * !s4`      |
//!
//! The constraints force controller rows first, then the other chiplets in order; once a
//! selector becomes one it stays one; on the last row `s_ctrl = 0` and `s1 = s2 = s3 = s4 = 1`,
//! so no chiplet is active there.
use vstd::prelude::*;

use crate::columns::{ChipletCols, CHIPLETS_MODE_COL};
use crate::constraint_builder::{bool_check, ConstraintBuilder};
use crate::field::{fadd, felt_values, fmul, fsub, lemma_fmul_one, Felt, MODULUS};

verus! {

/// Precomputed flags for one chiplet.
#[derive(Debug, Clone, Copy)]
pub struct ChipletFlags<E> {
    /// 1 when this chiplet owns the current row.
    pub is_active: E,
    /// 1 on transitions where both the current and the next row belong to this chiplet.
    pub is_transition: E,
    /// 1 on the last row of this chiplet's section.
    pub is_last: E,
    /// 1 when the next row is the first row of this chiplet's section.
    pub next_is_first: E,
}

/// Local mode flags inside the bitwise selector region.
#[derive(Debug, Clone, Copy)]
pub struct StreamModeFlags<E> {
    /// Normal `u32and` / `u32xor` rows.
    pub normal_bitwise: E,
    /// AEAD stream rows.
    pub aead_stream: E,
}

/// Precomputed flags for the chiplets with main-trace constraints.
#[derive(Debug, Clone, Copy)]
pub struct ChipletSelectors<E> {
    pub controller: ChipletFlags<E>,
    pub bitwise: ChipletFlags<E>,
    pub stream_mode: StreamModeFlags<E>,
    pub memory: ChipletFlags<E>,
    pub ace: ChipletFlags<E>,
}

/// The selector values of a row: `[s_ctrl, stream_mode, s1, s2, s3, s4]`.
pub open spec fn selector_values(row: ChipletCols<Felt>) -> Seq<int> {
    seq![
        row.chiplets@[0]@ as int,
        row.chiplets@[CHIPLETS_MODE_COL as int]@ as int,
        row.chiplets@[1]@ as int,
        row.chiplets@[2]@ as int,
        row.chiplets@[3]@ as int,
        row.chiplets@[4]@ as int,
    ]
}

/// `s0 = 1 - s_ctrl`.
pub open spec fn p_s0(l: Seq<int>) -> int {
    fsub(1, l[0])
}

/// `s0 * s1`.
pub open spec fn p_s01(l: Seq<int>) -> int {
    fmul(p_s0(l), l[2])
}

/// `s0 * s1 * s2`.
pub open spec fn p_s012(l: Seq<int>) -> int {
    fmul(p_s01(l), l[3])
}

/// `s0 * s1 * s2 * s3`.
pub open spec fn p_s0123(l: Seq<int>) -> int {
    fmul(p_s012(l), l[4])
}

/// `s0 * s1 * s2 * s3 * s4`.
pub open spec fn p_s01234(l: Seq<int>) -> int {
    fmul(p_s0123(l), l[5])
}

/// The values of the selector constraints, in the order they are asserted.
pub open spec fn selector_constraints(l: Seq<int>, n: Seq<int>, t: int, last: int) -> Seq<int> {
    seq![
        bool_check(l[0]),
        fmul(fmul(t, p_s0(l)), n[0]),
        fmul(p_s0(l), bool_check(l[1])),
        fmul(p_s01(l), l[1]),
        fmul(p_s0(l), bool_check(l[2])),
        fmul(p_s01(l), bool_check(l[3])),
        fmul(p_s012(l), bool_check(l[4])),
        fmul(p_s0123(l), bool_check(l[5])),
        fmul(fmul(t, p_s01(l)), fsub(n[2], l[2])),
        fmul(fmul(t, p_s012(l)), fsub(n[3], l[3])),
        fmul(fmul(t, p_s0123(l)), fsub(n[4], l[4])),
        fmul(fmul(t, p_s01234(l)), fsub(n[5], l[5])),
        fmul(last, l[0]),
        fmul(last, fsub(l[2], 1)),
        fmul(last, fsub(l[3], 1)),
        fmul(last, fsub(l[4], 1)),
        fmul(last, fsub(l[5], 1)),
    ]
}

/// Controller flags.
pub open spec fn spec_controller_flags(l: Seq<int>, n: Seq<int>, t: int) -> ChipletFlags<int> {
    ChipletFlags {
        is_active: l[0],
        is_transition: fmul(fmul(t, l[0]), n[0]),
        is_last: fmul(l[0], fsub(1, n[0])),
        next_is_first: 0,
    }
}

/// Bitwise active flag `s0 - s0 * s1`.
pub open spec fn spec_is_bitwise(l: Seq<int>) -> int {
    fsub(p_s0(l), p_s01(l))
}

/// Memory active flag `s01 - s01 * s2`.
pub open spec fn spec_is_memory(l: Seq<int>) -> int {
    fsub(p_s01(l), p_s012(l))
}

/// ACE active flag `s012 - s012 * s3`.
pub open spec fn spec_is_ace(l: Seq<int>) -> int {
    fsub(p_s012(l), p_s0123(l))
}

/// Kernel ROM active flag `s0123 - s0123 * s4`.
pub open spec fn spec_is_kernel_rom(l: Seq<int>) -> int {
    fsub(p_s0123(l), p_s01234(l))
}

/// All precomputed flags.
pub open spec fn spec_chiplet_selectors(l: Seq<int>, n: Seq<int>, t: int) -> ChipletSelectors<int> {
    let ctrl = spec_controller_flags(l, n, t);
    let is_bitwise = spec_is_bitwise(l);
    let aead = fmul(is_bitwise, l[1]);
    ChipletSelectors {
        controller: ctrl,
        bitwise: ChipletFlags {
            is_active: is_bitwise,
            is_transition: fmul(fmul(t, p_s0(l)), fsub(1, n[2])),
            is_last: fmul(is_bitwise, n[2]),
            next_is_first: fmul(ctrl.is_last, fsub(1, n[2])),
        },
        stream_mode: StreamModeFlags { normal_bitwise: fsub(is_bitwise, aead), aead_stream: aead },
        memory: ChipletFlags {
            is_active: spec_is_memory(l),
            is_transition: fmul(fmul(t, p_s01(l)), fsub(1, n[3])),
            is_last: fmul(spec_is_memory(l), n[3]),
            next_is_first: fmul(fmul(fadd(is_bitwise, ctrl.is_last), n[2]), fsub(1, n[3])),
        },
        ace: ChipletFlags {
            is_active: spec_is_ace(l),
            is_transition: fmul(fmul(t, p_s012(l)), fsub(1, n[4])),
            is_last: fmul(spec_is_ace(l), n[4]),
            next_is_first: fmul(
                fmul(fmul(fmul(fsub(1, n[0]), n[2]), n[3]), fsub(1, n[4])),
                fsub(1, p_s012(l)),
            ),
        },
    }
}

/// The values of a set of flags.
pub open spec fn flags_values(f: ChipletFlags<Felt>) -> ChipletFlags<int> {
    ChipletFlags {
        is_active: f.is_active@ as int,
        is_transition: f.is_transition@ as int,
        is_last: f.is_last@ as int,
        next_is_first: f.next_is_first@ as int,
    }
}

/// The values of all precomputed flags.
pub open spec fn selectors_values(s: ChipletSelectors<Felt>) -> ChipletSelectors<int> {
    ChipletSelectors {
        controller: flags_values(s.controller),
        bitwise: flags_values(s.bitwise),
        stream_mode: StreamModeFlags {
            normal_bitwise: s.stream_mode.normal_bitwise@ as int,
            aead_stream: s.stream_mode.aead_stream@ as int,
        },
        memory: flags_values(s.memory),
        ace: flags_values(s.ace),
    }
}

/// Enforce the chiplet selector constraints on a pair of rows and build the precomputed flags.
///
/// Records, in order: booleanity of `s_ctrl`; no controller row after the `s0` region; the
/// bitwise-local stream mode (boolean under `s0`, zero once `s1 = 1`); booleanity of `s1..s4`
/// under their prefixes; stability of `s1..s4` once set; and the last-row invariant.
pub fn build_chiplet_selectors(
    builder: &mut ConstraintBuilder,
    local: &ChipletCols<Felt>,
    next: &ChipletCols<Felt>,
) -> (r: ChipletSelectors<Felt>)
    ensures
        final(builder).is_first_row == old(builder).is_first_row,
        final(builder).is_last_row == old(builder).is_last_row,
        final(builder).is_transition == old(builder).is_transition,
        felt_values(final(builder).constraints@) == felt_values(old(builder).constraints@)
            + selector_constraints(
            selector_values(*local),
            selector_values(*next),
            old(builder).is_transition@ as int,
            old(builder).is_last_row@ as int,
        ).map_values(|v: int| v as u64),
        selectors_values(r) == spec_chiplet_selectors(
            selector_values(*local),
            selector_values(*next),
            old(builder).is_transition@ as int,
        ),
{
    let ghost l = selector_values(*local);
    let ghost n = selector_values(*next);
    let ghost before = felt_values(builder.constraints@);
    let sel = local.chiplet_selectors();
    let sel_next = next.chiplet_selectors();

    let s_ctrl = sel[0];
    let s_ctrl_next = sel_next[0];
    let stream_mode = sel[1];
    let s1 = sel[2];
    let s2 = sel[3];
    let s3 = sel[4];
    let s4 = sel[5];
    let s1_next = sel_next[2];
    let s2_next = sel_next[3];
    let s3_next = sel_next[4];
    let s4_next = sel_next[5];

    let s0 = s_ctrl.not();
    let t = builder.is_transition();
    let last = builder.is_last_row;

    // Top-level partition and ordering.
    builder.assert_bool(s_ctrl);
    builder.assert_zero_when(t.mul(s0), s_ctrl_next);

    // Cumulative prefix products.
    let s01 = s0.mul(s1);
    let s012 = s01.mul(s2);
    let s0123 = s012.mul(s3);

    // Stream mode refines only the bitwise region.
    builder.assert_bool_when(s0, stream_mode);
    builder.assert_zero_when(s01, stream_mode);

    // Booleanity of s1..s4 under their prefixes.
    builder.assert_bool_when(s0, s1);
    builder.assert_bool_when(s01, s2);
    builder.assert_bool_when(s012, s3);
    builder.assert_bool_when(s0123, s4);

    // Stability: once set, s1..s4 stay set.
    let s01234 = s0123.mul(s4);
    builder.assert_eq_when(t.mul(s01), s1_next, s1);
    builder.assert_eq_when(t.mul(s012), s2_next, s2);
    builder.assert_eq_when(t.mul(s0123), s3_next, s3);
    builder.assert_eq_when(t.mul(s01234), s4_next, s4);

    // Last-row invariant.
    builder.assert_zero_when(last, s_ctrl);
    builder.assert_one_when(last, s1);
    builder.assert_one_when(last, s2);
    builder.assert_one_when(last, s3);
    builder.assert_one_when(last, s4);

    proof {
        assert(felt_values(builder.constraints@) =~= before + selector_constraints(
            l,
            n,
            t@ as int,
            last@ as int,
        ).map_values(|v: int| v as u64));
    }

    // Precomputed flags.
    let not_s1_next = s1_next.not();
    let not_s2_next = s2_next.not();
    let not_s3_next = s3_next.not();

    let ctrl_is_active = s_ctrl;
    let ctrl_is_transition = t.mul(s_ctrl).mul(s_ctrl_next);
    let ctrl_is_last = s_ctrl.mul(s_ctrl_next.not());
    let ctrl_next_is_first = Felt::zero();

    let is_bitwise = s0.sub(s01);
    let aead_stream_active = is_bitwise.mul(stream_mode);
    let is_memory = s01.sub(s012);
    let is_ace = s012.sub(s0123);
    let normal_bitwise = is_bitwise.sub(aead_stream_active);

    let is_bitwise_last = is_bitwise.mul(s1_next);
    let is_memory_last = is_memory.mul(s2_next);
    let is_ace_last = is_ace.mul(s3_next);

    let next_is_bitwise_first = ctrl_is_last.mul(not_s1_next);
    let next_is_memory_first = is_bitwise.add(ctrl_is_last).mul(s1_next).mul(not_s2_next);
    let next_row_is_ace = s_ctrl_next.not().mul(s1_next).mul(s2_next).mul(not_s3_next);
    let next_is_ace_first = next_row_is_ace.mul(s012.not());

    let bitwise_transition = t.mul(s0).mul(not_s1_next);
    let memory_transition = t.mul(s01).mul(not_s2_next);
    let ace_transition = t.mul(s012).mul(not_s3_next);

    ChipletSelectors {
        controller: ChipletFlags {
            is_active: ctrl_is_active,
            is_transition: ctrl_is_transition,
            is_last: ctrl_is_last,
            next_is_first: ctrl_next_is_first,
        },
        bitwise: ChipletFlags {
            is_active: is_bitwise,
            is_transition: bitwise_transition,
            is_last: is_bitwise_last,
            next_is_first: next_is_bitwise_first,
        },
        stream_mode: StreamModeFlags { normal_bitwise, aead_stream: aead_stream_active },
        memory: ChipletFlags {
            is_active: is_memory,
            is_transition: memory_transition,
            is_last: is_memory_last,
            next_is_first: next_is_memory_first,
        },
        ace: ChipletFlags {
            is_active: is_ace,
            is_transition: ace_transition,
            is_last: is_ace_last,
            next_is_first: next_is_ace_first,
        },
    }
}

/// Enforce the bitwise chiplet's row-local constraint: the operation flag (the first bitwise
/// column; 0 for AND, 1 for XOR) is boolean on normal bitwise rows.
pub fn enforce_bitwise_constraints(
    builder: &mut ConstraintBuilder,
    local: &ChipletCols<Felt>,
    next: &ChipletCols<Felt>,
    normal_bitwise: Felt,
)
    ensures
        final(builder).is_first_row == old(builder).is_first_row,
        final(builder).is_last_row == old(builder).is_last_row,
        final(builder).is_transition == old(builder).is_transition,
        felt_values(final(builder).constraints@) == felt_values(old(builder).constraints@).push(
            fmul(normal_bitwise@ as int, bool_check(local.chiplets@[2]@ as int)) as u64,
        ),
{
    let cols = local.bitwise();
    let op_flag = cols[0];
    builder.assert_bool_when(normal_bitwise, op_flag);
}

// ---------------------------------------------------------------------------------------------
// Laws

/// A field value that is zero or one.
pub open spec fn is_bit(x: int) -> bool {
    x == 0 || x == 1
}

/// A value that is a canonical field element.
pub open spec fn is_canonical(x: int) -> bool {
    0 <= x < MODULUS
}

/// Selector values `[s_ctrl, stream_mode, s1, s2, s3, s4]` with boolean chain selectors.
pub open spec fn boolean_chain(l: Seq<int>) -> bool {
    &&& l.len() == 6
    &&& is_bit(l[0])
    &&& is_bit(l[2])
    &&& is_bit(l[3])
    &&& is_bit(l[4])
    &&& is_bit(l[5])
}

/// Each active flag follows the selector table: the controller on `s_ctrl`, bitwise on
/// `s0 * !s1`, memory on `s0 * s1 * !s2`, ACE on `s0 * s1 * s2 * !s3`, kernel ROM on
/// `s0 * s1 * s2 * s3 * !s4`; the flags are boolean and at most one of them is set, exactly one
/// unless the row is past the kernel ROM section (`s0 * s1 * s2 * s3 * s4`).
pub proof fn lemma_active_flags_partition(l: Seq<int>)
    requires
        boolean_chain(l),
    ensures
        spec_is_bitwise(l) == (if l[0] == 0 && l[2] == 0 {
            1int
        } else {
            0
        }),
        spec_is_memory(l) == (if l[0] == 0 && l[2] == 1 && l[3] == 0 {
            1int
        } else {
            0
        }),
        spec_is_ace(l) == (if l[0] == 0 && l[2] == 1 && l[3] == 1 && l[4] == 0 {
            1int
        } else {
            0
        }),
        spec_is_kernel_rom(l) == (if l[0] == 0 && l[2] == 1 && l[3] == 1 && l[4] == 1 && l[5]
            == 0 {
            1int
        } else {
            0
        }),
        is_bit(p_s01234(l)),
        l[0] + spec_is_bitwise(l) + spec_is_memory(l) + spec_is_ace(l) + spec_is_kernel_rom(l)
            == 1 - p_s01234(l),
{
}

/// On the bitwise region the stream mode splits the bitwise rows: the normal-bitwise and
/// AEAD-stream flags are boolean and add up to the bitwise active flag.
pub proof fn lemma_stream_mode_split(l: Seq<int>)
    requires
        boolean_chain(l),
        is_bit(l[1]),
    ensures
        is_bit(fmul(spec_is_bitwise(l), l[1])),
        is_bit(fsub(spec_is_bitwise(l), fmul(spec_is_bitwise(l), l[1]))),
        fsub(spec_is_bitwise(l), fmul(spec_is_bitwise(l), l[1])) + fmul(spec_is_bitwise(l), l[1])
            == spec_is_bitwise(l),
{
    lemma_active_flags_partition(l);
}

/// On a transition out of a non-controller row whose constraints hold, the next row is not a
/// controller row: controller rows come first.
pub proof fn lemma_controller_rows_come_first(l: Seq<int>, n: Seq<int>, last: int)
    requires
        l.len() == 6,
        n.len() == 6,
        l[0] == 0,
        is_canonical(n[0]),
        selector_constraints(l, n, 1, last)[1] == 0,
    ensures
        n[0] == 0,
{
    assert(p_s0(l) == 1);
    assert(fmul(1, 1) == 1);
    lemma_fmul_one(n[0]);
}

proof fn lemma_gated_difference_vanishes(a: int, b: int)
    requires
        is_canonical(a),
        is_canonical(b),
        fmul(fmul(1, 1), fsub(a, b)) == 0,
    ensures
        a == b,
{
    assert(fmul(1, 1) == 1);
    assert(0 <= fsub(a, b) < MODULUS);
    assert(fmul(1, fsub(a, b)) == fsub(a, b));
    assert((a - b) % (MODULUS as int) == 0);
}

/// Once the stream mode's region is left (`s0 * s1 = 1`), a row satisfying the constraints has
/// stream mode zero.
pub proof fn lemma_stream_mode_zero_after_bitwise(l: Seq<int>, n: Seq<int>, t: int, last: int)
    requires
        boolean_chain(l),
        n.len() == 6,
        is_canonical(l[1]),
        p_s01(l) == 1,
        selector_constraints(l, n, t, last)[3] == 0,
    ensures
        l[1] == 0,
{
}

/// On a transition whose constraints hold, each of `s1..s4` that is set (under its prefix) stays
/// set on the next row.
pub proof fn lemma_selectors_stay_set(l: Seq<int>, n: Seq<int>, last: int)
    requires
        boolean_chain(l),
        n.len() == 6,
        is_canonical(n[2]),
        is_canonical(n[3]),
        is_canonical(n[4]),
        is_canonical(n[5]),
        selector_constraints(l, n, 1, last)[8] == 0,
        selector_constraints(l, n, 1, last)[9] == 0,
        selector_constraints(l, n, 1, last)[10] == 0,
        selector_constraints(l, n, 1, last)[11] == 0,
    ensures
        l[0] == 0 && l[2] == 1 ==> n[2] == 1,
        l[0] == 0 && l[2] == 1 && l[3] == 1 ==> n[3] == 1,
        l[0] == 0 && l[2] == 1 && l[3] == 1 && l[4] == 1 ==> n[4] == 1,
        l[0] == 0 && l[2] == 1 && l[3] == 1 && l[4] == 1 && l[5] == 1 ==> n[5] == 1,
{
    lemma_active_flags_partition(l);
    if l[0] == 0 && l[2] == 1 {
        assert(p_s01(l) == 1);
        lemma_gated_difference_vanishes(n[2], l[2]);
        if l[3] == 1 {
            assert(p_s012(l) == 1);
            lemma_gated_difference_vanishes(n[3], l[3]);
            if l[4] == 1 {
                assert(p_s0123(l) == 1);
                lemma_gated_difference_vanishes(n[4], l[4]);
                if l[5] == 1 {
                    assert(p_s01234(l) == 1);
                    lemma_gated_difference_vanishes(n[5], l[5]);
                }
            }
        }
    }
}

/// On the last row, when its constraints hold, `s_ctrl = 0`, `s1 = s2 = s3 = s4 = 1`, and no
/// chiplet is active.
pub proof fn lemma_last_row_has_no_active_chiplet(l: Seq<int>, n: Seq<int>, t: int)
    requires
        l.len() == 6,
        n.len() == 6,
        is_canonical(l[0]),
        is_canonical(l[2]),
        is_canonical(l[3]),
        is_canonical(l[4]),
        is_canonical(l[5]),
        forall|i: int| 12 <= i < 17 ==> #[trigger] selector_constraints(l, n, t, 1)[i] == 0,
    ensures
        l[0] == 0,
        l[2] == 1,
        l[3] == 1,
        l[4] == 1,
        l[5] == 1,
        spec_is_bitwise(l) == 0,
        spec_is_memory(l) == 0,
        spec_is_ace(l) == 0,
        spec_is_kernel_rom(l) == 0,
{
    assert(selector_constraints(l, n, t, 1)[12] == 0);
    assert(selector_constraints(l, n, t, 1)[13] == 0);
    assert(selector_constraints(l, n, t, 1)[14] == 0);
    assert(selector_constraints(l, n, t, 1)[15] == 0);
    assert(selector_constraints(l, n, t, 1)[16] == 0);
    lemma_active_flags_partition(l);
}

/// A chiplet's section ends where the next row has advanced past it: for boolean selectors, the
/// controller's last flag is set on a controller row followed by a non-controller row; bitwise's
/// on a bitwise row whose next row has `s1` set; memory's on a memory row whose next row has `s2`
/// set; ACE's on an ACE row whose next row has `s3` set; and each is zero otherwise.
pub proof fn lemma_last_flags_follow_table(l: Seq<int>, n: Seq<int>, t: int)
    requires
        boolean_chain(l),
        boolean_chain(n),
    ensures
        spec_chiplet_selectors(l, n, t).controller.is_last == (if l[0] == 1 && n[0] == 0 {
            1int
        } else {
            0
        }),
        spec_chiplet_selectors(l, n, t).bitwise.is_last == (if l[0] == 0 && l[2] == 0 && n[2] == 1 {
            1int
        } else {
            0
        }),
        spec_chiplet_selectors(l, n, t).memory.is_last == (if l[0] == 0 && l[2] == 1 && l[3] == 0
            && n[3] == 1 {
            1int
        } else {
            0
        }),
        spec_chiplet_selectors(l, n, t).ace.is_last == (if l[0] == 0 && l[2] == 1 && l[3] == 1 && l[4]
            == 0 && n[4] == 1 {
            1int
        } else {
            0
        }),
{
    lemma_active_flags_partition(l);
}

/// The transition flags follow the table on a transition row (`t = 1`) and vanish elsewhere: the
/// controller continues into a controller row; bitwise continues while `s1'` stays clear; memory
/// while `s2'` stays clear; ACE while `s3'` stays clear (each within its own prefix region). The
/// first-row flags mark the row before a section starts: bitwise after the controller's last row,
/// memory after a bitwise or last controller row when the next row has `s1'` but not `s2'`, and
/// ACE when the next row starts the `s1 s2 !s3` region from outside it.
pub proof fn lemma_transition_and_first_flags_follow_table(l: Seq<int>, n: Seq<int>, t: int)
    requires
        boolean_chain(l),
        boolean_chain(n),
        is_bit(t),
    ensures
        spec_chiplet_selectors(l, n, t).controller.is_transition == (if t == 1 && l[0] == 1 && n[0]
            == 1 {
            1int
        } else {
            0
        }),
        spec_chiplet_selectors(l, n, t).bitwise.is_transition == (if t == 1 && l[0] == 0 && n[2]
            == 0 {
            1int
        } else {
            0
        }),
        spec_chiplet_selectors(l, n, t).memory.is_transition == (if t == 1 && l[0] == 0 && l[2] == 1
            && n[3] == 0 {
            1int
        } else {
            0
        }),
        spec_chiplet_selectors(l, n, t).ace.is_transition == (if t == 1 && l[0] == 0 && l[2] == 1
            && l[3] == 1 && n[4] == 0 {
            1int
        } else {
            0
        }),
        spec_chiplet_selectors(l, n, t).bitwise.next_is_first == (if l[0] == 1 && n[0] == 0 && n[2]
            == 0 {
            1int
        } else {
            0
        }),
        spec_chiplet_selectors(l, n, t).memory.next_is_first == (if ((l[0] == 0 && l[2] == 0) || (
        l[0] == 1 && n[0] == 0)) && n[2] == 1 && n[3] == 0 {
            1int
        } else {
            0
        }),
        spec_chiplet_selectors(l, n, t).ace.next_is_first == (if n[0] == 0 && n[2] == 1 && n[3] == 1
            && n[4] == 0 && !(l[0] == 0 && l[2] == 1 && l[3] == 1) {
            1int
        } else {
            0
        }),
{
    lemma_active_flags_partition(l);
}

} // verus!
