//! The fused G rows of the 32-row BlakeG cycle.
//!
//! Each round of the compression is laid out as four fused rows: the column `a/b` half, the
//! column `c/d` half, the diagonal `a/b` half and the diagonal `c/d` half, each evaluating four G
//! half-steps side by side. Over the 28 fused rows the working state goes through exactly the
//! seven rounds of the BlakeG compression.
use vstd::prelude::*;

use crate::blakeg::{add32, rotr, spec_final_state, spec_initial_state, spec_permute, spec_round, spec_rounds};
use crate::blakeg_layout::{
    g_ac_byte_slot_col, g_bd_rot_slot_col, g_msg_slot_col, BYTES_PER_WORD, FUSED_G_ROWS,
    G_A_BASE_COL, G_C_BASE_COL, G_K2_BASE_COL, G_K3_BIT0_BASE_COL, G_K3_BIT1_BASE_COL, NUM_G,
};
use crate::blakeg_trace::{slot_lookup, write_lookup_slot, BlakeGByteLookup, BlakeGRow, ByteLookupRecorder};

verus! {

/// The G half-steps of one fused row.
#[derive(Debug, Clone, Copy, PartialEq, Eq)]
pub struct FusedStep {
    /// The state lanes `[a, b, c, d]` of each G function.
    pub lane_map: [[usize; 4]; 4],
    /// The message word added by each G function.
    pub message_indices: [usize; 4],
    /// Rotation applied to `d ^ a`.
    pub first_rotation: u32,
    /// Rotation applied to `b ^ c`.
    pub second_rotation: u32,
}

/// The message-word permutation as an index map: `permute(m)[i] == m[perm_index(i)]`.
pub open spec fn perm_index(i: int) -> int {
    seq![2int, 6, 3, 10, 7, 0, 4, 13, 1, 11, 12, 5, 9, 14, 15, 8][i]
}

/// The index into the unpermuted block of word `i` of the message used by round `r`.
pub open spec fn msg_index(r: nat, i: int) -> int
    decreases r,
{
    if r == 0 {
        i
    } else {
        msg_index((r - 1) as nat, perm_index(i))
    }
}

/// The message permuted `r` times.
pub open spec fn permute_n(m: Seq<u32>, r: nat) -> Seq<u32>
    decreases r,
{
    if r == 0 {
        m
    } else {
        spec_permute(permute_n(m, (r - 1) as nat))
    }
}

/// The state lanes of G function `g` on a column (`diagonal == false`) or diagonal step.
pub open spec fn spec_lanes(diagonal: bool, g: int) -> Seq<int> {
    if !diagonal {
        seq![g, g + 4, g + 8, g + 12]
    } else if g == 0 {
        seq![0int, 5, 10, 15]
    } else if g == 1 {
        seq![1int, 6, 11, 12]
    } else if g == 2 {
        seq![2int, 7, 8, 13]
    } else {
        seq![3int, 4, 9, 14]
    }
}

/// The message index of G function `g` on fused row `row`.
pub open spec fn spec_row_message_index(row: int, g: int) -> int {
    let round = row / 4;
    let sub = row % 4;
    let offset = if sub < 2 { 0int } else { 8 };
    msg_index(round as nat, offset + 2 * g + sub % 2)
}

/// The fused step of row `row` (for rows below 28).
pub open spec fn spec_fused_step_matches(step: FusedStep, row: int) -> bool {
    let sub = row % 4;
    let diag = sub >= 2;
    &&& forall|g: int, k: int|
        0 <= g < 4 && 0 <= k < 4 ==> #[trigger] step.lane_map@[g]@[k] == spec_lanes(diag, g)[k]
    &&& forall|g: int| 0 <= g < 4 ==> step.message_indices@[g] == #[trigger] spec_row_message_index(row, g)
    &&& step.first_rotation == if sub % 2 == 0 { 16u32 } else { 8u32 }
    &&& step.second_rotation == if sub % 2 == 0 { 12u32 } else { 7u32 }
}

proof fn lemma_msg_index_range(r: nat, i: int)
    requires
        0 <= i < 16,
    ensures
        0 <= msg_index(r, i) < 16,
    decreases r,
{
    if r > 0 {
        lemma_msg_index_range((r - 1) as nat, perm_index(i));
    }
}

/// The inverse of the message-word permutation.
pub open spec fn inv_perm_index(i: int) -> int {
    seq![5int, 8, 0, 2, 6, 11, 1, 4, 15, 12, 3, 9, 10, 7, 13, 14][i]
}

proof fn lemma_perm_inverse(x: int)
    requires
        0 <= x < 16,
    ensures
        0 <= perm_index(x) < 16,
        0 <= inv_perm_index(x) < 16,
        perm_index(inv_perm_index(x)) == x,
        inv_perm_index(perm_index(x)) == x,
{
    if x == 0 {
    } else if x == 1 {
    } else if x == 2 {
    } else if x == 3 {
    } else if x == 4 {
    } else if x == 5 {
    } else if x == 6 {
    } else if x == 7 {
    } else if x == 8 {
    } else if x == 9 {
    } else if x == 10 {
    } else if x == 11 {
    } else if x == 12 {
    } else if x == 13 {
    } else if x == 14 {
    } else {
    }
}

/// The position in round `r`'s message of the unpermuted word `m`.
pub open spec fn msg_position(r: nat, m: int) -> int
    decreases r,
{
    if r == 0 {
        m
    } else {
        inv_perm_index(msg_position((r - 1) as nat, m))
    }
}

proof fn lemma_msg_position(r: nat, m: int)
    requires
        0 <= m < 16,
    ensures
        0 <= msg_position(r, m) < 16,
        msg_index(r, msg_position(r, m)) == m,
    decreases r,
{
    if r > 0 {
        let x = msg_position((r - 1) as nat, m);
        lemma_msg_position((r - 1) as nat, m);
        lemma_perm_inverse(x);
    }
}

proof fn lemma_msg_index_injective(r: nat, i: int, j: int)
    requires
        0 <= i < 16,
        0 <= j < 16,
        msg_index(r, i) == msg_index(r, j),
    ensures
        i == j,
    decreases r,
{
    if r > 0 {
        lemma_perm_inverse(i);
        lemma_perm_inverse(j);
        lemma_msg_index_injective((r - 1) as nat, perm_index(i), perm_index(j));
    }
}

/// Every round of the fused rows reads each of the sixteen message words exactly once: over
/// the four rows `4r..4r + 4` of round `r` and the four G functions of each row, message word
/// `m` is read at exactly one position.
pub proof fn lemma_each_round_reads_every_message_word_once(r: int, m: int)
    requires
        0 <= r < 7,
        0 <= m < 16,
    ensures
        exists|k: int, g: int|
            0 <= k < 4 && 0 <= g < 4 && #[trigger] spec_row_message_index(4 * r + k, g) == m,
        forall|k1: int, g1: int, k2: int, g2: int|
            0 <= k1 < 4 && 0 <= g1 < 4 && 0 <= k2 < 4 && 0 <= g2 < 4 && #[trigger]
                spec_row_message_index(4 * r + k1, g1) == m && #[trigger] spec_row_message_index(
                4 * r + k2,
                g2,
            ) == m ==> k1 == k2 && g1 == g2,
{
    lemma_msg_position(r as nat, m);
    let i = msg_position(r as nat, m);
    let k = 2 * (i / 8) + i % 2;
    let g = (i % 8) / 2;
    assert((4 * r + k) / 4 == r);
    assert((4 * r + k) % 4 == k);
    assert(spec_row_message_index(4 * r + k, g) == m);
    assert forall|k1: int, g1: int, k2: int, g2: int|
        0 <= k1 < 4 && 0 <= g1 < 4 && 0 <= k2 < 4 && 0 <= g2 < 4 && #[trigger]
            spec_row_message_index(4 * r + k1, g1) == m && #[trigger] spec_row_message_index(
            4 * r + k2,
            g2,
        ) == m implies k1 == k2 && g1 == g2 by {
        assert((4 * r + k1) / 4 == r && (4 * r + k1) % 4 == k1);
        assert((4 * r + k2) / 4 == r && (4 * r + k2) % 4 == k2);
        let i1 = (if k1 < 2 { 0int } else { 8 }) + 2 * g1 + k1 % 2;
        let i2 = (if k2 < 2 { 0int } else { 8 }) + 2 * g2 + k2 % 2;
        lemma_msg_index_injective(r as nat, i1, i2);
    }
}

/// The message indices of round `r`.
fn message_schedule(r: usize) -> (idx: [usize; 16])
    ensures
        forall|i: int| 0 <= i < 16 ==> idx@[i] == msg_index(r as nat, i),
{
    let perm: [usize; 16] = [2, 6, 3, 10, 7, 0, 4, 13, 1, 11, 12, 5, 9, 14, 15, 8];
    let mut idx: [usize; 16] = [0, 1, 2, 3, 4, 5, 6, 7, 8, 9, 10, 11, 12, 13, 14, 15];
    let mut j: usize = 0;
    while j < r
        invariant
            j <= r,
            forall|k: int| 0 <= k < 16 ==> perm@[k] == perm_index(k),
            forall|i: int| 0 <= i < 16 ==> idx@[i] == msg_index(j as nat, i),
        decreases r - j,
    {
        let mut next: [usize; 16] = [0; 16];
        let mut i: usize = 0;
        while i < 16
            invariant
                i <= 16,
                forall|k: int| 0 <= k < 16 ==> perm@[k] == perm_index(k),
                forall|k: int| 0 <= k < 16 ==> idx@[k] == msg_index(j as nat, k),
                forall|k: int| 0 <= k < i ==> next@[k] == msg_index((j + 1) as nat, k),
            decreases 16 - i,
        {
            proof {
                lemma_msg_perm_step(j as nat, i as int);
            }
            next[i] = idx[perm[i]];
            i = i + 1;
        }
        idx = next;
        j = j + 1;
    }
    idx
}

proof fn lemma_msg_perm_step(j: nat, i: int)
    requires
        0 <= i < 16,
    ensures
        0 <= perm_index(i) < 16,
        msg_index(j + 1, i) == msg_index(j, perm_index(i)),
    decreases j,
{
    if j > 0 {
        lemma_msg_perm_step((j - 1) as nat, perm_index(i));
    }
    assert(msg_index(j + 1, i) == msg_index(j, perm_index(i))) by {
        lemma_msg_index_unfold_last(j, i);
    }
}

proof fn lemma_msg_index_unfold_last(j: nat, i: int)
    ensures
        msg_index(j + 1, i) == msg_index(j, perm_index(i)),
{
}

fn lanes_of(diagonal: bool, g: usize) -> (r: [usize; 4])
    requires
        g < 4,
    ensures
        forall|k: int| 0 <= k < 4 ==> r@[k] == spec_lanes(diagonal, g as int)[k],
{
    if !diagonal {
        [g, g + 4, g + 8, g + 12]
    } else if g == 0 {
        [0, 5, 10, 15]
    } else if g == 1 {
        [1, 6, 11, 12]
    } else if g == 2 {
        [2, 7, 8, 13]
    } else {
        [3, 4, 9, 14]
    }
}

/// The fused step of row `row_idx`, or `None` past the fused rows.
pub fn fused_step_at(row_idx: usize) -> (r: Option<FusedStep>)
    ensures
        row_idx >= FUSED_G_ROWS ==> r is None,
        row_idx < FUSED_G_ROWS ==> (r matches Some(step) && spec_fused_step_matches(step, row_idx as int)),
{
    if row_idx >= FUSED_G_ROWS {
        return None;
    }
    let round = row_idx / 4;
    let sub = row_idx % 4;
    let diagonal = sub >= 2;
    let offset: usize = if sub < 2 {
        0
    } else {
        8
    };
    let schedule = message_schedule(round);
    let lane_map = [
        lanes_of(diagonal, 0),
        lanes_of(diagonal, 1),
        lanes_of(diagonal, 2),
        lanes_of(diagonal, 3),
    ];
    let message_indices = [
        schedule[offset + sub % 2],
        schedule[offset + 2 + sub % 2],
        schedule[offset + 4 + sub % 2],
        schedule[offset + 6 + sub % 2],
    ];
    let (first_rotation, second_rotation) = if sub % 2 == 0 {
        (16u32, 12u32)
    } else {
        (8u32, 7u32)
    };
    let step = FusedStep { lane_map, message_indices, first_rotation, second_rotation };
    proof {
        assert forall|g: int| 0 <= g < 4 implies step.message_indices@[g]
            == #[trigger] spec_row_message_index(row_idx as int, g) by {
            assert(row_idx as int / 4 == round);
        }
    }
    Some(step)
}

// ---------------------------------------------------------------------------------------------
// Half steps

/// One G half-step on lanes `l = [a, b, c, d]` with message word `msg`.
pub open spec fn spec_half_g(v: Seq<u32>, l: Seq<int>, msg: u32, r1: u32, r2: u32) -> Seq<u32> {
    let a_new = add32(add32(v[l[0]], v[l[1]]), msg);
    let d_new = rotr(v[l[3]] ^ a_new, r1);
    let c_new = add32(v[l[2]], d_new);
    let b_new = rotr(v[l[1]] ^ c_new, r2);
    v.update(l[0], a_new).update(l[3], d_new).update(l[2], c_new).update(l[1], b_new)
}

/// The state after fused row `row` of a cycle over message `block`.
pub open spec fn spec_fused_row(v: Seq<u32>, block: Seq<u32>, row: int) -> Seq<u32> {
    let sub = row % 4;
    let diag = sub >= 2;
    let r1: u32 = if sub % 2 == 0 { 16 } else { 8 };
    let r2: u32 = if sub % 2 == 0 { 12 } else { 7 };
    let v0 = spec_half_g(v, spec_lanes(diag, 0), block[spec_row_message_index(row, 0)], r1, r2);
    let v1 = spec_half_g(v0, spec_lanes(diag, 1), block[spec_row_message_index(row, 1)], r1, r2);
    let v2 = spec_half_g(v1, spec_lanes(diag, 2), block[spec_row_message_index(row, 2)], r1, r2);
    spec_half_g(v2, spec_lanes(diag, 3), block[spec_row_message_index(row, 3)], r1, r2)
}

/// The state after the first `n` fused rows.
pub open spec fn spec_fused_rows(v: Seq<u32>, block: Seq<u32>, n: nat) -> Seq<u32>
    decreases n,
{
    if n == 0 {
        v
    } else {
        spec_fused_row(spec_fused_rows(v, block, (n - 1) as nat), block, n - 1)
    }
}

/// The carries of one G half-step: `a + b + msg = a_new + 2^32 * k3` and
/// `c + d_new = c_new + 2^32 * k2`.
pub open spec fn spec_k3(a: u32, b: u32, msg: u32) -> int {
    (a + b + msg) / 0x1_0000_0000
}

pub open spec fn spec_k2(c: u32, d_new: u32) -> int {
    (c + d_new) / 0x1_0000_0000
}

/// Byte `i` of a word.
pub open spec fn byte_of(x: u32, i: int) -> u32 {
    (x >> ((8 * i) as u32)) & 0xff
}

/// The contribution of byte `i` of `b ^ c` to `rotr(b ^ c, rotation)`.
pub open spec fn spec_rotation_contribution(i: int, b_byte: u32, c_byte: u32, rotation: u32) -> u32 {
    rotr((b_byte ^ c_byte) << ((8 * i) as u32), rotation)
}

/// The contribution of byte `byte` of `b ^ c` to the rotated word `rotr(b ^ c, rotation)`.
pub fn blakeg_rotation_contribution(byte: usize, b_byte: u32, c_byte: u32, rotation: u32) -> (r: u32)
    requires
        byte < 4,
        0 < rotation < 32,
    ensures
        r == spec_rotation_contribution(byte as int, b_byte, c_byte, rotation),
{
    let x = (b_byte ^ c_byte) << (8 * byte as u32);
    (x >> rotation) | (x << (32 - rotation))
}

/// The four byte contributions of `b ^ c` add up to the rotated word, for the two rotations the
/// fused rows check through byte lookups.
pub proof fn lemma_rotation_contributions_sum(b: u32, c: u32, rotation: u32)
    requires
        rotation == 12 || rotation == 7,
    ensures
        spec_rotation_contribution(0, byte_of(b, 0), byte_of(c, 0), rotation) as int
            + spec_rotation_contribution(1, byte_of(b, 1), byte_of(c, 1), rotation) as int
            + spec_rotation_contribution(2, byte_of(b, 2), byte_of(c, 2), rotation) as int
            + spec_rotation_contribution(3, byte_of(b, 3), byte_of(c, 3), rotation) as int == rotr(
            b ^ c,
            rotation,
        ) as int,
{
    if rotation == 12 {
        assert((rotr(((b >> 0u32) & 0xff ^ (c >> 0u32) & 0xff) << 0u32, 12) as u64) + (rotr(
            ((b >> 8u32) & 0xff ^ (c >> 8u32) & 0xff) << 8u32,
            12,
        ) as u64) + (rotr(((b >> 16u32) & 0xff ^ (c >> 16u32) & 0xff) << 16u32, 12) as u64)
            + (rotr(((b >> 24u32) & 0xff ^ (c >> 24u32) & 0xff) << 24u32, 12) as u64) == rotr(
            b ^ c,
            12,
        ) as u64) by (bit_vector);
    } else {
        assert((rotr(((b >> 0u32) & 0xff ^ (c >> 0u32) & 0xff) << 0u32, 7) as u64) + (rotr(
            ((b >> 8u32) & 0xff ^ (c >> 8u32) & 0xff) << 8u32,
            7,
        ) as u64) + (rotr(((b >> 16u32) & 0xff ^ (c >> 16u32) & 0xff) << 16u32, 7) as u64)
            + (rotr(((b >> 24u32) & 0xff ^ (c >> 24u32) & 0xff) << 24u32, 7) as u64) == rotr(
            b ^ c,
            7,
        ) as u64) by (bit_vector);
    }
}

// ---------------------------------------------------------------------------------------------
// The fused rows compute the compression rounds

proof fn lemma_permute_n_index(m: Seq<u32>, r: nat, i: int)
    requires
        m.len() == 16,
        0 <= i < 16,
    ensures
        permute_n(m, r).len() == 16,
        permute_n(m, r)[i] == m[msg_index(r, i)],
    decreases r,
{
    if r > 0 {
        lemma_permute_n_index(m, (r - 1) as nat, perm_index(i));
        lemma_permute_n_len(m, (r - 1) as nat);
        lemma_msg_perm_step((r - 1) as nat, i);
    }
}

proof fn lemma_permute_n_len(m: Seq<u32>, r: nat)
    requires
        m.len() == 16,
    ensures
        permute_n(m, r).len() == 16,
    decreases r,
{
    if r > 0 {
        lemma_permute_n_len(m, (r - 1) as nat);
    }
}

/// The first half of the quarter-round.
pub open spec fn half1(a: u32, b: u32, c: u32, d: u32, x: u32) -> (u32, u32, u32, u32) {
    let a1 = add32(add32(a, b), x);
    let d1 = rotr(d ^ a1, 16);
    let c1 = add32(c, d1);
    let b1 = rotr(b ^ c1, 12);
    (a1, b1, c1, d1)
}

/// The second half of the quarter-round.
pub open spec fn half2(a: u32, b: u32, c: u32, d: u32, y: u32) -> (u32, u32, u32, u32) {
    let a2 = add32(add32(a, b), y);
    let d2 = rotr(d ^ a2, 8);
    let c2 = add32(c, d2);
    let b2 = rotr(b ^ c2, 7);
    (a2, b2, c2, d2)
}

/// Four half-steps with rotations `(r1, r2)` on the four column (or diagonal) lane groups.
pub open spec fn four_halves(v: Seq<u32>, diag: bool, msgs: Seq<u32>, r1: u32, r2: u32) -> Seq<u32> {
    let v0 = spec_half_g(v, spec_lanes(diag, 0), msgs[0], r1, r2);
    let v1 = spec_half_g(v0, spec_lanes(diag, 1), msgs[1], r1, r2);
    let v2 = spec_half_g(v1, spec_lanes(diag, 2), msgs[2], r1, r2);
    spec_half_g(v2, spec_lanes(diag, 3), msgs[3], r1, r2)
}

proof fn lemma_row_is_four_halves(v: Seq<u32>, block: Seq<u32>, r: nat, sub: int)
    requires
        0 <= sub < 4,
        block.len() == 16,
    ensures
        spec_fused_row(v, block, 4 * r + sub) == four_halves(
            v,
            sub >= 2,
            Seq::new(
                4,
                |g: int|
                    permute_n(block, r)[(if sub < 2 {
                        0int
                    } else {
                        8
                    }) + 2 * g + sub % 2],
            ),
            if sub % 2 == 0 {
                16u32
            } else {
                8u32
            },
            if sub % 2 == 0 {
                12u32
            } else {
                7u32
            },
        ),
{
    let row = 4 * r + sub;
    assert(row / 4 == r);
    assert(row % 4 == sub);
    let off: int = if sub < 2 {
        0
    } else {
        8
    };
    assert forall|g: int| 0 <= g < 4 implies block[#[trigger] spec_row_message_index(row, g)]
        == permute_n(block, r)[off + 2 * g + sub % 2] by {
        lemma_permute_n_index(block, r, off + 2 * g + sub % 2);
    }
    assert(block[spec_row_message_index(row, 0)] == permute_n(block, r)[off + sub % 2]);
    assert(block[spec_row_message_index(row, 1)] == permute_n(block, r)[off + 2 + sub % 2]);
    assert(block[spec_row_message_index(row, 2)] == permute_n(block, r)[off + 4 + sub % 2]);
    assert(block[spec_row_message_index(row, 3)] == permute_n(block, r)[off + 6 + sub % 2]);
}

#[verifier::spinoff_prover]
#[verifier::rlimit(60)]
proof fn lemma_round_as_halves(v: Seq<u32>, m: Seq<u32>)
    requires
        v.len() == 16,
        m.len() == 16,
    ensures
        four_halves(
            four_halves(
                four_halves(
                    four_halves(v, false, seq![m[0], m[2], m[4], m[6]], 16, 12),
                    false,
                    seq![m[1], m[3], m[5], m[7]],
                    8,
                    7,
                ),
                true,
                seq![m[8], m[10], m[12], m[14]],
                16,
                12,
            ),
            true,
            seq![m[9], m[11], m[13], m[15]],
            8,
            7,
        ) == spec_round(v, m),
{
    let w1 = four_halves(v, false, seq![m[0], m[2], m[4], m[6]], 16, 12);
    let w2 = four_halves(w1, false, seq![m[1], m[3], m[5], m[7]], 8, 7);
    let w3 = four_halves(w2, true, seq![m[8], m[10], m[12], m[14]], 16, 12);
    let w4 = four_halves(w3, true, seq![m[9], m[11], m[13], m[15]], 8, 7);
    assert(w4 =~= spec_round(v, m));
}

#[verifier::spinoff_prover]
#[verifier::rlimit(60)]
proof fn lemma_four_rows_are_a_round(v: Seq<u32>, block: Seq<u32>, r: nat)
    requires
        v.len() == 16,
        block.len() == 16,
    ensures
        spec_fused_row(
            spec_fused_row(
                spec_fused_row(spec_fused_row(v, block, (4 * r) as int), block, (4 * r + 1) as int),
                block,
                (4 * r + 2) as int,
            ),
            block,
            (4 * r + 3) as int,
        ) == spec_round(v, permute_n(block, r)),
{
    let m = permute_n(block, r);
    lemma_permute_n_len(block, r);
    lemma_row_is_four_halves(v, block, r, 0);
    let w1 = spec_fused_row(v, block, (4 * r) as int);
    lemma_row_is_four_halves(w1, block, r, 1);
    let w2 = spec_fused_row(w1, block, (4 * r + 1) as int);
    lemma_row_is_four_halves(w2, block, r, 2);
    let w3 = spec_fused_row(w2, block, (4 * r + 2) as int);
    lemma_row_is_four_halves(w3, block, r, 3);
    assert(Seq::new(4, |g: int| m[0 + 2 * g + 0]) =~= seq![m[0], m[2], m[4], m[6]]);
    assert(Seq::new(4, |g: int| m[0 + 2 * g + 1]) =~= seq![m[1], m[3], m[5], m[7]]);
    assert(Seq::new(4, |g: int| m[8 + 2 * g + 0]) =~= seq![m[8], m[10], m[12], m[14]]);
    assert(Seq::new(4, |g: int| m[8 + 2 * g + 1]) =~= seq![m[9], m[11], m[13], m[15]]);
    lemma_round_as_halves(v, m);
}

/// The state after the first `k` rounds, the message permuted once per round.
pub open spec fn rounds_upto(v: Seq<u32>, block: Seq<u32>, k: nat) -> Seq<u32>
    decreases k,
{
    if k == 0 {
        v
    } else {
        spec_round(rounds_upto(v, block, (k - 1) as nat), permute_n(block, (k - 1) as nat))
    }
}

proof fn lemma_rounds_upto_len(v: Seq<u32>, block: Seq<u32>, k: nat)
    requires
        v.len() == 16,
    ensures
        rounds_upto(v, block, k).len() == 16,
    decreases k,
{
    if k > 0 {
        lemma_rounds_upto_len(v, block, (k - 1) as nat);
    }
}

proof fn lemma_rounds_split(v: Seq<u32>, block: Seq<u32>, j: nat, k: nat)
    ensures
        spec_rounds(rounds_upto(v, block, j), permute_n(block, j), k) == rounds_upto(v, block, j + k),
    decreases k,
{
    if k > 0 {
        lemma_rounds_split(v, block, j + 1, (k - 1) as nat);
        assert(j + 1 + (k - 1) == j + k);
    }
}

proof fn lemma_fused_rows_are_rounds(v: Seq<u32>, block: Seq<u32>, k: nat)
    requires
        v.len() == 16,
        block.len() == 16,
    ensures
        spec_fused_rows(v, block, 4 * k) == rounds_upto(v, block, k),
        spec_fused_rows(v, block, 4 * k).len() == 16,
    decreases k,
{
    if k > 0 {
        let r = (k - 1) as nat;
        lemma_fused_rows_are_rounds(v, block, r);
        let x = spec_fused_rows(v, block, 4 * r);
        assert(spec_fused_rows(v, block, 4 * r + 1) == spec_fused_row(x, block, (4 * r) as int));
        assert(spec_fused_rows(v, block, 4 * r + 2) == spec_fused_row(
            spec_fused_rows(v, block, 4 * r + 1),
            block,
            (4 * r + 1) as int,
        ));
        assert(spec_fused_rows(v, block, 4 * r + 3) == spec_fused_row(
            spec_fused_rows(v, block, 4 * r + 2),
            block,
            (4 * r + 2) as int,
        ));
        assert(spec_fused_rows(v, block, 4 * k) == spec_fused_row(
            spec_fused_rows(v, block, 4 * r + 3),
            block,
            (4 * r + 3) as int,
        ));
        lemma_four_rows_are_a_round(x, block, r);
    }
}

/// The 28 fused rows take the initial working state through exactly the seven rounds of the
/// BlakeG compression: the trace and the hash compute the same state.
pub proof fn lemma_fused_rows_compute_compression(h: Seq<u32>, block: Seq<u32>)
    requires
        h.len() == 8,
        block.len() == 16,
    ensures
        spec_fused_rows(spec_initial_state(h), block, FUSED_G_ROWS as nat) == spec_final_state(
            h,
            block,
        ),
{
    let v = spec_initial_state(h);
    assert(v.len() == 16);
    lemma_fused_rows_are_rounds(v, block, 7);
    lemma_rounds_split(v, block, 0, 7);
}

// ---------------------------------------------------------------------------------------------
// Writing fused rows

/// Whether fused row `row` works on diagonals.
pub open spec fn row_is_diagonal(row: int) -> bool {
    row % 4 >= 2
}

/// The first rotation of fused row `row`.
pub open spec fn row_first_rotation(row: int) -> u32 {
    if row % 2 == 0 {
        16
    } else {
        8
    }
}

/// The second rotation of fused row `row`.
pub open spec fn row_second_rotation(row: int) -> u32 {
    if row % 2 == 0 {
        12
    } else {
        7
    }
}

/// Input lane `k` (`a, b, c, d`) of G function `g` on fused row `row`, read from the row's
/// input state `v`.
pub open spec fn g_in(v: Seq<u32>, row: int, g: int, k: int) -> u32 {
    v[spec_lanes(row_is_diagonal(row), g)[k]]
}

/// The message word of G function `g` on fused row `row`.
pub open spec fn g_msg(block: Seq<u32>, row: int, g: int) -> u32 {
    block[spec_row_message_index(row, g)]
}

/// The new `a` of G function `g` on fused row `row`.
pub open spec fn g_a_new(v: Seq<u32>, block: Seq<u32>, row: int, g: int) -> u32 {
    add32(add32(g_in(v, row, g, 0), g_in(v, row, g, 1)), g_msg(block, row, g))
}

/// The new `d` of G function `g` on fused row `row`.
pub open spec fn g_d_new(v: Seq<u32>, block: Seq<u32>, row: int, g: int) -> u32 {
    rotr(g_in(v, row, g, 3) ^ g_a_new(v, block, row, g), row_first_rotation(row))
}

/// The new `c` of G function `g` on fused row `row`.
pub open spec fn g_c_new(v: Seq<u32>, block: Seq<u32>, row: int, g: int) -> u32 {
    add32(g_in(v, row, g, 2), g_d_new(v, block, row, g))
}

/// The cell at column `col` of fused row `row` with input state `v`.
pub open spec fn spec_fused_cell(v: Seq<u32>, block: Seq<u32>, row: int, cycle_id: u64, col: int) -> u64 {
    if col < 48 {
        let g = col / 12;
        let byte = (col % 12) / 3;
        let d = byte_of(g_in(v, row, g, 3), byte);
        let a_new = byte_of(g_a_new(v, block, row, g), byte);
        let field = col % 3;
        (if field == 0 {
            d
        } else if field == 1 {
            a_new
        } else {
            d & a_new
        }) as u64
    } else if col < 96 {
        let g = (col - 48) / 12;
        let byte = ((col - 48) % 12) / 3;
        let b = byte_of(g_in(v, row, g, 1), byte);
        let c_new = byte_of(g_c_new(v, block, row, g), byte);
        let field = col % 3;
        (if field == 0 {
            b
        } else if field == 1 {
            c_new
        } else {
            spec_rotation_contribution(byte, b, c_new, row_second_rotation(row))
        }) as u64
    } else if col < 108 {
        let g = (col - 96) / 3;
        let field = (col - 96) % 3;
        if field == 0 {
            spec_row_message_index(row, g) as u64
        } else if field == 1 {
            g_msg(block, row, g) as u64
        } else {
            cycle_id
        }
    } else if col < 112 {
        g_in(v, row, col - 108, 0) as u64
    } else if col < 116 {
        g_in(v, row, col - 112, 2) as u64
    } else if col < 120 {
        let g = col - 116;
        (spec_k3(g_in(v, row, g, 0), g_in(v, row, g, 1), g_msg(block, row, g)) % 2) as u64
    } else if col < 124 {
        let g = col - 120;
        (spec_k3(g_in(v, row, g, 0), g_in(v, row, g, 1), g_msg(block, row, g)) / 2) as u64
    } else {
        let g = col - 124;
        spec_k2(g_in(v, row, g, 2), g_d_new(v, block, row, g)) as u64
    }
}

/// The G function owning column `col` of a fused row.
pub open spec fn fused_col_owner(col: int) -> int {
    if col < 48 {
        col / 12
    } else if col < 96 {
        (col - 48) / 12
    } else if col < 108 {
        (col - 96) / 3
    } else {
        (col - 108) % 4
    }
}

pub(crate) fn byte_at(x: u32, i: usize) -> (r: u32)
    requires
        i < 4,
    ensures
        r == byte_of(x, i as int),
        r < 0x100,
{
    assert((x >> ((8 * i) as u32)) & 0xff < 0x100) by (bit_vector);
    (x >> ((8 * i) as u32)) & 0xff
}

proof fn lemma_lanes_range(diag: bool, g: int)
    requires
        0 <= g < 4,
    ensures
        spec_lanes(diag, g).len() == 4,
        forall|k: int| 0 <= k < 4 ==> 0 <= #[trigger] spec_lanes(diag, g)[k] < 16,
        spec_lanes(diag, g)[0] != spec_lanes(diag, g)[1],
        spec_lanes(diag, g)[0] != spec_lanes(diag, g)[2],
        spec_lanes(diag, g)[0] != spec_lanes(diag, g)[3],
        spec_lanes(diag, g)[1] != spec_lanes(diag, g)[2],
        spec_lanes(diag, g)[1] != spec_lanes(diag, g)[3],
        spec_lanes(diag, g)[2] != spec_lanes(diag, g)[3],
{
}

proof fn lemma_lanes_disjoint(diag: bool, g: int, h: int, k: int, j: int)
    requires
        0 <= g < 4,
        0 <= h < 4,
        g != h,
        0 <= k < 4,
        0 <= j < 4,
    ensures
        spec_lanes(diag, g)[k] != spec_lanes(diag, h)[j],
{
}

pub(crate) proof fn lemma_row_message_index_range(row: int, g: int)
    requires
        0 <= row,
        0 <= g < 4,
    ensures
        0 <= spec_row_message_index(row, g) < 16,
{
    let off: int = if row % 4 < 2 {
        0
    } else {
        8
    };
    lemma_msg_index_range((row / 4) as nat, off + 2 * g + row % 4 % 2);
}

/// The outputs of one G half-step: the new `a, b, c, d` and the two carries.
pub struct HalfStep {
    pub a_new: u32,
    pub b_new: u32,
    pub c_new: u32,
    pub d_new: u32,
    pub k3: u64,
    pub k2: u64,
}

/// One G half-step with its carries: `a + b + msg = a' + 2^32 * k3`, `d' = rotr(d ^ a', r1)`,
/// `c + d' = c' + 2^32 * k2`, `b' = rotr(b ^ c', r2)`.
pub fn fused_half_step(a: u32, b: u32, c: u32, d: u32, msg: u32, r1: u32, r2: u32) -> (s: HalfStep)
    requires
        0 < r1 < 32,
        0 < r2 < 32,
    ensures
        s.a_new == add32(add32(a, b), msg),
        s.d_new == rotr(d ^ s.a_new, r1),
        s.c_new == add32(c, s.d_new),
        s.b_new == rotr(b ^ s.c_new, r2),
        s.k3 == spec_k3(a, b, msg),
        s.k2 == spec_k2(c, s.d_new),
        a + b + msg == s.a_new + 0x1_0000_0000 * s.k3,
        c + s.d_new == s.c_new + 0x1_0000_0000 * s.k2,
        s.k3 <= 2,
        s.k2 <= 1,
{
    let sum3: u64 = a as u64 + b as u64 + msg as u64;
    let a_new = (sum3 & 0xffff_ffff) as u32;
    let k3 = sum3 >> 32;
    let d_new = rotr_u32(d ^ a_new, r1);
    let sum2: u64 = c as u64 + d_new as u64;
    let c_new = (sum2 & 0xffff_ffff) as u32;
    let k2 = sum2 >> 32;
    let b_new = rotr_u32(b ^ c_new, r2);
    proof {
        lemma_carry_split(a, b, msg, sum3);
        lemma_carry_split2(c, d_new, sum2);
    }
    HalfStep { a_new, b_new, c_new, d_new, k3, k2 }
}

/// The byte index of a byte-slot column.
pub open spec fn slot_byte(col: int) -> int {
    if col < 48 {
        (col % 12) / 3
    } else {
        ((col - 48) % 12) / 3
    }
}

/// The rotation lookup of byte `byte` for second rotation `r2`.
pub open spec fn rotation_lookup(r2: u32, byte: int) -> BlakeGByteLookup {
    if r2 == 12 {
        BlakeGByteLookup::Rot12 { byte: byte as usize }
    } else {
        BlakeGByteLookup::Rot7 { byte: byte as usize }
    }
}

/// The `k`-th byte lookup of a fused row with second rotation `r2`, read off its slots: for each
/// G function in turn, its four AND lookups, then its four rotation lookups.
pub open spec fn fused_slot_lookup(row: Seq<u64>, r2: u32, k: int) -> (BlakeGByteLookup, u8, u8, u32) {
    let g = k / 8;
    let j = k % 8;
    if j < 4 {
        slot_lookup(BlakeGByteLookup::And8, row, 12 * g + 3 * j)
    } else {
        slot_lookup(rotation_lookup(r2, j - 4), row, 48 + 12 * g + 3 * (j - 4))
    }
}

proof fn lemma_slot_lookup_frame(a: Seq<u64>, b: Seq<u64>, r2: u32, k: int)
    requires
        0 <= k < 32,
        a.len() == 128,
        b.len() == 128,
        forall|col: int| 0 <= col < 96 && fused_col_owner(col) == k / 8 ==> #[trigger] a[col] == b[col],
    ensures
        fused_slot_lookup(a, r2, k) == fused_slot_lookup(b, r2, k),
{
    let g = k / 8;
    let j = k % 8;
    let base = if j < 4 {
        12 * g + 3 * j
    } else {
        48 + 12 * g + 3 * (j - 4)
    };
    assert(fused_col_owner(base) == g);
    assert(fused_col_owner(base + 1) == g);
    assert(fused_col_owner(base + 2) == g);
    assert(a[base] == b[base]);
    assert(a[base + 1] == b[base + 1]);
    assert(a[base + 2] == b[base + 2]);
}

/// The byte lookups of fused row `r`, read off its slots.
pub open spec fn fused_row_lookups(row: Seq<u64>, r: int) -> Seq<(BlakeGByteLookup, u8, u8, u32)> {
    Seq::new(32, |k: int| fused_slot_lookup(row, row_second_rotation(r), k))
}

/// The byte lookups of the first `n` fused rows of `rows`, row by row.
pub open spec fn fused_rows_lookups(rows: Seq<BlakeGRow>, n: int) -> Seq<(BlakeGByteLookup, u8, u8, u32)> {
    Seq::new(
        (32 * n) as nat,
        |t: int| fused_slot_lookup(rows[t / 32]@, row_second_rotation(t / 32), t % 32),
    )
}

/// Write the eight byte slots of G function `g`: `d & a'` and the rotation contributions of
/// `b ^ c'`, recording each byte lookup.
fn write_byte_slots<R: ByteLookupRecorder>(
    row: &mut BlakeGRow,
    g: usize,
    d: u32,
    a_new: u32,
    b: u32,
    c_new: u32,
    r2: u32,
    recorder: &mut R,
)
    requires
        g < 4,
        r2 == 12 || r2 == 7,
    ensures
        forall|col: int|
            0 <= col < 96 && fused_col_owner(col) == g ==> #[trigger] final(row)@[col]
                == fused_byte_cell(d, a_new, b, c_new, r2, col),
        forall|col: int|
            0 <= col < 128 && !(col < 96 && fused_col_owner(col) == g) ==> #[trigger] final(row)@[col]
                == old(row)@[col],
        final(recorder).spec_log() == old(recorder).spec_log() + Seq::new(
            8,
            |j: int| fused_slot_lookup(final(row)@, r2, 8 * g + j),
        ),
{
    let ghost log0 = recorder.spec_log();
    let mut byte: usize = 0;
    while byte < BYTES_PER_WORD
        invariant
            g < 4,
            byte <= 4,
            log0 == old(recorder).spec_log(),
            recorder.spec_log() == log0 + Seq::new(
                byte as nat,
                |j: int| fused_slot_lookup(row@, r2, 8 * g + j),
            ),
            forall|col: int|
                0 <= col < 128 && !(col < 48 && fused_col_owner(col) == g && slot_byte(col) < byte)
                    ==> #[trigger] row@[col] == old(row)@[col],
            forall|col: int|
                0 <= col < 48 && fused_col_owner(col) == g && slot_byte(col) < byte
                    ==> #[trigger] row@[col] == fused_byte_cell(d, a_new, b, c_new, r2, col),
        decreases 4 - byte,
    {
        let d_b = byte_at(d, byte);
        let a_b = byte_at(a_new, byte);
        let ac = g_ac_byte_slot_col(g, byte, 0);
        let ghost row_before = row@;
        let ghost log_before = recorder.spec_log();
        write_lookup_slot(row, ac, [d_b as u64, a_b as u64, (d_b & a_b) as u64]);
        recorder.record(BlakeGByteLookup::And8, d_b as u8, a_b as u8, d_b & a_b);
        proof {
            let expected = Seq::new((byte + 1) as nat, |j: int| fused_slot_lookup(row@, r2, 8 * g + j));
            assert forall|j: int| 0 <= j < byte + 1 implies #[trigger] expected[j] == (log_before.push(
                (BlakeGByteLookup::And8, d_b as u8, a_b as u8, d_b & a_b),
            )).subrange(log0.len() as int, log0.len() + byte + 1)[j] by {
                assert((8 * g + j) / 8 == g);
                assert((8 * g + j) % 8 == j);
                if j < byte {
                    assert(fused_slot_lookup(row@, r2, 8 * g + j) == fused_slot_lookup(
                        row_before,
                        r2,
                        8 * g + j,
                    ));
                }
            }
            assert(recorder.spec_log() =~= log0 + expected);
        }
        byte = byte + 1;
    }
    let ghost mid = row@;
    let ghost log_mid = recorder.spec_log();
    let mut byte: usize = 0;
    while byte < BYTES_PER_WORD
        invariant
            g < 4,
            r2 == 12 || r2 == 7,
            byte <= 4,
            log0 == old(recorder).spec_log(),
            log_mid == log0 + Seq::new(4, |j: int| fused_slot_lookup(mid, r2, 8 * g + j)),
            recorder.spec_log() == log_mid + Seq::new(
                byte as nat,
                |j: int| fused_slot_lookup(row@, r2, 8 * g + 4 + j),
            ),
            forall|col: int|
                0 <= col < 128 && !(48 <= col < 96 && fused_col_owner(col) == g && slot_byte(col)
                    < byte) ==> #[trigger] row@[col] == mid[col],
            forall|col: int|
                48 <= col < 96 && fused_col_owner(col) == g && slot_byte(col) < byte
                    ==> #[trigger] row@[col] == fused_byte_cell(d, a_new, b, c_new, r2, col),
        decreases 4 - byte,
    {
        let b_b = byte_at(b, byte);
        let c_b = byte_at(c_new, byte);
        let contribution = blakeg_rotation_contribution(byte, b_b, c_b, r2);
        let bd = g_bd_rot_slot_col(g, byte, 0);
        write_lookup_slot(row, bd, [b_b as u64, c_b as u64, contribution as u64]);
        let lookup = if r2 == 12 {
            BlakeGByteLookup::Rot12 { byte }
        } else {
            BlakeGByteLookup::Rot7 { byte }
        };
        let ghost log_before = recorder.spec_log();
        recorder.record(lookup, b_b as u8, c_b as u8, contribution);
        proof {
            let expected = Seq::new((byte + 1) as nat, |j: int| fused_slot_lookup(row@, r2, 8 * g + 4 + j));
            assert forall|j: int| 0 <= j < byte + 1 implies #[trigger] expected[j] == (log_before.push(
                (lookup, b_b as u8, c_b as u8, contribution),
            )).subrange(log_mid.len() as int, log_mid.len() + byte + 1)[j] by {
                assert((8 * g + 4 + j) / 8 == g);
                assert((8 * g + 4 + j) % 8 == 4 + j);
            }
            assert(recorder.spec_log() =~= log_mid + expected);
        }
        byte = byte + 1;
    }
    proof {
        assert forall|j: int| 0 <= j < 4 implies #[trigger] fused_slot_lookup(mid, r2, 8 * g + j)
            == fused_slot_lookup(row@, r2, 8 * g + j) by {
            assert((8 * g + j) / 8 == g);
            assert((8 * g + j) % 8 == j);
            assert(fused_col_owner(12 * g + 3 * j) == g);
        }
        assert(recorder.spec_log() =~= log0 + Seq::new(
            8,
            |j: int| fused_slot_lookup(row@, r2, 8 * g + j),
        ));
    }
}

/// Write the message slot, the inputs `a`, `c` and the carries of G function `g`.
fn write_g_cells(
    row: &mut BlakeGRow,
    g: usize,
    msg_idx: usize,
    msg: u32,
    cycle_id: u64,
    a: u32,
    c: u32,
    k3: u64,
    k2: u64,
)
    requires
        g < 4,
        k3 <= 2,
    ensures
        final(row)@[96 + 3 * g] == msg_idx as u64,
        final(row)@[96 + 3 * g + 1] == msg as u64,
        final(row)@[96 + 3 * g + 2] == cycle_id,
        final(row)@[108 + g] == a as u64,
        final(row)@[112 + g] == c as u64,
        final(row)@[116 + g] == k3 % 2,
        final(row)@[120 + g] == k3 / 2,
        final(row)@[124 + g] == k2,
        forall|col: int|
            0 <= col < 128 && !(96 <= col < 108 && (col - 96) / 3 == g) && !(108 <= col
                && (col - 108) % 4 == g) ==> #[trigger] final(row)@[col] == old(row)@[col],
{
    write_lookup_slot(row, g_msg_slot_col(g, 0), [msg_idx as u64, msg as u64, cycle_id]);
    row[G_A_BASE_COL + g] = a as u64;
    row[G_C_BASE_COL + g] = c as u64;
    assert((k3 & 1) == k3 % 2 && (k3 >> 1) == k3 / 2) by (bit_vector)
        requires
            k3 <= 2,
    ;
    row[G_K3_BIT0_BASE_COL + g] = k3 & 1;
    row[G_K3_BIT1_BASE_COL + g] = k3 >> 1;
    row[G_K2_BASE_COL + g] = k2;
}

/// A byte-slot cell of G function `g` computed from its `d`, `a'`, `b`, `c'` words.
pub open spec fn fused_byte_cell(d: u32, a_new: u32, b: u32, c_new: u32, r2: u32, col: int) -> u64 {
    if col < 48 {
        let byte = (col % 12) / 3;
        let field = col % 3;
        (if field == 0 {
            byte_of(d, byte)
        } else if field == 1 {
            byte_of(a_new, byte)
        } else {
            byte_of(d, byte) & byte_of(a_new, byte)
        }) as u64
    } else {
        let byte = ((col - 48) % 12) / 3;
        let field = col % 3;
        (if field == 0 {
            byte_of(b, byte)
        } else if field == 1 {
            byte_of(c_new, byte)
        } else {
            spec_rotation_contribution(byte, byte_of(b, byte), byte_of(c_new, byte), r2)
        }) as u64
    }
}

/// The state after the first `g` half-steps of fused row `row`.
pub open spec fn four_halves_upto(v: Seq<u32>, block: Seq<u32>, row: int, g: int) -> Seq<u32>
    decreases g,
{
    if g <= 0 {
        v
    } else {
        spec_half_g(
            four_halves_upto(v, block, row, g - 1),
            spec_lanes(row_is_diagonal(row), g - 1),
            g_msg(block, row, g - 1),
            row_first_rotation(row),
            row_second_rotation(row),
        )
    }
}

fn rotr_u32(x: u32, n: u32) -> (r: u32)
    requires
        0 < n < 32,
    ensures
        r == rotr(x, n),
{
    (x >> n) | (x << (32 - n))
}

proof fn lemma_carry_split(a: u32, b: u32, msg: u32, sum3: u64)
    requires
        sum3 == a + b + msg,
    ensures
        ((sum3 & 0xffff_ffff) as u32) == add32(add32(a, b), msg),
        (sum3 >> 32) == spec_k3(a, b, msg),
        (sum3 >> 32) & 1 == spec_k3(a, b, msg) % 2,
        (sum3 >> 32) >> 1 == spec_k3(a, b, msg) / 2,
        spec_k3(a, b, msg) <= 2,
{
    assert(sum3 < 0x3_0000_0000u64);
    assert((sum3 & 0xffff_ffffu64) == sum3 % 0x1_0000_0000u64) by (bit_vector);
    assert((sum3 >> 32u64) == sum3 / 0x1_0000_0000u64) by (bit_vector);
    assert(sum3 < 0x3_0000_0000u64 ==> (sum3 >> 32u64) & 1 == (sum3 >> 32u64) % 2) by (bit_vector);
    assert(sum3 < 0x3_0000_0000u64 ==> (sum3 >> 32u64) >> 1u64 == (sum3 >> 32u64) / 2) by (bit_vector);
}

proof fn lemma_carry_split2(c: u32, d: u32, sum2: u64)
    requires
        sum2 == c + d,
    ensures
        ((sum2 & 0xffff_ffff) as u32) == add32(c, d),
        (sum2 >> 32) == spec_k2(c, d),
        spec_k2(c, d) <= 1,
{
    assert((sum2 & 0xffff_ffffu64) == sum2 % 0x1_0000_0000u64) by (bit_vector);
    assert((sum2 >> 32u64) == sum2 / 0x1_0000_0000u64) by (bit_vector);
}

proof fn lemma_owned_cells(
    v0: Seq<u32>,
    block: Seq<u32>,
    r: int,
    cycle_id: u64,
    g: int,
    row: Seq<u64>,
)
    requires
        0 <= g < 4,
        row.len() == 128,
        forall|col: int|
            0 <= col < 96 && fused_col_owner(col) == g ==> #[trigger] row[col] == fused_byte_cell(
                g_in(v0, r, g, 3),
                g_a_new(v0, block, r, g),
                g_in(v0, r, g, 1),
                g_c_new(v0, block, r, g),
                row_second_rotation(r),
                col,
            ),
        row[96 + 3 * g] == spec_row_message_index(r, g) as u64,
        row[96 + 3 * g + 1] == g_msg(block, r, g) as u64,
        row[96 + 3 * g + 2] == cycle_id,
        row[108 + g] == g_in(v0, r, g, 0) as u64,
        row[112 + g] == g_in(v0, r, g, 2) as u64,
        row[116 + g] == (spec_k3(g_in(v0, r, g, 0), g_in(v0, r, g, 1), g_msg(block, r, g)) % 2) as u64,
        row[120 + g] == (spec_k3(g_in(v0, r, g, 0), g_in(v0, r, g, 1), g_msg(block, r, g)) / 2) as u64,
        row[124 + g] == spec_k2(g_in(v0, r, g, 2), g_d_new(v0, block, r, g)) as u64,
    ensures
        forall|col: int|
            0 <= col < 128 && fused_col_owner(col) == g ==> #[trigger] row[col] == spec_fused_cell(
                v0,
                block,
                r,
                cycle_id,
                col,
            ),
{
    assert forall|col: int| 0 <= col < 128 && fused_col_owner(col) == g implies #[trigger] row[col]
        == spec_fused_cell(v0, block, r, cycle_id, col) by {
        if col < 96 {
            assert(row[col] == fused_byte_cell(
                g_in(v0, r, g, 3),
                g_a_new(v0, block, r, g),
                g_in(v0, r, g, 1),
                g_c_new(v0, block, r, g),
                row_second_rotation(r),
                col,
            ));
        } else if col < 108 {
            assert(col == 96 + 3 * g || col == 96 + 3 * g + 1 || col == 96 + 3 * g + 2);
        } else {
            assert(col == 108 + g || col == 112 + g || col == 116 + g || col == 120 + g || col == 124
                + g);
        }
    }
}

/// Write fused row `row_idx` for input state `v` and advance `v` by the row's four G half-steps.
///
/// Every column of the row is written: the byte slots of `d & a'` and of the rotation
/// contributions of `b ^ c'`, the message slots tagged with the compression-cycle identifier, the
/// inputs `a` and `c`, and the carries of the two modular additions. Each byte lookup is handed
/// to `recorder`: the four AND lookups of a G function, then its four rotation lookups.
pub fn write_fused_g_row<R: ByteLookupRecorder>(
    row: &mut BlakeGRow,
    row_idx: usize,
    block: &[u32; 16],
    compression_cycle_id: u64,
    v: &mut [u32; 16],
    recorder: &mut R,
)
    requires
        row_idx < FUSED_G_ROWS,
    ensures
        final(v)@ == spec_fused_row(old(v)@, block@, row_idx as int),
        forall|col: int|
            0 <= col < 128 ==> #[trigger] final(row)@[col] == spec_fused_cell(
                old(v)@,
                block@,
                row_idx as int,
                compression_cycle_id,
                col,
            ),
        final(recorder).spec_log() == old(recorder).spec_log() + fused_row_lookups(
            final(row)@,
            row_idx as int,
        ),
{
    let ghost log0 = recorder.spec_log();
    let step = fused_step_at(row_idx).unwrap();
    let ghost v0 = v@;
    let ghost r = row_idx as int;
    let ghost diag = row_is_diagonal(r);
    let r1 = step.first_rotation;
    let r2 = step.second_rotation;
    let mut g: usize = 0;
    while g < NUM_G
        invariant
            row_idx < FUSED_G_ROWS,
            r == row_idx as int,
            diag == row_is_diagonal(r),
            spec_fused_step_matches(step, r),
            r1 == row_first_rotation(r),
            r2 == row_second_rotation(r),
            g <= 4,
            v0.len() == 16,
            forall|h: int, k: int|
                g <= h < 4 && 0 <= k < 4 ==> #[trigger] v@[spec_lanes(diag, h)[k]] == v0[spec_lanes(
                    diag,
                    h,
                )[k]],
            v@ == four_halves_upto(v0, block@, r, g as int),
            forall|col: int|
                0 <= col < 128 && fused_col_owner(col) < g ==> #[trigger] row@[col]
                    == spec_fused_cell(v0, block@, r, compression_cycle_id, col),
            log0 == old(recorder).spec_log(),
            recorder.spec_log() == log0 + Seq::new(
                (8 * g) as nat,
                |k: int| fused_slot_lookup(row@, r2, k),
            ),
        decreases 4 - g,
    {
        proof {
            lemma_lanes_range(diag, g as int);
            lemma_row_message_index_range(r, g as int);
        }
        let lanes = step.lane_map[g];
        let ai = lanes[0];
        let bi = lanes[1];
        let ci = lanes[2];
        let di = lanes[3];
        let a = v[ai];
        let b = v[bi];
        let c = v[ci];
        let d = v[di];
        let msg_idx = step.message_indices[g];
        let msg = block[msg_idx];
        let s = fused_half_step(a, b, c, d, msg, r1, r2);
        let ghost row_before = row@;
        let ghost log_before = recorder.spec_log();
        write_byte_slots(row, g, d, s.a_new, b, s.c_new, r2, recorder);
        let ghost row_mid = row@;
        write_g_cells(row, g, msg_idx, msg, compression_cycle_id, a, c, s.k3, s.k2);
        proof {
            let expected = Seq::new((8 * g + 8) as nat, |k: int| fused_slot_lookup(row@, r2, k));
            assert forall|k: int| 0 <= k < 8 * g + 8 implies #[trigger] expected[k]
                == recorder.spec_log().subrange(log0.len() as int, log0.len() + 8 * g + 8)[k] by {
                if k < 8 * g {
                    lemma_slot_lookup_frame(row@, row_before, r2, k);
                } else {
                    lemma_slot_lookup_frame(row@, row_mid, r2, k);
                    assert(k == 8 * g + (k - 8 * g));
                }
            }
            assert(recorder.spec_log() =~= log0 + expected);
        }
        let ghost v_before = v@;
        v[ai] = s.a_new;
        v[di] = s.d_new;
        v[ci] = s.c_new;
        v[bi] = s.b_new;
        proof {
            assert(v@ =~= spec_half_g(
                v_before,
                spec_lanes(diag, g as int),
                g_msg(block@, r, g as int),
                r1,
                r2,
            ));
            assert forall|h: int, k: int| g + 1 <= h < 4 && 0 <= k < 4 implies #[trigger] v@[spec_lanes(
                diag,
                h,
            )[k]] == v0[spec_lanes(diag, h)[k]] by {
                lemma_lanes_disjoint(diag, g as int, h, 0, k);
                lemma_lanes_disjoint(diag, g as int, h, 1, k);
                lemma_lanes_disjoint(diag, g as int, h, 2, k);
                lemma_lanes_disjoint(diag, g as int, h, 3, k);
                lemma_lanes_range(diag, h);
            }
            lemma_owned_cells(v0, block@, r, compression_cycle_id, g as int, row@);
        }
        g = g + 1;
    }
    proof {
        assert(r % 4 % 2 == r % 2);
        let w1 = four_halves_upto(v0, block@, r, 1);
        let w2 = four_halves_upto(v0, block@, r, 2);
        let w3 = four_halves_upto(v0, block@, r, 3);
        assert(four_halves_upto(v0, block@, r, 0) == v0);
        assert(w1 == spec_half_g(v0, spec_lanes(diag, 0), g_msg(block@, r, 0), r1, r2));
        assert(w2 == spec_half_g(w1, spec_lanes(diag, 1), g_msg(block@, r, 1), r1, r2));
        assert(w3 == spec_half_g(w2, spec_lanes(diag, 2), g_msg(block@, r, 2), r1, r2));
        assert(v@ == spec_half_g(w3, spec_lanes(diag, 3), g_msg(block@, r, 3), r1, r2));
        assert(recorder.spec_log() =~= log0 + fused_row_lookups(row@, r));
    }
}

/// The BlakeG working state before the first round: the input chaining value, then the IV.
pub fn initial_working_state(h: &[u32; 8]) -> (v: [u32; 16])
    ensures
        v@ == spec_initial_state(h@),
{
    let iv = crate::blakeg::iv();
    let v = [
        h[0], h[1], h[2], h[3], h[4], h[5], h[6], h[7],
        iv[0], iv[1], iv[2], iv[3], iv[4], iv[5], iv[6], iv[7],
    ];
    assert(v@ =~= spec_initial_state(h@));
    v
}

/// Write the 28 fused G rows of one compression cycle into `rows[0..28]` and return the working
/// state after them, which is the BlakeG final state of `h` and `block`. Each byte lookup is
/// handed to `recorder`, in row order.
pub fn write_fused_g_rows<R: ByteLookupRecorder>(
    rows: &mut Vec<BlakeGRow>,
    block: &[u32; 16],
    h: &[u32; 8],
    compression_cycle_id: u64,
    recorder: &mut R,
) -> (final_v: [u32; 16])
    requires
        old(rows)@.len() >= FUSED_G_ROWS,
    ensures
        final_v@ == spec_final_state(h@, block@),
        final(rows)@.len() == old(rows)@.len(),
        forall|i: int, col: int|
            0 <= i < FUSED_G_ROWS && 0 <= col < 128 ==> #[trigger] final(rows)@[i]@[col]
                == spec_fused_cell(
                spec_fused_rows(spec_initial_state(h@), block@, i as nat),
                block@,
                i,
                compression_cycle_id,
                col,
            ),
        forall|i: int| FUSED_G_ROWS <= i < old(rows)@.len() ==> #[trigger] final(rows)@[i] == old(
            rows,
        )@[i],
        final(recorder).spec_log() == old(recorder).spec_log() + fused_rows_lookups(
            final(rows)@,
            FUSED_G_ROWS as int,
        ),
{
    let ghost log0 = recorder.spec_log();
    let mut v = initial_working_state(h);
    let ghost v0 = v@;
    let mut i: usize = 0;
    while i < FUSED_G_ROWS
        invariant
            i <= FUSED_G_ROWS,
            rows@.len() == old(rows)@.len(),
            old(rows)@.len() >= FUSED_G_ROWS,
            v0 == spec_initial_state(h@),
            v@ == spec_fused_rows(v0, block@, i as nat),
            forall|t: int, col: int|
                0 <= t < i && 0 <= col < 128 ==> #[trigger] rows@[t]@[col] == spec_fused_cell(
                    spec_fused_rows(v0, block@, t as nat),
                    block@,
                    t,
                    compression_cycle_id,
                    col,
                ),
            forall|t: int| i <= t < old(rows)@.len() ==> #[trigger] rows@[t] == old(rows)@[t],
            log0 == old(recorder).spec_log(),
            recorder.spec_log() == log0 + fused_rows_lookups(rows@, i as int),
        decreases FUSED_G_ROWS - i,
    {
        let mut row = rows[i];
        let ghost rows_before = rows@;
        let ghost log_before = recorder.spec_log();
        write_fused_g_row(&mut row, i, block, compression_cycle_id, &mut v, recorder);
        rows.set(i, row);
        proof {
            let expected = fused_rows_lookups(rows@, i + 1);
            assert forall|t: int| 0 <= t < 32 * (i + 1) implies #[trigger] expected[t]
                == recorder.spec_log().subrange(log0.len() as int, log0.len() + 32 * (i + 1))[t] by {
                if t < 32 * i {
                    assert(t / 32 < i);
                    assert(rows@[t / 32] == rows_before[t / 32]);
                } else {
                    assert(t / 32 == i);
                    assert(rows@[i as int] == row);
                }
            }
            assert(recorder.spec_log() =~= log0 + expected);
        }
        i = i + 1;
    }
    proof {
        lemma_fused_rows_compute_compression(h@, block@);
    }
    v
}

} // verus!
