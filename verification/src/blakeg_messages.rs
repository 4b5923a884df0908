//! The lookup messages of the 32-row BlakeG layout, evaluated on one row of field elements.
//!
//! The narrow slots carry three fields each; the first fused row assembles the input
//! chaining-value pairs from its `a` inputs and from the bytes of its `b` inputs; the final footer
//! row links the compression (packed block, input and output chaining values) to the hasher, and
//! an AEAD/XOF cycle exposes its keystream words, rebuilt from the byte-AND slots as
//! `x ^ y = x + y - 2 (x & y)`.
use vstd::prelude::*;

use crate::blakeg::{spec_compress, spec_compress_raw_xof, spec_final_state, ODD_LANE_MASK};
use crate::blakeg_fused::byte_of;
use crate::blakeg_layout::{
    g_bd_rot_slot_col, g_msg_slot_col, footer_xor_slot_col, FOOTER_ROWS, F_C_BASE_COL, F_CLK_COL,
    F_D_BASE_COL, F_HIGH_EVEN_SLOT_BASE, F_HIGH_ODD_SLOT_BASE, F_OUTPUT_EVEN_SLOT_BASE,
    F_OUTPUT_ODD_SLOT_BASE, F_R_BASE_COL, G_A_BASE_COL, NUM_COLS,
};
use crate::blakeg_trace::{
    spec_first_fused_row, spec_footer_row, spec_pack_pair, TraceMode, MAX_COMPRESSION_CYCLE_ID,
};
use crate::eidos::cv_to_word;
use crate::field::{fadd, felt_values, fmul, fsub, Felt, MODULUS};

verus! {

/// The physical columns of one row of the BlakeG layout.
pub struct BlakeGCompressionCols<T> {
    /// The 128 columns, in the layout of the BlakeG compression cycle.
    pub columns: [T; 128],
}

/// The compression-link message of the final footer row: the packed block, input chaining
/// value and output chaining value of the compression.
#[derive(Debug, Clone, Copy, PartialEq, Eq)]
pub struct HasherCompressionLinkMsg<E> {
    pub block: [E; 8],
    pub cv_in: [E; 4],
    pub cv_out: [E; 4],
}

/// The AEAD/XOF input message: the request's clock and its twelve-element state.
#[derive(Debug, Clone, Copy, PartialEq, Eq)]
pub struct AeadBlakeGInputMsg<E> {
    pub clk: E,
    pub state: [E; 12],
}

/// One AEAD/XOF output message: two keystream lanes starting at `first_lane_idx`.
#[derive(Debug, Clone, Copy, PartialEq, Eq)]
pub struct AeadBlakeGOutputPairMsg<E> {
    pub clk: E,
    pub first_lane_idx: E,
    pub value0: E,
    pub value1: E,
}

/// The canonical values of a row's columns.
pub open spec fn col_values(local: &BlakeGCompressionCols<Felt>) -> Seq<u64> {
    felt_values(local.columns@)
}

/// The field value `lhs + rhs - 2 * and`, which is `lhs ^ rhs` when `and` is `lhs & rhs`.
pub open spec fn spec_xor_from_and(lhs: int, rhs: int, and: int) -> int {
    fsub(fadd(lhs, rhs), fmul(2, and))
}

/// The field value of four little-endian bytes.
pub open spec fn spec_pack_le(b0: int, b1: int, b2: int, b3: int) -> int {
    fadd(fadd(fadd(b0, fmul(0x100, b1)), fmul(0x1_0000, b2)), fmul(0x100_0000, b3))
}

/// The XOR byte carried by footer slot `slot`, rebuilt from its AND fields.
pub open spec fn spec_footer_xor_byte(c: Seq<u64>, slot: int) -> int {
    spec_xor_from_and(c[3 * slot] as int, c[3 * slot + 1] as int, c[3 * slot + 2] as int)
}

/// The XOR word carried by the four footer slots from `slot_base`.
pub open spec fn spec_footer_xor_word(c: Seq<u64>, slot_base: int) -> int {
    spec_pack_le(
        spec_footer_xor_byte(c, slot_base),
        spec_footer_xor_byte(c, slot_base + 1),
        spec_footer_xor_byte(c, slot_base + 2),
        spec_footer_xor_byte(c, slot_base + 3),
    )
}

/// Word `idx` of the input chaining value consumed by the first fused row: an `a` input for the
/// first four words, a `b` input rebuilt from its rotation-slot bytes for the last four.
pub open spec fn spec_input_word(c: Seq<u64>, idx: int) -> int {
    if idx < 4 {
        c[108 + idx] as int
    } else {
        let g = idx - 4;
        spec_pack_le(
            c[48 + 12 * g] as int,
            c[51 + 12 * g] as int,
            c[54 + 12 * g] as int,
            c[57 + 12 * g] as int,
        )
    }
}

/// The fields of the input-pair lookup of chaining-value pair `pair` on the first fused row:
/// the key `4 * cycle_id + pair`, then the pair's two words.
pub open spec fn spec_first_input_pair_fields(c: Seq<u64>, pair: int) -> Seq<int> {
    seq![
        fadd(fmul(4, c[98] as int), pair),
        spec_input_word(c, 2 * pair),
        spec_input_word(c, 2 * pair + 1),
    ]
}

/// `lhs + rhs - 2 * and` in the field.
pub fn xor_from_and(lhs: Felt, rhs: Felt, and: Felt) -> (r: Felt)
    ensures
        r@ == spec_xor_from_and(lhs@ as int, rhs@ as int, and@ as int),
{
    lhs.add(rhs).sub(Felt::from_u32(2).mul(and))
}

/// The field value `b0 + 2^8 b1 + 2^16 b2 + 2^24 b3` of four little-endian bytes.
pub fn pack_u32_le(b0: Felt, b1: Felt, b2: Felt, b3: Felt) -> (r: Felt)
    ensures
        r@ == spec_pack_le(b0@ as int, b1@ as int, b2@ as int, b3@ as int),
{
    b0.add(Felt::from_u32(0x100).mul(b1)).add(Felt::from_u32(0x1_0000).mul(b2)).add(
        Felt::from_u32(0x100_0000).mul(b3),
    )
}

/// The three fields of the slot at `base`.
pub fn fields_at(local: &BlakeGCompressionCols<Felt>, base: usize) -> (r: [Felt; 3])
    requires
        base + 3 <= NUM_COLS,
    ensures
        felt_values(r@) == col_values(local).subrange(base as int, base + 3),
{
    let r = [local.columns[base], local.columns[base + 1], local.columns[base + 2]];
    assert(felt_values(r@) =~= col_values(local).subrange(base as int, base + 3));
    r
}

/// The XOR byte carried by footer slot `slot`.
pub fn footer_xor_byte(local: &BlakeGCompressionCols<Felt>, slot: usize) -> (r: Felt)
    requires
        slot < 16,
    ensures
        r@ == spec_footer_xor_byte(col_values(local), slot as int),
{
    let base = footer_xor_slot_col(slot, 0);
    xor_from_and(local.columns[base], local.columns[base + 1], local.columns[base + 2])
}

/// The XOR word carried by the four footer slots from `slot_base`.
pub fn footer_xor_word(local: &BlakeGCompressionCols<Felt>, slot_base: usize) -> (r: Felt)
    requires
        slot_base + 4 <= 16,
    ensures
        r@ == spec_footer_xor_word(col_values(local), slot_base as int),
{
    pack_u32_le(
        footer_xor_byte(local, slot_base),
        footer_xor_byte(local, slot_base + 1),
        footer_xor_byte(local, slot_base + 2),
        footer_xor_byte(local, slot_base + 3),
    )
}

/// The two compression-output words of a footer row.
pub fn footer_output_word(local: &BlakeGCompressionCols<Felt>) -> (r: [Felt; 2])
    ensures
        r@[0]@ == spec_footer_xor_word(col_values(local), F_OUTPUT_EVEN_SLOT_BASE as int),
        r@[1]@ == spec_footer_xor_word(col_values(local), F_OUTPUT_ODD_SLOT_BASE as int),
{
    [
        footer_xor_word(local, F_OUTPUT_EVEN_SLOT_BASE),
        footer_xor_word(local, F_OUTPUT_ODD_SLOT_BASE),
    ]
}

/// The two extendable-output high words of a footer row.
pub fn footer_high_word(local: &BlakeGCompressionCols<Felt>) -> (r: [Felt; 2])
    ensures
        r@[0]@ == spec_footer_xor_word(col_values(local), F_HIGH_EVEN_SLOT_BASE as int),
        r@[1]@ == spec_footer_xor_word(col_values(local), F_HIGH_ODD_SLOT_BASE as int),
{
    [footer_xor_word(local, F_HIGH_EVEN_SLOT_BASE), footer_xor_word(local, F_HIGH_ODD_SLOT_BASE)]
}

fn input_word(local: &BlakeGCompressionCols<Felt>, idx: usize) -> (r: Felt)
    requires
        idx < 8,
    ensures
        r@ == spec_input_word(col_values(local), idx as int),
{
    if idx < 4 {
        local.columns[G_A_BASE_COL + idx]
    } else {
        let g = idx - 4;
        pack_u32_le(
            local.columns[g_bd_rot_slot_col(g, 0, 0)],
            local.columns[g_bd_rot_slot_col(g, 1, 0)],
            local.columns[g_bd_rot_slot_col(g, 2, 0)],
            local.columns[g_bd_rot_slot_col(g, 3, 0)],
        )
    }
}

/// The fields of the input-pair lookup of chaining-value pair `pair` on the first fused row.
pub fn first_input_pair_fields(local: &BlakeGCompressionCols<Felt>, pair: usize) -> (r: [Felt; 3])
    requires
        pair < FOOTER_ROWS,
    ensures
        r@.len() == 3,
        forall|i: int| 0 <= i < 3 ==> #[trigger] r@[i]@ == spec_first_input_pair_fields(
            col_values(local),
            pair as int,
        )[i],
{
    let key = Felt::from_u32(FOOTER_ROWS as u32).mul(local.columns[g_msg_slot_col(0, 2)]).add(
        Felt::from_u32(pair as u32),
    );
    [key, input_word(local, 2 * pair), input_word(local, 2 * pair + 1)]
}

/// The three fields of narrow slot `slot`: the slot's own columns, or an input pair's fields for
/// the last four slots.
pub fn narrow_slot_fields(local: &BlakeGCompressionCols<Felt>, slot: usize) -> (r: [Felt; 3])
    requires
        slot < 40,
    ensures
        slot < 36 ==> felt_values(r@) == col_values(local).subrange(3 * slot, 3 * slot + 3),
        slot >= 36 ==> forall|i: int| 0 <= i < 3 ==> #[trigger] r@[i]@ == spec_first_input_pair_fields(
            col_values(local),
            slot - 36,
        )[i],
{
    if slot < 36 {
        fields_at(local, 3 * slot)
    } else {
        first_input_pair_fields(local, slot - 36)
    }
}

/// The compression-link message of a footer row: the packed block, input and output chaining
/// values.
pub fn compression_link_msg(local: &BlakeGCompressionCols<Felt>) -> (r: HasherCompressionLinkMsg<Felt>)
    ensures
        forall|i: int| 0 <= i < 8 ==> #[trigger] r.block@[i] == local.columns@[F_R_BASE_COL + i],
        forall|i: int| 0 <= i < 4 ==> #[trigger] r.cv_in@[i] == local.columns@[F_C_BASE_COL + i],
        forall|i: int| 0 <= i < 4 ==> #[trigger] r.cv_out@[i] == local.columns@[F_D_BASE_COL + i],
{
    let c = &local.columns;
    HasherCompressionLinkMsg {
        block: [c[90], c[91], c[92], c[93], c[94], c[95], c[96], c[97]],
        cv_in: [c[98], c[99], c[100], c[101]],
        cv_out: [c[102], c[103], c[104], c[105]],
    }
}

/// The AEAD/XOF input message of a footer row: the clock, then the packed block and input
/// chaining value.
pub fn aead_input_msg(local: &BlakeGCompressionCols<Felt>) -> (r: AeadBlakeGInputMsg<Felt>)
    ensures
        r.clk == local.columns@[F_CLK_COL as int],
        forall|i: int| 0 <= i < 8 ==> #[trigger] r.state@[i] == local.columns@[F_R_BASE_COL + i],
        forall|i: int| 8 <= i < 12 ==> #[trigger] r.state@[i] == local.columns@[F_C_BASE_COL + i - 8],
{
    let c = &local.columns;
    AeadBlakeGInputMsg {
        clk: c[F_CLK_COL],
        state: [c[90], c[91], c[92], c[93], c[94], c[95], c[96], c[97], c[98], c[99], c[100], c[101]],
    }
}

/// The AEAD/XOF output message of footer row `footer` for the low (`lane_offset == 0`) or high
/// (`lane_offset == 8`) keystream half.
pub fn aead_output_pair_msg(
    local: &BlakeGCompressionCols<Felt>,
    footer: usize,
    lane_offset: usize,
    values: [Felt; 2],
) -> (r: AeadBlakeGOutputPairMsg<Felt>)
    requires
        footer < FOOTER_ROWS,
        lane_offset <= 8,
    ensures
        r.clk == local.columns@[F_CLK_COL as int],
        r.first_lane_idx@ == lane_offset + 2 * footer,
        r.value0 == values[0],
        r.value1 == values[1],
{
    AeadBlakeGOutputPairMsg {
        clk: local.columns[F_CLK_COL],
        first_lane_idx: Felt::from_u32((lane_offset + 2 * footer) as u32),
        value0: values[0],
        value1: values[1],
    }
}

proof fn lemma_small_mod(x: int)
    requires
        0 <= x < 0x1_0000_0000_0000,
    ensures
        x % (MODULUS as int) == x,
{
}

proof fn lemma_xor_byte(lhs: u32, rhs: u32, byte: int)
    requires
        0 <= byte < 4,
    ensures
        spec_xor_from_and(
            byte_of(lhs, byte) as int,
            byte_of(rhs, byte) as int,
            (byte_of(lhs, byte) & byte_of(rhs, byte)) as int,
        ) == byte_of(lhs ^ rhs, byte) as int,
        byte_of(lhs ^ rhs, byte) < 0x100,
{
    let l = byte_of(lhs, byte);
    let r = byte_of(rhs, byte);
    let sh = (8 * byte) as u32;
    assert(sh < 32);
    assert(((lhs >> sh) & 0xff) ^ ((rhs >> sh) & 0xff) == ((lhs ^ rhs) >> sh) & 0xff) by (bit_vector);
    assert(((lhs ^ rhs) >> sh) & 0xff < 0x100) by (bit_vector);
    assert(l < 0x100 && r < 0x100) by (bit_vector)
        requires
            l == (lhs >> sh) & 0xff,
            r == (rhs >> sh) & 0xff,
    ;
    assert((l ^ r) as int == l as int + r as int - 2 * ((l & r) as int)) by (bit_vector);
    assert((l & r) <= l) by (bit_vector);
    lemma_small_mod(l + r);
    lemma_small_mod(2 * (l & r));
    lemma_small_mod((l ^ r) as int);
}

proof fn lemma_pack_le_bytes(x: u32)
    ensures
        spec_pack_le(
            byte_of(x, 0) as int,
            byte_of(x, 1) as int,
            byte_of(x, 2) as int,
            byte_of(x, 3) as int,
        ) == x as int,
{
    let b0 = byte_of(x, 0);
    let b1 = byte_of(x, 1);
    let b2 = byte_of(x, 2);
    let b3 = byte_of(x, 3);
    assert(b0 < 0x100 && b1 < 0x100 && b2 < 0x100 && b3 < 0x100) by (bit_vector)
        requires
            b0 == (x >> 0u32) & 0xff,
            b1 == (x >> 8u32) & 0xff,
            b2 == (x >> 16u32) & 0xff,
            b3 == (x >> 24u32) & 0xff,
    ;
    assert(((x >> 0u32) & 0xffu32) + ((x >> 8u32) & 0xffu32) * 0x100 + ((x >> 16u32) & 0xffu32)
        * 0x1_0000 + ((x >> 24u32) & 0xffu32) * 0x100_0000 == x) by (bit_vector);
    lemma_small_mod(0x100 * b1);
    lemma_small_mod(0x1_0000 * b2);
    lemma_small_mod(0x100_0000 * b3);
    lemma_small_mod(b0 + 0x100 * b1);
    lemma_small_mod(b0 + 0x100 * b1 + 0x1_0000 * b2);
    lemma_small_mod(b0 + 0x100 * b1 + 0x1_0000 * b2 + 0x100_0000 * b3);
}

#[verifier::spinoff_prover]
proof fn lemma_xor_word(c: Seq<u64>, slot_base: int, lhs: u32, rhs: u32)
    requires
        0 <= slot_base,
        3 * slot_base + 12 <= c.len(),
        forall|byte: int, field: int|
            0 <= byte < 4 && 0 <= field < 3 ==> #[trigger] c[3 * (slot_base + byte) + field]
                == crate::blakeg_footer::and_slot_cell(lhs, rhs, byte, field),
    ensures
        spec_footer_xor_word(c, slot_base) == (lhs ^ rhs) as int,
{
    let x = lhs ^ rhs;
    assert forall|byte: int| 0 <= byte < 4 implies #[trigger] spec_footer_xor_byte(c, slot_base + byte)
        == byte_of(x, byte) as int by {
        assert(c[3 * (slot_base + byte) + 0] == crate::blakeg_footer::and_slot_cell(lhs, rhs, byte, 0));
        assert(c[3 * (slot_base + byte) + 1] == crate::blakeg_footer::and_slot_cell(lhs, rhs, byte, 1));
        assert(c[3 * (slot_base + byte) + 2] == crate::blakeg_footer::and_slot_cell(lhs, rhs, byte, 2));
        lemma_xor_byte(lhs, rhs, byte);
    }
    let b0 = spec_footer_xor_byte(c, slot_base);
    assert(spec_footer_xor_byte(c, slot_base + 0) == byte_of(x, 0) as int);
    assert(slot_base + 0 == slot_base);
    let b1 = spec_footer_xor_byte(c, slot_base + 1);
    let b2 = spec_footer_xor_byte(c, slot_base + 2);
    let b3 = spec_footer_xor_byte(c, slot_base + 3);
    assert(b0 == byte_of(x, 0) as int);
    assert(b1 == byte_of(x, 1) as int);
    assert(b2 == byte_of(x, 2) as int);
    assert(b3 == byte_of(x, 3) as int);
    lemma_pack_le_bytes(x);
    assert(spec_footer_xor_word(c, slot_base) == spec_pack_le(b0, b1, b2, b3));
}

/// On every footer row of a cycle, the words rebuilt from the byte-AND slots are the cycle's
/// extendable-output lanes: the two output words are lanes `2f` and `2f + 1`, the two high
/// words lanes `8 + 2f` and `9 + 2f`, of the BlakeG output of `h` and `block`.
#[verifier::spinoff_prover]
pub proof fn lemma_footer_words_are_keystream_lanes(
    block: Seq<u32>,
    h: Seq<u32>,
    cycle_id: u64,
    mode: TraceMode,
    f: int,
)
    requires
        block.len() == 16,
        h.len() == 8,
        0 <= f < FOOTER_ROWS,
    ensures
        spec_footer_xor_word(spec_footer_row(block, h, cycle_id, mode, f), F_OUTPUT_EVEN_SLOT_BASE as int)
            == spec_compress_raw_xof(h, block)[2 * f] as int,
        spec_footer_xor_word(spec_footer_row(block, h, cycle_id, mode, f), F_OUTPUT_ODD_SLOT_BASE as int)
            == spec_compress_raw_xof(h, block)[2 * f + 1] as int,
        spec_footer_xor_word(spec_footer_row(block, h, cycle_id, mode, f), F_HIGH_EVEN_SLOT_BASE as int)
            == spec_compress_raw_xof(h, block)[8 + 2 * f] as int,
        spec_footer_xor_word(spec_footer_row(block, h, cycle_id, mode, f), F_HIGH_ODD_SLOT_BASE as int)
            == spec_compress_raw_xof(h, block)[9 + 2 * f] as int,
{
    let c = spec_footer_row(block, h, cycle_id, mode, f);
    let v = spec_final_state(h, block);
    assert forall|col: int| 0 <= col < 48 implies #[trigger] c[col]
        == crate::blakeg_footer::footer_xor_cell(h, v, f, col) by {
    }
    lemma_group_word(c, h, v, f, 0);
    lemma_group_word(c, h, v, f, 1);
    lemma_group_word(c, h, v, f, 2);
    lemma_group_word(c, h, v, f, 3);
}

proof fn lemma_group_word(c: Seq<u64>, h: Seq<u32>, v: Seq<u32>, f: int, grp: int)
    requires
        c.len() == 128,
        0 <= grp < 4,
        forall|col: int| 0 <= col < 48 ==> #[trigger] c[col]
            == crate::blakeg_footer::footer_xor_cell(h, v, f, col),
    ensures
        spec_footer_xor_word(c, 4 * grp) == (crate::blakeg_footer::footer_xor_words(h, v, f, grp).0
            ^ crate::blakeg_footer::footer_xor_words(h, v, f, grp).1) as int,
{
    let w = crate::blakeg_footer::footer_xor_words(h, v, f, grp);
    assert forall|byte: int, field: int| 0 <= byte < 4 && 0 <= field < 3 implies #[trigger] c[3 * (4
        * grp + byte) + field] == crate::blakeg_footer::and_slot_cell(w.0, w.1, byte, field) by {
        let col = 3 * (4 * grp + byte) + field;
        assert(col / 3 == 4 * grp + byte);
        assert((col / 3) / 4 == grp);
        assert((col / 3) % 4 == byte);
        assert(col % 3 == field);
        assert(c[col] == crate::blakeg_footer::footer_xor_cell(h, v, f, col));
    }
    lemma_xor_word(c, 4 * grp, w.0, w.1);
}

/// The compression-link message of the final footer row carries the compression itself: the
/// packed block, the packed input chaining value, and the packed compression output of `h` and
/// `block`, exactly the chaining word that an Eidos compression of this block produces.
pub proof fn lemma_compression_link_carries_the_compression(
    block: Seq<u32>,
    h: Seq<u32>,
    cycle_id: u64,
    mode: TraceMode,
)
    requires
        block.len() == 16,
        h.len() == 8,
    ensures
        forall|i: int| 0 <= i < 8 ==> #[trigger] spec_footer_row(block, h, cycle_id, mode, 3)[F_R_BASE_COL + i]
            == spec_pack_pair(block[2 * i], block[2 * i + 1]),
        forall|i: int| 0 <= i < 4 ==> #[trigger] spec_footer_row(block, h, cycle_id, mode, 3)[F_C_BASE_COL + i]
            == spec_pack_pair(h[2 * i], h[2 * i + 1]),
        forall|i: int| 0 <= i < 4 ==> #[trigger] spec_footer_row(block, h, cycle_id, mode, 3)[F_D_BASE_COL + i]
            == cv_to_word(spec_compress(h, block))[i],
{
    let c = spec_footer_row(block, h, cycle_id, mode, 3);
    let v = spec_final_state(h, block);
    assert forall|i: int| 0 <= i < 4 implies #[trigger] c[F_D_BASE_COL + i] == cv_to_word(
        spec_compress(h, block),
    )[i] by {
        let lo = v[2 * i] ^ v[2 * i + 8];
        let x = v[2 * i + 1] ^ v[2 * i + 9];
        assert(c[F_D_BASE_COL + i] == spec_pack_pair(lo, x & 0x7fff_ffff));
        assert(spec_compress(h, block)[2 * i] == lo);
        assert(spec_compress(h, block)[2 * i + 1] == x & ODD_LANE_MASK);
        assert((((((x & 0x7fff_ffffu32) & 0x7fff_ffffu32) as u64) << 32u64) | (lo as u64)) == (lo as u64)
            + ((x & 0x7fff_ffffu32) as u64) * 0x1_0000_0000u64) by (bit_vector);
        assert((x & 0x7fff_ffffu32) <= 0x7fff_ffffu32) by (bit_vector);
    }
}

/// The input-pair lookup of the first fused row carries, for chaining-value pair `pair`,
/// exactly the fields of footer row `pair`'s input-pair slot: the key `4 * cycle_id + pair`
/// and the pair's two words. Within one cycle the input-pair bus therefore balances on its
/// actual lookup fields.
#[verifier::spinoff_prover]
pub proof fn lemma_first_input_pair_fields_match_footer(
    block: Seq<u32>,
    h: Seq<u32>,
    cycle_id: u64,
    mode: TraceMode,
    pair: int,
)
    requires
        block.len() == 16,
        h.len() == 8,
        cycle_id <= MAX_COMPRESSION_CYCLE_ID,
        0 <= pair < FOOTER_ROWS,
    ensures
        spec_first_input_pair_fields(spec_first_fused_row(block, h, cycle_id), pair) == seq![
            spec_footer_row(block, h, cycle_id, mode, pair)[51] as int,
            spec_footer_row(block, h, cycle_id, mode, pair)[52] as int,
            spec_footer_row(block, h, cycle_id, mode, pair)[53] as int,
        ],
{
    let row0 = spec_first_fused_row(block, h, cycle_id);
    let foot = spec_footer_row(block, h, cycle_id, mode, pair);
    assert(row0[98] == cycle_id);
    lemma_small_mod_key(cycle_id, pair);
    lemma_input_word(block, h, cycle_id, 2 * pair);
    lemma_input_word(block, h, cycle_id, 2 * pair + 1);
    assert(foot[51] == (4 * cycle_id + pair) as u64);
    assert(foot[52] == h[2 * pair] as u64);
    assert(foot[53] == h[2 * pair + 1] as u64);
    assert(spec_first_input_pair_fields(row0, pair) =~= seq![
        foot[51] as int,
        foot[52] as int,
        foot[53] as int,
    ]);
}

#[verifier::spinoff_prover]
proof fn lemma_input_word(block: Seq<u32>, h: Seq<u32>, cycle_id: u64, idx: int)
    requires
        block.len() == 16,
        h.len() == 8,
        0 <= idx < 8,
    ensures
        spec_input_word(spec_first_fused_row(block, h, cycle_id), idx) == h[idx] as int,
{
    let row0 = spec_first_fused_row(block, h, cycle_id);
    let v0 = crate::blakeg::spec_initial_state(h);
    if idx < 4 {
        assert(row0[108 + idx] == crate::blakeg_fused::g_in(v0, 0, idx, 0) as u64);
        assert(v0[idx] == h[idx]);
    } else {
        let g = idx - 4;
        let b = crate::blakeg_fused::g_in(v0, 0, g, 1);
        assert(b == v0[g + 4]);
        assert(v0[g + 4] == h[idx]);
        assert forall|byte: int| 0 <= byte < 4 implies #[trigger] row0[48 + 12 * g + 3 * byte]
            == byte_of(b, byte) as u64 by {
            let col = 48 + 12 * g + 3 * byte;
            assert((col - 48) / 12 == g);
            assert(((col - 48) % 12) / 3 == byte);
            assert(col % 3 == 0);
        }
        assert(row0[48 + 12 * g] == byte_of(b, 0) as u64);
        assert(row0[51 + 12 * g] == byte_of(b, 1) as u64);
        assert(row0[54 + 12 * g] == byte_of(b, 2) as u64);
        assert(row0[57 + 12 * g] == byte_of(b, 3) as u64);
        lemma_pack_le_bytes(b);
    }
}

proof fn lemma_small_mod_key(cycle_id: u64, pair: int)
    requires
        cycle_id <= MAX_COMPRESSION_CYCLE_ID,
        0 <= pair < 4,
    ensures
        fadd(fmul(4, cycle_id as int), pair) == 4 * cycle_id + pair,
        (4 * cycle_id + pair) as u64 == 4 * cycle_id + pair,
{
    let m = MODULUS as int;
    assert(4 * cycle_id + 3 < m);
    assert((4 * cycle_id) % m == 4 * cycle_id);
    assert((4 * cycle_id + pair) % m == 4 * cycle_id + pair);
}

} // verus!
