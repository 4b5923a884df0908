//! Row and column layout of the 32-row BlakeG compression cycle.
//!
//! Each cycle has 28 fused G rows (seven rounds of four rows: column `a/b` half, column `c/d`
//! half, diagonal `a/b` half, diagonal `c/d` half) followed by four footer rows. Every row has 128
//! columns; byte lookups occupy three-column slots.
use vstd::prelude::*;

verus! {

/// Rows per compression cycle.
pub const BLOCK_PERIOD: usize = 32;

/// Fused G rows per cycle.
pub const FUSED_G_ROWS: usize = 28;

/// Fused G rows per round.
pub const FUSED_G_ROWS_PER_ROUND: usize = 4;

/// First footer row.
pub const FOOTER_START: usize = 28;

/// Footer rows per cycle.
pub const FOOTER_ROWS: usize = 4;

/// Main-trace columns.
pub const NUM_COLS: usize = 128;

/// Auxiliary (lookup) columns.
pub const AUX_COLS: usize = 24;

/// G functions evaluated side by side on a fused row.
pub const NUM_G: usize = 4;

/// Bytes per 32-bit word.
pub const BYTES_PER_WORD: usize = 4;

/// Byte slots per half step (four G functions, four bytes each).
pub const BYTE_SLOTS_PER_STEP: usize = 16;

/// Columns per lookup slot.
pub const BYTE_SLOT_WIDTH: usize = 3;

/// Fused-row column bases.
pub const G_AC_BYTE_SLOT_BASE_COL: usize = 0;

pub const G_BD_ROT_SLOT_BASE_COL: usize = 48;

pub const G_MSG_SLOT_BASE_COL: usize = 96;

pub const G_A_BASE_COL: usize = 108;

pub const G_C_BASE_COL: usize = 112;

pub const G_K3_BIT0_BASE_COL: usize = 116;

pub const G_K3_BIT1_BASE_COL: usize = 120;

pub const G_K2_BASE_COL: usize = 124;

/// Footer-row column bases.
pub const F_XOR_SLOT_BASE_COL: usize = 0;

pub const F_TOP_BIT_SLOT_BASE_COL: usize = 48;

pub const F_HIN_SLOT_BASE_COL: usize = 51;

pub const F_MSG_GROUP_BASE_COL: usize = 54;

/// Message-word slots per footer row.
pub const F_MSG_WORD_SLOTS: usize = 4;

/// Range-check slots per footer row.
pub const F_RANGE_SLOTS: usize = 8;

/// Slots in a footer message group.
pub const F_MSG_GROUP_SLOTS: usize = 12;

pub const F_R_BASE_COL: usize = 90;

pub const F_C_BASE_COL: usize = 98;

pub const F_D_BASE_COL: usize = 102;

pub const F_FUTURE_W_BASE_COL: usize = 106;

pub const F_FUTURE_W_COLS: usize = 12;

pub const F_R_CANON_INV_BASE_COL: usize = 118;

pub const F_R_CANON_Z_BASE_COL: usize = 120;

pub const F_C_CANON_INV_COL: usize = 122;

pub const F_C_CANON_Z_COL: usize = 123;

pub const F_COMPRESSION_MULTIPLICITY_COL: usize = 124;

pub const F_COMPRESSION_CYCLE_ID_COL: usize = 125;

pub const F_MODE_COL: usize = 126;

pub const F_CLK_COL: usize = 127;

/// The family a row of the cycle belongs to.
#[derive(Debug, Clone, Copy, PartialEq, Eq, Structural)]
pub enum RowKind {
    /// Column step, `a/b` half (rotations 16 then 12).
    Ab,
    /// Column step, `c/d` half (rotations 8 then 7).
    Cd,
    /// Diagonal step, `a/b` half.
    AbDiag,
    /// Diagonal step, `c/d` half.
    CdDiag,
    /// Footer row `0..4`.
    Footer(usize),
}

/// The family of row `row` of a cycle.
pub open spec fn spec_row_kind(row: int) -> RowKind {
    if row >= FOOTER_START {
        RowKind::Footer((row - FOOTER_START) as usize)
    } else if row % 4 == 0 {
        RowKind::Ab
    } else if row % 4 == 1 {
        RowKind::Cd
    } else if row % 4 == 2 {
        RowKind::AbDiag
    } else {
        RowKind::CdDiag
    }
}

/// The family of row `row` of a cycle.
pub fn row_kind(row: usize) -> (r: RowKind)
    requires
        row < BLOCK_PERIOD,
    ensures
        r == spec_row_kind(row as int),
{
    if row >= FOOTER_START {
        RowKind::Footer(row - FOOTER_START)
    } else if row % 4 == 0 {
        RowKind::Ab
    } else if row % 4 == 1 {
        RowKind::Cd
    } else if row % 4 == 2 {
        RowKind::AbDiag
    } else {
        RowKind::CdDiag
    }
}

/// Column of field `field` of the `a/c` byte slot for byte `byte` of G function `g`.
pub fn g_ac_byte_slot_col(g: usize, byte: usize, field: usize) -> (r: usize)
    requires
        g < NUM_G,
        byte < BYTES_PER_WORD,
        field < BYTE_SLOT_WIDTH,
    ensures
        r == G_AC_BYTE_SLOT_BASE_COL + 3 * (4 * g + byte) + field,
        r < G_BD_ROT_SLOT_BASE_COL,
{
    G_AC_BYTE_SLOT_BASE_COL + BYTE_SLOT_WIDTH * (BYTES_PER_WORD * g + byte) + field
}

/// Column of field `field` of the `b/d` rotation slot for byte `byte` of G function `g`.
pub fn g_bd_rot_slot_col(g: usize, byte: usize, field: usize) -> (r: usize)
    requires
        g < NUM_G,
        byte < BYTES_PER_WORD,
        field < BYTE_SLOT_WIDTH,
    ensures
        r == G_BD_ROT_SLOT_BASE_COL + 3 * (4 * g + byte) + field,
        G_BD_ROT_SLOT_BASE_COL <= r < G_MSG_SLOT_BASE_COL,
{
    G_BD_ROT_SLOT_BASE_COL + BYTE_SLOT_WIDTH * (BYTES_PER_WORD * g + byte) + field
}

/// Column of field `field` of the message-word slot of G function `g`.
pub fn g_msg_slot_col(g: usize, field: usize) -> (r: usize)
    requires
        g < NUM_G,
        field < BYTE_SLOT_WIDTH,
    ensures
        r == G_MSG_SLOT_BASE_COL + 3 * g + field,
        G_MSG_SLOT_BASE_COL <= r < G_A_BASE_COL,
{
    G_MSG_SLOT_BASE_COL + BYTE_SLOT_WIDTH * g + field
}

/// Column of field `field` of footer XOR slot `slot`.
pub fn footer_xor_slot_col(slot: usize, field: usize) -> (r: usize)
    requires
        slot < BYTE_SLOTS_PER_STEP,
        field < BYTE_SLOT_WIDTH,
    ensures
        r == F_XOR_SLOT_BASE_COL + 3 * slot + field,
        r < F_TOP_BIT_SLOT_BASE_COL,
{
    F_XOR_SLOT_BASE_COL + BYTE_SLOT_WIDTH * slot + field
}

/// Column of field `field` of footer message-word slot `word_slot`.
pub fn footer_msg_word_slot_col(word_slot: usize, field: usize) -> (r: usize)
    requires
        word_slot < F_MSG_WORD_SLOTS,
        field < BYTE_SLOT_WIDTH,
    ensures
        r == F_MSG_GROUP_BASE_COL + 3 * word_slot + field,
        F_MSG_GROUP_BASE_COL <= r < F_MSG_GROUP_BASE_COL + 3 * F_MSG_WORD_SLOTS,
{
    F_MSG_GROUP_BASE_COL + BYTE_SLOT_WIDTH * word_slot + field
}

/// Column of field `field` of footer range-check slot `limb`.
pub fn footer_range_slot_col(limb: usize, field: usize) -> (r: usize)
    requires
        limb < F_RANGE_SLOTS,
        field < BYTE_SLOT_WIDTH,
    ensures
        r == F_MSG_GROUP_BASE_COL + 3 * F_MSG_WORD_SLOTS + 3 * limb + field,
        F_MSG_GROUP_BASE_COL + 3 * F_MSG_WORD_SLOTS <= r < F_R_BASE_COL,
{
    F_MSG_GROUP_BASE_COL + BYTE_SLOT_WIDTH * F_MSG_WORD_SLOTS + BYTE_SLOT_WIDTH * limb + field
}

/// The message word carried by message-word slot `word_slot` of footer row `footer`.
pub fn footer_message_word_index(footer: usize, word_slot: usize) -> (r: usize)
    requires
        footer < FOOTER_ROWS,
        word_slot < F_MSG_WORD_SLOTS,
    ensures
        r == spec_footer_message_word_index(footer as int, word_slot as int),
        r < 16,
{
    footer * F_MSG_WORD_SLOTS + word_slot
}

/// The message word of a footer message-word slot.
pub open spec fn spec_footer_message_word_index(footer: int, word_slot: int) -> int {
    footer * F_MSG_WORD_SLOTS + word_slot
}

/// First footer XOR slot of the high-half even word `v[8 + 2f] & h[2f]`.
pub const F_HIGH_EVEN_SLOT_BASE: usize = 0;
/// First footer XOR slot of the high-half odd word `v[9 + 2f] & h[2f + 1]`.
pub const F_HIGH_ODD_SLOT_BASE: usize = 4;
/// First footer XOR slot of the output even word `v[2f] & v[8 + 2f]`.
pub const F_OUTPUT_EVEN_SLOT_BASE: usize = 8;
/// First footer XOR slot of the output odd word `v[2f + 1] & v[9 + 2f]`.
pub const F_OUTPUT_ODD_SLOT_BASE: usize = 12;
/// The mask of the top bit of the odd output word's top byte.
pub const F_TOP_BIT_MASK: u8 = 0x80;

/// The message word whose 16-bit half range-check slot `limb` of footer row `footer` carries:
/// limbs `2w` and `2w + 1` are the low and high halves of the row's message-word slot `w`.
pub fn footer_range_limb_word_index(footer: usize, limb: usize) -> (r: usize)
    requires
        footer < FOOTER_ROWS,
        limb < F_RANGE_SLOTS,
    ensures
        r == spec_footer_message_word_index(footer as int, limb as int / 2),
        r < 16,
{
    footer_message_word_index(footer, limb / 2)
}

/// Whether range-check limb `limb` holds the high 16 bits of its message word.
pub fn footer_range_limb_is_high(limb: usize) -> (r: bool)
    ensures
        r == (limb % 2 == 1),
{
    limb % 2 == 1
}

/// The number of working-state words footer row `footer` still queues for later footers.
pub open spec fn spec_future_w_len(footer: int) -> int {
    4 * (FOOTER_ROWS - 1 - footer)
}

/// Entry `idx` of the future-W queue of footer row `footer`: for each later footer `f`, the
/// words `v[2f]`, `v[2f + 1]`, `v[8 + 2f]` and `v[9 + 2f]` in order.
pub open spec fn spec_future_w_index(footer: int, idx: int) -> int {
    let f = footer + 1 + idx / 4;
    let k = idx % 4;
    if k < 2 {
        2 * f + k
    } else {
        8 + 2 * f + (k - 2)
    }
}

/// The working-state words queued by footer row `footer` for the footers after it.
pub fn footer_future_w_indices(footer: usize) -> (r: Vec<usize>)
    requires
        footer < FOOTER_ROWS,
    ensures
        r@.len() == spec_future_w_len(footer as int),
        forall|i: int| 0 <= i < r@.len() ==> #[trigger] r@[i] == spec_future_w_index(footer as int, i),
        forall|i: int| 0 <= i < r@.len() ==> r@[i] < 16,
{
    let mut r: Vec<usize> = Vec::new();
    let mut f: usize = footer + 1;
    while f < FOOTER_ROWS
        invariant
            footer < f <= FOOTER_ROWS,
            r@.len() == 4 * (f - footer - 1),
            forall|i: int| 0 <= i < r@.len() ==> #[trigger] r@[i] == spec_future_w_index(footer as int, i),
            forall|i: int| 0 <= i < r@.len() ==> r@[i] < 16,
        decreases FOOTER_ROWS - f,
    {
        let ghost base = r@.len() as int;
        r.push(2 * f);
        r.push(2 * f + 1);
        r.push(8 + 2 * f);
        r.push(9 + 2 * f);
        proof {
            assert forall|i: int| 0 <= i < r@.len() implies #[trigger] r@[i] == spec_future_w_index(
                footer as int,
                i,
            ) by {
                if i >= base {
                    assert(i / 4 == f - footer - 1);
                }
            }
        }
        f = f + 1;
    }
    r
}

/// The footer message-word slots name each of the sixteen message words exactly once.
pub proof fn lemma_footer_message_words_are_a_bijection()
    ensures
        forall|f1: int, w1: int, f2: int, w2: int|
            0 <= f1 < 4 && 0 <= w1 < 4 && 0 <= f2 < 4 && 0 <= w2 < 4 && #[trigger]
                spec_footer_message_word_index(f1, w1) == #[trigger] spec_footer_message_word_index(
                f2,
                w2,
            ) ==> f1 == f2 && w1 == w2,
        forall|m: int|
            0 <= m < 16 ==> 0 <= m / 4 < 4 && 0 <= m % 4 < 4 && #[trigger]
                spec_footer_message_word_index(m / 4, m % 4) == m,
{
}

/// The fused-row column groups (two byte-slot bands, the message slots and five four-column
/// groups) tile the 128 columns without overlap.
pub proof fn lemma_fused_row_tiles_columns()
    ensures
        G_AC_BYTE_SLOT_BASE_COL == 0,
        G_AC_BYTE_SLOT_BASE_COL + BYTE_SLOT_WIDTH * BYTE_SLOTS_PER_STEP == G_BD_ROT_SLOT_BASE_COL,
        G_BD_ROT_SLOT_BASE_COL + BYTE_SLOT_WIDTH * BYTE_SLOTS_PER_STEP == G_MSG_SLOT_BASE_COL,
        G_MSG_SLOT_BASE_COL + BYTE_SLOT_WIDTH * NUM_G == G_A_BASE_COL,
        G_A_BASE_COL + NUM_G == G_C_BASE_COL,
        G_C_BASE_COL + NUM_G == G_K3_BIT0_BASE_COL,
        G_K3_BIT0_BASE_COL + NUM_G == G_K3_BIT1_BASE_COL,
        G_K3_BIT1_BASE_COL + NUM_G == G_K2_BASE_COL,
        G_K2_BASE_COL + NUM_G == NUM_COLS,
{
}

/// The footer column groups tile the 128 columns without overlap.
pub proof fn lemma_footer_row_tiles_columns()
    ensures
        F_MSG_GROUP_SLOTS == F_MSG_WORD_SLOTS + F_RANGE_SLOTS,
        F_XOR_SLOT_BASE_COL == 0,
        F_XOR_SLOT_BASE_COL + BYTE_SLOT_WIDTH * BYTE_SLOTS_PER_STEP == F_TOP_BIT_SLOT_BASE_COL,
        F_TOP_BIT_SLOT_BASE_COL + BYTE_SLOT_WIDTH == F_HIN_SLOT_BASE_COL,
        F_HIN_SLOT_BASE_COL + BYTE_SLOT_WIDTH == F_MSG_GROUP_BASE_COL,
        F_MSG_GROUP_BASE_COL + BYTE_SLOT_WIDTH * F_MSG_GROUP_SLOTS == F_R_BASE_COL,
        F_R_BASE_COL + 8 == F_C_BASE_COL,
        F_C_BASE_COL + 4 == F_D_BASE_COL,
        F_D_BASE_COL + 4 == F_FUTURE_W_BASE_COL,
        F_FUTURE_W_BASE_COL + F_FUTURE_W_COLS == F_R_CANON_INV_BASE_COL,
        F_R_CANON_INV_BASE_COL + 2 == F_R_CANON_Z_BASE_COL,
        F_R_CANON_Z_BASE_COL + 2 == F_C_CANON_INV_COL,
        F_C_CANON_INV_COL + 1 == F_C_CANON_Z_COL,
        F_C_CANON_Z_COL + 1 == F_COMPRESSION_MULTIPLICITY_COL,
        F_COMPRESSION_MULTIPLICITY_COL + 1 == F_COMPRESSION_CYCLE_ID_COL,
        F_COMPRESSION_CYCLE_ID_COL + 1 == F_MODE_COL,
        F_MODE_COL + 1 == F_CLK_COL,
        F_CLK_COL + 1 == NUM_COLS,
{
}

} // verus!
