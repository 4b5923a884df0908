//! The BlakeG trace block over the VM base field.
//!
//! Every cell of a generated block is a canonical field element: the writers therefore produce
//! the raw block and embed it cell by cell.
use vstd::prelude::*;

use crate::blakeg::spec_final_state;
use crate::blakeg_footer::{footer_message_cell, footer_row_lookups};
use crate::blakeg_fused::{
    fused_slot_lookup, lemma_row_message_index_range, row_second_rotation, spec_k2, spec_k3,
};
use crate::blakeg_layout::{
    g_msg_slot_col, footer_msg_word_slot_col, BLOCK_PERIOD, FOOTER_ROWS, FOOTER_START,
    FUSED_G_ROWS, F_COMPRESSION_CYCLE_ID_COL, F_HIN_SLOT_BASE_COL, F_MSG_WORD_SLOTS, NUM_COLS,
    NUM_G,
};
use crate::blakeg_trace::{
    canonical_pair, canonical_pairs, compression_cycle_pair_index, mode_metadata,
    spec_fused_row_cell, spec_footer_row, spec_pack_pair, BlakeGByteLookup, ByteLookupRecorder,
    NoopByteLookupRecorder, TraceMode, MAX_COMPRESSION_CYCLE_ID,
};
use crate::field::{has_inverse, is_inverse, spec_inverse_or_zero, Felt, MODULUS};

verus! {

/// One row of the BlakeG main trace over the VM base field.
pub type BlakeGFeltRow = [Felt; 128];

/// A materialized 32-row BlakeG trace block over the base field, and the final 16-word working
/// state of its compression.
pub struct BlakeGFeltTraceBlock {
    /// The main-trace rows of one physical compression.
    pub rows: Vec<BlakeGFeltRow>,
    /// The BlakeG working state after all seven rounds, before the output feed-forward.
    pub final_v: [u32; 16],
}

/// The inputs a BlakeG block can be written for: a cycle identifier whose cycle/pair keys are
/// canonical, canonical multiplicity or clock metadata, and canonical packed inputs.
pub open spec fn valid_trace_inputs(block: Seq<u32>, h: Seq<u32>, cycle_id: u64, mode: TraceMode) -> bool {
    &&& block.len() == 16
    &&& h.len() == 8
    &&& cycle_id <= MAX_COMPRESSION_CYCLE_ID
    &&& (mode_metadata(mode) matches Some(value) ==> value < MODULUS)
    &&& canonical_pairs(block)
    &&& canonical_pairs(h)
}

proof fn lemma_canonical_pair_packs_below_modulus(lo: u32, hi: u32)
    requires
        canonical_pair(lo, hi),
    ensures
        spec_pack_pair(lo, hi) < MODULUS,
        spec_pack_pair(lo, hi) == lo + hi * 0x1_0000_0000,
{
}

proof fn lemma_masked_pair_packs_below_modulus(lo: u32, x: u32)
    ensures
        spec_pack_pair(lo, x & 0x7fff_ffff) < MODULUS,
{
    assert(x & 0x7fff_ffffu32 <= 0x7fff_ffffu32) by (bit_vector);
}

proof fn lemma_inverse_or_zero_canonical(x: int)
    ensures
        0 <= spec_inverse_or_zero(x) < MODULUS,
{
    if has_inverse(x) {
        let y = choose|y: int| is_inverse(x, y);
        assert(is_inverse(x, y));
    }
}

/// Every cell of a BlakeG block written for valid inputs is a canonical field element.
pub proof fn lemma_trace_cells_canonical(block: Seq<u32>, h: Seq<u32>, cycle_id: u64, mode: TraceMode)
    requires
        valid_trace_inputs(block, h, cycle_id, mode),
    ensures
        forall|row: int, col: int|
            0 <= row < FUSED_G_ROWS && 0 <= col < NUM_COLS ==> #[trigger] spec_fused_row_cell(
                block,
                h,
                cycle_id,
                row,
                col,
            ) < MODULUS,
        forall|f: int, col: int|
            0 <= f < FOOTER_ROWS && 0 <= col < NUM_COLS ==> #[trigger] spec_footer_row(
                block,
                h,
                cycle_id,
                mode,
                f,
            )[col] < MODULUS,
{
    assert forall|row: int, col: int| 0 <= row < FUSED_G_ROWS && 0 <= col < NUM_COLS implies #[trigger] spec_fused_row_cell(
        block,
        h,
        cycle_id,
        row,
        col,
    ) < MODULUS by {
        if 96 <= col < 108 {
            lemma_row_message_index_range(row, (col - 96) / 3);
        } else if 116 <= col < 124 {
            assert(forall|a: u32, b: u32, m: u32| 0 <= #[trigger] spec_k3(a, b, m) <= 2);
        } else if col >= 124 {
            assert(forall|c: u32, d: u32| 0 <= #[trigger] spec_k2(c, d) <= 1);
        }
    }
    assert forall|f: int, col: int| 0 <= f < FOOTER_ROWS && 0 <= col < NUM_COLS implies #[trigger] spec_footer_row(
        block,
        h,
        cycle_id,
        mode,
        f,
    )[col] < MODULUS by {
        let v = spec_final_state(h, block);
        if 90 <= col < 98 {
            let idx = col - 90;
            assert(canonical_pair(block[2 * idx], block[2 * idx + 1]));
            lemma_canonical_pair_packs_below_modulus(block[2 * idx], block[2 * idx + 1]);
        } else if 98 <= col < 102 {
            let idx = col - 98;
            assert(canonical_pair(h[2 * idx], h[2 * idx + 1]));
            lemma_canonical_pair_packs_below_modulus(h[2 * idx], h[2 * idx + 1]);
        } else if 102 <= col < 106 {
            let idx = col - 102;
            lemma_masked_pair_packs_below_modulus(v[2 * idx] ^ v[2 * idx + 8], v[2 * idx + 1] ^ v[2 * idx + 9]);
        } else if 118 <= col < 124 {
            assert forall|x: int| #![trigger spec_inverse_or_zero(x)] 0 <= spec_inverse_or_zero(x) < MODULUS by {
                lemma_inverse_or_zero_canonical(x);
            }
        }
    }
}

/// Raw cell `col` of row `row` of the block compressing `block` under `h` as cycle
/// `cycle_id`: the fused rows, then the footer rows.
pub open spec fn spec_block_cell(
    block: Seq<u32>,
    h: Seq<u32>,
    cycle_id: u64,
    mode: TraceMode,
    row: int,
    col: int,
) -> u64 {
    if row < FUSED_G_ROWS {
        spec_fused_row_cell(block, h, cycle_id, row, col)
    } else {
        spec_footer_row(block, h, cycle_id, mode, row - FOOTER_START)[col]
    }
}

/// The 128 cells of row `row` of the block.
pub open spec fn spec_row_cells(block: Seq<u32>, h: Seq<u32>, cycle_id: u64, mode: TraceMode, row: int) -> Seq<u64> {
    Seq::new(128, |col: int| spec_block_cell(block, h, cycle_id, mode, row, col))
}

/// The byte lookups of a block, read off its lookup slots: the 32 lookups of each fused row in row
/// order, then the 17 of each footer row.
pub open spec fn spec_block_lookups(block: Seq<u32>, h: Seq<u32>, cycle_id: u64, mode: TraceMode) -> Seq<
    (BlakeGByteLookup, u8, u8, u32),
> {
    Seq::new(
        (32 * FUSED_G_ROWS) as nat,
        |t: int|
            fused_slot_lookup(
                spec_row_cells(block, h, cycle_id, mode, t / 32),
                row_second_rotation(t / 32),
                t % 32,
            ),
    ) + Seq::new(
        (17 * FOOTER_ROWS) as nat,
        |t: int| footer_row_lookups(spec_row_cells(block, h, cycle_id, mode, FOOTER_START + t / 17))[t % 17],
    )
}

/// The field elements of the first 32 rows of `rows` are the block's cells.
pub open spec fn holds_block(
    rows: Seq<BlakeGFeltRow>,
    block: Seq<u32>,
    h: Seq<u32>,
    cycle_id: u64,
    mode: TraceMode,
) -> bool {
    forall|i: int, col: int|
        0 <= i < BLOCK_PERIOD && 0 <= col < NUM_COLS ==> #[trigger] rows[i]@[col]@ == spec_block_cell(
            block,
            h,
            cycle_id,
            mode,
            i,
            col,
        )
}

/// Write one BlakeG compression cycle into the first 32 rows of `rows` and record its
/// byte-table lookups; returns the final working state.
///
/// The destination is meant to be zeroed (so that inactive overlay columns stay canonical);
/// every cell of the 32 rows is written. Rows past the block are left unchanged.
pub fn write_felt_trace_block_into_zeroed_with_lookups<R: ByteLookupRecorder>(
    rows: &mut [BlakeGFeltRow],
    block: [u32; 16],
    h: [u32; 8],
    compression_cycle_id: u64,
    mode: TraceMode,
    recorder: &mut R,
) -> (final_v: [u32; 16])
    requires
        old(rows)@.len() >= BLOCK_PERIOD,
        valid_trace_inputs(block@, h@, compression_cycle_id, mode),
    ensures
        final(rows)@.len() == old(rows)@.len(),
        final_v@ == spec_final_state(h@, block@),
        holds_block(final(rows)@, block@, h@, compression_cycle_id, mode),
        forall|i: int| BLOCK_PERIOD <= i < old(rows)@.len() ==> #[trigger] final(rows)@[i] == old(
            rows,
        )@[i],
        final(recorder).spec_log() == old(recorder).spec_log() + spec_block_lookups(
            block@,
            h@,
            compression_cycle_id,
            mode,
        ),
{
    let ghost log0 = recorder.spec_log();
    let (raw, final_v) = crate::blakeg_trace::write_trace_rows(
        &block,
        &h,
        compression_cycle_id,
        mode,
        recorder,
    );
    proof {
        lemma_trace_cells_canonical(block@, h@, compression_cycle_id, mode);
        assert forall|i: int, col: int| 0 <= i < BLOCK_PERIOD && 0 <= col < NUM_COLS implies #[trigger] raw@[i]@[col]
            == spec_block_cell(block@, h@, compression_cycle_id, mode, i, col) && raw@[i]@[col]
            < MODULUS by {
            if i < FUSED_G_ROWS {
                assert(raw@[i]@[col] == spec_fused_row_cell(block@, h@, compression_cycle_id, i, col));
            } else {
                let f = i - FOOTER_START;
                assert(raw@[FOOTER_START + f]@[col] == spec_footer_row(
                    block@,
                    h@,
                    compression_cycle_id,
                    mode,
                    f,
                )[col]);
            }
        }
        assert forall|i: int| 0 <= i < BLOCK_PERIOD implies #[trigger] raw@[i]@ == spec_row_cells(
            block@,
            h@,
            compression_cycle_id,
            mode,
            i,
        ) by {
            assert(raw@[i]@ =~= spec_row_cells(block@, h@, compression_cycle_id, mode, i)) by {
                assert forall|col: int| 0 <= col < 128 implies raw@[i]@[col] == spec_row_cells(
                    block@,
                    h@,
                    compression_cycle_id,
                    mode,
                    i,
                )[col] by {
                    assert(raw@[i]@[col] == spec_block_cell(block@, h@, compression_cycle_id, mode, i, col));
                }
            }
        }
        let spec_l = spec_block_lookups(block@, h@, compression_cycle_id, mode);
        let got = crate::blakeg_fused::fused_rows_lookups(raw@, FUSED_G_ROWS as int)
            + crate::blakeg_footer::footer_rows_lookups(raw@, FOOTER_ROWS as int);
        assert forall|t: int| 0 <= t < spec_l.len() implies #[trigger] got[t] == spec_l[t] by {
            if t < 32 * FUSED_G_ROWS {
                assert(raw@[t / 32]@ == spec_row_cells(block@, h@, compression_cycle_id, mode, t / 32));
            } else {
                let u = t - 32 * FUSED_G_ROWS;
                assert(raw@[FOOTER_START + u / 17]@ == spec_row_cells(
                    block@,
                    h@,
                    compression_cycle_id,
                    mode,
                    FOOTER_START + u / 17,
                ));
            }
        }
        assert(recorder.spec_log() =~= log0 + spec_l);
    }
    let mut i: usize = 0;
    while i < BLOCK_PERIOD
        invariant
            i <= BLOCK_PERIOD,
            rows@.len() == old(rows)@.len(),
            old(rows)@.len() >= BLOCK_PERIOD,
            raw@.len() == BLOCK_PERIOD,
            forall|t: int, col: int|
                0 <= t < BLOCK_PERIOD && 0 <= col < NUM_COLS ==> #[trigger] raw@[t]@[col]
                    == spec_block_cell(block@, h@, compression_cycle_id, mode, t, col) && raw@[t]@[col]
                    < MODULUS,
            forall|t: int, col: int|
                0 <= t < i && 0 <= col < NUM_COLS ==> #[trigger] rows@[t]@[col]@ == spec_block_cell(
                    block@,
                    h@,
                    compression_cycle_id,
                    mode,
                    t,
                    col,
                ),
            forall|t: int| i <= t < old(rows)@.len() ==> #[trigger] rows@[t] == old(rows)@[t],
        decreases BLOCK_PERIOD - i,
    {
        let src = raw[i];
        let mut frow = rows[i];
        let mut col: usize = 0;
        while col < NUM_COLS
            invariant
                i < BLOCK_PERIOD,
                col <= NUM_COLS,
                src@ == raw@[i as int]@,
                forall|c: int| 0 <= c < NUM_COLS ==> #[trigger] src@[c] < MODULUS,
                forall|c: int| 0 <= c < col ==> #[trigger] frow@[c]@ == src@[c],
            decreases NUM_COLS - col,
        {
            frow[col] = Felt::from_canonical(src[col]);
            col = col + 1;
        }
        rows[i] = frow;
        i = i + 1;
    }
    final_v
}

/// Write one BlakeG compression cycle into the first 32 rows of `rows`, clearing them first;
/// returns the final working state. Rows past the block are left unchanged.
pub fn write_felt_trace_block(
    rows: &mut [BlakeGFeltRow],
    block: [u32; 16],
    h: [u32; 8],
    compression_cycle_id: u64,
    mode: TraceMode,
) -> (final_v: [u32; 16])
    requires
        old(rows)@.len() >= BLOCK_PERIOD,
        valid_trace_inputs(block@, h@, compression_cycle_id, mode),
    ensures
        final(rows)@.len() == old(rows)@.len(),
        final_v@ == spec_final_state(h@, block@),
        holds_block(final(rows)@, block@, h@, compression_cycle_id, mode),
        forall|i: int| BLOCK_PERIOD <= i < old(rows)@.len() ==> #[trigger] final(rows)@[i] == old(
            rows,
        )@[i],
{
    let zero = Felt::zero();
    let mut i: usize = 0;
    while i < BLOCK_PERIOD
        invariant
            i <= BLOCK_PERIOD,
            zero@ == 0,
            rows@.len() == old(rows)@.len(),
            old(rows)@.len() >= BLOCK_PERIOD,
            forall|t: int| BLOCK_PERIOD <= t < old(rows)@.len() ==> #[trigger] rows@[t] == old(rows)@[t],
        decreases BLOCK_PERIOD - i,
    {
        rows[i] = [zero; 128];
        i = i + 1;
    }
    let mut recorder = NoopByteLookupRecorder::new();
    write_felt_trace_block_into_zeroed_with_lookups(
        rows,
        block,
        h,
        compression_cycle_id,
        mode,
        &mut recorder,
    )
}

/// Generate one field-valued BlakeG trace block as physical cycle `compression_cycle_id`.
pub fn generate_felt_trace_block_with_cycle_id(
    block: [u32; 16],
    h: [u32; 8],
    compression_cycle_id: u64,
    mode: TraceMode,
) -> (r: BlakeGFeltTraceBlock)
    requires
        valid_trace_inputs(block@, h@, compression_cycle_id, mode),
    ensures
        r.rows@.len() == BLOCK_PERIOD,
        r.final_v@ == spec_final_state(h@, block@),
        holds_block(r.rows@, block@, h@, compression_cycle_id, mode),
{
    let zero = Felt::zero();
    let mut rows: Vec<BlakeGFeltRow> = Vec::new();
    let mut i: usize = 0;
    while i < BLOCK_PERIOD
        invariant
            i <= BLOCK_PERIOD,
            rows@.len() == i,
        decreases BLOCK_PERIOD - i,
    {
        rows.push([zero; 128]);
        i = i + 1;
    }
    let mut recorder = NoopByteLookupRecorder::new();
    let final_v = write_felt_trace_block_into_zeroed_with_lookups(
        rows.as_mut_slice(),
        block,
        h,
        compression_cycle_id,
        mode,
        &mut recorder,
    );
    BlakeGFeltTraceBlock { rows, final_v }
}

/// Generate one field-valued BlakeG trace block as the first physical cycle (identifier zero).
pub fn generate_felt_trace_block(block: [u32; 16], h: [u32; 8], mode: TraceMode) -> (r:
    BlakeGFeltTraceBlock)
    requires
        valid_trace_inputs(block@, h@, 0, mode),
    ensures
        r.rows@.len() == BLOCK_PERIOD,
        r.final_v@ == spec_final_state(h@, block@),
        holds_block(r.rows@, block@, h@, 0, mode),
{
    generate_felt_trace_block_with_cycle_id(block, h, 0, mode)
}

/// Cell `col` of row `row` of a block, of old value `old_cell`, once the block's cycle
/// identifier is replaced by `cycle_id`: the fused message-slot tags, the footer cycle/pair
/// keys, the footer message-slot tags and the footer identifier column change.
pub open spec fn spec_retagged_cell(old_cell: u64, row: int, col: int, cycle_id: u64) -> u64 {
    if row < FUSED_G_ROWS {
        if 96 <= col < 108 && (col - 96) % 3 == 2 {
            cycle_id
        } else {
            old_cell
        }
    } else if col == 51 {
        (4 * cycle_id + (row - FOOTER_START)) as u64
    } else if 54 <= col < 66 && (col - 54) % 3 == 2 {
        cycle_id
    } else if col == 125 {
        cycle_id
    } else {
        old_cell
    }
}

/// Reassign the physical cycle identifier of an already-written field-valued BlakeG block, as
/// for padding blocks: the identical zero-state compression is built once, copied, and each
/// copy given its own identifier without recomputing the rounds or the byte lookups.
pub fn retag_felt_trace_block_cycle_id(rows: &mut [BlakeGFeltRow], compression_cycle_id: u64)
    requires
        old(rows)@.len() >= BLOCK_PERIOD,
        compression_cycle_id <= MAX_COMPRESSION_CYCLE_ID,
    ensures
        final(rows)@.len() == old(rows)@.len(),
        forall|i: int, col: int|
            0 <= i < BLOCK_PERIOD && 0 <= col < NUM_COLS ==> #[trigger] final(rows)@[i]@[col]@
                == spec_retagged_cell(old(rows)@[i]@[col]@, i, col, compression_cycle_id),
        forall|i: int| BLOCK_PERIOD <= i < old(rows)@.len() ==> #[trigger] final(rows)@[i] == old(
            rows,
        )@[i],
{
    let cycle_id = Felt::from_canonical(compression_cycle_id);
    let mut row_idx: usize = 0;
    while row_idx < FUSED_G_ROWS
        invariant
            row_idx <= FUSED_G_ROWS,
            cycle_id@ == compression_cycle_id,
            rows@.len() == old(rows)@.len(),
            old(rows)@.len() >= BLOCK_PERIOD,
            forall|t: int, col: int|
                0 <= t < row_idx && 0 <= col < NUM_COLS ==> #[trigger] rows@[t]@[col]@
                    == spec_retagged_cell(old(rows)@[t]@[col]@, t, col, compression_cycle_id),
            forall|t: int| row_idx <= t < old(rows)@.len() ==> #[trigger] rows@[t] == old(rows)@[t],
        decreases FUSED_G_ROWS - row_idx,
    {
        let mut row = rows[row_idx];
        let ghost before = row@;
        let mut g: usize = 0;
        while g < NUM_G
            invariant
                g <= NUM_G,
                row_idx < FUSED_G_ROWS,
                forall|col: int|
                    0 <= col < NUM_COLS ==> #[trigger] row@[col] == if 96 <= col < 96 + 3 * g && (col
                        - 96) % 3 == 2 {
                        cycle_id
                    } else {
                        before[col]
                    },
            decreases NUM_G - g,
        {
            row[g_msg_slot_col(g, 2)] = cycle_id;
            g = g + 1;
        }
        rows[row_idx] = row;
        row_idx = row_idx + 1;
    }
    let mut footer: usize = 0;
    while footer < FOOTER_ROWS
        invariant
            footer <= FOOTER_ROWS,
            cycle_id@ == compression_cycle_id,
            compression_cycle_id <= MAX_COMPRESSION_CYCLE_ID,
            rows@.len() == old(rows)@.len(),
            old(rows)@.len() >= BLOCK_PERIOD,
            forall|t: int, col: int|
                0 <= t < FOOTER_START + footer && 0 <= col < NUM_COLS ==> #[trigger] rows@[t]@[col]@
                    == spec_retagged_cell(old(rows)@[t]@[col]@, t, col, compression_cycle_id),
            forall|t: int| FOOTER_START + footer <= t < old(rows)@.len() ==> #[trigger] rows@[t]
                == old(rows)@[t],
        decreases FOOTER_ROWS - footer,
    {
        let mut row = rows[FOOTER_START + footer];
        let ghost before = row@;
        row[F_HIN_SLOT_BASE_COL] = Felt::from_canonical(
            compression_cycle_pair_index(compression_cycle_id, footer),
        );
        let mut w: usize = 0;
        while w < F_MSG_WORD_SLOTS
            invariant
                w <= F_MSG_WORD_SLOTS,
                forall|col: int|
                    0 <= col < NUM_COLS && col != 51 ==> #[trigger] row@[col] == if 54 <= col < 54 + 3
                        * w && (col - 54) % 3 == 2 {
                        cycle_id
                    } else {
                        before[col]
                    },
                row@[51]@ == 4 * compression_cycle_id + footer,
            decreases F_MSG_WORD_SLOTS - w,
        {
            row[footer_msg_word_slot_col(w, 2)] = cycle_id;
            w = w + 1;
        }
        row[F_COMPRESSION_CYCLE_ID_COL] = cycle_id;
        rows[FOOTER_START + footer] = row;
        footer = footer + 1;
    }
}

/// Retagging a block written for any cycle gives exactly the block written for the new cycle.
pub proof fn lemma_retag_gives_block_of_new_cycle(
    block: Seq<u32>,
    h: Seq<u32>,
    old_cycle_id: u64,
    new_cycle_id: u64,
    mode: TraceMode,
    row: int,
    col: int,
)
    requires
        block.len() == 16,
        h.len() == 8,
        0 <= row < BLOCK_PERIOD,
        0 <= col < NUM_COLS,
    ensures
        spec_retagged_cell(
            spec_block_cell(block, h, old_cycle_id, mode, row, col),
            row,
            col,
            new_cycle_id,
        ) == spec_block_cell(block, h, new_cycle_id, mode, row, col),
{
    if row >= FUSED_G_ROWS && 54 <= col < 90 {
        let f = row - FOOTER_START;
        assert(spec_footer_row(block, h, old_cycle_id, mode, f)[col] == footer_message_cell(
            block,
            f,
            old_cycle_id,
            col,
        ));
        assert(spec_footer_row(block, h, new_cycle_id, mode, f)[col] == footer_message_cell(
            block,
            f,
            new_cycle_id,
            col,
        ));
    }
}

} // verus!
