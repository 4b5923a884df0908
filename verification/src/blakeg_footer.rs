//! The four footer rows of the 32-row BlakeG cycle.
//!
//! After the 28 fused rows, each footer row `f` checks the output and XOF words of lane pair
//! `f` through byte-AND slots, masks the top bit of the odd output word, re-emits the input
//! chaining-value pair `f` and four message words on the internal buses, range-checks the
//! halves of those message words, accumulates the packed message, input and output prefixes,
//! queues the working-state words of the later footers and witnesses the canonicality of the
//! packed inputs.
use vstd::prelude::*;

use crate::blakeg_fused::{byte_at, byte_of};
use crate::blakeg_layout::{
    footer_future_w_indices, footer_message_word_index, footer_msg_word_slot_col,
    footer_range_limb_is_high, footer_range_limb_word_index, footer_range_slot_col,
    footer_xor_slot_col, spec_footer_message_word_index, spec_future_w_index, spec_future_w_len,
    BLOCK_PERIOD, BYTES_PER_WORD, FOOTER_START, F_CLK_COL, F_COMPRESSION_CYCLE_ID_COL, F_COMPRESSION_MULTIPLICITY_COL, F_C_BASE_COL,
    F_C_CANON_INV_COL, F_C_CANON_Z_COL, F_D_BASE_COL, F_FUTURE_W_BASE_COL, F_HIN_SLOT_BASE_COL,
    F_MODE_COL, F_R_BASE_COL,
    F_HIGH_EVEN_SLOT_BASE, F_HIGH_ODD_SLOT_BASE, F_MSG_WORD_SLOTS, F_OUTPUT_EVEN_SLOT_BASE,
    F_OUTPUT_ODD_SLOT_BASE, F_RANGE_SLOTS, F_R_CANON_INV_BASE_COL, F_R_CANON_Z_BASE_COL,
    F_TOP_BIT_MASK, F_TOP_BIT_SLOT_BASE_COL, FOOTER_ROWS,
};
use crate::blakeg_trace::{
    canonicality_high_word_offset, packed_h_values, packed_message_values, packed_output_values, compression_cycle_pair_index, spec_canonicality_high_word,
    spec_compression_multiplicity, spec_pack_pair, slot_lookup, write_lookup_slot, write_prefix, BlakeGByteLookup,
    BlakeGRow, ByteLookupRecorder, TraceMode,
};
use crate::field::{spec_inverse_or_zero, MODULUS};

verus! {

/// The left and right words of XOR group `grp` of footer row `footer`: the XOF high half
/// `v[8 + 2f] ^ h[2f]`, `v[9 + 2f] ^ h[2f + 1]`, then the outputs `v[2f] ^ v[8 + 2f]` and
/// `v[2f + 1] ^ v[9 + 2f]`.
pub open spec fn footer_xor_words(h: Seq<u32>, v: Seq<u32>, footer: int, grp: int) -> (u32, u32) {
    let even = 2 * footer;
    let odd = even + 1;
    if grp == 0 {
        (v[8 + even], h[even])
    } else if grp == 1 {
        (v[8 + odd], h[odd])
    } else if grp == 2 {
        (v[even], v[8 + even])
    } else {
        (v[odd], v[8 + odd])
    }
}

/// Field `field` of the byte-AND slot of byte `byte` of `lhs` and `rhs`.
pub open spec fn and_slot_cell(lhs: u32, rhs: u32, byte: int, field: int) -> u64 {
    (if field == 0 {
        byte_of(lhs, byte)
    } else if field == 1 {
        byte_of(rhs, byte)
    } else {
        byte_of(lhs, byte) & byte_of(rhs, byte)
    }) as u64
}

/// A cell of the sixteen XOR slots (columns `0..48`) of footer row `footer`.
pub open spec fn footer_xor_cell(h: Seq<u32>, v: Seq<u32>, footer: int, col: int) -> u64 {
    let slot = col / 3;
    let words = footer_xor_words(h, v, footer, slot / 4);
    and_slot_cell(words.0, words.1, slot % 4, col % 3)
}

/// The top byte of the odd output word `v[2f + 1] ^ v[9 + 2f]` of footer row `footer`.
pub open spec fn footer_top_byte(v: Seq<u32>, footer: int) -> u32 {
    byte_of(v[2 * footer + 1] ^ v[9 + 2 * footer], 3)
}

/// The 16-bit half carried by range-check limb `limb` of footer row `footer`.
pub open spec fn footer_range_limb(block: Seq<u32>, footer: int, limb: int) -> u64 {
    let word = block[spec_footer_message_word_index(footer, limb / 2)];
    (if limb % 2 == 1 {
        word >> 16
    } else {
        word & 0xffff
    }) as u64
}

/// A cell of the message group (columns `54..90`): four message-word slots tagged with the
/// cycle identifier, then eight range-check slots.
pub open spec fn footer_message_cell(block: Seq<u32>, footer: int, cycle_id: u64, col: int) -> u64 {
    if col < 66 {
        let w = (col - 54) / 3;
        let field = (col - 54) % 3;
        let idx = spec_footer_message_word_index(footer, w);
        if field == 0 {
            idx as u64
        } else if field == 1 {
            block[idx] as u64
        } else {
            cycle_id
        }
    } else {
        let limb = (col - 66) / 3;
        if (col - 66) % 3 == 0 {
            footer_range_limb(block, footer, limb)
        } else {
            0
        }
    }
}

/// The field offset of a high word from the largest canonical high word.
pub open spec fn spec_canonicality_offset(hi: u32) -> int {
    (hi as int - 0xffff_ffff) % (MODULUS as int)
}

/// The canonicality inverse witness of a high word: the inverse of its offset, or zero.
pub open spec fn spec_canonicality_inverse(hi: u32) -> u64 {
    spec_inverse_or_zero(spec_canonicality_offset(hi)) as u64
}

/// The canonicality zero flag of a high word: one exactly for `u32::MAX`.
pub open spec fn spec_canonicality_zero(hi: u32) -> u64 {
    if hi == u32::MAX {
        1
    } else {
        0
    }
}

/// The zeroed trace row.
pub open spec fn zero_row() -> Seq<u64> {
    Seq::new(128, |i: int| 0u64)
}

/// The byte lookups of a footer row, read off its slots: the sixteen XOR slots in order, then the
/// top-bit slot.
pub open spec fn footer_row_lookups(row: Seq<u64>) -> Seq<(BlakeGByteLookup, u8, u8, u32)> {
    Seq::new(
        17,
        |i: int|
            if i < 16 {
                slot_lookup(BlakeGByteLookup::And8, row, 3 * i)
            } else {
                slot_lookup(BlakeGByteLookup::And8, row, 48)
            },
    )
}

/// The byte lookups of the first `n` footer rows of `rows`, row by row.
pub open spec fn footer_rows_lookups(rows: Seq<BlakeGRow>, n: int) -> Seq<(BlakeGByteLookup, u8, u8, u32)> {
    Seq::new(
        (17 * n) as nat,
        |t: int| footer_row_lookups(rows[FOOTER_START + t / 17]@)[t % 17],
    )
}

/// Write the sixteen XOR slots of footer row `footer`, recording each AND lookup.
fn write_footer_xor_slots<R: ByteLookupRecorder>(
    row: &mut BlakeGRow,
    footer: usize,
    h: &[u32; 8],
    v: &[u32; 16],
    recorder: &mut R,
)
    requires
        footer < FOOTER_ROWS,
    ensures
        forall|col: int| 0 <= col < 48 ==> #[trigger] final(row)@[col] == footer_xor_cell(
            h@,
            v@,
            footer as int,
            col,
        ),
        forall|col: int| 48 <= col < 128 ==> #[trigger] final(row)@[col] == old(row)@[col],
        final(recorder).spec_log() == old(recorder).spec_log() + Seq::new(
            16,
            |i: int| slot_lookup(BlakeGByteLookup::And8, final(row)@, 3 * i),
        ),
{
    let ghost log0 = recorder.spec_log();
    let even = 2 * footer;
    let odd = even + 1;
    let mut grp: usize = 0;
    while grp < 4
        invariant
            footer < 4,
            log0 == old(recorder).spec_log(),
            recorder.spec_log() == log0 + Seq::new(
                (4 * grp) as nat,
                |i: int| slot_lookup(BlakeGByteLookup::And8, row@, 3 * i),
            ),
            even == 2 * footer,
            odd == even + 1,
            grp <= 4,
            forall|col: int| 0 <= col < 12 * grp ==> #[trigger] row@[col] == footer_xor_cell(
                h@,
                v@,
                footer as int,
                col,
            ),
            forall|col: int| 12 * grp <= col < 128 ==> #[trigger] row@[col] == old(row)@[col],
        decreases 4 - grp,
    {
        let (lhs, rhs, slot_base) = if grp == 0 {
            (v[8 + even], h[even], F_HIGH_EVEN_SLOT_BASE)
        } else if grp == 1 {
            (v[8 + odd], h[odd], F_HIGH_ODD_SLOT_BASE)
        } else if grp == 2 {
            (v[even], v[8 + even], F_OUTPUT_EVEN_SLOT_BASE)
        } else {
            (v[odd], v[8 + odd], F_OUTPUT_ODD_SLOT_BASE)
        };
        assert((lhs, rhs) == footer_xor_words(h@, v@, footer as int, grp as int));
        assert(slot_base == 4 * grp);
        let mut byte: usize = 0;
        while byte < BYTES_PER_WORD
            invariant
                footer < 4,
                grp < 4,
                slot_base == 4 * grp,
                (lhs, rhs) == footer_xor_words(h@, v@, footer as int, grp as int),
                byte <= 4,
                forall|col: int| 0 <= col < 12 * grp + 3 * byte ==> #[trigger] row@[col]
                    == footer_xor_cell(h@, v@, footer as int, col),
                forall|col: int| 12 * grp + 3 * byte <= col < 128 ==> #[trigger] row@[col] == old(
                    row,
                )@[col],
                log0 == old(recorder).spec_log(),
                recorder.spec_log() == log0 + Seq::new(
                    (4 * grp + byte) as nat,
                    |i: int| slot_lookup(BlakeGByteLookup::And8, row@, 3 * i),
                ),
            decreases 4 - byte,
        {
            let lb = byte_at(lhs, byte);
            let rb = byte_at(rhs, byte);
            let base = footer_xor_slot_col(slot_base + byte, 0);
            let ghost row_before = row@;
            let ghost log_before = recorder.spec_log();
            write_lookup_slot(row, base, [lb as u64, rb as u64, (lb & rb) as u64]);
            recorder.record(BlakeGByteLookup::And8, lb as u8, rb as u8, lb & rb);
            proof {
                let expected = Seq::new(
                    (4 * grp + byte + 1) as nat,
                    |i: int| slot_lookup(BlakeGByteLookup::And8, row@, 3 * i),
                );
                assert forall|i: int| 0 <= i < 4 * grp + byte + 1 implies #[trigger] expected[i]
                    == recorder.spec_log().subrange(log0.len() as int, log0.len() + 4 * grp + byte + 1)[i] by {
                    if i < 4 * grp + byte {
                        assert(row@[3 * i] == row_before[3 * i]);
                        assert(row@[3 * i + 1] == row_before[3 * i + 1]);
                        assert(row@[3 * i + 2] == row_before[3 * i + 2]);
                    }
                }
                assert(recorder.spec_log() =~= log0 + expected);
                assert forall|col: int| 0 <= col < 12 * grp + 3 * (byte + 1) implies #[trigger] row@[col]
                    == footer_xor_cell(h@, v@, footer as int, col) by {
                    if col >= 12 * grp + 3 * byte {
                        assert(col / 3 == 4 * grp + byte);
                        assert((col / 3) / 4 == grp);
                        assert((col / 3) % 4 == byte);
                    }
                }
            }
            byte = byte + 1;
        }
        grp = grp + 1;
    }
}

/// Write the top-bit slot `[top, 0x80, top & 0x80]` of the odd output word, recording its AND
/// lookup.
fn write_top_bit_slot<R: ByteLookupRecorder>(row: &mut BlakeGRow, odd_output: u32, recorder: &mut R)
    ensures
        final(recorder).spec_log() == old(recorder).spec_log().push(
            slot_lookup(BlakeGByteLookup::And8, final(row)@, 48),
        ),
        final(row)@[48] == byte_of(odd_output, 3) as u64,
        final(row)@[49] == F_TOP_BIT_MASK as u64,
        final(row)@[50] == (byte_of(odd_output, 3) & 0x80) as u64,
        forall|col: int| 0 <= col < 128 && !(48 <= col < 51) ==> #[trigger] final(row)@[col]
            == old(row)@[col],
{
    let top_byte = byte_at(odd_output, 3);
    let masked = top_byte & (F_TOP_BIT_MASK as u32);
    write_lookup_slot(row, F_TOP_BIT_SLOT_BASE_COL, [top_byte as u64, F_TOP_BIT_MASK as u64, masked as u64]);
    recorder.record(BlakeGByteLookup::And8, top_byte as u8, F_TOP_BIT_MASK, masked);
}

/// Write the message-word slots and the range-check slots of footer row `footer`.
fn write_footer_message_group(row: &mut BlakeGRow, footer: usize, block: &[u32; 16], cycle_id: u64)
    requires
        footer < FOOTER_ROWS,
    ensures
        forall|col: int| 54 <= col < 90 ==> #[trigger] final(row)@[col] == footer_message_cell(
            block@,
            footer as int,
            cycle_id,
            col,
        ),
        forall|col: int| 0 <= col < 128 && !(54 <= col < 90) ==> #[trigger] final(row)@[col] == old(
            row,
        )@[col],
{
    let mut word_slot: usize = 0;
    while word_slot < F_MSG_WORD_SLOTS
        invariant
            footer < 4,
            word_slot <= 4,
            forall|col: int| 54 <= col < 54 + 3 * word_slot ==> #[trigger] row@[col]
                == footer_message_cell(block@, footer as int, cycle_id, col),
            forall|col: int| 0 <= col < 128 && !(54 <= col < 54 + 3 * word_slot) ==> #[trigger] row@[col]
                == old(row)@[col],
        decreases 4 - word_slot,
    {
        let msg_idx = footer_message_word_index(footer, word_slot);
        write_lookup_slot(
            row,
            footer_msg_word_slot_col(word_slot, 0),
            [msg_idx as u64, block[msg_idx] as u64, cycle_id],
        );
        proof {
            assert forall|col: int| 54 <= col < 54 + 3 * (word_slot + 1) implies #[trigger] row@[col]
                == footer_message_cell(block@, footer as int, cycle_id, col) by {
                if col >= 54 + 3 * word_slot {
                    assert((col - 54) / 3 == word_slot);
                }
            }
        }
        word_slot = word_slot + 1;
    }
    let mut limb: usize = 0;
    while limb < F_RANGE_SLOTS
        invariant
            footer < 4,
            limb <= 8,
            forall|col: int| 54 <= col < 66 + 3 * limb ==> #[trigger] row@[col]
                == footer_message_cell(block@, footer as int, cycle_id, col),
            forall|col: int| 0 <= col < 128 && !(54 <= col < 66 + 3 * limb) ==> #[trigger] row@[col]
                == old(row)@[col],
        decreases 8 - limb,
    {
        let msg_idx = footer_range_limb_word_index(footer, limb);
        let word = block[msg_idx];
        let value = if footer_range_limb_is_high(limb) {
            word >> 16
        } else {
            word & 0xffff
        };
        write_lookup_slot(row, footer_range_slot_col(limb, 0), [value as u64, 0, 0]);
        proof {
            assert forall|col: int| 54 <= col < 66 + 3 * (limb + 1) implies #[trigger] row@[col]
                == footer_message_cell(block@, footer as int, cycle_id, col) by {
                if col >= 66 + 3 * limb {
                    assert((col - 66) / 3 == limb);
                }
            }
        }
        limb = limb + 1;
    }
}

/// Write the future-W queue of footer row `footer`: the working-state words of the later
/// footers, leaving the unused tail of the twelve columns unchanged.
fn write_future_w_queue(row: &mut BlakeGRow, footer: usize, v: &[u32; 16])
    requires
        footer < FOOTER_ROWS,
    ensures
        forall|i: int| 0 <= i < spec_future_w_len(footer as int) ==> #[trigger] final(row)@[106 + i]
            == v@[spec_future_w_index(footer as int, i)] as u64,
        forall|col: int|
            0 <= col < 128 && !(106 <= col < 106 + spec_future_w_len(footer as int))
                ==> #[trigger] final(row)@[col] == old(row)@[col],
{
    let indices = footer_future_w_indices(footer);
    let n = indices.len();
    let mut idx: usize = 0;
    while idx < n
        invariant
            footer < 4,
            n == indices@.len(),
            n == spec_future_w_len(footer as int),
            forall|i: int| 0 <= i < indices@.len() ==> #[trigger] indices@[i] == spec_future_w_index(
                footer as int,
                i,
            ),
            forall|i: int| 0 <= i < indices@.len() ==> indices@[i] < 16,
            idx <= n,
            forall|i: int| 0 <= i < idx ==> #[trigger] row@[106 + i] == v@[spec_future_w_index(
                footer as int,
                i,
            )] as u64,
            forall|col: int| 0 <= col < 128 && !(106 <= col < 106 + idx) ==> #[trigger] row@[col]
                == old(row)@[col],
        decreases n - idx,
    {
        let word_idx = indices[idx];
        row[F_FUTURE_W_BASE_COL + idx] = v[word_idx] as u64;
        idx = idx + 1;
    }
}

/// The canonicality witnesses of the twelve checked high words: each offset's inverse (or
/// zero), and the flag of the non-canonical high word `u32::MAX`.
fn footer_canonicality_witnesses(block: &[u32; 16], h: &[u32; 8]) -> (r: ([u64; 12], [u64; 12]))
    ensures
        forall|i: int| 0 <= i < 12 ==> #[trigger] r.0@[i] == spec_canonicality_inverse(
            spec_canonicality_high_word(block@, h@, i),
        ),
        forall|i: int| 0 <= i < 12 ==> #[trigger] r.1@[i] == spec_canonicality_zero(
            spec_canonicality_high_word(block@, h@, i),
        ),
{
    let high_words = crate::blakeg_trace::footer_canonicality_high_words(block, h);
    let mut inv = [0u64; 12];
    let mut z = [0u64; 12];
    let mut i: usize = 0;
    while i < 12
        invariant
            i <= 12,
            forall|j: int| 0 <= j < 12 ==> high_words@[j] == spec_canonicality_high_word(block@, h@, j),
            forall|j: int| 0 <= j < i ==> #[trigger] inv@[j] == spec_canonicality_inverse(
                spec_canonicality_high_word(block@, h@, j),
            ),
            forall|j: int| 0 <= j < i ==> #[trigger] z@[j] == spec_canonicality_zero(
                spec_canonicality_high_word(block@, h@, j),
            ),
        decreases 12 - i,
    {
        let hi = high_words[i];
        let offset = canonicality_high_word_offset(hi);
        inv[i] = offset.inverse_or_zero().as_canonical_u64();
        z[i] = if hi == u32::MAX {
            1
        } else {
            0
        };
        i = i + 1;
    }
    (inv, z)
}

/// Whether a mode is an AEAD/XOF request.
pub open spec fn spec_mode_flag(mode: TraceMode) -> u64 {
    match mode {
        TraceMode::AeadXof { .. } => 1,
        _ => 0,
    }
}

/// The VM clock cycle of an AEAD/XOF request, zero otherwise.
pub open spec fn spec_mode_clk(mode: TraceMode) -> u64 {
    match mode {
        TraceMode::AeadXof { clk } => clk,
        _ => 0,
    }
}

/// Cell `col` of footer row `footer` of the cycle compressing `block` under the chaining value
/// `h`, whose working state after the seven rounds is `v`.
pub open spec fn spec_footer_cell(
    block: Seq<u32>,
    h: Seq<u32>,
    v: Seq<u32>,
    cycle_id: u64,
    mode: TraceMode,
    footer: int,
    col: int,
) -> u64 {
    let even = 2 * footer;
    let odd = even + 1;
    if col < 48 {
        footer_xor_cell(h, v, footer, col)
    } else if col < 51 {
        let top = footer_top_byte(v, footer);
        if col == 48 {
            top as u64
        } else if col == 49 {
            0x80
        } else {
            (top & 0x80) as u64
        }
    } else if col < 54 {
        if col == 51 {
            (4 * cycle_id + footer) as u64
        } else if col == 52 {
            h[even] as u64
        } else {
            h[odd] as u64
        }
    } else if col < 90 {
        footer_message_cell(block, footer, cycle_id, col)
    } else if col < 98 {
        let idx = col - 90;
        if idx <= 2 * footer + 1 {
            spec_pack_pair(block[2 * idx], block[2 * idx + 1])
        } else {
            0
        }
    } else if col < 102 {
        let idx = col - 98;
        if idx <= footer {
            spec_pack_pair(h[2 * idx], h[2 * idx + 1])
        } else {
            0
        }
    } else if col < 106 {
        let idx = col - 102;
        if idx <= footer {
            spec_pack_pair(v[2 * idx] ^ v[2 * idx + 8], (v[2 * idx + 1] ^ v[2 * idx + 9]) & 0x7fff_ffff)
        } else {
            0
        }
    } else if col < 118 {
        let idx = col - 106;
        if idx < spec_future_w_len(footer) {
            v[spec_future_w_index(footer, idx)] as u64
        } else {
            0
        }
    } else if col < 120 {
        spec_canonicality_inverse(spec_canonicality_high_word(block, h, 3 * footer + col - 118))
    } else if col < 122 {
        spec_canonicality_zero(spec_canonicality_high_word(block, h, 3 * footer + col - 120))
    } else if col == 122 {
        spec_canonicality_inverse(spec_canonicality_high_word(block, h, 3 * footer + 2))
    } else if col == 123 {
        spec_canonicality_zero(spec_canonicality_high_word(block, h, 3 * footer + 2))
    } else if col == 124 {
        spec_compression_multiplicity(mode)
    } else if col == 125 {
        cycle_id
    } else if col == 126 {
        spec_mode_flag(mode)
    } else {
        spec_mode_clk(mode)
    }
}

/// Write footer row `footer` into a zeroed row, recording its byte lookups.
fn write_footer_row<R: ByteLookupRecorder>(
    row: &mut BlakeGRow,
    footer: usize,
    block: &[u32; 16],
    h: &[u32; 8],
    v: &[u32; 16],
    cycle_id: u64,
    mode: TraceMode,
    r_values: &[u64; 8],
    c_values: &[u64; 4],
    d_values: &[u64; 4],
    inv: &[u64; 12],
    z: &[u64; 12],
    recorder: &mut R,
)
    requires
        footer < FOOTER_ROWS,
        4 * cycle_id + 3 <= u64::MAX,
        forall|col: int| 0 <= col < 128 ==> #[trigger] old(row)@[col] == 0,
        forall|i: int| 0 <= i < 8 ==> r_values@[i] == spec_pack_pair(block@[2 * i], block@[2 * i + 1]),
        forall|i: int| 0 <= i < 4 ==> c_values@[i] == spec_pack_pair(h@[2 * i], h@[2 * i + 1]),
        forall|i: int|
            0 <= i < 4 ==> d_values@[i] == spec_pack_pair(
                v@[2 * i] ^ v@[2 * i + 8],
                (v@[2 * i + 1] ^ v@[2 * i + 9]) & 0x7fff_ffff,
            ),
        forall|i: int| 0 <= i < 12 ==> #[trigger] inv@[i] == spec_canonicality_inverse(
            spec_canonicality_high_word(block@, h@, i),
        ),
        forall|i: int| 0 <= i < 12 ==> #[trigger] z@[i] == spec_canonicality_zero(
            spec_canonicality_high_word(block@, h@, i),
        ),
    ensures
        forall|col: int| 0 <= col < 128 ==> #[trigger] final(row)@[col] == spec_footer_cell(
            block@,
            h@,
            v@,
            cycle_id,
            mode,
            footer as int,
            col,
        ),
        final(recorder).spec_log() == old(recorder).spec_log() + footer_row_lookups(final(row)@),
{
    let ghost log0 = recorder.spec_log();
    let ghost f = footer as int;
    let even = 2 * footer;
    let odd = even + 1;
    write_footer_xor_slots(row, footer, h, v, recorder);
    let ghost r1 = row@;
    let ghost log1 = recorder.spec_log();
    write_top_bit_slot(row, v[odd] ^ v[8 + odd], recorder);
    let ghost r2 = row@;
    write_lookup_slot(
        row,
        F_HIN_SLOT_BASE_COL,
        [compression_cycle_pair_index(cycle_id, footer), h[even] as u64, h[odd] as u64],
    );
    let ghost r3 = row@;
    write_footer_message_group(row, footer, block, cycle_id);
    let ghost r4 = row@;
    write_prefix(row, F_R_BASE_COL, r_values, 2 * footer + 2);
    let ghost r5 = row@;
    write_prefix(row, F_C_BASE_COL, c_values, footer + 1);
    let ghost r6 = row@;
    write_prefix(row, F_D_BASE_COL, d_values, footer + 1);
    let ghost r7 = row@;
    write_future_w_queue(row, footer, v);
    let ghost r8 = row@;
    let w = 3 * footer;
    row[F_R_CANON_INV_BASE_COL] = inv[w];
    row[F_R_CANON_INV_BASE_COL + 1] = inv[w + 1];
    row[F_R_CANON_Z_BASE_COL] = z[w];
    row[F_R_CANON_Z_BASE_COL + 1] = z[w + 1];
    row[F_C_CANON_INV_COL] = inv[w + 2];
    row[F_C_CANON_Z_COL] = z[w + 2];
    row[F_COMPRESSION_MULTIPLICITY_COL] = mode.compression_multiplicity();
    row[F_COMPRESSION_CYCLE_ID_COL] = cycle_id;
    match mode {
        TraceMode::AeadXof { clk } => {
            row[F_MODE_COL] = 1;
            row[F_CLK_COL] = clk;
        },
        _ => {},
    }
    proof {
        assert forall|col: int| 0 <= col < 128 implies #[trigger] row@[col] == spec_footer_cell(
            block@,
            h@,
            v@,
            cycle_id,
            mode,
            f,
            col,
        ) by {
            if col < 48 {
                assert(r1[col] == footer_xor_cell(h@, v@, f, col));
            } else if col < 51 {
                assert(v@[odd as int] ^ v@[8 + odd] == v@[2 * f + 1] ^ v@[9 + 2 * f]);
            } else if col < 54 {
            } else if col < 90 {
                assert(r4[col] == footer_message_cell(block@, f, cycle_id, col));
            } else if col < 98 {
                assert(r5[col] == if col - 90 < 2 * f + 2 { r_values@[col - 90] } else { 0 });
            } else if col < 102 {
                assert(r6[col] == if col - 98 < f + 1 { c_values@[col - 98] } else { 0 });
            } else if col < 106 {
                assert(r7[col] == if col - 102 < f + 1 { d_values@[col - 102] } else { 0 });
            } else if col < 118 {
                if col - 106 < spec_future_w_len(f) {
                    assert(r8[106 + (col - 106)] == v@[spec_future_w_index(f, col - 106)] as u64);
                } else {
                    assert(r8[col] == 0);
                }
            } else if col < 124 {
                assert(inv@[3 * f] == spec_canonicality_inverse(
                    spec_canonicality_high_word(block@, h@, 3 * f),
                ));
                assert(inv@[3 * f + 1] == spec_canonicality_inverse(
                    spec_canonicality_high_word(block@, h@, 3 * f + 1),
                ));
                assert(inv@[3 * f + 2] == spec_canonicality_inverse(
                    spec_canonicality_high_word(block@, h@, 3 * f + 2),
                ));
                assert(z@[3 * f] == spec_canonicality_zero(spec_canonicality_high_word(block@, h@, 3 * f)));
                assert(z@[3 * f + 1] == spec_canonicality_zero(
                    spec_canonicality_high_word(block@, h@, 3 * f + 1),
                ));
                assert(z@[3 * f + 2] == spec_canonicality_zero(
                    spec_canonicality_high_word(block@, h@, 3 * f + 2),
                ));
            }
        }
        assert forall|col: int| 0 <= col < 51 implies #[trigger] r2[col] == row@[col] by {
            if col < 48 {
                assert(r1[col] == footer_xor_cell(h@, v@, f, col));
            } else {
                assert(v@[odd as int] ^ v@[8 + odd] == v@[2 * f + 1] ^ v@[9 + 2 * f]);
            }
        }
        assert forall|i: int| 0 <= i < 17 implies #[trigger] footer_row_lookups(row@)[i]
            == footer_row_lookups(r2)[i] by {
            if i < 16 {
                assert(r2[3 * i] == row@[3 * i]);
                assert(r2[3 * i + 1] == row@[3 * i + 1]);
                assert(r2[3 * i + 2] == row@[3 * i + 2]);
            } else {
                assert(r2[48] == row@[48]);
                assert(r2[49] == row@[49]);
                assert(r2[50] == row@[50]);
            }
        }
        assert(recorder.spec_log() =~= log0 + footer_row_lookups(row@)) by {
            assert forall|i: int| 0 <= i < 16 implies #[trigger] footer_row_lookups(r2)[i]
                == slot_lookup(BlakeGByteLookup::And8, r1, 3 * i) by {
                assert(r2[3 * i] == r1[3 * i]);
                assert(r2[3 * i + 1] == r1[3 * i + 1]);
                assert(r2[3 * i + 2] == r1[3 * i + 2]);
            }
        }
    }
}

/// Write the four footer rows `rows[28..32]` for the final working state `v`, which must be
/// zeroed beforehand, recording their byte lookups.
pub fn write_footer_rows<R: ByteLookupRecorder>(
    rows: &mut Vec<BlakeGRow>,
    block: &[u32; 16],
    h: &[u32; 8],
    v: &[u32; 16],
    cycle_id: u64,
    mode: TraceMode,
    recorder: &mut R,
)
    requires
        old(rows)@.len() >= BLOCK_PERIOD,
        4 * cycle_id + 3 <= u64::MAX,
        forall|f: int, col: int|
            0 <= f < 4 && 0 <= col < 128 ==> #[trigger] old(rows)@[FOOTER_START + f]@[col] == 0,
    ensures
        final(rows)@.len() == old(rows)@.len(),
        forall|f: int, col: int|
            0 <= f < 4 && 0 <= col < 128 ==> #[trigger] final(rows)@[FOOTER_START + f]@[col]
                == spec_footer_cell(block@, h@, v@, cycle_id, mode, f, col),
        forall|i: int|
            0 <= i < old(rows)@.len() && !(FOOTER_START <= i < BLOCK_PERIOD)
                ==> #[trigger] final(rows)@[i] == old(rows)@[i],
        final(recorder).spec_log() == old(recorder).spec_log() + footer_rows_lookups(
            final(rows)@,
            FOOTER_ROWS as int,
        ),
{
    let ghost log0 = recorder.spec_log();
    let mut low = [0u32; 8];
    let mut i: usize = 0;
    while i < 8
        invariant
            i <= 8,
            forall|j: int| 0 <= j < i ==> #[trigger] low@[j] == v@[j] ^ v@[j + 8],
        decreases 8 - i,
    {
        low[i] = v[i] ^ v[i + 8];
        i = i + 1;
    }
    let r_values = packed_message_values(block);
    let c_values = packed_h_values(h);
    let d_values = packed_output_values(&low);
    let (inv, z) = footer_canonicality_witnesses(block, h);
    proof {
        assert forall|k: int| 0 <= k < 4 implies d_values@[k] == spec_pack_pair(
            v@[2 * k] ^ v@[2 * k + 8],
            (v@[2 * k + 1] ^ v@[2 * k + 9]) & 0x7fff_ffff,
        ) by {
            assert(low@[2 * k] == v@[2 * k] ^ v@[2 * k + 8]);
            assert(low@[2 * k + 1] == v@[2 * k + 1] ^ v@[2 * k + 1 + 8]);
        }
    }
    let mut footer: usize = 0;
    while footer < FOOTER_ROWS
        invariant
            footer <= 4,
            rows@.len() == old(rows)@.len(),
            old(rows)@.len() >= BLOCK_PERIOD,
            4 * cycle_id + 3 <= u64::MAX,
            forall|f: int, col: int|
                0 <= f < 4 && 0 <= col < 128 ==> #[trigger] old(rows)@[FOOTER_START + f]@[col] == 0,
            forall|k: int| 0 <= k < 8 ==> r_values@[k] == spec_pack_pair(block@[2 * k], block@[2 * k + 1]),
            forall|k: int| 0 <= k < 4 ==> c_values@[k] == spec_pack_pair(h@[2 * k], h@[2 * k + 1]),
            forall|k: int|
                0 <= k < 4 ==> d_values@[k] == spec_pack_pair(
                    v@[2 * k] ^ v@[2 * k + 8],
                    (v@[2 * k + 1] ^ v@[2 * k + 9]) & 0x7fff_ffff,
                ),
            forall|k: int| 0 <= k < 12 ==> #[trigger] inv@[k] == spec_canonicality_inverse(
                spec_canonicality_high_word(block@, h@, k),
            ),
            forall|k: int| 0 <= k < 12 ==> #[trigger] z@[k] == spec_canonicality_zero(
                spec_canonicality_high_word(block@, h@, k),
            ),
            forall|f: int, col: int|
                0 <= f < footer && 0 <= col < 128 ==> #[trigger] rows@[FOOTER_START + f]@[col]
                    == spec_footer_cell(block@, h@, v@, cycle_id, mode, f, col),
            forall|i: int|
                0 <= i < old(rows)@.len() && !(FOOTER_START <= i < FOOTER_START + footer)
                    ==> #[trigger] rows@[i] == old(rows)@[i],
            log0 == old(recorder).spec_log(),
            recorder.spec_log() == log0 + footer_rows_lookups(rows@, footer as int),
        decreases 4 - footer,
    {
        let mut row = rows[FOOTER_START + footer];
        proof {
            assert(rows@[FOOTER_START + footer as int] == old(rows)@[FOOTER_START + footer as int]);
            assert forall|col: int| 0 <= col < 128 implies #[trigger] row@[col] == 0 by {
                assert(old(rows)@[FOOTER_START + footer as int]@[col] == 0);
            }
        }
        write_footer_row(
            &mut row,
            footer,
            block,
            h,
            v,
            cycle_id,
            mode,
            &r_values,
            &c_values,
            &d_values,
            &inv,
            &z,
            recorder,
        );
        let ghost rows_before = rows@;
        rows.set(FOOTER_START + footer, row);
        proof {
            let expected = footer_rows_lookups(rows@, footer + 1);
            assert forall|t: int| 0 <= t < 17 * (footer + 1) implies #[trigger] expected[t]
                == recorder.spec_log().subrange(log0.len() as int, log0.len() + 17 * (footer + 1))[t] by {
                if t < 17 * footer {
                    assert(t / 17 < footer);
                    assert(rows@[FOOTER_START + t / 17] == rows_before[FOOTER_START + t / 17]);
                } else {
                    assert(t / 17 == footer);
                    assert(rows@[FOOTER_START + footer as int] == row);
                }
            }
            assert(recorder.spec_log() =~= log0 + expected);
        }
        footer = footer + 1;
    }
}

} // verus!
