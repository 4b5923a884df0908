use miden_kit::blakeg::{compress, compress_raw_xof};
use miden_kit::blakeg_felt_trace::{generate_felt_trace_block, generate_felt_trace_block_with_cycle_id};
use miden_kit::blakeg_layout::{
    FOOTER_ROWS, FOOTER_START, F_HIN_SLOT_BASE_COL, F_MSG_GROUP_BASE_COL, NUM_COLS,
};
use miden_kit::blakeg_lookup::{BlakeGCompressionLookupAir, AEAD_HIGH_OUTPUT_COLUMN};
use miden_kit::blakeg_messages::{
    aead_input_msg, aead_output_pair_msg, compression_link_msg, fields_at,
    first_input_pair_fields, footer_high_word, footer_output_word, narrow_slot_fields,
    pack_u32_le, xor_from_and, BlakeGCompressionCols,
};
use miden_kit::blakeg_trace::TraceMode;
use miden_kit::chiplet_blakeg::pack_word;
use miden_kit::field::Felt;

fn test_block() -> [u32; 16] {
    core::array::from_fn(|i| 0x0101_0101u32.wrapping_mul(i as u32 + 3) ^ 0x0bad_f00d)
}

fn test_h() -> [u32; 8] {
    [0x0000_0021, 0x7000_0001, 0x8000_0022, 0x0000_0043, 0x0000_0023, 0x0000_0065, 0x0000_0024, 0x0000_0087]
}

fn cols(row: &[Felt; NUM_COLS]) -> BlakeGCompressionCols<Felt> {
    BlakeGCompressionCols { columns: *row }
}

fn values<const N: usize>(felts: [Felt; N]) -> [u64; N] {
    felts.map(|f| f.as_canonical_u64())
}

#[test]
fn field_helpers_rebuild_xor_and_words() {
    let x = Felt::from_u32(0b1100_1010);
    let y = Felt::from_u32(0b1010_0110);
    let and = Felt::from_u32(0b1000_0010);
    assert_eq!(xor_from_and(x, y, and).as_canonical_u64(), 0b0110_1100);
    let word = pack_u32_le(
        Felt::from_u32(0x78),
        Felt::from_u32(0x56),
        Felt::from_u32(0x34),
        Felt::from_u32(0x12),
    );
    assert_eq!(word.as_canonical_u64(), 0x1234_5678);
}

#[test]
fn footer_words_are_the_keystream_lanes() {
    let trace = generate_felt_trace_block(test_block(), test_h(), TraceMode::AeadXof { clk: 5 });
    let xof = compress_raw_xof(test_h(), test_block());

    for footer in 0..FOOTER_ROWS {
        let local = cols(&trace.rows[FOOTER_START + footer]);
        let low = values(footer_output_word(&local));
        let high = values(footer_high_word(&local));
        assert_eq!(low, [xof[2 * footer] as u64, xof[2 * footer + 1] as u64]);
        assert_eq!(high, [xof[8 + 2 * footer] as u64, xof[9 + 2 * footer] as u64]);

        let msg = aead_output_pair_msg(&local, footer, 8, footer_high_word(&local));
        assert_eq!(msg.clk.as_canonical_u64(), 5);
        assert_eq!(msg.first_lane_idx.as_canonical_u64(), 8 + 2 * footer as u64);
        assert_eq!(msg.value1.as_canonical_u64(), xof[9 + 2 * footer] as u64);
    }
}

#[test]
fn compression_link_carries_block_input_and_output() {
    let block = test_block();
    let h = test_h();
    let trace = generate_felt_trace_block(block, h, TraceMode::Compression);
    let link = compression_link_msg(&cols(&trace.rows[FOOTER_START + FOOTER_ROWS - 1]));

    let expected_block: [u64; 8] =
        core::array::from_fn(|i| block[2 * i] as u64 | ((block[2 * i + 1] as u64) << 32));
    let expected_cv_in: [u64; 4] =
        core::array::from_fn(|i| h[2 * i] as u64 | ((h[2 * i + 1] as u64) << 32));
    assert_eq!(values(link.block), expected_block);
    assert_eq!(values(link.cv_in), expected_cv_in);
    assert_eq!(link.cv_out, pack_word(compress(h, block)));
}

#[test]
fn aead_input_message_carries_clock_block_and_chaining_value() {
    let trace = generate_felt_trace_block(test_block(), test_h(), TraceMode::AeadXof { clk: 77 });
    let local = cols(&trace.rows[FOOTER_START + FOOTER_ROWS - 1]);
    let msg = aead_input_msg(&local);
    let link = compression_link_msg(&local);

    assert_eq!(msg.clk.as_canonical_u64(), 77);
    assert_eq!(&msg.state[..8], &link.block);
    assert_eq!(&msg.state[8..], &link.cv_in);
}

#[test]
fn first_input_pair_fields_match_footer_input_slots() {
    let cycle_id = 11;
    let trace = generate_felt_trace_block_with_cycle_id(
        test_block(),
        test_h(),
        cycle_id,
        TraceMode::Compression,
    );
    let first = cols(&trace.rows[0]);

    for pair in 0..FOOTER_ROWS {
        let footer = cols(&trace.rows[FOOTER_START + pair]);
        let consumed = first_input_pair_fields(&first, pair);
        assert_eq!(consumed, fields_at(&footer, F_HIN_SLOT_BASE_COL));
        assert_eq!(consumed[0].as_canonical_u64(), 4 * cycle_id + pair as u64);
        assert_eq!(narrow_slot_fields(&first, 36 + pair), consumed);
    }
    let footer = cols(&trace.rows[FOOTER_START]);
    assert_eq!(narrow_slot_fields(&footer, 18), fields_at(&footer, F_MSG_GROUP_BASE_COL));
}

#[test]
fn lookup_air_reports_its_column_shape() {
    let air = BlakeGCompressionLookupAir;
    assert_eq!(air.num_columns(), AEAD_HIGH_OUTPUT_COLUMN + 1);
    let shape = air.column_shape();
    assert_eq!(shape.iter().sum::<usize>(), 44);
}
