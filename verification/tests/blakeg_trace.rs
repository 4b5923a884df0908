use std::collections::BTreeMap;

use miden_kit::blakeg::final_state;
use miden_kit::blakeg_fused::{blakeg_rotation_contribution, fused_step_at, initial_working_state};
use miden_kit::blakeg_layout::{
    footer_message_word_index, footer_msg_word_slot_col, footer_range_limb_is_high,
    footer_range_limb_word_index, g_bd_rot_slot_col, g_msg_slot_col, BLOCK_PERIOD,
    BYTES_PER_WORD, FOOTER_ROWS, FOOTER_START, FUSED_G_ROWS, F_COMPRESSION_CYCLE_ID_COL,
    F_FUTURE_W_COLS, F_HIGH_EVEN_SLOT_BASE, F_HIGH_ODD_SLOT_BASE, F_HIN_SLOT_BASE_COL,
    F_MSG_WORD_SLOTS, F_OUTPUT_EVEN_SLOT_BASE, F_OUTPUT_ODD_SLOT_BASE, F_RANGE_SLOTS,
    F_TOP_BIT_MASK, G_A_BASE_COL, NUM_COLS, NUM_G, G_C_BASE_COL, G_K2_BASE_COL,
    G_K3_BIT0_BASE_COL, G_K3_BIT1_BASE_COL, F_CLK_COL, F_COMPRESSION_MULTIPLICITY_COL,
    F_C_BASE_COL, F_C_CANON_INV_COL, F_C_CANON_Z_COL, F_D_BASE_COL, F_FUTURE_W_BASE_COL,
    F_MODE_COL, F_MSG_GROUP_BASE_COL, F_R_BASE_COL, F_R_CANON_INV_BASE_COL,
    F_R_CANON_Z_BASE_COL, F_TOP_BIT_SLOT_BASE_COL,
};
use miden_kit::blakeg_felt_trace::{
    generate_felt_trace_block, generate_felt_trace_block_with_cycle_id,
    retag_felt_trace_block_cycle_id, write_felt_trace_block,
    write_felt_trace_block_into_zeroed_with_lookups, BlakeGFeltRow,
};
use miden_kit::blakeg_trace::{
    generate_trace_block, generate_trace_block_with_cycle_id, BlakeGByteLookup, BlakeGRow,
    TraceMode, VecByteLookupRecorder, MAX_COMPRESSION_CYCLE_ID,
};
use miden_kit::blakeg_views::{FooterOverlayRow, FusedGRow, LookupSlot};
use miden_kit::field::{Felt, MODULUS};

fn test_block() -> [u32; 16] {
    [
        0x0000_0001,
        0x0000_0002,
        0x0000_0003,
        0x0000_0004,
        0x8000_0005,
        0x0000_0006,
        0x0000_0007,
        0x0000_0008,
        0x0000_0009,
        0x8000_000a,
        0x8000_000b,
        0x0000_000c,
        0x0000_000d,
        0x0000_000e,
        0x0000_000f,
        0x0000_0010,
    ]
}

fn test_h() -> [u32; 8] {
    [
        0x0000_0021,
        0x8000_0001,
        0x8000_0022,
        0x0000_0043,
        0x0000_0023,
        0x0000_0065,
        0x0000_0024,
        0x0000_0087,
    ]
}

fn other_test_block() -> [u32; 16] {
    core::array::from_fn(|idx| 0x1000_0000 + idx as u32 * 17)
}

fn other_test_h() -> [u32; 8] {
    core::array::from_fn(|idx| 0x2000_0000 + idx as u32 * 19)
}

fn assert_slot(slot: LookupSlot<u64>, expected: [u64; 3]) {
    assert_eq!(slot.field0, expected[0]);
    assert_eq!(slot.field1, expected[1]);
    assert_eq!(slot.field2, expected[2]);
}

fn low_output(v: [u32; 16]) -> [u32; 8] {
    core::array::from_fn(|i| v[i] ^ v[i + 8])
}

fn xof_lanes(v: [u32; 16], h: [u32; 8]) -> [u32; 16] {
    core::array::from_fn(|i| if i < 8 { v[i] ^ v[i + 8] } else { v[i] ^ h[i - 8] })
}

fn pack_pair(lo: u32, hi: u32) -> u64 {
    lo as u64 + ((hi as u64) << 32)
}

fn packed_b(row: &BlakeGRow, g: usize) -> u64 {
    row[g_bd_rot_slot_col(g, 0, 0)]
        + (row[g_bd_rot_slot_col(g, 1, 0)] << 8)
        + (row[g_bd_rot_slot_col(g, 2, 0)] << 16)
        + (row[g_bd_rot_slot_col(g, 3, 0)] << 24)
}

fn add_payload(map: &mut BTreeMap<[u64; 3], i64>, payload: [u64; 3], sign: i64) {
    *map.entry(payload).or_default() += sign;
}

#[test]
fn trace_writer_final_state_matches_execution_model() {
    let trace = generate_trace_block(test_block(), test_h(), TraceMode::Compression);

    assert_eq!(trace.final_v, final_state(&test_h(), &test_block()));
}

#[test]
fn trace_writer_materializes_compression_cycle_id_on_internal_bus_rows() {
    let cycle_id = 7;
    let trace = generate_trace_block_with_cycle_id(
        test_block(),
        test_h(),
        cycle_id,
        TraceMode::Compression,
    );

    for row in 0..FUSED_G_ROWS {
        for g in 0..NUM_G {
            assert_eq!(trace.rows[row][g_msg_slot_col(g, 2)], cycle_id);
        }
    }
    for footer in 0..FOOTER_ROWS {
        let row = &trace.rows[FOOTER_START + footer];
        assert_eq!(row[F_COMPRESSION_CYCLE_ID_COL], cycle_id);
        assert_eq!(row[F_HIN_SLOT_BASE_COL], 4 * cycle_id + footer as u64);
        for word_slot in 0..F_MSG_WORD_SLOTS {
            assert_eq!(row[footer_msg_word_slot_col(word_slot, 2)], cycle_id);
        }
    }
}

#[test]
fn trace_writer_accepts_largest_canonical_cycle_pair_key() {
    let max_cycle_id = (MODULUS - FOOTER_ROWS as u64) / FOOTER_ROWS as u64;
    assert_eq!(max_cycle_id, MAX_COMPRESSION_CYCLE_ID);
    let trace = generate_trace_block_with_cycle_id(
        test_block(),
        test_h(),
        max_cycle_id,
        TraceMode::Compression,
    );

    assert_eq!(
        trace.rows[FOOTER_START + FOOTER_ROWS - 1][F_HIN_SLOT_BASE_COL],
        FOOTER_ROWS as u64 * max_cycle_id + (FOOTER_ROWS - 1) as u64,
    );
}

#[test]
fn fused_g_rows_materialize_expected_slots() {
    let block = test_block();
    let mut v = initial_working_state(&test_h());
    let trace = generate_trace_block(block, test_h(), TraceMode::Compression);
    assert_eq!(trace.rows.len(), BLOCK_PERIOD);

    for row_idx in 0..FUSED_G_ROWS {
        let step = fused_step_at(row_idx).unwrap();
        let row = FusedGRow::new(&trace.rows[row_idx]);

        for g in 0..NUM_G {
            let [ai, bi, ci, di] = step.lane_map[g];
            let a = v[ai];
            let b = v[bi];
            let c = v[ci];
            let d = v[di];
            let msg = block[step.message_indices[g]];

            let sum3 = a as u64 + b as u64 + msg as u64;
            let a_new = sum3 as u32;
            let k3 = sum3 >> 32;
            let d_new = (d ^ a_new).rotate_right(step.first_rotation);

            let sum2 = c as u64 + d_new as u64;
            let c_new = sum2 as u32;
            let k2 = sum2 >> 32;
            let b_new = (b ^ c_new).rotate_right(step.second_rotation);

            assert_eq!(row.a(g), a as u64);
            assert_eq!(row.c(g), c as u64);
            assert_eq!(row.k3_bit0(g), k3 & 1);
            assert_eq!(row.k3_bit1(g), k3 >> 1);
            assert_eq!(row.k2(g), k2);
            assert_slot(row.msg_slot(g), [step.message_indices[g] as u64, msg as u64, 0]);

            let d_bytes = d.to_le_bytes();
            let a_new_bytes = a_new.to_le_bytes();
            let b_bytes = b.to_le_bytes();
            let c_new_bytes = c_new.to_le_bytes();
            for byte in 0..BYTES_PER_WORD {
                assert_slot(
                    row.ac_byte_slot(g, byte),
                    [
                        d_bytes[byte] as u64,
                        a_new_bytes[byte] as u64,
                        (d_bytes[byte] & a_new_bytes[byte]) as u64,
                    ],
                );
                assert_slot(
                    row.bd_rot_slot(g, byte),
                    [
                        b_bytes[byte] as u64,
                        c_new_bytes[byte] as u64,
                        blakeg_rotation_contribution(
                            byte,
                            b_bytes[byte] as u32,
                            c_new_bytes[byte] as u32,
                            step.second_rotation,
                        ) as u64,
                    ],
                );
            }

            v[ai] = a_new;
            v[di] = d_new;
            v[ci] = c_new;
            v[bi] = b_new;
        }
    }

    assert_eq!(v, trace.final_v);
}

fn assert_footer_xor_slots(
    row: &FooterOverlayRow<'_, u64>,
    footer: usize,
    h: [u32; 8],
    v: [u32; 16],
    low: [u32; 8],
    xof: [u32; 16],
) {
    let even = 2 * footer;
    let odd = even + 1;
    let words = [
        (v[8 + even], h[even], xof[8 + even], F_HIGH_EVEN_SLOT_BASE),
        (v[8 + odd], h[odd], xof[8 + odd], F_HIGH_ODD_SLOT_BASE),
        (v[even], v[8 + even], low[even], F_OUTPUT_EVEN_SLOT_BASE),
        (v[odd], v[8 + odd], low[odd], F_OUTPUT_ODD_SLOT_BASE),
    ];

    for (lhs, rhs, xor, slot_base) in words {
        assert_eq!(lhs ^ rhs, xor);
        let lhs_bytes = lhs.to_le_bytes();
        let rhs_bytes = rhs.to_le_bytes();
        for byte in 0..BYTES_PER_WORD {
            assert_slot(
                row.xor_slot(slot_base + byte),
                [
                    lhs_bytes[byte] as u64,
                    rhs_bytes[byte] as u64,
                    (lhs_bytes[byte] & rhs_bytes[byte]) as u64,
                ],
            );
        }
    }
}

fn assert_future_w_queue(row: &FooterOverlayRow<'_, u64>, footer: usize, v: [u32; 16]) {
    let future_w: &[usize] = match footer {
        0 => &[2, 3, 10, 11, 4, 5, 12, 13, 6, 7, 14, 15],
        1 => &[4, 5, 12, 13, 6, 7, 14, 15],
        2 => &[6, 7, 14, 15],
        3 => &[],
        _ => unreachable!(),
    };

    for idx in 0..F_FUTURE_W_COLS {
        let expected = future_w.get(idx).map(|&word_idx| v[word_idx] as u64).unwrap_or(0);
        assert_eq!(row.future_w(idx), expected);
    }
}

#[test]
fn footer_overlay_rows_materialize_expected_surface() {
    let block = test_block();
    let h = test_h();
    let clk = 12345;
    let trace = generate_trace_block(block, h, TraceMode::AeadXof { clk });
    let low = low_output(trace.final_v);
    let xof = xof_lanes(trace.final_v, h);
    let r_values: [u64; 8] = core::array::from_fn(|i| pack_pair(block[2 * i], block[2 * i + 1]));
    let c_values: [u64; 4] = core::array::from_fn(|i| pack_pair(h[2 * i], h[2 * i + 1]));
    let d_values: [u64; 4] =
        core::array::from_fn(|i| pack_pair(low[2 * i], low[2 * i + 1] & 0x7fff_ffff));

    for footer in 0..FOOTER_ROWS {
        let row = FooterOverlayRow::new(&trace.rows[FOOTER_START + footer]);
        let even = 2 * footer;
        let odd = even + 1;

        assert_footer_xor_slots(&row, footer, h, trace.final_v, low, xof);
        assert_slot(
            row.top_bit_slot(),
            [
                low[odd].to_le_bytes()[3] as u64,
                F_TOP_BIT_MASK as u64,
                (low[odd].to_le_bytes()[3] & F_TOP_BIT_MASK) as u64,
            ],
        );
        assert_slot(row.hin_slot(), [footer as u64, h[even] as u64, h[odd] as u64]);

        for word_slot in 0..F_MSG_WORD_SLOTS {
            let msg_idx = footer_message_word_index(footer, word_slot);
            assert_slot(row.msg_word_slot(word_slot), [msg_idx as u64, block[msg_idx] as u64, 0]);
        }
        for limb in 0..F_RANGE_SLOTS {
            let msg_idx = footer_range_limb_word_index(footer, limb);
            let word = block[msg_idx];
            let value = if footer_range_limb_is_high(limb) {
                word >> 16
            } else {
                word & 0xffff
            };
            assert_slot(row.range_slot(limb), [value as u64, 0, 0]);
        }

        for (idx, &r_value) in r_values.iter().enumerate() {
            let expected = if idx <= 2 * footer + 1 { r_value } else { 0 };
            assert_eq!(row.r(idx), expected);
        }
        for idx in 0..4 {
            let expected_c = if idx <= footer { c_values[idx] } else { 0 };
            let expected_d = if idx <= footer { d_values[idx] } else { 0 };
            assert_eq!(row.c(idx), expected_c);
            assert_eq!(row.d(idx), expected_d);
        }

        assert_future_w_queue(&row, footer, trace.final_v);
        assert_eq!(row.compression_multiplicity(), 0);
        assert_eq!(row.mode(), 1);
        assert_eq!(row.clk(), clk);
    }
}

#[test]
fn compression_footer_rows_carry_request_multiplicity() {
    let trace = generate_trace_block(
        test_block(),
        test_h(),
        TraceMode::CompressionWithMultiplicity { multiplicity: 3 },
    );

    for footer in 0..FOOTER_ROWS {
        let row = FooterOverlayRow::new(&trace.rows[FOOTER_START + footer]);
        assert_eq!(row.compression_multiplicity(), 3);
        assert_eq!(row.mode(), 0);
        assert_eq!(row.clk(), 0);
    }
}

#[test]
fn footer_canonicality_witnesses_invert_the_high_word_offsets() {
    let mut block = test_block();
    block[1] = u32::MAX;
    block[0] = 0;
    let h = test_h();
    let trace = generate_trace_block(block, h, TraceMode::Compression);

    for footer in 0..FOOTER_ROWS {
        let row = FooterOverlayRow::new(&trace.rows[FOOTER_START + footer]);
        let highs = [block[4 * footer + 1], block[4 * footer + 3], h[2 * footer + 1]];
        let witnesses = [
            (row.r_canon_inv(0), row.r_canon_z(0)),
            (row.r_canon_inv(1), row.r_canon_z(1)),
            (row.c_canon_inv(), row.c_canon_z()),
        ];
        for (hi, (inv, z)) in highs.into_iter().zip(witnesses) {
            let offset = (hi as u128 + MODULUS as u128 - u32::MAX as u128) % MODULUS as u128;
            if hi == u32::MAX {
                assert_eq!((inv, z), (0, 1));
            } else {
                assert_eq!(z, 0);
                assert_eq!(offset * inv as u128 % MODULUS as u128, 1);
            }
        }
    }
}

#[test]
fn inverse_or_zero_inverts_nonzero_elements() {
    assert_eq!(Felt::zero().inverse_or_zero().as_canonical_u64(), 0);
    assert_eq!(Felt::one().inverse_or_zero().as_canonical_u64(), 1);
    assert_eq!(Felt::from_u32(2).inverse_or_zero().as_canonical_u64(), 0x7fff_ffff_8000_0001);
    for value in [3u64, 7, 0xffff_fffe, MODULUS - 1, 0x1234_5678_9abc_def0] {
        let x = Felt::from_canonical(value);
        let inv = x.inverse_or_zero();
        assert_eq!(x.mul(inv).as_canonical_u64(), 1);
    }
}

#[test]
fn message_word_payloads_balance_over_generated_block() {
    let cycle_id = 7;
    let trace = generate_trace_block_with_cycle_id(
        test_block(),
        test_h(),
        cycle_id,
        TraceMode::Compression,
    );
    let mut balance = BTreeMap::new();

    for row in 0..FUSED_G_ROWS {
        for g in 0..NUM_G {
            let base = g_msg_slot_col(g, 0);
            add_payload(
                &mut balance,
                [trace.rows[row][base], trace.rows[row][base + 1], trace.rows[row][base + 2]],
                1,
            );
        }
    }

    for footer in 0..FOOTER_ROWS {
        let row = &trace.rows[FOOTER_START + footer];
        for word_slot in 0..F_MSG_WORD_SLOTS {
            let base = footer_msg_word_slot_col(word_slot, 0);
            add_payload(&mut balance, [row[base], row[base + 1], row[base + 2]], -7);
        }
    }

    assert!(balance.values().all(|&count| count == 0));
}

#[test]
fn input_pair_payloads_balance_over_generated_block() {
    let cycle_id = 7;
    let trace = generate_trace_block_with_cycle_id(
        test_block(),
        test_h(),
        cycle_id,
        TraceMode::Compression,
    );
    let mut balance = BTreeMap::new();
    let first_row = &trace.rows[0];

    add_payload(
        &mut balance,
        [4 * cycle_id, first_row[G_A_BASE_COL], first_row[G_A_BASE_COL + 1]],
        -1,
    );
    add_payload(
        &mut balance,
        [4 * cycle_id + 1, first_row[G_A_BASE_COL + 2], first_row[G_A_BASE_COL + 3]],
        -1,
    );
    add_payload(
        &mut balance,
        [4 * cycle_id + 2, packed_b(first_row, 0), packed_b(first_row, 1)],
        -1,
    );
    add_payload(
        &mut balance,
        [4 * cycle_id + 3, packed_b(first_row, 2), packed_b(first_row, 3)],
        -1,
    );

    for footer in 0..FOOTER_ROWS {
        let row = &trace.rows[FOOTER_START + footer];
        add_payload(
            &mut balance,
            [
                row[F_HIN_SLOT_BASE_COL],
                row[F_HIN_SLOT_BASE_COL + 1],
                row[F_HIN_SLOT_BASE_COL + 2],
            ],
            1,
        );
    }

    assert!(balance.values().all(|&count| count == 0));
}

#[test]
fn compression_cycle_tag_distinguishes_two_cycle_cv_swap() {
    let trace_a =
        generate_trace_block_with_cycle_id(test_block(), test_h(), 0, TraceMode::Compression);
    let trace_b = generate_trace_block_with_cycle_id(
        other_test_block(),
        other_test_h(),
        1,
        TraceMode::Compression,
    );
    let mut tagged = BTreeMap::new();
    let mut untagged: BTreeMap<[u64; 3], i64> = BTreeMap::new();

    for (cycle_id, consumed, advertised) in [(0u64, &trace_b, &trace_a), (1, &trace_a, &trace_b)] {
        let first = &consumed.rows[0];
        let consumed_pairs = [
            [first[G_A_BASE_COL], first[G_A_BASE_COL + 1]],
            [first[G_A_BASE_COL + 2], first[G_A_BASE_COL + 3]],
            [packed_b(first, 0), packed_b(first, 1)],
            [packed_b(first, 2), packed_b(first, 3)],
        ];
        for (pair, words) in consumed_pairs.into_iter().enumerate() {
            add_payload(&mut tagged, [4 * cycle_id + pair as u64, words[0], words[1]], -1);
            *untagged.entry([pair as u64, words[0], words[1]]).or_default() -= 1;
        }

        for footer in 0..FOOTER_ROWS {
            let row = &advertised.rows[FOOTER_START + footer];
            let payload =
                [footer as u64, row[F_HIN_SLOT_BASE_COL + 1], row[F_HIN_SLOT_BASE_COL + 2]];
            add_payload(&mut tagged, [4 * cycle_id + payload[0], payload[1], payload[2]], 1);
            *untagged.entry(payload).or_default() += 1;
        }
    }

    assert!(
        untagged.values().all(|&count| count == 0),
        "control: anonymous bus accepts swap"
    );
    assert!(tagged.values().any(|&count| count != 0), "tagged bus must reject swap");
}

#[test]
fn compression_cycle_tag_distinguishes_two_cycle_message_swap() {
    let trace_a =
        generate_trace_block_with_cycle_id(test_block(), test_h(), 0, TraceMode::Compression);
    let trace_b = generate_trace_block_with_cycle_id(
        other_test_block(),
        other_test_h(),
        1,
        TraceMode::Compression,
    );
    let mut tagged = BTreeMap::new();
    let mut untagged: BTreeMap<[u64; 2], i64> = BTreeMap::new();

    for (cycle_id, consumed, advertised) in [(0u64, &trace_b, &trace_a), (1, &trace_a, &trace_b)] {
        for row in 0..FUSED_G_ROWS {
            for g in 0..NUM_G {
                let base = g_msg_slot_col(g, 0);
                let payload = [consumed.rows[row][base], consumed.rows[row][base + 1]];
                add_payload(&mut tagged, [payload[0], payload[1], cycle_id], 1);
                *untagged.entry(payload).or_default() += 1;
            }
        }

        for footer in 0..FOOTER_ROWS {
            let row = &advertised.rows[FOOTER_START + footer];
            for word_slot in 0..F_MSG_WORD_SLOTS {
                let base = footer_msg_word_slot_col(word_slot, 0);
                let payload = [row[base], row[base + 1]];
                add_payload(&mut tagged, [payload[0], payload[1], cycle_id], -7);
                *untagged.entry(payload).or_default() -= 7;
            }
        }
    }

    assert!(
        untagged.values().all(|&count| count == 0),
        "control: anonymous bus accepts swap"
    );
    assert!(tagged.values().any(|&count| count != 0), "tagged bus must reject swap");
}

fn index_row() -> [usize; NUM_COLS] {
    core::array::from_fn(|idx| idx)
}

fn assert_index_slot(slot: LookupSlot<usize>, expected_base: usize) {
    assert_eq!(slot.field0, expected_base);
    assert_eq!(slot.field1, expected_base + 1);
    assert_eq!(slot.field2, expected_base + 2);
}

#[test]
fn fused_g_view_exposes_all_column_bands() {
    let cols = index_row();
    let row = FusedGRow::new(&cols);

    assert_index_slot(row.ac_byte_slot(0, 0), 0);
    assert_index_slot(row.ac_byte_slot(3, 3), 45);
    assert_index_slot(row.bd_rot_slot(0, 0), 48);
    assert_index_slot(row.bd_rot_slot(3, 3), 93);
    assert_index_slot(row.msg_slot(0), 96);
    assert_index_slot(row.msg_slot(3), 105);

    for g in 0..NUM_G {
        assert_eq!(row.a(g), G_A_BASE_COL + g);
        assert_eq!(row.c(g), G_C_BASE_COL + g);
        assert_eq!(row.k3_bit0(g), G_K3_BIT0_BASE_COL + g);
        assert_eq!(row.k3_bit1(g), G_K3_BIT1_BASE_COL + g);
        assert_eq!(row.k2(g), G_K2_BASE_COL + g);
    }
}

#[test]
fn footer_overlay_view_exposes_footer_and_message_surface() {
    let cols = index_row();
    let row = FooterOverlayRow::new(&cols);

    assert_index_slot(row.xor_slot(0), 0);
    assert_index_slot(row.xor_slot(15), 45);
    assert_index_slot(row.top_bit_slot(), F_TOP_BIT_SLOT_BASE_COL);
    assert_index_slot(row.hin_slot(), F_HIN_SLOT_BASE_COL);
    assert_index_slot(row.msg_word_slot(0), F_MSG_GROUP_BASE_COL);
    assert_index_slot(row.msg_word_slot(3), F_MSG_GROUP_BASE_COL + 9);
    assert_index_slot(row.range_slot(0), F_MSG_GROUP_BASE_COL + 12);
    assert_index_slot(row.range_slot(7), F_MSG_GROUP_BASE_COL + 33);

    for idx in 0..8 {
        assert_eq!(row.r(idx), F_R_BASE_COL + idx);
    }
    for idx in 0..4 {
        assert_eq!(row.c(idx), F_C_BASE_COL + idx);
        assert_eq!(row.d(idx), F_D_BASE_COL + idx);
    }
    for idx in 0..F_FUTURE_W_COLS {
        assert_eq!(row.future_w(idx), F_FUTURE_W_BASE_COL + idx);
    }

    assert_eq!(row.r_canon_inv(0), F_R_CANON_INV_BASE_COL);
    assert_eq!(row.r_canon_inv(1), F_R_CANON_INV_BASE_COL + 1);
    assert_eq!(row.r_canon_z(0), F_R_CANON_Z_BASE_COL);
    assert_eq!(row.r_canon_z(1), F_R_CANON_Z_BASE_COL + 1);
    assert_eq!(row.c_canon_inv(), F_C_CANON_INV_COL);
    assert_eq!(row.c_canon_z(), F_C_CANON_Z_COL);
    assert_eq!(row.compression_multiplicity(), F_COMPRESSION_MULTIPLICITY_COL);
    assert_eq!(row.compression_cycle_id(), F_COMPRESSION_CYCLE_ID_COL);
    assert_eq!(row.mode(), F_MODE_COL);
    assert_eq!(row.clk(), F_CLK_COL);
}

#[test]
fn footer_overlay_indexes_message_words_and_limbs_once() {
    let mut word_counts = [0usize; 16];
    let mut low_limb_counts = [0usize; 16];
    let mut high_limb_counts = [0usize; 16];

    for footer in 0..FOOTER_ROWS {
        for word_slot in 0..F_MSG_WORD_SLOTS {
            let msg_index = footer_message_word_index(footer, word_slot);
            assert_eq!(msg_index, footer * F_MSG_WORD_SLOTS + word_slot);
            word_counts[msg_index] += 1;
        }

        for limb in 0..F_RANGE_SLOTS {
            let msg_index = footer_range_limb_word_index(footer, limb);
            if footer_range_limb_is_high(limb) {
                high_limb_counts[msg_index] += 1;
            } else {
                low_limb_counts[msg_index] += 1;
            }
        }
    }

    assert_eq!(word_counts, [1; 16]);
    assert_eq!(low_limb_counts, [1; 16]);
    assert_eq!(high_limb_counts, [1; 16]);
}

#[test]
fn felt_trace_writer_matches_raw_trace() {
    let raw = generate_trace_block(test_block(), test_h(), TraceMode::AeadXof { clk: 99 });
    let felt = generate_felt_trace_block(test_block(), test_h(), TraceMode::AeadXof { clk: 99 });

    assert_eq!(felt.final_v, raw.final_v);
    for row in 0..BLOCK_PERIOD {
        for col in 0..NUM_COLS {
            assert_eq!(felt.rows[row][col].as_canonical_u64(), raw.rows[row][col]);
        }
    }
}

#[test]
fn felt_trace_writer_fills_one_block_prefix() {
    let sentinel = Felt::from_canonical(7);
    let mut rows: Vec<BlakeGFeltRow> = vec![[sentinel; NUM_COLS]; BLOCK_PERIOD + 1];

    let final_v =
        write_felt_trace_block(&mut rows, test_block(), test_h(), 0, TraceMode::Compression);
    let expected = generate_felt_trace_block(test_block(), test_h(), TraceMode::Compression);

    assert_eq!(final_v, expected.final_v);
    assert_eq!(&rows[..BLOCK_PERIOD], &expected.rows[..]);
    assert!(rows[BLOCK_PERIOD].iter().all(|&cell| cell == sentinel));
}

#[test]
fn retagging_a_block_gives_the_block_of_the_new_cycle() {
    let mode = TraceMode::CompressionWithMultiplicity { multiplicity: 2 };
    let mut rows = generate_felt_trace_block(test_block(), test_h(), mode).rows;
    retag_felt_trace_block_cycle_id(&mut rows, 9);
    let expected = generate_felt_trace_block_with_cycle_id(test_block(), test_h(), 9, mode);

    assert_eq!(rows, expected.rows);
    assert_eq!(rows[FOOTER_START + 2][F_HIN_SLOT_BASE_COL].as_canonical_u64(), 38);
}

#[test]
fn zeroed_writer_records_every_byte_lookup() {
    let zero = Felt::zero();
    let mut rows: Vec<BlakeGFeltRow> = vec![[zero; NUM_COLS]; BLOCK_PERIOD];
    let mut recorder = VecByteLookupRecorder::new();
    let final_v = write_felt_trace_block_into_zeroed_with_lookups(
        &mut rows,
        test_block(),
        test_h(),
        3,
        TraceMode::Compression,
        &mut recorder,
    );
    let expected = generate_felt_trace_block_with_cycle_id(
        test_block(),
        test_h(),
        3,
        TraceMode::Compression,
    );

    assert_eq!(final_v, expected.final_v);
    assert_eq!(rows, expected.rows);
    let log = recorder.lookups();
    let mut and8 = 0;
    let mut rot12 = 0;
    let mut rot7 = 0;
    for &(lookup, lhs, rhs, result) in log {
        match lookup {
            BlakeGByteLookup::And8 => {
                assert_eq!(result, (lhs & rhs) as u32);
                and8 += 1;
            },
            BlakeGByteLookup::Rot12 { byte } => {
                assert_eq!(result, blakeg_rotation_contribution(byte, lhs as u32, rhs as u32, 12));
                rot12 += 1;
            },
            BlakeGByteLookup::Rot7 { byte } => {
                assert_eq!(result, blakeg_rotation_contribution(byte, lhs as u32, rhs as u32, 7));
                rot7 += 1;
            },
        }
    }
    assert_eq!(and8, FUSED_G_ROWS * NUM_G * BYTES_PER_WORD + FOOTER_ROWS * 17);
    assert_eq!(rot12, FUSED_G_ROWS / 2 * NUM_G * BYTES_PER_WORD);
    assert_eq!(rot7, FUSED_G_ROWS / 2 * NUM_G * BYTES_PER_WORD);
    let low_odd = final_v[7] ^ final_v[15];
    let top = (low_odd >> 24) as u8;
    assert_eq!(
        log.last().copied(),
        Some((BlakeGByteLookup::And8, top, F_TOP_BIT_MASK, (top & F_TOP_BIT_MASK) as u32))
    );
    // The first lookup is the first AND slot of the first fused row.
    let first_slot = &rows[0][0..3];
    assert_eq!(
        log[0],
        (
            BlakeGByteLookup::And8,
            first_slot[0].as_canonical_u64() as u8,
            first_slot[1].as_canonical_u64() as u8,
            first_slot[2].as_canonical_u64() as u32
        )
    );
    // The lookups of the first footer row start after the 28 fused rows, at its first XOR slot.
    let footer_slot = &rows[FOOTER_START][0..3];
    assert_eq!(log[32 * FUSED_G_ROWS].1, footer_slot[0].as_canonical_u64() as u8);
    assert_eq!(log[32 * FUSED_G_ROWS].2, footer_slot[1].as_canonical_u64() as u8);
    assert_eq!(log.len(), 32 * FUSED_G_ROWS + 17 * FOOTER_ROWS);
}
