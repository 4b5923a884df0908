use miden_kit::blakeg_layout::{
    footer_message_word_index, footer_msg_word_slot_col, footer_range_slot_col,
    footer_xor_slot_col, g_ac_byte_slot_col, g_bd_rot_slot_col, g_msg_slot_col, row_kind, RowKind,
    AUX_COLS, BLOCK_PERIOD, BYTE_SLOTS_PER_STEP, BYTE_SLOT_WIDTH, FOOTER_ROWS, FOOTER_START,
    FUSED_G_ROWS, FUSED_G_ROWS_PER_ROUND, F_CLK_COL, F_COMPRESSION_CYCLE_ID_COL,
    F_COMPRESSION_MULTIPLICITY_COL, F_C_BASE_COL, F_C_CANON_INV_COL, F_C_CANON_Z_COL,
    F_D_BASE_COL, F_FUTURE_W_BASE_COL, F_FUTURE_W_COLS, F_HIN_SLOT_BASE_COL,
    F_MODE_COL, F_MSG_GROUP_BASE_COL, F_MSG_GROUP_SLOTS, F_MSG_WORD_SLOTS, F_RANGE_SLOTS,
    F_R_BASE_COL, F_R_CANON_INV_BASE_COL, F_R_CANON_Z_BASE_COL, F_TOP_BIT_SLOT_BASE_COL,
    F_XOR_SLOT_BASE_COL, G_AC_BYTE_SLOT_BASE_COL, G_A_BASE_COL, G_BD_ROT_SLOT_BASE_COL,
    G_C_BASE_COL, G_K2_BASE_COL, G_K3_BIT0_BASE_COL, G_K3_BIT1_BASE_COL, G_MSG_SLOT_BASE_COL,
    NUM_COLS, NUM_G,
};
use miden_kit::blakeg_lookup::{
    blakeg_lookup_column_shape, lookup_plan, narrow_slot_multiplicity, row_selectors,
    BlakeGCompressionMode, LookupPlan, NarrowLookup, NarrowLookupKind, SingletonLookupKind,
    AEAD_HIGH_OUTPUT_COLUMN, AEAD_INPUT_COLUMN, AEAD_LOW_OUTPUT_COLUMN, COMPRESSION_LINK_COLUMN,
    NARROW_BATCH_COLUMNS,
};
use miden_kit::field::{Felt, MODULUS};

fn count_narrow(plan: &[NarrowLookup], kind: NarrowLookupKind, sign: i8) -> usize {
    plan.iter().filter(|lookup| lookup.kind == kind && lookup.sign == sign).count()
}

fn signed_narrow_total(kind: NarrowLookupKind) -> i64 {
    (0..BLOCK_PERIOD)
        .flat_map(|row| lookup_plan(row, BlakeGCompressionMode::Compression).narrow)
        .filter(|lookup| lookup.kind == kind)
        .map(|lookup| lookup.sign as i64)
        .sum()
}

fn mark_range(used: &mut [bool; NUM_COLS], range: core::ops::Range<usize>) {
    assert!(range.end <= NUM_COLS, "range {range:?} is out of bounds");
    for col in range {
        assert!(!used[col], "column {col} assigned twice");
        used[col] = true;
    }
}

#[test]
fn row_period_is_32_with_28_fused_g_rows_and_4_footer_rows() {
    assert_eq!(FUSED_G_ROWS, 28);
    assert_eq!(FOOTER_START, 28);
    assert_eq!(FOOTER_START + FOOTER_ROWS, BLOCK_PERIOD);
    assert_eq!(row_kind(0), RowKind::Ab);
    assert_eq!(row_kind(1), RowKind::Cd);
    assert_eq!(row_kind(2), RowKind::AbDiag);
    assert_eq!(row_kind(3), RowKind::CdDiag);
    assert_eq!(row_kind(27), RowKind::CdDiag);
    assert_eq!(row_kind(28), RowKind::Footer(0));
    assert_eq!(row_kind(31), RowKind::Footer(3));
}

#[test]
fn fused_g_row_uses_exactly_128_columns() {
    let mut used = [false; NUM_COLS];

    let byte_step_width = BYTE_SLOT_WIDTH * BYTE_SLOTS_PER_STEP;
    mark_range(&mut used, G_AC_BYTE_SLOT_BASE_COL..G_AC_BYTE_SLOT_BASE_COL + byte_step_width);
    mark_range(&mut used, G_BD_ROT_SLOT_BASE_COL..G_BD_ROT_SLOT_BASE_COL + byte_step_width);
    mark_range(&mut used, G_MSG_SLOT_BASE_COL..G_MSG_SLOT_BASE_COL + 12);
    mark_range(&mut used, G_A_BASE_COL..G_A_BASE_COL + NUM_G);
    mark_range(&mut used, G_C_BASE_COL..G_C_BASE_COL + NUM_G);
    mark_range(&mut used, G_K3_BIT0_BASE_COL..G_K3_BIT0_BASE_COL + NUM_G);
    mark_range(&mut used, G_K3_BIT1_BASE_COL..G_K3_BIT1_BASE_COL + NUM_G);
    mark_range(&mut used, G_K2_BASE_COL..G_K2_BASE_COL + NUM_G);

    assert!(used.into_iter().all(|col| col));
    assert_eq!(g_ac_byte_slot_col(3, 3, 2), 47);
    assert_eq!(g_bd_rot_slot_col(3, 3, 2), 95);
    assert_eq!(g_msg_slot_col(3, 2), 107);
}

#[test]
fn footer_overlay_row_fits_128_columns() {
    let mut used = [false; NUM_COLS];

    let byte_step_width = BYTE_SLOT_WIDTH * BYTE_SLOTS_PER_STEP;
    let message_group_width = BYTE_SLOT_WIDTH * F_MSG_GROUP_SLOTS;

    assert_eq!(F_MSG_GROUP_SLOTS, F_MSG_WORD_SLOTS + F_RANGE_SLOTS);
    mark_range(&mut used, F_XOR_SLOT_BASE_COL..F_XOR_SLOT_BASE_COL + byte_step_width);
    mark_range(&mut used, F_TOP_BIT_SLOT_BASE_COL..F_TOP_BIT_SLOT_BASE_COL + BYTE_SLOT_WIDTH);
    mark_range(&mut used, F_HIN_SLOT_BASE_COL..F_HIN_SLOT_BASE_COL + BYTE_SLOT_WIDTH);
    mark_range(&mut used, F_MSG_GROUP_BASE_COL..F_MSG_GROUP_BASE_COL + message_group_width);
    mark_range(&mut used, F_R_BASE_COL..F_R_BASE_COL + 8);
    mark_range(&mut used, F_C_BASE_COL..F_C_BASE_COL + 4);
    mark_range(&mut used, F_D_BASE_COL..F_D_BASE_COL + 4);
    mark_range(&mut used, F_FUTURE_W_BASE_COL..F_FUTURE_W_BASE_COL + F_FUTURE_W_COLS);
    mark_range(&mut used, F_R_CANON_INV_BASE_COL..F_R_CANON_INV_BASE_COL + 2);
    mark_range(&mut used, F_R_CANON_Z_BASE_COL..F_R_CANON_Z_BASE_COL + 2);
    mark_range(&mut used, F_C_CANON_INV_COL..F_C_CANON_INV_COL + 1);
    mark_range(&mut used, F_C_CANON_Z_COL..F_C_CANON_Z_COL + 1);
    mark_range(&mut used, F_COMPRESSION_MULTIPLICITY_COL..F_COMPRESSION_MULTIPLICITY_COL + 1);
    mark_range(&mut used, F_COMPRESSION_CYCLE_ID_COL..F_COMPRESSION_CYCLE_ID_COL + 1);
    mark_range(&mut used, F_MODE_COL..F_MODE_COL + 1);
    mark_range(&mut used, F_CLK_COL..F_CLK_COL + 1);

    assert!(used.into_iter().all(|col| col));
    assert_eq!(footer_xor_slot_col(15, 2), 47);
    assert_eq!(footer_msg_word_slot_col(3, 2), 65);
    assert_eq!(footer_range_slot_col(7, 2), 89);
}

#[test]
fn footer_message_words_are_indexed_once() {
    let mut word_counts = [0usize; 16];
    for footer in 0..FOOTER_ROWS {
        for word_slot in 0..F_MSG_WORD_SLOTS {
            let msg_index = footer_message_word_index(footer, word_slot);
            assert_eq!(msg_index, footer * F_MSG_WORD_SLOTS + word_slot);
            word_counts[msg_index] += 1;
        }
    }
    assert_eq!(word_counts, [1; 16]);
}

#[test]
fn lookup_plans_fit_fixed_aux_columns() {
    assert_eq!(blakeg_lookup_column_shape().len(), AUX_COLS);
    assert_eq!(NARROW_BATCH_COLUMNS, 20);
    assert_eq!(COMPRESSION_LINK_COLUMN, 20);
    assert_eq!(AEAD_INPUT_COLUMN, 21);
    assert_eq!(AEAD_LOW_OUTPUT_COLUMN, 22);
    assert_eq!(AEAD_HIGH_OUTPUT_COLUMN, 23);

    for mode in [BlakeGCompressionMode::Compression, BlakeGCompressionMode::AeadXof] {
        let narrow_peak = (0..BLOCK_PERIOD)
            .map(|row| lookup_plan(row, mode).narrow_aux_columns())
            .max()
            .unwrap();
        assert_eq!(narrow_peak, NARROW_BATCH_COLUMNS);
    }
}

#[test]
fn first_ab_row_carries_all_initial_input_pair_removals() {
    let first = lookup_plan(0, BlakeGCompressionMode::Compression);
    assert_eq!(count_narrow(&first.narrow, NarrowLookupKind::InputPair, -1), 4);
    assert_eq!(count_narrow(&first.narrow, NarrowLookupKind::And8, -1), 16);
    assert_eq!(count_narrow(&first.narrow, NarrowLookupKind::Rot12, -1), 16);
    assert_eq!(count_narrow(&first.narrow, NarrowLookupKind::MessageWord, 1), 4);

    let later_ab = lookup_plan(FUSED_G_ROWS_PER_ROUND, BlakeGCompressionMode::Compression);
    assert_eq!(count_narrow(&later_ab.narrow, NarrowLookupKind::InputPair, -1), 0);
}

#[test]
fn footer_rows_carry_net_hin_and_message_group() {
    let footer = lookup_plan(FOOTER_START + 2, BlakeGCompressionMode::Compression);

    assert_eq!(count_narrow(&footer.narrow, NarrowLookupKind::And8, -1), 17);
    assert_eq!(count_narrow(&footer.narrow, NarrowLookupKind::InputPair, 1), 1);
    assert_eq!(count_narrow(&footer.narrow, NarrowLookupKind::MessageWord, -7), 4);
    assert_eq!(count_narrow(&footer.narrow, NarrowLookupKind::RangeCheck, -1), 8);
    assert!(footer.singletons.is_empty());
}

#[test]
fn message_word_relation_balances_over_one_block() {
    assert_eq!(signed_narrow_total(NarrowLookupKind::MessageWord), 0);
}

#[test]
fn input_pair_relation_balances_without_interface_row() {
    assert_eq!(signed_narrow_total(NarrowLookupKind::InputPair), 0);
}

#[test]
fn final_footer_singletons_are_mode_specific() {
    let compression = lookup_plan(FOOTER_START + 3, BlakeGCompressionMode::Compression);
    assert_eq!(compression.singletons.len(), 1);
    assert_eq!(compression.singletons[0].kind, SingletonLookupKind::CompressionLink);
    assert_eq!(compression.singletons[0].sign, -1);

    let aead = lookup_plan(FOOTER_START + 3, BlakeGCompressionMode::AeadXof);
    assert_eq!(aead.singletons.len(), 3);
    assert_eq!(aead.singletons[0].kind, SingletonLookupKind::AeadInput);
    assert_eq!(aead.singletons[0].sign, -1);
    assert_eq!(LookupPlan::singleton_aux_column(aead.singletons[0].kind), AEAD_INPUT_COLUMN,);
    assert_eq!(aead.singletons[1].kind, SingletonLookupKind::AeadLowOutputPair);
    assert_eq!(aead.singletons[1].sign, -1);
    assert_eq!(
        LookupPlan::singleton_aux_column(aead.singletons[1].kind),
        AEAD_LOW_OUTPUT_COLUMN,
    );
    assert_eq!(aead.singletons[2].kind, SingletonLookupKind::AeadHighOutputPair);
    assert_eq!(aead.singletons[2].sign, -1);
    assert_eq!(
        LookupPlan::singleton_aux_column(aead.singletons[2].kind),
        AEAD_HIGH_OUTPUT_COLUMN,
    );
}

#[test]
fn batch_two_aux_columns_pair_adjacent_narrow_lookups() {
    let plan = lookup_plan(0, BlakeGCompressionMode::Compression);
    assert_eq!(plan.narrow.len(), 40);

    for slot in 0..plan.narrow.len() {
        assert_eq!(LookupPlan::narrow_aux_column(slot), slot / 2);
    }
    assert_eq!(plan.narrow_aux_columns(), 20);
}

#[test]
fn slot_multiplicities_follow_the_plan_on_every_row() {
    for row in 0..BLOCK_PERIOD {
        let plan = lookup_plan(row, BlakeGCompressionMode::Compression);
        let selectors = row_selectors(row);
        for slot in 0..40 {
            let expected = plan.narrow.get(slot).map_or(0i64, |lookup| lookup.sign as i64);
            let expected_field = if expected < 0 {
                MODULUS - (-expected) as u64
            } else {
                expected as u64
            };
            assert_eq!(
                narrow_slot_multiplicity(slot, &selectors),
                Felt::new(expected_field),
                "row {row} slot {slot}"
            );
        }
    }
}

#[test]
fn aead_footer_rows_emit_output_pairs_on_every_footer() {
    for footer in 0..FOOTER_ROWS {
        let plan = lookup_plan(FOOTER_START + footer, BlakeGCompressionMode::AeadXof);
        let kinds: Vec<_> = plan.singletons.iter().map(|s| s.kind).collect();
        assert!(kinds.contains(&SingletonLookupKind::AeadLowOutputPair));
        assert!(kinds.contains(&SingletonLookupKind::AeadHighOutputPair));
        assert_eq!(kinds.contains(&SingletonLookupKind::AeadInput), footer == FOOTER_ROWS - 1);
    }
}

#[test]
fn lookup_plans_follow_periodic_row_families() {
    for row in 0..BLOCK_PERIOD {
        let selectors = row_selectors(row);
        let plan = lookup_plan(row, BlakeGCompressionMode::Compression);
        let is_ab = selectors.is_ab.as_canonical_u64() == 1;
        let is_cd = selectors.is_cd.as_canonical_u64() == 1;
        let is_footer = selectors.is_footer.as_canonical_u64() == 1;

        assert_eq!(is_ab, count_narrow(&plan.narrow, NarrowLookupKind::Rot12, -1) > 0);
        assert_eq!(is_cd, count_narrow(&plan.narrow, NarrowLookupKind::Rot7, -1) > 0);
        assert_eq!(is_footer, count_narrow(&plan.narrow, NarrowLookupKind::RangeCheck, -1) > 0);
    }
}
