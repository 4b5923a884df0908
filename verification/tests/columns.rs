use miden_kit::columns::{
    chiplet_col_map, core_col_map, ChipletCols, CoreCols, CHIPLETS_CLK_COL, CHIPLETS_MODE_COL,
    CHIPLETS_WIDTH, DECODER_TRACE_WIDTH, NUM_CHIPLETS_COLS, NUM_CORE_COLS, NUM_DECODER_COLS,
    NUM_STACK_COLS, NUM_SYSTEM_COLS, SYS_TRACE_WIDTH,
};

const DECODER_OFFSET: usize = SYS_TRACE_WIDTH;
const STACK_OFFSET: usize = SYS_TRACE_WIDTH + DECODER_TRACE_WIDTH;

#[test]
fn col_map_system() {
    let map = core_col_map();
    assert_eq!(map.system.clk, 0);
    assert_eq!(map.system.ctx, 1);
    assert_eq!(map.system.fn_hash[0], 2);
    assert_eq!(map.system.fn_hash[3], 5);
}

#[test]
fn col_map_decoder() {
    let map = core_col_map();
    assert_eq!(map.decoder.addr, DECODER_OFFSET);
    assert_eq!(map.decoder.op_bits[0], DECODER_OFFSET + 1);
    assert_eq!(map.decoder.op_bits[6], DECODER_OFFSET + 7);
    assert_eq!(map.decoder.hasher_state[0], DECODER_OFFSET + 8);
    assert_eq!(map.decoder.in_span, DECODER_OFFSET + 16);
    assert_eq!(map.decoder.group_count, DECODER_OFFSET + 17);
    assert_eq!(map.decoder.op_index, DECODER_OFFSET + 18);
    assert_eq!(map.decoder.batch_flags[0], DECODER_OFFSET + 19);
    assert_eq!(map.decoder.extra[0], DECODER_OFFSET + 22);
}

#[test]
fn col_map_stack() {
    let map = core_col_map();
    assert_eq!(map.stack.top[0], STACK_OFFSET);
    assert_eq!(map.stack.top[15], STACK_OFFSET + 15);
    assert_eq!(map.stack.b0, STACK_OFFSET + 16);
    assert_eq!(map.stack.b1, STACK_OFFSET + 17);
    assert_eq!(map.stack.h0, STACK_OFFSET + 18);
}

#[test]
fn col_map_chiplets() {
    let map = chiplet_col_map();
    assert_eq!(map.chiplets[0], 0);
    assert_eq!(map.chiplets[CHIPLETS_MODE_COL], CHIPLETS_MODE_COL);
    assert_eq!(map.chip_clk, CHIPLETS_CLK_COL);
}

#[test]
fn core_cols_width() {
    assert_eq!(NUM_CORE_COLS, NUM_SYSTEM_COLS + NUM_DECODER_COLS + NUM_STACK_COLS,);
}

#[test]
fn chiplet_cols_width() {
    assert_eq!(NUM_CHIPLETS_COLS, CHIPLETS_WIDTH);
}

#[test]
fn core_columns_round_trip_through_layout() {
    let row: Vec<u64> = (100..149).collect();
    let cols = CoreCols::from_columns(&row);
    assert_eq!(cols.to_columns(), row);
    assert_eq!(cols.stack.h0, 148);
}

#[test]
fn chiplet_accessors_read_documented_columns() {
    let map = chiplet_col_map();
    assert_eq!(map.chiplet_selectors(), [0, CHIPLETS_MODE_COL, 1, 2, 3, 4]);
    assert_eq!(map.bitwise_stream_mode(), CHIPLETS_MODE_COL);
    assert_eq!(map.bitwise(), &(2..15).collect::<Vec<_>>()[..]);
    assert_eq!(map.aead_stream(), &(2..22).collect::<Vec<_>>()[..]);
    assert_eq!(map.memory(), &(3..18).collect::<Vec<_>>()[..]);
    assert_eq!(map.memory_word_addr_lo(), 18);
    assert_eq!(map.memory_word_addr_hi(), 19);
    assert_eq!(map.ace(), &(4..20).collect::<Vec<_>>()[..]);
    assert_eq!(map.kernel_rom(), &(5..10).collect::<Vec<_>>()[..]);
    assert_eq!(map.controller(), &(1..20).collect::<Vec<_>>()[..]);
    assert_eq!(map.controller_op_final(), 20);
    assert_eq!(map.controller_mrupdate_id(), 21);
    assert_eq!(map.controller_merkle_or_padding(), CHIPLETS_MODE_COL);
    let row: Vec<u32> = (0..24).map(|i| i * 3).collect();
    let cols = ChipletCols::from_columns(&row);
    assert_eq!(cols.chip_clk, 69);
}
