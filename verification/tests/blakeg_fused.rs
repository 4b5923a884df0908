use miden_kit::blakeg::{compress, compress_raw_xof};
use miden_kit::blakeg_fused::{fused_half_step, fused_step_at, write_fused_g_rows};
use miden_kit::blakeg_layout::{g_msg_slot_col, FUSED_G_ROWS, NUM_COLS, NUM_G};
use miden_kit::blakeg_trace::NoopByteLookupRecorder;

fn test_block() -> [u32; 16] {
    [
        0x0000_0001, 0x0000_0002, 0x0000_0003, 0x0000_0004, 0x8000_0005, 0x0000_0006, 0x0000_0007,
        0x0000_0008, 0x0000_0009, 0x8000_000a, 0x8000_000b, 0x0000_000c, 0x0000_000d, 0x0000_000e,
        0x0000_000f, 0x0000_0010,
    ]
}

fn test_h() -> [u32; 8] {
    [0x0000_0021, 0x8000_0001, 0x8000_0022, 0x0000_0043, 0x0000_0023, 0x0000_0065, 0x0000_0024, 0x0000_0087]
}

fn fused_trace(cycle_id: u64) -> (Vec<[u64; NUM_COLS]>, [u32; 16]) {
    let mut rows = vec![[0u64; NUM_COLS]; 32];
    let final_v =
        write_fused_g_rows(&mut rows, &test_block(), &test_h(), cycle_id, &mut NoopByteLookupRecorder::new());
    (rows, final_v)
}

#[test]
fn fused_rows_reach_the_compression_state() {
    let (_, v) = fused_trace(0);
    let low: Vec<u32> = (0..8).map(|i| v[i] ^ v[i + 8]).collect();
    let expected = compress(test_h(), test_block());
    for i in 0..8 {
        let lane = if i % 2 == 1 { low[i] & 0x7fff_ffff } else { low[i] };
        assert_eq!(lane, expected[i]);
    }
    let xof = compress_raw_xof(test_h(), test_block());
    for i in 0..8 {
        assert_eq!(v[i + 8] ^ test_h()[i], xof[i + 8]);
    }
}

#[test]
fn fused_rows_carry_the_compression_cycle_id() {
    let cycle_id = 7;
    let (trace, _) = fused_trace(cycle_id);
    for row in 0..FUSED_G_ROWS {
        for g in 0..NUM_G {
            assert_eq!(trace[row][g_msg_slot_col(g, 2)], cycle_id);
        }
    }
    assert!(trace[FUSED_G_ROWS..].iter().all(|row| row.iter().all(|&cell| cell == 0)));
}

#[test]
fn half_step_carries_recompose_the_sums() {
    let s = fused_half_step(u32::MAX, u32::MAX, 5, 9, u32::MAX, 16, 12);
    assert_eq!(s.k3, 2);
    assert_eq!(
        u32::MAX as u64 * 3,
        s.a_new as u64 + (s.k3 << 32)
    );
    assert_eq!(5 + s.d_new as u64, s.c_new as u64 + (s.k2 << 32));
    assert_eq!(s.b_new, (u32::MAX ^ s.c_new).rotate_right(12));
}

#[test]
fn schedule_covers_rounds_and_rotations() {
    assert!(fused_step_at(FUSED_G_ROWS).is_none());
    let first = fused_step_at(0).unwrap();
    assert_eq!(first.lane_map, [[0, 4, 8, 12], [1, 5, 9, 13], [2, 6, 10, 14], [3, 7, 11, 15]]);
    assert_eq!(first.message_indices, [0, 2, 4, 6]);
    assert_eq!((first.first_rotation, first.second_rotation), (16, 12));
    let diag = fused_step_at(3).unwrap();
    assert_eq!(diag.lane_map, [[0, 5, 10, 15], [1, 6, 11, 12], [2, 7, 8, 13], [3, 4, 9, 14]]);
    assert_eq!(diag.message_indices, [9, 11, 13, 15]);
    assert_eq!((diag.first_rotation, diag.second_rotation), (8, 7));
    let second_round = fused_step_at(4).unwrap();
    assert_eq!(second_round.message_indices, [2, 3, 7, 4]);
}
