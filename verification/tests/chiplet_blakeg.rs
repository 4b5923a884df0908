use miden_kit::chiplet_blakeg::{
    compress_raw_xof_lanes, compress_state, pack, pack_word, two_to_one_chaining_word, unpack,
    unpack_block, unpack_word, RATE_WIDTH, STATE_WIDTH,
};
use miden_kit::eidos::Eidos;
use miden_kit::field::Felt;

const ODD_LANE_MASK: u32 = 0x7fff_ffff;

fn felt(value: u64) -> Felt {
    Felt::from_canonical(value)
}

fn test_block() -> [Felt; 8] {
    [
        felt(0x0000_0002_0000_0001),
        felt(0x0000_0004_0000_0003),
        felt(0x0000_0006_0000_0005),
        felt(0x0000_0008_0000_0007),
        felt(0x8000_000a_0000_0009),
        felt(0x0000_000c_8000_000b),
        felt(0x0000_000e_0000_000d),
        felt(0x0000_0010_0000_000f),
    ]
}

fn test_cv_word() -> [Felt; 4] {
    [
        felt(0x8000_0001_0000_0021),
        felt(0x0000_0043_8000_0022),
        felt(0x0000_0065_0000_0023),
        felt(0x0000_0087_0000_0024),
    ]
}

fn window(block: [Felt; 8], cv_word: [Felt; 4]) -> [Felt; STATE_WIDTH] {
    [
        block[0], block[1], block[2], block[3], block[4], block[5], block[6], block[7],
        cv_word[0], cv_word[1], cv_word[2], cv_word[3],
    ]
}

#[test]
fn compress_state_preserves_block_and_writes_new_cv() {
    let block = test_block();
    let cv_word = test_cv_word();
    let mut state = window(block, cv_word);

    let expected_cv_word = Eidos::compress_block(cv_word, block);
    let expected_cv = unpack_word(expected_cv_word);
    let actual_cv = compress_state(&mut state);

    assert_eq!(actual_cv, expected_cv);
    assert_eq!(&state[..RATE_WIDTH], &block);
    assert_eq!(&state[RATE_WIDTH..STATE_WIDTH], expected_cv_word.as_slice());
    assert_ne!(&state[RATE_WIDTH..STATE_WIDTH], cv_word.as_slice());
}

#[test]
fn pack_word_masks_odd_lanes() {
    let word = pack_word([
        0xffff_ffff,
        0xffff_ffff,
        0x0123_4567,
        0x89ab_cdef,
        0xdead_beef,
        0xffff_ffff,
        0xa5a5_a5a5,
        0xffff_ffff,
    ]);

    for felt in word.as_slice() {
        let (_, hi) = unpack(*felt);
        assert_eq!(hi & !ODD_LANE_MASK, 0);
    }
    assert_eq!(word[1].as_canonical_u64(), 0x09ab_cdef_0123_4567);
}

#[test]
fn compress_raw_xof_lanes_returns_low_fold_then_high_feed_forward() {
    let block = test_block();
    let cv_word = test_cv_word();
    let state = window(block, cv_word);

    let lanes = compress_raw_xof_lanes(&state);

    let expected =
        Eidos::compress_xof_block(cv_word, block).map(|felt| felt.as_canonical_u64() as u32);
    assert_eq!(lanes, expected);

    let mut compressed = state;
    let cv = compress_state(&mut compressed);
    for i in 0..8 {
        let lane = if i % 2 == 1 { lanes[i] & ODD_LANE_MASK } else { lanes[i] };
        assert_eq!(lane, cv[i]);
    }
}

#[test]
fn stack_lane_helpers_round_trip() {
    assert_eq!(unpack(pack(7, 0xffff_ffff)), (7, ODD_LANE_MASK));
    let lanes = unpack_block(test_block());
    assert_eq!(lanes[8], 0x0000_0009);
    assert_eq!(lanes[9], 0x8000_000a);
    assert_eq!(unpack_word(test_cv_word())[1], 0x8000_0001);
    let word = two_to_one_chaining_word(0);
    assert_eq!(word, Eidos::init_chaining_word(0, 8));
}
