use miden_kit::constraint_builder::{horner_eval_bits, pack_u32_bytes_le};
use miden_kit::field::Felt;

fn felts<const N: usize>(values: [u64; N]) -> [Felt; N] {
    values.map(Felt::new)
}

#[test]
fn horner_aggregates_little_endian_bits() {
    assert_eq!(horner_eval_bits(&felts([1])).as_canonical_u64(), 1);
    assert_eq!(horner_eval_bits(&felts([1, 0, 1, 1])).as_canonical_u64(), 0b1101);
    assert_eq!(horner_eval_bits(&felts([0, 1, 0, 0, 0, 0, 0, 1])).as_canonical_u64(), 0x82);
    let limbs = felts([3, 5, 7]);
    assert_eq!(horner_eval_bits(&limbs).as_canonical_u64(), 3 + 2 * 5 + 4 * 7);
}

#[test]
fn bytes_pack_little_endian() {
    let packed = pack_u32_bytes_le(felts([0xef, 0xbe, 0xad, 0xde]));
    assert_eq!(packed.as_canonical_u64(), 0xdead_beef);
}
