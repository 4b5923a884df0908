use miden_kit::blakeg::{compress, compress_raw_xof, iv};
use miden_kit::eidos::{
    compress_packed_u64_block, compress_u64_block, encode_felt_block, hash_packed_u64_words,
    hash_u64_words, init_cv, pack_to_word, pack_u32_pair,
    unpack_to_cv, unpack_u32_pair, Eidos,
    PackedBlock, PackedDigest, BASE0, BASE1, BASE2, BASE3, BYTE_MODE, FELT_MODE, MODE_BIT,
    PACKED_LANES, RATE,
};
use miden_kit::field::{Felt, Word};

fn word(values: [u64; 4]) -> Word {
    [Felt::new(values[0]), Felt::new(values[1]), Felt::new(values[2]), Felt::new(values[3])]
}

#[test]
fn base_constants_match_iv() {
    let iv = iv();
    assert_eq!(BASE0, pack_u32_pair(iv[0], iv[1]).as_canonical_u64());
    assert_eq!(BASE1, pack_u32_pair(iv[2], iv[3]).as_canonical_u64());
    assert_eq!(BASE2, pack_u32_pair(0, iv[5]).as_canonical_u64());
    assert_eq!(BASE3, pack_u32_pair(0, iv[7]).as_canonical_u64());
}

#[test]
fn pack_unpack_roundtrip_in_subspace() {
    let lo = 0x1234_5678u32;
    let hi = 0x4abc_def0u32;
    let f = pack_u32_pair(lo, hi);

    assert_eq!(unpack_u32_pair(f), (lo, hi));
}

#[test]
fn pack_masks_top_bit_of_high_lane() {
    let (_, hi) = unpack_u32_pair(pack_u32_pair(0, 0xffff_ffff));
    assert_eq!(hi, 0x7fff_ffff);
}

#[test]
fn init_cv_layout_for_felt_mode() {
    let cv = init_cv(7, FELT_MODE, 42);
    let expected = word([BASE0, BASE1, BASE2 + 7, BASE3 + 42]);

    assert_eq!(cv, unpack_to_cv(&expected));
}

#[test]
fn init_cv_layout_for_byte_mode() {
    let cv = init_cv(7, BYTE_MODE, 42);
    let expected = word([BASE0, BASE1, BASE2 + 7 + MODE_BIT as u64, BASE3 + 42]);

    assert_eq!(cv, unpack_to_cv(&expected));
}

#[test]
fn init_cv_lives_in_252_bit_subspace() {
    let cv = init_cv(0, FELT_MODE, 0);

    assert_eq!(cv[1] & !0x7fff_ffff, 0);
    assert_eq!(cv[3] & !0x7fff_ffff, 0);
    assert_eq!(cv[5] & !0x7fff_ffff, 0);
    assert_eq!(cv[7] & !0x7fff_ffff, 0);
}

#[test]
fn empty_inputs_use_one_zero_block() {
    assert_ne!(Eidos::hash(&[]), Eidos::hash_elements(&[]));
}

#[test]
fn transcript_init_cv_matches_one_blakeg_compression() {
    let selector = 0x0201u32;
    let mut block = [0u32; 16];
    block[0] = selector;

    assert_eq!(Eidos::transcript_init_cv(selector), pack_to_word(&compress([0; 8], block)));
}

#[test]
fn compress_xof_block_returns_raw_u32_lanes_as_felts() {
    let cv = Eidos::init_chaining_word(7, RATE as u32);
    let block: [Felt; RATE] = core::array::from_fn(|idx| Felt::new((idx as u64 + 1) * 17));

    let expected =
        compress_raw_xof(unpack_to_cv(&cv), encode_felt_block(&block)).map(Felt::from_u32);

    assert_eq!(Eidos::compress_xof_block(cv, block), expected);
}

#[test]
fn packed_resumable_api_matches_scalar_lanes() {
    let domain = 17;
    let input_len = (2 * RATE) as u32;
    let mut packed_cv = Eidos::init_packed_chaining_word(domain, input_len);
    let packed_block: PackedBlock = core::array::from_fn(|element| {
        core::array::from_fn(|lane| Felt::new((element * 101 + lane * 17 + 3) as u64))
    });
    packed_cv = Eidos::compress_packed_block(packed_cv, packed_block);

    let packed_other: PackedDigest = core::array::from_fn(|element| {
        core::array::from_fn(|lane| {
            Eidos::hash_elements(&[
                Felt::new((lane * 29 + 5) as u64),
                Felt::new((element * 31 + 7) as u64),
            ])[element]
        })
    });
    let packed_merged = Eidos::merge_packed(&[packed_cv, packed_other]);

    for lane in 0..PACKED_LANES {
        let scalar_block = core::array::from_fn(|element| packed_block[element][lane]);
        let scalar_cv =
            Eidos::compress_block(Eidos::init_chaining_word(domain, input_len), scalar_block);
        let scalar_other: Word = core::array::from_fn(|element| packed_other[element][lane]);
        let scalar_merged = Eidos::merge(&[scalar_cv, scalar_other]);
        let packed_lane: Word = core::array::from_fn(|element| packed_merged[element][lane]);

        assert_eq!(packed_lane, scalar_merged, "packed lane {lane} diverged");
    }
}

#[test]
fn hash_elements_is_deterministic() {
    let xs = vec![Felt::new(1), Felt::new(2), Felt::new(3)];
    assert_eq!(Eidos::hash_elements(&xs), Eidos::hash_elements(&xs));
}

#[test]
fn packed_u64_hasher_matches_scalar_lanes() {
    let inputs: Vec<[u64; PACKED_LANES]> = (0..19)
        .map(|i| {
            core::array::from_fn(|lane| {
                Felt::new((i * 17 + lane * 3 + 1) as u64).as_canonical_u64()
            })
        })
        .collect();
    let packed = hash_packed_u64_words(&inputs);

    for lane in 0..PACKED_LANES {
        let scalar_input: Vec<u64> = inputs.iter().map(|value| value[lane]).collect();
        let scalar = hash_u64_words(&scalar_input);
        let packed_lane: [u64; 4] = core::array::from_fn(|word| packed[word][lane]);
        assert_eq!(packed_lane, scalar);
    }
}

#[test]
fn packed_u64_block_compression_matches_scalar_lanes() {
    let block: [[u64; PACKED_LANES]; RATE] = core::array::from_fn(|element| {
        core::array::from_fn(|lane| (element * 131 + lane * 7 + 2) as u64)
    });
    let packed = compress_packed_u64_block(&block);
    for lane in 0..PACKED_LANES {
        let scalar = compress_u64_block(&core::array::from_fn(|element| block[element][lane]));
        let packed_lane: [u64; 4] = core::array::from_fn(|word| packed[word][lane]);
        assert_eq!(packed_lane, scalar);
    }
}

#[test]
fn resumable_blocks_reproduce_the_one_shot_digest() {
    let domain = 9;
    let elements: Vec<Felt> = (0..16).map(|i| Felt::new(i * 0x1_0001 + 5)).collect();
    let mut cv = Eidos::init_chaining_word(domain, elements.len() as u32);
    for chunk in elements.chunks(RATE) {
        let block: [Felt; RATE] = core::array::from_fn(|i| chunk[i]);
        cv = Eidos::compress_block(cv, block);
    }
    assert_eq!(cv, Eidos::hash_elements_in_domain(&elements, Felt::new(domain as u64)));
}
