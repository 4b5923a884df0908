//! BlakeG: the BLAKE3 seven-round compression function with its four parameter words fixed to
//! the tail of the BLAKE3 IV.
//!
//! The chaining output folds the state as `out[i] = v[i] ^ v[i + 8]` and clears the top bit of
//! every odd output lane, so that an eight-lane chaining value packs losslessly into four
//! Goldilocks field elements. The extendable output keeps all sixteen lanes unmasked.
use vstd::prelude::*;

verus! {

/// Mask applied to odd output lanes.
pub const ODD_LANE_MASK: u32 = 0x7fff_ffff;

/// The BLAKE3 initialization vector.
pub open spec fn spec_iv() -> Seq<u32> {
    seq![
        0x6a09_e667u32,
        0xbb67_ae85u32,
        0x3c6e_f372u32,
        0xa54f_f53au32,
        0x510e_527fu32,
        0x9b05_688cu32,
        0x1f83_d9abu32,
        0x5be0_cd19u32,
    ]
}

/// The BLAKE3 initialization vector.
pub fn iv() -> (r: [u32; 8])
    ensures
        r@ == spec_iv(),
{
    let r = [
        0x6a09_e667u32,
        0xbb67_ae85u32,
        0x3c6e_f372u32,
        0xa54f_f53au32,
        0x510e_527fu32,
        0x9b05_688cu32,
        0x1f83_d9abu32,
        0x5be0_cd19u32,
    ];
    assert(r@ =~= spec_iv());
    r
}

/// Addition modulo `2^32`.
pub open spec fn add32(x: u32, y: u32) -> u32 {
    vstd::wrapping::u32_specs::wrapping_add(x, y)
}

/// Rotation of a lane to the right by a constant amount in `1..32`.
pub open spec fn rotr(x: u32, n: u32) -> u32
    recommends
        0 < n < 32,
{
    (x >> n) | (x << ((32 - n) as u32))
}

/// The quarter-round mixing function.
pub open spec fn spec_g(a: u32, b: u32, c: u32, d: u32, x: u32, y: u32) -> (u32, u32, u32, u32) {
    let a1 = add32(add32(a, b), x);
    let d1 = rotr(d ^ a1, 16);
    let c1 = add32(c, d1);
    let b1 = rotr(b ^ c1, 12);
    let a2 = add32(add32(a1, b1), y);
    let d2 = rotr(d1 ^ a2, 8);
    let c2 = add32(c1, d2);
    let b2 = rotr(b1 ^ c2, 7);
    (a2, b2, c2, d2)
}

/// One round: mix the four columns, then the four diagonals.
pub open spec fn spec_round(v: Seq<u32>, m: Seq<u32>) -> Seq<u32> {
    let (c0a, c0b, c0c, c0d) = spec_g(v[0], v[4], v[8], v[12], m[0], m[1]);
    let (c1a, c1b, c1c, c1d) = spec_g(v[1], v[5], v[9], v[13], m[2], m[3]);
    let (c2a, c2b, c2c, c2d) = spec_g(v[2], v[6], v[10], v[14], m[4], m[5]);
    let (c3a, c3b, c3c, c3d) = spec_g(v[3], v[7], v[11], v[15], m[6], m[7]);
    let (d0a, d0b, d0c, d0d) = spec_g(c0a, c1b, c2c, c3d, m[8], m[9]);
    let (d1a, d1b, d1c, d1d) = spec_g(c1a, c2b, c3c, c0d, m[10], m[11]);
    let (d2a, d2b, d2c, d2d) = spec_g(c2a, c3b, c0c, c1d, m[12], m[13]);
    let (d3a, d3b, d3c, d3d) = spec_g(c3a, c0b, c1c, c2d, m[14], m[15]);
    seq![
        d0a, d1a, d2a, d3a,
        d3b, d0b, d1b, d2b,
        d2c, d3c, d0c, d1c,
        d1d, d2d, d3d, d0d,
    ]
}

/// The message-word permutation applied between rounds.
pub open spec fn spec_permute(m: Seq<u32>) -> Seq<u32> {
    seq![
        m[2], m[6], m[3], m[10], m[7], m[0], m[4], m[13],
        m[1], m[11], m[12], m[5], m[9], m[14], m[15], m[8],
    ]
}

/// `k` rounds on state `v`, permuting the message between rounds.
pub open spec fn spec_rounds(v: Seq<u32>, m: Seq<u32>, k: nat) -> Seq<u32>
    decreases k,
{
    if k == 0 {
        v
    } else {
        spec_rounds(spec_round(v, m), spec_permute(m), (k - 1) as nat)
    }
}

/// The initial state: chaining value, IV head, and the IV tail in the parameter words.
pub open spec fn spec_initial_state(cv: Seq<u32>) -> Seq<u32> {
    cv.subrange(0, 8) + spec_iv()
}

/// The state after the seven rounds.
pub open spec fn spec_final_state(cv: Seq<u32>, block: Seq<u32>) -> Seq<u32> {
    spec_rounds(spec_initial_state(cv), block, 7)
}

/// The unmasked chaining output `v[i] ^ v[i + 8]`.
pub open spec fn spec_compress_raw(cv: Seq<u32>, block: Seq<u32>) -> Seq<u32> {
    let v = spec_final_state(cv, block);
    Seq::new(8, |i: int| v[i] ^ v[i + 8])
}

/// The top bit of the lane cleared when `i` is odd.
pub open spec fn mask_lane(x: u32, i: int) -> u32 {
    if i % 2 == 1 {
        x & ODD_LANE_MASK
    } else {
        x
    }
}

/// The compression output: the raw chaining output with the odd lanes masked.
pub open spec fn spec_compress(cv: Seq<u32>, block: Seq<u32>) -> Seq<u32> {
    let raw = spec_compress_raw(cv, block);
    Seq::new(8, |i: int| mask_lane(raw[i], i))
}

/// The sixteen-lane extendable output: the raw chaining output, then `v[i + 8] ^ cv[i]`.
pub open spec fn spec_compress_raw_xof(cv: Seq<u32>, block: Seq<u32>) -> Seq<u32> {
    let v = spec_final_state(cv, block);
    Seq::new(16, |i: int| if i < 8 { v[i] ^ v[i + 8] } else { v[i] ^ cv[i - 8] })
}

fn rotr_exec(x: u32, n: u32) -> (r: u32)
    requires
        0 < n < 32,
    ensures
        r == rotr(x, n),
{
    (x >> n) | (x << (32 - n))
}

fn g(a: u32, b: u32, c: u32, d: u32, x: u32, y: u32) -> (r: (u32, u32, u32, u32))
    ensures
        r == spec_g(a, b, c, d, x, y),
{
    let a1 = a.wrapping_add(b).wrapping_add(x);
    let d1 = rotr_exec(d ^ a1, 16);
    let c1 = c.wrapping_add(d1);
    let b1 = rotr_exec(b ^ c1, 12);
    let a2 = a1.wrapping_add(b1).wrapping_add(y);
    let d2 = rotr_exec(d1 ^ a2, 8);
    let c2 = c1.wrapping_add(d2);
    let b2 = rotr_exec(b1 ^ c2, 7);
    (a2, b2, c2, d2)
}

fn round(v: &[u32; 16], m: &[u32; 16]) -> (r: [u32; 16])
    ensures
        r@ == spec_round(v@, m@),
{
    let (c0a, c0b, c0c, c0d) = g(v[0], v[4], v[8], v[12], m[0], m[1]);
    let (c1a, c1b, c1c, c1d) = g(v[1], v[5], v[9], v[13], m[2], m[3]);
    let (c2a, c2b, c2c, c2d) = g(v[2], v[6], v[10], v[14], m[4], m[5]);
    let (c3a, c3b, c3c, c3d) = g(v[3], v[7], v[11], v[15], m[6], m[7]);
    let (d0a, d0b, d0c, d0d) = g(c0a, c1b, c2c, c3d, m[8], m[9]);
    let (d1a, d1b, d1c, d1d) = g(c1a, c2b, c3c, c0d, m[10], m[11]);
    let (d2a, d2b, d2c, d2d) = g(c2a, c3b, c0c, c1d, m[12], m[13]);
    let (d3a, d3b, d3c, d3d) = g(c3a, c0b, c1c, c2d, m[14], m[15]);
    let r = [
        d0a, d1a, d2a, d3a,
        d3b, d0b, d1b, d2b,
        d2c, d3c, d0c, d1c,
        d1d, d2d, d3d, d0d,
    ];
    assert(r@ =~= spec_round(v@, m@));
    r
}

fn permute(m: &[u32; 16]) -> (r: [u32; 16])
    ensures
        r@ == spec_permute(m@),
{
    let r = [
        m[2], m[6], m[3], m[10], m[7], m[0], m[4], m[13],
        m[1], m[11], m[12], m[5], m[9], m[14], m[15], m[8],
    ];
    assert(r@ =~= spec_permute(m@));
    r
}

/// The BlakeG working state after the seven rounds, before the output feed-forward: the
/// reference model the trace rows are checked against.
pub fn final_state(cv: &[u32; 8], block: &[u32; 16]) -> (r: [u32; 16])
    ensures
        r@ == spec_final_state(cv@, block@),
{
    let iv = iv();
    let mut v = [
        cv[0], cv[1], cv[2], cv[3], cv[4], cv[5], cv[6], cv[7],
        iv[0], iv[1], iv[2], iv[3], iv[4], iv[5], iv[6], iv[7],
    ];
    assert(v@ =~= spec_initial_state(cv@));
    let mut m = *block;
    let mut k: usize = 0;
    while k < 7
        invariant
            k <= 7,
            spec_rounds(v@, m@, (7 - k) as nat) == spec_final_state(cv@, block@),
        decreases 7 - k,
    {
        let next = round(&v, &m);
        let next_m = permute(&m);
        v = next;
        m = next_m;
        k = k + 1;
    }
    v
}

/// The BlakeG compression of one sixteen-lane block under an eight-lane chaining value,
/// with the odd output lanes masked.
pub fn compress(cv: [u32; 8], block: [u32; 16]) -> (r: [u32; 8])
    ensures
        r@ == spec_compress(cv@, block@),
{
    let v = final_state(&cv, &block);
    let r = [
        v[0] ^ v[8],
        (v[1] ^ v[9]) & ODD_LANE_MASK,
        v[2] ^ v[10],
        (v[3] ^ v[11]) & ODD_LANE_MASK,
        v[4] ^ v[12],
        (v[5] ^ v[13]) & ODD_LANE_MASK,
        v[6] ^ v[14],
        (v[7] ^ v[15]) & ODD_LANE_MASK,
    ];
    assert(r@ =~= spec_compress(cv@, block@));
    r
}

/// The full sixteen-lane BlakeG extendable output, without the output mask.
pub fn compress_raw_xof(cv: [u32; 8], block: [u32; 16]) -> (r: [u32; 16])
    ensures
        r@ == spec_compress_raw_xof(cv@, block@),
{
    let v = final_state(&cv, &block);
    let r = [
        v[0] ^ v[8], v[1] ^ v[9], v[2] ^ v[10], v[3] ^ v[11],
        v[4] ^ v[12], v[5] ^ v[13], v[6] ^ v[14], v[7] ^ v[15],
        v[8] ^ cv[0], v[9] ^ cv[1], v[10] ^ cv[2], v[11] ^ cv[3],
        v[12] ^ cv[4], v[13] ^ cv[5], v[14] ^ cv[6], v[15] ^ cv[7],
    ];
    assert(r@ =~= spec_compress_raw_xof(cv@, block@));
    r
}

/// Every compression output lies in the packed subspace: its odd lanes have a clear top bit.
pub proof fn lemma_compress_odd_lanes_masked(cv: Seq<u32>, block: Seq<u32>)
    ensures
        spec_compress(cv, block).len() == 8,
        forall|i: int| 0 <= i < 8 && i % 2 == 1 ==> spec_compress(cv, block)[i] <= ODD_LANE_MASK,
{
    assert forall|i: int| 0 <= i < 8 && i % 2 == 1 implies spec_compress(cv, block)[i]
        <= ODD_LANE_MASK by {
        let x = spec_compress_raw(cv, block)[i];
        assert(x & 0x7fff_ffffu32 <= 0x7fff_ffffu32) by (bit_vector);
    }
}

} // verus!
