//! Eidos hash framing: packing, padding, domain and mode separation, and length binding on top
//! of the BlakeG compression function.
//!
//! Two `u32` lanes pack into one Goldilocks element as `((hi & 0x7fff_ffff) << 32) | lo`, so an
//! eight-lane chaining value becomes a four-element word. Byte strings and field-element strings
//! use distinct modes; field hashing additionally accepts a 31-bit domain, and both modes bind
//! the exact input length into the initial chaining value.
use vstd::prelude::*;

use crate::blakeg::{self, lemma_compress_odd_lanes_masked, spec_compress, spec_compress_raw_xof, ODD_LANE_MASK};
use crate::field::{felt_values, Felt, Word, MODULUS};

verus! {

/// Number of field elements absorbed per felt-mode block.
pub const RATE: usize = 8;

/// Number of field elements in a digest.
pub const DIGEST_WIDTH: usize = 4;

/// Number of independent inputs processed side by side by the packed API.
pub const PACKED_LANES: usize = 8;

/// One packed field element: one independent value per lane.
pub type PackedFelt = [Felt; 8];

/// One packed digest: one independent digest per lane.
pub type PackedDigest = [PackedFelt; 4];

/// One packed felt-mode block: one independent block per lane.
pub type PackedBlock = [PackedFelt; 8];

/// Mode bit distinguishing byte mode from felt mode in the initial chaining value.
pub const MODE_BIT: u32 = 0x8000_0000;

/// Felt mode.
pub const FELT_MODE: u32 = 0;

/// Byte mode.
pub const BYTE_MODE: u32 = 0x8000_0000;

/// Largest user domain; the top bit is reserved for the mode.
pub const MAX_DOMAIN: u32 = 0x7fff_ffff;

/// Initial chaining-word bases. `BASE2` leaves its low lane for domain and mode, `BASE3` leaves
/// its low lane for the input length.
pub const BASE0: u64 = 0x3b67_ae85_6a09_e667;

pub const BASE1: u64 = 0x254f_f53a_3c6e_f372;

pub const BASE2: u64 = 0x1b05_688c_0000_0000;

pub const BASE3: u64 = 0x5be0_cd19_0000_0000;

// ---------------------------------------------------------------------------------------------
// Lane packing

/// The packed value of a lane pair: the high lane's top bit is cleared.
pub open spec fn pack_value(lo: u32, hi: u32) -> u64 {
    (((hi & ODD_LANE_MASK) as u64) << 32u64) | (lo as u64)
}

/// The low lane of a value.
pub open spec fn lo_lane(v: u64) -> u32 {
    (v & 0xffff_ffffu64) as u32
}

/// The high lane of a value.
pub open spec fn hi_lane(v: u64) -> u32 {
    (v >> 32u64) as u32
}

/// Packing clears only the top bit of the high lane.
pub proof fn lemma_unpack_pack(lo: u32, hi: u32)
    ensures
        lo_lane(pack_value(lo, hi)) == lo,
        hi_lane(pack_value(lo, hi)) == hi & ODD_LANE_MASK,
        pack_value(lo, hi) < 0x8000_0000_0000_0000u64,
{
    assert(((((((hi & 0x7fff_ffffu32) as u64) << 32u64) | (lo as u64)) & 0xffff_ffffu64) as u32)
        == lo) by (bit_vector);
    assert(((((((hi & 0x7fff_ffffu32) as u64) << 32u64) | (lo as u64)) >> 32u64) as u32) == hi
        & 0x7fff_ffffu32) by (bit_vector);
    assert(((((hi & 0x7fff_ffffu32) as u64) << 32u64) | (lo as u64)) < 0x8000_0000_0000_0000u64)
        by (bit_vector);
}

/// A value whose high lane has a clear top bit is rebuilt exactly from its two lanes.
pub proof fn lemma_pack_unpack(v: u64)
    requires
        v < 0x8000_0000_0000_0000u64,
    ensures
        pack_value(lo_lane(v), hi_lane(v)) == v,
        hi_lane(v) <= ODD_LANE_MASK,
{
    assert(v < 0x8000_0000_0000_0000u64 ==> ((((((v >> 32u64) as u32) & 0x7fff_ffffu32) as u64)
        << 32u64) | (((v & 0xffff_ffffu64) as u32) as u64)) == v) by (bit_vector);
    assert(v < 0x8000_0000_0000_0000u64 ==> ((v >> 32u64) as u32) <= 0x7fff_ffffu32)
        by (bit_vector);
}

/// Pack two lanes into one field element, clearing the top bit of the high lane.
pub fn pack_u32_pair(lo: u32, hi: u32) -> (r: Felt)
    ensures
        r@ == pack_value(lo, hi),
{
    proof {
        lemma_unpack_pack(lo, hi);
    }
    Felt::from_canonical(pack_u32_pair_u64(lo, hi))
}

/// Pack two lanes into one `u64`, clearing the top bit of the high lane.
pub fn pack_u32_pair_u64(lo: u32, hi: u32) -> (r: u64)
    ensures
        r == pack_value(lo, hi),
        r < 0x8000_0000_0000_0000u64,
{
    proof {
        lemma_unpack_pack(lo, hi);
    }
    (((hi & ODD_LANE_MASK) as u64) << 32) | (lo as u64)
}

/// Split a canonical field element into its low and high lanes.
pub fn unpack_u32_pair(f: Felt) -> (r: (u32, u32))
    ensures
        r == (lo_lane(f@), hi_lane(f@)),
{
    let v = f.as_canonical_u64();
    ((v & 0xffff_ffff) as u32, (v >> 32) as u32)
}

/// The eight lanes of a word of values, low lane first.
pub open spec fn word_to_cv(w: Seq<u64>) -> Seq<u32> {
    Seq::new(8, |i: int| if i % 2 == 0 { lo_lane(w[i / 2]) } else { hi_lane(w[i / 2]) })
}

/// The word of values packed from eight lanes.
pub open spec fn cv_to_word(cv: Seq<u32>) -> Seq<u64> {
    Seq::new(4, |i: int| pack_value(cv[2 * i], cv[2 * i + 1]))
}

/// Convert a packed digest word to its eight-lane chaining value.
pub fn unpack_to_cv(w: &Word) -> (r: [u32; 8])
    ensures
        r@ == word_to_cv(felt_values(w@)),
{
    let (a, b) = unpack_u32_pair(w[0]);
    let (c, d) = unpack_u32_pair(w[1]);
    let (e, f) = unpack_u32_pair(w[2]);
    let (g, h) = unpack_u32_pair(w[3]);
    let r = [a, b, c, d, e, f, g, h];
    assert(r@ =~= word_to_cv(felt_values(w@)));
    r
}

/// Convert an eight-lane chaining value to a packed digest word.
pub fn pack_to_word(cv: &[u32; 8]) -> (r: Word)
    ensures
        felt_values(r@) == cv_to_word(cv@),
{
    let r = [
        pack_u32_pair(cv[0], cv[1]),
        pack_u32_pair(cv[2], cv[3]),
        pack_u32_pair(cv[4], cv[5]),
        pack_u32_pair(cv[6], cv[7]),
    ];
    assert(felt_values(r@) =~= cv_to_word(cv@));
    r
}

/// Every packed word value lies below `2^63`, hence is a canonical field element.
pub proof fn lemma_cv_to_word_in_subspace(cv: Seq<u32>)
    ensures
        cv_to_word(cv).len() == 4,
        forall|i: int| 0 <= i < 4 ==> cv_to_word(cv)[i] < 0x8000_0000_0000_0000u64,
        forall|i: int| 0 <= i < 4 ==> cv_to_word(cv)[i] < MODULUS,
{
    assert forall|i: int| 0 <= i < 4 implies cv_to_word(cv)[i] < 0x8000_0000_0000_0000u64 by {
        lemma_unpack_pack(cv[2 * i], cv[2 * i + 1]);
    }
}

/// Unpacking then packing a chaining value whose odd lanes have a clear top bit is lossless.
pub proof fn lemma_word_cv_roundtrip(cv: Seq<u32>)
    requires
        cv.len() == 8,
        forall|i: int| 0 <= i < 8 && i % 2 == 1 ==> cv[i] <= ODD_LANE_MASK,
    ensures
        word_to_cv(cv_to_word(cv)) == cv,
{
    assert forall|i: int| 0 <= i < 8 implies word_to_cv(cv_to_word(cv))[i] == cv[i] by {
        let j = i / 2;
        lemma_unpack_pack(cv[2 * j], cv[2 * j + 1]);
        let h = cv[2 * j + 1];
        assert(h <= 0x7fff_ffffu32 ==> h & 0x7fff_ffffu32 == h) by (bit_vector);
    }
    assert(word_to_cv(cv_to_word(cv)) =~= cv);
}

// ---------------------------------------------------------------------------------------------
// Initial chaining values

/// The third initial word: `BASE2` plus domain and mode in its low lane.
pub open spec fn init_word2(domain: u32, mode: u32) -> u64 {
    (BASE2 + domain + mode) as u64
}

/// The fourth initial word: `BASE3` plus the input length in its low lane.
pub open spec fn init_word3(n: u32) -> u64 {
    (BASE3 + n) as u64
}

/// The initial chaining value for a domain, a mode and an input length.
pub open spec fn spec_init_cv(domain: u32, mode: u32, n: u32) -> Seq<u32> {
    seq![
        lo_lane(BASE0), hi_lane(BASE0),
        lo_lane(BASE1), hi_lane(BASE1),
        lo_lane(init_word2(domain, mode)), hi_lane(init_word2(domain, mode)),
        lo_lane(init_word3(n)), hi_lane(init_word3(n)),
    ]
}

/// Construct the initial chaining value without checking the domain or the mode.
pub fn init_cv_unchecked(domain: u32, mode: u32, n: u32) -> (r: [u32; 8])
    ensures
        r@ == spec_init_cv(domain, mode, n),
{
    let word2: u64 = BASE2 + (domain as u64) + (mode as u64);
    let word3: u64 = BASE3 + (n as u64);
    let r = [
        (BASE0 & 0xffff_ffff) as u32,
        (BASE0 >> 32) as u32,
        (BASE1 & 0xffff_ffff) as u32,
        (BASE1 >> 32) as u32,
        (word2 & 0xffff_ffff) as u32,
        (word2 >> 32) as u32,
        (word3 & 0xffff_ffff) as u32,
        (word3 >> 32) as u32,
    ];
    assert(r@ =~= spec_init_cv(domain, mode, n));
    r
}

/// Construct the initial chaining value; the domain must fit in 31 bits and the mode must be
/// felt mode or byte mode.
pub fn init_cv(domain: u32, mode: u32, n: u32) -> (r: [u32; 8])
    requires
        domain <= MAX_DOMAIN,
        mode == FELT_MODE || mode == BYTE_MODE,
    ensures
        r@ == spec_init_cv(domain, mode, n),
{
    init_cv_unchecked(domain, mode, n)
}

/// The initial chaining value packs into the words `BASE0`, `BASE1`, `BASE2 + domain + mode`
/// and `BASE3 + n`, and its odd lanes have a clear top bit.
pub proof fn lemma_init_cv_layout(domain: u32, mode: u32, n: u32)
    requires
        domain <= MAX_DOMAIN,
        mode == FELT_MODE || mode == BYTE_MODE,
    ensures
        cv_to_word(spec_init_cv(domain, mode, n)) == seq![
            BASE0,
            BASE1,
            (BASE2 + domain + mode) as u64,
            (BASE3 + n) as u64,
        ],
        forall|i: int|
            0 <= i < 8 && i % 2 == 1 ==> #[trigger] spec_init_cv(domain, mode, n)[i]
                <= ODD_LANE_MASK,
{
    lemma_pack_unpack(BASE0);
    lemma_pack_unpack(BASE1);
    lemma_pack_unpack(init_word2(domain, mode));
    lemma_pack_unpack(init_word3(n));
    assert(cv_to_word(spec_init_cv(domain, mode, n)) =~= seq![
        BASE0,
        BASE1,
        (BASE2 + domain + mode) as u64,
        (BASE3 + n) as u64,
    ]);
}

/// The initial chaining value determines the mode, the domain and the input length.
pub proof fn lemma_init_cv_injective(d1: u32, m1: u32, n1: u32, d2: u32, m2: u32, n2: u32)
    requires
        d1 <= MAX_DOMAIN,
        d2 <= MAX_DOMAIN,
        m1 == FELT_MODE || m1 == BYTE_MODE,
        m2 == FELT_MODE || m2 == BYTE_MODE,
        spec_init_cv(d1, m1, n1) == spec_init_cv(d2, m2, n2),
    ensures
        d1 == d2,
        m1 == m2,
        n1 == n2,
{
    lemma_init_cv_layout(d1, m1, n1);
    lemma_init_cv_layout(d2, m2, n2);
    assert(cv_to_word(spec_init_cv(d1, m1, n1))[2] == cv_to_word(spec_init_cv(d2, m2, n2))[2]);
    assert(cv_to_word(spec_init_cv(d1, m1, n1))[3] == cv_to_word(spec_init_cv(d2, m2, n2))[3]);
}

/// Check that a field element is a 31-bit domain and return it as a lane.
pub fn domain_to_u32(domain: Felt) -> (r: u32)
    requires
        domain@ <= MAX_DOMAIN,
    ensures
        r == domain@,
{
    let d = domain.as_canonical_u64();
    d as u32
}

// ---------------------------------------------------------------------------------------------
// Block encodings

/// The sixteen lanes of up to eight values (low lane first), zero-padded.
pub open spec fn value_lanes(vals: Seq<u64>) -> Seq<u32> {
    Seq::new(
        16,
        |j: int|
            if j / 2 < vals.len() {
                if j % 2 == 0 {
                    lo_lane(vals[j / 2])
                } else {
                    hi_lane(vals[j / 2])
                }
            } else {
                0u32
            },
    )
}

/// The byte at position `i` of a chunk, or zero past its end.
pub open spec fn byte_at(chunk: Seq<u8>, i: int) -> int {
    if 0 <= i < chunk.len() {
        chunk[i] as int
    } else {
        0
    }
}

/// The little-endian lane `j` of a chunk of bytes, zero-padded.
pub open spec fn le_lane(chunk: Seq<u8>, j: int) -> u32 {
    (byte_at(chunk, 4 * j) + byte_at(chunk, 4 * j + 1) * 0x100 + byte_at(chunk, 4 * j + 2)
        * 0x1_0000 + byte_at(chunk, 4 * j + 3) * 0x100_0000) as u32
}

/// The sixteen little-endian lanes of up to sixty-four bytes, zero-padded.
pub open spec fn byte_lanes(chunk: Seq<u8>) -> Seq<u32> {
    Seq::new(16, |j: int| le_lane(chunk, j))
}

/// Felt mode keeps every value whole: lanes `2i` and `2i + 1` are the low and high 32 bits of
/// value `i`, so the value is rebuilt from them; lanes past the values are zero.
pub proof fn lemma_value_lanes_hold_each_value(vals: Seq<u64>, i: int)
    requires
        vals.len() <= 8,
        0 <= i < 8,
    ensures
        i < vals.len() ==> value_lanes(vals)[2 * i] as int + value_lanes(vals)[2 * i + 1] as int
            * 0x1_0000_0000 == vals[i] as int,
        i >= vals.len() ==> value_lanes(vals)[2 * i] == 0 && value_lanes(vals)[2 * i + 1] == 0,
{
    assert((2 * i) / 2 == i && (2 * i) % 2 == 0);
    assert((2 * i + 1) / 2 == i && (2 * i + 1) % 2 == 1);
    if i < vals.len() {
        let v = vals[i];
        assert(((v & 0xffff_ffffu64) as u32) as int + ((v >> 32u64) as u32) as int * 0x1_0000_0000
            == v as int) by (bit_vector);
    }
}

/// Felt mode is injective: eight or fewer values of the same count with the same lanes are the
/// same values.
pub proof fn lemma_value_lanes_injective(a: Seq<u64>, b: Seq<u64>)
    requires
        a.len() <= 8,
        a.len() == b.len(),
        value_lanes(a) == value_lanes(b),
    ensures
        a == b,
{
    assert forall|i: int| 0 <= i < a.len() implies a[i] == b[i] by {
        lemma_value_lanes_hold_each_value(a, i);
        lemma_value_lanes_hold_each_value(b, i);
    }
    assert(a =~= b);
}

/// Encode up to eight field elements `elements[start..end]` as sixteen lanes.
fn encode_felt_chunk(elements: &[Felt], start: usize, end: usize) -> (r: [u32; 16])
    requires
        start <= end <= elements.len(),
        end - start <= RATE,
    ensures
        r@ == value_lanes(felt_values(elements@.subrange(start as int, end as int))),
{
    let ghost vals = felt_values(elements@.subrange(start as int, end as int));
    let mut block = [0u32; 16];
    let mut i: usize = start;
    while i < end
        invariant
            start <= i <= end <= elements.len(),
            end - start <= 8,
            vals == felt_values(elements@.subrange(start as int, end as int)),
            forall|j: int| 0 <= j < 2 * (i - start) ==> block@[j] == value_lanes(vals)[j],
            forall|j: int| 2 * (i - start) <= j < 16 ==> block@[j] == 0,
        decreases end - i,
    {
        let (lo, hi) = unpack_u32_pair(elements[i]);
        let p: usize = 2 * (i - start);
        block[p] = lo;
        block[p + 1] = hi;
        i = i + 1;
    }
    assert(block@ =~= value_lanes(vals));
    block
}

/// Encode up to eight field elements as one zero-padded sixteen-lane block.
pub fn encode_felt_block(chunk: &[Felt]) -> (r: [u32; 16])
    requires
        chunk.len() <= RATE,
    ensures
        r@ == value_lanes(felt_values(chunk@)),
{
    assert(chunk@.subrange(0, chunk@.len() as int) =~= chunk@);
    encode_felt_chunk(chunk, 0, chunk.len())
}

/// Encode up to eight raw 64-bit words `values[start..end]` as sixteen lanes.
fn encode_u64_chunk(values: &[u64], start: usize, end: usize) -> (r: [u32; 16])
    requires
        start <= end <= values.len(),
        end - start <= RATE,
    ensures
        r@ == value_lanes(values@.subrange(start as int, end as int)),
{
    let ghost vals = values@.subrange(start as int, end as int);
    let mut block = [0u32; 16];
    let mut i: usize = start;
    while i < end
        invariant
            start <= i <= end <= values.len(),
            end - start <= 8,
            vals == values@.subrange(start as int, end as int),
            forall|j: int| 0 <= j < 2 * (i - start) ==> block@[j] == value_lanes(vals)[j],
            forall|j: int| 2 * (i - start) <= j < 16 ==> block@[j] == 0,
        decreases end - i,
    {
        let v = values[i];
        let p: usize = 2 * (i - start);
        block[p] = (v & 0xffff_ffff) as u32;
        block[p + 1] = (v >> 32) as u32;
        i = i + 1;
    }
    assert(block@ =~= value_lanes(vals));
    block
}

/// Encode up to eight raw 64-bit words as one zero-padded sixteen-lane block.
pub fn encode_u64_block(chunk: &[u64]) -> (r: [u32; 16])
    requires
        chunk.len() <= RATE,
    ensures
        r@ == value_lanes(chunk@),
{
    assert(chunk@.subrange(0, chunk@.len() as int) =~= chunk@);
    encode_u64_chunk(chunk, 0, chunk.len())
}

/// Encode two digest words as one block: the eight elements of the first word, then the second.
pub fn encode_digest_pair(values: &[Word; 2]) -> (r: [u32; 16])
    ensures
        r@ == value_lanes(felt_values(values@[0]@) + felt_values(values@[1]@)),
{
    let l = &values[0];
    let h = &values[1];
    let (a0, a1) = unpack_u32_pair(l[0]);
    let (b0, b1) = unpack_u32_pair(l[1]);
    let (c0, c1) = unpack_u32_pair(l[2]);
    let (d0, d1) = unpack_u32_pair(l[3]);
    let (e0, e1) = unpack_u32_pair(h[0]);
    let (f0, f1) = unpack_u32_pair(h[1]);
    let (g0, g1) = unpack_u32_pair(h[2]);
    let (k0, k1) = unpack_u32_pair(h[3]);
    let r = [a0, a1, b0, b1, c0, c1, d0, d1, e0, e1, f0, f1, g0, g1, k0, k1];
    assert(r@ =~= value_lanes(felt_values(values@[0]@) + felt_values(values@[1]@)));
    r
}

proof fn lemma_le_lane_bits(b0: u32, b1: u32, b2: u32, b3: u32)
    requires
        b0 < 0x100,
        b1 < 0x100,
        b2 < 0x100,
        b3 < 0x100,
    ensures
        b0 | (b1 << 8u32) | (b2 << 16u32) | (b3 << 24u32) == (b0 + b1 * 0x100 + b2 * 0x1_0000
            + b3 * 0x100_0000) as u32,
{
    assert(b0 < 0x100 && b1 < 0x100 && b2 < 0x100 && b3 < 0x100 ==> b0 | (b1 << 8u32) | (b2
        << 16u32) | (b3 << 24u32) == (b0 + b1 * 0x100 + b2 * 0x1_0000 + b3 * 0x100_0000) as u32)
        by (bit_vector);
}

fn byte_or_zero(bytes: &[u8], start: usize, end: usize, off: usize) -> (r: u32)
    requires
        start <= end <= bytes.len(),
    ensures
        r < 0x100,
        off < end - start ==> r == bytes@[start + off],
        off >= end - start ==> r == 0,
{
    if off < end - start {
        bytes[start + off] as u32
    } else {
        0
    }
}

/// Encode up to sixty-four bytes `bytes[start..end]` as sixteen little-endian lanes.
fn encode_byte_chunk(bytes: &[u8], start: usize, end: usize) -> (r: [u32; 16])
    requires
        start <= end <= bytes.len(),
        end - start <= 64,
    ensures
        r@ == byte_lanes(bytes@.subrange(start as int, end as int)),
{
    let ghost chunk = bytes@.subrange(start as int, end as int);
    let mut block = [0u32; 16];
    let mut j: usize = 0;
    while j < 16
        invariant
            start <= end <= bytes.len(),
            end - start <= 64,
            chunk == bytes@.subrange(start as int, end as int),
            j <= 16,
            forall|t: int| 0 <= t < j ==> block@[t] == le_lane(chunk, t),
        decreases 16 - j,
    {
        let off = 4 * j;
        let b0 = byte_or_zero(bytes, start, end, off);
        let b1 = byte_or_zero(bytes, start, end, off + 1);
        let b2 = byte_or_zero(bytes, start, end, off + 2);
        let b3 = byte_or_zero(bytes, start, end, off + 3);
        proof {
            lemma_le_lane_bits(b0, b1, b2, b3);
            assert(b0 == byte_at(chunk, 4 * j));
            assert(b1 == byte_at(chunk, 4 * j + 1));
            assert(b2 == byte_at(chunk, 4 * j + 2));
            assert(b3 == byte_at(chunk, 4 * j + 3));
        }
        block[j] = b0 | (b1 << 8) | (b2 << 16) | (b3 << 24);
        j = j + 1;
    }
    assert(block@ =~= byte_lanes(chunk));
    block
}

proof fn lemma_le_word_bytes(b0: u32, b1: u32, b2: u32, b3: u32)
    requires
        b0 < 0x100,
        b1 < 0x100,
        b2 < 0x100,
        b3 < 0x100,
    ensures
        b0 + b1 * 0x100 + b2 * 0x1_0000 + b3 * 0x100_0000 < 0x1_0000_0000,
        ((b0 + b1 * 0x100 + b2 * 0x1_0000 + b3 * 0x100_0000) as u32) & 0xff == b0,
        (((b0 + b1 * 0x100 + b2 * 0x1_0000 + b3 * 0x100_0000) as u32) >> 8u32) & 0xff == b1,
        (((b0 + b1 * 0x100 + b2 * 0x1_0000 + b3 * 0x100_0000) as u32) >> 16u32) & 0xff == b2,
        (((b0 + b1 * 0x100 + b2 * 0x1_0000 + b3 * 0x100_0000) as u32) >> 24u32) & 0xff == b3,
{
    assert(b0 < 0x100 && b1 < 0x100 && b2 < 0x100 && b3 < 0x100 ==> {
        &&& b0 + b1 * 0x100 + b2 * 0x1_0000 + b3 * 0x100_0000 < 0x1_0000_0000
        &&& ((b0 + b1 * 0x100 + b2 * 0x1_0000 + b3 * 0x100_0000) as u32) & 0xff == b0
        &&& (((b0 + b1 * 0x100 + b2 * 0x1_0000 + b3 * 0x100_0000) as u32) >> 8u32) & 0xff == b1
        &&& (((b0 + b1 * 0x100 + b2 * 0x1_0000 + b3 * 0x100_0000) as u32) >> 16u32) & 0xff == b2
        &&& (((b0 + b1 * 0x100 + b2 * 0x1_0000 + b3 * 0x100_0000) as u32) >> 24u32) & 0xff == b3
    }) by (bit_vector);
}

/// Byte mode keeps every byte whole: lane `j` of a chunk is the plain little-endian word of its
/// bytes `4j..4j+3` (zero past the end), so byte `i` can be read back from bits `8 * (i % 4)` of
/// lane `i / 4`, whatever its value.
pub proof fn lemma_byte_lanes_hold_each_byte(chunk: Seq<u8>, i: int)
    requires
        chunk.len() <= 64,
        0 <= i < chunk.len(),
    ensures
        byte_lanes(chunk)[i / 4] as int == byte_at(chunk, 4 * (i / 4)) + byte_at(chunk, 4 * (i / 4) + 1)
            * 0x100 + byte_at(chunk, 4 * (i / 4) + 2) * 0x1_0000 + byte_at(chunk, 4 * (i / 4) + 3)
            * 0x100_0000,
        (byte_lanes(chunk)[i / 4] >> ((8 * (i % 4)) as u32)) & 0xff == chunk[i] as u32,
{
    let j = i / 4;
    let b0 = byte_at(chunk, 4 * j) as u32;
    let b1 = byte_at(chunk, 4 * j + 1) as u32;
    let b2 = byte_at(chunk, 4 * j + 2) as u32;
    let b3 = byte_at(chunk, 4 * j + 3) as u32;
    lemma_le_word_bytes(b0, b1, b2, b3);
    assert(byte_lanes(chunk)[j] == le_lane(chunk, j));
    assert(i == 4 * j + i % 4);
    if i % 4 == 0 {
        assert(((8 * (i % 4)) as u32) == 0u32);
        let w = byte_lanes(chunk)[j];
        assert(w >> 0u32 == w) by (bit_vector);
    }
}

/// Byte mode is injective: two chunks of the same length with the same lanes are the same bytes.
pub proof fn lemma_byte_lanes_injective(a: Seq<u8>, b: Seq<u8>)
    requires
        a.len() <= 64,
        a.len() == b.len(),
        byte_lanes(a) == byte_lanes(b),
    ensures
        a == b,
{
    assert forall|i: int| 0 <= i < a.len() implies a[i] == b[i] by {
        lemma_byte_lanes_hold_each_byte(a, i);
        lemma_byte_lanes_hold_each_byte(b, i);
    }
    assert(a =~= b);
}

/// Encode up to sixty-four bytes as sixteen little-endian lanes, zero-padded; every byte can be
/// read back from its lane.
pub fn encode_byte_block(chunk: &[u8]) -> (r: [u32; 16])
    requires
        chunk.len() <= 64,
    ensures
        r@ == byte_lanes(chunk@),
        forall|i: int|
            0 <= i < chunk@.len() ==> (r@[i / 4] >> ((8 * (i % 4)) as u32)) & 0xff == chunk@[i] as u32,
{
    assert(chunk@.subrange(0, chunk@.len() as int) =~= chunk@);
    let r = encode_byte_chunk(chunk, 0, chunk.len());
    proof {
        assert forall|i: int| 0 <= i < chunk@.len() implies (r@[i / 4] >> ((8 * (i % 4)) as u32))
            & 0xff == chunk@[i] as u32 by {
            lemma_byte_lanes_hold_each_byte(chunk@, i);
        }
    }
    r
}

// ---------------------------------------------------------------------------------------------
// Block schedule and sponge

/// The smaller of two integers.
pub open spec fn min_int(a: int, b: int) -> int {
    if a <= b {
        a
    } else {
        b
    }
}

/// The number of blocks absorbed for `n` items at `rate` items per block; an empty input is
/// absorbed as one all-zero block.
pub open spec fn num_blocks(n: int, rate: int) -> int {
    if n == 0 {
        1
    } else {
        (n + rate - 1) / rate
    }
}

/// The `k`-th chunk of `rate` items; the last chunk may be shorter.
pub open spec fn chunk_of<A>(s: Seq<A>, k: int, rate: int) -> Seq<A> {
    s.subrange(k * rate, min_int(k * rate + rate, s.len() as int))
}

/// The felt-mode blocks of a sequence of values: full blocks, then a zero-padded final block.
pub open spec fn felt_blocks(vals: Seq<u64>) -> Seq<Seq<u32>> {
    Seq::new(num_blocks(vals.len() as int, 8) as nat, |k: int| value_lanes(chunk_of(vals, k, 8)))
}

/// The byte-mode blocks of a byte string: full 64-byte blocks, then a zero-padded final block.
pub open spec fn byte_blocks(bytes: Seq<u8>) -> Seq<Seq<u32>> {
    Seq::new(num_blocks(bytes.len() as int, 64) as nat, |k: int| byte_lanes(chunk_of(bytes, k, 64)))
}

/// Felt mode loses no value: two sequences of the same length whose felt-mode blocks agree are
/// the same sequence.
pub proof fn lemma_felt_blocks_injective(a: Seq<u64>, b: Seq<u64>)
    requires
        a.len() == b.len(),
        felt_blocks(a) == felt_blocks(b),
    ensures
        a == b,
{
    assert forall|i: int| 0 <= i < a.len() implies a[i] == b[i] by {
        let k = i / 8;
        assert(0 <= k && k * 8 <= i < k * 8 + 8) by (nonlinear_arith)
            requires
                k == i / 8,
                0 <= i,
        ;
        lemma_num_blocks(a.len() as int, 8, k);
        assert(felt_blocks(a)[k] == felt_blocks(b)[k]);
        let ca = chunk_of(a, k, 8);
        let cb = chunk_of(b, k, 8);
        lemma_value_lanes_injective(ca, cb);
        assert(ca[i - k * 8] == a[i]);
        assert(cb[i - k * 8] == b[i]);
    }
    assert(a =~= b);
}

/// Byte mode loses no byte: two byte strings of the same length whose byte-mode blocks agree are
/// the same string, so strings differing in any byte are absorbed as different blocks.
pub proof fn lemma_byte_blocks_injective(a: Seq<u8>, b: Seq<u8>)
    requires
        a.len() == b.len(),
        byte_blocks(a) == byte_blocks(b),
    ensures
        a == b,
{
    assert forall|i: int| 0 <= i < a.len() implies a[i] == b[i] by {
        let k = i / 64;
        assert(0 <= k && k * 64 <= i < k * 64 + 64) by (nonlinear_arith)
            requires
                k == i / 64,
                0 <= i,
        ;
        lemma_num_blocks(a.len() as int, 64, k);
        assert(byte_blocks(a)[k] == byte_blocks(b)[k]);
        let ca = chunk_of(a, k, 64);
        let cb = chunk_of(b, k, 64);
        assert(ca.len() <= 64);
        lemma_byte_lanes_injective(ca, cb);
        assert(ca[i - k * 64] == a[i]);
        assert(cb[i - k * 64] == b[i]);
    }
    assert(a =~= b);
}

/// The chaining value after compressing `blocks` in order, starting from `cv`.
pub open spec fn absorb(cv: Seq<u32>, blocks: Seq<Seq<u32>>) -> Seq<u32>
    decreases blocks.len(),
{
    if blocks.len() == 0 {
        cv
    } else {
        spec_compress(absorb(cv, blocks.drop_last()), blocks.last())
    }
}

/// The felt-mode digest of a sequence of values under a domain.
pub open spec fn spec_hash_values(vals: Seq<u64>, domain: u32) -> Seq<u64> {
    cv_to_word(absorb(spec_init_cv(domain, FELT_MODE, vals.len() as u32), felt_blocks(vals)))
}

/// The byte-mode digest of a byte string.
pub open spec fn spec_hash_bytes(bytes: Seq<u8>) -> Seq<u64> {
    cv_to_word(absorb(spec_init_cv(0, BYTE_MODE, bytes.len() as u32), byte_blocks(bytes)))
}

/// One compression of a block of values under a packed chaining word.
pub open spec fn spec_compress_word(cv: Seq<u64>, block: Seq<u64>) -> Seq<u64> {
    cv_to_word(spec_compress(word_to_cv(cv), value_lanes(block)))
}

/// The two-to-one compression of eight values (two words) under a domain.
pub open spec fn spec_merge_values(pair: Seq<u64>, domain: u32) -> Seq<u64> {
    cv_to_word(spec_compress(spec_init_cv(domain, FELT_MODE, 8), value_lanes(pair)))
}

/// The elements of a sequence of words, in order.
pub open spec fn flatten_words(words: Seq<Word>) -> Seq<Felt>
    decreases words.len(),
{
    if words.len() == 0 {
        Seq::empty()
    } else {
        flatten_words(words.drop_last()) + words.last()@
    }
}

proof fn lemma_num_blocks(n: int, rate: int, k: int)
    requires
        n > 0,
        rate > 0,
        k >= 0,
    ensures
        k < num_blocks(n, rate) <==> k * rate < n,
{
    assert(k < (n + rate - 1) / rate <==> k * rate < n) by (nonlinear_arith)
        requires
            n > 0,
            rate > 0,
            k >= 0,
    ;
}

proof fn lemma_absorb_step(cv: Seq<u32>, blocks: Seq<Seq<u32>>, k: int)
    requires
        0 <= k < blocks.len(),
    ensures
        absorb(cv, blocks.take(k + 1)) == spec_compress(absorb(cv, blocks.take(k)), blocks[k]),
{
    assert(blocks.take(k + 1).drop_last() =~= blocks.take(k));
}

proof fn lemma_felt_values_subrange(s: Seq<Felt>, a: int, b: int)
    requires
        0 <= a <= b <= s.len(),
    ensures
        felt_values(s.subrange(a, b)) == felt_values(s).subrange(a, b),
{
    assert(felt_values(s.subrange(a, b)) =~= felt_values(s).subrange(a, b));
}

/// Absorb the felt-mode blocks of a non-empty sequence of field elements.
fn absorb_felts(cv0: [u32; 8], elements: &[Felt]) -> (r: [u32; 8])
    requires
        elements.len() > 0,
    ensures
        r@ == absorb(cv0@, felt_blocks(felt_values(elements@))),
{
    let n = elements.len();
    let ghost vals = felt_values(elements@);
    let ghost blocks = felt_blocks(vals);
    let mut cv = cv0;
    let mut start: usize = 0;
    let ghost mut k: int = 0;
    while start < n
        invariant
            n == elements.len(),
            n > 0,
            vals == felt_values(elements@),
            blocks == felt_blocks(vals),
            0 <= k <= num_blocks(n as int, 8),
            start == min_int(8 * k, n as int),
            cv@ == absorb(cv0@, blocks.take(k)),
        decreases n - start,
    {
        proof {
            lemma_num_blocks(n as int, 8, k);
        }
        let end = if n - start <= RATE {
            n
        } else {
            start + RATE
        };
        let block = encode_felt_chunk(elements, start, end);
        proof {
            lemma_felt_values_subrange(elements@, start as int, end as int);
            assert(chunk_of(vals, k, 8) == vals.subrange(start as int, end as int));
            assert(blocks[k] == block@);
            lemma_absorb_step(cv0@, blocks, k);
        }
        cv = blakeg::compress(cv, block);
        start = end;
        proof {
            k = k + 1;
        }
    }
    proof {
        lemma_num_blocks(n as int, 8, k);
        assert(blocks.take(k) =~= blocks);
    }
    cv
}

/// Absorb the felt-mode blocks of a non-empty sequence of raw 64-bit words.
fn absorb_u64s(cv0: [u32; 8], values: &[u64]) -> (r: [u32; 8])
    requires
        values.len() > 0,
    ensures
        r@ == absorb(cv0@, felt_blocks(values@)),
{
    let n = values.len();
    let ghost blocks = felt_blocks(values@);
    let mut cv = cv0;
    let mut start: usize = 0;
    let ghost mut k: int = 0;
    while start < n
        invariant
            n == values.len(),
            n > 0,
            blocks == felt_blocks(values@),
            0 <= k <= num_blocks(n as int, 8),
            start == min_int(8 * k, n as int),
            cv@ == absorb(cv0@, blocks.take(k)),
        decreases n - start,
    {
        proof {
            lemma_num_blocks(n as int, 8, k);
        }
        let end = if n - start <= RATE {
            n
        } else {
            start + RATE
        };
        let block = encode_u64_chunk(values, start, end);
        proof {
            assert(blocks[k] == block@);
            lemma_absorb_step(cv0@, blocks, k);
        }
        cv = blakeg::compress(cv, block);
        start = end;
        proof {
            k = k + 1;
        }
    }
    proof {
        lemma_num_blocks(n as int, 8, k);
        assert(blocks.take(k) =~= blocks);
    }
    cv
}

/// Absorb the byte-mode blocks of a non-empty byte string.
fn absorb_bytes(cv0: [u32; 8], bytes: &[u8]) -> (r: [u32; 8])
    requires
        bytes.len() > 0,
    ensures
        r@ == absorb(cv0@, byte_blocks(bytes@)),
{
    let n = bytes.len();
    let ghost blocks = byte_blocks(bytes@);
    let mut cv = cv0;
    let mut start: usize = 0;
    let ghost mut k: int = 0;
    while start < n
        invariant
            n == bytes.len(),
            n > 0,
            blocks == byte_blocks(bytes@),
            0 <= k <= num_blocks(n as int, 64),
            start == min_int(64 * k, n as int),
            cv@ == absorb(cv0@, blocks.take(k)),
        decreases n - start,
    {
        proof {
            lemma_num_blocks(n as int, 64, k);
        }
        let end = if n - start <= 64 {
            n
        } else {
            start + 64
        };
        let block = encode_byte_chunk(bytes, start, end);
        proof {
            assert(blocks[k] == block@);
            lemma_absorb_step(cv0@, blocks, k);
        }
        cv = blakeg::compress(cv, block);
        start = end;
        proof {
            k = k + 1;
        }
    }
    proof {
        lemma_num_blocks(n as int, 64, k);
        assert(blocks.take(k) =~= blocks);
    }
    cv
}

proof fn lemma_empty_blocks_felt(vals: Seq<u64>)
    requires
        vals.len() == 0,
    ensures
        felt_blocks(vals) == seq![value_lanes(vals)],
        value_lanes(vals) == Seq::new(16, |j: int| 0u32),
{
    assert(chunk_of(vals, 0, 8) =~= vals);
    assert(felt_blocks(vals) =~= seq![value_lanes(vals)]);
    assert(value_lanes(vals) =~= Seq::new(16, |j: int| 0u32));
}

proof fn lemma_absorb_one(cv: Seq<u32>, block: Seq<u32>)
    ensures
        absorb(cv, seq![block]) == spec_compress(cv, block),
{
    assert(seq![block].drop_last() =~= Seq::<Seq<u32>>::empty());
    assert(absorb(cv, Seq::<Seq<u32>>::empty()) == cv);
    assert(seq![block].last() == block);
}

// ---------------------------------------------------------------------------------------------
// Scalar compression helpers

/// The lanes of the one-block transcript seed: the selector in lane zero, zeros elsewhere.
pub open spec fn selector_block(selector: u32) -> Seq<u32> {
    Seq::new(16, |i: int| if i == 0 { selector } else { 0u32 })
}

/// The all-zero chaining value.
pub open spec fn zero_cv() -> Seq<u32> {
    Seq::new(8, |i: int| 0u32)
}

fn zero_block() -> (r: [u32; 16])
    ensures
        r@ == Seq::new(16, |j: int| 0u32),
{
    let r = [0u32, 0, 0, 0, 0, 0, 0, 0, 0, 0, 0, 0, 0, 0, 0, 0];
    assert(r@ =~= Seq::new(16, |j: int| 0u32));
    r
}

fn felt_rate_cv() -> (r: [u32; 8])
    ensures
        r@ == spec_init_cv(0, FELT_MODE, 8),
{
    init_cv_unchecked(0, FELT_MODE, 8)
}

/// Compress one full felt-mode block under a packed chaining word.
pub fn compress_felt_block(cv: &Word, block: &[Felt; 8]) -> (r: Word)
    ensures
        felt_values(r@) == spec_compress_word(felt_values(cv@), felt_values(block@)),
{
    let lanes = unpack_to_cv(cv);
    let block_lanes = encode_felt_block(block);
    pack_to_word(&blakeg::compress(lanes, block_lanes))
}

/// Compress two digest words as one block under the given chaining value.
fn compress_digest_pair(values: &[Word; 2], cv: [u32; 8]) -> (r: Word)
    ensures
        felt_values(r@) == cv_to_word(
            spec_compress(cv@, value_lanes(felt_values(values@[0]@) + felt_values(values@[1]@))),
        ),
{
    pack_to_word(&blakeg::compress(cv, encode_digest_pair(values)))
}

/// The digest words packed from a chaining value, as raw 64-bit words.
pub fn pack_cv_to_u64s(cv: &[u32; 8]) -> (r: [u64; 4])
    ensures
        r@ == cv_to_word(cv@),
{
    let r = [
        pack_u32_pair_u64(cv[0], cv[1]),
        pack_u32_pair_u64(cv[2], cv[3]),
        pack_u32_pair_u64(cv[4], cv[5]),
        pack_u32_pair_u64(cv[6], cv[7]),
    ];
    assert(r@ =~= cv_to_word(cv@));
    r
}

proof fn lemma_flatten_step(words: Seq<Word>, i: int)
    requires
        0 <= i < words.len(),
    ensures
        flatten_words(words.take(i + 1)) == flatten_words(words.take(i)) + words[i]@,
{
    assert(words.take(i + 1).drop_last() =~= words.take(i));
}

/// Hash one full felt-mode block of raw 64-bit words under domain 0.
pub fn compress_u64_block(block: &[u64; 8]) -> (r: [u64; 4])
    ensures
        r@ == spec_merge_values(block@, 0),
{
    let cv = felt_rate_cv();
    pack_cv_to_u64s(&blakeg::compress(cv, encode_u64_block(block)))
}

/// Hash raw 64-bit words in felt mode under domain 0, without reducing them modulo the field
/// order.
pub fn hash_u64_words(values: &[u64]) -> (r: [u64; 4])
    requires
        values.len() <= u32::MAX,
    ensures
        r@ == spec_hash_values(values@, 0),
{
    let n = values.len();
    let cv = init_cv(0, FELT_MODE, n as u32);
    if n == 0 {
        let out = blakeg::compress(cv, zero_block());
        proof {
            lemma_empty_blocks_felt(values@);
            lemma_absorb_one(cv@, value_lanes(values@));
        }
        pack_cv_to_u64s(&out)
    } else {
        pack_cv_to_u64s(&absorb_u64s(cv, values))
    }
}

/// The Eidos hash construction.
///
/// Byte strings and field-element strings use distinct modes. Field hashing additionally accepts
/// a 31-bit domain, and both modes bind the exact input length into the initial chaining value.
/// Digests occupy a 252-bit packed subspace.
#[derive(Debug, Clone, Copy, PartialEq, Eq)]
pub struct Eidos;

impl Eidos {
    /// Compress one full felt-mode block under a packed chaining word.
    ///
    /// This resumable primitive adds no framing or padding: callers select the initial chaining
    /// word with [`Eidos::init_chaining_word`] and supply exactly the blocks implied by the bound
    /// total length.
    pub fn compress_block(cv: Word, block: [Felt; 8]) -> (r: Word)
        ensures
            felt_values(r@) == spec_compress_word(felt_values(cv@), felt_values(block@)),
    {
        compress_felt_block(&cv, &block)
    }

    /// The sixteen raw BlakeG extendable-output lanes for one full felt-mode block, each embedded
    /// as a field element. This is output material, not a digest.
    pub fn compress_xof_block(cv: Word, block: [Felt; 8]) -> (r: [Felt; 16])
        ensures
            forall|i: int|
                0 <= i < 16 ==> #[trigger] r@[i]@ == spec_compress_raw_xof(
                    word_to_cv(felt_values(cv@)),
                    value_lanes(felt_values(block@)),
                )[i],
    {
        let lanes = unpack_to_cv(&cv);
        let block_lanes = encode_felt_block(&block);
        let x = blakeg::compress_raw_xof(lanes, block_lanes);
        let r = [
            Felt::from_u32(x[0]), Felt::from_u32(x[1]), Felt::from_u32(x[2]),
            Felt::from_u32(x[3]), Felt::from_u32(x[4]), Felt::from_u32(x[5]),
            Felt::from_u32(x[6]), Felt::from_u32(x[7]), Felt::from_u32(x[8]),
            Felt::from_u32(x[9]), Felt::from_u32(x[10]), Felt::from_u32(x[11]),
            Felt::from_u32(x[12]), Felt::from_u32(x[13]), Felt::from_u32(x[14]),
            Felt::from_u32(x[15]),
        ];
        r
    }

    /// The transcript seed for a 31-bit selector: one compression of the selector block under
    /// the all-zero chaining value.
    pub fn transcript_init_cv(selector: u32) -> (r: Word)
        requires
            selector <= MAX_DOMAIN,
        ensures
            felt_values(r@) == cv_to_word(spec_compress(zero_cv(), selector_block(selector))),
    {
        let mut block = [0u32; 16];
        block[0] = selector;
        assert(block@ =~= selector_block(selector));
        let cv = [0u32; 8];
        assert(cv@ =~= zero_cv());
        pack_to_word(&blakeg::compress(cv, block))
    }

    /// The felt-mode initial chaining word for a 31-bit domain and a total length of `n`
    /// elements (the whole message, not the next block).
    pub fn init_chaining_word(domain: u32, n: u32) -> (r: Word)
        requires
            domain <= MAX_DOMAIN,
        ensures
            felt_values(r@) == cv_to_word(spec_init_cv(domain, FELT_MODE, n)),
            felt_values(r@) == seq![BASE0, BASE1, (BASE2 + domain) as u64, (BASE3 + n) as u64],
    {
        proof {
            lemma_init_cv_layout(domain, FELT_MODE, n);
        }
        pack_to_word(&init_cv(domain, FELT_MODE, n))
    }

    /// Hash a byte string in byte mode.
    pub fn hash(bytes: &[u8]) -> (r: Word)
        requires
            bytes.len() <= u32::MAX,
        ensures
            felt_values(r@) == spec_hash_bytes(bytes@),
    {
        let n = bytes.len();
        let cv = init_cv(0, BYTE_MODE, n as u32);
        if n == 0 {
            let out = blakeg::compress(cv, zero_block());
            proof {
                assert(chunk_of(bytes@, 0, 64) =~= bytes@);
                assert(byte_blocks(bytes@) =~= seq![byte_lanes(bytes@)]);
                assert(byte_lanes(bytes@) =~= Seq::new(16, |j: int| 0u32));
                lemma_absorb_one(cv@, byte_lanes(bytes@));
            }
            pack_to_word(&out)
        } else {
            pack_to_word(&absorb_bytes(cv, bytes))
        }
    }

    /// Hash field elements in felt mode under domain 0.
    pub fn hash_elements(elements: &[Felt]) -> (r: Word)
        requires
            elements.len() <= u32::MAX,
        ensures
            felt_values(r@) == spec_hash_values(felt_values(elements@), 0),
    {
        Self::hash_elements_in_domain(elements, Felt::zero())
    }

    /// Hash field elements in felt mode under a 31-bit user domain.
    pub fn hash_elements_in_domain(elements: &[Felt], domain: Felt) -> (r: Word)
        requires
            elements.len() <= u32::MAX,
            domain@ <= MAX_DOMAIN,
        ensures
            felt_values(r@) == spec_hash_values(felt_values(elements@), domain@ as u32),
    {
        let domain_u32 = domain_to_u32(domain);
        let n = elements.len();
        let cv = init_cv(domain_u32, FELT_MODE, n as u32);
        if n == 0 {
            let out = blakeg::compress(cv, zero_block());
            proof {
                lemma_empty_blocks_felt(felt_values(elements@));
                lemma_absorb_one(cv@, value_lanes(felt_values(elements@)));
            }
            pack_to_word(&out)
        } else {
            pack_to_word(&absorb_felts(cv, elements))
        }
    }

    /// Hash two digest words under domain 0.
    pub fn merge(values: &[Word; 2]) -> (r: Word)
        ensures
            felt_values(r@) == spec_merge_values(
                felt_values(values@[0]@) + felt_values(values@[1]@),
                0,
            ),
    {
        compress_digest_pair(values, felt_rate_cv())
    }

    /// Hash two digest words under a 31-bit user domain.
    pub fn merge_in_domain(values: &[Word; 2], domain: Felt) -> (r: Word)
        requires
            domain@ <= MAX_DOMAIN,
        ensures
            felt_values(r@) == spec_merge_values(
                felt_values(values@[0]@) + felt_values(values@[1]@),
                domain@ as u32,
            ),
    {
        let domain_u32 = domain_to_u32(domain);
        let cv = if domain_u32 == 0 {
            felt_rate_cv()
        } else {
            init_cv(domain_u32, FELT_MODE, 8)
        };
        compress_digest_pair(values, cv)
    }

    /// Hash a sequence of digest words, as the concatenation of their elements, under domain 0.
    pub fn merge_many(values: &[Word]) -> (r: Word)
        requires
            4 * values.len() <= u32::MAX,
        ensures
            felt_values(r@) == spec_hash_values(felt_values(flatten_words(values@)), 0),
    {
        let mut elements: Vec<Felt> = Vec::new();
        let mut i: usize = 0;
        while i < values.len()
            invariant
                i <= values.len(),
                elements@ == flatten_words(values@.take(i as int)),
                elements@.len() == 4 * i,
            decreases values.len() - i,
        {
            let w = &values[i];
            let ghost before = elements@;
            elements.push(w[0]);
            elements.push(w[1]);
            elements.push(w[2]);
            elements.push(w[3]);
            proof {
                lemma_flatten_step(values@, i as int);
                assert(elements@ =~= before + w@);
            }
            i = i + 1;
        }
        proof {
            assert(values@.take(values@.len() as int) =~= values@);
        }
        Self::hash_elements(&elements)
    }
}

// ---------------------------------------------------------------------------------------------
// Laws

/// Merging two words is hashing their eight elements: same domain, same length, one block.
pub proof fn lemma_merge_is_hash_of_concat(pair: Seq<u64>, domain: u32)
    requires
        pair.len() == 8,
    ensures
        spec_merge_values(pair, domain) == spec_hash_values(pair, domain),
{
    assert(chunk_of(pair, 0, 8) =~= pair);
    assert(felt_blocks(pair) =~= seq![value_lanes(pair)]);
    lemma_absorb_one(spec_init_cv(domain, FELT_MODE, 8), value_lanes(pair));
}

/// The chaining word after compressing the first `k` full blocks of `vals` in order, starting
/// from the chaining word `cv`: the resumable API driven block by block.
pub open spec fn spec_resume(cv: Seq<u64>, vals: Seq<u64>, k: nat) -> Seq<u64>
    decreases k,
{
    if k == 0 {
        cv
    } else {
        spec_compress_word(spec_resume(cv, vals, (k - 1) as nat), chunk_of(vals, k - 1, 8))
    }
}

proof fn lemma_resume_prefix(domain: u32, vals: Seq<u64>, j: nat)
    requires
        domain <= MAX_DOMAIN,
        vals.len() % 8 == 0,
        8 * j <= vals.len(),
    ensures
        spec_resume(cv_to_word(spec_init_cv(domain, FELT_MODE, vals.len() as u32)), vals, j)
            == cv_to_word(
            absorb(
                spec_init_cv(domain, FELT_MODE, vals.len() as u32),
                felt_blocks(vals).take(j as int),
            ),
        ),
        forall|i: int|
            0 <= i < 8 && i % 2 == 1 ==> #[trigger] absorb(
                spec_init_cv(domain, FELT_MODE, vals.len() as u32),
                felt_blocks(vals).take(j as int),
            )[i] <= ODD_LANE_MASK,
        absorb(spec_init_cv(domain, FELT_MODE, vals.len() as u32), felt_blocks(vals).take(j as int)).len()
            == 8,
    decreases j,
{
    let cv0 = spec_init_cv(domain, FELT_MODE, vals.len() as u32);
    let blocks = felt_blocks(vals);
    if vals.len() > 0 {
        assert(num_blocks(vals.len() as int, 8) == vals.len() / 8);
    }
    if j == 0 {
        assert(blocks.take(0) =~= Seq::<Seq<u32>>::empty());
        lemma_init_cv_layout(domain, FELT_MODE, vals.len() as u32);
    } else {
        lemma_resume_prefix(domain, vals, (j - 1) as nat);
        let prev = absorb(cv0, blocks.take(j - 1));
        assert(blocks.take(j as int).drop_last() =~= blocks.take(j - 1));
        assert(blocks.take(j as int).last() == blocks[j - 1]);
        assert(blocks[j - 1] == value_lanes(chunk_of(vals, j - 1, 8)));
        lemma_word_cv_roundtrip(prev);
        lemma_compress_odd_lanes_masked(prev, blocks[j - 1]);
    }
}

/// Resuming is hashing: for an input of `8k` elements (`k >= 1`), compressing its `k` blocks in
/// order from the initial chaining word of its domain and total length gives its digest.
pub proof fn lemma_resumable_chain_is_hash(domain: u32, vals: Seq<u64>)
    requires
        domain <= MAX_DOMAIN,
        vals.len() > 0,
        vals.len() % 8 == 0,
        vals.len() <= u32::MAX,
    ensures
        spec_resume(
            cv_to_word(spec_init_cv(domain, FELT_MODE, vals.len() as u32)),
            vals,
            (vals.len() / 8) as nat,
        ) == spec_hash_values(vals, domain),
{
    let k = (vals.len() / 8) as nat;
    lemma_resume_prefix(domain, vals, k);
    assert(num_blocks(vals.len() as int, 8) == k);
    assert(felt_blocks(vals).take(k as int) =~= felt_blocks(vals));
}

/// Every felt-mode digest is a word of canonical field elements in the 252-bit subspace.
pub proof fn lemma_hash_values_in_subspace(vals: Seq<u64>, domain: u32)
    ensures
        spec_hash_values(vals, domain).len() == 4,
        forall|i: int|
            0 <= i < 4 ==> #[trigger] spec_hash_values(vals, domain)[i]
                < 0x8000_0000_0000_0000u64,
{
    lemma_cv_to_word_in_subspace(
        absorb(spec_init_cv(domain, FELT_MODE, vals.len() as u32), felt_blocks(vals)),
    );
}

/// Every byte-mode digest is a word of canonical field elements in the 252-bit subspace.
pub proof fn lemma_hash_bytes_in_subspace(bytes: Seq<u8>)
    ensures
        spec_hash_bytes(bytes).len() == 4,
        forall|i: int| 0 <= i < 4 ==> #[trigger] spec_hash_bytes(bytes)[i] < 0x8000_0000_0000_0000u64,
{
    lemma_cv_to_word_in_subspace(
        absorb(spec_init_cv(0, BYTE_MODE, bytes.len() as u32), byte_blocks(bytes)),
    );
}

// ---------------------------------------------------------------------------------------------
// Packed API: independent lanes side by side

/// Lane `lane` of each row of a packed value.
pub open spec fn column(rows: Seq<PackedFelt>, lane: int) -> Seq<Felt> {
    rows.map_values(|row: PackedFelt| row@[lane])
}

fn lane_word(cv: &PackedDigest, lane: usize) -> (r: Word)
    requires
        lane < PACKED_LANES,
    ensures
        r@ == column(cv@, lane as int),
{
    let r = [cv[0][lane], cv[1][lane], cv[2][lane], cv[3][lane]];
    assert(r@ =~= column(cv@, lane as int));
    r
}

fn lane_block(block: &PackedBlock, lane: usize) -> (r: [Felt; 8])
    requires
        lane < PACKED_LANES,
    ensures
        r@ == column(block@, lane as int),
{
    let r = [
        block[0][lane], block[1][lane], block[2][lane], block[3][lane],
        block[4][lane], block[5][lane], block[6][lane], block[7][lane],
    ];
    assert(r@ =~= column(block@, lane as int));
    r
}

fn set_lane(out: &mut PackedDigest, lane: usize, w: &Word)
    requires
        lane < PACKED_LANES,
    ensures
        column(final(out)@, lane as int) == w@,
        forall|l: int| 0 <= l < 8 && l != lane ==> column(final(out)@, l) == column(old(out)@, l),
{
    let mut r0 = out[0];
    let mut r1 = out[1];
    let mut r2 = out[2];
    let mut r3 = out[3];
    r0[lane] = w[0];
    r1[lane] = w[1];
    r2[lane] = w[2];
    r3[lane] = w[3];
    *out = [r0, r1, r2, r3];
    proof {
        assert(column(out@, lane as int) =~= w@);
        assert forall|l: int| 0 <= l < 8 && l != lane implies column(out@, l) == column(
            old(out)@,
            l,
        ) by {
            assert(column(out@, l) =~= column(old(out)@, l));
        }
    }
}

fn zero_packed_felt() -> (r: PackedFelt)
    ensures
        forall|l: int| 0 <= l < 8 ==> (#[trigger] r@[l])@ == 0,
{
    [Felt::zero(); 8]
}

fn zero_packed_digest() -> (r: PackedDigest)
    ensures
        forall|i: int, l: int| 0 <= i < 4 && 0 <= l < 8 ==> (#[trigger] r@[i]@[l])@ == 0,
{
    let z = zero_packed_felt();
    [z, z, z, z]
}

impl Eidos {
    /// The felt-mode initial chaining word in every packed lane.
    pub fn init_packed_chaining_word(domain: u32, n: u32) -> (r: PackedDigest)
        requires
            domain <= MAX_DOMAIN,
        ensures
            forall|l: int|
                0 <= l < 8 ==> felt_values(#[trigger] column(r@, l)) == cv_to_word(
                    spec_init_cv(domain, FELT_MODE, n),
                ),
    {
        let w = Self::init_chaining_word(domain, n);
        let mut out = zero_packed_digest();
        let mut lane: usize = 0;
        while lane < PACKED_LANES
            invariant
                lane <= 8,
                felt_values(w@) == cv_to_word(spec_init_cv(domain, FELT_MODE, n)),
                forall|l: int|
                    0 <= l < lane ==> felt_values(#[trigger] column(out@, l)) == cv_to_word(
                        spec_init_cv(domain, FELT_MODE, n),
                    ),
            decreases 8 - lane,
        {
            set_lane(&mut out, lane, &w);
            lane = lane + 1;
        }
        out
    }

    /// Compress one full felt-mode block in each packed lane; lanes are independent.
    pub fn compress_packed_block(cv: PackedDigest, block: PackedBlock) -> (r: PackedDigest)
        ensures
            forall|l: int|
                0 <= l < 8 ==> felt_values(#[trigger] column(r@, l)) == spec_compress_word(
                    felt_values(column(cv@, l)),
                    felt_values(column(block@, l)),
                ),
    {
        let mut out = zero_packed_digest();
        let mut lane: usize = 0;
        while lane < PACKED_LANES
            invariant
                lane <= 8,
                forall|l: int|
                    0 <= l < lane ==> felt_values(#[trigger] column(out@, l)) == spec_compress_word(
                        felt_values(column(cv@, l)),
                        felt_values(column(block@, l)),
                    ),
            decreases 8 - lane,
        {
            let w = lane_word(&cv, lane);
            let b = lane_block(&block, lane);
            let c = compress_felt_block(&w, &b);
            set_lane(&mut out, lane, &c);
            lane = lane + 1;
        }
        out
    }

    /// Hash two packed digests under domain 0 in every packed lane.
    pub fn merge_packed(values: &[PackedDigest; 2]) -> (r: PackedDigest)
        ensures
            forall|l: int|
                0 <= l < 8 ==> felt_values(#[trigger] column(r@, l)) == spec_merge_values(
                    felt_values(column(values@[0]@, l)) + felt_values(column(values@[1]@, l)),
                    0,
                ),
    {
        let mut out = zero_packed_digest();
        let mut lane: usize = 0;
        while lane < PACKED_LANES
            invariant
                lane <= 8,
                forall|l: int|
                    0 <= l < lane ==> felt_values(#[trigger] column(out@, l)) == spec_merge_values(
                        felt_values(column(values@[0]@, l)) + felt_values(
                            column(values@[1]@, l),
                        ),
                        0,
                    ),
            decreases 8 - lane,
        {
            let pair = [lane_word(&values[0], lane), lane_word(&values[1], lane)];
            let m = Self::merge(&pair);
            set_lane(&mut out, lane, &m);
            lane = lane + 1;
        }
        out
    }
}

fn lane_values(inputs: &[PackedFelt], lane: usize) -> (r: Vec<Felt>)
    requires
        lane < PACKED_LANES,
    ensures
        r@ == column(inputs@, lane as int),
{
    let mut r: Vec<Felt> = Vec::new();
    let mut i: usize = 0;
    while i < inputs.len()
        invariant
            lane < 8,
            i <= inputs.len(),
            r@ == column(inputs@.take(i as int), lane as int),
        decreases inputs.len() - i,
    {
        r.push(inputs[i][lane]);
        proof {
            assert(column(inputs@.take(i + 1), lane as int) =~= column(
                inputs@.take(i as int),
                lane as int,
            ).push(inputs@[i as int]@[lane as int]));
        }
        i = i + 1;
    }
    proof {
        assert(inputs@.take(inputs@.len() as int) =~= inputs@);
    }
    r
}

/// Hash a sequence of packed field elements in felt mode under domain 0, lane by lane.
pub fn hash_packed_felts(inputs: &[PackedFelt]) -> (r: PackedDigest)
    requires
        inputs.len() <= u32::MAX,
    ensures
        forall|l: int|
            0 <= l < 8 ==> felt_values(#[trigger] column(r@, l)) == spec_hash_values(
                felt_values(column(inputs@, l)),
                0,
            ),
{
    let mut out = zero_packed_digest();
    let mut lane: usize = 0;
    while lane < PACKED_LANES
        invariant
            lane <= 8,
            inputs.len() <= u32::MAX,
            forall|l: int|
                0 <= l < lane ==> felt_values(#[trigger] column(out@, l)) == spec_hash_values(
                    felt_values(column(inputs@, l)),
                    0,
                ),
        decreases 8 - lane,
    {
        let values = lane_values(inputs, lane);
        let d = Eidos::hash_elements(&values);
        set_lane(&mut out, lane, &d);
        lane = lane + 1;
    }
    out
}


/// Lane `lane` of each row of packed raw words.
pub open spec fn u64_column(rows: Seq<[u64; 8]>, lane: int) -> Seq<u64> {
    rows.map_values(|row: [u64; 8]| row@[lane])
}

fn u64_lane_values(inputs: &[[u64; 8]], lane: usize) -> (r: Vec<u64>)
    requires
        lane < PACKED_LANES,
    ensures
        r@ == u64_column(inputs@, lane as int),
{
    let mut r: Vec<u64> = Vec::new();
    let mut i: usize = 0;
    while i < inputs.len()
        invariant
            lane < 8,
            i <= inputs.len(),
            r@ == u64_column(inputs@.take(i as int), lane as int),
        decreases inputs.len() - i,
    {
        r.push(inputs[i][lane]);
        proof {
            assert(u64_column(inputs@.take(i + 1), lane as int) =~= u64_column(
                inputs@.take(i as int),
                lane as int,
            ).push(inputs@[i as int]@[lane as int]));
        }
        i = i + 1;
    }
    proof {
        assert(inputs@.take(inputs@.len() as int) =~= inputs@);
    }
    r
}

/// Hash a sequence of packed raw 64-bit words in felt mode under domain 0, lane by lane; each
/// lane is hashed as exact 64-bit words, without reduction modulo the field order.
pub fn hash_packed_u64_words(inputs: &[[u64; 8]]) -> (r: [[u64; 8]; 4])
    requires
        inputs.len() <= u32::MAX,
    ensures
        forall|l: int, i: int|
            0 <= l < 8 && 0 <= i < 4 ==> #[trigger] r@[i]@[l] == spec_hash_values(
                u64_column(inputs@, l),
                0,
            )[i],
{
    let mut out = [[0u64; 8]; 4];
    let mut lane: usize = 0;
    while lane < PACKED_LANES
        invariant
            lane <= 8,
            inputs.len() <= u32::MAX,
            forall|l: int, i: int|
                0 <= l < lane && 0 <= i < 4 ==> #[trigger] out@[i]@[l] == spec_hash_values(
                    u64_column(inputs@, l),
                    0,
                )[i],
        decreases 8 - lane,
    {
        let values = u64_lane_values(inputs, lane);
        let d = hash_u64_words(&values);
        let mut i: usize = 0;
        while i < 4
            invariant
                lane < 8,
                i <= 4,
                d@ == spec_hash_values(u64_column(inputs@, lane as int), 0),
                forall|l: int, k: int|
                    0 <= l < lane && 0 <= k < 4 ==> #[trigger] out@[k]@[l] == spec_hash_values(
                        u64_column(inputs@, l),
                        0,
                    )[k],
                forall|k: int| 0 <= k < i ==> #[trigger] out@[k]@[lane as int] == d@[k],
            decreases 4 - i,
        {
            let mut row = out[i];
            row[lane] = d[i];
            out[i] = row;
            i = i + 1;
        }
        lane = lane + 1;
    }
    out
}


/// Hash one full packed felt-mode block of raw 64-bit words under domain 0, lane by lane.
pub fn compress_packed_u64_block(block: &[[u64; 8]; 8]) -> (r: [[u64; 8]; 4])
    ensures
        forall|l: int, i: int|
            0 <= l < 8 && 0 <= i < 4 ==> #[trigger] r@[i]@[l] == spec_merge_values(
                u64_column(block@, l),
                0,
            )[i],
{
    let mut out = [[0u64; 8]; 4];
    let mut lane: usize = 0;
    while lane < PACKED_LANES
        invariant
            lane <= 8,
            forall|l: int, i: int|
                0 <= l < lane && 0 <= i < 4 ==> #[trigger] out@[i]@[l] == spec_merge_values(
                    u64_column(block@, l),
                    0,
                )[i],
        decreases 8 - lane,
    {
        let column = [
            block[0][lane], block[1][lane], block[2][lane], block[3][lane],
            block[4][lane], block[5][lane], block[6][lane], block[7][lane],
        ];
        assert(column@ =~= u64_column(block@, lane as int));
        let d = compress_u64_block(&column);
        let mut i: usize = 0;
        while i < 4
            invariant
                lane < 8,
                i <= 4,
                d@ == spec_merge_values(u64_column(block@, lane as int), 0),
                forall|l: int, k: int|
                    0 <= l < lane && 0 <= k < 4 ==> #[trigger] out@[k]@[l] == spec_merge_values(
                        u64_column(block@, l),
                        0,
                    )[k],
                forall|k: int| 0 <= k < i ==> #[trigger] out@[k]@[lane as int] == d@[k],
            decreases 4 - i,
        {
            let mut row = out[i];
            row[lane] = d[i];
            out[i] = row;
            i = i + 1;
        }
        lane = lane + 1;
    }
    out
}

} // verus!
