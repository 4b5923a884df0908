//! BlakeG compression on the VM's 12-element stack window.
//!
//! The VM stores one BlakeG input as eight block elements followed by the four-element packed
//! chaining value. These helpers own that stack layout and delegate hashing to [`Eidos`].
use vstd::prelude::*;

use crate::blakeg::spec_compress_raw_xof;
use crate::eidos::{
    encode_felt_block, flatten_words, hi_lane, lo_lane, pack_to_word, pack_u32_pair, pack_value,
    spec_compress_word, spec_hash_bytes, spec_hash_values, spec_init_cv, spec_merge_values,
    unpack_to_cv, unpack_u32_pair, value_lanes, word_to_cv, cv_to_word, Eidos, FELT_MODE,
    MAX_DOMAIN,
};
use crate::field::{felt_values, Felt, Word};

verus! {

/// Number of elements in one BlakeG stack window.
pub const STATE_WIDTH: usize = 12;

/// Number of block elements in the stack window.
pub const RATE_WIDTH: usize = 8;

/// Number of elements of the packed chaining value.
pub const DIGEST_WIDTH: usize = 4;

/// Split a field element into its low and high `u32` lanes.
pub fn unpack(felt: Felt) -> (r: (u32, u32))
    ensures
        r == (lo_lane(felt@), hi_lane(felt@)),
{
    unpack_u32_pair(felt)
}

/// The eight lanes of a packed chaining word, low lane first.
pub fn unpack_word(word: Word) -> (r: [u32; 8])
    ensures
        r@ == word_to_cv(felt_values(word@)),
{
    unpack_to_cv(&word)
}

/// The sixteen lanes of an eight-element block, low lane first.
pub fn unpack_block(block: [Felt; 8]) -> (r: [u32; 16])
    ensures
        r@ == value_lanes(felt_values(block@)),
{
    encode_felt_block(&block)
}

/// Pack two lanes into one field element, clearing the top bit of the high lane.
pub fn pack(lo: u32, hi: u32) -> (r: Felt)
    ensures
        r@ == pack_value(lo, hi),
{
    pack_u32_pair(lo, hi)
}

/// Pack an eight-lane chaining value into a word, clearing the top bit of each odd lane.
pub fn pack_word(cv: [u32; 8]) -> (r: Word)
    ensures
        felt_values(r@) == cv_to_word(cv@),
{
    pack_to_word(&cv)
}

/// The felt-mode initial chaining word for a 31-bit domain and a total length of `n` elements.
pub fn init_chaining_word(domain: u32, n: u32) -> (r: Word)
    requires
        domain <= MAX_DOMAIN,
    ensures
        felt_values(r@) == cv_to_word(spec_init_cv(domain, FELT_MODE, n)),
{
    Eidos::init_chaining_word(domain, n)
}

/// The chaining word of a two-word hash (eight elements) in a 31-bit domain.
pub fn two_to_one_chaining_word(domain: u32) -> (r: Word)
    requires
        domain <= MAX_DOMAIN,
    ensures
        felt_values(r@) == cv_to_word(spec_init_cv(domain, FELT_MODE, RATE_WIDTH as u32)),
{
    init_chaining_word(domain, RATE_WIDTH as u32)
}

/// Hash two digest words under domain 0.
pub fn merge(values: &[Word; 2]) -> (r: Word)
    ensures
        felt_values(r@) == spec_merge_values(felt_values(values@[0]@) + felt_values(values@[1]@), 0),
{
    Eidos::merge(values)
}

/// Hash a sequence of digest words under domain 0.
pub fn merge_many(values: &[Word]) -> (r: Word)
    requires
        4 * values.len() <= u32::MAX,
    ensures
        felt_values(r@) == spec_hash_values(felt_values(flatten_words(values@)), 0),
{
    Eidos::merge_many(values)
}

/// Hash two digest words under a 31-bit domain.
pub fn merge_in_domain(values: &[Word; 2], domain: Felt) -> (r: Word)
    requires
        domain@ <= MAX_DOMAIN,
    ensures
        felt_values(r@) == spec_merge_values(
            felt_values(values@[0]@) + felt_values(values@[1]@),
            domain@ as u32,
        ),
{
    Eidos::merge_in_domain(values, domain)
}

/// Hash a byte string.
pub fn hash(bytes: &[u8]) -> (r: Word)
    requires
        bytes.len() <= u32::MAX,
    ensures
        felt_values(r@) == spec_hash_bytes(bytes@),
{
    Eidos::hash(bytes)
}

/// Hash field elements under domain 0.
pub fn hash_elements(elements: &[Felt]) -> (r: Word)
    requires
        elements.len() <= u32::MAX,
    ensures
        felt_values(r@) == spec_hash_values(felt_values(elements@), 0),
{
    Eidos::hash_elements(elements)
}

/// Hash field elements under a 31-bit domain.
pub fn hash_elements_in_domain(elements: &[Felt], domain: Felt) -> (r: Word)
    requires
        elements.len() <= u32::MAX,
        domain@ <= MAX_DOMAIN,
    ensures
        felt_values(r@) == spec_hash_values(felt_values(elements@), domain@ as u32),
{
    Eidos::hash_elements_in_domain(elements, domain)
}

/// The block elements `state[0..8]` of a stack window.
pub open spec fn window_block(state: Seq<Felt>) -> Seq<u64> {
    felt_values(state.subrange(0, 8))
}

/// The packed chaining value `state[8..12]` of a stack window.
pub open spec fn window_cv(state: Seq<Felt>) -> Seq<u64> {
    felt_values(state.subrange(8, 12))
}

fn window_parts(state: &[Felt; 12]) -> (r: ([Felt; 8], Word))
    ensures
        r.0@ == state@.subrange(0, 8),
        r.1@ == state@.subrange(8, 12),
{
    let block = [
        state[0], state[1], state[2], state[3], state[4], state[5], state[6], state[7],
    ];
    let cv = [state[8], state[9], state[10], state[11]];
    assert(block@ =~= state@.subrange(0, 8));
    assert(cv@ =~= state@.subrange(8, 12));
    (block, cv)
}

/// Apply the packed BlakeG compression to a stack window: the block `state[0..8]` stays, and
/// the chaining value `state[8..12]` is replaced by the compression of the block under it.
/// Returns the eight lanes of the new chaining value.
pub fn compress_state(state: &mut [Felt; 12]) -> (r: [u32; 8])
    ensures
        final(state)@.subrange(0, 8) == old(state)@.subrange(0, 8),
        window_cv(final(state)@) == spec_compress_word(window_cv(old(state)@), window_block(old(state)@)),
        r@ == word_to_cv(window_cv(final(state)@)),
{
    let (block, cv_word) = window_parts(state);
    let cv_new_word = Eidos::compress_block(cv_word, block);
    let cv_new = unpack_word(cv_new_word);
    state[8] = cv_new_word[0];
    state[9] = cv_new_word[1];
    state[10] = cv_new_word[2];
    state[11] = cv_new_word[3];
    assert(state@.subrange(8, 12) =~= cv_new_word@);
    assert(state@.subrange(0, 8) =~= old(state)@.subrange(0, 8));
    cv_new
}

/// The sixteen BlakeG extendable-output lanes of a stack window: `low[i] = v[i] ^ v[i + 8]`,
/// then `high[i] = v[i + 8] ^ cv[i]`, where `v` is the final working state.
pub fn compress_raw_xof_lanes(state: &[Felt; 12]) -> (r: [u32; 16])
    ensures
        r@ == spec_compress_raw_xof(word_to_cv(window_cv(state@)), value_lanes(window_block(state@))),
{
    let (block, cv_word) = window_parts(state);
    let lanes = Eidos::compress_xof_block(cv_word, block);
    let mut r = [0u32; 16];
    let mut i: usize = 0;
    while i < 16
        invariant
            i <= 16,
            forall|j: int| 0 <= j < 16 ==> #[trigger] lanes@[j]@ == spec_compress_raw_xof(
                word_to_cv(felt_values(cv_word@)),
                value_lanes(felt_values(block@)),
            )[j],
            forall|j: int| 0 <= j < i ==> r@[j] == spec_compress_raw_xof(
                word_to_cv(felt_values(cv_word@)),
                value_lanes(felt_values(block@)),
            )[j],
        decreases 16 - i,
    {
        let v = lanes[i].as_canonical_u64();
        assert(lanes@[i as int]@ == v);
        r[i] = v as u32;
        i = i + 1;
    }
    assert(r@ =~= spec_compress_raw_xof(
        word_to_cv(felt_values(cv_word@)),
        value_lanes(felt_values(block@)),
    ));
    r
}

} // verus!
