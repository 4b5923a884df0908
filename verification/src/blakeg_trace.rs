//! Trace-writing helpers of the 32-row BlakeG compression cycle: request metadata, the
//! cycle/pair keys of the internal chaining-value bus, packed footer values and the
//! canonicality witnesses of packed inputs.
use vstd::prelude::*;

use crate::blakeg::{spec_final_state, spec_initial_state};
use crate::blakeg_footer::{footer_rows_lookups, spec_footer_cell, write_footer_rows};
use crate::blakeg_fused::{
    fused_rows_lookups,
    byte_of, g_in, lemma_each_round_reads_every_message_word_once,
    lemma_row_message_index_range, spec_fused_cell, spec_fused_rows, spec_row_message_index,
    write_fused_g_rows,
};
use crate::blakeg_layout::{
    BLOCK_PERIOD, BYTE_SLOT_WIDTH, FOOTER_ROWS, FOOTER_START, FUSED_G_ROWS, NUM_COLS,
};
use crate::field::{Felt, MODULUS};

verus! {

/// One row of the BlakeG main trace, as raw column values.
pub type BlakeGRow = [u64; 128];

/// The largest high word of a canonical packed pair.
pub const CANONICALITY_HIGH_WORD_MAX: u64 = 0xffff_ffff;

/// The largest compression-cycle identifier whose cycle/pair keys `4 * id + pair` are all
/// canonical field elements: `(MODULUS - 4) / 4`.
pub const MAX_COMPRESSION_CYCLE_ID: u64 = 0x3fff_ffff_bfff_ffff;

/// External relation represented by a physical BlakeG compression cycle.
#[derive(Debug, Clone, Copy, PartialEq, Eq, Structural)]
pub enum TraceMode {
    /// A single native-hash compression request.
    Compression,
    /// Aggregated native-hash requests with the same input and output.
    CompressionWithMultiplicity { multiplicity: u64 },
    /// One AEAD/XOF request at the given VM clock cycle.
    AeadXof { clk: u64 },
}

/// The multiplicity a cycle provides on the compression-link bus.
pub open spec fn spec_compression_multiplicity(mode: TraceMode) -> u64 {
    match mode {
        TraceMode::Compression => 1,
        TraceMode::CompressionWithMultiplicity { multiplicity } => multiplicity,
        TraceMode::AeadXof { .. } => 0,
    }
}

impl TraceMode {
    /// The multiplicity this cycle provides on the compression-link bus: one request, the
    /// aggregated count, or none for AEAD/XOF requests.
    pub fn compression_multiplicity(self) -> (r: u64)
        ensures
            r == spec_compression_multiplicity(self),
    {
        match self {
            TraceMode::Compression => 1,
            TraceMode::CompressionWithMultiplicity { multiplicity } => multiplicity,
            TraceMode::AeadXof { .. } => 0,
        }
    }
}

/// Byte-table relation used while materializing a BlakeG trace.
#[derive(Debug, Clone, Copy, PartialEq, Eq, Structural)]
pub enum BlakeGByteLookup {
    /// Ordinary bytewise AND.
    And8,
    /// Contribution of one byte to a 32-bit rotate-right-by-12 result.
    Rot12 { byte: usize },
    /// Contribution of one byte to a 32-bit rotate-right-by-7 result.
    Rot7 { byte: usize },
}

/// Receives the byte-table lookups generated alongside a BlakeG trace.
pub trait ByteLookupRecorder {
    /// The lookups recorded so far, in order.
    spec fn spec_log(&self) -> Seq<(BlakeGByteLookup, u8, u8, u32)>;

    /// Records one lookup, with its two byte inputs and the reconstructed result contribution.
    fn record(&mut self, lookup: BlakeGByteLookup, lhs: u8, rhs: u8, result: u32)
        ensures
            final(self).spec_log() == old(self).spec_log().push((lookup, lhs, rhs, result)),
    ;
}

/// The lookup whose inputs and result stand in the slot `[lhs, rhs, result]` at column `base`
/// of a row.
pub open spec fn slot_lookup(kind: BlakeGByteLookup, row: Seq<u64>, base: int) -> (
    BlakeGByteLookup,
    u8,
    u8,
    u32,
) {
    (kind, row[base] as u8, row[base + 1] as u8, row[base + 2] as u32)
}

/// A recorder that discards every lookup; only its ghost log keeps them.
pub struct NoopByteLookupRecorder {
    log: Ghost<Seq<(BlakeGByteLookup, u8, u8, u32)>>,
}

impl NoopByteLookupRecorder {
    /// A recorder with an empty log.
    pub fn new() -> (r: NoopByteLookupRecorder)
        ensures
            r.spec_log() == Seq::<(BlakeGByteLookup, u8, u8, u32)>::empty(),
    {
        NoopByteLookupRecorder { log: Ghost(Seq::empty()) }
    }
}

impl ByteLookupRecorder for NoopByteLookupRecorder {
    closed spec fn spec_log(&self) -> Seq<(BlakeGByteLookup, u8, u8, u32)> {
        self.log@
    }

    fn record(&mut self, lookup: BlakeGByteLookup, lhs: u8, rhs: u8, result: u32) {
        self.log = Ghost(self.log@.push((lookup, lhs, rhs, result)));
    }
}

/// A recorder that keeps every lookup, in order.
pub struct VecByteLookupRecorder {
    lookups: Vec<(BlakeGByteLookup, u8, u8, u32)>,
}

impl VecByteLookupRecorder {
    /// A recorder with no lookups yet.
    pub fn new() -> (r: VecByteLookupRecorder)
        ensures
            r.spec_log() == Seq::<(BlakeGByteLookup, u8, u8, u32)>::empty(),
    {
        VecByteLookupRecorder { lookups: Vec::new() }
    }

    /// The lookups recorded so far, in order.
    pub fn lookups(&self) -> (r: &[(BlakeGByteLookup, u8, u8, u32)])
        ensures
            r@ == self.spec_log(),
    {
        self.lookups.as_slice()
    }
}

impl ByteLookupRecorder for VecByteLookupRecorder {
    closed spec fn spec_log(&self) -> Seq<(BlakeGByteLookup, u8, u8, u32)> {
        self.lookups@
    }

    fn record(&mut self, lookup: BlakeGByteLookup, lhs: u8, rhs: u8, result: u32) {
        self.lookups.push((lookup, lhs, rhs, result));
    }
}

/// Why trace metadata or inputs cannot be written.
#[derive(Debug, Clone, Copy, PartialEq, Eq, Structural)]
pub enum TraceInputError {
    /// A compression-cycle identifier whose cycle/pair key is not a canonical field element.
    NonCanonicalCyclePairKey,
    /// A multiplicity or clock that is not a canonical field element.
    NonCanonicalMetadata,
    /// A packed block or chaining-value pair that is not a canonical field element.
    NonCanonicalPackedInput,
}

/// Check that every cycle/pair key of a compression cycle is a canonical field element.
pub fn validate_compression_cycle_id(compression_cycle_id: u64) -> (r: Result<(), TraceInputError>)
    ensures
        r is Ok <==> compression_cycle_id <= MAX_COMPRESSION_CYCLE_ID,
        r is Err ==> r == Err::<(), TraceInputError>(TraceInputError::NonCanonicalCyclePairKey),
        compression_cycle_id <= MAX_COMPRESSION_CYCLE_ID ==> 4 * compression_cycle_id + 3
            < MODULUS,
{
    let max_cycle_id = (MODULUS - FOOTER_ROWS as u64) / FOOTER_ROWS as u64;
    assert((MODULUS as int - 4) / 4 == MAX_COMPRESSION_CYCLE_ID as int) by (nonlinear_arith);
    assert(max_cycle_id == MAX_COMPRESSION_CYCLE_ID);
    if compression_cycle_id <= max_cycle_id {
        Ok(())
    } else {
        Err(TraceInputError::NonCanonicalCyclePairKey)
    }
}

/// The metadata value a mode carries, if any.
pub open spec fn mode_metadata(mode: TraceMode) -> Option<u64> {
    match mode {
        TraceMode::Compression => None,
        TraceMode::CompressionWithMultiplicity { multiplicity } => Some(multiplicity),
        TraceMode::AeadXof { clk } => Some(clk),
    }
}

/// Check the cycle identifier, then that the mode's multiplicity or clock is canonical.
pub fn validate_trace_metadata(compression_cycle_id: u64, mode: TraceMode) -> (r: Result<
    (),
    TraceInputError,
>)
    ensures
        compression_cycle_id > MAX_COMPRESSION_CYCLE_ID ==> r == Err::<(), TraceInputError>(
            TraceInputError::NonCanonicalCyclePairKey,
        ),
        compression_cycle_id <= MAX_COMPRESSION_CYCLE_ID ==> (r is Ok <==> (mode_metadata(
            mode,
        ) matches Some(v) ==> v < MODULUS)),
        compression_cycle_id <= MAX_COMPRESSION_CYCLE_ID && r is Err ==> r == Err::<
            (),
            TraceInputError,
        >(TraceInputError::NonCanonicalMetadata),
{
    match validate_compression_cycle_id(compression_cycle_id) {
        Err(e) => {
            return Err(e);
        },
        Ok(()) => {},
    }
    let metadata = match mode {
        TraceMode::Compression => None,
        TraceMode::CompressionWithMultiplicity { multiplicity } => Some(multiplicity),
        TraceMode::AeadXof { clk } => Some(clk),
    };
    match metadata {
        Some(value) => if value < MODULUS {
            Ok(())
        } else {
            Err(TraceInputError::NonCanonicalMetadata)
        },
        None => Ok(()),
    }
}

/// A lane pair `(lo, hi)` packs to a canonical field element unless `hi` is `u32::MAX` and `lo`
/// is nonzero.
pub open spec fn canonical_pair(lo: u32, hi: u32) -> bool {
    hi != u32::MAX || lo == 0
}

/// Every lane pair of a sequence of lanes packs to a canonical field element.
pub open spec fn canonical_pairs(lanes: Seq<u32>) -> bool {
    forall|i: int| 0 <= i < lanes.len() / 2 ==> #[trigger] canonical_pair(lanes[2 * i], lanes[2 * i + 1])
}

fn pairs_canonical(lanes: &[u32]) -> (r: bool)
    requires
        lanes.len() % 2 == 0,
    ensures
        r == canonical_pairs(lanes@),
{
    let len = lanes.len();
    let n = len / 2;
    let mut i: usize = 0;
    while i < n
        invariant
            len == lanes@.len(),
            n == lanes@.len() / 2,
            2 * n <= len,
            i <= n,
            forall|j: int| 0 <= j < i ==> #[trigger] canonical_pair(lanes@[2 * j], lanes@[2 * j + 1]),
        decreases n - i,
    {
        if lanes[2 * i + 1] == u32::MAX && lanes[2 * i] != 0 {
            assert(!canonical_pair(lanes@[2 * i as int], lanes@[2 * i + 1]));
            return false;
        }
        i = i + 1;
    }
    true
}

/// Check that every packed pair of the message block and of the input chaining value is a
/// canonical field element.
pub fn validate_packed_inputs(block: &[u32; 16], h: &[u32; 8]) -> (r: Result<(), TraceInputError>)
    ensures
        r is Ok <==> canonical_pairs(block@) && canonical_pairs(h@),
        r is Err ==> r == Err::<(), TraceInputError>(TraceInputError::NonCanonicalPackedInput),
{
    if pairs_canonical(block) && pairs_canonical(h) {
        Ok(())
    } else {
        Err(TraceInputError::NonCanonicalPackedInput)
    }
}

/// The key `4 * compression_cycle_id + pair` of chaining-value pair `pair` of a cycle on the
/// internal chaining-value bus.
pub fn compression_cycle_pair_index(compression_cycle_id: u64, pair: usize) -> (r: u64)
    requires
        pair < FOOTER_ROWS,
        4 * compression_cycle_id + pair <= u64::MAX,
    ensures
        r == 4 * compression_cycle_id + pair,
{
    assert(compression_cycle_id * 4 == 4 * compression_cycle_id) by (nonlinear_arith);
    compression_cycle_id * (FOOTER_ROWS as u64) + pair as u64
}

/// Distinct cycles or pairs have distinct keys: the key is injective.
pub proof fn lemma_cycle_pair_index_injective(c1: u64, p1: int, c2: u64, p2: int)
    requires
        0 <= p1 < 4,
        0 <= p2 < 4,
        4 * c1 + p1 == 4 * c2 + p2,
    ensures
        c1 == c2,
        p1 == p2,
{
}

/// The unmasked packing `lo + hi * 2^32` of a lane pair.
pub open spec fn spec_pack_pair(lo: u32, hi: u32) -> u64 {
    (lo + hi * 0x1_0000_0000) as u64
}

/// Pack a lane pair as `lo + (hi << 32)`, without masking.
pub fn pack_pair(lo: u32, hi: u32) -> (r: u64)
    ensures
        r == spec_pack_pair(lo, hi),
{
    assert((lo as u64) + ((hi as u64) << 32u64) == (lo as u64) + (hi as u64) * 0x1_0000_0000u64)
        by (bit_vector);
    (lo as u64) + ((hi as u64) << 32)
}

/// The eight packed message values.
pub fn packed_message_values(block: &[u32; 16]) -> (r: [u64; 8])
    ensures
        forall|i: int| 0 <= i < 8 ==> r@[i] == spec_pack_pair(block@[2 * i], block@[2 * i + 1]),
{
    let mut r = [0u64; 8];
    let mut i: usize = 0;
    while i < 8
        invariant
            i <= 8,
            forall|j: int| 0 <= j < i ==> r@[j] == spec_pack_pair(block@[2 * j], block@[2 * j + 1]),
        decreases 8 - i,
    {
        r[i] = pack_pair(block[2 * i], block[2 * i + 1]);
        i = i + 1;
    }
    r
}

/// The four packed input chaining values.
pub fn packed_h_values(h: &[u32; 8]) -> (r: [u64; 4])
    ensures
        forall|i: int| 0 <= i < 4 ==> r@[i] == spec_pack_pair(h@[2 * i], h@[2 * i + 1]),
{
    let mut r = [0u64; 4];
    let mut i: usize = 0;
    while i < 4
        invariant
            i <= 4,
            forall|j: int| 0 <= j < i ==> r@[j] == spec_pack_pair(h@[2 * j], h@[2 * j + 1]),
        decreases 4 - i,
    {
        r[i] = pack_pair(h[2 * i], h[2 * i + 1]);
        i = i + 1;
    }
    r
}

/// The four packed compression outputs: each odd lane's top bit is cleared before packing.
pub fn packed_output_values(low: &[u32; 8]) -> (r: [u64; 4])
    ensures
        forall|i: int|
            0 <= i < 4 ==> r@[i] == spec_pack_pair(low@[2 * i], low@[2 * i + 1] & 0x7fff_ffff),
{
    let mut r = [0u64; 4];
    let mut i: usize = 0;
    while i < 4
        invariant
            i <= 4,
            forall|j: int|
                0 <= j < i ==> r@[j] == spec_pack_pair(low@[2 * j], low@[2 * j + 1] & 0x7fff_ffff),
        decreases 4 - i,
    {
        r[i] = pack_pair(low[2 * i], low[2 * i + 1] & 0x7fff_ffff);
        i = i + 1;
    }
    r
}

/// The high words whose canonicality each footer row witnesses: for footer `f`, the high words
/// of message pairs `2f` and `2f + 1`, then the high word of chaining-value pair `f`.
pub open spec fn spec_canonicality_high_word(block: Seq<u32>, h: Seq<u32>, idx: int) -> u32 {
    let footer = idx / 3;
    let k = idx % 3;
    if k < 2 {
        block[4 * footer + 2 * k + 1]
    } else {
        h[2 * footer + 1]
    }
}

/// The twelve high words checked for canonicality, three per footer row.
pub fn footer_canonicality_high_words(block: &[u32; 16], h: &[u32; 8]) -> (r: [u32; 12])
    ensures
        forall|i: int| 0 <= i < 12 ==> r@[i] == spec_canonicality_high_word(block@, h@, i),
{
    let mut high_words = [0u32; 12];
    let mut footer: usize = 0;
    while footer < FOOTER_ROWS
        invariant
            footer <= 4,
            forall|i: int|
                0 <= i < 3 * footer ==> high_words@[i] == spec_canonicality_high_word(block@, h@, i),
        decreases 4 - footer,
    {
        let mut pair: usize = 0;
        while pair < 2
            invariant
                footer < 4,
                pair <= 2,
                forall|i: int|
                    0 <= i < 3 * footer + pair ==> high_words@[i] == spec_canonicality_high_word(
                        block@,
                        h@,
                        i,
                    ),
            decreases 2 - pair,
        {
            let word_idx = 4 * footer + 2 * pair;
            high_words[footer * 3 + pair] = block[word_idx + 1];
            pair = pair + 1;
        }
        high_words[footer * 3 + 2] = h[2 * footer + 1];
        footer = footer + 1;
    }
    high_words
}

/// The field offset `hi - (2^32 - 1)` of a high word: zero exactly for the non-canonical high
/// word `u32::MAX`.
pub fn canonicality_high_word_offset(hi: u32) -> (r: Felt)
    ensures
        r@ as int == (hi as int - CANONICALITY_HIGH_WORD_MAX as int) % (MODULUS as int),
        r@ == 0 <==> hi == u32::MAX,
{
    let delta = CANONICALITY_HIGH_WORD_MAX - hi as u64;
    if delta == 0 {
        Felt::zero()
    } else {
        Felt::from_canonical(MODULUS - delta)
    }
}

/// Write the three fields of a lookup slot at `base`.
pub fn write_lookup_slot(row: &mut BlakeGRow, base: usize, values: [u64; 3])
    requires
        base + BYTE_SLOT_WIDTH <= NUM_COLS,
    ensures
        final(row)@ == old(row)@.update(base as int, values[0]).update(base + 1, values[1]).update(
            base + 2,
            values[2],
        ),
{
    row[base] = values[0];
    row[base + 1] = values[1];
    row[base + 2] = values[2];
}

/// Write the first `len` values at `base`, leaving the rest of the row unchanged.
pub fn write_prefix(row: &mut BlakeGRow, base: usize, values: &[u64], len: usize)
    requires
        len <= values.len(),
        base + len <= NUM_COLS,
    ensures
        forall|i: int| 0 <= i < len ==> final(row)@[base + i] == values@[i],
        forall|i: int|
            0 <= i < NUM_COLS && !(base <= i < base + len) ==> final(row)@[i] == old(row)@[i],
{
    let mut i: usize = 0;
    while i < len
        invariant
            i <= len <= values.len(),
            base + len <= NUM_COLS,
            forall|j: int| 0 <= j < i ==> row@[base + j] == values@[j],
            forall|j: int|
                0 <= j < NUM_COLS && !(base <= j < base + i) ==> row@[j] == old(row)@[j],
        decreases len - i,
    {
        row[base + i] = values[i];
        i = i + 1;
    }
}

/// A materialized 32-row BlakeG trace block and the final 16-word working state of its
/// compression.
pub struct BlakeGTraceBlock {
    /// The main-trace rows of one physical compression: 28 fused G rows, then 4 footer rows.
    pub rows: Vec<BlakeGRow>,
    /// The BlakeG working state after all seven rounds, before the output feed-forward.
    pub final_v: [u32; 16],
}

fn zeroed_rows() -> (rows: Vec<BlakeGRow>)
    ensures
        rows@.len() == BLOCK_PERIOD,
        forall|i: int, col: int| 0 <= i < BLOCK_PERIOD && 0 <= col < 128 ==> #[trigger] rows@[i]@[col] == 0,
{
    let mut rows: Vec<BlakeGRow> = Vec::new();
    let mut i: usize = 0;
    while i < BLOCK_PERIOD
        invariant
            i <= BLOCK_PERIOD,
            rows@.len() == i,
            forall|t: int, col: int| 0 <= t < i && 0 <= col < 128 ==> #[trigger] rows@[t]@[col] == 0,
        decreases BLOCK_PERIOD - i,
    {
        let row: BlakeGRow = [0u64; 128];
        assert(forall|col: int| 0 <= col < 128 ==> row@[col] == 0);
        rows.push(row);
        i = i + 1;
    }
    rows
}

/// The raw rows of one compression cycle, written from zeroed rows, and the final working
/// state; every byte lookup is handed to `recorder`.
pub(crate) fn write_trace_rows<R: ByteLookupRecorder>(
    block: &[u32; 16],
    h: &[u32; 8],
    compression_cycle_id: u64,
    mode: TraceMode,
    recorder: &mut R,
) -> (r: (Vec<BlakeGRow>, [u32; 16]))
    requires
        compression_cycle_id <= MAX_COMPRESSION_CYCLE_ID,
    ensures
        r.0@.len() == BLOCK_PERIOD,
        r.1@ == spec_final_state(h@, block@),
        forall|i: int, col: int|
            0 <= i < FUSED_G_ROWS && 0 <= col < 128 ==> #[trigger] r.0@[i]@[col]
                == spec_fused_cell(
                spec_fused_rows(spec_initial_state(h@), block@, i as nat),
                block@,
                i,
                compression_cycle_id,
                col,
            ),
        forall|f: int, col: int|
            0 <= f < FOOTER_ROWS && 0 <= col < 128 ==> #[trigger] r.0@[FOOTER_START + f]@[col]
                == spec_footer_cell(
                block@,
                h@,
                spec_final_state(h@, block@),
                compression_cycle_id,
                mode,
                f,
                col,
            ),
        final(recorder).spec_log() == old(recorder).spec_log() + fused_rows_lookups(
            r.0@,
            FUSED_G_ROWS as int,
        ) + footer_rows_lookups(r.0@, FOOTER_ROWS as int),
{
    let mut rows = zeroed_rows();
    let ghost zeroed = rows@;
    let final_v = write_fused_g_rows(&mut rows, block, h, compression_cycle_id, recorder);
    let ghost fused_rows = rows@;
    proof {
        assert forall|f: int, col: int| 0 <= f < 4 && 0 <= col < 128 implies #[trigger] rows@[FOOTER_START
            + f]@[col] == 0 by {
            assert(rows@[FOOTER_START + f] == zeroed[FOOTER_START + f]);
        }
    }
    write_footer_rows(&mut rows, block, h, &final_v, compression_cycle_id, mode, recorder);
    proof {
        assert forall|t: int| 0 <= t < 32 * FUSED_G_ROWS implies #[trigger] fused_rows_lookups(
            rows@,
            FUSED_G_ROWS as int,
        )[t] == fused_rows_lookups(fused_rows, FUSED_G_ROWS as int)[t] by {
            assert(rows@[t / 32] == fused_rows[t / 32]);
        }
        assert(fused_rows_lookups(rows@, FUSED_G_ROWS as int) =~= fused_rows_lookups(
            fused_rows,
            FUSED_G_ROWS as int,
        ));
    }
    (rows, final_v)
}

/// Generate the trace block of one compression of `block` under the chaining value `h`, as
/// physical cycle `compression_cycle_id`.
///
/// The fused rows run the seven BlakeG rounds from the state `h || IV`; the footer rows are
/// written from the resulting final state. The identifier must keep every cycle/pair key
/// canonical, the mode's multiplicity or clock must be canonical, and every packed pair of
/// `block` and `h` must be a canonical field element.
pub fn generate_trace_block_with_cycle_id(
    block: [u32; 16],
    h: [u32; 8],
    compression_cycle_id: u64,
    mode: TraceMode,
) -> (r: BlakeGTraceBlock)
    requires
        compression_cycle_id <= MAX_COMPRESSION_CYCLE_ID,
        mode_metadata(mode) matches Some(value) ==> value < MODULUS,
        canonical_pairs(block@),
        canonical_pairs(h@),
    ensures
        r.rows@.len() == BLOCK_PERIOD,
        r.final_v@ == spec_final_state(h@, block@),
        forall|i: int, col: int|
            0 <= i < FUSED_G_ROWS && 0 <= col < 128 ==> #[trigger] r.rows@[i]@[col]
                == spec_fused_cell(
                spec_fused_rows(spec_initial_state(h@), block@, i as nat),
                block@,
                i,
                compression_cycle_id,
                col,
            ),
        forall|f: int, col: int|
            0 <= f < FOOTER_ROWS && 0 <= col < 128 ==> #[trigger] r.rows@[FOOTER_START + f]@[col]
                == spec_footer_cell(
                block@,
                h@,
                spec_final_state(h@, block@),
                compression_cycle_id,
                mode,
                f,
                col,
            ),
{
    let mut recorder = NoopByteLookupRecorder::new();
    let (rows, final_v) = write_trace_rows(&block, &h, compression_cycle_id, mode, &mut recorder);
    BlakeGTraceBlock { rows, final_v }
}

/// Generate the trace block of one compression of `block` under the chaining value `h`, as the
/// first physical cycle (identifier zero).
pub fn generate_trace_block(block: [u32; 16], h: [u32; 8], mode: TraceMode) -> (r: BlakeGTraceBlock)
    requires
        mode_metadata(mode) matches Some(value) ==> value < MODULUS,
        canonical_pairs(block@),
        canonical_pairs(h@),
    ensures
        r.rows@.len() == BLOCK_PERIOD,
        r.final_v@ == spec_final_state(h@, block@),
        forall|i: int, col: int|
            0 <= i < FUSED_G_ROWS && 0 <= col < 128 ==> #[trigger] r.rows@[i]@[col]
                == spec_fused_cell(
                spec_fused_rows(spec_initial_state(h@), block@, i as nat),
                block@,
                i,
                0,
                col,
            ),
        forall|f: int, col: int|
            0 <= f < FOOTER_ROWS && 0 <= col < 128 ==> #[trigger] r.rows@[FOOTER_START + f]@[col]
                == spec_footer_cell(block@, h@, spec_final_state(h@, block@), 0, mode, f, col),
{
    generate_trace_block_with_cycle_id(block, h, 0, mode)
}

/// The `b` input of G function `g`, recomposed from the first fields of its four rotation
/// slots.
pub open spec fn spec_packed_b(row: Seq<u64>, g: int) -> int {
    row[48 + 12 * g] + row[51 + 12 * g] * 0x100 + row[54 + 12 * g] * 0x1_0000 + row[57 + 12 * g]
        * 0x100_0000
}

/// The chaining-value pair `p` that the first fused row consumes: the `a` inputs of G functions
/// `2p` and `2p + 1` for the first two pairs, the recomposed `b` inputs for the last two.
pub open spec fn spec_consumed_input_pair(row0: Seq<u64>, p: int) -> (int, int) {
    if p < 2 {
        (row0[108 + 2 * p] as int, row0[109 + 2 * p] as int)
    } else {
        (spec_packed_b(row0, 2 * p - 4), spec_packed_b(row0, 2 * p - 3))
    }
}

/// The cells of the first fused row of the cycle compressing `block` under `h`.
pub open spec fn spec_first_fused_row(block: Seq<u32>, h: Seq<u32>, cycle_id: u64) -> Seq<u64> {
    Seq::new(128, |col: int| spec_fused_cell(spec_initial_state(h), block, 0, cycle_id, col))
}

/// The cells of footer row `f` of the cycle compressing `block` under `h`.
pub open spec fn spec_footer_row(
    block: Seq<u32>,
    h: Seq<u32>,
    cycle_id: u64,
    mode: TraceMode,
    f: int,
) -> Seq<u64> {
    Seq::new(
        128,
        |col: int| spec_footer_cell(block, h, spec_final_state(h, block), cycle_id, mode, f, col),
    )
}

proof fn lemma_bytes_recompose(x: u32)
    ensures
        byte_of(x, 0) + byte_of(x, 1) * 0x100 + byte_of(x, 2) * 0x1_0000 + byte_of(x, 3)
            * 0x100_0000 == x,
{
    assert(((x >> 0u32) & 0xffu32) + ((x >> 8u32) & 0xffu32) * 0x100 + ((x >> 16u32) & 0xffu32)
        * 0x1_0000 + ((x >> 24u32) & 0xffu32) * 0x100_0000 == x) by (bit_vector);
}

/// Within one cycle the internal input-pair relation balances: the chaining-value pair `p`
/// consumed by the first fused row is exactly the pair that footer row `p` emits, under the
/// same key `4 * cycle_id + p`.
pub proof fn lemma_input_pairs_balance(
    block: Seq<u32>,
    h: Seq<u32>,
    cycle_id: u64,
    mode: TraceMode,
    p: int,
)
    requires
        block.len() == 16,
        h.len() == 8,
        0 <= p < 4,
    ensures
        spec_footer_row(block, h, cycle_id, mode, p)[51] == (4 * cycle_id + p) as u64,
        spec_consumed_input_pair(spec_first_fused_row(block, h, cycle_id), p) == (
            spec_footer_row(block, h, cycle_id, mode, p)[52] as int,
            spec_footer_row(block, h, cycle_id, mode, p)[53] as int,
        ),
{
    let v0 = spec_initial_state(h);
    let row0 = spec_first_fused_row(block, h, cycle_id);
    let foot = spec_footer_row(block, h, cycle_id, mode, p);
    assert(foot[52] == h[2 * p] as u64);
    assert(foot[53] == h[2 * p + 1] as u64);
    if p < 2 {
        assert(row0[108 + 2 * p] == g_in(v0, 0, 2 * p, 0) as u64);
        assert(row0[109 + 2 * p] == g_in(v0, 0, 2 * p + 1, 0) as u64);
        assert(v0[2 * p] == h[2 * p]);
        assert(v0[2 * p + 1] == h[2 * p + 1]);
    } else {
        assert forall|g: int| 0 <= g < 4 implies spec_packed_b(row0, g) == h[g + 4] by {
            let b = g_in(v0, 0, g, 1);
            assert(b == v0[g + 4]);
            assert(v0[g + 4] == h[g + 4]);
            assert forall|byte: int| 0 <= byte < 4 implies #[trigger] row0[48 + 12 * g + 3 * byte]
                == byte_of(b, byte) as u64 by {
                let col = 48 + 12 * g + 3 * byte;
                assert((col - 48) / 12 == g);
                assert(((col - 48) % 12) / 3 == byte);
                assert(col % 3 == 0);
            }
            assert(row0[48 + 12 * g] == byte_of(b, 0) as u64);
            assert(row0[51 + 12 * g] == byte_of(b, 1) as u64);
            assert(row0[54 + 12 * g] == byte_of(b, 2) as u64);
            assert(row0[57 + 12 * g] == byte_of(b, 3) as u64);
            lemma_bytes_recompose(b);
        }
        assert(spec_packed_b(row0, 2 * p - 4) == h[2 * p]);
        assert(spec_packed_b(row0, 2 * p - 3) == h[2 * p + 1]);
    }
}

/// Cell `col` of fused row `row` of the cycle compressing `block` under `h`.
pub open spec fn spec_fused_row_cell(
    block: Seq<u32>,
    h: Seq<u32>,
    cycle_id: u64,
    row: int,
    col: int,
) -> u64 {
    spec_fused_cell(spec_fused_rows(spec_initial_state(h), block, row as nat), block, row, cycle_id, col)
}

/// Within one cycle the internal message-word relation balances: in each of the seven rounds,
/// exactly one fused message slot carries the payload `(m, block[m], cycle_id)` of message word
/// `m`, and exactly one footer message slot carries it back (with multiplicity seven).
pub proof fn lemma_message_payloads_balance(
    block: Seq<u32>,
    h: Seq<u32>,
    cycle_id: u64,
    mode: TraceMode,
    r: int,
    m: int,
)
    requires
        block.len() == 16,
        h.len() == 8,
        0 <= r < 7,
        0 <= m < 16,
    ensures
        exists|k: int, g: int|
            0 <= k < 4 && 0 <= g < 4 && #[trigger] spec_fused_row_cell(
                block,
                h,
                cycle_id,
                4 * r + k,
                96 + 3 * g,
            ) == m as u64 && spec_fused_row_cell(block, h, cycle_id, 4 * r + k, 97 + 3 * g)
                == block[m] as u64 && spec_fused_row_cell(block, h, cycle_id, 4 * r + k, 98 + 3 * g)
                == cycle_id,
        forall|k1: int, g1: int, k2: int, g2: int|
            0 <= k1 < 4 && 0 <= g1 < 4 && 0 <= k2 < 4 && 0 <= g2 < 4 && #[trigger]
                spec_fused_row_cell(block, h, cycle_id, 4 * r + k1, 96 + 3 * g1) == m as u64
                && #[trigger] spec_fused_row_cell(block, h, cycle_id, 4 * r + k2, 96 + 3 * g2)
                == m as u64 ==> k1 == k2 && g1 == g2,
        exists|f: int, w: int|
            0 <= f < 4 && 0 <= w < 4 && #[trigger] spec_footer_row(block, h, cycle_id, mode, f)[54
                + 3 * w] == m as u64 && spec_footer_row(block, h, cycle_id, mode, f)[55 + 3 * w]
                == block[m] as u64 && spec_footer_row(block, h, cycle_id, mode, f)[56 + 3 * w]
                == cycle_id,
        forall|f1: int, w1: int, f2: int, w2: int|
            0 <= f1 < 4 && 0 <= w1 < 4 && 0 <= f2 < 4 && 0 <= w2 < 4 && #[trigger] spec_footer_row(
                block,
                h,
                cycle_id,
                mode,
                f1,
            )[54 + 3 * w1] == m as u64 && #[trigger] spec_footer_row(block, h, cycle_id, mode, f2)[54
                + 3 * w2] == m as u64 ==> f1 == f2 && w1 == w2,
{
    lemma_each_round_reads_every_message_word_once(r, m);
    let (k, g) = choose|k: int, g: int|
        0 <= k < 4 && 0 <= g < 4 && #[trigger] spec_row_message_index(4 * r + k, g) == m;
    lemma_row_message_index_range(4 * r + k, g);
    assert(spec_fused_row_cell(block, h, cycle_id, 4 * r + k, 96 + 3 * g) == m as u64);
    assert(spec_fused_row_cell(block, h, cycle_id, 4 * r + k, 97 + 3 * g) == block[m] as u64);
    assert(spec_fused_row_cell(block, h, cycle_id, 4 * r + k, 98 + 3 * g) == cycle_id);
    assert forall|k1: int, g1: int, k2: int, g2: int|
        0 <= k1 < 4 && 0 <= g1 < 4 && 0 <= k2 < 4 && 0 <= g2 < 4 && #[trigger] spec_fused_row_cell(
            block,
            h,
            cycle_id,
            4 * r + k1,
            96 + 3 * g1,
        ) == m as u64 && #[trigger] spec_fused_row_cell(block, h, cycle_id, 4 * r + k2, 96 + 3 * g2)
            == m as u64 implies k1 == k2 && g1 == g2 by {
        lemma_row_message_index_range(4 * r + k1, g1);
        lemma_row_message_index_range(4 * r + k2, g2);
        assert(spec_row_message_index(4 * r + k1, g1) == m);
        assert(spec_row_message_index(4 * r + k2, g2) == m);
    }
    let f = m / 4;
    let w = m % 4;
    assert(spec_footer_row(block, h, cycle_id, mode, f)[54 + 3 * w] == m as u64);
    assert(spec_footer_row(block, h, cycle_id, mode, f)[55 + 3 * w] == block[m] as u64);
    assert(spec_footer_row(block, h, cycle_id, mode, f)[56 + 3 * w] == cycle_id);
    assert forall|f1: int, w1: int, f2: int, w2: int|
        0 <= f1 < 4 && 0 <= w1 < 4 && 0 <= f2 < 4 && 0 <= w2 < 4 && #[trigger] spec_footer_row(
            block,
            h,
            cycle_id,
            mode,
            f1,
        )[54 + 3 * w1] == m as u64 && #[trigger] spec_footer_row(block, h, cycle_id, mode, f2)[54 + 3
            * w2] == m as u64 implies f1 == f2 && w1 == w2 by {
        assert(spec_footer_row(block, h, cycle_id, mode, f1)[54 + 3 * w1] == (4 * f1 + w1) as u64);
        assert(spec_footer_row(block, h, cycle_id, mode, f2)[54 + 3 * w2] == (4 * f2 + w2) as u64);
    }
}


/// Every internal binding of a cycle carries the cycle's identifier: the message slots of all
/// 28 fused rows and the message slots of the footer rows hold `cycle_id`, each footer row
/// holds it in its identifier column, and its input-pair slot is keyed by
/// `4 * cycle_id + footer`.
pub proof fn lemma_block_carries_its_cycle_id(
    block: Seq<u32>,
    h: Seq<u32>,
    cycle_id: u64,
    mode: TraceMode,
)
    requires
        block.len() == 16,
        h.len() == 8,
    ensures
        forall|row: int, g: int|
            0 <= row < FUSED_G_ROWS && 0 <= g < 4 ==> #[trigger] spec_fused_row_cell(
                block,
                h,
                cycle_id,
                row,
                98 + 3 * g,
            ) == cycle_id,
        forall|f: int, w: int|
            0 <= f < FOOTER_ROWS && 0 <= w < 4 ==> #[trigger] spec_footer_row(block, h, cycle_id, mode, f)[56
                + 3 * w] == cycle_id,
        forall|f: int|
            0 <= f < FOOTER_ROWS ==> #[trigger] spec_footer_row(block, h, cycle_id, mode, f)[125] == cycle_id,
        forall|f: int|
            0 <= f < FOOTER_ROWS ==> #[trigger] spec_footer_row(block, h, cycle_id, mode, f)[51] == (4
                * cycle_id + f) as u64,
{
    assert forall|row: int, g: int| 0 <= row < FUSED_G_ROWS && 0 <= g < 4 implies #[trigger] spec_fused_row_cell(
        block,
        h,
        cycle_id,
        row,
        98 + 3 * g,
    ) == cycle_id by {
        assert((98 + 3 * g - 96) / 3 == g);
        assert((98 + 3 * g - 96) % 3 == 2);
    }
    assert forall|f: int, w: int| 0 <= f < FOOTER_ROWS && 0 <= w < 4 implies #[trigger] spec_footer_row(
        block,
        h,
        cycle_id,
        mode,
        f,
    )[56 + 3 * w] == cycle_id by {
        assert((56 + 3 * w - 54) / 3 == w);
        assert((56 + 3 * w - 54) % 3 == 2);
    }
}

} // verus!
