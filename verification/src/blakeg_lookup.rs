//! Lookup plan of the 32-row BlakeG compression cycle.
//!
//! Every row emits up to forty narrow lookups, batched two per auxiliary column in the first
//! twenty auxiliary columns, and the final footer row emits mode-specific singleton lookups in the
//! last four auxiliary columns. Internal relations (message words, input chaining-value pairs)
//! balance over one cycle: what the fused rows consume, the footer rows provide.
use vstd::prelude::*;

use crate::blakeg_layout::{
    row_kind, spec_row_kind, RowKind, AUX_COLS, BLOCK_PERIOD, BYTE_SLOTS_PER_STEP,
    FOOTER_ROWS, FOOTER_START, FUSED_G_ROWS, F_MSG_WORD_SLOTS, F_RANGE_SLOTS, NUM_G,
};
use crate::field::{fadd, fmul, fsub, Felt, MODULUS};

verus! {

/// External relation of a physical compression cycle.
#[derive(Debug, Clone, Copy, PartialEq, Eq, Structural)]
pub enum BlakeGCompressionMode {
    Compression,
    AeadXof,
}

/// Relation of a narrow (batched) lookup.
#[derive(Debug, Clone, Copy, PartialEq, Eq, Structural)]
pub enum NarrowLookupKind {
    And8,
    Rot12,
    Rot7,
    MessageWord,
    InputPair,
    RangeCheck,
}

/// One narrow lookup: its relation and its signed multiplicity.
#[derive(Debug, Clone, Copy, PartialEq, Eq, Structural)]
pub struct NarrowLookup {
    pub kind: NarrowLookupKind,
    pub sign: i8,
}

/// Relation of a singleton lookup of the final footer row.
#[derive(Debug, Clone, Copy, PartialEq, Eq, Structural)]
pub enum SingletonLookupKind {
    CompressionLink,
    AeadInput,
    AeadLowOutputPair,
    AeadHighOutputPair,
}

/// One singleton lookup: its relation and its signed multiplicity.
#[derive(Debug, Clone, Copy, PartialEq, Eq, Structural)]
pub struct SingletonLookup {
    pub kind: SingletonLookupKind,
    pub sign: i8,
}

/// The lookups of one row, in slot order.
#[derive(Debug, Clone)]
pub struct LookupPlan {
    pub narrow: Vec<NarrowLookup>,
    pub singletons: Vec<SingletonLookup>,
}

/// Auxiliary columns holding batched pairs of narrow lookups.
pub const NARROW_BATCH_COLUMNS: usize = 20;

/// Auxiliary column of the compression-link singleton.
pub const COMPRESSION_LINK_COLUMN: usize = 20;

/// Auxiliary column of the AEAD input singleton.
pub const AEAD_INPUT_COLUMN: usize = 21;

/// Auxiliary column of the AEAD low output pairs.
pub const AEAD_LOW_OUTPUT_COLUMN: usize = 22;

/// Auxiliary column of the AEAD high output pairs.
pub const AEAD_HIGH_OUTPUT_COLUMN: usize = 23;

/// AND8 lookups on a footer row: two words of output bytes, two words of high bytes, and the
/// top-bit mask byte.
pub const FOOTER_AND8_LOOKUPS: usize = 17;

/// The lookup argument of the BlakeG compression cycle.
#[derive(Debug, Clone, Copy)]
pub struct BlakeGCompressionLookupAir;

impl BlakeGCompressionLookupAir {
    /// The number of auxiliary lookup columns.
    pub fn num_columns(&self) -> (r: usize)
        ensures
            r == AUX_COLS,
    {
        AUX_COLS
    }

    /// The number of lookup fractions of each auxiliary column.
    pub fn column_shape(&self) -> (r: [usize; 24])
        ensures
            forall|i: int| 0 <= i < NARROW_BATCH_COLUMNS ==> r@[i] == 2,
            forall|i: int| NARROW_BATCH_COLUMNS <= i < AUX_COLS ==> r@[i] == 1,
    {
        blakeg_lookup_column_shape()
    }
}

/// Number of lookup fractions grouped into each auxiliary column.
pub fn blakeg_lookup_column_shape() -> (r: [usize; 24])
    ensures
        forall|i: int| 0 <= i < 20 ==> r@[i] == 2,
        forall|i: int| 20 <= i < 24 ==> r@[i] == 1,
{
    [2, 2, 2, 2, 2, 2, 2, 2, 2, 2, 2, 2, 2, 2, 2, 2, 2, 2, 2, 2, 1, 1, 1, 1]
}

/// `n` copies of a narrow lookup.
pub open spec fn repeat_narrow(kind: NarrowLookupKind, sign: int, n: nat) -> Seq<NarrowLookup> {
    Seq::new(n, |i: int| NarrowLookup { kind, sign: sign as i8 })
}

/// The narrow lookups of a fused G row with the given rotation relation.
pub open spec fn fused_narrow(rotation: NarrowLookupKind) -> Seq<NarrowLookup> {
    repeat_narrow(NarrowLookupKind::And8, -1, 16) + repeat_narrow(rotation, -1, 16)
        + repeat_narrow(NarrowLookupKind::MessageWord, 1, 4)
}

/// The narrow lookups of a footer row.
pub open spec fn footer_narrow() -> Seq<NarrowLookup> {
    repeat_narrow(NarrowLookupKind::And8, -1, 17) + repeat_narrow(NarrowLookupKind::InputPair, 1, 1)
        + repeat_narrow(NarrowLookupKind::MessageWord, -7, 4) + repeat_narrow(
        NarrowLookupKind::RangeCheck,
        -1,
        8,
    )
}

/// The narrow lookups of row `row`.
pub open spec fn spec_plan_narrow(row: int) -> Seq<NarrowLookup> {
    match spec_row_kind(row) {
        RowKind::Ab => if row == 0 {
            fused_narrow(NarrowLookupKind::Rot12) + repeat_narrow(NarrowLookupKind::InputPair, -1, 4)
        } else {
            fused_narrow(NarrowLookupKind::Rot12)
        },
        RowKind::AbDiag => fused_narrow(NarrowLookupKind::Rot12),
        RowKind::Cd | RowKind::CdDiag => fused_narrow(NarrowLookupKind::Rot7),
        RowKind::Footer(_) => footer_narrow(),
    }
}

/// The singleton lookups of row `row`.
pub open spec fn spec_plan_singletons(row: int, mode: BlakeGCompressionMode) -> Seq<SingletonLookup> {
    if row != BLOCK_PERIOD - 1 && row >= FOOTER_START && mode == BlakeGCompressionMode::AeadXof {
        seq![
            SingletonLookup { kind: SingletonLookupKind::AeadLowOutputPair, sign: (-1) as i8 },
            SingletonLookup { kind: SingletonLookupKind::AeadHighOutputPair, sign: (-1) as i8 },
        ]
    } else if row == BLOCK_PERIOD - 1 && mode == BlakeGCompressionMode::AeadXof {
        seq![
            SingletonLookup { kind: SingletonLookupKind::AeadInput, sign: (-1) as i8 },
            SingletonLookup { kind: SingletonLookupKind::AeadLowOutputPair, sign: (-1) as i8 },
            SingletonLookup { kind: SingletonLookupKind::AeadHighOutputPair, sign: (-1) as i8 },
        ]
    } else if row == BLOCK_PERIOD - 1 {
        seq![SingletonLookup { kind: SingletonLookupKind::CompressionLink, sign: (-1) as i8 }]
    } else {
        seq![]
    }
}

impl LookupPlan {
    /// Auxiliary columns used by the narrow lookups: two per column.
    pub fn narrow_aux_columns(&self) -> (r: usize)
        ensures
            r == (self.narrow@.len() + 1) / 2,
    {
        self.narrow.len() / 2 + self.narrow.len() % 2
    }

    /// The auxiliary column holding narrow slot `slot`.
    pub fn narrow_aux_column(slot: usize) -> (r: usize)
        ensures
            r == slot / 2,
    {
        slot / 2
    }

    /// The auxiliary column holding a singleton lookup.
    pub fn singleton_aux_column(kind: SingletonLookupKind) -> (r: usize)
        ensures
            r == spec_singleton_aux_column(kind),
    {
        match kind {
            SingletonLookupKind::CompressionLink => COMPRESSION_LINK_COLUMN,
            SingletonLookupKind::AeadInput => AEAD_INPUT_COLUMN,
            SingletonLookupKind::AeadLowOutputPair => AEAD_LOW_OUTPUT_COLUMN,
            SingletonLookupKind::AeadHighOutputPair => AEAD_HIGH_OUTPUT_COLUMN,
        }
    }
}

/// The auxiliary column holding a singleton lookup.
pub open spec fn spec_singleton_aux_column(kind: SingletonLookupKind) -> usize {
    match kind {
        SingletonLookupKind::CompressionLink => COMPRESSION_LINK_COLUMN,
        SingletonLookupKind::AeadInput => AEAD_INPUT_COLUMN,
        SingletonLookupKind::AeadLowOutputPair => AEAD_LOW_OUTPUT_COLUMN,
        SingletonLookupKind::AeadHighOutputPair => AEAD_HIGH_OUTPUT_COLUMN,
    }
}

fn push_narrow(plan: &mut LookupPlan, kind: NarrowLookupKind, sign: i8, count: usize)
    ensures
        final(plan).narrow@ == old(plan).narrow@ + repeat_narrow(kind, sign as int, count as nat),
        final(plan).singletons@ == old(plan).singletons@,
{
    let mut i: usize = 0;
    while i < count
        invariant
            i <= count,
            plan.narrow@ == old(plan).narrow@ + repeat_narrow(kind, sign as int, i as nat),
            plan.singletons@ == old(plan).singletons@,
        decreases count - i,
    {
        plan.narrow.push(NarrowLookup { kind, sign });
        proof {
            assert(repeat_narrow(kind, sign as int, (i + 1) as nat) =~= repeat_narrow(
                kind,
                sign as int,
                i as nat,
            ).push(NarrowLookup { kind, sign }));
        }
        i = i + 1;
    }
}

fn add_fused_g_lookups(plan: &mut LookupPlan, rotation_kind: NarrowLookupKind)
    ensures
        final(plan).narrow@ == old(plan).narrow@ + fused_narrow(rotation_kind),
        final(plan).singletons@ == old(plan).singletons@,
{
    push_narrow(plan, NarrowLookupKind::And8, -1, BYTE_SLOTS_PER_STEP);
    push_narrow(plan, rotation_kind, -1, BYTE_SLOTS_PER_STEP);
    push_narrow(plan, NarrowLookupKind::MessageWord, 1, NUM_G);
    proof {
        assert(plan.narrow@ =~= old(plan).narrow@ + fused_narrow(rotation_kind));
    }
}

fn add_footer_lookups(plan: &mut LookupPlan, footer: usize, mode: BlakeGCompressionMode)
    requires
        footer < FOOTER_ROWS,
    ensures
        final(plan).narrow@ == old(plan).narrow@ + footer_narrow(),
        final(plan).singletons@ == old(plan).singletons@ + spec_plan_singletons(
            FOOTER_START + footer,
            mode,
        ),
{
    push_narrow(plan, NarrowLookupKind::And8, -1, FOOTER_AND8_LOOKUPS);
    push_narrow(plan, NarrowLookupKind::InputPair, 1, 1);
    push_narrow(plan, NarrowLookupKind::MessageWord, -7, F_MSG_WORD_SLOTS);
    push_narrow(plan, NarrowLookupKind::RangeCheck, -1, F_RANGE_SLOTS);
    proof {
        assert(plan.narrow@ =~= old(plan).narrow@ + footer_narrow());
    }
    let ghost before = plan.singletons@;
    match mode {
        BlakeGCompressionMode::Compression => {
            if footer == FOOTER_ROWS - 1 {
                plan.singletons.push(
                    SingletonLookup { kind: SingletonLookupKind::CompressionLink, sign: -1 },
                );
            }
        },
        BlakeGCompressionMode::AeadXof => {
            if footer == FOOTER_ROWS - 1 {
                plan.singletons.push(
                    SingletonLookup { kind: SingletonLookupKind::AeadInput, sign: -1 },
                );
            }
            plan.singletons.push(
                SingletonLookup { kind: SingletonLookupKind::AeadLowOutputPair, sign: -1 },
            );
            plan.singletons.push(
                SingletonLookup { kind: SingletonLookupKind::AeadHighOutputPair, sign: -1 },
            );
        },
    }
    proof {
        assert(plan.singletons@ =~= before + spec_plan_singletons(FOOTER_START + footer, mode));
    }
}

/// The lookups emitted by row `row` of a cycle in the given mode.
pub fn lookup_plan(row: usize, mode: BlakeGCompressionMode) -> (r: LookupPlan)
    requires
        row < BLOCK_PERIOD,
    ensures
        r.narrow@ == spec_plan_narrow(row as int),
        r.singletons@ == spec_plan_singletons(row as int, mode),
{
    let mut plan = LookupPlan { narrow: Vec::new(), singletons: Vec::new() };
    match row_kind(row) {
        RowKind::Ab => {
            add_fused_g_lookups(&mut plan, NarrowLookupKind::Rot12);
            if row == 0 {
                push_narrow(&mut plan, NarrowLookupKind::InputPair, -1, 4);
            }
        },
        RowKind::AbDiag => add_fused_g_lookups(&mut plan, NarrowLookupKind::Rot12),
        RowKind::Cd | RowKind::CdDiag => add_fused_g_lookups(&mut plan, NarrowLookupKind::Rot7),
        RowKind::Footer(footer) => add_footer_lookups(&mut plan, footer, mode),
    }
    proof {
        assert(plan.narrow@ =~= spec_plan_narrow(row as int));
        assert(plan.singletons@ =~= spec_plan_singletons(row as int, mode));
    }
    plan
}

// ---------------------------------------------------------------------------------------------
// Per-slot multiplicities

/// Periodic row-family selectors of one row.
#[derive(Debug, Clone, Copy)]
pub struct RowSelectors {
    /// 1 on `a/b` half rows (column and diagonal).
    pub is_ab: Felt,
    /// 1 on `c/d` half rows (column and diagonal).
    pub is_cd: Felt,
    /// 1 on footer rows.
    pub is_footer: Felt,
    /// 1 on the first fused row.
    pub is_first_fused: Felt,
}

/// The row-family selector values of row `row`: `(is_ab, is_cd, is_footer, is_first_fused)`.
pub open spec fn spec_row_selectors(row: int) -> (int, int, int, int) {
    match spec_row_kind(row) {
        RowKind::Ab => (1, 0, 0, if row == 0 { 1int } else { 0 }),
        RowKind::AbDiag => (1, 0, 0, 0),
        RowKind::Cd | RowKind::CdDiag => (0, 1, 0, 0),
        RowKind::Footer(_) => (0, 0, 1, 0),
    }
}

/// The row-family selectors of row `row`.
pub fn row_selectors(row: usize) -> (r: RowSelectors)
    requires
        row < BLOCK_PERIOD,
    ensures
        (r.is_ab@ as int, r.is_cd@ as int, r.is_footer@ as int, r.is_first_fused@ as int)
            == spec_row_selectors(row as int),
{
    let z = Felt::zero();
    let o = Felt::one();
    match row_kind(row) {
        RowKind::Ab => RowSelectors {
            is_ab: o,
            is_cd: z,
            is_footer: z,
            is_first_fused: if row == 0 {
                o
            } else {
                z
            },
        },
        RowKind::AbDiag => RowSelectors { is_ab: o, is_cd: z, is_footer: z, is_first_fused: z },
        RowKind::Cd | RowKind::CdDiag => RowSelectors {
            is_ab: z,
            is_cd: o,
            is_footer: z,
            is_first_fused: z,
        },
        RowKind::Footer(_) => RowSelectors { is_ab: z, is_cd: z, is_footer: o, is_first_fused: z },
    }
}

/// The signed multiplicity of narrow slot `slot`, as an integer polynomial in the row-family
/// selectors (`fused = is_ab + is_cd`).
pub open spec fn slot_multiplicity(slot: int, fused: int, footer: int, first: int) -> int {
    if slot <= 16 {
        -(fused + footer)
    } else if slot == 17 {
        -fused + footer
    } else if slot <= 21 {
        -fused - 7 * footer
    } else if slot <= 29 {
        -(fused + footer)
    } else if slot <= 31 {
        -fused
    } else if slot <= 35 {
        fused
    } else {
        -first
    }
}

/// The activity of narrow slot `slot`: 1 where the slot carries a lookup.
pub open spec fn slot_activity(slot: int, fused: int, footer: int, first: int) -> int {
    if slot <= 29 {
        fused + footer
    } else if slot <= 35 {
        fused
    } else {
        first
    }
}

/// The field value of an integer.
pub open spec fn as_field(x: int) -> int {
    x % (MODULUS as int)
}

/// The signed multiplicity of narrow slot `slot` on a row with the given selectors.
pub fn narrow_slot_multiplicity(slot: usize, selectors: &RowSelectors) -> (r: Felt)
    requires
        slot < 40,
    ensures
        r@ == as_field(
            slot_multiplicity(
                slot as int,
                selectors.is_ab@ + selectors.is_cd@,
                selectors.is_footer@ as int,
                selectors.is_first_fused@ as int,
            ),
        ),
{
    let _ = (
        selectors.is_ab.as_canonical_u64(),
        selectors.is_cd.as_canonical_u64(),
        selectors.is_footer.as_canonical_u64(),
        selectors.is_first_fused.as_canonical_u64(),
    );
    let fused = selectors.is_ab.add(selectors.is_cd);
    let footer = selectors.is_footer;
    let zero = Felt::zero();
    let seven = Felt::from_u32(7);
    let r = if slot <= 16 {
        zero.sub(fused.add(footer))
    } else if slot == 17 {
        zero.sub(fused).add(footer)
    } else if slot <= 21 {
        zero.sub(fused).sub(seven.mul(footer))
    } else if slot <= 29 {
        zero.sub(fused.add(footer))
    } else if slot <= 31 {
        zero.sub(fused)
    } else if slot <= 35 {
        fused
    } else {
        zero.sub(selectors.is_first_fused)
    };
    proof {
        lemma_field_arith(
            selectors.is_ab@ as int,
            selectors.is_cd@ as int,
            footer@ as int,
            selectors.is_first_fused@ as int,
        );
    }
    r
}

/// The activity of narrow slot `slot` on a row with the given selectors.
pub fn narrow_slot_activity(slot: usize, selectors: &RowSelectors) -> (r: Felt)
    requires
        slot < 40,
    ensures
        r@ == as_field(
            slot_activity(
                slot as int,
                selectors.is_ab@ + selectors.is_cd@,
                selectors.is_footer@ as int,
                selectors.is_first_fused@ as int,
            ),
        ),
{
    let _ = (
        selectors.is_ab.as_canonical_u64(),
        selectors.is_cd.as_canonical_u64(),
        selectors.is_footer.as_canonical_u64(),
        selectors.is_first_fused.as_canonical_u64(),
    );
    let fused = selectors.is_ab.add(selectors.is_cd);
    proof {
        lemma_field_arith(
            selectors.is_ab@ as int,
            selectors.is_cd@ as int,
            selectors.is_footer@ as int,
            selectors.is_first_fused@ as int,
        );
    }
    if slot <= 29 {
        fused.add(selectors.is_footer)
    } else if slot <= 35 {
        fused
    } else {
        selectors.is_first_fused
    }
}

proof fn lemma_mod_add_left(x: int, y: int)
    ensures
        ((x % (MODULUS as int)) + y) % (MODULUS as int) == (x + y) % (MODULUS as int),
{
    vstd::arithmetic::div_mod::lemma_add_mod_noop(x, y, MODULUS as int);
    vstd::arithmetic::div_mod::lemma_mod_twice(x, MODULUS as int);
    vstd::arithmetic::div_mod::lemma_add_mod_noop(x % (MODULUS as int), y, MODULUS as int);
}

proof fn lemma_mod_sub_right(x: int, y: int)
    ensures
        (x - (y % (MODULUS as int))) % (MODULUS as int) == (x - y) % (MODULUS as int),
{
    vstd::arithmetic::div_mod::lemma_sub_mod_noop(x, y, MODULUS as int);
    vstd::arithmetic::div_mod::lemma_mod_twice(y, MODULUS as int);
    vstd::arithmetic::div_mod::lemma_sub_mod_noop(x, y % (MODULUS as int), MODULUS as int);
}

proof fn lemma_mod_sub_left(x: int, y: int)
    ensures
        ((x % (MODULUS as int)) - y) % (MODULUS as int) == (x - y) % (MODULUS as int),
{
    vstd::arithmetic::div_mod::lemma_sub_mod_noop(x, y, MODULUS as int);
    vstd::arithmetic::div_mod::lemma_mod_twice(x, MODULUS as int);
    vstd::arithmetic::div_mod::lemma_sub_mod_noop(x % (MODULUS as int), y, MODULUS as int);
}

proof fn lemma_field_arith(a: int, c: int, f: int, first: int)
    requires
        0 <= a < MODULUS,
        0 <= c < MODULUS,
        0 <= f < MODULUS,
        0 <= first < MODULUS,
    ensures
        fsub(0, fadd(fadd(a, c), f)) == as_field(-(a + c + f)),
        fadd(fsub(0, fadd(a, c)), f) == as_field(-(a + c) + f),
        fsub(fsub(0, fadd(a, c)), fmul(7, f)) == as_field(-(a + c) - 7 * f),
        fsub(0, fadd(a, c)) == as_field(-(a + c)),
        fadd(a, c) == as_field(a + c),
        fadd(fadd(a, c), f) == as_field(a + c + f),
        fsub(0, first) == as_field(-first),
        first == as_field(first),
{
    lemma_mod_add_left(a + c, f);
    lemma_mod_sub_right(0, a + c + f);
    lemma_mod_sub_right(0, a + c);
    lemma_mod_add_left(0 - (a + c), f);
    lemma_mod_sub_right(0 - (a + c), 7 * f);
    lemma_mod_sub_left(0 - (a + c), (7 * f) % (MODULUS as int));
    vstd::arithmetic::div_mod::lemma_small_mod(first as nat, MODULUS as nat);
}

// ---------------------------------------------------------------------------------------------
// Laws

/// The sum of the signs of the lookups of relation `kind`.
pub open spec fn signed_count(s: Seq<NarrowLookup>, kind: NarrowLookupKind) -> int
    decreases s.len(),
{
    if s.len() == 0 {
        0
    } else {
        signed_count(s.drop_last(), kind) + if s.last().kind == kind {
            s.last().sign as int
        } else {
            0
        }
    }
}

/// The sum of the signs of the lookups of relation `kind` over rows `0..n` of a cycle.
pub open spec fn cycle_signed_total(kind: NarrowLookupKind, n: int) -> int
    decreases n,
{
    if n <= 0 {
        0
    } else {
        cycle_signed_total(kind, n - 1) + signed_count(spec_plan_narrow(n - 1), kind)
    }
}

proof fn lemma_signed_count_concat(a: Seq<NarrowLookup>, b: Seq<NarrowLookup>, kind: NarrowLookupKind)
    ensures
        signed_count(a + b, kind) == signed_count(a, kind) + signed_count(b, kind),
    decreases b.len(),
{
    if b.len() == 0 {
        assert(a + b =~= a);
    } else {
        assert((a + b).drop_last() =~= a + b.drop_last());
        lemma_signed_count_concat(a, b.drop_last(), kind);
    }
}

proof fn lemma_signed_count_repeat(k: NarrowLookupKind, sign: int, n: nat, kind: NarrowLookupKind)
    requires
        -128 <= sign < 128,
    ensures
        signed_count(repeat_narrow(k, sign, n), kind) == if k == kind {
            sign * n
        } else {
            0
        },
    decreases n,
{
    if n > 0 {
        assert(repeat_narrow(k, sign, n).drop_last() =~= repeat_narrow(k, sign, (n - 1) as nat));
        lemma_signed_count_repeat(k, sign, (n - 1) as nat, kind);
        assert(sign * n == sign * (n - 1) + sign) by (nonlinear_arith);
    }
}

proof fn lemma_row_counts(row: int)
    requires
        0 <= row < BLOCK_PERIOD,
    ensures
        signed_count(spec_plan_narrow(row), NarrowLookupKind::MessageWord) == if row
            < FUSED_G_ROWS {
            4
        } else {
            -28
        },
        signed_count(spec_plan_narrow(row), NarrowLookupKind::InputPair) == if row == 0 {
            -4
        } else if row < FUSED_G_ROWS {
            0
        } else {
            1
        },
{
    let and8 = repeat_narrow(NarrowLookupKind::And8, -1, 16);
    let msg = repeat_narrow(NarrowLookupKind::MessageWord, 1, 4);
    let inp = repeat_narrow(NarrowLookupKind::InputPair, -1, 4);
    let kinds = seq![NarrowLookupKind::MessageWord, NarrowLookupKind::InputPair];
    assert forall|i: int| 0 <= i < 2 implies {
        let kind = #[trigger] kinds[i];
        &&& signed_count(fused_narrow(NarrowLookupKind::Rot12), kind) == if i == 0 {
            4int
        } else {
            0
        }
        &&& signed_count(fused_narrow(NarrowLookupKind::Rot7), kind) == if i == 0 {
            4int
        } else {
            0
        }
        &&& signed_count(footer_narrow(), kind) == if i == 0 {
            -28int
        } else {
            1
        }
        &&& signed_count(inp, kind) == if i == 0 {
            0int
        } else {
            -4
        }
    } by {
        let kind = kinds[i];
        lemma_signed_count_repeat(NarrowLookupKind::And8, -1, 16, kind);
        lemma_signed_count_repeat(NarrowLookupKind::Rot12, -1, 16, kind);
        lemma_signed_count_repeat(NarrowLookupKind::Rot7, -1, 16, kind);
        lemma_signed_count_repeat(NarrowLookupKind::MessageWord, 1, 4, kind);
        lemma_signed_count_repeat(NarrowLookupKind::And8, -1, 17, kind);
        lemma_signed_count_repeat(NarrowLookupKind::InputPair, 1, 1, kind);
        lemma_signed_count_repeat(NarrowLookupKind::InputPair, -1, 4, kind);
        lemma_signed_count_repeat(NarrowLookupKind::MessageWord, -7, 4, kind);
        lemma_signed_count_repeat(NarrowLookupKind::RangeCheck, -1, 8, kind);
        lemma_signed_count_concat(and8, repeat_narrow(NarrowLookupKind::Rot12, -1, 16), kind);
        lemma_signed_count_concat(
            and8 + repeat_narrow(NarrowLookupKind::Rot12, -1, 16),
            msg,
            kind,
        );
        lemma_signed_count_concat(and8, repeat_narrow(NarrowLookupKind::Rot7, -1, 16), kind);
        lemma_signed_count_concat(
            and8 + repeat_narrow(NarrowLookupKind::Rot7, -1, 16),
            msg,
            kind,
        );
        let f1 = repeat_narrow(NarrowLookupKind::And8, -1, 17);
        let f2 = repeat_narrow(NarrowLookupKind::InputPair, 1, 1);
        let f3 = repeat_narrow(NarrowLookupKind::MessageWord, -7, 4);
        let f4 = repeat_narrow(NarrowLookupKind::RangeCheck, -1, 8);
        lemma_signed_count_concat(f1, f2, kind);
        lemma_signed_count_concat(f1 + f2, f3, kind);
        lemma_signed_count_concat(f1 + f2 + f3, f4, kind);
    }
    assert(kinds[0] == NarrowLookupKind::MessageWord);
    assert(kinds[1] == NarrowLookupKind::InputPair);
    if row == 0 {
        lemma_signed_count_concat(fused_narrow(NarrowLookupKind::Rot12), inp, NarrowLookupKind::MessageWord);
        lemma_signed_count_concat(fused_narrow(NarrowLookupKind::Rot12), inp, NarrowLookupKind::InputPair);
    }
}

proof fn lemma_cycle_totals(n: int)
    requires
        0 <= n <= BLOCK_PERIOD,
    ensures
        cycle_signed_total(NarrowLookupKind::MessageWord, n) == if n <= FUSED_G_ROWS {
            4 * n
        } else {
            4 * FUSED_G_ROWS - 28 * (n - FUSED_G_ROWS)
        },
        cycle_signed_total(NarrowLookupKind::InputPair, n) == if n == 0 {
            0
        } else if n <= FUSED_G_ROWS {
            -4
        } else {
            -4 + (n - FUSED_G_ROWS)
        },
    decreases n,
{
    if n > 0 {
        lemma_cycle_totals(n - 1);
        lemma_row_counts(n - 1);
    }
}

/// Over one cycle the message-word relation and the input-pair relation balance: the fused rows
/// consume exactly what the footer rows provide.
pub proof fn lemma_internal_relations_balance()
    ensures
        cycle_signed_total(NarrowLookupKind::MessageWord, BLOCK_PERIOD as int) == 0,
        cycle_signed_total(NarrowLookupKind::InputPair, BLOCK_PERIOD as int) == 0,
{
    lemma_cycle_totals(BLOCK_PERIOD as int);
}

/// Every row's narrow lookups fit the twenty batched auxiliary columns (two per column); the
/// first row fills them exactly.
pub proof fn lemma_plans_fit_aux_columns(row: int)
    requires
        0 <= row < BLOCK_PERIOD,
    ensures
        spec_plan_narrow(row).len() <= 2 * NARROW_BATCH_COLUMNS,
        spec_plan_narrow(0).len() == 2 * NARROW_BATCH_COLUMNS,
        spec_plan_singletons(row, BlakeGCompressionMode::Compression).len() <= 1,
        spec_plan_singletons(row, BlakeGCompressionMode::AeadXof).len() <= 3,
{
}

/// The sign of narrow slot `slot` in a plan, or zero past its end.
pub open spec fn plan_slot_sign(plan: Seq<NarrowLookup>, slot: int) -> int {
    if slot < plan.len() {
        plan[slot].sign as int
    } else {
        0
    }
}

/// The per-slot multiplicity polynomials agree with the lookup plan on every row: on each row of
/// the cycle, slot `slot` carries the plan's signed lookup, and unused slots carry none.
pub proof fn lemma_multiplicities_match_plan(row: int, slot: int)
    requires
        0 <= row < BLOCK_PERIOD,
        0 <= slot < 2 * NARROW_BATCH_COLUMNS,
    ensures
        ({
            let (ab, cd, footer, first) = spec_row_selectors(row);
            slot_multiplicity(slot, ab + cd, footer, first) == plan_slot_sign(
                spec_plan_narrow(row),
                slot,
            )
        }),
{
    let p = spec_plan_narrow(row);
    if row >= FOOTER_START {
        assert(p == footer_narrow());
    } else if row == 0 {
        assert(p == fused_narrow(NarrowLookupKind::Rot12) + repeat_narrow(
            NarrowLookupKind::InputPair,
            -1,
            4,
        ));
    }
}

/// Every narrow slot is active exactly where the row's lookup plan has a lookup in it: on each
/// row of the cycle, the activity of slot `slot` is one when the slot lies within the row's plan
/// and zero on the idle slots past it, whose range-check padding `1 - activity` then applies.
pub proof fn lemma_activity_matches_plan(row: int, slot: int)
    requires
        0 <= row < BLOCK_PERIOD,
        0 <= slot < 2 * NARROW_BATCH_COLUMNS,
    ensures
        ({
            let (ab, cd, footer, first) = spec_row_selectors(row);
            slot_activity(slot, ab + cd, footer, first) == if slot < spec_plan_narrow(row).len() {
                1int
            } else {
                0
            }
        }),
{
    let p = spec_plan_narrow(row);
    if row >= FOOTER_START {
        assert(p == footer_narrow());
    } else if row == 0 {
        assert(p == fused_narrow(NarrowLookupKind::Rot12) + repeat_narrow(
            NarrowLookupKind::InputPair,
            -1,
            4,
        ));
    }
}

} // verus!
