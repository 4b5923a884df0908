//! Column layouts of the core and chiplets segments of the main execution trace.
//!
//! Each layout struct lists its columns in trace order; `spec_columns` gives that order, and
//! `from_columns` / `to_columns` convert between a layout and a flat row of columns.
use vstd::prelude::*;

verus! {

/// Number of system columns.
pub const NUM_SYSTEM_COLS: usize = 6;

/// Number of decoder columns.
pub const NUM_DECODER_COLS: usize = 24;

/// Number of stack columns.
pub const NUM_STACK_COLS: usize = 19;

/// Number of columns in the core trace: system, decoder and stack.
pub const NUM_CORE_COLS: usize = 49;

/// Width of the system segment of the main trace.
pub const SYS_TRACE_WIDTH: usize = 6;

/// Width of the decoder segment of the main trace.
pub const DECODER_TRACE_WIDTH: usize = 24;

/// Width of the stack segment of the main trace.
pub const STACK_TRACE_WIDTH: usize = 19;

/// Number of shared chiplet data columns.
pub const CHIPLETS_DATA_WIDTH: usize = 23;

/// Index of the shared mode cell among the chiplet data columns.
pub const CHIPLETS_MODE_COL: usize = 22;

/// Index of the chiplet clock column within the chiplets segment.
pub const CHIPLETS_CLK_COL: usize = 23;

/// Width of the chiplets segment: the data columns and the chiplet clock.
pub const CHIPLETS_WIDTH: usize = 24;

/// Number of columns in the chiplets trace.
pub const NUM_CHIPLETS_COLS: usize = 24;

/// Width of the unified main trace.
pub const TRACE_WIDTH: usize = 73;

/// Widths of the chiplet overlays on the shared data columns.
pub const NUM_BITWISE_COLS: usize = 13;

pub const NUM_AEAD_STREAM_COLS: usize = 20;

pub const NUM_MEMORY_COLS: usize = 15;

pub const NUM_ACE_COLS: usize = 16;

pub const NUM_KERNEL_ROM_COLS: usize = 5;

pub const NUM_CONTROLLER_COLS: usize = 19;

/// System columns: clock, context and the current function hash.
#[derive(Debug, Clone, Copy)]
pub struct SystemCols<T> {
    pub clk: T,
    pub ctx: T,
    pub fn_hash: [T; 4],
}

/// Decoder columns.
#[derive(Debug, Clone, Copy)]
pub struct DecoderCols<T> {
    pub addr: T,
    pub op_bits: [T; 7],
    pub hasher_state: [T; 8],
    pub in_span: T,
    pub group_count: T,
    pub op_index: T,
    pub batch_flags: [T; 3],
    pub extra: [T; 2],
}

/// Stack columns: the sixteen top elements and the bookkeeping columns.
#[derive(Debug, Clone, Copy)]
pub struct StackCols<T> {
    pub top: [T; 16],
    pub b0: T,
    pub b1: T,
    pub h0: T,
}

/// Column layout of the core execution trace: system, decoder and stack.
#[derive(Debug, Clone, Copy)]
pub struct CoreCols<T> {
    pub system: SystemCols<T>,
    pub decoder: DecoderCols<T>,
    pub stack: StackCols<T>,
}

/// Column layout of the chiplets execution trace: shared data columns and the chiplet clock.
#[derive(Debug, Clone, Copy)]
pub struct ChipletCols<T> {
    pub chiplets: [T; 23],
    /// Chiplet-trace row counter: 1 on the first row, incremented by one per row.
    pub chip_clk: T,
}

impl<T> SystemCols<T> {
    pub open spec fn spec_columns(self) -> Seq<T> {
        seq![self.clk, self.ctx] + self.fn_hash@
    }
}

impl<T> DecoderCols<T> {
    pub open spec fn spec_columns(self) -> Seq<T> {
        seq![self.addr] + self.op_bits@ + self.hasher_state@ + seq![
            self.in_span,
            self.group_count,
            self.op_index,
        ] + self.batch_flags@ + self.extra@
    }
}

impl<T> StackCols<T> {
    pub open spec fn spec_columns(self) -> Seq<T> {
        self.top@ + seq![self.b0, self.b1, self.h0]
    }
}

impl<T> CoreCols<T> {
    /// The core columns in trace order.
    pub open spec fn spec_columns(self) -> Seq<T> {
        self.system.spec_columns() + self.decoder.spec_columns() + self.stack.spec_columns()
    }
}

impl<T> ChipletCols<T> {
    /// The chiplet columns in trace order.
    pub open spec fn spec_columns(self) -> Seq<T> {
        self.chiplets@.push(self.chip_clk)
    }
}

fn copy_array<T: Copy, const N: usize>(cols: &[T], start: usize) -> (r: [T; N])
    requires
        0 < N,
        start + N <= cols.len(),
    ensures
        r@ == cols@.subrange(start as int, start + N),
{
    let mut r: [T; N] = vstd::array::array_fill_for_copy_types::<T, N>(cols[start]);
    let mut i: usize = 0;
    while i < N
        invariant
            start + N <= cols.len(),
            i <= N,
            forall|j: int| 0 <= j < i ==> r@[j] == cols@[start + j],
        decreases N - i,
    {
        r[i] = cols[start + i];
        i = i + 1;
    }
    assert(r@ =~= cols@.subrange(start as int, start + N));
    r
}

impl<T: Copy> CoreCols<T> {
    /// View a row of exactly `NUM_CORE_COLS` columns as the core layout.
    pub fn from_columns(cols: &[T]) -> (r: CoreCols<T>)
        requires
            cols.len() == NUM_CORE_COLS,
        ensures
            r.spec_columns() == cols@,
    {
        let system = SystemCols { clk: cols[0], ctx: cols[1], fn_hash: copy_array(cols, 2) };
        let decoder = DecoderCols {
            addr: cols[6],
            op_bits: copy_array(cols, 7),
            hasher_state: copy_array(cols, 14),
            in_span: cols[22],
            group_count: cols[23],
            op_index: cols[24],
            batch_flags: copy_array(cols, 25),
            extra: copy_array(cols, 28),
        };
        let stack = StackCols { top: copy_array(cols, 30), b0: cols[46], b1: cols[47], h0: cols[48] };
        let r = CoreCols { system, decoder, stack };
        assert(r.spec_columns() =~= cols@);
        r
    }

    /// The core columns as a flat row, in trace order.
    pub fn to_columns(&self) -> (r: Vec<T>)
        ensures
            r@ == self.spec_columns(),
    {
        let mut r: Vec<T> = Vec::new();
        r.push(self.system.clk);
        r.push(self.system.ctx);
        push_all(&mut r, &self.system.fn_hash);
        r.push(self.decoder.addr);
        push_all(&mut r, &self.decoder.op_bits);
        push_all(&mut r, &self.decoder.hasher_state);
        r.push(self.decoder.in_span);
        r.push(self.decoder.group_count);
        r.push(self.decoder.op_index);
        push_all(&mut r, &self.decoder.batch_flags);
        push_all(&mut r, &self.decoder.extra);
        push_all(&mut r, &self.stack.top);
        r.push(self.stack.b0);
        r.push(self.stack.b1);
        r.push(self.stack.h0);
        assert(r@ =~= self.spec_columns());
        r
    }
}

fn push_all<T: Copy>(out: &mut Vec<T>, items: &[T])
    ensures
        final(out)@ == old(out)@ + items@,
{
    let mut i: usize = 0;
    while i < items.len()
        invariant
            i <= items.len(),
            out@ == old(out)@ + items@.take(i as int),
        decreases items.len() - i,
    {
        out.push(items[i]);
        proof {
            assert(items@.take(i + 1) =~= items@.take(i as int).push(items@[i as int]));
        }
        i = i + 1;
    }
    assert(items@.take(items@.len() as int) =~= items@);
}

impl<T: Copy> ChipletCols<T> {
    /// View a row of exactly `NUM_CHIPLETS_COLS` columns as the chiplets layout.
    pub fn from_columns(cols: &[T]) -> (r: ChipletCols<T>)
        requires
            cols.len() == NUM_CHIPLETS_COLS,
        ensures
            r.spec_columns() == cols@,
    {
        let r = ChipletCols { chiplets: copy_array(cols, 0), chip_clk: cols[23] };
        assert(r.spec_columns() =~= cols@);
        r
    }

    /// The six columns of the chiplet selector logic: `[s_ctrl, stream_mode, s1, s2, s3, s4]`.
    ///
    /// The second entry is the shared mode cell, read as stream mode only in the bitwise region.
    pub fn chiplet_selectors(&self) -> (r: [T; 6])
        ensures
            r@ == seq![
                self.chiplets@[0],
                self.chiplets@[CHIPLETS_MODE_COL as int],
                self.chiplets@[1],
                self.chiplets@[2],
                self.chiplets@[3],
                self.chiplets@[4],
            ],
    {
        let r = [
            self.chiplets[0],
            self.bitwise_stream_mode(),
            self.chiplets[1],
            self.chiplets[2],
            self.chiplets[3],
            self.chiplets[4],
        ];
        assert(r@ =~= seq![
            self.chiplets@[0],
            self.chiplets@[CHIPLETS_MODE_COL as int],
            self.chiplets@[1],
            self.chiplets@[2],
            self.chiplets@[3],
            self.chiplets@[4],
        ]);
        r
    }

    /// The bitwise-local stream mode (the shared mode cell); meaningful only in the bitwise
    /// selector region.
    pub fn bitwise_stream_mode(&self) -> (r: T)
        ensures
            r == self.chiplets@[CHIPLETS_MODE_COL as int],
    {
        self.chiplets[CHIPLETS_MODE_COL]
    }

    /// The bitwise chiplet columns, `chiplets[2..15]`.
    pub fn bitwise(&self) -> (r: &[T])
        ensures
            r@ == self.chiplets@.subrange(2, 15),
    {
        &self.chiplets[2..15]
    }

    /// The AEAD stream columns, `chiplets[2..22]`.
    pub fn aead_stream(&self) -> (r: &[T])
        ensures
            r@ == self.chiplets@.subrange(2, 22),
    {
        &self.chiplets[2..22]
    }

    /// The memory chiplet columns, `chiplets[3..18]`.
    pub fn memory(&self) -> (r: &[T])
        ensures
            r@ == self.chiplets@.subrange(3, 18),
    {
        &self.chiplets[3..18]
    }

    /// The lower 16-bit limb of the memory word address, `chiplets[18]`.
    pub fn memory_word_addr_lo(&self) -> (r: T)
        ensures
            r == self.chiplets@[18],
    {
        self.chiplets[18]
    }

    /// The upper 16-bit limb of the memory word address, `chiplets[19]`.
    pub fn memory_word_addr_hi(&self) -> (r: T)
        ensures
            r == self.chiplets@[19],
    {
        self.chiplets[19]
    }

    /// The ACE chiplet columns, `chiplets[4..20]`.
    pub fn ace(&self) -> (r: &[T])
        ensures
            r@ == self.chiplets@.subrange(4, 20),
    {
        &self.chiplets[4..20]
    }

    /// The kernel ROM chiplet columns, `chiplets[5..10]`.
    pub fn kernel_rom(&self) -> (r: &[T])
        ensures
            r@ == self.chiplets@.subrange(5, 10),
    {
        &self.chiplets[5..10]
    }

    /// The hasher-controller columns, `chiplets[1..20]`.
    pub fn controller(&self) -> (r: &[T])
        ensures
            r@ == self.chiplets@.subrange(1, 20),
    {
        &self.chiplets[1..20]
    }

    /// The controller-local final-row marker, `chiplets[20]`; meaningful only on controller rows.
    pub fn controller_op_final(&self) -> (r: T)
        ensures
            r == self.chiplets@[20],
    {
        self.chiplets[20]
    }

    /// The controller-local MRUPDATE id, `chiplets[21]`; meaningful only on controller rows.
    pub fn controller_mrupdate_id(&self) -> (r: T)
        ensures
            r == self.chiplets@[21],
    {
        self.chiplets[21]
    }

    /// The shared mode cell as read by controller rows (`is_merkle + is_padding`).
    pub fn controller_merkle_or_padding(&self) -> (r: T)
        ensures
            r == self.chiplets@[CHIPLETS_MODE_COL as int],
    {
        self.chiplets[CHIPLETS_MODE_COL]
    }
}

/// The array `[0, 1, ..., N - 1]`.
pub fn indices_arr<const N: usize>() -> (r: [usize; N])
    ensures
        forall|i: int| 0 <= i < N ==> r@[i] == i,
{
    let mut arr: [usize; N] = vstd::array::array_fill_for_copy_types::<usize, N>(0);
    let mut i: usize = 0;
    while i < N
        invariant
            i <= N,
            forall|j: int| 0 <= j < i ==> arr@[j] == j,
        decreases N - i,
    {
        arr[i] = i;
        i = i + 1;
    }
    arr
}

/// The core layout whose every column holds its own index.
pub fn core_col_map() -> (r: CoreCols<usize>)
    ensures
        r.spec_columns() == Seq::new(NUM_CORE_COLS as nat, |i: int| i as usize),
{
    let idx = indices_arr::<49>();
    assert(idx@ =~= Seq::new(NUM_CORE_COLS as nat, |i: int| i as usize));
    CoreCols::from_columns(&idx)
}

/// The chiplets layout whose every column holds its own index.
pub fn chiplet_col_map() -> (r: ChipletCols<usize>)
    ensures
        r.spec_columns() == Seq::new(NUM_CHIPLETS_COLS as nat, |i: int| i as usize),
{
    let idx = indices_arr::<24>();
    assert(idx@ =~= Seq::new(NUM_CHIPLETS_COLS as nat, |i: int| i as usize));
    ChipletCols::from_columns(&idx)
}

/// The core layout covers the system, decoder and stack segments exactly, and with the chiplets
/// segment the whole main trace.
pub proof fn lemma_core_layout_widths<T>(c: CoreCols<T>, k: ChipletCols<T>)
    ensures
        c.system.spec_columns().len() == NUM_SYSTEM_COLS,
        c.decoder.spec_columns().len() == NUM_DECODER_COLS,
        c.stack.spec_columns().len() == NUM_STACK_COLS,
        c.spec_columns().len() == NUM_CORE_COLS,
        NUM_CORE_COLS == NUM_SYSTEM_COLS + NUM_DECODER_COLS + NUM_STACK_COLS,
        k.spec_columns().len() == NUM_CHIPLETS_COLS,
        NUM_CHIPLETS_COLS == CHIPLETS_WIDTH,
        NUM_CORE_COLS + NUM_CHIPLETS_COLS == TRACE_WIDTH,
{
}

} // verus!
