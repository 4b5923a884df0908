//! Typed read-only views of the 128 columns of a fused G row and of a footer row.
use vstd::prelude::*;

use crate::blakeg_layout::{
    footer_msg_word_slot_col, footer_range_slot_col, footer_xor_slot_col, g_ac_byte_slot_col,
    g_bd_rot_slot_col, g_msg_slot_col, BYTES_PER_WORD, BYTE_SLOTS_PER_STEP, F_CLK_COL,
    F_COMPRESSION_CYCLE_ID_COL, F_COMPRESSION_MULTIPLICITY_COL, F_C_BASE_COL, F_C_CANON_INV_COL,
    F_C_CANON_Z_COL, F_D_BASE_COL, F_FUTURE_W_BASE_COL, F_FUTURE_W_COLS, F_HIN_SLOT_BASE_COL,
    F_MODE_COL, F_MSG_WORD_SLOTS, F_RANGE_SLOTS, F_R_BASE_COL, F_R_CANON_INV_BASE_COL,
    F_R_CANON_Z_BASE_COL, F_TOP_BIT_SLOT_BASE_COL, G_A_BASE_COL, G_C_BASE_COL, G_K2_BASE_COL,
    G_K3_BIT0_BASE_COL, G_K3_BIT1_BASE_COL, NUM_COLS, NUM_G,
};

verus! {

/// The three fields of a lookup slot.
#[derive(Debug, Clone, Copy, PartialEq, Eq)]
pub struct LookupSlot<T> {
    pub field0: T,
    pub field1: T,
    pub field2: T,
}

/// The slot whose fields are the cells `base`, `base + 1` and `base + 2` of `cols`.
pub open spec fn spec_slot<T>(cols: Seq<T>, base: int) -> LookupSlot<T> {
    LookupSlot { field0: cols[base], field1: cols[base + 1], field2: cols[base + 2] }
}

fn slot_at<T: Copy>(cols: &[T], base: usize) -> (r: LookupSlot<T>)
    requires
        base + 3 <= cols@.len(),
    ensures
        r == spec_slot(cols@, base as int),
{
    LookupSlot { field0: cols[base], field1: cols[base + 1], field2: cols[base + 2] }
}

/// A fused G row, read through its column groups.
pub struct FusedGRow<'a, T> {
    cols: &'a [T],
}

impl<'a, T> FusedGRow<'a, T> {
    #[verifier::type_invariant]
    spec fn full_width(self) -> bool {
        self.cols@.len() == NUM_COLS
    }

    /// The row's cells.
    pub closed spec fn cells(&self) -> Seq<T> {
        self.cols@
    }
}

impl<'a, T: Copy> FusedGRow<'a, T> {
    /// View a 128-column row as a fused G row.
    pub fn new(cols: &'a [T]) -> (r: Self)
        requires
            cols@.len() == NUM_COLS,
        ensures
            r.cells() == cols@,
    {
        FusedGRow { cols }
    }

    /// The byte-AND slot of byte `byte` of G function `g`.
    pub fn ac_byte_slot(&self, g: usize, byte: usize) -> (r: LookupSlot<T>)
        requires
            g < NUM_G,
            byte < BYTES_PER_WORD,
        ensures
            r == spec_slot(self.cells(), 12 * g + 3 * byte),
    {
        proof {
            use_type_invariant(self);
        }
        slot_at(self.cols, g_ac_byte_slot_col(g, byte, 0))
    }

    /// The rotation slot of byte `byte` of G function `g`.
    pub fn bd_rot_slot(&self, g: usize, byte: usize) -> (r: LookupSlot<T>)
        requires
            g < NUM_G,
            byte < BYTES_PER_WORD,
        ensures
            r == spec_slot(self.cells(), 48 + 12 * g + 3 * byte),
    {
        proof {
            use_type_invariant(self);
        }
        slot_at(self.cols, g_bd_rot_slot_col(g, byte, 0))
    }

    /// The message slot of G function `g`.
    pub fn msg_slot(&self, g: usize) -> (r: LookupSlot<T>)
        requires
            g < NUM_G,
        ensures
            r == spec_slot(self.cells(), 96 + 3 * g),
    {
        proof {
            use_type_invariant(self);
        }
        slot_at(self.cols, g_msg_slot_col(g, 0))
    }

    /// The input `a` of G function `g`.
    pub fn a(&self, g: usize) -> (r: T)
        requires
            g < NUM_G,
        ensures
            r == self.cells()[G_A_BASE_COL + g],
    {
        proof {
            use_type_invariant(self);
        }
        self.cols[G_A_BASE_COL + g]
    }

    /// The input `c` of G function `g`.
    pub fn c(&self, g: usize) -> (r: T)
        requires
            g < NUM_G,
        ensures
            r == self.cells()[G_C_BASE_COL + g],
    {
        proof {
            use_type_invariant(self);
        }
        self.cols[G_C_BASE_COL + g]
    }

    /// The low bit of the three-term carry of G function `g`.
    pub fn k3_bit0(&self, g: usize) -> (r: T)
        requires
            g < NUM_G,
        ensures
            r == self.cells()[G_K3_BIT0_BASE_COL + g],
    {
        proof {
            use_type_invariant(self);
        }
        self.cols[G_K3_BIT0_BASE_COL + g]
    }

    /// The high bit of the three-term carry of G function `g`.
    pub fn k3_bit1(&self, g: usize) -> (r: T)
        requires
            g < NUM_G,
        ensures
            r == self.cells()[G_K3_BIT1_BASE_COL + g],
    {
        proof {
            use_type_invariant(self);
        }
        self.cols[G_K3_BIT1_BASE_COL + g]
    }

    /// The two-term carry of G function `g`.
    pub fn k2(&self, g: usize) -> (r: T)
        requires
            g < NUM_G,
        ensures
            r == self.cells()[G_K2_BASE_COL + g],
    {
        proof {
            use_type_invariant(self);
        }
        self.cols[G_K2_BASE_COL + g]
    }
}

/// A footer row, read through its column groups.
pub struct FooterOverlayRow<'a, T> {
    cols: &'a [T],
}

impl<'a, T> FooterOverlayRow<'a, T> {
    #[verifier::type_invariant]
    spec fn full_width(self) -> bool {
        self.cols@.len() == NUM_COLS
    }

    /// The row's cells.
    pub closed spec fn cells(&self) -> Seq<T> {
        self.cols@
    }
}

impl<'a, T: Copy> FooterOverlayRow<'a, T> {
    /// View a 128-column row as a footer row.
    pub fn new(cols: &'a [T]) -> (r: Self)
        requires
            cols@.len() == NUM_COLS,
        ensures
            r.cells() == cols@,
    {
        FooterOverlayRow { cols }
    }

    fn col(&self, idx: usize) -> (r: T)
        requires
            idx < NUM_COLS,
        ensures
            r == self.cells()[idx as int],
    {
        proof {
            use_type_invariant(self);
        }
        self.cols[idx]
    }

    /// XOR slot `slot`.
    pub fn xor_slot(&self, slot: usize) -> (r: LookupSlot<T>)
        requires
            slot < BYTE_SLOTS_PER_STEP,
        ensures
            r == spec_slot(self.cells(), 3 * slot),
    {
        proof {
            use_type_invariant(self);
        }
        slot_at(self.cols, footer_xor_slot_col(slot, 0))
    }

    /// The top-bit slot of the odd output word.
    pub fn top_bit_slot(&self) -> (r: LookupSlot<T>)
        ensures
            r == spec_slot(self.cells(), F_TOP_BIT_SLOT_BASE_COL as int),
    {
        proof {
            use_type_invariant(self);
        }
        slot_at(self.cols, F_TOP_BIT_SLOT_BASE_COL)
    }

    /// The input chaining-value pair slot.
    pub fn hin_slot(&self) -> (r: LookupSlot<T>)
        ensures
            r == spec_slot(self.cells(), F_HIN_SLOT_BASE_COL as int),
    {
        proof {
            use_type_invariant(self);
        }
        slot_at(self.cols, F_HIN_SLOT_BASE_COL)
    }

    /// Message-word slot `word`.
    pub fn msg_word_slot(&self, word: usize) -> (r: LookupSlot<T>)
        requires
            word < F_MSG_WORD_SLOTS,
        ensures
            r == spec_slot(self.cells(), 54 + 3 * word),
    {
        proof {
            use_type_invariant(self);
        }
        slot_at(self.cols, footer_msg_word_slot_col(word, 0))
    }

    /// Range-check slot `limb`.
    pub fn range_slot(&self, limb: usize) -> (r: LookupSlot<T>)
        requires
            limb < F_RANGE_SLOTS,
        ensures
            r == spec_slot(self.cells(), 66 + 3 * limb),
    {
        proof {
            use_type_invariant(self);
        }
        slot_at(self.cols, footer_range_slot_col(limb, 0))
    }

    /// Packed message value `idx`.
    pub fn r(&self, idx: usize) -> (r: T)
        requires
            idx < 8,
        ensures
            r == self.cells()[F_R_BASE_COL + idx],
    {
        self.col(F_R_BASE_COL + idx)
    }

    /// Packed input chaining value `idx`.
    pub fn c(&self, idx: usize) -> (r: T)
        requires
            idx < 4,
        ensures
            r == self.cells()[F_C_BASE_COL + idx],
    {
        self.col(F_C_BASE_COL + idx)
    }

    /// Packed output value `idx`.
    pub fn d(&self, idx: usize) -> (r: T)
        requires
            idx < 4,
        ensures
            r == self.cells()[F_D_BASE_COL + idx],
    {
        self.col(F_D_BASE_COL + idx)
    }

    /// Entry `idx` of the future-W queue.
    pub fn future_w(&self, idx: usize) -> (r: T)
        requires
            idx < F_FUTURE_W_COLS,
        ensures
            r == self.cells()[F_FUTURE_W_BASE_COL + idx],
    {
        self.col(F_FUTURE_W_BASE_COL + idx)
    }

    /// The canonicality inverse witness of message pair `pair` of the row.
    pub fn r_canon_inv(&self, pair: usize) -> (r: T)
        requires
            pair < 2,
        ensures
            r == self.cells()[F_R_CANON_INV_BASE_COL + pair],
    {
        self.col(F_R_CANON_INV_BASE_COL + pair)
    }

    /// The canonicality zero flag of message pair `pair` of the row.
    pub fn r_canon_z(&self, pair: usize) -> (r: T)
        requires
            pair < 2,
        ensures
            r == self.cells()[F_R_CANON_Z_BASE_COL + pair],
    {
        self.col(F_R_CANON_Z_BASE_COL + pair)
    }

    /// The canonicality inverse witness of the row's chaining-value pair.
    pub fn c_canon_inv(&self) -> (r: T)
        ensures
            r == self.cells()[F_C_CANON_INV_COL as int],
    {
        self.col(F_C_CANON_INV_COL)
    }

    /// The canonicality zero flag of the row's chaining-value pair.
    pub fn c_canon_z(&self) -> (r: T)
        ensures
            r == self.cells()[F_C_CANON_Z_COL as int],
    {
        self.col(F_C_CANON_Z_COL)
    }

    /// The multiplicity provided on the compression-link bus.
    pub fn compression_multiplicity(&self) -> (r: T)
        ensures
            r == self.cells()[F_COMPRESSION_MULTIPLICITY_COL as int],
    {
        self.col(F_COMPRESSION_MULTIPLICITY_COL)
    }

    /// The compression-cycle identifier.
    pub fn compression_cycle_id(&self) -> (r: T)
        ensures
            r == self.cells()[F_COMPRESSION_CYCLE_ID_COL as int],
    {
        self.col(F_COMPRESSION_CYCLE_ID_COL)
    }

    /// The AEAD/XOF mode flag.
    pub fn mode(&self) -> (r: T)
        ensures
            r == self.cells()[F_MODE_COL as int],
    {
        self.col(F_MODE_COL)
    }

    /// The VM clock cycle of an AEAD/XOF request.
    pub fn clk(&self) -> (r: T)
        ensures
            r == self.cells()[F_CLK_COL as int],
    {
        self.col(F_CLK_COL)
    }
}

} // verus!
