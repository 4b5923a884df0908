//! Execution-context identifiers, memory addresses and memory errors.
use vstd::prelude::*;

use crate::field::Felt;

verus! {

/// The minimum length of an execution trace required to support range checks.
pub const MIN_TRACE_LEN: usize = 64;

/// Identifies an execution context.
#[derive(Debug, Clone, Copy, PartialEq, Eq, PartialOrd, Ord, Structural)]
pub struct ContextId(pub u32);

impl ContextId {
    /// The root context.
    pub fn root() -> (r: ContextId)
        ensures
            r.0 == 0,
    {
        ContextId(0)
    }

    /// Whether this is the root context.
    pub fn is_root(&self) -> (r: bool)
        ensures
            r == (self.0 == 0),
    {
        self.0 == 0
    }

    /// The context identifier as a `u32`.
    pub fn as_u32(&self) -> (r: u32)
        ensures
            r == self.0,
    {
        self.0
    }

    /// The context identifier as a `u64`.
    pub fn as_u64(&self) -> (r: u64)
        ensures
            r == self.0,
    {
        self.0 as u64
    }

    /// The context identifier embedded in the field.
    pub fn as_felt(&self) -> (r: Felt)
        ensures
            r@ == self.0,
    {
        Felt::from_u32(self.0)
    }
}

impl Default for ContextId {
    fn default() -> (r: ContextId)
        ensures
            r.0 == 0,
    {
        ContextId(0)
    }
}

impl From<u32> for ContextId {
    fn from(value: u32) -> (r: ContextId) {
        ContextId(value)
    }
}

impl vstd::std_specs::convert::FromSpecImpl<u32> for ContextId {
    open spec fn obeys_from_spec() -> bool {
        true
    }

    open spec fn from_spec(value: u32) -> ContextId {
        ContextId(value)
    }
}

impl From<ContextId> for u32 {
    fn from(context_id: ContextId) -> (r: u32) {
        context_id.0
    }
}

impl vstd::std_specs::convert::FromSpecImpl<ContextId> for u32 {
    open spec fn obeys_from_spec() -> bool {
        true
    }

    open spec fn from_spec(context_id: ContextId) -> u32 {
        context_id.0
    }
}

impl From<ContextId> for u64 {
    fn from(context_id: ContextId) -> (r: u64) {
        context_id.0 as u64
    }
}

impl vstd::std_specs::convert::FromSpecImpl<ContextId> for u64 {
    open spec fn obeys_from_spec() -> bool {
        true
    }

    open spec fn from_spec(context_id: ContextId) -> u64 {
        context_id.0 as u64
    }
}

impl From<ContextId> for Felt {
    fn from(context_id: ContextId) -> (r: Felt) {
        Felt::from_u32(context_id.0)
    }
}

impl vstd::std_specs::convert::FromSpecImpl<ContextId> for Felt {
    open spec fn obeys_from_spec() -> bool {
        true
    }

    open spec fn from_spec(context_id: ContextId) -> Felt {
        Felt::spec_from(context_id.0 as u64)
    }
}

/// Identifies a memory address.
#[derive(Debug, Clone, Copy, PartialEq, Eq, Hash, Structural)]
pub struct MemoryAddress(pub u32);

impl MemoryAddress {
    /// The address `address`.
    pub fn new(address: u32) -> (r: MemoryAddress)
        ensures
            r.0 == address,
    {
        MemoryAddress(address)
    }

    /// The address as a `u32`.
    pub fn as_u32(&self) -> (r: u32)
        ensures
            r == self.0,
    {
        self.0
    }

    /// The address `offset` cells further on; the sum must fit in 32 bits.
    pub fn add(self, offset: u32) -> (r: MemoryAddress)
        requires
            self.0 + offset <= u32::MAX,
        ensures
            r.0 == self.0 + offset,
    {
        MemoryAddress(self.0 + offset)
    }
}

impl From<u32> for MemoryAddress {
    fn from(address: u32) -> (r: MemoryAddress) {
        MemoryAddress(address)
    }
}

impl vstd::std_specs::convert::FromSpecImpl<u32> for MemoryAddress {
    open spec fn obeys_from_spec() -> bool {
        true
    }

    open spec fn from_spec(address: u32) -> MemoryAddress {
        MemoryAddress(address)
    }
}

impl From<MemoryAddress> for u32 {
    fn from(address: MemoryAddress) -> (r: u32) {
        address.0
    }
}

impl vstd::std_specs::convert::FromSpecImpl<MemoryAddress> for u32 {
    open spec fn obeys_from_spec() -> bool {
        true
    }

    open spec fn from_spec(address: MemoryAddress) -> u32 {
        address.0
    }
}

/// Errors of memory operations.
#[derive(Debug, Clone, PartialEq, Eq)]
pub enum MemoryError {
    /// A memory address above `2^32 - 1`.
    AddressOutOfBounds { addr: u64 },
    /// An address read and written, or written twice, in one clock cycle.
    IllegalMemoryAccess { ctx: ContextId, addr: u32, clk: Felt },
    /// A range whose start address exceeds its end address.
    InvalidMemoryRange { start_addr: u64, end_addr: u64 },
    /// A word access at an address that is not a multiple of four.
    UnalignedWordAccess { addr: u32, ctx: ContextId },
    /// A failed memory read.
    MemoryReadFailed(String),
    /// A write that would exceed the configured number of memory elements.
    MemoryElementLimitExceeded { ctx: ContextId, addr: u32, max: usize },
}

/// The memory range `[start_addr, end_addr)` named by two stack values, or the error for an
/// address that does not fit in 32 bits (the start is checked first) or a start above the end.
pub open spec fn spec_mem_addr_range(start_addr: u64, end_addr: u64) -> Result<
    core::ops::Range<u32>,
    MemoryError,
> {
    if start_addr > u32::MAX {
        Err(MemoryError::AddressOutOfBounds { addr: start_addr })
    } else if end_addr > u32::MAX {
        Err(MemoryError::AddressOutOfBounds { addr: end_addr })
    } else if start_addr > end_addr {
        Err(MemoryError::InvalidMemoryRange { start_addr, end_addr })
    } else {
        Ok((start_addr as u32)..(end_addr as u32))
    }
}

/// The memory range `[start_addr, end_addr)` named by two stack values.
pub fn mem_addr_range(start_addr: u64, end_addr: u64) -> (r: Result<core::ops::Range<u32>, MemoryError>)
    ensures
        r == spec_mem_addr_range(start_addr, end_addr),
{
    if start_addr > u32::MAX as u64 {
        return Err(MemoryError::AddressOutOfBounds { addr: start_addr });
    }
    if end_addr > u32::MAX as u64 {
        return Err(MemoryError::AddressOutOfBounds { addr: end_addr });
    }
    if start_addr > end_addr {
        return Err(MemoryError::InvalidMemoryRange { start_addr, end_addr });
    }
    Ok((start_addr as u32)..(end_addr as u32))
}

} // verus!
