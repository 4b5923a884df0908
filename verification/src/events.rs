//! The read-only view of execution state given to event handlers.
//!
//! An execution engine implements [`EventContextProvider`]; handlers receive an [`EventContext`]
//! that forwards to it, plus compatibility views for handlers written against the former
//! processor-state interface.
use vstd::prelude::*;
use core::marker::PhantomData;

use crate::execution::{mem_addr_range, spec_mem_addr_range, ContextId, MemoryAddress, MemoryError};
use crate::field::{Felt, Word};

verus! {

/// Read-only capabilities an execution engine provides to an [`EventContext`].
///
/// Each query is deterministic: its result is the state named by the matching `spec_` function,
/// which an implementation defines as that same query.
pub trait EventContextProvider {
    /// The engine's advice map.
    type AdviceMap;
    /// The engine's digest type for deferred nodes.
    type Digest;
    /// The engine's deferred node type.
    type Node;
    /// Error of deferred-node lookups.
    type PrecompileError;
    /// Error of advice-tree lookups.
    type EventError;

    spec fn spec_stack_item(&self, position: usize) -> Felt;

    spec fn spec_stack_word(&self, start: usize) -> Word;

    spec fn spec_stack_state(&self) -> Vec<Felt>;

    spec fn spec_clock(&self) -> u32;

    spec fn spec_context_id(&self) -> ContextId;

    spec fn spec_mem_value(&self, context: ContextId, address: u32) -> Option<Felt>;

    spec fn spec_mem_word(&self, context: ContextId, address: u32) -> Result<Option<Word>, MemoryError>;

    spec fn spec_mem_state(&self, context: ContextId) -> Vec<(MemoryAddress, Felt)>;

    spec fn spec_advice_stack(&self) -> Vec<Felt>;

    spec fn spec_max_hash_len_bytes(&self) -> usize;

    spec fn spec_advice_map(&self) -> &Self::AdviceMap;

    spec fn spec_advice_map_entries(&self) -> Vec<(Word, Vec<Felt>)>;

    spec fn spec_advice_map_entry(&self, key: Word) -> Option<&[Felt]>;

    spec fn spec_advice_tree_node(&self, root: Word, depth: Felt, index: Felt) -> Result<
        Word,
        Self::EventError,
    >;

    spec fn spec_canonical_deferred_node(&self, digest: Self::Digest) -> Result<
        (Self::Digest, &Self::Node),
        Self::PrecompileError,
    >;

    fn get_stack_item(&self, position: usize) -> (r: Felt)
        ensures
            r == self.spec_stack_item(position),
    ;

    fn get_stack_word(&self, start: usize) -> (r: Word)
        ensures
            r == self.spec_stack_word(start),
    ;

    fn get_stack_state(&self) -> (r: Vec<Felt>)
        ensures
            r == self.spec_stack_state(),
    ;

    fn clock(&self) -> (r: u32)
        ensures
            r == self.spec_clock(),
    ;

    fn context_id(&self) -> (r: ContextId)
        ensures
            r == self.spec_context_id(),
    ;

    fn get_mem_value(&self, context: ContextId, address: u32) -> (r: Option<Felt>)
        ensures
            r == self.spec_mem_value(context, address),
    ;

    fn get_mem_word(&self, context: ContextId, address: u32) -> (r: Result<Option<Word>, MemoryError>)
        ensures
            r == self.spec_mem_word(context, address),
    ;

    fn get_mem_state(&self, context: ContextId) -> (r: Vec<(MemoryAddress, Felt)>)
        ensures
            r == self.spec_mem_state(context),
    ;

    fn advice_stack(&self) -> (r: Vec<Felt>)
        ensures
            r == self.spec_advice_stack(),
    ;

    fn advice_map(&self) -> (r: &Self::AdviceMap)
        ensures
            r == self.spec_advice_map(),
    ;

    /// The advice map's entries, in the map's order.
    fn advice_map_entries(&self) -> (r: Vec<(Word, Vec<Felt>)>)
        ensures
            r == self.spec_advice_map_entries(),
    ;

    fn get_advice_map_entry(&self, key: &Word) -> (r: Option<&[Felt]>)
        ensures
            r == self.spec_advice_map_entry(*key),
    ;

    fn get_advice_tree_node(&self, root: Word, depth: Felt, index: Felt) -> (r: Result<
        Word,
        Self::EventError,
    >)
        ensures
            r == self.spec_advice_tree_node(root, depth, index),
    ;

    fn max_hash_len_bytes(&self) -> (r: usize)
        ensures
            r == self.spec_max_hash_len_bytes(),
    ;

    fn require_canonical_deferred_node(&self, digest: Self::Digest) -> (r: Result<
        (Self::Digest, &Self::Node),
        Self::PrecompileError,
    >)
        ensures
            r == self.spec_canonical_deferred_node(digest),
    ;
}

/// A read-only view of execution state exposed to an event handler.
pub struct EventContext<'a, P: EventContextProvider> {
    provider: &'a P,
}

impl<'a, P: EventContextProvider> EventContext<'a, P> {
    /// The provider this context reads.
    pub closed spec fn spec_provider(&self) -> &'a P {
        self.provider
    }

    /// A context reading `provider`.
    pub fn new(provider: &'a P) -> (r: Self)
        ensures
            r.spec_provider() == provider,
    {
        EventContext { provider }
    }

    /// The stack element at `position` (zero is the top).
    pub fn get_stack_item(&self, position: usize) -> (r: Felt)
        ensures
            r == self.spec_provider().spec_stack_item(position),
    {
        self.provider.get_stack_item(position)
    }

    /// The word of four stack elements starting at `start`.
    pub fn get_stack_word(&self, start: usize) -> (r: Word)
        ensures
            r == self.spec_provider().spec_stack_word(start),
    {
        self.provider.get_stack_word(start)
    }

    /// The whole operand stack, top first.
    pub fn get_stack_state(&self) -> (r: Vec<Felt>)
        ensures
            r == self.spec_provider().spec_stack_state(),
    {
        self.provider.get_stack_state()
    }

    /// The current clock cycle.
    pub fn clock(&self) -> (r: u32)
        ensures
            r == self.spec_provider().spec_clock(),
    {
        self.provider.clock()
    }

    /// The active execution context.
    pub fn ctx(&self) -> (r: ContextId)
        ensures
            r == self.spec_provider().spec_context_id(),
    {
        self.provider.context_id()
    }

    /// The memory value at `address` of the active context, if it was written. The supplied
    /// context is ignored: handlers always read active-context memory.
    pub fn get_mem_value(&self, _context: ContextId, address: u32) -> (r: Option<Felt>)
        ensures
            r == self.spec_provider().spec_mem_value(self.spec_provider().spec_context_id(), address),
    {
        let active = self.provider.context_id();
        self.provider.get_mem_value(active, address)
    }

    /// The memory word at `address` of the active context; the supplied context is ignored.
    pub fn get_mem_word(&self, _context: ContextId, address: u32) -> (r: Result<Option<Word>, MemoryError>)
        ensures
            r == self.spec_provider().spec_mem_word(self.spec_provider().spec_context_id(), address),
    {
        let active = self.provider.context_id();
        self.provider.get_mem_word(active, address)
    }

    /// The written memory of the active context; the supplied context is ignored.
    pub fn get_mem_state(&self, _context: ContextId) -> (r: Vec<(MemoryAddress, Felt)>)
        ensures
            r == self.spec_provider().spec_mem_state(self.spec_provider().spec_context_id()),
    {
        let active = self.provider.context_id();
        self.provider.get_mem_state(active)
    }

    /// The memory range `[start, end)` whose bounds are the stack elements at `start_position`
    /// and `end_position`.
    pub fn get_mem_addr_range(&self, start_position: usize, end_position: usize) -> (r: Result<
        core::ops::Range<u32>,
        MemoryError,
    >)
        ensures
            r == spec_mem_addr_range(
                self.spec_provider().spec_stack_item(start_position)@,
                self.spec_provider().spec_stack_item(end_position)@,
            ),
    {
        let start_addr = self.get_stack_item(start_position).as_canonical_u64();
        let end_addr = self.get_stack_item(end_position).as_canonical_u64();
        mem_addr_range(start_addr, end_addr)
    }

    /// The advice stack.
    pub fn advice_stack(&self) -> (r: Vec<Felt>)
        ensures
            r == self.spec_provider().spec_advice_stack(),
    {
        self.provider.advice_stack()
    }

    /// The advice map.
    pub fn advice_map(&self) -> (r: &'a P::AdviceMap)
        ensures
            r == self.spec_provider().spec_advice_map(),
    {
        self.provider.advice_map()
    }

    /// The advice map's entries, in the map's order.
    pub fn advice_map_entries(&self) -> (r: Vec<(Word, Vec<Felt>)>)
        ensures
            r == self.spec_provider().spec_advice_map_entries(),
    {
        self.provider.advice_map_entries()
    }

    /// The advice-map entry under `key`.
    pub fn get_advice_map_entry(&self, key: &Word) -> (r: Option<&'a [Felt]>)
        ensures
            r == self.spec_provider().spec_advice_map_entry(*key),
    {
        self.provider.get_advice_map_entry(key)
    }

    /// The node at `depth` and `index` of the advice Merkle tree with root `root`.
    pub fn get_advice_tree_node(&self, root: Word, depth: Felt, index: Felt) -> (r: Result<
        Word,
        P::EventError,
    >)
        ensures
            r == self.spec_provider().spec_advice_tree_node(root, depth, index),
    {
        self.provider.get_advice_tree_node(root, depth, index)
    }

    /// The largest input, in bytes, a hashing precompile may accept.
    pub fn max_hash_len_bytes(&self) -> (r: usize)
        ensures
            r == self.spec_provider().spec_max_hash_len_bytes(),
    {
        self.provider.max_hash_len_bytes()
    }

    /// The canonical deferred node for `digest`.
    pub fn require_canonical_deferred_node(&self, digest: P::Digest) -> (r: Result<
        (P::Digest, &'a P::Node),
        P::PrecompileError,
    >)
        ensures
            r == self.spec_provider().spec_canonical_deferred_node(digest),
    {
        self.provider.require_canonical_deferred_node(digest)
    }

    /// A compatibility view of the advice provider.
    pub fn advice_provider(&self) -> (r: AdviceProviderView<'a, P>)
        ensures
            r.spec_provider() == self.spec_provider(),
    {
        AdviceProviderView { provider: self.provider }
    }

    /// A compatibility view of the execution options used by event handlers.
    pub fn execution_options(&self) -> (r: ExecutionOptionsView<'a, P>)
        ensures
            r.spec_provider() == self.spec_provider(),
    {
        ExecutionOptionsView { provider: self.provider }
    }
}

/// Read-only compatibility view for handlers that accessed the advice provider directly.
pub struct AdviceProviderView<'a, P: EventContextProvider> {
    provider: &'a P,
}

impl<'a, P: EventContextProvider> AdviceProviderView<'a, P> {
    /// The provider this view reads.
    pub closed spec fn spec_provider(&self) -> &'a P {
        self.provider
    }

    /// The advice stack.
    pub fn stack(&self) -> (r: Vec<Felt>)
        ensures
            r == self.spec_provider().spec_advice_stack(),
    {
        self.provider.advice_stack()
    }

    /// The advice map.
    pub fn map(&self) -> (r: &'a P::AdviceMap)
        ensures
            r == self.spec_provider().spec_advice_map(),
    {
        self.provider.advice_map()
    }

    /// The advice-map entry under `key`.
    pub fn get_mapped_values(&self, key: &Word) -> (r: Option<&'a [Felt]>)
        ensures
            r == self.spec_provider().spec_advice_map_entry(*key),
    {
        self.provider.get_advice_map_entry(key)
    }

    /// The node at `depth` and `index` of the advice Merkle tree with root `root`.
    pub fn get_tree_node(&self, root: Word, depth: Felt, index: Felt) -> (r: Result<
        Word,
        P::EventError,
    >)
        ensures
            r == self.spec_provider().spec_advice_tree_node(root, depth, index),
    {
        self.provider.get_advice_tree_node(root, depth, index)
    }
}

/// Compatibility view of the execution limits used by event handlers.
pub struct ExecutionOptionsView<'a, P: EventContextProvider> {
    provider: &'a P,
}

impl<'a, P: EventContextProvider> ExecutionOptionsView<'a, P> {
    /// The provider this view reads.
    pub closed spec fn spec_provider(&self) -> &'a P {
        self.provider
    }

    /// The largest input, in bytes, a hashing precompile may accept.
    pub fn max_hash_len_bytes(&self) -> (r: usize)
        ensures
            r == self.spec_provider().spec_max_hash_len_bytes(),
    {
        self.provider.max_hash_len_bytes()
    }
}

/// Handles an event emitted by the VM, producing advice mutations of type `M` or an error `E`.
pub trait EventHandler<M, E> {
    fn on_event<P: EventContextProvider>(&self, context: &EventContext<'_, P>) -> Result<Vec<M>, E>;
}

/// An event handler that leaves the advice unchanged, for handlers producing mutations of type
/// `M` and errors of type `E`.
#[derive(Debug)]
pub struct NoopEventHandler<M, E> {
    marker: PhantomData<(M, E)>,
}

impl<M, E> NoopEventHandler<M, E> {
    /// The no-op handler.
    pub fn new() -> (r: Self) {
        NoopEventHandler { marker: PhantomData::default() }
    }

    /// Handle an event by producing no advice mutation.
    pub fn handle<P: EventContextProvider>(&self, context: &EventContext<'_, P>) -> (r: Result<
        Vec<M>,
        E,
    >)
        ensures
            r matches Ok(v) && v@.len() == 0,
    {
        Ok(Vec::new())
    }
}

impl<M, E> EventHandler<M, E> for NoopEventHandler<M, E> {
    fn on_event<P: EventContextProvider>(&self, context: &EventContext<'_, P>) -> (r: Result<Vec<M>, E>)
        ensures
            r matches Ok(v) && v@.len() == 0,
    {
        self.handle(context)
    }
}

} // verus!
