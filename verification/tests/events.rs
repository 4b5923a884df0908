use miden_kit::events::{EventContext, EventContextProvider, EventHandler, NoopEventHandler};
use miden_kit::execution::{ContextId, MemoryAddress, MemoryError};
use miden_kit::field::{Felt, Word};

struct Engine {
    stack: Vec<Felt>,
    advice: Vec<Felt>,
    map: Vec<(Word, Vec<Felt>)>,
}

impl EventContextProvider for Engine {
    type AdviceMap = Vec<(Word, Vec<Felt>)>;
    type Digest = u64;
    type Node = u64;
    type PrecompileError = String;
    type EventError = String;

    fn spec_stack_item(&self, position: usize) -> Felt {
        self.get_stack_item(position)
    }

    fn spec_stack_word(&self, start: usize) -> Word {
        self.get_stack_word(start)
    }

    fn spec_stack_state(&self) -> Vec<Felt> {
        self.get_stack_state()
    }

    fn spec_clock(&self) -> u32 {
        self.clock()
    }

    fn spec_context_id(&self) -> ContextId {
        self.context_id()
    }

    fn spec_mem_value(&self, context: ContextId, address: u32) -> Option<Felt> {
        self.get_mem_value(context, address)
    }

    fn spec_mem_word(&self, context: ContextId, address: u32) -> Result<Option<Word>, MemoryError> {
        self.get_mem_word(context, address)
    }

    fn spec_mem_state(&self, context: ContextId) -> Vec<(MemoryAddress, Felt)> {
        self.get_mem_state(context)
    }

    fn spec_advice_stack(&self) -> Vec<Felt> {
        self.advice_stack()
    }

    fn spec_max_hash_len_bytes(&self) -> usize {
        self.max_hash_len_bytes()
    }

    fn spec_advice_map(&self) -> &Self::AdviceMap {
        self.advice_map()
    }

    fn spec_advice_map_entries(&self) -> Vec<(Word, Vec<Felt>)> {
        self.advice_map_entries()
    }

    fn spec_advice_map_entry(&self, key: Word) -> Option<&[Felt]> {
        self.get_advice_map_entry(&key)
    }

    fn spec_advice_tree_node(&self, root: Word, depth: Felt, index: Felt) -> Result<Word, String> {
        self.get_advice_tree_node(root, depth, index)
    }

    fn spec_canonical_deferred_node(&self, digest: u64) -> Result<(u64, &u64), String> {
        self.require_canonical_deferred_node(digest)
    }

    fn get_stack_item(&self, position: usize) -> Felt {
        self.stack.get(position).copied().unwrap_or(Felt::zero())
    }

    fn get_stack_word(&self, start: usize) -> Word {
        core::array::from_fn(|i| self.get_stack_item(start + i))
    }

    fn get_stack_state(&self) -> Vec<Felt> {
        self.stack.clone()
    }

    fn clock(&self) -> u32 {
        17
    }

    fn context_id(&self) -> ContextId {
        ContextId(3)
    }

    fn get_mem_value(&self, context: ContextId, address: u32) -> Option<Felt> {
        (context == ContextId(3) && address < 4).then(|| Felt::new(address as u64 * 10))
    }

    fn get_mem_word(&self, _context: ContextId, address: u32) -> Result<Option<Word>, MemoryError> {
        if address % 4 != 0 {
            return Err(MemoryError::UnalignedWordAccess { addr: address, ctx: ContextId(3) });
        }
        Ok(None)
    }

    fn get_mem_state(&self, context: ContextId) -> Vec<(MemoryAddress, Felt)> {
        if context != ContextId(3) {
            return Vec::new();
        }
        vec![(MemoryAddress::new(0), Felt::zero())]
    }

    fn advice_stack(&self) -> Vec<Felt> {
        self.advice.clone()
    }

    fn advice_map(&self) -> &Self::AdviceMap {
        &self.map
    }

    fn advice_map_entries(&self) -> Vec<(Word, Vec<Felt>)> {
        self.map.clone()
    }

    fn get_advice_map_entry(&self, key: &Word) -> Option<&[Felt]> {
        self.map.iter().find(|(k, _)| k == key).map(|(_, v)| v.as_slice())
    }

    fn get_advice_tree_node(&self, _root: Word, _depth: Felt, _index: Felt) -> Result<Word, String> {
        Err("no tree".to_string())
    }

    fn max_hash_len_bytes(&self) -> usize {
        1 << 20
    }

    fn require_canonical_deferred_node(&self, digest: u64) -> Result<(u64, &u64), String> {
        Err(format!("unknown digest {digest}"))
    }
}

fn engine(stack: &[u64]) -> Engine {
    Engine {
        stack: stack.iter().map(|&v| Felt::new(v)).collect(),
        advice: vec![Felt::new(5)],
        map: vec![([Felt::one(); 4], vec![Felt::new(9)])],
    }
}

#[test]
fn memory_range_is_read_from_the_stack() {
    let e = engine(&[7, 3, 12]);
    let ctx = EventContext::new(&e);
    assert_eq!(ctx.get_mem_addr_range(1, 2), Ok(3..12));
    assert_eq!(ctx.get_mem_addr_range(1, 1), Ok(3..3));
}

#[test]
fn memory_range_rejects_reversed_bounds() {
    let e = engine(&[7, 12, 3]);
    let ctx = EventContext::new(&e);
    assert_eq!(
        ctx.get_mem_addr_range(1, 2),
        Err(MemoryError::InvalidMemoryRange { start_addr: 12, end_addr: 3 })
    );
}

#[test]
fn memory_range_rejects_addresses_beyond_32_bits_start_first() {
    let big = 1u64 << 32;
    let e = engine(&[big, big + 1]);
    let ctx = EventContext::new(&e);
    assert_eq!(ctx.get_mem_addr_range(0, 1), Err(MemoryError::AddressOutOfBounds { addr: big }));
    assert_eq!(
        ctx.get_mem_addr_range(2, 1),
        Err(MemoryError::AddressOutOfBounds { addr: big + 1 })
    );
}

#[test]
fn context_forwards_to_the_provider() {
    let e = engine(&[1, 2, 3, 4, 5]);
    let ctx = EventContext::new(&e);
    assert_eq!(ctx.get_stack_item(2), Felt::new(3));
    assert_eq!(ctx.get_stack_word(1), [Felt::new(2), Felt::new(3), Felt::new(4), Felt::new(5)]);
    assert_eq!(ctx.get_stack_state().len(), 5);
    assert_eq!(ctx.clock(), 17);
    assert_eq!(ctx.ctx(), ContextId(3));
    assert_eq!(ctx.get_mem_value(ContextId(3), 2), Some(Felt::new(20)));
    assert!(ctx.get_mem_word(ContextId(3), 2).is_err());
    assert_eq!(ctx.get_mem_state(ContextId(3)).len(), 1);
    assert_eq!(ctx.advice_stack(), vec![Felt::new(5)]);
    assert_eq!(ctx.advice_map().len(), 1);
    assert_eq!(ctx.get_advice_map_entry(&[Felt::one(); 4]), Some(&[Felt::new(9)][..]));
    assert!(ctx.get_advice_tree_node([Felt::zero(); 4], Felt::one(), Felt::zero()).is_err());
    assert_eq!(ctx.max_hash_len_bytes(), 1 << 20);
    assert!(ctx.require_canonical_deferred_node(4).is_err());

    let view = ctx.advice_provider();
    assert_eq!(view.stack(), vec![Felt::new(5)]);
    assert_eq!(view.map().len(), 1);
    assert_eq!(view.get_mapped_values(&[Felt::one(); 4]), Some(&[Felt::new(9)][..]));
    assert!(view.get_tree_node([Felt::zero(); 4], Felt::one(), Felt::zero()).is_err());
    assert_eq!(ctx.execution_options().max_hash_len_bytes(), 1 << 20);
}

#[test]
fn noop_handler_produces_no_mutation() {
    let e = engine(&[]);
    let ctx = EventContext::new(&e);
    let result: Result<Vec<u8>, String> = NoopEventHandler::new().on_event(&ctx);
    assert_eq!(result, Ok(vec![]));
}

#[test]
fn context_ids_and_addresses() {
    assert!(ContextId::root().is_root());
    assert!(!ContextId::from(5).is_root());
    assert_eq!(ContextId::from(5).as_u64(), 5);
    assert_eq!(ContextId(9).as_felt(), Felt::new(9));
    assert_eq!(MemoryAddress::new(8).add(4), MemoryAddress::from(12));
    assert_eq!(ContextId::default(), ContextId::root());
}

#[test]
fn memory_accessors_read_the_active_context() {
    let e = engine(&[]);
    let ctx = EventContext::new(&e);
    assert_eq!(ctx.get_mem_value(ContextId(7), 2), Some(Felt::new(20)));
    assert_eq!(ctx.get_mem_value(ContextId(7), 2), ctx.get_mem_value(ContextId(3), 2));
    assert_eq!(ctx.get_mem_state(ContextId(7)), ctx.get_mem_state(ContextId(3)));
    assert!(ctx.get_mem_word(ContextId(7), 2).is_err());
}

#[test]
fn context_ids_and_addresses_convert_to_integers() {
    assert_eq!(u32::from(ContextId(9)), 9);
    assert_eq!(u64::from(ContextId(9)), 9);
    assert_eq!(Felt::from(ContextId(9)), Felt::new(9));
    assert_eq!(u32::from(MemoryAddress::new(77)), 77);
    assert_eq!(ContextId::from(u32::from(ContextId(4))), ContextId(4));
}
