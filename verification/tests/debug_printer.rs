use miden_kit::debug_printer::{debug_event_output, DebugEvent, DebugPrintError, MAX_PRINT_MEM_RANGE};
use miden_kit::events::{EventContext, EventContextProvider};
use miden_kit::execution::{ContextId, MemoryAddress, MemoryError};
use miden_kit::field::{Felt, Word};

struct Engine {
    stack: Vec<Felt>,
    advice: Vec<Felt>,
    map: Vec<(Word, Vec<Felt>)>,
}

impl EventContextProvider for Engine {
    type AdviceMap = Vec<(Word, Vec<Felt>)>;
    type Digest = u64;
    type Node = u64;
    type PrecompileError = String;
    type EventError = String;

    fn spec_stack_item(&self, position: usize) -> Felt {
        self.get_stack_item(position)
    }

    fn spec_stack_word(&self, start: usize) -> Word {
        self.get_stack_word(start)
    }

    fn spec_stack_state(&self) -> Vec<Felt> {
        self.get_stack_state()
    }

    fn spec_clock(&self) -> u32 {
        self.clock()
    }

    fn spec_context_id(&self) -> ContextId {
        self.context_id()
    }

    fn spec_mem_value(&self, context: ContextId, address: u32) -> Option<Felt> {
        self.get_mem_value(context, address)
    }

    fn spec_mem_word(&self, context: ContextId, address: u32) -> Result<Option<Word>, MemoryError> {
        self.get_mem_word(context, address)
    }

    fn spec_mem_state(&self, context: ContextId) -> Vec<(MemoryAddress, Felt)> {
        self.get_mem_state(context)
    }

    fn spec_advice_stack(&self) -> Vec<Felt> {
        self.advice_stack()
    }

    fn spec_max_hash_len_bytes(&self) -> usize {
        self.max_hash_len_bytes()
    }

    fn spec_advice_map(&self) -> &Self::AdviceMap {
        self.advice_map()
    }

    fn spec_advice_map_entries(&self) -> Vec<(Word, Vec<Felt>)> {
        self.advice_map_entries()
    }

    fn spec_advice_map_entry(&self, key: Word) -> Option<&[Felt]> {
        self.get_advice_map_entry(&key)
    }

    fn spec_advice_tree_node(&self, root: Word, depth: Felt, index: Felt) -> Result<Word, String> {
        self.get_advice_tree_node(root, depth, index)
    }

    fn spec_canonical_deferred_node(&self, digest: u64) -> Result<(u64, &u64), String> {
        self.require_canonical_deferred_node(digest)
    }

    fn get_stack_item(&self, position: usize) -> Felt {
        self.stack.get(position).copied().unwrap_or(Felt::zero())
    }

    fn get_stack_word(&self, start: usize) -> Word {
        core::array::from_fn(|i| self.get_stack_item(start + i))
    }

    fn get_stack_state(&self) -> Vec<Felt> {
        self.stack.clone()
    }

    fn clock(&self) -> u32 {
        17
    }

    fn context_id(&self) -> ContextId {
        ContextId(3)
    }

    fn get_mem_value(&self, _context: ContextId, address: u32) -> Option<Felt> {
        (address < 4).then(|| Felt::new(address as u64 * 10))
    }

    fn get_mem_word(&self, _context: ContextId, address: u32) -> Result<Option<Word>, MemoryError> {
        if address % 4 != 0 {
            return Err(MemoryError::UnalignedWordAccess { addr: address, ctx: ContextId(3) });
        }
        Ok(None)
    }

    fn get_mem_state(&self, _context: ContextId) -> Vec<(MemoryAddress, Felt)> {
        vec![(MemoryAddress::new(0), Felt::zero())]
    }

    fn advice_stack(&self) -> Vec<Felt> {
        self.advice.clone()
    }

    fn advice_map(&self) -> &Self::AdviceMap {
        &self.map
    }

    fn advice_map_entries(&self) -> Vec<(Word, Vec<Felt>)> {
        self.map.clone()
    }

    fn get_advice_map_entry(&self, key: &Word) -> Option<&[Felt]> {
        self.map.iter().find(|(k, _)| k == key).map(|(_, v)| v.as_slice())
    }

    fn get_advice_tree_node(&self, _root: Word, _depth: Felt, _index: Felt) -> Result<Word, String> {
        Err("no tree".to_string())
    }

    fn max_hash_len_bytes(&self) -> usize {
        1 << 20
    }

    fn require_canonical_deferred_node(&self, digest: u64) -> Result<(u64, &u64), String> {
        Err(format!("unknown digest {digest}"))
    }
}

fn felts(values: &[u64]) -> Vec<Felt> {
    values.iter().map(|v| Felt::new(*v)).collect()
}

fn engine(stack: &[u64]) -> Engine {
    Engine { stack: felts(stack), advice: felts(&[1, 2, 3, 4]), map: Vec::new() }
}

fn print(event: DebugEvent, engine: &Engine) -> Result<String, DebugPrintError> {
    debug_event_output(event, &EventContext::new(engine))
}

#[test]
fn print_stack_skips_the_event_id() {
    let e = engine(&[99, 5, 6]);
    assert_eq!(
        print(DebugEvent::PrintStack, &e).unwrap(),
        "Stack state before step 17:\n├── 0: 5\n└── 1: 6\n"
    );
}

#[test]
fn print_stack_with_only_the_event_id_is_empty() {
    let e = engine(&[99]);
    assert_eq!(print(DebugEvent::PrintStack, &e).unwrap(), "Stack empty before step 17.\n");
    let e = engine(&[]);
    assert_eq!(print(DebugEvent::PrintStack, &e).unwrap(), "Stack empty before step 17.\n");
}

#[test]
fn print_mem_lists_the_range_with_empty_cells() {
    let e = engine(&[99, 2, 5]);
    assert_eq!(
        print(DebugEvent::PrintMem, &e).unwrap(),
        "Memory state before step 17 for context 3 in the range [2, 4]:\n\
         ├── 0x00000002: 20\n├── 0x00000003: 30\n└── 0x00000004: EMPTY\n"
    );
}

#[test]
fn print_mem_empty_range() {
    let e = engine(&[99, 5, 5]);
    assert_eq!(
        print(DebugEvent::PrintMem, &e).unwrap(),
        "Memory state before step 17 for context 3: range is empty.\n"
    );
}

#[test]
fn print_mem_reaches_the_last_address() {
    let e = engine(&[99, u32::MAX as u64, 1 << 32]);
    assert_eq!(
        print(DebugEvent::PrintMem, &e).unwrap(),
        "Memory state before step 17 for context 3 in the range [4294967295, 4294967295]:\n\
         └── 0xffffffff: EMPTY\n"
    );
}

#[test]
fn print_mem_rejects_reversed_range() {
    let e = engine(&[99, 6, 5]);
    assert_eq!(
        print(DebugEvent::PrintMem, &e),
        Err(DebugPrintError::Memory(MemoryError::InvalidMemoryRange { start_addr: 6, end_addr: 5 }))
    );
}

#[test]
fn print_mem_rejects_out_of_bounds_addresses() {
    let e = engine(&[99, 1 << 32, 1 << 32]);
    assert_eq!(
        print(DebugEvent::PrintMem, &e),
        Err(DebugPrintError::Memory(MemoryError::AddressOutOfBounds { addr: 1 << 32 }))
    );
    let e = engine(&[99, 0, (1 << 32) + 1]);
    assert_eq!(
        print(DebugEvent::PrintMem, &e),
        Err(DebugPrintError::Memory(MemoryError::AddressOutOfBounds { addr: (1 << 32) + 1 }))
    );
}

#[test]
fn print_mem_caps_the_range_length() {
    let e = engine(&[99, 0, MAX_PRINT_MEM_RANGE + 1]);
    assert_eq!(
        print(DebugEvent::PrintMem, &e),
        Err(DebugPrintError::RangeTooLong { len: MAX_PRINT_MEM_RANGE + 1 })
    );
    let e = engine(&[99, 0, MAX_PRINT_MEM_RANGE]);
    let text = print(DebugEvent::PrintMem, &e).unwrap();
    assert_eq!(text.lines().count() as u64, MAX_PRINT_MEM_RANGE + 1);
    assert!(text.ends_with("└── 0x000003ff: EMPTY\n"));
}

#[test]
fn print_mem_all_lists_written_cells() {
    let e = engine(&[99]);
    assert_eq!(
        print(DebugEvent::PrintMemAll, &e).unwrap(),
        "Memory state before step 17 for context 3:\n└── 0x00000000: 0\n"
    );
}

#[test]
fn print_adv_stack_prints_a_clamped_range() {
    let e = engine(&[99, 1, 3]);
    assert_eq!(
        print(DebugEvent::PrintAdvStack, &e).unwrap(),
        "Advice stack state before step 17:\n├── 0: 2\n└── 1: 3\n"
    );
    let e = engine(&[99, 3, 100]);
    assert_eq!(
        print(DebugEvent::PrintAdvStack, &e).unwrap(),
        "Advice stack state before step 17:\n└── 0: 4\n"
    );
    let e = engine(&[99, 3, 1]);
    assert_eq!(print(DebugEvent::PrintAdvStack, &e).unwrap(), "Advice stack empty before step 17.\n");
}

#[test]
fn print_adv_map_lists_keys_and_values() {
    let e = engine(&[99]);
    assert_eq!(print(DebugEvent::PrintAdvMap, &e).unwrap(), "Advice map before step 17: empty.\n");
    let mut e = engine(&[99]);
    let k1: Word = [Felt::new(1), Felt::new(2), Felt::new(3), Felt::new(4)];
    let k2: Word = [Felt::new(7), Felt::new(8), Felt::new(9), Felt::new(10)];
    e.map = vec![(k1, felts(&[5, 6])), (k2, Vec::new())];
    assert_eq!(
        print(DebugEvent::PrintAdvMap, &e).unwrap(),
        "Advice map before step 17:\n├──  [1, 2, 3, 4]: [5, 6]\n└── [7, 8, 9, 10]: []\n"
    );
}

#[test]
fn print_adv_map_item_looks_up_the_stack_word() {
    let mut e = engine(&[99, 1, 2, 3, 4]);
    let k1: Word = [Felt::new(1), Felt::new(2), Felt::new(3), Felt::new(4)];
    e.map = vec![(k1, felts(&[5, 6]))];
    assert_eq!(
        print(DebugEvent::PrintAdvMapItem, &e).unwrap(),
        "Advice map entry for key [1, 2, 3, 4] before step 17:\n├── 0: 5\n└── 1: 6\n"
    );
    let e = engine(&[99, 1, 2, 3, 5]);
    assert_eq!(
        print(DebugEvent::PrintAdvMapItem, &e).unwrap(),
        "No advice map entry for key [1, 2, 3, 5] before step 17.\n"
    );
}
