//! The text printed by the VM's print-debugging events.
//!
//! Each debug event reads one piece of VM state through an [`EventContext`] — the operand stack,
//! a memory range, the whole memory of the current context, a range of the advice stack, the
//! advice map or one of its entries — and renders it in the VM's tree-style debug format. The
//! host decides which event fired and where the text goes.
use vstd::prelude::*;
use vstd::slice::slice_subrange;
use vstd::string::*;

use crate::debug_format::{
    address_text, append_decimal, decimal, format_address, format_felt_slice, format_word,
    item_view, list_text, spec_write_interval, spec_write_stack, stack_items, stack_values, u64_to_decimal,
    write_interval, write_stack,
};
use crate::events::{EventContext, EventContextProvider};
use crate::execution::{ContextId, MemoryError};
use crate::field::{Felt, Word};

verus! {

/// The largest number of addresses an explicit memory-range print may span.
pub const MAX_PRINT_MEM_RANGE: u64 = 1024;

/// The print-debugging events.
#[derive(Debug, Clone, Copy, PartialEq, Eq, Structural)]
pub enum DebugEvent {
    /// Print the operand stack.
    PrintStack,
    /// Print memory in the range `[start, end)` of the current context.
    PrintMem,
    /// Print every written memory cell of the current context.
    PrintMemAll,
    /// Print the advice stack in the range `[start, end)`.
    PrintAdvStack,
    /// Print the whole advice map.
    PrintAdvMap,
    /// Print the advice-map entry whose key is on the stack.
    PrintAdvMapItem,
}

/// Why a debug event could not be printed.
#[derive(Debug, Clone, PartialEq, Eq)]
pub enum DebugPrintError {
    /// The memory range read off the stack is invalid.
    Memory(MemoryError),
    /// The memory range spans more than [`MAX_PRINT_MEM_RANGE`] addresses.
    RangeTooLong { len: u64 },
}

/// A stack value read as a `usize`, saturating.
pub open spec fn spec_saturating_usize(value: u64) -> usize {
    if value <= usize::MAX {
        value as usize
    } else {
        usize::MAX
    }
}

/// The stack element at `pos` as a `usize`, saturating.
pub fn stack_item_as_usize<P: EventContextProvider>(ctx: &EventContext<'_, P>, pos: usize) -> (r: usize)
    ensures
        r == spec_saturating_usize(ctx.spec_provider().spec_stack_item(pos)@),
{
    let value = ctx.get_stack_item(pos).as_canonical_u64();
    if value <= usize::MAX as u64 {
        value as usize
    } else {
        usize::MAX
    }
}

/// The bounds `[start, end)` clamped to a slice of length `len` and to `start <= end`.
pub open spec fn clamped_bounds(len: int, start: int, end: int) -> (int, int) {
    let s = if start < len {
        start
    } else {
        len
    };
    let e = if end < s {
        s
    } else if end > len {
        len
    } else {
        end
    };
    (s, e)
}

/// `slice[start..end]`, clamped to the slice and to `start <= end`.
pub fn slice_range(slice: &[Felt], start: usize, end: usize) -> (r: &[Felt])
    ensures
        r@ == slice@.subrange(
            clamped_bounds(slice@.len() as int, start as int, end as int).0,
            clamped_bounds(slice@.len() as int, start as int, end as int).1,
        ),
{
    let len = slice.len();
    let s = if start < len {
        start
    } else {
        len
    };
    let e = if end < s {
        s
    } else if end > len {
        len
    } else {
        end
    };
    slice_subrange(slice, s, e)
}

/// The inclusive address bounds of the half-open range `[start_addr, end_addr)`, `None` for an
/// empty range, or the error for an invalid range. The exclusive end may be `2^32`.
pub open spec fn spec_mem_print_range(start_addr: u64, end_addr: u64) -> Result<
    Option<(u32, u32)>,
    MemoryError,
> {
    if start_addr > u32::MAX {
        Err(MemoryError::AddressOutOfBounds { addr: start_addr })
    } else if end_addr > u32::MAX + 1 {
        Err(MemoryError::AddressOutOfBounds { addr: end_addr })
    } else if start_addr > end_addr {
        Err(MemoryError::InvalidMemoryRange { start_addr, end_addr })
    } else if start_addr == end_addr {
        Ok(None)
    } else {
        Ok(Some((start_addr as u32, (end_addr - 1) as u32)))
    }
}

/// Read the half-open memory range `[start, end)` from stack positions `start_idx` and
/// `end_idx`, as inclusive `(first, last)` address bounds (`None` for an empty range).
pub fn read_mem_print_range<P: EventContextProvider>(
    ctx: &EventContext<'_, P>,
    start_idx: usize,
    end_idx: usize,
) -> (r: Result<Option<(u32, u32)>, MemoryError>)
    ensures
        r == spec_mem_print_range(
            ctx.spec_provider().spec_stack_item(start_idx)@,
            ctx.spec_provider().spec_stack_item(end_idx)@,
        ),
{
    let start_addr = ctx.get_stack_item(start_idx).as_canonical_u64();
    let end_addr = ctx.get_stack_item(end_idx).as_canonical_u64();
    if start_addr > u32::MAX as u64 {
        return Err(MemoryError::AddressOutOfBounds { addr: start_addr });
    }
    if end_addr > u32::MAX as u64 + 1 {
        return Err(MemoryError::AddressOutOfBounds { addr: end_addr });
    }
    if start_addr > end_addr {
        return Err(MemoryError::InvalidMemoryRange { start_addr, end_addr });
    }
    if start_addr == end_addr {
        Ok(None)
    } else {
        Ok(Some((start_addr as u32, (end_addr - 1) as u32)))
    }
}

/// The text of an optional memory value.
pub open spec fn value_text(value: Option<Felt>) -> Option<Seq<char>> {
    match value {
        Some(f) => Some(decimal(f@ as nat)),
        None => None,
    }
}

/// The memory header `Memory state before step {clk} for context {ctx}`.
pub open spec fn mem_header(clk: u32, ctx: ContextId) -> Seq<char> {
    "Memory state before step "@ + decimal(clk as nat) + " for context "@ + decimal(ctx.0 as nat)
}

/// The items of the inclusive address range `[first, last]` of context `ctx`.
pub open spec fn mem_range_items<P: EventContextProvider>(
    p: &P,
    ctx: ContextId,
    first: u32,
    last: u32,
) -> Seq<(Seq<char>, Option<Seq<char>>)> {
    Seq::new(
        if first <= last {
            (last - first + 1) as nat
        } else {
            0
        },
        |i: int|
            (address_text((first + i) as u32), value_text(p.spec_mem_value(ctx, (first + i) as u32))),
    )
}

/// The text printed for the memory range `bounds` of the current context.
pub open spec fn spec_write_mem_range<P: EventContextProvider>(
    p: &P,
    bounds: Option<(u32, u32)>,
) -> Seq<char> {
    let ctx = p.spec_context_id();
    match bounds {
        None => mem_header(p.spec_clock(), ctx) + ": range is empty.\n"@,
        Some((first, last)) => mem_header(p.spec_clock(), ctx) + " in the range ["@ + decimal(
            first as nat,
        ) + ", "@ + decimal(last as nat) + "]:\n"@ + spec_write_interval(
            mem_range_items(p, ctx, first, last),
            None,
        ),
    }
}

fn append_mem_header<P: EventContextProvider>(out: &mut String, ctx: &EventContext<'_, P>) -> (r: ContextId)
    ensures
        r == ctx.spec_provider().spec_context_id(),
        final(out)@ == old(out)@ + mem_header(ctx.spec_provider().spec_clock(), r),
{
    let ctx_id = ctx.ctx();
    let clk = ctx.clock();
    proof {
        reveal_strlit("Memory state before step ");
        reveal_strlit(" for context ");
    }
    out.append("Memory state before step ");
    append_decimal(out, clk as u64);
    out.append(" for context ");
    append_decimal(out, ctx_id.as_u32() as u64);
    proof {
        assert(final(out)@ =~= old(out)@ + mem_header(clk, ctx_id));
    }
    ctx_id
}

/// Write every memory cell of the inclusive bounds of the current context, `EMPTY` for
/// unwritten cells; `None` denotes an empty range.
pub fn write_mem_range<P: EventContextProvider>(
    out: &mut String,
    ctx: &EventContext<'_, P>,
    bounds: Option<(u32, u32)>,
)
    ensures
        final(out)@ == old(out)@ + spec_write_mem_range(ctx.spec_provider(), bounds),
{
    let ghost p = ctx.spec_provider();
    let ctx_id = append_mem_header(out, ctx);
    match bounds {
        None => {
            proof {
                reveal_strlit(": range is empty.\n");
            }
            out.append(": range is empty.\n");
        },
        Some((first, last)) => {
            proof {
                reveal_strlit(" in the range [");
                reveal_strlit(", ");
                reveal_strlit("]:\n");
            }
            out.append(" in the range [");
            append_decimal(out, first as u64);
            out.append(", ");
            append_decimal(out, last as u64);
            out.append("]:\n");
            let ghost expected = mem_range_items(p, ctx_id, first, last);
            let mut items: Vec<(String, Option<String>)> = Vec::new();
            let count: u64 = if first <= last {
                last as u64 - first as u64 + 1
            } else {
                0
            };
            let mut k: u64 = 0;
            while k < count
                invariant
                    k <= count,
                    count == expected.len(),
                    first as u64 + count <= u32::MAX as u64 + 1,
                    p == ctx.spec_provider(),
                    ctx_id == p.spec_context_id(),
                    expected == mem_range_items(p, ctx_id, first, last),
                    items@.len() == k,
                    forall|t: int| 0 <= t < k ==> #[trigger] item_view(items@[t]) == expected[t],
                decreases count - k,
            {
                let addr: u32 = (first as u64 + k) as u32;
                let value = match ctx.get_mem_value(ctx_id, addr) {
                    Some(v) => Some(u64_to_decimal(v.as_canonical_u64())),
                    None => None,
                };
                let text = format_address(addr);
                items.push((text, value));
                k = k + 1;
            }
            proof {
                assert(items@.map_values(|item: (String, Option<String>)| item_view(item)) =~= expected);
            }
            write_interval(out, items, None);
        },
    }
}

/// The items of the written memory of context `ctx`.
pub open spec fn mem_all_items<P: EventContextProvider>(p: &P, ctx: ContextId) -> Seq<
    (Seq<char>, Option<Seq<char>>),
> {
    let state = p.spec_mem_state(ctx)@;
    Seq::new(state.len(), |i: int| (address_text(state[i].0.0), Some(decimal(state[i].1@ as nat))))
}

/// The text printed for the written memory of the current context.
pub open spec fn spec_write_mem_all<P: EventContextProvider>(p: &P) -> Seq<char> {
    mem_header(p.spec_clock(), p.spec_context_id()) + ":\n"@ + spec_write_interval(
        mem_all_items(p, p.spec_context_id()),
        None,
    )
}

/// Write every written memory cell of the current context.
pub fn write_mem_all<P: EventContextProvider>(out: &mut String, ctx: &EventContext<'_, P>)
    ensures
        final(out)@ == old(out)@ + spec_write_mem_all(ctx.spec_provider()),
{
    let ghost p = ctx.spec_provider();
    let ctx_id = append_mem_header(out, ctx);
    proof {
        reveal_strlit(":\n");
    }
    out.append(":\n");
    let state = ctx.get_mem_state(ctx_id);
    let ghost expected = mem_all_items(p, ctx_id);
    let mut items: Vec<(String, Option<String>)> = Vec::new();
    let mut i: usize = 0;
    while i < state.len()
        invariant
            i <= state@.len(),
            p == ctx.spec_provider(),
            state == p.spec_mem_state(ctx_id),
            expected == mem_all_items(p, ctx_id),
            items@.len() == i,
            forall|t: int| 0 <= t < i ==> #[trigger] item_view(items@[t]) == expected[t],
        decreases state.len() - i,
    {
        let (addr, value) = state[i];
        items.push((format_address(addr.0), Some(u64_to_decimal(value.as_canonical_u64()))));
        i = i + 1;
    }
    proof {
        assert(items@.map_values(|item: (String, Option<String>)| item_view(item)) =~= expected);
    }
    write_interval(out, items, None);
}

/// The items of the advice map: each key and its values, as bracketed lists.
pub open spec fn adv_map_items(entries: Seq<(Word, Vec<Felt>)>) -> Seq<(Seq<char>, Option<Seq<char>>)> {
    Seq::new(
        entries.len(),
        |i: int|
            (
                list_text(stack_values(entries[i].0@)),
                Some(list_text(stack_values(entries[i].1@))),
            ),
    )
}

/// The text printed for the advice map.
pub open spec fn spec_write_adv_map<P: EventContextProvider>(p: &P) -> Seq<char> {
    let entries = p.spec_advice_map_entries()@;
    let header = "Advice map before step "@ + decimal(p.spec_clock() as nat);
    if entries.len() == 0 {
        header + ": empty.\n"@
    } else {
        header + ":\n"@ + spec_write_interval(adv_map_items(entries), None)
    }
}

/// Write the whole advice map, one line per key.
pub fn write_adv_map<P: EventContextProvider>(out: &mut String, ctx: &EventContext<'_, P>)
    ensures
        final(out)@ == old(out)@ + spec_write_adv_map(ctx.spec_provider()),
{
    let ghost p = ctx.spec_provider();
    let clk = ctx.clock();
    let entries = ctx.advice_map_entries();
    proof {
        reveal_strlit("Advice map before step ");
        reveal_strlit(": empty.\n");
        reveal_strlit(":\n");
    }
    out.append("Advice map before step ");
    append_decimal(out, clk as u64);
    if entries.len() == 0 {
        out.append(": empty.\n");
        return;
    }
    out.append(":\n");
    let ghost expected = adv_map_items(entries@);
    let mut items: Vec<(String, Option<String>)> = Vec::new();
    let mut i: usize = 0;
    while i < entries.len()
        invariant
            i <= entries@.len(),
            expected == adv_map_items(entries@),
            items@.len() == i,
            forall|t: int| 0 <= t < i ==> #[trigger] item_view(items@[t]) == expected[t],
        decreases entries.len() - i,
    {
        let key_text = format_word(&entries[i].0);
        let values_text = format_felt_slice(entries[i].1.as_slice());
        items.push((key_text, Some(values_text)));
        i = i + 1;
    }
    proof {
        assert(items@.map_values(|item: (String, Option<String>)| item_view(item)) =~= expected);
    }
    write_interval(out, items, None);
}

/// The text printed for the advice-map entry under `key`.
pub open spec fn spec_write_adv_map_entry(key: Word, entry: Option<Seq<Felt>>, clk: u32) -> Seq<char> {
    let key_text = list_text(stack_values(key@));
    match entry {
        Some(values) => "Advice map entry for key "@ + key_text + " before step "@ + decimal(
            clk as nat,
        ) + ":\n"@ + spec_write_interval(
            stack_items(stack_values(values), values.len()),
            None,
        ),
        None => "No advice map entry for key "@ + key_text + " before step "@ + decimal(clk as nat)
            + ".\n"@,
    }
}

/// The entry of the advice map under the word at stack positions `1..5`, as a sequence.
pub open spec fn stack_key_entry<P: EventContextProvider>(p: &P) -> Option<Seq<Felt>> {
    match p.spec_advice_map_entry(p.spec_stack_word(1)) {
        Some(values) => Some(values@),
        None => None,
    }
}

/// Write the advice-map entry whose key is the word at stack positions `1..5`.
pub fn write_adv_map_entry<P: EventContextProvider>(out: &mut String, ctx: &EventContext<'_, P>)
    ensures
        final(out)@ == old(out)@ + spec_write_adv_map_entry(
            ctx.spec_provider().spec_stack_word(1),
            stack_key_entry(ctx.spec_provider()),
            ctx.spec_provider().spec_clock(),
        ),
{
    let key = ctx.get_stack_word(1);
    let key_text = format_word(&key);
    let clk = ctx.clock();
    proof {
        reveal_strlit("Advice map entry for key ");
        reveal_strlit("No advice map entry for key ");
        reveal_strlit(" before step ");
        reveal_strlit(":\n");
        reveal_strlit(".\n");
    }
    match ctx.get_advice_map_entry(&key) {
        Some(values) => {
            out.append("Advice map entry for key ");
            out.append(key_text.as_str());
            out.append(" before step ");
            append_decimal(out, clk as u64);
            out.append(":\n");
            let ghost vals = stack_values(values@);
            let mut items: Vec<(String, Option<String>)> = Vec::new();
            let mut i: usize = 0;
            while i < values.len()
                invariant
                    i <= values@.len(),
                    vals == stack_values(values@),
                    items@.len() == i,
                    forall|t: int|
                        0 <= t < i ==> #[trigger] item_view(items@[t]) == stack_items(
                            vals,
                            values@.len(),
                        )[t],
                decreases values.len() - i,
            {
                items.push((u64_to_decimal(i as u64), Some(u64_to_decimal(values[i].as_canonical_u64()))));
                i = i + 1;
            }
            proof {
                assert(items@.map_values(|item: (String, Option<String>)| item_view(item))
                    =~= stack_items(vals, values@.len()));
            }
            write_interval(out, items, None);
        },
        None => {
            out.append("No advice map entry for key ");
            out.append(key_text.as_str());
            out.append(" before step ");
            append_decimal(out, clk as u64);
            out.append(".\n");
        },
    }
}

/// The operand stack below the event id at position `0`.
pub open spec fn operand_stack(stack: Seq<Felt>) -> Seq<Felt> {
    if stack.len() == 0 {
        seq![]
    } else {
        stack.subrange(1, stack.len() as int)
    }
}

/// The advice stack in the range `[start, end)` read off stack positions `1` and `2`, clamped.
pub open spec fn adv_stack_range<P: EventContextProvider>(p: &P) -> Seq<Felt> {
    let adv = p.spec_advice_stack()@;
    let bounds = clamped_bounds(
        adv.len() as int,
        spec_saturating_usize(p.spec_stack_item(1)@) as int,
        spec_saturating_usize(p.spec_stack_item(2)@) as int,
    );
    adv.subrange(bounds.0, bounds.1)
}

/// What a debug event prints, or why it prints nothing.
pub open spec fn spec_debug_event_output<P: EventContextProvider>(p: &P, event: DebugEvent) -> Result<
    Seq<char>,
    DebugPrintError,
> {
    match event {
        DebugEvent::PrintStack => Ok(
            spec_write_stack(
                stack_values(operand_stack(p.spec_stack_state()@)),
                None,
                "Stack"@,
                p.spec_clock() as u64,
            ),
        ),
        DebugEvent::PrintMem => match spec_mem_print_range(
            p.spec_stack_item(1)@,
            p.spec_stack_item(2)@,
        ) {
            Err(e) => Err(DebugPrintError::Memory(e)),
            Ok(bounds) => match bounds {
                Some((first, last)) => if last - first + 1 > MAX_PRINT_MEM_RANGE {
                    Err(DebugPrintError::RangeTooLong { len: (last - first + 1) as u64 })
                } else {
                    Ok(spec_write_mem_range(p, bounds))
                },
                None => Ok(spec_write_mem_range(p, bounds)),
            },
        },
        DebugEvent::PrintMemAll => Ok(spec_write_mem_all(p)),
        DebugEvent::PrintAdvStack => Ok(
            spec_write_stack(
                stack_values(adv_stack_range(p)),
                None,
                "Advice stack"@,
                p.spec_clock() as u64,
            ),
        ),
        DebugEvent::PrintAdvMap => Ok(spec_write_adv_map(p)),
        DebugEvent::PrintAdvMapItem => Ok(
            spec_write_adv_map_entry(p.spec_stack_word(1), stack_key_entry(p), p.spec_clock()),
        ),
    }
}

/// The text that `event` prints for the state read through `ctx`: the operand stack below the
/// event id, a memory range (at most [`MAX_PRINT_MEM_RANGE`] addresses) or the whole written
/// memory of the current context, a clamped range of the advice stack, the advice map, or the
/// advice-map entry under the word on the stack.
pub fn debug_event_output<P: EventContextProvider>(event: DebugEvent, ctx: &EventContext<'_, P>) -> (r:
    Result<String, DebugPrintError>)
    ensures
        match r {
            Ok(text) => spec_debug_event_output(ctx.spec_provider(), event) == Ok::<
                Seq<char>,
                DebugPrintError,
            >(text@),
            Err(e) => spec_debug_event_output(ctx.spec_provider(), event) == Err::<
                Seq<char>,
                DebugPrintError,
            >(e),
        },
{
    let mut out = String::new();
    proof {
        reveal_strlit("Stack");
        reveal_strlit("Advice stack");
    }
    match event {
        DebugEvent::PrintStack => {
            let stack = ctx.get_stack_state();
            let operand: &[Felt] = if stack.len() == 0 {
                slice_subrange(stack.as_slice(), 0, 0)
            } else {
                slice_subrange(stack.as_slice(), 1, stack.len())
            };
            proof {
                assert(operand@ =~= operand_stack(stack@));
            }
            write_stack(&mut out, operand, None, "Stack", ctx.clock() as u64);
        },
        DebugEvent::PrintMem => {
            let bounds = match read_mem_print_range(ctx, 1, 2) {
                Ok(b) => b,
                Err(e) => {
                    return Err(DebugPrintError::Memory(e));
                },
            };
            if let Some((first, last)) = bounds {
                let len = (last - first) as u64 + 1;
                if len > MAX_PRINT_MEM_RANGE {
                    return Err(DebugPrintError::RangeTooLong { len });
                }
            }
            write_mem_range(&mut out, ctx, bounds);
        },
        DebugEvent::PrintMemAll => {
            write_mem_all(&mut out, ctx);
        },
        DebugEvent::PrintAdvStack => {
            let start = stack_item_as_usize(ctx, 1);
            let end = stack_item_as_usize(ctx, 2);
            let adv = ctx.advice_stack();
            let range = slice_range(adv.as_slice(), start, end);
            write_stack(&mut out, range, None, "Advice stack", ctx.clock() as u64);
        },
        DebugEvent::PrintAdvMap => {
            write_adv_map(&mut out, ctx);
        },
        DebugEvent::PrintAdvMapItem => {
            write_adv_map_entry(&mut out, ctx);
        },
    }
    proof {
        assert(out@ =~= Seq::<char>::empty() + out@);
    }
    Ok(out)
}

} // verus!
