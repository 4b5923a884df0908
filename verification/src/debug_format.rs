//! The VM's tree-style debug formatting of stacks and memory intervals.
//!
//! A stack is printed top-first under a header naming the clock cycle; every item line is
//! prefixed with `├── ` except the last, which is prefixed with `└── `. Addresses are right-aligned
//! to the widest address, and missing values print as `EMPTY`.
use vstd::prelude::*;
use vstd::string::*;

use crate::field::{Felt, Word};

verus! {

/// The character of a decimal digit.
pub open spec fn digit_char(d: int) -> char {
    if d == 0 {
        '0'
    } else if d == 1 {
        '1'
    } else if d == 2 {
        '2'
    } else if d == 3 {
        '3'
    } else if d == 4 {
        '4'
    } else if d == 5 {
        '5'
    } else if d == 6 {
        '6'
    } else if d == 7 {
        '7'
    } else if d == 8 {
        '8'
    } else {
        '9'
    }
}

/// The decimal representation of a natural number, without leading zeros.
pub open spec fn decimal(n: nat) -> Seq<char>
    decreases n,
{
    if n < 10 {
        seq![digit_char(n as int)]
    } else {
        decimal(n / 10) + seq![digit_char((n % 10) as int)]
    }
}

/// `k` spaces.
pub open spec fn spaces(k: nat) -> Seq<char> {
    Seq::new(k, |i: int| ' ')
}

fn digit_str(d: u64) -> (r: &'static str)
    requires
        d < 10,
    ensures
        r@ == seq![digit_char(d as int)],
{
    proof {
        reveal_strlit("0");
        reveal_strlit("1");
        reveal_strlit("2");
        reveal_strlit("3");
        reveal_strlit("4");
        reveal_strlit("5");
        reveal_strlit("6");
        reveal_strlit("7");
        reveal_strlit("8");
        reveal_strlit("9");
    }
    if d == 0 {
        "0"
    } else if d == 1 {
        "1"
    } else if d == 2 {
        "2"
    } else if d == 3 {
        "3"
    } else if d == 4 {
        "4"
    } else if d == 5 {
        "5"
    } else if d == 6 {
        "6"
    } else if d == 7 {
        "7"
    } else if d == 8 {
        "8"
    } else {
        "9"
    }
}

/// Append the decimal representation of `n`.
pub fn append_decimal(out: &mut String, n: u64)
    ensures
        final(out)@ == old(out)@ + decimal(n as nat),
    decreases n,
{
    if n < 10 {
        out.append(digit_str(n));
    } else {
        append_decimal(out, n / 10);
        out.append(digit_str(n % 10));
        proof {
            assert(old(out)@ + decimal((n / 10) as nat) + seq![digit_char((n % 10) as int)]
                =~= old(out)@ + decimal(n as nat));
        }
    }
}

/// The decimal representation of `n`.
pub fn u64_to_decimal(n: u64) -> (r: String)
    ensures
        r@ == decimal(n as nat),
{
    let mut s = String::new();
    append_decimal(&mut s, n);
    proof {
        assert(Seq::<char>::empty() + decimal(n as nat) =~= decimal(n as nat));
    }
    s
}

fn append_spaces(out: &mut String, k: usize)
    ensures
        final(out)@ == old(out)@ + spaces(k as nat),
{
    proof {
        reveal_strlit(" ");
    }
    let mut i: usize = 0;
    while i < k
        invariant
            i <= k,
            out@ == old(out)@ + spaces(i as nat),
        decreases k - i,
    {
        proof {
            reveal_strlit(" ");
        }
        out.append(" ");
        proof {
            assert(old(out)@ + spaces(i as nat) + seq![' '] =~= old(out)@ + spaces((i + 1) as nat));
        }
        i = i + 1;
    }
}

/// The text of an absent value.
pub open spec fn empty_text() -> Seq<char> {
    seq!['E', 'M', 'P', 'T', 'Y']
}

/// The display text of a value, `EMPTY` for an absent value.
pub fn format_value<T: core::fmt::Display>(value: Option<T>) -> (r: String)
    ensures
        value is None ==> r@ == empty_text(),
        value matches Some(v) ==> to_string_from_display_ensures::<T>(&v, r),
{
    match value {
        Some(v) => v.to_string(),
        None => {
            proof {
                reveal_strlit("EMPTY");
            }
            String::from_str("EMPTY")
        },
    }
}

/// An interval item: an address and an optional value.
pub open spec fn item_view(item: (String, Option<String>)) -> (Seq<char>, Option<Seq<char>>) {
    (
        item.0@,
        match item.1 {
            Some(v) => Some(v@),
            None => None,
        },
    )
}

/// The widest address among interval items.
pub open spec fn max_addr_width(items: Seq<(Seq<char>, Option<Seq<char>>)>) -> nat
    decreases items.len(),
{
    if items.len() == 0 {
        0
    } else {
        let w = max_addr_width(items.drop_last());
        if items.last().0.len() > w {
            items.last().0.len()
        } else {
            w
        }
    }
}

/// One item formatted as `{addr:>width}: {value}`.
pub open spec fn format_item(item: (Seq<char>, Option<Seq<char>>), width: nat) -> Seq<char> {
    spaces((width - item.0.len()) as nat) + item.0 + seq![':', ' '] + match item.1 {
        Some(v) => v,
        None => empty_text(),
    }
}

/// The branch prefix `├── `.
pub open spec fn branch_prefix() -> Seq<char> {
    seq!['\u{251c}', '\u{2500}', '\u{2500}', ' ']
}

/// The last-branch prefix `└── `.
pub open spec fn last_branch_prefix() -> Seq<char> {
    seq!['\u{2514}', '\u{2500}', '\u{2500}', ' ']
}

/// Lines prefixed tree-style: `├── ` on every line but the last, `└── ` on the last.
pub open spec fn tree_lines(lines: Seq<Seq<char>>) -> Seq<char>
    decreases lines.len(),
{
    if lines.len() == 0 {
        seq![]
    } else if lines.len() == 1 {
        last_branch_prefix() + lines[0] + seq!['\n']
    } else {
        branch_prefix() + lines[0] + seq!['\n'] + tree_lines(lines.drop_first())
    }
}

/// The `(N more items)` line.
pub open spec fn remaining_line(count: nat) -> Seq<char> {
    seq!['('] + decimal(count) + seq![' ', 'm', 'o', 'r', 'e', ' ', 'i', 't', 'e', 'm', 's', ')']
}

/// The lines of an interval: each item aligned to the widest address, then the remaining count.
pub open spec fn interval_lines(
    items: Seq<(Seq<char>, Option<Seq<char>>)>,
    remaining: Option<usize>,
) -> Seq<Seq<char>> {
    let width = max_addr_width(items);
    let formatted = items.map_values(|item: (Seq<char>, Option<Seq<char>>)| format_item(item, width));
    match remaining {
        Some(count) => formatted.push(remaining_line(count as nat)),
        None => formatted,
    }
}

/// The text of an interval.
pub open spec fn spec_write_interval(
    items: Seq<(Seq<char>, Option<Seq<char>>)>,
    remaining: Option<usize>,
) -> Seq<char> {
    tree_lines(interval_lines(items, remaining))
}

proof fn lemma_max_width_bound(items: Seq<(Seq<char>, Option<Seq<char>>)>, i: int)
    requires
        0 <= i < items.len(),
    ensures
        items[i].0.len() <= max_addr_width(items),
    decreases items.len(),
{
    if i < items.len() - 1 {
        lemma_max_width_bound(items.drop_last(), i);
    }
}

proof fn lemma_tree_lines_push(lines: Seq<Seq<char>>, line: Seq<char>)
    requires
        lines.len() > 0,
    ensures
        tree_lines(lines.push(line)) == tree_lines_front(lines) + last_branch_prefix() + line
            + seq!['\n'],
    decreases lines.len(),
{
    if lines.len() == 1 {
        assert(lines.push(line).drop_first() =~= seq![line]);
        assert(tree_lines(seq![line]) == last_branch_prefix() + line + seq!['\n']);
        assert(tree_lines_front(lines) == branch_prefix() + lines[0] + seq!['\n']);
    } else {
        assert(lines.push(line).drop_first() =~= lines.drop_first().push(line));
        lemma_tree_lines_push(lines.drop_first(), line);
        assert(tree_lines_front(lines) =~= branch_prefix() + lines[0] + seq!['\n']
            + tree_lines_front(lines.drop_first()));
    }
}

/// Every line prefixed with `├── `.
pub open spec fn tree_lines_front(lines: Seq<Seq<char>>) -> Seq<char>
    decreases lines.len(),
{
    if lines.len() == 0 {
        seq![]
    } else {
        branch_prefix() + lines[0] + seq!['\n'] + tree_lines_front(lines.drop_first())
    }
}

proof fn lemma_front_push(lines: Seq<Seq<char>>, line: Seq<char>)
    ensures
        tree_lines_front(lines.push(line)) == tree_lines_front(lines) + branch_prefix() + line
            + seq!['\n'],
    decreases lines.len(),
{
    if lines.len() == 0 {
        assert(lines.push(line).drop_first() =~= Seq::<Seq<char>>::empty());
        assert(seq![line].drop_first() =~= Seq::<Seq<char>>::empty());
        assert(tree_lines_front(Seq::<Seq<char>>::empty()) == Seq::<char>::empty());
        assert(tree_lines_front(seq![line]) =~= branch_prefix() + line + seq!['\n']);
        assert(lines.push(line) =~= seq![line]);
    } else {
        assert(lines.push(line).drop_first() =~= lines.drop_first().push(line));
        lemma_front_push(lines.drop_first(), line);
        assert(tree_lines_front(lines.push(line)) =~= tree_lines_front(lines) + branch_prefix()
            + line + seq!['\n']);
    }
}

fn append_line(out: &mut String, prefix_is_last: bool, line: &String)
    ensures
        final(out)@ == old(out)@ + (if prefix_is_last {
            last_branch_prefix()
        } else {
            branch_prefix()
        }) + line@ + seq!['\n'],
{
    proof {
        reveal_strlit("\u{251c}\u{2500}\u{2500} ");
        reveal_strlit("\u{2514}\u{2500}\u{2500} ");
        reveal_strlit("\n");
    }
    if prefix_is_last {
        out.append("\u{2514}\u{2500}\u{2500} ");
    } else {
        out.append("\u{251c}\u{2500}\u{2500} ");
    }
    out.append(line.as_str());
    out.append("\n");
}

/// Write lines tree-style.
fn write_tree(out: &mut String, lines: &Vec<String>)
    ensures
        final(out)@ == old(out)@ + tree_lines(lines@.map_values(|l: String| l@)),
{
    let ghost views = lines@.map_values(|l: String| l@);
    let n = lines.len();
    if n == 0 {
        return;
    }
    let mut i: usize = 0;
    while i + 1 < n
        invariant
            n == lines@.len(),
            n > 0,
            i + 1 <= n,
            views == lines@.map_values(|l: String| l@),
            out@ == old(out)@ + tree_lines_front(views.take(i as int)),
        decreases n - i,
    {
        append_line(out, false, &lines[i]);
        proof {
            assert(views.take(i + 1) =~= views.take(i as int).push(views[i as int]));
            lemma_front_push(views.take(i as int), views[i as int]);
        }
        i = i + 1;
    }
    append_line(out, true, &lines[i]);
    proof {
        assert(views =~= views.take(i as int).push(views[i as int]));
        if i == 0 {
            assert(views =~= seq![views[0]]);
            assert(tree_lines_front(views.take(0)) =~= Seq::<char>::empty());
        } else {
            lemma_tree_lines_push(views.take(i as int), views[i as int]);
        }
    }
}

/// Write an interval of items with right-aligned addresses, `EMPTY` for absent values, and an
/// optional `(N more items)` line, tree-style.
pub fn write_interval(out: &mut String, items: Vec<(String, Option<String>)>, remaining: Option<usize>)
    ensures
        final(out)@ == old(out)@ + spec_write_interval(
            items@.map_values(|item: (String, Option<String>)| item_view(item)),
            remaining,
        ),
{
    let ghost views = items@.map_values(|item: (String, Option<String>)| item_view(item));
    let n = items.len();
    // The widest address.
    let mut width: usize = 0;
    let mut i: usize = 0;
    while i < n
        invariant
            n == items@.len(),
            i <= n,
            views == items@.map_values(|item: (String, Option<String>)| item_view(item)),
            width == max_addr_width(views.take(i as int)),
        decreases n - i,
    {
        let len = items[i].0.as_str().unicode_len();
        proof {
            assert(views.take(i + 1).drop_last() =~= views.take(i as int));
        }
        if len > width {
            width = len;
        }
        i = i + 1;
    }
    proof {
        assert(views.take(n as int) =~= views);
    }
    // Format each item.
    let mut lines: Vec<String> = Vec::new();
    let mut j: usize = 0;
    while j < n
        invariant
            n == items@.len(),
            j <= n,
            views == items@.map_values(|item: (String, Option<String>)| item_view(item)),
            width == max_addr_width(views),
            lines@.len() == j,
            forall|t: int| 0 <= t < j ==> #[trigger] lines@[t]@ == format_item(views[t], width as nat),
        decreases n - j,
    {
        let (addr, value) = &items[j];
        let addr_len = addr.as_str().unicode_len();
        proof {
            lemma_max_width_bound(views, j as int);
            reveal_strlit(": ");
            reveal_strlit("EMPTY");
        }
        let mut line = String::new();
        append_spaces(&mut line, width - addr_len);
        line.append(addr.as_str());
        line.append(": ");
        match value {
            Some(v) => line.append(v.as_str()),
            None => line.append("EMPTY"),
        }
        proof {
            assert(line@ =~= format_item(views[j as int], width as nat));
        }
        lines.push(line);
        j = j + 1;
    }
    match remaining {
        Some(count) => {
            let mut line = String::new();
            proof {
                reveal_strlit("(");
                reveal_strlit(" more items)");
            }
            line.append("(");
            append_decimal(&mut line, count as u64);
            line.append(" more items)");
            proof {
                assert(line@ =~= remaining_line(count as nat));
            }
            lines.push(line);
        },
        None => {},
    }
    proof {
        assert(lines@.map_values(|l: String| l@) =~= interval_lines(views, remaining));
    }
    write_tree(out, &lines);
}

/// The canonical values of a stack, top first.
pub open spec fn stack_values(stack: Seq<Felt>) -> Seq<u64> {
    stack.map_values(|f: Felt| f@)
}

/// The first `num` stack slots as interval items: index and value, `EMPTY` past the stack.
pub open spec fn stack_items(stack: Seq<u64>, num: nat) -> Seq<(Seq<char>, Option<Seq<char>>)> {
    Seq::new(
        num,
        |i: int|
            (
                decimal(i as nat),
                if i < stack.len() {
                    Some(decimal(stack[i] as nat))
                } else {
                    None
                },
            ),
    )
}

/// The text of a stack: a header naming the clock cycle, then the requested slots.
pub open spec fn spec_write_stack(stack: Seq<u64>, n: Option<usize>, label: Seq<char>, clk: u64) -> Seq<
    char,
> {
    let len = stack.len();
    let num: nat = match n {
        Some(k) => k as nat,
        None => len,
    };
    if len == 0 {
        label + " empty before step "@ + decimal(clk as nat) + ".\n"@
    } else if num == 0 {
        label + " state in interval [0, 0) before step "@ + decimal(clk as nat) + ":\n"@
    } else if num < len {
        label + " state in interval [0, "@ + decimal((num - 1) as nat) + "] before step "@
            + decimal(clk as nat) + ":\n"@ + spec_write_interval(
            stack_items(stack, num),
            Some((len - num) as usize),
        )
    } else {
        label + " state before step "@ + decimal(clk as nat) + ":\n"@ + spec_write_interval(
            stack_items(stack, num),
            None,
        )
    }
}

/// Write a stack (operand or advice stack, top first) in the VM's debug format: `n` slots, or the
/// whole stack for `None`; slots past the stack print `EMPTY`, and a partial view ends with the
/// number of remaining items.
pub fn write_stack(out: &mut String, stack: &[Felt], n: Option<usize>, label: &str, clk: u64)
    ensures
        final(out)@ == old(out)@ + spec_write_stack(stack_values(stack@), n, label@, clk),
{
    let len = stack.len();
    let ghost vals = stack_values(stack@);
    if len == 0 {
        out.append(label);
        out.append(" empty before step ");
        append_decimal(out, clk);
        out.append(".\n");
        return;
    }
    let num = match n {
        Some(k) => k,
        None => len,
    };
    if num == 0 {
        out.append(label);
        out.append(" state in interval [0, 0) before step ");
        append_decimal(out, clk);
        out.append(":\n");
        return;
    }
    out.append(label);
    if num < len {
        out.append(" state in interval [0, ");
        append_decimal(out, (num - 1) as u64);
        out.append("] before step ");
    } else {
        out.append(" state before step ");
    }
    append_decimal(out, clk);
    out.append(":\n");
    let ghost header = out@;
    let mut items: Vec<(String, Option<String>)> = Vec::new();
    let mut i: usize = 0;
    while i < num
        invariant
            len == stack@.len(),
            vals == stack_values(stack@),
            i <= num,
            items@.len() == i,
            forall|t: int|
                0 <= t < i ==> #[trigger] item_view(items@[t]) == stack_items(vals, num as nat)[t],
        decreases num - i,
    {
        let addr = u64_to_decimal(i as u64);
        let value = if i < len {
            Some(u64_to_decimal(stack[i].as_canonical_u64()))
        } else {
            None
        };
        items.push((addr, value));
        i = i + 1;
    }
    proof {
        assert(items@.map_values(|item: (String, Option<String>)| item_view(item)) =~= stack_items(
            vals,
            num as nat,
        ));
    }
    let remaining = if num < len {
        Some(len - num)
    } else {
        None
    };
    write_interval(out, items, remaining);
}


/// The character of a lowercase hexadecimal digit.
pub open spec fn hex_digit_char(d: int) -> char {
    if d < 10 {
        digit_char(d)
    } else if d == 10 {
        'a'
    } else if d == 11 {
        'b'
    } else if d == 12 {
        'c'
    } else if d == 13 {
        'd'
    } else if d == 14 {
        'e'
    } else {
        'f'
    }
}

/// The last `k` hexadecimal digits of `n`, zero-padded.
pub open spec fn hex_digits(n: nat, k: nat) -> Seq<char>
    decreases k,
{
    if k == 0 {
        seq![]
    } else {
        hex_digits(n / 16, (k - 1) as nat) + seq![hex_digit_char((n % 16) as int)]
    }
}

/// An address as `0x` and eight lowercase hexadecimal digits.
pub open spec fn address_text(addr: u32) -> Seq<char> {
    seq!['0', 'x'] + hex_digits(addr as nat, 8)
}

fn hex_digit_str(d: u64) -> (r: &'static str)
    requires
        d < 16,
    ensures
        r@ == seq![hex_digit_char(d as int)],
{
    proof {
        reveal_strlit("a");
        reveal_strlit("b");
        reveal_strlit("c");
        reveal_strlit("d");
        reveal_strlit("e");
        reveal_strlit("f");
    }
    if d < 10 {
        digit_str(d)
    } else if d == 10 {
        "a"
    } else if d == 11 {
        "b"
    } else if d == 12 {
        "c"
    } else if d == 13 {
        "d"
    } else if d == 14 {
        "e"
    } else {
        "f"
    }
}

fn append_hex_digits(out: &mut String, n: u64, k: u64)
    ensures
        final(out)@ == old(out)@ + hex_digits(n as nat, k as nat),
    decreases k,
{
    if k > 0 {
        append_hex_digits(out, n / 16, k - 1);
        out.append(hex_digit_str(n % 16));
        proof {
            assert(old(out)@ + hex_digits((n / 16) as nat, (k - 1) as nat) + seq![
                hex_digit_char((n % 16) as int),
            ] =~= old(out)@ + hex_digits(n as nat, k as nat));
        }
    } else {
        proof {
            assert(old(out)@ + hex_digits(n as nat, 0) =~= old(out)@);
        }
    }
}

/// The text of an address: `0x` and eight lowercase hexadecimal digits.
pub fn format_address(addr: u32) -> (r: String)
    ensures
        r@ == address_text(addr),
{
    let mut s = String::new();
    proof {
        reveal_strlit("0x");
    }
    s.append("0x");
    append_hex_digits(&mut s, addr as u64, 8);
    s
}

/// The elements of a sequence of values in decimal, separated by `, `.
pub open spec fn joined_decimals(vals: Seq<u64>) -> Seq<char>
    decreases vals.len(),
{
    if vals.len() == 0 {
        seq![]
    } else if vals.len() == 1 {
        decimal(vals[0] as nat)
    } else {
        joined_decimals(vals.drop_last()) + seq![',', ' '] + decimal(vals.last() as nat)
    }
}

/// A bracketed, comma-separated list of values.
pub open spec fn list_text(vals: Seq<u64>) -> Seq<char> {
    seq!['['] + joined_decimals(vals) + seq![']']
}

/// The text of a list of field elements, `[a, b, ...]`.
pub fn format_felt_slice(values: &[Felt]) -> (r: String)
    ensures
        r@ == list_text(stack_values(values@)),
{
    let ghost vals = stack_values(values@);
    let mut out = String::new();
    proof {
        reveal_strlit("[");
        reveal_strlit("]");
        reveal_strlit(", ");
    }
    out.append("[");
    let mut i: usize = 0;
    while i < values.len()
        invariant
            i <= values@.len(),
            vals == stack_values(values@),
            out@ == seq!['['] + joined_decimals(vals.take(i as int)),
        decreases values.len() - i,
    {
        let ghost before = out@;
        if i > 0 {
            out.append(", ");
        }
        append_decimal(&mut out, values[i].as_canonical_u64());
        proof {
            assert(vals.take(i + 1).drop_last() =~= vals.take(i as int));
            assert(vals.take(i + 1).last() == vals[i as int]);
            if i == 0 {
                assert(vals.take(0) =~= Seq::<u64>::empty());
                assert(joined_decimals(vals.take(0)) =~= Seq::<char>::empty());
                assert(out@ =~= seq!['['] + joined_decimals(vals.take(i + 1)));
            } else {
                reveal_strlit(", ");
                assert(joined_decimals(vals.take(i + 1)) == joined_decimals(vals.take(i as int))
                    + seq![',', ' '] + decimal(vals[i as int] as nat));
                assert(out@ =~= seq!['['] + joined_decimals(vals.take(i + 1)));
            }
        }
        i = i + 1;
    }
    out.append("]");
    proof {
        assert(vals.take(values@.len() as int) =~= vals);
        assert(out@ =~= list_text(vals));
    }
    out
}

/// The text of a word, `[a, b, c, d]`.
pub fn format_word(word: &Word) -> (r: String)
    ensures
        r@ == list_text(stack_values(word@)),
{
    format_felt_slice(word.as_slice())
}

} // verus!
