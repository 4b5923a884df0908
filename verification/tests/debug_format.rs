use miden_kit::debug_format::{format_value, u64_to_decimal, write_interval, write_stack};
use miden_kit::field::Felt;

#[test]
fn write_stack_full_uses_tree_style() {
    let mut out = String::new();
    let stack = [Felt::new(3), Felt::new(2), Felt::new(1)];
    write_stack(&mut out, &stack, None, "Stack", 0);
    assert_eq!(out, "Stack state before step 0:\n├── 0: 3\n├── 1: 2\n└── 2: 1\n");
}

#[test]
fn write_stack_partial_shows_remaining() {
    let mut out = String::new();
    let stack = [Felt::new(9), Felt::new(8), Felt::new(7)];
    write_stack(&mut out, &stack, Some(2), "Stack", 4);
    assert_eq!(
        out,
        "Stack state in interval [0, 1] before step 4:\n├── 0: 9\n├── 1: 8\n└── (1 more items)\n"
    );
}

#[test]
fn write_stack_zero_count_does_not_underflow() {
    let mut out = String::new();
    let stack = [Felt::new(9), Felt::new(8), Felt::new(7)];
    write_stack(&mut out, &stack, Some(0), "Stack", 4);
    assert_eq!(out, "Stack state in interval [0, 0) before step 4:\n");
}

#[test]
fn write_interval_marks_empty_slots() {
    let mut out = String::new();
    let items = vec![("0".into(), Some("9".into())), ("1".into(), None)];
    write_interval(&mut out, items, None);
    assert_eq!(out, "├── 0: 9\n└── 1: EMPTY\n");
}

#[test]
fn format_value_uses_empty_for_none() {
    assert_eq!(format_value::<&str>(None), "EMPTY");
    assert_eq!(format_value(Some(5)), "5");
}

#[test]
fn write_stack_on_empty_stack_prints_one_line() {
    let mut out = String::new();
    write_stack(&mut out, &[], None, "Advice stack", 12);
    assert_eq!(out, "Advice stack empty before step 12.\n");
}

#[test]
fn write_stack_pads_addresses_and_marks_slots_past_the_stack() {
    let mut out = String::new();
    let stack: Vec<Felt> = (0..9).map(|i| Felt::new(100 + i)).collect();
    write_stack(&mut out, &stack, Some(11), "Stack", 7);
    let expected = "Stack state before step 7:\n├──  0: 100\n├──  1: 101\n├──  2: 102\n├──  3: 103\n├──  4: 104\n├──  5: 105\n├──  6: 106\n├──  7: 107\n├──  8: 108\n├──  9: EMPTY\n└── 10: EMPTY\n";
    assert_eq!(out, expected);
}

#[test]
fn decimal_rendering_matches_std() {
    for n in [0u64, 7, 10, 99, 12345, u64::MAX] {
        assert_eq!(u64_to_decimal(n), n.to_string());
    }
    assert_eq!(
        u64_to_decimal(Felt::new(u64::MAX).as_canonical_u64()),
        (u64::MAX - 0xffff_ffff_0000_0001).to_string()
    );
}
