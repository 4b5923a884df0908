use miden_kit::chiplet_selectors::{build_chiplet_selectors, enforce_bitwise_constraints};
use miden_kit::columns::{ChipletCols, CHIPLETS_MODE_COL};
use miden_kit::constraint_builder::ConstraintBuilder;
use miden_kit::field::Felt;

fn row(s_ctrl: u64, mode: u64, s1: u64, s2: u64, s3: u64, s4: u64) -> ChipletCols<Felt> {
    let mut chiplets = [Felt::zero(); 23];
    chiplets[0] = Felt::new(s_ctrl);
    chiplets[1] = Felt::new(s1);
    chiplets[2] = Felt::new(s2);
    chiplets[3] = Felt::new(s3);
    chiplets[4] = Felt::new(s4);
    chiplets[CHIPLETS_MODE_COL] = Felt::new(mode);
    ChipletCols { chiplets, chip_clk: Felt::one() }
}

fn transition_builder() -> ConstraintBuilder {
    ConstraintBuilder::new(Felt::zero(), Felt::zero(), Felt::one())
}

fn active(s: &miden_kit::chiplet_selectors::ChipletSelectors<Felt>) -> [u64; 4] {
    [
        s.controller.is_active.as_canonical_u64(),
        s.bitwise.is_active.as_canonical_u64(),
        s.memory.is_active.as_canonical_u64(),
        s.ace.is_active.as_canonical_u64(),
    ]
}

#[test]
fn each_section_activates_exactly_its_chiplet() {
    let sections = [
        (row(1, 0, 0, 0, 0, 0), [1, 0, 0, 0]),
        (row(0, 0, 0, 0, 0, 0), [0, 1, 0, 0]),
        (row(0, 0, 1, 0, 0, 0), [0, 0, 1, 0]),
        (row(0, 0, 1, 1, 0, 0), [0, 0, 0, 1]),
        (row(0, 0, 1, 1, 1, 0), [0, 0, 0, 0]),
    ];
    for (local, expected) in sections {
        let mut builder = transition_builder();
        let flags = build_chiplet_selectors(&mut builder, &local, &local);
        assert_eq!(active(&flags), expected);
        assert!(builder.is_satisfied());
        assert_eq!(builder.constraints.len(), 17);
    }
}

#[test]
fn controller_row_cannot_follow_a_chiplet_row() {
    let mut builder = transition_builder();
    build_chiplet_selectors(&mut builder, &row(0, 0, 1, 0, 0, 0), &row(1, 0, 0, 0, 0, 0));
    assert!(!builder.is_satisfied());
    assert_eq!(builder.constraints[1], Felt::one());
}

#[test]
fn set_selector_cannot_be_cleared() {
    let mut builder = transition_builder();
    build_chiplet_selectors(&mut builder, &row(0, 0, 1, 1, 0, 0), &row(0, 0, 1, 0, 0, 0));
    assert!(!builder.is_satisfied());
}

#[test]
fn boundary_flags_mark_section_changes() {
    let mut builder = transition_builder();
    let flags = build_chiplet_selectors(&mut builder, &row(1, 0, 0, 0, 0, 0), &row(0, 0, 0, 0, 0, 0));
    assert!(builder.is_satisfied());
    assert_eq!(flags.controller.is_last, Felt::one());
    assert_eq!(flags.bitwise.next_is_first, Felt::one());
    assert_eq!(flags.memory.next_is_first, Felt::zero());

    // An empty bitwise section: the controller is followed directly by memory.
    let mut builder = transition_builder();
    let flags = build_chiplet_selectors(&mut builder, &row(1, 0, 0, 0, 0, 0), &row(0, 0, 1, 0, 0, 0));
    assert!(builder.is_satisfied());
    assert_eq!(flags.memory.next_is_first, Felt::one());
    assert_eq!(flags.bitwise.next_is_first, Felt::zero());

    // Empty bitwise and memory sections: memory to ACE boundary detected directly.
    let mut builder = transition_builder();
    let flags = build_chiplet_selectors(&mut builder, &row(1, 0, 0, 0, 0, 0), &row(0, 0, 1, 1, 0, 0));
    assert_eq!(flags.ace.next_is_first, Felt::one());
}

#[test]
fn stream_mode_splits_bitwise_rows() {
    let mut builder = transition_builder();
    let flags = build_chiplet_selectors(&mut builder, &row(0, 1, 0, 0, 0, 0), &row(0, 1, 0, 0, 0, 0));
    assert!(builder.is_satisfied());
    assert_eq!(flags.stream_mode.aead_stream, Felt::one());
    assert_eq!(flags.stream_mode.normal_bitwise, Felt::zero());

    let mut builder = transition_builder();
    build_chiplet_selectors(&mut builder, &row(0, 1, 1, 0, 0, 0), &row(0, 0, 1, 0, 0, 0));
    assert!(!builder.is_satisfied());
}

#[test]
fn last_row_requires_kernel_rom_selectors() {
    let mut builder = ConstraintBuilder::new(Felt::zero(), Felt::one(), Felt::zero());
    let flags = build_chiplet_selectors(&mut builder, &row(0, 0, 1, 1, 1, 1), &row(0, 0, 1, 1, 1, 1));
    assert!(builder.is_satisfied());
    assert_eq!(active(&flags), [0, 0, 0, 0]);

    let mut builder = ConstraintBuilder::new(Felt::zero(), Felt::one(), Felt::zero());
    build_chiplet_selectors(&mut builder, &row(0, 0, 1, 1, 0, 0), &row(0, 0, 1, 1, 0, 0));
    assert!(!builder.is_satisfied());
}

#[test]
fn bitwise_op_flag_must_be_boolean_on_normal_rows() {
    let mut local = row(0, 0, 0, 0, 0, 0);
    local.chiplets[2] = Felt::new(2);
    let mut builder = transition_builder();
    enforce_bitwise_constraints(&mut builder, &local, &local, Felt::one());
    assert!(!builder.is_satisfied());

    let mut builder = transition_builder();
    enforce_bitwise_constraints(&mut builder, &local, &local, Felt::zero());
    assert!(builder.is_satisfied());
}
