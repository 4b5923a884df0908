use miden_kit::advice::{
    apply_intrinsic_effect, assign_call_results, check_address_stmt, expr_output_fact,
    expr_u32_validity, intrinsic_kind, substitute_output_fact, AdviceFact, AdviceSummary, BinOp,
    DecompilerIntrinsic, Env, Expr, Intrinsic, IntrinsicKind, Stmt, U32Validity, UnOp, Var,
};
use miden_kit::field::Felt;
use miden_kit::span::Span;

fn var(id: u64) -> Var {
    Var(id)
}

fn view(f: &AdviceFact) -> (Vec<Span>, Vec<usize>) {
    let spans = f.source_spans().to_vec();
    let mut inputs = f.from_inputs().to_vec();
    inputs.sort();
    inputs.dedup();
    (spans, inputs)
}

fn span(start: u32) -> Span {
    Span::Known { source: 0, start, end: start + 1 }
}

#[test]
fn assign_call_results_substitutes_provenance_and_forwarded_metadata() {
    let arg0 = var(0);
    let arg1 = var(1);
    let result0 = var(2);
    let result1 = var(3);
    let extra_result = var(4);

    let mut env = Env::new();
    env.set_var_fact(&arg0, AdviceFact::from_input(0));
    env.set_var_fact(&arg1, AdviceFact::from_input(1));
    env.set_var_u32_validity(&arg1, U32Validity::ProvenU32);
    env.set_var_u32_validity(&extra_result, U32Validity::ProvenU32);
    let witness = env.identity_for_var(&arg0);
    env.set_var_zero_test(&arg1, Some(witness));

    let summary = AdviceSummary {
        outputs: vec![AdviceFact::from_input(1), AdviceFact::bottom()],
        u32_outputs: vec![U32Validity::Unknown, U32Validity::ProvenU32],
        forwarded_inputs: vec![Some(1), None],
        u32_inputs: vec![U32Validity::Unknown, U32Validity::ProvenU32],
        unknown: false,
    };

    assign_call_results(
        &vec![result0, result1, extra_result],
        &vec![arg0, arg1],
        Some(&summary),
        &mut env,
    );

    assert_eq!(view(&env.fact_for_var(&result0)), view(&AdviceFact::from_input(1)));
    assert_eq!(env.identity_for_var(&result0), env.identity_for_var(&arg1));
    assert_eq!(env.zero_test_for_var(&result0), env.zero_test_for_var(&arg1));
    assert_eq!(env.u32_validity_for_var(&result0), U32Validity::ProvenU32);
    assert_eq!(env.u32_validity_for_var(&arg1), U32Validity::ProvenU32);

    assert_eq!(view(&env.fact_for_var(&result1)), view(&AdviceFact::bottom()));
    assert_eq!(env.u32_validity_for_var(&result1), U32Validity::ProvenU32);
    assert_eq!(env.zero_test_for_var(&result1), None);

    assert_eq!(view(&env.fact_for_var(&extra_result)), view(&AdviceFact::bottom()));
    assert_eq!(env.u32_validity_for_var(&extra_result), U32Validity::Unknown);
    assert_eq!(env.zero_test_for_var(&extra_result), None);
}

#[test]
fn assign_call_results_clears_outputs_for_missing_summary() {
    let result = var(0);
    let mut env = Env::new();
    env.set_var_fact(&result, AdviceFact::from_input(0));
    env.set_var_u32_validity(&result, U32Validity::ProvenU32);

    assign_call_results(&vec![result], &vec![], None, &mut env);

    assert_eq!(view(&env.fact_for_var(&result)), view(&AdviceFact::bottom()));
    assert_eq!(env.u32_validity_for_var(&result), U32Validity::Unknown);
}

#[test]
fn opaque_summary_clears_results() {
    let mut env = Env::new();
    env.set_var_fact(&var(5), AdviceFact::from_source(span(3)));
    let summary = AdviceSummary {
        outputs: vec![AdviceFact::from_source(span(9))],
        u32_outputs: vec![U32Validity::ProvenU32],
        forwarded_inputs: vec![None],
        u32_inputs: vec![],
        unknown: true,
    };
    assign_call_results(&vec![var(5)], &vec![], Some(&summary), &mut env);
    assert_eq!(view(&env.fact_for_var(&var(5))), (vec![], vec![]));
    assert_eq!(env.u32_validity_for_var(&var(5)), U32Validity::Unknown);
}

#[test]
fn substitution_joins_argument_facts_and_keeps_sources() {
    let mut summary_fact = AdviceFact::from_source(span(1));
    summary_fact = summary_fact.join(&AdviceFact::from_input(0)).join(&AdviceFact::from_input(7));
    let args = vec![AdviceFact::from_source(span(2)).join(&AdviceFact::from_input(4))];
    let r = substitute_output_fact(&summary_fact, &args);
    let (mut spans, inputs) = view(&r);
    spans.sort_by_key(|s| match s {
        Span::Known { start, .. } => *start,
        Span::Unknown => 0,
    });
    assert_eq!(spans, vec![span(1), span(2)]);
    assert_eq!(inputs, vec![4]);
}

#[test]
fn output_fact_follows_field_arithmetic_only() {
    let mut env = Env::new();
    env.set_var_fact(&var(1), AdviceFact::from_source(span(10)));
    env.set_var_fact(&var(2), AdviceFact::from_input(3));
    let sum = Expr::Binary(BinOp::Add, Box::new(Expr::Var(var(1))), Box::new(Expr::Var(var(2))));
    assert_eq!(view(&expr_output_fact(&sum, &env)), (vec![span(10)], vec![3]));
    let cmp = Expr::Binary(BinOp::Lt, Box::new(Expr::Var(var(1))), Box::new(Expr::Var(var(2))));
    assert_eq!(view(&expr_output_fact(&cmp, &env)), (vec![], vec![]));
    let neg = Expr::Unary(UnOp::Neg, Box::new(Expr::Var(var(1))));
    assert_eq!(view(&expr_output_fact(&neg, &env)), (vec![span(10)], vec![]));
    let cast = Expr::Unary(UnOp::U32Cast, Box::new(Expr::Var(var(1))));
    assert_eq!(view(&expr_output_fact(&cast, &env)), (vec![], vec![]));
    let ternary = Expr::Ternary {
        cond: Box::new(Expr::Var(var(1))),
        then_expr: Box::new(Expr::Constant(Felt::new(1))),
        else_expr: Box::new(Expr::Var(var(2))),
    };
    assert_eq!(view(&expr_output_fact(&ternary, &env)), (vec![], vec![3]));
}

#[test]
fn u32_validity_of_expressions() {
    let mut env = Env::new();
    env.set_var_u32_validity(&var(1), U32Validity::ProvenU32);
    env.set_var_identity(&var(2), 1);
    assert_eq!(expr_u32_validity(&Expr::Var(var(2)), &env), U32Validity::ProvenU32);
    assert_eq!(expr_u32_validity(&Expr::Var(var(3)), &env), U32Validity::Unknown);
    let and = Expr::Binary(BinOp::U32And, Box::new(Expr::Var(var(3))), Box::new(Expr::True));
    assert_eq!(expr_u32_validity(&and, &env), U32Validity::ProvenU32);
    let exp = Expr::Binary(BinOp::U32Exp, Box::new(Expr::Var(var(1))), Box::new(Expr::Var(var(1))));
    assert_eq!(expr_u32_validity(&exp, &env), U32Validity::Unknown);
    let ternary = Expr::Ternary {
        cond: Box::new(Expr::True),
        then_expr: Box::new(Expr::Var(var(1))),
        else_expr: Box::new(Expr::Var(var(3))),
    };
    assert_eq!(expr_u32_validity(&ternary, &env), U32Validity::Unknown);
    let not = Expr::Unary(UnOp::Not, Box::new(Expr::Var(var(1))));
    assert_eq!(expr_u32_validity(&not, &env), U32Validity::Unknown);
    let clz = Expr::Unary(UnOp::U32Clz, Box::new(Expr::Var(var(3))));
    assert_eq!(expr_u32_validity(&clz, &env), U32Validity::ProvenU32);
}

#[test]
fn memory_address_from_advice_is_reported() {
    let mut env = Env::new();
    env.set_var_fact(&var(1), AdviceFact::from_source(span(5)));
    env.set_var_fact(&var(2), AdviceFact::from_input(0));
    let store = Stmt::MemStore { span: span(40), address: vec![var(1)] };
    let found = check_address_stmt("p::q", &store, None, &env);
    assert_eq!(found.len(), 1);
    assert_eq!(found[0].procedure, "p::q");
    assert_eq!(found[0].span, span(40));
    assert_eq!(found[0].origins, vec![span(5)]);
    assert_eq!(found[0].message, "unconstrained advice used as memory address");

    let load = Stmt::MemLoad { span: span(41), address: vec![var(2)] };
    assert!(check_address_stmt("p::q", &load, None, &env).is_empty());
    let empty = Stmt::MemLoad { span: span(41), address: vec![] };
    assert!(check_address_stmt("p::q", &empty, None, &env).is_empty());

    let args: Vec<Var> = (0..13).map(|i| if i == 12 { var(1) } else { var(100 + i) }).collect();
    let results: Vec<Var> = (0..13).map(|i| var(200 + i)).collect();
    let intrinsic = Stmt::Intrinsic {
        span: span(42),
        intrinsic: Intrinsic { name: "mem_stream".to_string(), args, results },
    };
    assert_eq!(check_address_stmt("p::q", &intrinsic, Some(12), &env).len(), 1);
    assert!(check_address_stmt("p::q", &intrinsic, None, &env).is_empty());
    assert!(check_address_stmt("p::q", &Stmt::Other, None, &env).is_empty());
}

#[test]
fn adv_push_introduces_advice_and_clears_metadata() {
    let mut env = Env::new();
    env.set_var_identity(&var(1), 7);
    let intrinsic = Intrinsic { name: "adv_push".to_string(), args: vec![], results: vec![var(1)] };
    apply_intrinsic_effect(span(3), &intrinsic, IntrinsicKind::AdvPush, &mut env);
    assert_eq!(view(&env.fact_for_var(&var(1))), (vec![span(3)], vec![]));
    assert_eq!(env.identity_for_var(&var(1)), 1);
}

#[test]
fn u32split_proves_only_its_last_result() {
    let mut env = Env::new();
    let intrinsic =
        Intrinsic { name: "u32split".to_string(), args: vec![var(1)], results: vec![var(2), var(3)] };
    apply_intrinsic_effect(span(3), &intrinsic, IntrinsicKind::U32Split, &mut env);
    assert_eq!(env.u32_validity_for_var(&var(2)), U32Validity::Unknown);
    assert_eq!(env.u32_validity_for_var(&var(3)), U32Validity::ProvenU32);
}

#[test]
fn u32assert_sanitizes_every_alias_of_its_argument() {
    let mut env = Env::new();
    env.set_var_identity(&var(2), 1);
    env.set_var_identity(&var(3), 1);
    let intrinsic = Intrinsic { name: "u32assert".to_string(), args: vec![var(3)], results: vec![] };
    apply_intrinsic_effect(span(3), &intrinsic, IntrinsicKind::U32Assert, &mut env);
    assert_eq!(env.u32_validity_for_var(&var(1)), U32Validity::ProvenU32);
    assert_eq!(env.u32_validity_for_var(&var(2)), U32Validity::ProvenU32);
    assert_eq!(env.u32_validity_for_var(&var(4)), U32Validity::Unknown);
}

#[test]
fn u32testw_keeps_the_tested_word() {
    let mut env = Env::new();
    env.set_var_fact(&var(1), AdviceFact::from_source(span(8)));
    env.set_var_u32_validity(&var(1), U32Validity::ProvenU32);
    let intrinsic = Intrinsic {
        name: "u32testw".to_string(),
        args: vec![var(1)],
        results: vec![var(10), var(11)],
    };
    apply_intrinsic_effect(span(3), &intrinsic, IntrinsicKind::U32TestW, &mut env);
    assert_eq!(env.u32_validity_for_var(&var(10)), U32Validity::ProvenU32);
    assert_eq!(view(&env.fact_for_var(&var(10))), (vec![], vec![]));
    assert_eq!(view(&env.fact_for_var(&var(11))), (vec![span(8)], vec![]));
    assert_eq!(env.identity_for_var(&var(11)), 1);
}

#[test]
fn other_intrinsics_join_their_arguments() {
    let mut env = Env::new();
    env.set_var_fact(&var(1), AdviceFact::from_source(span(8)));
    env.set_var_fact(&var(2), AdviceFact::from_input(2));
    let intrinsic =
        Intrinsic { name: "mystery".to_string(), args: vec![var(1), var(2)], results: vec![var(3)] };
    apply_intrinsic_effect(span(3), &intrinsic, IntrinsicKind::Other, &mut env);
    assert_eq!(view(&env.fact_for_var(&var(3))), (vec![span(8)], vec![2]));
    apply_intrinsic_effect(span(3), &intrinsic, IntrinsicKind::RequiresU32, &mut env);
    assert_eq!(view(&env.fact_for_var(&var(3))), (vec![], vec![]));
    assert_eq!(env.u32_validity_for_var(&var(3)), U32Validity::ProvenU32);
}

#[test]
fn adv_pipe_preserves_four_words_and_reads_advice_into_the_rest() {
    let mut env = Env::new();
    for i in 0..13u64 {
        env.set_var_fact(&var(i), AdviceFact::from_input(i as usize));
    }
    let args: Vec<Var> = (0..13).map(var).collect();
    let results: Vec<Var> = (100..113).map(var).collect();
    let intrinsic = Intrinsic { name: "adv_pipe".to_string(), args, results };
    apply_intrinsic_effect(span(6), &intrinsic, IntrinsicKind::AdvPipe, &mut env);
    assert_eq!(view(&env.fact_for_var(&var(100))), (vec![], vec![]));
    assert_eq!(view(&env.fact_for_var(&var(101))), (vec![], vec![11]));
    assert_eq!(view(&env.fact_for_var(&var(104))), (vec![], vec![8]));
    assert_eq!(view(&env.fact_for_var(&var(105))), (vec![span(6)], vec![]));
    assert_eq!(view(&env.fact_for_var(&var(112))), (vec![span(6)], vec![]));
}

#[test]
fn intrinsic_kinds_follow_base_names() {
    assert_eq!(intrinsic_kind("u32assert2", DecompilerIntrinsic::Other, false), IntrinsicKind::U32Assert);
    assert_eq!(intrinsic_kind("u32split", DecompilerIntrinsic::Other, true), IntrinsicKind::U32Split);
    assert_eq!(intrinsic_kind("locaddr.4", DecompilerIntrinsic::Other, false), IntrinsicKind::LocAddr);
    assert_eq!(intrinsic_kind("loca", DecompilerIntrinsic::Other, false), IntrinsicKind::Other);
    assert_eq!(intrinsic_kind("u32add", DecompilerIntrinsic::Other, true), IntrinsicKind::RequiresU32);
    assert_eq!(intrinsic_kind("anything", DecompilerIntrinsic::AdvPush, true), IntrinsicKind::AdvPush);
    assert_eq!(intrinsic_kind("anything", DecompilerIntrinsic::MemStream, true), IntrinsicKind::MemStream);
    assert_eq!(intrinsic_kind("sdepth", DecompilerIntrinsic::Other, false), IntrinsicKind::Sdepth);
}

#[test]
fn join_keeps_what_holds_on_both_paths() {
    let mut a = Env::new();
    let mut b = Env::new();
    a.set_var_fact(&var(1), AdviceFact::from_source(span(1)));
    b.set_var_fact(&var(1), AdviceFact::from_input(2));
    b.set_var_fact(&var(2), AdviceFact::from_input(5));
    a.set_var_u32_validity(&var(1), U32Validity::ProvenU32);
    a.set_var_u32_validity(&var(3), U32Validity::ProvenU32);
    b.set_var_u32_validity(&var(3), U32Validity::ProvenU32);
    a.set_var_identity(&var(4), 3);
    b.set_var_identity(&var(4), 3);
    a.set_var_identity(&var(5), 3);
    b.set_var_identity(&var(5), 1);
    a.set_var_zero_test(&var(6), Some(9));
    b.set_var_zero_test(&var(6), Some(8));

    let j = a.join(&b);
    assert_eq!(view(&j.fact_for_var(&var(1))), (vec![span(1)], vec![2]));
    assert_eq!(view(&j.fact_for_var(&var(2))), (vec![], vec![5]));
    assert_eq!(j.u32_validity_for_var(&var(1)), U32Validity::Unknown);
    assert_eq!(j.u32_validity_for_var(&var(3)), U32Validity::ProvenU32);
    assert_eq!(j.identity_for_var(&var(4)), 3);
    assert_eq!(j.identity_for_var(&var(5)), 5);
    assert_eq!(j.zero_test_for_var(&var(6)), None);
    // Variable 4 copies 3, which is proven on both paths.
    assert_eq!(j.u32_validity_for_var(&var(4)), U32Validity::ProvenU32);
}
