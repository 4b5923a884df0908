use miden_kit::signature_mismatch::{
    declared_stack_signature, signature_mismatch_message, signature_mismatches, total_felts,
    DeclaredTypes, ProcSignatures, StackSignature,
};
use miden_kit::span::Span;

fn proc(name: &str, args: Vec<Option<usize>>, results: Vec<Option<usize>>, inferred: Option<(usize, usize)>) -> ProcSignatures {
    ProcSignatures {
        proc_name: name.to_string(),
        signature_span: Span::Known { source: 1, start: 10, end: 20 },
        name_span: Span::Known { source: 1, start: 4, end: 8 },
        declared: Some(DeclaredTypes { arg_felts: args, result_felts: results }),
        inferred: inferred.map(|(inputs, outputs)| StackSignature { inputs, outputs }),
    }
}

#[test]
fn total_felts_sums_known_sizes() {
    assert_eq!(total_felts(&vec![Some(1), Some(4)]), Some(5));
    assert_eq!(total_felts(&vec![]), Some(0));
    assert_eq!(total_felts(&vec![Some(1), None]), None);
    assert_eq!(total_felts(&vec![Some(usize::MAX), Some(1)]), None);
}

#[test]
fn declared_signature_needs_every_type() {
    let d = DeclaredTypes { arg_felts: vec![Some(4), Some(1)], result_felts: vec![Some(1)] };
    assert_eq!(declared_stack_signature(&d), Some(StackSignature { inputs: 5, outputs: 1 }));
    let d = DeclaredTypes { arg_felts: vec![Some(4)], result_felts: vec![None] };
    assert_eq!(declared_stack_signature(&d), None);
}

#[test]
fn mismatches_report_differing_procedures_in_order() {
    let mut unknown_span = proc("b", vec![Some(2)], vec![], Some((1, 0)));
    unknown_span.signature_span = Span::Unknown;
    let procs = vec![
        proc("a", vec![Some(1)], vec![Some(1)], Some((1, 1))),
        unknown_span,
        proc("c", vec![Some(1)], vec![Some(1)], None),
        proc("d", vec![Some(1)], vec![Some(2)], Some((3, 1))),
        ProcSignatures { declared: None, ..proc("e", vec![], vec![], Some((9, 9))) },
    ];
    let found = signature_mismatches(&procs);
    assert_eq!(found.len(), 2);
    assert_eq!(found[0].proc_name, "b");
    assert_eq!(found[0].span, Span::Known { source: 1, start: 4, end: 8 });
    assert_eq!(found[0].declared, StackSignature { inputs: 2, outputs: 0 });
    assert_eq!(found[0].inferred, StackSignature { inputs: 1, outputs: 0 });
    assert_eq!(found[1].proc_name, "d");
    assert_eq!(found[1].span, Span::Known { source: 1, start: 10, end: 20 });
    assert_eq!(
        signature_mismatch_message(&found[1]),
        "the definition declares 1 inputs and 2 outputs, but the inferred counts are 3 and 1 respectively"
    );
    assert_eq!(
        signature_mismatch_message(&found[0]),
        "the definition declares 2 inputs, but the inferred input count is 1"
    );
}

#[test]
fn mismatch_message_for_outputs_only() {
    let procs = vec![proc("f", vec![Some(1)], vec![Some(4)], Some((1, 1)))];
    let found = signature_mismatches(&procs);
    assert_eq!(
        signature_mismatch_message(&found[0]),
        "the definition declares 4 outputs, but the inferred output count is 1"
    );
}
