//! Declared-versus-inferred stack signatures of procedures.
//!
//! A procedure's declared signature counts the field elements of its argument and result types;
//! the analysis infers how many inputs it reads and outputs it leaves. A procedure whose two
//! counts differ is reported. The host resolves each declared type to its size in field elements
//! (`None` for a type without a fixed size or one that does not resolve).
use vstd::prelude::*;
use vstd::string::*;

use crate::debug_format::{append_decimal, decimal};
use crate::span::Span;

verus! {

/// Stack-effect counts of a procedure signature.
#[derive(Debug, Clone, Copy, PartialEq, Eq, Structural)]
pub struct StackSignature {
    /// Number of inputs.
    pub inputs: usize,
    /// Number of outputs.
    pub outputs: usize,
}

/// The declared types of a procedure, each resolved to its size in field elements.
#[derive(Debug, Clone)]
pub struct DeclaredTypes {
    /// Sizes of the argument types.
    pub arg_felts: Vec<Option<usize>>,
    /// Sizes of the result types.
    pub result_felts: Vec<Option<usize>>,
}

/// What the analysis knows of one procedure's signatures.
#[derive(Debug, Clone)]
pub struct ProcSignatures {
    /// Procedure name without module path.
    pub proc_name: String,
    /// Span of the declared signature.
    pub signature_span: Span,
    /// Span of the procedure's name.
    pub name_span: Span,
    /// The declared signature, if the procedure has one.
    pub declared: Option<DeclaredTypes>,
    /// The inferred stack signature, if it is known.
    pub inferred: Option<StackSignature>,
}

/// Mismatch between declared and inferred stack signatures.
#[derive(Debug, Clone)]
pub struct SignatureMismatch {
    /// Procedure name without module path.
    pub proc_name: String,
    /// Source span associated with the mismatch.
    pub span: Span,
    /// Declared stack signature.
    pub declared: StackSignature,
    /// Inferred stack signature.
    pub inferred: StackSignature,
}

/// Whether every size of `sizes` is known.
pub open spec fn all_known(sizes: Seq<Option<usize>>) -> bool {
    forall|i: int| 0 <= i < sizes.len() ==> #[trigger] sizes[i] is Some
}

/// The sum of the known sizes of `sizes`.
pub open spec fn known_total(sizes: Seq<Option<usize>>) -> nat
    decreases sizes.len(),
{
    if sizes.len() == 0 {
        0
    } else {
        known_total(sizes.drop_last()) + match sizes.last() {
            Some(n) => n as nat,
            None => 0nat,
        }
    }
}

/// The total size of a list of types: `None` if one size is unknown or the total exceeds
/// `usize::MAX`.
pub open spec fn spec_total_felts(sizes: Seq<Option<usize>>) -> Option<usize> {
    if all_known(sizes) && known_total(sizes) <= usize::MAX {
        Some(known_total(sizes) as usize)
    } else {
        None
    }
}

/// The declared stack signature: the total sizes of the argument and of the result types.
pub open spec fn spec_declared_signature(
    arg_felts: Seq<Option<usize>>,
    result_felts: Seq<Option<usize>>,
) -> Option<StackSignature> {
    match (spec_total_felts(arg_felts), spec_total_felts(result_felts)) {
        (Some(inputs), Some(outputs)) => Some(StackSignature { inputs, outputs }),
        _ => None,
    }
}

proof fn lemma_known_total_monotone(sizes: Seq<Option<usize>>, i: int)
    requires
        0 <= i <= sizes.len(),
    ensures
        known_total(sizes.take(i)) <= known_total(sizes),
    decreases sizes.len(),
{
    if i < sizes.len() {
        assert(sizes.drop_last().take(i) =~= sizes.take(i));
        lemma_known_total_monotone(sizes.drop_last(), i);
    } else {
        assert(sizes.take(i) =~= sizes);
    }
}

/// The total size of a list of types, `None` if one size is unknown or the sum overflows.
pub fn total_felts(sizes: &Vec<Option<usize>>) -> (r: Option<usize>)
    ensures
        r == spec_total_felts(sizes@),
{
    let mut total: usize = 0;
    let mut i: usize = 0;
    while i < sizes.len()
        invariant
            i <= sizes@.len(),
            all_known(sizes@.take(i as int)),
            total == known_total(sizes@.take(i as int)),
        decreases sizes.len() - i,
    {
        proof {
            assert(sizes@.take(i + 1).drop_last() =~= sizes@.take(i as int));
        }
        match sizes[i] {
            Some(n) => {
                if n > usize::MAX - total {
                    proof {
                        lemma_known_total_monotone(sizes@, i + 1);
                    }
                    return None;
                }
                total = total + n;
            },
            None => {
                proof {
                    assert(!all_known(sizes@)) by {
                        assert(!(sizes@[i as int] is Some));
                    }
                }
                return None;
            },
        }
        i = i + 1;
        proof {
            assert forall|j: int| 0 <= j < i implies #[trigger] sizes@.take(i as int)[j] is Some by {
                if j < i - 1 {
                    assert(sizes@.take(i as int)[j] == sizes@.take(i - 1)[j]);
                }
            }
        }
    }
    proof {
        assert(sizes@.take(sizes@.len() as int) =~= sizes@);
    }
    Some(total)
}

/// The declared stack signature of the given argument and result type sizes.
pub fn declared_stack_signature(declared: &DeclaredTypes) -> (r: Option<StackSignature>)
    ensures
        r == spec_declared_signature(declared.arg_felts@, declared.result_felts@),
{
    let inputs = match total_felts(&declared.arg_felts) {
        Some(n) => n,
        None => {
            return None;
        },
    };
    let outputs = match total_felts(&declared.result_felts) {
        Some(n) => n,
        None => {
            return None;
        },
    };
    Some(StackSignature { inputs, outputs })
}

/// The view of a mismatch: name, span, declared and inferred signatures.
pub open spec fn mismatch_view(m: SignatureMismatch) -> (Seq<char>, Span, StackSignature, StackSignature) {
    (m.proc_name@, m.span, m.declared, m.inferred)
}

/// The mismatch reported for one procedure, if any: both signatures known and different. It is
/// located at the declared signature, or at the name when the signature's span is unknown.
pub open spec fn spec_proc_mismatch(p: ProcSignatures) -> Option<
    (Seq<char>, Span, StackSignature, StackSignature),
> {
    match p.declared {
        None => None,
        Some(d) => match spec_declared_signature(d.arg_felts@, d.result_felts@) {
            None => None,
            Some(declared) => match p.inferred {
                None => None,
                Some(inferred) => if declared != inferred {
                    Some(
                        (
                            p.proc_name@,
                            if p.signature_span == Span::Unknown {
                                p.name_span
                            } else {
                                p.signature_span
                            },
                            declared,
                            inferred,
                        ),
                    )
                } else {
                    None
                },
            },
        },
    }
}

/// The mismatches of a list of procedures, in order.
pub open spec fn spec_mismatches(procs: Seq<ProcSignatures>) -> Seq<
    (Seq<char>, Span, StackSignature, StackSignature),
>
    decreases procs.len(),
{
    if procs.len() == 0 {
        seq![]
    } else {
        let rest = spec_mismatches(procs.drop_last());
        match spec_proc_mismatch(procs.last()) {
            Some(m) => rest.push(m),
            None => rest,
        }
    }
}

/// The signature mismatches of the procedures of a module, in order.
pub fn signature_mismatches(procs: &[ProcSignatures]) -> (r: Vec<SignatureMismatch>)
    ensures
        r@.map_values(|m: SignatureMismatch| mismatch_view(m)) == spec_mismatches(procs@),
{
    let mut findings: Vec<SignatureMismatch> = Vec::new();
    let mut i: usize = 0;
    while i < procs.len()
        invariant
            i <= procs@.len(),
            findings@.map_values(|m: SignatureMismatch| mismatch_view(m)) == spec_mismatches(
                procs@.take(i as int),
            ),
        decreases procs.len() - i,
    {
        proof {
            assert(procs@.take(i + 1).drop_last() =~= procs@.take(i as int));
            assert(procs@.take(i + 1).last() == procs@[i as int]);
        }
        let proc = &procs[i];
        let ghost before = findings@;
        let mut found: Option<SignatureMismatch> = None;
        if let Some(declared_types) = &proc.declared {
            if let Some(declared) = declared_stack_signature(declared_types) {
                if let Some(inferred) = proc.inferred {
                    if declared.inputs != inferred.inputs || declared.outputs != inferred.outputs {
                        let span = match proc.signature_span {
                            Span::Unknown => proc.name_span,
                            known => known,
                        };
                        found = Some(
                            SignatureMismatch {
                                proc_name: proc.proc_name.clone(),
                                span,
                                declared,
                                inferred,
                            },
                        );
                    }
                }
            }
        }
        match found {
            Some(m) => {
                findings.push(m);
                proof {
                    assert(findings@.map_values(|m: SignatureMismatch| mismatch_view(m))
                        =~= before.map_values(|m: SignatureMismatch| mismatch_view(m)).push(
                        mismatch_view(m),
                    ));
                }
            },
            None => {},
        }
        i = i + 1;
    }
    proof {
        assert(procs@.take(procs@.len() as int) =~= procs@);
    }
    findings
}

/// The message describing a mismatch: which counts differ, declared against inferred.
pub open spec fn spec_mismatch_message(declared: StackSignature, inferred: StackSignature) -> Seq<
    char,
> {
    let inputs_diff = declared.inputs != inferred.inputs;
    let outputs_diff = declared.outputs != inferred.outputs;
    if inputs_diff && outputs_diff {
        "the definition declares "@ + decimal(declared.inputs as nat) + " inputs and "@ + decimal(
            declared.outputs as nat,
        ) + " outputs, but the inferred counts are "@ + decimal(inferred.inputs as nat)
            + " and "@ + decimal(inferred.outputs as nat) + " respectively"@
    } else if inputs_diff {
        "the definition declares "@ + decimal(declared.inputs as nat)
            + " inputs, but the inferred input count is "@ + decimal(inferred.inputs as nat)
    } else if outputs_diff {
        "the definition declares "@ + decimal(declared.outputs as nat)
            + " outputs, but the inferred output count is "@ + decimal(inferred.outputs as nat)
    } else {
        seq![]
    }
}

/// A human-readable message describing a signature mismatch.
pub fn signature_mismatch_message(mismatch: &SignatureMismatch) -> (r: String)
    ensures
        r@ == spec_mismatch_message(mismatch.declared, mismatch.inferred),
{
    let d = mismatch.declared;
    let f = mismatch.inferred;
    let inputs_diff = d.inputs != f.inputs;
    let outputs_diff = d.outputs != f.outputs;
    let mut out = String::new();
    proof {
        reveal_strlit("the definition declares ");
        reveal_strlit(" inputs and ");
        reveal_strlit(" outputs, but the inferred counts are ");
        reveal_strlit(" and ");
        reveal_strlit(" respectively");
        reveal_strlit(" inputs, but the inferred input count is ");
        reveal_strlit(" outputs, but the inferred output count is ");
    }
    if inputs_diff && outputs_diff {
        out.append("the definition declares ");
        append_decimal(&mut out, d.inputs as u64);
        out.append(" inputs and ");
        append_decimal(&mut out, d.outputs as u64);
        out.append(" outputs, but the inferred counts are ");
        append_decimal(&mut out, f.inputs as u64);
        out.append(" and ");
        append_decimal(&mut out, f.outputs as u64);
        out.append(" respectively");
    } else if inputs_diff {
        out.append("the definition declares ");
        append_decimal(&mut out, d.inputs as u64);
        out.append(" inputs, but the inferred input count is ");
        append_decimal(&mut out, f.inputs as u64);
    } else if outputs_diff {
        out.append("the definition declares ");
        append_decimal(&mut out, d.outputs as u64);
        out.append(" outputs, but the inferred output count is ");
        append_decimal(&mut out, f.outputs as u64);
    }
    proof {
        assert(out@ =~= spec_mismatch_message(d, f));
    }
    out
}

} // verus!
