//! The unconstrained-advice analysis of MASM procedures: which values may carry advice that no
//! instruction has constrained, which values are proven to be `u32`, and which memory accesses
//! use such advice as their address.
//!
//! Variables are named by their integer keys. The environment maps each variable to its advice
//! fact, records which variables are proven `u32`, and which variable each one aliases.
use vstd::prelude::*;

use vstd::std_specs::iter::IteratorSpec;

use crate::field::Felt;
use crate::span::Span;

verus! {

/// A variable of the decompiled program, named by its key.
#[derive(Debug, Clone, Copy, PartialEq, Eq, Structural)]
pub struct Var(pub u64);

/// Provenance of unconstrained advice for a value: the source spans at which advice may have
/// been introduced, and the input positions whose advice may reach the value.
#[derive(Debug, Clone)]
pub struct AdviceFact {
    source_spans: Vec<Span>,
    from_inputs: Vec<usize>,
}

impl View for AdviceFact {
    type V = (Set<Span>, Set<usize>);

    closed spec fn view(&self) -> (Set<Span>, Set<usize>) {
        (self.source_spans@.to_set(), self.from_inputs@.to_set())
    }
}

/// The bottom fact: no known unconstrained advice.
pub open spec fn bottom_fact() -> (Set<Span>, Set<usize>) {
    (Set::empty(), Set::empty())
}

/// The join of two facts: the union of their sources and of their inputs.
pub open spec fn join_facts(a: (Set<Span>, Set<usize>), b: (Set<Span>, Set<usize>)) -> (
    Set<Span>,
    Set<usize>,
) {
    (a.0 + b.0, a.1 + b.1)
}

fn push_unique_span(v: &mut Vec<Span>, x: Span)
    ensures
        final(v)@.to_set() == old(v)@.to_set().insert(x),
{
    let mut i: usize = 0;
    while i < v.len()
        invariant
            i <= v@.len(),
            forall|j: int| 0 <= j < i ==> v@[j] != x,
        decreases v.len() - i,
    {
        if v[i] == x {
            proof {
                assert(v@.to_set().insert(x) =~= v@.to_set()) by {
                    assert(v@.to_set().contains(v@[i as int]));
                }
            }
            return;
        }
        i = i + 1;
    }
    let ghost before = v@;
    v.push(x);
    proof {
        assert(v@.to_set() =~= before.to_set().insert(x)) by {
            assert forall|y: Span| v@.to_set().contains(y) <==> before.to_set().insert(x).contains(y) by {
                if v@.to_set().contains(y) {
                    let j = choose|j: int| 0 <= j < v@.len() && v@[j] == y;
                    if j < before.len() {
                        assert(before[j] == y);
                    }
                }
                if before.to_set().contains(y) {
                    let j = choose|j: int| 0 <= j < before.len() && before[j] == y;
                    assert(v@[j] == y);
                }
                if y == x {
                    assert(v@[before.len() as int] == x);
                }
            }
        }
    }
}

fn push_unique_index(v: &mut Vec<usize>, x: usize)
    ensures
        final(v)@.to_set() == old(v)@.to_set().insert(x),
{
    let mut i: usize = 0;
    while i < v.len()
        invariant
            i <= v@.len(),
            forall|j: int| 0 <= j < i ==> v@[j] != x,
        decreases v.len() - i,
    {
        if v[i] == x {
            proof {
                assert(v@.to_set().insert(x) =~= v@.to_set()) by {
                    assert(v@.to_set().contains(v@[i as int]));
                }
            }
            return;
        }
        i = i + 1;
    }
    let ghost before = v@;
    v.push(x);
    proof {
        assert(v@.to_set() =~= before.to_set().insert(x)) by {
            assert forall|y: usize| v@.to_set().contains(y) <==> before.to_set().insert(x).contains(y) by {
                if v@.to_set().contains(y) {
                    let j = choose|j: int| 0 <= j < v@.len() && v@[j] == y;
                    if j < before.len() {
                        assert(before[j] == y);
                    }
                }
                if before.to_set().contains(y) {
                    let j = choose|j: int| 0 <= j < before.len() && before[j] == y;
                    assert(v@[j] == y);
                }
                if y == x {
                    assert(v@[before.len() as int] == x);
                }
            }
        }
    }
}

impl AdviceFact {
    /// The bottom fact: no known unconstrained advice.
    pub fn bottom() -> (r: AdviceFact)
        ensures
            r@ == bottom_fact(),
    {
        let r = AdviceFact { source_spans: Vec::new(), from_inputs: Vec::new() };
        proof {
            assert(r@.0 =~= Set::<Span>::empty());
            assert(r@.1 =~= Set::<usize>::empty());
        }
        r
    }

    /// Advice introduced at `span`; an unknown span records no source.
    pub fn from_source(span: Span) -> (r: AdviceFact)
        ensures
            r@ == (if span == Span::Unknown {
                Set::<Span>::empty()
            } else {
                set![span]
            }, Set::<usize>::empty()),
    {
        let mut source_spans: Vec<Span> = Vec::new();
        if span != Span::Unknown {
            source_spans.push(span);
        }
        let r = AdviceFact { source_spans, from_inputs: Vec::new() };
        proof {
            if span == Span::Unknown {
                assert(r@.0 =~= Set::<Span>::empty());
            } else {
                assert(r@.0 =~= set![span]) by {
                    assert(r.source_spans@[0] == span);
                }
            }
            assert(r@.1 =~= Set::<usize>::empty());
        }
        r
    }

    /// A dependency on the advice of input `index`.
    pub fn from_input(index: usize) -> (r: AdviceFact)
        ensures
            r@ == (Set::<Span>::empty(), set![index]),
    {
        let mut from_inputs: Vec<usize> = Vec::new();
        from_inputs.push(index);
        let r = AdviceFact { source_spans: Vec::new(), from_inputs };
        proof {
            assert(r@.0 =~= Set::<Span>::empty());
            assert(r@.1 =~= set![index]) by {
                assert(r.from_inputs@[0] == index);
            }
        }
        r
    }

    /// Whether the fact has at least one concrete advice source.
    pub fn has_concrete_sources(&self) -> (r: bool)
        ensures
            r == !self@.0.is_empty(),
    {
        proof {
            if self.source_spans@.len() > 0 {
                assert(self@.0.contains(self.source_spans@[0]));
            } else {
                assert(self@.0 =~= Set::<Span>::empty());
            }
        }
        self.source_spans.len() > 0
    }

    /// The concrete advice sources of the fact.
    pub fn source_spans(&self) -> (r: &[Span])
        ensures
            r@.to_set() == self@.0,
    {
        self.source_spans.as_slice()
    }

    /// The input positions whose advice may reach the value.
    pub fn from_inputs(&self) -> (r: &[usize])
        ensures
            r@.to_set() == self@.1,
    {
        self.from_inputs.as_slice()
    }

    /// The join of two facts.
    pub fn join(&self, other: &AdviceFact) -> (r: AdviceFact)
        ensures
            r@ == join_facts(self@, other@),
    {
        let mut r = AdviceFact {
            source_spans: self.source_spans.clone(),
            from_inputs: self.from_inputs.clone(),
        };
        proof {
            assert(r.source_spans@ =~= self.source_spans@);
            assert(r.from_inputs@ =~= self.from_inputs@);
        }
        let mut i: usize = 0;
        while i < other.source_spans.len()
            invariant
                i <= other.source_spans@.len(),
                r.source_spans@.to_set() == self@.0 + other.source_spans@.take(i as int).to_set(),
                r.from_inputs@ == self.from_inputs@,
            decreases other.source_spans.len() - i,
        {
            push_unique_span(&mut r.source_spans, other.source_spans[i]);
            proof {
                assert(other.source_spans@.take(i + 1).to_set() =~= other.source_spans@.take(
                    i as int,
                ).to_set().insert(other.source_spans@[i as int])) by {
                    assert(other.source_spans@.take(i + 1) =~= other.source_spans@.take(i as int).push(
                        other.source_spans@[i as int],
                    ));
                    other.source_spans@.take(i as int).lemma_push_to_set_commute(other.source_spans@[i as int]);
                }
                assert(r.source_spans@.to_set() =~= self@.0 + other.source_spans@.take(i + 1).to_set());
            }
            i = i + 1;
        }
        proof {
            assert(other.source_spans@.take(other.source_spans@.len() as int) =~= other.source_spans@);
            assert(self.from_inputs@.to_set() + other.from_inputs@.take(0).to_set() =~= self@.1);
        }
        let mut j: usize = 0;
        while j < other.from_inputs.len()
            invariant
                j <= other.from_inputs@.len(),
                r.source_spans@.to_set() == self@.0 + other@.0,
                r.from_inputs@.to_set() == self@.1 + other.from_inputs@.take(j as int).to_set(),
            decreases other.from_inputs.len() - j,
        {
            push_unique_index(&mut r.from_inputs, other.from_inputs[j]);
            proof {
                assert(other.from_inputs@.take(j + 1).to_set() =~= other.from_inputs@.take(
                    j as int,
                ).to_set().insert(other.from_inputs@[j as int])) by {
                    assert(other.from_inputs@.take(j + 1) =~= other.from_inputs@.take(j as int).push(
                        other.from_inputs@[j as int],
                    ));
                    other.from_inputs@.take(j as int).lemma_push_to_set_commute(other.from_inputs@[j as int]);
                }
                assert(r.from_inputs@.to_set() =~= self@.1 + other.from_inputs@.take(j + 1).to_set());
            }
            j = j + 1;
        }
        proof {
            assert(other.source_spans@.take(other.source_spans@.len() as int) =~= other.source_spans@);
            assert(other.from_inputs@.take(other.from_inputs@.len() as int) =~= other.from_inputs@);
            assert(r@.0 =~= join_facts(self@, other@).0);
            assert(r@.1 =~= join_facts(self@, other@).1);
        }
        r
    }
}

impl AdviceFact {
    /// A copy of the fact.
    pub fn copy(&self) -> (r: AdviceFact)
        ensures
            r@ == self@,
    {
        let r = AdviceFact {
            source_spans: self.source_spans.clone(),
            from_inputs: self.from_inputs.clone(),
        };
        proof {
            assert(r.source_spans@ =~= self.source_spans@);
            assert(r.from_inputs@ =~= self.from_inputs@);
        }
        r
    }
}

/// Whether a value is proven to fit in 32 bits.
#[derive(Debug, Clone, Copy, PartialEq, Eq, Structural)]
pub enum U32Validity {
    /// Nothing is known.
    Unknown,
    /// The value is proven to be a `u32`.
    ProvenU32,
}

impl U32Validity {
    /// Whether the value is proven to be a `u32`.
    pub fn is_proven(self) -> (r: bool)
        ensures
            r == (self == U32Validity::ProvenU32),
    {
        match self {
            U32Validity::ProvenU32 => true,
            U32Validity::Unknown => false,
        }
    }

    /// The validity that holds on both of two paths: proven only if proven on each.
    pub fn join(self, other: U32Validity) -> (r: U32Validity)
        ensures
            r == spec_join_validity(self, other),
    {
        match (self, other) {
            (U32Validity::ProvenU32, U32Validity::ProvenU32) => U32Validity::ProvenU32,
            _ => U32Validity::Unknown,
        }
    }
}

/// The validity that holds on both of two paths.
pub open spec fn spec_join_validity(a: U32Validity, b: U32Validity) -> U32Validity {
    if a == U32Validity::ProvenU32 && b == U32Validity::ProvenU32 {
        U32Validity::ProvenU32
    } else {
        U32Validity::Unknown
    }
}

/// Unary operators of the decompiled program.
#[derive(Debug, Clone, Copy, PartialEq, Eq, Structural)]
pub enum UnOp {
    Neg,
    Inv,
    Pow2,
    Not,
    U32Cast,
    U32Test,
    U32Not,
    U32Clz,
    U32Ctz,
    U32Clo,
    U32Cto,
}

/// Binary operators of the decompiled program.
#[derive(Debug, Clone, Copy, PartialEq, Eq, Structural)]
pub enum BinOp {
    Add,
    Sub,
    Mul,
    Div,
    And,
    Or,
    Xor,
    Eq,
    Neq,
    Lt,
    Lte,
    Gt,
    Gte,
    U32And,
    U32Or,
    U32Xor,
    U32Shl,
    U32Shr,
    U32Rotr,
    U32Lt,
    U32Lte,
    U32Gt,
    U32Gte,
    U32WrappingAdd,
    U32WrappingSub,
    U32WrappingMul,
    U32Exp,
}

/// Expressions of the decompiled program.
#[derive(Debug)]
pub enum Expr {
    /// A variable.
    Var(Var),
    /// The constant `true`.
    True,
    /// The constant `false`.
    False,
    /// A field constant.
    Constant(Felt),
    /// A word equality test.
    EqW,
    /// `cond ? then_expr : else_expr`.
    Ternary { cond: Box<Expr>, then_expr: Box<Expr>, else_expr: Box<Expr> },
    /// A unary operation.
    Unary(UnOp, Box<Expr>),
    /// A binary operation.
    Binary(BinOp, Box<Expr>, Box<Expr>),
}

/// The value stored under `k` in an association list: the first entry with key `k`.
pub open spec fn assoc_get<V>(list: Seq<(u64, V)>, k: u64) -> Option<V>
    decreases list.len(),
{
    if list.len() == 0 {
        None
    } else if list[0].0 == k {
        Some(list[0].1)
    } else {
        assoc_get(list.subrange(1, list.len() as int), k)
    }
}

proof fn lemma_assoc_get_skip<V>(list: Seq<(u64, V)>, k: u64, i: int)
    requires
        0 <= i <= list.len(),
        forall|j: int| 0 <= j < i ==> list[j].0 != k,
    ensures
        assoc_get(list, k) == assoc_get(list.subrange(i, list.len() as int), k),
    decreases i,
{
    if i > 0 {
        let tail = list.subrange(1, list.len() as int);
        assert forall|j: int| 0 <= j < i - 1 implies tail[j].0 != k by {
            assert(tail[j] == list[j + 1]);
        }
        lemma_assoc_get_skip(tail, k, i - 1);
        assert(tail.subrange(i - 1, tail.len() as int) =~= list.subrange(i, list.len() as int));
    } else {
        assert(list.subrange(0, list.len() as int) =~= list);
    }
}

proof fn lemma_assoc_get_update<V>(list: Seq<(u64, V)>, i: int, v: V, k2: u64)
    requires
        0 <= i < list.len(),
        forall|j: int| 0 <= j < i ==> list[j].0 != list[i].0,
    ensures
        assoc_get(list.update(i, (list[i].0, v)), k2) == if k2 == list[i].0 {
            Some(v)
        } else {
            assoc_get(list, k2)
        },
    decreases i,
{
    let k = list[i].0;
    let u = list.update(i, (k, v));
    if i == 0 {
        if k2 != k {
            assert(u.subrange(1, u.len() as int) =~= list.subrange(1, list.len() as int));
        }
    } else {
        let tail = list.subrange(1, list.len() as int);
        assert forall|j: int| 0 <= j < i - 1 implies (#[trigger] tail[j]).0 != tail[i - 1].0 by {
            assert(tail[j] == list[j + 1]);
        }
        lemma_assoc_get_update(tail, i - 1, v, k2);
        assert(u.subrange(1, u.len() as int) =~= tail.update(i - 1, (k, v)));
        assert(list[0].0 != k);
    }
}

proof fn lemma_assoc_get_push<V>(list: Seq<(u64, V)>, k: u64, v: V, k2: u64)
    requires
        forall|j: int| 0 <= j < list.len() ==> list[j].0 != k,
    ensures
        assoc_get(list.push((k, v)), k2) == if k2 == k {
            Some(v)
        } else {
            assoc_get(list, k2)
        },
    decreases list.len(),
{
    if list.len() == 0 {
        assert(list.push((k, v))[0] == (k, v));
        if k2 != k {
            assert(list.push((k, v)).subrange(1, 1) =~= Seq::<(u64, V)>::empty());
            assert(assoc_get(Seq::<(u64, V)>::empty(), k2) is None);
        }
    } else {
        let tail = list.subrange(1, list.len() as int);
        assert(list.push((k, v))[0] == list[0]);
        assert(list[0].0 != k);
        lemma_assoc_get_push(tail, k, v, k2);
        assert(list.push((k, v)).subrange(1, list.len() + 1int) =~= tail.push((k, v)));
    }
}

proof fn lemma_assoc_get_push_any<V>(list: Seq<(u64, V)>, e: (u64, V), k: u64)
    ensures
        assoc_get(list.push(e), k) == match assoc_get(list, k) {
            Some(v) => Some(v),
            None => if e.0 == k {
                Some(e.1)
            } else {
                None
            },
        },
    decreases list.len(),
{
    if list.len() == 0 {
        assert(list.push(e)[0] == e);
        assert(list.push(e).subrange(1, 1) =~= Seq::<(u64, V)>::empty());
        assert(assoc_get(Seq::<(u64, V)>::empty(), k) is None);
    } else {
        let tail = list.subrange(1, list.len() as int);
        assert(list.push(e)[0] == list[0]);
        lemma_assoc_get_push_any(tail, e, k);
        assert(list.push(e).subrange(1, list.len() + 1int) =~= tail.push(e));
    }
}

proof fn lemma_assoc_get_some_has_entry<V>(list: Seq<(u64, V)>, k: u64)
    requires
        assoc_get(list, k) is Some,
    ensures
        exists|j: int| 0 <= j < list.len() && (#[trigger] list[j]).0 == k,
    decreases list.len(),
{
    if list[0].0 != k {
        let tail = list.subrange(1, list.len() as int);
        lemma_assoc_get_some_has_entry(tail, k);
        let j = choose|j: int| 0 <= j < tail.len() && (#[trigger] tail[j]).0 == k;
        assert(list[j + 1] == tail[j]);
    } else {
        assert(list[0].0 == k);
    }
}

proof fn lemma_assoc_get_entry_some<V>(list: Seq<(u64, V)>, k: u64, j: int)
    requires
        0 <= j < list.len(),
        list[j].0 == k,
    ensures
        assoc_get(list, k) is Some,
    decreases j,
{
    if list[0].0 != k {
        let tail = list.subrange(1, list.len() as int);
        assert(tail[j - 1] == list[j]);
        lemma_assoc_get_entry_some(tail, k, j - 1);
    }
}

proof fn lemma_assoc_get_none<V>(list: Seq<(u64, V)>, k: u64)
    requires
        forall|j: int| 0 <= j < list.len() ==> list[j].0 != k,
    ensures
        assoc_get(list, k) is None,
{
    lemma_assoc_get_skip(list, k, list.len() as int);
}

/// The abstract state of the variables at a program point: each variable's advice fact, the
/// variables recorded as proven `u32`, the variable each one copies (its alias identity), and the
/// variable each boolean was computed as `x == 0` of (its zero test).
pub struct EnvModel {
    pub facts: Map<u64, (Set<Span>, Set<usize>)>,
    pub proven: Set<u64>,
    pub aliases: Map<u64, u64>,
    pub zero_tests: Map<u64, u64>,
}

impl EnvModel {
    /// The advice fact of variable `k`; bottom when none was recorded.
    pub open spec fn fact(self, k: u64) -> (Set<Span>, Set<usize>) {
        if self.facts.contains_key(k) {
            self.facts[k]
        } else {
            bottom_fact()
        }
    }

    /// The alias identity of variable `k`: the variable it copies, or itself.
    pub open spec fn identity(self, k: u64) -> u64 {
        if self.aliases.contains_key(k) {
            self.aliases[k]
        } else {
            k
        }
    }

    /// The `u32` validity of variable `k`: proven when a variable with the same alias identity
    /// is recorded as proven.
    pub open spec fn u32_validity(self, k: u64) -> U32Validity {
        if exists|k2: u64| #[trigger] self.proven.contains(k2) && self.identity(k2) == self.identity(k) {
            U32Validity::ProvenU32
        } else {
            U32Validity::Unknown
        }
    }

    /// The zero-test witness of variable `k`, if any.
    pub open spec fn zero_test(self, k: u64) -> Option<u64> {
        if self.zero_tests.contains_key(k) {
            Some(self.zero_tests[k])
        } else {
            None
        }
    }

    /// The state with the fact of `k` replaced.
    pub open spec fn set_fact(self, k: u64, f: (Set<Span>, Set<usize>)) -> EnvModel {
        EnvModel { facts: self.facts.insert(k, f), ..self }
    }

    /// The state with `k` recorded as proven `u32` or not.
    pub open spec fn set_validity(self, k: u64, v: U32Validity) -> EnvModel {
        EnvModel {
            proven: if v == U32Validity::ProvenU32 {
                self.proven.insert(k)
            } else {
                self.proven.remove(k)
            },
            ..self
        }
    }

    /// The state with the alias identity of `k` replaced; a variable copying itself has no alias.
    pub open spec fn set_identity(self, k: u64, id: u64) -> EnvModel {
        EnvModel {
            aliases: if id == k {
                self.aliases.remove(k)
            } else {
                self.aliases.insert(k, id)
            },
            ..self
        }
    }

    /// The state with the zero test of `k` replaced.
    pub open spec fn set_zero_test(self, k: u64, w: Option<u64>) -> EnvModel {
        EnvModel {
            zero_tests: match w {
                Some(id) => self.zero_tests.insert(k, id),
                None => self.zero_tests.remove(k),
            },
            ..self
        }
    }

    /// The state with the alias and zero-test metadata of `k` cleared.
    pub open spec fn clear_metadata(self, k: u64) -> EnvModel {
        self.set_identity(k, k).set_zero_test(k, None)
    }

    /// The environment that holds on both of two paths: each variable's facts joined, `u32`
    /// proven where both sides record it, and aliases and zero tests kept where both agree.
    pub open spec fn join(self, other: EnvModel) -> EnvModel {
        EnvModel {
            facts: Map::new(
                |k: u64| self.facts.contains_key(k) || other.facts.contains_key(k),
                |k: u64| join_facts(self.fact(k), other.fact(k)),
            ),
            proven: self.proven.intersect(other.proven),
            aliases: agreeing_map(self.aliases, other.aliases),
            zero_tests: agreeing_map(self.zero_tests, other.zero_tests),
        }
    }

    /// The state in which `k`'s alias identity, and every variable copying it, is proven `u32`.
    pub open spec fn sanitize(self, k: u64) -> EnvModel {
        let id = self.identity(k);
        EnvModel {
            proven: self.proven + Set::new(
                |k2: u64| k2 == id || (self.aliases.contains_key(k2) && self.aliases[k2] == id),
            ),
            ..self
        }
    }
}

/// The entries present in both maps with the same value.
pub open spec fn agreeing_map(a: Map<u64, u64>, b: Map<u64, u64>) -> Map<u64, u64> {
    Map::new(|k: u64| a.contains_key(k) && b.contains_key(k) && a[k] == b[k], |k: u64| a[k])
}

/// The map that an association list denotes: each key to its first entry's value.
pub open spec fn assoc_map<V>(list: Seq<(u64, V)>) -> Map<u64, V> {
    Map::new(|k: u64| assoc_get(list, k) is Some, |k: u64| assoc_get(list, k)->0)
}

/// The abstract environment at a program point.
#[derive(Debug)]
pub struct Env {
    vars: Vec<(u64, AdviceFact)>,
    u32_proven: Vec<u64>,
    aliases: Vec<(u64, u64)>,
    zero_tests: Vec<(u64, u64)>,
}

impl View for Env {
    type V = EnvModel;

    closed spec fn view(&self) -> EnvModel {
        EnvModel {
            facts: Map::new(
                |k: u64| assoc_get(self.vars@, k) is Some,
                |k: u64| assoc_get(self.vars@, k)->0@,
            ),
            proven: self.u32_proven@.to_set(),
            aliases: assoc_map(self.aliases@),
            zero_tests: assoc_map(self.zero_tests@),
        }
    }
}

fn assoc_find(list: &Vec<(u64, u64)>, k: u64) -> (r: Option<u64>)
    ensures
        r == assoc_get(list@, k),
{
    let mut i: usize = 0;
    while i < list.len()
        invariant
            i <= list@.len(),
            forall|j: int| 0 <= j < i ==> list@[j].0 != k,
        decreases list.len() - i,
    {
        if list[i].0 == k {
            proof {
                lemma_assoc_get_skip(list@, k, i as int);
            }
            return Some(list[i].1);
        }
        i = i + 1;
    }
    proof {
        lemma_assoc_get_none(list@, k);
    }
    None
}

fn assoc_remove(list: &mut Vec<(u64, u64)>, k: u64)
    ensures
        assoc_map(final(list)@) == assoc_map(old(list)@).remove(k),
        forall|j: int| 0 <= j < final(list)@.len() ==> #[trigger] final(list)@[j].0 != k,
{
    let ghost old_list = list@;
    let mut kept: Vec<(u64, u64)> = Vec::new();
    let mut i: usize = 0;
    while i < list.len()
        invariant
            i <= list@.len(),
            list@ == old_list,
            forall|j: int| 0 <= j < kept@.len() ==> #[trigger] kept@[j].0 != k,
            forall|k2: u64| k2 != k ==> #[trigger] assoc_get(kept@, k2) == assoc_get(
                old_list.take(i as int),
                k2,
            ),
        decreases list.len() - i,
    {
        let entry = list[i];
        let ghost before = kept@;
        proof {
            assert(old_list.take(i + 1) =~= old_list.take(i as int).push(entry));
        }
        if entry.0 != k {
            kept.push(entry);
        }
        proof {
            assert forall|k2: u64| k2 != k implies #[trigger] assoc_get(kept@, k2) == assoc_get(
                old_list.take(i + 1),
                k2,
            ) by {
                lemma_assoc_get_push_any(old_list.take(i as int), entry, k2);
                if entry.0 != k {
                    lemma_assoc_get_push_any(before, entry, k2);
                }
            }
        }
        i = i + 1;
    }
    proof {
        assert(old_list.take(old_list.len() as int) =~= old_list);
        lemma_assoc_get_none(kept@, k);
        assert(assoc_map(kept@) =~= assoc_map(old_list).remove(k));
    }
    *list = kept;
}

fn assoc_insert(list: &mut Vec<(u64, u64)>, k: u64, v: u64)
    ensures
        assoc_map(final(list)@) == assoc_map(old(list)@).insert(k, v),
{
    let ghost old_map = assoc_map(list@);
    assoc_remove(list, k);
    let ghost before = list@;
    list.push((k, v));
    proof {
        assert forall|k2: u64| #[trigger] assoc_get(list@, k2) == if k2 == k {
            Some(v)
        } else {
            assoc_get(before, k2)
        } by {
            lemma_assoc_get_push(before, k, v, k2);
        }
        assert forall|k2: u64| #[trigger] assoc_map(list@).contains_key(k2) == old_map.insert(k, v).contains_key(k2)
            && (assoc_map(list@).contains_key(k2) ==> assoc_map(list@)[k2] == old_map.insert(k, v)[k2]) by {
            assert(assoc_get(list@, k2) == if k2 == k {
                Some(v)
            } else {
                assoc_get(before, k2)
            });
            assert(assoc_map(list@).contains_key(k2) == (assoc_get(list@, k2) is Some));
            assert(assoc_map(before).contains_key(k2) == (assoc_get(before, k2) is Some));
            if k2 != k {
                assert(assoc_map(before).contains_key(k2) == old_map.remove(k).contains_key(k2));
                assert(assoc_map(before).contains_key(k2) == old_map.contains_key(k2));
                if old_map.contains_key(k2) {
                    assert(assoc_map(before)[k2] == old_map.remove(k)[k2]);
                    assert(assoc_map(before)[k2] == assoc_get(before, k2)->0);
                }
            } else {
                assert(assoc_map(list@).contains_key(k2));
                assert(assoc_map(list@)[k2] == v);
            }
        }
        assert(assoc_map(list@) =~= old_map.insert(k, v));
    }
}

impl Env {
    /// The advice fact of variable key `k`.
    pub open spec fn spec_fact(&self, k: u64) -> (Set<Span>, Set<usize>) {
        self@.fact(k)
    }

    /// The `u32` validity of variable key `k`.
    pub open spec fn spec_u32_validity(&self, k: u64) -> U32Validity {
        self@.u32_validity(k)
    }

    /// The empty environment: no advice, nothing proven, no aliases, no zero tests.
    pub fn new() -> (r: Env)
        ensures
            r@.facts == Map::<u64, (Set<Span>, Set<usize>)>::empty(),
            r@.proven == Set::<u64>::empty(),
            r@.aliases == Map::<u64, u64>::empty(),
            r@.zero_tests == Map::<u64, u64>::empty(),
    {
        let r = Env { vars: Vec::new(), u32_proven: Vec::new(), aliases: Vec::new(), zero_tests: Vec::new() };
        proof {
            assert(r@.facts =~= Map::<u64, (Set<Span>, Set<usize>)>::empty());
            assert(r@.proven =~= Set::<u64>::empty());
            assert(r@.aliases =~= Map::<u64, u64>::empty());
            assert(r@.zero_tests =~= Map::<u64, u64>::empty());
        }
        r
    }

    /// The alias identity of a variable.
    pub fn identity_for_var(&self, var: &Var) -> (r: u64)
        ensures
            r == self@.identity(var.0),
    {
        match assoc_find(&self.aliases, var.0) {
            Some(a) => a,
            None => var.0,
        }
    }

    /// The zero-test witness of a variable.
    pub fn zero_test_for_var(&self, var: &Var) -> (r: Option<u64>)
        ensures
            r == self@.zero_test(var.0),
    {
        assoc_find(&self.zero_tests, var.0)
    }

    /// The advice fact of a variable.
    pub fn fact_for_var(&self, var: &Var) -> (r: AdviceFact)
        ensures
            r@ == self@.fact(var.0),
    {
        let mut i: usize = 0;
        while i < self.vars.len()
            invariant
                i <= self.vars@.len(),
                forall|j: int| 0 <= j < i ==> self.vars@[j].0 != var.0,
            decreases self.vars.len() - i,
        {
            if self.vars[i].0 == var.0 {
                proof {
                    lemma_assoc_get_skip(self.vars@, var.0, i as int);
                }
                return self.vars[i].1.copy();
            }
            i = i + 1;
        }
        proof {
            lemma_assoc_get_none(self.vars@, var.0);
        }
        AdviceFact::bottom()
    }

    /// The `u32` validity of a variable.
    pub fn u32_validity_for_var(&self, var: &Var) -> (r: U32Validity)
        ensures
            r == self@.u32_validity(var.0),
    {
        let identity = self.identity_for_var(var);
        let mut i: usize = 0;
        while i < self.u32_proven.len()
            invariant
                i <= self.u32_proven@.len(),
                identity == self@.identity(var.0),
                forall|j: int|
                    0 <= j < i ==> self@.identity(#[trigger] self.u32_proven@[j]) != identity,
            decreases self.u32_proven.len() - i,
        {
            let key = Var(self.u32_proven[i]);
            if self.identity_for_var(&key) == identity {
                proof {
                    assert(self@.proven.contains(key.0)) by {
                        assert(self.u32_proven@[i as int] == key.0);
                    }
                }
                return U32Validity::ProvenU32;
            }
            i = i + 1;
        }
        proof {
            assert forall|k2: u64| #[trigger] self@.proven.contains(k2) implies self@.identity(k2)
                != identity by {
                let j = choose|j: int| 0 <= j < self.u32_proven@.len() && self.u32_proven@[j] == k2;
            }
        }
        U32Validity::Unknown
    }

    /// Record the advice fact of a variable.
    pub fn set_var_fact(&mut self, var: &Var, fact: AdviceFact)
        ensures
            final(self)@ == old(self)@.set_fact(var.0, fact@),
    {
        let ghost fv = fact@;
        let ghost old_view = self@;
        let mut i: usize = 0;
        while i < self.vars.len()
            invariant
                i <= self.vars@.len(),
                self.vars@ == old(self).vars@,
                self.aliases@ == old(self).aliases@,
                self.u32_proven@ == old(self).u32_proven@,
                self.zero_tests@ == old(self).zero_tests@,
                old_view == old(self)@,
                fv == fact@,
                forall|j: int| 0 <= j < i ==> self.vars@[j].0 != var.0,
            decreases self.vars.len() - i,
        {
            if self.vars[i].0 == var.0 {
                let ghost old_vars = self.vars@;
                self.vars.set(i, (var.0, fact));
                proof {
                    assert(self.vars@ =~= old_vars.update(i as int, (var.0, self.vars@[i as int].1)));
                    assert forall|k: u64| #[trigger] assoc_get(self.vars@, k) == if k == var.0 {
                        Some(self.vars@[i as int].1)
                    } else {
                        assoc_get(old_vars, k)
                    } by {
                        lemma_assoc_get_update(old_vars, i as int, self.vars@[i as int].1, k);
                    }
                    assert(self.vars@[i as int].1@ == fv);
                    assert forall|k: u64| #[trigger] self@.facts.contains_key(k) == old_view.facts.insert(
                        var.0,
                        fv,
                    ).contains_key(k) && (self@.facts.contains_key(k) ==> self@.facts[k]
                        == old_view.facts.insert(var.0, fv)[k]) by {
                        assert(assoc_get(self.vars@, k) == if k == var.0 {
                            Some(self.vars@[i as int].1)
                        } else {
                            assoc_get(old_vars, k)
                        });
                    }
                    assert(self@.facts =~= old_view.facts.insert(var.0, fv));
                    assert(self@ == old_view.set_fact(var.0, fv));
                }
                return;
            }
            i = i + 1;
        }
        let ghost old_vars = self.vars@;
        self.vars.push((var.0, fact));
        proof {
            assert forall|k: u64| #[trigger] assoc_get(self.vars@, k) == if k == var.0 {
                Some(self.vars@[old_vars.len() as int].1)
            } else {
                assoc_get(old_vars, k)
            } by {
                lemma_assoc_get_push(old_vars, var.0, self.vars@[old_vars.len() as int].1, k);
            }
            assert(self.vars@[old_vars.len() as int].1@ == fv);
            assert forall|k: u64| #[trigger] self@.facts.contains_key(k) == old_view.facts.insert(
                var.0,
                fv,
            ).contains_key(k) && (self@.facts.contains_key(k) ==> self@.facts[k]
                == old_view.facts.insert(var.0, fv)[k]) by {
                assert(assoc_get(self.vars@, k) == if k == var.0 {
                    Some(self.vars@[old_vars.len() as int].1)
                } else {
                    assoc_get(old_vars, k)
                });
            }
            assert(self@.facts =~= old_view.facts.insert(var.0, fv));
        }
    }

    /// Record whether a variable itself is proven `u32`.
    pub fn set_var_u32_validity(&mut self, var: &Var, validity: U32Validity)
        ensures
            final(self)@ == old(self)@.set_validity(var.0, validity),
    {
        let ghost old_view = self@;
        let ghost old_keys = self.u32_proven@;
        let mut kept: Vec<u64> = Vec::new();
        let mut i: usize = 0;
        while i < self.u32_proven.len()
            invariant
                i <= self.u32_proven@.len(),
                self.u32_proven@ == old_keys,
                forall|k: u64|
                    #[trigger] kept@.contains(k) <==> (k != var.0 && exists|j: int|
                        0 <= j < i && #[trigger] old_keys[j] == k),
            decreases self.u32_proven.len() - i,
        {
            let k = self.u32_proven[i];
            let ghost before = kept@;
            if k != var.0 {
                kept.push(k);
            }
            proof {
                assert forall|k2: u64| #[trigger] kept@.contains(k2) <==> (k2 != var.0 && exists|j: int|
                    0 <= j < i + 1 && #[trigger] old_keys[j] == k2) by {
                    if kept@.contains(k2) {
                        let t = choose|t: int| 0 <= t < kept@.len() && kept@[t] == k2;
                        if t < before.len() {
                            assert(before[t] == k2);
                            assert(before.contains(k2));
                        } else {
                            assert(old_keys[i as int] == k2);
                        }
                    }
                    if k2 != var.0 && exists|j: int| 0 <= j < i + 1 && #[trigger] old_keys[j] == k2 {
                        let j = choose|j: int| 0 <= j < i + 1 && #[trigger] old_keys[j] == k2;
                        if j < i {
                            assert(before.contains(k2));
                            let t = choose|t: int| 0 <= t < before.len() && before[t] == k2;
                            assert(kept@[t] == k2);
                        } else {
                            assert(kept@[kept@.len() - 1] == k2);
                        }
                    }
                }
            }
            i = i + 1;
        }
        let ghost filtered = kept@;
        if validity.is_proven() {
            kept.push(var.0);
        }
        proof {
            assert forall|k: u64| #[trigger] kept@.contains(k) == if k == var.0 {
                validity == U32Validity::ProvenU32
            } else {
                old_keys.contains(k)
            } by {
                if validity == U32Validity::ProvenU32 && k == var.0 {
                    assert(kept@[kept@.len() - 1] == k);
                }
                if kept@.contains(k) && !filtered.contains(k) {
                    let t = choose|t: int| 0 <= t < kept@.len() && kept@[t] == k;
                    if t < filtered.len() {
                        assert(filtered[t] == k);
                    }
                }
                if filtered.contains(k) {
                    let t = choose|t: int| 0 <= t < filtered.len() && filtered[t] == k;
                    assert(kept@[t] == k);
                }
                if old_keys.contains(k) && k != var.0 {
                    let j = choose|j: int| 0 <= j < old_keys.len() && old_keys[j] == k;
                    assert(exists|j: int| 0 <= j < i && #[trigger] old_keys[j] == k);
                }
            }
        }
        self.u32_proven = kept;
        proof {
            assert(self@.proven =~= old_view.set_validity(var.0, validity).proven);
        }
    }

    /// Record the alias identity of a variable.
    pub fn set_var_identity(&mut self, var: &Var, identity: u64)
        ensures
            final(self)@ == old(self)@.set_identity(var.0, identity),
    {
        let ghost old_view = self@;
        if identity == var.0 {
            assoc_remove(&mut self.aliases, var.0);
        } else {
            assoc_insert(&mut self.aliases, var.0, identity);
        }
        proof {
            assert(self@.aliases =~= old_view.set_identity(var.0, identity).aliases);
        }
    }

    /// Record the zero-test witness of a variable.
    pub fn set_var_zero_test(&mut self, var: &Var, witness: Option<u64>)
        ensures
            final(self)@ == old(self)@.set_zero_test(var.0, witness),
    {
        let ghost old_view = self@;
        match witness {
            Some(id) => assoc_insert(&mut self.zero_tests, var.0, id),
            None => assoc_remove(&mut self.zero_tests, var.0),
        }
        proof {
            assert(self@.zero_tests =~= old_view.set_zero_test(var.0, witness).zero_tests);
        }
    }

    /// Clear the alias and zero-test metadata of a variable.
    pub fn clear_var_metadata(&mut self, var: &Var)
        ensures
            final(self)@ == old(self)@.clear_metadata(var.0),
    {
        self.set_var_identity(var, var.0);
        self.set_var_zero_test(var, None);
    }

    /// Mark a variable as range-checked: its alias identity, and every variable copying that
    /// identity, become proven `u32`.
    pub fn sanitize_var(&mut self, var: &Var)
        ensures
            final(self)@ == old(self)@.sanitize(var.0),
    {
        let ghost old_view = self@;
        let id = self.identity_for_var(var);
        let mut added: Vec<u64> = Vec::new();
        added.push(id);
        proof {
            assert(added@[0] == id);
        }
        let mut i: usize = 0;
        while i < self.aliases.len()
            invariant
                i <= self.aliases@.len(),
                old_view == self@,
                id == old_view.identity(var.0),
                added@.contains(id),
                forall|k: u64| #[trigger] added@.contains(k) ==> k == id || (old_view.aliases.contains_key(k)
                    && old_view.aliases[k] == id),
                forall|j: int| 0 <= j < i ==> (old_view.aliases.contains_key((#[trigger] self.aliases@[j]).0)
                    && old_view.aliases[self.aliases@[j].0] == id) ==> added@.contains(self.aliases@[j].0),
            decreases self.aliases.len() - i,
        {
            let key = self.aliases[i].0;
            let ghost before = added@;
            if assoc_find(&self.aliases, key) == Some(id) {
                added.push(key);
            }
            proof {
                assert forall|k: u64| #[trigger] added@.contains(k) implies k == id || (old_view.aliases.contains_key(k)
                    && old_view.aliases[k] == id) by {
                    if !before.contains(k) {
                        let t = choose|t: int| 0 <= t < added@.len() && added@[t] == k;
                        if t < before.len() {
                            assert(before[t] == k);
                        }
                    }
                }
                assert forall|j: int| 0 <= j < i + 1 implies (old_view.aliases.contains_key((#[trigger] self.aliases@[j]).0)
                    && old_view.aliases[self.aliases@[j].0] == id) ==> added@.contains(self.aliases@[j].0) by {
                    if j < i && before.contains(self.aliases@[j].0) {
                        let t = choose|t: int| 0 <= t < before.len() && before[t] == self.aliases@[j].0;
                        assert(added@[t] == self.aliases@[j].0);
                    }
                    if j == i && old_view.aliases.contains_key(key) && old_view.aliases[key] == id {
                        assert(added@[added@.len() - 1] == key);
                    }
                }
                assert(added@.contains(id)) by {
                    let t = choose|t: int| 0 <= t < before.len() && before[t] == id;
                    assert(added@[t] == id);
                }
            }
            i = i + 1;
        }
        let mut j: usize = 0;
        let ghost base = self.u32_proven@;
        while j < added.len()
            invariant
                j <= added@.len(),
                self.vars@ == old(self).vars@,
                self.aliases@ == old(self).aliases@,
                self.zero_tests@ == old(self).zero_tests@,
                self.u32_proven@ == base + added@.take(j as int),
            decreases added.len() - j,
        {
            self.u32_proven.push(added[j]);
            proof {
                assert(added@.take(j + 1) =~= added@.take(j as int).push(added@[j as int]));
                assert(self.u32_proven@ =~= base + added@.take(j + 1));
            }
            j = j + 1;
        }
        proof {
            assert(added@.take(added@.len() as int) =~= added@);
            let target = old_view.sanitize(var.0);
            assert forall|k: u64| #[trigger] self@.proven.contains(k) == target.proven.contains(k) by {
                if target.proven.contains(k) && !old_view.proven.contains(k) {
                    if k != id {
                        lemma_assoc_get_some_has_entry(old(self).aliases@, k);
                        let jj = choose|jj: int| 0 <= jj < old(self).aliases@.len() && (#[trigger] old(self).aliases@[jj]).0 == k;
                        assert(added@.contains(k));
                    }
                    let t = choose|t: int| 0 <= t < added@.len() && added@[t] == k;
                    assert(self.u32_proven@[base.len() + t] == k);
                }
                if old_view.proven.contains(k) {
                    let t = choose|t: int| 0 <= t < base.len() && base[t] == k;
                    assert(self.u32_proven@[t] == k);
                }
                if self@.proven.contains(k) && !old_view.proven.contains(k) {
                    let t = choose|t: int| 0 <= t < self.u32_proven@.len() && self.u32_proven@[t] == k;
                    if t < base.len() {
                        assert(base[t] == k);
                    } else {
                        assert(added@[t - base.len()] == k);
                        assert(added@.contains(k));
                    }
                }
            }
            assert(self@.proven =~= target.proven);
            assert(self@.facts =~= target.facts);
            assert(self@.aliases =~= target.aliases);
            assert(self@.zero_tests =~= target.zero_tests);
        }
    }
}

/// Whether a unary operator passes advice from its operand to its result.
pub open spec fn unop_carries_advice(op: UnOp) -> bool {
    op == UnOp::Neg || op == UnOp::Inv || op == UnOp::Pow2
}

/// Whether a binary operator passes advice from its operands to its result: the field
/// arithmetic operators do; comparisons, boolean and `u32` operators produce fresh values.
pub open spec fn binop_carries_advice(op: BinOp) -> bool {
    op == BinOp::Add || op == BinOp::Sub || op == BinOp::Mul || op == BinOp::Div
}

/// The provenance fact of an expression's result.
pub open spec fn spec_expr_output_fact(expr: Expr, env: Env) -> (Set<Span>, Set<usize>)
    decreases expr,
{
    match expr {
        Expr::Var(var) => env.spec_fact(var.0),
        Expr::Ternary { cond, then_expr, else_expr } => join_facts(
            spec_expr_output_fact(*then_expr, env),
            spec_expr_output_fact(*else_expr, env),
        ),
        Expr::Unary(op, inner) => if unop_carries_advice(op) {
            spec_expr_output_fact(*inner, env)
        } else {
            bottom_fact()
        },
        Expr::Binary(op, lhs, rhs) => if binop_carries_advice(op) {
            join_facts(spec_expr_output_fact(*lhs, env), spec_expr_output_fact(*rhs, env))
        } else {
            bottom_fact()
        },
        Expr::EqW => bottom_fact(),
        Expr::True => bottom_fact(),
        Expr::False => bottom_fact(),
        Expr::Constant(_) => bottom_fact(),
    }
}

/// The provenance fact of an expression's result: a variable's fact, the join of a ternary's
/// branches, an operand's fact through negation, inversion and powers of two, the join of the
/// operands' facts through field arithmetic, and bottom for every other result.
pub fn expr_output_fact(expr: &Expr, env: &Env) -> (r: AdviceFact)
    ensures
        r@ == spec_expr_output_fact(*expr, *env),
    decreases expr,
{
    match expr {
        Expr::Var(var) => env.fact_for_var(var),
        Expr::Ternary { cond: _, then_expr, else_expr } => {
            let a = expr_output_fact(then_expr, env);
            let b = expr_output_fact(else_expr, env);
            a.join(&b)
        },
        Expr::Unary(op, inner) => match op {
            UnOp::Neg | UnOp::Inv | UnOp::Pow2 => expr_output_fact(inner, env),
            _ => AdviceFact::bottom(),
        },
        Expr::Binary(op, lhs, rhs) => match op {
            BinOp::Add | BinOp::Sub | BinOp::Mul | BinOp::Div => {
                let a = expr_output_fact(lhs, env);
                let b = expr_output_fact(rhs, env);
                a.join(&b)
            },
            _ => AdviceFact::bottom(),
        },
        _ => AdviceFact::bottom(),
    }
}

/// Whether a unary operator's result is always a `u32`.
pub open spec fn unop_yields_u32(op: UnOp) -> bool {
    !(op == UnOp::Neg || op == UnOp::Inv || op == UnOp::Pow2 || op == UnOp::Not)
}

/// Whether a binary operator's result is always a `u32`: the `u32` operators other than
/// exponentiation.
pub open spec fn binop_yields_u32(op: BinOp) -> bool {
    match op {
        BinOp::U32And | BinOp::U32Or | BinOp::U32Xor | BinOp::U32Shl | BinOp::U32Shr
        | BinOp::U32Rotr | BinOp::U32Lt | BinOp::U32Lte | BinOp::U32Gt | BinOp::U32Gte
        | BinOp::U32WrappingAdd | BinOp::U32WrappingSub | BinOp::U32WrappingMul => true,
        _ => false,
    }
}

/// The `u32` validity of an expression's result.
pub open spec fn spec_expr_u32_validity(expr: Expr, env: Env) -> U32Validity
    decreases expr,
{
    match expr {
        Expr::Var(var) => env.spec_u32_validity(var.0),
        Expr::Ternary { cond, then_expr, else_expr } => spec_join_validity(
            spec_expr_u32_validity(*then_expr, env),
            spec_expr_u32_validity(*else_expr, env),
        ),
        Expr::Unary(op, _) => if unop_yields_u32(op) {
            U32Validity::ProvenU32
        } else {
            U32Validity::Unknown
        },
        Expr::Binary(op, _, _) => if binop_yields_u32(op) {
            U32Validity::ProvenU32
        } else {
            U32Validity::Unknown
        },
        Expr::EqW => U32Validity::Unknown,
        Expr::True => U32Validity::Unknown,
        Expr::False => U32Validity::Unknown,
        Expr::Constant(_) => U32Validity::Unknown,
    }
}

/// The `u32` validity of an expression's result: a variable's validity, the join of a ternary's
/// branches, proven for the `u32` operators (exponentiation excepted), unknown otherwise.
pub fn expr_u32_validity(expr: &Expr, env: &Env) -> (r: U32Validity)
    ensures
        r == spec_expr_u32_validity(*expr, *env),
    decreases expr,
{
    match expr {
        Expr::Var(var) => env.u32_validity_for_var(var),
        Expr::Ternary { cond: _, then_expr, else_expr } => {
            let a = expr_u32_validity(then_expr, env);
            let b = expr_u32_validity(else_expr, env);
            a.join(b)
        },
        Expr::Unary(op, _) => match op {
            UnOp::Neg | UnOp::Inv | UnOp::Pow2 | UnOp::Not => U32Validity::Unknown,
            _ => U32Validity::ProvenU32,
        },
        Expr::Binary(op, _, _) => match op {
            BinOp::U32And | BinOp::U32Or | BinOp::U32Xor | BinOp::U32Shl | BinOp::U32Shr
            | BinOp::U32Rotr | BinOp::U32Lt | BinOp::U32Lte | BinOp::U32Gt | BinOp::U32Gte
            | BinOp::U32WrappingAdd | BinOp::U32WrappingSub | BinOp::U32WrappingMul => {
                U32Validity::ProvenU32
            },
            _ => U32Validity::Unknown,
        },
        _ => U32Validity::Unknown,
    }
}

/// An intrinsic call of the decompiled program.
#[derive(Debug, Clone)]
pub struct Intrinsic {
    /// The intrinsic's name.
    pub name: String,
    /// The argument variables.
    pub args: Vec<Var>,
    /// The result variables.
    pub results: Vec<Var>,
}

/// The statements of the decompiled program that the address check looks at.
#[derive(Debug, Clone)]
pub enum Stmt {
    /// A memory store; its address is the first variable of `address`.
    MemStore { span: Span, address: Vec<Var> },
    /// A memory load; its address is the first variable of `address`.
    MemLoad { span: Span, address: Vec<Var> },
    /// An intrinsic call.
    Intrinsic { span: Span, intrinsic: Intrinsic },
    /// Any other statement.
    Other,
}

/// A warning that unconstrained advice reaches a sink.
#[derive(Debug, Clone)]
pub struct AdviceDiagnostic {
    /// Procedure in which the diagnostic was emitted.
    pub procedure: String,
    /// Source span of the sink.
    pub span: Span,
    /// Concrete advice source spans that may reach the sink.
    pub origins: Vec<Span>,
    /// Human-readable message.
    pub message: String,
}

/// The message of a memory-address diagnostic.
pub open spec fn address_message() -> Seq<char> {
    "unconstrained advice used as memory address"@
}

/// The span of a statement and the advice fact of the address it uses, if it uses one: the first
/// address variable of a load or store, or the address argument `addr_arg` of a memory intrinsic
/// with thirteen arguments and thirteen results.
pub open spec fn spec_address_use(stmt: Stmt, addr_arg: Option<usize>, env: Env) -> Option<
    (Span, (Set<Span>, Set<usize>)),
> {
    match stmt {
        Stmt::MemStore { span, address } => if address@.len() > 0 {
            Some((span, env.spec_fact(address@[0].0)))
        } else {
            None
        },
        Stmt::MemLoad { span, address } => if address@.len() > 0 {
            Some((span, env.spec_fact(address@[0].0)))
        } else {
            None
        },
        Stmt::Intrinsic { span, intrinsic } => if intrinsic.args@.len() == 13
            && intrinsic.results@.len() == 13 && addr_arg is Some {
            Some((span, env.spec_fact(intrinsic.args@[addr_arg->0 as int].0)))
        } else {
            None
        },
        Stmt::Other => None,
    }
}

/// Whether the address index handed in for an intrinsic lies among its arguments.
pub open spec fn address_arg_in_range(stmt: Stmt, addr_arg: Option<usize>) -> bool {
    match stmt {
        Stmt::Intrinsic { span, intrinsic } => (intrinsic.args@.len() == 13
            && intrinsic.results@.len() == 13 && addr_arg is Some) ==> addr_arg->0
            < intrinsic.args@.len(),
        _ => true,
    }
}

fn address_diagnostic(procedure: &str, span: Span, fact: &AdviceFact) -> (r: AdviceDiagnostic)
    ensures
        r.procedure@ == procedure@,
        r.span == span,
        r.origins@.to_set() == fact@.0,
        r.message@ == address_message(),
{
    let mut origins: Vec<Span> = Vec::new();
    let spans = fact.source_spans();
    let mut i: usize = 0;
    while i < spans.len()
        invariant
            i <= spans@.len(),
            origins@ == spans@.take(i as int),
        decreases spans.len() - i,
    {
        origins.push(spans[i]);
        proof {
            assert(spans@.take(i + 1) =~= spans@.take(i as int).push(spans@[i as int]));
        }
        i = i + 1;
    }
    proof {
        assert(spans@.take(spans@.len() as int) =~= spans@);
        reveal_strlit("unconstrained advice used as memory address");
    }
    AdviceDiagnostic {
        procedure: String::from_str(procedure),
        span,
        origins,
        message: String::from_str("unconstrained advice used as memory address"),
    }
}

/// The memory-address diagnostics of one statement of `procedure`: one when the address it uses
/// carries advice from a concrete source, none otherwise. `addr_arg` is the position of the
/// address among an intrinsic's arguments, when the intrinsic accesses memory.
pub fn check_address_stmt(procedure: &str, stmt: &Stmt, addr_arg: Option<usize>, env: &Env) -> (r:
    Vec<AdviceDiagnostic>)
    requires
        address_arg_in_range(*stmt, addr_arg),
    ensures
        match spec_address_use(*stmt, addr_arg, *env) {
            Some((span, fact)) => if !fact.0.is_empty() {
                &&& r@.len() == 1
                &&& r@[0].procedure@ == procedure@
                &&& r@[0].span == span
                &&& r@[0].origins@.to_set() == fact.0
                &&& r@[0].message@ == address_message()
            } else {
                r@.len() == 0
            },
            None => r@.len() == 0,
        },
{
    let mut out: Vec<AdviceDiagnostic> = Vec::new();
    let used: Option<(Span, &Var)> = match stmt {
        Stmt::MemStore { span, address } => if address.len() > 0 {
            Some((*span, &address[0]))
        } else {
            None
        },
        Stmt::MemLoad { span, address } => if address.len() > 0 {
            Some((*span, &address[0]))
        } else {
            None
        },
        Stmt::Intrinsic { span, intrinsic } => match addr_arg {
            Some(index) => if intrinsic.args.len() == 13 && intrinsic.results.len() == 13 {
                Some((*span, &intrinsic.args[index]))
            } else {
                None
            },
            None => None,
        },
        Stmt::Other => None,
    };
    if let Some((span, addr_var)) = used {
        let fact = env.fact_for_var(addr_var);
        if fact.has_concrete_sources() {
            out.push(address_diagnostic(procedure, span, &fact));
        }
    }
    out
}

/// How the analysis treats an intrinsic, by its base name.
#[derive(Debug, Clone, Copy, PartialEq, Eq, Structural)]
pub enum IntrinsicKind {
    /// `adv_push` and `adv_pushw`: push fresh advice.
    AdvPush,
    /// `u32assert`, `u32assert2`, `u32assertw`: range-check their arguments.
    U32Assert,
    /// `u32split`: the last result is a `u32`.
    U32Split,
    /// `is_odd`.
    IsOdd,
    /// `u32testw`: a `u32` flag, then the tested word unchanged.
    U32TestW,
    /// `adv_pipe`: reads advice into memory.
    AdvPipe,
    /// `mem_stream`: reads memory.
    MemStream,
    /// `sdepth`.
    Sdepth,
    /// `locaddr` and its variants.
    LocAddr,
    /// Any other intrinsic whose arguments must be `u32`: its results are `u32`.
    RequiresU32,
    /// Any other intrinsic: its results carry the advice of all its arguments.
    Other,
}

/// `step` applied to `e` for each index of `[a, b)` in turn.
pub open spec fn fold_range(e: EnvModel, a: int, b: int, step: spec_fn(EnvModel, int) -> EnvModel) -> EnvModel
    decreases b - a,
{
    if b <= a {
        e
    } else {
        step(fold_range(e, a, b - 1, step), b - 1)
    }
}

/// `v` defined afresh with fact `f` and no alias or zero-test metadata.
pub open spec fn fresh(e: EnvModel, v: Var, f: (Set<Span>, Set<usize>)) -> EnvModel {
    e.set_fact(v.0, f).clear_metadata(v.0)
}

/// `v` defined afresh without advice and proven `u32`.
pub open spec fn fresh_u32(e: EnvModel, v: Var) -> EnvModel {
    fresh(e, v, bottom_fact()).set_validity(v.0, U32Validity::ProvenU32)
}

/// `r` defined as a copy of `a`: its fact, `u32` validity, alias identity and zero test.
pub open spec fn copy_var(e: EnvModel, r: Var, a: Var) -> EnvModel {
    let e1 = e.set_fact(r.0, e.fact(a.0));
    let e2 = e1.set_validity(r.0, e1.u32_validity(a.0));
    let e3 = e2.set_identity(r.0, e2.identity(a.0));
    e3.set_zero_test(r.0, e3.zero_test(a.0))
}

/// Every variable of `vs` defined afresh with fact `f`.
pub open spec fn fresh_all(e: EnvModel, vs: Seq<Var>, f: (Set<Span>, Set<usize>)) -> EnvModel {
    fold_range(e, 0, vs.len() as int, |x: EnvModel, i: int| fresh(x, vs[i], f))
}

/// The join of the facts of `vs` in `e`.
pub open spec fn joined_facts(e: EnvModel, vs: Seq<Var>) -> (Set<Span>, Set<usize>)
    decreases vs.len(),
{
    if vs.len() == 0 {
        bottom_fact()
    } else {
        join_facts(joined_facts(e, vs.drop_last()), e.fact(vs.last().0))
    }
}

/// The state after the four words preserved by `adv_pipe` and `mem_stream`: result `1 + j`
/// copies argument `11 - j`.
pub open spec fn preserved_words(e: EnvModel, rs: Seq<Var>, args: Seq<Var>) -> EnvModel {
    fold_range(e, 0, 4, |x: EnvModel, j: int| copy_var(x, rs[1 + j], args[11 - j]))
}

/// Results `5..13` defined afresh with fact `f`.
pub open spec fn fresh_tail(e: EnvModel, rs: Seq<Var>, f: (Set<Span>, Set<usize>)) -> EnvModel {
    fold_range(e, 5, 13, |x: EnvModel, i: int| fresh(x, rs[i], f))
}

/// The state after an intrinsic call of kind `kind` at `span`.
pub open spec fn spec_intrinsic_effect(
    e: EnvModel,
    span: Span,
    kind: IntrinsicKind,
    args: Seq<Var>,
    rs: Seq<Var>,
) -> EnvModel {
    let source = AdviceFact::spec_from_source(span);
    let full = args.len() == 13 && rs.len() == 13;
    match kind {
        IntrinsicKind::AdvPush => fresh_all(e, rs, source),
        IntrinsicKind::U32Assert => fold_range(
            e,
            0,
            args.len() as int,
            |x: EnvModel, i: int| x.sanitize(args[i].0),
        ),
        IntrinsicKind::U32Split => fold_range(
            e,
            0,
            rs.len() as int,
            |x: EnvModel, i: int|
                if i == rs.len() - 1 {
                    fresh_u32(x, rs[i])
                } else {
                    fresh(x, rs[i], bottom_fact())
                },
        ),
        IntrinsicKind::U32TestW => if rs.len() == 0 {
            e
        } else {
            let count = if rs.len() - 1 <= args.len() {
                rs.len() - 1
            } else {
                args.len() as int
            };
            fold_range(
                fresh_u32(e, rs[0]),
                0,
                count,
                |x: EnvModel, j: int| copy_var(x, rs[j + 1], args[j]),
            )
        },
        IntrinsicKind::AdvPipe => if full {
            fresh_tail(preserved_words(fresh(e, rs[0], bottom_fact()), rs, args), rs, source)
        } else {
            fresh_all(e, rs, source)
        },
        IntrinsicKind::MemStream => if full {
            let e1 = e.set_fact(rs[0].0, e.fact(args[12].0)).set_validity(
                rs[0].0,
                U32Validity::Unknown,
            ).clear_metadata(rs[0].0);
            fresh_tail(preserved_words(e1, rs, args), rs, bottom_fact())
        } else {
            fresh_all(e, rs, bottom_fact())
        },
        IntrinsicKind::RequiresU32 => fold_range(
            e,
            0,
            rs.len() as int,
            |x: EnvModel, i: int| fresh_u32(x, rs[i]),
        ),
        IntrinsicKind::Other => fresh_all(e, rs, joined_facts(e, args)),
        _ => fresh_all(e, rs, bottom_fact()),
    }
}

impl Env {
    fn define_fresh(&mut self, var: &Var, fact: AdviceFact)
        ensures
            final(self)@ == fresh(old(self)@, *var, fact@),
    {
        self.set_var_fact(var, fact);
        self.clear_var_metadata(var);
    }

    fn define_fresh_u32(&mut self, var: &Var)
        ensures
            final(self)@ == fresh_u32(old(self)@, *var),
    {
        self.define_fresh(var, AdviceFact::bottom());
        self.set_var_u32_validity(var, U32Validity::ProvenU32);
    }

    fn copy_var_from(&mut self, result: &Var, arg: &Var)
        ensures
            final(self)@ == copy_var(old(self)@, *result, *arg),
    {
        let fact = self.fact_for_var(arg);
        self.set_var_fact(result, fact);
        let validity = self.u32_validity_for_var(arg);
        self.set_var_u32_validity(result, validity);
        let identity = self.identity_for_var(arg);
        self.set_var_identity(result, identity);
        let witness = self.zero_test_for_var(arg);
        self.set_var_zero_test(result, witness);
    }

    fn define_all_fresh(&mut self, vars: &Vec<Var>, fact: &AdviceFact)
        ensures
            final(self)@ == fresh_all(old(self)@, vars@, fact@),
    {
        let ghost start = self@;
        let ghost f = fact@;
        let ghost vs = vars@;
        let mut i: usize = 0;
        while i < vars.len()
            invariant
                i <= vars@.len(),
                f == fact@,
                vs == vars@,
                self@ == fold_range(start, 0, i as int, |x: EnvModel, k: int| fresh(x, vs[k], f)),
            decreases vars.len() - i,
        {
            self.define_fresh(&vars[i], fact.copy());
            i = i + 1;
        }
    }

    fn preserve_words(&mut self, results: &Vec<Var>, args: &Vec<Var>)
        requires
            results@.len() == 13,
            args@.len() == 13,
        ensures
            final(self)@ == preserved_words(old(self)@, results@, args@),
    {
        let ghost start = self@;
        let ghost rs = results@;
        let ghost xs = args@;
        let mut j: usize = 0;
        while j < 4
            invariant
                j <= 4,
                rs == results@,
                xs == args@,
                rs.len() == 13,
                xs.len() == 13,
                self@ == fold_range(start, 0, j as int, |x: EnvModel, k: int| copy_var(x, rs[1 + k], xs[11 - k])),
            decreases 4 - j,
        {
            self.copy_var_from(&results[1 + j], &args[11 - j]);
            j = j + 1;
        }
    }

    fn define_tail_fresh(&mut self, results: &Vec<Var>, fact: &AdviceFact)
        requires
            results@.len() == 13,
        ensures
            final(self)@ == fresh_tail(old(self)@, results@, fact@),
    {
        let ghost start = self@;
        let ghost rs = results@;
        let ghost f = fact@;
        let mut i: usize = 5;
        while i < 13
            invariant
                5 <= i <= 13,
                rs == results@,
                f == fact@,
                rs.len() == 13,
                self@ == fold_range(start, 5, i as int, |x: EnvModel, k: int| fresh(x, rs[k], f)),
            decreases 13 - i,
        {
            self.define_fresh(&results[i], fact.copy());
            i = i + 1;
        }
    }
}

impl AdviceFact {
    /// The fact of advice introduced at `span`.
    pub open spec fn spec_from_source(span: Span) -> (Set<Span>, Set<usize>) {
        (if span == Span::Unknown {
            Set::<Span>::empty()
        } else {
            set![span]
        }, Set::<usize>::empty())
    }
}

/// The join of the facts of a list of variables.
pub fn join_var_facts(vars: &Vec<Var>, env: &Env) -> (r: AdviceFact)
    ensures
        r@ == joined_facts(env@, vars@),
{
    let mut joined = AdviceFact::bottom();
    let mut i: usize = 0;
    while i < vars.len()
        invariant
            i <= vars@.len(),
            joined@ == joined_facts(env@, vars@.take(i as int)),
        decreases vars.len() - i,
    {
        let f = env.fact_for_var(&vars[i]);
        joined = joined.join(&f);
        proof {
            assert(vars@.take(i + 1).drop_last() =~= vars@.take(i as int));
        }
        i = i + 1;
    }
    proof {
        assert(vars@.take(vars@.len() as int) =~= vars@);
    }
    joined
}

/// Apply the advice, `u32` and alias transfer of one intrinsic call at `span` of kind `kind`.
pub fn apply_intrinsic_effect(span: Span, intrinsic: &Intrinsic, kind: IntrinsicKind, env: &mut Env)
    ensures
        final(env)@ == spec_intrinsic_effect(old(env)@, span, kind, intrinsic.args@, intrinsic.results@),
{
    let ghost start = env@;
    let ghost rs = intrinsic.results@;
    let ghost xs = intrinsic.args@;
    let full = intrinsic.args.len() == 13 && intrinsic.results.len() == 13;
    match kind {
        IntrinsicKind::AdvPush => {
            let source = AdviceFact::from_source(span);
            env.define_all_fresh(&intrinsic.results, &source);
        },
        IntrinsicKind::U32Assert => {
            let mut i: usize = 0;
            while i < intrinsic.args.len()
                invariant
                    i <= xs.len(),
                    xs == intrinsic.args@,
                    env@ == fold_range(start, 0, i as int, |x: EnvModel, k: int| x.sanitize(xs[k].0)),
                decreases intrinsic.args.len() - i,
            {
                env.sanitize_var(&intrinsic.args[i]);
                i = i + 1;
            }
        },
        IntrinsicKind::U32Split => {
            let n = intrinsic.results.len();
            let mut i: usize = 0;
            while i < n
                invariant
                    i <= n,
                    n == rs.len(),
                    rs == intrinsic.results@,
                    env@ == fold_range(
                        start,
                        0,
                        i as int,
                        |x: EnvModel, k: int|
                            if k == rs.len() - 1 {
                                fresh_u32(x, rs[k])
                            } else {
                                fresh(x, rs[k], bottom_fact())
                            },
                    ),
                decreases n - i,
            {
                if i == n - 1 {
                    env.define_fresh_u32(&intrinsic.results[i]);
                } else {
                    env.define_fresh(&intrinsic.results[i], AdviceFact::bottom());
                }
                i = i + 1;
            }
        },
        IntrinsicKind::U32TestW => {
            if intrinsic.results.len() > 0 {
                env.define_fresh_u32(&intrinsic.results[0]);
                let ghost e1 = env@;
                let count = if intrinsic.results.len() - 1 <= intrinsic.args.len() {
                    intrinsic.results.len() - 1
                } else {
                    intrinsic.args.len()
                };
                let mut j: usize = 0;
                while j < count
                    invariant
                        j <= count,
                        count < rs.len(),
                        count <= xs.len(),
                        rs == intrinsic.results@,
                        xs == intrinsic.args@,
                        env@ == fold_range(e1, 0, j as int, |x: EnvModel, k: int| copy_var(x, rs[k + 1], xs[k])),
                    decreases count - j,
                {
                    env.copy_var_from(&intrinsic.results[j + 1], &intrinsic.args[j]);
                    j = j + 1;
                }
            }
        },
        IntrinsicKind::AdvPipe => {
            let source = AdviceFact::from_source(span);
            if full {
                env.define_fresh(&intrinsic.results[0], AdviceFact::bottom());
                env.preserve_words(&intrinsic.results, &intrinsic.args);
                env.define_tail_fresh(&intrinsic.results, &source);
            } else {
                env.define_all_fresh(&intrinsic.results, &source);
            }
        },
        IntrinsicKind::MemStream => {
            if full {
                let address = env.fact_for_var(&intrinsic.args[12]);
                env.set_var_fact(&intrinsic.results[0], address);
                env.set_var_u32_validity(&intrinsic.results[0], U32Validity::Unknown);
                env.clear_var_metadata(&intrinsic.results[0]);
                env.preserve_words(&intrinsic.results, &intrinsic.args);
                env.define_tail_fresh(&intrinsic.results, &AdviceFact::bottom());
            } else {
                env.define_all_fresh(&intrinsic.results, &AdviceFact::bottom());
            }
        },
        IntrinsicKind::RequiresU32 => {
            let mut i: usize = 0;
            while i < intrinsic.results.len()
                invariant
                    i <= rs.len(),
                    rs == intrinsic.results@,
                    env@ == fold_range(start, 0, i as int, |x: EnvModel, k: int| fresh_u32(x, rs[k])),
                decreases intrinsic.results.len() - i,
            {
                env.define_fresh_u32(&intrinsic.results[i]);
                i = i + 1;
            }
        },
        IntrinsicKind::Other => {
            let joined = join_var_facts(&intrinsic.args, env);
            env.define_all_fresh(&intrinsic.results, &joined);
        },
        _ => {
            env.define_all_fresh(&intrinsic.results, &AdviceFact::bottom());
        },
    }
}

/// What a call site knows of its callee: per output its advice fact (over the callee's input
/// positions), whether it is `u32`, and which input it forwards unchanged; per input whether it is
/// `u32` after the call; and whether the summary is opaque.
#[derive(Debug)]
pub struct AdviceSummary {
    /// Per-output unconstrained-advice provenance.
    pub outputs: Vec<AdviceFact>,
    /// Per-output `u32` validity.
    pub u32_outputs: Vec<U32Validity>,
    /// Exact input-position forwarding for each output, when known.
    pub forwarded_inputs: Vec<Option<usize>>,
    /// Per-input `u32` postconditions guaranteed after the call returns.
    pub u32_inputs: Vec<U32Validity>,
    /// Whether the summary is opaque.
    pub unknown: bool,
}

/// A callee output fact with the caller's argument facts substituted for its input positions:
/// its own sources, and the sources and inputs of each argument it depends on.
pub open spec fn spec_substitute(
    summary_fact: (Set<Span>, Set<usize>),
    arg_facts: Seq<(Set<Span>, Set<usize>)>,
) -> (Set<Span>, Set<usize>) {
    (
        summary_fact.0 + Set::new(
            |sp: Span|
                exists|j: usize|
                    summary_fact.1.contains(j) && j < arg_facts.len() && #[trigger] arg_facts[j as int].0.contains(sp),
        ),
        Set::new(
            |x: usize|
                exists|j: usize|
                    summary_fact.1.contains(j) && j < arg_facts.len() && #[trigger] arg_facts[j as int].1.contains(x),
        ),
    )
}

/// A call result whose callee tells nothing: no advice, not `u32`, no metadata.
pub open spec fn cleared_result(e: EnvModel, r: Var) -> EnvModel {
    e.set_fact(r.0, bottom_fact()).set_validity(r.0, U32Validity::Unknown).clear_metadata(r.0)
}

/// Proven when either validity is.
pub open spec fn either_proven(a: U32Validity, b: U32Validity) -> U32Validity {
    if a == U32Validity::ProvenU32 || b == U32Validity::ProvenU32 {
        U32Validity::ProvenU32
    } else {
        U32Validity::Unknown
    }
}

/// The smaller of two integers.
pub open spec fn min_int(a: int, b: int) -> int {
    if a <= b {
        a
    } else {
        b
    }
}

/// The state after the call result `results[i]` takes output `i` of the summary: the substituted
/// fact; proven `u32` when the output is, or when it forwards an argument that is; and the alias
/// and zero test of a forwarded argument, or none.
pub open spec fn assign_output(
    e: EnvModel,
    i: int,
    results: Seq<Var>,
    args: Seq<Var>,
    outputs: Seq<(Set<Span>, Set<usize>)>,
    u32_outputs: Seq<U32Validity>,
    forwarded: Seq<Option<usize>>,
    arg_facts: Seq<(Set<Span>, Set<usize>)>,
) -> EnvModel {
    let r = results[i];
    let e1 = e.set_fact(r.0, spec_substitute(outputs[i], arg_facts));
    let fwd: Option<Var> = match forwarded[i] {
        Some(j) => if j < args.len() {
            Some(args[j as int])
        } else {
            None
        },
        None => None,
    };
    let fv = match fwd {
        Some(a) => e1.u32_validity(a.0),
        None => U32Validity::Unknown,
    };
    let e2 = e1.set_validity(r.0, either_proven(u32_outputs[i], fv));
    match fwd {
        Some(a) => {
            let e3 = e2.set_identity(r.0, e2.identity(a.0));
            e3.set_zero_test(r.0, e3.zero_test(a.0))
        },
        None => e2.clear_metadata(r.0),
    }
}

/// The state after a call assigns `results` from `summary` given the caller's `args`.
pub open spec fn spec_call_results(
    e: EnvModel,
    results: Seq<Var>,
    args: Seq<Var>,
    summary: Option<&AdviceSummary>,
) -> EnvModel {
    match summary {
        None => fold_range(e, 0, results.len() as int, |x: EnvModel, i: int| cleared_result(x, results[i])),
        Some(s) => if s.unknown {
            fold_range(e, 0, results.len() as int, |x: EnvModel, i: int| cleared_result(x, results[i]))
        } else {
            let arg_facts = Seq::new(args.len(), |i: int| e.fact(args[i].0));
            let arg_u32 = Seq::new(args.len(), |i: int| e.u32_validity(args[i].0));
            let outputs = s.outputs@.map_values(|f: AdviceFact| f@);
            let e1 = fold_range(
                e,
                0,
                min_int(args.len() as int, s.u32_inputs@.len() as int),
                |x: EnvModel, i: int| x.set_validity(args[i].0, either_proven(s.u32_inputs@[i], arg_u32[i])),
            );
            let n = min_int(
                min_int(results.len() as int, s.outputs@.len() as int),
                min_int(s.u32_outputs@.len() as int, s.forwarded_inputs@.len() as int),
            );
            let e2 = fold_range(
                e1,
                0,
                n,
                |x: EnvModel, i: int|
                    assign_output(x, i, results, args, outputs, s.u32_outputs@, s.forwarded_inputs@, arg_facts),
            );
            fold_range(
                e2,
                s.outputs@.len() as int,
                results.len() as int,
                |x: EnvModel, i: int| cleared_result(x, results[i]),
            )
        },
    }
}

/// The sources of `base` with those of the argument facts at the positions `idxs`, and those
/// argument facts' inputs.
pub open spec fn substitute_over(
    base: Set<Span>,
    idxs: Set<usize>,
    arg_facts: Seq<(Set<Span>, Set<usize>)>,
) -> (Set<Span>, Set<usize>) {
    (
        base + Set::new(
            |sp: Span|
                exists|j: usize|
                    idxs.contains(j) && j < arg_facts.len() && #[trigger] arg_facts[j as int].0.contains(sp),
        ),
        Set::new(
            |x: usize|
                exists|j: usize|
                    idxs.contains(j) && j < arg_facts.len() && #[trigger] arg_facts[j as int].1.contains(x),
        ),
    )
}

/// `summary_fact` with the facts of `arg_facts` substituted for its input positions; positions
/// past the arguments contribute nothing.
pub fn substitute_output_fact(summary_fact: &AdviceFact, arg_facts: &Vec<AdviceFact>) -> (r: AdviceFact)
    ensures
        r@ == spec_substitute(summary_fact@, arg_facts@.map_values(|f: AdviceFact| f@)),
{
    let ghost afs = arg_facts@.map_values(|f: AdviceFact| f@);
    let inputs = summary_fact.from_inputs();
    let mut acc = AdviceFact { source_spans: summary_fact.source_spans.clone(), from_inputs: Vec::new() };
    proof {
        assert(acc.source_spans@ =~= summary_fact.source_spans@);
        assert(acc@ =~= substitute_over(summary_fact@.0, Set::empty(), afs));
    }
    let mut i: usize = 0;
    while i < inputs.len()
        invariant
            i <= inputs@.len(),
            afs == arg_facts@.map_values(|f: AdviceFact| f@),
            acc@ == substitute_over(summary_fact@.0, inputs@.take(i as int).to_set(), afs),
        decreases inputs.len() - i,
    {
        let j = inputs[i];
        let ghost idxs = inputs@.take(i as int).to_set();
        proof {
            assert(inputs@.take(i + 1) =~= inputs@.take(i as int).push(j));
            inputs@.take(i as int).lemma_push_to_set_commute(j);
        }
        if j < arg_facts.len() {
            acc = acc.join(&arg_facts[j]);
            proof {
                let lhs = acc@;
                let rhs = substitute_over(summary_fact@.0, idxs.insert(j), afs);
                assert(afs[j as int] == arg_facts@[j as int]@);
                assert(lhs.0 =~= rhs.0);
                assert(lhs.1 =~= rhs.1);
            }
        } else {
            proof {
                let old_v = substitute_over(summary_fact@.0, idxs, afs);
                let new_v = substitute_over(summary_fact@.0, idxs.insert(j), afs);
                assert(old_v.0 =~= new_v.0);
                assert(old_v.1 =~= new_v.1);
            }
        }
        i = i + 1;
    }
    proof {
        assert(inputs@.take(inputs@.len() as int) =~= inputs@);
    }
    acc
}

impl Env {
    fn clear_call_result(&mut self, var: &Var)
        ensures
            final(self)@ == cleared_result(old(self)@, *var),
    {
        self.set_var_fact(var, AdviceFact::bottom());
        self.set_var_u32_validity(var, U32Validity::Unknown);
        self.clear_var_metadata(var);
    }

    fn clear_call_results_from(&mut self, results: &Vec<Var>, from: usize)
        ensures
            final(self)@ == fold_range(
                old(self)@,
                from as int,
                results@.len() as int,
                |x: EnvModel, i: int| cleared_result(x, results@[i]),
            ),
    {
        let ghost start = self@;
        let ghost rs = results@;
        if from >= results.len() {
            return;
        }
        let mut i: usize = from;
        while i < results.len()
            invariant
                from <= i <= rs.len(),
                rs == results@,
                self@ == fold_range(start, from as int, i as int, |x: EnvModel, k: int| cleared_result(x, rs[k])),
            decreases results.len() - i,
        {
            self.clear_call_result(&results[i]);
            i = i + 1;
        }
    }
}

/// Assign call results from the callee's summary: with no summary, or an opaque one, every result
/// is cleared. Otherwise each argument becomes `u32` when the callee guarantees it or it already
/// was; each summarized output takes its fact with the caller's argument facts substituted, is
/// `u32` when the callee says so or it forwards a `u32` argument, and keeps the alias and zero test
/// of a forwarded argument; results past the summary's outputs are cleared.
pub fn assign_call_results(
    results: &Vec<Var>,
    args: &Vec<Var>,
    summary: Option<&AdviceSummary>,
    env: &mut Env,
)
    ensures
        final(env)@ == spec_call_results(old(env)@, results@, args@, summary),
{
    let ghost start = env@;
    let ghost rs = results@;
    let ghost xs = args@;
    let s = match summary {
        Some(s) => s,
        None => {
            env.clear_call_results_from(results, 0);
            return;
        },
    };
    if s.unknown {
        env.clear_call_results_from(results, 0);
        return;
    }
    let mut arg_facts: Vec<AdviceFact> = Vec::new();
    let mut arg_u32: Vec<U32Validity> = Vec::new();
    let mut a: usize = 0;
    while a < args.len()
        invariant
            a <= xs.len(),
            xs == args@,
            env@ == start,
            arg_facts@.len() == a,
            arg_u32@.len() == a,
            forall|k: int| 0 <= k < a ==> #[trigger] arg_facts@[k]@ == start.fact(xs[k].0),
            forall|k: int| 0 <= k < a ==> #[trigger] arg_u32@[k] == start.u32_validity(xs[k].0),
        decreases args.len() - a,
    {
        arg_facts.push(env.fact_for_var(&args[a]));
        arg_u32.push(env.u32_validity_for_var(&args[a]));
        a = a + 1;
    }
    let ghost afs = Seq::new(xs.len(), |i: int| start.fact(xs[i].0));
    let ghost au = Seq::new(xs.len(), |i: int| start.u32_validity(xs[i].0));
    proof {
        assert(arg_facts@.map_values(|f: AdviceFact| f@) =~= afs);
        assert(arg_u32@ =~= au);
    }
    let m = if args.len() <= s.u32_inputs.len() {
        args.len()
    } else {
        s.u32_inputs.len()
    };
    let mut i: usize = 0;
    while i < m
        invariant
            i <= m,
            m as int == min_int(xs.len() as int, s.u32_inputs@.len() as int),
            xs == args@,
            arg_u32@ == au,
            au.len() == xs.len(),
            env@ == fold_range(
                start,
                0,
                i as int,
                |x: EnvModel, k: int| x.set_validity(xs[k].0, either_proven(s.u32_inputs@[k], au[k])),
            ),
        decreases m - i,
    {
        let v = if s.u32_inputs[i].is_proven() || arg_u32[i].is_proven() {
            U32Validity::ProvenU32
        } else {
            U32Validity::Unknown
        };
        env.set_var_u32_validity(&args[i], v);
        i = i + 1;
    }
    let ghost e1 = env@;
    let ghost outs = s.outputs@.map_values(|f: AdviceFact| f@);
    let n1 = if results.len() <= s.outputs.len() {
        results.len()
    } else {
        s.outputs.len()
    };
    let n2 = if s.u32_outputs.len() <= s.forwarded_inputs.len() {
        s.u32_outputs.len()
    } else {
        s.forwarded_inputs.len()
    };
    let n = if n1 <= n2 {
        n1
    } else {
        n2
    };
    let mut o: usize = 0;
    while o < n
        invariant
            o <= n,
            n as int == min_int(
                min_int(rs.len() as int, s.outputs@.len() as int),
                min_int(s.u32_outputs@.len() as int, s.forwarded_inputs@.len() as int),
            ),
            rs == results@,
            xs == args@,
            outs == s.outputs@.map_values(|f: AdviceFact| f@),
            arg_facts@.map_values(|f: AdviceFact| f@) == afs,
            env@ == fold_range(
                e1,
                0,
                o as int,
                |x: EnvModel, k: int|
                    assign_output(x, k, rs, xs, outs, s.u32_outputs@, s.forwarded_inputs@, afs),
            ),
        decreases n - o,
    {
        let result = &results[o];
        let fact = substitute_output_fact(&s.outputs[o], &arg_facts);
        env.set_var_fact(result, fact);
        let fwd: Option<&Var> = match s.forwarded_inputs[o] {
            Some(j) => if j < args.len() {
                Some(&args[j])
            } else {
                None
            },
            None => None,
        };
        let fv = match fwd {
            Some(arg) => env.u32_validity_for_var(arg),
            None => U32Validity::Unknown,
        };
        let v = if s.u32_outputs[o].is_proven() || fv.is_proven() {
            U32Validity::ProvenU32
        } else {
            U32Validity::Unknown
        };
        env.set_var_u32_validity(result, v);
        match fwd {
            Some(arg) => {
                let identity = env.identity_for_var(arg);
                env.set_var_identity(result, identity);
                let witness = env.zero_test_for_var(arg);
                env.set_var_zero_test(result, witness);
            },
            None => {
                env.clear_var_metadata(result);
            },
        }
        proof {
            assert(outs[o as int] == s.outputs@[o as int]@);
        }
        o = o + 1;
    }
    env.clear_call_results_from(results, s.outputs.len());
}

/// Which of the decompiler's own intrinsic names a base name is.
#[derive(Debug, Clone, Copy, PartialEq, Eq, Structural)]
pub enum DecompilerIntrinsic {
    /// The advice-push intrinsics (one element or one word).
    AdvPush,
    /// The advice-pipe intrinsic.
    AdvPipe,
    /// The memory-stream intrinsic.
    MemStream,
    /// None of these.
    Other,
}

/// The prefix shared by the local-address intrinsics.
pub open spec fn locaddr_prefix() -> Seq<char> {
    seq!['l', 'o', 'c', 'a', 'd', 'd', 'r']
}

/// Whether a name starts with `locaddr`.
pub open spec fn has_locaddr_prefix(name: Seq<char>) -> bool {
    name.len() >= 7 && name.subrange(0, 7) == locaddr_prefix()
}

fn starts_with_locaddr(name: &str) -> (r: bool)
    ensures
        r == has_locaddr_prefix(name@),
{
    let expected: [char; 7] = ['l', 'o', 'c', 'a', 'd', 'd', 'r'];
    proof {
        assert(expected@ =~= locaddr_prefix());
    }
    let mut chars = name.chars();
    let mut k: usize = 0;
    while k < 7
        invariant
            k <= 7,
            expected@ == locaddr_prefix(),
            k <= name@.len(),
            chars.obeys_prophetic_iter_laws(),
            chars.remaining() == name@.skip(k as int),
            forall|j: int| 0 <= j < k ==> name@[j] == expected@[j],
        decreases 7 - k,
    {
        match chars.next() {
            Some(c) => {
                if c != expected[k] {
                    return false;
                }
            },
            None => {
                return false;
            },
        }
        k = k + 1;
    }
    proof {
        assert(name@.subrange(0, 7) =~= locaddr_prefix());
    }
    true
}

fn same_name(name: &str, literal: &str) -> (r: bool)
    ensures
        r == (name@ == literal@),
{
    let a = name.to_owned();
    let b = literal.to_owned();
    a == b
}

/// The kind of an intrinsic given its base name, which of the decompiler's own names it is, and
/// whether its arguments must be `u32`.
pub open spec fn spec_intrinsic_kind(base: Seq<char>, named: DecompilerIntrinsic, requires_u32: bool) -> IntrinsicKind {
    if named == DecompilerIntrinsic::AdvPush {
        IntrinsicKind::AdvPush
    } else if base == "u32assert"@ || base == "u32assert2"@ || base == "u32assertw"@ {
        IntrinsicKind::U32Assert
    } else if base == "u32split"@ {
        IntrinsicKind::U32Split
    } else if base == "is_odd"@ {
        IntrinsicKind::IsOdd
    } else if base == "u32testw"@ {
        IntrinsicKind::U32TestW
    } else if named == DecompilerIntrinsic::AdvPipe {
        IntrinsicKind::AdvPipe
    } else if named == DecompilerIntrinsic::MemStream {
        IntrinsicKind::MemStream
    } else if base == "sdepth"@ {
        IntrinsicKind::Sdepth
    } else if has_locaddr_prefix(base) {
        IntrinsicKind::LocAddr
    } else if requires_u32 {
        IntrinsicKind::RequiresU32
    } else {
        IntrinsicKind::Other
    }
}

/// The kind of an intrinsic given its base name, which of the decompiler's own names it is, and
/// whether its arguments must be `u32`.
pub fn intrinsic_kind(base_name: &str, named: DecompilerIntrinsic, requires_u32: bool) -> (r: IntrinsicKind)
    ensures
        r == spec_intrinsic_kind(base_name@, named, requires_u32),
{
    if named == DecompilerIntrinsic::AdvPush {
        return IntrinsicKind::AdvPush;
    }
    if same_name(base_name, "u32assert") || same_name(base_name, "u32assert2") || same_name(
        base_name,
        "u32assertw",
    ) {
        return IntrinsicKind::U32Assert;
    }
    if same_name(base_name, "u32split") {
        return IntrinsicKind::U32Split;
    }
    if same_name(base_name, "is_odd") {
        return IntrinsicKind::IsOdd;
    }
    if same_name(base_name, "u32testw") {
        return IntrinsicKind::U32TestW;
    }
    if named == DecompilerIntrinsic::AdvPipe {
        return IntrinsicKind::AdvPipe;
    }
    if named == DecompilerIntrinsic::MemStream {
        return IntrinsicKind::MemStream;
    }
    if same_name(base_name, "sdepth") {
        return IntrinsicKind::Sdepth;
    }
    if starts_with_locaddr(base_name) {
        return IntrinsicKind::LocAddr;
    }
    if requires_u32 {
        IntrinsicKind::RequiresU32
    } else {
        IntrinsicKind::Other
    }
}

fn vec_contains_key(v: &Vec<u64>, k: u64) -> (r: bool)
    ensures
        r == v@.contains(k),
{
    let mut i: usize = 0;
    while i < v.len()
        invariant
            i <= v@.len(),
            forall|j: int| 0 <= j < i ==> v@[j] != k,
        decreases v.len() - i,
    {
        if v[i] == k {
            proof {
                assert(v@[i as int] == k);
            }
            return true;
        }
        i = i + 1;
    }
    false
}

/// The entries of two association maps that are present in both with the same value.
pub fn agreeing_entries(a: &Vec<(u64, u64)>, b: &Vec<(u64, u64)>) -> (r: Vec<(u64, u64)>)
    ensures
        assoc_map(r@) == agreeing_map(assoc_map(a@), assoc_map(b@)),
{
    let ghost ma = assoc_map(a@);
    let ghost mb = assoc_map(b@);
    let mut out: Vec<(u64, u64)> = Vec::new();
    proof {
        assert(assoc_map(out@) =~= Map::<u64, u64>::empty());
    }
    let mut i: usize = 0;
    while i < a.len()
        invariant
            i <= a@.len(),
            ma == assoc_map(a@),
            mb == assoc_map(b@),
            assoc_map(out@) == Map::new(
                |k: u64|
                    (exists|j: int| 0 <= j < i && (#[trigger] a@[j]).0 == k) && ma.contains_key(k)
                        && mb.contains_key(k) && ma[k] == mb[k],
                |k: u64| ma[k],
            ),
        decreases a.len() - i,
    {
        let (k, v) = a[i];
        let ghost before = assoc_map(out@);
        let first = assoc_find(a, k);
        let theirs = assoc_find(b, k);
        proof {
            lemma_assoc_get_entry_some(a@, k, i as int);
        }
        if first == Some(v) && theirs == Some(v) {
            assoc_insert(&mut out, k, v);
        }
        proof {
            let target = Map::new(
                |k2: u64|
                    (exists|j: int| 0 <= j < i + 1 && (#[trigger] a@[j]).0 == k2) && ma.contains_key(k2)
                        && mb.contains_key(k2) && ma[k2] == mb[k2],
                |k2: u64| ma[k2],
            );
            assert forall|k2: u64| #[trigger] assoc_map(out@).contains_key(k2) == target.contains_key(k2)
                && (assoc_map(out@).contains_key(k2) ==> assoc_map(out@)[k2] == target[k2]) by {
                assert(ma.contains_key(k2) == (assoc_get(a@, k2) is Some));
                assert(mb.contains_key(k2) == (assoc_get(b@, k2) is Some));
                if k2 == k {
                    assert(a@[i as int].0 == k);
                    assert(ma.contains_key(k));
                    assert(ma[k] == assoc_get(a@, k)->0);
                    if mb.contains_key(k) {
                        assert(mb[k] == assoc_get(b@, k)->0);
                    }
                    if !(exists|j: int| 0 <= j < i && (#[trigger] a@[j]).0 == k) {
                        lemma_assoc_get_skip(a@, k, i as int);
                        let rest = a@.subrange(i as int, a@.len() as int);
                        assert(rest[0] == a@[i as int]);
                        assert(assoc_get(a@, k) == Some(v));
                    }
                } else {
                    if (exists|j: int| 0 <= j < i + 1 && (#[trigger] a@[j]).0 == k2) {
                        let j = choose|j: int| 0 <= j < i + 1 && (#[trigger] a@[j]).0 == k2;
                        assert(j < i);
                    }
                }
            }
            assert(assoc_map(out@) =~= target);
        }
        i = i + 1;
    }
    proof {
        let target = agreeing_map(ma, mb);
        assert forall|k: u64| #[trigger] assoc_map(out@).contains_key(k) == target.contains_key(k) by {
            if target.contains_key(k) {
                lemma_assoc_get_some_has_entry(a@, k);
            }
        }
        assert(assoc_map(out@) =~= target);
    }
    out
}

/// The `u32` facts that hold on both of two paths: the variables recorded as proven on each.
pub fn join_u32_validity_maps(a: &Vec<u64>, b: &Vec<u64>) -> (r: Vec<u64>)
    ensures
        r@.to_set() == a@.to_set().intersect(b@.to_set()),
{
    let mut out: Vec<u64> = Vec::new();
    let mut i: usize = 0;
    while i < a.len()
        invariant
            i <= a@.len(),
            forall|k: u64|
                #[trigger] out@.contains(k) <==> ((exists|j: int| 0 <= j < i && #[trigger] a@[j] == k)
                    && b@.contains(k)),
        decreases a.len() - i,
    {
        let k = a[i];
        let ghost before = out@;
        if vec_contains_key(b, k) {
            out.push(k);
        }
        proof {
            assert forall|k2: u64| #[trigger] out@.contains(k2) <==> ((exists|j: int|
                0 <= j < i + 1 && #[trigger] a@[j] == k2) && b@.contains(k2)) by {
                if out@.contains(k2) {
                    let t = choose|t: int| 0 <= t < out@.len() && out@[t] == k2;
                    if t < before.len() {
                        assert(before[t] == k2);
                        assert(before.contains(k2));
                    } else {
                        assert(a@[i as int] == k2);
                    }
                }
                if (exists|j: int| 0 <= j < i + 1 && #[trigger] a@[j] == k2) && b@.contains(k2) {
                    let u = choose|u: int| 0 <= u < i + 1 && #[trigger] a@[u] == k2;
                    if u < i {
                        assert(before.contains(k2));
                        let t = choose|t: int| 0 <= t < before.len() && before[t] == k2;
                        assert(out@[t] == k2);
                    } else {
                        assert(out@[out@.len() - 1] == k2);
                    }
                }
            }
        }
        i = i + 1;
    }
    proof {
        assert forall|k: u64| #[trigger] out@.to_set().contains(k) == a@.to_set().intersect(b@.to_set()).contains(k) by {
            if a@.contains(k) {
                let u = choose|u: int| 0 <= u < a@.len() && a@[u] == k;
            }
        }
        assert(out@.to_set() =~= a@.to_set().intersect(b@.to_set()));
    }
    out
}

impl Env {
    /// The environment that holds on both of two paths: each variable's facts joined, `u32`
    /// proven only where both sides record it, and aliases and zero tests kept where both agree.
    pub fn join(&self, other: &Env) -> (r: Env)
        ensures
            r@ == self@.join(other@),
    {
        let ghost target = self@.join(other@);
        let mut vars: Vec<(u64, AdviceFact)> = Vec::new();
        let mut r = Env { vars, u32_proven: Vec::new(), aliases: Vec::new(), zero_tests: Vec::new() };
        proof {
            assert(r@.facts =~= Map::<u64, (Set<Span>, Set<usize>)>::empty());
        }
        let mut i: usize = 0;
        while i < self.vars.len()
            invariant
                i <= self.vars@.len(),
                target == self@.join(other@),
                r@.facts == Map::new(
                    |k: u64| exists|j: int| 0 <= j < i && (#[trigger] self.vars@[j]).0 == k,
                    |k: u64| target.facts[k],
                ),
            decreases self.vars.len() - i,
        {
            let key = Var(self.vars[i].0);
            let a = self.fact_for_var(&key);
            let b = other.fact_for_var(&key);
            let f = a.join(&b);
            let ghost before = r@.facts;
            r.set_var_fact(&key, f);
            proof {
                lemma_assoc_get_entry_some(self.vars@, key.0, i as int);
                let t = Map::new(
                    |k: u64| exists|j: int| 0 <= j < i + 1 && (#[trigger] self.vars@[j]).0 == k,
                    |k: u64| target.facts[k],
                );
                assert forall|k: u64| #[trigger] r@.facts.contains_key(k) == t.contains_key(k) && (r@.facts.contains_key(k)
                    ==> r@.facts[k] == t[k]) by {
                    if k == key.0 {
                        assert(self.vars@[i as int].0 == k);
                        assert(self@.facts.contains_key(k));
                    } else if (exists|j: int| 0 <= j < i + 1 && (#[trigger] self.vars@[j]).0 == k) {
                        let j = choose|j: int| 0 <= j < i + 1 && (#[trigger] self.vars@[j]).0 == k;
                        assert(j < i);
                    }
                }
                assert(r@.facts =~= t);
            }
            i = i + 1;
        }
        let mut i: usize = 0;
        while i < other.vars.len()
            invariant
                i <= other.vars@.len(),
                target == self@.join(other@),
                r@.facts == Map::new(
                    |k: u64|
                        (exists|j: int| 0 <= j < self.vars@.len() && (#[trigger] self.vars@[j]).0 == k)
                            || (exists|j: int| 0 <= j < i && (#[trigger] other.vars@[j]).0 == k),
                    |k: u64| target.facts[k],
                ),
            decreases other.vars.len() - i,
        {
            let key = Var(other.vars[i].0);
            let a = self.fact_for_var(&key);
            let b = other.fact_for_var(&key);
            let f = a.join(&b);
            r.set_var_fact(&key, f);
            proof {
                lemma_assoc_get_entry_some(other.vars@, key.0, i as int);
                let t = Map::new(
                    |k: u64|
                        (exists|j: int| 0 <= j < self.vars@.len() && (#[trigger] self.vars@[j]).0 == k)
                            || (exists|j: int| 0 <= j < i + 1 && (#[trigger] other.vars@[j]).0 == k),
                    |k: u64| target.facts[k],
                );
                assert forall|k: u64| #[trigger] r@.facts.contains_key(k) == t.contains_key(k) && (r@.facts.contains_key(k)
                    ==> r@.facts[k] == t[k]) by {
                    if k == key.0 {
                        assert(other.vars@[i as int].0 == k);
                        assert(other@.facts.contains_key(k));
                    } else if (exists|j: int| 0 <= j < i + 1 && (#[trigger] other.vars@[j]).0 == k) {
                        let j = choose|j: int| 0 <= j < i + 1 && (#[trigger] other.vars@[j]).0 == k;
                        assert(j < i);
                    }
                }
                assert(r@.facts =~= t);
            }
            i = i + 1;
        }
        proof {
            assert forall|k: u64| #[trigger] r@.facts.contains_key(k) == target.facts.contains_key(k) by {
                if self@.facts.contains_key(k) {
                    lemma_assoc_get_some_has_entry(self.vars@, k);
                }
                if other@.facts.contains_key(k) {
                    lemma_assoc_get_some_has_entry(other.vars@, k);
                }
                if exists|j: int| 0 <= j < self.vars@.len() && (#[trigger] self.vars@[j]).0 == k {
                    let j = choose|j: int| 0 <= j < self.vars@.len() && (#[trigger] self.vars@[j]).0 == k;
                    lemma_assoc_get_entry_some(self.vars@, k, j);
                }
                if exists|j: int| 0 <= j < other.vars@.len() && (#[trigger] other.vars@[j]).0 == k {
                    let j = choose|j: int| 0 <= j < other.vars@.len() && (#[trigger] other.vars@[j]).0 == k;
                    lemma_assoc_get_entry_some(other.vars@, k, j);
                }
            }
            assert(r@.facts =~= target.facts);
        }
        r.u32_proven = join_u32_validity_maps(&self.u32_proven, &other.u32_proven);
        r.aliases = agreeing_entries(&self.aliases, &other.aliases);
        r.zero_tests = agreeing_entries(&self.zero_tests, &other.zero_tests);
        proof {
            assert(r@.facts =~= target.facts);
        }
        r
    }
}

/// A memory load and a memory store check their address alike: each uses its first address
/// variable, located at the statement's span, and carries that variable's advice fact; so a load
/// from an address that holds concrete advice is reported exactly as a store to it is.
pub proof fn lemma_loads_and_stores_check_the_same_address(
    span: Span,
    address: Vec<Var>,
    addr_arg: Option<usize>,
    env: Env,
)
    ensures
        spec_address_use(Stmt::MemLoad { span, address }, addr_arg, env) == spec_address_use(
            Stmt::MemStore { span, address },
            addr_arg,
            env,
        ),
        address@.len() > 0 ==> spec_address_use(Stmt::MemLoad { span, address }, addr_arg, env)
            == Some((span, env@.fact(address@[0].0))),
        address@.len() > 0 ==> spec_address_use(Stmt::MemStore { span, address }, addr_arg, env)
            == Some((span, env@.fact(address@[0].0))),
        address@.len() == 0 ==> spec_address_use(Stmt::MemLoad { span, address }, addr_arg, env)
            is None,
{
}

/// Field arithmetic carries advice: the result of `+`, `-`, `*` or `/` holds every advice source
/// and input of both operands, and exactly those; negation, inversion and powers of two carry
/// their operand's advice unchanged.
pub proof fn lemma_field_arithmetic_carries_advice(op: BinOp, lhs: Expr, rhs: Expr, env: Env)
    requires
        op == BinOp::Add || op == BinOp::Sub || op == BinOp::Mul || op == BinOp::Div,
    ensures
        ({
            let out = spec_expr_output_fact(Expr::Binary(op, Box::new(lhs), Box::new(rhs)), env);
            let l = spec_expr_output_fact(lhs, env);
            let r = spec_expr_output_fact(rhs, env);
            &&& l.0.subset_of(out.0) && l.1.subset_of(out.1)
            &&& r.0.subset_of(out.0) && r.1.subset_of(out.1)
            &&& out.0 == l.0 + r.0
            &&& out.1 == l.1 + r.1
        }),
{
}

/// Negation, inversion and powers of two carry their operand's advice unchanged.
pub proof fn lemma_field_unary_carries_advice(op: UnOp, inner: Expr, env: Env)
    requires
        op == UnOp::Neg || op == UnOp::Inv || op == UnOp::Pow2,
    ensures
        spec_expr_output_fact(Expr::Unary(op, Box::new(inner)), env) == spec_expr_output_fact(
            inner,
            env,
        ),
{
}

/// Comparisons, boolean and `u32` operators produce fresh values: their result carries no advice,
/// whatever advice their operands hold.
pub proof fn lemma_non_arithmetic_results_carry_no_advice(op: BinOp, lhs: Expr, rhs: Expr, env: Env)
    requires
        !(op == BinOp::Add || op == BinOp::Sub || op == BinOp::Mul || op == BinOp::Div),
    ensures
        spec_expr_output_fact(Expr::Binary(op, Box::new(lhs), Box::new(rhs)), env) == bottom_fact(),
{
}

/// A variable's result is its recorded fact; a ternary's is the join of its two branches (its
/// condition does not flow into the value); constants carry no advice.
pub proof fn lemma_output_fact_of_leaves_and_ternaries(
    v: Var,
    cond: Expr,
    a: Expr,
    b: Expr,
    c: Felt,
    env: Env,
)
    ensures
        spec_expr_output_fact(Expr::Var(v), env) == env@.fact(v.0),
        ({
            let out = spec_expr_output_fact(
                Expr::Ternary { cond: Box::new(cond), then_expr: Box::new(a), else_expr: Box::new(b) },
                env,
            );
            let fa = spec_expr_output_fact(a, env);
            let fb = spec_expr_output_fact(b, env);
            out.0 == fa.0 + fb.0 && out.1 == fa.1 + fb.1
        }),
        spec_expr_output_fact(Expr::Constant(c), env) == bottom_fact(),
        spec_expr_output_fact(Expr::True, env) == bottom_fact(),
        spec_expr_output_fact(Expr::False, env) == bottom_fact(),
{
}

/// The `u32` operators other than exponentiation always give a `u32`; field arithmetic,
/// comparisons, boolean operators and `u32` exponentiation give nothing proven; a ternary is
/// proven only when both branches are.
pub proof fn lemma_u32_validity_by_operator(op: BinOp, lhs: Expr, rhs: Expr, cond: Expr, env: Env)
    ensures
        spec_expr_u32_validity(Expr::Binary(op, Box::new(lhs), Box::new(rhs)), env) == if op
            == BinOp::U32And || op == BinOp::U32Or || op == BinOp::U32Xor || op == BinOp::U32Shl
            || op == BinOp::U32Shr || op == BinOp::U32Rotr || op == BinOp::U32Lt || op
            == BinOp::U32Lte || op == BinOp::U32Gt || op == BinOp::U32Gte || op
            == BinOp::U32WrappingAdd || op == BinOp::U32WrappingSub || op == BinOp::U32WrappingMul {
            U32Validity::ProvenU32
        } else {
            U32Validity::Unknown
        },
        spec_expr_u32_validity(
            Expr::Ternary { cond: Box::new(cond), then_expr: Box::new(lhs), else_expr: Box::new(rhs) },
            env,
        ) == if spec_expr_u32_validity(lhs, env) == U32Validity::ProvenU32 && spec_expr_u32_validity(
            rhs,
            env,
        ) == U32Validity::ProvenU32 {
            U32Validity::ProvenU32
        } else {
            U32Validity::Unknown
        },
{
}

/// The `u32` unary operators give a `u32`; negation, inversion, powers of two and boolean
/// negation do not.
pub proof fn lemma_u32_validity_by_unary_operator(op: UnOp, inner: Expr, env: Env)
    ensures
        spec_expr_u32_validity(Expr::Unary(op, Box::new(inner)), env) == if op == UnOp::Neg || op
            == UnOp::Inv || op == UnOp::Pow2 || op == UnOp::Not {
            U32Validity::Unknown
        } else {
            U32Validity::ProvenU32
        },
{
}

/// A memory intrinsic with thirteen arguments and thirteen results checks the argument at the
/// given address position; any other intrinsic, or one without an address position, is not
/// checked, and no other statement is.
pub proof fn lemma_memory_intrinsics_check_their_address(
    span: Span,
    intrinsic: Intrinsic,
    addr_arg: Option<usize>,
    env: Env,
)
    ensures
        (intrinsic.args@.len() == 13 && intrinsic.results@.len() == 13 && addr_arg is Some)
            ==> spec_address_use(Stmt::Intrinsic { span, intrinsic }, addr_arg, env) == Some(
            (span, env@.fact(intrinsic.args@[addr_arg->0 as int].0)),
        ),
        !(intrinsic.args@.len() == 13 && intrinsic.results@.len() == 13 && addr_arg is Some)
            ==> spec_address_use(Stmt::Intrinsic { span, intrinsic }, addr_arg, env) is None,
        spec_address_use(Stmt::Other, addr_arg, env) is None,
{
}

/// The state after defining the first `n` variables of `vs` afresh with fact `f`.
pub open spec fn fresh_prefix(e: EnvModel, vs: Seq<Var>, f: (Set<Span>, Set<usize>), n: int) -> EnvModel {
    fold_range(e, 0, n, |x: EnvModel, k: int| fresh(x, vs[k], f))
}

/// The state after range-checking the first `n` variables of `args`.
pub open spec fn sanitize_prefix(e: EnvModel, args: Seq<Var>, n: int) -> EnvModel {
    fold_range(e, 0, n, |x: EnvModel, k: int| x.sanitize(args[k].0))
}

proof fn lemma_fresh_all_sets_facts(e: EnvModel, vs: Seq<Var>, f: (Set<Span>, Set<usize>), n: int)
    requires
        0 <= n <= vs.len(),
    ensures
        forall|i: int| 0 <= i < n ==> fresh_prefix(e, vs, f, n).fact(#[trigger] vs[i].0) == f,
        forall|k: u64|
            (forall|i: int| 0 <= i < n ==> #[trigger] vs[i].0 != k) ==> fresh_prefix(e, vs, f, n).fact(k)
                == e.fact(k),
    decreases n,
{
    if n > 0 {
        lemma_fresh_all_sets_facts(e, vs, f, n - 1);
        assert(fresh_prefix(e, vs, f, n) == fresh(fresh_prefix(e, vs, f, n - 1), vs[n - 1], f));
    }
}

/// Pushing advice marks every pushed value as advice from the push: after `adv_push`, each
/// result's fact is exactly the push's span (none for an unknown span), with no input dependency;
/// other variables keep their facts.
pub proof fn lemma_adv_push_results_are_advice(e: EnvModel, span: Span, args: Seq<Var>, rs: Seq<Var>)
    ensures
        forall|i: int|
            0 <= i < rs.len() ==> spec_intrinsic_effect(e, span, IntrinsicKind::AdvPush, args, rs).fact(
                #[trigger] rs[i].0,
            ) == (if span == Span::Unknown {
                Set::<Span>::empty()
            } else {
                set![span]
            }, Set::<usize>::empty()),
        forall|k: u64|
            (forall|i: int| 0 <= i < rs.len() ==> #[trigger] rs[i].0 != k) ==> spec_intrinsic_effect(
                e,
                span,
                IntrinsicKind::AdvPush,
                args,
                rs,
            ).fact(k) == e.fact(k),
{
    let f = AdviceFact::spec_from_source(span);
    lemma_fresh_all_sets_facts(e, rs, f, rs.len() as int);
    assert(spec_intrinsic_effect(e, span, IntrinsicKind::AdvPush, args, rs) == fresh_prefix(
        e,
        rs,
        f,
        rs.len() as int,
    ));
}

proof fn lemma_sanitize_fold_proves(e: EnvModel, args: Seq<Var>, n: int)
    requires
        0 <= n <= args.len(),
    ensures
        forall|i: int|
            0 <= i < n ==> sanitize_prefix(e, args, n).u32_validity(#[trigger] args[i].0)
                == U32Validity::ProvenU32,
        sanitize_prefix(e, args, n).aliases == e.aliases,
        e.proven.subset_of(sanitize_prefix(e, args, n).proven),
    decreases n,
{
    if n > 0 {
        lemma_sanitize_fold_proves(e, args, n - 1);
        let prev = sanitize_prefix(e, args, n - 1);
        let next = sanitize_prefix(e, args, n);
        assert(next == prev.sanitize(args[n - 1].0));
        assert forall|i: int| 0 <= i < n implies next.u32_validity(#[trigger] args[i].0)
            == U32Validity::ProvenU32 by {
            if i < n - 1 {
                assert(prev.u32_validity(args[i].0) == U32Validity::ProvenU32);
                let k2 = choose|k2: u64| #[trigger] prev.proven.contains(k2) && prev.identity(k2)
                    == prev.identity(args[i].0);
                assert(next.proven.contains(k2));
            } else {
                let idk = prev.identity(args[i].0);
                assert(next.proven.contains(idk));
                if prev.aliases.contains_key(args[i].0) {
                    assert(next.proven.contains(args[i].0));
                } else {
                    assert(idk == args[i].0);
                }
            }
        }
    }
}

/// Range-checking proves its arguments: after `u32assert` (or its word forms) every argument is
/// proven `u32`, and nothing proven before is lost.
pub proof fn lemma_u32_assert_proves_its_arguments(e: EnvModel, span: Span, args: Seq<Var>, rs: Seq<Var>)
    ensures
        forall|i: int|
            0 <= i < args.len() ==> spec_intrinsic_effect(e, span, IntrinsicKind::U32Assert, args, rs).u32_validity(
                #[trigger] args[i].0,
            ) == U32Validity::ProvenU32,
        e.proven.subset_of(spec_intrinsic_effect(e, span, IntrinsicKind::U32Assert, args, rs).proven),
{
    lemma_sanitize_fold_proves(e, args, args.len() as int);
    assert(spec_intrinsic_effect(e, span, IntrinsicKind::U32Assert, args, rs) == sanitize_prefix(
        e,
        args,
        args.len() as int,
    ));
}

} // verus!
