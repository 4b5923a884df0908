//! A small fixpoint engine for abstract interpretation.
//!
//! The engine repeatedly applies a transfer function to the current abstract state and joins the
//! candidate into it, until a join leaves the state unchanged or an evaluation budget runs out.
use vstd::prelude::*;

verus! {

/// Join-based abstract state used by the fixpoint engine.
///
/// `join_assign` updates `self` to the join of `self` and `other` and reports whether that changed
/// the state.
pub trait JoinSemiLattice: Sized {
    /// The join of two states.
    spec fn spec_join(self, other: Self) -> Self;

    /// Join `other` into `self`, returning `true` when the state changed.
    fn join_assign(&mut self, other: &Self) -> (changed: bool)
        ensures
            *final(self) == old(self).spec_join(*other),
            changed == (*final(self) != *old(self)),
    ;
}

/// Configuration of a fixpoint iteration.
#[derive(Debug, Clone, Copy, PartialEq, Eq)]
pub struct FixpointConfig {
    /// Maximum number of transfer evaluations before the engine stops (a hard cutoff).
    pub max_iterations: usize,
}

impl FixpointConfig {
    /// A configuration with an explicit iteration cap.
    pub fn new(max_iterations: usize) -> (r: FixpointConfig)
        ensures
            r.max_iterations == max_iterations,
    {
        FixpointConfig { max_iterations }
    }
}

impl Default for FixpointConfig {
    fn default() -> (r: FixpointConfig)
        ensures
            r.max_iterations == 32,
    {
        FixpointConfig { max_iterations: 32 }
    }
}

/// Outcome of a fixpoint iteration.
#[derive(Debug, Clone, Copy, PartialEq, Eq, Structural)]
pub enum FixpointOutcome {
    /// The state stopped changing within the evaluation budget.
    Converged,
    /// The budget was exhausted before any evaluation was made.
    ReachedIterationLimit,
    /// The last allowed evaluation still changed the state.
    ReachedIterationLimitAfterChange,
}

/// Result of the fixpoint engine.
#[derive(Debug, Clone, PartialEq, Eq)]
pub struct FixpointResult<S> {
    state: S,
    iterations: usize,
    outcome: FixpointOutcome,
}

impl<S> FixpointResult<S> {
    /// The final abstract state.
    pub closed spec fn spec_state(&self) -> S {
        self.state
    }

    /// The number of transfer evaluations made.
    pub closed spec fn spec_iterations(&self) -> usize {
        self.iterations
    }

    /// The engine outcome.
    pub closed spec fn spec_outcome(&self) -> FixpointOutcome {
        self.outcome
    }

    /// A result from its final state, evaluation count and outcome.
    pub fn new(state: S, iterations: usize, outcome: FixpointOutcome) -> (r: Self)
        ensures
            r.spec_state() == state,
            r.spec_iterations() == iterations,
            r.spec_outcome() == outcome,
    {
        FixpointResult { state, iterations, outcome }
    }

    /// The final abstract state.
    pub fn state(&self) -> (r: &S)
        ensures
            *r == self.spec_state(),
    {
        &self.state
    }

    /// Consume the result and return the final abstract state.
    pub fn into_state(self) -> (r: S)
        ensures
            r == self.spec_state(),
    {
        self.state
    }

    /// The number of transfer evaluations made.
    pub fn iterations(&self) -> (r: usize)
        ensures
            r == self.spec_iterations(),
    {
        self.iterations
    }

    /// The engine outcome.
    pub fn outcome(&self) -> (r: FixpointOutcome)
        ensures
            r == self.spec_outcome(),
    {
        self.outcome
    }

    /// Whether the last allowed evaluation changed the state but the budget was exhausted.
    pub fn limit_exhausted_after_change(&self) -> (r: bool)
        ensures
            r == (self.spec_outcome() == FixpointOutcome::ReachedIterationLimitAfterChange),
    {
        self.outcome == FixpointOutcome::ReachedIterationLimitAfterChange
    }

    /// Whether the engine observed stability within the evaluation budget.
    pub fn converged(&self) -> (r: bool)
        ensures
            r == (self.spec_outcome() == FixpointOutcome::Converged),
    {
        self.outcome == FixpointOutcome::Converged
    }
}

/// Whether `step` gives one result for each state.
pub open spec fn is_deterministic<S, F: Fn(&S) -> S>(step: F) -> bool {
    forall|s: S, a: S, b: S|
        #[trigger] step.ensures((&s,), a) && #[trigger] step.ensures((&s,), b) ==> a == b
}

/// The run of the engine from `states[0]`: `states[i + 1]` is `states[i]` joined with the
/// candidate `cands[i]` that `step` computed from `states[i]`.
pub open spec fn is_join_chain<S: JoinSemiLattice, F: Fn(&S) -> S>(
    step: F,
    states: Seq<S>,
    cands: Seq<S>,
) -> bool {
    &&& states.len() == cands.len() + 1
    &&& forall|i: int|
        0 <= i < cands.len() ==> step.ensures((&states[i],), #[trigger] cands[i]) && states[i + 1]
            == states[i].spec_join(cands[i])
}

/// Iterate `step` until joining its candidate no longer changes the current state, or until
/// `config.max_iterations` evaluations were made.
///
/// The result is the end of a run of `r.iterations()` evaluations from `initial_state`, each
/// joined into the state it was computed from. Every join of the run changed the state, except
/// the last one of a converged run, which left it unchanged. A run that did not converge spent the
/// whole budget: either no evaluation was allowed at all, or the last allowed one still changed
/// the state.
pub fn iterate_to_fixpoint<S: JoinSemiLattice, F: Fn(&S) -> S>(
    initial_state: S,
    config: FixpointConfig,
    step: F,
) -> (r: FixpointResult<S>)
    requires
        forall|s: &S| step.requires((s,)),
    ensures
        r.spec_iterations() <= config.max_iterations,
        exists|states: Seq<S>, cands: Seq<S>|
            {
                &&& #[trigger] is_join_chain(step, states, cands)
                &&& states.len() == r.spec_iterations() + 1
                &&& states[0] == initial_state
                &&& r.spec_state() == states.last()
                &&& forall|i: int|
                    0 <= i < cands.len() && !(i == cands.len() - 1 && r.spec_outcome()
                        == FixpointOutcome::Converged) ==> #[trigger] states[i + 1] != states[i]
                &&& r.spec_outcome() == FixpointOutcome::Converged ==> cands.len() >= 1
                    && states.last() == states[cands.len() - 1]
            },
        config.max_iterations == 0 ==> r.spec_iterations() == 0 && r.spec_state() == initial_state
            && r.spec_outcome() == FixpointOutcome::ReachedIterationLimit,
        config.max_iterations > 0 ==> r.spec_outcome() != FixpointOutcome::ReachedIterationLimit,
        r.spec_outcome() == FixpointOutcome::Converged ==> r.spec_iterations() >= 1 && exists|
            candidate: S,
        |
            step.ensures((&r.spec_state(),), candidate) && r.spec_state().spec_join(candidate)
                == r.spec_state(),
        r.spec_outcome() == FixpointOutcome::Converged && is_deterministic(step) ==> forall|
            candidate: S,
        |
            #[trigger] step.ensures((&r.spec_state(),), candidate) ==> r.spec_state().spec_join(
                candidate,
            ) == r.spec_state(),
        r.spec_outcome() != FixpointOutcome::Converged ==> r.spec_iterations()
            == config.max_iterations,
{
    let mut state = initial_state;
    let mut steps: usize = 0;
    let mut saw_change = false;
    let ghost mut states: Seq<S> = seq![initial_state];
    let ghost mut cands: Seq<S> = Seq::empty();
    while steps < config.max_iterations
        invariant
            forall|s: &S| step.requires((s,)),
            steps <= config.max_iterations,
            steps == 0 ==> state == initial_state && !saw_change,
            steps > 0 ==> saw_change,
            is_join_chain(step, states, cands),
            states.len() == steps + 1,
            states[0] == initial_state,
            state == states.last(),
            forall|i: int| 0 <= i < cands.len() ==> #[trigger] states[i + 1] != states[i],
        decreases config.max_iterations - steps,
    {
        let ghost before = state;
        let candidate = step(&state);
        steps = steps + 1;
        saw_change = state.join_assign(&candidate);
        proof {
            let old_states = states;
            let old_cands = cands;
            states = states.push(state);
            cands = cands.push(candidate);
            assert forall|i: int| 0 <= i < cands.len() implies step.ensures(
                (&states[i],),
                #[trigger] cands[i],
            ) && states[i + 1] == states[i].spec_join(cands[i]) by {
                if i < old_cands.len() {
                    assert(old_cands[i] == cands[i]);
                    assert(old_states[i] == states[i]);
                    assert(old_states[i + 1] == states[i + 1]);
                }
            }
            assert forall|i: int| 0 <= i < old_cands.len() implies #[trigger] states[i + 1]
                != states[i] by {
                assert(old_states[i] == states[i]);
                assert(old_states[i + 1] == states[i + 1]);
                assert(old_states[i + 1] != old_states[i]);
            }
            assert(states[old_cands.len() as int] == before);
            assert(states[old_cands.len() + 1int] == state);
        }
        if !saw_change {
            proof {
                assert(step.ensures((&before,), candidate));
                assert(state == before);
                assert(state.spec_join(candidate) == state);
                assert(states.last() == states[cands.len() - 1]);
                assert(is_join_chain(step, states, cands));
            }
            return FixpointResult::new(state, steps, FixpointOutcome::Converged);
        }
    }
    let outcome = if saw_change {
        FixpointOutcome::ReachedIterationLimitAfterChange
    } else {
        FixpointOutcome::ReachedIterationLimit
    };
    proof {
        assert(is_join_chain(step, states, cands));
    }
    FixpointResult::new(state, steps, outcome)
}

} // verus!
