use miden_kit::abstract_interp::{
    iterate_to_fixpoint, FixpointConfig, FixpointOutcome, JoinSemiLattice,
};

#[derive(Clone, Debug, PartialEq, Eq)]
struct MaxState(u64);

impl JoinSemiLattice for MaxState {
    fn spec_join(self, other: Self) -> Self {
        MaxState(self.0.max(other.0))
    }

    fn join_assign(&mut self, other: &Self) -> bool {
        if other.0 > self.0 {
            self.0 = other.0;
            true
        } else {
            false
        }
    }
}

#[test]
fn converges_when_the_join_stops_changing() {
    let result = iterate_to_fixpoint(MaxState(0), FixpointConfig::default(), |s: &MaxState| {
        MaxState((s.0 + 1).min(5))
    });
    assert!(result.converged());
    assert_eq!(result.outcome(), FixpointOutcome::Converged);
    assert_eq!(result.state(), &MaxState(5));
    assert_eq!(result.iterations(), 6);
    assert!(!result.limit_exhausted_after_change());
    assert_eq!(result.into_state(), MaxState(5));
}

#[test]
fn stable_final_evaluation_still_converges() {
    let result =
        iterate_to_fixpoint(MaxState(0), FixpointConfig::new(2), |s: &MaxState| MaxState(s.0.max(1)));
    assert_eq!(result.outcome(), FixpointOutcome::Converged);
    assert_eq!(result.iterations(), 2);
}

#[test]
fn budget_exhausted_after_a_change() {
    let result =
        iterate_to_fixpoint(MaxState(0), FixpointConfig::new(3), |s: &MaxState| MaxState(s.0 + 1));
    assert_eq!(result.outcome(), FixpointOutcome::ReachedIterationLimitAfterChange);
    assert!(result.limit_exhausted_after_change());
    assert_eq!(result.iterations(), 3);
    assert_eq!(result.state(), &MaxState(3));
}

#[test]
fn zero_budget_reports_the_plain_limit() {
    let result =
        iterate_to_fixpoint(MaxState(4), FixpointConfig::new(0), |s: &MaxState| MaxState(s.0 + 1));
    assert_eq!(result.outcome(), FixpointOutcome::ReachedIterationLimit);
    assert_eq!(result.iterations(), 0);
    assert_eq!(result.state(), &MaxState(4));
}

#[test]
fn default_budget_is_thirty_two() {
    assert_eq!(FixpointConfig::default().max_iterations, 32);
}
