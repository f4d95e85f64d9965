use rule_kit::error::RuleEngineError;
use rule_kit::{PriorityOrder, Rule, RuleEngine};
use std::cell::Cell;
use std::rc::Rc;

/// A rule with a fixed verdict and output that counts how often each of its
/// steps was called.
pub struct Probe {
    pub priority: u32,
    pub verdict: Result<bool, String>,
    pub output: Result<u32, String>,
    pub evaluated: Rc<Cell<u32>>,
    pub applied: Rc<Cell<u32>>,
}

impl Rule<u32> for Probe {
    type Output = u32;
    type RuleError = String;

    fn evaluate(&self, _ctx: &u32) -> Result<bool, Self::RuleError> {
        self.evaluated.set(self.evaluated.get() + 1);
        self.verdict.clone()
    }

    fn apply(&self, ctx: &u32) -> Result<Self::Output, Self::RuleError> {
        self.applied.set(self.applied.get() + 1);
        self.output.clone().map(|output| output + ctx)
    }

    fn priority(&self) -> u32 {
        self.priority
    }
}

pub struct Counts {
    pub evaluated: Rc<Cell<u32>>,
    pub applied: Rc<Cell<u32>>,
}

impl Counts {
    fn seen(&self) -> (u32, u32) {
        (self.evaluated.get(), self.applied.get())
    }
}

fn probe(priority: u32, verdict: Result<bool, &str>, output: Result<u32, &str>) -> (Probe, Counts) {
    let evaluated = Rc::new(Cell::new(0));
    let applied = Rc::new(Cell::new(0));
    let rule = Probe {
        priority,
        verdict: verdict.map_err(|e| e.to_string()),
        output: output.map_err(|e| e.to_string()),
        evaluated: evaluated.clone(),
        applied: applied.clone(),
    };
    (rule, Counts { evaluated, applied })
}

#[test]
fn evaluate_all_keeps_exactly_the_matching_outputs_in_order() {
    let (a, _) = probe(4, Ok(true), Ok(40));
    let (b, _) = probe(1, Ok(false), Ok(10));
    let (c, _) = probe(3, Ok(true), Ok(30));
    let (d, _) = probe(2, Ok(true), Ok(20));
    let (e, _) = probe(5, Ok(false), Ok(50));
    let engine = RuleEngine::new(vec![a, b, c, d, e], None);
    assert_eq!(engine.evaluate_all(&0).unwrap(), vec![20, 30, 40]);
    assert_eq!(engine.evaluate_all(&7).unwrap(), vec![27, 37, 47]);
}

#[test]
fn evaluate_all_visits_every_rule_once_and_applies_only_matches() {
    let (a, a_seen) = probe(1, Ok(true), Ok(1));
    let (b, b_seen) = probe(2, Ok(false), Ok(2));
    let (c, c_seen) = probe(3, Ok(true), Ok(3));
    let engine = RuleEngine::new(vec![a, b, c], None);
    assert_eq!(engine.evaluate_all(&0).unwrap(), vec![1, 3]);
    assert_eq!(a_seen.seen(), (1, 1));
    assert_eq!(b_seen.seen(), (1, 0));
    assert_eq!(c_seen.seen(), (1, 1));
}

#[test]
fn evaluate_all_of_only_skipped_rules_is_empty() {
    let (a, _) = probe(1, Ok(false), Ok(1));
    let (b, _) = probe(2, Ok(false), Ok(2));
    let engine = RuleEngine::new(vec![a, b], None);
    assert_eq!(engine.evaluate_all(&0).unwrap(), Vec::<u32>::new());
}

#[test]
fn evaluate_first_stops_at_the_first_match() {
    let (a, a_seen) = probe(1, Ok(false), Ok(1));
    let (b, b_seen) = probe(2, Ok(true), Ok(2));
    let (c, c_seen) = probe(3, Ok(true), Ok(3));
    let (d, d_seen) = probe(4, Err("never asked"), Err("never asked"));
    let engine = RuleEngine::new(vec![d, c, b, a], None);
    assert_eq!(engine.evaluate_first(&0).unwrap(), Some(2));
    assert_eq!(a_seen.seen(), (1, 0));
    assert_eq!(b_seen.seen(), (1, 1));
    assert_eq!(c_seen.seen(), (0, 0));
    assert_eq!(d_seen.seen(), (0, 0));
}

#[test]
fn evaluate_first_follows_the_engine_order() {
    let (low, _) = probe(1, Ok(true), Ok(100));
    let (high, _) = probe(9, Ok(true), Ok(900));
    let engine = RuleEngine::new(vec![low, high], Some(PriorityOrder::Desc));
    assert_eq!(engine.evaluate_first(&0).unwrap(), Some(900));
}

#[test]
fn evaluate_first_without_a_match_is_none() {
    let (a, a_seen) = probe(1, Ok(false), Ok(1));
    let (b, b_seen) = probe(2, Ok(false), Ok(2));
    let engine = RuleEngine::new(vec![a, b], None);
    assert_eq!(engine.evaluate_first(&0).unwrap(), None);
    assert_eq!(a_seen.seen(), (1, 0));
    assert_eq!(b_seen.seen(), (1, 0));
}

#[test]
fn evaluate_first_is_the_head_of_evaluate_all() {
    let (a, _) = probe(3, Ok(true), Ok(3));
    let (b, _) = probe(1, Ok(false), Ok(1));
    let (c, _) = probe(2, Ok(true), Ok(2));
    let engine = RuleEngine::new(vec![a, b, c], None);
    let all = engine.evaluate_all(&5).unwrap();
    assert_eq!(all, vec![7, 8]);
    assert_eq!(engine.evaluate_first(&5).unwrap(), all.first().copied());
}

#[test]
fn empty_engine_yields_nothing() {
    let engine: RuleEngine<u32, Probe> = RuleEngine::new(Vec::new(), None);
    assert!(engine.rules().is_empty());
    assert_eq!(engine.evaluate_all(&0).unwrap(), Vec::<u32>::new());
    assert_eq!(engine.evaluate_first(&0).unwrap(), None);
    let engine: RuleEngine<u32, Probe> = RuleEngine::new(Vec::new(), Some(PriorityOrder::Desc));
    assert_eq!(engine.evaluate_all(&0).unwrap(), Vec::<u32>::new());
    assert_eq!(engine.evaluate_first(&0).unwrap(), None);
}

#[test]
fn evaluate_all_fails_fast_on_evaluation_error() {
    let (a, a_seen) = probe(1, Ok(true), Ok(1));
    let (b, b_seen) = probe(2, Err("cannot decide"), Ok(2));
    let (c, c_seen) = probe(3, Ok(true), Ok(3));
    let engine = RuleEngine::new(vec![a, b, c], None);
    let outcome = engine.evaluate_all(&0);
    assert!(matches!(outcome, Err(RuleEngineError::Evaluation(ref e)) if e == "cannot decide"));
    assert_eq!(a_seen.seen(), (1, 1));
    assert_eq!(b_seen.seen(), (1, 0));
    assert_eq!(c_seen.seen(), (0, 0));
}

#[test]
fn evaluate_all_fails_fast_on_application_error() {
    let (a, a_seen) = probe(1, Ok(true), Ok(1));
    let (b, b_seen) = probe(2, Ok(true), Err("cannot apply"));
    let (c, c_seen) = probe(3, Ok(true), Ok(3));
    let engine = RuleEngine::new(vec![c, b, a], None);
    let outcome = engine.evaluate_all(&0);
    assert!(matches!(outcome, Err(RuleEngineError::Application(ref e)) if e == "cannot apply"));
    assert_eq!(a_seen.seen(), (1, 1));
    assert_eq!(b_seen.seen(), (1, 1));
    assert_eq!(c_seen.seen(), (0, 0));
}

#[test]
fn evaluate_all_reports_the_first_of_two_failures() {
    let (a, _) = probe(1, Ok(true), Err("first"));
    let (b, b_seen) = probe(2, Err("second"), Ok(2));
    let engine = RuleEngine::new(vec![b, a], None);
    let outcome = engine.evaluate_all(&0);
    assert!(matches!(outcome, Err(RuleEngineError::Application(ref e)) if e == "first"));
    assert_eq!(b_seen.seen(), (0, 0));
}

#[test]
fn a_failure_behind_the_last_rule_that_ran_is_never_met() {
    let (a, _) = probe(1, Ok(true), Ok(1));
    let (b, b_seen) = probe(2, Err("unreached"), Ok(2));
    let engine = RuleEngine::new(vec![a, b], None);
    assert_eq!(engine.evaluate_first(&0).unwrap(), Some(1));
    assert_eq!(b_seen.seen(), (0, 0));
    assert!(engine.evaluate_all(&0).is_err());
}

#[test]
fn apply_is_not_called_after_a_failed_evaluate() {
    let (a, a_seen) = probe(1, Err("no verdict"), Err("no output"));
    let engine = RuleEngine::new(vec![a], None);
    assert!(matches!(
        engine.evaluate_all(&0),
        Err(RuleEngineError::Evaluation(ref e)) if e == "no verdict"
    ));
    assert!(matches!(
        engine.evaluate_first(&0),
        Err(RuleEngineError::Evaluation(ref e)) if e == "no verdict"
    ));
    assert_eq!(a_seen.seen(), (2, 0));
}

#[test]
fn evaluate_first_fails_on_evaluation_error_before_a_match() {
    let (a, _) = probe(1, Ok(false), Ok(1));
    let (b, _) = probe(2, Err("broken"), Ok(2));
    let (c, c_seen) = probe(3, Ok(true), Ok(3));
    let engine = RuleEngine::new(vec![a, b, c], None);
    let outcome = engine.evaluate_first(&0);
    assert!(matches!(outcome, Err(RuleEngineError::Evaluation(ref e)) if e == "broken"));
    assert_eq!(c_seen.seen(), (0, 0));
}

#[test]
fn evaluate_first_fails_when_the_first_match_cannot_apply() {
    let (a, _) = probe(1, Ok(true), Err("no output"));
    let (b, b_seen) = probe(2, Ok(true), Ok(2));
    let engine = RuleEngine::new(vec![a, b], None);
    let outcome = engine.evaluate_first(&0);
    assert!(matches!(outcome, Err(RuleEngineError::Application(ref e)) if e == "no output"));
    assert_eq!(b_seen.seen(), (0, 0));
}
