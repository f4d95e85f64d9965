use rule_kit::error::RuleEngineError;
use rule_kit::{MutableRule, MutableRuleEngine, PriorityOrder};
use std::cell::RefCell;
use std::rc::Rc;

#[derive(Debug, Clone, PartialEq)]
pub struct Account {
    pub balance: i64,
    pub flagged: bool,
    pub applied: Vec<String>,
}

fn account(balance: i64) -> Account {
    Account { balance, flagged: false, applied: Vec::new() }
}

/// What a step rule does when applied.
#[derive(Debug, Clone)]
pub enum Effect {
    Add(i64),
    Flag,
    Fail(&'static str),
    AddThenFail(i64, &'static str),
}

/// When a step rule applies.
#[derive(Debug, Clone)]
pub enum Condition {
    Always,
    Never,
    BalanceAtLeast(i64),
    Flagged,
    Broken(&'static str),
}

/// A rule made of a condition and an effect, which writes every call of its
/// methods to a shared journal and counts its own applications.
#[derive(Debug)]
pub struct Step {
    pub name: &'static str,
    pub priority: u32,
    pub condition: Condition,
    pub effect: Effect,
    pub times_applied: u32,
    pub journal: Rc<RefCell<Vec<String>>>,
}

impl Step {
    fn note(&self, what: &str) {
        self.journal.borrow_mut().push(format!("{}:{}", self.name, what));
    }
}

impl MutableRule<Account> for Step {
    type RuleError = String;

    fn name(&self) -> &str {
        self.name
    }

    fn priority(&self) -> u32 {
        self.priority
    }

    fn evaluate(&self, ctx: &Account) -> Result<bool, Self::RuleError> {
        self.note("evaluate");
        match self.condition {
            Condition::Always => Ok(true),
            Condition::Never => Ok(false),
            Condition::BalanceAtLeast(least) => Ok(ctx.balance >= least),
            Condition::Flagged => Ok(ctx.flagged),
            Condition::Broken(why) => Err(why.to_string()),
        }
    }

    fn apply(&mut self, ctx: &mut Account) -> Result<(), Self::RuleError> {
        self.note("apply");
        self.times_applied += 1;
        match self.effect {
            Effect::Add(amount) => {
                ctx.balance += amount;
                ctx.applied.push(self.name.to_string());
                Ok(())
            }
            Effect::Flag => {
                ctx.flagged = true;
                ctx.applied.push(self.name.to_string());
                Ok(())
            }
            Effect::Fail(why) => Err(why.to_string()),
            Effect::AddThenFail(amount, why) => {
                ctx.balance += amount;
                Err(why.to_string())
            }
        }
    }

    fn before_apply(&self, ctx: &Account) {
        self.note(&format!("before({})", ctx.balance));
    }

    fn after_apply(&self, ctx: &Account) {
        self.note(&format!("after({})", ctx.balance));
    }
}

/// A rule that keeps every provided method.
#[derive(Debug)]
pub struct Quiet;

impl MutableRule<Account> for Quiet {
    type RuleError = String;

    fn name(&self) -> &str {
        "Quiet"
    }

    fn evaluate(&self, _ctx: &Account) -> Result<bool, Self::RuleError> {
        Ok(true)
    }

    fn apply(&mut self, ctx: &mut Account) -> Result<(), Self::RuleError> {
        ctx.balance += 1;
        Ok(())
    }
}

fn step(
    journal: &Rc<RefCell<Vec<String>>>,
    name: &'static str,
    priority: u32,
    condition: Condition,
    effect: Effect,
) -> Step {
    Step { name, priority, condition, effect, times_applied: 0, journal: journal.clone() }
}

fn journal() -> Rc<RefCell<Vec<String>>> {
    Rc::new(RefCell::new(Vec::new()))
}

fn names(engine: &MutableRuleEngine<Account, Step>) -> Vec<&'static str> {
    engine.rules().iter().map(|rule| rule.name).collect()
}

#[test]
fn mutable_engine_ranks_like_the_pure_one() {
    let log = journal();
    let rules = vec![
        step(&log, "c", 3, Condition::Always, Effect::Add(1)),
        step(&log, "a", 1, Condition::Always, Effect::Add(1)),
        step(&log, "b1", 2, Condition::Always, Effect::Add(1)),
        step(&log, "b2", 2, Condition::Always, Effect::Add(1)),
    ];
    let engine = MutableRuleEngine::new(rules, None);
    assert_eq!(engine.order(), PriorityOrder::Asc);
    assert_eq!(names(&engine), vec!["a", "b1", "b2", "c"]);
    assert_eq!(engine.ranks(), &vec![1, 2, 2, 3]);
    assert_eq!(engine.rules()[0].name(), "a");

    let rules = vec![
        step(&log, "a", 1, Condition::Always, Effect::Add(1)),
        step(&log, "b1", 2, Condition::Always, Effect::Add(1)),
        step(&log, "c", 3, Condition::Always, Effect::Add(1)),
        step(&log, "b2", 2, Condition::Always, Effect::Add(1)),
    ];
    let engine = MutableRuleEngine::new(rules, Some(PriorityOrder::Desc));
    assert_eq!(engine.order(), PriorityOrder::Desc);
    assert_eq!(names(&engine), vec!["c", "b1", "b2", "a"]);
    assert_eq!(engine.ranks(), &vec![3, 2, 2, 1]);
}

#[test]
fn evaluate_all_mut_applies_matches_in_order() {
    let log = journal();
    let rules = vec![
        step(&log, "Age", 10, Condition::BalanceAtLeast(18), Effect::Add(0)),
        step(&log, "Score", 5, Condition::Always, Effect::Add(0)),
        step(&log, "Never", 7, Condition::Never, Effect::Add(1000)),
    ];
    let mut engine = MutableRuleEngine::new(rules, None);
    let mut ctx = account(20);
    assert!(matches!(engine.evaluate_all_mut(&mut ctx), Ok(())));
    assert_eq!(ctx.applied, vec!["Score", "Age"]);
    assert_eq!(ctx.balance, 20);
}

#[test]
fn later_rules_see_what_earlier_rules_did() {
    let log = journal();
    let rules = vec![
        step(&log, "reward", 2, Condition::Flagged, Effect::Add(100)),
        step(&log, "flag", 1, Condition::Always, Effect::Flag),
    ];
    let mut engine = MutableRuleEngine::new(rules, None);
    let mut ctx = account(0);
    assert!(!ctx.flagged);
    assert!(engine.evaluate_all_mut(&mut ctx).is_ok());
    assert!(ctx.flagged);
    assert_eq!(ctx.balance, 100);
    assert_eq!(ctx.applied, vec!["flag", "reward"]);
}

#[test]
fn earlier_rules_do_not_see_what_later_rules_do() {
    let log = journal();
    let rules = vec![
        step(&log, "reward", 1, Condition::Flagged, Effect::Add(100)),
        step(&log, "flag", 2, Condition::Always, Effect::Flag),
    ];
    let mut engine = MutableRuleEngine::new(rules, None);
    let mut ctx = account(0);
    assert!(engine.evaluate_all_mut(&mut ctx).is_ok());
    assert!(ctx.flagged);
    assert_eq!(ctx.balance, 0);
    assert_eq!(ctx.applied, vec!["flag"]);
    // the second pass starts from the context as the first one left it
    assert!(engine.evaluate_all_mut(&mut ctx).is_ok());
    assert_eq!(ctx.balance, 100);
}

#[test]
fn effects_accumulate_along_the_pass() {
    let log = journal();
    let rules = vec![
        step(&log, "one", 1, Condition::Always, Effect::Add(10)),
        step(&log, "two", 2, Condition::BalanceAtLeast(10), Effect::Add(10)),
        step(&log, "three", 3, Condition::BalanceAtLeast(20), Effect::Add(10)),
        step(&log, "four", 4, Condition::BalanceAtLeast(31), Effect::Add(10)),
    ];
    let mut engine = MutableRuleEngine::new(rules, None);
    let mut ctx = account(0);
    assert!(engine.evaluate_all_mut(&mut ctx).is_ok());
    assert_eq!(ctx.balance, 30);
    assert_eq!(ctx.applied, vec!["one", "two", "three"]);
}

#[test]
fn hooks_run_around_each_successful_apply() {
    let log = journal();
    let rules = vec![
        step(&log, "skip", 1, Condition::Never, Effect::Add(1)),
        step(&log, "add", 2, Condition::Always, Effect::Add(5)),
    ];
    let mut engine = MutableRuleEngine::new(rules, None);
    let mut ctx = account(1);
    assert!(engine.evaluate_all_mut(&mut ctx).is_ok());
    assert_eq!(
        *log.borrow(),
        vec!["skip:evaluate", "add:evaluate", "add:before(1)", "add:apply", "add:after(6)"]
    );
}

#[test]
fn hooks_are_skipped_when_apply_fails() {
    let log = journal();
    let rules = vec![step(&log, "bad", 1, Condition::Always, Effect::Fail("no"))];
    let mut engine = MutableRuleEngine::new(rules, None);
    let mut ctx = account(1);
    let result = engine.evaluate_all_mut(&mut ctx);
    assert!(matches!(result, Err(RuleEngineError::Application(ref e)) if e == "no"));
    assert_eq!(*log.borrow(), vec!["bad:evaluate", "bad:before(1)", "bad:apply"]);
}

#[test]
fn no_hook_and_no_apply_after_a_failed_evaluate() {
    let log = journal();
    let rules = vec![
        step(&log, "broken", 1, Condition::Broken("cannot decide"), Effect::Add(1)),
        step(&log, "next", 2, Condition::Always, Effect::Add(1)),
    ];
    let mut engine = MutableRuleEngine::new(rules, None);
    let mut ctx = account(0);
    let result = engine.evaluate_all_mut(&mut ctx);
    assert!(matches!(result, Err(RuleEngineError::Evaluation(ref e)) if e == "cannot decide"));
    assert_eq!(*log.borrow(), vec!["broken:evaluate"]);
    assert_eq!(ctx, account(0));
}

#[test]
fn evaluate_all_mut_fails_fast_and_keeps_earlier_effects() {
    let log = journal();
    let rules = vec![
        step(&log, "first", 1, Condition::Always, Effect::Add(10)),
        step(&log, "second", 2, Condition::Always, Effect::Fail("stop")),
        step(&log, "third", 3, Condition::Always, Effect::Add(100)),
    ];
    let mut engine = MutableRuleEngine::new(rules, None);
    let mut ctx = account(0);
    let result = engine.evaluate_all_mut(&mut ctx);
    assert!(matches!(result, Err(RuleEngineError::Application(ref e)) if e == "stop"));
    assert_eq!(ctx.balance, 10);
    assert_eq!(ctx.applied, vec!["first"]);
    let applied: Vec<u32> = engine.rules().iter().map(|rule| rule.times_applied).collect();
    assert_eq!(applied, vec![1, 1, 0]);
}

#[test]
fn a_failing_apply_leaves_what_it_already_wrote() {
    let log = journal();
    let rules = vec![step(&log, "half", 1, Condition::Always, Effect::AddThenFail(3, "late"))];
    let mut engine = MutableRuleEngine::new(rules, None);
    let mut ctx = account(1);
    let result = engine.evaluate_all_mut(&mut ctx);
    assert!(matches!(result, Err(RuleEngineError::Application(ref e)) if e == "late"));
    assert_eq!(ctx.balance, 4);
}

#[test]
fn rules_keep_their_own_state_and_their_slots() {
    let log = journal();
    let rules = vec![
        step(&log, "b", 2, Condition::BalanceAtLeast(1), Effect::Add(1)),
        step(&log, "a", 1, Condition::Always, Effect::Add(1)),
    ];
    let mut engine = MutableRuleEngine::new(rules, None);
    let mut ctx = account(0);
    for _ in 0..3 {
        assert!(engine.evaluate_all_mut(&mut ctx).is_ok());
    }
    assert_eq!(names(&engine), vec!["a", "b"]);
    assert_eq!(engine.ranks(), &vec![1, 2]);
    assert_eq!(engine.rules()[0].times_applied, 3);
    assert_eq!(engine.rules()[1].times_applied, 3);
    assert_eq!(ctx.balance, 6);
}

#[test]
fn evaluate_first_mut_applies_only_the_first_match() {
    let log = journal();
    let rules = vec![
        step(&log, "no", 1, Condition::Never, Effect::Add(1)),
        step(&log, "yes", 2, Condition::Always, Effect::Add(10)),
        step(&log, "later", 3, Condition::Always, Effect::Add(100)),
    ];
    let mut engine = MutableRuleEngine::new(rules, None);
    let mut ctx = account(0);
    assert!(matches!(engine.evaluate_first_mut(&mut ctx), Ok(true)));
    assert_eq!(ctx.balance, 10);
    assert_eq!(
        *log.borrow(),
        vec!["no:evaluate", "yes:evaluate", "yes:before(0)", "yes:apply", "yes:after(10)"]
    );
    let applied: Vec<u32> = engine.rules().iter().map(|rule| rule.times_applied).collect();
    assert_eq!(applied, vec![0, 1, 0]);
}

#[test]
fn evaluate_first_mut_without_a_match_is_false() {
    let log = journal();
    let rules = vec![
        step(&log, "no", 1, Condition::Never, Effect::Add(1)),
        step(&log, "poor", 2, Condition::BalanceAtLeast(5), Effect::Add(1)),
    ];
    let mut engine = MutableRuleEngine::new(rules, None);
    let mut ctx = account(0);
    assert!(matches!(engine.evaluate_first_mut(&mut ctx), Ok(false)));
    assert_eq!(ctx, account(0));
}

#[test]
fn evaluate_first_mut_reports_the_deciding_rule_s_failure() {
    let log = journal();
    let rules = vec![
        step(&log, "bad", 1, Condition::Always, Effect::Fail("cannot")),
        step(&log, "good", 2, Condition::Always, Effect::Add(1)),
    ];
    let mut engine = MutableRuleEngine::new(rules, None);
    let mut ctx = account(0);
    let result = engine.evaluate_first_mut(&mut ctx);
    assert!(matches!(result, Err(RuleEngineError::Application(ref e)) if e == "cannot"));
    assert_eq!(ctx.balance, 0);
    assert_eq!(engine.rules()[1].times_applied, 0);

    let rules = vec![
        step(&log, "broken", 1, Condition::Broken("undecided"), Effect::Add(1)),
        step(&log, "good", 2, Condition::Always, Effect::Add(1)),
    ];
    let mut engine = MutableRuleEngine::new(rules, None);
    let result = engine.evaluate_first_mut(&mut ctx);
    assert!(matches!(result, Err(RuleEngineError::Evaluation(ref e)) if e == "undecided"));
    assert_eq!(ctx.balance, 0);
}

#[test]
fn evaluate_first_mut_follows_descending_order() {
    let log = journal();
    let rules = vec![
        step(&log, "small", 1, Condition::Always, Effect::Add(1)),
        step(&log, "big", 9, Condition::Always, Effect::Add(9)),
    ];
    let mut engine = MutableRuleEngine::new(rules, Some(PriorityOrder::Desc));
    let mut ctx = account(0);
    assert!(matches!(engine.evaluate_first_mut(&mut ctx), Ok(true)));
    assert_eq!(ctx.balance, 9);
}

#[test]
fn empty_mutable_engine_changes_nothing() {
    let mut engine: MutableRuleEngine<Account, Step> = MutableRuleEngine::new(Vec::new(), None);
    let mut ctx = account(5);
    assert!(matches!(engine.evaluate_all_mut(&mut ctx), Ok(())));
    assert!(matches!(engine.evaluate_first_mut(&mut ctx), Ok(false)));
    assert_eq!(ctx, account(5));
    assert!(engine.rules().is_empty());
    assert!(engine.ranks().is_empty());
}

#[test]
fn provided_methods_rank_at_zero_and_do_nothing() {
    assert_eq!(Quiet.priority(), 0);
    let ctx = account(0);
    Quiet.before_apply(&ctx);
    Quiet.after_apply(&ctx);
    assert_eq!(ctx, account(0));
    let mut engine = MutableRuleEngine::new(vec![Quiet, Quiet], Some(PriorityOrder::Desc));
    assert_eq!(engine.ranks(), &vec![0, 0]);
    let mut ctx = account(0);
    assert!(engine.evaluate_all_mut(&mut ctx).is_ok());
    assert_eq!(ctx.balance, 2);
    assert!(matches!(engine.evaluate_first_mut(&mut ctx), Ok(true)));
    assert_eq!(ctx.balance, 3);
}
