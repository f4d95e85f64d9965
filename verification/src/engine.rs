//! The engines: a rule sequence ranked once, at construction, and the passes
//! that run it against a context.

use vstd::prelude::*;
use std::marker::PhantomData;
use crate::error::RuleEngineError;
use crate::firing::{is_first_round, is_full_round, is_round, may_fire, outputs, Firing};
use crate::ranking::{is_ranked, is_stable_ranking, rank_stably};
use crate::traits::{reports, reports_mut, MutableRule, Rule};
use crate::turns::{is_first_pass, is_full_pass, is_pass, takes_turn};
use crate::utils::PriorityOrder;

verus! {

/// An engine of pure rules: it reads a context and collects what its rules
/// compute from it.
#[derive(Debug)]
pub struct RuleEngine<C, R: Rule<C>> {
    rules: Vec<R>,
    order: PriorityOrder,
    ranks: Vec<u32>,
    marker: PhantomData<C>,
}

impl<C, R: Rule<C>> RuleEngine<C, R> {
    /// What `rules` returns.
    pub closed spec fn spec_rules(&self) -> &Vec<R> {
        &self.rules
    }

    /// What `ranks` returns.
    pub closed spec fn spec_ranks(&self) -> &Vec<u32> {
        &self.ranks
    }

    /// What `order` returns.
    pub closed spec fn spec_order(&self) -> PriorityOrder {
        self.order
    }

    #[verifier::type_invariant]
    spec fn well_ranked(self) -> bool {
        &&& self.ranks@.len() == self.rules@.len()
        &&& is_ranked(self.ranks@, self.order)
        &&& forall|i: int| 0 <= i < self.rules@.len() ==> reports(&self.rules@[i], self.ranks@[i])
    }

    /// Makes an engine of `rules`, ranked by the priority that each reports,
    /// in `order` or, where none is given, ascending. Rules of equal priority
    /// keep the order in which they were given.
    pub fn new(rules: Vec<R>, order: Option<PriorityOrder>) -> (engine: Self)
        ensures
            engine.order() == match order {
                Some(chosen) => chosen,
                None => PriorityOrder::Asc,
            },
            is_stable_ranking(rules@, engine.rules()@, engine.ranks()@, engine.order()),
            forall|i: int|
                0 <= i < engine.rules()@.len() ==> reports(&engine.rules()@[i], engine.ranks()@[i]),
    {
        let order = match order {
            Some(chosen) => chosen,
            None => PriorityOrder::default(),
        };
        let read = |rule: &R| -> (rank: u32)
            ensures
                reports(rule, rank),
            { rule.priority() };
        let (rules, ranks) = rank_stably(rules, read, order);
        RuleEngine { rules, order, ranks, marker: PhantomData }
    }

    /// The rules in the order in which every pass visits them. Whoever holds
    /// an engine learns here that it is ranked as it was when it was made:
    /// its ranks run in its order, and each is one that its rule reports.
    #[verifier::when_used_as_spec(spec_rules)]
    pub fn rules(&self) -> (rules: &Vec<R>)
        ensures
            rules == self.rules(),
            self.ranks()@.len() == self.rules()@.len(),
            is_ranked(self.ranks()@, self.order()),
            forall|i: int|
                0 <= i < self.rules()@.len() ==> reports(&self.rules()@[i], self.ranks()@[i]),
    {
        proof {
            use_type_invariant(self);
        }
        &self.rules
    }

    /// The priority that each rule reported when the engine was made, slot by
    /// slot.
    #[verifier::when_used_as_spec(spec_ranks)]
    pub fn ranks(&self) -> (ranks: &Vec<u32>)
        ensures
            ranks == self.ranks(),
    {
        &self.ranks
    }

    /// The order in which the engine was asked to rank its rules.
    #[verifier::when_used_as_spec(spec_order)]
    pub fn order(&self) -> (order: PriorityOrder)
        ensures
            order == self.order(),
    {
        self.order
    }

    /// Gives every rule its turn on `ctx`, in the engine's order, and collects
    /// the outputs of those that fire. The first rule whose `evaluate` or
    /// `apply` fails ends the pass: its error is returned and no output is.
    pub fn evaluate_all(&self, ctx: &C) -> (outcome: Result<
        Vec<R::Output>,
        RuleEngineError<R::RuleError>,
    >)
        ensures
            is_full_round(
                self.rules()@,
                ctx,
                match outcome {
                    Ok(outputs) => Ok(outputs@),
                    Err(error) => Err(error),
                },
            ),
            outcome matches Err(error) ==> !(error is Unknown),
    {
        let mut collected: Vec<R::Output> = Vec::new();
        let ghost mut firings: Seq<Firing<R::Output, R::RuleError>> = Seq::empty();
        let mut at: usize = 0;
        while at < self.rules.len()
            invariant
                at <= self.rules@.len(),
                firings.len() == at,
                is_round(self.rules@, ctx, firings),
                forall|i: int| 0 <= i < at ==> !(#[trigger] firings[i] is Failed),
                collected@ == outputs(firings),
            decreases self.rules@.len() - at,
        {
            let fired = fire(&self.rules[at], ctx);
            proof {
                assert(firings.push(fired).drop_last() == firings);
                firings = firings.push(fired);
            }
            match fired {
                Firing::Skipped => {},
                Firing::Fired(output) => {
                    collected.push(output);
                },
                Firing::Failed(error) => {
                    proof {
                        assert(is_round(self.rules@, ctx, firings));
                    }
                    return Err(error);
                },
            }
            at = at + 1;
        }
        Ok(collected)
    }

    /// Gives the rules their turn on `ctx`, in the engine's order, up to the
    /// first that is not skipped, and returns what that rule computes. Its
    /// failure is the pass's failure; no rule after it is consulted.
    pub fn evaluate_first(&self, ctx: &C) -> (outcome: Result<
        Option<R::Output>,
        RuleEngineError<R::RuleError>,
    >)
        ensures
            is_first_round(self.rules()@, ctx, outcome),
            outcome matches Err(error) ==> !(error is Unknown),
    {
        let ghost mut firings: Seq<Firing<R::Output, R::RuleError>> = Seq::empty();
        let mut at: usize = 0;
        while at < self.rules.len()
            invariant
                at <= self.rules@.len(),
                firings.len() == at,
                is_round(self.rules@, ctx, firings),
                forall|i: int| 0 <= i < at ==> #[trigger] firings[i] is Skipped,
            decreases self.rules@.len() - at,
        {
            let fired = fire(&self.rules[at], ctx);
            proof {
                firings = firings.push(fired);
            }
            match fired {
                Firing::Skipped => {},
                Firing::Fired(output) => {
                    proof {
                        assert(is_round(self.rules@, ctx, firings));
                    }
                    return Ok(Some(output));
                },
                Firing::Failed(error) => {
                    proof {
                        assert(is_round(self.rules@, ctx, firings));
                    }
                    return Err(error);
                },
            }
            at = at + 1;
        }
        Ok(None)
    }
}

/// Gives one rule its turn on `ctx`: `evaluate`, and `apply` only where that
/// returned `true`.
fn fire<C, R: Rule<C>>(rule: &R, ctx: &C) -> (fired: Firing<R::Output, R::RuleError>)
    ensures
        may_fire(rule, ctx, fired),
{
    match rule.evaluate(ctx) {
        Err(e) => Firing::Failed(RuleEngineError::Evaluation(e)),
        Ok(false) => Firing::Skipped,
        Ok(true) => match rule.apply(ctx) {
            Ok(output) => Firing::Fired(output),
            Err(e) => Firing::Failed(RuleEngineError::Application(e)),
        },
    }
}

/// An engine of mutating rules: its rules change the context in place, each
/// meeting it as the rules before left it.
#[derive(Debug)]
pub struct MutableRuleEngine<C, R> {
    rules: Vec<R>,
    order: PriorityOrder,
    ranks: Vec<u32>,
    marker: PhantomData<C>,
}

impl<C, R: MutableRule<C>> MutableRuleEngine<C, R> {
    /// What `rules` returns.
    pub closed spec fn spec_rules(&self) -> &Vec<R> {
        &self.rules
    }

    /// What `ranks` returns.
    pub closed spec fn spec_ranks(&self) -> &Vec<u32> {
        &self.ranks
    }

    /// What `order` returns.
    pub closed spec fn spec_order(&self) -> PriorityOrder {
        self.order
    }

    /// Makes an engine of `rules`, ranked by the priority that each reports,
    /// in `order` or, where none is given, ascending. Rules of equal priority
    /// keep the order in which they were given.
    pub fn new(rules: Vec<R>, order: Option<PriorityOrder>) -> (engine: Self)
        ensures
            engine.order() == match order {
                Some(chosen) => chosen,
                None => PriorityOrder::Asc,
            },
            is_stable_ranking(rules@, engine.rules()@, engine.ranks()@, engine.order()),
            forall|i: int|
                0 <= i < engine.rules()@.len() ==> reports_mut(
                    &engine.rules()@[i],
                    engine.ranks()@[i],
                ),
    {
        let order = match order {
            Some(chosen) => chosen,
            None => PriorityOrder::default(),
        };
        let read = |rule: &R| -> (rank: u32)
            ensures
                reports_mut(rule, rank),
            { rule.priority() };
        let (rules, ranks) = rank_stably(rules, read, order);
        MutableRuleEngine { rules, order, ranks, marker: PhantomData }
    }

    /// The rules in the order in which every pass visits them, each as the
    /// passes so far have left it.
    #[verifier::when_used_as_spec(spec_rules)]
    pub fn rules(&self) -> (rules: &Vec<R>)
        ensures
            rules == self.rules(),
    {
        &self.rules
    }

    /// The priority that each rule reported when the engine was made, slot by
    /// slot. No pass ranks the rules anew, whatever they come to report.
    #[verifier::when_used_as_spec(spec_ranks)]
    pub fn ranks(&self) -> (ranks: &Vec<u32>)
        ensures
            ranks == self.ranks(),
    {
        &self.ranks
    }

    /// The order in which the engine was asked to rank its rules.
    #[verifier::when_used_as_spec(spec_order)]
    pub fn order(&self) -> (order: PriorityOrder)
        ensures
            order == self.order(),
    {
        self.order
    }

    /// Gives every rule its turn on `ctx`, in the engine's order: a rule that
    /// evaluates to `true` on the context as it then is gets applied to it.
    /// The first rule whose `evaluate` or `apply` fails ends the pass with
    /// its error; what was done to the context up to there stays done.
    pub fn evaluate_all_mut(&mut self, ctx: &mut C) -> (result: Result<
        (),
        RuleEngineError<R::RuleError>,
    >)
        ensures
            final(self).order() == old(self).order(),
            final(self).ranks() == old(self).ranks(),
            is_full_pass(old(self).rules()@, *old(ctx), final(self).rules()@, *final(ctx), result),
            result matches Err(error) ==> !(error is Unknown),
    {
        let ghost rules = self.rules@;
        let ghost mut trace: Seq<C> = seq![*ctx];
        let ghost mut turns: Seq<Firing<(), R::RuleError>> = Seq::empty();
        let mut at: usize = 0;
        while at < self.rules.len()
            invariant
                self.order == old(self).order,
                self.ranks == old(self).ranks,
                rules == old(self).rules@,
                self.rules@.len() == rules.len(),
                at <= rules.len(),
                turns.len() == at,
                trace.len() == at + 1,
                trace.first() == *old(ctx),
                trace.last() == *ctx,
                forall|i: int|
                    0 <= i < at ==> takes_turn(
                        rules[i],
                        trace[i],
                        self.rules@[i],
                        trace[i + 1],
                        #[trigger] turns[i],
                    ) && !(turns[i] is Failed),
                forall|i: int| at <= i < rules.len() ==> #[trigger] self.rules@[i] == rules[i],
            decreases rules.len() - at,
        {
            let turn = take_turn(&mut self.rules[at], ctx);
            proof {
                trace = trace.push(*ctx);
                turns = turns.push(turn);
            }
            match turn {
                Firing::Failed(error) => {
                    proof {
                        assert(is_pass(rules, self.rules@, trace, turns));
                    }
                    return Err(error);
                },
                _ => {},
            }
            at = at + 1;
        }
        proof {
            assert(is_pass(rules, self.rules@, trace, turns));
        }
        Ok(())
    }

    /// Gives the rules their turn on `ctx`, in the engine's order, up to the
    /// first that evaluates to `true`, and applies that one. Returns whether
    /// a rule was applied; the failure of the rule that decides is the
    /// pass's failure, and no rule after it is consulted.
    pub fn evaluate_first_mut(&mut self, ctx: &mut C) -> (result: Result<
        bool,
        RuleEngineError<R::RuleError>,
    >)
        ensures
            final(self).order() == old(self).order(),
            final(self).ranks() == old(self).ranks(),
            is_first_pass(old(self).rules()@, *old(ctx), final(self).rules()@, *final(ctx), result),
            result matches Err(error) ==> !(error is Unknown),
    {
        let ghost rules = self.rules@;
        let ghost mut trace: Seq<C> = seq![*ctx];
        let ghost mut turns: Seq<Firing<(), R::RuleError>> = Seq::empty();
        let mut at: usize = 0;
        while at < self.rules.len()
            invariant
                self.order == old(self).order,
                self.ranks == old(self).ranks,
                rules == old(self).rules@,
                self.rules@.len() == rules.len(),
                at <= rules.len(),
                turns.len() == at,
                trace.len() == at + 1,
                trace.first() == *old(ctx),
                trace.last() == *ctx,
                forall|i: int|
                    0 <= i < at ==> takes_turn(
                        rules[i],
                        trace[i],
                        self.rules@[i],
                        trace[i + 1],
                        #[trigger] turns[i],
                    ) && turns[i] is Skipped,
                forall|i: int| at <= i < rules.len() ==> #[trigger] self.rules@[i] == rules[i],
            decreases rules.len() - at,
        {
            let turn = take_turn(&mut self.rules[at], ctx);
            proof {
                trace = trace.push(*ctx);
                turns = turns.push(turn);
            }
            match turn {
                Firing::Skipped => {},
                Firing::Fired(_) => {
                    proof {
                        assert(is_pass(rules, self.rules@, trace, turns));
                    }
                    return Ok(true);
                },
                Firing::Failed(error) => {
                    proof {
                        assert(is_pass(rules, self.rules@, trace, turns));
                    }
                    return Err(error);
                },
            }
            at = at + 1;
        }
        proof {
            assert(is_pass(rules, self.rules@, trace, turns));
        }
        Ok(false)
    }
}

/// Gives one rule its turn on `ctx`: `evaluate`, and, only where that
/// returned `true`, `before_apply`, `apply` and, if that succeeded,
/// `after_apply`.
fn take_turn<C, R: MutableRule<C>>(rule: &mut R, ctx: &mut C) -> (turn: Firing<(), R::RuleError>)
    ensures
        takes_turn(*old(rule), *old(ctx), *final(rule), *final(ctx), turn),
{
    match rule.evaluate(ctx) {
        Err(e) => Firing::Failed(RuleEngineError::Evaluation(e)),
        Ok(false) => Firing::Skipped,
        Ok(true) => {
            rule.before_apply(ctx);
            let applied = rule.apply(ctx);
            match applied {
                Ok(_) => {
                    proof {
                        lemma_only_one_success(applied);
                    }
                    rule.after_apply(ctx);
                    Firing::Fired(())
                },
                Err(e) => Firing::Failed(RuleEngineError::Application(e)),
            }
        },
    }
}

/// A success that carries nothing is the one value `Ok(())`.
proof fn lemma_only_one_success<E>(result: Result<(), E>)
    requires
        result is Ok,
    ensures
        result == Ok::<(), E>(()),
{
    assert(result->Ok_0 == ());
}

} // verus!
