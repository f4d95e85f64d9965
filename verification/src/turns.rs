//! What a pass of mutating rules does to the rules and to the context, stated
//! over the turns that the rules took and the contexts that they left to each
//! other.

use vstd::prelude::*;
use crate::error::RuleEngineError;
use crate::firing::{failure, runs_to_failure, runs_to_match, Firing};
use crate::ranking::is_stable_ranking;
use crate::traits::MutableRule;
use crate::utils::PriorityOrder;

verus! {

/// Whether `rule`, meeting the context `ctx`, may take `turn`, which leaves
/// the rule as `rule_after` and the context as `ctx_after`. A rule that is
/// skipped, or whose `evaluate` fails, changes nothing; `apply` runs only on
/// a context of which `evaluate` said `true`, and whatever it returns, rule
/// and context are left as it left them.
pub open spec fn takes_turn<C, R: MutableRule<C>>(
    rule: R,
    ctx: C,
    rule_after: R,
    ctx_after: C,
    turn: Firing<(), R::RuleError>,
) -> bool {
    match turn {
        Firing::Skipped => {
            &&& call_ensures(R::evaluate, (&rule, &ctx), Ok::<bool, R::RuleError>(false))
            &&& rule_after == rule
            &&& ctx_after == ctx
        },
        Firing::Fired(_) => {
            &&& call_ensures(R::evaluate, (&rule, &ctx), Ok::<bool, R::RuleError>(true))
            &&& rule.application(&ctx, &rule_after, &ctx_after, Ok(()))
        },
        Firing::Failed(RuleEngineError::Evaluation(e)) => {
            &&& call_ensures(R::evaluate, (&rule, &ctx), Err::<bool, R::RuleError>(e))
            &&& rule_after == rule
            &&& ctx_after == ctx
        },
        Firing::Failed(RuleEngineError::Application(e)) => {
            &&& call_ensures(R::evaluate, (&rule, &ctx), Ok::<bool, R::RuleError>(true))
            &&& rule.application(&ctx, &rule_after, &ctx_after, Err(e))
        },
        Firing::Failed(RuleEngineError::Unknown) => false,
    }
}

/// Whether the first `turns.len()` of `rules` may have taken `turns`, one
/// after the other: rule `i` met the context `trace[i]` and left
/// `trace[i + 1]` to the next, so each rule is evaluated on what the rules
/// before it made of the context, not on the context the pass began with.
/// The rules behind them had no turn and are as they were.
pub open spec fn is_pass<C, R: MutableRule<C>>(
    rules: Seq<R>,
    rules_after: Seq<R>,
    trace: Seq<C>,
    turns: Seq<Firing<(), R::RuleError>>,
) -> bool {
    &&& rules_after.len() == rules.len()
    &&& turns.len() <= rules.len()
    &&& trace.len() == turns.len() + 1
    &&& forall|i: int|
        0 <= i < turns.len() ==> takes_turn(
            rules[i],
            trace[i],
            rules_after[i],
            trace[i + 1],
            #[trigger] turns[i],
        )
    &&& forall|i: int| turns.len() <= i < rules.len() ==> #[trigger] rules_after[i] == rules[i]
}

/// What a pass that applies every match returns: the error that ended it, or
/// nothing.
pub open spec fn all_result<E>(turns: Seq<Firing<(), E>>) -> Result<(), RuleEngineError<E>> {
    match failure(turns) {
        Some(error) => Err(error),
        None => Ok(()),
    }
}

/// What a pass that stops at the first match returns: the error that ended
/// it, or whether a rule was applied.
pub open spec fn first_result<E>(turns: Seq<Firing<(), E>>) -> Result<bool, RuleEngineError<E>> {
    match failure(turns) {
        Some(error) => Err(error),
        None => Ok(turns.len() > 0 && turns.last() is Fired),
    }
}

/// Whether a pass that applies every match may take `rules` and `ctx` to
/// `rules_after` and `ctx_after` and return `result`.
pub open spec fn is_full_pass<C, R: MutableRule<C>>(
    rules: Seq<R>,
    ctx: C,
    rules_after: Seq<R>,
    ctx_after: C,
    result: Result<(), RuleEngineError<R::RuleError>>,
) -> bool {
    exists|trace: Seq<C>, turns: Seq<Firing<(), R::RuleError>>|
        {
            &&& #[trigger] is_pass(rules, rules_after, trace, turns)
            &&& trace.first() == ctx
            &&& trace.last() == ctx_after
            &&& runs_to_failure(turns, rules.len())
            &&& result == all_result(turns)
        }
}

/// Whether a pass that stops at the first match may take `rules` and `ctx`
/// to `rules_after` and `ctx_after` and return `result`.
pub open spec fn is_first_pass<C, R: MutableRule<C>>(
    rules: Seq<R>,
    ctx: C,
    rules_after: Seq<R>,
    ctx_after: C,
    result: Result<bool, RuleEngineError<R::RuleError>>,
) -> bool {
    exists|trace: Seq<C>, turns: Seq<Firing<(), R::RuleError>>|
        {
            &&& #[trigger] is_pass(rules, rules_after, trace, turns)
            &&& trace.first() == ctx
            &&& trace.last() == ctx_after
            &&& runs_to_match(turns, rules.len())
            &&& result == first_result(turns)
        }
}

/// A rule has its turn on the context as the rules before it left it: that
/// context comes of a pass of those rules alone, and where the rule's
/// `evaluate` can only say `true` of it, the rule is applied to it, whatever
/// it would have said of the context that the pass began with.
pub proof fn lemma_rule_meets_what_earlier_rules_left<C, R: MutableRule<C>>(
    rules: Seq<R>,
    rules_after: Seq<R>,
    trace: Seq<C>,
    turns: Seq<Firing<(), R::RuleError>>,
    at: int,
)
    requires
        is_pass(rules, rules_after, trace, turns),
        0 <= at < turns.len(),
    ensures
        is_pass(rules.take(at), rules_after.take(at), trace.take(at + 1), turns.take(at)),
        takes_turn(rules[at], trace[at], rules_after[at], trace[at + 1], turns[at]),
        (forall|verdict: Result<bool, R::RuleError>|
            call_ensures(R::evaluate, (&rules[at], &trace[at]), verdict) ==> verdict == Ok::<
                bool,
                R::RuleError,
            >(true)) ==> match turns[at] {
            Firing::Fired(_) => rules[at].application(
                &trace[at],
                &rules_after[at],
                &trace[at + 1],
                Ok(()),
            ),
            Firing::Failed(RuleEngineError::Application(e)) => rules[at].application(
                &trace[at],
                &rules_after[at],
                &trace[at + 1],
                Err(e),
            ),
            _ => false,
        },
{
    assert forall|i: int| 0 <= i < at implies takes_turn(
        rules.take(at)[i],
        trace.take(at + 1)[i],
        rules_after.take(at)[i],
        trace.take(at + 1)[i + 1],
        #[trigger] turns.take(at)[i],
    ) by {
        assert(takes_turn(rules[i], trace[i], rules_after[i], trace[i + 1], turns[i]));
    }
}

/// A pass ends with the first turn that fails: the rules behind it are as
/// they were, the context is as that turn left it, and the error is all that
/// the pass returns.
pub proof fn lemma_failure_ends_the_pass_at_once<C, R: MutableRule<C>>(
    rules: Seq<R>,
    rules_after: Seq<R>,
    trace: Seq<C>,
    turns: Seq<Firing<(), R::RuleError>>,
    at: int,
)
    requires
        is_pass(rules, rules_after, trace, turns),
        runs_to_failure(turns, rules.len()),
        0 <= at < turns.len(),
        turns[at] is Failed,
    ensures
        at == turns.len() - 1,
        trace.last() == trace[at + 1],
        forall|i: int| at < i < rules.len() ==> #[trigger] rules_after[i] == rules[i],
        all_result(turns) == Err::<(), RuleEngineError<R::RuleError>>(turns[at]->Failed_0),
{
}

/// Whether each of `rules` can take one turn only on any context: the
/// context decides what the rule does and how it leaves rule and context.
pub open spec fn turns_are_determined<C, R: MutableRule<C>>(rules: Seq<R>) -> bool {
    forall|
        i: int,
        ctx: C,
        rule_after: R,
        ctx_after: C,
        turn: Firing<(), R::RuleError>,
        other_rule_after: R,
        other_ctx_after: C,
        other_turn: Firing<(), R::RuleError>,
    |
        0 <= i < rules.len() && #[trigger] takes_turn(rules[i], ctx, rule_after, ctx_after, turn)
            && #[trigger] takes_turn(
            rules[i],
            ctx,
            other_rule_after,
            other_ctx_after,
            other_turn,
        ) ==> rule_after == other_rule_after && ctx_after == other_ctx_after && turn
            == other_turn
}

/// Two passes of the same rules that begin with the same context agree as far
/// as both get, where each rule can take one turn only.
proof fn lemma_passes_agree<C, R: MutableRule<C>>(
    rules: Seq<R>,
    rules_after: Seq<R>,
    trace: Seq<C>,
    turns: Seq<Firing<(), R::RuleError>>,
    other_rules_after: Seq<R>,
    other_trace: Seq<C>,
    other_turns: Seq<Firing<(), R::RuleError>>,
    upto: int,
)
    requires
        turns_are_determined(rules),
        is_pass(rules, rules_after, trace, turns),
        is_pass(rules, other_rules_after, other_trace, other_turns),
        trace.first() == other_trace.first(),
        0 <= upto <= turns.len(),
        upto <= other_turns.len(),
    ensures
        trace[upto] == other_trace[upto],
        forall|i: int|
            0 <= i < upto ==> turns[i] == other_turns[i] && rules_after[i] == other_rules_after[i],
    decreases upto,
{
    if upto > 0 {
        let at = upto - 1;
        lemma_passes_agree(
            rules,
            rules_after,
            trace,
            turns,
            other_rules_after,
            other_trace,
            other_turns,
            at,
        );
        assert(takes_turn(rules[at], trace[at], rules_after[at], trace[at + 1], turns[at]));
        assert(takes_turn(
            rules[at],
            other_trace[at],
            other_rules_after[at],
            other_trace[at + 1],
            other_turns[at],
        ));
    }
}

/// Where each rule can take one turn only on any context, a pass does one
/// thing only: it leaves the rules and the context in one state and returns
/// one result.
pub proof fn lemma_passes_are_determined<C, R: MutableRule<C>>(
    rules: Seq<R>,
    ctx: C,
    rules_after: Seq<R>,
    ctx_after: C,
    other_rules_after: Seq<R>,
    other_ctx_after: C,
    all: Result<(), RuleEngineError<R::RuleError>>,
    other_all: Result<(), RuleEngineError<R::RuleError>>,
    first: Result<bool, RuleEngineError<R::RuleError>>,
    other_first: Result<bool, RuleEngineError<R::RuleError>>,
)
    requires
        turns_are_determined(rules),
    ensures
        is_full_pass(rules, ctx, rules_after, ctx_after, all) && is_full_pass(
            rules,
            ctx,
            other_rules_after,
            other_ctx_after,
            other_all,
        ) ==> rules_after == other_rules_after && ctx_after == other_ctx_after && all == other_all,
        is_first_pass(rules, ctx, rules_after, ctx_after, first) && is_first_pass(
            rules,
            ctx,
            other_rules_after,
            other_ctx_after,
            other_first,
        ) ==> rules_after == other_rules_after && ctx_after == other_ctx_after && first
            == other_first,
{
    if is_full_pass(rules, ctx, rules_after, ctx_after, all) && is_full_pass(
        rules,
        ctx,
        other_rules_after,
        other_ctx_after,
        other_all,
    ) {
        let (trace, turns) = choose|trace: Seq<C>, turns: Seq<Firing<(), R::RuleError>>|
            #[trigger] is_pass(rules, rules_after, trace, turns) && trace.first() == ctx
                && trace.last() == ctx_after && runs_to_failure(turns, rules.len()) && all
                == all_result(turns);
        let (other_trace, other_turns) = choose|
            trace: Seq<C>,
            turns: Seq<Firing<(), R::RuleError>>,
        |
            #[trigger] is_pass(rules, other_rules_after, trace, turns) && trace.first() == ctx
                && trace.last() == other_ctx_after && runs_to_failure(turns, rules.len())
                && other_all == all_result(turns);
        let common = if turns.len() <= other_turns.len() {
            turns.len() as int
        } else {
            other_turns.len() as int
        };
        lemma_passes_agree(
            rules,
            rules_after,
            trace,
            turns,
            other_rules_after,
            other_trace,
            other_turns,
            common,
        );
    }
    if is_first_pass(rules, ctx, rules_after, ctx_after, first) && is_first_pass(
        rules,
        ctx,
        other_rules_after,
        other_ctx_after,
        other_first,
    ) {
        let (trace, turns) = choose|trace: Seq<C>, turns: Seq<Firing<(), R::RuleError>>|
            #[trigger] is_pass(rules, rules_after, trace, turns) && trace.first() == ctx
                && trace.last() == ctx_after && runs_to_match(turns, rules.len()) && first
                == first_result(turns);
        let (other_trace, other_turns) = choose|
            trace: Seq<C>,
            turns: Seq<Firing<(), R::RuleError>>,
        |
            #[trigger] is_pass(rules, other_rules_after, trace, turns) && trace.first() == ctx
                && trace.last() == other_ctx_after && runs_to_match(turns, rules.len())
                && other_first == first_result(turns);
        let common = if turns.len() <= other_turns.len() {
            turns.len() as int
        } else {
            other_turns.len() as int
        };
        lemma_passes_agree(
            rules,
            rules_after,
            trace,
            turns,
            other_rules_after,
            other_trace,
            other_turns,
            common,
        );
    }
}

/// No pass ends with [`RuleEngineError::Unknown`]: an error that a pass
/// returns is the error of a step of one of its rules.
pub proof fn lemma_no_pass_fails_unknown<C, R: MutableRule<C>>(
    rules: Seq<R>,
    ctx: C,
    rules_after: Seq<R>,
    ctx_after: C,
    all: Result<(), RuleEngineError<R::RuleError>>,
    first: Result<bool, RuleEngineError<R::RuleError>>,
)
    ensures
        is_full_pass(rules, ctx, rules_after, ctx_after, all) && all is Err ==> !(all->Err_0
            is Unknown),
        is_first_pass(rules, ctx, rules_after, ctx_after, first) && first is Err ==> !(
        first->Err_0 is Unknown),
{
}

/// An engine made of no rules has no rules, and its passes leave every
/// context as it is and report that nothing was applied.
pub proof fn lemma_no_rules_no_effect<C, R: MutableRule<C>>(
    given: Seq<R>,
    ranked: Seq<R>,
    ranks: Seq<u32>,
    order: PriorityOrder,
    ctx: C,
    rules_after: Seq<R>,
    ctx_after: C,
    all: Result<(), RuleEngineError<R::RuleError>>,
    first: Result<bool, RuleEngineError<R::RuleError>>,
)
    requires
        given.len() == 0,
        is_stable_ranking(given, ranked, ranks, order),
    ensures
        ranked.len() == 0,
        is_full_pass(ranked, ctx, rules_after, ctx_after, all) <==> rules_after.len() == 0
            && ctx_after == ctx && all == Ok::<(), RuleEngineError<R::RuleError>>(()),
        is_first_pass(ranked, ctx, rules_after, ctx_after, first) <==> rules_after.len() == 0
            && ctx_after == ctx && first == Ok::<bool, RuleEngineError<R::RuleError>>(false),
{
    if rules_after.len() == 0 && ctx_after == ctx {
        // the one pass over no rules has no turns and one context
        assert(is_pass(ranked, rules_after, seq![ctx], Seq::<Firing<(), R::RuleError>>::empty()));
    }
}

} // verus!
