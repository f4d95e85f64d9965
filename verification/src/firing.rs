//! What a pass over the rules yields, stated over what each rule did when its
//! turn came. A pass of pure rules, which read the context and leave it as it
//! is, is called a round here; what a pass of mutating rules does is stated
//! in [`crate::turns`].

use vstd::prelude::*;
use crate::error::RuleEngineError;
use crate::ranking::is_stable_ranking;
use crate::traits::Rule;
use crate::utils::PriorityOrder;

verus! {

/// What one rule does when its turn comes.
pub enum Firing<O, E> {
    /// The rule evaluated to `false`: it is passed over.
    Skipped,
    /// The rule evaluated to `true` and its `apply` succeeded, with this
    /// result.
    Fired(O),
    /// One of the rule's two steps failed: the pass ends with this error.
    Failed(RuleEngineError<E>),
}

/// Whether `firings` is how a pass over `count` rules that applies every
/// match may run: it ends with the first turn that fails, and not before the
/// last rule otherwise.
pub open spec fn runs_to_failure<O, E>(firings: Seq<Firing<O, E>>, count: nat) -> bool {
    &&& firings.len() <= count
    &&& forall|i: int| 0 <= i < firings.len() - 1 ==> !(#[trigger] firings[i] is Failed)
    &&& firings.len() < count ==> firings.len() > 0 && firings.last() is Failed
}

/// Whether `firings` is how a pass over `count` rules that stops at the first
/// match may run: it ends with the first turn that is not skipped, and not
/// before the last rule otherwise.
pub open spec fn runs_to_match<O, E>(firings: Seq<Firing<O, E>>, count: nat) -> bool {
    &&& firings.len() <= count
    &&& forall|i: int| 0 <= i < firings.len() - 1 ==> #[trigger] firings[i] is Skipped
    &&& firings.len() < count ==> firings.len() > 0 && !(firings.last() is Skipped)
}

/// The error that ended the pass, if its last turn failed.
pub open spec fn failure<O, E>(firings: Seq<Firing<O, E>>) -> Option<RuleEngineError<E>> {
    if firings.len() > 0 {
        match firings.last() {
            Firing::Failed(error) => Some(error),
            _ => None,
        }
    } else {
        None
    }
}

/// The outputs of the turns that fired, in the order of the turns.
pub open spec fn outputs<O, E>(firings: Seq<Firing<O, E>>) -> Seq<O> {
    firings.filter_map(
        |firing: Firing<O, E>|
            match firing {
                Firing::Fired(output) => Some(output),
                _ => None,
            },
    )
}

/// What a pass that applies every match returns: the error that ended it and
/// no output, or else the outputs of exactly the rules that fired, in the
/// order of the rules.
pub open spec fn all_outcome<O, E>(firings: Seq<Firing<O, E>>) -> Result<
    Seq<O>,
    RuleEngineError<E>,
> {
    match failure(firings) {
        Some(error) => Err(error),
        None => Ok(outputs(firings)),
    }
}

/// What a pass that stops at the first match returns: the output of the rule
/// that fired, nothing where every rule was skipped, or the error that ended
/// the pass.
pub open spec fn first_outcome<O, E>(firings: Seq<Firing<O, E>>) -> Result<
    Option<O>,
    RuleEngineError<E>,
> {
    if firings.len() > 0 {
        match firings.last() {
            Firing::Failed(error) => Err(error),
            Firing::Fired(output) => Ok(Some(output)),
            Firing::Skipped => Ok(None),
        }
    } else {
        Ok(None)
    }
}

/// Whether `rule` may do `firing` on `ctx`: be skipped after an `evaluate`
/// that said `false`, fire with the output of its `apply` after one that said
/// `true`, or fail with the error of the first of its two steps that failed.
/// `apply` has no part in it unless `evaluate` said `true`.
pub open spec fn may_fire<C, R: Rule<C>>(
    rule: &R,
    ctx: &C,
    firing: Firing<R::Output, R::RuleError>,
) -> bool {
    match firing {
        Firing::Skipped => call_ensures(R::evaluate, (rule, ctx), Ok::<bool, R::RuleError>(false)),
        Firing::Fired(output) => {
            &&& call_ensures(R::evaluate, (rule, ctx), Ok::<bool, R::RuleError>(true))
            &&& call_ensures(R::apply, (rule, ctx), Ok::<R::Output, R::RuleError>(output))
        },
        Firing::Failed(RuleEngineError::Evaluation(e)) => call_ensures(
            R::evaluate,
            (rule, ctx),
            Err::<bool, R::RuleError>(e),
        ),
        Firing::Failed(RuleEngineError::Application(e)) => {
            &&& call_ensures(R::evaluate, (rule, ctx), Ok::<bool, R::RuleError>(true))
            &&& call_ensures(R::apply, (rule, ctx), Err::<R::Output, R::RuleError>(e))
        },
        Firing::Failed(RuleEngineError::Unknown) => false,
    }
}

/// Whether the first `firings.len()` of `rules` may have done `firings` on
/// `ctx`, rule by rule.
pub open spec fn is_round<C, R: Rule<C>>(
    rules: Seq<R>,
    ctx: &C,
    firings: Seq<Firing<R::Output, R::RuleError>>,
) -> bool {
    &&& firings.len() <= rules.len()
    &&& forall|i: int| 0 <= i < firings.len() ==> may_fire(&rules[i], ctx, #[trigger] firings[i])
}

/// Whether a pass of `rules` over `ctx` that applies every match may return
/// `outcome`.
pub open spec fn is_full_round<C, R: Rule<C>>(
    rules: Seq<R>,
    ctx: &C,
    outcome: Result<Seq<R::Output>, RuleEngineError<R::RuleError>>,
) -> bool {
    exists|firings: Seq<Firing<R::Output, R::RuleError>>|
        {
            &&& #[trigger] is_round(rules, ctx, firings)
            &&& runs_to_failure(firings, rules.len())
            &&& outcome == all_outcome(firings)
        }
}

/// Whether a pass of `rules` over `ctx` that stops at the first match may
/// return `outcome`.
pub open spec fn is_first_round<C, R: Rule<C>>(
    rules: Seq<R>,
    ctx: &C,
    outcome: Result<Option<R::Output>, RuleEngineError<R::RuleError>>,
) -> bool {
    exists|firings: Seq<Firing<R::Output, R::RuleError>>|
        {
            &&& #[trigger] is_round(rules, ctx, firings)
            &&& runs_to_match(firings, rules.len())
            &&& outcome == first_outcome(firings)
        }
}

/// A turn that fails is the last turn of its pass, and the error it fails
/// with is all that the pass returns.
pub proof fn lemma_failure_ends_the_pass<O, E>(firings: Seq<Firing<O, E>>, count: nat, at: int)
    requires
        runs_to_failure(firings, count),
        0 <= at < firings.len(),
        firings[at] is Failed,
    ensures
        at == firings.len() - 1,
        failure(firings) == Some(firings[at]->Failed_0),
        all_outcome(firings) == Err::<Seq<O>, RuleEngineError<E>>(firings[at]->Failed_0),
{
}

/// A pass that applies every match returns an error if a turn failed, and
/// only then; if none did, every rule had its turn.
pub proof fn lemma_success_means_no_failure<O, E>(firings: Seq<Firing<O, E>>, count: nat)
    requires
        runs_to_failure(firings, count),
    ensures
        all_outcome(firings) is Ok <==> forall|i: int|
            0 <= i < firings.len() ==> !(#[trigger] firings[i] is Failed),
        all_outcome(firings) is Ok ==> firings.len() == count,
{
}

/// The outputs follow the turns: a turn that fired adds its output behind the
/// outputs of the turns before it, and any other turn adds nothing.
pub proof fn lemma_outputs_follow_the_turns<O, E>(firings: Seq<Firing<O, E>>, at: int)
    requires
        0 <= at < firings.len(),
    ensures
        outputs(firings.take(0)) == Seq::<O>::empty(),
        outputs(firings.take(at + 1)) == match firings[at] {
            Firing::Fired(output) => outputs(firings.take(at)).push(output),
            _ => outputs(firings.take(at)),
        },
        outputs(firings.take(firings.len() as int)) == outputs(firings),
{
    firings.lemma_filter_map_take_succ(
        |firing: Firing<O, E>|
            match firing {
                Firing::Fired(output) => Some(output),
                _ => None,
            },
        at,
    );
    assert(firings.take(firings.len() as int) == firings);
}

/// Whether each of `rules` can do one thing only on `ctx`: the context
/// decides whether the rule is skipped, fires or fails, and with what.
pub open spec fn firings_are_determined<C, R: Rule<C>>(rules: Seq<R>, ctx: &C) -> bool {
    forall|i: int, firing: Firing<R::Output, R::RuleError>, other: Firing<R::Output, R::RuleError>|
        0 <= i < rules.len() && #[trigger] may_fire(&rules[i], ctx, firing) && #[trigger] may_fire(
            &rules[i],
            ctx,
            other,
        ) ==> firing == other
}

/// Where each rule can do one thing only on `ctx`, a pass over `ctx` that
/// applies every match can run in one way only.
proof fn lemma_full_round_is_determined<C, R: Rule<C>>(
    rules: Seq<R>,
    ctx: &C,
    firings: Seq<Firing<R::Output, R::RuleError>>,
    others: Seq<Firing<R::Output, R::RuleError>>,
)
    requires
        firings_are_determined(rules, ctx),
        is_round(rules, ctx, firings),
        runs_to_failure(firings, rules.len()),
        is_round(rules, ctx, others),
        runs_to_failure(others, rules.len()),
    ensures
        firings == others,
{
    assert forall|i: int| 0 <= i < firings.len() && i < others.len() implies firings[i]
        == others[i] by {
        assert(may_fire(&rules[i], ctx, firings[i]) && may_fire(&rules[i], ctx, others[i]));
    }
}

/// Where each rule can do one thing only on `ctx`, a pass over `ctx` that
/// stops at the first match can run in one way only.
proof fn lemma_first_round_is_determined<C, R: Rule<C>>(
    rules: Seq<R>,
    ctx: &C,
    firings: Seq<Firing<R::Output, R::RuleError>>,
    others: Seq<Firing<R::Output, R::RuleError>>,
)
    requires
        firings_are_determined(rules, ctx),
        is_round(rules, ctx, firings),
        runs_to_match(firings, rules.len()),
        is_round(rules, ctx, others),
        runs_to_match(others, rules.len()),
    ensures
        firings == others,
{
    assert forall|i: int| 0 <= i < firings.len() && i < others.len() implies firings[i]
        == others[i] by {
        assert(may_fire(&rules[i], ctx, firings[i]) && may_fire(&rules[i], ctx, others[i]));
    }
}

/// Where each rule can do one thing only on `ctx`, the passes over `ctx`
/// return one thing only.
pub proof fn lemma_outcomes_are_determined<C, R: Rule<C>>(
    rules: Seq<R>,
    ctx: &C,
    all: Result<Seq<R::Output>, RuleEngineError<R::RuleError>>,
    all_again: Result<Seq<R::Output>, RuleEngineError<R::RuleError>>,
    first: Result<Option<R::Output>, RuleEngineError<R::RuleError>>,
    first_again: Result<Option<R::Output>, RuleEngineError<R::RuleError>>,
)
    requires
        firings_are_determined(rules, ctx),
    ensures
        is_full_round(rules, ctx, all) && is_full_round(rules, ctx, all_again) ==> all == all_again,
        is_first_round(rules, ctx, first) && is_first_round(rules, ctx, first_again) ==> first
            == first_again,
{
    if is_full_round(rules, ctx, all) && is_full_round(rules, ctx, all_again) {
        let firings = choose|firings: Seq<Firing<R::Output, R::RuleError>>|
            #[trigger] is_round(rules, ctx, firings) && runs_to_failure(firings, rules.len())
                && all == all_outcome(firings);
        let others = choose|firings: Seq<Firing<R::Output, R::RuleError>>|
            #[trigger] is_round(rules, ctx, firings) && runs_to_failure(firings, rules.len())
                && all_again == all_outcome(firings);
        lemma_full_round_is_determined(rules, ctx, firings, others);
    }
    if is_first_round(rules, ctx, first) && is_first_round(rules, ctx, first_again) {
        let firings = choose|firings: Seq<Firing<R::Output, R::RuleError>>|
            #[trigger] is_round(rules, ctx, firings) && runs_to_match(firings, rules.len())
                && first == first_outcome(firings);
        let others = choose|firings: Seq<Firing<R::Output, R::RuleError>>|
            #[trigger] is_round(rules, ctx, firings) && runs_to_match(firings, rules.len())
                && first_again == first_outcome(firings);
        lemma_first_round_is_determined(rules, ctx, firings, others);
    }
}

/// As long as every turn is skipped, there are no outputs.
proof fn lemma_skipped_turns_give_nothing<O, E>(firings: Seq<Firing<O, E>>, upto: int)
    requires
        0 <= upto <= firings.len(),
        forall|i: int| 0 <= i < upto ==> #[trigger] firings[i] is Skipped,
    ensures
        outputs(firings.take(upto)) == Seq::<O>::empty(),
    decreases upto,
{
    if upto > 0 {
        lemma_skipped_turns_give_nothing(firings, upto - 1);
        lemma_outputs_follow_the_turns(firings, upto - 1);
    }
}

/// The outputs of the first turns stay in front when more turns follow.
proof fn lemma_outputs_only_grow<O, E>(firings: Seq<Firing<O, E>>, early: int, late: int)
    requires
        0 <= early <= late <= firings.len(),
    ensures
        outputs(firings.take(early)).is_prefix_of(outputs(firings.take(late))),
    decreases late - early,
{
    if early < late {
        lemma_outputs_only_grow(firings, early, late - 1);
        lemma_outputs_follow_the_turns(firings, late - 1);
    }
}

/// Where each rule can do one thing only on `ctx` and the pass that applies
/// every match succeeds, the pass that stops at the first match returns the
/// first of its outputs, or none if it has none.
pub proof fn lemma_first_outcome_heads_all<C, R: Rule<C>>(
    rules: Seq<R>,
    ctx: &C,
    all: Seq<R::Output>,
    first: Result<Option<R::Output>, RuleEngineError<R::RuleError>>,
)
    requires
        firings_are_determined(rules, ctx),
        is_full_round(rules, ctx, Ok(all)),
        is_first_round(rules, ctx, first),
    ensures
        first == Ok::<Option<R::Output>, RuleEngineError<R::RuleError>>(
            if all.len() == 0 {
                None
            } else {
                Some(all[0])
            },
        ),
{
    let full = choose|firings: Seq<Firing<R::Output, R::RuleError>>|
        #[trigger] is_round(rules, ctx, firings) && runs_to_failure(firings, rules.len()) && Ok::<
            Seq<R::Output>,
            RuleEngineError<R::RuleError>,
        >(all) == all_outcome(firings);
    let head = choose|firings: Seq<Firing<R::Output, R::RuleError>>|
        #[trigger] is_round(rules, ctx, firings) && runs_to_match(firings, rules.len()) && first
            == first_outcome(firings);
    // the pass that stops early makes the first turns of the full pass
    lemma_success_means_no_failure(full, rules.len());
    assert forall|i: int| 0 <= i < head.len() implies head[i] == full[i] by {
        assert(may_fire(&rules[i], ctx, head[i]) && may_fire(&rules[i], ctx, full[i]));
    }
    if head.len() > 0 {
        // all of them but the last are skipped and give nothing; what the
        // last gives stands first among the outputs
        let last = head.len() - 1;
        lemma_skipped_turns_give_nothing(full, last);
        lemma_outputs_follow_the_turns(full, last);
        lemma_outputs_only_grow(full, last + 1, full.len() as int);
    }
}

/// No pass ends with [`RuleEngineError::Unknown`]: an error that a pass
/// returns is the error of a step of one of its rules.
pub proof fn lemma_no_round_fails_unknown<C, R: Rule<C>>(
    rules: Seq<R>,
    ctx: &C,
    all: Result<Seq<R::Output>, RuleEngineError<R::RuleError>>,
    first: Result<Option<R::Output>, RuleEngineError<R::RuleError>>,
)
    ensures
        is_full_round(rules, ctx, all) && all is Err ==> !(all->Err_0 is Unknown),
        is_first_round(rules, ctx, first) && first is Err ==> !(first->Err_0 is Unknown),
{
}

/// An engine made of no rules has no rules, and on every context its passes
/// return no output and no error.
pub proof fn lemma_no_rules_no_outcome<C, R: Rule<C>>(
    given: Seq<R>,
    ranked: Seq<R>,
    ranks: Seq<u32>,
    order: PriorityOrder,
    ctx: &C,
    all: Result<Seq<R::Output>, RuleEngineError<R::RuleError>>,
    first: Result<Option<R::Output>, RuleEngineError<R::RuleError>>,
)
    requires
        given.len() == 0,
        is_stable_ranking(given, ranked, ranks, order),
    ensures
        ranked.len() == 0,
        is_full_round(ranked, ctx, all) <==> all == Ok::<
            Seq<R::Output>,
            RuleEngineError<R::RuleError>,
        >(Seq::empty()),
        is_first_round(ranked, ctx, first) <==> first == Ok::<
            Option<R::Output>,
            RuleEngineError<R::RuleError>,
        >(None),
{
    // the one pass over no rules has no turns
    assert(is_round(ranked, ctx, Seq::<Firing<R::Output, R::RuleError>>::empty()));
}

} // verus!
