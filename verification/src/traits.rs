//! The contracts that rules fulfil: a pure flavour, whose rules compute an
//! output from a context they only read, and a mutating flavour, whose rules
//! change the context in place.
//!
//! Neither trait prescribes what a rule decides or does. What an engine
//! proves of a pass, it proves of whatever the rules' methods return, and
//! states it over what each rule promises of its own methods.

use vstd::prelude::*;

verus! {

/// A rule that inspects a context without changing it and, where it applies,
/// computes an output from it.
pub trait Rule<C> {
    /// What a successful `apply` produces.
    type Output;

    /// What a failed `evaluate` or `apply` reports.
    type RuleError;

    /// Decides whether the rule applies to `ctx`.
    fn evaluate(&self, ctx: &C) -> Result<bool, Self::RuleError>;

    /// Computes the rule's output for `ctx`. Only called on a context of
    /// which `evaluate` has said `true`.
    fn apply(&self, ctx: &C) -> Result<Self::Output, Self::RuleError>
        requires
            call_ensures(Self::evaluate, (self, ctx), Ok::<bool, Self::RuleError>(true)),
    ;

    /// The key by which an engine ranks the rule. It is 0 unless the rule says
    /// otherwise.
    fn priority(&self) -> (priority: u32)
        default_ensures
            priority == 0,
    {
        0
    }
}

/// Whether `rank` is a priority that `rule` may report: what its `priority`
/// promises of the value it returns. A rule that keeps the provided
/// `priority` reports 0 and nothing else.
pub open spec fn reports<C, R: Rule<C>>(rule: &R, rank: u32) -> bool {
    call_ensures(R::priority, (rule,), rank)
}

/// A rule that may change the context, and its own state, when it applies.
pub trait MutableRule<C>: Sized {
    /// What a failed `evaluate` or `apply` reports.
    type RuleError;

    /// Whether `apply`, called on this rule and `ctx`, may return `result` and
    /// leave the rule as `rule_after` and the context as `ctx_after`. Unless a
    /// rule says more of its `apply`, anything may come of it.
    open spec fn application(
        &self,
        ctx: &C,
        rule_after: &Self,
        ctx_after: &C,
        result: Result<(), Self::RuleError>,
    ) -> bool {
        true
    }

    /// The rule's name, for diagnostics.
    fn name(&self) -> &str;

    /// The key by which an engine ranks the rule. It is 0 unless the rule says
    /// otherwise.
    fn priority(&self) -> (priority: u32)
        default_ensures
            priority == 0,
    {
        0
    }

    /// Decides whether the rule applies to the context as it now is.
    fn evaluate(&self, ctx: &C) -> Result<bool, Self::RuleError>;

    /// Carries out the rule's effect on the context. Only called on a context
    /// of which `evaluate` has said `true`.
    fn apply(&mut self, ctx: &mut C) -> (result: Result<(), Self::RuleError>)
        requires
            call_ensures(
                Self::evaluate,
                (&*old(self), &*old(ctx)),
                Ok::<bool, Self::RuleError>(true),
            ),
        ensures
            old(self).application(old(ctx), final(self), final(ctx), result),
    ;

    /// Runs right before `apply`, on the context that `apply` will meet.
    fn before_apply(&self, ctx: &C)
        requires
            call_ensures(Self::evaluate, (self, ctx), Ok::<bool, Self::RuleError>(true)),
    {
    }

    /// Runs right after an `apply` that succeeded, on the rule and the context
    /// as that `apply` left them.
    fn after_apply(&self, ctx: &C)
        requires
            exists|rule_before: Self, ctx_before: C|
                call_ensures(
                    Self::evaluate,
                    (&rule_before, &ctx_before),
                    Ok::<bool, Self::RuleError>(true),
                ) && #[trigger] rule_before.application(&ctx_before, self, ctx, Ok(())),
    {
    }
}

/// Whether `rank` is a priority that `rule` may report: what its `priority`
/// promises of the value it returns. A rule that keeps the provided
/// `priority` reports 0 and nothing else.
pub open spec fn reports_mut<C, R: MutableRule<C>>(rule: &R, rank: u32) -> bool {
    call_ensures(R::priority, (rule,), rank)
}

} // verus!
