//! A fluent way to collect rules and an order, and to make an engine of them.

use vstd::prelude::*;
use std::marker::PhantomData;
use crate::engine::RuleEngine;
use crate::ranking::is_stable_ranking;
use crate::traits::{reports, Rule};
use crate::utils::PriorityOrder;

verus! {

/// Collects the rules and the order of a [`RuleEngine`]. Any state of it can
/// be built, the empty one too.
pub struct RuleEngineBuilder<C, R> {
    rules: Vec<R>,
    order: PriorityOrder,
    marker: PhantomData<C>,
}

impl<C, R: Rule<C>> RuleEngineBuilder<C, R> {
    /// What `rules` returns.
    pub closed spec fn spec_rules(&self) -> &Vec<R> {
        &self.rules
    }

    /// What `order` returns.
    pub closed spec fn spec_order(&self) -> PriorityOrder {
        self.order
    }

    /// The rules collected so far, in the order in which they were given.
    #[verifier::when_used_as_spec(spec_rules)]
    pub fn rules(&self) -> (rules: &Vec<R>)
        ensures
            rules == self.rules(),
    {
        &self.rules
    }

    /// The order chosen so far.
    #[verifier::when_used_as_spec(spec_order)]
    pub fn order(&self) -> (order: PriorityOrder)
        ensures
            order == self.order(),
    {
        self.order
    }

    /// A builder with no rules and the ascending order.
    pub fn new() -> (builder: Self)
        ensures
            builder.rules()@ == Seq::<R>::empty(),
            builder.order() == PriorityOrder::Asc,
    {
        RuleEngineBuilder {
            rules: Vec::new(),
            order: PriorityOrder::default(),
            marker: PhantomData,
        }
    }

    /// Replaces the rules collected so far by `rules`.
    pub fn with_rules(self, rules: Vec<R>) -> (builder: Self)
        ensures
            builder.rules()@ == rules@,
            builder.order() == self.order(),
    {
        let mut builder = self;
        builder.rules = rules;
        builder
    }

    /// Adds `rule` behind the rules collected so far.
    pub fn add_rule(self, rule: R) -> (builder: Self)
        ensures
            builder.rules()@ == self.rules()@.push(rule),
            builder.order() == self.order(),
    {
        let mut builder = self;
        builder.rules.push(rule);
        builder
    }

    /// Chooses `order`.
    pub fn priority(self, order: PriorityOrder) -> (builder: Self)
        ensures
            builder.rules()@ == self.rules()@,
            builder.order() == order,
    {
        let mut builder = self;
        builder.order = order;
        builder
    }

    /// Chooses the descending order: the highest priority first.
    pub fn priority_desc(self) -> (builder: Self)
        ensures
            builder.rules()@ == self.rules()@,
            builder.order() == PriorityOrder::Desc,
    {
        self.priority(PriorityOrder::Desc)
    }

    /// Chooses the ascending order: the lowest priority first.
    pub fn priority_asc(self) -> (builder: Self)
        ensures
            builder.rules()@ == self.rules()@,
            builder.order() == PriorityOrder::Asc,
    {
        self.priority(PriorityOrder::Asc)
    }

    /// Makes the engine: the rules collected, ranked in the order chosen by
    /// the priority that each reports, rules of equal priority in the order
    /// in which they were given.
    pub fn build(self) -> (engine: RuleEngine<C, R>)
        ensures
            engine.order() == self.order(),
            is_stable_ranking(self.rules()@, engine.rules()@, engine.ranks()@, engine.order()),
            forall|i: int|
                0 <= i < engine.rules()@.len() ==> reports(&engine.rules()@[i], engine.ranks()@[i]),
    {
        RuleEngine::new(self.rules, Some(self.order))
    }
}

impl<C, R: Rule<C>> Default for RuleEngineBuilder<C, R> {
    /// A builder with no rules and the ascending order.
    fn default() -> (builder: Self)
        ensures
            builder.rules()@ == Seq::<R>::empty(),
            builder.order() == PriorityOrder::Asc,
    {
        RuleEngineBuilder::new()
    }
}

} // verus!
