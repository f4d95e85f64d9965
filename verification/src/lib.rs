//! A generic rule engine. A rule is a unit of domain logic with two steps:
//! `evaluate` decides whether it applies to a context, and `apply` carries
//! out its effect. An engine ranks its rules once, by priority, when it is
//! made, and from then on gives them their turns in that order.
//!
//! There are two flavours. A [`RuleEngine`] runs [`Rule`]s, which only read
//! the context and compute outputs that the engine collects. A
//! [`MutableRuleEngine`] runs [`MutableRule`]s, which change the context in
//! place, so that each rule meets it as the rules before it left it. Both
//! stop at the first step that fails and return its error alone.
//!
//! What a pass returns is stated over what the rules did when their turns
//! came: see [`firing`] for the pure flavour and [`turns`] for the mutating
//! one. The order of the rules is stated in [`ranking`].

pub mod builder;
pub mod engine;
pub mod error;
pub mod firing;
mod merge;
pub mod ranking;
pub mod traits;
pub mod turns;
pub mod utils;

pub use builder::RuleEngineBuilder;
pub use engine::MutableRuleEngine;
pub use engine::RuleEngine;
pub use traits::MutableRule;
pub use traits::Rule;
pub use utils::PriorityOrder;
