//! The ordering policy that an engine applies to rule priorities.

use vstd::prelude::*;

verus! {

/// The direction in which rule priorities are ranked.
#[derive(Debug, Clone, Copy, PartialEq, Eq, Structural)]
pub enum PriorityOrder {
    /// Ascending: the numerically smallest priority is evaluated first.
    Asc,
    /// Descending: the numerically largest priority is evaluated first.
    Desc,
}

impl PriorityOrder {
    /// Whether a rule of priority `earlier` may stand before one of priority
    /// `later` under this order.
    pub open spec fn admits(self, earlier: u32, later: u32) -> bool {
        match self {
            PriorityOrder::Asc => earlier <= later,
            PriorityOrder::Desc => earlier >= later,
        }
    }

    /// Whether a rule of priority `earlier` has to stand before one of
    /// priority `later`, wherever the two were inserted.
    pub fn ranks_before(self, earlier: u32, later: u32) -> (strictly: bool)
        ensures
            strictly == !self.admits(later, earlier),
    {
        match self {
            PriorityOrder::Asc => earlier < later,
            PriorityOrder::Desc => earlier > later,
        }
    }
}

impl Default for PriorityOrder {
    /// The default order is ascending.
    fn default() -> (order: Self)
        ensures
            order == PriorityOrder::Asc,
    {
        PriorityOrder::Asc
    }
}

} // verus!
