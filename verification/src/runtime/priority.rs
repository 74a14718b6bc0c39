//! The order in which listeners are asked.
use vstd::prelude::*;

verus! {

/// When a listener is asked, from the first to the last.
#[derive(Clone, Copy, Debug, PartialEq, Eq, Structural)]
pub enum ListenerPriority {
    Monitor,
    High,
    Normal,
    Low,
    Lowest,
}

/// The place of a priority in the order.
pub open spec fn rank(priority: ListenerPriority) -> int {
    match priority {
        ListenerPriority::Monitor => 0,
        ListenerPriority::High => 1,
        ListenerPriority::Normal => 2,
        ListenerPriority::Low => 3,
        ListenerPriority::Lowest => 4,
    }
}

impl ListenerPriority {
    /// The place of the priority in the order.
    pub fn order(self) -> (r: u8)
        ensures
            r == rank(self),
            r < 5,
    {
        match self {
            ListenerPriority::Monitor => 0,
            ListenerPriority::High => 1,
            ListenerPriority::Normal => 2,
            ListenerPriority::Low => 3,
            ListenerPriority::Lowest => 4,
        }
    }
}

impl Default for ListenerPriority {
    fn default() -> (r: ListenerPriority)
        ensures
            r == ListenerPriority::Normal,
    {
        ListenerPriority::Normal
    }
}

/// Monitors are asked first, then the high, normal, low and lowest priorities.
pub proof fn law_priorities_are_in_order()
    ensures
        rank(ListenerPriority::Monitor) < rank(ListenerPriority::High) < rank(
            ListenerPriority::Normal,
        ) < rank(ListenerPriority::Low) < rank(ListenerPriority::Lowest),
        forall|priority: ListenerPriority| 0 <= #[trigger] rank(priority) < 5,
{
}

} // verus!
