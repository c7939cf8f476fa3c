//! Supervision groups.
use vstd::prelude::*;

verus! {

/// Strategy for handling failures within a service group (after Erlang OTP).
#[derive(Debug, Clone, Copy, PartialEq, Eq, Structural)]
pub enum GroupRestartStrategy {
    /// Restart only the failed service (default).
    OneForOne,
    /// Restart all services in the group when one fails.
    OneForAll,
    /// Restart the failed service and all services started after it.
    RestForOne,
}

/// The snake_case name of a group restart strategy.
pub open spec fn group_strategy_name(s: GroupRestartStrategy) -> Seq<char> {
    match s {
        GroupRestartStrategy::OneForOne => "one_for_one"@,
        GroupRestartStrategy::OneForAll => "one_for_all"@,
        GroupRestartStrategy::RestForOne => "rest_for_one"@,
    }
}

impl Default for GroupRestartStrategy {
    fn default() -> (r: Self)
        ensures
            r == GroupRestartStrategy::OneForOne,
    {
        GroupRestartStrategy::OneForOne
    }
}

impl GroupRestartStrategy {
    /// The snake_case name of this strategy.
    pub fn to_string(&self) -> (r: String)
        ensures
            r@ == group_strategy_name(*self),
    {
        let s = match self {
            GroupRestartStrategy::OneForOne => "one_for_one",
            GroupRestartStrategy::OneForAll => "one_for_all",
            GroupRestartStrategy::RestForOne => "rest_for_one",
        };
        s.to_owned()
    }
}

/// Default maximum number of restarts within the intensity period.
pub fn default_max_intensity() -> (r: u32)
    ensures
        r == 5,
{
    5
}

/// Default intensity period in seconds.
pub fn default_intensity_period() -> (r: u64)
    ensures
        r == 60,
{
    60
}

/// A named group of related services with shared restart behavior.
///
/// Members are ordered -- order matters for `RestForOne` strategy.
#[derive(Debug, Clone)]
pub struct ServiceGroup {
    /// Group name.
    pub name: String,
    /// Member service names (order matters for `RestForOne`).
    pub members: Vec<String>,
    /// Restart strategy when a member fails.
    pub strategy: GroupRestartStrategy,
    /// Max restarts within the period before the group itself fails.
    pub max_intensity: u32,
    /// Period in seconds for counting restarts.
    pub intensity_period_secs: u64,
}

} // verus!
