//! How often plugins failed in a row, and when one is taken out of service.
use crate::collections::TextMap;
use crate::config::arona::AronaConfigView;
use crate::runtime::config::{plugin_on, Gating};
use crate::text::owned;
use vstd::prelude::*;

verus! {

/// How many failures in a row take a plugin out of service, where nothing else is set.
pub const DEFAULT_PANIC_THRESHOLD: u32 = 5;

/// The failures of plugins in a row.
#[derive(Debug)]
pub struct HealthBoard {
    failures: TextMap<u32>,
    threshold: u32,
}

/// The failures in a row of a plugin.
pub open spec fn failures_of(board: Map<Seq<char>, u32>, plugin: Seq<char>) -> u32 {
    if board.contains_key(plugin) {
        board[plugin]
    } else {
        0
    }
}

/// One failure more, without passing the largest number.
pub open spec fn one_more(n: u32) -> u32 {
    if n < u32::MAX {
        (n + 1) as u32
    } else {
        n
    }
}

/// Whether so many failures take a plugin out of service. The threshold zero takes
/// none out.
pub open spec fn reaches(threshold: u32, count: u32) -> bool {
    threshold != 0 && count >= threshold
}

impl View for HealthBoard {
    type V = Map<Seq<char>, u32>;

    closed spec fn view(&self) -> Map<Seq<char>, u32> {
        self.failures@
    }
}

impl HealthBoard {
    /// The threshold in force.
    pub closed spec fn limit(&self) -> u32 {
        self.threshold
    }

    /// A board without failures.
    pub fn new(threshold: u32) -> (r: HealthBoard)
        ensures
            r@ == Map::<Seq<char>, u32>::empty(),
            r.limit() == threshold,
    {
        HealthBoard { failures: TextMap::new(), threshold }
    }

    /// How many failures in a row take a plugin out of service; zero for never.
    pub fn threshold(&self) -> (r: u32)
        ensures
            r == self.limit(),
    {
        self.threshold
    }

    /// Sets how many failures in a row take a plugin out of service.
    pub fn set_threshold(&mut self, threshold: u32)
        ensures
            final(self).limit() == threshold,
            final(self)@ == old(self)@,
    {
        self.threshold = threshold;
    }

    /// The failures in a row of a plugin.
    pub fn failures(&self, plugin: &str) -> (r: u32)
        ensures
            r == failures_of(self@, plugin@),
    {
        match self.failures.get(plugin) {
            Some(n) => *n,
            None => 0,
        }
    }

    /// Notes that a plugin did its work: its failures count anew.
    pub fn record_success(&mut self, plugin: &str)
        ensures
            final(self)@ == old(self)@.remove(plugin@),
            final(self).limit() == old(self).limit(),
    {
        let _ = self.failures.remove(plugin);
    }

    /// Forgets the failures of a plugin.
    pub fn forget(&mut self, plugin: &str)
        ensures
            final(self)@ == old(self)@.remove(plugin@),
            final(self).limit() == old(self).limit(),
    {
        let _ = self.failures.remove(plugin);
    }

    /// Notes that a plugin failed. True where that takes it out of service: then it
    /// is turned off and its failures are forgotten.
    pub fn record_panic(&mut self, plugin: &str, gating: &mut Gating) -> (r: bool)
        ensures
            r == reaches(old(self).limit(), one_more(failures_of(old(self)@, plugin@))),
            final(self).limit() == old(self).limit(),
            final(self)@ == if r {
                old(self)@.remove(plugin@)
            } else {
                old(self)@.insert(plugin@, one_more(failures_of(old(self)@, plugin@)))
            },
            r ==> !plugin_on(final(gating).config@, plugin@),
            final(gating).config@ == (AronaConfigView {
                disabled_plugins: if r && !old(gating).config@.disabled_plugins.contains(
                    plugin@,
                ) {
                    old(gating).config@.disabled_plugins.push(plugin@)
                } else {
                    old(gating).config@.disabled_plugins
                },
                ..old(gating).config@
            }),
            final(gating).bot_id == old(gating).bot_id,
    {
        let before: u32 = self.failures(plugin);
        let count: u32 = if before < u32::MAX {
            before + 1
        } else {
            before
        };
        if self.threshold == 0 || count < self.threshold {
            self.failures.insert(owned(plugin), count);
            return false;
        }
        let _ = self.failures.remove(plugin);
        gating.disable_plugin(plugin);
        true
    }
}

/// With the threshold zero no failure takes a plugin out of service.
pub proof fn law_zero_threshold_only_counts(count: u32)
    ensures
        !reaches(0, count),
{
}

/// The failures that a plugin had before `runs` more failures in a row.
pub open spec fn after_failures(count: u32, runs: nat) -> u32
    decreases runs,
{
    if runs == 0 {
        count
    } else {
        one_more(after_failures(count, (runs - 1) as nat))
    }
}

/// A plugin without failures is taken out of service at exactly the failure in a
/// row that the threshold names.
pub proof fn law_quarantine_comes_at_the_threshold(threshold: u32, runs: nat)
    requires
        0 < threshold,
        runs <= threshold,
    ensures
        after_failures(0, runs) == runs,
        reaches(threshold, after_failures(0, runs)) <==> runs == threshold,
    decreases runs,
{
    if runs > 0 {
        law_quarantine_comes_at_the_threshold(threshold, (runs - 1) as nat);
    }
}

/// A success makes the counting start anew, and touches the count of no other plugin.
pub proof fn law_success_starts_the_count_anew(
    board: Map<Seq<char>, u32>,
    plugin: Seq<char>,
    other: Seq<char>,
)
    requires
        other != plugin,
    ensures
        failures_of(board.remove(plugin), plugin) == 0,
        failures_of(board.remove(plugin), other) == failures_of(board, other),
{
}

} // verus!
