//! What plugins have put on record with the framework.
use crate::config::section::{RegisteredSection, SectionRegistry};
use crate::container::{kept, law_withdrawing_takes_all_of_one_plugin, ServiceContainer};
use crate::onebot::hooks::{
    hooks_owned, hooks_without, law_unsubscribing_touches_one_plugin, outbound_owned,
    outbound_without, HookRegistry,
};
use crate::plugin::health::{failures_of, HealthBoard, DEFAULT_PANIC_THRESHOLD};
use crate::plugin::scope::{tasks_of, ScopeTable};
use crate::quartz::{group_count, outside_group, Scheduler};
use crate::text::{decimal, owned, u64_text};
use vstd::prelude::*;
use vstd::string::StringExecFns;

verus! {

/// What plugins have put on record: listeners, jobs, services, background tasks,
/// failures and sections of their configuration.
#[derive(Debug)]
pub struct Registries {
    pub hooks: HookRegistry,
    pub jobs: Scheduler,
    pub container: ServiceContainer<u64>,
    pub scopes: ScopeTable,
    pub health: HealthBoard,
    pub sections: SectionRegistry,
}

/// How much was taken back from a plugin.
#[derive(Clone, Copy, Debug, PartialEq, Eq, Structural)]
pub struct Revoked {
    pub tasks: usize,
    pub jobs: usize,
    pub hooks: usize,
    pub services: usize,
}

/// Whether a plugin has nothing on record: no listener, no job, no service, no
/// background task and no failure.
pub open spec fn owns_nothing(r: Registries, plugin: Seq<char>) -> bool {
    &&& hooks_owned(r.hooks.inbound(), plugin) == 0
    &&& outbound_owned(r.hooks.outgoing(), plugin) == 0
    &&& forall|name: Seq<char>| #[trigger]
        r.jobs@.contains_key(name) ==> r.jobs@[name].group != plugin
    &&& forall|i: int|
        0 <= i < r.container.slots().len() ==> (#[trigger] r.container.slots()[i]).owner != plugin
    &&& tasks_of(r.scopes.scopes@, plugin) == Seq::<u64>::empty()
    &&& failures_of(r.health@, plugin) == 0
}

/// Whether the records are those before without those of a plugin, and its background
/// tasks are to be stopped.
pub open spec fn is_revoked(before: Registries, after: Registries, plugin: Seq<char>) -> bool {
    &&& after.hooks.inbound() == hooks_without(before.hooks.inbound(), plugin)
    &&& after.hooks.outgoing() == outbound_without(before.hooks.outgoing(), plugin)
    &&& after.jobs@ == outside_group(before.jobs@, plugin)
    &&& after.jobs.next_serial == before.jobs.next_serial
    &&& after.container.slots() == kept(before.container.slots(), plugin)
    &&& after.scopes.scopes@ == before.scopes.scopes@.remove(plugin)
    &&& after.scopes.cancelled@ == before.scopes.cancelled@ + tasks_of(
        before.scopes.scopes@,
        plugin,
    )
    &&& after.health@ == before.health@.remove(plugin)
    &&& after.health.limit() == before.health.limit()
    &&& after.sections == before.sections
}

impl Registries {
    /// Nothing on record.
    pub fn new() -> (r: Registries)
        ensures
            forall|plugin: Seq<char>| #[trigger] owns_nothing(r, plugin),
            r.jobs.next_serial == 1,
            r.scopes.cancelled@ == Seq::<u64>::empty(),
            r.health.limit() == DEFAULT_PANIC_THRESHOLD,
            r.sections.items@ == Seq::<RegisteredSection>::empty(),
    {
        Registries {
            hooks: HookRegistry::new(),
            jobs: Scheduler::new(),
            container: ServiceContainer::new(),
            scopes: ScopeTable::new(),
            health: HealthBoard::new(DEFAULT_PANIC_THRESHOLD),
            sections: SectionRegistry::new(),
        }
    }

    /// Takes back everything that a plugin has put on record, but for the sections of
    /// its configuration, and tells how much it was.
    pub fn revoke(&mut self, plugin: &str) -> (r: Revoked)
        ensures
            is_revoked(*old(self), *final(self), plugin@),
            owns_nothing(*final(self), plugin@),
            r.tasks == tasks_of(old(self).scopes.scopes@, plugin@).len(),
            r.jobs == group_count(old(self).jobs.tasks.listed(), plugin@),
            r.hooks == hooks_owned(old(self).hooks.inbound(), plugin@) + outbound_owned(
                old(self).hooks.outgoing(),
                plugin@,
            ),
            r.services == old(self).container.slots().len() - final(self).container.slots().len(),
    {
        let tasks: usize = self.scopes.cancel_all(plugin);
        let jobs: usize = self.jobs.remove_group(plugin);
        let hooks: usize = self.hooks.unsubscribe(plugin);
        let services: usize = self.container.revoke_plugin(plugin);
        self.health.forget(plugin);
        proof {
            law_revoked_plugins_own_nothing(*old(self), *self, plugin@);
        }
        Revoked { tasks, jobs, hooks, services }
    }
}

/// Taking back leaves a plugin nothing on record, whatever it had put there.
pub proof fn law_revoked_plugins_own_nothing(
    before: Registries,
    after: Registries,
    plugin: Seq<char>,
)
    requires
        is_revoked(before, after, plugin),
    ensures
        owns_nothing(after, plugin),
{
    law_unsubscribing_touches_one_plugin(
        before.hooks.inbound(),
        before.hooks.outgoing(),
        plugin,
        plugin,
    );
    law_withdrawing_takes_all_of_one_plugin(before.container.slots(), plugin);
}

/// Taking back from one plugin leaves the others what they have on record.
pub proof fn law_revoking_touches_one_plugin(
    before: Registries,
    after: Registries,
    plugin: Seq<char>,
    other: Seq<char>,
)
    requires
        is_revoked(before, after, plugin),
        other != plugin,
    ensures
        hooks_owned(after.hooks.inbound(), other) == hooks_owned(before.hooks.inbound(), other),
        outbound_owned(after.hooks.outgoing(), other) == outbound_owned(
            before.hooks.outgoing(),
            other,
        ),
        forall|name: Seq<char>|
            #![trigger after.jobs@.contains_key(name)]
            before.jobs@.contains_key(name) && before.jobs@[name].group == other
                ==> after.jobs@.contains_key(name) && after.jobs@[name] == before.jobs@[name],
        forall|k: int|
            0 <= k < before.container.slots().len() && (
            #[trigger] before.container.slots()[k]).owner == other
                ==> after.container.slots().contains(before.container.slots()[k]),
        tasks_of(after.scopes.scopes@, other) == tasks_of(before.scopes.scopes@, other),
        failures_of(after.health@, other) == failures_of(before.health@, other),
{
    law_unsubscribing_touches_one_plugin(
        before.hooks.inbound(),
        before.hooks.outgoing(),
        plugin,
        other,
    );
    law_withdrawing_takes_all_of_one_plugin(before.container.slots(), plugin);
}

/// What is said of what was taken back, if it was anything; `boards` are the service
/// switches that the program around took back.
pub fn revoked_text(plugin: &str, revoked: &Revoked, boards: usize) -> (r: Option<String>)
    ensures
        match r {
            Some(text) => text@ == revoked_line(plugin@, *revoked, boards) && (revoked.tasks > 0
                || revoked.jobs > 0 || revoked.hooks > 0 || revoked.services > 0 || boards > 0),
            None => revoked.tasks == 0 && revoked.jobs == 0 && revoked.hooks == 0
                && revoked.services == 0 && boards == 0,
        },
{
    if revoked.tasks == 0 && revoked.jobs == 0 && revoked.hooks == 0 && revoked.services == 0
        && boards == 0 {
        return None;
    }
    let mut out = owned("已回收插件 ");
    out.append(plugin);
    out.append(" 的资源: 后台任务 ");
    out.append(u64_text(revoked.tasks as u64).as_str());
    out.append(" / 定时任务 ");
    out.append(u64_text(revoked.jobs as u64).as_str());
    out.append(" / 事件订阅 ");
    out.append(u64_text(revoked.hooks as u64).as_str());
    out.append(" / 共享能力 ");
    out.append(u64_text(revoked.services as u64).as_str());
    out.append(" / 服务开关 ");
    out.append(u64_text(boards as u64).as_str());
    Some(out)
}

/// What is said of what was taken back.
pub open spec fn revoked_line(plugin: Seq<char>, revoked: Revoked, boards: usize) -> Seq<char> {
    "已回收插件 "@ + plugin + " 的资源: 后台任务 "@ + decimal(revoked.tasks as int)
        + " / 定时任务 "@ + decimal(revoked.jobs as int) + " / 事件订阅 "@ + decimal(
        revoked.hooks as int,
    ) + " / 共享能力 "@ + decimal(revoked.services as int) + " / 服务开关 "@ + decimal(
        boards as int,
    )
}

} // verus!
