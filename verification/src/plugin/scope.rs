//! The background tasks of plugins. A task is known by a number; whoever runs tasks
//! tells when one ends, and stops those that are cancelled.
use crate::collections::TextMap;
use crate::text::owned;
use vstd::prelude::*;

verus! {

/// The background tasks of one plugin.
#[derive(Debug)]
pub struct PluginScope {
    pub plugin: String,
    /// The tasks that run.
    pub tasks: Vec<u64>,
}

/// The tasks without one of them.
pub open spec fn without_task(tasks: Seq<u64>, task: u64) -> Seq<u64>
    decreases tasks.len(),
{
    if tasks.len() == 0 {
        Seq::empty()
    } else if tasks.last() == task {
        without_task(tasks.drop_last(), task)
    } else {
        without_task(tasks.drop_last(), task).push(tasks.last())
    }
}

impl PluginScope {
    /// A plugin without tasks.
    pub fn new(plugin: &str) -> (r: PluginScope)
        ensures
            r.plugin@ == plugin@,
            r.tasks@ == Seq::<u64>::empty(),
    {
        PluginScope { plugin: owned(plugin), tasks: Vec::new() }
    }

    /// The plugin.
    pub fn plugin_id(&self) -> (r: &str)
        ensures
            r@ == self.plugin@,
    {
        self.plugin.as_str()
    }

    /// A task runs.
    pub fn spawn_detached(&mut self, task: u64)
        ensures
            final(self).tasks@ == old(self).tasks@.push(task),
            final(self).plugin == old(self).plugin,
    {
        self.tasks.push(task);
    }

    /// A task has ended.
    pub fn finished(&mut self, task: u64)
        ensures
            final(self).tasks@ == without_task(old(self).tasks@, task),
            final(self).plugin == old(self).plugin,
    {
        let ghost all = self.tasks@;
        let mut kept: Vec<u64> = Vec::new();
        let mut i: usize = 0;
        while i < self.tasks.len()
            invariant
                i <= self.tasks@.len(),
                all == self.tasks@,
                kept@ == without_task(all.take(i as int), task),
                self.plugin == old(self).plugin,
            decreases self.tasks@.len() - i,
        {
            assert(all.take(i + 1).drop_last() =~= all.take(i as int));
            if self.tasks[i] != task {
                kept.push(self.tasks[i]);
            }
            i = i + 1;
        }
        assert(all.take(all.len() as int) =~= all);
        self.tasks = kept;
    }

    /// How many tasks run.
    pub fn running_tasks(&self) -> (r: usize)
        ensures
            r == self.tasks@.len(),
    {
        self.tasks.len()
    }

    /// Cancels all tasks and tells how many ran; they are handed over to be stopped.
    pub fn cancel_all(&mut self, cancelled: &mut Vec<u64>) -> (r: usize)
        ensures
            r == old(self).tasks@.len(),
            final(self).tasks@ == Seq::<u64>::empty(),
            final(self).plugin == old(self).plugin,
            final(cancelled)@ == old(cancelled)@ + old(self).tasks@,
    {
        let running: usize = self.tasks.len();
        cancelled.append(&mut self.tasks);
        running
    }
}

/// The background tasks of all plugins.
#[derive(Debug)]
pub struct ScopeTable {
    pub scopes: TextMap<PluginScope>,
    /// The tasks that are to be stopped.
    pub cancelled: Vec<u64>,
}

/// The tasks of a plugin that run.
pub open spec fn tasks_of(scopes: Map<Seq<char>, PluginScope>, plugin: Seq<char>) -> Seq<u64> {
    if scopes.contains_key(plugin) {
        scopes[plugin].tasks@
    } else {
        Seq::empty()
    }
}

impl ScopeTable {
    /// No plugin has tasks.
    pub fn new() -> (r: ScopeTable)
        ensures
            r.scopes@ == Map::<Seq<char>, PluginScope>::empty(),
            r.cancelled@ == Seq::<u64>::empty(),
    {
        ScopeTable { scopes: TextMap::new(), cancelled: Vec::new() }
    }

    /// A task of a plugin runs.
    pub fn spawn(&mut self, plugin: &str, task: u64)
        ensures
            tasks_of(final(self).scopes@, plugin@) == tasks_of(old(self).scopes@, plugin@).push(
                task,
            ),
            final(self).scopes@.remove(plugin@) == old(self).scopes@.remove(plugin@),
            final(self).cancelled == old(self).cancelled,
    {
        let mut scope = match self.scopes.remove(plugin) {
            Some(scope) => scope,
            None => PluginScope::new(plugin),
        };
        scope.spawn_detached(task);
        self.scopes.insert(owned(plugin), scope);
        assert(self.scopes@.remove(plugin@) =~= old(self).scopes@.remove(plugin@));
    }

    /// A task of a plugin has ended.
    pub fn finished(&mut self, plugin: &str, task: u64)
        ensures
            tasks_of(final(self).scopes@, plugin@) == without_task(
                tasks_of(old(self).scopes@, plugin@),
                task,
            ),
            final(self).scopes@.remove(plugin@) == old(self).scopes@.remove(plugin@),
            final(self).cancelled == old(self).cancelled,
    {
        if let Some(mut scope) = self.scopes.remove(plugin) {
            scope.finished(task);
            self.scopes.insert(owned(plugin), scope);
        }
        assert(self.scopes@.remove(plugin@) =~= old(self).scopes@.remove(plugin@));
    }

    /// How many tasks of a plugin run.
    pub fn running_tasks(&self, plugin: &str) -> (r: usize)
        ensures
            r == tasks_of(self.scopes@, plugin@).len(),
    {
        match self.scopes.get(plugin) {
            Some(scope) => scope.running_tasks(),
            None => 0,
        }
    }

    /// Cancels all tasks of a plugin and tells how many ran.
    pub fn cancel_all(&mut self, plugin: &str) -> (r: usize)
        ensures
            r == tasks_of(old(self).scopes@, plugin@).len(),
            final(self).scopes@ == old(self).scopes@.remove(plugin@),
            final(self).cancelled@ == old(self).cancelled@ + tasks_of(old(self).scopes@, plugin@),
    {
        match self.scopes.remove(plugin) {
            Some(mut scope) => scope.cancel_all(&mut self.cancelled),
            None => {
                assert(self.cancelled@ + Seq::<u64>::empty() =~= self.cancelled@);
                0
            },
        }
    }
}

/// When the tasks of a plugin are cancelled, none of them runs on, each of them is
/// stopped, and the tasks of other plugins run on.
pub proof fn law_cancelling_stops_every_task_of_a_plugin(
    scopes: Map<Seq<char>, PluginScope>,
    plugin: Seq<char>,
    other: Seq<char>,
)
    requires
        other != plugin,
    ensures
        tasks_of(scopes.remove(plugin), plugin) == Seq::<u64>::empty(),
        tasks_of(scopes.remove(plugin), other) == tasks_of(scopes, other),
{
}

/// A task that ended is no longer among those that run, and all others are, in their
/// order.
pub proof fn law_other_tasks_run_on(tasks: Seq<u64>, task: u64)
    ensures
        without_task(tasks, task) == tasks.filter(|other: u64| other != task),
    decreases tasks.len(),
{
    reveal(Seq::filter);
    if tasks.len() > 0 {
        law_other_tasks_run_on(tasks.drop_last(), task);
    }
}

} // verus!
