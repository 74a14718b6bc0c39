//! Bringing plugins up and down. Whatever a plugin answers when it is called, what
//! becomes of it and of the others is fixed.
use crate::config::arona::AronaConfigView;
use crate::plugin::context::{ContextView, PluginContext, PluginRegistrar};
use crate::plugin::description::{compatible, MetaView};
use crate::plugin::manager::{
    answer, api_text, check_api, context_for, cycles_marked, effective, eligible, found,
    lemma_eligible_ignores_states, lemma_found, need_met, need_on, needs_of, order_of, running,
    same_plugins, with_state, AronaPlugin, LifecycleOptions, OptionsView, PluginManager,
    PluginState, PluginView, StateView,
};
use crate::plugin::order::{law_needs_go_first, places};
use crate::plugin::registries::{is_revoked, owns_nothing, Registries};
use crate::plugin::turns::{
    assemble_turn, configure_trail, install_trail, install_turn, kept_or_revoked, listeners,
    listens, reload_trail, reload_turn, rise_trail, rise_turn, start_trail, start_turn,
    stop_all_trail, stop_called, stop_trail, stop_turn, stopped_at, sync_trail, text_of, told_at,
};
use crate::runtime::config::{plugin_on, Gating};
use crate::text::{equal_ignoring_case, owned, texts};
use vstd::prelude::*;
use vstd::string::StringExecFns;

verus! {

/// The views of failures: who failed, and why.
pub open spec fn failure_views(v: Seq<(String, String)>) -> Seq<(Seq<char>, Seq<char>)> {
    Seq::new(v.len(), |i: int| (v[i].0@, v[i].1@))
}

/// Whether it is told well where a plugin stands: a failure with its reason.
pub open spec fn outcome(r: Result<(), String>, state: StateView) -> bool {
    match r {
        Ok(_) => !(state is Failed),
        Err(reason) => state == StateView::Failed(reason@),
    }
}

/// Why a plugin cannot be assembled before the configuration is there.
pub open spec fn no_options_text() -> Seq<char> {
    "框架配置尚未加载，无法装配插件"@
}

/// Why a plugin that was never assembled cannot be started.
pub open spec fn no_context_text() -> Seq<char> {
    "装配未完成，缺少上下文"@
}

/// What is said of a plugin that fails outright while it is called.
pub fn crashed_text(site: &str) -> (r: String)
    ensures
        r@ == "在"@ + site@ + "阶段 panic（已被框架隔离，栈见上方日志）"@,
{
    let mut out = owned("在");
    out.append(site);
    out.append("阶段 panic（已被框架隔离，栈见上方日志）");
    out
}

// ---------------------------------------------------------------------------
// installing

/// Where a plugin stands after it was installed.
pub open spec fn installed_state(meta: MetaView, answer: Result<(), Seq<char>>) -> StateView {
    if !compatible(meta) {
        StateView::Failed(api_text(meta))
    } else {
        match answer {
            Ok(_) => StateView::Installed,
            Err(reason) => StateView::Failed(reason),
        }
    }
}

/// The table after the plugins of an order were installed.
pub open spec fn after_install(
    table: Seq<PluginView>,
    order: Seq<int>,
    answers: Seq<Result<(), Seq<char>>>,
) -> Seq<PluginView>
    decreases order.len(),
{
    if order.len() == 0 {
        table
    } else {
        let before = after_install(table, order.drop_last(), answers.drop_last());
        with_state(
            before,
            order.last(),
            installed_state(before[order.last()].meta, answers.last()),
        )
    }
}

/// Who failed to be installed, and why.
pub open spec fn install_failures(
    table: Seq<PluginView>,
    order: Seq<int>,
    answers: Seq<Result<(), Seq<char>>>,
) -> Seq<(Seq<char>, Seq<char>)>
    decreases order.len(),
{
    if order.len() == 0 {
        Seq::empty()
    } else {
        let head = install_failures(table, order.drop_last(), answers.drop_last());
        let meta = table[order.last()].meta;
        match installed_state(meta, answers.last()) {
            StateView::Failed(reason) => head.push((meta.id, reason)),
            _ => head,
        }
    }
}

// ---------------------------------------------------------------------------
// assembling and starting

/// A plugin after it was its turn to be assembled: only one that is installed is, and
/// only if it can be at work; else it is turned off.
pub open spec fn configured(
    table: Seq<PluginView>,
    config: AronaConfigView,
    options: OptionsView,
    i: int,
    answer: Result<(), Seq<char>>,
) -> PluginView {
    if !(table[i].state is Installed) {
        table[i]
    } else if !effective(table, config, i) {
        PluginView { state: StateView::Disabled, ..table[i] }
    } else {
        assembled(table[i], context_for(table[i].meta.id, options), answer)
    }
}

/// A plugin after it was assembled.
pub open spec fn assembled(
    plugin: PluginView,
    context: ContextView,
    answer: Result<(), Seq<char>>,
) -> PluginView {
    PluginView {
        state: match answer {
            Ok(_) => StateView::Ready,
            Err(reason) => StateView::Failed(reason),
        },
        context: Some(context),
        ..plugin
    }
}

/// The table after the plugins of an order had their turn to be assembled.
pub open spec fn after_configure(
    table: Seq<PluginView>,
    config: AronaConfigView,
    options: OptionsView,
    order: Seq<int>,
    answers: Seq<Result<(), Seq<char>>>,
) -> Seq<PluginView>
    decreases order.len(),
{
    if order.len() == 0 {
        table
    } else {
        let before = after_configure(table, config, options, order.drop_last(), answers.drop_last());
        before.update(order.last(), configured(before, config, options, order.last(), answers.last()))
    }
}

/// Who failed to be assembled, and why.
pub open spec fn configure_failures(
    table: Seq<PluginView>,
    config: AronaConfigView,
    options: OptionsView,
    order: Seq<int>,
    answers: Seq<Result<(), Seq<char>>>,
) -> Seq<(Seq<char>, Seq<char>)>
    decreases order.len(),
{
    if order.len() == 0 {
        Seq::empty()
    } else {
        let head = configure_failures(table, config, options, order.drop_last(), answers.drop_last());
        let before = after_configure(table, config, options, order.drop_last(), answers.drop_last());
        let i = order.last();
        if before[i].state is Installed && effective(before, config, i) {
            match answers.last() {
                Ok(_) => head,
                Err(reason) => head.push((before[i].meta.id, reason)),
            }
        } else {
            head
        }
    }
}

/// A plugin after it was started.
pub open spec fn started(plugin: PluginView, answer: Result<(), Seq<char>>) -> PluginView {
    PluginView {
        state: if plugin.context is None {
            StateView::Failed(no_context_text())
        } else {
            match answer {
                Ok(_) => StateView::Active,
                Err(reason) => StateView::Failed(reason),
            }
        },
        ..plugin
    }
}

/// The table after the plugins of an order that were assembled were started.
pub open spec fn after_start(
    table: Seq<PluginView>,
    order: Seq<int>,
    answers: Seq<Result<(), Seq<char>>>,
) -> Seq<PluginView>
    decreases order.len(),
{
    if order.len() == 0 {
        table
    } else {
        let before = after_start(table, order.drop_last(), answers.drop_last());
        let i = order.last();
        if before[i].state is Ready {
            before.update(i, started(before[i], answers.last()))
        } else {
            before
        }
    }
}

/// Who failed to be started, and why.
pub open spec fn start_failures(
    table: Seq<PluginView>,
    order: Seq<int>,
    answers: Seq<Result<(), Seq<char>>>,
) -> Seq<(Seq<char>, Seq<char>)>
    decreases order.len(),
{
    if order.len() == 0 {
        Seq::empty()
    } else {
        let head = start_failures(table, order.drop_last(), answers.drop_last());
        let before = after_start(table, order.drop_last(), answers.drop_last());
        let i = order.last();
        if before[i].state is Ready {
            match started(before[i], answers.last()).state {
                StateView::Failed(reason) => head.push((before[i].meta.id, reason)),
                _ => head,
            }
        } else {
            head
        }
    }
}

// ---------------------------------------------------------------------------
// following the switches

/// The table after every plugin of an order that is at work but cannot be was turned
/// off, the last first.
pub open spec fn stop_pass(
    table: Seq<PluginView>,
    config: AronaConfigView,
    order: Seq<int>,
) -> Seq<PluginView>
    decreases order.len(),
{
    if order.len() == 0 {
        table
    } else {
        stop_step(stop_pass(table, config, order.drop_first()), config, order[0])
    }
}

/// Whether a plugin is at work but cannot be.
pub open spec fn must_stop(table: Seq<PluginView>, config: AronaConfigView, i: int) -> bool {
    running(table[i].state) && !effective(table, config, i)
}

/// The table after a plugin that is at work but cannot be was turned off.
pub open spec fn stop_step(
    table: Seq<PluginView>,
    config: AronaConfigView,
    i: int,
) -> Seq<PluginView> {
    if must_stop(table, config, i) {
        with_state(table, i, StateView::Disabled)
    } else {
        table
    }
}

/// The ids of the plugins that were turned off.
pub open spec fn stopped_ids(
    table: Seq<PluginView>,
    config: AronaConfigView,
    order: Seq<int>,
) -> Seq<Seq<char>>
    decreases order.len(),
{
    if order.len() == 0 {
        Seq::empty()
    } else {
        let head = stopped_ids(table, config, order.drop_first());
        let before = stop_pass(table, config, order.drop_first());
        if must_stop(before, config, order[0]) {
            head.push(before[order[0]].meta.id)
        } else {
            head
        }
    }
}

/// Whether a plugin is down but can be at work.
pub open spec fn can_rise(table: Seq<PluginView>, config: AronaConfigView, i: int) -> bool {
    effective(table, config, i) && (table[i].state is Disabled || table[i].state is Failed)
}

/// A plugin after it was assembled and started. Before the configuration is there
/// nothing happens.
pub open spec fn brought_up(
    plugin: PluginView,
    options: Option<OptionsView>,
    answers: (Result<(), Seq<char>>, Result<(), Seq<char>>),
) -> PluginView {
    match options {
        None => plugin,
        Some(options) => {
            let ready = assembled(plugin, context_for(plugin.meta.id, options), answers.0);
            match answers.0 {
                Err(_) => ready,
                Ok(_) => started(ready, answers.1),
            }
        },
    }
}

/// The table after every plugin of an order that is down but can be at work was brought
/// up.
pub open spec fn rise_pass(
    table: Seq<PluginView>,
    config: AronaConfigView,
    options: Option<OptionsView>,
    order: Seq<int>,
    answers: Seq<(Result<(), Seq<char>>, Result<(), Seq<char>>)>,
) -> Seq<PluginView>
    decreases order.len(),
{
    if order.len() == 0 {
        table
    } else {
        let before = rise_pass(table, config, options, order.drop_last(), answers.drop_last());
        let i = order.last();
        if can_rise(before, config, i) {
            before.update(i, brought_up(before[i], options, answers.last()))
        } else {
            before
        }
    }
}

/// The ids of the plugins that came up.
pub open spec fn risen_ids(
    table: Seq<PluginView>,
    config: AronaConfigView,
    options: Option<OptionsView>,
    order: Seq<int>,
    answers: Seq<(Result<(), Seq<char>>, Result<(), Seq<char>>)>,
) -> Seq<Seq<char>>
    decreases order.len(),
{
    if order.len() == 0 {
        Seq::empty()
    } else {
        let head = risen_ids(table, config, options, order.drop_last(), answers.drop_last());
        let before = rise_pass(table, config, options, order.drop_last(), answers.drop_last());
        let i = order.last();
        if can_rise(before, config, i) && brought_up(
            before[i],
            options,
            answers.last(),
        ).state is Active {
            head.push(before[i].meta.id)
        } else {
            head
        }
    }
}

/// The table after the plugins follow their switches: down, up, and down again.
pub open spec fn after_sync(
    table: Seq<PluginView>,
    config: AronaConfigView,
    options: Option<OptionsView>,
    answers: Seq<(Result<(), Seq<char>>, Result<(), Seq<char>>)>,
) -> Seq<PluginView> {
    let order = order_of(table);
    let down = stop_pass(cycles_marked(table), config, order);
    let up = rise_pass(down, config, options, order, answers);
    stop_pass(up, config, order)
}

/// The ids of the plugins that changed, in the order in which they did.
pub open spec fn sync_changes(
    table: Seq<PluginView>,
    config: AronaConfigView,
    options: Option<OptionsView>,
    answers: Seq<(Result<(), Seq<char>>, Result<(), Seq<char>>)>,
) -> Seq<Seq<char>> {
    let order = order_of(table);
    let down = stop_pass(cycles_marked(table), config, order);
    let up = rise_pass(down, config, options, order, answers);
    stopped_ids(cycles_marked(table), config, order) + risen_ids(
        down,
        config,
        options,
        order,
        answers,
    ) + stopped_ids(up, config, order)
}

/// The table after all plugins of an order were turned off.
pub open spec fn all_stopped(table: Seq<PluginView>, order: Seq<int>) -> Seq<PluginView> {
    Seq::new(
        table.len(),
        |i: int|
            if order.contains(i) {
                PluginView { state: StateView::Disabled, ..table[i] }
            } else {
                table[i]
            },
    )
}

impl<P: AronaPlugin> PluginManager<P> {
    fn id_of(&self, i: usize) -> (r: String)
        requires
            i < self.plugins@.len(),
        ensures
            r@ == self@[i as int].meta.id,
    {
        self.plugins[i].meta.id.clone()
    }

    /// Calls a plugin to be installed, unless it asks for another contract.
    fn try_install(&self, i: usize, registries: &mut Registries) -> (r: Result<(), String>)
        requires
            i < self.plugins@.len(),
        ensures
            install_turn(
                self.crew()[i as int],
                self@[i as int],
                answer(r),
                *old(registries),
                *final(registries),
            ),
    {
        let plugin = &self.plugins[i];
        if !plugin.meta.is_compatible() {
            return Ok(());
        }
        let registrar = PluginRegistrar::new(plugin.meta.id.as_str());
        plugin.instance.install(&registrar, registries)
    }

    /// Notes what a plugin answered when it was to be installed, and tells whether it
    /// is installed now. One that asks for another contract fails whatever the answer.
    pub fn note_installed(&mut self, i: usize, answered: Result<(), String>) -> (r: Result<
        (),
        String,
    >)
        requires
            i < old(self).plugins@.len(),
        ensures
            final(self)@ == with_state(
                old(self)@,
                i as int,
                installed_state(old(self)@[i as int].meta, answer(answered)),
            ),
            outcome(r, installed_state(old(self)@[i as int].meta, answer(answered))),
            final(self).crew() == old(self).crew(),
            final(self).options == old(self).options,
            final(self).plugins@.len() == old(self).plugins@.len(),
    {
        match check_api(&self.plugins[i].meta) {
            Err(reason) => {
                self.set_state(i, PluginState::Failed(reason.clone()));
                return Err(reason);
            },
            Ok(_) => {},
        }
        match answered {
            Err(reason) => {
                self.set_state(i, PluginState::Failed(reason.clone()));
                Err(reason)
            },
            Ok(_) => {
                self.set_state(i, PluginState::Installed);
                Ok(())
            },
        }
    }

    /// Installs all plugins in order and tells who failed.
    pub fn install_all(&mut self, registries: &mut Registries) -> (r: Vec<(String, String)>)
        ensures
            exists|answers: Seq<Result<(), Seq<char>>>, trail: Seq<Registries>|
                {
                    &&& #[trigger] install_trail(
                        old(self).crew(),
                        cycles_marked(old(self)@),
                        order_of(old(self)@),
                        answers,
                        trail,
                    )
                    &&& trail[0] == *old(registries)
                    &&& trail.last() == *final(registries)
                    &&& final(self)@ == after_install(
                        cycles_marked(old(self)@),
                        order_of(old(self)@),
                        answers,
                    )
                    &&& failure_views(r@) == install_failures(
                        cycles_marked(old(self)@),
                        order_of(old(self)@),
                        answers,
                    )
                },
            final(self).crew() == old(self).crew(),
            final(self).options == old(self).options,
    {
        let order = self.ordered();
        let ghost table = self@;
        let ghost crew = self.crew();
        let ghost all = places(order@);
        let ghost mut answers: Seq<Result<(), Seq<char>>> = Seq::empty();
        let ghost mut trail: Seq<Registries> = seq![*registries];
        let mut failures: Vec<(String, String)> = Vec::new();
        let mut k: usize = 0;
        assert(failure_views(failures@) =~= Seq::empty());
        assert(all.take(0) =~= Seq::<int>::empty());
        while k < order.len()
            invariant
                k <= order@.len(),
                all == places(order@),
                self.plugins@.len() == table.len(),
                self.crew() == crew,
                self.options == old(self).options,
                forall|j: int| 0 <= j < order@.len() ==> #[trigger] order@[j] < table.len(),
                install_trail(crew, table, all.take(k as int), answers, trail),
                trail[0] == *old(registries),
                trail.last() == *registries,
                self@ == after_install(table, all.take(k as int), answers),
                failure_views(failures@) == install_failures(table, all.take(k as int), answers),
                same_plugins(self@, table),
            decreases order@.len() - k,
        {
            let i: usize = order[k];
            let ghost before = self@;
            let ghost failed = failures@;
            let id = self.id_of(i);
            let answered = self.try_install(i, registries);
            let ghost a = answer(answered);
            let result = self.note_installed(i, answered);
            proof {
                let next = answers.push(a);
                let longer = trail.push(*registries);
                assert(next.drop_last() =~= answers);
                assert(longer.drop_last() =~= trail);
                assert(all.take(k + 1).drop_last() =~= all.take(k as int));
                assert(all.take(k + 1).last() == i as int);
                assert(before[i as int].meta == table[i as int].meta);
                answers = next;
                trail = longer;
            }
            match result {
                Err(reason) => {
                    failures.push((id, reason));
                    assert(failure_views(failures@) =~= failure_views(failed).push(
                        (id@, reason@),
                    ));
                },
                Ok(_) => {},
            }
            k = k + 1;
        }
        assert(all.take(all.len() as int) =~= all);
        failures
    }

    /// Notes what a plugin was assembled with, and what it answered.
    pub fn note_assembled(
        &mut self,
        i: usize,
        context: PluginContext,
        answered: &Result<(), String>,
    )
        requires
            i < old(self).plugins@.len(),
        ensures
            final(self)@ == old(self)@.update(
                i as int,
                assembled(old(self)@[i as int], context@, answer(*answered)),
            ),
            final(self).crew() == old(self).crew(),
            final(self).options == old(self).options,
            final(self).plugins@.len() == old(self).plugins@.len(),
    {
        self.plugins[i].context = Some(context);
        let state = match answered {
            Ok(_) => PluginState::Ready,
            Err(reason) => PluginState::Failed(reason.clone()),
        };
        self.plugins[i].state = state;
        assert(self@ =~= old(self)@.update(
            i as int,
            assembled(old(self)@[i as int], context@, answer(*answered)),
        ));
        assert(self.crew() =~= old(self).crew());
    }

    /// Assembles a plugin: what it had on record is taken back, and it puts on record
    /// what it wants. If it fails, everything is taken back again.
    fn assemble(&mut self, i: usize, registries: &mut Registries) -> (r: Result<(), String>)
        requires
            i < old(self).plugins@.len(),
        ensures
            match old(self).known_options() {
                None => r is Err && r->Err_0@ == no_options_text() && final(self)@ == old(self)@
                    && *final(registries) == *old(registries),
                Some(options) => {
                    let context = context_for(old(self)@[i as int].meta.id, options);
                    &&& assemble_turn(
                        old(self).crew()[i as int],
                        old(self)@[i as int],
                        context,
                        answer(r),
                        *old(registries),
                        *final(registries),
                    )
                    &&& final(self)@ == old(self)@.update(
                        i as int,
                        assembled(old(self)@[i as int], context, answer(r)),
                    )
                },
            },
            final(self).crew() == old(self).crew(),
            final(self).options == old(self).options,
            final(self).plugins@.len() == old(self).plugins@.len(),
    {
        let id = self.id_of(i);
        let context = match &self.options {
            None => {
                return Err(owned("框架配置尚未加载，无法装配插件"));
            },
            Some(options) => PluginContext::new(
                id.as_str(),
                options.onebot_config.copy(),
                options.test_notify,
            ),
        };
        let ghost start = *registries;
        let _ = registries.revoke(id.as_str());
        let ghost cleared = *registries;
        let result = self.plugins[i].instance.configure(&context, registries);
        let ghost made = *registries;
        if result.is_err() {
            let _ = registries.revoke(id.as_str());
        }
        let ghost given = context@;
        self.note_assembled(i, context, &result);
        proof {
            let plugin = old(self)@[i as int];
            assert(is_revoked(start, cleared, plugin.meta.id));
            assert(old(self).crew()[i as int].may_configure(given, cleared, made, answer(result)));
            assert(kept_or_revoked(answer(result), made, *registries, plugin.meta.id));
        }
        result
    }

    /// Has all installed plugins assembled that can be at work, turns the others off,
    /// and tells who failed.
    pub fn configure_all(
        &mut self,
        options: LifecycleOptions,
        gating: &Gating,
        registries: &mut Registries,
    ) -> (r: Vec<(String, String)>)
        ensures
            exists|answers: Seq<Result<(), Seq<char>>>, trail: Seq<Registries>|
                {
                    &&& #[trigger] configure_trail(
                        old(self).crew(),
                        cycles_marked(old(self)@),
                        gating.config@,
                        options@,
                        order_of(old(self)@),
                        answers,
                        trail,
                    )
                    &&& trail[0] == *old(registries)
                    &&& trail.last() == *final(registries)
                    &&& final(self)@ == after_configure(
                        cycles_marked(old(self)@),
                        gating.config@,
                        options@,
                        order_of(old(self)@),
                        answers,
                    )
                    &&& failure_views(r@) == configure_failures(
                        cycles_marked(old(self)@),
                        gating.config@,
                        options@,
                        order_of(old(self)@),
                        answers,
                    )
                },
            final(self).crew() == old(self).crew(),
            final(self).options == Some(options),
    {
        let ghost handed = options@;
        self.options = Some(options);
        assert(self@ =~= old(self)@);
        assert(self.crew() =~= old(self).crew());
        let order = self.ordered();
        let ghost table = self@;
        let ghost crew = self.crew();
        let ghost config = gating.config@;
        let ghost all = places(order@);
        let ghost mut answers: Seq<Result<(), Seq<char>>> = Seq::empty();
        let ghost mut trail: Seq<Registries> = seq![*registries];
        let mut failures: Vec<(String, String)> = Vec::new();
        let mut k: usize = 0;
        assert(failure_views(failures@) =~= Seq::empty());
        assert(all.take(0) =~= Seq::<int>::empty());
        while k < order.len()
            invariant
                k <= order@.len(),
                all == places(order@),
                config == gating.config@,
                self.plugins@.len() == table.len(),
                self.crew() == crew,
                self.options == Some(options),
                handed == options@,
                forall|j: int| 0 <= j < order@.len() ==> #[trigger] order@[j] < table.len(),
                configure_trail(crew, table, config, handed, all.take(k as int), answers, trail),
                trail[0] == *old(registries),
                trail.last() == *registries,
                self@ == after_configure(table, config, handed, all.take(k as int), answers),
                failure_views(failures@) == configure_failures(
                    table,
                    config,
                    handed,
                    all.take(k as int),
                    answers,
                ),
            decreases order@.len() - k,
        {
            let i: usize = order[k];
            let ghost before = self@;
            let ghost failed = failures@;
            let ghost mut a: Result<(), Seq<char>> = Ok(());
            let waiting = match &self.plugins[i].state {
                PluginState::Installed => true,
                _ => false,
            };
            if waiting {
                if !self.is_effectively_enabled(i, gating) {
                    self.set_state(i, PluginState::Disabled);
                } else {
                    let id = self.id_of(i);
                    let result = self.assemble(i, registries);
                    proof {
                        a = answer(result);
                    }
                    match result {
                        Err(reason) => {
                            failures.push((id, reason));
                            assert(failure_views(failures@) =~= failure_views(failed).push(
                                (id@, reason@),
                            ));
                        },
                        Ok(_) => {},
                    }
                }
            }
            proof {
                let next = answers.push(a);
                let longer = trail.push(*registries);
                assert(next.drop_last() =~= answers);
                assert(longer.drop_last() =~= trail);
                assert(all.take(k + 1).drop_last() =~= all.take(k as int));
                assert(all.take(k + 1).last() == i as int);
                assert(self@ =~= before.update(
                    i as int,
                    configured(before, config, handed, i as int, a),
                ));
                answers = next;
                trail = longer;
            }
            k = k + 1;
        }
        assert(all.take(all.len() as int) =~= all);
        failures
    }

    /// Calls a plugin that was assembled to be started; if it fails, everything that
    /// it has on record is taken back.
    fn try_start(&self, i: usize, registries: &mut Registries) -> (r: Result<(), String>)
        requires
            i < self.plugins@.len(),
        ensures
            start_turn(
                self.crew()[i as int],
                self@[i as int],
                answer(r),
                *old(registries),
                *final(registries),
            ),
    {
        let plugin = &self.plugins[i];
        let context = match &plugin.context {
            None => {
                return Ok(());
            },
            Some(context) => context,
        };
        let result = plugin.instance.start(context, registries);
        let ghost made = *registries;
        if result.is_err() {
            let _ = registries.revoke(plugin.meta.id.as_str());
        }
        proof {
            let instance = self.crew()[i as int];
            let view = self@[i as int];
            assert(instance.may_start(view.context->0, *old(registries), made, answer(result)));
            assert(kept_or_revoked(answer(result), made, *registries, view.meta.id));
            assert(start_turn(instance, view, answer(result), *old(registries), *registries));
        }
        result
    }

    /// Notes what a plugin answered when it was to be started, and tells whether it is
    /// started now. One that was never assembled fails whatever the answer.
    pub fn note_started(&mut self, i: usize, answered: Result<(), String>) -> (r: Result<
        (),
        String,
    >)
        requires
            i < old(self).plugins@.len(),
        ensures
            final(self)@ == old(self)@.update(
                i as int,
                started(old(self)@[i as int], answer(answered)),
            ),
            outcome(r, started(old(self)@[i as int], answer(answered)).state),
            final(self).crew() == old(self).crew(),
            final(self).options == old(self).options,
            final(self).plugins@.len() == old(self).plugins@.len(),
    {
        if self.plugins[i].context.is_none() {
            self.set_state(i, PluginState::Failed(owned("装配未完成，缺少上下文")));
            return Err(owned("装配未完成，缺少上下文"));
        }
        match answered {
            Ok(_) => {
                self.set_state(i, PluginState::Active);
                Ok(())
            },
            Err(reason) => {
                self.set_state(i, PluginState::Failed(reason.clone()));
                Err(reason)
            },
        }
    }

    /// Starts all assembled plugins in order and tells who failed.
    pub fn start_all(&mut self, registries: &mut Registries) -> (r: Vec<(String, String)>)
        ensures
            exists|answers: Seq<Result<(), Seq<char>>>, trail: Seq<Registries>|
                {
                    &&& #[trigger] start_trail(
                        old(self).crew(),
                        cycles_marked(old(self)@),
                        order_of(old(self)@),
                        answers,
                        trail,
                    )
                    &&& trail[0] == *old(registries)
                    &&& trail.last() == *final(registries)
                    &&& final(self)@ == after_start(
                        cycles_marked(old(self)@),
                        order_of(old(self)@),
                        answers,
                    )
                    &&& failure_views(r@) == start_failures(
                        cycles_marked(old(self)@),
                        order_of(old(self)@),
                        answers,
                    )
                },
            final(self).crew() == old(self).crew(),
            final(self).options == old(self).options,
    {
        let order = self.ordered();
        let ghost table = self@;
        let ghost crew = self.crew();
        let ghost all = places(order@);
        let ghost mut answers: Seq<Result<(), Seq<char>>> = Seq::empty();
        let ghost mut trail: Seq<Registries> = seq![*registries];
        let mut failures: Vec<(String, String)> = Vec::new();
        let mut k: usize = 0;
        assert(failure_views(failures@) =~= Seq::empty());
        assert(all.take(0) =~= Seq::<int>::empty());
        while k < order.len()
            invariant
                k <= order@.len(),
                all == places(order@),
                self.plugins@.len() == table.len(),
                self.crew() == crew,
                self.options == old(self).options,
                forall|j: int| 0 <= j < order@.len() ==> #[trigger] order@[j] < table.len(),
                start_trail(crew, table, all.take(k as int), answers, trail),
                trail[0] == *old(registries),
                trail.last() == *registries,
                self@ == after_start(table, all.take(k as int), answers),
                failure_views(failures@) == start_failures(table, all.take(k as int), answers),
            decreases order@.len() - k,
        {
            let i: usize = order[k];
            let ghost failed = failures@;
            let ghost mut a: Result<(), Seq<char>> = Ok(());
            let waiting = match &self.plugins[i].state {
                PluginState::Ready => true,
                _ => false,
            };
            if waiting {
                let id = self.id_of(i);
                let answered = self.try_start(i, registries);
                proof {
                    a = answer(answered);
                }
                match self.note_started(i, answered) {
                    Err(reason) => {
                        failures.push((id, reason));
                        assert(failure_views(failures@) =~= failure_views(failed).push(
                            (id@, reason@),
                        ));
                    },
                    Ok(_) => {},
                }
            }
            proof {
                let next = answers.push(a);
                let longer = trail.push(*registries);
                assert(next.drop_last() =~= answers);
                assert(longer.drop_last() =~= trail);
                assert(all.take(k + 1).drop_last() =~= all.take(k as int));
                assert(all.take(k + 1).last() == i as int);
                answers = next;
                trail = longer;
            }
            k = k + 1;
        }
        assert(all.take(all.len() as int) =~= all);
        failures
    }

    /// Turns a plugin off: it ends its work if it is at work, and whatever it has on
    /// record is taken back.
    pub fn disable(&mut self, i: usize, registries: &mut Registries)
        requires
            i < old(self).plugins@.len(),
        ensures
            final(self)@ == with_state(old(self)@, i as int, StateView::Disabled),
            stop_turn(
                old(self).crew()[i as int],
                old(self)@[i as int],
                *old(registries),
                *final(registries),
            ),
            owns_nothing(*final(registries), old(self)@[i as int].meta.id),
            final(self).crew() == old(self).crew(),
            final(self).options == old(self).options,
            final(self).plugins@.len() == old(self).plugins@.len(),
    {
        let id = self.id_of(i);
        if self.plugins[i].state.is_running() {
            if let Some(context) = &self.plugins[i].context {
                self.plugins[i].instance.stop(context, registries);
            }
        }
        let ghost ended = *registries;
        assert(stop_called(self.crew()[i as int], self@[i as int], *old(registries), ended));
        let _ = registries.revoke(id.as_str());
        assert(is_revoked(ended, *registries, self@[i as int].meta.id));
        self.set_state(i, PluginState::Disabled);
    }

    /// Turns the plugin with an id off; false where there is none.
    pub fn disable_id(&mut self, plugin: &str, registries: &mut Registries) -> (r: bool)
        ensures
            match found(old(self)@, plugin@) {
                Some(at) => {
                    &&& r
                    &&& final(self)@ == with_state(old(self)@, at, StateView::Disabled)
                    &&& if old(self)@[at].state is Disabled {
                        *final(registries) == *old(registries)
                    } else {
                        stop_turn(
                            old(self).crew()[at],
                            old(self)@[at],
                            *old(registries),
                            *final(registries),
                        ) && owns_nothing(*final(registries), old(self)@[at].meta.id)
                    }
                },
                None => !r && final(self)@ == old(self)@ && *final(registries) == *old(
                    registries),
            },
            final(self).crew() == old(self).crew(),
            final(self).options == old(self).options,
    {
        proof {
            lemma_found(self@, plugin@);
        }
        match self.find(plugin) {
            Some(at) => {
                let off = match &self.plugins[at].state {
                    PluginState::Disabled => true,
                    _ => false,
                };
                if !off {
                    self.disable(at, registries);
                } else {
                    assert(self@ =~= with_state(old(self)@, at as int, StateView::Disabled));
                }
                true
            },
            None => false,
        }
    }

    /// Assembles and starts a plugin.
    fn bring_up(&mut self, i: usize, registries: &mut Registries)
        requires
            i < old(self).plugins@.len(),
        ensures
            exists|a: (Result<(), Seq<char>>, Result<(), Seq<char>>)|
                #[trigger] rise_turn(
                    old(self).crew()[i as int],
                    old(self)@[i as int],
                    old(self).known_options(),
                    a,
                    *old(registries),
                    *final(registries),
                ) && final(self)@ == old(self)@.update(
                    i as int,
                    brought_up(old(self)@[i as int], old(self).known_options(), a),
                ),
            final(self).crew() == old(self).crew(),
            final(self).options == old(self).options,
            final(self).plugins@.len() == old(self).plugins@.len(),
    {
        let ghost instance = self.crew()[i as int];
        let ghost plugin = self@[i as int];
        let ghost options = self.known_options();
        let ghost start = *registries;
        let result = self.assemble(i, registries);
        let ghost first = answer(result);
        let ghost made = *registries;
        match result {
            Err(_) => {
                proof {
                    let a = (first, Ok(()));
                    assert(rise_turn(instance, plugin, options, a, start, made));
                    assert(self@ =~= old(self)@.update(i as int, brought_up(plugin, options, a)));
                }
            },
            Ok(_) => {
                let answered = self.try_start(i, registries);
                let ghost a = (first, answer(answered));
                let _ = self.note_started(i, answered);
                proof {
                    let context = context_for(plugin.meta.id, options->0);
                    assert(assemble_turn(instance, plugin, context, a.0, start, made));
                    assert(rise_turn(instance, plugin, options, a, start, *registries));
                    assert(self@ =~= old(self)@.update(i as int, brought_up(plugin, options, a)));
                }
            },
        }
    }

    fn stop_ineligible(
        &mut self,
        order: &Vec<usize>,
        gating: &Gating,
        registries: &mut Registries,
        changed: &mut Vec<String>,
    )
        requires
            forall|j: int| 0 <= j < order@.len() ==> #[trigger] order@[j] < old(
                self).plugins@.len(),
        ensures
            final(self)@ == stop_pass(old(self)@, gating.config@, places(order@)),
            exists|trail: Seq<Registries>|
                #[trigger] stop_trail(
                    old(self).crew(),
                    old(self)@,
                    gating.config@,
                    places(order@),
                    trail,
                ) && trail[0] == *old(registries) && trail.last() == *final(registries),
            texts(final(changed)@) == texts(old(changed)@) + stopped_ids(
                old(self)@,
                gating.config@,
                places(order@),
            ),
            final(self).crew() == old(self).crew(),
            final(self).options == old(self).options,
            final(self).plugins@.len() == old(self).plugins@.len(),
    {
        let ghost all = places(order@);
        let ghost config = gating.config@;
        let ghost table = self@;
        let ghost crew = self.crew();
        let ghost mut trail: Seq<Registries> = seq![*registries];
        let mut k: usize = order.len();
        assert(all.skip(all.len() as int) =~= Seq::<int>::empty());
        assert(texts(changed@) + Seq::<Seq<char>>::empty() =~= texts(changed@));
        while k > 0
            invariant
                k <= order@.len(),
                all == places(order@),
                config == gating.config@,
                self.plugins@.len() == table.len(),
                self.crew() == crew,
                self.options == old(self).options,
                forall|j: int| 0 <= j < order@.len() ==> #[trigger] order@[j] < table.len(),
                self@ == stop_pass(table, config, all.skip(k as int)),
                stop_trail(crew, table, config, all.skip(k as int), trail),
                trail[0] == *old(registries),
                trail.last() == *registries,
                texts(changed@) == texts(old(changed)@) + stopped_ids(
                    table,
                    config,
                    all.skip(k as int),
                ),
            decreases k,
        {
            k = k - 1;
            let i: usize = order[k];
            let ghost noted = changed@;
            let ghost head = stopped_ids(table, config, all.skip(k + 1));
            assert(all.skip(k as int).drop_first() =~= all.skip(k + 1));
            assert(all.skip(k as int)[0] == i as int);
            if self.plugins[i].state.is_running() && !self.is_effectively_enabled(i, gating) {
                let id = self.id_of(i);
                self.disable(i, registries);
                changed.push(id);
                assert(texts(changed@) =~= texts(noted).push(id@));
                assert((texts(old(changed)@) + head).push(id@) =~= texts(old(changed)@) + head.push(
                    id@,
                ));
            }
            proof {
                let longer = trail.push(*registries);
                assert(longer.drop_last() =~= trail);
                trail = longer;
            }
        }
        assert(all.skip(0) =~= all);
    }

    /// Has the plugins follow their switches: those that cannot be at work are turned
    /// off, those that can are brought up. Tells which ones changed.
    pub fn sync_enabled_state(&mut self, gating: &Gating, registries: &mut Registries) -> (r: Vec<
        String,
    >)
        ensures
            exists|
                answers: Seq<(Result<(), Seq<char>>, Result<(), Seq<char>>)>,
                trails: (Seq<Registries>, Seq<Registries>, Seq<Registries>),
            |
                {
                    &&& #[trigger] sync_trail(
                        old(self).crew(),
                        old(self)@,
                        gating.config@,
                        old(self).known_options(),
                        answers,
                        trails,
                    )
                    &&& trails.0[0] == *old(registries)
                    &&& trails.2.last() == *final(registries)
                    &&& final(self)@ == after_sync(
                        old(self)@,
                        gating.config@,
                        old(self).known_options(),
                        answers,
                    )
                    &&& texts(r@) == sync_changes(
                        old(self)@,
                        gating.config@,
                        old(self).known_options(),
                        answers,
                    )
                },
            final(self).crew() == old(self).crew(),
            final(self).options == old(self).options,
    {
        let ghost config = gating.config@;
        let ghost options = self.known_options();
        let ghost crew = self.crew();
        let order = self.ordered();
        let ghost marked = self@;
        let ghost all = places(order@);
        let mut changed: Vec<String> = Vec::new();
        assert(texts(changed@) =~= Seq::<Seq<char>>::empty());
        self.stop_ineligible(&order, gating, registries, &mut changed);
        let ghost down = self@;
        let ghost first = texts(changed@);
        assert(first =~= stopped_ids(marked, config, all));
        let ghost downs = choose|trail: Seq<Registries>|
            #[trigger] stop_trail(crew, marked, config, all, trail) && trail[0] == *old(registries)
                && trail.last() == *registries;
        let ghost mut answers: Seq<(Result<(), Seq<char>>, Result<(), Seq<char>>)> = Seq::empty();
        let ghost middle = *registries;
        let ghost mut trail: Seq<Registries> = seq![*registries];
        let mut k: usize = 0;
        assert(all.take(0) =~= Seq::<int>::empty());
        assert(first + risen_ids(down, config, options, all.take(0), answers) =~= first);
        while k < order.len()
            invariant
                k <= order@.len(),
                all == places(order@),
                config == gating.config@,
                self.plugins@.len() == down.len(),
                self.crew() == crew,
                self.options == old(self).options,
                options == self.known_options(),
                forall|j: int| 0 <= j < order@.len() ==> #[trigger] order@[j] < down.len(),
                rise_trail(crew, down, config, options, all.take(k as int), answers, trail),
                trail[0] == middle,
                trail.last() == *registries,
                self@ == rise_pass(down, config, options, all.take(k as int), answers),
                texts(changed@) == first + risen_ids(
                    down,
                    config,
                    options,
                    all.take(k as int),
                    answers,
                ),
            decreases order@.len() - k,
        {
            let i: usize = order[k];
            let ghost before = self@;
            let ghost start = *registries;
            let ghost noted = changed@;
            let ghost mut a: (Result<(), Seq<char>>, Result<(), Seq<char>>) = (Ok(()), Ok(()));
            let down_now = match &self.plugins[i].state {
                PluginState::Disabled => true,
                PluginState::Failed(_) => true,
                _ => false,
            };
            let ghost head = risen_ids(down, config, options, all.take(k as int), answers);
            if self.is_effectively_enabled(i, gating) && down_now {
                self.bring_up(i, registries);
                proof {
                    a = choose|a: (Result<(), Seq<char>>, Result<(), Seq<char>>)|
                        #[trigger] rise_turn(
                            crew[i as int],
                            before[i as int],
                            options,
                            a,
                            start,
                            *registries,
                        ) && self@ == before.update(
                            i as int,
                            brought_up(before[i as int], options, a),
                        );
                }
                let active = match &self.plugins[i].state {
                    PluginState::Active => true,
                    _ => false,
                };
                assert(self@[i as int] == brought_up(before[i as int], options, a));
                if active {
                    let id = self.id_of(i);
                    changed.push(id);
                    assert(texts(changed@) =~= texts(noted).push(id@));
                    assert(texts(changed@) =~= first + head.push(id@));
                }
            }
            proof {
                let next = answers.push(a);
                let longer = trail.push(*registries);
                assert(next.drop_last() =~= answers);
                assert(longer.drop_last() =~= trail);
                assert(all.take(k + 1).drop_last() =~= all.take(k as int));
                assert(all.take(k + 1).last() == i as int);
                answers = next;
                trail = longer;
            }
            k = k + 1;
        }
        assert(all.take(all.len() as int) =~= all);
        let ghost up = self@;
        let ghost risen = *registries;
        self.stop_ineligible(&order, gating, registries, &mut changed);
        proof {
            let again = choose|trail: Seq<Registries>|
                #[trigger] stop_trail(crew, up, config, all, trail) && trail[0] == risen
                    && trail.last() == *registries;
            assert(down == stop_pass(marked, config, all));
            assert(up == rise_pass(down, config, options, all, answers));
            assert(self@ == after_sync(old(self)@, config, options, answers));
            assert(texts(changed@) == sync_changes(old(self)@, config, options, answers));
            assert(sync_trail(
                crew,
                old(self)@,
                config,
                options,
                answers,
                (downs, trail, again),
            ));
        }
        changed
    }

    fn listeners_among(&self, order: &Vec<usize>, only: Option<&str>) -> (r: Vec<usize>)
        requires
            forall|j: int| 0 <= j < order@.len() ==> #[trigger] order@[j] < self.plugins@.len(),
        ensures
            places(r@) == places(order@).filter(|i: int| listens(self@, text_of(only), i)),
            forall|j: int| 0 <= j < r@.len() ==> #[trigger] r@[j] < self.plugins@.len(),
    {
        let ghost all = places(order@);
        let ghost chosen = |i: int| listens(self@, text_of(only), i);
        let mut out: Vec<usize> = Vec::new();
        let mut k: usize = 0;
        proof {
            reveal(Seq::filter);
            assert(all.take(0).filter(chosen) =~= Seq::<int>::empty());
            assert(places(out@) =~= all.take(0).filter(chosen));
        }
        while k < order.len()
            invariant
                k <= order@.len(),
                all == places(order@),
                chosen == (|i: int| listens(self@, text_of(only), i)),
                forall|j: int|
                    0 <= j < order@.len() ==> #[trigger] order@[j] < self.plugins@.len(),
                places(out@) == all.take(k as int).filter(chosen),
                forall|j: int| 0 <= j < out@.len() ==> #[trigger] out@[j] < self.plugins@.len(),
            decreases order@.len() - k,
        {
            let i: usize = order[k];
            let ghost before = out@;
            let plugin = &self.plugins[i];
            let meant = match only {
                Some(id) => equal_ignoring_case(plugin.meta.id.as_str(), id),
                None => true,
            };
            let told = meant && plugin.state.is_running() && plugin.context.is_some();
            assert(told == chosen(i as int));
            if told {
                out.push(i);
                assert(places(out@) =~= places(before).push(i as int));
            }
            proof {
                reveal(Seq::filter);
                assert(all.take(k + 1).drop_last() =~= all.take(k as int));
                assert(all.take(k + 1).last() == i as int);
            }
            k = k + 1;
        }
        assert(all.take(all.len() as int) =~= all);
        out
    }

    /// The plugins that are told when configurations were read again: all that are at
    /// work, or the one with an id; what others need is told first.
    pub fn reload_listeners(&self, only: Option<&str>) -> (r: Vec<usize>)
        ensures
            places(r@) == listeners(self@, text_of(only)),
    {
        let order = self.order();
        self.listeners_among(&order, only)
    }

    /// Tells plugins that their configuration was read again: all that are at work, or
    /// the one with an id.
    pub fn notify_config_reloaded(&mut self, only: Option<&str>, registries: &mut Registries)
        ensures
            final(self)@ == cycles_marked(old(self)@),
            exists|trail: Seq<Registries>|
                #[trigger] reload_trail(
                    old(self).crew(),
                    old(self)@,
                    listeners(old(self)@, text_of(only)),
                    trail,
                ) && trail[0] == *old(registries) && trail.last() == *final(registries),
            final(self).crew() == old(self).crew(),
            final(self).options == old(self).options,
    {
        let ghost table = self@;
        let ghost crew = self.crew();
        let order = self.ordered();
        let told = self.listeners_among(&order, only);
        let ghost all = places(told@);
        let ghost mut trail: Seq<Registries> = seq![*registries];
        proof {
            lemma_marking_keeps_listeners(table, text_of(only));
        }
        let mut k: usize = 0;
        while k < told.len()
            invariant
                k <= told@.len(),
                all == places(told@),
                all == listeners(table, text_of(only)),
                forall|j: int| 0 <= j < told@.len() ==> #[trigger] told@[j] < self.plugins@.len(),
                forall|j: int| 0 <= j < told@.len() ==> table[#[trigger] all[j]] == self@[all[j]]
                    && table[all[j]].context is Some,
                self@ == cycles_marked(old(self)@),
                self.crew() == crew,
                self.options == old(self).options,
                trail.len() == k + 1,
                trail[0] == *old(registries),
                trail.last() == *registries,
                forall|j: int| 0 <= j < k ==> #[trigger] told_at(crew, table, all, trail, j),
            decreases told@.len() - k,
        {
            let i: usize = told[k];
            let ghost start = *registries;
            assert(all[k as int] == i as int);
            if let Some(context) = &self.plugins[i].context {
                self.plugins[i].instance.on_config_reload(context, registries);
            }
            proof {
                let longer = trail.push(*registries);
                assert(reload_turn(crew[i as int], table[i as int], start, *registries));
                assert forall|j: int| 0 <= j < k + 1 implies #[trigger] told_at(
                    crew,
                    table,
                    all,
                    longer,
                    j,
                ) by {
                    if j < k {
                        assert(told_at(crew, table, all, trail, j));
                    }
                }
                trail = longer;
            }
            k = k + 1;
        }
        assert(reload_trail(crew, table, all, trail));
    }

    /// Tells the plugin with an id, whatever the case, that its configuration was read
    /// again, if it is at work.
    pub fn notify_config_reloaded_of(&mut self, plugin: &str, registries: &mut Registries)
        ensures
            final(self)@ == cycles_marked(old(self)@),
            exists|trail: Seq<Registries>|
                #[trigger] reload_trail(
                    old(self).crew(),
                    old(self)@,
                    listeners(old(self)@, Some(plugin@)),
                    trail,
                ) && trail[0] == *old(registries) && trail.last() == *final(registries),
            final(self).crew() == old(self).crew(),
            final(self).options == old(self).options,
    {
        self.notify_config_reloaded(Some(plugin), registries);
    }

    /// Turns all plugins off, in the reverse order.
    pub fn stop_all(&mut self, registries: &mut Registries)
        ensures
            final(self)@ == all_stopped(cycles_marked(old(self)@), order_of(old(self)@)),
            exists|trail: Seq<Registries>|
                #[trigger] stop_all_trail(
                    old(self).crew(),
                    cycles_marked(old(self)@),
                    order_of(old(self)@),
                    trail,
                ) && trail[0] == *old(registries) && trail.last() == *final(registries),
            final(self).crew() == old(self).crew(),
            final(self).options == old(self).options,
    {
        let order = self.ordered();
        let ghost table = self@;
        let ghost crew = self.crew();
        let ghost all = places(order@);
        let ghost mut trail: Seq<Registries> = seq![*registries];
        let mut k: usize = order.len();
        proof {
            law_needs_go_first(needs_of(old(self)@));
            assert(all.skip(all.len() as int) =~= Seq::<int>::empty());
            assert(self@ =~= all_stopped(table, Seq::empty()));
        }
        while k > 0
            invariant
                k <= order@.len(),
                all == places(order@),
                all.no_duplicates(),
                self.plugins@.len() == table.len(),
                self.crew() == crew,
                self.options == old(self).options,
                forall|j: int| 0 <= j < order@.len() ==> #[trigger] order@[j] < table.len(),
                self@ == all_stopped(table, all.skip(k as int)),
                trail.len() == order@.len() - k + 1,
                trail[0] == *old(registries),
                trail.last() == *registries,
                forall|j: int|
                    k <= j < order@.len() ==> #[trigger] stopped_at(crew, table, all, trail, j),
            decreases k,
        {
            k = k - 1;
            let i: usize = order[k];
            let ghost before = all.skip(k + 1);
            let ghost after = all.skip(k as int);
            let ghost start = *registries;
            proof {
                assert(all[k as int] == i as int);
                assert(!before.contains(i as int)) by {
                    assert forall|q: int| 0 <= q < before.len() implies before[q] != i by {
                        assert(before[q] == all[k + 1 + q]);
                    }
                }
                assert(self@[i as int] == table[i as int]);
            }
            self.disable(i, registries);
            proof {
                assert(after[0] == i as int);
                assert forall|j: int| after.contains(j) == (before.contains(j) || j == i) by {
                    if before.contains(j) {
                        let p = choose|p: int| 0 <= p < before.len() && before[p] == j;
                        assert(after[p + 1] == j);
                    }
                    if after.contains(j) && j != i {
                        let p = choose|p: int| 0 <= p < after.len() && after[p] == j;
                        assert(before[p - 1] == j);
                    }
                }
                assert(self@ =~= all_stopped(table, after));
                let longer = trail.push(*registries);
                assert(stop_turn(crew[i as int], table[i as int], start, *registries));
                assert forall|j: int| k <= j < order@.len() implies #[trigger] stopped_at(
                    crew,
                    table,
                    all,
                    longer,
                    j,
                ) by {
                    if j > k {
                        assert(stopped_at(crew, table, all, trail, j));
                    }
                }
                trail = longer;
            }
        }
        assert(all.skip(0) =~= all);
        assert(stop_all_trail(crew, table, all, trail));
    }
}

/// Marking the plugins that wait for each other changes neither the order nor who is
/// told that configurations were read again.
proof fn lemma_marking_keeps_listeners(table: Seq<PluginView>, only: Option<Seq<char>>)
    ensures
        order_of(table).filter(|i: int| listens(cycles_marked(table), only, i)) == listeners(
            table,
            only,
        ),
        forall|j: int|
            0 <= j < listeners(table, only).len() ==> table[#[trigger] listeners(table, only)[j]]
                == cycles_marked(table)[listeners(table, only)[j]] && table[listeners(
                table,
                only,
            )[j]].context is Some,
{
    lemma_order_in_range(table);
    let order = order_of(table);
    let marked = cycles_marked(table);
    lemma_same_filter(
        order,
        |i: int| listens(marked, only, i),
        |i: int| listens(table, only, i),
    );
    let chosen = |i: int| listens(table, only, i);
    assert forall|j: int| 0 <= j < listeners(table, only).len() implies table[#[trigger] listeners(
        table,
        only,
    )[j]] == marked[listeners(table, only)[j]] && table[listeners(table, only)[j]].context is Some by {
        let i = listeners(table, only)[j];
        assert(listeners(table, only).contains(i));
        order.lemma_filter_pred(chosen, j);
        order.lemma_filter_contains_rev(chosen, i);
    }
}

proof fn lemma_same_filter(s: Seq<int>, f: spec_fn(int) -> bool, g: spec_fn(int) -> bool)
    requires
        forall|k: int| 0 <= k < s.len() ==> f(#[trigger] s[k]) == g(s[k]),
    ensures
        s.filter(f) == s.filter(g),
    decreases s.len(),
{
    reveal(Seq::filter);
    if s.len() > 0 {
        assert forall|k: int| 0 <= k < s.len() - 1 implies f(#[trigger] s.drop_last()[k]) == g(
            s.drop_last()[k],
        ) by {
            assert(f(s[k]) == g(s[k]));
        }
        assert(f(s[s.len() - 1]) == g(s[s.len() - 1]));
        lemma_same_filter(s.drop_last(), f, g);
    }
}

// ---------------------------------------------------------------------------
// laws

/// Whether plugin `i` comes at place `p` of an order, and nowhere else.
pub open spec fn only_at(order: Seq<int>, i: int, p: int) -> bool {
    0 <= p < order.len() && order[p] == i && forall|q: int|
        0 <= q < order.len() && q != p ==> #[trigger] order[q] != i
}

/// What becomes of a plugin while it is installed depends on its own answer alone: a
/// failure of one plugin touches no other.
pub proof fn law_one_failure_touches_one_plugin(
    table: Seq<PluginView>,
    order: Seq<int>,
    answers: Seq<Result<(), Seq<char>>>,
    i: int,
    p: int,
)
    requires
        order.len() == answers.len(),
        0 <= i < table.len(),
        forall|q: int| 0 <= q < order.len() ==> 0 <= #[trigger] order[q] < table.len(),
        only_at(order, i, p),
    ensures
        after_install(table, order, answers)[i] == (PluginView {
            state: installed_state(table[i].meta, answers[p]),
            ..table[i]
        }),
    decreases order.len(),
{
    let head = order.drop_last();
    lemma_install_keeps(table, head, answers.drop_last());
    if p == order.len() - 1 {
        assert forall|q: int| 0 <= q < head.len() implies #[trigger] head[q] != i by {
            assert(order[q] != i);
        }
        lemma_install_untouched(table, head, answers.drop_last(), i);
    } else {
        assert(order[order.len() - 1] != i);
        assert(only_at(head, i, p)) by {
            assert forall|q: int| 0 <= q < head.len() && q != p implies #[trigger] head[q] != i by {
                assert(order[q] != i);
            }
        }
        law_one_failure_touches_one_plugin(table, head, answers.drop_last(), i, p);
    }
}

proof fn lemma_install_keeps(
    table: Seq<PluginView>,
    order: Seq<int>,
    answers: Seq<Result<(), Seq<char>>>,
)
    requires
        forall|q: int| 0 <= q < order.len() ==> 0 <= #[trigger] order[q] < table.len(),
    ensures
        after_install(table, order, answers).len() == table.len(),
    decreases order.len(),
{
    if order.len() > 0 {
        assert forall|q: int| 0 <= q < order.len() - 1 implies 0 <= #[trigger] order.drop_last()[q]
            < table.len() by {
            assert(0 <= order[q] < table.len());
        }
        lemma_install_keeps(table, order.drop_last(), answers.drop_last());
    }
}

proof fn lemma_install_untouched(
    table: Seq<PluginView>,
    order: Seq<int>,
    answers: Seq<Result<(), Seq<char>>>,
    i: int,
)
    requires
        0 <= i < table.len(),
        forall|q: int| 0 <= q < order.len() ==> 0 <= #[trigger] order[q] < table.len(),
        forall|q: int| 0 <= q < order.len() ==> #[trigger] order[q] != i,
    ensures
        after_install(table, order, answers)[i] == table[i],
    decreases order.len(),
{
    if order.len() > 0 {
        let head = order.drop_last();
        assert forall|q: int| 0 <= q < head.len() implies 0 <= #[trigger] head[q] < table.len()
            && head[q] != i by {
            assert(order[q] != i);
        }
        assert(order[order.len() - 1] != i);
        lemma_install_keeps(table, head, answers.drop_last());
        lemma_install_untouched(table, head, answers.drop_last(), i);
    }
}

proof fn lemma_stop_step(table: Seq<PluginView>, config: AronaConfigView, i: int)
    requires
        0 <= i < table.len(),
    ensures
        same_plugins(stop_step(table, config, i), table),
{
}

pub(crate) proof fn lemma_stop_pass(
    table: Seq<PluginView>,
    config: AronaConfigView,
    order: Seq<int>,
    i: int,
)
    requires
        0 <= i < table.len(),
        forall|q: int| 0 <= q < order.len() ==> 0 <= #[trigger] order[q] < table.len(),
    ensures
        same_plugins(stop_pass(table, config, order), table),
        running(stop_pass(table, config, order)[i].state) ==> running(table[i].state),
        running(stop_pass(table, config, order)[i].state) && order.contains(i) ==> eligible(
            table,
            config,
            i,
        ),
    decreases order.len(),
{
    if order.len() > 0 {
        let first = order[0];
        let rest = order.drop_first();
        let before = stop_pass(table, config, rest);
        assert forall|q: int| 0 <= q < rest.len() implies 0 <= #[trigger] rest[q] < table.len() by {
            assert(0 <= order[q + 1] < table.len());
        }
        lemma_stop_pass(table, config, rest, i);
        lemma_stop_step(before, config, first);
        lemma_eligible_ignores_states(before, table, config, i);
        if running(stop_pass(table, config, order)[i].state) && order.contains(i) {
            if i == first {
                assert(effective(before, config, i));
                assert forall|k: int| 0 <= k < before[i].meta.depends.len() implies need_on(
                    before,
                    config,
                    #[trigger] before[i].meta.depends[k],
                ) by {
                    assert(need_met(before, config, before[i].meta.depends[k]));
                }
            } else {
                let p = choose|p: int| 0 <= p < order.len() && order[p] == i;
                assert(rest[p - 1] == i);
            }
        }
    }
}

pub(crate) proof fn lemma_rise_pass_keeps(
    table: Seq<PluginView>,
    config: AronaConfigView,
    options: Option<OptionsView>,
    order: Seq<int>,
    answers: Seq<(Result<(), Seq<char>>, Result<(), Seq<char>>)>,
)
    requires
        forall|q: int| 0 <= q < order.len() ==> 0 <= #[trigger] order[q] < table.len(),
    ensures
        same_plugins(rise_pass(table, config, options, order, answers), table),
    decreases order.len(),
{
    if order.len() > 0 {
        let head = order.drop_last();
        assert forall|q: int| 0 <= q < head.len() implies 0 <= #[trigger] head[q] < table.len() by {
            assert(0 <= order[q] < table.len());
        }
        lemma_rise_pass_keeps(table, config, options, head, answers.drop_last());
        assert(0 <= order[order.len() - 1] < table.len());
    }
}

pub(crate) proof fn lemma_order_in_range(table: Seq<PluginView>)
    ensures
        forall|q: int|
            0 <= q < order_of(table).len() ==> 0 <= #[trigger] order_of(table)[q] < table.len(),
        order_of(table).no_duplicates(),
{
    law_needs_go_first(needs_of(table));
}

/// Once the plugins have followed their switches, no plugin is at work that is turned
/// off, that asks for another contract, or that cannot do without a plugin that is
/// missing or turned off.
pub proof fn law_no_unwanted_plugin_stays_at_work(
    table: Seq<PluginView>,
    config: AronaConfigView,
    options: Option<OptionsView>,
    answers: Seq<(Result<(), Seq<char>>, Result<(), Seq<char>>)>,
    i: int,
)
    requires
        0 <= i < table.len(),
        answers.len() == order_of(table).len(),
        order_of(table).contains(i),
        running(after_sync(table, config, options, answers)[i].state),
    ensures
        eligible(table, config, i),
{
    lemma_order_in_range(table);
    let order = order_of(table);
    let marked = cycles_marked(table);
    let down = stop_pass(marked, config, order);
    let up = rise_pass(down, config, options, order, answers);
    assert(same_plugins(marked, table));
    lemma_stop_pass(marked, config, order, i);
    lemma_rise_pass_keeps(down, config, options, order, answers);
    lemma_stop_pass(up, config, order, i);
    lemma_eligible_ignores_states(up, table, config, i);
}

/// A plugin that waits for itself is never at work after the plugins have followed
/// their switches.
pub proof fn law_plugins_in_a_cycle_stay_down(
    table: Seq<PluginView>,
    config: AronaConfigView,
    options: Option<OptionsView>,
    answers: Seq<(Result<(), Seq<char>>, Result<(), Seq<char>>)>,
    i: int,
)
    requires
        0 <= i < table.len(),
        answers.len() == order_of(table).len(),
        !order_of(table).contains(i),
    ensures
        after_sync(table, config, options, answers)[i].state is Failed,
{
    lemma_order_in_range(table);
    let order = order_of(table);
    let marked = cycles_marked(table);
    let down = stop_pass(marked, config, order);
    let up = rise_pass(down, config, options, order, answers);
    assert(same_plugins(marked, table));
    lemma_stop_pass(marked, config, order, i);
    lemma_stop_untouched(marked, config, order, i);
    lemma_rise_pass_keeps(down, config, options, order, answers);
    lemma_rise_untouched(down, config, options, order, answers, i);
    lemma_stop_untouched(up, config, order, i);
}

pub(crate) proof fn lemma_stop_untouched(
    table: Seq<PluginView>,
    config: AronaConfigView,
    order: Seq<int>,
    i: int,
)
    requires
        0 <= i < table.len(),
        forall|q: int| 0 <= q < order.len() ==> 0 <= #[trigger] order[q] < table.len(),
        !order.contains(i),
    ensures
        stop_pass(table, config, order)[i] == table[i],
    decreases order.len(),
{
    if order.len() > 0 {
        let rest = order.drop_first();
        assert forall|q: int| 0 <= q < rest.len() implies 0 <= #[trigger] rest[q] < table.len()
            && rest[q] != i by {
            assert(order.contains(order[q + 1]));
        }
        assert(order.contains(order[0]));
        lemma_stop_pass(table, config, rest, i);
        lemma_stop_untouched(table, config, rest, i);
    }
}

pub(crate) proof fn lemma_rise_untouched(
    table: Seq<PluginView>,
    config: AronaConfigView,
    options: Option<OptionsView>,
    order: Seq<int>,
    answers: Seq<(Result<(), Seq<char>>, Result<(), Seq<char>>)>,
    i: int,
)
    requires
        0 <= i < table.len(),
        forall|q: int| 0 <= q < order.len() ==> 0 <= #[trigger] order[q] < table.len(),
        !order.contains(i),
    ensures
        rise_pass(table, config, options, order, answers)[i] == table[i],
    decreases order.len(),
{
    if order.len() > 0 {
        let head = order.drop_last();
        assert forall|q: int| 0 <= q < head.len() implies 0 <= #[trigger] head[q] < table.len()
            && head[q] != i by {
            assert(order.contains(order[q]));
        }
        assert(order.contains(order[order.len() - 1]));
        lemma_rise_pass_keeps(table, config, options, head, answers.drop_last());
        lemma_rise_untouched(table, config, options, head, answers.drop_last(), i);
    }
}

/// Whether a plugin can be at work whatever the others do.
pub open spec fn independent(table: Seq<PluginView>, config: AronaConfigView, i: int) -> bool {
    &&& plugin_on(config, table[i].meta.id)
    &&& compatible(table[i].meta)
    &&& table[i].meta.depends.len() == 0
}

proof fn lemma_stop_spares(
    table: Seq<PluginView>,
    config: AronaConfigView,
    order: Seq<int>,
    i: int,
)
    requires
        0 <= i < table.len(),
        independent(table, config, i),
        forall|q: int| 0 <= q < order.len() ==> 0 <= #[trigger] order[q] < table.len(),
    ensures
        stop_pass(table, config, order)[i] == table[i],
    decreases order.len(),
{
    if order.len() > 0 {
        let rest = order.drop_first();
        let before = stop_pass(table, config, rest);
        assert forall|q: int| 0 <= q < rest.len() implies 0 <= #[trigger] rest[q] < table.len() by {
            assert(0 <= order[q + 1] < table.len());
        }
        lemma_stop_pass(table, config, rest, i);
        lemma_stop_spares(table, config, rest, i);
        assert(effective(before, config, i));
    }
}

proof fn lemma_rise_raises(
    table: Seq<PluginView>,
    config: AronaConfigView,
    options: Option<OptionsView>,
    order: Seq<int>,
    answers: Seq<(Result<(), Seq<char>>, Result<(), Seq<char>>)>,
    i: int,
    p: int,
)
    requires
        0 <= i < table.len(),
        order.len() == answers.len(),
        independent(table, config, i),
        table[i].state is Disabled || table[i].state is Failed,
        forall|q: int| 0 <= q < order.len() ==> 0 <= #[trigger] order[q] < table.len(),
        only_at(order, i, p),
    ensures
        rise_pass(table, config, options, order, answers)[i] == brought_up(table[i], options, answers[p]),
    decreases order.len(),
{
    let head = order.drop_last();
    assert forall|q: int| 0 <= q < head.len() implies 0 <= #[trigger] head[q] < table.len() by {
        assert(0 <= order[q] < table.len());
    }
    lemma_rise_pass_keeps(table, config, options, head, answers.drop_last());
    let before = rise_pass(table, config, options, head, answers.drop_last());
    assert(before[i].meta == table[i].meta);
    if p == order.len() - 1 {
        assert(!head.contains(i)) by {
            assert forall|q: int| 0 <= q < head.len() implies head[q] != i by {
                assert(order[q] != i);
            }
        }
        lemma_rise_untouched(table, config, options, head, answers.drop_last(), i);
        assert(effective(before, config, i));
    } else {
        assert(order[order.len() - 1] != i);
        assert(only_at(head, i, p)) by {
            assert forall|q: int| 0 <= q < head.len() && q != p implies #[trigger] head[q] != i by {
                assert(order[q] != i);
            }
        }
        lemma_rise_raises(table, config, options, head, answers.drop_last(), i, p);
    }
}

/// A plugin that was turned off or had failed, that is turned on now and depends on no
/// other, is at work after the plugins have followed their switches, provided that it
/// answers well. No restart is needed.
pub proof fn law_plugins_turned_on_come_up(
    table: Seq<PluginView>,
    config: AronaConfigView,
    options: Option<OptionsView>,
    answers: Seq<(Result<(), Seq<char>>, Result<(), Seq<char>>)>,
    i: int,
    p: int,
)
    requires
        0 <= i < table.len(),
        answers.len() == order_of(table).len(),
        0 <= p < order_of(table).len(),
        order_of(table)[p] == i,
        table[i].state is Disabled || table[i].state is Failed,
        independent(table, config, i),
        answers[p].0 is Ok,
        answers[p].1 is Ok,
        options is Some,
    ensures
        after_sync(table, config, options, answers)[i].state == StateView::Active,
{
    lemma_order_in_range(table);
    let order = order_of(table);
    let marked = cycles_marked(table);
    let down = stop_pass(marked, config, order);
    let up = rise_pass(down, config, options, order, answers);
    assert(same_plugins(marked, table));
    assert(order.contains(i)) by {
        assert(order[p] == i);
    }
    lemma_stop_pass(marked, config, order, i);
    lemma_stop_spares(marked, config, order, i);
    assert(only_at(order, i, p)) by {
        assert forall|q: int| 0 <= q < order.len() && q != p implies #[trigger] order[q] != i by {}
    }
    lemma_rise_raises(down, config, options, order, answers, i, p);
    lemma_rise_pass_keeps(down, config, options, order, answers);
    lemma_stop_spares(up, config, order, i);
}

/// A plugin that is installed stands as it answered, and one that asks for another
/// contract is refused whatever it answers.
pub proof fn law_installing_goes_by_the_answer(meta: MetaView, reason: Seq<char>)
    ensures
        compatible(meta) ==> installed_state(meta, Ok(())) == StateView::Installed,
        compatible(meta) ==> installed_state(meta, Err(reason)) == StateView::Failed(reason),
        !compatible(meta) ==> installed_state(meta, Ok(())) is Failed,
        !compatible(meta) ==> installed_state(meta, Ok(())) == installed_state(meta, Err(reason)),
{
}

/// Only a plugin that is installed is assembled: one that cannot be at work is turned
/// off, any other stands as it answered, with what was handed to it. Nothing but its
/// state and what it was handed changes.
pub proof fn law_assembling_goes_by_the_answer(
    table: Seq<PluginView>,
    config: AronaConfigView,
    options: OptionsView,
    i: int,
    answer: Result<(), Seq<char>>,
)
    ensures
        ({
            let before = table[i];
            let after = configured(table, config, options, i, answer);
            &&& after.meta == before.meta && after.loader == before.loader
            &&& !(before.state is Installed) ==> after == before
            &&& before.state is Installed && !effective(table, config, i) ==> after.state
                is Disabled && after.context == before.context
            &&& before.state is Installed && effective(table, config, i) ==> (match answer {
                Ok(_) => after.state is Ready,
                Err(reason) => after.state == StateView::Failed(reason),
            }) && (after.context matches Some(context) && context.plugin == before.meta.id
                && context.onebot_config == options.onebot_config && context.test_notify
                == options.test_notify)
        }),
{
}

/// A plugin that is started stands as it answered, and one that was never handed anything
/// fails. Nothing but its state changes.
pub proof fn law_starting_goes_by_the_answer(plugin: PluginView, answer: Result<(), Seq<char>>)
    ensures
        ({
            let after = started(plugin, answer);
            &&& after.meta == plugin.meta && after.loader == plugin.loader && after.context
                == plugin.context
            &&& plugin.context is None ==> after.state is Failed
            &&& plugin.context is Some ==> match answer {
                Ok(_) => after.state is Active,
                Err(reason) => after.state == StateView::Failed(reason),
            }
        }),
{
}

/// A plugin that is brought up is at work just where both of its answers are good, and
/// before the configuration is there nothing happens to it.
pub proof fn law_coming_up_takes_two_answers(
    plugin: PluginView,
    options: OptionsView,
    first: Result<(), Seq<char>>,
    second: Result<(), Seq<char>>,
)
    ensures
        brought_up(plugin, None, (first, second)) == plugin,
        ({
            let after = brought_up(plugin, Some(options), (first, second));
            &&& after.meta == plugin.meta && after.loader == plugin.loader
            &&& after.state is Active <==> first is Ok && second is Ok
            &&& first matches Err(reason) ==> after.state == StateView::Failed(reason)
            &&& first is Ok ==> (second matches Err(reason) ==> after.state == StateView::Failed(
                reason,
            ))
        }),
{
}

/// Everybody who fails to be installed is named with the reason, and nobody else is.
pub proof fn law_failures_are_reported(
    table: Seq<PluginView>,
    order: Seq<int>,
    answers: Seq<Result<(), Seq<char>>>,
    k: int,
    named: (Seq<char>, Seq<char>),
)
    requires
        order.len() == answers.len(),
    ensures
        0 <= k < order.len() && installed_state(table[order[k]].meta, answers[k])
            == StateView::Failed(named.1) && table[order[k]].meta.id == named.0
            ==> install_failures(table, order, answers).contains(named),
        install_failures(table, order, answers).contains(named) ==> exists|n: int|
            0 <= n < order.len() && table[#[trigger] order[n]].meta.id == named.0
                && installed_state(table[order[n]].meta, answers[n]) == StateView::Failed(named.1),
    decreases order.len(),
{
    if order.len() > 0 {
        let head = install_failures(table, order.drop_last(), answers.drop_last());
        let all = install_failures(table, order, answers);
        law_failures_are_reported(table, order.drop_last(), answers.drop_last(), k, named);
        if head.contains(named) {
            let n = choose|n: int| 0 <= n < head.len() && head[n] == named;
            assert(all[n] == named);
        }
        if 0 <= k < order.len() - 1 {
            assert(order.drop_last()[k] == order[k] && answers.drop_last()[k] == answers[k]);
        }
        if k == order.len() - 1 && installed_state(table[order[k]].meta, answers[k])
            == StateView::Failed(named.1) && table[order[k]].meta.id == named.0 {
            assert(all[all.len() - 1] == named);
        }
        if all.contains(named) {
            if head.contains(named) {
                let n = choose|n: int|
                    0 <= n < order.len() - 1 && table[#[trigger] order.drop_last()[n]].meta.id
                        == named.0 && installed_state(
                        table[order.drop_last()[n]].meta,
                        answers.drop_last()[n],
                    ) == StateView::Failed(named.1);
                assert(order[n] == order.drop_last()[n] && answers[n] == answers.drop_last()[n]);
            } else {
                let n = choose|n: int| 0 <= n < all.len() && all[n] == named;
                if n < head.len() {
                    assert(head[n] == named);
                }
                let last = order.len() - 1;
                assert(table[order[last]].meta.id == named.0);
            }
        }
    }
}

/// Starting touches only plugins of the order that are assembled: each stands as it
/// answered, and every other plugin stays as it is.
pub proof fn law_starting_touches_assembled_plugins(
    table: Seq<PluginView>,
    order: Seq<int>,
    answers: Seq<Result<(), Seq<char>>>,
    i: int,
    k: int,
)
    requires
        order.len() == answers.len(),
        forall|a: int, b: int| 0 <= a < b < order.len() ==> order[a] != order[b],
        forall|a: int| 0 <= a < order.len() ==> 0 <= #[trigger] order[a] < table.len(),
        0 <= i < table.len(),
    ensures
        after_start(table, order, answers).len() == table.len(),
        (forall|a: int| 0 <= a < order.len() ==> #[trigger] order[a] != i) ==> after_start(
            table,
            order,
            answers,
        )[i] == table[i],
        0 <= k < order.len() && order[k] == i ==> after_start(table, order, answers)[i] == if table[
            i
        ].state is Ready {
            started(table[i], answers[k])
        } else {
            table[i]
        },
    decreases order.len(),
{
    if order.len() > 0 {
        let less = order.drop_last();
        let said = answers.drop_last();
        assert forall|a: int| 0 <= a < less.len() implies 0 <= #[trigger] less[a] < table.len() by {
            assert(less[a] == order[a]);
        }
        assert forall|a: int, b: int| 0 <= a < b < less.len() implies less[a] != less[b] by {
            assert(order[a] != order[b]);
        }
        law_starting_touches_assembled_plugins(table, less, said, i, k);
        let last = order[order.len() - 1];
        assert(order.last() == last);
        if 0 <= k < less.len() {
            assert(less[k] == order[k] && said[k] == answers[k]);
            if order[k] == i {
                assert(last != i);
            }
        }
        if k == order.len() - 1 && order[k] == i {
            assert forall|a: int| 0 <= a < less.len() implies #[trigger] less[a] != i by {
                assert(order[a] != order[k]);
            }
        }
        if forall|a: int| 0 <= a < order.len() ==> #[trigger] order[a] != i {
            assert forall|a: int| 0 <= a < less.len() implies #[trigger] less[a] != i by {
                assert(less[a] == order[a]);
            }
            assert(last != i);
        }
    }
}

/// Assembling touches only plugins of the order that are installed, and of those only
/// where they stand and what they were handed.
pub proof fn law_assembling_touches_installed_plugins(
    table: Seq<PluginView>,
    config: AronaConfigView,
    options: OptionsView,
    order: Seq<int>,
    answers: Seq<Result<(), Seq<char>>>,
    i: int,
)
    requires
        order.len() == answers.len(),
        forall|a: int| 0 <= a < order.len() ==> 0 <= #[trigger] order[a] < table.len(),
        0 <= i < table.len(),
    ensures
        ({
            let after = after_configure(table, config, options, order, answers);
            &&& after.len() == table.len()
            &&& after[i].meta == table[i].meta && after[i].loader == table[i].loader
            &&& !(table[i].state is Installed) ==> after[i] == table[i]
            &&& (forall|a: int| 0 <= a < order.len() ==> #[trigger] order[a] != i) ==> after[i]
                == table[i]
            &&& after[i].state is Ready || after[i].state is Failed || after[i].state is Disabled
                || after[i] == table[i]
        }),
    decreases order.len(),
{
    if order.len() > 0 {
        let less = order.drop_last();
        let said = answers.drop_last();
        assert forall|a: int| 0 <= a < less.len() implies 0 <= #[trigger] less[a] < table.len() by {
            assert(less[a] == order[a]);
        }
        law_assembling_touches_installed_plugins(table, config, options, less, said, i);
        assert(order.last() == order[order.len() - 1]);
        if forall|a: int| 0 <= a < order.len() ==> #[trigger] order[a] != i {
            assert forall|a: int| 0 <= a < less.len() implies #[trigger] less[a] != i by {
                assert(less[a] == order[a]);
            }
            assert(order[order.len() - 1] != i);
        }
    }
}

/// When all plugins of an order are turned off, each of them is, and no other is touched.
pub proof fn law_stopping_all_turns_off_the_order(table: Seq<PluginView>, order: Seq<int>, i: int)
    requires
        0 <= i < table.len(),
    ensures
        all_stopped(table, order).len() == table.len(),
        order.contains(i) ==> all_stopped(table, order)[i].state is Disabled,
        !order.contains(i) ==> all_stopped(table, order)[i] == table[i],
        all_stopped(table, order)[i].meta == table[i].meta,
{
}

} // verus!
