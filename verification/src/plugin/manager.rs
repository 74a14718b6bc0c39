//! The plugins, and how they live: registered, installed, assembled, started, stopped.
use crate::config::arona::AronaConfigView;
use crate::config::onebot::{OneBotConfig, OneBotConfigView};
use crate::plugin::context::{ContextView, PluginContext, PluginRegistrar};
use crate::plugin::description::{
    compatible, framework_api_version, framework_version, offers, version_text, MetaView, PluginMeta,
};
use crate::plugin::order::{
    contains_place, dependency_order, find_needs, find_order, law_asked_for_plugins_are_needed,
    law_needs_go_first, needs_from, place_lists, places, position_of,
};
use crate::plugin::registries::Registries;
use crate::runtime::config::{plugin_on, Gating};
use crate::text::{
    equal_ignoring_case, lower, lowercased, owned, same, same_ignoring_case, texts, to_lowercase,
};
use vstd::prelude::*;
use vstd::string::StringExecFns;

verus! {

/// The loader of the plugins that are part of the program.
pub const BUILTIN_LOADER: &'static str = "builtin";

/// Where a plugin stands in its life.
#[derive(Debug, PartialEq)]
pub enum PluginState {
    /// It is registered.
    Loaded,
    /// It is installed, and waits to be assembled.
    Installed,
    /// It is assembled, and waits to be started.
    Ready,
    /// It is started.
    Active,
    /// It is turned off.
    Disabled,
    /// It failed, and why.
    Failed(String),
}

/// Where a plugin stands in its life.
pub enum StateView {
    Loaded,
    Installed,
    Ready,
    Active,
    Disabled,
    Failed(Seq<char>),
}

impl View for PluginState {
    type V = StateView;

    open spec fn view(&self) -> StateView {
        match self {
            PluginState::Loaded => StateView::Loaded,
            PluginState::Installed => StateView::Installed,
            PluginState::Ready => StateView::Ready,
            PluginState::Active => StateView::Active,
            PluginState::Disabled => StateView::Disabled,
            PluginState::Failed(reason) => StateView::Failed(reason@),
        }
    }
}

/// Whether a plugin in a state is at work.
pub open spec fn running(state: StateView) -> bool {
    state is Ready || state is Active
}

impl PluginState {
    /// Whether the plugin is at work.
    pub fn is_running(&self) -> (r: bool)
        ensures
            r == running(self@),
    {
        match self {
            PluginState::Ready => true,
            PluginState::Active => true,
            _ => false,
        }
    }

    /// Whether the plugin can be assembled.
    pub fn can_assemble(&self) -> (r: bool)
        ensures
            r == (self@ is Installed || self@ is Disabled || self@ is Failed),
    {
        match self {
            PluginState::Installed => true,
            PluginState::Disabled => true,
            PluginState::Failed(_) => true,
            _ => false,
        }
    }

    /// The name of the state.
    pub fn display_name(&self) -> (r: &'static str)
        ensures
            r@ == match self@ {
                StateView::Loaded => "已装载"@,
                StateView::Installed => "已登记"@,
                StateView::Ready => "已装配"@,
                StateView::Active => "运行中"@,
                StateView::Disabled => "已停用"@,
                StateView::Failed(_) => "失败"@,
            },
    {
        match self {
            PluginState::Loaded => "已装载",
            PluginState::Installed => "已登记",
            PluginState::Ready => "已装配",
            PluginState::Active => "运行中",
            PluginState::Disabled => "已停用",
            PluginState::Failed(_) => "失败",
        }
    }

    /// The state in words: of a failure, the reason.
    pub fn text(&self) -> (r: String)
        ensures
            match self@ {
                StateView::Failed(reason) => r@ == reason,
                StateView::Loaded => r@ == "已装载"@,
                StateView::Installed => r@ == "已登记"@,
                StateView::Ready => r@ == "已装配"@,
                StateView::Active => r@ == "运行中"@,
                StateView::Disabled => r@ == "已停用"@,
            },
    {
        match self {
            PluginState::Failed(reason) => reason.clone(),
            other => owned(other.display_name()),
        }
    }

    /// A copy.
    pub fn copy(&self) -> (r: PluginState)
        ensures
            r@ == self@,
    {
        match self {
            PluginState::Loaded => PluginState::Loaded,
            PluginState::Installed => PluginState::Installed,
            PluginState::Ready => PluginState::Ready,
            PluginState::Active => PluginState::Active,
            PluginState::Disabled => PluginState::Disabled,
            PluginState::Failed(reason) => PluginState::Failed(reason.clone()),
        }
    }
}

/// What a plugin does. A plugin puts its commands, listeners, jobs and services on
/// record while it is assembled and started; a failure concerns it alone.
///
/// What a call may do to the records, and what it may answer, every plugin fixes for
/// itself: a plugin of which nothing is known may do anything.
pub trait AronaPlugin {
    /// Whether the plugin may say this of itself.
    open spec fn may_describe(&self, meta: MetaView) -> bool {
        true
    }

    /// Whether the plugin with an id may answer so and turn these records into those
    /// while it is installed.
    open spec fn may_install(
        &self,
        plugin: Seq<char>,
        before: Registries,
        after: Registries,
        answer: Result<(), Seq<char>>,
    ) -> bool {
        true
    }

    /// Whether the plugin may answer so and turn these records into those while it is
    /// assembled.
    open spec fn may_configure(
        &self,
        context: ContextView,
        before: Registries,
        after: Registries,
        answer: Result<(), Seq<char>>,
    ) -> bool {
        true
    }

    /// Whether the plugin may answer so and turn these records into those while it is
    /// started.
    open spec fn may_start(
        &self,
        context: ContextView,
        before: Registries,
        after: Registries,
        answer: Result<(), Seq<char>>,
    ) -> bool {
        true
    }

    /// Whether the plugin may turn these records into those when it is told that its
    /// configuration was read again.
    open spec fn may_reload(&self, context: ContextView, before: Registries, after: Registries) -> bool {
        true
    }

    /// Whether the plugin may turn these records into those while it ends its work.
    open spec fn may_stop(&self, context: ContextView, before: Registries, after: Registries) -> bool {
        true
    }

    /// What the plugin says of itself.
    fn meta(&self) -> (r: PluginMeta)
        ensures
            self.may_describe(r@),
    ;

    /// Puts the sections of its configuration on record.
    fn install(&self, registrar: &PluginRegistrar, registries: &mut Registries) -> (r: Result<
        (),
        String,
    >)
        ensures
            self.may_install(registrar.plugin@, *old(registries), *final(registries), answer(r)),
    ;

    /// Puts listeners and services on record.
    fn configure(&self, context: &PluginContext, registries: &mut Registries) -> (r: Result<
        (),
        String,
    >)
        ensures
            self.may_configure(context@, *old(registries), *final(registries), answer(r)),
    ;

    /// Starts its work.
    fn start(&self, context: &PluginContext, registries: &mut Registries) -> (r: Result<
        (),
        String,
    >)
        ensures
            self.may_start(context@, *old(registries), *final(registries), answer(r)),
    ;

    /// Takes note that its configuration was read again.
    fn on_config_reload(&self, context: &PluginContext, registries: &mut Registries)
        ensures
            self.may_reload(context@, *old(registries), *final(registries)),
    ;

    /// Ends its work.
    fn stop(&self, context: &PluginContext, registries: &mut Registries)
        ensures
            self.may_stop(context@, *old(registries), *final(registries)),
    ;
}

/// What a plugin answers when it is called.
pub open spec fn answer(r: Result<(), String>) -> Result<(), Seq<char>> {
    match r {
        Ok(_) => Ok(()),
        Err(reason) => Err(reason@),
    }
}

/// A plugin under management.
pub struct ManagedPlugin<P: AronaPlugin> {
    pub meta: PluginMeta,
    pub loader: String,
    pub instance: P,
    pub state: PluginState,
    /// What the plugin was assembled with.
    pub context: Option<PluginContext>,
}

/// A plugin under management.
#[verifier::ext_equal]
pub struct PluginView {
    pub meta: MetaView,
    pub loader: Seq<char>,
    pub state: StateView,
    /// What the plugin was assembled with.
    pub context: Option<ContextView>,
}

/// The view of a plugin.
pub open spec fn plugin_view<P: AronaPlugin>(plugin: ManagedPlugin<P>) -> PluginView {
    PluginView {
        meta: plugin.meta@,
        loader: plugin.loader@,
        state: plugin.state@,
        context: match plugin.context {
            Some(context) => Some(context@),
            None => None,
        },
    }
}

/// The views of some plugins.
pub open spec fn plugin_views<P: AronaPlugin>(plugins: Seq<ManagedPlugin<P>>) -> Seq<PluginView> {
    Seq::new(plugins.len(), |i: int| plugin_view(plugins[i]))
}

/// The plugins themselves.
pub open spec fn instances<P: AronaPlugin>(plugins: Seq<ManagedPlugin<P>>) -> Seq<P> {
    Seq::new(plugins.len(), |i: int| plugins[i].instance)
}

impl<P: AronaPlugin> ManagedPlugin<P> {
    /// What the plugin says of itself.
    pub fn meta(&self) -> (r: &PluginMeta)
        ensures
            *r == self.meta,
    {
        &self.meta
    }

    /// The id of the plugin.
    pub fn id(&self) -> (r: &str)
        ensures
            r@ == self.meta@.id,
    {
        self.meta.id.as_str()
    }

    /// Who loaded the plugin.
    pub fn loader(&self) -> (r: &str)
        ensures
            r@ == self.loader@,
    {
        self.loader.as_str()
    }

    /// Where the plugin stands.
    pub fn state(&self) -> (r: &PluginState)
        ensures
            *r == self.state,
    {
        &self.state
    }
}

// ---------------------------------------------------------------------------
// who is who

/// Where the plugin with an id stands, whatever the case.
pub open spec fn found(table: Seq<PluginView>, id: Seq<char>) -> Option<int>
    decreases table.len(),
{
    if table.len() == 0 {
        None
    } else {
        match found(table.drop_last(), id) {
            Some(at) => Some(at),
            None => if same_ignoring_case(table.last().meta.id, id) {
                Some(table.len() - 1)
            } else {
                None
            },
        }
    }
}

/// The place of an id is within the table and holds that id.
pub proof fn lemma_found(table: Seq<PluginView>, id: Seq<char>)
    ensures
        match found(table, id) {
            Some(at) => 0 <= at < table.len() && same_ignoring_case(table[at].meta.id, id)
                && forall|k: int|
                0 <= k < at ==> !same_ignoring_case((#[trigger] table[k]).meta.id, id),
            None => forall|k: int|
                0 <= k < table.len() ==> !same_ignoring_case((#[trigger] table[k]).meta.id, id),
        },
    decreases table.len(),
{
    if table.len() > 0 {
        let head = table.drop_last();
        lemma_found(head, id);
        assert forall|k: int| 0 <= k < head.len() implies (#[trigger] table[k]) == head[k] by {}
    }
}

/// The table with one plugin in another state.
pub open spec fn with_state(table: Seq<PluginView>, i: int, state: StateView) -> Seq<PluginView> {
    table.update(i, PluginView { state, ..table[i] })
}

/// Whether a plugin that others need is there for them.
pub open spec fn available(state: StateView) -> bool {
    state is Installed || state is Ready || state is Active
}

/// Whether a plugin that is asked for is there, turned on and available.
pub open spec fn need_met(table: Seq<PluginView>, config: AronaConfigView, id: Seq<char>) -> bool {
    match found(table, id) {
        Some(at) => plugin_on(config, table[at].meta.id) && available(table[at].state),
        None => false,
    }
}

/// Whether a plugin can be at work: it is turned on, the framework offers what it asks
/// for, and everything that it cannot do without is there.
pub open spec fn effective(table: Seq<PluginView>, config: AronaConfigView, i: int) -> bool {
    &&& plugin_on(config, table[i].meta.id)
    &&& compatible(table[i].meta)
    &&& forall|k: int|
        0 <= k < table[i].meta.depends.len() ==> need_met(
            table,
            config,
            #[trigger] table[i].meta.depends[k],
        )
}

/// Whether a plugin could be at work as far as its own switch, its contract and the
/// switches of what it needs go.
pub open spec fn eligible(table: Seq<PluginView>, config: AronaConfigView, i: int) -> bool {
    &&& plugin_on(config, table[i].meta.id)
    &&& compatible(table[i].meta)
    &&& forall|k: int|
        0 <= k < table[i].meta.depends.len() ==> need_on(
            table,
            config,
            #[trigger] table[i].meta.depends[k],
        )
}

/// Whether a plugin that is asked for is there and turned on.
pub open spec fn need_on(table: Seq<PluginView>, config: AronaConfigView, id: Seq<char>) -> bool {
    match found(table, id) {
        Some(at) => plugin_on(config, table[at].meta.id),
        None => false,
    }
}

// ---------------------------------------------------------------------------
// the order

/// The ids of the plugins in small letters.
pub open spec fn keys_of(table: Seq<PluginView>) -> Seq<Seq<char>> {
    Seq::new(table.len(), |i: int| lowercased(table[i].meta.id))
}

/// What each plugin needs before it.
pub open spec fn needs_of(table: Seq<PluginView>) -> Seq<Seq<int>> {
    Seq::new(
        table.len(),
        |i: int|
            needs_from(keys_of(table), table[i].meta.depends + table[i].meta.soft_depends, i),
    )
}

/// The order in which plugins are brought up.
pub open spec fn order_of(table: Seq<PluginView>) -> Seq<int> {
    dependency_order(needs_of(table))
}

/// Why a plugin that waits for itself fails.
pub open spec fn cycle_text() -> Seq<char> {
    "插件依赖成环，无法确定装配顺序"@
}

/// The table with the plugins that wait for each other marked as failed.
pub open spec fn cycles_marked(table: Seq<PluginView>) -> Seq<PluginView> {
    Seq::new(
        table.len(),
        |i: int|
            if order_of(table).contains(i) {
                table[i]
            } else {
                PluginView { state: StateView::Failed(cycle_text()), ..table[i] }
            },
    )
}

/// Whether two tables differ at most in states.
pub open spec fn same_plugins(a: Seq<PluginView>, b: Seq<PluginView>) -> bool {
    a.len() == b.len() && forall|i: int|
        0 <= i < a.len() ==> (#[trigger] a[i]).meta == b[i].meta && a[i].loader == b[i].loader
}

/// States do not change who is found.
pub proof fn lemma_found_ignores_states(a: Seq<PluginView>, b: Seq<PluginView>, id: Seq<char>)
    requires
        same_plugins(a, b),
    ensures
        found(a, id) == found(b, id),
    decreases a.len(),
{
    if a.len() > 0 {
        assert(a[a.len() - 1].meta == b[b.len() - 1].meta);
        assert(same_plugins(a.drop_last(), b.drop_last())) by {
            assert forall|i: int| 0 <= i < a.len() - 1 implies (
            #[trigger] a.drop_last()[i]).meta == b.drop_last()[i].meta && a.drop_last()[i].loader
                == b.drop_last()[i].loader by {
                assert(a[i].meta == b[i].meta);
            }
        }
        lemma_found_ignores_states(a.drop_last(), b.drop_last(), id);
    }
}

/// States do not change which plugins are eligible.
pub proof fn lemma_eligible_ignores_states(
    a: Seq<PluginView>,
    b: Seq<PluginView>,
    config: AronaConfigView,
    i: int,
)
    requires
        same_plugins(a, b),
        0 <= i < a.len(),
    ensures
        eligible(a, config, i) == eligible(b, config, i),
{
    assert(a[i].meta == b[i].meta);
    assert forall|id: Seq<char>| need_on(a, config, id) == need_on(b, config, id) by {
        lemma_found_ignores_states(a, b, id);
        lemma_found(a, id);
        match found(a, id) {
            Some(at) => {
                assert(a[at].meta == b[at].meta);
            },
            None => {},
        }
    }
}

// ---------------------------------------------------------------------------
// the manager

/// What plugins are assembled with.
#[derive(Debug)]
pub struct LifecycleOptions {
    pub onebot_config: OneBotConfig,
    /// A test message was asked for.
    pub test_notify: bool,
}

/// What plugins are assembled with.
#[verifier::ext_equal]
pub struct OptionsView {
    pub onebot_config: OneBotConfigView,
    pub test_notify: bool,
}

impl View for LifecycleOptions {
    type V = OptionsView;

    open spec fn view(&self) -> OptionsView {
        OptionsView { onebot_config: self.onebot_config@, test_notify: self.test_notify }
    }
}

/// What a plugin is handed, given what plugins are assembled with.
pub open spec fn context_for(plugin: Seq<char>, options: OptionsView) -> ContextView {
    ContextView { plugin, onebot_config: options.onebot_config, test_notify: options.test_notify }
}

/// The plugins.
pub struct PluginManager<P: AronaPlugin> {
    pub plugins: Vec<ManagedPlugin<P>>,
    /// What plugins are assembled with, once it is known.
    pub options: Option<LifecycleOptions>,
}

/// Whether a plugin with exactly that id is registered.
pub open spec fn registered(table: Seq<PluginView>, id: Seq<char>) -> bool {
    exists|i: int| 0 <= i < table.len() && (#[trigger] table[i]).meta.id == id
}

/// Why a plugin that asks for another contract is refused.
pub open spec fn api_text(meta: MetaView) -> Seq<char> {
    "插件契约版本不兼容: 要求 api "@ + version_text(meta.api_version) + "，本程序提供 api "@
        + version_text(framework_version())
}

/// Tests whether the framework offers what a plugin asks for.
pub fn check_api(meta: &PluginMeta) -> (r: Result<(), String>)
    ensures
        match r {
            Ok(_) => compatible(meta@),
            Err(reason) => !compatible(meta@) && reason@ == api_text(meta@),
        },
{
    if meta.is_compatible() {
        return Ok(());
    }
    let mut out = owned("插件契约版本不兼容: 要求 api ");
    out.append(meta.api_version.text().as_str());
    out.append("，本程序提供 api ");
    out.append(framework_api_version().text().as_str());
    Err(out)
}

impl<P: AronaPlugin> View for PluginManager<P> {
    type V = Seq<PluginView>;

    open spec fn view(&self) -> Seq<PluginView> {
        plugin_views(self.plugins@)
    }
}

impl<P: AronaPlugin> PluginManager<P> {
    /// The plugins themselves.
    pub open spec fn crew(&self) -> Seq<P> {
        instances(self.plugins@)
    }

    /// What plugins are assembled with, once it is known.
    pub open spec fn known_options(&self) -> Option<OptionsView> {
        match self.options {
            Some(options) => Some(options@),
            None => None,
        }
    }

    /// No plugin.
    pub fn new() -> (r: PluginManager<P>)
        ensures
            r@ == Seq::<PluginView>::empty(),
            r.options is None,
    {
        let r = PluginManager { plugins: Vec::new(), options: None };
        assert(r@ =~= Seq::<PluginView>::empty());
        r
    }

    /// Registers a plugin that is part of the program; false where the id is taken.
    pub fn register(&mut self, instance: P) -> (r: bool)
        ensures
            exists|meta: MetaView| #[trigger]
                instance.may_describe(meta) && registers(
                    old(self)@,
                    final(self)@,
                    meta,
                    BUILTIN_LOADER@,
                    r,
                ),
            final(self).crew() == if r {
                old(self).crew().push(instance)
            } else {
                old(self).crew()
            },
            final(self).options == old(self).options,
    {
        self.register_from(BUILTIN_LOADER, instance)
    }

    /// Registers a plugin on behalf of a loader; false where the id is taken.
    pub fn register_from(&mut self, loader: &str, instance: P) -> (r: bool)
        ensures
            exists|meta: MetaView| #[trigger]
                instance.may_describe(meta) && registers(
                    old(self)@,
                    final(self)@,
                    meta,
                    loader@,
                    r,
                ),
            final(self).crew() == if r {
                old(self).crew().push(instance)
            } else {
                old(self).crew()
            },
            final(self).options == old(self).options,
    {
        let meta = instance.meta();
        self.register_as(loader, instance, meta)
    }

    /// Registers a plugin that says the given of itself; false where the id is taken.
    pub fn register_as(&mut self, loader: &str, instance: P, meta: PluginMeta) -> (r: bool)
        ensures
            registers(old(self)@, final(self)@, meta@, loader@, r),
            final(self).crew() == if r {
                old(self).crew().push(instance)
            } else {
                old(self).crew()
            },
            final(self).options == old(self).options,
    {
        let ghost table = self@;
        let mut i: usize = 0;
        while i < self.plugins.len()
            invariant
                i <= self.plugins@.len(),
                *self == *old(self),
                table == plugin_views(self.plugins@),
                forall|k: int| 0 <= k < i ==> (#[trigger] table[k]).meta.id != meta@.id,
            decreases self.plugins@.len() - i,
        {
            if same(self.plugins[i].meta.id.as_str(), meta.id.as_str()) {
                assert(table[i as int].meta.id == meta@.id);
                return false;
            }
            i = i + 1;
        }
        let plugin = ManagedPlugin {
            meta,
            loader: owned(loader),
            instance,
            state: PluginState::Loaded,
            context: None,
        };
        self.plugins.push(plugin);
        assert(self@ =~= table.push(plugin_view(plugin)));
        assert(self.crew() =~= old(self).crew().push(plugin.instance));
        true
    }

    /// Where the plugin with an id stands, whatever the case.
    pub fn find(&self, id: &str) -> (r: Option<usize>)
        ensures
            match r {
                Some(at) => found(self@, id@) == Some(at as int) && at < self.plugins@.len(),
                None => found(self@, id@) is None,
            },
    {
        let ghost table = self@;
        let mut i: usize = 0;
        while i < self.plugins.len()
            invariant
                i <= self.plugins@.len(),
                table == plugin_views(self.plugins@),
                found(table.take(i as int), id@) is None,
            decreases self.plugins@.len() - i,
        {
            assert(table.take(i + 1).drop_last() =~= table.take(i as int));
            if equal_ignoring_case(self.plugins[i].meta.id.as_str(), id) {
                proof {
                    lemma_found(table, id@);
                    lemma_found(table.take(i as int), id@);
                    assert forall|k: int| 0 <= k < i implies !same_ignoring_case(
                        (#[trigger] table[k]).meta.id,
                        id@,
                    ) by {
                        assert(table.take(i as int)[k] == table[k]);
                    }
                    assert(same_ignoring_case(table[i as int].meta.id, id@));
                }
                return Some(i);
            }
            i = i + 1;
        }
        assert(table.take(table.len() as int) =~= table);
        None
    }

    pub(crate) fn set_state(&mut self, i: usize, state: PluginState)
        requires
            i < old(self).plugins@.len(),
        ensures
            final(self)@ == with_state(old(self)@, i as int, state@),
            final(self).crew() == old(self).crew(),
            final(self).options == old(self).options,
            final(self).plugins@.len() == old(self).plugins@.len(),
    {
        self.plugins[i].state = state;
        assert(self@ =~= with_state(old(self)@, i as int, state@));
        assert(self.crew() =~= old(self).crew());
    }

    /// Whether a plugin can be at work.
    pub fn is_effectively_enabled(&self, i: usize, gating: &Gating) -> (r: bool)
        requires
            i < self.plugins@.len(),
        ensures
            r == effective(self@, gating.config@, i as int),
    {
        let ghost table = self@;
        let ghost own = table[i as int];
        if !gating.plugin_enabled(self.plugins[i].meta.id.as_str()) {
            return false;
        }
        if !self.plugins[i].meta.is_compatible() {
            return false;
        }
        let mut k: usize = 0;
        while k < self.plugins[i].meta.depends.len()
            invariant
                i < self.plugins@.len(),
                table == plugin_views(self.plugins@),
                own == table[i as int],
                k <= self.plugins@[i as int].meta.depends@.len(),
                forall|j: int|
                    0 <= j < k ==> need_met(
                        table,
                        gating.config@,
                        #[trigger] table[i as int].meta.depends[j],
                    ),
            decreases self.plugins@[i as int].meta.depends@.len() - k,
        {
            let need = self.plugins[i].meta.depends[k].as_str();
            assert(need@ == table[i as int].meta.depends[k as int]);
            proof {
                lemma_found(table, need@);
            }
            match self.find(need) {
                None => {
                    assert(!need_met(
                        table,
                        gating.config@,
                        table[i as int].meta.depends[k as int],
                    ));
                    return false;
                },
                Some(at) => {
                    let target = &self.plugins[at];
                    let there = match &target.state {
                        PluginState::Installed => true,
                        PluginState::Ready => true,
                        PluginState::Active => true,
                        _ => false,
                    };
                    if !gating.plugin_enabled(target.meta.id.as_str()) || !there {
                        assert(!need_met(
                            table,
                            gating.config@,
                            table[i as int].meta.depends[k as int],
                        ));
                        return false;
                    }
                },
            }
            k = k + 1;
        }
        true
    }

    /// The order in which plugins are brought up. Plugins that wait for each other are
    /// left out.
    pub fn order(&self) -> (r: Vec<usize>)
        ensures
            places(r@) == order_of(self@),
            forall|k: int| 0 <= k < r@.len() ==> #[trigger] r@[k] < self.plugins@.len(),
    {
        let ghost table = self@;
        let mut keys: Vec<String> = Vec::new();
        let mut i: usize = 0;
        while i < self.plugins.len()
            invariant
                i <= self.plugins@.len(),
                table == plugin_views(self.plugins@),
                keys@.len() == i,
                forall|k: int|
                    0 <= k < i ==> (#[trigger] keys@[k])@ == lowercased(table[k].meta.id),
            decreases self.plugins@.len() - i,
        {
            keys.push(to_lowercase(self.plugins[i].meta.id.as_str()));
            i = i + 1;
        }
        assert(texts(keys@) =~= keys_of(table));
        let mut needs: Vec<Vec<usize>> = Vec::new();
        let mut i: usize = 0;
        while i < self.plugins.len()
            invariant
                i <= self.plugins@.len(),
                table == plugin_views(self.plugins@),
                texts(keys@) == keys_of(table),
                needs@.len() == i,
                forall|k: int|
                    0 <= k < i ==> places((#[trigger] needs@[k])@) == needs_of(table)[k],
            decreases self.plugins@.len() - i,
        {
            let meta = &self.plugins[i].meta;
            needs.push(find_needs(&keys, &meta.depends, &meta.soft_depends, i));
            i = i + 1;
        }
        assert(place_lists(needs@) =~= needs_of(table));
        let order = find_order(&needs);
        proof {
            law_needs_go_first(needs_of(table));
            assert forall|k: int| 0 <= k < order@.len() implies #[trigger] order@[k]
                < self.plugins@.len() by {
                assert(places(order@)[k] == order@[k] as int);
            }
        }
        order
    }

    /// The order in which plugins are brought up. Plugins that wait for each other are
    /// left out, and marked as failed.
    pub fn ordered(&mut self) -> (r: Vec<usize>)
        ensures
            places(r@) == order_of(old(self)@),
            final(self)@ == cycles_marked(old(self)@),
            final(self).crew() == old(self).crew(),
            final(self).options == old(self).options,
            forall|k: int| 0 <= k < r@.len() ==> #[trigger] r@[k] < final(self).plugins@.len(),
    {
        let ghost table = self@;
        let order = self.order();
        let n: usize = self.plugins.len();
        let mut i: usize = 0;
        while i < n
            invariant
                i <= n,
                n == table.len(),
                self.plugins@.len() == n,
                places(order@) == order_of(table),
                self.crew() == old(self).crew(),
                self.options == old(self).options,
                forall|k: int| 0 <= k < i ==> self@[k] == #[trigger] cycles_marked(table)[k],
                forall|k: int| i <= k < n ==> #[trigger] self@[k] == table[k],
            decreases n - i,
        {
            if !contains_place(&order, i) {
                self.set_state(i, PluginState::Failed(owned("插件依赖成环，无法确定装配顺序")));
            }
            i = i + 1;
        }
        assert(self@ =~= cycles_marked(table));
        order
    }
}

/// Whether registering did what it should: a plugin whose id is taken is refused, any
/// other is added at the end.
pub open spec fn registers(
    before: Seq<PluginView>,
    after: Seq<PluginView>,
    meta: MetaView,
    loader: Seq<char>,
    accepted: bool,
) -> bool {
    &&& accepted == !registered(before, meta.id)
    &&& after == if accepted {
        before.push(
            PluginView { meta, loader, state: StateView::Loaded, context: None },
        )
    } else {
        before
    }
}

/// A plugin can be at work just where it is turned on, the framework offers what it asks
/// for, and each plugin that it cannot do without is there, turned on, and installed,
/// assembled or started. One that needs nobody only depends on itself.
pub proof fn law_what_a_plugin_needs(
    table: Seq<PluginView>,
    config: AronaConfigView,
    i: int,
    k: int,
    at: int,
)
    requires
        0 <= i < table.len(),
    ensures
        table[i].meta.depends.len() == 0 ==> (effective(table, config, i) <==> plugin_on(
            config,
            table[i].meta.id,
        ) && offers(framework_version(), table[i].meta.api_version)),
        effective(table, config, i) ==> plugin_on(config, table[i].meta.id) && table[
            i
        ].meta.api_version.major == 1,
        0 <= k < table[i].meta.depends.len() && effective(table, config, i) ==> exists|j: int|
            0 <= j < table.len() && lower((#[trigger] table[j]).meta.id) == lower(
                table[i].meta.depends[k],
            ) && plugin_on(config, table[j].meta.id) && (table[j].state is Installed
                || table[j].state is Ready || table[j].state is Active),
        0 <= k < table[i].meta.depends.len() && (forall|j: int|
            0 <= j < table.len() ==> lower((#[trigger] table[j]).meta.id) != lower(
                table[i].meta.depends[k],
            )) ==> !effective(table, config, i) && !eligible(table, config, i),
        0 <= k < table[i].meta.depends.len() && found(table, table[i].meta.depends[k]) == Some(at)
            && (table[at].state is Failed || table[at].state is Disabled || table[at].state is Loaded)
            ==> !effective(table, config, i),
        effective(table, config, i) ==> eligible(table, config, i),
{
    if 0 <= k < table[i].meta.depends.len() {
        let need = table[i].meta.depends[k];
        lemma_found(table, need);
        if effective(table, config, i) {
            assert(need_met(table, config, need));
            let j = found(table, need)->0;
            assert(lower(table[j].meta.id) == lower(need));
        }
        if need_on(table, config, need) {
            let j = found(table, need)->0;
            assert(lower(table[j].meta.id) == lower(need));
        }
        if need_met(table, config, need) {
            assert(need_on(table, config, need));
        }
    }
    if effective(table, config, i) {
        assert forall|n: int| 0 <= n < table[i].meta.depends.len() implies need_on(
            table,
            config,
            #[trigger] table[i].meta.depends[n],
        ) by {
            assert(need_met(table, config, table[i].meta.depends[n]));
        }
    }
}

/// A plugin is found by its id, whatever the case of its letters, and the first of that
/// id counts.
pub proof fn law_plugins_are_found_by_id(table: Seq<PluginView>, id: Seq<char>, i: int)
    requires
        0 <= i < table.len(),
        lower(table[i].meta.id) == lower(id),
        forall|k: int| 0 <= k < i ==> lower((#[trigger] table[k]).meta.id) != lower(id),
    ensures
        found(table, id) == Some(i),
{
    lemma_found(table, id);
    assert(same_ignoring_case(table[i].meta.id, id));
    let at = found(table, id)->0;
    if at < i {
        assert(lower(table[at].meta.id) == lower(id));
    }
}

/// A plugin is handed its own id and what all plugins are assembled with.
pub proof fn law_plugins_are_handed_their_own(plugin: Seq<char>, options: OptionsView)
    ensures
        context_for(plugin, options).plugin == plugin,
        context_for(plugin, options).onebot_config == options.onebot_config,
        context_for(plugin, options).test_notify == options.test_notify,
{
}

/// A plugin comes up after every plugin that it asks for and that is there, whether it
/// cannot do without it or only gets along with it.
pub proof fn law_asked_for_plugins_come_first(
    table: Seq<PluginView>,
    i: int,
    k: int,
    j: int,
    turn: int,
)
    requires
        0 <= i < table.len(),
        i != j,
        0 <= turn < order_of(table).len(),
        order_of(table)[turn] == i,
        ({
            let asked = table[i].meta.depends + table[i].meta.soft_depends;
            0 <= k < asked.len() && position_of(
                Seq::new(table.len(), |n: int| lowercased(table[n].meta.id)),
                lowercased(asked[k]),
            ) == Some(j)
        }),
    ensures
        exists|earlier: int| 0 <= earlier < turn && #[trigger] order_of(table)[earlier] == j,
{
    let asked = table[i].meta.depends + table[i].meta.soft_depends;
    assert(keys_of(table) =~= Seq::new(table.len(), |n: int| lowercased(table[n].meta.id)));
    law_asked_for_plugins_are_needed(keys_of(table), asked, i, k, j);
    law_needs_go_first(needs_of(table));
    let needs = needs_of(table);
    assert(needs[i].contains(j));
    let n = choose|n: int| 0 <= n < needs[i].len() && needs[i][n] == j;
    let order = order_of(table);
    assert(order[turn] == i);
    assert(needs[order[turn]][n] == j);
    assert(order.take(turn).contains(j));
    let earlier = choose|e: int| 0 <= e < turn && order.take(turn)[e] == j;
    assert(order[earlier] == j);
}

} // verus!
