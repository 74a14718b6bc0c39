//! One framework: the records of its plugins, their configurations, and who may do what.
use crate::config::arona::empty_config;
use crate::config::plugin_config::{file_views, modified_views, pending_views, ConfigStore};
use crate::config::section::{RegisteredSection, SectionRegistry};
use crate::config::settings::Settings;
use crate::container::ServiceContainer;
use crate::onebot::hooks::HookRegistry;
use crate::plugin::health::DEFAULT_PANIC_THRESHOLD;
use crate::plugin::manager::{AronaPlugin, PluginManager, PluginView};
use crate::plugin::overview::LoaderRegistry;
use crate::plugin::registries::{owns_nothing, Registries};
use crate::quartz::Scheduler;
use crate::runtime::config::Gating;
use crate::yaml::YamlView;
use vstd::prelude::*;

verus! {

/// How a framework behaves.
#[derive(Clone, Copy, Debug, PartialEq, Eq, Structural)]
pub struct FrameworkOptions {
    /// How many failures in a row take a plugin out of service; zero for never.
    pub panic_disable_threshold: u32,
    /// Commands can be shortened as long as they stay distinct, where nothing else is
    /// said of them.
    pub prefix_match_by_default: bool,
}

impl Default for FrameworkOptions {
    fn default() -> (r: FrameworkOptions)
        ensures
            r == (FrameworkOptions {
                panic_disable_threshold: DEFAULT_PANIC_THRESHOLD,
                prefix_match_by_default: false,
            }),
    {
        FrameworkOptions {
            panic_disable_threshold: DEFAULT_PANIC_THRESHOLD,
            prefix_match_by_default: false,
        }
    }
}

/// Everything that belongs to one framework. Two frameworks share nothing.
pub struct Framework<P: AronaPlugin> {
    pub gating: Gating,
    pub registries: Registries,
    pub configs: ConfigStore,
    pub settings: Settings,
    pub loaders: LoaderRegistry,
    pub plugins: PluginManager<P>,
}

impl<P: AronaPlugin> Framework<P> {
    /// A framework with nothing in it.
    pub fn new() -> (r: Framework<P>)
        ensures
            r.plugins@ == Seq::<PluginView>::empty(),
            forall|plugin: Seq<char>| #[trigger] owns_nothing(r.registries, plugin),
            r.registries.sections.items@ == Seq::<RegisteredSection>::empty(),
            file_views(r.configs.files@) == Map::<Seq<char>, Map<Seq<char>, YamlView>>::empty(),
            pending_views(r.configs.pending@) == Map::<
                Seq<char>,
                (Seq<char>, YamlView),
            >::empty(),
            modified_views(r.configs.files@) == Map::<Seq<char>, Option<u64>>::empty(),
            r.settings.file is None,
            r.settings.config@ == empty_config(),
            r.settings.last_modified is None,
            !r.settings.applied_once,
            !r.settings.closed,
            r.loaders.loaders@.len() == 0,
            r.gating.config@ == empty_config(),
            r.gating.bot_id == 0,
            r.registries.health.limit() == DEFAULT_PANIC_THRESHOLD,
            r.plugins.options is None,
    {
        Framework {
            gating: Gating::new(),
            registries: Registries::new(),
            configs: ConfigStore::new(),
            settings: Settings::new(),
            loaders: LoaderRegistry::new(),
            plugins: PluginManager::new(),
        }
    }

    /// Who may do what.
    pub fn gating(&self) -> (r: &Gating)
        ensures
            *r == self.gating,
    {
        &self.gating
    }

    /// The listeners.
    pub fn hooks(&self) -> (r: &HookRegistry)
        ensures
            *r == self.registries.hooks,
    {
        &self.registries.hooks
    }

    /// The services that plugins offer each other.
    pub fn container(&self) -> (r: &ServiceContainer<u64>)
        ensures
            *r == self.registries.container,
    {
        &self.registries.container
    }

    /// The sections of the plugins' configurations.
    pub fn sections(&self) -> (r: &SectionRegistry)
        ensures
            *r == self.registries.sections,
    {
        &self.registries.sections
    }

    /// The configurations of the plugins.
    pub fn configs(&self) -> (r: &ConfigStore)
        ensures
            *r == self.configs,
    {
        &self.configs
    }

    /// The framework's own configuration.
    pub fn settings(&self) -> (r: &Settings)
        ensures
            *r == self.settings,
    {
        &self.settings
    }

    /// The jobs.
    pub fn jobs(&self) -> (r: &Scheduler)
        ensures
            *r == self.registries.jobs,
    {
        &self.registries.jobs
    }

    /// The loaders that are still to be asked for plugins.
    pub fn loaders(&self) -> (r: &LoaderRegistry)
        ensures
            *r == self.loaders,
    {
        &self.loaders
    }

    /// The plugins.
    pub fn plugins(&self) -> (r: &PluginManager<P>)
        ensures
            *r == self.plugins,
    {
        &self.plugins
    }
}

} // verus!
