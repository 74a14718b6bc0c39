//! What a plugin is handed while it is installed, assembled and at work. Everything
//! that it puts on record through these carries its id.
use crate::config::onebot::{OneBotConfig, OneBotConfigView};
use crate::config::plugin_config::{config_file, ConfigEntry};
use crate::config::section::{key_registered, ConfigSection};
use crate::container::{declared, slot_of, SlotView};
use crate::onebot::api::OneBotApi;
use crate::onebot::display::concat3;
use crate::onebot::event::{
    body_kind, filter_matches, BodyFilter, BodyFilterView, EventBodyView, EventKind,
};
use crate::onebot::hooks::{hook_known, hooks_owned, subscription_outcome, wants, Subscribed};
use crate::plugin::registries::Registries;
use crate::plugin::scope::tasks_of;
use crate::quartz::{clamped, fresh, serial_after, TaskKind};
use crate::runtime::config::{plugin_on, Gating};
use crate::runtime::priority::ListenerPriority;
use crate::text::owned;
use vstd::prelude::*;
use vstd::string::StringExecFns;

verus! {

/// The directory of a plugin below another one.
fn directory(above: &str, plugin: &str) -> (r: String)
    ensures
        r@ == above@ + plugin@,
{
    let mut out = owned(above);
    out.append(plugin);
    out
}

/// What a plugin is handed while it is installed.
#[derive(Debug)]
pub struct PluginRegistrar {
    pub plugin: String,
}

impl PluginRegistrar {
    /// For a plugin.
    pub fn new(plugin: &str) -> (r: PluginRegistrar)
        ensures
            r.plugin@ == plugin@,
    {
        PluginRegistrar { plugin: owned(plugin) }
    }

    /// The id of the plugin.
    pub fn plugin_id(&self) -> (r: &str)
        ensures
            r@ == self.plugin@,
    {
        self.plugin.as_str()
    }

    /// Where the plugin itself lies.
    pub fn plugin_dir(&self) -> (r: String)
        ensures
            r@ == "plugins/"@ + self.plugin@,
    {
        directory("plugins/", self.plugin.as_str())
    }

    /// Where the configuration of the plugin lies.
    pub fn config_dir(&self) -> (r: String)
        ensures
            r@ == "config/"@ + self.plugin@,
    {
        directory("config/", self.plugin.as_str())
    }

    /// The configuration file of the plugin.
    pub fn config_file(&self) -> (r: String)
        ensures
            r@ == "config/"@ + self.plugin@ + "/arona.yml"@,
    {
        config_file(self.plugin.as_str())
    }

    /// Where the data of the plugin lie.
    pub fn data_dir(&self) -> (r: String)
        ensures
            r@ == "data/"@ + self.plugin@,
    {
        directory("data/", self.plugin.as_str())
    }

    /// Where the images of the plugin lie.
    pub fn image_dir(&self) -> (r: String)
        ensures
            r@ == "data/"@ + self.plugin@ + "/image"@,
    {
        concat3("data/", self.plugin.as_str(), "/image")
    }

    /// Puts a section of the plugin's configuration on record, unless its key is
    /// taken.
    pub fn config(&self, registries: &mut Registries, section: ConfigSection)
        ensures
            key_registered(old(registries).sections.items@, section.key@) ==> final(
                registries).sections.items@ == old(registries).sections.items@,
            !key_registered(old(registries).sections.items@, section.key@) ==> ({
                let items = final(registries).sections.items@;
                items.len() == old(registries).sections.items@.len() + 1 && items.drop_last()
                    == old(registries).sections.items@ && items.last().owner@ == self.plugin@
                    && items.last().section == section
            }),
            *final(registries) == (Registries {
                sections: final(registries).sections,
                ..*old(registries)
            }),
    {
        registries.sections.register(self.plugin.as_str(), section);
    }
}

/// What a plugin is handed while it is assembled and at work.
#[derive(Debug)]
pub struct PluginContext {
    pub plugin: String,
    pub onebot_config: OneBotConfig,
    /// A test message was asked for.
    pub test_notify: bool,
}

/// What a plugin is handed while it is assembled and at work.
#[verifier::ext_equal]
pub struct ContextView {
    pub plugin: Seq<char>,
    pub onebot_config: OneBotConfigView,
    pub test_notify: bool,
}

impl View for PluginContext {
    type V = ContextView;

    open spec fn view(&self) -> ContextView {
        ContextView {
            plugin: self.plugin@,
            onebot_config: self.onebot_config@,
            test_notify: self.test_notify,
        }
    }
}

/// The listener that a subscription adds at the end.
pub open spec fn listener_added(
    before: Registries,
    after: Registries,
    plugin: Seq<char>,
    priority: ListenerPriority,
    handler: u64,
) -> bool {
    let hooks = after.hooks.inbound();
    &&& hooks.len() == before.hooks.inbound().len() + 1
    &&& hooks.drop_last() == before.hooks.inbound()
    &&& hooks.last().plugin@ == plugin
    &&& hooks.last().feature@ == ""@
    &&& hooks.last().priority == priority
    &&& hooks.last().handler == handler
}

/// Whether the last listener hears exactly some kinds of events.
pub open spec fn hears_kinds(registries: Registries, kinds: Seq<EventKind>) -> bool {
    let filters = registries.hooks.inbound().last().filters@;
    filters.len() == kinds.len() && forall|i: int|
        0 <= i < kinds.len() ==> (#[trigger] filters[i])@ == BodyFilterView::Kind(kinds[i])
}

impl PluginContext {
    /// For a plugin.
    pub fn new(plugin: &str, onebot_config: OneBotConfig, test_notify: bool) -> (r: PluginContext)
        ensures
            r.plugin@ == plugin@,
            r.onebot_config == onebot_config,
            r.test_notify == test_notify,
    {
        PluginContext { plugin: owned(plugin), onebot_config, test_notify }
    }

    /// The id of the plugin.
    pub fn plugin_id(&self) -> (r: &str)
        ensures
            r@ == self.plugin@,
    {
        self.plugin.as_str()
    }

    /// Where the plugin itself lies.
    pub fn plugin_dir(&self) -> (r: String)
        ensures
            r@ == "plugins/"@ + self.plugin@,
    {
        directory("plugins/", self.plugin.as_str())
    }

    /// Where the configuration of the plugin lies.
    pub fn config_dir(&self) -> (r: String)
        ensures
            r@ == "config/"@ + self.plugin@,
    {
        directory("config/", self.plugin.as_str())
    }

    /// The configuration file of the plugin.
    pub fn config_file(&self) -> (r: String)
        ensures
            r@ == "config/"@ + self.plugin@ + "/arona.yml"@,
    {
        config_file(self.plugin.as_str())
    }

    /// Where the data of the plugin lie.
    pub fn data_dir(&self) -> (r: String)
        ensures
            r@ == "data/"@ + self.plugin@,
    {
        directory("data/", self.plugin.as_str())
    }

    /// Where the images of the plugin lie.
    pub fn image_dir(&self) -> (r: String)
        ensures
            r@ == "data/"@ + self.plugin@ + "/image"@,
    {
        concat3("data/", self.plugin.as_str(), "/image")
    }

    /// A section of the plugin's own configuration.
    pub fn config(&self, key: &str) -> (r: ConfigEntry)
        ensures
            r.plugin_view() == self.plugin@,
            r.key_view() == key@,
    {
        ConfigEntry::new(self.plugin.as_str(), key)
    }

    /// Listens for events of some kinds; without kinds, for all.
    pub fn listen(
        &self,
        registries: &mut Registries,
        kinds: &Vec<EventKind>,
        priority: ListenerPriority,
        handler: u64,
    ) -> (r: Subscribed)
        ensures
            r == subscription_outcome(old(registries).hooks.inbound(), self.plugin@, handler),
            r != Subscribed::Added ==> final(registries).hooks.inbound() == old(
                registries).hooks.inbound(),
            r == Subscribed::Added ==> listener_added(
                *old(registries),
                *final(registries),
                self.plugin@,
                priority,
                handler,
            ) && hears_kinds(*final(registries), kinds@),
            final(registries).hooks.outgoing() == old(registries).hooks.outgoing(),
            *final(registries) == (Registries { hooks: final(registries).hooks, ..*old(registries) }),
    {
        registries.hooks.subscribe_at(self.plugin.as_str(), kinds, priority, handler)
    }

    /// Listens for the events that filters let through.
    pub fn listen_where(
        &self,
        registries: &mut Registries,
        filters: Vec<BodyFilter>,
        priority: ListenerPriority,
        handler: u64,
    ) -> (r: Subscribed)
        ensures
            r == subscription_outcome(old(registries).hooks.inbound(), self.plugin@, handler),
            r != Subscribed::Added ==> final(registries).hooks.inbound() == old(
                registries).hooks.inbound(),
            r == Subscribed::Added ==> listener_added(
                *old(registries),
                *final(registries),
                self.plugin@,
                priority,
                handler,
            ) && final(registries).hooks.inbound().last().filters == filters,
            final(registries).hooks.outgoing() == old(registries).hooks.outgoing(),
            *final(registries) == (Registries { hooks: final(registries).hooks, ..*old(registries) }),
    {
        registries.hooks.subscribe_where(self.plugin.as_str(), filters, priority, handler)
    }

    fn listen_to(&self, registries: &mut Registries, kind: EventKind, handler: u64) -> (r:
        Subscribed)
        ensures
            r == subscription_outcome(old(registries).hooks.inbound(), self.plugin@, handler),
            r != Subscribed::Added ==> final(registries).hooks.inbound() == old(
                registries).hooks.inbound(),
            r == Subscribed::Added ==> listener_added(
                *old(registries),
                *final(registries),
                self.plugin@,
                ListenerPriority::Normal,
                handler,
            ) && hears_kinds(*final(registries), seq![kind]),
            final(registries).hooks.outgoing() == old(registries).hooks.outgoing(),
            *final(registries) == (Registries { hooks: final(registries).hooks, ..*old(registries) }),
    {
        let mut kinds: Vec<EventKind> = Vec::new();
        kinds.push(kind);
        assert(kinds@ =~= seq![kind]);
        self.listen(registries, &kinds, ListenerPriority::default(), handler)
    }

    /// Listens for messages, at the normal priority.
    pub fn on_message(&self, registries: &mut Registries, handler: u64) -> (r: Subscribed)
        ensures
            r == subscription_outcome(old(registries).hooks.inbound(), self.plugin@, handler),
            r != Subscribed::Added ==> final(registries).hooks.inbound() == old(
                registries).hooks.inbound(),
            r == Subscribed::Added ==> listener_added(
                *old(registries),
                *final(registries),
                self.plugin@,
                ListenerPriority::Normal,
                handler,
            ) && hears_kinds(*final(registries), seq![EventKind::Message]),
            final(registries).hooks.outgoing() == old(registries).hooks.outgoing(),
            *final(registries) == (Registries { hooks: final(registries).hooks, ..*old(registries) }),
    {
        self.listen_to(registries, EventKind::Message, handler)
    }

    /// Listens for notices, at the normal priority.
    pub fn on_notice(&self, registries: &mut Registries, handler: u64) -> (r: Subscribed)
        ensures
            r == subscription_outcome(old(registries).hooks.inbound(), self.plugin@, handler),
            r != Subscribed::Added ==> final(registries).hooks.inbound() == old(
                registries).hooks.inbound(),
            r == Subscribed::Added ==> listener_added(
                *old(registries),
                *final(registries),
                self.plugin@,
                ListenerPriority::Normal,
                handler,
            ) && hears_kinds(*final(registries), seq![EventKind::Notice]),
            final(registries).hooks.outgoing() == old(registries).hooks.outgoing(),
            *final(registries) == (Registries { hooks: final(registries).hooks, ..*old(registries) }),
    {
        self.listen_to(registries, EventKind::Notice, handler)
    }

    /// Listens for requests, at the normal priority.
    pub fn on_request(&self, registries: &mut Registries, handler: u64) -> (r: Subscribed)
        ensures
            r == subscription_outcome(old(registries).hooks.inbound(), self.plugin@, handler),
            r != Subscribed::Added ==> final(registries).hooks.inbound() == old(
                registries).hooks.inbound(),
            r == Subscribed::Added ==> listener_added(
                *old(registries),
                *final(registries),
                self.plugin@,
                ListenerPriority::Normal,
                handler,
            ) && hears_kinds(*final(registries), seq![EventKind::Request]),
            final(registries).hooks.outgoing() == old(registries).hooks.outgoing(),
            *final(registries) == (Registries { hooks: final(registries).hooks, ..*old(registries) }),
    {
        self.listen_to(registries, EventKind::Request, handler)
    }

    /// Listens for meta events, at the normal priority.
    pub fn on_meta(&self, registries: &mut Registries, handler: u64) -> (r: Subscribed)
        ensures
            r == subscription_outcome(old(registries).hooks.inbound(), self.plugin@, handler),
            r != Subscribed::Added ==> final(registries).hooks.inbound() == old(
                registries).hooks.inbound(),
            r == Subscribed::Added ==> listener_added(
                *old(registries),
                *final(registries),
                self.plugin@,
                ListenerPriority::Normal,
                handler,
            ) && hears_kinds(*final(registries), seq![EventKind::Meta]),
            final(registries).hooks.outgoing() == old(registries).hooks.outgoing(),
            *final(registries) == (Registries { hooks: final(registries).hooks, ..*old(registries) }),
    {
        self.listen_to(registries, EventKind::Meta, handler)
    }

    /// Listens for messages in groups, at the normal priority.
    pub fn on_group_message(&self, registries: &mut Registries, handler: u64) -> (r: Subscribed)
        ensures
            r == subscription_outcome(old(registries).hooks.inbound(), self.plugin@, handler),
            r != Subscribed::Added ==> final(registries).hooks.inbound() == old(
                registries).hooks.inbound(),
            r == Subscribed::Added ==> listener_added(
                *old(registries),
                *final(registries),
                self.plugin@,
                ListenerPriority::Normal,
                handler,
            ) && final(registries).hooks.inbound().last().filters@ == seq![BodyFilter::GroupMessage],
            final(registries).hooks.outgoing() == old(registries).hooks.outgoing(),
            *final(registries) == (Registries { hooks: final(registries).hooks, ..*old(registries) }),
    {
        let mut filters: Vec<BodyFilter> = Vec::new();
        filters.push(BodyFilter::GroupMessage);
        assert(filters@ =~= seq![BodyFilter::GroupMessage]);
        self.listen_where(registries, filters, ListenerPriority::default(), handler)
    }

    /// Listens for private messages, at the normal priority.
    pub fn on_private_message(&self, registries: &mut Registries, handler: u64) -> (r: Subscribed)
        ensures
            r == subscription_outcome(old(registries).hooks.inbound(), self.plugin@, handler),
            r != Subscribed::Added ==> final(registries).hooks.inbound() == old(
                registries).hooks.inbound(),
            r == Subscribed::Added ==> listener_added(
                *old(registries),
                *final(registries),
                self.plugin@,
                ListenerPriority::Normal,
                handler,
            ) && final(registries).hooks.inbound().last().filters@ == seq![BodyFilter::PrivateMessage],
            final(registries).hooks.outgoing() == old(registries).hooks.outgoing(),
            *final(registries) == (Registries { hooks: final(registries).hooks, ..*old(registries) }),
    {
        let mut filters: Vec<BodyFilter> = Vec::new();
        filters.push(BodyFilter::PrivateMessage);
        assert(filters@ =~= seq![BodyFilter::PrivateMessage]);
        self.listen_where(registries, filters, ListenerPriority::default(), handler)
    }

    /// A background task of the plugin runs.
    pub fn spawn(&self, registries: &mut Registries, task: u64)
        ensures
            tasks_of(final(registries).scopes.scopes@, self.plugin@) == tasks_of(
                old(registries).scopes.scopes@,
                self.plugin@,
            ).push(task),
            final(registries).scopes.scopes@.remove(self.plugin@) == old(
                registries).scopes.scopes@.remove(self.plugin@),
            final(registries).scopes.cancelled == old(registries).scopes.cancelled,
            *final(registries) == (Registries {
                scopes: final(registries).scopes,
                ..*old(registries)
            }),
    {
        registries.scopes.spawn(self.plugin.as_str(), task);
    }

    /// Makes a job of the plugin that runs once a day, at an hour.
    pub fn daily_job(&self, registries: &mut Registries, hour: u32, name: &str, run: u64) -> (serial:
        u64)
        ensures
            serial == old(registries).jobs.next_serial,
            final(registries).jobs.next_serial == serial_after(serial),
            final(registries).jobs@ == old(registries).jobs@.insert(
                name@,
                fresh(serial, self.plugin@, TaskKind::Daily { hour }, run),
            ),
            *final(registries) == (Registries { jobs: final(registries).jobs, ..*old(registries) }),
    {
        registries.jobs.create_daily(hour, name, self.plugin.as_str(), run)
    }

    /// Makes a job of the plugin that runs again and again, at least a second apart.
    pub fn repeat_job(&self, registries: &mut Registries, interval_secs: u64, name: &str, run: u64) -> (serial:
        u64)
        ensures
            serial == old(registries).jobs.next_serial,
            final(registries).jobs.next_serial == serial_after(serial),
            final(registries).jobs@ == old(registries).jobs@.insert(
                name@,
                fresh(
                    serial,
                    self.plugin@,
                    TaskKind::Repeat {
                        interval_secs: if interval_secs < 1 {
                            1
                        } else {
                            interval_secs
                        },
                    },
                    run,
                ),
            ),
            *final(registries) == (Registries { jobs: final(registries).jobs, ..*old(registries) }),
    {
        registries.jobs.create_repeat(interval_secs, name, self.plugin.as_str(), run)
    }

    /// Makes a job of the plugin that runs once, at a time.
    pub fn single_job(&self, registries: &mut Registries, ts_ms: i64, name: &str, run: u64) -> (serial:
        u64)
        ensures
            serial == old(registries).jobs.next_serial,
            final(registries).jobs.next_serial == serial_after(serial),
            final(registries).jobs@ == old(registries).jobs@.insert(
                name@,
                fresh(serial, self.plugin@, TaskKind::SingleAt { ts_ms }, run),
            ),
            *final(registries) == (Registries { jobs: final(registries).jobs, ..*old(registries) }),
    {
        registries.jobs.create_single_at(ts_ms, name, self.plugin.as_str(), run)
    }

    /// Makes a job of the plugin that runs once, so many seconds from now.
    pub fn delay_job(&self, registries: &mut Registries, delay_secs: u64, name: &str, run: u64) -> (serial:
        u64)
        ensures
            serial == old(registries).jobs.next_serial,
            final(registries).jobs.next_serial == serial_after(serial),
            exists|now_ms: i64|
                final(registries).jobs@ == #[trigger] old(registries).jobs@.insert(
                    name@,
                    fresh(
                        serial,
                        self.plugin@,
                        TaskKind::SingleAt { ts_ms: clamped(now_ms + delay_secs * 1000) },
                        run,
                    ),
                ),
            *final(registries) == (Registries { jobs: final(registries).jobs, ..*old(registries) }),
    {
        registries.jobs.create_delay(delay_secs, name, self.plugin.as_str(), run)
    }

    /// Takes a job off the table.
    pub fn remove_job(&self, registries: &mut Registries, name: &str) -> (r: bool)
        ensures
            r == old(registries).jobs@.contains_key(name@),
            final(registries).jobs@ == old(registries).jobs@.remove(name@),
            final(registries).jobs.next_serial == old(registries).jobs.next_serial,
            *final(registries) == (Registries { jobs: final(registries).jobs, ..*old(registries) }),
    {
        registries.jobs.remove(name)
    }

    /// Offers a service to other plugins.
    pub fn declare_service(&self, registries: &mut Registries, kind: u64, name: &str, service: u64)
        ensures
            final(registries).container.slots() == declared(
                old(registries).container.slots(),
                SlotView { kind, owner: self.plugin@, name: name@, value: service },
            ),
            *final(registries) == (Registries {
                container: final(registries).container,
                ..*old(registries)
            }),
    {
        let _ = registries.container.declare(self.plugin.as_str(), kind, name, service);
    }

    /// The service of a kind that some plugin offers, as long as that plugin is on.
    pub fn service(&self, registries: &Registries, kind: u64, gating: &Gating) -> (r: Option<u64>)
        ensures
            r == match slot_of(registries.container.slots(), kind) {
                Some(at) => if plugin_on(
                    gating.config@,
                    registries.container.slots()[at].owner,
                ) {
                    Some(registries.container.slots()[at].value)
                } else {
                    None
                },
                None => None,
            },
    {
        match registries.container.instance(kind, gating) {
            Some(service) => Some(*service),
            None => None,
        }
    }

    /// The way to the implementations.
    pub fn api(&self) -> (r: OneBotApi)
        ensures
            r == (OneBotApi {}),
    {
        OneBotApi::global()
    }
}

/// A listener that is added is the plugin's own and comes last; every other plugin has as
/// many as before.
pub proof fn law_added_listeners_are_the_plugins_own(
    before: Registries,
    after: Registries,
    plugin: Seq<char>,
    priority: ListenerPriority,
    handler: u64,
    other: Seq<char>,
)
    requires
        listener_added(before, after, plugin, priority, handler),
        other != plugin,
    ensures
        hooks_owned(after.hooks.inbound(), plugin) == hooks_owned(before.hooks.inbound(), plugin)
            + 1,
        hooks_owned(after.hooks.inbound(), other) == hooks_owned(before.hooks.inbound(), other),
        hook_known(after.hooks.inbound(), plugin, handler),
        after.hooks.inbound().last().priority == priority,
        after.hooks.inbound().last().feature@.len() == 0,
{
    let hooks = after.hooks.inbound();
    reveal_strlit("");
    assert(hooks[hooks.len() - 1].plugin@ == plugin);
}

/// A listener for some kinds of events hears the events of those kinds and no others.
pub proof fn law_listeners_for_kinds_hear_those_kinds(
    registries: Registries,
    kinds: Seq<EventKind>,
    body: EventBodyView,
)
    requires
        hears_kinds(registries, kinds),
        kinds.len() > 0,
    ensures
        wants(registries.hooks.inbound().last().filters@, body) <==> exists|i: int|
            0 <= i < kinds.len() && body_kind(body) == Some(#[trigger] kinds[i]),
{
    let filters = registries.hooks.inbound().last().filters@;
    if wants(filters, body) {
        let i = choose|i: int|
            0 <= i < filters.len() && filter_matches((#[trigger] filters[i])@, body);
        assert(body_kind(body) == Some(kinds[i]));
    }
    if exists|i: int| 0 <= i < kinds.len() && body_kind(body) == Some(#[trigger] kinds[i]) {
        let i = choose|i: int| 0 <= i < kinds.len() && body_kind(body) == Some(#[trigger] kinds[i]);
        assert(filter_matches(filters[i]@, body));
    }
}

} // verus!
