//! Listeners: who hears an event or a message about to be sent, and in which order.
use crate::onebot::event::{
    body_of, filter_matches, filter_name, kind_named, BodyFilter, BodyFilterView, EventBody,
    EventBodyView, EventKind,
};
use crate::onebot::model::{EventView, OneBotEvent};
use crate::config::arona::AronaConfigView;
use crate::config::section::lemma_lists_is_contains;
use crate::plugin::health::{failures_of, one_more, reaches, HealthBoard};
use crate::runtime::config::{feature_on, names_id, plugin_on, plugin_on_in_group, Gating};
use crate::onebot::display::{command_line, display_all};
use crate::onebot::protocol::{event_segments, ParsedMessage};
use crate::runtime::message::{segment_views, MessageTarget};
use crate::runtime::priority::{rank, ListenerPriority};
use crate::text::{contains_text, decimal, owned, same, texts};
use vstd::prelude::*;

pub use crate::onebot::context::{EventContext, OutboundContext};

verus! {

/// How many listeners one plugin may have in one direction.
pub const MAX_HOOKS_PER_PLUGIN: usize = 64;

/// What a listener does with an event.
#[derive(Clone, Copy, Debug, PartialEq, Eq, Structural)]
pub enum HookFlow {
    /// The next listener is asked.
    Pass,
    /// Nobody else is asked, and no command is looked for.
    Handled,
}

/// What became of a subscription.
#[derive(Clone, Copy, Debug, PartialEq, Eq, Structural)]
pub enum Subscribed {
    Added,
    /// The plugin has subscribed this handler before.
    Duplicate,
    /// The plugin has as many listeners as it may.
    Full,
}

/// A listener for events. The handler is known by a number.
#[derive(Debug)]
pub struct Hook {
    pub plugin: String,
    /// What the listener wants; nothing means everything.
    pub filters: Vec<BodyFilter>,
    /// The feature of the group that turns the listener off; empty for none.
    pub feature: String,
    pub priority: ListenerPriority,
    pub handler: u64,
}

/// A listener for messages about to be sent.
#[derive(Debug)]
pub struct OutboundHook {
    pub plugin: String,
    pub feature: String,
    pub priority: ListenerPriority,
    pub handler: u64,
}

/// A listener to ask: whose it is, and its handler.
#[derive(Debug, PartialEq)]
pub struct HookTarget {
    pub plugin: String,
    pub handler: u64,
}

impl View for HookTarget {
    type V = (Seq<char>, u64);

    open spec fn view(&self) -> (Seq<char>, u64) {
        (self.plugin@, self.handler)
    }
}

/// The views of some targets.
pub open spec fn target_views(targets: Seq<HookTarget>) -> Seq<(Seq<char>, u64)> {
    Seq::new(targets.len(), |i: int| targets[i]@)
}

// ---------------------------------------------------------------------------
// models

/// How many listeners for events a plugin has.
pub open spec fn hooks_owned(hooks: Seq<Hook>, plugin: Seq<char>) -> nat
    decreases hooks.len(),
{
    if hooks.len() == 0 {
        0
    } else {
        hooks_owned(hooks.drop_last(), plugin) + if hooks.last().plugin@ == plugin {
            1nat
        } else {
            0nat
        }
    }
}

/// How many listeners for messages a plugin has.
pub open spec fn outbound_owned(hooks: Seq<OutboundHook>, plugin: Seq<char>) -> nat
    decreases hooks.len(),
{
    if hooks.len() == 0 {
        0
    } else {
        outbound_owned(hooks.drop_last(), plugin) + if hooks.last().plugin@ == plugin {
            1nat
        } else {
            0nat
        }
    }
}

/// The listeners for events of the other plugins.
pub open spec fn hooks_without(hooks: Seq<Hook>, plugin: Seq<char>) -> Seq<Hook>
    decreases hooks.len(),
{
    if hooks.len() == 0 {
        Seq::empty()
    } else if hooks.last().plugin@ == plugin {
        hooks_without(hooks.drop_last(), plugin)
    } else {
        hooks_without(hooks.drop_last(), plugin).push(hooks.last())
    }
}

/// The listeners for messages of the other plugins.
pub open spec fn outbound_without(
    hooks: Seq<OutboundHook>,
    plugin: Seq<char>,
) -> Seq<OutboundHook>
    decreases hooks.len(),
{
    if hooks.len() == 0 {
        Seq::empty()
    } else if hooks.last().plugin@ == plugin {
        outbound_without(hooks.drop_last(), plugin)
    } else {
        outbound_without(hooks.drop_last(), plugin).push(hooks.last())
    }
}

/// Whether a plugin has subscribed a handler for events.
pub open spec fn hook_known(hooks: Seq<Hook>, plugin: Seq<char>, handler: u64) -> bool {
    exists|i: int|
        0 <= i < hooks.len() && (#[trigger] hooks[i]).plugin@ == plugin && hooks[i].handler
            == handler
}

/// Whether a plugin has subscribed a handler for messages.
pub open spec fn outbound_known(
    hooks: Seq<OutboundHook>,
    plugin: Seq<char>,
    handler: u64,
) -> bool {
    exists|i: int|
        0 <= i < hooks.len() && (#[trigger] hooks[i]).plugin@ == plugin && hooks[i].handler
            == handler
}

/// Whether some filter lets an event through; without filters everything passes.
pub open spec fn wants(filters: Seq<BodyFilter>, body: EventBodyView) -> bool {
    filters.len() == 0 || exists|i: int|
        0 <= i < filters.len() && filter_matches((#[trigger] filters[i])@, body)
}

/// Whether a plugin may hear of what happens in a group: it is on, on in the group,
/// and the feature is on there.
pub open spec fn gate(
    config: AronaConfigView,
    plugin: Seq<char>,
    group_id: Option<i64>,
    feature: Seq<char>,
) -> bool {
    plugin_on(config, plugin) && plugin_on_in_group(config, plugin, group_id) && feature_on(
        config,
        group_id,
        feature,
    )
}

/// Whether a listener hears an event.
pub open spec fn hears(
    hook: Hook,
    body: EventBodyView,
    group_id: Option<i64>,
    config: AronaConfigView,
) -> bool {
    wants(hook.filters@, body) && gate(config, hook.plugin@, group_id, hook.feature@)
}

/// The listeners of one priority that hear an event, in the order of subscription.
pub open spec fn targets_at(
    hooks: Seq<Hook>,
    order: int,
    body: EventBodyView,
    group_id: Option<i64>,
    config: AronaConfigView,
) -> Seq<(Seq<char>, u64)>
    decreases hooks.len(),
{
    if hooks.len() == 0 {
        Seq::empty()
    } else {
        let head = targets_at(hooks.drop_last(), order, body, group_id, config);
        let hook = hooks.last();
        if rank(hook.priority) == order && hears(hook, body, group_id, config) {
            head.push((hook.plugin@, hook.handler))
        } else {
            head
        }
    }
}

/// The listeners of the first `orders` priorities that hear an event.
pub open spec fn targets_below(
    hooks: Seq<Hook>,
    orders: int,
    body: EventBodyView,
    group_id: Option<i64>,
    config: AronaConfigView,
) -> Seq<(Seq<char>, u64)>
    decreases orders,
{
    if orders <= 0 {
        Seq::empty()
    } else {
        targets_below(hooks, orders - 1, body, group_id, config) + targets_at(
            hooks,
            orders - 1,
            body,
            group_id,
            config,
        )
    }
}

/// The listeners that hear an event: by priority, within one by subscription.
pub open spec fn event_targets(
    hooks: Seq<Hook>,
    body: EventBodyView,
    group_id: Option<i64>,
    config: AronaConfigView,
) -> Seq<(Seq<char>, u64)> {
    targets_below(hooks, 5, body, group_id, config)
}

/// The listeners of one priority that hear of a message, in the order of
/// subscription.
pub open spec fn outbound_at(
    hooks: Seq<OutboundHook>,
    order: int,
    group_id: Option<i64>,
    config: AronaConfigView,
) -> Seq<(Seq<char>, u64)>
    decreases hooks.len(),
{
    if hooks.len() == 0 {
        Seq::empty()
    } else {
        let head = outbound_at(hooks.drop_last(), order, group_id, config);
        let hook = hooks.last();
        if rank(hook.priority) == order && gate(config, hook.plugin@, group_id, hook.feature@) {
            head.push((hook.plugin@, hook.handler))
        } else {
            head
        }
    }
}

/// The listeners of the first `orders` priorities that hear of a message.
pub open spec fn outbound_below(
    hooks: Seq<OutboundHook>,
    orders: int,
    group_id: Option<i64>,
    config: AronaConfigView,
) -> Seq<(Seq<char>, u64)>
    decreases orders,
{
    if orders <= 0 {
        Seq::empty()
    } else {
        outbound_below(hooks, orders - 1, group_id, config) + outbound_at(
            hooks,
            orders - 1,
            group_id,
            config,
        )
    }
}

/// The group that a message goes to.
pub open spec fn target_group(target: MessageTarget) -> Option<i64> {
    match target {
        MessageTarget::Group(group_id) => Some(group_id),
        MessageTarget::Private(_) => None,
    }
}

/// The listeners that hear of a message: by priority, within one by subscription.
pub open spec fn message_targets(
    hooks: Seq<OutboundHook>,
    target: MessageTarget,
    config: AronaConfigView,
) -> Seq<(Seq<char>, u64)> {
    outbound_below(hooks, 5, target_group(target), config)
}

// ---------------------------------------------------------------------------
// the registry

/// The listeners of all plugins.
#[derive(Debug)]
pub struct HookRegistry {
    hooks: Vec<Hook>,
    outbound: Vec<OutboundHook>,
}

/// An event for which there is somebody to ask.
#[derive(Debug)]
pub struct Matched {
    pub kind: EventKind,
    pub body: EventBody,
    pub targets: Vec<HookTarget>,
}

proof fn lemma_push_owned(hooks: Seq<Hook>, hook: Hook, plugin: Seq<char>)
    ensures
        hooks_owned(hooks.push(hook), plugin) == hooks_owned(hooks, plugin) + if hook.plugin@
            == plugin {
            1nat
        } else {
            0nat
        },
{
    assert(hooks.push(hook).drop_last() =~= hooks);
}

proof fn lemma_push_outbound_owned(hooks: Seq<OutboundHook>, hook: OutboundHook, plugin: Seq<char>)
    ensures
        outbound_owned(hooks.push(hook), plugin) == outbound_owned(hooks, plugin)
            + if hook.plugin@ == plugin {
            1nat
        } else {
            0nat
        },
{
    assert(hooks.push(hook).drop_last() =~= hooks);
}

proof fn lemma_hooks_without_owned(hooks: Seq<Hook>, plugin: Seq<char>, other: Seq<char>)
    ensures
        hooks_owned(hooks_without(hooks, plugin), other) == if other == plugin {
            0
        } else {
            hooks_owned(hooks, other)
        },
        hooks_without(hooks, plugin).len() + hooks_owned(hooks, plugin) == hooks.len(),
    decreases hooks.len(),
{
    if hooks.len() > 0 {
        lemma_hooks_without_owned(hooks.drop_last(), plugin, other);
        if hooks.last().plugin@ != plugin {
            lemma_push_owned(hooks_without(hooks.drop_last(), plugin), hooks.last(), other);
        }
    }
}

proof fn lemma_outbound_without_owned(
    hooks: Seq<OutboundHook>,
    plugin: Seq<char>,
    other: Seq<char>,
)
    ensures
        outbound_owned(outbound_without(hooks, plugin), other) == if other == plugin {
            0
        } else {
            outbound_owned(hooks, other)
        },
        outbound_without(hooks, plugin).len() + outbound_owned(hooks, plugin) == hooks.len(),
    decreases hooks.len(),
{
    if hooks.len() > 0 {
        lemma_outbound_without_owned(hooks.drop_last(), plugin, other);
        if hooks.last().plugin@ != plugin {
            lemma_push_outbound_owned(
                outbound_without(hooks.drop_last(), plugin),
                hooks.last(),
                other,
            );
        }
    }
}

fn wants_event(filters: &Vec<BodyFilter>, body: &EventBody) -> (r: bool)
    ensures
        r == wants(filters@, body@),
{
    if filters.len() == 0 {
        return true;
    }
    let mut i: usize = 0;
    while i < filters.len()
        invariant
            i <= filters@.len(),
            forall|k: int| 0 <= k < i ==> !filter_matches((#[trigger] filters@[k])@, body@),
        decreases filters@.len() - i,
    {
        if filters[i].matches(body) {
            return true;
        }
        i = i + 1;
    }
    false
}

fn gate_open(gating: &Gating, plugin: &str, group_id: Option<i64>, feature: &str) -> (r: bool)
    ensures
        r == gate(gating.config@, plugin@, group_id, feature@),
{
    gating.plugin_enabled(plugin) && gating.plugin_enabled_in_group(plugin, group_id)
        && gating.feature_enabled(group_id, feature)
}

fn kind_filters(kinds: &Vec<EventKind>) -> (r: Vec<BodyFilter>)
    ensures
        r@.len() == kinds@.len(),
        forall|i: int| 0 <= i < r@.len() ==> (#[trigger] r@[i])@ == BodyFilterView::Kind(kinds@[i]),
{
    let mut out: Vec<BodyFilter> = Vec::new();
    let mut i: usize = 0;
    while i < kinds.len()
        invariant
            i <= kinds@.len(),
            out@.len() == i,
            forall|k: int|
                0 <= k < i ==> (#[trigger] out@[k])@ == BodyFilterView::Kind(kinds@[k]),
        decreases kinds@.len() - i,
    {
        out.push(BodyFilter::Kind(kinds[i]));
        i = i + 1;
    }
    out
}

/// What becomes of a subscription for events.
pub open spec fn subscription_outcome(
    hooks: Seq<Hook>,
    plugin: Seq<char>,
    handler: u64,
) -> Subscribed {
    if hook_known(hooks, plugin, handler) {
        Subscribed::Duplicate
    } else if hooks_owned(hooks, plugin) >= MAX_HOOKS_PER_PLUGIN {
        Subscribed::Full
    } else {
        Subscribed::Added
    }
}

/// What becomes of a subscription for messages.
pub open spec fn outbound_outcome(
    hooks: Seq<OutboundHook>,
    plugin: Seq<char>,
    handler: u64,
) -> Subscribed {
    if outbound_known(hooks, plugin, handler) {
        Subscribed::Duplicate
    } else if outbound_owned(hooks, plugin) >= MAX_HOOKS_PER_PLUGIN {
        Subscribed::Full
    } else {
        Subscribed::Added
    }
}

impl HookRegistry {
    #[verifier::type_invariant]
    spec fn well_formed(self) -> bool {
        &&& forall|plugin: Seq<char>|
            #[trigger] hooks_owned(self.hooks@, plugin) <= MAX_HOOKS_PER_PLUGIN
        &&& forall|plugin: Seq<char>|
            #[trigger] outbound_owned(self.outbound@, plugin) <= MAX_HOOKS_PER_PLUGIN
    }

    /// The listeners for events, in the order of subscription.
    pub closed spec fn inbound(&self) -> Seq<Hook> {
        self.hooks@
    }

    /// The listeners for messages, in the order of subscription.
    pub closed spec fn outgoing(&self) -> Seq<OutboundHook> {
        self.outbound@
    }

    /// No listener.
    pub fn new() -> (r: HookRegistry)
        ensures
            r.inbound() == Seq::<Hook>::empty(),
            r.outgoing() == Seq::<OutboundHook>::empty(),
    {
        HookRegistry { hooks: Vec::new(), outbound: Vec::new() }
    }

    fn count_hooks(&self, plugin: &str) -> (r: usize)
        ensures
            r == hooks_owned(self.hooks@, plugin@),
            r <= MAX_HOOKS_PER_PLUGIN,
    {
        proof {
            use_type_invariant(self);
            assert(hooks_owned(self.hooks@, plugin@) <= MAX_HOOKS_PER_PLUGIN);
        }
        let ghost all = self.hooks@;
        let mut count: usize = 0;
        let mut i: usize = 0;
        while i < self.hooks.len()
            invariant
                i <= self.hooks@.len(),
                all == self.hooks@,
                count == hooks_owned(all.take(i as int), plugin@),
                count <= i,
            decreases self.hooks@.len() - i,
        {
            assert(all.take(i + 1).drop_last() =~= all.take(i as int));
            if same(self.hooks[i].plugin.as_str(), plugin) {
                count = count + 1;
            }
            i = i + 1;
        }
        assert(all.take(all.len() as int) =~= all);
        count
    }

    fn count_outbound(&self, plugin: &str) -> (r: usize)
        ensures
            r == outbound_owned(self.outbound@, plugin@),
            r <= MAX_HOOKS_PER_PLUGIN,
    {
        proof {
            use_type_invariant(self);
            assert(outbound_owned(self.outbound@, plugin@) <= MAX_HOOKS_PER_PLUGIN);
        }
        let ghost all = self.outbound@;
        let mut count: usize = 0;
        let mut i: usize = 0;
        while i < self.outbound.len()
            invariant
                i <= self.outbound@.len(),
                all == self.outbound@,
                count == outbound_owned(all.take(i as int), plugin@),
                count <= i,
            decreases self.outbound@.len() - i,
        {
            assert(all.take(i + 1).drop_last() =~= all.take(i as int));
            if same(self.outbound[i].plugin.as_str(), plugin) {
                count = count + 1;
            }
            i = i + 1;
        }
        assert(all.take(all.len() as int) =~= all);
        count
    }

    fn knows_hook(&self, plugin: &str, handler: u64) -> (r: bool)
        ensures
            r == hook_known(self.hooks@, plugin@, handler),
    {
        let mut i: usize = 0;
        while i < self.hooks.len()
            invariant
                i <= self.hooks@.len(),
                forall|k: int|
                    0 <= k < i ==> !((#[trigger] self.hooks@[k]).plugin@ == plugin@
                        && self.hooks@[k].handler == handler),
            decreases self.hooks@.len() - i,
        {
            if same(self.hooks[i].plugin.as_str(), plugin) && self.hooks[i].handler == handler {
                return true;
            }
            i = i + 1;
        }
        false
    }

    fn knows_outbound(&self, plugin: &str, handler: u64) -> (r: bool)
        ensures
            r == outbound_known(self.outbound@, plugin@, handler),
    {
        let mut i: usize = 0;
        while i < self.outbound.len()
            invariant
                i <= self.outbound@.len(),
                forall|k: int|
                    0 <= k < i ==> !((#[trigger] self.outbound@[k]).plugin@ == plugin@
                        && self.outbound@[k].handler == handler),
            decreases self.outbound@.len() - i,
        {
            if same(self.outbound[i].plugin.as_str(), plugin) && self.outbound[i].handler
                == handler {
                return true;
            }
            i = i + 1;
        }
        false
    }

    /// Subscribes a handler for the events that filters let through, bound to a
    /// feature of the group. A handler that the plugin has subscribed before is not
    /// subscribed again, and a plugin has at most `MAX_HOOKS_PER_PLUGIN`.
    pub fn subscribe_feature(
        &mut self,
        plugin: &str,
        feature: &str,
        filters: Vec<BodyFilter>,
        priority: ListenerPriority,
        handler: u64,
    ) -> (r: Subscribed)
        ensures
            r == subscription_outcome(old(self).inbound(), plugin@, handler),
            r != Subscribed::Added ==> final(self).inbound() == old(self).inbound(),
            r == Subscribed::Added ==> final(self).inbound().len() == old(self).inbound().len() + 1
                && final(self).inbound().drop_last() == old(self).inbound() && ({
                let hook = final(self).inbound().last();
                hook.plugin@ == plugin@ && hook.feature@ == feature@ && hook.filters == filters
                    && hook.priority == priority && hook.handler == handler
            }),
            final(self).outgoing() == old(self).outgoing(),
    {
        proof {
            use_type_invariant(&*self);
        }
        if self.knows_hook(plugin, handler) {
            return Subscribed::Duplicate;
        }
        if self.count_hooks(plugin) >= MAX_HOOKS_PER_PLUGIN {
            return Subscribed::Full;
        }
        let hook = Hook {
            plugin: owned(plugin),
            filters,
            feature: owned(feature),
            priority,
            handler,
        };
        let ghost before = self.hooks@;
        let mut hooks: Vec<Hook> = Vec::new();
        proof {
            assert forall|p: Seq<char>| #[trigger]
                hooks_owned(Seq::<Hook>::empty(), p) <= MAX_HOOKS_PER_PLUGIN by {}
            assert(hooks@ =~= Seq::<Hook>::empty());
        }
        std::mem::swap(&mut hooks, &mut self.hooks);
        hooks.push(hook);
        proof {
            assert forall|p: Seq<char>| #[trigger]
                hooks_owned(hooks@, p) <= MAX_HOOKS_PER_PLUGIN by {
                lemma_push_owned(before, hook, p);
                assert(hooks_owned(before, p) <= MAX_HOOKS_PER_PLUGIN);
            }
            assert(hooks@.drop_last() =~= before);
        }
        self.hooks = hooks;
        Subscribed::Added
    }

    /// Subscribes a handler for the events that filters let through.
    pub fn subscribe_where(
        &mut self,
        plugin: &str,
        filters: Vec<BodyFilter>,
        priority: ListenerPriority,
        handler: u64,
    ) -> (r: Subscribed)
        ensures
            r == subscription_outcome(old(self).inbound(), plugin@, handler),
            r != Subscribed::Added ==> final(self).inbound() == old(self).inbound(),
            r == Subscribed::Added ==> final(self).inbound().len() == old(self).inbound().len() + 1
                && final(self).inbound().drop_last() == old(self).inbound() && ({
                let hook = final(self).inbound().last();
                hook.plugin@ == plugin@ && hook.feature@ == ""@ && hook.filters == filters
                    && hook.priority == priority && hook.handler == handler
            }),
            final(self).outgoing() == old(self).outgoing(),
    {
        self.subscribe_feature(plugin, "", filters, priority, handler)
    }

    /// Subscribes a handler for events of some kinds, at a priority. Without kinds
    /// it hears everything.
    pub fn subscribe_at(
        &mut self,
        plugin: &str,
        kinds: &Vec<EventKind>,
        priority: ListenerPriority,
        handler: u64,
    ) -> (r: Subscribed)
        ensures
            r == subscription_outcome(old(self).inbound(), plugin@, handler),
            r != Subscribed::Added ==> final(self).inbound() == old(self).inbound(),
            r == Subscribed::Added ==> final(self).inbound().len() == old(self).inbound().len() + 1
                && final(self).inbound().drop_last() == old(self).inbound() && ({
                let hook = final(self).inbound().last();
                hook.plugin@ == plugin@ && hook.feature@ == ""@ && hook.priority == priority
                    && hook.handler == handler && hook.filters@.len() == kinds@.len() && forall|
                    i: int,
                |
                    0 <= i < kinds@.len() ==> (#[trigger] hook.filters@[i])@
                        == BodyFilterView::Kind(kinds@[i])
            }),
            final(self).outgoing() == old(self).outgoing(),
    {
        let filters = kind_filters(kinds);
        self.subscribe_where(plugin, filters, priority, handler)
    }

    /// Subscribes a handler for events of some kinds, at the normal priority.
    pub fn subscribe(&mut self, plugin: &str, kinds: &Vec<EventKind>, handler: u64) -> (r:
        Subscribed)
        ensures
            r == subscription_outcome(old(self).inbound(), plugin@, handler),
            r != Subscribed::Added ==> final(self).inbound() == old(self).inbound(),
            r == Subscribed::Added ==> final(self).inbound().len() == old(self).inbound().len() + 1
                && final(self).inbound().drop_last() == old(self).inbound() && ({
                let hook = final(self).inbound().last();
                hook.plugin@ == plugin@ && hook.feature@ == ""@ && hook.priority
                    == ListenerPriority::Normal && hook.handler == handler && hook.filters@.len()
                    == kinds@.len() && forall|i: int|
                    0 <= i < kinds@.len() ==> (#[trigger] hook.filters@[i])@
                        == BodyFilterView::Kind(kinds@[i])
            }),
            final(self).outgoing() == old(self).outgoing(),
    {
        self.subscribe_at(plugin, kinds, ListenerPriority::default(), handler)
    }

    /// Subscribes a handler for events of every kind, at the normal priority.
    pub fn on_all(&mut self, plugin: &str, handler: u64) -> (r: Subscribed)
        ensures
            r == subscription_outcome(old(self).inbound(), plugin@, handler),
            r != Subscribed::Added ==> final(self).inbound() == old(self).inbound(),
            r == Subscribed::Added ==> final(self).inbound().len() == old(self).inbound().len() + 1
                && final(self).inbound().drop_last() == old(self).inbound() && ({
                let hook = final(self).inbound().last();
                hook.plugin@ == plugin@ && hook.feature@ == ""@ && hook.priority
                    == ListenerPriority::Normal && hook.handler == handler && hook.filters@.len()
                    == 4 && hook.filters@[0]@ == BodyFilterView::Kind(EventKind::Message)
                    && hook.filters@[1]@ == BodyFilterView::Kind(EventKind::Notice)
                    && hook.filters@[2]@ == BodyFilterView::Kind(EventKind::Request)
                    && hook.filters@[3]@ == BodyFilterView::Kind(EventKind::Meta)
            }),
            final(self).outgoing() == old(self).outgoing(),
    {
        let mut kinds: Vec<EventKind> = Vec::new();
        kinds.push(EventKind::Message);
        kinds.push(EventKind::Notice);
        kinds.push(EventKind::Request);
        kinds.push(EventKind::Meta);
        self.subscribe(plugin, &kinds, handler)
    }

    /// Subscribes a handler for messages about to be sent, under the same rules.
    pub fn subscribe_outbound(
        &mut self,
        plugin: &str,
        feature: &str,
        priority: ListenerPriority,
        handler: u64,
    ) -> (r: Subscribed)
        ensures
            r == outbound_outcome(old(self).outgoing(), plugin@, handler),
            r != Subscribed::Added ==> final(self).outgoing() == old(self).outgoing(),
            r == Subscribed::Added ==> final(self).outgoing().len() == old(self).outgoing().len()
                + 1 && final(self).outgoing().drop_last() == old(self).outgoing() && ({
                let hook = final(self).outgoing().last();
                hook.plugin@ == plugin@ && hook.feature@ == feature@ && hook.priority == priority
                    && hook.handler == handler
            }),
            final(self).inbound() == old(self).inbound(),
    {
        proof {
            use_type_invariant(&*self);
        }
        if self.knows_outbound(plugin, handler) {
            return Subscribed::Duplicate;
        }
        if self.count_outbound(plugin) >= MAX_HOOKS_PER_PLUGIN {
            return Subscribed::Full;
        }
        let hook = OutboundHook {
            plugin: owned(plugin),
            feature: owned(feature),
            priority,
            handler,
        };
        let ghost before = self.outbound@;
        let mut hooks: Vec<OutboundHook> = Vec::new();
        proof {
            assert forall|p: Seq<char>| #[trigger]
                outbound_owned(Seq::<OutboundHook>::empty(), p) <= MAX_HOOKS_PER_PLUGIN by {}
            assert(hooks@ =~= Seq::<OutboundHook>::empty());
        }
        std::mem::swap(&mut hooks, &mut self.outbound);
        hooks.push(hook);
        proof {
            assert forall|p: Seq<char>| #[trigger]
                outbound_owned(hooks@, p) <= MAX_HOOKS_PER_PLUGIN by {
                lemma_push_outbound_owned(before, hook, p);
                assert(outbound_owned(before, p) <= MAX_HOOKS_PER_PLUGIN);
            }
            assert(hooks@.drop_last() =~= before);
        }
        self.outbound = hooks;
        Subscribed::Added
    }

    /// How many listeners a plugin has, in both directions.
    pub fn hook_count(&self, plugin: &str) -> (r: usize)
        ensures
            r == hooks_owned(self.inbound(), plugin@) + outbound_owned(self.outgoing(), plugin@),
            hooks_owned(self.inbound(), plugin@) <= MAX_HOOKS_PER_PLUGIN,
            outbound_owned(self.outgoing(), plugin@) <= MAX_HOOKS_PER_PLUGIN,
    {
        self.count_hooks(plugin) + self.count_outbound(plugin)
    }
}


fn keep_hooks(hooks: Vec<Hook>, plugin: &str) -> (r: Vec<Hook>)
    ensures
        r@ == hooks_without(hooks@, plugin@),
{
    let ghost all = hooks@;
    let mut kept: Vec<Hook> = Vec::new();
    for hook in it: hooks
        invariant
            it.seq() == all,
            kept@ == hooks_without(all.take(it.index()), plugin@),
    {
        assert(all.take(it.index() + 1).drop_last() =~= all.take(it.index()));
        if !same(hook.plugin.as_str(), plugin) {
            kept.push(hook);
        }
    }
    assert(all.take(all.len() as int) =~= all);
    kept
}

fn keep_outbound(hooks: Vec<OutboundHook>, plugin: &str) -> (r: Vec<OutboundHook>)
    ensures
        r@ == outbound_without(hooks@, plugin@),
{
    let ghost all = hooks@;
    let mut kept: Vec<OutboundHook> = Vec::new();
    for hook in it: hooks
        invariant
            it.seq() == all,
            kept@ == outbound_without(all.take(it.index()), plugin@),
    {
        assert(all.take(it.index() + 1).drop_last() =~= all.take(it.index()));
        if !same(hook.plugin.as_str(), plugin) {
            kept.push(hook);
        }
    }
    assert(all.take(all.len() as int) =~= all);
    kept
}

impl HookRegistry {
    /// Takes back all listeners of a plugin, and tells how many there were.
    pub fn unsubscribe(&mut self, plugin: &str) -> (r: usize)
        ensures
            final(self).inbound() == hooks_without(old(self).inbound(), plugin@),
            final(self).outgoing() == outbound_without(old(self).outgoing(), plugin@),
            r == hooks_owned(old(self).inbound(), plugin@) + outbound_owned(
                old(self).outgoing(),
                plugin@,
            ),
    {
        let count: usize = self.hook_count(plugin);
        proof {
            use_type_invariant(&*self);
        }
        let ghost before = self.hooks@;
        let ghost before_out = self.outbound@;
        let mut hooks: Vec<Hook> = Vec::new();
        let mut outbound: Vec<OutboundHook> = Vec::new();
        proof {
            assert(hooks@ =~= Seq::<Hook>::empty());
            assert(outbound@ =~= Seq::<OutboundHook>::empty());
            assert forall|p: Seq<char>| #[trigger]
                hooks_owned(hooks@, p) <= MAX_HOOKS_PER_PLUGIN by {}
            assert forall|p: Seq<char>| #[trigger]
                outbound_owned(outbound@, p) <= MAX_HOOKS_PER_PLUGIN by {}
        }
        std::mem::swap(&mut hooks, &mut self.hooks);
        std::mem::swap(&mut outbound, &mut self.outbound);
        let kept = keep_hooks(hooks, plugin);
        let kept_out = keep_outbound(outbound, plugin);
        proof {
            assert forall|p: Seq<char>| #[trigger]
                hooks_owned(kept@, p) <= MAX_HOOKS_PER_PLUGIN by {
                lemma_hooks_without_owned(before, plugin@, p);
                assert(hooks_owned(before, p) <= MAX_HOOKS_PER_PLUGIN);
            }
            assert forall|p: Seq<char>| #[trigger]
                outbound_owned(kept_out@, p) <= MAX_HOOKS_PER_PLUGIN by {
                lemma_outbound_without_owned(before_out, plugin@, p);
                assert(outbound_owned(before_out, p) <= MAX_HOOKS_PER_PLUGIN);
            }
        }
        self.hooks = kept;
        self.outbound = kept_out;
        count
    }

    /// The listeners that hear an event, in the order in which they are asked.
    pub fn targets(&self, body: &EventBody, group_id: Option<i64>, gating: &Gating) -> (r: Vec<
        HookTarget,
    >)
        ensures
            target_views(r@) == event_targets(self.inbound(), body@, group_id, gating.config@),
    {
        let ghost all = self.hooks@;
        let ghost config = gating.config@;
        let mut out: Vec<HookTarget> = Vec::new();
        let mut order: u8 = 0;
        assert(target_views(out@) =~= targets_below(all, 0, body@, group_id, config));
        while order < 5
            invariant
                order <= 5,
                all == self.hooks@,
                config == gating.config@,
                target_views(out@) == targets_below(all, order as int, body@, group_id, config),
            decreases 5 - order,
        {
            let ghost below = target_views(out@);
            let mut i: usize = 0;
            assert(target_views(out@) =~= below + targets_at(
                all.take(0),
                order as int,
                body@,
                group_id,
                config,
            ));
            while i < self.hooks.len()
                invariant
                    order < 5,
                    i <= self.hooks@.len(),
                    all == self.hooks@,
                    config == gating.config@,
                    target_views(out@) == below + targets_at(
                        all.take(i as int),
                        order as int,
                        body@,
                        group_id,
                        config,
                    ),
                decreases self.hooks@.len() - i,
            {
                let hook = &self.hooks[i];
                let ghost before = out@;
                let ghost head = targets_at(
                    all.take(i as int),
                    order as int,
                    body@,
                    group_id,
                    config,
                );
                assert(all.take(i + 1).drop_last() =~= all.take(i as int));
                if hook.priority.order() == order && wants_event(&hook.filters, body) && gate_open(
                    gating,
                    hook.plugin.as_str(),
                    group_id,
                    hook.feature.as_str(),
                ) {
                    let target = HookTarget { plugin: hook.plugin.clone(), handler: hook.handler };
                    out.push(target);
                    assert(target_views(out@) =~= target_views(before).push(target@));
                    assert(below + head.push(target@) =~= (below + head).push(target@));
                }
                i = i + 1;
            }
            assert(all.take(all.len() as int) =~= all);
            order = order + 1;
        }
        out
    }

    /// The listeners that hear of a message, in the order in which they are asked.
    pub fn outbound_targets(&self, target: MessageTarget, gating: &Gating) -> (r: Vec<HookTarget>)
        ensures
            target_views(r@) == message_targets(self.outgoing(), target, gating.config@),
    {
        let group_id: Option<i64> = match target {
            MessageTarget::Group(group_id) => Some(group_id),
            MessageTarget::Private(_) => None,
        };
        let ghost all = self.outbound@;
        let ghost config = gating.config@;
        let mut out: Vec<HookTarget> = Vec::new();
        let mut order: u8 = 0;
        assert(target_views(out@) =~= outbound_below(all, 0, group_id, config));
        while order < 5
            invariant
                order <= 5,
                all == self.outbound@,
                config == gating.config@,
                target_views(out@) == outbound_below(all, order as int, group_id, config),
            decreases 5 - order,
        {
            let ghost below = target_views(out@);
            let mut i: usize = 0;
            assert(target_views(out@) =~= below + outbound_at(
                all.take(0),
                order as int,
                group_id,
                config,
            ));
            while i < self.outbound.len()
                invariant
                    order < 5,
                    i <= self.outbound@.len(),
                    all == self.outbound@,
                    config == gating.config@,
                    target_views(out@) == below + outbound_at(
                        all.take(i as int),
                        order as int,
                        group_id,
                        config,
                    ),
                decreases self.outbound@.len() - i,
            {
                let hook = &self.outbound[i];
                let ghost before = out@;
                let ghost head = outbound_at(all.take(i as int), order as int, group_id, config);
                assert(all.take(i + 1).drop_last() =~= all.take(i as int));
                if hook.priority.order() == order && gate_open(
                    gating,
                    hook.plugin.as_str(),
                    group_id,
                    hook.feature.as_str(),
                ) {
                    let found = HookTarget { plugin: hook.plugin.clone(), handler: hook.handler };
                    out.push(found);
                    assert(target_views(out@) =~= target_views(before).push(found@));
                    assert(below + head.push(found@) =~= (below + head).push(found@));
                }
                i = i + 1;
            }
            assert(all.take(all.len() as int) =~= all);
            order = order + 1;
        }
        out
    }

    /// What an event is about and who hears it; `None` where its kind is unknown or
    /// nobody hears it.
    pub fn matching_hooks(&self, event: &OneBotEvent, gating: &Gating) -> (r: Option<Matched>)
        ensures
            match r {
                Some(found) => kind_named(event@.post_type) == Some(found.kind) && found.body@
                    == body_of(event@) && target_views(found.targets@) == event_targets(
                    self.inbound(),
                    body_of(event@),
                    event@.group_id,
                    gating.config@,
                ) && found.targets@.len() > 0,
                None => kind_named(event@.post_type) is None || event_targets(
                    self.inbound(),
                    body_of(event@),
                    event@.group_id,
                    gating.config@,
                ).len() == 0,
            },
    {
        let body = EventBody::from_event(event);
        match EventKind::from_post_type(event.post_type.as_str()) {
            None => None,
            Some(kind) => {
                let targets = self.targets(&body, event.group_id, gating);
                assert(target_views(targets@).len() == targets@.len());
                if targets.len() == 0 {
                    None
                } else {
                    Some(Matched { kind, body, targets })
                }
            },
        }
    }
}

// ---------------------------------------------------------------------------
// asking

/// One round of asking: the listeners, who is next, and which plugins were taken
/// out of service on the way.
#[derive(Debug)]
pub struct Round {
    pub targets: Vec<HookTarget>,
    pub next: usize,
    pub quarantined: Vec<String>,
    /// Nobody else is asked.
    pub stopped: bool,
}

/// The position of the next listener at or after `from` whose plugin is in service.
pub open spec fn next_in_service(
    targets: Seq<(Seq<char>, u64)>,
    quarantined: Seq<Seq<char>>,
    from: int,
) -> Option<int>
    decreases targets.len() - from,
{
    if from < 0 || from >= targets.len() {
        None
    } else if quarantined.contains(targets[from].0) {
        next_in_service(targets, quarantined, from + 1)
    } else {
        Some(from)
    }
}

impl Round {
    /// A round in which nobody has been asked yet.
    pub fn new(targets: Vec<HookTarget>) -> (r: Round)
        ensures
            r.targets == targets,
            r.next == 0,
            r.quarantined@.len() == 0,
            !r.stopped,
    {
        Round { targets, next: 0, quarantined: Vec::new(), stopped: false }
    }

    /// The position of the listener to ask now; those of plugins out of service are
    /// passed over. `None` where the round is over.
    pub fn next_target(&mut self) -> (r: Option<usize>)
        ensures
            final(self).targets == old(self).targets,
            final(self).quarantined == old(self).quarantined,
            final(self).stopped == old(self).stopped,
            match r {
                Some(i) => !old(self).stopped && i < old(self).targets@.len() && next_in_service(
                    target_views(old(self).targets@),
                    texts(old(self).quarantined@),
                    old(self).next as int,
                ) == Some(i as int) && final(self).next == i + 1,
                None => (old(self).stopped || next_in_service(
                    target_views(old(self).targets@),
                    texts(old(self).quarantined@),
                    old(self).next as int,
                ) is None) && final(self).next == old(self).next,
            },
    {
        if self.stopped {
            return None;
        }
        let ghost views = target_views(self.targets@);
        let ghost out = texts(self.quarantined@);
        let mut i: usize = self.next;
        while i < self.targets.len()
            invariant
                self.next <= i,
                !self.stopped,
                *self == *old(self),
                views == target_views(self.targets@),
                out == texts(self.quarantined@),
                next_in_service(views, out, self.next as int) == next_in_service(
                    views,
                    out,
                    i as int,
                ),
            decreases self.targets@.len() - i,
        {
            proof {
                lemma_lists_is_contains(self.quarantined@, self.targets@[i as int].plugin@);
                assert(views[i as int].0 == self.targets@[i as int].plugin@);
            }
            if !contains_text(&self.quarantined, self.targets[i].plugin.as_str()) {
                self.next = i + 1;
                return Some(i);
            }
            i = i + 1;
        }
        None
    }

    /// Takes in what a listener for events did: `None` where it failed. A handled
    /// event ends the round. A failure that takes the plugin out of service ends the
    /// round for that plugin alone.
    pub fn report(
        &mut self,
        asked: usize,
        outcome: Option<HookFlow>,
        health: &mut HealthBoard,
        gating: &mut Gating,
    )
        requires
            asked < old(self).targets@.len(),
        ensures
            final(self).targets == old(self).targets,
            final(self).next == old(self).next,
            final(self).stopped == (old(self).stopped || outcome == Some(HookFlow::Handled)),
            ({
                let plugin = old(self).targets@[asked as int].plugin@;
                let out = outcome is None && reaches(
                    old(health).limit(),
                    one_more(failures_of(old(health)@, plugin)),
                );
                &&& texts(final(self).quarantined@) == if out {
                    texts(old(self).quarantined@).push(plugin)
                } else {
                    texts(old(self).quarantined@)
                }
                &&& final(health)@ == if outcome is Some || out {
                    old(health)@.remove(plugin)
                } else {
                    old(health)@.insert(plugin, one_more(failures_of(old(health)@, plugin)))
                }
                &&& final(health).limit() == old(health).limit()
                &&& out ==> !plugin_on(final(gating).config@, plugin)
                &&& final(gating).config@ == (AronaConfigView {
                    disabled_plugins: if out && !old(gating).config@.disabled_plugins.contains(
                        plugin,
                    ) {
                        old(gating).config@.disabled_plugins.push(plugin)
                    } else {
                        old(gating).config@.disabled_plugins
                    },
                    ..old(gating).config@
                })
                &&& final(gating).bot_id == old(gating).bot_id
            }),
    {
        let plugin = self.targets[asked].plugin.clone();
        let ghost before = self.quarantined@;
        match outcome {
            Some(flow) => {
                health.record_success(plugin.as_str());
                if flow == HookFlow::Handled {
                    self.stopped = true;
                }
            },
            None => {
                if health.record_panic(plugin.as_str(), gating) {
                    self.quarantined.push(plugin);
                    assert(texts(self.quarantined@) =~= texts(before).push(plugin@));
                }
            },
        }
    }

    /// Takes in what a listener for messages did: whether it failed, and whether the
    /// message is stopped now. A stopped message ends the round.
    pub fn report_outbound(
        &mut self,
        asked: usize,
        failed: bool,
        cancelled: bool,
        health: &mut HealthBoard,
        gating: &mut Gating,
    )
        requires
            asked < old(self).targets@.len(),
        ensures
            final(self).targets == old(self).targets,
            final(self).next == old(self).next,
            final(self).stopped == (old(self).stopped || cancelled),
            ({
                let plugin = old(self).targets@[asked as int].plugin@;
                let out = failed && reaches(
                    old(health).limit(),
                    one_more(failures_of(old(health)@, plugin)),
                );
                &&& texts(final(self).quarantined@) == if out {
                    texts(old(self).quarantined@).push(plugin)
                } else {
                    texts(old(self).quarantined@)
                }
                &&& final(health)@ == if !failed || out {
                    old(health)@.remove(plugin)
                } else {
                    old(health)@.insert(plugin, one_more(failures_of(old(health)@, plugin)))
                }
                &&& final(health).limit() == old(health).limit()
                &&& out ==> !plugin_on(final(gating).config@, plugin)
                &&& final(gating).config@ == (AronaConfigView {
                    disabled_plugins: if out && !old(gating).config@.disabled_plugins.contains(
                        plugin,
                    ) {
                        old(gating).config@.disabled_plugins.push(plugin)
                    } else {
                        old(gating).config@.disabled_plugins
                    },
                    ..old(gating).config@
                })
                &&& final(gating).bot_id == old(gating).bot_id
            }),
    {
        let outcome: Option<HookFlow> = if failed {
            None
        } else {
            Some(HookFlow::Pass)
        };
        self.report(asked, outcome, health, gating);
        if cancelled {
            self.stopped = true;
        }
    }
}


/// An event on its way to its listeners.
#[derive(Debug)]
pub struct Dispatch {
    pub context: EventContext,
    pub round: Round,
}

/// The number of the bot: the event's, else the configured one.
pub open spec fn bot_of(event: EventView, bot_id: i64) -> i64 {
    if event.self_id != 0 {
        event.self_id
    } else {
        bot_id
    }
}

impl HookRegistry {
    /// Brings an event on its way, with the message as the caller has read it.
    /// `None` where nobody hears it.
    pub fn dispatch_parsed(
        &self,
        event: &OneBotEvent,
        parsed: ParsedMessage,
        gating: &Gating,
    ) -> (r: Option<Dispatch>)
        ensures
            ({
                let targets = event_targets(
                    self.inbound(),
                    body_of(event@),
                    event@.group_id,
                    gating.config@,
                );
                match r {
                    Some(dispatch) => {
                        &&& kind_named(event@.post_type) == Some(dispatch.context.kind)
                        &&& targets.len() > 0
                        &&& target_views(dispatch.round.targets@) == targets
                        &&& dispatch.round.next == 0
                        &&& dispatch.round.quarantined@.len() == 0
                        &&& !dispatch.round.stopped
                        &&& dispatch.context.event@ == event@
                        &&& dispatch.context.body@ == body_of(event@)
                        &&& dispatch.context.text == parsed.text
                        &&& dispatch.context.command_text == parsed.command_text
                        &&& dispatch.context.segments == parsed.segments
                    },
                    None => kind_named(event@.post_type) is None || targets.len() == 0,
                }
            }),
    {
        match self.matching_hooks(event, gating) {
            Some(found) => {
                assert(target_views(found.targets@).len() == found.targets@.len());
                Some(
                    Dispatch {
                        context: EventContext {
                            kind: found.kind,
                            event: event.clone(),
                            body: found.body,
                            text: parsed.text,
                            command_text: parsed.command_text,
                            segments: parsed.segments,
                        },
                        round: Round::new(found.targets),
                    },
                )
            },
            None => None,
        }
    }

    /// Brings an event on its way. `None` where nobody hears it.
    pub fn dispatch(&self, event: &OneBotEvent, gating: &Gating) -> (r: Option<Dispatch>)
        ensures
            ({
                let targets = event_targets(
                    self.inbound(),
                    body_of(event@),
                    event@.group_id,
                    gating.config@,
                );
                match r {
                    Some(dispatch) => {
                        &&& kind_named(event@.post_type) == Some(dispatch.context.kind)
                        &&& targets.len() > 0
                        &&& target_views(dispatch.round.targets@) == targets
                        &&& dispatch.round.next == 0
                        &&& dispatch.round.quarantined@.len() == 0
                        &&& !dispatch.round.stopped
                        &&& dispatch.context.event@ == event@
                        &&& dispatch.context.body@ == body_of(event@)
                        &&& dispatch.context.text@ == display_all(event_segments(event@))
                        &&& dispatch.context.command_text@ == command_line(
                            event_segments(event@),
                            bot_of(event@, gating.bot_id),
                        )
                        &&& segment_views(dispatch.context.segments@) == event_segments(event@)
                    },
                    None => kind_named(event@.post_type) is None || targets.len() == 0,
                }
            }),
    {
        let self_id: i64 = if event.self_id != 0 {
            event.self_id
        } else {
            gating.bot_id
        };
        self.dispatch_parsed(event, ParsedMessage::parse(event, self_id), gating)
    }

    /// Brings a message on its way to its listeners.
    pub fn dispatch_outbound(&self, target: MessageTarget, gating: &Gating) -> (r: Round)
        ensures
            target_views(r.targets@) == message_targets(self.outgoing(), target, gating.config@),
            r.next == 0,
            r.quarantined@.len() == 0,
            !r.stopped,
    {
        Round::new(self.outbound_targets(target, gating))
    }
}

// ---------------------------------------------------------------------------
// overview

/// A list of texts with those of another list that it lacks.
pub open spec fn with_missing(have: Seq<Seq<char>>, more: Seq<Seq<char>>) -> Seq<Seq<char>>
    decreases more.len(),
{
    if more.len() == 0 {
        have
    } else {
        let head = with_missing(have, more.drop_last());
        if head.contains(more.last()) {
            head
        } else {
            head.push(more.last())
        }
    }
}

/// The position of a plugin in the overview.
pub open spec fn overview_index(
    rows: Seq<(Seq<char>, Seq<Seq<char>>)>,
    plugin: Seq<char>,
    from: int,
) -> Option<int>
    decreases rows.len() - from,
{
    if from < 0 || from >= rows.len() {
        None
    } else if rows[from].0 == plugin {
        Some(from)
    } else {
        overview_index(rows, plugin, from + 1)
    }
}

/// The overview with what a listener of a plugin hears.
pub open spec fn overview_with(
    rows: Seq<(Seq<char>, Seq<Seq<char>>)>,
    plugin: Seq<char>,
    scopes: Seq<Seq<char>>,
) -> Seq<(Seq<char>, Seq<Seq<char>>)> {
    match overview_index(rows, plugin, 0) {
        Some(i) => rows.update(i, (rows[i].0, with_missing(rows[i].1, scopes))),
        None => rows.push((plugin, scopes)),
    }
}

/// What a listener hears, by name.
pub open spec fn scopes_of(filters: Seq<BodyFilter>) -> Seq<Seq<char>> {
    if filters.len() == 0 {
        seq![filter_name(BodyFilterView::All)]
    } else {
        Seq::new(filters.len(), |i: int| filter_name(filters[i]@))
    }
}

/// The overview of the listeners for events.
pub open spec fn inbound_overview(hooks: Seq<Hook>) -> Seq<(Seq<char>, Seq<Seq<char>>)>
    decreases hooks.len(),
{
    if hooks.len() == 0 {
        Seq::empty()
    } else {
        overview_with(
            inbound_overview(hooks.drop_last()),
            hooks.last().plugin@,
            scopes_of(hooks.last().filters@),
        )
    }
}

/// The overview with the listeners for messages.
pub open spec fn overview_of(
    rows: Seq<(Seq<char>, Seq<Seq<char>>)>,
    outbound: Seq<OutboundHook>,
) -> Seq<(Seq<char>, Seq<Seq<char>>)>
    decreases outbound.len(),
{
    if outbound.len() == 0 {
        rows
    } else {
        overview_with(
            overview_of(rows, outbound.drop_last()),
            outbound.last().plugin@,
            seq!["出站消息"@],
        )
    }
}

/// The views of the rows of an overview.
pub open spec fn row_views(
    rows: Seq<(String, Vec<String>)>,
) -> Seq<(Seq<char>, Seq<Seq<char>>)> {
    Seq::new(rows.len(), |i: int| (rows[i].0@, texts(rows[i].1@)))
}

fn add_missing(have: &mut Vec<String>, more: &Vec<String>)
    ensures
        texts(final(have)@) == with_missing(texts(old(have)@), texts(more@)),
{
    let ghost start = texts(have@);
    let ghost all = texts(more@);
    let mut i: usize = 0;
    while i < more.len()
        invariant
            i <= more@.len(),
            all == texts(more@),
            texts(have@) == with_missing(start, all.take(i as int)),
        decreases more@.len() - i,
    {
        let ghost before = have@;
        proof {
            assert(all.take(i + 1).drop_last() =~= all.take(i as int));
            assert(all.take(i + 1).last() == more@[i as int]@);
            lemma_lists_is_contains(have@, more@[i as int]@);
        }
        if !contains_text(have, more[i].as_str()) {
            have.push(more[i].clone());
            assert(texts(have@) =~= texts(before).push(more@[i as int]@));
        }
        i = i + 1;
    }
    assert(all.take(all.len() as int) =~= all);
}

fn record(rows: &mut Vec<(String, Vec<String>)>, plugin: &str, scopes: Vec<String>)
    ensures
        row_views(final(rows)@) == overview_with(
            row_views(old(rows)@),
            plugin@,
            texts(scopes@),
        ),
{
    let ghost views = row_views(rows@);
    let mut i: usize = 0;
    while i < rows.len()
        invariant
            i <= rows@.len(),
            rows@ == old(rows)@,
            views == row_views(rows@),
            overview_index(views, plugin@, 0) == overview_index(views, plugin@, i as int),
        decreases rows@.len() - i,
    {
        assert(views[i as int].0 == rows@[i as int].0@);
        if same(rows[i].0.as_str(), plugin) {
            let (name, mut have) = rows.remove(i);
            add_missing(&mut have, &scopes);
            rows.insert(i, (name, have));
            assert(row_views(rows@) =~= views.update(
                i as int,
                (views[i as int].0, with_missing(views[i as int].1, texts(scopes@))),
            ));
            return ;
        }
        i = i + 1;
    }
    rows.push((owned(plugin), scopes));
    assert(row_views(rows@) =~= views.push((plugin@, texts(scopes@))));
}

fn scope_names(filters: &Vec<BodyFilter>) -> (r: Vec<String>)
    ensures
        texts(r@) == scopes_of(filters@),
{
    let mut out: Vec<String> = Vec::new();
    if filters.len() == 0 {
        out.push(BodyFilter::All.display_name());
        assert(texts(out@) =~= scopes_of(filters@));
        return out;
    }
    let mut i: usize = 0;
    while i < filters.len()
        invariant
            i <= filters@.len(),
            out@.len() == i,
            forall|k: int| 0 <= k < i ==> (#[trigger] out@[k])@ == filter_name(filters@[k]@),
        decreases filters@.len() - i,
    {
        out.push(filters[i].display_name());
        i = i + 1;
    }
    assert(texts(out@) =~= scopes_of(filters@));
    out
}

impl HookRegistry {
    /// Who hears what: each plugin with the names of what its listeners hear.
    pub fn subscriptions(&self) -> (r: Vec<(String, Vec<String>)>)
        ensures
            row_views(r@) == overview_of(inbound_overview(self.inbound()), self.outgoing()),
    {
        let mut rows: Vec<(String, Vec<String>)> = Vec::new();
        let ghost hooks = self.hooks@;
        let ghost outbound = self.outbound@;
        let mut i: usize = 0;
        assert(row_views(rows@) =~= inbound_overview(hooks.take(0)));
        while i < self.hooks.len()
            invariant
                i <= self.hooks@.len(),
                hooks == self.hooks@,
                row_views(rows@) == inbound_overview(hooks.take(i as int)),
            decreases self.hooks@.len() - i,
        {
            assert(hooks.take(i + 1).drop_last() =~= hooks.take(i as int));
            let scopes = scope_names(&self.hooks[i].filters);
            record(&mut rows, self.hooks[i].plugin.as_str(), scopes);
            i = i + 1;
        }
        assert(hooks.take(hooks.len() as int) =~= hooks);
        let ghost base = row_views(rows@);
        i = 0;
        while i < self.outbound.len()
            invariant
                i <= self.outbound@.len(),
                outbound == self.outbound@,
                row_views(rows@) == overview_of(base, outbound.take(i as int)),
            decreases self.outbound@.len() - i,
        {
            assert(outbound.take(i + 1).drop_last() =~= outbound.take(i as int));
            let mut scopes: Vec<String> = Vec::new();
            scopes.push(owned("出站消息"));
            assert(texts(scopes@) =~= seq!["出站消息"@]);
            record(&mut rows, self.outbound[i].plugin.as_str(), scopes);
            i = i + 1;
        }
        assert(outbound.take(outbound.len() as int) =~= outbound);
        rows
    }
}

// ---------------------------------------------------------------------------
// laws

proof fn lemma_targets_at_pass_the_gate(
    hooks: Seq<Hook>,
    order: int,
    body: EventBodyView,
    group_id: Option<i64>,
    config: AronaConfigView,
    i: int,
)
    requires
        0 <= i < targets_at(hooks, order, body, group_id, config).len(),
    ensures
        ({
            let target = targets_at(hooks, order, body, group_id, config)[i];
            exists|k: int|
                0 <= k < hooks.len() && (#[trigger] hooks[k]).plugin@ == target.0
                    && hooks[k].handler == target.1 && rank(hooks[k].priority) == order && hears(
                    hooks[k],
                    body,
                    group_id,
                    config,
                )
        }),
    decreases hooks.len(),
{
    let last = hooks.last();
    let head = targets_at(hooks.drop_last(), order, body, group_id, config);
    let target = targets_at(hooks, order, body, group_id, config)[i];
    if i < head.len() {
        lemma_targets_at_pass_the_gate(hooks.drop_last(), order, body, group_id, config, i);
        let k = choose|k: int|
            0 <= k < hooks.len() - 1 && (#[trigger] hooks.drop_last()[k]).plugin@ == target.0
                && hooks.drop_last()[k].handler == target.1 && rank(hooks.drop_last()[k].priority)
                == order && hears(hooks.drop_last()[k], body, group_id, config);
        assert(hooks[k] == hooks.drop_last()[k]);
    } else {
        assert(hooks[hooks.len() - 1].plugin@ == target.0);
    }
}

proof fn lemma_targets_below_pass_the_gate(
    hooks: Seq<Hook>,
    orders: int,
    body: EventBodyView,
    group_id: Option<i64>,
    config: AronaConfigView,
    i: int,
)
    requires
        0 <= i < targets_below(hooks, orders, body, group_id, config).len(),
    ensures
        ({
            let target = targets_below(hooks, orders, body, group_id, config)[i];
            exists|k: int|
                0 <= k < hooks.len() && (#[trigger] hooks[k]).plugin@ == target.0
                    && hooks[k].handler == target.1 && hears(hooks[k], body, group_id, config)
        }),
    decreases orders,
{
    let below = targets_below(hooks, orders - 1, body, group_id, config);
    if i < below.len() {
        lemma_targets_below_pass_the_gate(hooks, orders - 1, body, group_id, config, i);
    } else {
        lemma_targets_at_pass_the_gate(
            hooks,
            orders - 1,
            body,
            group_id,
            config,
            i - below.len(),
        );
    }
}

/// Whoever is asked has subscribed, wants the event, and is let through: it is on,
/// on in the group, and so is its feature. A plugin that is off hears nothing.
pub proof fn law_only_open_gates_are_asked(
    hooks: Seq<Hook>,
    body: EventBodyView,
    group_id: Option<i64>,
    config: AronaConfigView,
    i: int,
)
    requires
        0 <= i < event_targets(hooks, body, group_id, config).len(),
    ensures
        ({
            let target = event_targets(hooks, body, group_id, config)[i];
            &&& plugin_on(config, target.0)
            &&& plugin_on_in_group(config, target.0, group_id)
            &&& exists|k: int|
                0 <= k < hooks.len() && (#[trigger] hooks[k]).plugin@ == target.0
                    && hooks[k].handler == target.1 && hears(hooks[k], body, group_id, config)
        }),
{
    lemma_targets_below_pass_the_gate(hooks, 5, body, group_id, config, i);
}

proof fn lemma_outbound_below_pass_the_gate(
    hooks: Seq<OutboundHook>,
    orders: int,
    group_id: Option<i64>,
    config: AronaConfigView,
    i: int,
)
    requires
        0 <= i < outbound_below(hooks, orders, group_id, config).len(),
    ensures
        plugin_on(config, outbound_below(hooks, orders, group_id, config)[i].0),
        plugin_on_in_group(config, outbound_below(hooks, orders, group_id, config)[i].0, group_id),
    decreases orders,
{
    let below = outbound_below(hooks, orders - 1, group_id, config);
    if i < below.len() {
        lemma_outbound_below_pass_the_gate(hooks, orders - 1, group_id, config, i);
    } else {
        lemma_outbound_at_pass_the_gate(hooks, orders - 1, group_id, config, i - below.len());
    }
}

proof fn lemma_outbound_at_pass_the_gate(
    hooks: Seq<OutboundHook>,
    order: int,
    group_id: Option<i64>,
    config: AronaConfigView,
    i: int,
)
    requires
        0 <= i < outbound_at(hooks, order, group_id, config).len(),
    ensures
        plugin_on(config, outbound_at(hooks, order, group_id, config)[i].0),
        plugin_on_in_group(config, outbound_at(hooks, order, group_id, config)[i].0, group_id),
    decreases hooks.len(),
{
    let head = outbound_at(hooks.drop_last(), order, group_id, config);
    if i < head.len() {
        lemma_outbound_at_pass_the_gate(hooks.drop_last(), order, group_id, config, i);
    }
}

/// A plugin that is off, or off in the group, cannot touch a message to it.
pub proof fn law_disabled_plugins_cannot_touch_messages(
    hooks: Seq<OutboundHook>,
    target: MessageTarget,
    config: AronaConfigView,
    i: int,
)
    requires
        0 <= i < message_targets(hooks, target, config).len(),
    ensures
        plugin_on(config, message_targets(hooks, target, config)[i].0),
        plugin_on_in_group(
            config,
            message_targets(hooks, target, config)[i].0,
            target_group(target),
        ),
{
    lemma_outbound_below_pass_the_gate(hooks, 5, target_group(target), config, i);
}

proof fn lemma_hook_is_among_targets_at(
    hooks: Seq<Hook>,
    body: EventBodyView,
    group_id: Option<i64>,
    config: AronaConfigView,
    k: int,
) -> (i: int)
    requires
        0 <= k < hooks.len(),
        hears(hooks[k], body, group_id, config),
    ensures
        ({
            let at = targets_at(hooks, rank(hooks[k].priority), body, group_id, config);
            0 <= i < at.len() && at[i] == (hooks[k].plugin@, hooks[k].handler)
        }),
    decreases hooks.len(),
{
    let order = rank(hooks[k].priority);
    let head = targets_at(hooks.drop_last(), order, body, group_id, config);
    if k == hooks.len() - 1 {
        head.len() as int
    } else {
        assert(hooks.drop_last()[k] == hooks[k]);
        lemma_hook_is_among_targets_at(hooks.drop_last(), body, group_id, config, k)
    }
}

proof fn lemma_targets_below_split(
    hooks: Seq<Hook>,
    orders: int,
    order: int,
    body: EventBodyView,
    group_id: Option<i64>,
    config: AronaConfigView,
    i: int,
)
    requires
        0 <= order < orders,
        0 <= i < targets_at(hooks, order, body, group_id, config).len(),
    ensures
        ({
            let start = targets_below(hooks, order, body, group_id, config).len();
            let all = targets_below(hooks, orders, body, group_id, config);
            &&& start + i < targets_below(hooks, order + 1, body, group_id, config).len()
            &&& targets_below(hooks, order + 1, body, group_id, config).len() <= all.len()
            &&& all[start + i] == targets_at(hooks, order, body, group_id, config)[i]
        }),
    decreases orders,
{
    if orders > order + 1 {
        lemma_targets_below_split(hooks, orders - 1, order, body, group_id, config, i);
    }
}

/// A listener of an earlier priority is asked before one of a later priority,
/// whichever subscribed first.
pub proof fn law_priority_beats_subscription(
    hooks: Seq<Hook>,
    body: EventBodyView,
    group_id: Option<i64>,
    config: AronaConfigView,
    a: int,
    b: int,
)
    requires
        0 <= a < hooks.len(),
        0 <= b < hooks.len(),
        hears(hooks[a], body, group_id, config),
        hears(hooks[b], body, group_id, config),
        rank(hooks[a].priority) < rank(hooks[b].priority),
    ensures
        ({
            let all = event_targets(hooks, body, group_id, config);
            exists|i: int, j: int|
                0 <= i < j < all.len() && #[trigger] all[i] == (
                    hooks[a].plugin@,
                    hooks[a].handler,
                ) && #[trigger] all[j] == (hooks[b].plugin@, hooks[b].handler)
        }),
{
    let first = rank(hooks[a].priority);
    let later = rank(hooks[b].priority);
    let i = lemma_hook_is_among_targets_at(hooks, body, group_id, config, a);
    let j = lemma_hook_is_among_targets_at(hooks, body, group_id, config, b);
    lemma_targets_below_split(hooks, 5, first, body, group_id, config, i);
    lemma_targets_below_split(hooks, 5, later, body, group_id, config, j);
    lemma_targets_below_grow(hooks, first + 1, later, body, group_id, config);
    let all = event_targets(hooks, body, group_id, config);
    let x = targets_below(hooks, first, body, group_id, config).len() + i;
    let y = targets_below(hooks, later, body, group_id, config).len() + j;
    assert(all[x] == (hooks[a].plugin@, hooks[a].handler));
    assert(all[y] == (hooks[b].plugin@, hooks[b].handler));
}

proof fn lemma_targets_below_grow(
    hooks: Seq<Hook>,
    a: int,
    b: int,
    body: EventBodyView,
    group_id: Option<i64>,
    config: AronaConfigView,
)
    requires
        0 <= a <= b,
    ensures
        targets_below(hooks, a, body, group_id, config).len() <= targets_below(
            hooks,
            b,
            body,
            group_id,
            config,
        ).len(),
    decreases b,
{
    if a < b {
        lemma_targets_below_grow(hooks, a, b - 1, body, group_id, config);
    }
}

/// Taking back the listeners of a plugin leaves it none and the others theirs, in both
/// directions.
pub proof fn law_unsubscribing_touches_one_plugin(
    hooks: Seq<Hook>,
    outbound: Seq<OutboundHook>,
    plugin: Seq<char>,
    other: Seq<char>,
)
    ensures
        hooks_owned(hooks_without(hooks, plugin), plugin) == 0,
        outbound_owned(outbound_without(outbound, plugin), plugin) == 0,
        other != plugin ==> hooks_owned(hooks_without(hooks, plugin), other) == hooks_owned(
            hooks,
            other,
        ),
        other != plugin ==> outbound_owned(outbound_without(outbound, plugin), other)
            == outbound_owned(outbound, other),
{
    lemma_hooks_without_owned(hooks, plugin, plugin);
    lemma_hooks_without_owned(hooks, plugin, other);
    lemma_outbound_without_owned(outbound, plugin, plugin);
    lemma_outbound_without_owned(outbound, plugin, other);
}

/// A plugin taken out of service silences nobody else: a listener of a plugin in
/// service is asked at the latest when its turn comes, and whoever is asked before
/// is in service too.
pub proof fn law_quarantine_silences_only_that_plugin(
    targets: Seq<(Seq<char>, u64)>,
    quarantined: Seq<Seq<char>>,
    from: int,
    turn: int,
)
    requires
        0 <= from <= turn < targets.len(),
        !quarantined.contains(targets[turn].0),
    ensures
        next_in_service(targets, quarantined, from) matches Some(i) && from <= i <= turn
            && !quarantined.contains(targets[i].0),
    decreases turn - from,
{
    if quarantined.contains(targets[from].0) {
        law_quarantine_silences_only_that_plugin(targets, quarantined, from + 1, turn);
    }
}

/// A listener without filters wants every event, and a filter more is one more reason to
/// want an event: it is wanted where that filter lets it through or one before did.
pub proof fn law_one_filter_is_enough(
    filters: Seq<BodyFilter>,
    filter: BodyFilter,
    body: EventBodyView,
)
    ensures
        wants(Seq::empty(), body),
        filters.len() == 0 ==> (wants(filters.push(filter), body) <==> filter_matches(
            filter@,
            body,
        )),
        filters.len() > 0 ==> (wants(filters.push(filter), body) <==> wants(filters, body)
            || filter_matches(filter@, body)),
{
    let more = filters.push(filter);
    assert(more[filters.len() as int] == filter);
    if filters.len() > 0 && wants(filters, body) {
        let i = choose|i: int|
            0 <= i < filters.len() && filter_matches((#[trigger] filters[i])@, body);
        assert(more[i] == filters[i]);
    }
    if wants(more, body) {
        let i = choose|i: int| 0 <= i < more.len() && filter_matches((#[trigger] more[i])@, body);
        if i < filters.len() {
            assert(filters[i] == more[i]);
        }
    }
}

/// A plugin that nothing switches off hears what it wants: it is kept out just where the
/// list of disabled plugins names it, or its group's own list does, or the group has its
/// feature off.
pub proof fn law_who_is_kept_out(
    hook: Hook,
    body: EventBodyView,
    group_id: Option<i64>,
    config: AronaConfigView,
)
    ensures
        ({
            let setting = match group_id {
                Some(group) => if config.group_settings.contains_key(decimal(group as int)) {
                    Some(config.group_settings[decimal(group as int)])
                } else {
                    None
                },
                None => None,
            };
            let off = names_id(config.disabled_plugins, hook.plugin@);
            let off_here = setting matches Some(set) && names_id(set.disabled_plugins, hook.plugin@);
            let feature_off = setting matches Some(set) && hook.feature@.len() > 0
                && set.disabled_features.contains(hook.feature@);
            hears(hook, body, group_id, config) <==> wants(hook.filters@, body) && !off && !off_here
                && !feature_off
        }),
{
}

/// Within a priority just those listeners are asked that hear the event, in the order in
/// which they subscribed, and the priorities come one after another.
pub proof fn law_who_is_asked_and_when(
    hooks: Seq<Hook>,
    body: EventBodyView,
    group_id: Option<i64>,
    config: AronaConfigView,
    order: int,
)
    ensures
        targets_at(hooks, order, body, group_id, config) == hooks.filter(
            |hook: Hook| rank(hook.priority) == order && hears(hook, body, group_id, config),
        ).map_values(|hook: Hook| (hook.plugin@, hook.handler)),
        event_targets(hooks, body, group_id, config) == targets_at(
            hooks,
            0,
            body,
            group_id,
            config,
        ) + targets_at(hooks, 1, body, group_id, config) + targets_at(
            hooks,
            2,
            body,
            group_id,
            config,
        ) + targets_at(hooks, 3, body, group_id, config) + targets_at(
            hooks,
            4,
            body,
            group_id,
            config,
        ),
    decreases hooks.len(),
{
    reveal(Seq::filter);
    let hear = |hook: Hook| rank(hook.priority) == order && hears(hook, body, group_id, config);
    let pair = |hook: Hook| (hook.plugin@, hook.handler);
    if hooks.len() > 0 {
        law_who_is_asked_and_when(hooks.drop_last(), body, group_id, config, order);
        let head = hooks.drop_last().filter(hear);
        assert(head.push(hooks.last()).map_values(pair) =~= head.map_values(pair).push(
            pair(hooks.last()),
        ));
    } else {
        assert(hooks.filter(hear).map_values(pair) =~= Seq::empty());
    }
    reveal_with_fuel(targets_below, 6);
    let first = targets_at(hooks, 0, body, group_id, config);
    assert(Seq::<(Seq<char>, u64)>::empty() + first =~= first);
}

/// Of a message just those listeners hear that are on where it goes, in the order in
/// which they subscribed within a priority, and the priorities come one after another. A
/// message to a user alone is in no group.
pub proof fn law_who_hears_of_messages(
    hooks: Seq<OutboundHook>,
    target: MessageTarget,
    group_id: Option<i64>,
    config: AronaConfigView,
    order: int,
)
    requires
        match target {
            MessageTarget::Group(group) => group_id == Some(group),
            MessageTarget::Private(_) => group_id is None,
        },
    ensures
        outbound_at(hooks, order, group_id, config) == hooks.filter(
            |hook: OutboundHook|
                rank(hook.priority) == order && gate(
                    config,
                    hook.plugin@,
                    group_id,
                    hook.feature@,
                ),
        ).map_values(|hook: OutboundHook| (hook.plugin@, hook.handler)),
        message_targets(hooks, target, config) == outbound_at(hooks, 0, group_id, config)
            + outbound_at(hooks, 1, group_id, config) + outbound_at(hooks, 2, group_id, config)
            + outbound_at(hooks, 3, group_id, config) + outbound_at(hooks, 4, group_id, config),
    decreases hooks.len(),
{
    reveal(Seq::filter);
    let hear = |hook: OutboundHook|
        rank(hook.priority) == order && gate(config, hook.plugin@, group_id, hook.feature@);
    let pair = |hook: OutboundHook| (hook.plugin@, hook.handler);
    if hooks.len() > 0 {
        law_who_hears_of_messages(hooks.drop_last(), target, group_id, config, order);
        let head = hooks.drop_last().filter(hear);
        assert(head.push(hooks.last()).map_values(pair) =~= head.map_values(pair).push(
            pair(hooks.last()),
        ));
    } else {
        assert(hooks.filter(hear).map_values(pair) =~= Seq::empty());
    }
    reveal_with_fuel(outbound_below, 6);
    let first = outbound_at(hooks, 0, group_id, config);
    assert(Seq::<(Seq<char>, u64)>::empty() + first =~= first);
}

/// A plugin hears each event once by each of its handlers: subscribing one again is
/// refused, whatever its filters, and a plugin has at most so many; any other
/// subscription is taken, and touches no other plugin's.
pub proof fn law_subscribing_twice_is_refused(
    hooks: Seq<Hook>,
    hook: Hook,
    outbound: Seq<OutboundHook>,
    sent: OutboundHook,
    other: Seq<char>,
)
    requires
        other != hook.plugin@,
        other != sent.plugin@,
    ensures
        subscription_outcome(hooks.push(hook), hook.plugin@, hook.handler) is Duplicate,
        outbound_outcome(outbound.push(sent), sent.plugin@, sent.handler) is Duplicate,
        subscription_outcome(hooks.push(hook), other, hook.handler) == subscription_outcome(
            hooks,
            other,
            hook.handler,
        ),
        outbound_outcome(outbound.push(sent), other, sent.handler) == outbound_outcome(
            outbound,
            other,
            sent.handler,
        ),
        subscription_outcome(Seq::empty(), hook.plugin@, hook.handler) is Added,
        outbound_outcome(Seq::empty(), sent.plugin@, sent.handler) is Added,
        hooks_owned(hooks, hook.plugin@) >= 64 ==> !(subscription_outcome(
            hooks,
            hook.plugin@,
            hook.handler,
        ) is Added),
        hooks_owned(hooks, hook.plugin@) < 64 && !hook_known(hooks, hook.plugin@, hook.handler)
            ==> subscription_outcome(hooks, hook.plugin@, hook.handler) is Added,
        outbound_owned(outbound, sent.plugin@) >= 64 ==> !(outbound_outcome(
            outbound,
            sent.plugin@,
            sent.handler,
        ) is Added),
        hooks_owned(hooks.push(hook), hook.plugin@) == hooks_owned(hooks, hook.plugin@) + 1,
{
    let more = hooks.push(hook);
    assert(more.drop_last() =~= hooks);
    assert(more[hooks.len() as int] == hook);
    if hook_known(hooks, other, hook.handler) {
        let i = choose|i: int|
            0 <= i < hooks.len() && (#[trigger] hooks[i]).plugin@ == other && hooks[i].handler
                == hook.handler;
        assert(more[i] == hooks[i]);
    }
    if hook_known(more, other, hook.handler) {
        let i = choose|i: int|
            0 <= i < more.len() && (#[trigger] more[i]).plugin@ == other && more[i].handler
                == hook.handler;
        assert(hooks[i] == more[i]);
    }
    let longer = outbound.push(sent);
    assert(longer.drop_last() =~= outbound);
    assert(longer[outbound.len() as int] == sent);
    if outbound_known(outbound, other, sent.handler) {
        let i = choose|i: int|
            0 <= i < outbound.len() && (#[trigger] outbound[i]).plugin@ == other
                && outbound[i].handler == sent.handler;
        assert(longer[i] == outbound[i]);
    }
    if outbound_known(longer, other, sent.handler) {
        let i = choose|i: int|
            0 <= i < longer.len() && (#[trigger] longer[i]).plugin@ == other && longer[i].handler
                == sent.handler;
        assert(outbound[i] == longer[i]);
    }
}

/// Taking back the listeners of a plugin keeps all others, in their order.
pub proof fn law_other_listeners_stay(
    hooks: Seq<Hook>,
    outbound: Seq<OutboundHook>,
    plugin: Seq<char>,
)
    ensures
        hooks_without(hooks, plugin) == hooks.filter(|hook: Hook| hook.plugin@ != plugin),
        outbound_without(outbound, plugin) == outbound.filter(
            |hook: OutboundHook| hook.plugin@ != plugin,
        ),
    decreases hooks.len() + outbound.len(),
{
    reveal(Seq::filter);
    if hooks.len() > 0 {
        law_other_listeners_stay(hooks.drop_last(), outbound, plugin);
    }
    if outbound.len() > 0 {
        law_other_listeners_stay(hooks, outbound.drop_last(), plugin);
    }
}

/// Whether an overview says of a plugin that it hears something.
pub open spec fn says_of(
    rows: Seq<(Seq<char>, Seq<Seq<char>>)>,
    plugin: Seq<char>,
    scope: Seq<char>,
) -> bool {
    exists|r: int|
        0 <= r < rows.len() && (#[trigger] rows[r]).0 == plugin && rows[r].1.contains(scope)
}

proof fn lemma_overview_index(rows: Seq<(Seq<char>, Seq<Seq<char>>)>, plugin: Seq<char>, from: int)
    requires
        0 <= from,
    ensures
        overview_index(rows, plugin, from) matches Some(i) ==> from <= i < rows.len() && rows[i].0
            == plugin,
    decreases rows.len() - from,
{
    if from < rows.len() && rows[from].0 != plugin {
        lemma_overview_index(rows, plugin, from + 1);
    }
}

proof fn lemma_with_missing(have: Seq<Seq<char>>, more: Seq<Seq<char>>, text: Seq<char>)
    ensures
        with_missing(have, more).contains(text) <==> have.contains(text) || more.contains(text),
    decreases more.len(),
{
    if more.len() == 0 {
        assert(!more.contains(text));
    } else {
        let less = more.drop_last();
        let head = with_missing(have, less);
        lemma_with_missing(have, less, text);
        lemma_with_missing(have, less, more.last());
        if more.contains(text) {
            let i = choose|i: int| 0 <= i < more.len() && more[i] == text;
            if i < less.len() {
                assert(less[i] == text);
            }
        }
        if less.contains(text) {
            let i = choose|i: int| 0 <= i < less.len() && less[i] == text;
            assert(more[i] == text);
        }
        assert(more[more.len() - 1] == more.last());
        let all = head.push(more.last());
        assert(all[head.len() as int] == more.last());
        if head.contains(text) {
            let i = choose|i: int| 0 <= i < head.len() && head[i] == text;
            assert(all[i] == text);
        }
        if all.contains(text) {
            let i = choose|i: int| 0 <= i < all.len() && all[i] == text;
            if i < head.len() {
                assert(head[i] == text);
            }
        }
    }
}

proof fn lemma_overview_grows(
    rows: Seq<(Seq<char>, Seq<Seq<char>>)>,
    plugin: Seq<char>,
    scopes: Seq<Seq<char>>,
    other: Seq<char>,
    scope: Seq<char>,
)
    ensures
        says_of(rows, other, scope) ==> says_of(overview_with(rows, plugin, scopes), other, scope),
        scopes.contains(scope) ==> says_of(overview_with(rows, plugin, scopes), plugin, scope),
{
    let after = overview_with(rows, plugin, scopes);
    lemma_overview_index(rows, plugin, 0);
    match overview_index(rows, plugin, 0) {
        Some(i) => {
            lemma_with_missing(rows[i].1, scopes, scope);
            assert(after[i].0 == plugin);
        },
        None => {
            assert(after[rows.len() as int].0 == plugin);
        },
    }
    if says_of(rows, other, scope) {
        let r = choose|r: int|
            0 <= r < rows.len() && (#[trigger] rows[r]).0 == other && rows[r].1.contains(scope);
        assert(after[r].0 == other);
    }
}

/// The overview says of every plugin what each of its listeners hears.
pub proof fn law_every_listener_is_in_the_overview(hooks: Seq<Hook>, k: int, scope: Seq<char>)
    requires
        0 <= k < hooks.len(),
        scopes_of(hooks[k].filters@).contains(scope),
    ensures
        says_of(inbound_overview(hooks), hooks[k].plugin@, scope),
    decreases hooks.len(),
{
    let head = inbound_overview(hooks.drop_last());
    let last = hooks.last();
    lemma_overview_grows(
        head,
        last.plugin@,
        scopes_of(last.filters@),
        hooks[k].plugin@,
        scope,
    );
    if k < hooks.len() - 1 {
        assert(hooks.drop_last()[k] == hooks[k]);
        law_every_listener_is_in_the_overview(hooks.drop_last(), k, scope);
    }
}

/// An event is from the bot that it names, or from the configured one where it names none.
pub proof fn law_events_are_from_their_bot(event: EventView, bot_id: i64)
    ensures
        event.self_id != 0 ==> bot_of(event, bot_id) == event.self_id,
        event.self_id == 0 ==> bot_of(event, bot_id) == bot_id,
{
}

/// The overview says of every plugin that hears of messages that it does, and keeps what
/// it said before.
pub proof fn law_outbound_listeners_are_in_the_overview(
    rows: Seq<(Seq<char>, Seq<Seq<char>>)>,
    outbound: Seq<OutboundHook>,
    k: int,
    plugin: Seq<char>,
    scope: Seq<char>,
)
    ensures
        0 <= k < outbound.len() ==> says_of(
            overview_of(rows, outbound),
            outbound[k].plugin@,
            "出站消息"@,
        ),
        says_of(rows, plugin, scope) ==> says_of(overview_of(rows, outbound), plugin, scope),
    decreases outbound.len(),
{
    if outbound.len() > 0 {
        let less = outbound.drop_last();
        let head = overview_of(rows, less);
        let last = outbound.last();
        let scopes = seq!["出站消息"@];
        law_outbound_listeners_are_in_the_overview(rows, less, k, plugin, scope);
        lemma_overview_grows(head, last.plugin@, scopes, plugin, scope);
        assert(scopes[0] == "出站消息"@);
        if 0 <= k < less.len() {
            assert(less[k] == outbound[k]);
            lemma_overview_grows(
                head,
                last.plugin@,
                scopes,
                outbound[k].plugin@,
                "出站消息"@,
            );
        } else {
            lemma_overview_grows(head, last.plugin@, scopes, last.plugin@, "出站消息"@);
        }
    }
}

} // verus!
