//! What is shown of the plugins.
use crate::plugin::description::{version_text, MetaView, PluginMeta};
use crate::plugin::manager::{
    found, plugin_views, registered, running, AronaPlugin, PluginManager, PluginState, PluginView,
    StateView,
};
use crate::plugin::manager::{cycles_marked, order_of};
use crate::plugin::order::places;
use crate::runtime::config::{plugin_on, plugin_on_in_group, Gating};
use crate::text::{holds, join, joined, lemma_holds_on, lists, owned, same, texts};
use vstd::prelude::*;
use vstd::string::StringExecFns;

verus! {

/// The ids of the plugins that are started.
pub open spec fn active_of(table: Seq<PluginView>) -> Seq<Seq<char>>
    decreases table.len(),
{
    if table.len() == 0 {
        Seq::empty()
    } else {
        let head = active_of(table.drop_last());
        if table.last().state is Active {
            head.push(table.last().meta.id)
        } else {
            head
        }
    }
}

/// The name shown for a plugin: for no plugin that of the framework, for an unknown one
/// its id.
pub open spec fn shown_name(table: Seq<PluginView>, id: Seq<char>) -> Seq<char> {
    if id.len() == 0 {
        "Arona"@
    } else {
        match found(table, id) {
            Some(at) => table[at].meta.name,
            None => id,
        }
    }
}

/// The source of a log line: the plugin and what it does.
pub open spec fn source_of(table: Seq<PluginView>, id: Seq<char>, action: Seq<char>) -> Seq<char> {
    if id.len() == 0 {
        "Arona"@
    } else {
        shown_name(table, id) + ":"@ + action
    }
}

/// Some ids in brackets.
pub open spec fn id_list(ids: Seq<Seq<char>>) -> Seq<char> {
    if ids.len() == 0 {
        "[]"@
    } else {
        "["@ + joined(ids, ", "@) + "]"@
    }
}

fn id_list_text(ids: &Vec<String>) -> (r: String)
    ensures
        r@ == id_list(texts(ids@)),
{
    if ids.len() == 0 {
        return owned("[]");
    }
    let mut out = owned("[");
    out.append(join(ids, ", ").as_str());
    out.append("]");
    out
}

/// The first half of a plugin's description file.
pub open spec fn identity_text(meta: MetaView) -> Seq<char> {
    "# 本文件由框架装载插件时自动生成，内容与插件上报的元信息一致（mirai 风格的 plugin.yml）。\n# 插件目录只放随包资源；配置与数据按统一约定各归其位：\nid: "@
        + meta.id + "\nname: "@ + meta.name + "\nversion: "@ + meta.version + "\nauthor: "@ + (
    if meta.author.len() == 0 {
        "\"(未署名)\""@
    } else {
        meta.author
    }) + "\ndescription: "@ + meta.description + "\napiVersion: "@ + version_text(meta.api_version)
}

/// The second half of a plugin's description file.
pub open spec fn place_text(meta: MetaView, loader: Seq<char>) -> Seq<char> {
    "\nloader: "@ + loader + "\ndepends: "@ + id_list(meta.depends) + "\nsoftDepends: "@ + id_list(
        meta.soft_depends,
    ) + "\nconfig: config/"@ + meta.id + "/arona.yml\ndata: data/"@ + meta.id + "\nimage: data/"@
        + meta.id + "/image\n"@
}

fn identity(meta: &PluginMeta) -> (r: String)
    ensures
        r@ == identity_text(meta@),
{
    let mut out = owned(
        "# 本文件由框架装载插件时自动生成，内容与插件上报的元信息一致（mirai 风格的 plugin.yml）。\n# 插件目录只放随包资源；配置与数据按统一约定各归其位：\nid: ",
    );
    out.append(meta.id.as_str());
    out.append("\nname: ");
    out.append(meta.name.as_str());
    out.append("\nversion: ");
    out.append(meta.version.as_str());
    out.append("\nauthor: ");
    if meta.author.as_str().is_empty() {
        out.append("\"(未署名)\"");
    } else {
        out.append(meta.author.as_str());
    }
    out.append("\ndescription: ");
    out.append(meta.description.as_str());
    out.append("\napiVersion: ");
    out.append(meta.api_version.text().as_str());
    out
}

fn place(meta: &PluginMeta, loader: &str) -> (r: String)
    ensures
        r@ == place_text(meta@, loader@),
{
    let mut out = owned("\nloader: ");
    out.append(loader);
    out.append("\ndepends: ");
    out.append(id_list_text(&meta.depends).as_str());
    out.append("\nsoftDepends: ");
    out.append(id_list_text(&meta.soft_depends).as_str());
    out.append("\nconfig: config/");
    out.append(meta.id.as_str());
    out.append("/arona.yml\ndata: data/");
    out.append(meta.id.as_str());
    out.append("\nimage: data/");
    out.append(meta.id.as_str());
    out.append("/image\n");
    out
}

/// The text of a plugin's description file.
pub fn describe(meta: &PluginMeta, loader: &str) -> (r: String)
    ensures
        r@ == identity_text(meta@) + place_text(meta@, loader@),
{
    let mut out = identity(meta);
    out.append(place(meta, loader).as_str());
    out
}

/// Whether some plugin is at work in a group.
pub open spec fn serves_group(
    table: Seq<PluginView>,
    gating: Gating,
    group_id: Option<i64>,
) -> bool {
    exists|i: int|
        0 <= i < table.len() && running((#[trigger] table[i]).state) && plugin_on(
            gating.config@,
            table[i].meta.id,
        ) && plugin_on_in_group(gating.config@, table[i].meta.id, group_id)
}

/// How many plugins there are, and how many are started.
#[derive(Clone, Copy, Debug, PartialEq, Eq, Structural)]
pub struct Summary {
    pub total: usize,
    pub active: usize,
}

impl<P: AronaPlugin> PluginManager<P> {
    /// What the plugins say of themselves.
    pub fn metas(&self) -> (r: Vec<PluginMeta>)
        ensures
            r@.len() == self@.len(),
            forall|i: int| 0 <= i < r@.len() ==> (#[trigger] r@[i])@ == self@[i].meta,
    {
        let mut out: Vec<PluginMeta> = Vec::new();
        let mut i: usize = 0;
        while i < self.plugins.len()
            invariant
                i <= self.plugins@.len(),
                out@.len() == i,
                forall|k: int| 0 <= k < i ==> (#[trigger] out@[k])@ == self@[k].meta,
            decreases self.plugins@.len() - i,
        {
            out.push(self.plugins[i].meta.copy());
            i = i + 1;
        }
        out
    }

    /// What the plugin with an id says of itself.
    pub fn meta_of(&self, id: &str) -> (r: Option<PluginMeta>)
        ensures
            match r {
                Some(meta) => found(self@, id@) is Some && meta@ == self@[found(
                    self@,
                    id@,
                )->0].meta,
                None => found(self@, id@) is None,
            },
    {
        match self.find(id) {
            Some(at) => Some(self.plugins[at].meta.copy()),
            None => None,
        }
    }

    /// The name shown for a plugin.
    pub fn display_name(&self, id: &str) -> (r: String)
        ensures
            r@ == shown_name(self@, id@),
    {
        if id.is_empty() {
            return owned("Arona");
        }
        match self.find(id) {
            Some(at) => self.plugins[at].meta.name.clone(),
            None => owned(id),
        }
    }

    /// The source of a log line: the plugin and what it does.
    pub fn log_source(&self, id: &str, action: &str) -> (r: String)
        ensures
            r@ == source_of(self@, id@, action@),
    {
        let mut out = self.display_name(id);
        if id.is_empty() {
            return out;
        }
        out.append(":");
        out.append(action);
        out
    }

    /// Whether a name is the name of a plugin.
    pub fn is_plugin_name(&self, name: &str) -> (r: bool)
        ensures
            r == exists|i: int| 0 <= i < self@.len() && (#[trigger] self@[i]).meta.name == name@,
    {
        let mut i: usize = 0;
        while i < self.plugins.len()
            invariant
                i <= self.plugins@.len(),
                forall|k: int| 0 <= k < i ==> (#[trigger] self@[k]).meta.name != name@,
            decreases self.plugins@.len() - i,
        {
            if same(self.plugins[i].meta.name.as_str(), name) {
                assert(self@[i as int].meta.name == name@);
                return true;
            }
            i = i + 1;
        }
        false
    }

    /// Where the plugin with an id stands.
    pub fn state_of(&self, id: &str) -> (r: Option<PluginState>)
        ensures
            match r {
                Some(state) => found(self@, id@) is Some && state@ == self@[found(
                    self@,
                    id@,
                )->0].state,
                None => found(self@, id@) is None,
            },
    {
        match self.find(id) {
            Some(at) => Some(self.plugins[at].state.copy()),
            None => None,
        }
    }

    /// The ids of the plugins that are started.
    pub fn active_ids(&self) -> (r: Vec<String>)
        ensures
            texts(r@) == active_of(self@),
    {
        let ghost table = self@;
        let mut out: Vec<String> = Vec::new();
        let mut i: usize = 0;
        assert(texts(out@) =~= active_of(table.take(0)));
        while i < self.plugins.len()
            invariant
                i <= self.plugins@.len(),
                table == plugin_views(self.plugins@),
                texts(out@) == active_of(table.take(i as int)),
            decreases self.plugins@.len() - i,
        {
            assert(table.take(i + 1).drop_last() =~= table.take(i as int));
            let ghost before = out@;
            let active = match &self.plugins[i].state {
                PluginState::Active => true,
                _ => false,
            };
            if active {
                let id = self.plugins[i].meta.id.clone();
                out.push(id);
                assert(texts(out@) =~= texts(before).push(id@));
            }
            i = i + 1;
        }
        assert(table.take(table.len() as int) =~= table);
        out
    }

    /// The ids of the plugins that are started.
    pub fn active_plugins(&self) -> (r: Vec<String>)
        ensures
            texts(r@) == active_of(self@),
    {
        self.active_ids()
    }

    /// What the plugins say of themselves and where they stand, in the order in which
    /// they are brought up.
    pub fn statuses(&mut self) -> (r: Vec<(PluginMeta, PluginState)>)
        ensures
            final(self)@ == cycles_marked(old(self)@),
            final(self).crew() == old(self).crew(),
            final(self).options == old(self).options,
            r@.len() == order_of(old(self)@).len(),
            forall|k: int|
                0 <= k < r@.len() ==> (#[trigger] r@[k]).0@ == final(self)@[order_of(
                    old(self)@,
                )[k]].meta && r@[k].1@ == final(self)@[order_of(old(self)@)[k]].state,
    {
        let order = self.ordered();
        let ghost all = places(order@);
        let mut out: Vec<(PluginMeta, PluginState)> = Vec::new();
        let mut k: usize = 0;
        while k < order.len()
            invariant
                k <= order@.len(),
                all == places(order@),
                self@ == cycles_marked(old(self)@),
                self.crew() == old(self).crew(),
                self.options == old(self).options,
                forall|j: int|
                    0 <= j < order@.len() ==> #[trigger] order@[j] < self.plugins@.len(),
                out@.len() == k,
                forall|j: int|
                    0 <= j < k ==> (#[trigger] out@[j]).0@ == self@[all[j]].meta && out@[j].1@
                        == self@[all[j]].state,
            decreases order@.len() - k,
        {
            let i: usize = order[k];
            out.push((self.plugins[i].meta.copy(), self.plugins[i].state.copy()));
            k = k + 1;
        }
        out
    }

    /// How many plugins there are, and how many are started.
    pub fn summary(&self) -> (r: Summary)
        ensures
            r.total == self@.len(),
            r.active == active_of(self@).len(),
    {
        Summary { total: self.plugins.len(), active: self.active_ids().len() }
    }

    /// Whether some plugin is at work in a group.
    pub fn dispatcher_active_in_group(&self, group_id: Option<i64>, gating: &Gating) -> (r: bool)
        ensures
            r == serves_group(self@, *gating, group_id),
    {
        let mut i: usize = 0;
        while i < self.plugins.len()
            invariant
                i <= self.plugins@.len(),
                forall|k: int|
                    0 <= k < i ==> !(running((#[trigger] self@[k]).state) && plugin_on(
                        gating.config@,
                        self@[k].meta.id,
                    ) && plugin_on_in_group(gating.config@, self@[k].meta.id, group_id)),
            decreases self.plugins@.len() - i,
        {
            let id = self.plugins[i].meta.id.as_str();
            if self.plugins[i].state.is_running() && gating.plugin_enabled(id)
                && gating.plugin_enabled_in_group(id, group_id) {
                assert(running(self@[i as int].state));
                return true;
            }
            i = i + 1;
        }
        false
    }

    /// Registers the plugins that a loader found and tells how many were accepted.
    pub fn register_loaded(&mut self, loader: &str, instances: Vec<P>) -> (r: usize)
        ensures
            exists|metas: Seq<MetaView>| #[trigger]
                all_described(instances@, metas) && final(self)@ == loaded(
                    old(self)@,
                    loader@,
                    metas,
                ) && final(self).crew() == old(self).crew() + accepted(
                    old(self)@,
                    loader@,
                    instances@,
                    metas,
                ),
            r == final(self)@.len() - old(self)@.len(),
            final(self).options == old(self).options,
    {
        let ghost given = instances@;
        let ghost table = self@;
        let ghost mut metas: Seq<MetaView> = Seq::empty();
        let before: usize = self.plugins.len();
        assert(self.crew() =~= old(self).crew() + accepted(table, loader@, given.take(0), metas));
        for instance in it: instances
            invariant
                it.seq() == given,
                metas.len() == it.index(),
                all_described(given.take(it.index() as int), metas),
                self@ == loaded(table, loader@, metas),
                self.crew() == old(self).crew() + accepted(
                    table,
                    loader@,
                    given.take(it.index() as int),
                    metas,
                ),
                table.len() == before,
                self@.len() >= table.len(),
                self.options == old(self).options,
        {
            let ghost k = it.index();
            let meta = instance.meta();
            let ghost head = given.take(k as int);
            let ghost crew = self.crew();
            let _ = self.register_as(loader, instance, meta);
            proof {
                let next = metas.push(meta@);
                let longer = given.take(k + 1);
                assert(next.drop_last() =~= metas);
                assert(longer.drop_last() =~= head);
                assert(longer.last() == instance);
                let base = old(self).crew();
                let so_far = accepted(table, loader@, head, metas);
                assert((base + so_far).push(instance) =~= base + so_far.push(instance));
                assert(all_described(longer, next)) by {
                    assert forall|j: int| 0 <= j < longer.len() implies #[trigger]
                        longer[j].may_describe(next[j]) by {
                        if j < k {
                            assert(head[j].may_describe(metas[j]));
                        }
                    }
                }
                metas = next;
            }
        }
        assert(given.take(given.len() as int) =~= given);
        self.plugins.len() - before
    }
}

/// Whether plugins may say this of themselves.
pub open spec fn all_described<P: AronaPlugin>(instances: Seq<P>, metas: Seq<MetaView>) -> bool {
    metas.len() == instances.len() && forall|k: int|
        0 <= k < instances.len() ==> #[trigger] instances[k].may_describe(metas[k])
}

/// The plugins that a loader found whose ids were not taken.
pub open spec fn accepted<P: AronaPlugin>(
    table: Seq<PluginView>,
    loader: Seq<char>,
    instances: Seq<P>,
    metas: Seq<MetaView>,
) -> Seq<P>
    decreases instances.len(),
{
    if instances.len() == 0 {
        Seq::empty()
    } else {
        let head = accepted(table, loader, instances.drop_last(), metas.drop_last());
        if registered(loaded(table, loader, metas.drop_last()), metas.last().id) {
            head
        } else {
            head.push(instances.last())
        }
    }
}

/// The table after the plugins that a loader found were registered.
pub open spec fn loaded(
    table: Seq<PluginView>,
    loader: Seq<char>,
    metas: Seq<MetaView>,
) -> Seq<PluginView>
    decreases metas.len(),
{
    if metas.len() == 0 {
        table
    } else {
        let before = loaded(table, loader, metas.drop_last());
        let meta = metas.last();
        if registered(before, meta.id) {
            before
        } else {
            before.push(PluginView { meta, loader, state: StateView::Loaded, context: None })
        }
    }
}

/// Whether what a plugin has put up for commands serves a group: where nobody has put
/// anything up it does, else while the plugin is on, and on in the group. Without a group
/// only the switch that holds everywhere counts.
pub fn owner_active_in_group(owner: Option<&str>, group_id: Option<i64>, gating: &Gating) -> (r:
    bool)
    ensures
        r == match owner {
            None => true,
            Some(owner) => plugin_on(gating.config@, owner@) && plugin_on_in_group(
                gating.config@,
                owner@,
                group_id,
            ),
        },
{
    match owner {
        None => true,
        Some(owner) => gating.plugin_enabled(owner) && gating.plugin_enabled_in_group(
            owner,
            group_id,
        ),
    }
}

/// The loaders that are still to be asked for plugins, by name.
#[derive(Debug)]
pub struct LoaderRegistry {
    pub loaders: Vec<String>,
}

impl LoaderRegistry {
    /// No loader.
    pub fn new() -> (r: LoaderRegistry)
        ensures
            r.loaders@.len() == 0,
    {
        LoaderRegistry { loaders: Vec::new() }
    }

    /// Adds a loader; false where one of that name is there.
    pub fn add_loader(&mut self, name: &str) -> (r: bool)
        ensures
            r == !lists(old(self).loaders@, name@),
            texts(final(self).loaders@) == if r {
                texts(old(self).loaders@).push(name@)
            } else {
                texts(old(self).loaders@)
            },
    {
        if crate::text::contains_text(&self.loaders, name) {
            return false;
        }
        self.loaders.push(owned(name));
        assert(texts(self.loaders@) =~= texts(old(self).loaders@).push(name@));
        true
    }

    /// Hands out all loaders, to be asked once.
    pub fn drain(&mut self) -> (r: Vec<String>)
        ensures
            r@ == old(self).loaders@,
            final(self).loaders@.len() == 0,
    {
        let mut out: Vec<String> = Vec::new();
        std::mem::swap(&mut out, &mut self.loaders);
        out
    }
}

/// Listed as started are just the plugins that are, in the order of the table.
pub proof fn law_active_plugins_are_listed(table: Seq<PluginView>)
    ensures
        active_of(table) == table.filter(|plugin: PluginView| plugin.state is Active).map_values(
            |plugin: PluginView| plugin.meta.id,
        ),
    decreases table.len(),
{
    reveal(Seq::filter);
    let on = |plugin: PluginView| plugin.state is Active;
    let id = |plugin: PluginView| plugin.meta.id;
    if table.len() > 0 {
        law_active_plugins_are_listed(table.drop_last());
        let head = table.drop_last().filter(on);
        assert(head.push(table.last()).map_values(id) =~= head.map_values(id).push(
            id(table.last()),
        ));
    } else {
        assert(table.filter(on).map_values(id) =~= Seq::empty());
    }
}

/// The description of a plugin says what the plugin says of itself.
pub proof fn law_descriptions_say_what_plugins_say(meta: MetaView, loader: Seq<char>)
    ensures
        holds(identity_text(meta), "\nname: "@ + meta.name),
        holds(identity_text(meta), "\nversion: "@ + meta.version),
        meta.author.len() > 0 ==> holds(identity_text(meta), "\nauthor: "@ + meta.author),
        holds(identity_text(meta), "\ndescription: "@ + meta.description),
        holds(identity_text(meta), "\napiVersion: "@ + version_text(meta.api_version)),
        holds(place_text(meta, loader), "\nloader: "@ + loader),
        holds(place_text(meta, loader), "\ndepends: "@ + id_list(meta.depends)),
        holds(place_text(meta, loader), "\nsoftDepends: "@ + id_list(meta.soft_depends)),
{
    let start = "# 本文件由框架装载插件时自动生成，内容与插件上报的元信息一致（mirai 风格的 plugin.yml）。\n# 插件目录只放随包资源；配置与数据按统一约定各归其位：\nid: "@
        + meta.id;
    let author = if meta.author.len() == 0 {
        "\"(未署名)\""@
    } else {
        meta.author
    };
    lemma_five_fields(
        start,
        ("\nname: "@, meta.name),
        ("\nversion: "@, meta.version),
        ("\nauthor: "@, author),
        ("\ndescription: "@, meta.description),
        ("\napiVersion: "@, version_text(meta.api_version)),
    );
    let depends = id_list(meta.depends);
    let soft = id_list(meta.soft_depends);
    let first = "\nloader: "@ + loader;
    lemma_five_fields(
        first,
        ("\ndepends: "@, depends),
        ("\nsoftDepends: "@, soft),
        ("\nconfig: config/"@, meta.id),
        ("/arona.yml\ndata: data/"@, meta.id),
        ("\nimage: data/"@, meta.id),
    );
    let five = first + "\ndepends: "@ + depends + "\nsoftDepends: "@ + soft + "\nconfig: config/"@
        + meta.id + "/arona.yml\ndata: data/"@ + meta.id + "\nimage: data/"@ + meta.id;
    assert(place_text(meta, loader) == five + "/image\n"@);
    lemma_holds_on(
        five,
        "/image\n"@,
        seq![first, "\ndepends: "@ + depends, "\nsoftDepends: "@ + soft],
    );
    let kept = seq![first, "\ndepends: "@ + depends, "\nsoftDepends: "@ + soft].push(
        "/image\n"@,
    );
    assert(kept[0] == first && kept[1] == "\ndepends: "@ + depends && kept[2]
        == "\nsoftDepends: "@ + soft);
}

proof fn lemma_five_fields(
    start: Seq<char>,
    a: (Seq<char>, Seq<char>),
    b: (Seq<char>, Seq<char>),
    c: (Seq<char>, Seq<char>),
    d: (Seq<char>, Seq<char>),
    e: (Seq<char>, Seq<char>),
)
    ensures
        ({
            let text = start + a.0 + a.1 + b.0 + b.1 + c.0 + c.1 + d.0 + d.1 + e.0 + e.1;
            &&& holds(text, start)
            &&& holds(text, a.0 + a.1)
            &&& holds(text, b.0 + b.1)
            &&& holds(text, c.0 + c.1)
            &&& holds(text, d.0 + d.1)
            &&& holds(text, e.0 + e.1)
        }),
{
    let none = Seq::<char>::empty();
    let (pa, pb, pc, pd, pe) = (a.0 + a.1, b.0 + b.1, c.0 + c.1, d.0 + d.1, e.0 + e.1);
    let p0 = Seq::<Seq<char>>::empty().push(start);
    let p1 = p0.push(pa);
    let p2 = p1.push(pb);
    let p3 = p2.push(pc);
    let p4 = p3.push(pd);
    let p5 = p4.push(pe);
    assert(none + start =~= start);
    lemma_holds_on(none, start, Seq::empty());
    lemma_holds_on(start, pa, p0);
    lemma_holds_on(start + pa, pb, p1);
    lemma_holds_on(start + pa + pb, pc, p2);
    lemma_holds_on(start + pa + pb + pc, pd, p3);
    lemma_holds_on(start + pa + pb + pc + pd, pe, p4);
    assert(p5[0] == start && p5[1] == pa && p5[2] == pb && p5[3] == pc && p5[4] == pd && p5[5]
        == pe);
    crate::plugin::abi::lemma_pair_behind(start, a.0, a.1);
    crate::plugin::abi::lemma_pair_behind(start + pa, b.0, b.1);
    crate::plugin::abi::lemma_pair_behind(start + pa + pb, c.0, c.1);
    crate::plugin::abi::lemma_pair_behind(start + pa + pb + pc, d.0, d.1);
    crate::plugin::abi::lemma_pair_behind(start + pa + pb + pc + pd, e.0, e.1);
}

/// A plugin is shown by its name, one that is not known by its id, and the framework by
/// its own.
pub proof fn law_plugins_are_shown_by_name(table: Seq<PluginView>, id: Seq<char>)
    requires
        id.len() > 0,
    ensures
        found(table, id) matches Some(at) ==> shown_name(table, id) == table[at].meta.name,
        found(table, id) is None ==> shown_name(table, id) == id,
        shown_name(table, Seq::empty()) == "Arona"@,
{
}

/// Every plugin that a loader finds is on the table afterwards, and those that were there
/// stay as they were: an id that is taken is not given again.
pub proof fn law_loaded_plugins_are_on_the_table(
    table: Seq<PluginView>,
    loader: Seq<char>,
    metas: Seq<MetaView>,
    i: int,
)
    ensures
        loaded(table, loader, metas).len() >= table.len(),
        loaded(table, loader, metas).take(table.len() as int) == table,
        0 <= i < metas.len() ==> registered(loaded(table, loader, metas), metas[i].id),
    decreases metas.len(),
{
    if metas.len() == 0 {
        assert(table.take(table.len() as int) =~= table);
    } else {
        law_loaded_plugins_are_on_the_table(table, loader, metas.drop_last(), i);
        let before = loaded(table, loader, metas.drop_last());
        let after = loaded(table, loader, metas);
        assert(after.take(table.len() as int) =~= before.take(table.len() as int));
        if 0 <= i < metas.len() - 1 {
            let id = metas[i].id;
            assert(metas.drop_last()[i].id == id);
            let k = choose|k: int| 0 <= k < before.len() && (#[trigger] before[k]).meta.id == id;
            assert(after[k] == before[k]);
        } else if !registered(before, metas.last().id) {
            assert(after[after.len() - 1].meta.id == metas.last().id);
        }
    }
}

/// Ids are listed in brackets, one after another.
pub proof fn law_ids_are_listed_in_brackets(ids: Seq<Seq<char>>, id: Seq<char>)
    ensures
        id_list(Seq::empty()) == "[]"@,
        id_list(seq![id]) == "["@ + id + "]"@,
        ids.len() > 0 ==> id_list(ids.push(id)) == id_list(ids).drop_last() + ", "@ + id + "]"@,
{
    reveal_strlit("]");
    let more = ids.push(id);
    assert(more.drop_last() =~= ids);
    if ids.len() > 0 {
        assert(id_list(ids).drop_last() =~= "["@ + joined(ids, ", "@));
        assert("["@ + (joined(ids, ", "@) + ", "@ + id) + "]"@ =~= "["@ + joined(ids, ", "@)
            + ", "@ + id + "]"@);
    }
}

/// A log line of a plugin names the plugin and what it does.
pub proof fn law_log_lines_name_their_source(
    table: Seq<PluginView>,
    id: Seq<char>,
    action: Seq<char>,
    other: Seq<char>,
)
    requires
        id.len() > 0,
    ensures
        source_of(table, id, action) == shown_name(table, id) + ":"@ + action,
        source_of(table, id, action) == source_of(table, id, other) ==> action == other,
        source_of(table, Seq::empty(), action) == "Arona"@,
{
    if source_of(table, id, action) == source_of(table, id, other) {
        crate::text::lemma_same_start(shown_name(table, id) + ":"@, action, other);
    }
}

} // verus!
