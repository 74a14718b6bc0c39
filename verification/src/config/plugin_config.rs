//! The configurations of plugins, one file each. The program around reads and writes the
//! files; what they hold, and what goes into them, is worked out here.
use crate::collections::{has_key, lemma_entry_in_map, TextMap};
use crate::config::arona::{foreign_views, ForeignKey, ForeignKeyView, KeyFate, KeyFateView};
use crate::config::section::{
    lemma_lists_is_contains, owner_of, section_text, sections_owned, ConfigSection, SectionRegistry,
    SectionRenderer,
};
use crate::json::option_text;
use crate::plugin::description::{MetaView, PluginMeta};
use crate::text::{contains_text, holds, lemma_holds, lemma_holds_on, owned, same, texts};
use crate::yaml::{entry_views, key_text, mapping_of, Yaml, YamlView};
use vstd::prelude::*;
use vstd::string::StringExecFns;

verus! {

/// What the file of a plugin holds, by section.
#[derive(Debug)]
pub struct PluginFile {
    pub sections: TextMap<Yaml>,
    /// When the file was last changed, as far as it was read.
    pub last_modified: Option<u64>,
}

/// A section that stood elsewhere and waits for the file of its plugin.
#[derive(Debug)]
pub struct PendingSection {
    pub owner: String,
    pub value: Yaml,
}

/// The views of the sections of a file.
pub open spec fn section_views(sections: Map<Seq<char>, Yaml>) -> Map<Seq<char>, YamlView> {
    sections.map_values(|value: Yaml| value@)
}

/// The views of the sections that wait.
pub open spec fn pending_views(pending: Map<Seq<char>, PendingSection>) -> Map<
    Seq<char>,
    (Seq<char>, YamlView),
> {
    pending.map_values(|section: PendingSection| (section.owner@, section.value@))
}

/// When the files were last changed, as far as they were read.
pub open spec fn modified_views(files: Map<Seq<char>, PluginFile>) -> Map<Seq<char>, Option<u64>> {
    files.map_values(|file: PluginFile| file.last_modified)
}

/// The views of the files.
pub open spec fn file_views(files: Map<Seq<char>, PluginFile>) -> Map<
    Seq<char>,
    Map<Seq<char>, YamlView>,
> {
    files.map_values(|file: PluginFile| section_views(file.sections@))
}

/// The configurations of the plugins, and the sections that wait for their files.
#[derive(Debug)]
pub struct ConfigStore {
    pub files: TextMap<PluginFile>,
    pub pending: TextMap<PendingSection>,
}

// ---------------------------------------------------------------------------
// sections that wait

/// Whether a waiting section goes into the file of a plugin: it belongs to the plugin,
/// and the file does not have it.
pub open spec fn mergeable(
    pending: Map<Seq<char>, (Seq<char>, YamlView)>,
    file: Map<Seq<char>, YamlView>,
    plugin: Seq<char>,
    key: Seq<char>,
) -> bool {
    pending.contains_key(key) && pending[key].0 == plugin && !file.contains_key(key)
}

/// The file after the waiting sections went into it.
pub open spec fn merged_file(
    pending: Map<Seq<char>, (Seq<char>, YamlView)>,
    file: Map<Seq<char>, YamlView>,
    plugin: Seq<char>,
) -> Map<Seq<char>, YamlView> {
    Map::new(
        |key: Seq<char>| file.contains_key(key) || mergeable(pending, file, plugin, key),
        |key: Seq<char>|
            if file.contains_key(key) {
                file[key]
            } else {
                pending[key].1
            },
    )
}

/// The sections that still wait.
pub open spec fn still_pending(
    pending: Map<Seq<char>, (Seq<char>, YamlView)>,
    file: Map<Seq<char>, YamlView>,
    plugin: Seq<char>,
) -> Map<Seq<char>, (Seq<char>, YamlView)> {
    Map::new(
        |key: Seq<char>| pending.contains_key(key) && !mergeable(pending, file, plugin, key),
        |key: Seq<char>| pending[key],
    )
}

// ---------------------------------------------------------------------------
// reading a file

/// The sections of a document that belong to a plugin.
pub open spec fn own_sections(entries: Seq<(YamlView, YamlView)>, keys: Seq<Seq<char>>) -> Map<
    Seq<char>,
    YamlView,
>
    decreases entries.len(),
{
    if entries.len() == 0 {
        Map::empty()
    } else {
        let head = own_sections(entries.drop_last(), keys);
        match key_text(entries.last().0) {
            Some(name) => if keys.contains(name) {
                head.insert(name, entries.last().1)
            } else {
                head
            },
            None => head,
        }
    }
}

/// The keys of a document that do not belong to a plugin, with the plugin that they
/// belong to, if any.
pub open spec fn strange_keys(
    entries: Seq<(YamlView, YamlView)>,
    keys: Seq<Seq<char>>,
    registry: SectionRegistry,
) -> Seq<(Seq<char>, Option<Seq<char>>)>
    decreases entries.len(),
{
    if entries.len() == 0 {
        Seq::empty()
    } else {
        let head = strange_keys(entries.drop_last(), keys, registry);
        match key_text(entries.last().0) {
            Some(name) => if keys.contains(name) {
                head
            } else {
                head.push((name, owner_of(registry.items@, name)))
            },
            None => head,
        }
    }
}

/// The keys of the sections of a plugin.
pub open spec fn own_keys(registry: SectionRegistry, plugin: Seq<char>) -> Seq<Seq<char>> {
    sections_owned(registry.items@, plugin).map_values(|section: ConfigSection| section.key@)
}

/// What a file was found to hold.
#[derive(Debug)]
pub struct FileContents {
    pub sections: TextMap<Yaml>,
    /// The keys that do not belong there, with their owners.
    pub strange: Vec<(String, Option<String>)>,
}

/// The views of keys with their owners.
pub open spec fn strange_views(list: Seq<(String, Option<String>)>) -> Seq<
    (Seq<char>, Option<Seq<char>>),
> {
    Seq::new(list.len(), |i: int| (list[i].0@, option_text(list[i].1)))
}

fn keys_of_plugin(registry: &SectionRegistry, plugin: &str) -> (r: Vec<String>)
    ensures
        texts(r@) == own_keys(*registry, plugin@),
{
    let sections = registry.sections_of(plugin);
    let ghost all = sections_owned(registry.items@, plugin@);
    let mut out: Vec<String> = Vec::new();
    let mut i: usize = 0;
    while i < sections.len()
        invariant
            i <= sections@.len(),
            all == sections@.map_values(|s: &ConfigSection| *s),
            out@.len() == i,
            forall|k: int| 0 <= k < i ==> (#[trigger] out@[k])@ == all[k].key@,
        decreases sections@.len() - i,
    {
        assert(all[i as int] == *sections@[i as int]);
        out.push(sections[i].key.clone());
        i = i + 1;
    }
    assert(texts(out@) =~= own_keys(*registry, plugin@));
    out
}

/// Sorts out what a document holds for a plugin: only its own sections count.
pub fn read_sections(registry: &SectionRegistry, plugin: &str, value: &Yaml) -> (r: FileContents)
    ensures
        match mapping_of(value@) {
            Some(entries) => section_views(r.sections@) == own_sections(
                entries,
                own_keys(*registry, plugin@),
            ) && strange_views(r.strange@) == strange_keys(
                entries,
                own_keys(*registry, plugin@),
                *registry,
            ),
            None => r.sections@ == Map::<Seq<char>, Yaml>::empty() && r.strange@.len() == 0,
        },
{
    let keys = keys_of_plugin(registry, plugin);
    let ghost own = own_keys(*registry, plugin@);
    let mut sections: TextMap<Yaml> = TextMap::new();
    let mut strange: Vec<(String, Option<String>)> = Vec::new();
    if let Some(entries) = value.as_mapping() {
        let ghost all = entry_views(entries@);
        let mut i: usize = 0;
        proof {
            assert(section_views(sections@) =~= own_sections(all.take(0), own));
            assert(strange_views(strange@) =~= strange_keys(all.take(0), own, *registry));
        }
        while i < entries.len()
            invariant
                i <= entries@.len(),
                all == entry_views(entries@),
                own == texts(keys@),
                section_views(sections@) == own_sections(all.take(i as int), own),
                strange_views(strange@) == strange_keys(all.take(i as int), own, *registry),
            decreases entries@.len() - i,
        {
            assert(all.take(i + 1).drop_last() =~= all.take(i as int));
            let ghost before = sections@;
            let ghost noted = strange@;
            if let Some(name) = entries[i].0.as_str() {
                proof {
                    lemma_lists_is_contains(keys@, name@);
                }
                if contains_text(&keys, name) {
                    let value = entries[i].1.clone();
                    sections.insert(owned(name), value);
                    assert(section_views(sections@) =~= section_views(before).insert(
                        name@,
                        value@,
                    ));
                } else {
                    let item = (owned(name), registry.owner(name));
                    strange.push(item);
                    assert(strange_views(strange@) =~= strange_views(noted).push(
                        (item.0@, option_text(item.1)),
                    ));
                }
            }
            i = i + 1;
        }
        assert(all.take(all.len() as int) =~= all);
    }
    FileContents { sections, strange }
}

// ---------------------------------------------------------------------------
// sections that a file lacks

/// The file with the default of every section that it lacks.
pub open spec fn with_defaults(
    file: Map<Seq<char>, YamlView>,
    sections: Seq<ConfigSection>,
) -> Map<Seq<char>, YamlView>
    decreases sections.len(),
{
    if sections.len() == 0 {
        file
    } else {
        let before = with_defaults(file, sections.drop_last());
        let section = sections.last();
        if before.contains_key(section.key@) {
            before
        } else {
            before.insert(section.key@, section.default_value@)
        }
    }
}

/// The keys of the sections that a file lacks.
pub open spec fn lacking(file: Map<Seq<char>, YamlView>, sections: Seq<ConfigSection>) -> Seq<
    Seq<char>,
>
    decreases sections.len(),
{
    if sections.len() == 0 {
        Seq::empty()
    } else {
        let head = lacking(file, sections.drop_last());
        if with_defaults(file, sections.drop_last()).contains_key(sections.last().key@) {
            head
        } else {
            head.push(sections.last().key@)
        }
    }
}

fn add_defaults(registry: &SectionRegistry, plugin: &str, sections: &mut TextMap<Yaml>) -> (r: Vec<
    String,
>)
    ensures
        section_views(final(sections)@) == with_defaults(
            section_views(old(sections)@),
            sections_owned(registry.items@, plugin@),
        ),
        texts(r@) == lacking(
            section_views(old(sections)@),
            sections_owned(registry.items@, plugin@),
        ),
{
    let owned_sections = registry.sections_of(plugin);
    let ghost all = sections_owned(registry.items@, plugin@);
    let ghost file = section_views(sections@);
    let mut added: Vec<String> = Vec::new();
    let mut i: usize = 0;
    assert(texts(added@) =~= lacking(file, all.take(0)));
    while i < owned_sections.len()
        invariant
            i <= owned_sections@.len(),
            all == owned_sections@.map_values(|s: &ConfigSection| *s),
            section_views(sections@) == with_defaults(file, all.take(i as int)),
            texts(added@) == lacking(file, all.take(i as int)),
        decreases owned_sections@.len() - i,
    {
        assert(all.take(i + 1).drop_last() =~= all.take(i as int));
        assert(all.take(i + 1).last() == *owned_sections@[i as int]);
        let section = owned_sections[i];
        let ghost before = sections@;
        let ghost noted = added@;
        if !sections.contains(section.key.as_str()) {
            let value = section.default_copy();
            sections.insert(section.key.clone(), value);
            let key = section.key.clone();
            added.push(key);
            proof {
                assert(section_views(sections@) =~= section_views(before).insert(
                    section.key@,
                    value@,
                ));
                assert(texts(added@) =~= texts(noted).push(key@));
            }
        }
        i = i + 1;
    }
    assert(all.take(all.len() as int) =~= all);
    added
}

// ---------------------------------------------------------------------------
// the text of a file

/// The heading of a plugin's file.
pub open spec fn heading(meta: Option<MetaView>, plugin: Seq<char>) -> Seq<char> {
    let name = match meta {
        Some(meta) => meta.name,
        None => plugin,
    };
    "# ==================== 插件配置: "@ + name + " ====================\n"@ + (match meta {
        Some(meta) => if meta.description.len() > 0 {
            "# "@ + meta.description + "\n"@
        } else {
            Seq::empty()
        },
        None => Seq::empty(),
    }) + "# 插件 id: "@ + plugin
        + "\n# 修改本文件保存后自动热重载，不必重启。\n# 框架自身的配置（群授权/黑名单/插件开关）在同目录上一级的 arona.yml。\n\n"@
}

/// The value of a section: what the file says, or else the default.
pub open spec fn value_or_default(
    section: ConfigSection,
    values: Map<Seq<char>, YamlView>,
) -> YamlView {
    if values.contains_key(section.key@) {
        values[section.key@]
    } else {
        section.default_value@
    }
}

/// The sections of a plugin's file, each with its value or its default; `rendered` is
/// what sections with renderers of their own were made, by key.
pub open spec fn sections_text(
    sections: Seq<ConfigSection>,
    values: Map<Seq<char>, YamlView>,
    rendered: Map<Seq<char>, Seq<char>>,
) -> Seq<char>
    decreases sections.len(),
{
    if sections.len() == 0 {
        Seq::empty()
    } else {
        let section = sections.last();
        sections_text(sections.drop_last(), values, rendered) + (if sections.len() > 1 {
            "\n"@
        } else {
            Seq::empty()
        }) + section_text(
            section,
            value_or_default(section, values),
            if rendered.contains_key(section.key@) {
                Some(rendered[section.key@])
            } else {
                None
            },
        )
    }
}

/// The text of a plugin's file.
pub open spec fn file_text(
    registry: SectionRegistry,
    meta: Option<MetaView>,
    plugin: Seq<char>,
    values: Map<Seq<char>, YamlView>,
    rendered: Map<Seq<char>, Seq<char>>,
) -> Seq<char> {
    let sections = sections_owned(registry.items@, plugin);
    heading(meta, plugin) + if sections.len() == 0 {
        "# 本插件没有需要用户配置的项目。\n"@
    } else {
        sections_text(sections, values, rendered)
    }
}

/// A section that its plugin's own renderer is to write.
#[derive(Debug)]
pub struct Rendering {
    /// The number of the renderer.
    pub renderer: u64,
    pub key: String,
    /// What is to be written.
    pub value: Yaml,
}

/// The views of sections to be rendered.
pub open spec fn rendering_views(v: Seq<Rendering>) -> Seq<(u64, Seq<char>, YamlView)> {
    Seq::new(v.len(), |i: int| (v[i].renderer, v[i].key@, v[i].value@))
}

/// The sections that renderers of their own write, with what is to be written.
pub open spec fn to_render(
    sections: Seq<ConfigSection>,
    values: Map<Seq<char>, YamlView>,
) -> Seq<(u64, Seq<char>, YamlView)>
    decreases sections.len(),
{
    if sections.len() == 0 {
        Seq::empty()
    } else {
        let head = to_render(sections.drop_last(), values);
        let section = sections.last();
        match section.renderer {
            SectionRenderer::Own(renderer) => head.push(
                (renderer, section.key@, value_or_default(section, values)),
            ),
            SectionRenderer::Typed(_) => head,
        }
    }
}

/// The sections of a plugin that renderers of their own write, with what is to be
/// written, in the order of their registration.
pub fn own_renderings(registry: &SectionRegistry, plugin: &str, values: &TextMap<Yaml>) -> (r: Vec<
    Rendering,
>)
    ensures
        rendering_views(r@) == to_render(
            sections_owned(registry.items@, plugin@),
            section_views(values@),
        ),
{
    let sections = registry.sections_of(plugin);
    let ghost all = sections_owned(registry.items@, plugin@);
    let ghost views = section_views(values@);
    let mut out: Vec<Rendering> = Vec::new();
    let mut i: usize = 0;
    assert(rendering_views(out@) =~= to_render(all.take(0), views));
    while i < sections.len()
        invariant
            i <= sections@.len(),
            all == sections@.map_values(|s: &ConfigSection| *s),
            views == section_views(values@),
            rendering_views(out@) == to_render(all.take(i as int), views),
        decreases sections@.len() - i,
    {
        assert(all.take(i + 1).drop_last() =~= all.take(i as int));
        assert(all.take(i + 1).last() == *sections@[i as int]);
        let section = sections[i];
        let ghost before = out@;
        match &section.renderer {
            SectionRenderer::Own(renderer) => {
                let value = match values.get(section.key.as_str()) {
                    Some(value) => value.clone(),
                    None => section.default_copy(),
                };
                let item = Rendering { renderer: *renderer, key: section.key.clone(), value };
                out.push(item);
                assert(rendering_views(out@) =~= rendering_views(before).push(
                    (item.renderer, item.key@, item.value@),
                ));
            },
            SectionRenderer::Typed(_) => {},
        }
        i = i + 1;
    }
    assert(all.take(all.len() as int) =~= all);
    out
}

/// The view of what a plugin may say of itself.
pub open spec fn meta_view(meta: Option<&PluginMeta>) -> Option<MetaView> {
    match meta {
        Some(meta) => Some(meta@),
        None => None,
    }
}

fn heading_text(meta: Option<&PluginMeta>, plugin: &str) -> (r: String)
    ensures
        r@ == heading(meta_view(meta), plugin@),
{
    let mut out = owned("# ==================== 插件配置: ");
    match meta {
        Some(meta) => {
            out.append(meta.name.as_str());
        },
        None => {
            out.append(plugin);
        },
    }
    out.append(" ====================\n");
    let ghost first = out@;
    match meta {
        Some(meta) => {
            if !meta.description.as_str().is_empty() {
                let mut line = owned("# ");
                line.append(meta.description.as_str());
                line.append("\n");
                out.append(line.as_str());
            } else {
                assert(out@ + Seq::<char>::empty() =~= out@);
            }
        },
        None => {
            assert(out@ + Seq::<char>::empty() =~= out@);
        },
    }
    out.append("# 插件 id: ");
    out.append(plugin);
    out.append(
        "\n# 修改本文件保存后自动热重载，不必重启。\n# 框架自身的配置（群授权/黑名单/插件开关）在同目录上一级的 arona.yml。\n\n",
    );
    out
}

/// Texts by key.
pub open spec fn text_views(texts: Map<Seq<char>, String>) -> Map<Seq<char>, Seq<char>> {
    texts.map_values(|text: String| text@)
}

/// The text of a plugin's file; `values` holds the sections as their types write them,
/// and `rendered` what renderers of their own made of some.
pub fn template(
    registry: &SectionRegistry,
    meta: Option<&PluginMeta>,
    plugin: &str,
    values: &TextMap<Yaml>,
    rendered: &TextMap<String>,
) -> (r: String)
    ensures
        r@ == file_text(
            *registry,
            meta_view(meta),
            plugin@,
            section_views(values@),
            text_views(rendered@),
        ),
{
    let mut out = heading_text(meta, plugin);
    let sections = registry.sections_of(plugin);
    let ghost all = sections_owned(registry.items@, plugin@);
    let ghost views = section_views(values@);
    let ghost made = text_views(rendered@);
    if sections.len() == 0 {
        out.append("# 本插件没有需要用户配置的项目。\n");
        return out;
    }
    let mut body = String::new();
    let mut i: usize = 0;
    assert(body@ =~= sections_text(all.take(0), views, made));
    while i < sections.len()
        invariant
            i <= sections@.len(),
            all == sections@.map_values(|s: &ConfigSection| *s),
            views == section_views(values@),
            made == text_views(rendered@),
            body@ == sections_text(all.take(i as int), views, made),
        decreases sections@.len() - i,
    {
        assert(all.take(i + 1).drop_last() =~= all.take(i as int));
        assert(all.take(i + 1).last() == *sections@[i as int]);
        let section = sections[i];
        if i > 0 {
            body.append("\n");
        } else {
            assert(body@ + Seq::<char>::empty() =~= body@);
        }
        let own = rendered.get(section.key.as_str());
        let piece = match values.get(section.key.as_str()) {
            Some(value) => section.render(value, own),
            None => section.render(&section.default_value, own),
        };
        body.append(piece.as_str());
        i = i + 1;
    }
    assert(all.take(all.len() as int) =~= all);
    out.append(body.as_str());
    out
}

/// Where the file of a plugin is.
pub fn config_file(plugin: &str) -> (r: String)
    ensures
        r@ == "config/"@ + plugin@ + "/arona.yml"@,
{
    let mut out = owned("config/");
    out.append(plugin);
    out.append("/arona.yml");
    out
}

// ---------------------------------------------------------------------------
// the store

/// Why a section without an owner cannot be written.
pub open spec fn unowned_text(key: Seq<char>) -> Seq<char> {
    "配置区「"@ + key + "」未登记，插件 id 也没对上"@
}

/// Why a section of a plugin without a file cannot be written.
pub open spec fn unloaded_text(plugin: Seq<char>) -> Seq<char> {
    "插件 "@ + plugin + " 的配置文件尚未加载"@
}

/// What is to be done after the file of a plugin was opened.
#[derive(Debug)]
pub struct Opened {
    /// The file is to be written.
    pub write: bool,
    /// The sections that it lacked.
    pub added: Vec<String>,
}

/// What the file of a plugin holds after it was opened.
pub open spec fn opened_file(
    pending: Map<Seq<char>, (Seq<char>, YamlView)>,
    file: Map<Seq<char>, YamlView>,
    plugin: Seq<char>,
    sections: Seq<ConfigSection>,
) -> Map<Seq<char>, YamlView> {
    with_defaults(merged_file(pending, file, plugin), sections)
}

impl ConfigStore {
    /// Nothing is loaded and nothing waits.
    pub fn new() -> (r: ConfigStore)
        ensures
            file_views(r.files@) == Map::<Seq<char>, Map<Seq<char>, YamlView>>::empty(),
            modified_views(r.files@) == Map::<Seq<char>, Option<u64>>::empty(),
            pending_views(r.pending@) == Map::<Seq<char>, (Seq<char>, YamlView)>::empty(),
    {
        let r = ConfigStore { files: TextMap::new(), pending: TextMap::new() };
        assert(file_views(r.files@) =~= Map::<Seq<char>, Map<Seq<char>, YamlView>>::empty());
        assert(modified_views(r.files@) =~= Map::<Seq<char>, Option<u64>>::empty());
        assert(pending_views(r.pending@) =~= Map::<Seq<char>, (Seq<char>, YamlView)>::empty());
        r
    }

    /// The plugins whose files are loaded, in order.
    pub fn loaded_plugins(&self) -> (r: Vec<String>)
        ensures
            r@.len() == self.files.listed().len(),
            forall|i: int| 0 <= i < r@.len() ==> (#[trigger] r@[i])@ == self.files.listed()[i].0@,
            forall|plugin: Seq<char>|
                texts(r@).contains(plugin) == #[trigger] self.files@.contains_key(plugin),
    {
        let entries = self.files.entries();
        let ghost all = entries@;
        let mut out: Vec<String> = Vec::new();
        let mut i: usize = 0;
        while i < entries.len()
            invariant
                i <= entries@.len(),
                all == entries@,
                out@.len() == i,
                forall|k: int| 0 <= k < i ==> (#[trigger] out@[k])@ == all[k].0@,
            decreases entries@.len() - i,
        {
            out.push(entries[i].0.clone());
            i = i + 1;
        }
        proof {
            assert forall|plugin: Seq<char>|
                texts(out@).contains(plugin) == #[trigger] self.files@.contains_key(plugin) by {
                if self.files@.contains_key(plugin) {
                    assert(has_key(all, plugin));
                    let k = choose|k: int| 0 <= k < all.len() && (#[trigger] all[k]).0@ == plugin;
                    assert(texts(out@)[k] == plugin);
                }
                if texts(out@).contains(plugin) {
                    let k = choose|k: int| 0 <= k < texts(out@).len() && texts(out@)[k] == plugin;
                    assert(all[k].0@ == plugin);
                    assert(has_key(all, plugin));
                }
            }
        }
        out
    }

    /// Has the waiting sections of a plugin go into its file, unless the file has them.
    /// Tells whether any did.
    pub fn merge_pending_into(&mut self, sections: &mut TextMap<Yaml>, plugin: &str) -> (r: bool)
        ensures
            section_views(final(sections)@) == merged_file(
                pending_views(old(self).pending@),
                section_views(old(sections)@),
                plugin@,
            ),
            pending_views(final(self).pending@) == still_pending(
                pending_views(old(self).pending@),
                section_views(old(sections)@),
                plugin@,
            ),
            r == any_mergeable(
                pending_views(old(self).pending@),
                section_views(old(sections)@),
                plugin@,
            ),
            final(self).files == old(self).files,
    {
        let ghost start = pending_views(self.pending@);
        let ghost file = section_views(sections@);
        let listed = self.pending.entries();
        let ghost all = listed@;
        let total: usize = self.pending.len();
        let mut seen: usize = 0;
        let mut i: usize = 0;
        let mut changed = false;
        proof {
            assert forall|k: int| 0 <= k < all.len() implies start.contains_key(
                (#[trigger] all[k]).0@,
            ) && start[all[k].0@] == (all[k].1.owner@, all[k].1.value@) by {
                lemma_entry_in_map(all, k);
            }
            assert(section_views(sections@) =~= file);
        }
        while seen < total
            invariant
                seen <= total,
                total == all.len(),
                i <= seen,
                changed == (i < seen),
                crate::collections::keys_ascend(all),
                self.files == old(self).files,
                self.pending.listed().len() == all.len() - (seen - i),
                forall|k: int|
                    seen <= k < all.len() ==> self.pending.listed()[k - (seen - i)]
                        == #[trigger] all[k],
                forall|k: int|
                    0 <= k < all.len() ==> start.contains_key((#[trigger] all[k]).0@)
                        && start[all[k].0@] == (all[k].1.owner@, all[k].1.value@),
                forall|key: Seq<char>| #[trigger]
                    pending_views(self.pending@).contains_key(key) ==> start.contains_key(key)
                        && pending_views(self.pending@)[key] == start[key],
                forall|key: Seq<char>| #[trigger]
                    start.contains_key(key) && !pending_views(self.pending@).contains_key(key)
                        ==> mergeable(start, file, plugin@, key) && section_views(
                        sections@,
                    ).contains_key(key) && section_views(sections@)[key] == start[key].1,
                forall|key: Seq<char>| #[trigger]
                    section_views(sections@).contains_key(key) ==> file.contains_key(key) || (
                    start.contains_key(key) && !pending_views(self.pending@).contains_key(key)),
                forall|key: Seq<char>| #[trigger]
                    file.contains_key(key) ==> section_views(sections@).contains_key(key)
                        && section_views(sections@)[key] == file[key],
                forall|k: int|
                    0 <= k < i ==> !mergeable(
                        start,
                        file,
                        plugin@,
                        (#[trigger] self.pending.listed()[k]).0@,
                    ),
                changed ==> exists|key: Seq<char>| mergeable(start, file, plugin@, key),
                !changed ==> pending_views(self.pending@) == start,
            decreases total - seen,
        {
            assert(self.pending.listed()[i as int] == all[seen as int]);
            let ghost before = self.pending.listed();
            let ghost waiting = self.pending@;
            let ghost held = sections@;
            let ghost key = all[seen as int].0@;
            let entries = self.pending.entries();
            assert(pending_views(self.pending@).contains_key(key)) by {
                lemma_entry_in_map(entries@, i as int);
            }
            let mine = same(entries[i].1.owner.as_str(), plugin) && !sections.contains(
                entries[i].0.as_str(),
            );
            if mine {
                assert(!section_views(sections@).contains_key(key));
                assert(mergeable(start, file, plugin@, key));
                let taken = self.pending.remove_at(i);
                let ghost value = taken.1.value@;
                sections.insert(taken.0, taken.1.value);
                changed = true;
                seen = seen + 1;
                proof {
                    assert forall|k: int| seen <= k < all.len() implies self.pending.listed()[k - (
                    seen - i)] == #[trigger] all[k] by {
                        assert(before[k - (seen - 1 - i)] == all[k]);
                    }
                    assert(section_views(sections@) =~= section_views(held).insert(key, value));
                    assert(pending_views(self.pending@) =~= pending_views(waiting).remove(key));
                }
            } else {
                assert(!mergeable(start, file, plugin@, key)) by {
                    if mergeable(start, file, plugin@, key) {
                        assert(section_views(sections@).contains_key(key));
                        assert(start.contains_key(key) && !pending_views(
                            self.pending@,
                        ).contains_key(key));
                    }
                }
                i = i + 1;
                seen = seen + 1;
            }
        }
        let entries = self.pending.entries();
        proof {
            let left = pending_views(self.pending@);
            assert forall|key: Seq<char>| #[trigger] left.contains_key(key) implies !mergeable(
                start,
                file,
                plugin@,
                key,
            ) by {
                assert(has_key(entries@, key));
                let k = choose|k: int|
                    0 <= k < entries@.len() && (#[trigger] entries@[k]).0@ == key;
                assert(!mergeable(start, file, plugin@, self.pending.listed()[k].0@));
            }
            assert(left =~= still_pending(start, file, plugin@));
            assert(section_views(sections@) =~= merged_file(start, file, plugin@)) by {
                assert forall|key: Seq<char>| mergeable(start, file, plugin@, key) implies
                    section_views(sections@).contains_key(key) by {
                    if left.contains_key(key) {
                        assert(!mergeable(start, file, plugin@, key));
                    }
                    assert(start.contains_key(key));
                }
            }
            if exists|key: Seq<char>| mergeable(start, file, plugin@, key) {
                let key = choose|key: Seq<char>| mergeable(start, file, plugin@, key);
                if !changed {
                    assert(left == start);
                    assert(left.contains_key(key));
                    assert(!mergeable(start, file, plugin@, key));
                }
            }
        }
        changed
    }

    fn put_file(&mut self, plugin: &str, file: PluginFile)
        ensures
            file_views(final(self).files@) == file_views(old(self).files@).insert(
                plugin@,
                section_views(file.sections@),
            ),
            modified_views(final(self).files@) == modified_views(old(self).files@).insert(
                plugin@,
                file.last_modified,
            ),
            final(self).pending == old(self).pending,
    {
        self.files.insert(owned(plugin), file);
        assert(modified_views(self.files@) =~= modified_views(old(self).files@).insert(
            plugin@,
            file.last_modified,
        ));
        assert(file_views(self.files@) =~= file_views(old(self).files@).insert(
            plugin@,
            section_views(file.sections@),
        ));
    }

    /// Opens the file of a plugin: `contents` is what it holds, if it is there and can be
    /// read. Waiting sections go into it, and sections that it lacks get their defaults;
    /// what it has stays as it is. It is to be written where that changes it, and where
    /// it was not there.
    pub fn init(
        &mut self,
        registry: &SectionRegistry,
        plugin: &str,
        contents: Option<TextMap<Yaml>>,
        existed: bool,
        modified: Option<u64>,
    ) -> (r: Opened)
        ensures
            file_views(final(self).files@) == file_views(old(self).files@).insert(
                plugin@,
                opened_file(
                    pending_views(old(self).pending@),
                    contents_view(contents),
                    plugin@,
                    sections_owned(registry.items@, plugin@),
                ),
            ),
            modified_views(final(self).files@) == modified_views(old(self).files@).insert(
                plugin@,
                modified,
            ),
            pending_views(final(self).pending@) == still_pending(
                pending_views(old(self).pending@),
                contents_view(contents),
                plugin@,
            ),
            texts(r.added@) == lacking(
                merged_file(
                    pending_views(old(self).pending@),
                    contents_view(contents),
                    plugin@,
                ),
                sections_owned(registry.items@, plugin@),
            ),
            r.write == (!existed || r.added@.len() > 0 || any_mergeable(
                pending_views(old(self).pending@),
                contents_view(contents),
                plugin@,
            )),
    {
        let mut sections = match contents {
            Some(sections) => sections,
            None => TextMap::new(),
        };
        proof {
            assert(section_views(sections@) =~= contents_view(contents));
        }
        let changed = self.merge_pending_into(&mut sections, plugin);
        let added = add_defaults(registry, plugin, &mut sections);
        let lacked = added.len() > 0;
        self.put_file(plugin, PluginFile { sections, last_modified: modified });
        Opened { write: !existed || lacked || changed, added }
    }

    /// Takes over a section that stood elsewhere: it waits for the file of its plugin,
    /// and goes into it at once where the file is loaded and lacks it. Tells whether the
    /// file is to be written.
    pub fn absorb_legacy(&mut self, key: &str, value: Yaml, plugin: &str) -> (r: bool)
        ensures
            ({
                let pending = pending_views(old(self).pending@).insert(
                    key@,
                    (plugin@, value@),
                );
                let files = file_views(old(self).files@);
                if files.contains_key(plugin@) {
                    &&& file_views(final(self).files@) == files.insert(
                        plugin@,
                        merged_file(pending, files[plugin@], plugin@),
                    )
                    &&& pending_views(final(self).pending@) == still_pending(
                        pending,
                        files[plugin@],
                        plugin@,
                    )
                    &&& r == any_mergeable(pending, files[plugin@], plugin@)
                } else {
                    &&& file_views(final(self).files@) == files
                    &&& pending_views(final(self).pending@) == pending
                    &&& !r
                }
            }),
            modified_views(final(self).files@) == modified_views(old(self).files@),
    {
        self.stage_pending(key, plugin, value);
        match self.files.remove(plugin) {
            None => {
                assert(file_views(self.files@) =~= file_views(old(self).files@));
                assert(modified_views(self.files@) =~= modified_views(old(self).files@));
                false
            },
            Some(file) => {
                let mut sections = file.sections;
                let ghost left = self.files@;
                let changed = self.merge_pending_into(&mut sections, plugin);
                self.put_file(plugin, PluginFile { sections, last_modified: file.last_modified });
                assert(file_views(self.files@) =~= file_views(old(self).files@).insert(
                    plugin@,
                    section_views(sections@),
                ));
                assert(modified_views(self.files@) =~= modified_views(old(self).files@));
                changed
            },
        }
    }

    /// Has a section wait for the file of its plugin.
    pub fn stage_pending(&mut self, key: &str, plugin: &str, value: Yaml)
        ensures
            pending_views(final(self).pending@) == pending_views(old(self).pending@).insert(
                key@,
                (plugin@, value@),
            ),
            final(self).files == old(self).files,
    {
        let section = PendingSection { owner: owned(plugin), value };
        self.pending.insert(owned(key), section);
        assert(pending_views(self.pending@) =~= pending_views(old(self).pending@).insert(
            key@,
            (plugin@, value@),
        ));
    }

    /// The plugin whose file a section waits for.
    pub fn pending_owner(&self, key: &str) -> (r: Option<String>)
        ensures
            option_text(r) == if pending_views(self.pending@).contains_key(key@) {
                Some(pending_views(self.pending@)[key@].0)
            } else {
                None
            },
    {
        match self.pending.get(key) {
            Some(section) => Some(section.owner.clone()),
            None => None,
        }
    }

    /// Whether a section waits.
    pub fn has_pending(&self, key: &str) -> (r: bool)
        ensures
            r == pending_views(self.pending@).contains_key(key@),
    {
        self.pending.contains(key)
    }

    /// What the file of a plugin says of a section.
    pub fn value_of(&self, plugin: &str, key: &str) -> (r: Option<&Yaml>)
        ensures
            match r {
                Some(value) => stored(file_views(self.files@), plugin@, key@) == Some(value@),
                None => stored(file_views(self.files@), plugin@, key@) is None,
            },
    {
        match self.files.get(plugin) {
            Some(file) => file.sections.get(key),
            None => None,
        }
    }

    /// What the file of its owner says of a section.
    pub fn section_value(&self, registry: &SectionRegistry, key: &str) -> (r: Option<&Yaml>)
        ensures
            ({
                let expected = match owner_of(registry.items@, key@) {
                    Some(owner) => stored(file_views(self.files@), owner, key@),
                    None => None,
                };
                match r {
                    Some(value) => expected == Some(value@),
                    None => expected is None,
                }
            }),
    {
        match registry.owner(key) {
            Some(owner) => self.value_of(owner.as_str(), key),
            None => None,
        }
    }

    /// Sets a section in the file of a plugin; the file is then to be written, and the
    /// plugin to be told.
    pub fn set_plugin_section(&mut self, plugin: &str, key: &str, value: Yaml) -> (r: Result<
        (),
        String,
    >)
        ensures
            match r {
                Ok(_) => file_views(old(self).files@).contains_key(plugin@) && file_views(
                    final(self).files@,
                ) == file_views(old(self).files@).insert(
                    plugin@,
                    file_views(old(self).files@)[plugin@].insert(key@, value@),
                ),
                Err(reason) => !file_views(old(self).files@).contains_key(plugin@) && reason@
                    == unloaded_text(plugin@) && file_views(final(self).files@) == file_views(
                    old(self).files@,
                ),
            },
            modified_views(final(self).files@) == modified_views(old(self).files@),
            final(self).pending == old(self).pending,
    {
        match self.files.remove(plugin) {
            None => {
                assert(file_views(self.files@) =~= file_views(old(self).files@));
                assert(modified_views(self.files@) =~= modified_views(old(self).files@));
                let mut out = owned("插件 ");
                out.append(plugin);
                out.append(" 的配置文件尚未加载");
                Err(out)
            },
            Some(file) => {
                let mut sections = file.sections;
                let ghost before = sections@;
                sections.insert(owned(key), value);
                assert(section_views(sections@) =~= section_views(before).insert(key@, value@));
                self.put_file(plugin, PluginFile { sections, last_modified: file.last_modified });
                assert(file_views(self.files@) =~= file_views(old(self).files@).insert(
                    plugin@,
                    section_views(sections@),
                ));
                assert(modified_views(self.files@) =~= modified_views(old(self).files@));
                Ok(())
            },
        }
    }

    /// Sets a section in the file of its owner, and tells who that is.
    pub fn set_section(&mut self, registry: &SectionRegistry, key: &str, value: Yaml) -> (r: Result<
        String,
        String,
    >)
        ensures
            match owner_of(registry.items@, key@) {
                None => r is Err && r->Err_0@ == unowned_text(key@) && file_views(
                    final(self).files@,
                ) == file_views(old(self).files@),
                Some(owner) => if file_views(old(self).files@).contains_key(owner) {
                    r is Ok && r->Ok_0@ == owner && file_views(final(self).files@) == file_views(
                        old(self).files@,
                    ).insert(owner, file_views(old(self).files@)[owner].insert(key@, value@))
                } else {
                    r is Err && r->Err_0@ == unloaded_text(owner) && file_views(
                        final(self).files@,
                    ) == file_views(old(self).files@)
                },
            },
            modified_views(final(self).files@) == modified_views(old(self).files@),
            final(self).pending == old(self).pending,
    {
        match registry.owner(key) {
            None => {
                let mut out = owned("配置区「");
                out.append(key);
                out.append("」未登记，插件 id 也没对上");
                Err(out)
            },
            Some(owner) => match self.set_plugin_section(owner.as_str(), key, value) {
                Ok(_) => Ok(owner),
                Err(reason) => Err(reason),
            },
        }
    }

    /// Takes in what the file of a plugin holds after it was read again, and when it was
    /// changed. What could not be read changes nothing but the time.
    pub fn reload(
        &mut self,
        plugin: &str,
        read: Result<TextMap<Yaml>, String>,
        modified: Option<u64>,
    ) -> (r: Result<(), String>)
        ensures
            match read {
                Ok(sections) => r is Ok && file_views(final(self).files@) == file_views(
                    old(self).files@,
                ).insert(plugin@, section_views(sections@)),
                Err(reason) => r is Err && r->Err_0@ == reason@ && file_views(
                    final(self).files@,
                ) == file_views(old(self).files@),
            },
            modified_views(final(self).files@) == if read is Ok || old(self).files@.contains_key(
                plugin@,
            ) {
                modified_views(old(self).files@).insert(plugin@, modified)
            } else {
                modified_views(old(self).files@)
            },
            final(self).pending == old(self).pending,
    {
        match read {
            Ok(sections) => {
                self.put_file(plugin, PluginFile { sections, last_modified: modified });
                Ok(())
            },
            Err(reason) => {
                match self.files.remove(plugin) {
                    None => {
                        assert(file_views(self.files@) =~= file_views(old(self).files@));
                        assert(modified_views(self.files@) =~= modified_views(old(self).files@));
                    },
                    Some(file) => {
                        self.put_file(
                            plugin,
                            PluginFile { sections: file.sections, last_modified: modified },
                        );
                        assert(file_views(self.files@) =~= file_views(old(self).files@));
                        assert(modified_views(self.files@) =~= modified_views(
                            old(self).files@,
                        ).insert(plugin@, modified));
                    },
                }
                Err(reason)
            },
        }
    }

    /// Tells whether the file of a plugin has to be read again, and notes when it was
    /// changed.
    pub fn poll_changed(&mut self, plugin: &str, modified: Option<u64>) -> (r: bool)
        ensures
            r == (old(self).files@.contains_key(plugin@) && modified is Some && modified != old(
                self).files@[plugin@].last_modified),
            file_views(final(self).files@) == file_views(old(self).files@),
            modified_views(final(self).files@) == if r {
                modified_views(old(self).files@).insert(plugin@, modified)
            } else {
                modified_views(old(self).files@)
            },
            final(self).pending == old(self).pending,
    {
        let changed = match self.files.get(plugin) {
            None => false,
            Some(file) => match modified {
                None => false,
                Some(now) => match file.last_modified {
                    Some(last) => now != last,
                    None => true,
                },
            },
        };
        if changed {
            if let Some(file) = self.files.remove(plugin) {
                self.put_file(
                    plugin,
                    PluginFile { sections: file.sections, last_modified: modified },
                );
            }
            assert(file_views(self.files@) =~= file_views(old(self).files@));
            assert(modified_views(self.files@) =~= modified_views(old(self).files@).insert(
                plugin@,
                modified,
            ));
        }
        changed
    }

    /// What the file of a plugin holds.
    pub fn sections_of(&self, plugin: &str) -> (r: Option<&TextMap<Yaml>>)
        ensures
            match r {
                Some(sections) => file_views(self.files@).contains_key(plugin@) && section_views(
                    sections@,
                ) == file_views(self.files@)[plugin@],
                None => !file_views(self.files@).contains_key(plugin@),
            },
    {
        match self.files.get(plugin) {
            Some(file) => Some(&file.sections),
            None => None,
        }
    }

    /// Sets what the file of a plugin holds.
    pub fn set_sections(&mut self, plugin: &str, sections: TextMap<Yaml>)
        ensures
            file_views(final(self).files@) == file_views(old(self).files@).insert(
                plugin@,
                section_views(sections@),
            ),
            modified_views(final(self).files@) == modified_views(old(self).files@).insert(
                plugin@,
                None,
            ),
            final(self).pending == old(self).pending,
    {
        self.put_file(plugin, PluginFile { sections, last_modified: None });
    }

    /// Takes over the sections of plugins among the keys that a document of the
    /// framework holds. Tells which ones they were.
    pub fn absorb_all(&mut self, keys: Vec<ForeignKey>) -> (r: Vec<String>)
        ensures
            texts(r@) == owned_names(foreign_views(keys@)),
            state_of(*final(self)) == absorbed(state_of(*old(self)), foreign_views(keys@)),
    {
        let ghost given = keys@;
        let ghost all = foreign_views(given);
        let ghost start = state_of(*self);
        let mut moved: Vec<String> = Vec::new();
        assert(texts(moved@) =~= owned_names(all.take(0)));
        assert(all.take(0) =~= Seq::<ForeignKeyView>::empty());
        for key in it: keys
            invariant
                it.seq() == given,
                all == foreign_views(given),
                texts(moved@) == owned_names(all.take(it.index())),
                state_of(*self) == absorbed(start, all.take(it.index())),
        {
            assert(all.take(it.index() + 1).drop_last() =~= all.take(it.index()));
            assert(all.take(it.index() + 1).last() == key@);
            let ghost before = moved@;
            match key.fate {
                KeyFate::Owned(owner) => {
                    let _ = self.absorb_legacy(key.name.as_str(), key.value, owner.as_str());
                    let name = key.name.clone();
                    moved.push(name);
                    assert(texts(moved@) =~= texts(before).push(name@));
                },
                _ => {},
            }
        }
        assert(all.take(all.len() as int) =~= all);
        moved
    }
}

/// What a file holds; one that is not there or cannot be read holds nothing.
pub open spec fn contents_view(contents: Option<TextMap<Yaml>>) -> Map<Seq<char>, YamlView> {
    match contents {
        Some(sections) => section_views(sections@),
        None => Map::empty(),
    }
}

/// Whether a waiting section can go into the file of a plugin.
pub open spec fn any_mergeable(
    pending: Map<Seq<char>, (Seq<char>, YamlView)>,
    file: Map<Seq<char>, YamlView>,
    plugin: Seq<char>,
) -> bool {
    exists|key: Seq<char>| mergeable(pending, file, plugin, key)
}

/// What the files say of a section of a plugin.
pub open spec fn stored(
    files: Map<Seq<char>, Map<Seq<char>, YamlView>>,
    plugin: Seq<char>,
    key: Seq<char>,
) -> Option<YamlView> {
    if files.contains_key(plugin) && files[plugin].contains_key(key) {
        Some(files[plugin][key])
    } else {
        None
    }
}

/// What the files hold, when they were last changed, and which sections wait.
#[verifier::ext_equal]
pub struct StoreView {
    pub files: Map<Seq<char>, Map<Seq<char>, YamlView>>,
    pub modified: Map<Seq<char>, Option<u64>>,
    pub pending: Map<Seq<char>, (Seq<char>, YamlView)>,
}

/// What the files of a store hold, when they were last changed, and which sections wait.
pub open spec fn state_of(store: ConfigStore) -> StoreView {
    StoreView {
        files: file_views(store.files@),
        modified: modified_views(store.files@),
        pending: pending_views(store.pending@),
    }
}

/// The store after a section that stood elsewhere was taken over.
pub open spec fn absorbed_one(
    store: StoreView,
    key: Seq<char>,
    value: YamlView,
    plugin: Seq<char>,
) -> StoreView {
    let pending = store.pending.insert(key, (plugin, value));
    if store.files.contains_key(plugin) {
        StoreView {
            files: store.files.insert(
                plugin,
                merged_file(pending, store.files[plugin], plugin),
            ),
            pending: still_pending(pending, store.files[plugin], plugin),
            ..store
        }
    } else {
        StoreView { pending, ..store }
    }
}

/// The store after the sections of plugins among some keys were taken over.
pub open spec fn absorbed(store: StoreView, keys: Seq<ForeignKeyView>) -> StoreView
    decreases keys.len(),
{
    if keys.len() == 0 {
        store
    } else {
        let before = absorbed(store, keys.drop_last());
        match keys.last().fate {
            KeyFateView::Owned(owner) => absorbed_one(
                before,
                keys.last().name,
                keys.last().value,
                owner,
            ),
            _ => before,
        }
    }
}

/// The names of the keys that are sections of plugins.
pub open spec fn owned_names(keys: Seq<ForeignKeyView>) -> Seq<Seq<char>>
    decreases keys.len(),
{
    if keys.len() == 0 {
        Seq::empty()
    } else {
        let head = owned_names(keys.drop_last());
        match keys.last().fate {
            KeyFateView::Owned(_) => head.push(keys.last().name),
            _ => head,
        }
    }
}

// ---------------------------------------------------------------------------
// one section of one plugin

/// A section of a plugin's configuration, for the plugin to read and write.
#[derive(Debug)]
pub struct ConfigEntry {
    plugin: String,
    key: String,
}

impl ConfigEntry {
    /// The key of the section.
    pub closed spec fn key_view(&self) -> Seq<char> {
        self.key@
    }

    /// The id of the plugin.
    pub closed spec fn plugin_view(&self) -> Seq<char> {
        self.plugin@
    }

    /// A section of a plugin.
    pub fn new(plugin: &str, key: &str) -> (r: ConfigEntry)
        ensures
            r.plugin_view() == plugin@,
            r.key_view() == key@,
    {
        ConfigEntry { plugin: owned(plugin), key: owned(key) }
    }

    /// The key of the section.
    pub fn key(&self) -> (r: &str)
        ensures
            r@ == self.key_view(),
    {
        self.key.as_str()
    }

    /// The id of the plugin.
    pub fn plugin(&self) -> (r: &str)
        ensures
            r@ == self.plugin_view(),
    {
        self.plugin.as_str()
    }

    /// Where the file of the plugin is.
    pub fn file(&self) -> (r: String)
        ensures
            r@ == "config/"@ + self.plugin_view() + "/arona.yml"@,
    {
        config_file(self.plugin.as_str())
    }

    /// What the file says of the section. Where it says nothing the plugin goes by its
    /// own default.
    pub fn get<'a>(&self, store: &'a ConfigStore) -> (r: Option<&'a Yaml>)
        ensures
            match r {
                Some(value) => stored(
                    file_views(store.files@),
                    self.plugin_view(),
                    self.key_view(),
                ) == Some(value@),
                None => stored(
                    file_views(store.files@),
                    self.plugin_view(),
                    self.key_view(),
                ) is None,
            },
    {
        store.value_of(self.plugin.as_str(), self.key.as_str())
    }

    /// What came of reading the section as what the plugin takes it for: a plugin whose
    /// file does not have it goes by its default, and what does not fit is an error.
    pub fn try_get<T>(&self, decoded: Option<Result<T, String>>, default: T) -> (r: Result<
        T,
        String,
    >)
        ensures
            match decoded {
                None => r == Ok::<T, String>(default),
                Some(Ok(value)) => r == Ok::<T, String>(value),
                Some(Err(reason)) => r is Err && r->Err_0@ == "配置区「"@ + self.key_view()
                    + "」格式不正确: "@ + reason@,
            },
    {
        match decoded {
            None => Ok(default),
            Some(Ok(value)) => Ok(value),
            Some(Err(reason)) => {
                let mut out = owned("配置区「");
                out.append(self.key.as_str());
                out.append("」格式不正确: ");
                out.append(reason.as_str());
                Err(out)
            },
        }
    }

    /// The plugin's own value of the section: what was read, or its default where the
    /// file says nothing or something that does not fit.
    pub fn current<T>(&self, decoded: Option<Result<T, String>>, default: T) -> (r: T)
        ensures
            r == match decoded {
                Some(Ok(value)) => value,
                _ => default,
            },
    {
        match decoded {
            Some(Ok(value)) => value,
            _ => default,
        }
    }

    /// Sets the section, given as the YAML value that the plugin's own was turned into.
    pub fn set(&self, store: &mut ConfigStore, encoded: Result<Yaml, String>) -> (r: Result<
        (),
        String,
    >)
        ensures
            section_set(
                *old(store),
                *final(store),
                self.plugin_view(),
                self.key_view(),
                encoded,
                r,
            ),
    {
        match encoded {
            Err(reason) => {
                let mut out = owned("序列化「");
                out.append(self.key.as_str());
                out.append("」失败: ");
                out.append(reason.as_str());
                Err(out)
            },
            Ok(value) => store.set_plugin_section(
                self.plugin.as_str(),
                self.key.as_str(),
                value,
            ),
        }
    }

    /// Reads the section, has it edited, and sets what came of that.
    pub fn update<F: FnOnce(Option<Yaml>) -> Result<Yaml, String>>(
        &self,
        store: &mut ConfigStore,
        edit: F,
    ) -> (r: Result<(), String>)
        requires
            forall|value: Option<Yaml>| #[trigger] call_requires(edit, (value,)),
        ensures
            exists|value: Option<Yaml>, encoded: Result<Yaml, String>|
                {
                    &&& #[trigger] call_ensures(edit, (value,), encoded)
                    &&& stored(
                        file_views(old(store).files@),
                        self.plugin_view(),
                        self.key_view(),
                    ) == match value {
                        Some(value) => Some(value@),
                        None => None,
                    }
                    &&& section_set(
                        *old(store),
                        *final(store),
                        self.plugin_view(),
                        self.key_view(),
                        encoded,
                        r,
                    )
                },
    {
        let value = match self.get(store) {
            Some(value) => Some(value.clone()),
            None => None,
        };
        let encoded = edit(value);
        self.set(store, encoded)
    }
}

/// Whether a section was set as it should, given the value that it was turned into: a
/// file that is not loaded, and a value that is none, change nothing.
pub open spec fn section_set(
    before: ConfigStore,
    after: ConfigStore,
    plugin: Seq<char>,
    key: Seq<char>,
    encoded: Result<Yaml, String>,
    r: Result<(), String>,
) -> bool {
    let files = file_views(before.files@);
    match encoded {
        Err(reason) => r is Err && r->Err_0@ == "序列化「"@ + key + "」失败: "@ + reason@ && after
            == before,
        Ok(value) => {
            &&& after.pending == before.pending
            &&& modified_views(after.files@) == modified_views(before.files@)
            &&& if files.contains_key(plugin) {
                r is Ok && file_views(after.files@) == files.insert(
                    plugin,
                    files[plugin].insert(key, value@),
                )
            } else {
                r is Err && r->Err_0@ == unloaded_text(plugin) && file_views(after.files@) == files
            }
        },
    }
}

// ---------------------------------------------------------------------------
// laws

/// A section that stood elsewhere reaches its plugin: a loaded file has it at once,
/// another has it when it is opened. Where the file had the section before, that stays.
pub proof fn law_sections_reach_their_plugin(
    store: StoreView,
    key: Seq<char>,
    value: YamlView,
    plugin: Seq<char>,
    file: Map<Seq<char>, YamlView>,
    sections: Seq<ConfigSection>,
)
    ensures
        ({
            let after = absorbed_one(store, key, value, plugin);
            if store.files.contains_key(plugin) {
                stored(after.files, plugin, key) == Some(
                    if store.files[plugin].contains_key(key) {
                        store.files[plugin][key]
                    } else {
                        value
                    },
                )
            } else {
                let opened = opened_file(after.pending, file, plugin, sections);
                &&& opened.contains_key(key)
                &&& opened[key] == if file.contains_key(key) {
                    file[key]
                } else {
                    value
                }
            }
        }),
{
    let after = absorbed_one(store, key, value, plugin);
    if !store.files.contains_key(plugin) {
        lemma_defaults_keep(merged_file(after.pending, file, plugin), sections, key);
    }
}

/// A section that a file has is never replaced, neither by one that waits nor by a
/// default.
pub proof fn law_what_a_file_has_stays(
    pending: Map<Seq<char>, (Seq<char>, YamlView)>,
    file: Map<Seq<char>, YamlView>,
    plugin: Seq<char>,
    sections: Seq<ConfigSection>,
    key: Seq<char>,
)
    requires
        file.contains_key(key),
    ensures
        opened_file(pending, file, plugin, sections).contains_key(key),
        opened_file(pending, file, plugin, sections)[key] == file[key],
{
    lemma_defaults_keep(merged_file(pending, file, plugin), sections, key);
}

proof fn lemma_defaults_keep(
    file: Map<Seq<char>, YamlView>,
    sections: Seq<ConfigSection>,
    key: Seq<char>,
)
    requires
        file.contains_key(key),
    ensures
        with_defaults(file, sections).contains_key(key),
        with_defaults(file, sections)[key] == file[key],
    decreases sections.len(),
{
    if sections.len() > 0 {
        lemma_defaults_keep(file, sections.drop_last(), key);
    }
}

/// A waiting section of a plugin goes into its file where the file lacks it, and then
/// waits no more; where the file has it, it waits on, for a file that lacks it.
pub proof fn law_waiting_sections_are_taken_over_once(
    pending: Map<Seq<char>, (Seq<char>, YamlView)>,
    file: Map<Seq<char>, YamlView>,
    plugin: Seq<char>,
    key: Seq<char>,
)
    requires
        pending.contains_key(key),
        pending[key].0 == plugin,
    ensures
        !file.contains_key(key) ==> merged_file(pending, file, plugin)[key] == pending[key].1
            && !still_pending(pending, file, plugin).contains_key(key),
        file.contains_key(key) ==> still_pending(pending, file, plugin).contains_key(key)
            && still_pending(pending, file, plugin)[key] == pending[key],
{
}

/// Taking over a second time changes nothing.
pub proof fn law_taking_over_twice_changes_nothing(
    pending: Map<Seq<char>, (Seq<char>, YamlView)>,
    file: Map<Seq<char>, YamlView>,
    plugin: Seq<char>,
)
    ensures
        ({
            let left = still_pending(pending, file, plugin);
            let merged = merged_file(pending, file, plugin);
            &&& forall|key: Seq<char>| !mergeable(left, merged, plugin, key)
            &&& merged_file(left, merged, plugin) == merged
            &&& still_pending(left, merged, plugin) == left
        }),
{
    let left = still_pending(pending, file, plugin);
    let merged = merged_file(pending, file, plugin);
    assert(merged_file(left, merged, plugin) =~= merged);
    assert(still_pending(left, merged, plugin) =~= left);
}

/// A waiting section of another plugin is not touched.
pub proof fn law_sections_of_others_wait_on(
    pending: Map<Seq<char>, (Seq<char>, YamlView)>,
    file: Map<Seq<char>, YamlView>,
    plugin: Seq<char>,
    key: Seq<char>,
)
    requires
        pending.contains_key(key),
        pending[key].0 != plugin,
    ensures
        still_pending(pending, file, plugin).contains_key(key),
        still_pending(pending, file, plugin)[key] == pending[key],
        !file.contains_key(key) ==> !merged_file(pending, file, plugin).contains_key(key),
{
}

/// A file that was opened lacks no section: opened again, it is not changed.
pub proof fn law_opening_again_changes_nothing(
    file: Map<Seq<char>, YamlView>,
    sections: Seq<ConfigSection>,
)
    ensures
        with_defaults(with_defaults(file, sections), sections) == with_defaults(file, sections),
        lacking(with_defaults(file, sections), sections).len() == 0,
{
    assert forall|i: int| 0 <= i < sections.len() implies with_defaults(
        file,
        sections,
    ).contains_key((#[trigger] sections[i]).key@) by {
        lemma_defaults_hold(file, sections, i);
    }
    lemma_defaults_full(with_defaults(file, sections), sections);
}

proof fn lemma_defaults_hold(file: Map<Seq<char>, YamlView>, sections: Seq<ConfigSection>, i: int)
    requires
        0 <= i < sections.len(),
    ensures
        with_defaults(file, sections).contains_key(sections[i].key@),
    decreases sections.len(),
{
    if i < sections.len() - 1 {
        lemma_defaults_hold(file, sections.drop_last(), i);
        assert(sections.drop_last()[i] == sections[i]);
    }
}

proof fn lemma_defaults_full(file: Map<Seq<char>, YamlView>, sections: Seq<ConfigSection>)
    requires
        forall|i: int|
            0 <= i < sections.len() ==> file.contains_key((#[trigger] sections[i]).key@),
    ensures
        with_defaults(file, sections) == file,
        lacking(file, sections).len() == 0,
    decreases sections.len(),
{
    if sections.len() > 0 {
        let head = sections.drop_last();
        assert forall|i: int| 0 <= i < head.len() implies file.contains_key(
            (#[trigger] head[i]).key@,
        ) by {
            assert(file.contains_key(sections[i].key@));
        }
        lemma_defaults_full(file, head);
        assert(file.contains_key(sections[sections.len() - 1].key@));
    }
}

/// What is written of a section is read back, and nothing else is touched.
pub proof fn law_sections_read_back(
    files: Map<Seq<char>, Map<Seq<char>, YamlView>>,
    plugin: Seq<char>,
    key: Seq<char>,
    value: YamlView,
    other: Seq<char>,
)
    requires
        files.contains_key(plugin),
        other != key,
    ensures
        ({
            let after = files.insert(plugin, files[plugin].insert(key, value));
            &&& stored(after, plugin, key) == Some(value)
            &&& stored(after, plugin, other) == stored(files, plugin, other)
            &&& forall|p: Seq<char>|
                p != plugin ==> #[trigger] stored(after, p, key) == stored(files, p, key)
        }),
{
}

/// A section that a file lacks gets the default of the first section with its key, and a
/// key that is no section's is not added.
pub proof fn law_lacking_sections_get_their_defaults(
    file: Map<Seq<char>, YamlView>,
    sections: Seq<ConfigSection>,
    i: int,
    key: Seq<char>,
)
    ensures
        0 <= i < sections.len() && !file.contains_key(sections[i].key@) && (forall|k: int|
            0 <= k < i ==> (#[trigger] sections[k]).key@ != sections[i].key@) ==> with_defaults(
            file,
            sections,
        ).contains_key(sections[i].key@) && with_defaults(file, sections)[sections[i].key@]
            == sections[i].default_value@,
        !file.contains_key(key) && (forall|k: int|
            0 <= k < sections.len() ==> (#[trigger] sections[k]).key@ != key) ==> !with_defaults(
            file,
            sections,
        ).contains_key(key),
    decreases sections.len(),
{
    if sections.len() > 0 {
        let head = sections.drop_last();
        let last = sections.last();
        law_lacking_sections_get_their_defaults(file, head, i, key);
        assert(forall|k: int| 0 <= k < head.len() ==> head[k] == sections[k]);
        assert(last == sections[sections.len() - 1]);
        if 0 <= i < head.len() {
            assert(head[i] == sections[i]);
        }
        if i == sections.len() - 1 {
            law_lacking_sections_get_their_defaults(file, head, i, last.key@);
        }
    }
}

/// What a file says of a section is the last value under its key; keys that are not the
/// plugin's are no sections of it.
pub proof fn law_own_sections_are_read(
    entries: Seq<(YamlView, YamlView)>,
    keys: Seq<Seq<char>>,
    i: int,
    name: Seq<char>,
)
    ensures
        own_sections(entries, keys).contains_key(name) ==> keys.contains(name),
        0 <= i < entries.len() && key_text(entries[i].0) == Some(name) && keys.contains(name) && (
        forall|k: int|
            i < k < entries.len() ==> key_text((#[trigger] entries[k]).0) != Some(name))
            ==> own_sections(entries, keys).contains_key(name) && own_sections(entries, keys)[name]
            == entries[i].1,
    decreases entries.len(),
{
    if entries.len() > 0 {
        let head = entries.drop_last();
        law_own_sections_are_read(head, keys, i, name);
        assert(forall|k: int| 0 <= k < head.len() ==> head[k] == entries[k]);
        assert(entries.last() == entries[entries.len() - 1]);
    }
}

/// A key that is not the plugin's is reported with the plugin that it belongs to.
pub proof fn law_strange_keys_are_reported(
    entries: Seq<(YamlView, YamlView)>,
    keys: Seq<Seq<char>>,
    registry: SectionRegistry,
    i: int,
    name: Seq<char>,
)
    requires
        0 <= i < entries.len(),
        key_text(entries[i].0) == Some(name),
        !keys.contains(name),
    ensures
        strange_keys(entries, keys, registry).contains((name, owner_of(registry.items@, name))),
    decreases entries.len(),
{
    let head = strange_keys(entries.drop_last(), keys, registry);
    let all = strange_keys(entries, keys, registry);
    let told = (name, owner_of(registry.items@, name));
    if i < entries.len() - 1 {
        assert(entries.drop_last()[i] == entries[i]);
        law_strange_keys_are_reported(entries.drop_last(), keys, registry, i, name);
        let n = choose|n: int| 0 <= n < head.len() && head[n] == told;
        assert(all[n] == told);
    } else {
        assert(all[all.len() - 1] == told);
    }
}

/// Every section of a plugin stands in its file: with what the file said of it before, or
/// else with its default.
pub proof fn law_every_section_is_written(
    sections: Seq<ConfigSection>,
    values: Map<Seq<char>, YamlView>,
    rendered: Map<Seq<char>, Seq<char>>,
    i: int,
)
    requires
        0 <= i < sections.len(),
    ensures
        ({
            let section = sections[i];
            let value = if values.contains_key(section.key@) {
                values[section.key@]
            } else {
                section.default_value@
            };
            holds(
                sections_text(sections, values, rendered),
                section_text(
                    section,
                    value,
                    if rendered.contains_key(section.key@) {
                        Some(rendered[section.key@])
                    } else {
                        None
                    },
                ),
            )
        }),
    decreases sections.len(),
{
    let section = sections[i];
    let head = sections_text(sections.drop_last(), values, rendered);
    let gap = if sections.len() > 1 {
        "\n"@
    } else {
        Seq::<char>::empty()
    };
    let last = sections.last();
    let tail = section_text(
        last,
        value_or_default(last, values),
        if rendered.contains_key(last.key@) {
            Some(rendered[last.key@])
        } else {
            None
        },
    );
    let own = section_text(
        section,
        value_or_default(section, values),
        if rendered.contains_key(section.key@) {
            Some(rendered[section.key@])
        } else {
            None
        },
    );
    let none = Seq::<Seq<char>>::empty();
    if i < sections.len() - 1 {
        assert(sections.drop_last()[i] == section);
        law_every_section_is_written(sections.drop_last(), values, rendered, i);
        lemma_holds_on(head, gap, seq![own]);
        lemma_holds_on(head + gap, tail, seq![own].push(gap));
        assert(seq![own].push(gap).push(tail)[0] == own);
        assert(seq![own].push(gap)[0] == own);
    } else {
        lemma_holds_on(head + gap, tail, none);
        assert(none.push(tail)[0] == tail);
    }
}

/// A section with a renderer of its own is written by that renderer and with the value
/// that stands in the file or the default; no other section is.
pub proof fn law_own_renderers_are_asked(
    sections: Seq<ConfigSection>,
    values: Map<Seq<char>, YamlView>,
)
    ensures
        to_render(sections, values) == sections.filter(
            |section: ConfigSection| section.renderer is Own,
        ).map_values(
            |section: ConfigSection|
                (section.renderer->Own_0, section.key@, value_or_default(section, values)),
        ),
    decreases sections.len(),
{
    reveal(Seq::filter);
    let own = |section: ConfigSection| section.renderer is Own;
    let asked = |section: ConfigSection|
        (section.renderer->Own_0, section.key@, value_or_default(section, values));
    if sections.len() > 0 {
        law_own_renderers_are_asked(sections.drop_last(), values);
        let head = sections.drop_last().filter(own);
        assert(head.push(sections.last()).map_values(asked) =~= head.map_values(asked).push(
            asked(sections.last()),
        ));
    } else {
        assert(sections.filter(own).map_values(asked) =~= Seq::empty());
    }
}

/// Taking over a section touches no other plugin's file, no other waiting section, and no
/// time.
pub proof fn law_taking_over_touches_one_section(
    store: StoreView,
    key: Seq<char>,
    value: YamlView,
    plugin: Seq<char>,
    other: Seq<char>,
    other_key: Seq<char>,
)
    requires
        other != plugin,
        other_key != key,
    ensures
        ({
            let after = absorbed_one(store, key, value, plugin);
            &&& after.modified == store.modified
            &&& after.files.contains_key(other) == store.files.contains_key(other)
            &&& store.files.contains_key(other) ==> after.files[other] == store.files[other]
            &&& !store.files.contains_key(plugin) ==> after.files == store.files
                && after.pending == store.pending.insert(key, (plugin, value))
            &&& store.pending.contains_key(other_key) && store.pending[other_key].0 == other
                ==> after.pending.contains_key(other_key) && after.pending[other_key]
                == store.pending[other_key]
        }),
{
}

/// The file of a plugin is headed by the plugin's name, or its id where nothing is known
/// of it, and names the id.
pub proof fn law_files_are_headed_by_their_plugin(meta: Option<MetaView>, plugin: Seq<char>)
    ensures
        meta matches Some(meta) ==> holds(
            heading(Some(meta), plugin),
            "# ==================== 插件配置: "@ + meta.name + " ====================\n"@,
        ),
        meta is None ==> holds(
            heading(meta, plugin),
            "# ==================== 插件配置: "@ + plugin + " ====================\n"@,
        ),
        holds(heading(meta, plugin), "# 插件 id: "@ + plugin),
{
    let name = match meta {
        Some(meta) => meta.name,
        None => plugin,
    };
    let title = "# ==================== 插件配置: "@ + name + " ====================\n"@;
    let about = match meta {
        Some(meta) => if meta.description.len() > 0 {
            "# "@ + meta.description + "\n"@
        } else {
            Seq::<char>::empty()
        },
        None => Seq::<char>::empty(),
    };
    let end = "\n# 修改本文件保存后自动热重载，不必重启。\n# 框架自身的配置（群授权/黑名单/插件开关）在同目录上一级的 arona.yml。\n\n"@;
    lemma_heading_sections(title, about, "# 插件 id: "@, plugin, end);
}

proof fn lemma_heading_sections(
    title: Seq<char>,
    about: Seq<char>,
    mark: Seq<char>,
    plugin: Seq<char>,
    end: Seq<char>,
)
    ensures
        holds(title + about + mark + plugin + end, title),
        holds(title + about + mark + plugin + end, mark + plugin),
{
    let none = Seq::<char>::empty();
    let text = title + about + mark + plugin + end;
    assert(text =~= none + title + (about + mark + plugin + end));
    assert(text =~= (title + about) + (mark + plugin) + end);
    lemma_holds(none, title, about + mark + plugin + end);
    lemma_holds(title + about, mark + plugin, end);
}

/// Only sections of plugins are taken over: they are told by name in their order, and keys
/// that are none change nothing.
pub proof fn law_only_sections_are_taken_over(store: StoreView, keys: Seq<ForeignKeyView>)
    ensures
        owned_names(keys) == keys.filter(|key: ForeignKeyView| key.fate is Owned).map_values(
            |key: ForeignKeyView| key.name,
        ),
        (forall|i: int| 0 <= i < keys.len() ==> !((#[trigger] keys[i]).fate is Owned)) ==> absorbed(
            store,
            keys,
        ) == store,
    decreases keys.len(),
{
    reveal(Seq::filter);
    let own = |key: ForeignKeyView| key.fate is Owned;
    let name = |key: ForeignKeyView| key.name;
    if keys.len() > 0 {
        let less = keys.drop_last();
        law_only_sections_are_taken_over(store, less);
        let head = less.filter(own);
        assert(head.push(keys.last()).map_values(name) =~= head.map_values(name).push(
            name(keys.last()),
        ));
        assert(forall|i: int| 0 <= i < less.len() ==> less[i] == keys[i]);
        assert(keys.last() == keys[keys.len() - 1]);
    } else {
        assert(keys.filter(own).map_values(name) =~= Seq::empty());
    }
}

/// A section that waits, or that stands in a loaded file, after another was taken over is
/// still the one that it was: taking over one more section of a plugin that is not loaded
/// lets it wait under its own name with its own value.
pub proof fn law_the_last_section_is_taken_over(
    store: StoreView,
    keys: Seq<ForeignKeyView>,
    name: Seq<char>,
    value: YamlView,
    owner: Seq<char>,
)
    requires
        !absorbed(store, keys).files.contains_key(owner),
    ensures
        ({
            let more = keys.push(
                ForeignKeyView { name, fate: KeyFateView::Owned(owner), value },
            );
            absorbed(store, more).pending.contains_key(name) && absorbed(store, more).pending[name]
                == (owner, value)
        }),
{
    let more = keys.push(ForeignKeyView { name, fate: KeyFateView::Owned(owner), value });
    assert(more.drop_last() =~= keys);
}

/// A section that was set in a loaded file has the value that was given, and nothing else
/// changes; in a file that is not loaded nothing is set.
pub proof fn law_sections_are_set(
    before: ConfigStore,
    after: ConfigStore,
    plugin: Seq<char>,
    key: Seq<char>,
    value: Yaml,
    r: Result<(), String>,
    other: Seq<char>,
    other_key: Seq<char>,
)
    requires
        section_set(before, after, plugin, key, Ok(value), r),
        other_key != key,
    ensures
        r is Ok <==> file_views(before.files@).contains_key(plugin),
        r is Ok ==> stored(file_views(after.files@), plugin, key) == Some(value@) && stored(
            file_views(after.files@),
            plugin,
            other_key,
        ) == stored(file_views(before.files@), plugin, other_key),
        other != plugin ==> stored(file_views(after.files@), other, key) == stored(
            file_views(before.files@),
            other,
            key,
        ),
        r is Err ==> file_views(after.files@) == file_views(before.files@),
        after.pending == before.pending,
{
}

} // verus!
