//! The framework's own configuration: groups, managers, blacklists and switches.
use crate::collections::{entries_map, keys_ascend, TextMap};
use crate::config::section::{
    lemma_lists_is_contains, owner_of, prefixed, push_prefixed, SectionRegistry,
};
use crate::framework::FrameworkOptions;
use crate::plugin::health::DEFAULT_PANIC_THRESHOLD;
use crate::text::{
    contains_text, copy_texts, decimal, format_ints, holds, i64_text, int_list_text, join, joined,
    law_decimals_tell_numbers_apart, law_lists_of_numbers_read_back, lemma_holds, lemma_holds_within, lemma_number_at_the_end,
    lemma_same_end, lemma_same_start, lemma_word_at_the_end, lines, lines_spec, owned, same, texts, u64_text,
};
use crate::yaml::{
    entry_views, key_text, lemma_list_view, lemma_mapping_view, mapping_of, render_yaml, yaml_text,
    yaml_views, Yaml, YamlView,
};
use vstd::prelude::*;
use vstd::string::StringExecFns;

verus! {

// ---------------------------------------------------------------------------
// settings of one group

/// What is set for one group.
#[derive(Debug)]
pub struct GroupSetting {
    /// Features that are off in the group.
    pub disabled_features: Vec<String>,
    /// Users that the bot does not answer in the group.
    pub blacklist: Vec<i64>,
    /// Plugins that are off in the group.
    pub disabled_plugins: Vec<String>,
}

/// What a group setting is.
pub struct GroupSettingView {
    pub disabled_features: Seq<Seq<char>>,
    pub blacklist: Seq<i64>,
    pub disabled_plugins: Seq<Seq<char>>,
}

impl View for GroupSetting {
    type V = GroupSettingView;

    open spec fn view(&self) -> GroupSettingView {
        GroupSettingView {
            disabled_features: texts(self.disabled_features@),
            blacklist: self.blacklist@,
            disabled_plugins: texts(self.disabled_plugins@),
        }
    }
}

/// The setting that says nothing.
pub open spec fn empty_setting() -> GroupSettingView {
    GroupSettingView {
        disabled_features: Seq::empty(),
        blacklist: Seq::empty(),
        disabled_plugins: Seq::empty(),
    }
}

/// A copy of a list of numbers.
pub fn copy_ints(v: &Vec<i64>) -> (r: Vec<i64>)
    ensures
        r@ == v@,
{
    let mut out: Vec<i64> = Vec::new();
    let mut i: usize = 0;
    while i < v.len()
        invariant
            i <= v@.len(),
            out@ == v@.take(i as int),
        decreases v@.len() - i,
    {
        out.push(v[i]);
        i = i + 1;
    }
    out
}

/// Tests whether a list holds a number.
pub fn contains_int(v: &Vec<i64>, n: i64) -> (r: bool)
    ensures
        r == v@.contains(n),
{
    let mut i: usize = 0;
    while i < v.len()
        invariant
            i <= v@.len(),
            forall|k: int| 0 <= k < i ==> #[trigger] v@[k] != n,
        decreases v@.len() - i,
    {
        if v[i] == n {
            return true;
        }
        i = i + 1;
    }
    false
}

impl GroupSetting {
    /// The setting that says nothing.
    pub fn empty() -> (r: GroupSetting)
        ensures
            r@ == empty_setting(),
    {
        let r = GroupSetting {
            disabled_features: Vec::new(),
            blacklist: Vec::new(),
            disabled_plugins: Vec::new(),
        };
        assert(texts(r.disabled_features@) =~= Seq::<Seq<char>>::empty());
        assert(texts(r.disabled_plugins@) =~= Seq::<Seq<char>>::empty());
        r
    }

    /// Whether a feature is on in the group.
    pub fn feature_enabled(&self, key: &str) -> (r: bool)
        ensures
            r == !self@.disabled_features.contains(key@),
    {
        proof {
            lemma_lists_is_contains(self.disabled_features@, key@);
        }
        !contains_text(&self.disabled_features, key)
    }

    /// Whether the setting says nothing.
    pub fn is_empty(&self) -> (r: bool)
        ensures
            r == (self@ == empty_setting()),
    {
        proof {
            assert(self.disabled_features@.len() == 0 ==> texts(self.disabled_features@)
                =~= Seq::<Seq<char>>::empty());
            assert(self.blacklist@.len() == 0 ==> self.blacklist@ =~= Seq::<i64>::empty());
            assert(self.disabled_plugins@.len() == 0 ==> texts(self.disabled_plugins@)
                =~= Seq::<Seq<char>>::empty());
            assert(texts(self.disabled_features@).len() == self.disabled_features@.len());
            assert(texts(self.disabled_plugins@).len() == self.disabled_plugins@.len());
        }
        self.disabled_features.len() == 0 && self.blacklist.len() == 0
            && self.disabled_plugins.len() == 0
    }

    /// A copy of the setting.
    pub fn copy(&self) -> (r: GroupSetting)
        ensures
            r@ == self@,
    {
        GroupSetting {
            disabled_features: copy_texts(&self.disabled_features),
            blacklist: copy_ints(&self.blacklist),
            disabled_plugins: copy_texts(&self.disabled_plugins),
        }
    }
}

// ---------------------------------------------------------------------------
// the configuration

/// How long messages are kept for quotations.
#[derive(Clone, Copy, Debug, PartialEq, Eq, Structural)]
pub struct ChatlogConfig {
    /// Messages are kept at all.
    pub enable: bool,
    /// For how many days.
    pub keep_days: u32,
    /// After how many days the old ones are cleared away again.
    pub purge_interval_days: u32,
    /// For how many minutes an implementation can still quote a message itself.
    pub quote_ttl_minutes: u32,
}

impl Default for ChatlogConfig {
    fn default() -> (r: ChatlogConfig)
        ensures
            r == (ChatlogConfig {
                enable: true,
                keep_days: 2,
                purge_interval_days: 4,
                quote_ttl_minutes: 30,
            }),
    {
        ChatlogConfig { enable: true, keep_days: 2, purge_interval_days: 4, quote_ttl_minutes: 30 }
    }
}

/// The framework's own configuration.
#[derive(Debug)]
pub struct AronaConfig {
    /// The groups that the bot answers; none means all.
    pub groups: Vec<i64>,
    /// The users who manage the bot.
    pub managers: Vec<i64>,
    /// Users that the bot answers nowhere, managers excepted.
    pub global_blacklist: Vec<i64>,
    /// What is set for groups, by the decimal form of the group's number.
    pub group_settings: TextMap<GroupSetting>,
    /// Plugins that are off, by id, whatever the case.
    pub disabled_plugins: Vec<String>,
    /// How the framework behaves.
    pub framework: FrameworkOptions,
    /// How long messages are kept.
    pub chatlog: ChatlogConfig,
}

/// The settings of groups, by the decimal form of the group's number.
pub open spec fn settings_view(
    settings: Map<Seq<char>, GroupSetting>,
) -> Map<Seq<char>, GroupSettingView> {
    settings.map_values(|setting: GroupSetting| setting@)
}

/// What a configuration is.
pub struct AronaConfigView {
    pub groups: Seq<i64>,
    pub managers: Seq<i64>,
    pub global_blacklist: Seq<i64>,
    pub group_settings: Map<Seq<char>, GroupSettingView>,
    pub disabled_plugins: Seq<Seq<char>>,
    pub framework: FrameworkOptions,
    pub chatlog: ChatlogConfig,
}

impl View for AronaConfig {
    type V = AronaConfigView;

    open spec fn view(&self) -> AronaConfigView {
        AronaConfigView {
            groups: self.groups@,
            managers: self.managers@,
            global_blacklist: self.global_blacklist@,
            group_settings: settings_view(self.group_settings@),
            disabled_plugins: texts(self.disabled_plugins@),
            framework: self.framework,
            chatlog: self.chatlog,
        }
    }
}

/// A copy of the settings of groups.
pub fn copy_settings(settings: &TextMap<GroupSetting>) -> (r: TextMap<GroupSetting>)
    ensures
        settings_view(r@) == settings_view(settings@),
{
    let entries = settings.entries();
    let ghost all = entries@;
    let mut out: TextMap<GroupSetting> = TextMap::new();
    let mut i: usize = 0;
    assert(settings_view(out@) =~= settings_view(entries_map(all.take(0)))) by {
        assert(entries_map(all.take(0)) =~= Map::<Seq<char>, GroupSetting>::empty());
    }
    while i < entries.len()
        invariant
            i <= entries@.len(),
            all == entries@,
            keys_ascend(all),
            settings_view(out@) == settings_view(entries_map(all.take(i as int))),
        decreases entries@.len() - i,
    {
        let ghost before = out@;
        let copy = entries[i].1.copy();
        out.insert(entries[i].0.clone(), copy);
        proof {
            crate::collections::lemma_entries_map_push(all, i as int);
            let key = all[i as int].0@;
            let value = all[i as int].1;
            assert(settings_view(before.insert(key, copy)) =~= settings_view(before).insert(
                key,
                copy@,
            ));
            assert(settings_view(entries_map(all.take(i as int)).insert(key, value))
                =~= settings_view(entries_map(all.take(i as int))).insert(key, value@));
        }
        i = i + 1;
    }
    assert(all.take(all.len() as int) =~= all);
    out
}

/// The configuration that says nothing.
pub open spec fn empty_config() -> AronaConfigView {
    AronaConfigView {
        groups: Seq::empty(),
        managers: Seq::empty(),
        global_blacklist: Seq::empty(),
        group_settings: Map::empty(),
        disabled_plugins: Seq::empty(),
        framework: FrameworkOptions {
            panic_disable_threshold: DEFAULT_PANIC_THRESHOLD,
            prefix_match_by_default: false,
        },
        chatlog: ChatlogConfig {
            enable: true,
            keep_days: 2,
            purge_interval_days: 4,
            quote_ttl_minutes: 30,
        },
    }
}

impl AronaConfig {
    /// The configuration that says nothing.
    pub fn empty() -> (r: AronaConfig)
        ensures
            r@ == empty_config(),
    {
        let r = AronaConfig {
            groups: Vec::new(),
            managers: Vec::new(),
            global_blacklist: Vec::new(),
            group_settings: TextMap::new(),
            disabled_plugins: Vec::new(),
            framework: FrameworkOptions::default(),
            chatlog: ChatlogConfig::default(),
        };
        assert(r@.group_settings =~= Map::<Seq<char>, GroupSettingView>::empty());
        assert(r@.disabled_plugins =~= Seq::<Seq<char>>::empty());
        assert(r@ =~= empty_config());
        r
    }

    /// A copy of the configuration.
    pub fn copy(&self) -> (r: AronaConfig)
        ensures
            r@ == self@,
    {
        AronaConfig {
            groups: copy_ints(&self.groups),
            managers: copy_ints(&self.managers),
            global_blacklist: copy_ints(&self.global_blacklist),
            group_settings: copy_settings(&self.group_settings),
            disabled_plugins: copy_texts(&self.disabled_plugins),
            framework: self.framework,
            chatlog: self.chatlog,
        }
    }
}


// ---------------------------------------------------------------------------
// the keys of the file

/// Whether the framework itself knows a key.
pub open spec fn is_generic_key(name: Seq<char>) -> bool {
    name == "groups"@ || name == "managers"@ || name == "global_blacklist"@ || name
        == "group_settings"@ || name == "disabled_plugins"@ || name == "framework"@ || name
        == "chatlog"@
}

/// Whether a key has moved to the file of the connections.
pub open spec fn is_moved_key(name: Seq<char>) -> bool {
    name == "send_image_as_file"@
}

/// What becomes of a key at the top of the file.
#[derive(Debug, PartialEq)]
pub enum KeyFate {
    /// The framework reads it.
    Generic,
    /// It belongs to the file of the connections and is ignored.
    Moved,
    /// It belongs to the plugin and goes to that plugin's file.
    Owned(String),
    /// Nobody knows it, and it is ignored.
    Unknown,
}

/// What becomes of a key.
pub enum KeyFateView {
    Generic,
    Moved,
    Owned(Seq<char>),
    Unknown,
}

impl View for KeyFate {
    type V = KeyFateView;

    open spec fn view(&self) -> KeyFateView {
        match self {
            KeyFate::Generic => KeyFateView::Generic,
            KeyFate::Moved => KeyFateView::Moved,
            KeyFate::Owned(owner) => KeyFateView::Owned(owner@),
            KeyFate::Unknown => KeyFateView::Unknown,
        }
    }
}

/// What becomes of a key at the top of the file: the framework's own come first,
/// then the moved ones, then those of plugins.
pub open spec fn fate_of(name: Seq<char>, registry: SectionRegistry) -> KeyFateView {
    if is_generic_key(name) {
        KeyFateView::Generic
    } else if is_moved_key(name) {
        KeyFateView::Moved
    } else {
        match owner_of(registry.items@, name) {
            Some(owner) => KeyFateView::Owned(owner),
            None => KeyFateView::Unknown,
        }
    }
}

/// Tells what becomes of a key at the top of the file.
pub fn key_fate(name: &str, registry: &SectionRegistry) -> (r: KeyFate)
    ensures
        r@ == fate_of(name@, *registry),
{
    if same(name, "groups") || same(name, "managers") || same(name, "global_blacklist") || same(
        name,
        "group_settings",
    ) || same(name, "disabled_plugins") || same(name, "framework") || same(name, "chatlog") {
        KeyFate::Generic
    } else if same(name, "send_image_as_file") {
        KeyFate::Moved
    } else {
        match registry.owner(name) {
            Some(owner) => KeyFate::Owned(owner),
            None => KeyFate::Unknown,
        }
    }
}

/// A key at the top of the file that the framework does not read itself.
#[derive(Debug)]
pub struct ForeignKey {
    pub name: String,
    pub fate: KeyFate,
    pub value: Yaml,
}

/// What a foreign key is.
pub struct ForeignKeyView {
    pub name: Seq<char>,
    pub fate: KeyFateView,
    pub value: YamlView,
}

impl View for ForeignKey {
    type V = ForeignKeyView;

    open spec fn view(&self) -> ForeignKeyView {
        ForeignKeyView { name: self.name@, fate: self.fate@, value: self.value@ }
    }
}

/// The views of some foreign keys.
pub open spec fn foreign_views(keys: Seq<ForeignKey>) -> Seq<ForeignKeyView> {
    Seq::new(keys.len(), |i: int| keys[i]@)
}

/// The entries with a text for a key that the framework does not read itself, in
/// their order.
pub open spec fn foreign_keys_of(
    entries: Seq<(YamlView, YamlView)>,
    registry: SectionRegistry,
) -> Seq<ForeignKeyView>
    decreases entries.len(),
{
    if entries.len() == 0 {
        Seq::empty()
    } else {
        let head = foreign_keys_of(entries.drop_last(), registry);
        match key_text(entries.last().0) {
            Some(name) => if is_generic_key(name) {
                head
            } else {
                head.push(
                    ForeignKeyView {
                        name,
                        fate: fate_of(name, registry),
                        value: entries.last().1,
                    },
                )
            },
            None => head,
        }
    }
}

/// The keys of a document that the framework does not read itself, with what
/// becomes of each.
pub fn foreign_keys(value: &Yaml, registry: &SectionRegistry) -> (r: Vec<ForeignKey>)
    ensures
        foreign_views(r@) == match mapping_of(value@) {
            Some(entries) => foreign_keys_of(entries, *registry),
            None => Seq::empty(),
        },
{
    let mut out: Vec<ForeignKey> = Vec::new();
    assert(foreign_views(out@) =~= Seq::<ForeignKeyView>::empty());
    if let Some(entries) = value.as_mapping() {
        let ghost all = entry_views(entries@);
        let mut i: usize = 0;
        while i < entries.len()
            invariant
                i <= entries@.len(),
                all == entry_views(entries@),
                foreign_views(out@) == foreign_keys_of(all.take(i as int), *registry),
            decreases entries@.len() - i,
        {
            assert(all.take(i + 1).drop_last() =~= all.take(i as int));
            let ghost before = out@;
            if let Some(name) = entries[i].0.as_str() {
                let fate = key_fate(name, registry);
                match fate {
                    KeyFate::Generic => {},
                    fate => {
                        let key = ForeignKey {
                            name: owned(name),
                            fate,
                            value: entries[i].1.clone(),
                        };
                        out.push(key);
                        assert(foreign_views(out@) =~= foreign_views(before).push(key@));
                    },
                }
            }
            i = i + 1;
        }
        assert(all.take(all.len() as int) =~= all);
    }
    out
}

// ---------------------------------------------------------------------------
// the text of the file

/// How `{:?}` writes a list of strings.
pub uninterp spec fn debug_texts(list: Seq<Seq<char>>) -> Seq<char>;

/// Calls `Debug` of `Vec<String>`, whose result depends on the strings alone.
#[verifier::external_body]
fn format_texts(list: &Vec<String>) -> (r: String)
    ensures
        r@ == debug_texts(texts(list@)),
{
    format!("{:?}", list)
}

/// Texts as YAML.
pub open spec fn texts_yaml(list: Seq<Seq<char>>) -> YamlView {
    YamlView::List(list.map_values(|t: Seq<char>| YamlView::Text(t)))
}

/// Numbers as YAML.
pub open spec fn ints_yaml(list: Seq<i64>) -> YamlView {
    YamlView::List(list.map_values(|n: i64| YamlView::Number(decimal(n as int))))
}

/// A mapping without entries; `push` adds one.
pub open spec fn no_entries() -> Seq<(YamlView, YamlView)> {
    Seq::empty()
}

/// A group setting as YAML.
pub open spec fn setting_yaml(setting: GroupSettingView) -> YamlView {
    YamlView::Mapping(
        no_entries().push(
            (YamlView::Text("disabled_features"@), texts_yaml(setting.disabled_features)),
        ).push((YamlView::Text("blacklist"@), ints_yaml(setting.blacklist))).push(
            (YamlView::Text("disabled_plugins"@), texts_yaml(setting.disabled_plugins)),
        ),
    )
}

/// The settings of groups as YAML, in the order of their keys.
pub open spec fn settings_yaml(entries: Seq<(String, GroupSetting)>) -> YamlView {
    YamlView::Mapping(
        Seq::new(
            entries.len(),
            |i: int| (YamlView::Text(entries[i].0@), setting_yaml(entries[i].1@)),
        ),
    )
}

fn texts_to_yaml(list: &Vec<String>) -> (r: Yaml)
    ensures
        r@ == texts_yaml(texts(list@)),
{
    let mut out: Vec<Yaml> = Vec::new();
    let mut i: usize = 0;
    while i < list.len()
        invariant
            i <= list@.len(),
            out@.len() == i,
            forall|k: int| 0 <= k < i ==> (#[trigger] out@[k])@ == YamlView::Text(list@[k]@),
        decreases list@.len() - i,
    {
        out.push(Yaml::Text(list[i].clone()));
        i = i + 1;
    }
    proof {
        lemma_list_view(out);
        assert(yaml_views(out@) =~= texts(list@).map_values(|t: Seq<char>| YamlView::Text(t)));
    }
    Yaml::List(out)
}

fn ints_to_yaml(list: &Vec<i64>) -> (r: Yaml)
    ensures
        r@ == ints_yaml(list@),
{
    let mut out: Vec<Yaml> = Vec::new();
    let mut i: usize = 0;
    while i < list.len()
        invariant
            i <= list@.len(),
            out@.len() == i,
            forall|k: int|
                0 <= k < i ==> (#[trigger] out@[k])@ == YamlView::Number(decimal(list@[k] as int)),
        decreases list@.len() - i,
    {
        out.push(Yaml::Number(i64_text(list[i])));
        i = i + 1;
    }
    proof {
        lemma_list_view(out);
        assert(yaml_views(out@) =~= list@.map_values(
            |n: i64| YamlView::Number(decimal(n as int)),
        ));
    }
    Yaml::List(out)
}

fn setting_to_yaml(setting: &GroupSetting) -> (r: Yaml)
    ensures
        r@ == setting_yaml(setting@),
{
    let mut entries: Vec<(Yaml, Yaml)> = Vec::new();
    entries.push(
        (Yaml::Text(owned("disabled_features")), texts_to_yaml(&setting.disabled_features)),
    );
    entries.push((Yaml::Text(owned("blacklist")), ints_to_yaml(&setting.blacklist)));
    entries.push(
        (Yaml::Text(owned("disabled_plugins")), texts_to_yaml(&setting.disabled_plugins)),
    );
    proof {
        lemma_mapping_view(entries);
        assert(entry_views(entries@) =~= setting_yaml(setting@)->Mapping_0);
    }
    Yaml::Mapping(entries)
}

fn settings_to_yaml(settings: &Vec<(String, GroupSetting)>) -> (r: Yaml)
    ensures
        r@ == settings_yaml(settings@),
{
    let mut out: Vec<(Yaml, Yaml)> = Vec::new();
    let mut i: usize = 0;
    while i < settings.len()
        invariant
            i <= settings@.len(),
            out@.len() == i,
            forall|k: int|
                0 <= k < i ==> (#[trigger] out@[k]).0@ == YamlView::Text(settings@[k].0@)
                    && out@[k].1@ == setting_yaml(settings@[k].1@),
        decreases settings@.len() - i,
    {
        out.push((Yaml::Text(settings[i].0.clone()), setting_to_yaml(&settings[i].1)));
        i = i + 1;
    }
    proof {
        lemma_mapping_view(out);
        assert(entry_views(out@) =~= settings_yaml(settings@)->Mapping_0);
    }
    Yaml::Mapping(out)
}

/// The ids of the plugins, for a comment.
pub open spec fn ids_text(ids: Seq<Seq<char>>) -> Seq<char> {
    if ids.len() == 0 {
        "(无)"@
    } else {
        joined(ids, ", "@)
    }
}

/// The ids of the plugins, for a comment.
pub fn plugin_ids_text(ids: &Vec<String>) -> (r: String)
    ensures
        r@ == ids_text(texts(ids@)),
{
    if ids.len() == 0 {
        owned("(无)")
    } else {
        join(ids, ", ")
    }
}

/// The part of the file on groups and managers.
pub open spec fn access_text(config: AronaConfig, edition: Seq<char>) -> Seq<char> {
    "# ==================== Arona 框架配置 ====================\n"@ + "# "@ + edition
        + "独立运行模式使用本文件，修改后保存即自动热重载。\n"@
        + "# 本文件只放框架自身的项：授权、黑名单、分群开关与插件开关。\n"@
        + "# OneBot 协议连接配置见同目录 onebot.yml；功能插件的配置在各自的 config/<插件>/arona.yml。\n\n"@
        + "# 允许响应的群号列表，留空表示响应所有群\n"@ + "groups: "@ + int_list_text(config.groups@)
        + "\n"@ + "# 管理员 QQ 号列表，可执行管理命令\n"@ + "managers: "@ + int_list_text(
        config.managers@,
    ) + "\n\n"@
}

/// The part of the file on blacklists and the switches of groups.
pub open spec fn groups_text(
    config: AronaConfig,
    feature_keys: Seq<char>,
    ids: Seq<Seq<char>>,
) -> Seq<char> {
    "# ==================== 黑名单与分群功能开关 ====================\n"@
        + "# 全局用户黑名单：这些 QQ 在任何群/私聊都不触发机器人（管理员不受限）\n"@
        + "global_blacklist: "@ + int_list_text(config.global_blacklist@) + "\n"@
        + "# 分群设置：群号 -> 关闭的功能(disabled_features) / 禁用的插件(disabled_plugins) / 群内成员黑名单(blacklist)\n"@
        + "# 可用功能 key: "@ + feature_keys + "\n"@ + settings_block(config, ids) + "\n"@
}

/// The settings of groups, or an example in comments where there are none.
pub open spec fn settings_block(config: AronaConfig, ids: Seq<Seq<char>>) -> Seq<char> {
    if config.group_settings.listed().len() == 0 {
        "# group_settings:\n"@ + "#   \"123456789\":\n"@ + "#     disabled_features: [tarot]\n"@
            + "#     disabled_plugins: ["@ + (if ids.len() > 0 {
            ids[0]
        } else {
            "插件id"@
        }) + "]\n"@ + "#     blacklist: [10001]\n"@ + "group_settings: {}\n"@
    } else {
        "group_settings:\n"@ + match yaml_text(settings_yaml(config.group_settings.listed())) {
            Some(text) => prefixed(lines_spec(text), "  "@),
            None => Seq::empty(),
        }
    }
}

/// The part of the file on the switches of plugins.
pub open spec fn plugins_text(config: AronaConfig, ids: Seq<Seq<char>>) -> Seq<char> {
    "# ==================== 插件开关 ====================\n"@
        + "# 全局禁用的插件：列在这里的插件启动时不装配、也不接收任何事件\n"@
        + "# 已安装的插件(id): "@ + ids_text(ids) + "\n"@ + (if config.disabled_plugins@.len() == 0 {
        "disabled_plugins: []\n"@
    } else {
        "disabled_plugins: "@ + debug_texts(texts(config.disabled_plugins@)) + "\n"@
    }) + "\n"@
}

/// How a truth value is written.
pub open spec fn flag_text(flag: bool) -> Seq<char> {
    if flag {
        "true"@
    } else {
        "false"@
    }
}

/// The part of the file on how the framework behaves.
pub open spec fn behaviour_text(config: AronaConfig) -> Seq<char> {
    "# ==================== 框架行为 ====================\nframework:\n"@
        + "  # 同一插件连续 panic 多少次就自动隔离停用（0 = 只记日志、不停用）\n  panic_disable_threshold: "@
        + decimal(config.framework.panic_disable_threshold as int)
        + "\n  # 未声明 with_prefix_match 的命令是否也允许最短前缀匹配\n  prefix_match_by_default: "@
        + flag_text(config.framework.prefix_match_by_default) + "\n\n"@
}

/// The part of the file on the messages that are kept, and the hint at its end.
pub open spec fn chatlog_text(config: AronaConfig) -> Seq<char> {
    "# ==================== 聊天记录缓存 ====================\n"@
        + "# 插件做「引用回复」与「按存储 id 撤回」的依据\nchatlog:\n"@
        + "  # 关掉后不再记账，引用还原与撤回时的 id 换算一起停\n  enable: "@ + flag_text(
        config.chatlog.enable,
    ) + "\n  # 本地留几天的聊天消息\n  keep_days: "@ + decimal(config.chatlog.keep_days as int)
        + "\n  # 每隔几天清一次过期记录\n  purge_interval_days: "@ + decimal(
        config.chatlog.purge_interval_days as int,
    )
        + "\n  # 多少分钟内的引用仍由实现端直接挂原生引用，超过才本地还原\n  quote_ttl_minutes: "@
        + decimal(config.chatlog.quote_ttl_minutes as int) + "\n\n"@
        + "# 提示: 本地图片的发送方式(send_image_as_file)属于 onebot.yml，在那里配置。\n"@
}

fn write_access(out: &mut String, config: &AronaConfig, edition: &str)
    ensures
        final(out)@ == old(out)@ + access_text(*config, edition@),
{
    out.append("# ==================== Arona 框架配置 ====================\n");
    out.append("# ");
    out.append(edition);
    out.append("独立运行模式使用本文件，修改后保存即自动热重载。\n");
    out.append("# 本文件只放框架自身的项：授权、黑名单、分群开关与插件开关。\n");
    out.append(
        "# OneBot 协议连接配置见同目录 onebot.yml；功能插件的配置在各自的 config/<插件>/arona.yml。\n\n",
    );
    out.append("# 允许响应的群号列表，留空表示响应所有群\n");
    out.append("groups: ");
    out.append(format_ints(&config.groups).as_str());
    out.append("\n");
    out.append("# 管理员 QQ 号列表，可执行管理命令\n");
    out.append("managers: ");
    out.append(format_ints(&config.managers).as_str());
    out.append("\n\n");
    assert(out@ =~= old(out)@ + access_text(*config, edition@));
}

fn write_groups(out: &mut String, config: &AronaConfig, feature_keys: &str, ids: &Vec<String>)
    ensures
        final(out)@ == old(out)@ + groups_text(*config, feature_keys@, texts(ids@)),
{
    out.append("# ==================== 黑名单与分群功能开关 ====================\n");
    out.append("# 全局用户黑名单：这些 QQ 在任何群/私聊都不触发机器人（管理员不受限）\n");
    out.append("global_blacklist: ");
    out.append(format_ints(&config.global_blacklist).as_str());
    out.append("\n");
    out.append(
        "# 分群设置：群号 -> 关闭的功能(disabled_features) / 禁用的插件(disabled_plugins) / 群内成员黑名单(blacklist)\n",
    );
    out.append("# 可用功能 key: ");
    out.append(feature_keys);
    out.append("\n");
    write_settings(out, config, ids);
    out.append("\n");
    assert(out@ =~= old(out)@ + groups_text(*config, feature_keys@, texts(ids@)));
}

fn write_settings(out: &mut String, config: &AronaConfig, ids: &Vec<String>)
    ensures
        final(out)@ == old(out)@ + settings_block(*config, texts(ids@)),
{
    if config.group_settings.len() == 0 {
        out.append("# group_settings:\n");
        out.append("#   \"123456789\":\n");
        out.append("#     disabled_features: [tarot]\n");
        out.append("#     disabled_plugins: [");
        if ids.len() > 0 {
            assert(texts(ids@)[0] == ids@[0]@);
            out.append(ids[0].as_str());
        } else {
            out.append("插件id");
        }
        out.append("]\n");
        out.append("#     blacklist: [10001]\n");
        out.append("group_settings: {}\n");
        assert(out@ =~= old(out)@ + settings_block(*config, texts(ids@)));
    } else {
        out.append("group_settings:\n");
        let yaml = settings_to_yaml(config.group_settings.entries());
        if let Some(text) = render_yaml(&yaml) {
            push_prefixed(out, &lines(text.as_str()), "  ");
        }
        assert(out@ =~= old(out)@ + settings_block(*config, texts(ids@)));
    }
}

fn write_plugins(out: &mut String, config: &AronaConfig, ids: &Vec<String>)
    ensures
        final(out)@ == old(out)@ + plugins_text(*config, texts(ids@)),
{
    out.append("# ==================== 插件开关 ====================\n");
    out.append("# 全局禁用的插件：列在这里的插件启动时不装配、也不接收任何事件\n");
    out.append("# 已安装的插件(id): ");
    out.append(plugin_ids_text(ids).as_str());
    out.append("\n");
    if config.disabled_plugins.len() == 0 {
        out.append("disabled_plugins: []\n");
    } else {
        out.append("disabled_plugins: ");
        out.append(format_texts(&config.disabled_plugins).as_str());
        out.append("\n");
    }
    out.append("\n");
    assert(out@ =~= old(out)@ + plugins_text(*config, texts(ids@)));
}

fn write_flag(out: &mut String, flag: bool)
    ensures
        final(out)@ == old(out)@ + flag_text(flag),
{
    if flag {
        out.append("true");
    } else {
        out.append("false");
    }
}

fn write_behaviour(out: &mut String, config: &AronaConfig)
    ensures
        final(out)@ == old(out)@ + behaviour_text(*config),
{
    out.append("# ==================== 框架行为 ====================\nframework:\n");
    out.append(
        "  # 同一插件连续 panic 多少次就自动隔离停用（0 = 只记日志、不停用）\n  panic_disable_threshold: ",
    );
    out.append(u64_text(config.framework.panic_disable_threshold as u64).as_str());
    out.append(
        "\n  # 未声明 with_prefix_match 的命令是否也允许最短前缀匹配\n  prefix_match_by_default: ",
    );
    write_flag(out, config.framework.prefix_match_by_default);
    out.append("\n\n");
    assert(out@ =~= old(out)@ + behaviour_text(*config));
}

fn write_chatlog(out: &mut String, config: &AronaConfig)
    ensures
        final(out)@ == old(out)@ + chatlog_text(*config),
{
    out.append("# ==================== 聊天记录缓存 ====================\n");
    out.append("# 插件做「引用回复」与「按存储 id 撤回」的依据\nchatlog:\n");
    out.append("  # 关掉后不再记账，引用还原与撤回时的 id 换算一起停\n  enable: ");
    write_flag(out, config.chatlog.enable);
    out.append("\n  # 本地留几天的聊天消息\n  keep_days: ");
    out.append(u64_text(config.chatlog.keep_days as u64).as_str());
    out.append("\n  # 每隔几天清一次过期记录\n  purge_interval_days: ");
    out.append(u64_text(config.chatlog.purge_interval_days as u64).as_str());
    out.append(
        "\n  # 多少分钟内的引用仍由实现端直接挂原生引用，超过才本地还原\n  quote_ttl_minutes: ",
    );
    out.append(u64_text(config.chatlog.quote_ttl_minutes as u64).as_str());
    out.append("\n\n");
    out.append("# 提示: 本地图片的发送方式(send_image_as_file)属于 onebot.yml，在那里配置。\n");
    assert(out@ =~= old(out)@ + chatlog_text(*config));
}

/// The text of the file: the settings with comments.
pub open spec fn file_text(
    config: AronaConfig,
    edition: Seq<char>,
    feature_keys: Seq<char>,
    ids: Seq<Seq<char>>,
) -> Seq<char> {
    access_text(config, edition) + groups_text(config, feature_keys, ids) + plugins_text(
        config,
        ids,
    ) + behaviour_text(config) + chatlog_text(config)
}

/// The text of the file: the settings with comments. `edition` is what the program
/// calls itself in them; `feature_keys` and `ids` are what else they name.
pub fn template(
    config: &AronaConfig,
    edition: &str,
    feature_keys: &str,
    ids: &Vec<String>,
) -> (r: String)
    ensures
        r@ == file_text(*config, edition@, feature_keys@, texts(ids@)),
{
    let mut out = String::new();
    write_access(&mut out, config, edition);
    write_groups(&mut out, config, feature_keys, ids);
    write_plugins(&mut out, config, ids);
    write_behaviour(&mut out, config);
    write_chatlog(&mut out, config);
    assert(out@ =~= file_text(*config, edition@, feature_keys@, texts(ids@)));
    out
}

/// Where the file is, unless another place is given.
pub fn default_file() -> (r: String)
    ensures
        r@ == "config/arona.yml"@,
{
    owned("config/arona.yml")
}

// ---------------------------------------------------------------------------
// laws

proof fn lemma_flag_at_the_end(x: Seq<char>, a: bool, y: Seq<char>, b: bool, mark: Seq<char>)
    requires
        x + mark + flag_text(a) == y + mark + flag_text(b),
        mark.len() > 0,
        mark.last() == ' ',
    ensures
        x == y,
        a == b,
{
    reveal_strlit("true");
    reveal_strlit("false");
    assert(!"true"@.contains(' ') && !"false"@.contains(' '));
    assert("true"@.len() == 4 && "false"@.len() == 5);
    lemma_word_at_the_end(x, flag_text(a), y, flag_text(b), mark);
}

proof fn lemma_access_reads_back(
    a: AronaConfig,
    rest_a: Seq<char>,
    b: AronaConfig,
    rest_b: Seq<char>,
    edition: Seq<char>,
)
    requires
        access_text(a, edition) + rest_a == access_text(b, edition) + rest_b,
    ensures
        a.groups@ == b.groups@,
        a.managers@ == b.managers@,
        rest_a == rest_b,
{
    let start = "# ==================== Arona 框架配置 ====================\n"@ + "# "@ + edition
        + "独立运行模式使用本文件，修改后保存即自动热重载。\n"@
        + "# 本文件只放框架自身的项：授权、黑名单、分群开关与插件开关。\n"@
        + "# OneBot 协议连接配置见同目录 onebot.yml；功能插件的配置在各自的 config/<插件>/arona.yml。\n\n"@
        + "# 允许响应的群号列表，留空表示响应所有群\n"@ + "groups: "@;
    lemma_two_lists_read_back(
        start,
        "\n"@,
        "# 管理员 QQ 号列表，可执行管理命令\n"@,
        "managers: "@,
        "\n\n"@,
        (a.groups@, a.managers@, rest_a),
        (b.groups@, b.managers@, rest_b),
    );
}

proof fn lemma_two_lists_read_back(
    start: Seq<char>,
    feed: Seq<char>,
    note: Seq<char>,
    name: Seq<char>,
    end: Seq<char>,
    a: (Seq<i64>, Seq<i64>, Seq<char>),
    b: (Seq<i64>, Seq<i64>, Seq<char>),
)
    requires
        start + int_list_text(a.0) + feed + note + name + int_list_text(a.1) + end + a.2 == start
            + int_list_text(b.0) + feed + note + name + int_list_text(b.1) + end + b.2,
    ensures
        a == b,
{
    let between = feed + note + name;
    let (list_a, list_b) = (int_list_text(a.0), int_list_text(b.0));
    let (next_a, next_b) = (int_list_text(a.1), int_list_text(b.1));
    let second_a = next_a + (end + a.2);
    let second_b = next_b + (end + b.2);
    assert(start + list_a + feed + note + name + next_a + end + a.2 =~= start + (list_a + (between
        + second_a)));
    assert(start + list_b + feed + note + name + next_b + end + b.2 =~= start + (list_b + (between
        + second_b)));
    lemma_same_start(start, list_a + (between + second_a), list_b + (between + second_b));
    law_lists_of_numbers_read_back(a.0, between + second_a, b.0, between + second_b);
    lemma_same_start(between, second_a, second_b);
    law_lists_of_numbers_read_back(a.1, end + a.2, b.1, end + b.2);
    lemma_same_start(end, a.2, b.2);
}

proof fn lemma_blacklist_reads_back(
    a: AronaConfig,
    rest_a: Seq<char>,
    b: AronaConfig,
    rest_b: Seq<char>,
    feature_keys: Seq<char>,
    ids: Seq<Seq<char>>,
)
    requires
        groups_text(a, feature_keys, ids) + rest_a == groups_text(b, feature_keys, ids) + rest_b,
    ensures
        a.global_blacklist@ == b.global_blacklist@,
{
    let start = "# ==================== 黑名单与分群功能开关 ====================\n"@
        + "# 全局用户黑名单：这些 QQ 在任何群/私聊都不触发机器人（管理员不受限）\n"@
        + "global_blacklist: "@;
    let between = "\n"@
        + "# 分群设置：群号 -> 关闭的功能(disabled_features) / 禁用的插件(disabled_plugins) / 群内成员黑名单(blacklist)\n"@
        + "# 可用功能 key: "@ + feature_keys + "\n"@;
    let tail_a = between + settings_block(a, ids) + "\n"@ + rest_a;
    let tail_b = between + settings_block(b, ids) + "\n"@ + rest_b;
    assert(groups_text(a, feature_keys, ids) + rest_a =~= start + (int_list_text(
        a.global_blacklist@,
    ) + tail_a));
    assert(groups_text(b, feature_keys, ids) + rest_b =~= start + (int_list_text(
        b.global_blacklist@,
    ) + tail_b));
    lemma_same_start(
        start,
        int_list_text(a.global_blacklist@) + tail_a,
        int_list_text(b.global_blacklist@) + tail_b,
    );
    law_lists_of_numbers_read_back(a.global_blacklist@, tail_a, b.global_blacklist@, tail_b);
}

proof fn lemma_in_front(head: Seq<char>, x: Seq<char>, y: Seq<char>)
    ensures
        head + (x + y) == head + x + y,
{
    assert(head + (x + y) =~= head + x + y);
}

/// What stands behind a text can be appended to it piece by piece.
proof fn lemma_pieces(head: Seq<char>, p: Seq<Seq<char>>)
    requires
        p.len() == 6,
    ensures
        head + (p[0] + p[1] + p[2] + p[3] + p[4] + p[5]) == head + p[0] + p[1] + p[2] + p[3] + p[4]
            + p[5],
{
    lemma_in_front(head, p[0], p[1]);
    lemma_in_front(head, p[0] + p[1], p[2]);
    lemma_in_front(head, p[0] + p[1] + p[2], p[3]);
    lemma_in_front(head, p[0] + p[1] + p[2] + p[3], p[4]);
    lemma_in_front(head, p[0] + p[1] + p[2] + p[3] + p[4], p[5]);
}

proof fn lemma_behaviour_reads_back(
    a: AronaConfig,
    head_a: Seq<char>,
    b: AronaConfig,
    head_b: Seq<char>,
)
    requires
        head_a + behaviour_text(a) == head_b + behaviour_text(b),
    ensures
        a.framework == b.framework,
        head_a == head_b,
{
    let start = "# ==================== 框架行为 ====================\nframework:\n"@;
    let count = "  # 同一插件连续 panic 多少次就自动隔离停用（0 = 只记日志、不停用）\n  panic_disable_threshold: "@;
    let prefix = "\n  # 未声明 with_prefix_match 的命令是否也允许最短前缀匹配\n  prefix_match_by_default: "@;
    let end = "\n\n"@;
    assert(count.len() > 0 && count.last() == ' ') by {
        reveal_strlit(
            "  # 同一插件连续 panic 多少次就自动隔离停用（0 = 只记日志、不停用）\n  panic_disable_threshold: ",
        );
    }
    assert(prefix.len() > 0 && prefix.last() == ' ') by {
        reveal_strlit(
            "\n  # 未声明 with_prefix_match 的命令是否也允许最短前缀匹配\n  prefix_match_by_default: ",
        );
    }
    let (count_a, count_b) = (
        a.framework.panic_disable_threshold as int,
        b.framework.panic_disable_threshold as int,
    );
    let (flag_a, flag_b) = (
        a.framework.prefix_match_by_default,
        b.framework.prefix_match_by_default,
    );
    lemma_pieces(head_a, seq![start, count, decimal(count_a), prefix, flag_text(flag_a), end]);
    lemma_pieces(head_b, seq![start, count, decimal(count_b), prefix, flag_text(flag_b), end]);
    let a1 = head_a + start + count + decimal(count_a);
    let b1 = head_b + start + count + decimal(count_b);
    lemma_same_end(a1 + prefix + flag_text(flag_a), b1 + prefix + flag_text(flag_b), end);
    lemma_flag_at_the_end(a1, flag_a, b1, flag_b, prefix);
    lemma_number_at_the_end(head_a + start, count_a, head_b + start, count_b, count);
    lemma_same_end(head_a, head_b, start);
}

proof fn lemma_more_pieces(head: Seq<char>, p: Seq<Seq<char>>)
    requires
        p.len() == 12,
    ensures
        head + (p[0] + p[1] + p[2] + p[3] + p[4] + p[5] + p[6] + p[7] + p[8] + p[9] + p[10]
            + p[11]) == head + p[0] + p[1] + p[2] + p[3] + p[4] + p[5] + p[6] + p[7] + p[8] + p[9]
            + p[10] + p[11],
{
    lemma_pieces(head, p.take(6));
    let six = p[0] + p[1] + p[2] + p[3] + p[4] + p[5];
    lemma_in_front(head, six, p[6]);
    lemma_in_front(head, six + p[6], p[7]);
    lemma_in_front(head, six + p[6] + p[7], p[8]);
    lemma_in_front(head, six + p[6] + p[7] + p[8], p[9]);
    lemma_in_front(head, six + p[6] + p[7] + p[8] + p[9], p[10]);
    lemma_in_front(head, six + p[6] + p[7] + p[8] + p[9] + p[10], p[11]);
}

proof fn lemma_chatlog_reads_back(
    a: AronaConfig,
    head_a: Seq<char>,
    b: AronaConfig,
    head_b: Seq<char>,
)
    requires
        head_a + chatlog_text(a) == head_b + chatlog_text(b),
    ensures
        a.chatlog == b.chatlog,
        head_a == head_b,
{
    let title = "# ==================== 聊天记录缓存 ====================\n"@;
    let note = "# 插件做「引用回复」与「按存储 id 撤回」的依据\nchatlog:\n"@;
    let enable = "  # 关掉后不再记账，引用还原与撤回时的 id 换算一起停\n  enable: "@;
    let keep = "\n  # 本地留几天的聊天消息\n  keep_days: "@;
    let purge = "\n  # 每隔几天清一次过期记录\n  purge_interval_days: "@;
    let quote = "\n  # 多少分钟内的引用仍由实现端直接挂原生引用，超过才本地还原\n  quote_ttl_minutes: "@;
    let feeds = "\n\n"@;
    let hint = "# 提示: 本地图片的发送方式(send_image_as_file)属于 onebot.yml，在那里配置。\n"@;
    assert(enable.len() > 0 && enable.last() == ' ') by {
        reveal_strlit("  # 关掉后不再记账，引用还原与撤回时的 id 换算一起停\n  enable: ");
    }
    assert(keep.len() > 0 && keep.last() == ' ') by {
        reveal_strlit("\n  # 本地留几天的聊天消息\n  keep_days: ");
    }
    assert(purge.len() > 0 && purge.last() == ' ') by {
        reveal_strlit("\n  # 每隔几天清一次过期记录\n  purge_interval_days: ");
    }
    assert(quote.len() > 0 && quote.last() == ' ') by {
        reveal_strlit(
            "\n  # 多少分钟内的引用仍由实现端直接挂原生引用，超过才本地还原\n  quote_ttl_minutes: ",
        );
    }
    let (on_a, on_b) = (a.chatlog.enable, b.chatlog.enable);
    let (keep_a, keep_b) = (a.chatlog.keep_days as int, b.chatlog.keep_days as int);
    let (purge_a, purge_b) = (
        a.chatlog.purge_interval_days as int,
        b.chatlog.purge_interval_days as int,
    );
    let (quote_a, quote_b) = (
        a.chatlog.quote_ttl_minutes as int,
        b.chatlog.quote_ttl_minutes as int,
    );
    lemma_more_pieces(
        head_a,
        seq![
            title,
            note,
            enable,
            flag_text(on_a),
            keep,
            decimal(keep_a),
            purge,
            decimal(purge_a),
            quote,
            decimal(quote_a),
            feeds,
            hint,
        ],
    );
    lemma_more_pieces(
        head_b,
        seq![
            title,
            note,
            enable,
            flag_text(on_b),
            keep,
            decimal(keep_b),
            purge,
            decimal(purge_b),
            quote,
            decimal(quote_b),
            feeds,
            hint,
        ],
    );
    let a1 = head_a + title + note + enable + flag_text(on_a);
    let b1 = head_b + title + note + enable + flag_text(on_b);
    let a2 = a1 + keep + decimal(keep_a);
    let b2 = b1 + keep + decimal(keep_b);
    let a3 = a2 + purge + decimal(purge_a);
    let b3 = b2 + purge + decimal(purge_b);
    let a4 = a3 + quote + decimal(quote_a);
    let b4 = b3 + quote + decimal(quote_b);
    lemma_same_end(a4 + feeds, b4 + feeds, hint);
    lemma_same_end(a4, b4, feeds);
    lemma_number_at_the_end(a3, quote_a, b3, quote_b, quote);
    lemma_number_at_the_end(a2, purge_a, b2, purge_b, purge);
    lemma_number_at_the_end(a1, keep_a, b1, keep_b, keep);
    lemma_flag_at_the_end(head_a + title + note, on_a, head_b + title + note, on_b, enable);
    lemma_same_end(head_a + title, head_b + title, note);
    lemma_same_end(head_a, head_b, title);
}

/// The file tells configurations apart: two of them that are written to the same text
/// have the same groups, managers and blacklist, the framework behaves in the same way,
/// and messages are kept alike.
pub proof fn law_the_file_tells_configurations_apart(
    a: AronaConfig,
    b: AronaConfig,
    edition: Seq<char>,
    feature_keys: Seq<char>,
    ids: Seq<Seq<char>>,
)
    requires
        file_text(a, edition, feature_keys, ids) == file_text(b, edition, feature_keys, ids),
    ensures
        a.groups@ == b.groups@,
        a.managers@ == b.managers@,
        a.global_blacklist@ == b.global_blacklist@,
        a.framework == b.framework,
        a.chatlog == b.chatlog,
{
    let lists_a = groups_text(a, feature_keys, ids);
    let lists_b = groups_text(b, feature_keys, ids);
    let tail_a = plugins_text(a, ids) + behaviour_text(a) + chatlog_text(a);
    let tail_b = plugins_text(b, ids) + behaviour_text(b) + chatlog_text(b);
    lemma_five_parts(
        access_text(a, edition),
        lists_a,
        plugins_text(a, ids),
        behaviour_text(a),
        chatlog_text(a),
    );
    lemma_five_parts(
        access_text(b, edition),
        lists_b,
        plugins_text(b, ids),
        behaviour_text(b),
        chatlog_text(b),
    );
    lemma_access_reads_back(a, lists_a + tail_a, b, lists_b + tail_b, edition);
    lemma_blacklist_reads_back(a, tail_a, b, tail_b, feature_keys, ids);
    let head_a = access_text(a, edition) + lists_a + plugins_text(a, ids);
    let head_b = access_text(b, edition) + lists_b + plugins_text(b, ids);
    lemma_chatlog_reads_back(a, head_a + behaviour_text(a), b, head_b + behaviour_text(b));
    lemma_behaviour_reads_back(a, head_a, b, head_b);
}

proof fn lemma_five_parts(
    one: Seq<char>,
    two: Seq<char>,
    three: Seq<char>,
    four: Seq<char>,
    five: Seq<char>,
)
    ensures
        one + two + three + four + five == one + (two + (three + four + five)),
{
    assert(one + two + three + four + five =~= one + (two + (three + four + five)));
}

proof fn lemma_sections(
    one: Seq<char>,
    two: Seq<char>,
    three: Seq<char>,
    four: Seq<char>,
    five: Seq<char>,
)
    ensures
        holds(one + two + three + four + five, one),
        holds(one + two + three + four + five, two),
        holds(one + two + three + four + five, three),
{
    let text = one + two + three + four + five;
    let none = Seq::<char>::empty();
    assert(text =~= none + one + (two + three + four + five));
    assert(text =~= one + two + (three + four + five));
    assert(text =~= (one + two) + three + (four + five));
    lemma_holds(none, one, two + three + four + five);
    lemma_holds(one, two, three + four + five);
    lemma_holds(one + two, three, four + five);
}

proof fn lemma_access_lines(config: AronaConfig, edition: Seq<char>)
    ensures
        holds(
            access_text(config, edition),
            "groups: "@ + int_list_text(config.groups@) + "\n"@,
        ),
        holds(
            access_text(config, edition),
            "managers: "@ + int_list_text(config.managers@) + "\n\n"@,
        ),
{
    let start = "# ==================== Arona 框架配置 ====================\n"@ + "# "@ + edition
        + "独立运行模式使用本文件，修改后保存即自动热重载。\n"@
        + "# 本文件只放框架自身的项：授权、黑名单、分群开关与插件开关。\n"@
        + "# OneBot 协议连接配置见同目录 onebot.yml；功能插件的配置在各自的 config/<插件>/arona.yml。\n\n"@
        + "# 允许响应的群号列表，留空表示响应所有群\n"@;
    let groups = "groups: "@ + int_list_text(config.groups@) + "\n"@;
    let note = "# 管理员 QQ 号列表，可执行管理命令\n"@;
    let managers = "managers: "@ + int_list_text(config.managers@) + "\n\n"@;
    let none = Seq::<char>::empty();
    assert(access_text(config, edition) =~= start + groups + (note + managers));
    lemma_holds(start, groups, note + managers);
    assert(access_text(config, edition) =~= (start + groups + note) + managers + none);
    lemma_holds(start + groups + note, managers, none);
}

proof fn lemma_group_lines(config: AronaConfig, feature_keys: Seq<char>, ids: Seq<Seq<char>>)
    ensures
        holds(
            groups_text(config, feature_keys, ids),
            "global_blacklist: "@ + int_list_text(config.global_blacklist@) + "\n"@,
        ),
        holds(groups_text(config, feature_keys, ids), settings_block(config, ids)),
{
    let head = "# ==================== 黑名单与分群功能开关 ====================\n"@
        + "# 全局用户黑名单：这些 QQ 在任何群/私聊都不触发机器人（管理员不受限）\n"@;
    let blacklist = "global_blacklist: "@ + int_list_text(config.global_blacklist@) + "\n"@;
    let notes = "# 分群设置：群号 -> 关闭的功能(disabled_features) / 禁用的插件(disabled_plugins) / 群内成员黑名单(blacklist)\n"@
        + "# 可用功能 key: "@ + feature_keys + "\n"@;
    let block = settings_block(config, ids);
    let text = groups_text(config, feature_keys, ids);
    assert(text =~= head + blacklist + (notes + block + "\n"@));
    lemma_holds(head, blacklist, notes + block + "\n"@);
    assert(text =~= (head + blacklist + notes) + block + "\n"@);
    lemma_holds(head + blacklist + notes, block, "\n"@);
}

proof fn lemma_plugin_lines(config: AronaConfig, ids: Seq<Seq<char>>)
    requires
        config.disabled_plugins@.len() > 0,
    ensures
        holds(
            plugins_text(config, ids),
            "disabled_plugins: "@ + debug_texts(texts(config.disabled_plugins@)) + "\n"@,
        ),
{
    let intro = "# ==================== 插件开关 ====================\n"@
        + "# 全局禁用的插件：列在这里的插件启动时不装配、也不接收任何事件\n"@
        + "# 已安装的插件(id): "@ + ids_text(ids) + "\n"@;
    let off = "disabled_plugins: "@ + debug_texts(texts(config.disabled_plugins@)) + "\n"@;
    assert(plugins_text(config, ids) =~= intro + off + "\n"@);
    lemma_holds(intro, off, "\n"@);
}

proof fn lemma_no_settings(config: AronaConfig, ids: Seq<Seq<char>>)
    requires
        config.group_settings.listed().len() == 0,
    ensures
        holds(settings_block(config, ids), "group_settings: {}\n"@),
{
    let example = "# group_settings:\n"@ + "#   \"123456789\":\n"@
        + "#     disabled_features: [tarot]\n"@ + "#     disabled_plugins: ["@ + (if ids.len() > 0 {
        ids[0]
    } else {
        "插件id"@
    }) + "]\n"@ + "#     blacklist: [10001]\n"@;
    let none = Seq::<char>::empty();
    assert(settings_block(config, ids) =~= example + "group_settings: {}\n"@ + none);
    lemma_holds(example, "group_settings: {}\n"@, none);
}

/// Each setting stands in the file under its name: the lists of numbers and of plugins
/// and the settings of groups.
pub proof fn law_the_file_holds_the_settings(
    config: AronaConfig,
    edition: Seq<char>,
    feature_keys: Seq<char>,
    ids: Seq<Seq<char>>,
)
    ensures
        ({
            let text = file_text(config, edition, feature_keys, ids);
            &&& holds(text, "groups: "@ + int_list_text(config.groups@) + "\n"@)
            &&& holds(text, "managers: "@ + int_list_text(config.managers@) + "\n\n"@)
            &&& holds(text, "global_blacklist: "@ + int_list_text(config.global_blacklist@) + "\n"@)
            &&& config.disabled_plugins@.len() > 0 ==> holds(
                text,
                "disabled_plugins: "@ + debug_texts(texts(config.disabled_plugins@)) + "\n"@,
            )
            &&& config.group_settings.listed().len() > 0 ==> (yaml_text(
                settings_yaml(config.group_settings.listed()),
            ) matches Some(yaml) ==> holds(
                text,
                "group_settings:\n"@ + prefixed(lines_spec(yaml), "  "@),
            ))
            &&& config.group_settings.listed().len() == 0 ==> holds(text, "group_settings: {}\n"@)
        }),
{
    let text = file_text(config, edition, feature_keys, ids);
    let access = access_text(config, edition);
    let lists = groups_text(config, feature_keys, ids);
    let plugins = plugins_text(config, ids);
    let block = settings_block(config, ids);
    lemma_sections(access, lists, plugins, behaviour_text(config), chatlog_text(config));
    lemma_access_lines(config, edition);
    lemma_group_lines(config, feature_keys, ids);
    lemma_holds_within(text, access, "groups: "@ + int_list_text(config.groups@) + "\n"@);
    lemma_holds_within(text, access, "managers: "@ + int_list_text(config.managers@) + "\n\n"@);
    lemma_holds_within(
        text,
        lists,
        "global_blacklist: "@ + int_list_text(config.global_blacklist@) + "\n"@,
    );
    lemma_holds_within(text, lists, block);
    if config.group_settings.listed().len() == 0 {
        lemma_no_settings(config, ids);
        lemma_holds_within(text, block, "group_settings: {}\n"@);
    }
    if config.disabled_plugins@.len() > 0 {
        lemma_plugin_lines(config, ids);
        lemma_holds_within(
            text,
            plugins,
            "disabled_plugins: "@ + debug_texts(texts(config.disabled_plugins@)) + "\n"@,
        );
    }
}

/// The settings of a group are told apart by what is written for them, and each list
/// stands under its own name.
pub proof fn law_settings_of_groups_are_told_apart(a: GroupSettingView, b: GroupSettingView)
    ensures
        setting_yaml(a) == setting_yaml(b) ==> a.disabled_features == b.disabled_features
            && a.blacklist == b.blacklist && a.disabled_plugins == b.disabled_plugins,
        setting_yaml(a) matches YamlView::Mapping(entries) && {
            &&& entries.contains((YamlView::Text("blacklist"@), ints_yaml(a.blacklist)))
            &&& entries.contains(
                (YamlView::Text("disabled_features"@), texts_yaml(a.disabled_features)),
            )
            &&& entries.contains(
                (YamlView::Text("disabled_plugins"@), texts_yaml(a.disabled_plugins)),
            )
        },
        ints_yaml(a.blacklist)->List_0.len() == a.blacklist.len(),
        forall|i: int|
            0 <= i < a.blacklist.len() ==> #[trigger] ints_yaml(a.blacklist)->List_0[i]
                == YamlView::Number(decimal(a.blacklist[i] as int)),
{
    let entries_a = setting_yaml(a)->Mapping_0;
    let entries_b = setting_yaml(b)->Mapping_0;
    assert(entries_a[0] == (
        YamlView::Text("disabled_features"@),
        texts_yaml(a.disabled_features),
    ));
    assert(entries_a[1] == (YamlView::Text("blacklist"@), ints_yaml(a.blacklist)));
    assert(entries_a[2] == (YamlView::Text("disabled_plugins"@), texts_yaml(a.disabled_plugins)));
    if setting_yaml(a) == setting_yaml(b) {
        assert(entries_b[0].1 == texts_yaml(b.disabled_features));
        assert(entries_b[1].1 == ints_yaml(b.blacklist));
        assert(entries_b[2].1 == texts_yaml(b.disabled_plugins));
        lemma_texts_yaml(a.disabled_features, b.disabled_features);
        lemma_texts_yaml(a.disabled_plugins, b.disabled_plugins);
        let items_a = ints_yaml(a.blacklist)->List_0;
        let items_b = ints_yaml(b.blacklist)->List_0;
        assert(items_a.len() == a.blacklist.len() && items_b.len() == b.blacklist.len());
        assert forall|i: int| 0 <= i < a.blacklist.len() implies a.blacklist[i] == b.blacklist[i] by {
            assert(items_a[i] == YamlView::Number(decimal(a.blacklist[i] as int)));
            assert(items_b[i] == YamlView::Number(decimal(b.blacklist[i] as int)));
            law_decimals_tell_numbers_apart(a.blacklist[i] as int, b.blacklist[i] as int);
        }
        assert(a.blacklist =~= b.blacklist);
    }
}

proof fn lemma_texts_yaml(a: Seq<Seq<char>>, b: Seq<Seq<char>>)
    requires
        texts_yaml(a) == texts_yaml(b),
    ensures
        a == b,
{
    let items_a = texts_yaml(a)->List_0;
    let items_b = texts_yaml(b)->List_0;
    assert(items_a.len() == a.len() && items_b.len() == b.len());
    assert forall|i: int| 0 <= i < a.len() implies a[i] == b[i] by {
        assert(items_a[i] == YamlView::Text(a[i]));
        assert(items_b[i] == YamlView::Text(b[i]));
    }
    assert(a =~= b);
}

/// The settings of all groups are written one after another, each under the number of
/// its group.
pub proof fn law_every_group_is_written(entries: Seq<(String, GroupSetting)>, i: int)
    requires
        0 <= i < entries.len(),
    ensures
        settings_yaml(entries) matches YamlView::Mapping(written) && written.len() == entries.len()
            && written[i] == (YamlView::Text(entries[i].0@), setting_yaml(entries[i].1@)),
{
}

/// A key that the framework reads is nobody else's, whoever claims it; any other goes to
/// the plugin that claims it, but for the one that has moved.
pub proof fn law_keys_go_to_their_readers(name: Seq<char>, registry: SectionRegistry)
    ensures
        fate_of("groups"@, registry) is Generic,
        fate_of("managers"@, registry) is Generic,
        fate_of("global_blacklist"@, registry) is Generic,
        fate_of("group_settings"@, registry) is Generic,
        fate_of("disabled_plugins"@, registry) is Generic,
        fate_of("framework"@, registry) is Generic,
        fate_of("chatlog"@, registry) is Generic,
        fate_of("send_image_as_file"@, registry) is Moved,
        fate_of(name, registry) matches KeyFateView::Owned(owner) ==> owner_of(
            registry.items@,
            name,
        ) == Some(owner),
        fate_of(name, registry) is Unknown ==> owner_of(registry.items@, name) is None,
        fate_of(name, registry) is Moved ==> name == "send_image_as_file"@,
{
    reveal_strlit("groups");
    reveal_strlit("managers");
    reveal_strlit("global_blacklist");
    reveal_strlit("group_settings");
    reveal_strlit("disabled_plugins");
    reveal_strlit("framework");
    reveal_strlit("chatlog");
    reveal_strlit("send_image_as_file");
    assert("send_image_as_file"@.len() == 18);
}

/// Every key at the top of the file that the framework does not read is told with what
/// becomes of it and its value, and no other is.
pub proof fn law_foreign_keys_are_told(
    entries: Seq<(YamlView, YamlView)>,
    registry: SectionRegistry,
    i: int,
    name: Seq<char>,
)
    requires
        0 <= i < entries.len(),
        key_text(entries[i].0) == Some(name),
        !is_generic_key(name),
    ensures
        foreign_keys_of(entries, registry).contains(
            ForeignKeyView { name, fate: fate_of(name, registry), value: entries[i].1 },
        ),
        forall|k: int|
            0 <= k < foreign_keys_of(entries, registry).len() ==> !is_generic_key(
                (#[trigger] foreign_keys_of(entries, registry)[k]).name,
            ),
    decreases entries.len(),
{
    let head = foreign_keys_of(entries.drop_last(), registry);
    let all = foreign_keys_of(entries, registry);
    let told = ForeignKeyView { name, fate: fate_of(name, registry), value: entries[i].1 };
    lemma_foreign_names(entries, registry);
    if i < entries.len() - 1 {
        assert(entries.drop_last()[i] == entries[i]);
        law_foreign_keys_are_told(entries.drop_last(), registry, i, name);
        let n = choose|n: int| 0 <= n < head.len() && head[n] == told;
        assert(all[n] == told);
    } else {
        assert(all[all.len() - 1] == told);
    }
}

proof fn lemma_foreign_names(entries: Seq<(YamlView, YamlView)>, registry: SectionRegistry)
    ensures
        forall|k: int|
            0 <= k < foreign_keys_of(entries, registry).len() ==> !is_generic_key(
                (#[trigger] foreign_keys_of(entries, registry)[k]).name,
            ),
    decreases entries.len(),
{
    if entries.len() > 0 {
        lemma_foreign_names(entries.drop_last(), registry);
        let head = foreign_keys_of(entries.drop_last(), registry);
        let all = foreign_keys_of(entries, registry);
        assert forall|k: int| 0 <= k < all.len() implies !is_generic_key(
            (#[trigger] all[k]).name,
        ) by {
            if k < head.len() {
                assert(all[k] == head[k]);
            }
        }
    }
}

} // verus!
