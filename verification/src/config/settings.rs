//! The configuration in force: how it is changed, written and read again. A change is
//! worked out here; the program around writes it and tells how that went.
use crate::config::arona::{
    contains_int, copy_ints, empty_config, file_text, template, AronaConfig, AronaConfigView,
    GroupSettingView,
};
use crate::config::edit::{
    drop_int, features_set, group_plugins_set, group_set, ints_without, plugins_set,
    setting_or_empty, user_listed, with_global_blacklist, with_group_blacklist, with_group_enabled,
    with_group_features, with_group_plugin_enabled, with_plugin_enabled, with_setting,
    without_group_setting,
};
use crate::json::option_text;
use crate::plugin::description::names;
use crate::plugin::health::HealthBoard;
use crate::runtime::config::Gating;
use crate::text::{decimal, format_ints, i64_text, int_list_text, owned, same, texts};
use vstd::prelude::*;
use vstd::string::StringExecFns;

verus! {

/// A part of the configuration that a command can change.
#[derive(Debug)]
pub struct ConfigField {
    pub key: &'static str,
    pub description: &'static str,
}

/// The parts of the configuration that a command can change.
pub fn fields() -> (r: Vec<ConfigField>)
    ensures
        r@.len() == 2,
        r@[0].key@ == "groups"@,
        r@[0].description@ == "允许响应的群号列表，留空表示响应所有群"@,
        r@[1].key@ == "managers"@,
        r@[1].description@ == "管理员 QQ 号列表，可执行管理命令"@,
{
    let mut out: Vec<ConfigField> = Vec::new();
    out.push(
        ConfigField {
            key: "groups",
            description: "允许响应的群号列表，留空表示响应所有群",
        },
    );
    out.push(
        ConfigField { key: "managers", description: "管理员 QQ 号列表，可执行管理命令" },
    );
    out
}

/// Where a key stands among the parts that a command can change.
pub open spec fn field_index(key: Seq<char>) -> Option<usize> {
    if key == "groups"@ {
        Some(0)
    } else if key == "managers"@ {
        Some(1)
    } else {
        None
    }
}

/// Where a key stands among the parts that a command can change.
pub fn find_field_index(key: &str) -> (r: Option<usize>)
    ensures
        r == field_index(key@),
{
    if same(key, "groups") {
        Some(0)
    } else if same(key, "managers") {
        Some(1)
    } else {
        None
    }
}

/// The list of a part.
pub open spec fn field_list(config: AronaConfigView, key: Seq<char>) -> Seq<i64> {
    if key == "groups"@ {
        config.groups
    } else {
        config.managers
    }
}

/// The configuration with another list for a part.
pub open spec fn with_list(config: AronaConfigView, key: Seq<char>, list: Seq<i64>) -> AronaConfigView {
    if key == "groups"@ {
        AronaConfigView { groups: list, ..config }
    } else {
        AronaConfigView { managers: list, ..config }
    }
}

fn list_of(config: &AronaConfig, key: &str) -> (r: Vec<i64>)
    ensures
        r@ == field_list(config@, key@),
{
    if same(key, "groups") {
        copy_ints(&config.groups)
    } else {
        copy_ints(&config.managers)
    }
}

fn set_list(config: &AronaConfig, key: &str, list: Vec<i64>) -> (r: AronaConfig)
    ensures
        r@ == with_list(config@, key@, list@),
{
    let mut r = config.copy();
    if same(key, "groups") {
        r.groups = list;
    } else {
        r.managers = list;
    }
    r
}

/// What is said of a key that is not there.
pub open spec fn unknown_field_text(key: Seq<char>) -> Seq<char> {
    "未找到配置项: "@ + key
}

/// What is said while there is no file.
pub open spec fn no_file_text() -> Seq<char> {
    "配置文件尚未初始化"@
}

fn unknown_field(key: &str) -> (r: String)
    ensures
        r@ == unknown_field_text(key@),
{
    let mut out = owned("未找到配置项: ");
    out.append(key);
    out
}

/// The reply to a change that was written.
pub open spec fn updated_text(key: Seq<char>, list: Seq<i64>, show_value: bool) -> Seq<char> {
    if show_value {
        "配置已更新: "@ + key + " = "@ + int_list_text(list)
    } else {
        "配置已更新: "@ + key
    }
}

/// The view of a change that is to be written, or of why there is none.
pub open spec fn change_view(r: Result<AronaConfig, String>) -> Result<AronaConfigView, Seq<char>> {
    match r {
        Ok(config) => Ok(config@),
        Err(reason) => Err(reason@),
    }
}

/// The configuration in force and where it stands.
#[derive(Debug)]
pub struct Settings {
    /// Where the configuration is written.
    pub file: Option<String>,
    pub config: AronaConfig,
    /// When the file was last changed, as far as it was read.
    pub last_modified: Option<u64>,
    /// Some configuration was put in force before.
    pub applied_once: bool,
    /// Changes of the file are no longer followed.
    pub closed: bool,
}

/// A configuration that is to be written, with the text of the file.
#[derive(Debug)]
pub struct Draft {
    config: AronaConfig,
    edition: String,
    feature_keys: String,
    ids: Vec<String>,
    text: String,
}

impl Draft {
    #[verifier::type_invariant]
    spec fn well_formed(self) -> bool {
        self.text@ == file_text(
            self.config,
            self.edition@,
            self.feature_keys@,
            texts(self.ids@),
        )
    }

    /// The configuration.
    pub closed spec fn held(&self) -> AronaConfig {
        self.config
    }

    /// The text of the file.
    pub closed spec fn written(&self) -> Seq<char> {
        self.text@
    }

    /// What the comments in the file name: what the program calls itself, the features,
    /// and the plugins.
    pub closed spec fn named(&self) -> (Seq<char>, Seq<char>, Seq<Seq<char>>) {
        (self.edition@, self.feature_keys@, texts(self.ids@))
    }

    /// A configuration that is to be written, with what the comments in the file name.
    pub fn new(config: AronaConfig, edition: &str, feature_keys: &str, ids: Vec<String>) -> (r:
        Draft)
        ensures
            r.held() == config,
            r.named() == (edition@, feature_keys@, texts(ids@)),
            r.written() == file_text(config, edition@, feature_keys@, texts(ids@)),
    {
        let text = template(&config, edition, feature_keys, &ids);
        Draft { config, edition: owned(edition), feature_keys: owned(feature_keys), ids, text }
    }

    /// The configuration.
    pub fn config(&self) -> (r: &AronaConfig)
        ensures
            *r == self.held(),
    {
        &self.config
    }

    /// The text to write.
    pub fn text(&self) -> (r: &str)
        ensures
            r@ == self.written(),
            r@ == file_text(self.held(), self.named().0, self.named().1, self.named().2),
    {
        proof {
            use_type_invariant(self);
        }
        self.text.as_str()
    }
}

/// Whether the text that was written is the file of the configuration in force.
pub open spec fn file_holds(draft: Draft, settings: Settings) -> bool {
    draft.written() == file_text(
        settings.config,
        draft.named().0,
        draft.named().1,
        draft.named().2,
    )
}

/// What a list becomes when a value is added, or why it does not.
pub open spec fn addition(settings: Settings, key: Seq<char>, value: i64) -> Result<
    AronaConfigView,
    Seq<char>,
> {
    let list = field_list(settings.config@, key);
    if field_index(key) is None {
        Err(unknown_field_text(key))
    } else if list.contains(value) {
        Err(key + " 已包含 "@ + decimal(value as int))
    } else if settings.file is None {
        Err(no_file_text())
    } else {
        Ok(with_list(settings.config@, key, list.push(value)))
    }
}

/// What a list becomes when a value is taken out, or why it does not.
pub open spec fn removal(settings: Settings, key: Seq<char>, value: i64) -> Result<
    AronaConfigView,
    Seq<char>,
> {
    let list = field_list(settings.config@, key);
    if field_index(key) is None {
        Err(unknown_field_text(key))
    } else if !list.contains(value) {
        Err(key + " 不包含 "@ + decimal(value as int))
    } else if settings.file is None {
        Err(no_file_text())
    } else {
        Ok(with_list(settings.config@, key, ints_without(list, value)))
    }
}

/// What a list becomes when it is given anew, or why it does not.
pub open spec fn replacement(
    settings: Settings,
    key: Seq<char>,
    parsed: Result<Seq<i64>, Seq<char>>,
) -> Result<AronaConfigView, Seq<char>> {
    if field_index(key) is None {
        Err(unknown_field_text(key))
    } else {
        match parsed {
            Err(reason) => Err(reason),
            Ok(list) => if settings.file is None {
                Err(no_file_text())
            } else {
                Ok(with_list(settings.config@, key, list))
            },
        }
    }
}

/// Whether a file that was last seen at one time has changed: its time is another one,
/// or it was never seen.
pub open spec fn file_changed(last: Option<u64>, now: Option<u64>) -> bool {
    match now {
        Some(now) => match last {
            Some(last) => now != last,
            None => true,
        },
        None => false,
    }
}

/// Whether a change of the file is noticed, given when it was last changed.
pub open spec fn noticed(settings: Settings, modified: Option<u64>) -> bool {
    !settings.closed && settings.file is Some && file_changed(settings.last_modified, modified)
}

impl Settings {
    /// Nothing is set, and there is no file.
    pub fn new() -> (r: Settings)
        ensures
            r.file is None,
            r.config@ == empty_config(),
            r.last_modified is None,
            !r.applied_once,
            !r.closed,
    {
        Settings {
            file: None,
            config: AronaConfig::empty(),
            last_modified: None,
            applied_once: false,
            closed: false,
        }
    }

    /// Binds the configuration to a file, and follows its changes from now on.
    pub fn init(&mut self, file: &str)
        ensures
            option_text(final(self).file) == Some(file@),
            *final(self) == (Settings {
                file: final(self).file,
                closed: false,
                ..*old(self)
            }),
    {
        self.file = Some(owned(file));
        self.closed = false;
    }

    /// Follows changes of the file no longer. The configuration stays in force, and can
    /// still be changed and written.
    pub fn close(&mut self)
        ensures
            final(self).closed,
            *final(self) == (Settings { closed: true, ..*old(self) }),
    {
        self.closed = true;
    }

    /// The text of the file for the configuration in force.
    pub fn text(&self, edition: &str, feature_keys: &str, ids: &Vec<String>) -> (r: String)
        ensures
            r@ == file_text(self.config, edition@, feature_keys@, texts(ids@)),
    {
        template(&self.config, edition, feature_keys, ids)
    }

    /// The configuration in force.
    pub fn config(&self) -> (r: &AronaConfig)
        ensures
            *r == self.config,
    {
        &self.config
    }

    /// Where the configuration is written.
    pub fn config_file(&self) -> (r: Option<String>)
        ensures
            option_text(r) == option_text(self.file),
    {
        match &self.file {
            Some(file) => Some(file.clone()),
            None => None,
        }
    }

    /// Puts a configuration in force. Tells whether the plugins are to follow: not at
    /// the first time, when they are not assembled yet.
    pub fn apply(
        &mut self,
        config: AronaConfig,
        gating: &mut Gating,
        health: &mut HealthBoard,
    ) -> (r: bool)
        ensures
            final(self).config == config,
            final(self).applied_once,
            final(self).file == old(self).file,
            final(self).last_modified == old(self).last_modified,
            final(self).closed == old(self).closed,
            final(gating).config@ == config@,
            final(gating).bot_id == old(gating).bot_id,
            final(health).limit() == config@.framework.panic_disable_threshold,
            final(health)@ == old(health)@,
            r == old(self).applied_once,
    {
        health.set_threshold(config.framework.panic_disable_threshold);
        gating.config = config.copy();
        self.config = config;
        let follow = self.applied_once;
        self.applied_once = true;
        follow
    }

    /// Takes in a configuration that was read from the file, and when the file was
    /// changed. A file that could not be read changes nothing. Tells whether the
    /// plugins are to follow.
    pub fn reload(
        &mut self,
        read: Result<AronaConfig, String>,
        modified: Option<u64>,
        gating: &mut Gating,
        health: &mut HealthBoard,
    ) -> (r: Result<bool, String>)
        ensures
            match read {
                Ok(config) => {
                    &&& r == Ok::<bool, String>(old(self).applied_once)
                    &&& final(self).config == config
                    &&& final(self).applied_once
                    &&& final(self).file == old(self).file
                    &&& final(self).closed == old(self).closed
                    &&& final(self).last_modified == match modified {
                        Some(time) => Some(time),
                        None => old(self).last_modified,
                    }
                    &&& final(gating).config@ == config@
                    &&& final(gating).bot_id == old(gating).bot_id
                    &&& final(health).limit() == config@.framework.panic_disable_threshold
                    &&& final(health)@ == old(health)@
                },
                Err(reason) => r is Err && r->Err_0@ == reason@ && *final(self) == *old(self)
                    && *final(gating) == *old(gating) && *final(health) == *old(health),
            },
    {
        match read {
            Ok(config) => {
                match modified {
                    Some(time) => {
                        self.last_modified = Some(time);
                    },
                    None => {},
                }
                Ok(self.apply(config, gating, health))
            },
            Err(reason) => Err(reason),
        }
    }

    /// Tells whether the file has to be read again, and notes when it was changed.
    pub fn poll(&mut self, modified: Option<u64>) -> (r: bool)
        ensures
            r == noticed(*old(self), modified),
            *final(self) == (Settings {
                last_modified: if r {
                    modified
                } else {
                    old(self).last_modified
                },
                ..*old(self)
            }),
    {
        if self.closed {
            return false;
        }
        match &self.file {
            Some(_) => {},
            None => {
                return false;
            },
        }
        let changed = match modified {
            Some(now) => match self.last_modified {
                Some(last) => now != last,
                None => true,
            },
            None => false,
        };
        if changed {
            self.last_modified = modified;
        }
        changed
    }

    /// Works out what a list becomes when it is given anew; `parsed` is what the given
    /// text reads as.
    pub fn update(&self, key: &str, parsed: Result<Vec<i64>, String>) -> (r: Result<
        AronaConfig,
        String,
    >)
        ensures
            change_view(r) == replacement(
                *self,
                key@,
                match parsed {
                    Ok(list) => Ok(list@),
                    Err(reason) => Err(reason@),
                },
            ),
    {
        match find_field_index(key) {
            Some(_) => {},
            None => {
                return Err(unknown_field(key));
            },
        }
        match parsed {
            Err(reason) => Err(reason),
            Ok(list) => match &self.file {
                None => Err(owned("配置文件尚未初始化")),
                Some(_) => Ok(set_list(&self.config, key, list)),
            },
        }
    }

    /// Works out what a list becomes when a value is added.
    pub fn add_to_list(&self, key: &str, value: i64) -> (r: Result<AronaConfig, String>)
        ensures
            change_view(r) == addition(*self, key@, value),
    {
        match find_field_index(key) {
            Some(_) => {},
            None => {
                return Err(unknown_field(key));
            },
        }
        let mut list = list_of(&self.config, key);
        if contains_int(&list, value) {
            let mut out = owned(key);
            out.append(" 已包含 ");
            out.append(i64_text(value).as_str());
            return Err(out);
        }
        match &self.file {
            None => Err(owned("配置文件尚未初始化")),
            Some(_) => {
                list.push(value);
                Ok(set_list(&self.config, key, list))
            },
        }
    }

    /// Works out what a list becomes when a value is taken out.
    pub fn remove_from_list(&self, key: &str, value: i64) -> (r: Result<AronaConfig, String>)
        ensures
            change_view(r) == removal(*self, key@, value),
    {
        match find_field_index(key) {
            Some(_) => {},
            None => {
                return Err(unknown_field(key));
            },
        }
        let list = list_of(&self.config, key);
        if !contains_int(&list, value) {
            let mut out = owned(key);
            out.append(" 不包含 ");
            out.append(i64_text(value).as_str());
            return Err(out);
        }
        match &self.file {
            None => Err(owned("配置文件尚未初始化")),
            Some(_) => Ok(set_list(&self.config, key, drop_int(&list, value))),
        }
    }

    /// Takes note of how the writing of a change went, puts the change in force if it
    /// went well, and gives the reply. Then the file and the program hold the same
    /// configuration. The second result tells whether the plugins are
    /// to follow.
    pub fn finish_change(
        &mut self,
        key: &str,
        draft: Draft,
        written: Result<(), String>,
        show_value: bool,
        gating: &mut Gating,
        health: &mut HealthBoard,
    ) -> (r: (String, bool))
        ensures
            match written {
                Ok(_) => {
                    &&& r.0@ == updated_text(key@, field_list(draft.held()@, key@), show_value)
                    &&& r.1 == old(self).applied_once
                    &&& final(self).config == draft.held()
                    &&& file_holds(draft, *final(self))
                    &&& final(self).applied_once
                    &&& final(self).file == old(self).file
                    &&& final(self).closed == old(self).closed
                    &&& final(self).last_modified == old(self).last_modified
                    &&& final(gating).config@ == draft.held()@
                    &&& final(gating).bot_id == old(gating).bot_id
                    &&& final(health).limit() == draft.held()@.framework.panic_disable_threshold
                    &&& final(health)@ == old(health)@
                },
                Err(reason) => r.0@ == "写入配置文件失败: "@ + reason@ && !r.1 && *final(self)
                    == *old(self) && *final(gating) == *old(gating) && *final(health) == *old(
                    health,
                ),
            },
    {
        match written {
            Err(reason) => {
                let mut out = owned("写入配置文件失败: ");
                out.append(reason.as_str());
                (out, false)
            },
            Ok(_) => {
                proof {
                    use_type_invariant(&draft);
                }
                let list = list_of(&draft.config, key);
                let follow = self.apply(draft.config, gating, health);
                let mut out = owned("配置已更新: ");
                out.append(key);
                if show_value {
                    out.append(" = ");
                    out.append(format_ints(&list).as_str());
                }
                (out, follow)
            },
        }
    }

    /// Takes note of how the writing of a change went, and puts the change in force if
    /// it went well: then the file and the program hold the same configuration. Tells whether the plugins are to follow.
    pub fn persist(
        &mut self,
        draft: Draft,
        written: Result<(), String>,
        gating: &mut Gating,
        health: &mut HealthBoard,
    ) -> (r: Result<bool, String>)
        ensures
            match written {
                Ok(_) => {
                    &&& r == Ok::<bool, String>(old(self).applied_once)
                    &&& final(self).config == draft.held()
                    &&& file_holds(draft, *final(self))
                    &&& final(self).applied_once
                    &&& final(self).file == old(self).file
                    &&& final(self).closed == old(self).closed
                    &&& final(self).last_modified == old(self).last_modified
                    &&& final(gating).config@ == draft.held()@
                    &&& final(gating).bot_id == old(gating).bot_id
                    &&& final(health).limit() == draft.held()@.framework.panic_disable_threshold
                    &&& final(health)@ == old(health)@
                },
                Err(reason) => r is Err && r->Err_0@ == "写入 arona.yml 失败: "@ + reason@
                    && *final(self) == *old(self) && *final(gating) == *old(gating)
                    && *final(health) == *old(health),
            },
    {
        match written {
            Err(reason) => {
                let mut out = owned("写入 arona.yml 失败: ");
                out.append(reason.as_str());
                Err(out)
            },
            Ok(_) => {
                proof {
                    use_type_invariant(&draft);
                }
                Ok(self.apply(draft.config, gating, health))
            },
        }
    }

    fn has_file(&self) -> (r: Result<(), String>)
        ensures
            match r {
                Ok(_) => self.file is Some,
                Err(reason) => self.file is None && reason@ == no_file_text(),
            },
    {
        match &self.file {
            Some(_) => Ok(()),
            None => Err(owned("配置文件尚未初始化")),
        }
    }

    /// Works out the configuration with a group on the list, or off it.
    pub fn set_group_enabled(&self, group_id: i64, enabled: bool) -> (r: Result<AronaConfig, String>)
        ensures
            match r {
                Ok(config) => self.file is Some && group_set(
                    self.config@,
                    config@,
                    group_id,
                    enabled,
                ),
                Err(reason) => self.file is None && reason@ == no_file_text(),
            },
    {
        match self.has_file() {
            Err(reason) => Err(reason),
            Ok(_) => Ok(with_group_enabled(&self.config, group_id, enabled)),
        }
    }

    /// Works out the configuration with a feature of a group on or off.
    pub fn set_group_feature(&self, group_id: i64, feature: &str, enabled: bool) -> (r: Result<
        AronaConfig,
        String,
    >)
        ensures
            match r {
                Ok(config) => self.file is Some && features_set(
                    self.config@,
                    config@,
                    group_id,
                    seq![feature@],
                    enabled,
                ),
                Err(reason) => self.file is None && reason@ == no_file_text(),
            },
    {
        let features: [&str; 1] = [feature];
        assert(names(features@) =~= seq![feature@]);
        self.set_group_features(group_id, &features, enabled)
    }

    /// Works out the configuration with features of a group on or off.
    pub fn set_group_features(&self, group_id: i64, features: &[&str], enabled: bool) -> (r: Result<
        AronaConfig,
        String,
    >)
        ensures
            match r {
                Ok(config) => self.file is Some && features_set(
                    self.config@,
                    config@,
                    group_id,
                    names(features@),
                    enabled,
                ),
                Err(reason) => self.file is None && reason@ == no_file_text(),
            },
    {
        match self.has_file() {
            Err(reason) => Err(reason),
            Ok(_) => Ok(with_group_features(&self.config, group_id, features, enabled)),
        }
    }

    /// Works out the configuration with a user on the blacklist of a group, or off it.
    pub fn set_group_blacklist(&self, group_id: i64, user_id: i64, listed: bool) -> (r: Result<
        AronaConfig,
        String,
    >)
        ensures
            match r {
                Ok(config) => self.file is Some && exists|list: Seq<i64>| #[trigger]
                    user_listed(
                        setting_or_empty(self.config@, group_id).blacklist,
                        list,
                        user_id,
                        listed,
                    ) && config@ == with_setting(
                        self.config@,
                        group_id,
                        GroupSettingView {
                            blacklist: list,
                            ..setting_or_empty(self.config@, group_id)
                        },
                    ),
                Err(reason) => self.file is None && reason@ == no_file_text(),
            },
    {
        match self.has_file() {
            Err(reason) => Err(reason),
            Ok(_) => Ok(with_group_blacklist(&self.config, group_id, user_id, listed)),
        }
    }

    /// Works out the configuration with a plugin on or off.
    pub fn set_plugin_enabled(&self, plugin: &str, enabled: bool) -> (r: Result<AronaConfig, String>)
        ensures
            match r {
                Ok(config) => self.file is Some && config@ == (AronaConfigView {
                    disabled_plugins: plugins_set(
                        self.config@.disabled_plugins,
                        plugin@,
                        enabled,
                    ),
                    ..self.config@
                }),
                Err(reason) => self.file is None && reason@ == no_file_text(),
            },
    {
        match self.has_file() {
            Err(reason) => Err(reason),
            Ok(_) => Ok(with_plugin_enabled(&self.config, plugin, enabled)),
        }
    }

    /// Works out the configuration with a plugin on or off in a group.
    pub fn set_group_plugin_enabled(&self, group_id: i64, plugin: &str, enabled: bool) -> (r: Result<
        AronaConfig,
        String,
    >)
        ensures
            match r {
                Ok(config) => self.file is Some && exists|list: Seq<Seq<char>>| #[trigger]
                    group_plugins_set(
                        setting_or_empty(self.config@, group_id).disabled_plugins,
                        list,
                        plugin@,
                        enabled,
                    ) && config@ == with_setting(
                        self.config@,
                        group_id,
                        GroupSettingView {
                            disabled_plugins: list,
                            ..setting_or_empty(self.config@, group_id)
                        },
                    ),
                Err(reason) => self.file is None && reason@ == no_file_text(),
            },
    {
        match self.has_file() {
            Err(reason) => Err(reason),
            Ok(_) => Ok(with_group_plugin_enabled(&self.config, group_id, plugin, enabled)),
        }
    }

    /// Works out the configuration with a user on the blacklist that holds everywhere,
    /// or off it.
    pub fn set_global_blacklist(&self, user_id: i64, listed: bool) -> (r: Result<
        AronaConfig,
        String,
    >)
        ensures
            match r {
                Ok(config) => self.file is Some && user_listed(
                    self.config@.global_blacklist,
                    config@.global_blacklist,
                    user_id,
                    listed,
                ) && config@ == (AronaConfigView {
                    global_blacklist: config@.global_blacklist,
                    ..self.config@
                }),
                Err(reason) => self.file is None && reason@ == no_file_text(),
            },
    {
        match self.has_file() {
            Err(reason) => Err(reason),
            Ok(_) => Ok(with_global_blacklist(&self.config, user_id, listed)),
        }
    }

    /// Works out the configuration without the setting of a group.
    pub fn clear_group_setting(&self, group_id: i64) -> (r: Result<AronaConfig, String>)
        ensures
            match r {
                Ok(config) => self.file is Some && config@ == (AronaConfigView {
                    group_settings: self.config@.group_settings.remove(decimal(group_id as int)),
                    ..self.config@
                }),
                Err(reason) => self.file is None && reason@ == no_file_text(),
            },
    {
        match self.has_file() {
            Err(reason) => Err(reason),
            Ok(_) => Ok(without_group_setting(&self.config, group_id)),
        }
    }

    /// Takes a group that the bot has left off the list. Tells whether it was on it, so
    /// that the list is to be written.
    pub fn remove_group_if_present(&mut self, group_id: i64) -> (r: bool)
        ensures
            r == old(self).config@.groups.contains(group_id),
            final(self).config@ == (AronaConfigView {
                groups: if r {
                    ints_without(old(self).config@.groups, group_id)
                } else {
                    old(self).config@.groups
                },
                ..old(self).config@
            }),
            *final(self) == (Settings { config: final(self).config, ..*old(self) }),
    {
        if !contains_int(&self.config.groups, group_id) {
            return false;
        }
        self.config.groups = drop_int(&self.config.groups, group_id);
        true
    }
}

/// Where the file is, unless another place is given.
pub fn default_file() -> (r: String)
    ensures
        r@ == "config/arona.yml"@,
{
    crate::config::arona::default_file()
}

/// After the changes of the file are followed no longer, no change of it is noticed, and
/// the configuration in force is the one before.
pub proof fn law_closed_settings_follow_no_file(before: Settings, after: Settings)
    requires
        after == (Settings { closed: true, ..before }),
    ensures
        forall|modified: Option<u64>| !#[trigger] noticed(after, modified),
        after.config == before.config,
{
}

/// A value that was added and is taken out again leaves the list as it was.
pub proof fn law_taking_out_undoes_adding(settings: Settings, key: Seq<char>, value: i64)
    requires
        addition(settings, key, value) is Ok,
    ensures
        ints_without(field_list(addition(settings, key, value)->Ok_0, key), value) == field_list(
            settings.config@,
            key,
        ),
{
    let list = field_list(settings.config@, key);
    let added = list.push(value);
    reveal_strlit("groups");
    reveal_strlit("managers");
    assert(added.drop_last() =~= list);
    lemma_absent_stays(list, value);
}

proof fn lemma_absent_stays(list: Seq<i64>, value: i64)
    requires
        !list.contains(value),
    ensures
        ints_without(list, value) == list,
    decreases list.len(),
{
    if list.len() > 0 {
        let head = list.drop_last();
        assert(!head.contains(value)) by {
            if head.contains(value) {
                let i = choose|i: int| 0 <= i < head.len() && head[i] == value;
                assert(list[i] == value);
            }
        }
        assert(list.last() == list[list.len() - 1]);
        lemma_absent_stays(head, value);
        assert(head.push(list.last()) =~= list);
    } else {
        assert(ints_without(list, value) =~= list);
    }
}

/// A value that is added stands at the end of the list that was named, and nothing else
/// changes; it is refused just where there is no such list, where the list has it, or
/// where there is no file.
pub proof fn law_additions_touch_one_list(settings: Settings, key: Seq<char>, value: i64)
    ensures
        ({
            let config = settings.config@;
            let list = if key == "groups"@ {
                config.groups
            } else {
                config.managers
            };
            let known = key == "groups"@ || key == "managers"@;
            match addition(settings, key, value) {
                Ok(after) => {
                    &&& known && !list.contains(value) && settings.file is Some
                    &&& key == "groups"@ ==> after.groups == list.push(value) && after.managers
                        == config.managers
                    &&& key == "managers"@ ==> after.managers == list.push(value) && after.groups
                        == config.groups
                    &&& after.global_blacklist == config.global_blacklist
                    &&& after.group_settings == config.group_settings
                    &&& after.disabled_plugins == config.disabled_plugins
                    &&& after.framework == config.framework && after.chatlog == config.chatlog
                },
                Err(reason) => {
                    &&& !known || list.contains(value) || settings.file is None
                    &&& !known ==> reason == "未找到配置项: "@ + key
                    &&& known && list.contains(value) ==> reason == key + " 已包含 "@ + decimal(
                        value as int,
                    )
                },
            }
        }),
{
    lemma_list_names_differ();
}

/// A value that is taken out is gone from the list that was named, every other value stays
/// and nothing else changes; it is refused just where there is no such list, where the
/// list does not have it, or where there is no file.
pub proof fn law_removals_touch_one_list(
    settings: Settings,
    key: Seq<char>,
    value: i64,
)
    ensures
        ({
            let config = settings.config@;
            let list = if key == "groups"@ {
                config.groups
            } else {
                config.managers
            };
            let known = key == "groups"@ || key == "managers"@;
            let kept = list.filter(|n: i64| n != value);
            match removal(settings, key, value) {
                Ok(after) => {
                    &&& known && list.contains(value) && settings.file is Some
                    &&& key == "groups"@ ==> after.groups == kept && after.managers
                        == config.managers
                    &&& key == "managers"@ ==> after.managers == kept && after.groups
                        == config.groups
                    &&& after.global_blacklist == config.global_blacklist
                    &&& after.group_settings == config.group_settings
                    &&& after.disabled_plugins == config.disabled_plugins
                    &&& after.framework == config.framework && after.chatlog == config.chatlog
                },
                Err(reason) => {
                    &&& !known || !list.contains(value) || settings.file is None
                    &&& !known ==> reason == "未找到配置项: "@ + key
                    &&& known && !list.contains(value) ==> reason == key + " 不包含 "@ + decimal(
                        value as int,
                    )
                },
            }
        }),
{
    lemma_list_names_differ();
    let config = settings.config@;
    crate::config::edit::law_the_rest_of_a_list_stays(
        config.groups,
        value,
        Seq::empty(),
        Seq::empty(),
    );
    crate::config::edit::law_the_rest_of_a_list_stays(
        config.managers,
        value,
        Seq::empty(),
        Seq::empty(),
    );
}

/// A list that is given anew is the one that was given, and nothing else changes.
pub proof fn law_replacements_touch_one_list(settings: Settings, key: Seq<char>, list: Seq<i64>)
    ensures
        ({
            let config = settings.config@;
            let known = key == "groups"@ || key == "managers"@;
            match replacement(settings, key, Ok(list)) {
                Ok(after) => {
                    &&& known && settings.file is Some
                    &&& key == "groups"@ ==> after.groups == list && after.managers
                        == config.managers
                    &&& key == "managers"@ ==> after.managers == list && after.groups
                        == config.groups
                    &&& after.global_blacklist == config.global_blacklist
                    &&& after.group_settings == config.group_settings
                    &&& after.disabled_plugins == config.disabled_plugins
                    &&& after.framework == config.framework && after.chatlog == config.chatlog
                },
                Err(_) => !known || settings.file is None,
            }
        }),
{
    lemma_list_names_differ();
}

proof fn lemma_list_names_differ()
    ensures
        "groups"@ != "managers"@,
{
    reveal_strlit("groups");
    reveal_strlit("managers");
    assert("groups"@.len() == 6 && "managers"@.len() == 8);
}

/// A change of the file is noticed where its time is another one than it was, while the
/// file is followed.
pub proof fn law_changes_of_the_file_are_noticed(settings: Settings, was: u64, now: u64)
    requires
        !settings.closed,
        settings.file is Some,
        settings.last_modified == Some(was),
    ensures
        noticed(settings, Some(now)) <==> now != was,
        !noticed(settings, None),
        noticed(Settings { last_modified: None, ..settings }, Some(now)),
        !noticed(Settings { file: None, ..settings }, Some(now)),
{
}

/// The reply to a change names the list, and its value where that is shown: other values
/// make another reply.
pub proof fn law_replies_show_the_value(key: Seq<char>, a: Seq<i64>, b: Seq<i64>)
    ensures
        updated_text(key, a, true) == updated_text(key, b, true) <==> a == b,
        updated_text(key, a, false) == updated_text(key, b, false),
{
    if updated_text(key, a, true) == updated_text(key, b, true) {
        let start = "配置已更新: "@ + key + " = "@;
        let none = Seq::<char>::empty();
        crate::text::lemma_same_start(start, int_list_text(a), int_list_text(b));
        assert(int_list_text(a) + none =~= int_list_text(a));
        assert(int_list_text(b) + none =~= int_list_text(b));
        crate::text::law_lists_of_numbers_read_back(a, none, b, none);
    }
}

} // verus!
