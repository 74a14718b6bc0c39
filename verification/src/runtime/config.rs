//! Who is answered, and which plugins and features are on.
use crate::config::arona::{
    contains_int, empty_config, AronaConfig, AronaConfigView, GroupSetting, GroupSettingView,
};
use crate::text::{
    decimal, equal_ignoring_case, i64_text, law_decimals_tell_numbers_apart, same_ignoring_case,
    texts,
};
use vstd::prelude::*;

verus! {

/// Whether an id is in a list of ids, whatever the case.
pub open spec fn names_id(list: Seq<Seq<char>>, id: Seq<char>) -> bool {
    exists|i: int| 0 <= i < list.len() && same_ignoring_case(#[trigger] list[i], id)
}

/// Tests whether an id is in a list of ids, whatever the case.
pub fn contains_id(list: &Vec<String>, id: &str) -> (r: bool)
    ensures
        r == names_id(texts(list@), id@),
{
    let ghost all = texts(list@);
    let mut i: usize = 0;
    while i < list.len()
        invariant
            i <= list@.len(),
            all == texts(list@),
            forall|k: int| 0 <= k < i ==> !same_ignoring_case(#[trigger] all[k], id@),
        decreases list@.len() - i,
    {
        assert(all[i as int] == list@[i as int]@);
        if equal_ignoring_case(list[i].as_str(), id) {
            return true;
        }
        i = i + 1;
    }
    false
}

/// What is set for a group.
pub open spec fn setting_of(config: AronaConfigView, group_id: i64) -> Option<GroupSettingView> {
    if config.group_settings.contains_key(decimal(group_id as int)) {
        Some(config.group_settings[decimal(group_id as int)])
    } else {
        None
    }
}

/// Whether a plugin is on.
pub open spec fn plugin_on(config: AronaConfigView, id: Seq<char>) -> bool {
    !names_id(config.disabled_plugins, id)
}

/// Whether a plugin is on in a group. Outside groups it is.
pub open spec fn plugin_on_in_group(
    config: AronaConfigView,
    id: Seq<char>,
    group_id: Option<i64>,
) -> bool {
    match group_id {
        Some(group_id) => match setting_of(config, group_id) {
            Some(setting) => !names_id(setting.disabled_plugins, id),
            None => true,
        },
        None => true,
    }
}

/// Whether a feature is on in a group. Outside groups it is, and so is the empty
/// feature.
pub open spec fn feature_on(
    config: AronaConfigView,
    group_id: Option<i64>,
    feature: Seq<char>,
) -> bool {
    feature.len() == 0 || match group_id {
        Some(group_id) => match setting_of(config, group_id) {
            Some(setting) => !setting.disabled_features.contains(feature),
            None => true,
        },
        None => true,
    }
}

/// Whether a user is on the blacklist, everywhere or in the group.
pub open spec fn blacklisted(
    config: AronaConfigView,
    user_id: i64,
    group_id: Option<i64>,
) -> bool {
    config.global_blacklist.contains(user_id) || match group_id {
        Some(group_id) => match setting_of(config, group_id) {
            Some(setting) => setting.blacklist.contains(user_id),
            None => false,
        },
        None => false,
    }
}

/// Whether the bot answers in a group: in all of them where none is listed, and
/// always outside groups.
pub open spec fn group_allowed(config: AronaConfigView, group_id: Option<i64>) -> bool {
    match group_id {
        Some(group_id) => config.groups.len() == 0 || config.groups.contains(group_id),
        None => true,
    }
}

/// Whether a message from a user is answered: a manager's always, another user's
/// where the group is allowed and the user is not on a blacklist.
pub open spec fn answers(config: AronaConfigView, user_id: i64, group_id: Option<i64>) -> bool {
    config.managers.contains(user_id) || (group_allowed(config, group_id) && !blacklisted(
        config,
        user_id,
        group_id,
    ))
}

/// The configuration in force, and the number of the bot.
#[derive(Debug)]
pub struct Gating {
    pub config: AronaConfig,
    pub bot_id: i64,
}

impl Gating {
    /// Everything is on and nobody is on a blacklist.
    pub fn new() -> (r: Gating)
        ensures
            r.config@ == empty_config(),
            r.bot_id == 0,
    {
        Gating { config: AronaConfig::empty(), bot_id: 0 }
    }

    fn setting(&self, group_id: i64) -> (r: Option<&GroupSetting>)
        ensures
            match r {
                Some(setting) => setting_of(self.config@, group_id) == Some(setting@),
                None => setting_of(self.config@, group_id) is None,
            },
    {
        let key = i64_text(group_id);
        self.config.group_settings.get(key.as_str())
    }

    /// Whether a plugin is on.
    pub fn plugin_enabled(&self, id: &str) -> (r: bool)
        ensures
            r == plugin_on(self.config@, id@),
    {
        !contains_id(&self.config.disabled_plugins, id)
    }

    /// Whether a plugin is on in a group.
    pub fn plugin_enabled_in_group(&self, id: &str, group_id: Option<i64>) -> (r: bool)
        ensures
            r == plugin_on_in_group(self.config@, id@, group_id),
    {
        match group_id {
            Some(group_id) => match self.setting(group_id) {
                Some(setting) => !contains_id(&setting.disabled_plugins, id),
                None => true,
            },
            None => true,
        }
    }

    /// Whether a feature is on in a group.
    pub fn feature_enabled(&self, group_id: Option<i64>, feature: &str) -> (r: bool)
        ensures
            r == feature_on(self.config@, group_id, feature@),
    {
        if feature.is_empty() {
            return true;
        }
        match group_id {
            Some(group_id) => match self.setting(group_id) {
                Some(setting) => setting.feature_enabled(feature),
                None => true,
            },
            None => true,
        }
    }

    /// Whether a user manages the bot.
    pub fn is_manager(&self, user_id: i64) -> (r: bool)
        ensures
            r == self.config@.managers.contains(user_id),
    {
        contains_int(&self.config.managers, user_id)
    }

    /// Whether a user is on the blacklist, everywhere or in the group.
    pub fn is_blacklisted(&self, user_id: i64, group_id: Option<i64>) -> (r: bool)
        ensures
            r == blacklisted(self.config@, user_id, group_id),
    {
        if contains_int(&self.config.global_blacklist, user_id) {
            return true;
        }
        match group_id {
            Some(group_id) => match self.setting(group_id) {
                Some(setting) => contains_int(&setting.blacklist, user_id),
                None => false,
            },
            None => false,
        }
    }

    /// Whether the bot answers in a group.
    pub fn is_allowed_group(&self, group_id: Option<i64>) -> (r: bool)
        ensures
            r == group_allowed(self.config@, group_id),
    {
        match group_id {
            Some(group_id) => self.config.groups.len() == 0 || contains_int(
                &self.config.groups,
                group_id,
            ),
            None => true,
        }
    }

    /// Whether a message from a user is answered.
    pub fn answers(&self, user_id: i64, group_id: Option<i64>) -> (r: bool)
        ensures
            r == answers(self.config@, user_id, group_id),
    {
        self.is_manager(user_id) || (self.is_allowed_group(group_id) && !self.is_blacklisted(
            user_id,
            group_id,
        ))
    }

    /// Turns a plugin off.
    pub fn disable_plugin(&mut self, id: &str)
        ensures
            final(self).config@ == (AronaConfigView {
                disabled_plugins: if old(self).config@.disabled_plugins.contains(id@) {
                    old(self).config@.disabled_plugins
                } else {
                    old(self).config@.disabled_plugins.push(id@)
                },
                ..old(self).config@
            }),
            final(self).bot_id == old(self).bot_id,
            !plugin_on(final(self).config@, id@),
    {
        let ghost before = texts(self.config.disabled_plugins@);
        proof {
            crate::config::section::lemma_lists_is_contains(self.config.disabled_plugins@, id@);
        }
        if !crate::text::contains_text(&self.config.disabled_plugins, id) {
            self.config.disabled_plugins.push(crate::text::owned(id));
            assert(texts(self.config.disabled_plugins@) =~= before.push(id@));
            assert(self.config@.disabled_plugins[before.len() as int] == id@);
        } else {
            let ghost i = choose|i: int| 0 <= i < before.len() && before[i] == id@;
            assert(self.config@.disabled_plugins[i] == id@);
        }
    }
}

/// A manager is answered everywhere, whatever the groups and blacklists say.
pub proof fn law_managers_are_always_answered(
    config: AronaConfigView,
    user_id: i64,
    group_id: Option<i64>,
)
    requires
        config.managers.contains(user_id),
    ensures
        answers(config, user_id, group_id),
{
}

/// Where no group is listed, every group is answered.
pub proof fn law_no_groups_means_all_groups(
    config: AronaConfigView,
    user_id: i64,
    group_id: i64,
)
    requires
        config.groups.len() == 0,
        !blacklisted(config, user_id, Some(group_id)),
    ensures
        answers(config, user_id, Some(group_id)),
{
}

/// A user on the blacklist of one group is still answered in another, unless the
/// blacklist for all places or that group's own names the user.
pub proof fn law_group_blacklist_stays_in_the_group(
    config: AronaConfigView,
    user_id: i64,
    other: i64,
)
    requires
        group_allowed(config, Some(other)),
        !config.global_blacklist.contains(user_id),
        setting_of(config, other) matches Some(setting) ==> !setting.blacklist.contains(user_id),
    ensures
        answers(config, user_id, Some(other)),
{
}

/// A plugin or a feature that a group's own setting does not switch off is on there, and
/// one that it switches off is off there and nowhere else.
pub proof fn law_switches_stay_in_the_group(
    config: AronaConfigView,
    group_id: i64,
    other: i64,
    id: Seq<char>,
    feature: Seq<char>,
    setting: GroupSettingView,
)
    requires
        other != group_id,
        feature.len() > 0,
    ensures
        ({
            let changed = AronaConfigView {
                group_settings: config.group_settings.insert(decimal(group_id as int), setting),
                ..config
            };
            &&& setting.disabled_features.contains(feature) <==> !feature_on(
                changed,
                Some(group_id),
                feature,
            )
            &&& names_id(setting.disabled_plugins, id) <==> !plugin_on_in_group(
                changed,
                id,
                Some(group_id),
            )
            &&& feature_on(changed, Some(other), feature) == feature_on(
                config,
                Some(other),
                feature,
            )
            &&& plugin_on_in_group(changed, id, Some(other)) == plugin_on_in_group(
                config,
                id,
                Some(other),
            )
            &&& feature_on(changed, None, feature) && plugin_on_in_group(changed, id, None)
            &&& feature_on(changed, Some(group_id), Seq::empty())
        }),
{
    law_decimals_tell_numbers_apart(other as int, group_id as int);
}

/// A plugin is off just where the list names it, whatever the case of its letters, and
/// putting it on the list switches off no plugin with another name.
pub proof fn law_listed_plugins_are_off(
    config: AronaConfigView,
    id: Seq<char>,
    other: Seq<char>,
)
    ensures
        ({
            let changed = AronaConfigView {
                disabled_plugins: config.disabled_plugins.push(id),
                ..config
            };
            &&& !plugin_on(changed, id)
            &&& !same_ignoring_case(id, other) ==> plugin_on(changed, other) == plugin_on(
                config,
                other,
            )
        }),
        config.disabled_plugins.len() == 0 ==> plugin_on(config, id),
{
    let list = config.disabled_plugins;
    let longer = list.push(id);
    assert(longer[list.len() as int] == id);
    if !same_ignoring_case(id, other) {
        if names_id(list, other) {
            let i = choose|i: int|
                0 <= i < list.len() && same_ignoring_case(#[trigger] list[i], other);
            assert(longer[i] == list[i]);
        }
        if names_id(longer, other) {
            let i = choose|i: int|
                0 <= i < longer.len() && same_ignoring_case(#[trigger] longer[i], other);
            assert(list[i] == longer[i]);
        }
    }
}

/// While nothing is configured everybody is answered everywhere, every plugin and every
/// feature is on, and messages are kept for two days.
pub proof fn law_nothing_configured_keeps_nobody_out(
    user_id: i64,
    group_id: Option<i64>,
    id: Seq<char>,
    feature: Seq<char>,
)
    ensures
        answers(empty_config(), user_id, group_id),
        !blacklisted(empty_config(), user_id, group_id),
        plugin_on(empty_config(), id),
        plugin_on_in_group(empty_config(), id, group_id),
        feature_on(empty_config(), group_id, feature),
        !empty_config().managers.contains(user_id),
        empty_config().chatlog.enable && empty_config().chatlog.keep_days == 2,
        empty_config().chatlog.purge_interval_days == 4,
        empty_config().chatlog.quote_ttl_minutes == 30,
        empty_config().framework.panic_disable_threshold == 5,
        !empty_config().framework.prefix_match_by_default,
{
}

} // verus!
