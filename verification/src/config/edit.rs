//! Changes of the framework's configuration.
use crate::collections::{
    has_key, lemma_entry_in_map, sort_ints, sort_texts, sorts_ints, sorts_texts, TextMap,
};
use crate::config::arona::{
    contains_int, copy_ints, empty_setting, settings_view, AronaConfig, AronaConfigView,
    GroupSetting, GroupSettingView,
};
use crate::plugin::description::names;
use crate::runtime::config::{
    blacklisted, feature_on, group_allowed, names_id, plugin_on, plugin_on_in_group, setting_of,
};
use crate::text::{
    copy_texts, decimal, equal_ignoring_case, i64_text, law_decimal_reads_back, lower, owned,
    same, same_ignoring_case, texts,
};
use vstd::prelude::*;

verus! {

// ---------------------------------------------------------------------------
// lists without some of their items

/// The numbers but one.
pub open spec fn ints_without(list: Seq<i64>, n: i64) -> Seq<i64>
    decreases list.len(),
{
    if list.len() == 0 {
        Seq::empty()
    } else if list.last() == n {
        ints_without(list.drop_last(), n)
    } else {
        ints_without(list.drop_last(), n).push(list.last())
    }
}

/// The texts but one.
pub open spec fn texts_without(list: Seq<Seq<char>>, text: Seq<char>) -> Seq<Seq<char>>
    decreases list.len(),
{
    if list.len() == 0 {
        Seq::empty()
    } else if list.last() == text {
        texts_without(list.drop_last(), text)
    } else {
        texts_without(list.drop_last(), text).push(list.last())
    }
}

/// The ids but one, whatever the case.
pub open spec fn ids_without(list: Seq<Seq<char>>, id: Seq<char>) -> Seq<Seq<char>>
    decreases list.len(),
{
    if list.len() == 0 {
        Seq::empty()
    } else if same_ignoring_case(list.last(), id) {
        ids_without(list.drop_last(), id)
    } else {
        ids_without(list.drop_last(), id).push(list.last())
    }
}

/// The numbers but one.
pub fn drop_int(list: &Vec<i64>, n: i64) -> (r: Vec<i64>)
    ensures
        r@ == ints_without(list@, n),
{
    let ghost all = list@;
    let mut out: Vec<i64> = Vec::new();
    let mut i: usize = 0;
    while i < list.len()
        invariant
            i <= list@.len(),
            all == list@,
            out@ == ints_without(all.take(i as int), n),
        decreases list@.len() - i,
    {
        assert(all.take(i + 1).drop_last() =~= all.take(i as int));
        if list[i] != n {
            out.push(list[i]);
        }
        i = i + 1;
    }
    assert(all.take(all.len() as int) =~= all);
    out
}

fn drop_text(list: &Vec<String>, text: &str) -> (r: Vec<String>)
    ensures
        texts(r@) == texts_without(texts(list@), text@),
{
    let ghost all = texts(list@);
    let mut out: Vec<String> = Vec::new();
    let mut i: usize = 0;
    assert(texts(out@) =~= texts_without(all.take(0), text@));
    while i < list.len()
        invariant
            i <= list@.len(),
            all == texts(list@),
            texts(out@) == texts_without(all.take(i as int), text@),
        decreases list@.len() - i,
    {
        assert(all.take(i + 1).drop_last() =~= all.take(i as int));
        let ghost before = out@;
        if !same(list[i].as_str(), text) {
            let item = list[i].clone();
            out.push(item);
            assert(texts(out@) =~= texts(before).push(item@));
        }
        i = i + 1;
    }
    assert(all.take(all.len() as int) =~= all);
    out
}

fn drop_id(list: &Vec<String>, id: &str) -> (r: Vec<String>)
    ensures
        texts(r@) == ids_without(texts(list@), id@),
{
    let ghost all = texts(list@);
    let mut out: Vec<String> = Vec::new();
    let mut i: usize = 0;
    assert(texts(out@) =~= ids_without(all.take(0), id@));
    while i < list.len()
        invariant
            i <= list@.len(),
            all == texts(list@),
            texts(out@) == ids_without(all.take(i as int), id@),
        decreases list@.len() - i,
    {
        assert(all.take(i + 1).drop_last() =~= all.take(i as int));
        let ghost before = out@;
        if !equal_ignoring_case(list[i].as_str(), id) {
            let item = list[i].clone();
            out.push(item);
            assert(texts(out@) =~= texts(before).push(item@));
        }
        i = i + 1;
    }
    assert(all.take(all.len() as int) =~= all);
    out
}

/// The list with one more item.
fn with_text(list: Vec<String>, text: &str) -> (r: Vec<String>)
    ensures
        texts(r@) == texts(list@).push(text@),
{
    let mut out = list;
    let ghost before = out@;
    out.push(owned(text));
    assert(texts(out@) =~= texts(before).push(text@));
    out
}

// ---------------------------------------------------------------------------
// the settings of groups

/// What is set for a group; nothing where it has no setting.
pub open spec fn setting_or_empty(config: AronaConfigView, group_id: i64) -> GroupSettingView {
    match setting_of(config, group_id) {
        Some(setting) => setting,
        None => empty_setting(),
    }
}

/// The settings that say something.
pub open spec fn normalized(settings: Map<Seq<char>, GroupSettingView>) -> Map<
    Seq<char>,
    GroupSettingView,
> {
    Map::new(
        |key: Seq<char>| settings.contains_key(key) && settings[key] != empty_setting(),
        |key: Seq<char>| settings[key],
    )
}

/// The configuration with another setting for a group; settings that say nothing are
/// dropped.
pub open spec fn with_setting(
    config: AronaConfigView,
    group_id: i64,
    setting: GroupSettingView,
) -> AronaConfigView {
    AronaConfigView {
        group_settings: normalized(
            config.group_settings.insert(decimal(group_id as int), setting),
        ),
        ..config
    }
}

/// Drops the settings that say nothing.
fn normalize(settings: &mut TextMap<GroupSetting>)
    ensures
        settings_view(final(settings)@) == normalized(settings_view(old(settings)@)),
{
    let listed = settings.entries();
    let ghost all = listed@;
    let total: usize = settings.len();
    let ghost start = settings@;
    let mut seen: usize = 0;
    let mut i: usize = 0;
    while seen < total
        invariant
            seen <= total,
            total == all.len(),
            i <= seen,
            settings.listed().len() == all.len() - (seen - i),
            forall|k: int|
                seen <= k < all.len() ==> settings.listed()[k - (seen - i)] == #[trigger] all[k],
            forall|name: Seq<char>| #[trigger]
                settings@.contains_key(name) ==> start.contains_key(name) && settings@[name]
                    == start[name],
            forall|name: Seq<char>| #[trigger]
                start.contains_key(name) && !settings@.contains_key(name) ==> start[name]@
                    == empty_setting(),
            forall|k: int|
                0 <= k < i ==> (#[trigger] settings.listed()[k]).1@ != empty_setting(),
        decreases total - seen,
    {
        assert(settings.listed()[i as int] == all[seen as int]);
        let ghost before = settings.listed();
        let entries = settings.entries();
        if entries[i].1.is_empty() {
            let _ = settings.remove_at(i);
            seen = seen + 1;
            assert forall|k: int| seen <= k < all.len() implies settings.listed()[k - (seen - i)]
                == #[trigger] all[k] by {
                assert(before[k - (seen - 1 - i)] == all[k]);
            }
        } else {
            i = i + 1;
            seen = seen + 1;
        }
    }
    let entries = settings.entries();
    proof {
        assert forall|name: Seq<char>| #[trigger] settings@.contains_key(name) implies
            settings@[name]@ != empty_setting() by {
            assert(has_key(entries@, name));
            let k = choose|k: int| 0 <= k < entries@.len() && (#[trigger] entries@[k]).0@ == name;
            lemma_entry_in_map(entries@, k);
        }
        assert(settings_view(settings@) =~= normalized(settings_view(start)));
    }
}

fn current_setting(config: &AronaConfig, group_id: i64) -> (r: GroupSetting)
    ensures
        r@ == setting_or_empty(config@, group_id),
{
    match config.group_settings.get(i64_text(group_id).as_str()) {
        Some(setting) => setting.copy(),
        None => GroupSetting::empty(),
    }
}

fn replace_setting(config: &AronaConfig, group_id: i64, setting: GroupSetting) -> (r: AronaConfig)
    ensures
        r@ == with_setting(config@, group_id, setting@),
{
    let mut r = config.copy();
    let ghost before = r.group_settings@;
    r.group_settings.insert(i64_text(group_id), setting);
    proof {
        assert(settings_view(r.group_settings@) =~= settings_view(before).insert(
            decimal(group_id as int),
            setting@,
        ));
    }
    normalize(&mut r.group_settings);
    r
}

// ---------------------------------------------------------------------------
// the changes

/// The features that are off after some of them were turned on or off.
pub open spec fn edited_features(
    list: Seq<Seq<char>>,
    features: Seq<Seq<char>>,
    enabled: bool,
) -> Seq<Seq<char>>
    decreases features.len(),
{
    if features.len() == 0 {
        list
    } else {
        let head = edited_features(list, features.drop_last(), enabled);
        let kept = texts_without(head, features.last());
        if enabled {
            kept
        } else {
            kept.push(features.last())
        }
    }
}

/// Whether features of a group were turned on or off: those that are off stand in
/// order.
pub open spec fn features_set(
    before: AronaConfigView,
    after: AronaConfigView,
    group_id: i64,
    features: Seq<Seq<char>>,
    enabled: bool,
) -> bool {
    exists|sorted: Seq<Seq<char>>| #[trigger]
        sorts_texts(
            sorted,
            edited_features(
                setting_or_empty(before, group_id).disabled_features,
                features,
                enabled,
            ),
        ) && after == with_setting(
            before,
            group_id,
            GroupSettingView {
                disabled_features: sorted,
                ..setting_or_empty(before, group_id)
            },
        )
}

/// Whether a group was put on the list, in order, or taken off it.
pub open spec fn group_set(
    before: AronaConfigView,
    after: AronaConfigView,
    group_id: i64,
    enabled: bool,
) -> bool {
    &&& after == (AronaConfigView { groups: after.groups, ..before })
    &&& if !enabled {
        after.groups == ints_without(before.groups, group_id)
    } else if before.groups.contains(group_id) {
        after.groups == before.groups
    } else {
        sorts_ints(after.groups, before.groups.push(group_id))
    }
}

/// Whether a user was put on a blacklist, in order, or taken off it.
pub open spec fn user_listed(
    before: Seq<i64>,
    after: Seq<i64>,
    user_id: i64,
    listed: bool,
) -> bool {
    if listed {
        sorts_ints(after, ints_without(before, user_id).push(user_id))
    } else {
        after == ints_without(before, user_id)
    }
}

/// The plugins that are off after one was turned on or off.
pub open spec fn plugins_set(before: Seq<Seq<char>>, id: Seq<char>, enabled: bool) -> Seq<
    Seq<char>,
> {
    if enabled {
        ids_without(before, id)
    } else {
        ids_without(before, id).push(id)
    }
}

/// Puts a group on the list, or takes it off.
pub fn with_group_enabled(config: &AronaConfig, group_id: i64, enabled: bool) -> (r: AronaConfig)
    ensures
        group_set(config@, r@, group_id, enabled),
{
    let mut r = config.copy();
    if enabled {
        if !contains_int(&config.groups, group_id) {
            let mut groups = copy_ints(&config.groups);
            groups.push(group_id);
            r.groups = sort_ints(&groups);
        }
    } else {
        r.groups = drop_int(&config.groups, group_id);
    }
    r
}

/// Turns features of a group on or off.
pub fn with_group_features(
    config: &AronaConfig,
    group_id: i64,
    features: &[&str],
    enabled: bool,
) -> (r: AronaConfig)
    ensures
        features_set(config@, r@, group_id, names(features@), enabled),
{
    let mut setting = current_setting(config, group_id);
    let ghost before = setting@;
    let ghost all = names(features@);
    let mut list = copy_texts(&setting.disabled_features);
    let mut i: usize = 0;
    assert(all.take(0) =~= Seq::<Seq<char>>::empty());
    while i < features.len()
        invariant
            i <= features@.len(),
            all == names(features@),
            texts(list@) == edited_features(
                before.disabled_features,
                all.take(i as int),
                enabled,
            ),
        decreases features@.len() - i,
    {
        assert(all.take(i + 1).drop_last() =~= all.take(i as int));
        assert(all.take(i + 1).last() == features@[i as int]@);
        list = drop_text(&list, features[i]);
        if !enabled {
            list = with_text(list, features[i]);
        }
        i = i + 1;
    }
    assert(all.take(all.len() as int) =~= all);
    setting.disabled_features = sort_texts(&list);
    replace_setting(config, group_id, setting)
}

/// Puts a user on the blacklist of a group, or takes them off.
pub fn with_group_blacklist(
    config: &AronaConfig,
    group_id: i64,
    user_id: i64,
    listed: bool,
) -> (r: AronaConfig)
    ensures
        exists|list: Seq<i64>| #[trigger]
            user_listed(setting_or_empty(config@, group_id).blacklist, list, user_id, listed)
                && r@ == with_setting(
                config@,
                group_id,
                GroupSettingView { blacklist: list, ..setting_or_empty(config@, group_id) },
            ),
{
    let mut setting = current_setting(config, group_id);
    let ghost before = setting@;
    let mut list = drop_int(&setting.blacklist, user_id);
    if listed {
        list.push(user_id);
        list = sort_ints(&list);
    }
    assert(user_listed(before.blacklist, list@, user_id, listed));
    setting.blacklist = list;
    replace_setting(config, group_id, setting)
}

/// Turns a plugin on or off.
pub fn with_plugin_enabled(config: &AronaConfig, plugin: &str, enabled: bool) -> (r: AronaConfig)
    ensures
        r@ == (AronaConfigView {
            disabled_plugins: plugins_set(config@.disabled_plugins, plugin@, enabled),
            ..config@
        }),
{
    let mut r = config.copy();
    let kept = drop_id(&config.disabled_plugins, plugin);
    r.disabled_plugins = if enabled {
        kept
    } else {
        with_text(kept, plugin)
    };
    r
}

/// Turns a plugin on or off in a group; those that are off stand in order once one is
/// added.
pub fn with_group_plugin_enabled(
    config: &AronaConfig,
    group_id: i64,
    plugin: &str,
    enabled: bool,
) -> (r: AronaConfig)
    ensures
        exists|list: Seq<Seq<char>>| #[trigger]
            group_plugins_set(
                setting_or_empty(config@, group_id).disabled_plugins,
                list,
                plugin@,
                enabled,
            ) && r@ == with_setting(
                config@,
                group_id,
                GroupSettingView { disabled_plugins: list, ..setting_or_empty(config@, group_id) },
            ),
{
    let mut setting = current_setting(config, group_id);
    let ghost before = setting@;
    let mut list = drop_id(&setting.disabled_plugins, plugin);
    if !enabled {
        list = with_text(list, plugin);
        list = sort_texts(&list);
    }
    assert(group_plugins_set(before.disabled_plugins, texts(list@), plugin@, enabled));
    setting.disabled_plugins = list;
    replace_setting(config, group_id, setting)
}

/// Whether a plugin was turned on or off in a list of those that are off.
pub open spec fn group_plugins_set(
    before: Seq<Seq<char>>,
    after: Seq<Seq<char>>,
    id: Seq<char>,
    enabled: bool,
) -> bool {
    if enabled {
        after == ids_without(before, id)
    } else {
        sorts_texts(after, ids_without(before, id).push(id))
    }
}

/// Puts a user on the blacklist that holds everywhere, or takes them off.
pub fn with_global_blacklist(config: &AronaConfig, user_id: i64, listed: bool) -> (r: AronaConfig)
    ensures
        user_listed(config@.global_blacklist, r@.global_blacklist, user_id, listed),
        r@ == (AronaConfigView { global_blacklist: r@.global_blacklist, ..config@ }),
{
    let mut r = config.copy();
    let mut list = drop_int(&config.global_blacklist, user_id);
    if listed {
        list.push(user_id);
        list = sort_ints(&list);
    }
    r.global_blacklist = list;
    r
}

/// Forgets what is set for a group.
pub fn without_group_setting(config: &AronaConfig, group_id: i64) -> (r: AronaConfig)
    ensures
        r@ == (AronaConfigView {
            group_settings: config@.group_settings.remove(decimal(group_id as int)),
            ..config@
        }),
{
    let mut r = config.copy();
    let ghost before = r.group_settings@;
    let _ = r.group_settings.remove(i64_text(group_id).as_str());
    assert(settings_view(r.group_settings@) =~= settings_view(before).remove(
        decimal(group_id as int),
    ));
    r
}

// ---------------------------------------------------------------------------
// laws

proof fn lemma_ints_without(list: Seq<i64>, n: i64, m: i64)
    ensures
        ints_without(list, n).contains(m) == (list.contains(m) && m != n),
    decreases list.len(),
{
    if list.len() > 0 {
        let head = list.drop_last();
        lemma_ints_without(head, n, m);
        assert(list =~= head.push(list.last()));
        assert(list.contains(m) == (head.contains(m) || m == list.last())) by {
            if head.contains(m) {
                let i = choose|i: int| 0 <= i < head.len() && head[i] == m;
                assert(list[i] == m);
            }
            if m == list.last() {
                assert(list[list.len() - 1] == m);
            }
        }
        let kept = ints_without(head, n);
        if list.last() != n {
            let after = kept.push(list.last());
            assert(after.contains(m) == (kept.contains(m) || m == list.last())) by {
                if kept.contains(m) {
                    let i = choose|i: int| 0 <= i < kept.len() && kept[i] == m;
                    assert(after[i] == m);
                }
                if m == list.last() {
                    assert(after[after.len() - 1] == m);
                }
            }
        }
    }
}

proof fn lemma_texts_without(list: Seq<Seq<char>>, text: Seq<char>, other: Seq<char>)
    ensures
        texts_without(list, text).contains(other) == (list.contains(other) && other != text),
    decreases list.len(),
{
    if list.len() > 0 {
        let head = list.drop_last();
        lemma_texts_without(head, text, other);
        assert(list.contains(other) == (head.contains(other) || other == list.last())) by {
            if head.contains(other) {
                let i = choose|i: int| 0 <= i < head.len() && head[i] == other;
                assert(list[i] == other);
            }
            if other == list.last() {
                assert(list[list.len() - 1] == other);
            }
            if list.contains(other) && other != list.last() {
                let i = choose|i: int| 0 <= i < list.len() && list[i] == other;
                assert(head[i] == other);
            }
        }
        let kept = texts_without(head, text);
        if list.last() != text {
            lemma_push_contains(kept, list.last(), other);
        }
    }
}

proof fn lemma_push_contains<A>(list: Seq<A>, item: A, other: A)
    ensures
        list.push(item).contains(other) == (list.contains(other) || other == item),
{
    let after = list.push(item);
    if list.contains(other) {
        let i = choose|i: int| 0 <= i < list.len() && list[i] == other;
        assert(after[i] == other);
    }
    if other == item {
        assert(after[after.len() - 1] == other);
    }
    if after.contains(other) && other != item {
        let i = choose|i: int| 0 <= i < after.len() && after[i] == other;
        assert(list[i] == other);
    }
}

proof fn lemma_ids_without(list: Seq<Seq<char>>, id: Seq<char>, other: Seq<char>)
    ensures
        names_id(ids_without(list, id), other) ==> names_id(list, other),
        !names_id(ids_without(list, id), id),
        names_id(list, other) && !same_ignoring_case(other, id) ==> names_id(
            ids_without(list, id),
            other,
        ),
    decreases list.len(),
{
    if list.len() > 0 {
        let head = list.drop_last();
        lemma_ids_without(head, id, other);
        let kept = ids_without(head, id);
        let after = ids_without(list, id);
        if names_id(after, other) {
            let i = choose|i: int|
                0 <= i < after.len() && same_ignoring_case(#[trigger] after[i], other);
            if i < kept.len() {
                assert(kept[i] == after[i]);
                assert(names_id(kept, other));
                let k = choose|k: int|
                    0 <= k < head.len() && same_ignoring_case(#[trigger] head[k], other);
                assert(same_ignoring_case(list[k], other));
            } else {
                assert(same_ignoring_case(list[list.len() - 1], other));
            }
        }
        if names_id(after, id) {
            let i = choose|i: int|
                0 <= i < after.len() && same_ignoring_case(#[trigger] after[i], id);
            if i < kept.len() {
                assert(same_ignoring_case(kept[i], id));
            }
        }
        if names_id(list, other) && !same_ignoring_case(other, id) {
            let k = choose|k: int|
                0 <= k < list.len() && same_ignoring_case(#[trigger] list[k], other);
            if k < head.len() {
                assert(same_ignoring_case(head[k], other));
                assert(names_id(kept, other));
                let j = choose|j: int|
                    0 <= j < kept.len() && same_ignoring_case(#[trigger] kept[j], other);
                assert(same_ignoring_case(after[j], other));
            } else {
                assert(!same_ignoring_case(list.last(), id));
                assert(same_ignoring_case(after[after.len() - 1], other));
            }
        }
    }
}

proof fn lemma_sorted_contains<A>(a: Seq<A>, b: Seq<A>, x: A)
    requires
        a.to_multiset() == b.to_multiset(),
    ensures
        a.contains(x) == b.contains(x),
{
    a.to_multiset_ensures();
    b.to_multiset_ensures();
    assert(a.contains(x) <==> a.to_multiset().count(x) > 0);
    assert(b.contains(x) <==> b.to_multiset().count(x) > 0);
}

/// A group that was put on the list is answered, one that was taken off a list that
/// holds another is not, and no other group is touched while the list is not empty.
pub proof fn law_groups_follow_their_switch(
    before: AronaConfigView,
    after: AronaConfigView,
    group_id: i64,
    other: i64,
    enabled: bool,
)
    requires
        group_set(before, after, group_id, enabled),
        other != group_id,
    ensures
        enabled ==> group_allowed(after, Some(group_id)),
        !enabled && after.groups.len() > 0 ==> !group_allowed(after, Some(group_id)),
        before.groups.len() > 0 && after.groups.len() > 0 ==> group_allowed(after, Some(other))
            == group_allowed(before, Some(other)),
{
    lemma_ints_without(before.groups, group_id, group_id);
    lemma_ints_without(before.groups, group_id, other);
    if enabled && !before.groups.contains(group_id) {
        let added = before.groups.push(group_id);
        lemma_push_contains(before.groups, group_id, group_id);
        lemma_push_contains(before.groups, group_id, other);
        lemma_sorted_contains(after.groups, added, group_id);
        lemma_sorted_contains(after.groups, added, other);
    }
}

proof fn lemma_edited_features(
    list: Seq<Seq<char>>,
    features: Seq<Seq<char>>,
    enabled: bool,
    other: Seq<char>,
)
    ensures
        edited_features(list, features, enabled).contains(other) == if features.contains(other) {
            !enabled
        } else {
            list.contains(other)
        },
    decreases features.len(),
{
    if features.len() > 0 {
        let head = features.drop_last();
        lemma_edited_features(list, head, enabled, other);
        let before = edited_features(list, head, enabled);
        lemma_texts_without(before, features.last(), other);
        lemma_push_contains(texts_without(before, features.last()), features.last(), other);
        assert(features =~= head.push(features.last()));
        lemma_push_contains(head, features.last(), other);
    } else {
        assert(!features.contains(other));
    }
}

proof fn lemma_with_setting(config: AronaConfigView, group_id: i64, setting: GroupSettingView)
    ensures
        setting_or_empty(with_setting(config, group_id, setting), group_id) == setting,
        setting_of(with_setting(config, group_id, setting), group_id) is Some ==> setting_of(
            with_setting(config, group_id, setting),
            group_id,
        ) == Some(setting),
{
}

/// A feature that was turned off in a group is off there, one that was turned on is on,
/// and no other feature of the group is touched.
pub proof fn law_features_follow_their_switch(
    before: AronaConfigView,
    after: AronaConfigView,
    group_id: i64,
    features: Seq<Seq<char>>,
    enabled: bool,
    feature: Seq<char>,
)
    requires
        features_set(before, after, group_id, features, enabled),
        feature.len() > 0,
    ensures
        features.contains(feature) ==> feature_on(after, Some(group_id), feature) == enabled,
        !features.contains(feature) ==> feature_on(after, Some(group_id), feature) == feature_on(
            before,
            Some(group_id),
            feature,
        ),
{
    let own = setting_or_empty(before, group_id);
    let edited = edited_features(own.disabled_features, features, enabled);
    let sorted = choose|sorted: Seq<Seq<char>>| #[trigger]
        sorts_texts(sorted, edited) && after == with_setting(
            before,
            group_id,
            GroupSettingView { disabled_features: sorted, ..own },
        );
    lemma_edited_features(own.disabled_features, features, enabled, feature);
    lemma_sorted_contains(sorted, edited, feature);
    lemma_with_setting(before, group_id, GroupSettingView { disabled_features: sorted, ..own });
}

/// A change of the setting of one group touches no other group.
pub proof fn law_settings_of_other_groups_stay(
    before: AronaConfigView,
    group_id: i64,
    setting: GroupSettingView,
    other: i64,
)
    requires
        other != group_id,
    ensures
        setting_or_empty(with_setting(before, group_id, setting), other) == setting_or_empty(
            before,
            other,
        ),
{
    law_decimal_reads_back(group_id);
    law_decimal_reads_back(other);
}

/// A plugin that was turned off is off, whatever the case of its id, one that was
/// turned on is on, and no other plugin is touched.
pub proof fn law_plugins_follow_their_switch(
    before: AronaConfigView,
    id: Seq<char>,
    enabled: bool,
    other: Seq<char>,
)
    requires
        !same_ignoring_case(other, id),
    ensures
        ({
            let after = AronaConfigView {
                disabled_plugins: plugins_set(before.disabled_plugins, id, enabled),
                ..before
            };
            &&& plugin_on(after, id) == enabled
            &&& plugin_on(after, other) == plugin_on(before, other)
        }),
{
    let kept = ids_without(before.disabled_plugins, id);
    let list = plugins_set(before.disabled_plugins, id, enabled);
    lemma_ids_without(before.disabled_plugins, id, other);
    if !enabled {
        assert(same_ignoring_case(list[list.len() - 1], id));
        if names_id(kept, other) {
            let i = choose|i: int|
                0 <= i < kept.len() && same_ignoring_case(#[trigger] kept[i], other);
            assert(same_ignoring_case(list[i], other));
        }
        if names_id(list, other) {
            let i = choose|i: int|
                0 <= i < list.len() && same_ignoring_case(#[trigger] list[i], other);
            if i < kept.len() {
                assert(same_ignoring_case(kept[i], other));
            }
        }
    }
}

/// A plugin that was turned off and on again is on.
pub proof fn law_turning_off_is_undone(before: Seq<Seq<char>>, id: Seq<char>)
    ensures
        !names_id(plugins_set(plugins_set(before, id, false), id, true), id),
{
    lemma_ids_without(plugins_set(before, id, false), id, id);
}

/// A user who was put on the blacklist that holds everywhere is on it in every group,
/// and one who was taken off it is on it nowhere but where a group has them.
pub proof fn law_blacklist_follows_its_switch(
    before: AronaConfigView,
    after: AronaConfigView,
    user_id: i64,
    listed: bool,
    group_id: Option<i64>,
)
    requires
        user_listed(before.global_blacklist, after.global_blacklist, user_id, listed),
        after == (AronaConfigView { global_blacklist: after.global_blacklist, ..before }),
    ensures
        listed ==> blacklisted(after, user_id, group_id),
        !listed ==> !blacklisted(after, user_id, None),
{
    let kept = ints_without(before.global_blacklist, user_id);
    lemma_ints_without(before.global_blacklist, user_id, user_id);
    if listed {
        lemma_push_contains(kept, user_id, user_id);
        lemma_sorted_contains(after.global_blacklist, kept.push(user_id), user_id);
    }
}

/// A user who was put on the blacklist of a group is on it there, one who was taken off
/// it is not, and neither is touched in private.
pub proof fn law_group_blacklist_follows_its_switch(
    before: AronaConfigView,
    list: Seq<i64>,
    group_id: i64,
    user_id: i64,
    listed: bool,
)
    requires
        user_listed(setting_or_empty(before, group_id).blacklist, list, user_id, listed),
        !before.global_blacklist.contains(user_id),
    ensures
        ({
            let after = with_setting(
                before,
                group_id,
                GroupSettingView { blacklist: list, ..setting_or_empty(before, group_id) },
            );
            &&& blacklisted(after, user_id, Some(group_id)) == listed
            &&& !blacklisted(after, user_id, None)
        }),
{
    let own = setting_or_empty(before, group_id);
    let kept = ints_without(own.blacklist, user_id);
    lemma_ints_without(own.blacklist, user_id, user_id);
    if listed {
        lemma_push_contains(kept, user_id, user_id);
        lemma_sorted_contains(list, kept.push(user_id), user_id);
    }
    lemma_with_setting(before, group_id, GroupSettingView { blacklist: list, ..own });
}

/// A plugin that was turned off in a group is off there, and one that was turned on is
/// on; outside the group nothing changes.
pub proof fn law_group_plugins_follow_their_switch(
    before: AronaConfigView,
    list: Seq<Seq<char>>,
    group_id: i64,
    id: Seq<char>,
    enabled: bool,
)
    requires
        group_plugins_set(
            setting_or_empty(before, group_id).disabled_plugins,
            list,
            id,
            enabled,
        ),
    ensures
        ({
            let after = with_setting(
                before,
                group_id,
                GroupSettingView { disabled_plugins: list, ..setting_or_empty(before, group_id) },
            );
            &&& plugin_on_in_group(after, id, Some(group_id)) == enabled
            &&& plugin_on(after, id) == plugin_on(before, id)
        }),
{
    let own = setting_or_empty(before, group_id);
    lemma_ids_without(own.disabled_plugins, id, id);
    lemma_with_setting(before, group_id, GroupSettingView { disabled_plugins: list, ..own });
    if !enabled {
        let added = ids_without(own.disabled_plugins, id).push(id);
        lemma_push_contains(ids_without(own.disabled_plugins, id), id, id);
        lemma_sorted_contains(list, added, id);
        let i = choose|i: int| 0 <= i < list.len() && list[i] == id;
        assert(same_ignoring_case(list[i], id));
    }
}

/// A group whose setting is forgotten has all features and plugins on.
pub proof fn law_forgotten_groups_have_everything_on(
    before: AronaConfigView,
    group_id: i64,
    feature: Seq<char>,
    id: Seq<char>,
)
    ensures
        ({
            let after = AronaConfigView {
                group_settings: before.group_settings.remove(decimal(group_id as int)),
                ..before
            };
            &&& feature_on(after, Some(group_id), feature)
            &&& plugin_on_in_group(after, id, Some(group_id))
        }),
{
}

/// Taking something off a list keeps everything else on it, in its order.
pub proof fn law_the_rest_of_a_list_stays(
    ints: Seq<i64>,
    n: i64,
    list: Seq<Seq<char>>,
    text: Seq<char>,
)
    ensures
        ints_without(ints, n) == ints.filter(|m: i64| m != n),
        texts_without(list, text) == list.filter(|t: Seq<char>| t != text),
        ids_without(list, text) == list.filter(|t: Seq<char>| lower(t) != lower(text)),
    decreases ints.len() + list.len(),
{
    reveal(Seq::filter);
    if ints.len() > 0 {
        law_the_rest_of_a_list_stays(ints.drop_last(), n, list, text);
    }
    if list.len() > 0 {
        law_the_rest_of_a_list_stays(ints, n, list.drop_last(), text);
    }
}

/// A blacklist has a user on it just after they were put on it, and nobody else is
/// touched.
pub proof fn law_other_users_are_not_touched(
    before: Seq<i64>,
    after: Seq<i64>,
    user_id: i64,
    other: i64,
    listed: bool,
)
    requires
        user_listed(before, after, user_id, listed),
        other != user_id,
    ensures
        after.contains(user_id) == listed,
        after.contains(other) == before.contains(other),
{
    let kept = ints_without(before, user_id);
    lemma_ints_without(before, user_id, user_id);
    lemma_ints_without(before, user_id, other);
    if listed {
        lemma_push_contains(kept, user_id, user_id);
        lemma_push_contains(kept, user_id, other);
        lemma_sorted_contains(after, kept.push(user_id), user_id);
        lemma_sorted_contains(after, kept.push(user_id), other);
    }
}

/// Turning features of a group on or off touches nothing else: not its blacklist, not its
/// plugins, and no other part of the configuration.
pub proof fn law_features_touch_nothing_else(
    before: AronaConfigView,
    after: AronaConfigView,
    group_id: i64,
    features: Seq<Seq<char>>,
    enabled: bool,
)
    requires
        features_set(before, after, group_id, features, enabled),
    ensures
        after.groups == before.groups,
        after.managers == before.managers,
        after.global_blacklist == before.global_blacklist,
        after.disabled_plugins == before.disabled_plugins,
        after.framework == before.framework,
        after.chatlog == before.chatlog,
        setting_or_empty(after, group_id).blacklist == setting_or_empty(before, group_id).blacklist,
        setting_or_empty(after, group_id).disabled_plugins == setting_or_empty(
            before,
            group_id,
        ).disabled_plugins,
{
    let own = setting_or_empty(before, group_id);
    let edited = edited_features(own.disabled_features, features, enabled);
    let sorted = choose|sorted: Seq<Seq<char>>| #[trigger]
        sorts_texts(sorted, edited) && after == with_setting(
            before,
            group_id,
            GroupSettingView { disabled_features: sorted, ..own },
        );
    lemma_with_setting(before, group_id, GroupSettingView { disabled_features: sorted, ..own });
}

/// A group is listed just after it was put on the list, every other group stays as it was,
/// and so does all the rest of the configuration.
pub proof fn law_groups_touch_nothing_else(
    before: AronaConfigView,
    after: AronaConfigView,
    group_id: i64,
    other: i64,
    enabled: bool,
)
    requires
        group_set(before, after, group_id, enabled),
        other != group_id,
    ensures
        after.groups.contains(group_id) == enabled,
        after.groups.contains(other) == before.groups.contains(other),
        after.managers == before.managers,
        after.global_blacklist == before.global_blacklist,
        after.group_settings == before.group_settings,
        after.disabled_plugins == before.disabled_plugins,
        after.framework == before.framework,
        after.chatlog == before.chatlog,
{
    lemma_ints_without(before.groups, group_id, group_id);
    lemma_ints_without(before.groups, group_id, other);
    if enabled && !before.groups.contains(group_id) {
        let added = before.groups.push(group_id);
        lemma_push_contains(before.groups, group_id, group_id);
        lemma_push_contains(before.groups, group_id, other);
        lemma_sorted_contains(after.groups, added, group_id);
        lemma_sorted_contains(after.groups, added, other);
    }
}

/// A setting that says nothing is not kept, every other is, and of other groups those that
/// say something are kept as they are.
pub proof fn law_empty_settings_are_dropped(
    config: AronaConfigView,
    group_id: i64,
    setting: GroupSettingView,
    key: Seq<char>,
)
    requires
        key != decimal(group_id as int),
    ensures
        ({
            let own = decimal(group_id as int);
            let after = with_setting(config, group_id, setting).group_settings;
            let empty = setting.disabled_features.len() == 0 && setting.blacklist.len() == 0
                && setting.disabled_plugins.len() == 0;
            &&& after.contains_key(own) <==> !empty
            &&& !empty ==> after[own] == setting
            &&& after.contains_key(key) ==> config.group_settings.contains_key(key) && after[key]
                == config.group_settings[key]
            &&& config.group_settings.contains_key(key) && config.group_settings[
                key
            ].blacklist.len() > 0 ==> after.contains_key(key)
        }),
{
    if setting.disabled_features.len() == 0 && setting.blacklist.len() == 0
        && setting.disabled_plugins.len() == 0 {
        assert(setting.disabled_features =~= Seq::<Seq<char>>::empty());
        assert(setting.blacklist =~= Seq::<i64>::empty());
        assert(setting.disabled_plugins =~= Seq::<Seq<char>>::empty());
    }
}

} // verus!
