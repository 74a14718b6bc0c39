//! Loading the configuration files. The program around reads and writes the files, and
//! turns documents into typed configurations; what becomes of a document is decided here.
use crate::config::arona::{
    foreign_keys, foreign_keys_of, ints_yaml, AronaConfig, ChatlogConfig, ForeignKeyView,
    GroupSettingView,
};
use crate::config::onebot::{
    entries_without, legacy_keys, legacy_top_keys, strip_keys, unknown_keys, unknown_keys_of,
};
use crate::config::plugin_config::{
    absorbed, absorbed_one, own_keys, own_sections, owned_names, read_sections, section_views,
    state_of, strange_keys, strange_views, ConfigStore, FileContents, StoreView,
};
use crate::config::section::{keys_listed, owner_of, RegisteredSection, SectionRegistry};
use crate::framework::FrameworkOptions;
use crate::json::is_whole;
use crate::plugin::health::DEFAULT_PANIC_THRESHOLD;
use crate::text::{decimal, law_decimal_reads_back, owned, texts};
use crate::yaml::{
    as_yaml_value, document_in, entry_of, int_in, ints_in, mapping_of, read_document, value_at,
    Yaml, YamlView,
};
use vstd::prelude::*;
use vstd::string::StringExecFns;

verus! {

// ---------------------------------------------------------------------------
// the framework's own file

/// Reads the text of the framework's own file.
pub fn read_arona(text: &str) -> (r: Result<Yaml, String>)
    ensures
        crate::yaml::result_view(r) == document_in(
            text@,
            "arona.yml 解析失败，请检查格式（参考同目录说明）: "@,
        ),
{
    read_document(text, "arona.yml 解析失败，请检查格式（参考同目录说明）: ")
}

/// The keys of a document that the framework does not read itself.
pub open spec fn foreign_in(value: YamlView, registry: SectionRegistry) -> Seq<ForeignKeyView> {
    match mapping_of(value) {
        Some(entries) => foreign_keys_of(entries, registry),
        None => Seq::empty(),
    }
}

/// Has the sections of plugins that the framework's own file holds go to the plugins.
/// Tells which ones they were; where there were any the file is to be written anew.
pub fn absorb_document(store: &mut ConfigStore, registry: &SectionRegistry, value: &Yaml) -> (r:
    Vec<String>)
    ensures
        texts(r@) == owned_names(foreign_in(value@, *registry)),
        state_of(*final(store)) == absorbed(
            state_of(*old(store)),
            foreign_in(value@, *registry),
        ),
{
    store.absorb_all(foreign_keys(value, registry))
}

// ---------------------------------------------------------------------------
// what once stood in the file of the connections

/// What the framework takes over from the file of the connections.
#[derive(Debug)]
pub struct LegacyExtra {
    pub groups: Vec<i64>,
    pub managers: Vec<i64>,
}

/// The numbers that a document lists under a name; none where it does not.
pub open spec fn listed_ints(value: YamlView, name: Seq<char>) -> Seq<i64> {
    match value_at(value, name) {
        Some(list) => match ints_in(as_yaml_value(list)) {
            Some(ints) => ints,
            None => Seq::empty(),
        },
        None => Seq::empty(),
    }
}

/// The groups and the managers that an old document lists are taken over as they stand.
pub proof fn law_listed_numbers_are_taken_over(
    value: YamlView,
    name: Seq<char>,
    numbers: Seq<i64>,
)
    requires
        value_at(value, name) == Some(ints_yaml(numbers)),
    ensures
        listed_ints(value, name) == numbers,
{
    let plain = ints_yaml(numbers)->List_0;
    let list = as_yaml_value(ints_yaml(numbers))->List_0;
    assert forall|i: int| 0 <= i < list.len() implies int_in(#[trigger] list[i]) == Some(
        numbers[i],
    ) by {
        assert(plain[i] == YamlView::Number(decimal(numbers[i] as int)));
        assert(is_whole(decimal(numbers[i] as int)));
        assert(list[i] == as_yaml_value(plain[i]));
        law_decimal_reads_back(numbers[i]);
    }
    assert(listed_ints(value, name) =~= numbers);
}

fn ints_at(value: &Yaml, name: &str) -> (r: Vec<i64>)
    ensures
        r@ == listed_ints(value@, name@),
{
    match value.get(name) {
        Some(list) => match list.as_ints() {
            Some(ints) => ints,
            None => Vec::new(),
        },
        None => Vec::new(),
    }
}

/// The store after the registered sections among the keys of a document were taken over,
/// in the order in which they were registered.
pub open spec fn legacy_absorbed(
    store: StoreView,
    value: YamlView,
    keys: Seq<Seq<char>>,
    items: Seq<RegisteredSection>,
) -> StoreView
    decreases keys.len(),
{
    if keys.len() == 0 {
        store
    } else {
        let before = legacy_absorbed(store, value, keys.drop_last(), items);
        match (value_at(value, keys.last()), owner_of(items, keys.last())) {
            (Some(section), Some(owner)) => absorbed_one(before, keys.last(), section, owner),
            _ => before,
        }
    }
}

/// Takes over from the document of the connections what once stood there: the groups and
/// the managers, and the sections of plugins. A document that is no mapping has nothing.
pub fn read_legacy_from_onebot(
    store: &mut ConfigStore,
    registry: &SectionRegistry,
    value: &Yaml,
) -> (r: Option<LegacyExtra>)
    ensures
        match mapping_of(value@) {
            Some(_) => {
                &&& r is Some
                &&& r->0.groups@ == listed_ints(value@, "groups"@)
                &&& r->0.managers@ == listed_ints(value@, "managers"@)
                &&& state_of(*final(store)) == legacy_absorbed(
                    state_of(*old(store)),
                    value@,
                    keys_listed(registry.items@),
                    registry.items@,
                )
            },
            None => r is None && *final(store) == *old(store),
        },
{
    if value.as_mapping().is_none() {
        return None;
    }
    let groups = ints_at(value, "groups");
    let managers = ints_at(value, "managers");
    let keys = registry.keys();
    let ghost all = texts(keys@);
    let ghost start = state_of(*store);
    let mut i: usize = 0;
    assert(all.take(0) =~= Seq::<Seq<char>>::empty());
    while i < keys.len()
        invariant
            i <= keys@.len(),
            all == texts(keys@),
            state_of(*store) == legacy_absorbed(
                start,
                value@,
                all.take(i as int),
                registry.items@,
            ),
        decreases keys@.len() - i,
    {
        assert(all.take(i + 1).drop_last() =~= all.take(i as int));
        assert(all.take(i + 1).last() == keys@[i as int]@);
        let key = keys[i].as_str();
        if let Some(section) = value.get(key) {
            if let Some(owner) = registry.owner(key) {
                let _ = store.absorb_legacy(key, section.clone(), owner.as_str());
            }
        }
        i = i + 1;
    }
    assert(all.take(all.len() as int) =~= all);
    Some(LegacyExtra { groups, managers })
}

/// The configuration to begin with where there is no file yet.
pub fn initial_config(legacy: Option<LegacyExtra>) -> (r: AronaConfig)
    ensures
        match legacy {
            Some(extra) => r.groups@ == extra.groups@ && r.managers@ == extra.managers@,
            None => r.groups@.len() == 0 && r.managers@.len() == 0,
        },
        r@.global_blacklist == Seq::<i64>::empty(),
        r@.group_settings == Map::<Seq<char>, GroupSettingView>::empty(),
        r@.disabled_plugins == Seq::<Seq<char>>::empty(),
        r@.framework == (FrameworkOptions {
            panic_disable_threshold: DEFAULT_PANIC_THRESHOLD,
            prefix_match_by_default: false,
        }),
        r@.chatlog == (ChatlogConfig {
            enable: true,
            keep_days: 2,
            purge_interval_days: 4,
            quote_ttl_minutes: 30,
        }),
{
    let mut config = AronaConfig::empty();
    if let Some(extra) = legacy {
        config.groups = extra.groups;
        config.managers = extra.managers;
    }
    config
}

// ---------------------------------------------------------------------------
// the file of the connections

/// The document of the connections, without what no longer belongs there.
#[derive(Debug)]
pub struct OneBotDocument {
    pub value: Yaml,
    /// The keys that nobody knows.
    pub unknown: Vec<String>,
    /// Something was taken out: the file is to be written anew.
    pub rewrite: bool,
}

/// Reads the text of the file of the connections, and takes out what no longer belongs
/// there.
pub fn read_onebot(text: &str, registry: &SectionRegistry) -> (r: Result<OneBotDocument, String>)
    ensures
        match document_in(text@, "onebot.yml 解析失败，请检查格式: "@) {
            Err(error) => r is Err && r->Err_0@ == error,
            Ok(value) => r is Ok && match mapping_of(value) {
                Some(entries) => {
                    let kept = entries_without(entries, legacy_keys(*registry));
                    &&& r->Ok_0.value@ == YamlView::Mapping(kept)
                    &&& r->Ok_0.rewrite == (kept.len() < entries.len())
                    &&& texts(r->Ok_0.unknown@) == unknown_keys_of(entries, legacy_keys(*registry))
                },
                None => r->Ok_0.value@ == value && !r->Ok_0.rewrite && r->Ok_0.unknown@.len() == 0,
            },
        },
{
    match read_document(text, "onebot.yml 解析失败，请检查格式: ") {
        Err(error) => Err(error),
        Ok(document) => {
            let legacy = legacy_top_keys(registry);
            let unknown = unknown_keys(&document, &legacy);
            assert(texts(unknown@).len() == unknown@.len());
            let (value, rewrite) = strip_keys(&document, &legacy);
            Ok(OneBotDocument { value, unknown, rewrite })
        },
    }
}

/// The complaint about a file that is no YAML.
pub open spec fn broken_file_text(path: Seq<char>) -> Seq<char> {
    path + " 解析失败，请检查 YAML 格式: "@
}

/// Reads the text of the file of a plugin.
pub fn read_plugin_file(
    registry: &SectionRegistry,
    plugin: &str,
    path: &str,
    text: &str,
) -> (r: Result<FileContents, String>)
    ensures
        match document_in(text@, broken_file_text(path@)) {
            Err(error) => r is Err && r->Err_0@ == error,
            Ok(value) => r is Ok && match mapping_of(value) {
                Some(entries) => {
                    &&& section_views(r->Ok_0.sections@) == own_sections(
                        entries,
                        own_keys(*registry, plugin@),
                    )
                    &&& strange_views(r->Ok_0.strange@) == strange_keys(
                        entries,
                        own_keys(*registry, plugin@),
                        *registry,
                    )
                },
                None => r->Ok_0.sections@ == Map::<Seq<char>, Yaml>::empty()
                    && r->Ok_0.strange@.len() == 0,
            },
        },
{
    let mut complaint = owned(path);
    complaint.append(" 解析失败，请检查 YAML 格式: ");
    match read_document(text, complaint.as_str()) {
        Err(error) => Err(error),
        Ok(document) => Ok(read_sections(registry, plugin, &document)),
    }
}

// ---------------------------------------------------------------------------
// laws

/// Once the file of the connections was written anew, nothing is left to take out.
pub proof fn law_cleaned_documents_stay_clean(
    entries: Seq<(YamlView, YamlView)>,
    keys: Seq<Seq<char>>,
)
    ensures
        entries_without(entries_without(entries, keys), keys) == entries_without(entries, keys),
        forall|key: Seq<char>|
            keys.contains(key) ==> #[trigger] entry_of(entries_without(entries, keys), key) is None,
        forall|key: Seq<char>|
            !keys.contains(key) ==> #[trigger] entry_of(entries_without(entries, keys), key)
                == entry_of(entries, key),
    decreases entries.len(),
{
    if entries.len() > 0 {
        let head = entries.drop_last();
        let kept = entries_without(head, keys);
        law_cleaned_documents_stay_clean(head, keys);
        let last = entries.last();
        if last.0 is Text && keys.contains(last.0->Text_0) {
        } else {
            assert(kept.push(last).drop_last() =~= kept);
            assert(kept.push(last).last() == last);
        }
        assert forall|key: Seq<char>| keys.contains(key) implies #[trigger] entry_of(
            entries_without(entries, keys),
            key,
        ) is None by {
            assert(entry_of(kept, key) is None);
        }
        assert forall|key: Seq<char>| !keys.contains(key) implies #[trigger] entry_of(
            entries_without(entries, keys),
            key,
        ) == entry_of(entries, key) by {
            assert(entry_of(kept, key) == entry_of(head, key));
        }
    }
}

} // verus!
