use arona::collections::TextMap;
use arona::config::arona as framework_config;
use arona::config::arona::{AronaConfig, GroupSetting, KeyFate};
use arona::config::load::{
    absorb_document, initial_config, read_arona, read_legacy_from_onebot, read_onebot,
    read_plugin_file,
};
use arona::config::onebot as connection_config;
use arona::config::onebot::{
    connection_type_text, default_connection, ConnectionType, OneBotConfig,
};
use arona::config::plugin_config::{
    config_file, own_renderings, template, ConfigEntry, ConfigStore,
};
use arona::config::section::{ConfigSection, SectionRegistry, SectionRenderer, TypedSection};
use arona::config::settings as settings_in_force;
use arona::config::settings::{fields, find_field_index, Draft, Settings};
use arona::plugin::health::HealthBoard;
use arona::runtime::config::Gating;
use arona::yaml::{parse_yaml, render_yaml, Yaml};

fn yaml(text: &str) -> Yaml {
    parse_yaml(text).expect("the text is YAML")
}

fn number(value: Option<&Yaml>) -> Option<String> {
    match value {
        Some(Yaml::Number(n)) => Some(n.clone()),
        _ => None,
    }
}

// ---------------------------------------------------------------------------
// sections

#[test]
fn typed_section_renders_empty_collections_with_yaml_flows() {
    let typed = TypedSection {
        title: "渲染契约自检".into(),
        doc: "第一行\n第二行".into(),
        comments: vec![
            ("black_groups".into(), "空的也要渲染成 []".into()),
            ("alert".into(), "嵌套块".into()),
            ("alert.hour".into(), "推送小时(0-23)".into()),
        ],
    };
    let section = ConfigSection::typed(
        "demo",
        typed,
        yaml("enable: false\nblack_groups: []\nextra: {}\nalert:\n  hour: 0\n  text: ''\n"),
    );
    let text = section.render(&section.default_copy(), None);
    assert!(
        text.starts_with("# ==================== 渲染契约自检 ====================\n# 第一行\n# 第二行\ndemo:\n"),
        "{text}"
    );
    assert!(text.contains("\n  black_groups: []\n"), "空列表应渲染为 []: {text}");
    assert!(text.contains("\n  extra: {}\n"), "空映射应渲染为 {{}}: {text}");
    assert!(
        text.contains("  # 空的也要渲染成 []\n  black_groups:"),
        "数组注释应紧贴键: {text}"
    );
    assert!(
        text.contains("    # 推送小时(0-23)\n    hour: 0\n"),
        "嵌套字段注释应按 alert.hour 命中并多缩进一层: {text}"
    );
    let file = yaml(&text);
    let demo = file.get("demo").expect("模板应能读回");
    assert_eq!(demo.get("black_groups"), Some(&Yaml::List(Vec::new())));
    assert_eq!(demo.get("extra"), Some(&Yaml::Mapping(Vec::new())));
    assert_eq!(demo.get("enable"), Some(&Yaml::Bool(false)));

    let filled = yaml(
        "enable: true\nblack_groups: [999, 1001]\nextra:\n  a: b\nalert:\n  hour: 8\n  text: 预警\n",
    );
    let text = section.render(&filled, None);
    assert!(
        text.contains("  black_groups:\n    - 999\n    - 1001\n"),
        "非空列表应块式缩进: {text}"
    );
    let file = yaml(&text);
    let demo = file.get("demo").expect("有值模板应能读回");
    assert_eq!(demo.get("black_groups").unwrap().as_ints(), Some(vec![999, 1001]));
    assert_eq!(demo.get("alert").unwrap().get("text").unwrap().as_str(), Some("预警"));
    assert_eq!(demo.get("extra").unwrap().get("a").unwrap().as_str(), Some("b"));
}

fn plain(key: &str, default: Yaml) -> ConfigSection {
    let typed = TypedSection { title: "".into(), doc: "".into(), comments: Vec::new() };
    ConfigSection::typed(key, typed, default)
}

const DEMO: u64 = 1;
const DEMO_TWO: u64 = 2;

/// A section that its plugin writes itself.
fn own(key: &str, default: &str, renderer: u64) -> ConfigSection {
    ConfigSection {
        key: key.into(),
        default_value: yaml(default),
        renderer: SectionRenderer::Own(renderer),
    }
}

fn render_own(renderer: u64, value: &Yaml) -> String {
    if renderer == DEMO {
        let hour = number(value.get("hour")).unwrap_or("8".to_string());
        format!("# 演示配置区\ndemo:\n  hour: {hour}\n")
    } else {
        let enable = value.get("enable") != Some(&Yaml::Bool(false));
        format!("# 升级新增的配置区\ndemotwo:\n  enable: {enable}\n")
    }
}

/// The text of a plugin's file, with what its own renderers make of its sections.
fn file_text(sections: &SectionRegistry, plugin: &str, values: &TextMap<Yaml>) -> String {
    let mut rendered = TextMap::new();
    for item in own_renderings(sections, plugin, values) {
        rendered.insert(item.key, render_own(item.renderer, &item.value));
    }
    template(sections, None, plugin, values, &rendered)
}

fn demo_store(plugin: &str) -> (SectionRegistry, ConfigStore) {
    let mut sections = SectionRegistry::new();
    sections.register(plugin, own("demo", "hour: 8", DEMO));
    (sections, ConfigStore::new())
}

#[test]
fn generates_template_and_ignores_foreign_keys() {
    const PLUGIN: &str = "demotemplate";
    let (sections, _store) = demo_store(PLUGIN);
    assert_eq!(config_file(PLUGIN), "config/demotemplate/arona.yml");
    let contents =
        read_plugin_file(&sections, PLUGIN, "x", "demo:\n  hour: 21\nunknown_key: 1\n").expect("解析应成功");
    assert_eq!(
        number(contents.sections.get("demo").and_then(|v| v.get("hour"))).as_deref(),
        Some("21")
    );
    assert!(!contents.sections.contains("unknown_key"));
    assert_eq!(contents.strange, vec![("unknown_key".to_string(), None)]);
    let text = file_text(&sections, PLUGIN, &contents.sections);
    assert!(text.contains("demo:\n  hour: 21"), "模板应保留用户改过的值: {text}");
    assert!(text.contains(&format!("# 插件 id: {PLUGIN}")), "模板应说明插件 id: {text}");
}

#[test]
fn backfills_newly_registered_section_into_existing_file() {
    const PLUGIN: &str = "demoupgrade";
    let (mut sections, mut store) = demo_store(PLUGIN);
    sections.register(PLUGIN, own("demotwo", "enable: true", DEMO_TWO));
    let contents = read_plugin_file(&sections, PLUGIN, "x", "demo:\n  hour: 21\n").unwrap();
    let opened = store.init(&sections, PLUGIN, Some(contents.sections), true, Some(1));
    assert!(opened.write);
    assert_eq!(opened.added, vec!["demotwo"]);
    let text = file_text(&sections, PLUGIN, store.sections_of(PLUGIN).unwrap());
    assert!(text.contains("demo:\n  hour: 21"), "用户改过的值不该被默认值覆盖: {text}");
    assert!(text.contains("demotwo:\n  enable: true"), "新登记的配置区没补进文件: {text}");
    assert_eq!(
        store.section_value(&sections, "demotwo").and_then(|v| v.get("enable")),
        Some(&Yaml::Bool(true)),
        "补齐的配置区要能立刻读到"
    );
    // opened again, there is nothing to write
    let contents = read_plugin_file(&sections, PLUGIN, "x", &text).unwrap();
    let again = store.init(&sections, PLUGIN, Some(contents.sections), true, Some(2));
    assert!(!again.write, "没有新东西时不该重写文件");
}

#[test]
fn absorbs_legacy_key_from_framework_config() {
    const PLUGIN: &str = "demolegacy";
    let (_sections, mut store) = demo_store(PLUGIN);
    store.absorb_legacy("demo", yaml("hour: 9"), PLUGIN);
    assert_eq!(store.pending_owner("demo").as_deref(), Some(PLUGIN), "旧写法应登记归属插件");

    let mut file: TextMap<Yaml> = TextMap::new();
    assert!(store.merge_pending_into(&mut file, PLUGIN), "init 时应把旧写法并进插件配置");
    assert!(file.contains("demo"));
    assert!(!store.merge_pending_into(&mut file, "otherplugin"), "别的插件不应重复消费");
    assert!(!store.merge_pending_into(&mut file, PLUGIN));
}

#[test]
fn keeps_pending_when_plugin_already_has_the_key() {
    const PLUGIN: &str = "demopending";
    let (_sections, mut store) = demo_store(PLUGIN);
    let value = yaml("hour: 7");
    let mut occupied: TextMap<Yaml> = TextMap::new();
    occupied.insert("demo".to_string(), value.clone());
    store.stage_pending("demo", PLUGIN, yaml("hour: 3"));
    assert!(
        !store.merge_pending_into(&mut occupied, PLUGIN),
        "插件文件里已有的配置区应以它为准"
    );
    assert_eq!(occupied.get("demo"), Some(&value));
    assert!(store.has_pending("demo"), "没消费掉的旧写法要留着，配置文件重建后再接管");
    let mut fresh: TextMap<Yaml> = TextMap::new();
    assert!(store.merge_pending_into(&mut fresh, PLUGIN), "重建配置文件后旧写法应接管");
    assert_eq!(
        number(fresh.get("demo").and_then(|v| v.get("hour"))).as_deref(),
        Some("3")
    );
    assert!(!store.has_pending("demo"));
}

#[test]
fn stores_are_isolated_per_framework() {
    const PLUGIN: &str = "demoisolated";
    let (sections, mut store) = demo_store(PLUGIN);
    let mut contents: TextMap<Yaml> = TextMap::new();
    contents.insert("demo".to_string(), Yaml::Null);
    store.set_sections(PLUGIN, contents);
    assert!(store.section_value(&sections, "demo").is_some());
    assert!(store.sections_of(PLUGIN).is_some());
    let other = ConfigStore::new();
    assert!(other.section_value(&SectionRegistry::new(), "demo").is_none());
    assert!(other.sections_of(PLUGIN).is_none());
    assert!(other.loaded_plugins().is_empty());
}

#[test]
fn sections_are_written_by_their_owner() {
    let (sections, mut store) = demo_store("p");
    assert_eq!(
        store.set_section(&sections, "demo", Yaml::Null),
        Err("插件 p 的配置文件尚未加载".to_string())
    );
    assert_eq!(
        store.set_section(&sections, "nobody", Yaml::Null),
        Err("配置区「nobody」未登记，插件 id 也没对上".to_string())
    );
    store.init(&sections, "p", None, false, None);
    assert_eq!(store.loaded_plugins(), vec!["p"]);
    assert_eq!(store.set_section(&sections, "demo", Yaml::Bool(true)), Ok("p".to_string()));
    assert_eq!(store.value_of("p", "demo"), Some(&Yaml::Bool(true)));

    let entry = ConfigEntry::new("p", "demo");
    assert_eq!((entry.plugin(), entry.key()), ("p", "demo"));
    assert_eq!(entry.file(), "config/p/arona.yml");
    assert_eq!(entry.get(&store), Some(&Yaml::Bool(true)));
    assert_eq!(entry.set(&mut store, Ok(Yaml::Null)), Ok(()));
    assert_eq!(entry.get(&store), Some(&Yaml::Null));
    assert_eq!(
        entry.set(&mut store, Err("坏".into())),
        Err("序列化「demo」失败: 坏".to_string())
    );
    assert_eq!(entry.try_get(None, 5), Ok(5));
    assert_eq!(entry.try_get(Some(Ok(6)), 5), Ok(6));
    assert_eq!(
        entry.try_get(Some(Err("坏".into())), 5),
        Err("配置区「demo」格式不正确: 坏".to_string())
    );
}

#[test]
fn changed_files_are_read_again() {
    let (sections, mut store) = demo_store("p");
    store.init(&sections, "p", None, true, Some(1));
    assert!(!store.poll_changed("p", Some(1)));
    assert!(!store.poll_changed("p", None));
    assert!(store.poll_changed("p", Some(2)));
    assert!(!store.poll_changed("p", Some(2)));
    assert!(!store.poll_changed("q", Some(2)));
    let contents = read_plugin_file(&sections, "p", "x", "demo: 5").unwrap();
    assert_eq!(store.reload("p", Ok(contents.sections), Some(3)), Ok(()));
    assert_eq!(number(store.value_of("p", "demo")).as_deref(), Some("5"));
    assert_eq!(store.reload("p", Err("坏".into()), Some(4)), Err("坏".to_string()));
    assert_eq!(number(store.value_of("p", "demo")).as_deref(), Some("5"), "读坏了保留当前配置");
    assert!(!store.poll_changed("p", Some(4)));
}

#[test]
fn a_loaded_file_takes_a_section_over_at_once() {
    let (sections, mut store) = demo_store("p");
    store.set_sections("p", TextMap::new());
    let document = read_arona("demo:\n  hour: 4\nconnections: 1\nsend_image_as_file: true\ngroups: [1]\n")
        .unwrap();
    assert_eq!(absorb_document(&mut store, &sections, &document), vec!["demo"]);
    assert_eq!(
        number(store.value_of("p", "demo").and_then(|v| v.get("hour"))).as_deref(),
        Some("4")
    );
    assert!(!store.has_pending("demo"));
    let fates: Vec<(String, KeyFate)> = framework_config::foreign_keys(&document, &sections)
        .into_iter()
        .map(|key| (key.name, key.fate))
        .collect();
    assert_eq!(
        fates,
        vec![
            ("demo".to_string(), KeyFate::Owned("p".to_string())),
            ("connections".to_string(), KeyFate::Unknown),
            ("send_image_as_file".to_string(), KeyFate::Moved),
        ]
    );
}

#[test]
fn files_that_are_no_yaml_are_told_so() {
    let error = read_arona("a: [").unwrap_err();
    assert!(error.starts_with("arona.yml 解析失败，请检查格式（参考同目录说明）: "), "{error}");
    let error = read_plugin_file(&SectionRegistry::new(), "p", "/x.yml", "a: [").unwrap_err();
    assert!(error.starts_with("/x.yml 解析失败，请检查 YAML 格式: "), "{error}");
    let error = read_onebot("a: [", &SectionRegistry::new()).unwrap_err();
    assert!(error.starts_with("onebot.yml 解析失败，请检查格式: "), "{error}");
    // a byte order mark does not matter
    assert_eq!(read_arona("\u{feff}groups: [7]").unwrap().get("groups").unwrap().as_ints(), Some(vec![7]));
}

#[test]
fn what_once_stood_with_the_connections_is_taken_over() {
    let (sections, mut store) = demo_store("p");
    let text = "groups: [1, 2]\nmanagers: nonsense\nself_id: 5\ndemo:\n  hour: 6\nwhatever: 1\n";
    let document = yaml(text);
    let legacy = read_legacy_from_onebot(&mut store, &sections, &document);
    assert_eq!(store.pending_owner("demo").as_deref(), Some("p"));
    let config = initial_config(legacy);
    assert_eq!(config.groups, vec![1, 2]);
    assert!(config.managers.is_empty());
    assert!(initial_config(None).groups.is_empty());
    assert!(read_legacy_from_onebot(&mut store, &sections, &Yaml::Null).is_none());

    let onebot = read_onebot(text, &sections).unwrap();
    assert!(onebot.rewrite);
    assert_eq!(onebot.unknown, vec!["whatever"]);
    assert!(onebot.value.get("groups").is_none() && onebot.value.get("demo").is_none());
    assert_eq!(number(onebot.value.get("self_id")).as_deref(), Some("5"));
    assert!(!read_onebot("self_id: 5", &sections).unwrap().rewrite);
}

// ---------------------------------------------------------------------------
// the file of the connections

#[test]
fn connection_types_follow_the_field_and_then_the_key() {
    let mut conn = default_connection(ConnectionType::WebSocketReverse);
    assert_eq!(conn.resolve_type("arona-1482580133-6701"), Ok(ConnectionType::WebSocketReverse));
    conn.connection_type = "".into();
    assert_eq!(conn.resolve_type("ws-forward"), Ok(ConnectionType::WebSocket));
    let error = conn.resolve_type("whatever").unwrap_err();
    assert_eq!(error, "未知的连接类型: whatever（可选: ws-forward、ws-reverse、http、http-reverse）");
    assert_eq!(connection_type_text(None), "");
    assert_eq!(connection_type_text(Some(&Yaml::Null)), "");
    assert_eq!(connection_type_text(Some(&Yaml::Text("http".into()))), "http");
    assert_eq!(connection_type_text(Some(&Yaml::Number("5".into()))), "5");
    assert_eq!(connection_type_text(Some(&Yaml::Bool(true))), "true");
    assert_eq!(connection_type_text(Some(&Yaml::List(Vec::new()))), "");
    for kind in ConnectionType::all() {
        assert_eq!(ConnectionType::from_name(kind.key()), Ok(kind));
    }
}

#[test]
fn saved_connections_always_have_a_type() {
    let mut config = OneBotConfig::default();
    assert!(!config.send_image_as_file, "默认值必须是 false");
    config.send_image_as_file = true;
    let mut http = default_connection(ConnectionType::Http);
    http.connection_type = "".into();
    config.connections.insert("http".into(), http);
    let saved = connection_config::template(&config, "测试版");
    assert!(
        saved.starts_with(
            "# ==================== Arona OneBot 配置文件 ====================\n# 测试版独立运行模式使用本文件。\n"
        ),
        "{saved}"
    );
    assert!(saved.contains("send_image_as_file: true"), "模板应带上该配置项");
    assert!(saved.contains("type: \"http\""), "{saved}");
    assert!(saved.contains("type: \"ws-forward\""), "{saved}");
    assert!(
        !saved.lines().any(|line| line.trim() == "type:"),
        "不应再写出空的 type:\n{saved}"
    );
    let document = yaml(&saved);
    assert_eq!(document.get("send_image_as_file"), Some(&Yaml::Bool(true)));
    let http = document.get("connections").unwrap().get("http").unwrap();
    assert_eq!(number(http.get("port")).as_deref(), Some("5700"));
}

#[test]
fn new_connections_get_a_key_of_their_own() {
    let mut config = OneBotConfig::default();
    assert_eq!(config.unique_connection_key("mine"), "mine");
    assert_eq!(config.unique_connection_key("http"), "http-2");
    config.connections.insert("http-2".into(), default_connection(ConnectionType::Http));
    assert_eq!(config.unique_key_at("http", 77), "http-3");
}

// ---------------------------------------------------------------------------
// the framework's own file

fn setting(features: &[&str], plugins: &[&str], blacklist: &[i64]) -> GroupSetting {
    GroupSetting {
        disabled_features: features.iter().map(|s| s.to_string()).collect(),
        blacklist: blacklist.to_vec(),
        disabled_plugins: plugins.iter().map(|s| s.to_string()).collect(),
    }
}

#[test]
fn the_written_file_reads_back() {
    let mut config = AronaConfig::empty();
    config.groups = vec![10001];
    config.managers = vec![20002];
    config.disabled_plugins = vec!["a".into(), "b".into()];
    config.group_settings.insert("5".into(), setting(&["tarot"], &["p"], &[7]));
    let text = framework_config::template(&config, "测试版", "tarot", &vec!["p".to_string()]);
    assert!(
        text.starts_with(
            "# ==================== Arona 框架配置 ====================\n# 测试版独立运行模式使用本文件，修改后保存即自动热重载。\n"
        ),
        "{text}"
    );
    let document = read_arona(&text).unwrap();
    assert_eq!(document.get("groups").unwrap().as_ints(), Some(vec![10001]));
    assert_eq!(document.get("managers").unwrap().as_ints(), Some(vec![20002]));
    assert_eq!(document.get("global_blacklist").unwrap().as_ints(), Some(vec![]));
    let five = document.get("group_settings").unwrap().get("5").unwrap();
    assert_eq!(five.get("blacklist").unwrap().as_ints(), Some(vec![7]));
    assert_eq!(
        five.get("disabled_features"),
        Some(&Yaml::List(vec![Yaml::Text("tarot".into())]))
    );
    assert_eq!(
        document.get("disabled_plugins"),
        Some(&Yaml::List(vec![Yaml::Text("a".into()), Yaml::Text("b".into())]))
    );
    let empty = framework_config::template(&AronaConfig::empty(), "", "", &Vec::new());
    assert!(empty.contains("group_settings: {}\n") && empty.contains("disabled_plugins: []\n"), "{empty}");
    assert!(empty.contains("(无)"), "{empty}");
}

#[test]
fn group_settings_say_what_is_off() {
    let off = setting(&["tarot"], &[], &[]);
    assert!(!off.feature_enabled("tarot") && off.feature_enabled("other"));
    assert!(!off.is_empty() && setting(&[], &[], &[]).is_empty());
}

// ---------------------------------------------------------------------------
// settings in force

fn draft(config: AronaConfig) -> Draft {
    Draft::new(config, "", "(无)", Vec::new())
}

#[test]
fn the_file_and_the_program_hold_the_same_configuration() {
    let mut settings = Settings::new();
    let mut gating = Gating::new();
    let mut health = HealthBoard::new(5);
    settings.init("f");
    let planned = settings.set_group_feature(5, "tarot", false).unwrap();
    let draft = Draft::new(planned, "测试版", "tarot", vec!["p".to_string()]);
    let text = draft.text().to_string();
    assert!(draft.config().group_settings.contains("5"));
    assert_ne!(settings.text("测试版", "tarot", &vec!["p".to_string()]), text);
    assert_eq!(settings.persist(draft, Ok(()), &mut gating, &mut health), Ok(false));
    assert_eq!(settings.text("测试版", "tarot", &vec!["p".to_string()]), text);
    let document = read_arona(&text).unwrap();
    let five = document.get("group_settings").unwrap().get("5").unwrap();
    assert_eq!(
        five.get("disabled_features"),
        Some(&Yaml::List(vec![Yaml::Text("tarot".into())]))
    );
}

#[test]
fn closed_settings_follow_their_file_no_longer() {
    let mut settings = Settings::new();
    settings.init("f");
    assert!(settings.poll(Some(1)) && settings.poll(Some(2)));
    settings.close();
    assert!(!settings.poll(Some(3)));
    assert_eq!(settings.config_file().as_deref(), Some("f"));
    assert!(settings.add_to_list("groups", 5).is_ok(), "changes can still be made");
    settings.init("f");
    assert!(settings.poll(Some(3)));
}

#[test]
fn files_have_their_places() {
    assert_eq!(framework_config::default_file(), "config/arona.yml");
    assert_eq!(settings_in_force::default_file(), "config/arona.yml");
    assert_eq!(connection_config::default_file(), "config/onebot.yml");
}

#[test]
fn arona_yml_state_is_scoped_to_the_framework_instance() {
    let mut host = Settings::new();
    let mut host_gating = Gating::new();
    let other = Settings::new();
    let global_gating = Gating::new();
    host.init("/tmp/arona.yml");
    assert_eq!(host.config_file().as_deref(), Some("/tmp/arona.yml"));

    let changed = host.add_to_list("managers", 987654321).expect("可以添加");
    let (reply, _) = host.finish_change("managers", draft(changed), Ok(()), false, &mut host_gating, &mut HealthBoard::new(5));
    assert!(reply.contains("配置已更新"), "{reply}");
    assert!(host.config().managers.contains(&987654321));
    assert!(host_gating.config.managers.contains(&987654321));
    assert!(!global_gating.config.managers.contains(&987654321), "隔离实例的配置不该漏进进程默认实例");

    assert_eq!(other.config_file(), None);
    let refused = |r: Result<AronaConfig, String>| r.err().unwrap_or_default();
    assert!(refused(other.update("managers", Ok(vec![100]))).contains("配置文件尚未初始化"));
    assert!(refused(other.add_to_list("groups", 7)).contains("配置文件尚未初始化"));
    assert_eq!(refused(other.set_plugin_enabled("x", false)), "配置文件尚未初始化");
}

#[test]
fn lists_are_changed_one_value_at_a_time() {
    let mut settings = Settings::new();
    let mut gating = Gating::new();
    settings.init("f");
    let changed = settings.add_to_list("groups", 5).unwrap();
    let (reply, follow) = settings.finish_change("groups", draft(changed), Ok(()), true, &mut gating, &mut HealthBoard::new(5));
    assert_eq!(reply, "配置已更新: groups = [5]");
    assert!(!follow, "第一次生效时插件还没装配");
    assert_eq!(settings.add_to_list("groups", 5).unwrap_err(), "groups 已包含 5");
    assert_eq!(settings.remove_from_list("groups", 6).unwrap_err(), "groups 不包含 6");
    assert!(settings.add_to_list("nonsense", 5).is_err());
    let changed = settings.remove_from_list("groups", 5).unwrap();
    assert!(changed.groups.is_empty());
    let (reply, follow) =
        settings.finish_change("groups", draft(changed), Err("磁盘满".into()), true, &mut gating, &mut HealthBoard::new(5));
    assert_eq!(reply, "写入配置文件失败: 磁盘满");
    assert!(!follow);
    assert_eq!(settings.config().groups, vec![5]);
    assert!(settings.poll(Some(3)) && !settings.poll(Some(3)) && !settings.poll(None));
}

#[test]
fn switches_turn_off_and_on() {
    let mut settings = Settings::new();
    settings.init("f");
    let mut gating = Gating::new();
    let mut apply = |settings: &mut Settings, config: AronaConfig| {
        settings.apply(config, &mut gating, &mut HealthBoard::new(5));
    };
    let config = settings.set_plugin_enabled("Demo", false).unwrap();
    apply(&mut settings, config);
    assert_eq!(settings.config().disabled_plugins.len(), 1);
    let config = settings.set_plugin_enabled("demo", true).unwrap();
    apply(&mut settings, config);
    assert!(settings.config().disabled_plugins.is_empty());
    let config = settings.set_group_feature(5, "tarot", false).unwrap();
    apply(&mut settings, config);
    assert!(!settings.config().group_settings.get("5").unwrap().feature_enabled("tarot"));
    let config = settings.set_group_features(5, &["tarot"], true).unwrap();
    apply(&mut settings, config);
    assert!(settings.config().group_settings.get("5").is_none(), "空条目要清掉");
    let config = settings.set_group_blacklist(5, 9, true).unwrap();
    apply(&mut settings, config);
    assert_eq!(settings.config().group_settings.get("5").unwrap().blacklist, vec![9]);
    let config = settings.clear_group_setting(5).unwrap();
    apply(&mut settings, config);
    assert!(settings.config().group_settings.get("5").is_none());
    let config = settings.set_global_blacklist(9, true).unwrap();
    apply(&mut settings, config);
    assert_eq!(settings.config().global_blacklist, vec![9]);
}

// ---------------------------------------------------------------------------
// YAML values

#[test]
fn yaml_values_are_read_and_printed() {
    assert_eq!(render_yaml(&yaml("a: [1, 2]")).as_deref(), Some("a:\n- 1\n- 2\n"));
    assert_eq!(yaml("[1, -2]").as_ints(), Some(vec![1, -2]));
    assert_eq!(yaml("!t [!u 5]").as_ints(), Some(vec![5]));
    assert_eq!(yaml("~").as_ints(), Some(vec![]));
    assert_eq!(yaml("[1.5]").as_ints(), None);
    assert_eq!(yaml("[9999999999999999999]").as_ints(), None);
    assert_eq!(yaml("['1']").as_ints(), None);
    assert_eq!(yaml("5").as_ints(), None);
    assert!(parse_yaml("a: [").is_err());
    assert!(yaml("5: x").get("5").is_none());
}

#[test]
fn what_a_type_does_not_know_is_not_written() {
    let section = plain("demo", yaml("hour: 8"));
    let kept = section.written(Some(yaml("hour: 9")));
    assert_eq!(section.render(&kept, None), "demo:\n  hour: 9\n");
    let fallen_back = section.written(None);
    assert_eq!(section.render(&fallen_back, None), "demo:\n  hour: 8\n");
}

#[test]
fn sections_can_be_written_by_their_plugin() {
    let mut sections = SectionRegistry::new();
    sections.register("p", own("demo", "hour: 8", DEMO));
    sections.register("p", plain("plain", yaml("a: 1")));
    sections.register("p", own("demotwo", "enable: false", DEMO_TWO));
    sections.register("q", own("other", "x: 1", 7));
    let mut values = TextMap::new();
    values.insert("demo".to_string(), yaml("hour: 3"));
    let listed: Vec<(u64, String, Yaml)> = own_renderings(&sections, "p", &values)
        .into_iter()
        .map(|item| (item.renderer, item.key, item.value))
        .collect();
    assert_eq!(
        listed,
        vec![
            (DEMO, "demo".to_string(), yaml("hour: 3")),
            (DEMO_TWO, "demotwo".to_string(), yaml("enable: false")),
        ]
    );
    let text = file_text(&sections, "p", &values);
    assert!(
        text.ends_with(
            "\n\n# 演示配置区\ndemo:\n  hour: 3\n\nplain:\n  a: 1\n\n# 升级新增的配置区\ndemotwo:\n  enable: false\n"
        ),
        "{text}"
    );
    // what a renderer made nothing of stands without comments
    let bare = template(&sections, None, "q", &values, &TextMap::new());
    assert!(bare.ends_with("\n\nother:\n  x: 1\n"), "{bare}");
}

#[test]
fn sections_are_read_edited_and_written_back() {
    let (sections, mut store) = demo_store("p");
    let entry = ConfigEntry::new("p", "demo");
    assert_eq!(
        entry.update(&mut store, |_| Ok(Yaml::Null)),
        Err("插件 p 的配置文件尚未加载".to_string())
    );
    store.init(&sections, "p", None, false, Some(1));
    let mut seen = None;
    let done = entry.update(&mut store, |value| {
        seen = value;
        Ok(Yaml::Bool(true))
    });
    assert_eq!(done, Ok(()));
    assert_eq!(seen, Some(yaml("hour: 8")));
    assert_eq!(entry.get(&store), Some(&Yaml::Bool(true)));
    assert_eq!(
        entry.update(&mut store, |_| Err("坏".to_string())),
        Err("序列化「demo」失败: 坏".to_string())
    );
    assert_eq!(entry.get(&store), Some(&Yaml::Bool(true)));
    assert!(!store.poll_changed("p", Some(1)), "the time of the file stays");
    assert_eq!(entry.current(Some(Ok(6)), 5), 6);
    assert_eq!(entry.current(Some(Err("坏".to_string())), 5), 5);
    assert_eq!(entry.current(None, 5), 5);
}

#[test]
fn sections_are_listed_with_their_owners() {
    let mut registry = SectionRegistry::new();
    let section = |key: &str| plain(key, Yaml::Null);
    registry.register("b", section("one"));
    registry.register("a", section("two"));
    registry.register("b", section("three"));
    registry.register("a", section("one"));
    assert_eq!(registry.owners(), ["b", "a"]);
    assert_eq!(registry.keys(), ["one", "two", "three"]);
    assert_eq!(registry.owner("one").as_deref(), Some("b"));
}

#[test]
fn switches_of_groups_are_planned_and_put_in_force() {
    let mut settings = Settings::new();
    let mut gating = Gating::new();
    let mut health = HealthBoard::new(5);
    assert_eq!(
        settings.set_group_enabled(5, true).err().as_deref(),
        Some("配置文件尚未初始化")
    );
    settings.init("config/arona.yml");
    let planned = settings.set_group_enabled(5, true).expect("the file is known");
    assert_eq!(planned.groups, [5]);
    assert_eq!(settings.persist(draft(planned), Ok(()), &mut gating, &mut health), Ok(false));
    assert!(gating.is_allowed_group(Some(5)) && !gating.is_allowed_group(Some(6)));
    let planned = settings.set_group_plugin_enabled(5, "tarot", false).expect("the file is known");
    assert_eq!(settings.persist(draft(planned), Ok(()), &mut gating, &mut health), Ok(true));
    assert!(!gating.plugin_enabled_in_group("tarot", Some(5)));
    assert!(gating.plugin_enabled_in_group("tarot", Some(6)));
    let planned = settings.set_group_blacklist(5, 9, true).expect("the file is known");
    let refused = settings.persist(draft(planned), Err("磁盘已满".into()), &mut gating, &mut health);
    assert_eq!(refused.err().as_deref(), Some("写入 arona.yml 失败: 磁盘已满"));
    assert!(!gating.is_blacklisted(9, Some(5)));
    let planned = settings.set_global_blacklist(9, true).expect("the file is known");
    assert_eq!(settings.persist(draft(planned), Ok(()), &mut gating, &mut health), Ok(true));
    assert!(gating.is_blacklisted(9, None) && !gating.answers(9, Some(5)));
    assert!(gating.answers(8, Some(5)) && !gating.answers(8, Some(6)));
    let planned = settings.add_to_list("managers", 9).expect("the key is a list");
    assert_eq!(settings.persist(draft(planned), Ok(()), &mut gating, &mut health), Ok(true));
    assert!(gating.is_manager(9) && gating.answers(9, Some(6)));
    let planned = settings.clear_group_setting(5).expect("the file is known");
    assert_eq!(settings.persist(draft(planned), Ok(()), &mut gating, &mut health), Ok(true));
    assert!(gating.plugin_enabled_in_group("tarot", Some(5)));
    assert!(settings.remove_group_if_present(5));
    assert!(!settings.remove_group_if_present(5));
    assert!(settings.config().groups.is_empty());
}

#[test]
fn the_behaviour_of_the_framework_is_configured() {
    let mut config = AronaConfig::empty();
    assert_eq!(config.framework.panic_disable_threshold, 5);
    config.framework.panic_disable_threshold = 2;
    config.framework.prefix_match_by_default = true;
    config.chatlog.keep_days = 9;
    let document = yaml(&framework_config::template(&config, "", "(无)", &Vec::new()));
    let framework = document.get("framework").expect("the behaviour is written");
    assert_eq!(number(framework.get("panic_disable_threshold")).as_deref(), Some("2"));
    assert_eq!(framework.get("prefix_match_by_default"), Some(&Yaml::Bool(true)));
    let chatlog = document.get("chatlog").expect("the keeping of messages is written");
    assert_eq!(chatlog.get("enable"), Some(&Yaml::Bool(true)));
    assert_eq!(number(chatlog.get("keep_days")).as_deref(), Some("9"));
    assert_eq!(number(chatlog.get("purge_interval_days")).as_deref(), Some("4"));
    assert_eq!(number(chatlog.get("quote_ttl_minutes")).as_deref(), Some("30"));
    assert!(framework_config::foreign_keys(&document, &SectionRegistry::new()).is_empty());
    let mut settings = Settings::new();
    let mut gating = Gating::new();
    let mut health = HealthBoard::new(5);
    assert!(!settings.apply(config, &mut gating, &mut health));
    assert_eq!(health.threshold(), 2);
    assert!(!health.record_panic("p", &mut gating));
    assert!(health.record_panic("p", &mut gating));
    assert!(!gating.plugin_enabled("p"));
}

#[test]
fn commands_can_change_two_lists() {
    let keys: Vec<&str> = fields().iter().map(|field| field.key).collect();
    assert_eq!(keys, ["groups", "managers"]);
    assert_eq!(find_field_index("managers"), Some(1));
    assert_eq!(find_field_index("disabled_plugins"), None);
    let settings = Settings::new();
    assert_eq!(
        settings.add_to_list("disabled_plugins", 1).err().as_deref(),
        Some("未找到配置项: disabled_plugins")
    );
}
