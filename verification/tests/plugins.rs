use arona::config::arona::GroupSetting;
use arona::config::onebot::OneBotConfig;
use arona::config::section::{ConfigSection, TypedSection};
use arona::container::ServiceContainer;
use arona::framework::Framework;
use arona::collections::TextMap;
use arona::onebot::event::{BodyFilter, EventKind};
use arona::onebot::hooks::Subscribed;
use arona::plugin::abi::{
    bridge_result, check_abi, enabled_features, field, missing_symbol_text, pack_abi,
    read_c_bytes, unpack_api, unpack_layout, Toolchain, ABI_LAYOUT, FINGERPRINT_LIMIT,
};
use arona::plugin::context::{PluginContext, PluginRegistrar};
use arona::plugin::description::{framework_api_version, ApiVersion, PluginMeta};
use arona::plugin::dynamic::{is_plugin_library, library_extension};
use arona::plugin::health::HealthBoard;
use arona::plugin::manager::{
    check_api, AronaPlugin, LifecycleOptions, PluginManager, PluginState, BUILTIN_LOADER,
};
use arona::plugin::order::find_order;
use arona::plugin::overview::{describe, owner_active_in_group, LoaderRegistry};
use arona::plugin::registries::{revoked_text, Registries, Revoked};
use arona::plugin::scope::PluginScope;
use arona::runtime::config::Gating;
use arona::runtime::priority::ListenerPriority;
use arona::yaml::Yaml;
use std::cell::{Cell, RefCell};
use std::rc::Rc;

// ---------------------------------------------------------------------------
// versions and fingerprints

fn own_toolchain() -> Toolchain {
    Toolchain {
        version: "0.1.0".into(),
        release: "1.85.0".into(),
        host: "x86_64-unknown-linux-gnu".into(),
        target: "x86_64-unknown-linux-gnu".into(),
        profile: "release".into(),
        crt_static: false,
        features: "".into(),
    }
}

#[test]
fn abi_roundtrip_keeps_layout_and_api() {
    let packed = pack_abi(&ApiVersion::new(1, 7, 3));
    assert_eq!(unpack_layout(packed), ABI_LAYOUT);
    // the patch number takes no part
    assert_eq!(unpack_api(packed), ApiVersion::new(1, 7, 0));
}

#[test]
fn fingerprint_carries_the_whole_toolchain() {
    let fingerprint = own_toolchain().fingerprint();
    for token in ["rustc/", "host/", "target/", "profile/", "crt-static/", "features/"] {
        assert!(fingerprint.contains(token), "工具链指纹缺少 {token}: {fingerprint}");
    }
    assert_eq!(
        fingerprint,
        "arona/0.1.0|rustc/1.85.0|host/x86_64-unknown-linux-gnu|target/x86_64-unknown-linux-gnu|profile/release|crt-static/0|features/"
    );
}

#[test]
fn check_abi_rejects_each_mismatch() {
    let mine = own_toolchain().fingerprint();
    let version = framework_api_version();
    assert!(check_abi(pack_abi(&version), &mine, &mine).is_ok());
    assert!(check_abi(pack_abi(&version), "arona/0.0.0|rustc/9.9.9", &mine)
        .is_err_and(|reason| reason.contains("工具链不一致")));
    let newer = ApiVersion::new(version.major, version.minor + 1, 0);
    assert!(check_abi(pack_abi(&newer), &mine, &mine)
        .is_err_and(|reason| reason.contains("插件按框架契约")));
    assert!(check_abi((ABI_LAYOUT as u64 + 7) << 32, &mine, &mine)
        .is_err_and(|reason| reason.contains("ABI 布局版本")));
}

#[test]
fn compilers_describe_themselves_in_lines() {
    let text = "rustc 1.85.0\nbinary: rustc\nrelease: 1.85.0\nhost:  x86_64-pc-windows-msvc \n";
    assert_eq!(field(text, "release").as_deref(), Some("1.85.0"));
    assert_eq!(field(text, "host").as_deref(), Some("x86_64-pc-windows-msvc"));
    assert_eq!(field(text, "commit"), None);
}

#[test]
fn features_that_change_no_shared_type_do_not_count() {
    let vars: Vec<(String, String)> = [
        ("CARGO_FEATURE_GUI", "1"),
        ("CARGO_FEATURE_DEFAULT", "1"),
        ("CARGO_FEATURE_WEB_ADMIN", "1"),
        ("CARGO_FEATURE_ADMIN", "1"),
        ("CARGO_FEATURE_OFF", "0"),
        ("PATH", "/bin"),
    ]
    .iter()
    .map(|(k, v)| (k.to_string(), v.to_string()))
    .collect();
    assert_eq!(enabled_features(&vars), "admin,web-admin");
}

#[test]
fn reported_fingerprints_end_with_a_zero() {
    assert_eq!(read_c_bytes(&vec![65, 66, 0, 67]), Ok(vec![65, 66]));
    let endless = vec![65u8; FINGERPRINT_LIMIT];
    let reason = read_c_bytes(&endless).unwrap_err();
    assert!(reason.contains("字节还没有结尾"), "{reason}");
    assert!(missing_symbol_text("x").contains("缺少导出符号"));
    assert_eq!(bridge_result(0), Ok(()));
    assert!(bridge_result(1).is_err());
}

#[test]
fn api_handshake_follows_semver_minor_rule() {
    let framework = framework_api_version();
    assert!(framework.satisfies(&ApiVersion::new(1, 0, 0)));
    assert!(framework.satisfies(&ApiVersion::new(1, 0, 9)));
    assert!(!framework.satisfies(&ApiVersion::new(1, 99, 0)), "要求比框架新的接口应判不兼容");
    assert!(!framework.satisfies(&ApiVersion::new(2, 0, 0)), "跨主版本一律不兼容");
    assert_eq!(ApiVersion::new(1, 2, 3).text(), "1.2.3");
}

#[test]
fn meta_builders_keep_defaults() {
    let meta = PluginMeta::new("demo", "Demo", "0.1.0", "演示").with_author("岚雨凛");
    assert_eq!(meta.id, "demo");
    assert_eq!(meta.author, "岚雨凛");
    assert!(meta.is_compatible(), "默认要求的正是当前契约版本");
    assert!(meta.depends.is_empty() && meta.soft_depends.is_empty());
}

#[test]
fn a_plugin_that_asks_for_more_is_told_so() {
    let meta = PluginMeta::new("demo", "Demo", "0.1.0", "演示").requires_api(ApiVersion::new(9, 0, 0));
    let reason = check_api(&meta).unwrap_err();
    assert!(reason.contains("9.0.0") && reason.contains("1.0.0"), "{reason}");
}

// ---------------------------------------------------------------------------
// libraries

#[test]
fn discovery_only_picks_up_plugin_libraries() {
    let ext = library_extension("linux");
    assert_eq!(ext, "so");
    assert_eq!(library_extension("windows"), "dll");
    assert_eq!(library_extension("macos"), "dylib");
    for (name, expected) in [
        (format!("top.{ext}"), true),
        (format!("inside.{ext}"), true),
        (format!("_dep.{ext}"), false),
        ("readme.txt".to_string(), false),
        ("not-a-plugin.exe".to_string(), false),
    ] {
        assert_eq!(is_plugin_library(&name, ext), expected, "{name}");
    }
}

// ---------------------------------------------------------------------------
// services

struct DummyService {
    answer: i32,
}

const DUMMY: u64 = 1;

#[test]
fn declares_provides_and_revokes_by_plugin() {
    let mut gating = Gating::new();
    let mut container: ServiceContainer<DummyService> = ServiceContainer::new();
    let plugin = "ContainerTestPlugin";
    assert!(
        container.declare(plugin, DUMMY, "DummyService", DummyService { answer: 41 }).is_none(),
        "首次登记不该有被替换者"
    );
    assert_eq!(container.instance(DUMMY, &gating).map(|service| service.answer), Some(41));
    assert_eq!(container.provider_of(DUMMY).as_deref(), Some(plugin));

    assert_eq!(
        container.declare(plugin, DUMMY, "DummyService", DummyService { answer: 42 }).as_deref(),
        Some(plugin)
    );
    assert_eq!(container.instance(DUMMY, &gating).map(|service| service.answer), Some(42));

    gating.config.disabled_plugins = vec![plugin.to_string()];
    assert!(container.instance(DUMMY, &gating).is_none(), "停用插件的服务不该可用");
    gating.config.disabled_plugins = Vec::new();
    assert!(container.instance(DUMMY, &gating).is_some(), "重新启用后应恢复");

    assert_eq!(container.revoke_plugin(plugin), 1);
    assert!(container.instance(DUMMY, &gating).is_none());
    assert!(container.list().iter().all(|info| info.plugin != plugin));
    let other: ServiceContainer<DummyService> = ServiceContainer::new();
    assert!(other.instance(DUMMY, &gating).is_none());
}

trait DiceRoller {
    fn roll(&self, sides: u64) -> u64;
}

struct MyDice;

impl DiceRoller for MyDice {
    fn roll(&self, sides: u64) -> u64 {
        sides
    }
}

#[test]
fn interface_service_roundtrips_as_arc_of_dyn() {
    type Dice = std::sync::Arc<dyn DiceRoller>;
    let gating = Gating::new();
    let mut container: ServiceContainer<Dice> = ServiceContainer::new();
    let dice: Dice = std::sync::Arc::new(MyDice);
    container.declare("InterfaceDice", 7, "Dice", dice);
    let dice = container.instance(7, &gating).expect("接口服务应按 Arc<dyn Trait> 取回");
    assert_eq!(dice.roll(6), 6);
    assert_eq!(container.provider_of(7).as_deref(), Some("InterfaceDice"));
    assert_eq!(container.revoke_plugin("InterfaceDice"), 1);
    assert!(container.instance(7, &gating).is_none());
}

#[test]
fn services_are_listed_by_name() {
    let mut container: ServiceContainer<u64> = ServiceContainer::new();
    container.declare("p", 2, "b", 0);
    container.declare("q", 1, "a", 0);
    let names: Vec<String> = container.list().into_iter().map(|info| info.name).collect();
    assert_eq!(names, vec!["a", "b"]);
}

// ---------------------------------------------------------------------------
// the life of plugins

#[derive(Default)]
struct Calls {
    total: Cell<usize>,
    stopped: Cell<bool>,
    reloaded: Cell<usize>,
}

struct Probe {
    meta: PluginMeta,
    calls: Rc<Calls>,
    configure: fn(&PluginContext, &mut Registries) -> Result<(), String>,
}

impl AronaPlugin for Probe {
    fn meta(&self) -> PluginMeta {
        self.meta.copy()
    }
    fn install(&self, registrar: &PluginRegistrar, registries: &mut Registries) -> Result<(), String> {
        self.calls.total.set(self.calls.total.get() + 1);
        registrar.config(registries, section("demo"));
        Ok(())
    }
    fn configure(&self, context: &PluginContext, registries: &mut Registries) -> Result<(), String> {
        self.calls.total.set(self.calls.total.get() + 1);
        (self.configure)(context, registries)
    }
    fn start(&self, _context: &PluginContext, _registries: &mut Registries) -> Result<(), String> {
        self.calls.total.set(self.calls.total.get() + 1);
        Ok(())
    }
    fn on_config_reload(&self, _context: &PluginContext, _registries: &mut Registries) {
        self.calls.reloaded.set(self.calls.reloaded.get() + 1);
    }
    fn stop(&self, _context: &PluginContext, _registries: &mut Registries) {
        self.calls.total.set(self.calls.total.get() + 1);
        self.calls.stopped.set(true);
    }
}

fn section(key: &str) -> ConfigSection {
    let typed = TypedSection { title: "".into(), doc: "".into(), comments: Vec::new() };
    ConfigSection::typed(key, typed, Yaml::Null)
}

fn quiet(_context: &PluginContext, _registries: &mut Registries) -> Result<(), String> {
    Ok(())
}

fn probe(meta: PluginMeta, calls: &Rc<Calls>) -> Probe {
    Probe { meta, calls: calls.clone(), configure: quiet }
}

fn plain(id: &str) -> PluginMeta {
    PluginMeta::new(id, "契约自检插件", "1.0.0", "生命周期自检")
}

fn options() -> LifecycleOptions {
    LifecycleOptions {
        onebot_config: OneBotConfig {
            self_id: 1,
            nickname: "Arona".to_string(),
            send_image_as_file: false,
            connections: TextMap::new(),
        },
        test_notify: false,
    }
}

fn state(manager: &PluginManager<Probe>, id: &str) -> PluginState {
    manager.state_of(id).expect("插件应已登记")
}

#[test]
fn lifecycle_runs_two_plugins_independently() {
    let calls = Rc::new(Calls::default());
    let mut framework: Framework<Probe> = Framework::new();
    let listens: fn(&PluginContext, &mut Registries) -> Result<(), String> = |context, registries| {
        context.on_message(registries, 1);
        Ok(())
    };
    let counting = |id: &str| Probe { meta: plain(id), calls: calls.clone(), configure: listens };
    assert!(framework.plugins.register(counting("ContractAlpha")));
    assert!(framework.plugins.register(counting("ContractBeta")));
    assert!(!framework.plugins.register(counting("ContractAlpha")), "同 id 重复登记应被拒绝");

    assert!(framework.plugins.install_all(&mut framework.registries).is_empty());
    let alpha = framework.plugins.find("ContractAlpha").unwrap();
    let descriptor = describe(
        framework.plugins.plugins[alpha].meta(),
        framework.plugins.plugins[alpha].loader(),
    );
    for line in [
        "id: ContractAlpha",
        "name: 契约自检插件",
        "version: 1.0.0",
        "apiVersion: 1.0.0",
        "loader: builtin",
        "depends: []",
        "softDepends: []",
        "config: config/ContractAlpha/arona.yml",
        "data: data/ContractAlpha",
    ] {
        assert!(descriptor.contains(&format!("{line}\n")), "清单缺少 {line}: {descriptor}");
    }
    assert!(framework
        .plugins
        .configure_all(options(), &framework.gating, &mut framework.registries)
        .is_empty());
    assert!(framework.plugins.start_all(&mut framework.registries).is_empty());
    assert_eq!(calls.total.get(), 6);
    assert_eq!(framework.plugins.active_ids().len(), 2);
    assert_eq!(framework.hooks().hook_count("ContractAlpha"), 1);

    // one plugin is turned off, the other goes on
    framework.gating.config.disabled_plugins = vec!["ContractAlpha".to_string()];
    framework.plugins.sync_enabled_state(&framework.gating, &mut framework.registries);
    assert_eq!(state(&framework.plugins, "ContractAlpha"), PluginState::Disabled);
    assert_eq!(framework.hooks().hook_count("ContractAlpha"), 0);
    assert_eq!(framework.hooks().hook_count("ContractBeta"), 1);
    assert!(framework.plugins.dispatcher_active_in_group(Some(1), &framework.gating));

    // off in one group only
    framework.gating.config.group_settings.insert(
        "1".to_string(),
        GroupSetting {
            disabled_features: Vec::new(),
            blacklist: Vec::new(),
            disabled_plugins: vec!["ContractBeta".to_string()],
        },
    );
    assert!(!framework.plugins.dispatcher_active_in_group(Some(1), &framework.gating));
    assert!(framework.plugins.dispatcher_active_in_group(Some(2), &framework.gating));
    framework.gating.config.group_settings = TextMap::new();

    // turned on again, it is assembled and started again
    framework.gating.config.disabled_plugins = Vec::new();
    framework.plugins.sync_enabled_state(&framework.gating, &mut framework.registries);
    assert_eq!(state(&framework.plugins, "ContractAlpha"), PluginState::Active);
    assert_eq!(framework.hooks().hook_count("ContractAlpha"), 1);

    framework.plugins.stop_all(&mut framework.registries);
    assert_eq!(calls.total.get(), 6 + 1 + 2 + 2);
    assert!(framework.plugins.active_ids().is_empty());
    assert_eq!(framework.hooks().hook_count("ContractAlpha"), 0);
}

#[test]
fn panicking_configure_fails_only_that_plugin() {
    const CRASHER: &str = "LifecyclePanicCrasher";
    const BYSTANDER: &str = "LifecyclePanicBystander";
    let calls = Rc::new(Calls::default());
    let mut framework: Framework<Probe> = Framework::new();
    let configure: fn(&PluginContext, &mut Registries) -> Result<(), String> = |context, registries| {
        // something goes on record before the failure
        context.on_notice(registries, 1);
        if context.plugin_id() == CRASHER {
            return Err(arona::plugin::lifecycle::crashed_text("configure"));
        }
        Ok(())
    };
    for id in [CRASHER, BYSTANDER] {
        assert!(framework.plugins.register(Probe {
            meta: plain(id),
            calls: calls.clone(),
            configure,
        }));
    }
    assert!(framework.plugins.install_all(&mut framework.registries).is_empty());
    let failures =
        framework.plugins.configure_all(options(), &framework.gating, &mut framework.registries);
    assert_eq!(
        failures.iter().map(|(id, _)| id.as_str()).collect::<Vec<_>>(),
        vec![CRASHER],
        "只该报出事那一家: {failures:?}"
    );
    assert!(failures[0].1.contains("panic"), "失败原因要点名 panic: {:?}", failures[0]);
    assert!(
        matches!(state(&framework.plugins, CRASHER), PluginState::Failed(_)),
        "出事插件应标 Failed"
    );
    assert_eq!(state(&framework.plugins, BYSTANDER), PluginState::Ready);
    assert_eq!(framework.hooks().hook_count(CRASHER), 0);
    assert_eq!(framework.hooks().hook_count(BYSTANDER), 1);
    framework.plugins.stop_all(&mut framework.registries);
}

#[test]
fn disabling_a_plugin_revokes_everything_it_registered() {
    const ID: &str = "ContractResource";
    let calls = Rc::new(Calls::default());
    let mut framework: Framework<Probe> = Framework::new();
    let configure: fn(&PluginContext, &mut Registries) -> Result<(), String> = |context, registries| {
        context.listen(registries, &vec![EventKind::Notice], ListenerPriority::Normal, 1);
        context.daily_job(registries, 3, "ContractResourceDaily", 2);
        context.declare_service(registries, 9, "ProbeService", 3);
        context.spawn(registries, 4);
        Ok(())
    };
    assert!(framework.plugins.register(Probe { meta: plain(ID), calls: calls.clone(), configure }));
    assert!(framework.plugins.install_all(&mut framework.registries).is_empty());
    assert!(framework
        .plugins
        .configure_all(options(), &framework.gating, &mut framework.registries)
        .is_empty());
    assert!(framework.plugins.start_all(&mut framework.registries).is_empty());

    let plugin = framework.plugins.find(ID).expect("插件应已登记");
    assert_eq!(framework.hooks().hook_count(ID), 1, "事件订阅应记在插件名下");
    assert!(framework.jobs().contains("ContractResourceDaily"));
    assert!(framework.container().instance(9, framework.gating()).is_some());
    assert_eq!(framework.registries.scopes.running_tasks(ID), 1, "后台任务应由作用域记账");

    framework.plugins.disable(plugin, &mut framework.registries);
    assert!(calls.stopped.get(), "停用时框架要调用插件的 stop()");
    assert_eq!(framework.hooks().hook_count(ID), 0, "事件订阅应随停用注销");
    assert!(!framework.jobs().contains("ContractResourceDaily"), "定时任务应整组取消");
    assert!(framework.container().instance(9, framework.gating()).is_none(), "服务应被撤销");
    assert_eq!(framework.registries.scopes.running_tasks(ID), 0, "后台任务应被取消");
    assert_eq!(framework.registries.scopes.cancelled, vec![4]);
    assert_eq!(state(&framework.plugins, ID), PluginState::Disabled);
}

#[test]
fn dependencies_install_in_topological_order_and_cascade() {
    let calls = Rc::new(Calls::default());
    let current = framework_api_version();
    let mut framework: Framework<Probe> = Framework::new();
    // the dependent plugin is registered first
    for (id, depends, api) in [
        ("DependChild", vec!["DependParent"], current),
        ("DependParent", vec![], current),
        ("DependStale", vec![], ApiVersion::new(current.major + 1, 0, 0)),
    ] {
        let meta = plain(id).depends_on(&depends).requires_api(api);
        assert!(framework.plugins.register(probe(meta, &calls)));
    }
    let order = framework.plugins.ordered();
    let ids: Vec<String> =
        order.iter().map(|i| framework.plugins.plugins[*i].id().to_string()).collect();
    assert!(
        ids.iter().position(|id| id == "DependParent")
            < ids.iter().position(|id| id == "DependChild"),
        "被依赖者要排在前面: {ids:?}"
    );
    let failures = framework.plugins.install_all(&mut framework.registries);
    assert_eq!(
        failures.iter().map(|(id, _)| id.as_str()).collect::<Vec<_>>(),
        vec!["DependStale"],
        "只有契约不兼容的插件该被淘汰"
    );
    assert!(matches!(state(&framework.plugins, "DependStale"), PluginState::Failed(_)));
    assert!(framework
        .plugins
        .configure_all(options(), &framework.gating, &mut framework.registries)
        .is_empty());
    assert!(framework.plugins.start_all(&mut framework.registries).is_empty());
    assert_eq!(framework.plugins.active_ids().len(), 2, "别家插件不受一家失败的影响");

    framework.gating.config.disabled_plugins = vec!["DependParent".to_string()];
    let changed = framework.plugins.sync_enabled_state(&framework.gating, &mut framework.registries);
    assert!(changed.contains(&"DependParent".to_string()));
    assert_eq!(state(&framework.plugins, "DependChild"), PluginState::Disabled);
    framework.gating.config.disabled_plugins = Vec::new();
    framework.plugins.sync_enabled_state(&framework.gating, &mut framework.registries);
    assert_eq!(
        state(&framework.plugins, "DependChild"),
        PluginState::Active,
        "依赖恢复后下游要能重新装配"
    );
    assert!(
        matches!(state(&framework.plugins, "DependStale"), PluginState::Failed(_)),
        "契约不兼容的插件不该被运行期开关重新拉起"
    );
    assert_eq!(framework.plugins.active_ids().len(), 2);
}

#[test]
fn dispatcher_gate_follows_plugin_switches() {
    const PLUGIN: &str = "DispatcherGateTestPlugin";
    let calls = Rc::new(Calls::default());
    let mut framework: Framework<Probe> = Framework::new();
    assert!(!framework.plugins.dispatcher_active_in_group(None, &framework.gating));
    assert!(framework.plugins.register(probe(plain(PLUGIN), &calls)));
    assert!(framework.plugins.install_all(&mut framework.registries).is_empty());
    framework.plugins.configure_all(options(), &framework.gating, &mut framework.registries);
    framework.plugins.start_all(&mut framework.registries);
    assert!(framework.plugins.dispatcher_active_in_group(None, &framework.gating));

    framework.gating.config.group_settings.insert(
        "1".to_string(),
        GroupSetting {
            disabled_features: Vec::new(),
            blacklist: Vec::new(),
            disabled_plugins: vec![PLUGIN.to_string()],
        },
    );
    assert!(
        !framework.plugins.dispatcher_active_in_group(Some(1), &framework.gating),
        "该群已禁用插件，不应路由"
    );
    assert!(
        framework.plugins.dispatcher_active_in_group(Some(2), &framework.gating),
        "未设置的群应保持可用"
    );
    let owner = |group: Option<i64>| owner_active_in_group(Some(PLUGIN), group, &framework.gating);
    assert!(!owner(Some(1)), "该群已禁用插件，不应路由");
    assert!(owner(Some(2)), "未设置的群应保持可用");
    assert!(owner(None));
    framework.gating.config.group_settings = TextMap::new();
    assert!(framework.plugins.dispatcher_active_in_group(Some(1), &framework.gating));

    framework.gating.disable_plugin(PLUGIN);
    assert!(!framework.plugins.dispatcher_active_in_group(None, &framework.gating));
    assert!(!owner_active_in_group(Some(PLUGIN), None, &framework.gating));
    assert!(owner_active_in_group(None, Some(1), &framework.gating), "nobody has put anything up");
}

#[test]
fn plugins_that_need_each_other_stay_down() {
    let calls = Rc::new(Calls::default());
    let mut framework: Framework<Probe> = Framework::new();
    for (id, needs) in [("A", "B"), ("B", "A"), ("C", "")] {
        let meta = if needs.is_empty() { plain(id) } else { plain(id).depends_on(&[needs]) };
        assert!(framework.plugins.register(probe(meta, &calls)));
    }
    framework.plugins.install_all(&mut framework.registries);
    framework.plugins.configure_all(options(), &framework.gating, &mut framework.registries);
    framework.plugins.start_all(&mut framework.registries);
    assert_eq!(framework.plugins.active_ids(), vec!["C"]);
    assert!(matches!(state(&framework.plugins, "A"), PluginState::Failed(_)));
    assert_eq!(find_order(&vec![vec![1], vec![0], vec![]]), vec![2]);
}

#[test]
fn plugins_hear_of_a_changed_configuration() {
    let calls = Rc::new(Calls::default());
    let mut framework: Framework<Probe> = Framework::new();
    for id in ["A", "B"] {
        assert!(framework.plugins.register(probe(plain(id), &calls)));
    }
    framework.plugins.install_all(&mut framework.registries);
    framework.plugins.configure_all(options(), &framework.gating, &mut framework.registries);
    framework.plugins.start_all(&mut framework.registries);
    framework.plugins.notify_config_reloaded(Some("A"), &mut framework.registries);
    assert_eq!(calls.reloaded.get(), 1);
    framework.plugins.notify_config_reloaded(None, &mut framework.registries);
    assert_eq!(calls.reloaded.get(), 3);
    assert_eq!(framework.sections().owner("demo").as_deref(), Some("A"), "先登记的保留");
}

/// A plugin that writes down how it is called, and refuses the named calls.
struct Recorder {
    meta: PluginMeta,
    log: Rc<RefCell<Vec<String>>>,
    refuses: Vec<&'static str>,
}

impl Recorder {
    fn note(&self, call: &str) -> Result<(), String> {
        self.log.borrow_mut().push(format!("{call} {}", self.meta.id));
        if self.refuses.contains(&call) {
            Err(format!("{call} 不成"))
        } else {
            Ok(())
        }
    }
}

impl AronaPlugin for Recorder {
    fn meta(&self) -> PluginMeta {
        self.meta.copy()
    }
    fn install(&self, registrar: &PluginRegistrar, _registries: &mut Registries) -> Result<(), String> {
        assert_eq!(registrar.plugin_id(), self.meta.id);
        self.note("install")
    }
    fn configure(&self, context: &PluginContext, registries: &mut Registries) -> Result<(), String> {
        assert_eq!(context.plugin_id(), self.meta.id);
        assert!(context.test_notify && context.onebot_config.self_id == 7);
        context.on_message(registries, 1);
        self.note("configure")
    }
    fn start(&self, context: &PluginContext, registries: &mut Registries) -> Result<(), String> {
        context.daily_job(registries, 3, &format!("daily {}", self.meta.id), 1);
        self.note("start")
    }
    fn on_config_reload(&self, _context: &PluginContext, _registries: &mut Registries) {
        let _ = self.note("reload");
    }
    fn stop(&self, _context: &PluginContext, _registries: &mut Registries) {
        let _ = self.note("stop");
    }
}

struct Recorded {
    framework: Framework<Recorder>,
    log: Rc<RefCell<Vec<String>>>,
}

impl Recorded {
    fn new(plugins: &[(&str, &[&str], &[&'static str])]) -> Recorded {
        let log = Rc::new(RefCell::new(Vec::new()));
        let mut framework = Framework::new();
        for (id, needs, refuses) in plugins {
            let meta = plain(id).depends_on(needs);
            let recorder = Recorder { meta, log: log.clone(), refuses: refuses.to_vec() };
            assert!(framework.plugins.register(recorder));
        }
        Recorded { framework, log }
    }
    fn calls(&self) -> Vec<String> {
        std::mem::take(&mut *self.log.borrow_mut())
    }
    fn up(&mut self) -> Vec<(String, String)> {
        let f = &mut self.framework;
        let mut failures = f.plugins.install_all(&mut f.registries);
        let given = LifecycleOptions {
            onebot_config: OneBotConfig { self_id: 7, ..options().onebot_config },
            test_notify: true,
        };
        failures.extend(f.plugins.configure_all(given, &f.gating, &mut f.registries));
        failures.extend(f.plugins.start_all(&mut f.registries));
        failures
    }
    fn sync(&mut self) -> Vec<String> {
        let f = &mut self.framework;
        f.plugins.sync_enabled_state(&f.gating, &mut f.registries)
    }
    fn state(&self, id: &str) -> PluginState {
        self.framework.plugins.state_of(id).expect("插件应已登记")
    }
    fn on_record(&self, id: &str) -> (usize, bool) {
        (self.framework.hooks().hook_count(id), self.framework.jobs().contains(&format!("daily {id}")))
    }
}

#[test]
fn every_plugin_is_called_once_and_a_refusal_stops_nobody_else() {
    let mut all = Recorded::new(&[
        ("NoInstall", &[], &["install"]),
        ("NoConfigure", &[], &["configure"]),
        ("NoStart", &[], &["start"]),
        ("Fine", &[], &[]),
    ]);
    let failures = all.up();
    assert_eq!(
        failures,
        vec![
            ("NoInstall".to_string(), "install 不成".to_string()),
            ("NoConfigure".to_string(), "configure 不成".to_string()),
            ("NoStart".to_string(), "start 不成".to_string()),
        ]
    );
    assert_eq!(
        all.calls(),
        vec![
            "install NoInstall",
            "install NoConfigure",
            "install NoStart",
            "install Fine",
            "configure NoConfigure",
            "configure NoStart",
            "configure Fine",
            "start NoStart",
            "start Fine",
        ]
    );
    assert_eq!(all.state("NoInstall"), PluginState::Failed("install 不成".to_string()));
    assert_eq!(all.state("NoConfigure"), PluginState::Failed("configure 不成".to_string()));
    assert_eq!(all.state("NoStart"), PluginState::Failed("start 不成".to_string()));
    assert_eq!(all.state("Fine"), PluginState::Active);
    assert_eq!(all.on_record("NoConfigure"), (0, false), "what it put on record is taken back");
    assert_eq!(all.on_record("NoStart"), (0, false));
    assert_eq!(all.on_record("Fine"), (1, true));
}

#[test]
fn dependents_go_down_first_and_come_up_last() {
    let mut all = Recorded::new(&[("C", &["P"], &[]), ("P", &[], &[])]);
    assert!(all.up().is_empty());
    assert_eq!(
        all.calls(),
        vec!["install P", "install C", "configure P", "configure C", "start P", "start C"]
    );
    assert!(all.sync().is_empty(), "nothing is to change");
    assert!(all.calls().is_empty(), "so nobody is called");

    all.framework.gating.config.disabled_plugins = vec!["P".to_string()];
    assert_eq!(all.sync(), vec!["C", "P"]);
    assert_eq!(all.calls(), vec!["stop C", "stop P"]);
    for id in ["C", "P"] {
        assert_eq!(all.state(id), PluginState::Disabled);
        assert_eq!(all.on_record(id), (0, false), "what is turned off has nothing on record");
    }
    assert!(all.sync().is_empty());
    assert!(all.calls().is_empty());

    all.framework.gating.config.disabled_plugins = Vec::new();
    assert_eq!(all.sync(), vec!["P", "C"]);
    assert_eq!(all.calls(), vec!["configure P", "start P", "configure C", "start C"]);
    for id in ["C", "P"] {
        assert_eq!(all.state(id), PluginState::Active);
        assert_eq!(all.on_record(id), (1, true));
    }

    let f = &mut all.framework;
    f.plugins.stop_all(&mut f.registries);
    assert_eq!(all.calls(), vec!["stop C", "stop P"]);
    assert!(all.framework.plugins.active_plugins().is_empty());
    for id in ["C", "P"] {
        assert_eq!(all.state(id), PluginState::Disabled);
        assert_eq!(all.on_record(id), (0, false));
    }
    let f = &mut all.framework;
    f.plugins.stop_all(&mut f.registries);
    assert!(all.calls().is_empty(), "who is down is not called again");
}

#[test]
fn turning_off_reaches_those_that_need_and_those_that_need_these() {
    let mut all = Recorded::new(&[("Top", &["Middle"], &[]), ("Middle", &["Base"], &[]), ("Base", &[], &[])]);
    assert!(all.up().is_empty());
    all.calls();
    all.framework.gating.config.disabled_plugins = vec!["base".to_string()];
    assert_eq!(all.sync(), vec!["Middle", "Base", "Top"]);
    assert_eq!(all.calls(), vec!["stop Middle", "stop Base", "stop Top"]);
    for id in ["Top", "Middle", "Base"] {
        assert_eq!(all.state(id), PluginState::Disabled);
        assert_eq!(all.on_record(id), (0, false));
    }
    all.framework.gating.config.disabled_plugins = Vec::new();
    assert_eq!(all.sync(), vec!["Base", "Middle", "Top"]);
    assert_eq!(all.framework.plugins.active_ids().len(), 3);
}

#[test]
fn only_plugins_at_work_hear_of_a_changed_configuration() {
    let mut all = Recorded::new(&[("C", &["P"], &[]), ("P", &[], &[]), ("Off", &[], &["start"])]);
    assert!(all.framework.plugins.reload_listeners(None).is_empty(), "nobody is at work yet");
    all.up();
    all.calls();
    assert_eq!(all.framework.plugins.reload_listeners(None), vec![1, 0]);
    assert_eq!(all.framework.plugins.reload_listeners(Some("c")), vec![0]);
    assert!(all.framework.plugins.reload_listeners(Some("Off")).is_empty());
    assert!(all.framework.plugins.reload_listeners(Some("nobody")).is_empty());
    let f = &mut all.framework;
    f.plugins.notify_config_reloaded(None, &mut f.registries);
    f.plugins.notify_config_reloaded(Some("c"), &mut f.registries);
    f.plugins.notify_config_reloaded(Some("nobody"), &mut f.registries);
    f.plugins.notify_config_reloaded_of("p", &mut f.registries);
    f.plugins.notify_config_reloaded_of("Off", &mut f.registries);
    assert_eq!(all.calls(), vec!["reload P", "reload C", "reload C", "reload P"]);
    assert_eq!(all.state("C"), PluginState::Active);
}

#[test]
fn a_plugin_can_be_turned_off_by_its_id() {
    let mut all = Recorded::new(&[("A", &[], &[]), ("B", &[], &[])]);
    all.up();
    all.calls();
    let f = &mut all.framework;
    assert!(f.plugins.disable_id("a", &mut f.registries));
    assert!(f.plugins.disable_id("A", &mut f.registries), "it is known though it is off");
    assert!(!f.plugins.disable_id("nobody", &mut f.registries));
    assert_eq!(all.calls(), vec!["stop A"]);
    assert_eq!(all.state("A"), PluginState::Disabled);
    assert_eq!(all.on_record("A"), (0, false));
    assert_eq!(all.on_record("B"), (1, true));
}

#[test]
fn answers_decide_where_a_plugin_stands() {
    let current = framework_api_version();
    let mut all = Recorded::new(&[("A", &[], &[])]);
    let stale = plain("Stale").requires_api(ApiVersion::new(current.major + 1, 0, 0));
    let recorder = Recorder { meta: stale, log: all.log.clone(), refuses: Vec::new() };
    assert!(all.framework.plugins.register(recorder));
    let plugins = &mut all.framework.plugins;
    assert_eq!(plugins.note_installed(0, Err("坏".to_string())), Err("坏".to_string()));
    assert_eq!(plugins.state_of("A"), Some(PluginState::Failed("坏".to_string())));
    assert_eq!(plugins.note_installed(0, Ok(())), Ok(()));
    assert_eq!(plugins.state_of("A"), Some(PluginState::Installed));
    let reason = plugins.note_installed(1, Ok(())).unwrap_err();
    assert!(reason.starts_with("插件契约版本不兼容: 要求 api 2.0.0"), "{reason}");
    assert_eq!(plugins.state_of("Stale"), Some(PluginState::Failed(reason)));

    assert_eq!(plugins.note_started(0, Ok(())), Err("装配未完成，缺少上下文".to_string()));
    let context = || PluginContext::new("A", options().onebot_config, false);
    plugins.note_assembled(0, context(), &Err("坏".to_string()));
    assert_eq!(plugins.state_of("A"), Some(PluginState::Failed("坏".to_string())));
    plugins.note_assembled(0, context(), &Ok(()));
    assert_eq!(plugins.state_of("A"), Some(PluginState::Ready));
    assert_eq!(plugins.note_started(0, Err("停".to_string())), Err("停".to_string()));
    assert_eq!(plugins.state_of("A"), Some(PluginState::Failed("停".to_string())));
    assert_eq!(plugins.note_started(0, Ok(())), Ok(()));
    assert_eq!(plugins.state_of("A"), Some(PluginState::Active));
    assert!(all.calls().is_empty(), "noting calls nobody");
}

#[test]
fn overviews_tell_who_is_there() {
    let calls = Rc::new(Calls::default());
    let mut manager: PluginManager<Probe> = PluginManager::new();
    let meta = PluginMeta::new("demo", "演示", "1.0.0", "说明");
    assert_eq!(manager.register_loaded("dynamic", vec![probe(meta, &calls)]), 1);
    assert_eq!(manager.metas().len(), 1);
    assert_eq!(manager.meta_of("demo").map(|meta| meta.name), Some("演示".to_string()));
    assert_eq!(manager.display_name("demo"), "演示");
    assert_eq!(manager.display_name("other"), "other");
    assert!(manager.is_plugin_name("演示"));
    assert!(!manager.is_plugin_name("demo"));
    let summary = manager.summary();
    assert_eq!((summary.total, summary.active), (1, 0));
    assert_eq!(manager.statuses()[0].1, PluginState::Loaded);
    assert_eq!(manager.plugins[0].loader(), "dynamic");
    assert_eq!(manager.log_source("demo", "定时 早报"), "演示:定时 早报");
    assert_eq!(manager.log_source("", "定时 早报"), "Arona");
    assert!(manager.active_plugins().is_empty());
    assert_eq!(BUILTIN_LOADER, "builtin");
}

#[test]
fn withdrawing_takes_a_plugin_off_the_list() {
    let mut container: ServiceContainer<u64> = ServiceContainer::new();
    for (plugin, kind, name) in [("p", 1, "b"), ("q", 2, "a"), ("p", 3, "c"), ("q", 4, "b")] {
        assert!(container.declare(plugin, kind, name, kind).is_none());
    }
    let listed = |container: &ServiceContainer<u64>| -> Vec<(String, String)> {
        container.list().into_iter().map(|info| (info.plugin, info.name)).collect()
    };
    let before = listed(&container);
    assert_eq!(before.len(), 4);
    assert_eq!(container.revoke_plugin("p"), 2);
    let expected: Vec<(String, String)> = before.into_iter().filter(|info| info.0 != "p").collect();
    assert_eq!(listed(&container), expected);
    assert_eq!(container.revoke_plugin("p"), 0);
    assert_eq!(listed(&container), expected);
}

// ---------------------------------------------------------------------------
// background tasks, failures and what is taken back

#[test]
fn cancel_all_stops_every_spawned_task() {
    let mut scope = PluginScope::new("ScopeTestPlugin");
    scope.spawn_detached(11);
    scope.spawn_detached(12);
    scope.spawn_detached(13);
    scope.finished(12);
    assert_eq!(scope.running_tasks(), 2);
    let mut cancelled = Vec::new();
    assert_eq!(scope.cancel_all(&mut cancelled), 2, "两个任务都该被记账并取消");
    assert_eq!(cancelled, vec![11, 13]);
    assert_eq!(scope.running_tasks(), 0);
}

#[test]
fn failures_in_a_row_take_a_plugin_out_of_service() {
    let mut gating = Gating::new();
    let mut health = HealthBoard::new(3);
    assert!(!health.record_panic("p", &mut gating));
    assert!(!health.record_panic("p", &mut gating));
    health.record_success("p");
    assert_eq!(health.failures("p"), 0);
    assert!(!health.record_panic("p", &mut gating));
    assert!(!health.record_panic("p", &mut gating));
    assert!(gating.plugin_enabled("p"));
    assert!(health.record_panic("p", &mut gating));
    assert!(!gating.plugin_enabled("p"));
    // with a threshold of zero failures are only counted
    let mut patient = HealthBoard::new(0);
    let mut open = Gating::new();
    for _ in 0..10 {
        assert!(!patient.record_panic("p", &mut open));
    }
    assert_eq!(patient.failures("p"), 10);
    assert!(open.plugin_enabled("p"));
}

#[test]
fn what_was_taken_back_is_told() {
    let nothing = Revoked { tasks: 0, jobs: 0, hooks: 0, services: 0 };
    assert!(revoked_text("p", &nothing, 0).is_none());
    let some = Revoked { tasks: 1, jobs: 2, hooks: 3, services: 4 };
    let text = revoked_text("p", &some, 0).expect("something was taken back");
    assert!(text.contains("p"), "{text}");
    let mut registries = Registries::new();
    let context = PluginContext::new("p", options().onebot_config, false);
    context.on_meta(&mut registries, 1);
    let other = PluginContext::new("q", options().onebot_config, false);
    other.on_meta(&mut registries, 1);
    assert_eq!(registries.revoke("p").hooks, 1);
    assert_eq!(registries.hooks.hook_count("q"), 1);
}

#[test]
fn a_context_schedules_and_takes_back() {
    let mut registries = Registries::new();
    let context = PluginContext::new("demo", OneBotConfig::default(), false);
    assert_eq!(context.on_request(&mut registries, 1), Subscribed::Added);
    assert_eq!(context.on_group_message(&mut registries, 2), Subscribed::Added);
    assert_eq!(context.on_private_message(&mut registries, 3), Subscribed::Added);
    let filters = vec![BodyFilter::All];
    let priority = ListenerPriority::High;
    assert_eq!(context.listen_where(&mut registries, filters, priority, 4), Subscribed::Added);
    assert_eq!(registries.hooks.hook_count("demo"), 4);
    context.repeat_job(&mut registries, 60, "again", 5);
    context.single_job(&mut registries, 1_000, "once", 6);
    context.delay_job(&mut registries, 5, "later", 7);
    let names: Vec<String> = registries.jobs.list().into_iter().map(|job| job.name).collect();
    assert_eq!(names, ["again", "later", "once"]);
    assert!(context.remove_job(&mut registries, "once"));
    assert!(!context.remove_job(&mut registries, "once"));
    let revoked = registries.revoke("demo");
    assert_eq!((revoked.jobs, revoked.hooks), (2, 4));
}

#[test]
fn loaders_are_known_by_name_and_asked_once() {
    let mut loaders = LoaderRegistry::new();
    assert!(loaders.add_loader("dynamic"));
    assert!(!loaders.add_loader("dynamic"));
    assert!(loaders.add_loader("script"));
    assert_eq!(loaders.drain(), ["dynamic", "script"]);
    assert!(loaders.drain().is_empty());
}

#[test]
fn states_tell_what_can_be_done() {
    assert!(PluginState::Active.is_running() && !PluginState::Disabled.is_running());
    assert!(PluginState::Installed.can_assemble() && PluginState::Disabled.can_assemble());
    assert!(PluginState::Failed("x".into()).can_assemble());
    assert!(!PluginState::Loaded.can_assemble() && !PluginState::Active.can_assemble());
    let meta = PluginMeta::new("a", "A", "1", "").soft_depends_on(&["b", "c"]);
    assert_eq!(meta.soft_depends, ["b", "c"]);
    let mut board = HealthBoard::new(5);
    board.set_threshold(2);
    let mut gating = Gating::new();
    assert!(!board.record_panic("a", &mut gating));
    assert!(board.record_panic("a", &mut gating));
    assert!(!gating.plugin_enabled("A"));
}

#[test]
fn a_plugin_has_its_own_places() {
    let registrar = PluginRegistrar::new("demo");
    let context = PluginContext::new("demo", OneBotConfig::default(), true);
    assert_eq!(registrar.plugin_dir(), "plugins/demo");
    assert_eq!(context.plugin_dir(), registrar.plugin_dir());
    assert_eq!(registrar.config_dir(), "config/demo");
    assert_eq!(context.config_dir(), registrar.config_dir());
    assert_eq!(registrar.config_file(), "config/demo/arona.yml");
    assert_eq!(context.config_file(), registrar.config_file());
    assert_eq!(registrar.data_dir(), "data/demo");
    assert_eq!(context.data_dir(), registrar.data_dir());
    assert_eq!(registrar.image_dir(), "data/demo/image");
    assert_eq!(context.image_dir(), registrar.image_dir());
    let entry = context.config("notify");
    assert_eq!((entry.plugin(), entry.key()), ("demo", "notify"));
    assert_eq!(entry.file(), "config/demo/arona.yml");
}
