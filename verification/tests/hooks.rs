use arona::collections::TextMap;
use arona::config::arona::GroupSetting;
use arona::json::{parse_json, Json};
use arona::onebot::api::OneBotError;
use arona::onebot::context::{EventContext, GroupRole, OutboundContext};
use arona::onebot::event::{
    BodyFilter, EventBody, EventKind, MetaKind, NoticeInfo, NoticeKind, RequestKind,
};
use arona::onebot::hooks::{HookFlow, HookRegistry, Subscribed, MAX_HOOKS_PER_PLUGIN};
use arona::onebot::model::{OneBotEvent, ParsedPayload};
use arona::onebot::protocol::{parse_payload, ParsedMessage};
use arona::plugin::health::{HealthBoard, DEFAULT_PANIC_THRESHOLD};
use arona::runtime::config::Gating;
use arona::runtime::message::{MessageSegment, MessageTarget, OutgoingMessage};
use arona::runtime::priority::ListenerPriority;

fn json(text: &str) -> Json {
    parse_json(text).expect("the text is JSON")
}

fn event(post_type: &str, group_id: Option<i64>) -> OneBotEvent {
    OneBotEvent {
        time: 0,
        self_id: 1,
        post_type: post_type.into(),
        notice_type: None,
        message_type: Some("group".into()),
        sub_type: None,
        message_id: Some(7),
        user_id: Some(100),
        operator_id: None,
        group_id,
        raw_message: None,
        message: Some(json(r#"[{"type": "text", "data": {"text": "早安"}}]"#)),
        sender: None,
        raw: json(r#"{ "notice_type": "group_increase" }"#),
    }
}

fn raw_event(raw: &str) -> OneBotEvent {
    match parse_payload(raw, 0).expect("应能解析成事件") {
        ParsedPayload::Event(found) => found,
        other => panic!("应为事件：{other:?}"),
    }
}

/// Listeners with what is decided about them.
struct World {
    registry: HookRegistry,
    gating: Gating,
    health: HealthBoard,
}

impl World {
    fn new(threshold: u32) -> World {
        World {
            registry: HookRegistry::new(),
            gating: Gating::new(),
            health: HealthBoard::new(threshold),
        }
    }

    /// Asks the listeners in turn; a handler that gives `None` fails. Tells who was asked
    /// and whether the event was handled.
    fn dispatch(&mut self, event: &OneBotEvent, handler: impl Fn(u64) -> Option<HookFlow>) -> (Vec<u64>, bool) {
        let mut asked = Vec::new();
        let Some(mut dispatch) = self.registry.dispatch(event, &self.gating) else {
            return (asked, false);
        };
        while let Some(at) = dispatch.round.next_target() {
            let id = dispatch.round.targets[at].handler;
            asked.push(id);
            dispatch.round.report(at, handler(id), &mut self.health, &mut self.gating);
        }
        (asked, dispatch.round.stopped)
    }

    /// Sends a message past its listeners. Tells whether it goes out.
    fn send(
        &mut self,
        target: MessageTarget,
        message: OutgoingMessage,
        handler: impl Fn(u64, &mut OutboundContext) -> bool,
    ) -> (bool, OutgoingMessage) {
        let mut round = self.registry.dispatch_outbound(target, &self.gating);
        let mut context = OutboundContext::new(target, message);
        while let Some(at) = round.next_target() {
            let failed = !handler(round.targets[at].handler, &mut context);
            let cancelled = context.is_cancelled();
            round.report_outbound(at, failed, cancelled, &mut self.health, &mut self.gating);
        }
        (!context.is_cancelled(), context.into_message())
    }
}

fn pass(_handler: u64) -> Option<HookFlow> {
    Some(HookFlow::Pass)
}

fn group_setting(features: Vec<String>, plugins: Vec<String>) -> GroupSetting {
    GroupSetting { disabled_features: features, blacklist: Vec::new(), disabled_plugins: plugins }
}

#[test]
fn hook_may_touch_registry_while_running() {
    let mut world = World::new(DEFAULT_PANIC_THRESHOLD);
    let plugin = "HookReentryTestPlugin";
    world.registry.subscribe(plugin, &vec![EventKind::Message], 1);
    let mut dispatch = world.registry.dispatch(&event("message", Some(1)), &world.gating).unwrap();
    let at = dispatch.round.next_target().unwrap();
    world.registry.subscribe(plugin, &vec![EventKind::Notice], 2);
    assert_eq!(world.registry.hook_count(plugin), 2, "钩子内应立刻看到自己的注册");
    dispatch.round.report(at, Some(HookFlow::Pass), &mut world.health, &mut world.gating);
    assert!(dispatch.round.next_target().is_none(), "message 事件不该命中 notice 订阅");
    assert!(!dispatch.round.stopped, "返回 Pass 时不应判定为已消费");
    let (asked, handled) = world.dispatch(&event("notice", Some(1)), pass);
    assert!(!handled);
    assert_eq!(asked, vec![2], "钩子内注册的订阅应当立刻可用");
}

#[test]
fn disabled_plugin_gets_no_events() {
    let mut world = World::new(DEFAULT_PANIC_THRESHOLD);
    let plugin = "HookDisabledTestPlugin";
    world.registry.subscribe(plugin, &vec![EventKind::Message], 1);
    world.gating.config.disabled_plugins = vec![plugin.to_string()];
    let (asked, handled) = world.dispatch(&event("message", Some(2)), pass);
    assert!(!handled, "禁用插件不该收到事件");
    assert!(asked.is_empty(), "禁用插件的钩子不应被执行");
}

#[test]
fn group_switch_only_affects_that_group() {
    let mut world = World::new(DEFAULT_PANIC_THRESHOLD);
    let plugin = "HookGroupSwitchTestPlugin";
    let group_id = 777_001_i64;
    world.registry.subscribe(plugin, &vec![EventKind::Message], 1);
    world
        .gating
        .config
        .group_settings
        .insert(group_id.to_string(), group_setting(vec![], vec![plugin.to_string()]));
    let (asked, handled) = world.dispatch(&event("message", Some(group_id)), pass);
    assert!(!handled, "该群禁用了此插件");
    assert!(asked.is_empty(), "被禁用的群里不该执行钩子");
    let (asked, handled) = world.dispatch(&event("message", Some(group_id + 1)), pass);
    assert!(!handled, "别的群仍应放行（返回值是 Pass）");
    assert_eq!(asked, vec![1], "别的群的钩子应正常执行");
}

#[test]
fn handled_flow_short_circuits() {
    let mut world = World::new(DEFAULT_PANIC_THRESHOLD);
    let plugin = "HookHandledTestPlugin";
    world.registry.subscribe(plugin, &vec![EventKind::Message], 1);
    world.registry.subscribe(plugin, &vec![EventKind::Message], 2);
    let (asked, handled) = world.dispatch(&event("message", Some(3)), |_| Some(HookFlow::Handled));
    assert!(handled, "Handled 应让框架判定事件已被消费");
    assert_eq!(asked, vec![1], "短路后的钩子不该再执行");
}

#[test]
fn priority_orders_listeners_ahead_of_registration() {
    let mut world = World::new(DEFAULT_PANIC_THRESHOLD);
    let plugin = "HookPriorityTestPlugin";
    let kinds = vec![EventKind::Message];
    world.registry.subscribe_at(plugin, &kinds, ListenerPriority::Normal, 1);
    world.registry.subscribe_at(plugin, &kinds, ListenerPriority::Monitor, 2);
    world.registry.subscribe_at(plugin, &kinds, ListenerPriority::Low, 3);
    let (asked, handled) = world.dispatch(&event("message", Some(9)), pass);
    assert!(!handled);
    assert_eq!(asked, vec![2, 1, 3], "执行顺序应按优先级而非注册顺序");
}

#[test]
fn quarantining_one_plugin_does_not_silence_the_other() {
    let mut world = World::new(1);
    let crasher = "HookQuarantineCrasher";
    let bystander = "HookQuarantineBystander";
    let kinds = vec![EventKind::Message];
    world.registry.subscribe_at(crasher, &kinds, ListenerPriority::Monitor, 1);
    world.registry.subscribe_at(crasher, &kinds, ListenerPriority::Normal, 2);
    world.registry.subscribe_at(bystander, &kinds, ListenerPriority::Low, 3);
    let (asked, handled) = world.dispatch(&event("message", Some(11)), |handler| {
        if handler == 1 {
            None
        } else {
            Some(HookFlow::Pass)
        }
    });
    assert!(!handled);
    assert_eq!(asked, vec![1, 3], "被隔离的是出事那一家，别家插件的钩子必须照跑");
    assert!(!world.gating.plugin_enabled(crasher), "达阈值应停用该插件");
    assert!(world.gating.plugin_enabled(bystander), "别家不该被牵连");
}

#[test]
fn duplicate_subscription_collapses_and_count_is_capped() {
    let mut registry = HookRegistry::new();
    let plugin = "HookDedupeTestPlugin";
    assert_eq!(registry.subscribe(plugin, &vec![EventKind::Message], 1), Subscribed::Added);
    assert_eq!(registry.subscribe(plugin, &vec![EventKind::Message], 1), Subscribed::Duplicate);
    assert_eq!(registry.hook_count(plugin), 1, "同一处理器重复登记应被忽略");
    registry.subscribe(plugin, &vec![EventKind::Message], 2);
    assert_eq!(registry.hook_count(plugin), 2, "不同处理器各算一条");
    let mut last = Subscribed::Added;
    for i in 0..(MAX_HOOKS_PER_PLUGIN + 8) {
        last = registry.subscribe(plugin, &vec![EventKind::Notice], 100 + i as u64);
    }
    assert_eq!(last, Subscribed::Full);
    assert_eq!(
        registry.hook_count(plugin),
        MAX_HOOKS_PER_PLUGIN,
        "超出上限的订阅应被丢弃而不是无限增长"
    );
}

#[test]
fn notice_dispatches_and_unknown_post_type_does_not() {
    let mut world = World::new(DEFAULT_PANIC_THRESHOLD);
    let plugin = "HookNoticeTestPlugin";
    world.registry.subscribe(plugin, &vec![EventKind::Notice], 1);
    let (asked, handled) = world.dispatch(&event("notice", Some(4)), pass);
    assert!(!handled);
    assert_eq!(asked, vec![1], "notice 应投递给订阅者");
    assert_eq!(world.registry.unsubscribe(plugin), 1);
    let (asked, handled) = world.dispatch(&event("unknown_post_type", Some(5)), pass);
    assert!(!handled && asked.is_empty(), "未知 post_type 不该命中任何钩子");
}

#[test]
fn dispatch_parsed_reuses_the_callers_parse() {
    let mut registry = HookRegistry::new();
    registry.subscribe_where(
        "ParsedReuseTestPlugin",
        vec![BodyFilter::Kind(EventKind::Message)],
        ListenerPriority::Normal,
        1,
    );
    let parsed = ParsedMessage {
        segments: vec![MessageSegment::Text("入口解出来的那份".into())],
        text: "入口解出来的那份".into(),
        command_text: "/入口解出来的那份".into(),
    };
    let mut gating = Gating::new();
    let mut dispatch =
        registry.dispatch_parsed(&event("message", Some(4)), parsed, &gating).unwrap();
    let at = dispatch.round.next_target().unwrap();
    dispatch.round.report(at, Some(HookFlow::Pass), &mut HealthBoard::new(5), &mut gating);
    assert!(dispatch.round.next_target().is_none());
    assert!(!dispatch.round.stopped);
    assert_eq!(dispatch.context.command_text, "/入口解出来的那份");
    assert_eq!(dispatch.context.segments.len(), 1);
    assert!(format!("{:?}", dispatch.context.segments[0]).contains("入口解出来的那份"));
}

fn no_details() -> NoticeInfo {
    NoticeInfo { action: None, operator_id: None, target_id: None, duration: None }
}

#[test]
fn context_reads_raw_detail_fields() {
    let context = EventContext {
        kind: EventKind::Notice,
        event: event("notice", Some(6)),
        body: EventBody::Notice(NoticeKind::GroupIncrease, no_details()),
        text: String::new(),
        command_text: String::new(),
        segments: Vec::new(),
    };
    assert_eq!(context.field_str("notice_type").as_deref(), Some("group_increase"));
    assert_eq!(context.field_str("missing"), None);
    assert_eq!(context.group_id(), Some(6));
    assert_eq!(context.message_id(), Some(7));
    assert_eq!(context.body.kind(), Some(EventKind::Notice));
    assert_eq!(context.body.notice_kind(), Some(NoticeKind::GroupIncrease));
}

#[test]
fn notify_notices_fall_into_their_real_kind() {
    let cases: [(&str, NoticeKind); 4] = [
        (r#""sub_type":"poke","target_id":1,"operator_id":2"#, NoticeKind::Poke),
        (r#""type":"nudge""#, NoticeKind::Nudge),
        (r#""sub_type":"group_card""#, NoticeKind::GroupCardUpdate),
        (r#""sub_type":"honor""#, NoticeKind::GroupTitleUpdate),
    ];
    for (extra, expected) in cases {
        let raw = format!(r#"{{"post_type":"notice","notice_type":"notify",{extra}}}"#);
        let body = EventBody::from_event(&raw_event(&raw));
        assert_eq!(body.notice_kind(), Some(expected), "原始 JSON: {extra}");
    }
    let raw = r#"{"post_type":"notice","notice_type":"notify","sub_type":"gift"}"#;
    assert_eq!(EventBody::from_event(&raw_event(raw)).notice_kind(), Some(NoticeKind::Notify));
}

#[test]
fn invited_group_request_is_not_an_application() {
    let invite = EventBody::from_event(&raw_event(
        r#"{
            "post_type": "request",
            "request_type": "group",
            "sub_type": "invite",
            "group_id": 123,
            "user_id": 456,
            "flag": "flag-1"
        }"#,
    ));
    match &invite {
        EventBody::Request(kind, info) => {
            assert_eq!(*kind, RequestKind::InviteGroup);
            assert_eq!(info.flag.as_deref(), Some("flag-1"), "处理凭据要能直接回传");
            assert_eq!(info.via.as_deref(), Some("invite"));
        }
        other => panic!("应为请求事件：{other:?}"),
    }

    let applied = EventBody::from_event(&raw_event(
        r#"{
            "post_type": "request",
            "request_type": "group",
            "sub_type": "add",
            "comment": " 我是来加群的 "
        }"#,
    ));
    match &applied {
        EventBody::Request(kind, info) => {
            assert_eq!(*kind, RequestKind::AddGroup);
            assert_eq!(info.comment.as_deref(), Some("我是来加群的"), "留言顺手裁掉空白");
        }
        other => panic!("应为请求事件：{other:?}"),
    }

    assert_eq!(
        RequestKind::parse("group"),
        RequestKind::AddGroup,
        "只有 request_type 时按主动申请处理"
    );
}

#[test]
fn notice_details_reach_the_body() {
    let body = EventBody::from_event(&raw_event(
        r#"{
            "post_type": "notice",
            "notice_type": "group_ban",
            "sub_type": "ban",
            "group_id": 1,
            "user_id": 2,
            "operator_id": 3,
            "duration": 600
        }"#,
    ));
    match &body {
        EventBody::Notice(kind, info) => {
            assert_eq!(*kind, NoticeKind::GroupBan);
            assert_eq!(info.action.as_deref(), Some("ban"));
            assert_eq!(info.operator_id, Some(3));
            assert_eq!(info.duration, Some(600));
        }
        other => panic!("应为通知事件：{other:?}"),
    }
    assert_eq!(body.display_name(), "通知:禁言(ban)");

    let kicked = EventBody::from_event(&raw_event(
        r#"{
            "post_type": "notice",
            "notice_type": "group_decrease",
            "sub_type": "kick",
            "user_id": 2,
            "operator_id": 3
        }"#,
    ));
    assert!(
        BodyFilter::notice(NoticeKind::GroupDecrease, "kick").matches(&kicked),
        "被踢应命中 kick 订阅"
    );
    assert!(
        !BodyFilter::notice(NoticeKind::GroupDecrease, "leave").matches(&kicked),
        "被踢不该命中「自行退群」的订阅"
    );
    assert!(BodyFilter::Notice(NoticeKind::GroupDecrease).matches(&kicked), "整类订阅仍然命中");
    assert_eq!(
        BodyFilter::notice(NoticeKind::GroupDecrease, "").display_name(),
        "通知:成员退群",
        "空动作就是整类"
    );
}

#[test]
fn context_reads_sender_and_quote() {
    let raw = raw_event(
        r#"{
            "post_type": "message",
            "message_type": "group",
            "group_id": 1,
            "user_id": 2,
            "sender": { "card": " 小雨 ", "nickname": "小雨的昵称", "role": "admin" },
            "message": [
                { "type": "reply", "data": { "id": 501 } },
                { "type": "text", "data": { "text": "抽卡" } }
            ]
        }"#,
    );
    let context = EventContext {
        kind: EventKind::Message,
        event: raw,
        body: EventBody::GroupMessage { sub_type: Some("normal".into()) },
        text: "抽卡".into(),
        command_text: "抽卡".into(),
        segments: vec![MessageSegment::Reply(501), MessageSegment::Text("抽卡".into())],
    };
    assert_eq!(context.sender_name().as_deref(), Some("小雨"), "名片优先于昵称");
    assert_eq!(context.sender_role(), Some(GroupRole::Admin));
    assert!(context.sender_is_admin());
    assert_eq!(context.quoted(), Some(501));
}

#[test]
fn context_reads_survive_missing_sender() {
    let raw = raw_event(
        r#"{
            "post_type": "message",
            "message_type": "private",
            "user_id": 2,
            "message": [{ "type": "text", "data": { "text": "在吗" } }]
        }"#,
    );
    let context = EventContext {
        kind: EventKind::Message,
        event: raw,
        body: EventBody::PrivateMessage { sub_type: None },
        text: "在吗".into(),
        command_text: "在吗".into(),
        segments: Vec::new(),
    };
    assert!(context.is_private() && !context.is_group());
    assert_eq!(context.body.request_kind(), None);
    assert_eq!(context.sender_name(), None);
    assert_eq!(context.sender_role(), None);
    assert!(!context.sender_is_admin());
    assert_eq!(context.quoted(), None);
}

#[test]
fn answers_go_back_to_where_the_event_came_from() {
    let context = |post_type: &str, kind: EventKind, group_id: Option<i64>| EventContext {
        kind,
        event: event(post_type, group_id),
        body: EventBody::Meta(MetaKind::Heartbeat),
        text: String::new(),
        command_text: String::new(),
        segments: Vec::new(),
    };
    let answer = context("message", EventKind::Message, Some(5)).reply("早", true).unwrap().unwrap();
    assert_eq!(answer.target, MessageTarget::Group(5));
    assert_eq!(answer.message.segments.len(), 1);
    let answer = context("message", EventKind::Message, None)
        .reply_with_quote(
            Some(vec![MessageSegment::Reply(9)]),
            OutgoingMessage::text("早"),
            true,
        )
        .unwrap()
        .unwrap();
    assert_eq!(answer.target, MessageTarget::Private(100));
    assert!(matches!(answer.message.segments[0], MessageSegment::Reply(9)));
    assert_eq!(answer.message.segments.len(), 2);
    assert!(matches!(
        context("message", EventKind::Message, Some(5)).reply("早", false),
        Err(OneBotError::NoConnection)
    ));
    assert!(matches!(
        context("meta_event", EventKind::Meta, None).reply("早", false),
        Ok(None)
    ));
}

#[test]
fn feature_switch_silences_the_hooks_bound_to_it() {
    let mut world = World::new(DEFAULT_PANIC_THRESHOLD);
    let plugin = "HookFeaturePlugin";
    world.registry.subscribe_feature(
        plugin,
        "history",
        vec![BodyFilter::GroupMessage],
        ListenerPriority::Normal,
        1,
    );
    world.registry.subscribe(plugin, &vec![EventKind::Notice], 2);
    let group_id = 777_002_i64;
    world
        .gating
        .config
        .group_settings
        .insert(group_id.to_string(), group_setting(vec!["history".to_string()], vec![]));
    let (asked, handled) = world.dispatch(&event("message", Some(group_id)), pass);
    assert!(!handled);
    assert!(asked.is_empty(), "该群关掉了 history 功能，绑它的钩子不该再收消息");

    world.gating.config.group_settings = TextMap::new();
    let (asked, handled) = world.dispatch(&event("notice", Some(group_id)), pass);
    assert!(!handled);
    assert_eq!(asked, vec![2], "同一插件未绑开关的订阅仍要执行");
}

#[test]
fn every_kind_is_heard_by_those_who_want_all() {
    let mut world = World::new(DEFAULT_PANIC_THRESHOLD);
    assert_eq!(world.registry.on_all("p", 1), Subscribed::Added);
    for post_type in ["message", "notice", "request", "meta_event"] {
        let (asked, _) = world.dispatch(&event(post_type, Some(1)), pass);
        assert_eq!(asked, vec![1], "{post_type}");
    }
    let overview = world.registry.subscriptions();
    assert_eq!(overview.len(), 1);
    assert_eq!(overview[0].0, "p");
}

fn text_of(message: &OutgoingMessage) -> String {
    message
        .segments
        .iter()
        .filter_map(|segment| match segment {
            MessageSegment::Text(text) => Some(text.as_str()),
            _ => None,
        })
        .collect::<Vec<_>>()
        .concat()
}

fn append(context: &mut OutboundContext, marker: &str) {
    let mut segments: Vec<MessageSegment> = Vec::new();
    segments.push(MessageSegment::Text(text_of(context.message())));
    segments.push(MessageSegment::Text(marker.to_string()));
    context.rewrite(OutgoingMessage { segments, revoke_after_millis: None });
}

#[test]
fn outbound_hooks_rewrite_in_priority_order_and_can_veto() {
    let mut world = World::new(DEFAULT_PANIC_THRESHOLD);
    let plugin = "HookOutboundPlugin";
    world.registry.subscribe_outbound(plugin, "", ListenerPriority::Low, 2);
    world.registry.subscribe_outbound(plugin, "", ListenerPriority::High, 1);
    let handler = |id: u64, context: &mut OutboundContext| {
        match id {
            1 => append(context, "[高]"),
            2 => append(context, "[低]"),
            _ => context.cancel(),
        }
        true
    };
    let (sent, message) =
        world.send(MessageTarget::Group(21), OutgoingMessage::text("正文"), handler);
    assert!(sent, "没人拦停时应放行");
    assert_eq!(text_of(&message), "正文[高][低]", "改写应按优先级顺序叠加");

    world.registry.subscribe_outbound(plugin, "", ListenerPriority::Lowest, 3);
    let (sent, message) =
        world.send(MessageTarget::Private(7), OutgoingMessage::text("正文"), handler);
    assert!(!sent, "Cancel 应让这条消息发不出去");
    assert_eq!(text_of(&message), "正文[高][低]", "拦停也要把已改写到什么程度告诉调用方");
}

#[test]
fn disabled_plugin_cannot_touch_outbound() {
    let mut world = World::new(DEFAULT_PANIC_THRESHOLD);
    let blocker = "HookOutboundBlocker";
    world.registry.subscribe_outbound(blocker, "", ListenerPriority::Monitor, 1);
    world.registry.subscribe_outbound("HookOutboundEditor", "", ListenerPriority::Normal, 2);
    world.gating.config.disabled_plugins = vec![blocker.to_string()];
    let (sent, message) =
        world.send(MessageTarget::Group(22), OutgoingMessage::text("正文"), |id, context| {
            if id == 1 {
                context.cancel();
            } else {
                append(context, "[改]");
            }
            true
        });
    assert!(sent, "被停用插件的出站订阅不该参与");
    assert_eq!(text_of(&message), "正文[改]");
}

#[test]
fn panicking_outbound_handler_does_not_swallow_the_message() {
    let mut world = World::new(1);
    let crasher = "HookOutboundCrasher";
    world.registry.subscribe_outbound(crasher, "", ListenerPriority::Monitor, 1);
    world.registry.subscribe_outbound("HookOutboundBystander", "", ListenerPriority::Normal, 2);
    let (sent, message) =
        world.send(MessageTarget::Group(23), OutgoingMessage::text("正文"), |id, context| {
            if id == 1 {
                return false;
            }
            append(context, "[后]");
            true
        });
    assert!(sent, "一家出事不该让消息消失");
    assert_eq!(text_of(&message), "正文[后]");
    assert!(!world.gating.plugin_enabled(crasher), "达阈值应停用出事那家");
}

#[test]
fn unsubscribe_collects_both_directions() {
    let mut registry = HookRegistry::new();
    let plugin = "HookOutboundRevokePlugin";
    registry.subscribe(plugin, &vec![EventKind::Message], 1);
    registry.subscribe_outbound(plugin, "", ListenerPriority::Normal, 2);
    assert_eq!(registry.hook_count(plugin), 2, "出站订阅也要计入");
    assert_eq!(registry.unsubscribe(plugin), 2, "两个方向一起收回");
    assert_eq!(registry.hook_count(plugin), 0);
}

#[test]
fn a_plugin_out_of_service_is_listed_once() {
    let mut world = World::new(1);
    world.gating.bot_id = 42;
    world.registry.subscribe("a", &vec![EventKind::Message], 1);
    let mut dispatch = world.registry.dispatch(&event("message", Some(1)), &world.gating).unwrap();
    let at = dispatch.round.next_target().unwrap();
    dispatch.round.report(at, None, &mut world.health, &mut world.gating);
    dispatch.round.report(at, None, &mut world.health, &mut world.gating);
    assert_eq!(world.gating.config.disabled_plugins, vec!["a"]);
    assert_eq!(world.gating.bot_id, 42);
    let next = dispatch.round.next;
    assert!(dispatch.round.next_target().is_none());
    assert_eq!(dispatch.round.next, next, "a round that is over stays where it is");
}
