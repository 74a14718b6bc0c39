use arona::collections::TextMap;
use arona::config::onebot::{default_connection, ConnectionConfig, ConnectionType, OneBotConfig};
use arona::json::{parse_json, render_json, Json};
use arona::onebot::application::OneBotApplication;
use arona::onebot::business::{
    group_name_params, handle_notice, EventRoute, HandlerState, StandaloneBusinessHandler,
};
use arona::onebot::connection::{
    action_reply, begin_send, receive_payload, reply_payload, ConnectionIds, ConnectionRegistry,
    Pending, Received,
};
use arona::onebot::model::{OneBotAction, OneBotEvent, ParsedPayload};
use arona::onebot::protocol::{action_with_echo, parse_payload};
use arona::onebot::transport::{
    authorization, heartbeat_params, response_of_payload, HttpReverseState, RunState, REST_MILLIS,
};
use arona::runtime::config::Gating;

fn json(text: &str) -> Json {
    parse_json(text).expect("the text is JSON")
}

/// Compares as JSON documents, in which the order of members does not count.
fn same_json(got: &Json, expected: &str) {
    assert_eq!(render_json(got), render_json(&json(expected)));
}

fn group_event(self_id: i64, group_id: i64, user_id: i64, text: &str) -> OneBotEvent {
    OneBotEvent {
        time: 0,
        self_id,
        post_type: "message".into(),
        notice_type: None,
        message_type: Some("group".into()),
        sub_type: None,
        message_id: Some(1),
        user_id: Some(user_id),
        operator_id: None,
        group_id: Some(group_id),
        raw_message: Some(text.into()),
        message: Some(json(&format!(r#"[{{ "type": "text", "data": {{ "text": "{text}" }} }}]"#))),
        sender: Some(json(r#"{ "nickname": "测试用户" }"#)),
        raw: json("{}"),
    }
}

fn no_connections() -> OneBotConfig {
    OneBotConfig {
        self_id: 10001,
        nickname: "Arona".into(),
        send_image_as_file: false,
        connections: TextMap::new(),
    }
}

#[test]
fn group_message_is_printed_before_group_name_is_resolved() {
    let mut handler = StandaloneBusinessHandler::new(no_connections());
    let mut registry = ConnectionRegistry::new();
    registry.register(1);
    registry.register(2);
    let gating = Gating::new();
    let event = group_event(1493074321, 987_654_321, 20_001, "打印时序回归标记-0x5f3759df");
    let plan = handler.on_event(&event, 1, &registry, &gating);
    // it is shown at once, without a name, and the name is asked for
    let shown = plan.shown.expect("群名未解析时也必须立刻打印收到的消息");
    assert_eq!(shown.name, None);
    assert!(shown.load);
    assert_eq!(plan.forward_to, vec![2]);
    assert!(matches!(plan.route, EventRoute::Message { has_command: true, .. }));
    // the name is asked for once, and then known
    assert!(!handler.on_event(&event, 1, &registry, &gating).shown.unwrap().load);
    handler.state.group_name_loaded(987_654_321, Some(&json(r#"{"group_name":"沙勒"}"#)));
    let shown = handler.on_event(&event, 1, &registry, &gating).shown.unwrap();
    assert_eq!(shown.name.as_deref(), Some("沙勒"));
    assert!(!shown.load);
}

#[test]
fn the_number_of_a_group_stands_for_a_name_that_does_not_come() {
    let mut handler = StandaloneBusinessHandler::new(no_connections());
    let registry = ConnectionRegistry::new();
    let gating = Gating::new();
    let event = group_event(1, 5, 6, "早");
    assert!(handler.on_event(&event, 1, &registry, &gating).shown.unwrap().load);
    handler.state.group_name_loaded(5, None);
    let shown = handler.on_event(&event, 1, &registry, &gating).shown.unwrap();
    assert_eq!(shown.name.as_deref(), Some("5"));
    assert!(!shown.load);
}

#[test]
fn users_on_the_blacklist_are_not_answered() {
    let handler = StandaloneBusinessHandler::new(no_connections());
    let mut gating = Gating::new();
    gating.config.global_blacklist = vec![20_001];
    let event = group_event(1, 5, 20_001, "早");
    assert!(matches!(handler.route(&event, &gating), EventRoute::Dropped));
    gating.config.managers = vec![20_001];
    match handler.route(&event, &gating) {
        EventRoute::Message { context, has_command } => {
            assert!(context.is_admin && has_command);
            assert_eq!(context.text, "早");
            assert_eq!(context.sender_name.as_deref(), Some("测试用户"));
        }
        other => panic!("应路由：{other:?}"),
    }
    gating.config.managers = Vec::new();
    gating.config.global_blacklist = Vec::new();
    gating.config.groups = vec![99];
    assert!(matches!(handler.route(&event, &gating), EventRoute::Dropped));
    let mut notice = group_event(1, 5, 20_001, "早");
    notice.post_type = "notice".into();
    assert!(matches!(handler.route(&notice, &gating), EventRoute::Listeners));
}

#[test]
fn implementations_get_answers_to_their_actions() {
    let handler = StandaloneBusinessHandler::new(no_connections());
    let ask = |name: &str| {
        handler.handle_action(&OneBotAction {
            action: name.into(),
            params: Json::Null,
            echo: "e".into(),
        })
    };
    same_json(&ask("get_login_info").unwrap(), r#"{"user_id":10001,"nickname":"Arona"}"#);
    same_json(&ask("get_status").unwrap(), r#"{"online":true,"good":true}"#);
    same_json(
        &ask("get_version_info").unwrap(),
        r#"{"app_name":"arona","app_version":"standalone","protocol_version":"11"}"#,
    );
    assert_eq!(ask("unheard_of"), None);
}

#[test]
fn responses_reach_whoever_waits() {
    let mut pending = Pending::new();
    let action = action_with_echo("get_status", Json::Null, "tag".into());
    let payload = begin_send(&mut pending, &action, 7);
    assert!(payload.contains("\"echo\":\"tag\""), "{payload}");
    let reply = r#"{"status":"ok","retcode":0,"echo":"tag"}"#;
    match receive_payload(&mut pending, reply, 0) {
        Received::Response { waiter, .. } => assert_eq!(waiter, Some(7)),
        other => panic!("应为响应：{other:?}"),
    }
    match receive_payload(&mut pending, reply, 0) {
        Received::Response { waiter, .. } => assert_eq!(waiter, None, "只交付一次"),
        other => panic!("应为响应：{other:?}"),
    }
    pending.track("late", 8);
    pending.forget("late");
    let late = r#"{"status":"ok","retcode":0,"echo":"late"}"#;
    assert!(matches!(
        receive_payload(&mut pending, late, 0),
        Received::Response { waiter: None, .. }
    ));
    assert!(matches!(receive_payload(&mut pending, "乱码", 0), Received::Invalid));
    assert!(matches!(
        receive_payload(&mut pending, r#"{"post_type":"meta_event"}"#, 0),
        Received::Event(_)
    ));
    assert!(matches!(
        receive_payload(&mut pending, r#"{"action":"x","echo":"e"}"#, 0),
        Received::Action(_)
    ));
}

#[test]
fn replies_say_how_it_went() {
    same_json(
        &action_reply(Ok(None), "e"),
        r#"{"status":"ok","retcode":0,"data":null,"echo":"e"}"#,
    );
    let text = reply_payload(Err("坏".into()), "e");
    assert!(text.contains("\"status\":\"failed\"") && text.contains("\"retcode\":1"), "{text}");
    assert!(text.contains("\"message\":\"坏\""), "{text}");
}

#[test]
fn numbers_of_connections_are_not_given_twice() {
    let mut ids = ConnectionIds::new();
    let first = ids.next_conn_id();
    assert_eq!(ids.next_conn_id(), first + 1);
    let mut registry = ConnectionRegistry::new();
    assert_eq!(registry.first(), None);
    registry.register(4);
    registry.register(5);
    assert_eq!(registry.first(), Some(4));
    assert_eq!(registry.count(), 2);
    assert_eq!(registry.broadcast_except(5), vec![4]);
    registry.clear();
    assert_eq!(registry.count(), 0);
}

fn endpoint(enable: bool, kind: &str, url: &str) -> ConnectionConfig {
    let mut conn = default_connection(ConnectionType::WebSocket);
    conn.enable = enable;
    conn.connection_type = kind.into();
    conn.url = url.into();
    conn
}

#[test]
fn only_connections_that_are_on_are_started() {
    let mut config = no_connections();
    config.connections.insert("a".into(), endpoint(true, "ws-forward", "ws://a"));
    config.connections.insert("b".into(), endpoint(false, "ws-forward", "ws://b"));
    config.connections.insert("c".into(), endpoint(true, "nonsense", ""));
    config.connections.insert("d".into(), endpoint(true, "http", ""));
    config.connections.insert("e".into(), endpoint(true, "http-reverse", "http://e"));
    let mut application = OneBotApplication::new(config);
    let steps = application.start();
    let names: Vec<&str> = steps.iter().map(|step| step.name.as_str()).collect();
    assert_eq!(names, vec!["a", "c", "d", "e"]);
    let a = steps[0].started.as_ref().unwrap();
    assert_eq!((a.kind, a.address.as_str()), (ConnectionType::WebSocket, "ws://a"));
    assert!(steps[1].started.is_err());
    assert_eq!(steps[2].started.as_ref().unwrap().id, None, "正向 HTTP 不收事件");
    assert_eq!(application.first_connection(), a.id);
    let stopped = application.stop();
    assert_eq!(stopped.len(), 2);
    assert_eq!(application.first_connection(), None);
    application.apply_send_image_as_file(true);
    assert!(application.config().send_image_as_file);
}

#[test]
fn failing_connections_rest_after_every_fifth_try() {
    let mut conn = endpoint(true, "ws-forward", "ws://a");
    conn.reconnect_interval = 10;
    conn.heartbeat_interval = 1;
    let mut state = RunState::new(1, &conn);
    for _ in 0..4 {
        let retry = state.connect_failed();
        assert_eq!((retry.delay_ms, retry.rest), (1000, false));
    }
    let retry = state.connect_failed();
    assert_eq!((retry.delay_ms, retry.rest), (REST_MILLIS, true));
    state.connected();
    assert_eq!(state.fail_count, 0);
    assert_eq!(state.heartbeat_ms(), 1000);
    assert_eq!(HttpReverseState::new(1, &conn).heartbeat_ms(), 1000);
}

#[test]
fn tokens_go_into_the_header() {
    assert_eq!(authorization("").is_none(), true);
    assert_eq!(authorization("t").as_deref(), Some("Bearer t"));
    same_json(&heartbeat_params(), r#"{"status":true,"good":true}"#);
    assert!(response_of_payload(parse_payload(r#"{"status":"ok","echo":"e"}"#, 0)).is_some());
    assert!(response_of_payload(None).is_none());
}

#[test]
fn what_is_sent_reads_back_from_its_text() {
    let params = json(r#"{"message":[{"type":"text","data":{"text":"\"你好\"\n"}}],"group_id":-9}"#);
    let asked = action_with_echo("send_group_msg", params, "tag-1".into());
    let mut pending = Pending::new();
    let payload = begin_send(&mut pending, &asked, 3);
    match receive_payload(&mut pending, &payload, 0) {
        Received::Action(read) => {
            assert_eq!(read.action, "send_group_msg");
            assert_eq!(read.echo, "tag-1");
            assert_eq!(render_json(&read.params), render_json(&asked.params));
        }
        other => panic!("应为动作：{other:?}"),
    }
    let reply = reply_payload(Ok(Some(json(r#"{"message_id":12}"#))), "tag-1");
    match receive_payload(&mut pending, &reply, 0) {
        Received::Response { response, waiter } => {
            assert_eq!(waiter, Some(3));
            assert!(response.success() && !response.async_accepted());
            assert_eq!(response.data.as_ref().map(render_json), Some(r#"{"message_id":12}"#.into()));
        }
        other => panic!("应为响应：{other:?}"),
    }
    let refusal = reply_payload(Err("不支持".into()), "tag-2");
    match receive_payload(&mut pending, &refusal, 0) {
        Received::Response { response, waiter } => {
            assert_eq!(waiter, None);
            assert_eq!((response.status.as_str(), response.retcode), ("failed", 1));
            assert_eq!(response.message.as_deref(), Some("不支持"));
            assert_eq!(response.echo.as_deref(), Some("tag-2"));
        }
        other => panic!("应为响应：{other:?}"),
    }
}

#[test]
fn a_forwarded_event_is_the_event() {
    let text = r#"{"group_id":5,"post_type":"notice","notice_type":"group_increase","user_id":7}"#;
    let Some(ParsedPayload::Event(event)) = parse_payload(text, 40) else {
        panic!("应为事件");
    };
    let mut registry = ConnectionRegistry::new();
    registry.register(1);
    registry.register(2);
    let mut business = StandaloneBusinessHandler::new(OneBotConfig::default());
    let plan = business.on_event(&event, 1, &registry, &Gating::new());
    assert_eq!(plan.forward_to, [2]);
    assert_eq!(parse_json(&plan.payload), Some(event.raw.clone()));
    let notice = plan.notice.expect("the event is a notice");
    assert_eq!(notice.line.as_deref(), Some("成员 7 加入了群 5"));
    assert_eq!(notice.leave, None);
    assert!(matches!(plan.route, EventRoute::Listeners));
}

#[test]
fn a_bot_that_is_thrown_out_forgets_the_group() {
    let notice = |kind: &str, user: i64| {
        let text = format!(
            r#"{{"post_type":"notice","notice_type":"{kind}","group_id":5,"user_id":{user}}}"#
        );
        match parse_payload(&text, 0) {
            Some(ParsedPayload::Event(event)) => handle_notice(&event, 10001),
            other => panic!("应为事件：{other:?}"),
        }
    };
    let left = notice("group_decrease", 10001);
    assert_eq!(left.leave, Some(5));
    assert_eq!(left.line.as_deref(), Some("机器人已被移出群 5，正在从 groups 配置中移除"));
    let other = notice("group_decrease", 7);
    assert_eq!((other.leave, other.line.as_deref()), (None, Some("成员 7 退出了群 5")));
    assert_eq!(notice("group_increase", 10001).line.as_deref(), Some("机器人已加入群 5"));
    assert_eq!(notice("group_ban", 7).line, None);
}

#[test]
fn a_group_name_is_learned_from_the_answer() {
    let mut state = HandlerState::new();
    let event = group_event(1, 5, 7, "hi");
    let first = state.group_line(&event, 5);
    assert_eq!((first.name, first.load), (None, true));
    let second = state.group_line(&event, 5);
    assert_eq!((second.name, second.load), (None, false));
    same_json(&group_name_params(5), r#"{"group_id":5}"#);
    state.group_name_loaded(5, Some(&json(r#"{"group_name":"测试群"}"#)));
    let third = state.group_line(&event, 5);
    assert_eq!((third.name.as_deref(), third.load), (Some("测试群"), false));
    state.group_name_loaded(6, None);
    assert_eq!(state.group_line(&event, 6).name.as_deref(), Some("6"));
}
