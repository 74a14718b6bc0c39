use arona::json::{parse_json, render_json, Json, Members};
use arona::onebot::api;
use arona::onebot::api::{
    bad_data, message_id, role_as_number, ApiRequest, FriendInfo, GroupMemberInfo, MessagePayload,
    OneBotApi, OneBotError,
};
use arona::onebot::media::MediaFiles;
use arona::onebot::model::{OneBotActionResponse, ParsedPayload};
use arona::onebot::protocol::parse_payload;
use arona::runtime::message::{MessageSegment, MessageTarget, OutgoingMessage};

fn json(text: &str) -> Json {
    parse_json(text).expect("the text is JSON")
}

fn same_json(got: &Json, expected: &str) {
    assert_eq!(render_json(got), render_json(&json(expected)));
}

fn response(text: &str) -> OneBotActionResponse {
    match parse_payload(text, 0) {
        Some(ParsedPayload::Response(response)) => response,
        other => panic!("应为响应：{other:?}"),
    }
}

fn asks(request: ApiRequest, action: &str, params: &str) {
    assert_eq!(request.action, action);
    same_json(&request.params, params);
}

#[test]
fn params_macro_drops_nulls() {
    let built = Members::new()
        .with_present("group_id", Json::signed(1))
        .with_present("folder_id", Json::maybe_text(None))
        .with_present("name", Json::maybe_text(Some("x")))
        .object();
    assert_eq!(built, json(r#"{ "group_id": 1, "name": "x" }"#));
}

#[test]
fn member_display_prefers_card() {
    let member = GroupMemberInfo {
        card: "  ".into(),
        nickname: "小明".into(),
        ..Default::default()
    };
    assert_eq!(member.display(), "小明");
    let named = GroupMemberInfo { card: "名片".into(), nickname: "小明".into(), ..Default::default() };
    assert_eq!(named.display(), "名片");
}

#[test]
fn payload_conversions() {
    let from_text = MessagePayload::from_text("你好").0;
    same_json(&from_text, r#"[{"type": "text", "data": {"text": "你好"}}]"#);
    let from_message = MessagePayload::from_message(&OutgoingMessage::at(42), &MediaFiles::none()).0;
    let Json::Array(items) = &from_message else {
        panic!("a message is an array");
    };
    assert_eq!(items[0].get("type"), Some(&Json::Text("at".into())));
    let from_segments =
        MessagePayload::from_segments(vec![MessageSegment::Text("你好".into())], &MediaFiles::none());
    assert_eq!(from_segments, MessagePayload::from_text("你好"));
    assert_eq!(MessagePayload::from_value(Json::Null).0, Json::Null);
}

#[test]
fn friends_are_shown_by_their_remark() {
    let friend = |remark: &str| FriendInfo {
        user_id: 1,
        nickname: "昵称".into(),
        remark: remark.into(),
        sex: "".into(),
        age: 0,
        rest: Vec::new(),
    };
    assert_eq!(friend("备注").display(), "备注");
    assert_eq!(friend(" ").display(), "昵称");
}

#[test]
fn roles_are_numbers_or_names() {
    assert_eq!(role_as_number(&Json::Number("2".into())), 2);
    assert_eq!(role_as_number(&Json::Number("2.5".into())), 3);
    assert_eq!(role_as_number(&Json::Text("OWNER".into())), 1);
    assert_eq!(role_as_number(&Json::Text("群主".into())), 1);
    assert_eq!(role_as_number(&Json::Text("管理员".into())), 2);
    assert_eq!(role_as_number(&Json::Text("member".into())), 3);
    assert_eq!(role_as_number(&Json::Null), 3);
    let owner = GroupMemberInfo { role: 1, ..Default::default() };
    assert!(owner.is_owner() && !owner.is_admin());
    let admin = GroupMemberInfo { group_rank: 4, ..Default::default() };
    assert!(admin.is_admin() && !admin.is_owner());
}

#[test]
fn outcomes_are_judged() {
    let api = OneBotApi::global();
    assert_eq!(api.call(false, None), Err(OneBotError::NoConnection));
    assert_eq!(api.call(true, None), Err(OneBotError::Timeout));
    assert_eq!(
        api.call(true, Some(response(r#"{"status":"ok","retcode":0,"data":{"x":1},"echo":"e"}"#))),
        Ok(json(r#"{"x":1}"#))
    );
    assert_eq!(
        api.call(true, Some(response(r#"{"status":"async","retcode":1,"echo":"e"}"#))),
        Ok(Json::Null)
    );
    let refused = response(r#"{"status":"failed","retcode":100,"wording":"不行","echo":"e"}"#);
    let error = api.call_ok(true, Some(refused)).unwrap_err();
    assert_eq!(
        error,
        OneBotError::Failed { status: "failed".into(), retcode: 100, message: "不行".into() }
    );
    assert_eq!(error.text(), "OneBot 返回失败(status=failed, retcode=100): 不行");
    assert_eq!(OneBotError::NoConnection.text(), "没有可用的 OneBot 连接");
    assert_eq!(OneBotError::Timeout.text(), "OneBot 动作超时或连接已失效");
    assert_eq!(
        bad_data("get_msg", "缺字段").text(),
        "OneBot 响应格式异常: get_msg 的 data 无法解析: 缺字段"
    );
    assert_eq!(message_id(&json(r#"{"message_id": 5}"#)), 5);
    assert_eq!(message_id(&Json::Null), 0);
}

#[test]
fn actions_carry_their_parameters() {
    let api = api();
    let text = || MessagePayload::from_text("早");
    asks(
        api.send(MessageTarget::Group(1), text()),
        "send_group_msg",
        r#"{"group_id":1,"message":[{"type":"text","data":{"text":"早"}}]}"#,
    );
    asks(
        api.send(MessageTarget::Private(2), text()),
        "send_private_msg",
        r#"{"user_id":2,"message":[{"type":"text","data":{"text":"早"}}]}"#,
    );
    asks(api.delete_msg(7), "delete_msg", r#"{"message_id":7}"#);
    asks(
        api.set_group_ban(1, 2, 600),
        "set_group_ban",
        r#"{"group_id":1,"user_id":2,"duration":600}"#,
    );
    asks(api.get_cookie(None), "get_cookie", "{}");
    asks(api.get_cookie(Some("qq.com")), "get_cookie", r#"{"domain":"qq.com"}"#);
    asks(api.get_login_info(), "get_login_info", "{}");
    asks(
        api.upload_group_file(1, "/a", "a", None),
        "upload_group_file",
        r#"{"group_id":1,"file":"/a","name":"a"}"#,
    );
}

#[test]
fn messages_are_looked_up_and_judged() {
    let api = OneBotApi::global();
    asks(api.get_forward_msg(5), "get_forward_msg", r#"{"message_id":5}"#);
    asks(
        api.set_msg_emoji_like(5, "66", true),
        "set_msg_emoji_like",
        r#"{"message_id":5,"emoji_id":"66","emoji_present":true}"#,
    );
    asks(api.can_send_private_msg(7), "can_send_private_msg", r#"{"user_id":7}"#);
    asks(api.can_send_group_msg(1, 7), "can_send_group_msg", r#"{"group_id":1,"user_id":7}"#);
    asks(api.get_essence_msg_list(1), "get_essence_msg_list", r#"{"group_id":1}"#);
    asks(api.add_essence_msg(5), "add_essence_msg", r#"{"message_id":5}"#);
    asks(api.delete_essence_msg(5), "delete_essence_msg", r#"{"message_id":5}"#);
    asks(api.send_like(7, 10), "send_like", r#"{"user_id":7,"times":10}"#);
}

#[test]
fn people_and_groups_are_asked_for() {
    let api = OneBotApi::global();
    asks(api.get_stranger_info(7, true), "get_stranger_info", r#"{"user_id":7,"no_cache":true}"#);
    asks(api.get_friend_list(), "get_friend_list", "{}");
    asks(api.get_group_info(1, false), "get_group_info", r#"{"group_id":1,"no_cache":false}"#);
    asks(api.get_group_list(), "get_group_list", "{}");
    asks(
        api.get_group_member_info(1, 7, true),
        "get_group_member_info",
        r#"{"group_id":1,"user_id":7,"no_cache":true}"#,
    );
    asks(api.get_group_member_list(1), "get_group_member_list", r#"{"group_id":1}"#);
    asks(api.get_group_honor_info(1), "get_group_honor_info", r#"{"group_id":1}"#);
    asks(api.get_group_system_msg(), "get_group_system_msg", "{}");
    asks(api.get_group_at_all_remain(1), "get_group_at_all_remain", r#"{"group_id":1}"#);
    asks(api.get_csrf(None), "get_csrf", "{}");
}

#[test]
fn groups_are_governed() {
    let api = OneBotApi::global();
    asks(
        api.set_group_kick(1, 7, true),
        "set_group_kick",
        r#"{"group_id":1,"user_id":7,"reject_add_request":true}"#,
    );
    asks(
        api.set_group_whole_ban(1, true),
        "set_group_whole_ban",
        r#"{"group_id":1,"enable":true}"#,
    );
    asks(
        api.set_group_admin(1, 7, false),
        "set_group_admin",
        r#"{"group_id":1,"user_id":7,"enable":false}"#,
    );
    asks(
        api.set_group_anonymous_ban(1, Some("flag"), None, 60),
        "set_group_anonymous_ban",
        r#"{"group_id":1,"anonymous_flag":"flag","duration":60}"#,
    );
    asks(api.set_group_name(1, "群"), "set_group_name", r#"{"group_id":1,"group_name":"群"}"#);
    asks(
        api.set_group_level(1, 7, 3),
        "set_group_level",
        r#"{"group_id":1,"user_id":7,"new_level":3}"#,
    );
    asks(
        api.set_group_card(1, 7, "名片"),
        "set_group_card",
        r#"{"group_id":1,"user_id":7,"card":"名片"}"#,
    );
    asks(
        api.set_group_special_title(1, 7, "头衔", -1),
        "set_group_special_title",
        r#"{"group_id":1,"user_id":7,"special_title":"头衔","duration":-1}"#,
    );
    asks(
        api.set_group_add_request("f", "invite", true, None),
        "set_group_add_request",
        r#"{"flag":"f","type":"invite","approve":true}"#,
    );
    asks(
        api.set_friend_add_request("f", false, Some("备注")),
        "set_friend_add_request",
        r#"{"flag":"f","approve":false,"remark":"备注"}"#,
    );
    asks(
        api.set_group_notice(1, "公告", None, true),
        "set_group_notice",
        r#"{"group_id":1,"content":"公告","is_pinned":true,"show_gag":false}"#,
    );
    asks(api.get_group_notice(1), "get_group_notice", r#"{"group_id":1}"#);
}

#[test]
fn files_of_groups_are_handled() {
    let api = OneBotApi::global();
    asks(api.get_group_root_files(1), "get_group_root_files", r#"{"group_id":1}"#);
    asks(
        api.get_group_files_by_folder(1, "d"),
        "get_group_files_by_folder",
        r#"{"group_id":1,"folder_id":"d"}"#,
    );
    asks(
        api.get_group_file_url(1, "f", "b"),
        "get_group_file_url",
        r#"{"group_id":1,"file_id":"f","busid":"b"}"#,
    );
    asks(
        api.delete_group_file(1, "f", "b"),
        "delete_group_file",
        r#"{"group_id":1,"file_id":"f","busid":"b"}"#,
    );
    asks(
        api.create_group_folder(1, "新", None),
        "create_group_folder",
        r#"{"group_id":1,"folder_name":"新"}"#,
    );
    asks(
        api.delete_group_folder(1, "d"),
        "delete_group_folder",
        r#"{"group_id":1,"folder_id":"d"}"#,
    );
}
