use arona::json::{parse_json, render_json, Json};
use arona::onebot::media::{local_file_uri, media_value, LocalFile, MediaFiles};
use arona::onebot::model::{OneBotEvent, ParsedPayload};
use arona::onebot::protocol::{
    action, action_with_echo, card_with, command_text, decode_cq_message, extract_segments,
    extract_text, forward_messages_to_json, message_to_json, new_echo, parse_payload,
    parse_segment, parse_segments, segment_to_json, serialize_action, unescape_cq, ParsedMessage,
};
use arona::runtime::message::{ForwardMessage, MessageSegment, OutgoingMessage};

fn json(text: &str) -> Json {
    parse_json(text).expect("the text is JSON")
}

/// Compares as JSON documents, in which the order of members does not count.
fn same_json(got: &Json, expected: &str) {
    assert_eq!(render_json(got), render_json(&json(expected)));
}

fn event_of(raw: &str) -> OneBotEvent {
    match parse_payload(raw, 0) {
        Some(ParsedPayload::Event(event)) => event,
        other => panic!("应解析为事件，实际 {other:?}"),
    }
}

fn message_event(message: &str) -> OneBotEvent {
    event_of(&format!(
        r#"{{"post_type":"message","message_type":"group","self_id":10001,"group_id":900000001,"user_id":20002,"message":{message}}}"#
    ))
}

fn kind_of(segment: &MessageSegment) -> &'static str {
    match segment {
        MessageSegment::Text(_) => "text",
        MessageSegment::At(_) => "at",
        MessageSegment::AtAll => "at_all",
        MessageSegment::Reply(_) => "reply",
        MessageSegment::Image { .. } => "image",
        MessageSegment::Face(_) => "face",
        MessageSegment::Record { .. } => "record",
        MessageSegment::Video { .. } => "video",
        MessageSegment::File { .. } => "file",
        MessageSegment::Poke { .. } => "poke",
        MessageSegment::Location { .. } => "location",
        MessageSegment::Json(_) => "json",
        MessageSegment::Xml(_) => "xml",
        MessageSegment::Forward { .. } => "forward",
    }
}

fn float(json: &Json) -> f64 {
    match json {
        Json::Number(n) => n.parse().expect("the text is a number"),
        other => panic!("应为数字：{other:?}"),
    }
}

#[test]
fn local_file_uri_encodes_windows_path() {
    assert_eq!(
        local_file_uri("C:\\Users\\cheng\\images\\a b.png"),
        "file:///C:/Users/cheng/images/a%20b.png"
    );
}

#[test]
fn local_file_uri_encodes_non_ascii() {
    assert_eq!(
        local_file_uri("D:\\arona\\images\\gacha-pool\\日服\\2980.webp"),
        "file:///D:/arona/images/gacha-pool/%E6%97%A5%E6%9C%8D/2980.webp"
    );
}

#[test]
fn local_file_uri_keeps_plain_unix_path() {
    assert_eq!(local_file_uri("/home/arona/images/1.png"), "file:///home/arona/images/1.png");
}

#[test]
fn outbound_segments_map_to_onebot_v11_shapes() {
    let media = MediaFiles::none();
    let shape = |segment: MessageSegment, expected: &str| {
        same_json(&segment_to_json(&segment, &media), expected)
    };
    shape(MessageSegment::At(123), r#"{ "type": "at", "data": { "qq": 123 } }"#);
    shape(MessageSegment::AtAll, r#"{ "type": "at", "data": { "qq": "all" } }"#);
    shape(MessageSegment::Reply(77), r#"{ "type": "reply", "data": { "id": 77 } }"#);
    // a face goes out as a number where it is one, else as it stands
    shape(MessageSegment::Face("299".into()), r#"{ "type": "face", "data": { "id": 299 } }"#);
    shape(MessageSegment::Face("sweet".into()), r#"{ "type": "face", "data": { "id": "sweet" } }"#);
    shape(
        MessageSegment::Record { url: Some("http://a/b.amr".into()), file: None },
        r#"{ "type": "record", "data": { "file": "http://a/b.amr" } }"#,
    );
    shape(
        MessageSegment::Video { url: None, file: Some("http://a/b.mp4".into()) },
        r#"{ "type": "video", "data": { "file": "http://a/b.mp4" } }"#,
    );
    shape(
        MessageSegment::File { file_id: "fid".into(), name: "n.txt".into(), size: 12 },
        r#"{ "type": "file", "data": { "file_id": "fid", "file_name": "n.txt", "file_size": 12 } }"#,
    );
    shape(
        MessageSegment::Poke { name: "bubble".into(), target: 5 },
        r#"{ "type": "poke", "data": { "type": "bubble", "target_id": 5 } }"#,
    );
    shape(
        MessageSegment::Location {
            name: "阿拜多斯".into(),
            address: "沙漠".into(),
            latitude: Json::Number("1.5".into()),
            longitude: Json::Number("-2.5".into()),
        },
        r#"{ "type": "location", "data": { "name": "阿拜多斯", "address": "沙漠", "lat": 1.5, "lon": -2.5 } }"#,
    );
    shape(
        MessageSegment::Json(json(r#"{ "app": 1 }"#)),
        r#"{ "type": "json", "data": { "data": { "app": 1 } } }"#,
    );
    shape(
        MessageSegment::Xml(json(r#"{ "msg": 2 }"#)),
        r#"{ "type": "xml", "data": { "data": { "msg": 2 } } }"#,
    );
    // a forwarded bundle goes out by an action of its own and leaves a text here
    shape(
        MessageSegment::Forward { title: "十连".into(), messages: vec![] },
        r#"{ "type": "text", "data": { "text": "[合并转发:十连]" } }"#,
    );
}

#[test]
fn media_value_prefers_url_then_bytes_then_path() {
    let media = MediaFiles::none();
    assert_eq!(
        media_value(
            &Some("http://u".into()),
            &Some("f.png".into()),
            &Some(vec![0xFF, 0xD8]),
            &media
        ),
        "http://u"
    );
    assert_eq!(media_value(&None, &None, &Some(vec![0xFF, 0xD8]), &media), "base64:///9g=");
    // a path that cannot be read is handed on
    assert_eq!(
        media_value(&None, &Some("definitely-missing.png".into()), &None, &media),
        "definitely-missing.png"
    );
}

#[test]
fn local_files_go_out_as_bytes_or_by_their_path() {
    let file = || LocalFile { path: "/a/b.png".into(), is_file: true, bytes: Some(vec![0xFF, 0xD8]) };
    let embedded = MediaFiles { send_as_file: false, files: vec![file()] };
    let direct = MediaFiles { send_as_file: true, files: vec![file()] };
    let path = Some("/a/b.png".to_string());
    assert_eq!(media_value(&None, &path, &None, &embedded), "base64:///9g=");
    assert_eq!(media_value(&None, &path, &None, &direct), "file:///a/b.png");
    assert_eq!(media_value(&None, &None, &None, &direct), "");
    let unreadable = MediaFiles {
        send_as_file: false,
        files: vec![LocalFile { path: "/a/b.png".into(), is_file: true, bytes: None }],
    };
    assert_eq!(media_value(&None, &path, &None, &unreadable), "/a/b.png");
}

#[test]
fn inbound_array_segments_are_parsed() {
    let event = message_event(
        r#"[
            { "type": "text", "data": { "text": "你好" } },
            { "type": "at", "data": { "qq": "all" } },
            { "type": "at", "data": { "qq": 20002 } },
            { "type": "reply", "data": { "id": "123" } },
            { "type": "face", "data": { "id": 6 } },
            { "type": "voice", "data": { "url": "http://v" } },
            { "type": "video", "data": { "file": "http://m" } },
            { "type": "file", "data": { "file_id": "fid", "file_name": "n.txt", "file_size": "9" } },
            { "type": "poke", "data": { "type": "punch", "target": "7" } },
            { "type": "location", "data": { "name": "x", "address": "y", "lat": "1.25", "lon": 2.5 } },
            { "type": "json", "data": { "data": "{\"app\":\"1\"}" } },
            { "type": "unknown-type", "data": {} }
        ]"#,
    );
    let segments = extract_segments(&event);
    let names: Vec<&str> = segments.iter().map(kind_of).collect();
    assert_eq!(
        names,
        vec![
            "text", "at_all", "at", "reply", "face", "record", "video", "file", "poke",
            "location", "json"
        ],
        "未知段应被丢弃、其余段全部还原：{segments:?}"
    );
    assert!(matches!(&segments[3], MessageSegment::Reply(123)));
    assert!(matches!(
        &segments[5],
        MessageSegment::Record { url: Some(url), file: None } if url == "http://v"
    ));
    assert!(matches!(
        &segments[7],
        MessageSegment::File { file_id, name, size }
            if file_id == "fid" && name == "n.txt" && *size == 9
    ));
    assert!(matches!(
        &segments[8],
        MessageSegment::Poke { name, target: 7 } if name == "punch"
    ));
    assert!(matches!(
        &segments[9],
        MessageSegment::Location { latitude, longitude, .. }
            if (float(latitude) - 1.25).abs() < 1e-9 && (float(longitude) - 2.5).abs() < 1e-9
    ));
    // the data of a card may be a JSON document in a text
    assert!(matches!(
        &segments[10],
        MessageSegment::Json(value) if value == &json(r#"{ "app": "1" }"#)
    ));
}

#[test]
fn forward_node_content_is_parsed_recursively() {
    let event = message_event(
        r#"[
            { "type": "text", "data": { "text": "看这个" } },
            {
                "type": "node",
                "data": {
                    "title": "聊天记录",
                    "name": "老师",
                    "uin": 20002,
                    "content": [
                        { "type": "text", "data": { "text": "第一条" } },
                        { "type": "at", "data": { "qq": 30003 } }
                    ]
                }
            }
        ]"#,
    );
    let segments = extract_segments(&event);
    let MessageSegment::Forward { title, messages } = &segments[1] else {
        panic!("应为合并转发段：{segments:?}");
    };
    assert_eq!(title, "聊天记录");
    assert_eq!(messages.len(), 1);
    assert_eq!(messages[0].name, "老师");
    assert_eq!(messages[0].uin, 20002);
    assert!(matches!(&messages[0].content[1], MessageSegment::At(30003)));
}

#[test]
fn empty_forward_node_is_dropped() {
    let event = message_event(
        r#"[
            { "type": "node", "data": { "title": "空" } },
            { "type": "text", "data": { "text": "还在" } }
        ]"#,
    );
    let segments = extract_segments(&event);
    assert_eq!(segments.len(), 1);
    assert!(matches!(&segments[0], MessageSegment::Text(text) if text == "还在"));
}

#[test]
fn command_text_strips_mention_of_the_bot() {
    let event = message_event(
        r#"[
            { "type": "at", "data": { "qq": 10001 } },
            { "type": "text", "data": { "text": " /单抽" } }
        ]"#,
    );
    assert_eq!(command_text(&event, 10001), "/单抽");

    let event = message_event(
        r#"[
            { "type": "at", "data": { "qq": "all" } },
            { "type": "text", "data": { "text": "帮助" } }
        ]"#,
    );
    assert_eq!(command_text(&event, 10001), "帮助");
}

#[test]
fn command_text_keeps_mentions_of_others() {
    let event = message_event(
        r#"[
            { "type": "at", "data": { "qq": 20002 } },
            { "type": "text", "data": { "text": "抽到了" } },
            { "type": "face", "data": { "id": 1 } }
        ]"#,
    );
    assert_eq!(command_text(&event, 10001), "@20002 抽到了 [表情 [1]]");
}

#[test]
fn command_text_strips_only_leading_reply_and_image() {
    let event = message_event(
        r#"[
            { "type": "reply", "data": { "id": 5 } },
            { "type": "image", "data": { "url": "http://i" } },
            { "type": "at", "data": { "qq": 10001 } },
            { "type": "text", "data": { "text": "/查日志" } }
        ]"#,
    );
    assert_eq!(command_text(&event, 10001), "/查日志");

    let event = message_event(
        r#"[
            { "type": "text", "data": { "text": "a" } },
            { "type": "reply", "data": { "id": 5 } }
        ]"#,
    );
    assert_eq!(command_text(&event, 10001), "a [回复 5]");
}

#[test]
fn extract_text_joins_displays_without_spaces() {
    let event = message_event(
        r#"[
            { "type": "text", "data": { "text": "抽到 " } },
            { "type": "at", "data": { "qq": 20002 } },
            { "type": "image", "data": { "url": "http://i" } }
        ]"#,
    );
    assert_eq!(extract_text(&event), "抽到 @20002[arona:image,url=http://i]");
}

#[test]
fn a_parsed_message_holds_all_three_readings() {
    let event = message_event(
        r#"[
            { "type": "at", "data": { "qq": 10001 } },
            { "type": "text", "data": { "text": " /单抽" } }
        ]"#,
    );
    let parsed = ParsedMessage::parse(&event, 10001);
    assert_eq!(parsed.segments.len(), 2);
    assert_eq!(parsed.text, "@10001 /单抽");
    assert_eq!(parsed.command_text, "/单抽");
}

#[test]
fn cq_codes_are_decoded_into_segments() {
    let event = event_of(
        r#"{
            "post_type": "message",
            "message_type": "private",
            "self_id": 10001,
            "raw_message": "你好[CQ:at,qq=all][CQ:image,file=http://i/a.png][CQ:face,id=6]尾巴[CQ:mystery,x=1]"
        }"#,
    );
    let segments = extract_segments(&event);
    assert!(matches!(&segments[0], MessageSegment::Text(t) if t == "你好"));
    assert!(matches!(&segments[1], MessageSegment::AtAll));
    assert!(matches!(
        &segments[2],
        MessageSegment::Image { file: Some(f), .. } if f == "http://i/a.png"
    ));
    assert!(matches!(&segments[3], MessageSegment::Face(id) if id == "6"));
    // a code of an unknown type stays as it is written
    assert!(matches!(&segments[4], MessageSegment::Text(t) if t == "尾巴"));
    assert!(
        matches!(&segments[5], MessageSegment::Text(t) if t == "[CQ:mystery,x=1]"),
        "segments: {segments:?}"
    );
}

#[test]
fn cq_entities_are_unescaped() {
    let segments = decode_cq_message("[CQ:file,file_id=abc&#44;def&#58;g&#93;h&amp;i]");
    let MessageSegment::File { file_id, size, .. } = &segments[0] else {
        panic!("应为文件段：{segments:?}");
    };
    assert_eq!(file_id, "abc,def:g]h&i");
    assert_eq!(*size, 0);

    let segments = decode_cq_message("a&#44;b[CQ:mystery,x=1]c");
    assert!(matches!(&segments[0], MessageSegment::Text(t) if t == "a,b"));
    assert!(
        matches!(&segments[1], MessageSegment::Text(t) if t == "[CQ:mystery,x=1]"),
        "segments: {segments:?}"
    );
    assert!(matches!(&segments[2], MessageSegment::Text(t) if t == "c"));
}

#[test]
fn an_escaped_entity_is_decoded_once() {
    assert_eq!(unescape_cq("&amp;#44;"), "&#44;");
    assert_eq!(unescape_cq("a&#44;b&#58;c&#93;d&amp;e"), "a,b:c]d&e");
}

#[test]
fn forward_nodes_serialize_for_send_forward_msg() {
    let nodes = forward_messages_to_json(
        &vec![ForwardMessage {
            name: "诺亚".into(),
            uin: 20002,
            content: vec![
                MessageSegment::Text("十连结果".into()),
                MessageSegment::Image {
                    url: Some("http://i/1.png".into()),
                    file: None,
                    data: None,
                },
            ],
        }],
        &MediaFiles::none(),
    );
    same_json(
        &nodes,
        r#"[
            {
                "type": "node",
                "data": {
                    "name": "诺亚",
                    "uin": 20002,
                    "content": [
                        { "type": "text", "data": { "text": "十连结果" } },
                        { "type": "image", "data": { "file": "http://i/1.png" } }
                    ]
                }
            }
        ]"#,
    );
}

#[test]
fn segments_that_go_out_come_back() {
    let media = MediaFiles::none();
    let message = OutgoingMessage {
        segments: vec![
            MessageSegment::Text("早安".into()),
            MessageSegment::At(-5),
            MessageSegment::AtAll,
            MessageSegment::Reply(77),
            MessageSegment::Face("299".into()),
            MessageSegment::Face("sweet".into()),
            MessageSegment::File { file_id: "fid".into(), name: "n.txt".into(), size: 12 },
            MessageSegment::Poke { name: "bubble".into(), target: 5 },
            MessageSegment::Json(json(r#"{ "app": 1 }"#)),
            MessageSegment::Xml(json("[1]")),
        ],
        revoke_after_millis: None,
    };
    let Json::Array(items) = message_to_json(&message, &media) else {
        panic!("a message is an array");
    };
    let back = parse_segments(&items);
    assert_eq!(format!("{back:?}"), format!("{:?}", message.segments));
}

#[test]
fn media_come_back_as_the_file_that_was_written() {
    let media = MediaFiles::none();
    let image = MessageSegment::Image { url: Some("http://u".into()), file: None, data: None };
    let back = parse_segment(&segment_to_json(&image, &media));
    assert!(matches!(
        back,
        Some(MessageSegment::Image { url: None, file: Some(f), data: None }) if f == "http://u"
    ));
}

#[test]
fn cards_that_are_no_cards_are_dropped() {
    assert!(parse_segment(&json(r#"{ "type": "json", "data": { "data": 5 } }"#)).is_none());
    assert!(parse_segment(&json(r#"{ "type": "json", "data": {} }"#)).is_none());
    assert_eq!(card_with(Some(&Json::Text("plain".into())), None), Some(Json::Text("plain".into())));
    assert_eq!(
        card_with(Some(&Json::Text("1".into())), Some(Json::Number("1".into()))),
        Some(Json::Number("1".into()))
    );
    assert_eq!(card_with(Some(&Json::Null), None), None);
}

#[test]
fn actions_are_written_and_read_back() {
    let sent = action_with_echo("send_msg", json(r#"{ "a": 1 }"#), "tag-1".into());
    let text = serialize_action(&sent);
    same_json(&json(&text), r#"{"action":"send_msg","params":{"a":1},"echo":"tag-1"}"#);
    match parse_payload(&text, 0) {
        Some(ParsedPayload::Action(back)) => {
            assert_eq!(back.action, "send_msg");
            assert_eq!(back.params, json(r#"{ "a": 1 }"#));
            assert_eq!(back.echo, "tag-1");
        }
        other => panic!("应为动作：{other:?}"),
    }
    let fresh = action("get_status", Json::Null);
    assert_eq!(fresh.echo.len(), 36);
    assert_eq!(&fresh.echo[8..9], "-");
    assert_ne!(new_echo(), fresh.echo);
}

#[test]
fn payloads_are_told_apart() {
    match parse_payload(r#"{"status":"ok","retcode":"0","data":{"x":1},"echo":"e"}"#, 0) {
        Some(ParsedPayload::Response(response)) => {
            assert_eq!(response.retcode, 0);
            assert_eq!(response.echo.as_deref(), Some("e"));
            assert!(response.success());
        }
        other => panic!("应为响应：{other:?}"),
    }
    let event = event_of(r#"{"post_type":"meta_event"}"#);
    assert_eq!(event.time, 0);
    match parse_payload(r#"{"post_type":"meta_event"}"#, 42) {
        Some(ParsedPayload::Event(event)) => assert_eq!(event.time, 42),
        other => panic!("应为事件：{other:?}"),
    }
    assert!(parse_payload("{}", 0).is_none());
    assert!(parse_payload("no json", 0).is_none());
}
