//! Encoding and decoding of OneBot messages.
use crate::json::{
    as_value, field, json_text, json_views, lemma_array_view, lemma_field_as_value, lookup,
    lookup_last, no_members, number, option_text, option_view, parse_json, parsed_json,
    prints_exactly, render_json, text_of, Json, JsonView, Members, JSON_DEPTH,
};
use crate::onebot::cq::cq_segments;
use crate::onebot::display::{
    command_line, command_text_of, concat3, display_all, display_segments,
};
use crate::onebot::media::{media_text, media_value, MediaFiles};
use crate::onebot::model::{
    payload_view, ActionView, EventView, OneBotAction, OneBotActionResponse, OneBotEvent,
    ParsedPayload, PayloadView, ResponseView,
};
use crate::runtime::message::{
    forward_views, lemma_forward_message_view, lemma_forward_segment_view, segment_views,
    ForwardMessage, ForwardView, MessageSegment, OutgoingMessage, SegmentView,
};
use crate::text::{decimal, i64_value, is_digit, law_decimal_reads_back, owned, parse_i64, same};
use vstd::prelude::*;

pub use crate::onebot::cq::{decode_cq_message, unescape_cq};
pub use crate::onebot::display::{format_face, format_image, segment_display};
pub use crate::onebot::media::local_file_uri;

verus! {

// ---------------------------------------------------------------------------
// actions

/// Whether a text is a UUID in hyphenated lower-case form.
pub open spec fn is_uuid_text(s: Seq<char>) -> bool {
    s.len() == 36 && forall|i: int|
        0 <= i < 36 ==> if i == 8 || i == 13 || i == 18 || i == 23 {
            #[trigger] s[i] == '-'
        } else {
            '0' <= s[i] <= '9' || 'a' <= s[i] <= 'f'
        }
}

/// Calls `uuid::Uuid::new_v4` and prints the result in its hyphenated lower-case
/// form. Which UUID comes is left to chance.
#[verifier::external_body]
pub fn new_echo() -> (r: String)
    ensures
        is_uuid_text(r@),
{
    uuid::Uuid::new_v4().to_string()
}

/// An action with a given tag.
pub fn action_with_echo(name: &str, params: Json, echo: String) -> (r: OneBotAction)
    ensures
        r@ == (ActionView { action: name@, params: params@, echo: echo@ }),
{
    OneBotAction { action: owned(name), params, echo }
}

/// An action with a fresh tag.
pub fn action(name: &str, params: Json) -> (r: OneBotAction)
    ensures
        r@.action == name@,
        r@.params == params@,
        is_uuid_text(r@.echo),
{
    action_with_echo(name, params, new_echo())
}

/// The JSON object of an action.
pub open spec fn action_json(action: ActionView) -> JsonView {
    JsonView::Object(
        no_members().push(("action"@, JsonView::Text(action.action))).push(("params"@, action.params)).push(("echo"@, JsonView::Text(action.echo))),
    )
}

/// The JSON object of an action.
pub fn action_to_json(action: &OneBotAction) -> (r: Json)
    ensures
        r@ == action_json(action@),
{
    Members::new().with("action", Json::text(action.action.as_str())).with(
        "params",
        action.params.clone(),
    ).with("echo", Json::text(action.echo.as_str())).object()
}

/// Whether an action prints to a payload that reads back as the action.
pub open spec fn action_prints_exactly(action: ActionView) -> bool {
    prints_exactly(action.params, JSON_DEPTH - 1)
}

/// The action that is read from the payload of an action: the same, with its parameters
/// in the order of their keys.
pub open spec fn action_received(action: ActionView) -> ActionView {
    ActionView { params: as_value(action.params), ..action }
}

/// The payload that requests an action. Whoever reads it finds the action.
pub fn serialize_action(action: &OneBotAction) -> (r: String)
    ensures
        r@ == json_text(as_value(action_json(action@))),
        action_prints_exactly(action@) ==> forall|now: i64| #[trigger]
            payload_in(r@, now) == Some(PayloadView::Action(action_received(action@))),
{
    proof {
        let members = action_json(action@)->Object_0;
        if action_prints_exactly(action@) {
            assert forall|i: int| 0 <= i < members.len() implies prints_exactly(
                (#[trigger] members[i]).1,
                JSON_DEPTH - 1,
            ) by {}
        }
        assert forall|now: i64| #[trigger]
            payload_of(as_value(action_json(action@)), now) == Some(
                PayloadView::Action(action_received(action@)),
            ) by {
            lemma_action_value(action@, now);
        }
    }
    render_json(&action_to_json(action))
}

proof fn lemma_action_value(action: ActionView, now: i64)
    ensures
        payload_of(as_value(action_json(action)), now) == Some(
            PayloadView::Action(action_received(action)),
        ),
{
    let members = action_json(action)->Object_0;
    lemma_field_as_value(members, "post_type"@);
    lemma_field_as_value(members, "action"@);
    lemma_field_as_value(members, "params"@);
    lemma_field_as_value(members, "echo"@);
    reveal_with_fuel(lookup_last, 4);
    reveal_strlit("action");
    reveal_strlit("params");
    reveal_strlit("echo");
    reveal_strlit("post_type");
    assert("action"@[0] == 'a' && "params"@[0] == 'p' && "echo"@[0] == 'e');
    assert("post_type"@[0] == 'p' && "post_type"@[1] == 'o' && "params"@[1] == 'a');
    let head2 = members.drop_last();
    let head1 = head2.drop_last();
    assert(head2.last() == members[1]);
    assert(head1.last() == members[0]);
    assert(head1.drop_last().len() == 0);
}

// ---------------------------------------------------------------------------
// segments going out

/// A segment in JSON: its type and its data.
pub open spec fn typed_json(kind: Seq<char>, data: Seq<(Seq<char>, JsonView)>) -> JsonView {
    JsonView::Object(
        no_members().push(("type"@, JsonView::Text(kind))).push(("data"@, JsonView::Object(data))),
    )
}

/// The JSON of a segment.
pub open spec fn segment_json(segment: SegmentView, media: MediaFiles) -> JsonView {
    match segment {
        SegmentView::Text(text) => typed_json("text"@, no_members().push(("text"@, JsonView::Text(text)))),
        SegmentView::At(user_id) => typed_json("at"@, no_members().push(("qq"@, number(user_id as int)))),
        SegmentView::AtAll => typed_json("at"@, no_members().push(("qq"@, JsonView::Text("all"@)))),
        SegmentView::Reply(message_id) => typed_json(
            "reply"@,
            no_members().push(("id"@, number(message_id as int))),
        ),
        SegmentView::Face(id) => typed_json(
            "face"@,
            no_members().push(("id"@,
                    match i64_value(id) {
                        Some(n) => number(n as int),
                        None => JsonView::Text(id),
                    },
                )),
        ),
        SegmentView::Record { url, file } => typed_json(
            "record"@,
            no_members().push(("file"@, JsonView::Text(media_text(url, file, None, media)))),
        ),
        SegmentView::Video { url, file } => typed_json(
            "video"@,
            no_members().push(("file"@, JsonView::Text(media_text(url, file, None, media)))),
        ),
        SegmentView::File { file_id, name, size } => typed_json(
            "file"@,
            no_members().push(("file_id"@, JsonView::Text(file_id))).push(("file_name"@, JsonView::Text(name))).push(("file_size"@, number(size as int))),
        ),
        SegmentView::Poke { name, target } => typed_json(
            "poke"@,
            no_members().push(("type"@, JsonView::Text(name))).push(("target_id"@, number(target as int))),
        ),
        SegmentView::Location { name, address, latitude, longitude } => typed_json(
            "location"@,
            no_members().push(("name"@, JsonView::Text(name))).push(("address"@, JsonView::Text(address))).push(("lat"@, latitude)).push(("lon"@, longitude)),
        ),
        SegmentView::Json(card) => typed_json("json"@, no_members().push(("data"@, card))),
        SegmentView::Xml(card) => typed_json("xml"@, no_members().push(("data"@, card))),
        SegmentView::Forward { title, .. } => typed_json(
            "text"@,
            no_members().push(("text"@, JsonView::Text("[合并转发:"@ + title + "]"@))),
        ),
        SegmentView::Image { url, file, data } => typed_json(
            "image"@,
            no_members().push(("file"@, JsonView::Text(media_text(url, file, data, media)))),
        ),
    }
}

fn typed(kind: &str, data: Members) -> (r: Json)
    ensures
        r@ == typed_json(kind@, data@),
{
    Members::new().with("type", Json::text(kind)).with("data", data.object()).object()
}

/// The JSON of a segment. Forwarded bundles go out by an action of their own; here
/// they leave a text in their place.
pub fn segment_to_json(segment: &MessageSegment, media: &MediaFiles) -> (r: Json)
    ensures
        r@ == segment_json(segment@, *media),
{
    match segment {
        MessageSegment::Text(text) => typed(
            "text",
            Members::new().with("text", Json::text(text.as_str())),
        ),
        MessageSegment::At(user_id) => typed(
            "at",
            Members::new().with("qq", Json::signed(*user_id)),
        ),
        MessageSegment::AtAll => typed("at", Members::new().with("qq", Json::text("all"))),
        MessageSegment::Reply(message_id) => typed(
            "reply",
            Members::new().with("id", Json::signed(*message_id)),
        ),
        MessageSegment::Face(id) => match parse_i64(id.as_str()) {
            Some(n) => typed("face", Members::new().with("id", Json::signed(n))),
            None => typed("face", Members::new().with("id", Json::text(id.as_str()))),
        },
        MessageSegment::Record { url, file } => typed(
            "record",
            Members::new().with("file", Json::Text(media_value(url, file, &None, media))),
        ),
        MessageSegment::Video { url, file } => typed(
            "video",
            Members::new().with("file", Json::Text(media_value(url, file, &None, media))),
        ),
        MessageSegment::File { file_id, name, size } => typed(
            "file",
            Members::new().with("file_id", Json::text(file_id.as_str())).with(
                "file_name",
                Json::text(name.as_str()),
            ).with("file_size", Json::unsigned(*size)),
        ),
        MessageSegment::Poke { name, target } => typed(
            "poke",
            Members::new().with("type", Json::text(name.as_str())).with(
                "target_id",
                Json::signed(*target),
            ),
        ),
        MessageSegment::Location { name, address, latitude, longitude } => typed(
            "location",
            Members::new().with("name", Json::text(name.as_str())).with(
                "address",
                Json::text(address.as_str()),
            ).with("lat", latitude.clone()).with("lon", longitude.clone()),
        ),
        MessageSegment::Json(card) => typed("json", Members::new().with("data", card.clone())),
        MessageSegment::Xml(card) => typed("xml", Members::new().with("data", card.clone())),
        MessageSegment::Forward { title, .. } => typed(
            "text",
            Members::new().with("text", Json::Text(concat3("[合并转发:", title.as_str(), "]"))),
        ),
        MessageSegment::Image { url, file, data } => typed(
            "image",
            Members::new().with("file", Json::Text(media_value(url, file, data, media))),
        ),
    }
}

/// The JSON array of some segments.
pub open spec fn segments_json(segments: Seq<SegmentView>, media: MediaFiles) -> JsonView {
    JsonView::Array(segments.map_values(|s: SegmentView| segment_json(s, media)))
}

/// The JSON array of some segments.
pub fn segments_to_json(segments: &Vec<MessageSegment>, media: &MediaFiles) -> (r: Json)
    ensures
        r@ == segments_json(segment_views(segments@), *media),
{
    let mut out: Vec<Json> = Vec::new();
    let mut i: usize = 0;
    while i < segments.len()
        invariant
            i <= segments@.len(),
            out@.len() == i,
            forall|k: int|
                0 <= k < i ==> (#[trigger] out@[k])@ == segment_json(segments@[k]@, *media),
        decreases segments@.len() - i,
    {
        out.push(segment_to_json(&segments[i], media));
        i = i + 1;
    }
    proof {
        lemma_array_view(out);
        assert(json_views(out@) =~= segment_views(segments@).map_values(
            |s: SegmentView| segment_json(s, *media),
        ));
    }
    Json::Array(out)
}

/// The JSON array of the segments of a message.
pub fn message_to_json(message: &OutgoingMessage, media: &MediaFiles) -> (r: Json)
    ensures
        r@ == segments_json(segment_views(message.segments@), *media),
{
    segments_to_json(&message.segments, media)
}

/// The JSON of a forwarded message.
pub open spec fn forward_json(message: ForwardView, media: MediaFiles) -> JsonView {
    typed_json(
        "node"@,
        no_members().push(("name"@, JsonView::Text(message.name))).push(("uin"@, number(message.uin as int))).push(("content"@, segments_json(message.content, media))),
    )
}

/// The JSON array of a forwarded bundle.
pub fn forward_messages_to_json(messages: &Vec<ForwardMessage>, media: &MediaFiles) -> (r: Json)
    ensures
        r@ == JsonView::Array(
            forward_views(messages@).map_values(|m: ForwardView| forward_json(m, *media)),
        ),
{
    let mut out: Vec<Json> = Vec::new();
    let mut i: usize = 0;
    while i < messages.len()
        invariant
            i <= messages@.len(),
            out@.len() == i,
            forall|k: int|
                0 <= k < i ==> (#[trigger] out@[k])@ == forward_json(messages@[k]@, *media),
        decreases messages@.len() - i,
    {
        let node = &messages[i];
        proof {
            lemma_forward_message_view(*node);
        }
        out.push(
            typed(
                "node",
                Members::new().with("name", Json::text(node.name.as_str())).with(
                    "uin",
                    Json::signed(node.uin),
                ).with("content", segments_to_json(&node.content, media)),
            ),
        );
        i = i + 1;
    }
    proof {
        lemma_array_view(out);
        assert(json_views(out@) =~= forward_views(messages@).map_values(
            |m: ForwardView| forward_json(m, *media),
        ));
    }
    Json::Array(out)
}

// ---------------------------------------------------------------------------
// numbers in JSON fields

/// The JSON number of the floating-point number that a text writes, null where it
/// is not finite; `None` where the text writes none.
pub uninterp spec fn float_json(text: Seq<char>) -> Option<JsonView>;

/// Reads a text with `str::parse` as a floating-point number and turns it into a
/// JSON number with `serde_json::Number::from_f64`. What comes out depends on the
/// text alone.
#[verifier::external_body]
pub(crate) fn parse_float(text: &str) -> (r: Option<Json>)
    ensures
        option_view(r) == float_json(text@),
{
    text.parse().ok().map(
        |x| match serde_json::Number::from_f64(x) {
            Some(n) => Json::Number(n.to_string()),
            None => Json::Null,
        },
    )
}

/// The coordinate zero.
pub open spec fn zero_coordinate() -> JsonView {
    JsonView::Number("0.0"@)
}

/// The integer of a field that is a number or a text.
pub open spec fn loose_int(json: Option<JsonView>) -> Option<i64> {
    match json {
        Some(JsonView::Number(n)) => i64_value(n),
        Some(JsonView::Text(t)) => i64_value(t),
        _ => None,
    }
}

/// The text of a field that is a text or a number.
pub open spec fn loose_text(json: Option<JsonView>) -> Option<Seq<char>> {
    match json {
        Some(JsonView::Text(t)) => Some(t),
        Some(JsonView::Number(n)) => Some(n),
        _ => None,
    }
}

/// The coordinate of a field that is a number or a text.
pub open spec fn loose_float(json: Option<JsonView>) -> Option<JsonView> {
    match json {
        Some(JsonView::Number(n)) => float_json(n),
        Some(JsonView::Text(t)) => float_json(t),
        _ => None,
    }
}

/// The integer of a member that is a number or a text.
pub fn get_i64(json: &Json, key: &str) -> (r: Option<i64>)
    ensures
        r == loose_int(field(json@, key@)),
{
    match json.get(key) {
        Some(Json::Number(n)) => parse_i64(n.as_str()),
        Some(Json::Text(t)) => parse_i64(t.as_str()),
        _ => None,
    }
}

fn get_loose_text(json: &Json, key: &str) -> (r: Option<String>)
    ensures
        option_text(r) == loose_text(field(json@, key@)),
{
    match json.get(key) {
        Some(Json::Text(t)) => Some(t.clone()),
        Some(Json::Number(n)) => Some(n.clone()),
        _ => None,
    }
}

fn get_float(json: &Json, key: &str) -> (r: Option<Json>)
    ensures
        option_view(r) == loose_float(field(json@, key@)),
{
    match json.get(key) {
        Some(Json::Number(n)) => parse_float(n.as_str()),
        Some(Json::Text(t)) => parse_float(t.as_str()),
        _ => None,
    }
}

/// The coordinate under the first of two keys that has one, else zero.
pub open spec fn coordinate(data: JsonView, first: Seq<char>, second: Seq<char>) -> JsonView {
    match loose_float(field(data, first)) {
        Some(c) => c,
        None => match loose_float(field(data, second)) {
            Some(c) => c,
            None => zero_coordinate(),
        },
    }
}

fn f64_field(data: &Json, first: &str, second: &str) -> (r: Json)
    ensures
        r@ == coordinate(data@, first@, second@),
{
    match get_float(data, first) {
        Some(c) => c,
        None => match get_float(data, second) {
            Some(c) => c,
            None => Json::Number(owned("0.0")),
        },
    }
}


// ---------------------------------------------------------------------------
// segments coming in

/// What a mention names: everybody, or a user by number.
pub open spec fn mention_of(raw: Seq<char>) -> Option<SegmentView> {
    if raw == "all"@ {
        Some(SegmentView::AtAll)
    } else {
        match i64_value(raw) {
            Some(n) => Some(SegmentView::At(n)),
            None => None,
        }
    }
}

/// The view of a segment that may be missing.
pub open spec fn option_segment(segment: Option<MessageSegment>) -> Option<SegmentView> {
    match segment {
        Some(s) => Some(s@),
        None => None,
    }
}

pub(crate) fn parse_mention(raw: &str) -> (r: Option<MessageSegment>)
    ensures
        option_segment(r) == mention_of(raw@),
{
    if same(raw, "all") {
        Some(MessageSegment::AtAll)
    } else {
        match parse_i64(raw) {
            Some(n) => Some(MessageSegment::At(n)),
            None => None,
        }
    }
}

/// The content of a card: an object or an array as it stands, a text as the JSON
/// document in it or, where it holds none, as it stands.
pub open spec fn card_of(value: Option<JsonView>) -> Option<JsonView> {
    match value {
        Some(JsonView::Text(t)) => Some(
            match parsed_json(t) {
                Some(inner) => inner,
                None => JsonView::Text(t),
            },
        ),
        Some(JsonView::Object(m)) => Some(JsonView::Object(m)),
        Some(JsonView::Array(a)) => Some(JsonView::Array(a)),
        _ => None,
    }
}

/// The content of a card, where the text of one is read as `inner`.
pub fn card_with(value: Option<&Json>, inner: Option<Json>) -> (r: Option<Json>)
    ensures
        option_view(r) == match value {
            Some(v) => match v@ {
                JsonView::Text(t) => Some(
                    match inner {
                        Some(i) => i@,
                        None => v@,
                    },
                ),
                JsonView::Object(_) => Some(v@),
                JsonView::Array(_) => Some(v@),
                _ => None,
            },
            None => None,
        },
{
    match value {
        Some(v) => match v {
            Json::Text(_) => match inner {
                Some(i) => Some(i),
                None => Some(v.clone()),
            },
            Json::Object(_) => Some(v.clone()),
            Json::Array(_) => Some(v.clone()),
            _ => None,
        },
        None => None,
    }
}

pub(crate) fn card_value(value: Option<&Json>) -> (r: Option<Json>)
    ensures
        option_view(r) == card_of(
            match value {
                Some(v) => Some(v@),
                None => None,
            },
        ),
{
    let inner = match value {
        Some(Json::Text(t)) => parse_json(t.as_str()),
        _ => None,
    };
    card_with(value, inner)
}

/// The first of two texts that is there, else a default.
pub open spec fn first_text(
    a: Option<Seq<char>>,
    b: Option<Seq<char>>,
    default: Seq<char>,
) -> Seq<char> {
    match a {
        Some(t) => t,
        None => match b {
            Some(t) => t,
            None => default,
        },
    }
}

/// The first of two numbers that is there, else zero.
pub open spec fn first_int(a: Option<i64>, b: Option<i64>) -> i64 {
    match a {
        Some(n) => n,
        None => match b {
            Some(n) => n,
            None => 0,
        },
    }
}

fn pick_text(a: Option<String>, b: Option<String>, default: &str) -> (r: String)
    ensures
        r@ == first_text(option_text(a), option_text(b), default@),
{
    match a {
        Some(t) => t,
        None => match b {
            Some(t) => t,
            None => owned(default),
        },
    }
}

fn pick_int(a: Option<i64>, b: Option<i64>) -> (r: i64)
    ensures
        r == first_int(a, b),
{
    match a {
        Some(n) => n,
        None => match b {
            Some(n) => n,
            None => 0,
        },
    }
}

/// The data of a segment: its `data` member where that is an object, else nothing.
pub open spec fn segment_data(element: JsonView) -> JsonView {
    match field(element, "data"@) {
        Some(JsonView::Object(m)) => JsonView::Object(m),
        _ => JsonView::Object(Seq::empty()),
    }
}

proof fn lemma_lookup_is_member(members: Seq<(Seq<char>, JsonView)>, key: Seq<char>)
    ensures
        lookup(members, key) matches Some(v) ==> exists|i: int|
            0 <= i < members.len() && (#[trigger] members[i]).1 == v,
    decreases members.len(),
{
    if members.len() > 0 {
        if members[0].0 == key {
            assert(members[0].1 == lookup(members, key)->0);
        } else {
            let rest = members.subrange(1, members.len() as int);
            lemma_lookup_is_member(rest, key);
            if lookup(members, key) is Some {
                let v = lookup(members, key)->0;
                let i = choose|i: int| 0 <= i < rest.len() && (#[trigger] rest[i]).1 == v;
                assert(members[i + 1] == rest[i]);
            }
        }
    }
}

proof fn lemma_field_is_smaller(json: JsonView, key: Seq<char>)
    ensures
        field(json, key) matches Some(v) ==> decreases_to!(json => v),
{
    if field(json, key) is Some {
        let members = json->Object_0;
        lemma_lookup_is_member(members, key);
        let v = field(json, key)->0;
        let i = choose|i: int| 0 <= i < members.len() && (#[trigger] members[i]).1 == v;
        assert(decreases_to!(json => members));
        assert(decreases_to!(members => members[i]));
        assert(decreases_to!(members[i] => members[i].1));
    }
}

/// The nested segments of a forwarded message.
pub open spec fn nested_items(element: JsonView) -> Seq<JsonView> {
    match field(segment_data(element), "content"@) {
        Some(JsonView::Array(items)) => items,
        _ => Seq::empty(),
    }
}

/// What is nested in an element is smaller than the element.
pub proof fn lemma_nested_items_are_smaller(element: JsonView)
    ensures
        nested_items(element).len() > 0 ==> decreases_to!(element => nested_items(element)),
{
    lemma_field_is_smaller(element, "data"@);
    lemma_field_is_smaller(segment_data(element), "content"@);
    if nested_items(element).len() > 0 {
        if field(element, "data"@) is Some && field(element, "data"@)->0 is Object {
            let data = segment_data(element);
            assert(field(element, "data"@) == Some(data));
            let content = field(data, "content"@)->0;
            assert(decreases_to!(element => data));
            assert(decreases_to!(data => content));
            assert(decreases_to!(content => content->Array_0));
        } else {
            assert(lookup(Seq::empty(), "content"@) is None);
        }
    }
}

/// The text of a data field that is a text or a number.
pub open spec fn data_text(data: JsonView, key: Seq<char>) -> Option<Seq<char>> {
    loose_text(field(data, key))
}

/// The integer of a data field that is a number or a text.
pub open spec fn data_int(data: JsonView, key: Seq<char>) -> Option<i64> {
    loose_int(field(data, key))
}

/// The segment that a JSON element describes; `None` for an unknown one.
pub open spec fn parsed_segment(element: JsonView) -> Option<SegmentView>
    decreases element, 2int,
{
    match text_of(field(element, "type"@)) {
        None => None,
        Some(kind) => {
            let data = segment_data(element);
            if kind == "text"@ {
                Some(
                    SegmentView::Text(
                        first_text(text_of(field(data, "text"@)), None, Seq::empty()),
                    ),
                )
            } else if kind == "at"@ {
                match loose_text(field(data, "qq"@)) {
                    Some(raw) => mention_of(raw),
                    None => None,
                }
            } else if kind == "reply"@ {
                match data_int(data, "id"@) {
                    Some(n) => Some(SegmentView::Reply(n)),
                    None => None,
                }
            } else if kind == "image"@ {
                Some(SegmentView::Image { url: data_text(data, "url"@), file: data_text(data, "file"@), data: None })
            } else if kind == "face"@ {
                Some(SegmentView::Face(first_text(data_text(data, "id"@), None, Seq::empty())))
            } else if kind == "record"@ || kind == "voice"@ {
                Some(SegmentView::Record { url: data_text(data, "url"@), file: data_text(data, "file"@) })
            } else if kind == "video"@ {
                Some(SegmentView::Video { url: data_text(data, "url"@), file: data_text(data, "file"@) })
            } else if kind == "file"@ {
                Some(
                    SegmentView::File {
                        file_id: first_text(data_text(data, "file_id"@), None, Seq::empty()),
                        name: first_text(data_text(data, "file_name"@), data_text(data, "name"@), Seq::empty()),
                        size: first_int(data_int(data, "file_size"@), data_int(data, "size"@)) as u64,
                    },
                )
            } else if kind == "poke"@ {
                Some(
                    SegmentView::Poke {
                        name: first_text(data_text(data, "type"@), None, "poke"@),
                        target: first_int(data_int(data, "target_id"@), data_int(data, "target"@)),
                    },
                )
            } else if kind == "location"@ {
                Some(
                    SegmentView::Location {
                        name: first_text(data_text(data, "name"@), None, Seq::empty()),
                        address: first_text(data_text(data, "address"@), None, Seq::empty()),
                        latitude: coordinate(data, "lat"@, "latitude"@),
                        longitude: coordinate(data, "lon"@, "longitude"@),
                    },
                )
            } else if kind == "json"@ {
                match card_of(field(data, "data"@)) {
                    Some(card) => Some(SegmentView::Json(card)),
                    None => None,
                }
            } else if kind == "xml"@ {
                match card_of(field(data, "data"@)) {
                    Some(card) => Some(SegmentView::Xml(card)),
                    None => None,
                }
            } else if kind == "forward"@ || kind == "node"@ {
                forward_segment(element)
            } else {
                None
            }
        },
    }
}

/// The segments that are nested in a forwarded message.
pub open spec fn nested_segments(element: JsonView) -> Seq<SegmentView>
    decreases element, 0int,
    via nested_segments_decreases
{
    if nested_items(element).len() > 0 {
        parsed_segments(nested_items(element))
    } else {
        Seq::empty()
    }
}

#[via_fn]
proof fn nested_segments_decreases(element: JsonView) {
    lemma_nested_items_are_smaller(element);
}

/// A forwarded message; `None` where nothing known is nested in it.
pub open spec fn forward_segment(element: JsonView) -> Option<SegmentView>
    decreases element, 1int,
{
    let data = segment_data(element);
    let content = nested_segments(element);
    if content.len() == 0 {
        None
    } else {
        Some(
            SegmentView::Forward {
                title: first_text(data_text(data, "title"@), data_text(data, "uni"@), "转发消息"@),
                messages: seq![
                    ForwardView {
                        name: first_text(data_text(data, "name"@), None, Seq::empty()),
                        uin: first_int(data_int(data, "uin"@), None),
                        content,
                    },
                ],
            },
        )
    }
}

/// The segments that some JSON elements describe; unknown ones are left out.
pub open spec fn parsed_segments(items: Seq<JsonView>) -> Seq<SegmentView>
    decreases items, 3int,
{
    if items.len() == 0 {
        Seq::empty()
    } else {
        let last = items[items.len() - 1];
        let head = parsed_segments(items.subrange(0, items.len() - 1));
        match parsed_segment(last) {
            Some(segment) => head.push(segment),
            None => head,
        }
    }
}


fn empty_object() -> (r: Json)
    ensures
        r@ == JsonView::Object(Seq::empty()),
{
    Members::new().object()
}

fn data_of(element: &Json) -> (r: Json)
    ensures
        r@ == segment_data(element@),
{
    match element.get("data") {
        Some(data) => if data.is_object() {
            data.clone()
        } else {
            empty_object()
        },
        None => empty_object(),
    }
}

fn parse_forward(element: &Json, data: &Json) -> (r: Option<MessageSegment>)
    requires
        data@ == segment_data(element@),
    ensures
        option_segment(r) == forward_segment(element@),
    decreases element@, 0int,
{
    let content: Vec<MessageSegment> = match data.get("content") {
        Some(Json::Array(items)) => {
            proof {
                lemma_array_view(*items);
                lemma_nested_items_are_smaller(element@);
                assert(nested_items(element@) == json_views(items@));
            }
            if items.len() > 0 {
                parse_segments(items)
            } else {
                Vec::new()
            }
        },
        _ => Vec::new(),
    };
    assert(segment_views(content@) == nested_segments(element@));
    if content.len() == 0 {
        return None;
    }
    let message = ForwardMessage {
        name: pick_text(get_loose_text(data, "name"), None, ""),
        uin: pick_int(get_i64(data, "uin"), None),
        content,
    };
    let title = pick_text(
        get_loose_text(data, "title"),
        get_loose_text(data, "uni"),
        "转发消息",
    );
    let mut messages: Vec<ForwardMessage> = Vec::new();
    proof {
        lemma_forward_message_view(message);
    }
    messages.push(message);
    proof {
        lemma_forward_segment_view(title, messages);
        reveal_strlit("");
        assert(""@ =~= Seq::<char>::empty());
        assert(forward_views(messages@) =~= seq![message@]);
    }
    Some(MessageSegment::Forward { title, messages })
}

/// Reads one JSON element as a segment; `None` for an unknown one.
pub fn parse_segment(element: &Json) -> (r: Option<MessageSegment>)
    ensures
        option_segment(r) == parsed_segment(element@),
    decreases element@, 2int,
{
    let kind = match element.get_text("type") {
        Some(kind) => kind,
        None => {
            return None;
        },
    };
    let kind = kind.as_str();
    let data = data_of(element);
    proof {
        reveal_strlit("");
        assert(""@ =~= Seq::<char>::empty());
    }
    if same(kind, "text") {
        Some(MessageSegment::Text(pick_text(data.get_text("text"), None, "")))
    } else if same(kind, "at") {
        match get_loose_text(&data, "qq") {
            Some(raw) => parse_mention(raw.as_str()),
            None => None,
        }
    } else if same(kind, "reply") {
        match get_i64(&data, "id") {
            Some(n) => Some(MessageSegment::Reply(n)),
            None => None,
        }
    } else if same(kind, "image") {
        Some(
            MessageSegment::Image {
                url: get_loose_text(&data, "url"),
                file: get_loose_text(&data, "file"),
                data: None,
            },
        )
    } else if same(kind, "face") {
        Some(MessageSegment::Face(pick_text(get_loose_text(&data, "id"), None, "")))
    } else if same(kind, "record") || same(kind, "voice") {
        Some(
            MessageSegment::Record {
                url: get_loose_text(&data, "url"),
                file: get_loose_text(&data, "file"),
            },
        )
    } else if same(kind, "video") {
        Some(
            MessageSegment::Video {
                url: get_loose_text(&data, "url"),
                file: get_loose_text(&data, "file"),
            },
        )
    } else if same(kind, "file") {
        Some(
            MessageSegment::File {
                file_id: pick_text(get_loose_text(&data, "file_id"), None, ""),
                name: pick_text(
                    get_loose_text(&data, "file_name"),
                    get_loose_text(&data, "name"),
                    "",
                ),
                size: pick_int(get_i64(&data, "file_size"), get_i64(&data, "size")) as u64,
            },
        )
    } else if same(kind, "poke") {
        Some(
            MessageSegment::Poke {
                name: pick_text(get_loose_text(&data, "type"), None, "poke"),
                target: pick_int(get_i64(&data, "target_id"), get_i64(&data, "target")),
            },
        )
    } else if same(kind, "location") {
        Some(
            MessageSegment::Location {
                name: pick_text(get_loose_text(&data, "name"), None, ""),
                address: pick_text(get_loose_text(&data, "address"), None, ""),
                latitude: f64_field(&data, "lat", "latitude"),
                longitude: f64_field(&data, "lon", "longitude"),
            },
        )
    } else if same(kind, "json") {
        match card_value(data.get("data")) {
            Some(card) => Some(MessageSegment::Json(card)),
            None => None,
        }
    } else if same(kind, "xml") {
        match card_value(data.get("data")) {
            Some(card) => Some(MessageSegment::Xml(card)),
            None => None,
        }
    } else if same(kind, "forward") || same(kind, "node") {
        parse_forward(element, &data)
    } else {
        None
    }
}

/// Reads JSON elements as segments and leaves the unknown ones out.
pub fn parse_segments(items: &Vec<Json>) -> (r: Vec<MessageSegment>)
    ensures
        segment_views(r@) == parsed_segments(json_views(items@)),
    decreases json_views(items@), 3int,
{
    let ghost views = json_views(items@);
    let mut out: Vec<MessageSegment> = Vec::new();
    let mut i: usize = 0;
    assert(segment_views(out@) =~= parsed_segments(views.subrange(0, 0)));
    while i < items.len()
        invariant
            i <= items@.len(),
            views == json_views(items@),
            segment_views(out@) == parsed_segments(views.subrange(0, i as int)),
        decreases items@.len() - i,
    {
        let ghost prefix = views.subrange(0, i + 1);
        let ghost before = out@;
        assert(prefix.subrange(0, prefix.len() - 1) =~= views.subrange(0, i as int));
        assert(decreases_to!(views => views[i as int]));
        match parse_segment(&items[i]) {
            Some(segment) => {
                out.push(segment);
                assert(segment_views(out@) =~= segment_views(before).push(segment@));
            },
            None => {},
        }
        i = i + 1;
    }
    assert(views.subrange(0, views.len() as int) =~= views);
    out
}


/// The segments of a message event: those of its array, else those of its text
/// with CQ codes.
pub open spec fn event_segments(event: EventView) -> Seq<SegmentView> {
    match event.message {
        Some(JsonView::Array(items)) => parsed_segments(items),
        _ => match event.raw_message {
            Some(raw) => cq_segments(raw),
            None => Seq::empty(),
        },
    }
}

/// The segments of a message event.
pub fn extract_segments(event: &OneBotEvent) -> (r: Vec<MessageSegment>)
    ensures
        segment_views(r@) == event_segments(event@),
{
    if let Some(Json::Array(items)) = &event.message {
        proof {
            lemma_array_view(*items);
        }
        return parse_segments(items);
    }
    match &event.raw_message {
        Some(raw) => decode_cq_message(raw.as_str()),
        None => {
            let none: Vec<MessageSegment> = Vec::new();
            assert(segment_views(none@) =~= Seq::<SegmentView>::empty());
            none
        },
    }
}

/// The text of a message event: what its segments show, one directly after another.
pub fn extract_text(event: &OneBotEvent) -> (r: String)
    ensures
        r@ == display_all(event_segments(event@)),
{
    display_segments(&extract_segments(event))
}

/// The text of a message event in which a command is looked for. What calls the
/// bot at the start is left out: a mention of it or of everybody, a quotation, a
/// picture.
pub fn command_text(event: &OneBotEvent, self_id: i64) -> (r: String)
    ensures
        r@ == command_line(event_segments(event@), self_id),
{
    command_text_of(&extract_segments(event), self_id)
}

/// A message event, read once for everybody who looks at it.
#[derive(Debug)]
pub struct ParsedMessage {
    pub segments: Vec<MessageSegment>,
    /// What the message shows.
    pub text: String,
    /// The text in which a command is looked for.
    pub command_text: String,
}

impl ParsedMessage {
    /// Reads a message event.
    pub fn parse(event: &OneBotEvent, self_id: i64) -> (r: ParsedMessage)
        ensures
            segment_views(r.segments@) == event_segments(event@),
            r.text@ == display_all(event_segments(event@)),
            r.command_text@ == command_line(event_segments(event@), self_id),
    {
        let segments = extract_segments(event);
        let text = display_segments(&segments);
        let command_text = command_text_of(&segments, self_id);
        ParsedMessage { segments, text, command_text }
    }
}

// ---------------------------------------------------------------------------
// payloads

/// A number, or a default.
pub open spec fn int_or(n: Option<i64>, default: i64) -> i64 {
    match n {
        Some(n) => n,
        None => default,
    }
}

/// A text, or the empty one.
pub open spec fn text_or_empty(t: Option<Seq<char>>) -> Seq<char> {
    match t {
        Some(t) => t,
        None => Seq::empty(),
    }
}

fn or_int(n: Option<i64>, default: i64) -> (r: i64)
    ensures
        r == int_or(n, default),
{
    match n {
        Some(n) => n,
        None => default,
    }
}

fn or_empty(t: Option<String>) -> (r: String)
    ensures
        r@ == text_or_empty(option_text(t)),
{
    match t {
        Some(t) => t,
        None => String::new(),
    }
}

/// The event that a JSON object describes, received at the time `now`.
pub open spec fn event_of(json: JsonView, now: i64) -> EventView {
    EventView {
        time: int_or(loose_int(field(json, "time"@)), now),
        self_id: int_or(loose_int(field(json, "self_id"@)), 0),
        post_type: text_or_empty(text_of(field(json, "post_type"@))),
        notice_type: text_of(field(json, "notice_type"@)),
        message_type: text_of(field(json, "message_type"@)),
        sub_type: text_of(field(json, "sub_type"@)),
        message_id: loose_int(field(json, "message_id"@)),
        user_id: loose_int(field(json, "user_id"@)),
        operator_id: loose_int(field(json, "operator_id"@)),
        group_id: loose_int(field(json, "group_id"@)),
        raw_message: text_of(field(json, "raw_message"@)),
        message: field(json, "message"@),
        sender: field(json, "sender"@),
        raw: json,
    }
}

fn parse_event(value: &Json, now: i64) -> (r: OneBotEvent)
    ensures
        r@ == event_of(value@, now),
{
    OneBotEvent {
        time: or_int(get_i64(value, "time"), now),
        self_id: or_int(get_i64(value, "self_id"), 0),
        post_type: or_empty(value.get_text("post_type")),
        notice_type: value.get_text("notice_type"),
        message_type: value.get_text("message_type"),
        sub_type: value.get_text("sub_type"),
        message_id: get_i64(value, "message_id"),
        user_id: get_i64(value, "user_id"),
        operator_id: get_i64(value, "operator_id"),
        group_id: get_i64(value, "group_id"),
        raw_message: value.get_text("raw_message"),
        message: value.get_copy("message"),
        sender: value.get_copy("sender"),
        raw: value.clone(),
    }
}

/// The action that a JSON object requests; without parameters it has none.
pub open spec fn action_of(json: JsonView) -> ActionView {
    ActionView {
        action: text_or_empty(text_of(field(json, "action"@))),
        params: match field(json, "params"@) {
            Some(p) => p,
            None => JsonView::Object(Seq::empty()),
        },
        echo: text_or_empty(text_of(field(json, "echo"@))),
    }
}

fn parse_action(value: &Json) -> (r: OneBotAction)
    ensures
        r@ == action_of(value@),
{
    OneBotAction {
        action: or_empty(value.get_text("action")),
        params: match value.get_copy("params") {
            Some(p) => p,
            None => empty_object(),
        },
        echo: or_empty(value.get_text("echo")),
    }
}

/// The response that a JSON object holds.
pub open spec fn response_of(json: JsonView) -> ResponseView {
    ResponseView {
        status: text_or_empty(text_of(field(json, "status"@))),
        retcode: int_or(loose_int(field(json, "retcode"@)), -1i64),
        data: field(json, "data"@),
        message: text_of(field(json, "message"@)),
        wording: text_of(field(json, "wording"@)),
        echo: text_of(field(json, "echo"@)),
        raw: json,
    }
}

fn parse_response(value: &Json) -> (r: OneBotActionResponse)
    ensures
        r@ == response_of(value@),
{
    OneBotActionResponse {
        status: or_empty(value.get_text("status")),
        retcode: or_int(get_i64(value, "retcode"), -1),
        data: value.get_copy("data"),
        message: value.get_text("message"),
        wording: value.get_text("wording"),
        echo: value.get_text("echo"),
        raw: value.clone(),
    }
}

/// What a JSON document is: an event where it has a `post_type`, an action where
/// it has both `action` and `echo`, a response where it has only `echo`.
pub open spec fn payload_of(json: JsonView, now: i64) -> Option<PayloadView> {
    if field(json, "post_type"@) is Some {
        Some(PayloadView::Event(event_of(json, now)))
    } else if field(json, "action"@) is Some && field(json, "echo"@) is Some {
        Some(PayloadView::Action(action_of(json)))
    } else if field(json, "echo"@) is Some {
        Some(PayloadView::Response(response_of(json)))
    } else {
        None
    }
}

/// Tells what a JSON document is.
pub fn read_payload(value: &Json, now: i64) -> (r: Option<ParsedPayload>)
    ensures
        payload_view(r) == payload_of(value@, now),
{
    if value.has("post_type") {
        return Some(ParsedPayload::Event(parse_event(value, now)));
    }
    if value.has("action") && value.has("echo") {
        return Some(ParsedPayload::Action(parse_action(value)));
    }
    if value.has("echo") {
        return Some(ParsedPayload::Response(parse_response(value)));
    }
    None
}

/// What a received payload is; `None` where it is no JSON document, or none of these.
pub open spec fn payload_in(text: Seq<char>, now: i64) -> Option<PayloadView> {
    match parsed_json(text) {
        Some(json) => payload_of(json, now),
        None => None,
    }
}

/// Reads a received payload. An event without a time is taken to happen at `now`,
/// in seconds since 1970.
pub fn parse_payload(payload: &str, now: i64) -> (r: Option<ParsedPayload>)
    ensures
        payload_view(r) == payload_in(payload@, now),
{
    match parse_json(payload) {
        Some(value) => read_payload(&value, now),
        None => None,
    }
}

/// An action that is written out and read back is the same action.
pub proof fn law_action_reads_back(action: ActionView, now: i64)
    ensures
        payload_of(action_json(action), now) == Some(PayloadView::Action(action)),
{
    let json = action_json(action);
    let members = json->Object_0;
    reveal_with_fuel(lookup, 4);
    reveal_strlit("action");
    reveal_strlit("params");
    reveal_strlit("echo");
    reveal_strlit("post_type");
    assert("action"@[0] == 'a' && "params"@[0] == 'p' && "echo"@[0] == 'e');
    assert("post_type"@[1] == 'o' && "params"@[1] == 'a');
    let rest1 = members.subrange(1, members.len() as int);
    let rest2 = rest1.subrange(1, rest1.len() as int);
    assert(rest1[0] == members[1]);
    assert(rest2[0] == members[2]);
    assert(rest2.subrange(1, rest2.len() as int).len() == 0);
}

proof fn lemma_typed_parts(kind: Seq<char>, data: Seq<(Seq<char>, JsonView)>)
    ensures
        text_of(field(typed_json(kind, data), "type"@)) == Some(kind),
        segment_data(typed_json(kind, data)) == JsonView::Object(data),
{
    reveal_with_fuel(lookup, 3);
    reveal_strlit("type");
    reveal_strlit("data");
    let members = typed_json(kind, data)->Object_0;
    let rest = members.subrange(1, members.len() as int);
    assert(members[0].0[0] == 't');
    assert(rest[0] == members[1]);
    assert("data"@[0] == 'd');
}

proof fn lemma_first_member(key: Seq<char>, value: JsonView)
    ensures
        field(JsonView::Object(no_members().push((key, value))), key) == Some(value),
{
    let members = no_members().push((key, value));
    assert(members[0] == (key, value));
}

pub proof fn lemma_kinds_differ()
    ensures
        "at"@ != "text"@,
        "reply"@ != "text"@ && "reply"@ != "at"@,
        "face"@ != "text"@ && "face"@ != "at"@ && "face"@ != "reply"@ && "face"@ != "image"@,
        "image"@ != "text"@ && "image"@ != "at"@ && "image"@ != "reply"@,
        "record"@.len() == 6 && "video"@.len() == 5 && "voice"@.len() == 5,
        "video"@ != "reply"@ && "video"@ != "image"@ && "video"@ != "voice"@,
        "file"@ != "text"@ && "file"@ != "face"@,
        "poke"@ != "text"@ && "poke"@ != "face"@ && "poke"@ != "file"@,
        "json"@ != "text"@ && "json"@ != "face"@ && "json"@ != "file"@ && "json"@ != "poke"@,
        "text"@.len() == 4 && "at"@.len() == 2 && "reply"@.len() == 5 && "image"@.len() == 5,
        "face"@.len() == 4 && "file"@.len() == 4 && "poke"@.len() == 4 && "json"@.len() == 4,
        "xml"@.len() == 3 && "location"@.len() == 8,
{
    reveal_strlit("text");
    reveal_strlit("at");
    reveal_strlit("reply");
    reveal_strlit("image");
    reveal_strlit("face");
    reveal_strlit("record");
    reveal_strlit("voice");
    reveal_strlit("video");
    reveal_strlit("file");
    reveal_strlit("poke");
    reveal_strlit("location");
    reveal_strlit("json");
    reveal_strlit("xml");
    assert("text"@[0] == 't' && "face"@[0] == 'f' && "file"@[0] == 'f' && "poke"@[0] == 'p');
    assert("json"@[0] == 'j' && "face"@[1] == 'a' && "file"@[1] == 'i');
    assert("reply"@[0] == 'r' && "image"@[0] == 'i' && "video"@[0] == 'v');
    assert("video"@[1] == 'i' && "voice"@[1] == 'o');
}

/// Whether a segment comes back as it was: a face has the decimal form of its number or
/// no number at all, the size of a file is one that its reader takes for a size, the
/// coordinates of a place are numbers as they are read, and a card is an object or an
/// array.
pub open spec fn reads_back(segment: SegmentView) -> bool {
    match segment {
        SegmentView::Text(_) => true,
        SegmentView::At(_) => true,
        SegmentView::AtAll => true,
        SegmentView::Reply(_) => true,
        SegmentView::Face(id) => match i64_value(id) {
            Some(n) => id == decimal(n as int),
            None => true,
        },
        SegmentView::File { size, .. } => size <= i64::MAX,
        SegmentView::Poke { .. } => true,
        SegmentView::Location { latitude, longitude, .. } => loose_float(Some(latitude)) == Some(
            latitude,
        ) && loose_float(Some(longitude)) == Some(longitude),
        SegmentView::Json(card) => card is Object || card is Array,
        SegmentView::Xml(card) => card is Object || card is Array,
        _ => false,
    }
}

/// A text, a mention, a quotation, a face, a file, a poke, a place and a card that are
/// written out and read back are the same.
pub proof fn law_segments_read_back(segment: SegmentView, media: MediaFiles)
    requires
        reads_back(segment),
    ensures
        parsed_segment(segment_json(segment, media)) == Some(segment),
{
    lemma_kinds_differ();
    match segment {
        SegmentView::Text(text) => {
            lemma_typed_parts("text"@, no_members().push(("text"@, JsonView::Text(text))));
            lemma_first_member("text"@, JsonView::Text(text));
        },
        SegmentView::At(user_id) => {
            let qq = number(user_id as int);
            lemma_typed_parts("at"@, no_members().push(("qq"@, qq)));
            lemma_first_member("qq"@, qq);
            law_decimal_reads_back(user_id);
            reveal_strlit("all");
            assert(!is_digit("all"@[0]));
        },
        SegmentView::AtAll => {
            let qq = JsonView::Text("all"@);
            lemma_typed_parts("at"@, no_members().push(("qq"@, qq)));
            lemma_first_member("qq"@, qq);
        },
        SegmentView::Reply(message_id) => {
            let id = number(message_id as int);
            lemma_typed_parts("reply"@, no_members().push(("id"@, id)));
            lemma_first_member("id"@, id);
            law_decimal_reads_back(message_id);
        },
        SegmentView::Face(text) => {
            let id = match i64_value(text) {
                Some(n) => number(n as int),
                None => JsonView::Text(text),
            };
            lemma_typed_parts("face"@, no_members().push(("id"@, id)));
            lemma_first_member("id"@, id);
        },
        SegmentView::File { file_id, name, size } => {
            let data = no_members().push(("file_id"@, JsonView::Text(file_id))).push(
                ("file_name"@, JsonView::Text(name)),
            ).push(("file_size"@, number(size as int)));
            lemma_typed_parts("file"@, data);
            reveal_with_fuel(lookup, 4);
            reveal_strlit("file_id");
            reveal_strlit("file_name");
            reveal_strlit("file_size");
            assert("file_id"@.len() == 7 && "file_name"@[5] == 'n' && "file_size"@[5] == 's');
            let rest = data.subrange(1, 3);
            assert(rest[0] == data[1]);
            assert(rest.subrange(1, 2)[0] == data[2]);
            law_decimal_reads_back(size as i64);
        },
        SegmentView::Poke { name, target } => {
            let data = no_members().push(("type"@, JsonView::Text(name))).push(
                ("target_id"@, number(target as int)),
            );
            lemma_typed_parts("poke"@, data);
            reveal_with_fuel(lookup, 3);
            reveal_strlit("type");
            reveal_strlit("target_id");
            let rest = data.subrange(1, 2);
            assert(data[0].0 == "type"@);
            assert(rest[0] == data[1]);
            assert(field(JsonView::Object(data), "target_id"@) == Some(number(target as int)));
            law_decimal_reads_back(target);
        },
        SegmentView::Location { name, address, latitude, longitude } => {
            let data = no_members().push(("name"@, JsonView::Text(name))).push(
                ("address"@, JsonView::Text(address)),
            ).push(("lat"@, latitude)).push(("lon"@, longitude));
            lemma_typed_parts("location"@, data);
            reveal_with_fuel(lookup, 5);
            reveal_strlit("name");
            reveal_strlit("address");
            reveal_strlit("lat");
            reveal_strlit("lon");
            assert("name"@[0] == 'n' && "address"@[0] == 'a' && "lat"@[0] == 'l');
            assert("lat"@[1] == 'a' && "lon"@[1] == 'o' && "lon"@[0] == 'l');
            let rest1 = data.subrange(1, 4);
            let rest2 = rest1.subrange(1, 3);
            let rest3 = rest2.subrange(1, 2);
            assert(data[0].0 == "name"@);
            assert(rest1[0] == data[1]);
            assert(rest2[0] == data[2]);
            assert(rest3[0] == data[3]);
            assert(field(JsonView::Object(data), "name"@) == Some(JsonView::Text(name)));
            assert(field(JsonView::Object(data), "address"@) == Some(JsonView::Text(address)));
            assert(field(JsonView::Object(data), "lat"@) == Some(latitude));
            assert(field(JsonView::Object(data), "lon"@) == Some(longitude));
        },
        SegmentView::Json(card) => {
            lemma_typed_parts("json"@, no_members().push(("data"@, card)));
            lemma_first_member("data"@, card);
        },
        SegmentView::Xml(card) => {
            lemma_typed_parts("xml"@, no_members().push(("data"@, card)));
            lemma_first_member("data"@, card);
            assert(card_of(Some(card)) == Some(card));
        },
        _ => {},
    }
}

/// A picture, a recording and a video that are written out and read back name as their
/// file what was written out for them.
pub proof fn law_media_read_back(
    url: Option<Seq<char>>,
    file: Option<Seq<char>>,
    data: Option<Seq<u8>>,
    media: MediaFiles,
)
    ensures
        parsed_segment(segment_json(SegmentView::Image { url, file, data }, media)) == Some(
            SegmentView::Image { url: None, file: Some(media_text(url, file, data, media)), data: None },
        ),
        parsed_segment(segment_json(SegmentView::Record { url, file }, media)) == Some(
            SegmentView::Record { url: None, file: Some(media_text(url, file, None, media)) },
        ),
        parsed_segment(segment_json(SegmentView::Video { url, file }, media)) == Some(
            SegmentView::Video { url: None, file: Some(media_text(url, file, None, media)) },
        ),
{
    lemma_kinds_differ();
    reveal_strlit("file");
    reveal_strlit("url");
    reveal_with_fuel(lookup, 3);
    let text = JsonView::Text(media_text(url, file, data, media));
    let plain = JsonView::Text(media_text(url, file, None, media));
    lemma_typed_parts("image"@, no_members().push(("file"@, text)));
    lemma_typed_parts("record"@, no_members().push(("file"@, plain)));
    lemma_typed_parts("video"@, no_members().push(("file"@, plain)));
    assert(no_members().push(("file"@, text)).subrange(1, 1).len() == 0);
    assert(no_members().push(("file"@, plain)).subrange(1, 1).len() == 0);
}

/// A message whose segments all come back as they were comes back as it was.
pub proof fn law_messages_read_back(segments: Seq<SegmentView>, media: MediaFiles)
    requires
        forall|i: int| 0 <= i < segments.len() ==> reads_back(#[trigger] segments[i]),
    ensures
        parsed_segments(segments_json(segments, media)->Array_0) == segments,
    decreases segments.len(),
{
    let items = segments_json(segments, media)->Array_0;
    if segments.len() > 0 {
        let head = segments.drop_last();
        assert forall|i: int| 0 <= i < head.len() implies reads_back(#[trigger] head[i]) by {
            assert(head[i] == segments[i]);
        }
        law_messages_read_back(head, media);
        assert(items.subrange(0, items.len() - 1) =~= segments_json(head, media)->Array_0);
        assert(items[items.len() - 1] == segment_json(segments.last(), media));
        assert(reads_back(segments[segments.len() - 1]));
        law_segments_read_back(segments.last(), media);
        assert(head.push(segments.last()) =~= segments);
    }
}

/// Whether an element is a segment of a kind with some data.
pub open spec fn is_element(element: JsonView, kind: Seq<char>, data: JsonView) -> bool {
    field(element, "type"@) == Some(JsonView::Text(kind)) && field(element, "data"@) == Some(data)
        && data is Object
}

/// Whether a field writes an integer: as a number, or as a text.
pub open spec fn writes_int(data: JsonView, key: Seq<char>, n: i64) -> bool {
    field(data, key) == Some(JsonView::Number(decimal(n as int))) || field(data, key) == Some(
        JsonView::Text(decimal(n as int)),
    )
}

/// Whether a field writes a text: as such, or as the number with these characters.
pub open spec fn writes_text(data: JsonView, key: Seq<char>, text: Seq<char>) -> bool {
    field(data, key) == Some(JsonView::Text(text)) || field(data, key) == Some(
        JsonView::Number(text),
    )
}

pub proof fn lemma_all_is_no_number(n: i64)
    ensures
        decimal(n as int) != "all"@,
{
    crate::text::lemma_decimal_characters(n as int);
    reveal_strlit("all");
    assert("all"@.len() == 3 && "all"@[2] == 'l');
}

/// Reading does not depend on whether a number is written as a number or as a text: a
/// mention of a user, a quotation, a face, a poke and a file with its size are what they
/// are either way, and a mention of everybody is one by the word for it.
pub proof fn law_numbers_may_be_texts(element: JsonView, data: JsonView, n: i64)
    ensures
        is_element(element, "at"@, data) && writes_int(data, "qq"@, n) ==> parsed_segment(element)
            == Some(SegmentView::At(n)),
        is_element(element, "at"@, data) && field(data, "qq"@) == Some(JsonView::Text("all"@))
            ==> parsed_segment(element) == Some(SegmentView::AtAll),
        is_element(element, "at"@, data) && field(data, "qq"@) is None ==> parsed_segment(element)
            is None,
        is_element(element, "reply"@, data) && writes_int(data, "id"@, n) ==> parsed_segment(
            element,
        ) == Some(SegmentView::Reply(n)),
        is_element(element, "reply"@, data) && field(data, "id"@) is None ==> parsed_segment(
            element,
        ) is None,
        is_element(element, "face"@, data) && writes_int(data, "id"@, n) ==> parsed_segment(element)
            == Some(SegmentView::Face(decimal(n as int))),
        is_element(element, "poke"@, data) && writes_int(data, "target_id"@, n) ==> (parsed_segment(
            element,
        ) matches Some(SegmentView::Poke { target, .. }) && target == n),
        is_element(element, "poke"@, data) && field(data, "target_id"@) is None && writes_int(
            data,
            "target"@,
            n,
        ) ==> (parsed_segment(element) matches Some(SegmentView::Poke { target, .. }) && target
            == n),
        is_element(element, "file"@, data) && writes_int(data, "file_size"@, n) && n >= 0 ==> (
        parsed_segment(element) matches Some(SegmentView::File { size, .. }) && size == n),
        is_element(element, "file"@, data) && field(data, "file_size"@) is None && writes_int(
            data,
            "size"@,
            n,
        ) && n >= 0 ==> (parsed_segment(element) matches Some(SegmentView::File { size, .. })
            && size == n),
{
    lemma_kinds_differ();
    law_decimal_reads_back(n);
    lemma_all_is_no_number(n);
}

/// What a segment says is read from its fields: the text, the addresses of a picture, a
/// recording, a video, the name and number of a file, of a poke and of a place.
pub proof fn law_texts_are_read(element: JsonView, data: JsonView, text: Seq<char>)
    ensures
        is_element(element, "text"@, data) && field(data, "text"@) == Some(JsonView::Text(text))
            ==> parsed_segment(element) == Some(SegmentView::Text(text)),
        is_element(element, "image"@, data) && writes_text(data, "url"@, text) ==> (parsed_segment(
            element,
        ) matches Some(SegmentView::Image { url, data: None, .. }) && url == Some(text)),
        is_element(element, "image"@, data) && writes_text(data, "file"@, text) ==> (parsed_segment(
            element,
        ) matches Some(SegmentView::Image { file, data: None, .. }) && file == Some(text)),
        (is_element(element, "record"@, data) || is_element(element, "voice"@, data))
            && writes_text(data, "url"@, text) ==> (parsed_segment(element) matches Some(
            SegmentView::Record { url, .. },
        ) && url == Some(text)),
        (is_element(element, "record"@, data) || is_element(element, "voice"@, data))
            && writes_text(data, "file"@, text) ==> (parsed_segment(element) matches Some(
            SegmentView::Record { file, .. },
        ) && file == Some(text)),
        is_element(element, "video"@, data) && writes_text(data, "url"@, text) ==> (parsed_segment(
            element,
        ) matches Some(SegmentView::Video { url, .. }) && url == Some(text)),
        is_element(element, "video"@, data) && writes_text(data, "file"@, text) ==> (parsed_segment(
            element,
        ) matches Some(SegmentView::Video { file, .. }) && file == Some(text)),
        is_element(element, "face"@, data) && writes_text(data, "id"@, text) ==> parsed_segment(
            element,
        ) == Some(SegmentView::Face(text)),
        is_element(element, "file"@, data) && writes_text(data, "file_id"@, text) ==> (
        parsed_segment(element) matches Some(SegmentView::File { file_id, .. }) && file_id == text),
        is_element(element, "file"@, data) && writes_text(data, "file_name"@, text) ==> (
        parsed_segment(element) matches Some(SegmentView::File { name, .. }) && name == text),
        is_element(element, "file"@, data) && field(data, "file_name"@) is None && writes_text(
            data,
            "name"@,
            text,
        ) ==> (parsed_segment(element) matches Some(SegmentView::File { name, .. }) && name
            == text),
        is_element(element, "poke"@, data) && writes_text(data, "type"@, text) ==> (parsed_segment(
            element,
        ) matches Some(SegmentView::Poke { name, .. }) && name == text),
        is_element(element, "location"@, data) && writes_text(data, "name"@, text) ==> (
        parsed_segment(element) matches Some(SegmentView::Location { name, .. }) && name == text),
        is_element(element, "location"@, data) && writes_text(data, "address"@, text) ==> (
        parsed_segment(element) matches Some(SegmentView::Location { address, .. }) && address
            == text),
        is_element(element, "location"@, data) && field(data, "lat"@) == Some(JsonView::Text(text))
            && float_json(text) is Some ==> (parsed_segment(element) matches Some(
            SegmentView::Location { latitude, .. },
        ) && latitude == float_json(text)->0),
        is_element(element, "location"@, data) && field(data, "lon"@) == Some(JsonView::Text(text))
            && float_json(text) is Some ==> (parsed_segment(element) matches Some(
            SegmentView::Location { longitude, .. },
        ) && longitude == float_json(text)->0),
        is_element(element, "json"@, data) && field(data, "data"@) == Some(JsonView::Text(text)) ==> (
        parsed_segment(element) matches Some(SegmentView::Json(card)) && card == match parsed_json(
            text,
        ) {
            Some(inner) => inner,
            None => JsonView::Text(text),
        }),
        is_element(element, "xml"@, data) && field(data, "data"@) == Some(JsonView::Text(text)) ==> (
        parsed_segment(element) matches Some(SegmentView::Xml(card)) && card == match parsed_json(
            text,
        ) {
            Some(inner) => inner,
            None => JsonView::Text(text),
        }),
{
    lemma_kinds_differ();
    reveal_strlit("record");
    reveal_strlit("voice");
    reveal_strlit("video");
    reveal_strlit("image");
    reveal_strlit("reply");
    reveal_strlit("xml");
    reveal_strlit("location");
    assert("voice"@[0] == 'v' && "image"@[0] == 'i' && "reply"@[0] == 'r');
}

/// A message is read segment by segment, in order: one after another gives what each
/// gives, and an element of an unknown kind, or of none, gives nothing.
pub proof fn law_messages_are_read_in_order(
    before: Seq<JsonView>,
    element: JsonView,
    after: Seq<JsonView>,
)
    ensures
        parsed_segments(before.push(element) + after) == match parsed_segment(element) {
            Some(segment) => parsed_segments(before).push(segment) + parsed_segments(after),
            None => parsed_segments(before) + parsed_segments(after),
        },
        field(element, "type"@) is None ==> parsed_segment(element) is None,
    decreases after.len(),
{
    if after.len() == 0 {
        let items = before.push(element);
        assert(items + after =~= items);
        assert(items.subrange(0, items.len() - 1) =~= before);
        assert(parsed_segments(after) =~= Seq::<SegmentView>::empty());
        assert(parsed_segments(before) + parsed_segments(after) =~= parsed_segments(before));
    } else {
        let rest = after.subrange(0, after.len() - 1);
        law_messages_are_read_in_order(before, element, rest);
        let items = before.push(element) + after;
        assert(items.subrange(0, items.len() - 1) =~= before.push(element) + rest);
        assert(items[items.len() - 1] == after[after.len() - 1]);
    }
}

/// A forwarded message holds what its content gives, under its title and the name and
/// number of who wrote it; without content there is none.
pub proof fn law_forwarded_messages_are_read(
    element: JsonView,
    data: JsonView,
    items: Seq<JsonView>,
    text: Seq<char>,
    n: i64,
)
    requires
        is_element(element, "forward"@, data) || is_element(element, "node"@, data),
        field(data, "content"@) == Some(JsonView::Array(items)),
    ensures
        match parsed_segment(element) {
            Some(SegmentView::Forward { title, messages }) => {
                &&& messages.len() == 1
                &&& messages[0].content == parsed_segments(items)
                &&& parsed_segments(items).len() > 0
                &&& writes_text(data, "title"@, text) ==> title == text
                &&& field(data, "title"@) is None && writes_text(data, "uni"@, text) ==> title
                    == text
                &&& writes_text(data, "name"@, text) ==> messages[0].name == text
                &&& writes_int(data, "uin"@, n) ==> messages[0].uin == n
            },
            Some(_) => false,
            None => parsed_segments(items).len() == 0,
        },
{
    lemma_kinds_differ();
    law_decimal_reads_back(n);
    reveal_strlit("forward");
    reveal_strlit("node");
    reveal_strlit("text");
    reveal_strlit("face");
    reveal_strlit("file");
    reveal_strlit("poke");
    reveal_strlit("json");
    assert("forward"@.len() == 7 && "node"@.len() == 4 && "node"@[0] == 'n');
    assert("text"@[0] == 't' && "face"@[0] == 'f' && "file"@[0] == 'f' && "poke"@[0] == 'p'
        && "json"@[0] == 'j');
    assert(parsed_segment(element) == forward_segment(element));
    assert(nested_items(element) == items);
    if items.len() == 0 {
        assert(parsed_segments(items).len() == 0);
    }
}

/// An event says what its fields say, whether its numbers are written as numbers or as
/// texts: when it happened, to which bot, who did what to whom, where, and in which
/// message. An event without a time happens now.
pub proof fn law_events_are_read(json: JsonView, now: i64, n: i64, text: Seq<char>)
    requires
        field(json, "post_type"@) is Some,
    ensures
        payload_of(json, now) matches Some(PayloadView::Event(event)) && {
            &&& event.raw == json
            &&& writes_int(json, "time"@, n) ==> event.time == n
            &&& field(json, "time"@) is None ==> event.time == now
            &&& writes_int(json, "self_id"@, n) ==> event.self_id == n
            &&& field(json, "self_id"@) is None ==> event.self_id == 0
            &&& writes_int(json, "message_id"@, n) ==> event.message_id == Some(n)
            &&& writes_int(json, "user_id"@, n) ==> event.user_id == Some(n)
            &&& writes_int(json, "operator_id"@, n) ==> event.operator_id == Some(n)
            &&& writes_int(json, "group_id"@, n) ==> event.group_id == Some(n)
            &&& field(json, "message_id"@) is None ==> event.message_id is None
            &&& field(json, "user_id"@) is None ==> event.user_id is None
            &&& field(json, "group_id"@) is None ==> event.group_id is None
            &&& field(json, "post_type"@) == Some(JsonView::Text(text)) ==> event.post_type == text
            &&& field(json, "notice_type"@) == Some(JsonView::Text(text)) ==> event.notice_type
                == Some(text)
            &&& field(json, "message_type"@) == Some(JsonView::Text(text)) ==> event.message_type
                == Some(text)
            &&& field(json, "sub_type"@) == Some(JsonView::Text(text)) ==> event.sub_type == Some(
                text,
            )
            &&& field(json, "raw_message"@) == Some(JsonView::Text(text)) ==> event.raw_message
                == Some(text)
            &&& event.message == field(json, "message"@)
            &&& event.sender == field(json, "sender"@)
        },
{
    law_decimal_reads_back(n);
}

/// A response says what its fields say, and belongs to the action whose tag it repeats.
pub proof fn law_responses_are_read(json: JsonView, now: i64, n: i64, text: Seq<char>)
    requires
        field(json, "post_type"@) is None,
        field(json, "action"@) is None,
        field(json, "echo"@) == Some(JsonView::Text(text)),
    ensures
        payload_of(json, now) matches Some(PayloadView::Response(response)) && {
            &&& response.echo == Some(text)
            &&& response.raw == json
            &&& response.data == field(json, "data"@)
            &&& writes_int(json, "retcode"@, n) ==> response.retcode == n
            &&& field(json, "status"@) == Some(JsonView::Text(text)) ==> response.status == text
            &&& field(json, "message"@) == Some(JsonView::Text(text)) ==> response.message == Some(
                text,
            )
            &&& field(json, "wording"@) == Some(JsonView::Text(text)) ==> response.wording == Some(
                text,
            )
            &&& field(json, "retcode"@) is None ==> response.retcode != 0
        },
{
    law_decimal_reads_back(n);
}

/// An action is what its object says: its name, its parameters, none where there are none,
/// and its tag; and its object says so.
pub proof fn law_actions_are_read(json: JsonView, now: i64, name: Seq<char>, echo: Seq<char>)
    requires
        field(json, "post_type"@) is None,
        field(json, "action"@) == Some(JsonView::Text(name)),
        field(json, "echo"@) == Some(JsonView::Text(echo)),
    ensures
        payload_of(json, now) matches Some(PayloadView::Action(action)) && {
            &&& action.action == name
            &&& action.echo == echo
            &&& field(json, "params"@) matches Some(params) ==> action.params == params
            &&& field(json, "params"@) is None ==> (action.params matches JsonView::Object(none)
                && none.len() == 0)
        },
{
}

/// The object of an action has its name, its parameters and its tag under their keys.
pub proof fn law_actions_are_written(action: ActionView)
    ensures
        field(action_json(action), "action"@) == Some(JsonView::Text(action.action)),
        field(action_json(action), "params"@) == Some(action.params),
        field(action_json(action), "echo"@) == Some(JsonView::Text(action.echo)),
        field(action_json(action), "post_type"@) is None,
{
    let members = action_json(action)->Object_0;
    reveal_with_fuel(lookup, 4);
    reveal_strlit("action");
    reveal_strlit("params");
    reveal_strlit("echo");
    reveal_strlit("post_type");
    assert("action"@[0] == 'a' && "params"@[0] == 'p' && "echo"@[0] == 'e');
    assert("post_type"@[1] == 'o' && "params"@[1] == 'a');
    let rest1 = members.subrange(1, members.len() as int);
    let rest2 = rest1.subrange(1, rest1.len() as int);
    assert(rest1[0] == members[1]);
    assert(rest2[0] == members[2]);
    assert(rest2.subrange(1, rest2.len() as int).len() == 0);
}

/// A document with a `post_type` is an event whatever else it has; one without is an
/// action where it has both a name and a tag, and a response where it has a tag alone.
pub proof fn law_payloads_are_told_apart(json: JsonView, now: i64)
    ensures
        field(json, "post_type"@) is Some ==> (payload_of(json, now) matches Some(
            PayloadView::Event(_),
        )),
        field(json, "post_type"@) is None && field(json, "echo"@) is Some ==> (if field(
            json,
            "action"@,
        ) is Some {
            payload_of(json, now) matches Some(PayloadView::Action(_))
        } else {
            payload_of(json, now) matches Some(PayloadView::Response(_))
        }),
        field(json, "post_type"@) is None && field(json, "echo"@) is None ==> payload_of(json, now)
            is None,
{
}

/// A forwarded message that is written out and read back is the same: who wrote it and
/// what it holds, as long as each of its segments comes back.
pub proof fn law_forwarded_messages_read_back(message: ForwardView, media: MediaFiles)
    requires
        message.content.len() > 0,
        forall|i: int|
            0 <= i < message.content.len() ==> reads_back(#[trigger] message.content[i]),
    ensures
        parsed_segment(forward_json(message, media)) matches Some(
            SegmentView::Forward { messages, .. },
        ) && messages.len() == 1 && messages[0].name == message.name && messages[0].uin
            == message.uin && messages[0].content == message.content,
{
    let data = no_members().push(("name"@, JsonView::Text(message.name))).push(
        ("uin"@, number(message.uin as int)),
    ).push(("content"@, segments_json(message.content, media)));
    let element = forward_json(message, media);
    let items = segments_json(message.content, media)->Array_0;
    lemma_typed_parts("node"@, data);
    reveal_with_fuel(lookup, 4);
    reveal_strlit("type");
    reveal_strlit("data");
    reveal_strlit("name");
    reveal_strlit("uin");
    reveal_strlit("content");
    assert("name"@.len() == 4 && "uin"@.len() == 3 && "content"@.len() == 7);
    assert("type"@[0] == 't' && "data"@[0] == 'd');
    let rest = data.subrange(1, 3);
    assert(rest[0] == data[1]);
    assert(rest.subrange(1, 2)[0] == data[2]);
    let outer = element->Object_0;
    let last = outer.subrange(1, 2);
    assert(last[0] == outer[1]);
    assert(field(JsonView::Object(data), "content"@) == Some(JsonView::Array(items)));
    assert(field(element, "data"@) == Some(JsonView::Object(data)));
    assert(field(element, "type"@) == Some(JsonView::Text("node"@)));
    law_forwarded_messages_are_read(
        element,
        JsonView::Object(data),
        items,
        message.name,
        message.uin,
    );
    law_messages_read_back(message.content, media);
}

/// A forwarded bundle within a message leaves a text in its place that names it.
pub proof fn law_bundles_leave_their_titles(
    title: Seq<char>,
    messages: Seq<ForwardView>,
    media: MediaFiles,
)
    ensures
        parsed_segment(segment_json(SegmentView::Forward { title, messages }, media)) == Some(
            SegmentView::Text("[合并转发:"@ + title + "]"@),
        ),
{
    law_segments_read_back(SegmentView::Text("[合并转发:"@ + title + "]"@), media);
}

/// What a segment does not say is taken for nothing: an empty text or name, zero for a
/// number, a poke that is called one, the second name of a coordinate, and a bundle with a
/// title of its own.
pub proof fn law_missing_fields_count_as_nothing(
    element: JsonView,
    data: JsonView,
    text: Seq<char>,
)
    ensures
        is_element(element, "text"@, data) && field(data, "text"@) is None ==> (parsed_segment(
            element,
        ) matches Some(SegmentView::Text(shown)) && shown.len() == 0),
        is_element(element, "image"@, data) && field(data, "url"@) is None ==> (parsed_segment(
            element,
        ) matches Some(SegmentView::Image { url: None, .. })),
        is_element(element, "file"@, data) && field(data, "file_size"@) is None && field(
            data,
            "size"@,
        ) is None ==> (parsed_segment(element) matches Some(SegmentView::File { size, .. }) && size
            == 0),
        is_element(element, "poke"@, data) && field(data, "type"@) is None ==> (parsed_segment(
            element,
        ) matches Some(SegmentView::Poke { name, .. }) && name == "poke"@),
        is_element(element, "poke"@, data) && field(data, "target_id"@) is None && field(
            data,
            "target"@,
        ) is None ==> (parsed_segment(element) matches Some(SegmentView::Poke { target, .. })
            && target == 0),
        is_element(element, "location"@, data) && field(data, "lat"@) is None && field(
            data,
            "latitude"@,
        ) == Some(JsonView::Text(text)) && float_json(text) is Some ==> (parsed_segment(
            element,
        ) matches Some(SegmentView::Location { latitude, .. }) && latitude == float_json(text)->0),
        is_element(element, "location"@, data) && field(data, "lon"@) is None && field(
            data,
            "longitude"@,
        ) == Some(JsonView::Text(text)) && float_json(text) is Some ==> (parsed_segment(
            element,
        ) matches Some(SegmentView::Location { longitude, .. }) && longitude == float_json(
            text,
        )->0),
        is_element(element, "location"@, data) && field(data, "lat"@) is None && field(
            data,
            "latitude"@,
        ) is None ==> (parsed_segment(element) matches Some(SegmentView::Location { latitude, .. })
            && latitude == JsonView::Number("0.0"@)),
        is_element(element, "json"@, data) && field(data, "data"@) is None ==> parsed_segment(
            element,
        ) is None,
        field(element, "type"@) == Some(JsonView::Text("text"@)) && field(element, "data"@) is None
            ==> (parsed_segment(element) matches Some(SegmentView::Text(shown)) && shown.len()
            == 0),
{
    lemma_kinds_differ();
    reveal_strlit("xml");
    assert(lookup(Seq::empty(), "text"@) is None);
}

/// The events of messages are read from their array where they have one, and from their
/// text with codes else.
pub proof fn law_arrays_come_before_texts(event: EventView, items: Seq<JsonView>, raw: Seq<char>)
    ensures
        event.message == Some(JsonView::Array(items)) ==> event_segments(event) == parsed_segments(
            items,
        ),
        event.message is None && event.raw_message == Some(raw) ==> event_segments(event)
            == cq_segments(raw),
        event.message == Some(JsonView::Text(raw)) && event.raw_message == Some(raw)
            ==> event_segments(event) == cq_segments(raw),
        event.message is None && event.raw_message is None ==> event_segments(event).len() == 0,
{
}

} // verus!
