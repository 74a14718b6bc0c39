//! The actions that are asked of an implementation, and what comes back.
use crate::json::{
    field, int_of, json_views, lemma_array_view, no_members, number, present_number, present_text,
    push_present, Json, JsonView, Members,
};
use crate::onebot::media::MediaFiles;
use crate::onebot::model::{OneBotActionResponse, ResponseView};
use crate::onebot::protocol::{message_to_json, segments_json, typed_json};
use crate::runtime::message::{
    segment_views, MessageSegment, MessageTarget, OutgoingMessage, SegmentView,
};
use crate::text::{
    decimal, i64_text, is_blank, is_blank_spec, lower, owned, same, to_lower,
};
use vstd::prelude::*;
use vstd::string::StringExecFns;

verus! {

// ---------------------------------------------------------------------------
// failures

/// Why an action failed.
#[derive(Debug, PartialEq)]
pub enum OneBotError {
    /// There is no connection.
    NoConnection,
    /// No response came in time, or the connection was lost.
    Timeout,
    /// The implementation refused.
    Failed { status: String, retcode: i64, message: String },
    /// The data are not of the expected form.
    BadResponse(String),
}

/// Why an action failed.
pub enum ErrorView {
    NoConnection,
    Timeout,
    Failed { status: Seq<char>, retcode: i64, message: Seq<char> },
    BadResponse(Seq<char>),
}

impl View for OneBotError {
    type V = ErrorView;

    open spec fn view(&self) -> ErrorView {
        match self {
            OneBotError::NoConnection => ErrorView::NoConnection,
            OneBotError::Timeout => ErrorView::Timeout,
            OneBotError::Failed { status, retcode, message } => ErrorView::Failed {
                status: status@,
                retcode: *retcode,
                message: message@,
            },
            OneBotError::BadResponse(detail) => ErrorView::BadResponse(detail@),
        }
    }
}

/// A failure in words.
pub open spec fn error_text(error: ErrorView) -> Seq<char> {
    match error {
        ErrorView::NoConnection => "没有可用的 OneBot 连接"@,
        ErrorView::Timeout => "OneBot 动作超时或连接已失效"@,
        ErrorView::Failed { status, retcode, message } => "OneBot 返回失败(status="@ + status
            + ", retcode="@ + decimal(retcode as int) + "): "@ + message,
        ErrorView::BadResponse(detail) => "OneBot 响应格式异常: "@ + detail,
    }
}

impl OneBotError {
    /// The failure in words.
    pub fn text(&self) -> (r: String)
        ensures
            r@ == error_text(self@),
    {
        match self {
            OneBotError::NoConnection => owned("没有可用的 OneBot 连接"),
            OneBotError::Timeout => owned("OneBot 动作超时或连接已失效"),
            OneBotError::Failed { status, retcode, message } => {
                let mut out = owned("OneBot 返回失败(status=");
                out.append(status.as_str());
                out.append(", retcode=");
                out.append(i64_text(*retcode).as_str());
                out.append("): ");
                out.append(message.as_str());
                out
            },
            OneBotError::BadResponse(detail) => {
                let mut out = owned("OneBot 响应格式异常: ");
                out.append(detail.as_str());
                out
            },
        }
    }
}

/// What a response says: a success and an acceptance are good, anything else is a
/// refusal.
pub open spec fn judged(response: ResponseView) -> Result<ResponseView, ErrorView> {
    if crate::onebot::model::is_success(response) || crate::onebot::model::is_async_accepted(
        response,
    ) {
        Ok(response)
    } else {
        Err(
            ErrorView::Failed {
                status: response.status,
                retcode: response.retcode,
                message: match response.message {
                    Some(message) => message,
                    None => match response.wording {
                        Some(wording) => wording,
                        None => Seq::empty(),
                    },
                },
            },
        )
    }
}

/// The outcome of an action: without a connection nothing is sent, and without a
/// response the time is up.
pub open spec fn outcome(
    connected: bool,
    response: Option<ResponseView>,
) -> Result<ResponseView, ErrorView> {
    if !connected {
        Err(ErrorView::NoConnection)
    } else {
        match response {
            None => Err(ErrorView::Timeout),
            Some(response) => judged(response),
        }
    }
}

/// The view of an outcome.
pub open spec fn outcome_of(
    r: Result<OneBotActionResponse, OneBotError>,
) -> Result<ResponseView, ErrorView> {
    match r {
        Ok(response) => Ok(response@),
        Err(error) => Err(error@),
    }
}

/// The view of a possible response.
pub open spec fn response_view(response: Option<OneBotActionResponse>) -> Option<ResponseView> {
    match response {
        Some(response) => Some(response@),
        None => None,
    }
}

/// The data of an outcome; data that did not come are null.
pub open spec fn data_of(r: Result<ResponseView, ErrorView>) -> Result<JsonView, ErrorView> {
    match r {
        Ok(response) => Ok(
            match response.data {
                Some(data) => data,
                None => JsonView::Null,
            },
        ),
        Err(error) => Err(error),
    }
}

/// The view of data or a failure.
pub open spec fn data_view(r: Result<Json, OneBotError>) -> Result<JsonView, ErrorView> {
    match r {
        Ok(data) => Ok(data@),
        Err(error) => Err(error@),
    }
}

/// The number of a sent message in the data that came back; zero where it is missing.
pub open spec fn message_id_of(data: JsonView) -> i64 {
    match int_of(field(data, "message_id"@)) {
        Some(id) => id,
        None => 0,
    }
}

/// The number of a sent message in the data that came back; zero where it is missing.
pub fn message_id(data: &Json) -> (r: i64)
    ensures
        r == message_id_of(data@),
{
    match data.get("message_id") {
        Some(value) => match value.as_i64() {
            Some(id) => id,
            None => 0,
        },
        None => 0,
    }
}

/// The failure for data that are not of the expected form.
pub fn bad_data(action: &str, error: &str) -> (r: OneBotError)
    ensures
        r@ == ErrorView::BadResponse(action@ + " 的 data 无法解析: "@ + error@),
{
    let mut out = owned(action);
    out.append(" 的 data 无法解析: ");
    out.append(error);
    OneBotError::BadResponse(out)
}

// ---------------------------------------------------------------------------
// payloads

/// A message as it is handed to an implementation.
#[derive(Debug, PartialEq)]
pub struct MessagePayload(pub Json);

impl View for MessagePayload {
    type V = JsonView;

    open spec fn view(&self) -> JsonView {
        self.0@
    }
}

/// A message of one text.
pub open spec fn text_payload(text: Seq<char>) -> JsonView {
    JsonView::Array(
        seq![typed_json("text"@, no_members().push(("text"@, JsonView::Text(text))))],
    )
}

/// A text is handed over as the message of that text is.
pub proof fn law_text_is_a_message_of_one_text(text: Seq<char>, media: MediaFiles)
    ensures
        text_payload(text) == segments_json(seq![SegmentView::Text(text)], media),
{
    assert(text_payload(text)->Array_0 =~= segments_json(
        seq![SegmentView::Text(text)],
        media,
    )->Array_0);
}

impl MessagePayload {
    /// A text.
    pub fn from_text(text: &str) -> (r: MessagePayload)
        ensures
            r@ == text_payload(text@),
    {
        let data = Json::object_of("text", Json::text(text));
        let segment = Members::new().with("type", Json::text("text")).with("data", data).object();
        let mut items: Vec<Json> = Vec::new();
        items.push(segment);
        proof {
            lemma_array_view(items);
            assert(json_views(items@) =~= seq![segment@]);
        }
        MessagePayload(Json::Array(items))
    }

    /// A message.
    pub fn from_message(message: &OutgoingMessage, media: &MediaFiles) -> (r: MessagePayload)
        ensures
            r@ == segments_json(segment_views(message.segments@), *media),
    {
        MessagePayload(message_to_json(message, media))
    }

    /// Some segments.
    pub fn from_segments(segments: Vec<MessageSegment>, media: &MediaFiles) -> (r: MessagePayload)
        ensures
            r@ == segments_json(segment_views(segments@), *media),
    {
        MessagePayload::from_message(
            &OutgoingMessage { segments, revoke_after_millis: None },
            media,
        )
    }

    /// A value that is a message already.
    pub fn from_value(value: Json) -> (r: MessagePayload)
        ensures
            r@ == value@,
    {
        MessagePayload(value)
    }
}

// ---------------------------------------------------------------------------
// actions

/// An action and its parameters.
#[derive(Debug)]
pub struct ApiRequest {
    pub action: String,
    pub params: Json,
}

/// An action and its parameters.
pub struct RequestView {
    pub action: Seq<char>,
    pub params: JsonView,
}

impl View for ApiRequest {
    type V = RequestView;

    open spec fn view(&self) -> RequestView {
        RequestView { action: self.action@, params: self.params@ }
    }
}

/// An action with the members of its parameters.
pub open spec fn request(action: Seq<char>, members: Seq<(Seq<char>, JsonView)>) -> RequestView {
    RequestView { action, params: JsonView::Object(members) }
}

impl ApiRequest {
    /// An action with the members of its parameters.
    fn new(action: &str, members: Members) -> (r: ApiRequest)
        ensures
            r@ == request(action@, members@),
    {
        ApiRequest { action: owned(action), params: members.object() }
    }
}

/// The way to the implementations.
#[derive(Clone, Copy, Debug, PartialEq, Eq, Structural)]
pub struct OneBotApi {}

impl OneBotApi {
    /// The way to the implementations.
    pub fn global() -> (r: OneBotApi)
        ensures
            r == (OneBotApi {}),
    {
        OneBotApi {}
    }

    /// Judges what came back for an action.
    pub fn raw(&self, connected: bool, response: Option<OneBotActionResponse>) -> (r: Result<
        OneBotActionResponse,
        OneBotError,
    >)
        ensures
            outcome_of(r) == outcome(connected, response_view(response)),
    {
        if !connected {
            return Err(OneBotError::NoConnection);
        }
        match response {
            None => Err(OneBotError::Timeout),
            Some(response) => {
                if response.success() || response.async_accepted() {
                    Ok(response)
                } else {
                    let message = match &response.message {
                        Some(message) => message.clone(),
                        None => match &response.wording {
                            Some(wording) => wording.clone(),
                            None => String::new(),
                        },
                    };
                    Err(
                        OneBotError::Failed {
                            status: response.status.clone(),
                            retcode: response.retcode,
                            message,
                        },
                    )
                }
            },
        }
    }

    /// The data that came back for an action; null where none came.
    pub fn call(&self, connected: bool, response: Option<OneBotActionResponse>) -> (r: Result<
        Json,
        OneBotError,
    >)
        ensures
            data_view(r) == data_of(outcome(connected, response_view(response))),
    {
        match self.raw(connected, response) {
            Ok(response) => match response.data {
                Some(data) => Ok(data),
                None => Ok(Json::Null),
            },
            Err(error) => Err(error),
        }
    }

    /// Whether an action went well, whatever its data.
    pub fn call_ok(&self, connected: bool, response: Option<OneBotActionResponse>) -> (r: Result<
        (),
        OneBotError,
    >)
        ensures
            match r {
                Ok(_) => outcome(connected, response_view(response)) is Ok,
                Err(error) => outcome(connected, response_view(response)) == Err::<
                    ResponseView,
                    ErrorView,
                >(error@),
            },
    {
        match self.raw(connected, response) {
            Ok(_) => Ok(()),
            Err(error) => Err(error),
        }
    }

    /// Sends a message to where it goes.
    pub fn send(&self, target: MessageTarget, message: MessagePayload) -> (r: ApiRequest)
        ensures
            r@ == match target {
                MessageTarget::Group(group_id) => request(
                    "send_group_msg"@,
                    push_present(
                        no_members().push(("group_id"@, number(group_id as int))),
                        "message"@,
                        message@,
                    ),
                ),
                MessageTarget::Private(user_id) => request(
                    "send_private_msg"@,
                    push_present(
                        no_members().push(("user_id"@, number(user_id as int))),
                        "message"@,
                        message@,
                    ),
                ),
            },
    {
        match target {
            MessageTarget::Group(group_id) => self.send_group_msg(group_id, message),
            MessageTarget::Private(user_id) => self.send_private_msg(user_id, message),
        }
    }

    /// Sends a message to a user.
    pub fn send_private_msg(&self, user_id: i64, message: MessagePayload) -> (r: ApiRequest)
        ensures
            r@ == request("send_private_msg"@, push_present(no_members().push(("user_id"@, number(user_id as int))), "message"@, message@)),
    {
        ApiRequest::new("send_private_msg", Members::new()
            .with("user_id", Json::signed(user_id))
            .with_present("message", message.0))
    }

    /// Sends a message to a group.
    pub fn send_group_msg(&self, group_id: i64, message: MessagePayload) -> (r: ApiRequest)
        ensures
            r@ == request("send_group_msg"@, push_present(no_members().push(("group_id"@, number(group_id as int))), "message"@, message@)),
    {
        ApiRequest::new("send_group_msg", Members::new()
            .with("group_id", Json::signed(group_id))
            .with_present("message", message.0))
    }

    /// Sends a message to a group or a user; without either the implementation decides.
    pub fn send_msg(&self, group_id: Option<i64>, user_id: Option<i64>, message: MessagePayload) -> (r: ApiRequest)
        ensures
            r@ == request("send_msg"@, push_present(push_present(push_present(no_members(), "group_id"@, present_number(group_id)), "user_id"@, present_number(user_id)), "message"@, message@)),
    {
        ApiRequest::new("send_msg", Members::new()
            .with_present("group_id", Json::maybe_number(group_id))
            .with_present("user_id", Json::maybe_number(user_id))
            .with_present("message", message.0))
    }

    /// Asks for a message.
    pub fn get_msg(&self, message_id: i64) -> (r: ApiRequest)
        ensures
            r@ == request("get_msg"@, no_members().push(("message_id"@, number(message_id as int)))),
    {
        ApiRequest::new("get_msg", Members::new()
            .with("message_id", Json::signed(message_id)))
    }

    /// Asks for the messages of a forwarded bundle.
    pub fn get_forward_msg(&self, message_id: i64) -> (r: ApiRequest)
        ensures
            r@ == request("get_forward_msg"@, no_members().push(("message_id"@, number(message_id as int)))),
    {
        ApiRequest::new("get_forward_msg", Members::new()
            .with("message_id", Json::signed(message_id)))
    }

    /// Takes a message back.
    pub fn delete_msg(&self, message_id: i64) -> (r: ApiRequest)
        ensures
            r@ == request("delete_msg"@, no_members().push(("message_id"@, number(message_id as int)))),
    {
        ApiRequest::new("delete_msg", Members::new()
            .with("message_id", Json::signed(message_id)))
    }

    /// Puts an emoji on a message, or takes it off.
    pub fn set_msg_emoji_like(&self, message_id: i64, emoji_id: &str, present: bool) -> (r: ApiRequest)
        ensures
            r@ == request("set_msg_emoji_like"@, no_members().push(("message_id"@, number(message_id as int))).push(("emoji_id"@, JsonView::Text(emoji_id@))).push(("emoji_present"@, JsonView::Bool(present)))),
    {
        ApiRequest::new("set_msg_emoji_like", Members::new()
            .with("message_id", Json::signed(message_id))
            .with("emoji_id", Json::text(emoji_id))
            .with("emoji_present", Json::Bool(present)))
    }

    /// Asks whether a user can be written to.
    pub fn can_send_private_msg(&self, user_id: i64) -> (r: ApiRequest)
        ensures
            r@ == request("can_send_private_msg"@, no_members().push(("user_id"@, number(user_id as int)))),
    {
        ApiRequest::new("can_send_private_msg", Members::new()
            .with("user_id", Json::signed(user_id)))
    }

    /// Asks whether a user can write in a group.
    pub fn can_send_group_msg(&self, group_id: i64, sender_user_id: i64) -> (r: ApiRequest)
        ensures
            r@ == request("can_send_group_msg"@, no_members().push(("group_id"@, number(group_id as int))).push(("user_id"@, number(sender_user_id as int)))),
    {
        ApiRequest::new("can_send_group_msg", Members::new()
            .with("group_id", Json::signed(group_id))
            .with("user_id", Json::signed(sender_user_id)))
    }

    /// Asks for the account of the bot.
    pub fn get_login_info(&self) -> (r: ApiRequest)
        ensures
            r@ == request("get_login_info"@, no_members()),
    {
        ApiRequest::new("get_login_info", Members::new())
    }

    /// Asks for the data of a user.
    pub fn get_stranger_info(&self, user_id: i64, refresh: bool) -> (r: ApiRequest)
        ensures
            r@ == request("get_stranger_info"@, no_members().push(("user_id"@, number(user_id as int))).push(("no_cache"@, JsonView::Bool(refresh)))),
    {
        ApiRequest::new("get_stranger_info", Members::new()
            .with("user_id", Json::signed(user_id))
            .with("no_cache", Json::Bool(refresh)))
    }

    /// Asks for the friends of the bot.
    pub fn get_friend_list(&self) -> (r: ApiRequest)
        ensures
            r@ == request("get_friend_list"@, no_members()),
    {
        ApiRequest::new("get_friend_list", Members::new())
    }

    /// Asks for the data of a group.
    pub fn get_group_info(&self, group_id: i64, refresh: bool) -> (r: ApiRequest)
        ensures
            r@ == request("get_group_info"@, no_members().push(("group_id"@, number(group_id as int))).push(("no_cache"@, JsonView::Bool(refresh)))),
    {
        ApiRequest::new("get_group_info", Members::new()
            .with("group_id", Json::signed(group_id))
            .with("no_cache", Json::Bool(refresh)))
    }

    /// Asks for the groups of the bot.
    pub fn get_group_list(&self) -> (r: ApiRequest)
        ensures
            r@ == request("get_group_list"@, no_members()),
    {
        ApiRequest::new("get_group_list", Members::new())
    }

    /// Asks for the data of a member of a group.
    pub fn get_group_member_info(&self, group_id: i64, user_id: i64, refresh: bool) -> (r: ApiRequest)
        ensures
            r@ == request("get_group_member_info"@, no_members().push(("group_id"@, number(group_id as int))).push(("user_id"@, number(user_id as int))).push(("no_cache"@, JsonView::Bool(refresh)))),
    {
        ApiRequest::new("get_group_member_info", Members::new()
            .with("group_id", Json::signed(group_id))
            .with("user_id", Json::signed(user_id))
            .with("no_cache", Json::Bool(refresh)))
    }

    /// Asks for the members of a group.
    pub fn get_group_member_list(&self, group_id: i64) -> (r: ApiRequest)
        ensures
            r@ == request("get_group_member_list"@, no_members().push(("group_id"@, number(group_id as int)))),
    {
        ApiRequest::new("get_group_member_list", Members::new()
            .with("group_id", Json::signed(group_id)))
    }

    /// Asks for the honours of a group.
    pub fn get_group_honor_info(&self, group_id: i64) -> (r: ApiRequest)
        ensures
            r@ == request("get_group_honor_info"@, no_members().push(("group_id"@, number(group_id as int)))),
    {
        ApiRequest::new("get_group_honor_info", Members::new()
            .with("group_id", Json::signed(group_id)))
    }

    /// Asks for the system messages of the groups.
    pub fn get_group_system_msg(&self) -> (r: ApiRequest)
        ensures
            r@ == request("get_group_system_msg"@, no_members()),
    {
        ApiRequest::new("get_group_system_msg", Members::new())
    }

    /// Asks how often everybody can still be mentioned in a group.
    pub fn get_group_at_all_remain(&self, group_id: i64) -> (r: ApiRequest)
        ensures
            r@ == request("get_group_at_all_remain"@, no_members().push(("group_id"@, number(group_id as int)))),
    {
        ApiRequest::new("get_group_at_all_remain", Members::new()
            .with("group_id", Json::signed(group_id)))
    }

    /// Throws a member out of a group.
    pub fn set_group_kick(&self, group_id: i64, user_id: i64, reject_add_request: bool) -> (r: ApiRequest)
        ensures
            r@ == request("set_group_kick"@, no_members().push(("group_id"@, number(group_id as int))).push(("user_id"@, number(user_id as int))).push(("reject_add_request"@, JsonView::Bool(reject_add_request)))),
    {
        ApiRequest::new("set_group_kick", Members::new()
            .with("group_id", Json::signed(group_id))
            .with("user_id", Json::signed(user_id))
            .with("reject_add_request", Json::Bool(reject_add_request)))
    }

    /// Silences a member of a group; zero seconds lift it.
    pub fn set_group_ban(&self, group_id: i64, user_id: i64, duration: u64) -> (r: ApiRequest)
        ensures
            r@ == request("set_group_ban"@, no_members().push(("group_id"@, number(group_id as int))).push(("user_id"@, number(user_id as int))).push(("duration"@, number(duration as int)))),
    {
        ApiRequest::new("set_group_ban", Members::new()
            .with("group_id", Json::signed(group_id))
            .with("user_id", Json::signed(user_id))
            .with("duration", Json::unsigned(duration)))
    }

    /// Silences a whole group.
    pub fn set_group_whole_ban(&self, group_id: i64, enable: bool) -> (r: ApiRequest)
        ensures
            r@ == request("set_group_whole_ban"@, no_members().push(("group_id"@, number(group_id as int))).push(("enable"@, JsonView::Bool(enable)))),
    {
        ApiRequest::new("set_group_whole_ban", Members::new()
            .with("group_id", Json::signed(group_id))
            .with("enable", Json::Bool(enable)))
    }

    /// Makes a member an administrator, or ends that.
    pub fn set_group_admin(&self, group_id: i64, user_id: i64, enable: bool) -> (r: ApiRequest)
        ensures
            r@ == request("set_group_admin"@, no_members().push(("group_id"@, number(group_id as int))).push(("user_id"@, number(user_id as int))).push(("enable"@, JsonView::Bool(enable)))),
    {
        ApiRequest::new("set_group_admin", Members::new()
            .with("group_id", Json::signed(group_id))
            .with("user_id", Json::signed(user_id))
            .with("enable", Json::Bool(enable)))
    }

    /// Silences an anonymous member of a group.
    pub fn set_group_anonymous_ban(&self, group_id: i64, anonymous_flag: Option<&str>, user_id: Option<i64>, duration: u64) -> (r: ApiRequest)
        ensures
            r@ == request("set_group_anonymous_ban"@, push_present(push_present(no_members().push(("group_id"@, number(group_id as int))), "anonymous_flag"@, present_text(anonymous_flag)), "user_id"@, present_number(user_id)).push(("duration"@, number(duration as int)))),
    {
        ApiRequest::new("set_group_anonymous_ban", Members::new()
            .with("group_id", Json::signed(group_id))
            .with_present("anonymous_flag", Json::maybe_text(anonymous_flag))
            .with_present("user_id", Json::maybe_number(user_id))
            .with("duration", Json::unsigned(duration)))
    }

    /// Renames a group.
    pub fn set_group_name(&self, group_id: i64, group_name: &str) -> (r: ApiRequest)
        ensures
            r@ == request("set_group_name"@, no_members().push(("group_id"@, number(group_id as int))).push(("group_name"@, JsonView::Text(group_name@)))),
    {
        ApiRequest::new("set_group_name", Members::new()
            .with("group_id", Json::signed(group_id))
            .with("group_name", Json::text(group_name)))
    }

    /// Sets the level of a member.
    pub fn set_group_level(&self, group_id: i64, user_id: i64, new_level: i64) -> (r: ApiRequest)
        ensures
            r@ == request("set_group_level"@, no_members().push(("group_id"@, number(group_id as int))).push(("user_id"@, number(user_id as int))).push(("new_level"@, number(new_level as int)))),
    {
        ApiRequest::new("set_group_level", Members::new()
            .with("group_id", Json::signed(group_id))
            .with("user_id", Json::signed(user_id))
            .with("new_level", Json::signed(new_level)))
    }

    /// Sets the card of a member; the empty text clears it.
    pub fn set_group_card(&self, group_id: i64, user_id: i64, card: &str) -> (r: ApiRequest)
        ensures
            r@ == request("set_group_card"@, no_members().push(("group_id"@, number(group_id as int))).push(("user_id"@, number(user_id as int))).push(("card"@, JsonView::Text(card@)))),
    {
        ApiRequest::new("set_group_card", Members::new()
            .with("group_id", Json::signed(group_id))
            .with("user_id", Json::signed(user_id))
            .with("card", Json::text(card)))
    }

    /// Sets the title of a member.
    pub fn set_group_special_title(&self, group_id: i64, user_id: i64, special_title: &str, duration: i64) -> (r: ApiRequest)
        ensures
            r@ == request("set_group_special_title"@, no_members().push(("group_id"@, number(group_id as int))).push(("user_id"@, number(user_id as int))).push(("special_title"@, JsonView::Text(special_title@))).push(("duration"@, number(duration as int)))),
    {
        ApiRequest::new("set_group_special_title", Members::new()
            .with("group_id", Json::signed(group_id))
            .with("user_id", Json::signed(user_id))
            .with("special_title", Json::text(special_title))
            .with("duration", Json::signed(duration)))
    }

    /// Answers a request to join a group, or an invitation.
    pub fn set_group_add_request(&self, flag: &str, sub_type: &str, approve: bool, reason: Option<&str>) -> (r: ApiRequest)
        ensures
            r@ == request("set_group_add_request"@, push_present(no_members().push(("flag"@, JsonView::Text(flag@))).push(("type"@, JsonView::Text(sub_type@))).push(("approve"@, JsonView::Bool(approve))), "reason"@, present_text(reason))),
    {
        ApiRequest::new("set_group_add_request", Members::new()
            .with("flag", Json::text(flag))
            .with("type", Json::text(sub_type))
            .with("approve", Json::Bool(approve))
            .with_present("reason", Json::maybe_text(reason)))
    }

    /// Answers a request to be a friend.
    pub fn set_friend_add_request(&self, flag: &str, approve: bool, remark: Option<&str>) -> (r: ApiRequest)
        ensures
            r@ == request("set_friend_add_request"@, push_present(no_members().push(("flag"@, JsonView::Text(flag@))).push(("approve"@, JsonView::Bool(approve))), "remark"@, present_text(remark))),
    {
        ApiRequest::new("set_friend_add_request", Members::new()
            .with("flag", Json::text(flag))
            .with("approve", Json::Bool(approve))
            .with_present("remark", Json::maybe_text(remark)))
    }

    /// Likes a friend.
    pub fn send_like(&self, user_id: i64, times: u64) -> (r: ApiRequest)
        ensures
            r@ == request("send_like"@, no_members().push(("user_id"@, number(user_id as int))).push(("times"@, number(times as int)))),
    {
        ApiRequest::new("send_like", Members::new()
            .with("user_id", Json::signed(user_id))
            .with("times", Json::unsigned(times)))
    }

    /// Posts a notice in a group.
    pub fn set_group_notice(&self, group_id: i64, notice: &str, image: Option<&str>, pinned: bool) -> (r: ApiRequest)
        ensures
            r@ == request("set_group_notice"@, push_present(no_members().push(("group_id"@, number(group_id as int))).push(("content"@, JsonView::Text(notice@))), "image"@, present_text(image)).push(("is_pinned"@, JsonView::Bool(pinned))).push(("show_gag"@, JsonView::Bool(false)))),
    {
        ApiRequest::new("set_group_notice", Members::new()
            .with("group_id", Json::signed(group_id))
            .with("content", Json::text(notice))
            .with_present("image", Json::maybe_text(image))
            .with("is_pinned", Json::Bool(pinned))
            .with("show_gag", Json::Bool(false)))
    }

    /// Asks for the notices of a group.
    pub fn get_group_notice(&self, group_id: i64) -> (r: ApiRequest)
        ensures
            r@ == request("get_group_notice"@, no_members().push(("group_id"@, number(group_id as int)))),
    {
        ApiRequest::new("get_group_notice", Members::new()
            .with("group_id", Json::signed(group_id)))
    }

    /// Asks for the highlighted messages of a group.
    pub fn get_essence_msg_list(&self, group_id: i64) -> (r: ApiRequest)
        ensures
            r@ == request("get_essence_msg_list"@, no_members().push(("group_id"@, number(group_id as int)))),
    {
        ApiRequest::new("get_essence_msg_list", Members::new()
            .with("group_id", Json::signed(group_id)))
    }

    /// Highlights a message.
    pub fn add_essence_msg(&self, message_id: i64) -> (r: ApiRequest)
        ensures
            r@ == request("add_essence_msg"@, no_members().push(("message_id"@, number(message_id as int)))),
    {
        ApiRequest::new("add_essence_msg", Members::new()
            .with("message_id", Json::signed(message_id)))
    }

    /// Ends the highlighting of a message.
    pub fn delete_essence_msg(&self, message_id: i64) -> (r: ApiRequest)
        ensures
            r@ == request("delete_essence_msg"@, no_members().push(("message_id"@, number(message_id as int)))),
    {
        ApiRequest::new("delete_essence_msg", Members::new()
            .with("message_id", Json::signed(message_id)))
    }

    /// Puts a file into a group: a path, an address or encoded bytes.
    pub fn upload_group_file(&self, group_id: i64, file: &str, name: &str, folder_id: Option<&str>) -> (r: ApiRequest)
        ensures
            r@ == request("upload_group_file"@, push_present(no_members().push(("group_id"@, number(group_id as int))).push(("file"@, JsonView::Text(file@))).push(("name"@, JsonView::Text(name@))), "folder_id"@, present_text(folder_id))),
    {
        ApiRequest::new("upload_group_file", Members::new()
            .with("group_id", Json::signed(group_id))
            .with("file", Json::text(file))
            .with("name", Json::text(name))
            .with_present("folder_id", Json::maybe_text(folder_id)))
    }

    /// Asks for the files of a group.
    pub fn get_group_root_files(&self, group_id: i64) -> (r: ApiRequest)
        ensures
            r@ == request("get_group_root_files"@, no_members().push(("group_id"@, number(group_id as int)))),
    {
        ApiRequest::new("get_group_root_files", Members::new()
            .with("group_id", Json::signed(group_id)))
    }

    /// Asks for the files in a folder of a group.
    pub fn get_group_files_by_folder(&self, group_id: i64, folder_id: &str) -> (r: ApiRequest)
        ensures
            r@ == request("get_group_files_by_folder"@, no_members().push(("group_id"@, number(group_id as int))).push(("folder_id"@, JsonView::Text(folder_id@)))),
    {
        ApiRequest::new("get_group_files_by_folder", Members::new()
            .with("group_id", Json::signed(group_id))
            .with("folder_id", Json::text(folder_id)))
    }

    /// Asks for the address of a file.
    pub fn get_group_file_url(&self, group_id: i64, file_id: &str, busid: &str) -> (r: ApiRequest)
        ensures
            r@ == request("get_group_file_url"@, no_members().push(("group_id"@, number(group_id as int))).push(("file_id"@, JsonView::Text(file_id@))).push(("busid"@, JsonView::Text(busid@)))),
    {
        ApiRequest::new("get_group_file_url", Members::new()
            .with("group_id", Json::signed(group_id))
            .with("file_id", Json::text(file_id))
            .with("busid", Json::text(busid)))
    }

    /// Deletes a file of a group.
    pub fn delete_group_file(&self, group_id: i64, file_id: &str, busid: &str) -> (r: ApiRequest)
        ensures
            r@ == request("delete_group_file"@, no_members().push(("group_id"@, number(group_id as int))).push(("file_id"@, JsonView::Text(file_id@))).push(("busid"@, JsonView::Text(busid@)))),
    {
        ApiRequest::new("delete_group_file", Members::new()
            .with("group_id", Json::signed(group_id))
            .with("file_id", Json::text(file_id))
            .with("busid", Json::text(busid)))
    }

    /// Makes a folder in a group.
    pub fn create_group_folder(&self, group_id: i64, name: &str, parent_folder_id: Option<&str>) -> (r: ApiRequest)
        ensures
            r@ == request("create_group_folder"@, push_present(no_members().push(("group_id"@, number(group_id as int))).push(("folder_name"@, JsonView::Text(name@))), "parent_folder_id"@, present_text(parent_folder_id))),
    {
        ApiRequest::new("create_group_folder", Members::new()
            .with("group_id", Json::signed(group_id))
            .with("folder_name", Json::text(name))
            .with_present("parent_folder_id", Json::maybe_text(parent_folder_id)))
    }

    /// Deletes a folder of a group.
    pub fn delete_group_folder(&self, group_id: i64, folder_id: &str) -> (r: ApiRequest)
        ensures
            r@ == request("delete_group_folder"@, no_members().push(("group_id"@, number(group_id as int))).push(("folder_id"@, JsonView::Text(folder_id@)))),
    {
        ApiRequest::new("delete_group_folder", Members::new()
            .with("group_id", Json::signed(group_id))
            .with("folder_id", Json::text(folder_id)))
    }

    /// Asks for the status of the implementation.
    pub fn get_status(&self) -> (r: ApiRequest)
        ensures
            r@ == request("get_status"@, no_members()),
    {
        ApiRequest::new("get_status", Members::new())
    }

    /// Asks for the version of the implementation.
    pub fn get_version_info(&self) -> (r: ApiRequest)
        ensures
            r@ == request("get_version_info"@, no_members()),
    {
        ApiRequest::new("get_version_info", Members::new())
    }

    /// Asks for the cookies of a domain.
    pub fn get_cookie(&self, domain: Option<&str>) -> (r: ApiRequest)
        ensures
            r@ == request("get_cookie"@, push_present(no_members(), "domain"@, present_text(domain))),
    {
        ApiRequest::new("get_cookie", Members::new()
            .with_present("domain", Json::maybe_text(domain)))
    }

    /// Asks for the request token of a domain.
    pub fn get_csrf(&self, domain: Option<&str>) -> (r: ApiRequest)
        ensures
            r@ == request("get_csrf"@, push_present(no_members(), "domain"@, present_text(domain))),
    {
        ApiRequest::new("get_csrf", Members::new()
            .with_present("domain", Json::maybe_text(domain)))
    }
}

/// Whether an object has a member that is null.
pub open spec fn holds_null(members: Seq<(Seq<char>, JsonView)>) -> bool {
    exists|i: int| 0 <= i < members.len() && (#[trigger] members[i]).1 is Null
}

/// An optional parameter that is not given does not appear at all: adding it never
/// puts a null into the parameters.
pub proof fn law_missing_parameters_do_not_appear(
    members: Seq<(Seq<char>, JsonView)>,
    key: Seq<char>,
    value: JsonView,
)
    requires
        !holds_null(members),
    ensures
        !holds_null(push_present(members, key, value)),
        push_present(members, key, JsonView::Null) == members,
{
    let after = push_present(members, key, value);
    assert forall|i: int| 0 <= i < after.len() implies !((#[trigger] after[i]).1 is Null) by {
        if i < members.len() {
            assert(after[i] == members[i]);
        }
    }
}

// ---------------------------------------------------------------------------
// what comes back

/// The status of an implementation.
#[derive(Debug)]
pub struct StatusInfo {
    pub online: Option<bool>,
    pub good: Option<bool>,
    pub rest: Vec<(String, Json)>,
}

/// The version of an implementation.
#[derive(Debug)]
pub struct VersionInfo {
    pub app_name: String,
    pub app_version: String,
    pub protocol_version: String,
}

/// The account of the bot.
#[derive(Debug)]
pub struct LoginInfo {
    pub user_id: i64,
    pub nickname: String,
    pub rest: Vec<(String, Json)>,
}

/// A user.
#[derive(Debug)]
pub struct StrangerInfo {
    pub user_id: i64,
    pub nickname: String,
    pub sex: String,
    pub age: i64,
    pub card: String,
    pub rest: Vec<(String, Json)>,
}

/// A friend.
#[derive(Debug)]
pub struct FriendInfo {
    pub user_id: i64,
    pub nickname: String,
    pub remark: String,
    pub sex: String,
    pub age: i64,
    pub rest: Vec<(String, Json)>,
}

impl FriendInfo {
    /// The name shown: the remark unless it is blank, else the nickname.
    pub fn display(&self) -> (r: &str)
        ensures
            r@ == if is_blank_spec(self.remark@) {
                self.nickname@
            } else {
                self.remark@
            },
    {
        if is_blank(self.remark.as_str()) {
            self.nickname.as_str()
        } else {
            self.remark.as_str()
        }
    }
}

/// A group.
#[derive(Debug)]
pub struct GroupInfo {
    pub group_id: i64,
    pub group_name: String,
    pub group_memo: String,
    pub group_level: i64,
    pub member_count: i64,
    pub max_member_count: i64,
    pub owner_id: i64,
    pub shuffle: bool,
    pub rest: Vec<(String, Json)>,
}

/// The number of a role: one for the owner, two for an administrator, three for any
/// other member. Numbers are taken as they are; what is not understood counts as a
/// member.
pub open spec fn role_number(role: JsonView) -> i64 {
    match role {
        JsonView::Number(_) => match int_of(Some(role)) {
            Some(n) => n,
            None => 3,
        },
        JsonView::Text(name) => {
            let name = lower(name);
            if name == "owner"@ || name == "creator"@ || name == "群主"@ {
                1
            } else if name == "admin"@ || name == "administrator"@ || name == "管理员"@ {
                2
            } else {
                3
            }
        },
        _ => 3,
    }
}

/// The number of a role, whether it is given by number or by name.
pub fn role_as_number(role: &Json) -> (r: i64)
    ensures
        r == role_number(role@),
{
    match role {
        Json::Number(_) => match role.as_i64() {
            Some(n) => n,
            None => 3,
        },
        Json::Text(name) => {
            let lowered = to_lower(name.as_str());
            let name = lowered.as_str();
            if same(name, "owner") || same(name, "creator") || same(name, "群主") {
                1
            } else if same(name, "admin") || same(name, "administrator") || same(
                name,
                "管理员",
            ) {
                2
            } else {
                3
            }
        },
        _ => 3,
    }
}

/// A member of a group.
#[derive(Debug)]
pub struct GroupMemberInfo {
    pub group_id: i64,
    pub user_id: i64,
    pub nickname: String,
    pub card: String,
    pub sex: String,
    pub age: i64,
    pub level: String,
    pub title: String,
    pub join_time: i64,
    pub last_sent_time: i64,
    pub group_rank: i64,
    pub role: i64,
    pub unimportant_flag: bool,
    pub rest: Vec<(String, Json)>,
}

impl Default for GroupMemberInfo {
    /// A member of whom nothing is known.
    fn default() -> (r: GroupMemberInfo)
        ensures
            r.group_id == 0 && r.user_id == 0 && r.age == 0,
            r.nickname@.len() == 0 && r.card@.len() == 0 && r.sex@.len() == 0,
            r.level@.len() == 0 && r.title@.len() == 0,
            r.join_time == 0 && r.last_sent_time == 0 && r.group_rank == 0 && r.role == 0,
            !r.unimportant_flag && r.rest@.len() == 0,
    {
        GroupMemberInfo {
            group_id: 0,
            user_id: 0,
            nickname: String::new(),
            card: String::new(),
            sex: String::new(),
            age: 0,
            level: String::new(),
            title: String::new(),
            join_time: 0,
            last_sent_time: 0,
            group_rank: 0,
            role: 0,
            unimportant_flag: false,
            rest: Vec::new(),
        }
    }
}

impl GroupMemberInfo {
    /// The name shown: the card unless it is blank, else the nickname.
    pub fn display(&self) -> (r: &str)
        ensures
            r@ == if is_blank_spec(self.card@) {
                self.nickname@
            } else {
                self.card@
            },
    {
        if is_blank(self.card.as_str()) {
            self.nickname.as_str()
        } else {
            self.card.as_str()
        }
    }

    /// Whether the member owns the group.
    pub fn is_owner(&self) -> (r: bool)
        ensures
            r == (self.role == 1 || self.group_rank >= 5),
    {
        self.role == 1 || self.group_rank >= 5
    }

    /// Whether the member is an administrator.
    pub fn is_admin(&self) -> (r: bool)
        ensures
            r == (self.role == 2 || self.group_rank == 4),
    {
        self.role == 2 || self.group_rank == 4
    }
}

/// Whether somebody can be written to.
#[derive(Debug)]
pub struct CanSend {
    pub can_send: bool,
    pub gap: i64,
}

/// A message.
#[derive(Debug)]
pub struct MessageInfo {
    pub time: i64,
    pub message_id: i64,
    pub real_params: Vec<(String, Json)>,
    pub message_type: String,
    pub sub_type: String,
    pub user_id: i64,
    pub group_id: i64,
    pub message: Json,
    pub original_message: Json,
    pub sender: Json,
}

/// A message of a forwarded bundle.
#[derive(Debug)]
pub struct MessageNode {
    pub user_id: i64,
    pub nickname: String,
    pub content: Json,
    pub time: i64,
    pub message_id: i64,
}

/// A member with an honour.
#[derive(Debug)]
pub struct HonorMember {
    pub user_id: i64,
    pub category_id: i64,
    pub nickname: String,
    pub rest: Vec<(String, Json)>,
}

/// The honours of a group.
#[derive(Debug)]
pub struct GroupHonorInfo {
    pub group_id: i64,
    pub owner: HonorMember,
    pub speaker: HonorMember,
    pub admins: Vec<HonorMember>,
    pub special_admins: Vec<HonorMember>,
    pub love: Vec<HonorMember>,
    pub rest: Vec<(String, Json)>,
}

/// How often everybody can still be mentioned.
#[derive(Debug)]
pub struct AtAllRemain {
    pub can_at_all: bool,
    pub remain_at_all_count_for_group: i64,
    pub remain_at_all_count_for_uin: i64,
}

/// A system message of a group.
#[derive(Debug)]
pub struct SystemMsg {
    pub group_id: i64,
    pub message_id: i64,
    pub detail_id: i64,
    pub user_id: i64,
    pub time: i64,
    pub rest: Vec<(String, Json)>,
}

/// A highlighted message.
#[derive(Debug)]
pub struct EssenceMsg {
    pub sender_id: i64,
    pub sender_nick: String,
    pub sender_time: i64,
    pub consumer_id: i64,
    pub consumer_nick: String,
    pub message_id: i64,
    pub rest: Vec<(String, Json)>,
}

/// A file of a group.
#[derive(Debug)]
pub struct GroupFile {
    pub file_id: String,
    pub file_name: String,
    pub file_size: i64,
    pub busid: String,
    pub file_node: String,
    pub folder_id: String,
    pub rest: Vec<(String, Json)>,
}

/// A folder of a group.
#[derive(Debug)]
pub struct GroupFolder {
    pub folder_id: String,
    pub folder_name: String,
    pub folder_create_time: i64,
    pub creator_uin: i64,
    pub rest: Vec<(String, Json)>,
}

/// The files and folders of a group.
#[derive(Debug)]
pub struct GroupFiles {
    pub files: Vec<GroupFile>,
    pub folders: Vec<GroupFolder>,
}

/// A response is good where it says so: one with status `ok` and code zero brings its
/// data, one with code one or status `async` goes on in the background, and any other is a
/// failure with its status, its code and its words.
pub proof fn law_responses_are_judged_by_what_they_say(response: ResponseView, data: JsonView)
    ensures
        response.status == "ok"@ && response.retcode == 0 && response.data == Some(data) ==> data_of(
            outcome(true, Some(response)),
        ) == Ok::<JsonView, ErrorView>(data),
        response.status == "ok"@ && response.retcode == 0 && response.data is None ==> data_of(
            outcome(true, Some(response)),
        ) == Ok::<JsonView, ErrorView>(JsonView::Null),
        response.retcode == 1 ==> outcome(true, Some(response)) == Ok::<ResponseView, ErrorView>(
            response,
        ),
        response.status == "async"@ ==> outcome(true, Some(response)) == Ok::<
            ResponseView,
            ErrorView,
        >(response),
        response.retcode != 0 && response.retcode != 1 && response.status == "failed"@ ==> (outcome(
            true,
            Some(response),
        ) matches Err(ErrorView::Failed { status, retcode, message }) && status == response.status
            && retcode == response.retcode && (response.message matches Some(words) ==> message
            == words) && (response.message is None && response.wording is Some ==> Some(message)
            == response.wording)),
        outcome(true, None) == Err::<ResponseView, ErrorView>(ErrorView::Timeout),
        outcome(false, Some(response)) == Err::<ResponseView, ErrorView>(ErrorView::NoConnection),
{
    reveal_strlit("async");
    reveal_strlit("failed");
    assert(lower("async"@).len() == 5 && lower("failed"@).len() == 6);
}

/// The number of a sent message is the one that came back, and different numbers are
/// told apart.
pub proof fn law_sent_messages_are_known_by_number(data: JsonView, n: i64)
    ensures
        field(data, "message_id"@) == Some(number(n as int)) ==> message_id_of(data) == n,
        field(data, "message_id"@) is None ==> message_id_of(data) == 0,
{
    crate::text::law_decimal_reads_back(n);
}

/// A role is known by its name, whatever the case of its letters, or by its number: the
/// owner comes first, then the administrators, then everybody else.
pub proof fn law_roles_have_their_numbers(name: Seq<char>, other: Seq<char>, n: i64)
    ensures
        lower(name) == lower("owner"@) ==> role_number(JsonView::Text(name)) == 1,
        lower(name) == lower("admin"@) ==> role_number(JsonView::Text(name)) == 2,
        lower(name) == lower("member"@) ==> role_number(JsonView::Text(name)) == 3,
        lower(name) == lower(other) ==> role_number(JsonView::Text(name)) == role_number(
            JsonView::Text(other),
        ),
        role_number(number(n as int)) == n,
        role_number(JsonView::Null) == 3,
{
    crate::text::law_decimal_reads_back(n);
    reveal_strlit("owner");
    reveal_strlit("admin");
    reveal_strlit("member");
    reveal_strlit("creator");
    reveal_strlit("administrator");
    reveal_strlit("群主");
    reveal_strlit("管理员");
    assert(lower("owner"@) =~= "owner"@);
    assert(lower("admin"@) =~= "admin"@);
    assert(lower("member"@) =~= "member"@);
    assert("owner"@[0] == 'o' && "admin"@[0] == 'a' && "owner"@.len() == 5 && "admin"@.len() == 5);
    assert("member"@.len() == 6 && "creator"@.len() == 7 && "administrator"@.len() == 13);
    assert("群主"@.len() == 2 && "管理员"@.len() == 3);
}

/// A failure is told in words that tell what it was: another code or other words make
/// another text.
pub proof fn law_failures_are_told_apart(
    status: Seq<char>,
    code: i64,
    other_code: i64,
    message: Seq<char>,
    other_message: Seq<char>,
)
    ensures
        error_text(ErrorView::Failed { status, retcode: code, message }) == error_text(
            ErrorView::Failed { status, retcode: other_code, message: other_message },
        ) ==> code == other_code && message == other_message,
        error_text(ErrorView::BadResponse(message)) == error_text(
            ErrorView::BadResponse(other_message),
        ) ==> message == other_message,
{
    let start = "OneBot 返回失败(status="@ + status + ", retcode="@;
    let one = error_text(ErrorView::Failed { status, retcode: code, message });
    let other = error_text(
        ErrorView::Failed { status, retcode: other_code, message: other_message },
    );
    if one == other {
        let a = decimal(code as int);
        let b = decimal(other_code as int);
        reveal_strlit("): ");
        crate::text::lemma_decimal_characters(code as int);
        crate::text::lemma_decimal_characters(other_code as int);
        assert(one =~= start + (a + seq![')'] + (seq![':', ' '] + message)));
        assert(other =~= start + (b + seq![')'] + (seq![':', ' '] + other_message)));
        crate::text::lemma_same_start(
            start,
            a + seq![')'] + (seq![':', ' '] + message),
            b + seq![')'] + (seq![':', ' '] + other_message),
        );
        assert(!a.contains(')') && !b.contains(')'));
        crate::text::lemma_split_at_first(
            a,
            ')',
            seq![':', ' '] + message,
            b,
            seq![':', ' '] + other_message,
        );
        crate::text::lemma_same_start(seq![':', ' '], message, other_message);
        crate::text::law_decimals_tell_numbers_apart(code as int, other_code as int);
    }
    if error_text(ErrorView::BadResponse(message)) == error_text(
        ErrorView::BadResponse(other_message),
    ) {
        crate::text::lemma_same_start("OneBot 响应格式异常: "@, message, other_message);
    }
}

} // verus!
