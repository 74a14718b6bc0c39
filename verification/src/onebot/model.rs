//! Events, actions and responses of the OneBot protocol.
use crate::json::{option_text, option_view, Json, JsonView};
use crate::text::{equal_ignoring_case, same, same_ignoring_case};
use vstd::prelude::*;

verus! {

/// An event that an implementation reports.
#[derive(Debug)]
pub struct OneBotEvent {
    pub time: i64,
    pub self_id: i64,
    pub post_type: String,
    pub notice_type: Option<String>,
    pub message_type: Option<String>,
    pub sub_type: Option<String>,
    pub message_id: Option<i64>,
    pub user_id: Option<i64>,
    pub operator_id: Option<i64>,
    pub group_id: Option<i64>,
    pub raw_message: Option<String>,
    pub message: Option<Json>,
    pub sender: Option<Json>,
    /// The whole event as it came.
    pub raw: Json,
}

/// What an event is.
pub struct EventView {
    pub time: i64,
    pub self_id: i64,
    pub post_type: Seq<char>,
    pub notice_type: Option<Seq<char>>,
    pub message_type: Option<Seq<char>>,
    pub sub_type: Option<Seq<char>>,
    pub message_id: Option<i64>,
    pub user_id: Option<i64>,
    pub operator_id: Option<i64>,
    pub group_id: Option<i64>,
    pub raw_message: Option<Seq<char>>,
    pub message: Option<JsonView>,
    pub sender: Option<JsonView>,
    pub raw: JsonView,
}

impl View for OneBotEvent {
    type V = EventView;

    open spec fn view(&self) -> EventView {
        EventView {
            time: self.time,
            self_id: self.self_id,
            post_type: self.post_type@,
            notice_type: option_text(self.notice_type),
            message_type: option_text(self.message_type),
            sub_type: option_text(self.sub_type),
            message_id: self.message_id,
            user_id: self.user_id,
            operator_id: self.operator_id,
            group_id: self.group_id,
            raw_message: option_text(self.raw_message),
            message: option_view(self.message),
            sender: option_view(self.sender),
            raw: self.raw@,
        }
    }
}

fn copy_option(text: &Option<String>) -> (r: Option<String>)
    ensures
        option_text(r) == option_text(*text),
{
    match text {
        Some(t) => Some(t.clone()),
        None => None,
    }
}

fn copy_json(json: &Option<Json>) -> (r: Option<Json>)
    ensures
        option_view(r) == option_view(*json),
{
    match json {
        Some(j) => Some(j.clone()),
        None => None,
    }
}

impl Clone for OneBotEvent {
    fn clone(&self) -> (r: OneBotEvent)
        ensures
            r@ == self@,
    {
        OneBotEvent {
            time: self.time,
            self_id: self.self_id,
            post_type: self.post_type.clone(),
            notice_type: copy_option(&self.notice_type),
            message_type: copy_option(&self.message_type),
            sub_type: copy_option(&self.sub_type),
            message_id: self.message_id,
            user_id: self.user_id,
            operator_id: self.operator_id,
            group_id: self.group_id,
            raw_message: copy_option(&self.raw_message),
            message: copy_json(&self.message),
            sender: copy_json(&self.sender),
            raw: self.raw.clone(),
        }
    }
}

/// A request for an action, with a tag that its response repeats.
#[derive(Debug)]
pub struct OneBotAction {
    pub action: String,
    pub params: Json,
    pub echo: String,
}

/// What an action is.
pub struct ActionView {
    pub action: Seq<char>,
    pub params: JsonView,
    pub echo: Seq<char>,
}

impl View for OneBotAction {
    type V = ActionView;

    open spec fn view(&self) -> ActionView {
        ActionView { action: self.action@, params: self.params@, echo: self.echo@ }
    }
}

/// The response to an action.
#[derive(Debug)]
pub struct OneBotActionResponse {
    pub status: String,
    pub retcode: i64,
    pub data: Option<Json>,
    pub message: Option<String>,
    pub wording: Option<String>,
    pub echo: Option<String>,
    /// The whole response as it came.
    pub raw: Json,
}

/// What a response is.
pub struct ResponseView {
    pub status: Seq<char>,
    pub retcode: i64,
    pub data: Option<JsonView>,
    pub message: Option<Seq<char>>,
    pub wording: Option<Seq<char>>,
    pub echo: Option<Seq<char>>,
    pub raw: JsonView,
}

impl View for OneBotActionResponse {
    type V = ResponseView;

    open spec fn view(&self) -> ResponseView {
        ResponseView {
            status: self.status@,
            retcode: self.retcode,
            data: option_view(self.data),
            message: option_text(self.message),
            wording: option_text(self.wording),
            echo: option_text(self.echo),
            raw: self.raw@,
        }
    }
}

/// Whether a response reports success.
pub open spec fn is_success(response: ResponseView) -> bool {
    response.status == "ok"@ && response.retcode == 0
}

/// Whether a response reports that the action goes on in the background.
pub open spec fn is_async_accepted(response: ResponseView) -> bool {
    response.retcode == 1 || same_ignoring_case(response.status, "async"@)
}

impl OneBotActionResponse {
    /// Whether the response reports success.
    pub fn success(&self) -> (r: bool)
        ensures
            r == is_success(self@),
    {
        same(self.status.as_str(), "ok") && self.retcode == 0
    }

    /// Whether the response reports that the action goes on in the background.
    pub fn async_accepted(&self) -> (r: bool)
        ensures
            r == is_async_accepted(self@),
    {
        self.retcode == 1 || equal_ignoring_case(self.status.as_str(), "async")
    }
}

/// What a received payload turned out to be.
#[derive(Debug)]
pub enum ParsedPayload {
    Event(OneBotEvent),
    Action(OneBotAction),
    Response(OneBotActionResponse),
}

/// What a payload is.
pub enum PayloadView {
    Event(EventView),
    Action(ActionView),
    Response(ResponseView),
}

impl View for ParsedPayload {
    type V = PayloadView;

    open spec fn view(&self) -> PayloadView {
        match self {
            ParsedPayload::Event(event) => PayloadView::Event(event@),
            ParsedPayload::Action(action) => PayloadView::Action(action@),
            ParsedPayload::Response(response) => PayloadView::Response(response@),
        }
    }
}

/// The view of a payload that may be missing.
pub open spec fn payload_view(payload: Option<ParsedPayload>) -> Option<PayloadView> {
    match payload {
        Some(p) => Some(p@),
        None => None,
    }
}

} // verus!
