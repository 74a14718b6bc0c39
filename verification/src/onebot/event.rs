//! Events by kind, with what plugins read of them.
use crate::json::{field, option_text, text_of, Json, JsonView};
use crate::onebot::model::{EventView, OneBotEvent};
use crate::text::{
    decimal, equal_ignoring_case, i64_text, i64_value, lower, owned, parse_i64, same,
    same_ignoring_case, to_lower, trim, trim_spec,
};
use vstd::prelude::*;
use vstd::string::StringExecFns;

verus! {

// ---------------------------------------------------------------------------
// kinds

/// The kind of an event.
#[derive(Clone, Copy, Debug, PartialEq, Eq, Structural)]
pub enum EventKind {
    Message,
    Notice,
    Request,
    Meta,
}

/// The kind that an event's `post_type` names.
pub open spec fn kind_named(post_type: Seq<char>) -> Option<EventKind> {
    if post_type == "message"@ {
        Some(EventKind::Message)
    } else if post_type == "notice"@ {
        Some(EventKind::Notice)
    } else if post_type == "request"@ {
        Some(EventKind::Request)
    } else if post_type == "meta_event"@ || post_type == "meta"@ {
        Some(EventKind::Meta)
    } else {
        None
    }
}

/// The name shown for a kind.
pub open spec fn kind_name(kind: EventKind) -> Seq<char> {
    match kind {
        EventKind::Message => "消息"@,
        EventKind::Notice => "通知"@,
        EventKind::Request => "请求"@,
        EventKind::Meta => "元事件"@,
    }
}

impl EventKind {
    /// The kind that an event's `post_type` names.
    pub fn from_post_type(post_type: &str) -> (r: Option<EventKind>)
        ensures
            r == kind_named(post_type@),
    {
        if same(post_type, "message") {
            Some(EventKind::Message)
        } else if same(post_type, "notice") {
            Some(EventKind::Notice)
        } else if same(post_type, "request") {
            Some(EventKind::Request)
        } else if same(post_type, "meta_event") || same(post_type, "meta") {
            Some(EventKind::Meta)
        } else {
            None
        }
    }

    /// The name shown for the kind.
    pub fn display_name(self) -> (r: &'static str)
        ensures
            r@ == kind_name(self),
    {
        match self {
            EventKind::Message => "消息",
            EventKind::Notice => "通知",
            EventKind::Request => "请求",
            EventKind::Meta => "元事件",
        }
    }
}

/// The kind of a notice.
#[derive(Clone, Copy, Debug, PartialEq, Eq, Structural)]
pub enum NoticeKind {
    FileUpload,
    GroupDecrease,
    GroupIncrease,
    GroupAdmin,
    GroupBan,
    GroupRecall,
    Poke,
    Nudge,
    GroupCardUpdate,
    GroupTitleUpdate,
    Notify,
    Other,
}

/// The kind of a `notify` notice, by its action.
pub open spec fn notify_kind(action: Seq<char>) -> NoticeKind {
    if action == "poke"@ || action == "is_self_poke"@ {
        NoticeKind::Poke
    } else if action == "nudge"@ {
        NoticeKind::Nudge
    } else if action == "card"@ || action == "group_card"@ {
        NoticeKind::GroupCardUpdate
    } else if action == "title"@ || action == "group_title"@ || action == "honor"@ {
        NoticeKind::GroupTitleUpdate
    } else {
        NoticeKind::Notify
    }
}

/// The kind of a notice, by its type and, for `notify`, its action.
pub open spec fn notice_named(notice_type: Seq<char>, action: Seq<char>) -> NoticeKind {
    if notice_type == "group_upload"@ {
        NoticeKind::FileUpload
    } else if notice_type == "group_decrease"@ {
        NoticeKind::GroupDecrease
    } else if notice_type == "group_increase"@ {
        NoticeKind::GroupIncrease
    } else if notice_type == "group_admin"@ {
        NoticeKind::GroupAdmin
    } else if notice_type == "group_ban"@ {
        NoticeKind::GroupBan
    } else if notice_type == "group_recall"@ {
        NoticeKind::GroupRecall
    } else if notice_type == "poke"@ {
        NoticeKind::Poke
    } else if notice_type == "nudge"@ {
        NoticeKind::Nudge
    } else if notice_type == "group_card"@ || notice_type == "group_card_update"@ {
        NoticeKind::GroupCardUpdate
    } else if notice_type == "group_title"@ || notice_type == "group_title_update"@ {
        NoticeKind::GroupTitleUpdate
    } else if notice_type == "notify"@ || notice_type == "friend_notify"@ {
        notify_kind(lower(trim_spec(action)))
    } else {
        NoticeKind::Other
    }
}

/// The name shown for a notice.
pub open spec fn notice_name(kind: NoticeKind) -> Seq<char> {
    match kind {
        NoticeKind::FileUpload => "群文件上传"@,
        NoticeKind::GroupDecrease => "成员退群"@,
        NoticeKind::GroupIncrease => "成员进群"@,
        NoticeKind::GroupAdmin => "管理员变更"@,
        NoticeKind::GroupBan => "禁言"@,
        NoticeKind::GroupRecall => "群消息撤回"@,
        NoticeKind::Poke => "戳一戳"@,
        NoticeKind::Nudge => "戳一戳（nudge）"@,
        NoticeKind::GroupCardUpdate => "群名片变更"@,
        NoticeKind::GroupTitleUpdate => "群头衔变更"@,
        NoticeKind::Notify => "通知"@,
        NoticeKind::Other => "其他通知"@,
    }
}

impl NoticeKind {
    /// The kind of a notice, by its type alone.
    pub fn parse(value: &str) -> (r: NoticeKind)
        ensures
            r == notice_named(value@, ""@),
    {
        NoticeKind::parse_with_action(value, "")
    }

    /// The kind of a notice, by its type and action.
    pub fn parse_with_action(notice_type: &str, action: &str) -> (r: NoticeKind)
        ensures
            r == notice_named(notice_type@, action@),
    {
        if same(notice_type, "group_upload") {
            NoticeKind::FileUpload
        } else if same(notice_type, "group_decrease") {
            NoticeKind::GroupDecrease
        } else if same(notice_type, "group_increase") {
            NoticeKind::GroupIncrease
        } else if same(notice_type, "group_admin") {
            NoticeKind::GroupAdmin
        } else if same(notice_type, "group_ban") {
            NoticeKind::GroupBan
        } else if same(notice_type, "group_recall") {
            NoticeKind::GroupRecall
        } else if same(notice_type, "poke") {
            NoticeKind::Poke
        } else if same(notice_type, "nudge") {
            NoticeKind::Nudge
        } else if same(notice_type, "group_card") || same(notice_type, "group_card_update") {
            NoticeKind::GroupCardUpdate
        } else if same(notice_type, "group_title") || same(notice_type, "group_title_update") {
            NoticeKind::GroupTitleUpdate
        } else if same(notice_type, "notify") || same(notice_type, "friend_notify") {
            let action = to_lower(trim(action).as_str());
            let action = action.as_str();
            if same(action, "poke") || same(action, "is_self_poke") {
                NoticeKind::Poke
            } else if same(action, "nudge") {
                NoticeKind::Nudge
            } else if same(action, "card") || same(action, "group_card") {
                NoticeKind::GroupCardUpdate
            } else if same(action, "title") || same(action, "group_title") || same(
                action,
                "honor",
            ) {
                NoticeKind::GroupTitleUpdate
            } else {
                NoticeKind::Notify
            }
        } else {
            NoticeKind::Other
        }
    }

    /// The name shown for the notice.
    pub fn display_name(self) -> (r: &'static str)
        ensures
            r@ == notice_name(self),
    {
        match self {
            NoticeKind::FileUpload => "群文件上传",
            NoticeKind::GroupDecrease => "成员退群",
            NoticeKind::GroupIncrease => "成员进群",
            NoticeKind::GroupAdmin => "管理员变更",
            NoticeKind::GroupBan => "禁言",
            NoticeKind::GroupRecall => "群消息撤回",
            NoticeKind::Poke => "戳一戳",
            NoticeKind::Nudge => "戳一戳（nudge）",
            NoticeKind::GroupCardUpdate => "群名片变更",
            NoticeKind::GroupTitleUpdate => "群头衔变更",
            NoticeKind::Notify => "通知",
            NoticeKind::Other => "其他通知",
        }
    }
}

/// The kind of a request.
#[derive(Clone, Copy, Debug, PartialEq, Eq, Structural)]
pub enum RequestKind {
    Friend,
    /// A user applies to join a group.
    AddGroup,
    /// The bot is invited to a group.
    InviteGroup,
    Other,
}

/// The kind of a request, by its type and the way it came.
pub open spec fn request_named(request_type: Seq<char>, via: Seq<char>) -> RequestKind {
    let way = lower(trim_spec(via));
    if request_type == "friend"@ {
        RequestKind::Friend
    } else if request_type == "group"@ || request_type == "add_group"@ {
        if way == "invite"@ || way == "invited"@ || way == "be_invite"@ {
            RequestKind::InviteGroup
        } else {
            RequestKind::AddGroup
        }
    } else {
        RequestKind::Other
    }
}

/// The name shown for a request.
pub open spec fn request_name(kind: RequestKind) -> Seq<char> {
    match kind {
        RequestKind::Friend => "好友申请"@,
        RequestKind::AddGroup => "加群申请"@,
        RequestKind::InviteGroup => "群邀请"@,
        RequestKind::Other => "其他申请"@,
    }
}

impl RequestKind {
    /// The kind of a request, by its type alone.
    pub fn parse(value: &str) -> (r: RequestKind)
        ensures
            r == request_named(value@, ""@),
    {
        RequestKind::parse_with_via(value, "")
    }

    /// The kind of a request, by its type and the way it came.
    pub fn parse_with_via(request_type: &str, via: &str) -> (r: RequestKind)
        ensures
            r == request_named(request_type@, via@),
    {
        let way = to_lower(trim(via).as_str());
        let way = way.as_str();
        if same(request_type, "friend") {
            RequestKind::Friend
        } else if same(request_type, "group") || same(request_type, "add_group") {
            if same(way, "invite") || same(way, "invited") || same(way, "be_invite") {
                RequestKind::InviteGroup
            } else {
                RequestKind::AddGroup
            }
        } else {
            RequestKind::Other
        }
    }

    /// The name shown for the request.
    pub fn display_name(self) -> (r: &'static str)
        ensures
            r@ == request_name(self),
    {
        match self {
            RequestKind::Friend => "好友申请",
            RequestKind::AddGroup => "加群申请",
            RequestKind::InviteGroup => "群邀请",
            RequestKind::Other => "其他申请",
        }
    }
}

/// The kind of a meta event.
#[derive(Clone, Copy, Debug, PartialEq, Eq, Structural)]
pub enum MetaKind {
    Heartbeat,
    Lifecycle,
    Other,
}

/// The kind of a meta event, by its type.
pub open spec fn meta_named(value: Seq<char>) -> MetaKind {
    if value == "heartbeat"@ {
        MetaKind::Heartbeat
    } else if value == "lifecycle"@ {
        MetaKind::Lifecycle
    } else {
        MetaKind::Other
    }
}

/// The name shown for a meta event.
pub open spec fn meta_name(kind: MetaKind) -> Seq<char> {
    match kind {
        MetaKind::Heartbeat => "心跳"@,
        MetaKind::Lifecycle => "生命周期"@,
        MetaKind::Other => "其他元事件"@,
    }
}

impl MetaKind {
    /// The kind of a meta event, by its type.
    pub fn parse(value: &str) -> (r: MetaKind)
        ensures
            r == meta_named(value@),
    {
        if same(value, "heartbeat") {
            MetaKind::Heartbeat
        } else if same(value, "lifecycle") {
            MetaKind::Lifecycle
        } else {
            MetaKind::Other
        }
    }

    /// The name shown for the meta event.
    pub fn display_name(self) -> (r: &'static str)
        ensures
            r@ == meta_name(self),
    {
        match self {
            MetaKind::Heartbeat => "心跳",
            MetaKind::Lifecycle => "生命周期",
            MetaKind::Other => "其他元事件",
        }
    }
}

// ---------------------------------------------------------------------------
// fields of the raw event

/// One detail of a raw event: a text, or an integer in decimal form, trimmed. The
/// word `unknown` counts as nothing.
pub open spec fn detail_at(raw: JsonView, key: Seq<char>) -> Seq<char> {
    let value = match field(raw, key) {
        Some(JsonView::Text(t)) => trim_spec(t),
        Some(JsonView::Number(n)) => match i64_value(n) {
            Some(n) => trim_spec(decimal(n as int)),
            None => Seq::empty(),
        },
        _ => Seq::empty(),
    };
    if same_ignoring_case(value, "unknown"@) {
        Seq::empty()
    } else {
        value
    }
}

/// The first of two details that says something.
pub open spec fn detail_of(raw: JsonView, first: Seq<char>, second: Seq<char>) -> Seq<char> {
    if detail_at(raw, first).len() > 0 {
        detail_at(raw, first)
    } else {
        detail_at(raw, second)
    }
}

/// A text that says something.
pub open spec fn if_any(text: Seq<char>) -> Option<Seq<char>> {
    if text.len() > 0 {
        Some(text)
    } else {
        None
    }
}

/// The integer of a raw field that is a number, or a text around one.
pub open spec fn raw_int(raw: JsonView, key: Seq<char>) -> Option<i64> {
    match field(raw, key) {
        Some(JsonView::Number(n)) => i64_value(n),
        Some(JsonView::Text(t)) => i64_value(trim_spec(t)),
        _ => None,
    }
}

/// The text of a raw field, empty where there is none.
pub open spec fn raw_text(raw: JsonView, key: Seq<char>) -> Seq<char> {
    match text_of(field(raw, key)) {
        Some(t) => t,
        None => Seq::empty(),
    }
}

/// The trimmed text of a raw field that says something.
pub open spec fn trimmed_text(raw: JsonView, key: Seq<char>) -> Option<Seq<char>> {
    match text_of(field(raw, key)) {
        Some(t) => if_any(trim_spec(t)),
        None => None,
    }
}

fn find_detail(raw: &Json, key: &str) -> (r: String)
    ensures
        r@ == detail_at(raw@, key@),
{
    let value = match raw.get(key) {
        Some(Json::Text(t)) => trim(t.as_str()),
        Some(Json::Number(n)) => match parse_i64(n.as_str()) {
            Some(n) => trim(i64_text(n).as_str()),
            None => String::new(),
        },
        _ => String::new(),
    };
    if equal_ignoring_case(value.as_str(), "unknown") {
        String::new()
    } else {
        value
    }
}

fn find_first_detail(raw: &Json, first: &str, second: &str) -> (r: String)
    ensures
        r@ == detail_of(raw@, first@, second@),
{
    let value = find_detail(raw, first);
    if !value.as_str().is_empty() {
        value
    } else {
        find_detail(raw, second)
    }
}

fn any_text(text: String) -> (r: Option<String>)
    ensures
        option_text(r) == if_any(text@),
{
    if text.as_str().is_empty() {
        None
    } else {
        Some(text)
    }
}

fn find_raw_int(raw: &Json, key: &str) -> (r: Option<i64>)
    ensures
        r == raw_int(raw@, key@),
{
    match raw.get(key) {
        Some(Json::Number(n)) => parse_i64(n.as_str()),
        Some(Json::Text(t)) => parse_i64(trim(t.as_str()).as_str()),
        _ => None,
    }
}

fn find_raw_text(raw: &Json, key: &str) -> (r: String)
    ensures
        r@ == raw_text(raw@, key@),
{
    match raw.get_text(key) {
        Some(t) => t,
        None => String::new(),
    }
}

fn find_trimmed_text(raw: &Json, key: &str) -> (r: Option<String>)
    ensures
        option_text(r) == trimmed_text(raw@, key@),
{
    match raw.get_text(key) {
        Some(t) => any_text(trim(t.as_str())),
        None => None,
    }
}

// ---------------------------------------------------------------------------
// bodies

/// The details of a notice.
#[derive(Debug, PartialEq)]
pub struct NoticeInfo {
    /// What happened, within the kind.
    pub action: Option<String>,
    /// Who did it.
    pub operator_id: Option<i64>,
    /// To whom.
    pub target_id: Option<i64>,
    /// For how many seconds.
    pub duration: Option<i64>,
}

/// The details of a request.
#[derive(Debug, PartialEq)]
pub struct RequestInfo {
    /// What an answer has to repeat.
    pub flag: Option<String>,
    /// What the applicant says.
    pub comment: Option<String>,
    /// The way the request came.
    pub via: Option<String>,
}

/// What an event is about.
#[derive(Debug, PartialEq)]
pub enum EventBody {
    GroupMessage { sub_type: Option<String> },
    PrivateMessage { sub_type: Option<String> },
    Notice(NoticeKind, NoticeInfo),
    Request(RequestKind, RequestInfo),
    Meta(MetaKind),
    Other { post_type: String, sub_type: Option<String> },
}

/// The details of a notice, over mathematical sequences.
pub struct NoticeInfoView {
    pub action: Option<Seq<char>>,
    pub operator_id: Option<i64>,
    pub target_id: Option<i64>,
    pub duration: Option<i64>,
}

/// The details of a request, over mathematical sequences.
pub struct RequestInfoView {
    pub flag: Option<Seq<char>>,
    pub comment: Option<Seq<char>>,
    pub via: Option<Seq<char>>,
}

/// What an event is about, over mathematical sequences.
pub enum EventBodyView {
    GroupMessage { sub_type: Option<Seq<char>> },
    PrivateMessage { sub_type: Option<Seq<char>> },
    Notice(NoticeKind, NoticeInfoView),
    Request(RequestKind, RequestInfoView),
    Meta(MetaKind),
    Other { post_type: Seq<char>, sub_type: Option<Seq<char>> },
}

impl View for NoticeInfo {
    type V = NoticeInfoView;

    open spec fn view(&self) -> NoticeInfoView {
        NoticeInfoView {
            action: option_text(self.action),
            operator_id: self.operator_id,
            target_id: self.target_id,
            duration: self.duration,
        }
    }
}

impl View for RequestInfo {
    type V = RequestInfoView;

    open spec fn view(&self) -> RequestInfoView {
        RequestInfoView {
            flag: option_text(self.flag),
            comment: option_text(self.comment),
            via: option_text(self.via),
        }
    }
}

impl View for EventBody {
    type V = EventBodyView;

    open spec fn view(&self) -> EventBodyView {
        match self {
            EventBody::GroupMessage { sub_type } => EventBodyView::GroupMessage {
                sub_type: option_text(*sub_type),
            },
            EventBody::PrivateMessage { sub_type } => EventBodyView::PrivateMessage {
                sub_type: option_text(*sub_type),
            },
            EventBody::Notice(kind, info) => EventBodyView::Notice(*kind, info@),
            EventBody::Request(kind, info) => EventBodyView::Request(*kind, info@),
            EventBody::Meta(kind) => EventBodyView::Meta(*kind),
            EventBody::Other { post_type, sub_type } => EventBodyView::Other {
                post_type: post_type@,
                sub_type: option_text(*sub_type),
            },
        }
    }
}

/// What an event is about.
pub open spec fn body_of(event: EventView) -> EventBodyView {
    let sub_type = if_any(detail_at(event.raw, "sub_type"@));
    let action = detail_of(event.raw, "sub_type"@, "type"@);
    match kind_named(event.post_type) {
        Some(EventKind::Message) => if event.message_type == Some("group"@)
            || event.group_id is Some {
            EventBodyView::GroupMessage { sub_type }
        } else {
            EventBodyView::PrivateMessage { sub_type }
        },
        Some(EventKind::Notice) => EventBodyView::Notice(
            notice_named(
                match event.notice_type {
                    Some(t) => t,
                    None => Seq::empty(),
                },
                action,
            ),
            NoticeInfoView {
                action: if_any(action),
                operator_id: match event.operator_id {
                    Some(id) => Some(id),
                    None => raw_int(event.raw, "operator_id"@),
                },
                target_id: raw_int(event.raw, "target_id"@),
                duration: raw_int(event.raw, "duration"@),
            },
        ),
        Some(EventKind::Request) => EventBodyView::Request(
            request_named(raw_text(event.raw, "request_type"@), action),
            RequestInfoView {
                flag: trimmed_text(event.raw, "flag"@),
                comment: match trimmed_text(event.raw, "comment"@) {
                    Some(t) => Some(t),
                    None => trimmed_text(event.raw, "message"@),
                },
                via: if_any(action),
            },
        ),
        Some(EventKind::Meta) => EventBodyView::Meta(
            meta_named(raw_text(event.raw, "meta_event_type"@)),
        ),
        None => EventBodyView::Other { post_type: event.post_type, sub_type },
    }
}

/// The kind of what an event is about.
pub open spec fn body_kind(body: EventBodyView) -> Option<EventKind> {
    match body {
        EventBodyView::GroupMessage { .. } => Some(EventKind::Message),
        EventBodyView::PrivateMessage { .. } => Some(EventKind::Message),
        EventBodyView::Notice(..) => Some(EventKind::Notice),
        EventBodyView::Request(..) => Some(EventKind::Request),
        EventBodyView::Meta(_) => Some(EventKind::Meta),
        EventBodyView::Other { .. } => None,
    }
}

/// A name, and in brackets a detail where there is one.
pub open spec fn name_with(
    prefix: Seq<char>,
    name: Seq<char>,
    detail: Option<Seq<char>>,
) -> Seq<char> {
    match detail {
        Some(detail) => prefix + name + "("@ + detail + ")"@,
        None => prefix + name,
    }
}

/// The name shown for what an event is about.
pub open spec fn body_name(body: EventBodyView) -> Seq<char> {
    match body {
        EventBodyView::GroupMessage { .. } => "群消息"@,
        EventBodyView::PrivateMessage { .. } => "私聊消息"@,
        EventBodyView::Notice(kind, info) => name_with("通知:"@, notice_name(kind), info.action),
        EventBodyView::Request(kind, info) => name_with("申请:"@, request_name(kind), info.via),
        EventBodyView::Meta(kind) => "元事件:"@ + meta_name(kind),
        EventBodyView::Other { post_type, .. } => "其他:"@ + post_type,
    }
}

pub(crate) fn join_name(prefix: &str, name: &str, detail: &Option<String>) -> (r: String)
    ensures
        r@ == name_with(prefix@, name@, option_text(*detail)),
{
    let mut out = owned(prefix);
    out.append(name);
    if let Some(detail) = detail {
        out.append("(");
        out.append(detail.as_str());
        out.append(")");
    }
    out
}

impl EventBody {
    /// Tells what an event is about.
    pub fn from_event(event: &OneBotEvent) -> (r: EventBody)
        ensures
            r@ == body_of(event@),
    {
        let sub_type = any_text(find_detail(&event.raw, "sub_type"));
        match EventKind::from_post_type(event.post_type.as_str()) {
            Some(EventKind::Message) => {
                let named = match &event.message_type {
                    Some(t) => same(t.as_str(), "group"),
                    None => false,
                };
                if named || event.group_id.is_some() {
                    EventBody::GroupMessage { sub_type }
                } else {
                    EventBody::PrivateMessage { sub_type }
                }
            },
            Some(EventKind::Notice) => {
                let action = find_first_detail(&event.raw, "sub_type", "type");
                proof {
                    reveal_strlit("");
                    assert(""@ =~= Seq::<char>::empty());
                }
                let kind = match &event.notice_type {
                    Some(t) => NoticeKind::parse_with_action(t.as_str(), action.as_str()),
                    None => NoticeKind::parse_with_action("", action.as_str()),
                };
                let operator_id = match event.operator_id {
                    Some(id) => Some(id),
                    None => find_raw_int(&event.raw, "operator_id"),
                };
                EventBody::Notice(
                    kind,
                    NoticeInfo {
                        action: any_text(action),
                        operator_id,
                        target_id: find_raw_int(&event.raw, "target_id"),
                        duration: find_raw_int(&event.raw, "duration"),
                    },
                )
            },
            Some(EventKind::Request) => {
                let via = find_first_detail(&event.raw, "sub_type", "type");
                let request_type = find_raw_text(&event.raw, "request_type");
                let kind = RequestKind::parse_with_via(request_type.as_str(), via.as_str());
                let comment = match find_trimmed_text(&event.raw, "comment") {
                    Some(t) => Some(t),
                    None => find_trimmed_text(&event.raw, "message"),
                };
                EventBody::Request(
                    kind,
                    RequestInfo {
                        flag: find_trimmed_text(&event.raw, "flag"),
                        comment,
                        via: any_text(via),
                    },
                )
            },
            Some(EventKind::Meta) => EventBody::Meta(
                MetaKind::parse(find_raw_text(&event.raw, "meta_event_type").as_str()),
            ),
            None => EventBody::Other { post_type: event.post_type.clone(), sub_type },
        }
    }

    /// The kind of the event.
    pub fn kind(&self) -> (r: Option<EventKind>)
        ensures
            r == body_kind(self@),
    {
        match self {
            EventBody::GroupMessage { .. } => Some(EventKind::Message),
            EventBody::PrivateMessage { .. } => Some(EventKind::Message),
            EventBody::Notice(_, _) => Some(EventKind::Notice),
            EventBody::Request(_, _) => Some(EventKind::Request),
            EventBody::Meta(_) => Some(EventKind::Meta),
            EventBody::Other { .. } => None,
        }
    }

    /// The kind of the notice, where it is one.
    pub fn notice_kind(&self) -> (r: Option<NoticeKind>)
        ensures
            r == match self@ {
                EventBodyView::Notice(kind, _) => Some(kind),
                _ => None,
            },
    {
        match self {
            EventBody::Notice(kind, _) => Some(*kind),
            _ => None,
        }
    }

    /// The kind of the request, where it is one.
    pub fn request_kind(&self) -> (r: Option<RequestKind>)
        ensures
            r == match self@ {
                EventBodyView::Request(kind, _) => Some(kind),
                _ => None,
            },
    {
        match self {
            EventBody::Request(kind, _) => Some(*kind),
            _ => None,
        }
    }

    /// The name shown for what the event is about.
    pub fn display_name(&self) -> (r: String)
        ensures
            r@ == body_name(self@),
    {
        match self {
            EventBody::GroupMessage { .. } => owned("群消息"),
            EventBody::PrivateMessage { .. } => owned("私聊消息"),
            EventBody::Notice(kind, info) => join_name("通知:", kind.display_name(), &info.action),
            EventBody::Request(kind, info) => join_name("申请:", kind.display_name(), &info.via),
            EventBody::Meta(kind) => join_name("元事件:", kind.display_name(), &None),
            EventBody::Other { post_type, .. } => join_name("其他:", post_type.as_str(), &None),
        }
    }
}

// ---------------------------------------------------------------------------
// filters

/// Which events a listener wants.
#[derive(Debug, PartialEq)]
pub enum BodyFilter {
    All,
    Kind(EventKind),
    GroupMessage,
    PrivateMessage,
    Notice(NoticeKind),
    /// Notices of a kind with a certain action.
    NoticeAction(NoticeKind, String),
    Request(RequestKind),
    Meta(MetaKind),
}

/// Which events a listener wants, over mathematical sequences.
pub enum BodyFilterView {
    All,
    Kind(EventKind),
    GroupMessage,
    PrivateMessage,
    Notice(NoticeKind),
    NoticeAction(NoticeKind, Seq<char>),
    Request(RequestKind),
    Meta(MetaKind),
}

impl View for BodyFilter {
    type V = BodyFilterView;

    open spec fn view(&self) -> BodyFilterView {
        match self {
            BodyFilter::All => BodyFilterView::All,
            BodyFilter::Kind(kind) => BodyFilterView::Kind(*kind),
            BodyFilter::GroupMessage => BodyFilterView::GroupMessage,
            BodyFilter::PrivateMessage => BodyFilterView::PrivateMessage,
            BodyFilter::Notice(kind) => BodyFilterView::Notice(*kind),
            BodyFilter::NoticeAction(kind, action) => BodyFilterView::NoticeAction(*kind, action@),
            BodyFilter::Request(kind) => BodyFilterView::Request(*kind),
            BodyFilter::Meta(kind) => BodyFilterView::Meta(*kind),
        }
    }
}

/// Whether a filter lets an event through.
pub open spec fn filter_matches(filter: BodyFilterView, body: EventBodyView) -> bool {
    match filter {
        BodyFilterView::All => true,
        BodyFilterView::Kind(kind) => body_kind(body) == Some(kind),
        BodyFilterView::GroupMessage => body is GroupMessage,
        BodyFilterView::PrivateMessage => body is PrivateMessage,
        BodyFilterView::Notice(kind) => body is Notice && body->Notice_0 == kind,
        BodyFilterView::NoticeAction(kind, action) => body is Notice && body->Notice_0 == kind && (
        match body->Notice_1.action {
            Some(found) => same_ignoring_case(found, action),
            None => false,
        }),
        BodyFilterView::Request(kind) => body is Request && body->Request_0 == kind,
        BodyFilterView::Meta(kind) => body == EventBodyView::Meta(kind),
    }
}

/// The name shown for a filter.
pub open spec fn filter_name(filter: BodyFilterView) -> Seq<char> {
    match filter {
        BodyFilterView::All => "全部事件"@,
        BodyFilterView::Kind(kind) => kind_name(kind),
        BodyFilterView::GroupMessage => "群消息"@,
        BodyFilterView::PrivateMessage => "私聊消息"@,
        BodyFilterView::Notice(kind) => "通知:"@ + notice_name(kind),
        BodyFilterView::NoticeAction(kind, action) => name_with(
            "通知:"@,
            notice_name(kind),
            Some(action),
        ),
        BodyFilterView::Request(kind) => "申请:"@ + request_name(kind),
        BodyFilterView::Meta(kind) => "元事件:"@ + meta_name(kind),
    }
}

impl BodyFilter {
    /// Notices of a kind; where an action is given, only those with it.
    pub fn notice(kind: NoticeKind, action: &str) -> (r: BodyFilter)
        ensures
            r@ == if action@.len() == 0 {
                BodyFilterView::Notice(kind)
            } else {
                BodyFilterView::NoticeAction(kind, lower(trim_spec(action@)))
            },
    {
        if action.is_empty() {
            return BodyFilter::Notice(kind);
        }
        BodyFilter::NoticeAction(kind, to_lower(trim(action).as_str()))
    }

    /// Whether the filter lets an event through.
    pub fn matches(&self, body: &EventBody) -> (r: bool)
        ensures
            r == filter_matches(self@, body@),
    {
        match self {
            BodyFilter::All => true,
            BodyFilter::Kind(kind) => match body.kind() {
                Some(found) => found == *kind,
                None => false,
            },
            BodyFilter::GroupMessage => match body {
                EventBody::GroupMessage { .. } => true,
                _ => false,
            },
            BodyFilter::PrivateMessage => match body {
                EventBody::PrivateMessage { .. } => true,
                _ => false,
            },
            BodyFilter::Notice(kind) => match body {
                EventBody::Notice(found, _) => *found == *kind,
                _ => false,
            },
            BodyFilter::NoticeAction(kind, action) => match body {
                EventBody::Notice(found, info) => *found == *kind && match &info.action {
                    Some(found_action) => equal_ignoring_case(
                        found_action.as_str(),
                        action.as_str(),
                    ),
                    None => false,
                },
                _ => false,
            },
            BodyFilter::Request(kind) => match body {
                EventBody::Request(found, _) => *found == *kind,
                _ => false,
            },
            BodyFilter::Meta(kind) => match body {
                EventBody::Meta(found) => *found == *kind,
                _ => false,
            },
        }
    }

    /// The name shown for the filter.
    pub fn display_name(&self) -> (r: String)
        ensures
            r@ == filter_name(self@),
    {
        match self {
            BodyFilter::All => owned("全部事件"),
            BodyFilter::Kind(kind) => owned(kind.display_name()),
            BodyFilter::GroupMessage => owned("群消息"),
            BodyFilter::PrivateMessage => owned("私聊消息"),
            BodyFilter::Notice(kind) => join_name("通知:", kind.display_name(), &None),
            BodyFilter::NoticeAction(kind, action) => {
                let mut out = owned("通知:");
                out.append(kind.display_name());
                out.append("(");
                out.append(action.as_str());
                out.append(")");
                out
            },
            BodyFilter::Request(kind) => join_name("申请:", kind.display_name(), &None),
            BodyFilter::Meta(kind) => join_name("元事件:", kind.display_name(), &None),
        }
    }
}

/// A filter on notices with an action lets through only what the filter on the
/// whole kind lets through.
pub proof fn law_action_filter_is_narrower(
    kind: NoticeKind,
    action: Seq<char>,
    body: EventBodyView,
)
    requires
        filter_matches(BodyFilterView::NoticeAction(kind, action), body),
    ensures
        filter_matches(BodyFilterView::Notice(kind), body),
        filter_matches(BodyFilterView::Kind(EventKind::Notice), body),
{
}

/// The kind of what an event is about is the kind that its `post_type` names.
pub proof fn law_body_has_the_kind_of_its_event(event: EventView)
    ensures
        body_kind(body_of(event)) == kind_named(event.post_type),
{
}

/// An invitation to a group is never taken for an application.
pub proof fn law_invitation_is_no_application(event: EventView)
    requires
        event.post_type == "request"@,
        raw_text(event.raw, "request_type"@) == "group"@,
        lower(trim_spec(detail_of(event.raw, "sub_type"@, "type"@))) == "invite"@,
    ensures
        body_of(event) matches EventBodyView::Request(kind, _) && kind == RequestKind::InviteGroup,
{
    reveal_strlit("request");
    reveal_strlit("message");
    reveal_strlit("notice");
    reveal_strlit("group");
    reveal_strlit("friend");
    assert("request"@[0] == 'r' && "message"@[0] == 'm' && "notice"@[0] == 'n');
    assert("group"@[0] == 'g' && "friend"@[0] == 'f');
}

proof fn lemma_post_types_differ()
    ensures
        "message"@ != "notice"@ && "message"@ != "request"@ && "message"@ != "meta_event"@,
        "notice"@ != "request"@ && "notice"@ != "meta_event"@ && "request"@ != "meta_event"@,
        "meta"@ != "message"@ && "meta"@ != "notice"@ && "meta"@ != "request"@,
{
    reveal_strlit("message");
    reveal_strlit("notice");
    reveal_strlit("request");
    reveal_strlit("meta_event");
    reveal_strlit("meta");
    assert("message"@.len() == 7 && "notice"@.len() == 6 && "request"@.len() == 7);
    assert("meta_event"@.len() == 10 && "meta"@.len() == 4);
    assert("message"@[0] == 'm' && "request"@[0] == 'r');
}

/// A notice of a documented type is of the kind of that type: the filter on that kind
/// lets it through, and a filter on any other kind of notice does not.
pub proof fn law_notice_types_have_their_kinds(event: EventView, kind: NoticeKind)
    requires
        event.post_type == "notice"@,
    ensures
        event.notice_type == Some("group_upload"@) ==> (filter_matches(
            BodyFilterView::Notice(kind),
            body_of(event),
        ) <==> kind == NoticeKind::FileUpload),
        event.notice_type == Some("group_decrease"@) ==> (filter_matches(
            BodyFilterView::Notice(kind),
            body_of(event),
        ) <==> kind == NoticeKind::GroupDecrease),
        event.notice_type == Some("group_increase"@) ==> (filter_matches(
            BodyFilterView::Notice(kind),
            body_of(event),
        ) <==> kind == NoticeKind::GroupIncrease),
        event.notice_type == Some("group_admin"@) ==> (filter_matches(
            BodyFilterView::Notice(kind),
            body_of(event),
        ) <==> kind == NoticeKind::GroupAdmin),
        event.notice_type == Some("group_ban"@) ==> (filter_matches(
            BodyFilterView::Notice(kind),
            body_of(event),
        ) <==> kind == NoticeKind::GroupBan),
        event.notice_type == Some("group_recall"@) ==> (filter_matches(
            BodyFilterView::Notice(kind),
            body_of(event),
        ) <==> kind == NoticeKind::GroupRecall),
        event.notice_type == Some("poke"@) ==> (filter_matches(
            BodyFilterView::Notice(kind),
            body_of(event),
        ) <==> kind == NoticeKind::Poke),
        event.notice_type == Some("nudge"@) ==> (filter_matches(
            BodyFilterView::Notice(kind),
            body_of(event),
        ) <==> kind == NoticeKind::Nudge),
        event.notice_type == Some("group_card"@) ==> (filter_matches(
            BodyFilterView::Notice(kind),
            body_of(event),
        ) <==> kind == NoticeKind::GroupCardUpdate),
        event.notice_type == Some("group_card_update"@) ==> (filter_matches(
            BodyFilterView::Notice(kind),
            body_of(event),
        ) <==> kind == NoticeKind::GroupCardUpdate),
        event.notice_type == Some("group_title"@) ==> (filter_matches(
            BodyFilterView::Notice(kind),
            body_of(event),
        ) <==> kind == NoticeKind::GroupTitleUpdate),
        event.notice_type == Some("group_title_update"@) ==> (filter_matches(
            BodyFilterView::Notice(kind),
            body_of(event),
        ) <==> kind == NoticeKind::GroupTitleUpdate),
        event.notice_type is None ==> (filter_matches(BodyFilterView::Notice(kind), body_of(event))
            <==> kind == NoticeKind::Other),
{
    lemma_post_types_differ();
    reveal_strlit("");
    reveal_strlit("friend_notify");
    reveal_strlit("group_admin");
    reveal_strlit("group_ban");
    reveal_strlit("group_card");
    reveal_strlit("group_card_update");
    reveal_strlit("group_decrease");
    reveal_strlit("group_increase");
    reveal_strlit("group_recall");
    reveal_strlit("group_title");
    reveal_strlit("group_title_update");
    reveal_strlit("group_upload");
    reveal_strlit("notify");
    reveal_strlit("nudge");
    reveal_strlit("poke");
    assert(""@.len() == 0);
    assert("friend_notify"@.len() == 13);
    assert("group_admin"@.len() == 11);
    assert("group_ban"@.len() == 9);
    assert("group_card"@.len() == 10);
    assert("group_card_update"@.len() == 17);
    assert("group_decrease"@.len() == 14);
    assert("group_increase"@.len() == 14);
    assert("group_recall"@.len() == 12);
    assert("group_title"@.len() == 11);
    assert("group_title_update"@.len() == 18);
    assert("group_upload"@.len() == 12);
    assert("notify"@.len() == 6);
    assert("nudge"@.len() == 5);
    assert("poke"@.len() == 4);
    assert("group_upload"@[6] == 'u' && "group_recall"@[6] == 'r');
    assert("group_decrease"@[6] == 'd' && "group_increase"@[6] == 'i');
    assert("group_admin"@[6] == 'a' && "group_title"@[6] == 't');
}

/// A notice that only says that something is up is of the kind of its action: what is
/// done to a member is told apart from what is changed.
pub proof fn law_notified_actions_have_their_kinds(event: EventView, kind: NoticeKind)
    requires
        event.post_type == "notice"@,
        event.notice_type == Some("notify"@) || event.notice_type == Some("friend_notify"@),
    ensures
        ({
            let action = lower(trim_spec(detail_of(event.raw, "sub_type"@, "type"@)));
            let is_kind = filter_matches(BodyFilterView::Notice(kind), body_of(event));
            &&& action == "poke"@ ==> (is_kind <==> kind == NoticeKind::Poke)
            &&& action == "is_self_poke"@ ==> (is_kind <==> kind == NoticeKind::Poke)
            &&& action == "nudge"@ ==> (is_kind <==> kind == NoticeKind::Nudge)
            &&& action == "card"@ ==> (is_kind <==> kind == NoticeKind::GroupCardUpdate)
            &&& action == "group_card"@ ==> (is_kind <==> kind == NoticeKind::GroupCardUpdate)
            &&& action == "title"@ ==> (is_kind <==> kind == NoticeKind::GroupTitleUpdate)
            &&& action == "group_title"@ ==> (is_kind <==> kind == NoticeKind::GroupTitleUpdate)
            &&& action == "honor"@ ==> (is_kind <==> kind == NoticeKind::GroupTitleUpdate)
            &&& action.len() == 0 ==> (is_kind <==> kind == NoticeKind::Notify)
            &&& body_of(event)->Notice_0 != NoticeKind::Other
        }),
{
    lemma_post_types_differ();
    reveal_strlit("card");
    reveal_strlit("friend_notify");
    reveal_strlit("group_admin");
    reveal_strlit("group_ban");
    reveal_strlit("group_card");
    reveal_strlit("group_card_update");
    reveal_strlit("group_decrease");
    reveal_strlit("group_increase");
    reveal_strlit("group_recall");
    reveal_strlit("group_title");
    reveal_strlit("group_title_update");
    reveal_strlit("group_upload");
    reveal_strlit("honor");
    reveal_strlit("is_self_poke");
    reveal_strlit("notify");
    reveal_strlit("nudge");
    reveal_strlit("poke");
    reveal_strlit("title");
    assert("card"@.len() == 4);
    assert("friend_notify"@.len() == 13);
    assert("group_admin"@.len() == 11);
    assert("group_ban"@.len() == 9);
    assert("group_card"@.len() == 10);
    assert("group_card_update"@.len() == 17);
    assert("group_decrease"@.len() == 14);
    assert("group_increase"@.len() == 14);
    assert("group_recall"@.len() == 12);
    assert("group_title"@.len() == 11);
    assert("group_title_update"@.len() == 18);
    assert("group_upload"@.len() == 12);
    assert("honor"@.len() == 5);
    assert("is_self_poke"@.len() == 12);
    assert("notify"@.len() == 6);
    assert("nudge"@.len() == 5);
    assert("poke"@.len() == 4);
    assert("title"@.len() == 5);
    assert("nudge"@[0] == 'n' && "title"@[0] == 't' && "honor"@[0] == 'h');
    assert("poke"@[0] == 'p' && "card"@[0] == 'c');
}

/// A request is of the kind of its type, and an application to join a group is told from
/// an invitation by the way it came.
pub proof fn law_request_types_have_their_kinds(event: EventView, kind: RequestKind)
    requires
        event.post_type == "request"@,
    ensures
        ({
            let named = field(event.raw, "request_type"@);
            let way = lower(trim_spec(detail_of(event.raw, "sub_type"@, "type"@)));
            let invited = way == "invite"@ || way == "invited"@ || way == "be_invite"@;
            let is_kind = filter_matches(BodyFilterView::Request(kind), body_of(event));
            &&& named == Some(JsonView::Text("friend"@)) ==> (is_kind <==> kind
                == RequestKind::Friend)
            &&& (named == Some(JsonView::Text("group"@)) || named == Some(
                JsonView::Text("add_group"@),
            )) && invited ==> (is_kind <==> kind == RequestKind::InviteGroup)
            &&& (named == Some(JsonView::Text("group"@)) || named == Some(
                JsonView::Text("add_group"@),
            )) && !invited ==> (is_kind <==> kind == RequestKind::AddGroup)
            &&& named is None ==> (is_kind <==> kind == RequestKind::Other)
        }),
{
    lemma_post_types_differ();
    reveal_strlit("friend");
    reveal_strlit("group");
    reveal_strlit("add_group");
    assert("friend"@.len() == 6 && "group"@.len() == 5 && "add_group"@.len() == 9);
}

/// A meta event is of the kind of its type, under either name of meta events.
pub proof fn law_meta_types_have_their_kinds(event: EventView, kind: MetaKind)
    requires
        event.post_type == "meta_event"@ || event.post_type == "meta"@,
    ensures
        ({
            let named = field(event.raw, "meta_event_type"@);
            let is_kind = filter_matches(BodyFilterView::Meta(kind), body_of(event));
            &&& named == Some(JsonView::Text("heartbeat"@)) ==> (is_kind <==> kind
                == MetaKind::Heartbeat)
            &&& named == Some(JsonView::Text("lifecycle"@)) ==> (is_kind <==> kind
                == MetaKind::Lifecycle)
            &&& named is None ==> (is_kind <==> kind == MetaKind::Other)
        }),
{
    lemma_post_types_differ();
    reveal_strlit("heartbeat");
    reveal_strlit("lifecycle");
    assert("heartbeat"@.len() == 9 && "lifecycle"@.len() == 9);
    assert("heartbeat"@[0] == 'h' && "lifecycle"@[0] == 'l');
}

/// A filter on a kind of events lets through the events whose `post_type` is of that kind
/// and no others; a message is one in a group or one to the bot alone, never both; and
/// the filter for everything lets everything through.
pub proof fn law_filters_by_kind(event: EventView, kind: EventKind)
    ensures
        ({
            let body = body_of(event);
            let is_kind = filter_matches(BodyFilterView::Kind(kind), body);
            &&& filter_matches(BodyFilterView::All, body)
            &&& event.post_type == "message"@ ==> (is_kind <==> kind == EventKind::Message)
            &&& event.post_type == "notice"@ ==> (is_kind <==> kind == EventKind::Notice)
            &&& event.post_type == "request"@ ==> (is_kind <==> kind == EventKind::Request)
            &&& event.post_type == "meta_event"@ || event.post_type == "meta"@ ==> (is_kind <==> kind
                == EventKind::Meta)
            &&& event.post_type.len() == 0 ==> !is_kind
            &&& event.post_type == "message"@ ==> filter_matches(BodyFilterView::GroupMessage, body)
                != filter_matches(BodyFilterView::PrivateMessage, body)
            &&& event.post_type != "message"@ ==> !filter_matches(BodyFilterView::GroupMessage, body)
                && !filter_matches(BodyFilterView::PrivateMessage, body)
            &&& event.post_type == "message"@ && event.group_id is Some ==> filter_matches(
                BodyFilterView::GroupMessage,
                body,
            )
            &&& event.post_type == "message"@ && event.group_id is None && event.message_type
                == Some("private"@) ==> filter_matches(BodyFilterView::PrivateMessage, body)
        }),
{
    lemma_post_types_differ();
    reveal_strlit("message");
    reveal_strlit("notice");
    reveal_strlit("request");
    reveal_strlit("meta_event");
    reveal_strlit("meta");
    reveal_strlit("group");
    reveal_strlit("private");
    assert("group"@.len() == 5 && "private"@.len() == 7);
}

/// The names that are shown tell the kinds apart.
pub proof fn law_kinds_are_shown_by_different_names(one: NoticeKind, other: NoticeKind)
    ensures
        notice_name(one) == notice_name(other) <==> one == other,
{
    reveal_strlit("群文件上传");
    reveal_strlit("成员退群");
    reveal_strlit("成员进群");
    reveal_strlit("管理员变更");
    reveal_strlit("禁言");
    reveal_strlit("群消息撤回");
    reveal_strlit("戳一戳");
    reveal_strlit("戳一戳（nudge）");
    reveal_strlit("群名片变更");
    reveal_strlit("群头衔变更");
    reveal_strlit("通知");
    reveal_strlit("其他通知");
    assert("群文件上传"@.len() == 5);
    assert("成员退群"@.len() == 4);
    assert("成员进群"@.len() == 4);
    assert("管理员变更"@.len() == 5);
    assert("禁言"@.len() == 2);
    assert("群消息撤回"@.len() == 5);
    assert("戳一戳"@.len() == 3);
    assert("戳一戳（nudge）"@.len() == 10);
    assert("群名片变更"@.len() == 5);
    assert("群头衔变更"@.len() == 5);
    assert("通知"@.len() == 2);
    assert("其他通知"@.len() == 4);
    assert("群文件上传"@[1] == '文' && "群消息撤回"@[1] == '消' && "群名片变更"@[1] == '名');
    assert("群头衔变更"@[1] == '头' && "管理员变更"@[1] == '理');
    assert("成员退群"@[2] == '退' && "成员进群"@[2] == '进' && "其他通知"@[2] == '通');
    assert("禁言"@[0] == '禁' && "通知"@[0] == '通');
}

/// What a notice or a request says of itself is read from the event: its action from
/// `sub_type` or, where that says nothing, from `type`, without white space around it, and
/// who acted on whom and for how long from numbers, whether they are written as numbers
/// or as texts.
pub proof fn law_details_are_read(event: EventView, action: Seq<char>, n: i64)
    requires
        trim_spec(action).len() > 0,
        !same_ignoring_case(trim_spec(action), "unknown"@),
    ensures
        ({
            let first = field(event.raw, "sub_type"@);
            let second = field(event.raw, "type"@);
            let given = JsonView::Text(action);
            first == Some(given) || (first is None && second == Some(given)) ==> match body_of(
                event,
            ) {
                EventBodyView::Notice(_, info) => info.action == Some(trim_spec(action)),
                EventBodyView::Request(_, info) => info.via == Some(trim_spec(action)),
                _ => true,
            }
        }),
        body_of(event) matches EventBodyView::Notice(_, info) ==> {
            &&& event.operator_id == Some(n) ==> info.operator_id == Some(n)
            &&& event.operator_id is None && is_number(event.raw, "operator_id"@, n)
                ==> info.operator_id == Some(n)
            &&& is_number(event.raw, "target_id"@, n) ==> info.target_id == Some(n)
            &&& is_number(event.raw, "duration"@, n) ==> info.duration == Some(n)
            &&& field(event.raw, "target_id"@) is None ==> info.target_id is None
            &&& field(event.raw, "duration"@) is None ==> info.duration is None
        },
        body_of(event) matches EventBodyView::Request(_, info) ==> {
            &&& field(event.raw, "flag"@) == Some(JsonView::Text(action)) ==> info.flag == Some(
                trim_spec(action),
            )
            &&& field(event.raw, "comment"@) == Some(JsonView::Text(action)) ==> info.comment
                == Some(trim_spec(action))
            &&& field(event.raw, "comment"@) is None && field(event.raw, "message"@) == Some(
                JsonView::Text(action),
            ) ==> info.comment == Some(trim_spec(action))
            &&& field(event.raw, "flag"@) is None ==> info.flag is None
        },
{
    crate::text::law_decimal_reads_back(n);
    crate::text::lemma_decimal_is_trimmed(n as int);
    assert(lower(Seq::<char>::empty()) =~= Seq::<char>::empty());
    reveal_strlit("unknown");
    assert(lower("unknown"@).len() == 7);
}

/// Whether a field writes a number, as a number or as a text.
pub open spec fn is_number(raw: JsonView, key: Seq<char>, n: i64) -> bool {
    field(raw, key) == Some(JsonView::Number(decimal(n as int))) || field(raw, key) == Some(
        JsonView::Text(decimal(n as int)),
    )
}

/// A notice is shown by what happened, and by its action where it has one; a filter that
/// lets through just such notices is shown by the same name.
pub proof fn law_notices_are_shown(event: EventView, action: Seq<char>)
    requires
        event.post_type == "notice"@,
    ensures
        ({
            let name = body_name(body_of(event));
            let plain = body_of(event)->Notice_1.action is None;
            &&& event.notice_type == Some("group_upload"@) && plain ==> name == "通知:"@ + "群文件上传"@
            &&& event.notice_type == Some("group_decrease"@) && plain ==> name == "通知:"@ + "成员退群"@
            &&& event.notice_type == Some("group_increase"@) && plain ==> name == "通知:"@ + "成员进群"@
            &&& event.notice_type == Some("group_admin"@) && plain ==> name == "通知:"@ + "管理员变更"@
            &&& event.notice_type == Some("group_ban"@) && plain ==> name == "通知:"@ + "禁言"@
            &&& event.notice_type == Some("group_recall"@) && plain ==> name == "通知:"@ + "群消息撤回"@
            &&& event.notice_type == Some("poke"@) && plain ==> name == "通知:"@ + "戳一戳"@
            &&& event.notice_type == Some("nudge"@) && plain ==> name == "通知:"@ + "戳一戳（nudge）"@
            &&& event.notice_type == Some("group_card"@) && plain ==> name == "通知:"@ + "群名片变更"@
            &&& event.notice_type == Some("group_title"@) && plain ==> name == "通知:"@ + "群头衔变更"@
            &&& plain ==> name == filter_name(BodyFilterView::Notice(body_of(event)->Notice_0))
            &&& body_of(event)->Notice_1.action == Some(action) ==> name == filter_name(
                BodyFilterView::NoticeAction(body_of(event)->Notice_0, action),
            ) && name == "通知:"@ + notice_name(body_of(event)->Notice_0) + "("@ + action + ")"@
        }),
{
    lemma_post_types_differ();
    law_notice_types_have_their_kinds(event, NoticeKind::FileUpload);
    law_notice_types_have_their_kinds(event, NoticeKind::GroupDecrease);
    law_notice_types_have_their_kinds(event, NoticeKind::GroupIncrease);
    law_notice_types_have_their_kinds(event, NoticeKind::GroupAdmin);
    law_notice_types_have_their_kinds(event, NoticeKind::GroupBan);
    law_notice_types_have_their_kinds(event, NoticeKind::GroupRecall);
    law_notice_types_have_their_kinds(event, NoticeKind::Poke);
    law_notice_types_have_their_kinds(event, NoticeKind::Nudge);
    law_notice_types_have_their_kinds(event, NoticeKind::GroupCardUpdate);
    law_notice_types_have_their_kinds(event, NoticeKind::GroupTitleUpdate);
}

/// A message is shown by where it came in, and so is the filter for such messages; an
/// event that is not known is shown by its own type.
pub proof fn law_other_events_are_shown(event: EventView)
    ensures
        event.post_type == "message"@ && event.group_id is Some ==> body_name(body_of(event))
            == "群消息"@ && body_name(body_of(event)) == filter_name(BodyFilterView::GroupMessage),
        event.post_type == "message"@ && event.group_id is None && event.message_type is None
            ==> body_name(body_of(event)) == "私聊消息"@ && body_name(body_of(event))
            == filter_name(BodyFilterView::PrivateMessage),
        kind_named(event.post_type) is None ==> body_name(body_of(event)) == "其他:"@
            + event.post_type,
        event.post_type == "meta_event"@ && field(event.raw, "meta_event_type"@) == Some(
            JsonView::Text("heartbeat"@),
        ) ==> body_name(body_of(event)) == "元事件:"@ + "心跳"@,
        event.post_type == "request"@ && field(event.raw, "request_type"@) == Some(
            JsonView::Text("friend"@),
        ) && body_of(event)->Request_1.via is None ==> body_name(body_of(event)) == "申请:"@
            + "好友申请"@,
{
    lemma_post_types_differ();
    reveal_strlit("heartbeat");
    reveal_strlit("friend");
}

/// An action may be a number, and the word for an unknown one, whatever the case of its
/// letters, counts as none, so that the next field is looked at.
pub proof fn law_unknown_actions_count_as_none(
    event: EventView,
    n: i64,
    unknown: Seq<char>,
    action: Seq<char>,
)
    requires
        event.post_type == "notice"@,
        lower(trim_spec(unknown)) == lower("unknown"@),
        trim_spec(action).len() > 0,
        lower(trim_spec(action)) != lower("unknown"@),
    ensures
        ({
            let first = field(event.raw, "sub_type"@);
            let second = field(event.raw, "type"@);
            let told = body_of(event)->Notice_1.action;
            &&& first == Some(JsonView::Number(decimal(n as int))) ==> told == Some(
                decimal(n as int),
            )
            &&& first == Some(JsonView::Text(unknown)) && second == Some(JsonView::Text(action))
                ==> told == Some(trim_spec(action))
            &&& first == Some(JsonView::Text(unknown)) && second is None ==> told is None
            &&& first is None && second is None ==> told is None
        }),
{
    lemma_post_types_differ();
    crate::text::law_decimal_reads_back(n);
    crate::text::lemma_decimal_is_trimmed(n as int);
    crate::text::lemma_decimal_characters(n as int);
    assert(lower(Seq::<char>::empty()) =~= Seq::<char>::empty());
    reveal_strlit("unknown");
    assert(lower("unknown"@).len() == 7);
    assert(lower("unknown"@)[0] == 'u');
    assert(lower(decimal(n as int))[0] == crate::text::lower_char(decimal(n as int)[0]));
}

} // verus!
