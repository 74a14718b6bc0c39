//! What a listener is told of an event, and of a message about to be sent.
use crate::json::{field, option_text, text_of, Json, JsonView};
use crate::onebot::api::OneBotError;
use crate::onebot::event::{if_any, trimmed_text, EventBody, EventKind};
use crate::onebot::model::{EventView, OneBotEvent};
use crate::runtime::message::{
    segment_views, MessageSegment, MessageTarget, OutgoingMessage, SegmentView,
};
use crate::text::{same, trim, trim_spec};
use vstd::prelude::*;

verus! {

/// The role of a member in a group, from the lowest to the highest.
#[derive(Clone, Copy, Debug, PartialEq, Eq, Structural)]
pub enum GroupRole {
    Member,
    Admin,
    Owner,
}

/// The role that a name stands for.
pub open spec fn role_named(name: Seq<char>) -> Option<GroupRole> {
    if name == "owner"@ {
        Some(GroupRole::Owner)
    } else if name == "admin"@ {
        Some(GroupRole::Admin)
    } else if name == "member"@ {
        Some(GroupRole::Member)
    } else {
        None
    }
}

/// The role that a sender object names.
pub open spec fn role_of(sender: Option<JsonView>) -> Option<GroupRole> {
    match sender {
        Some(sender) => match text_of(field(sender, "role"@)) {
            Some(name) => role_named(name),
            None => None,
        },
        None => None,
    }
}

impl GroupRole {
    /// The role that a sender object names.
    pub fn from_sender(sender: &Json) -> (r: Option<GroupRole>)
        ensures
            r == role_of(Some(sender@)),
    {
        match sender.get_text("role") {
            Some(name) => {
                let name = name.as_str();
                if same(name, "owner") {
                    Some(GroupRole::Owner)
                } else if same(name, "admin") {
                    Some(GroupRole::Admin)
                } else if same(name, "member") {
                    Some(GroupRole::Member)
                } else {
                    None
                }
            },
            None => None,
        }
    }
}

/// What a listener is told of an event.
#[derive(Debug)]
pub struct EventContext {
    pub kind: EventKind,
    pub event: OneBotEvent,
    pub body: EventBody,
    /// What the message shows.
    pub text: String,
    /// The text without what calls the bot at its start.
    pub command_text: String,
    pub segments: Vec<MessageSegment>,
}

/// The message that the first quotation among some segments names.
pub open spec fn first_quoted(segments: Seq<SegmentView>) -> Option<i64>
    decreases segments.len(),
{
    if segments.len() == 0 {
        None
    } else {
        match segments[0] {
            SegmentView::Reply(id) => Some(id),
            _ => first_quoted(segments.subrange(1, segments.len() as int)),
        }
    }
}

/// The message that the first quotation among some segments names.
pub fn find_quoted(segments: &Vec<MessageSegment>) -> (r: Option<i64>)
    ensures
        r == first_quoted(segment_views(segments@)),
{
    let ghost all = segment_views(segments@);
    let mut i: usize = 0;
    assert(all.subrange(0, all.len() as int) =~= all);
    while i < segments.len()
        invariant
            i <= segments@.len(),
            all == segment_views(segments@),
            first_quoted(all) == first_quoted(all.subrange(i as int, all.len() as int)),
        decreases segments@.len() - i,
    {
        let ghost rest = all.subrange(i as int, all.len() as int);
        match &segments[i] {
            MessageSegment::Reply(id) => {
                return Some(*id);
            },
            _ => {},
        }
        assert(rest.subrange(1, rest.len() as int) =~= all.subrange(i + 1, all.len() as int));
        i = i + 1;
    }
    None
}

/// Whether the message type of an event is as given.
pub open spec fn has_message_type(event: EventView, name: Seq<char>) -> bool {
    event.message_type == Some(name)
}

/// Where an answer to an event goes: to the group for a message in one, else to the
/// sender of a message.
pub open spec fn answer_target(event: EventView, kind: EventKind) -> Option<MessageTarget> {
    if event.group_id is Some && (kind == EventKind::Message || has_message_type(event, "group"@)) {
        Some(MessageTarget::Group(event.group_id->0))
    } else if event.user_id is Some && kind == EventKind::Message {
        Some(MessageTarget::Private(event.user_id->0))
    } else {
        None
    }
}

/// The name that a sender object gives: the card in the group, else the nickname.
pub open spec fn name_of_sender(sender: Option<JsonView>) -> Option<Seq<char>> {
    match sender {
        Some(sender) => match trimmed_text(sender, "card"@) {
            Some(card) => Some(card),
            None => trimmed_text(sender, "nickname"@),
        },
        None => None,
    }
}

fn trimmed_member(json: &Json, key: &str) -> (r: Option<String>)
    ensures
        option_text(r) == trimmed_text(json@, key@),
{
    match json.get_text(key) {
        Some(t) => {
            let t = trim(t.as_str());
            if t.as_str().is_empty() {
                None
            } else {
                Some(t)
            }
        },
        None => None,
    }
}

fn is_type(message_type: &Option<String>, name: &str) -> (r: bool)
    ensures
        r == (option_text(*message_type) == Some(name@)),
{
    match message_type {
        Some(t) => same(t.as_str(), name),
        None => false,
    }
}

impl EventContext {
    /// The user of the event, zero where there is none.
    pub fn user_id(&self) -> (r: i64)
        ensures
            r == match self.event@.user_id {
                Some(id) => id,
                None => 0,
            },
    {
        match self.event.user_id {
            Some(id) => id,
            None => 0,
        }
    }

    /// The group of the event.
    pub fn group_id(&self) -> (r: Option<i64>)
        ensures
            r == self.event@.group_id,
    {
        self.event.group_id
    }

    /// Whether the event is a group message.
    pub fn is_group(&self) -> (r: bool)
        ensures
            r == has_message_type(self.event@, "group"@),
    {
        is_type(&self.event.message_type, "group")
    }

    /// Whether the event is a private message.
    pub fn is_private(&self) -> (r: bool)
        ensures
            r == has_message_type(self.event@, "private"@),
    {
        is_type(&self.event.message_type, "private")
    }

    /// The number of the message.
    pub fn message_id(&self) -> (r: Option<i64>)
        ensures
            r == self.event@.message_id,
    {
        self.event.message_id
    }

    /// The name of the sender: the card in the group, else the nickname.
    pub fn sender_name(&self) -> (r: Option<String>)
        ensures
            option_text(r) == name_of_sender(self.event@.sender),
    {
        match &self.event.sender {
            Some(sender) => match trimmed_member(sender, "card") {
                Some(card) => Some(card),
                None => trimmed_member(sender, "nickname"),
            },
            None => None,
        }
    }

    /// The role of the sender in the group.
    pub fn sender_role(&self) -> (r: Option<GroupRole>)
        ensures
            r == role_of(self.event@.sender),
    {
        match &self.event.sender {
            Some(sender) => GroupRole::from_sender(sender),
            None => None,
        }
    }

    /// Whether the sender manages or owns the group; not where the role is unknown.
    pub fn sender_is_admin(&self) -> (r: bool)
        ensures
            r == (role_of(self.event@.sender) == Some(GroupRole::Admin) || role_of(
                self.event@.sender,
            ) == Some(GroupRole::Owner)),
    {
        match self.sender_role() {
            Some(GroupRole::Admin) => true,
            Some(GroupRole::Owner) => true,
            _ => false,
        }
    }

    /// The message that this one quotes.
    pub fn quoted(&self) -> (r: Option<i64>)
        ensures
            r == first_quoted(segment_views(self.segments@)),
    {
        find_quoted(&self.segments)
    }

    /// A text of the raw event that is not empty.
    pub fn field_str(&self, key: &str) -> (r: Option<String>)
        ensures
            option_text(r) == match text_of(field(self.event@.raw, key@)) {
                Some(t) => if_any(t),
                None => None,
            },
    {
        match self.event.raw.get_text(key) {
            Some(t) => if t.as_str().is_empty() {
                None
            } else {
                Some(t)
            },
            None => None,
        }
    }

    /// A field of the raw event.
    pub fn field(&self, key: &str) -> (r: Option<&Json>)
        ensures
            match r {
                Some(j) => field(self.event@.raw, key@) == Some(j@),
                None => field(self.event@.raw, key@) is None,
            },
    {
        self.event.raw.get(key)
    }

    /// Where an answer goes.
    pub fn target(&self) -> (r: Option<MessageTarget>)
        ensures
            r == answer_target(self.event@, self.kind),
    {
        match self.event.group_id {
            Some(group_id) => {
                if self.kind == EventKind::Message || self.is_group() {
                    return Some(MessageTarget::Group(group_id));
                }
            },
            None => {},
        }
        match self.event.user_id {
            Some(user_id) => if self.kind == EventKind::Message {
                Some(MessageTarget::Private(user_id))
            } else {
                None
            },
            None => None,
        }
    }
}

/// A message and where it goes.
#[derive(Debug)]
pub struct Answer {
    pub target: MessageTarget,
    pub message: OutgoingMessage,
}

/// Whether a plan to answer an event with some segments is right: an event without a
/// place to answer at gets none, and without a way to send there is an error.
pub open spec fn is_answer(
    r: Result<Option<Answer>, OneBotError>,
    target: Option<MessageTarget>,
    segments: Seq<SegmentView>,
    revoke_after_millis: Option<u64>,
    ready: bool,
) -> bool {
    match target {
        None => r == Ok::<Option<Answer>, OneBotError>(None),
        Some(target) => if ready {
            r is Ok && r->Ok_0 is Some && r->Ok_0->0.target == target && segment_views(
                r->Ok_0->0.message.segments@,
            ) == segments && r->Ok_0->0.message.revoke_after_millis == revoke_after_millis
        } else {
            r is Err && r->Err_0 is NoConnection
        },
    }
}

impl EventContext {
    /// Answers the event with a message; `ready` tells whether anything can be sent.
    pub fn reply_message(&self, message: OutgoingMessage, ready: bool) -> (r: Result<
        Option<Answer>,
        OneBotError,
    >)
        ensures
            is_answer(
                r,
                answer_target(self.event@, self.kind),
                segment_views(message.segments@),
                message.revoke_after_millis,
                ready,
            ),
    {
        match self.target() {
            None => Ok(None),
            Some(target) => if ready {
                Ok(Some(Answer { target, message }))
            } else {
                Err(OneBotError::NoConnection)
            },
        }
    }

    /// Answers the event with a text.
    pub fn reply(&self, text: &str, ready: bool) -> (r: Result<Option<Answer>, OneBotError>)
        ensures
            is_answer(
                r,
                answer_target(self.event@, self.kind),
                seq![SegmentView::Text(text@)],
                None,
                ready,
            ),
    {
        self.reply_message(OutgoingMessage::text(text), ready)
    }

    /// Answers the event with a message after what it quotes, where that is known.
    pub fn reply_with_quote(
        &self,
        quotation: Option<Vec<MessageSegment>>,
        message: OutgoingMessage,
        ready: bool,
    ) -> (r: Result<Option<Answer>, OneBotError>)
        ensures
            is_answer(
                r,
                answer_target(self.event@, self.kind),
                match quotation {
                    Some(prefix) => segment_views(prefix@) + segment_views(message.segments@),
                    None => segment_views(message.segments@),
                },
                message.revoke_after_millis,
                ready,
            ),
    {
        match quotation {
            None => self.reply_message(message, ready),
            Some(prefix) => {
                let mut segments = prefix;
                let mut rest = message.segments;
                let ghost tail = rest@;
                segments.append(&mut rest);
                assert(segment_views(segments@) =~= segment_views(prefix@) + segment_views(tail));
                self.reply_message(
                    OutgoingMessage { segments, revoke_after_millis: message.revoke_after_millis },
                    ready,
                )
            },
        }
    }
}

/// A message has somewhere to go back to as soon as it names a group or a user.
pub proof fn law_messages_can_be_answered(event: EventView)
    requires
        event.group_id is Some || event.user_id is Some,
    ensures
        answer_target(event, EventKind::Message) is Some,
{
}

/// A message about to be sent, as its listeners see it.
#[derive(Debug)]
pub struct OutboundContext {
    pub target: MessageTarget,
    /// The message as it stands.
    pub message: OutgoingMessage,
    /// Whether a listener stopped the message.
    pub cancelled: bool,
}

impl OutboundContext {
    /// A message that nobody has seen yet.
    pub fn new(target: MessageTarget, message: OutgoingMessage) -> (r: OutboundContext)
        ensures
            r.target == target,
            r.message == message,
            !r.cancelled,
    {
        OutboundContext { target, message, cancelled: false }
    }

    /// The message as it stands.
    pub fn message(&self) -> (r: &OutgoingMessage)
        ensures
            *r == self.message,
    {
        &self.message
    }

    /// Puts another message in the place of this one.
    pub fn rewrite(&mut self, message: OutgoingMessage)
        ensures
            final(self).message == message,
            final(self).cancelled == old(self).cancelled,
            final(self).target == old(self).target,
    {
        self.message = message;
    }

    /// Stops the message.
    pub fn cancel(&mut self)
        ensures
            final(self).cancelled,
            final(self).message == old(self).message,
            final(self).target == old(self).target,
    {
        self.cancelled = true;
    }

    /// Whether a listener stopped the message.
    pub fn is_cancelled(&self) -> (r: bool)
        ensures
            r == self.cancelled,
    {
        self.cancelled
    }

    /// The message as it stands at the end.
    pub fn into_message(self) -> (r: OutgoingMessage)
        ensures
            r == self.message,
    {
        self.message
    }
}

/// An answer to a message goes back where the message came from: to its group, or to
/// its sender alone where it came in no group. What is no message is answered in its
/// group, where it says that it is from one, and else nowhere.
pub proof fn law_answers_go_back(event: EventView, kind: EventKind, group: i64, user: i64)
    ensures
        event.group_id == Some(group) ==> answer_target(event, EventKind::Message) == Some(
            MessageTarget::Group(group),
        ),
        event.group_id is None && event.user_id == Some(user) ==> answer_target(
            event,
            EventKind::Message,
        ) == Some(MessageTarget::Private(user)),
        event.group_id is None && event.user_id is None ==> answer_target(event, kind) is None,
        kind != EventKind::Message ==> (answer_target(event, kind) == Some(
            MessageTarget::Group(group),
        ) <==> event.group_id == Some(group) && event.message_type == Some("group"@)),
        kind != EventKind::Message ==> answer_target(event, kind) != Some(
            MessageTarget::Private(user),
        ),
{
}

/// A sender is named by the card, where it says something, else by the nickname, without
/// the white space around them.
pub proof fn law_senders_are_called_by_their_names(
    sender: JsonView,
    card: Seq<char>,
    nickname: Seq<char>,
)
    ensures
        field(sender, "card"@) == Some(JsonView::Text(card)) && trim_spec(card).len() > 0
            ==> name_of_sender(Some(sender)) == Some(trim_spec(card)),
        (field(sender, "card"@) is None || (field(sender, "card"@) == Some(JsonView::Text(card))
            && trim_spec(card).len() == 0)) && field(sender, "nickname"@) == Some(
            JsonView::Text(nickname),
        ) && trim_spec(nickname).len() > 0 ==> name_of_sender(Some(sender)) == Some(
            trim_spec(nickname),
        ),
        field(sender, "card"@) is None && field(sender, "nickname"@) is None ==> name_of_sender(
            Some(sender),
        ) is None,
{
}

/// The message that another quotes is the one that its first quotation names.
pub proof fn law_the_first_quotation_counts(
    before: Seq<SegmentView>,
    n: i64,
    after: Seq<SegmentView>,
)
    requires
        forall|i: int| 0 <= i < before.len() ==> !(#[trigger] before[i] is Reply),
    ensures
        first_quoted(before + seq![SegmentView::Reply(n)] + after) == Some(n),
        first_quoted(before) is None,
    decreases before.len(),
{
    let all = before + seq![SegmentView::Reply(n)] + after;
    if before.len() == 0 {
        assert(all[0] == SegmentView::Reply(n));
    } else {
        let rest = before.subrange(1, before.len() as int);
        assert forall|i: int| 0 <= i < rest.len() implies !(#[trigger] rest[i] is Reply) by {
            assert(rest[i] == before[i + 1]);
        }
        law_the_first_quotation_counts(rest, n, after);
        assert(all.subrange(1, all.len() as int) =~= rest + seq![SegmentView::Reply(n)] + after);
        assert(all[0] == before[0]);
        assert(!(before[0] is Reply));
    }
}

/// An answer goes to where the event can be answered and holds what was said; without such
/// a place nothing is sent, and without a way to send there is an error.
pub proof fn law_answers_hold_what_was_said(
    r: Result<Option<Answer>, OneBotError>,
    event: EventView,
    kind: EventKind,
    segments: Seq<SegmentView>,
    revoke_after_millis: Option<u64>,
    ready: bool,
)
    requires
        is_answer(r, answer_target(event, kind), segments, revoke_after_millis, ready),
    ensures
        r matches Ok(Some(answer)) ==> ready && answer_target(event, kind) == Some(answer.target)
            && segment_views(answer.message.segments@) == segments
            && answer.message.revoke_after_millis == revoke_after_millis,
        ready && answer_target(event, kind) is Some ==> (r matches Ok(Some(_))),
        answer_target(event, kind) is None ==> (r matches Ok(None)),
        !ready && answer_target(event, kind) is Some ==> r is Err,
{
}

} // verus!
