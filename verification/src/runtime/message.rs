//! Messages: a list of segments, going out or coming in.
use crate::json::{option_text, Json, JsonView};
use vstd::prelude::*;

verus! {

/// One part of a message.
#[derive(Debug)]
pub enum MessageSegment {
    Text(String),
    /// A mention of one user.
    At(i64),
    /// A mention of everybody.
    AtAll,
    /// A quotation of another message.
    Reply(i64),
    Image { url: Option<String>, file: Option<String>, data: Option<Vec<u8>> },
    Face(String),
    Record { url: Option<String>, file: Option<String> },
    Video { url: Option<String>, file: Option<String> },
    File { file_id: String, name: String, size: u64 },
    Poke { name: String, target: i64 },
    /// A place. A coordinate is a JSON number, or null where it is not finite.
    Location { name: String, address: String, latitude: Json, longitude: Json },
    Json(Json),
    Xml(Json),
    /// A bundle of forwarded messages.
    Forward { title: String, messages: Vec<ForwardMessage> },
}

/// One message of a forwarded bundle.
#[derive(Debug)]
pub struct ForwardMessage {
    pub name: String,
    pub uin: i64,
    pub content: Vec<MessageSegment>,
}

/// A message to send.
#[derive(Debug)]
pub struct OutgoingMessage {
    pub segments: Vec<MessageSegment>,
    pub revoke_after_millis: Option<u64>,
}

impl OutgoingMessage {
    /// A message of one text.
    pub fn text(text: &str) -> (r: OutgoingMessage)
        ensures
            segment_views(r.segments@) == seq![SegmentView::Text(text@)],
            r.revoke_after_millis is None,
    {
        let mut segments: Vec<MessageSegment> = Vec::new();
        segments.push(MessageSegment::Text(crate::text::owned(text)));
        let r = OutgoingMessage { segments, revoke_after_millis: None };
        assert(segment_views(r.segments@) =~= seq![SegmentView::Text(text@)]);
        r
    }

    /// A message of one mention.
    pub fn at(user_id: i64) -> (r: OutgoingMessage)
        ensures
            segment_views(r.segments@) == seq![SegmentView::At(user_id)],
            r.revoke_after_millis is None,
    {
        let mut segments: Vec<MessageSegment> = Vec::new();
        segments.push(MessageSegment::At(user_id));
        let r = OutgoingMessage { segments, revoke_after_millis: None };
        assert(segment_views(r.segments@) =~= seq![SegmentView::At(user_id)]);
        r
    }
}

/// Where a message goes.
#[derive(Clone, Copy, Debug, PartialEq, Eq, Structural)]
pub enum MessageTarget {
    Group(i64),
    Private(i64),
}

/// What a segment is, over mathematical sequences.
pub enum SegmentView {
    Text(Seq<char>),
    At(i64),
    AtAll,
    Reply(i64),
    Image { url: Option<Seq<char>>, file: Option<Seq<char>>, data: Option<Seq<u8>> },
    Face(Seq<char>),
    Record { url: Option<Seq<char>>, file: Option<Seq<char>> },
    Video { url: Option<Seq<char>>, file: Option<Seq<char>> },
    File { file_id: Seq<char>, name: Seq<char>, size: u64 },
    Poke { name: Seq<char>, target: i64 },
    Location { name: Seq<char>, address: Seq<char>, latitude: JsonView, longitude: JsonView },
    Json(JsonView),
    Xml(JsonView),
    Forward { title: Seq<char>, messages: Seq<ForwardView> },
}

/// What a forwarded message is.
pub struct ForwardView {
    pub name: Seq<char>,
    pub uin: i64,
    pub content: Seq<SegmentView>,
}

/// The view of optional bytes.
pub open spec fn option_bytes(data: Option<Vec<u8>>) -> Option<Seq<u8>> {
    match data {
        Some(d) => Some(d@),
        None => None,
    }
}

/// The view of a segment.
pub open spec fn segment_view(segment: MessageSegment) -> SegmentView
    decreases segment,
{
    match segment {
        MessageSegment::Text(t) => SegmentView::Text(t@),
        MessageSegment::At(n) => SegmentView::At(n),
        MessageSegment::AtAll => SegmentView::AtAll,
        MessageSegment::Reply(n) => SegmentView::Reply(n),
        MessageSegment::Image { url, file, data } => SegmentView::Image {
            url: option_text(url),
            file: option_text(file),
            data: option_bytes(data),
        },
        MessageSegment::Face(t) => SegmentView::Face(t@),
        MessageSegment::Record { url, file } => SegmentView::Record {
            url: option_text(url),
            file: option_text(file),
        },
        MessageSegment::Video { url, file } => SegmentView::Video {
            url: option_text(url),
            file: option_text(file),
        },
        MessageSegment::File { file_id, name, size } => SegmentView::File {
            file_id: file_id@,
            name: name@,
            size,
        },
        MessageSegment::Poke { name, target } => SegmentView::Poke { name: name@, target },
        MessageSegment::Location { name, address, latitude, longitude } => SegmentView::Location {
            name: name@,
            address: address@,
            latitude: latitude@,
            longitude: longitude@,
        },
        MessageSegment::Json(card) => SegmentView::Json(card@),
        MessageSegment::Xml(card) => SegmentView::Xml(card@),
        MessageSegment::Forward { title, messages } => SegmentView::Forward {
            title: title@,
            messages: Seq::new(
                messages@.len(),
                |i: int|
                    if 0 <= i < messages@.len() {
                        forward_view(messages@[i])
                    } else {
                        arbitrary()
                    },
            ),
        },
    }
}

/// The view of a forwarded message.
pub open spec fn forward_view(message: ForwardMessage) -> ForwardView
    decreases message,
{
    ForwardView {
        name: message.name@,
        uin: message.uin,
        content: Seq::new(
            message.content@.len(),
            |i: int|
                if 0 <= i < message.content@.len() {
                    segment_view(message.content@[i])
                } else {
                    SegmentView::AtAll
                },
        ),
    }
}

impl View for MessageSegment {
    type V = SegmentView;

    open spec fn view(&self) -> SegmentView {
        segment_view(*self)
    }
}

impl View for ForwardMessage {
    type V = ForwardView;

    open spec fn view(&self) -> ForwardView {
        forward_view(*self)
    }
}

/// The views of a list of segments.
pub open spec fn segment_views(segments: Seq<MessageSegment>) -> Seq<SegmentView> {
    Seq::new(segments.len(), |i: int| segments[i]@)
}

/// The views of a list of forwarded messages.
pub open spec fn forward_views(messages: Seq<ForwardMessage>) -> Seq<ForwardView> {
    Seq::new(messages.len(), |i: int| messages[i]@)
}

/// The view of a forwarded bundle holds the views of its messages.
pub proof fn lemma_forward_segment_view(title: String, messages: Vec<ForwardMessage>)
    ensures
        segment_view(MessageSegment::Forward { title, messages }) == (SegmentView::Forward {
            title: title@,
            messages: forward_views(messages@),
        }),
{
    assert(segment_view(MessageSegment::Forward { title, messages })->messages
        =~= forward_views(messages@));
}

/// The view of a forwarded message holds the views of its segments.
pub proof fn lemma_forward_message_view(message: ForwardMessage)
    ensures
        forward_view(message) == (ForwardView {
            name: message.name@,
            uin: message.uin,
            content: segment_views(message.content@),
        }),
{
    assert(forward_view(message).content =~= segment_views(message.content@));
}

/// Whether a segment mentions the user, by number or with everybody.
pub open spec fn mentions(segment: SegmentView, self_id: i64) -> bool {
    segment == SegmentView::At(self_id) || segment == SegmentView::AtAll
}

impl MessageSegment {
    /// Whether the segment mentions the user, by number or with everybody.
    pub fn is_mention_of(&self, self_id: i64) -> (r: bool)
        ensures
            r == mentions(self@, self_id),
    {
        match self {
            MessageSegment::At(user_id) => *user_id == self_id,
            MessageSegment::AtAll => true,
            _ => false,
        }
    }
}

} // verus!
