//! Segments as text, for logs and for finding commands.
use crate::json::JsonView;
use crate::runtime::message::{segment_views, ForwardView, MessageSegment, SegmentView};
use crate::text::{decimal, i64_text, is_blank, is_blank_spec, owned, trim, trim_spec};
use vstd::prelude::*;
use vstd::string::{StrSliceExecFns, StringExecFns};

verus! {

/// Three texts one after another.
pub fn concat3(a: &str, b: &str, c: &str) -> (r: String)
    ensures
        r@ == a@ + b@ + c@,
{
    let mut out = owned(a);
    out.append(b);
    out.append(c);
    out
}

/// The text shown for a face.
pub open spec fn face_text(id: Option<Seq<char>>) -> Seq<char> {
    match id {
        Some(id) => if is_blank_spec(id) {
            "[表情]"@
        } else {
            "[表情 ["@ + id + "]]"@
        },
        None => "[表情]"@,
    }
}

/// The text shown for a face.
pub fn format_face(id: Option<&str>) -> (r: String)
    ensures
        r@ == face_text(
            match id {
                Some(t) => Some(t@),
                None => None,
            },
        ),
{
    match id {
        Some(id) => if is_blank(id) {
            owned("[表情]")
        } else {
            concat3("[表情 [", id, "]]")
        },
        None => owned("[表情]"),
    }
}

/// The text shown for a picture.
pub open spec fn image_text(segment: SegmentView) -> Seq<char> {
    match segment {
        SegmentView::Image { url: Some(url), .. } => "[arona:image,url="@ + url + "]"@,
        SegmentView::Image { url: None, file: Some(file), .. } => "[arona:image,file="@ + file
            + "]"@,
        _ => "[arona:image]"@,
    }
}

/// The text shown for a picture.
pub fn format_image(image: &MessageSegment) -> (r: String)
    ensures
        r@ == image_text(image@),
{
    match image {
        MessageSegment::Image { url, file, .. } => match (url, file) {
            (Some(url), _) => concat3("[arona:image,url=", url.as_str(), "]"),
            (None, Some(file)) => concat3("[arona:image,file=", file.as_str(), "]"),
            (None, None) => owned("[arona:image]"),
        },
        _ => owned("[arona:image]"),
    }
}

/// The text shown for a segment.
pub open spec fn display_text(segment: SegmentView) -> Seq<char> {
    match segment {
        SegmentView::Text(text) => text,
        SegmentView::At(user_id) => "@"@ + decimal(user_id as int),
        SegmentView::AtAll => "@全体成员"@,
        SegmentView::Reply(message_id) => "[回复 "@ + decimal(message_id as int) + "]"@,
        SegmentView::Face(id) => face_text(Some(id)),
        SegmentView::Record { .. } => "[语音]"@,
        SegmentView::Video { .. } => "[视频]"@,
        SegmentView::File { name, .. } => "[文件 "@ + name + "]"@,
        SegmentView::Poke { name, .. } => "[戳一戳 "@ + name + "]"@,
        SegmentView::Location { name, .. } => "[位置 "@ + name + "]"@,
        SegmentView::Json(_) => "[json 卡片]"@,
        SegmentView::Xml(_) => "[xml 卡片]"@,
        SegmentView::Forward { title, .. } => "[合并转发:"@ + title + "]"@,
        SegmentView::Image { .. } => image_text(segment),
    }
}

/// The text shown for a segment.
pub fn segment_display(segment: &MessageSegment) -> (r: String)
    ensures
        r@ == display_text(segment@),
{
    match segment {
        MessageSegment::Text(text) => text.clone(),
        MessageSegment::At(user_id) => {
            let mut out = owned("@");
            out.append(i64_text(*user_id).as_str());
            out
        },
        MessageSegment::AtAll => owned("@全体成员"),
        MessageSegment::Reply(message_id) => concat3(
            "[回复 ",
            i64_text(*message_id).as_str(),
            "]",
        ),
        MessageSegment::Face(id) => format_face(Some(id.as_str())),
        MessageSegment::Record { .. } => owned("[语音]"),
        MessageSegment::Video { .. } => owned("[视频]"),
        MessageSegment::File { name, .. } => concat3("[文件 ", name.as_str(), "]"),
        MessageSegment::Poke { name, .. } => concat3("[戳一戳 ", name.as_str(), "]"),
        MessageSegment::Location { name, .. } => concat3("[位置 ", name.as_str(), "]"),
        MessageSegment::Json(_) => owned("[json 卡片]"),
        MessageSegment::Xml(_) => owned("[xml 卡片]"),
        MessageSegment::Forward { title, .. } => concat3("[合并转发:", title.as_str(), "]"),
        MessageSegment::Image { .. } => format_image(segment),
    }
}

/// The texts shown for some segments, one directly after another.
pub open spec fn display_all(segments: Seq<SegmentView>) -> Seq<char>
    decreases segments.len(),
{
    if segments.len() == 0 {
        Seq::empty()
    } else {
        display_all(segments.drop_last()) + display_text(segments.last())
    }
}

/// The texts shown for some segments, one directly after another.
pub fn display_segments(segments: &Vec<MessageSegment>) -> (r: String)
    ensures
        r@ == display_all(segment_views(segments@)),
{
    let ghost views = segment_views(segments@);
    let mut out = String::new();
    let mut i: usize = 0;
    while i < segments.len()
        invariant
            i <= segments@.len(),
            views == segment_views(segments@),
            out@ == display_all(views.take(i as int)),
        decreases segments@.len() - i,
    {
        out.append(segment_display(&segments[i]).as_str());
        assert(views.take(i + 1).drop_last() =~= views.take(i as int));
        i = i + 1;
    }
    assert(views.take(views.len() as int) =~= views);
    out
}

// ---------------------------------------------------------------------------
// commands

/// Whether a segment at the start of a message only calls the bot.
pub open spec fn is_call(segment: SegmentView, self_id: i64) -> bool {
    crate::runtime::message::mentions(segment, self_id) || segment is Reply || segment is Image
}

/// The segments after the calls at the start.
pub open spec fn without_calls(segments: Seq<SegmentView>, self_id: i64) -> Seq<SegmentView>
    decreases segments.len(),
{
    if segments.len() > 0 && is_call(segments[0], self_id) {
        without_calls(segments.subrange(1, segments.len() as int), self_id)
    } else {
        segments
    }
}

/// A text with another after it; a space goes between where neither brings one.
pub open spec fn spaced(out: Seq<char>, part: Seq<char>) -> Seq<char> {
    if out.len() > 0 && out.last() != ' ' && !(part.len() > 0 && part[0] == ' ') {
        out.push(' ') + part
    } else {
        out + part
    }
}

/// The texts of the segments with spaces between them.
pub open spec fn spaced_all(segments: Seq<SegmentView>) -> Seq<char>
    decreases segments.len(),
{
    if segments.len() == 0 {
        Seq::empty()
    } else {
        spaced(spaced_all(segments.drop_last()), display_text(segments.last()))
    }
}

/// The text in which a command is looked for: the segments after the calls at the
/// start, with spaces between them, trimmed.
pub open spec fn command_line(segments: Seq<SegmentView>, self_id: i64) -> Seq<char> {
    trim_spec(spaced_all(without_calls(segments, self_id)))
}

fn first_is_space(text: &str) -> (r: bool)
    ensures
        r == (text@.len() > 0 && text@[0] == ' '),
{
    text.unicode_len() > 0 && text.get_char(0) == ' '
}

fn last_is_not_space(text: &str) -> (r: bool)
    ensures
        r == (text@.len() > 0 && text@.last() != ' '),
{
    let n: usize = text.unicode_len();
    n > 0 && text.get_char(n - 1) != ' '
}

/// The text in which a command is looked for.
pub fn command_text_of(segments: &Vec<MessageSegment>, self_id: i64) -> (r: String)
    ensures
        r@ == command_line(segment_views(segments@), self_id),
{
    let ghost views = segment_views(segments@);
    let mut i: usize = 0;
    assert(views.subrange(0, views.len() as int) =~= views);
    while i < segments.len() && (segments[i].is_mention_of(self_id) || is_reply_or_image(
        &segments[i],
    ))
        invariant
            i <= segments@.len(),
            views == segment_views(segments@),
            without_calls(views, self_id) == without_calls(
                views.subrange(i as int, views.len() as int),
                self_id,
            ),
        decreases segments@.len() - i,
    {
        assert(views.subrange(i as int, views.len() as int).subrange(1, views.len() - i)
            =~= views.subrange(i + 1, views.len() as int));
        i = i + 1;
    }
    let ghost rest = views.subrange(i as int, views.len() as int);
    assert(without_calls(views, self_id) == rest);
    let mut out = String::new();
    let ghost start: int = i as int;
    while i < segments.len()
        invariant
            0 <= start <= i <= segments@.len(),
            views == segment_views(segments@),
            rest == views.subrange(start, views.len() as int),
            out@ == spaced_all(rest.take(i - start)),
        decreases segments@.len() - i,
    {
        let part = segment_display(&segments[i]);
        assert(rest.take(i - start + 1).drop_last() =~= rest.take(i - start));
        if last_is_not_space(out.as_str()) && !first_is_space(part.as_str()) {
            out.push(' ');
        }
        out.append(part.as_str());
        i = i + 1;
    }
    assert(rest.take(rest.len() as int) =~= rest);
    trim(out.as_str())
}

fn is_reply_or_image(segment: &MessageSegment) -> (r: bool)
    ensures
        r == (segment@ is Reply || segment@ is Image),
{
    match segment {
        MessageSegment::Reply(_) => true,
        MessageSegment::Image { .. } => true,
        _ => false,
    }
}

/// A message that is only calls has an empty command line.
pub proof fn law_calls_alone_give_no_command(segments: Seq<SegmentView>, self_id: i64)
    requires
        forall|i: int| 0 <= i < segments.len() ==> is_call(#[trigger] segments[i], self_id),
    ensures
        command_line(segments, self_id) == Seq::<char>::empty(),
    decreases segments.len(),
{
    if segments.len() > 0 {
        law_calls_alone_give_no_command(segments.subrange(1, segments.len() as int), self_id);
    }
}

/// Calls put before a message do not change its command line.
pub proof fn law_leading_call_is_ignored(call: SegmentView, rest: Seq<SegmentView>, self_id: i64)
    requires
        is_call(call, self_id),
    ensures
        command_line(seq![call] + rest, self_id) == command_line(rest, self_id),
{
    let all = seq![call] + rest;
    assert(all.subrange(1, all.len() as int) =~= rest);
}

/// What is shown of a message is what is shown of its parts, one directly after another.
pub proof fn law_parts_are_shown_in_order(one: Seq<SegmentView>, other: Seq<SegmentView>)
    ensures
        display_all(one + other) == display_all(one) + display_all(other),
    decreases other.len(),
{
    if other.len() == 0 {
        assert(one + other =~= one);
        assert(display_all(one) + display_all(other) =~= display_all(one));
    } else {
        law_parts_are_shown_in_order(one, other.drop_last());
        assert((one + other).drop_last() =~= one + other.drop_last());
        assert((one + other).last() == other.last());
        assert(display_all(one) + display_all(other.drop_last()) + display_text(other.last())
            =~= display_all(one) + (display_all(other.drop_last()) + display_text(other.last())));
    }
}

/// What is shown of a segment tells whom it mentions, what it quotes and what it names; a
/// text is shown as it is, and a picture by its address rather than by its file.
pub proof fn law_segments_are_shown(
    m: i64,
    n: i64,
    text: Seq<char>,
    other: Seq<char>,
    file: Option<Seq<char>>,
    data: Option<Seq<u8>>,
)
    ensures
        display_all(seq![SegmentView::Text(text)]) == text,
        display_text(SegmentView::At(m)) == display_text(SegmentView::At(n)) <==> m == n,
        display_text(SegmentView::Reply(m)) == display_text(SegmentView::Reply(n)) <==> m == n,
        display_text(SegmentView::At(m)) != display_text(SegmentView::AtAll),
        display_text(SegmentView::Image { url: Some(text), file, data }) == "[arona:image,url="@
            + text + "]"@,
        display_text(SegmentView::Image { url: None, file: Some(text), data })
            == "[arona:image,file="@ + text + "]"@,
        !is_blank_spec(text) && !is_blank_spec(other) ==> (display_text(SegmentView::Face(text))
            == display_text(SegmentView::Face(other)) <==> text == other),
{
    let one = seq![SegmentView::Text(text)];
    assert(one.drop_last().len() == 0);
    assert(display_all(one.drop_last()) + text =~= text);
    if display_text(SegmentView::At(m)) == display_text(SegmentView::At(n)) {
        crate::text::lemma_same_start("@"@, decimal(m as int), decimal(n as int));
        crate::text::law_decimals_tell_numbers_apart(m as int, n as int);
    }
    if display_text(SegmentView::Reply(m)) == display_text(SegmentView::Reply(n)) {
        crate::text::lemma_same_end(
            "[回复 "@ + decimal(m as int),
            "[回复 "@ + decimal(n as int),
            "]"@,
        );
        crate::text::lemma_same_start("[回复 "@, decimal(m as int), decimal(n as int));
        crate::text::law_decimals_tell_numbers_apart(m as int, n as int);
    }
    if display_text(SegmentView::At(m)) == display_text(SegmentView::AtAll) {
        crate::text::lemma_decimal_characters(m as int);
        reveal_strlit("@");
        reveal_strlit("@全体成员");
        let shown = "@"@ + decimal(m as int);
        assert(shown[1] == decimal(m as int)[0]);
        assert(shown[1] == '全');
    }
    if display_text(SegmentView::Face(text)) == display_text(SegmentView::Face(other))
        && !is_blank_spec(text) && !is_blank_spec(other) {
        crate::text::lemma_same_end("[表情 ["@ + text, "[表情 ["@ + other, "]]"@);
        crate::text::lemma_same_start("[表情 ["@, text, other);
    }
}

/// What calls the bot at the start of a message is left out of the command, and nothing
/// else is: a mention of somebody else, a text or a face is part of it.
pub proof fn law_only_calls_are_left_out(
    n: i64,
    self_id: i64,
    text: Seq<char>,
    rest: Seq<SegmentView>,
)
    ensures
        command_line(seq![SegmentView::At(self_id)] + rest, self_id) == command_line(rest, self_id),
        command_line(seq![SegmentView::AtAll] + rest, self_id) == command_line(rest, self_id),
        command_line(seq![SegmentView::Reply(n)] + rest, self_id) == command_line(rest, self_id),
        n != self_id ==> without_calls(seq![SegmentView::At(n)] + rest, self_id) == seq![
            SegmentView::At(n),
        ] + rest,
        without_calls(seq![SegmentView::Text(text)] + rest, self_id) == seq![
            SegmentView::Text(text),
        ] + rest,
        without_calls(seq![SegmentView::Face(text)] + rest, self_id) == seq![
            SegmentView::Face(text),
        ] + rest,
        command_line(seq![SegmentView::Text(text)], self_id) == trim_spec(text),
{
    law_leading_call_is_ignored(SegmentView::At(self_id), rest, self_id);
    law_leading_call_is_ignored(SegmentView::AtAll, rest, self_id);
    law_leading_call_is_ignored(SegmentView::Reply(n), rest, self_id);
    assert((seq![SegmentView::At(n)] + rest)[0] == SegmentView::At(n));
    assert((seq![SegmentView::Text(text)] + rest)[0] == SegmentView::Text(text));
    assert((seq![SegmentView::Face(text)] + rest)[0] == SegmentView::Face(text));
    let one = seq![SegmentView::Text(text)];
    assert(one[0] == SegmentView::Text(text));
    assert(one.drop_last().len() == 0);
    assert(spaced_all(one.drop_last()) + text =~= text);
}

/// Between two parts of a command there is a space, and no second one where either
/// brings one.
pub proof fn law_parts_of_a_command_stand_apart(a: Seq<char>, b: Seq<char>)
    requires
        a.len() > 0,
        b.len() > 0,
    ensures
        a.last() != ' ' && b[0] != ' ' ==> spaced_all(
            seq![SegmentView::Text(a), SegmentView::Text(b)],
        ) == a + seq![' '] + b,
        a.last() == ' ' || b[0] == ' ' ==> spaced_all(
            seq![SegmentView::Text(a), SegmentView::Text(b)],
        ) == a + b,
{
    let both = seq![SegmentView::Text(a), SegmentView::Text(b)];
    let one = both.drop_last();
    assert(one =~= seq![SegmentView::Text(a)]);
    assert(one.drop_last().len() == 0);
    assert(spaced_all(one.drop_last()) + a =~= a);
    assert(spaced_all(one) == a);
    assert(a.push(' ') + b =~= a + seq![' '] + b);
}

/// A file, a poke, a place and a forwarded bundle are shown by their names, and other
/// things by what they are.
pub proof fn law_things_are_shown_by_name(
    name: Seq<char>,
    text: Seq<char>,
    size: u64,
    n: i64,
    json: JsonView,
    messages: Seq<ForwardView>,
    url: Option<Seq<char>>,
    file: Option<Seq<char>>,
)
    ensures
        display_all(seq![SegmentView::File { file_id: text, name, size }]) == "[文件 "@ + name
            + "]"@,
        display_all(seq![SegmentView::Poke { name, target: n }]) == "[戳一戳 "@ + name + "]"@,
        display_all(
            seq![
                SegmentView::Location { name, address: text, latitude: json, longitude: json },
            ],
        ) == "[位置 "@ + name + "]"@,
        display_all(seq![SegmentView::Forward { title: name, messages }]) == "[合并转发:"@ + name
            + "]"@,
        display_all(seq![SegmentView::At(n)]) == "@"@ + decimal(n as int),
        display_all(seq![SegmentView::Reply(n)]) == "[回复 "@ + decimal(n as int) + "]"@,
        display_all(seq![SegmentView::Record { url, file }]) == "[语音]"@,
        display_all(seq![SegmentView::Video { url, file }]) == "[视频]"@,
        display_all(seq![SegmentView::Json(json)]) == "[json 卡片]"@,
        display_all(seq![SegmentView::Xml(json)]) == "[xml 卡片]"@,
{
    lemma_shown_alone(SegmentView::File { file_id: text, name, size });
    lemma_shown_alone(SegmentView::Poke { name, target: n });
    lemma_shown_alone(
        SegmentView::Location { name, address: text, latitude: json, longitude: json },
    );
    lemma_shown_alone(SegmentView::Forward { title: name, messages });
    lemma_shown_alone(SegmentView::At(n));
    lemma_shown_alone(SegmentView::Reply(n));
    lemma_shown_alone(SegmentView::Record { url, file });
    lemma_shown_alone(SegmentView::Video { url, file });
    lemma_shown_alone(SegmentView::Json(json));
    lemma_shown_alone(SegmentView::Xml(json));
}

proof fn lemma_shown_alone(segment: SegmentView)
    ensures
        display_all(seq![segment]) == display_text(segment),
{
    let one = seq![segment];
    assert(one.drop_last().len() == 0);
    assert(display_all(one.drop_last()) + display_text(segment) =~= display_text(segment));
}

} // verus!
