//! CQ codes: messages as text, with segments in square brackets.
use crate::json::{option_text, option_view, parse_json, parsed_json, Json, JsonView};
use crate::onebot::display::concat3;
use crate::onebot::protocol::{
    float_json, is_element, lemma_kinds_differ, mention_of, option_segment, parse_float,
    parse_mention, parsed_segment, zero_coordinate,
};
use crate::runtime::message::{segment_views, MessageSegment, SegmentView};
use crate::text::{
    chars_of, decimal, find_char, find_text, i64_value, index_of_char, index_of_text, is_digit,
    lemma_index_of_char_suffix, owned, parse_i64,
    parse_u64, replace, replaced, same, split, split_spec, string_of, texts, u64_value,
};
use vstd::prelude::*;

verus! {

/// A CQ text with its entities resolved; `&amp;` comes last, so that what it
/// protects is not resolved twice.
pub open spec fn unescaped(value: Seq<char>) -> Seq<char> {
    replaced(
        replaced(replaced(replaced(value, "&#44;"@, ","@), "&#58;"@, ":"@), "&#93;"@, "]"@),
        "&amp;"@,
        "&"@,
    )
}

/// A CQ text with its entities resolved.
pub fn unescape_cq(value: &str) -> (r: String)
    ensures
        r@ == unescaped(value@),
{
    proof {
        reveal_strlit("&#44;");
        reveal_strlit("&#58;");
        reveal_strlit("&#93;");
        reveal_strlit("&amp;");
    }
    let a = replace(value, "&#44;", ",");
    let b = replace(a.as_str(), "&#58;", ":");
    let c = replace(b.as_str(), "&#93;", "]");
    replace(c.as_str(), "&amp;", "&")
}

/// The position of the first comma or colon.
pub open spec fn separator_index(s: Seq<char>, from: int) -> Option<int>
    decreases s.len() - from,
{
    if from < 0 || from >= s.len() {
        None
    } else if s[from] == ',' || s[from] == ':' {
        Some(from)
    } else {
        separator_index(s, from + 1)
    }
}

/// The type of a code: what comes before the first comma or colon.
pub open spec fn code_kind(inner: Seq<char>) -> Seq<char> {
    match separator_index(inner, 0) {
        Some(i) => inner.subrange(0, i),
        None => inner,
    }
}

/// The parameters of a code: what comes after the first comma or colon, in parts.
pub open spec fn code_params(inner: Seq<char>) -> Seq<Seq<char>> {
    match separator_index(inner, 0) {
        Some(i) => split_spec(inner.subrange(i + 1, inner.len() as int), ','),
        None => split_spec(Seq::empty(), ','),
    }
}

/// The value that a part gives to a key.
pub open spec fn part_value(part: Seq<char>, key: Seq<char>) -> Option<Seq<char>> {
    match index_of_char(part, '=', 0) {
        Some(i) => if part.subrange(0, i) == key {
            Some(part.subrange(i + 1, part.len() as int))
        } else {
            None
        },
        None => None,
    }
}

/// The value of a parameter: the last part for the key decides.
pub open spec fn raw_param(parts: Seq<Seq<char>>, key: Seq<char>) -> Option<Seq<char>>
    decreases parts.len(),
{
    if parts.len() == 0 {
        None
    } else {
        match part_value(parts.last(), key) {
            Some(v) => Some(v),
            None => raw_param(parts.drop_last(), key),
        }
    }
}

/// The value of a parameter with its entities resolved.
pub open spec fn param(parts: Seq<Seq<char>>, key: Seq<char>) -> Option<Seq<char>> {
    match raw_param(parts, key) {
        Some(v) => Some(unescaped(v)),
        None => None,
    }
}

/// A text, or the empty one.
pub open spec fn or_empty(t: Option<Seq<char>>) -> Seq<char> {
    match t {
        Some(t) => t,
        None => Seq::empty(),
    }
}

/// The coordinate that a parameter writes, else zero.
pub open spec fn param_coordinate(t: Option<Seq<char>>) -> JsonView {
    match t {
        Some(t) => match float_json(t) {
            Some(c) => c,
            None => zero_coordinate(),
        },
        None => zero_coordinate(),
    }
}

/// The card of a code: the JSON document in its `data`, else that text.
pub open spec fn param_card(parts: Seq<Seq<char>>) -> Option<JsonView> {
    match raw_param(parts, "data"@) {
        Some(t) => Some(
            match parsed_json(t) {
                Some(card) => card,
                None => JsonView::Text(t),
            },
        ),
        None => None,
    }
}

/// The segment of a code; a code of unknown type stays as it is written.
pub open spec fn code_segment(inner: Seq<char>) -> Option<SegmentView> {
    let kind = code_kind(inner);
    let parts = code_params(inner);
    if kind == "at"@ {
        match param(parts, "qq"@) {
            Some(qq) => mention_of(qq),
            None => None,
        }
    } else if kind == "image"@ {
        Some(
            SegmentView::Image { url: param(parts, "url"@), file: param(parts, "file"@), data: None },
        )
    } else if kind == "face"@ {
        Some(SegmentView::Face(or_empty(param(parts, "id"@))))
    } else if kind == "reply"@ {
        match param(parts, "id"@) {
            Some(id) => match i64_value(id) {
                Some(n) => Some(SegmentView::Reply(n)),
                None => None,
            },
            None => None,
        }
    } else if kind == "record"@ {
        Some(SegmentView::Record { url: param(parts, "url"@), file: param(parts, "file"@) })
    } else if kind == "video"@ {
        Some(SegmentView::Video { url: param(parts, "url"@), file: param(parts, "file"@) })
    } else if kind == "file"@ {
        Some(
            SegmentView::File {
                file_id: or_empty(param(parts, "file_id"@)),
                name: or_empty(param(parts, "file_name"@)),
                size: match u64_value(or_empty(param(parts, "file_size"@))) {
                    Some(n) => n,
                    None => 0,
                },
            },
        )
    } else if kind == "location"@ {
        Some(
            SegmentView::Location {
                name: or_empty(param(parts, "name"@)),
                address: or_empty(param(parts, "address"@)),
                latitude: param_coordinate(param(parts, "lat"@)),
                longitude: param_coordinate(param(parts, "lon"@)),
            },
        )
    } else if kind == "json"@ {
        match param_card(parts) {
            Some(card) => Some(SegmentView::Json(card)),
            None => None,
        }
    } else if kind == "xml"@ {
        match param_card(parts) {
            Some(card) => Some(SegmentView::Xml(card)),
            None => None,
        }
    } else {
        Some(SegmentView::Text("[CQ:"@ + inner + "]"@))
    }
}

/// Nothing, or one segment.
pub open spec fn one_or_none(segment: Option<SegmentView>) -> Seq<SegmentView> {
    match segment {
        Some(s) => seq![s],
        None => Seq::empty(),
    }
}

/// A piece of plain text, left out where it is empty.
pub open spec fn plain(text: Seq<char>) -> Seq<SegmentView> {
    if text.len() > 0 {
        seq![SegmentView::Text(unescaped(text))]
    } else {
        Seq::empty()
    }
}

/// The segments of a message with CQ codes. A code that is not closed is plain
/// text to the end.
pub open spec fn cq_segments(raw: Seq<char>) -> Seq<SegmentView>
    decreases raw.len(),
{
    match index_of_text(raw, "[CQ:"@, 0) {
        Some(start) => if 0 <= start && start + 4 <= raw.len() {
            let after = raw.subrange(start + 4, raw.len() as int);
            match index_of_char(after, ']', 0) {
                Some(end) => if 0 <= end < after.len() {
                    plain(raw.subrange(0, start)) + one_or_none(
                        code_segment(after.subrange(0, end)),
                    ) + cq_segments(after.subrange(end + 1, after.len() as int))
                } else {
                    Seq::empty()
                },
                None => plain(raw.subrange(0, start)) + plain(
                    raw.subrange(start, raw.len() as int),
                ),
            }
        } else {
            Seq::empty()
        },
        None => plain(raw),
    }
}

// ---------------------------------------------------------------------------

fn find_separator(chars: &Vec<char>) -> (r: Option<usize>)
    ensures
        match r {
            Some(i) => i < chars@.len() && separator_index(chars@, 0) == Some(i as int),
            None => separator_index(chars@, 0) is None,
        },
{
    let mut i: usize = 0;
    while i < chars.len()
        invariant
            i <= chars@.len(),
            separator_index(chars@, 0) == separator_index(chars@, i as int),
        decreases chars@.len() - i,
    {
        if chars[i] == ',' || chars[i] == ':' {
            return Some(i);
        }
        i = i + 1;
    }
    None
}

fn value_in_part(part: &str, key: &str) -> (r: Option<String>)
    ensures
        option_text(r) == part_value(part@, key@),
{
    let chars = chars_of(part);
    let n: usize = chars.len();
    match find_char(&chars, '=', 0) {
        Some(i) => {
            if same(string_of(&chars, 0, i).as_str(), key) {
                Some(string_of(&chars, i + 1, n))
            } else {
                None
            }
        },
        None => None,
    }
}

fn find_raw_param(parts: &Vec<String>, key: &str) -> (r: Option<String>)
    ensures
        option_text(r) == raw_param(texts(parts@), key@),
{
    let ghost all = texts(parts@);
    let mut i: usize = parts.len();
    assert(all.take(all.len() as int) =~= all);
    while i > 0
        invariant
            i <= parts@.len(),
            all == texts(parts@),
            raw_param(all, key@) == raw_param(all.take(i as int), key@),
        decreases i,
    {
        assert(all.take(i as int).drop_last() =~= all.take(i - 1));
        assert(all.take(i as int).last() == parts@[i - 1]@);
        let found = value_in_part(parts[i - 1].as_str(), key);
        if found.is_some() {
            return found;
        }
        i = i - 1;
    }
    None
}

fn find_param(parts: &Vec<String>, key: &str) -> (r: Option<String>)
    ensures
        option_text(r) == param(texts(parts@), key@),
{
    match find_raw_param(parts, key) {
        Some(v) => Some(unescape_cq(v.as_str())),
        None => None,
    }
}

fn text_or_empty(t: Option<String>) -> (r: String)
    ensures
        r@ == or_empty(option_text(t)),
{
    match t {
        Some(t) => t,
        None => String::new(),
    }
}

fn coordinate_or_zero(t: Option<String>) -> (r: Json)
    ensures
        r@ == param_coordinate(option_text(t)),
{
    match t {
        Some(t) => match parse_float(t.as_str()) {
            Some(c) => c,
            None => Json::Number(owned("0.0")),
        },
        None => Json::Number(owned("0.0")),
    }
}

fn find_card(parts: &Vec<String>) -> (r: Option<Json>)
    ensures
        option_view(r) == param_card(texts(parts@)),
{
    match find_raw_param(parts, "data") {
        Some(t) => match parse_json(t.as_str()) {
            Some(card) => Some(card),
            None => Some(Json::Text(t)),
        },
        None => None,
    }
}

/// Reads the inside of a code as a segment.
pub fn decode_code(inner: &str) -> (r: Option<MessageSegment>)
    ensures
        option_segment(r) == code_segment(inner@),
{
    let chars = chars_of(inner);
    let n: usize = chars.len();
    let (kind, params) = match find_separator(&chars) {
        Some(i) => (string_of(&chars, 0, i), string_of(&chars, i + 1, n)),
        None => (owned(inner), String::new()),
    };
    let parts = split(params.as_str(), ',');
    let kind = kind.as_str();
    assert(kind@ == code_kind(inner@));
    assert(texts(parts@) == code_params(inner@));
    if same(kind, "at") {
        match find_param(&parts, "qq") {
            Some(qq) => parse_mention(qq.as_str()),
            None => None,
        }
    } else if same(kind, "image") {
        Some(
            MessageSegment::Image {
                url: find_param(&parts, "url"),
                file: find_param(&parts, "file"),
                data: None,
            },
        )
    } else if same(kind, "face") {
        Some(MessageSegment::Face(text_or_empty(find_param(&parts, "id"))))
    } else if same(kind, "reply") {
        match find_param(&parts, "id") {
            Some(id) => match parse_i64(id.as_str()) {
                Some(n) => Some(MessageSegment::Reply(n)),
                None => None,
            },
            None => None,
        }
    } else if same(kind, "record") {
        Some(
            MessageSegment::Record {
                url: find_param(&parts, "url"),
                file: find_param(&parts, "file"),
            },
        )
    } else if same(kind, "video") {
        Some(
            MessageSegment::Video {
                url: find_param(&parts, "url"),
                file: find_param(&parts, "file"),
            },
        )
    } else if same(kind, "file") {
        let size = text_or_empty(find_param(&parts, "file_size"));
        Some(
            MessageSegment::File {
                file_id: text_or_empty(find_param(&parts, "file_id")),
                name: text_or_empty(find_param(&parts, "file_name")),
                size: match parse_u64(size.as_str()) {
                    Some(n) => n,
                    None => 0,
                },
            },
        )
    } else if same(kind, "location") {
        Some(
            MessageSegment::Location {
                name: text_or_empty(find_param(&parts, "name")),
                address: text_or_empty(find_param(&parts, "address")),
                latitude: coordinate_or_zero(find_param(&parts, "lat")),
                longitude: coordinate_or_zero(find_param(&parts, "lon")),
            },
        )
    } else if same(kind, "json") {
        match find_card(&parts) {
            Some(card) => Some(MessageSegment::Json(card)),
            None => None,
        }
    } else if same(kind, "xml") {
        match find_card(&parts) {
            Some(card) => Some(MessageSegment::Xml(card)),
            None => None,
        }
    } else {
        Some(MessageSegment::Text(concat3("[CQ:", inner, "]")))
    }
}

proof fn lemma_index_of_text_suffix(s: Seq<char>, pattern: Seq<char>, start: int, from: int)
    requires
        0 <= start <= s.len(),
        0 <= from,
    ensures
        index_of_text(s.subrange(start, s.len() as int), pattern, from) == (match index_of_text(
            s,
            pattern,
            start + from,
        ) {
            Some(i) => Some(i - start),
            None => None,
        }),
    decreases s.len() - start - from,
{
    let t = s.subrange(start, s.len() as int);
    if from < t.len() {
        if from + pattern.len() <= t.len() {
            assert(t.subrange(from, from + pattern.len()) =~= s.subrange(
                start + from,
                start + from + pattern.len(),
            ));
        }
        lemma_index_of_text_suffix(s, pattern, start, from + 1);
    }
}

fn push_plain(out: &mut Vec<MessageSegment>, text: String)
    ensures
        segment_views(final(out)@) == segment_views(old(out)@) + plain(text@),
{
    if !text.as_str().is_empty() {
        out.push(MessageSegment::Text(unescape_cq(text.as_str())));
        assert(segment_views(out@) =~= segment_views(old(out)@) + plain(text@));
    } else {
        assert(segment_views(out@) =~= segment_views(old(out)@) + plain(text@));
    }
}

/// Reads a message with CQ codes.
pub fn decode_cq_message(raw: &str) -> (r: Vec<MessageSegment>)
    ensures
        segment_views(r@) == cq_segments(raw@),
{
    let chars = chars_of(raw);
    let open = chars_of("[CQ:");
    proof {
        reveal_strlit("[CQ:");
    }
    let mut out: Vec<MessageSegment> = Vec::new();
    let mut index: usize = 0;
    assert(chars@.subrange(0, chars@.len() as int) =~= chars@);
    assert(segment_views(out@) + cq_segments(raw@) =~= cq_segments(raw@));
    loop
        invariant
            index <= chars@.len(),
            chars@ == raw@,
            open@ == "[CQ:"@,
            open@.len() == 4,
            segment_views(out@) + cq_segments(chars@.subrange(index as int, chars@.len() as int))
                == cq_segments(raw@),
        decreases chars@.len() - index,
    {
        let n: usize = chars.len();
        let ghost rest = chars@.subrange(index as int, chars@.len() as int);
        let ghost before = segment_views(out@);
        proof {
            lemma_index_of_text_suffix(chars@, "[CQ:"@, index as int, 0);
        }
        match find_text(&chars, &open, index) {
            None => {
                push_plain(&mut out, string_of(&chars, index, n));
                return out;
            },
            Some(start) => {
                let inside: usize = start + 4;
                let ghost after = rest.subrange(start - index + 4, rest.len() as int);
                push_plain(&mut out, string_of(&chars, index, start));
                proof {
                    assert(rest.subrange(0, start - index) =~= chars@.subrange(
                        index as int,
                        start as int,
                    ));
                    assert(after =~= chars@.subrange(inside as int, n as int));
                    lemma_index_of_char_suffix(chars@, ']', inside as int, 0);
                }
                match find_char(&chars, ']', inside) {
                    None => {
                        push_plain(&mut out, string_of(&chars, start, n));
                        assert(rest.subrange(start - index, rest.len() as int) =~= chars@.subrange(
                            start as int,
                            n as int,
                        ));
                        assert(segment_views(out@) =~= cq_segments(raw@));
                        return out;
                    },
                    Some(end) => {
                        assert(after.subrange(0, end - inside) =~= chars@.subrange(
                            inside as int,
                            end as int,
                        ));
                        assert(after.subrange(end - inside + 1, after.len() as int)
                            =~= chars@.subrange(end + 1, n as int));
                        let ghost middle = segment_views(out@);
                        match decode_code(string_of(&chars, inside, end).as_str()) {
                            Some(segment) => {
                                out.push(segment);
                                assert(segment_views(out@) =~= middle + seq![segment@]);
                            },
                            None => {
                                assert(segment_views(out@) =~= middle + Seq::<
                                    SegmentView,
                                >::empty());
                            },
                        }
                        proof {
                            let tail = cq_segments(chars@.subrange(end + 1, n as int));
                            let code = one_or_none(
                                code_segment(chars@.subrange(inside as int, end as int)),
                            );
                            let head = plain(rest.subrange(0, start - index));
                            assert(cq_segments(rest) == head + code + tail);
                            assert(before + (head + code + tail) =~= segment_views(out@) + tail);
                        }
                        index = end + 1;
                    },
                }
            },
        }
    }
}

// ---------------------------------------------------------------------------
// laws

proof fn lemma_first_at(s: Seq<char>, c: char, at: int, from: int)
    requires
        0 <= from <= at < s.len(),
        s[at] == c,
        forall|i: int| from <= i < at ==> s[i] != c,
    ensures
        index_of_char(s, c, from) == Some(at),
    decreases at - from,
{
    if from < at {
        lemma_first_at(s, c, at, from + 1);
    }
}

proof fn lemma_nowhere(s: Seq<char>, c: char, from: int)
    requires
        0 <= from,
        forall|i: int| from <= i < s.len() ==> s[i] != c,
    ensures
        index_of_char(s, c, from) is None,
    decreases s.len() - from,
{
    if from < s.len() {
        lemma_nowhere(s, c, from + 1);
    }
}

proof fn lemma_separator_at(s: Seq<char>, at: int, from: int)
    requires
        0 <= from <= at < s.len(),
        s[at] == ',' || s[at] == ':',
        forall|i: int| from <= i < at ==> s[i] != ',' && s[i] != ':',
    ensures
        separator_index(s, from) == Some(at),
    decreases at - from,
{
    if from < at {
        lemma_separator_at(s, at, from + 1);
    }
}

proof fn lemma_nothing_to_replace(s: Seq<char>, pattern: Seq<char>, with: Seq<char>)
    requires
        pattern.len() > 0,
        forall|i: int| 0 <= i < s.len() ==> s[i] != pattern[0],
    ensures
        replaced(s, pattern, with) == s,
    decreases s.len(),
{
    if s.len() > 0 {
        let rest = s.subrange(1, s.len() as int);
        assert forall|i: int| 0 <= i < rest.len() implies rest[i] != pattern[0] by {
            assert(rest[i] == s[i + 1]);
        }
        lemma_nothing_to_replace(rest, pattern, with);
        if crate::text::has_prefix(s, pattern) {
            assert(s.subrange(0, 0 + pattern.len() as int)[0] == pattern[0]);
        }
        assert(seq![s[0]] + rest =~= s);
    }
}

/// A text without entities stands for itself.
pub proof fn law_plain_texts_stand_for_themselves(s: Seq<char>)
    requires
        !s.contains('&'),
    ensures
        unescaped(s) == s,
{
    reveal_strlit("&#44;");
    reveal_strlit("&#58;");
    reveal_strlit("&#93;");
    reveal_strlit("&amp;");
    assert("&#44;"@[0] == '&' && "&#58;"@[0] == '&' && "&#93;"@[0] == '&' && "&amp;"@[0] == '&');
    lemma_nothing_to_replace(s, "&#44;"@, ","@);
    lemma_nothing_to_replace(s, "&#58;"@, ":"@);
    lemma_nothing_to_replace(s, "&#93;"@, "]"@);
    lemma_nothing_to_replace(s, "&amp;"@, "&"@);
}

/// What is written in a code with one parameter.
pub open spec fn code_inner(kind: Seq<char>, key: Seq<char>, value: Seq<char>) -> Seq<char> {
    kind + seq![','] + (key + seq!['='] + value)
}

proof fn lemma_code_parts(kind: Seq<char>, key: Seq<char>, value: Seq<char>, other: Seq<char>)
    requires
        !kind.contains(',') && !kind.contains(':'),
        !key.contains('=') && !key.contains(','),
        !value.contains(','),
    ensures
        code_kind(code_inner(kind, key, value)) == kind,
        raw_param(code_params(code_inner(kind, key, value)), other) == if other == key {
            Some(value)
        } else {
            None
        },
{
    let inner = code_inner(kind, key, value);
    let part = key + seq!['='] + value;
    assert(inner[kind.len() as int] == ',');
    assert forall|i: int| 0 <= i < kind.len() implies inner[i] != ',' && inner[i] != ':' by {
        assert(inner[i] == kind[i]);
    }
    lemma_separator_at(inner, kind.len() as int, 0);
    assert(inner.subrange(0, kind.len() as int) =~= kind);
    assert(inner.subrange(kind.len() as int + 1, inner.len() as int) =~= part);
    assert forall|i: int| 0 <= i < part.len() implies part[i] != ',' by {
        if i < key.len() {
            assert(part[i] == key[i]);
        } else if i > key.len() {
            assert(part[i] == value[i - key.len() - 1]);
        }
    }
    lemma_nowhere(part, ',', 0);
    assert(split_spec(part, ',') == seq![part]);
    assert(part[key.len() as int] == '=');
    assert forall|i: int| 0 <= i < key.len() implies part[i] != '=' by {
        assert(part[i] == key[i]);
    }
    lemma_first_at(part, '=', key.len() as int, 0);
    assert(part.subrange(0, key.len() as int) =~= key);
    assert(part.subrange(key.len() as int + 1, part.len() as int) =~= value);
    let parts = code_params(inner);
    assert(parts.last() == part);
    assert(parts.drop_last().len() == 0);
    assert(raw_param(parts.drop_last(), other) is None);
}

proof fn lemma_code_alone(inner: Seq<char>)
    requires
        !inner.contains(']'),
    ensures
        cq_segments("[CQ:"@ + inner + "]"@) == one_or_none(code_segment(inner)),
{
    reveal_strlit("[CQ:");
    reveal_strlit("]");
    reveal_with_fuel(cq_segments, 2);
    let raw = "[CQ:"@ + inner + "]"@;
    assert(raw.subrange(0, 4) =~= "[CQ:"@);
    assert(index_of_text(raw, "[CQ:"@, 0) == Some(0int));
    let after = raw.subrange(4, raw.len() as int);
    assert(after =~= inner + seq![']']);
    assert forall|i: int| 0 <= i < inner.len() implies after[i] != ']' by {
        assert(after[i] == inner[i]);
    }
    lemma_first_at(after, ']', inner.len() as int, 0);
    assert(after.subrange(0, inner.len() as int) =~= inner);
    let rest = after.subrange(inner.len() as int + 1, after.len() as int);
    assert(rest.len() == 0);
    assert(index_of_text(rest, "[CQ:"@, 0) is None);
    assert(cq_segments(rest) =~= Seq::<SegmentView>::empty());
    assert(raw.subrange(0, 0).len() == 0);
    assert(cq_segments(raw) =~= one_or_none(code_segment(inner)));
}

/// A code says what the element of the same kind says with the same value under the same
/// key: a mention, a picture, a face, a quotation, a recording and a video are read alike
/// from either form of a message.
pub proof fn law_codes_say_what_elements_say(
    kind: Seq<char>,
    key: Seq<char>,
    value: Seq<char>,
    element: JsonView,
)
    requires
        kind == "at"@ || kind == "image"@ || kind == "face"@ || kind == "reply"@ || kind
            == "record"@ || kind == "video"@,
        !key.contains('=') && !key.contains(',') && !key.contains(']'),
        !value.contains(',') && !value.contains(']'),
        is_element(
            element,
            kind,
            JsonView::Object(seq![(key, JsonView::Text(unescaped(value)))]),
        ),
    ensures
        cq_segments("[CQ:"@ + (kind + ","@ + key + "="@ + value) + "]"@) == one_or_none(
            parsed_segment(element),
        ),
{
    lemma_kinds_differ();
    reveal_strlit("at");
    reveal_strlit("image");
    reveal_strlit("face");
    reveal_strlit("reply");
    reveal_strlit("record");
    reveal_strlit("video");
    reveal_strlit(",");
    reveal_strlit("=");
    assert("at"@.len() == 2 && "at"@[0] == 'a' && "at"@[1] == 't');
    let inner = code_inner(kind, key, value);
    assert(kind + ","@ + key + "="@ + value =~= inner);
    assert(!inner.contains(']')) by {
        assert forall|i: int| 0 <= i < inner.len() implies inner[i] != ']' by {
            if i < kind.len() {
                assert(inner[i] == kind[i]);
            } else if i > kind.len() {
                let j = i - kind.len() - 1;
                let part = key + seq!['='] + value;
                assert(inner[i] == part[j]);
                if j < key.len() {
                    assert(part[j] == key[j]);
                } else if j > key.len() {
                    assert(part[j] == value[j - key.len() - 1]);
                }
            }
        }
    }
    lemma_code_parts(kind, key, value, "qq"@);
    lemma_code_parts(kind, key, value, "url"@);
    lemma_code_parts(kind, key, value, "file"@);
    lemma_code_parts(kind, key, value, "id"@);
    lemma_code_alone(inner);
    let members = seq![(key, JsonView::Text(unescaped(value)))];
    assert(members.subrange(1, 1).len() == 0);
    assert forall|other: Seq<char>| #[trigger]
        crate::json::field(JsonView::Object(members), other) == if other == key {
            Some(JsonView::Text(unescaped(value)))
        } else {
            None
        } by {
        reveal_with_fuel(crate::json::lookup, 2);
    }
}

/// A mention of a user, a quotation and a face by number are read from the codes for
/// them, whatever the number.
pub proof fn law_codes_are_read(n: i64)
    ensures
        cq_segments("[CQ:at,qq="@ + decimal(n as int) + "]"@) == seq![SegmentView::At(n)],
        cq_segments("[CQ:reply,id="@ + decimal(n as int) + "]"@) == seq![SegmentView::Reply(n)],
        cq_segments("[CQ:face,id="@ + decimal(n as int) + "]"@) == seq![
            SegmentView::Face(decimal(n as int)),
        ],
{
    let value = decimal(n as int);
    crate::text::lemma_decimal_characters(n as int);
    assert(!value.contains('&') && !value.contains(',') && !value.contains(']'));
    law_plain_texts_stand_for_themselves(value);
    crate::text::law_decimal_reads_back(n);
    crate::onebot::protocol::lemma_all_is_no_number(n);
    reveal_strlit("[CQ:at,qq=");
    reveal_strlit("[CQ:reply,id=");
    reveal_strlit("[CQ:face,id=");
    reveal_strlit("[CQ:");
    reveal_strlit("at");
    reveal_strlit("reply");
    reveal_strlit("face");
    reveal_strlit("image");
    reveal_strlit("qq");
    reveal_strlit("id");
    assert("reply"@[0] == 'r' && "image"@[0] == 'i' && "reply"@.len() == 5 && "image"@.len() == 5);
    assert("at"@.len() == 2 && "face"@.len() == 4);
    lemma_code_parts("at"@, "qq"@, value, "qq"@);
    lemma_code_parts("reply"@, "id"@, value, "id"@);
    lemma_code_parts("face"@, "id"@, value, "id"@);
    assert("[CQ:at,qq="@ + value + "]"@ =~= "[CQ:"@ + code_inner("at"@, "qq"@, value) + "]"@);
    assert("[CQ:reply,id="@ + value + "]"@ =~= "[CQ:"@ + code_inner("reply"@, "id"@, value) + "]"@);
    assert("[CQ:face,id="@ + value + "]"@ =~= "[CQ:"@ + code_inner("face"@, "id"@, value) + "]"@);
    lemma_code_alone(code_inner("at"@, "qq"@, value));
    lemma_code_alone(code_inner("reply"@, "id"@, value));
    lemma_code_alone(code_inner("face"@, "id"@, value));
}

proof fn lemma_code_begins(raw: Seq<char>, at: int, from: int)
    requires
        0 <= from <= at,
        at + 4 <= raw.len(),
        raw.subrange(at, at + 4) == "[CQ:"@,
        forall|i: int| from <= i < at ==> raw[i] != '[',
    ensures
        index_of_text(raw, "[CQ:"@, from) == Some(at),
    decreases at - from,
{
    reveal_strlit("[CQ:");
    if from < at {
        if crate::text::occurs_at(raw, "[CQ:"@, from) {
            assert(raw.subrange(from, from + 4)[0] == '[');
        }
        lemma_code_begins(raw, at, from + 1);
    }
}

proof fn lemma_no_code(raw: Seq<char>, from: int)
    requires
        0 <= from,
        forall|i: int| from <= i < raw.len() ==> raw[i] != '[',
    ensures
        index_of_text(raw, "[CQ:"@, from) is None,
    decreases raw.len() - from,
{
    reveal_strlit("[CQ:");
    if from < raw.len() {
        if crate::text::occurs_at(raw, "[CQ:"@, from) {
            assert(raw.subrange(from, from + 4)[0] == '[');
        }
        lemma_no_code(raw, from + 1);
    }
}

/// A message with codes is read from left to right: the text before a code, the code and
/// what follows it. A text without brackets is one piece of text, with its entities
/// resolved.
pub proof fn law_codes_stand_in_their_order(
    before: Seq<char>,
    inner: Seq<char>,
    rest: Seq<char>,
)
    requires
        !before.contains('['),
        !inner.contains(']'),
    ensures
        cq_segments(before + "[CQ:"@ + inner + "]"@ + rest) == cq_segments(before) + cq_segments(
            "[CQ:"@ + inner + "]"@,
        ) + cq_segments(rest),
        before.len() > 0 ==> cq_segments(before) == seq![SegmentView::Text(unescaped(before))],
        before.len() == 0 ==> cq_segments(before).len() == 0,
{
    reveal_strlit("[CQ:");
    reveal_strlit("]");
    let raw = before + "[CQ:"@ + inner + "]"@ + rest;
    let at = before.len() as int;
    assert forall|i: int| 0 <= i < at implies raw[i] != '[' by {
        assert(raw[i] == before[i]);
    }
    assert(raw.subrange(at, at + 4) =~= "[CQ:"@);
    lemma_code_begins(raw, at, 0);
    let after = raw.subrange(at + 4, raw.len() as int);
    assert(after =~= inner + seq![']'] + rest);
    assert forall|i: int| 0 <= i < inner.len() implies after[i] != ']' by {
        assert(after[i] == inner[i]);
    }
    lemma_first_at(after, ']', inner.len() as int, 0);
    assert(after.subrange(0, inner.len() as int) =~= inner);
    assert(after.subrange(inner.len() as int + 1, after.len() as int) =~= rest);
    assert(raw.subrange(0, at) =~= before);
    lemma_no_code(before, 0);
    lemma_code_alone(inner);
}

/// A code of a kind that is not known stays as it is written, and is not dropped.
pub proof fn law_unknown_codes_stay(inner: Seq<char>)
    requires
        !inner.contains(']'),
        ({
            let kind = code_kind(inner);
            kind != "at"@ && kind != "image"@ && kind != "face"@ && kind != "reply"@ && kind
                != "record"@ && kind != "video"@ && kind != "file"@ && kind != "location"@ && kind
                != "json"@ && kind != "xml"@
        }),
    ensures
        cq_segments("[CQ:"@ + inner + "]"@) == seq![SegmentView::Text("[CQ:"@ + inner + "]"@)],
{
    lemma_code_alone(inner);
}

/// A file, a place and a card are read from the parameters of their codes: what is named
/// stands where it is named, and the content of a card is the document in it.
pub proof fn law_other_codes_are_read(
    key: Seq<char>,
    value: Seq<char>,
    n: u64,
)
    requires
        !key.contains('=') && !key.contains(','),
        !value.contains(','),
    ensures
        code_segment(code_inner("file"@, key, value)) matches Some(
            SegmentView::File { file_id, name, size },
        ) && {
            &&& key == "file_id"@ ==> file_id == unescaped(value)
            &&& key == "file_name"@ ==> name == unescaped(value)
            &&& key == "file_size"@ && value == decimal(n as int) && n <= i64::MAX ==> size == n
            &&& key != "file_size"@ ==> size == 0
        },
        code_segment(code_inner("location"@, key, value)) matches Some(
            SegmentView::Location { name, address, latitude, longitude },
        ) && {
            &&& key == "name"@ ==> name == unescaped(value)
            &&& key == "address"@ ==> address == unescaped(value)
            &&& key == "lat"@ && float_json(unescaped(value)) is Some ==> latitude == float_json(
                unescaped(value),
            )->0
            &&& key == "lon"@ && float_json(unescaped(value)) is Some ==> longitude == float_json(
                unescaped(value),
            )->0
        },
        key == "data"@ && parsed_json(value) is Some ==> code_segment(
            code_inner("json"@, key, value),
        ) == Some(SegmentView::Json(parsed_json(value)->0)) && code_segment(
            code_inner("xml"@, key, value),
        ) == Some(SegmentView::Xml(parsed_json(value)->0)),
        key == "data"@ && parsed_json(value) is None ==> code_segment(
            code_inner("json"@, key, value),
        ) == Some(SegmentView::Json(JsonView::Text(value))) && code_segment(
            code_inner("xml"@, key, value),
        ) == Some(SegmentView::Xml(JsonView::Text(value))),
{
    lemma_kinds_differ();
    reveal_strlit("file");
    reveal_strlit("location");
    reveal_strlit("json");
    reveal_strlit("xml");
    reveal_strlit("file_id");
    reveal_strlit("file_name");
    reveal_strlit("file_size");
    lemma_code_parts("file"@, key, value, "file_id"@);
    lemma_code_parts("file"@, key, value, "file_name"@);
    lemma_code_parts("file"@, key, value, "file_size"@);
    lemma_code_parts("location"@, key, value, "name"@);
    lemma_code_parts("location"@, key, value, "address"@);
    lemma_code_parts("location"@, key, value, "lat"@);
    lemma_code_parts("location"@, key, value, "lon"@);
    lemma_code_parts("json"@, key, value, "data"@);
    lemma_code_parts("xml"@, key, value, "data"@);
    if value == decimal(n as int) && n <= i64::MAX {
        crate::text::lemma_decimal_characters(n as int);
        assert(!value.contains('&'));
        law_plain_texts_stand_for_themselves(value);
        crate::text::law_decimal_reads_back(n as i64);
        assert(is_digit(value[0]));
    }
    assert(!crate::text::all_digits(crate::text::unsigned_part(Seq::<char>::empty())));
}

/// A character as codes write it, where the first `done` of the entities for a comma, a
/// colon, a bracket and an ampersand are resolved again.
pub open spec fn coded_char(c: char, done: int) -> Seq<char> {
    if c == ',' && done < 1 {
        "&#44;"@
    } else if c == ':' && done < 2 {
        "&#58;"@
    } else if c == ']' && done < 3 {
        "&#93;"@
    } else if c == '&' && done < 4 {
        "&amp;"@
    } else {
        seq![c]
    }
}

/// A text as codes write it, where the first `done` of the entities are resolved again.
pub open spec fn coded(s: Seq<char>, done: int) -> Seq<char>
    decreases s.len(),
{
    if s.len() == 0 {
        Seq::empty()
    } else {
        coded_char(s[0], done) + coded(s.subrange(1, s.len() as int), done)
    }
}

proof fn lemma_nothing_to_replace_before(
    s: Seq<char>,
    rest: Seq<char>,
    pattern: Seq<char>,
    with: Seq<char>,
)
    requires
        pattern.len() > 0,
        forall|i: int| 0 <= i < s.len() ==> s[i] != pattern[0],
    ensures
        replaced(s + rest, pattern, with) == s + replaced(rest, pattern, with),
    decreases s.len(),
{
    if s.len() == 0 {
        assert(s + rest =~= rest);
        assert(s + replaced(rest, pattern, with) =~= replaced(rest, pattern, with));
    } else {
        let all = s + rest;
        let tail = s.subrange(1, s.len() as int);
        assert forall|i: int| 0 <= i < tail.len() implies tail[i] != pattern[0] by {
            assert(tail[i] == s[i + 1]);
        }
        lemma_nothing_to_replace_before(tail, rest, pattern, with);
        assert(all[0] == s[0]);
        if crate::text::has_prefix(all, pattern) {
            assert(all.subrange(0, 0 + pattern.len() as int)[0] == pattern[0]);
        }
        assert(all.subrange(1, all.len() as int) =~= tail + rest);
        assert(seq![s[0]] + (tail + replaced(rest, pattern, with)) =~= s + replaced(
            rest,
            pattern,
            with,
        ));
    }
}

proof fn lemma_entities()
    ensures
        "&#44;"@ =~= seq!['&', '#', '4', '4', ';'],
        "&#58;"@ =~= seq!['&', '#', '5', '8', ';'],
        "&#93;"@ =~= seq!['&', '#', '9', '3', ';'],
        "&amp;"@ =~= seq!['&', 'a', 'm', 'p', ';'],
        ","@ =~= seq![','],
        ":"@ =~= seq![':'],
        "]"@ =~= seq![']'],
        "&"@ =~= seq!['&'],
{
    reveal_strlit("&#44;");
    reveal_strlit("&#58;");
    reveal_strlit("&#93;");
    reveal_strlit("&amp;");
    reveal_strlit(",");
    reveal_strlit(":");
    reveal_strlit("]");
    reveal_strlit("&");
}

/// One more entity is resolved.
proof fn lemma_one_more_entity(
    s: Seq<char>,
    done: int,
    pattern: Seq<char>,
    with: Seq<char>,
)
    requires
        0 <= done < 4,
        done == 0 ==> pattern == "&#44;"@ && with == ","@,
        done == 1 ==> pattern == "&#58;"@ && with == ":"@,
        done == 2 ==> pattern == "&#93;"@ && with == "]"@,
        done == 3 ==> pattern == "&amp;"@ && with == "&"@,
    ensures
        replaced(coded(s, done), pattern, with) == coded(s, done + 1),
    decreases s.len(),
{
    lemma_entities();
    if s.len() > 0 {
        let c = s[0];
        let rest = s.subrange(1, s.len() as int);
        let t = coded(rest, done);
        let e = coded_char(c, done);
        let all = e + t;
        lemma_one_more_entity(rest, done, pattern, with);
        if e.len() == 1 {
            assert(e[0] != '&');
            lemma_nothing_to_replace_before(e, t, pattern, with);
            assert(coded_char(c, done + 1) == e);
        } else {
            assert(e.len() == 5 && e[0] == '&');
            assert(all.subrange(0, 5) =~= e);
            assert(all.subrange(5, all.len() as int) =~= t);
            if e == pattern {
                assert(crate::text::has_prefix(all, pattern));
                assert(coded_char(c, done + 1) =~= with);
            } else {
                assert(!crate::text::has_prefix(all, pattern));
                let tail = e.subrange(1, 5);
                assert(all.subrange(1, all.len() as int) =~= tail + t);
                lemma_nothing_to_replace_before(tail, t, pattern, with);
                assert(seq![all[0]] + (tail + replaced(t, pattern, with)) =~= e + replaced(
                    t,
                    pattern,
                    with,
                ));
                assert(coded_char(c, done + 1) == e);
            }
        }
    }
}

proof fn lemma_all_resolved(s: Seq<char>)
    ensures
        coded(s, 4) == s,
    decreases s.len(),
{
    if s.len() > 0 {
        lemma_all_resolved(s.subrange(1, s.len() as int));
        assert(seq![s[0]] + s.subrange(1, s.len() as int) =~= s);
    } else {
        assert(coded(s, 4) =~= s);
    }
}

/// Any text can be written in a code: with its commas, colons, brackets and ampersands
/// written as entities it is read back as it was.
pub proof fn law_entities_are_resolved(s: Seq<char>)
    ensures
        unescaped(coded(s, 0)) == s,
{
    lemma_one_more_entity(s, 0, "&#44;"@, ","@);
    lemma_one_more_entity(s, 1, "&#58;"@, ":"@);
    lemma_one_more_entity(s, 2, "&#93;"@, "]"@);
    lemma_one_more_entity(s, 3, "&amp;"@, "&"@);
    lemma_all_resolved(s);
}

} // verus!
