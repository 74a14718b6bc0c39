//! JSON values.
//!
//! `Json` holds what the library reads of a JSON document. A number is kept as
//! the text that writes it. `serde_json` parses and prints.
use crate::collections::text_less;
use crate::text::{decimal, i64_text, i64_value, owned, parse_i64, same, u64_text};
use vstd::prelude::*;

verus! {

/// A JSON value.
#[derive(Debug, PartialEq)]
pub enum Json {
    Null,
    Bool(bool),
    /// A number, as it is written.
    Number(String),
    Text(String),
    Array(Vec<Json>),
    /// The members of an object, in order.
    Object(Vec<(String, Json)>),
}

/// What a JSON value is, over mathematical sequences.
pub enum JsonView {
    Null,
    Bool(bool),
    Number(Seq<char>),
    Text(Seq<char>),
    Array(Seq<JsonView>),
    Object(Seq<(Seq<char>, JsonView)>),
}

/// The view of a JSON value.
pub open spec fn json_view(json: Json) -> JsonView
    decreases json,
{
    match json {
        Json::Null => JsonView::Null,
        Json::Bool(b) => JsonView::Bool(b),
        Json::Number(n) => JsonView::Number(n@),
        Json::Text(t) => JsonView::Text(t@),
        Json::Array(items) => JsonView::Array(
            Seq::new(
                items@.len(),
                |i: int|
                    if 0 <= i < items@.len() {
                        json_view(items@[i])
                    } else {
                        JsonView::Null
                    },
            ),
        ),
        Json::Object(members) => JsonView::Object(
            Seq::new(
                members@.len(),
                |i: int|
                    if 0 <= i < members@.len() {
                        (members@[i].0@, json_view(members@[i].1))
                    } else {
                        (Seq::empty(), JsonView::Null)
                    },
            ),
        ),
    }
}

impl View for Json {
    type V = JsonView;

    open spec fn view(&self) -> JsonView {
        json_view(*self)
    }
}

/// The views of a list of JSON values.
pub open spec fn json_views(items: Seq<Json>) -> Seq<JsonView> {
    Seq::new(items.len(), |i: int| items[i]@)
}

/// The views of the members of an object.
pub open spec fn member_views(members: Seq<(String, Json)>) -> Seq<(Seq<char>, JsonView)> {
    Seq::new(members.len(), |i: int| (members[i].0@, members[i].1@))
}

/// The view of a JSON value that may be missing.
pub open spec fn option_view(json: Option<Json>) -> Option<JsonView> {
    match json {
        Some(j) => Some(j@),
        None => None,
    }
}

/// The view of an array is the array of the views.
pub broadcast proof fn lemma_array_view(items: Vec<Json>)
    ensures
        #[trigger] json_view(Json::Array(items)) == JsonView::Array(json_views(items@)),
{
    assert(json_view(Json::Array(items))->Array_0 =~= json_views(items@));
}

/// The view of an object is the object of the views.
pub broadcast proof fn lemma_object_view(members: Vec<(String, Json)>)
    ensures
        #[trigger] json_view(Json::Object(members)) == JsonView::Object(member_views(members@)),
{
    assert(json_view(Json::Object(members))->Object_0 =~= member_views(members@));
}

// ---------------------------------------------------------------------------
// building

/// The JSON number of an integer.
pub open spec fn number(n: int) -> JsonView {
    JsonView::Number(decimal(n))
}

/// An object without members; `push` adds one.
pub open spec fn no_members() -> Seq<(Seq<char>, JsonView)> {
    Seq::empty()
}

/// One more member at the end, unless the value is null.
pub open spec fn push_present(
    members: Seq<(Seq<char>, JsonView)>,
    key: Seq<char>,
    value: JsonView,
) -> Seq<(Seq<char>, JsonView)> {
    if value is Null {
        members
    } else {
        members.push((key, value))
    }
}

/// The JSON value of an optional text.
pub open spec fn present_text(text: Option<&str>) -> JsonView {
    match text {
        Some(t) => JsonView::Text(t@),
        None => JsonView::Null,
    }
}

/// The JSON value of an optional number.
pub open spec fn present_number(n: Option<i64>) -> JsonView {
    match n {
        Some(n) => number(n as int),
        None => JsonView::Null,
    }
}

/// The members of an object under construction.
pub struct Members {
    pub entries: Vec<(String, Json)>,
}

impl View for Members {
    type V = Seq<(Seq<char>, JsonView)>;

    open spec fn view(&self) -> Seq<(Seq<char>, JsonView)> {
        member_views(self.entries@)
    }
}

impl Members {
    /// No member.
    pub fn new() -> (r: Members)
        ensures
            r@ == no_members(),
    {
        let r = Members { entries: Vec::new() };
        assert(r@ =~= Seq::<(Seq<char>, JsonView)>::empty());
        r
    }

    /// One more member at the end.
    pub fn with(self, key: &str, value: Json) -> (r: Members)
        ensures
            r@ == self@.push((key@, value@)),
    {
        let mut entries = self.entries;
        entries.push((owned(key), value));
        let r = Members { entries };
        assert(r@ =~= self@.push((key@, value@)));
        r
    }

    /// One more member at the end, unless the value is null.
    pub fn with_present(self, key: &str, value: Json) -> (r: Members)
        ensures
            r@ == push_present(self@, key@, value@),
    {
        match value {
            Json::Null => self,
            value => self.with(key, value),
        }
    }

    /// The object with these members.
    pub fn object(self) -> (r: Json)
        ensures
            r@ == JsonView::Object(self@),
    {
        proof {
            lemma_object_view(self.entries);
        }
        Json::Object(self.entries)
    }
}

impl Json {
    /// A text.
    pub fn text(text: &str) -> (r: Json)
        ensures
            r@ == JsonView::Text(text@),
    {
        Json::Text(owned(text))
    }

    /// A signed integer.
    pub fn signed(n: i64) -> (r: Json)
        ensures
            r@ == number(n as int),
    {
        Json::Number(i64_text(n))
    }

    /// An unsigned integer.
    pub fn unsigned(n: u64) -> (r: Json)
        ensures
            r@ == number(n as int),
    {
        Json::Number(u64_text(n))
    }

    /// A text, or null when there is none.
    pub fn maybe_text(text: Option<&str>) -> (r: Json)
        ensures
            r@ == present_text(text),
    {
        match text {
            Some(t) => Json::text(t),
            None => Json::Null,
        }
    }

    /// A number, or null when there is none.
    pub fn maybe_number(n: Option<i64>) -> (r: Json)
        ensures
            r@ == present_number(n),
    {
        match n {
            Some(n) => Json::signed(n),
            None => Json::Null,
        }
    }

    /// An object with one member.
    pub fn object_of(key: &str, value: Json) -> (r: Json)
        ensures
            r@ == JsonView::Object(no_members().push((key@, value@))),
    {
        Members::new().with(key, value).object()
    }
}

impl Clone for Json {
    fn clone(&self) -> (r: Json)
        ensures
            r@ == self@,
        decreases self,
    {
        match self {
            Json::Null => Json::Null,
            Json::Bool(b) => Json::Bool(*b),
            Json::Number(n) => Json::Number(n.clone()),
            Json::Text(t) => Json::Text(t.clone()),
            Json::Array(items) => {
                let mut out: Vec<Json> = Vec::new();
                let mut i: usize = 0;
                while i < items.len()
                    invariant
                        i <= items@.len(),
                        self == Json::Array(*items),
                        json_views(out@) == json_views(items@.take(i as int)),
                    decreases items@.len() - i,
                {
                    let ghost before = out@;
                    assert(decreases_to!(self->Array_0 => items@));
                    assert(decreases_to!(items@ => items@[i as int]));
                    let copy = items[i].clone();
                    out.push(copy);
                    proof {
                        assert(json_views(out@) =~= json_views(before).push(copy@));
                        assert(json_views(items@.take(i + 1)) =~= json_views(
                            items@.take(i as int),
                        ).push(items@[i as int]@));
                    }
                    i = i + 1;
                }
                proof {
                    assert(items@.take(items@.len() as int) =~= items@);
                    lemma_array_view(*items);
                    lemma_array_view(out);
                }
                Json::Array(out)
            },
            Json::Object(members) => {
                let mut out: Vec<(String, Json)> = Vec::new();
                let mut i: usize = 0;
                while i < members.len()
                    invariant
                        i <= members@.len(),
                        self == Json::Object(*members),
                        member_views(out@) == member_views(members@.take(i as int)),
                    decreases members@.len() - i,
                {
                    let ghost before = out@;
                    let key = members[i].0.clone();
                    assert(decreases_to!(self->Object_0 => members@));
                    assert(decreases_to!(members@ => members@[i as int]));
                    assert(decreases_to!(members@[i as int] => members@[i as int].1));
                    let copy = members[i].1.clone();
                    out.push((key, copy));
                    proof {
                        assert(member_views(out@) =~= member_views(before).push((key@, copy@)));
                        assert(member_views(members@.take(i + 1)) =~= member_views(
                            members@.take(i as int),
                        ).push((members@[i as int].0@, members@[i as int].1@)));
                    }
                    i = i + 1;
                }
                proof {
                    assert(members@.take(members@.len() as int) =~= members@);
                    lemma_object_view(*members);
                    lemma_object_view(out);
                }
                Json::Object(out)
            },
        }
    }
}

// ---------------------------------------------------------------------------
// reading

/// The value of the first member with a key.
pub open spec fn lookup(members: Seq<(Seq<char>, JsonView)>, key: Seq<char>) -> Option<JsonView>
    decreases members.len(),
{
    if members.len() == 0 {
        None
    } else if members[0].0 == key {
        Some(members[0].1)
    } else {
        lookup(members.subrange(1, members.len() as int), key)
    }
}

/// The member of an object; no other value has members.
pub open spec fn field(json: JsonView, key: Seq<char>) -> Option<JsonView> {
    match json {
        JsonView::Object(members) => lookup(members, key),
        _ => None,
    }
}

/// The text of a JSON text.
pub open spec fn text_of(json: Option<JsonView>) -> Option<Seq<char>> {
    match json {
        Some(JsonView::Text(t)) => Some(t),
        _ => None,
    }
}

/// The integer of a JSON number that writes an `i64`.
pub open spec fn int_of(json: Option<JsonView>) -> Option<i64> {
    match json {
        Some(JsonView::Number(n)) => i64_value(n),
        _ => None,
    }
}

/// The view of an optional string.
pub open spec fn option_text(s: Option<String>) -> Option<Seq<char>> {
    match s {
        Some(t) => Some(t@),
        None => None,
    }
}

/// Finds a member among the members of an object.
pub fn find_member<'a>(members: &'a Vec<(String, Json)>, key: &str) -> (r: Option<&'a Json>)
    ensures
        match r {
            Some(j) => lookup(member_views(members@), key@) == Some(j@),
            None => lookup(member_views(members@), key@) is None,
        },
{
    let mut i: usize = 0;
    let ghost all = member_views(members@);
    assert(all.subrange(0, all.len() as int) =~= all);
    while i < members.len()
        invariant
            i <= members@.len(),
            all == member_views(members@),
            lookup(all, key@) == lookup(all.subrange(i as int, all.len() as int), key@),
        decreases members@.len() - i,
    {
        let ghost rest = all.subrange(i as int, all.len() as int);
        if same(members[i].0.as_str(), key) {
            return Some(&members[i].1);
        }
        assert(rest.subrange(1, rest.len() as int) =~= all.subrange(i + 1, all.len() as int));
        i = i + 1;
    }
    None
}

impl Json {
    /// The member of an object with a key.
    pub fn get(&self, key: &str) -> (r: Option<&Json>)
        ensures
            match r {
                Some(j) => field(self@, key@) == Some(j@),
                None => field(self@, key@) is None,
            },
    {
        match self {
            Json::Object(members) => {
                proof {
                    lemma_object_view(*members);
                }
                find_member(members, key)
            },
            _ => None,
        }
    }

    /// A copy of the member of an object with a key.
    pub fn get_copy(&self, key: &str) -> (r: Option<Json>)
        ensures
            option_view(r) == field(self@, key@),
    {
        match self.get(key) {
            Some(j) => Some(j.clone()),
            None => None,
        }
    }

    /// Whether an object has a member with a key.
    pub fn has(&self, key: &str) -> (r: bool)
        ensures
            r == field(self@, key@) is Some,
    {
        self.get(key).is_some()
    }

    /// The text of a JSON text.
    pub fn as_str(&self) -> (r: Option<&str>)
        ensures
            match r {
                Some(t) => text_of(Some(self@)) == Some(t@),
                None => text_of(Some(self@)) is None,
            },
    {
        match self {
            Json::Text(t) => Some(t.as_str()),
            _ => None,
        }
    }

    /// The integer of a JSON number that writes an `i64`.
    pub fn as_i64(&self) -> (r: Option<i64>)
        ensures
            r == int_of(Some(self@)),
    {
        match self {
            Json::Number(n) => parse_i64(n.as_str()),
            _ => None,
        }
    }

    /// The text of a member that is a JSON text.
    pub fn get_text(&self, key: &str) -> (r: Option<String>)
        ensures
            option_text(r) == text_of(field(self@, key@)),
    {
        match self.get(key) {
            Some(j) => match j.as_str() {
                Some(t) => Some(owned(t)),
                None => None,
            },
            None => None,
        }
    }

    /// Whether the value is an object.
    pub fn is_object(&self) -> (r: bool)
        ensures
            r == self@ is Object,
    {
        match self {
            Json::Object(_) => true,
            _ => false,
        }
    }
}

// ---------------------------------------------------------------------------
// serde_json

/// `serde_json::Value`, a JSON document in memory.
#[verifier::external_type_specification]
#[verifier::external_body]
pub struct ExValue(serde_json::Value);

/// What a `serde_json::Value` holds: its variants one for one, a number as its
/// `Display` form, the entries of a map in the order of its iteration.
pub uninterp spec fn value_view(value: serde_json::Value) -> JsonView;

/// What `serde_json::from_str` reads from a text; `None` where it fails.
pub uninterp spec fn parsed_json(text: Seq<char>) -> Option<JsonView>;

/// Whether a text writes a whole number as `serde_json::Number` holds it: in the range
/// of `i64` or of `u64`, with no sign but the minus and no zeros in front.
pub open spec fn is_whole(text: Seq<char>) -> bool {
    exists|n: int| i64::MIN <= n <= u64::MAX && text == #[trigger] decimal(n)
}

/// What `serde_json::Number` makes of a text that writes no whole number: a number as it
/// prints it again, or null where it cannot read the text.
pub uninterp spec fn other_number(text: Seq<char>) -> JsonView;

/// What `serde_json::Number` makes of a text.
pub open spec fn as_number(text: Seq<char>) -> JsonView {
    if is_whole(text) {
        JsonView::Number(text)
    } else {
        other_number(text)
    }
}

/// The entries of a `serde_json::Map`, which go by their keys, after one more entry was
/// put in. An entry with the same key gives way.
pub open spec fn put_entry(
    entries: Seq<(Seq<char>, JsonView)>,
    key: Seq<char>,
    value: JsonView,
) -> Seq<(Seq<char>, JsonView)>
    decreases entries.len(),
{
    if entries.len() == 0 {
        no_members().push((key, value))
    } else if entries[0].0 == key {
        entries.update(0, (key, value))
    } else if text_less(key, entries[0].0) {
        no_members().push((key, value)) + entries
    } else {
        no_members().push(entries[0]) + put_entry(
            entries.subrange(1, entries.len() as int),
            key,
            value,
        )
    }
}

/// The entries of the `serde_json::Map` that some members make.
pub open spec fn as_map(members: Seq<(Seq<char>, JsonView)>) -> Seq<(Seq<char>, JsonView)>
    decreases members,
{
    if members.len() == 0 {
        members
    } else {
        put_entry(as_map(members.drop_last()), members.last().0, as_value(members.last().1))
    }
}

/// The content of the `serde_json::Value` that is built from a JSON value. Numbers are
/// read again, and the members of an object go by their keys, the last of those with one
/// key alone.
pub open spec fn as_value(json: JsonView) -> JsonView
    decreases json,
{
    match json {
        JsonView::Number(n) => as_number(n),
        JsonView::Array(items) => JsonView::Array(
            Seq::new(
                items.len(),
                |i: int|
                    if 0 <= i < items.len() {
                        as_value(items[i])
                    } else {
                        JsonView::Null
                    },
            ),
        ),
        JsonView::Object(members) => JsonView::Object(as_map(members)),
        _ => json,
    }
}

/// How many arrays and objects may lie in one another in a text that is read.
pub const JSON_DEPTH: u64 = 127;

/// Whether a value prints to a text that reads back as the value: its numbers are whole,
/// and no more than `room` arrays and objects lie in one another.
pub open spec fn prints_exactly(json: JsonView, room: int) -> bool
    decreases json,
{
    match json {
        JsonView::Number(n) => is_whole(n),
        JsonView::Array(items) => room > 0 && forall|i: int|
            0 <= i < items.len() ==> prints_exactly(#[trigger] items[i], room - 1),
        JsonView::Object(members) => room > 0 && forall|i: int|
            0 <= i < members.len() ==> prints_exactly((#[trigger] members[i]).1, room - 1),
        _ => true,
    }
}

/// The compact text that a `serde_json::Value` prints.
pub uninterp spec fn json_text(value: JsonView) -> Seq<char>;

/// Calls `serde_json::from_str`. Its success and its value depend on the text
/// alone.
#[verifier::external_body]
fn parse_value(text: &str) -> (r: Option<serde_json::Value>)
    ensures
        match r {
            Some(value) => parsed_json(text@) == Some(value_view(value)),
            None => parsed_json(text@) is None,
        },
{
    serde_json::from_str(text).ok()
}

/// Moves a `serde_json::Value` into a `Json`, variant by variant.
#[verifier::external_body]
fn json_of_value(value: serde_json::Value) -> (json: Json)
    ensures
        json@ == value_view(value),
{
    match value {
        serde_json::Value::Null => Json::Null,
        serde_json::Value::Bool(b) => Json::Bool(b),
        serde_json::Value::Number(n) => Json::Number(n.to_string()),
        serde_json::Value::String(s) => Json::Text(s),
        serde_json::Value::Array(items) => Json::Array(items.into_iter().map(json_of_value).collect()),
        serde_json::Value::Object(members) => Json::Object(
            members.into_iter().map(|(key, member)| (key, json_of_value(member))).collect(),
        ),
    }
}

/// Builds a `serde_json::Value` from a `Json`, variant by variant: numbers with
/// `serde_json::Number::from_str`, objects by collecting into a `serde_json::Map`, which
/// is a `BTreeMap` here. What becomes of a number that is not whole depends on its text
/// alone.
#[verifier::external_body]
fn value_of_json(json: &Json) -> (value: serde_json::Value)
    ensures
        value_view(value) == as_value(json@),
        match json@ {
            JsonView::Number(n) => !is_whole(n) ==> value_view(value) == other_number(n),
            _ => true,
        },
{
    match json {
        Json::Null => serde_json::Value::Null,
        Json::Bool(b) => serde_json::Value::Bool(*b),
        Json::Number(n) => n.parse().map_or(serde_json::Value::Null, serde_json::Value::Number),
        Json::Text(t) => serde_json::Value::String(t.clone()),
        Json::Array(items) => serde_json::Value::Array(items.iter().map(value_of_json).collect()),
        Json::Object(members) => serde_json::Value::Object(
            members.iter().map(|member| (member.0.clone(), value_of_json(&member.1))).collect(),
        ),
    }
}

/// Calls `Display` of `serde_json::Value`, which prints the value without spaces.
/// `serde_json::from_str` reads the same value from that text, as long as its numbers are
/// whole and it stays within the depth that `serde_json::from_str` reads.
#[verifier::external_body]
fn value_text(value: &serde_json::Value) -> (r: String)
    ensures
        r@ == json_text(value_view(*value)),
        prints_exactly(value_view(*value), JSON_DEPTH as int) ==> parsed_json(r@) == Some(
            value_view(*value),
        ),
{
    value.to_string()
}

/// Reads a JSON document.
pub fn parse_json(text: &str) -> (r: Option<Json>)
    ensures
        option_view(r) == parsed_json(text@),
{
    match parse_value(text) {
        Some(value) => Some(json_of_value(value)),
        None => None,
    }
}

/// The value of the last member with a key.
pub open spec fn lookup_last(
    members: Seq<(Seq<char>, JsonView)>,
    key: Seq<char>,
) -> Option<JsonView>
    decreases members.len(),
{
    if members.len() == 0 {
        None
    } else if members.last().0 == key {
        Some(members.last().1)
    } else {
        lookup_last(members.drop_last(), key)
    }
}

proof fn lemma_put_entry_lookup(
    entries: Seq<(Seq<char>, JsonView)>,
    key: Seq<char>,
    value: JsonView,
    other: Seq<char>,
)
    ensures
        lookup(put_entry(entries, key, value), other) == if other == key {
            Some(value)
        } else {
            lookup(entries, other)
        },
    decreases entries.len(),
{
    let after = put_entry(entries, key, value);
    reveal_with_fuel(lookup, 2);
    if entries.len() == 0 {
    } else if entries[0].0 == key {
        assert(after.subrange(1, after.len() as int) =~= entries.subrange(
            1,
            entries.len() as int,
        ));
    } else if text_less(key, entries[0].0) {
        assert(after.subrange(1, after.len() as int) =~= entries);
    } else {
        let rest = entries.subrange(1, entries.len() as int);
        lemma_put_entry_lookup(rest, key, value, other);
        assert(after.subrange(1, after.len() as int) =~= put_entry(rest, key, value));
    }
}

proof fn lemma_as_map_lookup(members: Seq<(Seq<char>, JsonView)>, key: Seq<char>)
    ensures
        lookup(as_map(members), key) == match lookup_last(members, key) {
            Some(value) => Some(as_value(value)),
            None => None,
        },
    decreases members.len(),
{
    if members.len() > 0 {
        lemma_as_map_lookup(members.drop_last(), key);
        lemma_put_entry_lookup(
            as_map(members.drop_last()),
            members.last().0,
            as_value(members.last().1),
            key,
        );
    }
}

/// A member of an object stays what it is when the object is built as a
/// `serde_json::Value`; of several members with one key it is the last.
pub proof fn lemma_field_as_value(members: Seq<(Seq<char>, JsonView)>, key: Seq<char>)
    ensures
        field(as_value(JsonView::Object(members)), key) == match lookup_last(members, key) {
            Some(value) => Some(as_value(value)),
            None => None,
        },
{
    lemma_as_map_lookup(members, key);
}

/// Whether every value of some members prints exactly.
spec fn members_exact(members: Seq<(Seq<char>, JsonView)>, room: int) -> bool {
    forall|i: int| 0 <= i < members.len() ==> prints_exactly((#[trigger] members[i]).1, room)
}

proof fn lemma_put_entry_exact(
    entries: Seq<(Seq<char>, JsonView)>,
    key: Seq<char>,
    value: JsonView,
    room: int,
)
    requires
        members_exact(entries, room),
        prints_exactly(value, room),
    ensures
        members_exact(put_entry(entries, key, value), room),
    decreases entries.len(),
{
    let after = put_entry(entries, key, value);
    if entries.len() == 0 || entries[0].0 == key {
        assert forall|i: int| 0 <= i < after.len() implies prints_exactly(
            (#[trigger] after[i]).1,
            room,
        ) by {
            if i > 0 {
                assert(after[i] == entries[i]);
            }
        }
    } else if text_less(key, entries[0].0) {
        assert forall|i: int| 0 <= i < after.len() implies prints_exactly(
            (#[trigger] after[i]).1,
            room,
        ) by {
            if i > 0 {
                assert(after[i] == entries[i - 1]);
            }
        }
    } else {
        let rest = entries.subrange(1, entries.len() as int);
        assert forall|i: int| 0 <= i < rest.len() implies prints_exactly(
            (#[trigger] rest[i]).1,
            room,
        ) by {
            assert(rest[i] == entries[i + 1]);
        }
        lemma_put_entry_exact(rest, key, value, room);
        let tail = put_entry(rest, key, value);
        assert forall|i: int| 0 <= i < after.len() implies prints_exactly(
            (#[trigger] after[i]).1,
            room,
        ) by {
            if i > 0 {
                assert(after[i] == tail[i - 1]);
            } else {
                assert(after[i] == entries[0]);
            }
        }
    }
}

proof fn lemma_as_map_exact(members: Seq<(Seq<char>, JsonView)>, room: int)
    requires
        members_exact(members, room),
    ensures
        members_exact(as_map(members), room),
    decreases members,
{
    if members.len() > 0 {
        let rest = members.drop_last();
        assert forall|i: int| 0 <= i < rest.len() implies prints_exactly(
            (#[trigger] rest[i]).1,
            room,
        ) by {
            assert(rest[i] == members[i]);
        }
        lemma_as_map_exact(rest, room);
        assert(members.last() == members[members.len() - 1]);
        lemma_as_value_exact(members.last().1, room);
        lemma_put_entry_exact(as_map(rest), members.last().0, as_value(members.last().1), room);
    }
}

/// What prints exactly still does after it is built as a `serde_json::Value`.
pub proof fn lemma_as_value_exact(json: JsonView, room: int)
    requires
        prints_exactly(json, room),
    ensures
        prints_exactly(as_value(json), room),
    decreases json,
{
    match json {
        JsonView::Array(items) => {
            let built = as_value(json)->Array_0;
            assert forall|i: int| 0 <= i < built.len() implies prints_exactly(
                #[trigger] built[i],
                room - 1,
            ) by {
                lemma_as_value_exact(items[i], room - 1);
            }
        },
        JsonView::Object(members) => {
            lemma_as_map_exact(members, room - 1);
        },
        _ => {},
    }
}

/// Prints a JSON document without spaces. The text reads back as the document.
pub fn render_json(json: &Json) -> (r: String)
    ensures
        r@ == json_text(as_value(json@)),
        prints_exactly(json@, JSON_DEPTH as int) ==> parsed_json(r@) == Some(as_value(json@)),
{
    proof {
        if prints_exactly(json@, JSON_DEPTH as int) {
            lemma_as_value_exact(json@, JSON_DEPTH as int);
        }
    }
    value_text(&value_of_json(json))
}

/// What an object says under a key is its first member with it.
pub proof fn law_the_first_member_counts(members: Seq<(Seq<char>, JsonView)>, i: int, key: Seq<char>)
    ensures
        0 <= i < members.len() && members[i].0 == key && (forall|k: int|
            0 <= k < i ==> (#[trigger] members[k]).0 != key) ==> field(
            JsonView::Object(members),
            key,
        ) == Some(members[i].1),
        (forall|k: int| 0 <= k < members.len() ==> (#[trigger] members[k]).0 != key) ==> field(
            JsonView::Object(members),
            key,
        ) is None,
    decreases members.len(),
{
    if members.len() > 0 {
        let rest = members.subrange(1, members.len() as int);
        law_the_first_member_counts(rest, i - 1, key);
        assert(forall|k: int| 0 <= k < rest.len() ==> rest[k] == members[k + 1]);
        assert(field(JsonView::Object(rest), key) == lookup(rest, key));
        if i > 0 && 0 <= i < members.len() && members[i].0 == key && (forall|k: int|
            0 <= k < i ==> (#[trigger] members[k]).0 != key) {
            assert(members[0].0 != key);
            assert(rest[i - 1] == members[i]);
            assert forall|k: int| 0 <= k < i - 1 implies (#[trigger] rest[k]).0 != key by {
                assert(rest[k] == members[k + 1]);
            }
        }
        if forall|k: int| 0 <= k < members.len() ==> (#[trigger] members[k]).0 != key {
            assert(members[0].0 != key);
            assert forall|k: int| 0 <= k < rest.len() implies (#[trigger] rest[k]).0 != key by {
                assert(rest[k] == members[k + 1]);
            }
        }
    }
}

/// A number is read as the number that was written, and only numbers are; only texts are
/// read as texts.
pub proof fn law_numbers_and_texts_are_what_they_are(n: i64, text: Seq<char>)
    ensures
        int_of(Some(number(n as int))) == Some(n),
        int_of(Some(JsonView::Text(text))) is None,
        text_of(Some(JsonView::Text(text))) == Some(text),
        text_of(Some(number(n as int))) is None,
        present_number(Some(n)) == number(n as int),
        present_number(None) is Null,
{
    crate::text::law_decimal_reads_back(n);
}

} // verus!
