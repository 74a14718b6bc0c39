//! YAML values.
//!
//! `Yaml` holds a YAML document as plain values; a number is kept as the text that
//! writes it. `serde_yaml` parses and prints.
use crate::json::is_whole;
use crate::text::{chars_of, i64_value, owned, same, string_of};
use serde_yaml::value::{Tag, TaggedValue};
use serde_yaml::Value;
use vstd::prelude::*;
use vstd::string::StringExecFns;

verus! {

/// The name of a YAML tag, never empty.
#[derive(Debug, PartialEq)]
pub struct YamlTag {
    name: String,
}

impl YamlTag {
    #[verifier::type_invariant]
    spec fn well_formed(self) -> bool {
        self.name@.len() > 0
    }

    /// The tag with a name; `None` for the empty name.
    pub fn new(name: String) -> (r: Option<YamlTag>)
        ensures
            match r {
                Some(tag) => name@.len() > 0 && tag@ == name@,
                None => name@.len() == 0,
            },
    {
        if name.as_str().is_empty() {
            None
        } else {
            Some(YamlTag { name })
        }
    }

    fn copy(&self) -> (r: YamlTag)
        ensures
            r@ == self@,
    {
        proof {
            use_type_invariant(self);
        }
        YamlTag { name: self.name.clone() }
    }
}

impl View for YamlTag {
    type V = Seq<char>;

    closed spec fn view(&self) -> Seq<char> {
        self.name@
    }
}

/// A YAML value.
#[derive(Debug, PartialEq)]
pub enum Yaml {
    Null,
    Bool(bool),
    /// A number, as it is written.
    Number(String),
    Text(String),
    List(Vec<Yaml>),
    /// The entries of a mapping, in order.
    Mapping(Vec<(Yaml, Yaml)>),
    Tagged(YamlTag, Box<Yaml>),
}

/// What a YAML value is, over mathematical sequences.
pub enum YamlView {
    Null,
    Bool(bool),
    Number(Seq<char>),
    Text(Seq<char>),
    List(Seq<YamlView>),
    Mapping(Seq<(YamlView, YamlView)>),
    Tagged(Seq<char>, Box<YamlView>),
}

/// The view of a YAML value.
pub open spec fn yaml_view(yaml: Yaml) -> YamlView
    decreases yaml,
{
    match yaml {
        Yaml::Null => YamlView::Null,
        Yaml::Bool(b) => YamlView::Bool(b),
        Yaml::Number(n) => YamlView::Number(n@),
        Yaml::Text(t) => YamlView::Text(t@),
        Yaml::List(items) => YamlView::List(
            Seq::new(
                items@.len(),
                |i: int|
                    if 0 <= i < items@.len() {
                        yaml_view(items@[i])
                    } else {
                        YamlView::Null
                    },
            ),
        ),
        Yaml::Mapping(entries) => YamlView::Mapping(
            Seq::new(
                entries@.len(),
                |i: int|
                    if 0 <= i < entries@.len() {
                        (yaml_view(entries@[i].0), yaml_view(entries@[i].1))
                    } else {
                        (YamlView::Null, YamlView::Null)
                    },
            ),
        ),
        Yaml::Tagged(tag, value) => YamlView::Tagged(tag@, Box::new(yaml_view(*value))),
    }
}

impl View for Yaml {
    type V = YamlView;

    open spec fn view(&self) -> YamlView {
        yaml_view(*self)
    }
}

/// The views of a list of YAML values.
pub open spec fn yaml_views(items: Seq<Yaml>) -> Seq<YamlView> {
    Seq::new(items.len(), |i: int| items[i]@)
}

/// The views of the entries of a mapping.
pub open spec fn entry_views(entries: Seq<(Yaml, Yaml)>) -> Seq<(YamlView, YamlView)> {
    Seq::new(entries.len(), |i: int| (entries[i].0@, entries[i].1@))
}

/// The view of a list is the list of the views.
pub proof fn lemma_list_view(items: Vec<Yaml>)
    ensures
        yaml_view(Yaml::List(items)) == YamlView::List(yaml_views(items@)),
{
    assert(yaml_view(Yaml::List(items))->List_0 =~= yaml_views(items@));
}

/// The view of a mapping is the mapping of the views.
pub proof fn lemma_mapping_view(entries: Vec<(Yaml, Yaml)>)
    ensures
        yaml_view(Yaml::Mapping(entries)) == YamlView::Mapping(entry_views(entries@)),
{
    assert(yaml_view(Yaml::Mapping(entries))->Mapping_0 =~= entry_views(entries@));
}

impl Clone for Yaml {
    fn clone(&self) -> (r: Yaml)
        ensures
            r@ == self@,
        decreases self,
    {
        match self {
            Yaml::Null => Yaml::Null,
            Yaml::Bool(b) => Yaml::Bool(*b),
            Yaml::Number(n) => Yaml::Number(n.clone()),
            Yaml::Text(t) => Yaml::Text(t.clone()),
            Yaml::List(items) => {
                let mut out: Vec<Yaml> = Vec::new();
                let mut i: usize = 0;
                while i < items.len()
                    invariant
                        i <= items@.len(),
                        self == Yaml::List(*items),
                        yaml_views(out@) == yaml_views(items@.take(i as int)),
                    decreases items@.len() - i,
                {
                    let ghost before = out@;
                    assert(decreases_to!(self->List_0 => items@));
                    assert(decreases_to!(items@ => items@[i as int]));
                    let copy = items[i].clone();
                    out.push(copy);
                    proof {
                        assert(yaml_views(out@) =~= yaml_views(before).push(copy@));
                        assert(yaml_views(items@.take(i + 1)) =~= yaml_views(
                            items@.take(i as int),
                        ).push(items@[i as int]@));
                    }
                    i = i + 1;
                }
                proof {
                    assert(items@.take(items@.len() as int) =~= items@);
                    lemma_list_view(*items);
                    lemma_list_view(out);
                }
                Yaml::List(out)
            },
            Yaml::Mapping(entries) => {
                let mut out: Vec<(Yaml, Yaml)> = Vec::new();
                let mut i: usize = 0;
                while i < entries.len()
                    invariant
                        i <= entries@.len(),
                        self == Yaml::Mapping(*entries),
                        entry_views(out@) == entry_views(entries@.take(i as int)),
                    decreases entries@.len() - i,
                {
                    let ghost before = out@;
                    assert(decreases_to!(self->Mapping_0 => entries@));
                    assert(decreases_to!(entries@ => entries@[i as int]));
                    assert(decreases_to!(entries@[i as int] => entries@[i as int].0));
                    assert(decreases_to!(entries@[i as int] => entries@[i as int].1));
                    let key = entries[i].0.clone();
                    let copy = entries[i].1.clone();
                    out.push((key, copy));
                    proof {
                        assert(entry_views(out@) =~= entry_views(before).push((key@, copy@)));
                        assert(entry_views(entries@.take(i + 1)) =~= entry_views(
                            entries@.take(i as int),
                        ).push((entries@[i as int].0@, entries@[i as int].1@)));
                    }
                    i = i + 1;
                }
                proof {
                    assert(entries@.take(entries@.len() as int) =~= entries@);
                    lemma_mapping_view(*entries);
                    lemma_mapping_view(out);
                }
                Yaml::Mapping(out)
            },
            Yaml::Tagged(tag, value) => {
                let inner: Yaml = (**value).clone();
                Yaml::Tagged(tag.copy(), Box::new(inner))
            },
        }
    }
}

// ---------------------------------------------------------------------------
// reading

/// The value under the tags.
pub open spec fn untagged(yaml: YamlView) -> YamlView
    decreases yaml,
{
    match yaml {
        YamlView::Tagged(_, value) => untagged(*value),
        _ => yaml,
    }
}

/// The text of a key, where it is one.
pub open spec fn key_text(key: YamlView) -> Option<Seq<char>> {
    match untagged(key) {
        YamlView::Text(t) => Some(t),
        _ => None,
    }
}

/// The entries of a value that is a mapping, tags aside.
pub open spec fn mapping_of(yaml: YamlView) -> Option<Seq<(YamlView, YamlView)>> {
    match untagged(yaml) {
        YamlView::Mapping(entries) => Some(entries),
        _ => None,
    }
}

impl Yaml {
    /// The value under the tags.
    pub fn untag(&self) -> (r: &Yaml)
        ensures
            r@ == untagged(self@),
        decreases self,
    {
        match self {
            Yaml::Tagged(_, value) => value.untag(),
            _ => self,
        }
    }

    /// The text of a value that is one, tags aside.
    pub fn as_str(&self) -> (r: Option<&str>)
        ensures
            match r {
                Some(t) => key_text(self@) == Some(t@),
                None => key_text(self@) is None,
            },
    {
        match self.untag() {
            Yaml::Text(t) => Some(t.as_str()),
            _ => None,
        }
    }

    /// The entries of a value that is a mapping, tags aside.
    pub fn as_mapping(&self) -> (r: Option<&Vec<(Yaml, Yaml)>>)
        ensures
            match r {
                Some(entries) => mapping_of(self@) == Some(entry_views(entries@)),
                None => mapping_of(self@) is None,
            },
    {
        match self.untag() {
            Yaml::Mapping(entries) => {
                proof {
                    lemma_mapping_view(*entries);
                }
                Some(entries)
            },
            _ => None,
        }
    }
}

/// The value that a mapping has for a text as key; the last one counts.
pub open spec fn entry_of(entries: Seq<(YamlView, YamlView)>, name: Seq<char>) -> Option<YamlView>
    decreases entries.len(),
{
    if entries.len() == 0 {
        None
    } else if entries.last().0 == YamlView::Text(name) {
        Some(entries.last().1)
    } else {
        entry_of(entries.drop_last(), name)
    }
}

/// What a value says under a name: a mapping, tags aside, with the name as key.
pub open spec fn value_at(yaml: YamlView, name: Seq<char>) -> Option<YamlView> {
    match mapping_of(yaml) {
        Some(entries) => entry_of(entries, name),
        None => None,
    }
}

impl Yaml {
    /// What the value says under a name.
    pub fn get(&self, name: &str) -> (r: Option<&Yaml>)
        ensures
            match r {
                Some(value) => value_at(self@, name@) == Some(value@),
                None => value_at(self@, name@) is None,
            },
    {
        match self.as_mapping() {
            None => None,
            Some(entries) => {
                let ghost all = entry_views(entries@);
                let mut i: usize = entries.len();
                assert(all.take(i as int) =~= all);
                while i > 0
                    invariant
                        i <= entries@.len(),
                        all == entry_views(entries@),
                        value_at(self@, name@) == entry_of(all.take(i as int), name@),
                    decreases i,
                {
                    i = i - 1;
                    assert(all.take(i + 1).drop_last() =~= all.take(i as int));
                    assert(all.take(i + 1).last() == all[i as int]);
                    if let Yaml::Text(text) = &entries[i].0 {
                        if same(text.as_str(), name) {
                            return Some(&entries[i].1);
                        }
                    }
                }
                None
            },
        }
    }
}

// ---------------------------------------------------------------------------
// serde_yaml

/// `serde_yaml::Value`, a YAML document in memory.
#[verifier::external_type_specification]
#[verifier::external_body]
pub struct ExYamlValue(serde_yaml::Value);

/// What a `serde_yaml::Value` holds: its variants one for one, a number and a tag
/// as their `Display` forms, the entries of a mapping in their order.
pub uninterp spec fn yaml_value_view(value: serde_yaml::Value) -> YamlView;

/// What `serde_yaml::from_str` reads from a text, else what its error says.
pub uninterp spec fn parsed_yaml(text: Seq<char>) -> Result<YamlView, Seq<char>>;

/// What `serde_yaml::Number` makes of a text that writes no whole number: a number as it
/// prints it again, or null where it cannot read the text.
pub uninterp spec fn other_yaml_number(text: Seq<char>) -> YamlView;

/// What some entries become in a `serde_yaml::Mapping` where their keys are not texts, or
/// not distinct; equal keys share one entry.
pub uninterp spec fn other_mapping(entries: Seq<(YamlView, YamlView)>) -> YamlView;

/// Whether the keys of some entries are texts, no two of them the same.
pub open spec fn distinct_texts(entries: Seq<(YamlView, YamlView)>) -> bool {
    &&& forall|i: int| 0 <= i < entries.len() ==> (#[trigger] entries[i]).0 is Text
    &&& forall|i: int, j: int|
        0 <= i < j < entries.len() ==> #[trigger] entries[i].0 != #[trigger] entries[j].0
}

/// How `serde_yaml` shows a tag: with one exclamation mark in front.
pub open spec fn shown_tag(name: Seq<char>) -> Seq<char> {
    if name.len() > 1 && name[0] == '!' {
        name
    } else {
        seq!['!'] + name
    }
}

/// The content of the `serde_yaml::Value` that is built from a YAML value.
pub open spec fn as_yaml_value(yaml: YamlView) -> YamlView
    decreases yaml,
{
    match yaml {
        YamlView::Number(n) => if is_whole(n) {
            yaml
        } else {
            other_yaml_number(n)
        },
        YamlView::List(items) => YamlView::List(
            Seq::new(
                items.len(),
                |i: int|
                    if 0 <= i < items.len() {
                        as_yaml_value(items[i])
                    } else {
                        YamlView::Null
                    },
            ),
        ),
        YamlView::Mapping(entries) => if distinct_texts(entries) {
            YamlView::Mapping(
                Seq::new(
                    entries.len(),
                    |i: int|
                        if 0 <= i < entries.len() {
                            (entries[i].0, as_yaml_value(entries[i].1))
                        } else {
                            (YamlView::Null, YamlView::Null)
                        },
                ),
            )
        } else {
            other_mapping(entries)
        },
        YamlView::Tagged(name, inner) => YamlView::Tagged(
            shown_tag(name),
            Box::new(as_yaml_value(*inner)),
        ),
        _ => yaml,
    }
}

/// The text that `serde_yaml::to_string` prints for a value; `None` where it fails.
pub uninterp spec fn yaml_value_text(value: YamlView) -> Option<Seq<char>>;

/// Calls `serde_yaml::from_str`. Its value and the words of its error depend on
/// the text alone.
#[verifier::external_body]
fn parse_yaml_value(text: &str) -> (r: Result<serde_yaml::Value, String>)
    ensures
        match r {
            Ok(value) => parsed_yaml(text@) == Ok::<YamlView, Seq<char>>(yaml_value_view(value)),
            Err(error) => parsed_yaml(text@) == Err::<YamlView, Seq<char>>(error@),
        },
{
    serde_yaml::from_str(text).map_err(|error| error.to_string())
}

/// Moves a `serde_yaml::Value` into a `Yaml`, variant by variant.
#[verifier::external_body]
fn yaml_of_value(value: Value) -> (yaml: Yaml)
    ensures
        yaml@ == yaml_value_view(value),
{
    match value {
        Value::Null => Yaml::Null,
        Value::Bool(b) => Yaml::Bool(b),
        Value::Number(n) => Yaml::Number(n.to_string()),
        Value::String(s) => Yaml::Text(s),
        Value::Sequence(items) => Yaml::List(items.into_iter().map(yaml_of_value).collect()),
        Value::Mapping(entries) => Yaml::Mapping(
            entries.into_iter().map(|(k, v)| (yaml_of_value(k), yaml_of_value(v))).collect(),
        ),
        Value::Tagged(t) => Yaml::Tagged(
            YamlTag { name: t.tag.to_string() }, Box::new(yaml_of_value(t.value))),
    }
}

/// Builds a `serde_yaml::Value` from a `Yaml`, variant by variant: numbers with
/// `serde_yaml::Number::from_str`, mappings by collecting into a `serde_yaml::Mapping`,
/// tags with `serde_yaml::value::Tag::new`. Whole numbers and mappings from distinct texts
/// stay what they are; what becomes of others depends on them alone.
#[verifier::external_body]
fn value_of_yaml(yaml: &Yaml) -> (value: Value)
    ensures
        yaml_value_view(value) == as_yaml_value(yaml@),
        match yaml@ {
            YamlView::Number(n) => !is_whole(n) ==> yaml_value_view(value) == other_yaml_number(n),
            YamlView::Mapping(entries) => !distinct_texts(entries) ==> yaml_value_view(value)
                == other_mapping(entries),
            _ => true,
        },
{
    match yaml {
        Yaml::Null => Value::Null,
        Yaml::Bool(b) => Value::Bool(*b),
        Yaml::Number(n) => n.parse().map_or(Value::Null, Value::Number),
        Yaml::Text(t) => Value::String(t.clone()),
        Yaml::List(items) => Value::Sequence(items.iter().map(value_of_yaml).collect()),
        Yaml::Mapping(entries) => Value::Mapping(
            entries.iter().map(|e| (value_of_yaml(&e.0), value_of_yaml(&e.1))).collect()),
        Yaml::Tagged(tag, inner) => Value::Tagged(Box::new(
            TaggedValue {
                tag: Tag::new(tag.name.clone()), value: value_of_yaml(inner) })),
    }
}

/// Calls `serde_yaml::to_string` on a `serde_yaml::Value`.
#[verifier::external_body]
fn print_yaml_value(value: &serde_yaml::Value) -> (r: Option<String>)
    ensures
        match r {
            Some(text) => yaml_value_text(yaml_value_view(*value)) == Some(text@),
            None => yaml_value_text(yaml_value_view(*value)) is None,
        },
{
    serde_yaml::to_string(value).ok()
}

/// The whole number that a value is, tags aside.
pub open spec fn int_in(yaml: YamlView) -> Option<i64> {
    match untagged(yaml) {
        YamlView::Number(text) => i64_value(text),
        _ => None,
    }
}

/// The list of whole numbers that a value is, tags aside; null is the empty list.
pub open spec fn ints_in(yaml: YamlView) -> Option<Seq<i64>> {
    match untagged(yaml) {
        YamlView::Null => Some(Seq::empty()),
        YamlView::List(items) => if forall|i: int|
            0 <= i < items.len() ==> int_in(#[trigger] items[i]) is Some {
            Some(Seq::new(items.len(), |i: int| int_in(items[i])->0))
        } else {
            None
        },
        _ => None,
    }
}

/// Calls `serde_yaml::from_value` for a list of `i64`. It gives the numbers of a list
/// that holds nothing but whole numbers in the range of `i64`, tags aside, the empty
/// list for null, and fails for all else.
#[verifier::external_body]
fn ints_of_value(value: serde_yaml::Value) -> (r: Option<Vec<i64>>)
    ensures
        match r {
            Some(list) => ints_in(yaml_value_view(value)) == Some(list@),
            None => ints_in(yaml_value_view(value)) is None,
        },
{
    serde_yaml::from_value::<Vec<i64>>(value).ok()
}

impl Yaml {
    /// The list of whole numbers that the value is.
    pub fn as_ints(&self) -> (r: Option<Vec<i64>>)
        ensures
            match r {
                Some(list) => ints_in(as_yaml_value(self@)) == Some(list@),
                None => ints_in(as_yaml_value(self@)) is None,
            },
    {
        ints_of_value(value_of_yaml(self))
    }
}

/// What reading a YAML document gives, else what the error says.
pub open spec fn result_view(r: Result<Yaml, String>) -> Result<YamlView, Seq<char>> {
    match r {
        Ok(yaml) => Ok(yaml@),
        Err(error) => Err(error@),
    }
}

/// Reads a YAML document.
pub fn parse_yaml(text: &str) -> (r: Result<Yaml, String>)
    ensures
        result_view(r) == parsed_yaml(text@),
{
    match parse_yaml_value(text) {
        Ok(value) => Ok(yaml_of_value(value)),
        Err(error) => Err(error),
    }
}

/// A text without the byte order mark that it may begin with.
pub open spec fn without_mark(text: Seq<char>) -> Seq<char> {
    if text.len() > 0 && text[0] == '\u{feff}' {
        text.skip(1)
    } else {
        text
    }
}

/// Takes off the byte order mark that a text may begin with.
pub fn strip_mark(text: &str) -> (r: String)
    ensures
        r@ == without_mark(text@),
{
    let chars = chars_of(text);
    if chars.len() > 0 && chars[0] == '\u{feff}' {
        let r = string_of(&chars, 1, chars.len());
        assert(r@ =~= text@.skip(1));
        r
    } else {
        owned(text)
    }
}

/// What reading the text of a file gives, else a complaint with what the error says.
pub open spec fn document_in(text: Seq<char>, complaint: Seq<char>) -> Result<
    YamlView,
    Seq<char>,
> {
    match parsed_yaml(without_mark(text)) {
        Ok(yaml) => Ok(yaml),
        Err(error) => Err(complaint + error),
    }
}

/// Reads the text of a file.
pub fn read_document(text: &str, complaint: &str) -> (r: Result<Yaml, String>)
    ensures
        result_view(r) == document_in(text@, complaint@),
{
    match parse_yaml(strip_mark(text).as_str()) {
        Ok(yaml) => Ok(yaml),
        Err(error) => {
            let mut reason = owned(complaint);
            reason.append(error.as_str());
            Err(reason)
        },
    }
}

/// The text of a YAML document; `None` where it cannot be printed.
pub open spec fn yaml_text(yaml: YamlView) -> Option<Seq<char>> {
    yaml_value_text(as_yaml_value(yaml))
}

/// Prints a YAML document; `None` where it cannot be printed.
pub fn render_yaml(yaml: &Yaml) -> (r: Option<String>)
    ensures
        match r {
            Some(text) => yaml_text(yaml@) == Some(text@),
            None => yaml_text(yaml@) is None,
        },
{
    print_yaml_value(&value_of_yaml(yaml))
}

/// What a mapping says under a name is the last entry for it.
pub proof fn law_the_last_entry_counts(
    entries: Seq<(YamlView, YamlView)>,
    i: int,
    name: Seq<char>,
)
    ensures
        0 <= i < entries.len() && entries[i].0 == YamlView::Text(name) && (forall|k: int|
            i < k < entries.len() ==> (#[trigger] entries[k]).0 != YamlView::Text(name))
            ==> value_at(YamlView::Mapping(entries), name) == Some(entries[i].1),
        (forall|k: int|
            0 <= k < entries.len() ==> (#[trigger] entries[k]).0 != YamlView::Text(name))
            ==> value_at(YamlView::Mapping(entries), name) is None,
    decreases entries.len(),
{
    if entries.len() > 0 {
        let head = entries.drop_last();
        law_the_last_entry_counts(head, i, name);
        assert(forall|k: int| 0 <= k < head.len() ==> head[k] == entries[k]);
        assert(entries.last() == entries[entries.len() - 1]);
        assert(value_at(YamlView::Mapping(head), name) == entry_of(head, name));
    }
}

/// A mark at the start of a file makes no difference, and nothing else is taken off.
pub proof fn law_marks_make_no_difference(text: Seq<char>, complaint: Seq<char>)
    requires
        text.len() == 0 || text[0] != '\u{feff}',
    ensures
        document_in(seq!['\u{feff}'] + text, complaint) == document_in(text, complaint),
        without_mark(text) == text,
{
    assert((seq!['\u{feff}'] + text).skip(1) =~= text);
}

} // verus!
