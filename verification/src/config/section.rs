//! The configuration sections of plugins: who owns which, and how they are written.
use crate::text::{
    contains_text, holds, lemma_holds, lemma_holds_within, lines, lines_spec, lists, owned, same, texts, trim_final_feeds,
    without_final_feeds,
};
use crate::yaml::{
    entry_views, key_text, lemma_mapping_view, render_yaml, yaml_text, Yaml, YamlView,
};
use vstd::prelude::*;
use vstd::string::StringExecFns;

verus! {

// ---------------------------------------------------------------------------
// comments

/// The comments of a section: paths, and what is said of each.
pub open spec fn comment_views(comments: Seq<(String, String)>) -> Seq<(Seq<char>, Seq<char>)> {
    Seq::new(comments.len(), |i: int| (comments[i].0@, comments[i].1@))
}

/// What is said of a path: the first comment for it.
pub open spec fn comment_for(
    comments: Seq<(Seq<char>, Seq<char>)>,
    path: Seq<char>,
) -> Option<Seq<char>>
    decreases comments.len(),
{
    if comments.len() == 0 {
        None
    } else if comments[0].0 == path {
        Some(comments[0].1)
    } else {
        comment_for(comments.subrange(1, comments.len() as int), path)
    }
}

fn find_comment<'a>(comments: &'a Vec<(String, String)>, path: &str) -> (r: Option<&'a String>)
    ensures
        match r {
            Some(text) => comment_for(comment_views(comments@), path@) == Some(text@),
            None => comment_for(comment_views(comments@), path@) is None,
        },
{
    let ghost all = comment_views(comments@);
    let mut i: usize = 0;
    assert(all.subrange(0, all.len() as int) =~= all);
    while i < comments.len()
        invariant
            i <= comments@.len(),
            all == comment_views(comments@),
            comment_for(all, path@) == comment_for(all.subrange(i as int, all.len() as int), path@),
        decreases comments@.len() - i,
    {
        let ghost rest = all.subrange(i as int, all.len() as int);
        if same(comments[i].0.as_str(), path) {
            return Some(&comments[i].1);
        }
        assert(rest.subrange(1, rest.len() as int) =~= all.subrange(i + 1, all.len() as int));
        i = i + 1;
    }
    None
}

/// Lines, each after a prefix and ended by a line feed.
pub open spec fn prefixed(lines: Seq<Seq<char>>, prefix: Seq<char>) -> Seq<char>
    decreases lines.len(),
{
    if lines.len() == 0 {
        Seq::empty()
    } else {
        prefixed(lines.drop_last(), prefix) + prefix + lines.last() + "\n"@
    }
}

/// Appends lines, each after a prefix and ended by a line feed.
pub fn push_prefixed(out: &mut String, lines: &Vec<String>, prefix: &str)
    ensures
        final(out)@ == old(out)@ + prefixed(texts(lines@), prefix@),
{
    let ghost all = texts(lines@);
    let mut i: usize = 0;
    assert(out@ =~= old(out)@ + prefixed(all.take(0), prefix@));
    while i < lines.len()
        invariant
            i <= lines@.len(),
            all == texts(lines@),
            out@ == old(out)@ + prefixed(all.take(i as int), prefix@),
        decreases lines@.len() - i,
    {
        out.append(prefix);
        out.append(lines[i].as_str());
        out.append("\n");
        proof {
            let next = all.take(i + 1);
            assert(next.drop_last() =~= all.take(i as int));
            assert(out@ =~= old(out)@ + prefixed(next, prefix@));
        }
        i = i + 1;
    }
    assert(all.take(all.len() as int) =~= all);
}

/// The comment on a path, line by line, at an indentation.
pub open spec fn comment_block(
    comments: Seq<(Seq<char>, Seq<char>)>,
    path: Seq<char>,
    pad: Seq<char>,
) -> Seq<char> {
    match comment_for(comments, path) {
        Some(text) => prefixed(lines_spec(text), pad + "# "@),
        None => Seq::empty(),
    }
}

fn write_comment(out: &mut String, comments: &Vec<(String, String)>, path: &str, pad: &str)
    ensures
        final(out)@ == old(out)@ + comment_block(comment_views(comments@), path@, pad@),
{
    match find_comment(comments, path) {
        Some(text) => {
            let mut prefix = owned(pad);
            prefix.append("# ");
            push_prefixed(out, &lines(text.as_str()), prefix.as_str());
        },
        None => {
            assert(out@ =~= old(out)@ + Seq::<char>::empty());
        },
    }
}

// ---------------------------------------------------------------------------
// nodes

/// The name of a child: its key where that is a text, else a question mark.
pub open spec fn child_name(key: YamlView) -> Seq<char> {
    match key_text(key) {
        Some(name) => name,
        None => "?"@,
    }
}

/// The path of a child: names with dots between them.
pub open spec fn child_path(path: Seq<char>, name: Seq<char>) -> Seq<char> {
    if path.len() == 0 {
        name
    } else {
        path + "."@ + name
    }
}

/// A scalar or an empty collection in one line.
pub open spec fn inline_text(node: YamlView) -> Seq<char> {
    match node {
        YamlView::Mapping(_) => "{}"@,
        YamlView::List(_) => "[]"@,
        YamlView::Null => "null"@,
        _ => match yaml_text(node) {
            Some(text) => without_final_feeds(text),
            None => Seq::empty(),
        },
    }
}

/// A node with its key, its comment above it, at an indentation.
pub open spec fn node_text(
    key: Seq<char>,
    path: Seq<char>,
    node: YamlView,
    pad: Seq<char>,
    comments: Seq<(Seq<char>, Seq<char>)>,
) -> Seq<char>
    decreases node, 1int,
{
    comment_block(comments, path, pad) + match node {
        YamlView::Mapping(entries) => if entries.len() > 0 {
            pad + key + ":\n"@ + entries_text(path, entries, pad + "  "@, comments)
        } else {
            pad + key + ": "@ + inline_text(node) + "\n"@
        },
        YamlView::List(items) => if items.len() > 0 {
            match yaml_text(node) {
                Some(text) => pad + key + ":\n"@ + prefixed(lines_spec(text), pad + "  "@),
                None => pad + key + ": []\n"@,
            }
        } else {
            pad + key + ": "@ + inline_text(node) + "\n"@
        },
        _ => pad + key + ": "@ + inline_text(node) + "\n"@,
    }
}

/// The entries of a mapping, one after another.
pub open spec fn entries_text(
    path: Seq<char>,
    entries: Seq<(YamlView, YamlView)>,
    pad: Seq<char>,
    comments: Seq<(Seq<char>, Seq<char>)>,
) -> Seq<char>
    decreases entries, 0int,
{
    if entries.len() == 0 {
        Seq::empty()
    } else {
        let last = entries[entries.len() - 1];
        entries_text(path, entries.subrange(0, entries.len() - 1), pad, comments) + node_text(
            child_name(last.0),
            child_path(path, child_name(last.0)),
            last.1,
            pad,
            comments,
        )
    }
}

fn push_inline(out: &mut String, key: &str, node: &Yaml, pad: &str)
    ensures
        final(out)@ == old(out)@ + (pad@ + key@ + ": "@ + inline_text(node@) + "\n"@),
{
    let text = match node {
        Yaml::Mapping(_) => owned("{}"),
        Yaml::List(_) => owned("[]"),
        Yaml::Null => owned("null"),
        _ => match render_yaml(node) {
            Some(text) => trim_final_feeds(text.as_str()),
            None => String::new(),
        },
    };
    out.append(pad);
    out.append(key);
    out.append(": ");
    out.append(text.as_str());
    out.append("\n");
    assert(out@ =~= old(out)@ + (pad@ + key@ + ": "@ + inline_text(node@) + "\n"@));
}

/// Writes a node with its key and comments.
pub fn render_node(
    out: &mut String,
    key: &str,
    path: &str,
    node: &Yaml,
    pad: &str,
    comments: &Vec<(String, String)>,
)
    ensures
        final(out)@ == old(out)@ + node_text(
            key@,
            path@,
            node@,
            pad@,
            comment_views(comments@),
        ),
    decreases node, 1int,
{
    write_comment(out, comments, path, pad);
    let ghost start = out@;
    match node {
        Yaml::Mapping(entries) => {
            proof {
                lemma_mapping_view(*entries);
            }
            if entries.len() > 0 {
                out.append(pad);
                out.append(key);
                out.append(":\n");
                let mut deeper = owned(pad);
                deeper.append("  ");
                let ghost head = out@;
                render_entries(out, path, entries, deeper.as_str(), comments);
                proof {
                    let body = entries_text(
                        path@,
                        entry_views(entries@),
                        pad@ + "  "@,
                        comment_views(comments@),
                    );
                    assert(out@ =~= start + (pad@ + key@ + ":\n"@ + body));
                    assert(out@ =~= old(out)@ + node_text(
                        key@,
                        path@,
                        node@,
                        pad@,
                        comment_views(comments@),
                    ));
                }
            } else {
                push_inline(out, key, node, pad);
                assert(out@ =~= old(out)@ + node_text(
                    key@,
                    path@,
                    node@,
                    pad@,
                    comment_views(comments@),
                ));
            }
        },
        Yaml::List(items) => {
            proof {
                crate::yaml::lemma_list_view(*items);
            }
            if items.len() > 0 {
                out.append(pad);
                out.append(key);
                match render_yaml(node) {
                    Some(text) => {
                        out.append(":\n");
                        let mut deeper = owned(pad);
                        deeper.append("  ");
                        push_prefixed(out, &lines(text.as_str()), deeper.as_str());
                    },
                    None => {
                        out.append(": []\n");
                    },
                }
                assert(out@ =~= old(out)@ + node_text(
                    key@,
                    path@,
                    node@,
                    pad@,
                    comment_views(comments@),
                ));
            } else {
                push_inline(out, key, node, pad);
                assert(out@ =~= old(out)@ + node_text(
                    key@,
                    path@,
                    node@,
                    pad@,
                    comment_views(comments@),
                ));
            }
        },
        _ => {
            push_inline(out, key, node, pad);
            assert(out@ =~= old(out)@ + node_text(
                key@,
                path@,
                node@,
                pad@,
                comment_views(comments@),
            ));
        },
    }
}

fn render_entries(
    out: &mut String,
    path: &str,
    entries: &Vec<(Yaml, Yaml)>,
    pad: &str,
    comments: &Vec<(String, String)>,
)
    ensures
        final(out)@ == old(out)@ + entries_text(
            path@,
            entry_views(entries@),
            pad@,
            comment_views(comments@),
        ),
    decreases entries, 0int,
{
    let ghost all = entry_views(entries@);
    let mut i: usize = 0;
    assert(out@ =~= old(out)@ + entries_text(
        path@,
        all.subrange(0, 0),
        pad@,
        comment_views(comments@),
    ));
    while i < entries.len()
        invariant
            i <= entries@.len(),
            all == entry_views(entries@),
            out@ == old(out)@ + entries_text(
                path@,
                all.subrange(0, i as int),
                pad@,
                comment_views(comments@),
            ),
        decreases entries@.len() - i,
    {
        let name = match entries[i].0.as_str() {
            Some(name) => owned(name),
            None => owned("?"),
        };
        let mut below = owned(path);
        if !path.is_empty() {
            below.append(".");
        }
        below.append(name.as_str());
        proof {
            assert(below@ =~= child_path(path@, name@));
            assert(decreases_to!(entries => entries@));
            assert(decreases_to!(entries@ => entries@[i as int]));
            assert(decreases_to!(entries@[i as int] => entries@[i as int].1));
        }
        let ghost before = out@;
        render_node(out, name.as_str(), below.as_str(), &entries[i].1, pad, comments);
        proof {
            let next = all.subrange(0, i + 1);
            assert(next.subrange(0, next.len() - 1) =~= all.subrange(0, i as int));
            assert(out@ =~= old(out)@ + entries_text(
                path@,
                next,
                pad@,
                comment_views(comments@),
            ));
        }
        i = i + 1;
    }
    assert(all.subrange(0, all.len() as int) =~= all);
}

// ---------------------------------------------------------------------------
// sections

/// A section of a plugin's configuration: its key, what it holds where the file says
/// nothing, and how it is written.
#[derive(Debug)]
pub struct ConfigSection {
    pub key: String,
    pub default_value: Yaml,
    pub renderer: SectionRenderer,
}

/// How a section is written.
#[derive(Debug)]
pub enum SectionRenderer {
    /// Field by field, with what is said of each.
    Typed(TypedSection),
    /// By the plugin itself; the program around keeps its renderer under the number.
    Own(u64),
}

/// What is said of a section that is written field by field.
#[derive(Debug)]
pub struct TypedSection {
    /// The heading above the section; empty for none.
    pub title: String,
    /// What the section is for, line by line.
    pub doc: String,
    /// Comments by dotted path.
    pub comments: Vec<(String, String)>,
}

/// The text of a section that is written field by field: heading, description, then
/// the node.
pub open spec fn typed_text(typed: TypedSection, key: Seq<char>, node: YamlView) -> Seq<char> {
    (if typed.title@.len() > 0 {
        "# ==================== "@ + typed.title@ + " ====================\n"@
    } else {
        Seq::empty()
    }) + prefixed(lines_spec(typed.doc@), "# "@) + node_text(
        key,
        Seq::empty(),
        node,
        Seq::empty(),
        comment_views(typed.comments@),
    )
}

/// The text of a section with a value. A section with a renderer of its own is written
/// as that has rendered it; where it has not, the node stands without comments.
pub open spec fn section_text(
    section: ConfigSection,
    node: YamlView,
    rendered: Option<Seq<char>>,
) -> Seq<char> {
    match section.renderer {
        SectionRenderer::Typed(typed) => typed_text(typed, section.key@, node),
        SectionRenderer::Own(_) => match rendered {
            Some(text) => text,
            None => node_text(section.key@, Seq::empty(), node, Seq::empty(), Seq::empty()),
        },
    }
}

/// What a section is written as: the value as the section's type writes it again, or
/// the default where the value does not fit the type.
pub open spec fn written_node(section: ConfigSection, retyped: Option<YamlView>) -> YamlView {
    match retyped {
        Some(node) => node,
        None => section.default_value@,
    }
}

impl TypedSection {
    /// The text of the section under a key with a value, as the section's type writes
    /// it.
    pub fn render(&self, key: &str, node: &Yaml) -> (r: String)
        ensures
            r@ == typed_text(*self, key@, node@),
    {
        let mut out = String::new();
        if !self.title.as_str().is_empty() {
            out.append("# ==================== ");
            out.append(self.title.as_str());
            out.append(" ====================\n");
        }
        push_prefixed(&mut out, &lines(self.doc.as_str()), "# ");
        proof {
            reveal_strlit("");
            assert(""@ =~= Seq::<char>::empty());
        }
        render_node(&mut out, key, "", node, "", &self.comments);
        assert(out@ =~= typed_text(*self, key@, node@));
        out
    }
}

impl ConfigSection {
    /// A section that is written field by field.
    pub fn typed(key: &str, typed: TypedSection, default_value: Yaml) -> (r: ConfigSection)
        ensures
            r.key@ == key@,
            r.default_value == default_value,
            r.renderer == SectionRenderer::Typed(typed),
    {
        ConfigSection { key: owned(key), default_value, renderer: SectionRenderer::Typed(typed) }
    }

    /// What the section is written as. `retyped` is a value read as the section's type
    /// and written again, which leaves out what the type does not know; `None` where the
    /// value does not fit the type.
    pub fn written(&self, retyped: Option<Yaml>) -> (r: Yaml)
        ensures
            r@ == written_node(
                *self,
                match retyped {
                    Some(node) => Some(node@),
                    None => None,
                },
            ),
    {
        match retyped {
            Some(node) => node,
            None => self.default_copy(),
        }
    }

    /// The text of the section with a value; `rendered` is what a renderer of its own
    /// made of the value.
    pub fn render(&self, node: &Yaml, rendered: Option<&String>) -> (r: String)
        ensures
            r@ == section_text(
                *self,
                node@,
                match rendered {
                    Some(text) => Some(text@),
                    None => None,
                },
            ),
    {
        match &self.renderer {
            SectionRenderer::Typed(typed) => typed.render(self.key.as_str(), node),
            SectionRenderer::Own(_) => match rendered {
                Some(text) => text.clone(),
                None => {
                    let none: Vec<(String, String)> = Vec::new();
                    let mut out = String::new();
                    proof {
                        reveal_strlit("");
                        assert(""@ =~= Seq::<char>::empty());
                        assert(comment_views(none@) =~= Seq::empty());
                    }
                    render_node(&mut out, self.key.as_str(), "", node, "", &none);
                    assert(out@ =~= node_text(
                        self.key@,
                        Seq::empty(),
                        node@,
                        Seq::empty(),
                        Seq::empty(),
                    ));
                    out
                },
            },
        }
    }

    /// A copy of the value that the section has by default.
    pub fn default_copy(&self) -> (r: Yaml)
        ensures
            r@ == self.default_value@,
    {
        self.default_value.clone()
    }
}

/// A section and the plugin that registered it.
#[derive(Debug)]
pub struct RegisteredSection {
    pub owner: String,
    pub section: ConfigSection,
}

/// The registered sections, in the order of their registration.
#[derive(Debug)]
pub struct SectionRegistry {
    pub items: Vec<RegisteredSection>,
}

/// Whether no two sections have one key.
pub open spec fn keys_unique(items: Seq<RegisteredSection>) -> bool {
    forall|i: int, j: int|
        0 <= i < j < items.len() ==> #[trigger] items[i].section.key@
            != #[trigger] items[j].section.key@
}

/// Whether a section with the key is registered.
pub open spec fn key_registered(items: Seq<RegisteredSection>, key: Seq<char>) -> bool {
    exists|i: int| 0 <= i < items.len() && (#[trigger] items[i]).section.key@ == key
}

/// The owner of the first section with the key.
pub open spec fn owner_of(items: Seq<RegisteredSection>, key: Seq<char>) -> Option<Seq<char>>
    decreases items.len(),
{
    if items.len() == 0 {
        None
    } else if items[0].section.key@ == key {
        Some(items[0].owner@)
    } else {
        owner_of(items.subrange(1, items.len() as int), key)
    }
}

/// The sections of a plugin, in the order of their registration.
pub open spec fn sections_owned(
    items: Seq<RegisteredSection>,
    plugin: Seq<char>,
) -> Seq<ConfigSection>
    decreases items.len(),
{
    if items.len() == 0 {
        Seq::empty()
    } else {
        let head = sections_owned(items.drop_last(), plugin);
        if items.last().owner@ == plugin {
            head.push(items.last().section)
        } else {
            head
        }
    }
}

/// The plugins with a section, each once, in the order of their first section.
pub open spec fn owners_listed(items: Seq<RegisteredSection>) -> Seq<Seq<char>>
    decreases items.len(),
{
    if items.len() == 0 {
        Seq::empty()
    } else {
        let head = owners_listed(items.drop_last());
        if head.contains(items.last().owner@) {
            head
        } else {
            head.push(items.last().owner@)
        }
    }
}

/// The keys of the sections.
pub open spec fn keys_listed(items: Seq<RegisteredSection>) -> Seq<Seq<char>> {
    items.map_values(|item: RegisteredSection| item.section.key@)
}

impl SectionRegistry {
    /// No section.
    pub fn new() -> (r: SectionRegistry)
        ensures
            r.items@ == Seq::<RegisteredSection>::empty(),
    {
        SectionRegistry { items: Vec::new() }
    }

    /// The position of the first section with a key.
    fn position(&self, key: &str) -> (r: Option<usize>)
        ensures
            match r {
                Some(i) => i < self.items@.len() && self.items@[i as int].section.key@ == key@
                    && owner_of(self.items@, key@) == Some(self.items@[i as int].owner@),
                None => owner_of(self.items@, key@) is None && !key_registered(self.items@, key@),
            },
    {
        let ghost all = self.items@;
        let mut i: usize = 0;
        assert(all.subrange(0, all.len() as int) =~= all);
        while i < self.items.len()
            invariant
                i <= self.items@.len(),
                all == self.items@,
                owner_of(all, key@) == owner_of(all.subrange(i as int, all.len() as int), key@),
                forall|k: int| 0 <= k < i ==> (#[trigger] all[k]).section.key@ != key@,
            decreases self.items@.len() - i,
        {
            let ghost rest = all.subrange(i as int, all.len() as int);
            if same(self.items[i].section.key.as_str(), key) {
                return Some(i);
            }
            assert(rest.subrange(1, rest.len() as int) =~= all.subrange(i + 1, all.len() as int));
            i = i + 1;
        }
        None
    }

    /// Registers a section; one whose key is taken is dropped.
    pub fn register(&mut self, plugin: &str, section: ConfigSection)
        ensures
            key_registered(old(self).items@, section.key@) ==> final(self).items@
                == old(self).items@,
            !key_registered(old(self).items@, section.key@) ==> final(self).items@.len()
                == old(self).items@.len() + 1 && final(self).items@.drop_last() == old(self).items@
                && final(self).items@.last().owner@ == plugin@ && final(self).items@.last().section
                == section,
            keys_unique(old(self).items@) ==> keys_unique(final(self).items@),
    {
        match self.position(section.key.as_str()) {
            Some(i) => {
                assert(key_registered(self.items@, section.key@));
            },
            None => {
                self.items.push(RegisteredSection { owner: owned(plugin), section });
                assert(self.items@.drop_last() =~= old(self).items@);
            },
        }
    }

    /// The sections of a plugin, in the order of their registration.
    pub fn sections_of(&self, plugin: &str) -> (r: Vec<&ConfigSection>)
        ensures
            r@.map_values(|s: &ConfigSection| *s) == sections_owned(self.items@, plugin@),
    {
        let ghost all = self.items@;
        let mut out: Vec<&ConfigSection> = Vec::new();
        let mut i: usize = 0;
        let ghost unref = |s: &ConfigSection| *s;
        assert(out@.map_values(unref) =~= sections_owned(all.take(0), plugin@));
        while i < self.items.len()
            invariant
                i <= self.items@.len(),
                all == self.items@,
                unref == (|s: &ConfigSection| *s),
                out@.map_values(unref) == sections_owned(all.take(i as int), plugin@),
            decreases self.items@.len() - i,
        {
            let ghost before = out@;
            assert(all.take(i + 1).drop_last() =~= all.take(i as int));
            if same(self.items[i].owner.as_str(), plugin) {
                out.push(&self.items[i].section);
                assert(out@.map_values(unref) =~= before.map_values(unref).push(
                    all[i as int].section,
                ));
            }
            i = i + 1;
        }
        assert(all.take(all.len() as int) =~= all);
        out
    }

    /// The plugins with a section, each once, in the order of their first section.
    pub fn owners(&self) -> (r: Vec<String>)
        ensures
            texts(r@) == owners_listed(self.items@),
    {
        let ghost all = self.items@;
        let mut out: Vec<String> = Vec::new();
        let mut i: usize = 0;
        assert(texts(out@) =~= owners_listed(all.take(0)));
        while i < self.items.len()
            invariant
                i <= self.items@.len(),
                all == self.items@,
                texts(out@) == owners_listed(all.take(i as int)),
            decreases self.items@.len() - i,
        {
            let ghost before = out@;
            let owner = &self.items[i].owner;
            assert(all.take(i + 1).drop_last() =~= all.take(i as int));
            proof {
                lemma_lists_is_contains(out@, owner@);
            }
            if !contains_text(&out, owner.as_str()) {
                out.push(owner.clone());
                assert(texts(out@) =~= texts(before).push(owner@));
            }
            i = i + 1;
        }
        assert(all.take(all.len() as int) =~= all);
        out
    }

    /// The plugin that owns a section.
    pub fn owner(&self, key: &str) -> (r: Option<String>)
        ensures
            match r {
                Some(owner) => owner_of(self.items@, key@) == Some(owner@),
                None => owner_of(self.items@, key@) is None,
            },
    {
        match self.position(key) {
            Some(i) => Some(self.items[i].owner.clone()),
            None => None,
        }
    }

    /// The keys of the sections.
    pub fn keys(&self) -> (r: Vec<String>)
        ensures
            texts(r@) == keys_listed(self.items@),
    {
        let mut out: Vec<String> = Vec::new();
        let mut i: usize = 0;
        while i < self.items.len()
            invariant
                i <= self.items@.len(),
                out@.len() == i,
                forall|k: int|
                    0 <= k < i ==> (#[trigger] out@[k])@ == self.items@[k].section.key@,
            decreases self.items@.len() - i,
        {
            out.push(self.items[i].section.key.clone());
            i = i + 1;
        }
        assert(texts(out@) =~= keys_listed(self.items@));
        out
    }
}

/// A list holds a text exactly when the text is among its views.
pub proof fn lemma_lists_is_contains(v: Seq<String>, text: Seq<char>)
    ensures
        lists(v, text) == texts(v).contains(text),
{
    if lists(v, text) {
        let i = choose|i: int| 0 <= i < v.len() && (#[trigger] v[i])@ == text;
        assert(texts(v)[i] == text);
    }
    if texts(v).contains(text) {
        let i = choose|i: int| 0 <= i < texts(v).len() && texts(v)[i] == text;
        assert(v[i]@ == text);
    }
}

/// Whoever registers a key first keeps it: a later registration of the key does not
/// change its owner.
pub proof fn law_first_registration_wins(
    items: Seq<RegisteredSection>,
    later: RegisteredSection,
    key: Seq<char>,
)
    requires
        owner_of(items, key) is Some,
    ensures
        owner_of(items.push(later), key) == owner_of(items, key),
    decreases items.len(),
{
    let all = items.push(later);
    assert(all[0] == items[0]);
    if items[0].section.key@ != key {
        let rest = items.subrange(1, items.len() as int);
        law_first_registration_wins(rest, later, key);
        assert(all.subrange(1, all.len() as int) =~= rest.push(later));
    }
}

// ---------------------------------------------------------------------------
// laws of the text

/// A plain value stands behind its key in one line, under its comment, at its
/// indentation.
pub proof fn law_values_stand_behind_their_keys(
    key: Seq<char>,
    path: Seq<char>,
    node: YamlView,
    pad: Seq<char>,
    comments: Seq<(Seq<char>, Seq<char>)>,
    comment: Seq<char>,
)
    requires
        !(node is Mapping) && !(node is List),
    ensures
        yaml_text(node) matches Some(text) ==> !(node is Null) ==> holds(
            node_text(key, path, node, pad, comments),
            pad + key + ": "@ + without_final_feeds(text) + "\n"@,
        ),
        node is Null ==> holds(
            node_text(key, path, node, pad, comments),
            pad + key + ": "@ + "null"@ + "\n"@,
        ),
        comment_for(comments, path) == Some(comment) ==> holds(
            node_text(key, path, node, pad, comments),
            prefixed(lines_spec(comment), pad + "# "@),
        ),
{
    let block = comment_block(comments, path, pad);
    let line = pad + key + ": "@ + inline_text(node) + "\n"@;
    let none = Seq::<char>::empty();
    assert(node_text(key, path, node, pad, comments) == block + line);
    assert(block + line =~= block + line + none);
    assert(block + line =~= none + block + line);
    lemma_holds(block, line, none);
    lemma_holds(none, block, line);
}

/// What is said of a path is the first comment for it.
pub proof fn law_the_first_comment_counts(comments: Seq<(Seq<char>, Seq<char>)>, i: int)
    requires
        0 <= i < comments.len(),
        forall|k: int| 0 <= k < i ==> (#[trigger] comments[k]).0 != comments[i].0,
    ensures
        comment_for(comments, comments[i].0) == Some(comments[i].1),
    decreases comments.len(),
{
    if i > 0 {
        let rest = comments.subrange(1, comments.len() as int);
        assert(rest[i - 1] == comments[i]);
        assert forall|k: int| 0 <= k < i - 1 implies (#[trigger] rest[k]).0 != rest[i - 1].0 by {
            assert(rest[k] == comments[k + 1]);
        }
        law_the_first_comment_counts(rest, i - 1);
        assert(comments[0].0 != comments[i].0);
    }
}

proof fn lemma_entry_is_written(
    path: Seq<char>,
    entries: Seq<(YamlView, YamlView)>,
    pad: Seq<char>,
    comments: Seq<(Seq<char>, Seq<char>)>,
    i: int,
)
    requires
        0 <= i < entries.len(),
    ensures
        holds(
            entries_text(path, entries, pad, comments),
            node_text(
                child_name(entries[i].0),
                child_path(path, child_name(entries[i].0)),
                entries[i].1,
                pad,
                comments,
            ),
        ),
    decreases entries.len(),
{
    let head = entries_text(path, entries.subrange(0, entries.len() - 1), pad, comments);
    let last = entries[entries.len() - 1];
    let tail = node_text(
        child_name(last.0),
        child_path(path, child_name(last.0)),
        last.1,
        pad,
        comments,
    );
    let none = Seq::<char>::empty();
    assert(entries_text(path, entries, pad, comments) == head + tail);
    assert(head + tail =~= head + tail + none);
    assert(head + tail =~= none + head + tail);
    lemma_holds(head, tail, none);
    lemma_holds(none, head, tail);
    if i < entries.len() - 1 {
        let before = entries.subrange(0, entries.len() - 1);
        assert(before[i] == entries[i]);
        lemma_entry_is_written(path, before, pad, comments, i);
        lemma_holds_within(
            head + tail,
            head,
            node_text(
                child_name(entries[i].0),
                child_path(path, child_name(entries[i].0)),
                entries[i].1,
                pad,
                comments,
            ),
        );
    }
}

/// A mapping stands behind its key with every entry below it, further in, each with the
/// comment for its dotted path.
pub proof fn law_entries_stand_below_their_keys(
    key: Seq<char>,
    path: Seq<char>,
    entries: Seq<(YamlView, YamlView)>,
    pad: Seq<char>,
    comments: Seq<(Seq<char>, Seq<char>)>,
    i: int,
    name: Seq<char>,
)
    requires
        0 <= i < entries.len(),
        key_text(entries[i].0) == Some(name),
    ensures
        ({
            let text = node_text(key, path, YamlView::Mapping(entries), pad, comments);
            &&& holds(text, pad + key + ":\n"@)
            &&& path.len() > 0 ==> holds(
                text,
                node_text(name, path + "."@ + name, entries[i].1, pad + "  "@, comments),
            )
            &&& path.len() == 0 ==> holds(
                text,
                node_text(name, name, entries[i].1, pad + "  "@, comments),
            )
        }),
{
    let text = node_text(key, path, YamlView::Mapping(entries), pad, comments);
    let block = comment_block(comments, path, pad);
    let line = pad + key + ":\n"@;
    let below = entries_text(path, entries, pad + "  "@, comments);
    let none = Seq::<char>::empty();
    assert(text == block + (line + below));
    assert(text =~= block + line + below);
    assert(text =~= (block + line) + below + none);
    lemma_holds(block, line, below);
    lemma_holds(block + line, below, none);
    lemma_entry_is_written(path, entries, pad + "  "@, comments, i);
    lemma_holds_within(
        text,
        below,
        node_text(
            child_name(entries[i].0),
            child_path(path, child_name(entries[i].0)),
            entries[i].1,
            pad + "  "@,
            comments,
        ),
    );
}

/// A section is written with its title, what it is for, and its value under its key.
pub proof fn law_sections_are_written(typed: TypedSection, key: Seq<char>, node: YamlView)
    ensures
        typed.title@.len() > 0 ==> holds(
            typed_text(typed, key, node),
            "# ==================== "@ + typed.title@ + " ====================\n"@,
        ),
        holds(typed_text(typed, key, node), prefixed(lines_spec(typed.doc@), "# "@)),
        holds(
            typed_text(typed, key, node),
            node_text(key, Seq::empty(), node, Seq::empty(), comment_views(typed.comments@)),
        ),
{
    let title = if typed.title@.len() > 0 {
        "# ==================== "@ + typed.title@ + " ====================\n"@
    } else {
        Seq::<char>::empty()
    };
    let doc = prefixed(lines_spec(typed.doc@), "# "@);
    let value = node_text(key, Seq::empty(), node, Seq::empty(), comment_views(typed.comments@));
    let none = Seq::<char>::empty();
    let text = typed_text(typed, key, node);
    assert(text == title + doc + value);
    assert(text =~= none + title + (doc + value));
    assert(text =~= (title + doc) + value + none);
    lemma_holds(none, title, doc + value);
    lemma_holds(title, doc, value);
    lemma_holds(title + doc, value, none);
}

/// A section belongs to whoever registered its key, and a plugin has the sections that it
/// registered, in that order.
pub proof fn law_sections_have_their_owners(
    items: Seq<RegisteredSection>,
    later: RegisteredSection,
    plugin: Seq<char>,
)
    ensures
        owner_of(items, later.section.key@) is None ==> owner_of(
            items.push(later),
            later.section.key@,
        ) == Some(later.owner@),
        sections_owned(items, plugin) == items.filter(
            |item: RegisteredSection| item.owner@ == plugin,
        ).map_values(|item: RegisteredSection| item.section),
    decreases items.len(),
{
    reveal(Seq::filter);
    let own = |item: RegisteredSection| item.owner@ == plugin;
    let section = |item: RegisteredSection| item.section;
    let all = items.push(later);
    if items.len() == 0 {
        assert(items.filter(own).map_values(section) =~= Seq::empty());
        assert(all[0] == later);
    } else {
        law_sections_have_their_owners(items.drop_last(), later, plugin);
        let head = items.drop_last().filter(own);
        assert(head.push(items.last()).map_values(section) =~= head.map_values(section).push(
            section(items.last()),
        ));
        if owner_of(items, later.section.key@) is None {
            lemma_new_owner(items, later);
        }
    }
}

proof fn lemma_new_owner(items: Seq<RegisteredSection>, later: RegisteredSection)
    requires
        owner_of(items, later.section.key@) is None,
    ensures
        owner_of(items.push(later), later.section.key@) == Some(later.owner@),
    decreases items.len(),
{
    let all = items.push(later);
    if items.len() == 0 {
        assert(all[0] == later);
    } else {
        assert(all[0] == items[0]);
        let rest = items.subrange(1, items.len() as int);
        lemma_new_owner(rest, later);
        assert(all.subrange(1, all.len() as int) =~= rest.push(later));
    }
}

/// Every plugin with a section is listed, once, and no other is.
pub proof fn law_owners_are_listed_once(items: Seq<RegisteredSection>, owner: Seq<char>, i: int, j: int)
    ensures
        owners_listed(items).contains(owner) <==> exists|k: int|
            0 <= k < items.len() && (#[trigger] items[k]).owner@ == owner,
        0 <= i < j < owners_listed(items).len() ==> owners_listed(items)[i] != owners_listed(
            items,
        )[j],
    decreases items.len(),
{
    if items.len() == 0 {
        assert(!owners_listed(items).contains(owner));
    } else {
        let less = items.drop_last();
        let head = owners_listed(less);
        let last = items.last();
        let all = owners_listed(items);
        law_owners_are_listed_once(less, owner, i, j);
        assert(items[items.len() - 1] == last);
        if exists|k: int| 0 <= k < items.len() && (#[trigger] items[k]).owner@ == owner {
            let k = choose|k: int| 0 <= k < items.len() && (#[trigger] items[k]).owner@ == owner;
            if k < less.len() {
                assert(less[k].owner@ == owner);
                let n = choose|n: int| 0 <= n < head.len() && head[n] == owner;
                assert(all[n] == owner);
            } else if !head.contains(owner) {
                assert(all[all.len() - 1] == owner);
            }
        }
        if all.contains(owner) {
            let n = choose|n: int| 0 <= n < all.len() && all[n] == owner;
            if n < head.len() {
                assert(head[n] == owner);
                let k = choose|k: int| 0 <= k < less.len() && (#[trigger] less[k]).owner@ == owner;
                assert(items[k].owner@ == owner);
            }
        }
        if 0 <= i < j < all.len() && j == head.len() {
            assert(head.contains(head[i]));
        }
    }
}

/// A value that fits its section is written as the section writes it, and one that does
/// not fit is replaced by the default.
pub proof fn law_unfit_values_give_way_to_the_default(section: ConfigSection, node: YamlView)
    ensures
        written_node(section, Some(node)) == node,
        written_node(section, None) == section.default_value@,
{
}

} // verus!
