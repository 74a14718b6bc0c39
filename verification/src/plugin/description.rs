//! What a plugin says of itself.
use crate::text::{copy_texts, decimal, owned, texts, u64_text};
use vstd::prelude::*;
use vstd::string::StringExecFns;

verus! {

/// A version of the contract between the framework and its plugins.
#[derive(Clone, Copy, Debug, PartialEq, Eq, PartialOrd, Ord, Hash, Structural)]
pub struct ApiVersion {
    pub major: u32,
    pub minor: u32,
    pub patch: u32,
}

/// The version of the contract that this framework offers.
pub open spec fn framework_version() -> ApiVersion {
    ApiVersion { major: 1, minor: 0, patch: 0 }
}

/// The version of the contract that this framework offers.
pub fn framework_api_version() -> (r: ApiVersion)
    ensures
        r == framework_version(),
{
    ApiVersion { major: 1, minor: 0, patch: 0 }
}

/// Whether one version offers what another asks for: the same major version, and a
/// minor version that is not lower.
pub open spec fn offers(offered: ApiVersion, required: ApiVersion) -> bool {
    offered.major == required.major && offered.minor >= required.minor
}

/// A version in words.
pub open spec fn version_text(version: ApiVersion) -> Seq<char> {
    decimal(version.major as int) + "."@ + decimal(version.minor as int) + "."@ + decimal(
        version.patch as int,
    )
}

impl ApiVersion {
    /// A version.
    pub fn new(major: u32, minor: u32, patch: u32) -> (r: ApiVersion)
        ensures
            r == (ApiVersion { major, minor, patch }),
    {
        ApiVersion { major, minor, patch }
    }

    /// Whether this version offers what another asks for.
    pub fn satisfies(&self, required: &ApiVersion) -> (r: bool)
        ensures
            r == offers(*self, *required),
    {
        self.major == required.major && self.minor >= required.minor
    }

    /// The version in words.
    pub fn text(&self) -> (r: String)
        ensures
            r@ == version_text(*self),
    {
        let mut out = u64_text(self.major as u64);
        out.append(".");
        out.append(u64_text(self.minor as u64).as_str());
        out.append(".");
        out.append(u64_text(self.patch as u64).as_str());
        out
    }
}

/// A later framework with the same major version offers whatever an earlier one did.
pub proof fn law_minor_versions_only_add(
    earlier: ApiVersion,
    later: ApiVersion,
    required: ApiVersion,
)
    requires
        offers(earlier, required),
        offers(later, earlier),
    ensures
        offers(later, required),
{
}

/// What a plugin says of itself.
#[derive(Debug)]
pub struct PluginMeta {
    /// Names the plugin in directories and lists.
    pub id: String,
    /// The name shown.
    pub name: String,
    pub version: String,
    pub description: String,
    pub author: String,
    /// The version of the contract that the plugin asks for.
    pub api_version: ApiVersion,
    /// The plugins without which this one does not run.
    pub depends: Vec<String>,
    /// The plugins that go before this one where they are there.
    pub soft_depends: Vec<String>,
}

/// What a plugin says of itself.
#[verifier::ext_equal]
pub struct MetaView {
    pub id: Seq<char>,
    pub name: Seq<char>,
    pub version: Seq<char>,
    pub description: Seq<char>,
    pub author: Seq<char>,
    pub api_version: ApiVersion,
    pub depends: Seq<Seq<char>>,
    pub soft_depends: Seq<Seq<char>>,
}

impl View for PluginMeta {
    type V = MetaView;

    open spec fn view(&self) -> MetaView {
        MetaView {
            id: self.id@,
            name: self.name@,
            version: self.version@,
            description: self.description@,
            author: self.author@,
            api_version: self.api_version,
            depends: texts(self.depends@),
            soft_depends: texts(self.soft_depends@),
        }
    }
}

/// Whether the framework offers what a plugin asks for.
pub open spec fn compatible(meta: MetaView) -> bool {
    offers(framework_version(), meta.api_version)
}

/// The texts of some names.
pub open spec fn names(list: Seq<&str>) -> Seq<Seq<char>> {
    Seq::new(list.len(), |i: int| list[i]@)
}

fn owned_names(list: &[&str]) -> (r: Vec<String>)
    ensures
        texts(r@) == names(list@),
{
    let mut out: Vec<String> = Vec::new();
    let mut i: usize = 0;
    while i < list.len()
        invariant
            i <= list@.len(),
            out@.len() == i,
            forall|k: int| 0 <= k < i ==> (#[trigger] out@[k])@ == list@[k]@,
        decreases list@.len() - i,
    {
        out.push(owned(list[i]));
        i = i + 1;
    }
    assert(texts(out@) =~= names(list@));
    out
}

impl PluginMeta {
    /// A plugin that asks for the contract of this framework and depends on nothing.
    pub fn new(id: &str, name: &str, version: &str, description: &str) -> (r: PluginMeta)
        ensures
            r@ == (MetaView {
                id: id@,
                name: name@,
                version: version@,
                description: description@,
                author: Seq::empty(),
                api_version: framework_version(),
                depends: Seq::empty(),
                soft_depends: Seq::empty(),
            }),
    {
        let r = PluginMeta {
            id: owned(id),
            name: owned(name),
            version: owned(version),
            description: owned(description),
            author: String::new(),
            api_version: framework_api_version(),
            depends: Vec::new(),
            soft_depends: Vec::new(),
        };
        assert(r@.depends =~= Seq::empty());
        assert(r@.soft_depends =~= Seq::empty());
        assert(r@.author =~= Seq::empty());
        r
    }

    /// The same with an author.
    pub fn with_author(self, author: &str) -> (r: PluginMeta)
        ensures
            r@ == (MetaView { author: author@, ..self@ }),
    {
        PluginMeta { author: owned(author), ..self }
    }

    /// The same, asking for another version of the contract.
    pub fn requires_api(self, api_version: ApiVersion) -> (r: PluginMeta)
        ensures
            r@ == (MetaView { api_version, ..self@ }),
    {
        PluginMeta { api_version, ..self }
    }

    /// The same, not running without some plugins.
    pub fn depends_on(self, depends: &[&str]) -> (r: PluginMeta)
        ensures
            r@ == (MetaView { depends: names(depends@), ..self@ }),
    {
        PluginMeta { depends: owned_names(depends), ..self }
    }

    /// The same, going after some plugins.
    pub fn soft_depends_on(self, soft: &[&str]) -> (r: PluginMeta)
        ensures
            r@ == (MetaView { soft_depends: names(soft@), ..self@ }),
    {
        PluginMeta { soft_depends: owned_names(soft), ..self }
    }

    /// Whether the framework offers what the plugin asks for.
    pub fn is_compatible(&self) -> (r: bool)
        ensures
            r == compatible(self@),
    {
        framework_api_version().satisfies(&self.api_version)
    }

    /// A copy.
    pub fn copy(&self) -> (r: PluginMeta)
        ensures
            r@ == self@,
    {
        PluginMeta {
            id: self.id.clone(),
            name: self.name.clone(),
            version: self.version.clone(),
            description: self.description.clone(),
            author: self.author.clone(),
            api_version: self.api_version,
            depends: copy_texts(&self.depends),
            soft_depends: copy_texts(&self.soft_depends),
        }
    }
}

/// A version is offered just by those of its own major version that are not behind it, and
/// the patch makes no difference.
pub proof fn law_who_offers_a_version(offered: ApiVersion, required: ApiVersion, patch: u32)
    ensures
        offers(required, required),
        offered.major != required.major ==> !offers(offered, required),
        offered.minor < required.minor ==> !offers(offered, required),
        offered.major == required.major && offered.minor > required.minor ==> offers(
            offered,
            required,
        ),
        offers(offered, required) == offers(ApiVersion { patch, ..offered }, required),
        offers(offered, required) == offers(offered, ApiVersion { patch, ..required }),
{
}

/// Versions are told apart by how they are written.
pub proof fn law_versions_are_told_apart(a: ApiVersion, b: ApiVersion)
    requires
        version_text(a) == version_text(b),
    ensures
        a == b,
{
    reveal_strlit(".");
    crate::text::lemma_decimal_characters(a.major as int);
    crate::text::lemma_decimal_characters(b.major as int);
    crate::text::lemma_decimal_characters(a.minor as int);
    crate::text::lemma_decimal_characters(b.minor as int);
    let (a1, a2, a3) = (
        decimal(a.major as int),
        decimal(a.minor as int),
        decimal(a.patch as int),
    );
    let (b1, b2, b3) = (
        decimal(b.major as int),
        decimal(b.minor as int),
        decimal(b.patch as int),
    );
    assert(version_text(a) =~= a1 + seq!['.'] + (a2 + seq!['.'] + a3));
    assert(version_text(b) =~= b1 + seq!['.'] + (b2 + seq!['.'] + b3));
    assert(!a1.contains('.') && !b1.contains('.') && !a2.contains('.') && !b2.contains('.'));
    crate::text::lemma_split_at_first(
        a1,
        '.',
        a2 + seq!['.'] + a3,
        b1,
        b2 + seq!['.'] + b3,
    );
    crate::text::lemma_split_at_first(a2, '.', a3, b2, b3);
    crate::text::law_decimals_tell_numbers_apart(a.major as int, b.major as int);
    crate::text::law_decimals_tell_numbers_apart(a.minor as int, b.minor as int);
    crate::text::law_decimals_tell_numbers_apart(a.patch as int, b.patch as int);
}

} // verus!
