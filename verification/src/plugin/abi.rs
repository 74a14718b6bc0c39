//! The handshake with a plugin that is loaded from a file: it must be built for this
//! framework and by the same tools.
use crate::collections::{sort_texts, sorts_texts};
use crate::plugin::description::{
    framework_api_version, framework_version, offers, version_text, ApiVersion,
};
use crate::text::{
    chars_of, decimal, find_char, holds, index_of_char, join, joined, lemma_holds_on, lines, lines_spec, lowercased, owned,
    replace, replaced, same, starts_with, has_prefix, string_of, texts, to_lowercase, trim,
    trim_spec, u64_text,
};
use vstd::prelude::*;
use vstd::string::StringExecFns;

verus! {

/// The layout of the symbols that a plugin exports.
pub const ABI_LAYOUT: u32 = 2;

/// The export that tells the layout and the contract that a library was built for.
pub const ABI_SYMBOL: &'static str = "arona_plugin_abi";

/// The export that tells the toolchain that a library was built with.
pub const TOOLCHAIN_SYMBOL: &'static str = "arona_plugin_toolchain";

/// The export that takes the channel to the host.
pub const HOST_SYMBOL: &'static str = "arona_plugin_host";

/// The export that makes the plugin.
pub const ENTRY_SYMBOL: &'static str = "arona_plugin_new";

/// What a plugin answers when it accepts the channel to the host.
pub const HOST_ACCEPTED: u8 = 0;

/// A layout and a version in one number: the layout in the high half, the major and
/// the minor version in the two quarters of the low half.
pub open spec fn packed_abi(layout: int, major: int, minor: int) -> int {
    layout * 0x1_0000_0000 + major * 0x1_0000 + minor
}

/// The layout and the version of the contract that a plugin is built for, in one
/// number. Each part of the version has sixteen bits; the patch has none.
pub fn pack_abi(api: &ApiVersion) -> (r: u64)
    ensures
        r == ((ABI_LAYOUT as u64) << 32) | ((api.major as u64) << 16) | (api.minor as u64),
        api.major < 0x1_0000 && api.minor < 0x1_0000 ==> r == packed_abi(
            ABI_LAYOUT as int,
            api.major as int,
            api.minor as int,
        ),
{
    let layout: u64 = ABI_LAYOUT as u64;
    let major: u64 = api.major as u64;
    let minor: u64 = api.minor as u64;
    let r: u64 = (layout << 32) | (major << 16) | minor;
    assert(layout == 2 && major < 0x1_0000 && minor < 0x1_0000 ==> (layout << 32) | (major << 16)
        | minor == layout * 0x1_0000_0000 + major * 0x1_0000 + minor) by (bit_vector);
    r
}

/// The layout in a packed number.
pub fn unpack_layout(packed: u64) -> (r: u32)
    ensures
        r == packed as int / 0x1_0000_0000,
{
    assert(packed >> 32 == packed / 0x1_0000_0000) by (bit_vector);
    assert(packed / 0x1_0000_0000 <= u32::MAX);
    (packed >> 32) as u32
}

/// The version in a packed number; its patch is zero.
pub fn unpack_api(packed: u64) -> (r: ApiVersion)
    ensures
        r.major == (packed as int / 0x1_0000) % 0x1_0000,
        r.minor == packed as int % 0x1_0000,
        r.patch == 0,
{
    assert((packed >> 16) & 0xFFFF == (packed / 0x1_0000) % 0x1_0000) by (bit_vector);
    assert(packed & 0xFFFF == packed % 0x1_0000) by (bit_vector);
    ApiVersion::new(((packed >> 16) & 0xFFFF) as u32, (packed & 0xFFFF) as u32, 0)
}

/// What is packed is unpacked again: the layout and the version but for its patch, as
/// long as each part of the version fits into sixteen bits.
pub proof fn law_packing_keeps_layout_and_version(layout: u32, major: int, minor: int)
    requires
        0 <= major < 0x1_0000,
        0 <= minor < 0x1_0000,
    ensures
        packed_abi(layout as int, major, minor) / 0x1_0000_0000 == layout,
        (packed_abi(layout as int, major, minor) / 0x1_0000) % 0x1_0000 == major,
        packed_abi(layout as int, major, minor) % 0x1_0000 == minor,
{
    let packed = packed_abi(layout as int, major, minor);
    assert(packed == (layout as int * 0x1_0000 + major) * 0x1_0000 + minor);
    vstd::arithmetic::div_mod::lemma_fundamental_div_mod_converse(
        packed,
        0x1_0000,
        layout as int * 0x1_0000 + major,
        minor,
    );
    vstd::arithmetic::div_mod::lemma_fundamental_div_mod_converse(
        packed,
        0x1_0000_0000,
        layout as int,
        major * 0x1_0000 + minor,
    );
    vstd::arithmetic::div_mod::lemma_fundamental_div_mod_converse(
        layout as int * 0x1_0000 + major,
        0x1_0000,
        layout as int,
        major,
    );
}

/// Why a plugin of another layout is refused.
pub open spec fn layout_refusal(layout: int) -> Seq<char> {
    "插件 ABI 布局版本不匹配：插件为 "@ + decimal(layout) + "，本框架为 "@ + decimal(
        ABI_LAYOUT as int,
    ) + "。请用同版本框架重新编译插件"@
}

/// Why a plugin for another contract is refused.
pub open spec fn api_refusal(built: ApiVersion) -> Seq<char> {
    "插件按框架契约 "@ + version_text(built) + " 编译，当前框架只有 "@ + version_text(
        framework_version(),
    )
}

/// Why a plugin from other tools is refused.
pub open spec fn tools_refusal(fingerprint: Seq<char>, toolchain: Seq<char>) -> Seq<char> {
    "插件与框架的构建工具链不一致，无法安全装载。\n  框架: "@ + fingerprint + "\n  插件: "@
        + toolchain
        + "\n插件必须与宿主使用同一个 rustc、同一个目标三元组、同一档 profile（release/debug）、\n  同一 CRT 链接方式以及同一版本的 arona 依赖编译。"@
}

/// The version in a packed number.
pub open spec fn packed_version(packed: u64) -> ApiVersion {
    ApiVersion {
        major: ((packed as int / 0x1_0000) % 0x1_0000) as u32,
        minor: (packed as int % 0x1_0000) as u32,
        patch: 0,
    }
}

/// Why a plugin is refused, if it is: for its layout, then for the version of its
/// contract, then for the tools that built it.
pub open spec fn abi_refusal(
    packed: u64,
    toolchain: Seq<char>,
    fingerprint: Seq<char>,
) -> Option<Seq<char>> {
    if packed as int / 0x1_0000_0000 != ABI_LAYOUT {
        Some(layout_refusal(packed as int / 0x1_0000_0000))
    } else if !offers(framework_version(), packed_version(packed)) {
        Some(api_refusal(packed_version(packed)))
    } else if toolchain != fingerprint {
        Some(tools_refusal(fingerprint, toolchain))
    } else {
        None
    }
}

/// Tests whether a plugin with this handshake can be loaded by a framework whose own
/// tools have the given fingerprint.
pub fn check_abi(packed: u64, toolchain: &str, fingerprint: &str) -> (r: Result<(), String>)
    ensures
        match r {
            Ok(_) => abi_refusal(packed, toolchain@, fingerprint@) is None,
            Err(reason) => abi_refusal(packed, toolchain@, fingerprint@) == Some(reason@),
        },
{
    let layout: u32 = unpack_layout(packed);
    if layout != ABI_LAYOUT {
        let mut out = owned("插件 ABI 布局版本不匹配：插件为 ");
        out.append(u64_text(layout as u64).as_str());
        out.append("，本框架为 ");
        out.append(u64_text(ABI_LAYOUT as u64).as_str());
        out.append("。请用同版本框架重新编译插件");
        return Err(out);
    }
    let built = unpack_api(packed);
    assert(built == packed_version(packed));
    let offered = framework_api_version();
    if !offered.satisfies(&built) {
        let mut out = owned("插件按框架契约 ");
        out.append(built.text().as_str());
        out.append(" 编译，当前框架只有 ");
        out.append(offered.text().as_str());
        return Err(out);
    }
    if !same(toolchain, fingerprint) {
        let mut out = owned("插件与框架的构建工具链不一致，无法安全装载。\n  框架: ");
        out.append(fingerprint);
        out.append("\n  插件: ");
        out.append(toolchain);
        out.append(
            "\n插件必须与宿主使用同一个 rustc、同一个目标三元组、同一档 profile（release/debug）、\n  同一 CRT 链接方式以及同一版本的 arona 依赖编译。",
        );
        return Err(out);
    }
    Ok(())
}

/// A plugin that is built for this very framework and by its tools is accepted.
pub proof fn law_own_plugins_are_accepted(fingerprint: Seq<char>)
    ensures
        abi_refusal(
            packed_abi(
                ABI_LAYOUT as int,
                framework_version().major as int,
                framework_version().minor as int,
            ) as u64,
            fingerprint,
            fingerprint,
        ) is None,
{
    law_packing_keeps_layout_and_version(ABI_LAYOUT, 1, 0);
}

// ---------------------------------------------------------------------------
// the fingerprint

/// The tools that build a plugin or a framework.
#[derive(Debug)]
pub struct Toolchain {
    /// The version of the framework.
    pub version: String,
    /// The version and the host of the compiler.
    pub release: String,
    pub host: String,
    pub target: String,
    pub profile: String,
    /// The C runtime is linked in.
    pub crt_static: bool,
    /// The features that change the layout of shared types.
    pub features: String,
}

/// The fingerprint of some tools.
pub open spec fn fingerprint_text(tools: Toolchain) -> Seq<char> {
    "arona/"@ + tools.version@ + "|rustc/"@ + tools.release@ + "|host/"@ + tools.host@ + "|target/"@
        + tools.target@ + "|profile/"@ + tools.profile@ + "|crt-static/"@ + (if tools.crt_static {
        "1"@
    } else {
        "0"@
    }) + "|features/"@ + tools.features@
}

impl Toolchain {
    /// The fingerprint of the tools.
    pub fn fingerprint(&self) -> (r: String)
        ensures
            r@ == fingerprint_text(*self),
    {
        let mut out = owned("arona/");
        out.append(self.version.as_str());
        out.append("|rustc/");
        out.append(self.release.as_str());
        out.append("|host/");
        out.append(self.host.as_str());
        out.append("|target/");
        out.append(self.target.as_str());
        out.append("|profile/");
        out.append(self.profile.as_str());
        out.append("|crt-static/");
        out.append(
            if self.crt_static {
                "1"
            } else {
                "0"
            },
        );
        out.append("|features/");
        out.append(self.features.as_str());
        out
    }
}

/// The value of a line `key: value`, if the line is one.
pub open spec fn line_field(line: Seq<char>, key: Seq<char>) -> Option<Seq<char>> {
    match index_of_char(line, ':', 0) {
        Some(at) => if trim_spec(line.subrange(0, at)) == key {
            Some(trim_spec(line.subrange(at + 1, line.len() as int)))
        } else {
            None
        },
        None => None,
    }
}

/// The value of the first line `key: value` of some lines.
pub open spec fn field_of(lines: Seq<Seq<char>>, key: Seq<char>) -> Option<Seq<char>>
    decreases lines.len(),
{
    if lines.len() == 0 {
        None
    } else {
        match line_field(lines[0], key) {
            Some(value) => Some(value),
            None => field_of(lines.subrange(1, lines.len() as int), key),
        }
    }
}

/// The value of the first line `key: value` of a text, as compilers describe
/// themselves.
pub fn field(text: &str, key: &str) -> (r: Option<String>)
    ensures
        crate::json::option_text(r) == field_of(lines_spec(text@), key@),
{
    let all = lines(text);
    let ghost seqs = texts(all@);
    let mut i: usize = 0;
    assert(seqs.subrange(0, seqs.len() as int) =~= seqs);
    while i < all.len()
        invariant
            i <= all@.len(),
            seqs == texts(all@),
            seqs == lines_spec(text@),
            field_of(seqs, key@) == field_of(seqs.subrange(i as int, seqs.len() as int), key@),
        decreases all@.len() - i,
    {
        let ghost rest = seqs.subrange(i as int, seqs.len() as int);
        assert(rest[0] == all@[i as int]@);
        assert(rest.subrange(1, rest.len() as int) =~= seqs.subrange(i + 1, seqs.len() as int));
        let chars = chars_of(all[i].as_str());
        let n: usize = chars.len();
        if let Some(at) = find_char(&chars, ':', 0) {
            let name = trim(string_of(&chars, 0, at).as_str());
            if same(name.as_str(), key) {
                return Some(trim(string_of(&chars, at + 1, n).as_str()));
            }
        }
        i = i + 1;
    }
    None
}

/// The name of the feature that an environment variable turns on, if it counts: the
/// features that do not change shared types do not.
pub open spec fn feature_of(key: Seq<char>, value: Seq<char>) -> Option<Seq<char>> {
    if !has_prefix(key, "CARGO_FEATURE_"@) {
        None
    } else {
        let name = replaced(
            lowercased(key.subrange("CARGO_FEATURE_"@.len() as int, key.len() as int)),
            "_"@,
            "-"@,
        );
        if value == "1"@ && name != "gui"@ && name != "default"@ {
            Some(name)
        } else {
            None
        }
    }
}

/// The features that environment variables turn on.
pub open spec fn features_of(vars: Seq<(String, String)>) -> Seq<Seq<char>>
    decreases vars.len(),
{
    if vars.len() == 0 {
        Seq::empty()
    } else {
        let head = features_of(vars.drop_last());
        match feature_of(vars.last().0@, vars.last().1@) {
            Some(name) => head.push(name),
            None => head,
        }
    }
}

fn counted_feature(key: &str, value: &str) -> (r: Option<String>)
    ensures
        crate::json::option_text(r) == feature_of(key@, value@),
{
    if !starts_with(key, "CARGO_FEATURE_") {
        return None;
    }
    let chars = chars_of(key);
    let prefix = chars_of("CARGO_FEATURE_");
    let n: usize = chars.len();
    let feature = string_of(&chars, prefix.len(), n);
    proof {
        reveal_strlit("_");
    }
    let name = replace(to_lowercase(feature.as_str()).as_str(), "_", "-");
    if same(value, "1") && !same(name.as_str(), "gui") && !same(name.as_str(), "default") {
        Some(name)
    } else {
        None
    }
}

/// The features that environment variables turn on, in order and with commas between
/// them.
pub fn enabled_features(vars: &Vec<(String, String)>) -> (r: String)
    ensures
        exists|sorted: Seq<Seq<char>>| #[trigger]
            sorts_texts(sorted, features_of(vars@)) && r@ == joined(sorted, ","@),
{
    let ghost all = vars@;
    let mut out: Vec<String> = Vec::new();
    let mut i: usize = 0;
    assert(texts(out@) =~= features_of(all.take(0)));
    while i < vars.len()
        invariant
            i <= vars@.len(),
            all == vars@,
            texts(out@) == features_of(all.take(i as int)),
        decreases vars@.len() - i,
    {
        assert(all.take(i + 1).drop_last() =~= all.take(i as int));
        let ghost before = out@;
        if let Some(name) = counted_feature(vars[i].0.as_str(), vars[i].1.as_str()) {
            out.push(name);
            assert(texts(out@) =~= texts(before).push(name@));
        }
        i = i + 1;
    }
    assert(all.take(all.len() as int) =~= all);
    let sorted = sort_texts(&out);
    join(&sorted, ",")
}

// ---------------------------------------------------------------------------
// what a plugin reports

/// How long a reported fingerprint may be.
pub const FINGERPRINT_LIMIT: usize = 4096;

/// Takes in the bytes that a plugin reports up to their end: the bytes before the
/// first zero, if there is one within the limit.
pub open spec fn reported_bytes(bytes: Seq<u8>) -> Option<Seq<u8>>
    decreases bytes.len(),
{
    if bytes.len() == 0 {
        None
    } else if bytes[0] == 0 {
        Some(Seq::empty())
    } else {
        match reported_bytes(bytes.subrange(1, bytes.len() as int)) {
            Some(rest) => Some(seq![bytes[0]] + rest),
            None => None,
        }
    }
}

/// The bytes before the first zero, if there is one within the limit.
pub fn read_c_bytes(bytes: &Vec<u8>) -> (r: Result<Vec<u8>, String>)
    ensures
        match r {
            Ok(read) => reported_bytes(bounded(bytes@)) == Some(read@),
            Err(reason) => reported_bytes(bounded(bytes@)) is None && reason@ == unended_text(),
        },
{
    let ghost seen = bounded(bytes@);
    let mut out: Vec<u8> = Vec::new();
    let mut i: usize = 0;
    assert(seen.subrange(0, seen.len() as int) =~= seen);
    while i < bytes.len() && i < FINGERPRINT_LIMIT
        invariant
            i <= seen.len(),
            seen == bounded(bytes@),
            out@ == seen.take(i as int),
            reported_bytes(seen) == match reported_bytes(
                seen.subrange(i as int, seen.len() as int),
            ) {
                Some(rest) => Some(out@ + rest),
                None => None,
            },
        decreases seen.len() - i,
    {
        let ghost rest = seen.subrange(i as int, seen.len() as int);
        assert(rest[0] == bytes@[i as int]);
        assert(rest.subrange(1, rest.len() as int) =~= seen.subrange(i + 1, seen.len() as int));
        if bytes[i] == 0 {
            assert(out@ + Seq::<u8>::empty() =~= out@);
            return Ok(out);
        }
        let ghost before = out@;
        out.push(bytes[i]);
        assert(seen.take(i + 1) =~= out@);
        proof {
            match reported_bytes(rest.subrange(1, rest.len() as int)) {
                Some(tail) => {
                    assert(before + (seq![rest[0]] + tail) =~= out@ + tail);
                },
                None => {},
            }
        }
        i = i + 1;
    }
    let mut reason = owned("插件上报的工具链指纹满 ");
    reason.append(u64_text(4096).as_str());
    reason.append(" 字节还没有结尾，拒载");
    Err(reason)
}

/// The bytes within the limit.
pub open spec fn bounded(bytes: Seq<u8>) -> Seq<u8> {
    if bytes.len() <= FINGERPRINT_LIMIT {
        bytes
    } else {
        bytes.take(FINGERPRINT_LIMIT as int)
    }
}

/// Why a fingerprint without an end is refused.
pub open spec fn unended_text() -> Seq<char> {
    "插件上报的工具链指纹满 "@ + decimal(FINGERPRINT_LIMIT as int)
        + " 字节还没有结尾，拒载"@
}

/// Why a file without a symbol is refused.
pub fn missing_symbol_text(name: &str) -> (r: String)
    ensures
        r@ == "缺少导出符号 `"@ + name@ + "`，不是 Arona 插件或版本过旧"@,
{
    let mut out = owned("缺少导出符号 `");
    out.append(name);
    out.append("`，不是 Arona 插件或版本过旧");
    out
}

/// What a plugin says of the channel that it is handed: zero is acceptance, anything
/// else a refusal.
pub fn bridge_result(code: u8) -> (r: Result<(), String>)
    ensures
        match r {
            Ok(_) => code == HOST_ACCEPTED,
            Err(reason) => code != HOST_ACCEPTED && reason@
                == "插件没能接管宿主的上行通道（代码 "@ + decimal(code as int)
                + "）：1=通道为空，2=它已经先建了自己的默认实例。请用同版本框架重新编译插件"@,
        },
{
    if code == HOST_ACCEPTED {
        Ok(())
    } else {
        let mut out = owned("插件没能接管宿主的上行通道（代码 ");
        out.append(u64_text(code as u64).as_str());
        out.append(
            "）：1=通道为空，2=它已经先建了自己的默认实例。请用同版本框架重新编译插件",
        );
        Err(out)
    }
}

/// A plugin is refused for another layout, for a contract that the framework does not
/// offer and for other tools, and for nothing else.
pub proof fn law_why_plugins_are_refused(
    packed: u64,
    toolchain: Seq<char>,
    fingerprint: Seq<char>,
)
    ensures
        packed as int / 0x1_0000_0000 != 2 ==> abi_refusal(packed, toolchain, fingerprint) is Some,
        (packed as int / 0x1_0000) % 0x1_0000 != 1 ==> abi_refusal(packed, toolchain, fingerprint)
            is Some,
        packed as int % 0x1_0000 > 0 ==> abi_refusal(packed, toolchain, fingerprint) is Some,
        toolchain != fingerprint ==> abi_refusal(packed, toolchain, fingerprint) is Some,
        packed as int / 0x1_0000_0000 == 2 && (packed as int / 0x1_0000) % 0x1_0000 == 1
            && packed as int % 0x1_0000 == 0 && toolchain == fingerprint ==> abi_refusal(
            packed,
            toolchain,
            fingerprint,
        ) is None,
{
}

/// The fingerprint of some tools names each of them.
pub proof fn law_fingerprints_name_the_tools(tools: Toolchain)
    ensures
        ({
            let text = fingerprint_text(tools);
            &&& holds(text, "arona/"@ + tools.version@)
            &&& holds(text, "|rustc/"@ + tools.release@)
            &&& holds(text, "|host/"@ + tools.host@)
            &&& holds(text, "|target/"@ + tools.target@)
            &&& holds(text, "|profile/"@ + tools.profile@)
            &&& tools.crt_static ==> holds(text, "|crt-static/"@ + "1"@)
            &&& !tools.crt_static ==> holds(text, "|crt-static/"@ + "0"@)
            &&& holds(text, "|features/"@ + tools.features@)
        }),
{
    let flag = if tools.crt_static {
        "1"@
    } else {
        "0"@
    };
    lemma_tools_are_named(
        ("arona/"@, tools.version@),
        ("|rustc/"@, tools.release@),
        ("|host/"@, tools.host@),
        ("|target/"@, tools.target@),
        ("|profile/"@, tools.profile@),
        ("|crt-static/"@, flag),
        ("|features/"@, tools.features@),
    );
}

proof fn lemma_tools_are_named(
    a: (Seq<char>, Seq<char>),
    b: (Seq<char>, Seq<char>),
    c: (Seq<char>, Seq<char>),
    d: (Seq<char>, Seq<char>),
    e: (Seq<char>, Seq<char>),
    f: (Seq<char>, Seq<char>),
    g: (Seq<char>, Seq<char>),
)
    ensures
        ({
            let text = a.0 + a.1 + b.0 + b.1 + c.0 + c.1 + d.0 + d.1 + e.0 + e.1 + f.0 + f.1 + g.0
                + g.1;
            &&& holds(text, a.0 + a.1)
            &&& holds(text, b.0 + b.1)
            &&& holds(text, c.0 + c.1)
            &&& holds(text, d.0 + d.1)
            &&& holds(text, e.0 + e.1)
            &&& holds(text, f.0 + f.1)
            &&& holds(text, g.0 + g.1)
        }),
{
    let none = Seq::<Seq<char>>::empty();
    let start = Seq::<char>::empty();
    let (pa, pb, pc, pd) = (a.0 + a.1, b.0 + b.1, c.0 + c.1, d.0 + d.1);
    let (pe, pf, pg) = (e.0 + e.1, f.0 + f.1, g.0 + g.1);
    let p1 = none.push(pa);
    let p2 = p1.push(pb);
    let p3 = p2.push(pc);
    let p4 = p3.push(pd);
    let p5 = p4.push(pe);
    let p6 = p5.push(pf);
    let p7 = p6.push(pg);
    assert(start + pa =~= pa);
    lemma_holds_on(start, pa, none);
    lemma_holds_on(pa, pb, p1);
    lemma_holds_on(pa + pb, pc, p2);
    lemma_holds_on(pa + pb + pc, pd, p3);
    lemma_holds_on(pa + pb + pc + pd, pe, p4);
    lemma_holds_on(pa + pb + pc + pd + pe, pf, p5);
    lemma_holds_on(pa + pb + pc + pd + pe + pf, pg, p6);
    assert(p7[0] == pa && p7[1] == pb && p7[2] == pc && p7[3] == pd && p7[4] == pe && p7[5] == pf
        && p7[6] == pg);
    lemma_pair_behind(pa, b.0, b.1);
    lemma_pair_behind(pa + pb, c.0, c.1);
    lemma_pair_behind(pa + pb + pc, d.0, d.1);
    lemma_pair_behind(pa + pb + pc + pd, e.0, e.1);
    lemma_pair_behind(pa + pb + pc + pd + pe, f.0, f.1);
    lemma_pair_behind(pa + pb + pc + pd + pe + pf, g.0, g.1);
}

pub proof fn lemma_pair_behind(x: Seq<char>, y: Seq<char>, z: Seq<char>)
    ensures
        x + y + z == x + (y + z),
{
    assert(x + y + z =~= x + (y + z));
}

/// What a plugin reports ends at the first zero, and without one there is no report.
pub proof fn law_reports_end_at_the_first_zero(bytes: Seq<u8>, rest: Seq<u8>)
    requires
        forall|i: int| 0 <= i < bytes.len() ==> bytes[i] != 0,
    ensures
        reported_bytes(bytes + seq![0u8] + rest) == Some(bytes),
        reported_bytes(bytes) is None,
    decreases bytes.len(),
{
    let all = bytes + seq![0u8] + rest;
    if bytes.len() > 0 {
        let tail = bytes.subrange(1, bytes.len() as int);
        law_reports_end_at_the_first_zero(tail, rest);
        assert(all.subrange(1, all.len() as int) =~= tail + seq![0u8] + rest);
        assert(all[0] == bytes[0]);
        assert(seq![bytes[0]] + tail =~= bytes);
    } else {
        assert(all[0] == 0);
        assert(bytes =~= Seq::<u8>::empty());
    }
}

/// The value of a line is what stands behind its key and a colon, without white space
/// around it, and the first line with the key counts.
pub proof fn law_the_first_line_counts(
    key: Seq<char>,
    value: Seq<char>,
    rest: Seq<Seq<char>>,
)
    requires
        !key.contains(':'),
    ensures
        line_field(key + seq![':'] + value, trim_spec(key)) == Some(trim_spec(value)),
        field_of(seq![key + seq![':'] + value] + rest, trim_spec(key)) == Some(trim_spec(value)),
{
    let line = key + seq![':'] + value;
    lemma_colon_at(line, key.len() as int, 0, key, value);
    assert(line.subrange(0, key.len() as int) =~= key);
    assert(line.subrange(key.len() as int + 1, line.len() as int) =~= value);
    assert((seq![line] + rest)[0] == line);
}

proof fn lemma_colon_at(line: Seq<char>, at: int, from: int, key: Seq<char>, value: Seq<char>)
    requires
        line == key + seq![':'] + value,
        at == key.len(),
        0 <= from <= at,
        !key.contains(':'),
    ensures
        index_of_char(line, ':', from) == Some(at),
    decreases at - from,
{
    if from < at {
        assert(line[from] == key[from]);
        lemma_colon_at(line, at, from + 1, key, value);
    } else {
        assert(line[at] == ':');
    }
}

/// Only a variable that is set to one turns a feature on, and only one for a feature.
pub proof fn law_which_features_count(key: Seq<char>, value: Seq<char>)
    ensures
        value != "1"@ ==> feature_of(key, value) is None,
        !has_prefix(key, "CARGO_FEATURE_"@) ==> feature_of(key, value) is None,
        feature_of(key, value) != Some("gui"@),
        feature_of(key, value) != Some("default"@),
{
}

/// Every feature that counts is listed, in the order of the variables.
pub proof fn law_counted_features_are_listed(vars: Seq<(String, String)>, i: int, name: Seq<char>)
    requires
        0 <= i < vars.len(),
        feature_of(vars[i].0@, vars[i].1@) == Some(name),
    ensures
        features_of(vars).contains(name),
    decreases vars.len(),
{
    let head = features_of(vars.drop_last());
    let all = features_of(vars);
    if i < vars.len() - 1 {
        assert(vars.drop_last()[i] == vars[i]);
        law_counted_features_are_listed(vars.drop_last(), i, name);
        let n = choose|n: int| 0 <= n < head.len() && head[n] == name;
        assert(all[n] == name);
    } else {
        assert(all[all.len() - 1] == name);
    }
}

/// Of what a plugin reports no more than so many bytes are looked at.
pub proof fn law_reports_are_bounded(bytes: Seq<u8>)
    ensures
        bytes.len() <= 4096 ==> bounded(bytes) == bytes,
        bytes.len() > 4096 ==> bounded(bytes) == bytes.take(4096),
{
}

} // verus!
