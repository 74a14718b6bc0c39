//! Which files are plugins.
use crate::text::{chars_of, equal_ignoring_case, lower, same, same_ignoring_case, string_of};
use vstd::prelude::*;

verus! {

/// The loader of the plugins that are files.
pub const DYNAMIC_LOADER: &'static str = "dynamic";

/// The ending of the files that hold plugins on a system.
pub open spec fn extension_on(system: Seq<char>) -> Seq<char> {
    if system == "windows"@ {
        "dll"@
    } else if system == "macos"@ {
        "dylib"@
    } else {
        "so"@
    }
}

/// The ending of the files that hold plugins on a system.
pub fn library_extension(system: &str) -> (r: &'static str)
    ensures
        r@ == extension_on(system@),
{
    if same(system, "windows") {
        "dll"
    } else if same(system, "macos") {
        "dylib"
    } else {
        "so"
    }
}

/// Where the last dot of a name stands.
pub open spec fn last_dot(name: Seq<char>) -> Option<int>
    decreases name.len(),
{
    if name.len() == 0 {
        None
    } else if name.last() == '.' {
        Some(name.len() - 1)
    } else {
        last_dot(name.drop_last())
    }
}

/// The ending of a file name: what follows the last dot, unless the name begins with
/// that dot.
pub open spec fn ending_of(name: Seq<char>) -> Option<Seq<char>> {
    match last_dot(name) {
        Some(at) => if at > 0 {
            Some(name.subrange(at + 1, name.len() as int))
        } else {
            None
        },
        None => None,
    }
}

/// Whether a file holds a plugin: it has the right ending, and no underscore before its
/// name, which marks what a plugin brings along.
pub open spec fn holds_plugin(name: Seq<char>, extension: Seq<char>) -> bool {
    &&& !(name.len() > 0 && name[0] == '_')
    &&& name != ".."@
    &&& match ending_of(name) {
        Some(ending) => same_ignoring_case(ending, extension),
        None => false,
    }
}

/// Tests whether a file holds a plugin.
pub fn is_plugin_library(name: &str, extension: &str) -> (r: bool)
    ensures
        r == holds_plugin(name@, extension@),
{
    let chars = chars_of(name);
    let n: usize = chars.len();
    if n > 0 && chars[0] == '_' {
        return false;
    }
    if same(name, "..") {
        return false;
    }
    let ghost all = chars@;
    let mut i: usize = n;
    assert(all.take(all.len() as int) =~= all);
    while i > 0 && chars[i - 1] != '.'
        invariant
            i <= n,
            n == chars@.len(),
            all == chars@,
            last_dot(all) == last_dot(all.take(i as int)),
        decreases i,
    {
        assert(all.take(i as int).drop_last() =~= all.take(i - 1));
        i = i - 1;
    }
    if i <= 1 {
        return false;
    }
    let ending = string_of(&chars, i, n);
    equal_ignoring_case(ending.as_str(), extension)
}

proof fn lemma_last_dot(name: Seq<char>, ending: Seq<char>)
    requires
        !ending.contains('.'),
    ensures
        last_dot(name + seq!['.'] + ending) == Some(name.len() as int),
    decreases ending.len(),
{
    let all = name + seq!['.'] + ending;
    if ending.len() == 0 {
        assert(all.last() == '.');
    } else {
        let less = ending.drop_last();
        assert(all.last() == ending[ending.len() - 1]);
        assert(!less.contains('.')) by {
            assert forall|i: int| 0 <= i < less.len() implies less[i] != '.' by {
                assert(less[i] == ending[i]);
            }
        }
        lemma_last_dot(name, less);
        assert(all.drop_last() =~= name + seq!['.'] + less);
    }
}

/// A file holds a plugin just where its ending is the right one, whatever the case of its
/// letters, and no underscore stands before its name; one without a name before the dot
/// holds none.
pub proof fn law_which_files_hold_plugins(
    name: Seq<char>,
    ending: Seq<char>,
    extension: Seq<char>,
)
    requires
        !ending.contains('.'),
    ensures
        name.len() > 0 && name[0] != '_' && ending.len() > 0 ==> (holds_plugin(
            name + seq!['.'] + ending,
            extension,
        ) <==> lower(ending) == lower(extension)),
        name.len() > 0 && name[0] == '_' ==> !holds_plugin(name + seq!['.'] + ending, extension),
        name.len() == 0 ==> !holds_plugin(name + seq!['.'] + ending, extension),
        !name.contains('.') ==> !holds_plugin(name, extension),
{
    lemma_last_dot(name, ending);
    let all = name + seq!['.'] + ending;
    assert(all.subrange(name.len() as int + 1, all.len() as int) =~= ending);
    if name.len() > 0 {
        assert(all[0] == name[0]);
    }
    reveal_strlit("..");
    if ending.len() > 0 {
        assert(all[all.len() - 1] == ending[ending.len() - 1]);
        assert(ending.contains(ending[ending.len() - 1]));
        assert(all != ".."@);
    }
    if !name.contains('.') {
        lemma_no_dot(name);
    }
}

proof fn lemma_no_dot(name: Seq<char>)
    requires
        !name.contains('.'),
    ensures
        last_dot(name) is None,
    decreases name.len(),
{
    if name.len() > 0 {
        let less = name.drop_last();
        assert(name.last() == name[name.len() - 1]);
        assert(!less.contains('.')) by {
            assert forall|i: int| 0 <= i < less.len() implies less[i] != '.' by {
                assert(less[i] == name[i]);
            }
        }
        lemma_no_dot(less);
    }
}

/// Each system has its own ending for libraries.
pub proof fn law_systems_have_their_endings(system: Seq<char>)
    ensures
        extension_on(system) == "dll"@ <==> system == "windows"@,
        extension_on(system) == "dylib"@ <==> system == "macos"@,
        extension_on(system) == "so"@ <==> system != "windows"@ && system != "macos"@,
{
    reveal_strlit("dll");
    reveal_strlit("dylib");
    reveal_strlit("so");
    reveal_strlit("windows");
    reveal_strlit("macos");
    assert("dll"@.len() == 3 && "dylib"@.len() == 5 && "so"@.len() == 2);
    assert("windows"@.len() == 7 && "macos"@.len() == 5);
}

} // verus!
