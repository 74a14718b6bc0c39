//! In which order plugins are brought up: whatever a plugin needs goes before it.
use crate::text::{lowercased, same, texts, to_lowercase};
use vstd::prelude::*;

verus! {

/// Where a key first stands among others.
pub open spec fn position_of(keys: Seq<Seq<char>>, key: Seq<char>) -> Option<int>
    decreases keys.len(),
{
    if keys.len() == 0 {
        None
    } else {
        match position_of(keys.drop_last(), key) {
            Some(at) => Some(at),
            None => if keys.last() == key {
                Some(keys.len() - 1)
            } else {
                None
            },
        }
    }
}

/// The places of the plugins that a plugin asks for. Plugins that are not there and
/// the plugin itself do not count.
pub open spec fn needs_from(keys: Seq<Seq<char>>, ids: Seq<Seq<char>>, own: int) -> Seq<int>
    decreases ids.len(),
{
    if ids.len() == 0 {
        Seq::empty()
    } else {
        let head = needs_from(keys, ids.drop_last(), own);
        match position_of(keys, lowercased(ids.last())) {
            Some(at) => if at != own {
                head.push(at)
            } else {
                head
            },
            None => head,
        }
    }
}

/// Whether everything that a plugin needs is picked.
pub open spec fn ready(needs: Seq<Seq<int>>, picked: Seq<int>, i: int) -> bool {
    forall|k: int| 0 <= k < needs[i].len() ==> picked.contains(#[trigger] needs[i][k])
}

/// The picked plugins after one round: from place `i` on, each plugin whose needs are
/// picked is picked too.
pub open spec fn scan(needs: Seq<Seq<int>>, picked: Seq<int>, i: int) -> Seq<int>
    decreases needs.len() - i,
{
    if i >= needs.len() {
        picked
    } else if !picked.contains(i) && ready(needs, picked, i) {
        scan(needs, picked.push(i), i + 1)
    } else {
        scan(needs, picked, i + 1)
    }
}

/// How many plugins are still to be picked.
pub open spec fn missing(needs: Seq<Seq<int>>, picked: Seq<int>) -> nat {
    if needs.len() > picked.len() {
        (needs.len() - picked.len()) as nat
    } else {
        0
    }
}

/// The picked plugins after as many rounds as make a difference.
pub open spec fn order_from(needs: Seq<Seq<int>>, picked: Seq<int>) -> Seq<int>
    decreases missing(needs, picked),
{
    let next = scan(needs, picked, 0);
    if picked.len() >= needs.len() || next.len() <= picked.len() {
        picked
    } else {
        order_from(needs, next)
    }
}

/// The order of plugins with the given needs. Plugins that wait for each other are
/// left out.
pub open spec fn dependency_order(needs: Seq<Seq<int>>) -> Seq<int> {
    order_from(needs, Seq::empty())
}

// ---------------------------------------------------------------------------
// the order is sound

/// Whether a beginning of an order is sound: no plugin twice, and each after what it
/// needs.
pub open spec fn sound(needs: Seq<Seq<int>>, picked: Seq<int>) -> bool {
    &&& forall|p: int| 0 <= p < picked.len() ==> 0 <= #[trigger] picked[p] < needs.len()
    &&& picked.no_duplicates()
    &&& forall|p: int, k: int|
        #![trigger needs[picked[p]][k]]
        0 <= p < picked.len() && 0 <= k < needs[picked[p]].len() ==> picked.take(p).contains(
            needs[picked[p]][k],
        )
}

proof fn lemma_sound_push(needs: Seq<Seq<int>>, picked: Seq<int>, i: int)
    requires
        sound(needs, picked),
        0 <= i < needs.len(),
        !picked.contains(i),
        ready(needs, picked, i),
    ensures
        sound(needs, picked.push(i)),
{
    let after = picked.push(i);
    assert forall|p: int, k: int|
        #![trigger needs[after[p]][k]]
        0 <= p < after.len() && 0 <= k < needs[after[p]].len() implies after.take(p).contains(
        needs[after[p]][k],
    ) by {
        if p < picked.len() {
            assert(after[p] == picked[p]);
            assert(after.take(p) =~= picked.take(p));
            assert(picked.take(p).contains(needs[picked[p]][k]));
        } else {
            assert(after.take(p) =~= picked);
            assert(picked.contains(needs[i][k]));
        }
    }
}

proof fn lemma_scan(needs: Seq<Seq<int>>, picked: Seq<int>, i: int)
    requires
        sound(needs, picked),
        0 <= i,
    ensures
        sound(needs, scan(needs, picked, i)),
        picked.len() <= scan(needs, picked, i).len(),
        picked.is_prefix_of(scan(needs, picked, i)),
    decreases needs.len() - i,
{
    if i < needs.len() {
        if !picked.contains(i) && ready(needs, picked, i) {
            lemma_sound_push(needs, picked, i);
            lemma_scan(needs, picked.push(i), i + 1);
            let after = scan(needs, picked.push(i), i + 1);
            assert(picked.is_prefix_of(after)) by {
                assert(picked =~= picked.push(i).take(picked.len() as int));
                assert(after.subrange(0, picked.len() as int) =~= picked) by {
                    assert forall|k: int| 0 <= k < picked.len() implies after[k] == picked[k] by {
                        assert(after.subrange(0, picked.push(i).len() as int) =~= picked.push(i));
                        assert(after[k] == after.subrange(0, picked.push(i).len() as int)[k]);
                    }
                }
            }
        } else {
            lemma_scan(needs, picked, i + 1);
        }
    }
}

proof fn lemma_order_from_sound(needs: Seq<Seq<int>>, picked: Seq<int>)
    requires
        sound(needs, picked),
    ensures
        sound(needs, order_from(needs, picked)),
    decreases missing(needs, picked),
{
    let next = scan(needs, picked, 0);
    lemma_scan(needs, picked, 0);
    if picked.len() < needs.len() && next.len() > picked.len() {
        lemma_order_from_sound(needs, next);
    }
}

/// Every plugin goes at most once, and after everything that it needs.
pub proof fn law_needs_go_first(needs: Seq<Seq<int>>)
    ensures
        sound(needs, dependency_order(needs)),
{
    lemma_order_from_sound(needs, Seq::empty());
}

/// A round that picks nothing leaves out only plugins that wait for others.
proof fn lemma_idle_scan(needs: Seq<Seq<int>>, picked: Seq<int>, i: int, j: int)
    requires
        sound(needs, picked),
        0 <= i <= j < needs.len(),
        scan(needs, picked, i).len() <= picked.len(),
        !picked.contains(j),
    ensures
        !ready(needs, picked, j),
    decreases needs.len() - i,
{
    if !picked.contains(i) && ready(needs, picked, i) {
        lemma_sound_push(needs, picked, i);
        lemma_scan(needs, picked.push(i), i + 1);
    } else if i < j {
        lemma_idle_scan(needs, picked, i + 1, j);
    }
}

/// Picks without repetition among `n` places are at most `n`; and `n` of them are all.
proof fn lemma_full(picked: Seq<int>, n: int, j: int)
    requires
        picked.no_duplicates(),
        forall|p: int| 0 <= p < picked.len() ==> 0 <= #[trigger] picked[p] < n,
        picked.len() >= n,
        0 <= j < n,
    ensures
        picked.contains(j),
{
    let all = vstd::set_lib::set_int_range(0, n);
    vstd::set_lib::lemma_int_range(0, n);
    picked.unique_seq_to_set();
    let chosen = picked.to_set();
    assert(chosen.subset_of(all)) by {
        assert forall|x: int| chosen.contains(x) implies all.contains(x) by {
            let p = choose|p: int| 0 <= p < picked.len() && picked[p] == x;
            assert(0 <= picked[p] < n);
        }
    }
    vstd::set_lib::lemma_len_subset(chosen, all);
    vstd::set_lib::lemma_subset_equality(chosen, all);
    assert(all.contains(j));
    assert(chosen.contains(j));
}

proof fn lemma_order_from_left_out(needs: Seq<Seq<int>>, picked: Seq<int>, j: int)
    requires
        sound(needs, picked),
        0 <= j < needs.len(),
        !order_from(needs, picked).contains(j),
    ensures
        !ready(needs, order_from(needs, picked), j),
    decreases missing(needs, picked),
{
    let next = scan(needs, picked, 0);
    lemma_scan(needs, picked, 0);
    if picked.len() >= needs.len() {
        lemma_full(picked, needs.len() as int, j);
    } else if next.len() <= picked.len() {
        lemma_idle_scan(needs, picked, 0, j);
    } else {
        lemma_order_from_left_out(needs, next, j);
    }
}

/// A plugin is left out only where it needs another one that is left out.
pub proof fn law_left_out_plugins_wait_for_each_other(needs: Seq<Seq<int>>, j: int)
    requires
        0 <= j < needs.len(),
        !dependency_order(needs).contains(j),
    ensures
        exists|k: int|
            0 <= k < needs[j].len() && !dependency_order(needs).contains(#[trigger] needs[j][k]),
{
    lemma_order_from_left_out(needs, Seq::empty(), j);
}

/// Where no plugins wait for each other, that is, where every plugin can be given a
/// rank above those that it needs, no plugin is left out.
pub proof fn law_without_cycles_nobody_is_left_out(
    needs: Seq<Seq<int>>,
    rank: spec_fn(int) -> nat,
    j: int,
)
    requires
        0 <= j < needs.len(),
        forall|i: int, k: int|
            #![trigger needs[i][k]]
            0 <= i < needs.len() && 0 <= k < needs[i].len() ==> 0 <= needs[i][k] < needs.len()
                && rank(needs[i][k]) < rank(i),
    ensures
        dependency_order(needs).contains(j),
    decreases rank(j),
{
    if !dependency_order(needs).contains(j) {
        law_left_out_plugins_wait_for_each_other(needs, j);
        let k = choose|k: int|
            0 <= k < needs[j].len() && !dependency_order(needs).contains(#[trigger] needs[j][k]);
        law_without_cycles_nobody_is_left_out(needs, rank, needs[j][k]);
    }
}

// ---------------------------------------------------------------------------
// finding it

/// Places as numbers without bound.
pub open spec fn places(v: Seq<usize>) -> Seq<int> {
    Seq::new(v.len(), |i: int| v[i] as int)
}

/// Lists of places as numbers without bound.
pub open spec fn place_lists(v: Seq<Vec<usize>>) -> Seq<Seq<int>> {
    Seq::new(v.len(), |i: int| places(v[i]@))
}

/// Where a key first stands among others.
pub fn find_position(keys: &Vec<String>, key: &str) -> (r: Option<usize>)
    ensures
        match r {
            Some(at) => position_of(texts(keys@), key@) == Some(at as int) && at < keys@.len(),
            None => position_of(texts(keys@), key@) is None,
        },
{
    let ghost all = texts(keys@);
    let mut i: usize = 0;
    while i < keys.len()
        invariant
            i <= keys@.len(),
            all == texts(keys@),
            position_of(all.take(i as int), key@) is None,
        decreases keys@.len() - i,
    {
        assert(all.take(i + 1).drop_last() =~= all.take(i as int));
        assert(all.take(i + 1).last() == keys@[i as int]@);
        if same(keys[i].as_str(), key) {
            proof {
                lemma_position_stays(all, key@, i + 1);
            }
            return Some(i);
        }
        i = i + 1;
    }
    assert(all.take(all.len() as int) =~= all);
    None
}

proof fn lemma_position_stays(keys: Seq<Seq<char>>, key: Seq<char>, n: int)
    requires
        0 <= n <= keys.len(),
        position_of(keys.take(n), key) is Some,
    ensures
        position_of(keys, key) == position_of(keys.take(n), key),
    decreases keys.len() - n,
{
    if n < keys.len() {
        assert(keys.take(n + 1).drop_last() =~= keys.take(n));
        lemma_position_stays(keys, key, n + 1);
    } else {
        assert(keys.take(n) =~= keys);
    }
}

/// The places of the plugins that a plugin asks for are added to a list.
pub fn add_needs(out: &mut Vec<usize>, keys: &Vec<String>, ids: &Vec<String>, own: usize)
    ensures
        places(final(out)@) == places(old(out)@) + needs_from(texts(keys@), texts(ids@), own as int),
{
    let ghost all = texts(ids@);
    let mut i: usize = 0;
    assert(places(out@) =~= places(old(out)@) + needs_from(texts(keys@), all.take(0), own as int));
    while i < ids.len()
        invariant
            i <= ids@.len(),
            all == texts(ids@),
            places(out@) == places(old(out)@) + needs_from(
                texts(keys@),
                all.take(i as int),
                own as int,
            ),
        decreases ids@.len() - i,
    {
        assert(all.take(i + 1).drop_last() =~= all.take(i as int));
        assert(all.take(i + 1).last() == ids@[i as int]@);
        let key = to_lowercase(ids[i].as_str());
        if let Some(at) = find_position(keys, key.as_str()) {
            if at != own {
                let ghost before = out@;
                let ghost found = needs_from(texts(keys@), all.take(i as int), own as int);
                out.push(at);
                assert(places(out@) =~= places(before).push(at as int));
                assert(places(out@) =~= places(old(out)@) + found.push(at as int));
            }
        }
        i = i + 1;
    }
    assert(all.take(all.len() as int) =~= all);
}

proof fn lemma_needs_concat(
    keys: Seq<Seq<char>>,
    first: Seq<Seq<char>>,
    second: Seq<Seq<char>>,
    own: int,
)
    ensures
        needs_from(keys, first + second, own) == needs_from(keys, first, own) + needs_from(
            keys,
            second,
            own,
        ),
    decreases second.len(),
{
    let both = first + second;
    if second.len() == 0 {
        assert(both =~= first);
        assert(needs_from(keys, first, own) + needs_from(keys, second, own) =~= needs_from(
            keys,
            first,
            own,
        ));
    } else {
        assert(both.drop_last() =~= first + second.drop_last());
        assert(both.last() == second.last());
        lemma_needs_concat(keys, first, second.drop_last(), own);
        let head = needs_from(keys, first, own);
        let tail = needs_from(keys, second.drop_last(), own);
        match position_of(keys, lowercased(second.last())) {
            Some(at) => {
                assert((head + tail).push(at) =~= head + tail.push(at));
            },
            None => {},
        }
    }
}

/// The places of the plugins that a plugin asks for, those that it cannot do without
/// before those that it can.
pub fn find_needs(keys: &Vec<String>, depends: &Vec<String>, soft: &Vec<String>, own: usize) -> (r:
    Vec<usize>)
    ensures
        places(r@) == needs_from(texts(keys@), texts(depends@) + texts(soft@), own as int),
{
    let mut out: Vec<usize> = Vec::new();
    assert(places(out@) =~= Seq::<int>::empty());
    add_needs(&mut out, keys, depends, own);
    add_needs(&mut out, keys, soft, own);
    proof {
        lemma_needs_concat(texts(keys@), texts(depends@), texts(soft@), own as int);
        let a = needs_from(texts(keys@), texts(depends@), own as int);
        let b = needs_from(texts(keys@), texts(soft@), own as int);
        assert(Seq::<int>::empty() + a + b =~= a + b);
    }
    out
}

/// Tests whether a place is in a list.
pub fn contains_place(list: &Vec<usize>, place: usize) -> (r: bool)
    ensures
        r == places(list@).contains(place as int),
{
    let ghost all = places(list@);
    let mut i: usize = 0;
    while i < list.len()
        invariant
            i <= list@.len(),
            all == places(list@),
            forall|k: int| 0 <= k < i ==> #[trigger] all[k] != place as int,
        decreases list@.len() - i,
    {
        if list[i] == place {
            assert(all[i as int] == place as int);
            return true;
        }
        i = i + 1;
    }
    false
}

fn is_ready(needs: &Vec<Vec<usize>>, picked: &Vec<usize>, i: usize) -> (r: bool)
    requires
        i < needs@.len(),
    ensures
        r == ready(place_lists(needs@), places(picked@), i as int),
{
    let ghost own = place_lists(needs@)[i as int];
    let list = &needs[i];
    let mut k: usize = 0;
    while k < list.len()
        invariant
            k <= list@.len(),
            own == places(list@),
            own == place_lists(needs@)[i as int],
            forall|j: int| 0 <= j < k ==> places(picked@).contains(#[trigger] own[j]),
        decreases list@.len() - k,
    {
        if !contains_place(picked, list[k]) {
            assert(!places(picked@).contains(own[k as int]));
            return false;
        }
        k = k + 1;
    }
    true
}

/// The order of plugins with the given needs. Plugins that wait for each other are
/// left out.
pub fn find_order(needs: &Vec<Vec<usize>>) -> (r: Vec<usize>)
    ensures
        places(r@) == dependency_order(place_lists(needs@)),
{
    let ghost lists = place_lists(needs@);
    let n: usize = needs.len();
    let mut picked: Vec<usize> = Vec::new();
    assert(places(picked@) =~= Seq::<int>::empty());
    proof {
        assert(sound(lists, places(picked@)));
    }
    while picked.len() < n
        invariant
            n == needs@.len(),
            lists == place_lists(needs@),
            sound(lists, places(picked@)),
            dependency_order(lists) == order_from(lists, places(picked@)),
        decreases missing(lists, places(picked@)),
    {
        let ghost before = places(picked@);
        let count: usize = picked.len();
        let mut i: usize = 0;
        while i < n
            invariant
                i <= n,
                n == needs@.len(),
                lists == place_lists(needs@),
                sound(lists, places(picked@)),
                scan(lists, before, 0) == scan(lists, places(picked@), i as int),
            decreases n - i,
        {
            if !contains_place(&picked, i) && is_ready(needs, &picked, i) {
                let ghost so_far = places(picked@);
                proof {
                    lemma_sound_push(lists, so_far, i as int);
                }
                picked.push(i);
                assert(places(picked@) =~= so_far.push(i as int));
            }
            i = i + 1;
        }
        if picked.len() == count {
            proof {
                lemma_scan(lists, before, 0);
                let next = scan(lists, before, 0);
                assert(next =~= before) by {
                    assert(next.len() == before.len());
                    assert(before =~= next.subrange(0, before.len() as int));
                }
            }
            return picked;
        }
        proof {
            lemma_scan(lists, before, 0);
        }
    }
    picked
}

/// The place of a key is the first at which it stands.
pub proof fn law_keys_are_found_at_their_first_place(keys: Seq<Seq<char>>, i: int)
    requires
        0 <= i < keys.len(),
        forall|k: int| 0 <= k < i ==> keys[k] != keys[i],
    ensures
        position_of(keys, keys[i]) == Some(i),
    decreases keys.len(),
{
    let less = keys.drop_last();
    if i < less.len() {
        assert forall|k: int| 0 <= k < i implies less[k] != less[i] by {
            assert(keys[k] != keys[i]);
        }
        law_keys_are_found_at_their_first_place(less, i);
    } else {
        lemma_key_is_nowhere(less, keys[i]);
    }
}

proof fn lemma_key_is_nowhere(keys: Seq<Seq<char>>, key: Seq<char>)
    requires
        forall|k: int| 0 <= k < keys.len() ==> keys[k] != key,
    ensures
        position_of(keys, key) is None,
    decreases keys.len(),
{
    if keys.len() > 0 {
        let less = keys.drop_last();
        assert forall|k: int| 0 <= k < less.len() implies less[k] != key by {
            assert(keys[k] != key);
        }
        lemma_key_is_nowhere(less, key);
        assert(keys.last() == keys[keys.len() - 1]);
    }
}

/// Each plugin that another asks for, and that is there, is among its needs; the plugin
/// itself is not.
pub proof fn law_asked_for_plugins_are_needed(
    keys: Seq<Seq<char>>,
    ids: Seq<Seq<char>>,
    own: int,
    k: int,
    at: int,
)
    ensures
        0 <= k < ids.len() && position_of(keys, lowercased(ids[k])) == Some(at) && at != own
            ==> needs_from(keys, ids, own).contains(at),
        !needs_from(keys, ids, own).contains(own),
    decreases ids.len(),
{
    if ids.len() == 0 {
        assert(!needs_from(keys, ids, own).contains(own));
    } else {
        let less = ids.drop_last();
        let head = needs_from(keys, less, own);
        let all = needs_from(keys, ids, own);
        law_asked_for_plugins_are_needed(keys, less, own, k, at);
        assert(ids.last() == ids[ids.len() - 1]);
        if 0 <= k < less.len() {
            assert(less[k] == ids[k]);
        }
        if head.contains(at) {
            let n = choose|n: int| 0 <= n < head.len() && head[n] == at;
            assert(all[n] == at);
        }
        if k == ids.len() - 1 && position_of(keys, lowercased(ids[k])) == Some(at) && at != own {
            assert(all[all.len() - 1] == at);
        }
        if all.contains(own) {
            let n = choose|n: int| 0 <= n < all.len() && all[n] == own;
            if n < head.len() {
                assert(head[n] == own);
            }
        }
    }
}

} // verus!
