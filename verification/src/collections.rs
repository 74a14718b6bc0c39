//! Ordered collections keyed by text, and sorting.
use crate::text::{chars_of, same, texts};
use vstd::prelude::*;

verus! {

// ---------------------------------------------------------------------------
// the order of texts

/// Whether one text comes before another, character by character.
pub open spec fn text_less(a: Seq<char>, b: Seq<char>) -> bool
    decreases a.len(),
{
    if b.len() == 0 {
        false
    } else if a.len() == 0 {
        true
    } else if a[0] == b[0] {
        text_less(a.subrange(1, a.len() as int), b.subrange(1, b.len() as int))
    } else {
        a[0] < b[0]
    }
}

/// No text comes before itself.
pub proof fn lemma_less_irreflexive(a: Seq<char>)
    ensures
        !text_less(a, a),
    decreases a.len(),
{
    if a.len() > 0 {
        lemma_less_irreflexive(a.subrange(1, a.len() as int));
    }
}

/// The order of texts is transitive.
pub proof fn lemma_less_transitive(a: Seq<char>, b: Seq<char>, c: Seq<char>)
    requires
        text_less(a, b),
        text_less(b, c),
    ensures
        text_less(a, c),
    decreases a.len(),
{
    if a.len() > 0 && a[0] == b[0] && b[0] == c[0] {
        lemma_less_transitive(
            a.subrange(1, a.len() as int),
            b.subrange(1, b.len() as int),
            c.subrange(1, c.len() as int),
        );
    }
}

/// Of two different texts one comes before the other.
pub proof fn lemma_less_total(a: Seq<char>, b: Seq<char>)
    ensures
        a == b || text_less(a, b) || text_less(b, a),
    decreases a.len(),
{
    if a.len() > 0 && b.len() > 0 {
        if a[0] == b[0] {
            let x = a.subrange(1, a.len() as int);
            let y = b.subrange(1, b.len() as int);
            lemma_less_total(x, y);
            if x == y {
                assert(a =~= seq![a[0]] + x);
                assert(b =~= seq![b[0]] + y);
            }
        }
    } else if a.len() == 0 && b.len() == 0 {
        assert(a =~= b);
    }
}

/// Whether one text comes before another.
pub fn less(a: &str, b: &str) -> (r: bool)
    ensures
        r == text_less(a@, b@),
{
    let x = chars_of(a);
    let y = chars_of(b);
    let mut i: usize = 0;
    assert(x@.subrange(0, x@.len() as int) =~= x@);
    assert(y@.subrange(0, y@.len() as int) =~= y@);
    while i < x.len() && i < y.len() && x[i] == y[i]
        invariant
            i <= x@.len(),
            i <= y@.len(),
            text_less(x@, y@) == text_less(
                x@.subrange(i as int, x@.len() as int),
                y@.subrange(i as int, y@.len() as int),
            ),
        decreases x@.len() - i,
    {
        let ghost p = x@.subrange(i as int, x@.len() as int);
        let ghost q = y@.subrange(i as int, y@.len() as int);
        assert(p.subrange(1, p.len() as int) =~= x@.subrange(i + 1, x@.len() as int));
        assert(q.subrange(1, q.len() as int) =~= y@.subrange(i + 1, y@.len() as int));
        i = i + 1;
    }
    if i >= y.len() {
        false
    } else if i >= x.len() {
        true
    } else {
        x[i] < y[i]
    }
}

// ---------------------------------------------------------------------------
// maps from texts

/// Whether the keys of some entries ascend strictly.
pub open spec fn keys_ascend<V>(entries: Seq<(String, V)>) -> bool {
    forall|i: int, j: int|
        0 <= i < j < entries.len() ==> text_less(#[trigger] entries[i].0@, #[trigger] entries[j].0@)
}

/// Whether some entry has the key.
pub open spec fn has_key<V>(entries: Seq<(String, V)>, key: Seq<char>) -> bool {
    exists|i: int| 0 <= i < entries.len() && (#[trigger] entries[i]).0@ == key
}

/// The map that some entries make.
pub open spec fn entries_map<V>(entries: Seq<(String, V)>) -> Map<Seq<char>, V> {
    Map::new(
        |key: Seq<char>| has_key(entries, key),
        |key: Seq<char>|
            entries[choose|i: int| 0 <= i < entries.len() && (#[trigger] entries[i]).0@ == key].1,
    )
}

/// A map from texts, in the order of its keys.
#[derive(Debug)]
pub struct TextMap<V> {
    entries: Vec<(String, V)>,
}

impl<V> View for TextMap<V> {
    type V = Map<Seq<char>, V>;

    closed spec fn view(&self) -> Map<Seq<char>, V> {
        entries_map(self.entries@)
    }
}

/// The map holds each of the entries that make it.
pub proof fn lemma_entry_in_map<V>(entries: Seq<(String, V)>, i: int)
    requires
        keys_ascend(entries),
        0 <= i < entries.len(),
    ensures
        entries_map(entries).contains_key(entries[i].0@),
        entries_map(entries)[entries[i].0@] == entries[i].1,
{
    let key = entries[i].0@;
    assert(has_key(entries, key));
    let k = choose|k: int| 0 <= k < entries.len() && (#[trigger] entries[k]).0@ == key;
    lemma_less_irreflexive(key);
    if k < i {
        assert(text_less(entries[k].0@, entries[i].0@));
    } else if i < k {
        assert(text_less(entries[i].0@, entries[k].0@));
    }
}

/// One more entry, at the end, is one more key in the map.
pub proof fn lemma_entries_map_push<V>(entries: Seq<(String, V)>, i: int)
    requires
        keys_ascend(entries),
        0 <= i < entries.len(),
    ensures
        entries_map(entries.take(i + 1)) == entries_map(entries.take(i)).insert(
            entries[i].0@,
            entries[i].1,
        ),
{
    let before = entries.take(i);
    let after = entries.take(i + 1);
    let key = entries[i].0@;
    assert(keys_ascend(before)) by {
        assert forall|a: int, b: int| 0 <= a < b < before.len() implies text_less(
            #[trigger] before[a].0@,
            #[trigger] before[b].0@,
        ) by {
            assert(text_less(entries[a].0@, entries[b].0@));
        }
    }
    assert(keys_ascend(after)) by {
        assert forall|a: int, b: int| 0 <= a < b < after.len() implies text_less(
            #[trigger] after[a].0@,
            #[trigger] after[b].0@,
        ) by {
            assert(text_less(entries[a].0@, entries[b].0@));
        }
    }
    assert forall|k: Seq<char>| has_key(after, k) == (has_key(before, k) || k == key) by {
        if has_key(before, k) {
            let j = choose|j: int| 0 <= j < before.len() && (#[trigger] before[j]).0@ == k;
            assert(after[j].0@ == k);
        }
        if k == key {
            assert(after[i].0@ == k);
        }
        if has_key(after, k) && k != key {
            let j = choose|j: int| 0 <= j < after.len() && (#[trigger] after[j]).0@ == k;
            assert(before[j].0@ == k);
        }
    }
    assert forall|k: Seq<char>| has_key(after, k) implies entries_map(after)[k] == entries_map(
        before,
    ).insert(key, entries[i].1)[k] by {
        if k == key {
            lemma_entry_in_map(after, i);
        } else {
            let j = choose|j: int| 0 <= j < before.len() && (#[trigger] before[j]).0@ == k;
            lemma_entry_in_map(before, j);
            lemma_entry_in_map(after, j);
        }
    }
    assert(entries_map(after) =~= entries_map(before).insert(key, entries[i].1));
}

impl<V> TextMap<V> {
    #[verifier::type_invariant]
    spec fn well_formed(self) -> bool {
        keys_ascend(self.entries@)
    }

    /// The entries in the order of their keys.
    pub closed spec fn listed(&self) -> Seq<(String, V)> {
        self.entries@
    }

    /// An empty map.
    pub fn new() -> (r: TextMap<V>)
        ensures
            r@ == Map::<Seq<char>, V>::empty(),
            r.listed() == Seq::<(String, V)>::empty(),
    {
        let r = TextMap { entries: Vec::new() };
        assert(r@ =~= Map::<Seq<char>, V>::empty());
        r
    }

    /// The entries in the order of their keys.
    pub fn entries(&self) -> (r: &Vec<(String, V)>)
        ensures
            r@ == self.listed(),
            keys_ascend(r@),
            self@ == entries_map(r@),
    {
        proof {
            use_type_invariant(self);
        }
        &self.entries
    }

    /// How many entries there are.
    pub fn len(&self) -> (r: usize)
        ensures
            r == self.listed().len(),
            r == 0 <==> self@ == Map::<Seq<char>, V>::empty(),
    {
        proof {
            if self.entries@.len() == 0 {
                assert(self@ =~= Map::<Seq<char>, V>::empty());
            } else {
                assert(has_key(self.entries@, self.entries@[0].0@));
                assert(self@.contains_key(self.entries@[0].0@));
            }
        }
        self.entries.len()
    }

    /// The position of a key, or where it belongs.
    fn position(&self, key: &str) -> (r: (usize, bool))
        ensures
            r.0 <= self.entries@.len(),
            forall|i: int| 0 <= i < r.0 ==> text_less(#[trigger] self.entries@[i].0@, key@),
            r.1 ==> r.0 < self.entries@.len() && self.entries@[r.0 as int].0@ == key@,
            !r.1 ==> forall|i: int|
                r.0 <= i < self.entries@.len() ==> text_less(key@, #[trigger] self.entries@[i].0@),
            r.1 == self@.contains_key(key@),
            r.1 ==> self@[key@] == self.entries@[r.0 as int].1,
    {
        proof {
            use_type_invariant(self);
        }
        let mut i: usize = 0;
        while i < self.entries.len() && less(self.entries[i].0.as_str(), key)
            invariant
                i <= self.entries@.len(),
                forall|k: int| 0 <= k < i ==> text_less(#[trigger] self.entries@[k].0@, key@),
            decreases self.entries@.len() - i,
        {
            i = i + 1;
        }
        if i < self.entries.len() && same(self.entries[i].0.as_str(), key) {
            proof {
                lemma_entry_in_map(self.entries@, i as int);
            }
            return (i, true);
        }
        proof {
            if i < self.entries@.len() {
                lemma_less_total(self.entries@[i as int].0@, key@);
                assert forall|k: int| i <= k < self.entries@.len() implies text_less(
                    key@,
                    #[trigger] self.entries@[k].0@,
                ) by {
                    if k > i {
                        lemma_less_transitive(
                            key@,
                            self.entries@[i as int].0@,
                            self.entries@[k].0@,
                        );
                    }
                }
            }
            if has_key(self.entries@, key@) {
                let k = choose|k: int|
                    0 <= k < self.entries@.len() && (#[trigger] self.entries@[k]).0@ == key@;
                lemma_less_irreflexive(key@);
                if k < i {
                    assert(text_less(self.entries@[k].0@, key@));
                }
            }
        }
        (i, false)
    }

    /// The value of a key.
    pub fn get(&self, key: &str) -> (r: Option<&V>)
        ensures
            match r {
                Some(v) => self@.contains_key(key@) && *v == self@[key@],
                None => !self@.contains_key(key@),
            },
    {
        let (i, found) = self.position(key);
        if found {
            Some(&self.entries[i].1)
        } else {
            None
        }
    }

    /// Whether a key has a value.
    pub fn contains(&self, key: &str) -> (r: bool)
        ensures
            r == self@.contains_key(key@),
    {
        self.position(key).1
    }

    /// Gives a key a value.
    pub fn insert(&mut self, key: String, value: V)
        ensures
            final(self)@ == old(self)@.insert(key@, value),
    {
        proof {
            use_type_invariant(&*self);
        }
        let (i, found) = self.position(key.as_str());
        let ghost before = self.entries@;
        let mut entries: Vec<(String, V)> = Vec::new();
        std::mem::swap(&mut entries, &mut self.entries);
        if found {
            let _ = entries.remove(i);
        }
        let ghost middle = entries@;
        let ghost new_key = key@;
        entries.insert(i, (key, value));
        let ghost after = entries@;
        proof {
            assert(after[i as int].0@ == new_key);
            let shift: int = if found {
                0
            } else {
                1
            };
            assert forall|a: int| 0 <= a < after.len() && a != i implies (if a < i {
                after[a] == before[a]
            } else {
                after[a] == before[a - shift]
            }) by {}
            assert forall|a: int, b: int| 0 <= a < b < after.len() implies text_less(
                #[trigger] after[a].0@,
                #[trigger] after[b].0@,
            ) by {
                if a < i {
                    if b < i {
                        assert(text_less(before[a].0@, before[b].0@));
                    } else if b == i {
                        assert(text_less(before[a].0@, new_key));
                    } else {
                        assert(text_less(before[a].0@, before[b - shift].0@));
                    }
                } else if a == i {
                    if found {
                        assert(text_less(before[i as int].0@, before[b].0@));
                    } else {
                        assert(text_less(new_key, before[b - 1].0@));
                    }
                } else {
                    assert(text_less(before[a - shift].0@, before[b - shift].0@));
                }
            }
            assert(keys_ascend(after));
            assert(entries_map(after) =~= entries_map(before).insert(new_key, value)) by {
                assert forall|k: Seq<char>| has_key(after, k) == (has_key(before, k) || k
                    == new_key) by {
                    if has_key(before, k) {
                        let j = choose|j: int|
                            0 <= j < before.len() && (#[trigger] before[j]).0@ == k;
                        if j < i {
                            assert(after[j].0@ == k);
                        } else if found && j == i {
                            assert(after[i as int].0@ == k);
                        } else {
                            assert(after[j + shift].0@ == k);
                        }
                    }
                    if k == new_key {
                        assert(after[i as int].0@ == k);
                    }
                    if has_key(after, k) && k != new_key {
                        let j = choose|j: int|
                            0 <= j < after.len() && (#[trigger] after[j]).0@ == k;
                        if j < i {
                            assert(before[j].0@ == k);
                        } else {
                            assert(before[j - shift].0@ == k);
                        }
                    }
                }
                assert forall|k: Seq<char>| has_key(after, k) implies entries_map(after)[k]
                    == entries_map(before).insert(new_key, value)[k] by {
                    if k == new_key {
                        lemma_entry_in_map(after, i as int);
                    } else {
                        let j = choose|j: int|
                            0 <= j < before.len() && (#[trigger] before[j]).0@ == k;
                        lemma_entry_in_map(before, j);
                        if j < i {
                            lemma_entry_in_map(after, j);
                        } else {
                            lemma_entry_in_map(after, j + shift);
                        }
                    }
                }
            }
        }
        self.entries = entries;
    }

    /// Where a key stands among the entries.
    pub fn find(&self, key: &str) -> (r: Option<usize>)
        ensures
            match r {
                Some(i) => i < self.listed().len() && self.listed()[i as int].0@ == key@
                    && self@.contains_key(key@) && self@[key@] == self.listed()[i as int].1,
                None => !self@.contains_key(key@),
            },
    {
        let (i, found) = self.position(key);
        if found {
            Some(i)
        } else {
            None
        }
    }

    /// Takes an entry out of the map.
    pub fn remove_at(&mut self, i: usize) -> (r: (String, V))
        requires
            i < old(self).listed().len(),
        ensures
            r == old(self).listed()[i as int],
            final(self).listed() == old(self).listed().remove(i as int),
            final(self)@ == old(self)@.remove(old(self).listed()[i as int].0@),
            old(self)@.contains_key(r.0@),
            old(self)@[r.0@] == r.1,
    {
        proof {
            use_type_invariant(&*self);
        }
        let ghost key = self.entries@[i as int].0@;
        let ghost before = self.entries@;
        let mut entries: Vec<(String, V)> = Vec::new();
        std::mem::swap(&mut entries, &mut self.entries);
        let taken = entries.remove(i);
        let ghost after = entries@;
        proof {
            assert forall|a: int| 0 <= a < after.len() implies (if a < i {
                after[a] == before[a]
            } else {
                after[a] == before[a + 1]
            }) by {}
            assert forall|a: int, b: int| 0 <= a < b < after.len() implies text_less(
                #[trigger] after[a].0@,
                #[trigger] after[b].0@,
            ) by {
                let x = if a < i {
                    a
                } else {
                    a + 1
                };
                let y = if b < i {
                    b
                } else {
                    b + 1
                };
                assert(text_less(before[x].0@, before[y].0@));
            }
            assert(keys_ascend(after));
            lemma_less_irreflexive(key);
            assert(entries_map(after) =~= entries_map(before).remove(key)) by {
                assert forall|k: Seq<char>| has_key(after, k) == (has_key(before, k) && k
                    != key) by {
                    if has_key(before, k) && k != key {
                        let j = choose|j: int|
                            0 <= j < before.len() && (#[trigger] before[j]).0@ == k;
                        if j < i {
                            assert(after[j].0@ == k);
                        } else {
                            assert(after[j - 1].0@ == k);
                        }
                    }
                    if has_key(after, k) {
                        let j = choose|j: int|
                            0 <= j < after.len() && (#[trigger] after[j]).0@ == k;
                        if j < i {
                            assert(before[j].0@ == k);
                            assert(text_less(before[j].0@, before[i as int].0@));
                        } else {
                            assert(before[j + 1].0@ == k);
                            assert(text_less(before[i as int].0@, before[j + 1].0@));
                        }
                    }
                }
                assert forall|k: Seq<char>| has_key(after, k) implies entries_map(after)[k]
                    == entries_map(before).remove(key)[k] by {
                    let j = choose|j: int| 0 <= j < after.len() && (#[trigger] after[j]).0@ == k;
                    lemma_entry_in_map(after, j);
                    if j < i {
                        lemma_entry_in_map(before, j);
                    } else {
                        lemma_entry_in_map(before, j + 1);
                    }
                }
            }
        }
        proof {
            lemma_entry_in_map(before, i as int);
        }
        self.entries = entries;
        taken
    }

    /// Gives the key of an entry another value.
    pub fn replace_at(&mut self, i: usize, value: V)
        requires
            i < old(self).listed().len(),
        ensures
            final(self).listed().len() == old(self).listed().len(),
            forall|k: int|
                0 <= k < old(self).listed().len() && k != i ==> #[trigger] final(self).listed()[k]
                    == old(self).listed()[k],
            final(self).listed()[i as int].0@ == old(self).listed()[i as int].0@,
            final(self).listed()[i as int].1 == value,
            final(self)@ == old(self)@.insert(old(self).listed()[i as int].0@, value),
    {
        proof {
            use_type_invariant(&*self);
        }
        let ghost before = self.entries@;
        let mut entries: Vec<(String, V)> = Vec::new();
        std::mem::swap(&mut entries, &mut self.entries);
        let taken = entries.remove(i);
        entries.insert(i, (taken.0, value));
        let ghost after = entries@;
        proof {
            let key = before[i as int].0@;
            assert forall|k: int| 0 <= k < after.len() implies #[trigger] after[k].0@
                == before[k].0@ && (k != i ==> after[k] == before[k]) by {}
            assert(keys_ascend(after)) by {
                assert forall|a: int, b: int| 0 <= a < b < after.len() implies text_less(
                    #[trigger] after[a].0@,
                    #[trigger] after[b].0@,
                ) by {
                    assert(text_less(before[a].0@, before[b].0@));
                }
            }
            assert forall|k: Seq<char>| has_key(after, k) == has_key(before, k) by {
                if has_key(before, k) {
                    let j = choose|j: int| 0 <= j < before.len() && (#[trigger] before[j]).0@ == k;
                    assert(after[j].0@ == k);
                }
                if has_key(after, k) {
                    let j = choose|j: int| 0 <= j < after.len() && (#[trigger] after[j]).0@ == k;
                    assert(before[j].0@ == k);
                }
            }
            lemma_entry_in_map(before, i as int);
            assert forall|k: Seq<char>| has_key(after, k) implies entries_map(after)[k]
                == entries_map(before).insert(key, value)[k] by {
                let j = choose|j: int| 0 <= j < after.len() && (#[trigger] after[j]).0@ == k;
                lemma_entry_in_map(after, j);
                lemma_entry_in_map(before, j);
                if j != i {
                    lemma_less_irreflexive(key);
                    if j < i {
                        assert(text_less(before[j].0@, before[i as int].0@));
                    } else {
                        assert(text_less(before[i as int].0@, before[j].0@));
                    }
                }
            }
            assert(entries_map(after) =~= entries_map(before).insert(key, value));
        }
        self.entries = entries;
    }

    /// Takes the value of a key out of the map.
    pub fn remove(&mut self, key: &str) -> (r: Option<V>)
        ensures
            final(self)@ == old(self)@.remove(key@),
            match r {
                Some(v) => old(self)@.contains_key(key@) && v == old(self)@[key@],
                None => !old(self)@.contains_key(key@),
            },
    {
        match self.find(key) {
            Some(i) => Some(self.remove_at(i).1),
            None => {
                assert(self@.remove(key@) =~= self@);
                None
            },
        }
    }
}

// ---------------------------------------------------------------------------
// sorting

/// Whether numbers ascend.
pub open spec fn ints_ascend(s: Seq<i64>) -> bool {
    forall|i: int, j: int| 0 <= i <= j < s.len() ==> #[trigger] s[i] <= #[trigger] s[j]
}

/// Whether `r` holds the numbers of `s` in ascending order.
pub open spec fn sorts_ints(r: Seq<i64>, s: Seq<i64>) -> bool {
    ints_ascend(r) && r.to_multiset() == s.to_multiset()
}

fn insert_int(v: &mut Vec<i64>, n: i64)
    requires
        ints_ascend(old(v)@),
    ensures
        sorts_ints(final(v)@, old(v)@.push(n)),
{
    broadcast use vstd::seq_lib::group_to_multiset_ensures;

    let mut i: usize = 0;
    while i < v.len() && v[i] <= n
        invariant
            i <= v@.len(),
            v@ == old(v)@,
            forall|k: int| 0 <= k < i ==> #[trigger] v@[k] <= n,
        decreases v@.len() - i,
    {
        i = i + 1;
    }
    v.insert(i, n);
}

/// Sorts numbers in ascending order.
pub fn sort_ints(v: &Vec<i64>) -> (r: Vec<i64>)
    ensures
        sorts_ints(r@, v@),
{
    broadcast use vstd::seq_lib::group_to_multiset_ensures;

    let mut out: Vec<i64> = Vec::new();
    let mut i: usize = 0;
    assert(v@.take(0) =~= Seq::<i64>::empty());
    while i < v.len()
        invariant
            i <= v@.len(),
            sorts_ints(out@, v@.take(i as int)),
        decreases v@.len() - i,
    {
        let ghost before = out@;
        insert_int(&mut out, v[i]);
        proof {
            before.to_multiset_ensures();
            v@.take(i as int).to_multiset_ensures();
            assert(v@.take(i + 1) =~= v@.take(i as int).push(v@[i as int]));
            assert(before.push(v@[i as int]).to_multiset() =~= v@.take(i + 1).to_multiset());
        }
        i = i + 1;
    }
    assert(v@.take(v@.len() as int) =~= v@);
    out
}

/// Whether texts ascend.
pub open spec fn texts_ascend(s: Seq<Seq<char>>) -> bool {
    forall|i: int, j: int|
        0 <= i < j < s.len() ==> !text_less(#[trigger] s[j], #[trigger] s[i])
}

/// Whether `r` holds the texts of `s` in ascending order.
pub open spec fn sorts_texts(r: Seq<Seq<char>>, s: Seq<Seq<char>>) -> bool {
    texts_ascend(r) && r.to_multiset() == s.to_multiset()
}


proof fn lemma_insert_text_view(before: Seq<String>, i: int, s: String)
    requires
        0 <= i <= before.len(),
    ensures
        texts(before.insert(i, s)) == texts(before).insert(i, s@),
{
    assert(texts(before.insert(i, s)) =~= texts(before).insert(i, s@));
}

fn insert_text(v: &mut Vec<String>, text: String)
    requires
        texts_ascend(texts(old(v)@)),
    ensures
        sorts_texts(texts(final(v)@), texts(old(v)@).push(text@)),
{
    broadcast use vstd::seq_lib::group_to_multiset_ensures;

    let ghost before = texts(v@);
    let ghost new_text = text@;
    let mut i: usize = 0;
    while i < v.len() && !less(text.as_str(), v[i].as_str())
        invariant
            i <= v@.len(),
            v@ == old(v)@,
            before == texts(v@),
            forall|k: int| 0 <= k < i ==> !text_less(text@, #[trigger] before[k]),
        decreases v@.len() - i,
    {
        i = i + 1;
    }
    proof {
        lemma_insert_text_view(v@, i as int, text);
    }
    v.insert(i, text);
    proof {
        let after = texts(v@);
        assert(after == before.insert(i as int, new_text));
        before.to_multiset_ensures();
        before.insert_ensures(i as int, new_text);
        assert forall|a: int, b: int| 0 <= a < b < after.len() implies !text_less(
            #[trigger] after[b],
            #[trigger] after[a],
        ) by {
            if b < i {
                assert(after[a] == before[a] && after[b] == before[b]);
            } else if b == i {
                assert(after[a] == before[a]);
            } else if a < i {
                assert(after[a] == before[a] && after[b] == before[b - 1]);
            } else if a == i {
                assert(after[b] == before[b - 1]);
                if text_less(before[b - 1], new_text) {
                    lemma_less_transitive(before[b - 1], new_text, before[i as int]);
                    if b - 1 == i {
                        lemma_less_irreflexive(before[i as int]);
                    } else {
                        assert(!text_less(before[b - 1], before[i as int]));
                    }
                }
            } else {
                assert(after[a] == before[a - 1] && after[b] == before[b - 1]);
            }
        }
    }
}

/// Sorts texts in ascending order.
pub fn sort_texts(v: &Vec<String>) -> (r: Vec<String>)
    ensures
        sorts_texts(texts(r@), texts(v@)),
{
    let ghost all = texts(v@);
    let mut out: Vec<String> = Vec::new();
    let mut i: usize = 0;
    assert(texts(out@) =~= all.take(0));
    while i < v.len()
        invariant
            i <= v@.len(),
            all == texts(v@),
            sorts_texts(texts(out@), all.take(i as int)),
        decreases v@.len() - i,
    {
        let ghost before = texts(out@);
        insert_text(&mut out, v[i].clone());
        proof {
            before.to_multiset_ensures();
            all.take(i as int).to_multiset_ensures();
            assert(all.take(i + 1) =~= all.take(i as int).push(all[i as int]));
            assert(before.push(all[i as int]).to_multiset() =~= all.take(i + 1).to_multiset());
        }
        i = i + 1;
    }
    assert(all.take(all.len() as int) =~= all);
    out
}

/// Texts are ordered by the first character in which they differ, and a text that goes on
/// comes after the one that ends.
pub proof fn law_the_first_difference_orders_texts(
    start: Seq<char>,
    a: char,
    x: Seq<char>,
    b: char,
    y: Seq<char>,
)
    ensures
        a < b ==> text_less(start + seq![a] + x, start + seq![b] + y),
        a > b ==> !text_less(start + seq![a] + x, start + seq![b] + y),
        text_less(start, start + seq![a] + x),
    decreases start.len(),
{
    let one = start + seq![a] + x;
    let other = start + seq![b] + y;
    if start.len() == 0 {
        assert(one[0] == a && other[0] == b);
    } else {
        let rest = start.subrange(1, start.len() as int);
        law_the_first_difference_orders_texts(rest, a, x, b, y);
        assert(one[0] == start[0] && other[0] == start[0]);
        assert(one.subrange(1, one.len() as int) =~= rest + seq![a] + x);
        assert(other.subrange(1, other.len() as int) =~= rest + seq![b] + y);
    }
}

/// A sorted list holds just what the list held, as often, and each number is followed by
/// none that is smaller.
pub proof fn law_sorting_keeps_the_numbers(r: Seq<i64>, s: Seq<i64>, n: i64, i: int, j: int)
    requires
        sorts_ints(r, s),
    ensures
        r.len() == s.len(),
        r.contains(n) <==> s.contains(n),
        0 <= i < j < r.len() ==> r[i] <= r[j],
{
    r.to_multiset_ensures();
    s.to_multiset_ensures();
    assert(r.contains(n) <==> r.to_multiset().count(n) > 0);
    assert(s.contains(n) <==> s.to_multiset().count(n) > 0);
}

/// A sorted list holds just the texts that the list held, as often, and each is followed by
/// none that comes before it.
pub proof fn law_sorting_keeps_the_texts(
    r: Seq<Seq<char>>,
    s: Seq<Seq<char>>,
    text: Seq<char>,
    i: int,
    j: int,
)
    requires
        sorts_texts(r, s),
    ensures
        r.len() == s.len(),
        r.contains(text) <==> s.contains(text),
        0 <= i < j < r.len() ==> r[i] == r[j] || text_less(r[i], r[j]),
{
    r.to_multiset_ensures();
    s.to_multiset_ensures();
    assert(r.contains(text) <==> r.to_multiset().count(text) > 0);
    assert(s.contains(text) <==> s.to_multiset().count(text) > 0);
    if 0 <= i < j < r.len() {
        lemma_less_total(r[i], r[j]);
    }
}

} // verus!
