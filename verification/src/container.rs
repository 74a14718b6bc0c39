//! What plugins offer each other. A service is known by the number of its kind.
use crate::collections::{
    lemma_less_irreflexive, lemma_less_transitive, lemma_less_total, less, text_less,
};
use crate::json::option_text;
use crate::runtime::config::{plugin_on, Gating};
use crate::text::{owned, same};
use vstd::prelude::*;

verus! {

/// A service, as it is listed.
#[derive(Debug, PartialEq)]
pub struct ServiceInfo {
    pub plugin: String,
    pub name: String,
}

/// A service that a plugin offers.
#[derive(Debug)]
pub struct Slot<V> {
    pub kind: u64,
    pub owner: String,
    pub name: String,
    pub value: V,
}

/// A service that a plugin offers.
#[verifier::ext_equal]
pub struct SlotView<V> {
    pub kind: u64,
    pub owner: Seq<char>,
    pub name: Seq<char>,
    pub value: V,
}

/// The view of a service.
pub open spec fn slot_view<V>(slot: Slot<V>) -> SlotView<V> {
    SlotView { kind: slot.kind, owner: slot.owner@, name: slot.name@, value: slot.value }
}

/// The views of some services.
pub open spec fn slot_views<V>(slots: Seq<Slot<V>>) -> Seq<SlotView<V>> {
    Seq::new(slots.len(), |i: int| slot_view(slots[i]))
}

/// Whether no kind occurs twice.
pub open spec fn kinds_differ<V>(slots: Seq<SlotView<V>>) -> bool {
    forall|i: int, j: int|
        0 <= i < j < slots.len() ==> (#[trigger] slots[i]).kind != (#[trigger] slots[j]).kind
}

/// Where the service of a kind stands.
pub open spec fn slot_of<V>(slots: Seq<SlotView<V>>, kind: u64) -> Option<int>
    decreases slots.len(),
{
    if slots.len() == 0 {
        None
    } else {
        match slot_of(slots.drop_last(), kind) {
            Some(at) => Some(at),
            None => if slots.last().kind == kind {
                Some(slots.len() - 1)
            } else {
                None
            },
        }
    }
}

/// The services after one more is offered: it takes the place of the one of its kind.
pub open spec fn declared<V>(slots: Seq<SlotView<V>>, slot: SlotView<V>) -> Seq<SlotView<V>> {
    match slot_of(slots, slot.kind) {
        Some(at) => slots.remove(at).push(slot),
        None => slots.push(slot),
    }
}

/// The services that other plugins offer.
pub open spec fn kept<V>(slots: Seq<SlotView<V>>, plugin: Seq<char>) -> Seq<SlotView<V>>
    decreases slots.len(),
{
    if slots.len() == 0 {
        Seq::empty()
    } else if slots.last().owner == plugin {
        kept(slots.drop_last(), plugin)
    } else {
        kept(slots.drop_last(), plugin).push(slots.last())
    }
}

/// The position of a kind holds that kind, and no earlier one does.
pub proof fn lemma_slot_of<V>(slots: Seq<SlotView<V>>, kind: u64)
    ensures
        match slot_of(slots, kind) {
            Some(at) => 0 <= at < slots.len() && slots[at].kind == kind && forall|k: int|
                0 <= k < at ==> (#[trigger] slots[k]).kind != kind,
            None => forall|k: int| 0 <= k < slots.len() ==> (#[trigger] slots[k]).kind != kind,
        },
    decreases slots.len(),
{
    if slots.len() > 0 {
        let head = slots.drop_last();
        lemma_slot_of(head, kind);
        assert forall|k: int| 0 <= k < head.len() implies (#[trigger] slots[k]).kind
            == head[k].kind by {}
    }
}

proof fn lemma_declared_differ<V>(slots: Seq<SlotView<V>>, slot: SlotView<V>)
    requires
        kinds_differ(slots),
    ensures
        kinds_differ(declared(slots, slot)),
{
    lemma_slot_of(slots, slot.kind);
    let after = declared(slots, slot);
    assert forall|i: int, j: int| 0 <= i < j < after.len() implies (#[trigger] after[i]).kind != (
    #[trigger] after[j]).kind by {
        match slot_of(slots, slot.kind) {
            Some(at) => {
                let x = if i < at {
                    i
                } else {
                    i + 1
                };
                let y = if j < at {
                    j
                } else {
                    j + 1
                };
                assert(after[i] == slots[x]);
                if j < after.len() - 1 {
                    assert(after[j] == slots[y]);
                } else {
                    if x < at {
                        assert(slots[x].kind != slots[at].kind);
                    } else {
                        assert(slots[at].kind != slots[x].kind);
                    }
                }
            },
            None => {
                assert(after[i] == slots[i]);
                if j < slots.len() {
                    assert(after[j] == slots[j]);
                }
            },
        }
    }
}

proof fn lemma_kept_from<V>(slots: Seq<SlotView<V>>, plugin: Seq<char>, i: int)
    requires
        0 <= i < kept(slots, plugin).len(),
    ensures
        kept(slots, plugin)[i].owner != plugin,
        exists|k: int| 0 <= k < slots.len() && slots[k] == kept(slots, plugin)[i],
    decreases slots.len(),
{
    let head = kept(slots.drop_last(), plugin);
    if i < head.len() {
        lemma_kept_from(slots.drop_last(), plugin, i);
        let k = choose|k: int| 0 <= k < slots.len() - 1 && slots.drop_last()[k] == head[i];
        assert(slots[k] == kept(slots, plugin)[i]);
    } else {
        assert(slots[slots.len() - 1] == kept(slots, plugin)[i]);
    }
}

proof fn lemma_kept_differ<V>(slots: Seq<SlotView<V>>, plugin: Seq<char>)
    requires
        kinds_differ(slots),
    ensures
        kinds_differ(kept(slots, plugin)),
        kept(slots, plugin).len() <= slots.len(),
    decreases slots.len(),
{
    if slots.len() > 0 {
        let head = slots.drop_last();
        assert(kinds_differ(head)) by {
            assert forall|i: int, j: int| 0 <= i < j < head.len() implies (#[trigger] head[i]).kind
                != (#[trigger] head[j]).kind by {
                assert(slots[i].kind != slots[j].kind);
            }
        }
        lemma_kept_differ(head, plugin);
        let after = kept(slots, plugin);
        assert forall|i: int, j: int| 0 <= i < j < after.len() implies (#[trigger] after[i]).kind
            != (#[trigger] after[j]).kind by {
            let before = kept(head, plugin);
            assert(after[i] == before[i]);
            if j < before.len() {
                assert(after[j] == before[j]);
            } else {
                lemma_kept_from(head, plugin, i);
                let k = choose|k: int| 0 <= k < head.len() && head[k] == before[i];
                assert(slots[k].kind != slots[slots.len() - 1].kind);
            }
        }
    }
}

/// The name and the owner of a service.
pub open spec fn info_of<V>(slot: SlotView<V>) -> (Seq<char>, Seq<char>) {
    (slot.owner, slot.name)
}

/// The view of a listed service.
pub open spec fn info_view(info: ServiceInfo) -> (Seq<char>, Seq<char>) {
    (info.plugin@, info.name@)
}

/// The views of some listed services.
pub open spec fn info_views(infos: Seq<ServiceInfo>) -> Seq<(Seq<char>, Seq<char>)> {
    Seq::new(infos.len(), |i: int| info_view(infos[i]))
}

/// A list in the order of names with one more item, behind those of the same name.
pub open spec fn placed(
    list: Seq<(Seq<char>, Seq<char>)>,
    item: (Seq<char>, Seq<char>),
) -> Seq<(Seq<char>, Seq<char>)>
    decreases list.len(),
{
    if list.len() == 0 || !text_less(item.1, list.last().1) {
        list.push(item)
    } else {
        placed(list.drop_last(), item).push(list.last())
    }
}

/// The services in the order of their names.
pub open spec fn listing<V>(slots: Seq<SlotView<V>>) -> Seq<(Seq<char>, Seq<char>)>
    decreases slots.len(),
{
    if slots.len() == 0 {
        Seq::empty()
    } else {
        placed(listing(slots.drop_last()), info_of(slots.last()))
    }
}

proof fn lemma_placed(
    list: Seq<(Seq<char>, Seq<char>)>,
    item: (Seq<char>, Seq<char>),
    at: int,
)
    requires
        0 <= at <= list.len(),
        at == 0 || !text_less(item.1, list[at - 1].1),
        forall|k: int| at <= k < list.len() ==> text_less(item.1, (#[trigger] list[k]).1),
    ensures
        placed(list, item) == list.insert(at, item),
    decreases list.len(),
{
    if at == list.len() {
        assert(list.push(item) =~= list.insert(at, item));
    } else {
        let head = list.drop_last();
        assert(text_less(item.1, list[list.len() - 1].1));
        assert forall|k: int| at <= k < head.len() implies text_less(
            item.1,
            (#[trigger] head[k]).1,
        ) by {
            assert(text_less(item.1, list[k].1));
        }
        lemma_placed(head, item, at);
        assert(head.insert(at, item).push(list.last()) =~= list.insert(at, item));
    }
}

fn place(list: &mut Vec<ServiceInfo>, info: ServiceInfo)
    ensures
        info_views(final(list)@) == placed(info_views(old(list)@), info_view(info)),
{
    let ghost before = info_views(list@);
    let mut at: usize = list.len();
    while at > 0 && less(info.name.as_str(), list[at - 1].name.as_str())
        invariant
            at <= list@.len(),
            list@ == old(list)@,
            before == info_views(list@),
            forall|k: int| at <= k < before.len() ==> text_less(info.name@, (#[trigger] before[k]).1),
        decreases at,
    {
        at = at - 1;
    }
    proof {
        lemma_placed(before, info_view(info), at as int);
    }
    let ghost item = info;
    list.insert(at, info);
    assert(info_views(list@) =~= before.insert(at as int, info_view(item)));
}

/// What plugins offer each other, one service of each kind.
#[derive(Debug)]
pub struct ServiceContainer<V> {
    items: Vec<Slot<V>>,
}

impl<V> ServiceContainer<V> {
    #[verifier::type_invariant]
    spec fn well_formed(self) -> bool {
        kinds_differ(slot_views(self.items@))
    }

    /// The services in the order in which they were offered.
    pub closed spec fn slots(&self) -> Seq<SlotView<V>> {
        slot_views(self.items@)
    }

    /// Nothing is offered.
    pub fn new() -> (r: ServiceContainer<V>)
        ensures
            r.slots() == Seq::<SlotView<V>>::empty(),
            kinds_differ(r.slots()),
    {
        let r = ServiceContainer { items: Vec::new() };
        assert(r.slots() =~= Seq::<SlotView<V>>::empty());
        r
    }

    fn position(&self, kind: u64) -> (r: Option<usize>)
        ensures
            match r {
                Some(at) => slot_of(self.slots(), kind) == Some(at as int),
                None => slot_of(self.slots(), kind) is None,
            },
    {
        let ghost all = self.slots();
        let mut i: usize = 0;
        while i < self.items.len()
            invariant
                i <= self.items@.len(),
                all == slot_views(self.items@),
                slot_of(all.take(i as int), kind) is None,
            decreases self.items@.len() - i,
        {
            assert(all.take(i + 1).drop_last() =~= all.take(i as int));
            if self.items[i].kind == kind {
                proof {
                    lemma_slot_of(all, kind);
                    lemma_slot_of(all.take(i as int), kind);
                    assert forall|k: int| 0 <= k < i implies (#[trigger] all[k]).kind != kind by {
                        assert(all.take(i as int)[k].kind != kind);
                    }
                    assert(all[i as int].kind == kind);
                }
                return Some(i);
            }
            i = i + 1;
        }
        assert(all.take(all.len() as int) =~= all);
        None
    }

    /// Offers a service; it takes the place of the one of its kind, whose owner is
    /// told.
    pub fn declare(&mut self, plugin: &str, kind: u64, name: &str, service: V) -> (r: Option<String>)
        ensures
            final(self).slots() == declared(
                old(self).slots(),
                SlotView { kind, owner: plugin@, name: name@, value: service },
            ),
            kinds_differ(final(self).slots()),
            option_text(r) == match slot_of(old(self).slots(), kind) {
                Some(at) => Some(old(self).slots()[at].owner),
                None => None,
            },
    {
        proof {
            use_type_invariant(&*self);
            lemma_slot_of(self.slots(), kind);
        }
        let ghost before = self.slots();
        let found = self.position(kind);
        let mut items: Vec<Slot<V>> = Vec::new();
        std::mem::swap(&mut items, &mut self.items);
        let previous = match found {
            Some(at) => {
                let slot = items.remove(at);
                assert(slot_views(items@) =~= before.remove(at as int));
                Some(slot.owner)
            },
            None => None,
        };
        let ghost middle = slot_views(items@);
        let slot = Slot { kind, owner: owned(plugin), name: owned(name), value: service };
        items.push(slot);
        proof {
            assert(slot_views(items@) =~= middle.push(slot_view(slot)));
            lemma_declared_differ(before, slot_view(slot));
        }
        self.items = items;
        previous
    }

    /// The service of a kind, as long as its owner is on.
    pub fn instance(&self, kind: u64, gating: &Gating) -> (r: Option<&V>)
        ensures
            match slot_of(self.slots(), kind) {
                Some(at) => if plugin_on(gating.config@, self.slots()[at].owner) {
                    r is Some && *r->0 == self.slots()[at].value
                } else {
                    r is None
                },
                None => r is None,
            },
    {
        proof {
            lemma_slot_of(self.slots(), kind);
        }
        match self.position(kind) {
            Some(at) => if gating.plugin_enabled(self.items[at].owner.as_str()) {
                Some(&self.items[at].value)
            } else {
                None
            },
            None => None,
        }
    }

    /// The plugin that offers a kind.
    pub fn provider_of(&self, kind: u64) -> (r: Option<String>)
        ensures
            option_text(r) == match slot_of(self.slots(), kind) {
                Some(at) => Some(self.slots()[at].owner),
                None => None,
            },
    {
        proof {
            lemma_slot_of(self.slots(), kind);
        }
        match self.position(kind) {
            Some(at) => Some(self.items[at].owner.clone()),
            None => None,
        }
    }

    /// Withdraws all services of a plugin and tells how many they were.
    pub fn revoke_plugin(&mut self, plugin: &str) -> (r: usize)
        ensures
            final(self).slots() == kept(old(self).slots(), plugin@),
            kinds_differ(final(self).slots()),
            r == old(self).slots().len() - final(self).slots().len(),
            r == infos_of(listing(old(self).slots()), plugin@).len(),
            listing(final(self).slots()) == infos_without(listing(old(self).slots()), plugin@),
    {
        proof {
            use_type_invariant(&*self);
            lemma_kept_differ(self.slots(), plugin@);
            law_withdrawing_takes_a_plugin_off_the_list(self.slots(), plugin@);
        }
        let ghost all = self.slots();
        let before: usize = self.items.len();
        let mut items: Vec<Slot<V>> = Vec::new();
        std::mem::swap(&mut items, &mut self.items);
        let ghost given = items@;
        let mut left: Vec<Slot<V>> = Vec::new();
        let mut i: usize = 0;
        assert(slot_views(left@) =~= kept(all.take(0), plugin@));
        for slot in it: items
            invariant
                it.seq() == given,
                i == it.index(),
                all == slot_views(given),
                slot_views(left@) == kept(all.take(i as int), plugin@),
                i <= given.len(),
                given.len() <= usize::MAX,
        {
            assert(all.take(i + 1).drop_last() =~= all.take(i as int));
            assert(all.take(i + 1).last() == slot_view(slot));
            let ghost kept_before = left@;
            if !same(slot.owner.as_str(), plugin) {
                left.push(slot);
                assert(slot_views(left@) =~= slot_views(kept_before).push(slot_view(slot)));
            }
            i = i + 1;
        }
        assert(all.take(all.len() as int) =~= all);
        let after: usize = left.len();
        self.items = left;
        before - after
    }

    /// The services in the order of their names.
    pub fn list(&self) -> (r: Vec<ServiceInfo>)
        ensures
            info_views(r@) == listing(self.slots()),
    {
        let ghost all = self.slots();
        let mut out: Vec<ServiceInfo> = Vec::new();
        let mut i: usize = 0;
        assert(info_views(out@) =~= listing(all.take(0)));
        while i < self.items.len()
            invariant
                i <= self.items@.len(),
                all == slot_views(self.items@),
                info_views(out@) == listing(all.take(i as int)),
            decreases self.items@.len() - i,
        {
            assert(all.take(i + 1).drop_last() =~= all.take(i as int));
            place(
                &mut out,
                ServiceInfo {
                    plugin: self.items[i].owner.clone(),
                    name: self.items[i].name.clone(),
                },
            );
            i = i + 1;
        }
        assert(all.take(all.len() as int) =~= all);
        out
    }
}

/// A service that was just offered is the one that is found.
pub proof fn law_the_latest_offer_is_found<V>(slots: Seq<SlotView<V>>, slot: SlotView<V>)
    requires
        kinds_differ(slots),
    ensures
        slot_of(declared(slots, slot), slot.kind) == Some(declared(slots, slot).len() - 1),
        declared(slots, slot).last() == slot,
{
    lemma_declared_differ(slots, slot);
    let after = declared(slots, slot);
    lemma_slot_of(after, slot.kind);
    let last = after.len() - 1;
    assert(after[last] == slot);
    match slot_of(after, slot.kind) {
        Some(at) => {
            if at < last {
                assert(after[at].kind != after[last].kind);
            }
        },
        None => {
            assert(after[last].kind != slot.kind);
        },
    }
}

/// After the services of a plugin are withdrawn, none of its services is left, and
/// the services of other plugins are.
pub proof fn law_withdrawing_takes_all_of_one_plugin<V>(
    slots: Seq<SlotView<V>>,
    plugin: Seq<char>,
)
    ensures
        forall|i: int|
            0 <= i < kept(slots, plugin).len() ==> (#[trigger] kept(slots, plugin)[i]).owner
                != plugin,
        forall|k: int|
            0 <= k < slots.len() && (#[trigger] slots[k]).owner != plugin ==> kept(
                slots,
                plugin,
            ).contains(slots[k]),
    decreases slots.len(),
{
    assert forall|i: int| 0 <= i < kept(slots, plugin).len() implies (#[trigger] kept(
        slots,
        plugin,
    )[i]).owner != plugin by {
        lemma_kept_from(slots, plugin, i);
    }
    if slots.len() > 0 {
        let head = slots.drop_last();
        law_withdrawing_takes_all_of_one_plugin(head, plugin);
        let before = kept(head, plugin);
        let after = kept(slots, plugin);
        assert forall|k: int|
            0 <= k < slots.len() && (#[trigger] slots[k]).owner != plugin implies after.contains(
            slots[k],
        ) by {
            if k < head.len() {
                assert(head[k] == slots[k]);
                assert(before.contains(head[k]));
                let j = choose|j: int| 0 <= j < before.len() && before[j] == head[k];
                assert(after[j] == before[j]);
            } else {
                assert(after[after.len() - 1] == slots[k]);
            }
        }
    }
}

/// The listed services of a plugin.
pub open spec fn infos_of(
    list: Seq<(Seq<char>, Seq<char>)>,
    plugin: Seq<char>,
) -> Seq<(Seq<char>, Seq<char>)> {
    list.filter(|info: (Seq<char>, Seq<char>)| info.0 == plugin)
}

/// The listed services of other plugins.
pub open spec fn infos_without(
    list: Seq<(Seq<char>, Seq<char>)>,
    plugin: Seq<char>,
) -> Seq<(Seq<char>, Seq<char>)> {
    list.filter(|info: (Seq<char>, Seq<char>)| info.0 != plugin)
}

proof fn lemma_infos_add_up(list: Seq<(Seq<char>, Seq<char>)>, plugin: Seq<char>)
    ensures
        infos_of(list, plugin).len() + infos_without(list, plugin).len() == list.len(),
    decreases list.len(),
{
    reveal(Seq::filter);
    if list.len() > 0 {
        lemma_infos_add_up(list.drop_last(), plugin);
    }
}

/// The last of those left of a list was in the list.
proof fn lemma_left_last(list: Seq<(Seq<char>, Seq<char>)>, plugin: Seq<char>)
    requires
        infos_without(list, plugin).len() > 0,
    ensures
        list.contains(infos_without(list, plugin).last()),
    decreases list.len(),
{
    reveal(Seq::filter);
    if list.len() > 0 {
        let head = list.drop_last();
        if list.last().0 != plugin {
            assert(list[list.len() - 1] == infos_without(list, plugin).last());
        } else {
            lemma_left_last(head, plugin);
            let last = infos_without(list, plugin).last();
            let k = choose|k: int| 0 <= k < head.len() && head[k] == last;
            assert(list[k] == last);
        }
    }
}

proof fn lemma_placed_without(
    list: Seq<(Seq<char>, Seq<char>)>,
    item: (Seq<char>, Seq<char>),
    plugin: Seq<char>,
)
    requires
        names_ascend(list),
    ensures
        infos_without(placed(list, item), plugin) == if item.0 == plugin {
            infos_without(list, plugin)
        } else {
            placed(infos_without(list, plugin), item)
        },
    decreases list.len(),
{
    reveal(Seq::filter);
    let left = infos_without(list, plugin);
    if list.len() == 0 || !text_less(item.1, list.last().1) {
        assert(list.push(item).drop_last() =~= list);
        if left.len() > 0 {
            lemma_left_last(list, plugin);
            let k = choose|k: int| 0 <= k < list.len() && list[k] == left.last();
            let end = list.len() - 1;
            if text_less(item.1, left.last().1) {
                if k < end {
                    assert(!text_less(list[end].1, list[k].1));
                    lemma_less_total(list[k].1, list[end].1);
                    if text_less(list[k].1, list[end].1) {
                        lemma_less_transitive(item.1, list[k].1, list[end].1);
                    }
                }
            }
        }
    } else {
        let head = list.drop_last();
        assert(names_ascend(head)) by {
            assert forall|i: int, j: int| 0 <= i < j < head.len() implies !text_less(
                (#[trigger] head[j]).1,
                (#[trigger] head[i]).1,
            ) by {
                assert(!text_less(list[j].1, list[i].1));
            }
        }
        lemma_placed_without(head, item, plugin);
        let inner = placed(head, item);
        assert(inner.push(list.last()).drop_last() =~= inner);
        if list.last().0 != plugin {
            let rest = infos_without(head, plugin);
            assert(left =~= rest.push(list.last()));
            assert(left.drop_last() =~= rest);
        }
    }
}

proof fn lemma_listing_len<V>(slots: Seq<SlotView<V>>)
    ensures
        listing(slots).len() == slots.len(),
    decreases slots.len(),
{
    if slots.len() > 0 {
        let head = slots.drop_last();
        lemma_listing_len(head);
        law_list_is_in_order(head);
        lemma_placed_ascends(listing(head), info_of(slots.last()));
    }
}

/// After the services of a plugin are withdrawn, the list is the one before without
/// the services of that plugin; as many are withdrawn as it listed of them. Withdrawing
/// once more withdraws nothing.
pub proof fn law_withdrawing_takes_a_plugin_off_the_list<V>(
    slots: Seq<SlotView<V>>,
    plugin: Seq<char>,
)
    ensures
        listing(kept(slots, plugin)) == infos_without(listing(slots), plugin),
        slots.len() - kept(slots, plugin).len() == infos_of(listing(slots), plugin).len(),
        kept(kept(slots, plugin), plugin) == kept(slots, plugin),
    decreases slots.len(),
{
    if slots.len() > 0 {
        let head = slots.drop_last();
        law_withdrawing_takes_a_plugin_off_the_list(head, plugin);
        law_list_is_in_order(head);
        lemma_placed_without(listing(head), info_of(slots.last()), plugin);
        if slots.last().owner != plugin {
            let left = kept(head, plugin);
            assert(left.push(slots.last()).drop_last() =~= left);
        }
    } else {
        reveal(Seq::filter);
        assert(listing(kept(slots, plugin)) =~= infos_without(listing(slots), plugin));
    }
    lemma_listing_len(slots);
    lemma_listing_len(kept(slots, plugin));
    lemma_infos_add_up(listing(slots), plugin);
}

/// The list is in the order of names.
pub proof fn law_list_is_in_order<V>(slots: Seq<SlotView<V>>)
    ensures
        names_ascend(listing(slots)),
    decreases slots.len(),
{
    if slots.len() > 0 {
        law_list_is_in_order(slots.drop_last());
        lemma_placed_ascends(listing(slots.drop_last()), info_of(slots.last()));
    }
}

/// Whether a list is in the order of names.
pub open spec fn names_ascend(list: Seq<(Seq<char>, Seq<char>)>) -> bool {
    forall|i: int, j: int|
        0 <= i < j < list.len() ==> !text_less((#[trigger] list[j]).1, (#[trigger] list[i]).1)
}

proof fn lemma_placed_ascends(list: Seq<(Seq<char>, Seq<char>)>, item: (Seq<char>, Seq<char>))
    requires
        names_ascend(list),
    ensures
        names_ascend(placed(list, item)),
        placed(list, item).len() == list.len() + 1,
        forall|i: int|
            0 <= i < placed(list, item).len() ==> #[trigger] placed(list, item)[i] == item
                || list.contains(placed(list, item)[i]),
    decreases list.len(),
{
    let after = placed(list, item);
    if list.len() == 0 || !text_less(item.1, list.last().1) {
        assert forall|i: int| 0 <= i < after.len() implies #[trigger] after[i] == item
            || list.contains(after[i]) by {
            if i < list.len() {
                assert(after[i] == list[i]);
            }
        }
        assert forall|i: int, j: int| 0 <= i < j < after.len() implies !text_less(
            (#[trigger] after[j]).1,
            (#[trigger] after[i]).1,
        ) by {
            assert(after[i] == list[i]);
            if j < list.len() {
                assert(after[j] == list[j]);
            } else if text_less(item.1, list[i].1) && i < list.len() - 1 {
                let last = list.len() - 1;
                assert(!text_less(list[last].1, list[i].1));
                lemma_less_total(list[i].1, list[last].1);
                if text_less(list[i].1, list[last].1) {
                    lemma_less_transitive(item.1, list[i].1, list[last].1);
                }
            }
        }
    } else {
        let head = list.drop_last();
        assert(names_ascend(head)) by {
            assert forall|i: int, j: int| 0 <= i < j < head.len() implies !text_less(
                (#[trigger] head[j]).1,
                (#[trigger] head[i]).1,
            ) by {
                assert(!text_less(list[j].1, list[i].1));
            }
        }
        lemma_placed_ascends(head, item);
        let before = placed(head, item);
        assert forall|i: int| 0 <= i < after.len() implies #[trigger] after[i] == item
            || list.contains(after[i]) by {
            if i < before.len() {
                assert(after[i] == before[i]);
                if before[i] != item {
                    let k = choose|k: int| 0 <= k < head.len() && head[k] == before[i];
                    assert(list[k] == after[i]);
                }
            } else {
                assert(list[list.len() - 1] == after[i]);
            }
        }
        assert forall|i: int, j: int| 0 <= i < j < after.len() implies !text_less(
            (#[trigger] after[j]).1,
            (#[trigger] after[i]).1,
        ) by {
            assert(after[i] == before[i]);
            if j < before.len() {
                assert(after[j] == before[j]);
            } else {
                let last = list.len() - 1;
                if before[i] == item {
                    if text_less(list[last].1, item.1) {
                        lemma_less_transitive(item.1, list[last].1, item.1);
                        lemma_less_irreflexive(item.1);
                    }
                } else {
                    let k = choose|k: int| 0 <= k < head.len() && head[k] == before[i];
                    assert(!text_less(list[last].1, list[k].1));
                }
            }
        }
    }
}

} // verus!
