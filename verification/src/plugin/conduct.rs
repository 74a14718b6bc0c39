//! What holds of plugins over a whole pass: in which order they go, and what they
//! leave on record.
use crate::config::arona::AronaConfigView;
use crate::container::{kept, SlotView};
use crate::plugin::context::ContextView;
use crate::plugin::description::{compatible, MetaView};
use crate::plugin::lifecycle::{
    after_sync, assembled, brought_up, can_rise, lemma_order_in_range, lemma_rise_pass_keeps,
    lemma_rise_untouched, lemma_stop_pass, lemma_stop_untouched, must_stop, rise_pass, risen_ids,
    stop_pass, stopped_ids, sync_changes,
};
use crate::plugin::manager::{
    available, context_for, cycles_marked, effective, eligible, found, keys_of,
    lemma_eligible_ignores_states, lemma_found_ignores_states, need_met, need_on, needs_of,
    order_of, registers, running, same_plugins, AronaPlugin, OptionsView, PluginView, StateView,
};
use crate::plugin::order::law_needs_go_first;
use crate::plugin::registries::{
    is_revoked, law_revoked_plugins_own_nothing, law_revoking_touches_one_plugin, owns_nothing,
    Registries,
};
use crate::plugin::turns::{
    assemble_turn, kept_or_revoked, listeners, listens, rise_trail, rise_turn, start_turn,
    stop_all_trail, stop_called, stop_trail, stop_turn, stopped_at, sync_trail,
};
use crate::runtime::config::plugin_on;
use vstd::prelude::*;

verus! {

// ---------------------------------------------------------------------------
// who goes when

/// Where plugin `i` comes in an order before plugin `j`.
pub open spec fn goes_before(order: Seq<int>, i: int, j: int) -> bool {
    exists|p: int, q: int|
        0 <= p < q < order.len() && #[trigger] order[p] == i && #[trigger] order[q] == j
}

/// The plugins that are turned off, in the order in which they are.
pub open spec fn stop_turns(
    table: Seq<PluginView>,
    config: AronaConfigView,
    order: Seq<int>,
) -> Seq<int>
    decreases order.len(),
{
    if order.len() == 0 {
        Seq::empty()
    } else {
        let head = stop_turns(table, config, order.drop_first());
        if must_stop(stop_pass(table, config, order.drop_first()), config, order[0]) {
            head.push(order[0])
        } else {
            head
        }
    }
}

/// The plugins that come up, in the order in which they do.
pub open spec fn rise_turns(
    table: Seq<PluginView>,
    config: AronaConfigView,
    options: Option<OptionsView>,
    order: Seq<int>,
    answers: Seq<(Result<(), Seq<char>>, Result<(), Seq<char>>)>,
) -> Seq<int>
    decreases order.len(),
{
    if order.len() == 0 {
        Seq::empty()
    } else {
        let head = rise_turns(table, config, options, order.drop_last(), answers.drop_last());
        let before = rise_pass(table, config, options, order.drop_last(), answers.drop_last());
        let i = order.last();
        if can_rise(before, config, i) && brought_up(
            before[i],
            options,
            answers.last(),
        ).state is Active {
            head.push(i)
        } else {
            head
        }
    }
}

/// The ids of plugins.
pub open spec fn ids_at(table: Seq<PluginView>, turns: Seq<int>) -> Seq<Seq<char>> {
    Seq::new(turns.len(), |k: int| table[turns[k]].meta.id)
}

/// The plugins of an order are in the table, and none comes twice.
spec fn proper(table: Seq<PluginView>, order: Seq<int>) -> bool {
    &&& forall|q: int| 0 <= q < order.len() ==> 0 <= #[trigger] order[q] < table.len()
    &&& order.no_duplicates()
}

proof fn lemma_proper_rest(table: Seq<PluginView>, order: Seq<int>)
    requires
        proper(table, order),
        order.len() > 0,
    ensures
        proper(table, order.drop_first()),
        proper(table, order.drop_last()),
{
    let rest = order.drop_first();
    let head = order.drop_last();
    assert forall|q: int| 0 <= q < rest.len() implies 0 <= #[trigger] rest[q] < table.len() by {
        assert(0 <= order[q + 1] < table.len());
    }
    assert forall|q: int| 0 <= q < head.len() implies 0 <= #[trigger] head[q] < table.len() by {
        assert(0 <= order[q] < table.len());
    }
}

proof fn lemma_stop_turns(table: Seq<PluginView>, config: AronaConfigView, order: Seq<int>)
    requires
        proper(table, order),
    ensures
        stopped_ids(table, config, order) == ids_at(table, stop_turns(table, config, order)),
        forall|p: int|
            0 <= p < stop_turns(table, config, order).len() ==> order.contains(
                #[trigger] stop_turns(table, config, order)[p],
            ),
        forall|p: int, q: int|
            0 <= p < q < stop_turns(table, config, order).len() ==> goes_before(
                order,
                #[trigger] stop_turns(table, config, order)[q],
                #[trigger] stop_turns(table, config, order)[p],
            ),
    decreases order.len(),
{
    let turns = stop_turns(table, config, order);
    if order.len() > 0 {
        let rest = order.drop_first();
        let head = stop_turns(table, config, rest);
        lemma_proper_rest(table, order);
        lemma_stop_turns(table, config, rest);
        lemma_stop_pass(table, config, rest, order[0]);
        assert forall|p: int| 0 <= p < turns.len() implies order.contains(#[trigger] turns[p]) by {
            if p < head.len() {
                let k = choose|k: int| 0 <= k < rest.len() && rest[k] == head[p];
                assert(order[k + 1] == turns[p]);
            } else {
                assert(order[0] == turns[p]);
            }
        }
        assert forall|p: int, q: int| 0 <= p < q < turns.len() implies goes_before(
            order,
            #[trigger] turns[q],
            #[trigger] turns[p],
        ) by {
            if q < head.len() {
                assert(goes_before(rest, head[q], head[p]));
                let (a, b) = choose|a: int, b: int|
                    0 <= a < b < rest.len() && #[trigger] rest[a] == head[q] && #[trigger] rest[b]
                        == head[p];
                assert(order[a + 1] == turns[q] && order[b + 1] == turns[p]);
            } else {
                assert(rest.contains(head[p]));
                let k = choose|k: int| 0 <= k < rest.len() && rest[k] == head[p];
                assert(order[0] == turns[q] && order[k + 1] == turns[p]);
            }
        }
        assert(stopped_ids(table, config, order) =~= ids_at(table, turns));
    } else {
        assert(stopped_ids(table, config, order) =~= ids_at(table, turns));
    }
}

proof fn lemma_rise_turns(
    table: Seq<PluginView>,
    config: AronaConfigView,
    options: Option<OptionsView>,
    order: Seq<int>,
    answers: Seq<(Result<(), Seq<char>>, Result<(), Seq<char>>)>,
)
    requires
        proper(table, order),
    ensures
        risen_ids(table, config, options, order, answers) == ids_at(
            table,
            rise_turns(table, config, options, order, answers),
        ),
        forall|p: int|
            0 <= p < rise_turns(table, config, options, order, answers).len() ==> order.contains(
                #[trigger] rise_turns(table, config, options, order, answers)[p],
            ),
        forall|p: int, q: int|
            0 <= p < q < rise_turns(table, config, options, order, answers).len() ==> goes_before(
                order,
                #[trigger] rise_turns(table, config, options, order, answers)[p],
                #[trigger] rise_turns(table, config, options, order, answers)[q],
            ),
    decreases order.len(),
{
    let turns = rise_turns(table, config, options, order, answers);
    if order.len() > 0 {
        let rest = order.drop_last();
        let head = rise_turns(table, config, options, rest, answers.drop_last());
        let last = order.len() - 1;
        lemma_proper_rest(table, order);
        lemma_rise_turns(table, config, options, rest, answers.drop_last());
        lemma_rise_pass_keeps(table, config, options, rest, answers.drop_last());
        assert(0 <= order[last] < table.len());
        assert forall|p: int| 0 <= p < turns.len() implies order.contains(#[trigger] turns[p]) by {
            if p < head.len() {
                let k = choose|k: int| 0 <= k < rest.len() && rest[k] == head[p];
                assert(order[k] == turns[p]);
            } else {
                assert(order[last] == turns[p]);
            }
        }
        assert forall|p: int, q: int| 0 <= p < q < turns.len() implies goes_before(
            order,
            #[trigger] turns[p],
            #[trigger] turns[q],
        ) by {
            if q < head.len() {
                assert(goes_before(rest, head[p], head[q]));
                let (a, b) = choose|a: int, b: int|
                    0 <= a < b < rest.len() && #[trigger] rest[a] == head[p] && #[trigger] rest[b]
                        == head[q];
                assert(order[a] == turns[p] && order[b] == turns[q]);
            } else {
                assert(rest.contains(head[p]));
                let k = choose|k: int| 0 <= k < rest.len() && rest[k] == head[p];
                assert(order[k] == turns[p] && order[last] == turns[q]);
            }
        }
        assert(risen_ids(table, config, options, order, answers) =~= ids_at(table, turns));
    } else {
        assert(risen_ids(table, config, options, order, answers) =~= ids_at(table, turns));
    }
}

/// What a plugin needs comes before it in the order.
proof fn lemma_needs_precede(table: Seq<PluginView>, i: int, j: int)
    requires
        0 <= i < table.len(),
        needs_of(table)[i].contains(j),
        order_of(table).contains(i),
    ensures
        !goes_before(order_of(table), i, j),
        i != j,
{
    let needs = needs_of(table);
    let order = order_of(table);
    law_needs_go_first(needs);
    if goes_before(order, i, j) {
        let (p, q) = choose|p: int, q: int|
            0 <= p < q < order.len() && #[trigger] order[p] == i && #[trigger] order[q] == j;
        let k = choose|k: int| 0 <= k < needs[i].len() && needs[i][k] == j;
        assert(order.take(p).contains(needs[order[p]][k]));
        let r = choose|r: int| 0 <= r < p && order.take(p)[r] == j;
        assert(order[r] == order[q]);
    }
    if i == j {
        let p = choose|p: int| 0 <= p < order.len() && order[p] == i;
        let k = choose|k: int| 0 <= k < needs[i].len() && needs[i][k] == j;
        assert(order.take(p).contains(needs[order[p]][k]));
        let r = choose|r: int| 0 <= r < p && order.take(p)[r] == j;
        assert(order[r] == order[p]);
    }
}

/// Among the plugins that are turned off in a pass, each goes down before what it
/// needs.
pub proof fn law_dependents_go_down_first(
    table: Seq<PluginView>,
    now: Seq<PluginView>,
    config: AronaConfigView,
    p: int,
    q: int,
)
    requires
        same_plugins(now, table),
        0 <= p < stop_turns(now, config, order_of(table)).len(),
        0 <= q < stop_turns(now, config, order_of(table)).len(),
        needs_of(table)[stop_turns(now, config, order_of(table))[p]].contains(
            stop_turns(now, config, order_of(table))[q],
        ),
    ensures
        p < q,
        stopped_ids(now, config, order_of(table)) == ids_at(
            now,
            stop_turns(now, config, order_of(table)),
        ),
{
    let order = order_of(table);
    let turns = stop_turns(now, config, order);
    lemma_order_in_range(table);
    lemma_stop_turns(now, config, order);
    assert(order.contains(turns[p]));
    lemma_needs_precede(table, turns[p], turns[q]);
    if q < p {
        assert(goes_before(order, turns[p], turns[q]));
    }
}

/// Among the plugins that come up in a pass, each comes up after what it needs.
pub proof fn law_dependents_come_up_last(
    table: Seq<PluginView>,
    now: Seq<PluginView>,
    config: AronaConfigView,
    options: Option<OptionsView>,
    answers: Seq<(Result<(), Seq<char>>, Result<(), Seq<char>>)>,
    p: int,
    q: int,
)
    requires
        same_plugins(now, table),
        0 <= p < rise_turns(now, config, options, order_of(table), answers).len(),
        0 <= q < rise_turns(now, config, options, order_of(table), answers).len(),
        needs_of(table)[rise_turns(now, config, options, order_of(table), answers)[p]].contains(
            rise_turns(now, config, options, order_of(table), answers)[q],
        ),
    ensures
        q < p,
        risen_ids(now, config, options, order_of(table), answers) == ids_at(
            now,
            rise_turns(now, config, options, order_of(table), answers),
        ),
{
    let order = order_of(table);
    let turns = rise_turns(now, config, options, order, answers);
    lemma_order_in_range(table);
    lemma_rise_turns(now, config, options, order, answers);
    assert(order.contains(turns[p]));
    lemma_needs_precede(table, turns[p], turns[q]);
    if p < q {
        assert(goes_before(order, turns[p], turns[q]));
    }
}

proof fn lemma_filtered_goes_before(order: Seq<int>, chosen: spec_fn(int) -> bool, p: int, q: int)
    requires
        0 <= p < q < order.filter(chosen).len(),
    ensures
        goes_before(order, order.filter(chosen)[p], order.filter(chosen)[q]),
    decreases order.len(),
{
    reveal(Seq::filter);
    if order.len() > 0 {
        let rest = order.drop_last();
        let head = rest.filter(chosen);
        let turns = order.filter(chosen);
        if q < head.len() {
            lemma_filtered_goes_before(rest, chosen, p, q);
            let (a, b) = choose|a: int, b: int|
                0 <= a < b < rest.len() && #[trigger] rest[a] == head[p] && #[trigger] rest[b]
                    == head[q];
            assert(order[a] == turns[p] && order[b] == turns[q]);
        } else {
            assert(head.contains(head[p]));
            rest.lemma_filter_contains_rev(chosen, head[p]);
            let k = choose|k: int| 0 <= k < rest.len() && rest[k] == head[p];
            assert(order[k] == turns[p] && order[order.len() - 1] == turns[q]);
        }
    }
}

/// Among the plugins that are told that configurations were read again, each is told
/// after what it needs.
pub proof fn law_dependents_are_told_last(
    table: Seq<PluginView>,
    only: Option<Seq<char>>,
    p: int,
    q: int,
)
    requires
        0 <= p < listeners(table, only).len(),
        0 <= q < listeners(table, only).len(),
        needs_of(table)[listeners(table, only)[p]].contains(listeners(table, only)[q]),
    ensures
        q < p,
{
    let order = order_of(table);
    let told = listeners(table, only);
    let chosen = |i: int| listens(table, only, i);
    lemma_order_in_range(table);
    assert(told.contains(told[p]));
    order.lemma_filter_contains_rev(chosen, told[p]);
    lemma_needs_precede(table, told[p], told[q]);
    if p < q {
        lemma_filtered_goes_before(order, chosen, p, q);
    }
}

/// A plugin is told that configurations were read again at most once, and only where
/// it is at work and meant; every such plugin of the order is told.
pub proof fn law_listeners_are_told_once(table: Seq<PluginView>, only: Option<Seq<char>>, i: int)
    ensures
        listeners(table, only).no_duplicates(),
        listeners(table, only).contains(i) <==> order_of(table).contains(i) && listens(
            table,
            only,
            i,
        ),
{
    let order = order_of(table);
    let told = listeners(table, only);
    let chosen = |k: int| listens(table, only, k);
    lemma_order_in_range(table);
    assert forall|p: int, q: int| 0 <= p < told.len() && 0 <= q < told.len() && p != q implies told[p]
        != told[q] by {
        if p < q {
            lemma_filtered_goes_before(order, chosen, p, q);
        } else {
            lemma_filtered_goes_before(order, chosen, q, p);
        }
    }
    if told.contains(i) {
        order.lemma_filter_contains_rev(chosen, i);
        let p = choose|p: int| 0 <= p < told.len() && told[p] == i;
        order.lemma_filter_pred(chosen, p);
        assert(chosen(i));
    }
    if order.contains(i) && listens(table, only, i) {
        let p = choose|p: int| 0 <= p < order.len() && order[p] == i;
        assert(chosen(order[p]));
        order.lemma_filter_contains(chosen, p);
    }
}

// ---------------------------------------------------------------------------
// nothing to do

proof fn lemma_idle_stop<P: AronaPlugin>(
    crew: Seq<P>,
    table: Seq<PluginView>,
    config: AronaConfigView,
    order: Seq<int>,
    trail: Seq<Registries>,
)
    requires
        forall|q: int| 0 <= q < order.len() ==> !must_stop(table, config, #[trigger] order[q]),
        stop_trail(crew, table, config, order, trail),
    ensures
        stop_pass(table, config, order) == table,
        stopped_ids(table, config, order).len() == 0,
        trail.last() == trail[0],
    decreases order.len(),
{
    if order.len() > 0 {
        let rest = order.drop_first();
        assert forall|q: int| 0 <= q < rest.len() implies !must_stop(
            table,
            config,
            #[trigger] rest[q],
        ) by {
            assert(!must_stop(table, config, order[q + 1]));
        }
        assert(!must_stop(table, config, order[0]));
        lemma_idle_stop(crew, table, config, rest, trail.drop_last());
    }
}

proof fn lemma_idle_rise<P: AronaPlugin>(
    crew: Seq<P>,
    table: Seq<PluginView>,
    config: AronaConfigView,
    options: Option<OptionsView>,
    order: Seq<int>,
    answers: Seq<(Result<(), Seq<char>>, Result<(), Seq<char>>)>,
    trail: Seq<Registries>,
)
    requires
        forall|q: int| 0 <= q < order.len() ==> !can_rise(table, config, #[trigger] order[q]),
        rise_trail(crew, table, config, options, order, answers, trail),
    ensures
        rise_pass(table, config, options, order, answers) == table,
        risen_ids(table, config, options, order, answers).len() == 0,
        trail.last() == trail[0],
    decreases order.len(),
{
    if order.len() > 0 {
        let head = order.drop_last();
        assert forall|q: int| 0 <= q < head.len() implies !can_rise(
            table,
            config,
            #[trigger] head[q],
        ) by {
            assert(!can_rise(table, config, order[q]));
        }
        assert(!can_rise(table, config, order[order.len() - 1]));
        lemma_idle_rise(
            crew,
            table,
            config,
            options,
            head,
            answers.drop_last(),
            trail.drop_last(),
        );
    }
}

/// Where no plugin has to go down and none can come up, following the switches calls
/// no plugin: nothing changes, and nothing is reported.
pub proof fn law_nothing_to_change_changes_nothing<P: AronaPlugin>(
    crew: Seq<P>,
    table: Seq<PluginView>,
    config: AronaConfigView,
    options: Option<OptionsView>,
    answers: Seq<(Result<(), Seq<char>>, Result<(), Seq<char>>)>,
    trails: (Seq<Registries>, Seq<Registries>, Seq<Registries>),
)
    requires
        sync_trail(crew, table, config, options, answers, trails),
        forall|q: int|
            0 <= q < order_of(table).len() ==> !must_stop(
                cycles_marked(table),
                config,
                #[trigger] order_of(table)[q],
            ) && !can_rise(cycles_marked(table), config, order_of(table)[q]),
    ensures
        after_sync(table, config, options, answers) == cycles_marked(table),
        sync_changes(table, config, options, answers).len() == 0,
        trails.2.last() == trails.0[0],
{
    let order = order_of(table);
    let marked = cycles_marked(table);
    lemma_idle_stop(crew, marked, config, order, trails.0);
    lemma_idle_rise(crew, marked, config, options, order, answers, trails.1);
    lemma_idle_stop(crew, marked, config, order, trails.2);
}

// ---------------------------------------------------------------------------
// coming up together

/// Whether plugins can be at work together: each is turned on, asks for a contract that
/// the framework offers, and needs only others of them.
pub open spec fn can_work_together(
    table: Seq<PluginView>,
    config: AronaConfigView,
    crowd: Set<int>,
) -> bool {
    forall|i: int| #[trigger]
        crowd.contains(i) ==> {
            &&& 0 <= i < table.len()
            &&& order_of(table).contains(i)
            &&& plugin_on(config, table[i].meta.id)
            &&& compatible(table[i].meta)
            &&& forall|k: int|
                0 <= k < table[i].meta.depends.len() ==> found_among(
                    table,
                    crowd,
                    i,
                    #[trigger] table[i].meta.depends[k],
                )
        }
}

/// Whether what a plugin needs is one of some plugins, and comes before it.
pub open spec fn found_among(
    table: Seq<PluginView>,
    crowd: Set<int>,
    i: int,
    id: Seq<char>,
) -> bool {
    match found(table, id) {
        Some(at) => crowd.contains(at) && needs_of(table)[i].contains(at),
        None => false,
    }
}

/// Whether some plugins are there for those that need them.
spec fn all_available(now: Seq<PluginView>, crowd: Set<int>, order: Seq<int>) -> bool {
    forall|q: int|
        0 <= q < order.len() && crowd.contains(#[trigger] order[q]) ==> available(
            now[order[q]].state,
        )
}

/// A plugin that can be at work with others can be at work once those before it are
/// there.
proof fn lemma_together_effective(
    table: Seq<PluginView>,
    now: Seq<PluginView>,
    config: AronaConfigView,
    crowd: Set<int>,
    order: Seq<int>,
    i: int,
)
    requires
        can_work_together(table, config, crowd),
        same_plugins(now, table),
        crowd.contains(i),
        all_available(now, crowd, order),
        forall|j: int| crowd.contains(j) && #[trigger] needs_of(table)[i].contains(j)
            ==> order.contains(j),
    ensures
        effective(now, config, i),
{
    assert(now[i].meta == table[i].meta);
    assert forall|k: int| 0 <= k < now[i].meta.depends.len() implies need_met(
        now,
        config,
        #[trigger] now[i].meta.depends[k],
    ) by {
        let id = table[i].meta.depends[k];
        assert(found_among(table, crowd, i, id));
        lemma_found_ignores_states(now, table, id);
        let at = found(table, id)->0;
        assert(crowd.contains(at));
        assert(needs_of(table)[i].contains(at));
        assert(order.contains(at));
        let q = choose|q: int| 0 <= q < order.len() && order[q] == at;
        assert(available(now[order[q]].state));
        assert(now[at].meta == table[at].meta);
    }
}

/// What a pass that brings plugins up makes of those that can be at work together.
proof fn lemma_together_rise(
    table: Seq<PluginView>,
    down: Seq<PluginView>,
    config: AronaConfigView,
    options: Option<OptionsView>,
    answers: Seq<(Result<(), Seq<char>>, Result<(), Seq<char>>)>,
    crowd: Set<int>,
    n: int,
)
    requires
        can_work_together(table, config, crowd),
        same_plugins(down, table),
        options is Some,
        0 <= n <= order_of(table).len(),
        answers.len() == n,
        forall|p: int|
            0 <= p < n && crowd.contains(#[trigger] order_of(table)[p]) ==> answers[p].0 is Ok
                && answers[p].1 is Ok,
        forall|i: int| #[trigger] crowd.contains(i) ==> !(down[i].state is Loaded),
    ensures
        ({
            let order = order_of(table).take(n);
            let now = rise_pass(down, config, options, order, answers);
            &&& same_plugins(now, table)
            &&& all_available(now, crowd, order)
            &&& forall|i: int| #[trigger]
                crowd.contains(i) ==> now[i].state == down[i].state || now[i].state is Active
        }),
    decreases n,
{
    lemma_order_in_range(table);
    law_needs_go_first(needs_of(table));
    let full = order_of(table);
    let order = full.take(n);
    assert forall|q: int| 0 <= q < order.len() implies 0 <= #[trigger] order[q] < down.len() by {
        assert(0 <= full[q] < table.len());
    }
    lemma_rise_pass_keeps(down, config, options, order, answers);
    if n > 0 {
        let head = full.take(n - 1);
        let before = answers.drop_last();
        let now = rise_pass(down, config, options, head, before);
        let last = full[n - 1];
        assert(order.drop_last() =~= head);
        assert(order.last() == last);
        assert forall|p: int| 0 <= p < n - 1 && crowd.contains(#[trigger] full[p]) implies before[p].0
            is Ok && before[p].1 is Ok by {
            assert(answers[p] == before[p]);
        }
        lemma_together_rise(table, down, config, options, before, crowd, n - 1);
        assert(!head.contains(last)) by {
            assert forall|q: int| 0 <= q < head.len() implies head[q] != last by {
                assert(full[q] != full[n - 1]);
            }
        }
        assert forall|q: int| 0 <= q < head.len() implies 0 <= #[trigger] head[q] < down.len() by {
            assert(0 <= full[q] < table.len());
        }
        lemma_rise_untouched(down, config, options, head, before, last);
        if crowd.contains(last) {
            assert forall|j: int|
                crowd.contains(j) && #[trigger] needs_of(table)[last].contains(j) implies head.contains(
                j,
            ) by {
                let k = choose|k: int|
                    0 <= k < needs_of(table)[last].len() && needs_of(table)[last][k] == j;
                assert(full.take(n - 1).contains(needs_of(table)[full[n - 1]][k]));
            }
            lemma_together_effective(table, now, config, crowd, head, last);
            assert(answers[n - 1].0 is Ok && answers[n - 1].1 is Ok);
        }
        let after = rise_pass(down, config, options, order, answers);
        assert forall|q: int| 0 <= q < order.len() && crowd.contains(#[trigger] order[q]) implies available(
            after[order[q]].state,
        ) by {
            if q < n - 1 {
                assert(head[q] == order[q]);
                assert(order[q] != last);
            }
        }
    }
}

/// A pass that turns plugins off spares those that are at work together.
proof fn lemma_together_stay(
    table: Seq<PluginView>,
    up: Seq<PluginView>,
    config: AronaConfigView,
    crowd: Set<int>,
    order: Seq<int>,
    i: int,
)
    requires
        can_work_together(table, config, crowd),
        same_plugins(up, table),
        all_available(up, crowd, order_of(table)),
        forall|q: int| 0 <= q < order.len() ==> 0 <= #[trigger] order[q] < table.len(),
        crowd.contains(i),
    ensures
        stop_pass(up, config, order)[i] == up[i],
    decreases order.len(),
{
    if order.len() > 0 {
        let rest = order.drop_first();
        let first = order[0];
        let before = stop_pass(up, config, rest);
        assert forall|q: int| 0 <= q < rest.len() implies 0 <= #[trigger] rest[q] < table.len() by {
            assert(0 <= order[q + 1] < table.len());
        }
        lemma_together_stay(table, up, config, crowd, rest, i);
        lemma_stop_pass(up, config, rest, i);
        if first == i {
            let full = order_of(table);
            assert(all_available(before, crowd, full)) by {
                assert forall|q: int| 0 <= q < full.len() && crowd.contains(#[trigger] full[q]) implies available(
                    before[full[q]].state,
                ) by {
                    lemma_together_stay(table, up, config, crowd, rest, full[q]);
                }
            }
            assert forall|j: int|
                crowd.contains(j) && #[trigger] needs_of(table)[i].contains(j) implies full.contains(
                j,
            ) by {}
            lemma_together_effective(table, before, config, crowd, full, i);
        }
    }
}

/// Plugins that are turned on and can be at work together are at work after the plugins
/// have followed their switches, provided that they answer well: those that were down
/// have come up, after what they need; those that were there are there still or have
/// been started anew.
pub proof fn law_wanted_plugins_come_up_together(
    table: Seq<PluginView>,
    config: AronaConfigView,
    options: Option<OptionsView>,
    answers: Seq<(Result<(), Seq<char>>, Result<(), Seq<char>>)>,
    crowd: Set<int>,
    i: int,
)
    requires
        can_work_together(table, config, crowd),
        options is Some,
        answers.len() == order_of(table).len(),
        forall|p: int|
            0 <= p < answers.len() && crowd.contains(#[trigger] order_of(table)[p])
                ==> answers[p].0 is Ok && answers[p].1 is Ok,
        forall|j: int| #[trigger] crowd.contains(j) ==> !(table[j].state is Loaded),
        crowd.contains(i),
    ensures
        available(after_sync(table, config, options, answers)[i].state),
        table[i].state is Disabled || table[i].state is Failed ==> after_sync(
            table,
            config,
            options,
            answers,
        )[i].state is Active,
{
    lemma_order_in_range(table);
    let order = order_of(table);
    let marked = cycles_marked(table);
    let down = stop_pass(marked, config, order);
    let up = rise_pass(down, config, options, order, answers);
    assert(same_plugins(marked, table));
    lemma_stop_pass(marked, config, order, i);
    assert forall|j: int| #[trigger] crowd.contains(j) implies !(down[j].state is Loaded) && (
    down[j].state == table[j].state || down[j].state is Disabled) by {
        lemma_stop_states(marked, config, order, j);
    }
    assert(order.take(order.len() as int) =~= order);
    lemma_together_rise(table, down, config, options, answers, crowd, order.len() as int);
    let p = choose|p: int| 0 <= p < order.len() && order[p] == i;
    assert(available(up[order[p]].state));
    lemma_together_stay(table, up, config, crowd, order, i);
}

/// A pass that turns plugins off leaves a plugin where it is or turns it off.
proof fn lemma_stop_states(
    table: Seq<PluginView>,
    config: AronaConfigView,
    order: Seq<int>,
    i: int,
)
    requires
        0 <= i < table.len(),
        forall|q: int| 0 <= q < order.len() ==> 0 <= #[trigger] order[q] < table.len(),
    ensures
        stop_pass(table, config, order)[i].state == table[i].state || stop_pass(
            table,
            config,
            order,
        )[i].state is Disabled,
    decreases order.len(),
{
    if order.len() > 0 {
        let rest = order.drop_first();
        assert forall|q: int| 0 <= q < rest.len() implies 0 <= #[trigger] rest[q] < table.len() by {
            assert(0 <= order[q + 1] < table.len());
        }
        lemma_stop_states(table, config, rest, i);
        lemma_stop_pass(table, config, rest, i);
    }
}

// ---------------------------------------------------------------------------
// what plugins at work rest on

/// A pass that brings plugins up changes only those that switches and contracts allow.
proof fn lemma_rise_states(
    table: Seq<PluginView>,
    down: Seq<PluginView>,
    config: AronaConfigView,
    options: Option<OptionsView>,
    order: Seq<int>,
    answers: Seq<(Result<(), Seq<char>>, Result<(), Seq<char>>)>,
    i: int,
)
    requires
        0 <= i < table.len(),
        same_plugins(down, table),
        forall|q: int| 0 <= q < order.len() ==> 0 <= #[trigger] order[q] < table.len(),
    ensures
        rise_pass(down, config, options, order, answers)[i] == down[i] || eligible(table, config, i),
    decreases order.len(),
{
    if order.len() > 0 {
        let head = order.drop_last();
        let now = rise_pass(down, config, options, head, answers.drop_last());
        assert forall|q: int| 0 <= q < head.len() implies 0 <= #[trigger] head[q] < table.len() by {
            assert(0 <= order[q] < table.len());
        }
        assert(0 <= order[order.len() - 1] < table.len());
        lemma_rise_states(table, down, config, options, head, answers.drop_last(), i);
        lemma_rise_pass_keeps(down, config, options, head, answers.drop_last());
        lemma_effective_is_eligible(now, table, config, i);
    }
}

/// A plugin that is spared by a pass that turns plugins off could be at work at its
/// turn.
proof fn lemma_spared_at_its_turn(
    table: Seq<PluginView>,
    config: AronaConfigView,
    order: Seq<int>,
    i: int,
    j: int,
)
    requires
        0 <= i < table.len(),
        0 <= j < table.len(),
        forall|q: int| 0 <= q < order.len() ==> 0 <= #[trigger] order[q] < table.len(),
        order.contains(i),
        running(stop_pass(table, config, order)[i].state),
        exists|k: int|
            0 <= k < table[i].meta.depends.len() && found(
                table,
                #[trigger] table[i].meta.depends[k],
            ) == Some(j),
    ensures
        available(table[j].state),
    decreases order.len(),
{
    if order.len() > 0 {
        let rest = order.drop_first();
        let now = stop_pass(table, config, rest);
        assert forall|q: int| 0 <= q < rest.len() implies 0 <= #[trigger] rest[q] < table.len() by {
            assert(0 <= order[q + 1] < table.len());
        }
        lemma_stop_pass(table, config, rest, i);
        if order[0] == i {
            let k = choose|k: int|
                0 <= k < table[i].meta.depends.len() && found(
                    table,
                    #[trigger] table[i].meta.depends[k],
                ) == Some(j);
            assert(effective(now, config, i));
            assert(need_met(now, config, now[i].meta.depends[k]));
            lemma_found_ignores_states(now, table, table[i].meta.depends[k]);
            lemma_stop_states(table, config, rest, j);
        } else {
            let p = choose|p: int| 0 <= p < order.len() && order[p] == i;
            assert(rest[p - 1] == i);
            lemma_spared_at_its_turn(table, config, rest, i, j);
        }
    }
}

/// Once the plugins have followed their switches, what a plugin at work cannot do
/// without is allowed itself: it is turned on, its contract is offered, and what it
/// cannot do without in turn is there and turned on. Turning a plugin off thus reaches
/// those that need it, and those that need these.
pub proof fn law_turning_off_reaches_two_steps(
    table: Seq<PluginView>,
    config: AronaConfigView,
    options: Option<OptionsView>,
    answers: Seq<(Result<(), Seq<char>>, Result<(), Seq<char>>)>,
    i: int,
    k: int,
    j: int,
)
    requires
        order_of(table).contains(i),
        order_of(table).contains(j),
        running(after_sync(table, config, options, answers)[i].state),
        0 <= k < table[i].meta.depends.len(),
        found(table, table[i].meta.depends[k]) == Some(j),
        !(table[j].state is Installed),
    ensures
        eligible(table, config, j),
{
    lemma_order_in_range(table);
    let order = order_of(table);
    let marked = cycles_marked(table);
    let down = stop_pass(marked, config, order);
    let up = rise_pass(down, config, options, order, answers);
    assert(same_plugins(marked, table));
    lemma_stop_pass(marked, config, order, j);
    lemma_stop_states(marked, config, order, j);
    lemma_rise_pass_keeps(down, config, options, order, answers);
    lemma_rise_states(table, down, config, options, order, answers, j);
    lemma_eligible_ignores_states(marked, table, config, j);
    lemma_found_ignores_states(up, table, table[i].meta.depends[k]);
    assert(up[i].meta == table[i].meta);
    assert(found(up, up[i].meta.depends[k]) == Some(j));
    lemma_spared_at_its_turn(up, config, order, i, j);
}

// ---------------------------------------------------------------------------
// off and on again

/// States do not change in which order plugins go.
proof fn lemma_order_ignores_states(a: Seq<PluginView>, b: Seq<PluginView>)
    requires
        same_plugins(a, b),
    ensures
        needs_of(a) == needs_of(b),
        order_of(a) == order_of(b),
{
    assert(keys_of(a) =~= keys_of(b)) by {
        assert forall|i: int| 0 <= i < a.len() implies keys_of(a)[i] == keys_of(b)[i] by {
            assert(a[i].meta == b[i].meta);
        }
    }
    assert(needs_of(a) =~= needs_of(b)) by {
        assert forall|i: int| 0 <= i < a.len() implies needs_of(a)[i] == needs_of(b)[i] by {
            assert(a[i].meta == b[i].meta);
        }
    }
}

proof fn lemma_together_ignores_states(
    a: Seq<PluginView>,
    b: Seq<PluginView>,
    config: AronaConfigView,
    crowd: Set<int>,
)
    requires
        same_plugins(a, b),
        can_work_together(a, config, crowd),
    ensures
        can_work_together(b, config, crowd),
{
    lemma_order_ignores_states(a, b);
    assert forall|i: int| #[trigger] crowd.contains(i) implies {
        &&& 0 <= i < b.len()
        &&& order_of(b).contains(i)
        &&& plugin_on(config, b[i].meta.id)
        &&& compatible(b[i].meta)
        &&& forall|k: int|
            0 <= k < b[i].meta.depends.len() ==> found_among(
                b,
                crowd,
                i,
                #[trigger] b[i].meta.depends[k],
            )
    } by {
        assert(a[i].meta == b[i].meta);
        assert forall|k: int| 0 <= k < b[i].meta.depends.len() implies found_among(
            b,
            crowd,
            i,
            #[trigger] b[i].meta.depends[k],
        ) by {
            let id = a[i].meta.depends[k];
            assert(found_among(a, crowd, i, id));
            lemma_found_ignores_states(a, b, id);
        }
    }
}

/// A plugin that a pass turns off has its turn in it.
proof fn lemma_stopped_has_turn(
    table: Seq<PluginView>,
    config: AronaConfigView,
    order: Seq<int>,
    i: int,
)
    requires
        0 <= i < table.len(),
        proper(table, order),
        stop_pass(table, config, order)[i] != table[i],
    ensures
        stop_turns(table, config, order).contains(i),
    decreases order.len(),
{
    if order.len() > 0 {
        let rest = order.drop_first();
        let head = stop_turns(table, config, rest);
        let turns = stop_turns(table, config, order);
        lemma_proper_rest(table, order);
        lemma_stop_pass(table, config, rest, i);
        if stop_pass(table, config, rest)[i] != table[i] {
            lemma_stopped_has_turn(table, config, rest, i);
            let k = choose|k: int| 0 <= k < head.len() && head[k] == i;
            assert(turns[k] == i);
        } else {
            assert(order[0] == i);
            assert(turns[head.len() as int] == i);
        }
    }
}

/// A plugin that a pass starts has its turn in it.
proof fn lemma_risen_has_turn(
    table: Seq<PluginView>,
    config: AronaConfigView,
    options: Option<OptionsView>,
    order: Seq<int>,
    answers: Seq<(Result<(), Seq<char>>, Result<(), Seq<char>>)>,
    i: int,
)
    requires
        0 <= i < table.len(),
        proper(table, order),
        !(table[i].state is Active),
        rise_pass(table, config, options, order, answers)[i].state is Active,
    ensures
        rise_turns(table, config, options, order, answers).contains(i),
    decreases order.len(),
{
    if order.len() > 0 {
        let rest = order.drop_last();
        let before = rise_pass(table, config, options, rest, answers.drop_last());
        let head = rise_turns(table, config, options, rest, answers.drop_last());
        let turns = rise_turns(table, config, options, order, answers);
        lemma_proper_rest(table, order);
        lemma_rise_pass_keeps(table, config, options, rest, answers.drop_last());
        assert(0 <= order[order.len() - 1] < table.len());
        if before[i].state is Active {
            lemma_risen_has_turn(table, config, options, rest, answers.drop_last(), i);
            let k = choose|k: int| 0 <= k < head.len() && head[k] == i;
            assert(turns[k] == i);
        } else {
            assert(order.last() == i);
            assert(turns[head.len() as int] == i);
        }
    }
}

/// Following the switches changes states and contexts alone.
proof fn lemma_sync_keeps_plugins(
    table: Seq<PluginView>,
    config: AronaConfigView,
    options: Option<OptionsView>,
    answers: Seq<(Result<(), Seq<char>>, Result<(), Seq<char>>)>,
)
    ensures
        same_plugins(after_sync(table, config, options, answers), table),
{
    lemma_order_in_range(table);
    let order = order_of(table);
    let marked = cycles_marked(table);
    let down = stop_pass(marked, config, order);
    let up = rise_pass(down, config, options, order, answers);
    assert(same_plugins(marked, table));
    if table.len() > 0 {
        lemma_stop_pass(marked, config, order, 0);
        lemma_rise_pass_keeps(down, config, options, order, answers);
        lemma_stop_pass(up, config, order, 0);
    } else {
        assert(order.len() == 0) by {
            if order.len() > 0 {
                assert(0 <= order[0] < table.len());
            }
        }
    }
}

/// A plugin at work that may not be goes down in the first pass, and stays down.
proof fn lemma_forbidden_goes_down(
    table: Seq<PluginView>,
    config: AronaConfigView,
    options: Option<OptionsView>,
    answers: Seq<(Result<(), Seq<char>>, Result<(), Seq<char>>)>,
    i: int,
)
    requires
        order_of(table).contains(i),
        running(table[i].state),
        !eligible(table, config, i),
    ensures
        after_sync(table, config, options, answers)[i].state == StateView::Disabled,
        stop_turns(cycles_marked(table), config, order_of(table)).contains(i),
{
    lemma_order_in_range(table);
    let order = order_of(table);
    let marked = cycles_marked(table);
    let down = stop_pass(marked, config, order);
    let up = rise_pass(down, config, options, order, answers);
    assert(same_plugins(marked, table));
    lemma_stop_pass(marked, config, order, i);
    lemma_eligible_ignores_states(marked, table, config, i);
    lemma_stop_states(marked, config, order, i);
    lemma_stopped_has_turn(marked, config, order, i);
    lemma_rise_states(table, down, config, options, order, answers, i);
    lemma_rise_pass_keeps(down, config, options, order, answers);
    lemma_stop_states(up, config, order, i);
}

proof fn lemma_rise_never_unloads(
    table: Seq<PluginView>,
    config: AronaConfigView,
    options: Option<OptionsView>,
    order: Seq<int>,
    answers: Seq<(Result<(), Seq<char>>, Result<(), Seq<char>>)>,
    i: int,
)
    requires
        0 <= i < table.len(),
        proper(table, order),
        rise_pass(table, config, options, order, answers)[i].state is Loaded,
    ensures
        table[i].state is Loaded,
    decreases order.len(),
{
    if order.len() > 0 {
        let rest = order.drop_last();
        lemma_proper_rest(table, order);
        lemma_rise_pass_keeps(table, config, options, rest, answers.drop_last());
        assert(0 <= order[order.len() - 1] < table.len());
        lemma_rise_never_unloads(table, config, options, rest, answers.drop_last(), i);
    }
}

/// A plugin that was installed never counts as merely registered again.
proof fn lemma_sync_never_unloads(
    table: Seq<PluginView>,
    config: AronaConfigView,
    options: Option<OptionsView>,
    answers: Seq<(Result<(), Seq<char>>, Result<(), Seq<char>>)>,
    i: int,
)
    requires
        0 <= i < table.len(),
        !(table[i].state is Loaded),
    ensures
        !(after_sync(table, config, options, answers)[i].state is Loaded),
{
    lemma_order_in_range(table);
    let order = order_of(table);
    let marked = cycles_marked(table);
    let down = stop_pass(marked, config, order);
    let up = rise_pass(down, config, options, order, answers);
    lemma_stop_pass(marked, config, order, i);
    lemma_stop_states(marked, config, order, i);
    lemma_rise_pass_keeps(down, config, options, order, answers);
    if up[i].state is Loaded {
        lemma_rise_never_unloads(down, config, options, order, answers, i);
    }
    lemma_stop_states(up, config, order, i);
}

/// Whether one text comes before another in a list.
pub open spec fn listed_before(list: Seq<Seq<char>>, first: Seq<char>, later: Seq<char>) -> bool {
    exists|a: int, b: int|
        0 <= a < b < list.len() && #[trigger] list[a] == first && #[trigger] list[b] == later
}

/// Two plugins are at work, and one cannot do without the other. Once the one that is
/// needed is turned off, following the switches turns both off, the dependent one first.
/// Once both are allowed again, and all that they need with them, and these answer well,
/// following the switches has both at work again, the one that is needed first. No
/// restart is needed.
pub proof fn law_off_and_on_again(
    table: Seq<PluginView>,
    off: AronaConfigView,
    on: AronaConfigView,
    options: Option<OptionsView>,
    first: Seq<(Result<(), Seq<char>>, Result<(), Seq<char>>)>,
    second: Seq<(Result<(), Seq<char>>, Result<(), Seq<char>>)>,
    crowd: Set<int>,
    needed: int,
    dependent: int,
    k: int,
)
    requires
        order_of(table).contains(needed),
        order_of(table).contains(dependent),
        running(table[needed].state),
        running(table[dependent].state),
        0 <= k < table[dependent].meta.depends.len(),
        found(table, table[dependent].meta.depends[k]) == Some(needed),
        !plugin_on(off, table[needed].meta.id),
        can_work_together(table, on, crowd),
        crowd.contains(needed),
        crowd.contains(dependent),
        forall|j: int| #[trigger] crowd.contains(j) ==> !(table[j].state is Loaded),
        options is Some,
        second.len() == order_of(table).len(),
        forall|p: int|
            0 <= p < second.len() && crowd.contains(#[trigger] order_of(table)[p])
                ==> second[p].0 is Ok && second[p].1 is Ok,
    ensures
        ({
            let down = after_sync(table, off, options, first);
            let again = after_sync(down, on, options, second);
            &&& down[needed].state == StateView::Disabled
            &&& down[dependent].state == StateView::Disabled
            &&& listed_before(
                sync_changes(table, off, options, first),
                table[dependent].meta.id,
                table[needed].meta.id,
            )
            &&& again[needed].state is Active
            &&& again[dependent].state is Active
            &&& listed_before(
                sync_changes(down, on, options, second),
                table[needed].meta.id,
                table[dependent].meta.id,
            )
        }),
{
    let order = order_of(table);
    let down = after_sync(table, off, options, first);
    assert(found_among(table, crowd, dependent, table[dependent].meta.depends[k]));
    lemma_order_in_range(table);
    lemma_needs_precede(table, dependent, needed);
    // off
    assert(!need_on(table, off, table[dependent].meta.depends[k]));
    lemma_forbidden_goes_down(table, off, options, first, needed);
    lemma_forbidden_goes_down(table, off, options, first, dependent);
    let marked = cycles_marked(table);
    assert(same_plugins(marked, table));
    let stops = stop_turns(marked, off, order);
    let a = choose|a: int| 0 <= a < stops.len() && stops[a] == dependent;
    let b = choose|b: int| 0 <= b < stops.len() && stops[b] == needed;
    law_dependents_go_down_first(table, marked, off, a, b);
    let changes = sync_changes(table, off, options, first);
    assert(marked[needed].meta == table[needed].meta);
    assert(marked[dependent].meta == table[dependent].meta);
    assert(changes[a] == ids_at(marked, stops)[a]);
    assert(changes[b] == ids_at(marked, stops)[b]);
    // on again
    lemma_sync_keeps_plugins(table, off, options, first);
    lemma_order_ignores_states(down, table);
    lemma_together_ignores_states(table, down, on, crowd);
    assert forall|j: int| #[trigger] crowd.contains(j) implies !(down[j].state is Loaded) by {
        lemma_sync_never_unloads(table, off, options, first, j);
    }
    assert forall|p: int| 0 <= p < second.len() && crowd.contains(#[trigger] order_of(down)[p])
        implies second[p].0 is Ok && second[p].1 is Ok by {}
    law_wanted_plugins_come_up_together(down, on, options, second, crowd, needed);
    law_wanted_plugins_come_up_together(down, on, options, second, crowd, dependent);
    let again = cycles_marked(down);
    let low = stop_pass(again, on, order);
    let up = rise_pass(low, on, options, order, second);
    assert(same_plugins(again, down));
    lemma_stop_pass(again, on, order, needed);
    lemma_rise_pass_keeps(low, on, options, order, second);
    assert(same_plugins(low, table)) by {
        assert forall|i: int| 0 <= i < low.len() implies (#[trigger] low[i]).meta == table[i].meta
            && low[i].loader == table[i].loader by {
            assert(again[i].meta == down[i].meta);
            assert(down[i].meta == table[i].meta);
        }
    }
    lemma_stop_states(again, on, order, needed);
    lemma_stop_states(again, on, order, dependent);
    lemma_stop_states(up, on, order, needed);
    lemma_stop_states(up, on, order, dependent);
    lemma_risen_has_turn(low, on, options, order, second, needed);
    lemma_risen_has_turn(low, on, options, order, second, dependent);
    let rises = rise_turns(low, on, options, order, second);
    let c = choose|c: int| 0 <= c < rises.len() && rises[c] == dependent;
    let d = choose|d: int| 0 <= d < rises.len() && rises[d] == needed;
    law_dependents_come_up_last(table, low, on, options, second, c, d);
    let stopped = stopped_ids(again, on, order).len() as int;
    let changed = sync_changes(down, on, options, second);
    assert(changed[stopped + d] == ids_at(low, rises)[d]);
    assert(changed[stopped + c] == ids_at(low, rises)[c]);
    assert(low[needed].meta == table[needed].meta);
    assert(low[dependent].meta == table[dependent].meta);
}

// ---------------------------------------------------------------------------
// what is left on record

/// Whether a plugin, however it is called, gives no other plugin anything on record.
pub open spec fn keeps_to_itself<P: AronaPlugin>(instance: P, plugin: Seq<char>) -> bool {
    &&& forall|
        context: ContextView,
        before: Registries,
        after: Registries,
        answer: Result<(), Seq<char>>,
        other: Seq<char>,
    |
        #![trigger instance.may_configure(context, before, after, answer), owns_nothing(before, other)]
        instance.may_configure(context, before, after, answer) && other != plugin && owns_nothing(
            before,
            other,
        ) ==> owns_nothing(after, other)
    &&& forall|
        context: ContextView,
        before: Registries,
        after: Registries,
        answer: Result<(), Seq<char>>,
        other: Seq<char>,
    |
        #![trigger instance.may_start(context, before, after, answer), owns_nothing(before, other)]
        instance.may_start(context, before, after, answer) && other != plugin && owns_nothing(
            before,
            other,
        ) ==> owns_nothing(after, other)
    &&& forall|
        context: ContextView,
        before: Registries,
        after: Registries,
        other: Seq<char>,
    |
        #![trigger instance.may_stop(context, before, after), owns_nothing(before, other)]
        instance.may_stop(context, before, after) && other != plugin && owns_nothing(
            before,
            other,
        ) ==> owns_nothing(after, other)
}

/// What is kept was there before.
proof fn lemma_kept_from<V>(slots: Seq<SlotView<V>>, plugin: Seq<char>, i: int)
    requires
        0 <= i < kept(slots, plugin).len(),
    ensures
        exists|k: int| 0 <= k < slots.len() && #[trigger] slots[k] == kept(slots, plugin)[i],
    decreases slots.len(),
{
    if slots.len() > 0 {
        let head = slots.drop_last();
        if i < kept(head, plugin).len() {
            lemma_kept_from(head, plugin, i);
            let k = choose|k: int| 0 <= k < head.len() && #[trigger] head[k] == kept(head, plugin)[i];
            assert(slots[k] == kept(slots, plugin)[i]);
        } else {
            assert(slots[slots.len() - 1] == kept(slots, plugin)[i]);
        }
    }
}

/// Taking back from one plugin gives nobody anything.
proof fn lemma_revoking_gives_nothing(
    before: Registries,
    after: Registries,
    plugin: Seq<char>,
    other: Seq<char>,
)
    requires
        is_revoked(before, after, plugin),
        owns_nothing(before, other) || other == plugin,
    ensures
        owns_nothing(after, other),
{
    if other == plugin {
        law_revoked_plugins_own_nothing(before, after, plugin);
    } else {
        law_revoking_touches_one_plugin(before, after, plugin, other);
        let slots = after.container.slots();
        assert forall|i: int| 0 <= i < slots.len() implies (#[trigger] slots[i]).owner != other by {
            lemma_kept_from(before.container.slots(), plugin, i);
        }
    }
}

proof fn lemma_stop_turn_gives_nothing<P: AronaPlugin>(
    instance: P,
    plugin: PluginView,
    before: Registries,
    after: Registries,
    other: Seq<char>,
)
    requires
        stop_turn(instance, plugin, before, after),
        keeps_to_itself(instance, plugin.meta.id),
        owns_nothing(before, other) || other == plugin.meta.id,
    ensures
        owns_nothing(after, other),
{
    let ended = choose|ended: Registries|
        stop_called(instance, plugin, before, ended) && #[trigger] is_revoked(
            ended,
            after,
            plugin.meta.id,
        );
    lemma_revoking_gives_nothing(ended, after, plugin.meta.id, other);
}

proof fn lemma_rise_turn_gives_nothing<P: AronaPlugin>(
    instance: P,
    plugin: PluginView,
    options: Option<OptionsView>,
    answers: (Result<(), Seq<char>>, Result<(), Seq<char>>),
    before: Registries,
    after: Registries,
    other: Seq<char>,
)
    requires
        rise_turn(instance, plugin, options, answers, before, after),
        keeps_to_itself(instance, plugin.meta.id),
        owns_nothing(before, other),
        other != plugin.meta.id,
    ensures
        owns_nothing(after, other),
{
    if options is Some {
        let context = context_for(plugin.meta.id, options->0);
        let ready = assembled(plugin, context, answers.0);
        let made = choose|made: Registries| #[trigger]
            assemble_turn(instance, plugin, context, answers.0, before, made) && (
            match answers.0 {
                Err(_) => after == made,
                Ok(_) => start_turn(instance, ready, answers.1, made, after),
            });
        let (cleared, own) = choose|cleared: Registries, own: Registries|
            is_revoked(before, cleared, plugin.meta.id) && #[trigger] instance.may_configure(
                context,
                cleared,
                own,
                answers.0,
            ) && kept_or_revoked(answers.0, own, made, plugin.meta.id);
        lemma_revoking_gives_nothing(before, cleared, plugin.meta.id, other);
        assert(owns_nothing(own, other));
        if answers.0 is Err {
            lemma_revoking_gives_nothing(own, made, plugin.meta.id, other);
        } else {
            let started = choose|started: Registries| #[trigger]
                instance.may_start(ready.context->0, made, started, answers.1) && kept_or_revoked(
                    answers.1,
                    started,
                    after,
                    plugin.meta.id,
                );
            assert(owns_nothing(started, other));
            if answers.1 is Err {
                lemma_revoking_gives_nothing(started, after, plugin.meta.id, other);
            }
        }
    }
}

/// Whether the plugins of an order keep to themselves.
pub open spec fn all_keep_to_themselves<P: AronaPlugin>(
    crew: Seq<P>,
    table: Seq<PluginView>,
    order: Seq<int>,
) -> bool {
    forall|q: int|
        0 <= q < order.len() ==> keeps_to_itself(
            #[trigger] crew[order[q]],
            table[order[q]].meta.id,
        )
}

/// Once all plugins were turned off, none of them has anything on record, provided
/// that none gives another one anything.
pub proof fn law_stopping_all_leaves_nothing_on_record<P: AronaPlugin>(
    crew: Seq<P>,
    table: Seq<PluginView>,
    order: Seq<int>,
    trail: Seq<Registries>,
    k: int,
)
    requires
        stop_all_trail(crew, table, order, trail),
        all_keep_to_themselves(crew, table, order),
        0 <= k < order.len(),
    ensures
        owns_nothing(trail.last(), table[order[k]].meta.id),
{
    lemma_stopped_so_far(crew, table, order, trail, k, 0);
}

proof fn lemma_stopped_so_far<P: AronaPlugin>(
    crew: Seq<P>,
    table: Seq<PluginView>,
    order: Seq<int>,
    trail: Seq<Registries>,
    k: int,
    j: int,
)
    requires
        stop_all_trail(crew, table, order, trail),
        all_keep_to_themselves(crew, table, order),
        0 <= j <= k < order.len(),
    ensures
        owns_nothing(trail[order.len() - j], table[order[k]].meta.id),
    decreases k - j,
{
    let id = table[order[k]].meta.id;
    assert(stopped_at(crew, table, order, trail, j));
    assert(keeps_to_itself(crew[order[j]], table[order[j]].meta.id));
    if j < k {
        lemma_stopped_so_far(crew, table, order, trail, k, j + 1);
    }
    lemma_stop_turn_gives_nothing(
        crew[order[j]],
        table[order[j]],
        trail[order.len() - 1 - j],
        trail[order.len() - j],
        id,
    );
}

/// Whether all ids of a table differ.
pub open spec fn distinct_ids(table: Seq<PluginView>) -> bool {
    forall|i: int, j: int|
        0 <= i < table.len() && 0 <= j < table.len() && i != j ==> (#[trigger] table[i]).meta.id != (
        #[trigger] table[j]).meta.id
}

/// No two plugins ever have the same id: registering keeps the ids apart.
pub proof fn law_registering_keeps_ids_apart(
    before: Seq<PluginView>,
    after: Seq<PluginView>,
    meta: MetaView,
    loader: Seq<char>,
    accepted: bool,
)
    requires
        registers(before, after, meta, loader, accepted),
        distinct_ids(before),
    ensures
        distinct_ids(after),
{
    if accepted {
        assert forall|i: int, j: int|
            0 <= i < after.len() && 0 <= j < after.len() && i != j implies (
        #[trigger] after[i]).meta.id != (#[trigger] after[j]).meta.id by {
            if i < before.len() && j < before.len() {
                assert(before[i].meta.id != before[j].meta.id);
            } else if i < before.len() {
                assert(before[i].meta.id != meta.id);
            } else {
                assert(before[j].meta.id != meta.id);
            }
        }
    }
}

proof fn lemma_stop_trail_gives_nothing<P: AronaPlugin>(
    crew: Seq<P>,
    table: Seq<PluginView>,
    config: AronaConfigView,
    order: Seq<int>,
    trail: Seq<Registries>,
    id: Seq<char>,
)
    requires
        proper(table, order),
        stop_trail(crew, table, config, order, trail),
        all_keep_to_themselves(crew, table, order),
        owns_nothing(trail[0], id),
    ensures
        owns_nothing(trail.last(), id),
    decreases order.len(),
{
    if order.len() > 0 {
        let rest = order.drop_first();
        let now = stop_pass(table, config, rest);
        lemma_proper_rest(table, order);
        assert(all_keep_to_themselves(crew, table, rest)) by {
            assert forall|q: int| 0 <= q < rest.len() implies keeps_to_itself(
                #[trigger] crew[rest[q]],
                table[rest[q]].meta.id,
            ) by {
                assert(keeps_to_itself(crew[order[q + 1]], table[order[q + 1]].meta.id));
            }
        }
        lemma_stop_trail_gives_nothing(crew, table, config, rest, trail.drop_last(), id);
        lemma_stop_pass(table, config, rest, order[0]);
        assert(keeps_to_itself(crew[order[0]], table[order[0]].meta.id));
        if must_stop(now, config, order[0]) {
            lemma_stop_turn_gives_nothing(
                crew[order[0]],
                now[order[0]],
                trail[order.len() - 1],
                trail.last(),
                id,
            );
        }
    }
}

/// A plugin that has to go down whenever its turn comes has nothing on record at the
/// end of the pass.
proof fn lemma_stop_trail_clears<P: AronaPlugin>(
    crew: Seq<P>,
    table: Seq<PluginView>,
    config: AronaConfigView,
    order: Seq<int>,
    trail: Seq<Registries>,
    i: int,
)
    requires
        proper(table, order),
        stop_trail(crew, table, config, order, trail),
        all_keep_to_themselves(crew, table, order),
        order.contains(i),
        running(table[i].state),
        !eligible(table, config, i),
    ensures
        owns_nothing(trail.last(), table[i].meta.id),
    decreases order.len(),
{
    if order.len() > 0 {
        let rest = order.drop_first();
        let first = order[0];
        let now = stop_pass(table, config, rest);
        lemma_proper_rest(table, order);
        assert(all_keep_to_themselves(crew, table, rest)) by {
            assert forall|q: int| 0 <= q < rest.len() implies keeps_to_itself(
                #[trigger] crew[rest[q]],
                table[rest[q]].meta.id,
            ) by {
                assert(keeps_to_itself(crew[order[q + 1]], table[order[q + 1]].meta.id));
            }
        }
        lemma_stop_pass(table, config, rest, first);
        assert(keeps_to_itself(crew[first], table[first].meta.id));
        if first == i {
            assert(!rest.contains(i)) by {
                assert forall|q: int| 0 <= q < rest.len() implies rest[q] != i by {
                    assert(order[q + 1] != order[0]);
                }
            }
            lemma_stop_untouched(table, config, rest, i);
            lemma_effective_is_eligible(now, table, config, i);
            lemma_stop_turn_gives_nothing(
                crew[i],
                now[i],
                trail[order.len() - 1],
                trail.last(),
                table[i].meta.id,
            );
        } else {
            let p = choose|p: int| 0 <= p < order.len() && order[p] == i;
            assert(rest[p - 1] == i);
            lemma_stop_trail_clears(crew, table, config, rest, trail.drop_last(), i);
            if must_stop(now, config, first) {
                lemma_stop_turn_gives_nothing(
                    crew[first],
                    now[first],
                    trail[order.len() - 1],
                    trail.last(),
                    table[i].meta.id,
                );
            }
        }
    }
}

/// A plugin can be at work only where switches and contracts allow it.
proof fn lemma_effective_is_eligible(
    now: Seq<PluginView>,
    table: Seq<PluginView>,
    config: AronaConfigView,
    i: int,
)
    requires
        same_plugins(now, table),
        0 <= i < table.len(),
    ensures
        effective(now, config, i) ==> eligible(table, config, i),
{
    lemma_eligible_ignores_states(now, table, config, i);
    if effective(now, config, i) {
        assert forall|k: int| 0 <= k < now[i].meta.depends.len() implies need_on(
            now,
            config,
            #[trigger] now[i].meta.depends[k],
        ) by {
            assert(need_met(now, config, now[i].meta.depends[k]));
        }
    }
}

proof fn lemma_rise_trail_gives_nothing<P: AronaPlugin>(
    crew: Seq<P>,
    table: Seq<PluginView>,
    config: AronaConfigView,
    options: Option<OptionsView>,
    order: Seq<int>,
    answers: Seq<(Result<(), Seq<char>>, Result<(), Seq<char>>)>,
    trail: Seq<Registries>,
    i: int,
)
    requires
        proper(table, order),
        distinct_ids(table),
        rise_trail(crew, table, config, options, order, answers, trail),
        all_keep_to_themselves(crew, table, order),
        0 <= i < table.len(),
        !eligible(table, config, i),
        owns_nothing(trail[0], table[i].meta.id),
    ensures
        owns_nothing(trail.last(), table[i].meta.id),
    decreases order.len(),
{
    if order.len() > 0 {
        let head = order.drop_last();
        let last = order[order.len() - 1];
        let now = rise_pass(table, config, options, head, answers.drop_last());
        lemma_proper_rest(table, order);
        assert(all_keep_to_themselves(crew, table, head)) by {
            assert forall|q: int| 0 <= q < head.len() implies keeps_to_itself(
                #[trigger] crew[head[q]],
                table[head[q]].meta.id,
            ) by {
                assert(keeps_to_itself(crew[order[q]], table[order[q]].meta.id));
            }
        }
        lemma_rise_trail_gives_nothing(
            crew,
            table,
            config,
            options,
            head,
            answers.drop_last(),
            trail.drop_last(),
            i,
        );
        lemma_rise_pass_keeps(table, config, options, head, answers.drop_last());
        assert(keeps_to_itself(crew[last], table[last].meta.id));
        lemma_effective_is_eligible(now, table, config, i);
        if can_rise(now, config, last) {
            assert(table[last].meta.id != table[i].meta.id);
            lemma_rise_turn_gives_nothing(
                crew[last],
                now[last],
                options,
                answers.last(),
                trail[order.len() - 1],
                trail.last(),
                table[i].meta.id,
            );
        }
    }
}

/// A plugin at work that its switch, its contract or the switch of what it cannot do
/// without forbids has nothing on record once the plugins have followed their
/// switches, provided that no plugin gives another one anything.
pub proof fn law_plugins_turned_off_leave_nothing_on_record<P: AronaPlugin>(
    crew: Seq<P>,
    table: Seq<PluginView>,
    config: AronaConfigView,
    options: Option<OptionsView>,
    answers: Seq<(Result<(), Seq<char>>, Result<(), Seq<char>>)>,
    trails: (Seq<Registries>, Seq<Registries>, Seq<Registries>),
    i: int,
)
    requires
        sync_trail(crew, table, config, options, answers, trails),
        all_keep_to_themselves(crew, table, order_of(table)),
        distinct_ids(table),
        order_of(table).contains(i),
        running(table[i].state),
        !eligible(table, config, i),
    ensures
        owns_nothing(trails.2.last(), table[i].meta.id),
        !running(after_sync(table, config, options, answers)[i].state),
{
    lemma_order_in_range(table);
    let order = order_of(table);
    let id = table[i].meta.id;
    let marked = cycles_marked(table);
    let down = stop_pass(marked, config, order);
    let up = rise_pass(down, config, options, order, answers);
    assert(same_plugins(marked, table));
    lemma_stop_pass(marked, config, order, i);
    lemma_rise_pass_keeps(down, config, options, order, answers);
    lemma_stop_pass(up, config, order, i);
    lemma_eligible_ignores_states(marked, table, config, i);
    lemma_eligible_ignores_states(down, table, config, i);
    lemma_eligible_ignores_states(up, table, config, i);
    lemma_same_keepers(crew, table, marked, order);
    lemma_same_keepers(crew, table, down, order);
    lemma_same_keepers(crew, table, up, order);
    assert(distinct_ids(down)) by {
        assert forall|a: int, b: int| 0 <= a < down.len() && 0 <= b < down.len() && a != b implies (
        #[trigger] down[a]).meta.id != (#[trigger] down[b]).meta.id by {
            assert(marked[a].meta == table[a].meta && marked[b].meta == table[b].meta);
            assert(table[a].meta.id != table[b].meta.id);
        }
    }
    lemma_stop_trail_clears(crew, marked, config, order, trails.0, i);
    lemma_rise_trail_gives_nothing(crew, down, config, options, order, answers, trails.1, i);
    lemma_stop_trail_gives_nothing(crew, up, config, order, trails.2, id);
}

proof fn lemma_same_keepers<P: AronaPlugin>(
    crew: Seq<P>,
    table: Seq<PluginView>,
    now: Seq<PluginView>,
    order: Seq<int>,
)
    requires
        same_plugins(now, table),
        all_keep_to_themselves(crew, table, order),
        forall|q: int| 0 <= q < order.len() ==> 0 <= #[trigger] order[q] < table.len(),
    ensures
        all_keep_to_themselves(crew, now, order),
{
    assert forall|q: int| 0 <= q < order.len() implies keeps_to_itself(
        #[trigger] crew[order[q]],
        now[order[q]].meta.id,
    ) by {
        assert(keeps_to_itself(crew[order[q]], table[order[q]].meta.id));
        assert(now[order[q]].meta == table[order[q]].meta);
    }
}

} // verus!
