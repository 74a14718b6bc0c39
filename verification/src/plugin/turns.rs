//! What calling plugins does to the records, turn by turn. A trail lists the records
//! before the first turn and after each one.
use crate::config::arona::AronaConfigView;
use crate::plugin::context::ContextView;
use crate::plugin::description::compatible;
use crate::plugin::lifecycle::{
    after_configure, after_start, assembled, can_rise, must_stop, rise_pass, stop_pass,
};
use crate::plugin::manager::{
    context_for, cycles_marked, effective, order_of, running, AronaPlugin, OptionsView, PluginView,
};
use crate::plugin::registries::{
    is_revoked, law_revoked_plugins_own_nothing, owns_nothing, Registries,
};
use crate::text::same_ignoring_case;
use vstd::prelude::*;

verus! {

// ---------------------------------------------------------------------------
// one turn

/// A plugin is called to be installed, unless it asks for another contract.
pub open spec fn install_turn<P: AronaPlugin>(
    instance: P,
    plugin: PluginView,
    answer: Result<(), Seq<char>>,
    before: Registries,
    after: Registries,
) -> bool {
    if compatible(plugin.meta) {
        instance.may_install(plugin.meta.id, before, after, answer)
    } else {
        after == before
    }
}

/// What a plugin had on record is taken back, and it is called to be assembled. If it
/// fails, everything is taken back again.
pub open spec fn assemble_turn<P: AronaPlugin>(
    instance: P,
    plugin: PluginView,
    context: ContextView,
    answer: Result<(), Seq<char>>,
    before: Registries,
    after: Registries,
) -> bool {
    exists|cleared: Registries, made: Registries|
        is_revoked(before, cleared, plugin.meta.id) && #[trigger] instance.may_configure(
            context,
            cleared,
            made,
            answer,
        ) && kept_or_revoked(answer, made, after, plugin.meta.id)
}

/// The records stay, unless the plugin failed: then what it has is taken back.
pub open spec fn kept_or_revoked(
    answer: Result<(), Seq<char>>,
    made: Registries,
    after: Registries,
    plugin: Seq<char>,
) -> bool {
    match answer {
        Ok(_) => after == made,
        Err(_) => is_revoked(made, after, plugin),
    }
}

/// A plugin that was assembled is called to be started. If it fails, everything is
/// taken back.
pub open spec fn start_turn<P: AronaPlugin>(
    instance: P,
    plugin: PluginView,
    answer: Result<(), Seq<char>>,
    before: Registries,
    after: Registries,
) -> bool {
    match plugin.context {
        None => after == before,
        Some(context) => exists|made: Registries| #[trigger]
            instance.may_start(context, before, made, answer) && kept_or_revoked(
                answer,
                made,
                after,
                plugin.meta.id,
            ),
    }
}

/// A plugin is assembled and, if that went well, started. Before the configuration is
/// there nothing happens.
pub open spec fn rise_turn<P: AronaPlugin>(
    instance: P,
    plugin: PluginView,
    options: Option<OptionsView>,
    answers: (Result<(), Seq<char>>, Result<(), Seq<char>>),
    before: Registries,
    after: Registries,
) -> bool {
    match options {
        None => after == before,
        Some(options) => {
            let context = context_for(plugin.meta.id, options);
            exists|made: Registries| #[trigger]
                assemble_turn(instance, plugin, context, answers.0, before, made) && (
                match answers.0 {
                    Err(_) => after == made,
                    Ok(_) => start_turn(
                        instance,
                        assembled(plugin, context, answers.0),
                        answers.1,
                        made,
                        after,
                    ),
                })
        },
    }
}

/// A plugin that is at work is called to end its work, and whatever it has on record
/// is taken back.
pub open spec fn stop_turn<P: AronaPlugin>(
    instance: P,
    plugin: PluginView,
    before: Registries,
    after: Registries,
) -> bool {
    exists|ended: Registries|
        stop_called(instance, plugin, before, ended) && #[trigger] is_revoked(
            ended,
            after,
            plugin.meta.id,
        )
}

/// A plugin that is at work is called to end its work; no other is called.
pub open spec fn stop_called<P: AronaPlugin>(
    instance: P,
    plugin: PluginView,
    before: Registries,
    after: Registries,
) -> bool {
    match plugin.context {
        Some(context) if running(plugin.state) => instance.may_stop(context, before, after),
        _ => after == before,
    }
}

/// A plugin is told that its configuration was read again.
pub open spec fn reload_turn<P: AronaPlugin>(
    instance: P,
    plugin: PluginView,
    before: Registries,
    after: Registries,
) -> bool {
    match plugin.context {
        Some(context) => instance.may_reload(context, before, after),
        None => false,
    }
}

// ---------------------------------------------------------------------------
// all turns

/// Whether the plugins of an order had their turn to be installed.
pub open spec fn install_trail<P: AronaPlugin>(
    crew: Seq<P>,
    table: Seq<PluginView>,
    order: Seq<int>,
    answers: Seq<Result<(), Seq<char>>>,
    trail: Seq<Registries>,
) -> bool
    decreases order.len(),
{
    &&& answers.len() == order.len()
    &&& trail.len() == order.len() + 1
    &&& order.len() > 0 ==> {
        let i = order.last();
        &&& install_trail(crew, table, order.drop_last(), answers.drop_last(), trail.drop_last())
        &&& install_turn(crew[i], table[i], answers.last(), trail[order.len() - 1], trail.last())
    }
}

/// Whether the plugins of an order had their turn to be assembled: those that are
/// installed and can be at work are called, no other.
pub open spec fn configure_trail<P: AronaPlugin>(
    crew: Seq<P>,
    table: Seq<PluginView>,
    config: AronaConfigView,
    options: OptionsView,
    order: Seq<int>,
    answers: Seq<Result<(), Seq<char>>>,
    trail: Seq<Registries>,
) -> bool
    decreases order.len(),
{
    &&& answers.len() == order.len()
    &&& trail.len() == order.len() + 1
    &&& order.len() > 0 ==> {
        let i = order.last();
        let head = order.drop_last();
        let now = after_configure(table, config, options, head, answers.drop_last());
        &&& configure_trail(
            crew,
            table,
            config,
            options,
            head,
            answers.drop_last(),
            trail.drop_last(),
        )
        &&& if now[i].state is Installed && effective(now, config, i) {
            assemble_turn(
                crew[i],
                now[i],
                context_for(now[i].meta.id, options),
                answers.last(),
                trail[order.len() - 1],
                trail.last(),
            )
        } else {
            trail.last() == trail[order.len() - 1]
        }
    }
}

/// Whether the plugins of an order had their turn to be started: those that are
/// assembled are called, no other.
pub open spec fn start_trail<P: AronaPlugin>(
    crew: Seq<P>,
    table: Seq<PluginView>,
    order: Seq<int>,
    answers: Seq<Result<(), Seq<char>>>,
    trail: Seq<Registries>,
) -> bool
    decreases order.len(),
{
    &&& answers.len() == order.len()
    &&& trail.len() == order.len() + 1
    &&& order.len() > 0 ==> {
        let i = order.last();
        let head = order.drop_last();
        let now = after_start(table, head, answers.drop_last());
        &&& start_trail(crew, table, head, answers.drop_last(), trail.drop_last())
        &&& if now[i].state is Ready {
            start_turn(crew[i], now[i], answers.last(), trail[order.len() - 1], trail.last())
        } else {
            trail.last() == trail[order.len() - 1]
        }
    }
}

/// Whether the plugins of an order had their turn to be brought up: those that are
/// down but can be at work are called, no other.
pub open spec fn rise_trail<P: AronaPlugin>(
    crew: Seq<P>,
    table: Seq<PluginView>,
    config: AronaConfigView,
    options: Option<OptionsView>,
    order: Seq<int>,
    answers: Seq<(Result<(), Seq<char>>, Result<(), Seq<char>>)>,
    trail: Seq<Registries>,
) -> bool
    decreases order.len(),
{
    &&& answers.len() == order.len()
    &&& trail.len() == order.len() + 1
    &&& order.len() > 0 ==> {
        let i = order.last();
        let head = order.drop_last();
        let now = rise_pass(table, config, options, head, answers.drop_last());
        &&& rise_trail(
            crew,
            table,
            config,
            options,
            head,
            answers.drop_last(),
            trail.drop_last(),
        )
        &&& if can_rise(now, config, i) {
            rise_turn(
                crew[i],
                now[i],
                options,
                answers.last(),
                trail[order.len() - 1],
                trail.last(),
            )
        } else {
            trail.last() == trail[order.len() - 1]
        }
    }
}

/// Whether the plugins of an order had their turn to be turned off, the last first:
/// those that are at work but cannot be are called, no other.
pub open spec fn stop_trail<P: AronaPlugin>(
    crew: Seq<P>,
    table: Seq<PluginView>,
    config: AronaConfigView,
    order: Seq<int>,
    trail: Seq<Registries>,
) -> bool
    decreases order.len(),
{
    &&& trail.len() == order.len() + 1
    &&& order.len() > 0 ==> {
        let i = order[0];
        let rest = order.drop_first();
        let now = stop_pass(table, config, rest);
        &&& stop_trail(crew, table, config, rest, trail.drop_last())
        &&& if must_stop(now, config, i) {
            stop_turn(crew[i], now[i], trail[order.len() - 1], trail.last())
        } else {
            trail.last() == trail[order.len() - 1]
        }
    }
}

/// Whether the plugins followed their switches: down, up, and down again, each time
/// from the records that the time before left.
pub open spec fn sync_trail<P: AronaPlugin>(
    crew: Seq<P>,
    table: Seq<PluginView>,
    config: AronaConfigView,
    options: Option<OptionsView>,
    answers: Seq<(Result<(), Seq<char>>, Result<(), Seq<char>>)>,
    trails: (Seq<Registries>, Seq<Registries>, Seq<Registries>),
) -> bool {
    let order = order_of(table);
    let down = stop_pass(cycles_marked(table), config, order);
    let up = rise_pass(down, config, options, order, answers);
    &&& stop_trail(crew, cycles_marked(table), config, order, trails.0)
    &&& rise_trail(crew, down, config, options, order, answers, trails.1)
    &&& stop_trail(crew, up, config, order, trails.2)
    &&& trails.1[0] == trails.0.last()
    &&& trails.2[0] == trails.1.last()
}

/// Whether all plugins of an order were turned off, the last first.
pub open spec fn stop_all_trail<P: AronaPlugin>(
    crew: Seq<P>,
    table: Seq<PluginView>,
    order: Seq<int>,
    trail: Seq<Registries>,
) -> bool {
    &&& trail.len() == order.len() + 1
    &&& forall|k: int|
        0 <= k < order.len() ==> #[trigger] stopped_at(crew, table, order, trail, k)
}

/// Whether the plugin at a place of the order was turned off at its turn.
pub open spec fn stopped_at<P: AronaPlugin>(
    crew: Seq<P>,
    table: Seq<PluginView>,
    order: Seq<int>,
    trail: Seq<Registries>,
    k: int,
) -> bool {
    let turn = order.len() - 1 - k;
    stop_turn(crew[order[k]], table[order[k]], trail[turn], trail[turn + 1])
}

/// A text, if there is one.
pub open spec fn text_of(text: Option<&str>) -> Option<Seq<char>> {
    match text {
        Some(text) => Some(text@),
        None => None,
    }
}

/// Whether a plugin is told that configurations were read again: one that is at work
/// and, where one is meant, has its id, whatever the case.
pub open spec fn listens(table: Seq<PluginView>, only: Option<Seq<char>>, i: int) -> bool {
    &&& running(table[i].state)
    &&& table[i].context is Some
    &&& match only {
        Some(id) => same_ignoring_case(table[i].meta.id, id),
        None => true,
    }
}

/// The plugins that are told that configurations were read again, in their order.
pub open spec fn listeners(table: Seq<PluginView>, only: Option<Seq<char>>) -> Seq<int> {
    order_of(table).filter(|i: int| listens(table, only, i))
}

/// Whether plugins were told in turn that configurations were read again.
pub open spec fn reload_trail<P: AronaPlugin>(
    crew: Seq<P>,
    table: Seq<PluginView>,
    told: Seq<int>,
    trail: Seq<Registries>,
) -> bool {
    &&& trail.len() == told.len() + 1
    &&& forall|k: int| 0 <= k < told.len() ==> #[trigger] told_at(crew, table, told, trail, k)
}

/// Whether a plugin was told at its turn.
pub open spec fn told_at<P: AronaPlugin>(
    crew: Seq<P>,
    table: Seq<PluginView>,
    told: Seq<int>,
    trail: Seq<Registries>,
    k: int,
) -> bool {
    reload_turn(crew[told[k]], table[told[k]], trail[k], trail[k + 1])
}

/// A plugin that fails when it is assembled or started, and one whose work is ended, has
/// nothing on record afterwards.
pub proof fn law_failed_plugins_have_nothing_on_record<P: AronaPlugin>(
    instance: P,
    plugin: PluginView,
    context: ContextView,
    reason: Seq<char>,
    before: Registries,
    after: Registries,
)
    ensures
        assemble_turn(instance, plugin, context, Err(reason), before, after) ==> owns_nothing(
            after,
            plugin.meta.id,
        ),
        plugin.context is Some && start_turn(instance, plugin, Err(reason), before, after)
            ==> owns_nothing(after, plugin.meta.id),
        stop_turn(instance, plugin, before, after) ==> owns_nothing(after, plugin.meta.id),
{
    if assemble_turn(instance, plugin, context, Err(reason), before, after) {
        let (cleared, made) = choose|cleared: Registries, made: Registries|
            is_revoked(before, cleared, plugin.meta.id) && #[trigger] instance.may_configure(
                context,
                cleared,
                made,
                Err(reason),
            ) && kept_or_revoked(Err::<(), Seq<char>>(reason), made, after, plugin.meta.id);
        law_revoked_plugins_own_nothing(made, after, plugin.meta.id);
    }
    if plugin.context is Some && start_turn(instance, plugin, Err(reason), before, after) {
        let handed = plugin.context->0;
        let made = choose|made: Registries| #[trigger]
            instance.may_start(handed, before, made, Err(reason)) && kept_or_revoked(
                Err::<(), Seq<char>>(reason),
                made,
                after,
                plugin.meta.id,
            );
        law_revoked_plugins_own_nothing(made, after, plugin.meta.id);
    }
    if stop_turn(instance, plugin, before, after) {
        let ended = choose|ended: Registries|
            stop_called(instance, plugin, before, ended) && #[trigger] is_revoked(
                ended,
                after,
                plugin.meta.id,
            );
        law_revoked_plugins_own_nothing(ended, after, plugin.meta.id);
    }
}

/// A plugin for another contract is not called when it is installed, one that was never
/// handed anything is not called when it is started, and one that is not at work is not
/// called to end its work.
pub proof fn law_who_is_not_called<P: AronaPlugin>(
    instance: P,
    plugin: PluginView,
    answer: Result<(), Seq<char>>,
    before: Registries,
    after: Registries,
)
    ensures
        !compatible(plugin.meta) && install_turn(instance, plugin, answer, before, after) ==> after
            == before,
        compatible(plugin.meta) && install_turn(instance, plugin, answer, before, after)
            ==> instance.may_install(plugin.meta.id, before, after, answer),
        plugin.context is None && start_turn(instance, plugin, answer, before, after) ==> after
            == before,
        !running(plugin.state) && stop_called(instance, plugin, before, after) ==> after == before,
        running(plugin.state) && plugin.context is Some && stop_called(
            instance,
            plugin,
            before,
            after,
        ) ==> instance.may_stop(plugin.context->0, before, after),
{
}

} // verus!
