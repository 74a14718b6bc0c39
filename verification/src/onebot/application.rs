//! Which connections are started.
use crate::config::onebot::{
    address_of, type_name_of, type_of, unknown_type_text, ConnectionConfig, ConnectionType,
    OneBotConfig,
};
use crate::onebot::connection::{ConnectionIds, ConnectionRegistry};
use vstd::prelude::*;

verus! {

/// One connection that the configuration turns on.
#[derive(Debug)]
pub struct StartStep {
    pub name: String,
    /// How it is started; without a known type it is reported and left out.
    pub started: Result<StartedConnection, String>,
}

/// How a connection is started.
#[derive(Debug)]
pub struct StartedConnection {
    pub kind: ConnectionType,
    pub address: String,
    /// Its number. A server for actions has none: events do not come by it.
    pub id: Option<u64>,
}

/// A connection that the configuration turns on.
#[verifier::ext_equal]
pub struct StepView {
    pub name: Seq<char>,
    pub kind: Option<ConnectionType>,
    pub address: Seq<char>,
    pub id: Option<u64>,
    /// Why it is left out; empty where it is started.
    pub error: Seq<char>,
}

/// The view of a step.
pub open spec fn step_view(step: StartStep) -> StepView {
    match step.started {
        Ok(started) => StepView {
            name: step.name@,
            kind: Some(started.kind),
            address: started.address@,
            id: started.id,
            error: Seq::empty(),
        },
        Err(error) => StepView {
            name: step.name@,
            kind: None,
            address: Seq::empty(),
            id: None,
            error: error@,
        },
    }
}

/// The views of some steps.
pub open spec fn step_views(steps: Seq<StartStep>) -> Seq<StepView> {
    Seq::new(steps.len(), |i: int| step_view(steps[i]))
}

/// The number after another.
pub open spec fn id_after(id: u64) -> u64 {
    if id == u64::MAX {
        0
    } else {
        (id + 1) as u64
    }
}

/// Whether a connection takes a number.
pub open spec fn takes_id(entry: (String, ConnectionConfig)) -> bool {
    entry.1.enable && match type_of(entry.1@, entry.0@) {
        Some(kind) => kind != ConnectionType::Http,
        None => false,
    }
}

/// The next number after the connections are started.
pub open spec fn next_id(entries: Seq<(String, ConnectionConfig)>, first: u64) -> u64
    decreases entries.len(),
{
    if entries.len() == 0 {
        first
    } else if takes_id(entries.last()) {
        id_after(next_id(entries.drop_last(), first))
    } else {
        next_id(entries.drop_last(), first)
    }
}

/// The connections that are turned on, in the order of their keys.
pub open spec fn steps_of(entries: Seq<(String, ConnectionConfig)>, first: u64) -> Seq<StepView>
    decreases entries.len(),
{
    if entries.len() == 0 {
        Seq::empty()
    } else {
        let head = steps_of(entries.drop_last(), first);
        let last = entries.last();
        if last.1.enable {
            let kind = type_of(last.1@, last.0@);
            head.push(
                StepView {
                    name: last.0@,
                    kind,
                    address: match kind {
                        Some(kind) => address_of(last.1@, kind),
                        None => Seq::empty(),
                    },
                    id: if takes_id(last) {
                        Some(next_id(entries.drop_last(), first))
                    } else {
                        None
                    },
                    error: match kind {
                        Some(_) => Seq::empty(),
                        None => unknown_type_text(type_name_of(last.1@, last.0@)),
                    },
                },
            )
        } else {
            head
        }
    }
}

/// The numbers of the connections that are started.
pub open spec fn started_ids(entries: Seq<(String, ConnectionConfig)>, first: u64) -> Seq<u64>
    decreases entries.len(),
{
    if entries.len() == 0 {
        Seq::empty()
    } else if takes_id(entries.last()) {
        started_ids(entries.drop_last(), first).push(next_id(entries.drop_last(), first))
    } else {
        started_ids(entries.drop_last(), first)
    }
}

/// Starts connections in their order, and registers them.
fn start_entries(
    entries: &Vec<(String, ConnectionConfig)>,
    registry: &mut ConnectionRegistry,
    ids: &mut ConnectionIds,
) -> (r: Vec<StartStep>)
    ensures
        step_views(r@) == steps_of(entries@, old(ids).next),
        final(registry).connections@ == old(registry).connections@ + started_ids(
            entries@,
            old(ids).next,
        ),
        final(ids).next == next_id(entries@, old(ids).next),
{
    let ghost all = entries@;
    let ghost first = ids.next;
    let ghost registered = registry.connections@;
    let mut out: Vec<StartStep> = Vec::new();
    let mut i: usize = 0;
    assert(step_views(out@) =~= steps_of(all.take(0), first));
    while i < entries.len()
        invariant
            i <= entries@.len(),
            all == entries@,
            step_views(out@) == steps_of(all.take(i as int), first),
            ids.next == next_id(all.take(i as int), first),
            registry.connections@ =~= registered + started_ids(all.take(i as int), first),
        decreases entries@.len() - i,
    {
        assert(all.take(i + 1).drop_last() =~= all.take(i as int));
        assert(all.take(i + 1).last() == all[i as int]);
        let ghost before = out@;
        let conn = &entries[i].1;
        let name = &entries[i].0;
        if conn.enable {
            let started = match conn.resolve_type(name.as_str()) {
                Ok(kind) => {
                    let id: Option<u64> = match kind {
                        ConnectionType::Http => None,
                        _ => {
                            let id: u64 = ids.next_conn_id();
                            registry.register(id);
                            Some(id)
                        },
                    };
                    Ok(StartedConnection { kind, address: conn.address(kind), id })
                },
                Err(error) => Err(error),
            };
            let step = StartStep { name: name.clone(), started };
            out.push(step);
            assert(step_views(out@) =~= step_views(before).push(step_view(step)));
        }
        i = i + 1;
    }
    assert(all.take(all.len() as int) =~= all);
    out
}

/// The connections of the bot.
#[derive(Debug)]
pub struct OneBotApplication {
    pub config: OneBotConfig,
    /// The connections that are started.
    pub registry: ConnectionRegistry,
    pub ids: ConnectionIds,
    /// Hand local pictures over by path.
    pub send_image_as_file: bool,
}

impl OneBotApplication {
    /// The connections of a configuration, not started yet.
    pub fn new(config: OneBotConfig) -> (r: OneBotApplication)
        ensures
            r.config == config,
            r.registry.connections@ == Seq::<u64>::empty(),
            r.ids.next == 1,
            r.send_image_as_file == config.send_image_as_file,
    {
        let send_image_as_file = config.send_image_as_file;
        OneBotApplication {
            config,
            registry: ConnectionRegistry::new(),
            ids: ConnectionIds::new(),
            send_image_as_file,
        }
    }

    /// Changes how pictures are sent.
    pub fn apply_send_image_as_file(&mut self, enabled: bool)
        ensures
            *final(self) == (OneBotApplication {
                send_image_as_file: enabled,
                config: OneBotConfig { send_image_as_file: enabled, ..old(self).config },
                ..*old(self)
            }),
    {
        self.config.send_image_as_file = enabled;
        self.send_image_as_file = enabled;
    }

    /// The configuration in force.
    pub fn config(&self) -> (r: &OneBotConfig)
        ensures
            *r == self.config,
    {
        &self.config
    }

    /// Starts the connections in the order of their keys, and registers them.
    pub fn start(&mut self) -> (r: Vec<StartStep>)
        ensures
            step_views(r@) == steps_of(old(self).config.connections.listed(), old(self).ids.next),
            final(self).registry.connections@ == old(self).registry.connections@ + started_ids(
                old(self).config.connections.listed(),
                old(self).ids.next,
            ),
            final(self).ids.next == next_id(
                old(self).config.connections.listed(),
                old(self).ids.next,
            ),
            final(self).config == old(self).config,
            final(self).send_image_as_file == old(self).send_image_as_file,
    {
        start_entries(self.config.connections.entries(), &mut self.registry, &mut self.ids)
    }

    /// Takes all connections off and tells which ones to stop.
    pub fn stop(&mut self) -> (r: Vec<u64>)
        ensures
            r@ == old(self).registry.connections@,
            final(self).registry.connections@ == Seq::<u64>::empty(),
            final(self).config == old(self).config,
            final(self).ids == old(self).ids,
            final(self).send_image_as_file == old(self).send_image_as_file,
    {
        let mut stopped: Vec<u64> = Vec::new();
        std::mem::swap(&mut stopped, &mut self.registry.connections);
        stopped
    }

    /// Puts another configuration in force: tells which connections to stop, and
    /// starts those of the new configuration.
    pub fn reload(&mut self, config: OneBotConfig) -> (r: (Vec<u64>, Vec<StartStep>))
        ensures
            r.0@ == old(self).registry.connections@,
            step_views(r.1@) == steps_of(config.connections.listed(), old(self).ids.next),
            final(self).config == config,
            final(self).send_image_as_file == config.send_image_as_file,
            final(self).registry.connections@ == started_ids(
                config.connections.listed(),
                old(self).ids.next,
            ),
            final(self).ids.next == next_id(config.connections.listed(), old(self).ids.next),
    {
        let stopped = self.stop();
        self.send_image_as_file = config.send_image_as_file;
        self.config = config;
        let steps = self.start();
        assert(self.registry.connections@ =~= started_ids(
            config.connections.listed(),
            old(self).ids.next,
        ));
        (stopped, steps)
    }

    /// The connection that was started first.
    pub fn first_connection(&self) -> (r: Option<u64>)
        ensures
            r == if self.registry.connections@.len() > 0 {
                Some(self.registry.connections@[0])
            } else {
                None
            },
    {
        self.registry.first()
    }
}

/// A connection that is turned off is not started: every step names an entry that is
/// turned on.
pub proof fn law_only_enabled_connections_start(
    entries: Seq<(String, ConnectionConfig)>,
    first: u64,
    i: int,
)
    requires
        0 <= i < steps_of(entries, first).len(),
    ensures
        exists|k: int|
            0 <= k < entries.len() && (#[trigger] entries[k]).1.enable && entries[k].0@ == steps_of(
                entries,
                first,
            )[i].name && type_of(entries[k].1@, entries[k].0@) == steps_of(entries, first)[i].kind,
    decreases entries.len(),
{
    let head = steps_of(entries.drop_last(), first);
    if i < head.len() {
        law_only_enabled_connections_start(entries.drop_last(), first, i);
        let k = choose|k: int|
            0 <= k < entries.len() - 1 && (#[trigger] entries.drop_last()[k]).1.enable
                && entries.drop_last()[k].0@ == head[i].name && type_of(
                entries.drop_last()[k].1@,
                entries.drop_last()[k].0@,
            ) == head[i].kind;
        assert(entries[k] == entries.drop_last()[k]);
    } else {
        assert(entries[entries.len() - 1].1.enable);
    }
}

/// Every connection that is turned on is started, with its own name, kind and address;
/// one whose kind is not known is reported instead, and only one that is neither unknown
/// nor answered over the web gets a number.
pub proof fn law_every_enabled_connection_starts(
    entries: Seq<(String, ConnectionConfig)>,
    first: u64,
    k: int,
)
    requires
        0 <= k < entries.len(),
        entries[k].1.enable,
    ensures
        exists|i: int|
            {
                &&& 0 <= i < steps_of(entries, first).len()
                &&& (#[trigger] steps_of(entries, first)[i]).name == entries[k].0@
                &&& steps_of(entries, first)[i].kind == type_of(entries[k].1@, entries[k].0@)
                &&& match type_of(entries[k].1@, entries[k].0@) {
                    Some(kind) => steps_of(entries, first)[i].address == address_of(
                        entries[k].1@,
                        kind,
                    ) && (steps_of(entries, first)[i].id is Some <==> kind != ConnectionType::Http)
                        && steps_of(entries, first)[i].error.len() == 0,
                    None => steps_of(entries, first)[i].id is None && steps_of(
                        entries,
                        first,
                    )[i].error == unknown_type_text(type_name_of(entries[k].1@, entries[k].0@)),
                }
            },
    decreases entries.len(),
{
    let steps = steps_of(entries, first);
    let head = steps_of(entries.drop_last(), first);
    if k < entries.len() - 1 {
        law_every_enabled_connection_starts(entries.drop_last(), first, k);
        assert(entries.drop_last()[k] == entries[k]);
        let i = choose|i: int|
            {
                &&& 0 <= i < head.len()
                &&& (#[trigger] head[i]).name == entries[k].0@
                &&& head[i].kind == type_of(entries[k].1@, entries[k].0@)
                &&& match type_of(entries[k].1@, entries[k].0@) {
                    Some(kind) => head[i].address == address_of(entries[k].1@, kind) && (
                    head[i].id is Some <==> kind != ConnectionType::Http) && head[i].error.len()
                        == 0,
                    None => head[i].id is None && head[i].error == unknown_type_text(
                        type_name_of(entries[k].1@, entries[k].0@),
                    ),
                }
            };
        assert(steps[i] == head[i]);
    } else {
        assert(entries.last() == entries[k]);
        assert(steps[steps.len() - 1].name == entries[k].0@);
    }
}

/// Connections are numbered one after another: each that takes a number gets the one
/// after the last, so that no two that are started together share one.
pub proof fn law_connections_are_numbered_in_turn(
    entries: Seq<(String, ConnectionConfig)>,
    first: u64,
    i: int,
)
    requires
        first + entries.len() <= u64::MAX,
        0 <= i < started_ids(entries, first).len(),
    ensures
        started_ids(entries, first)[i] == first + i,
        next_id(entries, first) == first + started_ids(entries, first).len(),
    decreases entries.len(),
{
    lemma_numbers(entries, first);
    let head = started_ids(entries.drop_last(), first);
    lemma_numbers(entries.drop_last(), first);
    if i < head.len() {
        law_connections_are_numbered_in_turn(entries.drop_last(), first, i);
        assert(started_ids(entries, first)[i] == head[i]);
    }
}

proof fn lemma_numbers(entries: Seq<(String, ConnectionConfig)>, first: u64)
    requires
        first + entries.len() <= u64::MAX,
    ensures
        started_ids(entries, first).len() <= entries.len(),
        next_id(entries, first) == first + started_ids(entries, first).len(),
    decreases entries.len(),
{
    if entries.len() > 0 {
        lemma_numbers(entries.drop_last(), first);
    }
}

} // verus!
