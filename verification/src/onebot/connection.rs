//! Connections, and the actions that wait for their responses.
use crate::collections::TextMap;
use crate::json::{
    as_value, is_whole, json_text, lemma_field_as_value, lookup_last, no_members, number,
    option_view, prints_exactly, render_json, Json, JsonView, Members, JSON_DEPTH,
};
use crate::onebot::model::{
    payload_view, OneBotAction, OneBotActionResponse, ParsedPayload, PayloadView, ResponseView,
};
use crate::onebot::protocol::{
    action_json, action_prints_exactly, action_received, parse_payload, payload_in, payload_of,
    serialize_action,
};
use crate::text::{decimal, law_decimal_reads_back, owned};
use vstd::prelude::*;

verus! {

/// How long an action waits for its response.
pub const ACTION_TIMEOUT_MILLIS: u64 = 15_000;

/// The actions that wait for a response, by their tags. Who waits is known by a
/// number.
#[derive(Debug)]
pub struct Pending {
    waiting: TextMap<u64>,
}

impl View for Pending {
    type V = Map<Seq<char>, u64>;

    closed spec fn view(&self) -> Map<Seq<char>, u64> {
        self.waiting@
    }
}

/// Who waits for a response.
pub open spec fn waiter_of(waiting: Map<Seq<char>, u64>, echo: Option<Seq<char>>) -> Option<u64> {
    match echo {
        Some(echo) => if waiting.contains_key(echo) {
            Some(waiting[echo])
        } else {
            None
        },
        None => None,
    }
}

impl Pending {
    /// Nobody waits.
    pub fn new() -> (r: Pending)
        ensures
            r@ == Map::<Seq<char>, u64>::empty(),
    {
        Pending { waiting: TextMap::new() }
    }

    /// Somebody waits for the response with a tag.
    pub fn track(&mut self, echo: &str, waiter: u64)
        ensures
            final(self)@ == old(self)@.insert(echo@, waiter),
    {
        self.waiting.insert(owned(echo), waiter);
    }

    /// Takes in a response and tells who has waited for it.
    pub fn resolve(&mut self, response: &OneBotActionResponse) -> (r: Option<u64>)
        ensures
            r == waiter_of(old(self)@, response@.echo),
            final(self)@ == match response@.echo {
                Some(echo) => old(self)@.remove(echo),
                None => old(self)@,
            },
    {
        match &response.echo {
            Some(echo) => self.waiting.remove(echo.as_str()),
            None => None,
        }
    }

    /// Nobody waits for the response with a tag any more.
    pub fn forget(&mut self, echo: &str)
        ensures
            final(self)@ == old(self)@.remove(echo@),
    {
        let _ = self.waiting.remove(echo);
    }
}

/// Whoever waits for a response is found by it, and then waits no more.
pub proof fn law_response_finds_its_waiter(
    waiting: Map<Seq<char>, u64>,
    echo: Seq<char>,
    waiter: u64,
)
    ensures
        waiter_of(waiting.insert(echo, waiter), Some(echo)) == Some(waiter),
        waiter_of(waiting.insert(echo, waiter).remove(echo), Some(echo)) is None,
{
}

/// Notes who waits for an action, and gives the payload to deliver.
pub fn begin_send(pending: &mut Pending, action: &OneBotAction, waiter: u64) -> (payload: String)
    ensures
        final(pending)@ == old(pending)@.insert(action@.echo, waiter),
        payload@ == json_text(as_value(action_json(action@))),
        action_prints_exactly(action@) ==> forall|now: i64| #[trigger]
            payload_in(payload@, now) == Some(PayloadView::Action(action_received(action@))),
{
    pending.track(action.echo.as_str(), waiter);
    serialize_action(action)
}

/// The registered connections, by their numbers.
#[derive(Debug)]
pub struct ConnectionRegistry {
    pub connections: Vec<u64>,
}

/// The connections but one, in their order.
pub open spec fn others(connections: Seq<u64>, except_id: u64) -> Seq<u64>
    decreases connections.len(),
{
    if connections.len() == 0 {
        Seq::empty()
    } else if connections.last() == except_id {
        others(connections.drop_last(), except_id)
    } else {
        others(connections.drop_last(), except_id).push(connections.last())
    }
}

impl ConnectionRegistry {
    /// No connection.
    pub fn new() -> (r: ConnectionRegistry)
        ensures
            r.connections@ == Seq::<u64>::empty(),
    {
        ConnectionRegistry { connections: Vec::new() }
    }

    /// Registers a connection after the others.
    pub fn register(&mut self, connection: u64)
        ensures
            final(self).connections@ == old(self).connections@.push(connection),
    {
        self.connections.push(connection);
    }

    /// The connection that was registered first.
    pub fn first(&self) -> (r: Option<u64>)
        ensures
            r == if self.connections@.len() > 0 {
                Some(self.connections@[0])
            } else {
                None
            },
    {
        if self.connections.len() > 0 {
            Some(self.connections[0])
        } else {
            None
        }
    }

    /// How many connections there are.
    pub fn count(&self) -> (r: usize)
        ensures
            r == self.connections@.len(),
    {
        self.connections.len()
    }

    /// All connections in the order of registration.
    pub fn all(&self) -> (r: &Vec<u64>)
        ensures
            r@ == self.connections@,
    {
        &self.connections
    }

    /// Takes all connections off.
    pub fn clear(&mut self)
        ensures
            final(self).connections@ == Seq::<u64>::empty(),
    {
        self.connections.clear();
    }

    /// The connections to which an event goes on: all but the one that it came by.
    pub fn broadcast_except(&self, except_id: u64) -> (r: Vec<u64>)
        ensures
            r@ == others(self.connections@, except_id),
    {
        let ghost all = self.connections@;
        let mut out: Vec<u64> = Vec::new();
        let mut i: usize = 0;
        while i < self.connections.len()
            invariant
                i <= self.connections@.len(),
                all == self.connections@,
                out@ == others(all.take(i as int), except_id),
            decreases self.connections@.len() - i,
        {
            assert(all.take(i + 1).drop_last() =~= all.take(i as int));
            if self.connections[i] != except_id {
                out.push(self.connections[i]);
            }
            i = i + 1;
        }
        assert(all.take(all.len() as int) =~= all);
        out
    }
}

/// An event does not go back by the connection that it came by.
pub proof fn law_no_echo_to_the_source(connections: Seq<u64>, except_id: u64)
    ensures
        !others(connections, except_id).contains(except_id),
    decreases connections.len(),
{
    if connections.len() > 0 {
        law_no_echo_to_the_source(connections.drop_last(), except_id);
        let head = others(connections.drop_last(), except_id);
        if connections.last() != except_id {
            assert forall|i: int| 0 <= i < head.push(connections.last()).len() implies head.push(
                connections.last(),
            )[i] != except_id by {
                if i < head.len() {
                    assert(head.contains(head[i]));
                }
            }
        }
    }
}

/// Numbers for connections.
#[derive(Debug)]
pub struct ConnectionIds {
    pub next: u64,
}

impl ConnectionIds {
    /// The first number is one.
    pub fn new() -> (r: ConnectionIds)
        ensures
            r.next == 1,
    {
        ConnectionIds { next: 1 }
    }

    /// The number of a new connection. After the largest number comes zero.
    pub fn next_conn_id(&mut self) -> (r: u64)
        ensures
            r == old(self).next,
            final(self).next == if r == u64::MAX {
                0
            } else {
                (r + 1) as u64
            },
    {
        let id: u64 = self.next;
        self.next = if id == u64::MAX {
            0
        } else {
            id + 1
        };
        id
    }
}

// ---------------------------------------------------------------------------
// received payloads

/// The reply to an action that an implementation requested.
pub open spec fn reply_json(
    result: Result<Option<JsonView>, Seq<char>>,
    echo: Seq<char>,
) -> JsonView {
    match result {
        Ok(data) => JsonView::Object(
            no_members().push(("status"@, JsonView::Text("ok"@))).push(
                ("retcode"@, number(0)),
            ).push(
                (
                    "data"@,
                    match data {
                        Some(data) => data,
                        None => JsonView::Null,
                    },
                ),
            ).push(("echo"@, JsonView::Text(echo))),
        ),
        Err(error) => JsonView::Object(
            no_members().push(("status"@, JsonView::Text("failed"@))).push(
                ("retcode"@, number(1)),
            ).push(("data"@, JsonView::Null)).push(("message"@, JsonView::Text(error))).push(
                ("echo"@, JsonView::Text(echo)),
            ),
        ),
    }
}

/// The view of the outcome of an action.
pub open spec fn outcome_view(
    result: Result<Option<Json>, String>,
) -> Result<Option<JsonView>, Seq<char>> {
    match result {
        Ok(data) => Ok(option_view(data)),
        Err(error) => Err(error@),
    }
}

/// The reply to an action that an implementation requested.
pub fn action_reply(result: Result<Option<Json>, String>, echo: &str) -> (r: Json)
    ensures
        r@ == reply_json(outcome_view(result), echo@),
{
    match result {
        Ok(data) => {
            let data = match data {
                Some(data) => data,
                None => Json::Null,
            };
            Members::new().with("status", Json::text("ok")).with(
                "retcode",
                Json::signed(0),
            ).with("data", data).with("echo", Json::text(echo)).object()
        },
        Err(error) => Members::new().with("status", Json::text("failed")).with(
            "retcode",
            Json::signed(1),
        ).with("data", Json::Null).with("message", Json::Text(error)).with(
            "echo",
            Json::text(echo),
        ).object(),
    }
}

/// What is done with a received payload.
#[derive(Debug)]
pub enum Received {
    /// It is no payload, and is reported.
    Invalid,
    Event(crate::onebot::model::OneBotEvent),
    Action(OneBotAction),
    /// It is a response; somebody may have waited for it.
    Response { response: OneBotActionResponse, waiter: Option<u64> },
}

/// Takes in a payload that was read: a response goes to whoever waits for it.
pub fn receive_parsed(pending: &mut Pending, parsed: Option<ParsedPayload>) -> (r: Received)
    ensures
        match payload_view(parsed) {
            None => r is Invalid && final(pending)@ == old(pending)@,
            Some(PayloadView::Event(event)) => r is Event && r->Event_0@ == event && final(pending)@ == old(pending)@,
            Some(PayloadView::Action(action)) => r is Action && r->Action_0@ == action && final(pending)@ == old(pending)@,
            Some(PayloadView::Response(response)) => {
                &&& r is Response
                &&& r->response@ == response
                &&& r->waiter == waiter_of(old(pending)@, response.echo)
                &&& final(pending)@ == match response.echo {
                    Some(echo) => old(pending)@.remove(echo),
                    None => old(pending)@,
                }
            },
        },
{
    match parsed {
        None => Received::Invalid,
        Some(ParsedPayload::Event(event)) => Received::Event(event),
        Some(ParsedPayload::Action(action)) => Received::Action(action),
        Some(ParsedPayload::Response(response)) => {
            let waiter = pending.resolve(&response);
            Received::Response { response, waiter }
        },
    }
}

/// Takes in a payload as it came.
pub fn receive_payload(pending: &mut Pending, payload: &str, now: i64) -> (r: Received)
    ensures
        match payload_in(payload@, now) {
            None => r is Invalid && final(pending)@ == old(pending)@,
            Some(PayloadView::Event(event)) => r is Event && r->Event_0@ == event && final(pending)@ == old(pending)@,
            Some(PayloadView::Action(action)) => r is Action && r->Action_0@ == action && final(pending)@ == old(pending)@,
            Some(PayloadView::Response(response)) => {
                &&& r is Response
                &&& r->response@ == response
                &&& r->waiter == waiter_of(old(pending)@, response.echo)
                &&& final(pending)@ == match response.echo {
                    Some(echo) => old(pending)@.remove(echo),
                    None => old(pending)@,
                }
            },
        },
{
    receive_parsed(pending, parse_payload(payload, now))
}

/// Whether the outcome of an action prints to a reply that reads back as the outcome.
pub open spec fn outcome_prints_exactly(result: Result<Option<JsonView>, Seq<char>>) -> bool {
    match result {
        Ok(Some(data)) => prints_exactly(data, JSON_DEPTH - 1),
        _ => true,
    }
}

/// Whether a response carries the outcome of an action: the tag of the action, `ok` and
/// the data for a success, `failed` and the words of the error for a failure.
pub open spec fn carries_outcome(
    response: ResponseView,
    result: Result<Option<JsonView>, Seq<char>>,
    echo: Seq<char>,
) -> bool {
    &&& response.echo == Some(echo)
    &&& match result {
        Ok(data) => response.status == "ok"@ && response.retcode == 0 && response.data == Some(
            match data {
                Some(data) => as_value(data),
                None => JsonView::Null,
            },
        ),
        Err(error) => response.status == "failed"@ && response.retcode == 1 && response.data
            == Some(JsonView::Null) && response.message == Some(error),
    }
}

proof fn lemma_reply_value(
    result: Result<Option<JsonView>, Seq<char>>,
    echo: Seq<char>,
    now: i64,
)
    ensures
        payload_of(as_value(reply_json(result, echo)), now) is Some,
        payload_of(as_value(reply_json(result, echo)), now)->0 is Response,
        carries_outcome(
            payload_of(as_value(reply_json(result, echo)), now)->0->Response_0,
            result,
            echo,
        ),
{
    let members = reply_json(result, echo)->Object_0;
    lemma_field_as_value(members, "post_type"@);
    lemma_field_as_value(members, "action"@);
    lemma_field_as_value(members, "echo"@);
    lemma_field_as_value(members, "status"@);
    lemma_field_as_value(members, "retcode"@);
    lemma_field_as_value(members, "data"@);
    lemma_field_as_value(members, "message"@);
    reveal_with_fuel(lookup_last, 6);
    reveal_strlit("post_type");
    reveal_strlit("action");
    reveal_strlit("echo");
    reveal_strlit("status");
    reveal_strlit("retcode");
    reveal_strlit("data");
    reveal_strlit("message");
    assert("post_type"@[0] == 'p' && "action"@[0] == 'a' && "echo"@[0] == 'e');
    assert("status"@[0] == 's' && "retcode"@[0] == 'r' && "data"@[0] == 'd');
    assert("message"@[0] == 'm');
    law_decimal_reads_back(0);
    law_decimal_reads_back(1);
    assert(is_whole(decimal(0)));
    assert(is_whole(decimal(1)));
    match result {
        Ok(_) => {
            let three = members.drop_last();
            let two = three.drop_last();
            let one = two.drop_last();
            assert(three.last() == members[2]);
            assert(two.last() == members[1]);
            assert(one.last() == members[0]);
            assert(one.drop_last().len() == 0);
        },
        Err(_) => {
            let four = members.drop_last();
            let three = four.drop_last();
            let two = three.drop_last();
            let one = two.drop_last();
            assert(four.last() == members[3]);
            assert(three.last() == members[2]);
            assert(two.last() == members[1]);
            assert(one.last() == members[0]);
            assert(one.drop_last().len() == 0);
        },
    }
}

/// The payload that carries the reply to an action. Whoever reads it finds a response
/// with the tag of the action and its outcome.
pub fn reply_payload(result: Result<Option<Json>, String>, echo: &str) -> (r: String)
    ensures
        r@ == json_text(as_value(reply_json(outcome_view(result), echo@))),
        outcome_prints_exactly(outcome_view(result)) ==> forall|now: i64|
            (#[trigger] payload_in(r@, now)) is Some && payload_in(r@, now)->0 is Response
                && carries_outcome(
                payload_in(r@, now)->0->Response_0,
                outcome_view(result),
                echo@,
            ),
{
    proof {
        let json = reply_json(outcome_view(result), echo@);
        let members = json->Object_0;
        if outcome_prints_exactly(outcome_view(result)) {
            assert(is_whole(decimal(0)));
            assert(is_whole(decimal(1)));
            assert forall|i: int| 0 <= i < members.len() implies prints_exactly(
                (#[trigger] members[i]).1,
                JSON_DEPTH - 1,
            ) by {}
            assert(prints_exactly(json, JSON_DEPTH as int));
        }
        assert forall|now: i64| (#[trigger] payload_of(as_value(json), now)) is Some && payload_of(
            as_value(json),
            now,
        )->0 is Response && carries_outcome(
            payload_of(as_value(json), now)->0->Response_0,
            outcome_view(result),
            echo@,
        ) by {
            lemma_reply_value(outcome_view(result), echo@, now);
        }
    }
    render_json(&action_reply(result, echo))
}

/// An event goes on to every other connection, in their order, and to no other.
pub proof fn law_events_go_on_to_all_others(connections: Seq<u64>, except_id: u64)
    ensures
        others(connections, except_id) == connections.filter(|id: u64| id != except_id),
    decreases connections.len(),
{
    reveal(Seq::filter);
    if connections.len() > 0 {
        law_events_go_on_to_all_others(connections.drop_last(), except_id);
    }
}

/// A response finds nobody but who waits for it: whoever waits for another response waits
/// on, and a response without a tag finds nobody.
pub proof fn law_others_wait_on(
    waiting: Map<Seq<char>, u64>,
    echo: Seq<char>,
    other: Seq<char>,
    waiter: u64,
)
    requires
        echo != other,
    ensures
        waiter_of(waiting.insert(echo, waiter), Some(other)) == waiter_of(waiting, Some(other)),
        waiter_of(waiting.remove(echo), Some(other)) == waiter_of(waiting, Some(other)),
        waiter_of(waiting, None) is None,
        waiter_of(Map::empty(), Some(echo)) is None,
{
}

/// The reply to an action is taken for what it is by whoever requested the action: a
/// success brings the data and a failure its words, both under the tag of the action.
pub proof fn law_replies_are_understood(
    data: JsonView,
    error: Seq<char>,
    echo: Seq<char>,
    now: i64,
)
    ensures
        payload_of(as_value(reply_json(Ok(Some(data)), echo)), now) matches Some(
            PayloadView::Response(response),
        ) && response.echo == Some(echo) && response.data == Some(as_value(data))
            && crate::onebot::model::is_success(response),
        payload_of(as_value(reply_json(Err(error), echo)), now) matches Some(
            PayloadView::Response(response),
        ) && response.echo == Some(echo) && response.message == Some(error)
            && !crate::onebot::model::is_success(response),
{
    lemma_reply_value(Ok(Some(data)), echo, now);
    lemma_reply_value(Err(error), echo, now);
}

} // verus!
