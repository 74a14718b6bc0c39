//! The rules of the connections: credentials, heartbeats and waiting.
use crate::config::onebot::ConnectionConfig;
use crate::json::{no_members, option_text, Json, JsonView, Members};
use crate::onebot::model::{OneBotActionResponse, ParsedPayload};
use crate::text::owned;
use vstd::prelude::*;
use vstd::string::StringExecFns;

verus! {

/// How long a forward connection rests after every fifth failure in a row.
pub const REST_MILLIS: u64 = 30_000;

/// At least a second.
pub open spec fn at_least_a_second(millis: u64) -> u64 {
    if millis < 1000 {
        1000
    } else {
        millis
    }
}

fn second_or_more(millis: u64) -> (r: u64)
    ensures
        r == at_least_a_second(millis),
{
    if millis < 1000 {
        1000
    } else {
        millis
    }
}

/// The value of the header that carries a token; none for the empty token.
pub open spec fn bearer(token: Seq<char>) -> Option<Seq<char>> {
    if token.len() == 0 {
        None
    } else {
        Some("Bearer "@ + token)
    }
}

/// The value of the header that carries a token; none for the empty token.
pub fn authorization(token: &str) -> (r: Option<String>)
    ensures
        option_text(r) == bearer(token@),
{
    if token.is_empty() {
        None
    } else {
        let mut value = owned("Bearer ");
        value.append(token);
        Some(value)
    }
}

/// The parameters of a heartbeat.
pub fn heartbeat_params() -> (r: Json)
    ensures
        r@ == JsonView::Object(
            no_members().push(("status"@, JsonView::Bool(true))).push(
                ("good"@, JsonView::Bool(true)),
            ),
        ),
{
    Members::new().with("status", Json::Bool(true)).with("good", Json::Bool(true)).object()
}

/// A forward connection.
#[derive(Debug)]
pub struct RunState {
    pub id: u64,
    pub url: String,
    pub token: String,
    pub heartbeat_interval_ms: u64,
    pub reconnect_interval_ms: u64,
    /// Failures to connect in a row.
    pub fail_count: u32,
}

/// What to do after a failure to connect.
#[derive(Clone, Copy, Debug, PartialEq, Eq, Structural)]
pub struct Retry {
    pub delay_ms: u64,
    /// The delay is the long one that follows every fifth failure.
    pub rest: bool,
}

/// What to do after so many failures to connect in a row.
pub open spec fn retry_after(fail_count: int, reconnect_interval_ms: u64) -> Retry {
    if fail_count % 5 == 0 {
        Retry { delay_ms: REST_MILLIS, rest: true }
    } else {
        Retry { delay_ms: reconnect_interval_ms, rest: false }
    }
}

impl RunState {
    /// A forward connection; it waits at least a second before it connects again.
    pub fn new(id: u64, endpoint: &ConnectionConfig) -> (r: RunState)
        ensures
            r.id == id,
            r.url@ == endpoint@.url,
            r.token@ == endpoint@.token,
            r.heartbeat_interval_ms == endpoint@.heartbeat_interval,
            r.reconnect_interval_ms == at_least_a_second(endpoint@.reconnect_interval),
            r.fail_count == 0,
    {
        RunState {
            id,
            url: endpoint.url.clone(),
            token: endpoint.token.clone(),
            heartbeat_interval_ms: endpoint.heartbeat_interval,
            reconnect_interval_ms: second_or_more(endpoint.reconnect_interval),
            fail_count: 0,
        }
    }

    /// Notes a failure to connect and tells how long to wait.
    pub fn connect_failed(&mut self) -> (r: Retry)
        requires
            old(self).fail_count < u32::MAX,
        ensures
            r == retry_after(old(self).fail_count + 1, old(self).reconnect_interval_ms),
            *final(self) == (RunState {
                fail_count: (old(self).fail_count + 1) as u32,
                ..*old(self)
            }),
    {
        self.fail_count = self.fail_count + 1;
        if self.fail_count % 5 == 0 {
            Retry { delay_ms: REST_MILLIS, rest: true }
        } else {
            Retry { delay_ms: self.reconnect_interval_ms, rest: false }
        }
    }

    /// Notes that the connection stands.
    pub fn connected(&mut self)
        ensures
            *final(self) == (RunState { fail_count: 0, ..*old(self) }),
    {
        self.fail_count = 0;
    }

    /// The time between two heartbeats.
    pub fn heartbeat_ms(&self) -> (r: u64)
        ensures
            r == at_least_a_second(self.heartbeat_interval_ms),
    {
        second_or_more(self.heartbeat_interval_ms)
    }
}

/// A reverse HTTP connection.
#[derive(Debug)]
pub struct HttpReverseState {
    pub id: u64,
    pub url: String,
    pub token: String,
    pub heartbeat_interval_ms: u64,
}

impl HttpReverseState {
    /// A reverse HTTP connection.
    pub fn new(id: u64, endpoint: &ConnectionConfig) -> (r: HttpReverseState)
        ensures
            r.id == id,
            r.url@ == endpoint@.url,
            r.token@ == endpoint@.token,
            r.heartbeat_interval_ms == endpoint@.heartbeat_interval,
    {
        HttpReverseState {
            id,
            url: endpoint.url.clone(),
            token: endpoint.token.clone(),
            heartbeat_interval_ms: endpoint.heartbeat_interval,
        }
    }

    /// The time between two heartbeats.
    pub fn heartbeat_ms(&self) -> (r: u64)
        ensures
            r == at_least_a_second(self.heartbeat_interval_ms),
    {
        second_or_more(self.heartbeat_interval_ms)
    }
}

/// The response that a payload carries; any other payload carries none.
pub fn response_of_payload(parsed: Option<ParsedPayload>) -> (r: Option<OneBotActionResponse>)
    ensures
        match parsed {
            Some(ParsedPayload::Response(response)) => r == Some(response),
            _ => r is None,
        },
{
    match parsed {
        Some(ParsedPayload::Response(response)) => Some(response),
        _ => None,
    }
}

/// A connection never waits less than a second before it connects again.
pub proof fn law_retries_are_a_second_apart(fail_count: int, configured: u64)
    ensures
        retry_after(fail_count, at_least_a_second(configured)).delay_ms >= 1000,
{
}

/// A connection rests for half a minute after every fifth failure in a row, and waits as
/// long as it is told, but at least a second, after any other.
pub proof fn law_every_fifth_failure_brings_a_rest(fives: nat, more: int, configured: u64)
    requires
        0 < more < 5,
    ensures
        retry_after(5 * fives as int, at_least_a_second(configured)) == (Retry {
            delay_ms: 30_000,
            rest: true,
        }),
        ({
            let retry = retry_after(5 * fives as int + more, at_least_a_second(configured));
            &&& !retry.rest
            &&& configured >= 1000 ==> retry.delay_ms == configured
            &&& configured < 1000 ==> retry.delay_ms == 1000
        }),
{
}

/// A token is carried by the header that is made for it: the empty one by none, and
/// different ones by different headers.
pub proof fn law_headers_carry_their_tokens(token: Seq<char>, other: Seq<char>)
    ensures
        bearer(token) is None <==> token.len() == 0,
        bearer(token) == bearer(other) <==> token == other,
        bearer(token) matches Some(header) ==> header == "Bearer "@ + token && header.skip(7)
            == token,
{
    reveal_strlit("Bearer ");
    if bearer(token) is Some {
        assert(("Bearer "@ + token).skip(7) =~= token);
    }
    if bearer(token) == bearer(other) {
        if token.len() == 0 {
            assert(token =~= other);
        } else {
            crate::text::lemma_same_start("Bearer "@, token, other);
        }
    }
}

} // verus!
