//! What is done with the events and actions that implementations send.
use crate::config::onebot::OneBotConfig;
use crate::json::{
    as_value, field, json_text, no_members, number, option_text, parsed_json, prints_exactly,
    render_json, text_of, Json, JsonView, Members, JSON_DEPTH,
};
use crate::onebot::connection::{others, ConnectionRegistry};
use crate::onebot::context::{first_quoted, find_quoted, role_of, GroupRole};
use crate::onebot::display::command_line;
use crate::onebot::model::{EventView, OneBotAction, OneBotEvent};
use crate::onebot::protocol::{event_segments, ParsedMessage};
use crate::runtime::config::{answers, Gating};
use crate::runtime::message::{segment_views, MessageSegment, SegmentView};
use crate::text::{decimal, i64_text, is_blank, is_blank_spec, owned, same};
use std::collections::{HashMap, HashSet};
use vstd::prelude::*;
use vstd::string::StringExecFns;

verus! {

broadcast use vstd::std_specs::hash::group_hash_axioms;

// ---------------------------------------------------------------------------
// commands

/// What a command is told of the message that holds it.
#[derive(Debug)]
pub struct CommandContext {
    pub user_id: i64,
    pub group_id: Option<i64>,
    /// The text in which a command is looked for.
    pub text: String,
    pub sender_name: Option<String>,
    /// Whether the sender manages the bot.
    pub is_admin: bool,
    pub sender_role: Option<GroupRole>,
    pub message_id: Option<i64>,
    pub time: i64,
    /// The message that this one quotes.
    pub quoted: Option<i64>,
    pub segments: Vec<MessageSegment>,
}

/// What a command is told.
pub struct CommandView {
    pub user_id: i64,
    pub group_id: Option<i64>,
    pub text: Seq<char>,
    pub sender_name: Option<Seq<char>>,
    pub is_admin: bool,
    pub sender_role: Option<GroupRole>,
    pub message_id: Option<i64>,
    pub time: i64,
    pub quoted: Option<i64>,
    pub segments: Seq<SegmentView>,
}

impl View for CommandContext {
    type V = CommandView;

    open spec fn view(&self) -> CommandView {
        CommandView {
            user_id: self.user_id,
            group_id: self.group_id,
            text: self.text@,
            sender_name: option_text(self.sender_name),
            is_admin: self.is_admin,
            sender_role: self.sender_role,
            message_id: self.message_id,
            time: self.time,
            quoted: self.quoted,
            segments: segment_views(self.segments@),
        }
    }
}

/// The name of a sender for commands: a card that is not blank, else the nickname.
pub open spec fn command_sender(sender: Option<JsonView>) -> Option<Seq<char>> {
    match sender {
        Some(sender) => match text_of(field(sender, "card"@)) {
            Some(card) => if is_blank_spec(card) {
                text_of(field(sender, "nickname"@))
            } else {
                Some(card)
            },
            None => text_of(field(sender, "nickname"@)),
        },
        None => None,
    }
}

fn find_sender_name(sender: &Option<Json>) -> (r: Option<String>)
    ensures
        option_text(r) == command_sender(
            match sender {
                Some(s) => Some(s@),
                None => None,
            },
        ),
{
    match sender {
        Some(sender) => match sender.get_text("card") {
            Some(card) => if is_blank(card.as_str()) {
                sender.get_text("nickname")
            } else {
                Some(card)
            },
            None => sender.get_text("nickname"),
        },
        None => None,
    }
}

/// Where an event goes.
#[derive(Debug)]
pub enum EventRoute {
    /// A message that is not answered.
    Dropped,
    /// To the listeners, unconditionally: notices, requests and meta events.
    Listeners,
    /// To the listeners; then, where they let it pass and there is a text, to the
    /// commands.
    Message { context: CommandContext, has_command: bool },
}

/// Where an event goes.
pub enum RouteView {
    Dropped,
    Listeners,
    Message { context: CommandView, has_command: bool },
}

impl View for EventRoute {
    type V = RouteView;

    open spec fn view(&self) -> RouteView {
        match self {
            EventRoute::Dropped => RouteView::Dropped,
            EventRoute::Listeners => RouteView::Listeners,
            EventRoute::Message { context, has_command } => RouteView::Message {
                context: context@,
                has_command: *has_command,
            },
        }
    }
}

/// Where an event goes. A message goes on where its sender is answered; what is not
/// a message goes to the listeners in any case.
pub open spec fn route_of(event: EventView, gating: Gating, self_id: i64) -> RouteView {
    let config = gating.config@;
    if event.post_type != "message"@ {
        RouteView::Listeners
    } else {
        match event.user_id {
            Some(user_id) => if answers(config, user_id, event.group_id) {
                let segments = event_segments(event);
                RouteView::Message {
                    context: CommandView {
                        user_id,
                        group_id: event.group_id,
                        text: command_line(segments, self_id),
                        sender_name: command_sender(event.sender),
                        is_admin: config.managers.contains(user_id),
                        sender_role: role_of(event.sender),
                        message_id: event.message_id,
                        time: event.time,
                        quoted: first_quoted(segments),
                        segments,
                    },
                    has_command: command_line(segments, self_id).len() > 0,
                }
            } else {
                RouteView::Dropped
            },
            None => RouteView::Dropped,
        }
    }
}

// ---------------------------------------------------------------------------
// notices

/// What the framework itself does about a notice.
#[derive(Debug)]
pub struct NoticeReaction {
    /// What is shown on the console.
    pub line: Option<String>,
    /// The group that is taken off the list.
    pub leave: Option<i64>,
}

/// A number, or a question mark.
pub open spec fn number_or_mark(n: Option<i64>) -> Seq<char> {
    match n {
        Some(n) => decimal(n as int),
        None => "?"@,
    }
}

/// The line shown for a notice.
pub open spec fn notice_line(event: EventView, self_id: i64) -> Option<Seq<char>> {
    let own = event.user_id == Some(self_id);
    if event.notice_type == Some("group_increase"@) {
        if own {
            Some("机器人已加入群 "@ + number_or_mark(event.group_id))
        } else {
            Some(
                "成员 "@ + number_or_mark(event.user_id) + " 加入了群 "@ + number_or_mark(
                    event.group_id,
                ),
            )
        }
    } else if event.notice_type == Some("group_decrease"@) {
        if own {
            match event.group_id {
                Some(group_id) => Some(
                    "机器人已被移出群 "@ + decimal(group_id as int)
                        + "，正在从 groups 配置中移除"@,
                ),
                None => None,
            }
        } else {
            Some(
                "成员 "@ + number_or_mark(event.user_id) + " 退出了群 "@ + number_or_mark(
                    event.group_id,
                ),
            )
        }
    } else {
        None
    }
}

/// The group that a notice takes off the list: the one that the bot has left.
pub open spec fn left_group(event: EventView, self_id: i64) -> Option<i64> {
    if event.notice_type == Some("group_decrease"@) && event.user_id == Some(self_id) {
        event.group_id
    } else {
        None
    }
}

fn mark_number(n: Option<i64>) -> (r: String)
    ensures
        r@ == number_or_mark(n),
{
    match n {
        Some(n) => i64_text(n),
        None => owned("?"),
    }
}

fn is_text(text: &Option<String>, expected: &str) -> (r: bool)
    ensures
        r == (option_text(*text) == Some(expected@)),
{
    match text {
        Some(t) => same(t.as_str(), expected),
        None => false,
    }
}

/// Tells what the framework itself does about a notice.
pub fn handle_notice(event: &OneBotEvent, self_id: i64) -> (r: NoticeReaction)
    ensures
        option_text(r.line) == notice_line(event@, self_id),
        r.leave == left_group(event@, self_id),
{
    let own = match event.user_id {
        Some(user_id) => user_id == self_id,
        None => false,
    };
    proof {
        reveal_strlit("group_increase");
        reveal_strlit("group_decrease");
        assert("group_increase"@[6] == 'i' && "group_decrease"@[6] == 'd');
    }
    if is_text(&event.notice_type, "group_increase") {
        let line = if own {
            let mut line = owned("机器人已加入群 ");
            line.append(mark_number(event.group_id).as_str());
            line
        } else {
            let mut line = owned("成员 ");
            line.append(mark_number(event.user_id).as_str());
            line.append(" 加入了群 ");
            line.append(mark_number(event.group_id).as_str());
            line
        };
        NoticeReaction { line: Some(line), leave: None }
    } else if is_text(&event.notice_type, "group_decrease") {
        if own {
            match event.group_id {
                Some(group_id) => {
                    let mut line = owned("机器人已被移出群 ");
                    line.append(i64_text(group_id).as_str());
                    line.append("，正在从 groups 配置中移除");
                    NoticeReaction { line: Some(line), leave: Some(group_id) }
                },
                None => NoticeReaction { line: None, leave: None },
            }
        } else {
            let mut line = owned("成员 ");
            line.append(mark_number(event.user_id).as_str());
            line.append(" 退出了群 ");
            line.append(mark_number(event.group_id).as_str());
            NoticeReaction { line: Some(line), leave: None }
        }
    } else {
        NoticeReaction { line: None, leave: None }
    }
}

// ---------------------------------------------------------------------------
// names of groups

/// The names of groups as far as they are known, and the groups whose names are
/// being asked for.
#[derive(Debug)]
pub struct HandlerState {
    pub group_names: HashMap<i64, String>,
    pub group_name_loading: HashSet<i64>,
}

/// How a message in a group is shown, and whether its name is to be asked for.
#[derive(Debug)]
pub struct GroupLine {
    pub name: Option<String>,
    pub load: bool,
}

/// The name of the group that an event itself gives.
pub open spec fn given_group_name(event: EventView) -> Option<Seq<char>> {
    match text_of(field(event.raw, "group_name"@)) {
        Some(name) => if is_blank_spec(name) {
            None
        } else {
            Some(name)
        },
        None => None,
    }
}

/// Whether a message is shown as one in a group.
pub open spec fn shown_as_group(event: EventView) -> bool {
    event.message_type == Some("group"@) && event.group_id is Some
}

/// How a message in a group is shown: with the known name, else with the name that
/// the event gives, which is then known, else without one. Only in the last case is
/// the name asked for, and only once at a time.
pub open spec fn shows_group(
    before: HandlerState,
    after: HandlerState,
    event: EventView,
    group_id: i64,
    line: GroupLine,
) -> bool {
    let known = before.group_names@.contains_key(group_id);
    let given = given_group_name(event);
    let asked = before.group_name_loading@.contains(group_id);
    &&& option_text(line.name) == if known {
        Some(before.group_names@[group_id]@)
    } else {
        given
    }
    &&& line.load == (!known && given is None && !asked)
    &&& known || given is None ==> after.group_names@ == before.group_names@
    &&& !known && given is Some ==> after.group_names@.contains_key(group_id)
        && after.group_names@[group_id]@ == given->0 && after.group_names@.remove(group_id)
        == before.group_names@
    &&& after.group_name_loading@ == if line.load {
        before.group_name_loading@.insert(group_id)
    } else {
        before.group_name_loading@
    }
}

impl HandlerState {
    /// No name is known.
    pub fn new() -> (r: HandlerState)
        ensures
            r.group_names@ == Map::<i64, String>::empty(),
            r.group_name_loading@ == Set::<i64>::empty(),
    {
        HandlerState { group_names: HashMap::new(), group_name_loading: HashSet::new() }
    }

    /// How a message in a group is shown: with the known name, else with the name
    /// that the event gives, else without one. Only in the last case is the name
    /// asked for, and only once at a time.
    pub fn group_line(&mut self, event: &OneBotEvent, group_id: i64) -> (r: GroupLine)
        ensures
            shows_group(*old(self), *final(self), event@, group_id, r),
    {
        if let Some(name) = self.group_names.get(&group_id) {
            return GroupLine { name: Some(name.clone()), load: false };
        }
        if let Some(name) = event.raw.get_text("group_name") {
            if !is_blank(name.as_str()) {
                self.group_names.insert(group_id, name.clone());
                assert(self.group_names@.remove(group_id) =~= old(self).group_names@);
                return GroupLine { name: Some(name), load: false };
            }
        }
        if self.group_name_loading.contains(&group_id) {
            GroupLine { name: None, load: false }
        } else {
            self.group_name_loading.insert(group_id);
            GroupLine { name: None, load: true }
        }
    }

    /// Takes in the data that came for the name of a group; without a name in it the
    /// number of the group stands for it.
    pub fn group_name_loaded(&mut self, group_id: i64, data: Option<&Json>)
        ensures
            final(self).group_names@.contains_key(group_id),
            final(self).group_names@[group_id]@ == match data {
                Some(data) => match text_of(field(data@, "group_name"@)) {
                    Some(name) => name,
                    None => decimal(group_id as int),
                },
                None => decimal(group_id as int),
            },
            final(self).group_names@.remove(group_id) == old(self).group_names@.remove(group_id),
            final(self).group_name_loading@ == old(self).group_name_loading@.remove(group_id),
    {
        let name = match data {
            Some(data) => match data.get_text("group_name") {
                Some(name) => name,
                None => i64_text(group_id),
            },
            None => i64_text(group_id),
        };
        self.group_names.insert(group_id, name);
        self.group_name_loading.remove(&group_id);
    }
}

/// The parameters with which the name of a group is asked for.
pub fn group_name_params(group_id: i64) -> (r: Json)
    ensures
        r@ == JsonView::Object(no_members().push(("group_id"@, number(group_id as int)))),
{
    Json::object_of("group_id", Json::signed(group_id))
}

// ---------------------------------------------------------------------------
// the handler

/// Handles what implementations send.
#[derive(Debug)]
pub struct StandaloneBusinessHandler {
    pub config: OneBotConfig,
    pub state: HandlerState,
}

/// What is done about an event.
#[derive(Debug)]
pub struct EventPlan {
    /// The connections to which it goes on, and in which form.
    pub forward_to: Vec<u64>,
    pub payload: String,
    /// What the framework itself does, where it is a notice.
    pub notice: Option<NoticeReaction>,
    /// How it is shown, where it is a message.
    pub shown: Option<GroupLine>,
    pub route: EventRoute,
}

/// The answer to an action that an implementation requests; `None` for an action
/// that is not known.
pub open spec fn action_answer(
    action: Seq<char>,
    self_id: i64,
    nickname: Seq<char>,
) -> Option<JsonView> {
    if action == "get_status"@ {
        Some(
            JsonView::Object(
                no_members().push(("online"@, JsonView::Bool(true))).push(
                    ("good"@, JsonView::Bool(true)),
                ),
            ),
        )
    } else if action == "get_version_info"@ {
        Some(
            JsonView::Object(
                no_members().push(("app_name"@, JsonView::Text("arona"@))).push(
                    ("app_version"@, JsonView::Text("standalone"@)),
                ).push(("protocol_version"@, JsonView::Text("11"@))),
            ),
        )
    } else if action == "get_login_info"@ {
        Some(
            JsonView::Object(
                no_members().push(("user_id"@, number(self_id as int))).push(
                    ("nickname"@, JsonView::Text(nickname)),
                ),
            ),
        )
    } else {
        None
    }
}

impl StandaloneBusinessHandler {
    /// A handler that knows no names of groups.
    pub fn new(config: OneBotConfig) -> (r: StandaloneBusinessHandler)
        ensures
            r.config == config,
            r.state.group_names@ == Map::<i64, String>::empty(),
            r.state.group_name_loading@ == Set::<i64>::empty(),
    {
        StandaloneBusinessHandler { config, state: HandlerState::new() }
    }

    /// The configuration in force.
    pub fn config(&self) -> (r: &OneBotConfig)
        ensures
            *r == self.config,
    {
        &self.config
    }

    /// Puts another configuration in force.
    pub fn update_config(&mut self, config: OneBotConfig)
        ensures
            final(self).config == config,
            final(self).state == old(self).state,
    {
        self.config = config;
    }

    /// Takes in an event that came by a connection: tells to which other connections
    /// it goes on, what the framework does about it, how it is shown, and where it
    /// goes.
    pub fn on_event(
        &mut self,
        event: &OneBotEvent,
        connection: u64,
        registry: &ConnectionRegistry,
        gating: &Gating,
    ) -> (r: EventPlan)
        ensures
            r.forward_to@ == others(registry.connections@, connection),
            r.payload@ == json_text(as_value(event@.raw)),
            prints_exactly(event@.raw, JSON_DEPTH as int) ==> parsed_json(r.payload@) == Some(
                as_value(event@.raw),
            ),
            r.route@ == route_of(event@, *gating, old(self).config.self_id),
            match r.notice {
                Some(notice) => event@.post_type == "notice"@ && option_text(notice.line)
                    == notice_line(event@, old(self).config.self_id) && notice.leave == left_group(
                    event@,
                    old(self).config.self_id,
                ),
                None => event@.post_type != "notice"@,
            },
            match r.shown {
                Some(shown) => event@.post_type == "message"@ && if shown_as_group(event@) {
                    shows_group(
                        old(self).state,
                        final(self).state,
                        event@,
                        event@.group_id->0,
                        shown,
                    )
                } else {
                    shown.name is None && !shown.load && final(self).state == old(self).state
                },
                None => event@.post_type != "message"@ && final(self).state == old(self).state,
            },
            final(self).config == old(self).config,
    {
        let forward_to = registry.broadcast_except(connection);
        let payload = render_json(&event.raw);
        let route = self.route(event, gating);
        let notice = if same(event.post_type.as_str(), "notice") {
            Some(handle_notice(event, self.config.self_id))
        } else {
            None
        };
        let shown = if same(event.post_type.as_str(), "message") {
            Some(self.print_group_message(event))
        } else {
            None
        };
        EventPlan { forward_to, payload, notice, shown, route }
    }

    /// How a message is shown: one in a group with the name of the group, where it is
    /// known, and any other without one.
    fn print_group_message(&mut self, event: &OneBotEvent) -> (r: GroupLine)
        ensures
            final(self).config == old(self).config,
            if shown_as_group(event@) {
                shows_group(
                    old(self).state,
                    final(self).state,
                    event@,
                    event@.group_id->0,
                    r,
                )
            } else {
                r.name is None && !r.load && final(self).state == old(self).state
            },
    {
        if is_text(&event.message_type, "group") {
            if let Some(group_id) = event.group_id {
                return self.state.group_line(event, group_id);
            }
        }
        GroupLine { name: None, load: false }
    }

    /// Tells where an event goes.
    pub fn route(&self, event: &OneBotEvent, gating: &Gating) -> (r: EventRoute)
        ensures
            r@ == route_of(event@, *gating, self.config.self_id),
    {
        if !same(event.post_type.as_str(), "message") {
            return EventRoute::Listeners;
        }
        let user_id = match event.user_id {
            Some(user_id) => user_id,
            None => {
                return EventRoute::Dropped;
            },
        };
        if !gating.answers(user_id, event.group_id) {
            return EventRoute::Dropped;
        }
        let parsed = ParsedMessage::parse(event, self.config.self_id);
        let quoted = find_quoted(&parsed.segments);
        let sender_role = match &event.sender {
            Some(sender) => GroupRole::from_sender(sender),
            None => None,
        };
        let has_command = !parsed.command_text.as_str().is_empty();
        EventRoute::Message {
            context: CommandContext {
                user_id,
                group_id: event.group_id,
                text: parsed.command_text,
                sender_name: find_sender_name(&event.sender),
                is_admin: gating.is_manager(user_id),
                sender_role,
                message_id: event.message_id,
                time: event.time,
                quoted,
                segments: parsed.segments,
            },
            has_command,
        }
    }

    /// Answers an action that an implementation requests; `None` for an action that
    /// is not known.
    pub fn handle_action(&self, action: &OneBotAction) -> (r: Option<Json>)
        ensures
            crate::json::option_view(r) == action_answer(
                action.action@,
                self.config.self_id,
                self.config.nickname@,
            ),
    {
        let name = action.action.as_str();
        if same(name, "get_status") {
            Some(
                Members::new().with("online", Json::Bool(true)).with(
                    "good",
                    Json::Bool(true),
                ).object(),
            )
        } else if same(name, "get_version_info") {
            Some(
                Members::new().with("app_name", Json::text("arona")).with(
                    "app_version",
                    Json::text("standalone"),
                ).with("protocol_version", Json::text("11")).object(),
            )
        } else if same(name, "get_login_info") {
            Some(
                Members::new().with("user_id", Json::signed(self.config.self_id)).with(
                    "nickname",
                    Json::text(self.config.nickname.as_str()),
                ).object(),
            )
        } else {
            None
        }
    }
}

/// A message from a user on the blacklist goes nowhere, unless the user manages the
/// bot.
pub proof fn law_blacklisted_users_are_dropped(
    event: EventView,
    gating: Gating,
    self_id: i64,
    user_id: i64,
)
    requires
        event.post_type == "message"@,
        event.user_id == Some(user_id),
        crate::runtime::config::blacklisted(gating.config@, user_id, event.group_id),
        !gating.config@.managers.contains(user_id),
    ensures
        route_of(event, gating, self_id) == RouteView::Dropped,
{
}

/// A message in a group is shown at once: whatever is known of the group, showing it
/// waits for nothing, and its name is asked for at most once at a time.
pub proof fn law_a_name_is_asked_for_once(
    before: HandlerState,
    after: HandlerState,
    event: EventView,
    group_id: i64,
    line: GroupLine,
)
    requires
        shows_group(before, after, event, group_id, line),
        line.load,
    ensures
        forall|last: HandlerState, next: GroupLine, other: EventView|
            #[trigger] shows_group(after, last, other, group_id, next) ==> !next.load,
{
}

/// Notices, requests and meta events reach the listeners whoever causes them.
pub proof fn law_other_events_always_reach_listeners(
    event: EventView,
    gating: Gating,
    self_id: i64,
)
    requires
        event.post_type != "message"@,
    ensures
        route_of(event, gating, self_id) == RouteView::Listeners,
{
}

/// A command is told of the very event that holds it: whoever sent it, in which group,
/// under which number and when, whether the sender manages the bot, and what the message
/// shows.
pub proof fn law_commands_are_told_of_their_event(
    event: EventView,
    gating: Gating,
    self_id: i64,
)
    ensures
        route_of(event, gating, self_id) matches RouteView::Message { context, has_command } ==> {
            &&& event.user_id == Some(context.user_id)
            &&& context.group_id == event.group_id
            &&& context.message_id == event.message_id
            &&& context.time == event.time
            &&& context.segments == event_segments(event)
            &&& context.is_admin <==> gating.config.managers@.contains(context.user_id)
            &&& context.text == command_line(event_segments(event), self_id)
            &&& has_command <==> context.text.len() != 0
        },
{
}

/// Two messages that differ in their sender, group, number, time or content are told
/// apart by the commands.
pub proof fn law_commands_tell_events_apart(
    one: EventView,
    other: EventView,
    gating: Gating,
    self_id: i64,
)
    requires
        route_of(one, gating, self_id) is Message,
        route_of(one, gating, self_id) == route_of(other, gating, self_id),
    ensures
        one.user_id == other.user_id,
        one.group_id == other.group_id,
        one.message_id == other.message_id,
        one.time == other.time,
        event_segments(one) == event_segments(other),
{
}

/// A message goes on just where somebody sent it who manages the bot, or who is on no
/// blacklist and writes to the bot alone or in a group that is answered; else it goes
/// nowhere.
pub proof fn law_who_is_answered(event: EventView, gating: Gating, self_id: i64, user_id: i64)
    requires
        event.post_type == "message"@,
    ensures
        event.user_id is None ==> route_of(event, gating, self_id) is Dropped,
        event.user_id == Some(user_id) ==> {
            let config = gating.config@;
            let setting = match event.group_id {
                Some(group) => if config.group_settings.contains_key(decimal(group as int)) {
                    Some(config.group_settings[decimal(group as int)])
                } else {
                    None
                },
                None => None,
            };
            let kept_out = config.global_blacklist.contains(user_id) || (setting matches Some(set)
                && set.blacklist.contains(user_id)) || (event.group_id matches Some(group)
                && config.groups.len() > 0 && !config.groups.contains(group));
            if config.managers.contains(user_id) || !kept_out {
                route_of(event, gating, self_id) is Message
            } else {
                route_of(event, gating, self_id) is Dropped
            }
        },
{
}

/// The sender of a command is named by the card, where it says something, and else by
/// the nickname; without either there is no name. The role is the one that the sender
/// has.
pub proof fn law_senders_are_named(
    event: EventView,
    gating: Gating,
    self_id: i64,
    sender: JsonView,
    card: Seq<char>,
    nickname: Seq<char>,
)
    requires
        event.sender == Some(sender),
    ensures
        route_of(event, gating, self_id) matches RouteView::Message { context, .. } ==> {
            &&& field(sender, "card"@) == Some(JsonView::Text(card)) && !is_blank_spec(card)
                ==> context.sender_name == Some(card)
            &&& field(sender, "card"@) == Some(JsonView::Text(card)) && is_blank_spec(card)
                && field(sender, "nickname"@) == Some(JsonView::Text(nickname))
                ==> context.sender_name == Some(nickname)
            &&& field(sender, "card"@) is None && field(sender, "nickname"@) == Some(
                JsonView::Text(nickname),
            ) ==> context.sender_name == Some(nickname)
            &&& field(sender, "card"@) is None && field(sender, "nickname"@) is None
                ==> context.sender_name is None
            &&& field(sender, "role"@) == Some(JsonView::Text("owner"@)) ==> context.sender_role
                == Some(GroupRole::Owner)
            &&& field(sender, "role"@) == Some(JsonView::Text("admin"@)) ==> context.sender_role
                == Some(GroupRole::Admin)
            &&& field(sender, "role"@) == Some(JsonView::Text("member"@)) ==> context.sender_role
                == Some(GroupRole::Member)
            &&& field(sender, "role"@) is None ==> context.sender_role is None
        },
{
    reveal_strlit("owner");
    reveal_strlit("admin");
    reveal_strlit("member");
    assert("owner"@[0] == 'o' && "admin"@[0] == 'a' && "member"@[0] == 'm');
}

/// A group is taken off the list just where the bot itself has left it, and then it is
/// that group; the line that is shown for it names the group.
pub proof fn law_only_the_bot_leaving_takes_a_group_off(
    event: EventView,
    self_id: i64,
    group_id: i64,
)
    ensures
        left_group(event, self_id) == Some(group_id) <==> event.notice_type == Some(
            "group_decrease"@,
        ) && event.user_id == Some(self_id) && event.group_id == Some(group_id),
        left_group(event, self_id) is Some ==> notice_line(event, self_id) is Some,
        notice_line(event, self_id) is Some ==> event.notice_type == Some("group_increase"@)
            || event.notice_type == Some("group_decrease"@),
        event.notice_type == Some("group_increase"@) ==> notice_line(event, self_id) is Some,
{
    reveal_strlit("group_increase");
    reveal_strlit("group_decrease");
    assert("group_increase"@[6] == 'i' && "group_decrease"@[6] == 'd');
}

/// Whoever asks who the bot is gets its own number and name, and these tell bots apart.
pub proof fn law_login_info_names_the_bot(self_id: i64, nickname: Seq<char>)
    ensures
        action_answer("get_login_info"@, self_id, nickname) matches Some(info) && field(
            info,
            "user_id"@,
        ) == Some(number(self_id as int)) && field(info, "nickname"@) == Some(
            JsonView::Text(nickname),
        ),
        action_answer("get_status"@, self_id, nickname) matches Some(status) && field(
            status,
            "online"@,
        ) == Some(JsonView::Bool(true)) && field(status, "good"@) == Some(JsonView::Bool(true)),
        action_answer("get_version_info"@, self_id, nickname) matches Some(version) && field(
            version,
            "app_name"@,
        ) == Some(JsonView::Text("arona"@)) && field(version, "protocol_version"@) == Some(
            JsonView::Text("11"@),
        ),
{
    reveal_strlit("get_status");
    reveal_strlit("get_version_info");
    reveal_strlit("get_login_info");
    reveal_strlit("user_id");
    reveal_strlit("nickname");
    reveal_strlit("online");
    reveal_strlit("good");
    reveal_with_fuel(crate::json::lookup, 3);
    assert("get_status"@.len() == 10 && "get_version_info"@.len() == 16
        && "get_login_info"@.len() == 14);
    assert("user_id"@.len() == 7 && "nickname"@.len() == 8 && "online"@.len() == 6
        && "good"@.len() == 4);
    let info = action_answer("get_login_info"@, self_id, nickname)->0->Object_0;
    assert(info.subrange(1, 2)[0] == info[1]);
    let status = action_answer("get_status"@, self_id, nickname)->0->Object_0;
    assert(status.subrange(1, 2)[0] == status[1]);
    reveal_with_fuel(crate::json::lookup, 4);
    reveal_strlit("app_name");
    reveal_strlit("app_version");
    reveal_strlit("protocol_version");
    assert("app_name"@.len() == 8 && "app_version"@.len() == 11 && "protocol_version"@.len() == 16);
    let version = action_answer("get_version_info"@, self_id, nickname)->0->Object_0;
    let rest = version.subrange(1, 3);
    assert(rest[0] == version[1]);
    assert(rest.subrange(1, 2)[0] == version[2]);
}

/// The line that is shown for a notice names who came to which group or left it, and says
/// of the bot itself that it did.
pub proof fn law_notices_name_who_and_where(
    event: EventView,
    self_id: i64,
    user: i64,
    group: i64,
)
    requires
        event.user_id == Some(user),
        event.group_id == Some(group),
    ensures
        event.notice_type == Some("group_increase"@) && user != self_id ==> notice_line(
            event,
            self_id,
        ) == Some(
            "成员 "@ + decimal(user as int) + " 加入了群 "@ + decimal(group as int),
        ),
        event.notice_type == Some("group_increase"@) && user == self_id ==> notice_line(
            event,
            self_id,
        ) == Some("机器人已加入群 "@ + decimal(group as int)),
        event.notice_type == Some("group_decrease"@) && user != self_id ==> notice_line(
            event,
            self_id,
        ) == Some(
            "成员 "@ + decimal(user as int) + " 退出了群 "@ + decimal(group as int),
        ),
        event.notice_type == Some("group_decrease"@) && user == self_id ==> notice_line(
            event,
            self_id,
        ) == Some(
            "机器人已被移出群 "@ + decimal(group as int) + "，正在从 groups 配置中移除"@,
        ),
{
    reveal_strlit("group_increase");
    reveal_strlit("group_decrease");
    assert("group_increase"@[6] == 'i' && "group_decrease"@[6] == 'd');
}

/// A message in a group is shown with the name that is known, else with the one that comes
/// with it, which is then known; else the name is asked for, unless that goes on already.
pub proof fn law_groups_are_shown_by_name(
    before: HandlerState,
    after: HandlerState,
    event: EventView,
    group_id: i64,
    line: GroupLine,
    name: Seq<char>,
)
    requires
        shows_group(before, after, event, group_id, line),
    ensures
        before.group_names@.contains_key(group_id) ==> option_text(line.name) == Some(
            before.group_names@[group_id]@,
        ) && !line.load,
        !before.group_names@.contains_key(group_id) && field(event.raw, "group_name"@) == Some(
            JsonView::Text(name),
        ) && !is_blank_spec(name) ==> option_text(line.name) == Some(name) && !line.load
            && after.group_names@.contains_key(group_id) && after.group_names@[group_id]@ == name,
        !before.group_names@.contains_key(group_id) && field(event.raw, "group_name"@) is None
            ==> line.name is None && (line.load <==> !before.group_name_loading@.contains(group_id))
            && after.group_name_loading@.contains(group_id),
{
}

} // verus!
