//! The configuration of the connections.
use crate::collections::{entries_map, keys_ascend, TextMap};
use crate::config::section::{keys_listed, lemma_lists_is_contains, SectionRegistry};
use crate::text::{
    contains_text, decimal, holds, i64_text, lemma_holds_on, owned, same, texts, trim, trim_spec, u64_text,
};
use crate::yaml::{entry_views, key_text, lemma_mapping_view, mapping_of, Yaml, YamlView};
use vstd::prelude::*;
use vstd::string::StringExecFns;

verus! {

// ---------------------------------------------------------------------------
// types of connections

/// How the bot and an implementation connect.
#[derive(Clone, Copy, Debug, PartialEq, Eq, Structural)]
pub enum ConnectionType {
    WebSocket,
    WebSocketReverse,
    Http,
    HttpReverse,
}

/// The name of a type in the file.
pub open spec fn type_key(kind: ConnectionType) -> Seq<char> {
    match kind {
        ConnectionType::WebSocket => "ws-forward"@,
        ConnectionType::WebSocketReverse => "ws-reverse"@,
        ConnectionType::Http => "http"@,
        ConnectionType::HttpReverse => "http-reverse"@,
    }
}

/// The type that a name stands for.
pub open spec fn type_named(name: Seq<char>) -> Option<ConnectionType> {
    if name == "ws-forward"@ {
        Some(ConnectionType::WebSocket)
    } else if name == "ws-reverse"@ {
        Some(ConnectionType::WebSocketReverse)
    } else if name == "http"@ {
        Some(ConnectionType::Http)
    } else if name == "http-reverse"@ {
        Some(ConnectionType::HttpReverse)
    } else {
        None
    }
}

/// What is said of a name that stands for no type.
pub open spec fn unknown_type_text(name: Seq<char>) -> Seq<char> {
    "未知的连接类型: "@ + name + "（可选: ws-forward、ws-reverse、http、http-reverse）"@
}

impl ConnectionType {
    /// The name of the type in the file.
    pub fn key(self) -> (r: &'static str)
        ensures
            r@ == type_key(self),
    {
        match self {
            ConnectionType::WebSocket => "ws-forward",
            ConnectionType::WebSocketReverse => "ws-reverse",
            ConnectionType::Http => "http",
            ConnectionType::HttpReverse => "http-reverse",
        }
    }

    /// The name shown for the type.
    pub fn display_name(self) -> (r: &'static str)
        ensures
            r@ == match self {
                ConnectionType::WebSocket => "WebSocket 正向"@,
                ConnectionType::WebSocketReverse => "WebSocket 反向"@,
                ConnectionType::Http => "HTTP 正向"@,
                ConnectionType::HttpReverse => "HTTP 反向"@,
            },
    {
        match self {
            ConnectionType::WebSocket => "WebSocket 正向",
            ConnectionType::WebSocketReverse => "WebSocket 反向",
            ConnectionType::Http => "HTTP 正向",
            ConnectionType::HttpReverse => "HTTP 反向",
        }
    }

    /// The type that a name stands for.
    pub fn from_name(name: &str) -> (r: Result<ConnectionType, String>)
        ensures
            match r {
                Ok(kind) => type_named(name@) == Some(kind),
                Err(error) => type_named(name@) is None && error@ == unknown_type_text(name@),
            },
    {
        if same(name, "ws-forward") {
            Ok(ConnectionType::WebSocket)
        } else if same(name, "ws-reverse") {
            Ok(ConnectionType::WebSocketReverse)
        } else if same(name, "http") {
            Ok(ConnectionType::Http)
        } else if same(name, "http-reverse") {
            Ok(ConnectionType::HttpReverse)
        } else {
            let mut error = owned("未知的连接类型: ");
            error.append(name);
            error.append("（可选: ws-forward、ws-reverse、http、http-reverse）");
            Err(error)
        }
    }

    /// All types.
    pub fn all() -> (r: Vec<ConnectionType>)
        ensures
            r@ == seq![
                ConnectionType::WebSocket,
                ConnectionType::WebSocketReverse,
                ConnectionType::Http,
                ConnectionType::HttpReverse,
            ],
    {
        let mut all: Vec<ConnectionType> = Vec::new();
        all.push(ConnectionType::WebSocket);
        all.push(ConnectionType::WebSocketReverse);
        all.push(ConnectionType::Http);
        all.push(ConnectionType::HttpReverse);
        assert(all@ =~= seq![
            ConnectionType::WebSocket,
            ConnectionType::WebSocketReverse,
            ConnectionType::Http,
            ConnectionType::HttpReverse,
        ]);
        all
    }
}

/// The name of a type stands for that type.
pub proof fn law_type_names_read_back(kind: ConnectionType)
    ensures
        type_named(type_key(kind)) == Some(kind),
{
    reveal_strlit("ws-forward");
    reveal_strlit("ws-reverse");
    reveal_strlit("http");
    reveal_strlit("http-reverse");
    assert("ws-forward"@[3] == 'f' && "ws-reverse"@[3] == 'r');
    assert("http"@.len() == 4 && "http-reverse"@.len() == 12);
    assert("http"@[0] == 'h' && "http-reverse"@[0] == 'h' && "ws-forward"@[0] == 'w'
        && "ws-reverse"@[0] == 'w');
}

// ---------------------------------------------------------------------------
// one connection

/// One connection.
#[derive(Debug)]
pub struct ConnectionConfig {
    /// The name of its type; empty where the key of the connection names it.
    pub connection_type: String,
    pub enable: bool,
    pub host: String,
    pub port: u16,
    pub url: String,
    pub path: String,
    pub token: String,
    /// In milliseconds.
    pub heartbeat_interval: u64,
    /// In milliseconds.
    pub reconnect_interval: u64,
}

/// What a connection is.
pub struct ConnectionView {
    pub connection_type: Seq<char>,
    pub enable: bool,
    pub host: Seq<char>,
    pub port: u16,
    pub url: Seq<char>,
    pub path: Seq<char>,
    pub token: Seq<char>,
    pub heartbeat_interval: u64,
    pub reconnect_interval: u64,
}

impl View for ConnectionConfig {
    type V = ConnectionView;

    open spec fn view(&self) -> ConnectionView {
        ConnectionView {
            connection_type: self.connection_type@,
            enable: self.enable,
            host: self.host@,
            port: self.port,
            url: self.url@,
            path: self.path@,
            token: self.token@,
            heartbeat_interval: self.heartbeat_interval,
            reconnect_interval: self.reconnect_interval,
        }
    }
}

/// A connection of which nothing is said.
pub open spec fn bare_connection() -> ConnectionView {
    ConnectionView {
        connection_type: Seq::empty(),
        enable: false,
        host: "0.0.0.0"@,
        port: 0,
        url: Seq::empty(),
        path: "/"@,
        token: Seq::empty(),
        heartbeat_interval: 30_000,
        reconnect_interval: 5_000,
    }
}

impl Default for ConnectionConfig {
    fn default() -> (r: ConnectionConfig)
        ensures
            r@ == bare_connection(),
    {
        ConnectionConfig {
            connection_type: String::new(),
            enable: false,
            host: owned("0.0.0.0"),
            port: 0,
            url: String::new(),
            path: owned("/"),
            token: String::new(),
            heartbeat_interval: 30_000,
            reconnect_interval: 5_000,
        }
    }
}

/// A connection of a type, as it comes in a new file.
pub open spec fn standard_connection(kind: ConnectionType) -> ConnectionView {
    match kind {
        ConnectionType::WebSocket => ConnectionView {
            connection_type: type_key(kind),
            host: "127.0.0.1"@,
            url: "ws://127.0.0.1:6700"@,
            ..bare_connection()
        },
        ConnectionType::WebSocketReverse => ConnectionView {
            connection_type: type_key(kind),
            port: 6701,
            path: "/onebot/v11"@,
            ..bare_connection()
        },
        ConnectionType::Http => ConnectionView {
            connection_type: type_key(kind),
            port: 5700,
            path: "/"@,
            ..bare_connection()
        },
        ConnectionType::HttpReverse => ConnectionView {
            connection_type: type_key(kind),
            url: "http://127.0.0.1:5701/onebot"@,
            ..bare_connection()
        },
    }
}

/// A connection of a type, as it comes in a new file.
pub fn default_connection(conn_type: ConnectionType) -> (r: ConnectionConfig)
    ensures
        r@ == standard_connection(conn_type),
{
    let mut conn = ConnectionConfig::default();
    conn.connection_type = owned(conn_type.key());
    match conn_type {
        ConnectionType::WebSocket => {
            conn.host = owned("127.0.0.1");
            conn.url = owned("ws://127.0.0.1:6700");
        },
        ConnectionType::WebSocketReverse => {
            conn.port = 6701;
            conn.path = owned("/onebot/v11");
        },
        ConnectionType::Http => {
            conn.port = 5700;
            conn.path = owned("/");
        },
        ConnectionType::HttpReverse => {
            conn.url = owned("http://127.0.0.1:5701/onebot");
        },
    }
    conn
}

/// The name of the type of a connection: its own, trimmed, else its key.
pub open spec fn type_name_of(conn: ConnectionView, key: Seq<char>) -> Seq<char> {
    if trim_spec(conn.connection_type).len() == 0 {
        key
    } else {
        trim_spec(conn.connection_type)
    }
}

/// The type of a connection.
pub open spec fn type_of(conn: ConnectionView, key: Seq<char>) -> Option<ConnectionType> {
    type_named(type_name_of(conn, key))
}

/// The address shown for a connection.
pub open spec fn address_of(conn: ConnectionView, kind: ConnectionType) -> Seq<char> {
    match kind {
        ConnectionType::WebSocket => conn.url,
        ConnectionType::HttpReverse => conn.url,
        _ => conn.host + ":"@ + decimal(conn.port as int) + conn.path,
    }
}

impl ConnectionConfig {
    /// The type of the connection: its own, else the one that its key names.
    pub fn resolve_type(&self, key: &str) -> (r: Result<ConnectionType, String>)
        ensures
            match r {
                Ok(kind) => type_of(self@, key@) == Some(kind),
                Err(error) => type_of(self@, key@) is None && error@ == unknown_type_text(
                    type_name_of(self@, key@),
                ),
            },
    {
        let name = trim(self.connection_type.as_str());
        if name.as_str().is_empty() {
            ConnectionType::from_name(key)
        } else {
            ConnectionType::from_name(name.as_str())
        }
    }

    /// The address shown for the connection.
    pub fn address(&self, conn_type: ConnectionType) -> (r: String)
        ensures
            r@ == address_of(self@, conn_type),
    {
        match conn_type {
            ConnectionType::WebSocket => self.url.clone(),
            ConnectionType::HttpReverse => self.url.clone(),
            _ => {
                let mut out = self.host.clone();
                out.append(":");
                out.append(u64_text(self.port as u64).as_str());
                out.append(self.path.as_str());
                out
            },
        }
    }

    /// A copy of the connection.
    pub fn copy(&self) -> (r: ConnectionConfig)
        ensures
            r@ == self@,
    {
        ConnectionConfig {
            connection_type: self.connection_type.clone(),
            enable: self.enable,
            host: self.host.clone(),
            port: self.port,
            url: self.url.clone(),
            path: self.path.clone(),
            token: self.token.clone(),
            heartbeat_interval: self.heartbeat_interval,
            reconnect_interval: self.reconnect_interval,
        }
    }
}

/// The type that a YAML value in the file writes, as text. A missing value and a
/// collection count as nothing.
pub open spec fn type_text_of(value: Option<YamlView>) -> Seq<char> {
    match value {
        Some(YamlView::Text(t)) => t,
        Some(YamlView::Number(n)) => n,
        Some(YamlView::Bool(true)) => "true"@,
        Some(YamlView::Bool(false)) => "false"@,
        _ => Seq::empty(),
    }
}

/// Reads the type of a connection from the file, whatever it holds.
pub fn connection_type_text(value: Option<&Yaml>) -> (r: String)
    ensures
        r@ == type_text_of(
            match value {
                Some(v) => Some(v@),
                None => None,
            },
        ),
{
    match value {
        Some(Yaml::Text(t)) => t.clone(),
        Some(Yaml::Number(n)) => n.clone(),
        Some(Yaml::Bool(true)) => owned("true"),
        Some(Yaml::Bool(false)) => owned("false"),
        _ => String::new(),
    }
}

// ---------------------------------------------------------------------------
// all connections

/// The configuration of the connections.
#[derive(Debug)]
pub struct OneBotConfig {
    pub self_id: i64,
    pub nickname: String,
    /// Hand local pictures over by path.
    pub send_image_as_file: bool,
    pub connections: TextMap<ConnectionConfig>,
}

/// The configuration of the connections.
#[verifier::ext_equal]
pub struct OneBotConfigView {
    pub self_id: i64,
    pub nickname: Seq<char>,
    pub send_image_as_file: bool,
    pub connections: Map<Seq<char>, ConnectionView>,
}

impl View for OneBotConfig {
    type V = OneBotConfigView;

    open spec fn view(&self) -> OneBotConfigView {
        OneBotConfigView {
            self_id: self.self_id,
            nickname: self.nickname@,
            send_image_as_file: self.send_image_as_file,
            connections: connections_view(self.connections@),
        }
    }
}

/// The connections by key.
pub open spec fn connections_view(
    connections: Map<Seq<char>, ConnectionConfig>,
) -> Map<Seq<char>, ConnectionView> {
    connections.map_values(|conn: ConnectionConfig| conn@)
}

/// The key made of a name and a number.
pub open spec fn numbered_key(base: Seq<char>, n: int) -> Seq<char> {
    base + "-"@ + decimal(n)
}

/// The first free key made of a name and a number from `n` up to 999; failing that,
/// one made with the time.
pub open spec fn free_key_from(
    taken: Set<Seq<char>>,
    base: Seq<char>,
    n: int,
    now: i64,
) -> Seq<char>
    decreases 1000 - n,
{
    if n >= 1000 {
        numbered_key(base, now as int)
    } else if !taken.contains(numbered_key(base, n)) {
        numbered_key(base, n)
    } else {
        free_key_from(taken, base, n + 1, now)
    }
}

/// A key for a new connection: the name itself where it is free, else the name with
/// the first free number from two on.
pub open spec fn free_key(taken: Set<Seq<char>>, base: Seq<char>, now: i64) -> Seq<char> {
    if !taken.contains(base) {
        base
    } else {
        free_key_from(taken, base, 2, now)
    }
}

/// The seconds since 1970, by `chrono::Utc::now`.
#[verifier::external_body]
fn utc_seconds() -> (r: i64) {
    chrono::Utc::now().timestamp()
}

fn number_key(base: &str, n: i64) -> (r: String)
    ensures
        r@ == numbered_key(base@, n as int),
{
    let mut out = owned(base);
    out.append("-");
    out.append(i64_text(n).as_str());
    out
}

impl OneBotConfig {
    /// A key for a new connection, at a moment given in seconds since 1970.
    pub fn unique_key_at(&self, base: &str, now: i64) -> (r: String)
        ensures
            r@ == free_key(self.connections@.dom(), base@, now),
    {
        if !self.connections.contains(base) {
            return owned(base);
        }
        let ghost taken = self.connections@.dom();
        let mut n: i64 = 2;
        while n < 1000
            invariant
                2 <= n <= 1000,
                taken.contains(base@),
                taken == self.connections@.dom(),
                free_key_from(taken, base@, 2, now) == free_key_from(taken, base@, n as int, now),
            decreases 1000 - n,
        {
            let candidate = number_key(base, n);
            if !self.connections.contains(candidate.as_str()) {
                return candidate;
            }
            n = n + 1;
        }
        number_key(base, now)
    }

    /// A key for a new connection.
    pub fn unique_connection_key(&self, base: &str) -> (r: String)
        ensures
            exists|now: i64| r@ == #[trigger] free_key(self.connections@.dom(), base@, now),
    {
        self.unique_key_at(base, utc_seconds())
    }
}

/// A new key is free as long as the name itself or one of its numbers is.
pub proof fn law_new_key_is_free(taken: Set<Seq<char>>, base: Seq<char>, n: int, now: i64)
    requires
        !taken.contains(base) || (2 <= n < 1000 && !taken.contains(numbered_key(base, n))),
    ensures
        !taken.contains(free_key(taken, base, now)),
{
    if taken.contains(base) {
        lemma_free_key_from(taken, base, 2, n, now);
    }
}

proof fn lemma_free_key_from(taken: Set<Seq<char>>, base: Seq<char>, from: int, n: int, now: i64)
    requires
        from <= n < 1000,
        !taken.contains(numbered_key(base, n)),
    ensures
        !taken.contains(free_key_from(taken, base, from, now)),
    decreases n - from,
{
    if taken.contains(numbered_key(base, from)) {
        lemma_free_key_from(taken, base, from + 1, n, now);
    }
}

/// Some connections with the standard ones that are missing.
pub open spec fn with_standard(
    connections: Map<Seq<char>, ConnectionView>,
    kinds: Seq<ConnectionType>,
) -> Map<Seq<char>, ConnectionView>
    decreases kinds.len(),
{
    if kinds.len() == 0 {
        connections
    } else {
        let head = with_standard(connections, kinds.drop_last());
        let key = type_key(kinds.last());
        if head.contains_key(key) {
            head
        } else {
            head.insert(key, standard_connection(kinds.last()))
        }
    }
}

/// All types of connections.
pub open spec fn all_types() -> Seq<ConnectionType> {
    seq![
        ConnectionType::WebSocket,
        ConnectionType::WebSocketReverse,
        ConnectionType::Http,
        ConnectionType::HttpReverse,
    ]
}

fn add_standard(connections: &mut TextMap<ConnectionConfig>)
    ensures
        connections_view(final(connections)@) == with_standard(
            connections_view(old(connections)@),
            all_types(),
        ),
{
    let kinds = ConnectionType::all();
    let ghost all = kinds@;
    let ghost start = connections_view(connections@);
    let mut i: usize = 0;
    while i < kinds.len()
        invariant
            i <= kinds@.len(),
            all == kinds@,
            connections_view(connections@) == with_standard(start, all.take(i as int)),
        decreases kinds@.len() - i,
    {
        assert(all.take(i + 1).drop_last() =~= all.take(i as int));
        let kind = kinds[i];
        if !connections.contains(kind.key()) {
            let ghost before = connections@;
            let conn = default_connection(kind);
            connections.insert(owned(kind.key()), conn);
            assert(connections_view(before.insert(type_key(kind), conn)) =~= connections_view(
                before,
            ).insert(type_key(kind), conn@));
        }
        i = i + 1;
    }
    assert(all.take(all.len() as int) =~= all);
}

fn copy_connections(connections: &TextMap<ConnectionConfig>) -> (r: TextMap<ConnectionConfig>)
    ensures
        connections_view(r@) == connections_view(connections@),
{
    let entries = connections.entries();
    let ghost all = entries@;
    let mut out: TextMap<ConnectionConfig> = TextMap::new();
    let mut i: usize = 0;
    assert(connections_view(out@) =~= connections_view(entries_map(all.take(0)))) by {
        assert(entries_map(all.take(0)) =~= Map::<Seq<char>, ConnectionConfig>::empty());
    }
    while i < entries.len()
        invariant
            i <= entries@.len(),
            all == entries@,
            keys_ascend(all),
            connections_view(out@) == connections_view(entries_map(all.take(i as int))),
        decreases entries@.len() - i,
    {
        let ghost before = out@;
        let copy = entries[i].1.copy();
        out.insert(entries[i].0.clone(), copy);
        proof {
            crate::collections::lemma_entries_map_push(all, i as int);
            let key = all[i as int].0@;
            let value = all[i as int].1;
            assert(connections_view(before.insert(key, copy)) =~= connections_view(before).insert(
                key,
                copy@,
            ));
            assert(connections_view(entries_map(all.take(i as int)).insert(key, value))
                =~= connections_view(entries_map(all.take(i as int))).insert(key, value@));
        }
        i = i + 1;
    }
    assert(all.take(all.len() as int) =~= all);
    out
}

impl Default for OneBotConfig {
    fn default() -> (r: OneBotConfig)
        ensures
            r.self_id == 0,
            r.nickname@ == "Arona"@,
            !r.send_image_as_file,
            connections_view(r.connections@) == with_standard(Map::empty(), all_types()),
    {
        let mut connections: TextMap<ConnectionConfig> = TextMap::new();
        assert(connections_view(connections@) =~= Map::empty());
        add_standard(&mut connections);
        OneBotConfig {
            self_id: 0,
            nickname: owned("Arona"),
            send_image_as_file: false,
            connections,
        }
    }
}

impl OneBotConfig {
    /// A copy of the configuration.
    pub fn copy(&self) -> (r: OneBotConfig)
        ensures
            r@ == self@,
    {
        OneBotConfig {
            self_id: self.self_id,
            nickname: self.nickname.clone(),
            send_image_as_file: self.send_image_as_file,
            connections: copy_connections(&self.connections),
        }
    }
}

// ---------------------------------------------------------------------------
// the text of the file

/// What is said of a connection in the file.
pub open spec fn connection_comment(kind: Option<ConnectionType>) -> Seq<char> {
    match kind {
        Some(ConnectionType::WebSocket) => "正向 WebSocket：主动连接 OneBot 实现（填写 url）"@,
        Some(
            ConnectionType::WebSocketReverse,
        ) => "反向 WebSocket：监听端口等待 OneBot 实现连接（填写 host/port/path）"@,
        Some(ConnectionType::Http) => "正向 HTTP：开放 API 端口，供 OneBot 实现调用"@,
        Some(ConnectionType::HttpReverse) => "反向 HTTP：主动向 url 推送动作（不支持接收事件）"@,
        None => "自定义连接（type 字段无效）"@,
    }
}

/// The name of the type that is written for a connection: never an unset one where
/// the type is known.
pub open spec fn written_type(conn: ConnectionView, key: Seq<char>) -> Seq<char> {
    match type_of(conn, key) {
        Some(kind) => type_key(kind),
        None => trim_spec(conn.connection_type),
    }
}

/// A line with a quoted text.
pub open spec fn quoted_line(name: Seq<char>, value: Seq<char>) -> Seq<char> {
    "    "@ + name + ": \""@ + value + "\"\n"@
}

/// A line with a plain value.
pub open spec fn plain_line(name: Seq<char>, value: Seq<char>) -> Seq<char> {
    "    "@ + name + ": "@ + value + "\n"@
}

/// A boolean as it is written.
pub open spec fn bool_text(b: bool) -> Seq<char> {
    if b {
        "true"@
    } else {
        "false"@
    }
}

/// The text of a connection in the file.
pub open spec fn connection_text(key: Seq<char>, conn: ConnectionView) -> Seq<char> {
    "  # "@ + connection_comment(type_of(conn, key)) + "\n"@ + "  "@ + key + ":\n"@ + quoted_line(
        "type"@,
        written_type(conn, key),
    ) + plain_line("enable"@, bool_text(conn.enable)) + quoted_line("host"@, conn.host)
        + plain_line("port"@, decimal(conn.port as int)) + quoted_line("url"@, conn.url)
        + quoted_line("path"@, conn.path) + quoted_line("token"@, conn.token) + plain_line(
        "heartbeat_interval"@,
        decimal(conn.heartbeat_interval as int),
    ) + plain_line("reconnect_interval"@, decimal(conn.reconnect_interval as int)) + "\n"@
}

/// The texts of some connections, one after another.
pub open spec fn connections_text(entries: Seq<(String, ConnectionConfig)>) -> Seq<char>
    decreases entries.len(),
{
    if entries.len() == 0 {
        Seq::empty()
    } else {
        connections_text(entries.drop_last()) + connection_text(
            entries.last().0@,
            entries.last().1@,
        )
    }
}

/// The part of the file before the connections.
pub open spec fn heading_text(
    edition: Seq<char>,
    self_id: i64,
    nickname: Seq<char>,
    send_image_as_file: bool,
) -> Seq<char> {
    "# ==================== Arona OneBot 配置文件 ====================\n"@ + "# "@ + edition
        + "独立运行模式使用本文件。\n"@
        + "# 文件位置：运行目录下的 config/onebot.yml（与框架的 config/arona.yml 同目录），保存后热重载生效。\n"@
        + "# 每个连接的 type 取值：ws-forward / ws-reverse / http / http-reverse；\n"@
        + "# 同一类型可以配置多个实例（键名任意，例如 ws-reverse-2）。\n\n"@
        + "# 机器人 QQ 号，用于 get_login_info 等 API 的返回\nself_id: "@ + decimal(self_id as int)
        + "\n"@ + "# 机器人昵称\nnickname: \""@ + nickname + "\"\n"@ + sending_text(
        send_image_as_file,
    )
}

/// The part of the file on how pictures are sent.
pub open spec fn sending_text(send_image_as_file: bool) -> Seq<char> {
    "\n# ==================== 消息发送 ====================\n"@
        + "# 发到群里的图片如果来自本机磁盘(插件生成的结果图、文件分享等)，是否改用 file:// 路径直传 OneBot 实现。\n"@
        + "# 开启后上行消息不再内嵌十几 MB 的 base64，发送更快；图片按原始文件上传，不做任何压缩。\n"@
        + "# 注意：仅当 OneBot 实现(如 NapCat)与机器人部署在同一台机器/可直接访问相同磁盘时才能开启，\n"@
        + "#       跨机器/容器部署开启会导致图片发不出去。默认 false(内嵌 base64, 兼容所有部署方式)。\n"@
        + "send_image_as_file: "@ + bool_text(send_image_as_file) + "\n"@ + "\nconnections:\n"@
}

fn push_quoted(out: &mut String, name: &str, value: &str)
    ensures
        final(out)@ == old(out)@ + quoted_line(name@, value@),
{
    out.append("    ");
    out.append(name);
    out.append(": \"");
    out.append(value);
    out.append("\"\n");
    assert(out@ =~= old(out)@ + quoted_line(name@, value@));
}

fn push_plain(out: &mut String, name: &str, value: &str)
    ensures
        final(out)@ == old(out)@ + plain_line(name@, value@),
{
    out.append("    ");
    out.append(name);
    out.append(": ");
    out.append(value);
    out.append("\n");
    assert(out@ =~= old(out)@ + plain_line(name@, value@));
}

fn bool_name(b: bool) -> (r: &'static str)
    ensures
        r@ == bool_text(b),
{
    if b {
        "true"
    } else {
        "false"
    }
}

/// The text of a connection in the file.
pub fn connection_block(key: &str, conn: &ConnectionConfig) -> (r: String)
    ensures
        r@ == connection_text(key@, conn@),
{
    let kind: Option<ConnectionType> = match conn.resolve_type(key) {
        Ok(kind) => Some(kind),
        Err(_) => None,
    };
    let comment = match kind {
        Some(
            ConnectionType::WebSocket,
        ) => "正向 WebSocket：主动连接 OneBot 实现（填写 url）",
        Some(
            ConnectionType::WebSocketReverse,
        ) => "反向 WebSocket：监听端口等待 OneBot 实现连接（填写 host/port/path）",
        Some(ConnectionType::Http) => "正向 HTTP：开放 API 端口，供 OneBot 实现调用",
        Some(
            ConnectionType::HttpReverse,
        ) => "反向 HTTP：主动向 url 推送动作（不支持接收事件）",
        None => "自定义连接（type 字段无效）",
    };
    let written = match kind {
        Some(kind) => owned(kind.key()),
        None => trim(conn.connection_type.as_str()),
    };
    let mut out = owned("  # ");
    out.append(comment);
    out.append("\n");
    out.append("  ");
    out.append(key);
    out.append(":\n");
    push_quoted(&mut out, "type", written.as_str());
    push_plain(&mut out, "enable", bool_name(conn.enable));
    push_quoted(&mut out, "host", conn.host.as_str());
    push_plain(&mut out, "port", u64_text(conn.port as u64).as_str());
    push_quoted(&mut out, "url", conn.url.as_str());
    push_quoted(&mut out, "path", conn.path.as_str());
    push_quoted(&mut out, "token", conn.token.as_str());
    push_plain(&mut out, "heartbeat_interval", u64_text(conn.heartbeat_interval).as_str());
    push_plain(&mut out, "reconnect_interval", u64_text(conn.reconnect_interval).as_str());
    out.append("\n");
    out
}

fn sending_block(send_image_as_file: bool) -> (r: String)
    ensures
        r@ == sending_text(send_image_as_file),
{
    let mut out = owned("\n# ==================== 消息发送 ====================\n");
    out.append(
        "# 发到群里的图片如果来自本机磁盘(插件生成的结果图、文件分享等)，是否改用 file:// 路径直传 OneBot 实现。\n",
    );
    out.append(
        "# 开启后上行消息不再内嵌十几 MB 的 base64，发送更快；图片按原始文件上传，不做任何压缩。\n",
    );
    out.append(
        "# 注意：仅当 OneBot 实现(如 NapCat)与机器人部署在同一台机器/可直接访问相同磁盘时才能开启，\n",
    );
    out.append(
        "#       跨机器/容器部署开启会导致图片发不出去。默认 false(内嵌 base64, 兼容所有部署方式)。\n",
    );
    out.append("send_image_as_file: ");
    out.append(bool_name(send_image_as_file));
    out.append("\n");
    out.append("\nconnections:\n");
    out
}

fn heading_block(config: &OneBotConfig, edition: &str) -> (r: String)
    ensures
        r@ == heading_text(edition@, config.self_id, config.nickname@, config.send_image_as_file),
{
    let mut out = owned("# ==================== Arona OneBot 配置文件 ====================\n");
    out.append("# ");
    out.append(edition);
    out.append("独立运行模式使用本文件。\n");
    out.append(
        "# 文件位置：运行目录下的 config/onebot.yml（与框架的 config/arona.yml 同目录），保存后热重载生效。\n",
    );
    out.append("# 每个连接的 type 取值：ws-forward / ws-reverse / http / http-reverse；\n");
    out.append("# 同一类型可以配置多个实例（键名任意，例如 ws-reverse-2）。\n\n");
    out.append("# 机器人 QQ 号，用于 get_login_info 等 API 的返回\nself_id: ");
    out.append(i64_text(config.self_id).as_str());
    out.append("\n");
    out.append("# 机器人昵称\nnickname: \"");
    out.append(config.nickname.as_str());
    out.append("\"\n");
    out.append(sending_block(config.send_image_as_file).as_str());
    out
}

/// Whether a text is the file of a configuration: the heading, then the connections
/// and the standard ones that are missing, in the order of their keys.
pub open spec fn is_file_text(
    text: Seq<char>,
    config: OneBotConfig,
    edition: Seq<char>,
) -> bool {
    exists|entries: Seq<(String, ConnectionConfig)>|
        keys_ascend(entries) && connections_view(entries_map(entries)) == with_standard(
            connections_view(config.connections@),
            all_types(),
        ) && text == heading_text(
            edition,
            config.self_id,
            config.nickname@,
            config.send_image_as_file,
        ) + #[trigger] connections_text(entries)
}

/// Where the file is, unless another place is given.
pub fn default_file() -> (r: String)
    ensures
        r@ == "config/onebot.yml"@,
{
    owned("config/onebot.yml")
}

/// The text of the file; `edition` is what the program calls itself in it.
pub fn template(config: &OneBotConfig, edition: &str) -> (r: String)
    ensures
        is_file_text(r@, *config, edition@),
{
    let mut out = heading_block(config, edition);
    let ghost heading = out@;
    let mut connections = copy_connections(&config.connections);
    add_standard(&mut connections);
    let entries = connections.entries();
    let ghost all = entries@;
    let mut i: usize = 0;
    assert(out@ =~= heading + connections_text(all.take(0)));
    while i < entries.len()
        invariant
            i <= entries@.len(),
            all == entries@,
            out@ == heading + connections_text(all.take(i as int)),
        decreases entries@.len() - i,
    {
        out.append(connection_block(entries[i].0.as_str(), &entries[i].1).as_str());
        proof {
            let next = all.take(i + 1);
            assert(next.drop_last() =~= all.take(i as int));
            assert(out@ =~= heading + connections_text(next));
        }
        i = i + 1;
    }
    assert(all.take(all.len() as int) =~= all);
    out
}

// ---------------------------------------------------------------------------
// the keys of the file

/// Whether the file knows a key.
pub open spec fn is_connection_key(name: Seq<char>) -> bool {
    name == "self_id"@ || name == "nickname"@ || name == "send_image_as_file"@ || name
        == "connections"@
}

/// The keys that once stood in this file: the framework's, then those of plugins.
pub open spec fn legacy_keys(registry: SectionRegistry) -> Seq<Seq<char>> {
    seq!["groups"@, "managers"@] + keys_listed(registry.items@)
}

/// The keys that once stood in this file.
pub fn legacy_top_keys(registry: &SectionRegistry) -> (r: Vec<String>)
    ensures
        texts(r@) == legacy_keys(*registry),
{
    let mut out: Vec<String> = Vec::new();
    out.push(owned("groups"));
    out.push(owned("managers"));
    let mut keys = registry.keys();
    let ghost tail = keys@;
    let ghost head = out@;
    out.append(&mut keys);
    assert(texts(out@) =~= texts(head) + texts(tail));
    assert(texts(head) =~= seq!["groups"@, "managers"@]);
    out
}

/// The text keys that nobody knows, in their order.
pub open spec fn unknown_keys_of(
    entries: Seq<(YamlView, YamlView)>,
    legacy: Seq<Seq<char>>,
) -> Seq<Seq<char>>
    decreases entries.len(),
{
    if entries.len() == 0 {
        Seq::empty()
    } else {
        let head = unknown_keys_of(entries.drop_last(), legacy);
        match key_text(entries.last().0) {
            Some(name) => if is_connection_key(name) || legacy.contains(name) {
                head
            } else {
                head.push(name)
            },
            None => head,
        }
    }
}

/// The keys of a document that nobody knows.
pub fn unknown_keys(value: &Yaml, legacy: &Vec<String>) -> (r: Vec<String>)
    ensures
        texts(r@) == match mapping_of(value@) {
            Some(entries) => unknown_keys_of(entries, texts(legacy@)),
            None => Seq::empty(),
        },
{
    let mut out: Vec<String> = Vec::new();
    assert(texts(out@) =~= Seq::<Seq<char>>::empty());
    if let Some(entries) = value.as_mapping() {
        let ghost all = entry_views(entries@);
        let mut i: usize = 0;
        while i < entries.len()
            invariant
                i <= entries@.len(),
                all == entry_views(entries@),
                texts(out@) == unknown_keys_of(all.take(i as int), texts(legacy@)),
            decreases entries@.len() - i,
        {
            assert(all.take(i + 1).drop_last() =~= all.take(i as int));
            let ghost before = out@;
            if let Some(name) = entries[i].0.as_str() {
                proof {
                    lemma_lists_is_contains(legacy@, name@);
                }
                let known = same(name, "self_id") || same(name, "nickname") || same(
                    name,
                    "send_image_as_file",
                ) || same(name, "connections");
                if !known && !contains_text(legacy, name) {
                    out.push(owned(name));
                    assert(texts(out@) =~= texts(before).push(name@));
                }
            }
            i = i + 1;
        }
        assert(all.take(all.len() as int) =~= all);
    }
    out
}

/// The entries whose key is not one of the listed texts, in their order.
pub open spec fn entries_without(
    entries: Seq<(YamlView, YamlView)>,
    keys: Seq<Seq<char>>,
) -> Seq<(YamlView, YamlView)>
    decreases entries.len(),
{
    if entries.len() == 0 {
        Seq::empty()
    } else {
        let head = entries_without(entries.drop_last(), keys);
        let last = entries.last();
        if last.0 is Text && keys.contains(last.0->Text_0) {
            head
        } else {
            head.push(last)
        }
    }
}

/// A document without the entries whose keys are listed, and whether any was there.
pub fn strip_keys(value: &Yaml, keys: &Vec<String>) -> (r: (Yaml, bool))
    ensures
        match mapping_of(value@) {
            Some(entries) => {
                &&& r.0@ == YamlView::Mapping(entries_without(entries, texts(keys@)))
                &&& r.1 == (entries_without(entries, texts(keys@)).len() < entries.len())
            },
            None => r.0@ == value@ && !r.1,
        },
{
    match value.as_mapping() {
        None => (value.clone(), false),
        Some(entries) => {
            let ghost all = entry_views(entries@);
            let mut out: Vec<(Yaml, Yaml)> = Vec::new();
            let mut i: usize = 0;
            assert(entry_views(out@) =~= entries_without(all.take(0), texts(keys@)));
            while i < entries.len()
                invariant
                    i <= entries@.len(),
                    all == entry_views(entries@),
                    out@.len() <= i,
                    entry_views(out@) == entries_without(all.take(i as int), texts(keys@)),
                decreases entries@.len() - i,
            {
                let ghost before = out@;
                assert(all.take(i + 1).drop_last() =~= all.take(i as int));
                let listed = match &entries[i].0 {
                    Yaml::Text(name) => {
                        proof {
                            lemma_lists_is_contains(keys@, name@);
                        }
                        contains_text(keys, name.as_str())
                    },
                    _ => false,
                };
                if !listed {
                    let entry = (entries[i].0.clone(), entries[i].1.clone());
                    out.push(entry);
                    assert(entry_views(out@) =~= entry_views(before).push((entry.0@, entry.1@)));
                }
                i = i + 1;
            }
            proof {
                assert(all.take(all.len() as int) =~= all);
                lemma_mapping_view(out);
                assert(entry_views(out@).len() == out@.len());
            }
            let shorter = out.len() < entries.len();
            (Yaml::Mapping(out), shorter)
        },
    }
}

// ---------------------------------------------------------------------------
// laws

/// Each setting of a connection stands in its text under its name, and so does its key.
pub proof fn law_connections_are_written(key: Seq<char>, conn: ConnectionView)
    ensures
        ({
            let text = connection_text(key, conn);
            &&& holds(text, key)
            &&& holds(text, "    "@ + "type"@ + ": \""@ + written_type(conn, key) + "\"\n"@)
            &&& conn.enable ==> holds(text, "    "@ + "enable"@ + ": "@ + "true"@ + "\n"@)
            &&& !conn.enable ==> holds(text, "    "@ + "enable"@ + ": "@ + "false"@ + "\n"@)
            &&& holds(text, "    "@ + "host"@ + ": \""@ + conn.host + "\"\n"@)
            &&& holds(text, "    "@ + "port"@ + ": "@ + decimal(conn.port as int) + "\n"@)
            &&& holds(text, "    "@ + "url"@ + ": \""@ + conn.url + "\"\n"@)
            &&& holds(text, "    "@ + "path"@ + ": \""@ + conn.path + "\"\n"@)
            &&& holds(text, "    "@ + "token"@ + ": \""@ + conn.token + "\"\n"@)
            &&& holds(
                text,
                "    "@ + "heartbeat_interval"@ + ": "@ + decimal(conn.heartbeat_interval as int)
                    + "\n"@,
            )
            &&& holds(
                text,
                "    "@ + "reconnect_interval"@ + ": "@ + decimal(conn.reconnect_interval as int)
                    + "\n"@,
            )
        }),
{
    let t0 = "  # "@ + connection_comment(type_of(conn, key)) + "\n"@ + "  "@;
    let none = Seq::<Seq<char>>::empty();
    let kind = quoted_line("type"@, written_type(conn, key));
    let enable = plain_line("enable"@, bool_text(conn.enable));
    let host = quoted_line("host"@, conn.host);
    let port = plain_line("port"@, decimal(conn.port as int));
    let url = quoted_line("url"@, conn.url);
    let path = quoted_line("path"@, conn.path);
    let token = quoted_line("token"@, conn.token);
    let beat = plain_line("heartbeat_interval"@, decimal(conn.heartbeat_interval as int));
    let again = plain_line("reconnect_interval"@, decimal(conn.reconnect_interval as int));
    let p1 = none.push(key);
    let p2 = p1.push(":\n"@);
    let p3 = p2.push(kind);
    let p4 = p3.push(enable);
    let p5 = p4.push(host);
    let p6 = p5.push(port);
    let p7 = p6.push(url);
    let p8 = p7.push(path);
    let p9 = p8.push(token);
    let p10 = p9.push(beat);
    let p11 = p10.push(again);
    let t2 = t0 + key + ":\n"@;
    lemma_holds_on(t0, key, none);
    lemma_holds_on(t0 + key, ":\n"@, p1);
    lemma_holds_on(t2, kind, p2);
    lemma_holds_on(t2 + kind, enable, p3);
    lemma_holds_on(t2 + kind + enable, host, p4);
    lemma_holds_on(t2 + kind + enable + host, port, p5);
    lemma_holds_on(t2 + kind + enable + host + port, url, p6);
    lemma_holds_on(t2 + kind + enable + host + port + url, path, p7);
    lemma_holds_on(t2 + kind + enable + host + port + url + path, token, p8);
    lemma_holds_on(t2 + kind + enable + host + port + url + path + token, beat, p9);
    lemma_holds_on(t2 + kind + enable + host + port + url + path + token + beat, again, p10);
    lemma_holds_on(
        t2 + kind + enable + host + port + url + path + token + beat + again,
        "\n"@,
        p11,
    );
    let all = p11.push("\n"@);
    assert(all[0] == key && all[2] == kind && all[3] == enable && all[4] == host && all[5] == port
        && all[6] == url && all[7] == path && all[8] == token && all[9] == beat && all[10]
        == again);
}

/// Every connection stands in the file.
pub proof fn law_every_connection_is_written(entries: Seq<(String, ConnectionConfig)>, i: int)
    requires
        0 <= i < entries.len(),
    ensures
        holds(connections_text(entries), connection_text(entries[i].0@, entries[i].1@)),
    decreases entries.len(),
{
    let head = connections_text(entries.drop_last());
    let last = connection_text(entries.last().0@, entries.last().1@);
    if i < entries.len() - 1 {
        law_every_connection_is_written(entries.drop_last(), i);
        lemma_holds_on(head, last, seq![connection_text(entries[i].0@, entries[i].1@)]);
        assert(seq![connection_text(entries[i].0@, entries[i].1@)].push(last)[0]
            == connection_text(entries[i].0@, entries[i].1@));
    } else {
        lemma_holds_on(head, last, Seq::empty());
        assert(Seq::<Seq<char>>::empty().push(last)[0] == last);
    }
}

/// The number of the bot and, as long as they hold no quotation mark, its name and how it
/// sends pictures can be read out of the file.
pub proof fn law_the_file_names_the_bot(
    text: Seq<char>,
    one: OneBotConfig,
    other: OneBotConfig,
    edition: Seq<char>,
)
    requires
        is_file_text(text, one, edition),
        is_file_text(text, other, edition),
    ensures
        one.self_id == other.self_id,
        !one.nickname@.contains('"') && !other.nickname@.contains('"') ==> one.nickname@
            == other.nickname@ && one.send_image_as_file == other.send_image_as_file,
{
    let first = choose|entries: Seq<(String, ConnectionConfig)>|
        keys_ascend(entries) && connections_view(entries_map(entries)) == with_standard(
            connections_view(one.connections@),
            all_types(),
        ) && text == heading_text(edition, one.self_id, one.nickname@, one.send_image_as_file)
            + #[trigger] connections_text(entries);
    let second = choose|entries: Seq<(String, ConnectionConfig)>|
        keys_ascend(entries) && connections_view(entries_map(entries)) == with_standard(
            connections_view(other.connections@),
            all_types(),
        ) && text == heading_text(edition, other.self_id, other.nickname@, other.send_image_as_file)
            + #[trigger] connections_text(entries);
    let start = "# ==================== Arona OneBot 配置文件 ====================\n"@ + "# "@ + edition
        + "独立运行模式使用本文件。\n"@
        + "# 文件位置：运行目录下的 config/onebot.yml（与框架的 config/arona.yml 同目录），保存后热重载生效。\n"@
        + "# 每个连接的 type 取值：ws-forward / ws-reverse / http / http-reverse；\n"@
        + "# 同一类型可以配置多个实例（键名任意，例如 ws-reverse-2）。\n\n"@
        + "# 机器人 QQ 号，用于 get_login_info 等 API 的返回\nself_id: "@;
    let (sent_a, sent_b) = (
        sending_text(one.send_image_as_file),
        sending_text(other.send_image_as_file),
    );
    lemma_heading_reads_back(
        start,
        "# 机器人昵称\nnickname: \""@,
        (one.self_id, one.nickname@, sent_a, connections_text(first)),
        (other.self_id, other.nickname@, sent_b, connections_text(second)),
    );
    if !one.nickname@.contains('"') && !other.nickname@.contains('"') {
        lemma_sending_reads_back(
            one.send_image_as_file,
            connections_text(first),
            other.send_image_as_file,
            connections_text(second),
        );
    }
}

proof fn lemma_heading_reads_back(
    start: Seq<char>,
    mark: Seq<char>,
    a: (i64, Seq<char>, Seq<char>, Seq<char>),
    b: (i64, Seq<char>, Seq<char>, Seq<char>),
)
    requires
        start + decimal(a.0 as int) + "\n"@ + mark + a.1 + "\"\n"@ + a.2 + a.3 == start + decimal(
            b.0 as int,
        ) + "\n"@ + mark + b.1 + "\"\n"@ + b.2 + b.3,
    ensures
        a.0 == b.0,
        !a.1.contains('"') && !b.1.contains('"') ==> a.1 == b.1 && a.2 + a.3 == b.2 + b.3,
{
    let (id_a, id_b) = (decimal(a.0 as int), decimal(b.0 as int));
    crate::text::lemma_decimal_characters(a.0 as int);
    crate::text::lemma_decimal_characters(b.0 as int);
    let tail_a = a.1 + seq!['"'] + (seq!['\n'] + (a.2 + a.3));
    let tail_b = b.1 + seq!['"'] + (seq!['\n'] + (b.2 + b.3));
    lemma_heading_parts(start, id_a, mark, a.1, a.2, a.3);
    lemma_heading_parts(start, id_b, mark, b.1, b.2, b.3);
    crate::text::lemma_same_start(
        start,
        id_a + seq!['\n'] + (mark + tail_a),
        id_b + seq!['\n'] + (mark + tail_b),
    );
    assert(!id_a.contains('\n') && !id_b.contains('\n'));
    crate::text::lemma_split_at_first(id_a, '\n', mark + tail_a, id_b, mark + tail_b);
    crate::text::law_decimals_tell_numbers_apart(a.0 as int, b.0 as int);
    crate::text::lemma_same_start(mark, tail_a, tail_b);
    if !a.1.contains('"') && !b.1.contains('"') {
        let rest_a = seq!['\n'] + (a.2 + a.3);
        let rest_b = seq!['\n'] + (b.2 + b.3);
        crate::text::lemma_split_at_first(a.1, '"', rest_a, b.1, rest_b);
        crate::text::lemma_same_start(seq!['\n'], a.2 + a.3, b.2 + b.3);
    }
}

proof fn lemma_heading_parts(
    start: Seq<char>,
    id: Seq<char>,
    mark: Seq<char>,
    name: Seq<char>,
    sent: Seq<char>,
    rest: Seq<char>,
)
    ensures
        start + id + "\n"@ + mark + name + "\"\n"@ + sent + rest == start + (id + seq!['\n'] + (mark
            + (name + seq!['"'] + (seq!['\n'] + (sent + rest))))),
{
    reveal_strlit("\n");
    reveal_strlit("\"\n");
    assert("\n"@ =~= seq!['\n']);
    assert("\"\n"@ =~= seq!['"'] + seq!['\n']);
    assert(start + id + "\n"@ + mark + name + "\"\n"@ + sent + rest =~= start + (id + seq!['\n'] + (
    mark + (name + seq!['"'] + (seq!['\n'] + (sent + rest))))));
}

proof fn lemma_sending_reads_back(a: bool, rest_a: Seq<char>, b: bool, rest_b: Seq<char>)
    requires
        sending_text(a) + rest_a == sending_text(b) + rest_b,
    ensures
        a == b,
{
    let start = "\n# ==================== 消息发送 ====================\n"@
        + "# 发到群里的图片如果来自本机磁盘(插件生成的结果图、文件分享等)，是否改用 file:// 路径直传 OneBot 实现。\n"@
        + "# 开启后上行消息不再内嵌十几 MB 的 base64，发送更快；图片按原始文件上传，不做任何压缩。\n"@
        + "# 注意：仅当 OneBot 实现(如 NapCat)与机器人部署在同一台机器/可直接访问相同磁盘时才能开启，\n"@
        + "#       跨机器/容器部署开启会导致图片发不出去。默认 false(内嵌 base64, 兼容所有部署方式)。\n"@
        + "send_image_as_file: "@;
    reveal_strlit("true");
    reveal_strlit("false");
    let end = "\n"@ + "\nconnections:\n"@;
    assert(sending_text(a) + rest_a =~= start + (bool_text(a) + (end + rest_a)));
    assert(sending_text(b) + rest_b =~= start + (bool_text(b) + (end + rest_b)));
    crate::text::lemma_same_start(
        start,
        bool_text(a) + (end + rest_a),
        bool_text(b) + (end + rest_b),
    );
    assert((bool_text(a) + (end + rest_a))[0] == bool_text(a)[0]);
    assert((bool_text(b) + (end + rest_b))[0] == bool_text(b)[0]);
}

/// A connection that goes out is shown by its address, and one that waits by where it
/// waits: another port is shown differently.
pub proof fn law_addresses_are_shown(conn: ConnectionView, port: u16)
    ensures
        address_of(conn, ConnectionType::WebSocket) == conn.url,
        address_of(conn, ConnectionType::HttpReverse) == conn.url,
        address_of(conn, ConnectionType::Http) == conn.host + ":"@ + decimal(conn.port as int)
            + conn.path,
        address_of(conn, ConnectionType::WebSocketReverse) == address_of(
            conn,
            ConnectionType::Http,
        ),
        address_of(conn, ConnectionType::Http) == address_of(
            ConnectionView { port, ..conn },
            ConnectionType::Http,
        ) ==> conn.port == port,
{
    let other = ConnectionView { port, ..conn };
    if address_of(conn, ConnectionType::Http) == address_of(other, ConnectionType::Http) {
        crate::text::lemma_same_end(
            conn.host + ":"@ + decimal(conn.port as int),
            conn.host + ":"@ + decimal(port as int),
            conn.path,
        );
        crate::text::lemma_same_start(
            conn.host + ":"@,
            decimal(conn.port as int),
            decimal(port as int),
        );
        crate::text::law_decimals_tell_numbers_apart(conn.port as int, port as int);
    }
}

/// Adding the standard connections changes none that is there, and afterwards there is
/// one under the name of every type.
pub proof fn law_standard_connections_are_added(
    connections: Map<Seq<char>, ConnectionView>,
    kinds: Seq<ConnectionType>,
    key: Seq<char>,
    i: int,
)
    ensures
        connections.contains_key(key) ==> with_standard(connections, kinds).contains_key(key)
            && with_standard(connections, kinds)[key] == connections[key],
        0 <= i < kinds.len() ==> with_standard(connections, kinds).contains_key(type_key(kinds[i])),
        0 <= i < kinds.len() && !connections.contains_key(type_key(kinds[i])) ==> with_standard(
            connections,
            kinds,
        )[type_key(kinds[i])] == standard_connection(kinds[i]),
    decreases kinds.len(),
{
    law_type_names_read_back(ConnectionType::WebSocket);
    law_type_names_read_back(ConnectionType::WebSocketReverse);
    law_type_names_read_back(ConnectionType::Http);
    law_type_names_read_back(ConnectionType::HttpReverse);
    if kinds.len() > 0 {
        law_standard_connections_are_added(connections, kinds.drop_last(), key, i);
        let head = with_standard(connections, kinds.drop_last());
        let name = type_key(kinds.last());
        if head.contains_key(name) && !connections.contains_key(name) {
            lemma_added_are_standard(connections, kinds.drop_last(), name);
        }
    }
}

proof fn lemma_added_are_standard(
    connections: Map<Seq<char>, ConnectionView>,
    kinds: Seq<ConnectionType>,
    key: Seq<char>,
)
    requires
        with_standard(connections, kinds).contains_key(key),
        !connections.contains_key(key),
    ensures
        type_named(key) is Some,
        with_standard(connections, kinds)[key] == standard_connection(type_named(key)->0),
    decreases kinds.len(),
{
    if kinds.len() > 0 {
        law_type_names_read_back(kinds.last());
        if with_standard(connections, kinds.drop_last()).contains_key(key) {
            lemma_added_are_standard(connections, kinds.drop_last(), key);
        }
    }
}

/// The type of a connection is the one that it names itself, without white space around
/// it, or else the one that its key names.
pub proof fn law_connections_have_their_types(
    conn: ConnectionView,
    key: Seq<char>,
    kind: ConnectionType,
)
    ensures
        trim_spec(conn.connection_type) == type_key(kind) ==> type_of(conn, key) == Some(kind),
        trim_spec(conn.connection_type).len() == 0 && key == type_key(kind) ==> type_of(conn, key)
            == Some(kind),
        type_of(conn, key) == Some(kind) ==> written_type(conn, key) == type_key(kind),
        type_of(standard_connection(kind), key) == Some(kind),
        trim_spec(conn.connection_type) == "ws-forward"@ ==> type_of(conn, key) == Some(
            ConnectionType::WebSocket,
        ),
        trim_spec(conn.connection_type) == "ws-reverse"@ ==> type_of(conn, key) == Some(
            ConnectionType::WebSocketReverse,
        ),
        trim_spec(conn.connection_type) == "http"@ ==> type_of(conn, key) == Some(
            ConnectionType::Http,
        ),
        trim_spec(conn.connection_type) == "http-reverse"@ ==> type_of(conn, key) == Some(
            ConnectionType::HttpReverse,
        ),
{
    law_type_names_read_back(kind);
    assert("ws-forward"@ == type_key(ConnectionType::WebSocket));
    law_type_names_read_back(ConnectionType::WebSocket);
    law_type_names_read_back(ConnectionType::WebSocketReverse);
    law_type_names_read_back(ConnectionType::Http);
    law_type_names_read_back(ConnectionType::HttpReverse);
    reveal_strlit("ws-forward");
    reveal_strlit("ws-reverse");
    reveal_strlit("http");
    reveal_strlit("http-reverse");
    let name = type_key(kind);
    assert(name.len() > 0);
    assert(name[0] == 'w' || name[0] == 'h');
    assert(name[name.len() - 1] == 'd' || name[name.len() - 1] == 'e' || name[name.len() - 1]
        == 'p');
    assert(trim_spec(name) == name);
}

/// A document without some keys holds every other entry as it was, in the same order.
pub proof fn law_only_listed_keys_are_stripped(
    entries: Seq<(YamlView, YamlView)>,
    keys: Seq<Seq<char>>,
)
    ensures
        entries_without(entries, keys) == entries.filter(
            |entry: (YamlView, YamlView)|
                !(entry.0 matches YamlView::Text(name) && keys.contains(name)),
        ),
    decreases entries.len(),
{
    reveal(Seq::filter);
    if entries.len() > 0 {
        law_only_listed_keys_are_stripped(entries.drop_last(), keys);
    }
}

/// Reported as unknown are just the keys that are neither the file's own nor left over
/// from where they once stood.
pub proof fn law_unknown_keys_are_reported(
    entries: Seq<(YamlView, YamlView)>,
    legacy: Seq<Seq<char>>,
    i: int,
    name: Seq<char>,
)
    ensures
        0 <= i < entries.len() && key_text(entries[i].0) == Some(name) && !is_connection_key(name)
            && !legacy.contains(name) ==> unknown_keys_of(entries, legacy).contains(name),
        unknown_keys_of(entries, legacy).contains(name) ==> !is_connection_key(name)
            && !legacy.contains(name),
        is_connection_key("self_id"@) && is_connection_key("nickname"@) && is_connection_key(
            "send_image_as_file"@,
        ) && is_connection_key("connections"@),
    decreases entries.len(),
{
    if entries.len() > 0 {
        let head = unknown_keys_of(entries.drop_last(), legacy);
        law_unknown_keys_are_reported(entries.drop_last(), legacy, i, name);
        let all = unknown_keys_of(entries, legacy);
        if head.contains(name) {
            let k = choose|k: int| 0 <= k < head.len() && head[k] == name;
            assert(all[k] == name);
        }
        if all.contains(name) && !head.contains(name) {
            let k = choose|k: int| 0 <= k < all.len() && all[k] == name;
            if k < head.len() {
                assert(head[k] == name);
            }
        }
        if i == entries.len() - 1 && key_text(entries[i].0) == Some(name) && !is_connection_key(
            name,
        ) && !legacy.contains(name) {
            assert(all[all.len() - 1] == name);
        }
    }
}

/// A new connection is named as it asks to be where that name is free, and else by the
/// name with the first free number from two on.
pub proof fn law_new_keys_are_numbered(taken: Set<Seq<char>>, base: Seq<char>, n: int, now: i64)
    requires
        2 <= n < 1000,
        taken.contains(base),
        !taken.contains(base + "-"@ + decimal(n)),
        forall|m: int| 2 <= m < n ==> taken.contains(#[trigger] numbered_key(base, m)),
    ensures
        free_key(taken, base, now) == base + "-"@ + decimal(n),
        free_key(taken.remove(base), base, now) == base,
{
    lemma_first_free_number(taken, base, 2, n, now);
}

proof fn lemma_first_free_number(
    taken: Set<Seq<char>>,
    base: Seq<char>,
    from: int,
    n: int,
    now: i64,
)
    requires
        from <= n < 1000,
        !taken.contains(numbered_key(base, n)),
        forall|m: int| from <= m < n ==> taken.contains(#[trigger] numbered_key(base, m)),
    ensures
        free_key_from(taken, base, from, now) == numbered_key(base, n),
    decreases n - from,
{
    if from < n {
        assert(taken.contains(numbered_key(base, from)));
        lemma_first_free_number(taken, base, from + 1, n, now);
    }
}

/// The type of a connection may be written as any plain value, and counts as what that
/// shows.
pub proof fn law_types_may_be_any_plain_value(text: Seq<char>)
    ensures
        type_text_of(Some(YamlView::Text(text))) == text,
        type_text_of(Some(YamlView::Number(text))) == text,
        type_text_of(Some(YamlView::Bool(true))) == "true"@,
        type_text_of(Some(YamlView::Bool(false))) == "false"@,
        type_text_of(None).len() == 0,
        type_text_of(Some(YamlView::Null)).len() == 0,
{
}

} // verus!
