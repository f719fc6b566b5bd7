//! The AI chat session: the state that the chat protocol keeps between
//! frames, what each server event does to it, and the frames that a local
//! message produces. The socket and the callbacks live outside; they hand
//! frames in and carry out the returned effects.

use vstd::prelude::*;

pub use crate::callbacks::CallbackHandle;
use crate::json::{
    entries_extend, entries_put, extend_entries, find_entry, find_key, jget, jget_opt, jint, jnum,
    jobj, json_text, jstr, lemma_find_key, lemma_view_entries, lemma_view_items, put_entry,
    push_json, view_entries, view_items, Json, JsonV,
};
use crate::text::{own, parse_i64, parse_i64_spec, push_char, push_str, str_eq};

verus! {

/// The address of the chat server.
pub const CHAT_WS_BASE_URL: &'static str = "wss://cr-aichat.codemao.cn/aichat/";

/// The browser identity sent when none is chosen.
pub const DEFAULT_USER_AGENT: &'static str = "Mozilla/5.0 (Windows NT 10.0; Win64; x64) AppleWebKit/537.36 (KHTML, like Gecko) Chrome/140.0.0.0 Safari/537.36 Edg/140.0.0.0";

/// Errors of the chat client.
#[derive(Debug, Clone, PartialEq, Eq)]
pub enum ChatError {
    WebSocket(String),
    Handshake(String),
    Json(String),
    NotConnected,
    Busy,
    Timeout(String),
    MissingToken,
    Auth(String),
    Thread(String),
}

/// What a streamed reply event is.
#[derive(Debug, Clone, Copy, PartialEq, Eq, Structural)]
pub enum ChatEventType {
    /// A reply begins.
    Start,
    /// A piece of reply text.
    Text,
    /// The reply ended; the payload is the whole reply.
    End,
    /// The connection failed.
    Error,
}

/// Who wrote a message.
#[derive(Debug, Clone, Copy, PartialEq, Eq, Structural)]
pub enum Role {
    User,
    Assistant,
}

/// One message of the conversation.
#[derive(Debug, Clone, PartialEq, Eq)]
pub struct HistoryMessage {
    pub role: Role,
    pub content: String,
}

/// The model of a message.
pub struct MessageV {
    pub role: Role,
    pub content: Seq<char>,
}

impl View for HistoryMessage {
    type V = MessageV;

    open spec fn view(&self) -> MessageV {
        MessageV { role: self.role, content: self.content@ }
    }
}

pub open spec fn view_messages(s: Seq<HistoryMessage>) -> Seq<MessageV> {
    s.map_values(|m: HistoryMessage| m@)
}

impl HistoryMessage {
    /// A message of the user.
    pub fn user(content: &str) -> (r: HistoryMessage)
        ensures
            r@ == (MessageV { role: Role::User, content: content@ }),
    {
        HistoryMessage { role: Role::User, content: own(content) }
    }

    /// A message of the assistant.
    pub fn assistant(content: &str) -> (r: HistoryMessage)
        ensures
            r@ == (MessageV { role: Role::Assistant, content: content@ }),
    {
        HistoryMessage { role: Role::Assistant, content: own(content) }
    }

    pub(crate) fn copy(&self) -> (r: HistoryMessage)
        ensures
            r@ == self@,
    {
        HistoryMessage { role: self.role, content: self.content.clone() }
    }
}

/// The quota of the user.
#[derive(Debug, Clone, Copy, PartialEq, Eq, Default)]
pub struct UserInfo {
    pub user_id: Option<i64>,
    /// Chats that are left.
    pub chat_count: Option<i64>,
    /// Image generations that are left.
    pub remaining_image_times: Option<i64>,
}

/// Settings from which a chat client is made.
#[derive(Debug, Clone, PartialEq, Eq)]
pub struct ChatBuilder {
    pub token: String,
    pub user_agent: String,
}

impl ChatBuilder {
    /// Settings with the authorization token and the default browser identity.
    pub fn new(token: &str) -> (r: ChatBuilder)
        ensures
            r.token@ == token@,
            r.user_agent@ == DEFAULT_USER_AGENT@,
    {
        ChatBuilder { token: own(token), user_agent: own(DEFAULT_USER_AGENT) }
    }

    /// Sets the browser identity.
    pub fn user_agent(self, user_agent: &str) -> (r: ChatBuilder)
        ensures
            r.token == self.token,
            r.user_agent@ == user_agent@,
    {
        ChatBuilder { token: self.token, user_agent: own(user_agent) }
    }
}

/// A streamed reply event read from a `chat_ack` payload.
#[derive(Debug, Clone, PartialEq, Eq)]
pub enum StreamEvent {
    Begin,
    Chunk(String),
    End(String),
}

/// The model of a [`StreamEvent`].
pub enum StreamEventV {
    Begin,
    Chunk(Seq<char>),
    End(Seq<char>),
}

impl View for StreamEvent {
    type V = StreamEventV;

    open spec fn view(&self) -> StreamEventV {
        match self {
            StreamEvent::Begin => StreamEventV::Begin,
            StreamEvent::Chunk(s) => StreamEventV::Chunk(s@),
            StreamEvent::End(s) => StreamEventV::End(s@),
        }
    }
}

/// The text of an optional string, empty when absent.
pub open spec fn text_or_empty(s: Option<Seq<char>>) -> Seq<char> {
    match s {
        Some(t) => t,
        None => Seq::empty(),
    }
}

/// Whether a payload's `code` is the integer 1.
pub open spec fn code_is_one(p: JsonV) -> bool {
    jint(jget(p, "code"@)) == Some(1i64)
}

/// The stream event of a `chat_ack` payload: only with code 1 and a known
/// `data.content_type`; a missing `content` reads as empty text.
pub open spec fn chat_ack_spec(p: JsonV) -> Option<StreamEventV> {
    if !code_is_one(p) {
        None
    } else {
        match jget(p, "data"@) {
            None => None,
            Some(d) => match jstr(jget(d, "content_type"@)) {
                None => None,
                Some(ct) => {
                    let content = text_or_empty(jstr(jget(d, "content"@)));
                    if ct == "stream_output_begin"@ {
                        Some(StreamEventV::Begin)
                    } else if ct == "stream_output_content"@ {
                        Some(StreamEventV::Chunk(content))
                    } else if ct == "stream_output_end"@ {
                        Some(StreamEventV::End(content))
                    } else {
                        None
                    }
                },
            },
        }
    }
}

fn code_one(p: &Json) -> (r: bool)
    ensures
        r == code_is_one(p@),
{
    match p.get("code") {
        Some(c) => match c.as_i64() {
            Some(n) => n == 1,
            None => false,
        },
        None => false,
    }
}

pub(crate) fn str_field(v: &Json, key: &str) -> (r: Option<String>)
    ensures
        match r {
            Some(s) => jstr(jget(v@, key@)) == Some(s@),
            None => jstr(jget(v@, key@)).is_none(),
        },
{
    match v.get(key) {
        Some(x) => match x.as_str() {
            Some(s) => Some(own(s)),
            None => None,
        },
        None => None,
    }
}

/// Reads a `chat_ack` payload as a stream event.
pub fn parse_chat_ack(payload: &Json) -> (r: Option<StreamEvent>)
    ensures
        match r {
            Some(e) => chat_ack_spec(payload@) == Some(e@),
            None => chat_ack_spec(payload@).is_none(),
        },
{
    if !code_one(payload) {
        return None;
    }
    let data = match payload.get("data") {
        Some(d) => d,
        None => return None,
    };
    let ct = match str_field(data, "content_type") {
        Some(c) => c,
        None => return None,
    };
    let content = match str_field(data, "content") {
        Some(c) => c,
        None => String::new(),
    };
    if str_eq(ct.as_str(), "stream_output_begin") {
        Some(StreamEvent::Begin)
    } else if str_eq(ct.as_str(), "stream_output_content") {
        Some(StreamEvent::Chunk(content))
    } else if str_eq(ct.as_str(), "stream_output_end") {
        Some(StreamEvent::End(content))
    } else {
        None
    }
}


/// The text of a Socket.IO event frame: `42 ` and the JSON array of the
/// event's name and payload.
pub open spec fn event_frame_text(name: Seq<char>, payload: JsonV) -> Seq<char> {
    seq!['4', '2', ' '] + json_text(JsonV::Array(seq![JsonV::Str(name), payload]))
}

/// Builds an event frame.
pub fn event_frame(name: &str, payload: Json) -> (r: String)
    ensures
        r@ == event_frame_text(name@, payload@),
{
    let ghost pv = payload@;
    let v = Json::Array(vec![Json::from_str(name), payload]);
    proof {
        lemma_view_items(v->Array_0@);
        assert(view_items(v->Array_0@) =~= seq![JsonV::Str(name@), pv]);
    }
    let mut out = own("42 ");
    push_json(&mut out, &v);
    proof {
        reveal_strlit("42 ");
        assert("42 "@ =~= seq!['4', '2', ' ']);
    }
    out
}

/// The JSON form of a message: its keys in sorted order.
pub open spec fn message_json(m: MessageV) -> JsonV {
    JsonV::Object(
        seq![
            ("content"@, JsonV::Str(m.content)),
            ("role"@, JsonV::Str(role_name(m.role))),
        ],
    )
}

/// `user` or `assistant`.
pub open spec fn role_name(r: Role) -> Seq<char> {
    match r {
        Role::User => "user"@,
        Role::Assistant => "assistant"@,
    }
}

/// The payload of a `chat` event, its keys in sorted order.
pub open spec fn chat_payload(session_id: Seq<char>, messages: Seq<MessageV>) -> JsonV {
    JsonV::Object(
        seq![
            ("chat_type"@, JsonV::Str("chat_v3"@)),
            ("messages"@, JsonV::Array(messages.map_values(|m: MessageV| message_json(m)))),
            ("msg_channel"@, jnum(0)),
            ("session_id"@, JsonV::Str(session_id)),
        ],
    )
}

/// The text of the `chat` frame that sends `messages` in session `session_id`.
pub open spec fn chat_frame_text(session_id: Seq<char>, messages: Seq<MessageV>) -> Seq<char> {
    event_frame_text("chat"@, chat_payload(session_id, messages))
}

fn message_to_json(m: &HistoryMessage) -> (r: Json)
    ensures
        r@ == message_json(m@),
{
    let role = match m.role {
        Role::User => "user",
        Role::Assistant => "assistant",
    };
    let es = vec![
        (own("content"), Json::Str(m.content.clone())),
        (own("role"), Json::from_str(role)),
    ];
    proof {
        lemma_view_entries(es@);
    }
    assert(view_entries(es@) =~= seq![
        ("content"@, JsonV::Str(m.content@)),
        ("role"@, JsonV::Str(role_name(m.role))),
    ]);
    Json::Object(es)
}

/// Builds the `chat` frame: `42 ["chat",{...}]`.
pub fn build_chat_frame(session_id: &str, messages: &[HistoryMessage]) -> (r: String)
    ensures
        r@ == chat_frame_text(session_id@, view_messages(messages@)),
{
    let mut items: Vec<Json> = Vec::new();
    let mut i: usize = 0;
    while i < messages.len()
        invariant
            i <= messages@.len(),
            view_items(items@) == view_messages(messages@).subrange(0, i as int).map_values(
                |m: MessageV| message_json(m),
            ),
        decreases messages@.len() - i,
    {
        let j = message_to_json(&messages[i]);
        let ghost before = items@;
        items.push(j);
        proof {
            crate::json::lemma_view_items_push(before, items@.last());
            assert(view_messages(messages@).subrange(0, i + 1).map_values(
                |m: MessageV| message_json(m),
            ) =~= view_messages(messages@).subrange(0, i as int).map_values(
                |m: MessageV| message_json(m),
            ).push(message_json(messages@[i as int]@)));
        }
        i = i + 1;
    }
    let ghost msgs = view_messages(messages@);
    assert(msgs.subrange(0, messages@.len() as int) =~= msgs);
    let es = vec![
        (own("chat_type"), Json::from_str("chat_v3")),
        (own("messages"), Json::Array(items)),
        (own("msg_channel"), Json::from_u64(0)),
        (own("session_id"), Json::from_str(session_id)),
    ];
    proof {
        lemma_view_entries(es@);
    }
    assert(view_entries(es@) =~= seq![
        ("chat_type"@, JsonV::Str("chat_v3"@)),
        ("messages"@, JsonV::Array(msgs.map_values(|m: MessageV| message_json(m)))),
        ("msg_channel"@, jnum(0)),
        ("session_id"@, JsonV::Str(session_id@)),
    ]);
    event_frame("chat", Json::Object(es))
}


/// The state of a chat session between frames.
#[derive(Debug, PartialEq)]
pub struct ChatState {
    pub connected: bool,
    /// A streamed reply is being received.
    pub receiving: bool,
    /// The `join` frame was sent on this connection.
    pub join_sent: bool,
    /// How many messages were sent.
    pub pending_round: u64,
    /// The value of `pending_round` when the last reply began.
    pub completed_round: u64,
    pub session_id: Option<String>,
    pub search_session: Option<String>,
    pub user_id: Option<i64>,
    /// What the server said of the user, keyed by name.
    pub user_info: Vec<(String, Json)>,
    /// The reply received so far.
    pub current_response: String,
    pub conversation_id: String,
    pub history: Vec<HistoryMessage>,
}

/// The model of a [`ChatState`].
pub struct ChatStateV {
    pub connected: bool,
    pub receiving: bool,
    pub join_sent: bool,
    pub pending_round: u64,
    pub completed_round: u64,
    pub session_id: Option<Seq<char>>,
    pub search_session: Option<Seq<char>>,
    pub user_id: Option<i64>,
    pub user_info: Seq<(Seq<char>, JsonV)>,
    pub current_response: Seq<char>,
    pub conversation_id: Seq<char>,
    pub history: Seq<MessageV>,
}

pub open spec fn opt_text(o: Option<String>) -> Option<Seq<char>> {
    match o {
        Some(s) => Some(s@),
        None => None,
    }
}

impl View for ChatState {
    type V = ChatStateV;

    open spec fn view(&self) -> ChatStateV {
        ChatStateV {
            connected: self.connected,
            receiving: self.receiving,
            join_sent: self.join_sent,
            pending_round: self.pending_round,
            completed_round: self.completed_round,
            session_id: opt_text(self.session_id),
            search_session: opt_text(self.search_session),
            user_id: self.user_id,
            user_info: view_entries(self.user_info@),
            current_response: self.current_response@,
            conversation_id: self.conversation_id@,
            history: view_messages(self.history@),
        }
    }
}

/// What the session asks of the connection and of the callbacks.
#[derive(Debug, Clone, PartialEq, Eq)]
pub enum ChatEffect {
    /// Send a text frame.
    Send(String),
    /// Call the stream callbacks with this content and event.
    Emit(String, ChatEventType),
}

/// The model of a [`ChatEffect`].
pub enum ChatEffectV {
    Send(Seq<char>),
    Emit(Seq<char>, ChatEventType),
}

impl View for ChatEffect {
    type V = ChatEffectV;

    open spec fn view(&self) -> ChatEffectV {
        match self {
            ChatEffect::Send(s) => ChatEffectV::Send(s@),
            ChatEffect::Emit(s, e) => ChatEffectV::Emit(s@, *e),
        }
    }
}

pub open spec fn view_chat_effects(s: Seq<ChatEffect>) -> Seq<ChatEffectV> {
    s.map_values(|e: ChatEffect| e@)
}

/// The frame that joins the chat room.
pub open spec fn join_frame_text() -> Seq<char> {
    "42 [\"join\"]"@
}

/// `on_connect_ack`: with code 1, the entries of `data` are merged into the
/// user information, and the `join` frame is sent unless it already was.
pub open spec fn connect_ack_step(st: ChatStateV, p: JsonV) -> (ChatStateV, Seq<ChatEffectV>) {
    if !code_is_one(p) {
        (st, Seq::empty())
    } else {
        let st1 = match jobj(jget(p, "data"@)) {
            Some(es) => ChatStateV { user_info: entries_extend(st.user_info, es), ..st },
            None => st,
        };
        if !st1.join_sent {
            (ChatStateV { join_sent: true, ..st1 }, seq![ChatEffectV::Send(join_frame_text())])
        } else {
            (st1, Seq::empty())
        }
    }
}

/// A user id given as an integer or as the decimal text of one.
pub open spec fn user_id_of(v: Option<JsonV>) -> Option<i64> {
    match jint(v) {
        Some(i) => Some(i),
        None => match jstr(v) {
            Some(s) => parse_i64_spec(s),
            None => None,
        },
    }
}

/// The payload of the preset message request, its keys in sorted order.
pub open spec fn preset_payload() -> JsonV {
    JsonV::Object(
        seq![("system_content_enum"@, JsonV::Str("default"@)), ("turn_count"@, jnum(5))],
    )
}

/// The two frames sent once the room is joined.
pub open spec fn after_join_frames() -> Seq<ChatEffectV> {
    seq![
        ChatEffectV::Send(event_frame_text("preset_chat_message"@, preset_payload())),
        ChatEffectV::Send(event_frame_text("get_text2Img_remaining_times"@, JsonV::Null)),
    ]
}

/// `join_ack`: with code 1, the user id and the search session are taken
/// from `data` where present, and the preset frames are sent.
pub open spec fn join_ack_step(st: ChatStateV, p: JsonV) -> (ChatStateV, Seq<ChatEffectV>) {
    if !code_is_one(p) {
        (st, Seq::empty())
    } else {
        let st1 = match jget(p, "data"@) {
            Some(d) => {
                let sa = match user_id_of(jget(d, "user_id"@)) {
                    Some(u) => ChatStateV { user_id: Some(u), ..st },
                    None => st,
                };
                match jstr(jget(d, "search_session"@)) {
                    Some(s) => ChatStateV { search_session: Some(s), ..sa },
                    None => sa,
                }
            },
            None => st,
        };
        (st1, after_join_frames())
    }
}

/// `get_text2Img_remaining_times_ack`: with code 1, `data.remaining_times` is
/// kept as `remaining_image_times`.
pub open spec fn remaining_step(st: ChatStateV, p: JsonV) -> ChatStateV {
    if !code_is_one(p) {
        st
    } else {
        match jget_opt(jget(p, "data"@), "remaining_times"@) {
            Some(r) => ChatStateV {
                user_info: entries_put(st.user_info, "remaining_image_times"@, r),
                ..st
            },
            None => st,
        }
    }
}

/// `chat_ack`: a reply begins, grows while it is received, and on its end is
/// added to the history when it is not empty.
pub open spec fn chat_ack_step(st: ChatStateV, p: JsonV) -> (ChatStateV, Seq<ChatEffectV>) {
    match chat_ack_spec(p) {
        None => (st, Seq::empty()),
        Some(StreamEventV::Begin) => {
            let sid = match jstr(jget_opt(jget(p, "data"@), "session_id"@)) {
                Some(s) => Some(s),
                None => st.session_id,
            };
            (
                ChatStateV {
                    session_id: sid,
                    current_response: Seq::empty(),
                    receiving: true,
                    completed_round: st.pending_round,
                    ..st
                },
                seq![ChatEffectV::Emit(Seq::empty(), ChatEventType::Start)],
            )
        },
        Some(StreamEventV::Chunk(c)) => if st.receiving {
            (
                ChatStateV { current_response: st.current_response + c, ..st },
                seq![ChatEffectV::Emit(c, ChatEventType::Text)],
            )
        } else {
            (st, Seq::empty())
        },
        Some(StreamEventV::End(_)) => {
            let full = st.current_response;
            (
                ChatStateV {
                    receiving: false,
                    history: if full.len() > 0 {
                        st.history.push(MessageV { role: Role::Assistant, content: full })
                    } else {
                        st.history
                    },
                    ..st
                },
                seq![ChatEffectV::Emit(full, ChatEventType::End)],
            )
        },
    }
}

/// What a server event does to the session.
pub open spec fn chat_dispatch_spec(st: ChatStateV, name: Seq<char>, p: JsonV) -> (
    ChatStateV,
    Seq<ChatEffectV>,
) {
    if name == "on_connect_ack"@ {
        connect_ack_step(st, p)
    } else if name == "join_ack"@ {
        join_ack_step(st, p)
    } else if name == "get_text2Img_remaining_times_ack"@ {
        (remaining_step(st, p), Seq::empty())
    } else if name == "chat_ack"@ {
        chat_ack_step(st, p)
    } else {
        (st, Seq::empty())
    }
}


fn user_id_from(v: Option<&Json>) -> (r: Option<i64>)
    ensures
        r == user_id_of(
            match v {
                Some(x) => Some(x@),
                None => None,
            },
        ),
{
    match v {
        Some(x) => match x.as_i64() {
            Some(i) => Some(i),
            None => match x.as_str() {
                Some(s) => parse_i64(s),
                None => None,
            },
        },
        None => None,
    }
}

impl ChatState {
    /// A fresh session for conversation `conversation_id`, not connected.
    pub fn new(conversation_id: String) -> (r: ChatState)
        ensures
            r@ == (ChatStateV {
                connected: false,
                receiving: false,
                join_sent: false,
                pending_round: 0,
                completed_round: 0,
                session_id: None,
                search_session: None,
                user_id: None,
                user_info: Seq::empty(),
                current_response: Seq::empty(),
                conversation_id: conversation_id@,
                history: Seq::empty(),
            }),
    {
        let r = ChatState {
            connected: false,
            receiving: false,
            join_sent: false,
            pending_round: 0,
            completed_round: 0,
            session_id: None,
            search_session: None,
            user_id: None,
            user_info: Vec::new(),
            current_response: String::new(),
            conversation_id,
            history: Vec::new(),
        };
        assert(view_entries(r.user_info@) =~= Seq::empty());
        assert(view_messages(r.history@) =~= Seq::empty());
        r
    }

    fn on_connect_ack(&mut self, p: &Json) -> (r: Vec<ChatEffect>)
        ensures
            (final(self)@, view_chat_effects(r@)) == connect_ack_step(old(self)@, p@),
    {
        let mut out: Vec<ChatEffect> = Vec::new();
        if !code_one(p) {
            assert(view_chat_effects(out@) =~= Seq::empty());
            return out;
        }
        match p.get("data") {
            Some(d) => match d.as_object() {
                Some(es) => extend_entries(&mut self.user_info, es),
                None => {},
            },
            None => {},
        }
        if !self.join_sent {
            self.join_sent = true;
            out.push(ChatEffect::Send(own("42 [\"join\"]")));
            assert(view_chat_effects(out@) =~= seq![ChatEffectV::Send(join_frame_text())]);
        } else {
            assert(view_chat_effects(out@) =~= Seq::empty());
        }
        out
    }

    fn on_join_ack(&mut self, p: &Json) -> (r: Vec<ChatEffect>)
        ensures
            (final(self)@, view_chat_effects(r@)) == join_ack_step(old(self)@, p@),
    {
        let mut out: Vec<ChatEffect> = Vec::new();
        if !code_one(p) {
            assert(view_chat_effects(out@) =~= Seq::empty());
            return out;
        }
        match p.get("data") {
            Some(d) => {
                match user_id_from(d.get("user_id")) {
                    Some(u) => {
                        self.user_id = Some(u);
                    },
                    None => {},
                }
                match str_field(d, "search_session") {
                    Some(s) => {
                        self.search_session = Some(s);
                    },
                    None => {},
                }
            },
            None => {},
        }
        let es = vec![
            (own("system_content_enum"), Json::from_str("default")),
            (own("turn_count"), Json::from_u64(5)),
        ];
        proof {
            lemma_view_entries(es@);
        }
        assert(view_entries(es@) =~= seq![
            ("system_content_enum"@, JsonV::Str("default"@)),
            ("turn_count"@, jnum(5)),
        ]);
        out.push(ChatEffect::Send(event_frame("preset_chat_message", Json::Object(es))));
        out.push(ChatEffect::Send(event_frame("get_text2Img_remaining_times", Json::Null)));
        assert(view_chat_effects(out@) =~= after_join_frames());
        out
    }

    fn on_remaining(&mut self, p: &Json)
        ensures
            final(self)@ == remaining_step(old(self)@, p@),
    {
        if !code_one(p) {
            return ;
        }
        match p.get("data") {
            Some(d) => match d.get("remaining_times") {
                Some(r) => put_entry(&mut self.user_info, own("remaining_image_times"), r.deep_clone()),
                None => {},
            },
            None => {},
        }
    }

    fn on_chat_ack(&mut self, p: &Json) -> (r: Vec<ChatEffect>)
        ensures
            (final(self)@, view_chat_effects(r@)) == chat_ack_step(old(self)@, p@),
    {
        let mut out: Vec<ChatEffect> = Vec::new();
        match parse_chat_ack(p) {
            None => {},
            Some(StreamEvent::Begin) => {
                let sid = match p.get("data") {
                    Some(d) => str_field(d, "session_id"),
                    None => None,
                };
                match sid {
                    Some(s) => {
                        self.session_id = Some(s);
                    },
                    None => {},
                }
                self.current_response = String::new();
                self.receiving = true;
                self.completed_round = self.pending_round;
                out.push(ChatEffect::Emit(String::new(), ChatEventType::Start));
            },
            Some(StreamEvent::Chunk(c)) => {
                if self.receiving {
                    push_str(&mut self.current_response, c.as_str());
                    out.push(ChatEffect::Emit(c, ChatEventType::Text));
                }
            },
            Some(StreamEvent::End(_)) => {
                self.receiving = false;
                let full = self.current_response.clone();
                if full.as_str().unicode_len() > 0 {
                    let ghost before = self.history@;
                    self.history.push(HistoryMessage::assistant(full.as_str()));
                    assert(view_messages(self.history@) =~= view_messages(before).push(
                        MessageV { role: Role::Assistant, content: full@ },
                    ));
                }
                out.push(ChatEffect::Emit(full, ChatEventType::End));
            },
        }
        assert(view_chat_effects(out@) =~= chat_ack_step(old(self)@, p@).1);
        out
    }

    /// Applies a server event.
    pub fn dispatch(&mut self, name: &str, payload: &Json) -> (r: Vec<ChatEffect>)
        ensures
            (final(self)@, view_chat_effects(r@)) == chat_dispatch_spec(old(self)@, name@, payload@),
    {
        if str_eq(name, "on_connect_ack") {
            self.on_connect_ack(payload)
        } else if str_eq(name, "join_ack") {
            self.on_join_ack(payload)
        } else if str_eq(name, "get_text2Img_remaining_times_ack") {
            self.on_remaining(payload);
            let out: Vec<ChatEffect> = Vec::new();
            assert(view_chat_effects(out@) =~= Seq::empty());
            out
        } else if str_eq(name, "chat_ack") {
            self.on_chat_ack(payload)
        } else {
            let out: Vec<ChatEffect> = Vec::new();
            assert(view_chat_effects(out@) =~= Seq::empty());
            out
        }
    }
}


/// A text frame sorted by its prefix; the JSON parts are still text.
#[derive(Debug, Clone, PartialEq, Eq)]
pub enum ChatFrameKind {
    /// `2`
    Ping,
    /// `3`
    Pong,
    /// `0` followed by the handshake's JSON text.
    Handshake(String),
    /// `40`
    Connected,
    /// `42` followed by the event's JSON text.
    Event(String),
    /// Anything else, whole.
    Unknown(String),
}

/// The model of a [`ChatFrameKind`].
pub enum ChatFrameKindV {
    Ping,
    Pong,
    Handshake(Seq<char>),
    Connected,
    Event(Seq<char>),
    Unknown(Seq<char>),
}

impl View for ChatFrameKind {
    type V = ChatFrameKindV;

    open spec fn view(&self) -> ChatFrameKindV {
        match self {
            ChatFrameKind::Ping => ChatFrameKindV::Ping,
            ChatFrameKind::Pong => ChatFrameKindV::Pong,
            ChatFrameKind::Handshake(s) => ChatFrameKindV::Handshake(s@),
            ChatFrameKind::Connected => ChatFrameKindV::Connected,
            ChatFrameKind::Event(s) => ChatFrameKindV::Event(s@),
            ChatFrameKind::Unknown(s) => ChatFrameKindV::Unknown(s@),
        }
    }
}

/// `2` and `3` exactly, then the `0` prefix, then `40` exactly, then the
/// `42` prefix.
pub open spec fn classify_chat_frame_spec(t: Seq<char>) -> ChatFrameKindV {
    if t == seq!['2'] {
        ChatFrameKindV::Ping
    } else if t == seq!['3'] {
        ChatFrameKindV::Pong
    } else if crate::text::has_prefix(t, seq!['0']) {
        ChatFrameKindV::Handshake(t.skip(1))
    } else if t == seq!['4', '0'] {
        ChatFrameKindV::Connected
    } else if crate::text::has_prefix(t, seq!['4', '2']) {
        ChatFrameKindV::Event(t.skip(2))
    } else {
        ChatFrameKindV::Unknown(t)
    }
}

/// Sorts a text frame by its prefix.
pub fn classify_chat_frame(text: &str) -> (r: ChatFrameKind)
    ensures
        r@ == classify_chat_frame_spec(text@),
{
    proof {
        reveal_strlit("2");
        reveal_strlit("3");
        reveal_strlit("0");
        reveal_strlit("40");
        reveal_strlit("42");
        assert("2"@ =~= seq!['2']);
        assert("3"@ =~= seq!['3']);
        assert("0"@ =~= seq!['0']);
        assert("40"@ =~= seq!['4', '0']);
        assert("42"@ =~= seq!['4', '2']);
    }
    if str_eq(text, "2") {
        ChatFrameKind::Ping
    } else if str_eq(text, "3") {
        ChatFrameKind::Pong
    } else if crate::text::starts_with(text, "0") {
        ChatFrameKind::Handshake(crate::text::suffix_from(text, 1))
    } else if str_eq(text, "40") {
        ChatFrameKind::Connected
    } else if crate::text::starts_with(text, "42") {
        ChatFrameKind::Event(crate::text::suffix_from(text, 2))
    } else {
        ChatFrameKind::Unknown(own(text))
    }
}

/// The event in a parsed `42` frame: an array whose first element is the
/// name; the payload is the second element, `null` when there is none.
pub open spec fn event_of_spec(v: JsonV) -> Option<(Seq<char>, JsonV)> {
    match v {
        JsonV::Array(items) => if items.len() > 0 && items[0] is Str {
            Some((items[0]->Str_0, if items.len() > 1 { items[1] } else { JsonV::Null }))
        } else {
            None
        },
        _ => None,
    }
}

/// Reads the event of a parsed `42` frame.
pub fn event_of(v: &Json) -> (r: Option<(String, Json)>)
    ensures
        match r {
            Some(e) => event_of_spec(v@) == Some((e.0@, e.1@)),
            None => event_of_spec(v@).is_none(),
        },
{
    match v {
        Json::Array(items) => {
            proof {
                lemma_view_items(items@);
            }
            if items.len() == 0 {
                return None;
            }
            match &items[0] {
                Json::Str(name) => {
                    let payload = if items.len() > 1 {
                        items[1].deep_clone()
                    } else {
                        Json::Null
                    };
                    Some((name.clone(), payload))
                },
                _ => None,
            }
        },
        _ => None,
    }
}

/// A frame as the session handles it.
#[derive(Debug, PartialEq)]
pub enum ChatFrame {
    Ping,
    Pong,
    /// A handshake whose JSON was read.
    Handshake,
    Connected,
    Event(String, Json),
    Unknown,
}

/// What a frame does: a ping is answered, a handshake is followed by the
/// connect request, an event goes to its handler.
pub open spec fn chat_frame_step(st: ChatStateV, f: ChatFrame) -> (ChatStateV, Seq<ChatEffectV>) {
    match f {
        ChatFrame::Ping => (st, seq![ChatEffectV::Send(seq!['3'])]),
        ChatFrame::Handshake => (st, seq![ChatEffectV::Send(seq!['4', '0'])]),
        ChatFrame::Event(name, payload) => chat_dispatch_spec(st, name@, payload@),
        _ => (st, Seq::empty()),
    }
}

/// What sending a message does: refused when not connected or while a reply
/// is received; otherwise the message joins the history, and the frame
/// carries the whole history when asked and there is more than this message,
/// else this message alone.
pub open spec fn prepare_spec(st: ChatStateV, message: Seq<char>, include_history: bool) -> Result<
    (ChatStateV, Seq<char>),
    ChatError,
> {
    if !st.connected {
        Err(ChatError::NotConnected)
    } else if st.receiving {
        Err(ChatError::Busy)
    } else {
        let h = st.history.push(MessageV { role: Role::User, content: message });
        let msgs = if include_history && h.len() > 1 {
            h
        } else {
            seq![h.last()]
        };
        Ok((ChatStateV { history: h, ..st }, chat_frame_text(st.conversation_id, msgs)))
    }
}

/// The number of messages written by the user.
pub open spec fn user_message_count(h: Seq<MessageV>) -> nat
    decreases h.len(),
{
    if h.len() == 0 {
        0
    } else {
        user_message_count(h.drop_last()) + if h.last().role == Role::User {
            1nat
        } else {
            0nat
        }
    }
}

/// Whether the reply to message number `target` has begun or already ended.
pub open spec fn response_started_spec(st: ChatStateV, target: u64) -> bool {
    if target == 0 {
        st.receiving
    } else {
        st.receiving || st.completed_round >= target
    }
}

/// The quota as read from the user information.
pub open spec fn user_info_spec(st: ChatStateV) -> UserInfo {
    UserInfo {
        user_id: st.user_id,
        chat_count: jint(jget(JsonV::Object(st.user_info), "chat_count"@)),
        remaining_image_times: jint(jget(JsonV::Object(st.user_info), "remaining_image_times"@)),
    }
}

fn info_int(es: &Vec<(String, Json)>, key: &str) -> (r: Option<i64>)
    ensures
        r == jint(jget(JsonV::Object(view_entries(es@)), key@)),
{
    match find_entry(es, key) {
        Some(i) => {
            proof {
                lemma_find_key(view_entries(es@), key@);
                lemma_view_entries(es@);
            }
            es[i].1.as_i64()
        },
        None => None,
    }
}

impl ChatState {
    /// Handles a frame.
    pub fn on_frame(&mut self, f: &ChatFrame) -> (r: Vec<ChatEffect>)
        ensures
            (final(self)@, view_chat_effects(r@)) == chat_frame_step(old(self)@, *f),
    {
        let mut out: Vec<ChatEffect> = Vec::new();
        match f {
            ChatFrame::Ping => {
                out.push(ChatEffect::Send(own("3")));
                proof {
                    reveal_strlit("3");
                    assert("3"@ =~= seq!['3']);
                }
                assert(view_chat_effects(out@) =~= seq![ChatEffectV::Send(seq!['3'])]);
            },
            ChatFrame::Handshake => {
                out.push(ChatEffect::Send(own("40")));
                proof {
                    reveal_strlit("40");
                    assert("40"@ =~= seq!['4', '0']);
                }
                assert(view_chat_effects(out@) =~= seq![ChatEffectV::Send(seq!['4', '0'])]);
            },
            ChatFrame::Event(name, payload) => {
                return self.dispatch(name.as_str(), payload);
            },
            _ => {
                assert(view_chat_effects(out@) =~= Seq::empty());
            },
        }
        out
    }

    /// Whether a connection must be made: refused without a token, `true`
    /// when already connected (nothing to do), `false` when one must be made.
    pub fn connect_check(&self, token: &str) -> (r: Result<bool, ChatError>)
        ensures
            token@.len() == 0 ==> r == Err::<bool, ChatError>(ChatError::MissingToken),
            token@.len() != 0 ==> r == Ok::<bool, ChatError>(self.connected),
    {
        if token.unicode_len() == 0 {
            Err(ChatError::MissingToken)
        } else {
            Ok(self.connected)
        }
    }

    /// The connection was made: a fresh `join` may be sent.
    pub fn on_established(&mut self)
        ensures
            final(self)@ == (ChatStateV { join_sent: false, connected: true, ..old(self)@ }),
    {
        self.join_sent = false;
        self.connected = true;
    }

    /// Adds a message of the user to the history and returns the frame that
    /// sends it.
    pub fn prepare_message(&mut self, message: &str, include_history: bool) -> (r: Result<
        String,
        ChatError,
    >)
        ensures
            match prepare_spec(old(self)@, message@, include_history) {
                Ok((t, frame)) => final(self)@ == t && (r matches Ok(f) && f@ == frame),
                Err(e) => final(self)@ == old(self)@ && r == Err::<String, ChatError>(e),
            },
    {
        if !self.connected {
            return Err(ChatError::NotConnected);
        }
        if self.receiving {
            return Err(ChatError::Busy);
        }
        let ghost before = self.history@;
        self.history.push(HistoryMessage::user(message));
        let ghost h = view_messages(before).push(MessageV { role: Role::User, content: message@ });
        assert(view_messages(self.history@) =~= h);
        let n = self.history.len();
        if include_history && n > 1 {
            build_chat_frame_ok(self.conversation_id.as_str(), self.history.as_slice())
        } else {
            let last = self.history[n - 1].copy();
            let one = vec![last];
            assert(view_messages(one@) =~= seq![h.last()]);
            build_chat_frame_ok(self.conversation_id.as_str(), one.as_slice())
        }
    }

    /// The message frame was handed to the connection: one more reply is
    /// awaited.
    pub fn note_sent(&mut self)
        ensures
            final(self)@ == (ChatStateV {
                pending_round: old(self)@.pending_round.wrapping_add(1),
                ..old(self)@
            }),
    {
        self.pending_round = self.pending_round.wrapping_add(1);
    }

    /// Whether the reply to message number `target` has begun or ended.
    pub fn response_started(&self, target: u64) -> (r: bool)
        ensures
            r == response_started_spec(self@, target),
    {
        if target == 0 {
            self.receiving
        } else {
            self.receiving || self.completed_round >= target
        }
    }

    /// The quota of the user.
    pub fn user_info(&self) -> (r: UserInfo)
        ensures
            r == user_info_spec(self@),
    {
        UserInfo {
            user_id: self.user_id,
            chat_count: info_int(&self.user_info, "chat_count"),
            remaining_image_times: info_int(&self.user_info, "remaining_image_times"),
        }
    }

    /// Starts a new conversation: a new id and an empty history.
    pub fn new_conversation(&mut self, conversation_id: String)
        ensures
            final(self)@ == (ChatStateV {
                conversation_id: conversation_id@,
                history: Seq::empty(),
                ..old(self)@
            }),
    {
        self.conversation_id = conversation_id;
        self.history = Vec::new();
        assert(view_messages(self.history@) =~= Seq::empty());
    }

    /// A copy of the history.
    pub fn conversation_history(&self) -> (r: Vec<HistoryMessage>)
        ensures
            view_messages(r@) == self@.history,
    {
        let mut out: Vec<HistoryMessage> = Vec::new();
        let mut i: usize = 0;
        while i < self.history.len()
            invariant
                i <= self.history@.len(),
                view_messages(out@) == view_messages(self.history@).subrange(0, i as int),
            decreases self.history@.len() - i,
        {
            let m = self.history[i].copy();
            let ghost before = out@;
            out.push(m);
            assert(out@ == before.push(m));
            assert(view_messages(out@) =~= view_messages(before).push(m@));
            assert(view_messages(out@) =~= view_messages(self.history@).subrange(0, i + 1));
            i = i + 1;
        }
        assert(view_messages(self.history@).subrange(0, self.history@.len() as int) =~= view_messages(
            self.history@,
        ));
        out
    }

    /// How many messages the user wrote in this conversation.
    pub fn conversation_count(&self) -> (r: usize)
        ensures
            r == user_message_count(self@.history),
    {
        let mut c: usize = 0;
        let mut i: usize = 0;
        while i < self.history.len()
            invariant
                i <= self.history@.len(),
                c == user_message_count(view_messages(self.history@).subrange(0, i as int)),
                c <= i,
            decreases self.history@.len() - i,
        {
            let ghost sub = view_messages(self.history@).subrange(0, i + 1);
            assert(sub.drop_last() =~= view_messages(self.history@).subrange(0, i as int));
            if self.history[i].role == Role::User {
                c = c + 1;
            }
            i = i + 1;
        }
        assert(view_messages(self.history@).subrange(0, self.history@.len() as int) =~= view_messages(
            self.history@,
        ));
        c
    }

    /// The connection ended by itself: the session is no longer connected or
    /// receiving, and the callbacks learn of it when it was connected.
    pub fn on_read_end(&mut self) -> (r: Vec<ChatEffect>)
        ensures
            final(self)@ == (ChatStateV { connected: false, receiving: false, ..old(self)@ }),
            old(self)@.connected ==> view_chat_effects(r@) == seq![
                ChatEffectV::Emit("连接已断开"@, ChatEventType::Error),
            ],
            !old(self)@.connected ==> r@.len() == 0,
    {
        let was = self.connected;
        self.connected = false;
        self.receiving = false;
        let mut out: Vec<ChatEffect> = Vec::new();
        if was {
            out.push(ChatEffect::Emit(own("连接已断开"), ChatEventType::Error));
            assert(view_chat_effects(out@) =~= seq![
                ChatEffectV::Emit("连接已断开"@, ChatEventType::Error),
            ]);
        }
        out
    }

    /// The session was closed locally.
    pub fn close(&mut self)
        ensures
            final(self)@ == (ChatStateV { connected: false, receiving: false, ..old(self)@ }),
    {
        self.connected = false;
        self.receiving = false;
    }
}

fn build_chat_frame_ok(session_id: &str, messages: &[HistoryMessage]) -> (r: Result<String, ChatError>)
    ensures
        r matches Ok(f) && f@ == chat_frame_text(session_id@, view_messages(messages@)),
{
    Ok(build_chat_frame(session_id, messages))
}


/// The characters of a session id.
pub open spec fn session_charset() -> Seq<char> {
    "abcdefghijklmnopqrstuvwxyz0123456789"@
}

/// A number below `n` chosen at random, by `fastrand::usize(0..n)`; which one
/// is left open.
#[verifier::external_body]
fn random_below(n: usize) -> (r: usize)
    requires
        n > 0,
    ensures
        r < n,
{
    fastrand::usize(0..n)
}

/// The session id that the drawn positions spell: character `draws[i]` of
/// [`session_charset`] for each draw, in order.
pub fn session_id_from(draws: &Vec<usize>) -> (r: String)
    requires
        forall|i: int| 0 <= i < draws@.len() ==> #[trigger] draws@[i] < 36,
    ensures
        r@.len() == draws@.len(),
        forall|i: int| 0 <= i < draws@.len() ==> #[trigger] r@[i] == session_charset()[draws@[i] as int],
{
    let charset = "abcdefghijklmnopqrstuvwxyz0123456789";
    proof {
        reveal_strlit("abcdefghijklmnopqrstuvwxyz0123456789");
    }
    let mut out = String::new();
    let mut k: usize = 0;
    while k < draws.len()
        invariant
            k <= draws@.len(),
            charset@ == session_charset(),
            charset@.len() == 36,
            forall|i: int| 0 <= i < draws@.len() ==> #[trigger] draws@[i] < 36,
            out@.len() == k,
            forall|i: int| 0 <= i < k ==> #[trigger] out@[i] == session_charset()[draws@[i] as int],
        decreases draws@.len() - k,
    {
        let c = charset.get_char(draws[k]);
        let ghost before = out@;
        push_char(&mut out, c);
        assert(out@ =~= before.push(c));
        assert forall|i: int| 0 <= i < k + 1 implies #[trigger] out@[i] == session_charset()[draws@[i] as int] by {
            if i < k {
                assert(out@[i] == before[i]);
            }
        }
        k = k + 1;
    }
    out
}

/// A new session id: 8 characters drawn at random from the lower-case
/// letters and the digits ([`session_id_from`] of 8 draws below 36).
pub fn generate_session_id() -> (r: String)
    ensures
        r@.len() == 8,
        forall|i: int| 0 <= i < 8 ==> session_charset().contains(#[trigger] r@[i]),
{
    let mut draws: Vec<usize> = Vec::new();
    while draws.len() < 8
        invariant
            draws@.len() <= 8,
            forall|i: int| 0 <= i < draws@.len() ==> #[trigger] draws@[i] < 36,
        decreases 8 - draws@.len(),
    {
        draws.push(random_below(36));
    }
    let r = session_id_from(&draws);
    proof {
        reveal_strlit("abcdefghijklmnopqrstuvwxyz0123456789");
        assert forall|i: int| 0 <= i < 8 implies session_charset().contains(#[trigger] r@[i]) by {
            assert(r@[i] == session_charset()[draws@[i] as int]);
        }
    }
    r
}

/// The server confirms the connection at most once with a `join`: after one
/// confirmation with code 1, no later confirmation sends it again.
pub proof fn law_join_sent_once(st: ChatStateV, p: JsonV, q: JsonV)
    requires
        code_is_one(p),
    ensures
        connect_ack_step(st, p).0.join_sent,
        connect_ack_step(connect_ack_step(st, p).0, q).1.len() == 0,
{
}

/// What streams in is what the history keeps: a reply that begins, brings
/// the non-empty text `c` and ends is added to the history as one message of
/// the assistant with that text, and the end event carries it whole.
pub proof fn law_stream_kept_in_history(
    st: ChatStateV,
    begin: JsonV,
    chunk: JsonV,
    end: JsonV,
    c: Seq<char>,
    tail: Seq<char>,
)
    requires
        chat_ack_spec(begin) == Some(StreamEventV::Begin),
        chat_ack_spec(chunk) == Some(StreamEventV::Chunk(c)),
        chat_ack_spec(end) == Some(StreamEventV::End(tail)),
        c.len() > 0,
    ensures
        ({
            let s1 = chat_ack_step(st, begin).0;
            let s2 = chat_ack_step(s1, chunk).0;
            let (s3, fx) = chat_ack_step(s2, end);
            &&& s3.history == st.history.push(MessageV { role: Role::Assistant, content: c })
            &&& !s3.receiving
            &&& fx == seq![ChatEffectV::Emit(c, ChatEventType::End)]
        }),
{
    let s1 = chat_ack_step(st, begin).0;
    assert(s1.current_response + c =~= c);
}

/// Sending a message adds one message of the user to the conversation.
pub proof fn law_send_counts_one(st: ChatStateV, message: Seq<char>, include_history: bool)
    requires
        prepare_spec(st, message, include_history) is Ok,
    ensures
        user_message_count(prepare_spec(st, message, include_history)->Ok_0.0.history)
            == user_message_count(st.history) + 1,
{
    let h = st.history.push(MessageV { role: Role::User, content: message });
    assert(h.drop_last() =~= st.history);
}

/// Once a reply begins, the wait for the reply to the last message sent is
/// over.
pub proof fn law_begin_starts_response(st: ChatStateV, begin: JsonV)
    requires
        chat_ack_spec(begin) == Some(StreamEventV::Begin),
    ensures
        response_started_spec(chat_ack_step(st, begin).0, st.pending_round),
{
}

/// The remaining image count that the server reports is the one the quota
/// reads back.
pub proof fn law_remaining_read_back(st: ChatStateV, p: JsonV, r: JsonV)
    requires
        code_is_one(p),
        jget_opt(jget(p, "data"@), "remaining_times"@) == Some(r),
    ensures
        user_info_spec(remaining_step(st, p)).remaining_image_times == jint(Some(r)),
        user_info_spec(remaining_step(st, p)).user_id == st.user_id,
{
    crate::json::lemma_entries_put_get(st.user_info, "remaining_image_times"@, r, "remaining_image_times"@);
}


/// A message sent with its history carries the whole history followed by the
/// new message of the user; sent without it, only the new message. Either
/// way the history keeps the new message at its end.
pub proof fn law_prepare_carries_history(st: ChatStateV, message: Seq<char>, include_history: bool)
    requires
        st.connected,
        !st.receiving,
    ensures
        ({
            let m = MessageV { role: Role::User, content: message };
            match prepare_spec(st, message, include_history) {
                Ok((t, frame)) => {
                    &&& t.history == st.history + seq![m]
                    &&& include_history ==> frame == chat_frame_text(st.conversation_id, st.history + seq![m])
                    &&& !include_history ==> frame == chat_frame_text(st.conversation_id, seq![m])
                },
                Err(_) => false,
            }
        }),
{
    let m = MessageV { role: Role::User, content: message };
    let h = st.history.push(m);
    assert(h =~= st.history + seq![m]);
    assert(h.last() == m);
    if h.len() <= 1 {
        assert(h =~= seq![m]);
    }
}

} // verus!
