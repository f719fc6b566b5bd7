//! The second AI chat client: its settings, the address it connects to, and
//! the state that it keeps between frames, with what each frame and each
//! local request does to it.

use vstd::prelude::*;
use vstd::string::StringSliceAdditionalSpecFns;

use crate::chat::{
    build_chat_frame, chat_frame_text, str_field, view_messages, HistoryMessage, MessageV, Role,
};
use crate::json::{
    entries_extend, extend_entries, jget, jint, jobj, jstr, juint, Json, JsonV, view_entries,
};
use crate::text::{own, push_char, push_str, str_eq};

verus! {

/// Errors of the second chat client.
#[derive(Debug, Clone, PartialEq, Eq)]
pub enum ChatError {
    WebSocket(String),
    Json(String),
    Url(String),
    Connection(String),
    Timeout(String),
    SendError(String),
    Reqwest(String),
}

/// What a streamed reply event is.
#[derive(Debug, Clone, Copy, PartialEq, Eq, Structural)]
pub enum StreamEventType {
    Start,
    Text,
    End,
    Error,
}

/// Settings of the client. Timeouts are in seconds.
#[derive(Debug, Clone, PartialEq, Eq)]
pub struct ChatConfig {
    pub ws_base_url: String,
    pub connect_timeout: u64,
    pub response_start_timeout: u64,
    pub response_timeout: u64,
    pub verbose: bool,
}

impl Default for ChatConfig {
    /// The chat server, 10 s to connect, 10 s for a reply to begin, 60 s for
    /// it to end, quiet.
    fn default() -> (r: ChatConfig)
        ensures
            r.ws_base_url@ == "wss://cr-aichat.codemao.cn/aichat/"@,
            r.connect_timeout == 10,
            r.response_start_timeout == 10,
            r.response_timeout == 60,
            !r.verbose,
    {
        ChatConfig {
            ws_base_url: own("wss://cr-aichat.codemao.cn/aichat/"),
            connect_timeout: 10,
            response_start_timeout: 10,
            response_timeout: 60,
            verbose: false,
        }
    }
}

/// Bytes that stand for themselves in a query value.
pub open spec fn is_unreserved(b: u8) -> bool {
    (0x41 <= b <= 0x5a) || (0x61 <= b <= 0x7a) || (0x30 <= b <= 0x39) || b == 0x2d || b == 0x5f
        || b == 0x2e || b == 0x7e
}

/// An upper-case hexadecimal digit.
pub open spec fn hex_upper(d: nat) -> char {
    if d < 10 {
        ((d + 0x30) as u8) as char
    } else {
        ((d - 10 + 0x41) as u8) as char
    }
}

/// One byte of a query value: itself, or `%` and two upper-case hex digits.
pub open spec fn encode_byte(b: u8) -> Seq<char> {
    if is_unreserved(b) {
        seq![b as char]
    } else {
        seq!['%', hex_upper((b / 16) as nat), hex_upper((b % 16) as nat)]
    }
}

/// The percent-encoding of a byte string.
pub open spec fn encode_bytes(bs: Seq<u8>) -> Seq<char>
    decreases bs.len(),
{
    if bs.len() == 0 {
        Seq::empty()
    } else {
        encode_bytes(bs.drop_last()) + encode_byte(bs.last())
    }
}

fn hex_digit(d: u8) -> (c: char)
    requires
        d < 16,
    ensures
        c == hex_upper(d as nat),
{
    if d < 10 {
        (d + 0x30) as char
    } else {
        (d - 10 + 0x41) as char
    }
}

/// Percent-encodes the UTF-8 bytes of `s`.
pub fn urlencoding(s: &str) -> (r: String)
    ensures
        r@ == encode_bytes(s.spec_bytes()),
{
    let bytes = s.as_bytes();
    let mut out = String::new();
    let mut i: usize = 0;
    while i < bytes.len()
        invariant
            i <= bytes@.len(),
            out@ == encode_bytes(bytes@.subrange(0, i as int)),
        decreases bytes@.len() - i,
    {
        let b = bytes[i];
        let ghost before = out@;
        if (0x41 <= b && b <= 0x5a) || (0x61 <= b && b <= 0x7a) || (0x30 <= b && b <= 0x39) || b
            == 0x2d || b == 0x5f || b == 0x2e || b == 0x7e {
            push_char(&mut out, b as char);
        } else {
            push_char(&mut out, '%');
            push_char(&mut out, hex_digit(b / 16));
            push_char(&mut out, hex_digit(b % 16));
        }
        proof {
            let sub = bytes@.subrange(0, i + 1);
            assert(sub.drop_last() =~= bytes@.subrange(0, i as int));
            assert(sub.last() == b);
            assert(out@ =~= before + encode_byte(b));
        }
        i = i + 1;
    }
    assert(bytes@.subrange(0, bytes@.len() as int) =~= bytes@);
    out
}

/// The address of the chat socket for `token`: the base address and the
/// query `stag=6&rf=&source_label=kn&question_type=undefined&EIO=3&transport=websocket&token=`
/// followed by the encoded token.
pub open spec fn ws_url_spec(base: Seq<char>, token_bytes: Seq<u8>) -> Seq<char> {
    base + "?stag=6&rf=&source_label=kn&question_type=undefined&EIO=3&transport=websocket&token="@
        + encode_bytes(token_bytes)
}

/// What `url::Url::parse` makes of a text: its serialization when the text
/// is a valid absolute URL, nothing otherwise. A function of the text alone.
pub uninterp spec fn url_serialization(text: Seq<char>) -> Option<Seq<char>>;

/// `url::Url::parse`, read back as its serialization (`Url::as_str`). The
/// result is named, not stated; the text of a parse error is left unsaid.
#[verifier::external_body]
fn parse_url(text: &str) -> (r: Result<String, String>)
    ensures
        match r {
            Ok(u) => url_serialization(text@) == Some(u@),
            Err(_) => url_serialization(text@) is None,
        },
{
    match url::Url::parse(text) {
        Ok(u) => Ok(u.as_str().to_string()),
        Err(e) => Err(e.to_string()),
    }
}

impl ChatConfig {
    /// The address of the chat socket for `token`: [`ws_url_spec`] as the
    /// URL parser reads it; an address it refuses is a `Url` error.
    pub fn build_ws_url(&self, token: &str) -> (r: Result<String, ChatError>)
        ensures
            match url_serialization(ws_url_spec(self.ws_base_url@, token.spec_bytes())) {
                Some(u) => r matches Ok(x) && x@ == u,
                None => r matches Err(ChatError::Url(_)),
            },
    {
        let mut out = self.ws_base_url.clone();
        push_str(
            &mut out,
            "?stag=6&rf=&source_label=kn&question_type=undefined&EIO=3&transport=websocket&token=",
        );
        let enc = urlencoding(token);
        push_str(&mut out, enc.as_str());
        match parse_url(out.as_str()) {
            Ok(u) => Ok(u),
            Err(m) => Err(ChatError::Url(m)),
        }
    }
}


/// The state of the second client between frames.
#[derive(Debug, PartialEq)]
pub struct ClientState {
    pub is_receiving_response: bool,
    pub current_response: String,
    pub response_complete: bool,
    /// What the server said of the user, keyed by name.
    pub user_info: Vec<(String, Json)>,
    pub conversation_history: Vec<HistoryMessage>,
    pub conversation_id: String,
    pub user_id: Option<u64>,
    pub search_session: Option<String>,
    pub connected: bool,
    pub joined: bool,
}

/// The model of a [`ClientState`].
pub struct ClientStateV {
    pub is_receiving_response: bool,
    pub current_response: Seq<char>,
    pub response_complete: bool,
    pub user_info: Seq<(Seq<char>, JsonV)>,
    pub conversation_history: Seq<MessageV>,
    pub conversation_id: Seq<char>,
    pub user_id: Option<u64>,
    pub search_session: Option<Seq<char>>,
    pub connected: bool,
    pub joined: bool,
}

impl View for ClientState {
    type V = ClientStateV;

    open spec fn view(&self) -> ClientStateV {
        ClientStateV {
            is_receiving_response: self.is_receiving_response,
            current_response: self.current_response@,
            response_complete: self.response_complete,
            user_info: view_entries(self.user_info@),
            conversation_history: view_messages(self.conversation_history@),
            conversation_id: self.conversation_id@,
            user_id: self.user_id,
            search_session: crate::chat::opt_text(self.search_session),
            connected: self.connected,
            joined: self.joined,
        }
    }
}

/// What the client asks of the connection and of the callbacks.
#[derive(Debug, Clone, PartialEq, Eq)]
pub enum DsEffect {
    /// Send a text frame.
    Send(String),
    /// Send a text frame one second later.
    SendDelayed(String),
    /// Call the callbacks with this text and event.
    Emit(String, StreamEventType),
}

/// The model of a [`DsEffect`].
pub enum DsEffectV {
    Send(Seq<char>),
    SendDelayed(Seq<char>),
    Emit(Seq<char>, StreamEventType),
}

impl View for DsEffect {
    type V = DsEffectV;

    open spec fn view(&self) -> DsEffectV {
        match self {
            DsEffect::Send(s) => DsEffectV::Send(s@),
            DsEffect::SendDelayed(s) => DsEffectV::SendDelayed(s@),
            DsEffect::Emit(s, e) => DsEffectV::Emit(s@, *e),
        }
    }
}

pub open spec fn view_ds_effects(s: Seq<DsEffect>) -> Seq<DsEffectV> {
    s.map_values(|e: DsEffect| e@)
}

/// The frame asking for the preset messages.
pub open spec fn preset_frame() -> Seq<char> {
    "42 [\"preset_chat_message\",{\"turn_count\":5,\"system_content_enum\":\"default\"}]"@
}

/// The frame asking for the remaining image count.
pub open spec fn remaining_frame() -> Seq<char> {
    "42 [\"get_text2Img_remaining_times\"]"@
}

/// The frame that joins the chat room.
pub open spec fn ds_join_frame() -> Seq<char> {
    "42 [\"join\"]"@
}

/// What an event does, by name.
pub open spec fn ds_event_step(st: ClientStateV, name: Seq<char>, data: JsonV) -> (
    ClientStateV,
    Seq<DsEffectV>,
) {
    let code = jint(jget(data, "code"@));
    if name == "on_connect_ack"@ {
        if code == Some(1i64) {
            match jobj(jget(data, "data"@)) {
                Some(es) => (
                    ClientStateV { user_info: entries_extend(st.user_info, es), ..st },
                    Seq::empty(),
                ),
                None => (st, Seq::empty()),
            }
        } else {
            (st, Seq::empty())
        }
    } else if name == "join_ack"@ {
        if code == Some(1i64) {
            let st1 = match jget(data, "data"@) {
                Some(d) => ClientStateV {
                    user_id: juint(jget(d, "user_id"@)),
                    search_session: jstr(jget(d, "search_session"@)),
                    ..st
                },
                None => st,
            };
            (
                ClientStateV { joined: true, ..st1 },
                seq![DsEffectV::Send(preset_frame()), DsEffectV::Send(remaining_frame())],
            )
        } else {
            (st, Seq::empty())
        }
    } else if name == "chat_ack"@ {
        match code {
            None => (st, Seq::empty()),
            Some(c) => if c == 1 {
                match jget(data, "data"@) {
                    None => (st, Seq::empty()),
                    Some(d) => {
                        let ct = crate::chat::text_or_empty(jstr(jget(d, "content_type"@)));
                        let content = crate::chat::text_or_empty(jstr(jget(d, "content"@)));
                        if ct == "stream_output_begin"@ {
                            (
                                ClientStateV {
                                    is_receiving_response: true,
                                    current_response: Seq::empty(),
                                    response_complete: false,
                                    ..st
                                },
                                seq![DsEffectV::Emit(Seq::empty(), StreamEventType::Start)],
                            )
                        } else if ct == "stream_output_content"@ {
                            (
                                ClientStateV {
                                    current_response: st.current_response + content,
                                    ..st
                                },
                                seq![DsEffectV::Emit(content, StreamEventType::Text)],
                            )
                        } else if ct == "stream_output_end"@ {
                            let full = st.current_response;
                            (
                                ClientStateV {
                                    is_receiving_response: false,
                                    response_complete: true,
                                    conversation_history: if full.len() > 0 {
                                        st.conversation_history.push(
                                            MessageV { role: Role::Assistant, content: full },
                                        )
                                    } else {
                                        st.conversation_history
                                    },
                                    ..st
                                },
                                seq![DsEffectV::Emit(full, StreamEventType::End)],
                            )
                        } else {
                            (st, Seq::empty())
                        }
                    },
                }
            } else {
                match jstr(jget(data, "code_msg"@)) {
                    Some(m) => (
                        ClientStateV {
                            is_receiving_response: false,
                            response_complete: true,
                            current_response: "错误: "@ + m,
                            ..st
                        },
                        Seq::empty(),
                    ),
                    None => (st, Seq::empty()),
                }
            },
        }
    } else {
        (st, Seq::empty())
    }
}

/// What a text frame does. `event` is what the text after `42` reads as, a
/// JSON array, when it does.
pub open spec fn ds_message_step(st: ClientStateV, text: Seq<char>, event: Option<Seq<JsonV>>) -> (
    ClientStateV,
    Seq<DsEffectV>,
) {
    if crate::text::has_prefix(text, seq!['0']) {
        (st, Seq::empty())
    } else if text == seq!['4', '0'] {
        (st, Seq::empty())
    } else if text == seq!['2'] {
        (st, seq![DsEffectV::Send(seq!['3'])])
    } else if text == seq!['3'] {
        (st, Seq::empty())
    } else if crate::text::has_prefix(text, seq!['4', '2']) {
        match event {
            Some(arr) => if arr.len() >= 2 {
                ds_event_step(st, crate::chat::text_or_empty(jstr(Some(arr[0]))), arr[1])
            } else {
                (st, Seq::empty())
            },
            None => (st, Seq::empty()),
        }
    } else {
        (st, Seq::empty())
    }
}


proof fn lemma_event_names()
    ensures
        "chat_ack"@ != "on_connect_ack"@,
        "chat_ack"@ != "join_ack"@,
{
    reveal_strlit("chat_ack");
    reveal_strlit("on_connect_ack");
    reveal_strlit("join_ack");
    assert("chat_ack"@.len() != "on_connect_ack"@.len());
    assert("chat_ack"@[0] != "join_ack"@[0]);
}

fn code_of(data: &Json) -> (r: Option<i64>)
    ensures
        r == jint(jget(data@, "code"@)),
{
    match data.get("code") {
        Some(c) => c.as_i64(),
        None => None,
    }
}

fn text_field(d: &Json, key: &str) -> (r: String)
    ensures
        r@ == crate::chat::text_or_empty(jstr(jget(d@, key@))),
{
    match str_field(d, key) {
        Some(s) => s,
        None => String::new(),
    }
}

/// A state that has seen nothing, for conversation `id`.
pub open spec fn fresh_state(id: Seq<char>) -> ClientStateV {
    ClientStateV {
        is_receiving_response: false,
        current_response: Seq::empty(),
        response_complete: false,
        user_info: Seq::empty(),
        conversation_history: Seq::empty(),
        conversation_id: id,
        user_id: None,
        search_session: None,
        connected: false,
        joined: false,
    }
}

pub open spec fn opt_items(event: Option<&Vec<Json>>) -> Option<Seq<JsonV>> {
    match event {
        Some(v) => Some(crate::json::view_items(v@)),
        None => None,
    }
}

impl ClientState {
    /// A fresh state for conversation `conversation_id`.
    pub fn new(conversation_id: String) -> (r: ClientState)
        ensures
            r@ == fresh_state(conversation_id@),
    {
        let r = ClientState {
            is_receiving_response: false,
            current_response: String::new(),
            response_complete: false,
            user_info: Vec::new(),
            conversation_history: Vec::new(),
            conversation_id,
            user_id: None,
            search_session: None,
            connected: false,
            joined: false,
        };
        assert(view_entries(r.user_info@) =~= Seq::empty());
        assert(view_messages(r.conversation_history@) =~= Seq::empty());
        r
    }

    fn on_chat_ack(&mut self, d: &Json) -> (r: Vec<DsEffect>)
        ensures
            (final(self)@, view_ds_effects(r@)) == ds_event_step(old(self)@, "chat_ack"@, d@),
    {
        proof {
            lemma_event_names();
        }
        let mut out: Vec<DsEffect> = Vec::new();
        let code = match code_of(d) {
            Some(c) => c,
            None => {
                assert(view_ds_effects(out@) =~= Seq::empty());
                return out;
            },
        };
        if code == 1 {
            let data = match d.get("data") {
                Some(x) => x,
                None => {
                    assert(view_ds_effects(out@) =~= Seq::empty());
                    return out;
                },
            };
            let ct = text_field(data, "content_type");
            let content = text_field(data, "content");
            if str_eq(ct.as_str(), "stream_output_begin") {
                self.is_receiving_response = true;
                self.current_response = String::new();
                self.response_complete = false;
                out.push(DsEffect::Emit(String::new(), StreamEventType::Start));
            } else if str_eq(ct.as_str(), "stream_output_content") {
                push_str(&mut self.current_response, content.as_str());
                out.push(DsEffect::Emit(content, StreamEventType::Text));
            } else if str_eq(ct.as_str(), "stream_output_end") {
                self.is_receiving_response = false;
                self.response_complete = true;
                let full = self.current_response.clone();
                if full.as_str().unicode_len() > 0 {
                    let ghost before = self.conversation_history@;
                    self.conversation_history.push(HistoryMessage::assistant(full.as_str()));
                    assert(view_messages(self.conversation_history@) =~= view_messages(before).push(
                        MessageV { role: Role::Assistant, content: full@ },
                    ));
                }
                out.push(DsEffect::Emit(full, StreamEventType::End));
            }
        } else {
            match str_field(d, "code_msg") {
                Some(m) => {
                    self.is_receiving_response = false;
                    self.response_complete = true;
                    let mut t = own("错误: ");
                    push_str(&mut t, m.as_str());
                    self.current_response = t;
                },
                None => {},
            }
        }
        assert(view_ds_effects(out@) =~= ds_event_step(old(self)@, "chat_ack"@, d@).1);
        out
    }

    fn on_event(&mut self, name: &str, d: &Json) -> (r: Vec<DsEffect>)
        ensures
            (final(self)@, view_ds_effects(r@)) == ds_event_step(old(self)@, name@, d@),
    {
        let mut out: Vec<DsEffect> = Vec::new();
        if str_eq(name, "on_connect_ack") {
            if code_of(d) == Some(1i64) {
                match d.get("data") {
                    Some(x) => match x.as_object() {
                        Some(es) => extend_entries(&mut self.user_info, es),
                        None => {},
                    },
                    None => {},
                }
            }
        } else if str_eq(name, "join_ack") {
            if code_of(d) == Some(1i64) {
                match d.get("data") {
                    Some(x) => {
                        self.user_id = match x.get("user_id") {
                            Some(u) => u.as_u64(),
                            None => None,
                        };
                        self.search_session = str_field(x, "search_session");
                    },
                    None => {},
                }
                self.joined = true;
                out.push(
                    DsEffect::Send(
                        own(
                            "42 [\"preset_chat_message\",{\"turn_count\":5,\"system_content_enum\":\"default\"}]",
                        ),
                    ),
                );
                out.push(DsEffect::Send(own("42 [\"get_text2Img_remaining_times\"]")));
            }
        } else if str_eq(name, "chat_ack") {
            return self.on_chat_ack(d);
        }
        assert(view_ds_effects(out@) =~= ds_event_step(old(self)@, name@, d@).1);
        out
    }

    /// Handles a text frame. `event` is what the text after `42` reads as,
    /// a JSON array, when it does.
    pub fn handle_message(&mut self, text: &str, event: Option<&Vec<Json>>) -> (r: Vec<DsEffect>)
        ensures
            (final(self)@, view_ds_effects(r@)) == ds_message_step(old(self)@, text@, opt_items(event)),
    {
        proof {
            reveal_strlit("2");
            reveal_strlit("3");
            reveal_strlit("0");
            reveal_strlit("40");
            reveal_strlit("42");
            assert("2"@ =~= seq!['2']);
            assert("3"@ =~= seq!['3']);
            assert("0"@ =~= seq!['0']);
            assert("40"@ =~= seq!['4', '0']);
            assert("42"@ =~= seq!['4', '2']);
        }
        let mut out: Vec<DsEffect> = Vec::new();
        let open = crate::text::starts_with(text, "0");
        let connected = str_eq(text, "40");
        let pong = str_eq(text, "3");
        if open || connected || pong {
            assert(text@ != seq!['2']) by {
                if pong {
                    assert(text@[0] == '3');
                }
                if open {
                    assert(text@.subrange(0, 1)[0] == text@[0]);
                    assert(text@[0] == '0');
                }
            }
            assert(ds_message_step(old(self)@, text@, opt_items(event)).1 =~= Seq::empty());
        } else if str_eq(text, "2") {
            out.push(DsEffect::Send(own("3")));
            assert(view_ds_effects(out@) =~= seq![DsEffectV::Send(seq!['3'])]);
            return out;
        } else if crate::text::starts_with(text, "42") {
            match event {
                Some(arr) => {
                    proof {
                        crate::json::lemma_view_items(arr@);
                    }
                    if arr.len() >= 2 {
                        let name = match arr[0].as_str() {
                            Some(n) => own(n),
                            None => String::new(),
                        };
                        return self.on_event(name.as_str(), &arr[1]);
                    }
                    assert(ds_message_step(old(self)@, text@, opt_items(event)).1 =~= Seq::empty());
                },
                None => {
                    assert(ds_message_step(old(self)@, text@, opt_items(event)).1 =~= Seq::empty());
                },
            }
        } else {
            assert(ds_message_step(old(self)@, text@, opt_items(event)).1 =~= Seq::empty());
        }
        assert(view_ds_effects(out@) =~= Seq::empty());
        out
    }
}


/// What sending a message does: refused with a connection error carrying the
/// given text before the room is joined and while a reply is received; otherwise the history becomes the earlier history
/// (when asked to include it) followed by this message, the reply state is
/// reset, and the frame carries that history.
pub open spec fn ds_prepare_spec(st: ClientStateV, content: Seq<char>, include_history: bool) -> Result<
    (ClientStateV, Seq<char>),
    Seq<char>,
> {
    if !st.joined {
        Err("尚未加入房间，请稍后重试"@)
    } else if st.is_receiving_response {
        Err("正在接收回复，请等待"@)
    } else {
        let msgs = (if include_history {
            st.conversation_history
        } else {
            Seq::empty()
        }).push(MessageV { role: Role::User, content });
        Ok(
            (
                ClientStateV {
                    conversation_history: msgs,
                    is_receiving_response: false,
                    response_complete: false,
                    current_response: Seq::empty(),
                    ..st
                },
                chat_frame_text(st.conversation_id, msgs),
            ),
        )
    }
}

/// Whether an error carries the message `m` as a connection error.
pub open spec fn is_connection_error(e: ChatError, m: Seq<char>) -> bool {
    e matches ChatError::Connection(t) && t@ == m
}


/// How the wait for the connection stands: done once connected and joined;
/// after the time is up, a timeout naming what is missing; otherwise still
/// waiting (`None`).
pub open spec fn connect_wait_spec(st: ClientStateV, timed_out: bool) -> Option<Result<(), Seq<char>>> {
    if st.connected && st.joined {
        Some(Ok(()))
    } else if timed_out {
        if !st.connected {
            Some(Err("连接超时"@))
        } else {
            Some(Err("加入房间超时"@))
        }
    } else {
        None
    }
}

/// How the wait for a reply to begin stands.
pub open spec fn start_wait_spec(st: ClientStateV, timed_out: bool) -> Option<Result<(), Seq<char>>> {
    if st.is_receiving_response || st.response_complete {
        Some(Ok(()))
    } else if timed_out {
        Some(Err("等待回复开始超时"@))
    } else {
        None
    }
}

/// How the wait for a reply to end stands: the reply once complete.
pub open spec fn end_wait_spec(st: ClientStateV, timed_out: bool) -> Option<Result<Seq<char>, Seq<char>>> {
    if st.response_complete {
        Some(Ok(st.current_response))
    } else if timed_out {
        Some(Err("等待回复完成超时"@))
    } else {
        None
    }
}

impl ClientState {
    /// Adds a message of the user to the history and returns the frame that
    /// sends it.
    pub fn prepare_send(&mut self, content: &str, include_history: bool) -> (r: Result<
        String,
        ChatError,
    >)
        ensures
            match ds_prepare_spec(old(self)@, content@, include_history) {
                Ok((t, frame)) => final(self)@ == t && (r matches Ok(f) && f@ == frame),
                Err(m) => final(self)@ == old(self)@ && is_connection_error(r->Err_0, m) && r is Err,
            },
    {
        if !self.joined {
            return Err(ChatError::Connection(own("尚未加入房间，请稍后重试")));
        }
        if self.is_receiving_response {
            return Err(ChatError::Connection(own("正在接收回复，请等待")));
        }
        let ghost before = view_messages(self.conversation_history@);
        if !include_history {
            self.conversation_history = Vec::new();
        }
        let ghost kept = view_messages(self.conversation_history@);
        assert(kept =~= (if include_history {
            before
        } else {
            Seq::empty()
        }));
        let ghost prior = self.conversation_history@;
        self.conversation_history.push(HistoryMessage::user(content));
        assert(view_messages(self.conversation_history@) =~= kept.push(
            MessageV { role: Role::User, content: content@ },
        ));
        self.is_receiving_response = false;
        self.response_complete = false;
        self.current_response = String::new();
        let frame = build_chat_frame(self.conversation_id.as_str(), self.conversation_history.as_slice());
        Ok(frame)
    }

    /// How the wait for the connection stands.
    pub fn connect_wait(&self, timed_out: bool) -> (r: Option<Result<(), ChatError>>)
        ensures
            match connect_wait_spec(self@, timed_out) {
                None => r.is_none(),
                Some(Ok(())) => r == Some(Ok::<(), ChatError>(())),
                Some(Err(m)) => r matches Some(Err(ChatError::Timeout(t))) && t@ == m,
            },
    {
        if self.connected && self.joined {
            Some(Ok(()))
        } else if timed_out {
            if !self.connected {
                Some(Err(ChatError::Timeout(own("连接超时"))))
            } else {
                Some(Err(ChatError::Timeout(own("加入房间超时"))))
            }
        } else {
            None
        }
    }

    /// How the wait for a reply to begin stands.
    pub fn start_wait(&self, timed_out: bool) -> (r: Option<Result<(), ChatError>>)
        ensures
            match start_wait_spec(self@, timed_out) {
                None => r.is_none(),
                Some(Ok(())) => r == Some(Ok::<(), ChatError>(())),
                Some(Err(m)) => r matches Some(Err(ChatError::Timeout(t))) && t@ == m,
            },
    {
        if self.is_receiving_response || self.response_complete {
            Some(Ok(()))
        } else if timed_out {
            Some(Err(ChatError::Timeout(own("等待回复开始超时"))))
        } else {
            None
        }
    }

    /// How the wait for a reply to end stands.
    pub fn end_wait(&self, timed_out: bool) -> (r: Option<Result<String, ChatError>>)
        ensures
            match end_wait_spec(self@, timed_out) {
                None => r.is_none(),
                Some(Ok(s)) => r matches Some(Ok(t)) && t@ == s,
                Some(Err(m)) => r matches Some(Err(ChatError::Timeout(t))) && t@ == m,
            },
    {
        if self.response_complete {
            Some(Ok(self.current_response.clone()))
        } else if timed_out {
            Some(Err(ChatError::Timeout(own("等待回复完成超时"))))
        } else {
            None
        }
    }

    /// The socket opened: the client is connected, says `40` at once and
    /// asks to join a second later.
    pub fn on_socket_open(&mut self) -> (r: Vec<DsEffect>)
        ensures
            final(self)@ == (ClientStateV { connected: true, ..old(self)@ }),
            view_ds_effects(r@) == seq![
                DsEffectV::Send(seq!['4', '0']),
                DsEffectV::SendDelayed(ds_join_frame()),
            ],
    {
        self.connected = true;
        let out = vec![DsEffect::Send(own("40")), DsEffect::SendDelayed(own("42 [\"join\"]"))];
        proof {
            reveal_strlit("40");
            assert("40"@ =~= seq!['4', '0']);
        }
        assert(view_ds_effects(out@) =~= seq![
            DsEffectV::Send(seq!['4', '0']),
            DsEffectV::SendDelayed(ds_join_frame()),
        ]);
        out
    }

    /// Starts a new conversation: an empty history and a new id.
    pub fn new_conversation(&mut self, conversation_id: String)
        ensures
            final(self)@ == (ClientStateV {
                conversation_history: Seq::empty(),
                conversation_id: conversation_id@,
                ..old(self)@
            }),
    {
        self.conversation_history = Vec::new();
        self.conversation_id = conversation_id;
        assert(view_messages(self.conversation_history@) =~= Seq::empty());
    }
}


/// A number below `n` chosen at random by the thread's generator
/// (`rand::rng().random_range(0..n)`); which one is left open. The
/// generator panics when the system's entropy source fails at its first
/// use, which no precondition here can rule out.
#[verifier::external_body]
pub(crate) fn random_index(n: usize) -> (r: usize)
    requires
        n > 0,
    ensures
        r < n,
{
    rand::RngExt::random_range(&mut rand::rng(), 0..n)
}

/// A new session id of `length` characters drawn at random from the
/// lower-case letters and the digits
/// ([`crate::chat::session_id_from`] of `length` draws below 36).
pub fn generate_session_id(length: usize) -> (r: String)
    ensures
        r@.len() == length,
        forall|i: int|
            0 <= i < length ==> crate::chat::session_charset().contains(#[trigger] r@[i]),
{
    let mut draws: Vec<usize> = Vec::new();
    while draws.len() < length
        invariant
            draws@.len() <= length,
            forall|i: int| 0 <= i < draws@.len() ==> #[trigger] draws@[i] < 36,
        decreases length - draws@.len(),
    {
        draws.push(random_index(36));
    }
    let r = crate::chat::session_id_from(&draws);
    proof {
        reveal_strlit("abcdefghijklmnopqrstuvwxyz0123456789");
        assert forall|i: int| 0 <= i < length implies crate::chat::session_charset().contains(
            #[trigger] r@[i],
        ) by {
            assert(r@[i] == crate::chat::session_charset()[draws@[i] as int]);
        }
    }
    r
}

/// Settings from which a client is made; `C` is the type of the stream
/// callbacks.
pub struct ChatClientBuilder<C> {
    pub token: Option<String>,
    pub config: ChatConfig,
    pub callbacks: Vec<C>,
}

/// What a client is made of.
pub struct ClientParts<C> {
    pub token: String,
    pub config: ChatConfig,
    pub callbacks: Vec<C>,
    pub state: ClientState,
}

impl<C> ChatClientBuilder<C> {
    /// No token, the default settings, no callbacks.
    pub fn new() -> (r: ChatClientBuilder<C>)
        ensures
            r.token.is_none(),
            r.config.ws_base_url@ == "wss://cr-aichat.codemao.cn/aichat/"@,
            r.config.connect_timeout == 10,
            r.config.response_start_timeout == 10,
            r.config.response_timeout == 60,
            !r.config.verbose,
            r.callbacks@.len() == 0,
    {
        ChatClientBuilder { token: None, config: ChatConfig::default(), callbacks: Vec::new() }
    }

    /// Sets the token.
    pub fn token(self, token: &str) -> (r: ChatClientBuilder<C>)
        ensures
            r.token matches Some(t) && t@ == token@,
            r.config == self.config,
            r.callbacks == self.callbacks,
    {
        ChatClientBuilder { token: Some(own(token)), config: self.config, callbacks: self.callbacks }
    }

    /// Sets whether progress is printed.
    pub fn verbose(self, verbose: bool) -> (r: ChatClientBuilder<C>)
        ensures
            r.config == (ChatConfig { verbose, ..self.config }),
            r.token == self.token,
            r.callbacks == self.callbacks,
    {
        ChatClientBuilder { config: ChatConfig { verbose, ..self.config }, ..self }
    }

    /// Sets the connection timeout, in seconds.
    pub fn connect_timeout(self, secs: u64) -> (r: ChatClientBuilder<C>)
        ensures
            r.config == (ChatConfig { connect_timeout: secs, ..self.config }),
            r.token == self.token,
            r.callbacks == self.callbacks,
    {
        ChatClientBuilder { config: ChatConfig { connect_timeout: secs, ..self.config }, ..self }
    }

    /// Sets how long a reply may take to begin, in seconds.
    pub fn response_start_timeout(self, secs: u64) -> (r: ChatClientBuilder<C>)
        ensures
            r.config == (ChatConfig { response_start_timeout: secs, ..self.config }),
            r.token == self.token,
            r.callbacks == self.callbacks,
    {
        ChatClientBuilder { config: ChatConfig { response_start_timeout: secs, ..self.config }, ..self }
    }

    /// Sets how long a reply may take, in seconds.
    pub fn response_timeout(self, secs: u64) -> (r: ChatClientBuilder<C>)
        ensures
            r.config == (ChatConfig { response_timeout: secs, ..self.config }),
            r.token == self.token,
            r.callbacks == self.callbacks,
    {
        ChatClientBuilder { config: ChatConfig { response_timeout: secs, ..self.config }, ..self }
    }

    /// Adds a stream callback.
    pub fn on_event(self, f: C) -> (r: ChatClientBuilder<C>)
        ensures
            r.callbacks@ == self.callbacks@.push(f),
            r.token == self.token,
            r.config == self.config,
    {
        let mut cbs = self.callbacks;
        cbs.push(f);
        ChatClientBuilder { token: self.token, config: self.config, callbacks: cbs }
    }

    /// The parts of a client: refused without a token; the state starts a
    /// conversation with a fresh 8-character id.
    pub fn build(self) -> (r: Result<ClientParts<C>, ChatError>)
        ensures
            match self.token {
                None => r matches Err(ChatError::Connection(m)) && m@ == "Token未设置"@,
                Some(t) => r matches Ok(p) && p.token == t && p.config == self.config
                    && p.callbacks == self.callbacks && p.state@.conversation_id.len() == 8
                    && p.state@ == fresh_state(p.state@.conversation_id),
            },
    {
        match self.token {
            None => Err(ChatError::Connection(own("Token未设置"))),
            Some(token) => {
                let id = generate_session_id(8);
                let state = ClientState::new(id);
                Ok(ClientParts { token, config: self.config, callbacks: self.callbacks, state })
            },
        }
    }
}


/// A `chat_ack` payload with code 1 whose data has content type `ct` and
/// content `content`.
pub open spec fn is_chat_ack(p: JsonV, ct: Seq<char>, content: Seq<char>) -> bool {
    jint(jget(p, "code"@)) == Some(1i64) && match jget(p, "data"@) {
        Some(d) => jstr(jget(d, "content_type"@)) == Some(ct) && crate::chat::text_or_empty(
            jstr(jget(d, "content"@)),
        ) == content,
        None => false,
    }
}

proof fn lemma_content_types()
    ensures
        "stream_output_begin"@ != "stream_output_content"@,
        "stream_output_begin"@ != "stream_output_end"@,
        "stream_output_content"@ != "stream_output_end"@,
{
    reveal_strlit("stream_output_begin");
    reveal_strlit("stream_output_content");
    reveal_strlit("stream_output_end");
    assert("stream_output_begin"@.len() != "stream_output_content"@.len());
    assert("stream_output_begin"@.len() != "stream_output_end"@.len());
    assert("stream_output_content"@.len() != "stream_output_end"@.len());
}

/// What a reply streams in is what the wait for it returns and what the
/// history keeps: after a begin, the non-empty text `x`, and an end, the
/// reply is complete with text `x` and the history ends with it as a message
/// of the assistant.
pub proof fn law_reply_returned(
    st: ClientStateV,
    b: JsonV,
    c: JsonV,
    e: JsonV,
    u: Seq<char>,
    x: Seq<char>,
    w: Seq<char>,
    timed_out: bool,
)
    requires
        is_chat_ack(b, "stream_output_begin"@, u),
        is_chat_ack(c, "stream_output_content"@, x),
        is_chat_ack(e, "stream_output_end"@, w),
        x.len() > 0,
    ensures
        ({
            let s1 = ds_event_step(st, "chat_ack"@, b).0;
            let s2 = ds_event_step(s1, "chat_ack"@, c).0;
            let s3 = ds_event_step(s2, "chat_ack"@, e).0;
            &&& end_wait_spec(s3, timed_out) == Some(Ok::<Seq<char>, Seq<char>>(x))
            &&& s3.conversation_history == st.conversation_history.push(
                MessageV { role: Role::Assistant, content: x },
            )
        }),
{
    lemma_event_names();
    lemma_content_types();
    let s1 = ds_event_step(st, "chat_ack"@, b).0;
    assert(s1.current_response + x =~= x);
}

/// A refused chat ends the wait with the server's message after `错误: `.
pub proof fn law_refusal_returned(st: ClientStateV, p: JsonV, m: Seq<char>, timed_out: bool)
    requires
        jint(jget(p, "code"@)) is Some,
        jint(jget(p, "code"@)) != Some(1i64),
        jstr(jget(p, "code_msg"@)) == Some(m),
    ensures
        end_wait_spec(ds_event_step(st, "chat_ack"@, p).0, timed_out) == Some(
            Ok::<Seq<char>, Seq<char>>("错误: "@ + m),
        ),
{
    lemma_event_names();
}

/// A message sent without the history is sent alone, and the history holds
/// it alone; with the history, it follows the earlier messages.
pub proof fn law_history_choice(st: ClientStateV, content: Seq<char>, include_history: bool)
    requires
        ds_prepare_spec(st, content, include_history) is Ok,
    ensures
        ds_prepare_spec(st, content, include_history)->Ok_0.0.conversation_history == (if include_history {
            st.conversation_history
        } else {
            Seq::empty()
        }).push(MessageV { role: Role::User, content }),
{
}

} // verus!
