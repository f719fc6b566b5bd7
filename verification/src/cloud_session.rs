//! The state of a cloud connection and how it reacts to frames from the
//! server and to local operations. Each step returns the effects that the
//! connection's owner carries out: frames to send and callbacks to run.

use vstd::prelude::*;

use crate::cloud::{
    cv_from_json, cvs, dup_values, list_apply, list_op_args, list_op_name, list_op_wire,
    merge_commands, merge_spec, parse_list_action, parse_list_action_spec, view_commands,
    BatchedUploads, BatchedV, ChangeSource, CloudCommand, CloudCommandV, CloudError, CloudValue,
    CloudValueV, CommandFactory, ConnectionEvent, ListAction, ListActionV, RankingData,
    RankingItem, RankingUser, VarKind, ASCENDING_ORDER, DESCENDING_ORDER, MAX_RANKING_LIMIT,
    MIN_RANKING_LIMIT,
};
use crate::cloud_store::{
    empty_store, list_v, resolve_list, resolve_var, store_list, store_var, var_v, vars_of,
    with_vars, DataStore, ListV, StoreV, VarV,
};
use crate::json::{
    jarr, jget, jint, jnum, jobj, jstr, lemma_view_entries, lemma_view_items, view_entries,
    view_items, Json, JsonV,
};
use crate::text::{
    dec_int, fmt_i64, has_prefix, own, parse_i64, parse_i64_spec, starts_with, str_eq, suffix_from,
};

verus! {

/// A Socket.IO text frame, sorted by its prefix. The JSON parts are still text.
#[derive(Debug, Clone, PartialEq, Eq)]
pub enum FrameKind {
    /// `2`
    Ping,
    /// `3`
    Pong,
    /// `0` followed by the handshake's JSON text.
    Handshake(String),
    /// `40`
    Connected,
    /// A frame starting with `41`.
    ServerClose,
    /// `42` followed by the event's JSON text.
    Event(String),
    /// Anything else, whole.
    Unknown(String),
}

/// The model of a [`FrameKind`].
pub enum FrameKindV {
    Ping,
    Pong,
    Handshake(Seq<char>),
    Connected,
    ServerClose,
    Event(Seq<char>),
    Unknown(Seq<char>),
}

impl View for FrameKind {
    type V = FrameKindV;

    open spec fn view(&self) -> FrameKindV {
        match self {
            FrameKind::Ping => FrameKindV::Ping,
            FrameKind::Pong => FrameKindV::Pong,
            FrameKind::Handshake(s) => FrameKindV::Handshake(s@),
            FrameKind::Connected => FrameKindV::Connected,
            FrameKind::ServerClose => FrameKindV::ServerClose,
            FrameKind::Event(s) => FrameKindV::Event(s@),
            FrameKind::Unknown(s) => FrameKindV::Unknown(s@),
        }
    }
}

/// How a text frame is sorted: `2` and `3` exactly, then the `0` prefix,
/// then `40` exactly, then the `41` and `42` prefixes.
pub open spec fn classify_frame_spec(t: Seq<char>) -> FrameKindV {
    if t == seq!['2'] {
        FrameKindV::Ping
    } else if t == seq!['3'] {
        FrameKindV::Pong
    } else if has_prefix(t, seq!['0']) {
        FrameKindV::Handshake(t.skip(1))
    } else if t == seq!['4', '0'] {
        FrameKindV::Connected
    } else if has_prefix(t, seq!['4', '1']) {
        FrameKindV::ServerClose
    } else if has_prefix(t, seq!['4', '2']) {
        FrameKindV::Event(t.skip(2))
    } else {
        FrameKindV::Unknown(t)
    }
}

/// Sorts a text frame by its prefix.
pub fn classify_frame(text: &str) -> (r: FrameKind)
    ensures
        r@ == classify_frame_spec(text@),
{
    proof {
        reveal_strlit("2");
        reveal_strlit("3");
        reveal_strlit("0");
        reveal_strlit("40");
        reveal_strlit("41");
        reveal_strlit("42");
        assert("2"@ =~= seq!['2']);
        assert("3"@ =~= seq!['3']);
        assert("0"@ =~= seq!['0']);
        assert("40"@ =~= seq!['4', '0']);
        assert("41"@ =~= seq!['4', '1']);
        assert("42"@ =~= seq!['4', '2']);
    }
    if str_eq(text, "2") {
        FrameKind::Ping
    } else if str_eq(text, "3") {
        FrameKind::Pong
    } else if starts_with(text, "0") {
        FrameKind::Handshake(suffix_from(text, 1))
    } else if str_eq(text, "40") {
        FrameKind::Connected
    } else if starts_with(text, "41") {
        FrameKind::ServerClose
    } else if starts_with(text, "42") {
        FrameKind::Event(suffix_from(text, 2))
    } else {
        FrameKind::Unknown(own(text))
    }
}

/// A parsed frame.
#[derive(Debug, PartialEq)]
pub enum Frame {
    Handshake(Json),
    Connected,
    Ping,
    Pong,
    ServerClose,
    /// An event: its name and payload.
    Event(String, Json),
    /// Text that is no known frame.
    Unknown(String),
}

/// A ranking entry's model: value, user id, nickname, avatar URL.
pub struct RankingItemV {
    pub value: CloudValueV,
    pub id: i64,
    pub nickname: Seq<char>,
    pub avatar_url: Seq<char>,
}

pub struct RankingV {
    pub cvid: Seq<char>,
    pub name: Seq<char>,
    pub items: Seq<RankingItemV>,
}

pub open spec fn ranking_item_v(r: RankingItem) -> RankingItemV {
    RankingItemV {
        value: r.value@,
        id: r.user.id,
        nickname: r.user.nickname@,
        avatar_url: r.user.avatar_url@,
    }
}

pub open spec fn ranking_v(r: RankingData) -> RankingV {
    RankingV {
        cvid: r.cvid@,
        name: r.name@,
        items: r.items@.map_values(|x: RankingItem| ranking_item_v(x)),
    }
}

/// The model of a [`ConnectionEvent`].
pub enum ConnectionEventV {
    Opened,
    Closed { was_connected: bool },
    Error(Seq<char>),
    ServerClosed(Seq<char>),
}

pub open spec fn connection_event_v(e: ConnectionEvent) -> ConnectionEventV {
    match e {
        ConnectionEvent::Opened => ConnectionEventV::Opened,
        ConnectionEvent::Closed { was_connected } => ConnectionEventV::Closed { was_connected },
        ConnectionEvent::Error(s) => ConnectionEventV::Error(s@),
        ConnectionEvent::ServerClosed(s) => ConnectionEventV::ServerClosed(s@),
    }
}

/// Something the connection's owner does after a step.
#[derive(Debug, PartialEq)]
pub enum CloudEffect {
    /// Send a raw text frame.
    SendText(String),
    /// Send the event frame `42[name, payload]`.
    SendEvent(String, Json),
    /// Run the change callbacks of the variable `name`.
    VariableChanged {
        kind: VarKind,
        name: String,
        old: CloudValue,
        new: CloudValue,
        source: ChangeSource,
    },
    /// Run the callbacks registered for operation `op` on the list `name`.
    ListOperation { name: String, op: String, args: Vec<CloudValue> },
    /// Run the change callbacks of the list `name`.
    ListChanged {
        name: String,
        old_items: Vec<CloudValue>,
        new_items: Vec<CloudValue>,
        source: ChangeSource,
    },
    /// Run the data-ready callbacks.
    DataReady,
    /// Run the online-user callbacks.
    OnlineUsersChanged { old: i64, new: i64 },
    /// Run the ranking callbacks: those of the private variable `variable`
    /// when it is known, then the connection's.
    Ranking { variable: Option<String>, data: RankingData },
    /// Run the connection-event callbacks.
    Connection(ConnectionEvent),
    /// Drop the sending side of the socket.
    DropSender,
}

/// The model of a [`CloudEffect`].
pub enum CloudEffectV {
    SendText(Seq<char>),
    SendEvent(Seq<char>, JsonV),
    VariableChanged {
        kind: VarKind,
        name: Seq<char>,
        old: CloudValueV,
        new: CloudValueV,
        source: ChangeSource,
    },
    ListOperation { name: Seq<char>, op: Seq<char>, args: Seq<CloudValueV> },
    ListChanged {
        name: Seq<char>,
        old_items: Seq<CloudValueV>,
        new_items: Seq<CloudValueV>,
        source: ChangeSource,
    },
    DataReady,
    OnlineUsersChanged { old: i64, new: i64 },
    Ranking { variable: Option<Seq<char>>, data: RankingV },
    Connection(ConnectionEventV),
    DropSender,
}

impl View for CloudEffect {
    type V = CloudEffectV;

    open spec fn view(&self) -> CloudEffectV {
        match self {
            CloudEffect::SendText(s) => CloudEffectV::SendText(s@),
            CloudEffect::SendEvent(n, p) => CloudEffectV::SendEvent(n@, p@),
            CloudEffect::VariableChanged { kind, name, old, new, source } => {
                CloudEffectV::VariableChanged {
                    kind: *kind,
                    name: name@,
                    old: old@,
                    new: new@,
                    source: *source,
                }
            },
            CloudEffect::ListOperation { name, op, args } => CloudEffectV::ListOperation {
                name: name@,
                op: op@,
                args: cvs(args@),
            },
            CloudEffect::ListChanged { name, old_items, new_items, source } => {
                CloudEffectV::ListChanged {
                    name: name@,
                    old_items: cvs(old_items@),
                    new_items: cvs(new_items@),
                    source: *source,
                }
            },
            CloudEffect::DataReady => CloudEffectV::DataReady,
            CloudEffect::OnlineUsersChanged { old, new } => CloudEffectV::OnlineUsersChanged {
                old: *old,
                new: *new,
            },
            CloudEffect::Ranking { variable, data } => CloudEffectV::Ranking {
                variable: match variable {
                    Some(v) => Some(v@),
                    None => None,
                },
                data: ranking_v(*data),
            },
            CloudEffect::Connection(e) => CloudEffectV::Connection(connection_event_v(*e)),
            CloudEffect::DropSender => CloudEffectV::DropSender,
        }
    }
}

pub open spec fn view_effects(s: Seq<CloudEffect>) -> Seq<CloudEffectV> {
    s.map_values(|e: CloudEffect| e@)
}

/// The state of a cloud connection.
pub struct CloudState {
    pub work_id: i64,
    pub connected: bool,
    pub data_ready: bool,
    pub io_ready: bool,
    pub online_users: i64,
    pub reconnect_attempts: usize,
    pub join_sent: bool,
    pub store: DataStore,
    pub commands: Vec<CloudCommand>,
    pub pending_rankings: Vec<String>,
}

/// The model of a [`CloudState`].
pub struct CloudStateV {
    pub work_id: i64,
    pub connected: bool,
    pub data_ready: bool,
    pub io_ready: bool,
    pub online_users: i64,
    pub reconnect_attempts: usize,
    pub join_sent: bool,
    pub store: StoreV,
    pub commands: Seq<CloudCommandV>,
    pub pending_rankings: Seq<Seq<char>>,
}

pub open spec fn view_strings(s: Seq<String>) -> Seq<Seq<char>> {
    s.map_values(|x: String| x@)
}

impl View for CloudState {
    type V = CloudStateV;

    open spec fn view(&self) -> CloudStateV {
        CloudStateV {
            work_id: self.work_id,
            connected: self.connected,
            data_ready: self.data_ready,
            io_ready: self.io_ready,
            online_users: self.online_users,
            reconnect_attempts: self.reconnect_attempts,
            join_sent: self.join_sent,
            store: self.store@,
            commands: view_commands(self.commands@),
            pending_rankings: view_strings(self.pending_rankings@),
        }
    }
}

/// The message with which the server asks to close.
pub open spec fn server_close_message() -> Seq<char> {
    "服务器主动要求关闭连接"@
}

/// The state and effects after a frame that is not an event.
pub open spec fn frame_step(st: CloudStateV, f: FrameKindV) -> (CloudStateV, Seq<CloudEffectV>) {
    match f {
        FrameKindV::Ping => (st, seq![CloudEffectV::SendText(seq!['3'])]),
        FrameKindV::Handshake(_) => (st, seq![CloudEffectV::SendText(seq!['4', '0'])]),
        FrameKindV::Connected => {
            let opened = CloudStateV {
                connected: true,
                io_ready: true,
                reconnect_attempts: 0,
                ..st
            };
            if st.join_sent {
                (opened, seq![CloudEffectV::Connection(ConnectionEventV::Opened)])
            } else {
                (
                    CloudStateV { join_sent: true, ..opened },
                    seq![
                        CloudEffectV::Connection(ConnectionEventV::Opened),
                        CloudEffectV::SendEvent("join"@, JsonV::Str(dec_int(st.work_id as int))),
                    ],
                )
            }
        },
        FrameKindV::ServerClose => (
            CloudStateV { connected: false, ..st },
            seq![
                CloudEffectV::Connection(ConnectionEventV::ServerClosed(server_close_message())),
                CloudEffectV::DropSender,
            ],
        ),
        _ => (st, Seq::empty()),
    }
}

impl CloudState {
    /// A state for `work_id`, not yet connected.
    pub fn new(work_id: i64) -> (r: CloudState)
        ensures
            r@ == (CloudStateV {
                work_id,
                connected: false,
                data_ready: false,
                io_ready: false,
                online_users: 0,
                reconnect_attempts: 0,
                join_sent: false,
                store: empty_store(),
                commands: Seq::empty(),
                pending_rankings: Seq::empty(),
            }),
    {
        let r = CloudState {
            work_id,
            connected: false,
            data_ready: false,
            io_ready: false,
            online_users: 0,
            reconnect_attempts: 0,
            join_sent: false,
            store: DataStore::new(),
            commands: Vec::new(),
            pending_rankings: Vec::new(),
        };
        assert(view_commands(r.commands@) =~= Seq::<CloudCommandV>::empty());
        assert(view_strings(r.pending_rankings@) =~= Seq::<Seq<char>>::empty());
        r
    }

    /// Reacts to a frame that is not an event: answers pings and the
    /// handshake, marks the connection open (and sends `join` once), or
    /// marks it closed at the server's request.
    pub fn on_frame(&mut self, f: &FrameKind) -> (r: Vec<CloudEffect>)
        requires
            !(f@ is Event),
        ensures
            (final(self)@, view_effects(r@)) == frame_step(old(self)@, f@),
    {
        let mut out: Vec<CloudEffect> = Vec::new();
        match f {
            FrameKind::Ping => {
                out.push(CloudEffect::SendText(own("3")));
                proof {
                    reveal_strlit("3");
                }
            },
            FrameKind::Handshake(_) => {
                out.push(CloudEffect::SendText(own("40")));
                proof {
                    reveal_strlit("40");
                }
            },
            FrameKind::Connected => {
                self.connected = true;
                self.io_ready = true;
                self.reconnect_attempts = 0;
                out.push(CloudEffect::Connection(ConnectionEvent::Opened));
                if !self.join_sent {
                    self.join_sent = true;
                    out.push(
                        CloudEffect::SendEvent(own("join"), Json::Str(fmt_i64(self.work_id))),
                    );
                }
            },
            FrameKind::ServerClose => {
                self.connected = false;
                out.push(
                    CloudEffect::Connection(
                        ConnectionEvent::ServerClosed(own("服务器主动要求关闭连接")),
                    ),
                );
                out.push(CloudEffect::DropSender);
            },
            _ => {},
        }
        proof {
            reveal_strlit("3");
            reveal_strlit("40");
            assert("3"@ =~= seq!['3']);
            assert("40"@ =~= seq!['4', '0']);
        }
        assert(view_effects(out@) =~= frame_step(old(self)@, f@).1);
        out
    }
}


/// A variable update pushed by the cloud: `{cvid, value}` sets the value of
/// the variable of `kind` that the cvid denotes.
pub open spec fn var_update_step(st: CloudStateV, kind: VarKind, item: JsonV) -> (
    CloudStateV,
    Seq<CloudEffectV>,
) {
    match (jstr(jget(item, "cvid"@)), jget(item, "value"@)) {
        (Some(cvid), Some(value)) => {
            let nv = cv_from_json(value);
            let vs = vars_of(st.store, kind);
            match resolve_var(vs, crate::cloud_store::aliases_of(st.store, kind), cvid) {
                Some(i) => (
                    CloudStateV {
                        store: with_vars(st.store, kind, vs.update(i, VarV { value: nv, ..vs[i] })),
                        ..st
                    },
                    seq![
                        CloudEffectV::VariableChanged {
                            kind,
                            name: vs[i].name,
                            old: vs[i].value,
                            new: nv,
                            source: ChangeSource::Cloud,
                        },
                    ],
                ),
                None => (st, Seq::empty()),
            }
        },
        _ => (st, Seq::empty()),
    }
}

/// Variable updates applied in order.
pub open spec fn var_updates(st: CloudStateV, kind: VarKind, items: Seq<JsonV>) -> (
    CloudStateV,
    Seq<CloudEffectV>,
)
    decreases items.len(),
{
    if items.len() == 0 {
        (st, Seq::empty())
    } else {
        let (s1, e1) = var_updates(st, kind, items.drop_last());
        let (s2, e2) = var_update_step(s1, kind, items.last());
        (s2, e1 + e2)
    }
}

/// A ranking entry read from the service: all four fields must be present;
/// an identifier that is no decimal integer text reads as 0, and a nickname
/// or avatar URL that is no string reads as empty.
pub open spec fn ranking_item_spec(item: JsonV) -> Option<RankingItemV> {
    match (
        jget(item, "value"@),
        jget(item, "identifier"@),
        jget(item, "nickname"@),
        jget(item, "avatar_url"@),
    ) {
        (Some(v), Some(idf), Some(nick), Some(av)) => Some(
            RankingItemV {
                value: cv_from_json(v),
                id: match jstr(Some(idf)) {
                    Some(s) => match parse_i64_spec(s) {
                        Some(n) => n,
                        None => 0,
                    },
                    None => 0,
                },
                nickname: match jstr(Some(nick)) {
                    Some(s) => s,
                    None => Seq::empty(),
                },
                avatar_url: match jstr(Some(av)) {
                    Some(s) => s,
                    None => Seq::empty(),
                },
            },
        ),
        _ => None,
    }
}

pub open spec fn ranking_items_spec(items: Seq<JsonV>) -> Seq<RankingItemV>
    decreases items.len(),
{
    if items.len() == 0 {
        Seq::empty()
    } else {
        match ranking_item_spec(items.last()) {
            Some(r) => ranking_items_spec(items.drop_last()).push(r),
            None => ranking_items_spec(items.drop_last()),
        }
    }
}

/// Ranking data answers the oldest pending request.
pub open spec fn ranking_step(st: CloudStateV, payload: JsonV) -> (CloudStateV, Seq<CloudEffectV>) {
    if st.pending_rankings.len() == 0 {
        (st, Seq::empty())
    } else {
        let cvid = st.pending_rankings[0];
        let var = store_var(st.store, VarKind::Private, cvid);
        let items = match jarr(jget(payload, "items"@)) {
            Some(a) => ranking_items_spec(a),
            None => Seq::empty(),
        };
        (
            CloudStateV { pending_rankings: st.pending_rankings.skip(1), ..st },
            seq![
                CloudEffectV::Ranking {
                    variable: match var {
                        Some(v) => Some(v.name),
                        None => None,
                    },
                    data: RankingV {
                        cvid,
                        name: match var {
                            Some(v) => v.name,
                            None => Seq::empty(),
                        },
                        items,
                    },
                },
            ],
        )
    }
}

/// A new count of online users.
pub open spec fn online_step(st: CloudStateV, payload: JsonV) -> (CloudStateV, Seq<CloudEffectV>) {
    match jint(jget(payload, "total"@)) {
        Some(t) => (
            CloudStateV { online_users: t, ..st },
            seq![CloudEffectV::OnlineUsersChanged { old: st.online_users, new: t }],
        ),
        None => (st, Seq::empty()),
    }
}

impl CloudState {
    fn var_update(&mut self, kind: VarKind, item: &Json) -> (r: Vec<CloudEffect>)
        ensures
            (final(self)@, view_effects(r@)) == var_update_step(old(self)@, kind, item@),
    {
        let mut out: Vec<CloudEffect> = Vec::new();
        let cvid = match item.get("cvid") {
            Some(c) => match c.as_str() {
                Some(s) => s,
                None => {
                    assert(view_effects(out@) =~= Seq::<CloudEffectV>::empty());
                    return out;
                },
            },
            None => {
                assert(view_effects(out@) =~= Seq::<CloudEffectV>::empty());
                return out;
            },
        };
        let value = match item.get("value") {
            Some(v) => v,
            None => {
                assert(view_effects(out@) =~= Seq::<CloudEffectV>::empty());
                return out;
            },
        };
        let nv = CloudValue::from_json(value);
        match self.store.variable_index(kind, cvid) {
            Some(i) => {
                proof {
                    crate::search::lemma_first_index(
                        vars_of(self.store@, kind),
                        crate::cloud_store::var_named(cvid@),
                    );
                    let ps = crate::cloud_store::aliases_of(self.store@, kind);
                    crate::search::lemma_first_index(ps, crate::cloud_store::alias_of(cvid@));
                    match crate::search::first_index(ps, crate::cloud_store::alias_of(cvid@)) {
                        Some(j) => crate::search::lemma_first_index(
                            vars_of(self.store@, kind),
                            crate::cloud_store::var_named(ps[j].1),
                        ),
                        None => {},
                    }
                }
                let name = match kind {
                    VarKind::Private => self.store.private_vars[i].name.clone(),
                    VarKind::Public => self.store.public_vars[i].name.clone(),
                };
                let new_copy = nv.dup();
                let old_value = self.store.replace_value(kind, i, nv);
                out.push(
                    CloudEffect::VariableChanged {
                        kind,
                        name,
                        old: old_value,
                        new: new_copy,
                        source: ChangeSource::Cloud,
                    },
                );
                assert(view_effects(out@) =~= var_update_step(old(self)@, kind, item@).1);
            },
            None => {
                assert(view_effects(out@) =~= Seq::<CloudEffectV>::empty());
            },
        }
        out
    }

    fn var_updates_all(&mut self, kind: VarKind, items: &Vec<Json>) -> (r: Vec<CloudEffect>)
        ensures
            (final(self)@, view_effects(r@)) == var_updates(old(self)@, kind, view_items(items@)),
    {
        let mut out: Vec<CloudEffect> = Vec::new();
        let ghost all = view_items(items@);
        proof {
            lemma_view_items(items@);
        }
        assert(all.subrange(0, 0) =~= Seq::<JsonV>::empty());
        assert(view_effects(out@) =~= Seq::<CloudEffectV>::empty());
        let mut i: usize = 0;
        while i < items.len()
            invariant
                i <= items@.len(),
                all == view_items(items@),
                all.len() == items@.len(),
                forall|j: int| 0 <= j < items@.len() ==> #[trigger] all[j] == items@[j]@,
                (self@, view_effects(out@)) == var_updates(
                    old(self)@,
                    kind,
                    all.subrange(0, i as int),
                ),
            decreases items@.len() - i,
        {
            let ghost before = view_effects(out@);
            let mut step = self.var_update(kind, &items[i]);
            let ghost step_v = view_effects(step@);
            proof {
                let p = all.subrange(0, i + 1);
                assert(p.drop_last() == all.subrange(0, i as int));
                assert(p.last() == items@[i as int]@);
            }
            out.append(&mut step);
            assert(view_effects(out@) =~= before + step_v);
            i = i + 1;
        }
        assert(all.subrange(0, items@.len() as int) == all);
        out
    }
}


/// Why a data item could not be created.
pub open spec fn missing_field_message(field: Seq<char>) -> Seq<char> {
    "数据项缺少 "@ + field
}

/// The items of a list value: its elements converted, or none when the
/// value is not an array.
pub open spec fn list_items_of(value: JsonV) -> Seq<CloudValueV> {
    match jarr(Some(value)) {
        Some(a) => a.map_values(|x: JsonV| cv_from_json(x)),
        None => Seq::empty(),
    }
}

/// Creating one data item (`type` 0: private variable, 1: public variable,
/// 2: list, anything else: nothing), or the field it lacks.
pub open spec fn create_item_result(s: StoreV, item: JsonV) -> Result<StoreV, Seq<char>> {
    match jstr(jget(item, "cvid"@)) {
        None => Err(missing_field_message("cvid"@)),
        Some(cvid) => match jstr(jget(item, "name"@)) {
            None => Err(missing_field_message("name"@)),
            Some(name) => match jget(item, "value"@) {
                None => Err(missing_field_message("value"@)),
                Some(value) => match jint(jget(item, "type"@)) {
                    None => Err(missing_field_message("type"@)),
                    Some(t) => Ok(
                        if t == 0 || t == 1 {
                            let kind = if t == 0 {
                                VarKind::Private
                            } else {
                                VarKind::Public
                            };
                            crate::cloud_store::with_aliases(
                                with_vars(
                                    s,
                                    kind,
                                    crate::cloud_store::create_var(
                                        vars_of(s, kind),
                                        cvid,
                                        name,
                                        cv_from_json(value),
                                    ),
                                ),
                                kind,
                                crate::cloud_store::upsert_alias(
                                    crate::cloud_store::aliases_of(s, kind),
                                    cvid,
                                    name,
                                ),
                            )
                        } else if t == 2 {
                            StoreV {
                                lists: crate::cloud_store::create_list(
                                    s.lists,
                                    cvid,
                                    name,
                                    list_items_of(value),
                                ),
                                list_cvid: crate::cloud_store::upsert_alias(s.list_cvid, cvid, name),
                                ..s
                            }
                        } else {
                            s
                        },
                    ),
                },
            },
        },
    }
}

/// Data items created in order; items that lack a field are passed over.
pub open spec fn create_items(s: StoreV, items: Seq<JsonV>) -> StoreV
    decreases items.len(),
{
    if items.len() == 0 {
        s
    } else {
        let prev = create_items(s, items.drop_last());
        match create_item_result(prev, items.last()) {
            Ok(t) => t,
            Err(_) => prev,
        }
    }
}

/// The full data of the work: creates every item, then the data is ready.
pub open spec fn all_data_step(st: CloudStateV, payload: JsonV) -> (CloudStateV, Seq<CloudEffectV>) {
    (
        CloudStateV {
            store: match jarr(Some(payload)) {
                Some(a) => create_items(st.store, a),
                None => st.store,
            },
            data_ready: true,
            ..st
        },
        seq![CloudEffectV::DataReady],
    )
}

fn missing(field: &str) -> (r: CloudError)
    ensures
        r == CloudError::InvalidArgument(r->InvalidArgument_0),
        r->InvalidArgument_0@ == missing_field_message(field@),
{
    let mut m = own("数据项缺少 ");
    crate::text::push_str(&mut m, field);
    CloudError::InvalidArgument(m)
}

fn convert_items(a: &Vec<Json>) -> (r: Vec<CloudValue>)
    ensures
        cvs(r@) == view_items(a@).map_values(|x: JsonV| cv_from_json(x)),
{
    let mut out: Vec<CloudValue> = Vec::new();
    let mut i: usize = 0;
    proof {
        lemma_view_items(a@);
    }
    while i < a.len()
        invariant
            i <= a@.len(),
            view_items(a@).len() == a@.len(),
            forall|j: int| 0 <= j < a@.len() ==> #[trigger] view_items(a@)[j] == a@[j]@,
            cvs(out@) == view_items(a@).subrange(0, i as int).map_values(
                |x: JsonV| cv_from_json(x),
            ),
        decreases a@.len() - i,
    {
        let v = CloudValue::from_json(&a[i]);
        let ghost prev = out@;
        out.push(v);
        proof {
            let lhs = cvs(out@);
            let rhs = view_items(a@).subrange(0, i + 1).map_values(|x: JsonV| cv_from_json(x));
            let old_rhs = view_items(a@).subrange(0, i as int).map_values(
                |x: JsonV| cv_from_json(x),
            );
            assert(view_items(a@).subrange(0, i as int).len() == i);
            assert(old_rhs.len() == i);
            assert(cvs(prev).len() == prev.len());
            assert(prev.len() == i);
            assert(lhs.len() == rhs.len());
            assert forall|k: int| 0 <= k < lhs.len() implies lhs[k] == rhs[k] by {
                if k < i {
                    assert(out@[k] == prev[k]);
                    assert(cvs(prev)[k] == old_rhs[k]);
                } else {
                    assert(out@[k] == v);
                }
            }
            assert(lhs =~= rhs);
        }
        i = i + 1;
    }
    assert(view_items(a@).subrange(0, a@.len() as int) == view_items(a@));
    out
}

/// Creates a variable or list from one item of the work's full data.
pub fn create_data_item(store: &mut DataStore, item: &Json) -> (r: Result<(), CloudError>)
    ensures
        match create_item_result(old(store)@, item@) {
            Ok(t) => r.is_ok() && final(store)@ == t,
            Err(m) => r == Err::<(), CloudError>(CloudError::InvalidArgument(r->Err_0->InvalidArgument_0))
                && r->Err_0->InvalidArgument_0@ == m && final(store)@ == old(store)@,
        },
{
    let cvid = match item.get("cvid") {
        Some(c) => match c.as_str() {
            Some(s) => s,
            None => return Err(missing("cvid")),
        },
        None => return Err(missing("cvid")),
    };
    let name = match item.get("name") {
        Some(c) => match c.as_str() {
            Some(s) => s,
            None => return Err(missing("name")),
        },
        None => return Err(missing("name")),
    };
    let value = match item.get("value") {
        Some(v) => v,
        None => return Err(missing("value")),
    };
    let t = match item.get("type") {
        Some(v) => match v.as_i64() {
            Some(t) => t,
            None => return Err(missing("type")),
        },
        None => return Err(missing("type")),
    };
    if t == 0 {
        store.create_variable(VarKind::Private, cvid, name, CloudValue::from_json(value));
    } else if t == 1 {
        store.create_variable(VarKind::Public, cvid, name, CloudValue::from_json(value));
    } else if t == 2 {
        let items = match value.as_array() {
            Some(a) => convert_items(a),
            None => Vec::new(),
        };
        proof {
            if jarr(Some(value@)).is_none() {
                assert(cvs(items@) =~= Seq::<CloudValueV>::empty());
            }
        }
        store.create_list(cvid, name, items);
    }
    Ok(())
}

impl CloudState {
    fn ranking_item(item: &Json) -> (r: Option<RankingItem>)
        ensures
            match r {
                Some(x) => ranking_item_spec(item@) == Some(ranking_item_v(x)),
                None => ranking_item_spec(item@).is_none(),
            },
    {
        let value = match item.get("value") {
            Some(v) => v,
            None => return None,
        };
        let identifier = match item.get("identifier") {
            Some(v) => v,
            None => return None,
        };
        let nickname = match item.get("nickname") {
            Some(v) => v,
            None => return None,
        };
        let avatar_url = match item.get("avatar_url") {
            Some(v) => v,
            None => return None,
        };
        let id = match identifier.as_str() {
            Some(s) => match parse_i64(s) {
                Some(n) => n,
                None => 0,
            },
            None => 0,
        };
        let nick = match nickname.as_str() {
            Some(s) => own(s),
            None => String::new(),
        };
        let av = match avatar_url.as_str() {
            Some(s) => own(s),
            None => String::new(),
        };
        Some(
            RankingItem {
                value: CloudValue::from_json(value),
                user: RankingUser { id, nickname: nick, avatar_url: av },
            },
        )
    }

    fn ranking_items(items: &Vec<Json>) -> (r: Vec<RankingItem>)
        ensures
            r@.map_values(|x: RankingItem| ranking_item_v(x)) == ranking_items_spec(
                view_items(items@),
            ),
    {
        let mut out: Vec<RankingItem> = Vec::new();
        let ghost all = view_items(items@);
        proof {
            lemma_view_items(items@);
        }
        assert(all.subrange(0, 0) =~= Seq::<JsonV>::empty());
        assert(out@.map_values(|x: RankingItem| ranking_item_v(x)) =~= Seq::<RankingItemV>::empty());
        let mut i: usize = 0;
        while i < items.len()
            invariant
                i <= items@.len(),
                all == view_items(items@),
                all.len() == items@.len(),
                forall|j: int| 0 <= j < items@.len() ==> #[trigger] all[j] == items@[j]@,
                out@.map_values(|x: RankingItem| ranking_item_v(x)) == ranking_items_spec(
                    all.subrange(0, i as int),
                ),
            decreases items@.len() - i,
        {
            proof {
                let p = all.subrange(0, i + 1);
                assert(p.drop_last() == all.subrange(0, i as int));
                assert(p.last() == items@[i as int]@);
            }
            match Self::ranking_item(&items[i]) {
                Some(x) => {
                    let ghost before = out@;
                    out.push(x);
                    assert(out@.map_values(|x: RankingItem| ranking_item_v(x)) =~= before.map_values(
                        |x: RankingItem| ranking_item_v(x),
                    ).push(ranking_item_v(x)));
                },
                None => {},
            }
            i = i + 1;
        }
        assert(all.subrange(0, items@.len() as int) == all);
        out
    }

    fn on_ranking(&mut self, payload: &Json) -> (r: Vec<CloudEffect>)
        ensures
            (final(self)@, view_effects(r@)) == ranking_step(old(self)@, payload@),
    {
        let mut out: Vec<CloudEffect> = Vec::new();
        if self.pending_rankings.len() == 0 {
            assert(view_effects(out@) =~= Seq::<CloudEffectV>::empty());
            return out;
        }
        let cvid = self.pending_rankings.remove(0);
        assert(view_strings(self.pending_rankings@) =~= view_strings(
            old(self).pending_rankings@,
        ).skip(1));
        let (variable, name) = match self.store.variable(VarKind::Private, cvid.as_str()) {
            Some(v) => (Some(v.name.clone()), v.name.clone()),
            None => (None, String::new()),
        };
        let items = match payload.get("items") {
            Some(x) => match x.as_array() {
                Some(a) => Self::ranking_items(a),
                None => Vec::new(),
            },
            None => Vec::new(),
        };
        proof {
            if jarr(jget(payload@, "items"@)).is_none() {
                assert(items@.map_values(|x: RankingItem| ranking_item_v(x)) =~= Seq::<
                    RankingItemV,
                >::empty());
            }
        }
        out.push(CloudEffect::Ranking { variable, data: RankingData { cvid, name, items } });
        assert(view_effects(out@) =~= ranking_step(old(self)@, payload@).1);
        out
    }

    fn on_online_users(&mut self, payload: &Json) -> (r: Vec<CloudEffect>)
        ensures
            (final(self)@, view_effects(r@)) == online_step(old(self)@, payload@),
    {
        let mut out: Vec<CloudEffect> = Vec::new();
        match payload.get("total") {
            Some(t) => match t.as_i64() {
                Some(total) => {
                    let old_total = self.online_users;
                    self.online_users = total;
                    out.push(CloudEffect::OnlineUsersChanged { old: old_total, new: total });
                },
                None => {},
            },
            None => {},
        }
        assert(view_effects(out@) =~= online_step(old(self)@, payload@).1);
        out
    }

    fn on_all_data(&mut self, payload: &Json) -> (r: Vec<CloudEffect>)
        ensures
            (final(self)@, view_effects(r@)) == all_data_step(old(self)@, payload@),
    {
        match payload.as_array() {
            Some(items) => {
                let ghost all = view_items(items@);
                proof {
                    lemma_view_items(items@);
                }
                assert(all.subrange(0, 0) =~= Seq::<JsonV>::empty());
                let mut i: usize = 0;
                while i < items.len()
                    invariant
                        i <= items@.len(),
                        all == view_items(items@),
                        all.len() == items@.len(),
                        forall|j: int| 0 <= j < items@.len() ==> #[trigger] all[j] == items@[j]@,
                        self@ == (CloudStateV {
                            store: create_items(old(self)@.store, all.subrange(0, i as int)),
                            ..old(self)@
                        }),
                    decreases items@.len() - i,
                {
                    proof {
                        let p = all.subrange(0, i + 1);
                        assert(p.drop_last() == all.subrange(0, i as int));
                        assert(p.last() == items@[i as int]@);
                    }
                    let _ = create_data_item(&mut self.store, &items[i]);
                    i = i + 1;
                }
                assert(all.subrange(0, items@.len() as int) == all);
            },
            None => {},
        }
        self.data_ready = true;
        let mut out: Vec<CloudEffect> = Vec::new();
        out.push(CloudEffect::DataReady);
        assert(view_effects(out@) =~= seq![CloudEffectV::DataReady]);
        out
    }
}


/// One list operation pushed by the cloud for the list `cvid`: operations
/// that cannot be read, lists that are unknown and operations that do not
/// fit the list are passed over.
pub open spec fn list_cloud_op(st: CloudStateV, cvid: Seq<char>, op: JsonV) -> (
    CloudStateV,
    Seq<CloudEffectV>,
) {
    match parse_list_action_spec(op) {
        None => (st, Seq::empty()),
        Some(a) => match resolve_list(st.store.lists, st.store.list_cvid, cvid) {
            None => (st, Seq::empty()),
            Some(i) => {
                let l = st.store.lists[i];
                match list_apply(l.items, a) {
                    None => (st, Seq::empty()),
                    Some(new_items) => (
                        CloudStateV {
                            store: StoreV {
                                lists: st.store.lists.update(i, ListV { items: new_items, ..l }),
                                ..st.store
                            },
                            ..st
                        },
                        seq![
                            CloudEffectV::ListOperation {
                                name: l.name,
                                op: list_op_name(a),
                                args: list_op_args(l.items, a),
                            },
                            CloudEffectV::ListChanged {
                                name: l.name,
                                old_items: l.items,
                                new_items,
                                source: ChangeSource::Cloud,
                            },
                        ],
                    ),
                }
            },
        },
    }
}

pub open spec fn list_cloud_ops(st: CloudStateV, cvid: Seq<char>, ops: Seq<JsonV>) -> (
    CloudStateV,
    Seq<CloudEffectV>,
)
    decreases ops.len(),
{
    if ops.len() == 0 {
        (st, Seq::empty())
    } else {
        let (s1, e1) = list_cloud_ops(st, cvid, ops.drop_last());
        let (s2, e2) = list_cloud_op(s1, cvid, ops.last());
        (s2, e1 + e2)
    }
}

/// List operations by cvid, in the payload's order; entries whose value is
/// not an array are passed over.
pub open spec fn list_updates_spec(st: CloudStateV, es: Seq<(Seq<char>, JsonV)>) -> (
    CloudStateV,
    Seq<CloudEffectV>,
)
    decreases es.len(),
{
    if es.len() == 0 {
        (st, Seq::empty())
    } else {
        let (s1, e1) = list_updates_spec(st, es.drop_last());
        match jarr(Some(es.last().1)) {
            Some(ops) => {
                let (s2, e2) = list_cloud_ops(s1, es.last().0, ops);
                (s2, e1 + e2)
            },
            None => (s1, e1),
        }
    }
}

/// The state and effects after the event `name` with `payload`.
pub open spec fn dispatch_spec(st: CloudStateV, name: Seq<char>, payload: JsonV) -> (
    CloudStateV,
    Seq<CloudEffectV>,
) {
    if name == "connect_done"@ {
        (st, seq![CloudEffectV::SendEvent("list_variables"@, JsonV::Object(Seq::empty()))])
    } else if name == "list_variables_done"@ {
        all_data_step(st, payload)
    } else if name == "update_private_vars_done"@ {
        var_update_step(st, VarKind::Private, payload)
    } else if name == "update_vars_done"@ {
        match jarr(Some(payload)) {
            Some(a) => var_updates(st, VarKind::Public, a),
            None => (st, Seq::empty()),
        }
    } else if name == "update_lists_done"@ {
        match jobj(Some(payload)) {
            Some(es) => list_updates_spec(st, es),
            None => (st, Seq::empty()),
        }
    } else if name == "online_users_change"@ {
        online_step(st, payload)
    } else if name == "list_ranking_done"@ {
        ranking_step(st, payload)
    } else {
        (st, Seq::empty())
    }
}

impl CloudState {
    fn list_cloud(&mut self, cvid: &str, op: &Json) -> (r: Vec<CloudEffect>)
        ensures
            (final(self)@, view_effects(r@)) == list_cloud_op(old(self)@, cvid@, op@),
    {
        let mut out: Vec<CloudEffect> = Vec::new();
        let action = match parse_list_action(op) {
            Some(a) => a,
            None => {
                assert(view_effects(out@) =~= Seq::<CloudEffectV>::empty());
                return out;
            },
        };
        let i = match self.store.list_index(cvid) {
            Some(i) => i,
            None => {
                assert(view_effects(out@) =~= Seq::<CloudEffectV>::empty());
                return out;
            },
        };
        proof {
            crate::search::lemma_first_index(self.store@.lists, crate::cloud_store::list_named(cvid@));
            let ps = self.store@.list_cvid;
            crate::search::lemma_first_index(ps, crate::cloud_store::alias_of(cvid@));
            match crate::search::first_index(ps, crate::cloud_store::alias_of(cvid@)) {
                Some(j) => crate::search::lemma_first_index(
                    self.store@.lists,
                    crate::cloud_store::list_named(ps[j].1),
                ),
                None => {},
            }
        }
        let name = self.store.lists[i].name.clone();
        let old_items = dup_values(&self.store.lists[i].items);
        match self.store.apply_to_list(i, &action) {
            Some(outcome) => {
                assert(crate::cloud_store::view_lists(self.store.lists@).len()
                    == self.store.lists@.len());
                assert(i < self.store.lists@.len());
                assert(crate::cloud_store::view_lists(self.store.lists@)[i as int] == list_v(
                    self.store.lists@[i as int],
                ));
                let new_items = dup_values(&self.store.lists[i].items);
                out.push(
                    CloudEffect::ListOperation { name: name.clone(), op: outcome.op, args: outcome.args },
                );
                out.push(
                    CloudEffect::ListChanged {
                        name,
                        old_items,
                        new_items,
                        source: ChangeSource::Cloud,
                    },
                );
                assert(view_effects(out@) =~= list_cloud_op(old(self)@, cvid@, op@).1);
            },
            None => {
                assert(view_effects(out@) =~= Seq::<CloudEffectV>::empty());
            },
        }
        out
    }

    fn list_cloud_all(&mut self, cvid: &str, ops: &Vec<Json>) -> (r: Vec<CloudEffect>)
        ensures
            (final(self)@, view_effects(r@)) == list_cloud_ops(old(self)@, cvid@, view_items(ops@)),
    {
        let mut out: Vec<CloudEffect> = Vec::new();
        let ghost all = view_items(ops@);
        proof {
            lemma_view_items(ops@);
        }
        assert(all.subrange(0, 0) =~= Seq::<JsonV>::empty());
        assert(view_effects(out@) =~= Seq::<CloudEffectV>::empty());
        let mut i: usize = 0;
        while i < ops.len()
            invariant
                i <= ops@.len(),
                all == view_items(ops@),
                all.len() == ops@.len(),
                forall|j: int| 0 <= j < ops@.len() ==> #[trigger] all[j] == ops@[j]@,
                (self@, view_effects(out@)) == list_cloud_ops(
                    old(self)@,
                    cvid@,
                    all.subrange(0, i as int),
                ),
            decreases ops@.len() - i,
        {
            let ghost before = view_effects(out@);
            let mut step = self.list_cloud(cvid, &ops[i]);
            let ghost step_v = view_effects(step@);
            proof {
                let p = all.subrange(0, i + 1);
                assert(p.drop_last() == all.subrange(0, i as int));
                assert(p.last() == ops@[i as int]@);
            }
            out.append(&mut step);
            assert(view_effects(out@) =~= before + step_v);
            i = i + 1;
        }
        assert(all.subrange(0, ops@.len() as int) == all);
        out
    }

    fn on_list_updates(&mut self, es: &Vec<(String, Json)>) -> (r: Vec<CloudEffect>)
        ensures
            (final(self)@, view_effects(r@)) == list_updates_spec(old(self)@, view_entries(es@)),
    {
        let mut out: Vec<CloudEffect> = Vec::new();
        let ghost all = view_entries(es@);
        proof {
            lemma_view_entries(es@);
        }
        assert(all.subrange(0, 0) =~= Seq::<(Seq<char>, JsonV)>::empty());
        assert(view_effects(out@) =~= Seq::<CloudEffectV>::empty());
        let mut i: usize = 0;
        while i < es.len()
            invariant
                i <= es@.len(),
                all == view_entries(es@),
                all.len() == es@.len(),
                forall|j: int| 0 <= j < es@.len() ==> #[trigger] all[j] == (es@[j].0@, es@[j].1@),
                (self@, view_effects(out@)) == list_updates_spec(
                    old(self)@,
                    all.subrange(0, i as int),
                ),
            decreases es@.len() - i,
        {
            proof {
                let p = all.subrange(0, i + 1);
                assert(p.drop_last() == all.subrange(0, i as int));
                assert(p.last() == (es@[i as int].0@, es@[i as int].1@));
            }
            match es[i].1.as_array() {
                Some(ops) => {
                    let ghost before = view_effects(out@);
                    let mut step = self.list_cloud_all(es[i].0.as_str(), ops);
                    let ghost step_v = view_effects(step@);
                    out.append(&mut step);
                    assert(view_effects(out@) =~= before + step_v);
                },
                None => {},
            }
            i = i + 1;
        }
        assert(all.subrange(0, es@.len() as int) == all);
        out
    }

    /// Reacts to an event frame's event `name` whose payload is `payload`;
    /// `inner` is what decoding a text payload as JSON gave, if it did. A
    /// text payload that decodes stands for its decoding
    /// ([`decoded_payload_spec`]).
    pub fn dispatch_frame_event(&mut self, name: &str, payload: Json, inner: Option<Json>) -> (r: Vec<
        CloudEffect,
    >)
        ensures
            (final(self)@, view_effects(r@)) == dispatch_spec(
                old(self)@,
                name@,
                decoded_payload_spec(
                    payload@,
                    match inner {
                        Some(v) => Some(v@),
                        None => None,
                    },
                ),
            ),
    {
        let p = decode_payload(payload, inner);
        self.dispatch(name, &p)
    }

    /// Reacts to the event `name` with `payload`.
    pub fn dispatch(&mut self, name: &str, payload: &Json) -> (r: Vec<CloudEffect>)
        ensures
            (final(self)@, view_effects(r@)) == dispatch_spec(old(self)@, name@, payload@),
    {
        if str_eq(name, "connect_done") {
            let mut out: Vec<CloudEffect> = Vec::new();
            let empty: Vec<(String, Json)> = Vec::new();
            assert(view_entries(empty@) =~= Seq::<(Seq<char>, JsonV)>::empty());
            out.push(CloudEffect::SendEvent(own("list_variables"), Json::Object(empty)));
            assert(view_effects(out@) =~= dispatch_spec(old(self)@, name@, payload@).1);
            out
        } else if str_eq(name, "list_variables_done") {
            self.on_all_data(payload)
        } else if str_eq(name, "update_private_vars_done") {
            self.var_update(VarKind::Private, payload)
        } else if str_eq(name, "update_vars_done") {
            match payload.as_array() {
                Some(a) => self.var_updates_all(VarKind::Public, a),
                None => {
                    let out: Vec<CloudEffect> = Vec::new();
                    assert(view_effects(out@) =~= Seq::<CloudEffectV>::empty());
                    out
                },
            }
        } else if str_eq(name, "update_lists_done") {
            match payload.as_object() {
                Some(es) => self.on_list_updates(es),
                None => {
                    let out: Vec<CloudEffect> = Vec::new();
                    assert(view_effects(out@) =~= Seq::<CloudEffectV>::empty());
                    out
                },
            }
        } else if str_eq(name, "online_users_change") {
            self.on_online_users(payload)
        } else if str_eq(name, "list_ranking_done") {
            self.on_ranking(payload)
        } else {
            let out: Vec<CloudEffect> = Vec::new();
            assert(view_effects(out@) =~= Seq::<CloudEffectV>::empty());
            out
        }
    }
}


/// A local variable update: the value changes, change callbacks run and
/// the update is queued for upload.
pub open spec fn set_variable_spec(st: CloudStateV, kind: VarKind, key: Seq<char>, value: CloudValueV) -> Option<
    (CloudStateV, Seq<CloudEffectV>),
> {
    let vs = vars_of(st.store, kind);
    match resolve_var(vs, crate::cloud_store::aliases_of(st.store, kind), key) {
        None => None,
        Some(i) => Some(
            (
                CloudStateV {
                    store: with_vars(st.store, kind, vs.update(i, VarV { value, ..vs[i] })),
                    commands: st.commands.push(
                        CloudCommandV::Variable {
                            private: kind == VarKind::Private,
                            data: if kind == VarKind::Private {
                                crate::cloud::private_update_body(vs[i].cvid, value)
                            } else {
                                crate::cloud::public_update_body(vs[i].cvid, value)
                            },
                        },
                    ),
                    ..st
                },
                seq![
                    CloudEffectV::VariableChanged {
                        kind,
                        name: vs[i].name,
                        old: vs[i].value,
                        new: value,
                        source: ChangeSource::Local,
                    },
                ],
            ),
        ),
    }
}

/// The effects that a list operation's callbacks receive.
pub open spec fn list_local_effects(l: ListV, a: ListActionV, new_items: Seq<CloudValueV>) -> Seq<
    CloudEffectV,
> {
    seq![
        CloudEffectV::ListOperation {
            name: l.name,
            op: list_op_name(a),
            args: list_op_args(l.items, a),
        },
        CloudEffectV::ListChanged {
            name: l.name,
            old_items: l.items,
            new_items,
            source: ChangeSource::Local,
        },
    ]
}

/// A local list operation: the list changes, callbacks run and the
/// operation is queued for upload.
pub open spec fn list_local_spec(st: CloudStateV, key: Seq<char>, a: ListActionV) -> Option<
    (CloudStateV, Seq<CloudEffectV>),
> {
    match resolve_list(st.store.lists, st.store.list_cvid, key) {
        None => None,
        Some(i) => {
            let l = st.store.lists[i];
            match list_apply(l.items, a) {
                None => None,
                Some(new_items) => Some(
                    (
                        CloudStateV {
                            store: StoreV {
                                lists: st.store.lists.update(i, ListV { items: new_items, ..l }),
                                ..st.store
                            },
                            commands: st.commands.push(
                                CloudCommandV::List { cvid: l.cvid, ops: seq![list_op_wire(a)] },
                            ),
                            ..st
                        },
                        list_local_effects(l, a, new_items),
                    ),
                ),
            }
        },
    }
}

/// The body of a ranking request.
pub open spec fn ranking_request_body(cvid: Seq<char>, limit: i64, order: i64) -> JsonV {
    JsonV::Object(
        seq![
            ("cvid"@, JsonV::Str(cvid)),
            ("limit"@, jnum(limit as int)),
            ("order_type"@, jnum(order as int)),
        ],
    )
}

/// The frames that send merged uploads: private updates, public updates,
/// then one per list, each only when there is something to send.
pub open spec fn upload_frames_spec(b: BatchedV) -> Seq<(Seq<char>, JsonV)> {
    (if b.private_updates.len() > 0 {
        seq![("update_private_vars"@, JsonV::Array(b.private_updates))]
    } else {
        Seq::empty()
    }) + (if b.public_updates.len() > 0 {
        seq![("update_vars"@, JsonV::Array(b.public_updates))]
    } else {
        Seq::empty()
    }) + b.list_updates.map_values(
        |e: (Seq<char>, Seq<JsonV>)|
            ("update_lists"@, JsonV::Object(seq![(e.0, JsonV::Array(e.1))])),
    )
}

/// How long to wait before reconnection attempt `attempt` (counted from 1),
/// in nanoseconds: the base interval doubled for each earlier attempt up to
/// five doublings, and at most five minutes.
pub open spec fn reconnect_delay_spec(interval_nanos: nat, attempt: nat) -> nat {
    let k: nat = if attempt >= 6 {
        5
    } else {
        (attempt - 1) as nat
    };
    let d = interval_nanos * vstd::arithmetic::power2::pow2(k);
    if d < 300_000_000_000 {
        d
    } else {
        300_000_000_000
    }
}

/// The delay before reconnection attempt `attempt`.
pub fn reconnect_delay_nanos(interval_nanos: u128, attempt: usize) -> (r: u128)
    requires
        attempt >= 1,
        interval_nanos <= u64::MAX as u128 * 1_000_000_000 + 999_999_999,
    ensures
        r == reconnect_delay_spec(interval_nanos as nat, attempt as nat),
{
    let k: u32 = if attempt >= 6 {
        5
    } else {
        (attempt - 1) as u32
    };
    let factor: u128 = if k == 0 {
        1
    } else if k == 1 {
        2
    } else if k == 2 {
        4
    } else if k == 3 {
        8
    } else if k == 4 {
        16
    } else {
        32
    };
    proof {
        vstd::arithmetic::power2::lemma2_to64();
        assert(factor == vstd::arithmetic::power2::pow2(k as nat));
    }
    assert(interval_nanos * factor <= u128::MAX) by (nonlinear_arith)
        requires
            interval_nanos <= u64::MAX as u128 * 1_000_000_000 + 999_999_999,
            factor <= 32,
    ;
    let d = interval_nanos * factor;
    if d < 300_000_000_000 {
        d
    } else {
        300_000_000_000
    }
}

/// Whether reconnection attempt `attempt` (counted from 1) may still be made.
pub fn may_reconnect(attempt: usize, max_attempts: usize) -> (r: bool)
    ensures
        r == (attempt <= max_attempts),
{
    attempt <= max_attempts
}

impl CloudState {
    /// Sets a variable locally: the value changes, change callbacks run and
    /// the update is queued for upload.
    pub fn set_variable(&mut self, kind: VarKind, key: &str, value: CloudValue) -> (r: Result<
        Vec<CloudEffect>,
        CloudError,
    >)
        ensures
            match set_variable_spec(old(self)@, kind, key@, value@) {
                Some((t, es)) => r.is_ok() && final(self)@ == t && view_effects(r.unwrap()@) == es,
                None => r.is_err() && final(self)@ == old(self)@ && (r->Err_0
                    is VariableNotFound) && r->Err_0->VariableNotFound_0@ == key@,
            },
    {
        let i = match self.store.variable_index(kind, key) {
            Some(i) => i,
            None => return Err(CloudError::VariableNotFound(own(key))),
        };
        proof {
            crate::search::lemma_first_index(
                vars_of(self.store@, kind),
                crate::cloud_store::var_named(key@),
            );
            let ps = crate::cloud_store::aliases_of(self.store@, kind);
            crate::search::lemma_first_index(ps, crate::cloud_store::alias_of(key@));
            match crate::search::first_index(ps, crate::cloud_store::alias_of(key@)) {
                Some(j) => crate::search::lemma_first_index(
                    vars_of(self.store@, kind),
                    crate::cloud_store::var_named(ps[j].1),
                ),
                None => {},
            }
        }
        let (name, cvid) = match kind {
            VarKind::Private => (
                self.store.private_vars[i].name.clone(),
                self.store.private_vars[i].cvid.clone(),
            ),
            VarKind::Public => (
                self.store.public_vars[i].name.clone(),
                self.store.public_vars[i].cvid.clone(),
            ),
        };
        let command = match kind {
            VarKind::Private => CommandFactory::update_private_variable(cvid.as_str(), &value),
            VarKind::Public => CommandFactory::update_public_variable(cvid.as_str(), &value),
        };
        let new_copy = value.dup();
        let old_value = self.store.replace_value(kind, i, value);
        let mut out: Vec<CloudEffect> = Vec::new();
        out.push(
            CloudEffect::VariableChanged {
                kind,
                name,
                old: old_value,
                new: new_copy,
                source: ChangeSource::Local,
            },
        );
        self.commands.push(command);
        proof {
            assert(view_commands(self.commands@) =~= view_commands(old(self).commands@).push(
                command@,
            ));
        }
        assert(view_effects(out@) =~= set_variable_spec(old(self)@, kind, key@, new_copy@).unwrap().1);
        Ok(out)
    }

    /// Applies a list operation locally: the list changes, callbacks run and
    /// the operation is queued for upload.
    pub fn list_apply_local(&mut self, key: &str, action: &ListAction) -> (r: Result<
        Vec<CloudEffect>,
        CloudError,
    >)
        ensures
            match list_local_spec(old(self)@, key@, action@) {
                Some((t, es)) => r.is_ok() && final(self)@ == t && view_effects(r.unwrap()@) == es,
                None => r.is_err() && final(self)@ == old(self)@ && (match resolve_list(
                    old(self)@.store.lists,
                    old(self)@.store.list_cvid,
                    key@,
                ) {
                    None => (r->Err_0 is ListNotFound) && r->Err_0->ListNotFound_0@ == key@,
                    Some(_) => (r->Err_0 is InvalidArgument) && r->Err_0->InvalidArgument_0@
                        == "列表操作越界或非法: "@ + list_action_name_spec(action@),
                }),
            },
    {
        let i = match self.store.list_index(key) {
            Some(i) => i,
            None => return Err(CloudError::ListNotFound(own(key))),
        };
        proof {
            crate::search::lemma_first_index(self.store@.lists, crate::cloud_store::list_named(key@));
            let ps = self.store@.list_cvid;
            crate::search::lemma_first_index(ps, crate::cloud_store::alias_of(key@));
            match crate::search::first_index(ps, crate::cloud_store::alias_of(key@)) {
                Some(j) => crate::search::lemma_first_index(
                    self.store@.lists,
                    crate::cloud_store::list_named(ps[j].1),
                ),
                None => {},
            }
        }
        let name = self.store.lists[i].name.clone();
        let cvid = self.store.lists[i].cvid.clone();
        let old_items = dup_values(&self.store.lists[i].items);
        match self.store.apply_to_list(i, action) {
            Some(outcome) => {
                assert(crate::cloud_store::view_lists(self.store.lists@).len()
                    == self.store.lists@.len());
                assert(crate::cloud_store::view_lists(self.store.lists@)[i as int] == list_v(
                    self.store.lists@[i as int],
                ));
                let new_items = dup_values(&self.store.lists[i].items);
                let ghost wire_v = outcome.wire@;
                let mut out: Vec<CloudEffect> = Vec::new();
                out.push(
                    CloudEffect::ListOperation {
                        name: name.clone(),
                        op: outcome.op,
                        args: outcome.args,
                    },
                );
                out.push(
                    CloudEffect::ListChanged {
                        name,
                        old_items,
                        new_items,
                        source: ChangeSource::Local,
                    },
                );
                let ops = vec![outcome.wire];
                assert(view_items(ops@) =~= seq![wire_v]) by {
                    lemma_view_items(ops@);
                }
                let command = CommandFactory::update_list(cvid.as_str(), ops);
                self.commands.push(command);
                proof {
                    assert(view_commands(self.commands@) =~= view_commands(
                        old(self).commands@,
                    ).push(command@));
                }
                assert(view_effects(out@) =~= list_local_spec(old(self)@, key@, action@).unwrap().1);
                Ok(out)
            },
            None => {
                let mut m = own("列表操作越界或非法: ");
                crate::text::push_str(&mut m, action_name(action));
                Err(CloudError::InvalidArgument(m))
            },
        }
    }

    /// Requests the ranking of the private variable `key`; the answer comes
    /// as a `list_ranking_done` event.
    pub fn request_ranking(&mut self, key: &str, limit: i64, order: i64) -> (r: Result<
        Vec<CloudEffect>,
        CloudError,
    >)
        ensures
            !(MIN_RANKING_LIMIT <= limit <= MAX_RANKING_LIMIT) ==> r.is_err() && (r->Err_0
                is InvalidArgument) && final(self)@ == old(self)@,
            (MIN_RANKING_LIMIT <= limit <= MAX_RANKING_LIMIT) && order != ASCENDING_ORDER && order
                != DESCENDING_ORDER ==> r.is_err() && (r->Err_0 is InvalidArgument) && final(self)@
                == old(self)@,
            (MIN_RANKING_LIMIT <= limit <= MAX_RANKING_LIMIT) && (order == ASCENDING_ORDER || order
                == DESCENDING_ORDER) ==> match store_var(old(self)@.store, VarKind::Private, key@) {
                None => r.is_err() && (r->Err_0 is VariableNotFound) && r->Err_0->VariableNotFound_0@
                    == key@ && final(self)@ == old(self)@,
                Some(v) => r.is_ok() && final(self)@ == (CloudStateV {
                    pending_rankings: old(self)@.pending_rankings.push(v.cvid),
                    ..old(self)@
                }) && view_effects(r.unwrap()@) == seq![
                    CloudEffectV::SendEvent(
                        "list_ranking"@,
                        ranking_request_body(v.cvid, limit, order),
                    ),
                ],
            },
    {
        if !(MIN_RANKING_LIMIT <= limit && limit <= MAX_RANKING_LIMIT) {
            return Err(CloudError::InvalidArgument(own("排行榜限制数量必须在 1..=31 之间")));
        }
        if order != ASCENDING_ORDER && order != DESCENDING_ORDER {
            return Err(
                CloudError::InvalidArgument(own("排序顺序必须是 1 (正序) 或 -1 (逆序)")),
            );
        }
        let cvid = match self.store.variable(VarKind::Private, key) {
            Some(v) => v.cvid.clone(),
            None => return Err(CloudError::VariableNotFound(own(key))),
        };
        self.pending_rankings.push(cvid.clone());
        assert(view_strings(self.pending_rankings@) =~= view_strings(
            old(self).pending_rankings@,
        ).push(cvid@));
        let es = vec![
            (own("cvid"), Json::Str(cvid)),
            (own("limit"), Json::from_i64(limit)),
            (own("order_type"), Json::from_i64(order)),
        ];
        let ghost ev = view_entries(es@);
        assert(ev =~= seq![
            ("cvid"@, JsonV::Str(self.pending_rankings@.last()@)),
            ("limit"@, jnum(limit as int)),
            ("order_type"@, jnum(order as int)),
        ]) by {
            lemma_view_entries(es@);
        }
        let mut out: Vec<CloudEffect> = Vec::new();
        out.push(CloudEffect::SendEvent(own("list_ranking"), Json::Object(es)));
        assert(view_effects(out@) =~= seq![
            CloudEffectV::SendEvent(
                "list_ranking"@,
                ranking_request_body(self.pending_rankings@.last()@, limit, order),
            ),
        ]);
        Ok(out)
    }

    /// Withdraws the newest ranking request (its frame could not be sent).
    pub fn cancel_last_ranking(&mut self)
        ensures
            final(self)@ == (CloudStateV {
                pending_rankings: if old(self)@.pending_rankings.len() > 0 {
                    old(self)@.pending_rankings.drop_last()
                } else {
                    old(self)@.pending_rankings
                },
                ..old(self)@
            }),
    {
        if self.pending_rankings.len() > 0 {
            self.pending_rankings.pop();
            assert(view_strings(self.pending_rankings@) =~= view_strings(
                old(self).pending_rankings@,
            ).drop_last());
        }
    }

    /// Takes the queued commands for upload, merged, once the connection and
    /// its handshake are ready; otherwise the queue stays as it is.
    pub fn take_upload_batch(&mut self) -> (r: Option<BatchedUploads>)
        ensures
            old(self)@.commands.len() == 0 || !old(self)@.connected || !old(self)@.io_ready ==> r
                is None && final(self)@ == old(self)@,
            old(self)@.commands.len() > 0 && old(self)@.connected && old(self)@.io_ready ==> r
                is Some && r->Some_0@ == merge_spec(old(self)@.commands) && final(self)@ == (
            CloudStateV { commands: Seq::empty(), ..old(self)@ }),
    {
        if self.commands.len() == 0 || !self.connected || !self.io_ready {
            return None;
        }
        let mut batch: Vec<CloudCommand> = Vec::new();
        std::mem::swap(&mut batch, &mut self.commands);
        assert(view_commands(self.commands@) =~= Seq::<CloudCommandV>::empty());
        Some(merge_commands(batch))
    }

    /// Clears everything learnt from the server before a new connection.
    pub fn reset(&mut self)
        ensures
            final(self)@ == (CloudStateV {
                connected: false,
                data_ready: false,
                io_ready: false,
                online_users: 0,
                join_sent: false,
                store: empty_store(),
                commands: Seq::empty(),
                pending_rankings: Seq::empty(),
                ..old(self)@
            }),
    {
        self.connected = false;
        self.data_ready = false;
        self.io_ready = false;
        self.online_users = 0;
        self.join_sent = false;
        self.commands.clear();
        self.pending_rankings.clear();
        self.store.clear_all();
        assert(view_commands(self.commands@) =~= Seq::<CloudCommandV>::empty());
        assert(view_strings(self.pending_rankings@) =~= Seq::<Seq<char>>::empty());
    }

    /// Forgets queued work and data when the connection is closed.
    pub fn close(&mut self)
        ensures
            final(self)@ == (CloudStateV {
                connected: false,
                data_ready: false,
                store: empty_store(),
                commands: Seq::empty(),
                pending_rankings: Seq::empty(),
                ..old(self)@
            }),
    {
        self.commands.clear();
        self.pending_rankings.clear();
        self.connected = false;
        self.data_ready = false;
        self.store.clear_all();
        assert(view_commands(self.commands@) =~= Seq::<CloudCommandV>::empty());
        assert(view_strings(self.pending_rankings@) =~= Seq::<Seq<char>>::empty());
    }

    /// A WebSocket was established: the handshake is still to come.
    pub fn on_established(&mut self) -> (r: Vec<CloudEffect>)
        ensures
            final(self)@ == (CloudStateV {
                io_ready: false,
                connected: true,
                reconnect_attempts: 0,
                join_sent: false,
                ..old(self)@
            }),
            view_effects(r@) == seq![CloudEffectV::Connection(ConnectionEventV::Opened)],
    {
        self.io_ready = false;
        self.connected = true;
        self.reconnect_attempts = 0;
        self.join_sent = false;
        let mut out: Vec<CloudEffect> = Vec::new();
        out.push(CloudEffect::Connection(ConnectionEvent::Opened));
        assert(view_effects(out@) =~= seq![CloudEffectV::Connection(ConnectionEventV::Opened)]);
        out
    }

    /// The connection was lost.
    pub fn on_connection_lost(&mut self) -> (r: Vec<CloudEffect>)
        ensures
            final(self)@ == (CloudStateV {
                connected: false,
                data_ready: false,
                join_sent: false,
                io_ready: false,
                ..old(self)@
            }),
            view_effects(r@) == seq![
                CloudEffectV::DropSender,
                CloudEffectV::Connection(
                    ConnectionEventV::Closed { was_connected: old(self)@.connected },
                ),
            ],
    {
        let was_connected = self.connected;
        self.connected = false;
        self.data_ready = false;
        self.join_sent = false;
        self.io_ready = false;
        let mut out: Vec<CloudEffect> = Vec::new();
        out.push(CloudEffect::DropSender);
        out.push(CloudEffect::Connection(ConnectionEvent::Closed { was_connected }));
        assert(view_effects(out@) =~= seq![
            CloudEffectV::DropSender,
            CloudEffectV::Connection(ConnectionEventV::Closed { was_connected }),
        ]);
        out
    }
}

/// The operation name of a list action, as its callbacks know it.
pub open spec fn list_action_name_spec(a: ListActionV) -> Seq<char> {
    match a {
        ListActionV::Append(_) => "push"@,
        ListActionV::Unshift(_) => "unshift"@,
        ListActionV::Insert(_, _) => "insert"@,
        ListActionV::DeleteLast => "pop"@,
        ListActionV::DeleteAll => "clear"@,
        ListActionV::DeleteAt(_) => "remove"@,
        ListActionV::ReplaceLast(_) => "replace_last"@,
        ListActionV::ReplaceAt(_, _) => "replace"@,
    }
}

fn action_name(a: &ListAction) -> (r: &'static str)
    ensures
        r@ == list_action_name_spec(a@),
{
    match a {
        ListAction::Append(_) => "push",
        ListAction::Unshift(_) => "unshift",
        ListAction::Insert(_, _) => "insert",
        ListAction::DeleteLast => "pop",
        ListAction::DeleteAll => "clear",
        ListAction::DeleteAt(_) => "remove",
        ListAction::ReplaceLast(_) => "replace_last",
        ListAction::ReplaceAt(_, _) => "replace",
    }
}

/// The frames that send merged uploads.
pub fn upload_frames(b: &BatchedUploads) -> (r: Vec<(String, Json)>)
    ensures
        r@.map_values(|f: (String, Json)| (f.0@, f.1@)) == upload_frames_spec(b@),
{
    let ghost bv = b@;
    let ghost a_part = if bv.private_updates.len() > 0 {
        seq![("update_private_vars"@, JsonV::Array(bv.private_updates))]
    } else {
        Seq::empty()
    };
    let ghost b_part = if bv.public_updates.len() > 0 {
        seq![("update_vars"@, JsonV::Array(bv.public_updates))]
    } else {
        Seq::empty()
    };
    let ghost c_part = bv.list_updates.map_values(
        |e: (Seq<char>, Seq<JsonV>)|
            ("update_lists"@, JsonV::Object(seq![(e.0, JsonV::Array(e.1))])),
    );
    assert(upload_frames_spec(bv) == a_part + b_part + c_part);
    let mut out: Vec<(String, Json)> = Vec::new();
    proof {
        lemma_view_items(b.private_updates@);
        lemma_view_items(b.public_updates@);
    }
    if b.private_updates.len() > 0 {
        out.push(
            (own("update_private_vars"), Json::Array(crate::cloud::dup_json_vec(&b.private_updates))),
        );
    }
    if b.public_updates.len() > 0 {
        out.push((own("update_vars"), Json::Array(crate::cloud::dup_json_vec(&b.public_updates))));
    }
    assert(out@.map_values(|f: (String, Json)| (f.0@, f.1@)) =~= a_part + b_part);
    let mut i: usize = 0;
    while i < b.list_updates.len()
        invariant
            i <= b.list_updates@.len(),
            bv == b@,
            c_part.len() == b.list_updates@.len(),
            forall|k: int|
                0 <= k < b.list_updates@.len() ==> #[trigger] c_part[k] == (
                    "update_lists"@,
                    JsonV::Object(seq![(bv.list_updates[k].0, JsonV::Array(bv.list_updates[k].1))]),
                ),
            bv.list_updates.len() == b.list_updates@.len(),
            forall|k: int|
                0 <= k < b.list_updates@.len() ==> #[trigger] bv.list_updates[k] == (
                    b.list_updates@[k].0@,
                    view_items(b.list_updates@[k].1@),
                ),
            out@.map_values(|f: (String, Json)| (f.0@, f.1@)) == a_part + b_part + c_part.subrange(
                0,
                i as int,
            ),
        decreases b.list_updates@.len() - i,
    {
        let es = vec![
            (b.list_updates[i].0.clone(), Json::Array(crate::cloud::dup_json_vec(&b.list_updates[i].1))),
        ];
        let ghost ev = view_entries(es@);
        assert(ev =~= seq![(bv.list_updates[i as int].0, JsonV::Array(bv.list_updates[i as int].1))]) by {
            lemma_view_entries(es@);
        }
        let ghost prev = out@;
        out.push((own("update_lists"), Json::Object(es)));
        proof {
            let lhs = out@.map_values(|f: (String, Json)| (f.0@, f.1@));
            let rhs = a_part + b_part + c_part.subrange(0, i + 1);
            let old_lhs = prev.map_values(|f: (String, Json)| (f.0@, f.1@));
            assert(old_lhs.len() == prev.len());
            assert(old_lhs.len() == a_part.len() + b_part.len() + i);
            assert(lhs.len() == rhs.len());
            assert forall|k: int| 0 <= k < lhs.len() implies lhs[k] == rhs[k] by {
                if k < prev.len() {
                    assert(out@[k] == prev[k]);
                    assert(old_lhs[k] == (a_part + b_part + c_part.subrange(0, i as int))[k]);
                } else {
                    assert(k == a_part.len() + b_part.len() + i);
                    assert(rhs[k] == c_part[i as int]);
                }
            }
            assert(lhs =~= rhs);
        }
        i = i + 1;
    }
    assert(c_part.subrange(0, c_part.len() as int) == c_part);
    out
}

/// A value written locally is read back: after a local update of the
/// variable `key`, `key` denotes a variable holding the new value.
pub proof fn law_set_then_get(st: CloudStateV, kind: VarKind, key: Seq<char>, value: CloudValueV)
    requires
        set_variable_spec(st, kind, key, value) is Some,
    ensures
        ({
            let t = set_variable_spec(st, kind, key, value)->Some_0.0;
            store_var(t.store, kind, key) matches Some(v) && v.value == value
        }),
{
    let vs = vars_of(st.store, kind);
    let ps = crate::cloud_store::aliases_of(st.store, kind);
    let i = resolve_var(vs, ps, key).unwrap();
    let x = VarV { value, ..vs[i] };
    let nvs = vs.update(i, x);
    crate::search::lemma_first_index(vs, crate::cloud_store::var_named(key));
    crate::search::lemma_first_index(ps, crate::cloud_store::alias_of(key));
    assert(0 <= i < vs.len()) by {
        match crate::search::first_index(ps, crate::cloud_store::alias_of(key)) {
            Some(j) => crate::search::lemma_first_index(vs, crate::cloud_store::var_named(ps[j].1)),
            None => {},
        }
    }
    crate::search::lemma_first_index_update(vs, crate::cloud_store::var_named(key), i, x);
    match crate::search::first_index(ps, crate::cloud_store::alias_of(key)) {
        Some(j) => crate::search::lemma_first_index_update(
            vs,
            crate::cloud_store::var_named(ps[j].1),
            i,
            x,
        ),
        None => {},
    }
    let t = set_variable_spec(st, kind, key, value)->Some_0.0;
    assert(vars_of(t.store, kind) == nvs);
    assert(crate::cloud_store::aliases_of(t.store, kind) == ps);
}

/// Ranking answers are matched to requests in the order the requests were
/// made: each answer goes to the oldest request still waiting.
pub proof fn law_ranking_fifo(st: CloudStateV, cvid: Seq<char>, payload: JsonV)
    requires
        st.pending_rankings.len() == 0,
    ensures
        ({
            let s1 = CloudStateV { pending_rankings: st.pending_rankings.push(cvid), ..st };
            let (s2, es) = ranking_step(s1, payload);
            s2.pending_rankings.len() == 0 && es.len() == 1 && (es[0] matches CloudEffectV::Ranking {
                data,
                ..
            } && data.cvid == cvid)
        }),
{
    let s1 = CloudStateV { pending_rankings: st.pending_rankings.push(cvid), ..st };
    assert(s1.pending_rankings[0] == cvid);
    assert(s1.pending_rankings.skip(1) =~= Seq::<Seq<char>>::empty());
}

/// The server's connection acknowledgement sends `join` once per
/// connection: a repeated acknowledgement sends nothing more.
pub proof fn law_join_sent_once(st: CloudStateV)
    requires
        !st.join_sent,
    ensures
        ({
            let (s1, e1) = frame_step(st, FrameKindV::Connected);
            let (s2, e2) = frame_step(s1, FrameKindV::Connected);
            e1.len() == 2 && (e1[1] is SendEvent) && s1.join_sent && e2 == seq![
                CloudEffectV::Connection(ConnectionEventV::Opened),
            ] && s2 == s1
        }),
{
}


/// The payload of an event: a text payload that decodes as JSON (`inner`,
/// its decoding) stands for the decoded value; any other payload stands for
/// itself.
pub open spec fn decoded_payload_spec(payload: JsonV, inner: Option<JsonV>) -> JsonV {
    match payload {
        JsonV::Str(_) => match inner {
            Some(v) => v,
            None => payload,
        },
        _ => payload,
    }
}

/// The payload that an event stands for ([`decoded_payload_spec`]).
pub fn decode_payload(payload: Json, inner: Option<Json>) -> (r: Json)
    ensures
        r@ == decoded_payload_spec(
            payload@,
            match inner {
                Some(v) => Some(v@),
                None => None,
            },
        ),
{
    match payload {
        Json::Str(t) => match inner {
            Some(v) => v,
            None => Json::Str(t),
        },
        other => other,
    }
}

} // verus!
