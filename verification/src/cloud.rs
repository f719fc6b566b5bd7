//! Cloud variables and lists of a work: values, list operations, the update
//! commands queued for upload and how they are merged before sending.

use vstd::prelude::*;

use crate::json::{
    jget, jint, jnum, json_text, jstr, lemma_view_items, lemma_view_items_push, view_items, Json,
    JsonV,
};
use crate::text::{dec_int, lemma_dec_int_roundtrip, own, push_i64, push_str, str_eq};

verus! {

/// Smallest ranking size the service accepts.
pub const MIN_RANKING_LIMIT: i64 = 1;

/// Largest ranking size the service accepts.
pub const MAX_RANKING_LIMIT: i64 = 31;

/// Ranking order: ascending.
pub const ASCENDING_ORDER: i64 = 1;

/// Ranking order: descending.
pub const DESCENDING_ORDER: i64 = -1;

/// Errors of cloud operations.
#[derive(Debug, Clone, PartialEq, Eq)]
pub enum CloudError {
    /// The WebSocket layer failed; the text describes how.
    WebSocket(String),
    /// The HTTP upgrade was refused.
    Handshake(String),
    /// A message could not be encoded or decoded as JSON.
    Json(String),
    /// No connection to send on.
    NotConnected,
    /// No variable with that name or cvid.
    VariableNotFound(String),
    /// No list with that name or cvid.
    ListNotFound(String),
    /// An argument outside what the service accepts.
    InvalidArgument(String),
    /// Device authentication failed.
    Auth(String),
    /// A background thread could not be started.
    Thread(String),
}

/// The editor a work was made with; it decides the connection's query parameters.
#[derive(Debug, Clone, Copy, PartialEq, Eq, Structural)]
pub enum EditorType {
    Kitten,
    Nemo,
    KittenN,
    Coco,
}

impl Default for EditorType {
    fn default() -> (r: Self)
        ensures
            r == EditorType::Kitten,
    {
        EditorType::Kitten
    }
}

/// The `(authorization_type, stag)` query parameters of an editor.
pub open spec fn editor_query_params(e: EditorType) -> (Seq<char>, Seq<char>) {
    match e {
        EditorType::Nemo => (seq!['5'], seq!['2']),
        EditorType::Kitten | EditorType::Coco => (seq!['1'], seq!['1']),
        EditorType::KittenN => (seq!['5'], seq!['3']),
    }
}

impl EditorType {
    /// Returns `(authorization_type, stag)`.
    pub fn query_params(self) -> (r: (&'static str, &'static str))
        ensures
            r.0@ == editor_query_params(self).0,
            r.1@ == editor_query_params(self).1,
    {
        proof {
            reveal_strlit("5");
            reveal_strlit("2");
            reveal_strlit("1");
            reveal_strlit("3");
        }
        match self {
            EditorType::Nemo => ("5", "2"),
            EditorType::Kitten | EditorType::Coco => ("1", "1"),
            EditorType::KittenN => ("5", "3"),
        }
    }
}

/// A cloud value: an integer or a text.
#[derive(Debug, Clone, PartialEq, Eq)]
pub enum CloudValue {
    Number(i64),
    Text(String),
}

/// The model of a [`CloudValue`].
pub enum CloudValueV {
    Number(i64),
    Text(Seq<char>),
}

impl View for CloudValue {
    type V = CloudValueV;

    open spec fn view(&self) -> CloudValueV {
        match self {
            CloudValue::Number(n) => CloudValueV::Number(*n),
            CloudValue::Text(s) => CloudValueV::Text(s@),
        }
    }
}

/// The models of a sequence of values.
pub open spec fn cvs(s: Seq<CloudValue>) -> Seq<CloudValueV> {
    s.map_values(|x: CloudValue| x@)
}

/// A value as JSON (a number or a string).
pub open spec fn cv_json(v: CloudValueV) -> JsonV {
    match v {
        CloudValueV::Number(n) => jnum(n as int),
        CloudValueV::Text(s) => JsonV::Str(s),
    }
}

/// The integer that a number text in decimal-point form denotes when its
/// fraction is all zeros (`2.0`, `-17.00`), where it fits in `i64`.
pub open spec fn integral_point_value(t: Seq<char>) -> Option<i64> {
    match crate::decoders::first_pos(t, '.') {
        Some(p) => if 0 < p && p + 1 < t.len() && t[0] != '+' && (forall|j: int|
            p < j < t.len() ==> #[trigger] t[j] == '0') {
            crate::text::parse_i64_spec(t.take(p))
        } else {
            None
        },
        None => None,
    }
}

/// How a JSON value becomes a cloud value: a number stays a number where it
/// is an integer within `i64`, written as one or with a zero fraction (a
/// float with an integral value); a boolean becomes 1 or 0; a string stays
/// text; any other number keeps its text, and anything else becomes its
/// JSON text.
pub open spec fn cv_from_json(v: JsonV) -> CloudValueV {
    match v {
        JsonV::Number(t) => match jint(Some(v)) {
            Some(i) => CloudValueV::Number(i),
            None => match integral_point_value(t) {
                Some(i) => CloudValueV::Number(i),
                None => CloudValueV::Text(t),
            },
        },
        JsonV::Str(s) => CloudValueV::Text(s),
        JsonV::Bool(b) => CloudValueV::Number(
            if b {
                1
            } else {
                0
            },
        ),
        _ => CloudValueV::Text(json_text(v)),
    }
}

fn integral_point(t: &str) -> (r: Option<i64>)
    ensures
        r == integral_point_value(t@),
{
    let n = t.unicode_len();
    proof {
        crate::decoders::lemma_first_pos(t@, '.');
    }
    let mut p: usize = 0;
    while p < n && t.get_char(p) != '.'
        invariant
            p <= n,
            n == t@.len(),
            forall|j: int| 0 <= j < p ==> t@[j] != '.',
        decreases n - p,
    {
        p = p + 1;
    }
    if p == n {
        proof {
            match crate::decoders::first_pos(t@, '.') {
                Some(k) => {
                    assert(t@[k] == '.');
                },
                None => {},
            }
        }
        return None;
    }
    proof {
        match crate::decoders::first_pos(t@, '.') {
            Some(k) => {
                if k < p {
                    assert(t@[k] == '.');
                } else if k > p {
                    assert(t@[p as int] == '.');
                }
            },
            None => {
                assert(t@[p as int] == '.');
            },
        }
    }
    if p == 0 || p + 1 >= n || t.get_char(0) == '+' {
        return None;
    }
    let mut j: usize = p + 1;
    while j < n
        invariant
            p + 1 <= j <= n,
            n == t@.len(),
            forall|k: int| p < k < j ==> #[trigger] t@[k] == '0',
            crate::decoders::first_pos(t@, '.') == Some(p as int),
            0 < p,
            t@[0] != '+',
        decreases n - j,
    {
        if t.get_char(j) != '0' {
            assert(t@[j as int] != '0');
            return None;
        }
        j = j + 1;
    }
    let head = t.substring_char(0, p);
    assert(head@ == t@.take(p as int));
    crate::text::parse_i64(head)
}

/// The display text of a value.
pub open spec fn cv_display(v: CloudValueV) -> Seq<char> {
    match v {
        CloudValueV::Number(n) => dec_int(n as int),
        CloudValueV::Text(s) => s,
    }
}

impl CloudValue {
    /// The `param_type` that the cloud protocol expects for the value.
    pub fn param_type(&self) -> (r: &'static str)
        ensures
            r@ == (if self@ is Number {
                "number"@
            } else {
                "string"@
            }),
    {
        match self {
            CloudValue::Number(_) => "number",
            CloudValue::Text(_) => "string",
        }
    }

    /// Converts a JSON value.
    pub fn from_json(v: &Json) -> (r: CloudValue)
        ensures
            r@ == cv_from_json(v@),
    {
        match v {
            Json::Number(t) => match v.as_i64() {
                Some(i) => CloudValue::Number(i),
                None => match integral_point(t.as_str()) {
                    Some(i) => CloudValue::Number(i),
                    None => CloudValue::Text(t.clone()),
                },
            },
            Json::Str(s) => CloudValue::Text(s.clone()),
            Json::Bool(b) => CloudValue::Number(
                if *b {
                    1
                } else {
                    0
                },
            ),
            _ => CloudValue::Text(v.to_text()),
        }
    }

    /// The value as JSON.
    pub fn to_json(&self) -> (r: Json)
        ensures
            r@ == cv_json(self@),
    {
        match self {
            CloudValue::Number(n) => Json::from_i64(*n),
            CloudValue::Text(s) => Json::Str(s.clone()),
        }
    }

    /// A copy of the value.
    pub fn dup(&self) -> (r: CloudValue)
        ensures
            r@ == self@,
    {
        match self {
            CloudValue::Number(n) => CloudValue::Number(*n),
            CloudValue::Text(s) => CloudValue::Text(s.clone()),
        }
    }

    /// Whether two values are equal.
    pub fn equals(&self, other: &CloudValue) -> (r: bool)
        ensures
            r == (self@ == other@),
    {
        match (self, other) {
            (CloudValue::Number(a), CloudValue::Number(b)) => *a == *b,
            (CloudValue::Text(a), CloudValue::Text(b)) => str_eq(a.as_str(), b.as_str()),
            _ => false,
        }
    }

    /// The display text: the decimal number or the text itself.
    pub fn display(&self) -> (r: String)
        ensures
            r@ == cv_display(self@),
    {
        match self {
            CloudValue::Number(n) => {
                let mut s = String::new();
                push_i64(&mut s, *n);
                assert(Seq::<char>::empty() + dec_int(*n as int) == dec_int(*n as int));
                s
            },
            CloudValue::Text(t) => t.clone(),
        }
    }
}

/// A copy of a list of values.
pub fn dup_values(v: &Vec<CloudValue>) -> (r: Vec<CloudValue>)
    ensures
        cvs(r@) == cvs(v@),
{
    let mut out: Vec<CloudValue> = Vec::new();
    let mut i: usize = 0;
    while i < v.len()
        invariant
            i <= v@.len(),
            cvs(out@) == cvs(v@.subrange(0, i as int)),
        decreases v@.len() - i,
    {
        let c = v[i].dup();
        proof {
            assert(cvs(out@.push(c)) == cvs(out@).push(c@));
            assert(v@.subrange(0, i + 1) == v@.subrange(0, i as int).push(v@[i as int]));
            assert(cvs(v@.subrange(0, i + 1)) == cvs(v@.subrange(0, i as int)).push(
                v@[i as int]@,
            ));
        }
        out.push(c);
        i = i + 1;
    }
    assert(v@.subrange(0, v@.len() as int) == v@);
    out
}

/// Where a change of a variable or list came from.
#[derive(Debug, Clone, Copy, PartialEq, Eq, Structural)]
pub enum ChangeSource {
    /// A local operation.
    Local,
    /// A push from the cloud.
    Cloud,
}

impl ChangeSource {
    /// `"local"` or `"cloud"`.
    pub fn as_str(&self) -> (r: &'static str)
        ensures
            r@ == (match self {
                ChangeSource::Local => "local"@,
                ChangeSource::Cloud => "cloud"@,
            }),
    {
        match self {
            ChangeSource::Local => "local",
            ChangeSource::Cloud => "cloud",
        }
    }
}

/// A lifecycle event of the connection.
#[derive(Debug, Clone, PartialEq, Eq)]
pub enum ConnectionEvent {
    Opened,
    Closed { was_connected: bool },
    Error(String),
    ServerClosed(String),
}

/// The user of a ranking entry.
#[derive(Debug, Clone, PartialEq, Eq)]
pub struct RankingUser {
    pub id: i64,
    pub nickname: String,
    pub avatar_url: String,
}

/// One ranking entry.
#[derive(Debug, Clone, PartialEq, Eq)]
pub struct RankingItem {
    pub value: CloudValue,
    pub user: RankingUser,
}

/// The result of one ranking request.
#[derive(Debug, Clone, PartialEq, Eq)]
pub struct RankingData {
    pub cvid: String,
    pub name: String,
    pub items: Vec<RankingItem>,
}

/// Kind of a cloud variable.
#[derive(Debug, Clone, Copy, PartialEq, Eq, Structural)]
pub enum VarKind {
    Private,
    Public,
}

/// An update queued for upload.
#[derive(Debug, PartialEq)]
pub enum CloudCommand {
    /// A variable update; `data` is the message body.
    Variable { private: bool, data: Json },
    /// List operations on the list `cvid`.
    List { cvid: String, ops: Vec<Json> },
}

/// The model of a [`CloudCommand`].
pub enum CloudCommandV {
    Variable { private: bool, data: JsonV },
    List { cvid: Seq<char>, ops: Seq<JsonV> },
}

impl View for CloudCommand {
    type V = CloudCommandV;

    open spec fn view(&self) -> CloudCommandV {
        match self {
            CloudCommand::Variable { private, data } => CloudCommandV::Variable {
                private: *private,
                data: data@,
            },
            CloudCommand::List { cvid, ops } => CloudCommandV::List {
                cvid: cvid@,
                ops: view_items(ops@),
            },
        }
    }
}

/// The body of a private variable update.
pub open spec fn private_update_body(cvid: Seq<char>, v: CloudValueV) -> JsonV {
    JsonV::Object(
        seq![
            ("cvid"@, JsonV::Str(cvid)),
            ("param_type"@, JsonV::Str(cv_param_type(v))),
            ("value"@, cv_json(v)),
        ],
    )
}

/// The body of a public variable update.
pub open spec fn public_update_body(cvid: Seq<char>, v: CloudValueV) -> JsonV {
    JsonV::Object(
        seq![
            ("action"@, JsonV::Str("set"@)),
            ("cvid"@, JsonV::Str(cvid)),
            ("param_type"@, JsonV::Str(cv_param_type(v))),
            ("value"@, cv_json(v)),
        ],
    )
}

pub open spec fn cv_param_type(v: CloudValueV) -> Seq<char> {
    if v is Number {
        "number"@
    } else {
        "string"@
    }
}

/// Creates the update commands.
pub struct CommandFactory;

impl CommandFactory {
    /// The command that sets a private variable.
    pub fn update_private_variable(cvid: &str, value: &CloudValue) -> (r: CloudCommand)
        ensures
            r@ == (CloudCommandV::Variable {
                private: true,
                data: private_update_body(cvid@, value@),
            }),
    {
        let entries = vec![
            (own("cvid"), Json::from_str(cvid)),
            (own("param_type"), Json::from_str(value.param_type())),
            (own("value"), value.to_json()),
        ];
        let data = Json::Object(entries);
        proof {
            let es = entries@;
            assert(crate::json::view_entries(es) == seq![
                ("cvid"@, JsonV::Str(cvid@)),
                ("param_type"@, JsonV::Str(cv_param_type(value@))),
                ("value"@, cv_json(value@)),
            ]) by {
                crate::json::lemma_view_entries(es);
            }
        }
        CloudCommand::Variable { private: true, data }
    }

    /// The command that sets a public variable.
    pub fn update_public_variable(cvid: &str, value: &CloudValue) -> (r: CloudCommand)
        ensures
            r@ == (CloudCommandV::Variable {
                private: false,
                data: public_update_body(cvid@, value@),
            }),
    {
        let entries = vec![
            (own("action"), Json::from_str("set")),
            (own("cvid"), Json::from_str(cvid)),
            (own("param_type"), Json::from_str(value.param_type())),
            (own("value"), value.to_json()),
        ];
        let data = Json::Object(entries);
        proof {
            let es = entries@;
            assert(crate::json::view_entries(es) == seq![
                ("action"@, JsonV::Str("set"@)),
                ("cvid"@, JsonV::Str(cvid@)),
                ("param_type"@, JsonV::Str(cv_param_type(value@))),
                ("value"@, cv_json(value@)),
            ]) by {
                crate::json::lemma_view_entries(es);
            }
        }
        CloudCommand::Variable { private: false, data }
    }

    /// The command that applies `ops` to the list `cvid`.
    pub fn update_list(cvid: &str, ops: Vec<Json>) -> (r: CloudCommand)
        ensures
            r@ == (CloudCommandV::List { cvid: cvid@, ops: view_items(ops@) }),
    {
        CloudCommand::List { cvid: own(cvid), ops }
    }
}

/// The merged uploads: private updates, public updates and, per list, its
/// operations.
#[derive(Debug, PartialEq)]
pub struct BatchedUploads {
    pub private_updates: Vec<Json>,
    pub public_updates: Vec<Json>,
    pub list_updates: Vec<(String, Vec<Json>)>,
}

/// The model of [`BatchedUploads`].
pub struct BatchedV {
    pub private_updates: Seq<JsonV>,
    pub public_updates: Seq<JsonV>,
    pub list_updates: Seq<(Seq<char>, Seq<JsonV>)>,
}

pub open spec fn view_list_updates(s: Seq<(String, Vec<Json>)>) -> Seq<(Seq<char>, Seq<JsonV>)> {
    s.map_values(|e: (String, Vec<Json>)| (e.0@, view_items(e.1@)))
}

impl View for BatchedUploads {
    type V = BatchedV;

    open spec fn view(&self) -> BatchedV {
        BatchedV {
            private_updates: view_items(self.private_updates@),
            public_updates: view_items(self.public_updates@),
            list_updates: view_list_updates(self.list_updates@),
        }
    }
}

/// Whether an update body marks a public variable (its `action` is `"set"`).
pub open spec fn is_public_update(data: JsonV) -> bool {
    jstr(jget(data, "action"@)) == Some("set"@)
}

/// The index of the first list entry for `cvid`.
pub open spec fn find_cvid(ls: Seq<(Seq<char>, Seq<JsonV>)>, cvid: Seq<char>) -> Option<int>
    decreases ls.len(),
{
    if ls.len() == 0 {
        None
    } else {
        match find_cvid(ls.drop_last(), cvid) {
            Some(i) => Some(i),
            None => if ls.last().0 == cvid {
                Some(ls.len() - 1)
            } else {
                None
            },
        }
    }
}

/// Adds one command to merged uploads.
pub open spec fn merge_step(b: BatchedV, c: CloudCommandV) -> BatchedV {
    match c {
        CloudCommandV::Variable { data, .. } => if is_public_update(data) {
            BatchedV { public_updates: b.public_updates.push(data), ..b }
        } else {
            BatchedV { private_updates: b.private_updates.push(data), ..b }
        },
        CloudCommandV::List { cvid, ops } => match find_cvid(b.list_updates, cvid) {
            Some(i) => BatchedV {
                list_updates: b.list_updates.update(
                    i,
                    (cvid, b.list_updates[i].1 + ops),
                ),
                ..b
            },
            None => BatchedV { list_updates: b.list_updates.push((cvid, ops)), ..b },
        },
    }
}

/// The merge of a sequence of commands, in order.
pub open spec fn merge_spec(cs: Seq<CloudCommandV>) -> BatchedV
    decreases cs.len(),
{
    if cs.len() == 0 {
        BatchedV {
            private_updates: Seq::empty(),
            public_updates: Seq::empty(),
            list_updates: Seq::empty(),
        }
    } else {
        merge_step(merge_spec(cs.drop_last()), cs.last())
    }
}

pub open spec fn view_commands(cs: Seq<CloudCommand>) -> Seq<CloudCommandV> {
    cs.map_values(|c: CloudCommand| c@)
}

pub proof fn lemma_find_cvid(ls: Seq<(Seq<char>, Seq<JsonV>)>, cvid: Seq<char>)
    ensures
        match find_cvid(ls, cvid) {
            Some(i) => 0 <= i < ls.len() && ls[i].0 == cvid && forall|j: int|
                0 <= j < i ==> #[trigger] ls[j].0 != cvid,
            None => forall|j: int| 0 <= j < ls.len() ==> #[trigger] ls[j].0 != cvid,
        },
    decreases ls.len(),
{
    if ls.len() > 0 {
        lemma_find_cvid(ls.drop_last(), cvid);
        match find_cvid(ls.drop_last(), cvid) {
            Some(i) => {
                assert forall|j: int| 0 <= j < i implies #[trigger] ls[j].0 != cvid by {
                    assert(ls[j] == ls.drop_last()[j]);
                }
            },
            None => {
                assert forall|j: int| 0 <= j < ls.len() - 1 implies #[trigger] ls[j].0
                    != cvid by {
                    assert(ls[j] == ls.drop_last()[j]);
                }
            },
        }
    }
}

/// A copy of a list of JSON values.
pub fn dup_json_vec(v: &Vec<Json>) -> (r: Vec<Json>)
    ensures
        view_items(r@) == view_items(v@),
{
    let mut out: Vec<Json> = Vec::new();
    let mut i: usize = 0;
    while i < v.len()
        invariant
            i <= v@.len(),
            view_items(out@) == view_items(v@.subrange(0, i as int)),
        decreases v@.len() - i,
    {
        let c = v[i].deep_clone();
        proof {
            lemma_view_items_push(out@, c);
            lemma_view_items_push(v@.subrange(0, i as int), v@[i as int]);
            assert(v@.subrange(0, i + 1) == v@.subrange(0, i as int).push(v@[i as int]));
        }
        out.push(c);
        i = i + 1;
    }
    assert(v@.subrange(0, v@.len() as int) == v@);
    out
}

/// Merges queued commands into as few messages as possible: all private
/// variable updates in one, all public ones in another, and the operations
/// of each list, in order, under its cvid.
pub fn merge_commands(commands: Vec<CloudCommand>) -> (r: BatchedUploads)
    ensures
        r@ == merge_spec(view_commands(commands@)),
{
    let mut out = BatchedUploads {
        private_updates: Vec::new(),
        public_updates: Vec::new(),
        list_updates: Vec::new(),
    };
    let ghost cs = view_commands(commands@);
    assert(cs.subrange(0, 0) =~= Seq::<CloudCommandV>::empty());
    assert(view_list_updates(out.list_updates@) =~= Seq::<(Seq<char>, Seq<JsonV>)>::empty());
    let mut i: usize = 0;
    while i < commands.len()
        invariant
            i <= commands@.len(),
            cs == view_commands(commands@),
            out@ == merge_spec(cs.subrange(0, i as int)),
        decreases commands@.len() - i,
    {
        proof {
            let p = cs.subrange(0, i + 1);
            assert(p.drop_last() == cs.subrange(0, i as int));
            assert(p.last() == commands@[i as int]@);
        }
        match &commands[i] {
            CloudCommand::Variable { data, .. } => {
                let action = data.get("action");
                let public = match action {
                    Some(a) => match a.as_str() {
                        Some(s) => str_eq(s, "set"),
                        None => false,
                    },
                    None => false,
                };
                let d = data.deep_clone();
                if public {
                    proof {
                        lemma_view_items_push(out.public_updates@, d);
                    }
                    out.public_updates.push(d);
                } else {
                    proof {
                        lemma_view_items_push(out.private_updates@, d);
                    }
                    out.private_updates.push(d);
                }
            },
            CloudCommand::List { cvid, ops } => {
                let ghost before = out@;
                proof {
                    lemma_find_cvid(before.list_updates, cvid@);
                }
                let mut k: usize = 0;
                let mut found = false;
                while k < out.list_updates.len()
                    invariant
                        k <= out.list_updates@.len(),
                        out@ == before,
                        forall|j: int| 0 <= j < k ==> #[trigger] before.list_updates[j].0 != cvid@,
                        found ==> k < out.list_updates@.len() && before.list_updates[k as int].0
                            == cvid@,
                    ensures
                        found ==> k < out.list_updates@.len() && before.list_updates[k as int].0
                            == cvid@,
                        !found ==> k == out.list_updates@.len(),
                        out@ == before,
                        forall|j: int| 0 <= j < k ==> #[trigger] before.list_updates[j].0 != cvid@,
                    decreases out.list_updates@.len() - k + (if found {
                        0int
                    } else {
                        1int
                    }),
                {
                    if str_eq(out.list_updates[k].0.as_str(), cvid.as_str()) {
                        found = true;
                        break;
                    }
                    k = k + 1;
                }
                let more = dup_json_vec(ops);
                if found {
                    proof {
                        assert(find_cvid(before.list_updates, cvid@) == Some(k as int));
                    }
                    let mut entry = out.list_updates.remove(k);
                    let ghost old_ops = entry.1@;
                    let mut more = more;
                    proof {
                        lemma_view_items(old_ops);
                        lemma_view_items(more@);
                    }
                    entry.1.append(&mut more);
                    proof {
                        lemma_view_items(entry.1@);
                        assert(view_items(entry.1@) == view_items(old_ops) + view_items(ops@));
                    }
                    out.list_updates.insert(k, entry);
                    proof {
                        assert(view_list_updates(out.list_updates@) == before.list_updates.update(
                            k as int,
                            (cvid@, before.list_updates[k as int].1 + view_items(ops@)),
                        ));
                    }
                } else {
                    proof {
                        assert(find_cvid(before.list_updates, cvid@) == None::<int>);
                    }
                    out.list_updates.push((cvid.clone(), more));
                    proof {
                        assert(view_list_updates(out.list_updates@) == before.list_updates.push(
                            (cvid@, view_items(ops@)),
                        ));
                    }
                }
            },
        }
        i = i + 1;
    }
    assert(cs.subrange(0, commands@.len() as int) == cs);
    out
}

/// In merged uploads every list appears once.
pub open spec fn distinct_cvids(ls: Seq<(Seq<char>, Seq<JsonV>)>) -> bool {
    forall|i: int, j: int| 0 <= i < j < ls.len() ==> #[trigger] ls[i].0 != #[trigger] ls[j].0
}

/// The operations that the commands hold for the list `cvid`, in order.
pub open spec fn ops_for(cs: Seq<CloudCommandV>, cvid: Seq<char>) -> Seq<JsonV>
    decreases cs.len(),
{
    if cs.len() == 0 {
        Seq::empty()
    } else {
        match cs.last() {
            CloudCommandV::List { cvid: c, ops } => if c == cvid {
                ops_for(cs.drop_last(), cvid) + ops
            } else {
                ops_for(cs.drop_last(), cvid)
            },
            _ => ops_for(cs.drop_last(), cvid),
        }
    }
}

/// Merging loses nothing and sends each list once: in the merged uploads
/// every cvid appears at most once, and the operations sent for a cvid are
/// exactly the operations queued for it, in queue order.
pub proof fn law_merge_groups_list_ops(cs: Seq<CloudCommandV>)
    ensures
        distinct_cvids(merge_spec(cs).list_updates),
        forall|k: int|
            0 <= k < merge_spec(cs).list_updates.len() ==> #[trigger] merge_spec(
                cs,
            ).list_updates[k].1 == ops_for(cs, merge_spec(cs).list_updates[k].0),
        forall|c: Seq<char>|
            find_cvid(merge_spec(cs).list_updates, c).is_none() ==> #[trigger] ops_for(cs, c)
                == Seq::<JsonV>::empty(),
    decreases cs.len(),
{
    if cs.len() > 0 {
        let prev = cs.drop_last();
        law_merge_groups_list_ops(prev);
        let b = merge_spec(prev);
        let ls = b.list_updates;
        let nb = merge_spec(cs);
        assert(nb == merge_step(b, cs.last()));
        match cs.last() {
            CloudCommandV::Variable { .. } => {
                assert(nb.list_updates == ls);
                assert forall|k: int| 0 <= k < nb.list_updates.len() implies #[trigger]
                    nb.list_updates[k].1 == ops_for(cs, nb.list_updates[k].0) by {
                    assert(ops_for(cs, ls[k].0) == ops_for(prev, ls[k].0));
                }
                assert forall|c: Seq<char>| find_cvid(nb.list_updates, c).is_none() implies
                    #[trigger] ops_for(cs, c) == Seq::<JsonV>::empty() by {
                    assert(ops_for(cs, c) == ops_for(prev, c));
                }
            },
            CloudCommandV::List { cvid, ops } => {
                lemma_find_cvid(ls, cvid);
                match find_cvid(ls, cvid) {
                    Some(i) => {
                        let nls = ls.update(i, (cvid, ls[i].1 + ops));
                        assert(nb.list_updates == nls);
                        assert forall|k: int| 0 <= k < nls.len() implies #[trigger] nls[k].1
                            == ops_for(cs, nls[k].0) by {
                            if k != i {
                                assert(ls[k].0 != cvid) by {
                                    assert(ls[i].0 == cvid);
                                }
                                assert(ops_for(cs, ls[k].0) == ops_for(prev, ls[k].0));
                            }
                        }
                        assert forall|c: Seq<char>| find_cvid(nls, c).is_none() implies
                            #[trigger] ops_for(cs, c) == Seq::<JsonV>::empty() by {
                            lemma_find_cvid(nls, c);
                            lemma_find_cvid(ls, c);
                            if c == cvid {
                                assert(nls[i].0 == c);
                            } else {
                                if find_cvid(ls, c).is_some() {
                                    let j = find_cvid(ls, c).unwrap();
                                    assert(nls[j].0 == c);
                                }
                                assert(ops_for(cs, c) == ops_for(prev, c));
                            }
                        }
                    },
                    None => {
                        let nls = ls.push((cvid, ops));
                        assert(nb.list_updates == nls);
                        assert(ops_for(prev, cvid) == Seq::<JsonV>::empty());
                        assert(ops_for(cs, cvid) == ops);
                        assert forall|k: int| 0 <= k < nls.len() implies #[trigger] nls[k].1
                            == ops_for(cs, nls[k].0) by {
                            if k < ls.len() {
                                assert(nls[k] == ls[k]);
                                assert(ls[k].0 != cvid);
                                assert(ops_for(cs, ls[k].0) == ops_for(prev, ls[k].0));
                            } else {
                                assert(ops_for(prev, cvid) + ops == ops);
                            }
                        }
                        assert forall|c: Seq<char>| find_cvid(nls, c).is_none() implies
                            #[trigger] ops_for(cs, c) == Seq::<JsonV>::empty() by {
                            lemma_find_cvid(nls, c);
                            lemma_find_cvid(ls, c);
                            if c == cvid {
                                assert(nls[ls.len() as int].0 == c);
                            } else {
                                if find_cvid(ls, c).is_some() {
                                    let j = find_cvid(ls, c).unwrap();
                                    assert(nls[j].0 == c);
                                }
                                assert(ops_for(cs, c) == ops_for(prev, c));
                            }
                        }
                        assert forall|x: int, y: int| 0 <= x < y < nls.len() implies #[trigger]
                            nls[x].0 != #[trigger] nls[y].0 by {
                            if y == ls.len() {
                                assert(nls[x] == ls[x]);
                            }
                        }
                    },
                }
            },
        }
    }
}


/// The bodies of the variable commands whose update is public (`public`)
/// or private (`!public`), in order.
pub open spec fn vars_for(cs: Seq<CloudCommandV>, public: bool) -> Seq<JsonV>
    decreases cs.len(),
{
    if cs.len() == 0 {
        Seq::empty()
    } else {
        match cs.last() {
            CloudCommandV::Variable { data, .. } => if is_public_update(data) == public {
                vars_for(cs.drop_last(), public).push(data)
            } else {
                vars_for(cs.drop_last(), public)
            },
            _ => vars_for(cs.drop_last(), public),
        }
    }
}

/// Merging sorts variable updates without losing or reordering any: the
/// public uploads are the bodies of the public updates, the private uploads
/// those of the others, each in queue order.
pub proof fn law_merge_splits_variables(cs: Seq<CloudCommandV>)
    ensures
        merge_spec(cs).public_updates == vars_for(cs, true),
        merge_spec(cs).private_updates == vars_for(cs, false),
    decreases cs.len(),
{
    if cs.len() > 0 {
        law_merge_splits_variables(cs.drop_last());
    }
}

/// A list operation.
#[derive(Debug, Clone, PartialEq, Eq)]
pub enum ListAction {
    Append(CloudValue),
    Unshift(CloudValue),
    Insert(usize, CloudValue),
    DeleteLast,
    DeleteAll,
    DeleteAt(usize),
    ReplaceLast(CloudValue),
    ReplaceAt(usize, CloudValue),
}

/// The model of a [`ListAction`].
pub enum ListActionV {
    Append(CloudValueV),
    Unshift(CloudValueV),
    Insert(usize, CloudValueV),
    DeleteLast,
    DeleteAll,
    DeleteAt(usize),
    ReplaceLast(CloudValueV),
    ReplaceAt(usize, CloudValueV),
}

impl View for ListAction {
    type V = ListActionV;

    open spec fn view(&self) -> ListActionV {
        match self {
            ListAction::Append(v) => ListActionV::Append(v@),
            ListAction::Unshift(v) => ListActionV::Unshift(v@),
            ListAction::Insert(i, v) => ListActionV::Insert(*i, v@),
            ListAction::DeleteLast => ListActionV::DeleteLast,
            ListAction::DeleteAll => ListActionV::DeleteAll,
            ListAction::DeleteAt(i) => ListActionV::DeleteAt(*i),
            ListAction::ReplaceLast(v) => ListActionV::ReplaceLast(v@),
            ListAction::ReplaceAt(i, v) => ListActionV::ReplaceAt(*i, v@),
        }
    }
}

/// The list after an operation, or `None` when the operation does not fit
/// the list (an index out of range, or the last item of an empty list).
pub open spec fn list_apply(items: Seq<CloudValueV>, a: ListActionV) -> Option<Seq<CloudValueV>> {
    match a {
        ListActionV::Append(v) => Some(items.push(v)),
        ListActionV::Unshift(v) => Some(seq![v] + items),
        ListActionV::Insert(i, v) => if i <= items.len() {
            Some(items.insert(i as int, v))
        } else {
            None
        },
        ListActionV::DeleteLast => if items.len() > 0 {
            Some(items.drop_last())
        } else {
            None
        },
        ListActionV::DeleteAll => Some(Seq::empty()),
        ListActionV::DeleteAt(i) => if i < items.len() {
            Some(items.remove(i as int))
        } else {
            None
        },
        ListActionV::ReplaceLast(v) => if items.len() > 0 {
            Some(items.update(items.len() - 1, v))
        } else {
            None
        },
        ListActionV::ReplaceAt(i, v) => if i < items.len() {
            Some(items.update(i as int, v))
        } else {
            None
        },
    }
}

/// The name under which operation callbacks hear of an operation.
pub open spec fn list_op_name(a: ListActionV) -> Seq<char> {
    match a {
        ListActionV::Append(_) => "push"@,
        ListActionV::Unshift(_) => "unshift"@,
        ListActionV::Insert(_, _) => "insert"@,
        ListActionV::DeleteLast => "pop"@,
        ListActionV::DeleteAll => "clear"@,
        ListActionV::DeleteAt(_) => "remove"@,
        ListActionV::ReplaceLast(_) => "replace_last"@,
        ListActionV::ReplaceAt(_, _) => "replace"@,
    }
}

/// The arguments that operation callbacks receive, given the list before the
/// operation: the item added or removed and its index, the old and the new
/// item for a replacement, nothing for a clear.
pub open spec fn list_op_args(items: Seq<CloudValueV>, a: ListActionV) -> Seq<CloudValueV> {
    match a {
        ListActionV::Append(v) => seq![v, CloudValueV::Number(items.len() as i64)],
        ListActionV::Unshift(v) => seq![v, CloudValueV::Number(0)],
        ListActionV::Insert(i, v) => seq![v, CloudValueV::Number(i as i64)],
        ListActionV::DeleteLast => seq![items.last(), CloudValueV::Number((items.len() - 1) as i64)],
        ListActionV::DeleteAll => Seq::empty(),
        ListActionV::DeleteAt(i) => seq![items[i as int], CloudValueV::Number(i as i64)],
        ListActionV::ReplaceLast(v) => seq![items.last(), v],
        ListActionV::ReplaceAt(i, v) => seq![items[i as int], v, CloudValueV::Number(i as i64)],
    }
}

/// The protocol form of an operation with one field besides `action`.
pub open spec fn wire2(action: Seq<char>, k: Seq<char>, v: JsonV) -> JsonV {
    JsonV::Object(seq![("action"@, JsonV::Str(action)), (k, v)])
}

/// The protocol form of an operation with `nth` and `value`.
pub open spec fn wire3(action: Seq<char>, nth: JsonV, v: JsonV) -> JsonV {
    JsonV::Object(seq![("action"@, JsonV::Str(action)), ("nth"@, nth), ("value"@, v)])
}

/// The operation as the cloud protocol writes it; positions (`nth`) count
/// from 1.
pub open spec fn list_op_wire(a: ListActionV) -> JsonV {
    match a {
        ListActionV::Append(v) => wire2("append"@, "value"@, cv_json(v)),
        ListActionV::Unshift(v) => wire2("unshift"@, "value"@, cv_json(v)),
        ListActionV::Insert(i, v) => wire3("insert"@, jnum(i + 1), cv_json(v)),
        ListActionV::DeleteLast => wire2("delete"@, "nth"@, JsonV::Str("last"@)),
        ListActionV::DeleteAll => wire2("delete"@, "nth"@, JsonV::Str("all"@)),
        ListActionV::DeleteAt(i) => wire2("delete"@, "nth"@, jnum(i + 1)),
        ListActionV::ReplaceLast(v) => wire3("replace"@, JsonV::Str("last"@), cv_json(v)),
        ListActionV::ReplaceAt(i, v) => wire3("replace"@, jnum(i + 1), cv_json(v)),
    }
}

/// The result of one list operation: its name, the callback arguments and
/// the protocol form.
#[derive(Debug, PartialEq)]
pub struct ListOutcome {
    pub op: String,
    pub args: Vec<CloudValue>,
    pub wire: Json,
}

/// A list operation in protocol form with one field besides `action`.
pub fn wire_two(action: &str, key: &str, v: Json) -> (r: Json)
    ensures
        r@ == wire2(action@, key@, v@),
{
    let ghost vv = v@;
    let es = vec![(own("action"), Json::from_str(action)), (own(key), v)];
    proof {
        reveal_strlit("action");
        assert(crate::json::view_entries(es@) == seq![
            ("action"@, JsonV::Str(action@)),
            (key@, vv),
        ]) by {
            crate::json::lemma_view_entries(es@);
        }
    }
    Json::Object(es)
}

/// A list operation in protocol form with `nth` and `value`.
pub fn wire_three(action: &str, nth: Json, v: Json) -> (r: Json)
    ensures
        r@ == wire3(action@, nth@, v@),
{
    let ghost vv = v@;
    let ghost nv = nth@;
    let es = vec![(own("action"), Json::from_str(action)), (own("nth"), nth), (own("value"), v)];
    proof {
        assert(crate::json::view_entries(es@) == seq![
            ("action"@, JsonV::Str(action@)),
            ("nth"@, nv),
            ("value"@, vv),
        ]) by {
            crate::json::lemma_view_entries(es@);
        }
    }
    Json::Object(es)
}

fn pos_json(i: usize) -> (r: Json)
    requires
        i < usize::MAX,
    ensures
        r@ == jnum(i + 1),
{
    Json::from_u64((i + 1) as u64)
}

fn values2(a: CloudValue, b: CloudValue) -> (r: Vec<CloudValue>)
    ensures
        cvs(r@) == seq![a@, b@],
{
    let r = vec![a, b];
    assert(cvs(r@) == seq![a@, b@]);
    r
}

/// Applies a list operation to `items`. Returns `None`, leaving `items`
/// unchanged, when the operation does not fit the list.
pub fn execute_list_action(items: &mut Vec<CloudValue>, action: &ListAction) -> (r: Option<
    ListOutcome,
>)
    ensures
        match list_apply(cvs(old(items)@), action@) {
            None => r.is_none() && cvs(final(items)@) == cvs(old(items)@),
            Some(new_items) => r.is_some() && cvs(final(items)@) == new_items && r.unwrap().op@
                == list_op_name(action@) && cvs(r.unwrap().args@) == list_op_args(
                cvs(old(items)@),
                action@,
            ) && r.unwrap().wire@ == list_op_wire(action@),
        },
{
    let ghost before = cvs(items@);
    match action {
        ListAction::Append(v) => {
            let n = items.len();
            items.push(v.dup());
            proof {
                assert(cvs(items@) == before.push(v@));
            }
            Some(
                ListOutcome {
                    op: own("push"),
                    args: values2(v.dup(), CloudValue::Number(n as i64)),
                    wire: wire_two("append", "value", v.to_json()),
                },
            )
        },
        ListAction::Unshift(v) => {
            items.insert(0, v.dup());
            proof {
                assert(cvs(items@) == seq![v@] + before);
            }
            Some(
                ListOutcome {
                    op: own("unshift"),
                    args: values2(v.dup(), CloudValue::Number(0)),
                    wire: wire_two("unshift", "value", v.to_json()),
                },
            )
        },
        ListAction::Insert(index, v) => {
            if *index > items.len() {
                return None;
            }
            items.insert(*index, v.dup());
            let n = items.len();
            assert(*index < n);
            proof {
                assert(cvs(items@) == before.insert(*index as int, v@));
            }
            Some(
                ListOutcome {
                    op: own("insert"),
                    args: values2(v.dup(), CloudValue::Number(*index as i64)),
                    wire: wire_three("insert", pos_json(*index), v.to_json()),
                },
            )
        },
        ListAction::DeleteLast => {
            if items.len() == 0 {
                return None;
            }
            let popped = items.pop().unwrap();
            let n = items.len();
            proof {
                assert(cvs(items@) == before.drop_last());
            }
            Some(
                ListOutcome {
                    op: own("pop"),
                    args: values2(popped, CloudValue::Number(n as i64)),
                    wire: wire_two("delete", "nth", Json::from_str("last")),
                },
            )
        },
        ListAction::DeleteAll => {
            items.clear();
            proof {
                assert(cvs(items@) == Seq::<CloudValueV>::empty());
            }
            let args: Vec<CloudValue> = Vec::new();
            assert(cvs(args@) == Seq::<CloudValueV>::empty());
            Some(
                ListOutcome {
                    op: own("clear"),
                    args,
                    wire: wire_two("delete", "nth", Json::from_str("all")),
                },
            )
        },
        ListAction::DeleteAt(index) => {
            if *index >= items.len() {
                return None;
            }
            let removed = items.remove(*index);
            proof {
                assert(cvs(items@) == before.remove(*index as int));
            }
            Some(
                ListOutcome {
                    op: own("remove"),
                    args: values2(removed, CloudValue::Number(*index as i64)),
                    wire: wire_two("delete", "nth", pos_json(*index)),
                },
            )
        },
        ListAction::ReplaceLast(v) => {
            if items.len() == 0 {
                return None;
            }
            let last = items.len() - 1;
            let old_v = items.remove(last);
            items.push(v.dup());
            proof {
                assert(cvs(items@) == before.update(last as int, v@));
            }
            Some(
                ListOutcome {
                    op: own("replace_last"),
                    args: values2(old_v, v.dup()),
                    wire: wire_three("replace", Json::from_str("last"), v.to_json()),
                },
            )
        },
        ListAction::ReplaceAt(index, v) => {
            if *index >= items.len() {
                return None;
            }
            let old_v = items.remove(*index);
            items.insert(*index, v.dup());
            proof {
                assert(cvs(items@) == before.update(*index as int, v@));
            }
            let args = vec![old_v, v.dup(), CloudValue::Number(*index as i64)];
            assert(cvs(args@) == list_op_args(before, action@));
            Some(
                ListOutcome {
                    op: own("replace"),
                    args,
                    wire: wire_three("replace", pos_json(*index), v.to_json()),
                },
            )
        },
    }
}

/// The position that a protocol `nth` (counted from 1) denotes; values below
/// 1 denote the first position.
pub open spec fn nth_index(n: i64) -> usize {
    if n >= 1 {
        (n - 1) as usize
    } else {
        0usize
    }
}

/// The value under `"value"`, converted.
pub open spec fn op_value(op: JsonV) -> Option<CloudValueV> {
    match jget(op, "value"@) {
        Some(x) => Some(cv_from_json(x)),
        None => None,
    }
}

/// Reads a list operation in the cloud protocol's form.
pub open spec fn parse_list_action_spec(op: JsonV) -> Option<ListActionV> {
    match jstr(jget(op, "action"@)) {
        None => None,
        Some(a) => if a == "append"@ {
            match op_value(op) {
                Some(v) => Some(ListActionV::Append(v)),
                None => None,
            }
        } else if a == "unshift"@ {
            match op_value(op) {
                Some(v) => Some(ListActionV::Unshift(v)),
                None => None,
            }
        } else if a == "insert"@ {
            match jint(jget(op, "nth"@)) {
                None => None,
                Some(n) => match op_value(op) {
                    Some(v) => Some(ListActionV::Insert(nth_index(n), v)),
                    None => None,
                },
            }
        } else if a == "delete"@ {
            match jget(op, "nth"@) {
                Some(JsonV::Str(s)) => if s == "last"@ {
                    Some(ListActionV::DeleteLast)
                } else if s == "all"@ {
                    Some(ListActionV::DeleteAll)
                } else {
                    None
                },
                Some(JsonV::Number(t)) => match jint(Some(JsonV::Number(t))) {
                    Some(n) => Some(ListActionV::DeleteAt(nth_index(n))),
                    None => None,
                },
                _ => None,
            }
        } else if a == "replace"@ {
            match jget(op, "nth"@) {
                None => None,
                Some(nth) => match op_value(op) {
                    None => None,
                    Some(v) => match nth {
                        JsonV::Str(s) => if s == "last"@ {
                            Some(ListActionV::ReplaceLast(v))
                        } else {
                            None
                        },
                        JsonV::Number(t) => match jint(Some(nth)) {
                            Some(n) => Some(ListActionV::ReplaceAt(nth_index(n), v)),
                            None => None,
                        },
                        _ => None,
                    },
                },
            }
        } else {
            None
        },
    }
}

fn nth_to_index(n: i64) -> (r: usize)
    ensures
        r == nth_index(n),
{
    if n >= 1 {
        (n - 1) as usize
    } else {
        0
    }
}

fn get_value(op: &Json) -> (r: Option<CloudValue>)
    ensures
        match r {
            Some(v) => op_value(op@) == Some(v@),
            None => op_value(op@).is_none(),
        },
{
    match op.get("value") {
        Some(x) => Some(CloudValue::from_json(x)),
        None => None,
    }
}

/// Reads a list operation sent by the cloud.
pub fn parse_list_action(op: &Json) -> (r: Option<ListAction>)
    ensures
        match r {
            Some(a) => parse_list_action_spec(op@) == Some(a@),
            None => parse_list_action_spec(op@).is_none(),
        },
{
    let action = match op.get("action") {
        Some(a) => match a.as_str() {
            Some(s) => s,
            None => return None,
        },
        None => return None,
    };
    if str_eq(action, "append") {
        match get_value(op) {
            Some(v) => Some(ListAction::Append(v)),
            None => None,
        }
    } else if str_eq(action, "unshift") {
        match get_value(op) {
            Some(v) => Some(ListAction::Unshift(v)),
            None => None,
        }
    } else if str_eq(action, "insert") {
        let n = match op.get("nth") {
            Some(x) => match x.as_i64() {
                Some(n) => n,
                None => return None,
            },
            None => return None,
        };
        match get_value(op) {
            Some(v) => Some(ListAction::Insert(nth_to_index(n), v)),
            None => None,
        }
    } else if str_eq(action, "delete") {
        match op.get("nth") {
            Some(Json::Str(s)) => {
                if str_eq(s.as_str(), "last") {
                    Some(ListAction::DeleteLast)
                } else if str_eq(s.as_str(), "all") {
                    Some(ListAction::DeleteAll)
                } else {
                    None
                }
            },
            Some(x) => {
                if x.is_number() {
                    match x.as_i64() {
                        Some(n) => Some(ListAction::DeleteAt(nth_to_index(n))),
                        None => None,
                    }
                } else {
                    None
                }
            },
            None => None,
        }
    } else if str_eq(action, "replace") {
        let nth = match op.get("nth") {
            Some(x) => x,
            None => return None,
        };
        let v = match get_value(op) {
            Some(v) => v,
            None => return None,
        };
        match nth {
            Json::Str(s) => {
                if str_eq(s.as_str(), "last") {
                    Some(ListAction::ReplaceLast(v))
                } else {
                    None
                }
            },
            Json::Number(_) => match nth.as_i64() {
                Some(n) => Some(ListAction::ReplaceAt(nth_to_index(n), v)),
                None => None,
            },
            _ => None,
        }
    } else {
        None
    }
}

proof fn lemma_cv_roundtrip(v: CloudValueV)
    ensures
        cv_from_json(cv_json(v)) == v,
{
    match v {
        CloudValueV::Number(n) => {
            lemma_dec_int_roundtrip(n as int);
        },
        CloudValueV::Text(_) => {},
    }
}

proof fn lemma_jnum_int(n: int)
    requires
        i64::MIN <= n <= i64::MAX,
    ensures
        jint(Some(jnum(n))) == Some(n as i64),
{
    lemma_dec_int_roundtrip(n);
}

pub(crate) proof fn lemma_strlits()
    ensures
        "action"@ != "value"@,
        "action"@ != "nth"@,
        "nth"@ != "value"@,
        "append"@ != "unshift"@,
        "append"@ != "insert"@,
        "append"@ != "delete"@,
        "append"@ != "replace"@,
        "unshift"@ != "insert"@,
        "unshift"@ != "delete"@,
        "unshift"@ != "replace"@,
        "insert"@ != "delete"@,
        "insert"@ != "replace"@,
        "delete"@ != "replace"@,
        "last"@ != "all"@,
{
    reveal_strlit("append");
    reveal_strlit("unshift");
    reveal_strlit("insert");
    reveal_strlit("delete");
    reveal_strlit("replace");
    reveal_strlit("action");
    reveal_strlit("value");
    reveal_strlit("nth");
    reveal_strlit("last");
    reveal_strlit("all");
    assert("action"@.len() == 6);
    assert("value"@.len() == 5);
    assert("nth"@.len() == 3);
    assert("append"@.len() == 6);
    assert("unshift"@.len() == 7);
    assert("insert"@.len() == 6);
    assert("delete"@.len() == 6);
    assert("replace"@.len() == 7);
    assert("last"@.len() == 4);
    assert("all"@.len() == 3);
    assert("append"@[0] != "insert"@[0]);
    assert("append"@[0] != "delete"@[0]);
    assert("insert"@[0] != "delete"@[0]);
    assert("unshift"@[0] != "replace"@[0]);
}

pub(crate) proof fn lemma_wire2_get(a: Seq<char>, k: Seq<char>, v: JsonV)
    requires
        k != "action"@,
    ensures
        jget(wire2(a, k, v), "action"@) == Some(JsonV::Str(a)),
        jget(wire2(a, k, v), k) == Some(v),
{
    crate::json::lemma_find_key2(("action"@, JsonV::Str(a)), (k, v), "action"@);
    crate::json::lemma_find_key2(("action"@, JsonV::Str(a)), (k, v), k);
}

pub(crate) proof fn lemma_wire3_get(a: Seq<char>, n: JsonV, v: JsonV)
    ensures
        jget(wire3(a, n, v), "action"@) == Some(JsonV::Str(a)),
        jget(wire3(a, n, v), "nth"@) == Some(n),
        jget(wire3(a, n, v), "value"@) == Some(v),
{
    lemma_strlits();
    crate::json::lemma_find_key3(("action"@, JsonV::Str(a)), ("nth"@, n), ("value"@, v), "action"@);
    crate::json::lemma_find_key3(("action"@, JsonV::Str(a)), ("nth"@, n), ("value"@, v), "nth"@);
    crate::json::lemma_find_key3(("action"@, JsonV::Str(a)), ("nth"@, n), ("value"@, v), "value"@);
}

/// A list operation sent in protocol form is read back as the same
/// operation: what the local side applies and uploads, a client receiving
/// the upload applies too. Holds for positions below `i64::MAX`.
pub proof fn law_list_wire_roundtrip(a: ListActionV)
    requires
        match a {
            ListActionV::Insert(i, _) => i < i64::MAX,
            ListActionV::DeleteAt(i) => i < i64::MAX,
            ListActionV::ReplaceAt(i, _) => i < i64::MAX,
            _ => true,
        },
    ensures
        parse_list_action_spec(list_op_wire(a)) == Some(a),
{
    lemma_strlits();
    match a {
        ListActionV::Append(v) => {
            lemma_cv_roundtrip(v);
            lemma_wire2_get("append"@, "value"@, cv_json(v));
        },
        ListActionV::Unshift(v) => {
            lemma_cv_roundtrip(v);
            lemma_wire2_get("unshift"@, "value"@, cv_json(v));
        },
        ListActionV::Insert(i, v) => {
            lemma_cv_roundtrip(v);
            lemma_jnum_int(i + 1);
            lemma_wire3_get("insert"@, jnum(i + 1), cv_json(v));
        },
        ListActionV::DeleteLast => {
            lemma_wire2_get("delete"@, "nth"@, JsonV::Str("last"@));
        },
        ListActionV::DeleteAll => {
            lemma_wire2_get("delete"@, "nth"@, JsonV::Str("all"@));
        },
        ListActionV::DeleteAt(i) => {
            lemma_jnum_int(i + 1);
            lemma_wire2_get("delete"@, "nth"@, jnum(i + 1));
        },
        ListActionV::ReplaceLast(v) => {
            lemma_cv_roundtrip(v);
            lemma_wire3_get("replace"@, JsonV::Str("last"@), cv_json(v));
        },
        ListActionV::ReplaceAt(i, v) => {
            lemma_cv_roundtrip(v);
            lemma_jnum_int(i + 1);
            lemma_wire3_get("replace"@, jnum(i + 1), cv_json(v));
        },
    }
}

/// Appending an item and then deleting the last item gives the list back,
/// and so do prepending and deleting the first item, and inserting at a
/// position and deleting that position.
pub proof fn law_list_add_then_delete(items: Seq<CloudValueV>, v: CloudValueV, i: usize)
    requires
        i <= items.len(),
    ensures
        list_apply(list_apply(items, ListActionV::Append(v)).unwrap(), ListActionV::DeleteLast)
            == Some(items),
        list_apply(list_apply(items, ListActionV::Unshift(v)).unwrap(), ListActionV::DeleteAt(0))
            == Some(items),
        list_apply(list_apply(items, ListActionV::Insert(i, v)).unwrap(), ListActionV::DeleteAt(i))
            == Some(items),
{
    assert(items.push(v).drop_last() == items);
    assert((seq![v] + items).remove(0) == items);
    assert(items.insert(i as int, v).remove(i as int) == items);
}

/// Every operation that fits changes the length by what it adds or removes:
/// one more for an append, prepend or insert, one less for a delete, none
/// for a replacement, and zero items after a clear.
pub proof fn law_list_length(items: Seq<CloudValueV>, a: ListActionV)
    requires
        list_apply(items, a).is_some(),
    ensures
        list_apply(items, a).unwrap().len() == match a {
            ListActionV::Append(_) | ListActionV::Unshift(_) | ListActionV::Insert(_, _) => items.len()
                + 1int,
            ListActionV::DeleteLast | ListActionV::DeleteAt(_) => items.len() - 1,
            ListActionV::DeleteAll => 0,
            ListActionV::ReplaceLast(_) | ListActionV::ReplaceAt(_, _) => items.len() as int,
        },
{
}


/// Default interval between batched uploads, in milliseconds.
pub const DEFAULT_FLUSH_INTERVAL_MS: u64 = 100;

/// Default base interval between reconnection attempts, in milliseconds.
pub const DEFAULT_RECONNECT_INTERVAL_MS: u64 = 8000;

/// Default number of reconnection attempts.
pub const DEFAULT_MAX_RECONNECT_ATTEMPTS: usize = 5;

/// Settings of a cloud connection, chained before it is built. Intervals
/// are in milliseconds.
#[derive(Debug, Clone, PartialEq, Eq)]
pub struct CloudBuilder {
    pub work_id: i64,
    pub editor: Option<EditorType>,
    pub authorization_token: Option<String>,
    pub auto_reconnect: bool,
    pub max_reconnect_attempts: usize,
    pub reconnect_interval_ms: u64,
    pub flush_interval_ms: u64,
}

impl CloudBuilder {
    /// Settings for `work_id` with the defaults: editor inferred, no token,
    /// reconnecting up to 5 times from 8 s on, uploads every 100 ms.
    pub fn new(work_id: i64) -> (r: CloudBuilder)
        ensures
            r.work_id == work_id,
            r.editor.is_none(),
            r.authorization_token.is_none(),
            r.auto_reconnect,
            r.max_reconnect_attempts == DEFAULT_MAX_RECONNECT_ATTEMPTS,
            r.reconnect_interval_ms == DEFAULT_RECONNECT_INTERVAL_MS,
            r.flush_interval_ms == DEFAULT_FLUSH_INTERVAL_MS,
    {
        CloudBuilder {
            work_id,
            editor: None,
            authorization_token: None,
            auto_reconnect: true,
            max_reconnect_attempts: DEFAULT_MAX_RECONNECT_ATTEMPTS,
            reconnect_interval_ms: DEFAULT_RECONNECT_INTERVAL_MS,
            flush_interval_ms: DEFAULT_FLUSH_INTERVAL_MS,
        }
    }

    /// Sets the editor explicitly.
    pub fn editor(self, editor: EditorType) -> (r: CloudBuilder)
        ensures
            r == (CloudBuilder { editor: Some(editor), ..self }),
    {
        CloudBuilder { editor: Some(editor), ..self }
    }

    /// Sets the authorization token (sent as `Cookie: Authorization=...`).
    pub fn authorization_token(self, token: &str) -> (r: CloudBuilder)
        ensures
            r.authorization_token is Some,
            r.authorization_token->Some_0@ == token@,
            r == (CloudBuilder { authorization_token: r.authorization_token, ..self }),
    {
        CloudBuilder { authorization_token: Some(own(token)), ..self }
    }

    /// Turns automatic reconnection on or off.
    pub fn auto_reconnect(self, enabled: bool) -> (r: CloudBuilder)
        ensures
            r == (CloudBuilder { auto_reconnect: enabled, ..self }),
    {
        CloudBuilder { auto_reconnect: enabled, ..self }
    }

    /// Sets the number of reconnection attempts.
    pub fn max_reconnect_attempts(self, attempts: usize) -> (r: CloudBuilder)
        ensures
            r == (CloudBuilder { max_reconnect_attempts: attempts, ..self }),
    {
        CloudBuilder { max_reconnect_attempts: attempts, ..self }
    }

    /// Sets the base reconnection interval, in milliseconds (doubled per
    /// attempt).
    pub fn reconnect_interval(self, interval_ms: u64) -> (r: CloudBuilder)
        ensures
            r == (CloudBuilder { reconnect_interval_ms: interval_ms, ..self }),
    {
        CloudBuilder { reconnect_interval_ms: interval_ms, ..self }
    }

    /// Sets the interval between batched uploads, in milliseconds.
    pub fn flush_interval(self, interval_ms: u64) -> (r: CloudBuilder)
        ensures
            r == (CloudBuilder { flush_interval_ms: interval_ms, ..self }),
    {
        CloudBuilder { flush_interval_ms: interval_ms, ..self }
    }

    /// The editor to connect as: the one set, else `Kitten`.
    pub fn effective_editor(&self) -> (r: EditorType)
        ensures
            r == (match self.editor {
                Some(e) => e,
                None => EditorType::Kitten,
            }),
    {
        match self.editor {
            Some(e) => e,
            None => EditorType::Kitten,
        }
    }
}

/// The cloud-storage WebSocket address of a work.
pub open spec fn cloud_url_spec(work_id: i64, editor: EditorType) -> Seq<char> {
    "wss://socketcv.codemao.cn:9096/cloudstorage/?session_id="@ + dec_int(work_id as int)
        + "&authorization_type="@ + editor_query_params(editor).0 + "&stag="@
        + editor_query_params(editor).1 + "&EIO=3&transport=websocket"@
}

/// Builds the cloud-storage WebSocket address of a work.
pub fn cloud_url(work_id: i64, editor: EditorType) -> (r: String)
    ensures
        r@ == cloud_url_spec(work_id, editor),
{
    let (auth_type, stag) = editor.query_params();
    let mut s = own("wss://socketcv.codemao.cn:9096/cloudstorage/?session_id=");
    push_i64(&mut s, work_id);
    push_str(&mut s, "&authorization_type=");
    push_str(&mut s, auth_type);
    push_str(&mut s, "&stag=");
    push_str(&mut s, stag);
    push_str(&mut s, "&EIO=3&transport=websocket");
    s
}

/// The display texts of the items, with `sep` between neighbours.
pub open spec fn join_spec(items: Seq<CloudValueV>, sep: Seq<char>) -> Seq<char>
    decreases items.len(),
{
    if items.len() == 0 {
        Seq::empty()
    } else if items.len() == 1 {
        cv_display(items[0])
    } else {
        join_spec(items.drop_last(), sep) + sep + cv_display(items.last())
    }
}

/// Joins the display texts of a list's items ([`join_spec`]).
pub fn join_values(items: &Vec<CloudValue>, separator: &str) -> (r: String)
    ensures
        r@ == join_spec(cvs(items@), separator@),
{
    let ghost iv = cvs(items@);
    let mut out = String::new();
    let mut i: usize = 0;
    while i < items.len()
        invariant
            i <= items@.len(),
            iv == cvs(items@),
            out@ == join_spec(iv.subrange(0, i as int), separator@),
        decreases items@.len() - i,
    {
        let t = items[i].display();
        let ghost before = out@;
        if i > 0 {
            push_str(&mut out, separator);
        }
        push_str(&mut out, t.as_str());
        proof {
            let sub = iv.subrange(0, i + 1);
            assert(sub.drop_last() == iv.subrange(0, i as int));
            assert(sub.last() == items@[i as int]@);
            if i == 0 {
                assert(sub.len() == 1);
                assert(sub[0] == items@[0]@);
                assert(before == Seq::<char>::empty());
            }
        }
        i = i + 1;
    }
    assert(iv.subrange(0, items@.len() as int) == iv);
    out
}


/// Where each item of a cloud list goes under each action, position by
/// position: an append puts the value last, a prepend first, an insert at
/// its position with the later items one further; deleting the last item,
/// or the item at a position, closes the gap; a replacement changes only
/// its position (the last one for `ReplaceLast`); deleting all leaves
/// nothing. Positions outside the list refuse the action.
pub proof fn law_list_positions(items: Seq<CloudValueV>, a: ListActionV)
    ensures
        ({
            let n = items.len();
            match a {
                ListActionV::Append(v) => list_apply(items, a) matches Some(r) && r.len() == n + 1
                    && r[n as int] == v && forall|k: int| 0 <= k < n ==> r[k] == items[k],
                ListActionV::Unshift(v) => list_apply(items, a) matches Some(r) && r.len() == n + 1
                    && r[0] == v && forall|k: int| 0 <= k < n ==> r[k + 1] == items[k],
                ListActionV::Insert(i, v) => if i <= n {
                    list_apply(items, a) matches Some(r) && r.len() == n + 1 && r[i as int] == v
                        && (forall|k: int| 0 <= k < i ==> r[k] == items[k]) && forall|k: int|
                        i <= k < n ==> r[k + 1] == items[k]
                } else {
                    list_apply(items, a) is None
                },
                ListActionV::DeleteLast => if n > 0 {
                    list_apply(items, a) matches Some(r) && r.len() == n - 1 && forall|k: int|
                        0 <= k < n - 1 ==> r[k] == items[k]
                } else {
                    list_apply(items, a) is None
                },
                ListActionV::DeleteAll => list_apply(items, a) matches Some(r) && r.len() == 0,
                ListActionV::DeleteAt(i) => if i < n {
                    list_apply(items, a) matches Some(r) && r.len() == n - 1 && (forall|k: int|
                        0 <= k < i ==> r[k] == items[k]) && forall|k: int|
                        i <= k < n - 1 ==> r[k] == items[k + 1]
                } else {
                    list_apply(items, a) is None
                },
                ListActionV::ReplaceLast(v) => if n > 0 {
                    list_apply(items, a) matches Some(r) && r.len() == n && r[n - 1] == v && forall|k: int|
                        0 <= k < n - 1 ==> r[k] == items[k]
                } else {
                    list_apply(items, a) is None
                },
                ListActionV::ReplaceAt(i, v) => if i < n {
                    list_apply(items, a) matches Some(r) && r.len() == n && r[i as int] == v && forall|k: int|
                        0 <= k < n && k != i ==> r[k] == items[k]
                } else {
                    list_apply(items, a) is None
                },
            }
        }),
{
}

} // verus!
