//! The second cloud client: variables and lists held as JSON values,
//! updated from the server's messages and by local operations that are
//! queued and uploaded in batches.

use vstd::prelude::*;
use vstd::string::StringSliceAdditionalSpecFns;

use crate::cloud::{wire2, wire3, wire_three, wire_two, ChangeSource, VarKind};
use crate::json::{
    jarr, jget, jnum, jobj, jstr, juint, lemma_view_entries, lemma_view_items, view_entries,
    view_items, Json, JsonV,
};
use crate::search::{first_index, lemma_first_index, lemma_first_index_at, lemma_first_index_none};
use crate::text::{has_prefix, own, parse_u64, parse_u64_spec, push_str, push_u64, starts_with, str_eq, suffix_from};

verus! {

/// Errors of the second cloud client.
#[derive(Debug, Clone, PartialEq, Eq)]
pub enum CloudError {
    Json(String),
    WebSocket(String),
    Timeout,
    InvalidVariableType,
    InvalidListItemType,
    UnsupportedWorkType,
    NotConnected,
    Other(String),
}

/// The editor of a work.
#[derive(Debug, Clone, Copy, PartialEq, Eq, Structural)]
pub enum EditorType {
    NEMO,
    KITTEN,
    NEKO,
    COCO,
}

pub open spec fn as_param_spec(e: EditorType) -> (Seq<char>, Seq<char>) {
    match e {
        EditorType::NEMO => (seq!['5'], seq!['2']),
        EditorType::KITTEN => (seq!['1'], seq!['1']),
        EditorType::NEKO => (seq!['5'], seq!['3']),
        EditorType::COCO => (seq!['1'], seq!['1']),
    }
}

impl EditorType {
    /// `(authorization_type, stag)` for the connection address.
    pub fn as_param(&self) -> (r: (&'static str, &'static str))
        ensures
            r.0@ == as_param_spec(*self).0,
            r.1@ == as_param_spec(*self).1,
    {
        proof {
            reveal_strlit("5");
            reveal_strlit("2");
            reveal_strlit("1");
            reveal_strlit("3");
        }
        match self {
            EditorType::NEMO => ("5", "2"),
            EditorType::KITTEN => ("1", "1"),
            EditorType::NEKO => ("5", "3"),
            EditorType::COCO => ("1", "1"),
        }
    }
}

/// The kind of a data item: 0, 1 or 2 on the wire.
#[derive(Debug, Clone, Copy, PartialEq, Eq, Structural)]
pub enum DataType {
    PrivateVariable,
    PublicVariable,
    List,
}

impl DataType {
    /// The kind that a wire number denotes.
    pub fn try_from_i64(v: i64) -> (r: Result<DataType, CloudError>)
        ensures
            v == 0 ==> r == Ok::<DataType, CloudError>(DataType::PrivateVariable),
            v == 1 ==> r == Ok::<DataType, CloudError>(DataType::PublicVariable),
            v == 2 ==> r == Ok::<DataType, CloudError>(DataType::List),
            !(0 <= v <= 2) ==> r == Err::<DataType, CloudError>(CloudError::InvalidVariableType),
    {
        if v == 0 {
            Ok(DataType::PrivateVariable)
        } else if v == 1 {
            Ok(DataType::PublicVariable)
        } else if v == 2 {
            Ok(DataType::List)
        } else {
            Err(CloudError::InvalidVariableType)
        }
    }
}

/// The kind of a message sent to the server.
#[derive(Debug, Clone, Copy, PartialEq, Eq, Structural)]
pub enum SendMessageType {
    Join,
    GetAllData,
    UpdatePrivateVariable,
    GetPrivateVariableRankingList,
    UpdatePublicVariable,
    UpdateList,
}

pub open spec fn send_type_name(t: SendMessageType) -> Seq<char> {
    match t {
        SendMessageType::Join => "join"@,
        SendMessageType::GetAllData => "list_variables"@,
        SendMessageType::UpdatePrivateVariable => "update_private_vars"@,
        SendMessageType::GetPrivateVariableRankingList => "list_ranking"@,
        SendMessageType::UpdatePublicVariable => "update_vars"@,
        SendMessageType::UpdateList => "update_lists"@,
    }
}

impl SendMessageType {
    /// The message's name on the wire.
    pub fn as_str(&self) -> (r: &'static str)
        ensures
            r@ == send_type_name(*self),
    {
        match self {
            SendMessageType::Join => "join",
            SendMessageType::GetAllData => "list_variables",
            SendMessageType::UpdatePrivateVariable => "update_private_vars",
            SendMessageType::GetPrivateVariableRankingList => "list_ranking",
            SendMessageType::UpdatePublicVariable => "update_vars",
            SendMessageType::UpdateList => "update_lists",
        }
    }
}

/// The kind of a message from the server.
#[derive(Debug, Clone, PartialEq, Eq)]
pub enum ReceiveMessageType {
    Join,
    ReceiveAllData,
    UpdatePrivateVariable,
    ReceivePrivateVariableRankingList,
    UpdatePublicVariable,
    UpdateList,
    IllegalEvent,
    OnlineUsersChange,
    Unknown(String),
}

/// The model of a [`ReceiveMessageType`].
pub enum ReceiveMessageTypeV {
    Join,
    ReceiveAllData,
    UpdatePrivateVariable,
    ReceivePrivateVariableRankingList,
    UpdatePublicVariable,
    UpdateList,
    IllegalEvent,
    OnlineUsersChange,
    Unknown(Seq<char>),
}

pub open spec fn receive_type_spec(s: Seq<char>) -> ReceiveMessageTypeV {
    if s == "connect_done"@ {
        ReceiveMessageTypeV::Join
    } else if s == "list_variables_done"@ {
        ReceiveMessageTypeV::ReceiveAllData
    } else if s == "update_private_vars_done"@ {
        ReceiveMessageTypeV::UpdatePrivateVariable
    } else if s == "list_ranking_done"@ {
        ReceiveMessageTypeV::ReceivePrivateVariableRankingList
    } else if s == "update_vars_done"@ {
        ReceiveMessageTypeV::UpdatePublicVariable
    } else if s == "update_lists_done"@ {
        ReceiveMessageTypeV::UpdateList
    } else if s == "illegal_event_done"@ {
        ReceiveMessageTypeV::IllegalEvent
    } else if s == "online_users_change"@ {
        ReceiveMessageTypeV::OnlineUsersChange
    } else {
        ReceiveMessageTypeV::Unknown(s)
    }
}

impl View for ReceiveMessageType {
    type V = ReceiveMessageTypeV;

    open spec fn view(&self) -> ReceiveMessageTypeV {
        match self {
            ReceiveMessageType::Join => ReceiveMessageTypeV::Join,
            ReceiveMessageType::ReceiveAllData => ReceiveMessageTypeV::ReceiveAllData,
            ReceiveMessageType::UpdatePrivateVariable => ReceiveMessageTypeV::UpdatePrivateVariable,
            ReceiveMessageType::ReceivePrivateVariableRankingList => {
                ReceiveMessageTypeV::ReceivePrivateVariableRankingList
            },
            ReceiveMessageType::UpdatePublicVariable => ReceiveMessageTypeV::UpdatePublicVariable,
            ReceiveMessageType::UpdateList => ReceiveMessageTypeV::UpdateList,
            ReceiveMessageType::IllegalEvent => ReceiveMessageTypeV::IllegalEvent,
            ReceiveMessageType::OnlineUsersChange => ReceiveMessageTypeV::OnlineUsersChange,
            ReceiveMessageType::Unknown(s) => ReceiveMessageTypeV::Unknown(s@),
        }
    }
}

impl ReceiveMessageType {
    /// The kind of a message by its name.
    pub fn from_name(s: &str) -> (r: ReceiveMessageType)
        ensures
            r@ == receive_type_spec(s@),
    {
        if str_eq(s, "connect_done") {
            ReceiveMessageType::Join
        } else if str_eq(s, "list_variables_done") {
            ReceiveMessageType::ReceiveAllData
        } else if str_eq(s, "update_private_vars_done") {
            ReceiveMessageType::UpdatePrivateVariable
        } else if str_eq(s, "list_ranking_done") {
            ReceiveMessageType::ReceivePrivateVariableRankingList
        } else if str_eq(s, "update_vars_done") {
            ReceiveMessageType::UpdatePublicVariable
        } else if str_eq(s, "update_lists_done") {
            ReceiveMessageType::UpdateList
        } else if str_eq(s, "illegal_event_done") {
            ReceiveMessageType::IllegalEvent
        } else if str_eq(s, "online_users_change") {
            ReceiveMessageType::OnlineUsersChange
        } else {
            ReceiveMessageType::Unknown(own(s))
        }
    }
}

/// Whether a value can be stored in a variable or list: a number or a string.
pub open spec fn is_scalar(v: JsonV) -> bool {
    v is Number || v is Str
}

/// An operation on a list.
#[derive(Debug, PartialEq)]
pub enum OpsListOp {
    Push(Json),
    Pop,
    Unshift(Json),
    Shift,
    Insert(usize, Json),
    Remove(usize),
    Replace(usize, Json),
    ReplaceLast(Json),
    Clear,
}

/// The model of an [`OpsListOp`].
pub enum OpsListOpV {
    Push(JsonV),
    Pop,
    Unshift(JsonV),
    Shift,
    Insert(usize, JsonV),
    Remove(usize),
    Replace(usize, JsonV),
    ReplaceLast(JsonV),
    Clear,
}

impl View for OpsListOp {
    type V = OpsListOpV;

    open spec fn view(&self) -> OpsListOpV {
        match self {
            OpsListOp::Push(v) => OpsListOpV::Push(v@),
            OpsListOp::Pop => OpsListOpV::Pop,
            OpsListOp::Unshift(v) => OpsListOpV::Unshift(v@),
            OpsListOp::Shift => OpsListOpV::Shift,
            OpsListOp::Insert(i, v) => OpsListOpV::Insert(*i, v@),
            OpsListOp::Remove(i) => OpsListOpV::Remove(*i),
            OpsListOp::Replace(i, v) => OpsListOpV::Replace(*i, v@),
            OpsListOp::ReplaceLast(v) => OpsListOpV::ReplaceLast(v@),
            OpsListOp::Clear => OpsListOpV::Clear,
        }
    }
}

/// What a list operation did.
pub enum OpsResultV {
    /// The value or position does not fit; the list is unchanged.
    Rejected,
    /// Done: the item removed, if any, and the event for the operation's
    /// callbacks, if any.
    Done { removed: Option<JsonV>, event: Option<(Seq<char>, Seq<JsonV>)> },
}

/// A list operation: the items after it and what it did. Values that are
/// neither numbers nor strings, and positions outside the list, are
/// rejected; deleting from an empty list or outside it does nothing.
pub open spec fn ops_list_spec(items: Seq<JsonV>, op: OpsListOpV) -> (Seq<JsonV>, OpsResultV) {
    let n = items.len();
    match op {
        OpsListOpV::Push(v) => if !is_scalar(v) {
            (items, OpsResultV::Rejected)
        } else {
            (
                items.push(v),
                OpsResultV::Done { removed: None, event: Some(("push"@, seq![v, jnum(n as int)])) },
            )
        },
        OpsListOpV::Pop => if n == 0 {
            (items, OpsResultV::Done { removed: None, event: None })
        } else {
            (
                items.drop_last(),
                OpsResultV::Done {
                    removed: Some(items.last()),
                    event: Some(("pop"@, seq![items.last(), jnum(n - 1)])),
                },
            )
        },
        OpsListOpV::Unshift(v) => if !is_scalar(v) {
            (items, OpsResultV::Rejected)
        } else {
            (
                seq![v] + items,
                OpsResultV::Done { removed: None, event: Some(("unshift"@, seq![v, jnum(0)])) },
            )
        },
        OpsListOpV::Shift => if n == 0 {
            (items, OpsResultV::Done { removed: None, event: None })
        } else {
            (
                items.skip(1),
                OpsResultV::Done {
                    removed: Some(items[0]),
                    event: Some(("shift"@, seq![items[0], jnum(0)])),
                },
            )
        },
        OpsListOpV::Insert(i, v) => if !is_scalar(v) || i > n {
            (items, OpsResultV::Rejected)
        } else {
            (
                items.insert(i as int, v),
                OpsResultV::Done { removed: None, event: Some(("insert"@, seq![v, jnum(i as int)])) },
            )
        },
        OpsListOpV::Remove(i) => if i >= n {
            (items, OpsResultV::Done { removed: None, event: None })
        } else {
            (
                items.remove(i as int),
                OpsResultV::Done {
                    removed: Some(items[i as int]),
                    event: Some(("remove"@, seq![items[i as int], jnum(i as int)])),
                },
            )
        },
        OpsListOpV::Replace(i, v) => if !is_scalar(v) || i >= n {
            (items, OpsResultV::Rejected)
        } else {
            (
                items.update(i as int, v),
                OpsResultV::Done {
                    removed: None,
                    event: Some(("replace"@, seq![items[i as int], v, jnum(i as int)])),
                },
            )
        },
        OpsListOpV::ReplaceLast(v) => if !is_scalar(v) || n == 0 {
            (items, OpsResultV::Rejected)
        } else {
            (
                items.update(n - 1, v),
                OpsResultV::Done {
                    removed: None,
                    event: Some(("replace_last"@, seq![items.last(), v])),
                },
            )
        },
        OpsListOpV::Clear => (
            Seq::empty(),
            OpsResultV::Done {
                removed: None,
                event: Some(("clear"@, seq![JsonV::Array(items)])),
            },
        ),
    }
}

/// What a list operation did.
#[derive(Debug, PartialEq)]
pub enum OpsResult {
    Rejected,
    Done { removed: Option<Json>, event: Option<(String, Vec<Json>)> },
}

pub open spec fn ops_result_v(r: OpsResult) -> OpsResultV {
    match r {
        OpsResult::Rejected => OpsResultV::Rejected,
        OpsResult::Done { removed, event } => OpsResultV::Done {
            removed: match removed {
                Some(x) => Some(x@),
                None => None,
            },
            event: match event {
                Some(e) => Some((e.0@, view_items(e.1@))),
                None => None,
            },
        },
    }
}

fn scalar(v: &Json) -> (r: bool)
    ensures
        r == is_scalar(v@),
{
    v.is_number() || v.is_string()
}

fn event2(name: &str, a: Json, b: Json) -> (r: Option<(String, Vec<Json>)>)
    ensures
        r is Some,
        r->Some_0.0@ == name@,
        view_items(r->Some_0.1@) == seq![a@, b@],
{
    let ghost av = a@;
    let ghost bv = b@;
    let v = vec![a, b];
    proof {
        lemma_view_items(v@);
    }
    assert(view_items(v@) =~= seq![av, bv]);
    Some((own(name), v))
}

/// Applies a list operation to `items`.
pub fn apply_list_op(items: &mut Vec<Json>, op: &OpsListOp) -> (r: OpsResult)
    ensures
        (view_items(final(items)@), ops_result_v(r)) == ops_list_spec(view_items(old(items)@), op@),
{
    let ghost before = view_items(items@);
    proof {
        lemma_view_items(items@);
    }
    match op {
        OpsListOp::Push(v) => {
            if !scalar(v) {
                return OpsResult::Rejected;
            }
            let n = items.len();
            items.push(v.deep_clone());
            proof {
                crate::json::lemma_view_items_push(old(items)@, items@.last());
                assert(items@ == old(items)@.push(items@.last()));
            }
            OpsResult::Done { removed: None, event: event2("push", v.deep_clone(), Json::from_u64(n as u64)) }
        },
        OpsListOp::Pop => {
            if items.len() == 0 {
                return OpsResult::Done { removed: None, event: None };
            }
            let last = items.pop().unwrap();
            let n = items.len();
            proof {
                assert(old(items)@ == items@.push(last));
                crate::json::lemma_view_items_push(items@, last);
            }
            let copy = last.deep_clone();
            OpsResult::Done { removed: Some(last), event: event2("pop", copy, Json::from_u64(n as u64)) }
        },
        OpsListOp::Unshift(v) => {
            if !scalar(v) {
                return OpsResult::Rejected;
            }
            items.insert(0, v.deep_clone());
            proof {
                lemma_view_items(items@);
                assert(view_items(items@) =~= seq![v@] + before);
            }
            OpsResult::Done { removed: None, event: event2("unshift", v.deep_clone(), Json::from_u64(0)) }
        },
        OpsListOp::Shift => {
            if items.len() == 0 {
                return OpsResult::Done { removed: None, event: None };
            }
            let first = items.remove(0);
            proof {
                lemma_view_items(items@);
                assert(view_items(items@) =~= before.skip(1));
            }
            let copy = first.deep_clone();
            OpsResult::Done { removed: Some(first), event: event2("shift", copy, Json::from_u64(0)) }
        },
        OpsListOp::Insert(i, v) => {
            if !scalar(v) || *i > items.len() {
                return OpsResult::Rejected;
            }
            items.insert(*i, v.deep_clone());
            proof {
                lemma_view_items(items@);
                assert(view_items(items@) =~= before.insert(*i as int, v@));
            }
            OpsResult::Done { removed: None, event: event2("insert", v.deep_clone(), Json::from_u64(*i as u64)) }
        },
        OpsListOp::Remove(i) => {
            if *i >= items.len() {
                return OpsResult::Done { removed: None, event: None };
            }
            let item = items.remove(*i);
            proof {
                lemma_view_items(items@);
                assert(view_items(items@) =~= before.remove(*i as int));
            }
            let copy = item.deep_clone();
            OpsResult::Done { removed: Some(item), event: event2("remove", copy, Json::from_u64(*i as u64)) }
        },
        OpsListOp::Replace(i, v) => {
            if !scalar(v) || *i >= items.len() {
                return OpsResult::Rejected;
            }
            let old_item = items.remove(*i);
            items.insert(*i, v.deep_clone());
            proof {
                lemma_view_items(items@);
                assert(view_items(items@) =~= before.update(*i as int, v@));
            }
            let ev = vec![old_item, v.deep_clone(), Json::from_u64(*i as u64)];
            proof {
                lemma_view_items(ev@);
            }
            assert(view_items(ev@) =~= seq![before[*i as int], v@, jnum(*i as int)]);
            OpsResult::Done { removed: None, event: Some((own("replace"), ev)) }
        },
        OpsListOp::ReplaceLast(v) => {
            if !scalar(v) || items.len() == 0 {
                return OpsResult::Rejected;
            }
            let last = items.len() - 1;
            let old_item = items.remove(last);
            items.insert(last, v.deep_clone());
            proof {
                lemma_view_items(items@);
                assert(view_items(items@) =~= before.update(last as int, v@));
            }
            OpsResult::Done { removed: None, event: event2("replace_last", old_item, v.deep_clone()) }
        },
        OpsListOp::Clear => {
            let mut old_items: Vec<Json> = Vec::new();
            std::mem::swap(&mut old_items, items);
            assert(view_items(items@) =~= Seq::<JsonV>::empty());
            let ev = vec![Json::Array(old_items)];
            proof {
                lemma_view_items(ev@);
            }
            assert(view_items(ev@) =~= seq![JsonV::Array(before)]);
            OpsResult::Done { removed: None, event: Some((own("clear"), ev)) }
        },
    }
}

/// The protocol form of a local list operation; positions count from 1.
pub open spec fn ops_wire_spec(op: OpsListOpV) -> JsonV {
    match op {
        OpsListOpV::Push(v) => wire2("append"@, "value"@, v),
        OpsListOpV::Pop => wire2("delete"@, "nth"@, JsonV::Str("last"@)),
        OpsListOpV::Unshift(v) => wire2("unshift"@, "value"@, v),
        OpsListOpV::Shift => wire2("delete"@, "nth"@, jnum(1)),
        OpsListOpV::Insert(i, v) => wire3("insert"@, jnum(i + 1), v),
        OpsListOpV::Remove(i) => wire2("delete"@, "nth"@, jnum(i + 1)),
        OpsListOpV::Replace(i, v) => wire3("replace"@, jnum(i + 1), v),
        OpsListOpV::ReplaceLast(v) => wire3("replace"@, JsonV::Str("last"@), v),
        OpsListOpV::Clear => wire2("delete"@, "nth"@, JsonV::Str("all"@)),
    }
}

fn ops_wire(op: &OpsListOp) -> (r: Json)
    requires
        match op@ {
            OpsListOpV::Insert(i, _) | OpsListOpV::Remove(i) | OpsListOpV::Replace(i, _) => i
                < usize::MAX,
            _ => true,
        },
    ensures
        r@ == ops_wire_spec(op@),
{
    match op {
        OpsListOp::Push(v) => wire_two("append", "value", v.deep_clone()),
        OpsListOp::Pop => wire_two("delete", "nth", Json::from_str("last")),
        OpsListOp::Unshift(v) => wire_two("unshift", "value", v.deep_clone()),
        OpsListOp::Shift => wire_two("delete", "nth", Json::from_u64(1)),
        OpsListOp::Insert(i, v) => wire_three("insert", Json::from_u64((*i + 1) as u64), v.deep_clone()),
        OpsListOp::Remove(i) => wire_two("delete", "nth", Json::from_u64((*i + 1) as u64)),
        OpsListOp::Replace(i, v) => wire_three(
            "replace",
            Json::from_u64((*i + 1) as u64),
            v.deep_clone(),
        ),
        OpsListOp::ReplaceLast(v) => wire_three("replace", Json::from_str("last"), v.deep_clone()),
        OpsListOp::Clear => wire_two("delete", "nth", Json::from_str("all")),
    }
}

/// The list operation that a protocol operation from the server asks for;
/// positions count from 1 and 0 reads as the first position.
pub open spec fn ops_parse_spec(op: JsonV) -> Option<OpsListOpV> {
    match jstr(jget(op, "action"@)) {
        None => None,
        Some(a) => if a == "append"@ {
            match jget(op, "value"@) {
                Some(v) => Some(OpsListOpV::Push(v)),
                None => None,
            }
        } else if a == "unshift"@ {
            match jget(op, "value"@) {
                Some(v) => Some(OpsListOpV::Unshift(v)),
                None => None,
            }
        } else if a == "insert"@ {
            match (juint(jget(op, "nth"@)), jget(op, "value"@)) {
                (Some(n), Some(v)) => Some(OpsListOpV::Insert(sat_index(n), v)),
                _ => None,
            }
        } else if a == "delete"@ {
            match jget(op, "nth"@) {
                Some(JsonV::Str(s)) => if s == "last"@ {
                    Some(OpsListOpV::Pop)
                } else if s == "all"@ {
                    Some(OpsListOpV::Clear)
                } else {
                    None
                },
                Some(JsonV::Number(t)) => match juint(Some(JsonV::Number(t))) {
                    Some(n) => Some(OpsListOpV::Remove(sat_index(n))),
                    None => None,
                },
                _ => None,
            }
        } else if a == "replace"@ {
            match (jget(op, "nth"@), jget(op, "value"@)) {
                (Some(JsonV::Str(s)), Some(v)) => if s == "last"@ {
                    Some(OpsListOpV::ReplaceLast(v))
                } else {
                    None
                },
                (Some(JsonV::Number(t)), Some(v)) => match juint(Some(JsonV::Number(t))) {
                    Some(n) => Some(OpsListOpV::Replace(sat_index(n), v)),
                    None => None,
                },
                _ => None,
            }
        } else {
            None
        },
    }
}

/// `(n as usize).saturating_sub(1)`.
pub open spec fn sat_index(n: u64) -> usize {
    let u = n as usize;
    if u >= 1 {
        (u - 1) as usize
    } else {
        0
    }
}

fn to_index(n: u64) -> (r: usize)
    ensures
        r == sat_index(n),
{
    let u = n as usize;
    if u >= 1 {
        u - 1
    } else {
        0
    }
}

/// Reads a list operation sent by the server.
pub fn ops_parse(op: &Json) -> (r: Option<OpsListOp>)
    ensures
        match r {
            Some(o) => ops_parse_spec(op@) == Some(o@),
            None => ops_parse_spec(op@).is_none(),
        },
{
    let a = match op.get("action") {
        Some(x) => match x.as_str() {
            Some(s) => s,
            None => return None,
        },
        None => return None,
    };
    if str_eq(a, "append") {
        match op.get("value") {
            Some(v) => Some(OpsListOp::Push(v.deep_clone())),
            None => None,
        }
    } else if str_eq(a, "unshift") {
        match op.get("value") {
            Some(v) => Some(OpsListOp::Unshift(v.deep_clone())),
            None => None,
        }
    } else if str_eq(a, "insert") {
        let n = match op.get("nth") {
            Some(x) => x.as_u64(),
            None => None,
        };
        match (n, op.get("value")) {
            (Some(n), Some(v)) => Some(OpsListOp::Insert(to_index(n), v.deep_clone())),
            _ => None,
        }
    } else if str_eq(a, "delete") {
        match op.get("nth") {
            Some(Json::Str(s)) => {
                if str_eq(s.as_str(), "last") {
                    Some(OpsListOp::Pop)
                } else if str_eq(s.as_str(), "all") {
                    Some(OpsListOp::Clear)
                } else {
                    None
                }
            },
            Some(x) => {
                if x.is_number() {
                    match x.as_u64() {
                        Some(n) => Some(OpsListOp::Remove(to_index(n))),
                        None => None,
                    }
                } else {
                    None
                }
            },
            None => None,
        }
    } else if str_eq(a, "replace") {
        match (op.get("nth"), op.get("value")) {
            (Some(Json::Str(s)), Some(v)) => {
                if str_eq(s.as_str(), "last") {
                    Some(OpsListOp::ReplaceLast(v.deep_clone()))
                } else {
                    None
                }
            },
            (Some(x), Some(v)) => {
                if x.is_number() {
                    match x.as_u64() {
                        Some(n) => Some(OpsListOp::Replace(to_index(n), v.deep_clone())),
                        None => None,
                    }
                } else {
                    None
                }
            },
            _ => None,
        }
    } else {
        None
    }
}


/// One variable: cvid, name and value.
#[derive(Debug, PartialEq)]
pub struct OpsVariable {
    pub cvid: String,
    pub name: String,
    pub value: Json,
}

/// One list: cvid, name and items.
#[derive(Debug, PartialEq)]
pub struct OpsList {
    pub cvid: String,
    pub name: String,
    pub items: Vec<Json>,
}

pub struct OpsVarV {
    pub cvid: Seq<char>,
    pub name: Seq<char>,
    pub value: JsonV,
}

pub struct OpsListV {
    pub cvid: Seq<char>,
    pub name: Seq<char>,
    pub items: Seq<JsonV>,
}

pub open spec fn ops_vars_v(s: Seq<OpsVariable>) -> Seq<OpsVarV> {
    s.map_values(|v: OpsVariable| OpsVarV { cvid: v.cvid@, name: v.name@, value: v.value@ })
}

pub open spec fn ops_lists_v(s: Seq<OpsList>) -> Seq<OpsListV> {
    s.map_values(|l: OpsList| OpsListV { cvid: l.cvid@, name: l.name@, items: view_items(l.items@) })
}

pub open spec fn ovar_named(n: Seq<char>) -> spec_fn(OpsVarV) -> bool {
    |v: OpsVarV| v.name == n
}

pub open spec fn ovar_cvid(c: Seq<char>) -> spec_fn(OpsVarV) -> bool {
    |v: OpsVarV| v.cvid == c
}

pub open spec fn olist_named(n: Seq<char>) -> spec_fn(OpsListV) -> bool {
    |l: OpsListV| l.name == n
}

/// A queued upload.
#[derive(Debug, PartialEq)]
pub enum OpsCommand {
    VariableUpdate { cmd_type: String, data: Json },
    ListUpdate { cvid: String, operations: Vec<Json> },
}

pub enum OpsCommandV {
    VariableUpdate { cmd_type: Seq<char>, data: JsonV },
    ListUpdate { cvid: Seq<char>, operations: Seq<JsonV> },
}

pub open spec fn ops_commands_v(s: Seq<OpsCommand>) -> Seq<OpsCommandV> {
    s.map_values(
        |c: OpsCommand|
            match c {
                OpsCommand::VariableUpdate { cmd_type, data } => OpsCommandV::VariableUpdate {
                    cmd_type: cmd_type@,
                    data: data@,
                },
                OpsCommand::ListUpdate { cvid, operations } => OpsCommandV::ListUpdate {
                    cvid: cvid@,
                    operations: view_items(operations@),
                },
            },
    )
}

/// Something the connection's owner does after a step.
#[derive(Debug, PartialEq)]
pub enum OpsEffect {
    /// Run the change callbacks of a variable.
    VariableChanged { kind: VarKind, name: String, old: Json, new: Json, source: ChangeSource },
    /// Run the callbacks of operation `op` on the list `name`.
    ListOperation { name: String, op: String, args: Vec<Json> },
    /// Run the ranking callbacks of the private variable `name`.
    Ranking { name: String, items: Vec<Json> },
    /// Wake those waiting for the data.
    DataReady,
}

pub enum OpsEffectV {
    VariableChanged {
        kind: VarKind,
        name: Seq<char>,
        old: JsonV,
        new: JsonV,
        source: ChangeSource,
    },
    ListOperation { name: Seq<char>, op: Seq<char>, args: Seq<JsonV> },
    Ranking { name: Seq<char>, items: Seq<JsonV> },
    DataReady,
}

pub open spec fn ops_effects_v(s: Seq<OpsEffect>) -> Seq<OpsEffectV> {
    s.map_values(
        |e: OpsEffect|
            match e {
                OpsEffect::VariableChanged { kind, name, old, new, source } => {
                    OpsEffectV::VariableChanged { kind, name: name@, old: old@, new: new@, source }
                },
                OpsEffect::ListOperation { name, op, args } => OpsEffectV::ListOperation {
                    name: name@,
                    op: op@,
                    args: view_items(args@),
                },
                OpsEffect::Ranking { name, items } => OpsEffectV::Ranking {
                    name: name@,
                    items: view_items(items@),
                },
                OpsEffect::DataReady => OpsEffectV::DataReady,
            },
    )
}

/// The state of the second cloud client.
pub struct OpsState {
    pub work_id: u64,
    pub data_ready: bool,
    pub shutdown: bool,
    pub online_users: u32,
    pub private_variables: Vec<OpsVariable>,
    pub public_variables: Vec<OpsVariable>,
    pub lists: Vec<OpsList>,
    pub pending_ranking_requests: Vec<String>,
    pub command_queue: Vec<OpsCommand>,
}

pub struct OpsStateV {
    pub work_id: u64,
    pub data_ready: bool,
    pub shutdown: bool,
    pub online_users: u32,
    pub private_variables: Seq<OpsVarV>,
    pub public_variables: Seq<OpsVarV>,
    pub lists: Seq<OpsListV>,
    pub pending: Seq<Seq<char>>,
    pub commands: Seq<OpsCommandV>,
}

impl View for OpsState {
    type V = OpsStateV;

    open spec fn view(&self) -> OpsStateV {
        OpsStateV {
            work_id: self.work_id,
            data_ready: self.data_ready,
            shutdown: self.shutdown,
            online_users: self.online_users,
            private_variables: ops_vars_v(self.private_variables@),
            public_variables: ops_vars_v(self.public_variables@),
            lists: ops_lists_v(self.lists@),
            pending: self.pending_ranking_requests@.map_values(|s: String| s@),
            commands: ops_commands_v(self.command_queue@),
        }
    }
}

/// How a text frame from the server is sorted.
#[derive(Debug, Clone, PartialEq, Eq)]
pub enum OpsFrame {
    /// Pings, pongs, the handshake and unknown frames: nothing to do.
    Ignore,
    /// The server asks to close (`41`).
    Shutdown,
    /// An event (`42`); the text after the prefix.
    Event(String),
}

pub open spec fn ops_frame_spec(t: Seq<char>) -> Option<Seq<char>> {
    if t == seq!['2'] || t == seq!['3'] || has_prefix(t, seq!['0']) || has_prefix(t, seq!['4', '1']) {
        None
    } else if has_prefix(t, seq!['4', '2']) {
        Some(t.skip(2))
    } else {
        None
    }
}

/// Sorts a text frame.
pub fn classify_ops_frame(text: &str) -> (r: OpsFrame)
    ensures
        r is Shutdown <==> (!(text@ == seq!['2'] || text@ == seq!['3'] || has_prefix(
            text@,
            seq!['0'],
        )) && has_prefix(text@, seq!['4', '1'])),
        r is Event <==> ops_frame_spec(text@) is Some,
        r is Event ==> r->Event_0@ == ops_frame_spec(text@)->Some_0,
{
    proof {
        reveal_strlit("2");
        reveal_strlit("3");
        reveal_strlit("0");
        reveal_strlit("41");
        reveal_strlit("42");
        assert("2"@ =~= seq!['2']);
        assert("3"@ =~= seq!['3']);
        assert("0"@ =~= seq!['0']);
        assert("41"@ =~= seq!['4', '1']);
        assert("42"@ =~= seq!['4', '2']);
    }
    if str_eq(text, "2") || str_eq(text, "3") {
        return OpsFrame::Ignore;
    }
    if starts_with(text, "0") {
        OpsFrame::Ignore
    } else if starts_with(text, "41") {
        OpsFrame::Shutdown
    } else if starts_with(text, "42") {
        OpsFrame::Event(suffix_from(text, 2))
    } else {
        OpsFrame::Ignore
    }
}

/// Creates (or replaces, by name) a variable.
pub open spec fn ops_put_var(vs: Seq<OpsVarV>, v: OpsVarV) -> Seq<OpsVarV> {
    match first_index(vs, ovar_named(v.name)) {
        Some(i) => vs.update(i, v),
        None => vs.push(v),
    }
}

pub open spec fn ops_put_list(ls: Seq<OpsListV>, l: OpsListV) -> Seq<OpsListV> {
    match first_index(ls, olist_named(l.name)) {
        Some(i) => ls.update(i, l),
        None => ls.push(l),
    }
}

/// One item of the full data: objects only; a missing cvid or name reads as
/// empty, a missing value as null, and a type other than 0, 1 or 2 creates
/// nothing.
pub open spec fn ops_all_data_item(st: OpsStateV, item: JsonV) -> OpsStateV {
    match item {
        JsonV::Object(_) => {
            let cvid = match jstr(jget(item, "cvid"@)) {
                Some(s) => s,
                None => Seq::empty(),
            };
            let name = match jstr(jget(item, "name"@)) {
                Some(s) => s,
                None => Seq::empty(),
            };
            let value = match jget(item, "value"@) {
                Some(v) => v,
                None => JsonV::Null,
            };
            let t = match crate::json::jint(jget(item, "type"@)) {
                Some(t) => t,
                None => -1i64,
            };
            if t == 0 {
                OpsStateV {
                    private_variables: ops_put_var(
                        st.private_variables,
                        OpsVarV { cvid, name, value },
                    ),
                    ..st
                }
            } else if t == 1 {
                OpsStateV {
                    public_variables: ops_put_var(st.public_variables, OpsVarV { cvid, name, value }),
                    ..st
                }
            } else if t == 2 {
                OpsStateV {
                    lists: ops_put_list(
                        st.lists,
                        OpsListV {
                            cvid,
                            name,
                            items: match jarr(Some(value)) {
                                Some(a) => a,
                                None => Seq::empty(),
                            },
                        },
                    ),
                    ..st
                }
            } else {
                st
            }
        },
        _ => st,
    }
}

pub open spec fn ops_all_data(st: OpsStateV, items: Seq<JsonV>) -> OpsStateV
    decreases items.len(),
{
    if items.len() == 0 {
        st
    } else {
        ops_all_data_item(ops_all_data(st, items.drop_last()), items.last())
    }
}

pub open spec fn vars_of_kind(st: OpsStateV, kind: VarKind) -> Seq<OpsVarV> {
    match kind {
        VarKind::Private => st.private_variables,
        VarKind::Public => st.public_variables,
    }
}

pub open spec fn with_vars_of_kind(st: OpsStateV, kind: VarKind, vs: Seq<OpsVarV>) -> OpsStateV {
    match kind {
        VarKind::Private => OpsStateV { private_variables: vs, ..st },
        VarKind::Public => OpsStateV { public_variables: vs, ..st },
    }
}

/// A pushed variable update `{cvid, value}`: the first variable with that
/// cvid takes the value.
pub open spec fn ops_var_update(st: OpsStateV, kind: VarKind, item: JsonV) -> (
    OpsStateV,
    Seq<OpsEffectV>,
) {
    match (item, jstr(jget(item, "cvid"@)), jget(item, "value"@)) {
        (JsonV::Object(_), Some(cvid), Some(value)) => {
            let vs = vars_of_kind(st, kind);
            match first_index(vs, ovar_cvid(cvid)) {
                Some(i) => (
                    with_vars_of_kind(st, kind, vs.update(i, OpsVarV { value, ..vs[i] })),
                    seq![
                        OpsEffectV::VariableChanged {
                            kind,
                            name: vs[i].name,
                            old: vs[i].value,
                            new: value,
                            source: ChangeSource::Cloud,
                        },
                    ],
                ),
                None => (st, Seq::empty()),
            }
        },
        _ => (st, Seq::empty()),
    }
}

pub open spec fn ops_var_updates(st: OpsStateV, items: Seq<JsonV>) -> (OpsStateV, Seq<OpsEffectV>)
    decreases items.len(),
{
    if items.len() == 0 {
        (st, Seq::empty())
    } else {
        let (s1, e1) = ops_var_updates(st, items.drop_last());
        let (s2, e2) = ops_var_update(s1, VarKind::Public, items.last());
        (s2, e1 + e2)
    }
}

/// A ranking entry as handed to the callbacks.
pub open spec fn ops_ranking_entry(item: JsonV) -> JsonV {
    JsonV::Object(
        seq![
            (
                "user"@,
                JsonV::Object(
                    seq![
                        (
                            "avatar_url"@,
                            JsonV::Str(
                                match jstr(jget(item, "avatar_url"@)) {
                                    Some(s) => s,
                                    None => Seq::empty(),
                                },
                            ),
                        ),
                        (
                            "id"@,
                            jnum(
                                match jstr(jget(item, "identifier"@)) {
                                    Some(s) => match parse_u64_spec(s) {
                                        Some(n) => n as int,
                                        None => 0,
                                    },
                                    None => 0,
                                },
                            ),
                        ),
                        (
                            "nickname"@,
                            JsonV::Str(
                                match jstr(jget(item, "nickname"@)) {
                                    Some(s) => s,
                                    None => Seq::empty(),
                                },
                            ),
                        ),
                    ],
                ),
            ),
            (
                "value"@,
                match jget(item, "value"@) {
                    Some(v) => v,
                    None => JsonV::Null,
                },
            ),
        ],
    )
}

pub open spec fn ops_ranking_entries(items: Seq<JsonV>) -> Seq<JsonV>
    decreases items.len(),
{
    if items.len() == 0 {
        Seq::empty()
    } else if items.last() is Object {
        ops_ranking_entries(items.drop_last()).push(ops_ranking_entry(items.last()))
    } else {
        ops_ranking_entries(items.drop_last())
    }
}

/// Ranking data answers the oldest pending request; without a pending
/// request it is ignored.
pub open spec fn ops_ranking(st: OpsStateV, parsed: JsonV) -> (OpsStateV, Seq<OpsEffectV>) {
    if st.pending.len() == 0 {
        (st, Seq::empty())
    } else {
        let cvid = st.pending[0];
        let s1 = OpsStateV { pending: st.pending.skip(1), ..st };
        match jarr(jget(parsed, "items"@)) {
            Some(items) => match first_index(st.private_variables, ovar_cvid(cvid)) {
                Some(i) => (
                    s1,
                    seq![
                        OpsEffectV::Ranking {
                            name: st.private_variables[i].name,
                            items: ops_ranking_entries(items),
                        },
                    ],
                ),
                None => (s1, Seq::empty()),
            },
            None => (s1, Seq::empty()),
        }
    }
}

/// One pushed list operation on the list named `key`.
pub open spec fn ops_list_cloud_op(st: OpsStateV, key: Seq<char>, op: JsonV) -> (
    OpsStateV,
    Seq<OpsEffectV>,
) {
    match ops_parse_spec(op) {
        None => (st, Seq::empty()),
        Some(o) => match first_index(st.lists, olist_named(key)) {
            None => (st, Seq::empty()),
            Some(i) => {
                let (items, res) = ops_list_spec(st.lists[i].items, o);
                (
                    OpsStateV { lists: st.lists.update(i, OpsListV { items, ..st.lists[i] }), ..st },
                    match res {
                        OpsResultV::Done { event: Some(e), .. } => seq![
                            OpsEffectV::ListOperation { name: st.lists[i].name, op: e.0, args: e.1 },
                        ],
                        _ => Seq::empty(),
                    },
                )
            },
        },
    }
}

pub open spec fn ops_list_cloud_ops(st: OpsStateV, key: Seq<char>, ops: Seq<JsonV>) -> (
    OpsStateV,
    Seq<OpsEffectV>,
)
    decreases ops.len(),
{
    if ops.len() == 0 {
        (st, Seq::empty())
    } else {
        let (s1, e1) = ops_list_cloud_ops(st, key, ops.drop_last());
        let (s2, e2) = ops_list_cloud_op(s1, key, ops.last());
        (s2, e1 + e2)
    }
}

pub open spec fn ops_list_updates(st: OpsStateV, es: Seq<(Seq<char>, JsonV)>) -> (
    OpsStateV,
    Seq<OpsEffectV>,
)
    decreases es.len(),
{
    if es.len() == 0 {
        (st, Seq::empty())
    } else {
        let (s1, e1) = ops_list_updates(st, es.drop_last());
        match jarr(Some(es.last().1)) {
            Some(ops) => {
                let (s2, e2) = ops_list_cloud_ops(s1, es.last().0, ops);
                (s2, e1 + e2)
            },
            None => (s1, e1),
        }
    }
}

/// The state and effects after an event named `msg_type` whose data is
/// `parsed`.
pub open spec fn ops_event_spec(st: OpsStateV, msg_type: Seq<char>, parsed: JsonV) -> (
    OpsStateV,
    Seq<OpsEffectV>,
) {
    match receive_type_spec(msg_type) {
        ReceiveMessageTypeV::ReceiveAllData => (
            OpsStateV {
                data_ready: true,
                ..match jarr(Some(parsed)) {
                    Some(items) => ops_all_data(st, items),
                    None => st,
                }
            },
            seq![OpsEffectV::DataReady],
        ),
        ReceiveMessageTypeV::UpdatePrivateVariable => ops_var_update(st, VarKind::Private, parsed),
        ReceiveMessageTypeV::UpdatePublicVariable => match jarr(Some(parsed)) {
            Some(items) => ops_var_updates(st, items),
            None => (st, Seq::empty()),
        },
        ReceiveMessageTypeV::ReceivePrivateVariableRankingList => ops_ranking(st, parsed),
        ReceiveMessageTypeV::UpdateList => match jobj(Some(parsed)) {
            Some(es) => ops_list_updates(st, es),
            None => (st, Seq::empty()),
        },
        ReceiveMessageTypeV::OnlineUsersChange => match juint(jget(parsed, "total"@)) {
            Some(t) => (OpsStateV { online_users: t as u32, ..st }, Seq::empty()),
            None => (st, Seq::empty()),
        },
        _ => (st, Seq::empty()),
    }
}

/// The event's name and data from the elements of an event frame: no event
/// for fewer than two elements, an empty name when the first is no string,
/// and the data decoded once more when it is a string holding JSON
/// (`inner`, the decoding of that string when there is one).
pub open spec fn ops_event_parts_spec(arr: Seq<JsonV>, inner: Option<JsonV>) -> Option<(Seq<char>, JsonV)> {
    if arr.len() < 2 {
        None
    } else {
        let name = match jstr(Some(arr[0])) {
            Some(s) => s,
            None => Seq::empty(),
        };
        let parsed = match arr[1] {
            JsonV::Str(_) => match inner {
                Some(v) => v,
                None => arr[1],
            },
            _ => arr[1],
        };
        Some((name, parsed))
    }
}


fn find_ovar(vs: &Vec<OpsVariable>, name: &str) -> (r: Option<usize>)
    ensures
        match r {
            Some(i) => first_index(ops_vars_v(vs@), ovar_named(name@)) == Some(i as int),
            None => first_index(ops_vars_v(vs@), ovar_named(name@)).is_none(),
        },
{
    let ghost m = ops_vars_v(vs@);
    let mut i: usize = 0;
    while i < vs.len()
        invariant
            i <= vs@.len(),
            m == ops_vars_v(vs@),
            forall|j: int| 0 <= j < i ==> !ovar_named(name@)(#[trigger] m[j]),
        decreases vs@.len() - i,
    {
        if str_eq(vs[i].name.as_str(), name) {
            proof {
                lemma_first_index_at(m, ovar_named(name@), i as int);
            }
            return Some(i);
        }
        i = i + 1;
    }
    proof {
        lemma_first_index_none(m, ovar_named(name@));
    }
    None
}

fn find_ovar_cvid(vs: &Vec<OpsVariable>, cvid: &str) -> (r: Option<usize>)
    ensures
        match r {
            Some(i) => first_index(ops_vars_v(vs@), ovar_cvid(cvid@)) == Some(i as int),
            None => first_index(ops_vars_v(vs@), ovar_cvid(cvid@)).is_none(),
        },
{
    let ghost m = ops_vars_v(vs@);
    let mut i: usize = 0;
    while i < vs.len()
        invariant
            i <= vs@.len(),
            m == ops_vars_v(vs@),
            forall|j: int| 0 <= j < i ==> !ovar_cvid(cvid@)(#[trigger] m[j]),
        decreases vs@.len() - i,
    {
        if str_eq(vs[i].cvid.as_str(), cvid) {
            proof {
                lemma_first_index_at(m, ovar_cvid(cvid@), i as int);
            }
            return Some(i);
        }
        i = i + 1;
    }
    proof {
        lemma_first_index_none(m, ovar_cvid(cvid@));
    }
    None
}

fn find_olist(ls: &Vec<OpsList>, name: &str) -> (r: Option<usize>)
    ensures
        match r {
            Some(i) => first_index(ops_lists_v(ls@), olist_named(name@)) == Some(i as int),
            None => first_index(ops_lists_v(ls@), olist_named(name@)).is_none(),
        },
{
    let ghost m = ops_lists_v(ls@);
    let mut i: usize = 0;
    while i < ls.len()
        invariant
            i <= ls@.len(),
            m == ops_lists_v(ls@),
            forall|j: int| 0 <= j < i ==> !olist_named(name@)(#[trigger] m[j]),
        decreases ls@.len() - i,
    {
        if str_eq(ls[i].name.as_str(), name) {
            proof {
                lemma_first_index_at(m, olist_named(name@), i as int);
            }
            return Some(i);
        }
        i = i + 1;
    }
    proof {
        lemma_first_index_none(m, olist_named(name@));
    }
    None
}

fn put_ovar(vs: &mut Vec<OpsVariable>, v: OpsVariable)
    ensures
        ops_vars_v(final(vs)@) == ops_put_var(
            ops_vars_v(old(vs)@),
            OpsVarV { cvid: v.cvid@, name: v.name@, value: v.value@ },
        ),
{
    let ghost x = OpsVarV { cvid: v.cvid@, name: v.name@, value: v.value@ };
    match find_ovar(vs, v.name.as_str()) {
        Some(i) => {
            proof {
                lemma_first_index(ops_vars_v(vs@), ovar_named(v.name@));
            }
            vs.remove(i);
            vs.insert(i, v);
            assert(ops_vars_v(vs@) =~= ops_vars_v(old(vs)@).update(i as int, x));
        },
        None => {
            vs.push(v);
            assert(ops_vars_v(vs@) =~= ops_vars_v(old(vs)@).push(x));
        },
    }
}

fn put_olist(ls: &mut Vec<OpsList>, l: OpsList)
    ensures
        ops_lists_v(final(ls)@) == ops_put_list(
            ops_lists_v(old(ls)@),
            OpsListV { cvid: l.cvid@, name: l.name@, items: view_items(l.items@) },
        ),
{
    let ghost x = OpsListV { cvid: l.cvid@, name: l.name@, items: view_items(l.items@) };
    match find_olist(ls, l.name.as_str()) {
        Some(i) => {
            proof {
                lemma_first_index(ops_lists_v(ls@), olist_named(l.name@));
            }
            ls.remove(i);
            ls.insert(i, l);
            assert(ops_lists_v(ls@) =~= ops_lists_v(old(ls)@).update(i as int, x));
        },
        None => {
            ls.push(l);
            assert(ops_lists_v(ls@) =~= ops_lists_v(old(ls)@).push(x));
        },
    }
}

fn str_or_empty(v: Option<&Json>) -> (r: String)
    ensures
        r@ == (match v {
            Some(x) => match jstr(Some(x@)) {
                Some(s) => s,
                None => Seq::empty(),
            },
            None => Seq::empty(),
        }),
{
    match v {
        Some(x) => match x.as_str() {
            Some(s) => own(s),
            None => String::new(),
        },
        None => String::new(),
    }
}

/// The name and data of an event frame's elements.
pub fn ops_event_parts(arr: &Vec<Json>, inner: Option<Json>) -> (r: Option<(String, Json)>)
    ensures
        match r {
            Some(p) => ops_event_parts_spec(view_items(arr@), match inner {
                Some(v) => Some(v@),
                None => None,
            }) == Some((p.0@, p.1@)),
            None => ops_event_parts_spec(view_items(arr@), match inner {
                Some(v) => Some(v@),
                None => None,
            }).is_none(),
        },
{
    proof {
        lemma_view_items(arr@);
    }
    if arr.len() < 2 {
        return None;
    }
    let name = str_or_empty(Some(&arr[0]));
    let parsed = match &arr[1] {
        Json::Str(_) => match inner {
            Some(v) => v,
            None => arr[1].deep_clone(),
        },
        _ => arr[1].deep_clone(),
    };
    Some((name, parsed))
}

fn replace_ovar(vs: &mut Vec<OpsVariable>, i: usize, value: Json) -> (r: (String, Json))
    requires
        i < old(vs)@.len(),
    ensures
        r.0@ == ops_vars_v(old(vs)@)[i as int].name,
        r.1@ == ops_vars_v(old(vs)@)[i as int].value,
        ops_vars_v(final(vs)@) == ops_vars_v(old(vs)@).update(
            i as int,
            OpsVarV { value: value@, ..ops_vars_v(old(vs)@)[i as int] },
        ),
{
    let ghost vv = value@;
    let old_var = vs.remove(i);
    let name = old_var.name.clone();
    vs.insert(i, OpsVariable { cvid: old_var.cvid, name: old_var.name, value });
    assert(ops_vars_v(vs@) =~= ops_vars_v(old(vs)@).update(
        i as int,
        OpsVarV { value: vv, ..ops_vars_v(old(vs)@)[i as int] },
    ));
    (name, old_var.value)
}

impl OpsState {
    /// A state for `work_id` with no data yet.
    pub fn new(work_id: u64) -> (r: OpsState)
        ensures
            r@ == (OpsStateV {
                work_id,
                data_ready: false,
                shutdown: false,
                online_users: 0,
                private_variables: Seq::empty(),
                public_variables: Seq::empty(),
                lists: Seq::empty(),
                pending: Seq::empty(),
                commands: Seq::empty(),
            }),
    {
        let r = OpsState {
            work_id,
            data_ready: false,
            shutdown: false,
            online_users: 0,
            private_variables: Vec::new(),
            public_variables: Vec::new(),
            lists: Vec::new(),
            pending_ranking_requests: Vec::new(),
            command_queue: Vec::new(),
        };
        assert(r@.private_variables =~= Seq::<OpsVarV>::empty());
        assert(r@.public_variables =~= Seq::<OpsVarV>::empty());
        assert(r@.lists =~= Seq::<OpsListV>::empty());
        assert(r@.pending =~= Seq::<Seq<char>>::empty());
        assert(r@.commands =~= Seq::<OpsCommandV>::empty());
        r
    }

    fn all_data_item(&mut self, item: &Json)
        ensures
            final(self)@ == ops_all_data_item(old(self)@, item@),
    {
        match item {
            Json::Object(_) => {},
            _ => return,
        }
        let cvid = str_or_empty(item.get("cvid"));
        let name = str_or_empty(item.get("name"));
        let value = match item.get("value") {
            Some(v) => v.deep_clone(),
            None => Json::Null,
        };
        let t: i64 = match item.get("type") {
            Some(x) => match x.as_i64() {
                Some(t) => t,
                None => -1,
            },
            None => -1,
        };
        if t == 0 {
            put_ovar(&mut self.private_variables, OpsVariable { cvid, name, value });
        } else if t == 1 {
            put_ovar(&mut self.public_variables, OpsVariable { cvid, name, value });
        } else if t == 2 {
            let items = match value {
                Json::Array(a) => a,
                _ => Vec::new(),
            };
            proof {
                if jarr(Some(value@)).is_none() {
                    assert(view_items(items@) =~= Seq::<JsonV>::empty());
                }
            }
            put_olist(&mut self.lists, OpsList { cvid, name, items });
        }
    }

    fn var_update(&mut self, kind: VarKind, item: &Json) -> (r: Vec<OpsEffect>)
        ensures
            (final(self)@, ops_effects_v(r@)) == ops_var_update(old(self)@, kind, item@),
    {
        let mut out: Vec<OpsEffect> = Vec::new();
        assert(ops_effects_v(out@) =~= Seq::<OpsEffectV>::empty());
        match item {
            Json::Object(_) => {},
            _ => return out,
        }
        let cvid = match item.get("cvid") {
            Some(c) => match c.as_str() {
                Some(s) => s,
                None => return out,
            },
            None => return out,
        };
        let value = match item.get("value") {
            Some(v) => v,
            None => return out,
        };
        let found = match kind {
            VarKind::Private => find_ovar_cvid(&self.private_variables, cvid),
            VarKind::Public => find_ovar_cvid(&self.public_variables, cvid),
        };
        match found {
            Some(i) => {
                proof {
                    lemma_first_index(vars_of_kind(self@, kind), ovar_cvid(cvid@));
                }
                let (name, old_value) = match kind {
                    VarKind::Private => replace_ovar(&mut self.private_variables, i, value.deep_clone()),
                    VarKind::Public => replace_ovar(&mut self.public_variables, i, value.deep_clone()),
                };
                out.push(
                    OpsEffect::VariableChanged {
                        kind,
                        name,
                        old: old_value,
                        new: value.deep_clone(),
                        source: ChangeSource::Cloud,
                    },
                );
                assert(ops_effects_v(out@) =~= ops_var_update(old(self)@, kind, item@).1);
            },
            None => {},
        }
        out
    }
}


fn ranking_entry(item: &Json) -> (r: Json)
    ensures
        r@ == ops_ranking_entry(item@),
{
    let id: u64 = match item.get("identifier") {
        Some(x) => match x.as_str() {
            Some(s) => match parse_u64(s) {
                Some(n) => n,
                None => 0,
            },
            None => 0,
        },
        None => 0,
    };
    let user = vec![
        (own("avatar_url"), Json::Str(str_or_empty(item.get("avatar_url")))),
        (own("id"), Json::from_u64(id)),
        (own("nickname"), Json::Str(str_or_empty(item.get("nickname")))),
    ];
    let ghost uv = view_entries(user@);
    proof {
        lemma_view_entries(user@);
    }
    let value = match item.get("value") {
        Some(v) => v.deep_clone(),
        None => Json::Null,
    };
    let entry = vec![(own("user"), Json::Object(user)), (own("value"), value)];
    proof {
        lemma_view_entries(entry@);
        assert(uv =~= seq![
            (
                "avatar_url"@,
                JsonV::Str(
                    match jstr(jget(item@, "avatar_url"@)) {
                        Some(s) => s,
                        None => Seq::<char>::empty(),
                    },
                ),
            ),
            (
                "id"@,
                jnum(
                    match jstr(jget(item@, "identifier"@)) {
                        Some(s) => match parse_u64_spec(s) {
                            Some(n) => n as int,
                            None => 0,
                        },
                        None => 0,
                    },
                ),
            ),
            (
                "nickname"@,
                JsonV::Str(
                    match jstr(jget(item@, "nickname"@)) {
                        Some(s) => s,
                        None => Seq::<char>::empty(),
                    },
                ),
            ),
        ]);
        assert(view_entries(entry@) =~= seq![
            ("user"@, JsonV::Object(uv)),
            (
                "value"@,
                match jget(item@, "value"@) {
                    Some(v) => v,
                    None => JsonV::Null,
                },
            ),
        ]);
    }
    Json::Object(entry)
}

fn ranking_entries(items: &Vec<Json>) -> (r: Vec<Json>)
    ensures
        view_items(r@) == ops_ranking_entries(view_items(items@)),
{
    let mut out: Vec<Json> = Vec::new();
    let ghost all = view_items(items@);
    proof {
        lemma_view_items(items@);
    }
    assert(all.subrange(0, 0) =~= Seq::<JsonV>::empty());
    let mut i: usize = 0;
    while i < items.len()
        invariant
            i <= items@.len(),
            all == view_items(items@),
            all.len() == items@.len(),
            forall|j: int| 0 <= j < items@.len() ==> #[trigger] all[j] == items@[j]@,
            view_items(out@) == ops_ranking_entries(all.subrange(0, i as int)),
        decreases items@.len() - i,
    {
        proof {
            let p = all.subrange(0, i + 1);
            assert(p.drop_last() == all.subrange(0, i as int));
            assert(p.last() == items@[i as int]@);
        }
        match &items[i] {
            Json::Object(_) => {
                let e = ranking_entry(&items[i]);
                proof {
                    crate::json::lemma_view_items_push(out@, e);
                }
                out.push(e);
            },
            _ => {},
        }
        i = i + 1;
    }
    assert(all.subrange(0, items@.len() as int) == all);
    out
}

impl OpsState {
    fn on_ranking(&mut self, parsed: &Json) -> (r: Vec<OpsEffect>)
        ensures
            (final(self)@, ops_effects_v(r@)) == ops_ranking(old(self)@, parsed@),
    {
        let mut out: Vec<OpsEffect> = Vec::new();
        assert(ops_effects_v(out@) =~= Seq::<OpsEffectV>::empty());
        if self.pending_ranking_requests.len() == 0 {
            return out;
        }
        let cvid = self.pending_ranking_requests.remove(0);
        assert(self@.pending =~= old(self)@.pending.skip(1));
        match parsed.get("items") {
            Some(x) => match x.as_array() {
                Some(items) => {
                    match find_ovar_cvid(&self.private_variables, cvid.as_str()) {
                        Some(i) => {
                            proof {
                                lemma_first_index(self@.private_variables, ovar_cvid(cvid@));
                            }
                            let name = self.private_variables[i].name.clone();
                            out.push(OpsEffect::Ranking { name, items: ranking_entries(items) });
                            assert(ops_effects_v(out@) =~= ops_ranking(old(self)@, parsed@).1);
                        },
                        None => {},
                    }
                },
                None => {},
            },
            None => {},
        }
        out
    }

    fn list_cloud_op(&mut self, key: &str, op: &Json) -> (r: Vec<OpsEffect>)
        ensures
            (final(self)@, ops_effects_v(r@)) == ops_list_cloud_op(old(self)@, key@, op@),
    {
        let mut out: Vec<OpsEffect> = Vec::new();
        assert(ops_effects_v(out@) =~= Seq::<OpsEffectV>::empty());
        let o = match ops_parse(op) {
            Some(o) => o,
            None => return out,
        };
        let i = match find_olist(&self.lists, key) {
            Some(i) => i,
            None => return out,
        };
        proof {
            lemma_first_index(self@.lists, olist_named(key@));
        }
        let mut l = self.lists.remove(i);
        let res = apply_list_op(&mut l.items, &o);
        let name = l.name.clone();
        self.lists.insert(i, l);
        assert(self@.lists =~= old(self)@.lists.update(
            i as int,
            OpsListV { items: view_items(l.items@), ..old(self)@.lists[i as int] },
        ));
        match res {
            OpsResult::Done { event: Some(e), .. } => {
                out.push(OpsEffect::ListOperation { name, op: e.0, args: e.1 });
                assert(ops_effects_v(out@) =~= ops_list_cloud_op(old(self)@, key@, op@).1);
            },
            _ => {},
        }
        out
    }

    fn list_cloud_ops(&mut self, key: &str, ops: &Vec<Json>) -> (r: Vec<OpsEffect>)
        ensures
            (final(self)@, ops_effects_v(r@)) == ops_list_cloud_ops(old(self)@, key@, view_items(ops@)),
    {
        let mut out: Vec<OpsEffect> = Vec::new();
        let ghost all = view_items(ops@);
        proof {
            lemma_view_items(ops@);
        }
        assert(all.subrange(0, 0) =~= Seq::<JsonV>::empty());
        assert(ops_effects_v(out@) =~= Seq::<OpsEffectV>::empty());
        let mut i: usize = 0;
        while i < ops.len()
            invariant
                i <= ops@.len(),
                all == view_items(ops@),
                all.len() == ops@.len(),
                forall|j: int| 0 <= j < ops@.len() ==> #[trigger] all[j] == ops@[j]@,
                (self@, ops_effects_v(out@)) == ops_list_cloud_ops(
                    old(self)@,
                    key@,
                    all.subrange(0, i as int),
                ),
            decreases ops@.len() - i,
        {
            let ghost before = ops_effects_v(out@);
            let mut step = self.list_cloud_op(key, &ops[i]);
            let ghost step_v = ops_effects_v(step@);
            proof {
                let p = all.subrange(0, i + 1);
                assert(p.drop_last() == all.subrange(0, i as int));
                assert(p.last() == ops@[i as int]@);
            }
            out.append(&mut step);
            assert(ops_effects_v(out@) =~= before + step_v);
            i = i + 1;
        }
        assert(all.subrange(0, ops@.len() as int) == all);
        out
    }

    fn list_updates(&mut self, es: &Vec<(String, Json)>) -> (r: Vec<OpsEffect>)
        ensures
            (final(self)@, ops_effects_v(r@)) == ops_list_updates(old(self)@, view_entries(es@)),
    {
        let mut out: Vec<OpsEffect> = Vec::new();
        let ghost all = view_entries(es@);
        proof {
            lemma_view_entries(es@);
        }
        assert(all.subrange(0, 0) =~= Seq::<(Seq<char>, JsonV)>::empty());
        assert(ops_effects_v(out@) =~= Seq::<OpsEffectV>::empty());
        let mut i: usize = 0;
        while i < es.len()
            invariant
                i <= es@.len(),
                all == view_entries(es@),
                all.len() == es@.len(),
                forall|j: int| 0 <= j < es@.len() ==> #[trigger] all[j] == (es@[j].0@, es@[j].1@),
                (self@, ops_effects_v(out@)) == ops_list_updates(old(self)@, all.subrange(0, i as int)),
            decreases es@.len() - i,
        {
            proof {
                let p = all.subrange(0, i + 1);
                assert(p.drop_last() == all.subrange(0, i as int));
                assert(p.last() == (es@[i as int].0@, es@[i as int].1@));
            }
            match es[i].1.as_array() {
                Some(ops) => {
                    let ghost before = ops_effects_v(out@);
                    let mut step = self.list_cloud_ops(es[i].0.as_str(), ops);
                    let ghost step_v = ops_effects_v(step@);
                    out.append(&mut step);
                    assert(ops_effects_v(out@) =~= before + step_v);
                },
                None => {},
            }
            i = i + 1;
        }
        assert(all.subrange(0, es@.len() as int) == all);
        out
    }

    fn var_updates(&mut self, items: &Vec<Json>) -> (r: Vec<OpsEffect>)
        ensures
            (final(self)@, ops_effects_v(r@)) == ops_var_updates(old(self)@, view_items(items@)),
    {
        let mut out: Vec<OpsEffect> = Vec::new();
        let ghost all = view_items(items@);
        proof {
            lemma_view_items(items@);
        }
        assert(all.subrange(0, 0) =~= Seq::<JsonV>::empty());
        assert(ops_effects_v(out@) =~= Seq::<OpsEffectV>::empty());
        let mut i: usize = 0;
        while i < items.len()
            invariant
                i <= items@.len(),
                all == view_items(items@),
                all.len() == items@.len(),
                forall|j: int| 0 <= j < items@.len() ==> #[trigger] all[j] == items@[j]@,
                (self@, ops_effects_v(out@)) == ops_var_updates(old(self)@, all.subrange(0, i as int)),
            decreases items@.len() - i,
        {
            let ghost before = ops_effects_v(out@);
            let mut step = self.var_update(VarKind::Public, &items[i]);
            let ghost step_v = ops_effects_v(step@);
            proof {
                let p = all.subrange(0, i + 1);
                assert(p.drop_last() == all.subrange(0, i as int));
                assert(p.last() == items@[i as int]@);
            }
            out.append(&mut step);
            assert(ops_effects_v(out@) =~= before + step_v);
            i = i + 1;
        }
        assert(all.subrange(0, items@.len() as int) == all);
        out
    }

    /// Reacts to an event named `msg_type` with data `parsed`: stores the
    /// full data, applies pushed variable and list updates, answers ranking
    /// requests and records the number of online users.
    pub fn process_event(&mut self, msg_type: &str, parsed: &Json) -> (r: Vec<OpsEffect>)
        ensures
            (final(self)@, ops_effects_v(r@)) == ops_event_spec(old(self)@, msg_type@, parsed@),
    {
        let t = ReceiveMessageType::from_name(msg_type);
        let mut out: Vec<OpsEffect> = Vec::new();
        assert(ops_effects_v(out@) =~= Seq::<OpsEffectV>::empty());
        match t {
            ReceiveMessageType::ReceiveAllData => {
                match parsed.as_array() {
                    Some(items) => {
                        let ghost all = view_items(items@);
                        proof {
                            lemma_view_items(items@);
                        }
                        assert(all.subrange(0, 0) =~= Seq::<JsonV>::empty());
                        let mut i: usize = 0;
                        while i < items.len()
                            invariant
                                i <= items@.len(),
                                all == view_items(items@),
                                all.len() == items@.len(),
                                forall|j: int|
                                    0 <= j < items@.len() ==> #[trigger] all[j] == items@[j]@,
                                self@ == ops_all_data(old(self)@, all.subrange(0, i as int)),
                            decreases items@.len() - i,
                        {
                            proof {
                                let p = all.subrange(0, i + 1);
                                assert(p.drop_last() == all.subrange(0, i as int));
                                assert(p.last() == items@[i as int]@);
                            }
                            self.all_data_item(&items[i]);
                            i = i + 1;
                        }
                        assert(all.subrange(0, items@.len() as int) == all);
                    },
                    None => {},
                }
                self.data_ready = true;
                out.push(OpsEffect::DataReady);
                assert(ops_effects_v(out@) =~= seq![OpsEffectV::DataReady]);
                out
            },
            ReceiveMessageType::UpdatePrivateVariable => self.var_update(VarKind::Private, parsed),
            ReceiveMessageType::UpdatePublicVariable => match parsed.as_array() {
                Some(items) => self.var_updates(items),
                None => out,
            },
            ReceiveMessageType::ReceivePrivateVariableRankingList => self.on_ranking(parsed),
            ReceiveMessageType::UpdateList => match parsed.as_object() {
                Some(es) => self.list_updates(es),
                None => out,
            },
            ReceiveMessageType::OnlineUsersChange => {
                match parsed.get("total") {
                    Some(x) => match x.as_u64() {
                        Some(total) => {
                            self.online_users = total as u32;
                        },
                        None => {},
                    },
                    None => {},
                }
                out
            },
            _ => out,
        }
    }

    /// The server asked to close.
    pub fn on_shutdown(&mut self)
        ensures
            final(self)@ == (OpsStateV { shutdown: true, ..old(self)@ }),
    {
        self.shutdown = true;
    }
}


/// The body of a local private variable update.
pub open spec fn ops_private_body(cvid: Seq<char>, value: JsonV) -> JsonV {
    JsonV::Object(seq![("cvid"@, JsonV::Str(cvid)), ("value"@, value)])
}

/// The body of a local public variable update.
pub open spec fn ops_public_body(cvid: Seq<char>, value: JsonV) -> JsonV {
    JsonV::Object(seq![("action"@, JsonV::Str("set"@)), ("cvid"@, JsonV::Str(cvid)), ("value"@, value)])
}

/// A local variable update: only numbers and strings are accepted.
pub open spec fn ops_set_spec(st: OpsStateV, kind: VarKind, name: Seq<char>, value: JsonV) -> Option<
    (OpsStateV, Seq<OpsEffectV>),
> {
    let vs = vars_of_kind(st, kind);
    match first_index(vs, ovar_named(name)) {
        None => None,
        Some(i) => if !is_scalar(value) {
            None
        } else {
            Some(
                (
                    OpsStateV {
                        commands: st.commands.push(
                            OpsCommandV::VariableUpdate {
                                cmd_type: if kind == VarKind::Private {
                                    "update_private_vars"@
                                } else {
                                    "update_vars"@
                                },
                                data: if kind == VarKind::Private {
                                    ops_private_body(vs[i].cvid, value)
                                } else {
                                    ops_public_body(vs[i].cvid, value)
                                },
                            },
                        ),
                        ..with_vars_of_kind(st, kind, vs.update(i, OpsVarV { value, ..vs[i] }))
                    },
                    seq![
                        OpsEffectV::VariableChanged {
                            kind,
                            name: vs[i].name,
                            old: vs[i].value,
                            new: value,
                            source: ChangeSource::Local,
                        },
                    ],
                ),
            )
        },
    }
}

/// Whether an operation removes an item (and fails when there is none).
pub open spec fn is_removal(op: OpsListOpV) -> bool {
    op is Pop || op is Shift || op is Remove
}

/// A local list operation: the list changes, its callbacks run and the
/// operation is queued. `None` when the list is missing, the operation is
/// rejected, or a removal finds nothing to remove.
pub open spec fn ops_list_local_spec(st: OpsStateV, name: Seq<char>, op: OpsListOpV) -> Option<
    (OpsStateV, Seq<OpsEffectV>),
> {
    match first_index(st.lists, olist_named(name)) {
        None => None,
        Some(i) => {
            let (items, res) = ops_list_spec(st.lists[i].items, op);
            match res {
                OpsResultV::Rejected => None,
                OpsResultV::Done { removed, event } => if is_removal(op) && removed is None {
                    None
                } else {
                    Some(
                        (
                            OpsStateV {
                                lists: st.lists.update(i, OpsListV { items, ..st.lists[i] }),
                                commands: st.commands.push(
                                    OpsCommandV::ListUpdate {
                                        cvid: st.lists[i].cvid,
                                        operations: seq![ops_wire_spec(op)],
                                    },
                                ),
                                ..st
                            },
                            match event {
                                Some(e) => seq![
                                    OpsEffectV::ListOperation {
                                        name: st.lists[i].name,
                                        op: e.0,
                                        args: e.1,
                                    },
                                ],
                                None => Seq::empty(),
                            },
                        ),
                    )
                },
            }
        },
    }
}

/// The body of a ranking request.
pub open spec fn ops_ranking_body(cvid: Seq<char>, limit: u32, order: i32) -> JsonV {
    JsonV::Object(
        seq![
            ("cvid"@, JsonV::Str(cvid)),
            ("limit"@, jnum(limit as int)),
            ("order_type"@, jnum(order as int)),
        ],
    )
}

/// The merged uploads: private updates, public updates and per cvid its
/// list operations.
pub struct OpsBatchV {
    pub private_updates: Seq<JsonV>,
    pub public_updates: Seq<JsonV>,
    pub list_updates: Seq<(Seq<char>, Seq<JsonV>)>,
}

pub open spec fn ops_merge_step(b: OpsBatchV, c: OpsCommandV) -> OpsBatchV {
    match c {
        OpsCommandV::VariableUpdate { cmd_type, data } => if cmd_type == "update_private_vars"@ {
            OpsBatchV { private_updates: b.private_updates.push(data), ..b }
        } else if cmd_type == "update_vars"@ {
            OpsBatchV { public_updates: b.public_updates.push(data), ..b }
        } else {
            b
        },
        OpsCommandV::ListUpdate { cvid, operations } => match crate::cloud::find_cvid(
            b.list_updates,
            cvid,
        ) {
            Some(i) => OpsBatchV {
                list_updates: b.list_updates.update(i, (cvid, b.list_updates[i].1 + operations)),
                ..b
            },
            None => OpsBatchV { list_updates: b.list_updates.push((cvid, operations)), ..b },
        },
    }
}

pub open spec fn ops_merge_spec(cs: Seq<OpsCommandV>) -> OpsBatchV
    decreases cs.len(),
{
    if cs.len() == 0 {
        OpsBatchV {
            private_updates: Seq::empty(),
            public_updates: Seq::empty(),
            list_updates: Seq::empty(),
        }
    } else {
        ops_merge_step(ops_merge_spec(cs.drop_last()), cs.last())
    }
}

/// The frames of one upload round, in sending order.
pub open spec fn ops_frames_spec(b: OpsBatchV) -> Seq<(Seq<char>, JsonV)> {
    (if b.private_updates.len() > 0 {
        seq![("update_private_vars"@, JsonV::Array(b.private_updates))]
    } else {
        Seq::empty()
    }) + (if b.public_updates.len() > 0 {
        seq![("update_vars"@, JsonV::Array(b.public_updates))]
    } else {
        Seq::empty()
    }) + b.list_updates.map_values(
        |e: (Seq<char>, Seq<JsonV>)|
            ("update_lists"@, JsonV::Object(seq![(e.0, JsonV::Array(e.1))])),
    )
}

/// The frames of one upload round for the queued `commands`, in sending
/// order: the merged private updates, the merged public updates, then one
/// frame per list.
pub fn ops_upload_frames(commands: &Vec<OpsCommand>) -> (r: Vec<(String, Json)>)
    ensures
        r@.map_values(|f: (String, Json)| (f.0@, f.1@)) == ops_frames_spec(
            ops_merge_spec(ops_commands_v(commands@)),
        ),
{
    let (private_updates, public_updates, list_updates) = ops_merge(commands);
    let b = crate::cloud::BatchedUploads { private_updates, public_updates, list_updates };
    crate::cloud_session::upload_frames(&b)
}

fn obj2(k1: &str, v1: Json, k2: &str, v2: Json) -> (r: Json)
    ensures
        r@ == JsonV::Object(seq![(k1@, v1@), (k2@, v2@)]),
{
    let ghost a = v1@;
    let ghost b = v2@;
    let es = vec![(own(k1), v1), (own(k2), v2)];
    proof {
        lemma_view_entries(es@);
    }
    assert(view_entries(es@) =~= seq![(k1@, a), (k2@, b)]);
    Json::Object(es)
}

fn obj3(k1: &str, v1: Json, k2: &str, v2: Json, k3: &str, v3: Json) -> (r: Json)
    ensures
        r@ == JsonV::Object(seq![(k1@, v1@), (k2@, v2@), (k3@, v3@)]),
{
    let ghost a = v1@;
    let ghost b = v2@;
    let ghost c = v3@;
    let es = vec![(own(k1), v1), (own(k2), v2), (own(k3), v3)];
    proof {
        lemma_view_entries(es@);
    }
    assert(view_entries(es@) =~= seq![(k1@, a), (k2@, b), (k3@, c)]);
    Json::Object(es)
}

impl OpsState {
    /// Sets a variable locally and queues the update.
    pub fn set_variable(&mut self, kind: VarKind, name: &str, value: &Json) -> (r: Result<
        Vec<OpsEffect>,
        CloudError,
    >)
        ensures
            match ops_set_spec(old(self)@, kind, name@, value@) {
                Some((t, es)) => r.is_ok() && final(self)@ == t && ops_effects_v(r.unwrap()@) == es,
                None => r == Err::<Vec<OpsEffect>, CloudError>(CloudError::InvalidVariableType)
                    && final(self)@ == old(self)@,
            },
    {
        let found = match kind {
            VarKind::Private => find_ovar(&self.private_variables, name),
            VarKind::Public => find_ovar(&self.public_variables, name),
        };
        let i = match found {
            Some(i) => i,
            None => return Err(CloudError::InvalidVariableType),
        };
        if !scalar(value) {
            return Err(CloudError::InvalidVariableType);
        }
        proof {
            lemma_first_index(vars_of_kind(self@, kind), ovar_named(name@));
        }
        let cvid = match kind {
            VarKind::Private => self.private_variables[i].cvid.clone(),
            VarKind::Public => self.public_variables[i].cvid.clone(),
        };
        let (vname, old_value) = match kind {
            VarKind::Private => replace_ovar(&mut self.private_variables, i, value.deep_clone()),
            VarKind::Public => replace_ovar(&mut self.public_variables, i, value.deep_clone()),
        };
        let command = match kind {
            VarKind::Private => OpsCommand::VariableUpdate {
                cmd_type: own("update_private_vars"),
                data: obj2("cvid", Json::Str(cvid), "value", value.deep_clone()),
            },
            VarKind::Public => OpsCommand::VariableUpdate {
                cmd_type: own("update_vars"),
                data: obj3(
                    "action",
                    Json::from_str("set"),
                    "cvid",
                    Json::Str(cvid),
                    "value",
                    value.deep_clone(),
                ),
            },
        };
        self.command_queue.push(command);
        let mut out: Vec<OpsEffect> = Vec::new();
        out.push(
            OpsEffect::VariableChanged {
                kind,
                name: vname,
                old: old_value,
                new: value.deep_clone(),
                source: ChangeSource::Local,
            },
        );
        assert(self@.commands =~= ops_set_spec(old(self)@, kind, name@, value@).unwrap().0.commands);
        assert(ops_effects_v(out@) =~= ops_set_spec(old(self)@, kind, name@, value@).unwrap().1);
        Ok(out)
    }

    /// Requests the ranking of a private variable: remembers the request and
    /// returns the body to send as `list_ranking`.
    pub fn request_ranking(&mut self, name: &str, limit: u32, order: i32) -> (r: Result<
        Json,
        CloudError,
    >)
        ensures
            match first_index(old(self)@.private_variables, ovar_named(name@)) {
                Some(i) => r.is_ok() && r.unwrap()@ == ops_ranking_body(
                    old(self)@.private_variables[i].cvid,
                    limit,
                    order,
                ) && final(self)@ == (OpsStateV {
                    pending: old(self)@.pending.push(old(self)@.private_variables[i].cvid),
                    ..old(self)@
                }),
                None => r == Err::<Json, CloudError>(CloudError::InvalidVariableType) && final(self)@ == old(self)@,
            },
    {
        let i = match find_ovar(&self.private_variables, name) {
            Some(i) => i,
            None => return Err(CloudError::InvalidVariableType),
        };
        proof {
            lemma_first_index(self@.private_variables, ovar_named(name@));
        }
        let cvid = self.private_variables[i].cvid.clone();
        self.pending_ranking_requests.push(cvid.clone());
        assert(self@.pending =~= old(self)@.pending.push(cvid@));
        Ok(
            obj3(
                "cvid",
                Json::Str(cvid),
                "limit",
                Json::from_u64(limit as u64),
                "order_type",
                Json::from_i64(order as i64),
            ),
        )
    }

    /// Applies a list operation locally and queues it.
    pub fn list_local(&mut self, name: &str, op: &OpsListOp) -> (r: Result<
        Vec<OpsEffect>,
        CloudError,
    >)
        ensures
            match ops_list_local_spec(old(self)@, name@, op@) {
                Some((t, es)) => r.is_ok() && final(self)@ == t && ops_effects_v(r.unwrap()@) == es,
                None => r.is_err() && final(self)@ == old(self)@ && (if first_index(
                    old(self)@.lists,
                    olist_named(name@),
                ).is_none() && is_removal(op@) {
                    r == Err::<Vec<OpsEffect>, CloudError>(CloudError::NotConnected)
                } else {
                    r == Err::<Vec<OpsEffect>, CloudError>(CloudError::InvalidListItemType)
                }),
            },
    {
        let removal = match op {
            OpsListOp::Pop | OpsListOp::Shift | OpsListOp::Remove(_) => true,
            _ => false,
        };
        let i = match find_olist(&self.lists, name) {
            Some(i) => i,
            None => {
                if removal {
                    return Err(CloudError::NotConnected);
                } else {
                    return Err(CloudError::InvalidListItemType);
                }
            },
        };
        proof {
            lemma_first_index(self@.lists, olist_named(name@));
        }
        let ghost before = self@;
        let mut l = self.lists.remove(i);
        let ghost pre_items = l.items@;
        let pre_len = l.items.len();
        let res = apply_list_op(&mut l.items, op);
        let n = l.items.len();
        let (removed_none, event) = match res {
            OpsResult::Rejected => {
                self.lists.insert(i, l);
                assert(self@.lists =~= before.lists);
                return Err(CloudError::InvalidListItemType);
            },
            OpsResult::Done { removed, event } => (removed.is_none(), event),
        };
        if removal && removed_none {
            self.lists.insert(i, l);
            assert(self@.lists =~= before.lists);
            return Err(CloudError::InvalidListItemType);
        }
        let name_s = l.name.clone();
        let cvid = l.cvid.clone();
        self.lists.insert(i, l);
        assert(self@.lists =~= before.lists.update(
            i as int,
            OpsListV { items: view_items(l.items@), ..before.lists[i as int] },
        ));
        proof {
            lemma_view_items(pre_items);
            lemma_view_items(l.items@);
            assert(n == l.items@.len());
            match op@ {
                OpsListOpV::Insert(k, v) => {
                    assert(view_items(l.items@).len() == pre_items.len() + 1);
                    assert(k < usize::MAX);
                },
                OpsListOpV::Remove(k) => {
                    assert(k < pre_len);
                },
                OpsListOpV::Replace(k, v) => {
                    assert(k < pre_len);
                },
                _ => {},
            }
        }
        let wire = ops_wire(op);
        let ghost wv = wire@;
        let ops = vec![wire];
        assert(view_items(ops@) =~= seq![wv]) by {
            lemma_view_items(ops@);
        }
        self.command_queue.push(OpsCommand::ListUpdate { cvid, operations: ops });
        let mut out: Vec<OpsEffect> = Vec::new();
        match event {
            Some(e) => {
                out.push(OpsEffect::ListOperation { name: name_s, op: e.0, args: e.1 });
            },
            None => {},
        }
        assert(self@.commands =~= ops_list_local_spec(old(self)@, name@, op@).unwrap().0.commands);
        assert(ops_effects_v(out@) =~= ops_list_local_spec(old(self)@, name@, op@).unwrap().1);
        Ok(out)
    }

    /// Takes the queued commands, leaving the queue empty.
    pub fn drain_commands(&mut self) -> (r: Vec<OpsCommand>)
        ensures
            ops_commands_v(r@) == old(self)@.commands,
            final(self)@ == (OpsStateV { commands: Seq::empty(), ..old(self)@ }),
    {
        let mut out: Vec<OpsCommand> = Vec::new();
        std::mem::swap(&mut out, &mut self.command_queue);
        assert(self@.commands =~= Seq::<OpsCommandV>::empty());
        out
    }
}

/// Merges one round of commands: private updates, public updates, and per
/// list its operations in order; commands of another type are dropped.
pub fn ops_merge(commands: &Vec<OpsCommand>) -> (r: (Vec<Json>, Vec<Json>, Vec<(String, Vec<Json>)>))
    ensures
        view_items(r.0@) == ops_merge_spec(ops_commands_v(commands@)).private_updates,
        view_items(r.1@) == ops_merge_spec(ops_commands_v(commands@)).public_updates,
        crate::cloud::view_list_updates(r.2@) == ops_merge_spec(ops_commands_v(commands@)).list_updates,
{
    let mut private_updates: Vec<Json> = Vec::new();
    let mut public_updates: Vec<Json> = Vec::new();
    let mut list_updates: Vec<(String, Vec<Json>)> = Vec::new();
    let ghost cs = ops_commands_v(commands@);
    assert(cs.subrange(0, 0) =~= Seq::<OpsCommandV>::empty());
    assert(crate::cloud::view_list_updates(list_updates@) =~= Seq::<(Seq<char>, Seq<JsonV>)>::empty());
    let mut i: usize = 0;
    while i < commands.len()
        invariant
            i <= commands@.len(),
            cs == ops_commands_v(commands@),
            view_items(private_updates@) == ops_merge_spec(cs.subrange(0, i as int)).private_updates,
            view_items(public_updates@) == ops_merge_spec(cs.subrange(0, i as int)).public_updates,
            crate::cloud::view_list_updates(list_updates@) == ops_merge_spec(
                cs.subrange(0, i as int),
            ).list_updates,
        decreases commands@.len() - i,
    {
        proof {
            let p = cs.subrange(0, i + 1);
            assert(p.drop_last() == cs.subrange(0, i as int));
            assert(p.last() == cs[i as int]);
        }
        match &commands[i] {
            OpsCommand::VariableUpdate { cmd_type, data } => {
                if str_eq(cmd_type.as_str(), "update_private_vars") {
                    let d = data.deep_clone();
                    proof {
                        crate::json::lemma_view_items_push(private_updates@, d);
                    }
                    private_updates.push(d);
                } else if str_eq(cmd_type.as_str(), "update_vars") {
                    let d = data.deep_clone();
                    proof {
                        crate::json::lemma_view_items_push(public_updates@, d);
                    }
                    public_updates.push(d);
                }
            },
            OpsCommand::ListUpdate { cvid, operations } => {
                let ghost before = crate::cloud::view_list_updates(list_updates@);
                proof {
                    crate::cloud::lemma_find_cvid(before, cvid@);
                }
                let mut k: usize = 0;
                let mut found = false;
                while k < list_updates.len()
                    invariant
                        k <= list_updates@.len(),
                        crate::cloud::view_list_updates(list_updates@) == before,
                        forall|j: int| 0 <= j < k ==> #[trigger] before[j].0 != cvid@,
                        found ==> k < list_updates@.len() && before[k as int].0 == cvid@,
                    ensures
                        found ==> k < list_updates@.len() && before[k as int].0 == cvid@,
                        !found ==> k == list_updates@.len(),
                        crate::cloud::view_list_updates(list_updates@) == before,
                        forall|j: int| 0 <= j < k ==> #[trigger] before[j].0 != cvid@,
                    decreases list_updates@.len() - k + (if found {
                        0int
                    } else {
                        1int
                    }),
                {
                    if str_eq(list_updates[k].0.as_str(), cvid.as_str()) {
                        found = true;
                        break;
                    }
                    k = k + 1;
                }
                let mut more = crate::cloud::dup_json_vec(operations);
                if found {
                    assert(crate::cloud::find_cvid(before, cvid@) == Some(k as int));
                    let mut entry = list_updates.remove(k);
                    let ghost old_ops = entry.1@;
                    proof {
                        lemma_view_items(old_ops);
                        lemma_view_items(more@);
                    }
                    entry.1.append(&mut more);
                    proof {
                        lemma_view_items(entry.1@);
                        assert(view_items(entry.1@) =~= view_items(old_ops) + view_items(
                            operations@,
                        ));
                    }
                    list_updates.insert(k, entry);
                    assert(crate::cloud::view_list_updates(list_updates@) =~= before.update(
                        k as int,
                        (cvid@, before[k as int].1 + view_items(operations@)),
                    ));
                } else {
                    assert(crate::cloud::find_cvid(before, cvid@) == None::<int>);
                    list_updates.push((cvid.clone(), more));
                    assert(crate::cloud::view_list_updates(list_updates@) =~= before.push(
                        (cvid@, view_items(operations@)),
                    ));
                }
            },
        }
        i = i + 1;
    }
    assert(cs.subrange(0, commands@.len() as int) == cs);
    (private_updates, public_updates, list_updates)
}

/// The cloud-storage address of a work.
pub open spec fn ops_url_spec(work_id: u64, editor: EditorType) -> Seq<char> {
    "wss://socketcv.codemao.cn:9096/cloudstorage/?session_id="@ + crate::text::dec_nat(work_id as nat)
        + "&authorization_type="@ + as_param_spec(editor).0 + "&stag="@ + as_param_spec(editor).1
        + "&EIO=3&transport=websocket"@
}

/// Builds the cloud-storage address of a work.
pub fn ops_url(work_id: u64, editor: EditorType) -> (r: String)
    ensures
        r@ == ops_url_spec(work_id, editor),
{
    let (auth_type, stag) = editor.as_param();
    let mut s = own("wss://socketcv.codemao.cn:9096/cloudstorage/?session_id=");
    push_u64(&mut s, work_id);
    push_str(&mut s, "&authorization_type=");
    push_str(&mut s, auth_type);
    push_str(&mut s, "&stag=");
    push_str(&mut s, stag);
    push_str(&mut s, "&EIO=3&transport=websocket");
    s
}

/// The body of the `join` message.
pub fn join_body(work_id: u64) -> (r: Json)
    ensures
        r@ == JsonV::Object(seq![("session_id"@, jnum(work_id as int))]),
{
    let es = vec![(own("session_id"), Json::from_u64(work_id))];
    proof {
        lemma_view_entries(es@);
    }
    assert(view_entries(es@) =~= seq![("session_id"@, jnum(work_id as int))]);
    Json::Object(es)
}

/// Settings of a connection of the second client.
#[derive(Debug, Clone, PartialEq, Eq)]
pub struct CloudConnectionBuilder {
    pub work_id: u64,
    pub editor: EditorType,
    pub auth_token: Option<String>,
}

impl CloudConnectionBuilder {
    /// Settings for `work_id`: Kitten editor, no token.
    pub fn new(work_id: u64) -> (r: CloudConnectionBuilder)
        ensures
            r.work_id == work_id,
            r.editor == EditorType::KITTEN,
            r.auth_token.is_none(),
    {
        CloudConnectionBuilder { work_id, editor: EditorType::KITTEN, auth_token: None }
    }

    /// Sets the editor.
    pub fn with_editor(self, editor: EditorType) -> (r: CloudConnectionBuilder)
        ensures
            r == (CloudConnectionBuilder { editor, ..self }),
    {
        CloudConnectionBuilder { editor, ..self }
    }

    /// Sets the authorization token.
    pub fn with_auth_token(self, token: String) -> (r: CloudConnectionBuilder)
        ensures
            r == (CloudConnectionBuilder { auth_token: Some(token), ..self }),
    {
        CloudConnectionBuilder { auth_token: Some(token), ..self }
    }
}

/// At most this many characters of a text are shown whole.
pub const MAX_DISPLAY_LENGTH: usize = 50;

/// The UTF-8 bytes of the three-dot marker.
pub open spec fn dots_bytes() -> Seq<u8> {
    seq![0x2eu8, 0x2eu8, 0x2eu8]
}

/// Encoding a concatenation gives the concatenation of the encodings.
pub proof fn lemma_encode_utf8_append(a: Seq<char>, b: Seq<char>)
    ensures
        vstd::utf8::encode_utf8(a + b) == vstd::utf8::encode_utf8(a) + vstd::utf8::encode_utf8(b),
    decreases a.len(),
{
    if a.len() == 0 {
        assert(a + b =~= b);
        assert(vstd::utf8::encode_utf8(a) =~= Seq::<u8>::empty());
        assert(Seq::<u8>::empty() + vstd::utf8::encode_utf8(b) =~= vstd::utf8::encode_utf8(b));
    } else {
        lemma_encode_utf8_append(a.drop_first(), b);
        assert((a + b).drop_first() =~= a.drop_first() + b);
        assert((a + b)[0] == a[0]);
        let e0 = vstd::utf8::encode_scalar(a[0] as u32);
        assert(e0 + (vstd::utf8::encode_utf8(a.drop_first()) + vstd::utf8::encode_utf8(b)) =~= (e0
            + vstd::utf8::encode_utf8(a.drop_first())) + vstd::utf8::encode_utf8(b));
    }
}

/// A text value for display: whole when it has at most 50 bytes, else its
/// first and last 23 bytes around `...`. The cut points must lie on
/// character boundaries.
pub fn truncate_text(s: &str) -> (r: String)
    requires
        s.spec_bytes().len() > 50 ==> vstd::utf8::is_char_boundary(s.spec_bytes(), 23)
            && vstd::utf8::is_char_boundary(s.spec_bytes(), s.spec_bytes().len() - 23),
    ensures
        s.spec_bytes().len() <= 50 ==> r@ == s@,
        s.spec_bytes().len() > 50 ==> vstd::utf8::encode_utf8(r@) == s.spec_bytes().subrange(0, 23)
            + dots_bytes() + s.spec_bytes().subrange(
            s.spec_bytes().len() - 23,
            s.spec_bytes().len() as int,
        ),
{
    let n = s.as_bytes().len();
    if n <= MAX_DISPLAY_LENGTH {
        return own(s);
    }
    let (head, _) = s.split_at(23);
    let (_, tail) = s.split_at(n - 23);
    let dots = "...";
    let mut out = own(head);
    push_str(&mut out, dots);
    push_str(&mut out, tail);
    proof {
        reveal_strlit("...");
        lemma_encode_utf8_append(head@ + dots@, tail@);
        lemma_encode_utf8_append(head@, dots@);
        vstd::utf8::is_ascii_chars_encode_utf8(dots@);
        assert(vstd::utf8::encode_utf8(dots@) =~= dots_bytes());
    }
    out
}


proof fn lemma_jnum_uint(n: int)
    requires
        0 <= n <= u64::MAX,
    ensures
        juint(Some(jnum(n))) == Some(n as u64),
{
    crate::text::lemma_dec_int_roundtrip(n);
    crate::text::lemma_dec_nat(n as nat);
}

/// What the second client uploads for a local list operation is read back
/// by the receiving side as an operation that changes the list in the same
/// way, so replaying an upload gives the list that the sender has. Holds
/// for positions below `usize::MAX`.
pub proof fn law_ops_upload_replays(items: Seq<JsonV>, op: OpsListOpV)
    requires
        match op {
            OpsListOpV::Insert(i, _) | OpsListOpV::Remove(i) | OpsListOpV::Replace(i, _) => i
                < usize::MAX,
            _ => true,
        },
    ensures
        ops_parse_spec(ops_wire_spec(op)) is Some,
        ops_list_spec(items, ops_parse_spec(ops_wire_spec(op))->Some_0).0 == ops_list_spec(
            items,
            op,
        ).0,
{
    crate::cloud::lemma_strlits();
    match op {
        OpsListOpV::Push(v) => {
            crate::cloud::lemma_wire2_get("append"@, "value"@, v);
        },
        OpsListOpV::Pop => {
            crate::cloud::lemma_wire2_get("delete"@, "nth"@, JsonV::Str("last"@));
        },
        OpsListOpV::Unshift(v) => {
            crate::cloud::lemma_wire2_get("unshift"@, "value"@, v);
        },
        OpsListOpV::Shift => {
            lemma_jnum_uint(1);
            crate::cloud::lemma_wire2_get("delete"@, "nth"@, jnum(1));
            assert(items.len() > 0 ==> items.remove(0) =~= items.skip(1));
        },
        OpsListOpV::Insert(i, v) => {
            lemma_jnum_uint(i + 1);
            crate::cloud::lemma_wire3_get("insert"@, jnum(i + 1), v);
        },
        OpsListOpV::Remove(i) => {
            lemma_jnum_uint(i + 1);
            crate::cloud::lemma_wire2_get("delete"@, "nth"@, jnum(i + 1));
        },
        OpsListOpV::Replace(i, v) => {
            lemma_jnum_uint(i + 1);
            crate::cloud::lemma_wire3_get("replace"@, jnum(i + 1), v);
        },
        OpsListOpV::ReplaceLast(v) => {
            crate::cloud::lemma_wire3_get("replace"@, JsonV::Str("last"@), v);
        },
        OpsListOpV::Clear => {
            crate::cloud::lemma_wire2_get("delete"@, "nth"@, JsonV::Str("all"@));
        },
    }
}


/// A value set locally is read back: after a local update of the variable
/// `name`, `name` denotes a variable of that kind holding the new value, and
/// exactly one upload is queued for it.
pub proof fn law_ops_set_then_read(st: OpsStateV, kind: VarKind, name: Seq<char>, value: JsonV)
    requires
        ops_set_spec(st, kind, name, value) is Some,
    ensures
        ({
            let t = ops_set_spec(st, kind, name, value)->Some_0.0;
            let vs = vars_of_kind(t, kind);
            &&& first_index(vs, ovar_named(name)) matches Some(i) && vs[i].value == value
            &&& t.commands.len() == st.commands.len() + 1
        }),
{
    let vs = vars_of_kind(st, kind);
    let i = first_index(vs, ovar_named(name)).unwrap();
    lemma_first_index(vs, ovar_named(name));
    let x = OpsVarV { value, ..vs[i] };
    crate::search::lemma_first_index_update(vs, ovar_named(name), i, x);
    let t = ops_set_spec(st, kind, name, value)->Some_0.0;
    assert(vars_of_kind(t, kind) == vs.update(i, x));
}


/// Ranking answers are matched to requests in the order the requests were
/// made: with two requests waiting, an answer goes to the older one, for
/// the private variable that the older request named, and the newer one
/// keeps waiting.
pub proof fn law_ops_ranking_fifo(st: OpsStateV, older: Seq<char>, newer: Seq<char>, parsed: JsonV)
    requires
        st.pending.len() == 0,
    ensures
        ({
            let s1 = OpsStateV { pending: seq![older, newer], ..st };
            let (s2, es) = ops_ranking(s1, parsed);
            &&& s2.pending == seq![newer]
            &&& es.len() <= 1
            &&& es.len() == 1 ==> (es[0] matches OpsEffectV::Ranking { name, .. } && first_index(
                st.private_variables,
                ovar_cvid(older),
            ) matches Some(i) && name == st.private_variables[i].name)
        }),
{
    let s1 = OpsStateV { pending: seq![older, newer], ..st };
    assert(s1.pending[0] == older);
    assert(s1.pending.skip(1) =~= seq![newer]);
}


/// Where each item of a list goes under each operation, position by
/// position: an append puts the value last, a prepend first, an insert at
/// its position with the later items one further; pop, shift and remove
/// take out the last, first and given item, which comes back, and close the
/// gap; a replacement changes only its position (the last one for
/// `ReplaceLast`) and reports the item it replaced; a clear leaves nothing.
/// Values that are neither numbers nor strings leave the list as it was.
pub proof fn law_ops_list_positions(items: Seq<JsonV>, op: OpsListOpV)
    ensures
        ({
            let (after, res) = ops_list_spec(items, op);
            let n = items.len();
            match op {
                OpsListOpV::Push(v) => if is_scalar(v) {
                    &&& after.len() == n + 1 && after[n as int] == v
                    &&& forall|k: int| 0 <= k < n ==> after[k] == items[k]
                } else {
                    after == items && res is Rejected
                },
                OpsListOpV::Unshift(v) => if is_scalar(v) {
                    &&& after.len() == n + 1 && after[0] == v
                    &&& forall|k: int| 0 <= k < n ==> after[k + 1] == items[k]
                } else {
                    after == items && res is Rejected
                },
                OpsListOpV::Pop => if n > 0 {
                    &&& after.len() == n - 1
                    &&& forall|k: int| 0 <= k < n - 1 ==> after[k] == items[k]
                    &&& res matches OpsResultV::Done { removed: Some(x), .. } && x == items[n - 1]
                } else {
                    after == items
                },
                OpsListOpV::Shift => if n > 0 {
                    &&& after.len() == n - 1
                    &&& forall|k: int| 0 <= k < n - 1 ==> after[k] == items[k + 1]
                    &&& res matches OpsResultV::Done { removed: Some(x), .. } && x == items[0]
                } else {
                    after == items
                },
                OpsListOpV::Insert(i, v) => if is_scalar(v) && i <= n {
                    &&& after.len() == n + 1 && after[i as int] == v
                    &&& forall|k: int| 0 <= k < i ==> after[k] == items[k]
                    &&& forall|k: int| i <= k < n ==> after[k + 1] == items[k]
                } else {
                    after == items && res is Rejected
                },
                OpsListOpV::Remove(i) => if i < n {
                    &&& after.len() == n - 1
                    &&& forall|k: int| 0 <= k < i ==> after[k] == items[k]
                    &&& forall|k: int| i <= k < n - 1 ==> after[k] == items[k + 1]
                    &&& res matches OpsResultV::Done { removed: Some(x), .. } && x == items[i as int]
                } else {
                    after == items
                },
                OpsListOpV::Replace(i, v) => if is_scalar(v) && i < n {
                    &&& after.len() == n && after[i as int] == v
                    &&& forall|k: int| 0 <= k < n && k != i ==> after[k] == items[k]
                    &&& res matches OpsResultV::Done { event: Some(ev), .. } && ev.1[0] == items[i as int]
                } else {
                    after == items && res is Rejected
                },
                OpsListOpV::ReplaceLast(v) => if is_scalar(v) && n > 0 {
                    &&& after.len() == n && after[n - 1] == v
                    &&& forall|k: int| 0 <= k < n - 1 ==> after[k] == items[k]
                    &&& res matches OpsResultV::Done { event: Some(ev), .. } && ev.1[0] == items[n - 1]
                        && ev.1[1] == v
                } else {
                    after == items && res is Rejected
                },
                OpsListOpV::Clear => after.len() == 0,
            }
        }),
{
}

/// The operations that the commands hold for the list `cvid`, in order.
pub open spec fn ops_queued_for(cs: Seq<OpsCommandV>, cvid: Seq<char>) -> Seq<JsonV>
    decreases cs.len(),
{
    if cs.len() == 0 {
        Seq::empty()
    } else {
        match cs.last() {
            OpsCommandV::ListUpdate { cvid: c, operations } => if c == cvid {
                ops_queued_for(cs.drop_last(), cvid) + operations
            } else {
                ops_queued_for(cs.drop_last(), cvid)
            },
            _ => ops_queued_for(cs.drop_last(), cvid),
        }
    }
}

/// The bodies of the variable commands of type `cmd_type`, in order.
pub open spec fn vars_queued(cs: Seq<OpsCommandV>, cmd_type: Seq<char>) -> Seq<JsonV>
    decreases cs.len(),
{
    if cs.len() == 0 {
        Seq::empty()
    } else {
        match cs.last() {
            OpsCommandV::VariableUpdate { cmd_type: t, data } => if t == cmd_type {
                vars_queued(cs.drop_last(), cmd_type).push(data)
            } else {
                vars_queued(cs.drop_last(), cmd_type)
            },
            _ => vars_queued(cs.drop_last(), cmd_type),
        }
    }
}

/// Merging the second client's queue loses nothing and sends each list once:
/// the private and public updates are the bodies queued under their command
/// types, in queue order; every cvid appears at most once among the list
/// uploads; and the operations sent for a cvid are exactly those queued for
/// it, in queue order.
pub proof fn law_ops_merge_groups(cs: Seq<OpsCommandV>)
    ensures
        ops_merge_spec(cs).private_updates == vars_queued(cs, "update_private_vars"@),
        ops_merge_spec(cs).public_updates == vars_queued(cs, "update_vars"@),
        crate::cloud::distinct_cvids(ops_merge_spec(cs).list_updates),
        forall|k: int|
            0 <= k < ops_merge_spec(cs).list_updates.len() ==> #[trigger] ops_merge_spec(cs).list_updates[k].1
                == ops_queued_for(cs, ops_merge_spec(cs).list_updates[k].0),
        forall|c: Seq<char>|
            crate::cloud::find_cvid(ops_merge_spec(cs).list_updates, c).is_none() ==> #[trigger] ops_queued_for(
                cs,
                c,
            ) == Seq::<JsonV>::empty(),
    decreases cs.len(),
{
    reveal_strlit("update_private_vars");
    reveal_strlit("update_vars");
    if cs.len() > 0 {
        let prev = cs.drop_last();
        law_ops_merge_groups(prev);
        let b = ops_merge_spec(prev);
        let ls = b.list_updates;
        let nb = ops_merge_spec(cs);
        assert(nb == ops_merge_step(b, cs.last()));
        match cs.last() {
            OpsCommandV::VariableUpdate { .. } => {
                assert("update_private_vars"@ != "update_vars"@) by {
                    assert("update_private_vars"@.len() != "update_vars"@.len());
                }
                assert(nb.list_updates == ls);
                assert forall|k: int| 0 <= k < nb.list_updates.len() implies #[trigger] nb.list_updates[k].1
                    == ops_queued_for(cs, nb.list_updates[k].0) by {
                    assert(ops_queued_for(cs, ls[k].0) == ops_queued_for(prev, ls[k].0));
                }
                assert forall|c: Seq<char>| crate::cloud::find_cvid(nb.list_updates, c).is_none() implies
                    #[trigger] ops_queued_for(cs, c) == Seq::<JsonV>::empty() by {
                    assert(ops_queued_for(cs, c) == ops_queued_for(prev, c));
                }
            },
            OpsCommandV::ListUpdate { cvid, operations } => {
                assert(nb.private_updates == b.private_updates);
                assert(nb.public_updates == b.public_updates);
                crate::cloud::lemma_find_cvid(ls, cvid);
                match crate::cloud::find_cvid(ls, cvid) {
                    Some(i) => {
                        let nls = ls.update(i, (cvid, ls[i].1 + operations));
                        assert(nb.list_updates == nls);
                        assert forall|k: int| 0 <= k < nls.len() implies #[trigger] nls[k].1 == ops_queued_for(
                            cs,
                            nls[k].0,
                        ) by {
                            if k != i {
                                assert(ls[k].0 != cvid) by {
                                    assert(ls[i].0 == cvid);
                                }
                                assert(ops_queued_for(cs, ls[k].0) == ops_queued_for(prev, ls[k].0));
                            }
                        }
                        assert forall|c: Seq<char>| crate::cloud::find_cvid(nls, c).is_none() implies
                            #[trigger] ops_queued_for(cs, c) == Seq::<JsonV>::empty() by {
                            crate::cloud::lemma_find_cvid(nls, c);
                            crate::cloud::lemma_find_cvid(ls, c);
                            if c == cvid {
                                assert(nls[i].0 == c);
                            } else {
                                if crate::cloud::find_cvid(ls, c).is_some() {
                                    let j = crate::cloud::find_cvid(ls, c).unwrap();
                                    assert(nls[j].0 == c);
                                }
                                assert(ops_queued_for(cs, c) == ops_queued_for(prev, c));
                            }
                        }
                    },
                    None => {
                        let nls = ls.push((cvid, operations));
                        assert(nb.list_updates == nls);
                        assert(ops_queued_for(prev, cvid) == Seq::<JsonV>::empty());
                        assert(ops_queued_for(cs, cvid) == operations);
                        assert forall|k: int| 0 <= k < nls.len() implies #[trigger] nls[k].1 == ops_queued_for(
                            cs,
                            nls[k].0,
                        ) by {
                            if k < ls.len() {
                                assert(nls[k] == ls[k]);
                                assert(ls[k].0 != cvid);
                                assert(ops_queued_for(cs, ls[k].0) == ops_queued_for(prev, ls[k].0));
                            } else {
                                assert(ops_queued_for(prev, cvid) + operations == operations);
                            }
                        }
                        assert forall|c: Seq<char>| crate::cloud::find_cvid(nls, c).is_none() implies
                            #[trigger] ops_queued_for(cs, c) == Seq::<JsonV>::empty() by {
                            crate::cloud::lemma_find_cvid(nls, c);
                            crate::cloud::lemma_find_cvid(ls, c);
                            if c == cvid {
                                assert(nls[ls.len() as int].0 == c);
                            } else {
                                if crate::cloud::find_cvid(ls, c).is_some() {
                                    let j = crate::cloud::find_cvid(ls, c).unwrap();
                                    assert(nls[j].0 == c);
                                }
                                assert(ops_queued_for(cs, c) == ops_queued_for(prev, c));
                            }
                        }
                        assert forall|x: int, y: int| 0 <= x < y < nls.len() implies #[trigger] nls[x].0
                            != #[trigger] nls[y].0 by {
                            if y == ls.len() {
                                assert(nls[x] == ls[x]);
                            }
                        }
                    },
                }
            },
        }
    }
}

} // verus!
