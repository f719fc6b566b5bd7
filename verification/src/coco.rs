//! Reorganisation of a fetched Coco work into the document layout that the
//! Coco editor opens: screens keyed by id with their widgets moved into them,
//! Blockly workspaces per screen, file and variable lists, and the fields that
//! only the server uses taken out.
//!
//! Objects are entry sequences here: an insert replaces the value of an
//! existing key in place and appends a new key; a removal drops the entry.

use vstd::prelude::*;

use crate::json::{
    entries_del, entries_put, entry_val, find_entry, find_key, jnum, jstr, lemma_find_key, lemma_view_entries,
    lemma_view_items, lemma_view_items_push, put_entry, take_entry, view_entries, view_items,
    view_json, Json, JsonV,
};
use crate::text::{dec_nat, fmt_u64, own, push_str};

verus! {

/// Why a work could not be reorganised.
#[derive(Debug, Clone, Copy, PartialEq, Eq, Structural)]
pub enum CocoError {
    /// The work document is not an object.
    WorkNotObject,
    /// An entry of `screenList` is not an object.
    ScreenNotObject,
    /// A screen has no string `id`.
    ScreenWithoutId,
}

/// An empty object.
pub open spec fn empty_obj() -> JsonV {
    JsonV::Object(Seq::empty())
}

/// An empty array.
pub open spec fn empty_arr() -> JsonV {
    JsonV::Array(Seq::empty())
}

/// The items of the array under `k`, empty where there is none.
pub open spec fn arr_field(es: Seq<(Seq<char>, JsonV)>, k: Seq<char>) -> Seq<JsonV> {
    match entry_val(es, k) {
        Some(JsonV::Array(a)) => a,
        _ => Seq::empty(),
    }
}

/// A screen with the fields it starts with in the editor: an empty snapshot,
/// no variables, the broadcast `Hi` and no widgets.
pub open spec fn screen_defaults(so: Seq<(Seq<char>, JsonV)>) -> Seq<(Seq<char>, JsonV)> {
    let a = entries_put(so, "snapshot"@, JsonV::Str(Seq::empty()));
    let b = entries_put(a, "primitiveVariables"@, empty_arr());
    let c = entries_put(b, "arrayVariables"@, empty_arr());
    let d = entries_put(c, "objectVariables"@, empty_arr());
    let e = entries_put(d, "broadcasts"@, JsonV::Array(seq![JsonV::Str("Hi"@)]));
    entries_put(e, "widgets"@, empty_obj())
}

/// Moves the widgets named by `ids` out of the widget pool `wm`: the pool that
/// is left, the widgets moved (by id), and the ids that the pool lacked.
/// Items that are not strings are passed over.
pub open spec fn move_widgets(wm: Seq<(Seq<char>, JsonV)>, ids: Seq<JsonV>) -> (
    Seq<(Seq<char>, JsonV)>,
    Seq<(Seq<char>, JsonV)>,
    Seq<JsonV>,
)
    decreases ids.len(),
{
    if ids.len() == 0 {
        (wm, Seq::empty(), Seq::empty())
    } else {
        let (m, sw, miss) = move_widgets(wm, ids.drop_last());
        match ids.last() {
            JsonV::Str(id) => match entry_val(m, id) {
                Some(w) => (entries_del(m, id), entries_put(sw, id, w), miss),
                None => (m, sw, miss.push(JsonV::Str(id))),
            },
            _ => (m, sw, miss),
        }
    }
}

/// One screen placed: the widget pool that is left, the screen's id and the
/// screen with its defaults, the widgets of `widgetIds` and
/// `invisibleWidgetIds`, and `missing_widget_ids` where some were not found.
pub open spec fn place_screen(s: JsonV, wm: Seq<(Seq<char>, JsonV)>) -> Result<
    (Seq<(Seq<char>, JsonV)>, Seq<char>, JsonV),
    CocoError,
> {
    match s {
        JsonV::Object(so) => match jstr(entry_val(so, "id"@)) {
            Some(sid) => {
                let so1 = screen_defaults(so);
                let ids = arr_field(so1, "widgetIds"@) + arr_field(so1, "invisibleWidgetIds"@);
                let (m, sw, miss) = move_widgets(wm, ids);
                let so2 = if miss.len() > 0 {
                    entries_put(so1, "missing_widget_ids"@, JsonV::Array(miss))
                } else {
                    so1
                };
                Ok((m, sid, JsonV::Object(entries_put(so2, "widgets"@, JsonV::Object(sw)))))
            },
            None => Err(CocoError::ScreenWithoutId),
        },
        _ => Err(CocoError::ScreenNotObject),
    }
}

/// All screens placed in order: the widget pool left, the screens by id and
/// the list of screen ids; the error of the first screen that fails.
pub open spec fn place_screens(list: Seq<JsonV>, wm: Seq<(Seq<char>, JsonV)>) -> Result<
    (Seq<(Seq<char>, JsonV)>, Seq<(Seq<char>, JsonV)>, Seq<JsonV>),
    CocoError,
>
    decreases list.len(),
{
    if list.len() == 0 {
        Ok((wm, Seq::empty(), Seq::empty()))
    } else {
        match place_screens(list.drop_last(), wm) {
            Err(e) => Err(e),
            Ok((m, screens, ids)) => match place_screen(list.last(), m) {
                Err(e) => Err(e),
                Ok((m2, sid, so)) => Ok(
                    (m2, entries_put(screens, sid, so), ids.push(JsonV::Str(sid))),
                ),
            },
        }
    }
}

/// The Blockly workspace of a screen.
pub open spec fn blockly_entry(sid: Seq<char>, blocks: JsonV) -> JsonV {
    JsonV::Object(
        seq![
            ("screenId"@, JsonV::Str(sid)),
            ("workspaceJson"@, blocks),
            ("workspaceOffset"@, JsonV::Object(seq![("x"@, jnum(0)), ("y"@, jnum(0))])),
        ],
    )
}

/// The Blockly workspaces of all screens of a block map.
pub open spec fn blockly_of(bm: Seq<(Seq<char>, JsonV)>) -> Seq<(Seq<char>, JsonV)>
    decreases bm.len(),
{
    if bm.len() == 0 {
        Seq::empty()
    } else {
        entries_put(blockly_of(bm.drop_last()), bm.last().0, blockly_entry(bm.last().0, bm.last().1))
    }
}

/// The values of entries, in order.
pub open spec fn entry_values(m: Seq<(Seq<char>, JsonV)>) -> Seq<JsonV> {
    m.map_values(|e: (Seq<char>, JsonV)| e.1)
}

/// The keys of entries, as string values, in order.
pub open spec fn entry_keys(m: Seq<(Seq<char>, JsonV)>) -> Seq<JsonV> {
    m.map_values(|e: (Seq<char>, JsonV)| JsonV::Str(e.0))
}

/// `w` with the list `list` holding the values of the map `map`, where `map`
/// is an object.
pub open spec fn with_file_list(w: Seq<(Seq<char>, JsonV)>, map: Seq<char>, list: Seq<char>) -> Seq<
    (Seq<char>, JsonV),
> {
    match entry_val(w, map) {
        Some(JsonV::Object(m)) => entries_put(w, list, JsonV::Array(entry_values(m))),
        _ => w,
    }
}

/// A global variable, list or dictionary of the editor.
pub open spec fn var_entry(id: Seq<char>, name: Seq<char>, v: JsonV) -> JsonV {
    JsonV::Object(
        seq![("id"@, JsonV::Str(id)), ("name"@, JsonV::Str(name)), ("defaultValue"@, v), ("value"@, v)],
    )
}

/// The variables of a variable map sorted by kind: plain values, arrays and
/// objects, each numbered from 1 within its kind.
pub open spec fn var_lists(vm: Seq<(Seq<char>, JsonV)>) -> (Seq<JsonV>, Seq<JsonV>, Seq<JsonV>)
    decreases vm.len(),
{
    if vm.len() == 0 {
        (Seq::empty(), Seq::empty(), Seq::empty())
    } else {
        let (vs, ls, ds) = var_lists(vm.drop_last());
        let id = vm.last().0;
        let v = vm.last().1;
        match v {
            JsonV::Array(_) => (vs, ls.push(var_entry(id, "列表"@ + dec_nat(ls.len() + 1), v)), ds),
            JsonV::Object(_) => (vs, ls, ds.push(var_entry(id, "字典"@ + dec_nat(ds.len() + 1), v))),
            _ => (vs.push(var_entry(id, "变量"@ + dec_nat(vs.len() + 1), v)), ls, ds),
        }
    }
}

/// `w` with the three global lists built from `variableMap`, where that is an
/// object.
pub open spec fn with_variables(w: Seq<(Seq<char>, JsonV)>) -> Seq<(Seq<char>, JsonV)> {
    match entry_val(w, "variableMap"@) {
        Some(JsonV::Object(vm)) => {
            let (vs, ls, ds) = var_lists(vm);
            entries_put(
                entries_put(
                    entries_put(w, "globalVariableList"@, JsonV::Array(vs)),
                    "globalArrayList"@,
                    JsonV::Array(ls),
                ),
                "globalObjectList"@,
                JsonV::Array(ds),
            )
        },
        _ => w,
    }
}

/// The fields that only the server uses.
pub open spec fn server_keys() -> Seq<Seq<char>> {
    seq![
        "apiToken"@,
        "blockCode"@,
        "blockJsonMap"@,
        "fontFileMap"@,
        "gridMap"@,
        "iconFileMap"@,
        "id"@,
        "imageFileMap"@,
        "initialScreenId"@,
        "screenList"@,
        "soundFileMap"@,
        "variableMap"@,
        "widgetMap"@,
    ]
}

/// `w` with the keys `ks` removed, one after the other.
pub open spec fn del_all(w: Seq<(Seq<char>, JsonV)>, ks: Seq<Seq<char>>) -> Seq<(Seq<char>, JsonV)>
    decreases ks.len(),
{
    if ks.len() == 0 {
        w
    } else {
        entries_del(del_all(w, ks.drop_last()), ks.last())
    }
}

/// The steps after the screens are placed: screens, ids and pool stored,
/// workspaces, file lists, variables, global widgets, the source fields, and
/// the server fields taken out.
pub open spec fn finish(
    w3: Seq<(Seq<char>, JsonV)>,
    wm: Seq<(Seq<char>, JsonV)>,
    screens: Seq<(Seq<char>, JsonV)>,
    ids: Seq<JsonV>,
) -> Seq<(Seq<char>, JsonV)> {
    let w4 = entries_put(
        entries_put(entries_put(w3, "screens"@, JsonV::Object(screens)), "screenIds"@, JsonV::Array(ids)),
        "widgetMap"@,
        JsonV::Object(wm),
    );
    let w5 = match entry_val(w4, "blockJsonMap"@) {
        Some(JsonV::Object(bm)) => entries_put(w4, "blockly"@, JsonV::Object(blockly_of(bm))),
        _ => w4,
    };
    let w6 = with_file_list(
        with_file_list(
            with_file_list(with_file_list(w5, "imageFileMap"@, "imageFileList"@), "soundFileMap"@, "soundFileList"@),
            "iconFileMap"@,
            "iconFileList"@,
        ),
        "fontFileMap"@,
        "fontFileList"@,
    );
    let w7 = with_variables(w6);
    let w8 = entries_put(
        w7,
        "globalWidgets"@,
        match entry_val(w7, "widgetMap"@) {
            Some(x) => x,
            None => empty_obj(),
        },
    );
    let w9 = entries_put(
        w8,
        "globalWidgetIds"@,
        JsonV::Array(
            match entry_val(w8, "widgetMap"@) {
                Some(JsonV::Object(m)) => entry_keys(m),
                _ => Seq::empty(),
            },
        ),
    );
    let w10 = entries_put(entries_put(w9, "sourceTag"@, jnum(1)), "sourceId"@, JsonV::Str(Seq::empty()));
    del_all(w10, server_keys())
}

/// The reorganised work, by author and title.
pub open spec fn reorganized(work: JsonV, author: JsonV, title: Seq<char>) -> Result<JsonV, CocoError> {
    match work {
        JsonV::Object(w0) => {
            let wm0 = match entry_val(w0, "widgetMap"@) {
                Some(JsonV::Object(m)) => m,
                _ => Seq::empty(),
            };
            let w1 = entries_del(w0, "widgetMap"@);
            let sl = arr_field(w1, "screenList"@);
            let w2 = entries_del(w1, "screenList"@);
            let w3 = entries_put(entries_put(w2, "authorId"@, author), "title"@, JsonV::Str(title));
            match place_screens(sl, wm0) {
                Err(e) => Err(e),
                Ok((wm, screens, ids)) => Ok(JsonV::Object(finish(w3, wm, screens, ids))),
            }
        },
        _ => Err(CocoError::WorkNotObject),
    }
}

/// The value under `k`, borrowed.
fn get_entry<'a>(es: &'a Vec<(String, Json)>, k: &str) -> (r: Option<&'a Json>)
    ensures
        match r {
            Some(x) => entry_val(view_entries(es@), k@) == Some(x@),
            None => entry_val(view_entries(es@), k@).is_none(),
        },
{
    match find_entry(es, k) {
        Some(i) => {
            proof {
                lemma_find_key(view_entries(es@), k@);
                lemma_view_entries(es@);
            }
            Some(&es[i].1)
        },
        None => None,
    }
}

/// A copy of the items of an array.
fn clone_items(a: &Vec<Json>) -> (r: Vec<Json>)
    ensures
        view_items(r@) == view_items(a@),
{
    proof {
        lemma_view_items(a@);
    }
    let mut out: Vec<Json> = Vec::new();
    let mut i: usize = 0;
    while i < a.len()
        invariant
            i <= a@.len(),
            view_items(a@).len() == a@.len(),
            forall|j: int| 0 <= j < a@.len() ==> #[trigger] view_items(a@)[j] == view_json(a@[j]),
            view_items(out@) == view_items(a@).subrange(0, i as int),
        decreases a@.len() - i,
    {
        let c = a[i].deep_clone();
        proof {
            lemma_view_items_push(out@, c);
        }
        out.push(c);
        assert(view_items(a@).subrange(0, i + 1) == view_items(a@).subrange(0, i as int).push(
            view_items(a@)[i as int],
        ));
        i = i + 1;
    }
    assert(view_items(a@).subrange(0, a@.len() as int) == view_items(a@));
    out
}

/// A copy of the items of the array under `k` ([`arr_field`]).
fn arr_field_of(es: &Vec<(String, Json)>, k: &str) -> (r: Vec<Json>)
    ensures
        view_items(r@) == arr_field(view_entries(es@), k@),
{
    match get_entry(es, k) {
        Some(Json::Array(a)) => clone_items(a),
        _ => {
            let r: Vec<Json> = Vec::new();
            assert(view_items(r@) == Seq::<JsonV>::empty());
            r
        },
    }
}

/// An empty array value.
fn new_array() -> (r: Json)
    ensures
        r@ == empty_arr(),
{
    let v: Vec<Json> = Vec::new();
    assert(view_items(v@) == Seq::<JsonV>::empty());
    Json::Array(v)
}

/// An empty object value.
fn new_object() -> (r: Json)
    ensures
        r@ == empty_obj(),
{
    let v: Vec<(String, Json)> = Vec::new();
    assert(view_entries(v@) == Seq::<(Seq<char>, JsonV)>::empty());
    Json::Object(v)
}

/// Inserts `v` under the key `k`.
fn put(es: &mut Vec<(String, Json)>, k: &str, v: Json)
    ensures
        view_entries(final(es)@) == entries_put(view_entries(old(es)@), k@, v@),
{
    put_entry(es, own(k), v);
}

/// Removes the key `k`.
fn del(es: &mut Vec<(String, Json)>, k: &str)
    ensures
        view_entries(final(es)@) == entries_del(view_entries(old(es)@), k@),
{
    let _ = take_entry(es, k);
}

/// Gives a screen its default fields ([`screen_defaults`]).
fn add_screen_defaults(so: &mut Vec<(String, Json)>)
    ensures
        view_entries(final(so)@) == screen_defaults(view_entries(old(so)@)),
{
    let ghost s0 = view_entries(so@);
    let e = Json::Str(String::new());
    assert(e@ == JsonV::Str(Seq::empty()));
    put(so, "snapshot", e);
    put(so, "primitiveVariables", new_array());
    put(so, "arrayVariables", new_array());
    put(so, "objectVariables", new_array());
    let hi = Json::from_str("Hi");
    let ghost hv = hi@;
    let mut b: Vec<Json> = Vec::new();
    proof {
        lemma_view_items_push(b@, hi);
    }
    b.push(hi);
    assert(view_items(b@) == seq![hv]);
    let ba = Json::Array(b);
    assert(ba@ == JsonV::Array(seq![JsonV::Str("Hi"@)]));
    put(so, "broadcasts", ba);
    put(so, "widgets", new_object());
}

/// Moves the widgets named by `ids` out of the pool `wm` ([`move_widgets`]);
/// the widgets moved and the ids not found come back.
fn move_widgets_out(wm: &mut Vec<(String, Json)>, ids: &Vec<Json>) -> (r: (Vec<(String, Json)>, Vec<Json>))
    ensures
        (view_entries(final(wm)@), view_entries(r.0@), view_items(r.1@)) == move_widgets(
            view_entries(old(wm)@),
            view_items(ids@),
        ),
{
    let ghost wm0 = view_entries(wm@);
    proof {
        lemma_view_items(ids@);
    }
    let ghost iv = view_items(ids@);
    let mut sw: Vec<(String, Json)> = Vec::new();
    let mut miss: Vec<Json> = Vec::new();
    let mut i: usize = 0;
    assert(view_entries(sw@) == Seq::<(Seq<char>, JsonV)>::empty());
    assert(view_items(miss@) == Seq::<JsonV>::empty());
    assert(iv.subrange(0, 0) == Seq::<JsonV>::empty());
    while i < ids.len()
        invariant
            i <= ids@.len(),
            iv == view_items(ids@),
            iv.len() == ids@.len(),
            forall|j: int| 0 <= j < ids@.len() ==> #[trigger] iv[j] == view_json(ids@[j]),
            (view_entries(wm@), view_entries(sw@), view_items(miss@)) == move_widgets(
                wm0,
                iv.subrange(0, i as int),
            ),
        decreases ids@.len() - i,
    {
        let ghost t = iv.subrange(0, i + 1);
        assert(t.drop_last() == iv.subrange(0, i as int));
        assert(t.last() == iv[i as int]);
        match &ids[i] {
            Json::Str(id) => {
                match take_entry(wm, id.as_str()) {
                    Some(w) => {
                        put_entry(&mut sw, id.clone(), w);
                    },
                    None => {
                        let m = Json::Str(id.clone());
                        proof {
                            lemma_view_items_push(miss@, m);
                        }
                        miss.push(m);
                    },
                }
            },
            _ => {},
        }
        i = i + 1;
    }
    assert(iv.subrange(0, ids@.len() as int) == iv);
    (sw, miss)
}

/// Places one screen ([`place_screen`]): its id and the placed screen come
/// back, and `wm` is the pool that is left.
fn place_one_screen(s: Json, wm: &mut Vec<(String, Json)>) -> (r: Result<(String, Json), CocoError>)
    ensures
        match place_screen(s@, view_entries(old(wm)@)) {
            Ok((m, sid, so)) => r matches Ok(x) && x.0@ == sid && x.1@ == so && view_entries(final(wm)@)
                == m,
            Err(e) => r == Err::<(String, Json), CocoError>(e),
        },
{
    match s {
        Json::Object(mut so) => {
            let sid = match get_entry(&so, "id") {
                Some(Json::Str(t)) => t.clone(),
                _ => {
                    return Err(CocoError::ScreenWithoutId);
                },
            };
            add_screen_defaults(&mut so);
            let mut ids = arr_field_of(&so, "widgetIds");
            let inv = arr_field_of(&so, "invisibleWidgetIds");
            let ghost a = view_items(ids@);
            let ghost b = view_items(inv@);
            let mut k: usize = 0;
            proof {
                lemma_view_items(inv@);
                lemma_view_items(ids@);
            }
            while k < inv.len()
                invariant
                    k <= inv@.len(),
                    b == view_items(inv@),
                    b.len() == inv@.len(),
                    forall|j: int| 0 <= j < inv@.len() ==> #[trigger] b[j] == view_json(inv@[j]),
                    view_items(ids@) == a + b.subrange(0, k as int),
                decreases inv@.len() - k,
            {
                let c = inv[k].deep_clone();
                proof {
                    lemma_view_items_push(ids@, c);
                }
                ids.push(c);
                assert(b.subrange(0, k + 1) == b.subrange(0, k as int).push(b[k as int]));
                assert(a + b.subrange(0, k + 1) == (a + b.subrange(0, k as int)).push(b[k as int]));
                k = k + 1;
            }
            assert(b.subrange(0, inv@.len() as int) == b);
            let (sw, miss) = move_widgets_out(wm, &ids);
            if miss.len() > 0 {
                put(&mut so, "missing_widget_ids", Json::Array(miss));
            }
            put(&mut so, "widgets", Json::Object(sw));
            Ok((sid, Json::Object(so)))
        },
        _ => Err(CocoError::ScreenNotObject),
    }
}

/// Places all screens of `list` ([`place_screens`]).
fn place_all_screens(list: &Vec<Json>, wm: &mut Vec<(String, Json)>) -> (r: Result<
    (Vec<(String, Json)>, Vec<Json>),
    CocoError,
>)
    ensures
        match place_screens(view_items(list@), view_entries(old(wm)@)) {
            Ok((m, screens, ids)) => r matches Ok(x) && view_entries(x.0@) == screens && view_items(
                x.1@,
            ) == ids && view_entries(final(wm)@) == m,
            Err(e) => r == Err::<(Vec<(String, Json)>, Vec<Json>), CocoError>(e),
        },
{
    let ghost wm0 = view_entries(wm@);
    proof {
        lemma_view_items(list@);
    }
    let ghost lv = view_items(list@);
    let mut screens: Vec<(String, Json)> = Vec::new();
    let mut ids: Vec<Json> = Vec::new();
    let mut i: usize = 0;
    assert(view_entries(screens@) == Seq::<(Seq<char>, JsonV)>::empty());
    assert(view_items(ids@) == Seq::<JsonV>::empty());
    assert(lv.subrange(0, 0) == Seq::<JsonV>::empty());
    while i < list.len()
        invariant
            i <= list@.len(),
            lv == view_items(list@),
            wm0 == view_entries(old(wm)@),
            lv.len() == list@.len(),
            forall|j: int| 0 <= j < list@.len() ==> #[trigger] lv[j] == view_json(list@[j]),
            place_screens(lv.subrange(0, i as int), wm0) == Ok::<
                (Seq<(Seq<char>, JsonV)>, Seq<(Seq<char>, JsonV)>, Seq<JsonV>),
                CocoError,
            >((view_entries(wm@), view_entries(screens@), view_items(ids@))),
        decreases list@.len() - i,
    {
        let ghost t = lv.subrange(0, i + 1);
        assert(t.drop_last() == lv.subrange(0, i as int));
        assert(t.last() == lv[i as int]);
        let s = list[i].deep_clone();
        match place_one_screen(s, wm) {
            Ok((sid, so)) => {
                let idv = Json::Str(sid.clone());
                proof {
                    lemma_view_items_push(ids@, idv);
                }
                ids.push(idv);
                put_entry(&mut screens, sid, so);
            },
            Err(e) => {
                proof {
                    assert(place_screens(t, wm0) == Err::<
                        (Seq<(Seq<char>, JsonV)>, Seq<(Seq<char>, JsonV)>, Seq<JsonV>),
                        CocoError,
                    >(e));
                    assert(lv.subrange(0, list@.len() as int) == lv);
                    lemma_place_screens_err(lv, wm0, i as int + 1, e);
                }
                return Err(e);
            },
        }
        i = i + 1;
    }
    assert(lv.subrange(0, list@.len() as int) == lv);
    Ok((screens, ids))
}

/// Once a prefix of the screens fails, the whole list fails the same way.
proof fn lemma_place_screens_err(
    list: Seq<JsonV>,
    wm: Seq<(Seq<char>, JsonV)>,
    n: int,
    e: CocoError,
)
    requires
        0 <= n <= list.len(),
        place_screens(list.subrange(0, n), wm) == Err::<
            (Seq<(Seq<char>, JsonV)>, Seq<(Seq<char>, JsonV)>, Seq<JsonV>),
            CocoError,
        >(e),
    ensures
        place_screens(list, wm) == Err::<
            (Seq<(Seq<char>, JsonV)>, Seq<(Seq<char>, JsonV)>, Seq<JsonV>),
            CocoError,
        >(e),
    decreases list.len() - n,
{
    if n < list.len() {
        let t = list.subrange(0, n + 1);
        assert(t.drop_last() == list.subrange(0, n));
        lemma_place_screens_err(list, wm, n + 1, e);
    } else {
        assert(list.subrange(0, n) == list);
    }
}

/// The Blockly workspaces of a block map ([`blockly_of`]).
fn blockly_from(bm: &Vec<(String, Json)>) -> (r: Vec<(String, Json)>)
    ensures
        view_entries(r@) == blockly_of(view_entries(bm@)),
{
    proof {
        lemma_view_entries(bm@);
    }
    let ghost bv = view_entries(bm@);
    let mut out: Vec<(String, Json)> = Vec::new();
    let mut i: usize = 0;
    assert(view_entries(out@) == Seq::<(Seq<char>, JsonV)>::empty());
    while i < bm.len()
        invariant
            i <= bm@.len(),
            bv == view_entries(bm@),
            bv.len() == bm@.len(),
            forall|j: int| 0 <= j < bm@.len() ==> #[trigger] bv[j] == (bm@[j].0@, view_json(bm@[j].1)),
            view_entries(out@) == blockly_of(bv.subrange(0, i as int)),
        decreases bm@.len() - i,
    {
        let ghost t = bv.subrange(0, i + 1);
        assert(t.drop_last() == bv.subrange(0, i as int));
        assert(t.last() == bv[i as int]);
        let sid = &bm[i].0;
        let mut off: Vec<(String, Json)> = Vec::new();
        put(&mut off, "x", Json::from_u64(0));
        put(&mut off, "y", Json::from_u64(0));
        let mut ws: Vec<(String, Json)> = Vec::new();
        put(&mut ws, "screenId", Json::Str(sid.clone()));
        put(&mut ws, "workspaceJson", bm[i].1.deep_clone());
        put(&mut ws, "workspaceOffset", Json::Object(off));
        proof {
            reveal_strlit("x");
            reveal_strlit("y");
            reveal_strlit("screenId");
            reveal_strlit("workspaceJson");
            reveal_strlit("workspaceOffset");
            assert("x"@[0] != "y"@[0]);
            assert("screenId"@[0] != "workspaceJson"@[0]);
            assert("screenId"@[0] != "workspaceOffset"@[0]);
            assert("workspaceJson"@.len() != "workspaceOffset"@.len());
            lemma_entries_put3(
                "screenId"@,
                JsonV::Str(sid@),
                "workspaceJson"@,
                bv[i as int].1,
                "workspaceOffset"@,
                JsonV::Object(seq![("x"@, jnum(0)), ("y"@, jnum(0))]),
            );
            lemma_entries_put2("x"@, jnum(0), "y"@, jnum(0));
        }
        put_entry(&mut out, sid.clone(), Json::Object(ws));
        i = i + 1;
    }
    assert(bv.subrange(0, bm@.len() as int) == bv);
    out
}

/// Two inserts of distinct keys into an empty object.
proof fn lemma_entries_put2(k1: Seq<char>, v1: JsonV, k2: Seq<char>, v2: JsonV)
    requires
        k1 != k2,
    ensures
        entries_put(entries_put(Seq::empty(), k1, v1), k2, v2) == seq![(k1, v1), (k2, v2)],
{
    crate::json::lemma_find_key_none(Seq::<(Seq<char>, JsonV)>::empty(), k1);
    crate::json::lemma_find_key_none(seq![(k1, v1)], k2);
    assert(Seq::<(Seq<char>, JsonV)>::empty().push((k1, v1)) == seq![(k1, v1)]);
    assert(seq![(k1, v1)].push((k2, v2)) == seq![(k1, v1), (k2, v2)]);
}

/// Three inserts of distinct keys into an empty object.
proof fn lemma_entries_put3(k1: Seq<char>, v1: JsonV, k2: Seq<char>, v2: JsonV, k3: Seq<char>, v3: JsonV)
    requires
        k1 != k2,
        k1 != k3,
        k2 != k3,
    ensures
        entries_put(entries_put(entries_put(Seq::empty(), k1, v1), k2, v2), k3, v3) == seq![
            (k1, v1),
            (k2, v2),
            (k3, v3),
        ],
{
    lemma_entries_put2(k1, v1, k2, v2);
    let two = seq![(k1, v1), (k2, v2)];
    assert forall|j: int| 0 <= j < 2 implies #[trigger] two[j].0 != k3 by {}
    crate::json::lemma_find_key_none(two, k3);
    assert(seq![(k1, v1), (k2, v2)].push((k3, v3)) == seq![(k1, v1), (k2, v2), (k3, v3)]);
}

/// Copies of the values of entries ([`entry_values`]).
fn values_of(m: &Vec<(String, Json)>) -> (r: Vec<Json>)
    ensures
        view_items(r@) == entry_values(view_entries(m@)),
{
    proof {
        lemma_view_entries(m@);
    }
    let ghost mv = view_entries(m@);
    let mut out: Vec<Json> = Vec::new();
    let mut i: usize = 0;
    assert(view_items(out@) == Seq::<JsonV>::empty());
    while i < m.len()
        invariant
            i <= m@.len(),
            mv == view_entries(m@),
            mv.len() == m@.len(),
            forall|j: int| 0 <= j < m@.len() ==> #[trigger] mv[j] == (m@[j].0@, view_json(m@[j].1)),
            view_items(out@) == entry_values(mv).subrange(0, i as int),
        decreases m@.len() - i,
    {
        let c = m[i].1.deep_clone();
        proof {
            lemma_view_items_push(out@, c);
        }
        out.push(c);
        assert(entry_values(mv).subrange(0, i + 1) == entry_values(mv).subrange(0, i as int).push(
            mv[i as int].1,
        ));
        i = i + 1;
    }
    assert(entry_values(mv).subrange(0, m@.len() as int) == entry_values(mv));
    out
}

/// The keys of entries as string values ([`entry_keys`]).
fn keys_of(m: &Vec<(String, Json)>) -> (r: Vec<Json>)
    ensures
        view_items(r@) == entry_keys(view_entries(m@)),
{
    proof {
        lemma_view_entries(m@);
    }
    let ghost mv = view_entries(m@);
    let mut out: Vec<Json> = Vec::new();
    let mut i: usize = 0;
    assert(view_items(out@) == Seq::<JsonV>::empty());
    while i < m.len()
        invariant
            i <= m@.len(),
            mv == view_entries(m@),
            mv.len() == m@.len(),
            forall|j: int| 0 <= j < m@.len() ==> #[trigger] mv[j] == (m@[j].0@, view_json(m@[j].1)),
            view_items(out@) == entry_keys(mv).subrange(0, i as int),
        decreases m@.len() - i,
    {
        let c = Json::Str(m[i].0.clone());
        proof {
            lemma_view_items_push(out@, c);
        }
        out.push(c);
        assert(entry_keys(mv).subrange(0, i + 1) == entry_keys(mv).subrange(0, i as int).push(
            JsonV::Str(mv[i as int].0),
        ));
        i = i + 1;
    }
    assert(entry_keys(mv).subrange(0, m@.len() as int) == entry_keys(mv));
    out
}

/// Adds the list `list` of the values of the map `map` ([`with_file_list`]).
fn add_file_list(w: &mut Vec<(String, Json)>, map: &str, list: &str)
    ensures
        view_entries(final(w)@) == with_file_list(view_entries(old(w)@), map@, list@),
{
    let vals = match get_entry(w, map) {
        Some(Json::Object(m)) => Some(values_of(m)),
        _ => None,
    };
    match vals {
        Some(v) => put(w, list, Json::Array(v)),
        None => {},
    }
}

/// A global variable entry ([`var_entry`]).
fn make_var(id: &String, name: String, v: &Json) -> (r: Json)
    ensures
        r@ == var_entry(id@, name@, v@),
{
    let mut es: Vec<(String, Json)> = Vec::new();
    let e1 = (own("id"), Json::Str(id.clone()));
    proof {
        crate::json::lemma_view_entries_push(es@, e1);
    }
    es.push(e1);
    let e2 = (own("name"), Json::Str(name));
    proof {
        crate::json::lemma_view_entries_push(es@, e2);
    }
    es.push(e2);
    let e3 = (own("defaultValue"), v.deep_clone());
    proof {
        crate::json::lemma_view_entries_push(es@, e3);
    }
    es.push(e3);
    let e4 = (own("value"), v.deep_clone());
    proof {
        crate::json::lemma_view_entries_push(es@, e4);
    }
    es.push(e4);
    assert(view_entries(es@) == seq![("id"@, JsonV::Str(id@)), ("name"@, JsonV::Str(name@)), (
        "defaultValue"@,
        v@,
    ), ("value"@, v@)]);
    Json::Object(es)
}

/// `prefix` followed by the decimal text of `n`.
fn numbered(prefix: &str, n: usize) -> (r: String)
    ensures
        r@ == prefix@ + dec_nat(n as nat),
{
    let mut s = own(prefix);
    let t = fmt_u64(n as u64);
    push_str(&mut s, t.as_str());
    s
}

/// The three variable lists of a variable map ([`var_lists`]).
fn variable_lists(vm: &Vec<(String, Json)>) -> (r: (Vec<Json>, Vec<Json>, Vec<Json>))
    ensures
        (view_items(r.0@), view_items(r.1@), view_items(r.2@)) == var_lists(view_entries(vm@)),
{
    proof {
        lemma_view_entries(vm@);
    }
    let ghost mv = view_entries(vm@);
    let mut vs: Vec<Json> = Vec::new();
    let mut ls: Vec<Json> = Vec::new();
    let mut ds: Vec<Json> = Vec::new();
    let mut i: usize = 0;
    assert(view_items(vs@) == Seq::<JsonV>::empty());
    assert(view_items(ls@) == Seq::<JsonV>::empty());
    assert(view_items(ds@) == Seq::<JsonV>::empty());
    assert(mv.subrange(0, 0) == Seq::<(Seq<char>, JsonV)>::empty());
    while i < vm.len()
        invariant
            i <= vm@.len(),
            mv == view_entries(vm@),
            mv.len() == vm@.len(),
            forall|j: int| 0 <= j < vm@.len() ==> #[trigger] mv[j] == (vm@[j].0@, view_json(vm@[j].1)),
            (view_items(vs@), view_items(ls@), view_items(ds@)) == var_lists(
                mv.subrange(0, i as int),
            ),
            vs@.len() <= i,
            ls@.len() <= i,
            ds@.len() <= i,
        decreases vm@.len() - i,
    {
        let ghost t = mv.subrange(0, i + 1);
        assert(t.drop_last() == mv.subrange(0, i as int));
        assert(t.last() == mv[i as int]);
        proof {
            lemma_view_items(vs@);
            lemma_view_items(ls@);
            lemma_view_items(ds@);
        }
        match &vm[i].1 {
            Json::Array(_) => {
                let name = numbered("列表", ls.len() + 1);
                let e = make_var(&vm[i].0, name, &vm[i].1);
                proof {
                    lemma_view_items_push(ls@, e);
                }
                ls.push(e);
            },
            Json::Object(_) => {
                let name = numbered("字典", ds.len() + 1);
                let e = make_var(&vm[i].0, name, &vm[i].1);
                proof {
                    lemma_view_items_push(ds@, e);
                }
                ds.push(e);
            },
            _ => {
                let name = numbered("变量", vs.len() + 1);
                let e = make_var(&vm[i].0, name, &vm[i].1);
                proof {
                    lemma_view_items_push(vs@, e);
                }
                vs.push(e);
            },
        }
        i = i + 1;
    }
    assert(mv.subrange(0, vm@.len() as int) == mv);
    (vs, ls, ds)
}

/// Adds the global variable lists ([`with_variables`]).
fn add_variables(w: &mut Vec<(String, Json)>)
    ensures
        view_entries(final(w)@) == with_variables(view_entries(old(w)@)),
{
    let lists = match get_entry(w, "variableMap") {
        Some(Json::Object(vm)) => Some(variable_lists(vm)),
        _ => None,
    };
    match lists {
        Some((vs, ls, ds)) => {
            put(w, "globalVariableList", Json::Array(vs));
            put(w, "globalArrayList", Json::Array(ls));
            put(w, "globalObjectList", Json::Array(ds));
        },
        None => {},
    }
}

/// Takes the server fields out ([`del_all`] of [`server_keys`]).
fn strip_server_fields(w: &mut Vec<(String, Json)>)
    ensures
        view_entries(final(w)@) == del_all(view_entries(old(w)@), server_keys()),
{
    let ghost w0 = view_entries(w@);
    del(w, "apiToken");
    del(w, "blockCode");
    del(w, "blockJsonMap");
    del(w, "fontFileMap");
    del(w, "gridMap");
    del(w, "iconFileMap");
    del(w, "id");
    del(w, "imageFileMap");
    del(w, "initialScreenId");
    del(w, "screenList");
    del(w, "soundFileMap");
    del(w, "variableMap");
    del(w, "widgetMap");
    proof {
        reveal_with_fuel(del_all, 14);
    }
}

/// The steps after the screens are placed ([`finish`]).
fn finish_work(w: &mut Vec<(String, Json)>, wm: Vec<(String, Json)>, screens: Vec<(String, Json)>, ids: Vec<Json>)
    ensures
        view_entries(final(w)@) == finish(view_entries(old(w)@), view_entries(wm@), view_entries(screens@), view_items(ids@)),
{
    put(w, "screens", Json::Object(screens));
    put(w, "screenIds", Json::Array(ids));
    put(w, "widgetMap", Json::Object(wm));
    let blockly = match get_entry(w, "blockJsonMap") {
        Some(Json::Object(bm)) => Some(blockly_from(bm)),
        _ => None,
    };
    match blockly {
        Some(b) => put(w, "blockly", Json::Object(b)),
        None => {},
    }
    add_file_list(w, "imageFileMap", "imageFileList");
    add_file_list(w, "soundFileMap", "soundFileList");
    add_file_list(w, "iconFileMap", "iconFileList");
    add_file_list(w, "fontFileMap", "fontFileList");
    add_variables(w);
    let gw = match get_entry(w, "widgetMap") {
        Some(x) => x.deep_clone(),
        None => new_object(),
    };
    put(w, "globalWidgets", gw);
    let gids = match get_entry(w, "widgetMap") {
        Some(Json::Object(m)) => keys_of(m),
        _ => {
            let v: Vec<Json> = Vec::new();
            assert(view_items(v@) == Seq::<JsonV>::empty());
            v
        },
    };
    put(w, "globalWidgetIds", Json::Array(gids));
    put(w, "sourceTag", Json::from_u64(1));
    put(w, "sourceId", Json::Str(String::new()));
    strip_server_fields(w);
}

/// Reorganises a fetched Coco work for the editor ([`reorganized`]):
/// `author` is stored as `authorId` and `title` as `title`.
pub fn reorganize(work: Json, author: Json, title: &str) -> (r: Result<Json, CocoError>)
    ensures
        match reorganized(work@, author@, title@) {
            Ok(v) => r matches Ok(x) && x@ == v,
            Err(e) => r == Err::<Json, CocoError>(e),
        },
{
    match work {
        Json::Object(mut w) => {
            let wm0 = match take_entry(&mut w, "widgetMap") {
                Some(Json::Object(m)) => m,
                _ => {
                    let m: Vec<(String, Json)> = Vec::new();
                    assert(view_entries(m@) == Seq::<(Seq<char>, JsonV)>::empty());
                    m
                },
            };
            let sl = arr_field_of(&w, "screenList");
            del(&mut w, "screenList");
            put(&mut w, "authorId", author);
            put(&mut w, "title", Json::from_str(title));
            let mut wm = wm0;
            match place_all_screens(&sl, &mut wm) {
                Ok((screens, ids)) => {
                    finish_work(&mut w, wm, screens, ids);
                    Ok(Json::Object(w))
                },
                Err(e) => Err(e),
            }
        },
        _ => Err(CocoError::WorkNotObject),
    }
}

/// No two entries share a key, as in an object read from a document.
pub open spec fn keys_unique(es: Seq<(Seq<char>, JsonV)>) -> bool {
    forall|i: int, j: int| 0 <= i < j < es.len() ==> #[trigger] es[i].0 != #[trigger] es[j].0
}

/// Removing a key leaves the other keys' values and the uniqueness of keys,
/// and with unique keys the removed key is gone.
pub(crate) proof fn lemma_del(es: Seq<(Seq<char>, JsonV)>, k: Seq<char>, k2: Seq<char>)
    ensures
        k2 != k ==> entry_val(entries_del(es, k), k2) == entry_val(es, k2),
        keys_unique(es) ==> keys_unique(entries_del(es, k)),
        keys_unique(es) ==> entry_val(entries_del(es, k), k).is_none(),
{
    lemma_find_key(es, k);
    lemma_find_key(es, k2);
    match find_key(es, k) {
        None => {},
        Some(i) => {
            let d = es.remove(i);
            assert(forall|j: int| 0 <= j < i ==> #[trigger] d[j] == es[j]);
            assert(forall|j: int| i <= j < d.len() ==> #[trigger] d[j] == es[j + 1]);
            if k2 != k {
                match find_key(es, k2) {
                    Some(m) => {
                        if m < i {
                            crate::json::lemma_find_key_is(d, k2, m);
                        } else {
                            assert(m != i);
                            assert forall|j: int| 0 <= j < m - 1 implies #[trigger] d[j].0 != k2 by {
                                if j >= i {
                                    assert(d[j] == es[j + 1]);
                                }
                            }
                            crate::json::lemma_find_key_is(d, k2, m - 1);
                        }
                    },
                    None => {
                        assert forall|j: int| 0 <= j < d.len() implies #[trigger] d[j].0 != k2 by {
                            if j >= i {
                                assert(d[j] == es[j + 1]);
                            }
                        }
                        crate::json::lemma_find_key_none(d, k2);
                    },
                }
            }
            if keys_unique(es) {
                assert forall|a: int, b: int| 0 <= a < b < d.len() implies #[trigger] d[a].0 != #[trigger] d[b].0 by {
                    let a2 = if a < i { a } else { a + 1 };
                    let b2 = if b < i { b } else { b + 1 };
                    assert(d[a] == es[a2]);
                    assert(d[b] == es[b2]);
                    assert(es[a2].0 != es[b2].0);
                }
                assert forall|j: int| 0 <= j < d.len() implies #[trigger] d[j].0 != k by {
                    if j < i {
                        assert(es[j].0 != es[i].0);
                    } else {
                        assert(d[j] == es[j + 1]);
                        assert(es[i].0 != es[j + 1].0);
                    }
                }
                crate::json::lemma_find_key_none(d, k);
            }
        },
    }
}

/// After an insert under `k`, `k` reads the value inserted and every other
/// key reads what it read before.
proof fn lemma_put(es: Seq<(Seq<char>, JsonV)>, k: Seq<char>, v: JsonV, k2: Seq<char>)
    ensures
        entry_val(entries_put(es, k, v), k2) == (if k2 == k {
            Some(v)
        } else {
            entry_val(es, k2)
        }),
{
    crate::json::lemma_entries_put_get(es, k, v, k2);
}

/// Moving the widgets of a screen loses none and makes none up: with a
/// pool whose ids are unique, a widget is in the pool before exactly when it
/// is, with the same value, in the pool after or among the widgets moved,
/// and never in both.
pub proof fn law_widgets_kept(wm: Seq<(Seq<char>, JsonV)>, ids: Seq<JsonV>, k: Seq<char>, w: JsonV)
    requires
        keys_unique(wm),
    ensures
        ({
            let (m, sw, miss) = move_widgets(wm, ids);
            &&& entry_val(wm, k) == Some(w) <==> (entry_val(m, k) == Some(w) || entry_val(sw, k)
                == Some(w))
            &&& !(entry_val(m, k) is Some && entry_val(sw, k) is Some)
        }),
{
    lemma_move_widgets(wm, ids);
    let (m, sw, miss) = move_widgets(wm, ids);
    assert(entry_val(wm, k) == either(m, sw, k));
    assert(!(entry_val(m, k) is Some && entry_val(sw, k) is Some));
}

/// The value of `k` among the pool left and the widgets moved.
pub open spec fn either(m: Seq<(Seq<char>, JsonV)>, sw: Seq<(Seq<char>, JsonV)>, k: Seq<char>) -> Option<JsonV> {
    match entry_val(m, k) {
        Some(x) => Some(x),
        None => entry_val(sw, k),
    }
}

proof fn lemma_move_widgets(wm: Seq<(Seq<char>, JsonV)>, ids: Seq<JsonV>)
    requires
        keys_unique(wm),
    ensures
        ({
            let (m, sw, miss) = move_widgets(wm, ids);
            &&& keys_unique(m)
            &&& forall|k: Seq<char>|
                #![trigger entry_val(wm, k)]
                entry_val(wm, k) == either(m, sw, k)
            &&& forall|k: Seq<char>|
                #![trigger entry_val(m, k)]
                #![trigger entry_val(sw, k)]
                !(entry_val(m, k) is Some && entry_val(sw, k) is Some)
        }),
    decreases ids.len(),
{
    if ids.len() == 0 {
        assert forall|k: Seq<char>| #[trigger] entry_val(Seq::<(Seq<char>, JsonV)>::empty(), k).is_none() by {
            crate::json::lemma_find_key_none(Seq::<(Seq<char>, JsonV)>::empty(), k);
        }
    } else {
        lemma_move_widgets(wm, ids.drop_last());
        let (m, sw, miss) = move_widgets(wm, ids.drop_last());
        match ids.last() {
            JsonV::Str(id) => match entry_val(m, id) {
                Some(x) => {
                    let m2 = entries_del(m, id);
                    let sw2 = entries_put(sw, id, x);
                    lemma_del(m, id, id);
                    assert forall|k: Seq<char>| #![trigger entry_val(wm, k)]
                        entry_val(wm, k) == either(m2, sw2, k) by {
                        lemma_del(m, id, k);
                        lemma_put(sw, id, x, k);
                        assert(entry_val(wm, k) == either(m, sw, k));
                        assert(!(entry_val(m, k) is Some && entry_val(sw, k) is Some));
                    }
                    assert forall|k: Seq<char>|
                        #![trigger entry_val(m2, k)]
                        #![trigger entry_val(sw2, k)]
                        !(entry_val(m2, k) is Some && entry_val(sw2, k) is Some) by {
                        lemma_del(m, id, k);
                        lemma_put(sw, id, x, k);
                        assert(!(entry_val(m, k) is Some && entry_val(sw, k) is Some));
                    }
                },
                None => {},
            },
            _ => {},
        }
    }
}


/// Whether some entry of `l` is the editor record of the variable `id` with
/// value `v`: its id is `id` and both its default value and its value are
/// `v`.
pub open spec fn has_record_of(l: Seq<JsonV>, id: Seq<char>, v: JsonV) -> bool {
    exists|j: int|
        0 <= j < l.len() && (#[trigger] l[j] matches JsonV::Object(es) && es.len() == 4 && es[0] == (
            "id"@,
            JsonV::Str(id),
        ) && es[2] == ("defaultValue"@, v) && es[3] == ("value"@, v))
}

/// Every variable of the map reaches the editor's list of its kind with its
/// own value as both default and current value: an array goes to the
/// global lists, an object to the dictionaries, any other value to the
/// plain variables. Nothing else is listed: each list is as long as the
/// number of variables of its kind.
pub proof fn law_variables_keep_values(vm: Seq<(Seq<char>, JsonV)>, k: int)
    requires
        0 <= k < vm.len(),
    ensures
        ({
            let (vs, ls, ds) = var_lists(vm);
            match vm[k].1 {
                JsonV::Array(_) => has_record_of(ls, vm[k].0, vm[k].1),
                JsonV::Object(_) => has_record_of(ds, vm[k].0, vm[k].1),
                _ => has_record_of(vs, vm[k].0, vm[k].1),
            }
        }),
        var_lists(vm).0.len() + var_lists(vm).1.len() + var_lists(vm).2.len() == vm.len(),
    decreases vm.len(),
{
    let (vs, ls, ds) = var_lists(vm);
    let (vs0, ls0, ds0) = var_lists(vm.drop_last());
    if k < vm.len() - 1 {
        law_variables_keep_values(vm.drop_last(), k);
        assert(vm.drop_last()[k] == vm[k]);
        let id = vm[k].0;
        let v = vm[k].1;
        assert(forall|j: int| 0 <= j < vs0.len() ==> j < vs.len() && #[trigger] vs[j] == vs0[j]);
        assert(forall|j: int| 0 <= j < ls0.len() ==> j < ls.len() && #[trigger] ls[j] == ls0[j]);
        assert(forall|j: int| 0 <= j < ds0.len() ==> j < ds.len() && #[trigger] ds[j] == ds0[j]);
        match v {
            JsonV::Array(_) => {
                let j = choose|j: int|
                    0 <= j < ls0.len() && (#[trigger] ls0[j] matches JsonV::Object(es) && es.len() == 4 && es[0]
                        == ("id"@, JsonV::Str(id)) && es[2] == ("defaultValue"@, v) && es[3] == ("value"@, v));
                assert(ls[j] == ls0[j]);
            },
            JsonV::Object(_) => {
                let j = choose|j: int|
                    0 <= j < ds0.len() && (#[trigger] ds0[j] matches JsonV::Object(es) && es.len() == 4 && es[0]
                        == ("id"@, JsonV::Str(id)) && es[2] == ("defaultValue"@, v) && es[3] == ("value"@, v));
                assert(ds[j] == ds0[j]);
            },
            _ => {
                let j = choose|j: int|
                    0 <= j < vs0.len() && (#[trigger] vs0[j] matches JsonV::Object(es) && es.len() == 4 && es[0]
                        == ("id"@, JsonV::Str(id)) && es[2] == ("defaultValue"@, v) && es[3] == ("value"@, v));
                assert(vs[j] == vs0[j]);
            },
        }
    } else {
        if vm.len() > 1 {
            law_variables_keep_values(vm.drop_last(), 0);
        }
        let id = vm[k].0;
        let v = vm[k].1;
        assert(vm.last() == vm[k]);
        match v {
            JsonV::Array(_) => {
                let j = ls0.len() as int;
                assert(ls[j] == var_entry(id, "列表"@ + dec_nat(ls0.len() + 1), v));
            },
            JsonV::Object(_) => {
                let j = ds0.len() as int;
                assert(ds[j] == var_entry(id, "字典"@ + dec_nat(ds0.len() + 1), v));
            },
            _ => {
                let j = vs0.len() as int;
                assert(vs[j] == var_entry(id, "变量"@ + dec_nat(vs0.len() + 1), v));
            },
        }
    }
}

} // verus!
