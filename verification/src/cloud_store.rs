//! The cloud data of a work: variables and lists by name, each also found by
//! its cvid.

use vstd::prelude::*;

use crate::cloud::{
    cvs, dup_values, execute_list_action, list_apply, list_op_args, list_op_name, list_op_wire,
    CloudValue, CloudValueV, ListAction, ListOutcome, VarKind,
};
use crate::search::{
    first_index, lemma_first_index, lemma_first_index_at, lemma_first_index_none,
    lemma_first_index_push, lemma_first_index_update,
};
use crate::text::str_eq;

verus! {

/// One cloud variable.
#[derive(Debug, Clone, PartialEq, Eq)]
pub struct VariableData {
    pub cvid: String,
    pub name: String,
    pub value: CloudValue,
}

/// One cloud list.
#[derive(Debug, Clone, PartialEq, Eq)]
pub struct ListData {
    pub cvid: String,
    pub name: String,
    pub items: Vec<CloudValue>,
}

/// The model of a variable.
pub struct VarV {
    pub cvid: Seq<char>,
    pub name: Seq<char>,
    pub value: CloudValueV,
}

/// The model of a list.
pub struct ListV {
    pub cvid: Seq<char>,
    pub name: Seq<char>,
    pub items: Seq<CloudValueV>,
}

pub open spec fn var_v(v: VariableData) -> VarV {
    VarV { cvid: v.cvid@, name: v.name@, value: v.value@ }
}

pub open spec fn list_v(l: ListData) -> ListV {
    ListV { cvid: l.cvid@, name: l.name@, items: cvs(l.items@) }
}

pub open spec fn view_vars(s: Seq<VariableData>) -> Seq<VarV> {
    s.map_values(|v: VariableData| var_v(v))
}

pub open spec fn view_lists(s: Seq<ListData>) -> Seq<ListV> {
    s.map_values(|l: ListData| list_v(l))
}

pub open spec fn view_aliases(s: Seq<(String, String)>) -> Seq<(Seq<char>, Seq<char>)> {
    s.map_values(|p: (String, String)| (p.0@, p.1@))
}

pub open spec fn var_named(name: Seq<char>) -> spec_fn(VarV) -> bool {
    |v: VarV| v.name == name
}

pub open spec fn list_named(name: Seq<char>) -> spec_fn(ListV) -> bool {
    |l: ListV| l.name == name
}

pub open spec fn alias_of(cvid: Seq<char>) -> spec_fn((Seq<char>, Seq<char>)) -> bool {
    |p: (Seq<char>, Seq<char>)| p.0 == cvid
}

/// The variable that `key` denotes: the one named `key`, else the one whose
/// cvid is `key`.
pub open spec fn resolve_var(vs: Seq<VarV>, ps: Seq<(Seq<char>, Seq<char>)>, key: Seq<char>) -> Option<
    int,
> {
    match first_index(vs, var_named(key)) {
        Some(i) => Some(i),
        None => match first_index(ps, alias_of(key)) {
            Some(j) => first_index(vs, var_named(ps[j].1)),
            None => None,
        },
    }
}

/// The list that `key` denotes: the one named `key`, else the one whose cvid
/// is `key`.
pub open spec fn resolve_list(ls: Seq<ListV>, ps: Seq<(Seq<char>, Seq<char>)>, key: Seq<char>) -> Option<
    int,
> {
    match first_index(ls, list_named(key)) {
        Some(i) => Some(i),
        None => match first_index(ps, alias_of(key)) {
            Some(j) => first_index(ls, list_named(ps[j].1)),
            None => None,
        },
    }
}

/// Records that `cvid` names `name`.
pub open spec fn upsert_alias(ps: Seq<(Seq<char>, Seq<char>)>, cvid: Seq<char>, name: Seq<char>) -> Seq<
    (Seq<char>, Seq<char>),
> {
    match first_index(ps, alias_of(cvid)) {
        Some(j) => ps.update(j, (cvid, name)),
        None => ps.push((cvid, name)),
    }
}

/// Creates a variable, or for an existing name sets its cvid and value.
pub open spec fn create_var(vs: Seq<VarV>, cvid: Seq<char>, name: Seq<char>, value: CloudValueV) -> Seq<
    VarV,
> {
    match first_index(vs, var_named(name)) {
        Some(i) => vs.update(i, VarV { cvid, name, value }),
        None => vs.push(VarV { cvid, name, value }),
    }
}

/// Creates a list, or for an existing name sets its cvid and items.
pub open spec fn create_list(
    ls: Seq<ListV>,
    cvid: Seq<char>,
    name: Seq<char>,
    items: Seq<CloudValueV>,
) -> Seq<ListV> {
    match first_index(ls, list_named(name)) {
        Some(i) => ls.update(i, ListV { cvid, name, items }),
        None => ls.push(ListV { cvid, name, items }),
    }
}

/// The model of the store.
pub struct StoreV {
    pub private_vars: Seq<VarV>,
    pub public_vars: Seq<VarV>,
    pub lists: Seq<ListV>,
    pub private_cvid: Seq<(Seq<char>, Seq<char>)>,
    pub public_cvid: Seq<(Seq<char>, Seq<char>)>,
    pub list_cvid: Seq<(Seq<char>, Seq<char>)>,
}

pub open spec fn vars_of(s: StoreV, kind: VarKind) -> Seq<VarV> {
    match kind {
        VarKind::Private => s.private_vars,
        VarKind::Public => s.public_vars,
    }
}

pub open spec fn aliases_of(s: StoreV, kind: VarKind) -> Seq<(Seq<char>, Seq<char>)> {
    match kind {
        VarKind::Private => s.private_cvid,
        VarKind::Public => s.public_cvid,
    }
}

pub open spec fn with_vars(s: StoreV, kind: VarKind, vs: Seq<VarV>) -> StoreV {
    match kind {
        VarKind::Private => StoreV { private_vars: vs, ..s },
        VarKind::Public => StoreV { public_vars: vs, ..s },
    }
}

pub open spec fn with_aliases(s: StoreV, kind: VarKind, ps: Seq<(Seq<char>, Seq<char>)>) -> StoreV {
    match kind {
        VarKind::Private => StoreV { private_cvid: ps, ..s },
        VarKind::Public => StoreV { public_cvid: ps, ..s },
    }
}

/// The variable `key` denotes, among those of `kind`.
pub open spec fn store_var(s: StoreV, kind: VarKind, key: Seq<char>) -> Option<VarV> {
    match resolve_var(vars_of(s, kind), aliases_of(s, kind), key) {
        Some(i) => Some(vars_of(s, kind)[i]),
        None => None,
    }
}

/// The list `key` denotes.
pub open spec fn store_list(s: StoreV, key: Seq<char>) -> Option<ListV> {
    match resolve_list(s.lists, s.list_cvid, key) {
        Some(i) => Some(s.lists[i]),
        None => None,
    }
}

pub open spec fn empty_store() -> StoreV {
    StoreV {
        private_vars: Seq::empty(),
        public_vars: Seq::empty(),
        lists: Seq::empty(),
        private_cvid: Seq::empty(),
        public_cvid: Seq::empty(),
        list_cvid: Seq::empty(),
    }
}

/// Variables and lists of a work.
#[derive(Debug, Clone, PartialEq, Eq)]
pub struct DataStore {
    pub private_vars: Vec<VariableData>,
    pub public_vars: Vec<VariableData>,
    pub lists: Vec<ListData>,
    pub private_cvid: Vec<(String, String)>,
    pub public_cvid: Vec<(String, String)>,
    pub list_cvid: Vec<(String, String)>,
}

impl View for DataStore {
    type V = StoreV;

    open spec fn view(&self) -> StoreV {
        StoreV {
            private_vars: view_vars(self.private_vars@),
            public_vars: view_vars(self.public_vars@),
            lists: view_lists(self.lists@),
            private_cvid: view_aliases(self.private_cvid@),
            public_cvid: view_aliases(self.public_cvid@),
            list_cvid: view_aliases(self.list_cvid@),
        }
    }
}

fn find_var(vs: &Vec<VariableData>, name: &str) -> (r: Option<usize>)
    ensures
        match r {
            Some(i) => first_index(view_vars(vs@), var_named(name@)) == Some(i as int),
            None => first_index(view_vars(vs@), var_named(name@)).is_none(),
        },
{
    let ghost m = view_vars(vs@);
    let mut i: usize = 0;
    while i < vs.len()
        invariant
            i <= vs@.len(),
            m == view_vars(vs@),
            forall|j: int| 0 <= j < i ==> !var_named(name@)(#[trigger] m[j]),
        decreases vs@.len() - i,
    {
        if str_eq(vs[i].name.as_str(), name) {
            proof {
                lemma_first_index_at(m, var_named(name@), i as int);
            }
            return Some(i);
        }
        i = i + 1;
    }
    proof {
        lemma_first_index_none(m, var_named(name@));
    }
    None
}

fn find_list(ls: &Vec<ListData>, name: &str) -> (r: Option<usize>)
    ensures
        match r {
            Some(i) => first_index(view_lists(ls@), list_named(name@)) == Some(i as int),
            None => first_index(view_lists(ls@), list_named(name@)).is_none(),
        },
{
    let ghost m = view_lists(ls@);
    let mut i: usize = 0;
    while i < ls.len()
        invariant
            i <= ls@.len(),
            m == view_lists(ls@),
            forall|j: int| 0 <= j < i ==> !list_named(name@)(#[trigger] m[j]),
        decreases ls@.len() - i,
    {
        if str_eq(ls[i].name.as_str(), name) {
            proof {
                lemma_first_index_at(m, list_named(name@), i as int);
            }
            return Some(i);
        }
        i = i + 1;
    }
    proof {
        lemma_first_index_none(m, list_named(name@));
    }
    None
}

fn find_alias(ps: &Vec<(String, String)>, cvid: &str) -> (r: Option<usize>)
    ensures
        match r {
            Some(i) => first_index(view_aliases(ps@), alias_of(cvid@)) == Some(i as int),
            None => first_index(view_aliases(ps@), alias_of(cvid@)).is_none(),
        },
{
    let ghost m = view_aliases(ps@);
    let mut i: usize = 0;
    while i < ps.len()
        invariant
            i <= ps@.len(),
            m == view_aliases(ps@),
            forall|j: int| 0 <= j < i ==> !alias_of(cvid@)(#[trigger] m[j]),
        decreases ps@.len() - i,
    {
        if str_eq(ps[i].0.as_str(), cvid) {
            proof {
                lemma_first_index_at(m, alias_of(cvid@), i as int);
            }
            return Some(i);
        }
        i = i + 1;
    }
    proof {
        lemma_first_index_none(m, alias_of(cvid@));
    }
    None
}

fn upsert(ps: &mut Vec<(String, String)>, cvid: &str, name: &str)
    ensures
        view_aliases(final(ps)@) == upsert_alias(view_aliases(old(ps)@), cvid@, name@),
{
    match find_alias(ps, cvid) {
        Some(j) => {
            proof {
                lemma_first_index(view_aliases(ps@), alias_of(cvid@));
            }
            ps.remove(j);
            ps.insert(j, (cvid.to_owned(), name.to_owned()));
            proof {
                assert(view_aliases(ps@) == view_aliases(old(ps)@).update(
                    j as int,
                    (cvid@, name@),
                ));
            }
        },
        None => {
            ps.push((cvid.to_owned(), name.to_owned()));
            proof {
                assert(view_aliases(ps@) == view_aliases(old(ps)@).push((cvid@, name@)));
            }
        },
    }
}

fn create_var_in(vs: &mut Vec<VariableData>, cvid: &str, name: &str, value: CloudValue)
    ensures
        view_vars(final(vs)@) == create_var(view_vars(old(vs)@), cvid@, name@, value@),
{
    let ghost vv = value@;
    match find_var(vs, name) {
        Some(i) => {
            proof {
                lemma_first_index(view_vars(vs@), var_named(name@));
            }
            vs.remove(i);
            vs.insert(
                i,
                VariableData { cvid: cvid.to_owned(), name: name.to_owned(), value },
            );
            proof {
                assert(view_vars(vs@) == view_vars(old(vs)@).update(
                    i as int,
                    VarV { cvid: cvid@, name: name@, value: vv },
                ));
            }
        },
        None => {
            vs.push(VariableData { cvid: cvid.to_owned(), name: name.to_owned(), value });
            proof {
                assert(view_vars(vs@) == view_vars(old(vs)@).push(
                    VarV { cvid: cvid@, name: name@, value: vv },
                ));
            }
        },
    }
}

fn replace_in(vs: &mut Vec<VariableData>, i: usize, value: CloudValue) -> (r: CloudValue)
    requires
        i < old(vs)@.len(),
    ensures
        r@ == view_vars(old(vs)@)[i as int].value,
        view_vars(final(vs)@) == view_vars(old(vs)@).update(
            i as int,
            VarV { value: value@, ..view_vars(old(vs)@)[i as int] },
        ),
{
    let ghost vv = value@;
    let old_var = vs.remove(i);
    let old_value = old_var.value;
    vs.insert(i, VariableData { cvid: old_var.cvid, name: old_var.name, value });
    proof {
        assert(view_vars(vs@) == view_vars(old(vs)@).update(
            i as int,
            VarV { value: vv, ..view_vars(old(vs)@)[i as int] },
        ));
    }
    old_value
}

impl DataStore {
    /// An empty store.
    pub fn new() -> (r: DataStore)
        ensures
            r@ == empty_store(),
    {
        let r = DataStore {
            private_vars: Vec::new(),
            public_vars: Vec::new(),
            lists: Vec::new(),
            private_cvid: Vec::new(),
            public_cvid: Vec::new(),
            list_cvid: Vec::new(),
        };
        assert(r@.private_vars =~= Seq::<VarV>::empty());
        assert(r@.public_vars =~= Seq::<VarV>::empty());
        assert(r@.lists =~= Seq::<ListV>::empty());
        assert(r@.private_cvid =~= Seq::<(Seq<char>, Seq<char>)>::empty());
        assert(r@.public_cvid =~= Seq::<(Seq<char>, Seq<char>)>::empty());
        assert(r@.list_cvid =~= Seq::<(Seq<char>, Seq<char>)>::empty());
        r
    }

    /// The index of the variable that `key` denotes.
    pub fn variable_index(&self, kind: VarKind, key: &str) -> (r: Option<usize>)
        ensures
            match r {
                Some(i) => resolve_var(vars_of(self@, kind), aliases_of(self@, kind), key@) == Some(
                    i as int,
                ),
                None => resolve_var(vars_of(self@, kind), aliases_of(self@, kind), key@).is_none(),
            },
    {
        let (vs, ps) = match kind {
            VarKind::Private => (&self.private_vars, &self.private_cvid),
            VarKind::Public => (&self.public_vars, &self.public_cvid),
        };
        match find_var(vs, key) {
            Some(i) => Some(i),
            None => match find_alias(ps, key) {
                Some(j) => {
                    proof {
                        lemma_first_index(view_aliases(ps@), alias_of(key@));
                    }
                    find_var(vs, ps[j].1.as_str())
                },
                None => None,
            },
        }
    }

    /// The variable that `key` denotes.
    pub fn variable(&self, kind: VarKind, key: &str) -> (r: Option<&VariableData>)
        ensures
            match r {
                Some(v) => store_var(self@, kind, key@) == Some(var_v(*v)),
                None => store_var(self@, kind, key@).is_none(),
            },
    {
        match self.variable_index(kind, key) {
            Some(i) => {
                proof {
                    lemma_first_index(vars_of(self@, kind), var_named(key@));
                    let ps = aliases_of(self@, kind);
                    lemma_first_index(ps, alias_of(key@));
                    match first_index(ps, alias_of(key@)) {
                        Some(j) => lemma_first_index(vars_of(self@, kind), var_named(ps[j].1)),
                        None => {},
                    }
                }
                match kind {
                    VarKind::Private => Some(&self.private_vars[i]),
                    VarKind::Public => Some(&self.public_vars[i]),
                }
            },
            None => None,
        }
    }

    /// The index of the list that `key` denotes.
    pub fn list_index(&self, key: &str) -> (r: Option<usize>)
        ensures
            match r {
                Some(i) => resolve_list(self@.lists, self@.list_cvid, key@) == Some(i as int),
                None => resolve_list(self@.lists, self@.list_cvid, key@).is_none(),
            },
    {
        match find_list(&self.lists, key) {
            Some(i) => Some(i),
            None => match find_alias(&self.list_cvid, key) {
                Some(j) => {
                    proof {
                        lemma_first_index(view_aliases(self.list_cvid@), alias_of(key@));
                    }
                    find_list(&self.lists, self.list_cvid[j].1.as_str())
                },
                None => None,
            },
        }
    }

    /// The list that `key` denotes.
    pub fn list(&self, key: &str) -> (r: Option<&ListData>)
        ensures
            match r {
                Some(l) => store_list(self@, key@) == Some(list_v(*l)),
                None => store_list(self@, key@).is_none(),
            },
    {
        match self.list_index(key) {
            Some(i) => {
                proof {
                    lemma_first_index(self@.lists, list_named(key@));
                    let ps = self@.list_cvid;
                    lemma_first_index(ps, alias_of(key@));
                    match first_index(ps, alias_of(key@)) {
                        Some(j) => lemma_first_index(self@.lists, list_named(ps[j].1)),
                        None => {},
                    }
                }
                Some(&self.lists[i])
            },
            None => None,
        }
    }

    /// Creates a variable of `kind` (or updates the one of that name) and
    /// records its cvid.
    pub fn create_variable(&mut self, kind: VarKind, cvid: &str, name: &str, value: CloudValue)
        ensures
            final(self)@ == with_aliases(
                with_vars(
                    old(self)@,
                    kind,
                    create_var(vars_of(old(self)@, kind), cvid@, name@, value@),
                ),
                kind,
                upsert_alias(aliases_of(old(self)@, kind), cvid@, name@),
            ),
    {
        match kind {
            VarKind::Private => {
                upsert(&mut self.private_cvid, cvid, name);
                create_var_in(&mut self.private_vars, cvid, name, value);
            },
            VarKind::Public => {
                upsert(&mut self.public_cvid, cvid, name);
                create_var_in(&mut self.public_vars, cvid, name, value);
            },
        }
    }

    /// Creates a list (or updates the one of that name) and records its cvid.
    pub fn create_list(&mut self, cvid: &str, name: &str, items: Vec<CloudValue>)
        ensures
            final(self)@ == (StoreV {
                lists: create_list(old(self)@.lists, cvid@, name@, cvs(items@)),
                list_cvid: upsert_alias(old(self)@.list_cvid, cvid@, name@),
                ..old(self)@
            }),
    {
        let ghost iv = cvs(items@);
        upsert(&mut self.list_cvid, cvid, name);
        match find_list(&self.lists, name) {
            Some(i) => {
                proof {
                    lemma_first_index(view_lists(self.lists@), list_named(name@));
                }
                self.lists.remove(i);
                self.lists.insert(
                    i,
                    ListData { cvid: cvid.to_owned(), name: name.to_owned(), items },
                );
                proof {
                    assert(view_lists(self.lists@) == view_lists(old(self).lists@).update(
                        i as int,
                        ListV { cvid: cvid@, name: name@, items: iv },
                    ));
                }
            },
            None => {
                self.lists.push(ListData { cvid: cvid.to_owned(), name: name.to_owned(), items });
                proof {
                    assert(view_lists(self.lists@) == view_lists(old(self).lists@).push(
                        ListV { cvid: cvid@, name: name@, items: iv },
                    ));
                }
            },
        }
    }

    /// Replaces the value of variable `i` of `kind`, returning the old value.
    pub fn replace_value(&mut self, kind: VarKind, i: usize, value: CloudValue) -> (r: CloudValue)
        requires
            i < vars_of(old(self)@, kind).len(),
        ensures
            r@ == vars_of(old(self)@, kind)[i as int].value,
            final(self)@ == with_vars(
                old(self)@,
                kind,
                vars_of(old(self)@, kind).update(
                    i as int,
                    VarV { value: value@, ..vars_of(old(self)@, kind)[i as int] },
                ),
            ),
    {
        match kind {
            VarKind::Private => replace_in(&mut self.private_vars, i, value),
            VarKind::Public => replace_in(&mut self.public_vars, i, value),
        }
    }

    /// Applies a list operation to list `i`; `None` leaves the store unchanged.
    pub fn apply_to_list(&mut self, i: usize, action: &ListAction) -> (r: Option<ListOutcome>)
        requires
            i < old(self)@.lists.len(),
        ensures
            match list_apply(old(self)@.lists[i as int].items, action@) {
                None => r.is_none() && final(self)@ == old(self)@,
                Some(new_items) => r.is_some() && final(self)@ == (StoreV {
                    lists: old(self)@.lists.update(
                        i as int,
                        ListV { items: new_items, ..old(self)@.lists[i as int] },
                    ),
                    ..old(self)@
                }) && r.unwrap().op@ == list_op_name(action@) && cvs(r.unwrap().args@)
                    == list_op_args(old(self)@.lists[i as int].items, action@)
                    && r.unwrap().wire@ == list_op_wire(action@),
            },
    {
        let mut l = self.lists.remove(i);
        let out = execute_list_action(&mut l.items, action);
        self.lists.insert(i, l);
        proof {
            assert(self.lists@ == old(self).lists@.update(i as int, l));
            assert(view_lists(self.lists@) == view_lists(old(self).lists@).update(
                i as int,
                list_v(l),
            ));
            if out.is_none() {
                assert(list_v(l) == list_v(old(self).lists@[i as int]));
                assert(view_lists(self.lists@) == view_lists(old(self).lists@));
            }
        }
        out
    }

    /// Removes all variables, lists and cvids.
    pub fn clear_all(&mut self)
        ensures
            final(self)@ == empty_store(),
    {
        self.private_vars.clear();
        self.public_vars.clear();
        self.lists.clear();
        self.private_cvid.clear();
        self.public_cvid.clear();
        self.list_cvid.clear();
        assert(self@.private_vars =~= Seq::<VarV>::empty());
        assert(self@.public_vars =~= Seq::<VarV>::empty());
        assert(self@.lists =~= Seq::<ListV>::empty());
        assert(self@.private_cvid =~= Seq::<(Seq<char>, Seq<char>)>::empty());
        assert(self@.public_cvid =~= Seq::<(Seq<char>, Seq<char>)>::empty());
        assert(self@.list_cvid =~= Seq::<(Seq<char>, Seq<char>)>::empty());
    }

    /// The name and value of every variable of `kind`.
    pub fn all_variables(&self, kind: VarKind) -> (r: Vec<(String, CloudValue)>)
        ensures
            r@.len() == vars_of(self@, kind).len(),
            forall|i: int|
                0 <= i < r@.len() ==> #[trigger] r@[i].0@ == vars_of(self@, kind)[i].name
                    && r@[i].1@ == vars_of(self@, kind)[i].value,
    {
        let vs = match kind {
            VarKind::Private => &self.private_vars,
            VarKind::Public => &self.public_vars,
        };
        let mut out: Vec<(String, CloudValue)> = Vec::new();
        let mut i: usize = 0;
        while i < vs.len()
            invariant
                i <= vs@.len(),
                view_vars(vs@) == vars_of(self@, kind),
                out@.len() == i,
                forall|k: int|
                    0 <= k < i ==> #[trigger] out@[k].0@ == vs@[k].name@ && out@[k].1@
                        == vs@[k].value@,
            decreases vs@.len() - i,
        {
            out.push((vs[i].name.clone(), vs[i].value.dup()));
            i = i + 1;
        }
        out
    }

    /// The name and items of every list.
    pub fn all_lists(&self) -> (r: Vec<(String, Vec<CloudValue>)>)
        ensures
            r@.len() == self@.lists.len(),
            forall|i: int|
                0 <= i < r@.len() ==> #[trigger] r@[i].0@ == self@.lists[i].name && cvs(r@[i].1@)
                    == self@.lists[i].items,
    {
        let mut out: Vec<(String, Vec<CloudValue>)> = Vec::new();
        let mut i: usize = 0;
        while i < self.lists.len()
            invariant
                i <= self.lists@.len(),
                out@.len() == i,
                forall|k: int|
                    0 <= k < i ==> #[trigger] out@[k].0@ == self.lists@[k].name@ && cvs(
                        out@[k].1@,
                    ) == cvs(self.lists@[k].items@),
            decreases self.lists@.len() - i,
        {
            let d = dup_values(&self.lists[i].items);
            let nm = self.lists[i].name.clone();
            let ghost prev = out@;
            out.push((nm, d));
            assert forall|k: int| 0 <= k < i + 1 implies #[trigger] out@[k].0@ == self.lists@[k].name@
                && cvs(out@[k].1@) == cvs(self.lists@[k].items@) by {
                if k < i {
                    assert(out@[k] == prev[k]);
                }
            }
            i = i + 1;
        }
        out
    }
}

/// Creating a variable and then looking up its name finds it with the
/// created cvid and value.
pub proof fn law_created_variable_found(s: StoreV, kind: VarKind, cvid: Seq<char>, name: Seq<char>, value: CloudValueV)
    ensures
        ({
            let t = with_aliases(
                with_vars(s, kind, create_var(vars_of(s, kind), cvid, name, value)),
                kind,
                upsert_alias(aliases_of(s, kind), cvid, name),
            );
            store_var(t, kind, name) == Some(VarV { cvid, name, value })
        }),
{
    let vs = vars_of(s, kind);
    let nvs = create_var(vs, cvid, name, value);
    let x = VarV { cvid, name, value };
    lemma_first_index(vs, var_named(name));
    match first_index(vs, var_named(name)) {
        Some(i) => {
            lemma_first_index_update(vs, var_named(name), i, x);
        },
        None => {
            lemma_first_index_push(vs, var_named(name), x);
        },
    }
}

} // verus!
