//! A store of registered callbacks with removable handles.

use vstd::prelude::*;

verus! {

/// Handle of a registered callback, used to remove it again.
#[derive(Debug, Clone, Copy, PartialEq, Eq, Structural)]
pub struct CallbackHandle(pub usize);

/// The entries of `s` whose id differs from `id`, in their order.
pub open spec fn without_id<T>(s: Seq<(usize, T)>, id: usize) -> Seq<(usize, T)>
    decreases s.len(),
{
    if s.len() == 0 {
        Seq::empty()
    } else if s.last().0 == id {
        without_id(s.drop_last(), id)
    } else {
        without_id(s.drop_last(), id).push(s.last())
    }
}

/// Callbacks in registration order, each with the id its handle carries.
/// Ids are handed out in increasing order and never reused.
pub struct CallbackStore<T> {
    pub next_id: usize,
    pub items: Vec<(usize, T)>,
}

impl<T> CallbackStore<T> {
    /// Every stored id is below the next id to hand out.
    pub open spec fn wf(&self) -> bool {
        forall|i: int| 0 <= i < self.items@.len() ==> #[trigger] self.items@[i].0 < self.next_id
    }

    /// An empty store whose first handle will carry id 0.
    pub fn new() -> (r: Self)
        ensures
            r.next_id == 0,
            r.items@.len() == 0,
            r.wf(),
    {
        CallbackStore { next_id: 0, items: Vec::new() }
    }

    /// Registers `cb` and returns its handle.
    pub fn add(&mut self, cb: T) -> (h: CallbackHandle)
        requires
            old(self).next_id < usize::MAX,
            old(self).wf(),
        ensures
            h.0 == old(self).next_id,
            final(self).next_id == old(self).next_id + 1,
            final(self).items@ == old(self).items@.push((h.0, cb)),
            final(self).wf(),
    {
        let id = self.next_id;
        self.next_id = self.next_id + 1;
        self.items.push((id, cb));
        CallbackHandle(id)
    }

    /// Removes every callback registered under `handle`.
    pub fn remove(&mut self, handle: CallbackHandle)
        requires
            old(self).wf(),
        ensures
            final(self).next_id == old(self).next_id,
            final(self).items@ == without_id(old(self).items@, handle.0),
            final(self).wf(),
    {
        let mut rest: Vec<(usize, T)> = Vec::new();
        let mut taken: Vec<(usize, T)> = Vec::new();
        std::mem::swap(&mut taken, &mut self.items);
        let ghost all = taken@;
        let mut n = taken.len();
        // walk the entries from the back so each step moves the last one
        let mut back: Vec<(usize, T)> = Vec::new();
        while n > 0
            invariant
                n == taken@.len(),
                taken@ == all.subrange(0, n as int),
                back@.len() == all.len() - n,
                forall|k: int| 0 <= k < back@.len() ==> #[trigger] back@[k] == all[all.len() - 1 - k],
            decreases n,
        {
            let e = taken.pop().unwrap();
            back.push(e);
            n = n - 1;
        }
        let mut m = back.len();
        assert(all.len() - m == 0);
        assert(all.subrange(0, 0) =~= Seq::<(usize, T)>::empty());
        while m > 0
            invariant
                m == back@.len(),
                m <= all.len(),
                forall|k: int| 0 <= k < m ==> #[trigger] back@[k] == all[all.len() - 1 - k],
                rest@ == without_id(all.subrange(0, all.len() - m), handle.0),
                forall|i: int| 0 <= i < rest@.len() ==> #[trigger] rest@[i].0 < self.next_id,
                self.next_id == old(self).next_id,
                old(self).wf(),
                all == old(self).items@,
            decreases m,
        {
            let e = back.pop().unwrap();
            proof {
                let p = all.subrange(0, all.len() - m + 1);
                assert(p.drop_last() == all.subrange(0, all.len() - m));
                assert(p.last() == all[all.len() - m]);
                assert(e == all[all.len() - m]);
            }
            if e.0 != handle.0 {
                assert(e.0 < self.next_id);
                rest.push(e);
            }
            m = m - 1;
        }
        assert(all.subrange(0, all.len() as int) == all);
        self.items = rest;
    }

    /// Takes every callback out, leaving the store empty (the caller runs them
    /// and puts them back).
    pub fn take_all(&mut self) -> (r: Vec<(usize, T)>)
        ensures
            r@ == old(self).items@,
            final(self).items@.len() == 0,
            final(self).next_id == old(self).next_id,
    {
        let mut out: Vec<(usize, T)> = Vec::new();
        std::mem::swap(&mut out, &mut self.items);
        out
    }

    /// Puts callbacks back after they ran, behind those registered meanwhile.
    pub fn restore(&mut self, cbs: Vec<(usize, T)>)
        requires
            old(self).wf(),
            forall|i: int| 0 <= i < cbs@.len() ==> #[trigger] cbs@[i].0 < old(self).next_id,
        ensures
            final(self).items@ == old(self).items@ + cbs@,
            final(self).next_id == old(self).next_id,
            final(self).wf(),
    {
        let mut cbs = cbs;
        self.items.append(&mut cbs);
    }
}


/// Removing the callbacks of `id` drops exactly the entries with that id and
/// keeps every other entry in its order; removing them a second time, or
/// removing an id that no entry has, changes nothing; and the id of a new
/// handle is one that no stored entry carries.
pub proof fn law_remove_drops_exactly<T>(s: Seq<(usize, T)>, id: usize, next_id: usize)
    ensures
        without_id(s, id) == s.filter(|e: (usize, T)| e.0 != id),
        forall|i: int| 0 <= i < without_id(s, id).len() ==> #[trigger] without_id(s, id)[i].0 != id,
        without_id(without_id(s, id), id) == without_id(s, id),
        (forall|i: int| 0 <= i < s.len() ==> #[trigger] s[i].0 != id) ==> without_id(s, id) == s,
        (forall|i: int| 0 <= i < s.len() ==> #[trigger] s[i].0 < next_id) ==> forall|i: int|
            0 <= i < s.len() ==> #[trigger] s[i].0 != next_id,
    decreases s.len(),
{
    reveal(Seq::filter);
    if s.len() > 0 {
        law_remove_drops_exactly(s.drop_last(), id, next_id);
        let r = without_id(s.drop_last(), id);
        if s.last().0 != id {
            assert(r.push(s.last()).drop_last() == r);
        }
        if forall|i: int| 0 <= i < s.len() ==> #[trigger] s[i].0 != id {
            assert forall|i: int| 0 <= i < s.drop_last().len() implies #[trigger] s.drop_last()[i].0 != id by {
                assert(s.drop_last()[i] == s[i]);
            }
            assert(s.last() == s[s.len() - 1]);
            assert(s.drop_last().push(s.last()) =~= s);
        }
    } else {
        assert(without_id(s, id) =~= s.filter(|e: (usize, T)| e.0 != id));
    }
}

} // verus!
