use vstd::prelude::*;

verus! {

/// A singly linked list that also keeps track of its last node, so that
/// appending takes constant time.
///
/// Nodes live in slots: `values[s]` holds the value of the node in slot `s`
/// and `links[s]` the slot of the node after it. Slots freed by removal are
/// kept in `vacant` and used again. `order` lists the slots of the nodes
/// from front to back.
pub struct TailLinkedList<T> {
    values: Vec<Option<T>>,
    links: Vec<Option<usize>>,
    vacant: Vec<usize>,
    head: Option<usize>,
    tail: Option<usize>,
    len: usize,
    order: Ghost<Seq<usize>>,
}

impl<T> View for TailLinkedList<T> {
    type V = Seq<T>;

    /// The values of the list, front first.
    closed spec fn view(&self) -> Seq<T> {
        Seq::new(self.order@.len(), |k: int| self.values@[self.order@[k] as int]->Some_0)
    }
}

impl<T> TailLinkedList<T> {
    /// Every vacant slot is in range, empty, and listed once.
    closed spec fn vacant_ok(&self) -> bool {
        &&& forall|i: int|
            0 <= i < self.vacant@.len() ==> #[trigger] self.vacant@[i] < self.values@.len()
                && self.values@[self.vacant@[i] as int] is None
        &&& forall|i: int, j: int|
            0 <= i < j < self.vacant@.len() ==> self.vacant@[i] != self.vacant@[j]
    }

    /// The nodes in `order` are occupied, distinct, linked front to back,
    /// and `head`, `tail` and `len` agree with them.
    closed spec fn chain_ok(&self) -> bool {
        let order = self.order@;
        &&& self.values@.len() == self.links@.len()
        &&& self.len == order.len()
        &&& self.head == (if order.len() == 0 {
            None::<usize>
        } else {
            Some(order[0])
        })
        &&& self.tail == (if order.len() == 0 {
            None::<usize>
        } else {
            Some(order.last())
        })
        &&& forall|k: int|
            0 <= k < order.len() ==> #[trigger] order[k] < self.values@.len()
                && self.values@[order[k] as int] is Some
        &&& forall|k: int|
            0 <= k < order.len() - 1 ==> #[trigger] self.links@[order[k] as int] == Some(
                order[k + 1],
            )
        &&& order.len() > 0 ==> self.links@[order.last() as int] is None
        &&& forall|k1: int, k2: int| 0 <= k1 < k2 < order.len() ==> order[k1] != order[k2]
    }

    pub closed spec fn wf(&self) -> bool {
        self.chain_ok() && self.vacant_ok()
    }

    /// An empty list.
    pub fn new() -> (l: TailLinkedList<T>)
        ensures
            l.wf(),
            l@ == Seq::<T>::empty(),
    {
        TailLinkedList {
            values: Vec::new(),
            links: Vec::new(),
            vacant: Vec::new(),
            head: None,
            tail: None,
            len: 0,
            order: Ghost(Seq::empty()),
        }
    }

    pub fn len(&self) -> (r: usize)
        requires
            self.wf(),
        ensures
            r == self@.len(),
    {
        self.len
    }

    pub fn is_empty(&self) -> (r: bool)
        requires
            self.wf(),
        ensures
            r == (self@.len() == 0),
    {
        self.head.is_none()
    }

    /// Stores `value` in a slot that no node uses, linked to `next`, and
    /// returns that slot. The nodes of the list are untouched.
    fn occupy(&mut self, value: T, next: Option<usize>) -> (slot: usize)
        requires
            old(self).wf(),
        ensures
            final(self).vacant_ok(),
            final(self).values@.len() == final(self).links@.len(),
            final(self).order == old(self).order,
            final(self).head == old(self).head,
            final(self).tail == old(self).tail,
            final(self).len == old(self).len,
            old(self).values@.len() <= final(self).values@.len(),
            slot < final(self).values@.len(),
            slot >= old(self).values@.len() || old(self).values@[slot as int] is None,
            final(self).values@[slot as int] == Some(value),
            final(self).links@[slot as int] == next,
            forall|i: int|
                0 <= i < old(self).values@.len() && i != slot ==> #[trigger] final(self).values@[i]
                    == old(self).values@[i],
            forall|i: int|
                0 <= i < old(self).values@.len() && i != slot ==> #[trigger] final(self).links@[i]
                    == old(self).links@[i],
    {
        match self.vacant.pop() {
            Some(slot) => {
                assert(old(self).vacant@.contains(slot));
                self.values.set(slot, Some(value));
                self.links.set(slot, next);
                slot
            },
            None => {
                self.values.push(Some(value));
                self.links.push(next);
                self.values.len() - 1
            },
        }
    }

    /// A slot that `occupy` returned was used by no node of the list.
    proof fn lemma_fresh_slot(&self, slot: usize)
        requires
            self.chain_ok(),
            slot >= self.values@.len() || self.values@[slot as int] is None,
        ensures
            forall|k: int| 0 <= k < self.order@.len() ==> #[trigger] self.order@[k] != slot,
    {
    }

    /// Puts `value` in front of the first node.
    pub fn push_front(&mut self, value: T)
        requires
            old(self).wf(),
            old(self)@.len() < usize::MAX,
        ensures
            final(self).wf(),
            final(self)@ == seq![value] + old(self)@,
    {
        let next = self.head;
        let slot = self.occupy(value, next);
        proof {
            old(self).lemma_fresh_slot(slot);
        }
        self.head = Some(slot);
        if self.tail.is_none() {
            self.tail = Some(slot);
        }
        self.len = self.len + 1;
        self.order = Ghost(seq![slot] + old(self).order@);
        let ghost o0 = old(self).order@;
        let ghost o = self.order@;
        assert forall|k: int| 0 <= k < o.len() implies #[trigger] o[k] < self.values@.len()
            && self.values@[o[k] as int] == if k == 0 {
            Some(value)
        } else {
            old(self).values@[o0[k - 1] as int]
        } by {
            if k > 0 {
                assert(o[k] == o0[k - 1]);
                assert(o0[k - 1] != slot);
                assert(o0[k - 1] < old(self).values@.len());
                assert(self.values@[o0[k - 1] as int] == old(self).values@[o0[k - 1] as int]);
            }
        }
        assert forall|k: int| 0 <= k < o.len() - 1 implies #[trigger] self.links@[o[k] as int]
            == Some(o[k + 1]) by {
            if k > 0 {
                assert(o[k] == o0[k - 1]);
                assert(o0[k - 1] != slot);
                assert(old(self).links@[o0[k - 1] as int] == Some(o0[k]));
            }
        }
        assert forall|k1: int, k2: int| 0 <= k1 < k2 < o.len() implies o[k1] != o[k2] by {
            assert(o0[k2 - 1] != slot);
            if k1 > 0 {
                assert(o0[k1 - 1] != o0[k2 - 1]);
            }
        }
        assert(o.last() != slot ==> o.last() == o0.last() && o0.last() != slot);
        assert(self.chain_ok());
        assert(self@ =~= seq![value] + old(self)@);
    }

    /// Puts `value` after the last node.
    pub fn push_back(&mut self, value: T)
        requires
            old(self).wf(),
            old(self)@.len() < usize::MAX,
        ensures
            final(self).wf(),
            final(self)@ == old(self)@.push(value),
    {
        if self.is_empty() {
            self.push_front(value);
            assert(self@ =~= old(self)@.push(value));
            return;
        }
        let last = self.tail.unwrap();
        let slot = self.occupy(value, None);
        proof {
            old(self).lemma_fresh_slot(slot);
        }
        self.links.set(last, Some(slot));
        self.tail = Some(slot);
        self.len = self.len + 1;
        self.order = Ghost(old(self).order@.push(slot));
        assert forall|k: int| 0 <= k < old(self).order@.len() implies #[trigger] self.order@[k]
            == old(self).order@[k] && self.values@[self.order@[k] as int] == old(
            self,
        ).values@[old(self).order@[k] as int] by {}
        assert(self.chain_ok());
        assert(self@ =~= old(self)@.push(value));
    }

    /// Empties the slot of a node that has been unlinked, marks it vacant,
    /// and returns its value.
    fn release(&mut self, slot: usize) -> (r: T)
        requires
            old(self).vacant_ok(),
            old(self).values@.len() == old(self).links@.len(),
            slot < old(self).values@.len(),
            old(self).values@[slot as int] is Some,
        ensures
            final(self).vacant_ok(),
            final(self).values@.len() == final(self).links@.len(),
            final(self).values@.len() == old(self).values@.len(),
            Some(r) == old(self).values@[slot as int],
            final(self).values@[slot as int] is None,
            forall|i: int|
                0 <= i < old(self).values@.len() && i != slot ==> #[trigger] final(self).values@[i]
                    == old(self).values@[i],
            forall|i: int|
                0 <= i < old(self).values@.len() && i != slot ==> #[trigger] final(self).links@[i]
                    == old(self).links@[i],
            final(self).order == old(self).order,
            final(self).head == old(self).head,
            final(self).tail == old(self).tail,
            final(self).len == old(self).len,
    {
        let mut taken: Option<T> = None;
        self.values.set_and_swap(slot, &mut taken);
        self.links.set(slot, None);
        self.vacant.push(slot);
        taken.unwrap()
    }

    /// Removes and returns the first value; `None` when empty.
    pub fn pop_front(&mut self) -> (r: Option<T>)
        requires
            old(self).wf(),
        ensures
            final(self).wf(),
            old(self)@.len() == 0 ==> r is None && final(self)@ == old(self)@,
            old(self)@.len() > 0 ==> r == Some(old(self)@[0]) && final(self)@ == old(
                self,
            )@.drop_first(),
    {
        if self.head.is_none() {
            return None;
        }
        let first = self.head.unwrap();
        self.head = self.links[first];
        if self.head.is_none() {
            self.tail = None;
        }
        self.len = self.len - 1;
        self.order = Ghost(old(self).order@.drop_first());
        let value = self.release(first);
        assert forall|k: int| 0 <= k < self.order@.len() implies #[trigger] self.order@[k]
            == old(self).order@[k + 1] && self.order@[k] != first by {}
        assert(self.chain_ok());
        assert(self@ =~= old(self)@.drop_first());
        Some(value)
    }

    /// The slot of the node at `position`, found by walking from the front.
    fn slot_at(&self, position: usize) -> (slot: usize)
        requires
            self.wf(),
            position < self@.len(),
        ensures
            slot == self.order@[position as int],
    {
        let mut cur = self.head.unwrap();
        let mut k: usize = 0;
        while k < position
            invariant
                self.wf(),
                position < self.order@.len(),
                k <= position,
                cur == self.order@[k as int],
            decreases position - k,
        {
            cur = self.links[cur].unwrap();
            k = k + 1;
        }
        cur
    }

    /// Removes and returns the last value; `None` when empty.
    pub fn pop_back(&mut self) -> (r: Option<T>)
        requires
            old(self).wf(),
        ensures
            final(self).wf(),
            old(self)@.len() == 0 ==> r is None && final(self)@ == old(self)@,
            old(self)@.len() > 0 ==> r == Some(old(self)@.last()) && final(self)@ == old(
                self,
            )@.drop_last(),
    {
        if self.head.is_none() {
            return None;
        }
        if self.len == 1 {
            return self.pop_front();
        }
        let before = self.slot_at(self.len - 2);
        let last = self.tail.unwrap();
        self.links.set(before, None);
        self.tail = Some(before);
        self.len = self.len - 1;
        self.order = Ghost(old(self).order@.drop_last());
        let value = self.release(last);
        let ghost n = old(self).order@.len();
        assert forall|k: int| 0 <= k < self.order@.len() implies #[trigger] self.order@[k]
            == old(self).order@[k] && self.order@[k] != last by {
            assert(old(self).order@[k] != old(self).order@[n - 1]);
        }
        assert forall|k: int| 0 <= k < self.order@.len() - 1 implies #[trigger] self.links@[
        self.order@[k] as int] == Some(self.order@[k + 1]) by {
            assert(old(self).order@[k] != old(self).order@[n - 2]);
        }
        assert(self.chain_ok());
        assert(self@ =~= old(self)@.drop_last());
        Some(value)
    }

    /// Removes and returns the value at `position`.
    pub fn remove(&mut self, position: usize) -> (r: T)
        requires
            old(self).wf(),
            position < old(self)@.len(),
        ensures
            final(self).wf(),
            r == old(self)@[position as int],
            final(self)@ == old(self)@.remove(position as int),
    {
        if position == 0 {
            let r = self.pop_front();
            assert(old(self)@.remove(0) =~= old(self)@.drop_first());
            return r.unwrap();
        } else if position == self.len - 1 {
            let r = self.pop_back();
            assert(old(self)@.remove(position as int) =~= old(self)@.drop_last());
            return r.unwrap();
        }
        let before = self.slot_at(position - 1);
        let node = self.links[before].unwrap();
        let after = self.links[node];
        self.links.set(before, after);
        self.len = self.len - 1;
        self.order = Ghost(old(self).order@.remove(position as int));
        let value = self.release(node);
        let ghost p = position as int;
        assert forall|k: int| 0 <= k < self.order@.len() implies #[trigger] self.order@[k]
            == old(self).order@[if k < p { k } else { k + 1 }] && self.order@[k] != node by {
            if k < p {
                assert(old(self).order@[k] != old(self).order@[p]);
            } else {
                assert(old(self).order@[k + 1] != old(self).order@[p]);
            }
        }
        assert forall|k: int| 0 <= k < self.order@.len() - 1 implies #[trigger] self.links@[
        self.order@[k] as int] == Some(self.order@[k + 1]) by {
            if k < p - 1 {
                assert(old(self).order@[k] != old(self).order@[p - 1]);
            } else if k >= p {
                assert(old(self).order@[k + 1] != old(self).order@[p - 1]);
            }
        }
        assert(self.chain_ok());
        assert(self@ =~= old(self)@.remove(position as int));
        value
    }

    /// The first value, borrowed; `None` when empty.
    pub fn front(&self) -> (r: Option<&T>)
        requires
            self.wf(),
        ensures
            r is None <==> self@.len() == 0,
            r is Some ==> *r->Some_0 == self@[0],
    {
        match self.head {
            None => None,
            Some(first) => Some(self.values[first].as_ref().unwrap()),
        }
    }

    /// The last value, borrowed; `None` when empty.
    pub fn back(&self) -> (r: Option<&T>)
        requires
            self.wf(),
        ensures
            r is None <==> self@.len() == 0,
            r is Some ==> *r->Some_0 == self@.last(),
    {
        match self.tail {
            None => None,
            Some(last) => Some(self.values[last].as_ref().unwrap()),
        }
    }
}

} // verus!
