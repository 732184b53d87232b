use vstd::prelude::*;
use crate::tail_linked_list::TailLinkedList;

verus! {

/// A first-in, first-out queue over a tail-tracking linked list: values
/// enter at the front of the list and leave from its back.
pub struct Queue<T> {
    data: TailLinkedList<T>,
}

impl<T> View for Queue<T> {
    type V = Seq<T>;

    /// The queued values, the one to leave next first.
    closed spec fn view(&self) -> Seq<T> {
        Seq::new(self.data@.len(), |i: int| self.data@[self.data@.len() - 1 - i])
    }
}

impl<T> Queue<T> {
    pub closed spec fn wf(&self) -> bool {
        self.data.wf()
    }

    /// An empty queue.
    pub fn new() -> (q: Self)
        ensures
            q.wf(),
            q@ == Seq::<T>::empty(),
    {
        Queue { data: TailLinkedList::new() }
    }

    /// Adds `value` behind every queued value.
    pub fn enqueue(&mut self, value: T)
        requires
            old(self).wf(),
            old(self)@.len() < usize::MAX,
        ensures
            final(self).wf(),
            final(self)@ == old(self)@.push(value),
    {
        self.data.push_front(value);
        assert(self@ =~= old(self)@.push(value));
    }

    /// Removes and returns the value queued longest; `None` when empty.
    pub fn dequeue(&mut self) -> (r: Option<T>)
        requires
            old(self).wf(),
        ensures
            final(self).wf(),
            old(self)@.len() == 0 ==> r is None && final(self)@ == old(self)@,
            old(self)@.len() > 0 ==> r == Some(old(self)@[0]) && final(self)@ == old(
                self,
            )@.drop_first(),
    {
        let r = self.data.pop_back();
        proof {
            if old(self)@.len() > 0 {
                assert(self@ =~= old(self)@.drop_first());
            } else {
                assert(self@ =~= old(self)@);
            }
        }
        r
    }

    pub fn is_empty(&self) -> (r: bool)
        requires
            self.wf(),
        ensures
            r == (self@.len() == 0),
    {
        self.data.is_empty()
    }
}

} // verus!
