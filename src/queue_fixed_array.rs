use vstd::prelude::*;

verus! {

/// A first-in, first-out queue of at most `N` values in a ring of `N`
/// slots: values enter at `rear` and leave at `front`, both wrapping
/// around.
pub struct Queue<T, const N: usize> {
    data: Vec<Option<T>>,
    front: usize,
    rear: usize,
    size: usize,
}

/// The slot `i` places after `front` in a ring of `n` slots.
spec fn ring_slot(n: int, front: int, i: int) -> int {
    if front + i < n {
        front + i
    } else {
        front + i - n
    }
}

impl<T, const N: usize> View for Queue<T, N> {
    type V = Seq<T>;

    /// The queued values, the one to leave next first.
    closed spec fn view(&self) -> Seq<T> {
        Seq::new(self.size as nat, |i: int| self.data@[ring_slot(N as int, self.front as int, i)]->Some_0)
    }
}

impl<T: Copy, const N: usize> Queue<T, N> {
    /// The ring has `N` slots, `rear` is `size` slots after `front`, and
    /// exactly the `size` slots from `front` on hold a value.
    pub closed spec fn wf(&self) -> bool {
        &&& self.data@.len() == N
        &&& self.front < N || self.front == 0
        &&& self.rear < N || self.rear == 0
        &&& self.size <= N
        &&& self.rear == ring_slot(N as int, self.front as int, self.size as int)
        &&& forall|i: int|
            0 <= i < self.size ==> (#[trigger] self.data@[ring_slot(
                N as int,
                self.front as int,
                i,
            )]) is Some
        &&& forall|i: int|
            self.size <= i < N ==> (#[trigger] self.data@[ring_slot(
                N as int,
                self.front as int,
                i,
            )]) is None
    }

    /// An empty queue of `N` vacant slots.
    pub fn new() -> (q: Self)
        ensures
            q.wf(),
            q@ == Seq::<T>::empty(),
    {
        let mut data: Vec<Option<T>> = Vec::new();
        while data.len() < N
            invariant
                data@.len() <= N,
                forall|i: int| 0 <= i < data@.len() ==> (#[trigger] data@[i]) is None,
            decreases N - data@.len(),
        {
            data.push(None);
        }
        let q = Queue { data, front: 0, rear: 0, size: 0 };
        assert(q@ =~= Seq::<T>::empty());
        q
    }

    pub fn is_full(&self) -> (r: bool)
        requires
            self.wf(),
        ensures
            r == (self@.len() == N),
    {
        self.size == N
    }

    pub fn is_empty(&self) -> (r: bool)
        requires
            self.wf(),
        ensures
            r == (self@.len() == 0),
    {
        self.size == 0
    }

    /// Adds `value` behind every queued value; the queue must not be full.
    pub fn enqueue(&mut self, value: T)
        requires
            old(self).wf(),
            old(self)@.len() < N,
        ensures
            final(self).wf(),
            final(self)@ == old(self)@.push(value),
    {
        self.data.set(self.rear, Some(value));
        self.rear = self.rear + 1;
        self.size = self.size + 1;
        if self.rear == N {
            self.rear = 0;
        }
        assert(self@ =~= old(self)@.push(value));
    }

    /// Removes and returns the value queued longest; the queue must not be
    /// empty.
    pub fn dequeue(&mut self) -> (r: Option<T>)
        requires
            old(self).wf(),
            old(self)@.len() > 0,
        ensures
            final(self).wf(),
            r == Some(old(self)@[0]),
            final(self)@ == old(self)@.drop_first(),
    {
        let mut value: Option<T> = None;
        self.data.set_and_swap(self.front, &mut value);
        self.front = self.front + 1;
        self.size = self.size - 1;
        if self.front == N {
            self.front = 0;
        }
        let ghost n = N as int;
        let ghost f0 = old(self).front as int;
        assert forall|i: int| 0 <= i < self.size implies (#[trigger] self.data@[ring_slot(
            n,
            self.front as int,
            i,
        )]) is Some by {
            assert(ring_slot(n, self.front as int, i) == ring_slot(n, f0, i + 1));
        }
        assert forall|i: int| self.size <= i < N implies (#[trigger] self.data@[ring_slot(
            n,
            self.front as int,
            i,
        )]) is None by {
            if i + 1 < n {
                assert(ring_slot(n, self.front as int, i) == ring_slot(n, f0, i + 1));
            } else {
                assert(ring_slot(n, self.front as int, i) == f0);
            }
        }
        assert(self@ =~= old(self)@.drop_first());
        value
    }
}

} // verus!
