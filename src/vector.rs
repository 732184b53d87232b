use vstd::prelude::*;

verus! {

use vstd::arithmetic::power::lemma_pow0;
use vstd::arithmetic::power2::{
    lemma_pow2,
    lemma_pow2_strictly_increases,
    lemma_pow2_unfold,
    pow2,
};

/// A growable, contiguous sequence that manages its own slot block.
///
/// `slots` is the allocated block: exactly `capacity` slots, of which the
/// first `len` hold a value and the rest are vacant.
pub struct Vector<T> {
    len: usize,
    capacity: usize,
    slots: Vec<Option<T>>,
}

impl<T> View for Vector<T> {
    type V = Seq<T>;

    /// The live elements, in order.
    closed spec fn view(&self) -> Seq<T> {
        Seq::new(self.len as nat, |i: int| self.slots@[i]->Some_0)
    }
}

/// The capacity after one append-style step on a vector of capacity
/// `capacity` holding `len` elements: unchanged while a slot is vacant,
/// otherwise doubled, with one slot for the first allocation.
pub open spec fn capacity_after_append(capacity: nat, len: nat) -> nat {
    if len < capacity {
        capacity
    } else if capacity == 0 {
        1
    } else {
        2 * capacity
    }
}

impl<T> Vector<T> {
    /// The number of allocated slots.
    pub closed spec fn spec_capacity(&self) -> nat {
        self.capacity as nat
    }

    /// Length within capacity; the block holds exactly `capacity` slots,
    /// occupied below `len` and vacant from `len` on.
    pub closed spec fn wf(&self) -> bool {
        &&& self.len <= self.capacity
        &&& self.slots@.len() == self.capacity
        &&& forall|i: int| 0 <= i < self.len ==> (#[trigger] self.slots@[i]) is Some
        &&& forall|i: int| self.len <= i < self.capacity ==> (#[trigger] self.slots@[i]) is None
    }

    /// An empty vector; nothing is allocated.
    pub fn new() -> (v: Self)
        ensures
            v.wf(),
            v@ == Seq::<T>::empty(),
            v.spec_capacity() == 0,
    {
        Vector { len: 0, capacity: 0, slots: Vec::new() }
    }

    pub fn len(&self) -> (r: usize)
        requires
            self.wf(),
        ensures
            r == self@.len(),
    {
        self.len
    }

    pub fn capacity(&self) -> (r: usize)
        ensures
            r == self.spec_capacity(),
    {
        self.capacity
    }

    pub fn is_empty(&self) -> (r: bool)
        requires
            self.wf(),
        ensures
            r == (self@.len() == 0),
    {
        self.len == 0
    }

    /// Enlarges the block to twice its size (one slot when nothing is
    /// allocated yet), keeping every element where it is.
    fn grow(&mut self)
        requires
            old(self).wf(),
            old(self).len == old(self).capacity,
            old(self).capacity <= usize::MAX / 2,
        ensures
            final(self).wf(),
            final(self)@ == old(self)@,
            final(self).len == old(self).len,
            final(self).spec_capacity() == capacity_after_append(
                old(self).spec_capacity(),
                old(self)@.len(),
            ),
    {
        let new_capacity: usize = if self.capacity == 0 {
            1
        } else {
            self.capacity * 2
        };
        let ghost s0 = self.slots@;
        while self.slots.len() < new_capacity
            invariant
                self.len == old(self).len,
                self.capacity == old(self).capacity,
                self.capacity <= self.slots@.len() <= new_capacity,
                forall|i: int| 0 <= i < self.capacity ==> self.slots@[i] == s0[i],
                forall|i: int|
                    self.capacity <= i < self.slots@.len() ==> (#[trigger] self.slots@[i]) is None,
                s0 == old(self).slots@,
                old(self).wf(),
            decreases new_capacity - self.slots@.len(),
        {
            self.slots.push(None);
        }
        self.capacity = new_capacity;
        assert forall|i: int| 0 <= i < self.len implies (#[trigger] self.slots@[i]) is Some by {
            assert(self.slots@[i] == s0[i]);
        }
        assert(self@ =~= old(self)@);
    }

    /// Appends `item` after the last element, growing the block first when
    /// every slot is occupied.
    pub fn push(&mut self, item: T)
        requires
            old(self).wf(),
            old(self)@.len() < usize::MAX / 2,
        ensures
            final(self).wf(),
            final(self)@ == old(self)@.push(item),
            final(self).spec_capacity() == capacity_after_append(
                old(self).spec_capacity(),
                old(self)@.len(),
            ),
    {
        if self.len == self.capacity {
            self.grow();
        }
        self.slots.set(self.len, Some(item));
        self.len = self.len + 1;
        assert(self@ =~= old(self)@.push(item));
    }

    /// Inserts `item` at `position`, moving the elements from `position` on
    /// one slot up (the highest first), after growing the block when full.
    pub fn insert(&mut self, position: usize, item: T)
        requires
            old(self).wf(),
            position <= old(self)@.len(),
            old(self)@.len() < usize::MAX / 2,
        ensures
            final(self).wf(),
            final(self)@ == old(self)@.insert(position as int, item),
            final(self).spec_capacity() == capacity_after_append(
                old(self).spec_capacity(),
                old(self)@.len(),
            ),
    {
        if self.len == self.capacity {
            self.grow();
        }
        let ghost s0 = self.slots@;
        let mut i: usize = self.len;
        while i > position
            invariant
                self.slots@.len() == self.capacity,
                self.len < self.capacity,
                forall|j: int| 0 <= j < s0.len() ==> (j < self.len <==> (#[trigger] s0[j]) is Some),
                self.len == old(self).len,
                self.slots@.len() == s0.len(),
                position <= i <= self.len,
                self.slots@[i as int] is None,
                forall|j: int| 0 <= j < i ==> self.slots@[j] == s0[j],
                forall|j: int| i < j <= self.len ==> self.slots@[j] == s0[j - 1],
                forall|j: int| self.len < j < self.capacity ==> self.slots@[j] == s0[j],
            decreases i,
        {
            let mut moved: Option<T> = None;
            self.slots.set_and_swap(i - 1, &mut moved);
            self.slots.set(i, moved);
            i = i - 1;
        }
        self.slots.set(position, Some(item));
        self.len = self.len + 1;
        assert forall|j: int| 0 <= j < self.len implies (#[trigger] self.slots@[j]) is Some by {
            if j < position {
                assert(self.slots@[j] == s0[j]);
            } else if j > position {
                assert(self.slots@[j] == s0[j - 1]);
            }
        }
        assert forall|j: int| self.len <= j < self.capacity implies (
        #[trigger] self.slots@[j]) is None by {
            assert(self.slots@[j] == s0[j]);
        }
        assert(self@ =~= old(self)@.insert(position as int, item));
    }

    /// Inserts `item` before the first element.
    pub fn prepend(&mut self, item: T)
        requires
            old(self).wf(),
            old(self)@.len() < usize::MAX / 2,
        ensures
            final(self).wf(),
            final(self)@ == old(self)@.insert(0, item),
            final(self).spec_capacity() == capacity_after_append(
                old(self).spec_capacity(),
                old(self)@.len(),
            ),
    {
        self.insert(0, item);
    }

    /// Removes and returns the last element; `None` when empty.
    pub fn pop(&mut self) -> (r: Option<T>)
        requires
            old(self).wf(),
        ensures
            final(self).wf(),
            final(self).spec_capacity() == old(self).spec_capacity(),
            old(self)@.len() == 0 ==> r is None && final(self)@ == old(self)@,
            old(self)@.len() > 0 ==> r == Some(old(self)@.last()) && final(self)@
                == old(self)@.drop_last(),
    {
        if self.len == 0 {
            return None;
        }
        self.len = self.len - 1;
        let mut taken: Option<T> = None;
        self.slots.set_and_swap(self.len, &mut taken);
        assert(self@ =~= old(self)@.drop_last());
        taken
    }

    /// Removes and returns the element at `position`, moving the elements
    /// after it one slot down.
    pub fn remove(&mut self, position: usize) -> (r: T)
        requires
            old(self).wf(),
            position < old(self)@.len(),
        ensures
            final(self).wf(),
            final(self).spec_capacity() == old(self).spec_capacity(),
            r == old(self)@[position as int],
            final(self)@ == old(self)@.remove(position as int),
    {
        let ghost s0 = self.slots@;
        let mut taken: Option<T> = None;
        self.slots.set_and_swap(position, &mut taken);
        let last: usize = self.len - 1;
        let mut i: usize = position;
        while i < last
            invariant
                self.slots@.len() == self.capacity,
                self.len == old(self).len,
                self.capacity == old(self).capacity,
                s0 == old(self).slots@,
                old(self).wf(),
                last == self.len - 1,
                position <= i <= last,
                self.slots@[i as int] is None,
                forall|j: int| 0 <= j < i ==> self.slots@[j] == s0[j + if j < position { 0int } else { 1int }],
                forall|j: int| i < j < self.capacity ==> self.slots@[j] == s0[j],
            decreases last - i,
        {
            let mut moved: Option<T> = None;
            self.slots.set_and_swap(i + 1, &mut moved);
            self.slots.set(i, moved);
            i = i + 1;
        }
        self.len = last;
        assert forall|j: int| 0 <= j < self.len implies (#[trigger] self.slots@[j]) is Some by {
            if j < position {
                assert(self.slots@[j] == s0[j]);
            } else {
                assert(self.slots@[j] == s0[j + 1]);
            }
        }
        assert forall|j: int| self.len <= j < self.capacity implies (
        #[trigger] self.slots@[j]) is None by {
            if j > self.len {
                assert(self.slots@[j] == s0[j]);
            }
        }
        assert(self@ =~= old(self)@.remove(position as int));
        taken.unwrap()
    }

    /// The element at `i`, borrowed from the vector.
    pub fn index(&self, i: usize) -> (r: &T)
        requires
            self.wf(),
            i < self@.len(),
        ensures
            *r == self@[i as int],
    {
        self.slots[i].as_ref().unwrap()
    }
}


impl<T> std::ops::Index<usize> for Vector<T> {
    type Output = T;

    /// `v[i]`: the element at `i`, as `Vector::index` gives it.
    fn index(&self, i: usize) -> (r: &T)
        ensures
            *r == self@[i as int],
    {
        Vector::index(self, i)
    }
}

impl<T> vstd::std_specs::core::IndexSpecImpl<usize> for Vector<T> {
    /// `v[i]` asks for a well-formed vector and a position before its end.
    open spec fn index_req(&self, index: &usize) -> bool {
        self.wf() && *index < self@.len()
    }
}

/// The capacity after `k` pushes onto an empty vector with no removal, each
/// step as `push` states it.
pub open spec fn capacity_after_pushes(k: nat) -> nat
    decreases k,
{
    if k == 0 {
        0
    } else {
        capacity_after_append(capacity_after_pushes((k - 1) as nat), (k - 1) as nat)
    }
}

/// The contents after pushing `vals` one by one onto an empty vector, each
/// step as `push` states it.
pub open spec fn contents_after_pushes<T>(vals: Seq<T>) -> Seq<T>
    decreases vals.len(),
{
    if vals.len() == 0 {
        Seq::empty()
    } else {
        contents_after_pushes(vals.drop_last()).push(vals.last())
    }
}

/// `c` is a power of two, at least `k`, and no larger than any power of two
/// that is at least `k`.
pub open spec fn is_least_power_of_two_at_least(c: nat, k: nat) -> bool {
    &&& exists|e: nat| c == pow2(e)
    &&& k <= c
    &&& forall|e: nat| k <= #[trigger] pow2(e) ==> c <= pow2(e)
}

/// A well-formed vector never holds more elements than it has slots; every
/// operation keeps the vector well-formed, so this holds after every call.
pub proof fn lemma_len_within_capacity<T>(v: &Vector<T>)
    requires
        v.wf(),
    ensures
        v@.len() <= v.spec_capacity(),
{
}

/// Starting empty, after `k` pushes and no removal the capacity is zero when
/// `k` is zero and otherwise the least power of two that is at least `k`.
pub proof fn lemma_growth_doubling(k: nat)
    ensures
        k == 0 ==> capacity_after_pushes(k) == 0,
        k > 0 ==> is_least_power_of_two_at_least(capacity_after_pushes(k), k),
{
    if k > 0 {
        let e = lemma_capacity_exponent(k);
        assert forall|f: nat| k <= #[trigger] pow2(f) implies capacity_after_pushes(k) <= pow2(
            f,
        ) by {
            if f < e {
                if f < (e - 1) as nat {
                    lemma_pow2_strictly_increases(f, (e - 1) as nat);
                }
            } else if f > e {
                lemma_pow2_strictly_increases(e, f);
            }
        }
    }
}

/// For `k > 0` the capacity after `k` pushes is `2^e`, with `2^(e-1) < k`
/// when `e > 0`.
proof fn lemma_capacity_exponent(k: nat) -> (e: nat)
    requires
        k > 0,
    ensures
        capacity_after_pushes(k) == pow2(e),
        k <= pow2(e),
        e > 0 ==> pow2((e - 1) as nat) < k,
        e == 0 ==> k == 1,
    decreases k,
{
    lemma_pow2(0);
    lemma_pow0(2);
    if k == 1 {
        assert(capacity_after_pushes(0) == 0);
        0
    } else {
        let e0 = lemma_capacity_exponent((k - 1) as nat);
        let c0 = capacity_after_pushes((k - 1) as nat);
        if k - 1 < c0 {
            e0
        } else {
            lemma_pow2_unfold(e0 + 1);
            e0 + 1
        }
    }
}

/// Values pushed in order onto an empty vector are read back by position
/// in the same order: position `i` holds the `i`-th value pushed.
pub proof fn lemma_push_index_round_trip<T>(vals: Seq<T>)
    ensures
        contents_after_pushes(vals).len() == vals.len(),
        forall|i: int| 0 <= i < vals.len() ==> #[trigger] contents_after_pushes(vals)[i] == vals[i],
    decreases vals.len(),
{
    if vals.len() > 0 {
        lemma_push_index_round_trip(vals.drop_last());
        assert(contents_after_pushes(vals) =~= vals);
    } else {
        assert(contents_after_pushes(vals) =~= vals);
    }
}

/// Pushing further values, across however many growth steps they cause,
/// leaves the values pushed earlier unchanged and in order: the first `j`
/// elements after all pushes are those after the first `j` pushes.
pub proof fn lemma_growth_keeps_contents<T>(vals: Seq<T>, j: nat)
    requires
        j <= vals.len(),
    ensures
        contents_after_pushes(vals).take(j as int) == contents_after_pushes(vals.take(j as int)),
{
    lemma_push_index_round_trip(vals);
    lemma_push_index_round_trip(vals.take(j as int));
    assert(contents_after_pushes(vals).take(j as int) =~= contents_after_pushes(
        vals.take(j as int),
    ));
}

} // verus!
