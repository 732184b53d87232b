use vstd::prelude::*;

verus! {

use vstd::wrapping::usize_specs::{wrapping_add, wrapping_mul};

struct KeyValue<T> {
    key: String,
    value: T,
    is_deleted: bool,
}

/// A table of string keys with open addressing and linear probing. A
/// removed entry stays in its slot, marked deleted. The table gains one
/// slot when a probe for a new key finds every slot taken; keys are never
/// moved to other slots.
pub struct HashTable<T> {
    data: Vec<Option<KeyValue<T>>>,
}

/// A slot as the contracts see it: the key's characters, the value, and
/// whether the entry has been removed.
pub type SlotView<T> = Option<(Seq<char>, T, bool)>;

spec fn slot_view<T>(slot: Option<KeyValue<T>>) -> SlotView<T> {
    match slot {
        None => None,
        Some(kv) => Some((kv.key@, kv.value, kv.is_deleted)),
    }
}

/// The djb2 hash of `s`: start at 5381, and for each character multiply
/// by 33 and add the character's code, wrapping at the width of `usize`.
pub open spec fn djb2(s: Seq<char>) -> usize
    decreases s.len(),
{
    if s.len() == 0 {
        5381
    } else {
        wrapping_add(wrapping_mul(djb2(s.drop_last()), 33), s.last() as u32 as usize)
    }
}

/// The slot at step `i` (for `0 <= i < n`) of the probe sequence of `key`
/// in a table of `n` slots: the key's home slot, then the slots after it,
/// wrapping around.
pub open spec fn probe_slot(key: Seq<char>, n: nat, i: int) -> int {
    let home = djb2(key) as int % n as int;
    if home + i < n {
        home + i
    } else {
        home + i - n
    }
}

/// The first probe step from step `i` on, within one round of the table,
/// that reaches a live entry of `key`; the search ends at an empty slot.
pub open spec fn find_live<T>(s: Seq<SlotView<T>>, key: Seq<char>, i: nat) -> Option<nat>
    decreases s.len() - i,
{
    if i >= s.len() {
        None
    } else {
        match s[probe_slot(key, s.len(), i as int)] {
            None => None,
            Some(e) => if !e.2 && e.0 == key {
                Some(i)
            } else {
                find_live(s, key, i + 1)
            },
        }
    }
}

/// Whether the probe sequence of `key`, from step `i` on and within one
/// round, reaches a live entry of `key` before any empty slot or removed
/// entry.
pub open spec fn live_run_reaches<T>(s: Seq<SlotView<T>>, key: Seq<char>, i: nat) -> bool
    decreases s.len() - i,
{
    if i >= s.len() {
        false
    } else {
        match s[probe_slot(key, s.len(), i as int)] {
            None => false,
            Some(e) => if e.2 {
                false
            } else if e.0 == key {
                true
            } else {
                live_run_reaches(s, key, i + 1)
            },
        }
    }
}

/// The first probe step from step `i` on, within one round, whose slot is
/// empty, holds a removed entry, or holds `key`: where `add` stores `key`.
pub open spec fn insertion_step<T>(s: Seq<SlotView<T>>, key: Seq<char>, i: nat) -> Option<nat>
    decreases s.len() - i,
{
    if i >= s.len() {
        None
    } else {
        match s[probe_slot(key, s.len(), i as int)] {
            None => Some(i),
            Some(e) => if e.2 || e.0 == key {
                Some(i)
            } else {
                insertion_step(s, key, i + 1)
            },
        }
    }
}

/// Relies on `Vec::capacity`: the number of elements the vector can hold
/// without reallocating, which is never less than its length.
#[verifier::external_body]
fn vec_capacity<X>(v: &Vec<X>) -> (r: usize)
    ensures
        r >= v@.len(),
{
    v.capacity()
}

impl<T> View for HashTable<T> {
    type V = Seq<SlotView<T>>;

    /// The slots, in order.
    closed spec fn view(&self) -> Seq<SlotView<T>> {
        self.data@.map_values(|slot: Option<KeyValue<T>>| slot_view(slot))
    }
}

impl<T: Copy> HashTable<T> {
    /// The table has at least one slot.
    pub open spec fn wf(&self) -> bool {
        self@.len() > 0
    }

    /// A table of one empty slot.
    pub fn new() -> (t: Self)
        ensures
            t.wf(),
            t@ == seq![None::<(Seq<char>, T, bool)>],
    {
        let mut data: Vec<Option<KeyValue<T>>> = Vec::with_capacity(1);
        data.push(None);
        let t = HashTable { data };
        assert(t@ =~= seq![None::<(Seq<char>, T, bool)>]);
        t
    }

    /// The number of slots.
    pub fn slot_count(&self) -> (r: usize)
        ensures
            r == self@.len(),
    {
        self.data.len()
    }

    /// The number of slots the table's storage can hold before it must
    /// reallocate.
    pub fn slot_capacity(&self) -> (r: usize)
        ensures
            r >= self@.len(),
    {
        vec_capacity(&self.data)
    }

    /// The home slot of `key`: its djb2 hash modulo the number of slots.
    fn hash(&self, key: &str) -> (r: usize)
        requires
            self.wf(),
        ensures
            r == djb2(key@) as int % self@.len() as int,
    {
        let mut hash: usize = 5381;
        for c in it: key.chars()
            invariant
                it.seq() == key@,
                hash == djb2(it.seq().take(it.index() as int)),
        {
            assert(it.seq().take(it.index() + 1).drop_last() =~= it.seq().take(it.index() as int));
            hash = hash.wrapping_mul(33).wrapping_add(c as u32 as usize);
        }
        assert(key@.take(key@.len() as int) =~= key@);
        hash % self.data.len()
    }

    /// Stores `value` under `key` at the first slot of the key's probe
    /// sequence that is empty, holds a removed entry, or holds `key`; when
    /// a whole round finds none, the table gains a slot for it at the end.
    pub fn add(&mut self, key: String, value: T)
        requires
            old(self).wf(),
            old(self)@.len() < usize::MAX,
        ensures
            final(self).wf(),
            match insertion_step(old(self)@, key@, 0) {
                Some(i) => final(self)@ == old(self)@.update(
                    probe_slot(key@, old(self)@.len(), i as int),
                    Some((key@, value, false)),
                ),
                None => final(self)@ == old(self)@.push(Some((key@, value, false))),
            },
    {
        let n = self.data.len();
        let mut index = self.hash(key.as_str());
        let mut probes: usize = 0;
        let mut found = false;
        while !found && probes < n
            invariant
                n == self@.len(),
                self@ == old(self)@,
                self.wf(),
                probes <= n,
                index < n,
                probes < n ==> index == probe_slot(key@, n as nat, probes as int),
                found ==> probes < n && insertion_step(self@, key@, 0) == Some(probes as nat),
                !found ==> insertion_step(self@, key@, 0) == insertion_step(
                    self@,
                    key@,
                    probes as nat,
                ),
            decreases n - probes, if found { 0int } else { 1int },
        {
            match &self.data[index] {
                None => {
                    found = true;
                },
                Some(kv) => {
                    if kv.is_deleted || kv.key == key {
                        found = true;
                    } else {
                        index = if index + 1 == n {
                            0
                        } else {
                            index + 1
                        };
                        probes = probes + 1;
                    }
                },
            }
        }
        let ghost k = key@;
        let entry = KeyValue { key, value, is_deleted: false };
        if probes == n {
            self.data.push(Some(entry));
            assert(self@ =~= old(self)@.push(Some((k, value, false))));
        } else {
            self.data.set(index, Some(entry));
            assert(self@ =~= old(self)@.update(index as int, Some((k, value, false))));
        }
    }

    /// Whether a live entry of `key` is met along its probe sequence before
    /// any empty slot or removed entry.
    pub fn contains_key(&self, key: &str) -> (r: bool)
        requires
            self.wf(),
        ensures
            r == live_run_reaches(self@, key@, 0),
    {
        let wanted = key.to_owned();
        let n = self.data.len();
        let mut index = self.hash(key);
        let mut probes: usize = 0;
        while probes < n
            invariant
                n == self@.len(),
                self.wf(),
                wanted@ == key@,
                probes <= n,
                index < n,
                probes < n ==> index == probe_slot(key@, n as nat, probes as int),
                live_run_reaches(self@, key@, 0) == live_run_reaches(self@, key@, probes as nat),
            decreases n - probes,
        {
            match &self.data[index] {
                None => {
                    return false;
                },
                Some(kv) => {
                    if kv.is_deleted {
                        return false;
                    }
                    if kv.key == wanted {
                        return true;
                    }
                },
            }
            index = if index + 1 == n {
                0
            } else {
                index + 1
            };
            probes = probes + 1;
        }
        false
    }

    /// The value of the first live entry of `key` along its probe sequence,
    /// looking on past removed entries up to an empty slot.
    pub fn get(&self, key: &str) -> (r: Option<T>)
        requires
            self.wf(),
        ensures
            r == match find_live(self@, key@, 0) {
                Some(i) => Some(self@[probe_slot(key@, self@.len(), i as int)]->Some_0.1),
                None => None::<T>,
            },
    {
        let wanted = key.to_owned();
        let n = self.data.len();
        let mut index = self.hash(key);
        let mut probes: usize = 0;
        while probes < n
            invariant
                n == self@.len(),
                self.wf(),
                wanted@ == key@,
                probes <= n,
                index < n,
                probes < n ==> index == probe_slot(key@, n as nat, probes as int),
                find_live(self@, key@, 0) == find_live(self@, key@, probes as nat),
            decreases n - probes,
        {
            match &self.data[index] {
                None => {
                    return None;
                },
                Some(kv) => {
                    if !kv.is_deleted && kv.key == wanted {
                        return Some(kv.value);
                    }
                },
            }
            index = if index + 1 == n {
                0
            } else {
                index + 1
            };
            probes = probes + 1;
        }
        None
    }

    /// Marks the entry that `get` would read as removed and returns its
    /// value; `None`, with the table unchanged, when there is none.
    pub fn remove(&mut self, key: &str) -> (r: Option<T>)
        requires
            old(self).wf(),
        ensures
            final(self).wf(),
            match find_live(old(self)@, key@, 0) {
                Some(i) => {
                    let p = probe_slot(key@, old(self)@.len(), i as int);
                    let e = old(self)@[p]->Some_0;
                    &&& r == Some(e.1)
                    &&& final(self)@ == old(self)@.update(p, Some((e.0, e.1, true)))
                },
                None => r is None && final(self)@ == old(self)@,
            },
    {
        let wanted = key.to_owned();
        let n = self.data.len();
        let mut index = self.hash(key);
        let mut probes: usize = 0;
        while probes < n
            invariant
                n == self@.len(),
                self@ == old(self)@,
                self.wf(),
                wanted@ == key@,
                probes <= n,
                index < n,
                probes < n ==> index == probe_slot(key@, n as nat, probes as int),
                find_live(self@, key@, 0) == find_live(self@, key@, probes as nat),
            decreases n - probes,
        {
            let stop = match &self.data[index] {
                None => true,
                Some(_) => false,
            };
            if stop {
                return None;
            }
            let live_match = match &self.data[index] {
                None => false,
                Some(kv) => !kv.is_deleted && kv.key == wanted,
            };
            if live_match {
                let mut slot: Option<KeyValue<T>> = None;
                self.data.set_and_swap(index, &mut slot);
                let mut kv = slot.unwrap();
                kv.is_deleted = true;
                let value = kv.value;
                self.data.set(index, Some(kv));
                assert(self@ =~= old(self)@.update(
                    index as int,
                    Some((old(self)@[index as int]->Some_0.0, value, true)),
                ));
                return Some(value);
            }
            index = if index + 1 == n {
                0
            } else {
                index + 1
            };
            probes = probes + 1;
        }
        None
    }
}

} // verus!
