use vstd::prelude::*;

verus! {

struct Node<T> {
    value: T,
    next: Option<Box<Node<T>>>,
}

/// A singly linked list of boxed nodes, tracking its length.
pub struct LinkedList<T> {
    head: Option<Box<Node<T>>>,
    len: usize,
}

/// The values of the chain that starts at `link`, front first.
spec fn chain<T>(link: Option<Box<Node<T>>>) -> Seq<T>
    decreases link,
{
    match link {
        None => Seq::empty(),
        Some(node) => seq![node.value] + chain(node.next),
    }
}

/// Appends `value` after the last node of the chain at `link`.
fn append_to<T>(link: &mut Option<Box<Node<T>>>, value: T)
    ensures
        chain(*final(link)) == chain(*old(link)).push(value),
    decreases *old(link),
{
    match link {
        None => {
            *link = Some(Box::new(Node { value, next: None }));
            assert(chain::<T>(None) == Seq::<T>::empty());
            assert(chain(*link) =~= seq![value]);
        },
        Some(node) => {
            append_to(&mut node.next, value);
            assert(chain(*link) =~= chain(*old(link)).push(value));
        },
    }
}

/// Unlinks the last node of a non-empty chain and returns its value.
fn take_last<T>(link: &mut Option<Box<Node<T>>>) -> (r: T)
    requires
        old(link).is_some(),
    ensures
        chain(*old(link)).len() > 0,
        r == chain(*old(link)).last(),
        chain(*final(link)) == chain(*old(link)).drop_last(),
    decreases *old(link),
{
    let boxed = link.take().unwrap();
    let mut node = *boxed;
    if node.next.is_none() {
        assert(chain::<T>(None) == Seq::<T>::empty());
        assert(chain(*old(link)) =~= seq![node.value]);
        return node.value;
    }
    let r = take_last(&mut node.next);
    *link = Some(Box::new(node));
    assert(chain(*link) =~= chain(*old(link)).drop_last());
    r
}

/// Unlinks the node at `pos` of the chain and returns its value.
fn remove_at<T>(link: &mut Option<Box<Node<T>>>, pos: usize) -> (r: T)
    requires
        pos < chain(*old(link)).len(),
    ensures
        r == chain(*old(link))[pos as int],
        chain(*final(link)) == chain(*old(link)).remove(pos as int),
    decreases pos,
{
    let boxed = link.take().unwrap();
    let mut node = *boxed;
    if pos == 0 {
        *link = node.next;
        assert(chain(*link) =~= chain(*old(link)).remove(0));
        return node.value;
    }
    let r = remove_at(&mut node.next, pos - 1);
    *link = Some(Box::new(node));
    assert(chain(*link) =~= chain(*old(link)).remove(pos as int));
    r
}

/// The value of the last node of the chain that starts at `node`.
fn last_of<T>(node: &Box<Node<T>>) -> (r: &T)
    ensures
        *r == chain(Some(*node)).last(),
    decreases *node,
{
    match &node.next {
        None => {
            assert(chain::<T>(None) == Seq::<T>::empty());
            assert(chain(Some(*node)) =~= seq![node.value]);
            &node.value
        },
        Some(next) => {
            let r = last_of(next);
            assert(chain(Some(*node)).last() == chain(node.next).last());
            r
        },
    }
}

impl<T> View for LinkedList<T> {
    type V = Seq<T>;

    /// The values of the list, front first.
    closed spec fn view(&self) -> Seq<T> {
        chain(self.head)
    }
}

impl<T> LinkedList<T> {
    /// The stored length is the number of nodes.
    pub closed spec fn wf(&self) -> bool {
        self.len == chain(self.head).len()
    }

    /// An empty list.
    pub fn new() -> (l: LinkedList<T>)
        ensures
            l.wf(),
            l@ == Seq::<T>::empty(),
    {
        LinkedList { head: None, len: 0 }
    }

    pub fn len(&self) -> (r: usize)
        requires
            self.wf(),
        ensures
            r == self@.len(),
    {
        self.len
    }

    pub fn is_empty(&self) -> (r: bool)
        ensures
            r == (self@.len() == 0),
    {
        self.head.is_none()
    }

    /// Puts `value` in front of the first node.
    pub fn push_front(&mut self, value: T)
        requires
            old(self).wf(),
            old(self)@.len() < usize::MAX,
        ensures
            final(self).wf(),
            final(self)@ == seq![value] + old(self)@,
    {
        let node = Box::new(Node { value, next: self.head.take() });
        self.head = Some(node);
        self.len = self.len + 1;
    }

    /// Puts `value` after the last node.
    pub fn push_back(&mut self, value: T)
        requires
            old(self).wf(),
            old(self)@.len() < usize::MAX,
        ensures
            final(self).wf(),
            final(self)@ == old(self)@.push(value),
    {
        append_to(&mut self.head, value);
        self.len = self.len + 1;
    }

    /// Removes and returns the first value; `None` when empty.
    pub fn pop_front(&mut self) -> (r: Option<T>)
        requires
            old(self).wf(),
        ensures
            final(self).wf(),
            old(self)@.len() == 0 ==> r is None && final(self)@ == old(self)@,
            old(self)@.len() > 0 ==> r == Some(old(self)@[0]) && final(self)@ == old(
                self,
            )@.drop_first(),
    {
        match self.head.take() {
            None => None,
            Some(boxed) => {
                let node = *boxed;
                self.head = node.next;
                self.len = self.len - 1;
                assert(self@ =~= old(self)@.drop_first());
                Some(node.value)
            },
        }
    }

    /// Removes and returns the last value; `None` when empty.
    pub fn pop_back(&mut self) -> (r: Option<T>)
        requires
            old(self).wf(),
        ensures
            final(self).wf(),
            old(self)@.len() == 0 ==> r is None && final(self)@ == old(self)@,
            old(self)@.len() > 0 ==> r == Some(old(self)@.last()) && final(self)@ == old(
                self,
            )@.drop_last(),
    {
        if self.head.is_none() {
            return None;
        }
        let r = take_last(&mut self.head);
        self.len = self.len - 1;
        Some(r)
    }

    /// The first value, borrowed; `None` when empty.
    pub fn front(&self) -> (r: Option<&T>)
        ensures
            r is None <==> self@.len() == 0,
            r is Some ==> *r->Some_0 == self@[0],
    {
        match &self.head {
            None => None,
            Some(node) => Some(&node.value),
        }
    }

    /// The last value, borrowed; `None` when empty.
    pub fn back(&self) -> (r: Option<&T>)
        ensures
            r is None <==> self@.len() == 0,
            r is Some ==> *r->Some_0 == self@.last(),
    {
        match &self.head {
            None => None,
            Some(node) => Some(last_of(node)),
        }
    }

    /// Removes and returns the value at `position`.
    pub fn remove(&mut self, position: usize) -> (r: T)
        requires
            old(self).wf(),
            position < old(self)@.len(),
        ensures
            final(self).wf(),
            r == old(self)@[position as int],
            final(self)@ == old(self)@.remove(position as int),
    {
        let r = remove_at(&mut self.head, position);
        self.len = self.len - 1;
        r
    }
}

} // verus!
