//! A singly linked list with owned nodes, modelled as the sequence of
//! its values from the front.

use vstd::prelude::*;

verus! {

/// One list node: a value and the rest of the list.
pub struct Node<T> {
    pub value: T,
    pub next: Option<Box<Node<T>>>,
}

/// A singly linked list; `size` caches the number of nodes.
pub struct LinkedList<T> {
    pub head: Option<Box<Node<T>>>,
    pub size: usize,
}

/// The values hanging off `node`, front first.
pub open spec fn spec_chain<T>(node: Option<Box<Node<T>>>) -> Seq<T>
    decreases node,
{
    match node {
        None => Seq::empty(),
        Some(n) => seq![n.value] + spec_chain(n.next),
    }
}

impl<T> Node<T> {
    /// A node holding `value` in front of `next`.
    pub fn new(value: T, next: Option<Box<Node<T>>>) -> (r: Node<T>)
        ensures
            r.value == value,
            r.next == next,
    {
        Node { value, next }
    }
}

impl<T> LinkedList<T> {
    /// The sequence of values of this list, front first.
    pub open spec fn spec_seq(self) -> Seq<T> {
        spec_chain(self.head)
    }

    /// The cached size matches the chain.
    pub open spec fn wf(self) -> bool {
        self.size == self.spec_seq().len()
    }

    /// The empty list.
    pub fn new() -> (r: LinkedList<T>)
        ensures
            r.wf(),
            r.spec_seq() == Seq::<T>::empty(),
    {
        LinkedList { head: None, size: 0 }
    }

    /// How many values the list holds.
    pub fn get_size(&self) -> (r: usize)
        requires
            self.wf(),
        ensures
            r == self.spec_seq().len(),
    {
        self.size
    }

    /// Whether the list holds no value.
    pub fn is_empty(&self) -> (r: bool)
        requires
            self.wf(),
        ensures
            r == (self.spec_seq().len() == 0),
    {
        self.get_size() == 0
    }

    /// Put `value` at the front of the list.
    pub fn push_front(&mut self, value: T)
        requires
            old(self).wf(),
            old(self).spec_seq().len() < usize::MAX,
        ensures
            final(self).wf(),
            final(self).spec_seq() == seq![value] + old(self).spec_seq(),
    {
        let new_node: Box<Node<T>> = Box::new(Node::new(value, self.head.take()));
        self.head = Some(new_node);
        self.size = self.size + 1;
    }

    /// Take the front value out of the list, if the list is not empty.
    pub fn pop_front(&mut self) -> (r: Option<T>)
        requires
            old(self).wf(),
        ensures
            final(self).wf(),
            old(self).spec_seq().len() == 0 ==> r is None && *final(self) == *old(self),
            old(self).spec_seq().len() > 0 ==> r == Some(old(self).spec_seq()[0])
                && final(self).spec_seq() == old(self).spec_seq().drop_first(),
    {
        let node: Box<Node<T>> = match self.head.take() {
            Some(n) => n,
            None => {
                return None;
            },
        };
        let node = *node;
        self.head = node.next;
        self.size = self.size - 1;
        proof {
            assert(old(self).spec_seq() == seq![node.value] + spec_chain(node.next));
            assert(self.spec_seq() =~= old(self).spec_seq().drop_first());
        }
        Some(node.value)
    }

    /// An iterator view positioned at the front of the list.
    pub fn iter(&self) -> (it: LinkedListIter<T>)
        ensures
            it.spec_remaining() == self.spec_seq(),
    {
        LinkedListIter { current: &self.head }
    }
}

/// A cursor over a list, yielding the values from front to back.
pub struct LinkedListIter<'a, T> {
    pub current: &'a Option<Box<Node<T>>>,
}

impl<'a, T> LinkedListIter<'a, T> {
    /// The values not yet yielded.
    pub open spec fn spec_remaining(self) -> Seq<T> {
        spec_chain(*self.current)
    }
}

impl<'a, T: Clone> LinkedListIter<'a, T> {
    /// Yield a clone of the next value, advancing past it.
    pub fn next(&mut self) -> (r: Option<T>)
        ensures
            old(self).spec_remaining().len() == 0 ==> r is None && *final(self) == *old(self),
            old(self).spec_remaining().len() > 0 ==> r is Some && final(self).spec_remaining()
                == old(self).spec_remaining().drop_first(),
    {
        match self.current {
            Some(node) => {
                let v = node.value.clone();
                self.current = &node.next;
                proof {
                    assert(self.spec_remaining() =~= old(self).spec_remaining().drop_first());
                }
                Some(v)
            },
            None => None,
        }
    }
}

} // verus!
