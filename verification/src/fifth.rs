//! A first-in, first-out queue kept as a singly linked list.
//!
//! New values are linked in behind the last node and values leave from the
//! front, so values come out in the order in which they went in.

use vstd::prelude::*;

verus! {

struct Node<T> {
    elem: T,
    next: Option<Box<Node<T>>>,
}

/// The values held by a chain of nodes, from the first node to the last.
spec fn chain_values<T>(link: Option<Box<Node<T>>>) -> Seq<T>
    decreases link,
{
    match link {
        None => Seq::empty(),
        Some(node) => seq![node.elem] + chain_values(node.next),
    }
}

/// A queue whose oldest value sits at the front of the list.
pub struct List<T> {
    head: Option<Box<Node<T>>>,
}

impl<T> View for List<T> {
    type V = Seq<T>;

    /// The values in the queue, oldest first.
    closed spec fn view(&self) -> Seq<T> {
        chain_values(self.head)
    }
}

impl<T> List<T> {
    /// An empty queue.
    pub fn new() -> (list: Self)
        ensures
            list@ == Seq::<T>::empty(),
    {
        List { head: None }
    }

    /// Adds `elem` at the back of the queue, walking to the last node.
    pub fn push(&mut self, elem: T)
        ensures
            final(self)@ == old(self)@.push(elem),
    {
        let ghost mut seen: Seq<T> = Seq::empty();
        let mut cur: &mut Option<Box<Node<T>>> = &mut self.head;
        while cur.is_some()
            invariant
                chain_values(after_borrow(self.head)) == seen + chain_values(*final(cur)),
                seen + chain_values(*cur) == old(self)@,
            decreases chain_values(*cur).len(),
        {
            match cur {
                Some(node) => {
                    proof {
                        seen = seen.push(node.elem);
                    }
                    cur = &mut node.next;
                },
                None => {},
            }
        }
        *cur = Some(Box::new(Node { elem, next: None }));
    }

    /// Takes the oldest value out of the queue; `None` when the queue is empty.
    pub fn pop(&mut self) -> (front: Option<T>)
        ensures
            old(self)@.len() == 0 ==> front is None && final(self)@ == old(self)@,
            old(self)@.len() > 0 ==> front == Some(old(self)@[0]) && final(self)@
                == old(self)@.drop_first(),
    {
        match self.head.take() {
            None => None,
            Some(node) => {
                let node = *node;
                self.head = node.next;
                proof {
                    assert(old(self)@.drop_first() =~= chain_values(self.head));
                }
                Some(node.elem)
            },
        }
    }
}

/// A pushed value goes behind the values already queued: the front of the
/// queue stays where it was, and an empty queue hands the new value straight
/// back.
pub proof fn lemma_push_joins_back<T>(queue: Seq<T>, elem: T)
    ensures
        queue.len() == 0 ==> queue.push(elem)[0] == elem && queue.push(elem).drop_first()
            == Seq::<T>::empty(),
        queue.len() > 0 ==> queue.push(elem)[0] == queue[0] && queue.push(elem).drop_first()
            == queue.drop_first().push(elem),
{
    assert(queue.len() == 0 ==> queue.push(elem).drop_first() =~= Seq::<T>::empty());
    assert(queue.len() > 0 ==> queue.push(elem).drop_first() =~= queue.drop_first().push(elem));
}

} // verus!
