//! A last-in, first-out stack of `i32` values kept as a singly linked list.

use vstd::prelude::*;

verus! {

#[derive(Debug)]
struct Node {
    elem: i32,
    next: Option<Box<Node>>,
}

/// The values held by a chain of nodes, from the first node to the last.
spec fn chain_values(link: Option<Box<Node>>) -> Seq<i32>
    decreases link,
{
    match link {
        None => Seq::empty(),
        Some(node) => seq![node.elem] + chain_values(node.next),
    }
}

/// A stack whose most recently pushed value sits at the front of the list.
#[derive(Debug)]
pub struct List {
    head: Option<Box<Node>>,
}

impl View for List {
    type V = Seq<i32>;

    /// The values on the stack, top first.
    closed spec fn view(&self) -> Seq<i32> {
        chain_values(self.head)
    }
}

impl List {
    /// An empty stack.
    pub fn new() -> (list: Self)
        ensures
            list@ == Seq::<i32>::empty(),
    {
        List { head: None }
    }

    /// Puts `elem` on top of the stack.
    pub fn push(&mut self, elem: i32)
        ensures
            final(self)@ == seq![elem] + old(self)@,
    {
        let rest = self.head.take();
        self.head = Some(Box::new(Node { elem, next: rest }));
    }

    /// Takes the top value off the stack; `None` when the stack is empty.
    pub fn pop(&mut self) -> (top: Option<i32>)
        ensures
            old(self)@.len() == 0 ==> top is None && final(self)@ == old(self)@,
            old(self)@.len() > 0 ==> top == Some(old(self)@[0]) && final(self)@ == old(self)@.drop_first(),
    {
        match self.head.take() {
            None => None,
            Some(node) => {
                let node = *node;
                self.head = node.next;
                proof {
                    assert(old(self)@.drop_first() =~= chain_values(self.head));
                }
                Some(node.elem)
            },
        }
    }
}

/// Popping right after a push gives back the pushed value and leaves the
/// stack as it was before the push.
pub proof fn lemma_pop_undoes_push(stack: Seq<i32>, elem: i32)
    ensures
        (seq![elem] + stack).len() > 0,
        (seq![elem] + stack)[0] == elem,
        (seq![elem] + stack).drop_first() == stack,
{
    assert((seq![elem] + stack).drop_first() =~= stack);
}

/// Releases the nodes one at a time, so that a long stack is not torn down by
/// a chain of nested destructor calls.
impl Drop for List {
    fn drop(&mut self)
        opens_invariants none
        no_unwind
    {
        let mut cur: Option<Box<Node>> = None;
        std::mem::swap(&mut cur, &mut self.head);
        loop
            decreases chain_values(cur).len(),
        {
            match cur {
                Some(node) => {
                    let Node { elem: _, next } = *node;
                    cur = next;
                },
                None => break,
            }
        }
    }
}

} // verus!
