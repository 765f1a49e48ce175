//! Last-in first-out stack of individually boxed nodes, torn down one node at
//! a time so that a long chain never recurses on drop.
use vstd::prelude::*;

verus! {

type Node<T> = Option<Box<Content<T>>>;

struct Content<T> {
    elem: T,
    next: Node<T>,
}

/// The elements of a chain, starting at `node`.
spec fn chain<T>(node: Node<T>) -> Seq<T>
    decreases node,
{
    match node {
        Some(content) => seq![content.elem] + chain(content.next),
        None => Seq::empty(),
    }
}

pub struct Stack<T> {
    head: Node<T>,
}

impl<T> View for Stack<T> {
    type V = Seq<T>;

    /// The elements, most recently pushed first.
    closed spec fn view(&self) -> Seq<T> {
        chain(self.head)
    }
}

impl<T> Stack<T> {
    /// An empty stack.
    pub fn new() -> (r: Self)
        ensures
            r@ == Seq::<T>::empty(),
    {
        Stack { head: None }
    }

    /// Puts `elem` on top.
    pub fn push(&mut self, elem: T)
        ensures
            final(self)@ == seq![elem] + old(self)@,
    {
        let new_node = Box::new(Content { elem: elem, next: self.head.take() });
        self.head = Some(new_node);
    }

    /// Removes and returns the most recently pushed element, if any.
    pub fn pop(&mut self) -> (r: Option<T>)
        ensures
            old(self)@.len() == 0 ==> r is None && final(self)@ == old(self)@,
            old(self)@.len() > 0 ==> r == Some(old(self)@[0]) && final(self)@ == old(self)@.drop_first(),
    {
        match self.head.take() {
            Some(node) => {
                let node = *node;
                self.head = node.next;
                assert(chain(Some(Box::new(node)))
                    =~= seq![node.elem] + chain(node.next));
                Some(node.elem)
            },
            None => None,
        }
    }
}

impl<T> Drop for Stack<T> {
    fn drop(&mut self)
        opens_invariants none
        no_unwind
    {
        let mut cur_node: Node<T> = None;
        std::mem::swap(&mut cur_node, &mut self.head);
        loop
            decreases chain(cur_node).len(),
        {
            match cur_node {
                Some(content) => {
                    let content = *content;
                    cur_node = content.next;
                },
                None => break,
            }
        }
    }
}

} // verus!
