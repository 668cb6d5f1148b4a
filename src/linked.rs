//! A singly linked stack of boxed nodes.
use vstd::prelude::*;

verus! {

#[derive(Debug)]
pub struct Node<T> {
    value: T,
    next: Option<Box<Node<T>>>,
}

#[derive(Debug)]
pub struct MyLinkedList<T> {
    pub head: Option<Box<Node<T>>>,
}

/// The values from a link on, first to last.
pub closed spec fn link_view<T>(l: Option<Box<Node<T>>>) -> Seq<T>
    decreases l,
{
    match l {
        Some(n) => seq![n.value].add(link_view(n.next)),
        None => Seq::empty(),
    }
}

impl<T> MyLinkedList<T> {
    /// The values, from the head on.
    pub open spec fn view(&self) -> Seq<T> {
        link_view(self.head)
    }

    pub fn new() -> (r: MyLinkedList<T>)
        ensures
            r.view() == Seq::<T>::empty(),
    {
        MyLinkedList { head: None }
    }

    /// Puts `value` in front.
    pub fn push(&mut self, value: T)
        ensures
            final(self).view() == seq![value].add(old(self).view()),
    {
        let old_head = self.head.take();
        self.head = Some(Box::new(Node { value, next: old_head }));
    }

    /// Leaves the list as it is.
    pub fn put(&mut self, value: T)
        ensures
            final(self).view() == old(self).view(),
    {
    }

    /// Takes the front value off.
    pub fn pop(&mut self) -> (r: Option<T>)
        ensures
            old(self).view().len() == 0 ==> r is None && final(self).view() == old(self).view(),
            old(self).view().len() > 0 ==> r == Some(old(self).view()[0])
                && final(self).view() == old(self).view().drop_first(),
    {
        match self.head.take() {
            Some(n) => {
                let Node { value, next } = *n;
                self.head = next;
                proof {
                    assert(old(self).view() =~= seq![value].add(link_view(next)));
                    assert(old(self).view().drop_first() =~= link_view(next));
                }
                Some(value)
            },
            None => None,
        }
    }

    /// Leaves the list as it is.
    pub fn drop(&mut self)
        ensures
            final(self).view() == old(self).view(),
    {
    }

    /// The front value.
    pub fn peek(&mut self) -> (r: Option<&T>)
        ensures
            final(self).view() == old(self).view(),
            old(self).view().len() == 0 ==> r is None,
            old(self).view().len() > 0 ==> r == Some(&old(self).view()[0]),
    {
        match &self.head {
            Some(n) => Some(&n.value),
            None => None,
        }
    }

    /// Leaves the list as it is.
    pub fn empty(&mut self)
        ensures
            final(self).view() == old(self).view(),
    {
    }
}

} // verus!
