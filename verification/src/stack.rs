//! The last-in, first-out store that the machine computes on.

use vstd::prelude::*;

verus! {

/// A stack of items. Whoever implements it says which sequence of items a
/// value stands for, bottom first, and every operation is stated over that
/// sequence.
pub trait Stack<T: std::fmt::Debug> {
    /// The items on the stack, the oldest first and the top last.
    spec fn items(&self) -> Seq<T>;

    /// Puts `item` on top.
    fn push(&mut self, item: T)
        ensures
            final(self).items() == old(self).items().push(item),
    ;

    /// Takes the top item off, if there is one.
    fn pop(&mut self) -> (item: Option<T>)
        ensures
            old(self).items().len() == 0 ==> {
                &&& item is None
                &&& final(self).items() == old(self).items()
            },
            old(self).items().len() > 0 ==> {
                &&& item == Some(old(self).items().last())
                &&& final(self).items() == old(self).items().drop_last()
            },
    ;

    /// Looks at the top item, if there is one.
    fn peek(&self) -> (item: Option<&T>)
        ensures
            self.items().len() == 0 ==> item is None,
            self.items().len() > 0 ==> item == Some(&self.items().last()),
    ;

    /// Whether the stack holds no item.
    fn is_empty(&self) -> (empty: bool)
        ensures
            empty == (self.items().len() == 0),
    ;

    /// How many items the stack holds.
    fn size(&self) -> (n: usize)
        ensures
            n == self.items().len(),
    ;
}

/// A stack kept in a vector, the top at its end.
pub struct VecStack<T> {
    vec: Vec<T>,
}

impl<T> VecStack<T> {
    /// An empty stack.
    pub fn new() -> (stack: Self)
        ensures
            stack@ == Seq::<T>::empty(),
    {
        Self { vec: Vec::new() }
    }
}

impl<T> View for VecStack<T> {
    type V = Seq<T>;

    closed spec fn view(&self) -> Seq<T> {
        self.vec@
    }
}

impl<T: std::fmt::Debug> Stack<T> for VecStack<T> {
    open spec fn items(&self) -> Seq<T> {
        self@
    }

    fn push(&mut self, item: T) {
        self.vec.push(item);
    }

    fn pop(&mut self) -> (item: Option<T>) {
        self.vec.pop()
    }

    fn peek(&self) -> (item: Option<&T>) {
        self.vec.last()
    }

    fn is_empty(&self) -> (empty: bool) {
        self.vec.is_empty()
    }

    fn size(&self) -> (n: usize) {
        self.vec.len()
    }
}

} // verus!
