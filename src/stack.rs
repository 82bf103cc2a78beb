//! A last-in, first-out stack over a vector.

use vstd::prelude::*;

verus! {

/// A stack; its top is the last element of its view.
pub struct Stack<T> {
    inner: Vec<T>,
}

impl<T> View for Stack<T> {
    type V = Seq<T>;

    closed spec fn view(&self) -> Seq<T> {
        self.inner@
    }
}

impl<T> Stack<T> {
    /// A stack holding `vec`, whose last element is the top.
    pub fn from(vec: Vec<T>) -> (r: Stack<T>)
        ensures
            r@ == vec@,
    {
        Stack { inner: vec }
    }

    /// Puts `value` on top.
    pub fn push(&mut self, value: T)
        ensures
            final(self)@ == old(self)@.push(value),
    {
        self.inner.push(value);
    }

    /// Removes the top, if there is one.
    pub fn pop(&mut self)
        ensures
            final(self)@ == (if old(self)@.len() == 0 {
                old(self)@
            } else {
                old(self)@.drop_last()
            }),
    {
        let _ = self.inner.pop();
        assert(self.inner@ =~= (if old(self)@.len() == 0 {
            old(self)@
        } else {
            old(self)@.drop_last()
        }));
    }

    /// The top, if there is one.
    pub fn peak(&self) -> (r: Option<&T>)
        ensures
            r == (if self@.len() == 0 {
                None
            } else {
                Some(&self@.last())
            }),
    {
        let n = self.inner.len();
        if n == 0 {
            None
        } else {
            Some(&self.inner[n - 1])
        }
    }

    /// Whether the stack holds nothing.
    pub fn is_empty(&self) -> (r: bool)
        ensures
            r == (self@.len() == 0),
    {
        self.inner.len() == 0
    }
}

} // verus!
