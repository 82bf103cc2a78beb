//! A singly linked list with a read cursor.

use vstd::prelude::*;

verus! {

/// A node of the list, or its end.
pub enum LLNode<T> {
    Node(T, Box<LLNode<T>>),
    EOL,
}

impl<T> LLNode<T> {
    /// The values from this node to the end of the list.
    pub open spec fn values(&self) -> Seq<T>
        decreases self,
    {
        match self {
            LLNode::Node(v, next) => seq![*v] + next.values(),
            LLNode::EOL => Seq::empty(),
        }
    }

    /// The list that follows this node with `value` appended at its end.
    fn append_value(self, value: T) -> (r: LLNode<T>)
        ensures
            r.values() == self.values().push(value),
        decreases self.values().len(),
    {
        match self {
            LLNode::Node(v, next) => {
                let rest = next.append_value(value);
                let r = LLNode::Node(v, Box::new(rest));
                assert(r.values() =~= self.values().push(value));
                r
            },
            LLNode::EOL => {
                let r = LLNode::Node(value, Box::new(LLNode::EOL));
                assert(r.values() =~= seq![value]);
                r
            },
        }
    }

    /// The value `i` nodes further on, if the list is that long.
    fn value_at(&self, i: usize) -> (r: Option<&T>)
        ensures
            r == (if i < self.values().len() {
                Some(&self.values()[i as int])
            } else {
                None
            }),
        decreases self.values().len(),
    {
        match self {
            LLNode::Node(v, next) => {
                if i == 0 {
                    Some(v)
                } else {
                    let r = next.value_at(i - 1);
                    assert(i < self.values().len() ==> self.values()[i as int] == next.values()[i
                        - 1]);
                    r
                }
            },
            LLNode::EOL => None,
        }
    }
}

/// A linked list. Reading with `next` walks it from the head; once the end
/// is reported the next read starts again from the head.
pub struct LinkedList<T> {
    head: LLNode<T>,
    current: Option<usize>,
}

impl<T> LinkedList<T> {
    /// The values of the list, head first.
    pub closed spec fn values(&self) -> Seq<T> {
        self.head.values()
    }

    /// The position of the next value that `next` reads; `None` before the
    /// first read and after the end was reported.
    pub closed spec fn cursor(&self) -> Option<usize> {
        self.current
    }

    /// An empty list.
    pub fn new() -> (r: LinkedList<T>)
        ensures
            r.values() == Seq::<T>::empty(),
            r.cursor() is None,
    {
        LinkedList { head: LLNode::EOL, current: None }
    }

    /// The first node.
    pub fn head(&self) -> (r: &LLNode<T>)
        ensures
            r.values() == self.values(),
    {
        &self.head
    }

    /// Adds `value` at the end.
    pub fn append(&mut self, value: T)
        ensures
            final(self).values() == old(self).values().push(value),
            final(self).cursor() == old(self).cursor(),
    {
        let mut head = LLNode::EOL;
        core::mem::swap(&mut head, &mut self.head);
        self.head = head.append_value(value);
    }

    /// Adds `value` in front.
    pub fn push(&mut self, value: T)
        ensures
            final(self).values() == seq![value] + old(self).values(),
            final(self).cursor() == old(self).cursor(),
    {
        let mut head = LLNode::EOL;
        core::mem::swap(&mut head, &mut self.head);
        self.head = LLNode::Node(value, Box::new(head));
        assert(self.head.values() =~= seq![value] + old(self).values());
    }
}

impl<T: Copy> LinkedList<T> {
    /// Reads the value under the cursor and moves past it; at the end,
    /// reports `None` and puts the cursor back before the head.
    pub fn next(&mut self) -> (r: Option<T>)
        requires
            old(self).values().len() < usize::MAX,
        ensures
            ({
                let k: int = match old(self).cursor() {
                    Some(c) => c as int,
                    None => 0,
                };
                let vs = old(self).values();
                &&& final(self).values() == vs
                &&& r == (if k < vs.len() {
                    Some(vs[k])
                } else {
                    None
                })
                &&& final(self).cursor() == (if k < vs.len() {
                    Some((k + 1) as usize)
                } else {
                    None
                })
            }),
    {
        let k: usize = match self.current {
            Some(c) => c,
            None => 0,
        };
        match self.head.value_at(k) {
            Some(v) => {
                let v = *v;
                self.current = Some(k + 1);
                Some(v)
            },
            None => {
                self.current = None;
                None
            },
        }
    }
}

} // verus!
