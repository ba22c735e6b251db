//! A replayable iterator over a sequence of items.
use std::rc::Rc;
use vstd::prelude::*;

verus! {

/// The items of `s` in reverse order.
pub open spec fn reversed<T>(s: Seq<T>) -> Seq<T> {
    Seq::new(s.len(), |i: int| s[s.len() - 1 - i])
}

/// Hands out its items one at a time, wrapping each in an `Rc` the first
/// time it is reached and keeping it, so that after `reset` the same items
/// come again in the same order.
pub struct CachedIterator<T> {
    visited: Vec<Rc<T>>,
    to_visit: Vec<T>,
    index: usize,
}

impl<T> CachedIterator<T> {
    /// All the items, in order: those handed out so far, then the rest.
    pub closed spec fn items(&self) -> Seq<T> {
        self.visited@.map_values(|r: Rc<T>| *r) + reversed(self.to_visit@)
    }

    /// How many items the current traversal has handed out.
    pub closed spec fn cursor(&self) -> nat {
        self.index as nat
    }

    pub closed spec fn wf(&self) -> bool {
        self.index <= self.visited.len()
    }

    pub fn new(to_visit: Vec<T>) -> (r: Self)
        ensures
            r.wf(),
            r.items() == to_visit@,
            r.cursor() == 0,
    {
        let ghost all = to_visit@;
        let mut source = to_visit;
        let mut pending: Vec<T> = Vec::new();
        while source.len() > 0
            invariant
                source@ + reversed(pending@) == all,
            decreases source.len(),
        {
            let ghost before = pending@;
            let ghost rest = source@;
            match source.pop() {
                Some(t) => {
                    pending.push(t);
                    assert(reversed(pending@) =~= seq![t] + reversed(before));
                    assert(rest =~= source@.push(t));
                    assert(source@ + reversed(pending@) =~= source@.push(t) + reversed(before));
                },
                None => {},
            }
        }
        let r = CachedIterator { visited: Vec::new(), to_visit: pending, index: 0 };
        assert(r.items() =~= all);
        r
    }

    /// Rewinds the traversal; the items handed out are kept.
    pub fn reset(&mut self)
        requires
            old(self).wf(),
        ensures
            final(self).wf(),
            final(self).items() == old(self).items(),
            final(self).cursor() == 0,
    {
        self.index = 0;
    }

    /// The item at the cursor, or `None` once all have been handed out.
    pub fn next(&mut self) -> (r: Option<Rc<T>>)
        requires
            old(self).wf(),
        ensures
            final(self).wf(),
            final(self).items() == old(self).items(),
            old(self).cursor() < old(self).items().len() ==> {
                &&& r matches Some(x) && *x == old(self).items()[old(self).cursor() as int]
                &&& final(self).cursor() == old(self).cursor() + 1
            },
            old(self).cursor() >= old(self).items().len() ==> {
                &&& r is None
                &&& final(self).cursor() == old(self).cursor()
            },
    {
        let ghost items = self.items();
        if self.index < self.visited.len() {
            let i = self.index;
            self.index = i + 1;
            Some(self.visited[i].clone())
        } else {
            let ghost before = self.visited@;
            match self.to_visit.pop() {
                Some(t) => {
                    let t_ptr = Rc::new(t);
                    self.visited.push(t_ptr.clone());
                    self.index = self.visited.len();
                    assert(self.items() =~= items);
                    Some(t_ptr)
                },
                None => None,
            }
        }
    }
}

} // verus!
