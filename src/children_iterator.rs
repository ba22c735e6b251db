//! A replayable iterator over the children of a node.
use std::rc::Rc;
use vstd::prelude::*;

use crate::cached_iter::CachedIterator;

verus! {

/// Iterates over a node's children and can replay them after `reset`.
pub struct ChildrenIterator<T> {
    inner: CachedIterator<T>,
}

impl<T> ChildrenIterator<T> {
    /// The children, in order.
    pub closed spec fn items(&self) -> Seq<T> {
        self.inner.items()
    }

    pub closed spec fn cursor(&self) -> nat {
        self.inner.cursor()
    }

    pub closed spec fn wf(&self) -> bool {
        self.inner.wf()
    }

    pub fn new(to_visit: Vec<T>) -> (r: Self)
        ensures
            r.wf(),
            r.items() == to_visit@,
            r.cursor() == 0,
    {
        ChildrenIterator { inner: CachedIterator::new(to_visit) }
    }

    pub fn reset(&mut self)
        requires
            old(self).wf(),
        ensures
            final(self).wf(),
            final(self).items() == old(self).items(),
            final(self).cursor() == 0,
    {
        self.inner.reset();
    }

    pub fn next(&mut self) -> (r: Option<Rc<T>>)
        requires
            old(self).wf(),
        ensures
            final(self).wf(),
            final(self).items() == old(self).items(),
            old(self).cursor() < old(self).items().len() ==> {
                &&& r matches Some(x) && *x == old(self).items()[old(self).cursor() as int]
                &&& final(self).cursor() == old(self).cursor() + 1
            },
            old(self).cursor() >= old(self).items().len() ==> {
                &&& r is None
                &&& final(self).cursor() == old(self).cursor()
            },
    {
        self.inner.next()
    }
}

} // verus!
