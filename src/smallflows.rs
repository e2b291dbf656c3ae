use vstd::prelude::*;

use crate::flow::Flow;

verus! {

/// A short list of edges; most instructions have one or two, kept inline.
#[verifier::external_body]
#[derive(Debug)]
pub struct Flows {
    inner: smallvec::SmallVec<[Flow; 2]>,
}

/// The edges a list holds, in order.
pub uninterp spec fn flows_in(v: Flows) -> Seq<Flow>;

impl View for Flows {
    type V = Seq<Flow>;

    open spec fn view(&self) -> Seq<Flow> {
        flows_in(*self)
    }
}

impl Flows {
    /// Relies on `SmallVec::new`: an empty vector.
    #[verifier::external_body]
    pub(crate) fn new() -> (r: Flows)
        ensures
            flows_in(r) == Seq::<Flow>::empty(),
    {
        Flows { inner: smallvec::SmallVec::new() }
    }

    /// Relies on `SmallVec::push`: appends one item at the end.
    #[verifier::external_body]
    pub(crate) fn push(&mut self, f: Flow)
        ensures
            flows_in(*final(self)) == flows_in(*old(self)).push(f),
    {
        self.inner.push(f)
    }

    /// Relies on `SmallVec::len`: the number of items.
    #[verifier::external_body]
    pub(crate) fn len(&self) -> (r: usize)
        ensures
            r == flows_in(*self).len(),
    {
        self.inner.len()
    }

    /// Relies on indexing a `SmallVec`: the item at `i`.
    #[verifier::external_body]
    pub(crate) fn get(&self, i: usize) -> (r: Flow)
        requires
            i < flows_in(*self).len(),
        ensures
            r == flows_in(*self)[i as int],
    {
        self.inner[i]
    }

    /// A list holding the edges of `v`, in order.
    pub fn from_vec(v: &Vec<Flow>) -> (r: Flows)
        ensures
            r@ == v@,
    {
        let mut r = Flows::new();
        let mut i: usize = 0;
        while i < v.len()
            invariant
                i <= v@.len(),
                r@ == v@.take(i as int),
            decreases v@.len() - i,
        {
            r.push(v[i]);
            assert(r@ =~= v@.take(i + 1));
            i = i + 1;
        }
        assert(v@.take(v@.len() as int) =~= v@);
        r
    }

    /// The edges of the list, in order.
    pub fn to_vec(&self) -> (r: Vec<Flow>)
        ensures
            r@ == self@,
    {
        let mut r: Vec<Flow> = Vec::new();
        let n = self.len();
        let mut i: usize = 0;
        while i < n
            invariant
                n == self@.len(),
                i <= n,
                r@ == self@.take(i as int),
            decreases n - i,
        {
            r.push(self.get(i));
            assert(r@ =~= self@.take(i + 1));
            i = i + 1;
        }
        assert(self@.take(n as int) =~= self@);
        r
    }

    /// A copy of the list.
    pub fn copy(&self) -> (r: Flows)
        ensures
            r@ == self@,
    {
        let mut r = Flows::new();
        let n = self.len();
        let mut i: usize = 0;
        while i < n
            invariant
                n == self@.len(),
                i <= n,
                r@ == self@.take(i as int),
            decreases n - i,
        {
            r.push(self.get(i));
            assert(r@ =~= self@.take(i + 1));
            i = i + 1;
        }
        assert(self@.take(n as int) =~= self@);
        r
    }
}

} // verus!
