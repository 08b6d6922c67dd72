//! Steps that read or change a whole document, chained into pipelines.
//!
//! A step gets the document and the output of the step before it (`None` for the first) and
//! returns its own output or an error. `Chain` runs two steps in order and stops at the first
//! error. `ResetExecutor` puts the document back as it was when a pipeline fails.
use vstd::prelude::*;

use core::marker::PhantomData;

use crate::value::{model, Value};

verus! {

/// A step of a pipeline over a document.
pub trait Query<Prev, E>: Sized {
    type Output;

    /// Whether a run of this step on `before`, given `prev`, may leave the document as `after`
    /// and return `r`. A step that says nothing of itself allows every outcome.
    open spec fn runs(&self, before: Value, prev: Option<Prev>, after: Value, r: Result<Self::Output, E>) -> bool {
        true
    }

    /// Runs this step on `target`.
    fn execute(&self, target: &mut Value, prev_result: Option<Prev>) -> (r: Result<Self::Output, E>)
        ensures
            self.runs(*old(target), prev_result, *final(target), r),
    ;

    /// This step, then `other` on its output.
    fn chain<Q>(self, other: Q) -> (c: Chain<Self, Prev, Q, E>)
        ensures
            c.first == self,
            c.second == other,
    {
        Chain { first: self, _p: PhantomData, second: other, _e: PhantomData }
    }
}

/// Two steps run one after the other: `second` runs on the output of `first`, and not at all
/// where `first` fails. A chain is a step only where `second` takes what `first` outputs.
pub struct Chain<A, P, B, E> {
    pub first: A,
    pub _p: PhantomData<P>,
    pub second: B,
    pub _e: PhantomData<E>,
}

impl<A, P, B, E> Query<P, E> for Chain<A, P, B, E> where A: Query<P, E>, B: Query<A::Output, E> {
    type Output = B::Output;

    open spec fn runs(&self, before: Value, prev: Option<P>, after: Value, r: Result<B::Output, E>) -> bool {
        exists|mid: Value, r1: Result<A::Output, E>|
            #[trigger] self.first.runs(before, prev, mid, r1) && match r1 {
                Err(e) => r == Err::<B::Output, E>(e) && after == mid,
                Ok(p) => self.second.runs(mid, Some(p), after, r),
            }
    }

    fn execute(&self, target: &mut Value, prev_result: Option<P>) -> (r: Result<B::Output, E>) {
        let r1 = self.first.execute(target, prev_result);
        let ghost mid = *target;
        let ghost g1 = r1;
        match r1 {
            Err(e) => {
                let r = Err(e);
                assert(self.first.runs(*old(target), prev_result, mid, g1));
                r
            },
            Ok(p) => {
                let r = self.second.execute(target, Some(p));
                assert(self.first.runs(*old(target), prev_result, mid, g1));
                r
            },
        }
    }
}

pub open spec fn chain_of<A, P, B, E>(a: A, b: B) -> Chain<A, P, B, E> {
    Chain { first: a, _p: PhantomData, second: b, _e: PhantomData }
}

/// Chaining is associative: `(a then b) then c` and `a then (b then c)` allow the same outcomes,
/// the same output and the same document, for the same document and input.
pub proof fn lemma_chain_associative<A, P, B, C, E>(
    a: A,
    b: B,
    c: C,
    before: Value,
    prev: Option<P>,
    after: Value,
    r: Result<C::Output, E>,
) where A: Query<P, E>, B: Query<A::Output, E>, C: Query<B::Output, E>
    ensures
        chain_of::<Chain<A, P, B, E>, P, C, E>(chain_of(a, b), c).runs(before, prev, after, r)
            <==> chain_of::<A, P, Chain<B, A::Output, C, E>, E>(a, chain_of(b, c)).runs(before, prev, after, r),
{
    let ab = chain_of::<A, P, B, E>(a, b);
    let bc = chain_of::<B, A::Output, C, E>(b, c);
    let left = chain_of::<Chain<A, P, B, E>, P, C, E>(ab, c);
    let right = chain_of::<A, P, Chain<B, A::Output, C, E>, E>(a, bc);
    assert(ab.first == a && ab.second == b);
    assert(bc.first == b && bc.second == c);
    assert(left.first == ab && left.second == c);
    assert(right.first == a && right.second == bc);
    if left.runs(before, prev, after, r) {
        let (mid1, r1) = choose|mid1: Value, r1: Result<B::Output, E>|
            #[trigger] ab.runs(before, prev, mid1, r1) && match r1 {
                Err(e) => r == Err::<C::Output, E>(e) && after == mid1,
                Ok(p) => c.runs(mid1, Some(p), after, r),
            };
        let (mid0, r0) = choose|mid0: Value, r0: Result<A::Output, E>|
            #[trigger] a.runs(before, prev, mid0, r0) && match r0 {
                Err(e) => r1 == Err::<B::Output, E>(e) && mid1 == mid0,
                Ok(q) => b.runs(mid0, Some(q), mid1, r1),
            };
        match r0 {
            Err(e) => {
                assert(a.runs(before, prev, mid0, r0));
            },
            Ok(q) => {
                assert(b.runs(mid0, Some(q), mid1, r1));
                assert(bc.runs(mid0, Some(q), after, r));
                assert(a.runs(before, prev, mid0, r0));
            },
        }
    }
    if right.runs(before, prev, after, r) {
        let (mid0, r0) = choose|mid0: Value, r0: Result<A::Output, E>|
            #[trigger] a.runs(before, prev, mid0, r0) && match r0 {
                Err(e) => r == Err::<C::Output, E>(e) && after == mid0,
                Ok(q) => bc.runs(mid0, Some(q), after, r),
            };
        match r0 {
            Err(e) => {
                let r1 = Err::<B::Output, E>(e);
                assert(a.runs(before, prev, mid0, r0));
                assert(ab.runs(before, prev, mid0, r1));
                assert(left.runs(before, prev, after, r));
            },
            Ok(q) => {
                let (mid1, r1) = choose|mid1: Value, r1: Result<B::Output, E>|
                    #[trigger] b.runs(mid0, Some(q), mid1, r1) && match r1 {
                        Err(e) => r == Err::<C::Output, E>(e) && after == mid1,
                        Ok(p) => c.runs(mid1, Some(p), after, r),
                    };
                assert(a.runs(before, prev, mid0, r0));
                assert(ab.runs(before, prev, mid1, r1));
                assert(left.runs(before, prev, after, r));
            },
        }
    }
}

/// A chain whose first step fails, whatever happens in it, ends as that step alone ends: with
/// its error and its document, the second step having had no effect.
pub proof fn lemma_chain_stops_at_error<A, P, B, E>(
    a: A,
    b: B,
    before: Value,
    prev: Option<P>,
    after: Value,
    r: Result<B::Output, E>,
) where A: Query<P, E>, B: Query<A::Output, E>
    requires
        chain_of::<A, P, B, E>(a, b).runs(before, prev, after, r),
        forall|mid: Value, r1: Result<A::Output, E>| #[trigger] a.runs(before, prev, mid, r1) ==> r1 is Err,
    ensures
        r is Err,
        a.runs(before, prev, after, Err(r->Err_0)),
{
    assert(chain_of::<A, P, B, E>(a, b).first == a);
    let (mid, r1) = choose|mid: Value, r1: Result<A::Output, E>|
        #[trigger] a.runs(before, prev, mid, r1) && match r1 {
            Err(e) => r == Err::<B::Output, E>(e) && after == mid,
            Ok(p) => b.runs(mid, Some(p), after, r),
        };
    assert(r1 is Err);
}

/// Runs a step on a document.
pub trait QueryExecutor {
    fn query<Q, T, E>(&mut self, q: &Q) -> Result<Q::Output, E> where Q: Query<T, E>;
}

impl QueryExecutor for Value {
    /// Runs `q` on this document with no previous output.
    fn query<Q, T, E>(&mut self, q: &Q) -> (r: Result<Q::Output, E>) where Q: Query<T, E>
        ensures
            q.runs(*old(self), None, *final(self), r),
    {
        q.execute(self, None)
    }
}

/// Runs steps on a document and, where one fails, puts the document back as it was when the
/// executor was made. It keeps a full copy of the document for that.
pub struct ResetExecutor<'doc>(pub &'doc mut Value, pub Value);

impl<'doc> ResetExecutor<'doc> {
    /// An executor on `doc`, with a copy of `doc` as it is now.
    pub fn new(doc: &'doc mut Value) -> (r: ResetExecutor<'doc>)
        ensures
            *r.0 == *old(doc),
            model(r.1) == model(*old(doc)),
            *final(r.0) == *final(doc),
    {
        let copy = doc.clone();
        ResetExecutor(doc, copy)
    }
}

impl<'doc> QueryExecutor for ResetExecutor<'doc> {
    /// Runs `q` with no previous output; where it fails, the document is the copy again.
    fn query<Q, T, E>(&mut self, q: &Q) -> (r: Result<Q::Output, E>) where Q: Query<T, E>
        ensures
            final(self).1 == old(self).1,
            *final(final(self).0) == *final(old(self).0),
            match r {
                Ok(o) => q.runs(*old(self).0, None, *final(self).0, Ok(o)),
                Err(e) => {
                    &&& exists|after: Value| q.runs(*old(self).0, None, after, Err(e))
                    &&& model(*final(self).0) == model(old(self).1)
                },
            },
    {
        let r = q.execute(self.0, None);
        match r {
            Ok(o) => Ok(o),
            Err(e) => {
                let copy = self.1.clone();
                *self.0 = copy;
                Err(e)
            },
        }
    }
}

/// Runs `q` on `doc` all or nothing: where it fails, `doc` is as it was before the call.
pub fn query_or_reset<Q, T, E>(doc: &mut Value, q: &Q) -> (r: Result<Q::Output, E>) where Q: Query<T, E>
    ensures
        match r {
            Ok(o) => q.runs(*old(doc), None, *final(doc), Ok(o)),
            Err(e) => {
                &&& exists|after: Value| q.runs(*old(doc), None, after, Err(e))
                &&& model(*final(doc)) == model(*old(doc))
            },
        },
{
    let mut exec = ResetExecutor::new(doc);
    exec.query(q)
}

} // verus!
