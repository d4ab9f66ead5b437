//! An eager iterator over a sorted batch of strings, for callers that
//! enumerate names or attributes one at a time.

use crate::error::StoreError;
use vstd::prelude::*;

verus! {

/// An owned walk over a batch of strings, handed out one per call.
pub struct XULStoreIterator {
    values: Vec<String>,
    pos: usize,
}

impl XULStoreIterator {
    #[verifier::type_invariant]
    spec fn inv(&self) -> bool {
        self.pos as int <= self.values@.len()
    }

    /// The values still to be handed out.
    pub closed spec fn remaining(&self) -> Seq<String> {
        self.values@.skip(self.pos as int)
    }

    /// Wrap a batch of values; they come back in the order given.
    pub fn new(values: Vec<String>) -> (r: XULStoreIterator)
        ensures
            r.remaining() == values@,
    {
        let r = XULStoreIterator { values, pos: 0 };
        proof {
            assert(r.remaining() =~= r.values@);
        }
        r
    }

    /// Whether another value is left.
    pub fn has_more(&self) -> (r: bool)
        ensures
            r == (self.remaining().len() > 0),
    {
        proof {
            use_type_invariant(&*self);
        }
        self.pos < self.values.len()
    }

    /// Hand out the next value; past the end the answer is exactly
    /// `IterationFinished`.
    pub fn get_next(&mut self) -> (r: Result<String, StoreError>)
        ensures
            old(self).remaining().len() > 0 ==> (r matches Ok(v) && v@ == old(
                self,
            ).remaining()[0]@ && final(self).remaining() == old(self).remaining().drop_first()),
            old(self).remaining().len() == 0 ==> (r matches Err(StoreError::IterationFinished)
                && final(self).remaining() == old(self).remaining()),
    {
        proof {
            use_type_invariant(&*self);
        }
        if self.pos < self.values.len() {
            let v = self.values[self.pos].clone();
            self.pos = self.pos + 1;
            proof {
                assert(self.remaining() =~= old(self).remaining().drop_first());
                assert(old(self).remaining()[0] == old(self).values@[old(self).pos as int]);
            }
            Ok(v)
        } else {
            Err(StoreError::IterationFinished)
        }
    }
}

} // verus!
