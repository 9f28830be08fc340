use vstd::prelude::*;
use crate::error::{lemma_view_parts, Error};
use crate::value::{Value, ValueView};

verus! {

/// A walk over an error's cause chain, outermost first. Each step yields a
/// borrowed entry; a new walk starts from [`Error::chain`].
pub struct Chain<'a> {
    error: &'a Error,
    /// Contexts not yet yielded.
    contexts_left: usize,
    base_done: bool,
    /// Causes of the base already yielded.
    causes_done: usize,
}

impl<'a> Chain<'a> {
    #[verifier::type_invariant]
    spec fn well_formed(self) -> bool {
        &&& self.contexts_left <= self.error.contexts@.len()
        &&& self.contexts_left > 0 ==> !self.base_done
        &&& !self.base_done ==> self.causes_done == 0
        &&& self.causes_done <= self.error.causes@.len()
    }

    /// How many entries of the chain were yielded.
    closed spec fn yielded(self) -> int {
        (self.error.contexts@.len() - self.contexts_left) + (if self.base_done {
            1int
        } else {
            0int
        }) + self.causes_done
    }

    /// The error being walked.
    pub closed spec fn source(self) -> Error {
        *self.error
    }
}

impl<'a> View for Chain<'a> {
    type V = Seq<ValueView>;

    /// The entries still to come, outermost first.
    closed spec fn view(&self) -> Seq<ValueView> {
        self.error@.chain().subrange(self.yielded(), self.error@.chain().len() as int)
    }
}

impl<'a> Chain<'a> {
    /// Yields the next entry, or `None` once the innermost was yielded.
    pub fn next(&mut self) -> (r: Option<&'a Value>)
        ensures
            final(self).source() == old(self).source(),
            old(self)@.len() == 0 ==> r is None && final(self)@ == old(self)@,
            old(self)@.len() > 0 ==> r is Some && r->0@ == old(self)@[0] && final(self)@ == old(
                self,
            )@.drop_first(),
    {
        proof {
            use_type_invariant(&*self);
        }
        let ghost e = self.error@;
        let ghost nc = self.error.contexts@.len();
        proof {
            lemma_view_parts(self.error);
        }
        if self.contexts_left > 0 {
            let i = self.contexts_left - 1;
            let v = &self.error.contexts[i];
            assert(e.chain()[nc - 1 - i] == e.contexts[nc - 1 - i]);
            self.contexts_left = i;
            assert(self@ =~= old(self)@.drop_first());
            Some(v)
        } else if !self.base_done {
            self.base_done = true;
            assert(e.chain()[nc as int] == self.error.base@);
            assert(self@ =~= old(self)@.drop_first());
            Some(&self.error.base)
        } else if self.causes_done < self.error.causes.len() {
            let v = &self.error.causes[self.causes_done];
            assert(e.chain()[nc + 1 + self.causes_done] == v@);
            self.causes_done = self.causes_done + 1;
            assert(self@ =~= old(self)@.drop_first());
            Some(v)
        } else {
            None
        }
    }
}

impl Error {
    /// A walk over this error's cause chain, from the start.
    pub fn chain(&self) -> (r: Chain<'_>)
        ensures
            r@ == self@.chain(),
            r.source() == *self,
    {
        let r = Chain {
            error: self,
            contexts_left: self.contexts.len(),
            base_done: false,
            causes_done: 0,
        };
        assert(r@ =~= self@.chain());
        r
    }

    /// The innermost entry of the cause chain.
    pub fn root_cause(&self) -> (r: &Value)
        ensures
            r@ == self@.root_cause(),
    {
        proof {
            lemma_view_parts(self);
        }
        let n = self.causes.len();
        if n > 0 {
            &self.causes[n - 1]
        } else {
            &self.base
        }
    }
}

} // verus!
