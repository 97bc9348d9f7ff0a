//! An access path that is built from the inside out.

use vstd::prelude::*;
use std::collections::VecDeque;
use crate::syntax::Ident;
use crate::ident_path::idents_of;
pub use crate::ident_ref::IdentRef;

verus! {

/// An access path that grows at its outer end: it begins with the innermost
/// segment, and each enclosing object is put in front of what is there. The
/// path still reads outermost object first.
#[derive(Debug)]
pub struct IdentPath {
    pub path: VecDeque<IdentRef>,
}

impl View for IdentPath {
    type V = Seq<Ident>;

    /// The identifiers of the chain, outermost object first.
    open spec fn view(&self) -> Seq<Ident> {
        idents_of(self.path@)
    }
}

impl IdentPath {
    /// The path of a bare identifier.
    pub fn new(base: Ident) -> (p: IdentPath)
        ensures
            p@ == seq![base],
    {
        let mut path = VecDeque::new();
        path.push_back(IdentRef::new(base));
        let p = IdentPath { path };
        assert(p@ =~= seq![base]);
        p
    }

    /// Puts `ident` in front as the new outermost segment.
    pub fn add(&mut self, ident: Ident)
        ensures
            final(self)@ == seq![ident] + old(self)@,
    {
        self.path.push_front(IdentRef::new(ident));
        assert(self@ =~= seq![ident] + old(self)@);
    }

    /// Removes the segment that was added last, the outermost one.
    pub fn pop_latest(&mut self) -> (latest: Option<IdentRef>)
        ensures
            old(self)@.len() == 0 ==> latest.is_none() && final(self)@ == old(self)@,
            old(self)@.len() > 0 ==> latest.is_some() && latest.unwrap()@ == old(self)@.first()
                && final(self)@ == old(self)@.drop_first(),
    {
        let latest = self.path.pop_front();
        assert(self@ =~= if old(self)@.len() == 0 {
            old(self)@
        } else {
            old(self)@.drop_first()
        });
        latest
    }

    /// Removes the segment that the path began with, the innermost one.
    pub fn pop_first(&mut self) -> (first: Option<IdentRef>)
        ensures
            old(self)@.len() == 0 ==> first.is_none() && final(self)@ == old(self)@,
            old(self)@.len() > 0 ==> first.is_some() && first.unwrap()@ == old(self)@.last()
                && final(self)@ == old(self)@.drop_last(),
    {
        let first = self.path.pop_back();
        assert(self@ =~= if old(self)@.len() == 0 {
            old(self)@
        } else {
            old(self)@.drop_last()
        });
        first
    }
}

} // verus!
