//! One member-access chain under construction.

use vstd::prelude::*;
use std::collections::VecDeque;
use crate::syntax::Ident;
use crate::ident_ref::IdentRef;

verus! {

/// The identifiers behind a sequence of references, in the same order.
pub open spec fn idents_of(refs: Seq<IdentRef>) -> Seq<Ident> {
    refs.map_values(|r: IdentRef| r@)
}

/// An access path that grows at its inner end: the object comes first and
/// each property is appended after it.
#[derive(Debug)]
pub struct IdentPath {
    pub path: VecDeque<IdentRef>,
}

impl View for IdentPath {
    type V = Seq<Ident>;

    /// The identifiers of the chain, outermost object first.
    open spec fn view(&self) -> Seq<Ident> {
        idents_of(self.path@)
    }
}

impl IdentPath {
    /// The path of a bare identifier.
    pub fn new(ident: Ident) -> (p: IdentPath)
        ensures
            p@ == seq![ident],
    {
        let mut path = VecDeque::new();
        path.push_back(IdentRef::new(ident));
        let p = IdentPath { path };
        assert(p@ =~= seq![ident]);
        p
    }

    /// Appends `ident` as the new innermost segment.
    pub fn push(&mut self, ident: Ident)
        ensures
            final(self)@ == old(self)@.push(ident),
    {
        self.path.push_back(IdentRef::new(ident));
        assert(self@ =~= old(self)@.push(ident));
    }

    /// Removes the segment that was appended last, the innermost one.
    pub fn pop_latest(&mut self) -> (latest: Option<IdentRef>)
        ensures
            old(self)@.len() == 0 ==> latest.is_none() && final(self)@ == old(self)@,
            old(self)@.len() > 0 ==> latest.is_some() && latest.unwrap()@ == old(self)@.last()
                && final(self)@ == old(self)@.drop_last(),
    {
        let latest = self.path.pop_back();
        assert(self@ =~= if old(self)@.len() == 0 {
            old(self)@
        } else {
            old(self)@.drop_last()
        });
        latest
    }

    /// Removes the segment that the path began with, the outermost one.
    pub fn pop_first(&mut self) -> (first: Option<IdentRef>)
        ensures
            old(self)@.len() == 0 ==> first.is_none() && final(self)@ == old(self)@,
            old(self)@.len() > 0 ==> first.is_some() && first.unwrap()@ == old(self)@.first()
                && final(self)@ == old(self)@.drop_first(),
    {
        let first = self.path.pop_front();
        assert(self@ =~= if old(self)@.len() == 0 {
            old(self)@
        } else {
            old(self)@.drop_first()
        });
        first
    }

    /// The number of segments.
    pub fn depth(&self) -> (n: usize)
        ensures
            n == self@.len(),
    {
        self.path.len()
    }

    /// Whether the path has no segment.
    pub fn is_empty(&self) -> (b: bool)
        ensures
            b == (self@.len() == 0),
    {
        self.path.len() == 0
    }
}

} // verus!
