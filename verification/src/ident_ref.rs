//! A captured identifier occurrence.

use vstd::prelude::*;
use crate::syntax::Ident;

verus! {

/// A captured occurrence: the name under which it is filed, and a copy of
/// the identifier that it came from, kept so that what is emitted later
/// stands where the occurrence stood.
#[derive(Debug, PartialEq, Eq)]
pub struct IdentRef {
    name: String,
    ident: Ident,
}

impl View for IdentRef {
    type V = Ident;

    /// The identifier that the reference was made from. The name is no
    /// part of the view: it is the symbol of that identifier at all
    /// times, as `name` states.
    closed spec fn view(&self) -> Ident {
        self.ident
    }
}

impl IdentRef {
    /// The name is always the symbol of the identifier.
    #[verifier::type_invariant]
    spec fn name_is_symbol(self) -> bool {
        self.name@ == self.ident.sym@
    }

    /// Captures `ident` under its own symbol.
    pub fn new(ident: Ident) -> (r: IdentRef)
        ensures
            r@ == ident,
    {
        IdentRef { name: ident.sym.clone(), ident }
    }

    /// The name under which the occurrence is filed.
    pub fn name(&self) -> (name: &String)
        ensures
            name@ == self@.sym@,
    {
        proof {
            use_type_invariant(self);
        }
        &self.name
    }

    /// The identifier that the reference was made from.
    pub fn ident(&self) -> (ident: &Ident)
        ensures
            *ident == self@,
    {
        &self.ident
    }
}

} // verus!
