//! The syntax that the analysis reads: identifiers, and the handful of node
//! kinds whose shape decides how an identifier occurrence is classified.
//!
//! A host that has a richer syntax tree hands over, for each of these
//! kinds, a node of that kind, and for everything else a node that only
//! holds the children in source order.

use vstd::prelude::*;

verus! {

/// A range of byte positions in the source text.
#[derive(Clone, Copy, Debug, PartialEq, Eq, Structural)]
pub struct Span {
    pub lo: u32,
    pub hi: u32,
}

impl Span {
    /// The span of a node that stands nowhere in the source text.
    pub fn dummy() -> (span: Span)
        ensures
            span == (Span { lo: 0, hi: 0 }),
    {
        Span { lo: 0, hi: 0 }
    }
}

/// One identifier occurrence: its symbol, where it stands, the syntax
/// context that the host gave it, and whether it is marked optional.
#[derive(Debug, PartialEq, Eq)]
pub struct Ident {
    pub sym: String,
    pub span: Span,
    pub ctxt: u32,
    pub optional: bool,
}

impl Ident {
    /// An identifier with the given symbol and span, in the empty syntax
    /// context and not optional.
    pub fn new(sym: String, span: Span) -> (ident: Ident)
        ensures
            ident == (Ident { sym, span, ctxt: 0, optional: false }),
    {
        Ident { sym, span, ctxt: 0, optional: false }
    }
}

impl Clone for Ident {
    /// A copy that is equal to the identifier in every field.
    fn clone(&self) -> (copy: Ident)
        ensures
            copy == *self,
    {
        Ident {
            sym: self.sym.clone(),
            span: self.span,
            ctxt: self.ctxt,
            optional: self.optional,
        }
    }
}

/// A node of the syntax tree, as far as the analysis tells node kinds apart.
#[derive(Debug, PartialEq, Eq)]
pub enum Node {
    /// An identifier occurrence.
    Ident(Ident),
    /// A member access, `obj.prop` or `obj[prop]`.
    Member(MemberExpr),
    /// An assignment, `left = right` or a compound form of it.
    Assign(AssignExpr),
    /// One binding of a variable declaration, `name = init`.
    VarDeclarator(VarDeclarator),
    /// A function declaration, `function ident(..) { .. }`.
    FnDecl(FnDecl),
    /// A `key: value` property of an object literal.
    KeyValueProp(KeyValueProp),
    /// Any other syntax, with its children in source order. A node without
    /// children stands for syntax that holds no identifier, such as a
    /// literal.
    Other(Vec<Node>),
}

/// A member access: the object, and the property that is read from it.
#[derive(Debug, PartialEq, Eq)]
pub struct MemberExpr {
    pub obj: Box<Node>,
    pub prop: Box<Node>,
}

/// An assignment: the target on the left, the value on the right.
#[derive(Debug, PartialEq, Eq)]
pub struct AssignExpr {
    pub left: Box<Node>,
    pub right: Box<Node>,
}

/// One binding of a variable declaration: the name or pattern that is
/// bound, and the initializer if there is one.
#[derive(Debug, PartialEq, Eq)]
pub struct VarDeclarator {
    pub name: Box<Node>,
    pub init: Option<Box<Node>>,
}

/// A function declaration: the function's own name, and the children of
/// the function itself, parameters first and body after them.
#[derive(Debug, PartialEq, Eq)]
pub struct FnDecl {
    pub ident: Ident,
    pub function: Vec<Node>,
}

/// A `key: value` property: the key, which is never looked at, and the
/// value.
#[derive(Debug, PartialEq, Eq)]
pub struct KeyValueProp {
    pub key: Box<Node>,
    pub value: Box<Node>,
}

} // verus!
