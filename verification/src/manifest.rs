//! The manifest: the nested object-literal expression that names each
//! capture once.

use vstd::prelude::*;
use crate::syntax::Ident;

verus! {

/// An expression of the manifest. Only identifiers have a place in the
/// source text; a member access and a nested manifest are made by the
/// analysis and stand nowhere in it.
#[derive(Debug, PartialEq, Eq)]
pub enum ManifestExpr {
    /// A direct reference to a bare identifier.
    Ident(Ident),
    /// A direct reference to a member of an object, `obj.prop`.
    Member { obj: Box<ManifestExpr>, prop: Ident },
    /// A nested manifest, `{ key: value, .. }`.
    Object(Vec<ManifestProp>),
}

/// One `key: value` entry of a manifest.
#[derive(Debug, PartialEq, Eq)]
pub struct ManifestProp {
    pub key: Ident,
    pub value: ManifestExpr,
}

/// A manifest expression as a mathematical tree.
pub enum ExprView {
    Ident(Ident),
    Member { obj: Box<ExprView>, prop: Ident },
    Object(Seq<PropView>),
}

/// A manifest entry as a mathematical value.
pub struct PropView {
    pub key: Ident,
    pub value: ExprView,
}

impl View for ManifestExpr {
    type V = ExprView;

    open spec fn view(&self) -> ExprView
        decreases self,
    {
        match self {
            ManifestExpr::Ident(ident) => ExprView::Ident(*ident),
            ManifestExpr::Member { obj, prop } => ExprView::Member {
                obj: Box::new((**obj).view()),
                prop: *prop,
            },
            ManifestExpr::Object(props) => ExprView::Object(prop_views(props@)),
        }
    }
}

impl View for ManifestProp {
    type V = PropView;

    open spec fn view(&self) -> PropView
        decreases self,
    {
        PropView { key: self.key, value: self.value.view() }
    }
}

/// The views of a sequence of entries, in the same order.
pub open spec fn prop_views(props: Seq<ManifestProp>) -> Seq<PropView>
    decreases props,
{
    if props.len() == 0 {
        Seq::empty()
    } else {
        prop_views(props.drop_last()).push(props.last().view())
    }
}

/// `prop_views` entry by entry.
pub proof fn lemma_prop_views(props: Seq<ManifestProp>)
    ensures
        prop_views(props).len() == props.len(),
        forall|i: int|
            #![trigger prop_views(props)[i]]
            #![trigger props[i]]
            0 <= i < props.len() ==> prop_views(props)[i] == props[i]@,
    decreases props.len(),
{
    if props.len() > 0 {
        lemma_prop_views(props.drop_last());
        assert(prop_views(props) == prop_views(props.drop_last()).push(props.last()@));
    } else {
        assert(prop_views(props) == Seq::<PropView>::empty());
    }
}

/// The direct reference that an access path stands for: the identifier
/// itself for a path of one segment, and otherwise the member named by the
/// last segment of what the segments before it stand for.
pub open spec fn member_chain(path: Seq<Ident>) -> ExprView
    recommends
        path.len() >= 1,
    decreases path.len(),
{
    if path.len() <= 1 {
        ExprView::Ident(path[0])
    } else {
        ExprView::Member { obj: Box::new(member_chain(path.drop_last())), prop: path.last() }
    }
}

} // verus!
