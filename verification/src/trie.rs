//! The capture trie: a prefix tree of access paths, keyed by identifier name.

use vstd::prelude::*;
use crate::ident_path::IdentPath;
use crate::ident_ref::IdentRef;
use crate::manifest::{ManifestExpr, ManifestProp, lemma_prop_views, member_chain, prop_views};
use crate::seq_facts::lemma_filter_step;
use crate::syntax::Ident;
use crate::trie_view::{
    TrieView, keyed_by_none_of, lemma_insert_wf, lemma_position_is, lemma_remove_wf, names_of,
    position,
};

verus! {

/// A node of the capture trie. The children are kept in the order in which
/// they were first reached, and no two of them have the same name. They
/// stand in a vector and not in a hash map keyed by name: Verus takes such
/// a map, but vstd has no key model for `String`, so that not even the
/// number of entries after one insertion can be proved of it.
#[derive(Debug)]
pub struct ClosureTrie {
    nodes: Vec<ClosureTrie>,
    ident: Option<IdentRef>,
    is_leaf: bool,
}

impl View for ClosureTrie {
    type V = TrieView;

    closed spec fn view(&self) -> TrieView
        decreases self,
    {
        TrieView {
            ident: match self.ident {
                Some(r) => Some(r@),
                None => None,
            },
            is_leaf: self.is_leaf,
            children: views_of(self.nodes@),
        }
    }
}

/// The views of a sequence of nodes, in the same order.
closed spec fn views_of(nodes: Seq<ClosureTrie>) -> Seq<TrieView>
    decreases nodes,
{
    if nodes.len() == 0 {
        Seq::empty()
    } else {
        views_of(nodes.drop_last()).push(nodes.last().view())
    }
}

/// `views_of` node by node.
proof fn lemma_views_of(nodes: Seq<ClosureTrie>)
    ensures
        views_of(nodes).len() == nodes.len(),
        forall|i: int| 0 <= i < nodes.len() ==> #[trigger] views_of(nodes)[i] == nodes[i]@,
    decreases nodes.len(),
{
    if nodes.len() > 0 {
        lemma_views_of(nodes.drop_last());
        assert(views_of(nodes) == views_of(nodes.drop_last()).push(nodes.last().view()));
    } else {
        assert(views_of(nodes) == Seq::<TrieView>::empty());
    }
}

impl ClosureTrie {
    /// A trie is well formed at all times.
    #[verifier::type_invariant]
    pub open spec fn well_formed(self) -> bool {
        self@.wf()
    }

    /// The view node by node: the fields of the node, and the views of the
    /// children in their order.
    proof fn lemma_view(self)
        ensures
            self@.is_leaf == self.is_leaf,
            self@.ident == match self.ident {
                Some(r) => Some(r@),
                None => None,
            },
            self@.children.len() == self.nodes@.len(),
            forall|i: int| 0 <= i < self.nodes@.len() ==> #[trigger] self@.children[i] == self.nodes@[i]@,
    {
        lemma_views_of(self.nodes@);
    }

    /// A node without children that is no leaf. The root of a trie is made
    /// with no identifier.
    pub fn new(ident: Option<IdentRef>) -> (trie: ClosureTrie)
        ensures
            trie@ == TrieView::empty(
                match ident {
                    Some(r) => Some(r@),
                    None => None,
                },
            ),
            trie@.wf(),
    {
        let trie = ClosureTrie { nodes: Vec::new(), ident, is_leaf: false };
        proof {
            trie.lemma_view();
            assert(trie@.children =~= Seq::empty());
        }
        trie
    }

    /// The index of the first child keyed `name`, or the number of children.
    fn find(&self, name: &String) -> (at: usize)
        ensures
            at == position(self@.children, name@),
            at <= self.nodes.len(),
    {
        let mut at: usize = 0;
        proof {
            self.lemma_view();
        }
        while at < self.nodes.len()
            invariant
                at <= self.nodes.len(),
                self@.children.len() == self.nodes@.len(),
                forall|i: int|
                    0 <= i < self.nodes@.len() ==> #[trigger] self@.children[i] == self.nodes@[i]@,
                forall|j: int|
                    0 <= j < at ==> !((#[trigger] self@.children[j]).ident.is_some()
                        && self@.children[j].key() == name@),
            decreases self.nodes.len() - at,
        {
            proof {
                self.nodes@[at as int].lemma_view();
            }
            let hit = match &self.nodes[at].ident {
                Some(r) => *r.name() == *name,
                None => false,
            };
            assert(hit == (self@.children[at as int].ident.is_some() && self@.children[at as int].key()
                == name@));
            if hit {
                proof {
                    lemma_position_is(self@.children, name@, at as int);
                }
                return at;
            }
            at += 1;
        }
        proof {
            lemma_position_is(self@.children, name@, at as int);
        }
        at
    }

    /// Whether `name` is one of `names`.
    fn is_one_of(name: &String, names: &Vec<String>) -> (found: bool)
        ensures
            found == names_of(names@).contains(name@),
    {
        let mut k: usize = 0;
        while k < names.len()
            invariant
                k <= names.len(),
                forall|j: int| 0 <= j < k ==> names_of(names@)[j] != name@,
            decreases names.len() - k,
        {
            if names[k] == *name {
                assert(names_of(names@)[k as int] == name@);
                return true;
            }
            k += 1;
        }
        false
    }

    /// Removes the children of this node that are keyed by one of `nodes`.
    /// Deeper levels are left as they are.
    pub fn remove_nodes(&mut self, nodes: &Vec<String>)
        ensures
            final(self)@ == old(self)@.remove(names_of(nodes@)),
            final(self)@.wf(),
    {
        proof {
            use_type_invariant(&*self);
            self.lemma_view();
        }
        let ghost names = names_of(nodes@);
        let ghost pred = keyed_by_none_of(names);
        let ghost all = self@.children;
        // The children are worked on outside the node, which has none
        // meanwhile, and are put back once the named ones are gone.
        let mut kept: Vec<ClosureTrie> = Vec::new();
        proof {
            lemma_views_of(kept@);
        }
        std::mem::swap(&mut self.nodes, &mut kept);
        let mut i: usize = 0;
        let ghost mut seen: int = 0;
        proof {
            lemma_views_of(kept@);
            reveal(Seq::filter);
            assert(views_of(kept@) =~= all.take(0).filter(pred) + all.skip(0));
        }
        while i < kept.len()
            invariant
                0 <= seen <= all.len(),
                i <= kept.len(),
                i == all.take(seen).filter(pred).len(),
                views_of(kept@) == all.take(seen).filter(pred) + all.skip(seen),
                names == names_of(nodes@),
                pred == keyed_by_none_of(names),
                forall|k: int| 0 <= k < all.len() ==> (#[trigger] all[k]).ident.is_some(),
            decreases kept.len() - i,
        {
            proof {
                lemma_views_of(kept@);
                kept@[i as int].lemma_view();
                lemma_filter_step(all, pred, seen);
                assert(views_of(kept@)[i as int] == all[seen]);
            }
            let declared = match &kept[i].ident {
                Some(r) => Self::is_one_of(r.name(), nodes),
                None => false,
            };
            if declared {
                let ghost before = kept@;
                kept.remove(i);
                proof {
                    lemma_views_of(before);
                    lemma_views_of(kept@);
                    let front = all.take(seen).filter(pred);
                    assert forall|k: int| 0 <= k < kept@.len() implies views_of(kept@)[k] == (front
                        + all.skip(seen + 1))[k] by {
                        if k < i {
                            assert(views_of(before)[k] == front[k]);
                        } else {
                            assert(views_of(before)[k + 1] == all.skip(seen)[k + 1 - i]);
                        }
                    }
                    assert(views_of(kept@) =~= front + all.skip(seen + 1));
                }
            } else {
                proof {
                    assert(views_of(kept@) =~= all.take(seen + 1).filter(pred) + all.skip(seen + 1));
                }
                i += 1;
            }
            proof {
                seen = seen + 1;
            }
        }
        proof {
            lemma_views_of(kept@);
            assert(all.take(seen) =~= all);
            assert(views_of(kept@) =~= all.filter(pred));
            lemma_remove_wf(old(self)@, names);
        }
        std::mem::swap(&mut self.nodes, &mut kept);
        proof {
            self.lemma_view();
        }
    }

    /// Merges the access path `path` into the trie: two paths that share a
    /// prefix go through the same nodes as far as they agree.
    pub fn add_path(&mut self, path: IdentPath)
        ensures
            final(self)@ == old(self)@.insert(path@),
            final(self)@.wf(),
        decreases path@.len(),
    {
        let mut path = path;
        let ghost whole = path@;
        proof {
            use_type_invariant(&*self);
            self.lemma_view();
        }
        let current = match path.pop_first() {
            Some(current) => current,
            None => {
                self.is_leaf = true;
                proof {
                    self.lemma_view();
                    assert(self@.children =~= old(self)@.children);
                }
                return ;
            },
        };
        let at = self.find(current.name());
        // The children are worked on outside the node, which has none
        // meanwhile, and are put back once the path is merged.
        let mut nodes: Vec<ClosureTrie> = Vec::new();
        proof {
            lemma_views_of(nodes@);
        }
        std::mem::swap(&mut self.nodes, &mut nodes);
        if at == nodes.len() {
            nodes.push(ClosureTrie::new(Some(current)));
        }
        let ghost before = nodes@[at as int]@;
        nodes[at].add_path(path);
        proof {
            lemma_views_of(nodes@);
            assert(nodes@[at as int]@ == before.insert(whole.drop_first()));
            assert(views_of(nodes@) =~= old(self)@.insert(whole).children);
            lemma_insert_wf(old(self)@, whole);
        }
        std::mem::swap(&mut self.nodes, &mut nodes);
        proof {
            self.lemma_view();
        }
    }

    /// The direct reference that the access path `path` stands for: the
    /// identifier itself for one segment, and otherwise the member chain
    /// that is nested to the left.
    pub fn path_to_expr(path: Vec<Ident>) -> (expr: ManifestExpr)
        requires
            path@.len() >= 1,
        ensures
            expr@ == member_chain(path@),
        decreases path@.len(),
    {
        let mut path = path;
        let ghost whole = path@;
        if path.len() == 1 {
            let ident = path.pop().unwrap();
            ManifestExpr::Ident(ident)
        } else {
            let prop = path.pop().unwrap();
            assert(path@ == whole.drop_last());
            ManifestExpr::Member { obj: Box::new(Self::path_to_expr(path)), prop }
        }
    }

    /// The manifest entries of the children of the node, where `path` holds
    /// the identifiers from the root to the node. A child that is a leaf
    /// gives the direct reference to its path, whether it has children or
    /// not; any other child gives the nested manifest of its own children.
    /// The path is used as a stack and is handed back as it came.
    pub fn build(&self, path: &mut Vec<Ident>) -> (props: Vec<ManifestProp>)
        ensures
            prop_views(props@) == self@.entries(old(path)@),
            final(path)@ == old(path)@,
        decreases self,
    {
        let mut result: Vec<ManifestProp> = Vec::new();
        let mut i: usize = 0;
        proof {
            use_type_invariant(self);
            self.lemma_view();
            lemma_prop_views(result@);
            assert(prop_views(result@) =~= self@.first_entries(path@, 0));
        }
        while i < self.nodes.len()
            invariant
                i <= self.nodes.len(),
                path@ == old(path)@,
                self@.wf(),
                self@.children.len() == self.nodes@.len(),
                forall|k: int|
                    0 <= k < self.nodes@.len() ==> #[trigger] self@.children[k] == self.nodes@[k]@,
                prop_views(result@) == self@.first_entries(path@, i as nat),
            decreases self.nodes.len() - i,
        {
            let child = &self.nodes[i];
            proof {
                child.lemma_view();
                assert(self@.children[i as int].ident.is_some());
            }
            let ident = match &child.ident {
                Some(r) => r.ident().clone(),
                None => unreached(),
            };
            path.push(ident.clone());
            let ghost here = path@;
            let value = if child.is_leaf {
                let copy = path.clone();
                assert(copy@ =~= here);
                Self::path_to_expr(copy)
            } else {
                ManifestExpr::Object(child.build(path))
            };
            path.pop();
            assert(path@ =~= old(path)@);
            let ghost before = result@;
            let prop = ManifestProp { key: ident, value };
            assert(prop@ == self@.children[i as int].entry(path@));
            result.push(prop);
            proof {
                lemma_prop_views(before);
                lemma_prop_views(result@);
                assert(prop_views(result@) =~= prop_views(before).push(prop@));
            }
            i += 1;
        }
        result
    }
}

} // verus!
