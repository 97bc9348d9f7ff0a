//! The capture trie as a mathematical tree, and what its operations mean.

use vstd::prelude::*;
use crate::manifest::{ExprView, PropView, member_chain};
use crate::seq_facts::{filter_witness, lemma_filter_order};
use crate::syntax::Ident;

verus! {

/// What a trie node holds, as a mathematical tree.
pub struct TrieView {
    /// The identifier on the edge that reaches the node; the root has none.
    pub ident: Option<Ident>,
    /// Whether the path that ends here was referenced as a value.
    pub is_leaf: bool,
    /// The child nodes, in the order in which they were first reached.
    pub children: Seq<TrieView>,
}

/// The index of the first node of `children` that is keyed `name`, or the
/// length of `children` if none is.
pub open spec fn position(children: Seq<TrieView>, name: Seq<char>) -> int
    decreases children.len(),
{
    if children.len() == 0 {
        0
    } else if children[0].ident.is_some() && children[0].key() == name {
        0
    } else {
        1 + position(children.drop_first(), name)
    }
}

/// The test that a node passes when its key is none of `names`.
pub open spec fn keyed_by_none_of(names: Seq<Seq<char>>) -> spec_fn(TrieView) -> bool {
    |node: TrieView| !names.contains(node.key())
}

/// The character sequences of a sequence of strings, in the same order.
pub open spec fn names_of(names: Seq<String>) -> Seq<Seq<char>> {
    names.map_values(|name: String| name@)
}

impl TrieView {
    /// The name that keys a child node among its siblings.
    pub open spec fn key(self) -> Seq<char> {
        self.ident.unwrap().sym@
    }

    /// Every child carries an identifier, no two siblings share a name,
    /// and the same holds below each child.
    pub open spec fn wf(self) -> bool
        decreases self,
    {
        &&& forall|i: int| 0 <= i < self.children.len() ==> (#[trigger] self.children[i]).ident.is_some()
        &&& forall|i: int, j: int|
            0 <= i < j < self.children.len() ==> (#[trigger] self.children[i]).key() != (
            #[trigger] self.children[j]).key()
        &&& forall|i: int| 0 <= i < self.children.len() ==> (#[trigger] self.children[i]).wf()
    }

    /// A node without children that is no leaf.
    pub open spec fn empty(ident: Option<Ident>) -> TrieView {
        TrieView { ident, is_leaf: false, children: Seq::empty() }
    }

    /// The trie after the access path `path` was merged into it: the path
    /// is followed from its outer end, a child is made where none has the
    /// segment's name, and the node where the path ends becomes a leaf. A
    /// child that exists keeps the identifier that it was made with.
    pub open spec fn insert(self, path: Seq<Ident>) -> TrieView
        decreases path.len(),
    {
        if path.len() == 0 {
            TrieView { is_leaf: true, ..self }
        } else {
            let at = position(self.children, path[0].sym@);
            let rest = path.drop_first();
            if at < self.children.len() {
                TrieView { children: self.children.update(at, self.children[at].insert(rest)), ..self }
            } else {
                TrieView {
                    children: self.children.push(TrieView::empty(Some(path[0])).insert(rest)),
                    ..self
                }
            }
        }
    }

    /// Whether the path with the names `names` ends at a leaf of the trie:
    /// whether that exact path was merged into it.
    pub open spec fn has_path(self, names: Seq<Seq<char>>) -> bool
        decreases names.len(),
    {
        if names.len() == 0 {
            self.is_leaf
        } else {
            let at = position(self.children, names[0]);
            at < self.children.len() && self.children[at].has_path(names.drop_first())
        }
    }

    /// The trie without the children of this node that are keyed by one of
    /// `names`. Only this level is looked at: a name that occurs deeper in
    /// the trie stays there.
    pub open spec fn remove(self, names: Seq<Seq<char>>) -> TrieView {
        TrieView { children: self.children.filter(keyed_by_none_of(names)), ..self }
    }

    /// The manifest entry that the node gives as a child reached by `path`:
    /// keyed by the node's identifier, it holds a direct reference to the
    /// whole path where the node is a leaf, and otherwise the nested
    /// manifest of the node's own children. A leaf that has children is
    /// emitted as a leaf: the reference to the container stands for every
    /// longer path through it.
    pub open spec fn entry(self, path: Seq<Ident>) -> PropView
        decreases self, self.children.len() + 2,
    {
        let here = path.push(self.ident.unwrap());
        PropView {
            key: self.ident.unwrap(),
            value: if self.is_leaf {
                member_chain(here)
            } else {
                ExprView::Object(self.entries(here))
            },
        }
    }

    /// The manifest entries of the node's children, in their order, where
    /// `path` holds the identifiers from the root to the node.
    pub open spec fn entries(self, path: Seq<Ident>) -> Seq<PropView>
        decreases self, self.children.len() + 1,
    {
        self.first_entries(path, self.children.len())
    }

    /// The entries of the first `n` children.
    pub open spec fn first_entries(self, path: Seq<Ident>, n: nat) -> Seq<PropView>
        decreases self, n,
    {
        if n == 0 || n > self.children.len() {
            Seq::empty()
        } else {
            self.first_entries(path, (n - 1) as nat).push(self.children[n - 1].entry(path))
        }
    }

    /// The entries stand one for one beside the children, each under the
    /// child's own identifier.
    pub proof fn lemma_entries(self, path: Seq<Ident>)
        ensures
            self.entries(path).len() == self.children.len(),
            forall|i: int|
                #![trigger self.entries(path)[i]]
                #![trigger self.children[i]]
                0 <= i < self.children.len() ==> self.entries(path)[i] == self.children[i].entry(
                    path,
                ),
    {
        self.lemma_first_entries(path, self.children.len());
    }

    /// `first_entries` entry by entry.
    pub proof fn lemma_first_entries(self, path: Seq<Ident>, n: nat)
        requires
            n <= self.children.len(),
        ensures
            self.first_entries(path, n).len() == n,
            forall|i: int|
                0 <= i < n ==> #[trigger] self.first_entries(path, n)[i] == self.children[i].entry(
                    path,
                ),
        decreases n,
    {
        if n > 0 {
            self.lemma_first_entries(path, (n - 1) as nat);
        }
    }
}

/// `position` is the least index with a matching key.
pub proof fn lemma_position(children: Seq<TrieView>, name: Seq<char>)
    ensures
        0 <= position(children, name) <= children.len(),
        position(children, name) < children.len() ==> {
            &&& children[position(children, name)].ident.is_some()
            &&& children[position(children, name)].key() == name
        },
        forall|j: int|
            0 <= j < position(children, name) ==> !((#[trigger] children[j]).ident.is_some()
                && children[j].key() == name),
    decreases children.len(),
{
    if children.len() > 0 && !(children[0].ident.is_some() && children[0].key() == name) {
        let rest = children.drop_first();
        lemma_position(rest, name);
        assert forall|j: int| 0 <= j < position(children, name) implies !((
        #[trigger] children[j]).ident.is_some() && children[j].key() == name) by {
            if j > 0 {
                assert(children[j] == rest[j - 1]);
            }
        }
    }
}

/// An index with a matching key before which no key matches is the
/// `position`.
pub proof fn lemma_position_is(children: Seq<TrieView>, name: Seq<char>, at: int)
    requires
        0 <= at <= children.len(),
        at < children.len() ==> children[at].ident.is_some() && children[at].key() == name,
        forall|j: int|
            0 <= j < at ==> !((#[trigger] children[j]).ident.is_some() && children[j].key()
                == name),
    ensures
        position(children, name) == at,
{
    lemma_position(children, name);
}

/// The position of a name depends on the identifiers of the nodes alone.
pub proof fn lemma_position_same_keys(a: Seq<TrieView>, b: Seq<TrieView>, name: Seq<char>)
    requires
        a.len() == b.len(),
        forall|i: int| 0 <= i < a.len() ==> (#[trigger] a[i]).ident == b[i].ident,
    ensures
        position(a, name) == position(b, name),
{
    lemma_position(a, name);
    let at = position(a, name);
    assert forall|j: int| 0 <= j < at implies !((#[trigger] b[j]).ident.is_some() && b[j].key()
        == name) by {
        assert(a[j].ident == b[j].ident);
    }
    if at < a.len() {
        assert(a[at].ident == b[at].ident);
    }
    lemma_position_is(b, name, at);
}

/// The position of a name after one more node was appended.
pub proof fn lemma_position_push(a: Seq<TrieView>, last: TrieView, name: Seq<char>)
    ensures
        position(a.push(last), name) == if position(a, name) < a.len() {
            position(a, name)
        } else if last.ident.is_some() && last.key() == name {
            a.len() as int
        } else {
            a.len() as int + 1
        },
{
    lemma_position(a, name);
    let at = position(a, name);
    let longer = a.push(last);
    assert forall|j: int| 0 <= j < at implies !((#[trigger] longer[j]).ident.is_some()
        && longer[j].key() == name) by {
        assert(longer[j] == a[j]);
    }
    if at < a.len() {
        assert(longer[at] == a[at]);
        lemma_position_is(longer, name, at);
    } else if last.ident.is_some() && last.key() == name {
        lemma_position_is(longer, name, a.len() as int);
    } else {
        lemma_position_is(longer, name, a.len() as int + 1);
    }
}

/// Merging a path leaves the node's own identifier alone.
pub proof fn lemma_insert_keeps_ident(trie: TrieView, path: Seq<Ident>)
    ensures
        trie.insert(path).ident == trie.ident,
{
}

/// Merging a path keeps a trie well formed.
pub proof fn lemma_insert_wf(trie: TrieView, path: Seq<Ident>)
    requires
        trie.wf(),
    ensures
        trie.insert(path).wf(),
    decreases path.len(),
{
    if path.len() > 0 {
        let at = position(trie.children, path[0].sym@);
        let rest = path.drop_first();
        lemma_position(trie.children, path[0].sym@);
        let after = trie.insert(path);
        if at < trie.children.len() {
            lemma_insert_wf(trie.children[at], rest);
            lemma_insert_keeps_ident(trie.children[at], rest);
        } else {
            lemma_insert_wf(TrieView::empty(Some(path[0])), rest);
            lemma_insert_keeps_ident(TrieView::empty(Some(path[0])), rest);
        }
        assert forall|i: int| 0 <= i < after.children.len() implies (#[trigger] after.children[i]).wf()
            && after.children[i].ident.is_some() by {
            if i < trie.children.len() && i != at {
                assert(after.children[i] == trie.children[i]);
            }
        }
        assert forall|i: int, j: int| 0 <= i < j < after.children.len() implies (
        #[trigger] after.children[i]).key() != (#[trigger] after.children[j]).key() by {
            if i < trie.children.len() {
                assert(after.children[i].ident == trie.children[i].ident);
            }
            if j < trie.children.len() {
                assert(after.children[j].ident == trie.children[j].ident);
            }
        }
    }
}

/// Removing children keeps a trie well formed, and leaves no child that is
/// keyed by one of the names.
pub proof fn lemma_remove_wf(trie: TrieView, names: Seq<Seq<char>>)
    requires
        trie.wf(),
    ensures
        trie.remove(names).wf(),
        forall|i: int|
            0 <= i < trie.remove(names).children.len() ==> !names.contains(
                (#[trigger] trie.remove(names).children[i]).key(),
            ),
{
    let pred = keyed_by_none_of(names);
    lemma_filter_order(trie.children, pred);
    let kept = trie.children.filter(pred);
    let from = choose|from: Seq<int>| filter_witness(trie.children, pred, from);
    assert forall|i: int| 0 <= i < kept.len() implies (#[trigger] kept[i]).ident.is_some()
        && kept[i].wf() && !names.contains(kept[i].key()) by {
        assert(kept[i] == trie.children[from[i]]);
    }
    assert forall|i: int, j: int| 0 <= i < j < kept.len() implies (#[trigger] kept[i]).key() != (
    #[trigger] kept[j]).key() by {
        assert(kept[i] == trie.children[from[i]]);
        assert(kept[j] == trie.children[from[j]]);
    }
}

} // verus!
