//! What holds of the capture trie and of the manifest that it gives.

use vstd::prelude::*;
use crate::manifest::{ExprView, PropView, member_chain};
use crate::seq_facts::{filter_witness, lemma_filter_all, lemma_filter_order};
use crate::syntax::Ident;
use crate::trie_view::{
    TrieView, keyed_by_none_of, lemma_insert_keeps_ident, lemma_position, lemma_position_is,
    lemma_position_push, lemma_position_same_keys, position,
};

verus! {

/// The names of the segments of an access path.
pub open spec fn names_along(path: Seq<Ident>) -> Seq<Seq<char>> {
    path.map_values(|segment: Ident| segment.sym@)
}

/// What merging means: after `path` was merged, the trie holds that path
/// and every path that it held before, and no other.
pub proof fn law_insert_adds_one_path(trie: TrieView, path: Seq<Ident>, names: Seq<Seq<char>>)
    ensures
        trie.insert(path).has_path(names) == (names == names_along(path) || trie.has_path(names)),
    decreases path.len(),
{
    let after = trie.insert(path);
    if path.len() == 0 {
        assert(names_along(path) =~= Seq::<Seq<char>>::empty());
        if names.len() == 0 {
            assert(names =~= names_along(path));
        }
    } else if names.len() == 0 {
        assert(names_along(path).len() != names.len());
    } else {
        let head = path[0].sym@;
        let rest = path.drop_first();
        let below = names.drop_first();
        let at = position(trie.children, head);
        lemma_position(trie.children, head);
        lemma_position(trie.children, names[0]);
        assert(names_along(rest) =~= names_along(path).drop_first());
        assert(names_along(path)[0] == head);
        if names == names_along(path) {
            assert(below == names_along(rest));
        }
        if names[0] == head && below == names_along(rest) {
            assert(names =~= seq![names[0]] + below);
            assert(names_along(path) =~= seq![head] + names_along(rest));
        }
        if at < trie.children.len() {
            let child = trie.children[at];
            law_insert_adds_one_path(child, rest, below);
            lemma_insert_keeps_ident(child, rest);
            lemma_position_same_keys(trie.children, after.children, names[0]);
        } else {
            let child = TrieView::empty(Some(path[0]));
            law_insert_adds_one_path(child, rest, below);
            lemma_insert_keeps_ident(child, rest);
            lemma_position_push(trie.children, child.insert(rest), names[0]);
            lemma_nothing_in_empty(child, below);
        }
    }
}

/// A node without children that is no leaf holds no path.
proof fn lemma_nothing_in_empty(trie: TrieView, names: Seq<Seq<char>>)
    requires
        !trie.is_leaf,
        trie.children.len() == 0,
    ensures
        !trie.has_path(names),
{
}

/// Prefix merging: two paths that begin with the same name go through the
/// same child of the root, so the second adds no entry at the top.
pub proof fn law_shared_prefix_shares_node(trie: TrieView, first: Seq<Ident>, second: Seq<Ident>)
    requires
        first.len() >= 1,
        second.len() >= 1,
        first[0].sym@ == second[0].sym@,
    ensures
        trie.insert(first).insert(second).children.len() == trie.insert(first).children.len(),
        position(trie.insert(first).insert(second).children, first[0].sym@) == position(
            trie.children,
            first[0].sym@,
        ),
{
    let name = first[0].sym@;
    let at = position(trie.children, name);
    lemma_position(trie.children, name);
    let once = trie.insert(first);
    lemma_insert_keeps_ident(TrieView::empty(Some(first[0])), first.drop_first());
    if at < trie.children.len() {
        lemma_insert_keeps_ident(trie.children[at], first.drop_first());
    }
    lemma_position_is(once.children, name, at);
    let twice = once.insert(second);
    lemma_insert_keeps_ident(once.children[at], second.drop_first());
    lemma_position_is(twice.children, name, at);
}

/// What removal means: after the children keyed by `names` were removed,
/// the trie holds the paths that it held before and that do not begin with
/// one of the names, and no other.
pub proof fn law_removal_drops_paths(trie: TrieView, names: Seq<Seq<char>>, path: Seq<Seq<char>>)
    ensures
        trie.remove(names).has_path(path) == (trie.has_path(path) && !(path.len() > 0
            && names.contains(path[0]))),
{
    if path.len() > 0 {
        let pred = keyed_by_none_of(names);
        let kept = trie.remove(names).children;
        lemma_filter_order(trie.children, pred);
        let from = choose|from: Seq<int>| filter_witness(trie.children, pred, from);
        let at = position(trie.children, path[0]);
        lemma_position(trie.children, path[0]);
        lemma_position(kept, path[0]);
        let found = position(kept, path[0]);
        if found < kept.len() {
            // what is found among the kept children was the first of its
            // name among all children
            assert(kept[found] == trie.children[from[found]]);
            assert forall|j: int| 0 <= j < from[found] implies !((
            #[trigger] trie.children[j]).ident.is_some() && trie.children[j].key() == path[0]) by {
                if trie.children[j].ident.is_some() && trie.children[j].key() == path[0] {
                    assert(pred(trie.children[j]));
                    let k = choose|k: int| 0 <= k < from.len() && from[k] == j;
                    assert(kept[k] == trie.children[from[k]]);
                    assert(k < found);
                }
            }
            lemma_position_is(trie.children, path[0], from[found]);
        } else if at < trie.children.len() && !names.contains(path[0]) {
            assert(pred(trie.children[at]));
            let k = choose|k: int| 0 <= k < from.len() && from[k] == at;
            assert(kept[k] == trie.children[from[k]]);
        }
    }
}

/// Removing no name changes nothing.
pub proof fn law_removal_of_nothing(trie: TrieView)
    ensures
        trie.remove(Seq::empty()) == trie,
{
    lemma_filter_all(trie.children, keyed_by_none_of(Seq::empty()));
}

/// Declaring a name twice is declaring it once: which children are removed
/// depends on which names are given, not on how often or in what order.
pub proof fn law_removal_ignores_repetition(
    trie: TrieView,
    names: Seq<Seq<char>>,
    others: Seq<Seq<char>>,
)
    requires
        forall|name: Seq<char>| names.contains(name) <==> others.contains(name),
    ensures
        trie.remove(names) == trie.remove(others),
{
    assert(keyed_by_none_of(names) =~= keyed_by_none_of(others)) by {
        assert forall|node: TrieView| #[trigger]
            keyed_by_none_of(names)(node) == keyed_by_none_of(others)(node) by {
            assert(names.contains(node.key()) <==> others.contains(node.key()));
        }
    }
}

/// Removal is shallow: what is left at the top are children that were
/// there, each with all that is below it, and every child that is keyed by
/// none of the names is left.
pub proof fn law_removal_is_shallow(trie: TrieView, names: Seq<Seq<char>>)
    ensures
        trie.remove(names).ident == trie.ident,
        trie.remove(names).is_leaf == trie.is_leaf,
        forall|i: int|
            0 <= i < trie.remove(names).children.len() ==> trie.children.contains(
                #[trigger] trie.remove(names).children[i],
            ),
        forall|j: int|
            0 <= j < trie.children.len() && !names.contains((#[trigger] trie.children[j]).key())
                ==> trie.remove(names).children.contains(trie.children[j]),
{
    assert forall|j: int|
        0 <= j < trie.children.len() && !names.contains(
            (#[trigger] trie.children[j]).key(),
        ) implies trie.remove(names).children.contains(trie.children[j]) by {
        trie.children.lemma_filter_contains(keyed_by_none_of(names), j);
    }
    lemma_filter_order(trie.children, keyed_by_none_of(names));
    let kept = trie.remove(names).children;
    let from = choose|from: Seq<int>|
        filter_witness(trie.children, keyed_by_none_of(names), from);
    assert forall|i: int| 0 <= i < kept.len() implies trie.children.contains(#[trigger] kept[i]) by {
        assert(kept[i] == trie.children[from[i]]);
    }
}

/// The identifiers on the nodes that the names `names` lead through, from
/// the first child on, as far as the trie has nodes for them.
pub open spec fn idents_along(trie: TrieView, names: Seq<Seq<char>>) -> Seq<Ident>
    decreases names.len(),
{
    if names.len() == 0 {
        Seq::empty()
    } else {
        let at = position(trie.children, names[0]);
        if at < trie.children.len() {
            seq![trie.children[at].ident.unwrap()] + idents_along(
                trie.children[at],
                names.drop_first(),
            )
        } else {
            Seq::empty()
        }
    }
}

/// The index of the first entry whose key is called `name`, or the number
/// of entries if none is.
pub open spec fn entry_position(entries: Seq<PropView>, name: Seq<char>) -> int
    decreases entries.len(),
{
    if entries.len() == 0 {
        0
    } else if entries[0].key.sym@ == name {
        0
    } else {
        1 + entry_position(entries.drop_first(), name)
    }
}

/// What a manifest holds under the chain of keys `names`: the value of the
/// entry that is reached by looking up one name after the other, each in
/// the nested manifest that the name before it gave.
pub open spec fn value_at(entries: Seq<PropView>, names: Seq<Seq<char>>) -> Option<ExprView>
    decreases names.len(),
{
    if names.len() == 0 {
        None
    } else {
        let at = entry_position(entries, names[0]);
        if at >= entries.len() {
            None
        } else if names.len() == 1 {
            Some(entries[at].value)
        } else {
            match entries[at].value {
                ExprView::Object(inner) => value_at(inner, names.drop_first()),
                _ => None,
            }
        }
    }
}

/// `entry_position` is the least index with a matching key.
proof fn lemma_entry_position(entries: Seq<PropView>, name: Seq<char>, at: int)
    requires
        0 <= at < entries.len(),
        entries[at].key.sym@ == name,
        forall|j: int| 0 <= j < at ==> (#[trigger] entries[j]).key.sym@ != name,
    ensures
        entry_position(entries, name) == at,
    decreases entries.len(),
{
    if at > 0 {
        let rest = entries.drop_first();
        assert(entries[0].key.sym@ != name);
        assert forall|j: int| 0 <= j < at - 1 implies (#[trigger] rest[j]).key.sym@ != name by {
            assert(rest[j] == entries[j + 1]);
        }
        lemma_entry_position(rest, name, at - 1);
    }
}

/// The manifest holds every capture: a path that the trie holds, and that
/// has no shorter path of the trie as a prefix, is found in the manifest
/// under the chain of its names, as the direct reference to the whole
/// path. A path that has such a prefix is covered by the reference to the
/// shortest of them, the container that holds it.
pub proof fn law_manifest_holds_every_capture(
    trie: TrieView,
    above: Seq<Ident>,
    names: Seq<Seq<char>>,
)
    requires
        trie.wf(),
        names.len() >= 1,
        trie.has_path(names),
        forall|n: int| 0 < n < names.len() ==> !trie.has_path(#[trigger] names.take(n)),
    ensures
        value_at(trie.entries(above), names) == Some(
            member_chain(above + idents_along(trie, names)),
        ),
    decreases names.len(),
{
    let at = position(trie.children, names[0]);
    lemma_position(trie.children, names[0]);
    let child = trie.children[at];
    let segment = child.ident.unwrap();
    let entries = trie.entries(above);
    trie.lemma_entries(above);
    assert(entries[at] == child.entry(above));
    assert forall|j: int| 0 <= j < at implies (#[trigger] entries[j]).key.sym@ != names[0] by {
        assert(entries[j] == trie.children[j].entry(above));
        assert(trie.children[j].ident.is_some());
    }
    lemma_entry_position(entries, names[0], at);
    let here = above.push(segment);
    let below = names.drop_first();
    assert(trie.has_path(names) == child.has_path(below));
    if names.len() == 1 {
        assert(below =~= Seq::<Seq<char>>::empty());
        assert(child.has_path(below) == child.is_leaf);
        assert(idents_along(child, below) =~= Seq::<Ident>::empty());
        assert(above + idents_along(trie, names) =~= here);
        assert(entries[at].value == member_chain(here));
        assert(value_at(entries, names) == Some(entries[at].value));
    } else {
        // the child is no leaf, or the path would have a shorter one as a prefix
        let first = names.take(1);
        assert(first.drop_first() =~= Seq::<Seq<char>>::empty());
        assert(first[0] == names[0]);
        assert(child.has_path(first.drop_first()) == child.is_leaf);
        assert(trie.has_path(first) == child.has_path(first.drop_first()));
        assert(!child.is_leaf);
        assert forall|n: int| 0 < n < below.len() implies !child.has_path(
            #[trigger] below.take(n),
        ) by {
            let longer = names.take(n + 1);
            assert(longer.drop_first() =~= below.take(n));
            assert(longer[0] == names[0]);
            assert(trie.has_path(longer) == child.has_path(longer.drop_first()));
        }
        law_manifest_holds_every_capture(child, here, below);
        assert(above + idents_along(trie, names) =~= here + idents_along(child, below));
        assert(entries[at].value == ExprView::Object(child.entries(here)));
        assert(value_at(entries, names) == value_at(child.entries(here), below));
    }
}

/// The trie that holds one bare reference.
pub proof fn lemma_single_child(x: Ident)
    ensures
        TrieView::empty(None).insert(seq![x]) == (TrieView {
            ident: None,
            is_leaf: false,
            children: seq![TrieView { ident: Some(x), is_leaf: true, children: Seq::empty() }],
        }),
{
    let root = TrieView::empty(None);
    let path = seq![x];
    assert(path.drop_first() =~= Seq::empty());
    assert(position(root.children, x.sym@) == 0);
    let child = TrieView::empty(Some(x)).insert(path.drop_first());
    assert(child == TrieView { ident: Some(x), is_leaf: true, children: Seq::empty() });
    assert(root.insert(path).children =~= seq![child]);
}

/// Depth-1 identity: a trie that holds one bare reference to `x` gives a
/// manifest with the one key `x`, whose value is a direct reference to `x`.
pub proof fn law_depth_one_identity(x: Ident)
    ensures
        TrieView::empty(None).insert(seq![x]).entries(Seq::empty()) == seq![
            PropView { key: x, value: ExprView::Ident(x) },
        ],
{
    lemma_single_child(x);
    let trie = TrieView::empty(None).insert(seq![x]);
    trie.lemma_entries(Seq::empty());
    assert(Seq::<Ident>::empty().push(x) =~= seq![x]);
    assert(trie.entries(Seq::empty()) =~= seq![PropView { key: x, value: ExprView::Ident(x) }]);
}

/// Prefix merging on `a.b` and `a.c`: the manifest has the one key `a`,
/// and under it exactly the keys `b` and `c`, each with the reference to
/// its own chain. The object of both chains is the `a` that came first.
pub proof fn law_prefix_merging(a: Ident, b: Ident, again: Ident, c: Ident)
    requires
        again.sym@ == a.sym@,
        b.sym@ != c.sym@,
    ensures
        TrieView::empty(None).insert(seq![a, b]).insert(seq![again, c]).entries(Seq::empty())
            == seq![
            PropView {
                key: a,
                value: ExprView::Object(
                    seq![
                        PropView { key: b, value: member_chain(seq![a, b]) },
                        PropView { key: c, value: member_chain(seq![a, c]) },
                    ],
                ),
            },
        ],
{
    let root = TrieView::empty(None);
    let leaf_b = TrieView { ident: Some(b), is_leaf: true, children: Seq::empty() };
    let leaf_c = TrieView { ident: Some(c), is_leaf: true, children: Seq::empty() };
    let under_a = TrieView { ident: Some(a), is_leaf: false, children: seq![leaf_b] };
    let merged = TrieView { ident: Some(a), is_leaf: false, children: seq![leaf_b, leaf_c] };

    // the first path makes the chain a, b
    assert(seq![a, b].drop_first() =~= seq![b]);
    assert(seq![b].drop_first() =~= Seq::<Ident>::empty());
    assert(TrieView::empty(Some(b)).insert(Seq::empty()) == leaf_b);
    assert(TrieView::empty(Some(a)).insert(seq![b]) == under_a) by {
        assert(position(TrieView::empty(Some(a)).children, b.sym@) == 0);
        assert(TrieView::empty(Some(a)).insert(seq![b]).children =~= seq![leaf_b]);
    }
    let once = root.insert(seq![a, b]);
    assert(once.children =~= seq![under_a]) by {
        assert(position(root.children, a.sym@) == 0);
    }

    // the second path finds a and adds c beside b
    assert(seq![again, c].drop_first() =~= seq![c]);
    assert(seq![c].drop_first() =~= Seq::<Ident>::empty());
    assert(TrieView::empty(Some(c)).insert(Seq::empty()) == leaf_c);
    assert(under_a.insert(seq![c]) == merged) by {
        lemma_position_is(under_a.children, c.sym@, 1);
        assert(under_a.insert(seq![c]).children =~= seq![leaf_b, leaf_c]);
    }
    let twice = once.insert(seq![again, c]);
    assert(twice.children =~= seq![merged]) by {
        lemma_position_is(once.children, again.sym@, 0);
    }

    // the manifest of the merged trie
    let top = Seq::<Ident>::empty();
    twice.lemma_entries(top);
    assert(top.push(a) =~= seq![a]);
    merged.lemma_entries(seq![a]);
    assert(seq![a].push(b) =~= seq![a, b]);
    assert(seq![a].push(c) =~= seq![a, c]);
    assert(merged.entries(seq![a]) =~= seq![
        PropView { key: b, value: member_chain(seq![a, b]) },
        PropView { key: c, value: member_chain(seq![a, c]) },
    ]);
    assert(twice.entries(top) =~= seq![
        PropView { key: a, value: ExprView::Object(merged.entries(seq![a])) },
    ]);
}

/// The manifest entries that a single access path gives below its first
/// `depth` segments: one entry per level, keyed by the segment of that
/// level, down to the last segment, whose value is the direct reference to
/// the whole path.
pub open spec fn chain_entries(path: Seq<Ident>, depth: nat) -> Seq<PropView>
    decreases path.len() - depth,
{
    if depth >= path.len() {
        Seq::empty()
    } else {
        seq![
            PropView {
                key: path[depth as int],
                value: if depth + 1 == path.len() {
                    member_chain(path)
                } else {
                    ExprView::Object(chain_entries(path, depth + 1))
                },
            },
        ]
    }
}

/// Deep chain reconstruction: a trie that holds one access path gives a
/// manifest that is nested once per segment, with the reference to the
/// whole chain at the bottom.
pub proof fn law_deep_chain(path: Seq<Ident>)
    requires
        path.len() >= 1,
    ensures
        TrieView::empty(None).insert(path).entries(Seq::empty()) == chain_entries(path, 0),
{
    assert(path.skip(0) =~= path);
    assert(path.take(0) =~= Seq::empty());
    lemma_chain(None, path, 0);
}

/// The entries of a trie that holds only what is left of `path` after its
/// first `depth` segments, as the child reached by those segments.
proof fn lemma_chain(ident: Option<Ident>, path: Seq<Ident>, depth: nat)
    requires
        depth < path.len(),
    ensures
        TrieView::empty(ident).insert(path.skip(depth as int)).entries(path.take(depth as int))
            == chain_entries(path, depth),
    decreases path.len() - depth,
{
    let rest = path.skip(depth as int);
    let above = path.take(depth as int);
    let root = TrieView::empty(ident);
    let segment = path[depth as int];
    let child = TrieView::empty(Some(segment)).insert(rest.drop_first());
    assert(rest.drop_first() =~= path.skip(depth as int + 1));
    assert(position(root.children, segment.sym@) == 0);
    assert(root.insert(rest).children =~= seq![child]);
    lemma_insert_keeps_ident(TrieView::empty(Some(segment)), rest.drop_first());
    root.insert(rest).lemma_entries(above);
    let here = above.push(segment);
    assert(here =~= path.take(depth as int + 1));
    if depth + 1 == path.len() {
        assert(here =~= path);
    } else {
        lemma_chain(Some(segment), path, depth + 1);
    }
    assert(root.insert(rest).entries(above) =~= chain_entries(path, depth));
}

/// The chain of three: `a.b.c` gives `{ a: { b: { c: a.b.c } } }`.
pub proof fn law_deep_chain_of_three(a: Ident, b: Ident, c: Ident)
    ensures
        TrieView::empty(None).insert(seq![a, b, c]).entries(Seq::empty()) == seq![
            PropView {
                key: a,
                value: ExprView::Object(
                    seq![
                        PropView {
                            key: b,
                            value: ExprView::Object(
                                seq![
                                    PropView {
                                        key: c,
                                        value: ExprView::Member {
                                            obj: Box::new(
                                                ExprView::Member {
                                                    obj: Box::new(ExprView::Ident(a)),
                                                    prop: b,
                                                },
                                            ),
                                            prop: c,
                                        },
                                    },
                                ],
                            ),
                        },
                    ],
                ),
            },
        ],
{
    let path = seq![a, b, c];
    law_deep_chain(path);
    reveal_with_fuel(chain_entries, 4);
    reveal_with_fuel(member_chain, 4);
    assert(path.drop_last() =~= seq![a, b]);
    assert(path.drop_last().drop_last() =~= seq![a]);
}

} // verus!
