use worklets_visitor::ident_path::IdentPath;
use worklets_visitor::ident_ref::IdentRef;
use worklets_visitor::manifest::{ManifestExpr, ManifestProp};
use worklets_visitor::syntax::{Ident, Span};
use worklets_visitor::trie::ClosureTrie;

fn ident(name: &str) -> Ident {
    Ident::new(name.to_string(), Span::dummy())
}

fn ident_at(name: &str, lo: u32, hi: u32) -> Ident {
    Ident::new(name.to_string(), Span { lo, hi })
}

fn path(names: &[&str]) -> IdentPath {
    let mut path = IdentPath::new(ident(names[0]));
    for name in &names[1..] {
        path.push(ident(name));
    }
    path
}

fn bare(name: &str) -> ManifestExpr {
    ManifestExpr::Ident(ident(name))
}

fn member(obj: ManifestExpr, prop: &str) -> ManifestExpr {
    ManifestExpr::Member { obj: Box::new(obj), prop: ident(prop) }
}

fn entry(key: &str, value: ManifestExpr) -> ManifestProp {
    ManifestProp { key: ident(key), value }
}

fn object(props: Vec<ManifestProp>) -> ManifestExpr {
    ManifestExpr::Object(props)
}

fn manifest_of(trie: &ClosureTrie) -> Vec<ManifestProp> {
    let mut stack = Vec::new();
    let props = trie.build(&mut stack);
    assert!(stack.is_empty());
    props
}

#[test]
fn empty_trie_gives_no_entries() {
    let trie = ClosureTrie::new(None);
    assert_eq!(manifest_of(&trie), vec![]);
}

#[test]
fn depth_one_reference_is_its_own_value() {
    let mut trie = ClosureTrie::new(None);
    trie.add_path(path(&["x"]));
    assert_eq!(manifest_of(&trie), vec![entry("x", bare("x"))]);
}

#[test]
fn prefix_merging_gives_one_root_entry_with_two_keys() {
    let mut trie = ClosureTrie::new(None);
    trie.add_path(path(&["a", "b"]));
    trie.add_path(path(&["a", "c"]));
    assert_eq!(
        manifest_of(&trie),
        vec![entry(
            "a",
            object(vec![
                entry("b", member(bare("a"), "b")),
                entry("c", member(bare("a"), "c")),
            ])
        )]
    );
}

#[test]
fn deep_chain_is_nested_once_per_segment() {
    let mut trie = ClosureTrie::new(None);
    trie.add_path(path(&["a", "b", "c"]));
    assert_eq!(
        manifest_of(&trie),
        vec![entry(
            "a",
            object(vec![entry(
                "b",
                object(vec![entry("c", member(member(bare("a"), "b"), "c"))])
            )])
        )]
    );
}

#[test]
fn the_same_path_twice_gives_one_entry() {
    let mut trie = ClosureTrie::new(None);
    trie.add_path(path(&["a", "b"]));
    trie.add_path(path(&["a", "b"]));
    assert_eq!(
        manifest_of(&trie),
        vec![entry("a", object(vec![entry("b", member(bare("a"), "b"))]))]
    );
}

#[test]
fn children_come_out_in_the_order_of_their_first_reference() {
    let mut trie = ClosureTrie::new(None);
    trie.add_path(path(&["z"]));
    trie.add_path(path(&["a"]));
    trie.add_path(path(&["m"]));
    trie.add_path(path(&["a"]));
    assert_eq!(
        manifest_of(&trie),
        vec![entry("z", bare("z")), entry("a", bare("a")), entry("m", bare("m"))]
    );
}

#[test]
fn a_leaf_with_children_is_emitted_as_the_leaf() {
    let mut trie = ClosureTrie::new(None);
    trie.add_path(path(&["a", "b"]));
    trie.add_path(path(&["a"]));
    assert_eq!(manifest_of(&trie), vec![entry("a", bare("a"))]);

    let mut other_order = ClosureTrie::new(None);
    other_order.add_path(path(&["a"]));
    other_order.add_path(path(&["a", "b"]));
    assert_eq!(manifest_of(&other_order), vec![entry("a", bare("a"))]);
}

#[test]
fn a_leaf_below_the_top_hides_what_is_below_it() {
    let mut trie = ClosureTrie::new(None);
    trie.add_path(path(&["a", "b", "c"]));
    trie.add_path(path(&["a", "b"]));
    trie.add_path(path(&["a", "d"]));
    assert_eq!(
        manifest_of(&trie),
        vec![entry(
            "a",
            object(vec![
                entry("b", member(bare("a"), "b")),
                entry("d", member(bare("a"), "d")),
            ])
        )]
    );
}

#[test]
fn an_existing_node_keeps_the_identifier_it_was_made_with() {
    let mut trie = ClosureTrie::new(None);
    let mut first = IdentPath::new(ident_at("a", 0, 1));
    first.push(ident_at("b", 2, 3));
    let mut second = IdentPath::new(ident_at("a", 10, 11));
    second.push(ident_at("c", 12, 13));
    trie.add_path(first);
    trie.add_path(second);
    let a = ident_at("a", 0, 1);
    assert_eq!(
        manifest_of(&trie),
        vec![ManifestProp {
            key: a.clone(),
            value: ManifestExpr::Object(vec![
                ManifestProp {
                    key: ident_at("b", 2, 3),
                    value: ManifestExpr::Member {
                        obj: Box::new(ManifestExpr::Ident(a.clone())),
                        prop: ident_at("b", 2, 3),
                    },
                },
                ManifestProp {
                    key: ident_at("c", 12, 13),
                    value: ManifestExpr::Member {
                        obj: Box::new(ManifestExpr::Ident(a)),
                        prop: ident_at("c", 12, 13),
                    },
                },
            ]),
        }]
    );
}

#[test]
fn an_empty_path_marks_the_node_itself() {
    let mut emptied = path(&["a"]);
    emptied.pop_first();
    let mut trie = ClosureTrie::new(None);
    trie.add_path(emptied);
    assert_eq!(manifest_of(&trie), vec![]);
    trie.add_path(path(&["x"]));
    assert_eq!(manifest_of(&trie), vec![entry("x", bare("x"))]);
}

#[test]
fn remove_nodes_drops_the_named_children() {
    let mut trie = ClosureTrie::new(None);
    trie.add_path(path(&["a"]));
    trie.add_path(path(&["b", "x"]));
    trie.add_path(path(&["c"]));
    trie.remove_nodes(&vec!["b".to_string(), "a".to_string()]);
    assert_eq!(manifest_of(&trie), vec![entry("c", bare("c"))]);
}

#[test]
fn remove_nodes_keeps_the_order_of_what_is_left() {
    let mut trie = ClosureTrie::new(None);
    trie.add_path(path(&["a"]));
    trie.add_path(path(&["b"]));
    trie.add_path(path(&["c"]));
    trie.add_path(path(&["d"]));
    trie.remove_nodes(&vec!["b".to_string()]);
    assert_eq!(
        manifest_of(&trie),
        vec![entry("a", bare("a")), entry("c", bare("c")), entry("d", bare("d"))]
    );
}

#[test]
fn remove_nodes_looks_at_the_top_level_only() {
    let mut trie = ClosureTrie::new(None);
    trie.add_path(path(&["outer", "local"]));
    trie.add_path(path(&["local"]));
    trie.remove_nodes(&vec!["local".to_string()]);
    assert_eq!(
        manifest_of(&trie),
        vec![entry("outer", object(vec![entry("local", member(bare("outer"), "local"))]))]
    );
}

#[test]
fn remove_nodes_with_repeated_and_unknown_names() {
    let mut trie = ClosureTrie::new(None);
    trie.add_path(path(&["a"]));
    trie.add_path(path(&["b"]));
    trie.remove_nodes(&vec!["a".to_string(), "nothing".to_string(), "a".to_string()]);
    assert_eq!(manifest_of(&trie), vec![entry("b", bare("b"))]);
    trie.remove_nodes(&vec![]);
    assert_eq!(manifest_of(&trie), vec![entry("b", bare("b"))]);
}

#[test]
fn build_below_a_given_path() {
    let mut trie = ClosureTrie::new(Some(IdentRef::new(ident("root"))));
    trie.add_path(path(&["x"]));
    trie.add_path(path(&["y", "z"]));
    let mut stack = vec![ident("root")];
    let props = trie.build(&mut stack);
    assert_eq!(stack, vec![ident("root")]);
    assert_eq!(
        props,
        vec![
            entry("x", member(bare("root"), "x")),
            entry("y", object(vec![entry("z", member(member(bare("root"), "y"), "z"))])),
        ]
    );
}

#[test]
fn path_to_expr_of_one_segment() {
    assert_eq!(ClosureTrie::path_to_expr(vec![ident("a")]), bare("a"));
}

#[test]
fn path_to_expr_nests_to_the_left() {
    assert_eq!(
        ClosureTrie::path_to_expr(vec![ident("a"), ident("b"), ident("c"), ident("d")]),
        member(member(member(bare("a"), "b"), "c"), "d")
    );
}
