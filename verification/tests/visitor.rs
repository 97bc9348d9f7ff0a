use worklets_visitor::manifest::{ManifestExpr, ManifestProp};
use worklets_visitor::syntax::{
    AssignExpr, FnDecl, Ident, KeyValueProp, MemberExpr, Node, Span, VarDeclarator,
};
use worklets_visitor::visitor::ClosureGeneratorVisitor;

fn sym(name: &str) -> Ident {
    Ident::new(name.to_string(), Span::dummy())
}

fn id(name: &str) -> Node {
    Node::Ident(sym(name))
}

fn dot(obj: Node, prop: &str) -> Node {
    Node::Member(MemberExpr { obj: Box::new(obj), prop: Box::new(id(prop)) })
}

fn index(obj: Node, prop: Node) -> Node {
    Node::Member(MemberExpr { obj: Box::new(obj), prop: Box::new(Node::Other(vec![prop])) })
}

fn assign(left: Node, right: Node) -> Node {
    Node::Assign(AssignExpr { left: Box::new(left), right: Box::new(right) })
}

fn literal() -> Node {
    Node::Other(vec![])
}

fn this() -> Node {
    Node::Other(vec![])
}

fn other(children: Vec<Node>) -> Node {
    Node::Other(children)
}

fn declare(name: &str, init: Option<Node>) -> Node {
    Node::VarDeclarator(VarDeclarator { name: Box::new(id(name)), init: init.map(Box::new) })
}

fn function(name: &str, children: Vec<Node>) -> Node {
    Node::FnDecl(FnDecl { ident: sym(name), function: children })
}

fn key_value(key: Node, value: Node) -> Node {
    Node::KeyValueProp(KeyValueProp { key: Box::new(key), value: Box::new(value) })
}

fn direct(name: &str) -> ManifestExpr {
    ManifestExpr::Ident(sym(name))
}

fn access(obj: ManifestExpr, prop: &str) -> ManifestExpr {
    ManifestExpr::Member { obj: Box::new(obj), prop: sym(prop) }
}

fn prop(key: &str, value: ManifestExpr) -> ManifestProp {
    ManifestProp { key: sym(key), value }
}

fn nested(props: Vec<ManifestProp>) -> ManifestExpr {
    ManifestExpr::Object(props)
}

fn analyze(body: &Node) -> (ManifestExpr, Vec<String>) {
    let mut visitor = ClosureGeneratorVisitor::new();
    visitor.visit_node(body);
    let manifest = visitor.build();
    (manifest, visitor.declared_identifiers().clone())
}

#[test]
fn nothing_visited_gives_an_empty_manifest() {
    let mut visitor = ClosureGeneratorVisitor::new();
    assert!(visitor.declared_identifiers().is_empty());
    assert_eq!(visitor.build(), nested(vec![]));
}

#[test]
fn bare_reference_is_captured() {
    let (manifest, declared) = analyze(&id("x"));
    assert_eq!(manifest, nested(vec![prop("x", direct("x"))]));
    assert!(declared.is_empty());
}

#[test]
fn member_chain_is_captured_once_as_a_whole() {
    let (manifest, _) = analyze(&dot(dot(id("a"), "b"), "c"));
    assert_eq!(
        manifest,
        nested(vec![prop(
            "a",
            nested(vec![prop(
                "b",
                nested(vec![prop("c", access(access(direct("a"), "b"), "c"))])
            )])
        )])
    );
}

#[test]
fn assignment_to_a_member_captures_the_container() {
    let (manifest, declared) = analyze(&other(vec![assign(dot(id("a"), "b"), literal())]));
    assert_eq!(manifest, nested(vec![prop("a", direct("a"))]));
    assert!(declared.is_empty());
}

#[test]
fn assignment_to_a_deep_member_drops_one_segment() {
    let (manifest, _) = analyze(&assign(dot(dot(id("a"), "b"), "c"), literal()));
    assert_eq!(
        manifest,
        nested(vec![prop("a", nested(vec![prop("b", access(direct("a"), "b"))]))])
    );
}

#[test]
fn assignment_to_a_bare_identifier_captures_it() {
    let (manifest, _) = analyze(&assign(id("a"), id("x")));
    assert_eq!(manifest, nested(vec![prop("a", direct("a")), prop("x", direct("x"))]));
}

#[test]
fn assignment_whose_chain_has_one_segment_captures_nothing() {
    let (manifest, _) = analyze(&assign(
        Node::Member(MemberExpr { obj: Box::new(this()), prop: Box::new(id("b")) }),
        literal(),
    ));
    assert_eq!(manifest, nested(vec![]));
}

#[test]
fn member_chain_as_assigned_value_is_captured_whole() {
    let (manifest, _) = analyze(&assign(id("x"), dot(id("a"), "b")));
    assert_eq!(
        manifest,
        nested(vec![
            prop("x", direct("x")),
            prop("a", nested(vec![prop("b", access(direct("a"), "b"))])),
        ])
    );
}

#[test]
fn assignment_of_a_chain_to_a_chain_keeps_them_apart() {
    let (manifest, declared) = analyze(&assign(dot(id("a"), "b"), dot(id("c"), "d")));
    assert_eq!(
        manifest,
        nested(vec![
            prop("a", direct("a")),
            prop("c", nested(vec![prop("d", access(direct("c"), "d"))])),
        ])
    );
    assert!(declared.is_empty());
}

#[test]
fn assignment_of_a_deep_chain_to_a_deep_chain() {
    let (manifest, _) = analyze(&assign(
        dot(dot(id("a"), "b"), "c"),
        dot(dot(id("d"), "e"), "f"),
    ));
    assert_eq!(
        manifest,
        nested(vec![
            prop("a", nested(vec![prop("b", access(direct("a"), "b"))])),
            prop(
                "d",
                nested(vec![prop(
                    "e",
                    nested(vec![prop("f", access(access(direct("d"), "e"), "f"))])
                )])
            ),
        ])
    );
}

#[test]
fn assignment_whose_value_is_an_assignment() {
    let (manifest, _) = analyze(&assign(
        dot(id("a"), "b"),
        assign(dot(id("c"), "d"), dot(id("e"), "f")),
    ));
    assert_eq!(
        manifest,
        nested(vec![
            prop("a", direct("a")),
            prop("c", direct("c")),
            prop("e", nested(vec![prop("f", access(direct("e"), "f"))])),
        ])
    );
}

#[test]
fn assignment_whose_value_reads_the_written_object() {
    let (manifest, _) = analyze(&assign(dot(id("a"), "b"), dot(id("a"), "c")));
    assert_eq!(manifest, nested(vec![prop("a", direct("a"))]));
}

#[test]
fn drained_target_leaves_the_value_alone() {
    let (manifest, _) = analyze(&assign(
        Node::Member(MemberExpr { obj: Box::new(this()), prop: Box::new(id("b")) }),
        dot(id("c"), "d"),
    ));
    assert_eq!(manifest, nested(vec![prop("c", nested(vec![prop("d", access(direct("c"), "d"))]))]));
}

#[test]
fn assignment_below_a_member_access_captures_target_and_value() {
    let body = Node::Member(MemberExpr {
        obj: Box::new(assign(id("x"), id("y"))),
        prop: Box::new(id("z")),
    });
    let (manifest, declared) = analyze(&body);
    assert_eq!(
        manifest,
        nested(vec![prop("x", direct("x")), prop("y", direct("y")), prop("z", direct("z"))])
    );
    assert!(declared.is_empty());
}

#[test]
fn assignment_in_a_call_below_a_member_access() {
    let call = other(vec![id("f"), assign(id("x"), id("y"))]);
    let body = other(vec![
        Node::Member(MemberExpr { obj: Box::new(call), prop: Box::new(id("z")) }),
        id("next"),
    ]);
    let (manifest, _) = analyze(&body);
    assert_eq!(
        manifest,
        nested(vec![
            prop("f", direct("f")),
            prop("x", direct("x")),
            prop("y", direct("y")),
            prop("z", direct("z")),
            prop("next", direct("next")),
        ])
    );
}

#[test]
fn member_assignment_below_a_member_access_leaves_no_path() {
    let inner = assign(dot(id("a"), "b"), dot(id("c"), "d"));
    let body = other(vec![
        Node::Member(MemberExpr { obj: Box::new(inner), prop: Box::new(id("e")) }),
        dot(id("g"), "h"),
    ]);
    let (manifest, _) = analyze(&body);
    assert_eq!(
        manifest,
        nested(vec![
            prop("a", direct("a")),
            prop("c", nested(vec![prop("d", access(direct("c"), "d"))])),
            prop("e", direct("e")),
            prop("g", nested(vec![prop("h", access(direct("g"), "h"))])),
        ])
    );
}

#[test]
fn assignment_in_a_computed_property_captures_the_chain_so_far() {
    let body = index(dot(id("a"), "b"), assign(id("x"), id("y")));
    let (manifest, _) = analyze(&body);
    assert_eq!(
        manifest,
        nested(vec![
            prop("a", nested(vec![prop("b", access(direct("a"), "b"))])),
            prop("x", direct("x")),
            prop("y", direct("y")),
        ])
    );
}

#[test]
fn assignment_inside_the_target_of_an_assignment() {
    let target = index(dot(id("a"), "b"), assign(dot(id("i"), "j"), dot(id("k"), "l")));
    let body = other(vec![assign(target, dot(id("m"), "n")), id("next")]);
    let (manifest, _) = analyze(&body);
    assert_eq!(
        manifest,
        nested(vec![
            prop("a", nested(vec![prop("b", access(direct("a"), "b"))])),
            prop("i", direct("i")),
            prop("k", nested(vec![prop("l", access(direct("k"), "l"))])),
            prop("m", nested(vec![prop("n", access(direct("m"), "n"))])),
            prop("next", direct("next")),
        ])
    );
}

#[test]
fn bare_reference_as_assigned_value_is_captured() {
    let (manifest, _) = analyze(&assign(dot(id("a"), "b"), id("x")));
    assert_eq!(manifest, nested(vec![prop("a", direct("a")), prop("x", direct("x"))]));
}

#[test]
fn self_recursion_is_excluded() {
    let body = function("foo", vec![other(vec![other(vec![id("foo")])])]);
    let (manifest, declared) = analyze(&body);
    assert_eq!(manifest, nested(vec![]));
    assert_eq!(declared, vec!["foo"]);
}

#[test]
fn function_parameters_and_body_are_references() {
    let body = function("f", vec![id("param"), other(vec![id("outer")])]);
    let (manifest, declared) = analyze(&body);
    assert_eq!(manifest, nested(vec![prop("param", direct("param")), prop("outer", direct("outer"))]));
    assert_eq!(declared, vec!["f"]);
}

#[test]
fn property_key_is_excluded() {
    let body = other(vec![key_value(id("key"), id("outer"))]);
    let (manifest, declared) = analyze(&body);
    assert_eq!(manifest, nested(vec![prop("outer", direct("outer"))]));
    assert!(declared.is_empty());
}

#[test]
fn property_key_is_excluded_whatever_it_holds() {
    let body = key_value(other(vec![dot(id("k"), "l"), declare("d", None)]), dot(id("o"), "p"));
    let (manifest, declared) = analyze(&body);
    assert_eq!(manifest, nested(vec![prop("o", nested(vec![prop("p", access(direct("o"), "p"))]))]));
    assert!(declared.is_empty());
}

#[test]
fn declared_name_is_removed_however_often_it_is_referenced() {
    let body = other(vec![
        id("local"),
        declare("local", Some(literal())),
        id("local"),
        other(vec![id("local"), id("outer")]),
    ]);
    let (manifest, declared) = analyze(&body);
    assert_eq!(manifest, nested(vec![prop("outer", direct("outer"))]));
    assert_eq!(declared, vec!["local"]);
}

#[test]
fn declaration_in_an_inner_scope_counts_everywhere() {
    let body = other(vec![
        id("x"),
        function("inner", vec![other(vec![other(vec![declare("x", Some(id("y")))])])]),
        dot(id("x"), "field"),
    ]);
    let (manifest, declared) = analyze(&body);
    assert_eq!(manifest, nested(vec![prop("y", direct("y"))]));
    assert_eq!(declared, vec!["inner", "x"]);
}

#[test]
fn declared_name_is_removed_with_all_that_is_below_it() {
    let body = other(vec![dot(id("local"), "field"), declare("local", None)]);
    let (manifest, _) = analyze(&body);
    assert_eq!(manifest, nested(vec![]));
}

#[test]
fn declared_name_below_another_root_stays() {
    let body = other(vec![declare("local", None), dot(id("outer"), "local")]);
    let (manifest, declared) = analyze(&body);
    assert_eq!(
        manifest,
        nested(vec![prop("outer", nested(vec![prop("local", access(direct("outer"), "local"))]))])
    );
    assert_eq!(declared, vec!["local"]);
}

#[test]
fn declaring_a_name_twice_is_as_declaring_it_once() {
    let body = other(vec![declare("x", None), declare("x", None), id("x"), id("y")]);
    let (manifest, declared) = analyze(&body);
    assert_eq!(manifest, nested(vec![prop("y", direct("y"))]));
    assert_eq!(declared, vec!["x", "x"]);
}

#[test]
fn initializer_is_visited_as_references() {
    let body = declare("local", Some(dot(id("source"), "field")));
    let (manifest, declared) = analyze(&body);
    assert_eq!(
        manifest,
        nested(vec![prop("source", nested(vec![prop("field", access(direct("source"), "field"))]))])
    );
    assert_eq!(declared, vec!["local"]);
}

#[test]
fn every_identifier_of_a_binding_pattern_is_declared() {
    let pattern = other(vec![id("a"), other(vec![id("b")])]);
    let body = other(vec![
        Node::VarDeclarator(VarDeclarator { name: Box::new(pattern), init: Some(Box::new(id("src"))) }),
        id("a"),
        id("b"),
    ]);
    let (manifest, declared) = analyze(&body);
    assert_eq!(manifest, nested(vec![prop("src", direct("src"))]));
    assert_eq!(declared, vec!["a", "b"]);
}

#[test]
fn flags_do_not_leak_into_siblings() {
    let body = other(vec![
        dot(id("a"), "b"),
        id("c"),
        declare("d", None),
        id("e"),
        assign(dot(id("f"), "g"), literal()),
        id("h"),
        dot(id("i"), "j"),
    ]);
    let (manifest, declared) = analyze(&body);
    assert_eq!(
        manifest,
        nested(vec![
            prop("a", nested(vec![prop("b", access(direct("a"), "b"))])),
            prop("c", direct("c")),
            prop("e", direct("e")),
            prop("f", direct("f")),
            prop("h", direct("h")),
            prop("i", nested(vec![prop("j", access(direct("i"), "j"))])),
        ])
    );
    assert_eq!(declared, vec!["d"]);
}

#[test]
fn computed_member_extends_the_chain_in_progress() {
    let (manifest, _) = analyze(&index(id("a"), id("i")));
    assert_eq!(manifest, nested(vec![prop("a", nested(vec![prop("i", access(direct("a"), "i"))]))]));
}

#[test]
fn end_to_end_scenario() {
    let body = other(vec![
        other(vec![dot(dot(id("props"), "value"), "x")]),
        other(vec![assign(dot(id("shared"), "count"), literal())]),
        other(vec![declare("local", Some(literal()))]),
        other(vec![other(vec![id("local"), id("outer")])]),
    ]);
    let (manifest, declared) = analyze(&body);
    assert_eq!(
        manifest,
        nested(vec![
            prop(
                "props",
                nested(vec![prop(
                    "value",
                    nested(vec![prop("x", access(access(direct("props"), "value"), "x"))])
                )])
            ),
            prop("shared", direct("shared")),
            prop("outer", direct("outer")),
        ])
    );
    assert_eq!(declared, vec!["local"]);
}

#[test]
fn visiting_by_kind_is_visiting_the_node() {
    let member = MemberExpr { obj: Box::new(id("a")), prop: Box::new(id("b")) };
    let mut by_kind = ClosureGeneratorVisitor::new();
    by_kind.visit_member_expr(&member);
    by_kind.visit_ident(&sym("c"));
    by_kind.visit_assign_expr(&AssignExpr { left: Box::new(dot(id("d"), "e")), right: Box::new(literal()) });
    by_kind.visit_var_declarator(&VarDeclarator { name: Box::new(id("f")), init: Some(Box::new(id("g"))) });
    by_kind.visit_fn_decl(&FnDecl { ident: sym("h"), function: vec![id("i")] });
    by_kind.visit_key_value_prop(&KeyValueProp { key: Box::new(id("j")), value: Box::new(id("k")) });
    by_kind.visit_nodes(&vec![id("l"), id("m")]);

    let body = other(vec![
        dot(id("a"), "b"),
        id("c"),
        assign(dot(id("d"), "e"), literal()),
        declare("f", Some(id("g"))),
        function("h", vec![id("i")]),
        key_value(id("j"), id("k")),
        id("l"),
        id("m"),
    ]);
    let (manifest, declared) = analyze(&body);
    assert_eq!(by_kind.build(), manifest);
    assert_eq!(by_kind.declared_identifiers(), &declared);
    assert_eq!(declared, vec!["f", "h"]);
}

#[test]
fn the_trie_of_the_visitor_holds_the_captures() {
    let mut visitor = ClosureGeneratorVisitor::new();
    visitor.visit_node(&other(vec![id("x"), declare("x", None), id("y")]));
    let mut stack = Vec::new();
    let before = visitor.trie().build(&mut stack);
    assert_eq!(before, vec![prop("x", direct("x")), prop("y", direct("y"))]);
    assert_eq!(visitor.build(), nested(vec![prop("y", direct("y"))]));
    let after = visitor.trie().build(&mut stack);
    assert_eq!(after, vec![prop("y", direct("y"))]);
    assert_eq!(visitor.build(), nested(vec![prop("y", direct("y"))]));
}
