//! What holds of the traversal whatever the function body is.

use vstd::prelude::*;
use crate::laws::trie::{
    law_depth_one_identity, law_insert_adds_one_path, law_removal_of_nothing, lemma_single_child,
    names_along,
};
use crate::manifest::{ExprView, PropView};
use crate::seq_facts::lemma_contains_push;
use crate::syntax::{AssignExpr, FnDecl, Ident, KeyValueProp, MemberExpr, Node, VarDeclarator};
use crate::trie_view::{TrieView, keyed_by_none_of, lemma_insert_wf, lemma_remove_wf};
use crate::visitor_view::VisitorView;

verus! {

/// What a visit leaves as it found it: the three flags have their old
/// values, every name that was declared is still declared, in the same
/// place, and a state that was well formed still is.
pub open spec fn restores(before: VisitorView, after: VisitorView) -> bool {
    &&& after.inside_member_expression == before.inside_member_expression
    &&& after.inside_assign_expression == before.inside_assign_expression
    &&& after.inside_declarator == before.inside_declarator
    &&& before.declared_identifiers.is_prefix_of(after.declared_identifiers)
    &&& before.wf() ==> after.wf()
}

/// State restoration: whatever node is visited, in whatever state, the
/// flags come back as they were, so that no subtree is classified by a flag
/// that an earlier subtree set; and no declared name is lost on the way.
pub proof fn law_visit_restores(state: VisitorView, n: Node)
    ensures
        restores(state, state.node(n)),
    decreases n,
{
    match n {
        Node::Ident(ident) => {
            lemma_insert_wf_if(state.trie, seq![ident]);
        },
        Node::Member(member) => {
            let below = VisitorView { inside_member_expression: true, ..state };
            assert(state.wf() ==> below.wf());
            law_visit_restores(below, *member.obj);
            law_visit_restores(below.node(*member.obj), *member.prop);
            let visited = below.node(*member.obj).node(*member.prop);
            if visited.current_ident is Some {
                lemma_insert_wf_if(visited.trie, visited.current_ident.unwrap());
            }
        },
        Node::Assign(assign) => {
            if state.current_ident is Some {
                lemma_insert_wf_if(state.trie, state.current_ident.unwrap());
            }
            let entered = VisitorView {
                inside_assign_expression: true,
                inside_member_expression: false,
                ..state.capture_current()
            };
            assert(state.wf() ==> entered.wf());
            law_visit_restores(entered, *assign.left);
            let visited = entered.node(*assign.left);
            if visited.current_ident is Some {
                lemma_insert_wf_if(visited.trie, visited.current_ident.unwrap().drop_last());
            }
            let open = VisitorView {
                inside_assign_expression: false,
                ..visited.capture_container()
            };
            assert(state.wf() ==> open.wf());
            law_visit_restores(open, *assign.right);
        },
        Node::VarDeclarator(declarator) => {
            let below = VisitorView { inside_declarator: true, ..state };
            law_visit_restores(below, *declarator.name);
            let after = VisitorView {
                inside_declarator: state.inside_declarator,
                ..below.node(*declarator.name)
            };
            match declarator.init {
                Some(init) => {
                    law_visit_restores(after, *init);
                },
                None => {},
            }
        },
        Node::FnDecl(decl) => {
            let below = VisitorView { inside_declarator: true, ..state };
            let after = VisitorView {
                inside_declarator: state.inside_declarator,
                ..below.ident(decl.ident)
            };
            law_visits_restore(after, decl.function@, 0);
        },
        Node::KeyValueProp(prop) => {
            law_visit_restores(state, *prop.value);
        },
        Node::Other(children) => {
            law_visits_restore(state, children@, 0);
        },
    }
}

/// State restoration over a run of nodes.
pub proof fn law_visits_restore(state: VisitorView, nodes: Seq<Node>, from: nat)
    ensures
        restores(state, state.nodes(nodes, from)),
    decreases nodes, nodes.len() - from,
{
    if from < nodes.len() {
        law_visit_restores(state, nodes[from as int]);
        law_visits_restore(state.node(nodes[from as int]), nodes, from + 1);
    }
}

/// Merging a path keeps a well-formed trie well formed, and leaves the
/// identifier of its root alone.
proof fn lemma_insert_wf_if(trie: TrieView, path: Seq<Ident>)
    ensures
        trie.wf() ==> trie.insert(path).wf(),
        trie.insert(path).ident == trie.ident,
{
    if trie.wf() {
        lemma_insert_wf(trie, path);
    }
}

/// Nothing leaks into the next sibling: a visit that begins with no path
/// in progress, outside member accesses and the written side of an
/// assignment, leaves no path in progress, whatever the node is.
pub proof fn law_visit_leaves_no_path(state: VisitorView, n: Node)
    requires
        state.current_ident is None,
        !state.inside_member_expression,
        !state.inside_assign_expression,
    ensures
        state.node(n).current_ident is None,
    decreases n,
{
    match n {
        Node::Ident(ident) => {},
        Node::Member(member) => {
            let below = VisitorView { inside_member_expression: true, ..state };
            law_visit_restores(below, *member.obj);
            law_visit_restores(below.node(*member.obj), *member.prop);
        },
        Node::Assign(assign) => {
            let entered = VisitorView {
                inside_assign_expression: true,
                inside_member_expression: false,
                ..state.capture_current()
            };
            law_visit_restores(entered, *assign.left);
            let open = VisitorView {
                inside_assign_expression: false,
                ..entered.node(*assign.left).capture_container()
            };
            law_visit_leaves_no_path(open, *assign.right);
        },
        Node::VarDeclarator(declarator) => {
            let below = VisitorView { inside_declarator: true, ..state };
            law_visit_leaves_no_path(below, *declarator.name);
            law_visit_restores(below, *declarator.name);
            let after = VisitorView {
                inside_declarator: state.inside_declarator,
                ..below.node(*declarator.name)
            };
            match declarator.init {
                Some(init) => {
                    law_visit_leaves_no_path(after, *init);
                },
                None => {},
            }
        },
        Node::FnDecl(decl) => {
            let below = VisitorView { inside_declarator: true, ..state };
            let after = VisitorView {
                inside_declarator: state.inside_declarator,
                ..below.ident(decl.ident)
            };
            law_visits_leave_no_path(after, decl.function@, 0);
        },
        Node::KeyValueProp(prop) => {
            law_visit_leaves_no_path(state, *prop.value);
        },
        Node::Other(children) => {
            law_visits_leave_no_path(state, children@, 0);
        },
    }
}

/// Nothing leaks into the next sibling, over a run of nodes.
pub proof fn law_visits_leave_no_path(state: VisitorView, nodes: Seq<Node>, from: nat)
    requires
        state.current_ident is None,
        !state.inside_member_expression,
        !state.inside_assign_expression,
    ensures
        state.nodes(nodes, from).current_ident is None,
    decreases nodes, nodes.len() - from,
{
    if from < nodes.len() {
        law_visit_leaves_no_path(state, nodes[from as int]);
        law_visit_restores(state, nodes[from as int]);
        law_visits_leave_no_path(state.node(nodes[from as int]), nodes, from + 1);
    }
}

/// An assignment leaves no path in progress and the flags as they were,
/// in whatever state it is met: below a member access, inside another
/// assignment, or with a path in progress.
pub proof fn law_assignment_leaves_no_path(state: VisitorView, assign: AssignExpr)
    ensures
        state.assign_expr(assign).current_ident is None,
        state.assign_expr(assign).inside_assign_expression == state.inside_assign_expression,
        state.assign_expr(assign).inside_member_expression == state.inside_member_expression,
        state.assign_expr(assign).inside_declarator == state.inside_declarator,
{
    let entered = VisitorView {
        inside_assign_expression: true,
        inside_member_expression: false,
        ..state.capture_current()
    };
    law_visit_restores(entered, *assign.left);
    let open = VisitorView {
        inside_assign_expression: false,
        ..entered.node(*assign.left).capture_container()
    };
    law_visit_restores(open, *assign.right);
    law_visit_leaves_no_path(open, *assign.right);
}

/// A traversal begins in a well-formed state, and finishing keeps a state
/// well formed.
pub proof fn law_initial_and_finished_states_are_well_formed(state: VisitorView)
    ensures
        VisitorView::initial().wf(),
        state.wf() ==> state.finish().wf(),
{
    if state.wf() {
        lemma_remove_wf(state.trie, state.declared_identifiers);
    }
}

/// Whether `n` binds `name`: whether an identifier with that name stands
/// in a binding target of `n`, as the name of a variable declaration or of
/// a function declaration. `target` says whether `n` itself stands in a
/// binding target.
pub open spec fn binds(n: Node, name: Seq<char>, target: bool) -> bool
    decreases n,
{
    match n {
        Node::Ident(ident) => target && ident.sym@ == name,
        Node::Member(member) => binds(*member.obj, name, target) || binds(
            *member.prop,
            name,
            target,
        ),
        Node::Assign(assign) => binds(*assign.left, name, target) || binds(
            *assign.right,
            name,
            target,
        ),
        Node::VarDeclarator(declarator) => binds(*declarator.name, name, true) || match declarator.init {
            Some(init) => binds(*init, name, target),
            None => false,
        },
        Node::FnDecl(decl) => decl.ident.sym@ == name || binds_any(decl.function@, name, target, 0),
        Node::KeyValueProp(prop) => binds(*prop.value, name, target),
        Node::Other(children) => binds_any(children@, name, target, 0),
    }
}

/// Whether one of the nodes of `nodes` from index `from` on binds `name`.
pub open spec fn binds_any(nodes: Seq<Node>, name: Seq<char>, target: bool, from: nat) -> bool
    decreases nodes, nodes.len() - from,
{
    from < nodes.len() && (binds(nodes[from as int], name, target) || binds_any(
        nodes,
        name,
        target,
        from + 1,
    ))
}

/// The declared names are the bound names: after a visit a name is
/// declared exactly if it was declared before or the visited node binds
/// it.
pub proof fn law_declared_names_are_bound_names(state: VisitorView, n: Node, name: Seq<char>)
    ensures
        state.node(n).declared_identifiers.contains(name) <==> state.declared_identifiers.contains(
            name,
        ) || binds(n, name, state.inside_declarator),
    decreases n,
{
    match n {
        Node::Ident(ident) => {
            if state.inside_declarator {
                lemma_contains_push(state.declared_identifiers, ident.sym@, name);
            }
        },
        Node::Member(member) => {
            let below = VisitorView { inside_member_expression: true, ..state };
            let mid = below.node(*member.obj);
            law_declared_names_are_bound_names(below, *member.obj, name);
            law_visit_restores(below, *member.obj);
            law_declared_names_are_bound_names(mid, *member.prop, name);
        },
        Node::Assign(assign) => {
            let entered = VisitorView {
                inside_assign_expression: true,
                inside_member_expression: false,
                ..state.capture_current()
            };
            law_declared_names_are_bound_names(entered, *assign.left, name);
            law_visit_restores(entered, *assign.left);
            let open = VisitorView {
                inside_assign_expression: false,
                ..entered.node(*assign.left).capture_container()
            };
            law_declared_names_are_bound_names(open, *assign.right, name);
        },
        Node::VarDeclarator(declarator) => {
            let below = VisitorView { inside_declarator: true, ..state };
            law_declared_names_are_bound_names(below, *declarator.name, name);
            let after = VisitorView {
                inside_declarator: state.inside_declarator,
                ..below.node(*declarator.name)
            };
            match declarator.init {
                Some(init) => {
                    law_declared_names_are_bound_names(after, *init, name);
                },
                None => {},
            }
        },
        Node::FnDecl(decl) => {
            let below = VisitorView { inside_declarator: true, ..state };
            let after = VisitorView {
                inside_declarator: state.inside_declarator,
                ..below.ident(decl.ident)
            };
            lemma_contains_push(state.declared_identifiers, decl.ident.sym@, name);
            lemma_declared_names_of_run(after, decl.function@, name, 0);
        },
        Node::KeyValueProp(prop) => {
            law_declared_names_are_bound_names(state, *prop.value, name);
        },
        Node::Other(children) => {
            lemma_declared_names_of_run(state, children@, name, 0);
        },
    }
}

/// The declared names are the bound names, over a run of nodes.
proof fn lemma_declared_names_of_run(state: VisitorView, nodes: Seq<Node>, name: Seq<char>, from: nat)
    ensures
        state.nodes(nodes, from).declared_identifiers.contains(name)
            <==> state.declared_identifiers.contains(name) || binds_any(
            nodes,
            name,
            state.inside_declarator,
            from,
        ),
    decreases nodes, nodes.len() - from,
{
    if from < nodes.len() {
        law_declared_names_are_bound_names(state, nodes[from as int], name);
        law_visit_restores(state, nodes[from as int]);
        lemma_declared_names_of_run(state.node(nodes[from as int]), nodes, name, from + 1);
    }
}

/// Shadowing removal: once the traversal is finished, no top-level key of
/// the manifest is a name that was declared, however often and wherever
/// the name was referenced.
pub proof fn law_shadowing_removal(state: VisitorView)
    ensures
        state.finish().manifest() is Object,
        forall|i: int|
            0 <= i < state.finish().manifest()->Object_0.len()
                ==> !state.declared_identifiers.contains(
                (#[trigger] state.finish().manifest()->Object_0[i]).key.sym@,
            ),
{
    let names = state.declared_identifiers;
    let kept = state.trie.remove(names);
    kept.lemma_entries(Seq::empty());
    assert forall|i: int| 0 <= i < kept.children.len() implies !names.contains(
        (#[trigger] kept.entries(Seq::empty())[i]).key.sym@,
    ) by {
        state.trie.children.lemma_filter_pred(keyed_by_none_of(names), i);
    }
}

/// A name that is declared anywhere in a body is no top-level key of the
/// manifest of that body: a declaration met during the visit of `body` is
/// still known when the visit is over, and then shadowing removal applies.
pub proof fn law_declared_in_body_is_not_captured(before: VisitorView, body: Node, name: Seq<char>)
    requires
        before.node(body).declared_identifiers.contains(name),
    ensures
        forall|i: int|
            0 <= i < before.node(body).finish().manifest()->Object_0.len() ==> (
            #[trigger] before.node(body).finish().manifest()->Object_0[i]).key.sym@ != name,
{
    law_shadowing_removal(before.node(body));
}

/// Shadowing removal for a whole body: a name that the body binds
/// anywhere is no top-level key of the manifest of that body, however
/// often and wherever the body refers to it.
pub proof fn law_bound_name_is_not_captured(body: Node, name: Seq<char>)
    requires
        binds(body, name, false),
    ensures
        VisitorView::initial().node(body).finish().manifest() is Object,
        forall|i: int|
            0 <= i < VisitorView::initial().node(body).finish().manifest()->Object_0.len() ==> (
            #[trigger] VisitorView::initial().node(body).finish().manifest()->Object_0[i]).key.sym@
                != name,
{
    law_declared_names_are_bound_names(VisitorView::initial(), body, name);
    law_shadowing_removal(VisitorView::initial().node(body));
}

/// The own name of a function declaration is declared by it, whatever its
/// parameters and body hold: so a function that calls itself does not
/// capture itself.
pub proof fn law_function_declares_its_name(state: VisitorView, decl: FnDecl)
    ensures
        state.fn_decl(decl).declared_identifiers.contains(decl.ident.sym@),
        forall|i: int|
            0 <= i < state.fn_decl(decl).finish().manifest()->Object_0.len() ==> (
            #[trigger] state.fn_decl(decl).finish().manifest()->Object_0[i]).key.sym@
                != decl.ident.sym@,
{
    let below = VisitorView { inside_declarator: true, ..state };
    let named = VisitorView { inside_declarator: state.inside_declarator, ..below.ident(decl.ident) };
    let at = state.declared_identifiers.len() as int;
    assert(named.declared_identifiers[at] == decl.ident.sym@);
    law_visits_restore(named, decl.function@, 0);
    let after = state.fn_decl(decl);
    assert(after.declared_identifiers[at] == decl.ident.sym@);
    law_shadowing_removal(after);
}

/// Self-recursion exclusion: a function whose body only calls the function
/// itself gives an empty manifest.
pub proof fn law_self_recursion_excluded(decl: FnDecl, call: Vec<Node>, callee: Ident)
    requires
        decl.function@ == seq![Node::Other(call)],
        call@ == seq![Node::Ident(callee)],
        callee.sym@ == decl.ident.sym@,
    ensures
        VisitorView::initial().node(Node::FnDecl(decl)).finish().manifest() == ExprView::Object(
            Seq::empty(),
        ),
{
    let start = VisitorView::initial();
    let below = VisitorView { inside_declarator: true, ..start };
    let named = VisitorView { inside_declarator: false, ..below.ident(decl.ident) };
    assert(named.declared_identifiers =~= seq![decl.ident.sym@]);
    // the body: one call, whose callee is a bare reference
    let called = named.ident(callee);
    assert(named.nodes(call@, 0) == called) by {
        assert(named.node(call@[0]) == called);
        assert(called.nodes(call@, 1) == called);
    }
    assert(named.nodes(decl.function@, 0) == called) by {
        assert(named.node(decl.function@[0]) == named.nodes(call@, 0));
        assert(called.nodes(decl.function@, 1) == called);
    }
    let after = start.node(Node::FnDecl(decl));
    assert(after == called);
    lemma_single_child(callee);
    let names = after.declared_identifiers;
    assert(names[0] == callee.sym@);
    assert(after.trie.children.filter(keyed_by_none_of(names)) =~= Seq::empty()) by {
        reveal_with_fuel(Seq::filter, 2);
        assert(after.trie.children.drop_last() =~= Seq::empty());
    }
    assert(after.finish().trie.entries(Seq::empty()) =~= Seq::empty());
}

/// One binding of a variable declaration declares the name and visits the
/// initializer as if the binding were not there: what the initializer
/// refers to is captured, not declared.
pub proof fn law_declarator_binds_its_name_only(
    state: VisitorView,
    declarator: VarDeclarator,
    name: Ident,
)
    requires
        *declarator.name == Node::Ident(name),
    ensures
        state.var_declarator(declarator) == match declarator.init {
            Some(init) => (VisitorView {
                declared_identifiers: state.declared_identifiers.push(name.sym@),
                ..state
            }).node(*init),
            None => VisitorView {
                declared_identifiers: state.declared_identifiers.push(name.sym@),
                ..state
            },
        },
{
}

/// The syntax of a member chain over the identifiers of `path`: the bare
/// identifier for one segment, and otherwise the access to the last
/// segment on the chain of those before it.
pub open spec fn member_node(path: Seq<Ident>) -> Node
    decreases path.len(),
{
    if path.len() <= 1 {
        Node::Ident(path[0])
    } else {
        Node::Member(
            MemberExpr {
                obj: Box::new(member_node(path.drop_last())),
                prop: Box::new(Node::Ident(path.last())),
            },
        )
    }
}

/// Below a member access a chain only extends the path in progress, or
/// begins it, by all its segments in their order: however deep the chain
/// is nested, it accumulates into one path.
pub proof fn law_chain_extends_path_in_progress(state: VisitorView, path: Seq<Ident>)
    requires
        path.len() >= 1,
        state.inside_member_expression,
        !state.inside_declarator,
    ensures
        state.node(member_node(path)) == (VisitorView {
            current_ident: Some(
                match state.current_ident {
                    Some(begun) => begun + path,
                    None => path,
                },
            ),
            ..state
        }),
    decreases path.len(),
{
    if path.len() == 1 {
        assert(member_node(path) == Node::Ident(path[0]));
        assert(state.node(Node::Ident(path[0])) == state.ident(path[0]));
        match state.current_ident {
            Some(begun) => {
                assert(begun.push(path[0]) =~= begun + path);
            },
            None => {
                assert(seq![path[0]] =~= path);
            },
        }
    } else {
        let front = path.drop_last();
        let last = path.last();
        let access = MemberExpr { obj: Box::new(member_node(front)), prop: Box::new(Node::Ident(last)) };
        assert(member_node(path) == Node::Member(access));
        law_chain_extends_path_in_progress(state, front);
        let so_far = match state.current_ident {
            Some(begun) => begun + front,
            None => front,
        };
        let mid = VisitorView { current_ident: Some(so_far), ..state };
        assert(state.node(member_node(front)) == mid);
        let end = VisitorView { current_ident: Some(so_far.push(last)), ..state };
        assert(mid.node(Node::Ident(last)) == end) by {
            assert(mid.node(Node::Ident(last)) == mid.ident(last));
        }
        lemma_member_below_member(state, access, mid, end);
        match state.current_ident {
            Some(begun) => {
                assert(so_far.push(last) =~= begun + path);
            },
            None => {
                assert(so_far.push(last) =~= path);
            },
        }
    }
}

/// A member access below a member access hands on the state in which its
/// property leaves it.
proof fn lemma_member_below_member(
    state: VisitorView,
    access: MemberExpr,
    mid: VisitorView,
    end: VisitorView,
)
    requires
        state.inside_member_expression,
        state.node(*access.obj) == mid,
        mid.node(*access.prop) == end,
        end.inside_member_expression,
    ensures
        state.node(Node::Member(access)) == end,
{
    let below = VisitorView { inside_member_expression: true, ..state };
    assert(below == state);
    assert(state.node(Node::Member(access)) == state.member_expr(access));
}

/// Reading a member chain: outside assignments, member accesses and
/// binding targets, with no path in progress, a chain of any depth is
/// captured once, as the whole path.
pub proof fn law_chain_is_captured_once(state: VisitorView, path: Seq<Ident>)
    requires
        path.len() >= 1,
        !state.inside_member_expression,
        !state.inside_assign_expression,
        !state.inside_declarator,
        state.current_ident is None,
    ensures
        state.node(member_node(path)) == (VisitorView { trie: state.trie.insert(path), ..state }),
{
    if path.len() == 1 {
        assert(member_node(path) == Node::Ident(path[0]));
        assert(seq![path[0]] =~= path);
    } else {
        let below = VisitorView { inside_member_expression: true, ..state };
        let front = path.drop_last();
        let access = MemberExpr {
            obj: Box::new(member_node(front)),
            prop: Box::new(Node::Ident(path.last())),
        };
        assert(member_node(path) == Node::Member(access));
        law_chain_extends_path_in_progress(below, front);
        let mid = below.node(member_node(front));
        let end = mid.node(Node::Ident(path.last()));
        assert(end == mid.ident(path.last()));
        assert(front.push(path.last()) =~= path);
        assert(end.current_ident == Some(path));
    }
}

/// Assignment segment drop: an assignment to a member chain captures the
/// chain without its last segment, the container that is written to, and
/// not the member itself. It does so when the target has been visited,
/// whatever the value is and whatever stands around the assignment; the
/// value is then visited with no path in progress, outside member
/// accesses and assignments. So `a.b = 1` captures `a`.
pub proof fn law_assignment_drops_segment(state: VisitorView, assign: AssignExpr, path: Seq<Ident>)
    requires
        path.len() >= 2,
        !state.inside_declarator,
        state.current_ident is None,
        *assign.left == member_node(path),
    ensures
        state.assign_expr(assign) == (VisitorView {
            inside_assign_expression: state.inside_assign_expression,
            inside_member_expression: state.inside_member_expression,
            ..(VisitorView {
                inside_assign_expression: false,
                inside_member_expression: false,
                trie: state.trie.insert(path.drop_last()),
                ..state
            }).node(*assign.right)
        }),
        state.node(Node::Assign(assign)) == state.assign_expr(assign),
{
    let entered = VisitorView {
        inside_assign_expression: true,
        inside_member_expression: false,
        ..state
    };
    assert(state.capture_current() == state);
    let inner = VisitorView { inside_member_expression: true, ..entered };
    let front = path.drop_last();
    let access = MemberExpr {
        obj: Box::new(member_node(front)),
        prop: Box::new(Node::Ident(path.last())),
    };
    assert(member_node(path) == Node::Member(access));
    law_chain_extends_path_in_progress(inner, front);
    let mid = VisitorView { current_ident: Some(front), ..inner };
    assert(inner.node(member_node(front)) == mid);
    let end = VisitorView { current_ident: Some(front.push(path.last())), ..inner };
    assert(mid.node(Node::Ident(path.last())) == end) by {
        assert(mid.node(Node::Ident(path.last())) == mid.ident(path.last()));
    }
    assert(front.push(path.last()) =~= path);
    let visited = VisitorView { current_ident: Some(path), ..entered };
    assert(entered.node(*assign.left) == visited) by {
        assert(entered.node(Node::Member(access)) == entered.member_expr(access));
    }
    assert(visited.capture_container() == VisitorView {
        trie: state.trie.insert(path.drop_last()),
        ..entered
    });
}

/// Target and value stay apart: an assignment of one member chain to
/// another captures the target without its last segment and the value as
/// a whole, each as a path of its own. The trie then holds these two
/// paths and those that it held before, and no path that runs from the
/// target into the value. So `a.b = c.d` captures `a` and `c.d`.
pub proof fn law_assignment_keeps_target_and_value_apart(
    state: VisitorView,
    assign: AssignExpr,
    target: Seq<Ident>,
    value: Seq<Ident>,
    names: Seq<Seq<char>>,
)
    requires
        target.len() >= 2,
        value.len() >= 1,
        !state.inside_declarator,
        state.current_ident is None,
        *assign.left == member_node(target),
        *assign.right == member_node(value),
    ensures
        state.assign_expr(assign) == (VisitorView {
            trie: state.trie.insert(target.drop_last()).insert(value),
            ..state
        }),
        state.assign_expr(assign).trie.has_path(names) == (names == names_along(target.drop_last())
            || names == names_along(value) || state.trie.has_path(names)),
{
    law_assignment_drops_segment(state, assign, target);
    let written = VisitorView {
        inside_assign_expression: false,
        inside_member_expression: false,
        trie: state.trie.insert(target.drop_last()),
        ..state
    };
    law_chain_is_captured_once(written, value);
    law_insert_adds_one_path(state.trie, target.drop_last(), names);
    law_insert_adds_one_path(written.trie, value, names);
}

/// Assignment segment drop on `a.b = 1`: the manifest of a body that is
/// this assignment has the one key `a`, whose value is the direct
/// reference to `a`.
pub proof fn law_assignment_captures_container(assign: AssignExpr, a: Ident, b: Ident, value: Vec<Node>)
    requires
        *assign.left == member_node(seq![a, b]),
        *assign.right == Node::Other(value),
        value@.len() == 0,
    ensures
        VisitorView::initial().node(Node::Assign(assign)).finish().manifest() == ExprView::Object(
            seq![PropView { key: a, value: ExprView::Ident(a) }],
        ),
{
    let start = VisitorView::initial();
    law_assignment_drops_segment(start, assign, seq![a, b]);
    assert(seq![a, b].drop_last() =~= seq![a]);
    let written = VisitorView { trie: start.trie.insert(seq![a]), ..start };
    assert(written.node(*assign.right) == written) by {
        assert(written.nodes(value@, 0) == written);
    }
    law_removal_of_nothing(written.trie);
    law_depth_one_identity(a);
}

/// An assignment to a bare identifier captures the identifier, also below
/// a member access: nothing is dropped where the target is no member
/// chain. The value is then visited as after any other reference.
pub proof fn law_bare_assignment_target(state: VisitorView, assign: AssignExpr, target: Ident)
    requires
        !state.inside_declarator,
        state.current_ident is None,
        *assign.left == Node::Ident(target),
    ensures
        state.assign_expr(assign) == (VisitorView {
            inside_assign_expression: state.inside_assign_expression,
            inside_member_expression: state.inside_member_expression,
            ..(VisitorView {
                inside_assign_expression: false,
                inside_member_expression: false,
                trie: state.trie.insert(seq![target]),
                ..state
            }).node(*assign.right)
        }),
{
    assert(state.capture_current() == state);
}

/// Property-key exclusion: what a `key: value` property does to the state
/// is what its value does, whatever the key is.
pub proof fn law_property_key_excluded(state: VisitorView, key: Node, value: Node)
    ensures
        state.node(
            Node::KeyValueProp(KeyValueProp { key: Box::new(key), value: Box::new(value) }),
        ) == state.node(value),
{
}

/// Property-key exclusion on `{ key: outer }`: the manifest has the one
/// key `outer`, and nothing is declared, whatever `key` is.
pub proof fn law_property_value_is_captured(key: Node, outer: Ident)
    ensures
        VisitorView::initial().node(
            Node::KeyValueProp(
                KeyValueProp { key: Box::new(key), value: Box::new(Node::Ident(outer)) },
            ),
        ).finish() == (VisitorView {
            trie: TrieView::empty(None).insert(seq![outer]),
            ..VisitorView::initial()
        }),
        VisitorView::initial().node(
            Node::KeyValueProp(
                KeyValueProp { key: Box::new(key), value: Box::new(Node::Ident(outer)) },
            ),
        ).finish().manifest() == ExprView::Object(
            seq![PropView { key: outer, value: ExprView::Ident(outer) }],
        ),
{
    let start = VisitorView::initial();
    let prop = KeyValueProp { key: Box::new(key), value: Box::new(Node::Ident(outer)) };
    let after = start.node(Node::KeyValueProp(prop));
    assert(after == start.key_value_prop(prop));
    assert(after == start.ident(outer));
    law_removal_of_nothing(after.trie);
    law_depth_one_identity(outer);
}

} // verus!
