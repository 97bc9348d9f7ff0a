//! The traversal as a function on states: what each kind of node does to
//! the state in which it is met.

use vstd::prelude::*;
use crate::manifest::ExprView;
use crate::syntax::{AssignExpr, FnDecl, Ident, KeyValueProp, MemberExpr, Node, VarDeclarator};
use crate::trie_view::TrieView;

verus! {

/// The state of a traversal, as mathematical values.
pub struct VisitorView {
    /// Whether the traversal is below a member access.
    pub inside_member_expression: bool,
    /// Whether the traversal is inside an assignment, on the side that is
    /// written to. A member chain that is met there is not captured where
    /// it ends: it waits for the assignment, which captures its container.
    /// The value of the assignment is visited with the flag off.
    pub inside_assign_expression: bool,
    /// Whether the traversal is below a binding target.
    pub inside_declarator: bool,
    /// The access path in progress, while there is one.
    pub current_ident: Option<Seq<Ident>>,
    /// The names bound so far, in the order in which they were met.
    pub declared_identifiers: Seq<Seq<char>>,
    /// The access paths gathered so far.
    pub trie: TrieView,
}

impl VisitorView {
    /// What holds of every state that a traversal reaches: the trie is
    /// well formed, its root carries no identifier, and a path in progress
    /// has a segment.
    pub open spec fn wf(self) -> bool {
        &&& self.trie.wf()
        &&& self.trie.ident is None
        &&& self.current_ident is Some ==> self.current_ident.unwrap().len() >= 1
    }

    /// The state in which a traversal begins.
    pub open spec fn initial() -> VisitorView {
        VisitorView {
            inside_member_expression: false,
            inside_assign_expression: false,
            inside_declarator: false,
            current_ident: None,
            declared_identifiers: Seq::empty(),
            trie: TrieView::empty(None),
        }
    }

    /// The state after an identifier occurrence. Below a binding target the
    /// name is declared. Else, below a member access, the identifier
    /// extends the path in progress or begins one. Else it is a bare
    /// reference and is captured at once.
    pub open spec fn ident(self, n: Ident) -> VisitorView {
        if self.inside_declarator {
            VisitorView { declared_identifiers: self.declared_identifiers.push(n.sym@), ..self }
        } else if self.inside_member_expression {
            VisitorView {
                current_ident: Some(
                    match self.current_ident {
                        Some(path) => path.push(n),
                        None => seq![n],
                    },
                ),
                ..self
            }
        } else {
            VisitorView { trie: self.trie.insert(seq![n]), ..self }
        }
    }

    /// The state after the path in progress, if there is one, was captured
    /// and cleared.
    pub open spec fn capture_current(self) -> VisitorView {
        match self.current_ident {
            Some(path) => VisitorView { trie: self.trie.insert(path), current_ident: None, ..self },
            None => self,
        }
    }

    /// The state after the path in progress, if there is one, was captured
    /// without its innermost segment and cleared. Nothing is captured where
    /// no segment is left.
    pub open spec fn capture_container(self) -> VisitorView {
        match self.current_ident {
            Some(path) => VisitorView {
                trie: if path.len() > 1 {
                    self.trie.insert(path.drop_last())
                } else {
                    self.trie
                },
                current_ident: None,
                ..self
            },
            None => self,
        }
    }

    /// The state after a member access. Object and property are visited
    /// below a member access. Then, unless the access itself stands below a
    /// member access or on the written side of an assignment, the path in
    /// progress is captured.
    pub open spec fn member_expr(self, n: MemberExpr) -> VisitorView
        decreases n,
    {
        let below = VisitorView { inside_member_expression: true, ..self };
        let after = VisitorView {
            inside_member_expression: self.inside_member_expression,
            ..below.node(*n.obj).node(*n.prop)
        };
        if !after.inside_assign_expression && !after.inside_member_expression {
            after.capture_current()
        } else {
            after
        }
    }

    /// The state after an assignment. An assignment stands for itself:
    /// its target and its value are classified as if no member access and
    /// no other assignment stood around it, and it leaves no path in
    /// progress, in whatever state it is met.
    ///
    /// First the path that an enclosing chain has gathered so far is
    /// captured. The target is visited inside the assignment and outside
    /// any member access: a bare identifier is captured at once, and a
    /// member chain stays in progress. Of that chain the innermost segment
    /// is dropped and the rest is captured: a write to a member needs the
    /// container. Then the value is visited with the flag off and no path
    /// in progress, so that each chain in it is captured whole where it
    /// ends and none runs into the target's path. At the end both flags
    /// are as they were.
    pub open spec fn assign_expr(self, n: AssignExpr) -> VisitorView
        decreases n,
    {
        let target = VisitorView {
            inside_assign_expression: true,
            inside_member_expression: false,
            ..self.capture_current()
        }.node(*n.left).capture_container();
        let value = VisitorView { inside_assign_expression: false, ..target }.node(*n.right);
        VisitorView {
            inside_assign_expression: self.inside_assign_expression,
            inside_member_expression: self.inside_member_expression,
            ..value
        }
    }

    /// The state after one binding of a variable declaration. The name is
    /// visited below a binding target, the initializer is not.
    pub open spec fn var_declarator(self, n: VarDeclarator) -> VisitorView
        decreases n,
    {
        let below = VisitorView { inside_declarator: true, ..self };
        let after = VisitorView { inside_declarator: self.inside_declarator, ..below.node(*n.name) };
        match n.init {
            Some(init) => after.node(*init),
            None => after,
        }
    }

    /// The state after a function declaration. The function's own name is
    /// visited below a binding target, its parameters and body are not.
    pub open spec fn fn_decl(self, n: FnDecl) -> VisitorView
        decreases n,
    {
        let below = VisitorView { inside_declarator: true, ..self };
        let after = VisitorView { inside_declarator: self.inside_declarator, ..below.ident(n.ident) };
        after.nodes(n.function@, 0)
    }

    /// The state after a `key: value` property. Only the value is visited.
    pub open spec fn key_value_prop(self, n: KeyValueProp) -> VisitorView
        decreases n,
    {
        self.node(*n.value)
    }

    /// The state after the nodes of `nodes` from index `from` on were
    /// visited in their order.
    pub open spec fn nodes(self, nodes: Seq<Node>, from: nat) -> VisitorView
        decreases nodes, nodes.len() - from,
    {
        if from >= nodes.len() {
            self
        } else {
            self.node(nodes[from as int]).nodes(nodes, from + 1)
        }
    }

    /// The state after a node of any kind.
    pub open spec fn node(self, n: Node) -> VisitorView
        decreases n,
    {
        match n {
            Node::Ident(ident) => self.ident(ident),
            Node::Member(member) => self.member_expr(member),
            Node::Assign(assign) => self.assign_expr(assign),
            Node::VarDeclarator(declarator) => self.var_declarator(declarator),
            Node::FnDecl(decl) => self.fn_decl(decl),
            Node::KeyValueProp(prop) => self.key_value_prop(prop),
            Node::Other(children) => self.nodes(children@, 0),
        }
    }

    /// The state once the traversal is over: the children of the root that
    /// are keyed by a declared name are gone.
    pub open spec fn finish(self) -> VisitorView {
        VisitorView { trie: self.trie.remove(self.declared_identifiers), ..self }
    }

    /// The manifest of the captures gathered in the state.
    pub open spec fn manifest(self) -> ExprView {
        ExprView::Object(self.trie.entries(Seq::empty()))
    }
}

} // verus!
