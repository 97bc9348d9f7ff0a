//! The traversal that classifies every identifier occurrence of a function
//! body and gathers the captures.

use vstd::prelude::*;
use crate::ident_path::IdentPath;
use crate::manifest::{ManifestExpr, lemma_prop_views};
use crate::syntax::{AssignExpr, FnDecl, Ident, KeyValueProp, MemberExpr, Node, VarDeclarator};
use crate::trie::ClosureTrie;
use crate::trie_view::{lemma_remove_wf, names_of};
use crate::laws::traversal::{
    law_assignment_leaves_no_path, law_initial_and_finished_states_are_well_formed,
    law_visit_restores, law_visits_restore, restores,
};
use crate::visitor_view::VisitorView;

verus! {

/// The traversal over one function body. It is made empty, visits the body
/// once and is then asked for the manifest.
#[derive(Debug)]
pub struct ClosureGeneratorVisitor {
    inside_member_expression: bool,
    inside_assign_expression: bool,
    inside_declarator: bool,
    current_ident: Option<IdentPath>,
    declared_identifiers: Vec<String>,
    trie: ClosureTrie,
}

impl View for ClosureGeneratorVisitor {
    type V = VisitorView;

    closed spec fn view(&self) -> VisitorView {
        VisitorView {
            inside_member_expression: self.inside_member_expression,
            inside_assign_expression: self.inside_assign_expression,
            inside_declarator: self.inside_declarator,
            current_ident: match self.current_ident {
                Some(path) => Some(path@),
                None => None,
            },
            declared_identifiers: names_of(self.declared_identifiers@),
            trie: self.trie@,
        }
    }
}

impl ClosureGeneratorVisitor {
    /// A traversal that has seen nothing yet.
    pub fn new() -> (visitor: ClosureGeneratorVisitor)
        ensures
            visitor@ == VisitorView::initial(),
            visitor@.wf(),
    {
        let visitor = ClosureGeneratorVisitor {
            inside_assign_expression: false,
            inside_member_expression: false,
            inside_declarator: false,
            current_ident: None,
            declared_identifiers: Vec::new(),
            trie: ClosureTrie::new(None),
        };
        assert(visitor@.declared_identifiers =~= Seq::empty());
        visitor
    }

    /// The names bound so far.
    pub fn declared_identifiers(&self) -> (names: &Vec<String>)
        ensures
            names_of(names@) == self@.declared_identifiers,
    {
        &self.declared_identifiers
    }

    /// The access paths gathered so far.
    pub fn trie(&self) -> (trie: &ClosureTrie)
        ensures
            trie@ == self@.trie,
    {
        &self.trie
    }

    /// Removes the declared names from the top level of the trie and gives
    /// the manifest of what is left: an object literal with one entry for
    /// each capture that is left at the top, in the order in which the
    /// captures were first met. No key of the manifest is a declared name.
    pub fn build(&mut self) -> (manifest: ManifestExpr)
        ensures
            final(self)@ == old(self)@.finish(),
            manifest@ == old(self)@.finish().manifest(),
            manifest@ is Object,
            forall|i: int|
                0 <= i < manifest@->Object_0.len() ==> !old(self)@.declared_identifiers.contains(
                    (#[trigger] manifest@->Object_0[i]).key.sym@,
                ),
            old(self)@.wf() ==> final(self)@.wf(),
    {
        let ghost names = self@.declared_identifiers;
        let ghost before = self@.trie;
        proof {
            use_type_invariant(&self.trie);
            law_initial_and_finished_states_are_well_formed(self@);
        }
        self.trie.remove_nodes(&self.declared_identifiers);
        let mut path: Vec<Ident> = Vec::new();
        let props = self.trie.build(&mut path);
        proof {
            assert(path@ =~= Seq::<Ident>::empty());
            lemma_remove_wf(before, names);
            lemma_prop_views(props@);
            self@.trie.lemma_entries(Seq::empty());
        }
        ManifestExpr::Object(props)
    }

    /// Visits an identifier occurrence. Below a binding target its name is
    /// declared. Else, below a member access, it extends the path in
    /// progress or begins one. Else it is a bare reference and is captured
    /// at once.
    pub fn visit_ident(&mut self, n: &Ident)
        ensures
            final(self)@ == old(self)@.ident(*n),
            restores(old(self)@, final(self)@),
    {
        proof {
            law_visit_restores(self@, Node::Ident(*n));
        }
        if self.inside_declarator {
            self.declared_identifiers.push(n.sym.clone());
            assert(self@.declared_identifiers =~= old(self)@.declared_identifiers.push(n.sym@));
        } else if self.inside_member_expression {
            match self.current_ident.take() {
                Some(path) => {
                    let mut path = path;
                    path.push(n.clone());
                    self.current_ident = Some(path);
                },
                None => {
                    self.current_ident = Some(IdentPath::new(n.clone()));
                },
            }
        } else {
            self.trie.add_path(IdentPath::new(n.clone()));
        }
    }

    /// Visits a member access: object and property below a member access,
    /// and then, unless the access itself stands below a member access or
    /// on the written side of an assignment, the path in progress is
    /// captured.
    pub fn visit_member_expr(&mut self, n: &MemberExpr)
        ensures
            final(self)@ == old(self)@.member_expr(*n),
            restores(old(self)@, final(self)@),
        decreases n,
    {
        proof {
            law_visit_restores(self@, Node::Member(*n));
        }
        let outer = self.inside_member_expression;
        self.inside_member_expression = true;
        self.visit_node(&n.obj);
        self.visit_node(&n.prop);
        self.inside_member_expression = outer;

        if !self.inside_assign_expression && !self.inside_member_expression {
            if let Some(ident_path) = self.current_ident.take() {
                self.trie.add_path(ident_path);
            }
        }
    }

    /// Visits an assignment. What an enclosing chain has gathered so far
    /// is captured first. The target is visited inside the assignment and
    /// outside any member access; its chain is then captured without its
    /// innermost segment, or not at all where no segment is left. The
    /// value is visited with the flag off and no path in progress. On
    /// return the flags are as they were and no path is in progress.
    pub fn visit_assign_expr(&mut self, n: &AssignExpr)
        ensures
            final(self)@ == old(self)@.assign_expr(*n),
            final(self)@.current_ident is None,
            restores(old(self)@, final(self)@),
        decreases n,
    {
        proof {
            law_visit_restores(self@, Node::Assign(*n));
            law_assignment_leaves_no_path(self@, *n);
        }
        if let Some(ident_path) = self.current_ident.take() {
            self.trie.add_path(ident_path);
        }
        let outer_assign = self.inside_assign_expression;
        let outer_member = self.inside_member_expression;
        self.inside_assign_expression = true;
        self.inside_member_expression = false;
        self.visit_node(&n.left);

        if let Some(ident_path) = self.current_ident.take() {
            let mut ident_path = ident_path;
            ident_path.pop_latest();
            if !ident_path.is_empty() {
                self.trie.add_path(ident_path);
            }
        }

        self.inside_assign_expression = false;
        self.visit_node(&n.right);
        self.inside_assign_expression = outer_assign;
        self.inside_member_expression = outer_member;
    }

    /// Visits one binding of a variable declaration: the name below a
    /// binding target, the initializer not.
    pub fn visit_var_declarator(&mut self, n: &VarDeclarator)
        ensures
            final(self)@ == old(self)@.var_declarator(*n),
            restores(old(self)@, final(self)@),
        decreases n,
    {
        proof {
            law_visit_restores(self@, Node::VarDeclarator(*n));
        }
        let outer = self.inside_declarator;
        self.inside_declarator = true;
        self.visit_node(&n.name);
        self.inside_declarator = outer;

        if let Some(init) = &n.init {
            self.visit_node(init);
        }
    }

    /// Visits a function declaration: the function's own name below a
    /// binding target, its parameters and body not.
    pub fn visit_fn_decl(&mut self, n: &FnDecl)
        ensures
            final(self)@ == old(self)@.fn_decl(*n),
            restores(old(self)@, final(self)@),
        decreases n,
    {
        proof {
            law_visit_restores(self@, Node::FnDecl(*n));
        }
        let outer = self.inside_declarator;
        self.inside_declarator = true;
        self.visit_ident(&n.ident);
        self.inside_declarator = outer;

        self.visit_nodes(&n.function);
    }

    /// Visits a `key: value` property: the value only. The key is no
    /// reference, whatever it holds.
    pub fn visit_key_value_prop(&mut self, n: &KeyValueProp)
        ensures
            final(self)@ == old(self)@.key_value_prop(*n),
            final(self)@ == old(self)@.node(*n.value),
            restores(old(self)@, final(self)@),
        decreases n,
    {
        proof {
            law_visit_restores(self@, *n.value);
        }
        self.visit_node(&n.value);
    }

    /// Visits the nodes of `nodes` in their order.
    pub fn visit_nodes(&mut self, nodes: &Vec<Node>)
        ensures
            final(self)@ == old(self)@.nodes(nodes@, 0),
            restores(old(self)@, final(self)@),
        decreases nodes,
    {
        proof {
            law_visits_restore(self@, nodes@, 0);
        }
        let mut i: usize = 0;
        while i < nodes.len()
            invariant
                i <= nodes.len(),
                self@.nodes(nodes@, i as nat) == old(self)@.nodes(nodes@, 0),
            decreases nodes.len() - i,
        {
            self.visit_node(&nodes[i]);
            i += 1;
        }
    }

    /// Visits a node of any kind. Syntax that is none of the kinds above
    /// has its children visited in their order.
    pub fn visit_node(&mut self, n: &Node)
        ensures
            final(self)@ == old(self)@.node(*n),
            restores(old(self)@, final(self)@),
        decreases n,
    {
        proof {
            law_visit_restores(self@, *n);
        }
        match n {
            Node::Ident(ident) => self.visit_ident(ident),
            Node::Member(member) => self.visit_member_expr(member),
            Node::Assign(assign) => self.visit_assign_expr(assign),
            Node::VarDeclarator(declarator) => self.visit_var_declarator(declarator),
            Node::FnDecl(decl) => self.visit_fn_decl(decl),
            Node::KeyValueProp(prop) => self.visit_key_value_prop(prop),
            Node::Other(children) => self.visit_nodes(children),
        }
    }
}

} // verus!
