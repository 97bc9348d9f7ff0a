use worklets_visitor::ident_path::IdentPath;
use worklets_visitor::ident_ref::IdentRef;
use worklets_visitor::syntax::{Ident, Span};
use worklets_visitor::utils::closure;

fn named(name: &str) -> Ident {
    Ident::new(name.to_string(), Span::dummy())
}

fn names_of(path: &IdentPath) -> Vec<String> {
    path.path.iter().map(|r| r.name().clone()).collect()
}

fn names_of_prepended(path: &closure::IdentPath) -> Vec<String> {
    path.path.iter().map(|r| r.name().clone()).collect()
}

#[test]
fn ident_new_has_no_context_and_is_not_optional() {
    let ident = Ident::new("x".to_string(), Span { lo: 3, hi: 4 });
    assert_eq!(ident.sym, "x");
    assert_eq!(ident.span, Span { lo: 3, hi: 4 });
    assert_eq!(ident.ctxt, 0);
    assert!(!ident.optional);
}

#[test]
fn dummy_span_is_zero() {
    assert_eq!(Span::dummy(), Span { lo: 0, hi: 0 });
}

#[test]
fn ident_clone_keeps_every_field() {
    let ident = Ident { sym: "x".to_string(), span: Span { lo: 7, hi: 8 }, ctxt: 5, optional: true };
    assert_eq!(ident.clone(), ident);
}

#[test]
fn ident_ref_is_filed_under_the_symbol() {
    let ident = Ident { sym: "value".to_string(), span: Span { lo: 1, hi: 6 }, ctxt: 2, optional: false };
    let r = IdentRef::new(ident.clone());
    assert_eq!(r.name(), "value");
    assert_eq!(r.ident(), &ident);
}

#[test]
fn new_path_has_one_segment() {
    let path = IdentPath::new(named("a"));
    assert_eq!(path.depth(), 1);
    assert!(!path.is_empty());
    assert_eq!(names_of(&path), vec!["a"]);
}

#[test]
fn push_appends_at_the_inner_end() {
    let mut path = IdentPath::new(named("a"));
    path.push(named("b"));
    path.push(named("c"));
    assert_eq!(path.depth(), 3);
    assert_eq!(names_of(&path), vec!["a", "b", "c"]);
}

#[test]
fn pop_latest_removes_the_innermost_segment() {
    let mut path = IdentPath::new(named("a"));
    path.push(named("b"));
    let latest = path.pop_latest();
    assert_eq!(latest, Some(IdentRef::new(named("b"))));
    assert_eq!(names_of(&path), vec!["a"]);
}

#[test]
fn pop_first_removes_the_outermost_segment() {
    let mut path = IdentPath::new(named("a"));
    path.push(named("b"));
    let first = path.pop_first();
    assert_eq!(first, Some(IdentRef::new(named("a"))));
    assert_eq!(names_of(&path), vec!["b"]);
}

#[test]
fn popping_an_empty_path_gives_nothing() {
    let mut path = IdentPath::new(named("a"));
    assert!(path.pop_latest().is_some());
    assert!(path.is_empty());
    assert_eq!(path.depth(), 0);
    assert_eq!(path.pop_latest(), None);
    assert_eq!(path.pop_first(), None);
    assert!(path.is_empty());
}

#[test]
fn prepended_path_begins_with_its_base() {
    let path = closure::IdentPath::new(named("c"));
    assert_eq!(names_of_prepended(&path), vec!["c"]);
}

#[test]
fn add_puts_the_segment_in_front() {
    let mut path = closure::IdentPath::new(named("c"));
    path.add(named("b"));
    path.add(named("a"));
    assert_eq!(names_of_prepended(&path), vec!["a", "b", "c"]);
}

#[test]
fn prepended_pop_latest_removes_the_front() {
    let mut path = closure::IdentPath::new(named("c"));
    path.add(named("b"));
    path.add(named("a"));
    assert_eq!(path.pop_latest(), Some(closure::IdentRef::new(named("a"))));
    assert_eq!(names_of_prepended(&path), vec!["b", "c"]);
}

#[test]
fn prepended_pop_first_removes_the_back() {
    let mut path = closure::IdentPath::new(named("c"));
    path.add(named("b"));
    path.add(named("a"));
    assert_eq!(path.pop_first(), Some(closure::IdentRef::new(named("c"))));
    assert_eq!(names_of_prepended(&path), vec!["a", "b"]);
}

#[test]
fn prepended_pops_on_an_empty_path_give_nothing() {
    let mut path = closure::IdentPath::new(named("a"));
    assert!(path.pop_first().is_some());
    assert_eq!(path.pop_first(), None);
    assert_eq!(path.pop_latest(), None);
    assert!(path.path.is_empty());
}
