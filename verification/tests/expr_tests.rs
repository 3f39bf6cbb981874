use radicle::expr::Expression;
use radicle::expr::Expression::{Atom, List, Nil};
use radicle::read::read;

fn sym(s: &str) -> Expression {
    Atom(s.to_string())
}

#[test]
fn predicates() {
    assert!(Nil.is_nil());
    assert!(!sym("a").is_nil());
    assert!(sym("a").is_atom());
    assert!(!List(vec![]).is_atom());
    assert!(List(vec![]).is_list());
    assert!(List(vec![sym("a")]).is_list());
    assert!(!sym("a").is_list());
    assert!(!Nil.is_list());
    assert!(Expression::empty_list().is_empty_list());
    assert!(List(vec![]).is_empty_list());
    assert!(!List(vec![sym("a")]).is_empty_list());
    assert!(!Nil.is_empty_list());
    assert!(!sym("a").is_empty_list());
}

#[test]
fn accessors() {
    let a = sym("abc");
    assert_eq!(a.get_ref_atom(), "abc");
    assert_eq!(a.unwrap_atom(), "abc".to_string());
    let l = List(vec![sym("x"), Nil]);
    assert_eq!(l.get_ref_list(), &vec![sym("x"), Nil]);
    assert_eq!(l.unwrap_list(), vec![sym("x"), Nil]);
    assert_eq!(Expression::symbol("q"), sym("q"));
}

#[test]
fn equality_is_structural() {
    assert_eq!(Nil, Nil);
    assert_eq!(sym("a"), sym("a"));
    assert_ne!(sym("a"), sym("b"));
    assert_ne!(sym("a"), Nil);
    assert_ne!(List(vec![]), Nil);
    assert_ne!(List(vec![sym("a")]), sym("a"));
    assert_eq!(List(vec![sym("a"), List(vec![sym("b")])]), List(vec![sym("a"), List(vec![sym("b")])]));
    assert_ne!(List(vec![sym("a"), List(vec![sym("b")])]), List(vec![sym("a"), List(vec![sym("c")])]));
    assert_ne!(List(vec![sym("a")]), List(vec![sym("a"), sym("a")]));
    assert_ne!(List(vec![sym("a"), sym("b")]), List(vec![sym("b"), sym("a")]));
}

#[test]
fn clone_is_deep_and_equal() {
    let e = List(vec![sym("a"), List(vec![sym("b"), Nil]), List(vec![])]);
    let c = e.clone();
    assert_eq!(c, e);
}

#[test]
fn render_forms() {
    assert_eq!(Nil.render(), "");
    assert_eq!(sym("foo").render(), "foo");
    assert_eq!(List(vec![]).render(), "()");
    assert_eq!(List(vec![sym("a")]).render(), "(a)");
    assert_eq!(List(vec![sym("a"), sym("b"), sym("c")]).render(), "(a b c)");
    assert_eq!(
        List(vec![sym("a"), List(vec![sym("b"), List(vec![])]), sym("c")]).render(),
        "(a (b ()) c)"
    );
    assert_eq!(List(vec![sym("a"), Nil, sym("b")]).render(), "(a  b)");
}

#[test]
fn render_then_read_gives_the_expression_back() {
    let e = List(vec![
        sym("lambda"),
        List(vec![sym("x"), sym("y")]),
        List(vec![sym("cons"), sym("x"), List(vec![sym("quote"), List(vec![])])]),
    ]);
    assert_eq!(read(&e.render()), Ok(vec![e.clone()]));
    assert_eq!(read(&sym("zzz").render()), Ok(vec![sym("zzz")]));
    assert_eq!(read(&List(vec![]).render()), Ok(vec![List(vec![])]));
}

#[test]
fn atoms_that_are_not_symbols_do_not_read_back() {
    let spaced = sym("a b");
    assert_eq!(read(&spaced.render()), Ok(vec![sym("a"), sym("b")]));
    let empty = sym("");
    assert_eq!(read(&empty.render()), Ok(vec![]));
    let bracket = List(vec![sym("(")]);
    assert!(read(&bracket.render()).is_err());
    assert_eq!(read(&Nil.render()), Ok(vec![]));
}
