use radicle::env::Env;
use radicle::expr::Expression;
use radicle::expr::Expression::{Atom, List};

fn sym(s: &str) -> Expression {
    Atom(s.to_string())
}

#[test]
fn new_environment_binds_nothing() {
    let env = Env::new();
    assert_eq!(env.find_copy(&"x".to_string()), None);
    assert!(!env.contains(&"x".to_string()));
}

#[test]
fn insert_binds_and_replaces() {
    let mut env = Env::new();
    env.insert("x".to_string(), sym("one"));
    env.insert("y".to_string(), List(vec![sym("two")]));
    assert_eq!(env.find_copy(&"x".to_string()), Some(sym("one")));
    assert_eq!(env.find_copy(&"y".to_string()), Some(List(vec![sym("two")])));
    assert_eq!(env.find_copy(&"z".to_string()), None);
    env.insert("x".to_string(), sym("three"));
    assert_eq!(env.find_copy(&"x".to_string()), Some(sym("three")));
    assert_eq!(env.find_copy(&"y".to_string()), Some(List(vec![sym("two")])));
    assert!(env.contains(&"x".to_string()));
    assert!(!env.contains(&"X".to_string()));
}

#[test]
fn clone_is_independent() {
    let mut env = Env::new();
    env.insert("x".to_string(), sym("one"));
    let mut copy = env.clone();
    copy.insert("x".to_string(), sym("two"));
    copy.insert("y".to_string(), sym("three"));
    assert_eq!(env.find_copy(&"x".to_string()), Some(sym("one")));
    assert_eq!(env.find_copy(&"y".to_string()), None);
    assert_eq!(copy.find_copy(&"x".to_string()), Some(sym("two")));
    assert_eq!(copy.find_copy(&"y".to_string()), Some(sym("three")));
}
