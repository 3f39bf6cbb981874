use radicle::env::Env;
use radicle::eval::{eval, eval_bounded, MAX_DEPTH};
use radicle::expr::Expression;
use radicle::expr::Expression::{Atom, List};
use radicle::read::read;
use radicle::semantics::EvalError;
use radicle::session::read_eval;

fn sym(s: &str) -> Expression {
    Atom(s.to_string())
}

fn quoted(e: Expression) -> Expression {
    List(vec![sym("quote"), e])
}

fn parse(text: &str) -> Expression {
    read(text).unwrap().remove(0)
}

/// `(atom (atom ... (atom 'a)))` with `n` applications of `atom`.
fn nested_atoms(n: usize) -> Expression {
    let mut e = quoted(sym("a"));
    let mut i = 0;
    while i < n {
        e = List(vec![sym("atom"), e]);
        i += 1;
    }
    e
}

#[test]
fn endless_recursion_is_an_error() {
    let mut env = Env::new();
    let call = parse("((label f (lambda (x) (f x))) (quote a))");
    assert_eq!(eval(&mut env, call), Err(EvalError::DepthExceeded));
}

#[test]
fn endless_recursion_through_cond_is_an_error() {
    let mut env = Env::new();
    let call = parse("((label f (lambda (x) (cond ('t (f (cons x '())))))) 'a)");
    assert_eq!(eval(&mut env, call), Err(EvalError::DepthExceeded));
}

#[test]
fn endless_recursion_through_arguments_is_an_error() {
    let mut env = Env::new();
    let call = parse("((label f (lambda (x) (cons 'a (f x)))) 'a)");
    assert_eq!(eval(&mut env, call), Err(EvalError::DepthExceeded));
}

#[test]
fn endless_recursion_of_a_defined_function_is_reported() {
    let mut env = Env::new();
    let lines = read_eval("(defun loop (x) (loop x)) (loop 'a) 'after".to_string(), &mut env);
    assert_eq!(lines, vec!["\nError: Evaluation nested too deeply.", "after"]);
}

#[test]
fn depth_zero_allows_no_nested_evaluation() {
    let mut env = Env::new();
    let e = List(vec![sym("atom"), quoted(sym("a"))]);
    assert_eq!(eval_bounded(&mut env, &e, 0), Err(EvalError::DepthExceeded));
    assert_eq!(eval_bounded(&mut env, &e, 1), Ok(sym("t")));
    assert_eq!(eval_bounded(&mut env, &quoted(sym("a")), 0), Ok(sym("a")));
    assert_eq!(eval_bounded(&mut env, &sym("zzz"), 0), Err(EvalError::SymbolNotFound));
}

#[test]
fn nesting_up_to_the_limit_is_evaluated() {
    let mut env = Env::new();
    assert_eq!(MAX_DEPTH, 1000);
    assert_eq!(eval(&mut env, nested_atoms(MAX_DEPTH)), Ok(sym("t")));
    assert_eq!(eval(&mut env, nested_atoms(MAX_DEPTH + 1)), Err(EvalError::DepthExceeded));
    assert_eq!(eval_bounded(&mut env, &nested_atoms(5), 5), Ok(sym("t")));
    assert_eq!(eval_bounded(&mut env, &nested_atoms(5), 4), Err(EvalError::DepthExceeded));
}

#[test]
fn a_larger_limit_gives_the_same_result() {
    let text = "((label app (lambda (a b) (cond ((eq a '()) b) ('t (cons (first a) (app (rest a) b)))))) '(1 2 3) '(4 5))";
    let mut env = Env::new();
    let small = eval_bounded(&mut env, &parse(text), 20);
    assert!(small.is_ok());
    assert_eq!(eval_bounded(&mut env, &parse(text), 21), small);
    assert_eq!(eval_bounded(&mut env, &parse(text), 500), small);
    assert_eq!(eval_bounded(&mut env, &parse(text), 3), Err(EvalError::DepthExceeded));
}
