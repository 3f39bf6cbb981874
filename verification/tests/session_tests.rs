use radicle::env::Env;
use radicle::eval::eval;
use radicle::expr::Expression;
use radicle::expr::Expression::{Atom, List, Nil};
use radicle::read::read;
use radicle::semantics::EvalError;
use radicle::session::read_eval;

fn sym(s: &str) -> Expression {
    Atom(s.to_string())
}

fn run_one(env: &mut Env, text: &str) -> Result<Expression, EvalError> {
    let mut parsed = read(text).unwrap();
    assert_eq!(parsed.len(), 1);
    eval(env, parsed.remove(0))
}

#[test]
fn cons_builds_a_list() {
    let mut env = Env::new();
    assert_eq!(
        run_one(&mut env, "(cons (quote 7) (quote (10 5 9)))"),
        Ok(List(vec![sym("7"), sym("10"), sym("5"), sym("9")]))
    );
    assert_eq!(run_one(&mut env, "(cons (quote 7) (quote 9))"), Err(EvalError::ConsArgument));
    assert_eq!(run_one(&mut env, "(cons 'a)"), Err(EvalError::ConsArity));
}

#[test]
fn first_and_rest_of_a_quoted_list() {
    let mut env = Env::new();
    assert_eq!(run_one(&mut env, "(first (quote (a b c)))"), Ok(sym("a")));
    assert_eq!(run_one(&mut env, "(car (quote (a b c)))"), Ok(sym("a")));
    assert_eq!(run_one(&mut env, "(rest (quote (a b c)))"), Ok(List(vec![sym("b"), sym("c")])));
    assert_eq!(run_one(&mut env, "(cdr (quote (a b c)))"), Ok(List(vec![sym("b"), sym("c")])));
    assert_eq!(run_one(&mut env, "(first (quote ()))"), Err(EvalError::FirstArgument));
    assert_eq!(run_one(&mut env, "(rest (quote ()))"), Err(EvalError::RestArgument));
    assert_eq!(run_one(&mut env, "(first 'a)"), Err(EvalError::FirstArgument));
    assert_eq!(run_one(&mut env, "(rest 'a)"), Err(EvalError::RestArgument));
    assert_eq!(run_one(&mut env, "(first)"), Err(EvalError::FirstArity));
    assert_eq!(run_one(&mut env, "(rest 'a 'b)"), Err(EvalError::RestArity));
    assert_eq!(run_one(&mut env, "(first (cond))"), Err(EvalError::FirstArgument));
    assert_eq!(run_one(&mut env, "(rest (cond))"), Err(EvalError::RestArgument));
}

#[test]
fn cond_without_a_true_test_is_nil() {
    let mut env = Env::new();
    assert_eq!(run_one(&mut env, "(cond ((quote f) 7))"), Ok(Nil));
    assert_eq!(run_one(&mut env, "(cond)"), Ok(Nil));
    assert_eq!(run_one(&mut env, "(cond ('() 'a) ('t 'b) (zzz 'c))"), Ok(sym("b")));
    assert_eq!(run_one(&mut env, "(cond ('t 'b) broken)"), Ok(sym("b")));
    assert_eq!(run_one(&mut env, "(cond ('f 'b) broken)"), Err(EvalError::CondClause));
    assert_eq!(run_one(&mut env, "(cond ('f 'b 'c))"), Err(EvalError::CondClause));
    assert_eq!(run_one(&mut env, "(cond (zzz 'b))"), Err(EvalError::SymbolNotFound));
}

#[test]
fn lambda_call() {
    let mut env = Env::new();
    assert_eq!(
        run_one(&mut env, "((lambda (x) (cons x (quote (a b)))) (quote Z))"),
        Ok(List(vec![sym("Z"), sym("a"), sym("b")]))
    );
    assert_eq!(
        run_one(
            &mut env,
            "((lambda (x y z) (cons y (cons z (cons x (quote (batman)))))) (quote CONSME) (quote santa) (car (quote (10 20 30))))"
        ),
        Ok(List(vec![sym("santa"), sym("10"), sym("CONSME"), sym("batman")]))
    );
    assert_eq!(run_one(&mut env, "((lambda () 'k))"), Ok(sym("k")));
    assert_eq!(run_one(&mut env, "((lambda (x x) x) 'a 'b)"), Ok(sym("b")));
}

#[test]
fn label_call_can_call_itself() {
    let mut env = Env::new();
    let last = "((label last (lambda (l) (cond ((eq (rest l) '()) (first l)) ('t (last (rest l)))))) '(a b c d))";
    assert_eq!(run_one(&mut env, last), Ok(sym("d")));
    let append = "((label app (lambda (a b) (cond ((eq a '()) b) ('t (cons (first a) (app (rest a) b)))))) '(1 2 3) '(4 5))";
    assert_eq!(
        run_one(&mut env, append),
        Ok(List(vec![sym("1"), sym("2"), sym("3"), sym("4"), sym("5")]))
    );
    assert_eq!(
        run_one(&mut env, "((label ZABBA (lambda (x) (cons x (quote (ab cd))))) (quote CONSME))"),
        Ok(List(vec![sym("CONSME"), sym("ab"), sym("cd")]))
    );
}

#[test]
fn label_binds_its_name_to_the_whole_form() {
    let mut env = Env::new();
    assert_eq!(
        run_one(&mut env, "((label me (lambda () me)))"),
        Ok(read("(label me (lambda () me))").unwrap().remove(0))
    );
    assert!(!env.contains(&"me".to_string()));
}

#[test]
fn arity_mismatch_is_an_error() {
    let mut env = Env::new();
    assert_eq!(run_one(&mut env, "((lambda (x) x) 'a 'b)"), Err(EvalError::ArgumentCount));
    assert_eq!(run_one(&mut env, "((lambda (x y) x) 'a)"), Err(EvalError::ArgumentCount));
    assert_eq!(
        run_one(&mut env, "((label f (lambda (x) x)) 'a 'b)"),
        Err(EvalError::ArgumentCount)
    );
    assert_eq!(run_one(&mut env, "((lambda (x) x) zzz yyy)"), Err(EvalError::ArgumentCount));
}

#[test]
fn operator_that_is_no_function() {
    let mut env = Env::new();
    assert_eq!(run_one(&mut env, "((quote a) 'b)"), Err(EvalError::Unrecognized));
    assert_eq!(run_one(&mut env, "(zzz 'b)"), Err(EvalError::SymbolNotFound));
    assert_eq!(run_one(&mut env, "((lambduh (x) x) 'b)"), Err(EvalError::SymbolNotFound));
    assert_eq!(run_one(&mut env, "((lambda (x (y)) x) 'b)"), Err(EvalError::SymbolNotFound));
    assert_eq!(run_one(&mut env, "((lambda x x) 'b)"), Err(EvalError::SymbolNotFound));
    env.insert("f".to_string(), read("(lambda (x) (cons x '()))").unwrap().remove(0));
    assert_eq!(run_one(&mut env, "(f 'b)"), Ok(List(vec![sym("b")])));
    assert_eq!(run_one(&mut env, "((first (cons f '())) 'b)"), Ok(List(vec![sym("b")])));
}

#[test]
fn arguments_see_the_callers_bindings() {
    let mut env = Env::new();
    env.insert("x".to_string(), sym("outer"));
    assert_eq!(run_one(&mut env, "((lambda (x y) y) 'inner x)"), Ok(sym("outer")));
    assert_eq!(run_one(&mut env, "((lambda (y) x) 'inner)"), Ok(sym("outer")));
    assert_eq!(run_one(&mut env, "((lambda (x) x) 'inner)"), Ok(sym("inner")));
    assert_eq!(run_one(&mut env, "x"), Ok(sym("outer")));
}

#[test]
fn defun_binds_a_label() {
    let mut env = Env::new();
    assert_eq!(run_one(&mut env, "(defun wrap (x) (cons x '()))"), Ok(Nil));
    assert_eq!(
        env.find_copy(&"wrap".to_string()),
        Some(read("(label wrap (lambda (x) (cons x '())))").unwrap().remove(0))
    );
    assert_eq!(run_one(&mut env, "(wrap 'a)"), Ok(List(vec![sym("a")])));
    assert_eq!(run_one(&mut env, "(defun wrap (x))"), Err(EvalError::DefunArity));
    assert_eq!(run_one(&mut env, "(defun (wrap) (x) x)"), Err(EvalError::DefunName));
    assert_eq!(run_one(&mut env, "(defun wrap x x)"), Err(EvalError::DefunParams));
    assert_eq!(run_one(&mut env, "(defun wrap (x (y)) x)"), Err(EvalError::DefunParams));
}

#[test]
fn defun_inside_a_call_body_is_lost() {
    let mut env = Env::new();
    assert_eq!(run_one(&mut env, "((lambda (x) (defun inner (y) y)) 'a)"), Ok(Nil));
    assert!(!env.contains(&"inner".to_string()));
    assert_eq!(run_one(&mut env, "((lambda (x) x) (defun outer (y) y))"), Ok(Nil));
    assert!(env.contains(&"outer".to_string()));
}

#[test]
fn primitive_arity_errors() {
    let mut env = Env::new();
    assert_eq!(run_one(&mut env, "(quote)"), Err(EvalError::QuoteArity));
    assert_eq!(run_one(&mut env, "(quote a b)"), Err(EvalError::QuoteArity));
    assert_eq!(run_one(&mut env, "(atom)"), Err(EvalError::AtomArity));
    assert_eq!(run_one(&mut env, "(eq 'a)"), Err(EvalError::EqArity));
    assert_eq!(run_one(&mut env, "()"), Err(EvalError::NoProcedure));
    assert_eq!(run_one(&mut env, "(atom zzz)"), Err(EvalError::SymbolNotFound));
}

#[test]
fn eq_and_atom_keep_nil_apart_from_the_empty_list() {
    let mut env = Env::new();
    assert_eq!(run_one(&mut env, "(atom (cond))"), Ok(List(vec![])));
    assert_eq!(run_one(&mut env, "(eq (cond) '())"), Ok(List(vec![])));
    assert_eq!(run_one(&mut env, "(eq (cond) (cond))"), Ok(List(vec![])));
    assert_eq!(run_one(&mut env, "(eq 'a 'b)"), Ok(List(vec![])));
    assert_eq!(run_one(&mut env, "(eq '(a) '(a))"), Ok(List(vec![])));
    assert_eq!(run_one(&mut env, "(eq 'a '())"), Ok(List(vec![])));
}

#[test]
fn read_eval_reports_each_result() {
    let mut env = Env::new();
    let lines = read_eval("(quote x) (quote (y z)) (cond) zzz 'w".to_string(), &mut env);
    assert_eq!(lines, vec!["x", "(y z)", "\nError: Symbol not found.", "w"]);
}

#[test]
fn read_eval_reports_a_parse_error() {
    let mut env = Env::new();
    let lines = read_eval("(defun f (x) x) (quote x".to_string(), &mut env);
    assert_eq!(lines, vec!["\nParse error: Unexpected end of token stream"]);
    assert!(!env.contains(&"f".to_string()));
    let lines = read_eval("'x )".to_string(), &mut env);
    assert_eq!(lines, vec!["\nParse error: Tokens left over, so parse was unsuccessful."]);
}

#[test]
fn read_eval_keeps_definitions() {
    let mut env = Env::new();
    let lines = read_eval("(defun pair (a b) (cons a (cons b '())))".to_string(), &mut env);
    assert!(lines.is_empty());
    let lines = read_eval("(pair 'x 'y)".to_string(), &mut env);
    assert_eq!(lines, vec!["(x y)"]);
}

#[test]
fn eval_error_messages() {
    assert_eq!(EvalError::SymbolNotFound.message(), "Symbol not found.");
    assert_eq!(EvalError::NoProcedure.message(), "No procedure to call.");
    assert_eq!(EvalError::QuoteArity.message(), "`quote` expects exactly one argument.");
    assert_eq!(EvalError::AtomArity.message(), "`atom` expects exactly one argument.");
    assert_eq!(EvalError::EqArity.message(), "`eq` expects exactly two arguments.");
    assert_eq!(EvalError::FirstArity.message(), "`first` expects exactly one argument.");
    assert_eq!(
        EvalError::FirstArgument.message(),
        "`first`'s argument must be a non-empty list"
    );
    assert_eq!(EvalError::RestArity.message(), "`rest` expects exactly one argument.");
    assert_eq!(EvalError::RestArgument.message(), "`rest`'s argument must be a non-empty list");
    assert_eq!(EvalError::ConsArity.message(), "`cons` expects exactly two arguments.");
    assert_eq!(EvalError::ConsArgument.message(), "`cons`'s second argument must be a list");
    assert_eq!(EvalError::CondClause.message(), "Invalid argument to `cond`");
    assert_eq!(EvalError::DefunArity.message(), "`defun` expects exactly three arguments.");
    assert_eq!(EvalError::DefunName.message(), "First argument to `defun` must be a symbol");
    assert_eq!(
        EvalError::DefunParams.message(),
        "Second argument to `defun` must be a list of params"
    );
    assert_eq!(EvalError::Unrecognized.message(), "Unrecognized expression.");
    assert_eq!(
        EvalError::ArgumentCount.message(),
        "mismatch between number of procedure args and number of args called with."
    );
    assert_eq!(EvalError::DepthExceeded.message(), "Evaluation nested too deeply.");
}
