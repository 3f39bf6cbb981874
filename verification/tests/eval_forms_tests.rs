use radicle::env::Env;
use radicle::eval::eval;
use radicle::expr::Expression;
use radicle::expr::Expression::{Atom, List};

fn atom(s: &str) -> Expression {
    Atom(s.to_string())
}

fn child_of(env: &Env) -> Env {
    env.clone()
}

#[test]
fn test_test_eval_symbol() {
    let mut env = Env::new();

    // symbol not found in env should be eval err
    let foo = atom("foo");
    let bar = atom("bar");

    assert!(eval(&mut env, foo.clone()).is_err());

    env.insert("foo".to_string(), bar.clone());
    let foo_eval = eval(&mut env, foo.clone());
    assert!(foo_eval.is_ok() && foo_eval.unwrap().eq(&bar));

    let mut env2 = child_of(&env);
    let foo2_eval = eval(&mut env2, foo.clone());
    assert!(foo2_eval.is_ok() && foo2_eval.unwrap().eq(&bar));
}

#[test]
fn test_test_eval_empty_list() {
    let mut env = Env::new();
    assert!(eval(&mut env, List(vec![])).is_err());
}

#[test]
fn test_test_eval_quote() {
    let mut env = Env::new();

    let nil = List(vec![]);
    let foo = atom("foo");
    let bar = atom("bar");
    let quote = atom("quote");

    let qnil = List(vec![quote.clone(), nil.clone()]);
    let qnil_eval = eval(&mut env, qnil);
    assert!(qnil_eval.is_ok() && qnil_eval.unwrap().eq(&nil));

    let qfoo = List(vec![quote.clone(), foo.clone()]);
    let qfoo2 = qfoo.clone();
    let qfoo_eval = eval(&mut env, qfoo);
    assert!(qfoo_eval.is_ok() && qfoo_eval.unwrap().eq(&foo));

    // "(quote foo)" should evaluate to "foo" regardless of what the symbol foo is
    // bound to in the environment
    env.insert("foo".to_string(), bar.clone());
    let qfoo2_eval = eval(&mut env, qfoo2);
    assert!(qfoo2_eval.is_ok() && qfoo2_eval.unwrap().eq(&foo));

    let list = List(vec![foo.clone(), bar.clone(), atom("baz")]);
    let qlist = List(vec![quote.clone(), list.clone()]);
    let qlist_eval = eval(&mut env, qlist);
    assert!(qlist_eval.is_ok() && qlist_eval.unwrap().eq(&list));
}

#[test]
fn test_test_eval_atom() {
    let mut env = Env::new();

    let foo = atom("foo");
    let bar = atom("bar");
    let nil = List(vec![]);
    let quote = atom("quote");
    let atom_op = atom("atom");
    let t = atom("t");

    let qfoo = List(vec![quote.clone(), foo.clone()]);
    let qnil = List(vec![quote.clone(), nil.clone()]);

    let qfoo_eval = eval(&mut env, List(vec![atom_op.clone(), qfoo]));
    assert!(qfoo_eval.is_ok() && qfoo_eval.unwrap().eq(&t));

    let qnil_eval = eval(&mut env, List(vec![atom_op.clone(), qnil]));
    assert!(qnil_eval.is_ok() && qnil_eval.unwrap().eq(&t));

    let list = List(vec![foo.clone(), bar.clone()]);
    let qlist = List(vec![quote.clone(), list.clone()]);
    let qlist_eval = eval(&mut env, List(vec![atom_op.clone(), qlist]));
    assert!(qlist_eval.is_ok() && qlist_eval.unwrap().eq(&nil));
}

#[test]
fn test_test_eval_eq() {
    let mut env = Env::new();
    let foo = atom("foo");
    let bar = atom("bar");
    let nil = List(vec![]);
    let quote = atom("quote");
    let t = atom("t");
    let eq = atom("eq");

    let qnil = List(vec![quote.clone(), nil.clone()]);
    let qfoo = List(vec![quote.clone(), foo.clone()]);

    let eq_raw_sym_eval = eval(&mut env, List(vec![eq.clone(), foo.clone(), foo.clone()]));
    assert!(eq_raw_sym_eval.is_err());

    let _eq_diff_eval = eval(&mut env, List(vec![eq.clone(), foo.clone(), bar.clone()]));
    assert!(eq_raw_sym_eval.is_err());

    let eq_qnil_eval = eval(&mut env, List(vec![eq.clone(), qnil.clone(), qnil.clone()]));
    assert!(eq_qnil_eval.is_ok() && eq_qnil_eval.unwrap().eq(&t));

    let eq_qfoo_eval = eval(&mut env, List(vec![eq.clone(), qfoo.clone(), qfoo.clone()]));
    assert!(eq_qfoo_eval.is_ok() && eq_qfoo_eval.unwrap().eq(&t));
}

#[test]
fn test_eval_car() {
    let mut env = Env::new();

    let foo = atom("foo");
    let bar = atom("bar");
    let nil = List(vec![]);
    let quote = atom("quote");
    let car = atom("car");

    let qfoo = List(vec![quote.clone(), foo.clone()]);
    let qnil = List(vec![quote.clone(), nil.clone()]);

    let qfoo_eval = eval(&mut env, List(vec![car.clone(), qfoo]));
    assert!(qfoo_eval.is_err());

    let qnil_eval = eval(&mut env, List(vec![car.clone(), qnil]));
    assert!(qnil_eval.is_err());

    let list = List(vec![foo.clone(), bar.clone()]);
    let qlist = List(vec![quote.clone(), list.clone()]);
    let qlist_eval = eval(&mut env, List(vec![car.clone(), qlist]));
    assert!(qlist_eval.is_ok() && qlist_eval.unwrap().eq(&foo));
}

#[test]
fn test_eval_cdr() {
    let mut env = Env::new();

    let foo = atom("foo");
    let bar = atom("bar");
    let nil = List(vec![]);
    let quote = atom("quote");
    let cdr = atom("cdr");

    let qfoo = List(vec![quote.clone(), foo.clone()]);
    let qnil = List(vec![quote.clone(), nil.clone()]);

    let qfoo_eval = eval(&mut env, List(vec![cdr.clone(), qfoo]));
    assert!(qfoo_eval.is_err());

    let qnil_eval = eval(&mut env, List(vec![cdr.clone(), qnil]));
    assert!(qnil_eval.is_err());

    let list = List(vec![foo.clone(), bar.clone()]);
    let qlist = List(vec![quote.clone(), list.clone()]);
    let qlist_eval = eval(&mut env, List(vec![cdr.clone(), qlist]));

    let list_foo = List(vec![bar.clone()]);
    assert!(qlist_eval.is_ok() && qlist_eval.unwrap().eq(&list_foo));
}

#[test]
fn test_test_eval_cons() {
    let mut env = Env::new();

    let foo = atom("foo");
    let bar = atom("bar");
    let quote = atom("quote");
    let cons = atom("cons");

    let bar_list = List(vec![bar.clone()]);
    let qbar_list = List(vec![quote.clone(), bar_list.clone()]);

    let bar_eval = eval(&mut env, List(vec![cons.clone(), foo.clone(), bar.clone()]));
    assert!(bar_eval.is_err());

    let qfoo = List(vec![quote.clone(), foo.clone()]);
    let barlist_eval = eval(&mut env, List(vec![cons.clone(), qfoo.clone(), qbar_list.clone()]));
    let foobar_list = List(vec![foo.clone(), bar.clone()]);
    assert!(barlist_eval.is_ok() && barlist_eval.unwrap().eq(&foobar_list));
}

#[test]
fn test_test_eval_cond() {
    let mut env = Env::new();

    let foo = atom("foo");
    let bar = atom("bar");
    let baz = atom("baz");
    let quote = atom("quote");
    let cond = atom("cond");
    let qfoo = List(vec![quote.clone(), foo.clone()]);
    let qbar = List(vec![quote.clone(), bar.clone()]);
    let qbaz = List(vec![quote.clone(), baz.clone()]);
    let qt = List(vec![quote.clone(), atom("t")]);

    let list = List(vec![
        cond.clone(),
        List(vec![qfoo.clone(), qbar.clone()]),
        List(vec![qt.clone(), qbaz.clone()]),
    ]);

    let eval_list = eval(&mut env, list);

    assert!(eval_list.is_ok() && eval_list.unwrap().eq(&baz));
}
