//! Laws of evaluation: what holds of the primitives in every environment.

use crate::expr::Sexp;
use crate::grammar::quote_form;
use crate::semantics::{
    bind_params, eq_value, eval_args, eval_call_spec, eval_clauses, eval_spec, func_literal,
    is_nonempty_list, label_form, lambda_literal, resolve_operator, EvalError, Outcome,
};
use vstd::prelude::*;

verus! {

/// The form `(name a1 ... an)`.
pub open spec fn apply_form(name: Seq<char>, args: Seq<Sexp>) -> Sexp {
    Sexp::List(seq![Sexp::Atom(name)] + args)
}

/// The names of the primitives differ from one another.
proof fn lemma_primitive_names()
    ensures
        "quote"@.len() == 5 && "quote"@[0] == 'q',
        "first"@.len() == 5 && "first"@[0] == 'f',
        "defun"@.len() == 5 && "defun"@[0] == 'd',
        "atom"@.len() == 4 && "atom"@[0] == 'a',
        "rest"@.len() == 4 && "rest"@[0] == 'r',
        "cons"@.len() == 4 && "cons"@[0] == 'c' && "cons"@[3] == 's',
        "cond"@.len() == 4 && "cond"@[0] == 'c' && "cond"@[3] == 'd',
        "car"@.len() == 3 && "car"@[1] == 'a',
        "cdr"@.len() == 3 && "cdr"@[1] == 'd',
        "eq"@.len() == 2,
{
    reveal_strlit("quote");
    reveal_strlit("first");
    reveal_strlit("defun");
    reveal_strlit("atom");
    reveal_strlit("rest");
    reveal_strlit("cons");
    reveal_strlit("cond");
    reveal_strlit("car");
    reveal_strlit("cdr");
    reveal_strlit("eq");
}

/// Quoting: `(quote e)` evaluates to `e` itself, whatever `e` is, whatever
/// the environment binds, and without any nested evaluation. The
/// environment stays as it is.
pub proof fn lemma_quote_identity(env: Map<Seq<char>, Sexp>, e: Sexp, depth: nat)
    ensures
        eval_spec(env, quote_form(e), depth) == Outcome::value(e, env),
{
}

/// An atom that the environment does not bind cannot be evaluated.
pub proof fn lemma_unbound_symbol(env: Map<Seq<char>, Sexp>, name: Seq<char>, depth: nat)
    requires
        !env.contains_key(name),
    ensures
        eval_spec(env, Sexp::Atom(name), depth) == Outcome::error(EvalError::SymbolNotFound, env),
{
}

/// An atom that the environment binds evaluates to what it is bound to.
pub proof fn lemma_bound_symbol(env: Map<Seq<char>, Sexp>, name: Seq<char>, depth: nat)
    requires
        env.contains_key(name),
    ensures
        eval_spec(env, Sexp::Atom(name), depth) == Outcome::value(env[name], env),
{
}

/// `eq` is reflexive on atoms and on the empty list: for such an `x`,
/// `(eq (quote x) (quote x))` is the truth symbol.
pub proof fn lemma_eq_reflexive(env: Map<Seq<char>, Sexp>, x: Sexp, depth: nat)
    requires
        x is Atom || x == Sexp::empty_list(),
        depth >= 1,
    ensures
        eval_spec(env, apply_form("eq"@, seq![quote_form(x), quote_form(x)]), depth)
            == Outcome::value(Sexp::truth(), env),
{
    lemma_primitive_names();
    lemma_quote_identity(env, x, (depth - 1) as nat);
    let items = seq![Sexp::Atom("eq"@)] + seq![quote_form(x), quote_form(x)];
    assert(items.len() == 3);
    assert(items[0] == Sexp::Atom("eq"@));
    assert(items[1] == quote_form(x));
    assert(items[2] == quote_form(x));
}

/// `eq` tells atoms with different texts apart, and is false of anything
/// that is neither an atom nor the empty list.
pub proof fn lemma_eq_quoted(env: Map<Seq<char>, Sexp>, a: Sexp, b: Sexp, depth: nat)
    requires
        depth >= 1,
    ensures
        eval_spec(env, apply_form("eq"@, seq![quote_form(a), quote_form(b)]), depth)
            == Outcome::value(eq_value(a, b), env),
{
    lemma_primitive_names();
    lemma_quote_identity(env, a, (depth - 1) as nat);
    lemma_quote_identity(env, b, (depth - 1) as nat);
    let items = seq![Sexp::Atom("eq"@)] + seq![quote_form(a), quote_form(b)];
    assert(items.len() == 3);
    assert(items[0] == Sexp::Atom("eq"@));
    assert(items[1] == quote_form(a));
    assert(items[2] == quote_form(b));
}

/// `first` of a quoted list that has elements is its first element, under
/// either of the primitive's names.
pub proof fn lemma_first_of_quoted(env: Map<Seq<char>, Sexp>, items: Seq<Sexp>, depth: nat)
    requires
        items.len() > 0,
        depth >= 1,
    ensures
        eval_spec(env, apply_form("first"@, seq![quote_form(Sexp::List(items))]), depth)
            == Outcome::value(items[0], env),
        eval_spec(env, apply_form("car"@, seq![quote_form(Sexp::List(items))]), depth)
            == Outcome::value(items[0], env),
{
    lemma_primitive_names();
    let arg = quote_form(Sexp::List(items));
    lemma_quote_identity(env, Sexp::List(items), (depth - 1) as nat);
    let form = seq![Sexp::Atom("first"@)] + seq![arg];
    assert(form.len() == 2 && form[0] == Sexp::Atom("first"@) && form[1] == arg);
    let form2 = seq![Sexp::Atom("car"@)] + seq![arg];
    assert(form2.len() == 2 && form2[0] == Sexp::Atom("car"@) && form2[1] == arg);
}

/// `rest` of a quoted list that has elements is the list without its first
/// element, under either of the primitive's names.
pub proof fn lemma_rest_of_quoted(env: Map<Seq<char>, Sexp>, items: Seq<Sexp>, depth: nat)
    requires
        items.len() > 0,
        depth >= 1,
    ensures
        eval_spec(env, apply_form("rest"@, seq![quote_form(Sexp::List(items))]), depth)
            == Outcome::value(Sexp::List(items.drop_first()), env),
        eval_spec(env, apply_form("cdr"@, seq![quote_form(Sexp::List(items))]), depth)
            == Outcome::value(Sexp::List(items.drop_first()), env),
{
    lemma_primitive_names();
    let arg = quote_form(Sexp::List(items));
    lemma_quote_identity(env, Sexp::List(items), (depth - 1) as nat);
    let form = seq![Sexp::Atom("rest"@)] + seq![arg];
    assert(form.len() == 2 && form[0] == Sexp::Atom("rest"@) && form[1] == arg);
    let form2 = seq![Sexp::Atom("cdr"@)] + seq![arg];
    assert(form2.len() == 2 && form2[0] == Sexp::Atom("cdr"@) && form2[1] == arg);
}

/// `first` and `rest` fail on the quoted empty list, and on anything quoted
/// that is no list.
pub proof fn lemma_first_rest_need_elements(env: Map<Seq<char>, Sexp>, v: Sexp, depth: nat)
    requires
        !is_nonempty_list(v),
        depth >= 1,
    ensures
        eval_spec(env, apply_form("first"@, seq![quote_form(v)]), depth) == Outcome::error(
            EvalError::FirstArgument,
            env,
        ),
        eval_spec(env, apply_form("car"@, seq![quote_form(v)]), depth) == Outcome::error(
            EvalError::FirstArgument,
            env,
        ),
        eval_spec(env, apply_form("rest"@, seq![quote_form(v)]), depth) == Outcome::error(
            EvalError::RestArgument,
            env,
        ),
        eval_spec(env, apply_form("cdr"@, seq![quote_form(v)]), depth) == Outcome::error(
            EvalError::RestArgument,
            env,
        ),
{
    lemma_primitive_names();
    let arg = quote_form(v);
    lemma_quote_identity(env, v, (depth - 1) as nat);
    let form1 = seq![Sexp::Atom("first"@)] + seq![arg];
    assert(form1.len() == 2 && form1[0] == Sexp::Atom("first"@) && form1[1] == arg);
    let form2 = seq![Sexp::Atom("car"@)] + seq![arg];
    assert(form2.len() == 2 && form2[0] == Sexp::Atom("car"@) && form2[1] == arg);
    let form3 = seq![Sexp::Atom("rest"@)] + seq![arg];
    assert(form3.len() == 2 && form3[0] == Sexp::Atom("rest"@) && form3[1] == arg);
    let form4 = seq![Sexp::Atom("cdr"@)] + seq![arg];
    assert(form4.len() == 2 && form4[0] == Sexp::Atom("cdr"@) && form4[1] == arg);
}

/// `cons` of a quoted value and a quoted list is the list with the value in
/// front; where the second argument is no list, `cons` fails.
pub proof fn lemma_cons_of_quoted(env: Map<Seq<char>, Sexp>, head: Sexp, tail: Sexp, depth: nat)
    requires
        depth >= 1,
    ensures
        eval_spec(env, apply_form("cons"@, seq![quote_form(head), quote_form(tail)]), depth).env
            == env,
        tail is List ==> eval_spec(
            env,
            apply_form("cons"@, seq![quote_form(head), quote_form(tail)]),
            depth,
        ).result == Ok::<Sexp, EvalError>(Sexp::List(seq![head] + tail->List_0)),
        !(tail is List) ==> eval_spec(
            env,
            apply_form("cons"@, seq![quote_form(head), quote_form(tail)]),
            depth,
        ).result == Err::<Sexp, EvalError>(EvalError::ConsArgument),
{
    lemma_primitive_names();
    lemma_quote_identity(env, head, (depth - 1) as nat);
    lemma_quote_identity(env, tail, (depth - 1) as nat);
    let items = seq![Sexp::Atom("cons"@)] + seq![quote_form(head), quote_form(tail)];
    assert(items.len() == 3);
    assert(items[0] == Sexp::Atom("cons"@));
    assert(items[1] == quote_form(head));
    assert(items[2] == quote_form(tail));
}

/// A `cond` whose only test is a quoted value other than the truth symbol
/// has no value: no such value counts as false in any other way, and that no
/// clause matches is no error. The result of the clause is not evaluated.
pub proof fn lemma_cond_falls_through(
    env: Map<Seq<char>, Sexp>,
    x: Sexp,
    result: Sexp,
    depth: nat,
)
    requires
        x != Sexp::truth(),
        depth >= 1,
    ensures
        eval_spec(
            env,
            apply_form("cond"@, seq![Sexp::List(seq![quote_form(x), result])]),
            depth,
        ) == Outcome::value(Sexp::Nil, env),
{
    lemma_primitive_names();
    lemma_quote_identity(env, x, (depth - 1) as nat);
    let clause = Sexp::List(seq![quote_form(x), result]);
    let items = seq![Sexp::Atom("cond"@)] + seq![clause];
    assert(items.len() == 2 && items[0] == Sexp::Atom("cond"@) && items[1] == clause);
    let clauses = items.drop_first();
    assert(clauses.len() == 1 && clauses[0] == clause);
    assert(clauses.drop_first().len() == 0);
    assert(eval_clauses(env, clauses.drop_first(), depth) == Outcome::value(Sexp::Nil, env));
}

/// A `cond` takes the result of the first clause whose test is the truth
/// symbol.
pub proof fn lemma_cond_takes_true_clause(
    env: Map<Seq<char>, Sexp>,
    result: Sexp,
    others: Seq<Sexp>,
    depth: nat,
)
    requires
        depth >= 1,
    ensures
        eval_spec(
            env,
            apply_form(
                "cond"@,
                seq![Sexp::List(seq![quote_form(Sexp::truth()), result])] + others,
            ),
            depth,
        ) == eval_spec(env, result, (depth - 1) as nat),
{
    lemma_primitive_names();
    lemma_quote_identity(env, Sexp::truth(), (depth - 1) as nat);
    let clause = Sexp::List(seq![quote_form(Sexp::truth()), result]);
    let items = seq![Sexp::Atom("cond"@)] + (seq![clause] + others);
    assert(items[0] == Sexp::Atom("cond"@) && items[1] == clause);
    let clauses = items.drop_first();
    assert(clauses[0] == clause);
}

/// The form `(lambda (p) body)`.
pub open spec fn lambda_form(param: Seq<char>, body: Sexp) -> Sexp {
    Sexp::List(seq![Sexp::Atom("lambda"@), Sexp::List(seq![Sexp::Atom(param)]), body])
}

/// A call binds the parameter to the value of the argument: the function
/// `(lambda (p) p)`, applied to a quoted value, gives that value, whatever
/// the caller's environment binds `p` to. The caller's environment stays as
/// it is.
pub proof fn lemma_lambda_binds_parameter(
    env: Map<Seq<char>, Sexp>,
    param: Seq<char>,
    v: Sexp,
    depth: nat,
)
    requires
        depth >= 1,
    ensures
        eval_spec(
            env,
            Sexp::List(seq![lambda_form(param, Sexp::Atom(param)), quote_form(v)]),
            depth,
        ) == Outcome::value(v, env),
{
    let f = lambda_form(param, Sexp::Atom(param));
    let items = seq![f, quote_form(v)];
    let params = seq![Sexp::Atom(param)];
    assert(f->List_0[1] == Sexp::List(params));
    assert(lambda_literal(f) is Some);
    let callee = func_literal(f)->Some_0;
    assert(callee.params =~= seq![param]);
    assert(callee.body == Sexp::Atom(param));
    let args = items.drop_first();
    assert(args.len() == 1 && args[0] == quote_form(v));
    assert(args.drop_last().len() == 0);
    lemma_quote_identity(env, v, (depth - 1) as nat);
    assert(eval_args(env, args.drop_last(), depth).result == Ok::<Seq<Sexp>, EvalError>(
        Seq::empty(),
    ));
    assert(eval_args(env, args, depth).result->Ok_0 =~= seq![v]);
    let values = seq![v];
    assert(callee.params.drop_last().len() == 0);
    let frame = bind_params(env, callee.params, values);
    assert(bind_params(env, callee.params.drop_last(), values.drop_last()) == env);
    assert(frame == env.insert(param, v));
    lemma_bound_symbol(frame, param, (depth - 1) as nat);
    assert(resolve_operator(env, items[0], depth) == Outcome::value(f, env));
    assert(eval_call_spec(env, items, depth) == Outcome::value(v, env));
}

/// A `label` form binds its name to the whole form while its body is
/// evaluated, so that the body can call the function by that name: the
/// function `(label name (lambda () name))`, called, gives the form itself.
pub proof fn lemma_label_binds_itself(env: Map<Seq<char>, Sexp>, name: Seq<char>, depth: nat)
    requires
        depth >= 1,
    ensures
        eval_spec(
            env,
            Sexp::List(
                seq![label_form(Sexp::Atom(name), Sexp::List(Seq::empty()), Sexp::Atom(name))],
            ),
            depth,
        ) == Outcome::value(
            label_form(Sexp::Atom(name), Sexp::List(Seq::empty()), Sexp::Atom(name)),
            env,
        ),
{
    reveal_strlit("label");
    reveal_strlit("lambda");
    let no_params = Sexp::List(Seq::empty());
    let f = label_form(Sexp::Atom(name), no_params, Sexp::Atom(name));
    let inner = f->List_0[2];
    assert(inner->List_0[1] == no_params);
    assert(lambda_literal(inner) is Some);
    assert(lambda_literal(f) is None);
    let callee = func_literal(f)->Some_0;
    assert(callee.params =~= Seq::<Seq<char>>::empty());
    assert(callee.name == Some(name));
    let items = seq![f];
    assert(items.drop_first().len() == 0);
    let frame = env.insert(name, f);
    assert(bind_params(frame, callee.params, Seq::<Sexp>::empty()) == frame);
    lemma_bound_symbol(frame, name, (depth - 1) as nat);
    assert(resolve_operator(env, items[0], depth) == Outcome::value(f, env));
    assert(eval_call_spec(env, items, depth) == Outcome::value(f, env));
}

/// A function that is called with more or fewer arguments than it has
/// parameters fails before any argument is evaluated: arguments are neither
/// dropped nor made up.
pub proof fn lemma_arity_mismatch(
    env: Map<Seq<char>, Sexp>,
    f: Sexp,
    args: Seq<Sexp>,
    depth: nat,
)
    requires
        func_literal(f) is Some,
        func_literal(f)->Some_0.params.len() != args.len(),
    ensures
        eval_spec(env, Sexp::List(seq![f] + args), depth) == Outcome::error(
            EvalError::ArgumentCount,
            env,
        ),
{
    let items = seq![f] + args;
    assert(items[0] == f);
    assert(items.len() - 1 == args.len());
}

} // verus!
