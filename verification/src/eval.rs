//! The evaluator: it interprets an expression against an environment.

use crate::env::Env;
use crate::expr::{lemma_view_list, lemma_views_push, texts, views, Expression, Sexp};
use crate::semantics;
use crate::semantics::{Callable, EvalError, Outcome};
use crate::text::same_text;
use vstd::prelude::*;

verus! {

/// What an evaluation returns.
pub type EvalResult = Result<Expression, EvalError>;

/// How deeply `eval` lets evaluations nest. A program that recurses without
/// end uses up any limit; this one keeps the evaluator well within the stack
/// of an ordinary thread.
pub const MAX_DEPTH: usize = 1000;

/// The value of a result: the value of the expression, or the error.
pub open spec fn result_view(r: Result<Expression, EvalError>) -> Result<Sexp, EvalError> {
    match r {
        Ok(e) => Ok(e@),
        Err(x) => Err(x),
    }
}

/// Whether a result and the environment left behind are those of `outcome`.
pub open spec fn agrees(
    r: Result<Expression, EvalError>,
    env: Map<Seq<char>, Sexp>,
    outcome: Outcome,
) -> bool {
    result_view(r) == outcome.result && env == outcome.env
}

/// A function as read off a `lambda` or `label` form.
#[derive(Debug)]
pub struct FuncLiteral {
    /// The parameters, in order.
    pub params: Vec<String>,
    /// The expression that a call evaluates.
    pub body: Expression,
    /// The name by which the body can refer to the function: given by a
    /// `label` form, absent from a `lambda` form.
    pub sym: Option<String>,
}

impl View for FuncLiteral {
    type V = Callable;

    open spec fn view(&self) -> Callable {
        Callable {
            params: texts(self.params@),
            body: self.body@,
            name: match self.sym {
                Some(s) => Some(s@),
                None => None,
            },
        }
    }
}

/// Whether `expr` is the symbol with the text `op`.
pub fn is_symbol(op: &str, expr: &Expression) -> (r: bool)
    ensures
        r == semantics::is_symbol(op@, expr@),
{
    match expr {
        Expression::Atom(s) => same_text(s.as_str(), op),
        _ => false,
    }
}

/// Whether every element of `items` is an atom.
pub fn all_atoms(items: &Vec<Expression>) -> (r: bool)
    ensures
        r == semantics::all_atoms(views(items@)),
{
    let mut i: usize = 0;
    while i < items.len()
        invariant
            i <= items.len(),
            forall|j: int| 0 <= j < i ==> (#[trigger] views(items@)[j]) is Atom,
        decreases items.len() - i,
    {
        if !items[i].is_atom() {
            assert(!(views(items@)[i as int] is Atom));
            return false;
        }
        i += 1;
    }
    true
}

/// Reads `expr` as a `lambda` form, if it is one.
#[verifier::loop_isolation(false)]
pub fn parse_lambda_literal(expr: &Expression) -> (r: Option<FuncLiteral>)
    ensures
        match r {
            Some(f) => semantics::lambda_literal(expr@) == Some(f@),
            None => semantics::lambda_literal(expr@) is None,
        },
{
    broadcast use lemma_view_list;

    let vec = match expr {
        Expression::List(vec) => vec,
        _ => {
            return None;
        },
    };
    if vec.len() != 3 || !is_symbol("lambda", &vec[0]) {
        return None;
    }
    let params = match &vec[1] {
        Expression::List(params) => params,
        _ => {
            return None;
        },
    };
    let mut plist: Vec<String> = Vec::new();
    let mut i: usize = 0;
    while i < params.len()
        invariant
            i <= params.len(),
            plist.len() == i,
            forall|j: int| 0 <= j < i ==> (#[trigger] views(params@)[j]) is Atom,
            forall|j: int| 0 <= j < i ==> (#[trigger] plist[j])@ == views(params@)[j]->Atom_0,
        decreases params.len() - i,
    {
        match &params[i] {
            Expression::Atom(p) => {
                plist.push(p.clone());
            },
            _ => {
                assert(!(views(params@)[i as int] is Atom));
                return None;
            },
        }
        i += 1;
    }
    let f = FuncLiteral { params: plist, body: vec[2].clone(), sym: None };
    assert(f@.params =~= semantics::atom_texts(views(params@)));
    Some(f)
}

/// Reads `expr` as a `label` form, if it is one.
pub fn parse_label_literal(expr: &Expression) -> (r: Option<FuncLiteral>)
    ensures
        match r {
            Some(f) => semantics::label_literal(expr@) == Some(f@),
            None => semantics::label_literal(expr@) is None,
        },
{
    broadcast use lemma_view_list;

    let vec = match expr {
        Expression::List(vec) => vec,
        _ => {
            return None;
        },
    };
    if vec.len() != 3 || !is_symbol("label", &vec[0]) {
        return None;
    }
    let name = match &vec[1] {
        Expression::Atom(name) => name,
        _ => {
            return None;
        },
    };
    match parse_lambda_literal(&vec[2]) {
        None => None,
        Some(func) => Some(
            FuncLiteral { params: func.params, body: func.body, sym: Some(name.clone()) },
        ),
    }
}

/// Reads `expr` as a `lambda` or a `label` form, if it is one.
pub fn parse_func_literal(expr: &Expression) -> (r: Option<FuncLiteral>)
    ensures
        match r {
            Some(f) => semantics::func_literal(expr@) == Some(f@),
            None => semantics::func_literal(expr@) is None,
        },
{
    match parse_lambda_literal(expr) {
        None => parse_label_literal(expr),
        Some(lambda) => Some(lambda),
    }
}

/// Evaluates `expr` in `env`, letting evaluations nest `MAX_DEPTH` deep.
/// Only `defun` changes `env`, and what it has done by the time of an error
/// stays done.
pub fn eval(env: &mut Env, expr: Expression) -> (r: EvalResult)
    ensures
        agrees(r, final(env)@, semantics::eval_spec(old(env)@, expr@, MAX_DEPTH as nat)),
{
    eval_bounded(env, &expr, MAX_DEPTH)
}

/// Evaluates `expr` in `env`, letting at most `depth` evaluations nest inside
/// this one: with `depth` 0 atoms, `Nil`, `quote` and `defun` forms can be
/// evaluated, and every other form needs one level more than its parts.
pub fn eval_bounded(env: &mut Env, expr: &Expression, depth: usize) -> (r: EvalResult)
    ensures
        agrees(r, final(env)@, semantics::eval_spec(old(env)@, expr@, depth as nat)),
    decreases depth, 3int,
{
    broadcast use lemma_view_list;

    match expr {
        Expression::Nil => Ok(Expression::Nil),
        Expression::Atom(s) => {
            match env.find_copy(s) {
                None => Err(EvalError::SymbolNotFound),
                Some(found) => Ok(found),
            }
        },
        Expression::List(vec) => {
            if vec.len() == 0 {
                Err(EvalError::NoProcedure)
            } else if is_symbol("quote", &vec[0]) {
                if vec.len() != 2 {
                    Err(EvalError::QuoteArity)
                } else {
                    Ok(vec[1].clone())
                }
            } else if is_symbol("atom", &vec[0]) {
                eval_atom(env, vec, depth)
            } else if is_symbol("eq", &vec[0]) {
                eval_eq(env, vec, depth)
            } else if is_symbol("first", &vec[0]) || is_symbol("car", &vec[0]) {
                eval_first(env, vec, depth)
            } else if is_symbol("rest", &vec[0]) || is_symbol("cdr", &vec[0]) {
                eval_rest(env, vec, depth)
            } else if is_symbol("cons", &vec[0]) {
                eval_cons(env, vec, depth)
            } else if is_symbol("cond", &vec[0]) {
                eval_cond(env, vec, depth)
            } else if is_symbol("defun", &vec[0]) {
                eval_defun(env, vec)
            } else {
                eval_func_call(env, vec, depth)
            }
        },
    }
}

/// Evaluates `expr` as a part of an evaluation that may nest `depth` more.
fn eval_nested(env: &mut Env, expr: &Expression, depth: usize) -> (r: EvalResult)
    ensures
        agrees(r, final(env)@, semantics::eval_nested(old(env)@, expr@, depth as nat)),
    decreases depth, 0int,
{
    if depth == 0 {
        Err(EvalError::DepthExceeded)
    } else {
        eval_bounded(env, expr, depth - 1)
    }
}

/// The truth symbol where `b` holds, the empty list where it does not.
fn from_bool(b: bool) -> (r: Expression)
    ensures
        r@ == Sexp::from_bool(b),
{
    if b {
        Expression::symbol("t")
    } else {
        Expression::empty_list()
    }
}

/// `(atom e)`: whether `e` evaluates to an atom or to the empty list.
fn eval_atom(env: &mut Env, vec: &Vec<Expression>, depth: usize) -> (r: EvalResult)
    ensures
        agrees(r, final(env)@, semantics::eval_atom_spec(old(env)@, views(vec@), depth as nat)),
    decreases depth, 1int,
{
    if vec.len() != 2 {
        return Err(EvalError::AtomArity);
    }
    match eval_nested(env, &vec[1], depth) {
        Err(e) => Err(e),
        Ok(val) => Ok(from_bool(val.is_atom() || val.is_empty_list())),
    }
}

/// `(eq a b)`: whether `a` and `b` evaluate both to the empty list, or to
/// atoms with the same text.
fn eval_eq(env: &mut Env, vec: &Vec<Expression>, depth: usize) -> (r: EvalResult)
    ensures
        agrees(r, final(env)@, semantics::eval_eq_spec(old(env)@, views(vec@), depth as nat)),
    decreases depth, 1int,
{
    if vec.len() != 3 {
        return Err(EvalError::EqArity);
    }
    let val1 = match eval_nested(env, &vec[1], depth) {
        Err(e) => {
            return Err(e);
        },
        Ok(val) => val,
    };
    let val2 = match eval_nested(env, &vec[2], depth) {
        Err(e) => {
            return Err(e);
        },
        Ok(val) => val,
    };
    let same = (val1.is_empty_list() && val2.is_empty_list()) || (val1.is_atom() && val2.is_atom()
        && val1 == val2);
    Ok(from_bool(same))
}

/// `(first e)`: the first element of the list that `e` evaluates to.
fn eval_first(env: &mut Env, vec: &Vec<Expression>, depth: usize) -> (r: EvalResult)
    ensures
        agrees(r, final(env)@, semantics::eval_first_spec(old(env)@, views(vec@), depth as nat)),
    decreases depth, 1int,
{
    broadcast use lemma_view_list;

    if vec.len() != 2 {
        return Err(EvalError::FirstArity);
    }
    match eval_nested(env, &vec[1], depth) {
        Err(e) => Err(e),
        Ok(val) => match val {
            Expression::List(mut list) => {
                if list.len() == 0 {
                    Err(EvalError::FirstArgument)
                } else {
                    Ok(list.swap_remove(0))
                }
            },
            _ => Err(EvalError::FirstArgument),
        },
    }
}

/// `(rest e)`: the list that `e` evaluates to, without its first element.
fn eval_rest(env: &mut Env, vec: &Vec<Expression>, depth: usize) -> (r: EvalResult)
    ensures
        agrees(r, final(env)@, semantics::eval_rest_spec(old(env)@, views(vec@), depth as nat)),
    decreases depth, 1int,
{
    broadcast use lemma_view_list;

    if vec.len() != 2 {
        return Err(EvalError::RestArity);
    }
    match eval_nested(env, &vec[1], depth) {
        Err(e) => Err(e),
        Ok(val) => match val {
            Expression::List(mut list) => {
                if list.len() == 0 {
                    Err(EvalError::RestArgument)
                } else {
                    let ghost before = list@;
                    list.remove(0);
                    assert(views(list@) =~= views(before).drop_first());
                    Ok(Expression::List(list))
                }
            },
            _ => Err(EvalError::RestArgument),
        },
    }
}

/// `(cons a b)`: the list that `b` evaluates to, with the value of `a` put in
/// front.
fn eval_cons(env: &mut Env, vec: &Vec<Expression>, depth: usize) -> (r: EvalResult)
    ensures
        agrees(r, final(env)@, semantics::eval_cons_spec(old(env)@, views(vec@), depth as nat)),
    decreases depth, 1int,
{
    broadcast use lemma_view_list;

    if vec.len() != 3 {
        return Err(EvalError::ConsArity);
    }
    let val1 = match eval_nested(env, &vec[1], depth) {
        Err(e) => {
            return Err(e);
        },
        Ok(val) => val,
    };
    let val2 = match eval_nested(env, &vec[2], depth) {
        Err(e) => {
            return Err(e);
        },
        Ok(val) => val,
    };
    match val2 {
        Expression::List(mut list) => {
            let ghost before = list@;
            let ghost head = val1@;
            list.insert(0, val1);
            assert(views(list@) =~= seq![head] + views(before));
            Ok(Expression::List(list))
        },
        _ => Err(EvalError::ConsArgument),
    }
}

/// `(cond (t1 r1) ... (tn rn))`: the value of the first `ri` whose `ti`
/// evaluates to the truth symbol, and `Nil` where there is none.
#[verifier::loop_isolation(false)]
fn eval_cond(env: &mut Env, vec: &Vec<Expression>, depth: usize) -> (r: EvalResult)
    requires
        vec.len() > 0,
    ensures
        agrees(
            r,
            final(env)@,
            semantics::eval_clauses(old(env)@, views(vec@).drop_first(), depth as nat),
        ),
    decreases depth, 1int,
{
    broadcast use lemma_view_list;

    let ghost env0 = env@;
    let ghost items = views(vec@);
    assert(items.drop_first() =~= items.skip(1));
    let mut i: usize = 1;
    while i < vec.len()
        invariant
            1 <= i <= vec.len(),
            items == views(vec@),
            semantics::eval_clauses(env0, items.drop_first(), depth as nat)
                == semantics::eval_clauses(env@, items.skip(i as int), depth as nat),
        decreases vec.len() - i,
    {
        let ghost clauses = items.skip(i as int);
        assert(clauses[0] == vec[i as int]@);
        assert(clauses.drop_first() =~= items.skip(i + 1));
        match &vec[i] {
            Expression::List(list) => {
                if list.len() != 2 {
                    return Err(EvalError::CondClause);
                }
                match eval_nested(env, &list[0], depth) {
                    Err(e) => {
                        return Err(e);
                    },
                    Ok(val) => {
                        if is_symbol("t", &val) {
                            return eval_nested(env, &list[1], depth);
                        }
                    },
                }
            },
            _ => {
                return Err(EvalError::CondClause);
            },
        }
        i += 1;
    }
    Ok(Expression::Nil)
}

/// `(defun name (p1 ... pn) body)`: binds `name` in `env` to the function
/// with these parameters and this body, which can call itself by that name.
fn eval_defun(env: &mut Env, vec: &Vec<Expression>) -> (r: EvalResult)
    ensures
        agrees(r, final(env)@, semantics::eval_defun_spec(old(env)@, views(vec@))),
{
    broadcast use lemma_view_list;

    if vec.len() != 4 {
        return Err(EvalError::DefunArity);
    }
    let name = match &vec[1] {
        Expression::Atom(name) => name.clone(),
        _ => {
            return Err(EvalError::DefunName);
        },
    };
    match &vec[2] {
        Expression::List(params) => {
            if !all_atoms(params) {
                return Err(EvalError::DefunParams);
            }
        },
        _ => {
            return Err(EvalError::DefunParams);
        },
    }
    let lambda_items = vec![Expression::symbol("lambda"), vec[2].clone(), vec[3].clone()];
    assert(views(lambda_items@) =~= seq![Sexp::Atom("lambda"@), vec[2]@, vec[3]@]);
    let label_items = vec![
        Expression::symbol("label"),
        vec[1].clone(),
        Expression::List(lambda_items),
    ];
    assert(views(label_items@) =~= seq![
        Sexp::Atom("label"@),
        vec[1]@,
        Sexp::List(seq![Sexp::Atom("lambda"@), vec[2]@, vec[3]@]),
    ]);
    env.insert(name, Expression::List(label_items));
    Ok(Expression::Nil)
}

/// An error is the outcome of evaluating any longer sequence of arguments too.
proof fn lemma_args_error(env: Map<Seq<char>, Sexp>, args: Seq<Sexp>, n: int, depth: nat)
    requires
        0 <= n <= args.len(),
        semantics::eval_args(env, args.take(n), depth).result is Err,
    ensures
        semantics::eval_args(env, args, depth) == semantics::eval_args(env, args.take(n), depth),
    decreases args.len() - n,
{
    if n < args.len() {
        assert(args.take(n + 1).drop_last() =~= args.take(n));
        lemma_args_error(env, args, n + 1, depth);
    } else {
        assert(args.take(n) =~= args);
    }
}

/// Finds the function that a call applies: the operator itself where it is a
/// `lambda` or `label` form, else what it evaluates to.
fn resolve_operator(env: &mut Env, op: &Expression, depth: usize) -> (r: Result<
    (Expression, FuncLiteral),
    EvalError,
>)
    ensures
        final(env)@ == semantics::resolve_operator(old(env)@, op@, depth as nat).env,
        match r {
            Ok((f, lit)) => {
                &&& semantics::resolve_operator(old(env)@, op@, depth as nat).result == Ok::<
                    Sexp,
                    EvalError,
                >(f@)
                &&& semantics::func_literal(f@) == Some(lit@)
            },
            Err(e) => semantics::resolve_operator(old(env)@, op@, depth as nat).result == Err::<
                Sexp,
                EvalError,
            >(e),
        },
    decreases depth, 1int,
{
    match parse_func_literal(op) {
        Some(lit) => Ok((op.clone(), lit)),
        None => {
            match eval_nested(env, op, depth) {
                Err(e) => Err(e),
                Ok(found) => match parse_func_literal(&found) {
                    None => Err(EvalError::Unrecognized),
                    Some(lit) => Ok((found, lit)),
                },
            }
        },
    }
}

/// Evaluates the arguments of the call `vec`, which are its elements but the
/// first, from the left.
#[verifier::loop_isolation(false)]
fn eval_args(env: &mut Env, vec: &Vec<Expression>, depth: usize) -> (r: Result<
    Vec<Expression>,
    EvalError,
>)
    requires
        vec.len() > 0,
    ensures
        final(env)@ == semantics::eval_args(
            old(env)@,
            views(vec@).drop_first(),
            depth as nat,
        ).env,
        match r {
            Ok(values) => {
                &&& values.len() == vec.len() - 1
                &&& semantics::eval_args(
                    old(env)@,
                    views(vec@).drop_first(),
                    depth as nat,
                ).result == Ok::<Seq<Sexp>, EvalError>(views(values@))
            },
            Err(e) => semantics::eval_args(
                old(env)@,
                views(vec@).drop_first(),
                depth as nat,
            ).result == Err::<Seq<Sexp>, EvalError>(e),
        },
    decreases depth, 1int,
{
    let ghost env0 = env@;
    let ghost args = views(vec@).drop_first();
    let mut values: Vec<Expression> = Vec::new();
    let mut i: usize = 1;
    assert(args.take(0) =~= Seq::<Sexp>::empty());
    assert(views(values@) =~= Seq::<Sexp>::empty());
    while i < vec.len()
        invariant
            1 <= i <= vec.len(),
            values.len() == i - 1,
            semantics::eval_args(env0, args.take(i - 1), depth as nat) == (semantics::ArgsOutcome {
                result: Ok(views(values@)),
                env: env@,
            }),
        decreases vec.len() - i,
    {
        assert(args.take(i as int).drop_last() =~= args.take(i - 1));
        assert(args.take(i as int).last() == vec[i as int]@);
        match eval_nested(env, &vec[i], depth) {
            Err(e) => {
                proof {
                    lemma_args_error(env0, args, i as int, depth as nat);
                }
                return Err(e);
            },
            Ok(val) => {
                proof {
                    lemma_views_push(values@, val);
                }
                values.push(val);
            },
        }
        i += 1;
    }
    assert(args.take(i - 1) =~= args);
    Ok(values)
}

/// The environment in which the body of a call is evaluated.
fn bind_frame(env: &Env, func: &FuncLiteral, op_expr: Expression, values: &Vec<Expression>) -> (r:
    Env)
    requires
        values.len() == func.params.len(),
    ensures
        r@ == semantics::bind_params(
            semantics::bind_self(env@, func@.name, op_expr@),
            func@.params,
            views(values@),
        ),
{
    let mut frame = env.clone();
    match &func.sym {
        Some(s) => {
            frame.insert(s.clone(), op_expr);
        },
        None => {},
    }
    let ghost frame0 = frame@;
    let ghost names = texts(func.params@);
    let mut j: usize = 0;
    assert(names.take(0) =~= Seq::<Seq<char>>::empty());
    while j < values.len()
        invariant
            j <= values.len(),
            values.len() == func.params.len(),
            names == texts(func.params@),
            frame@ == semantics::bind_params(
                frame0,
                names.take(j as int),
                views(values@).take(j as int),
            ),
        decreases values.len() - j,
    {
        assert(names.take(j + 1).drop_last() =~= names.take(j as int));
        assert(views(values@).take(j + 1).drop_last() =~= views(values@).take(j as int));
        frame.insert(func.params[j].clone(), values[j].clone());
        j += 1;
    }
    assert(names.take(j as int) =~= names);
    assert(views(values@).take(j as int) =~= views(values@));
    frame
}

/// The call `(op a1 ... an)` of a function on the values of its arguments.
fn eval_func_call(env: &mut Env, vec: &Vec<Expression>, depth: usize) -> (r: EvalResult)
    requires
        vec.len() > 0,
    ensures
        agrees(r, final(env)@, semantics::eval_call_spec(old(env)@, views(vec@), depth as nat)),
    decreases depth, 2int,
{
    let (op_expr, func_lit) = match resolve_operator(env, &vec[0], depth) {
        Err(e) => {
            return Err(e);
        },
        Ok(found) => found,
    };
    if func_lit.params.len() != vec.len() - 1 {
        return Err(EvalError::ArgumentCount);
    }
    let values = match eval_args(env, vec, depth) {
        Err(e) => {
            return Err(e);
        },
        Ok(values) => values,
    };
    let mut frame = bind_frame(env, &func_lit, op_expr, &values);
    eval_nested(&mut frame, &func_lit.body, depth)
}

} // verus!
