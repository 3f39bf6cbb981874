//! The meaning of evaluation, as a mathematical function from an environment
//! and an expression to a result and the environment that is left.

use crate::expr::Sexp;
use vstd::prelude::*;

verus! {

/// Why an evaluation failed.
#[derive(Debug, Clone, Copy, PartialEq, Eq, Structural)]
pub enum EvalError {
    /// An atom was evaluated that the environment does not bind.
    SymbolNotFound,
    /// The empty list was evaluated.
    NoProcedure,
    /// `quote` was not given exactly one argument.
    QuoteArity,
    /// `atom` was not given exactly one argument.
    AtomArity,
    /// `eq` was not given exactly two arguments.
    EqArity,
    /// `first` was not given exactly one argument.
    FirstArity,
    /// The argument of `first` is not a list with at least one element.
    FirstArgument,
    /// `rest` was not given exactly one argument.
    RestArity,
    /// The argument of `rest` is not a list with at least one element.
    RestArgument,
    /// `cons` was not given exactly two arguments.
    ConsArity,
    /// The second argument of `cons` is not a list.
    ConsArgument,
    /// A clause of `cond` is not a list of a test and a result.
    CondClause,
    /// `defun` was not given exactly three arguments.
    DefunArity,
    /// The name that `defun` is to bind is not a symbol.
    DefunName,
    /// The parameters that `defun` was given are not a list of symbols.
    DefunParams,
    /// The operator of a call is no function, and does not evaluate to one.
    Unrecognized,
    /// A function was called with more or fewer arguments than it has parameters.
    ArgumentCount,
    /// Evaluations were nested more deeply than the limit allows.
    DepthExceeded,
}

impl EvalError {
    /// The words in which the error is reported.
    pub open spec fn message_text(self) -> Seq<char> {
        match self {
            EvalError::SymbolNotFound => "Symbol not found."@,
            EvalError::NoProcedure => "No procedure to call."@,
            EvalError::QuoteArity => "`quote` expects exactly one argument."@,
            EvalError::AtomArity => "`atom` expects exactly one argument."@,
            EvalError::EqArity => "`eq` expects exactly two arguments."@,
            EvalError::FirstArity => "`first` expects exactly one argument."@,
            EvalError::FirstArgument => "`first`'s argument must be a non-empty list"@,
            EvalError::RestArity => "`rest` expects exactly one argument."@,
            EvalError::RestArgument => "`rest`'s argument must be a non-empty list"@,
            EvalError::ConsArity => "`cons` expects exactly two arguments."@,
            EvalError::ConsArgument => "`cons`'s second argument must be a list"@,
            EvalError::CondClause => "Invalid argument to `cond`"@,
            EvalError::DefunArity => "`defun` expects exactly three arguments."@,
            EvalError::DefunName => "First argument to `defun` must be a symbol"@,
            EvalError::DefunParams => "Second argument to `defun` must be a list of params"@,
            EvalError::Unrecognized => "Unrecognized expression."@,
            EvalError::ArgumentCount => "mismatch between number of procedure args and number of args called with."@,
            EvalError::DepthExceeded => "Evaluation nested too deeply."@,
        }
    }

    /// The words in which the error is reported.
    pub fn message(&self) -> (r: &'static str)
        ensures
            r@ == self.message_text(),
    {
        match self {
            EvalError::SymbolNotFound => "Symbol not found.",
            EvalError::NoProcedure => "No procedure to call.",
            EvalError::QuoteArity => "`quote` expects exactly one argument.",
            EvalError::AtomArity => "`atom` expects exactly one argument.",
            EvalError::EqArity => "`eq` expects exactly two arguments.",
            EvalError::FirstArity => "`first` expects exactly one argument.",
            EvalError::FirstArgument => "`first`'s argument must be a non-empty list",
            EvalError::RestArity => "`rest` expects exactly one argument.",
            EvalError::RestArgument => "`rest`'s argument must be a non-empty list",
            EvalError::ConsArity => "`cons` expects exactly two arguments.",
            EvalError::ConsArgument => "`cons`'s second argument must be a list",
            EvalError::CondClause => "Invalid argument to `cond`",
            EvalError::DefunArity => "`defun` expects exactly three arguments.",
            EvalError::DefunName => "First argument to `defun` must be a symbol",
            EvalError::DefunParams => "Second argument to `defun` must be a list of params",
            EvalError::Unrecognized => "Unrecognized expression.",
            EvalError::ArgumentCount => "mismatch between number of procedure args and number of args called with.",
            EvalError::DepthExceeded => "Evaluation nested too deeply.",
        }
    }
}

/// What an evaluation leaves behind: its result, and the environment after
/// it. Only `defun` changes the environment.
pub struct Outcome {
    pub result: Result<Sexp, EvalError>,
    pub env: Map<Seq<char>, Sexp>,
}

impl Outcome {
    pub open spec fn value(v: Sexp, env: Map<Seq<char>, Sexp>) -> Outcome {
        Outcome { result: Ok(v), env }
    }

    pub open spec fn error(e: EvalError, env: Map<Seq<char>, Sexp>) -> Outcome {
        Outcome { result: Err(e), env }
    }
}

/// What evaluating a sequence of arguments leaves behind.
pub struct ArgsOutcome {
    pub result: Result<Seq<Sexp>, EvalError>,
    pub env: Map<Seq<char>, Sexp>,
}

/// A function as read off a `lambda` or `label` form.
pub struct Callable {
    /// The parameters, in order.
    pub params: Seq<Seq<char>>,
    /// The expression that a call evaluates.
    pub body: Sexp,
    /// The name by which the body can refer to the function itself.
    pub name: Option<Seq<char>>,
}

/// Whether `e` is the symbol with the text `name`.
pub open spec fn is_symbol(name: Seq<char>, e: Sexp) -> bool {
    e == Sexp::Atom(name)
}

/// Whether every element is an atom.
pub open spec fn all_atoms(items: Seq<Sexp>) -> bool {
    forall|i: int| 0 <= i < items.len() ==> (#[trigger] items[i]) is Atom
}

/// The texts of a sequence of atoms.
pub open spec fn atom_texts(items: Seq<Sexp>) -> Seq<Seq<char>> {
    Seq::new(items.len(), |i: int| items[i]->Atom_0)
}

/// Whether `e` is a list of atoms.
pub open spec fn is_param_list(e: Sexp) -> bool {
    e is List && all_atoms(e->List_0)
}

/// The function that `e` denotes if it has the shape
/// `(lambda (p1 ... pn) body)` with every `pi` an atom.
pub open spec fn lambda_literal(e: Sexp) -> Option<Callable> {
    match e {
        Sexp::List(items) => if items.len() == 3 && is_symbol("lambda"@, items[0])
            && is_param_list(items[1]) {
            Some(Callable { params: atom_texts(items[1]->List_0), body: items[2], name: None })
        } else {
            None
        },
        _ => None,
    }
}

/// The function that `e` denotes if it has the shape
/// `(label name (lambda (p1 ... pn) body))` with `name` an atom.
pub open spec fn label_literal(e: Sexp) -> Option<Callable> {
    match e {
        Sexp::List(items) => if items.len() == 3 && is_symbol("label"@, items[0])
            && items[1] is Atom {
            match lambda_literal(items[2]) {
                Some(f) => Some(
                    Callable { params: f.params, body: f.body, name: Some(items[1]->Atom_0) },
                ),
                None => None,
            }
        } else {
            None
        },
        _ => None,
    }
}

/// The function that `e` denotes if it is a `lambda` or a `label` form.
pub open spec fn func_literal(e: Sexp) -> Option<Callable> {
    match lambda_literal(e) {
        Some(f) => Some(f),
        None => label_literal(e),
    }
}

/// The form `(label name (lambda params body))`.
pub open spec fn label_form(name: Sexp, params: Sexp, body: Sexp) -> Sexp {
    Sexp::List(
        seq![
            Sexp::Atom("label"@),
            name,
            Sexp::List(seq![Sexp::Atom("lambda"@), params, body]),
        ],
    )
}

/// `atom`: true of atoms and of the empty list.
pub open spec fn atom_value(v: Sexp) -> Sexp {
    Sexp::from_bool(v is Atom || v == Sexp::empty_list())
}

/// `eq`: true of two empty lists and of two atoms with the same text.
pub open spec fn eq_value(a: Sexp, b: Sexp) -> Sexp {
    Sexp::from_bool(
        (a == Sexp::empty_list() && b == Sexp::empty_list()) || (a is Atom && b is Atom && a == b),
    )
}

/// Whether `v` is a list with at least one element.
pub open spec fn is_nonempty_list(v: Sexp) -> bool {
    v is List && v->List_0.len() > 0
}

/// `first`: the first element of a list that has one.
pub open spec fn first_value(v: Sexp) -> Result<Sexp, EvalError> {
    if is_nonempty_list(v) {
        Ok(v->List_0[0])
    } else {
        Err(EvalError::FirstArgument)
    }
}

/// `rest`: a list that has a first element, without that element.
pub open spec fn rest_value(v: Sexp) -> Result<Sexp, EvalError> {
    if is_nonempty_list(v) {
        Ok(Sexp::List(v->List_0.drop_first()))
    } else {
        Err(EvalError::RestArgument)
    }
}

/// `cons`: the list `tail` with `head` put in front.
pub open spec fn cons_value(head: Sexp, tail: Sexp) -> Result<Sexp, EvalError> {
    match tail {
        Sexp::List(items) => Ok(Sexp::List(seq![head] + items)),
        _ => Err(EvalError::ConsArgument),
    }
}

/// The environment of a call before its parameters are bound: a `label`
/// form's name is bound to the whole form.
pub open spec fn bind_self(env: Map<Seq<char>, Sexp>, name: Option<Seq<char>>, f: Sexp) -> Map<
    Seq<char>,
    Sexp,
> {
    match name {
        Some(n) => env.insert(n, f),
        None => env,
    }
}

/// `env` with each parameter bound to the value at the same position, in
/// order: where a name occurs twice, the later binding counts.
pub open spec fn bind_params(
    env: Map<Seq<char>, Sexp>,
    params: Seq<Seq<char>>,
    values: Seq<Sexp>,
) -> Map<Seq<char>, Sexp>
    decreases params.len(),
{
    if params.len() == 0 || values.len() == 0 {
        env
    } else {
        bind_params(env, params.drop_last(), values.drop_last()).insert(
            params.last(),
            values.last(),
        )
    }
}

/// The evaluation of `e` in `env`, where at most `depth` evaluations may be
/// nested inside this one.
pub open spec fn eval_spec(env: Map<Seq<char>, Sexp>, e: Sexp, depth: nat) -> Outcome
    decreases depth, 3nat, 0nat,
{
    match e {
        Sexp::Nil => Outcome::value(Sexp::Nil, env),
        Sexp::Atom(name) => if env.contains_key(name) {
            Outcome::value(env[name], env)
        } else {
            Outcome::error(EvalError::SymbolNotFound, env)
        },
        Sexp::List(items) => if items.len() == 0 {
            Outcome::error(EvalError::NoProcedure, env)
        } else if is_symbol("quote"@, items[0]) {
            eval_quote_spec(env, items)
        } else if is_symbol("atom"@, items[0]) {
            eval_atom_spec(env, items, depth)
        } else if is_symbol("eq"@, items[0]) {
            eval_eq_spec(env, items, depth)
        } else if is_symbol("first"@, items[0]) || is_symbol("car"@, items[0]) {
            eval_first_spec(env, items, depth)
        } else if is_symbol("rest"@, items[0]) || is_symbol("cdr"@, items[0]) {
            eval_rest_spec(env, items, depth)
        } else if is_symbol("cons"@, items[0]) {
            eval_cons_spec(env, items, depth)
        } else if is_symbol("cond"@, items[0]) {
            eval_clauses(env, items.drop_first(), depth)
        } else if is_symbol("defun"@, items[0]) {
            eval_defun_spec(env, items)
        } else {
            eval_call_spec(env, items, depth)
        },
    }
}

/// The evaluation of `e` as a part of an evaluation that may nest `depth`
/// more: it fails where `depth` is used up.
pub open spec fn eval_nested(env: Map<Seq<char>, Sexp>, e: Sexp, depth: nat) -> Outcome
    decreases depth, 0nat, 0nat,
{
    if depth == 0 {
        Outcome::error(EvalError::DepthExceeded, env)
    } else {
        eval_spec(env, e, (depth - 1) as nat)
    }
}

/// `(quote e)` is `e`, unevaluated.
pub open spec fn eval_quote_spec(env: Map<Seq<char>, Sexp>, items: Seq<Sexp>) -> Outcome {
    if items.len() != 2 {
        Outcome::error(EvalError::QuoteArity, env)
    } else {
        Outcome::value(items[1], env)
    }
}

/// `(atom e)`.
pub open spec fn eval_atom_spec(env: Map<Seq<char>, Sexp>, items: Seq<Sexp>, depth: nat) -> Outcome
    decreases depth, 1nat, 0nat,
{
    if items.len() != 2 {
        Outcome::error(EvalError::AtomArity, env)
    } else {
        let arg = eval_nested(env, items[1], depth);
        match arg.result {
            Ok(v) => Outcome::value(atom_value(v), arg.env),
            Err(_) => arg,
        }
    }
}

/// `(eq a b)`.
pub open spec fn eval_eq_spec(env: Map<Seq<char>, Sexp>, items: Seq<Sexp>, depth: nat) -> Outcome
    decreases depth, 1nat, 0nat,
{
    if items.len() != 3 {
        Outcome::error(EvalError::EqArity, env)
    } else {
        let a = eval_nested(env, items[1], depth);
        match a.result {
            Ok(va) => {
                let b = eval_nested(a.env, items[2], depth);
                match b.result {
                    Ok(vb) => Outcome::value(eq_value(va, vb), b.env),
                    Err(_) => b,
                }
            },
            Err(_) => a,
        }
    }
}

/// `(first e)`, also written `(car e)`.
pub open spec fn eval_first_spec(
    env: Map<Seq<char>, Sexp>,
    items: Seq<Sexp>,
    depth: nat,
) -> Outcome
    decreases depth, 1nat, 0nat,
{
    if items.len() != 2 {
        Outcome::error(EvalError::FirstArity, env)
    } else {
        let arg = eval_nested(env, items[1], depth);
        match arg.result {
            Ok(v) => Outcome { result: first_value(v), env: arg.env },
            Err(_) => arg,
        }
    }
}

/// `(rest e)`, also written `(cdr e)`.
pub open spec fn eval_rest_spec(env: Map<Seq<char>, Sexp>, items: Seq<Sexp>, depth: nat) -> Outcome
    decreases depth, 1nat, 0nat,
{
    if items.len() != 2 {
        Outcome::error(EvalError::RestArity, env)
    } else {
        let arg = eval_nested(env, items[1], depth);
        match arg.result {
            Ok(v) => Outcome { result: rest_value(v), env: arg.env },
            Err(_) => arg,
        }
    }
}

/// `(cons a b)`.
pub open spec fn eval_cons_spec(env: Map<Seq<char>, Sexp>, items: Seq<Sexp>, depth: nat) -> Outcome
    decreases depth, 1nat, 0nat,
{
    if items.len() != 3 {
        Outcome::error(EvalError::ConsArity, env)
    } else {
        let a = eval_nested(env, items[1], depth);
        match a.result {
            Ok(va) => {
                let b = eval_nested(a.env, items[2], depth);
                match b.result {
                    Ok(vb) => Outcome { result: cons_value(va, vb), env: b.env },
                    Err(_) => b,
                }
            },
            Err(_) => a,
        }
    }
}

/// Whether `clause` is a list of exactly a test and a result.
pub open spec fn is_clause(clause: Sexp) -> bool {
    clause is List && clause->List_0.len() == 2
}

/// The clauses of a `cond`, tried from the left: the result of the first
/// clause whose test evaluates to the truth symbol, and `Nil` where there is
/// none. A clause is looked at only when the ones before it have not matched.
pub open spec fn eval_clauses(env: Map<Seq<char>, Sexp>, clauses: Seq<Sexp>, depth: nat) -> Outcome
    decreases depth, 1nat, clauses.len(),
{
    if clauses.len() == 0 {
        Outcome::value(Sexp::Nil, env)
    } else if !is_clause(clauses[0]) {
        Outcome::error(EvalError::CondClause, env)
    } else {
        let test = eval_nested(env, clauses[0]->List_0[0], depth);
        match test.result {
            Ok(v) => if v == Sexp::truth() {
                eval_nested(test.env, clauses[0]->List_0[1], depth)
            } else {
                eval_clauses(test.env, clauses.drop_first(), depth)
            },
            Err(_) => test,
        }
    }
}

/// `(defun name (p1 ... pn) body)` binds `name` to
/// `(label name (lambda (p1 ... pn) body))` and has no value.
pub open spec fn eval_defun_spec(env: Map<Seq<char>, Sexp>, items: Seq<Sexp>) -> Outcome {
    if items.len() != 4 {
        Outcome::error(EvalError::DefunArity, env)
    } else if !(items[1] is Atom) {
        Outcome::error(EvalError::DefunName, env)
    } else if !is_param_list(items[2]) {
        Outcome::error(EvalError::DefunParams, env)
    } else {
        Outcome::value(
            Sexp::Nil,
            env.insert(items[1]->Atom_0, label_form(items[1], items[2], items[3])),
        )
    }
}

/// The arguments of a call, evaluated from the left, each in the environment
/// that the one before it left. The first failure ends it.
pub open spec fn eval_args(env: Map<Seq<char>, Sexp>, args: Seq<Sexp>, depth: nat) -> ArgsOutcome
    decreases depth, 1nat, args.len(),
{
    if args.len() == 0 {
        ArgsOutcome { result: Ok(Seq::empty()), env }
    } else {
        let before = eval_args(env, args.drop_last(), depth);
        match before.result {
            Ok(values) => {
                let last = eval_nested(before.env, args.last(), depth);
                match last.result {
                    Ok(v) => ArgsOutcome { result: Ok(values.push(v)), env: last.env },
                    Err(e) => ArgsOutcome { result: Err(e), env: last.env },
                }
            },
            Err(_) => before,
        }
    }
}

/// The function that a call applies: the operator itself where it is a
/// `lambda` or `label` form, which is then not evaluated, and else what the
/// operator evaluates to, which must be such a form.
pub open spec fn resolve_operator(env: Map<Seq<char>, Sexp>, op: Sexp, depth: nat) -> Outcome
    decreases depth, 1nat, 0nat,
{
    if func_literal(op) is Some {
        Outcome::value(op, env)
    } else {
        let found = eval_nested(env, op, depth);
        match found.result {
            Ok(v) => if func_literal(v) is Some {
                found
            } else {
                Outcome::error(EvalError::Unrecognized, found.env)
            },
            Err(_) => found,
        }
    }
}

/// The call `(op a1 ... an)`: the arguments are evaluated in the caller's
/// environment, the body in that environment extended by the function's own
/// name (for a `label` form) and its parameters. What the body does to its
/// environment is lost when the call returns.
pub open spec fn eval_call_spec(env: Map<Seq<char>, Sexp>, items: Seq<Sexp>, depth: nat) -> Outcome
    recommends
        items.len() > 0,
    decreases depth, 2nat, 0nat,
{
    let op = resolve_operator(env, items[0], depth);
    match op.result {
        Ok(f) => {
            let callee = func_literal(f)->Some_0;
            if callee.params.len() != items.len() - 1 {
                Outcome::error(EvalError::ArgumentCount, op.env)
            } else {
                let args = eval_args(op.env, items.drop_first(), depth);
                match args.result {
                    Ok(values) => {
                        let frame = bind_params(
                            bind_self(args.env, callee.name, f),
                            callee.params,
                            values,
                        );
                        Outcome {
                            result: eval_nested(frame, callee.body, depth).result,
                            env: args.env,
                        }
                    },
                    Err(e) => Outcome::error(e, args.env),
                }
            }
        },
        Err(_) => op,
    }
}

} // verus!
