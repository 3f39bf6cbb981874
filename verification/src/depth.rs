//! The limit on nesting decides only whether an evaluation runs out of
//! depth: one that does not has the same outcome under every larger limit.

use crate::expr::Sexp;
use crate::semantics::{
    eval_args, eval_atom_spec, eval_call_spec, eval_clauses, eval_cons_spec, eval_eq_spec,
    eval_first_spec, eval_nested, eval_rest_spec, eval_spec, func_literal, is_clause, is_symbol,
    resolve_operator, EvalError,
};
use vstd::prelude::*;

verus! {

/// Whether a result says that the evaluation ran out of depth.
pub open spec fn ran_out<T>(r: Result<T, EvalError>) -> bool {
    r == Err::<T, EvalError>(EvalError::DepthExceeded)
}

proof fn lemma_nested_depth(env: Map<Seq<char>, Sexp>, e: Sexp, d1: nat, d2: nat)
    requires
        d1 <= d2,
        !ran_out(eval_nested(env, e, d1).result),
    ensures
        eval_nested(env, e, d2) == eval_nested(env, e, d1),
    decreases d1, 0nat, 0nat,
{
    lemma_eval_depth(env, e, (d1 - 1) as nat, (d2 - 1) as nat);
}

proof fn lemma_atom_depth(env: Map<Seq<char>, Sexp>, items: Seq<Sexp>, d1: nat, d2: nat)
    requires
        d1 <= d2,
        !ran_out(eval_atom_spec(env, items, d1).result),
    ensures
        eval_atom_spec(env, items, d2) == eval_atom_spec(env, items, d1),
    decreases d1, 1nat, 0nat,
{
    if items.len() == 2 {
        lemma_nested_depth(env, items[1], d1, d2);
    }
}

proof fn lemma_first_depth(env: Map<Seq<char>, Sexp>, items: Seq<Sexp>, d1: nat, d2: nat)
    requires
        d1 <= d2,
        !ran_out(eval_first_spec(env, items, d1).result),
    ensures
        eval_first_spec(env, items, d2) == eval_first_spec(env, items, d1),
    decreases d1, 1nat, 0nat,
{
    if items.len() == 2 {
        lemma_nested_depth(env, items[1], d1, d2);
    }
}

proof fn lemma_rest_depth(env: Map<Seq<char>, Sexp>, items: Seq<Sexp>, d1: nat, d2: nat)
    requires
        d1 <= d2,
        !ran_out(eval_rest_spec(env, items, d1).result),
    ensures
        eval_rest_spec(env, items, d2) == eval_rest_spec(env, items, d1),
    decreases d1, 1nat, 0nat,
{
    if items.len() == 2 {
        lemma_nested_depth(env, items[1], d1, d2);
    }
}

proof fn lemma_eq_depth(env: Map<Seq<char>, Sexp>, items: Seq<Sexp>, d1: nat, d2: nat)
    requires
        d1 <= d2,
        !ran_out(eval_eq_spec(env, items, d1).result),
    ensures
        eval_eq_spec(env, items, d2) == eval_eq_spec(env, items, d1),
    decreases d1, 1nat, 0nat,
{
    if items.len() == 3 {
        lemma_nested_depth(env, items[1], d1, d2);
        let a = eval_nested(env, items[1], d1);
        if a.result is Ok {
            lemma_nested_depth(a.env, items[2], d1, d2);
        }
    }
}

proof fn lemma_cons_depth(env: Map<Seq<char>, Sexp>, items: Seq<Sexp>, d1: nat, d2: nat)
    requires
        d1 <= d2,
        !ran_out(eval_cons_spec(env, items, d1).result),
    ensures
        eval_cons_spec(env, items, d2) == eval_cons_spec(env, items, d1),
    decreases d1, 1nat, 0nat,
{
    if items.len() == 3 {
        lemma_nested_depth(env, items[1], d1, d2);
        let a = eval_nested(env, items[1], d1);
        if a.result is Ok {
            lemma_nested_depth(a.env, items[2], d1, d2);
        }
    }
}

proof fn lemma_clauses_depth(env: Map<Seq<char>, Sexp>, clauses: Seq<Sexp>, d1: nat, d2: nat)
    requires
        d1 <= d2,
        !ran_out(eval_clauses(env, clauses, d1).result),
    ensures
        eval_clauses(env, clauses, d2) == eval_clauses(env, clauses, d1),
    decreases d1, 1nat, clauses.len(),
{
    if clauses.len() > 0 && is_clause(clauses[0]) {
        let test = eval_nested(env, clauses[0]->List_0[0], d1);
        lemma_nested_depth(env, clauses[0]->List_0[0], d1, d2);
        match test.result {
            Ok(v) => {
                if v == Sexp::truth() {
                    lemma_nested_depth(test.env, clauses[0]->List_0[1], d1, d2);
                } else {
                    lemma_clauses_depth(test.env, clauses.drop_first(), d1, d2);
                }
            },
            Err(_) => {},
        }
    }
}

proof fn lemma_args_depth(env: Map<Seq<char>, Sexp>, args: Seq<Sexp>, d1: nat, d2: nat)
    requires
        d1 <= d2,
        !ran_out(eval_args(env, args, d1).result),
    ensures
        eval_args(env, args, d2) == eval_args(env, args, d1),
    decreases d1, 1nat, args.len(),
{
    if args.len() > 0 {
        let before = eval_args(env, args.drop_last(), d1);
        lemma_args_depth(env, args.drop_last(), d1, d2);
        if before.result is Ok {
            lemma_nested_depth(before.env, args.last(), d1, d2);
        }
    }
}

proof fn lemma_operator_depth(env: Map<Seq<char>, Sexp>, op: Sexp, d1: nat, d2: nat)
    requires
        d1 <= d2,
        !ran_out(resolve_operator(env, op, d1).result),
    ensures
        resolve_operator(env, op, d2) == resolve_operator(env, op, d1),
    decreases d1, 1nat, 0nat,
{
    if !(func_literal(op) is Some) {
        lemma_nested_depth(env, op, d1, d2);
    }
}

proof fn lemma_call_depth(env: Map<Seq<char>, Sexp>, items: Seq<Sexp>, d1: nat, d2: nat)
    requires
        d1 <= d2,
        !ran_out(eval_call_spec(env, items, d1).result),
    ensures
        eval_call_spec(env, items, d2) == eval_call_spec(env, items, d1),
    decreases d1, 2nat, 0nat,
{
    let op = resolve_operator(env, items[0], d1);
    lemma_operator_depth(env, items[0], d1, d2);
    match op.result {
        Ok(f) => {
            let callee = func_literal(f)->Some_0;
            if callee.params.len() == items.len() - 1 {
                let args = eval_args(op.env, items.drop_first(), d1);
                lemma_args_depth(op.env, items.drop_first(), d1, d2);
                match args.result {
                    Ok(values) => {
                        let frame = crate::semantics::bind_params(
                            crate::semantics::bind_self(args.env, callee.name, f),
                            callee.params,
                            values,
                        );
                        lemma_nested_depth(frame, callee.body, d1, d2);
                    },
                    Err(_) => {},
                }
            }
        },
        Err(_) => {},
    }
}

/// An evaluation that does not run out of depth has the same outcome, result
/// and environment, under every larger limit on nesting.
pub proof fn lemma_eval_depth(env: Map<Seq<char>, Sexp>, e: Sexp, d1: nat, d2: nat)
    requires
        d1 <= d2,
        !ran_out(eval_spec(env, e, d1).result),
    ensures
        eval_spec(env, e, d2) == eval_spec(env, e, d1),
    decreases d1, 3nat, 0nat,
{
    match e {
        Sexp::List(items) => {
            if items.len() == 0 {
            } else if is_symbol("quote"@, items[0]) {
            } else if is_symbol("atom"@, items[0]) {
                lemma_atom_depth(env, items, d1, d2);
            } else if is_symbol("eq"@, items[0]) {
                lemma_eq_depth(env, items, d1, d2);
            } else if is_symbol("first"@, items[0]) || is_symbol("car"@, items[0]) {
                lemma_first_depth(env, items, d1, d2);
            } else if is_symbol("rest"@, items[0]) || is_symbol("cdr"@, items[0]) {
                lemma_rest_depth(env, items, d1, d2);
            } else if is_symbol("cons"@, items[0]) {
                lemma_cons_depth(env, items, d1, d2);
            } else if is_symbol("cond"@, items[0]) {
                lemma_clauses_depth(env, items.drop_first(), d1, d2);
            } else if is_symbol("defun"@, items[0]) {
            } else {
                lemma_call_depth(env, items, d1, d2);
            }
        },
        _ => {},
    }
}

} // verus!
