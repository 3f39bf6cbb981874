//! Running a program: reading a text and evaluating the expressions that it
//! holds, one after the other, against one environment.

use crate::env::Env;
use crate::eval::{eval_bounded, MAX_DEPTH};
use crate::expr::{texts, views, Expression, Sexp};
use crate::grammar::{read_spec, ParseError};
use crate::read::read;
use crate::semantics::{eval_spec, EvalError};
use vstd::prelude::*;

verus! {

/// What running a program leaves behind: the lines to show, and the
/// environment after it.
pub struct Session {
    pub lines: Seq<Seq<char>>,
    pub env: Map<Seq<char>, Sexp>,
}

/// The line that reports a failed evaluation.
pub open spec fn error_line(e: EvalError) -> Seq<char> {
    "\nError: "@ + e.message_text()
}

/// The line that reports a text that could not be read.
pub open spec fn parse_error_line(e: ParseError) -> Seq<char> {
    "\nParse error: "@ + e.message_text()
}

/// The line that shows the result of an evaluation: the text of a value,
/// the report of an error, and nothing for `Nil`.
pub open spec fn report(result: Result<Sexp, EvalError>) -> Option<Seq<char>> {
    match result {
        Ok(Sexp::Nil) => None,
        Ok(v) => Some(v.render()),
        Err(e) => Some(error_line(e)),
    }
}

/// `lines`, and after them the line that shows `result`, if there is one.
pub open spec fn with_report(lines: Seq<Seq<char>>, result: Result<Sexp, EvalError>) -> Seq<
    Seq<char>,
> {
    match report(result) {
        Some(line) => lines.push(line),
        None => lines,
    }
}

/// The expressions of a program, evaluated in order, each in the
/// environment that the one before it left. A failed evaluation is reported
/// and the program goes on.
pub open spec fn run(env: Map<Seq<char>, Sexp>, program: Seq<Sexp>, depth: nat) -> Session
    decreases program.len(),
{
    if program.len() == 0 {
        Session { lines: Seq::empty(), env }
    } else {
        let before = run(env, program.drop_last(), depth);
        let last = eval_spec(before.env, program.last(), depth);
        Session { lines: with_report(before.lines, last.result), env: last.env }
    }
}

/// What reading and running the text `s` in `env` leaves behind. A text that
/// cannot be read is reported, and nothing of it is evaluated.
pub open spec fn read_eval_spec(s: Seq<char>, env: Map<Seq<char>, Sexp>) -> Session {
    match read_spec(s) {
        Ok(program) => run(env, program, MAX_DEPTH as nat),
        Err(e) => Session { lines: seq![parse_error_line(e)], env },
    }
}

/// Reads the text `s` and evaluates the expressions that it holds in `env`.
/// Returns the lines to show, in order.
pub fn read_eval(s: String, env: &mut Env) -> (lines: Vec<String>)
    ensures
        texts(lines@) == read_eval_spec(s@, old(env)@).lines,
        final(env)@ == read_eval_spec(s@, old(env)@).env,
{
    let mut lines: Vec<String> = Vec::new();
    match read(s.as_str()) {
        Err(e) => {
            let mut line = "\nParse error: ".to_owned();
            line.append(e.message());
            lines.push(line);
            assert(texts(lines@) =~= seq![parse_error_line(e)]);
        },
        Ok(parsed) => {
            let ghost env0 = env@;
            let ghost program = views(parsed@);
            let mut i: usize = 0;
            assert(program.take(0) =~= Seq::<Sexp>::empty());
            assert(texts(lines@) =~= Seq::<Seq<char>>::empty());
            while i < parsed.len()
                invariant
                    i <= parsed.len(),
                    program == views(parsed@),
                    run(env0, program.take(i as int), MAX_DEPTH as nat) == (Session {
                        lines: texts(lines@),
                        env: env@,
                    }),
                decreases parsed.len() - i,
            {
                assert(program.take(i + 1).drop_last() =~= program.take(i as int));
                assert(program.take(i + 1).last() == parsed[i as int]@);
                let ghost shown = texts(lines@);
                match eval_bounded(env, &parsed[i], MAX_DEPTH) {
                    Ok(Expression::Nil) => {},
                    Ok(value) => {
                        lines.push(value.render());
                        assert(texts(lines@) =~= shown.push(value@.render()));
                    },
                    Err(e) => {
                        let mut line = "\nError: ".to_owned();
                        line.append(e.message());
                        lines.push(line);
                        assert(texts(lines@) =~= shown.push(error_line(e)));
                    },
                }
                i += 1;
            }
            assert(program.take(i as int) =~= program);
        },
    }
    lines
}

} // verus!
