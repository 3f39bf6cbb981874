//! Writing an expression out and reading the text back gives the expression.

use crate::expr::{render_items, Sexp};
use crate::grammar::{
    is_close, is_open, is_quote, is_special, is_symbol_char, is_whitespace, lemma_symbol_run,
    parse_expr, parse_items, read_all, read_spec, tokens, ParseError, Parsed, ParsedItems,
};
use vstd::prelude::*;

verus! {

/// Whether `text` is read as one atom: it is not empty and consists of symbol
/// characters.
pub open spec fn is_symbol_text(text: Seq<char>) -> bool {
    text.len() > 0 && forall|i: int| 0 <= i < text.len() ==> is_symbol_char(#[trigger] text[i])
}

/// Whether `e` is built from lists and from atoms that are read as atoms: no
/// `Nil` occurs in it, and no atom whose text is empty or holds white space,
/// a delimiter or a quote mark.
pub open spec fn is_readable(e: Sexp) -> bool
    decreases e,
{
    match e {
        Sexp::Nil => false,
        Sexp::Atom(text) => is_symbol_text(text),
        Sexp::List(items) => forall|i: int|
            0 <= i < items.len() ==> is_readable(#[trigger] items[i]),
    }
}

/// The tokens of the text of `e`.
pub open spec fn expr_tokens(e: Sexp) -> Seq<Seq<char>>
    decreases e,
{
    match e {
        Sexp::Nil => Seq::empty(),
        Sexp::Atom(text) => seq![text],
        Sexp::List(items) => seq![seq!['(']] + items_tokens(items) + seq![seq![')']],
    }
}

/// The tokens of the texts of `items`, one after the other.
pub open spec fn items_tokens(items: Seq<Sexp>) -> Seq<Seq<char>>
    decreases items,
{
    if items.len() == 0 {
        Seq::empty()
    } else {
        expr_tokens(items[0]) + items_tokens(items.drop_first())
    }
}

proof fn lemma_items_tokens_last(items: Seq<Sexp>)
    requires
        items.len() > 0,
    ensures
        items_tokens(items) == items_tokens(items.drop_last()) + expr_tokens(items.last()),
    decreases items.len(),
{
    if items.len() == 1 {
        assert(items.drop_last() =~= Seq::<Sexp>::empty());
        assert(items.drop_first().len() == 0);
        assert(items_tokens(items.drop_first()) =~= Seq::<Seq<char>>::empty());
        assert(items.drop_last().len() == 0);
        assert(items_tokens(items.drop_last()) =~= Seq::<Seq<char>>::empty());
        assert(items_tokens(items) =~= expr_tokens(items[0]));
        assert(items_tokens(items.drop_last()) + expr_tokens(items.last()) =~= expr_tokens(
            items[0],
        ));
    } else {
        let mid = items.drop_first();
        lemma_items_tokens_last(mid);
        assert(mid.drop_last() =~= items.drop_last().drop_first());
        assert(mid.last() == items.last());
        assert(items.drop_last()[0] == items[0]);
        assert(items_tokens(items) =~= expr_tokens(items[0]) + (items_tokens(mid.drop_last())
            + expr_tokens(items.last())));
        assert(items_tokens(items.drop_last()) =~= expr_tokens(items[0]) + items_tokens(
            mid.drop_last(),
        ));
        assert(items_tokens(items) =~= items_tokens(items.drop_last()) + expr_tokens(
            items.last(),
        ));
    }
}

proof fn lemma_tokens_space(c: char, tail: Seq<char>)
    requires
        is_whitespace(c),
    ensures
        tokens(seq![c] + tail) == tokens(tail),
{
    let s = seq![c] + tail;
    assert(s[0] == c);
    assert(s.drop_first() =~= tail);
}

proof fn lemma_tokens_special(c: char, tail: Seq<char>)
    requires
        is_special(c),
    ensures
        tokens(seq![c] + tail) == seq![seq![c]] + tokens(tail),
{
    let s = seq![c] + tail;
    assert(s[0] == c);
    assert(s.drop_first() =~= tail);
}

proof fn lemma_tokens_symbol(text: Seq<char>, tail: Seq<char>)
    requires
        is_symbol_text(text),
        tail.len() == 0 || !is_symbol_char(tail[0]),
    ensures
        tokens(text + tail) == seq![text] + tokens(tail),
{
    let s = text + tail;
    let n = text.len() as int;
    assert forall|m: int| 0 <= m < n implies is_symbol_char(#[trigger] s[m]) by {
        assert(s[m] == text[m]);
    }
    if tail.len() > 0 {
        assert(s[n] == tail[0]);
    }
    lemma_symbol_run(s, n);
    assert(s.take(n) =~= text);
    assert(s.skip(n) =~= tail);
    assert(is_symbol_char(s[0]));
}

proof fn lemma_tokens_of_render(e: Sexp, tail: Seq<char>)
    requires
        is_readable(e),
        tail.len() == 0 || !is_symbol_char(tail[0]),
    ensures
        tokens(e.render() + tail) == expr_tokens(e) + tokens(tail),
    decreases e,
{
    match e {
        Sexp::Nil => {},
        Sexp::Atom(text) => {
            lemma_tokens_symbol(text, tail);
        },
        Sexp::List(items) => {
            let closing = seq![')'] + tail;
            let inner = render_items(items) + closing;
            assert(e.render() + tail =~= seq!['('] + inner);
            lemma_tokens_special('(', inner);
            assert(closing[0] == ')');
            lemma_tokens_of_items(items, closing);
            lemma_tokens_special(')', tail);
            assert(seq![seq!['(']] + (items_tokens(items) + (seq![seq![')']] + tokens(tail)))
                =~= expr_tokens(e) + tokens(tail));
        },
    }
}

proof fn lemma_tokens_of_items(items: Seq<Sexp>, tail: Seq<char>)
    requires
        forall|i: int| 0 <= i < items.len() ==> is_readable(#[trigger] items[i]),
        tail.len() == 0 || !is_symbol_char(tail[0]),
    ensures
        tokens(render_items(items) + tail) == items_tokens(items) + tokens(tail),
    decreases items,
{
    if items.len() == 0 {
        assert(render_items(items) + tail =~= tail);
        assert(items_tokens(items) + tokens(tail) =~= tokens(tail));
    } else if items.len() == 1 {
        lemma_tokens_of_render(items[0], tail);
        lemma_items_tokens_last(items);
        assert(items.drop_last() =~= Seq::<Sexp>::empty());
        assert(items_tokens(items) =~= expr_tokens(items[0]));
    } else {
        let init = items.drop_last();
        let last = items.last();
        let after_space = last.render() + tail;
        let tail2 = seq![' '] + after_space;
        assert(render_items(items) + tail =~= render_items(init) + tail2);
        assert(tail2[0] == ' ');
        assert forall|i: int| 0 <= i < init.len() implies is_readable(#[trigger] init[i]) by {
            assert(init[i] == items[i]);
        }
        lemma_tokens_of_items(init, tail2);
        lemma_tokens_space(' ', after_space);
        lemma_tokens_of_render(last, tail);
        lemma_items_tokens_last(items);
        assert(items_tokens(init) + (expr_tokens(last) + tokens(tail)) =~= items_tokens(items)
            + tokens(tail));
    }
}

/// The text of a readable expression starts with a token that is no closing
/// delimiter.
proof fn lemma_expr_tokens_start(e: Sexp)
    requires
        is_readable(e),
    ensures
        expr_tokens(e).len() > 0,
        !is_close(expr_tokens(e)[0]),
{
    match e {
        Sexp::Nil => {},
        Sexp::Atom(text) => {
            assert(is_symbol_char(text[0]));
        },
        Sexp::List(items) => {
            assert(expr_tokens(e)[0] == seq!['(']);
        },
    }
}

proof fn lemma_parse_of_tokens(e: Sexp, rest: Seq<Seq<char>>)
    requires
        is_readable(e),
    ensures
        parse_expr(expr_tokens(e) + rest) == (Parsed { result: Ok(e), rest }),
    decreases e,
{
    let ts = expr_tokens(e) + rest;
    match e {
        Sexp::Nil => {},
        Sexp::Atom(text) => {
            assert(ts[0] == text);
            assert(is_symbol_char(text[0]));
            assert(ts.drop_first() =~= rest);
        },
        Sexp::List(items) => {
            assert(ts[0] == seq!['(']);
            assert(is_open(ts[0]));
            assert(ts.drop_first() =~= items_tokens(items) + (seq![seq![')']] + rest));
            lemma_parse_of_items(items, rest);
        },
    }
}

proof fn lemma_parse_of_items(items: Seq<Sexp>, rest: Seq<Seq<char>>)
    requires
        forall|i: int| 0 <= i < items.len() ==> is_readable(#[trigger] items[i]),
    ensures
        parse_items(items_tokens(items) + (seq![seq![')']] + rest)) == (ParsedItems {
            result: Ok(items),
            rest,
        }),
    decreases items,
{
    let closing = seq![seq![')']] + rest;
    let ts = items_tokens(items) + closing;
    if items.len() == 0 {
        assert(ts =~= closing);
        assert(ts[0] == seq![')']);
        assert(is_close(ts[0]));
        assert(ts.drop_first() =~= rest);
        assert(items =~= Seq::<Sexp>::empty());
    } else {
        let first = items[0];
        let others = items.drop_first();
        let after = items_tokens(others) + closing;
        assert(ts =~= expr_tokens(first) + after);
        lemma_expr_tokens_start(first);
        assert(ts[0] == expr_tokens(first)[0]);
        lemma_parse_of_tokens(first, after);
        assert forall|i: int| 0 <= i < others.len() implies is_readable(#[trigger] others[i]) by {
            assert(others[i] == items[i + 1]);
        }
        lemma_parse_of_items(others, rest);
        assert(after.len() < ts.len());
        assert(seq![first] + others =~= items);
    }
}

/// Round trip: the text of an expression that is built from lists and
/// readable atoms is read back as that one expression.
pub proof fn lemma_read_render(e: Sexp)
    requires
        is_readable(e),
    ensures
        read_spec(e.render()) == Ok::<Seq<Sexp>, ParseError>(seq![e]),
{
    let none = Seq::<char>::empty();
    let no_tokens = Seq::<Seq<char>>::empty();
    lemma_tokens_of_render(e, none);
    assert(e.render() + none =~= e.render());
    assert(tokens(none) =~= no_tokens);
    assert(expr_tokens(e) + no_tokens =~= expr_tokens(e));
    let ts = tokens(e.render());
    assert(ts == expr_tokens(e));
    lemma_expr_tokens_start(e);
    lemma_parse_of_tokens(e, no_tokens);
    assert(read_all(no_tokens, true) == Ok::<Seq<Sexp>, ParseError>(Seq::empty()));
    assert(seq![e] + Seq::<Sexp>::empty() =~= seq![e]);
}

} // verus!
