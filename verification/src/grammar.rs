//! The textual form of expressions: how text falls into tokens, and which
//! expressions a sequence of tokens stands for.

use crate::expr::Sexp;
use vstd::prelude::*;

verus! {

/// Why a text could not be read.
#[derive(Debug, Clone, Copy, PartialEq, Eq, Structural)]
pub enum ParseError {
    /// The tokens ended where an expression was expected: a list was left
    /// open, or a quote mark had nothing after it.
    UnexpectedEnd,
    /// A closing delimiter stood where an expression was expected.
    UnexpectedListEnd,
    /// A closing delimiter followed a complete expression outside any list.
    LeftoverTokens,
}

impl ParseError {
    /// The words in which the error is reported.
    pub open spec fn message_text(self) -> Seq<char> {
        match self {
            ParseError::UnexpectedEnd => "Unexpected end of token stream"@,
            ParseError::UnexpectedListEnd => "Unexpected list end token"@,
            ParseError::LeftoverTokens => "Tokens left over, so parse was unsuccessful."@,
        }
    }

    /// The words in which the error is reported.
    pub fn message(&self) -> (r: &'static str)
        ensures
            r@ == self.message_text(),
    {
        match self {
            ParseError::UnexpectedEnd => "Unexpected end of token stream",
            ParseError::UnexpectedListEnd => "Unexpected list end token",
            ParseError::LeftoverTokens => "Tokens left over, so parse was unsuccessful.",
        }
    }
}

/// Whether `c` is white space: the characters that Unicode gives the property
/// `White_Space`.
pub open spec fn is_whitespace(c: char) -> bool {
    let n = c as u32;
    ||| 0x09 <= n <= 0x0D
    ||| n == 0x20
    ||| n == 0x85
    ||| n == 0xA0
    ||| n == 0x1680
    ||| 0x2000 <= n <= 0x200A
    ||| n == 0x2028
    ||| n == 0x2029
    ||| n == 0x202F
    ||| n == 0x205F
    ||| n == 0x3000
}

/// Whether `c` opens a list. The three styles of bracket mean the same.
pub open spec fn is_open_char(c: char) -> bool {
    c == '(' || c == '[' || c == '{'
}

/// Whether `c` closes a list. It need not be of the style that opened it.
pub open spec fn is_close_char(c: char) -> bool {
    c == ')' || c == ']' || c == '}'
}

/// Whether `c` is the quote mark.
pub open spec fn is_quote_char(c: char) -> bool {
    c == '\''
}

/// Whether `c` is a token by itself.
pub open spec fn is_special(c: char) -> bool {
    is_open_char(c) || is_close_char(c) || is_quote_char(c)
}

/// Whether `c` can be part of a symbol.
pub open spec fn is_symbol_char(c: char) -> bool {
    !is_whitespace(c) && !is_special(c)
}

/// The length of the longest prefix of `s` that consists of symbol
/// characters.
pub open spec fn symbol_len(s: Seq<char>) -> nat
    decreases s.len(),
{
    if s.len() == 0 || !is_symbol_char(s[0]) {
        0
    } else {
        1 + symbol_len(s.drop_first())
    }
}

/// The run of symbol characters at the start of a text lies within it.
pub proof fn lemma_symbol_len_bound(s: Seq<char>)
    ensures
        symbol_len(s) <= s.len(),
    decreases s.len(),
{
    if s.len() > 0 && is_symbol_char(s[0]) {
        lemma_symbol_len_bound(s.drop_first());
    }
}

/// A run of symbol characters that ends at the end of the text, or before a
/// character that is none, is the longest.
pub proof fn lemma_symbol_run(s: Seq<char>, k: int)
    requires
        0 <= k <= s.len(),
        forall|m: int| 0 <= m < k ==> is_symbol_char(#[trigger] s[m]),
        k == s.len() || !is_symbol_char(s[k]),
    ensures
        symbol_len(s) == k,
    decreases k,
{
    if k > 0 {
        let t = s.drop_first();
        assert forall|m: int| 0 <= m < k - 1 implies is_symbol_char(#[trigger] t[m]) by {
            assert(t[m] == s[m + 1]);
        }
        lemma_symbol_run(t, k - 1);
    }
}

/// The tokens of a text: white space separates tokens and is dropped, each
/// delimiter and quote mark is a token, and so is each longest run of other
/// characters.
pub open spec fn tokens(s: Seq<char>) -> Seq<Seq<char>>
    decreases s.len(),
    via tokens_decreases
{
    if s.len() == 0 {
        Seq::empty()
    } else if is_whitespace(s[0]) {
        tokens(s.drop_first())
    } else if is_special(s[0]) {
        seq![seq![s[0]]] + tokens(s.drop_first())
    } else {
        let n = symbol_len(s);
        seq![s.take(n as int)] + tokens(s.skip(n as int))
    }
}

#[via_fn]
proof fn tokens_decreases(s: Seq<char>) {
    lemma_symbol_len_bound(s);
}

/// Whether `token` is what a text can have as a token: a delimiter or quote
/// mark by itself, or one or more symbol characters.
pub open spec fn is_token(token: Seq<char>) -> bool {
    ||| token.len() == 1 && is_special(token[0])
    ||| token.len() > 0 && forall|i: int|
        0 <= i < token.len() ==> is_symbol_char(#[trigger] token[i])
}

/// The run of symbol characters at the start of a text holds nothing else.
pub proof fn lemma_symbol_len_chars(s: Seq<char>)
    ensures
        forall|m: int| 0 <= m < symbol_len(s) ==> is_symbol_char(#[trigger] s[m]),
    decreases s.len(),
{
    if s.len() > 0 && is_symbol_char(s[0]) {
        let t = s.drop_first();
        lemma_symbol_len_chars(t);
        lemma_symbol_len_bound(s);
        assert forall|m: int| 0 <= m < symbol_len(s) implies is_symbol_char(#[trigger] s[m]) by {
            if m > 0 {
                assert(s[m] == t[m - 1]);
            }
        }
    }
}

/// No token of a text is empty or holds white space, and a delimiter or
/// quote mark is always a token by itself.
pub proof fn lemma_tokens_shape(s: Seq<char>)
    ensures
        forall|i: int| 0 <= i < tokens(s).len() ==> is_token(#[trigger] tokens(s)[i]),
    decreases s.len(),
{
    if s.len() == 0 {
    } else if is_whitespace(s[0]) {
        lemma_tokens_shape(s.drop_first());
    } else if is_special(s[0]) {
        lemma_tokens_shape(s.drop_first());
        let head = seq![s[0]];
        assert(is_token(head));
        assert forall|i: int| 0 <= i < tokens(s).len() implies is_token(
            #[trigger] tokens(s)[i],
        ) by {
            if i > 0 {
                assert(tokens(s)[i] == tokens(s.drop_first())[i - 1]);
            }
        }
    } else {
        let n = symbol_len(s) as int;
        lemma_symbol_len_bound(s);
        lemma_symbol_len_chars(s);
        lemma_tokens_shape(s.skip(n));
        let head = s.take(n);
        assert(is_token(head)) by {
            assert forall|i: int| 0 <= i < head.len() implies is_symbol_char(
                #[trigger] head[i],
            ) by {
                assert(head[i] == s[i]);
            }
        }
        assert forall|i: int| 0 <= i < tokens(s).len() implies is_token(
            #[trigger] tokens(s)[i],
        ) by {
            if i > 0 {
                assert(tokens(s)[i] == tokens(s.skip(n))[i - 1]);
            }
        }
    }
}

/// Whether `token` opens a list.
pub open spec fn is_open(token: Seq<char>) -> bool {
    token.len() == 1 && is_open_char(token[0])
}

/// Whether `token` closes a list.
pub open spec fn is_close(token: Seq<char>) -> bool {
    token.len() == 1 && is_close_char(token[0])
}

/// Whether `token` is the quote mark.
pub open spec fn is_quote(token: Seq<char>) -> bool {
    token.len() == 1 && is_quote_char(token[0])
}

/// What reading one expression leaves behind: the expression or the error,
/// and the tokens that were not used.
pub struct Parsed {
    pub result: Result<Sexp, ParseError>,
    pub rest: Seq<Seq<char>>,
}

/// What reading the elements of a list leaves behind.
pub struct ParsedItems {
    pub result: Result<Seq<Sexp>, ParseError>,
    pub rest: Seq<Seq<char>>,
}

/// The form `(quote e)`.
pub open spec fn quote_form(e: Sexp) -> Sexp {
    Sexp::List(seq![Sexp::Atom("quote"@), e])
}

/// The expression at the start of `ts`. An opening delimiter starts a list,
/// which runs to the closing delimiter that belongs to it; a quote mark
/// before an expression `e` stands for `(quote e)`; any other token but a
/// closing delimiter is an atom.
pub open spec fn parse_expr(ts: Seq<Seq<char>>) -> Parsed
    decreases ts.len(), 0nat,
{
    if ts.len() == 0 {
        Parsed { result: Err(ParseError::UnexpectedEnd), rest: ts }
    } else if is_open(ts[0]) {
        let items = parse_items(ts.drop_first());
        match items.result {
            Ok(l) => Parsed { result: Ok(Sexp::List(l)), rest: items.rest },
            Err(e) => Parsed { result: Err(e), rest: items.rest },
        }
    } else if is_close(ts[0]) {
        Parsed { result: Err(ParseError::UnexpectedListEnd), rest: ts.drop_first() }
    } else if is_quote(ts[0]) {
        let quoted = parse_expr(ts.drop_first());
        match quoted.result {
            Ok(e) => Parsed { result: Ok(quote_form(e)), rest: quoted.rest },
            Err(_) => quoted,
        }
    } else {
        Parsed { result: Ok(Sexp::Atom(ts[0])), rest: ts.drop_first() }
    }
}

/// The elements of a list whose opening delimiter has been read: the
/// expressions up to the closing delimiter, which is used up too.
pub open spec fn parse_items(ts: Seq<Seq<char>>) -> ParsedItems
    decreases ts.len(), 1nat,
{
    if ts.len() > 0 && is_close(ts[0]) {
        ParsedItems { result: Ok(Seq::empty()), rest: ts.drop_first() }
    } else {
        let first = parse_expr(ts);
        match first.result {
            Ok(e) => if first.rest.len() < ts.len() {
                let others = parse_items(first.rest);
                match others.result {
                    Ok(l) => ParsedItems { result: Ok(seq![e] + l), rest: others.rest },
                    Err(_) => others,
                }
            } else {
                ParsedItems { result: Err(ParseError::UnexpectedEnd), rest: first.rest }
            },
            Err(x) => ParsedItems { result: Err(x), rest: first.rest },
        }
    }
}

/// Reading an expression uses up at least one token, and reading never
/// makes tokens.
pub proof fn lemma_parse_consumes(ts: Seq<Seq<char>>)
    ensures
        parse_expr(ts).rest.len() <= ts.len(),
        parse_expr(ts).result is Ok ==> parse_expr(ts).rest.len() < ts.len(),
        parse_items(ts).rest.len() <= ts.len(),
        parse_items(ts).result is Ok ==> parse_items(ts).rest.len() < ts.len(),
    decreases ts.len(), 1nat,
{
    lemma_parse_expr_consumes(ts);
    if ts.len() > 0 && is_close(ts[0]) {
    } else {
        let first = parse_expr(ts);
        if first.result is Ok {
            lemma_parse_consumes(first.rest);
        }
    }
}

proof fn lemma_parse_expr_consumes(ts: Seq<Seq<char>>)
    ensures
        parse_expr(ts).rest.len() <= ts.len(),
        parse_expr(ts).result is Ok ==> parse_expr(ts).rest.len() < ts.len(),
    decreases ts.len(), 0nat,
{
    if ts.len() == 0 {
    } else if is_open(ts[0]) {
        lemma_parse_consumes(ts.drop_first());
    } else if is_close(ts[0]) {
    } else if is_quote(ts[0]) {
        lemma_parse_expr_consumes(ts.drop_first());
    }
}

/// Reading never gives `Nil`, at any depth: `Nil` is not something that a
/// text can say.
pub proof fn lemma_parse_nil_free(ts: Seq<Seq<char>>)
    ensures
        parse_expr(ts).result is Ok ==> parse_expr(ts).result->Ok_0.is_nil_free(),
        parse_items(ts).result is Ok ==> forall|i: int|
            0 <= i < parse_items(ts).result->Ok_0.len() ==> (
            #[trigger] parse_items(ts).result->Ok_0[i]).is_nil_free(),
    decreases ts.len(), 1nat,
{
    lemma_parse_expr_nil_free(ts);
    if ts.len() > 0 && is_close(ts[0]) {
    } else {
        let first = parse_expr(ts);
        if first.result is Ok && first.rest.len() < ts.len() {
            lemma_parse_nil_free(first.rest);
            let others = parse_items(first.rest);
            if others.result is Ok {
                let all = seq![first.result->Ok_0] + others.result->Ok_0;
                assert forall|i: int| 0 <= i < all.len() implies (#[trigger] all[i]).is_nil_free() by {
                    if i > 0 {
                        assert(all[i] == others.result->Ok_0[i - 1]);
                    }
                }
            }
        }
    }
}

proof fn lemma_parse_expr_nil_free(ts: Seq<Seq<char>>)
    ensures
        parse_expr(ts).result is Ok ==> parse_expr(ts).result->Ok_0.is_nil_free(),
    decreases ts.len(), 0nat,
{
    if ts.len() == 0 {
    } else if is_open(ts[0]) {
        lemma_parse_nil_free(ts.drop_first());
    } else if is_close(ts[0]) {
    } else if is_quote(ts[0]) {
        lemma_parse_expr_nil_free(ts.drop_first());
        let quoted = parse_expr(ts.drop_first());
        if quoted.result is Ok {
            let items = seq![Sexp::Atom("quote"@), quoted.result->Ok_0];
            assert forall|i: int| 0 <= i < items.len() implies (#[trigger] items[i]).is_nil_free() by {
            }
        }
    }
}

/// The expressions that `ts` holds one after the other. Outside any list a
/// closing delimiter is an error: one that stands where an expression may
/// start when none has been read yet (`after_one` is false), another when
/// it follows a complete expression.
pub open spec fn read_all(ts: Seq<Seq<char>>, after_one: bool) -> Result<Seq<Sexp>, ParseError>
    decreases ts.len(),
{
    if ts.len() == 0 {
        Ok(Seq::empty())
    } else if after_one && is_close(ts[0]) {
        Err(ParseError::LeftoverTokens)
    } else {
        let first = parse_expr(ts);
        match first.result {
            Ok(e) => if first.rest.len() < ts.len() {
                match read_all(first.rest, true) {
                    Ok(l) => Ok(seq![e] + l),
                    Err(x) => Err(x),
                }
            } else {
                Err(ParseError::UnexpectedEnd)
            },
            Err(x) => Err(x),
        }
    }
}

/// The expressions that the text `s` holds.
pub open spec fn read_spec(s: Seq<char>) -> Result<Seq<Sexp>, ParseError> {
    read_all(tokens(s), false)
}

/// No expression that is read off a sequence of tokens holds `Nil`.
pub proof fn lemma_read_nil_free(ts: Seq<Seq<char>>, after_one: bool)
    ensures
        read_all(ts, after_one) is Ok ==> forall|i: int|
            0 <= i < read_all(ts, after_one)->Ok_0.len() ==> (#[trigger] read_all(
                ts,
                after_one,
            )->Ok_0[i]).is_nil_free(),
    decreases ts.len(),
{
    if ts.len() == 0 {
    } else if after_one && is_close(ts[0]) {
    } else {
        let first = parse_expr(ts);
        lemma_parse_nil_free(ts);
        if first.result is Ok && first.rest.len() < ts.len() {
            lemma_read_nil_free(first.rest, true);
            let others = read_all(first.rest, true);
            if others is Ok {
                let all = seq![first.result->Ok_0] + others->Ok_0;
                assert forall|i: int| 0 <= i < all.len() implies (#[trigger] all[i]).is_nil_free() by {
                    if i > 0 {
                        assert(all[i] == others->Ok_0[i - 1]);
                    }
                }
            }
        }
    }
}

} // verus!
