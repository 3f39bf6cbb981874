//! The reader: from text to tokens, and from tokens to expressions.

use crate::expr::{lemma_view_list, lemma_views_push, texts, views, Expression, Sexp};
use crate::grammar;
use crate::grammar::{ParseError, ParsedItems};
use crate::text::{byte_offset, chars_of, lemma_byte_offset_step, slice_chars, utf8_len};
use vstd::prelude::*;
use vstd::string::StringSliceAdditionalSpecFns;
use vstd::utf8::encode_utf8;

verus! {

/// The tokens of a text that have not been read yet.
#[derive(Debug)]
pub struct TokenStream {
    tokens: Vec<String>,
    pos: usize,
}

impl View for TokenStream {
    type V = Seq<Seq<char>>;

    /// The tokens that are left, in order.
    closed spec fn view(&self) -> Seq<Seq<char>> {
        texts(self.tokens@).skip(self.pos as int)
    }
}

impl TokenStream {
    #[verifier::type_invariant]
    spec fn well_formed(&self) -> bool {
        self.pos <= self.tokens.len()
    }

    /// Whether no token is left.
    pub fn is_empty(&self) -> (r: bool)
        ensures
            r == (self@.len() == 0),
    {
        proof {
            use_type_invariant(self);
        }
        self.pos >= self.tokens.len()
    }

    /// The next token, which stays in the stream.
    pub fn peek(&self) -> (r: Option<&String>)
        ensures
            match r {
                Some(token) => self@.len() > 0 && token@ == self@[0],
                None => self@.len() == 0,
            },
    {
        proof {
            use_type_invariant(self);
        }
        if self.pos < self.tokens.len() {
            Some(&self.tokens[self.pos])
        } else {
            None
        }
    }

    /// Takes the next token off the stream.
    pub fn next(&mut self) -> (r: Option<String>)
        ensures
            match r {
                Some(token) => {
                    &&& old(self)@.len() > 0
                    &&& token@ == old(self)@[0]
                    &&& final(self)@ == old(self)@.drop_first()
                },
                None => old(self)@.len() == 0 && final(self)@ == old(self)@,
            },
    {
        proof {
            use_type_invariant(&*self);
        }
        if self.pos < self.tokens.len() {
            let token = self.tokens[self.pos].clone();
            self.pos = self.pos + 1;
            assert(texts(self.tokens@).skip(self.pos as int) =~= texts(self.tokens@).skip(
                self.pos - 1,
            ).drop_first());
            Some(token)
        } else {
            None
        }
    }
}

/// Whether `c` is white space.
pub fn is_whitespace(c: char) -> (r: bool)
    ensures
        r == grammar::is_whitespace(c),
{
    let n: u32 = c as u32;
    (0x09 <= n && n <= 0x0D) || n == 0x20 || n == 0x85 || n == 0xA0 || n == 0x1680 || (0x2000 <= n
        && n <= 0x200A) || n == 0x2028 || n == 0x2029 || n == 0x202F || n == 0x205F || n == 0x3000
}

fn is_open_char(c: char) -> (r: bool)
    ensures
        r == grammar::is_open_char(c),
{
    c == '(' || c == '[' || c == '{'
}

fn is_close_char(c: char) -> (r: bool)
    ensures
        r == grammar::is_close_char(c),
{
    c == ')' || c == ']' || c == '}'
}

fn is_symbol_char(c: char) -> (r: bool)
    ensures
        r == grammar::is_symbol_char(c),
{
    !is_whitespace(c) && !is_open_char(c) && !is_close_char(c) && c != '\''
}

/// Turns a text into its tokens.
pub fn tokenize(s: &str) -> (r: TokenStream)
    ensures
        r@ == grammar::tokens(s@),
{
    let chars = chars_of(s);
    let n = chars.len();
    let total = s.as_bytes().len();
    let mut out: Vec<String> = Vec::new();
    let mut i: usize = 0;
    let mut at: usize = 0;
    assert(s@.skip(0) =~= s@);
    assert(s@.take(0) =~= Seq::<char>::empty());
    assert(texts(out@) + grammar::tokens(s@) =~= grammar::tokens(s@));
    while i < n
        invariant
            i <= n,
            n == s@.len(),
            chars@ == s@,
            total == encode_utf8(s@).len(),
            at == byte_offset(s@, i as int),
            grammar::tokens(s@) == texts(out@) + grammar::tokens(s@.skip(i as int)),
        decreases n - i,
    {
        let c = chars[i];
        let ghost rest = s@.skip(i as int);
        let ghost done = texts(out@);
        assert(rest[0] == c);
        proof {
            lemma_byte_offset_step(s@, i as int);
        }
        let after = at + utf8_len(c);
        if is_whitespace(c) {
            assert(rest.drop_first() =~= s@.skip(i + 1));
            i += 1;
            at = after;
        } else if !is_symbol_char(c) {
            assert(rest.drop_first() =~= s@.skip(i + 1));
            let token = slice_chars(s, Ghost(i as int), Ghost(i + 1), at, after).to_owned();
            assert(token@ =~= seq![c]);
            out.push(token);
            assert(texts(out@) =~= done.push(seq![c]));
            assert(done.push(seq![c]) + grammar::tokens(s@.skip(i + 1)) =~= done + (seq![seq![c]]
                + grammar::tokens(s@.skip(i + 1))));
            i += 1;
            at = after;
        } else {
            let mut j: usize = i + 1;
            let mut end: usize = after;
            while j < n && is_symbol_char(chars[j])
                invariant
                    i < j <= n,
                    n == s@.len(),
                    chars@ == s@,
                    total == encode_utf8(s@).len(),
                    end == byte_offset(s@, j as int),
                    forall|m: int| i <= m < j ==> grammar::is_symbol_char(#[trigger] s@[m]),
                decreases n - j,
            {
                proof {
                    lemma_byte_offset_step(s@, j as int);
                }
                end = end + utf8_len(chars[j]);
                j += 1;
            }
            proof {
                assert forall|m: int| 0 <= m < j - i implies grammar::is_symbol_char(
                    #[trigger] rest[m],
                ) by {
                    assert(rest[m] == s@[i + m]);
                }
                grammar::lemma_symbol_run(rest, j - i);
                assert(rest.skip(j - i) =~= s@.skip(j as int));
                assert(rest.take(j - i) =~= s@.subrange(i as int, j as int));
            }
            let token = slice_chars(s, Ghost(i as int), Ghost(j as int), at, end).to_owned();
            out.push(token);
            assert(texts(out@) =~= done.push(rest.take(j - i)));
            assert(done.push(rest.take(j - i)) + grammar::tokens(s@.skip(j as int)) =~= done + (
                seq![rest.take(j - i)] + grammar::tokens(s@.skip(j as int))));
            i = j;
            at = end;
        }
    }
    assert(texts(out@) + Seq::<Seq<char>>::empty() =~= texts(out@));
    let r = TokenStream { tokens: out, pos: 0 };
    assert(texts(out@).skip(0) =~= texts(out@));
    r
}

/// The character that `token` consists of, if it is a single one.
fn single_char(token: &String) -> (r: Option<char>)
    ensures
        match r {
            Some(c) => token@ == seq![c],
            None => token@.len() != 1,
        },
{
    let s = token.as_str();
    if s.unicode_len() == 1 {
        let c = s.get_char(0);
        assert(token@ =~= seq![c]);
        Some(c)
    } else {
        None
    }
}

/// Whether the next token closes a list.
fn is_end(v: &TokenStream) -> (r: bool)
    ensures
        r == (v@.len() > 0 && grammar::is_close(v@[0])),
{
    match v.peek() {
        Some(token) => is_ending_list_sep(token),
        None => false,
    }
}

fn is_beginning_list_sep(s: &String) -> (r: bool)
    ensures
        r == grammar::is_open(s@),
{
    match single_char(s) {
        Some(c) => is_open_char(c),
        None => false,
    }
}

fn is_ending_list_sep(s: &String) -> (r: bool)
    ensures
        r == grammar::is_close(s@),
{
    match single_char(s) {
        Some(c) => is_close_char(c),
        None => false,
    }
}

fn is_quote_mark(s: &String) -> (r: bool)
    ensures
        r == grammar::is_quote(s@),
{
    match single_char(s) {
        Some(c) => c == '\'',
        None => false,
    }
}

/// The value of a result of reading one expression.
pub open spec fn parsed_view(r: Result<Expression, ParseError>) -> Result<Sexp, ParseError> {
    match r {
        Ok(e) => Ok(e@),
        Err(x) => Err(x),
    }
}

/// The value of a result of reading a text.
pub open spec fn read_view(r: Result<Vec<Expression>, ParseError>) -> Result<
    Seq<Sexp>,
    ParseError,
> {
    match r {
        Ok(v) => Ok(views(v@)),
        Err(x) => Err(x),
    }
}

/// The elements `done`, followed by those that `p` holds.
pub open spec fn items_after(done: Seq<Sexp>, p: ParsedItems) -> ParsedItems {
    match p.result {
        Ok(l) => ParsedItems { result: Ok(done + l), rest: p.rest },
        Err(_) => p,
    }
}

/// Reads one expression off the stream. A quote mark before an expression
/// `e` is read as `(quote e)`.
#[verifier::loop_isolation(false)]
pub fn read_from(v: &mut TokenStream) -> (r: Result<Expression, ParseError>)
    ensures
        parsed_view(r) == grammar::parse_expr(old(v)@).result,
        final(v)@ == grammar::parse_expr(old(v)@).rest,
    decreases old(v)@.len(),
{
    broadcast use lemma_view_list;

    let ghost ts = v@;
    let token = match v.next() {
        None => {
            return Err(ParseError::UnexpectedEnd);
        },
        Some(token) => token,
    };
    if is_beginning_list_sep(&token) {
        let mut ch: Vec<Expression> = Vec::new();
        assert(views(ch@) =~= Seq::<Sexp>::empty());
        assert(items_after(views(ch@), grammar::parse_items(v@)).result is Ok ==> views(ch@)
            + grammar::parse_items(v@).result->Ok_0 =~= grammar::parse_items(v@).result->Ok_0);
        loop
            invariant
                v@.len() < ts.len(),
                grammar::parse_items(ts.drop_first()) == items_after(
                    views(ch@),
                    grammar::parse_items(v@),
                ),
            decreases v@.len(),
        {
            if is_end(v) {
                break ;
            }
            let ghost before = v@;
            let ghost done = views(ch@);
            proof {
                grammar::lemma_parse_consumes(before);
            }
            match read_from(v) {
                Err(e) => {
                    return Err(e);
                },
                Ok(expr) => {
                    proof {
                        lemma_views_push(ch@, expr);
                        let others = grammar::parse_items(v@);
                        if others.result is Ok {
                            assert(done + (seq![expr@] + others.result->Ok_0) =~= done.push(expr@)
                                + others.result->Ok_0);
                        }
                    }
                    ch.push(expr);
                },
            }
        }
        v.next();
        assert(views(ch@) + Seq::<Sexp>::empty() =~= views(ch@));
        Ok(Expression::List(ch))
    } else if is_ending_list_sep(&token) {
        Err(ParseError::UnexpectedListEnd)
    } else if is_quote_mark(&token) {
        match read_from(v) {
            Err(e) => Err(e),
            Ok(expr) => {
                let items = vec![Expression::symbol("quote"), expr];
                assert(views(items@) =~= seq![Sexp::Atom("quote"@), expr@]);
                Ok(Expression::List(items))
            },
        }
    } else {
        Ok(Expression::Atom(token))
    }
}

/// The expressions `done`, followed by those that `r` holds.
pub open spec fn read_after(done: Seq<Sexp>, r: Result<Seq<Sexp>, ParseError>) -> Result<
    Seq<Sexp>,
    ParseError,
> {
    match r {
        Ok(l) => Ok(done + l),
        Err(x) => Err(x),
    }
}

/// Reads a text into the expressions that it holds, one after the other.
#[verifier::loop_isolation(false)]
pub fn read(s: &str) -> (r: Result<Vec<Expression>, ParseError>)
    ensures
        read_view(r) == grammar::read_spec(s@),
{
    let mut stream = tokenize(s);
    let mut res: Vec<Expression> = Vec::new();
    assert(views(res@) =~= Seq::<Sexp>::empty());
    assert(grammar::read_all(stream@, false) is Ok ==> views(res@) + grammar::read_all(
        stream@,
        false,
    )->Ok_0 =~= grammar::read_all(stream@, false)->Ok_0);
    while !stream.is_empty()
        invariant
            grammar::read_spec(s@) == read_after(
                views(res@),
                grammar::read_all(stream@, res.len() > 0),
            ),
        decreases stream@.len(),
    {
        if res.len() > 0 && is_end(&stream) {
            return Err(ParseError::LeftoverTokens);
        }
        let ghost before = stream@;
        let ghost done = views(res@);
        proof {
            grammar::lemma_parse_consumes(before);
        }
        match read_from(&mut stream) {
            Err(e) => {
                return Err(e);
            },
            Ok(x) => {
                proof {
                    lemma_views_push(res@, x);
                    let others = grammar::read_all(stream@, true);
                    if others is Ok {
                        assert(done + (seq![x@] + others->Ok_0) =~= done.push(x@) + others->Ok_0);
                    }
                }
                res.push(x);
            },
        }
    }
    assert(views(res@) + Seq::<Sexp>::empty() =~= views(res@));
    Ok(res)
}

} // verus!
