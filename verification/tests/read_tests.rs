use radicle::expr::Expression;
use radicle::expr::Expression::{Atom, List};
use radicle::grammar::ParseError;
use radicle::read::{is_whitespace, read, read_from, tokenize};

fn sym(s: &str) -> Expression {
    Atom(s.to_string())
}

fn all_tokens(s: &str) -> Vec<String> {
    let mut stream = tokenize(s);
    let mut out = vec![];
    while let Some(t) = stream.next() {
        out.push(t);
    }
    out
}

#[test]
fn tokenize_splits_on_white_space_and_delimiters() {
    assert_eq!(all_tokens("(foo bar)"), vec!["(", "foo", "bar", ")"]);
    assert_eq!(all_tokens("  a\t\nb  "), vec!["a", "b"]);
    assert_eq!(all_tokens("'(a)"), vec!["'", "(", "a", ")"]);
    assert_eq!(all_tokens("[a]{b}"), vec!["[", "a", "]", "{", "b", "}"]);
    assert_eq!(all_tokens("a'b"), vec!["a", "'", "b"]);
    assert_eq!(all_tokens("x\u{a0}y\u{3000}z"), vec!["x", "y", "z"]);
    assert_eq!(all_tokens("caf\u{e9}(\u{8d8a})"), vec!["caf\u{e9}", "(", "\u{8d8a}", ")"]);
    assert!(all_tokens("").is_empty());
    assert!(all_tokens(" \n ").is_empty());
}

#[test]
fn white_space_is_what_std_calls_white_space() {
    let mut n: u32 = 0;
    while n <= 0x10FFFF {
        if let Some(c) = char::from_u32(n) {
            assert_eq!(is_whitespace(c), c.is_whitespace(), "code point {:#x}", n);
        }
        n += 1;
    }
}

#[test]
fn token_stream_peek_and_next() {
    let mut stream = tokenize("a )");
    assert!(!stream.is_empty());
    assert_eq!(stream.peek(), Some(&"a".to_string()));
    assert_eq!(stream.next(), Some("a".to_string()));
    assert_eq!(stream.peek(), Some(&")".to_string()));
    assert_eq!(stream.next(), Some(")".to_string()));
    assert!(stream.is_empty());
    assert_eq!(stream.peek(), None);
    assert_eq!(stream.next(), None);
}

#[test]
fn read_atoms_and_lists() {
    assert_eq!(read("foo"), Ok(vec![sym("foo")]));
    assert_eq!(read("()"), Ok(vec![List(vec![])]));
    assert_eq!(
        read("(a (b c) d)"),
        Ok(vec![List(vec![sym("a"), List(vec![sym("b"), sym("c")]), sym("d")])])
    );
    assert_eq!(read(""), Ok(vec![]));
}

#[test]
fn read_several_top_level_expressions() {
    assert_eq!(
        read("(quote x) (quote y) z"),
        Ok(vec![
            List(vec![sym("quote"), sym("x")]),
            List(vec![sym("quote"), sym("y")]),
            sym("z"),
        ])
    );
}

#[test]
fn read_mixed_bracket_styles() {
    let expected = Ok(vec![List(vec![sym("a"), List(vec![sym("b")])])]);
    assert_eq!(read("(a (b))"), expected);
    assert_eq!(read("[a {b}]"), expected);
    assert_eq!(read("(a [b})"), expected);
    assert_eq!(read("{a (b]]"), expected);
}

#[test]
fn read_expands_quote_mark() {
    assert_eq!(read("'a"), Ok(vec![List(vec![sym("quote"), sym("a")])]));
    assert_eq!(
        read("'(a b)"),
        Ok(vec![List(vec![sym("quote"), List(vec![sym("a"), sym("b")])])])
    );
    assert_eq!(
        read("(f ''x)"),
        Ok(vec![List(vec![
            sym("f"),
            List(vec![sym("quote"), List(vec![sym("quote"), sym("x")])]),
        ])])
    );
}

#[test]
fn read_reports_open_list() {
    assert_eq!(read("(a b"), Err(ParseError::UnexpectedEnd));
    assert_eq!(read("(a (b)"), Err(ParseError::UnexpectedEnd));
    assert_eq!(read("("), Err(ParseError::UnexpectedEnd));
    assert_eq!(read("'"), Err(ParseError::UnexpectedEnd));
}

#[test]
fn read_reports_unmatched_closing_delimiter() {
    assert_eq!(read(")"), Err(ParseError::UnexpectedListEnd));
    assert_eq!(read("') a"), Err(ParseError::UnexpectedListEnd));
    assert_eq!(read("(a ')"), Err(ParseError::UnexpectedListEnd));
}

#[test]
fn read_reports_leftover_tokens() {
    assert_eq!(read("(a))"), Err(ParseError::LeftoverTokens));
    assert_eq!(read("a ) b"), Err(ParseError::LeftoverTokens));
}

#[test]
fn read_from_takes_one_expression() {
    let mut stream = tokenize("(a b) c )");
    assert_eq!(read_from(&mut stream), Ok(List(vec![sym("a"), sym("b")])));
    assert_eq!(read_from(&mut stream), Ok(sym("c")));
    assert_eq!(read_from(&mut stream), Err(ParseError::UnexpectedListEnd));
    assert!(stream.is_empty());
    assert_eq!(read_from(&mut stream), Err(ParseError::UnexpectedEnd));
}

#[test]
fn parse_error_messages() {
    assert_eq!(ParseError::UnexpectedEnd.message(), "Unexpected end of token stream");
    assert_eq!(ParseError::UnexpectedListEnd.message(), "Unexpected list end token");
    assert_eq!(
        ParseError::LeftoverTokens.message(),
        "Tokens left over, so parse was unsuccessful."
    );
}

#[test]
fn read_a_long_text() {
    let mut text = String::from("(");
    let mut expected = vec![];
    let mut i = 0;
    while i < 50000 {
        text.push_str("\u{3bb}x\u{1f600} ");
        expected.push(sym("\u{3bb}x\u{1f600}"));
        text.push_str("'y\u{2003}");
        expected.push(List(vec![sym("quote"), sym("y")]));
        i += 1;
    }
    text.push(')');
    let read_back = read(&text).unwrap();
    assert_eq!(read_back, vec![List(expected)]);
    assert_eq!(read(&read_back[0].render()), Ok(read_back.clone()));
}
