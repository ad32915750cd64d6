use pg_retest::sql::lex::{tokenize, SqlLexer, TokenKind};

#[test]
fn empty_input_yields_no_tokens() {
    let mut lex = SqlLexer::new("");
    assert!(lex.next().is_none());
    assert_eq!(tokenize("").len(), 0);
}

fn kinds(sql: &str) -> Vec<TokenKind> {
    tokenize(sql).iter().map(|t| t.kind).collect()
}

fn texts(sql: &str) -> Vec<&str> {
    let src = sql;
    tokenize(src).into_iter().map(|t| &src[t.span]).collect()
}

#[test]
fn lex_whitespace() {
    assert_eq!(kinds("   \t\n "), vec![TokenKind::Whitespace]);
}

#[test]
fn lex_bare_identifier() {
    assert_eq!(kinds("foo"), vec![TokenKind::Ident]);
    assert_eq!(kinds("foo_bar"), vec![TokenKind::Ident]);
    assert_eq!(kinds("table3"), vec![TokenKind::Ident]);
}

#[test]
fn lex_punctuation() {
    assert_eq!(kinds("(),;=<>+*/%|&"), vec![TokenKind::Punct; 13]);
}

#[test]
fn lex_ident_then_ws_then_ident() {
    assert_eq!(
        kinds("foo bar"),
        vec![TokenKind::Ident, TokenKind::Whitespace, TokenKind::Ident]
    );
    assert_eq!(texts("foo bar"), vec!["foo", " ", "bar"]);
}

#[test]
fn lex_unicode_identifier() {
    // Non-ASCII letters are valid PG identifiers.
    let sql = "café";
    assert_eq!(kinds(sql), vec![TokenKind::Ident]);
}

#[test]
fn lex_single_quoted_string() {
    assert_eq!(kinds("'hello'"), vec![TokenKind::StringLiteral]);
    assert_eq!(texts("'hello'"), vec!["'hello'"]);
}

#[test]
fn lex_single_quoted_with_escape() {
    assert_eq!(kinds("'it''s'"), vec![TokenKind::StringLiteral]);
    assert_eq!(texts("'it''s'"), vec!["'it''s'"]);
}

#[test]
fn lex_unterminated_string_consumes_rest() {
    // Malformed input — lexer must not panic; consume remainder as StringLiteral.
    assert_eq!(kinds("'unterminated"), vec![TokenKind::StringLiteral]);
}

#[test]
fn lex_dollar_string_untagged() {
    assert_eq!(kinds("$$hello 'world'$$"), vec![TokenKind::DollarString]);
    assert_eq!(texts("$$hello 'world'$$"), vec!["$$hello 'world'$$"]);
}

#[test]
fn lex_dollar_string_tagged() {
    assert_eq!(kinds("$tag$body$tag$"), vec![TokenKind::DollarString]);
    assert_eq!(texts("$tag$body$tag$"), vec!["$tag$body$tag$"]);
}

#[test]
fn lex_dollar_string_nested_dollar() {
    // A $foo$ inside a $tag$ body should not close the tagged string.
    let sql = "$tag$a $foo$ b$tag$";
    assert_eq!(kinds(sql), vec![TokenKind::DollarString]);
    assert_eq!(texts(sql), vec![sql]);
}

#[test]
fn lex_quoted_identifier() {
    assert_eq!(kinds("\"my table\""), vec![TokenKind::QuotedIdent]);
}

#[test]
fn lex_quoted_identifier_with_escaped_quote() {
    // PG escapes double-quotes inside quoted idents by doubling them.
    let sql = "\"he said \"\"hi\"\"\"";
    assert_eq!(kinds(sql), vec![TokenKind::QuotedIdent]);
    assert_eq!(texts(sql), vec![sql]);
}

#[test]
fn lex_line_comment() {
    assert_eq!(
        kinds("-- hello\nSELECT"),
        vec![
            TokenKind::LineComment,
            TokenKind::Whitespace,
            TokenKind::Ident
        ]
    );
    assert_eq!(texts("-- hello\nSELECT"), vec!["-- hello", "\n", "SELECT"]);
}

#[test]
fn lex_line_comment_eof() {
    assert_eq!(kinds("-- end"), vec![TokenKind::LineComment]);
}

#[test]
fn lex_block_comment() {
    assert_eq!(kinds("/* hi */"), vec![TokenKind::BlockComment]);
    assert_eq!(texts("/* hi */"), vec!["/* hi */"]);
}

#[test]
fn lex_block_comment_unterminated() {
    // Malformed — consume to EOF without panic.
    assert_eq!(kinds("/* oops"), vec![TokenKind::BlockComment]);
}

#[test]
fn lex_block_comment_with_star_inside() {
    assert_eq!(kinds("/* 2 * 3 */"), vec![TokenKind::BlockComment]);
}

#[test]
fn lex_minus_not_comment() {
    // A single `-` should be Punct, not LineComment.
    assert_eq!(kinds("-x"), vec![TokenKind::Punct, TokenKind::Ident]);
}

#[test]
fn tokens_make_up_the_text() {
    let sql = "SELECT a1, -2.5e+3 FROM \"T\" WHERE s = 'é' /* c */ AND d = $x$y$x$ -- end";
    assert_eq!(texts(sql).concat(), sql);
    let mut at = 0;
    let mut lexer = SqlLexer::new(sql);
    while let Some(t) = lexer.next() {
        assert_eq!(t.span.start, at);
        assert!(t.span.end > at);
        assert_eq!(t.text, &sql[t.span.clone()]);
        at = t.span.end;
    }
    assert_eq!(at, sql.len());
}

#[test]
fn numbers_take_sign_fraction_and_exponent() {
    assert_eq!(kinds("42"), vec![TokenKind::Number]);
    assert_eq!(texts("= -5"), vec!["=", " ", "-5"]);
    assert_eq!(texts("a-5"), vec!["a", "-", "5"]);
    assert_eq!(texts("1.5e-3"), vec!["1.5e-3"]);
    assert_eq!(texts("(-5)"), vec!["(", "-5", ")"]);
}
