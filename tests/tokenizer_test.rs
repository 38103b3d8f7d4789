use envuse_parser::span::Span;
use envuse_parser::tokenizer::{TokenKind, Tokenizer};

fn toks(source: &str) -> Vec<(TokenKind, String, usize, usize)> {
    Tokenizer::parse(source)
        .unwrap()
        .into_iter()
        .map(|t| (t.kind, t.raw, t.span.start, t.span.end))
        .collect()
}

fn tok(kind: TokenKind, raw: &str, start: usize, end: usize) -> (TokenKind, String, usize, usize) {
    (kind, raw.to_string(), start, end)
}

#[test]
fn tokenizer_comment() {
    assert_eq!(toks("# abc"), vec![tok(TokenKind::Comment, "# abc", 0, 5)]);
}

#[test]
fn tokenizer_comment_and_newline_1() {
    assert_eq!(
        toks("# abc\n"),
        vec![tok(TokenKind::Comment, "# abc", 0, 5), tok(TokenKind::Newline, "\n", 5, 6)]
    );
}

#[test]
fn tokenizer_comment_and_newline_2() {
    assert_eq!(
        toks("# abc\n# defg\n"),
        vec![
            tok(TokenKind::Comment, "# abc", 0, 5),
            tok(TokenKind::Newline, "\n", 5, 6),
            tok(TokenKind::Comment, "# defg", 6, 12),
            tok(TokenKind::Newline, "\n", 12, 13),
        ]
    );
}

#[test]
fn tokenizer_keyword() {
    assert_eq!(toks("ABC123_32"), vec![tok(TokenKind::Keyword, "ABC123_32", 0, 9)]);
}

#[test]
fn tokenizer_keyword_and_newline() {
    assert_eq!(
        toks("ABC123_32\n"),
        vec![tok(TokenKind::Keyword, "ABC123_32", 0, 9), tok(TokenKind::Newline, "\n", 9, 10)]
    );
}

#[test]
fn tokenizer_colon() {
    assert_eq!(toks(":"), vec![tok(TokenKind::Colon, ":", 0, 1)]);
}

#[test]
fn tokenizer_string() {
    assert_eq!(toks("\"hola\""), vec![tok(TokenKind::String, "hola", 1, 5)]);
}

#[test]
fn tokenizer_string_with_scape() {
    assert_eq!(toks(r#""ho\"la""#), vec![tok(TokenKind::String, r#"ho\"la"#, 1, 7)]);
}

#[test]
fn tokenizer_variable() {
    assert_eq!(
        toks("FOO:BAZ"),
        vec![
            tok(TokenKind::Keyword, "FOO", 0, 3),
            tok(TokenKind::Colon, ":", 3, 4),
            tok(TokenKind::Keyword, "BAZ", 4, 7),
        ]
    );
}

#[test]
fn tokenizer_comment_and_variable() {
    assert_eq!(
        toks("# comment\nFOO:BAZ"),
        vec![
            tok(TokenKind::Comment, "# comment", 0, 9),
            tok(TokenKind::Newline, "\n", 9, 10),
            tok(TokenKind::Keyword, "FOO", 10, 13),
            tok(TokenKind::Colon, ":", 13, 14),
            tok(TokenKind::Keyword, "BAZ", 14, 17),
        ]
    );
}

#[test]
fn tokenizer_variable_with_default_value() {
    assert_eq!(
        toks(r#"FOO:BAZ="abc""#),
        vec![
            tok(TokenKind::Keyword, "FOO", 0, 3),
            tok(TokenKind::Colon, ":", 3, 4),
            tok(TokenKind::Keyword, "BAZ", 4, 7),
            tok(TokenKind::Equal, "=", 7, 8),
            tok(TokenKind::String, "abc", 9, 12),
        ]
    );
}

#[test]
fn tokenizer_number_1() {
    assert_eq!(toks("12"), vec![tok(TokenKind::Number, "12", 0, 2)]);
}

#[test]
fn tokenizer_number_2() {
    assert_eq!(
        toks("12_123_456.123_456"),
        vec![tok(TokenKind::Number, "12_123_456.123_456", 0, 18)]
    );
}

#[test]
fn tokenizer_number_3() {
    Tokenizer::parse("123").unwrap();
    Tokenizer::parse("1_23").unwrap();
    Tokenizer::parse("1_23.23").unwrap();

    assert_eq!(
        Tokenizer::parse("12__23").unwrap_err().message,
        "Only one underscore is allowed as numeric separator"
    );
    assert_eq!(
        Tokenizer::parse("12__23").unwrap_err().message,
        "Only one underscore is allowed as numeric separator",
    );
    assert_eq!(
        Tokenizer::parse("12_").unwrap_err().message,
        "Only one underscore is allowed as numeric separator",
    );
    assert_eq!(
        Tokenizer::parse("12_3._").unwrap_err().message,
        "Invalid or unexpected token"
    );
    assert_eq!(
        Tokenizer::parse("12_3._").unwrap_err().message,
        "Invalid or unexpected token"
    );
    assert_eq!(
        Tokenizer::parse("12_3.3_3.1").unwrap_err().message,
        "Unexpected token"
    );
}

#[test]
fn tokenizer_spaces() {
    let kinds: Vec<TokenKind> = Tokenizer::parse("foo : string = asd\nvar : int = \"234\"")
        .unwrap()
        .into_iter()
        .map(|t| t.kind)
        .collect();
    let (k, s, c, e, n, st) = (
        TokenKind::Keyword,
        TokenKind::Space,
        TokenKind::Colon,
        TokenKind::Equal,
        TokenKind::Newline,
        TokenKind::String,
    );
    assert_eq!(kinds, vec![k, s, c, s, k, s, e, s, k, n, k, s, c, s, k, s, e, s, st]);
    let tokens = Tokenizer::parse("foo : string = asd\nvar : int = \"234\"").unwrap();
    assert_eq!(tokens[1].raw, " ");
    assert_eq!(tokens[18].raw, "234");
    assert_eq!(tokens[18].span, Span { start: 32, end: 35 });
}

#[test]
fn tokenizer_type_with_optional_variable() {
    assert_eq!(
        toks("String?"),
        vec![tok(TokenKind::Keyword, "String", 0, 6), tok(TokenKind::QuestionMark, "?", 6, 7)]
    );
}

#[test]
fn tokenizer_type_with_options() {
    assert_eq!(
        toks("String<Min=2 Max=10>"),
        vec![
            tok(TokenKind::Keyword, "String", 0, 6),
            tok(TokenKind::LessThan, "<", 6, 7),
            tok(TokenKind::Keyword, "Min", 7, 10),
            tok(TokenKind::Equal, "=", 10, 11),
            tok(TokenKind::Number, "2", 11, 12),
            tok(TokenKind::Space, " ", 12, 13),
            tok(TokenKind::Keyword, "Max", 13, 16),
            tok(TokenKind::Equal, "=", 16, 17),
            tok(TokenKind::Number, "10", 17, 19),
            tok(TokenKind::GreaterThan, ">", 19, 20),
        ]
    );
}

#[test]
fn tokenizer_unexpected_token_error() {
    let err = Tokenizer::parse("/").err().unwrap();
    assert_eq!(err.message, "Unexpected token");
    assert_eq!(err.span, Span { start: 0, end: 1 });
}

#[test]
fn tokenizer_unterminated_string_fails() {
    let err = Tokenizer::parse("A = \"abc").err().unwrap();
    assert_eq!(err.message, "Invalid or unexpected token");
    assert_eq!(err.span, Span { start: 4, end: 8 });
}

#[test]
fn tokenizer_tabs_and_spaces_form_one_token() {
    assert_eq!(toks(" \t "), vec![tok(TokenKind::Space, " \t ", 0, 3)]);
}

#[test]
fn tokenizer_number_error_spans() {
    let err = Tokenizer::parse("x = 12__23").unwrap_err();
    assert_eq!(err.span, Span { start: 4, end: 6 });
    let err = Tokenizer::parse("12_3.3_3.1").unwrap_err();
    assert_eq!(err.span, Span { start: 0, end: 8 });
}

#[test]
fn tokenizer_counts_characters_not_bytes() {
    assert_eq!(
        toks("# é\nA"),
        vec![
            tok(TokenKind::Comment, "# é", 0, 3),
            tok(TokenKind::Newline, "\n", 3, 4),
            tok(TokenKind::Keyword, "A", 4, 5),
        ]
    );
}
