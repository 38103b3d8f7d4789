use envuse_parser::ast::{Document, Expression, Variable, AST};
use envuse_parser::display_syntax::DisplaySyntax;
use envuse_parser::span::Span;
use envuse_parser::tokenizer::Tokenizer;

fn document(payload: &str) -> Document {
    let tokens = Tokenizer::parse(payload).unwrap();
    match AST::parse(tokens).unwrap() {
        Expression::Document(d) => d,
        other => panic!("not a document: {:?}", other),
    }
}

fn variable(e: &Expression) -> &Variable {
    e.as_variable().unwrap()
}

fn comment_lines(e: &Expression) -> Vec<String> {
    match e {
        Expression::CommentBlock(c) => c.raw.clone(),
        other => panic!("not a comment block: {:?}", other),
    }
}

fn options(v: &Variable) -> Vec<(String, Option<String>)> {
    v.options_variable_type
        .as_ref()
        .unwrap()
        .iter()
        .map(|(k, o)| (k.clone(), o.as_ref().map(|o| o.value.clone())))
        .collect()
}

fn opt(k: &str, v: Option<&str>) -> (String, Option<String>) {
    (k.to_string(), v.map(|s| s.to_string()))
}

#[test]
fn parse_executable() {
    let doc = document("#!/bin/sh");
    assert_eq!(doc.executable, Some("#!/bin/sh".to_string()));
    assert!(doc.elements.is_empty());
    assert_eq!(doc.span, Span { start: 0, end: 9 });
}

#[test]
fn parse_comment() {
    let doc = document("# I'm comment");
    assert_eq!(doc.executable, None);
    assert_eq!(doc.elements.len(), 1);
    assert_eq!(comment_lines(&doc.elements[0]), vec!["# I'm comment".to_string()]);
    assert_eq!(doc.elements[0].to_span(), Span { start: 0, end: 13 });
    assert_eq!(doc.span, Span { start: 0, end: 13 });
}

#[test]
fn parse_comment_block() {
    let doc = document("# I'm comment\n# Second line comment");
    assert_eq!(doc.elements.len(), 1);
    assert_eq!(
        comment_lines(&doc.elements[0]),
        vec!["# I'm comment".to_string(), "# Second line comment".to_string()]
    );
    assert_eq!(doc.elements[0].to_span(), Span { start: 0, end: 35 });
}

#[test]
fn parse_comment_multiple_block() {
    let doc = document("# I'm comment\n\n# Second line comment");
    assert_eq!(doc.elements.len(), 2);
    assert_eq!(comment_lines(&doc.elements[0]), vec!["# I'm comment".to_string()]);
    assert_eq!(comment_lines(&doc.elements[1]), vec!["# Second line comment".to_string()]);
    assert_eq!(doc.elements[1].to_span(), Span { start: 15, end: 36 });
}

#[test]
fn parse_comment_multiple_lines() {
    let doc = document("# I'm comment\n    # Second line comment");
    assert_eq!(doc.elements.len(), 1);
    assert_eq!(
        comment_lines(&doc.elements[0]),
        vec!["# I'm comment".to_string(), "# Second line comment".to_string()]
    );
    assert_eq!(doc.elements[0].to_span(), Span { start: 0, end: 39 });
}

#[test]
fn parse_comment_multiple_block_2() {
    let doc = document("# I'm comment\n\n     # Second line comment");
    assert_eq!(doc.elements.len(), 2);
    assert_eq!(doc.elements[0].to_span(), Span { start: 0, end: 13 });
    assert_eq!(doc.elements[1].to_span(), Span { start: 20, end: 41 });
}

#[test]
fn parse_variables_name() {
    let doc = document(
        "
            foo
        ",
    );
    assert_eq!(doc.elements.len(), 1);
    let v = variable(&doc.elements[0]);
    assert_eq!(v.name, "foo");
    assert_eq!(v.variable_type, None);
    assert!(v.comment.is_none());
    assert!(v.default_value.is_none());
    assert!(!v.nullable);
    assert_eq!(v.span, Span { start: 13, end: 16 });
}

#[test]
fn parse_variables_with_comment() {
    let doc = document(
        "
            # comment
            foo
        ",
    );
    assert_eq!(doc.elements.len(), 1);
    let v = variable(&doc.elements[0]);
    assert_eq!(v.name, "foo");
    assert_eq!(v.comment.as_ref().unwrap().raw, vec!["# comment".to_string()]);
}

#[test]
fn parse_variables_with_type() {
    let doc = document(
        "
            foo: string
        ",
    );
    let v = variable(&doc.elements[0]);
    assert_eq!(v.name, "foo");
    assert_eq!(v.variable_type, Some("string".to_string()));
    assert!(v.options_variable_type.is_none());
}

#[test]
fn parse_variables_as_nullable() {
    let doc = document(
        "
            FOO: String<Foo Biz> ?
        ",
    );
    let v = variable(&doc.elements[0]);
    assert_eq!(v.variable_type, Some("String".to_string()));
    assert_eq!(options(v), vec![opt("Foo", None), opt("Biz", None)]);
    assert!(v.nullable);
}

#[test]
fn parse_variable_with_default_value() {
    let doc = document("foo = \"abc\"");
    let v = variable(&doc.elements[0]);
    assert_eq!(v.name, "foo");
    assert_eq!(v.default_value.as_ref().unwrap().value, "abc");
    assert_eq!(v.span, Span { start: 0, end: 10 });
}

#[test]
fn parse_variable_with_default_value_number() {
    let doc = document("port: number = 3000");
    let v = variable(&doc.elements[0]);
    assert_eq!(v.variable_type, Some("number".to_string()));
    assert_eq!(v.default_value.as_ref().unwrap().value, "3000");
    assert_eq!(v.span, Span { start: 0, end: 19 });
}

#[test]
fn parse_variable() {
    let doc = document(
        "
            # comment
            foo: string = \"abc\"
        ",
    );
    assert_eq!(doc.elements.len(), 1);
    let v = variable(&doc.elements[0]);
    assert_eq!(v.comment.as_ref().unwrap().raw, vec!["# comment".to_string()]);
    assert_eq!(v.name, "foo");
    assert_eq!(v.variable_type, Some("string".to_string()));
    assert_eq!(v.default_value.as_ref().unwrap().value, "abc");
}

#[test]
fn parse_sample_document() {
    let doc = document(
        r#"
            ## Document comment
            ## second line

            # comment
            foo: string = "abc"
            bax: number = "123"
            port: number = 3_000
        "#,
    );
    assert_eq!(doc.elements.len(), 4);
    assert_eq!(
        comment_lines(&doc.elements[0]),
        vec!["## Document comment".to_string(), "## second line".to_string()]
    );
    let foo = variable(&doc.elements[1]);
    assert_eq!(foo.name, "foo");
    assert_eq!(foo.comment.as_ref().unwrap().raw, vec!["# comment".to_string()]);
    let bax = variable(&doc.elements[2]);
    assert_eq!(bax.name, "bax");
    assert_eq!(bax.variable_type, Some("number".to_string()));
    assert_eq!(bax.default_value.as_ref().unwrap().value, "123");
    let port = variable(&doc.elements[3]);
    assert_eq!(port.name, "port");
    assert_eq!(port.default_value.as_ref().unwrap().value, "3_000");
}

#[test]
fn parse_unexpected_token() {
    let payload = r#"

            _$3

        "#;
    let err = Tokenizer::parse(payload).err().unwrap();
    assert_eq!(err.message, "Unexpected token");
    assert_eq!(err.span, Span { start: 15, end: 16 });
}

#[test]
fn should_decorate_syntax_error() {
    let payload = "#!/bin/envuse\nFOO: String<Max=500>\nBIZ: String<Max=500 Min=2>\n";
    let expected = format!(
        "SyntaxError: fail\n\n>    2 | FOO: String<Max=500>\n{}{}\n",
        " ".repeat(9),
        "▀".repeat(3)
    );
    assert_eq!(
        DisplaySyntax::new("SyntaxError: fail".to_string(), Span { start: 14, end: 17 })
            .debug_payload(payload),
        expected
    );
}

#[test]
fn should_decorate_syntax_error_2() {
    let payload =
        "#!/bin/envuse\n# Inline comment\nFOO: String<Max=500>\nBIZ: String<Max=500 Min=2>\nPORT: Number\n";
    let err = DisplaySyntax::new("SyntaxError: fail".to_string(), Span { start: 36, end: 83 });
    let expected = format!(
        "SyntaxError: fail\n\n\
         >    3 | FOO: String<Max=500>\n{}{}\n\
         >    4 | BIZ: String<Max=500 Min=2>\n{}{}\n\
         >    5 | PORT: Number\n{}{}\n",
        " ".repeat(14),
        "▀".repeat(15),
        " ".repeat(9),
        "▀".repeat(26),
        " ".repeat(9),
        "▀".repeat(4)
    );
    assert_eq!(err.debug_payload(payload), expected);
}

#[test]
fn parse_sample_document_with_type_configurable() {
    let payload = r#"
            FOO : String<Max=500>
            BIZ : String<Max=500 Min=2>
        "#;
    let doc = document(payload);
    assert_eq!(doc.elements.len(), 2);
    let foo = variable(&doc.elements[0]);
    assert_eq!(foo.variable_type, Some("String".to_string()));
    assert_eq!(options(foo), vec![opt("Max", Some("500"))]);
    let biz = variable(&doc.elements[1]);
    assert_eq!(options(biz), vec![opt("Max", Some("500")), opt("Min", Some("2"))]);
}

#[test]
fn parse_sample_document_with_type_configurable_binary_option() {
    let payload = r#"
            FOO : String<Max=500 Sensitive>
            BIZ : String<Max=500 Min=2>
        "#;
    let doc = document(payload);
    assert_eq!(doc.elements.len(), 2);
    let foo = variable(&doc.elements[0]);
    assert_eq!(options(foo), vec![opt("Max", Some("500")), opt("Sensitive", None)]);
    let biz = variable(&doc.elements[1]);
    assert_eq!(options(biz), vec![opt("Max", Some("500")), opt("Min", Some("2"))]);
}

#[test]
fn parse_sample_document_with_type_configurable_multiline() {
    let payload = r#"
            FOO : String<
                    Max = 500
                    Min = 2
                  >
        "#;
    let doc = document(payload);
    assert_eq!(doc.elements.len(), 1);
    let foo = variable(&doc.elements[0]);
    assert_eq!(options(foo), vec![opt("Max", Some("500")), opt("Min", Some("2"))]);
}

#[test]
fn parse_duplicate_option_keeps_last_value() {
    let doc = document("FOO: String<Max=1 Max=2>");
    let foo = variable(&doc.elements[0]);
    assert_eq!(options(foo), vec![opt("Max", Some("2"))]);
}

#[test]
fn parse_missing_type_fails_at_end_of_input() {
    let tokens = Tokenizer::parse("FOO:").unwrap();
    let err = AST::parse(tokens).err().unwrap();
    assert_eq!(err.message, "Unexpected token");
    assert_eq!(err.span, Span { start: 4, end: 4 });
}

#[test]
fn parse_unclosed_options_fails_on_current_token() {
    let tokens = Tokenizer::parse("FOO: String<Max=1 \"x\"").unwrap();
    let err = AST::parse(tokens).err().unwrap();
    assert_eq!(err.message, "Unexpected token string");
    assert_eq!(err.span, Span { start: 19, end: 20 });
}

#[test]
fn parse_default_must_be_a_literal() {
    let tokens = Tokenizer::parse("FOO = BAR").unwrap();
    let err = AST::parse(tokens).err().unwrap();
    assert_eq!(err.message, "Unexpected token");
    assert_eq!(err.span, Span { start: 6, end: 9 });
}

#[test]
fn parse_same_source_twice_gives_same_tree() {
    let source = "# c\nFOO: String<A=1>?=\"x\"\nBAR";
    let a = format!("{:?}", document(source));
    let b = format!("{:?}", document(source));
    assert_eq!(a, b);
}
