use envuse_parser::ast::Expression;
use envuse_parser::errors::ParseErrorKind;
use envuse_parser::program::{create_program, ErrorCause, Program};
use envuse_parser::span::Span;
use envuse_parser::transformers::ValueType;

fn program(source: &str) -> Program {
    create_program(source, None).unwrap()
}

fn text(s: &str) -> ValueType {
    ValueType::String(s.to_string())
}

fn entry(name: &str, v: ValueType) -> (String, ValueType) {
    (name.to_string(), v)
}

#[test]
fn should_catch_program_error() {
    let error = create_program(r#"FOO "biz""#, None).err().unwrap();
    assert_eq!(error.message, "SyntaxError: Unexpected type");
    assert_eq!(error.span, Some(Span { start: 5, end: 8 }));
    let expected = format!(
        "SyntaxError: Unexpected type\n\n>    1 | FOO \"biz\"\n{}{}\n",
        " ".repeat(14),
        "▀".repeat(3)
    );
    assert_eq!(error.to_string(), expected);
}

#[test]
fn should_catch_program_error_to_js() {
    let error = create_program("\n\n\tFOO 123", Some("/app/.envuse")).err().unwrap();
    let expected = format!(
        "SyntaxError: Unexpected type\n\n>    3 | \tFOO 123\n{}{}\n    at /app/.envuse:3:6\n",
        " ".repeat(14),
        "▀".repeat(3)
    );
    assert_eq!(error.to_string(), expected);

    let error = create_program("\n\n\tFOO 123", None).err().unwrap();
    let expected = format!(
        "SyntaxError: Unexpected type\n\n>    3 | \tFOO 123\n{}{}\n",
        " ".repeat(14),
        "▀".repeat(3)
    );
    assert_eq!(error.to_string(), expected);
}

#[test]
fn should_create_program() {
    let program = create_program(r#"FOO="biz""#, None).unwrap();
    assert_eq!(program.source, r#"FOO="biz""#);
    assert_eq!(program.location, None);
    let doc = program.ast.as_document().unwrap();
    assert_eq!(doc.elements.len(), 1);
    let v = doc.elements[0].as_variable().unwrap();
    assert_eq!(v.name, "FOO");
    assert_eq!(v.default_value.as_ref().unwrap().value, "biz");
}

#[test]
fn should_use_of_parse_must_not_break_with_different_syntax() {
    let program = create_program(r#"FOO="biz""#, None).unwrap();

    program
        .parse(
            vec![
                (String::from("AAA"), None),
                (String::from("FOO"), Some(String::from(""))),
                (String::from("JUM"), None),
                (String::from("TAZ"), None),
            ],
            None,
        )
        .unwrap();

    program
        .parse(vec![("AAA", ""), ("FOO", ""), ("JUM", ""), ("TAZ", "")], None)
        .unwrap();

    program
        .parse(
            vec![
                ("AAA", None),
                ("FOO", Some("")),
                ("JUM", None),
                ("TAZ", None),
            ],
            None,
        )
        .unwrap();
}

#[test]
fn should_parse_an_string_value() {
    let program = program(r#"FOO="biz""#);
    assert_eq!(
        program.parse(vec![("FOO", "BAR")], None).unwrap(),
        vec![entry("FOO", text("BAR"))]
    );
}

#[test]
fn should_parse_an_number_value() {
    let program = program("FOO:Number");
    assert_eq!(
        program.parse(vec![("FOO", "30_000")], None).unwrap(),
        vec![entry("FOO", ValueType::Number(30000))]
    );
}

#[test]
fn should_parse_an_boolean_value() {
    let program = program("FOO:Boolean");
    assert_eq!(
        program.parse(vec![("FOO", "true")], None).unwrap(),
        vec![entry("FOO", ValueType::Boolean(true))]
    );
}

#[test]
fn should_parse_an_null_value() {
    let program = program("FOO: String?");
    assert_eq!(
        program.parse(vec![("BAR", "true")], None).unwrap(),
        vec![entry("FOO", ValueType::Null)]
    );
}

#[test]
fn should_read_the_default_values() {
    let program = program(r#"FOO: String = "Biz""#);
    assert_eq!(
        program.parse(vec![("BAR", "true")], None).unwrap(),
        vec![entry("FOO", text("Biz"))]
    );
}

#[test]
fn should_read_the_default_values_2() {
    let program = program(r#"FOO = "Biz""#);
    assert_eq!(
        program.parse(vec![("BAR", "true")], None).unwrap(),
        vec![entry("FOO", text("Biz"))]
    );
}

#[test]
fn should_full_sample() {
    let source = r#"
            FOO: String = "val"
            BAR: Number = 1223
            BIZ: Boolean = "true"
            BLI: String?
        "#;
    let program = create_program(source, Some(".envuse")).unwrap();
    assert_eq!(program.location, Some(".envuse".to_string()));
    assert_eq!(
        program.parse(None, None).unwrap(),
        vec![
            entry("FOO", text("val")),
            entry("BAR", ValueType::Number(1223)),
            entry("BIZ", ValueType::Boolean(true)),
            entry("BLI", ValueType::Null),
        ]
    );
}

#[test]
fn should_catch_error_type_unknown() {
    let source = r###"
            FOO: unknown
        "###;
    let program = create_program(source, Some(".envuse")).unwrap();
    let error = program.parse(None, None).unwrap_err();
    assert_eq!(error.message, "ParseError: FOO value cannot be null");
    assert_eq!(error.span, Some(Span { start: 13, end: 25 }));
    match &error.cause {
        Some(ErrorCause::Parse(e)) => assert_eq!(e.kind, ParseErrorKind::MissingValue),
        other => panic!("unexpected cause {:?}", other),
    }
    let expected = format!(
        "ParseError: FOO value cannot be null\n\n>    2 |             FOO: unknown\n{}{}\n    at .envuse:2:13\n",
        " ".repeat(21),
        "▀".repeat(12)
    );
    assert_eq!(error.to_string(), expected);
}

#[test]
fn should_parse_custom_types() {
    let source = r###"
            FOO: FIZ
        "###;
    let program = create_program(source, Some(".envuse")).unwrap();
    let parsed = program
        .parse(vec![("FOO", "bar")], vec!["FIZ"])
        .unwrap();
    assert_eq!(
        parsed,
        vec![entry("FOO", ValueType::Custom("FIZ".to_string(), "bar".to_string()))]
    );
}

#[test]
fn unknown_type_names_the_lowercased_type() {
    let program = create_program("FOO: Decimal", None).unwrap();
    let error = program.parse(vec![("FOO", "1")], None).unwrap_err();
    assert_eq!(error.message, "ParseError: Type decimal is not valid type");
    assert_eq!(error.span, Some(Span { start: 0, end: 12 }));
    match &error.cause {
        Some(ErrorCause::Parse(e)) => assert_eq!(e.kind, ParseErrorKind::UnknownType),
        other => panic!("unexpected cause {:?}", other),
    }
}

#[test]
fn unknown_declared_type_is_a_passthrough_string() {
    let program = create_program("FOO: Unknown", None).unwrap();
    assert_eq!(
        program.parse(vec![("FOO", "x")], None).unwrap(),
        vec![entry("FOO", text("x"))]
    );
}

#[test]
fn boolean_falls_back_to_false() {
    let program = program("FOO: Boolean");
    assert_eq!(
        program.parse(vec![("FOO", "maybe")], None).unwrap(),
        vec![entry("FOO", ValueType::Boolean(false))]
    );
}

#[test]
fn boolean_ignores_case() {
    let program = program("A: bool\nB: Boolean\nC: boolean");
    assert_eq!(
        program.parse(vec![("A", "TRUE"), ("B", "On"), ("C", "1")], None).unwrap(),
        vec![
            entry("A", ValueType::Boolean(true)),
            entry("B", ValueType::Boolean(true)),
            entry("C", ValueType::Boolean(true)),
        ]
    );
}

#[test]
fn type_names_are_matched_without_case() {
    let program = program("FOO: NUMBER\nBAR: STR");
    assert_eq!(
        program.parse(vec![("FOO", "7"), ("BAR", "x")], None).unwrap(),
        vec![entry("FOO", ValueType::Number(7)), entry("BAR", text("x"))]
    );
}

#[test]
fn custom_type_names_are_matched_without_case() {
    let program = program("FOO: Fiz");
    assert_eq!(
        program.parse(vec![("FOO", "v")], vec!["FIZ"]).unwrap(),
        vec![entry("FOO", ValueType::Custom("Fiz".to_string(), "v".to_string()))]
    );
}

#[test]
fn number_coercion_failure_is_reported() {
    let program = program("FOO: Number");
    let error = program.parse(vec![("FOO", "abc")], None).unwrap_err();
    assert_eq!(error.message, "ParseError: Value abc cannot be converted to Number");
    match &error.cause {
        Some(ErrorCause::Parse(e)) => assert_eq!(e.kind, ParseErrorKind::CoercionFailed),
        other => panic!("unexpected cause {:?}", other),
    }
}

#[test]
fn number_limits() {
    let program = program("FOO: Number");
    assert_eq!(
        program.parse(vec![("FOO", "4_294_967_295")], None).unwrap(),
        vec![entry("FOO", ValueType::Number(4294967295))]
    );
    assert!(program.parse(vec![("FOO", "4294967296")], None).is_err());
    assert!(program.parse(vec![("FOO", "")], None).is_err());
    assert!(program.parse(vec![("FOO", "-1")], None).is_err());
    assert_eq!(
        program.parse(vec![("FOO", "+5")], None).unwrap(),
        vec![entry("FOO", ValueType::Number(5))]
    );
}

#[test]
fn missing_value_is_reported() {
    let program = program("FOO: String");
    let error = program.parse(None, None).unwrap_err();
    assert_eq!(error.message, "ParseError: FOO value cannot be null");
    assert_eq!(error.span, Some(Span { start: 0, end: 11 }));
}

#[test]
fn override_wins_over_default_and_absent_override_is_ignored() {
    let program = program("FOO = \"d\"\nBAR: String?=\"e\"");
    assert_eq!(
        program
            .parse(vec![("FOO", Some("o")), ("BAR", None)], None)
            .unwrap(),
        vec![entry("FOO", text("o")), entry("BAR", text("e"))]
    );
}

#[test]
fn later_pair_of_environment_wins() {
    let program = program("FOO");
    assert_eq!(
        program.parse(vec![("FOO", "a"), ("FOO", "b")], None).unwrap(),
        vec![entry("FOO", text("b"))]
    );
}

#[test]
fn later_declaration_of_a_name_wins() {
    let program = program("FOO = \"a\"\nBAR = \"x\"\nFOO: Number = 3");
    assert_eq!(
        program.parse(None, None).unwrap(),
        vec![entry("FOO", ValueType::Number(3)), entry("BAR", text("x"))]
    );
}

#[test]
fn standalone_comments_are_skipped_by_resolution() {
    let program = program("# header\n\nFOO = \"a\"");
    assert_eq!(program.parse(None, None).unwrap(), vec![entry("FOO", text("a"))]);
}

#[test]
fn resolution_is_repeatable() {
    let program = program("FOO: Number\nBAR: Boolean?");
    let first = program.parse(vec![("FOO", "1_000")], None).unwrap();
    let second = program.parse(vec![("FOO", "1_000")], None).unwrap();
    assert_eq!(first, second);
    assert_eq!(first, vec![entry("FOO", ValueType::Number(1000)), entry("BAR", ValueType::Null)]);
}

#[test]
fn program_ast_is_a_document() {
    let program = program("#!/usr/bin/env envuse\nFOO");
    match &program.ast {
        Expression::Document(d) => {
            assert_eq!(d.executable, Some("#!/usr/bin/env envuse".to_string()));
            assert_eq!(d.elements.len(), 1);
        }
        other => panic!("not a document: {:?}", other),
    }
}

#[test]
fn custom_type_names_act_as_a_set() {
    let program = program("FOO: FIZ\nBAR: Number");
    let once = program.parse(vec![("FOO", "a"), ("BAR", "2")], vec!["FIZ"]).unwrap();
    let twice = program.parse(vec![("FOO", "a"), ("BAR", "2")], vec!["FIZ", "fiz", "FIZ"]).unwrap();
    assert_eq!(once, twice);
    assert_eq!(
        once,
        vec![
            entry("FOO", ValueType::Custom("FIZ".to_string(), "a".to_string())),
            entry("BAR", ValueType::Number(2)),
        ]
    );
}

#[test]
fn custom_name_can_take_over_a_builtin() {
    let program = program("FOO: Number");
    assert_eq!(
        program.parse(vec![("FOO", "abc")], vec!["number"]).unwrap(),
        vec![entry("FOO", ValueType::Custom("Number".to_string(), "abc".to_string()))]
    );
}
