use envuse_parser::program::ProgramError;

#[test]
fn should_transform_error() {
    let err = ProgramError {
        cause: None,
        location: None,
        message: "".to_string(),
        source: "".to_string(),
        span: None,
    };
    assert_eq!(err.get_message(), "");
}
