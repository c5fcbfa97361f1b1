use vortex_runtime::cli::{parse_args, UsageError};

fn args(list: &[&str]) -> Vec<String> {
    list.iter().map(|s| s.to_string()).collect()
}

#[test]
fn parse_args_requires_a_path() {
    assert!(matches!(parse_args(&args(&["prog"])), Err(UsageError::MissingScriptPath)));
    assert!(matches!(parse_args(&args(&[])), Err(UsageError::MissingScriptPath)));
}

#[test]
fn parse_args_path_only() {
    let c = parse_args(&args(&["prog", "script.js"])).unwrap();
    assert_eq!(c.file_path, "script.js");
    assert!(c.redis_url.is_none());
    assert!(c.function_id.is_none());
}

#[test]
fn parse_args_both_flags() {
    let c = parse_args(&args(&[
        "prog",
        "script.js",
        "--redis-url",
        "redis://localhost:6379",
        "--function-id",
        "fn1",
    ]))
    .unwrap();
    assert_eq!(c.file_path, "script.js");
    assert_eq!(c.redis_url.as_deref(), Some("redis://localhost:6379"));
    assert_eq!(c.function_id.as_deref(), Some("fn1"));
}

#[test]
fn parse_args_one_flag_is_accepted() {
    let c = parse_args(&args(&["prog", "script.js", "--function-id", "fn1"])).unwrap();
    assert!(c.redis_url.is_none());
    assert_eq!(c.function_id.as_deref(), Some("fn1"));
}

#[test]
fn parse_args_later_flag_wins() {
    let c = parse_args(&args(&["prog", "s.js", "--function-id", "a", "--function-id", "b"]))
        .unwrap();
    assert_eq!(c.function_id.as_deref(), Some("b"));
}

#[test]
fn parse_args_flag_needs_value() {
    assert!(matches!(
        parse_args(&args(&["prog", "s.js", "--redis-url"])),
        Err(UsageError::RedisUrlNeedsValue)
    ));
    assert!(matches!(
        parse_args(&args(&["prog", "s.js", "--function-id"])),
        Err(UsageError::FunctionIdNeedsValue)
    ));
}

#[test]
fn parse_args_unknown_argument() {
    match parse_args(&args(&["prog", "s.js", "--verbose"])) {
        Err(UsageError::UnknownArgument(a)) => assert_eq!(a, "--verbose"),
        other => panic!("expected UnknownArgument, got {:?}", other.is_ok()),
    }
}

#[test]
fn usage_error_messages() {
    assert_eq!(
        UsageError::RedisUrlNeedsValue.message(),
        "--redis-url requires a value"
    );
    assert_eq!(
        UsageError::FunctionIdNeedsValue.message(),
        "--function-id requires a value"
    );
    assert_eq!(
        UsageError::UnknownArgument("-x".to_string()).message(),
        "Unknown argument: -x"
    );
    assert!(UsageError::MissingScriptPath.message().starts_with("Usage:"));
}
