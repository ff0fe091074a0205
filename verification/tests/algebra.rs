use chomp::input::Input;
use chomp::result::ParseResult;

#[test]
fn bind_feeds_success_forward() {
    let r: ParseResult<u8, &str> = ParseResult::Success(Input::new(b"bc", false), b'a');
    let r2 = r.bind(|i, v| ParseResult::<u8, &str>::Success(i, v + 1));
    assert_eq!(r2, ParseResult::Success(Input::new(b"bc", false), b'b'));
}

#[test]
fn bind_short_circuits_failure_and_incompleteness() {
    let r: ParseResult<u8, &str> = ParseResult::Failure(Input::new(b"bc", false), "oops");
    let r2 = r.bind(|i, v| ParseResult::<u8, &str>::Success(i, v));
    assert_eq!(r2, ParseResult::Failure(Input::new(b"bc", false), "oops"));

    let r: ParseResult<u8, &str> = ParseResult::Incomplete(2);
    let r2 = r.bind(|i, v| ParseResult::<u8, &str>::Success(i, v));
    assert_eq!(r2, ParseResult::Incomplete(2));
}

#[test]
fn map_touches_only_the_value() {
    let r: ParseResult<u8, &str> = ParseResult::Success(Input::new(b"", true), 3);
    assert_eq!(
        r.map(|v| v * 10),
        ParseResult::Success(Input::new(b"", true), 30)
    );
    let r: ParseResult<u8, &str> = ParseResult::Failure(Input::new(b"x", true), "kept");
    assert_eq!(r.map(|v| v * 10), ParseResult::Failure(Input::new(b"x", true), "kept"));
}

#[test]
fn map_err_touches_only_the_diagnostic() {
    let r: ParseResult<u8, &str> = ParseResult::Failure(Input::new(b"x", false), "old");
    assert_eq!(
        r.map_err(|_| "new"),
        ParseResult::Failure(Input::new(b"x", false), "new")
    );
    let r: ParseResult<u8, &str> = ParseResult::Success(Input::new(b"x", false), 1);
    assert_eq!(r.map_err(|_| "new"), ParseResult::Success(Input::new(b"x", false), 1));
    let r: ParseResult<u8, &str> = ParseResult::Incomplete(1);
    assert_eq!(r.map_err(|_| "new"), ParseResult::Incomplete(1));
}
