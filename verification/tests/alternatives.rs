use chomp::combinators::{count, many, many_till, matched_by, option, or, skip_many, SepStep};
use chomp::input::Input;
use chomp::parser::Parser;
use chomp::parsers::{any, fail, label, string, token, Diag};
use chomp::result::ParseResult;

#[test]
fn or_takes_first_match() {
    assert_eq!(
        or(Input::new(b"abc", false), &token(b'a'), &token(b'b')),
        ParseResult::Success(Input::new(b"bc", false), b'a')
    );
}

#[test]
fn or_falls_back_on_mismatch() {
    assert_eq!(
        or(Input::new(b"bbc", false), &token(b'a'), &token(b'b')),
        ParseResult::Success(Input::new(b"bc", false), b'b')
    );
}

#[test]
fn or_reports_second_failure() {
    assert_eq!(
        or(Input::new(b"cbc", false), &token(b'a'), &token(b'b')),
        ParseResult::Failure(Input::new(b"cbc", false), Diag::Expected(b'b'))
    );
}

#[test]
fn or_keeps_committed_failure() {
    // The left branch consumes one byte before failing, so the right
    // branch must not be tried even though it would match.
    let left = SepStep { sep: label(any(), "step"), item: fail::<u8, &str>("left hard") };
    let right = label(token(b'a'), "right");
    assert_eq!(
        or(Input::new(b"ab", false), &left, &right),
        ParseResult::Failure(Input::new(b"b", false), "left hard")
    );
}

#[test]
fn or_propagates_incomplete() {
    assert_eq!(
        or(Input::new(b"a", false), &label(string(b"ab"), "x"), &label(string(b"ba"), "x")),
        ParseResult::Incomplete(1)
    );
}

#[test]
fn option_takes_match() {
    assert_eq!(
        option(Input::new(b"abc", false), &token(b'a'), b'd'),
        ParseResult::Success(Input::new(b"bc", false), b'a')
    );
}

#[test]
fn option_yields_default_on_mismatch() {
    assert_eq!(
        option(Input::new(b"bbc", false), &token(b'a'), b'd'),
        ParseResult::Success(Input::new(b"bbc", false), b'd')
    );
}

#[test]
fn option_keeps_committed_failure() {
    let p = SepStep { sep: label(any(), "step"), item: fail::<u8, &str>("hard") };
    assert_eq!(
        option(Input::new(b"ab", false), &p, b'd'),
        ParseResult::Failure(Input::new(b"b", false), "hard")
    );
}

#[test]
fn many_keeps_committed_failure() {
    // One item parses; the next round consumes a separator-like byte and
    // then fails, and the repetition must not absorb that.
    let p = SepStep { sep: label(token(b'a'), "step"), item: label(token(b'b'), "hard") };
    let r: ParseResult<Vec<u8>, _> = many(Input::new(b"abac", false), &p);
    assert_eq!(r, ParseResult::Failure(Input::new(b"c", false), "hard"));
}

#[test]
fn count_zero_succeeds_without_looking() {
    let r: ParseResult<Vec<u8>, _> = count(Input::new(b"xyz", false), 0, &token(b'a'));
    assert_eq!(r, ParseResult::Success(Input::new(b"xyz", false), vec![]));
}

#[test]
fn count_never_overshoots() {
    // Five matches available, three asked for: exactly three taken.
    let r = count(Input::new(b"aaaaa", false), 3, &token(b'a'));
    assert_eq!(r, ParseResult::Success(Input::new(b"aa", false), vec![b'a', b'a', b'a']));
}

#[test]
fn skip_many_skips_and_discards() {
    assert_eq!(
        skip_many(Input::new(b"aaab", false), &token(b'a')),
        ParseResult::Success(Input::new(b"b", false), ())
    );
    assert_eq!(
        skip_many(Input::new(b"bbb", false), &token(b'a')),
        ParseResult::Success(Input::new(b"bbb", false), ())
    );
}

#[test]
fn string_matches_exact_run() {
    assert_eq!(
        string(b"ab").parse(Input::new(b"abc", false)),
        ParseResult::Success(Input::new(b"c", false), ())
    );
}

#[test]
fn string_mismatch_consumes_nothing() {
    assert_eq!(
        string(b"ab").parse(Input::new(b"axc", false)),
        ParseResult::Failure(Input::new(b"axc", false), Diag::Expected(b'b'))
    );
}

#[test]
fn string_short_input_asks_for_rest() {
    assert_eq!(
        string(b"abcd").parse(Input::new(b"ab", false)),
        ParseResult::Incomplete(2)
    );
}

#[test]
fn token_and_any_on_bytes() {
    assert_eq!(
        token(b'x').parse(Input::new(b"xy", false)),
        ParseResult::Success(Input::new(b"y", false), b'x')
    );
    assert_eq!(
        token(b'x').parse(Input::new(b"zy", false)),
        ParseResult::Failure(Input::new(b"zy", false), Diag::Expected(b'x'))
    );
    assert_eq!(
        any().parse(Input::new(b"", false)),
        ParseResult::Incomplete(1)
    );
}

#[test]
fn matched_by_span_length_is_consumed_count() {
    // Two bytes consumed: a span of exactly two bytes.
    match matched_by(Input::new(b"abcd", false), &string(b"ab")) {
        ParseResult::Success(rest, (span, ())) => {
            assert_eq!(span, b"ab");
            assert_eq!(span.len(), 2);
            assert_eq!(rest, Input::new(b"cd", false));
        },
        _ => panic!("expected a match"),
    }
}

#[test]
fn many_till_stops_past_the_end_marker() {
    // Everything before the semicolon is collected; the semicolon itself
    // is consumed but kept out of the collection.
    assert_eq!(
        many_till(Input::new(b"abc;def", false), &any(), &token(b';')),
        ParseResult::Success(Input::new(b"def", false), vec![b'a', b'b', b'c'])
    );
}

#[test]
fn label_replaces_only_the_diagnostic() {
    assert_eq!(
        label(token(b'a'), "renamed").parse(Input::new(b"b", false)),
        ParseResult::Failure(Input::new(b"b", false), "renamed")
    );
    assert_eq!(
        label(token(b'a'), "renamed").parse(Input::new(b"ab", false)),
        ParseResult::Success(Input::new(b"b", false), b'a')
    );
}
