use chomp::input::Input;
use chomp::parser::Parser;
use chomp::parsers::{string, token, Diag};
use chomp::result::ParseResult;
use chomp::stream::{Source, StreamOut};

#[test]
fn grow_and_retry_until_value() {
    let mut s = Source::new();
    let p = string(b"hello");
    s.feed(b"he");
    assert_eq!(s.parse(&p), StreamOut::Retry(3));
    s.feed(b"llo");
    assert_eq!(s.parse(&p), StreamOut::Value(()));
    s.close();
    assert_eq!(s.parse(&p), StreamOut::EndOfStream);
}

#[test]
fn chunked_feeding_matches_full_buffer() {
    // The same bytes, once in one piece and once byte by byte, reach the
    // same terminal outcome.
    let p = string(b"abc");

    let mut whole = Source::new();
    whole.feed(b"abc");
    let direct = whole.parse(&p);
    assert_eq!(direct, StreamOut::Value(()));

    let mut piecewise = Source::new();
    piecewise.feed(b"a");
    assert_eq!(piecewise.parse(&p), StreamOut::Retry(2));
    piecewise.feed(b"b");
    assert_eq!(piecewise.parse(&p), StreamOut::Retry(1));
    piecewise.feed(b"c");
    assert_eq!(piecewise.parse(&p), direct);
}

#[test]
fn chunked_feeding_matches_full_buffer_on_failure() {
    let p = string(b"abd");

    let mut whole = Source::new();
    whole.feed(b"abc");
    let direct = whole.parse(&p);
    assert_eq!(direct, StreamOut::ParseError(Diag::Expected(b'd')));

    let mut piecewise = Source::new();
    piecewise.feed(b"a");
    assert_eq!(piecewise.parse(&p), StreamOut::Retry(2));
    piecewise.feed(b"b");
    assert_eq!(piecewise.parse(&p), StreamOut::Retry(1));
    piecewise.feed(b"c");
    assert_eq!(piecewise.parse(&p), direct);
}

#[test]
fn exhausted_source_turns_incompleteness_terminal() {
    let mut s = Source::new();
    s.feed(b"ab");
    s.close();
    assert_eq!(s.parse(&string(b"abc")), StreamOut::UnexpectedEnd);
}

#[test]
fn cursor_commits_only_on_success() {
    let mut s = Source::new();
    s.feed(b"xy");
    // A failure leaves the cursor where it was.
    assert_eq!(s.parse(&token(b'a')), StreamOut::ParseError(Diag::Expected(b'a')));
    // The same bytes are still there to be consumed.
    assert_eq!(s.parse(&token(b'x')), StreamOut::Value(b'x'));
    assert_eq!(s.parse(&token(b'y')), StreamOut::Value(b'y'));
    s.close();
    assert_eq!(s.parse(&token(b'z')), StreamOut::EndOfStream);
}

#[test]
fn input_views_are_cheap_and_independent() {
    // Advancing a view produces a new one; the old view still covers the
    // same bytes, which is all that backtracking needs.
    let i = Input::new(b"abc", false);
    let j = i.advance(1);
    assert_eq!(i.slice(), b"abc");
    assert_eq!(j.slice(), b"bc");
    assert_eq!(i.len(), 3);
    assert_eq!(j.len(), 2);
    assert!(!j.is_end_of_input());
    // Both views stay usable for parsing.
    assert_eq!(
        token(b'a').parse(i),
        ParseResult::Success(Input::new(b"bc", false), b'a')
    );
    assert_eq!(
        token(b'b').parse(j),
        ParseResult::Success(Input::new(b"c", false), b'b')
    );
}
