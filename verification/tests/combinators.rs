use chomp::combinators::{
    count, look_ahead, many, many1, many_till, matched_by, sep_by, sep_by1, skip_many1, SepStep,
};
use chomp::input::Input;
use chomp::parsers::{any, fail, label, string, token};
use chomp::result::ParseResult;

#[test]
fn many_test() {
    let r: ParseResult<Vec<u8>, _> = many(Input::new(b"", false), &token(b'a'));
    assert_eq!(r, ParseResult::Incomplete(1));
    let r: ParseResult<Vec<u8>, _> = many(Input::new(b"a", false), &token(b'a'));
    assert_eq!(r, ParseResult::Incomplete(1));
    let r: ParseResult<Vec<u8>, _> = many(Input::new(b"aa", false), &token(b'a'));
    assert_eq!(r, ParseResult::Incomplete(1));

    let r = many(Input::new(b"bbb", false), &token(b'a'));
    assert_eq!(r, ParseResult::Success(Input::new(b"bbb", false), vec![]));
    let r = many(Input::new(b"abb", false), &token(b'a'));
    assert_eq!(r, ParseResult::Success(Input::new(b"bb", false), vec![b'a']));
    let r = many(Input::new(b"aab", false), &token(b'a'));
    assert_eq!(r, ParseResult::Success(Input::new(b"b", false), vec![b'a', b'a']));

    let r = many(Input::new(b"", true), &token(b'a'));
    assert_eq!(r, ParseResult::Success(Input::new(b"", true), vec![]));
    let r = many(Input::new(b"a", true), &token(b'a'));
    assert_eq!(r, ParseResult::Success(Input::new(b"", true), vec![b'a']));
    let r = many(Input::new(b"aa", true), &token(b'a'));
    assert_eq!(r, ParseResult::Success(Input::new(b"", true), vec![b'a', b'a']));

    let r = many(Input::new(b"aab", true), &token(b'a'));
    assert_eq!(r, ParseResult::Success(Input::new(b"b", true), vec![b'a', b'a']));
}

#[test]
fn many1_test() {
    let r: ParseResult<Vec<u8>, _> = many1(Input::new(b"", false), &token(b'a'));
    assert_eq!(r, ParseResult::Incomplete(1));
    let r: ParseResult<Vec<u8>, _> = many1(Input::new(b"a", false), &token(b'a'));
    assert_eq!(r, ParseResult::Incomplete(1));
    let r: ParseResult<Vec<u8>, _> = many1(Input::new(b"aa", false), &token(b'a'));
    assert_eq!(r, ParseResult::Incomplete(1));

    let r = many1(Input::new(b"bbb", false), &label(token(b'a'), "token_error"));
    assert_eq!(r, ParseResult::Failure(Input::new(b"bbb", false), "token_error"));
    let r = many1(Input::new(b"abb", false), &token(b'a'));
    assert_eq!(r, ParseResult::Success(Input::new(b"bb", false), vec![b'a']));
    let r = many1(Input::new(b"aab", false), &token(b'a'));
    assert_eq!(r, ParseResult::Success(Input::new(b"b", false), vec![b'a', b'a']));

    let r: ParseResult<Vec<u8>, _> = many1(Input::new(b"", true), &token(b'a'));
    assert_eq!(r, ParseResult::Incomplete(1));
    let r = many1(Input::new(b"a", true), &token(b'a'));
    assert_eq!(r, ParseResult::Success(Input::new(b"", true), vec![b'a']));
    let r = many1(Input::new(b"aa", true), &token(b'a'));
    assert_eq!(r, ParseResult::Success(Input::new(b"", true), vec![b'a', b'a']));

    let r = many1(Input::new(b"aab", true), &token(b'a'));
    assert_eq!(r, ParseResult::Success(Input::new(b"b", true), vec![b'a', b'a']));
}

#[test]
fn count_test() {
    let r: ParseResult<Vec<u8>, _> = count(Input::new(b"", false), 3, &token(b'a'));
    assert_eq!(r, ParseResult::Incomplete(1));
    let r: ParseResult<Vec<u8>, _> = count(Input::new(b"a", false), 3, &token(b'a'));
    assert_eq!(r, ParseResult::Incomplete(1));
    let r: ParseResult<Vec<u8>, _> = count(Input::new(b"aa", false), 3, &token(b'a'));
    assert_eq!(r, ParseResult::Incomplete(1));
    let r = count(Input::new(b"aaa", false), 3, &token(b'a'));
    assert_eq!(r, ParseResult::Success(Input::new(b"", false), vec![b'a', b'a', b'a']));
    let r = count(Input::new(b"aaaa", false), 3, &token(b'a'));
    assert_eq!(r, ParseResult::Success(Input::new(b"a", false), vec![b'a', b'a', b'a']));

    let r: ParseResult<Vec<u8>, _> = count(Input::new(b"", true), 3, &token(b'a'));
    assert_eq!(r, ParseResult::Incomplete(1));
    let r: ParseResult<Vec<u8>, _> = count(Input::new(b"a", true), 3, &token(b'a'));
    assert_eq!(r, ParseResult::Incomplete(1));
    let r: ParseResult<Vec<u8>, _> = count(Input::new(b"aa", true), 3, &token(b'a'));
    assert_eq!(r, ParseResult::Incomplete(1));
    let r = count(Input::new(b"aaa", true), 3, &token(b'a'));
    assert_eq!(r, ParseResult::Success(Input::new(b"", true), vec![b'a', b'a', b'a']));
    let r = count(Input::new(b"aaaa", true), 3, &token(b'a'));
    assert_eq!(r, ParseResult::Success(Input::new(b"a", true), vec![b'a', b'a', b'a']));
}

#[test]
fn skip_many1_test() {
    assert_eq!(
        skip_many1(Input::new(b"aabc", false), &token(b'a')),
        ParseResult::Success(Input::new(b"bc", false), ())
    );
    assert_eq!(
        skip_many1(Input::new(b"abc", false), &token(b'a')),
        ParseResult::Success(Input::new(b"bc", false), ())
    );
    assert_eq!(
        skip_many1(Input::new(b"bc", false), &fail::<(), &str>("error")),
        ParseResult::Failure(Input::new(b"bc", false), "error")
    );
    assert_eq!(
        skip_many1(Input::new(b"aaa", false), &token(b'a')),
        ParseResult::Incomplete(1)
    );
    assert_eq!(
        skip_many1(Input::new(b"aabc", true), &token(b'a')),
        ParseResult::Success(Input::new(b"bc", true), ())
    );
    assert_eq!(
        skip_many1(Input::new(b"abc", true), &token(b'a')),
        ParseResult::Success(Input::new(b"bc", true), ())
    );
    assert_eq!(
        skip_many1(Input::new(b"bc", true), &fail::<(), &str>("error")),
        ParseResult::Failure(Input::new(b"bc", true), "error")
    );
    assert_eq!(
        skip_many1(Input::new(b"aaa", true), &token(b'a')),
        ParseResult::Success(Input::new(b"", true), ())
    );
}

#[test]
fn many_till_test() {
    assert_eq!(
        many_till(Input::new(b"abcd", false), &any(), &token(b'c')),
        ParseResult::Success(Input::new(b"d", false), vec![b'a', b'b'])
    );
    let r: ParseResult<Vec<u8>, _> = many_till(Input::new(b"abd", false), &any(), &token(b'c'));
    assert_eq!(r, ParseResult::Incomplete(1));

    let r: ParseResult<Vec<u8>, _> = many_till(
        Input::new(b"abcd", false),
        &fail::<u8, ()>(()),
        &label(token(b'c'), ()),
    );
    assert_eq!(r, ParseResult::Failure(Input::new(b"abcd", false), ()));

    // The item parser matches once and then mismatches, so the failure
    // slice must point past the first match.
    let r: ParseResult<Vec<u8>, _> = many_till(
        Input::new(b"abcd", false),
        &label(token(b'a'), "the error"),
        &label(token(b'c'), "any err"),
    );
    assert_eq!(r, ParseResult::Failure(Input::new(b"bcd", false), "the error"));
}

#[test]
fn matched_by_test() {
    assert_eq!(
        matched_by(Input::new(b"abc", false), &any()),
        ParseResult::Success(Input::new(b"bc", false), (&b"a"[..], b'a'))
    );
    assert_eq!(
        matched_by(Input::new(b"abc", false), &fail::<(), &str>("my error")),
        ParseResult::Failure(Input::new(b"abc", false), "my error")
    );
    let consuming_then_failing = SepStep {
        sep: label(any(), "any error"),
        item: fail::<(), &str>("my error"),
    };
    assert_eq!(
        matched_by(Input::new(b"abc", false), &consuming_then_failing),
        ParseResult::Failure(Input::new(b"bc", false), "my error")
    );
    assert_eq!(
        matched_by(Input::new(b"", false), &any()),
        ParseResult::Incomplete(1)
    );
}

#[test]
fn sep_by_test() {
    assert_eq!(
        sep_by(Input::new(b"", true), &any(), &token(b';')),
        ParseResult::Success(Input::new(b"", true), vec![])
    );
    assert_eq!(
        sep_by(Input::new(b"b", true), &token(b'a'), &token(b';')),
        ParseResult::Success(Input::new(b"b", true), vec![])
    );
    assert_eq!(
        sep_by(Input::new(b"a", true), &any(), &token(b';')),
        ParseResult::Success(Input::new(b"", true), vec![b'a'])
    );
    assert_eq!(
        sep_by(Input::new(b"a;c", true), &any(), &token(b';')),
        ParseResult::Success(Input::new(b"", true), vec![b'a', b'c'])
    );
    assert_eq!(
        sep_by(Input::new(b"a;c;", true), &any(), &token(b';')),
        ParseResult::Success(Input::new(b";", true), vec![b'a', b'c'])
    );
    assert_eq!(
        sep_by(Input::new(b"a--c-", true), &any(), &string(b"--")),
        ParseResult::Success(Input::new(b"-", true), vec![b'a', b'c'])
    );
    assert_eq!(
        sep_by(Input::new(b"abc", true), &any(), &token(b';')),
        ParseResult::Success(Input::new(b"bc", true), vec![b'a'])
    );
    assert_eq!(
        sep_by(Input::new(b"a;bc", true), &any(), &token(b';')),
        ParseResult::Success(Input::new(b"c", true), vec![b'a', b'b'])
    );

    assert_eq!(
        sep_by(Input::new(b"abc", false), &any(), &token(b';')),
        ParseResult::Success(Input::new(b"bc", false), vec![b'a'])
    );
    assert_eq!(
        sep_by(Input::new(b"a;bc", false), &any(), &token(b';')),
        ParseResult::Success(Input::new(b"c", false), vec![b'a', b'b'])
    );

    // Incomplete because there might be another separator or item to be read
    let r: ParseResult<Vec<u8>, _> = sep_by(Input::new(b"", false), &any(), &token(b';'));
    assert_eq!(r, ParseResult::Incomplete(1));

    let r: ParseResult<Vec<u8>, _> = sep_by(Input::new(b"a", false), &any(), &token(b';'));
    assert_eq!(r, ParseResult::Incomplete(1));

    let r: ParseResult<Vec<u8>, _> = sep_by(Input::new(b"a;", false), &any(), &token(b';'));
    assert_eq!(r, ParseResult::Incomplete(1));

    let r: ParseResult<Vec<u8>, _> = sep_by(Input::new(b"a;c", false), &any(), &token(b';'));
    assert_eq!(r, ParseResult::Incomplete(1));

    let r: ParseResult<Vec<u8>, _> = sep_by(Input::new(b"a;c;", false), &any(), &token(b';'));
    assert_eq!(r, ParseResult::Incomplete(1));

    let r: ParseResult<Vec<u8>, _> = sep_by(Input::new(b"a--c-", false), &any(), &string(b"--"));
    assert_eq!(r, ParseResult::Incomplete(1));

    let r: ParseResult<Vec<()>, _> =
        sep_by(Input::new(b"aaa--a", false), &string(b"aaa"), &string(b"--"));
    assert_eq!(r, ParseResult::Incomplete(2));
}

#[test]
fn sep_by1_test() {
    let r: ParseResult<Vec<u8>, _> = sep_by1(Input::new(b"", true), &any(), &token(b';'));
    assert_eq!(r, ParseResult::Incomplete(1));

    let r: ParseResult<Vec<()>, _> = sep_by1(
        Input::new(b"b", true),
        &fail::<(), &str>("my err"),
        &label(token(b';'), "token_err"),
    );
    assert_eq!(r, ParseResult::Failure(Input::new(b"b", true), "my err"));

    assert_eq!(
        sep_by1(Input::new(b"a", true), &any(), &token(b';')),
        ParseResult::Success(Input::new(b"", true), vec![b'a'])
    );
    assert_eq!(
        sep_by1(Input::new(b"a;c", true), &any(), &token(b';')),
        ParseResult::Success(Input::new(b"", true), vec![b'a', b'c'])
    );
    assert_eq!(
        sep_by1(Input::new(b"a;c;", true), &any(), &token(b';')),
        ParseResult::Success(Input::new(b";", true), vec![b'a', b'c'])
    );
    assert_eq!(
        sep_by1(Input::new(b"a--c-", true), &any(), &string(b"--")),
        ParseResult::Success(Input::new(b"-", true), vec![b'a', b'c'])
    );
    assert_eq!(
        sep_by1(Input::new(b"abc", true), &any(), &token(b';')),
        ParseResult::Success(Input::new(b"bc", true), vec![b'a'])
    );
    assert_eq!(
        sep_by1(Input::new(b"a;bc", true), &any(), &token(b';')),
        ParseResult::Success(Input::new(b"c", true), vec![b'a', b'b'])
    );

    assert_eq!(
        sep_by1(Input::new(b"abc", false), &any(), &token(b';')),
        ParseResult::Success(Input::new(b"bc", false), vec![b'a'])
    );
    assert_eq!(
        sep_by1(Input::new(b"a;bc", false), &any(), &token(b';')),
        ParseResult::Success(Input::new(b"c", false), vec![b'a', b'b'])
    );

    // Incomplete because there might be another separator or item to be read
    let r: ParseResult<Vec<u8>, _> = sep_by1(Input::new(b"", false), &any(), &token(b';'));
    assert_eq!(r, ParseResult::Incomplete(1));

    let r: ParseResult<Vec<u8>, _> = sep_by1(Input::new(b"a", false), &any(), &token(b';'));
    assert_eq!(r, ParseResult::Incomplete(1));

    let r: ParseResult<Vec<u8>, _> = sep_by1(Input::new(b"a;", false), &any(), &token(b';'));
    assert_eq!(r, ParseResult::Incomplete(1));

    let r: ParseResult<Vec<u8>, _> = sep_by1(Input::new(b"a;c", false), &any(), &token(b';'));
    assert_eq!(r, ParseResult::Incomplete(1));

    let r: ParseResult<Vec<u8>, _> = sep_by1(Input::new(b"a;c;", false), &any(), &token(b';'));
    assert_eq!(r, ParseResult::Incomplete(1));

    let r: ParseResult<Vec<u8>, _> = sep_by1(Input::new(b"a--c-", false), &any(), &string(b"--"));
    assert_eq!(r, ParseResult::Incomplete(1));

    let r: ParseResult<Vec<()>, _> =
        sep_by1(Input::new(b"aaa--a", false), &string(b"aaa"), &string(b"--"));
    assert_eq!(r, ParseResult::Incomplete(2));
}

#[test]
fn look_ahead_test() {
    assert_eq!(
        look_ahead(Input::new(b"abc", false), &any()),
        ParseResult::Success(Input::new(b"abc", false), b'a')
    );
    assert_eq!(
        look_ahead(Input::new(b"a", false), &string(b"abc")),
        ParseResult::Incomplete(2)
    );
    // The peeked parser consumes one byte and then fails; the failure
    // surfaces with the diagnostic, and the position is reset to the
    // original view.
    let two = SepStep { sep: token(b'a'), item: token(b'b') };
    assert_eq!(
        look_ahead(Input::new(b"aa", false), &label(two, "err")),
        ParseResult::Failure(Input::new(b"aa", false), "err")
    );
}
