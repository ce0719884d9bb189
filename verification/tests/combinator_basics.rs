use rparsercom::combinators::{one_or_more, pair, right, zero_or_more};
use rparsercom::parse::Parser;
use rparsercom::primitives::{identifier, match_literal, Identifier};

fn chars(s: &str) -> Vec<char> {
    s.chars().collect()
}

#[test]
fn identifier_parser() {
    let input = chars("i-am-an-identifier");
    let empty = chars("");
    assert_eq!(
        Ok((empty.as_slice(), chars("i-am-an-identifier"))),
        identifier(&input)
    );

    let input = chars("not entirely an identifier");
    let rest = chars(" entirely an identifier");
    assert_eq!(Ok((rest.as_slice(), chars("not"))), identifier(&input));

    let input = chars("!not at all an identifier");
    assert_eq!(Err(input.as_slice()), identifier(&input));
}

#[test]
fn literal_parser() {
    let parse_joe = match_literal(chars("Hello Joe!"));

    let input = chars("Hello Joe!");
    let empty = chars("");
    assert_eq!(Ok((empty.as_slice(), ())), parse_joe.parse(&input));

    // consume "Hello Joe!", leaving " Hello Robert!"
    let input = chars("Hello Joe! Hello Robert!");
    let rest = chars(" Hello Robert!");
    assert_eq!(Ok((rest.as_slice(), ())), parse_joe.parse(&input));

    let input = chars("Hello Mike!");
    assert_eq!(Err(input.as_slice()), parse_joe.parse(&input));
}

#[test]
fn pair_combinator() {
    let tag_opener = pair(match_literal(chars("<")), Identifier);

    let input = chars("<my-first-element/>");
    let rest = chars("/>");
    assert_eq!(
        Ok((rest.as_slice(), ((), chars("my-first-element")))),
        tag_opener.parse(&input)
    );

    let input = chars("oops");
    assert_eq!(Err(input.as_slice()), tag_opener.parse(&input));

    let input = chars("<!oops");
    let failure = chars("!oops");
    assert_eq!(Err(failure.as_slice()), tag_opener.parse(&input));
}

#[test]
fn main_test_right_combinator() {
    let tag_opener = right(match_literal(chars("<")), Identifier);

    let input = chars("<test-element/>");
    let rest = chars("/>");
    assert_eq!(
        Ok((rest.as_slice(), chars("test-element"))),
        tag_opener.parse(&input)
    );

    let input = chars("oops");
    assert_eq!(Err(input.as_slice()), tag_opener.parse(&input));

    let input = chars("<!oops");
    let failure = chars("!oops");
    assert_eq!(Err(failure.as_slice()), tag_opener.parse(&input));
}

#[test]
fn main_test_one_or_more_combinator() {
    let parser = one_or_more(match_literal(chars("ha")));

    let input = chars("hahaha");
    let empty = chars("");
    assert_eq!(Ok((empty.as_slice(), vec![(), (), ()])), parser.parse(&input));

    let input = chars("ahah");
    assert_eq!(Err(input.as_slice()), parser.parse(&input));

    let input = chars("");
    assert_eq!(Err(input.as_slice()), parser.parse(&input));
}

#[test]
fn main_test_zero_or_more_combinator() {
    let parser = zero_or_more(match_literal(chars("ha")));

    let input = chars("hahaha");
    let empty = chars("");
    assert_eq!(Ok((empty.as_slice(), vec![(), (), ()])), parser.parse(&input));

    let input = chars("ahah");
    assert_eq!(Ok((input.as_slice(), vec![])), parser.parse(&input));

    let input = chars("");
    assert_eq!(Ok((input.as_slice(), vec![])), parser.parse(&input));
}
