use rparsercom::classify::CharEquals;
use rparsercom::combinators::{left, one_or_more, pair, pred, right, zero_or_more, Discard};
use rparsercom::grammar::{
    attribute_pair, attributes, element_start, one_or_more_space, quoted_string, whitespace_char,
    zero_or_more_space,
};
use rparsercom::parse::Parser;
use rparsercom::primitives::{identifier, match_literal, the_letter_a, AnyChar, Identifier};

fn chars(s: &str) -> Vec<char> {
    s.chars().collect()
}

#[test]
fn test_identifier_parser() {
    let input = chars("i-am-an-identifier");
    let empty = chars("");
    assert_eq!(
        Ok((empty.as_slice(), chars("i-am-an-identifier"))),
        identifier(&input)
    );

    let input = chars("not entirely an identifier");
    let rest = chars(" entirely an identifier");
    assert_eq!(Ok((rest.as_slice(), chars("not"))), identifier(&input));

    let input = chars("!not at all an identifier");
    assert_eq!(Err(input.as_slice()), identifier(&input));
}

#[test]
fn test_literal_parser() {
    let parse_joe = match_literal(chars("Hello Joe!"));

    let input = chars("Hello Joe!");
    let empty = chars("");
    assert_eq!(Ok((empty.as_slice(), ())), parse_joe.parse(&input));

    // consume "Hello Joe!", leaving " Hello Robert!"
    let input = chars("Hello Joe! Hello Robert!");
    let rest = chars(" Hello Robert!");
    assert_eq!(Ok((rest.as_slice(), ())), parse_joe.parse(&input));

    let input = chars("Hello Mike!");
    assert_eq!(Err(input.as_slice()), parse_joe.parse(&input));
}

#[test]
fn test_pair_combinator() {
    let tag_opener = pair(match_literal(chars("<")), Identifier);

    let input = chars("<my-first-element/>");
    let rest = chars("/>");
    assert_eq!(
        Ok((rest.as_slice(), ((), chars("my-first-element")))),
        tag_opener.parse(&input)
    );

    let input = chars("oops");
    assert_eq!(Err(input.as_slice()), tag_opener.parse(&input));

    let input = chars("<!oops");
    let failure = chars("!oops");
    assert_eq!(Err(failure.as_slice()), tag_opener.parse(&input));
}

#[test]
fn test_right_combinator() {
    let tag_opener = right(match_literal(chars("<")), Identifier);

    let input = chars("<test-element/>");
    let rest = chars("/>");
    assert_eq!(
        Ok((rest.as_slice(), chars("test-element"))),
        tag_opener.parse(&input)
    );

    let input = chars("oops");
    assert_eq!(Err(input.as_slice()), tag_opener.parse(&input));

    let input = chars("<!oops");
    let failure = chars("!oops");
    assert_eq!(Err(failure.as_slice()), tag_opener.parse(&input));
}

#[test]
fn test_one_or_more_combinator() {
    let parser = one_or_more(match_literal(chars("ha")));

    let input = chars("hahaha");
    let empty = chars("");
    assert_eq!(Ok((empty.as_slice(), vec![(), (), ()])), parser.parse(&input));

    let input = chars("ahah");
    assert_eq!(Err(input.as_slice()), parser.parse(&input));

    let input = chars("");
    assert_eq!(Err(input.as_slice()), parser.parse(&input));
}

#[test]
fn test_zero_or_more_combinator() {
    let parser = zero_or_more(match_literal(chars("ha")));

    let input = chars("hahaha");
    let empty = chars("");
    assert_eq!(Ok((empty.as_slice(), vec![(), (), ()])), parser.parse(&input));

    let input = chars("ahah");
    assert_eq!(Ok((input.as_slice(), vec![])), parser.parse(&input));

    let input = chars("");
    assert_eq!(Ok((input.as_slice(), vec![])), parser.parse(&input));
}

#[test]
fn test_predicate_combinator() {
    let parser = pred(AnyChar, CharEquals { expected: 'o' });

    // get the 'o' from "omg"
    let input = chars("omg");
    let rest = chars("mg");
    assert_eq!(Ok((rest.as_slice(), 'o')), parser.parse(&input));

    let input = chars("lol");
    assert_eq!(Err(input.as_slice()), parser.parse(&input));
}

#[test]
fn test_quoted_string_parser() {
    let input = chars("\"Hello Joe!\"");
    let empty = chars("");
    assert_eq!(
        Ok((empty.as_slice(), chars("Hello Joe!"))),
        quoted_string().parse(&input)
    );
}

#[test]
fn attribute_parser() {
    let input = chars(" one=\"1\" two=\"2\"");
    let empty = chars("");
    assert_eq!(
        Ok((
            empty.as_slice(),
            vec![(chars("one"), chars("1")), (chars("two"), chars("2"))]
        )),
        attributes().parse(&input)
    );
}

#[test]
fn attribute_pair_parser() {
    let input = chars("one=\"1\"");
    let empty = chars("");
    assert_eq!(
        Ok((empty.as_slice(), (chars("one"), chars("1")))),
        attribute_pair().parse(&input)
    );
}

#[test]
fn element_start_parser() {
    let input = chars("<my-element one=\"1\"/>");
    let rest = chars("/>");
    assert_eq!(
        Ok((
            rest.as_slice(),
            (chars("my-element"), vec![(chars("one"), chars("1"))])
        )),
        element_start().parse(&input)
    );

    let input = chars("oops");
    assert_eq!(Err(input.as_slice()), element_start().parse(&input));
}

#[test]
fn left_combinator() {
    let parser = left(match_literal(chars("a")), match_literal(chars("b")));

    let input = chars("abc");
    let rest = chars("c");
    assert_eq!(Ok((rest.as_slice(), ())), parser.parse(&input));

    // the second half fails with the input already advanced past the first
    let input = chars("ax");
    let failure = chars("x");
    assert_eq!(Err(failure.as_slice()), parser.parse(&input));
}

#[test]
fn map_combinator() {
    // consume one character but discard its value
    let parser = rparsercom::combinators::map(AnyChar, Discard);

    let input = chars("omg");
    let rest = chars("mg");
    assert_eq!(Ok((rest.as_slice(), ())), parser.parse(&input));

    let input = chars("");
    assert_eq!(Err(input.as_slice()), parser.parse(&input));
}

#[test]
fn quoted_string_without_closing_quote() {
    // the interior consumes everything, and the closing quote fails on the
    // empty remainder
    let input = chars("\"abc");
    let empty = chars("");
    assert_eq!(Err(empty.as_slice()), quoted_string().parse(&input));
}

#[test]
fn empty_literal_matches_everywhere() {
    let parser = match_literal(chars(""));

    let input = chars("abc");
    assert_eq!(Ok((input.as_slice(), ())), parser.parse(&input));

    let input = chars("");
    assert_eq!(Ok((input.as_slice(), ())), parser.parse(&input));
}

#[test]
fn repetition_stops_without_progress() {
    // a sub-parser that succeeds without consuming would repeat forever;
    // the repetition keeps the first success and then stops
    let input = chars("xyz");
    let one = one_or_more(match_literal(chars("")));
    assert_eq!(Ok((input.as_slice(), vec![()])), one.parse(&input));

    let zero = zero_or_more(match_literal(chars("")));
    assert_eq!(Ok((input.as_slice(), vec![])), zero.parse(&input));
}

#[test]
fn whitespace_parsers() {
    let input = chars("  x");
    let rest = chars("x");
    assert_eq!(
        Ok((rest.as_slice(), vec![' ', ' '])),
        one_or_more_space().parse(&input)
    );
    assert_eq!(
        Ok((rest.as_slice(), vec![' ', ' '])),
        zero_or_more_space().parse(&input)
    );

    let input = chars("x");
    assert_eq!(Err(input.as_slice()), one_or_more_space().parse(&input));
    assert_eq!(Ok((input.as_slice(), vec![])), zero_or_more_space().parse(&input));

    let input = chars(" rest");
    let rest = chars("rest");
    assert_eq!(Ok((rest.as_slice(), ' ')), whitespace_char().parse(&input));
}

#[test]
fn attributes_keeps_duplicates_in_order() {
    let input = chars(" a=\"1\" a=\"2\"");
    let empty = chars("");
    assert_eq!(
        Ok((
            empty.as_slice(),
            vec![(chars("a"), chars("1")), (chars("a"), chars("2"))]
        )),
        attributes().parse(&input)
    );

    // zero attributes is valid
    let input = chars("");
    assert_eq!(Ok((input.as_slice(), vec![])), attributes().parse(&input));
}

#[test]
fn the_letter_a_parser() {
    let input = chars("aaab");
    let rest = chars("aab");
    assert_eq!(Ok((rest.as_slice(), ())), the_letter_a(&input));

    let input = chars("baa");
    assert_eq!(Err(input.as_slice()), the_letter_a(&input));
}
