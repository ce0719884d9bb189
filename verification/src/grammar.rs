//! Derived lexical parsers and the grammar fragment for the tag-based markup
//! subset: whitespace, quoted strings, attribute pairs and lists, and the
//! tag-opening parser, composed entirely from the primitive parsers and the
//! core combinators.
//!
//! Each constructor's contract states the composed parser's behaviour
//! directly, as a function of the input alone.

use vstd::prelude::*;
use crate::classify::{whitespace, CharDiffers, IsWhitespace};
use crate::combinators::{
    left, one_or_more, pair, parser_semantics, pred, right, spec_repeat, zero_or_more, Left,
    OneOrMore, Pair, Pred, Right, ZeroOrMore,
};
use crate::parse::{spec_remainder, Parser, Predicate, SpecResult};
use crate::primitives::{
    lemma_run_len_bounds, match_literal, run_len, spec_identifier, spec_literal, AnyChar,
    Identifier, MatchLiteral,
};

verus! {

/// A parser for one whitespace character.
pub type WhitespaceChar = Pred<AnyChar, IsWhitespace>;

/// A parser for one or more whitespace characters.
pub type OneOrMoreSpace = OneOrMore<WhitespaceChar>;

/// A parser for zero or more whitespace characters.
pub type ZeroOrMoreSpace = ZeroOrMore<WhitespaceChar>;

/// What `whitespace_char` recognizes: exactly one leading whitespace
/// character, yielded as the value.
pub open spec fn spec_whitespace_char(input: Seq<char>) -> SpecResult<char> {
    if input.len() > 0 && whitespace(input[0]) {
        Ok((input.subrange(1, input.len() as int), input[0]))
    } else {
        Err(input)
    }
}

/// Build a parser for a single whitespace character.
pub fn whitespace_char() -> (p: WhitespaceChar)
    ensures
        forall|input: Seq<char>| #[trigger] p.spec_parse(input) == spec_whitespace_char(input),
{
    pred(AnyChar, IsWhitespace)
}

/// Repeating a single-character predicate parser consumes exactly the
/// maximal leading run of characters satisfying the predicate and yields
/// those characters in order.
pub proof fn lemma_repeat_char_pred<F: Predicate<char>>(f: F, input: Seq<char>)
    ensures
        spec_repeat(parser_semantics(Pred { inner: AnyChar, condition: f }), input) == (
            input.subrange(run_len(f, input) as int, input.len() as int),
            input.subrange(0, run_len(f, input) as int),
        ),
    decreases input.len(),
{
    let p = Pred { inner: AnyChar, condition: f };
    let sem = parser_semantics(p);
    let n = run_len(f, input) as int;
    if input.len() == 0 || !f.spec_test(input[0]) {
        assert(sem(input) == p.spec_parse(input));
        assert(input.subrange(0, input.len() as int) =~= input);
        assert(input.subrange(0, 0) =~= Seq::<char>::empty());
    } else {
        let rest = input.subrange(1, input.len() as int);
        lemma_repeat_char_pred(f, rest);
        lemma_run_len_bounds(f, rest);
        let m = run_len(f, rest) as int;
        assert(run_len(f, input) == 1 + run_len(f, rest));
        assert(sem(input) == p.spec_parse(input));
        assert(rest.subrange(m, rest.len() as int) =~= input.subrange(n, input.len() as int));
        assert(seq![input[0]] + rest.subrange(0, m) =~= input.subrange(0, n));
    }
}

/// What `one_or_more_space` recognizes: the maximal non-empty leading run of
/// whitespace characters, yielded in order; if the input does not start with
/// whitespace it fails with the input unchanged.
pub open spec fn spec_one_or_more_space(input: Seq<char>) -> SpecResult<Seq<char>> {
    if input.len() > 0 && whitespace(input[0]) {
        let n = run_len(IsWhitespace, input) as int;
        Ok((input.subrange(n, input.len() as int), input.subrange(0, n)))
    } else {
        Err(input)
    }
}

/// Build a parser for one or more whitespace characters.
pub fn one_or_more_space() -> (p: OneOrMoreSpace)
    ensures
        forall|input: Seq<char>| #[trigger] p.spec_parse(input) == spec_one_or_more_space(input),
{
    let p = one_or_more(whitespace_char());
    proof {
        assert forall|input: Seq<char>| #[trigger] p.spec_parse(input) == spec_one_or_more_space(
            input,
        ) by {
            if input.len() > 0 && whitespace(input[0]) {
                let rest = input.subrange(1, input.len() as int);
                lemma_repeat_char_pred(IsWhitespace, rest);
                lemma_run_len_bounds(IsWhitespace, rest);
                let m = run_len(IsWhitespace, rest) as int;
                let n = run_len(IsWhitespace, input) as int;
                assert(run_len(IsWhitespace, input) == 1 + run_len(IsWhitespace, rest));
                assert(rest.subrange(m, rest.len() as int) =~= input.subrange(
                    n,
                    input.len() as int,
                ));
                assert(seq![input[0]] + rest.subrange(0, m) =~= input.subrange(0, n));
            }
        }
    }
    p
}

/// What `zero_or_more_space` recognizes: the maximal (possibly empty)
/// leading run of whitespace characters, yielded in order; it never fails.
pub open spec fn spec_zero_or_more_space(input: Seq<char>) -> SpecResult<Seq<char>> {
    let n = run_len(IsWhitespace, input) as int;
    Ok((input.subrange(n, input.len() as int), input.subrange(0, n)))
}

/// Build a parser for zero or more whitespace characters.
pub fn zero_or_more_space() -> (p: ZeroOrMoreSpace)
    ensures
        forall|input: Seq<char>| #[trigger] p.spec_parse(input) == spec_zero_or_more_space(input),
{
    let p = zero_or_more(whitespace_char());
    proof {
        assert forall|input: Seq<char>| #[trigger] p.spec_parse(input) == spec_zero_or_more_space(
            input,
        ) by {
            lemma_repeat_char_pred(IsWhitespace, input);
        }
    }
    p
}

/// The interior of a quoted string: characters other than the double quote.
pub type QuotedInterior = ZeroOrMore<Pred<AnyChar, CharDiffers>>;

/// A parser for a double-quoted string.
pub type QuotedString = Right<MatchLiteral, Left<QuotedInterior, MatchLiteral>>;

/// What `quoted_string` recognizes: a double quote, then the maximal run of
/// characters other than a double quote, then a closing double quote; the
/// interior characters are the value.  There is no escape handling: a
/// double quote cannot appear inside the value.  With no opening quote the
/// input is returned unchanged; with no closing quote the failure carries
/// the empty remainder left after the interior consumed everything.
pub open spec fn spec_quoted_string(input: Seq<char>) -> SpecResult<Seq<char>> {
    if input.len() == 0 || input[0] != '"' {
        Err(input)
    } else {
        let rest = input.subrange(1, input.len() as int);
        let n = run_len(CharDiffers { forbidden: '"' }, rest) as int;
        if n < rest.len() {
            Ok((rest.subrange(n + 1, rest.len() as int), rest.subrange(0, n)))
        } else {
            Err(Seq::empty())
        }
    }
}

/// Build a parser for a double-quoted string.
pub fn quoted_string() -> (p: QuotedString)
    ensures
        forall|input: Seq<char>| #[trigger] p.spec_parse(input) == spec_quoted_string(input),
{
    let p = right(
        match_literal(vec!['"']),
        left(
            zero_or_more(pred(AnyChar, CharDiffers { forbidden: '"' })),
            match_literal(vec!['"']),
        ),
    );
    proof {
        let quote = seq!['"'];
        assert(p.inner.first.expected@ =~= quote);
        assert(p.inner.second.inner.second.expected@ =~= quote);
        assert forall|input: Seq<char>| #[trigger] p.spec_parse(input) == spec_quoted_string(
            input,
        ) by {
            if input.len() == 0 || input[0] != '"' {
                if quote.len() <= input.len() && input.subrange(0, 1) == quote {
                    assert(input.subrange(0, 1)[0] == input[0]);
                }
            } else {
                assert(input.subrange(0, 1) =~= quote);
                let rest = input.subrange(1, input.len() as int);
                let f = CharDiffers { forbidden: '"' };
                lemma_repeat_char_pred(f, rest);
                lemma_run_len_bounds(f, rest);
                let n = run_len(f, rest) as int;
                let rem = rest.subrange(n, rest.len() as int);
                if n < rest.len() {
                    assert(rem[0] == rest[n]);
                    assert(rest[n] == '"');
                    assert(rem.subrange(0, 1) =~= quote);
                    assert(rem.subrange(1, rem.len() as int) =~= rest.subrange(
                        n + 1,
                        rest.len() as int,
                    ));
                } else {
                    assert(rem =~= Seq::<char>::empty());
                }
            }
        }
    }
    p
}

/// A parser for one `name="value"` attribute.
pub type AttributePair = Pair<Identifier, Right<MatchLiteral, QuotedString>>;

/// What `attribute_pair` recognizes: an identifier, a literal `=`, then a
/// quoted string, yielding the name and the value as a pair.  Failures of
/// the later steps carry the input already advanced past the earlier ones.
pub open spec fn spec_attribute_pair(input: Seq<char>) -> SpecResult<(Seq<char>, Seq<char>)> {
    match spec_identifier(input) {
        Ok((rest1, name)) => match spec_literal(seq!['='], rest1) {
            Ok((rest2, _)) => match spec_quoted_string(rest2) {
                Ok((rest3, value)) => Ok((rest3, (name, value))),
                Err(e) => Err(e),
            },
            Err(e) => Err(e),
        },
        Err(e) => Err(e),
    }
}

/// Build a parser for one `name="value"` attribute.
pub fn attribute_pair() -> (p: AttributePair)
    ensures
        forall|input: Seq<char>| #[trigger] p.spec_parse(input) == spec_attribute_pair(input),
{
    let p = pair(Identifier, right(match_literal(vec!['=']), quoted_string()));
    proof {
        assert(p.second.inner.first.expected@ =~= seq!['=']);
        assert forall|input: Seq<char>| #[trigger] p.spec_parse(input) == spec_attribute_pair(
            input,
        ) by {
            match spec_identifier(input) {
                Ok((rest1, name)) => {
                    assert(p.second.inner.second.spec_parse(spec_remainder(spec_literal(
                        seq!['='],
                        rest1,
                    ))) == spec_quoted_string(spec_remainder(spec_literal(seq!['='], rest1))));
                },
                Err(_) => {},
            }
        }
    }
    p
}

/// One element of an attribute list: at least one whitespace character, then
/// an attribute pair; only the pair is the value.
pub type AttributeItem = Right<OneOrMoreSpace, AttributePair>;

/// A parser for a whitespace-separated attribute list.
pub type Attributes = ZeroOrMore<AttributeItem>;

/// What one element of the attribute list recognizes: a non-empty run of
/// whitespace, then an attribute pair, whose name and value are the value.
pub open spec fn spec_attribute_item(input: Seq<char>) -> SpecResult<(Seq<char>, Seq<char>)> {
    match spec_one_or_more_space(input) {
        Ok((rest1, _)) => match spec_attribute_pair(rest1) {
            Ok((rest2, attr)) => Ok((rest2, attr)),
            Err(e) => Err(e),
        },
        Err(e) => Err(e),
    }
}

/// The meaning of one attribute-list element, as a function value for
/// repetition.
pub open spec fn attribute_item_semantics() -> spec_fn(Seq<char>) -> SpecResult<
    (Seq<char>, Seq<char>),
> {
    |i: Seq<char>| spec_attribute_item(i)
}

/// What `attributes` recognizes: zero or more attribute pairs, each preceded
/// by at least one whitespace character, in parse order and with duplicates
/// preserved; it never fails.
pub open spec fn spec_attributes(input: Seq<char>) -> SpecResult<Seq<(Seq<char>, Seq<char>)>> {
    let r = spec_repeat(attribute_item_semantics(), input);
    Ok((r.0, r.1))
}

/// Build a parser for a whitespace-separated attribute list.
pub fn attributes() -> (p: Attributes)
    ensures
        forall|input: Seq<char>| #[trigger] p.spec_parse(input) == spec_attributes(input),
{
    let p = zero_or_more(right(one_or_more_space(), attribute_pair()));
    proof {
        assert forall|i: Seq<char>| #[trigger] parser_semantics(p.inner)(i)
            == attribute_item_semantics()(i) by {
            assert(parser_semantics(p.inner)(i) == p.inner.spec_parse(i));
            assert(attribute_item_semantics()(i) == spec_attribute_item(i));
        }
        assert(parser_semantics(p.inner) =~= attribute_item_semantics());
    }
    p
}

/// A parser for the opening of an element: `<`, a name, then attributes.
pub type ElementStart = Right<MatchLiteral, Pair<Identifier, Attributes>>;

/// What `element_start` recognizes: a literal `<`, then an identifier naming
/// the element, then its attribute list, yielding the name and the ordered
/// attribute pairs.
pub open spec fn spec_element_start(input: Seq<char>) -> SpecResult<
    (Seq<char>, Seq<(Seq<char>, Seq<char>)>),
> {
    match spec_literal(seq!['<'], input) {
        Ok((rest1, _)) => match spec_identifier(rest1) {
            Ok((rest2, name)) => match spec_attributes(rest2) {
                Ok((rest3, attrs)) => Ok((rest3, (name, attrs))),
                Err(e) => Err(e),
            },
            Err(e) => Err(e),
        },
        Err(e) => Err(e),
    }
}

/// Build a parser for the opening of an element.
pub fn element_start() -> (p: ElementStart)
    ensures
        forall|input: Seq<char>| #[trigger] p.spec_parse(input) == spec_element_start(input),
{
    let p = right(match_literal(vec!['<']), pair(Identifier, attributes()));
    proof {
        assert(p.inner.first.expected@ =~= seq!['<']);
        assert forall|input: Seq<char>| #[trigger] p.spec_parse(input) == spec_element_start(
            input,
        ) by {
            match spec_literal(seq!['<'], input) {
                Ok((rest1, _)) => {
                    match spec_identifier(rest1) {
                        Ok((rest2, name)) => {
                            assert(p.inner.second.second.spec_parse(rest2) == spec_attributes(
                                rest2,
                            ));
                        },
                        Err(_) => {},
                    }
                },
                Err(_) => {},
            }
        }
    }
    p
}

/// The output shape of the target grammar: an element owns its name, its
/// attribute pairs in parse order (duplicate names permitted), and its
/// children, recursively.  Only the opening-tag part is constructible at
/// this scope: the grammar stops at [`element_start`].
#[derive(Debug, PartialEq, Eq)]
pub struct Element {
    pub name: Vec<char>,
    pub attributes: Vec<(Vec<char>, Vec<char>)>,
    pub children: Vec<Element>,
}

} // verus!
