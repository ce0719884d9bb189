//! Core combinators: sequencing (`pair`), projection (`left`, `right`),
//! mapping (`map`), filtering (`pred`), and repetition (`one_or_more`,
//! `zero_or_more`).
//!
//! Consumption and rollback follow the engine's deliberate asymmetry: when
//! the second half of a `pair` fails, the failure carries the input already
//! advanced past the first half, while `pred`, `one_or_more` and
//! `zero_or_more` restore the input they started with on failure.

use vstd::prelude::*;
use crate::parse::{
    is_suffix_of, lemma_deep_view_concat, lemma_deep_view_empty, lemma_deep_view_push,
    lemma_suffix_refl, lemma_suffix_trans, spec_remainder, Parser, ParseResult, Predicate,
    SpecResult, Transform,
};

verus! {

/// Sequencing: runs the first parser, then the second on its remainder, and
/// yields the tuple of both values.  No backtracking: if the second parser
/// fails, the failure carries the input left after the first one consumed.
pub struct Pair<P1, P2> {
    pub first: P1,
    pub second: P2,
}

impl<P1: Parser, P2: Parser> Parser for Pair<P1, P2> {
    type Value = (P1::Value, P2::Value);

    type Output = (P1::Output, P2::Output);

    open spec fn spec_parse(&self, input: Seq<char>) -> SpecResult<Self::Value> {
        match self.first.spec_parse(input) {
            Ok((rest1, v1)) => match self.second.spec_parse(rest1) {
                Ok((rest2, v2)) => Ok((rest2, (v1, v2))),
                Err(e) => Err(e),
            },
            Err(e) => Err(e),
        }
    }

    proof fn lemma_remainder_is_suffix(&self, input: Seq<char>) {
        self.first.lemma_remainder_is_suffix(input);
        match self.first.spec_parse(input) {
            Ok((rest1, _)) => {
                self.second.lemma_remainder_is_suffix(rest1);
                lemma_suffix_trans(
                    spec_remainder(self.second.spec_parse(rest1)),
                    rest1,
                    input,
                );
            },
            Err(_) => {},
        }
    }

    fn parse<'a>(&self, input: &'a [char]) -> (r: ParseResult<'a, Self::Output>) {
        match self.first.parse(input) {
            Ok((rest1, v1)) => match self.second.parse(rest1) {
                Ok((rest2, v2)) => Ok((rest2, (v1, v2))),
                Err(e) => Err(e),
            },
            Err(e) => Err(e),
        }
    }
}

/// Combine two parsers into one that runs them in sequence and yields the
/// tuple of both values.
pub fn pair<P1: Parser, P2: Parser>(parser1: P1, parser2: P2) -> (p: Pair<P1, P2>)
    ensures
        p == (Pair { first: parser1, second: parser2 }),
{
    Pair { first: parser1, second: parser2 }
}

/// Sequencing that keeps only the first value; consumption and failure
/// behaviour are exactly those of [`Pair`].
pub struct Left<P1, P2> {
    pub inner: Pair<P1, P2>,
}

impl<P1: Parser, P2: Parser> Parser for Left<P1, P2> {
    type Value = P1::Value;

    type Output = P1::Output;

    open spec fn spec_parse(&self, input: Seq<char>) -> SpecResult<Self::Value> {
        match self.inner.spec_parse(input) {
            Ok((rest, v)) => Ok((rest, v.0)),
            Err(e) => Err(e),
        }
    }

    proof fn lemma_remainder_is_suffix(&self, input: Seq<char>) {
        self.inner.lemma_remainder_is_suffix(input);
    }

    fn parse<'a>(&self, input: &'a [char]) -> (r: ParseResult<'a, Self::Output>) {
        match self.inner.parse(input) {
            Ok((rest, v)) => Ok((rest, v.0)),
            Err(e) => Err(e),
        }
    }
}

/// Combine two parsers into one that runs them in sequence and keeps only
/// the first value.
pub fn left<P1: Parser, P2: Parser>(parser1: P1, parser2: P2) -> (p: Left<P1, P2>)
    ensures
        p == (Left { inner: Pair { first: parser1, second: parser2 } }),
{
    Left { inner: pair(parser1, parser2) }
}

/// Sequencing that keeps only the second value; consumption and failure
/// behaviour are exactly those of [`Pair`].
pub struct Right<P1, P2> {
    pub inner: Pair<P1, P2>,
}

impl<P1: Parser, P2: Parser> Parser for Right<P1, P2> {
    type Value = P2::Value;

    type Output = P2::Output;

    open spec fn spec_parse(&self, input: Seq<char>) -> SpecResult<Self::Value> {
        match self.inner.spec_parse(input) {
            Ok((rest, v)) => Ok((rest, v.1)),
            Err(e) => Err(e),
        }
    }

    proof fn lemma_remainder_is_suffix(&self, input: Seq<char>) {
        self.inner.lemma_remainder_is_suffix(input);
    }

    fn parse<'a>(&self, input: &'a [char]) -> (r: ParseResult<'a, Self::Output>) {
        match self.inner.parse(input) {
            Ok((rest, v)) => Ok((rest, v.1)),
            Err(e) => Err(e),
        }
    }
}

/// Combine two parsers into one that runs them in sequence and keeps only
/// the second value.
pub fn right<P1: Parser, P2: Parser>(parser1: P1, parser2: P2) -> (p: Right<P1, P2>)
    ensures
        p == (Right { inner: Pair { first: parser1, second: parser2 } }),
{
    Right { inner: pair(parser1, parser2) }
}

/// Mapping: runs the inner parser and applies a transformation to the value,
/// preserving the remainder; failures propagate untouched.
pub struct Mapped<P, F> {
    pub inner: P,
    pub transform: F,
}

impl<P: Parser, F: Transform<P::Output>> Parser for Mapped<P, F> {
    type Value = <F::Output as DeepView>::V;

    type Output = F::Output;

    open spec fn spec_parse(&self, input: Seq<char>) -> SpecResult<Self::Value> {
        match self.inner.spec_parse(input) {
            Ok((rest, v)) => Ok((rest, self.transform.spec_apply(v))),
            Err(e) => Err(e),
        }
    }

    proof fn lemma_remainder_is_suffix(&self, input: Seq<char>) {
        self.inner.lemma_remainder_is_suffix(input);
    }

    fn parse<'a>(&self, input: &'a [char]) -> (r: ParseResult<'a, Self::Output>) {
        match self.inner.parse(input) {
            Ok((rest, v)) => Ok((rest, self.transform.apply(v))),
            Err(e) => Err(e),
        }
    }
}

/// Change a parser's output by applying `map_fn` to every value it yields,
/// without changing what it consumes.
pub fn map<P: Parser, F: Transform<P::Output>>(parser: P, map_fn: F) -> (p: Mapped<P, F>)
    ensures
        p == (Mapped { inner: parser, transform: map_fn }),
{
    Mapped { inner: parser, transform: map_fn }
}

/// Discards a value, mapping it to unit: the transformation for parsers,
/// such as separators, whose matched characters the caller ignores.
pub struct Discard;

impl<T: DeepView> Transform<T> for Discard {
    type Output = ();

    open spec fn spec_apply(&self, v: T::V) -> () {
        ()
    }

    fn apply(&self, v: T) -> (r: ()) {
        ()
    }
}

/// Filtering: runs the inner parser and accepts its value only if the
/// condition holds; on any failure the input this combinator started with is
/// returned (full rollback, unlike [`Pair`]).
pub struct Pred<P, F> {
    pub inner: P,
    pub condition: F,
}

impl<P: Parser, F: Predicate<P::Output>> Parser for Pred<P, F> {
    type Value = P::Value;

    type Output = P::Output;

    open spec fn spec_parse(&self, input: Seq<char>) -> SpecResult<Self::Value> {
        match self.inner.spec_parse(input) {
            Ok((rest, v)) => if self.condition.spec_test(v) {
                Ok((rest, v))
            } else {
                Err(input)
            },
            Err(_) => Err(input),
        }
    }

    proof fn lemma_remainder_is_suffix(&self, input: Seq<char>) {
        self.inner.lemma_remainder_is_suffix(input);
        lemma_suffix_refl(input);
    }

    fn parse<'a>(&self, input: &'a [char]) -> (r: ParseResult<'a, Self::Output>) {
        match self.inner.parse(input) {
            Ok((rest, v)) => if self.condition.test(&v) {
                Ok((rest, v))
            } else {
                Err(input)
            },
            Err(_) => Err(input),
        }
    }
}

/// Keep only the values of `parser` on which `predicate` holds; on predicate
/// failure the parser's consumption is discarded and the original input is
/// returned.
pub fn pred<P: Parser, F: Predicate<P::Output>>(parser: P, predicate: F) -> (p: Pred<P, F>)
    ensures
        p == (Pred { inner: parser, condition: predicate }),
{
    Pred { inner: parser, condition: predicate }
}

/// A parser's mathematical meaning as a plain function from input to outcome.
pub open spec fn parser_semantics<P: Parser>(p: P) -> spec_fn(Seq<char>) -> SpecResult<P::Value> {
    |input: Seq<char>| p.spec_parse(input)
}

/// The remainder and the ordered values of repeatedly applying `p` from
/// `input`: repetition stops at the first failure, and also as soon as a
/// success consumes nothing, so that it always terminates.
pub open spec fn spec_repeat<V>(
    p: spec_fn(Seq<char>) -> SpecResult<V>,
    input: Seq<char>,
) -> (Seq<char>, Seq<V>)
    decreases input.len(),
{
    match p(input) {
        Ok((rest, v)) => if rest.len() < input.len() {
            let r = spec_repeat(p, rest);
            (r.0, seq![v] + r.1)
        } else {
            (input, Seq::empty())
        },
        Err(_) => (input, Seq::empty()),
    }
}

/// The remainder of a repetition is a suffix of the input it started from.
pub proof fn lemma_repeat_remainder_is_suffix<P: Parser>(p: P, input: Seq<char>)
    ensures
        is_suffix_of(spec_repeat(parser_semantics(p), input).0, input),
    decreases input.len(),
{
    match p.spec_parse(input) {
        Ok((rest, _)) => if rest.len() < input.len() {
            p.lemma_remainder_is_suffix(input);
            lemma_repeat_remainder_is_suffix(p, rest);
            lemma_suffix_trans(spec_repeat(parser_semantics(p), rest).0, rest, input);
        } else {
            lemma_suffix_refl(input);
        },
        Err(_) => lemma_suffix_refl(input),
    }
}

/// Run the repetition loop of the `*` and `+` combinators: apply `p` as long
/// as it succeeds and consumes, accumulating the values in order.
fn repeat_from<'a, P: Parser>(p: &P, input: &'a [char]) -> (r: (&'a [char], Vec<P::Output>))
    ensures
        spec_repeat(parser_semantics(*p), input@).0 == r.0@,
        spec_repeat(parser_semantics(*p), input@).1 == r.1.deep_view(),
{
    let mut rest: &'a [char] = input;
    let mut values: Vec<P::Output> = Vec::new();
    proof {
        lemma_deep_view_empty(values);
    }
    loop
        invariant
            rest@.len() <= input@.len(),
            spec_repeat(parser_semantics(*p), input@).0 == spec_repeat(parser_semantics(*p), rest@).0,
            spec_repeat(parser_semantics(*p), input@).1 == values.deep_view() + spec_repeat(parser_semantics(*p), rest@).1,
        ensures
            spec_repeat(parser_semantics(*p), input@).0 == rest@,
            spec_repeat(parser_semantics(*p), input@).1 == values.deep_view(),
        decreases rest@.len(),
    {
        let ghost prev_values = values;
        let ghost prev_rest = rest@;
        match p.parse(rest) {
            Ok((next, v)) => {
                if next.len() < rest.len() {
                    let ghost vs = v;
                    values.push(v);
                    rest = next;
                    proof {
                        lemma_deep_view_push(prev_values, values, vs);
                        assert(spec_repeat(parser_semantics(*p), prev_rest).1 == seq![vs.deep_view()]
                            + spec_repeat(parser_semantics(*p), rest@).1);
                        assert(prev_values.deep_view() + (seq![vs.deep_view()] + spec_repeat(
                            parser_semantics(*p),
                            rest@,
                        ).1) =~= values.deep_view() + spec_repeat(parser_semantics(*p), rest@).1);
                    }
                } else {
                    proof {
                        assert(spec_repeat(parser_semantics(*p), rest@).1 =~= Seq::<P::Value>::empty());
                        assert(values.deep_view() + Seq::<P::Value>::empty()
                            =~= values.deep_view());
                    }
                    break;
                }
            },
            Err(_) => {
                proof {
                    assert(spec_repeat(parser_semantics(*p), rest@).1 =~= Seq::<P::Value>::empty());
                    assert(values.deep_view() + Seq::<P::Value>::empty() =~= values.deep_view());
                }
                break;
            },
        }
    }
    (rest, values)
}

/// Repetition requiring at least one success: fails, with the input at the
/// very start of the call, exactly when the inner parser fails there; on
/// success, repeatedly reapplies the inner parser, accumulating the ordered
/// values until it stops making progress.
pub struct OneOrMore<P> {
    pub inner: P,
}

impl<P: Parser> Parser for OneOrMore<P> {
    type Value = Seq<P::Value>;

    type Output = Vec<P::Output>;

    open spec fn spec_parse(&self, input: Seq<char>) -> SpecResult<Self::Value> {
        match self.inner.spec_parse(input) {
            Ok((rest, v)) => {
                let r = spec_repeat(parser_semantics(self.inner), rest);
                Ok((r.0, seq![v] + r.1))
            },
            Err(_) => Err(input),
        }
    }

    proof fn lemma_remainder_is_suffix(&self, input: Seq<char>) {
        match self.inner.spec_parse(input) {
            Ok((rest, _)) => {
                self.inner.lemma_remainder_is_suffix(input);
                lemma_repeat_remainder_is_suffix(self.inner, rest);
                lemma_suffix_trans(spec_repeat(parser_semantics(self.inner), rest).0, rest, input);
            },
            Err(_) => lemma_suffix_refl(input),
        }
    }

    fn parse<'a>(&self, input: &'a [char]) -> (r: ParseResult<'a, Self::Output>) {
        match self.inner.parse(input) {
            Ok((rest1, v1)) => {
                let (rest, mut tail) = repeat_from(&self.inner, rest1);
                let mut values: Vec<P::Output> = Vec::new();
                values.push(v1);
                let ghost head = values;
                let ghost rep = tail;
                values.append(&mut tail);
                proof {
                    lemma_deep_view_concat(values, head, rep);
                    assert(head.deep_view() =~= seq![v1.deep_view()]);
                }
                Ok((rest, values))
            },
            Err(_) => Err(input),
        }
    }
}

/// Build a parser that requires at least one success of `parser` and yields
/// the ordered sequence of values accumulated before its first failure.
pub fn one_or_more<P: Parser>(parser: P) -> (p: OneOrMore<P>)
    ensures
        p == (OneOrMore { inner: parser }),
{
    OneOrMore { inner: parser }
}

/// Repetition that never fails: applies the inner parser until it stops
/// succeeding or stops making progress, accumulating the ordered values;
/// zero successes yield an empty sequence and the input unchanged.
pub struct ZeroOrMore<P> {
    pub inner: P,
}

impl<P: Parser> Parser for ZeroOrMore<P> {
    type Value = Seq<P::Value>;

    type Output = Vec<P::Output>;

    open spec fn spec_parse(&self, input: Seq<char>) -> SpecResult<Self::Value> {
        let r = spec_repeat(parser_semantics(self.inner), input);
        Ok((r.0, r.1))
    }

    proof fn lemma_remainder_is_suffix(&self, input: Seq<char>) {
        lemma_repeat_remainder_is_suffix(self.inner, input);
    }

    fn parse<'a>(&self, input: &'a [char]) -> (r: ParseResult<'a, Self::Output>) {
        let (rest, values) = repeat_from(&self.inner, input);
        Ok((rest, values))
    }
}

/// Build a parser that applies `parser` as often as it succeeds and never
/// fails itself.
pub fn zero_or_more<P: Parser>(parser: P) -> (p: ZeroOrMore<P>)
    ensures
        p == (ZeroOrMore { inner: parser }),
{
    ZeroOrMore { inner: parser }
}

/// `zero_or_more` never fails, for any inner parser and any input, the empty
/// input included.
pub proof fn lemma_zero_or_more_never_fails<P: Parser>(p: ZeroOrMore<P>, input: Seq<char>)
    ensures
        p.spec_parse(input) is Ok,
{
}

/// `one_or_more` succeeds exactly when its inner parser succeeds at the start
/// of the input; when it fails, it fails with the input at the very start of
/// the call (no partial consumption is kept on total failure).
pub proof fn lemma_one_or_more_succeeds_iff<P: Parser>(p: OneOrMore<P>, input: Seq<char>)
    ensures
        p.spec_parse(input) is Ok <==> p.inner.spec_parse(input) is Ok,
        p.spec_parse(input) is Err ==> p.spec_parse(input) == Err::<
            (Seq<char>, Seq<P::Value>),
            Seq<char>,
        >(input),
{
}

/// Every successful outcome of `p` leaves a strictly shorter remainder.
pub open spec fn consumes_on_success<V>(p: spec_fn(Seq<char>) -> SpecResult<V>) -> bool {
    forall|input: Seq<char>|
        #[trigger] p(input) is Ok ==> spec_remainder(p(input)).len() < input.len()
}

/// The number of consecutive successful applications of `p` from `input`
/// before its first failure.
pub open spec fn success_count<V>(p: spec_fn(Seq<char>) -> SpecResult<V>, input: Seq<char>) -> nat
    decreases input.len(),
{
    match p(input) {
        Ok((rest, _)) => if rest.len() < input.len() {
            (1 + success_count(p, rest)) as nat
        } else {
            1
        },
        Err(_) => 0,
    }
}

proof fn lemma_repeat_counts<V>(p: spec_fn(Seq<char>) -> SpecResult<V>, input: Seq<char>)
    requires
        consumes_on_success(p),
    ensures
        spec_repeat(p, input).1.len() == success_count(p, input),
    decreases input.len(),
{
    match p(input) {
        Ok((rest, _)) => {
            lemma_repeat_counts(p, rest);
        },
        Err(_) => {},
    }
}

/// For an inner parser that consumes on every success, the value sequence of
/// a successful `one_or_more` has exactly one element per consecutive
/// successful application of the inner parser before its first failure.
pub proof fn lemma_one_or_more_length<P: Parser>(p: OneOrMore<P>, input: Seq<char>)
    requires
        consumes_on_success(parser_semantics(p.inner)),
    ensures
        p.spec_parse(input) matches Ok((rest, values)) ==> values.len() == success_count(
            parser_semantics(p.inner),
            input,
        ),
{
    match p.inner.spec_parse(input) {
        Ok((rest, _)) => {
            assert(parser_semantics(p.inner)(input) is Ok);
            lemma_repeat_counts(parser_semantics(p.inner), rest);
        },
        Err(_) => {},
    }
}

/// `pred` rolls back fully on failure: whether the inner parser failed or the
/// predicate rejected the value, the failure carries exactly the input `pred`
/// was invoked with, not the inner parser's partial consumption.
pub proof fn lemma_pred_rolls_back<P: Parser, F: Predicate<P::Output>>(
    p: Pred<P, F>,
    input: Seq<char>,
)
    ensures
        p.spec_parse(input) is Err ==> p.spec_parse(input) == Err::<
            (Seq<char>, P::Value),
            Seq<char>,
        >(input),
{
}

} // verus!
