//! The parser abstraction: the two-outcome parse result and the single-method
//! contract that every primitive and combinator implements.

use vstd::prelude::*;

verus! {

/// The outcome of applying a parser to an input slice.
///
/// On success, the unconsumed remainder of the input together with the parsed
/// value; on failure, the input at the point of failure.  The failure input is
/// always a suffix of the input the failing step was invoked with, but it is
/// not necessarily the input an outer combinator started with: `pair` does not
/// backtrack, while `pred`, `one_or_more` and `zero_or_more` roll back fully.
pub type ParseResult<'a, T> = Result<(&'a [char], T), &'a [char]>;

/// The specification-level counterpart of [`ParseResult`], over sequences of
/// Unicode scalar values.
pub type SpecResult<V> = Result<(Seq<char>, V), Seq<char>>;

/// The remainder carried by a parse outcome, on success and on failure alike.
pub open spec fn spec_remainder<V>(r: SpecResult<V>) -> Seq<char> {
    match r {
        Ok((rest, _)) => rest,
        Err(rest) => rest,
    }
}

/// `part` is a (not necessarily proper) suffix of `whole`.
pub open spec fn is_suffix_of(part: Seq<char>, whole: Seq<char>) -> bool {
    &&& part.len() <= whole.len()
    &&& part == whole.subrange(whole.len() - part.len(), whole.len() as int)
}

pub proof fn lemma_suffix_refl(s: Seq<char>)
    ensures
        is_suffix_of(s, s),
{
    assert(s.subrange(0, s.len() as int) =~= s);
}

/// Dropping a prefix of a sequence leaves a suffix of it.
pub proof fn lemma_skip_is_suffix(s: Seq<char>, k: int)
    requires
        0 <= k <= s.len(),
    ensures
        is_suffix_of(s.subrange(k, s.len() as int), s),
{
    assert(s.subrange(k, s.len() as int) =~= s.subrange(
        s.len() - s.subrange(k, s.len() as int).len(),
        s.len() as int,
    ));
}

pub proof fn lemma_suffix_trans(a: Seq<char>, b: Seq<char>, c: Seq<char>)
    requires
        is_suffix_of(a, b),
        is_suffix_of(b, c),
    ensures
        is_suffix_of(a, c),
{
    assert(a =~= c.subrange(c.len() - a.len(), c.len() as int));
}

/// A vector's element-wise abstraction extends a shorter vector's by one element.
pub proof fn lemma_deep_view_push<T: DeepView>(v1: Vec<T>, v2: Vec<T>, x: T)
    requires
        v2@ == v1@.push(x),
    ensures
        v2.deep_view() == v1.deep_view().push(x.deep_view()),
{
    assert(v2.deep_view() =~= v1.deep_view().push(x.deep_view()));
}

/// An empty vector abstracts to the empty sequence.
pub proof fn lemma_deep_view_empty<T: DeepView>(v: Vec<T>)
    requires
        v@.len() == 0,
    ensures
        v.deep_view() == Seq::<T::V>::empty(),
{
    assert(v.deep_view() =~= Seq::<T::V>::empty());
}

/// Concatenating vectors concatenates their element-wise abstractions.
pub proof fn lemma_deep_view_concat<T: DeepView>(v: Vec<T>, a: Vec<T>, b: Vec<T>)
    requires
        v@ == a@ + b@,
    ensures
        v.deep_view() == a.deep_view() + b.deep_view(),
{
    assert(v.deep_view() =~= a.deep_view() + b.deep_view());
}

/// The executable outcome `r` agrees with the specification outcome `s`:
/// same success/failure verdict, same remainder, same value.
pub open spec fn parse_obeys<T: DeepView>(s: SpecResult<T::V>, r: ParseResult<'_, T>) -> bool {
    match r {
        Ok((rest, v)) => s == Ok::<(Seq<char>, T::V), Seq<char>>((rest@, v.deep_view())),
        Err(rest) => s == Err::<(Seq<char>, T::V), Seq<char>>(rest@),
    }
}

/// The capability every primitive and combinator implements: a pure function
/// from input to a parse outcome.
///
/// `spec_parse` is the parser's mathematical meaning; the executable `parse`
/// is verified to agree with it exactly, and the remainder of every outcome
/// is proved to be a suffix of the input.
pub trait Parser: Sized {
    /// The specification-level value the parser yields.
    type Value;

    /// The executable value the parser yields; it abstracts to [`Self::Value`].
    type Output: DeepView<V = Self::Value>;

    /// What the parser returns, as a function of the input alone.
    spec fn spec_parse(&self, input: Seq<char>) -> SpecResult<Self::Value>;

    /// The remainder of an outcome, successful or failed, is always a suffix
    /// of the input this parser was invoked with.
    proof fn lemma_remainder_is_suffix(&self, input: Seq<char>)
        ensures
            is_suffix_of(spec_remainder(self.spec_parse(input)), input),
    ;

    /// Apply the parser to an input slice.
    fn parse<'a>(&self, input: &'a [char]) -> (r: ParseResult<'a, Self::Output>)
        ensures
            parse_obeys::<Self::Output>(self.spec_parse(input@), r),
    ;
}

/// A boolean test on a parsed value, used by the `pred` combinator.
///
/// `spec_test` is the test's mathematical meaning; the executable `test` is
/// verified to agree with it.
pub trait Predicate<T: DeepView>: Sized {
    /// What the test returns, as a function of the value alone.
    spec fn spec_test(&self, v: T::V) -> bool;

    /// Apply the test to a value.
    fn test(&self, v: &T) -> (r: bool)
        ensures
            r == self.spec_test(v.deep_view()),
    ;
}

/// A value transformation, used by the `map` combinator to change a parser's
/// output type without changing what it consumes.
///
/// `spec_apply` is the transformation's mathematical meaning; the executable
/// `apply` is verified to agree with it.
pub trait Transform<T: DeepView>: Sized {
    /// The executable value the transformation produces.
    type Output: DeepView;

    /// What the transformation returns, as a function of the value alone.
    spec fn spec_apply(&self, v: T::V) -> <Self::Output as DeepView>::V;

    /// Apply the transformation to a value.
    fn apply(&self, v: T) -> (r: Self::Output)
        ensures
            r.deep_view() == self.spec_apply(v.deep_view()),
    ;
}

} // verus!
