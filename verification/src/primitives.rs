//! Primitive parsers: the literal matcher, the identifier matcher, the
//! any-character matcher, and the single-letter parser.

use vstd::prelude::*;
use vstd::slice::slice_subrange;
use crate::classify::{alphabetic, IdentifierChar};
use crate::parse::{
    is_suffix_of, lemma_skip_is_suffix, lemma_suffix_refl, parse_obeys, spec_remainder, Parser,
    ParseResult, Predicate, SpecResult,
};

verus! {

/// The length of the longest prefix of `s` whose characters all satisfy `f`.
pub open spec fn run_len<F: Predicate<char>>(f: F, s: Seq<char>) -> nat
    decreases s.len(),
{
    if s.len() == 0 || !f.spec_test(s[0]) {
        0
    } else {
        (1 + run_len(f, s.subrange(1, s.len() as int))) as nat
    }
}

/// The run of characters satisfying `f` is maximal: every character in it
/// satisfies `f`, and the first character after it (if any) does not.
pub proof fn lemma_run_len_bounds<F: Predicate<char>>(f: F, s: Seq<char>)
    ensures
        run_len(f, s) <= s.len(),
        forall|j: int| 0 <= j < run_len(f, s) ==> f.spec_test(s[j]),
        run_len(f, s) < s.len() ==> !f.spec_test(s[run_len(f, s) as int]),
    decreases s.len(),
{
    if s.len() == 0 || !f.spec_test(s[0]) {
    } else {
        let tail = s.subrange(1, s.len() as int);
        lemma_run_len_bounds(f, tail);
        assert(forall|j: int| 1 <= j < run_len(f, s) ==> s[j] == tail[j - 1]);
    }
}

/// A scan that accepted exactly the first `k` characters determines the run length.
pub proof fn lemma_run_len_from_scan<F: Predicate<char>>(f: F, s: Seq<char>, k: int)
    requires
        0 <= k <= s.len(),
        forall|j: int| 0 <= j < k ==> f.spec_test(s[j]),
        k == s.len() || !f.spec_test(s[k]),
    ensures
        run_len(f, s) == k,
    decreases s.len(),
{
    if k == 0 {
    } else {
        let tail = s.subrange(1, s.len() as int);
        assert(forall|j: int| 0 <= j < k - 1 ==> tail[j] == s[j + 1]);
        if k < s.len() {
            assert(tail[k - 1] == s[k]);
        }
        lemma_run_len_from_scan(f, tail, k - 1);
    }
}

/// What `match_literal(expected)` recognizes: the input must begin with
/// exactly `expected`; on success exactly `expected.len()` characters are
/// consumed and the value is unit; on failure the input is returned untouched.
pub open spec fn spec_literal(expected: Seq<char>, input: Seq<char>) -> SpecResult<()> {
    if expected.len() <= input.len() && input.subrange(0, expected.len() as int) == expected {
        Ok((input.subrange(expected.len() as int, input.len() as int), ()))
    } else {
        Err(input)
    }
}

/// `input` begins with exactly the characters of `prefix`.
pub open spec fn starts_with(input: Seq<char>, prefix: Seq<char>) -> bool {
    &&& prefix.len() <= input.len()
    &&& input.subrange(0, prefix.len() as int) == prefix
}

/// For every expected literal and every input: matching the literal succeeds,
/// with remainder the input less its first `expected.len()` characters,
/// exactly when the input starts with the literal; otherwise it fails
/// returning the input unchanged.
pub proof fn lemma_match_literal_correct(expected: Seq<char>, input: Seq<char>)
    ensures
        starts_with(input, expected) ==> spec_literal(expected, input) == Ok::<
            (Seq<char>, ()),
            Seq<char>,
        >((input.subrange(expected.len() as int, input.len() as int), ())),
        !starts_with(input, expected) ==> spec_literal(expected, input) == Err::<
            (Seq<char>, ()),
            Seq<char>,
        >(input),
{
}

/// The literal matcher: succeeds exactly on inputs that start with `expected`.
pub struct MatchLiteral {
    pub expected: Vec<char>,
}

impl Parser for MatchLiteral {
    type Value = ();

    type Output = ();

    open spec fn spec_parse(&self, input: Seq<char>) -> SpecResult<()> {
        spec_literal(self.expected@, input)
    }

    proof fn lemma_remainder_is_suffix(&self, input: Seq<char>) {
        match self.spec_parse(input) {
            Ok(_) => lemma_skip_is_suffix(input, self.expected@.len() as int),
            Err(_) => lemma_suffix_refl(input),
        }
    }

    fn parse<'a>(&self, input: &'a [char]) -> (r: ParseResult<'a, ()>) {
        let n = self.expected.len();
        if n > input.len() {
            return Err(input);
        }
        let mut i: usize = 0;
        while i < n
            invariant
                0 <= i <= n,
                n == self.expected@.len(),
                n <= input@.len(),
                forall|j: int| 0 <= j < i ==> input@[j] == self.expected@[j],
            decreases n - i,
        {
            if input[i] != self.expected[i] {
                proof {
                    assert(input@.subrange(0, n as int)[i as int] == input@[i as int]);
                }
                return Err(input);
            }
            i += 1;
        }
        proof {
            assert(input@.subrange(0, n as int) =~= self.expected@);
        }
        Ok((slice_subrange(input, n, input.len()), ()))
    }
}

/// Build a parser that succeeds exactly on inputs starting with `expected`,
/// consuming it and yielding unit.
pub fn match_literal(expected: Vec<char>) -> (p: MatchLiteral)
    ensures
        p == (MatchLiteral { expected }),
{
    MatchLiteral { expected }
}

/// What `identifier` recognizes: the first character must be alphabetic; the
/// consumed run then extends over the maximal following run of alphanumeric
/// or hyphen characters, and is yielded as the value.  If the first character
/// is not alphabetic the input is returned unchanged.
pub open spec fn spec_identifier(input: Seq<char>) -> SpecResult<Seq<char>> {
    if input.len() == 0 || !alphabetic(input[0]) {
        Err(input)
    } else {
        let n = 1 + run_len(IdentifierChar, input.subrange(1, input.len() as int));
        Ok((input.subrange(n as int, input.len() as int), input.subrange(0, n as int)))
    }
}

/// `identifier` fails on any input whose first character is not alphabetic,
/// returning the input unchanged; otherwise it consumes the maximal leading
/// run of alphanumeric-or-hyphen characters following the alphabetic first
/// character, stopping (without failing) at the first disqualifying
/// character, which stays in the remainder.
pub proof fn lemma_identifier_correct(input: Seq<char>)
    ensures
        (input.len() == 0 || !alphabetic(input[0])) ==> spec_identifier(input) == Err::<
            (Seq<char>, Seq<char>),
            Seq<char>,
        >(input),
        input.len() > 0 && alphabetic(input[0]) ==> (spec_identifier(input) matches Ok(
            (rest, name),
        ) && {
            let n = name.len() as int;
            &&& 1 <= n <= input.len()
            &&& name == input.subrange(0, n)
            &&& rest == input.subrange(n, input.len() as int)
            &&& forall|j: int|
                1 <= j < n ==> #[trigger] (IdentifierChar).spec_test(input[j])
            &&& n < input.len() ==> !(IdentifierChar).spec_test(input[n])
        }),
{
    if input.len() > 0 && alphabetic(input[0]) {
        let tail = input.subrange(1, input.len() as int);
        lemma_run_len_bounds(IdentifierChar, tail);
        let n = 1 + run_len(IdentifierChar, tail) as int;
        assert(forall|j: int| 1 <= j < n ==> input[j] == tail[j - 1]);
        if n < input.len() {
            assert(input[n] == tail[n - 1]);
        }
    }
}

/// Match an identifier: an alphabetic character followed by the maximal run
/// of alphanumeric-or-hyphen characters, yielded as the consumed run.
pub fn identifier<'a>(input: &'a [char]) -> (r: ParseResult<'a, Vec<char>>)
    ensures
        parse_obeys::<Vec<char>>(spec_identifier(input@), r),
{
    if input.len() == 0 {
        return Err(input);
    }
    let first = input[0];
    if !first.is_alphabetic() {
        return Err(input);
    }
    let mut matched: Vec<char> = Vec::new();
    matched.push(first);
    let mut n: usize = 1;
    while n < input.len() && (input[n].is_alphanumeric() || input[n] == '-')
        invariant
            1 <= n <= input@.len(),
            alphabetic(input@[0]),
            forall|j: int| 1 <= j < n ==> (IdentifierChar).spec_test(input@[j]),
            matched@ == input@.subrange(0, n as int),
        decreases input@.len() - n,
    {
        matched.push(input[n]);
        n += 1;
        proof {
            assert(matched@ =~= input@.subrange(0, n as int));
        }
    }
    proof {
        let tail = input@.subrange(1, input@.len() as int);
        assert(forall|j: int| 0 <= j < n - 1 ==> tail[j] == input@[j + 1]);
        if n < input@.len() {
            assert(tail[n - 1] == input@[n as int]);
        }
        lemma_run_len_from_scan(IdentifierChar, tail, n - 1);
        assert(matched.deep_view() =~= matched@);
    }
    Ok((slice_subrange(input, n, input.len()), matched))
}

/// The identifier matcher as a parser value, so that it can be handed to
/// combinators; its behaviour is exactly that of [`identifier`].
pub struct Identifier;

impl Parser for Identifier {
    type Value = Seq<char>;

    type Output = Vec<char>;

    open spec fn spec_parse(&self, input: Seq<char>) -> SpecResult<Seq<char>> {
        spec_identifier(input)
    }

    proof fn lemma_remainder_is_suffix(&self, input: Seq<char>) {
        match self.spec_parse(input) {
            Ok(_) => {
                let tail = input.subrange(1, input.len() as int);
                lemma_run_len_bounds(IdentifierChar, tail);
                lemma_skip_is_suffix(input, 1 + run_len(IdentifierChar, tail) as int);
            },
            Err(_) => lemma_suffix_refl(input),
        }
    }

    fn parse<'a>(&self, input: &'a [char]) -> (r: ParseResult<'a, Vec<char>>) {
        identifier(input)
    }
}

/// What `any_char` recognizes: exactly one character from the front of the
/// input, yielded as the value; it fails only on empty input.
pub open spec fn spec_any_char(input: Seq<char>) -> SpecResult<char> {
    if input.len() == 0 {
        Err(input)
    } else {
        Ok((input.subrange(1, input.len() as int), input[0]))
    }
}

/// Consume one character from the front of the input and yield it; fails
/// only on empty input.
pub fn any_char<'a>(input: &'a [char]) -> (r: ParseResult<'a, char>)
    ensures
        parse_obeys::<char>(spec_any_char(input@), r),
{
    if input.len() == 0 {
        Err(input)
    } else {
        Ok((slice_subrange(input, 1, input.len()), input[0]))
    }
}

/// The any-character matcher as a parser value; its behaviour is exactly
/// that of [`any_char`].
pub struct AnyChar;

impl Parser for AnyChar {
    type Value = char;

    type Output = char;

    open spec fn spec_parse(&self, input: Seq<char>) -> SpecResult<char> {
        spec_any_char(input)
    }

    proof fn lemma_remainder_is_suffix(&self, input: Seq<char>) {
        match self.spec_parse(input) {
            Ok(_) => lemma_skip_is_suffix(input, 1),
            Err(_) => lemma_suffix_refl(input),
        }
    }

    fn parse<'a>(&self, input: &'a [char]) -> (r: ParseResult<'a, char>) {
        any_char(input)
    }
}

/// What `the_letter_a` recognizes: exactly one leading letter `a`.
pub open spec fn spec_the_letter_a(input: Seq<char>) -> SpecResult<()> {
    if input.len() > 0 && input[0] == 'a' {
        Ok((input.subrange(1, input.len() as int), ()))
    } else {
        Err(input)
    }
}

/// Match just the letter `a` at the front of the input.
pub fn the_letter_a<'a>(input: &'a [char]) -> (r: ParseResult<'a, ()>)
    ensures
        parse_obeys::<()>(spec_the_letter_a(input@), r),
{
    if input.len() > 0 && input[0] == 'a' {
        Ok((slice_subrange(input, 1, input.len()), ()))
    } else {
        Err(input)
    }
}

} // verus!
