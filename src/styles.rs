//! The built-in case styles: conversion to a style and the strictness check.
use vstd::prelude::*;

use crate::chars::push_char;
use crate::split::{reports_first_invalid, split, split_words, valid_identifier, InvalidCharacter};
use crate::words::{case_word, cased_word, decapitalize, decapitalize_word, WordCasing};

verus! {

/// A naming convention for identifiers.
#[derive(Debug, Clone, Copy, PartialEq, Eq, Structural)]
pub enum CaseStyle {
    /// `flatcase`
    Flat,
    /// `kebab-case`
    Kebab,
    /// `snake_case`
    Snake,
    /// `PascalCase`
    Pascal,
    /// `camelCase`
    Camel,
    /// `CONSTANT_CASE`
    Constant,
}

/// The characters placed between two words.
pub open spec fn joiner_seq(joiner: Option<char>) -> Seq<char> {
    match joiner {
        Some(c) => seq![c],
        None => seq![],
    }
}

impl CaseStyle {
    pub open spec fn spec_joiner(self) -> Option<char> {
        match self {
            CaseStyle::Kebab => Some('-'),
            CaseStyle::Snake | CaseStyle::Constant => Some('_'),
            _ => None,
        }
    }

    pub open spec fn spec_word_casing(self) -> WordCasing {
        match self {
            CaseStyle::Flat | CaseStyle::Kebab | CaseStyle::Snake => WordCasing::Lower,
            CaseStyle::Constant => WordCasing::Upper,
            CaseStyle::Pascal | CaseStyle::Camel => WordCasing::Capitalized,
        }
    }

    /// Whether the first letter of the joined result is made lowercase.
    pub open spec fn spec_decapitalizes(self) -> bool {
        self == CaseStyle::Camel
    }

    /// The character placed between two words, if any.
    pub fn joiner(&self) -> (r: Option<char>)
        ensures
            r == self.spec_joiner(),
    {
        match self {
            CaseStyle::Kebab => Some('-'),
            CaseStyle::Snake | CaseStyle::Constant => Some('_'),
            _ => None,
        }
    }

    /// How each word is cased.
    pub fn word_casing(&self) -> (r: WordCasing)
        ensures
            r == self.spec_word_casing(),
    {
        match self {
            CaseStyle::Flat | CaseStyle::Kebab | CaseStyle::Snake => WordCasing::Lower,
            CaseStyle::Constant => WordCasing::Upper,
            CaseStyle::Pascal | CaseStyle::Camel => WordCasing::Capitalized,
        }
    }

    /// Whether the first letter of the joined result is made lowercase.
    pub fn decapitalizes(&self) -> (r: bool)
        ensures
            r == self.spec_decapitalizes(),
    {
        matches!(self, CaseStyle::Camel)
    }
}

/// The words of `ws` in order, with `sep` between each two.
pub open spec fn join(ws: Seq<Seq<char>>, sep: Seq<char>) -> Seq<char>
    decreases ws.len(),
{
    if ws.len() == 0 {
        seq![]
    } else if ws.len() == 1 {
        ws[0]
    } else {
        join(ws.drop_last(), sep) + sep + ws.last()
    }
}

/// The words of `ws`, each cased as `casing` says.
pub open spec fn cased_words(casing: WordCasing, ws: Seq<Seq<char>>) -> Seq<Seq<char>> {
    ws.map_values(|w: Seq<char>| cased_word(casing, w))
}

/// The words `ws` written in `style`.
pub open spec fn styled(style: CaseStyle, ws: Seq<Seq<char>>) -> Seq<char> {
    let joined = join(cased_words(style.spec_word_casing(), ws), joiner_seq(style.spec_joiner()));
    if style.spec_decapitalizes() {
        decapitalize_word(joined)
    } else {
        joined
    }
}

/// A valid identifier `s` converted to `style`.
pub open spec fn converted(style: CaseStyle, s: Seq<char>) -> Seq<char> {
    styled(style, split_words(s))
}

/// The words of `s` joined with no separator equal `s` converted to `style`.
pub open spec fn strict_in(style: CaseStyle, s: Seq<char>) -> bool {
    join(split_words(s), seq![]) == converted(style, s)
}

/// What converting `s` to `style` gives: the conversion when `s` is valid,
/// else the report on its first invalid character.
pub open spec fn conversion_outcome(style: CaseStyle, s: Seq<char>, r: Result<String, InvalidCharacter>) -> bool {
    match r {
        Ok(out) => valid_identifier(s) && out@ == converted(style, s),
        Err(e) => reports_first_invalid(s, e),
    }
}

/// What checking `s` for strictness in `style` gives.
pub open spec fn strictness_outcome(style: CaseStyle, s: Seq<char>, r: Result<bool, InvalidCharacter>) -> bool {
    match r {
        Ok(b) => valid_identifier(s) && b == strict_in(style, s),
        Err(e) => reports_first_invalid(s, e),
    }
}

/// The words of `words`, each cased as `casing` says, joined with `joiner`.
pub fn join_cased(words: &Vec<String>, joiner: Option<char>, casing: WordCasing) -> (r: String)
    ensures
        r@ == join(cased_words(casing, words.deep_view()), joiner_seq(joiner)),
{
    let ghost all = cased_words(casing, words.deep_view());
    let ghost sep = joiner_seq(joiner);
    let mut out = String::new();
    let mut k: usize = 0;
    while k < words.len()
        invariant
            k <= words.len(),
            all == cased_words(casing, words.deep_view()),
            sep == joiner_seq(joiner),
            out@ == join(all.take(k as int), sep),
        decreases words.len() - k,
    {
        let ghost before = out@;
        if k > 0 {
            match joiner {
                Some(c) => push_char(&mut out, c),
                None => {},
            }
        }
        let w = case_word(words[k].as_str(), casing);
        out.append(w.as_str());
        assert(all.take(k + 1).drop_last() =~= all.take(k as int));
        assert(w@ == all[k as int]);
        if k > 0 {
            assert(out@ =~= before + sep + w@);
        } else {
            assert(out@ =~= w@);
        }
        k += 1;
    }
    assert(all.take(words.len() as int) =~= all);
    out
}

/// Writes already split words in `style`.
pub fn join_styled(words: &Vec<String>, style: CaseStyle) -> (r: String)
    ensures
        r@ == styled(style, words.deep_view()),
{
    let out = join_cased(words, style.joiner(), style.word_casing());
    if style.decapitalizes() && !out.as_str().is_empty() {
        decapitalize(out)
    } else {
        out
    }
}

/// Converts an identifier to `style`: its words are cased, joined, and, for
/// camel case, the first letter is made lowercase.
pub fn to_case(identifier: &str, style: CaseStyle) -> (r: Result<String, InvalidCharacter>)
    ensures
        conversion_outcome(style, identifier@, r),
{
    match split(identifier) {
        Ok(words) => Ok(join_styled(&words, style)),
        Err(e) => Err(e),
    }
}

/// Whether an identifier is strict in `style`: its words joined with no
/// separator read the same as its conversion to `style`.
pub fn is_strict_case(identifier: &str, style: CaseStyle) -> (r: Result<bool, InvalidCharacter>)
    ensures
        strictness_outcome(style, identifier@, r),
{
    match split(identifier) {
        Ok(words) => {
            let plain = join_cased(&words, None, WordCasing::Unchanged);
            let styled_words = join_styled(&words, style);
            assert(cased_words(WordCasing::Unchanged, words.deep_view()) =~= words.deep_view());
            Ok(plain == styled_words)
        },
        Err(e) => Err(e),
    }
}

/// Converts an identifier to flat case (`flatcase`): lowercase words joined without separators.
pub fn to_flat_case(identifier: &str) -> (r: Result<String, InvalidCharacter>)
    ensures
        conversion_outcome(CaseStyle::Flat, identifier@, r),
{
    to_case(identifier, CaseStyle::Flat)
}

/// Whether an identifier is strict in flat case (`flatcase`).
pub fn is_strict_flat_case(identifier: &str) -> (r: Result<bool, InvalidCharacter>)
    ensures
        strictness_outcome(CaseStyle::Flat, identifier@, r),
{
    is_strict_case(identifier, CaseStyle::Flat)
}

/// Converts an identifier to kebab case (`kebab-case`): lowercase words joined with dashes.
pub fn to_kebab_case(identifier: &str) -> (r: Result<String, InvalidCharacter>)
    ensures
        conversion_outcome(CaseStyle::Kebab, identifier@, r),
{
    to_case(identifier, CaseStyle::Kebab)
}

/// Whether an identifier is strict in kebab case (`kebab-case`).
pub fn is_strict_kebab_case(identifier: &str) -> (r: Result<bool, InvalidCharacter>)
    ensures
        strictness_outcome(CaseStyle::Kebab, identifier@, r),
{
    is_strict_case(identifier, CaseStyle::Kebab)
}

/// Converts an identifier to snake case (`snake_case`): lowercase words joined with underscores.
pub fn to_snake_case(identifier: &str) -> (r: Result<String, InvalidCharacter>)
    ensures
        conversion_outcome(CaseStyle::Snake, identifier@, r),
{
    to_case(identifier, CaseStyle::Snake)
}

/// Whether an identifier is strict in snake case (`snake_case`).
pub fn is_strict_snake_case(identifier: &str) -> (r: Result<bool, InvalidCharacter>)
    ensures
        strictness_outcome(CaseStyle::Snake, identifier@, r),
{
    is_strict_case(identifier, CaseStyle::Snake)
}

/// Converts an identifier to pascal case (`PascalCase`): capitalized words joined without separators.
pub fn to_pascal_case(identifier: &str) -> (r: Result<String, InvalidCharacter>)
    ensures
        conversion_outcome(CaseStyle::Pascal, identifier@, r),
{
    to_case(identifier, CaseStyle::Pascal)
}

/// Whether an identifier is strict in pascal case (`PascalCase`).
pub fn is_strict_pascal_case(identifier: &str) -> (r: Result<bool, InvalidCharacter>)
    ensures
        strictness_outcome(CaseStyle::Pascal, identifier@, r),
{
    is_strict_case(identifier, CaseStyle::Pascal)
}

/// Converts an identifier to camel case (`camelCase`): pascal case with a lowercase first letter.
pub fn to_camel_case(identifier: &str) -> (r: Result<String, InvalidCharacter>)
    ensures
        conversion_outcome(CaseStyle::Camel, identifier@, r),
{
    to_case(identifier, CaseStyle::Camel)
}

/// Whether an identifier is strict in camel case (`camelCase`).
pub fn is_strict_camel_case(identifier: &str) -> (r: Result<bool, InvalidCharacter>)
    ensures
        strictness_outcome(CaseStyle::Camel, identifier@, r),
{
    is_strict_case(identifier, CaseStyle::Camel)
}

/// Converts an identifier to constant case (`CONSTANT_CASE`): uppercase words joined with underscores.
pub fn to_constant_case(identifier: &str) -> (r: Result<String, InvalidCharacter>)
    ensures
        conversion_outcome(CaseStyle::Constant, identifier@, r),
{
    to_case(identifier, CaseStyle::Constant)
}

/// Whether an identifier is strict in constant case (`CONSTANT_CASE`).
pub fn is_strict_constant_case(identifier: &str) -> (r: Result<bool, InvalidCharacter>)
    ensures
        strictness_outcome(CaseStyle::Constant, identifier@, r),
{
    is_strict_case(identifier, CaseStyle::Constant)
}

} // verus!
