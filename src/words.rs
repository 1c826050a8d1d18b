//! Casing of single words.
use vstd::prelude::*;

use crate::chars::{lower_char, push_char, to_lower, to_upper, upper_char};

verus! {

/// How each word of an identifier is cased before the words are joined.
#[derive(Debug, Clone, Copy, PartialEq, Eq, Structural)]
pub enum WordCasing {
    Unchanged,
    Lower,
    Upper,
    /// Lowercase, then the first letter uppercase.
    Capitalized,
}

pub open spec fn lower_word(w: Seq<char>) -> Seq<char> {
    w.map_values(|c: char| lower_char(c))
}

pub open spec fn upper_word(w: Seq<char>) -> Seq<char> {
    w.map_values(|c: char| upper_char(c))
}

/// `w` with its first character uppercase.
pub open spec fn capitalize_word(w: Seq<char>) -> Seq<char> {
    if w.len() == 0 {
        w
    } else {
        w.update(0, upper_char(w[0]))
    }
}

/// `w` with its first character lowercase.
pub open spec fn decapitalize_word(w: Seq<char>) -> Seq<char> {
    if w.len() == 0 {
        w
    } else {
        w.update(0, lower_char(w[0]))
    }
}

pub open spec fn cased_word(casing: WordCasing, w: Seq<char>) -> Seq<char> {
    match casing {
        WordCasing::Unchanged => w,
        WordCasing::Lower => lower_word(w),
        WordCasing::Upper => upper_word(w),
        WordCasing::Capitalized => capitalize_word(lower_word(w)),
    }
}

/// The character at `j` of `cased_word(casing, w)`, from `c == w[j]`.
pub open spec fn cased_char(casing: WordCasing, j: int, c: char) -> char {
    match casing {
        WordCasing::Unchanged => c,
        WordCasing::Lower => lower_char(c),
        WordCasing::Upper => upper_char(c),
        WordCasing::Capitalized => if j == 0 {
            upper_char(lower_char(c))
        } else {
            lower_char(c)
        },
    }
}

fn case_char(casing: WordCasing, j: usize, c: char) -> (r: char)
    ensures
        r == cased_char(casing, j as int, c),
{
    match casing {
        WordCasing::Unchanged => c,
        WordCasing::Lower => to_lower(c),
        WordCasing::Upper => to_upper(c),
        WordCasing::Capitalized => if j == 0 {
            to_upper(to_lower(c))
        } else {
            to_lower(c)
        },
    }
}

/// `w` with each character cased as `casing` says.
pub fn case_word(w: &str, casing: WordCasing) -> (r: String)
    ensures
        r@ == cased_word(casing, w@),
{
    let n = w.unicode_len();
    let mut out = String::new();
    let mut j: usize = 0;
    while j < n
        invariant
            n == w@.len(),
            j <= n,
            out@ == cased_word(casing, w@).take(j as int),
        decreases n - j,
    {
        let c = case_char(casing, j, w.get_char(j));
        assert(cased_word(casing, w@)[j as int] == c);
        push_char(&mut out, c);
        assert(out@ =~= cased_word(casing, w@).take(j + 1));
        j += 1;
    }
    assert(out@ =~= cased_word(casing, w@));
    out
}

/// `w` with its first character replaced by `first`.
fn replace_first(w: &str, first: char) -> (r: String)
    requires
        w@.len() > 0,
    ensures
        r@ == w@.update(0, first),
{
    let n = w.unicode_len();
    let mut out = String::new();
    push_char(&mut out, first);
    let mut j: usize = 1;
    while j < n
        invariant
            n == w@.len(),
            1 <= j <= n,
            out@ == w@.update(0, first).take(j as int),
        decreases n - j,
    {
        push_char(&mut out, w.get_char(j));
        assert(out@ =~= w@.update(0, first).take(j + 1));
        j += 1;
    }
    assert(out@ =~= w@.update(0, first));
    out
}

/// Capitalize the first letter of an identifier.
pub fn capitalize(out: String) -> (r: String)
    requires
        out@.len() > 0,
    ensures
        r@ == capitalize_word(out@),
{
    let first = to_upper(out.as_str().get_char(0));
    replace_first(out.as_str(), first)
}

/// Turn the first letter of an identifier lowercase.
pub fn decapitalize(out: String) -> (r: String)
    requires
        out@.len() > 0,
    ensures
        r@ == decapitalize_word(out@),
{
    let first = to_lower(out.as_str().get_char(0));
    replace_first(out.as_str(), first)
}

} // verus!
