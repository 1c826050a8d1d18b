//! Splitting an identifier into its atomic words.
use vstd::prelude::*;

use crate::chars::{is_letter, is_lower, is_separator, is_upper, lower, push_char, separator, upper};

verus! {

/// Stands for a missing neighbour in an `InvalidCharacter` report.
pub const NO_CASE: char = '?';

/// A character inside a word that is neither an ASCII uppercase nor an
/// ASCII lowercase letter, with its neighbours in the same segment
/// (`NO_CASE` at a segment boundary).
#[derive(Debug, Clone, Copy, PartialEq, Eq, Structural)]
pub struct InvalidCharacter {
    pub previous: char,
    pub found: char,
    pub next: char,
}

/// Every character is a separator or an ASCII letter.
pub open spec fn valid_identifier(s: Seq<char>) -> bool {
    forall|i: int| 0 <= i < s.len() ==> is_separator(#[trigger] s[i]) || is_letter(s[i])
}

/// The uppercase letter at `i` begins a new word: it follows a lowercase
/// letter, or a lowercase letter follows it.
pub open spec fn starts_word(s: Seq<char>, i: int) -> bool {
    is_upper(s[i]) && ((i > 0 && is_lower(s[i - 1])) || (i + 1 < s.len() && is_lower(s[i + 1])))
}

/// Appends a finished word, unless it is empty.
pub open spec fn push_word(ws: Seq<Seq<char>>, w: Seq<char>) -> Seq<Seq<char>> {
    if w.len() == 0 {
        ws
    } else {
        ws.push(w)
    }
}

/// The finished words and the word being read after the first `n`
/// characters of `s`.
pub open spec fn scan(s: Seq<char>, n: nat) -> (Seq<Seq<char>>, Seq<char>)
    decreases n,
{
    if n == 0 || n > s.len() {
        (seq![], seq![])
    } else {
        let (ws, w) = scan(s, (n - 1) as nat);
        let c = s[n - 1];
        if is_separator(c) {
            (push_word(ws, w), seq![])
        } else if starts_word(s, n - 1) {
            (push_word(ws, w), seq![c])
        } else {
            (ws, w.push(c))
        }
    }
}

/// The words of a valid identifier, left to right.
pub open spec fn split_words(s: Seq<char>) -> Seq<Seq<char>> {
    push_word(scan(s, s.len()).0, scan(s, s.len()).1)
}

/// `i` is the first position of `s` that holds neither a separator nor a letter.
pub open spec fn first_invalid(s: Seq<char>, i: int) -> bool {
    &&& 0 <= i < s.len()
    &&& !is_separator(s[i])
    &&& !is_letter(s[i])
    &&& valid_identifier(s.take(i))
}

/// The character at `j` if it lies in the same segment, else `NO_CASE`.
pub open spec fn neighbour(s: Seq<char>, j: int) -> char {
    if 0 <= j < s.len() && !is_separator(s[j]) {
        s[j]
    } else {
        NO_CASE
    }
}

/// The report on the invalid character at `i`.
pub open spec fn invalid_at(s: Seq<char>, i: int) -> InvalidCharacter {
    InvalidCharacter { previous: neighbour(s, i - 1), found: s[i], next: neighbour(s, i + 1) }
}

/// `e` reports the first invalid character of `s`.
pub open spec fn reports_first_invalid(s: Seq<char>, e: InvalidCharacter) -> bool {
    exists|i: int| first_invalid(s, i) && e == invalid_at(s, i)
}

/// What splitting `s` gives: its words when it is valid, else the report
/// on its first invalid character.
pub open spec fn split_outcome(s: Seq<char>, r: Result<Vec<String>, InvalidCharacter>) -> bool {
    match r {
        Ok(ws) => valid_identifier(s) && ws.deep_view() == split_words(s),
        Err(e) => reports_first_invalid(s, e),
    }
}

/// Appends `w` to the finished words unless it is empty.
fn flush(words: &mut Vec<String>, w: String)
    ensures
        final(words).deep_view() == push_word(old(words).deep_view(), w@),
{
    if !w.as_str().is_empty() {
        let ghost before = words.deep_view();
        words.push(w);
        assert(words.deep_view() =~= before.push(w@));
    }
}

/// The character at `j` if it lies in the same segment, else `NO_CASE`.
fn neighbour_at(s: &str, n: usize, j: usize) -> (r: char)
    requires
        n == s@.len(),
    ensures
        r == neighbour(s@, j as int),
{
    if j < n {
        let c = s.get_char(j);
        if separator(c) {
            NO_CASE
        } else {
            c
        }
    } else {
        NO_CASE
    }
}

/// Splits an identifier into its words. Separators end a word; within a
/// segment an uppercase letter that follows a lowercase letter, or that a
/// lowercase letter follows, begins a new one. Empty words are dropped.
pub fn split(identifier: &str) -> (r: Result<Vec<String>, InvalidCharacter>)
    ensures
        split_outcome(identifier@, r),
{
    let ghost s = identifier@;
    let n = identifier.unicode_len();
    let mut words: Vec<String> = Vec::new();
    let mut buffer = String::new();
    let mut i: usize = 0;
    while i < n
        invariant
            n == s.len(),
            s == identifier@,
            i <= n,
            valid_identifier(s.take(i as int)),
            words.deep_view() == scan(s, i as nat).0,
            buffer@ == scan(s, i as nat).1,
        decreases n - i,
    {
        let c = identifier.get_char(i);
        assert(s.take(i + 1) =~= s.take(i as int).push(c));
        if separator(c) {
            flush(&mut words, buffer);
            buffer = String::new();
        } else if upper(c) {
            let prev_lower = i > 0 && lower(identifier.get_char(i - 1));
            let next_lower = i + 1 < n && lower(identifier.get_char(i + 1));
            if prev_lower || next_lower {
                flush(&mut words, buffer);
                buffer = String::new();
            }
            push_char(&mut buffer, c);
        } else if lower(c) {
            push_char(&mut buffer, c);
        } else {
            let previous = if i > 0 {
                neighbour_at(identifier, n, i - 1)
            } else {
                NO_CASE
            };
            let next = neighbour_at(identifier, n, i + 1);
            assert(first_invalid(s, i as int));
            return Err(InvalidCharacter { previous, found: c, next });
        }
        i += 1;
    }
    assert(s.take(n as int) =~= s);
    flush(&mut words, buffer);
    Ok(words)
}

/// Splitting into atomic words, for the string types.
pub trait SplitCase {
    /// The characters of the identifier.
    spec fn identifier_view(&self) -> Seq<char>;

    /// Splits an identifier into atomic words. A word is uppercase (`ABC`),
    /// capitalized (`Abc`) or lowercase (`abc`).
    fn to_split_case(&self) -> (r: Result<Vec<String>, InvalidCharacter>)
        ensures
            split_outcome(self.identifier_view(), r),
    ;
}

impl SplitCase for str {
    open spec fn identifier_view(&self) -> Seq<char> {
        self@
    }

    fn to_split_case(&self) -> (r: Result<Vec<String>, InvalidCharacter>) {
        split(self)
    }
}

impl SplitCase for String {
    open spec fn identifier_view(&self) -> Seq<char> {
        self@
    }

    fn to_split_case(&self) -> (r: Result<Vec<String>, InvalidCharacter>) {
        split(self.as_str())
    }
}

} // verus!
