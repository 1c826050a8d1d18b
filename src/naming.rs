//! Converting snake case names to pascal case names.
use vstd::prelude::*;

use crate::chars::{push_char, to_upper, upper_char};

verus! {

/// The pascal case form of `s[i..]`, where `after_letter` tells whether a
/// character other than an underscore has been read since the last double
/// underscore (or since the start).
pub open spec fn pascal_from(s: Seq<char>, i: int, after_letter: bool) -> Seq<char>
    decreases s.len() - i,
{
    if i < 0 || i >= s.len() {
        seq![]
    } else if s[i] == '_' && after_letter {
        if i + 1 >= s.len() {
            seq!['_']
        } else if s[i + 1] == '_' {
            seq!['_'] + pascal_from(s, i + 2, false)
        } else {
            seq![upper_char(s[i + 1])] + pascal_from(s, i + 2, true)
        }
    } else if s[i] != '_' && !after_letter {
        seq![upper_char(s[i])] + pascal_from(s, i + 1, true)
    } else {
        seq![s[i]] + pascal_from(s, i + 1, after_letter)
    }
}

/// A minimal snake case to pascal case converter: the first letter and each
/// letter after a single underscore become uppercase and that underscore is
/// dropped; leading underscores stay, and a double underscore becomes one.
pub fn snake_to_pascal(v: &str) -> (r: String)
    ensures
        r@ == pascal_from(v@, 0, false),
{
    let ghost s = v@;
    let n = v.unicode_len();
    let mut st = String::new();
    let mut preceeds_char = false;
    let mut i: usize = 0;
    while i < n
        invariant
            n == s.len(),
            s == v@,
            i <= n,
            st@ + pascal_from(s, i as int, preceeds_char) == pascal_from(s, 0, false),
        decreases n - i,
    {
        let c = v.get_char(i);
        let ghost before = st@;
        let ghost rest = pascal_from(s, i as int, preceeds_char);
        if c == '_' && preceeds_char {
            if i + 1 >= n {
                push_char(&mut st, c);
                i += 1;
            } else {
                let cc = v.get_char(i + 1);
                if cc == '_' {
                    push_char(&mut st, c);
                    preceeds_char = false;
                } else {
                    push_char(&mut st, to_upper(cc));
                }
                i += 2;
            }
        } else if c != '_' && !preceeds_char {
            push_char(&mut st, to_upper(c));
            preceeds_char = true;
            i += 1;
        } else {
            push_char(&mut st, c);
            i += 1;
        }
        assert(st@ + pascal_from(s, i as int, preceeds_char) =~= before + rest);
    }
    assert(st@ + pascal_from(s, i as int, preceeds_char) =~= st@);
    st
}

} // verus!
