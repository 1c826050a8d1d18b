//! What holds of the splitter and the conversions together.
use vstd::prelude::*;

use crate::chars::{is_letter, is_lower, is_separator, is_upper, lower_char, upper_char};
use crate::split::{push_word, scan, split_words, starts_word, valid_identifier};
use crate::styles::{cased_words, converted, join, joiner_seq, strict_in, styled, CaseStyle};
use crate::words::{cased_word, decapitalize_word, lower_word, WordCasing};

verus! {

/// `s` without its separators.
pub open spec fn strip_separators(s: Seq<char>) -> Seq<char>
    decreases s.len(),
{
    if s.len() == 0 {
        seq![]
    } else if is_separator(s.last()) {
        strip_separators(s.drop_last())
    } else {
        strip_separators(s.drop_last()).push(s.last())
    }
}

/// No word of `ws` holds a separator.
pub open spec fn separator_free(ws: Seq<Seq<char>>) -> bool {
    forall|k: int, j: int|
        0 <= k < ws.len() && 0 <= j < ws[k].len() ==> !is_separator(#[trigger] ws[k][j])
}

proof fn lemma_join_push(ws: Seq<Seq<char>>, w: Seq<char>, sep: Seq<char>)
    ensures
        join(ws.push(w), sep) == if ws.len() == 0 {
            w
        } else {
            join(ws, sep) + sep + w
        },
{
    assert(ws.push(w).drop_last() =~= ws);
}

proof fn lemma_join_push_word(ws: Seq<Seq<char>>, w: Seq<char>)
    ensures
        join(push_word(ws, w), seq![]) == join(ws, seq![]) + w,
{
    if w.len() == 0 {
        assert(join(ws, seq![]) + w =~= join(ws, seq![]));
    } else {
        lemma_join_push(ws, w, seq![]);
        if ws.len() == 0 {
            assert(join(ws, seq![]) + w =~= w);
        } else {
            assert(join(ws, seq![]) + seq![] + w =~= join(ws, seq![]) + w);
        }
    }
}

proof fn lemma_scan_letters(s: Seq<char>, n: nat)
    requires
        n <= s.len(),
    ensures
        join(scan(s, n).0, seq![]) + scan(s, n).1 == strip_separators(s.take(n as int)),
        separator_free(scan(s, n).0.push(scan(s, n).1)),
    decreases n,
{
    if n == 0 {
        assert(join(scan(s, n).0, seq![]) + scan(s, n).1 =~= seq![]);
        assert(separator_free(scan(s, n).0.push(scan(s, n).1)));
    } else {
        let m = (n - 1) as nat;
        lemma_scan_letters(s, m);
        let (ws, w) = scan(s, m);
        let c = s[m as int];
        assert(s.take(n as int).drop_last() =~= s.take(m as int));
        lemma_join_push_word(ws, w);
        let pw = push_word(ws, w);
        let (ws2, w2) = scan(s, n);
        if is_separator(c) {
            assert(join(ws2, seq![]) + w2 =~= join(ws, seq![]) + w);
        } else if crate::split::starts_word(s, m as int) {
            assert(join(ws2, seq![]) + w2 =~= (join(ws, seq![]) + w).push(c));
        } else {
            assert(join(ws2, seq![]) + w2 =~= (join(ws, seq![]) + w).push(c));
        }
        assert forall|k: int, j: int|
            0 <= k < ws2.push(w2).len() && 0 <= j < ws2.push(w2)[k].len() implies !is_separator(
                #[trigger] ws2.push(w2)[k][j],
            ) by {
            assert(ws.push(w)[ws.len() as int] == w);
            if w.len() == 0 {
                assert(pw == ws);
            } else {
                assert(pw =~= ws.push(w));
            }
            if k < ws2.len() {
                if k < ws.len() {
                    assert(ws2[k] == ws.push(w)[k]);
                } else {
                    assert(ws2[k] == w);
                }
            } else if k == ws2.len() && !is_separator(c) && !crate::split::starts_word(s, m as int) {
                if j < w.len() {
                    assert(ws.push(w)[ws.len() as int][j] == w[j]);
                }
            }
        }
    }
}

/// The words of `s` joined with no separator are `s` without its separators.
proof fn lemma_split_letters(s: Seq<char>)
    ensures
        join(split_words(s), seq![]) == strip_separators(s),
        separator_free(split_words(s)),
{
    lemma_scan_letters(s, s.len());
    let (ws, w) = scan(s, s.len());
    lemma_join_push_word(ws, w);
    assert(s.take(s.len() as int) =~= s);
    assert forall|k: int, j: int|
        0 <= k < split_words(s).len() && 0 <= j < split_words(s)[k].len() implies !is_separator(
            #[trigger] split_words(s)[k][j],
        ) by {
        assert(ws.push(w)[k][j] == split_words(s)[k][j]);
    }
}

proof fn lemma_strip_append(a: Seq<char>, b: Seq<char>)
    ensures
        strip_separators(a + b) == strip_separators(a) + strip_separators(b),
    decreases b.len(),
{
    if b.len() == 0 {
        assert(a + b =~= a);
        assert(strip_separators(a) + strip_separators(b) =~= strip_separators(a));
    } else {
        lemma_strip_append(a, b.drop_last());
        assert((a + b).drop_last() =~= a + b.drop_last());
        assert((a + b).last() == b.last());
        assert(strip_separators(a + b) =~= strip_separators(a) + strip_separators(b));
    }
}

proof fn lemma_strip_lower(s: Seq<char>)
    ensures
        strip_separators(lower_word(s)) == lower_word(strip_separators(s)),
    decreases s.len(),
{
    if s.len() > 0 {
        lemma_strip_lower(s.drop_last());
        assert(lower_word(s).drop_last() =~= lower_word(s.drop_last()));
        assert(lower_word(strip_separators(s.drop_last()).push(s.last())) =~= lower_word(
            strip_separators(s.drop_last()),
        ).push(lower_char(s.last())));
    } else {
        assert(lower_word(s) =~= s);
    }
}

proof fn lemma_lower_append(a: Seq<char>, b: Seq<char>)
    ensures
        lower_word(a + b) == lower_word(a) + lower_word(b),
{
    assert(lower_word(a + b) =~= lower_word(a) + lower_word(b));
}

proof fn lemma_join_lower(ws: Seq<Seq<char>>, sep: Seq<char>)
    requires
        lower_word(sep) == sep,
    ensures
        lower_word(join(ws, sep)) == join(ws.map_values(|w: Seq<char>| lower_word(w)), sep),
    decreases ws.len(),
{
    let lw = ws.map_values(|w: Seq<char>| lower_word(w));
    if ws.len() == 0 {
        assert(lower_word(join(ws, sep)) =~= seq![]);
    } else if ws.len() == 1 {
    } else {
        lemma_join_lower(ws.drop_last(), sep);
        assert(lw.drop_last() =~= ws.drop_last().map_values(|w: Seq<char>| lower_word(w)));
        lemma_lower_append(join(ws.drop_last(), sep) + sep, ws.last());
        lemma_lower_append(join(ws.drop_last(), sep), sep);
    }
}

proof fn lemma_lower_cased(casing: WordCasing, w: Seq<char>)
    ensures
        lower_word(cased_word(casing, w)) == lower_word(w),
{
    assert forall|c: char| #[trigger] lower_char(upper_char(c)) == lower_char(c) by {}
    assert forall|c: char| #[trigger] lower_char(lower_char(c)) == lower_char(c) by {}
    assert(lower_word(cased_word(casing, w)) =~= lower_word(w));
}

proof fn lemma_strip_join(ws: Seq<Seq<char>>, sep: Seq<char>)
    requires
        separator_free(ws),
        forall|i: int| 0 <= i < sep.len() ==> is_separator(#[trigger] sep[i]),
    ensures
        strip_separators(join(ws, sep)) == join(ws, seq![]),
    decreases ws.len(),
{
    if ws.len() == 0 {
    } else {
        assert forall|w: Seq<char>| (forall|j: int| 0 <= j < w.len() ==> !is_separator(#[trigger] w[j]))
            implies strip_separators(w) == w by {
            lemma_strip_free(w);
        }
        assert forall|j: int| 0 <= j < ws.last().len() implies !is_separator(#[trigger] ws.last()[j]) by {
            assert(ws[ws.len() - 1][j] == ws.last()[j]);
        }
        if ws.len() == 1 {
            assert forall|j: int| 0 <= j < ws[0].len() implies !is_separator(#[trigger] ws[0][j]) by {
                assert(ws[0][j] == ws[0][j]);
            }
        } else {
            let init = ws.drop_last();
            assert(separator_free(init)) by {
                assert forall|k: int, j: int| 0 <= k < init.len() && 0 <= j < init[k].len() implies
                    !is_separator(#[trigger] init[k][j]) by {
                    assert(ws[k][j] == init[k][j]);
                }
            }
            lemma_strip_join(init, sep);
            lemma_strip_append(join(init, sep) + sep, ws.last());
            lemma_strip_append(join(init, sep), sep);
            lemma_strip_all_separators(sep);
            assert(join(init, seq![]) + seq![] =~= join(init, seq![]));
            assert(join(init, seq![]) + seq![] + ws.last() =~= join(init, seq![]) + ws.last());
        }
    }
}

proof fn lemma_strip_free(w: Seq<char>)
    requires
        forall|j: int| 0 <= j < w.len() ==> !is_separator(#[trigger] w[j]),
    ensures
        strip_separators(w) == w,
    decreases w.len(),
{
    if w.len() > 0 {
        lemma_strip_free(w.drop_last());
        assert(strip_separators(w) =~= w);
    }
}

proof fn lemma_strip_all_separators(sep: Seq<char>)
    requires
        forall|i: int| 0 <= i < sep.len() ==> is_separator(#[trigger] sep[i]),
    ensures
        strip_separators(sep) == Seq::<char>::empty(),
    decreases sep.len(),
{
    if sep.len() > 0 {
        lemma_strip_all_separators(sep.drop_last());
    }
}

/// Every word of `ws` is made of letters.
pub open spec fn letter_words(ws: Seq<Seq<char>>) -> bool {
    forall|k: int, j: int| 0 <= k < ws.len() && 0 <= j < ws[k].len() ==> is_letter(#[trigger] ws[k][j])
}

/// No word of `ws` is empty.
pub open spec fn nonempty_words(ws: Seq<Seq<char>>) -> bool {
    forall|k: int| 0 <= k < ws.len() ==> (#[trigger] ws[k]).len() > 0
}

proof fn lemma_scan_letter_words(s: Seq<char>, n: nat)
    requires
        valid_identifier(s),
        n <= s.len(),
    ensures
        letter_words(scan(s, n).0.push(scan(s, n).1)),
        nonempty_words(scan(s, n).0),
    decreases n,
{
    if n > 0 {
        let m = (n - 1) as nat;
        lemma_scan_letter_words(s, m);
        let (ws, w) = scan(s, m);
        let c = s[m as int];
        let pw = push_word(ws, w);
        let (ws2, w2) = scan(s, n);
        assert(ws.push(w)[ws.len() as int] == w);
        if w.len() == 0 {
            assert(pw == ws);
        } else {
            assert(pw =~= ws.push(w));
        }
        assert forall|k: int, j: int|
            0 <= k < ws2.push(w2).len() && 0 <= j < ws2.push(w2)[k].len() implies is_letter(
                #[trigger] ws2.push(w2)[k][j],
            ) by {
            if k < ws2.len() {
                if k < ws.len() {
                    assert(ws2[k] == ws.push(w)[k]);
                } else {
                    assert(ws2[k] == w);
                }
            } else if k == ws2.len() && !is_separator(c) && !starts_word(s, m as int) {
                if j < w.len() {
                    assert(ws.push(w)[ws.len() as int][j] == w[j]);
                }
            }
        }
    }
}

/// The words of a valid identifier are nonempty and made of letters.
proof fn lemma_split_letter_words(s: Seq<char>)
    requires
        valid_identifier(s),
    ensures
        letter_words(split_words(s)),
        nonempty_words(split_words(s)),
{
    lemma_scan_letter_words(s, s.len());
    let (ws, w) = scan(s, s.len());
    assert forall|k: int, j: int|
        0 <= k < split_words(s).len() && 0 <= j < split_words(s)[k].len() implies is_letter(
            #[trigger] split_words(s)[k][j],
        ) by {
        assert(ws.push(w)[k][j] == split_words(s)[k][j]);
    }
}

/// The finished words and the word being read of `t`, cut at separators only.
pub open spec fn segment_scan(t: Seq<char>) -> (Seq<Seq<char>>, Seq<char>)
    decreases t.len(),
{
    if t.len() == 0 {
        (seq![], seq![])
    } else {
        let (ws, w) = segment_scan(t.drop_last());
        if is_separator(t.last()) {
            (push_word(ws, w), seq![])
        } else {
            (ws, w.push(t.last()))
        }
    }
}

proof fn lemma_scan_segments(s: Seq<char>, n: nat)
    requires
        n <= s.len(),
        forall|i: int| 0 <= i < s.len() ==> !starts_word(s, i),
    ensures
        scan(s, n) == segment_scan(s.take(n as int)),
    decreases n,
{
    if n > 0 {
        lemma_scan_segments(s, (n - 1) as nat);
        assert(s.take(n as int).drop_last() =~= s.take(n - 1));
        assert(!starts_word(s, n - 1));
    } else {
        assert(s.take(0) =~= Seq::<char>::empty());
    }
}

proof fn lemma_segment_scan_word(q: Seq<char>, x: Seq<char>)
    requires
        forall|j: int| 0 <= j < x.len() ==> !is_separator(#[trigger] x[j]),
    ensures
        segment_scan(q + x) == (segment_scan(q).0, segment_scan(q).1 + x),
    decreases x.len(),
{
    if x.len() == 0 {
        assert(q + x =~= q);
        assert(segment_scan(q).1 + x =~= segment_scan(q).1);
    } else {
        lemma_segment_scan_word(q, x.drop_last());
        assert((q + x).drop_last() =~= q + x.drop_last());
        assert((q + x).last() == x.last());
        assert((segment_scan(q).1 + x.drop_last()).push(x.last()) =~= segment_scan(q).1 + x);
    }
}

proof fn lemma_segment_scan_join(xs: Seq<Seq<char>>, c: char)
    requires
        is_separator(c),
        xs.len() > 0,
        nonempty_words(xs),
        separator_free(xs),
    ensures
        segment_scan(join(xs, seq![c])) == (xs.drop_last(), xs.last()),
    decreases xs.len(),
{
    let x = xs.last();
    assert forall|j: int| 0 <= j < x.len() implies !is_separator(#[trigger] x[j]) by {
        assert(xs[xs.len() - 1][j] == x[j]);
    }
    if xs.len() == 1 {
        lemma_segment_scan_word(seq![], x);
        assert(Seq::<char>::empty() + x =~= x);
        assert(xs.drop_last() =~= Seq::<Seq<char>>::empty());
    } else {
        let init = xs.drop_last();
        assert(nonempty_words(init)) by {
            assert forall|k: int| 0 <= k < init.len() implies (#[trigger] init[k]).len() > 0 by {
                assert(init[k] == xs[k]);
            }
        }
        assert(separator_free(init)) by {
            assert forall|k: int, j: int| 0 <= k < init.len() && 0 <= j < init[k].len() implies
                !is_separator(#[trigger] init[k][j]) by {
                assert(xs[k][j] == init[k][j]);
            }
        }
        lemma_segment_scan_join(init, c);
        let p = join(init, seq![c]) + seq![c];
        assert(p.drop_last() =~= join(init, seq![c]));
        assert(init.last() == init[init.len() - 1]);
        assert(push_word(init.drop_last(), init.last()) =~= init);
        lemma_segment_scan_word(p, x);
        assert(Seq::<char>::empty() + x =~= x);
    }
}

proof fn lemma_join_chars(xs: Seq<Seq<char>>, sep: Seq<char>, p: spec_fn(char) -> bool)
    requires
        forall|k: int, j: int| 0 <= k < xs.len() && 0 <= j < xs[k].len() ==> p(#[trigger] xs[k][j]),
        forall|i: int| 0 <= i < sep.len() ==> p(#[trigger] sep[i]),
    ensures
        forall|i: int| 0 <= i < join(xs, sep).len() ==> p(#[trigger] join(xs, sep)[i]),
    decreases xs.len(),
{
    if xs.len() == 1 {
        assert forall|i: int| 0 <= i < join(xs, sep).len() implies p(#[trigger] join(xs, sep)[i]) by {
            assert(xs[0][i] == join(xs, sep)[i]);
        }
    } else if xs.len() > 1 {
        let init = xs.drop_last();
        assert forall|k: int, j: int| 0 <= k < init.len() && 0 <= j < init[k].len() implies p(
            #[trigger] init[k][j],
        ) by {
            assert(xs[k][j] == init[k][j]);
        }
        lemma_join_chars(init, sep, p);
        let a = join(init, sep);
        let x = xs.last();
        assert forall|i: int| 0 <= i < join(xs, sep).len() implies p(#[trigger] join(xs, sep)[i]) by {
            if i < a.len() {
                assert(join(xs, sep)[i] == a[i]);
            } else if i < a.len() + sep.len() {
                assert(join(xs, sep)[i] == sep[i - a.len()]);
            } else {
                assert(join(xs, sep)[i] == xs[xs.len() - 1][i - a.len() - sep.len()]);
            }
        }
    }
}

/// For kebab, snake and constant case, splitting the conversion of a valid
/// identifier gives back its words, each cased as the style says, in the
/// same number and order.
pub proof fn separated_conversion_keeps_words(style: CaseStyle, s: Seq<char>)
    requires
        valid_identifier(s),
        style == CaseStyle::Kebab || style == CaseStyle::Snake || style == CaseStyle::Constant,
    ensures
        split_words(converted(style, s)) == cased_words(style.spec_word_casing(), split_words(s)),
{
    let ws = split_words(s);
    let casing = style.spec_word_casing();
    let cw = cased_words(casing, ws);
    let c = if style == CaseStyle::Kebab { '-' } else { '_' };
    let t = converted(style, s);
    lemma_split_letter_words(s);
    assert(t == join(cw, seq![c]));
    let p = if style == CaseStyle::Constant {
        |ch: char| is_upper(ch) || is_separator(ch)
    } else {
        |ch: char| is_lower(ch) || is_separator(ch)
    };
    assert forall|k: int, j: int| 0 <= k < cw.len() && 0 <= j < cw[k].len() implies p(
        #[trigger] cw[k][j],
    ) && !is_separator(cw[k][j]) by {
        assert(is_letter(ws[k][j]));
        if style == CaseStyle::Constant {
            assert(cw[k][j] == upper_char(ws[k][j]));
        } else {
            assert(cw[k][j] == lower_char(ws[k][j]));
        }
    }
    lemma_join_chars(cw, seq![c], p);
    assert forall|i: int| 0 <= i < t.len() implies !starts_word(t, i) by {
        assert(p(t[i]));
        if i > 0 {
            assert(p(t[i - 1]));
        }
        if i + 1 < t.len() {
            assert(p(t[i + 1]));
        }
    }
    lemma_scan_segments(t, t.len());
    assert(t.take(t.len() as int) =~= t);
    if cw.len() == 0 {
        assert(t =~= Seq::<char>::empty());
        assert(split_words(t) =~= cw);
    } else {
        assert(nonempty_words(cw)) by {
            assert forall|k: int| 0 <= k < cw.len() implies (#[trigger] cw[k]).len() > 0 by {
                assert(ws[k].len() > 0);
            }
        }
        lemma_segment_scan_join(cw, c);
        assert(cw.last() == cw[cw.len() - 1]);
        assert(push_word(cw.drop_last(), cw.last()) =~= cw);
    }
}

/// For every valid identifier and every style, splitting the conversion and
/// joining its words with no separator gives, up to case, the letters that
/// splitting the identifier and joining its words gives: no letter is lost,
/// added or moved.
pub proof fn converted_words_keep_letters(style: CaseStyle, s: Seq<char>)
    requires
        valid_identifier(s),
    ensures
        lower_word(join(split_words(converted(style, s)), seq![])) == lower_word(
            join(split_words(s), seq![]),
        ),
{
    let ws = split_words(s);
    let out = converted(style, s);
    let sep = joiner_seq(style.spec_joiner());
    let casing = style.spec_word_casing();
    let cw = cased_words(casing, ws);
    let joined = join(cw, sep);
    lemma_split_letters(s);
    lemma_split_letters(out);
    lemma_strip_lower(out);
    // Lowercasing forgets the casing of the words and the decapitalized letter.
    assert(lower_word(sep) == sep);
    assert(lower_word(out) == lower_word(joined)) by {
        if style.spec_decapitalizes() {
            assert forall|c: char| #[trigger] lower_char(lower_char(c)) == lower_char(c) by {}
            assert(lower_word(decapitalize_word(joined)) =~= lower_word(joined));
        }
    }
    lemma_join_lower(cw, sep);
    assert(lower_word(seq![]) =~= seq![]);
    lemma_join_lower(ws, seq![]);
    let lws = ws.map_values(|w: Seq<char>| lower_word(w));
    assert(cw.map_values(|w: Seq<char>| lower_word(w)) =~= lws) by {
        assert forall|k: int| 0 <= k < ws.len() implies lower_word(#[trigger] cw[k]) == lws[k] by {
            lemma_lower_cased(casing, ws[k]);
        }
    }
    // Lowercase words hold no separator either.
    assert(separator_free(lws)) by {
        assert forall|k: int, j: int| 0 <= k < lws.len() && 0 <= j < lws[k].len() implies
            !is_separator(#[trigger] lws[k][j]) by {
            assert(lws[k][j] == lower_char(ws[k][j]));
        }
    }
    lemma_strip_join(lws, sep);
}

/// If an identifier is strict in a style, converting it to that style gives
/// its words joined with no separator.
pub proof fn strict_conversion_is_joined_words(style: CaseStyle, s: Seq<char>)
    requires
        strict_in(style, s),
    ensures
        converted(style, s) == join(split_words(s), seq![]),
{
}

} // verus!
