//! Properties of resolution and cleanup, stated over the models that the
//! functions' contracts use.
use vstd::prelude::*;
use crate::text::{lower_of, is_ws, word_char};
use crate::grammar::{
    tokens, tokens_from, strip, strip_from, strip_estimates, strip_estimates_from, collapse,
    collapse_from, starts_token, word_end, lemma_word_end_bounds, estimate_end,
    lemma_estimate_end_bounds,
};
use crate::catalog::{Id, TagView, first_named, resolve_tag};
use crate::ticket::{cleaned_title, resolved_tags, first_category};
use crate::reconcile::{lex_lt, lex_lt_from, strictly_sorted};

verus! {

proof fn lemma_first_named_is(e: Seq<(Id, String)>, key: Seq<char>, i: int, j: int)
    requires
        0 <= j <= i < e.len(),
        lower_of(e[i].1@) == key,
        forall|m: int| j <= m < i ==> lower_of(#[trigger] e[m].1@) != key,
    ensures
        first_named(e, key, j) == i,
    decreases i - j,
{
    if j < i {
        lemma_first_named_is(e, key, i, j + 1);
    }
}

proof fn lemma_first_named_found(e: Seq<(Id, String)>, key: Seq<char>, i: int, j: int)
    requires
        0 <= j <= i < e.len(),
        lower_of(e[i].1@) == key,
    ensures
        j <= first_named(e, key, j) <= i,
    decreases i - j,
{
    if j < i && lower_of(e[j].1@) != key {
        lemma_first_named_found(e, key, i, j + 1);
    }
}

proof fn lemma_first_category_is(ts: Seq<TagView>, k: int, j: int)
    requires
        0 <= j <= k < ts.len(),
        ts[k] is Category,
        forall|m: int| j <= m < k ==> !(#[trigger] ts[m] is Category),
    ensures
        first_category(ts, j) == Some(ts[k]->Category_0),
    decreases k - j,
{
    if j < k {
        lemma_first_category_is(ts, k, j + 1);
    }
}

/// A hash-tag whose lower-cased name is that of a category resolves to the
/// first such category; where no earlier hash-tag of the title resolves to a
/// category, that category's id is the ticket's category.
pub proof fn lemma_hash_tag_resolves_to_category(
    title: Seq<char>,
    cats: Seq<(Id, String)>,
    tags: Seq<(Id, String)>,
    k: int,
    i: int,
)
    requires
        0 <= k < tokens(title, '#').len(),
        0 <= i < cats.len(),
        lower_of(cats[i].1@) == lower_of(tokens(title, '#')[k]),
        forall|m: int| 0 <= m < i ==> lower_of(#[trigger] cats[m].1@) != lower_of(
            tokens(title, '#')[k],
        ),
    ensures
        resolved_tags(title, cats, tags)[k] == TagView::Category(cats[i].0, cats[i].1@),
        (forall|m: int| 0 <= m < k ==> !(#[trigger] resolved_tags(title, cats, tags)[m] is Category))
            ==> first_category(resolved_tags(title, cats, tags), 0) == Some(cats[i].0),
{
    let key = lower_of(tokens(title, '#')[k]);
    lemma_first_named_is(cats, key, i, 0);
    let ts = resolved_tags(title, cats, tags);
    if forall|m: int| 0 <= m < k ==> !(#[trigger] ts[m] is Category) {
        lemma_first_category_is(ts, k, 0);
    }
}

/// Where a name matches both a category and a tag, it resolves to the
/// category.
pub proof fn lemma_category_precedence(
    name: Seq<char>,
    cats: Seq<(Id, String)>,
    tags: Seq<(Id, String)>,
    i: int,
    j: int,
)
    requires
        0 <= i < cats.len(),
        0 <= j < tags.len(),
        lower_of(cats[i].1@) == lower_of(name),
        lower_of(tags[j].1@) == lower_of(name),
    ensures
        resolve_tag(name, cats, tags) is Category,
{
    lemma_first_named_found(cats, lower_of(name), i, 0);
}

proof fn lemma_strip_without_tokens(s: Seq<char>, sigil: char, i: int)
    requires
        0 <= i <= s.len(),
        tokens_from(s, sigil, i).len() == 0,
    ensures
        strip_from(s, sigil, i) == s.subrange(i, s.len() as int),
    decreases s.len() - i,
{
    if i < s.len() {
        lemma_strip_without_tokens(s, sigil, i + 1);
        assert(s.subrange(i, s.len() as int) =~= seq![s[i]] + s.subrange(i + 1, s.len() as int));
    } else {
        assert(s.subrange(i, s.len() as int) =~= Seq::<char>::empty());
    }
}

proof fn lemma_strip_estimates_without_tilde(s: Seq<char>, i: int)
    requires
        0 <= i <= s.len(),
        forall|m: int| i <= m < s.len() ==> #[trigger] s[m] != '~',
    ensures
        strip_estimates_from(s, i) == s.subrange(i, s.len() as int),
    decreases s.len() - i,
{
    if i < s.len() {
        lemma_strip_estimates_without_tilde(s, i + 1);
        assert(s.subrange(i, s.len() as int) =~= seq![s[i]] + s.subrange(i + 1, s.len() as int));
    } else {
        assert(s.subrange(i, s.len() as int) =~= Seq::<char>::empty());
    }
}

/// Each whitespace character of `u` is a space with a non-whitespace
/// character after it, and before it unless it comes first.
pub open spec fn spaced(u: Seq<char>) -> bool {
    forall|j: int|
        0 <= j < u.len() && is_ws(#[trigger] u[j]) ==> u[j] == ' ' && j + 1 < u.len() && !is_ws(
            u[j + 1],
        ) && (j > 0 ==> !is_ws(u[j - 1]))
}

/// Words joined by single spaces, with nothing around them.
pub open spec fn normalized(u: Seq<char>) -> bool {
    spaced(u) && (u.len() > 0 ==> !is_ws(u[0]))
}

proof fn lemma_collapse_spaced(x: Seq<char>, i: int, started: bool, gap: bool)
    requires
        0 <= i <= x.len(),
    ensures
        spaced(collapse_from(x, i, started, gap)),
        !started && !gap ==> normalized(collapse_from(x, i, started, gap)),
    decreases x.len() - i,
{
    if i < x.len() {
        if is_ws(x[i]) {
            lemma_collapse_spaced(x, i + 1, started, started);
        } else {
            lemma_collapse_spaced(x, i + 1, true, false);
            let w = collapse_from(x, i + 1, true, false);
            let u = collapse_from(x, i, started, gap);
            if gap {
                assert(u == seq![' ', x[i]] + w);
                assert forall|j: int|
                    0 <= j < u.len() && is_ws(#[trigger] u[j]) implies u[j] == ' ' && j + 1
                    < u.len() && !is_ws(u[j + 1]) && (j > 0 ==> !is_ws(u[j - 1])) by {
                    if j >= 2 {
                        assert(u[j] == w[j - 2]);
                        assert(u[j - 1] == (if j == 2 { x[i] } else { w[j - 3] }));
                    }
                }
            } else {
                assert(u == seq![x[i]] + w);
                assert forall|j: int|
                    0 <= j < u.len() && is_ws(#[trigger] u[j]) implies u[j] == ' ' && j + 1
                    < u.len() && !is_ws(u[j + 1]) && (j > 0 ==> !is_ws(u[j - 1])) by {
                    if j >= 1 {
                        assert(u[j] == w[j - 1]);
                        assert(u[j - 1] == (if j == 1 { x[i] } else { w[j - 2] }));
                    }
                }
            }
        }
    }
}

proof fn lemma_collapse_fixed(t: Seq<char>, i: int)
    requires
        normalized(t),
        0 <= i <= t.len(),
        i > 0 ==> !is_ws(t[i - 1]),
    ensures
        collapse_from(t, i, i > 0, false) == t.subrange(i, t.len() as int),
    decreases t.len() - i,
{
    if i == t.len() {
        assert(t.subrange(i, t.len() as int) =~= Seq::<char>::empty());
    } else if !is_ws(t[i]) {
        lemma_collapse_fixed(t, i + 1);
        assert(t.subrange(i, t.len() as int) =~= seq![t[i]] + t.subrange(i + 1, t.len() as int));
    } else {
        assert(t[i] == ' ' && i + 1 < t.len() && !is_ws(t[i + 1]));
        lemma_collapse_fixed(t, i + 2);
        assert(collapse_from(t, i, true, false) == collapse_from(t, i + 1, true, true));
        assert(collapse_from(t, i + 1, true, true) == seq![' ', t[i + 1]] + collapse_from(
            t,
            i + 2,
            true,
            false,
        ));
        assert(t.subrange(i, t.len() as int) =~= seq![' ', t[i + 1]] + t.subrange(
            i + 2,
            t.len() as int,
        ));
    }
}

/// Collapsing whitespace twice is collapsing it once.
pub proof fn lemma_collapse_idempotent(x: Seq<char>)
    ensures
        collapse(collapse(x)) == collapse(x),
{
    let t = collapse(x);
    lemma_collapse_spaced(x, 0, false, false);
    lemma_collapse_fixed(t, 0);
    assert(t.subrange(0, t.len() as int) =~= t);
}

proof fn lemma_lex_transitive_from(a: Seq<char>, b: Seq<char>, c: Seq<char>, i: int)
    requires
        0 <= i,
        lex_lt_from(a, b, i),
        lex_lt_from(b, c, i),
    ensures
        lex_lt_from(a, c, i),
    decreases a.len() - i,
{
    if i < a.len() && i < b.len() && i < c.len() && a[i] == b[i] && b[i] == c[i] {
        lemma_lex_transitive_from(a, b, c, i + 1);
    }
}

proof fn lemma_lex_irreflexive_from(a: Seq<char>, i: int)
    requires
        0 <= i,
    ensures
        !lex_lt_from(a, a, i),
    decreases a.len() - i,
{
    if i < a.len() {
        lemma_lex_irreflexive_from(a, i + 1);
    }
}

proof fn lemma_sorted_before(v: Seq<Seq<char>>, i: int, j: int)
    requires
        strictly_sorted(v),
        0 <= i < j < v.len(),
    ensures
        lex_lt(v[i], v[j]),
    decreases j - i,
{
    if j > i + 1 {
        lemma_sorted_before(v, i, j - 1);
        assert(lex_lt(v[j - 1], v[j]));
        lemma_lex_transitive_from(v[i], v[j - 1], v[j], 0);
    } else {
        assert(lex_lt(v[i], v[i + 1]));
    }
}

/// A strictly sorted sequence of names holds each name once: the unmatched
/// tag names come out without repeats.
pub proof fn lemma_sorted_names_distinct(v: Seq<Seq<char>>)
    requires
        strictly_sorted(v),
    ensures
        forall|i: int, j: int| 0 <= i < j < v.len() ==> #[trigger] v[i] != #[trigger] v[j],
{
    assert forall|i: int, j: int| 0 <= i < j < v.len() implies #[trigger] v[i] != #[trigger] v[j] by {
        lemma_sorted_before(v, i, j);
        lemma_lex_irreflexive_from(v[i], 0);
    }
}

/// No `sigil` in `u` is followed by a word character.
pub open spec fn no_token(u: Seq<char>, sigil: char) -> bool {
    forall|j: int| 0 <= j < u.len() - 1 && #[trigger] u[j] == sigil ==> !word_char(u[j + 1])
}

proof fn lemma_strip_starts_with_non_word(s: Seq<char>, sigil: char, k: int)
    requires
        0 <= k <= s.len(),
        k < s.len() ==> !word_char(s[k]),
    ensures
        strip_from(s, sigil, k).len() > 0 ==> !word_char(strip_from(s, sigil, k)[0]),
    decreases s.len() - k,
{
    if k < s.len() && starts_token(s, sigil, k) {
        let e = word_end(s, k + 1);
        lemma_word_end_bounds(s, k + 1);
        lemma_word_end_stops(s, k + 1);
        lemma_strip_starts_with_non_word(s, sigil, e);
    }
}

proof fn lemma_word_end_stops(s: Seq<char>, j: int)
    requires
        0 <= j <= s.len(),
    ensures
        word_end(s, j) < s.len() ==> !word_char(s[word_end(s, j)]),
    decreases s.len() - j,
{
    if j < s.len() && word_char(s[j]) {
        lemma_word_end_stops(s, j + 1);
    }
}

proof fn lemma_strip_no_token(s: Seq<char>, sigil: char, i: int)
    requires
        0 <= i <= s.len(),
    ensures
        no_token(strip_from(s, sigil, i), sigil),
    decreases s.len() - i,
{
    if i < s.len() {
        if starts_token(s, sigil, i) {
            lemma_word_end_bounds(s, i + 1);
            lemma_strip_no_token(s, sigil, word_end(s, i + 1));
        } else {
            lemma_strip_no_token(s, sigil, i + 1);
            let w = strip_from(s, sigil, i + 1);
            let u = strip_from(s, sigil, i);
            assert(u == seq![s[i]] + w);
            if s[i] == sigil && i + 1 < s.len() {
                lemma_strip_starts_with_non_word(s, sigil, i + 1);
            }
            assert forall|j: int| 0 <= j < u.len() - 1 && #[trigger] u[j] == sigil implies !word_char(
                u[j + 1],
            ) by {
                if j > 0 {
                    assert(u[j] == w[j - 1] && u[j + 1] == w[j]);
                } else {
                    assert(u[1] == w[0]);
                }
            }
        }
    }
}

proof fn lemma_no_token_no_tokens(u: Seq<char>, sigil: char, i: int)
    requires
        no_token(u, sigil),
        0 <= i <= u.len(),
    ensures
        tokens_from(u, sigil, i).len() == 0,
    decreases u.len() - i,
{
    if i < u.len() {
        lemma_no_token_no_tokens(u, sigil, i + 1);
    }
}

/// `u` holds no `c`.
pub open spec fn absent(u: Seq<char>, c: char) -> bool {
    forall|j: int| 0 <= j < u.len() ==> #[trigger] u[j] != c
}

proof fn lemma_strip_estimates_no_tilde(s: Seq<char>, i: int)
    requires
        0 <= i <= s.len(),
    ensures
        absent(strip_estimates_from(s, i), '~'),
    decreases s.len() - i,
{
    if i < s.len() {
        if s[i] == '~' {
            lemma_estimate_end_bounds(s, i);
            lemma_strip_estimates_no_tilde(s, estimate_end(s, i));
        } else {
            lemma_strip_estimates_no_tilde(s, i + 1);
            let w = strip_estimates_from(s, i + 1);
            let u = strip_estimates_from(s, i);
            assert(u == seq![s[i]] + w);
            assert forall|j: int| 0 <= j < u.len() implies #[trigger] u[j] != '~' by {
                if j > 0 {
                    assert(u[j] == w[j - 1]);
                }
            }
        }
    }
}

proof fn lemma_strip_keeps_absent(s: Seq<char>, sigil: char, c: char, i: int)
    requires
        0 <= i <= s.len(),
        absent(s, c),
    ensures
        absent(strip_from(s, sigil, i), c),
    decreases s.len() - i,
{
    if i < s.len() {
        if starts_token(s, sigil, i) {
            lemma_word_end_bounds(s, i + 1);
            lemma_strip_keeps_absent(s, sigil, c, word_end(s, i + 1));
        } else {
            lemma_strip_keeps_absent(s, sigil, c, i + 1);
            let w = strip_from(s, sigil, i + 1);
            let u = strip_from(s, sigil, i);
            assert(u == seq![s[i]] + w);
            assert forall|j: int| 0 <= j < u.len() implies #[trigger] u[j] != c by {
                if j > 0 {
                    assert(u[j] == w[j - 1]);
                }
            }
        }
    }
}

/// Removing `sigil`-tokens makes no `other`-token where there was none.
proof fn lemma_strip_keeps_no_token(s: Seq<char>, sigil: char, other: char, i: int)
    requires
        0 <= i <= s.len(),
        no_token(s, other),
    ensures
        no_token(strip_from(s, sigil, i), other),
    decreases s.len() - i,
{
    if i < s.len() {
        if starts_token(s, sigil, i) {
            lemma_word_end_bounds(s, i + 1);
            lemma_strip_keeps_no_token(s, sigil, other, word_end(s, i + 1));
        } else {
            lemma_strip_keeps_no_token(s, sigil, other, i + 1);
            let w = strip_from(s, sigil, i + 1);
            let u = strip_from(s, sigil, i);
            assert(u == seq![s[i]] + w);
            if s[i] == other && i + 1 < s.len() {
                assert(!word_char(s[i + 1]));
                lemma_strip_starts_with_non_word(s, sigil, i + 1);
            }
            assert forall|j: int| 0 <= j < u.len() - 1 && #[trigger] u[j] == other implies !word_char(
                u[j + 1],
            ) by {
                if j > 0 {
                    assert(u[j] == w[j - 1] && u[j + 1] == w[j]);
                } else {
                    assert(u[1] == w[0]);
                }
            }
        }
    }
}

proof fn lemma_collapse_keeps_absent(x: Seq<char>, c: char, i: int, started: bool, gap: bool)
    requires
        0 <= i <= x.len(),
        absent(x, c),
        c != ' ',
    ensures
        absent(collapse_from(x, i, started, gap), c),
    decreases x.len() - i,
{
    if i < x.len() {
        if is_ws(x[i]) {
            lemma_collapse_keeps_absent(x, c, i + 1, started, started);
        } else {
            lemma_collapse_keeps_absent(x, c, i + 1, true, false);
            let w = collapse_from(x, i + 1, true, false);
            let u = collapse_from(x, i, started, gap);
            if gap {
                assert(u == seq![' ', x[i]] + w);
                assert forall|j: int| 0 <= j < u.len() implies #[trigger] u[j] != c by {
                    if j > 1 {
                        assert(u[j] == w[j - 2]);
                    }
                }
            } else {
                assert(u == seq![x[i]] + w);
                assert forall|j: int| 0 <= j < u.len() implies #[trigger] u[j] != c by {
                    if j > 0 {
                        assert(u[j] == w[j - 1]);
                    }
                }
            }
        }
    }
}

proof fn lemma_collapse_gap_starts_with_space(x: Seq<char>, i: int)
    requires
        0 <= i <= x.len(),
    ensures
        collapse_from(x, i, true, true).len() > 0 ==> collapse_from(x, i, true, true)[0] == ' ',
    decreases x.len() - i,
{
    if i < x.len() && is_ws(x[i]) {
        lemma_collapse_gap_starts_with_space(x, i + 1);
    }
}

/// Collapsing whitespace makes no `sigil`-token where there was none.
proof fn lemma_collapse_keeps_no_token(x: Seq<char>, sigil: char, i: int, started: bool, gap: bool)
    requires
        0 <= i <= x.len(),
        no_token(x, sigil),
        !is_ws(sigil),
    ensures
        no_token(collapse_from(x, i, started, gap), sigil),
    decreases x.len() - i,
{
    if i < x.len() {
        if is_ws(x[i]) {
            lemma_collapse_keeps_no_token(x, sigil, i + 1, started, started);
        } else {
            lemma_collapse_keeps_no_token(x, sigil, i + 1, true, false);
            let w = collapse_from(x, i + 1, true, false);
            let u = collapse_from(x, i, started, gap);
            if i + 1 < x.len() {
                if is_ws(x[i + 1]) {
                    assert(w == collapse_from(x, i + 2, true, true));
                    lemma_collapse_gap_starts_with_space(x, i + 2);
                } else {
                    assert(w == seq![x[i + 1]] + collapse_from(x, i + 2, true, false));
                }
            }
            if gap {
                assert(u == seq![' ', x[i]] + w);
                assert forall|j: int| 0 <= j < u.len() - 1 && #[trigger] u[j] == sigil implies !word_char(
                    u[j + 1],
                ) by {
                    if j > 1 {
                        assert(u[j] == w[j - 2] && u[j + 1] == w[j - 1]);
                    } else if j == 1 {
                        assert(u[2] == w[0]);
                    }
                }
            } else {
                assert(u == seq![x[i]] + w);
                assert forall|j: int| 0 <= j < u.len() - 1 && #[trigger] u[j] == sigil implies !word_char(
                    u[j + 1],
                ) by {
                    if j > 0 {
                        assert(u[j] == w[j - 1] && u[j + 1] == w[j]);
                    } else {
                        assert(u[1] == w[0]);
                    }
                }
            }
        }
    }
}

/// A cleaned title holds no annotation: no estimate marker `~`, and no
/// hash-tag, mention or urgency marker. In particular every `#Name` of the
/// title, resolved or not, is gone from it.
pub proof fn lemma_cleaned_title_has_no_annotations(s: Seq<char>)
    ensures
        absent(cleaned_title(s), '~'),
        tokens(cleaned_title(s), '#').len() == 0,
        tokens(cleaned_title(s), '@').len() == 0,
        tokens(cleaned_title(s), '!').len() == 0,
{
    let y0 = strip_estimates(s);
    let y1 = strip(y0, '#');
    let y2 = strip(y1, '@');
    let y3 = strip(y2, '!');
    let c = cleaned_title(s);
    lemma_strip_estimates_no_tilde(s, 0);
    lemma_strip_keeps_absent(y0, '#', '~', 0);
    lemma_strip_keeps_absent(y1, '@', '~', 0);
    lemma_strip_keeps_absent(y2, '!', '~', 0);
    lemma_collapse_keeps_absent(y3, '~', 0, false, false);
    lemma_strip_no_token(y0, '#', 0);
    lemma_strip_keeps_no_token(y1, '@', '#', 0);
    lemma_strip_no_token(y1, '@', 0);
    lemma_strip_keeps_no_token(y2, '!', '#', 0);
    lemma_strip_keeps_no_token(y2, '!', '@', 0);
    lemma_strip_no_token(y2, '!', 0);
    lemma_collapse_keeps_no_token(y3, '#', 0, false, false);
    lemma_collapse_keeps_no_token(y3, '@', 0, false, false);
    lemma_collapse_keeps_no_token(y3, '!', 0, false, false);
    lemma_no_token_no_tokens(c, '#', 0);
    lemma_no_token_no_tokens(c, '@', 0);
    lemma_no_token_no_tokens(c, '!', 0);
}

/// Cleaning an already cleaned title changes nothing.
pub proof fn lemma_cleanup_idempotent(s: Seq<char>)
    ensures
        cleaned_title(cleaned_title(s)) == cleaned_title(s),
{
    let c = cleaned_title(s);
    lemma_cleaned_title_has_no_annotations(s);
    assert(c.subrange(0, c.len() as int) =~= c);
    lemma_strip_estimates_without_tilde(c, 0);
    lemma_strip_without_tokens(c, '#', 0);
    lemma_strip_without_tokens(c, '@', 0);
    lemma_strip_without_tokens(c, '!', 0);
    lemma_collapse_idempotent(strip(strip(strip(strip_estimates(s), '#'), '@'), '!'));
}

} // verus!
