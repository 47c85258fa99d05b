//! The annotation grammar: sigil tokens (`#tag`, `@user`, `!urgency`),
//! estimates (`~1d2h30m15s`), sub-task lines (`[] ...`) and the text
//! rewriting built on them.
use vstd::prelude::*;
use crate::text::{is_word_char, word_char, is_ws, is_whitespace, trim, trimmed_range};

verus! {

/// Index of the first non-word character at or after `j` (or `s.len()`).
pub open spec fn word_end(s: Seq<char>, j: int) -> int
    decreases s.len() - j,
{
    if j >= s.len() || !word_char(s[j]) {
        j
    } else {
        word_end(s, j + 1)
    }
}

/// Index of the first `c` at or after `i` (or `s.len()`).
pub open spec fn first_of(s: Seq<char>, c: char, i: int) -> int
    decreases s.len() - i,
{
    if i >= s.len() || s[i] == c {
        i
    } else {
        first_of(s, c, i + 1)
    }
}

pub proof fn lemma_word_end_bounds(s: Seq<char>, j: int)
    requires
        0 <= j <= s.len(),
    ensures
        j <= word_end(s, j) <= s.len(),
    decreases s.len() - j,
{
    if j < s.len() && word_char(s[j]) {
        lemma_word_end_bounds(s, j + 1);
    }
}

pub proof fn lemma_first_of_bounds(s: Seq<char>, c: char, i: int)
    requires
        0 <= i <= s.len(),
    ensures
        i <= first_of(s, c, i) <= s.len(),
        first_of(s, c, i) < s.len() ==> s[first_of(s, c, i)] == c,
    decreases s.len() - i,
{
    if i < s.len() && s[i] != c {
        lemma_first_of_bounds(s, c, i + 1);
    }
}

/// A token `sigil` followed by one or more word characters starts at `i`.
pub open spec fn starts_token(s: Seq<char>, sigil: char, i: int) -> bool {
    0 <= i && i + 1 < s.len() && s[i] == sigil && word_char(s[i + 1])
}

/// The names (sigil left out) of the `sigil`-tokens found scanning `s` from
/// `i`, leftmost first, each as long as possible.
pub open spec fn tokens_from(s: Seq<char>, sigil: char, i: int) -> Seq<Seq<char>>
    decreases s.len() - i,
    via tokens_from_decreases
{
    if i >= s.len() || i < 0 {
        seq![]
    } else if starts_token(s, sigil, i) {
        seq![s.subrange(i + 1, word_end(s, i + 1))] + tokens_from(s, sigil, word_end(s, i + 1))
    } else {
        tokens_from(s, sigil, i + 1)
    }
}

#[via_fn]
proof fn tokens_from_decreases(s: Seq<char>, sigil: char, i: int) {
    if 0 <= i < s.len() && starts_token(s, sigil, i) {
        lemma_word_end_bounds(s, i + 1);
    }
}

/// The names of all `sigil`-tokens of `s`, in order.
pub open spec fn tokens(s: Seq<char>, sigil: char) -> Seq<Seq<char>> {
    tokens_from(s, sigil, 0)
}

/// `s` from `i` on with every `sigil`-token removed.
pub open spec fn strip_from(s: Seq<char>, sigil: char, i: int) -> Seq<char>
    decreases s.len() - i,
    via strip_from_decreases
{
    if i >= s.len() || i < 0 {
        seq![]
    } else if starts_token(s, sigil, i) {
        strip_from(s, sigil, word_end(s, i + 1))
    } else {
        seq![s[i]] + strip_from(s, sigil, i + 1)
    }
}

#[via_fn]
proof fn strip_from_decreases(s: Seq<char>, sigil: char, i: int) {
    if 0 <= i < s.len() && starts_token(s, sigil, i) {
        lemma_word_end_bounds(s, i + 1);
    }
}

/// `s` with every `sigil`-token removed.
pub open spec fn strip(s: Seq<char>, sigil: char) -> Seq<char> {
    strip_from(s, sigil, 0)
}

/// Index one past the run of word characters that starts at `j`.
pub fn word_run_end(s: &Vec<char>, j: usize) -> (r: usize)
    requires
        j <= s.len(),
    ensures
        r == word_end(s@, j as int),
        j <= r <= s.len(),
{
    let mut k = j;
    while k < s.len() && is_word_char(s[k])
        invariant
            j <= k <= s.len(),
            word_end(s@, j as int) == word_end(s@, k as int),
        decreases s.len() - k,
    {
        k = k + 1;
    }
    k
}

fn token_at(s: &Vec<char>, sigil: char, i: usize) -> (r: bool)
    requires
        i < s.len(),
    ensures
        r == starts_token(s@, sigil, i as int),
{
    s[i] == sigil && i + 1 < s.len() && is_word_char(s[i + 1])
}

/// Copies `s[lo..hi]`.
pub fn slice_of(s: &Vec<char>, lo: usize, hi: usize) -> (r: Vec<char>)
    requires
        lo <= hi <= s.len(),
    ensures
        r@ == s@.subrange(lo as int, hi as int),
{
    let mut r: Vec<char> = Vec::new();
    let mut k = lo;
    while k < hi
        invariant
            lo <= k <= hi <= s.len(),
            r@ == s@.subrange(lo as int, k as int),
        decreases hi - k,
    {
        r.push(s[k]);
        k = k + 1;
    }
    r
}

/// The names of the `sigil`-tokens of `s` (`#\w+` for `#`), in order.
pub fn find_tokens(s: &Vec<char>, sigil: char) -> (r: Vec<Vec<char>>)
    ensures
        r@.len() == tokens(s@, sigil).len(),
        forall|k: int| 0 <= k < r@.len() ==> #[trigger] r@[k]@ == tokens(s@, sigil)[k],
{
    let mut r: Vec<Vec<char>> = Vec::new();
    let ghost found: Seq<Seq<char>> = seq![];
    let mut i: usize = 0;
    while i < s.len()
        invariant
            i <= s.len(),
            tokens(s@, sigil) == found + tokens_from(s@, sigil, i as int),
            r@.len() == found.len(),
            forall|k: int| 0 <= k < r@.len() ==> #[trigger] r@[k]@ == found[k],
        decreases s.len() - i,
    {
        if token_at(s, sigil, i) {
            let e = word_run_end(s, i + 1);
            let name = slice_of(s, i + 1, e);
            proof {
                assert(found + tokens_from(s@, sigil, i as int) =~= found.push(name@)
                    + tokens_from(s@, sigil, e as int));
                found = found.push(name@);
            }
            r.push(name);
            i = e;
        } else {
            i = i + 1;
        }
    }
    assert(found =~= tokens(s@, sigil));
    r
}

/// `s` with every `sigil`-token removed.
pub fn strip_tokens(s: &Vec<char>, sigil: char) -> (r: Vec<char>)
    ensures
        r@ == strip(s@, sigil),
{
    let mut r: Vec<char> = Vec::new();
    let mut i: usize = 0;
    while i < s.len()
        invariant
            i <= s.len(),
            strip(s@, sigil) == r@ + strip_from(s@, sigil, i as int),
        decreases s.len() - i,
    {
        if token_at(s, sigil, i) {
            i = word_run_end(s, i + 1);
        } else {
            assert(r@ + strip_from(s@, sigil, i as int) =~= r@.push(s@[i as int])
                + strip_from(s@, sigil, i + 1));
            r.push(s[i]);
            i = i + 1;
        }
    }
    assert(r@ =~= strip(s@, sigil));
    r
}

/// An ASCII decimal digit: the digits of an estimate.
pub open spec fn is_digit(c: char) -> bool {
    '0' <= c && c <= '9'
}

/// The number written by the decimal digits `d`.
pub open spec fn digits_value(d: Seq<char>) -> nat
    decreases d.len(),
{
    if d.len() == 0 {
        0
    } else {
        digits_value(d.drop_last()) * 10 + (d.last() as nat - '0' as nat) as nat
    }
}

/// Index one past the run of digits that starts at `j`.
pub open spec fn digit_end(s: Seq<char>, j: int) -> int
    decreases s.len() - j,
{
    if j >= s.len() || !is_digit(s[j]) {
        j
    } else {
        digit_end(s, j + 1)
    }
}

/// Where an optional `<digits><unit>` group that may start at `j` ends
/// (`j` itself when there is none).
pub open spec fn group_end(s: Seq<char>, j: int, unit: char) -> int {
    let k = digit_end(s, j);
    if k > j && k < s.len() && s[k] == unit {
        k + 1
    } else {
        j
    }
}

/// The number of that group, 0 when there is none.
pub open spec fn group_value(s: Seq<char>, j: int, unit: char) -> nat {
    let e = group_end(s, j, unit);
    if e > j {
        digits_value(s.subrange(j, e - 1))
    } else {
        0
    }
}

/// The end of the four optional groups of an estimate whose `~` stands at `i`.
pub open spec fn estimate_end(s: Seq<char>, i: int) -> int {
    let p1 = group_end(s, i + 1, 'd');
    let p2 = group_end(s, p1, 'h');
    let p3 = group_end(s, p2, 'm');
    group_end(s, p3, 's')
}

/// Seconds of the estimate whose `~` stands at `i`; a day counts 8 hours.
pub open spec fn estimate_at(s: Seq<char>, i: int) -> nat {
    let p1 = group_end(s, i + 1, 'd');
    let p2 = group_end(s, p1, 'h');
    let p3 = group_end(s, p2, 'm');
    group_value(s, i + 1, 'd') * 28800 + group_value(s, p1, 'h') * 3600 + group_value(s, p2, 'm')
        * 60 + group_value(s, p3, 's')
}

/// Seconds of the first estimate in `s`, 0 when `s` holds no `~`.
pub open spec fn estimate_seconds(s: Seq<char>) -> nat {
    let i = first_of(s, '~', 0);
    if i < s.len() {
        estimate_at(s, i)
    } else {
        0
    }
}

pub proof fn lemma_digit_end_bounds(s: Seq<char>, j: int)
    requires
        0 <= j <= s.len(),
    ensures
        j <= digit_end(s, j) <= s.len(),
        forall|m: int| j <= m < digit_end(s, j) ==> is_digit(#[trigger] s[m]),
    decreases s.len() - j,
{
    if j < s.len() && is_digit(s[j]) {
        lemma_digit_end_bounds(s, j + 1);
    }
}

pub proof fn lemma_group_end_bounds(s: Seq<char>, j: int, unit: char)
    requires
        0 <= j <= s.len(),
    ensures
        j <= group_end(s, j, unit) <= s.len(),
{
    lemma_digit_end_bounds(s, j);
}

pub proof fn lemma_estimate_end_bounds(s: Seq<char>, i: int)
    requires
        0 <= i < s.len(),
    ensures
        i < estimate_end(s, i) <= s.len(),
{
    let p1 = group_end(s, i + 1, 'd');
    let p2 = group_end(s, p1, 'h');
    let p3 = group_end(s, p2, 'm');
    lemma_group_end_bounds(s, i + 1, 'd');
    lemma_group_end_bounds(s, p1, 'h');
    lemma_group_end_bounds(s, p2, 'm');
    lemma_group_end_bounds(s, p3, 's');
}

/// Parses the optional `<digits><unit>` group at `j`: its end and its
/// number, `None` where the number does not fit in a `u64`.
fn parse_group(s: &Vec<char>, j: usize, unit: char) -> (r: (usize, Option<u64>))
    requires
        j <= s.len(),
    ensures
        r.0 == group_end(s@, j as int, unit),
        r.1 == (if group_value(s@, j as int, unit) <= u64::MAX {
            Some(group_value(s@, j as int, unit) as u64)
        } else {
            None::<u64>
        }),
{
    let mut k = j;
    let mut acc: u64 = 0;
    let mut fits = true;
    while k < s.len() && '0' <= s[k] && s[k] <= '9'
        invariant
            j <= k <= s.len(),
            digit_end(s@, j as int) == digit_end(s@, k as int),
            forall|m: int| j <= m < k ==> is_digit(#[trigger] s@[m]),
            fits ==> acc == digits_value(s@.subrange(j as int, k as int)),
            !fits ==> digits_value(s@.subrange(j as int, k as int)) > u64::MAX,
        decreases s.len() - k,
    {
        let ghost before = s@.subrange(j as int, k as int);
        let dv = (s[k] as u32 - '0' as u32) as u64;
        assert(s@.subrange(j as int, k + 1).drop_last() =~= before);
        if fits {
            match acc.checked_mul(10) {
                Some(t) => match t.checked_add(dv) {
                    Some(v) => {
                        acc = v;
                    },
                    None => {
                        fits = false;
                    },
                },
                None => {
                    fits = false;
                },
            }
        } else {
            assert(digits_value(before) * 10 >= digits_value(before)) by (nonlinear_arith);
        }
        k = k + 1;
    }
    proof {
        lemma_digit_end_bounds(s@, j as int);
    }
    if k > j && k < s.len() && s[k] == unit {
        assert(s@.subrange(j as int, (k + 1) - 1) =~= s@.subrange(j as int, k as int));
        if fits {
            (k + 1, Some(acc))
        } else {
            (k + 1, None)
        }
    } else {
        (j, Some(0))
    }
}

fn scaled(v: Option<u64>, factor: u64) -> (r: Option<u64>)
    requires
        factor >= 1,
    ensures
        r.is_some() <==> (v.is_some() && v.unwrap() * factor <= u64::MAX),
        r.is_some() ==> r.unwrap() == v.unwrap() * factor,
{
    match v {
        Some(x) => x.checked_mul(factor),
        None => None,
    }
}

fn sum_of(a: Option<u64>, b: Option<u64>) -> (r: Option<u64>)
    ensures
        r.is_some() <==> (a.is_some() && b.is_some() && a.unwrap() + b.unwrap() <= u64::MAX),
        r.is_some() ==> r.unwrap() == a.unwrap() + b.unwrap(),
{
    match (a, b) {
        (Some(x), Some(y)) => x.checked_add(y),
        _ => None,
    }
}

/// Parses the estimate whose `~` stands at `i`: its end and its seconds,
/// `None` where they do not fit in a `u64`.
fn parse_estimate_at(s: &Vec<char>, i: usize) -> (r: (usize, Option<u64>))
    requires
        i < s.len(),
    ensures
        r.0 == estimate_end(s@, i as int),
        r.1 == (if estimate_at(s@, i as int) <= u64::MAX {
            Some(estimate_at(s@, i as int) as u64)
        } else {
            None::<u64>
        }),
{
    proof {
        lemma_group_end_bounds(s@, i + 1, 'd');
    }
    let (p1, d) = parse_group(s, i + 1, 'd');
    proof {
        lemma_group_end_bounds(s@, p1 as int, 'h');
    }
    let (p2, h) = parse_group(s, p1, 'h');
    proof {
        lemma_group_end_bounds(s@, p2 as int, 'm');
    }
    let (p3, m) = parse_group(s, p2, 'm');
    let (p4, sec) = parse_group(s, p3, 's');
    let total = sum_of(
        sum_of(sum_of(scaled(d, 28800), scaled(h, 3600)), scaled(m, 60)),
        scaled(sec, 1),
    );
    let ghost gd = group_value(s@, i + 1, 'd');
    let ghost gh = group_value(s@, p1 as int, 'h');
    let ghost gm = group_value(s@, p2 as int, 'm');
    let ghost gs = group_value(s@, p3 as int, 's');
    assert(gd <= gd * 28800 && gh <= gh * 3600 && gm <= gm * 60) by (nonlinear_arith);
    (p4, total)
}

/// Seconds of the first estimate (`~1d2h30m15s`, a day counted as 8
/// hours) in `title`; 0 where it holds no `~`, `None` where the sum does not
/// fit in a `u64`.
pub fn estimate_of(title: &Vec<char>) -> (r: Option<u64>)
    ensures
        r == (if estimate_seconds(title@) <= u64::MAX {
            Some(estimate_seconds(title@) as u64)
        } else {
            None::<u64>
        }),
{
    let i = find_char(title, '~', 0);
    if i < title.len() {
        parse_estimate_at(title, i).1
    } else {
        Some(0)
    }
}

/// Index of the first `c` at or after `from` (or `s.len()`).
pub fn find_char(s: &Vec<char>, c: char, from: usize) -> (r: usize)
    requires
        from <= s.len(),
    ensures
        r == first_of(s@, c, from as int),
        from <= r <= s.len(),
{
    let mut k = from;
    while k < s.len() && s[k] != c
        invariant
            from <= k <= s.len(),
            first_of(s@, c, from as int) == first_of(s@, c, k as int),
        decreases s.len() - k,
    {
        k = k + 1;
    }
    k
}

/// `s` from `i` on with every estimate (`~` and its groups) removed.
pub open spec fn strip_estimates_from(s: Seq<char>, i: int) -> Seq<char>
    decreases s.len() - i,
    via strip_estimates_decreases
{
    if i >= s.len() || i < 0 {
        seq![]
    } else if s[i] == '~' {
        strip_estimates_from(s, estimate_end(s, i))
    } else {
        seq![s[i]] + strip_estimates_from(s, i + 1)
    }
}

#[via_fn]
proof fn strip_estimates_decreases(s: Seq<char>, i: int) {
    if 0 <= i < s.len() {
        lemma_estimate_end_bounds(s, i);
    }
}

/// `s` with every estimate removed.
pub open spec fn strip_estimates(s: Seq<char>) -> Seq<char> {
    strip_estimates_from(s, 0)
}

pub fn strip_estimate_tokens(s: &Vec<char>) -> (r: Vec<char>)
    ensures
        r@ == strip_estimates(s@),
{
    let mut r: Vec<char> = Vec::new();
    let mut i: usize = 0;
    while i < s.len()
        invariant
            i <= s.len(),
            strip_estimates(s@) == r@ + strip_estimates_from(s@, i as int),
        decreases s.len() - i,
    {
        if s[i] == '~' {
            proof {
                lemma_estimate_end_bounds(s@, i as int);
            }
            i = parse_estimate_at(s, i).0;
        } else {
            assert(r@ + strip_estimates_from(s@, i as int) =~= r@.push(s@[i as int])
                + strip_estimates_from(s@, i + 1));
            r.push(s[i]);
            i = i + 1;
        }
    }
    assert(r@ =~= strip_estimates(s@));
    r
}

/// The words of `s` from `i` on, one space between two words. `started`:
/// a word has been written; `gap`: whitespace followed it.
pub open spec fn collapse_from(s: Seq<char>, i: int, started: bool, gap: bool) -> Seq<char>
    decreases s.len() - i,
{
    if i >= s.len() || i < 0 {
        seq![]
    } else if is_ws(s[i]) {
        collapse_from(s, i + 1, started, started)
    } else if gap {
        seq![' ', s[i]] + collapse_from(s, i + 1, true, false)
    } else {
        seq![s[i]] + collapse_from(s, i + 1, true, false)
    }
}

/// The words of `s` joined by single spaces.
pub open spec fn collapse(s: Seq<char>) -> Seq<char> {
    collapse_from(s, 0, false, false)
}

pub fn collapse_whitespace(s: &Vec<char>) -> (r: Vec<char>)
    ensures
        r@ == collapse(s@),
{
    let mut r: Vec<char> = Vec::new();
    let mut started = false;
    let mut gap = false;
    let mut i: usize = 0;
    while i < s.len()
        invariant
            i <= s.len(),
            collapse(s@) == r@ + collapse_from(s@, i as int, started, gap),
        decreases s.len() - i,
    {
        if is_whitespace(s[i]) {
            gap = started;
        } else {
            if gap {
                assert(r@ + collapse_from(s@, i as int, started, gap) =~= r@.push(' ').push(
                    s@[i as int],
                ) + collapse_from(s@, i + 1, true, false));
                r.push(' ');
            } else {
                assert(r@ + collapse_from(s@, i as int, started, gap) =~= r@.push(s@[i as int])
                    + collapse_from(s@, i + 1, true, false));
            }
            r.push(s[i]);
            started = true;
            gap = false;
        }
        i = i + 1;
    }
    assert(r@ =~= collapse(s@));
    r
}

/// The line that starts at `i` and ends at `e` is a sub-task line.
pub open spec fn is_subtask_line(s: Seq<char>, i: int, e: int) -> bool {
    e - i >= 2 && s[i] == '[' && s[i + 1] == ']'
}

/// The sub-tasks of the lines of `s` from line start `i` on: the trimmed
/// text after `[]` of each line that begins with `[]`, in order.
pub open spec fn subtasks_from(s: Seq<char>, i: int) -> Seq<Seq<char>>
    decreases s.len() - i,
    via subtasks_from_decreases
{
    if i >= s.len() || i < 0 {
        seq![]
    } else {
        let e = first_of(s, '\n', i);
        let rest = if e < s.len() {
            subtasks_from(s, e + 1)
        } else {
            seq![]
        };
        if is_subtask_line(s, i, e) {
            seq![trim(s.subrange(i + 2, e))] + rest
        } else {
            rest
        }
    }
}

#[via_fn]
proof fn subtasks_from_decreases(s: Seq<char>, i: int) {
    if 0 <= i < s.len() {
        lemma_first_of_bounds(s, '\n', i);
    }
}

/// The sub-tasks of `s`, in order.
pub open spec fn subtasks(s: Seq<char>) -> Seq<Seq<char>> {
    subtasks_from(s, 0)
}

/// The lines of `s` from line start `i` on, each sub-task line emptied.
pub open spec fn without_subtasks_from(s: Seq<char>, i: int) -> Seq<char>
    decreases s.len() - i,
    via without_subtasks_decreases
{
    if i >= s.len() || i < 0 {
        seq![]
    } else {
        let e = first_of(s, '\n', i);
        let line = if is_subtask_line(s, i, e) {
            seq![]
        } else {
            s.subrange(i, e)
        };
        if e < s.len() {
            line + seq!['\n'] + without_subtasks_from(s, e + 1)
        } else {
            line
        }
    }
}

#[via_fn]
proof fn without_subtasks_decreases(s: Seq<char>, i: int) {
    if 0 <= i < s.len() {
        lemma_first_of_bounds(s, '\n', i);
    }
}

/// `s` with the text of each sub-task line removed; its line breaks stay.
pub open spec fn without_subtasks(s: Seq<char>) -> Seq<char> {
    without_subtasks_from(s, 0)
}

/// Extracts the sub-task lines of `s`: their texts, in order, and `s` with
/// those lines emptied.
pub fn split_subtasks(s: &Vec<char>) -> (r: (Vec<Vec<char>>, Vec<char>))
    ensures
        r.0@.len() == subtasks(s@).len(),
        forall|k: int| 0 <= k < r.0@.len() ==> #[trigger] r.0@[k]@ == subtasks(s@)[k],
        r.1@ == without_subtasks(s@),
{
    let mut tasks: Vec<Vec<char>> = Vec::new();
    let ghost found: Seq<Seq<char>> = seq![];
    let mut rest: Vec<char> = Vec::new();
    let mut i: usize = 0;
    while i < s.len()
        invariant
            i <= s.len(),
            subtasks(s@) == found + subtasks_from(s@, i as int),
            without_subtasks(s@) == rest@ + without_subtasks_from(s@, i as int),
            tasks@.len() == found.len(),
            forall|k: int| 0 <= k < tasks@.len() ==> #[trigger] tasks@[k]@ == found[k],
        decreases s.len() - i,
    {
        let e = find_char(s, '\n', i);
        let subtask = e - i >= 2 && s[i] == '[' && s[i + 1] == ']';
        let ghost line = if subtask {
            Seq::<char>::empty()
        } else {
            s@.subrange(i as int, e as int)
        };
        let ghost tail = if e < s.len() {
            subtasks_from(s@, e + 1)
        } else {
            seq![]
        };
        proof {
            lemma_first_of_bounds(s@, '\n', i as int);
            let tl = if e < s.len() {
                without_subtasks_from(s@, e + 1)
            } else {
                seq![]
            };
            if e < s.len() {
                assert(rest@ + without_subtasks_from(s@, i as int) =~= rest@ + line + seq!['\n']
                    + tl);
            } else {
                assert(rest@ + without_subtasks_from(s@, i as int) =~= rest@ + line);
            }
        }
        if subtask {
            let t = trimmed_range(s, i + 2, e);
            proof {
                assert(found + subtasks_from(s@, i as int) =~= found.push(t@) + tail);
                found = found.push(t@);
            }
            tasks.push(t);
        } else {
            let mut line_chars = slice_of(s, i, e);
            rest.append(&mut line_chars);
        }
        if e < s.len() {
            rest.push('\n');
            i = e + 1;
        } else {
            i = e;
        }
    }
    assert(found =~= subtasks(s@));
    assert(rest@ =~= without_subtasks(s@));
    (tasks, rest)
}

} // verus!
