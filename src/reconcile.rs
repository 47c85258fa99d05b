//! The reconciliation pass: the hash-tags of all titles that match neither
//! catalog, sorted and without repeats.
use vstd::prelude::*;
use crate::text::{chars_of, string_of};
use crate::catalog::{Id, Tag, TagView, TicketError, match_tags_and_categories};
use crate::document::{any_malformed, blocks, malformed, title_part, split_blocks, split_block};
use crate::ticket::resolved_tags;

verus! {

/// `a` comes before `b` in lexicographic order, comparing from index `i`.
pub open spec fn lex_lt_from(a: Seq<char>, b: Seq<char>, i: int) -> bool
    decreases a.len() - i,
{
    if i >= a.len() {
        0 <= i < b.len()
    } else if i >= b.len() || i < 0 {
        false
    } else if a[i] == b[i] {
        lex_lt_from(a, b, i + 1)
    } else {
        a[i] < b[i]
    }
}

/// `a` comes strictly before `b` in lexicographic order.
pub open spec fn lex_lt(a: Seq<char>, b: Seq<char>) -> bool {
    lex_lt_from(a, b, 0)
}

/// Each name comes strictly before the next.
pub open spec fn strictly_sorted(v: Seq<Seq<char>>) -> bool {
    forall|i: int| 0 <= i < v.len() - 1 ==> lex_lt(#[trigger] v[i], v[i + 1])
}

pub proof fn lemma_lex_total_from(a: Seq<char>, b: Seq<char>, i: int)
    requires
        0 <= i <= a.len(),
        i <= b.len(),
        a.subrange(0, i) == b.subrange(0, i),
    ensures
        lex_lt_from(a, b, i) || lex_lt_from(b, a, i) || a == b,
    decreases a.len() - i,
{
    if i == a.len() && i == b.len() {
        assert(a =~= a.subrange(0, i));
        assert(b =~= b.subrange(0, i));
    } else if i < a.len() && i < b.len() && a[i] == b[i] {
        assert(a.subrange(0, i + 1) =~= a.subrange(0, i).push(a[i]));
        assert(b.subrange(0, i + 1) =~= b.subrange(0, i).push(b[i]));
        lemma_lex_total_from(a, b, i + 1);
    }
}

/// Lexicographic order is total.
pub proof fn lemma_lex_total(a: Seq<char>, b: Seq<char>)
    ensures
        lex_lt(a, b) || lex_lt(b, a) || a == b,
{
    assert(a.subrange(0, 0) =~= b.subrange(0, 0));
    lemma_lex_total_from(a, b, 0);
}

fn lex_less(a: &Vec<char>, b: &Vec<char>) -> (r: bool)
    ensures
        r == lex_lt(a@, b@),
{
    let mut i: usize = 0;
    while i < a.len() && i < b.len() && a[i] == b[i]
        invariant
            i <= a.len(),
            lex_lt(a@, b@) == lex_lt_from(a@, b@, i as int),
        decreases a.len() - i,
    {
        i = i + 1;
    }
    if i >= a.len() {
        i < b.len()
    } else if i >= b.len() {
        false
    } else {
        a[i] < b[i]
    }
}

fn same_chars(a: &Vec<char>, b: &Vec<char>) -> (r: bool)
    ensures
        r == (a@ == b@),
{
    if a.len() != b.len() {
        return false;
    }
    let r = crate::text::occurs_at(b, a, 0);
    assert(a@.subrange(0, b@.len() as int) =~= a@);
    r
}

pub open spec fn names_of(v: Seq<Vec<char>>) -> Seq<Seq<char>> {
    v.map_values(|c: Vec<char>| c@)
}

/// Inserts `x` into the strictly sorted `v` unless it is there already.
fn insert_name(v: &mut Vec<Vec<char>>, x: Vec<char>)
    requires
        strictly_sorted(names_of(old(v)@)),
    ensures
        strictly_sorted(names_of(final(v)@)),
        forall|y: Seq<char>|
            names_of(final(v)@).contains(y) <==> (names_of(old(v)@).contains(y) || y == x@),
{
    let ghost old_names = names_of(v@);
    let mut p: usize = 0;
    while p < v.len() && lex_less(&v[p], &x)
        invariant
            p <= v.len(),
            old_names == names_of(v@),
            forall|i: int| 0 <= i < p ==> lex_lt(#[trigger] old_names[i], x@),
        decreases v.len() - p,
    {
        p = p + 1;
    }
    if p < v.len() && same_chars(&v[p], &x) {
        assert(old_names[p as int] == x@);
        return;
    }
    proof {
        if p < v.len() {
            lemma_lex_total(old_names[p as int], x@);
        }
    }
    let ghost xv = x@;
    v.insert(p, x);
    let ghost new_names = names_of(v@);
    assert(new_names =~= old_names.insert(p as int, xv));
    assert forall|i: int| 0 <= i < new_names.len() - 1 implies lex_lt(
        #[trigger] new_names[i],
        new_names[i + 1],
    ) by {
        if i < p as int - 1 {
            assert(new_names[i] == old_names[i] && new_names[i + 1] == old_names[i + 1]);
        } else if i == p as int - 1 {
            assert(new_names[i] == old_names[i]);
        } else if i == p as int {
        } else {
            assert(new_names[i] == old_names[i - 1] && new_names[i + 1] == old_names[i]);
        }
    }
    assert forall|y: Seq<char>| new_names.contains(y) <==> (old_names.contains(y) || y == xv) by {
        if new_names.contains(y) {
            let i = choose|i: int| 0 <= i < new_names.len() && new_names[i] == y;
            if i < p {
                assert(old_names[i] == y);
            } else if i > p {
                assert(old_names[i - 1] == y);
            }
        }
        if old_names.contains(y) {
            let i = choose|i: int| 0 <= i < old_names.len() && old_names[i] == y;
            if i < p {
                assert(new_names[i] == y);
            } else {
                assert(new_names[i + 1] == y);
            }
        }
        if y == xv {
            assert(new_names[p as int] == y);
        }
    }
}

/// `name` is the lower-cased name of a hash-tag of `title` that matches
/// neither catalog.
pub open spec fn unmatched_in(
    title: Seq<char>,
    cats: Seq<(Id, String)>,
    tags: Seq<(Id, String)>,
    name: Seq<char>,
) -> bool {
    resolved_tags(title, cats, tags).contains(TagView::UnaddedTag(name))
}

/// One of the first `j` resolved hash-tags is the unmatched `name`.
pub open spec fn unadded_below(resolved: Seq<TagView>, j: int, name: Seq<char>) -> bool {
    exists|m: int| 0 <= m < j && #[trigger] resolved[m] == TagView::UnaddedTag(name)
}

/// The hash-tags of the titles of `document` that match neither catalog:
/// lower-cased, in lexicographic order, each once.
pub fn unmatched_tags(
    document: &str,
    available_categories: &Vec<(Id, String)>,
    available_tags: &Vec<(Id, String)>,
) -> (r: Result<Vec<String>, TicketError>)
    ensures
        r is Err <==> any_malformed(document@),
        r matches Err(e) ==> e == TicketError::MalformedBlock,
        r matches Ok(v) ==> {
            let names = v@.map_values(|s: String| s@);
            &&& strictly_sorted(names)
            &&& forall|i: int, j: int| 0 <= i < j < names.len() ==> #[trigger] names[i] != #[trigger] names[j]
            &&& forall|y: Seq<char>|
                names.contains(y) <==> exists|k: int|
                    0 <= k < blocks(document@).len() && unmatched_in(
                        title_part(#[trigger] blocks(document@)[k]),
                        available_categories@,
                        available_tags@,
                        y,
                    )
        },
{
    let doc = chars_of(document);
    let bs = split_blocks(&doc);
    let ghost all = blocks(document@);
    let mut found: Vec<Vec<char>> = Vec::new();
    let mut k: usize = 0;
    while k < bs.len()
        invariant
            k <= bs.len(),
            all == blocks(document@),
            bs@.len() == all.len(),
            forall|m: int| 0 <= m < bs@.len() ==> #[trigger] bs@[m]@ == all[m],
            forall|m: int| 0 <= m < k ==> !malformed(#[trigger] all[m]),
            strictly_sorted(names_of(found@)),
            forall|y: Seq<char>|
                names_of(found@).contains(y) <==> exists|m: int|
                    0 <= m < k && unmatched_in(
                        title_part(#[trigger] all[m]),
                        available_categories@,
                        available_tags@,
                        y,
                    ),
        decreases bs.len() - k,
    {
        assert(bs@[k as int]@ == all[k as int]);
        let (title, _) = match split_block(&bs[k]) {
            Ok(p) => p,
            Err(e) => {
                assert(malformed(all[k as int]));
                return Err(e);
            },
        };
        let ts = match_tags_and_categories(
            string_of(&title).as_str(),
            available_categories,
            available_tags,
        );
        let ghost tv = title_part(all[k as int]);
        let ghost resolved = resolved_tags(tv, available_categories@, available_tags@);
        let ghost before = names_of(found@);
        assert(ts@.len() == resolved.len());
        assert forall|m: int| 0 <= m < ts@.len() implies #[trigger] ts@[m]@ == resolved[m] by {}
        let mut j: usize = 0;
        while j < ts.len()
            invariant
                j <= ts.len(),
                ts@.len() == resolved.len(),
                forall|m: int| 0 <= m < ts@.len() ==> #[trigger] ts@[m]@ == resolved[m],
                strictly_sorted(names_of(found@)),
                forall|y: Seq<char>|
                    names_of(found@).contains(y) <==> (before.contains(y) || unadded_below(
                        resolved,
                        j as int,
                        y,
                    )),
            decreases ts.len() - j,
        {
            assert(ts@[j as int]@ == resolved[j as int]);
            let ghost prev = names_of(found@);
            let ghost added: Option<Seq<char>> = None;
            if let Tag::UnaddedTag(name) = &ts[j] {
                insert_name(&mut found, chars_of(name.as_str()));
                proof {
                    added = Some(name@);
                }
            }
            assert forall|y: Seq<char>|
                #[trigger] names_of(found@).contains(y) <==> (before.contains(y) || unadded_below(
                    resolved,
                    j + 1,
                    y,
                )) by {
                assert(prev.contains(y) <==> (before.contains(y) || unadded_below(
                    resolved,
                    j as int,
                    y,
                )));
                if added is Some {
                    assert(resolved[j as int] == TagView::UnaddedTag(added->Some_0));
                    assert(names_of(found@).contains(y) <==> (prev.contains(y) || y == added->Some_0));
                } else {
                    assert(!(resolved[j as int] is UnaddedTag));
                    assert(names_of(found@) == prev);
                }
                if unadded_below(resolved, j + 1, y) {
                    let m = choose|m: int| 0 <= m < j + 1 && #[trigger] resolved[m] == TagView::UnaddedTag(y);
                    if m < j {
                        assert(unadded_below(resolved, j as int, y));
                    }
                }
                if unadded_below(resolved, j as int, y) {
                    let m = choose|m: int| 0 <= m < j && #[trigger] resolved[m] == TagView::UnaddedTag(y);
                    assert(resolved[m] == TagView::UnaddedTag(y));
                }
                if added is Some && y == added->Some_0 {
                    assert(resolved[j as int] == TagView::UnaddedTag(y));
                }
            }
            j = j + 1;
        }
        assert forall|y: Seq<char>|
            names_of(found@).contains(y) <==> exists|m: int|
                0 <= m < k + 1 && unmatched_in(
                    title_part(#[trigger] all[m]),
                    available_categories@,
                    available_tags@,
                    y,
                ) by {
            assert(before.contains(y) <==> exists|m: int|
                0 <= m < k && unmatched_in(
                    title_part(#[trigger] all[m]),
                    available_categories@,
                    available_tags@,
                    y,
                ));
            assert(names_of(found@).contains(y) <==> (before.contains(y) || unadded_below(
                resolved,
                ts@.len() as int,
                y,
            )));
            if exists|m: int| 0 <= m < ts@.len() && #[trigger] resolved[m] == TagView::UnaddedTag(y) {
                let m = choose|m: int| 0 <= m < ts@.len() && #[trigger] resolved[m] == TagView::UnaddedTag(y);
                assert(resolved.contains(TagView::UnaddedTag(y)));
                assert(unmatched_in(title_part(all[k as int]), available_categories@, available_tags@, y));
            }
            if unmatched_in(tv, available_categories@, available_tags@, y) {
                let m = choose|m: int| 0 <= m < resolved.len() && resolved[m] == TagView::UnaddedTag(y);
                assert(resolved[m] == TagView::UnaddedTag(y));
            }
            if exists|m: int|
                0 <= m < k + 1 && unmatched_in(
                    title_part(#[trigger] all[m]),
                    available_categories@,
                    available_tags@,
                    y,
                ) {
                let m = choose|m: int|
                    0 <= m < k + 1 && unmatched_in(
                        title_part(#[trigger] all[m]),
                        available_categories@,
                        available_tags@,
                        y,
                    );
                if m == k {
                    assert(unmatched_in(tv, available_categories@, available_tags@, y));
                }
            }
        }
        k = k + 1;
    }
    let mut r: Vec<String> = Vec::new();
    let mut i: usize = 0;
    while i < found.len()
        invariant
            i <= found.len(),
            r@.len() == i,
            forall|m: int| 0 <= m < i ==> #[trigger] r@[m]@ == found@[m]@,
        decreases found.len() - i,
    {
        r.push(string_of(&found[i]));
        i = i + 1;
    }
    assert(r@.map_values(|s: String| s@) =~= names_of(found@));
    proof {
        crate::laws::lemma_sorted_names_distinct(names_of(found@));
    }
    Ok(r)
}

} // verus!
