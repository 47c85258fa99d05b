//! Segmentation of a document into ticket blocks (`---`) and of a block
//! into title and description (`===`).
use vstd::prelude::*;
use crate::text::{trim, trimmed_range, occurs_at};
use crate::catalog::TicketError;

verus! {

/// `pat` stands in `s` at `i`.
pub open spec fn stands_at(s: Seq<char>, pat: Seq<char>, i: int) -> bool {
    0 <= i && i + pat.len() <= s.len() && s.subrange(i, i + pat.len()) == pat
}

/// The first index at or after `i` where `pat` stands (or `s.len()`).
pub open spec fn next_at(s: Seq<char>, pat: Seq<char>, i: int) -> int
    decreases s.len() - i,
{
    if i >= s.len() || i < 0 || stands_at(s, pat, i) {
        i
    } else {
        next_at(s, pat, i + 1)
    }
}

pub proof fn lemma_next_at_bounds(s: Seq<char>, pat: Seq<char>, i: int)
    requires
        0 <= i <= s.len(),
    ensures
        i <= next_at(s, pat, i) <= s.len(),
        next_at(s, pat, i) < s.len() ==> stands_at(s, pat, next_at(s, pat, i)),
    decreases s.len() - i,
{
    if i < s.len() && !stands_at(s, pat, i) {
        lemma_next_at_bounds(s, pat, i + 1);
    }
}

pub open spec fn block_delim() -> Seq<char> {
    seq!['-', '-', '-']
}

pub open spec fn title_delim() -> Seq<char> {
    seq!['=', '=', '=']
}

/// The pieces of `s` from `i` on between `---` delimiters that hold more
/// than whitespace, in order.
pub open spec fn blocks_from(s: Seq<char>, i: int) -> Seq<Seq<char>>
    decreases s.len() - i,
    via blocks_from_decreases
{
    if i > s.len() || i < 0 {
        seq![]
    } else {
        let j = next_at(s, block_delim(), i);
        let piece = s.subrange(i, if j < s.len() { j } else { s.len() as int });
        let rest = if j < s.len() {
            blocks_from(s, j + 3)
        } else {
            seq![]
        };
        if trim(piece).len() > 0 {
            seq![piece] + rest
        } else {
            rest
        }
    }
}

#[via_fn]
proof fn blocks_from_decreases(s: Seq<char>, i: int) {
    if 0 <= i <= s.len() {
        lemma_next_at_bounds(s, block_delim(), i);
    }
}

/// The ticket blocks of a document.
pub open spec fn blocks(s: Seq<char>) -> Seq<Seq<char>> {
    blocks_from(s, 0)
}

/// Index of the first `pat` (non-empty) at or after `from` (or `s.len()`).
pub fn find_pattern(s: &Vec<char>, pat: &Vec<char>, from: usize) -> (r: usize)
    requires
        from <= s.len(),
        pat.len() > 0,
    ensures
        r == next_at(s@, pat@, from as int),
        from <= r <= s.len(),
{
    let mut k = from;
    while k < s.len()
        invariant
            from <= k <= s.len(),
            next_at(s@, pat@, from as int) == next_at(s@, pat@, k as int),
        decreases s.len() - k,
    {
        if pat.len() <= s.len() - k && occurs_at(pat, s, k) {
            return k;
        }
        k = k + 1;
    }
    k
}

/// Splits a document into its ticket blocks: the pieces between `---`
/// delimiters, those that hold only whitespace left out.
pub fn split_blocks(document: &Vec<char>) -> (r: Vec<Vec<char>>)
    ensures
        r@.len() == blocks(document@).len(),
        forall|k: int| 0 <= k < r@.len() ==> #[trigger] r@[k]@ == blocks(document@)[k],
{
    let s = document;
    let delim = vec!['-', '-', '-'];
    assert(delim@ =~= block_delim());
    let mut r: Vec<Vec<char>> = Vec::new();
    let ghost found: Seq<Seq<char>> = seq![];
    let mut i: usize = 0;
    let mut done = false;
    while !done
        invariant
            i <= s.len(),
            delim@ == block_delim(),
            done ==> blocks(s@) == found,
            !done ==> blocks(s@) == found + blocks_from(s@, i as int),
            r@.len() == found.len(),
            forall|k: int| 0 <= k < r@.len() ==> #[trigger] r@[k]@ == found[k],
        decreases s.len() - i + (if done { 0int } else { 1int }),
    {
        let j = find_pattern(s, &delim, i);
        proof {
            lemma_next_at_bounds(s@, block_delim(), i as int);
        }
        let piece = crate::grammar::slice_of(s, i, j);
        let t = trimmed_range(s, i, j);
        let ghost rest = if j < s.len() {
            blocks_from(s@, j + 3)
        } else {
            seq![]
        };
        if t.len() > 0 {
            proof {
                assert(found + blocks_from(s@, i as int) =~= found.push(piece@) + rest);
                found = found.push(piece@);
            }
            r.push(piece);
        } else {
            assert(found + blocks_from(s@, i as int) =~= found + rest);
        }
        if j < s.len() {
            i = j + 3;
        } else {
            assert(found + seq![] =~= found);
            done = true;
        }
    }
    r
}

/// A block holds a second `===` after its first.
pub open spec fn malformed(b: Seq<char>) -> bool {
    let j = next_at(b, title_delim(), 0);
    j < b.len() && next_at(b, title_delim(), j + 3) < b.len()
}

/// The title region of a block: what precedes its first `===`, trimmed.
pub open spec fn title_part(b: Seq<char>) -> Seq<char> {
    trim(b.subrange(0, next_at(b, title_delim(), 0)))
}

/// The description region of a block: what follows its first `===`,
/// trimmed; empty where it has none.
pub open spec fn description_part(b: Seq<char>) -> Seq<char> {
    let j = next_at(b, title_delim(), 0);
    if j < b.len() {
        trim(b.subrange(j + 3, b.len() as int))
    } else {
        seq![]
    }
}

/// Splits a block at its first `===` into trimmed title and description;
/// a block with a second `===` is malformed.
pub fn split_block(block: &Vec<char>) -> (r: Result<(Vec<char>, Vec<char>), TicketError>)
    ensures
        r is Err <==> malformed(block@),
        r matches Err(e) ==> e == TicketError::MalformedBlock,
        r matches Ok(p) ==> p.0@ == title_part(block@) && p.1@ == description_part(block@),
{
    let delim = vec!['=', '=', '='];
    assert(delim@ =~= title_delim());
    let j = find_pattern(block, &delim, 0);
    proof {
        lemma_next_at_bounds(block@, title_delim(), 0);
    }
    if j < block.len() {
        let j2 = find_pattern(block, &delim, j + 3);
        if j2 < block.len() {
            return Err(TicketError::MalformedBlock);
        }
        let title = trimmed_range(block, 0, j);
        let description = trimmed_range(block, j + 3, block.len());
        Ok((title, description))
    } else {
        let title = trimmed_range(block, 0, j);
        Ok((title, Vec::new()))
    }
}

/// Some block of `document` holds a second `===`.
pub open spec fn any_malformed(document: Seq<char>) -> bool {
    exists|k: int| 0 <= k < blocks(document).len() && malformed(#[trigger] blocks(document)[k])
}

/// Checks that no block of `document` holds a second `===`.
pub fn check_document(document: &str) -> (r: Result<(), TicketError>)
    ensures
        r is Err <==> any_malformed(document@),
        r matches Err(e) ==> e == TicketError::MalformedBlock,
{
    let doc = crate::text::chars_of(document);
    let bs = split_blocks(&doc);
    let ghost all = blocks(document@);
    let mut k: usize = 0;
    while k < bs.len()
        invariant
            k <= bs.len(),
            all == blocks(document@),
            bs@.len() == all.len(),
            forall|m: int| 0 <= m < bs@.len() ==> #[trigger] bs@[m]@ == all[m],
            forall|m: int| 0 <= m < k ==> !malformed(#[trigger] all[m]),
        decreases bs.len() - k,
    {
        assert(bs@[k as int]@ == all[k as int]);
        if let Err(e) = split_block(&bs[k]) {
            return Err(e);
        }
        k = k + 1;
    }
    Ok(())
}

} // verus!
