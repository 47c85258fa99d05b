//! Building one ticket record from a block, and the tickets of a document.
use vstd::prelude::*;
use crate::text::{lower_of, chars_of, string_of};
use crate::grammar::{
    tokens, strip, strip_tokens, strip_estimates, strip_estimate_tokens, collapse,
    collapse_whitespace, estimate_seconds, estimate_of, subtasks, without_subtasks, split_subtasks,
};
use crate::catalog::{
    Id, Tag, TagView, TicketError, resolve_tag, first_user, importance_of, rewrite_mentions,
    match_tags_and_categories, match_mentions, get_importance_level, rewrite_mention_tokens,
};
use crate::document::{blocks, malformed, title_part, description_part, split_block, split_blocks};
use crate::text::{trim, trimmed_range};

verus! {

/// One ticket, ready for submission.
#[derive(Debug, PartialEq, Eq)]
pub struct Ticket {
    pub title: String,
    pub description: String,
    pub parent_id: Id,
    pub is_story: bool,
    pub category_id: Id,
    /// The estimate in seconds (a day counts 8 hours).
    pub estimated_seconds: u64,
    pub importance_level_id: Id,
    pub board_id: Id,
    pub start_date: String,
    pub due_date: String,
    pub assigned_user_ids: Vec<Id>,
    pub tag_ids: Vec<Id>,
    pub sub_tasks: Vec<String>,
    pub dependency_ids: Vec<Id>,
}

/// The catalog snapshots that annotations are resolved against.
pub struct Catalogs {
    pub categories: Vec<(Id, String)>,
    pub tags: Vec<(Id, String)>,
    pub users: Vec<(Id, String, String)>,
    pub importance_levels: Vec<(Id, String, bool)>,
}

/// A title with its annotations (estimates, hash-tags, mentions, urgency
/// markers) removed and its words joined by single spaces. Estimates go
/// first: removing one could otherwise join a `#`, `@` or `!` to the word
/// after it.
pub open spec fn cleaned_title(s: Seq<char>) -> Seq<char> {
    collapse(strip(strip(strip(strip_estimates(s), '#'), '@'), '!'))
}

/// The title with the default category appended as a hash-tag.
pub open spec fn with_default(title: Seq<char>, default_category: Option<Seq<char>>) -> Seq<char> {
    match default_category {
        Some(c) => title + seq![' ', '#'] + c,
        None => title,
    }
}

/// The resolved hash-tags of a title.
pub open spec fn resolved_tags(
    title: Seq<char>,
    cats: Seq<(Id, String)>,
    tags: Seq<(Id, String)>,
) -> Seq<TagView> {
    tokens(title, '#').map_values(|n: Seq<char>| resolve_tag(n, cats, tags))
}

/// The id of the first category among resolved hash-tags from `i` on.
pub open spec fn first_category(ts: Seq<TagView>, i: int) -> Option<Id>
    decreases ts.len() - i,
{
    if i >= ts.len() || i < 0 {
        None
    } else if ts[i] is Category {
        Some(ts[i]->Category_0)
    } else {
        first_category(ts, i + 1)
    }
}

/// The ids of the tags among resolved hash-tags, in order.
pub open spec fn tag_ids_of(ts: Seq<TagView>) -> Seq<Id>
    decreases ts.len(),
{
    if ts.len() == 0 {
        seq![]
    } else {
        let rest = tag_ids_of(ts.drop_last());
        if ts.last() is Tag {
            rest.push(ts.last()->Tag_0)
        } else {
            rest
        }
    }
}

/// Every mention of a title matches a user.
pub open spec fn mentions_resolve(title: Seq<char>, u: Seq<(Id, String, String)>) -> bool {
    forall|k: int|
        0 <= k < tokens(title, '@').len() ==> first_user(
            u,
            lower_of(#[trigger] tokens(title, '@')[k]),
            0,
        ) < u.len()
}

/// The ids of the users that the mentions of a title resolve to, in order.
pub open spec fn assignees(title: Seq<char>, u: Seq<(Id, String, String)>) -> Seq<Id> {
    tokens(title, '@').map_values(|n: Seq<char>| u[first_user(u, lower_of(n), 0)].0)
}

/// Whether a block builds into a ticket.
pub open spec fn builds(
    block: Seq<char>,
    default_category: Option<Seq<char>>,
    c: Catalogs,
) -> bool {
    let title = with_default(title_part(block), default_category);
    &&& !malformed(block)
    &&& mentions_resolve(title, c.users@)
    &&& estimate_seconds(title) <= u64::MAX
    &&& importance_of(title, c.importance_levels@) is Some
    &&& rewrite_mentions(description_part(block), c.users@) is Some
    &&& first_category(resolved_tags(title, c.categories@, c.tags@), 0) is Some
}

/// What a ticket built from `block` holds.
pub open spec fn ticket_of(
    t: Ticket,
    block: Seq<char>,
    default_category: Option<Seq<char>>,
    c: Catalogs,
) -> bool {
    let title = with_default(title_part(block), default_category);
    let ts = resolved_tags(title, c.categories@, c.tags@);
    let desc = rewrite_mentions(description_part(block), c.users@)->Some_0;
    &&& t.title@ == cleaned_title(title)
    &&& t.description@ == trim(without_subtasks(desc))
    &&& t.sub_tasks@.len() == subtasks(desc).len()
    &&& forall|k: int| 0 <= k < t.sub_tasks@.len() ==> #[trigger] t.sub_tasks@[k]@ == subtasks(desc)[k]
    &&& t.category_id == first_category(ts, 0)->Some_0
    &&& t.tag_ids@ == tag_ids_of(ts)
    &&& t.assigned_user_ids@ == assignees(title, c.users@)
    &&& t.estimated_seconds == estimate_seconds(title)
    &&& Some(t.importance_level_id) == importance_of(title, c.importance_levels@)
    &&& t.parent_id == 0 && !t.is_story && t.board_id == 0
    &&& t.start_date@.len() == 0 && t.due_date@.len() == 0 && t.dependency_ids@.len() == 0
}

/// Removes the annotations of a title and joins its words by single spaces.
pub fn clean_title(title: &str) -> (r: String)
    ensures
        r@ == cleaned_title(title@),
{
    let s = chars_of(title);
    let s = strip_estimate_tokens(&s);
    let s = strip_tokens(&s, '#');
    let s = strip_tokens(&s, '@');
    let s = strip_tokens(&s, '!');
    string_of(&collapse_whitespace(&s))
}

/// Seconds of the first estimate of a title (`~1d2h30m15s`, a day counted
/// as 8 hours; 0 where it holds no `~`); `None` where they do not fit in a
/// `u64`.
pub fn get_estimate(title: &str) -> (r: Option<u64>)
    ensures
        r == (if estimate_seconds(title@) <= u64::MAX {
            Some(estimate_seconds(title@) as u64)
        } else {
            None::<u64>
        }),
{
    estimate_of(&chars_of(title))
}

fn category_of(ts: &Vec<Tag>) -> (r: Option<Id>)
    ensures
        r == first_category(ts@.map_values(|t: Tag| t@), 0),
{
    let ghost v = ts@.map_values(|t: Tag| t@);
    let mut i: usize = 0;
    while i < ts.len()
        invariant
            i <= ts.len(),
            v == ts@.map_values(|t: Tag| t@),
            first_category(v, 0) == first_category(v, i as int),
        decreases ts.len() - i,
    {
        if let Tag::Category(id, _) = &ts[i] {
            assert(v[i as int] == ts@[i as int]@);
            return Some(*id);
        }
        assert(v[i as int] == ts@[i as int]@);
        i = i + 1;
    }
    None
}

fn tag_ids(ts: &Vec<Tag>) -> (r: Vec<Id>)
    ensures
        r@ == tag_ids_of(ts@.map_values(|t: Tag| t@)),
{
    let ghost v = ts@.map_values(|t: Tag| t@);
    let mut r: Vec<Id> = Vec::new();
    let mut i: usize = 0;
    while i < ts.len()
        invariant
            i <= ts.len(),
            v == ts@.map_values(|t: Tag| t@),
            r@ == tag_ids_of(v.subrange(0, i as int)),
        decreases ts.len() - i,
    {
        assert(v.subrange(0, i + 1).drop_last() =~= v.subrange(0, i as int));
        assert(v[i as int] == ts@[i as int]@);
        if let Tag::Tag(id, _) = &ts[i] {
            r.push(*id);
        }
        i = i + 1;
    }
    assert(v.subrange(0, ts.len() as int) =~= v);
    r
}

pub open spec fn opt_view(o: Option<&str>) -> Option<Seq<char>> {
    match o {
        Some(c) => Some(c@),
        None => None,
    }
}

/// Builds the ticket of one block: resolves the annotations of its title
/// (with `#default_category` appended where one is given), cleans the title,
/// rewrites the mentions of its description to handles and extracts its
/// sub-task lines.
pub fn build_ticket(block: &str, default_category: Option<&str>, catalogs: &Catalogs) -> (r:
    Result<Ticket, TicketError>)
    ensures
        r is Ok <==> builds(block@, opt_view(default_category), *catalogs),
        r matches Ok(t) ==> ticket_of(t, block@, opt_view(default_category), *catalogs),
        r matches Err(e) ==> {
            let title = with_default(title_part(block@), opt_view(default_category));
            let users_ok = mentions_resolve(title, catalogs.users@);
            let estimate_ok = estimate_seconds(title) <= u64::MAX;
            let importance_ok = importance_of(title, catalogs.importance_levels@) is Some;
            let description_ok = rewrite_mentions(description_part(block@), catalogs.users@) is Some;
            &&& (e is MalformedBlock <==> malformed(block@))
            &&& (e is UnknownUser <==> !malformed(block@) && (!users_ok || (estimate_ok
                && importance_ok && !description_ok)))
            &&& (e is EstimateTooLarge <==> !malformed(block@) && users_ok && !estimate_ok)
            &&& (e is UnknownImportance || e is NoDefaultImportance) <==> !malformed(block@)
                && users_ok && estimate_ok && !importance_ok
            &&& (e is NoCategory <==> !malformed(block@) && users_ok && estimate_ok && importance_ok
                && description_ok)
        },
{
    let b = chars_of(block);
    let (mut title, description) = match split_block(&b) {
        Ok(p) => p,
        Err(e) => {
            return Err(e);
        },
    };
    if let Some(c) = default_category {
        title.push(' ');
        title.push('#');
        let mut cs = chars_of(c);
        title.append(&mut cs);
    }
    let ghost tv = with_default(title_part(block@), opt_view(default_category));
    assert(title@ =~= tv);
    let title_str = string_of(&title);
    let ts = match_tags_and_categories(title_str.as_str(), &catalogs.categories, &catalogs.tags);
    assert(ts@.map_values(|t: Tag| t@) =~= resolved_tags(tv, catalogs.categories@, catalogs.tags@));
    let mentions = match match_mentions(title_str.as_str(), &catalogs.users) {
        Ok(m) => m,
        Err(e) => {
            return Err(e);
        },
    };
    let estimated_seconds = match estimate_of(&title) {
        Some(v) => v,
        None => {
            return Err(TicketError::EstimateTooLarge);
        },
    };
    let importance_level_id = match get_importance_level(
        title_str.as_str(),
        &catalogs.importance_levels,
    ) {
        Ok(id) => id,
        Err(e) => {
            return Err(e);
        },
    };
    let cleaned = clean_title(title_str.as_str());
    let rewritten = match rewrite_mention_tokens(&description, &catalogs.users) {
        Ok(t) => t,
        Err(e) => {
            return Err(e);
        },
    };
    let (tasks, rest) = split_subtasks(&rewritten);
    let category_id = match category_of(&ts) {
        Some(id) => id,
        None => {
            return Err(TicketError::NoCategory);
        },
    };
    let mut assigned_user_ids: Vec<Id> = Vec::new();
    let mut k: usize = 0;
    while k < mentions.len()
        invariant
            k <= mentions.len(),
            mentions@.len() == tokens(tv, '@').len(),
            forall|m: int|
                0 <= m < mentions@.len() ==> #[trigger] mentions@[m] == first_user(
                    catalogs.users@,
                    lower_of(tokens(tv, '@')[m]),
                    0,
                ) && mentions@[m] < catalogs.users@.len(),
            assigned_user_ids@ == assignees(tv, catalogs.users@).subrange(0, k as int),
        decreases mentions.len() - k,
    {
        let u = mentions[k];
        assigned_user_ids.push(catalogs.users[u].0);
        assert(assigned_user_ids@ =~= assignees(tv, catalogs.users@).subrange(0, k + 1));
        k = k + 1;
    }
    assert(assigned_user_ids@ =~= assignees(tv, catalogs.users@));
    let mut sub_tasks: Vec<String> = Vec::new();
    let mut k: usize = 0;
    while k < tasks.len()
        invariant
            k <= tasks.len(),
            sub_tasks@.len() == k,
            forall|m: int| 0 <= m < k ==> #[trigger] sub_tasks@[m]@ == tasks@[m]@,
        decreases tasks.len() - k,
    {
        sub_tasks.push(string_of(&tasks[k]));
        k = k + 1;
    }
    let description = string_of(&trimmed_range(&rest, 0, rest.len()));
    assert(rest@.subrange(0, rest@.len() as int) =~= rest@);
    Ok(Ticket {
        title: cleaned,
        description,
        parent_id: 0,
        is_story: false,
        category_id,
        estimated_seconds,
        importance_level_id,
        board_id: 0,
        start_date: String::new(),
        due_date: String::new(),
        assigned_user_ids,
        tag_ids: tag_ids(&ts),
        sub_tasks,
        dependency_ids: Vec::new(),
    })
}

/// Builds the tickets of all blocks of `document`, in order; the first block
/// that does not build ends the run with its error.
pub fn build_tickets(document: &str, default_category: Option<&str>, catalogs: &Catalogs) -> (r:
    Result<Vec<Ticket>, TicketError>)
    ensures
        r is Ok <==> forall|k: int|
            0 <= k < blocks(document@).len() ==> builds(
                #[trigger] blocks(document@)[k],
                opt_view(default_category),
                *catalogs,
            ),
        r matches Ok(v) ==> v@.len() == blocks(document@).len() && forall|k: int|
            0 <= k < v@.len() ==> ticket_of(
                #[trigger] v@[k],
                blocks(document@)[k],
                opt_view(default_category),
                *catalogs,
            ),
        r is Err ==> exists|k: int|
            0 <= k < blocks(document@).len() && !builds(
                #[trigger] blocks(document@)[k],
                opt_view(default_category),
                *catalogs,
            ) && forall|m: int|
                0 <= m < k ==> builds(
                    #[trigger] blocks(document@)[m],
                    opt_view(default_category),
                    *catalogs,
                ),
{
    let doc = chars_of(document);
    let bs = split_blocks(&doc);
    let ghost all = blocks(document@);
    let mut r: Vec<Ticket> = Vec::new();
    let mut k: usize = 0;
    while k < bs.len()
        invariant
            k <= bs.len(),
            all == blocks(document@),
            bs@.len() == all.len(),
            forall|m: int| 0 <= m < bs@.len() ==> #[trigger] bs@[m]@ == all[m],
            r@.len() == k,
            forall|m: int|
                0 <= m < k ==> builds(#[trigger] all[m], opt_view(default_category), *catalogs),
            forall|m: int|
                0 <= m < k ==> ticket_of(
                    #[trigger] r@[m],
                    all[m],
                    opt_view(default_category),
                    *catalogs,
                ),
        decreases bs.len() - k,
    {
        assert(bs@[k as int]@ == all[k as int]);
        let block = string_of(&bs[k]);
        match build_ticket(block.as_str(), default_category, catalogs) {
            Ok(t) => {
                r.push(t);
            },
            Err(e) => {
                return Err(e);
            },
        }
        k = k + 1;
    }
    Ok(r)
}

} // verus!
