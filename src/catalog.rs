//! Resolution of annotations against catalog snapshots: categories and tags
//! by exact case-insensitive name, users and importance levels by
//! case-insensitive containment, the first entry in catalog order winning.
use vstd::prelude::*;
use crate::text::{lower_of, lowercase, chars_of, string_of, occurs_in, contains};
use crate::grammar::{tokens, find_tokens, starts_token, word_end, slice_of};

verus! {

/// Identifier of a catalog entry.
pub type Id = i64;

/// A hash-tag resolved against the category and tag catalogs.
#[derive(Debug, PartialEq, Eq)]
pub enum Tag {
    /// A category: its id and its name in the catalog.
    Category(Id, String),
    /// A tag: its id and its name in the catalog.
    Tag(Id, String),
    /// A hash-tag that matches neither catalog: its lower-cased name.
    UnaddedTag(String),
}

pub enum TagView {
    Category(Id, Seq<char>),
    Tag(Id, Seq<char>),
    UnaddedTag(Seq<char>),
}

impl View for Tag {
    type V = TagView;

    open spec fn view(&self) -> TagView {
        match self {
            Tag::Category(id, n) => TagView::Category(*id, n@),
            Tag::Tag(id, n) => TagView::Tag(*id, n@),
            Tag::UnaddedTag(n) => TagView::UnaddedTag(n@),
        }
    }
}

/// Why a ticket could not be resolved or built.
#[derive(Debug, PartialEq, Eq)]
pub enum TicketError {
    /// A block holds more than one `===`.
    MalformedBlock,
    /// A mention (lower-cased) that no user's name contains.
    UnknownUser(String),
    /// An urgency marker (lower-cased) that no importance level's name contains.
    UnknownImportance(String),
    /// No urgency marker, and no importance level is flagged default.
    NoDefaultImportance,
    /// The title resolves no category.
    NoCategory,
    /// The estimate, in seconds, does not fit in a `u64`.
    EstimateTooLarge,
}

/// Index of the first entry at or after `i` whose lower-cased name is `key`.
pub open spec fn first_named(e: Seq<(Id, String)>, key: Seq<char>, i: int) -> int
    decreases e.len() - i,
{
    if i >= e.len() || i < 0 {
        e.len() as int
    } else if lower_of(e[i].1@) == key {
        i
    } else {
        first_named(e, key, i + 1)
    }
}

/// Index of the first user at or after `i` whose lower-cased name contains `key`.
pub open spec fn first_user(u: Seq<(Id, String, String)>, key: Seq<char>, i: int) -> int
    decreases u.len() - i,
{
    if i >= u.len() || i < 0 {
        u.len() as int
    } else if occurs_in(key, lower_of(u[i].1@)) {
        i
    } else {
        first_user(u, key, i + 1)
    }
}

/// Index of the first level at or after `i` whose lower-cased name contains `key`.
pub open spec fn first_level(l: Seq<(Id, String, bool)>, key: Seq<char>, i: int) -> int
    decreases l.len() - i,
{
    if i >= l.len() || i < 0 {
        l.len() as int
    } else if occurs_in(key, lower_of(l[i].1@)) {
        i
    } else {
        first_level(l, key, i + 1)
    }
}

/// Index of the first level at or after `i` flagged default.
pub open spec fn first_default(l: Seq<(Id, String, bool)>, i: int) -> int
    decreases l.len() - i,
{
    if i >= l.len() || i < 0 {
        l.len() as int
    } else if l[i].2 {
        i
    } else {
        first_default(l, i + 1)
    }
}

/// What the hash-tag name `name` resolves to: a category first, then a tag.
pub open spec fn resolve_tag(
    name: Seq<char>,
    cats: Seq<(Id, String)>,
    tags: Seq<(Id, String)>,
) -> TagView {
    let key = lower_of(name);
    let c = first_named(cats, key, 0);
    let t = first_named(tags, key, 0);
    if c < cats.len() {
        TagView::Category(cats[c].0, cats[c].1@)
    } else if t < tags.len() {
        TagView::Tag(tags[t].0, tags[t].1@)
    } else {
        TagView::UnaddedTag(key)
    }
}

/// The id of the importance level of a title: its first urgency marker
/// resolved by containment, else the level flagged default.
pub open spec fn importance_of(title: Seq<char>, l: Seq<(Id, String, bool)>) -> Option<Id> {
    let marks = tokens(title, '!');
    if marks.len() > 0 {
        let i = first_level(l, lower_of(marks[0]), 0);
        if i < l.len() {
            Some(l[i].0)
        } else {
            None
        }
    } else {
        let i = first_default(l, 0);
        if i < l.len() {
            Some(l[i].0)
        } else {
            None
        }
    }
}

fn find_named(e: &Vec<(Id, String)>, key: &String) -> (r: usize)
    ensures
        r == first_named(e@, key@, 0),
        r <= e.len(),
{
    let mut i: usize = 0;
    while i < e.len()
        invariant
            i <= e.len(),
            first_named(e@, key@, 0) == first_named(e@, key@, i as int),
        decreases e.len() - i,
    {
        let n = lowercase(&e[i].1);
        if n == *key {
            return i;
        }
        i = i + 1;
    }
    i
}

/// Resolves one hash-tag name (without `#`).
pub fn resolve_hash_tag(
    name: &Vec<char>,
    available_categories: &Vec<(Id, String)>,
    available_tags: &Vec<(Id, String)>,
) -> (r: Tag)
    ensures
        r@ == resolve_tag(name@, available_categories@, available_tags@),
{
    let key = lowercase(&string_of(name));
    let c = find_named(available_categories, &key);
    if c < available_categories.len() {
        return Tag::Category(available_categories[c].0, available_categories[c].1.clone());
    }
    let t = find_named(available_tags, &key);
    if t < available_tags.len() {
        Tag::Tag(available_tags[t].0, available_tags[t].1.clone())
    } else {
        Tag::UnaddedTag(key)
    }
}

/// Resolves every hash-tag of `title`, in order.
pub fn match_tags_and_categories(
    title: &str,
    available_categories: &Vec<(Id, String)>,
    available_tags: &Vec<(Id, String)>,
) -> (r: Vec<Tag>)
    ensures
        r@.len() == tokens(title@, '#').len(),
        forall|k: int|
            0 <= k < r@.len() ==> #[trigger] r@[k]@ == resolve_tag(
                tokens(title@, '#')[k],
                available_categories@,
                available_tags@,
            ),
{
    let s = chars_of(title);
    let names = find_tokens(&s, '#');
    let mut r: Vec<Tag> = Vec::new();
    let mut k: usize = 0;
    while k < names.len()
        invariant
            k <= names.len(),
            s@ == title@,
            names@.len() == tokens(title@, '#').len(),
            forall|m: int| 0 <= m < names@.len() ==> #[trigger] names@[m]@ == tokens(title@, '#')[m],
            r@.len() == k,
            forall|m: int|
                0 <= m < k ==> #[trigger] r@[m]@ == resolve_tag(
                    tokens(title@, '#')[m],
                    available_categories@,
                    available_tags@,
                ),
        decreases names.len() - k,
    {
        let t = resolve_hash_tag(&names[k], available_categories, available_tags);
        r.push(t);
        k = k + 1;
    }
    r
}

/// Index of the first user whose lower-cased name contains `key`.
fn find_user(users: &Vec<(Id, String, String)>, key: &Vec<char>) -> (r: usize)
    ensures
        r == first_user(users@, key@, 0),
        r <= users.len(),
{
    let mut i: usize = 0;
    while i < users.len()
        invariant
            i <= users.len(),
            first_user(users@, key@, 0) == first_user(users@, key@, i as int),
        decreases users.len() - i,
    {
        let n = chars_of(lowercase(&users[i].1).as_str());
        if contains(&n, key) {
            return i;
        }
        i = i + 1;
    }
    i
}

/// Resolves every mention of `string` to the index of its user in
/// `available_users`, in order; the first mention that no user matches is
/// an error.
pub fn match_mentions(string: &str, available_users: &Vec<(Id, String, String)>) -> (r: Result<
    Vec<usize>,
    TicketError,
>)
    ensures
        r is Ok <==> forall|k: int|
            0 <= k < tokens(string@, '@').len() ==> first_user(
                available_users@,
                lower_of(#[trigger] tokens(string@, '@')[k]),
                0,
            ) < available_users@.len(),
        r matches Ok(v) ==> v@.len() == tokens(string@, '@').len() && forall|k: int|
            0 <= k < v@.len() ==> #[trigger] v@[k] == first_user(
                available_users@,
                lower_of(tokens(string@, '@')[k]),
                0,
            ),
        r matches Err(e) ==> e matches TicketError::UnknownUser(n) && exists|k: int|
            0 <= k < tokens(string@, '@').len() && n@ == lower_of(
                #[trigger] tokens(string@, '@')[k],
            ) && first_user(available_users@, n@, 0) == available_users@.len(),
{
    let s = chars_of(string);
    let names = find_tokens(&s, '@');
    let mut r: Vec<usize> = Vec::new();
    let mut k: usize = 0;
    while k < names.len()
        invariant
            k <= names.len(),
            s@ == string@,
            names@.len() == tokens(string@, '@').len(),
            forall|m: int| 0 <= m < names@.len() ==> #[trigger] names@[m]@ == tokens(string@, '@')[m],
            r@.len() == k,
            forall|m: int|
                0 <= m < k ==> #[trigger] r@[m] == first_user(
                    available_users@,
                    lower_of(tokens(string@, '@')[m]),
                    0,
                ) && r@[m] < available_users@.len(),
        decreases names.len() - k,
    {
        let key = lowercase(&string_of(&names[k]));
        let key_chars = chars_of(key.as_str());
        let u = find_user(available_users, &key_chars);
        if u == available_users.len() {
            assert(names@[k as int]@ == tokens(string@, '@')[k as int]);
            return Err(TicketError::UnknownUser(key));
        }
        r.push(u);
        k = k + 1;
    }
    assert forall|m: int| 0 <= m < tokens(string@, '@').len() implies first_user(
        available_users@,
        lower_of(#[trigger] tokens(string@, '@')[m]),
        0,
    ) < available_users@.len() by {
        assert(r@[m] == first_user(available_users@, lower_of(tokens(string@, '@')[m]), 0));
    }
    Ok(r)
}

/// The id of the importance level of `title`: its first urgency marker
/// (`!\w+`) resolved by containment, else the level flagged default.
pub fn get_importance_level(
    title: &str,
    available_importance_levels: &Vec<(Id, String, bool)>,
) -> (r: Result<Id, TicketError>)
    ensures
        r is Ok <==> importance_of(title@, available_importance_levels@) is Some,
        r matches Ok(id) ==> importance_of(title@, available_importance_levels@) == Some(id),
        r matches Err(e) ==> (if tokens(title@, '!').len() > 0 {
            e == TicketError::UnknownImportance(e->UnknownImportance_0)
                && e->UnknownImportance_0@ == lower_of(tokens(title@, '!')[0])
        } else {
            e == TicketError::NoDefaultImportance
        }),
{
    let s = chars_of(title);
    let marks = find_tokens(&s, '!');
    if marks.len() > 0 {
        let key = lowercase(&string_of(&marks[0]));
        let key_chars = chars_of(key.as_str());
        assert(marks@[0]@ == tokens(title@, '!')[0]);
        let mut i: usize = 0;
        while i < available_importance_levels.len()
            invariant
                i <= available_importance_levels.len(),
                tokens(title@, '!').len() > 0,
                key@ == key_chars@,
                key_chars@ == lower_of(tokens(title@, '!')[0]),
                first_level(available_importance_levels@, key_chars@, 0) == first_level(available_importance_levels@, key_chars@, i as int),
            decreases available_importance_levels.len() - i,
        {
            let n = chars_of(lowercase(&available_importance_levels[i].1).as_str());
            if contains(&n, &key_chars) {
                return Ok(available_importance_levels[i].0);
            }
            i = i + 1;
        }
        Err(TicketError::UnknownImportance(key))
    } else {
        let mut i: usize = 0;
        while i < available_importance_levels.len()
            invariant
                i <= available_importance_levels.len(),
                tokens(title@, '!').len() == 0,
                first_default(available_importance_levels@, 0) == first_default(available_importance_levels@, i as int),
            decreases available_importance_levels.len() - i,
        {
            if available_importance_levels[i].2 {
                return Ok(available_importance_levels[i].0);
            }
            i = i + 1;
        }
        Err(TicketError::NoDefaultImportance)
    }
}

/// Rewrites every mention of `s` from `i` on to `@` and the handle of its
/// user; `None` where a mention matches no user.
pub open spec fn rewrite_from(s: Seq<char>, u: Seq<(Id, String, String)>, i: int) -> Option<
    Seq<char>,
>
    decreases s.len() - i,
    via rewrite_from_decreases
{
    if i >= s.len() || i < 0 {
        Some(seq![])
    } else if starts_token(s, '@', i) {
        let e = word_end(s, i + 1);
        let k = first_user(u, lower_of(s.subrange(i + 1, e)), 0);
        if k < u.len() {
            match rewrite_from(s, u, e) {
                Some(t) => Some(seq!['@'] + u[k].2@ + t),
                None => None,
            }
        } else {
            None
        }
    } else {
        match rewrite_from(s, u, i + 1) {
            Some(t) => Some(seq![s[i]] + t),
            None => None,
        }
    }
}

#[via_fn]
proof fn rewrite_from_decreases(s: Seq<char>, u: Seq<(Id, String, String)>, i: int) {
    if 0 <= i < s.len() && starts_token(s, '@', i) {
        crate::grammar::lemma_word_end_bounds(s, i + 1);
    }
}

/// `s` with every mention rewritten to its user's handle.
pub open spec fn rewrite_mentions(s: Seq<char>, u: Seq<(Id, String, String)>) -> Option<Seq<char>> {
    rewrite_from(s, u, 0)
}

/// Rewrites every mention (`@\w+`) of `s` to `@` and the handle of the
/// first user whose name contains it.
pub fn rewrite_mention_tokens(s: &Vec<char>, available_users: &Vec<(Id, String, String)>) -> (r:
    Result<Vec<char>, TicketError>)
    ensures
        r is Ok <==> rewrite_mentions(s@, available_users@) is Some,
        r matches Ok(t) ==> rewrite_mentions(s@, available_users@) == Some(t@),
        r matches Err(e) ==> e is UnknownUser,
{
    let mut out: Vec<char> = Vec::new();
    let mut i: usize = 0;
    while i < s.len()
        invariant
            i <= s.len(),
            rewrite_mentions(s@, available_users@) == match rewrite_from(
                s@,
                available_users@,
                i as int,
            ) {
                Some(t) => Some(out@ + t),
                None => None::<Seq<char>>,
            },
        decreases s.len() - i,
    {
        if s[i] == '@' && i + 1 < s.len() && crate::text::is_word_char(s[i + 1]) {
            let e = crate::grammar::word_run_end(s, i + 1);
            let name = slice_of(s, i + 1, e);
            let key = lowercase(&string_of(&name));
            let key_chars = chars_of(key.as_str());
            let u = find_user(available_users, &key_chars);
            if u == available_users.len() {
                return Err(TicketError::UnknownUser(key));
            }
            let mut handle = chars_of(available_users[u].2.as_str());
            let ghost before = out@;
            out.push('@');
            out.append(&mut handle);
            proof {
                match rewrite_from(s@, available_users@, e as int) {
                    Some(t) => {
                        assert(before + (seq!['@'] + available_users@[u as int].2@ + t) =~= out@
                            + t);
                    },
                    None => {},
                }
            }
            i = e;
        } else {
            proof {
                match rewrite_from(s@, available_users@, i + 1) {
                    Some(t) => {
                        assert(out@ + (seq![s@[i as int]] + t) =~= out@.push(s@[i as int]) + t);
                    },
                    None => {},
                }
            }
            out.push(s[i]);
            i = i + 1;
        }
    }
    assert(out@ + seq![] =~= out@);
    Ok(out)
}

} // verus!
