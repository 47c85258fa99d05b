use ticket_batch::catalog::{get_importance_level, match_mentions, match_tags_and_categories, Tag, TicketError};
use ticket_batch::document::check_document;
use ticket_batch::reconcile::unmatched_tags;
use ticket_batch::ticket::{build_ticket, build_tickets, clean_title, get_estimate, Catalogs};

fn s(x: &str) -> String {
    x.to_string()
}

fn catalogs() -> Catalogs {
    Catalogs {
        categories: vec![(10, s("Bugs")), (11, s("feature"))],
        tags: vec![(20, s("ui")), (21, s("bugs"))],
        users: vec![(1, s("Alice"), s("alice1")), (3, s("Bob"), s("bob92"))],
        importance_levels: vec![(30, s("High"), false), (31, s("Normal"), true)],
    }
}

fn hours(seconds: u64) -> f64 {
    seconds as f64 / 3600.0
}

#[test]
fn estimate_days_hours_minutes() {
    let e = get_estimate("Task ~1d2h30m").unwrap();
    assert_eq!(e, 37800);
    assert_eq!(hours(e), 10.5);
}

#[test]
fn estimate_minutes_only() {
    let e = get_estimate("~45m").unwrap();
    assert_eq!(hours(e), 0.75);
}

#[test]
fn estimate_absent_is_zero() {
    assert_eq!(get_estimate("no estimate here"), Some(0));
}

#[test]
fn estimate_seconds_and_first_token_only() {
    assert_eq!(get_estimate("~1h30s and ~2d"), Some(3630));
}

#[test]
fn estimate_out_of_order_groups_stop() {
    // `h` before `d` is not in order: only the hours group matches.
    assert_eq!(get_estimate("~2h1d"), Some(7200));
}

#[test]
fn estimate_too_large() {
    assert_eq!(get_estimate("~99999999999999999999999h"), None);
}

#[test]
fn category_resolved_case_insensitively() {
    let c = catalogs();
    let t = build_ticket("Crash on start #Bugs", None, &c).unwrap();
    assert_eq!(t.category_id, 10);
    assert_eq!(t.title, "Crash on start");
    assert!(!t.title.contains("#Bugs"));
}

#[test]
fn category_wins_over_tag_of_same_name() {
    let c = catalogs();
    let r = match_tags_and_categories("x #bugs #ui", &c.categories, &c.tags);
    assert_eq!(r, vec![Tag::Category(10, s("Bugs")), Tag::Tag(20, s("ui"))]);
}

#[test]
fn unmatched_hash_tag_is_lower_cased() {
    let c = catalogs();
    let r = match_tags_and_categories("#NewThing", &c.categories, &c.tags);
    assert_eq!(r, vec![Tag::UnaddedTag(s("newthing"))]);
}

#[test]
fn hash_tag_takes_unicode_word_characters() {
    let c = Catalogs {
        categories: vec![(5, s("café"))],
        tags: vec![],
        users: vec![],
        importance_levels: vec![(1, s("low"), true)],
    };
    let t = build_ticket("Menu #Café!", None, &c).unwrap();
    assert_eq!(t.category_id, 5);
    assert_eq!(t.title, "Menu !");
}

#[test]
fn sub_tasks_extracted_in_order() {
    let c = catalogs();
    let t = build_ticket("T #bugs\n===\nIntro\n[] Buy milk\n[]Feed cat\nOutro", None, &c).unwrap();
    assert_eq!(t.sub_tasks, vec![s("Buy milk"), s("Feed cat")]);
    assert!(!t.description.contains("Buy milk"));
    assert!(!t.description.contains("Feed cat"));
    assert_eq!(t.description, "Intro\n\n\nOutro");
}

#[test]
fn mention_rewritten_to_handle() {
    let c = Catalogs {
        categories: vec![(1, s("work"))],
        tags: vec![],
        users: vec![(3, s("Bob"), s("bob92"))],
        importance_levels: vec![(1, s("low"), true)],
    };
    let t = build_ticket("T #work\n===\nping @bo", None, &c).unwrap();
    assert_eq!(t.description, "ping @bob92");
}

#[test]
fn cleanup_is_idempotent_on_examples() {
    for title in ["Fix  bug #bugs @alice ~2h !high", "  a\tb  ", "#x", "plain title", "~~ x !y @z"] {
        let once = clean_title(title);
        assert_eq!(clean_title(&once), once);
    }
}

#[test]
fn cleanup_removes_annotations() {
    assert_eq!(clean_title("Fix  bug #bugs @alice ~2h !high"), "Fix bug");
}

#[test]
fn unmatched_tags_sorted_and_deduplicated() {
    let r = unmatched_tags("#Foo #bar\n---\n#BAR #baz", &vec![], &vec![]).unwrap();
    assert_eq!(r, vec![s("bar"), s("baz"), s("foo")]);
}

#[test]
fn unmatched_tags_skip_known_and_descriptions() {
    let c = catalogs();
    let r = unmatched_tags("#bugs #zeta\n===\n#inbody\n---\n#alpha #UI", &c.categories, &c.tags).unwrap();
    assert_eq!(r, vec![s("alpha"), s("zeta")]);
}

#[test]
fn unmatched_tags_reject_malformed() {
    let r = unmatched_tags("a\n===\nb\n===\nc", &vec![], &vec![]);
    assert_eq!(r, Err(TicketError::MalformedBlock));
}

#[test]
fn end_to_end_two_tickets() {
    let c = Catalogs {
        categories: vec![(100, s("bugs")), (101, s("feature"))],
        tags: vec![],
        users: vec![(7, s("alice"), s("alice1"))],
        importance_levels: vec![(200, s("high"), false), (201, s("normal"), true)],
    };
    let doc = "Fix bug #bugs @alice ~2h !high\n===\nDetails here\n[] write test\n---\nSecond ticket #feature";
    let v = build_tickets(doc, None, &c).unwrap();
    assert_eq!(v.len(), 2);
    assert_eq!(v[0].title, "Fix bug");
    assert_eq!(v[0].category_id, 100);
    assert_eq!(v[0].assigned_user_ids, vec![7]);
    assert_eq!(hours(v[0].estimated_seconds), 2.0);
    assert_eq!(v[0].importance_level_id, 200);
    assert_eq!(v[0].sub_tasks, vec![s("write test")]);
    assert_eq!(v[0].description, "Details here");
    assert_eq!(v[1].title, "Second ticket");
    assert_eq!(v[1].category_id, 101);
    assert_eq!(v[1].importance_level_id, 201);
    assert_eq!(v[1].estimated_seconds, 0);
    assert!(v[1].sub_tasks.is_empty());
}

#[test]
fn empty_and_trailing_blocks_dropped() {
    let c = catalogs();
    let v = build_tickets("---\nA #bugs\n---\n   \n---", None, &c).unwrap();
    assert_eq!(v.len(), 1);
    assert_eq!(v[0].title, "A");
    assert!(build_tickets("", None, &c).unwrap().is_empty());
}

#[test]
fn default_category_appended() {
    let c = catalogs();
    let t = build_ticket("No category here", Some("feature"), &c).unwrap();
    assert_eq!(t.category_id, 11);
    assert_eq!(t.title, "No category here");
}

#[test]
fn tag_ids_collected() {
    let c = catalogs();
    let t = build_ticket("x #UI #feature #nope", None, &c).unwrap();
    assert_eq!(t.tag_ids, vec![20]);
    assert_eq!(t.category_id, 11);
}

#[test]
fn error_malformed_block() {
    let c = catalogs();
    assert_eq!(build_ticket("a #bugs\n===\nb\n===\nc", None, &c), Err(TicketError::MalformedBlock));
}

#[test]
fn error_unknown_user_in_title() {
    let c = catalogs();
    assert_eq!(build_ticket("a #bugs @zed", None, &c), Err(TicketError::UnknownUser(s("zed"))));
}

#[test]
fn error_unknown_user_in_description() {
    let c = catalogs();
    assert_eq!(build_ticket("a #bugs\n===\nask @Zed", None, &c), Err(TicketError::UnknownUser(s("zed"))));
}

#[test]
fn error_unknown_importance() {
    let c = catalogs();
    assert_eq!(build_ticket("a #bugs !urgent", None, &c), Err(TicketError::UnknownImportance(s("urgent"))));
}

#[test]
fn error_no_default_importance() {
    let mut c = catalogs();
    c.importance_levels = vec![(30, s("High"), false)];
    assert_eq!(build_ticket("a #bugs", None, &c), Err(TicketError::NoDefaultImportance));
}

#[test]
fn error_no_category() {
    let c = catalogs();
    assert_eq!(build_ticket("a #ui", None, &c), Err(TicketError::NoCategory));
}

#[test]
fn error_estimate_too_large() {
    let c = catalogs();
    assert_eq!(build_ticket("a #bugs ~99999999999999999999d", None, &c), Err(TicketError::EstimateTooLarge));
}

#[test]
fn mentions_match_by_containment() {
    let c = catalogs();
    assert_eq!(match_mentions("@LIC and @ob", &c.users), Ok(vec![0, 1]));
    assert_eq!(match_mentions("@nobody", &c.users), Err(TicketError::UnknownUser(s("nobody"))));
}

#[test]
fn importance_by_marker_or_default() {
    let c = catalogs();
    assert_eq!(get_importance_level("x !HIG", &c.importance_levels), Ok(30));
    assert_eq!(get_importance_level("x", &c.importance_levels), Ok(31));
}

#[test]
fn cleanup_strips_estimate_before_hash_tag() {
    let once = clean_title("a #~x b");
    assert_eq!(once, "a b");
    assert_eq!(clean_title(&once), once);
    assert_eq!(clean_title("#~x"), "");
    let c = catalogs();
    assert!(match_tags_and_categories(&clean_title("#~x"), &c.categories, &c.tags).is_empty());
}

#[test]
fn cleanup_strips_estimate_before_mention() {
    let once = clean_title("@~x task");
    assert_eq!(once, "task");
    assert_eq!(clean_title(&once), once);
    assert_eq!(match_mentions(&once, &vec![]), Ok(vec![]));
}

#[test]
fn cleaned_title_has_no_estimate_or_urgency() {
    let once = clean_title("Ship it ~1d !high #bugs");
    assert_eq!(once, "Ship it");
    assert_eq!(get_estimate(&once), Some(0));
    let c = catalogs();
    assert_eq!(get_importance_level(&once, &c.importance_levels), Ok(31));
}

#[test]
fn check_document_flags_malformed_block() {
    assert_eq!(check_document("a\n===\nb\n---\nc\n===\nd"), Ok(()));
    assert_eq!(check_document("a\n---\nb\n===\nc\n===\nd"), Err(TicketError::MalformedBlock));
}
