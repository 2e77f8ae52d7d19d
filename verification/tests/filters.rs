use cobweb_core::fields::{IssuePriority, IssueStatus, IssueType};
use cobweb_core::filter::IssueFilter;
use cobweb_core::issue::Issue;
use cobweb_core::Error;

#[test]
fn empty_filter_matches_everything() {
    let filter = IssueFilter::new();
    let issue = Issue::new("alice", "anything");
    assert!(filter.matches(&issue));
}

#[test]
fn author_regex_matches_substring_anchor() {
    let mut filter = IssueFilter::new();
    filter.set_autor_match("^al").unwrap();
    let alice = Issue::new("alice", "t");
    let balan = Issue::new("balan", "t");
    assert!(filter.matches(&alice));
    assert!(!filter.matches(&balan));
}

#[test]
fn regex_finds_anywhere_in_field() {
    let mut filter = IssueFilter::new();
    filter.set_title_match("lamp").unwrap();
    let hit = Issue::new("alice", "fix the lamp now");
    let miss = Issue::new("alice", "fix the door");
    assert!(filter.matches(&hit));
    assert!(!filter.matches(&miss));
}

#[test]
fn invalid_regex_is_rejected_and_filter_unchanged() {
    let mut filter = IssueFilter::new();
    match filter.set_autor_match("foo(bar") {
        Err(Error::ParseError(_)) => {}
        other => panic!("expected a parse error, got {:?}", other),
    }
    let anyone = Issue::new("zoe", "t");
    assert!(filter.matches(&anyone));
}

#[test]
fn absent_assignee_never_matches_present_regex() {
    let mut filter = IssueFilter::new();
    filter.set_assigned_to_match(".*").unwrap();
    let unassigned = Issue::new("alice", "t");
    let mut assigned = Issue::new("alice", "t");
    assigned.set_assigned_to(Some("bob".to_string()));
    assert!(!filter.matches(&unassigned));
    assert!(filter.matches(&assigned));
}

#[test]
fn progress_range_bounds_are_inclusive() {
    let mut filter = IssueFilter::new();
    filter.set_progress_from_match(20).unwrap();
    filter.set_progress_to_match(50).unwrap();
    let mut issue = Issue::new("alice", "t");
    for (value, expected) in [(20u8, true), (50, true), (19, false), (51, false), (35, true)] {
        issue.set_progress(value).unwrap();
        assert_eq!(filter.matches(&issue), expected, "progress {}", value);
    }
}

#[test]
fn progress_bounds_are_validated() {
    let mut filter = IssueFilter::new();
    assert!(matches!(filter.set_progress_from_match(101), Err(Error::OutOfRange)));
    assert!(matches!(filter.set_progress_to_match(200), Err(Error::OutOfRange)));
    assert!(filter.set_progress_from_match(100).is_ok());
}

#[test]
fn exact_match_slots() {
    let mut typed = IssueFilter::new();
    typed.set_type_match(IssueType::Feature);
    let mut feature = Issue::new("alice", "t");
    feature.set_typ(IssueType::Feature);
    let bug = Issue::new("alice", "t");
    assert!(typed.matches(&feature));
    assert!(!typed.matches(&bug));

    let mut by_status = IssueFilter::new();
    by_status.set_status_match(IssueStatus::Halted);
    let mut halted = Issue::new("alice", "t");
    halted.set_status(IssueStatus::Halted);
    assert!(by_status.matches(&halted));
    assert!(!by_status.matches(&bug));

    let mut by_priority = IssueFilter::new();
    by_priority.set_priority_match(IssuePriority::Low);
    let mut low = Issue::new("alice", "t");
    low.set_priority(IssuePriority::Low);
    assert!(by_priority.matches(&low));
    assert!(!by_priority.matches(&bug));

    let mut by_hash = IssueFilter::new();
    by_hash.set_hash_match(*bug.hash());
    assert!(by_hash.matches(&bug));
    assert!(!by_hash.matches(&low));
}

#[test]
fn parent_match_requires_a_parent() {
    let parent = Issue::new("alice", "parent");
    let mut child = Issue::new("alice", "child");
    child.set_parent(Some(*parent.hash()));
    let orphan = Issue::new("alice", "orphan");
    let mut filter = IssueFilter::new();
    filter.set_parent_match(*parent.hash());
    assert!(filter.matches(&child));
    assert!(!filter.matches(&orphan));
}

#[test]
fn date_ranges_are_inclusive_and_absent_due_never_matches() {
    let mut issue = Issue::new("alice", "t");
    issue.set_start_date(1000);
    let mut filter = IssueFilter::new();
    filter.set_start_date_from_match(1000);
    filter.set_start_date_to_match(1000);
    assert!(filter.matches(&issue));
    issue.set_start_date(1001);
    assert!(!filter.matches(&issue));

    let mut due_filter = IssueFilter::new();
    due_filter.set_due_date_from_match(5);
    assert!(!due_filter.matches(&issue));
    issue.set_due_date(Some(5));
    assert!(due_filter.matches(&issue));
    issue.set_due_date(Some(4));
    assert!(!due_filter.matches(&issue));
}

#[test]
fn select_keeps_order_and_narrowing_never_grows() {
    let mut a = Issue::new("alice", "red one");
    a.set_progress(10).unwrap();
    let mut b = Issue::new("bob", "red two");
    b.set_progress(30).unwrap();
    let mut c = Issue::new("alice", "blue one");
    c.set_progress(30).unwrap();
    let issues = vec![a.clone(), b.clone(), c.clone()];

    let mut wide = IssueFilter::new();
    wide.set_title_match("red").unwrap();
    let selected = wide.select(&issues);
    assert_eq!(selected.len(), 2);
    assert!(selected[0].1.hash().same(a.hash()));
    assert!(selected[1].1.hash().same(b.hash()));
    assert!(selected[0].0.same(a.hash()));

    let mut narrow = IssueFilter::new();
    narrow.set_title_match("red").unwrap();
    narrow.set_autor_match("alice").unwrap();
    let narrowed = narrow.select(&issues);
    assert!(narrowed.len() <= selected.len());
    for (hash, _) in &narrowed {
        assert!(selected.iter().any(|(h, _)| h.same(hash)));
    }
}
