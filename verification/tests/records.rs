use cobweb_core::fields::{IssuePriority, IssueStatus, IssueType};
use cobweb_core::issue::Issue;
use cobweb_core::record::{issue_record_text, parse_issue_record};
use cobweb_core::Error;

#[test]
fn new_issue_has_defaults() {
    let issue = Issue::new("alice", "fix the lamp");
    assert_eq!(issue.author(), "alice");
    assert_eq!(issue.title(), "fix the lamp");
    assert!(issue.description().is_none());
    assert_eq!(*issue.typ(), IssueType::Bug);
    assert!(issue.parent().is_none());
    assert!(issue.assigned_to().is_none());
    assert_eq!(*issue.priority(), IssuePriority::Medium);
    assert_eq!(*issue.status(), IssueStatus::Open);
    assert_eq!(issue.progress(), 0);
    assert_eq!(issue.start_date(), issue.creation_date());
    assert!(issue.due_date().is_none());
}

#[test]
fn fresh_hashes_differ() {
    let a = Issue::new("alice", "one");
    let b = Issue::new("alice", "two");
    assert!(!a.hash().same(b.hash()));
}

#[test]
fn set_progress_bounds() {
    let mut issue = Issue::new("alice", "progress");
    assert!(issue.set_progress(0).is_ok());
    assert_eq!(issue.progress(), 0);
    assert!(issue.set_progress(100).is_ok());
    assert_eq!(issue.progress(), 100);
    match issue.set_progress(101) {
        Err(Error::OutOfRange) => {}
        other => panic!("expected out of range, got {:?}", other),
    }
    assert_eq!(issue.progress(), 100);
}

#[test]
fn record_round_trips_every_field() {
    let mut issue = Issue::new("alice", "a title\nwith a newline");
    issue.set_description(Some("long text: 12:34 framed".to_string()));
    issue.set_typ(IssueType::Improvement);
    issue.set_priority(IssuePriority::High);
    issue.set_status(IssueStatus::Review);
    issue.set_assigned_to(Some("bob".to_string()));
    issue.set_progress(42).unwrap();
    issue.set_start_date(-1234567);
    issue.set_due_date(Some(1700000000));
    let parent = Issue::new("alice", "the parent");
    issue.set_parent(Some(*parent.hash()));

    let text = issue_record_text(&issue);
    let back = parse_issue_record(text.as_str()).unwrap();
    assert!(back.hash().same(issue.hash()));
    assert_eq!(back.title(), issue.title());
    assert_eq!(back.description(), issue.description());
    assert_eq!(*back.typ(), *back.typ());
    assert!(back.parent().as_ref().unwrap().same(parent.hash()));
    assert_eq!(back.author(), issue.author());
    assert_eq!(back.assigned_to(), issue.assigned_to());
    assert_eq!(*back.priority(), IssuePriority::High);
    assert_eq!(*back.status(), IssueStatus::Review);
    assert_eq!(back.progress(), 42);
    assert_eq!(back.creation_date(), issue.creation_date());
    assert_eq!(back.start_date(), -1234567);
    assert_eq!(*back.due_date(), Some(1700000000));
}

#[test]
fn record_round_trips_minimal_issue() {
    let issue = Issue::new("", "t");
    let text = issue_record_text(&issue);
    let back = parse_issue_record(text.as_str()).unwrap();
    assert!(back.hash().same(issue.hash()));
    assert_eq!(back.title(), "t");
    assert_eq!(back.author(), "");
    assert!(back.description().is_none());
    assert!(back.due_date().is_none());
}

#[test]
fn corrupt_records_are_rejected() {
    assert!(parse_issue_record("").is_err());
    assert!(parse_issue_record("not a record").is_err());
    let issue = Issue::new("alice", "whole");
    let text = issue_record_text(&issue);
    let truncated = &text[..text.len() - 1];
    assert!(parse_issue_record(truncated).is_err());
    let mut extended = text.clone();
    extended.push('0');
    assert!(parse_issue_record(extended.as_str()).is_err());
}

#[test]
fn edits_change_only_their_field() {
    let mut issue = Issue::new("alice", "before");
    let hash = *issue.hash();
    let created = issue.creation_date();
    issue.set_title("after".to_string());
    issue.set_author("carol".to_string());
    assert!(issue.hash().same(&hash));
    assert_eq!(issue.creation_date(), created);
    assert_eq!(issue.title(), "after");
    assert_eq!(issue.author(), "carol");
    assert_eq!(*issue.status(), IssueStatus::Open);
}
