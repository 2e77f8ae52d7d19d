use cobweb_core::filter::IssueFilter;
use cobweb_core::handler::IssuesHandler;
use cobweb_core::issue::Issue;
use cobweb_core::storage::{Config, IssueStorage};
use cobweb_core::Error;

#[test]
fn insert_is_idempotent() {
    let mut handler = IssuesHandler::new();
    let issue = Issue::new("alice", "once");
    handler.insert_issue(issue.clone());
    handler.insert_issue(issue.clone());
    let all = handler.issues_filtered(&IssueFilter::new());
    assert_eq!(all.len(), 1);
    assert!(all[0].0.same(issue.hash()));
}

#[test]
fn insert_replaces_by_hash() {
    let mut handler = IssuesHandler::new();
    let mut issue = Issue::new("alice", "before");
    handler.insert_issue(issue.clone());
    issue.set_title("after".to_string());
    handler.insert_issue(issue.clone());
    let held = handler.issue(issue.hash()).unwrap();
    assert_eq!(held.title(), "after");
    assert_eq!(handler.issues_filtered(&IssueFilter::new()).len(), 1);
}

#[test]
fn lookup_misses_unknown_hash() {
    let handler = IssuesHandler::new();
    let ghostly = Issue::new("alice", "never inserted");
    assert!(handler.issue(ghostly.hash()).is_none());
}

#[test]
fn write_then_read_recovers_every_field() {
    let mut handler = IssuesHandler::new();
    let mut one = Issue::new("alice", "first\nissue");
    one.set_description(Some("d1".to_string()));
    one.set_progress(7).unwrap();
    let two = Issue::new("bob", "second");
    handler.insert_issue(one.clone());
    handler.insert_issue(two.clone());

    let mut storage = IssueStorage::init("/repo", false).unwrap();
    handler.write_issues(&mut storage).unwrap();

    let mut reloaded = IssuesHandler::new();
    reloaded.read_issues(&storage).unwrap();
    let back = reloaded.issue(one.hash()).unwrap();
    assert_eq!(back.title(), one.title());
    assert_eq!(back.description(), one.description());
    assert_eq!(back.author(), "alice");
    assert_eq!(back.progress(), 7);
    assert_eq!(back.creation_date(), one.creation_date());
    let other = reloaded.issue(two.hash()).unwrap();
    assert_eq!(other.title(), "second");
    assert_eq!(reloaded.issues_filtered(&IssueFilter::new()).len(), 2);
}

#[test]
fn read_is_all_or_nothing() {
    let mut storage = IssueStorage::init("/repo", false).unwrap();
    let good = Issue::new("alice", "good");
    let mut handler = IssuesHandler::new();
    handler.insert_issue(good.clone());
    handler.write_issues(&mut storage).unwrap();
    let rotten = Issue::new("alice", "rotten");
    storage
        .add_record(rotten.hash().to_text().as_str(), "garbage".to_string())
        .unwrap();

    let mut reloaded = IssuesHandler::new();
    reloaded.insert_issue(Issue::new("carol", "kept on failure"));
    assert!(reloaded.read_issues(&storage).is_err());
    assert_eq!(reloaded.issues_filtered(&IssueFilter::new()).len(), 1);
}

#[test]
fn dependency_closure_is_parent_before_child() {
    let a = Issue::new("alice", "a");
    let mut b = Issue::new("alice", "b");
    b.set_parent(Some(*a.hash()));
    let mut c = Issue::new("alice", "c");
    c.set_parent(Some(*b.hash()));
    let unrelated = Issue::new("alice", "elsewhere");

    let mut handler = IssuesHandler::new();
    handler.insert_issue(unrelated.clone());
    handler.insert_issue(a.clone());
    handler.insert_issue(b.clone());
    handler.insert_issue(c.clone());

    let closure = handler.find_dependend_issues(a.hash());
    assert_eq!(closure.len(), 3);
    assert!(closure[0].same(a.hash()));
    assert!(closure[1].same(b.hash()));
    assert!(closure[2].same(c.hash()));

    let deletion: Vec<_> = closure.iter().rev().collect();
    assert!(deletion[0].same(c.hash()));
    assert!(deletion[1].same(b.hash()));
    assert!(deletion[2].same(a.hash()));
}

#[test]
fn dependency_closure_survives_a_cycle() {
    let mut a = Issue::new("alice", "a");
    let mut b = Issue::new("alice", "b");
    b.set_parent(Some(*a.hash()));
    a.set_parent(Some(*b.hash()));
    let mut handler = IssuesHandler::new();
    handler.insert_issue(a.clone());
    handler.insert_issue(b.clone());
    let closure = handler.find_dependend_issues(a.hash());
    assert_eq!(closure.len(), 2);
    assert!(closure[0].same(a.hash()));
    assert!(closure[1].same(b.hash()));
}

#[test]
fn init_twice_fails_with_already_exists() {
    let first = IssueStorage::init("/somewhere", false);
    assert!(first.is_ok());
    match IssueStorage::init("/somewhere", true) {
        Err(e) => assert!(matches!(e, Error::AlreadyExists)),
        Ok(_) => panic!("expected already exists"),
    }
}

#[test]
fn discovery_finds_nearest_marked_ancestor() {
    let chain = vec![
        "/a/b/c".to_string(),
        "/a/b".to_string(),
        "/a".to_string(),
        "/".to_string(),
    ];
    let flags = vec![false, false, true, false];
    let storage = IssueStorage::find_from_path(&chain, &flags).unwrap();
    assert_eq!(storage.root(), "/a");

    let from_root = vec!["/a".to_string(), "/".to_string()];
    let root_flags = vec![true, false];
    let again = IssueStorage::find_from_path(&from_root, &root_flags).unwrap();
    assert_eq!(again.root(), storage.root());
}

#[test]
fn discovery_outside_any_repository_fails() {
    let chain = vec!["/x/y".to_string(), "/x".to_string(), "/".to_string()];
    let flags = vec![false, false, false];
    match IssueStorage::find_from_path(&chain, &flags) {
        Err(e) => assert!(matches!(e, Error::NotFound)),
        Ok(_) => panic!("expected not found"),
    }
}

#[test]
fn storage_records_exist_and_remove_once() {
    let mut storage = IssueStorage::init("/repo", false).unwrap();
    let issue = Issue::new("alice", "kept");
    let mut handler = IssuesHandler::new();
    handler.insert_issue(issue.clone());
    handler.write_issues(&mut storage).unwrap();

    assert!(storage.issue_exists(issue.hash()));
    assert!(storage.remove_issue(issue.hash()).is_ok());
    assert!(!storage.issue_exists(issue.hash()));
    match storage.remove_issue(issue.hash()) {
        Err(Error::NotFound) => {}
        other => panic!("expected not found, got {:?}", other),
    }
}

#[test]
fn record_file_names_are_hash_texts() {
    let issue = Issue::new("alice", "named");
    let name = IssueStorage::record_file_name(issue.hash());
    assert_eq!(name, issue.hash().to_text());
    let mut storage = IssueStorage::init("/repo", false).unwrap();
    assert!(storage.add_record("not a hash", "text".to_string()).is_err());
    assert!(storage
        .add_record(name.as_str(), "whatever".to_string())
        .is_ok());
    assert!(storage.issue_exists(issue.hash()));
}

#[test]
fn config_round_trips() {
    let with_user = Config::new(Some("alice".to_string()));
    let text = with_user.to_text();
    let back = Config::parse(text.as_str()).unwrap();
    assert_eq!(back.user().as_deref(), Some("alice"));

    let without = Config::new(None);
    let back2 = Config::parse(without.to_text().as_str()).unwrap();
    assert!(back2.user().is_none());

    assert!(Config::parse("").is_err());
    assert!(Config::parse("2junk").is_err());

    let mut storage = IssueStorage::init("/repo", false).unwrap();
    storage.load_config(text.as_str()).unwrap();
    assert_eq!(storage.config().user().as_deref(), Some("alice"));
}
