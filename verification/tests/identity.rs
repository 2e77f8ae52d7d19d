use cobweb_core::fields::{IssuePriority, IssueStatus, IssueType};
use cobweb_core::ids::IssueHash;
use cobweb_core::Error;

#[test]
fn hash_text_round_trips() {
    let text = "00a1b2c3d4e5f607";
    let hash = IssueHash::parse(text).unwrap();
    assert_eq!(hash.to_text(), text);
}

#[test]
fn hash_all_digits_round_trips() {
    let text = "0123456789abcdef";
    let hash = IssueHash::parse(text).unwrap();
    assert_eq!(hash.to_text(), text);
}

#[test]
fn hash_rejects_wrong_length() {
    match IssueHash::parse("0123") {
        Err(Error::ParseError(t)) => assert_eq!(t, "0123"),
        other => panic!("expected a parse error, got {:?}", other),
    }
}

#[test]
fn hash_rejects_bad_characters() {
    assert!(IssueHash::parse("0123456789abcdeg").is_err());
    assert!(IssueHash::parse("0123456789ABCDEF").is_err());
    assert!(IssueHash::parse("").is_err());
}

#[test]
fn hash_equality_follows_text() {
    let a = IssueHash::parse("00000000000000ff").unwrap();
    let b = IssueHash::parse("00000000000000ff").unwrap();
    let c = IssueHash::parse("00000000000000fe").unwrap();
    assert!(a.same(&b));
    assert!(!a.same(&c));
    assert_eq!(a, b);
    assert_ne!(a, c);
}

#[test]
fn type_texts_round_trip() {
    for (typ, text) in [
        (IssueType::Bug, "bug"),
        (IssueType::Feature, "feature"),
        (IssueType::Improvement, "improvement"),
        (IssueType::Task, "task"),
    ] {
        assert_eq!(typ.to_text(), text);
        assert_eq!(IssueType::parse(text).unwrap(), typ);
    }
    assert!(IssueType::parse("defect").is_err());
}

#[test]
fn priority_texts_round_trip() {
    for (p, text) in [
        (IssuePriority::Low, "low"),
        (IssuePriority::Medium, "medium"),
        (IssuePriority::High, "high"),
    ] {
        assert_eq!(p.to_text(), text);
        assert_eq!(IssuePriority::parse(text).unwrap(), p);
    }
    assert!(IssuePriority::parse("urgent").is_err());
}

#[test]
fn status_texts_round_trip() {
    for (s, text) in [
        (IssueStatus::Open, "open"),
        (IssueStatus::Closed, "closed"),
        (IssueStatus::InProgress, "in progress"),
        (IssueStatus::Review, "review"),
        (IssueStatus::Rejected, "rejected"),
        (IssueStatus::Halted, "halted"),
    ] {
        assert_eq!(s.to_text(), text);
        assert_eq!(IssueStatus::parse(text).unwrap(), s);
    }
    assert!(IssueStatus::parse("done").is_err());
}
