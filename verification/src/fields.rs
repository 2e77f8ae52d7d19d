//! The closed classification fields of an issue.
//!
//! Each enum parses from and renders to a fixed set of lowercase texts;
//! unknown text is rejected with a `ParseError` carrying the text, never
//! mapped to a fallback variant.

use vstd::prelude::*;

use crate::Error;

verus! {

/// What kind of work an issue tracks.
#[derive(Clone, Copy, Debug, PartialEq, Eq, Structural)]
pub enum IssueType {
    Bug,
    Feature,
    Improvement,
    Task,
}

/// How urgent an issue is.
#[derive(Clone, Copy, Debug, PartialEq, Eq, Structural)]
pub enum IssuePriority {
    Low,
    Medium,
    High,
}

/// Where an issue stands in its lifecycle.
#[derive(Clone, Copy, Debug, PartialEq, Eq, Structural)]
pub enum IssueStatus {
    Open,
    Closed,
    InProgress,
    Review,
    Rejected,
    Halted,
}

/// Whether two strings hold the same characters.
pub fn str_eq(a: &str, b: &str) -> (r: bool)
    ensures
        r == (a@ == b@),
{
    let sa = a.to_owned();
    let sb = b.to_owned();
    sa.eq(&sb)
}

/// The canonical text of an issue type.
pub open spec fn type_text(t: IssueType) -> Seq<char> {
    match t {
        IssueType::Bug => "bug"@,
        IssueType::Feature => "feature"@,
        IssueType::Improvement => "improvement"@,
        IssueType::Task => "task"@,
    }
}

/// The canonical text of a priority.
pub open spec fn priority_text(p: IssuePriority) -> Seq<char> {
    match p {
        IssuePriority::Low => "low"@,
        IssuePriority::Medium => "medium"@,
        IssuePriority::High => "high"@,
    }
}

/// The canonical text of a status.
pub open spec fn status_text(s: IssueStatus) -> Seq<char> {
    match s {
        IssueStatus::Open => "open"@,
        IssueStatus::Closed => "closed"@,
        IssueStatus::InProgress => "in progress"@,
        IssueStatus::Review => "review"@,
        IssueStatus::Rejected => "rejected"@,
        IssueStatus::Halted => "halted"@,
    }
}

impl IssueType {
    /// Parses the canonical text of a type; any other text is rejected.
    pub fn parse(s: &str) -> (r: Result<IssueType, Error>)
        ensures
            r is Ok <==> (exists|t: IssueType| s@ == type_text(t)),
            r is Ok ==> s@ == type_text(r->Ok_0),
            r is Err ==> (r->Err_0 matches Error::ParseError(t) && t@ == s@),
    {
        if str_eq(s, "bug") {
            proof { assert(s@ == type_text(IssueType::Bug)); } Ok(IssueType::Bug)
        } else if str_eq(s, "feature") {
            proof { assert(s@ == type_text(IssueType::Feature)); } Ok(IssueType::Feature)
        } else if str_eq(s, "improvement") {
            proof { assert(s@ == type_text(IssueType::Improvement)); } Ok(IssueType::Improvement)
        } else if str_eq(s, "task") {
            proof { assert(s@ == type_text(IssueType::Task)); } Ok(IssueType::Task)
        } else {
            proof {
                assert forall|t: IssueType| s@ != type_text(t) by {}
            }
            Err(Error::ParseError(s.to_owned()))
        }
    }

    /// The canonical text of this type.
    pub fn to_text(&self) -> (r: String)
        ensures
            r@ == type_text(*self),
    {
        match self {
            IssueType::Bug => "bug".to_owned(),
            IssueType::Feature => "feature".to_owned(),
            IssueType::Improvement => "improvement".to_owned(),
            IssueType::Task => "task".to_owned(),
        }
    }
}

impl IssuePriority {
    /// Parses the canonical text of a priority; any other text is rejected.
    pub fn parse(s: &str) -> (r: Result<IssuePriority, Error>)
        ensures
            r is Ok <==> (exists|p: IssuePriority| s@ == priority_text(p)),
            r is Ok ==> s@ == priority_text(r->Ok_0),
            r is Err ==> (r->Err_0 matches Error::ParseError(t) && t@ == s@),
    {
        if str_eq(s, "low") {
            proof { assert(s@ == priority_text(IssuePriority::Low)); } Ok(IssuePriority::Low)
        } else if str_eq(s, "medium") {
            proof { assert(s@ == priority_text(IssuePriority::Medium)); } Ok(IssuePriority::Medium)
        } else if str_eq(s, "high") {
            proof { assert(s@ == priority_text(IssuePriority::High)); } Ok(IssuePriority::High)
        } else {
            proof {
                assert forall|p: IssuePriority| s@ != priority_text(p) by {}
            }
            Err(Error::ParseError(s.to_owned()))
        }
    }

    /// The canonical text of this priority.
    pub fn to_text(&self) -> (r: String)
        ensures
            r@ == priority_text(*self),
    {
        match self {
            IssuePriority::Low => "low".to_owned(),
            IssuePriority::Medium => "medium".to_owned(),
            IssuePriority::High => "high".to_owned(),
        }
    }
}

impl IssueStatus {
    /// Parses the canonical text of a status; any other text is rejected.
    pub fn parse(s: &str) -> (r: Result<IssueStatus, Error>)
        ensures
            r is Ok <==> (exists|st: IssueStatus| s@ == status_text(st)),
            r is Ok ==> s@ == status_text(r->Ok_0),
            r is Err ==> (r->Err_0 matches Error::ParseError(t) && t@ == s@),
    {
        if str_eq(s, "open") {
            proof { assert(s@ == status_text(IssueStatus::Open)); } Ok(IssueStatus::Open)
        } else if str_eq(s, "closed") {
            proof { assert(s@ == status_text(IssueStatus::Closed)); } Ok(IssueStatus::Closed)
        } else if str_eq(s, "in progress") {
            proof { assert(s@ == status_text(IssueStatus::InProgress)); } Ok(IssueStatus::InProgress)
        } else if str_eq(s, "review") {
            proof { assert(s@ == status_text(IssueStatus::Review)); } Ok(IssueStatus::Review)
        } else if str_eq(s, "rejected") {
            proof { assert(s@ == status_text(IssueStatus::Rejected)); } Ok(IssueStatus::Rejected)
        } else if str_eq(s, "halted") {
            proof { assert(s@ == status_text(IssueStatus::Halted)); } Ok(IssueStatus::Halted)
        } else {
            proof {
                assert forall|st: IssueStatus| s@ != status_text(st) by {}
            }
            Err(Error::ParseError(s.to_owned()))
        }
    }

    /// The canonical text of this status.
    pub fn to_text(&self) -> (r: String)
        ensures
            r@ == status_text(*self),
    {
        match self {
            IssueStatus::Open => "open".to_owned(),
            IssueStatus::Closed => "closed".to_owned(),
            IssueStatus::InProgress => "in progress".to_owned(),
            IssueStatus::Review => "review".to_owned(),
            IssueStatus::Rejected => "rejected".to_owned(),
            IssueStatus::Halted => "halted".to_owned(),
        }
    }
}

/// Law: the canonical texts of the classification enums are pairwise
/// distinct within each enum, so parsing a rendered value gives the value
/// back and never another one.
pub proof fn lemma_field_texts_distinct()
    ensures
        forall|a: IssueType, b: IssueType| type_text(a) == type_text(b) ==> a == b,
        forall|a: IssuePriority, b: IssuePriority| priority_text(a) == priority_text(b) ==> a == b,
        forall|a: IssueStatus, b: IssueStatus| status_text(a) == status_text(b) ==> a == b,
{
    assert forall|a: IssueType, b: IssueType| type_text(a) == type_text(b) implies a == b by {
        reveal_strlit("bug");
        reveal_strlit("feature");
        reveal_strlit("improvement");
        reveal_strlit("task");
        assert("bug"@.len() == 3);
        assert("feature"@.len() == 7);
        assert("improvement"@.len() == 11);
        assert("task"@.len() == 4);
    }
    assert forall|a: IssuePriority, b: IssuePriority| priority_text(a) == priority_text(b)
        implies a == b by {
        reveal_strlit("low");
        reveal_strlit("medium");
        reveal_strlit("high");
        assert("low"@.len() == 3);
        assert("medium"@.len() == 6);
        assert("high"@.len() == 4);
    }
    assert forall|a: IssueStatus, b: IssueStatus| status_text(a) == status_text(b)
        implies a == b by {
        reveal_strlit("open");
        reveal_strlit("closed");
        reveal_strlit("in progress");
        reveal_strlit("review");
        reveal_strlit("rejected");
        reveal_strlit("halted");
        assert("open"@.len() == 4);
        assert("closed"@.len() == 6);
        assert("in progress"@.len() == 11);
        assert("review"@.len() == 6);
        assert("rejected"@.len() == 8);
        assert("halted"@.len() == 6);
        assert("closed"@[0] == 'c');
        assert("review"@[0] == 'r');
        assert("halted"@[0] == 'h');
    }
}

} // verus!
