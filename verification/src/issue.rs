//! One tracked unit of work.
//!
//! An issue carries identity, classification, scheduling and narrative
//! fields.  The hash and the creation date are assigned once at creation
//! and are immutable; every other field has its own mutator.  Mutators
//! only change the in-memory value; persistence is the handler's job.

use vstd::prelude::*;

use crate::fields::{IssuePriority, IssueStatus, IssueType};
use crate::ids::IssueHash;
use crate::Error;

verus! {

/// The mathematical value of an issue: every field, as plain values.
#[verifier::ext_equal]
pub struct IssueView {
    pub hash: u64,
    pub title: Seq<char>,
    pub description: Option<Seq<char>>,
    pub typ: IssueType,
    pub parent: Option<u64>,
    pub author: Seq<char>,
    pub assigned_to: Option<Seq<char>>,
    pub priority: IssuePriority,
    pub status: IssueStatus,
    pub progress: u8,
    pub creation_date: i64,
    pub start_date: i64,
    pub due_date: Option<i64>,
}

impl IssueView {
    /// A well-formed issue has a non-empty title and a progress that does
    /// not exceed one hundred.
    pub open spec fn wf(self) -> bool {
        self.title.len() > 0 && self.progress <= 100
    }
}

/// One tracked unit of work.
#[derive(Debug)]
pub struct Issue {
    hash: IssueHash,
    title: String,
    description: Option<String>,
    typ: IssueType,
    parent: Option<IssueHash>,
    author: String,
    assigned_to: Option<String>,
    priority: IssuePriority,
    status: IssueStatus,
    progress: u8,
    creation_date: i64,
    start_date: i64,
    due_date: Option<i64>,
}

impl View for Issue {
    type V = IssueView;

    closed spec fn view(&self) -> IssueView {
        IssueView {
            hash: self.hash@,
            title: self.title@,
            description: match self.description {
                Some(d) => Some(d@),
                None => None,
            },
            typ: self.typ,
            parent: match self.parent {
                Some(p) => Some(p@),
                None => None,
            },
            author: self.author@,
            assigned_to: match self.assigned_to {
                Some(a) => Some(a@),
                None => None,
            },
            priority: self.priority,
            status: self.status,
            progress: self.progress,
            creation_date: self.creation_date,
            start_date: self.start_date,
            due_date: self.due_date,
        }
    }
}

impl Clone for Issue {
    /// A clone carries exactly the fields of the original.
    fn clone(&self) -> (r: Self)
        ensures
            r@ == self@,
    {
        let r = Issue {
            hash: self.hash,
            title: self.title.clone(),
            description: match &self.description {
                Some(d) => Some(d.clone()),
                None => None,
            },
            typ: self.typ,
            parent: self.parent,
            author: self.author.clone(),
            assigned_to: match &self.assigned_to {
                Some(a) => Some(a.clone()),
                None => None,
            },
            priority: self.priority,
            status: self.status,
            progress: self.progress,
            creation_date: self.creation_date,
            start_date: self.start_date,
            due_date: self.due_date,
        };
        assert(r@ == self@);
        r
    }
}

/// Relies on chrono::Utc::now and chrono::DateTime::timestamp: the current
/// moment as whole seconds since the Unix epoch.  The value depends on the
/// clock, so nothing is promised of it.
#[verifier::external_body]
fn now_timestamp() -> i64 {
    chrono::Utc::now().timestamp()
}

/// Relies on rand::random: a fresh 64-bit value from the thread-local
/// generator.  The value is random, so nothing is promised of it.
#[verifier::external_body]
fn random_u64() -> u64 {
    rand::random::<u64>()
}

/// Folds the characters of a text into a running 64-bit digest.
fn mix_text(mut acc: u64, s: &str) -> u64 {
    let n = s.unicode_len();
    let mut i: usize = 0;
    while i < n
        invariant
            i <= n,
            n == s@.len(),
        decreases n - i,
    {
        let c = s.get_char(i);
        acc = (acc ^ (c as u64)).wrapping_mul(0x100000001b3);
        i = i + 1;
    }
    acc
}

/// Derives a fresh identifier value from the creation-time content plus a
/// random salt.  The hash is never recomputed, so no law constrains it
/// beyond being extremely unlikely to collide within one repository.
fn generate_hash_value(author: &str, title: &str, stamp: i64, salt: u64) -> u64 {
    let mut acc: u64 = 0xcbf29ce484222325;
    acc = mix_text(acc, author);
    acc = mix_text(acc, title);
    acc = (acc ^ (stamp as u64)).wrapping_mul(0x100000001b3);
    acc = (acc ^ salt).wrapping_mul(0x100000001b3);
    acc
}

impl Issue {
    /// A fresh issue: a newly generated hash, creation and start date set
    /// to the present moment, and every other field at its default.
    pub fn new(author: &str, title: &str) -> (r: Issue)
        requires
            title@.len() > 0,
        ensures
            r@.title == title@,
            r@.author == author@,
            r@.description is None,
            r@.typ == IssueType::Bug,
            r@.parent is None,
            r@.assigned_to is None,
            r@.priority == IssuePriority::Medium,
            r@.status == IssueStatus::Open,
            r@.progress == 0,
            r@.start_date == r@.creation_date,
            r@.due_date is None,
            r@.wf(),
    {
        let stamp = now_timestamp();
        let salt = random_u64();
        let value = generate_hash_value(author, title, stamp, salt);
        Issue {
            hash: IssueHash::from_value(value),
            title: title.to_owned(),
            description: None,
            typ: IssueType::Bug,
            parent: None,
            author: author.to_owned(),
            assigned_to: None,
            priority: IssuePriority::Medium,
            status: IssueStatus::Open,
            progress: 0,
            creation_date: stamp,
            start_date: stamp,
            due_date: None,
        }
    }

    /// Rebuilds an issue from already validated parts; the storage layer
    /// uses this when it decodes a persisted record.
    pub(crate) fn from_parts(
        hash: IssueHash,
        title: String,
        description: Option<String>,
        typ: IssueType,
        parent: Option<IssueHash>,
        author: String,
        assigned_to: Option<String>,
        priority: IssuePriority,
        status: IssueStatus,
        progress: u8,
        creation_date: i64,
        start_date: i64,
        due_date: Option<i64>,
    ) -> (r: Issue)
        ensures
            r@ == (IssueView {
                hash: hash@,
                title: title@,
                description: match description {
                    Some(d) => Some(d@),
                    None => None,
                },
                typ,
                parent: match parent {
                    Some(p) => Some(p@),
                    None => None,
                },
                author: author@,
                assigned_to: match assigned_to {
                    Some(a) => Some(a@),
                    None => None,
                },
                priority,
                status,
                progress,
                creation_date,
                start_date,
                due_date,
            }),
    {
        Issue {
            hash,
            title,
            description,
            typ,
            parent,
            author,
            assigned_to,
            priority,
            status,
            progress,
            creation_date,
            start_date,
            due_date,
        }
    }

    /// The immutable identifier of this issue.
    pub fn hash(&self) -> (r: &IssueHash)
        ensures
            r@ == self@.hash,
    {
        &self.hash
    }

    /// The required title.
    pub fn title(&self) -> (r: &String)
        ensures
            r@ == self@.title,
    {
        &self.title
    }

    /// The optional free-form description.
    pub fn description(&self) -> (r: &Option<String>)
        ensures
            (r is Some <==> self@.description is Some),
            r is Some ==> r->0@ == self@.description->0,
    {
        &self.description
    }

    /// The kind of work tracked.
    pub fn typ(&self) -> (r: &IssueType)
        ensures
            *r == self@.typ,
    {
        &self.typ
    }

    /// The optional parent issue.
    pub fn parent(&self) -> (r: &Option<IssueHash>)
        ensures
            (r is Some <==> self@.parent is Some),
            r is Some ==> r->0@ == self@.parent->0,
    {
        &self.parent
    }

    /// Who opened the issue.
    pub fn author(&self) -> (r: &String)
        ensures
            r@ == self@.author,
    {
        &self.author
    }

    /// Who the issue is assigned to, if anyone.
    pub fn assigned_to(&self) -> (r: &Option<String>)
        ensures
            (r is Some <==> self@.assigned_to is Some),
            r is Some ==> r->0@ == self@.assigned_to->0,
    {
        &self.assigned_to
    }

    /// The urgency of the issue.
    pub fn priority(&self) -> (r: &IssuePriority)
        ensures
            *r == self@.priority,
    {
        &self.priority
    }

    /// The lifecycle state of the issue.
    pub fn status(&self) -> (r: &IssueStatus)
        ensures
            *r == self@.status,
    {
        &self.status
    }

    /// How far along the issue is, between zero and one hundred.
    pub fn progress(&self) -> (r: u8)
        ensures
            r == self@.progress,
    {
        self.progress
    }

    /// When the issue was created, as seconds since the Unix epoch.
    pub fn creation_date(&self) -> (r: i64)
        ensures
            r == self@.creation_date,
    {
        self.creation_date
    }

    /// When work starts, as seconds since the Unix epoch.
    pub fn start_date(&self) -> (r: i64)
        ensures
            r == self@.start_date,
    {
        self.start_date
    }

    /// When the issue is due, if a due date is set.
    pub fn due_date(&self) -> (r: &Option<i64>)
        ensures
            *r == self@.due_date,
    {
        &self.due_date
    }

    /// Replaces the title; it stays required and non-empty.
    pub fn set_title(&mut self, title: String)
        requires
            title@.len() > 0,
        ensures
            final(self)@ == (IssueView { title: title@, ..old(self)@ }),
    {
        self.title = title;
    }

    /// Replaces or clears the description.
    pub fn set_description(&mut self, description: Option<String>)
        ensures
            final(self)@ == (IssueView {
                description: match description {
                    Some(d) => Some(d@),
                    None => None,
                },
                ..old(self)@
            }),
    {
        self.description = description;
    }

    /// Replaces the type.
    pub fn set_typ(&mut self, typ: IssueType)
        ensures
            final(self)@ == (IssueView { typ, ..old(self)@ }),
    {
        self.typ = typ;
    }

    /// Replaces or clears the parent link.  The caller is responsible for
    /// referencing an issue that already exists in the repository.
    pub fn set_parent(&mut self, parent: Option<IssueHash>)
        ensures
            final(self)@ == (IssueView {
                parent: match parent {
                    Some(p) => Some(p@),
                    None => None,
                },
                ..old(self)@
            }),
    {
        self.parent = parent;
    }

    /// Replaces the author.
    pub fn set_author(&mut self, author: String)
        ensures
            final(self)@ == (IssueView { author: author@, ..old(self)@ }),
    {
        self.author = author;
    }

    /// Replaces or clears the assignee.
    pub fn set_assigned_to(&mut self, assigned_to: Option<String>)
        ensures
            final(self)@ == (IssueView {
                assigned_to: match assigned_to {
                    Some(a) => Some(a@),
                    None => None,
                },
                ..old(self)@
            }),
    {
        self.assigned_to = assigned_to;
    }

    /// Replaces the priority.
    pub fn set_priority(&mut self, priority: IssuePriority)
        ensures
            final(self)@ == (IssueView { priority, ..old(self)@ }),
    {
        self.priority = priority;
    }

    /// Replaces the status.
    pub fn set_status(&mut self, status: IssueStatus)
        ensures
            final(self)@ == (IssueView { status, ..old(self)@ }),
    {
        self.status = status;
    }

    /// Sets the progress.  Values up to one hundred are accepted; any
    /// larger value is rejected with `OutOfRange` and the issue is left
    /// unchanged.  The lower bound is enforced by the unsigned type.
    pub fn set_progress(&mut self, progress: u8) -> (r: Result<(), Error>)
        ensures
            r is Ok <==> progress <= 100,
            progress <= 100 ==> final(self)@ == (IssueView { progress, ..old(self)@ }),
            progress > 100 ==> *final(self) == *old(self) && r->Err_0 == Error::OutOfRange,
    {
        if progress > 100 {
            Err(Error::OutOfRange)
        } else {
            self.progress = progress;
            Ok(())
        }
    }

    /// Replaces the start date.
    pub fn set_start_date(&mut self, start_date: i64)
        ensures
            final(self)@ == (IssueView { start_date, ..old(self)@ }),
    {
        self.start_date = start_date;
    }

    /// Replaces or clears the due date.
    pub fn set_due_date(&mut self, due_date: Option<i64>)
        ensures
            final(self)@ == (IssueView { due_date, ..old(self)@ }),
    {
        self.due_date = due_date;
    }
}

} // verus!
