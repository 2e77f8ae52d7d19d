//! The multi-field issue filter.
//!
//! A filter is a conjunction of independent optional predicates, one slot
//! per filterable field: exact match for hash, type, parent, priority and
//! status; an inclusive range for each date and for progress; a regular
//! expression, found anywhere in the field's text, for author, title,
//! description and assignee.  An absent slot is always true; a present
//! regular expression never matches an absent optional field.

use vstd::prelude::*;

use crate::fields::{IssuePriority, IssueStatus, IssueType};
use crate::ids::IssueHash;
use crate::issue::{Issue, IssueView};
use crate::Error;

verus! {

#[verifier::external_type_specification]
#[verifier::external_body]
pub struct ExRegex(regex::Regex);

/// The pattern text that a compiled regular expression was built from and
/// keeps; `regex::Regex::as_str` returns it.
pub uninterp spec fn regex_pattern(re: regex::Regex) -> Seq<char>;

/// Whether a pattern text compiles as a regular expression.
pub uninterp spec fn regex_valid(p: Seq<char>) -> bool;

/// Whether a pattern is found anywhere in a text.
pub uninterp spec fn regex_found(p: Seq<char>, t: Seq<char>) -> bool;

/// Relies on regex::Regex::new: compiling succeeds exactly when the
/// pattern text is a valid regular expression, and the compiled value
/// keeps the pattern text.  On failure the compiler's message is handed
/// back as plain text.
#[verifier::external_body]
fn regex_compile(p: &str) -> (r: Result<regex::Regex, String>)
    ensures
        r is Ok <==> regex_valid(p@),
        r is Ok ==> regex_pattern(r->Ok_0) == p@,
{
    match regex::Regex::new(p) {
        Ok(re) => Ok(re),
        Err(e) => Err(format!("{}", e)),
    }
}

/// Relies on regex::Regex::is_match: true exactly when the compiled
/// pattern is found somewhere in the text; the result is a function of
/// the pattern and the text alone.
#[verifier::external_body]
fn regex_is_match(re: &regex::Regex, t: &str) -> (r: bool)
    ensures
        r == regex_found(regex_pattern(*re), t@),
{
    re.is_match(t)
}

/// The mathematical value of a filter: each slot either absent or the
/// plain value it tests against (for regular expressions, the pattern).
pub struct FilterView {
    pub hash: Option<u64>,
    pub typ: Option<IssueType>,
    pub parent: Option<u64>,
    pub priority: Option<IssuePriority>,
    pub status: Option<IssueStatus>,
    pub author: Option<Seq<char>>,
    pub title: Option<Seq<char>>,
    pub description: Option<Seq<char>>,
    pub assigned_to: Option<Seq<char>>,
    pub creation_from: Option<i64>,
    pub creation_to: Option<i64>,
    pub start_from: Option<i64>,
    pub start_to: Option<i64>,
    pub due_from: Option<i64>,
    pub due_to: Option<i64>,
    pub progress_from: Option<u8>,
    pub progress_to: Option<u8>,
}

/// Whether an issue satisfies every present predicate of a filter.
pub open spec fn spec_matches(f: FilterView, i: IssueView) -> bool {
    &&& (f.hash is Some ==> i.hash == f.hash->0)
    &&& (f.typ is Some ==> i.typ == f.typ->0)
    &&& (f.parent is Some ==> i.parent is Some && i.parent->0 == f.parent->0)
    &&& (f.priority is Some ==> i.priority == f.priority->0)
    &&& (f.status is Some ==> i.status == f.status->0)
    &&& (f.author is Some ==> regex_found(f.author->0, i.author))
    &&& (f.title is Some ==> regex_found(f.title->0, i.title))
    &&& (f.description is Some ==> i.description is Some && regex_found(
        f.description->0,
        i.description->0,
    ))
    &&& (f.assigned_to is Some ==> i.assigned_to is Some && regex_found(
        f.assigned_to->0,
        i.assigned_to->0,
    ))
    &&& (f.creation_from is Some ==> i.creation_date >= f.creation_from->0)
    &&& (f.creation_to is Some ==> i.creation_date <= f.creation_to->0)
    &&& (f.start_from is Some ==> i.start_date >= f.start_from->0)
    &&& (f.start_to is Some ==> i.start_date <= f.start_to->0)
    &&& (f.due_from is Some ==> i.due_date is Some && i.due_date->0 >= f.due_from->0)
    &&& (f.due_to is Some ==> i.due_date is Some && i.due_date->0 <= f.due_to->0)
    &&& (f.progress_from is Some ==> i.progress >= f.progress_from->0)
    &&& (f.progress_to is Some ==> i.progress <= f.progress_to->0)
}

/// The views of a sequence of issues.
pub open spec fn views_of(s: Seq<Issue>) -> Seq<IssueView> {
    s.map_values(|i: Issue| i@)
}

/// The issues of a sequence that a filter keeps, in the sequence's order.
pub open spec fn select_spec(f: FilterView, s: Seq<IssueView>) -> Seq<IssueView>
    decreases s.len(),
{
    if s.len() == 0 {
        Seq::empty()
    } else {
        let rest = select_spec(f, s.drop_last());
        if spec_matches(f, s.last()) {
            rest.push(s.last())
        } else {
            rest
        }
    }
}

/// A conjunction of optional per-field predicates over issues.
pub struct IssueFilter {
    hash: Option<IssueHash>,
    typ: Option<IssueType>,
    parent: Option<IssueHash>,
    priority: Option<IssuePriority>,
    status: Option<IssueStatus>,
    author: Option<regex::Regex>,
    title: Option<regex::Regex>,
    description: Option<regex::Regex>,
    assigned_to: Option<regex::Regex>,
    creation_from: Option<i64>,
    creation_to: Option<i64>,
    start_from: Option<i64>,
    start_to: Option<i64>,
    due_from: Option<i64>,
    due_to: Option<i64>,
    progress_from: Option<u8>,
    progress_to: Option<u8>,
}

impl View for IssueFilter {
    type V = FilterView;

    closed spec fn view(&self) -> FilterView {
        FilterView {
            hash: match self.hash {
                Some(h) => Some(h@),
                None => None,
            },
            typ: self.typ,
            parent: match self.parent {
                Some(p) => Some(p@),
                None => None,
            },
            priority: self.priority,
            status: self.status,
            author: match self.author {
                Some(re) => Some(regex_pattern(re)),
                None => None,
            },
            title: match self.title {
                Some(re) => Some(regex_pattern(re)),
                None => None,
            },
            description: match self.description {
                Some(re) => Some(regex_pattern(re)),
                None => None,
            },
            assigned_to: match self.assigned_to {
                Some(re) => Some(regex_pattern(re)),
                None => None,
            },
            creation_from: self.creation_from,
            creation_to: self.creation_to,
            start_from: self.start_from,
            start_to: self.start_to,
            due_from: self.due_from,
            due_to: self.due_to,
            progress_from: self.progress_from,
            progress_to: self.progress_to,
        }
    }
}

impl IssueFilter {
    /// The all-permissive filter: every slot absent, everything matches.
    pub fn new() -> (r: IssueFilter)
        ensures
            r@.hash is None,
            r@.typ is None,
            r@.parent is None,
            r@.priority is None,
            r@.status is None,
            r@.author is None,
            r@.title is None,
            r@.description is None,
            r@.assigned_to is None,
            r@.creation_from is None,
            r@.creation_to is None,
            r@.start_from is None,
            r@.start_to is None,
            r@.due_from is None,
            r@.due_to is None,
            r@.progress_from is None,
            r@.progress_to is None,
            forall|i: IssueView| spec_matches(r@, i),
    {
        IssueFilter {
            hash: None,
            typ: None,
            parent: None,
            priority: None,
            status: None,
            author: None,
            title: None,
            description: None,
            assigned_to: None,
            creation_from: None,
            creation_to: None,
            start_from: None,
            start_to: None,
            due_from: None,
            due_to: None,
            progress_from: None,
            progress_to: None,
        }
    }

    /// Requires the exact hash.
    pub fn set_hash_match(&mut self, hash: IssueHash)
        ensures
            final(self)@ == (FilterView { hash: Some(hash@), ..old(self)@ }),
    {
        self.hash = Some(hash);
    }

    /// Requires the exact type.
    pub fn set_type_match(&mut self, typ: IssueType)
        ensures
            final(self)@ == (FilterView { typ: Some(typ), ..old(self)@ }),
    {
        self.typ = Some(typ);
    }

    /// Requires the exact parent hash; an issue without a parent never
    /// matches.
    pub fn set_parent_match(&mut self, parent: IssueHash)
        ensures
            final(self)@ == (FilterView { parent: Some(parent@), ..old(self)@ }),
    {
        self.parent = Some(parent);
    }

    /// Requires the exact priority.
    pub fn set_priority_match(&mut self, priority: IssuePriority)
        ensures
            final(self)@ == (FilterView { priority: Some(priority), ..old(self)@ }),
    {
        self.priority = Some(priority);
    }

    /// Requires the exact status.
    pub fn set_status_match(&mut self, status: IssueStatus)
        ensures
            final(self)@ == (FilterView { status: Some(status), ..old(self)@ }),
    {
        self.status = Some(status);
    }

    /// Requires the pattern to be found in the author.  An invalid pattern
    /// is rejected with its compiler message and the filter is unchanged.
    pub fn set_autor_match(&mut self, pattern: &str) -> (r: Result<(), Error>)
        ensures
            r is Ok <==> regex_valid(pattern@),
            r is Ok ==> final(self)@ == (FilterView { author: Some(pattern@), ..old(self)@ }),
            r is Err ==> *final(self) == *old(self) && r->Err_0 is ParseError,
    {
        match regex_compile(pattern) {
            Ok(re) => {
                self.author = Some(re);
                Ok(())
            },
            Err(msg) => Err(Error::ParseError(msg)),
        }
    }

    /// Requires the pattern to be found in the title.  An invalid pattern
    /// is rejected with its compiler message and the filter is unchanged.
    pub fn set_title_match(&mut self, pattern: &str) -> (r: Result<(), Error>)
        ensures
            r is Ok <==> regex_valid(pattern@),
            r is Ok ==> final(self)@ == (FilterView { title: Some(pattern@), ..old(self)@ }),
            r is Err ==> *final(self) == *old(self) && r->Err_0 is ParseError,
    {
        match regex_compile(pattern) {
            Ok(re) => {
                self.title = Some(re);
                Ok(())
            },
            Err(msg) => Err(Error::ParseError(msg)),
        }
    }

    /// Requires the pattern to be found in a present description; an
    /// absent description never matches.  An invalid pattern is rejected
    /// with its compiler message and the filter is unchanged.
    pub fn set_description_match(&mut self, pattern: &str) -> (r: Result<(), Error>)
        ensures
            r is Ok <==> regex_valid(pattern@),
            r is Ok ==> final(self)@ == (FilterView {
                description: Some(pattern@),
                ..old(self)@
            }),
            r is Err ==> *final(self) == *old(self) && r->Err_0 is ParseError,
    {
        match regex_compile(pattern) {
            Ok(re) => {
                self.description = Some(re);
                Ok(())
            },
            Err(msg) => Err(Error::ParseError(msg)),
        }
    }

    /// Requires the pattern to be found in a present assignee; an absent
    /// assignee never matches.  An invalid pattern is rejected with its
    /// compiler message and the filter is unchanged.
    pub fn set_assigned_to_match(&mut self, pattern: &str) -> (r: Result<(), Error>)
        ensures
            r is Ok <==> regex_valid(pattern@),
            r is Ok ==> final(self)@ == (FilterView {
                assigned_to: Some(pattern@),
                ..old(self)@
            }),
            r is Err ==> *final(self) == *old(self) && r->Err_0 is ParseError,
    {
        match regex_compile(pattern) {
            Ok(re) => {
                self.assigned_to = Some(re);
                Ok(())
            },
            Err(msg) => Err(Error::ParseError(msg)),
        }
    }

    /// Keeps only issues created at or after the given moment.
    pub fn set_creation_date_from_match(&mut self, ts: i64)
        ensures
            final(self)@ == (FilterView { creation_from: Some(ts), ..old(self)@ }),
    {
        self.creation_from = Some(ts);
    }

    /// Keeps only issues created at or before the given moment.
    pub fn set_creation_date_to_match(&mut self, ts: i64)
        ensures
            final(self)@ == (FilterView { creation_to: Some(ts), ..old(self)@ }),
    {
        self.creation_to = Some(ts);
    }

    /// Keeps only issues starting at or after the given moment.
    pub fn set_start_date_from_match(&mut self, ts: i64)
        ensures
            final(self)@ == (FilterView { start_from: Some(ts), ..old(self)@ }),
    {
        self.start_from = Some(ts);
    }

    /// Keeps only issues starting at or before the given moment.
    pub fn set_start_date_to_match(&mut self, ts: i64)
        ensures
            final(self)@ == (FilterView { start_to: Some(ts), ..old(self)@ }),
    {
        self.start_to = Some(ts);
    }

    /// Keeps only issues with a due date at or after the given moment.
    pub fn set_due_date_from_match(&mut self, ts: i64)
        ensures
            final(self)@ == (FilterView { due_from: Some(ts), ..old(self)@ }),
    {
        self.due_from = Some(ts);
    }

    /// Keeps only issues with a due date at or before the given moment.
    pub fn set_due_date_to_match(&mut self, ts: i64)
        ensures
            final(self)@ == (FilterView { due_to: Some(ts), ..old(self)@ }),
    {
        self.due_to = Some(ts);
    }

    /// Keeps only issues with at least the given progress.  A bound above
    /// one hundred is rejected with `OutOfRange`.
    pub fn set_progress_from_match(&mut self, progress: u8) -> (r: Result<(), Error>)
        ensures
            r is Ok <==> progress <= 100,
            progress <= 100 ==> final(self)@ == (FilterView {
                progress_from: Some(progress),
                ..old(self)@
            }),
            progress > 100 ==> *final(self) == *old(self) && r->Err_0 == Error::OutOfRange,
    {
        if progress > 100 {
            Err(Error::OutOfRange)
        } else {
            self.progress_from = Some(progress);
            Ok(())
        }
    }

    /// Keeps only issues with at most the given progress.  A bound above
    /// one hundred is rejected with `OutOfRange`.
    pub fn set_progress_to_match(&mut self, progress: u8) -> (r: Result<(), Error>)
        ensures
            r is Ok <==> progress <= 100,
            progress <= 100 ==> final(self)@ == (FilterView {
                progress_to: Some(progress),
                ..old(self)@
            }),
            progress > 100 ==> *final(self) == *old(self) && r->Err_0 == Error::OutOfRange,
    {
        if progress > 100 {
            Err(Error::OutOfRange)
        } else {
            self.progress_to = Some(progress);
            Ok(())
        }
    }

    /// Whether one issue satisfies every present predicate.
    pub fn matches(&self, issue: &Issue) -> (r: bool)
        ensures
            r == spec_matches(self@, issue@),
    {
        match &self.hash {
            Some(h) => {
                if !h.same(issue.hash()) {
                    return false;
                }
            },
            None => {},
        }
        match &self.typ {
            Some(t) => {
                if *t != *issue.typ() {
                    return false;
                }
            },
            None => {},
        }
        match (&self.parent, issue.parent()) {
            (Some(p), Some(q)) => {
                if !p.same(q) {
                    return false;
                }
            },
            (Some(_), None) => {
                return false;
            },
            _ => {},
        }
        match &self.priority {
            Some(p) => {
                if *p != *issue.priority() {
                    return false;
                }
            },
            None => {},
        }
        match &self.status {
            Some(s) => {
                if *s != *issue.status() {
                    return false;
                }
            },
            None => {},
        }
        match &self.author {
            Some(re) => {
                if !regex_is_match(re, issue.author().as_str()) {
                    return false;
                }
            },
            None => {},
        }
        match &self.title {
            Some(re) => {
                if !regex_is_match(re, issue.title().as_str()) {
                    return false;
                }
            },
            None => {},
        }
        match (&self.description, issue.description()) {
            (Some(re), Some(d)) => {
                if !regex_is_match(re, d.as_str()) {
                    return false;
                }
            },
            (Some(_), None) => {
                return false;
            },
            _ => {},
        }
        match (&self.assigned_to, issue.assigned_to()) {
            (Some(re), Some(a)) => {
                if !regex_is_match(re, a.as_str()) {
                    return false;
                }
            },
            (Some(_), None) => {
                return false;
            },
            _ => {},
        }
        match &self.creation_from {
            Some(ts) => {
                if issue.creation_date() < *ts {
                    return false;
                }
            },
            None => {},
        }
        match &self.creation_to {
            Some(ts) => {
                if issue.creation_date() > *ts {
                    return false;
                }
            },
            None => {},
        }
        match &self.start_from {
            Some(ts) => {
                if issue.start_date() < *ts {
                    return false;
                }
            },
            None => {},
        }
        match &self.start_to {
            Some(ts) => {
                if issue.start_date() > *ts {
                    return false;
                }
            },
            None => {},
        }
        match (&self.due_from, issue.due_date()) {
            (Some(ts), Some(due)) => {
                if *due < *ts {
                    return false;
                }
            },
            (Some(_), None) => {
                return false;
            },
            _ => {},
        }
        match (&self.due_to, issue.due_date()) {
            (Some(ts), Some(due)) => {
                if *due > *ts {
                    return false;
                }
            },
            (Some(_), None) => {
                return false;
            },
            _ => {},
        }
        match &self.progress_from {
            Some(p) => {
                if issue.progress() < *p {
                    return false;
                }
            },
            None => {},
        }
        match &self.progress_to {
            Some(p) => {
                if issue.progress() > *p {
                    return false;
                }
            },
            None => {},
        }
        true
    }

    /// The issues of a sequence that this filter keeps, as clones, in the
    /// sequence's order, each paired with its hash.
    pub fn select(&self, issues: &Vec<Issue>) -> (r: Vec<(IssueHash, Issue)>)
        ensures
            r@.map_values(|p: (IssueHash, Issue)| p.1@) == select_spec(self@, views_of(issues@)),
            forall|k: int| 0 <= k < r@.len() ==> #[trigger] r@[k].0@ == r@[k].1@.hash,
    {
        let mut r: Vec<(IssueHash, Issue)> = Vec::new();
        let n = issues.len();
        let mut i: usize = 0;
        assert(r@.map_values(|p: (IssueHash, Issue)| p.1@) =~= select_spec(
            self@,
            views_of(issues@.subrange(0, 0)),
        ));
        while i < n
            invariant
                i <= n,
                n == issues@.len(),
                r@.map_values(|p: (IssueHash, Issue)| p.1@) == select_spec(
                    self@,
                    views_of(issues@.subrange(0, i as int)),
                ),
                forall|k: int| 0 <= k < r@.len() ==> #[trigger] r@[k].0@ == r@[k].1@.hash,
            decreases n - i,
        {
            let ghost pre = views_of(issues@.subrange(0, i as int));
            let ghost cur = views_of(issues@.subrange(0, i + 1 as int));
            assert(cur.drop_last() =~= pre);
            assert(cur.last() == issues@[i as int]@);
            if self.matches(&issues[i]) {
                let item = issues[i].clone();
                let h = *item.hash();
                r.push((h, item));
                assert(r@.map_values(|p: (IssueHash, Issue)| p.1@) =~= select_spec(self@, cur));
            } else {
                assert(r@.map_values(|p: (IssueHash, Issue)| p.1@) =~= select_spec(self@, cur));
            }
            i = i + 1;
        }
        assert(views_of(issues@.subrange(0, n as int)) =~= views_of(issues@));
        r
    }
}

/// Whether filter `g` is at least as demanding as filter `f`: every slot
/// present in `f` is present in `g` with the same value.  Appending
/// predicates to a filter yields a filter that refines it.
pub open spec fn refines(g: FilterView, f: FilterView) -> bool {
    &&& (f.hash is Some ==> g.hash == f.hash)
    &&& (f.typ is Some ==> g.typ == f.typ)
    &&& (f.parent is Some ==> g.parent == f.parent)
    &&& (f.priority is Some ==> g.priority == f.priority)
    &&& (f.status is Some ==> g.status == f.status)
    &&& (f.author is Some ==> g.author == f.author)
    &&& (f.title is Some ==> g.title == f.title)
    &&& (f.description is Some ==> g.description == f.description)
    &&& (f.assigned_to is Some ==> g.assigned_to == f.assigned_to)
    &&& (f.creation_from is Some ==> g.creation_from == f.creation_from)
    &&& (f.creation_to is Some ==> g.creation_to == f.creation_to)
    &&& (f.start_from is Some ==> g.start_from == f.start_from)
    &&& (f.start_to is Some ==> g.start_to == f.start_to)
    &&& (f.due_from is Some ==> g.due_from == f.due_from)
    &&& (f.due_to is Some ==> g.due_to == f.due_to)
    &&& (f.progress_from is Some ==> g.progress_from == f.progress_from)
    &&& (f.progress_to is Some ==> g.progress_to == f.progress_to)
}

/// Law: a more demanding filter matches fewer issues: whatever a refining
/// filter keeps, the refined one keeps too.
pub proof fn lemma_matches_narrowing(g: FilterView, f: FilterView, i: IssueView)
    requires
        refines(g, f),
        spec_matches(g, i),
    ensures
        spec_matches(f, i),
{
}

/// Law: a selection is a subsequence of its input: every selected view is
/// one of the input views, and the count never exceeds the input's.
pub proof fn lemma_select_subset(f: FilterView, s: Seq<IssueView>)
    ensures
        select_spec(f, s).len() <= s.len(),
        forall|v: IssueView| select_spec(f, s).contains(v) ==> s.contains(v),
    decreases s.len(),
{
    if s.len() > 0 {
        lemma_select_subset(f, s.drop_last());
        assert forall|v: IssueView| select_spec(f, s).contains(v) implies s.contains(v) by {
            let sel = select_spec(f, s);
            let pre = select_spec(f, s.drop_last());
            let j = choose|j: int| 0 <= j < sel.len() && sel[j] == v;
            if spec_matches(f, s.last()) && j == sel.len() - 1 {
                assert(s[s.len() - 1] == v);
            } else {
                assert(pre[j] == v);
                assert(pre.contains(v));
                assert(s.drop_last().contains(v));
                let k = choose|k: int| 0 <= k < s.drop_last().len() && s.drop_last()[k] == v;
                assert(s[k] == v);
            }
        }
    }
}

/// Law: appending predicates never grows the selection: a refining filter
/// selects no more issues, and everything it selects the refined filter
/// selects too.
pub proof fn lemma_select_narrowing(g: FilterView, f: FilterView, s: Seq<IssueView>)
    requires
        refines(g, f),
    ensures
        select_spec(g, s).len() <= select_spec(f, s).len(),
        forall|v: IssueView| select_spec(g, s).contains(v) ==> select_spec(f, s).contains(v),
    decreases s.len(),
{
    if s.len() > 0 {
        lemma_select_narrowing(g, f, s.drop_last());
        if spec_matches(g, s.last()) {
            lemma_matches_narrowing(g, f, s.last());
        }
        let selg = select_spec(g, s);
        let self_ = select_spec(f, s);
        assert forall|v: IssueView| selg.contains(v) implies self_.contains(v) by {
            let j = choose|j: int| 0 <= j < selg.len() && selg[j] == v;
            if spec_matches(g, s.last()) && j == selg.len() - 1 {
                assert(spec_matches(f, s.last()));
                assert(self_[self_.len() - 1] == v);
            } else {
                assert(select_spec(g, s.drop_last()).contains(v));
                assert(select_spec(f, s.drop_last()).contains(v));
                let k = choose|k: int|
                    0 <= k < select_spec(f, s.drop_last()).len() && select_spec(
                        f,
                        s.drop_last(),
                    )[k] == v;
                if spec_matches(f, s.last()) {
                    assert(self_[k] == v);
                } else {
                    assert(self_[k] == v);
                }
            }
        }
    }
}

} // verus!
