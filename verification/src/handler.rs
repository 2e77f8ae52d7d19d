//! The in-memory issue collection.
//!
//! The handler owns the full issue set of one repository for the length of
//! one invocation: it loads every record from storage at once or not at
//! all, answers lookups and filtered listings, upserts issues by hash, and
//! computes the dependency closure that makes cascading deletion safe.

use vstd::prelude::*;

use crate::filter::{select_spec, views_of, IssueFilter};
use crate::ids::IssueHash;
use crate::issue::{Issue, IssueView};
use crate::record::{issue_record_text, parse_issue_record, bounded_view, encodes, spec_record,
    lemma_spec_record_injective};
use crate::storage::IssueStorage;
use crate::Error;

verus! {

/// Whether `vs` lists, record by record, a well-formed issue that each
/// record encodes under its own key.
pub open spec fn records_encode_seq(records: Seq<(u64, Seq<char>)>, vs: Seq<IssueView>) -> bool {
    vs.len() == records.len() && forall|k: int|
        0 <= k < records.len() ==> encodes((#[trigger] records[k]).1, #[trigger] vs[k])
            && vs[k].hash == records[k].0
}

/// Each issue at most once: all hashes distinct.
pub open spec fn unique_hashes(s: Seq<IssueView>) -> bool {
    forall|i: int, j: int|
        0 <= i < j < s.len() ==> (#[trigger] s[i]).hash != (#[trigger] s[j]).hash
}

/// Whether a sequence of issues holds one with the given hash.
pub open spec fn has_issue(s: Seq<IssueView>, h: u64) -> bool {
    exists|k: int| 0 <= k < s.len() && (#[trigger] s[k]).hash == h
}

/// How upserting relates the collection before and after: an issue with
/// the same hash is replaced in place, a new hash is appended.
pub open spec fn insert_rel(old: Seq<IssueView>, v: IssueView, new: Seq<IssueView>) -> bool {
    if has_issue(old, v.hash) {
        exists|j: int| 0 <= j < old.len() && (#[trigger] old[j]).hash == v.hash && new == old.update(j, v)
    } else {
        new == old.push(v)
    }
}

/// The in-memory mapping from hash to issue, with unique hashes.
pub struct IssuesHandler {
    issues: Vec<Issue>,
}

impl View for IssuesHandler {
    type V = Seq<IssueView>;

    closed spec fn view(&self) -> Seq<IssueView> {
        views_of(self.issues@)
    }
}

impl IssuesHandler {
    /// An empty collection.
    pub fn new() -> (r: IssuesHandler)
        ensures
            r@ =~= Seq::<IssueView>::empty(),
            unique_hashes(r@),
    {
        let r = IssuesHandler { issues: Vec::new() };
        assert(r@ =~= Seq::<IssueView>::empty());
        r
    }

    /// The position of the issue with the given hash, if one is held.
    fn index_of(&self, hash: &IssueHash) -> (r: Option<usize>)
        ensures
            r is Some ==> r->0 < self@.len() && self@[r->0 as int].hash == hash@,
            r is None ==> !has_issue(self@, hash@),
    {
        let n = self.issues.len();
        let mut i: usize = 0;
        while i < n
            invariant
                i <= n,
                n == self.issues@.len(),
                self@.len() == n,
                forall|k: int| 0 <= k < i ==> (#[trigger] self@[k]).hash != hash@,
            decreases n - i,
        {
            proof {
                assert(self@[i as int] == self.issues@[i as int]@);
            }
            if (self.issues[i].hash()).same(hash) {
                return Some(i);
            }
            i = i + 1;
        }
        None
    }

    /// A direct lookup by hash.
    pub fn issue(&self, hash: &IssueHash) -> (r: Option<&Issue>)
        ensures
            r is Some <==> has_issue(self@, hash@),
            r is Some ==> r->0@.hash == hash@ && exists|k: int|
                0 <= k < self@.len() && (#[trigger] self@[k]) == r->0@,
    {
        match self.index_of(hash) {
            Some(i) => {
                proof {
                    assert(self@[i as int] == self.issues@[i as int]@);
                }
                Some(&self.issues[i])
            },
            None => None,
        }
    }

    /// Upserts one issue by hash: the single mechanism for both create and
    /// edit.  A held issue with the same hash is fully replaced; otherwise
    /// the issue is added.  Hashes stay unique.
    pub fn insert_issue(&mut self, issue: Issue)
        requires
            unique_hashes(old(self)@),
        ensures
            insert_rel(old(self)@, issue@, final(self)@),
            unique_hashes(final(self)@),
            has_issue(final(self)@, issue@.hash),
    {
        let ghost old_view = self@;
        let ghost v = issue@;
        match self.index_of(issue.hash()) {
            Some(i) => {
                self.issues.set(i, issue);
                proof {
                    assert(self@ =~= old_view.update(i as int, v));
                    assert(old_view[i as int].hash == v.hash);
                    assert(has_issue(old_view, v.hash));
                    assert(self@[i as int].hash == v.hash);
                    assert forall|a: int, b: int|
                        0 <= a < b < self@.len() implies (#[trigger] self@[a]).hash != (
                        #[trigger] self@[b]).hash by {
                        if a != i {
                            assert(self@[a] == old_view[a]);
                        }
                        if b != i {
                            assert(self@[b] == old_view[b]);
                        }
                    }
                }
            },
            None => {
                let ghost n = self.issues@.len();
                self.issues.push(issue);
                proof {
                    assert(self@ =~= old_view.push(v));
                    assert(self@[n as int].hash == v.hash);
                    assert forall|a: int, b: int|
                        0 <= a < b < self@.len() implies (#[trigger] self@[a]).hash != (
                        #[trigger] self@[b]).hash by {
                        assert(self@[a] == old_view[a]);
                        if b < n {
                            assert(self@[b] == old_view[b]);
                        } else {
                            assert(!has_issue(old_view, v.hash));
                        }
                    }
                }
            },
        }
    }

    /// The held issues that a filter keeps, each paired with its hash, in
    /// storage order.
    pub fn issues_filtered(&self, filter: &IssueFilter) -> (r: Vec<(IssueHash, Issue)>)
        ensures
            r@.map_values(|p: (IssueHash, Issue)| p.1@) == select_spec(filter@, self@),
            forall|k: int| 0 <= k < r@.len() ==> #[trigger] r@[k].0@ == r@[k].1@.hash,
    {
        filter.select(&self.issues)
    }
}

/// Law: upserting the same issue twice is the same as upserting it once,
/// and afterwards exactly one held issue carries its hash.
pub proof fn lemma_insert_idempotent(
    s: Seq<IssueView>,
    v: IssueView,
    s1: Seq<IssueView>,
    s2: Seq<IssueView>,
)
    requires
        unique_hashes(s),
        insert_rel(s, v, s1),
        insert_rel(s1, v, s2),
    ensures
        s2 == s1,
        exists|j: int|
            0 <= j < s1.len() && s1[j] == v && (forall|k: int|
                0 <= k < s1.len() && (#[trigger] s1[k]).hash == v.hash ==> k == j),
{
    if has_issue(s, v.hash) {
        let j = choose|j: int| 0 <= j < s.len() && (#[trigger] s[j]).hash == v.hash && s1 == s.update(j, v);
        assert(s1[j] == v);
        assert forall|k: int| 0 <= k < s1.len() && (#[trigger] s1[k]).hash == v.hash implies k
            == j by {
            if k != j {
                assert(s1[k] == s[k]);
                assert(s[k].hash != s[j].hash);
            }
        }
        assert(has_issue(s1, v.hash));
        let j2 = choose|j2: int|
            0 <= j2 < s1.len() && (#[trigger] s1[j2]).hash == v.hash && s2 == s1.update(j2, v);
        assert(j2 == j);
        assert(s2 =~= s1);
    } else {
        let j = s.len() as int;
        assert(s1 == s.push(v));
        assert(s1[j] == v);
        assert forall|k: int| 0 <= k < s1.len() && (#[trigger] s1[k]).hash == v.hash implies k
            == j by {
            if k != j {
                assert(s1[k] == s[k]);
                assert(has_issue(s, v.hash));
            }
        }
        assert(has_issue(s1, v.hash));
        let j2 = choose|j2: int|
            0 <= j2 < s1.len() && (#[trigger] s1[j2]).hash == v.hash && s2 == s1.update(j2, v);
        assert(j2 == j);
        assert(s2 =~= s1);
    }
}

} // verus!

verus! {

/// How many entries of a sequence of flags are set.
pub open spec fn count_trues(s: Seq<bool>) -> nat
    decreases s.len(),
{
    if s.len() == 0 {
        0
    } else {
        count_trues(s.drop_last()) + (if s.last() { 1nat } else { 0nat })
    }
}

/// No more flags are set than there are flags.
proof fn lemma_count_trues_bound(s: Seq<bool>)
    ensures
        count_trues(s) <= s.len(),
    decreases s.len(),
{
    if s.len() > 0 {
        lemma_count_trues_bound(s.drop_last());
    }
}

/// Setting one clear flag raises the count by one.
proof fn lemma_count_trues_set(s: Seq<bool>, k: int)
    requires
        0 <= k < s.len(),
        !s[k],
    ensures
        count_trues(s.update(k, true)) == count_trues(s) + 1,
    decreases s.len(),
{
    let t = s.update(k, true);
    if k == s.len() - 1 {
        assert(t.drop_last() =~= s.drop_last());
        assert(t.last());
    } else {
        assert(t.drop_last() =~= s.drop_last().update(k, true));
        assert(t.last() == s.last());
        lemma_count_trues_set(s.drop_last(), k);
    }
}

/// Whether a sequence of hashes holds the given value.
pub open spec fn hash_in(r: Seq<IssueHash>, h: u64) -> bool {
    exists|i: int| 0 <= i < r.len() && (#[trigger] r[i])@ == h
}

/// Every listed hash past the first belongs to a visited issue.
pub open spec fn marked_witness(res: Seq<IssueHash>, marked: Seq<bool>, issues: Seq<IssueView>) -> bool {
    forall|x: int|
        1 <= x < res.len() ==> exists|k: int|
            0 <= k < marked.len() && (#[trigger] marked[k]) && issues[k].hash == (
            #[trigger] res[x])@
}

impl IssuesHandler {
    /// The dependency closure of one issue: the issue itself and every
    /// held issue that has it as an ancestor through the parent chain,
    /// each exactly once, every parent before its children.  Reversing the
    /// order yields a deletion order in which every child goes before its
    /// parent.  The traversal visits each issue at most once, so a parent
    /// graph malformed into a cycle cannot make it loop.
    #[verifier::rlimit(100)]
    #[verifier::spinoff_prover]
    pub fn find_dependend_issues(&self, hash: &IssueHash) -> (r: Vec<IssueHash>)
        requires
            unique_hashes(self@),
        ensures
            r@.len() >= 1,
            r@[0]@ == hash@,
            forall|i: int, j: int| 0 <= i < j < r@.len() ==> (#[trigger] r@[i])@ != (
            #[trigger] r@[j])@,
            forall|i: int|
                1 <= i < r@.len() ==> exists|j: int, k: int|
                    0 <= j < i && 0 <= k < self@.len() && (#[trigger] self@[k]).hash == (
                    #[trigger] r@[i])@ && self@[k].parent == Some((#[trigger] r@[j])@),
            forall|k: int|
                0 <= k < self@.len() && (#[trigger] self@[k]).parent is Some && hash_in(
                    r@,
                    self@[k].parent->0,
                ) ==> hash_in(r@, self@[k].hash),
    {
        let n = self.issues.len();
        proof {
            assert(self@.len() == n);
        }
        let mut result: Vec<IssueHash> = Vec::new();
        result.push(*hash);
        let mut marked: Vec<bool> = Vec::new();
        let mut m: usize = 0;
        while m < n
            invariant
                m <= n,
                marked@.len() == m,
                forall|k: int| 0 <= k < m ==> !(#[trigger] marked@[k]),
            decreases n - m,
        {
            marked.push(false);
            m = m + 1;
        }
        proof {
            lemma_count_all_clear(marked@);
        }
        let mut added: usize = 0;
        let mut i: usize = 0;
        while i < result.len()
            invariant
                unique_hashes(self@),
                self@.len() == n == self.issues@.len(),
                marked@.len() == n,
                added == count_trues(marked@),
                result@.len() == 1 + added,
                i <= result@.len(),
                result@[0]@ == hash@,
                forall|a: int, b: int| 0 <= a < b < result@.len() ==> (#[trigger] result@[a])@
                    != (#[trigger] result@[b])@,
                forall|x: int|
                    1 <= x < result@.len() ==> exists|j: int, k: int|
                        0 <= j < x && 0 <= k < self@.len() && (#[trigger] self@[k]).hash == (
                        #[trigger] result@[x])@ && self@[k].parent == Some((
                        #[trigger] result@[j])@),
                marked_witness(result@, marked@, self@),
                forall|k: int|
                    0 <= k < n && #[trigger] marked@[k] ==> hash_in(result@, self@[k].hash)
                        && self@[k].hash != hash@,
                forall|k: int, j: int|
                    0 <= k < n && 0 <= j < i && (#[trigger] self@[k]).parent == Some(
                        (#[trigger] result@[j])@,
                    ) ==> marked@[k] || self@[k].hash == hash@,
            decreases n + 1 - i,
        {
            proof {
                lemma_count_trues_bound(marked@);
            }
            let cur = result[i];
            let mut k: usize = 0;
            while k < n
                invariant
                    unique_hashes(self@),
                    self@.len() == n == self.issues@.len(),
                    marked@.len() == n,
                    added == count_trues(marked@),
                    result@.len() == 1 + added,
                    i < result@.len(),
                    cur == result@[i as int],
                    result@[0]@ == hash@,
                    k <= n,
                    forall|a: int, b: int|
                        0 <= a < b < result@.len() ==> (#[trigger] result@[a])@ != (
                        #[trigger] result@[b])@,
                    forall|x: int|
                        1 <= x < result@.len() ==> exists|j: int, kk: int|
                            0 <= j < x && 0 <= kk < self@.len() && (#[trigger] self@[kk]).hash == (
                            #[trigger] result@[x])@ && self@[kk].parent == Some((
                            #[trigger] result@[j])@),
                    marked_witness(result@, marked@, self@),
                    forall|kk: int|
                        0 <= kk < n && #[trigger] marked@[kk] ==> hash_in(result@, self@[kk].hash)
                            && self@[kk].hash != hash@,
                    forall|kk: int, j: int|
                        0 <= kk < n && 0 <= j < i && (#[trigger] self@[kk]).parent == Some(
                            (#[trigger] result@[j])@,
                        ) ==> marked@[kk] || self@[kk].hash == hash@,
                    forall|kk: int|
                        0 <= kk < k && (#[trigger] self@[kk]).parent == Some(result@[i as int]@)
                            ==> marked@[kk] || self@[kk].hash == hash@,
                decreases n - k,
            {
                proof {
                    assert(self@[k as int] == self.issues@[k as int]@);
                }
                let is_child = match self.issues[k].parent() {
                    Some(p) => p.same(&cur),
                    None => false,
                };
                proof {
                    if !is_child {
                        assert(self@[k as int].parent != Some(result@[i as int]@));
                    }
                }
                if is_child && !marked[k] {
                    let hk = *self.issues[k].hash();
                    if !hk.same(hash) {
                        let ghost prev = result@;
                        let ghost prevmarked = marked@;
                        proof {
                            assert(marked_witness(prev, prevmarked, self@));
                            assert forall|x: int| 1 <= x < prev.len() implies (
                            #[trigger] prev[x])@ != hk@ by {
                                let kk = choose|kk: int|
                                    0 <= kk < prevmarked.len() && (#[trigger] prevmarked[kk])
                                        && self@[kk].hash == prev[x]@;
                                if self@[kk].hash == hk@ {
                                    if kk < k {
                                        assert(self@[kk].hash != self@[k as int].hash);
                                    } else if kk > k {
                                        assert(self@[k as int].hash != self@[kk].hash);
                                    }
                                }
                            }
                        }
                        marked.set(k, true);
                        result.push(hk);
                        proof {
                            assert(marked@ =~= prevmarked.update(k as int, true));
                            lemma_count_trues_set(prevmarked, k as int);
                            lemma_count_trues_bound(marked@);
                            assert(added + 1 == count_trues(marked@));
                        }
                        added = added + 1;
                        proof {
                            let newlen = prev.len() as int;
                            assert(result@ =~= prev.push(hk));
                            assert(result@[newlen] == hk);
                            assert(self@[k as int].hash == hk@);
                            assert(self@[k as int].parent == Some(cur@));
                            assert forall|x: int|
                                1 <= x < result@.len() implies exists|j: int, kk: int|
                                    0 <= j < x && 0 <= kk < self@.len() && (
                                    #[trigger] self@[kk]).hash == (#[trigger] result@[x])@
                                        && self@[kk].parent == Some((#[trigger] result@[j])@) by {
                                if x < newlen {
                                    let (j, kk) = choose|j: int, kk: int|
                                        0 <= j < x && 0 <= kk < self@.len() && (
                                        #[trigger] self@[kk]).hash == prev[x]@ && self@[kk].parent
                                            == Some((#[trigger] prev[j])@);
                                    assert(result@[x] == prev[x]);
                                    assert(result@[j] == prev[j]);
                                    assert(0 <= j < x && 0 <= kk < self@.len() && self@[kk].hash
                                        == result@[x]@ && self@[kk].parent == Some(result@[j]@));
                                } else {
                                    assert(result@[x] == hk);
                                    assert(result@[i as int] == prev[i as int]);
                                    let ghost ii = i as int;
                                    assert(0 <= ii < x && 0 <= k < self@.len() && self@[k as int].hash
                                        == result@[x]@ && self@[k as int].parent == Some(
                                        result@[ii]@,
                                    ));
                                }
                            }
                            assert(marked_witness(result@, marked@, self@)) by {
                                assert forall|x: int|
                                    1 <= x < result@.len() implies exists|kk: int|
                                        0 <= kk < marked@.len() && (#[trigger] marked@[kk])
                                            && self@[kk].hash == (#[trigger] result@[x])@ by {
                                    if x < newlen {
                                        let kk = choose|kk: int|
                                            0 <= kk < prevmarked.len() && (
                                            #[trigger] prevmarked[kk]) && self@[kk].hash
                                                == (prev[x])@;
                                        assert(marked@[kk]);
                                        assert(result@[x] == prev[x]);
                                    } else {
                                        assert(marked@[k as int]);
                                        assert(result@[x] == hk);
                                    }
                                }
                            }
                            assert forall|kk: int|
                                0 <= kk < n && #[trigger] marked@[kk] implies hash_in(
                                result@,
                                self@[kk].hash,
                            ) && self@[kk].hash != hash@ by {
                                if kk == k {
                                    assert(result@[newlen]@ == self@[k as int].hash);
                                } else {
                                    assert(prevmarked[kk]);
                                    let x = choose|x: int|
                                        0 <= x < prev.len() && (#[trigger] prev[x])@
                                            == self@[kk].hash;
                                    assert(result@[x] == prev[x]);
                                    assert(result@[x]@ == self@[kk].hash);
                                }
                            }
                            assert forall|kk: int, j: int|
                                0 <= kk < n && 0 <= j < i && (#[trigger] self@[kk]).parent == Some(
                                    (#[trigger] result@[j])@,
                                ) implies marked@[kk] || self@[kk].hash == hash@ by {
                                assert(result@[j] == prev[j]);
                                if prevmarked[kk] {
                                    assert(marked@[kk]);
                                }
                            }
                            assert forall|kk: int|
                                0 <= kk < k + 1 && (#[trigger] self@[kk]).parent == Some(
                                    result@[i as int]@,
                                ) implies marked@[kk] || self@[kk].hash == hash@ by {
                                assert(result@[i as int] == prev[i as int]);
                                if kk < k {
                                    if prevmarked[kk] {
                                        assert(marked@[kk]);
                                    }
                                } else {
                                    assert(marked@[k as int]);
                                }
                            }
                        }
                    } else {
                        proof {
                            assert(self@[k as int].hash == hash@);
                        }
                    }
                }
                k = k + 1;
            }
            proof {
                assert forall|k2: int, j: int|
                    0 <= k2 < n && 0 <= j < i + 1 && (#[trigger] self@[k2]).parent == Some(
                        (#[trigger] result@[j])@,
                    ) implies marked@[k2] || self@[k2].hash == hash@ by {
                    if j == i {
                        assert(self@[k2].parent == Some(result@[i as int]@));
                    }
                }
            }
            i = i + 1;
        }
        proof {
            assert forall|k: int|
                0 <= k < self@.len() && (#[trigger] self@[k]).parent is Some && hash_in(
                    result@,
                    self@[k].parent->0,
                ) implies hash_in(result@, self@[k].hash) by {
                let j = choose|j: int|
                    0 <= j < result@.len() && (#[trigger] result@[j])@ == self@[k].parent->0;
                assert(self@[k].parent == Some(result@[j]@));
                if marked@[k] {
                } else {
                    assert(self@[k].hash == hash@);
                    assert(result@[0]@ == self@[k].hash);
                }
            }
        }
        result
    }
}

/// A freshly filled flag sequence has no flag set.
proof fn lemma_count_all_clear(s: Seq<bool>)
    requires
        forall|k: int| 0 <= k < s.len() ==> !(#[trigger] s[k]),
    ensures
        count_trues(s) == 0,
    decreases s.len(),
{
    if s.len() > 0 {
        assert forall|k: int| 0 <= k < s.drop_last().len() implies !(
        #[trigger] s.drop_last()[k]) by {
            assert(s.drop_last()[k] == s[k]);
        }
        lemma_count_all_clear(s.drop_last());
    }
}

} // verus!

verus! {

impl IssuesHandler {
    /// Loads the full issue set from storage, replacing what is held.  All
    /// or nothing: if any record fails to parse, or names a hash other
    /// than the issue it holds, the whole load fails with `ParseError` and
    /// the handler keeps its prior issues.  Whenever every record encodes
    /// a well-formed issue under its own hash — as everything written by
    /// `write_issues` does — the load succeeds.
    pub fn read_issues(&mut self, storage: &IssueStorage) -> (r: Result<(), Error>)
        requires
            storage@.wf(),
        ensures
            r is Ok ==> final(self)@.len() == storage@.records.len() && (forall|k: int|
                0 <= k < storage@.records.len() ==> (#[trigger] final(self)@[k]).wf()
                    && bounded_view(final(self)@[k]) && spec_record(final(self)@[k]) == storage@.records[k].1
                    && final(self)@[k].hash == storage@.records[k].0) && unique_hashes(
                final(self)@,
            ),
            r is Err ==> *final(self) == *old(self),
            forall|vs: Seq<IssueView>| records_encode_seq(storage@.records, vs) ==> r is Ok,
    {
        let records = storage.records();
        let n = records.len();
        proof {
            assert(crate::storage::records_view(records@) == storage@.records);
        }
        let mut loaded: Vec<Issue> = Vec::new();
        let mut i: usize = 0;
        while i < n
            invariant
                n == records@.len() == storage@.records.len(),
                crate::storage::records_view(records@) == storage@.records,
                i <= n,
                loaded@.len() == i,
                forall|k: int|
                    0 <= k < i ==> (#[trigger] loaded@[k]@).wf() && bounded_view(loaded@[k]@)
                        && spec_record(loaded@[k]@) == storage@.records[k].1 && loaded@[k]@.hash
                        == storage@.records[k].0,
            decreases n - i,
        {
            proof {
                assert(storage@.records[i as int] == (records@[i as int].0@, records@[
                    i as int].1@));
            }
            let text: &String = &records[i].1;
            match parse_issue_record(text.as_str()) {
                Err(_) => {
                    proof {
                        assert forall|vs: Seq<IssueView>|
                            !records_encode_seq(storage@.records, vs) by {
                            if records_encode_seq(storage@.records, vs) {
                                assert(encodes(storage@.records[i as int].1, vs[i as int]));
                                assert(false);
                            }
                        }
                    }
                    return Err(Error::ParseError(text.clone()));
                },
                Ok(issue) => {
                    if !(issue.hash()).same(&records[i].0) {
                        proof {
                            assert forall|vs: Seq<IssueView>|
                                !records_encode_seq(storage@.records, vs) by {
                                if records_encode_seq(storage@.records, vs) {
                                    assert(encodes(storage@.records[i as int].1, vs[i as int]));
                                    assert(vs[i as int] == issue@);
                                    assert(vs[i as int].hash == storage@.records[i as int].0);
                                }
                            }
                        }
                        return Err(Error::ParseError(text.clone()));
                    }
                    loaded.push(issue);
                },
            }
            i = i + 1;
        }
        self.issues = loaded;
        proof {
            assert(self@ == views_of(self.issues@));
            assert forall|a: int, b: int|
                0 <= a < b < self@.len() implies (#[trigger] self@[a]).hash != (
                #[trigger] self@[b]).hash by {
                assert(self@[a].hash == storage@.records[a].0);
                assert(self@[b].hash == storage@.records[b].0);
            }
        }
        Ok(())
    }

    /// Stages the full held collection in storage, one record per issue,
    /// keyed and named by each issue's hash.  Staging itself cannot fail;
    /// the shell that mirrors the staged records onto disk may, and such a
    /// failure does not roll back records already written.
    pub fn write_issues(&self, storage: &mut IssueStorage) -> (r: Result<(), Error>)
        requires
            unique_hashes(self@),
        ensures
            r is Ok,
            final(storage)@.root == old(storage)@.root,
            final(storage)@.user == old(storage)@.user,
            final(storage)@.records.len() == self@.len(),
            forall|k: int|
                0 <= k < self@.len() ==> (#[trigger] final(storage)@.records[k]).0 == self@[k].hash
                    && final(storage)@.records[k].1 == spec_record(self@[k]) && bounded_view(
                    self@[k],
                ),
            final(storage)@.wf(),
    {
        let n = self.issues.len();
        let mut recs: Vec<(IssueHash, String)> = Vec::new();
        let mut i: usize = 0;
        while i < n
            invariant
                n == self.issues@.len() == self@.len(),
                i <= n,
                recs@.len() == i,
                forall|k: int|
                    0 <= k < i ==> (#[trigger] recs@[k].0)@ == self@[k].hash && recs@[k].1@
                        == spec_record(self@[k]) && bounded_view(self@[k]),
            decreases n - i,
        {
            proof {
                assert(self@[i as int] == self.issues@[i as int]@);
            }
            let issue = &self.issues[i];
            let text = issue_record_text(issue);
            let h = *issue.hash();
            recs.push((h, text));
            i = i + 1;
        }
        storage.set_records(recs);
        proof {
            assert forall|k: int|
                0 <= k < self@.len() implies (#[trigger] final(storage)@.records[k]).0
                    == self@[k].hash && final(storage)@.records[k].1 == spec_record(self@[k])
                    && bounded_view(self@[k]) by {
                assert(final(storage)@.records[k] == (recs@[k].0@, recs@[k].1@));
            }
            assert forall|a: int, b: int|
                0 <= a < b < final(storage)@.records.len() implies (
                #[trigger] final(storage)@.records[a]).0 != (
                #[trigger] final(storage)@.records[b]).0 by {
                assert(final(storage)@.records[a].0 == self@[a].hash);
                assert(final(storage)@.records[b].0 == self@[b].hash);
            }
        }
        Ok(())
    }
}

} // verus!

verus! {

/// Law: issues staged by `write_issues` and loaded back by `read_issues`
/// are recovered field for field.  Every staged record encodes a
/// well-formed issue under its own hash, so the load succeeds; and any
/// collection whose records match the staged ones is the staged
/// collection itself.
pub proof fn lemma_storage_round_trip(issues: Seq<IssueView>, records: Seq<(u64, Seq<char>)>)
    requires
        unique_hashes(issues),
        records.len() == issues.len(),
        forall|k: int| 0 <= k < issues.len() ==> (#[trigger] issues[k]).wf() && bounded_view(issues[k]),
        forall|k: int|
            0 <= k < issues.len() ==> (#[trigger] records[k]).0 == issues[k].hash && records[k].1
                == spec_record(issues[k]),
    ensures
        records_encode_seq(records, issues),
        forall|reloaded: Seq<IssueView>|
            (reloaded.len() == records.len() && (forall|k: int|
                0 <= k < records.len() ==> bounded_view(#[trigger] reloaded[k]) && spec_record(
                    reloaded[k],
                ) == records[k].1)) ==> reloaded =~= issues,
{
    assert forall|k: int|
        0 <= k < records.len() implies encodes((#[trigger] records[k]).1, #[trigger] issues[k])
            && issues[k].hash == records[k].0 by {
        assert(encodes(records[k].1, issues[k]));
    }
    assert forall|reloaded: Seq<IssueView>|
        (reloaded.len() == records.len() && (forall|k: int|
            0 <= k < records.len() ==> bounded_view(#[trigger] reloaded[k]) && spec_record(
                reloaded[k],
            ) == records[k].1)) implies reloaded =~= issues by {
        assert forall|k: int| 0 <= k < reloaded.len() implies reloaded[k] == issues[k] by {
            lemma_spec_record_injective(reloaded[k], issues[k]);
        }
    }
}

} // verus!
