//! The on-disk storage layer, modelled as explicit state.
//!
//! A repository is a directory holding a metadata directory; every issue
//! lives in one record file named by its hash, beside a small configuration
//! record.  This module owns every decision about that layout: where the
//! root is among a chain of candidate directories, when initializing is
//! allowed, which records exist, what each file holds and what its name
//! means.  The thin shell around the library performs the actual reads,
//! writes and existence checks and mirrors this state onto disk; it makes
//! no decision of its own.

use vstd::prelude::*;

use crate::ids::{hash_text, IssueHash};
use crate::Error;

verus! {

/// Process-wide repository configuration: an optional default user name.
pub struct Config {
    user: Option<String>,
}

impl View for Config {
    type V = Option<Seq<char>>;

    closed spec fn view(&self) -> Option<Seq<char>> {
        match self.user {
            Some(u) => Some(u@),
            None => None,
        }
    }
}

/// The persisted text of a configuration: a presence flag, then the name.
pub open spec fn spec_config(user: Option<Seq<char>>) -> Seq<char> {
    match user {
        None => seq!['0'],
        Some(u) => seq!['1'] + u,
    }
}

impl Config {
    /// A configuration with the given default user.
    pub fn new(user: Option<String>) -> (r: Config)
        ensures
            r@ == (match user {
                Some(u) => Some(u@),
                None => None::<Seq<char>>,
            }),
    {
        Config { user }
    }

    /// The default user name, if one is configured.
    pub fn user(&self) -> (r: &Option<String>)
        ensures
            (r is Some <==> self@ is Some),
            r is Some ==> r->0@ == self@->0,
    {
        &self.user
    }

    /// The persisted text of this configuration.
    pub fn to_text(&self) -> (r: String)
        ensures
            r@ == spec_config(self@),
    {
        proof {
            reveal_strlit("0");
            reveal_strlit("1");
        }
        match &self.user {
            None => {
                let r = "0".to_owned();
                assert(r@ =~= spec_config(self@));
                r
            },
            Some(u) => {
                let mut r = "1".to_owned();
                r.append(u.as_str());
                assert(r@ =~= spec_config(self@));
                r
            },
        }
    }

    /// Parses a persisted configuration.  Succeeds exactly on the texts
    /// that `to_text` writes and recovers the configured user unchanged.
    pub fn parse(s: &str) -> (r: Result<Config, Error>)
        ensures
            r is Ok <==> (exists|u: Option<Seq<char>>| s@ == spec_config(u)),
            r is Ok ==> s@ == spec_config(r->Ok_0@),
            r is Err ==> (r->Err_0 matches Error::ParseError(t) && t@ == s@),
    {
        let n = s.unicode_len();
        if n == 0 {
            proof {
                assert forall|u: Option<Seq<char>>| s@ != spec_config(u) by {}
            }
            return Err(Error::ParseError(s.to_owned()));
        }
        let c = s.get_char(0);
        if c == '0' {
            if n != 1 {
                proof {
                    assert forall|u: Option<Seq<char>>| s@ != spec_config(u) by {
                        if u is Some {
                            assert(spec_config(u)[0] == '1');
                        }
                    }
                }
                return Err(Error::ParseError(s.to_owned()));
            }
            let r = Config { user: None };
            assert(s@ =~= spec_config(r@));
            proof {
                assert(s@ == spec_config(None::<Seq<char>>));
            }
            Ok(r)
        } else if c == '1' {
            let u = s.substring_char(1, n).to_owned();
            let r = Config { user: Some(u) };
            assert(s@ =~= spec_config(r@));
            Ok(r)
        } else {
            proof {
                assert forall|u: Option<Seq<char>>| s@ != spec_config(u) by {
                    if u is Some {
                        assert(spec_config(u)[0] == '1');
                    } else {
                        assert(spec_config(u)[0] == '0');
                    }
                }
            }
            Err(Error::ParseError(s.to_owned()))
        }
    }
}

/// The storage state as plain values: the repository root path, the
/// configured user, and the persisted records as hash and text pairs.
#[verifier::ext_equal]
pub struct StorageView {
    pub root: Seq<char>,
    pub user: Option<Seq<char>>,
    pub records: Seq<(u64, Seq<char>)>,
}

impl StorageView {
    /// Record keys are unique: one file per issue.
    pub open spec fn wf(self) -> bool {
        forall|i: int, j: int|
            0 <= i < j < self.records.len() ==> (#[trigger] self.records[i]).0 != (
            #[trigger] self.records[j]).0
    }

    /// Whether a record with the given key is present.
    pub open spec fn has_record(self, h: u64) -> bool {
        exists|k: int| 0 <= k < self.records.len() && (#[trigger] self.records[k]).0 == h
    }
}

/// The repository's view of the disk: its root, its configuration, and
/// one record per issue, keyed by the issue's hash.
pub struct IssueStorage {
    root: String,
    config: Config,
    records: Vec<(IssueHash, String)>,
}

/// The views of a vector of keyed records.
pub open spec fn records_view(recs: Seq<(IssueHash, String)>) -> Seq<(u64, Seq<char>)> {
    recs.map_values(|p: (IssueHash, String)| (p.0@, p.1@))
}

impl View for IssueStorage {
    type V = StorageView;

    closed spec fn view(&self) -> StorageView {
        StorageView { root: self.root@, user: self.config@, records: records_view(self.records@) }
    }
}

impl IssueStorage {
    /// The name of the metadata directory that marks a repository root.
    pub fn marker_dir_name() -> (r: String)
        ensures
            r@ == ".cobweb"@,
    {
        ".cobweb".to_owned()
    }

    /// The file name of one issue's record: the hash's canonical text.
    pub fn record_file_name(hash: &IssueHash) -> (r: String)
        ensures
            r@ == hash_text(hash@),
    {
        hash.to_text()
    }

    /// Initializes a fresh repository at the given path.  `marker_present`
    /// reports whether the metadata directory already exists there; if it
    /// does, initialization is refused with `AlreadyExists`, otherwise the
    /// new repository is empty and unconfigured.
    pub fn init(path: &str, marker_present: bool) -> (r: Result<IssueStorage, Error>)
        ensures
            r is Ok <==> !marker_present,
            r is Ok ==> r->Ok_0@ == (StorageView {
                root: path@,
                user: None,
                records: Seq::empty(),
            }),
            r is Err ==> r->Err_0 == Error::AlreadyExists,
    {
        if marker_present {
            Err(Error::AlreadyExists)
        } else {
            let r = IssueStorage {
                root: path.to_owned(),
                config: Config { user: None },
                records: Vec::new(),
            };
            assert(records_view(r.records@) =~= Seq::<(u64, Seq<char>)>::empty());
            assert(r@ =~= (StorageView { root: path@, user: None, records: Seq::empty() }));
            Ok(r)
        }
    }

    /// Locates the repository root among the ancestors of a starting
    /// directory.  `chain` holds the starting directory and its ancestors,
    /// nearest first; `has_marker` reports, for each, whether it holds the
    /// metadata directory.  The nearest marked ancestor becomes the root;
    /// with none, discovery fails with `NotFound`.
    pub fn find_from_path(chain: &Vec<String>, has_marker: &Vec<bool>) -> (r: Result<
        IssueStorage,
        Error,
    >)
        requires
            chain@.len() == has_marker@.len(),
        ensures
            r is Ok <==> (exists|k: int| 0 <= k < has_marker@.len() && has_marker@[k]),
            r is Ok ==> exists|k: int|
                0 <= k < has_marker@.len() && has_marker@[k] && (forall|j: int|
                    0 <= j < k ==> !has_marker@[j]) && r->Ok_0@ == (StorageView {
                    root: chain@[k]@,
                    user: None,
                    records: Seq::empty(),
                }),
            r is Err ==> r->Err_0 == Error::NotFound,
    {
        let n = chain.len();
        let mut i: usize = 0;
        while i < n
            invariant
                i <= n,
                n == chain@.len() == has_marker@.len(),
                forall|j: int| 0 <= j < i ==> !has_marker@[j],
            decreases n - i,
        {
            if has_marker[i] {
                let r = IssueStorage {
                    root: (&chain[i]).clone(),
                    config: Config { user: None },
                    records: Vec::new(),
                };
                assert(records_view(r.records@) =~= Seq::<(u64, Seq<char>)>::empty());
                assert(r@ =~= (StorageView {
                    root: chain@[i as int]@,
                    user: None,
                    records: Seq::empty(),
                }));
                return Ok(r);
            }
            i = i + 1;
        }
        Err(Error::NotFound)
    }

    /// The repository root directory.
    pub fn root(&self) -> (r: &String)
        ensures
            r@ == self@.root,
    {
        &self.root
    }

    /// The repository configuration.
    pub fn config(&self) -> (r: &Config)
        ensures
            r@ == self@.user,
    {
        &self.config
    }

    /// Replaces the configuration from its persisted text, as found in the
    /// repository's configuration record.
    pub fn load_config(&mut self, text: &str) -> (r: Result<(), Error>)
        ensures
            r is Ok <==> (exists|u: Option<Seq<char>>| text@ == spec_config(u)),
            r is Ok ==> final(self)@ == (StorageView {
                user: choose|u: Option<Seq<char>>| text@ == spec_config(u),
                ..old(self)@
            }) && text@ == spec_config(final(self)@.user),
            r is Err ==> *final(self) == *old(self),
    {
        match Config::parse(text) {
            Ok(c) => {
                proof {
                    let u = choose|u: Option<Seq<char>>| text@ == spec_config(u);
                    assert(spec_config(u) == spec_config(c@));
                    if u is Some && c@ is Some {
                        assert(spec_config(u)[0] == '1');
                        assert(u->0 =~= c@->0) by {
                            assert forall|m: int| 0 <= m < u->0.len() implies u->0[m] == c@->0[m]
                                by {
                                assert(spec_config(u)[m + 1] == u->0[m]);
                                assert(spec_config(c@)[m + 1] == c@->0[m]);
                            }
                        }
                    } else if u is Some {
                        assert(spec_config(u)[0] == '1' && spec_config(c@)[0] == '0');
                    } else if c@ is Some {
                        assert(spec_config(u)[0] == '0' && spec_config(c@)[0] == '1');
                    }
                    assert(u == c@);
                }
                self.config = c;
                assert(self@ =~= (StorageView {
                    user: choose|u: Option<Seq<char>>| text@ == spec_config(u),
                    ..old(self)@
                }));
                Ok(())
            },
            Err(e) => Err(e),
        }
    }

    /// The position of the record with the given hash, if one is there.
    fn index_of(&self, hash: &IssueHash) -> (r: Option<usize>)
        ensures
            r is Some ==> r->0 < self@.records.len() && self@.records[r->0 as int].0 == hash@,
            r is None ==> !self@.has_record(hash@),
    {
        let n = self.records.len();
        let mut i: usize = 0;
        while i < n
            invariant
                i <= n,
                n == self.records@.len(),
                self@.records.len() == n,
                forall|k: int| 0 <= k < i ==> (#[trigger] self@.records[k]).0 != hash@,
            decreases n - i,
        {
            proof {
                let ghost p = self.records@[i as int];
                assert(self@.records[i as int] == (p.0@, p.1@));
            }
            if (&self.records[i].0).same(hash) {
                return Some(i);
            }
            i = i + 1;
        }
        None
    }

    /// Whether a record for the given hash is persisted, without loading
    /// the record itself.
    pub fn issue_exists(&self, hash: &IssueHash) -> (r: bool)
        ensures
            r == self@.has_record(hash@),
    {
        match self.index_of(hash) {
            Some(i) => {
                proof {
                    assert(self@.records[i as int].0 == hash@);
                }
                true
            },
            None => false,
        }
    }

    /// Removes exactly one issue's record.  Fails with `NotFound` when no
    /// record has the hash, leaving the storage unchanged; otherwise the
    /// record is gone and everything else is kept in order.
    pub fn remove_issue(&mut self, hash: &IssueHash) -> (r: Result<(), Error>)
        requires
            old(self)@.wf(),
        ensures
            r is Ok <==> old(self)@.has_record(hash@),
            r is Ok ==> exists|k: int|
                0 <= k < old(self)@.records.len() && (#[trigger] old(self)@.records[k]).0 == hash@
                    && final(self)@ == (StorageView {
                    records: old(self)@.records.remove(k),
                    ..old(self)@
                }),
            r is Err ==> *final(self) == *old(self) && r->Err_0 == Error::NotFound,
            final(self)@.wf(),
            !final(self)@.has_record(hash@),
    {
        match self.index_of(hash) {
            None => Err(Error::NotFound),
            Some(i) => {
                let ghost old_view = self@;
                self.records.remove(i);
                proof {
                    assert(old_view.records[i as int].0 == hash@);
                    assert(self@.records =~= old_view.records.remove(i as int));
                    assert(self@ =~= (StorageView {
                        records: old_view.records.remove(i as int),
                        ..old_view
                    }));
                    assert forall|a: int, b: int|
                        0 <= a < b < self@.records.len() implies (#[trigger] self@.records[a]).0
                        != (#[trigger] self@.records[b]).0 by {
                        let a0: int = if a < i { a } else { a + 1 };
                        let b0: int = if b < i { b } else { b + 1 };
                        assert(self@.records[a] == old_view.records[a0]);
                        assert(self@.records[b] == old_view.records[b0]);
                    }
                    assert forall|k: int|
                        0 <= k < self@.records.len() implies (#[trigger] self@.records[k]).0
                        != hash@ by {
                        let k0: int = if k < i { k } else { k + 1 };
                        assert(self@.records[k] == old_view.records[k0]);
                        if k0 != i {
                            assert(old_view.records[k0].0 != old_view.records[i as int].0);
                        }
                    }
                }
                Ok(())
            },
        }
    }

    /// Takes one record in from disk, keyed by its file name, which must
    /// be an issue hash's canonical text; any other name is rejected with
    /// `ParseError`.  A record with the same key is replaced.
    pub fn add_record(&mut self, name: &str, text: String) -> (r: Result<(), Error>)
        requires
            old(self)@.wf(),
        ensures
            r is Ok <==> crate::ids::valid_hash_text(name@),
            r is Ok ==> final(self)@.root == old(self)@.root && final(self)@.user == old(
                self,
            )@.user && (exists|k: int|
                0 <= k < final(self)@.records.len() && (#[trigger] final(self)@.records[k]) == (
                crate::hex::hex_value(name@) as u64,
                text@,
            )),
            r is Err ==> *final(self) == *old(self),
            final(self)@.wf(),
    {
        let hash = match IssueHash::parse(name) {
            Ok(h) => h,
            Err(e) => {
                return Err(e);
            },
        };
        proof {
            crate::hex::lemma_pow16_values();
            crate::hex::lemma_hex_value_bound(name@);
        }
        match self.index_of(&hash) {
            Some(i) => {
                let ghost old_view = self@;
                self.records.set(i, (hash, text));
                proof {
                    assert(self@.records =~= old_view.records.update(i as int, (hash@, text@)));
                    assert(self@.records[i as int] == (hash@, text@));
                    assert forall|a: int, b: int|
                        0 <= a < b < self@.records.len() implies (#[trigger] self@.records[a]).0
                        != (#[trigger] self@.records[b]).0 by {
                        if a != i {
                            assert(self@.records[a] == old_view.records[a]);
                        }
                        if b != i {
                            assert(self@.records[b] == old_view.records[b]);
                        }
                        if a != i && b != i {
                        } else {
                            assert(old_view.records[i as int].0 == hash@);
                        }
                    }
                    assert(self@ =~= (StorageView {
                        records: old_view.records.update(i as int, (hash@, text@)),
                        ..old_view
                    }));
                }
                Ok(())
            },
            None => {
                let ghost old_view = self@;
                let n = self.records.len();
                self.records.push((hash, text));
                proof {
                    assert(self@.records =~= old_view.records.push((hash@, text@)));
                    assert(self@.records[n as int] == (hash@, text@));
                    assert forall|a: int, b: int|
                        0 <= a < b < self@.records.len() implies (#[trigger] self@.records[a]).0
                        != (#[trigger] self@.records[b]).0 by {
                        assert(self@.records[a] == old_view.records[a]);
                        if b < n {
                            assert(self@.records[b] == old_view.records[b]);
                        } else {
                            assert(!old_view.has_record(hash@));
                        }
                    }
                    assert(self@ =~= (StorageView {
                        records: old_view.records.push((hash@, text@)),
                        ..old_view
                    }));
                }
                Ok(())
            },
        }
    }

    /// The persisted records, for the handler to load and the shell to
    /// mirror onto disk.
    pub fn records(&self) -> (r: &Vec<(IssueHash, String)>)
        ensures
            records_view(r@) == self@.records,
    {
        &self.records
    }

    /// Replaces the persisted records wholesale; the handler stages the
    /// full collection here before the shell writes it out.
    pub(crate) fn set_records(&mut self, records: Vec<(IssueHash, String)>)
        ensures
            final(self)@ == (StorageView { records: records_view(records@), ..old(self)@ }),
    {
        self.records = records;
        assert(self@ =~= (StorageView { records: records_view(self.records@), ..old(self)@ }));
    }
}

/// Law: discovery started from the found root finds that root again.  If
/// the nearest marked ancestor of a starting directory stands at position
/// `k` of its ancestor chain, then the chain seen from that ancestor — the
/// tail of the original chain — has its marker at position zero, so
/// discovery from there yields the same root.
pub proof fn lemma_discovery_from_root(chain: Seq<Seq<char>>, marked: Seq<bool>, k: int)
    requires
        chain.len() == marked.len(),
        0 <= k < marked.len(),
        marked[k],
        forall|j: int| 0 <= j < k ==> !marked[j],
    ensures
        chain.skip(k).len() == marked.skip(k).len(),
        marked.skip(k)[0],
        chain.skip(k)[0] == chain[k],
{
}

} // verus!
