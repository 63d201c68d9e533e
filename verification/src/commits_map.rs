//! The ledger: which local commit each remote commit was replayed as.

use std::collections::HashMap;
use vstd::prelude::*;
use vstd::string::StringExecFns;
use crate::commit::{Commit, CommitView};
use crate::error::Error;
use crate::oid::{bytes_of_hex, hex_of, is_hex_id, oid_refusal, read_tag_id, CommitId};
use crate::tag::{commit_tag, retrieve_ripit_tag};

verus! {

/// The local counterpart of a remote commit.
#[derive(Clone, Copy, Debug, PartialEq, Eq)]
pub struct SyncedCommit {
    /// The local commit.
    pub commit: CommitId,
    /// Whether it was replayed without all of its true ancestry.
    pub uprooted: bool,
}

/// The mathematical value of a [`SyncedCommit`].
pub struct SyncedView {
    pub commit: Seq<u8>,
    pub uprooted: bool,
}

impl View for SyncedCommit {
    type V = SyncedView;

    open spec fn view(&self) -> SyncedView {
        SyncedView { commit: self.commit@, uprooted: self.uprooted }
    }
}

/// The mathematical value of a ledger: a partial map from the identity of a
/// remote commit to its local counterpart.
pub type Ledger = Map<Seq<u8>, SyncedView>;

/// The ledger after an attempt to record `entry` for `id`: the first entry
/// recorded for an identity stays.
pub open spec fn ledger_insert(ledger: Ledger, id: Seq<u8>, entry: SyncedView) -> Ledger {
    if ledger.dom().contains(id) {
        ledger
    } else {
        ledger.insert(id, entry)
    }
}

/// Recording a second entry for an identity changes nothing: the ledger
/// stays as the first attempt left it, and so does the entry of that identity.
pub proof fn lemma_insert_twice(ledger: Ledger, id: Seq<u8>, first: SyncedView, second: SyncedView)
    ensures
        ledger_insert(ledger, id, first).dom().contains(id),
        ledger_insert(ledger_insert(ledger, id, first), id, second) == ledger_insert(
            ledger,
            id,
            first,
        ),
        !ledger.dom().contains(id) ==> ledger_insert(
            ledger_insert(ledger, id, first),
            id,
            second,
        )[id] == first,
{
}

struct Entry {
    remote: CommitId,
    synced: SyncedCommit,
}

/// The first eight bytes of an identity as one number: the key under which
/// the ledger finds the identity again.
spec fn prefix_of(id: Seq<u8>) -> u64 {
    (id[0] as u64 + id[1] as u64 * 0x100 + id[2] as u64 * 0x1_0000 + id[3] as u64 * 0x100_0000
        + id[4] as u64 * 0x1_0000_0000 + id[5] as u64 * 0x100_0000_0000 + id[6] as u64
        * 0x1_0000_0000_0000 + id[7] as u64 * 0x100_0000_0000_0000) as u64
}

fn prefix(oid: &CommitId) -> (key: u64)
    ensures
        key == prefix_of(oid@),
{
    let b = &oid.bytes;
    b[0] as u64 + b[1] as u64 * 0x100 + b[2] as u64 * 0x1_0000 + b[3] as u64 * 0x100_0000 + b[4] as u64
        * 0x1_0000_0000 + b[5] as u64 * 0x100_0000_0000 + b[6] as u64 * 0x1_0000_0000_0000 + b[7] as u64
        * 0x100_0000_0000_0000
}

/// The ledger of one run.
pub struct CommitsMap {
    /// The entries, in the order they were recorded.
    entries: Vec<Entry>,
    /// For each key, the positions of the entries whose remote identity has
    /// that key.
    index: HashMap<u64, Vec<usize>>,
}

impl View for CommitsMap {
    type V = Ledger;

    closed spec fn view(&self) -> Ledger {
        Map::new(
            |id: Seq<u8>| exists|i: int| self.holds_at(id, i),
            |id: Seq<u8>| self.entries[choose|i: int| self.holds_at(id, i)].synced@,
        )
    }
}

/// Whether no remote identity occurs twice among the entries.
spec fn distinct(entries: Seq<Entry>) -> bool {
    forall|i: int, j: int| 0 <= i < j < entries.len() ==> entries[i].remote@ != entries[j].remote@
}

/// Whether the index leads to every entry, and to entries only.
spec fn indexed(entries: Seq<Entry>, index: Map<u64, Vec<usize>>) -> bool {
    &&& forall|i: int|
        0 <= i < entries.len() ==> index.contains_key(prefix_of(#[trigger] entries[i].remote@))
            && index[prefix_of(entries[i].remote@)]@.contains(i as usize)
    &&& forall|key: u64, j: int|
        index.contains_key(key) && 0 <= j < index[key]@.len() ==> (#[trigger] index[key]@[j])
            < entries.len()
}

impl CommitsMap {
    spec fn holds_at(&self, id: Seq<u8>, i: int) -> bool {
        0 <= i < self.entries.len() && self.entries[i].remote@ == id
    }

    #[verifier::type_invariant]
    spec fn well_formed(&self) -> bool {
        distinct(self.entries@) && indexed(self.entries@, self.index@)
    }

    /// An empty ledger.
    pub fn new() -> (map: CommitsMap)
        ensures
            map@ == Map::<Seq<u8>, SyncedView>::empty(),
    {
        let map = CommitsMap { entries: Vec::new(), index: HashMap::new() };
        assert(map@ =~= Map::<Seq<u8>, SyncedView>::empty());
        map
    }

    fn position(&self, oid: &CommitId) -> (r: Option<usize>)
        ensures
            match r {
                Some(i) => self.holds_at(oid@, i as int),
                None => forall|i: int| !self.holds_at(oid@, i),
            },
    {
        proof {
            use_type_invariant(self);
        }
        let key = prefix(oid);
        let bucket = match self.index.get(&key) {
            Some(bucket) => bucket,
            None => {
                return None;
            },
        };
        let mut j: usize = 0;
        while j < bucket.len()
            invariant
                j <= bucket.len(),
                indexed(self.entries@, self.index@),
                self.index@.contains_key(key),
                *bucket == self.index@[key],
                forall|k: int| 0 <= k < j ==> !self.holds_at(oid@, #[trigger] bucket@[k] as int),
            decreases bucket.len() - j,
        {
            let i = bucket[j];
            if self.entries[i].remote.same(oid) {
                return Some(i);
            }
            j += 1;
        }
        assert forall|i: int| !self.holds_at(oid@, i) by {
            if self.holds_at(oid@, i) {
                assert(bucket@.contains(i as usize));
                let k = choose|k: int| 0 <= k < bucket@.len() && bucket@[k] == i as usize;
                assert(!self.holds_at(oid@, bucket@[k] as int));
            }
        }
        None
    }

    /// Whether the remote commit `oid` has a local counterpart.
    pub fn contains_key(&self, oid: &CommitId) -> (r: bool)
        ensures
            r == self@.dom().contains(oid@),
    {
        self.position(oid).is_some()
    }

    /// The local counterpart of the remote commit `oid`.
    pub fn get(&self, oid: &CommitId) -> (r: Option<&SyncedCommit>)
        ensures
            match r {
                Some(entry) => self@.dom().contains(oid@) && self@[oid@] == entry@,
                None => !self@.dom().contains(oid@),
            },
    {
        proof {
            use_type_invariant(self);
        }
        match self.position(oid) {
            Some(i) => {
                assert(forall|j: int| self.holds_at(oid@, j) ==> j == i);
                Some(&self.entries[i].synced)
            },
            None => None,
        }
    }

    /// Records `val` as the local counterpart of the remote commit `oid`,
    /// unless it has one already. Returns whether the entry was recorded.
    pub fn insert(&mut self, oid: CommitId, val: SyncedCommit) -> (r: bool)
        ensures
            r == !old(self)@.dom().contains(oid@),
            final(self)@ == ledger_insert(old(self)@, oid@, val@),
    {
        proof {
            use_type_invariant(&*self);
        }
        if self.position(&oid).is_some() {
            return false;
        }
        let ghost before = *self;
        let mut taken = CommitsMap::new();
        core::mem::swap(self, &mut taken);
        let CommitsMap { entries, index } = taken;
        let mut entries = entries;
        let mut index = index;
        let key = prefix(&oid);
        let at = entries.len();
        let mut bucket = match index.remove(&key) {
            Some(bucket) => bucket,
            None => Vec::new(),
        };
        bucket.push(at);
        index.insert(key, bucket);
        entries.push(Entry { remote: oid, synced: val });
        proof {
            let n = before.entries.len() as int;
            assert(entries@ == before.entries@.push(Entry { remote: oid, synced: val }));
            assert forall|i: int, j: int| 0 <= i < j < entries.len() implies entries[i].remote@
                != entries[j].remote@ by {
                if j == n {
                    assert(!before.holds_at(oid@, i));
                }
            }
            assert forall|i: int| 0 <= i < entries.len() implies index@.contains_key(
                prefix_of(#[trigger] entries[i].remote@),
            ) && index@[prefix_of(entries[i].remote@)]@.contains(i as usize) by {
                let k = prefix_of(entries[i].remote@);
                if i == n {
                    assert(bucket@[bucket@.len() - 1] == at);
                } else {
                    assert(entries[i] == before.entries[i]);
                    if k == key {
                        let old_bucket = before.index@[key]@;
                        let p = choose|p: int| 0 <= p < old_bucket.len() && old_bucket[p] == i as usize;
                        assert(bucket@[p] == i as usize);
                    }
                }
            }
            assert forall|k: u64, j: int|
                index@.contains_key(k) && 0 <= j < index@[k]@.len() implies (#[trigger] index@[k]@[j])
                < entries.len() by {
                if k == key {
                    if j < bucket@.len() - 1 {
                        assert(before.index@.contains_key(key));
                        assert(bucket@[j] == before.index@[key]@[j]);
                    }
                } else {
                    assert(before.index@.contains_key(k));
                    assert(index@[k] == before.index@[k]);
                }
            }
        }
        *self = CommitsMap { entries, index };
        proof {
            let after = *self;
            let n = before.entries.len() as int;
            assert(after.holds_at(oid@, n));
            assert forall|id: Seq<u8>| #![auto] after@.dom().contains(id) == before@.insert(
                oid@,
                val@,
            ).dom().contains(id) by {
                if before@.dom().contains(id) {
                    let i = choose|i: int| before.holds_at(id, i);
                    assert(after.holds_at(id, i));
                }
                if after@.dom().contains(id) && id != oid@ {
                    let i = choose|i: int| after.holds_at(id, i);
                    assert(before.holds_at(id, i));
                }
            }
            assert forall|id: Seq<u8>| #![auto] after@.dom().contains(id) implies after@[id]
                == before@.insert(oid@, val@)[id] by {
                let i = choose|i: int| after.holds_at(id, i);
                if id == oid@ {
                    assert(after.holds_at(id, n));
                    assert(i == n);
                } else {
                    assert(before.holds_at(id, i));
                    let j = choose|j: int| before.holds_at(id, j);
                    assert(after.holds_at(id, j));
                    assert(i == j);
                }
            }
            assert(after@ =~= before@.insert(oid@, val@));
        }
        true
    }

    /// Records `val` as [`CommitsMap::insert`] does, for a ledger that is
    /// cached in a file: returns the line to append to the cache, which
    /// names the local commit, where the entry was recorded.
    pub fn insert_cached(&mut self, oid: CommitId, val: SyncedCommit) -> (line: Option<String>)
        ensures
            line is Some <==> !old(self)@.dom().contains(oid@),
            line matches Some(text) ==> text@ == hex_of(val.commit@).push('\n'),
            final(self)@ == ledger_insert(old(self)@, oid@, val@),
    {
        if self.insert(oid, val) {
            Some(val.commit.to_line())
        } else {
            None
        }
    }

    /// The number of remote commits that have a local counterpart.
    pub fn len(&self) -> (n: usize)
        ensures
            n == self@.dom().len(),
            self@.dom().finite(),
    {
        proof {
            use_type_invariant(self);
            self.lemma_len(self.entries.len() as int);
        }
        self.entries.len()
    }

    spec fn prefix_ids(&self, n: int) -> Set<Seq<u8>> {
        Set::new(|id: Seq<u8>| exists|i: int| 0 <= i < n && self.holds_at(id, i))
    }

    proof fn lemma_len(&self, n: int)
        requires
            distinct(self.entries@),
            0 <= n <= self.entries.len(),
        ensures
            self.prefix_ids(n).finite(),
            self.prefix_ids(n).len() == n,
            n == self.entries.len() ==> self.prefix_ids(n) == self@.dom(),
        decreases n,
    {
        if n == 0 {
            assert(self.prefix_ids(0) =~= Set::<Seq<u8>>::empty());
        } else {
            self.lemma_len(n - 1);
            let last = self.entries[n - 1].remote@;
            assert(self.holds_at(last, n - 1));
            assert(!self.prefix_ids(n - 1).contains(last));
            assert(self.prefix_ids(n) =~= self.prefix_ids(n - 1).insert(last));
        }
        if n == self.entries.len() {
            assert(self.prefix_ids(n) =~= self@.dom());
        }
    }
}

/// The views of a list of commits.
pub open spec fn commits_view(commits: Seq<Commit>) -> Seq<CommitView> {
    commits.map_values(|c: Commit| c@)
}

/// The remote identity that the tag of a commit names, where the commit
/// carries a well-formed tag.
pub open spec fn tagged_remote(commit: CommitView) -> Option<Seq<u8>> {
    match commit_tag(commit) {
        Some((text, _)) => if is_hex_id(text) {
            Some(bytes_of_hex(text))
        } else {
            None
        },
        None => None,
    }
}

/// The ledger entry that a tagged local commit stands for.
pub open spec fn tagged_entry(commit: CommitView) -> SyncedView {
    SyncedView {
        commit: commit.id,
        uprooted: match commit_tag(commit) {
            Some((_, uprooted)) => uprooted,
            None => false,
        },
    }
}

/// What registering `commit` answers: how the walk goes on, or what the
/// repository says of a tag that holds no identity.
pub open spec fn register_outcome(ledger: Ledger, commit: CommitView) -> Result<
    Registered,
    Seq<char>,
> {
    match commit_tag(commit) {
        None => Ok(Registered::Untagged),
        Some((text, _)) => match tagged_remote(commit) {
            None => Err(oid_refusal(text).unwrap()),
            Some(remote) => if ledger.dom().contains(remote) {
                Ok(Registered::Known)
            } else {
                Ok(Registered::Recorded)
            },
        },
    }
}

/// The ledger after `commit` was registered: with its entry, where it
/// carries a well-formed tag and its remote commit had none.
pub open spec fn register_ledger(ledger: Ledger, commit: CommitView) -> Ledger {
    match tagged_remote(commit) {
        Some(remote) => ledger_insert(ledger, remote, tagged_entry(commit)),
        None => ledger,
    }
}

/// The ledger after the commits of `walk` were registered one after the
/// other: a commit without a tag is passed over, a tagged one is recorded,
/// and the walk ends at the first commit whose remote identity is known
/// already, or whose tag is malformed.
pub open spec fn filled(ledger: Ledger, walk: Seq<CommitView>) -> Ledger
    decreases walk.len(),
{
    if walk.len() == 0 {
        ledger
    } else {
        match register_outcome(ledger, walk[0]) {
            Ok(Registered::Known) | Err(_) => ledger,
            Ok(_) => filled(register_ledger(ledger, walk[0]), walk.drop_first()),
        }
    }
}

/// What the repository says of the malformed tag that ends the walk, where
/// one does.
pub open spec fn fill_failure(ledger: Ledger, walk: Seq<CommitView>) -> Option<Seq<char>>
    decreases walk.len(),
{
    if walk.len() == 0 {
        None
    } else {
        match register_outcome(ledger, walk[0]) {
            Err(said) => Some(said),
            Ok(Registered::Known) => None,
            Ok(_) => fill_failure(register_ledger(ledger, walk[0]), walk.drop_first()),
        }
    }
}

/// What registering one commit of a walk did.
#[derive(Clone, Copy, Debug, PartialEq, Eq)]
pub enum Registered {
    /// The commit carries no tag: the walk goes on.
    Untagged,
    /// The commit was recorded: the walk goes on.
    Recorded,
    /// The remote commit that the tag names was known already: the walk ends.
    Known,
}

impl CommitsMap {
    /// Registers one local commit for a ledger that is cached in a file:
    /// where it carries a tag, records it as the counterpart of the remote
    /// commit that the tag names. Returns, beside what it did, the line to
    /// append to the cache where the commit was recorded.
    pub fn register_cached(&mut self, commit: &Commit) -> (r: Result<
        (Registered, Option<String>),
        Error,
    >)
        ensures
            final(self)@ == register_ledger(old(self)@, commit@),
            match r {
                Ok((did, line)) => {
                    &&& register_outcome(old(self)@, commit@) == Ok::<Registered, Seq<char>>(did)
                    &&& line is Some <==> did == Registered::Recorded
                    &&& line matches Some(text) ==> text@ == hex_of(commit@.id).push('\n')
                },
                Err(e) => e matches Error::Git { message } && register_outcome(
                    old(self)@,
                    commit@,
                ) == Err::<Registered, Seq<char>>(message@),
            },
    {
        let (text, uprooted) = match retrieve_ripit_tag(commit) {
            Some(tag) => tag,
            None => {
                return Ok((Registered::Untagged, None));
            },
        };
        let remote = match read_tag_id(text.as_str()) {
            Ok(id) => id,
            Err(message) => {
                return Err(Error::Git { message });
            },
        };
        match self.insert_cached(remote, SyncedCommit { commit: commit.id, uprooted }) {
            Some(line) => Ok((Registered::Recorded, Some(line))),
            None => Ok((Registered::Known, None)),
        }
    }

    /// Registers one local commit: where it carries a tag, records it as the
    /// counterpart of the remote commit that the tag names.
    pub fn register(&mut self, commit: &Commit) -> (r: Result<Registered, Error>)
        ensures
            final(self)@ == register_ledger(old(self)@, commit@),
            match r {
                Ok(did) => register_outcome(old(self)@, commit@) == Ok::<Registered, Seq<char>>(did),
                Err(e) => e matches Error::Git { message } && register_outcome(
                    old(self)@,
                    commit@,
                ) == Err::<Registered, Seq<char>>(message@),
            },
    {
        match self.register_cached(commit) {
            Ok((did, _)) => Ok(did),
            Err(e) => Err(e),
        }
    }

    /// Registers the commits of a walk from a branch tip towards the roots,
    /// up to the first one whose remote commit is known already.
    pub fn fill_from_commit(&mut self, walk: &Vec<Commit>) -> (r: Result<(), Error>)
        ensures
            final(self)@ == filled(old(self)@, commits_view(walk@)),
            match r {
                Ok(_) => fill_failure(old(self)@, commits_view(walk@)) is None,
                Err(e) => e matches Error::Git { message } && fill_failure(
                    old(self)@,
                    commits_view(walk@),
                ) == Some(message@),
            },
    {
        let ghost views = commits_view(walk@);
        let ghost start = self@;
        let mut i: usize = 0;
        assert(views.skip(0) =~= views);
        while i < walk.len()
            invariant
                i <= walk.len(),
                views == commits_view(walk@),
                start == old(self)@,
                filled(start, views) == filled(self@, views.skip(i as int)),
                fill_failure(start, views) == fill_failure(self@, views.skip(i as int)),
            decreases walk.len() - i,
        {
            proof {
                assert(views.skip(i as int)[0] == walk@[i as int]@);
                assert(views.skip(i as int).drop_first() =~= views.skip(i + 1));
            }
            match self.register(&walk[i]) {
                Ok(Registered::Known) => {
                    return Ok(());
                },
                Ok(_) => {},
                Err(e) => {
                    return Err(e);
                },
            }
            i += 1;
        }
        Ok(())
    }
}

// Loading the ledger from its cache, which lists one local commit per line.
// The caller reads each line and looks up the commit that it names.

/// What the error for a cached commit without a tag says.
pub const UNTAGGED: &'static str = "Commit does not have a ripit tag";

/// The error for the line `line_number` of the cache `filename`.
pub fn cache_line_error(desc: String, filename: &str, line: &str, line_number: usize) -> (e: Error)
    ensures
        e matches Error::CacheInvalidLine { desc: d, filename: f, line: l, line_number: n } && d@
            == desc@ && f@ == filename@ && l@ == line@ && n == line_number,
{
    Error::CacheInvalidLine {
        desc,
        filename: filename.to_owned(),
        line: line.to_owned(),
        line_number,
    }
}

/// The ledger entry that a cached local commit stands for, with the remote
/// identity it belongs to, or why the commit stands for none.
pub fn parse_cache_mapping(commit: &Commit) -> (r: Result<(CommitId, SyncedCommit), String>)
    ensures
        match r {
            Ok((remote, synced)) => tagged_remote(commit@) == Some(remote@) && synced@
                == tagged_entry(commit@),
            Err(desc) => match commit_tag(commit@) {
                None => desc@ == UNTAGGED@,
                Some((text, _)) => !is_hex_id(text) && Some(desc@) == oid_refusal(text),
            },
        },
{
    let (text, uprooted) = match retrieve_ripit_tag(commit) {
        Some(tag) => tag,
        None => {
            return Err(UNTAGGED.to_owned());
        },
    };
    match read_tag_id(text.as_str()) {
        Ok(remote) => Ok((remote, SyncedCommit { commit: commit.id, uprooted })),
        Err(said) => Err(said),
    }
}

/// Whether a cached commit stands for a ledger entry.
pub open spec fn cache_entry_valid(found: Result<Commit, String>) -> bool {
    found matches Ok(commit) && tagged_remote(commit@) is Some
}

impl CommitsMap {
    /// Takes in one line of the cache. `found` is the commit that the line
    /// names, or why the repository has none. The entry is recorded unless
    /// its remote commit has one already; a line that names no replayed
    /// commit is an error.
    pub fn load_cache_line(
        &mut self,
        found: Result<Commit, String>,
        filename: &str,
        line: &str,
        line_number: usize,
    ) -> (r: Result<(), Error>)
        ensures
            r is Ok <==> cache_entry_valid(found),
            match r {
                Ok(_) => final(self)@ == ledger_insert(
                    old(self)@,
                    tagged_remote(found->Ok_0@).unwrap(),
                    tagged_entry(found->Ok_0@),
                ),
                Err(e) => {
                    &&& final(self)@ == old(self)@
                    &&& e matches Error::CacheInvalidLine {
                        desc,
                        filename: f,
                        line: l,
                        line_number: n,
                    } && f@ == filename@ && l@ == line@ && n == line_number && desc@ == (match found {
                        Err(why) => why@,
                        Ok(commit) => match commit_tag(commit@) {
                            None => UNTAGGED@,
                            Some((text, _)) => oid_refusal(text).unwrap(),
                        },
                    })
                },
            },
    {
        let mapping = match found {
            Ok(commit) => parse_cache_mapping(&commit),
            Err(why) => Err(why),
        };
        match mapping {
            Ok((remote, synced)) => {
                self.insert(remote, synced);
                Ok(())
            },
            Err(desc) => Err(cache_line_error(desc, filename, line, line_number)),
        }
    }
}

} // verus!
