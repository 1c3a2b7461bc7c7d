use vstd::prelude::*;

use crate::timestamp::Timestamp;
use vstd::seq_lib::to_multiset_insert;

verus! {

/// The most commits a branch record ever holds: repositories can have
/// unbounded history, and the catalog only needs a display-sized window.
pub const MAX_ANCESTRY: usize = 100;

/// Whether a branch is tracked in the local repository or from a remote.
#[derive(Clone, Copy, Debug, PartialEq, Eq, Structural)]
pub enum BranchKind {
    Local,
    Remote,
}

/// A commit's author; either part may be absent.
#[derive(Clone, Debug)]
pub struct Author {
    pub name: Option<String>,
    pub email: Option<String>,
}

impl Author {
    /// The author name to display; absence is a valid, displayable state.
    pub fn display_name(&self) -> (r: &str)
        ensures
            match self.name {
                Option::Some(n) => r@ == n@,
                Option::None => r@ == "<none>"@,
            },
    {
        match &self.name {
            Option::Some(n) => n.as_str(),
            Option::None => "<none>",
        }
    }
}

/// An immutable record decoded from a native commit object.
#[derive(Clone, Debug)]
pub struct Commit {
    pub summary: String,
    pub message: String,
    pub author: Author,
    pub timestamp: Timestamp,
}

impl Commit {
    /// A valid record carries a decodable timestamp.
    pub open spec fn wf(self) -> bool {
        self.timestamp.wf()
    }
}

/// Whether `a` may precede `b` in a newest-first sequence.
pub open spec fn commit_le(a: Commit, b: Commit) -> bool {
    b.timestamp.epoch <= a.timestamp.epoch
}

/// A newest-first commit sequence: epochs never increase.
pub open spec fn commits_newest_first(s: Seq<Commit>) -> bool {
    forall|i: int, j: int| 0 <= i < j < s.len() ==> commit_le(s[i], s[j])
}

/// Where a commit lands when inserted into a newest-first sequence:
/// after every commit it may follow, so that commits with equal epochs
/// keep their existing order.
pub open spec fn insert_commit(s: Seq<Commit>, x: Commit) -> Seq<Commit>
    decreases s.len(),
{
    if s.len() == 0 {
        seq![x]
    } else if commit_le(s.last(), x) {
        s.push(x)
    } else {
        insert_commit(s.drop_last(), x).push(s.last())
    }
}

/// The stable newest-first ordering of a commit sequence: commits are
/// taken in traversal order and each is placed after all commits with
/// an equal or newer epoch, so ties keep traversal order.
pub open spec fn sort_commits_spec(s: Seq<Commit>) -> Seq<Commit>
    decreases s.len(),
{
    if s.len() == 0 {
        Seq::<Commit>::empty()
    } else {
        insert_commit(sort_commits_spec(s.drop_last()), s.last())
    }
}

proof fn lemma_insert_commit_at(s: Seq<Commit>, x: Commit, k: int)
    requires
        0 <= k <= s.len(),
        forall|j: int| k <= j < s.len() ==> !commit_le(s[j], x),
        k > 0 ==> commit_le(s[k - 1], x),
    ensures
        insert_commit(s, x) == s.insert(k, x),
    decreases s.len(),
{
    if s.len() == 0 {
        assert(insert_commit(s, x) =~= s.insert(0, x));
    } else if k == s.len() {
        assert(commit_le(s.last(), x));
        assert(insert_commit(s, x) =~= s.insert(k, x));
    } else {
        assert(!commit_le(s.last(), x));
        lemma_insert_commit_at(s.drop_last(), x, k);
        assert(insert_commit(s, x) == insert_commit(s.drop_last(), x).push(s.last()));
        assert(s.drop_last().insert(k, x).push(s.last()) =~= s.insert(k, x));
    }
}

proof fn lemma_commit_cut(s: Seq<Commit>, x: Commit) -> (k: int)
    requires
        commits_newest_first(s),
    ensures
        0 <= k <= s.len(),
        forall|j: int| k <= j < s.len() ==> !commit_le(s[j], x),
        k > 0 ==> commit_le(s[k - 1], x),
    decreases s.len(),
{
    if s.len() == 0 {
        0
    } else if commit_le(s.last(), x) {
        s.len() as int
    } else {
        assert(commits_newest_first(s.drop_last()));
        let k = lemma_commit_cut(s.drop_last(), x);
        assert forall|j: int| k <= j < s.len() implies !commit_le(s[j], x) by {
            if j < s.len() - 1 {
                assert(s.drop_last()[j] == s[j]);
            }
        }
        k
    }
}

/// Inserting into a newest-first sequence keeps it newest-first and
/// grows it by one.
pub proof fn lemma_insert_commit_sorted(s: Seq<Commit>, x: Commit)
    requires
        commits_newest_first(s),
    ensures
        commits_newest_first(insert_commit(s, x)),
        insert_commit(s, x).len() == s.len() + 1,
        insert_commit(s, x).to_multiset() == s.to_multiset().insert(x),
{
    let k = lemma_commit_cut(s, x);
    lemma_insert_commit_at(s, x, k);
    to_multiset_insert(s, k, x);
    let t = s.insert(k, x);
    assert forall|i: int, j: int| 0 <= i < j < t.len() implies commit_le(t[i], t[j]) by {
        if i < k {
            assert(t[i] == s[i]);
        } else if i == k {
            assert(t[i] == x);
        } else {
            assert(t[i] == s[i - 1]);
        }
        if j < k {
            assert(t[j] == s[j]);
        } else if j == k {
            assert(t[j] == x);
            assert(commit_le(s[k - 1], x));
        } else {
            assert(t[j] == s[j - 1]);
            assert(!commit_le(s[j - 1], x));
        }
        if i < k && j == k && i < k - 1 {
            assert(commit_le(s[i], s[k - 1]));
        }
    }
}

/// The stable ordering is newest-first and keeps the length.
pub proof fn lemma_sort_commits_sorted(s: Seq<Commit>)
    ensures
        commits_newest_first(sort_commits_spec(s)),
        sort_commits_spec(s).len() == s.len(),
        sort_commits_spec(s).to_multiset() == s.to_multiset(),
    decreases s.len(),
{
    broadcast use vstd::seq_lib::group_to_multiset_ensures;

    if s.len() == 0 {
        assert(sort_commits_spec(s).to_multiset() =~= s.to_multiset());
    } else {
        lemma_sort_commits_sorted(s.drop_last());
        lemma_insert_commit_sorted(sort_commits_spec(s.drop_last()), s.last());
        assert(s.drop_last().push(s.last()) =~= s);
    }
}

fn insert_commit_exec(v: &mut Vec<Commit>, x: Commit)
    ensures
        final(v)@ == insert_commit(old(v)@, x),
{
    let ghost s = old(v)@;
    let mut k: usize = v.len();
    while k > 0 && v[k - 1].timestamp.epoch < x.timestamp.epoch
        invariant
            k <= s.len(),
            v@ == s,
            forall|j: int| k <= j < s.len() ==> !commit_le(s[j], x),
        decreases k,
    {
        k = k - 1;
    }
    proof {
        lemma_insert_commit_at(s, x, k as int);
    }
    v.insert(k, x);
}

/// Reorders commits newest-first, stably: ties keep their existing
/// (traversal) order.
pub fn sort_commits(v: &mut Vec<Commit>)
    ensures
        final(v)@ == sort_commits_spec(old(v)@),
{
    let ghost orig = old(v)@;
    let mut rest = v.split_off(0);
    while rest.len() > 0
        invariant
            rest@.len() <= orig.len(),
            rest@ == orig.skip(orig.len() - rest@.len()),
            v@ == sort_commits_spec(orig.take(orig.len() - rest@.len())),
        decreases rest@.len(),
    {
        let ghost done = orig.len() - rest@.len();
        let x = rest.remove(0);
        proof {
            assert(orig.skip(done).drop_first() =~= orig.skip(done + 1));
            assert(orig.take(done + 1).drop_last() =~= orig.take(done));
            assert(orig.take(done + 1).last() == orig[done]);
        }
        insert_commit_exec(v, x);
    }
    proof {
        assert(orig.take(orig.len() as int) =~= orig);
    }
}

/// A named reference, local or remote, plus its loaded, bounded commit
/// ancestry.
#[derive(Clone, Debug)]
pub struct Branch {
    pub name: String,
    pub kind: BranchKind,
    pub commits: Vec<Commit>,
}

impl Branch {
    /// A valid branch record: a non-empty name and at most
    /// `MAX_ANCESTRY` valid commits, newest first.
    pub open spec fn wf(self) -> bool {
        &&& self.name@.len() > 0
        &&& self.commits@.len() <= MAX_ANCESTRY
        &&& commits_newest_first(self.commits@)
        &&& forall|i: int| 0 <= i < self.commits@.len() ==> (#[trigger] self.commits@[i]).wf()
    }

    /// A branch record with no commits loaded yet; identity is the
    /// (name, kind) pair.
    pub fn new(name: String, kind: BranchKind) -> (r: Branch)
        requires
            name@.len() > 0,
        ensures
            r.name == name,
            r.kind == kind,
            r.commits@ =~= Seq::<Commit>::empty(),
            r.wf(),
    {
        Branch { name, kind, commits: Vec::new() }
    }

    /// The loaded ancestry, newest first.
    pub fn commits(&self) -> (r: &[Commit])
        ensures
            r@ == self.commits@,
    {
        self.commits.as_slice()
    }

    /// Whether the branch is tracked in the local repository.
    pub fn local(&self) -> (r: bool)
        ensures
            r == (self.kind == BranchKind::Local),
    {
        match self.kind {
            BranchKind::Local => true,
            BranchKind::Remote => false,
        }
    }
}

} // verus!
