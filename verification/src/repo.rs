use vstd::prelude::*;

use crate::branch::{
    commits_newest_first, lemma_sort_commits_sorted, sort_commits, Author, Branch, BranchKind,
    Commit, MAX_ANCESTRY,
};
use crate::catalog::Filter;
use crate::errors::Error;
use crate::timestamp::Timestamp;
use git2::Branch as Git2Branch;
use git2::Commit as Git2Commit;
use git2::Error as Git2Error;
use git2::Repository as Git2Repository;
use std::sync::Arc;

verus! {

#[verifier::external_type_specification]
#[verifier::external_body]
pub struct ExGitRepository(Git2Repository);

#[verifier::external_type_specification]
#[verifier::external_body]
pub struct ExGitError(Git2Error);

#[verifier::external_type_specification]
#[verifier::external_body]
pub struct ExGitBranchType(git2::BranchType);

#[verifier::external_type_specification]
#[verifier::external_body]
pub struct ExGitBranches<'a>(git2::Branches<'a>);

#[verifier::external_type_specification]
#[verifier::external_body]
pub struct ExGitBranch<'a>(Git2Branch<'a>);

#[verifier::external_type_specification]
#[verifier::external_body]
pub struct ExGitCommit<'a>(Git2Commit<'a>);

#[verifier::external_type_specification]
#[verifier::external_body]
pub struct ExGitRevwalk<'a>(git2::Revwalk<'a>);

#[verifier::external_type_specification]
#[verifier::external_body]
pub struct ExGitOid(git2::Oid);

/// How many branch references an enumeration has left to yield. The
/// reference namespaces of a repository are finite, so each step of the
/// iterator strictly shrinks this measure.
pub uninterp spec fn branches_remaining(it: git2::Branches) -> nat;

/// Relies on git2's `Repository::open_ext`: resolves the repository
/// containing `path`, walking up through parent directories; with
/// `from_env` set it also honors the environment's repository discovery
/// overrides.
#[verifier::external_body]
fn open_repository(path: &str, from_env: bool) -> Result<git2::Repository, git2::Error> {
    let flags = if from_env {
        git2::RepositoryOpenFlags::FROM_ENV
    } else {
        git2::RepositoryOpenFlags::empty()
    };
    git2::Repository::open_ext(path, flags, &[] as &[&str])
}

/// Relies on git2's `Repository::branches`: begins enumerating the
/// branch references of the requested kinds, or of all kinds when no
/// selection is given.
#[verifier::external_body]
fn repo_branches<'r>(repo: &'r git2::Repository, sel: &Option<BranchKind>) -> Result<
    git2::Branches<'r>,
    git2::Error,
> {
    let typ = match sel {
        None => None,
        Some(BranchKind::Local) => Some(git2::BranchType::Local),
        Some(BranchKind::Remote) => Some(git2::BranchType::Remote),
    };
    repo.branches(typ)
}

/// Relies on `git2::Branches` being an iterator over branch/kind
/// results; the kind is converted one-for-one to the library's. The
/// enumeration is finite, so a yielded entry shrinks what remains.
#[verifier::external_body]
fn branches_next<'r>(it: &mut git2::Branches<'r>) -> (r: Option<
    Result<(git2::Branch<'r>, BranchKind), git2::Error>,
>)
    ensures
        r is Some ==> branches_remaining(*final(it)) < branches_remaining(*old(it)),
{
    match it.next() {
        None => None,
        Some(Err(e)) => Some(Err(e)),
        Some(Ok((b, git2::BranchType::Local))) => Some(Ok((b, BranchKind::Local))),
        Some(Ok((b, git2::BranchType::Remote))) => Some(Ok((b, BranchKind::Remote))),
    }
}

/// Relies on git2's `Branch::name`: the branch's name, `Ok(None)`
/// exactly when the name is not valid text.
#[verifier::external_body]
fn branch_name(b: &git2::Branch) -> Result<Option<String>, git2::Error> {
    match b.name() {
        Ok(Some(s)) => Ok(Some(s.to_owned())),
        Ok(None) => Ok(None),
        Err(e) => Err(e),
    }
}

/// Relies on git2's `Repository::find_branch`: resolves a branch
/// reference by name and kind.
#[verifier::external_body]
fn find_branch<'r>(repo: &'r git2::Repository, name: &str, kind: BranchKind) -> Result<
    git2::Branch<'r>,
    git2::Error,
> {
    let typ = match kind {
        BranchKind::Local => git2::BranchType::Local,
        BranchKind::Remote => git2::BranchType::Remote,
    };
    repo.find_branch(name, typ)
}

/// Relies on git2's `Branch::get` and `Reference::peel_to_commit`:
/// resolves the branch reference to its tip commit.
#[verifier::external_body]
fn branch_tip<'r>(b: &git2::Branch<'r>) -> Result<git2::Commit<'r>, git2::Error> {
    b.get().peel_to_commit()
}

/// Relies on git2's `Repository::revwalk`: a commit-graph walk with no
/// start point yet.
#[verifier::external_body]
fn repo_revwalk<'r>(repo: &'r git2::Repository) -> Result<git2::Revwalk<'r>, git2::Error> {
    repo.revwalk()
}

/// Relies on git2's `Commit::id`.
#[verifier::external_body]
fn commit_id(c: &git2::Commit) -> git2::Oid {
    c.id()
}

/// Relies on git2's `Revwalk::push`: starts the walk at the given
/// commit; reachable commits are then visited from the tip, each at
/// most once.
#[verifier::external_body]
fn revwalk_push(walk: &mut git2::Revwalk, oid: git2::Oid) -> Result<(), git2::Error> {
    walk.push(oid)
}

/// Relies on `git2::Revwalk` being an iterator over commit ids.
#[verifier::external_body]
fn revwalk_next(walk: &mut git2::Revwalk) -> Option<Result<git2::Oid, git2::Error>> {
    walk.next()
}

/// Relies on git2's `Repository::find_commit`.
#[verifier::external_body]
fn find_commit<'r>(repo: &'r git2::Repository, oid: git2::Oid) -> Result<
    git2::Commit<'r>,
    git2::Error,
> {
    repo.find_commit(oid)
}

/// Relies on git2's `Commit::summary`: the first paragraph of the
/// message; absent when missing or not valid text.
#[verifier::external_body]
fn commit_summary(c: &git2::Commit) -> Option<String> {
    match c.summary() {
        Ok(Some(s)) => Some(s.to_owned()),
        _ => None,
    }
}

/// Relies on git2's `Commit::message`: the full message; absent when
/// not valid text.
#[verifier::external_body]
fn commit_message(c: &git2::Commit) -> Option<String> {
    match c.message() {
        Ok(s) => Some(s.to_owned()),
        Err(_) => None,
    }
}

/// Relies on git2's `Commit::author` and `Signature::name`; absent
/// when not valid text.
#[verifier::external_body]
fn commit_author_name(c: &git2::Commit) -> Option<String> {
    match c.author().name() {
        Ok(s) => Some(s.to_owned()),
        Err(_) => None,
    }
}

/// Relies on git2's `Commit::author` and `Signature::email`; absent
/// when not valid text.
#[verifier::external_body]
fn commit_author_email(c: &git2::Commit) -> Option<String> {
    match c.author().email() {
        Ok(s) => Some(s.to_owned()),
        Err(_) => None,
    }
}

/// Relies on git2's `Commit::time`, `Time::seconds` and
/// `Time::offset_minutes`: the commit time as epoch seconds plus a
/// signed UTC offset in minutes.
#[verifier::external_body]
fn commit_time_parts(c: &git2::Commit) -> (r: (i64, i32)) {
    let t = c.time();
    (t.seconds(), t.offset_minutes())
}

/// The enumerated entries that are representable in the catalog: those
/// whose name decoded (and is non-empty), in enumeration order. An
/// entry whose name failed text decoding is omitted, not an error.
pub open spec fn named_entries(entries: Seq<(Option<String>, BranchKind)>) -> Seq<
    (String, BranchKind),
>
    decreases entries.len(),
{
    if entries.len() == 0 {
        Seq::<(String, BranchKind)>::empty()
    } else {
        let rest = named_entries(entries.drop_last());
        let e = entries.last();
        match e.0 {
            Option::Some(n) => if n@.len() > 0 {
                rest.push((n, e.1))
            } else {
                rest
            },
            Option::None => rest,
        }
    }
}

/// Every kept entry has a non-empty name.
pub proof fn lemma_named_entries_nonempty(entries: Seq<(Option<String>, BranchKind)>)
    ensures
        forall|i: int|
            0 <= i < named_entries(entries).len() ==> (#[trigger] named_entries(entries)[i]).0@.len()
                > 0,
    decreases entries.len(),
{
    if entries.len() > 0 {
        lemma_named_entries_nonempty(entries.drop_last());
        let rest = named_entries(entries.drop_last());
        assert forall|i: int|
            0 <= i < named_entries(entries).len() implies (#[trigger] named_entries(
            entries,
        )[i]).0@.len() > 0 by {
            if i < rest.len() {
                assert(named_entries(entries)[i] == rest[i]);
            }
        }
    }
}

/// Keeps the entries whose name decoded and is non-empty, in order: an
/// undecodable name is unrepresentable in the catalog and is skipped
/// silently.
pub fn keep_named(entries: Vec<(Option<String>, BranchKind)>) -> (r: Vec<(String, BranchKind)>)
    ensures
        r@ == named_entries(entries@),
{
    let ghost all = entries@;
    let mut rest = entries;
    let mut out: Vec<(String, BranchKind)> = Vec::new();
    while rest.len() > 0
        invariant
            rest@.len() <= all.len(),
            rest@ == all.skip(all.len() - rest@.len()),
            out@ == named_entries(all.take(all.len() - rest@.len())),
        decreases rest@.len(),
    {
        let ghost done = all.len() - rest@.len();
        let e = rest.remove(0);
        proof {
            assert(all.skip(done).drop_first() =~= all.skip(done + 1));
            assert(all.take(done + 1).drop_last() =~= all.take(done));
            assert(all.take(done + 1).last() == all[done]);
        }
        let (name_opt, kind) = e;
        match name_opt {
            Option::Some(n) => {
                if !n.as_str().is_empty() {
                    out.push((n, kind));
                }
            },
            Option::None => {},
        }
    }
    proof {
        assert(all.take(all.len() as int) =~= all);
    }
    out
}

/// The handle to an open on-disk repository: shared, reference-counted
/// and immutable after construction, so every consumer re-queries the
/// same connection.
#[derive(Clone)]
pub struct Repository {
    inner: Arc<git2::Repository>,
}

impl Repository {
    /// Opens the repository containing the current working directory,
    /// honoring the environment's repository discovery overrides.
    /// Fails with `NotARepository` when no repository contains it.
    pub fn current() -> (r: Result<Repository, Error>)
        ensures
            r matches Err(e) ==> e == Error::NotARepository,
    {
        match open_repository(".", true) {
            Ok(repo) => Ok(Repository { inner: Arc::new(repo) }),
            Err(_) => Err(Error::NotARepository),
        }
    }

    /// Opens the repository containing `path`. Fails with
    /// `NotARepository` when no repository contains it.
    pub fn open_at(path: &str) -> (r: Result<Repository, Error>)
        ensures
            r matches Err(e) ==> e == Error::NotARepository,
    {
        match open_repository(path, false) {
            Ok(repo) => Ok(Repository { inner: Arc::new(repo) }),
            Err(_) => Err(Error::NotARepository),
        }
    }

    /// Enumerates the (name, kind) pairs of the branches matching the
    /// filter, in the repository's enumeration order. A branch whose
    /// name cannot be decoded as valid text is silently skipped; any
    /// other failure ends the whole enumeration with
    /// `EnumerationFailed`.
    pub fn list_branches(&self, filter: &Filter) -> (r: Result<Vec<(String, BranchKind)>, Error>)
        ensures
            r matches Ok(v) ==> forall|i: int|
                0 <= i < v@.len() ==> (#[trigger] v@[i]).0@.len() > 0,
            r matches Err(e) ==> e == Error::EnumerationFailed,
    {
        let mut it = match repo_branches(&*self.inner, &filter.sel) {
            Ok(it) => it,
            Err(_) => {
                return Err(Error::EnumerationFailed);
            },
        };
        let mut entries: Vec<(Option<String>, BranchKind)> = Vec::new();
        loop
            invariant
                true,
            decreases branches_remaining(it),
        {
            match branches_next(&mut it) {
                Option::None => {
                    break ;
                },
                Option::Some(Err(_)) => {
                    return Err(Error::EnumerationFailed);
                },
                Option::Some(Ok((b, kind))) => {
                    match branch_name(&b) {
                        Ok(name_opt) => entries.push((name_opt, kind)),
                        Err(_) => {
                            return Err(Error::EnumerationFailed);
                        },
                    }
                },
            }
        }
        let kept = keep_named(entries);
        proof {
            lemma_named_entries_nonempty(entries@);
        }
        Ok(kept)
    }

    /// Walks the branch's ancestry from its tip, newest first, and
    /// stops after `max_depth` commits even if more remain. Fails with
    /// `BranchNotFound` when the reference cannot be resolved,
    /// `HistoryUnreadable` when the walk cannot be read, and
    /// `InvalidEpoch` when a commit's timestamp cannot be decoded,
    /// which aborts the branch's whole ancestry.
    pub fn load_ancestry(&self, name: &str, kind: BranchKind, max_depth: usize) -> (r: Result<
        Vec<Commit>,
        Error,
    >)
        ensures
            r matches Ok(v) ==> {
                &&& v@.len() <= max_depth
                &&& commits_newest_first(v@)
                &&& forall|i: int| 0 <= i < v@.len() ==> (#[trigger] v@[i]).wf()
            },
            r matches Err(e) ==> (e == Error::BranchNotFound || e == Error::HistoryUnreadable
                || e == Error::InvalidEpoch),
    {
        let repo: &git2::Repository = &*self.inner;
        let b = match find_branch(repo, name, kind) {
            Ok(b) => b,
            Err(_) => {
                return Err(Error::BranchNotFound);
            },
        };
        let tip = match branch_tip(&b) {
            Ok(c) => c,
            Err(_) => {
                return Err(Error::HistoryUnreadable);
            },
        };
        let mut walk = match repo_revwalk(repo) {
            Ok(w) => w,
            Err(_) => {
                return Err(Error::HistoryUnreadable);
            },
        };
        match revwalk_push(&mut walk, commit_id(&tip)) {
            Ok(_) => {},
            Err(_) => {
                return Err(Error::HistoryUnreadable);
            },
        }
        let mut out: Vec<Commit> = Vec::new();
        loop
            invariant
                out@.len() <= max_depth,
                forall|i: int| 0 <= i < out@.len() ==> (#[trigger] out@[i]).wf(),
            decreases max_depth - out@.len(),
        {
            if out.len() >= max_depth {
                break ;
            }
            let oid = match revwalk_next(&mut walk) {
                Option::None => {
                    break ;
                },
                Option::Some(Err(_)) => {
                    return Err(Error::HistoryUnreadable);
                },
                Option::Some(Ok(o)) => o,
            };
            let c = match find_commit(repo, oid) {
                Ok(c) => c,
                Err(_) => {
                    return Err(Error::HistoryUnreadable);
                },
            };
            let commit = match read_commit(&c) {
                Ok(cm) => cm,
                Err(e) => {
                    return Err(e);
                },
            };
            out.push(commit);
        }
        let ghost walked = out@;
        sort_commits(&mut out);
        proof {
            broadcast use vstd::seq_lib::group_to_multiset_ensures;

            lemma_sort_commits_sorted(walked);
            assert forall|i: int| 0 <= i < out@.len() implies (#[trigger] out@[i]).wf() by {
                assert(out@.contains(out@[i]));
                assert(out@.to_multiset().count(out@[i]) > 0);
                assert(walked.to_multiset().count(out@[i]) > 0);
                assert(walked.contains(out@[i]));
                let j = choose|j: int| 0 <= j < walked.len() && walked[j] == out@[i];
                assert(walked[j].wf());
            }
        }
        Ok(out)
    }

    /// Enumerates the branches matching the filter and eagerly loads
    /// each one's bounded ancestry: the input of a catalog build. Any
    /// per-branch failure aborts the whole load.
    pub fn branches(&self, filter: &Filter) -> (r: Result<Vec<Branch>, Error>)
        ensures
            r matches Ok(v) ==> forall|i: int| 0 <= i < v@.len() ==> (#[trigger] v@[i]).wf(),
            r matches Err(e) ==> e != Error::NotARepository,
    {
        let named = match self.list_branches(filter) {
            Ok(v) => v,
            Err(e) => {
                return Err(e);
            },
        };
        let mut rest = named;
        let mut out: Vec<Branch> = Vec::new();
        while rest.len() > 0
            invariant
                forall|i: int| 0 <= i < out@.len() ==> (#[trigger] out@[i]).wf(),
                forall|i: int| 0 <= i < rest@.len() ==> (#[trigger] rest@[i]).0@.len() > 0,
            decreases rest@.len(),
        {
            let (name, kind) = rest.remove(0);
            let commits = match self.load_ancestry(name.as_str(), kind, MAX_ANCESTRY) {
                Ok(c) => c,
                Err(e) => {
                    return Err(e);
                },
            };
            out.push(Branch { name, kind, commits });
        }
        Ok(out)
    }
}

/// Builds the library's commit record from a native commit: a missing
/// or undecodable summary, message or author part becomes its empty
/// form, but an undecodable timestamp fails the commit with
/// `InvalidEpoch`, since timestamps are required.
fn read_commit(c: &git2::Commit) -> (r: Result<Commit, Error>)
    ensures
        r matches Ok(cm) ==> cm.wf(),
        r matches Err(e) ==> e == Error::InvalidEpoch,
{
    let summary = match commit_summary(c) {
        Option::Some(s) => s,
        Option::None => String::new(),
    };
    let message = match commit_message(c) {
        Option::Some(s) => s,
        Option::None => String::new(),
    };
    let author = Author { name: commit_author_name(c), email: commit_author_email(c) };
    let (secs, offset) = commit_time_parts(c);
    let timestamp = match Timestamp::from_native(secs, offset) {
        Ok(t) => t,
        Err(e) => {
            return Err(e);
        },
    };
    Ok(Commit { summary, message, author, timestamp })
}

} // verus!
