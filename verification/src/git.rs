//! The repository that hooks run in.
use crate::index::IndexEntry;
use crate::paths::{PathSet, RepoPath};
use crate::text::{concat2, opt_text, to_chars};
use vstd::prelude::*;

verus! {

/// Whether a text is git's sentinel for a missing reference: zeros only, in
/// whatever length the repository's hash algorithm gives a name.
pub open spec fn zero_sha(sha: Seq<char>) -> bool {
    sha.len() > 0 && forall|i: int| 0 <= i < sha.len() ==> #[trigger] sha[i] == '0'
}

/// Returns true if the given string is git's all-zeros sha sentinel.
///
/// Git uses this to denote a missing ref (a deletion, or a new branch in
/// pre-push stdin). The length depends on the repository's hash algorithm, so
/// the contents count and not the width.
pub fn is_zero_sha(sha: &str) -> (r: bool)
    ensures
        r == zero_sha(sha@),
{
    let chars = to_chars(sha);
    let mut i: usize = 0;
    while i < chars.len()
        invariant
            chars@ == sha@,
            i <= chars.len(),
            forall|k: int| 0 <= k < i ==> #[trigger] sha@[k] == '0',
        decreases chars.len() - i,
    {
        if chars[i] != '0' {
            proof {
                assert(sha@[i as int] != '0');
            }
            return false;
        }
        i += 1;
    }
    chars.len() > 0
}

/// How unstaged changes are put aside while a hook runs.
#[derive(Debug, Clone, Copy, PartialEq, Eq, Structural)]
pub enum StashMethod {
    /// With `git stash`.
    Git,
    /// With a patch file.
    PatchFile,
    /// Not at all; spelled `none`.
    Disabled,
}

/// What made a stash entry.
#[derive(Debug, Clone, Copy, PartialEq, Eq, Structural)]
pub enum StashType {
    /// libgit2.
    LibGit,
    /// The git program.
    Git,
}

/// Why an operation on the repository failed.
#[derive(Debug)]
pub enum GitError {
    /// The current directory is unknown.
    CurrentDir,
    /// There is no repository here.
    NoRepository,
    /// The root of the work tree cannot be entered.
    EnterDir,
    /// libgit2 cannot open the repository.
    OpenRepository,
    /// The index cannot be opened, read or written.
    Index,
    /// `HEAD` cannot be looked up.
    Head,
    /// A git or shell command failed.
    Command,
    /// libgit2 cannot list the status.
    Status,
    /// libgit2 has no signature to commit with.
    Signature,
    /// libgit2 cannot compare the references.
    Diff,
    /// Some files could not be restored; the stash entry of this name is kept.
    StashPreserved(String),
}

impl GitError {
    /// What the error says, where it does not pass on what went wrong outside.
    pub open spec fn says(self) -> Option<Seq<char>> {
        match self {
            GitError::NoRepository => Some("failed to find git repository"@),
            GitError::StashPreserved(name) => Some(
                "Stash restoration failed - stash preserved at "@ + name@,
            ),
            _ => None,
        }
    }

    /// What the error says, where it does not pass on what went wrong outside.
    pub fn message(&self) -> (r: Option<String>)
        ensures
            opt_text(r) == self.says(),
    {
        match self {
            GitError::NoRepository => Some("failed to find git repository".to_owned()),
            GitError::StashPreserved(name) => Some(
                concat2("Stash restoration failed - stash preserved at ", name.as_str()),
            ),
            _ => None,
        }
    }
}

/// A repository, and what a stash put aside in it.
#[derive(Debug)]
pub struct Git {
    /// Whether libgit2 is used where it can be.
    pub libgit2: bool,
    /// Whether untracked files are looked for, and stashed.
    pub stash_untracked: bool,
    /// How many patch backups of stashes are kept.
    pub stash_backup_count: usize,
    /// What made the stash entry that is still to be restored.
    pub stash: Option<StashType>,
    /// The commit of the stash entry that was made.
    pub stash_commit: Option<String>,
    /// The paths that were put aside.
    pub stashed_paths: Option<PathSet>,
    /// The index entries that were captured.
    pub saved_index: Option<Vec<IndexEntry>>,
    /// The work tree texts that were captured.
    pub saved_worktree: Option<Vec<(RepoPath, String)>>,
}

impl Git {
    /// Whether the set of stashed paths is in order.
    pub open spec fn wf(&self) -> bool {
        self.stashed_paths is Some ==> self.stashed_paths->0.wf()
    }
}

/// A name of zeros stands for a missing reference, whatever its length; one
/// other character, or none at all, does not.
pub proof fn law_only_zeros_stand_for_no_reference(sha: Seq<char>, n: nat, i: int)
    ensures
        n > 0 ==> zero_sha(Seq::new(n, |k: int| '0')),
        0 <= i < sha.len() && sha[i] != '0' ==> !zero_sha(sha),
        sha.len() == 0 ==> !zero_sha(sha),
        zero_sha(sha) ==> sha == Seq::new(sha.len(), |k: int| '0'),
{
}

/// An error that keeps the stash names its entry; an error without a
/// repository says so; any other passes on what went wrong outside.
pub proof fn law_errors_of_the_repository_say_what_happened(e: GitError)
    ensures
        e matches GitError::StashPreserved(name) ==> e.says() == Some(
            "Stash restoration failed - stash preserved at "@ + name@,
        ),
        e is NoRepository ==> e.says() == Some("failed to find git repository"@),
        !(e is StashPreserved) && !(e is NoRepository) ==> e.says() is None,
{
}

} // verus!
