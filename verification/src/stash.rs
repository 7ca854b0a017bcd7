//! Putting unstaged changes aside.
use crate::git::{Git, GitError, StashMethod, StashType};
use crate::patches::{
    is_patch_name, new_patch_file_name, outdated, repo_name, repo_name_of, rotate_patch_files,
    show_patch,
};
use crate::paths::{
    collected, copy_paths, names_path, paths_of, raw_paths, same_path, spelled, PathSet, RepoPath,
};
use crate::status::{changes, parse_porcelain, porcelain, Change, GitStatus, StatusEntry};
use crate::text::{records, split_records, texts, trim, trimmed};
use crate::work::{
    found, into_found, is_target_at, target_at, Action, Command, Presence, Progress, Reply,
};
use vstd::prelude::*;
use vstd::utf8::{decode_utf8, valid_utf8};

verus! {

/// How putting changes aside ended.
#[derive(Debug, Clone, Copy, PartialEq, Eq, Structural)]
pub enum StashOutcome {
    /// Stashing is switched off.
    Disabled,
    /// There is no commit yet to stash against.
    NoCommit,
    /// There are no unstaged changes.
    NothingUnstaged,
    /// There are only untracked files, and those are not stashed.
    NothingTracked,
    /// A stash entry was made.
    Stashed(StashType),
}

/// The paths with a change in the work tree, as porcelain lines tell it:
/// modified, of another type or renamed.
pub open spec fn worktree_changed(list: Seq<Change>) -> Seq<Seq<u8>>
    decreases list.len(),
{
    if list.len() == 0 {
        Seq::empty()
    } else {
        let before = worktree_changed(list.drop_last());
        let y = list.last().worktree;
        if y == 'M' || y == 'T' || y == 'R' {
            before.push(list.last().path)
        } else {
            before
        }
    }
}

/// The paths that three of git's answers say have unstaged changes: the
/// differences between work tree and index, the files listed as modified, and
/// the status.
pub open spec fn candidates(diff: Seq<char>, modified: Seq<char>, status: Seq<char>) -> Seq<
    Seq<u8>,
> {
    spelled(records(diff)) + spelled(records(modified)) + worktree_changed(porcelain(status))
}

/// The paths at which something was found.
pub open spec fn existing(list: Seq<Seq<u8>>, presence: Seq<Presence>) -> Seq<Seq<u8>>
    decreases list.len(),
{
    if list.len() == 0 {
        Seq::empty()
    } else {
        let before = existing(list.drop_last(), presence);
        if target_at(presence, list.len() - 1) {
            before.push(list.last())
        } else {
            before
        }
    }
}

/// The files to put aside: the candidates that exist, the unstaged files of
/// the status, and its untracked files where those are stashed too.
pub open spec fn to_stash(
    list: Seq<Seq<u8>>,
    presence: Seq<Presence>,
    status: GitStatus,
    untracked: bool,
) -> Seq<Seq<u8>> {
    collected(
        existing(list, presence) + status.unstaged_files@ + (if untracked {
            status.untracked_files@
        } else {
            Seq::empty()
        }),
    )
}

/// The paths that are not among the untracked files. Git refuses an untracked
/// path as a pathspec.
pub open spec fn known_to_git(list: Seq<Seq<u8>>, untracked: Seq<Seq<u8>>) -> Seq<Seq<u8>>
    decreases list.len(),
{
    if list.len() == 0 {
        Seq::empty()
    } else {
        let before = known_to_git(list.drop_last(), untracked);
        if names_path(untracked, list.last()) {
            before
        } else {
            before.push(list.last())
        }
    }
}

/// The paths that are texts, as texts.
pub open spec fn readable_paths(list: Seq<Seq<u8>>) -> Seq<Seq<char>>
    decreases list.len(),
{
    if list.len() == 0 {
        Seq::empty()
    } else {
        let before = readable_paths(list.drop_last());
        if valid_utf8(list.last()) {
            before.push(decode_utf8(list.last()))
        } else {
            before
        }
    }
}

/// The arguments that stash, keeping the index: everything, or some paths.
pub open spec fn stash_args(untracked: bool, paths: Option<Seq<Seq<u8>>>) -> Seq<Seq<char>> {
    let flags = if untracked {
        seq!["stash"@, "push"@, "--keep-index"@, "-m"@, "hk"@, "--include-untracked"@]
    } else {
        seq!["stash"@, "push"@, "--keep-index"@, "-m"@, "hk"@]
    };
    if paths is Some && readable_paths(paths->0).len() > 0 {
        flags.push("--"@) + readable_paths(paths->0)
    } else {
        flags
    }
}

/// A path given to git to stash is one to put aside, and not untracked.
pub proof fn law_no_untracked_path_is_stashed_by_name(
    list: Seq<Seq<u8>>,
    untracked: Seq<Seq<u8>>,
    i: int,
)
    requires
        0 <= i < known_to_git(list, untracked).len(),
    ensures
        !names_path(untracked, known_to_git(list, untracked)[i]),
        list.contains(known_to_git(list, untracked)[i]),
    decreases list.len(),
{
    if list.len() > 0 {
        let rest = list.drop_last();
        let before = known_to_git(rest, untracked);
        if i < before.len() {
            law_no_untracked_path_is_stashed_by_name(rest, untracked, i);
            let k = choose|k: int| 0 <= k < rest.len() && rest[k] == before[i];
            assert(list[k] == before[i]);
        } else {
            assert(list[list.len() - 1] == list.last());
        }
    }
}

/// Every unstaged file of the status is put aside.
pub proof fn law_unstaged_files_are_put_aside(
    list: Seq<Seq<u8>>,
    presence: Seq<Presence>,
    status: GitStatus,
    untracked: bool,
    p: Seq<u8>,
)
    requires
        names_path(status.unstaged_files@, p),
    ensures
        names_path(to_stash(list, presence, status, untracked), p),
{
    let found = existing(list, presence);
    let all = found + status.unstaged_files@ + (if untracked {
        status.untracked_files@
    } else {
        Seq::empty()
    });
    let i = choose|i: int|
        0 <= i < status.unstaged_files@.len() && same_path(
            #[trigger] status.unstaged_files@[i],
            p,
        );
    assert(all[found.len() + i] == status.unstaged_files@[i]);
    assert(same_path(all[found.len() + i], p));
    crate::paths::law_collected_names(all, p);
}

/// Keeps the paths with a change in the work tree.
fn keep_worktree_changed(list: &Vec<StatusEntry>) -> (r: Vec<RepoPath>)
    ensures
        raw_paths(r@) == worktree_changed(changes(list@)),
{
    let ghost all = changes(list@);
    let mut out: Vec<RepoPath> = Vec::new();
    let mut i: usize = 0;
    proof {
        assert(raw_paths(out@) == worktree_changed(all.take(0)));
    }
    while i < list.len()
        invariant
            i <= list.len(),
            all == changes(list@),
            raw_paths(out@) == worktree_changed(all.take(i as int)),
        decreases list.len() - i,
    {
        let ghost was = out@;
        proof {
            assert(all.take(i + 1).drop_last() == all.take(i as int));
            assert(all.take(i + 1).last() == list@[i as int]@);
        }
        let y = list[i].worktree;
        if y == 'M' || y == 'T' || y == 'R' {
            out.push(list[i].path.copy());
            proof {
                assert(raw_paths(out@) == raw_paths(was).push(list@[i as int].path@));
            }
        }
        i += 1;
    }
    proof {
        assert(all.take(all.len() as int) == all);
    }
    out
}

/// Keeps the paths at which something was found.
pub fn keep_existing(list: &Vec<RepoPath>, presence: &Vec<Presence>) -> (r: Vec<RepoPath>)
    ensures
        raw_paths(r@) == existing(raw_paths(list@), presence@),
{
    let ghost all = raw_paths(list@);
    let mut out: Vec<RepoPath> = Vec::new();
    let mut i: usize = 0;
    proof {
        assert(raw_paths(out@) == existing(all.take(0), presence@));
    }
    while i < list.len()
        invariant
            i <= list.len(),
            all == raw_paths(list@),
            raw_paths(out@) == existing(all.take(i as int), presence@),
        decreases list.len() - i,
    {
        let ghost was = out@;
        proof {
            assert(all.take(i + 1).drop_last() == all.take(i as int));
            assert(all.take(i + 1).last() == list@[i as int]@);
        }
        if is_target_at(presence, i) {
            out.push(list[i].copy());
            proof {
                assert(raw_paths(out@) == raw_paths(was).push(list@[i as int]@));
            }
        }
        i += 1;
    }
    proof {
        assert(all.take(all.len() as int) == all);
    }
    out
}

/// Keeps the paths that are not untracked.
fn keep_tracked(list: &Vec<RepoPath>, untracked: &PathSet) -> (r: Vec<RepoPath>)
    ensures
        raw_paths(r@) == known_to_git(raw_paths(list@), untracked@),
{
    let ghost all = raw_paths(list@);
    let mut out: Vec<RepoPath> = Vec::new();
    let mut i: usize = 0;
    proof {
        assert(raw_paths(out@) == known_to_git(all.take(0), untracked@));
    }
    while i < list.len()
        invariant
            i <= list.len(),
            all == raw_paths(list@),
            raw_paths(out@) == known_to_git(all.take(i as int), untracked@),
        decreases list.len() - i,
    {
        let ghost was = out@;
        proof {
            assert(all.take(i + 1).drop_last() == all.take(i as int));
            assert(all.take(i + 1).last() == list@[i as int]@);
        }
        if !untracked.contains(&list[i]) {
            out.push(list[i].copy());
            proof {
                assert(raw_paths(out@) == raw_paths(was).push(list@[i as int]@));
            }
        }
        i += 1;
    }
    proof {
        assert(all.take(all.len() as int) == all);
    }
    out
}

/// Reads the paths that are texts.
pub fn read_paths(list: &Vec<RepoPath>) -> (r: Vec<String>)
    ensures
        texts(r@) == readable_paths(raw_paths(list@)),
{
    let ghost all = raw_paths(list@);
    let mut out: Vec<String> = Vec::new();
    let mut i: usize = 0;
    proof {
        assert(texts(out@) == readable_paths(all.take(0)));
    }
    while i < list.len()
        invariant
            i <= list.len(),
            all == raw_paths(list@),
            texts(out@) == readable_paths(all.take(i as int)),
        decreases list.len() - i,
    {
        let ghost was = out@;
        proof {
            assert(all.take(i + 1).drop_last() == all.take(i as int));
            assert(all.take(i + 1).last() == list@[i as int]@);
        }
        if let Some(text) = list[i].to_text() {
            let ghost t = text@;
            out.push(text);
            proof {
                assert(texts(out@) == texts(was).push(t));
            }
        }
        i += 1;
    }
    proof {
        assert(all.take(all.len() as int) == all);
    }
    out
}

/// The bytes of a list of paths that may be missing.
pub open spec fn opt_raw(list: Option<Vec<RepoPath>>) -> Option<Seq<Seq<u8>>> {
    match list {
        Some(l) => Some(raw_paths(l@)),
        None => None,
    }
}

/// The command that stashes everything, or some paths.
fn stash_command(untracked: bool, paths: &Option<Vec<RepoPath>>) -> (r: Command)
    ensures
        r.says(stash_args(untracked, opt_raw(*paths))),
{
    let c = Command::of(&["stash", "push", "--keep-index", "-m", "hk"]).with_if(
        untracked,
        "--include-untracked",
    );
    match paths {
        Some(list) => {
            let named = read_paths(list);
            proof {
                assert(texts(named@).len() == named@.len());
            }
            if named.len() > 0 {
                c.with("--").with_all(&named)
            } else {
                c
            }
        },
        None => c,
    }
}

/// Where putting changes aside stands.
#[derive(Debug)]
pub enum StashPhase {
    /// Waits for whether there is a commit.
    Head,
    /// Waits for the differences between work tree and index.
    Diff,
    /// Waits for the files listed as modified; has the candidates so far.
    Modified(Vec<RepoPath>),
    /// Waits for the status; has the candidates so far.
    Status(Vec<RepoPath>),
    /// Waits for what lies at the candidates.
    Probe(Vec<RepoPath>),
    /// Waits for a libgit2 signature; has the paths to stash, where not all.
    Signature(Option<Vec<RepoPath>>),
    /// Waits for libgit2 to stash.
    LibStash,
    /// Waits for git to stash.
    GitStash,
    /// Waits for the commit of the stash entry; has what made the entry.
    Commit(StashType),
    /// Waits for the directory of patch backups.
    PatchDir(StashType),
    /// Waits for the patch; has the names of the repository and of the backup.
    PatchText(StashType, String, String),
    /// Waits for the backup to be written; has the name of the repository.
    PatchWrite(StashType, String),
    /// Waits for the list of backups; has the name of the repository.
    PatchList(StashType, String),
    /// Waits for old backups to be removed.
    PatchRemove(StashType),
}

/// Putting unstaged changes aside.
#[derive(Debug)]
pub struct StashOp {
    /// The repository.
    pub git: Git,
    /// The status that was read before.
    pub status: GitStatus,
    /// What is being waited for.
    pub phase: StashPhase,
}

/// How putting changes aside goes on: an action and the state that waits, or
/// the repository as it is left and how it ended.
pub type Stashed = Progress<StashOp, (Git, Result<StashOutcome, GitError>)>;

/// Whether a reply tells that there is a commit.
pub open spec fn commit_told(libgit2: bool, reply: Reply) -> bool {
    if libgit2 {
        reply matches Reply::Name(Some(_))
    } else {
        reply.text() is Some
    }
}

impl StashOp {
    /// What stays as it was.
    pub open spec fn keeps(&self, pre: StashOp) -> bool {
        self.git == pre.git && self.status == pre.status
    }

    /// That a stash entry was made and nothing is left to do.
    pub open spec fn finishes(git: Git, made: StashType, r: Stashed) -> bool {
        r matches Progress::Done((left, Ok(StashOutcome::Stashed(kind)))) && kind == made && left
            == (Git { stash: Some(made), ..git })
    }

    /// That the commit of the stash entry is asked for.
    pub open spec fn asks_commit(pre: StashOp, made: StashType, r: Stashed) -> bool {
        &&& r matches Progress::Ask(Action::ReadGit(c), post)
        &&& post.keeps(pre) && post.phase == StashPhase::Commit(made)
        &&& c.says(seq!["rev-parse"@, "-q"@, "--verify"@, "stash@{0}"@])
    }

    /// That git is asked to stash everything, or some paths.
    pub open spec fn asks_git(pre: StashOp, paths: Option<Seq<Seq<u8>>>, r: Stashed) -> bool {
        &&& r matches Progress::Ask(Action::RunGit(c), post)
        &&& post.keeps(pre) && post.phase is GitStash
        &&& c.says(stash_args(pre.git.stash_untracked, paths))
    }

    /// How it goes on with the files to put aside. None are left where there
    /// are none. Untracked files are not stashed by name: where there is
    /// nothing else, everything is stashed, or nothing.
    pub open spec fn pushes(pre: StashOp, files: Seq<Seq<u8>>, r: Stashed) -> bool {
        let named = known_to_git(files, pre.status.untracked_files@);
        if files.len() == 0 {
            r == Stashed::Done((pre.git, Ok(StashOutcome::NothingUnstaged)))
        } else if named.len() == 0 && !pre.git.stash_untracked {
            &&& r matches Progress::Done((git, Ok(StashOutcome::NothingTracked)))
            &&& git == (Git { stash: None, stashed_paths: None, ..pre.git })
        } else {
            let paths = if named.len() == 0 {
                None
            } else {
                Some(named)
            };
            &&& r matches Progress::Ask(action, post)
            &&& post.status == pre.status
            &&& post.git.stashed_paths matches Some(set)
            &&& set.wf() && set@ == files
            &&& post.git == (Git { stashed_paths: post.git.stashed_paths, ..pre.git })
            &&& if pre.git.libgit2 {
                &&& action is LibGitSignature
                &&& post.phase matches StashPhase::Signature(list)
                &&& opt_raw(list) == paths
            } else {
                &&& post.phase is GitStash
                &&& action matches Action::RunGit(c)
                &&& c.says(stash_args(pre.git.stash_untracked, paths))
            }
        }
    }

    /// That the differences between work tree and index are asked for.
    pub open spec fn asks_diff(git: Git, status: GitStatus, r: Stashed) -> bool {
        &&& r matches Progress::Ask(Action::ReadGit(c), post)
        &&& post == StashOp { git, status, phase: StashPhase::Diff }
        &&& c.says(
            seq!["diff"@, "--name-only"@, "-z"@, "--no-ext-diff"@, "--ignore-submodules"@],
        )
    }

    /// How putting changes aside goes on when it is told `reply`.
    pub open spec fn follows(pre: StashOp, reply: Reply, r: Stashed) -> bool {
        match pre.phase {
            StashPhase::Head => if commit_told(pre.git.libgit2, reply) {
                StashOp::asks_diff(pre.git, pre.status, r)
            } else {
                r == Stashed::Done((pre.git, Ok(StashOutcome::NoCommit)))
            },
            StashPhase::Diff => {
                &&& r matches Progress::Ask(Action::ReadGit(c), post)
                &&& post.keeps(pre)
                &&& post.phase matches StashPhase::Modified(list)
                &&& raw_paths(list@) == spelled(records(reply.text_or_empty()))
                &&& c.says(seq!["ls-files"@, "-m"@, "-z"@])
            },
            StashPhase::Modified(so_far) => {
                let untracked = if pre.git.stash_untracked {
                    "--untracked-files=all"@
                } else {
                    "--untracked-files=no"@
                };
                &&& r matches Progress::Ask(Action::ReadGit(c), post)
                &&& post.keeps(pre)
                &&& post.phase matches StashPhase::Status(list)
                &&& raw_paths(list@) == raw_paths(so_far@) + spelled(
                    records(reply.text_or_empty()),
                )
                &&& c.says(
                    seq!["status"@, "--porcelain"@, "--no-renames"@, untracked, "-z"@],
                )
            },
            StashPhase::Status(so_far) => {
                &&& r matches Progress::Ask(Action::Probe(paths), post)
                &&& post.keeps(pre)
                &&& post.phase matches StashPhase::Probe(list)
                &&& raw_paths(list@) == raw_paths(so_far@) + worktree_changed(
                    porcelain(reply.text_or_empty()),
                )
                &&& raw_paths(paths@) == raw_paths(list@)
            },
            StashPhase::Probe(list) => StashOp::pushes(
                pre,
                to_stash(
                    raw_paths(list@),
                    found(reply),
                    pre.status,
                    pre.git.stash_untracked,
                ),
                r,
            ),
            StashPhase::Signature(paths) => if !reply.ok() {
                r matches Progress::Done((git, Err(GitError::Signature))) && git == pre.git
            } else if paths is Some {
                StashOp::asks_git(pre, opt_raw(paths), r)
            } else {
                &&& r matches Progress::Ask(Action::LibGitStash(message, untracked), post)
                &&& message@ == "hk"@ && untracked == pre.git.stash_untracked
                &&& post.keeps(pre) && post.phase is LibStash
            },
            StashPhase::LibStash => if reply.ok() {
                StashOp::asks_commit(pre, StashType::LibGit, r)
            } else {
                StashOp::asks_git(pre, None, r)
            },
            StashPhase::GitStash => if reply.ok() {
                StashOp::asks_commit(pre, StashType::Git, r)
            } else {
                r matches Progress::Done((git, Err(GitError::Command))) && git == pre.git
            },
            StashPhase::Commit(made) => match reply.text() {
                None => StashOp::finishes(pre.git, made, r),
                Some(hash) => if pre.git.stash_backup_count == 0 {
                    &&& r matches Progress::Done((git, Ok(StashOutcome::Stashed(kind))))
                    &&& kind == made
                    &&& git.stash_commit is Some && git.stash_commit->0@ == trimmed(hash)
                    &&& git == (Git {
                        stash: Some(made),
                        stash_commit: git.stash_commit,
                        ..pre.git
                    })
                } else {
                    &&& r matches Progress::Ask(Action::PreparePatches, post)
                    &&& post.phase == StashPhase::PatchDir(made) && post.status == pre.status
                    &&& post.git.stash_commit is Some && post.git.stash_commit->0@ == trimmed(
                        hash,
                    )
                    &&& post.git == (Git { stash_commit: post.git.stash_commit, ..pre.git })
                },
            },
            StashPhase::PatchDir(made) => match reply {
                Reply::Path(Some(dir)) => {
                    let repo = repo_name_of(dir@);
                    let hash = if pre.git.stash_commit is Some {
                        pre.git.stash_commit->0@
                    } else {
                        Seq::empty()
                    };
                    &&& r matches Progress::Ask(Action::ReadGitQuiet(c), post)
                    &&& post.keeps(pre)
                    &&& post.phase matches StashPhase::PatchText(kind, name, file)
                    &&& kind == made && name@ == repo && is_patch_name(file@, repo)
                    &&& c.says(
                        if pre.git.stash_untracked {
                            seq!["stash"@, "show"@, "-p"@, "--include-untracked"@, hash]
                        } else {
                            seq!["stash"@, "show"@, "-p"@, hash]
                        },
                    )
                },
                _ => StashOp::finishes(pre.git, made, r),
            },
            StashPhase::PatchText(made, repo, file) => match reply.text() {
                Some(patch) => {
                    &&& r matches Progress::Ask(Action::WritePatch(name, contents), post)
                    &&& post.keeps(pre) && post.phase == StashPhase::PatchWrite(made, repo)
                    &&& name@ == file@ && contents@ == patch
                },
                None => StashOp::finishes(pre.git, made, r),
            },
            StashPhase::PatchWrite(made, repo) => if reply.ok() {
                &&& r matches Progress::Ask(Action::ListPatches, post)
                &&& post.keeps(pre) && post.phase == StashPhase::PatchList(made, repo)
            } else {
                StashOp::finishes(pre.git, made, r)
            },
            StashPhase::PatchList(made, repo) => {
                let gone = match reply {
                    Reply::Patches(list) => outdated(
                        list@,
                        repo@,
                        pre.git.stash_backup_count as nat,
                    ),
                    _ => Seq::empty(),
                };
                if gone.len() == 0 {
                    StashOp::finishes(pre.git, made, r)
                } else {
                    &&& r matches Progress::Ask(Action::RemovePatches(names), post)
                    &&& post.keeps(pre) && post.phase == StashPhase::PatchRemove(made)
                    &&& texts(names@) == gone
                }
            },
            StashPhase::PatchRemove(made) => StashOp::finishes(pre.git, made, r),
        }
    }

    /// Ends with a stash entry made.
    fn finish(git: Git, made: StashType) -> (r: Stashed)
        ensures
            StashOp::finishes(git, made, r),
    {
        Progress::Done((Git { stash: Some(made), ..git }, Ok(StashOutcome::Stashed(made))))
    }

    /// Asks for the commit of the stash entry.
    fn ask_commit(git: Git, status: GitStatus, made: StashType) -> (r: Stashed)
        ensures
            forall|pre: StashOp|
                pre.git == git && pre.status == status ==> #[trigger] StashOp::asks_commit(
                    pre,
                    made,
                    r,
                ),
    {
        let c = Command::of(&["rev-parse", "-q", "--verify", "stash@{0}"]);
        Progress::Ask(
            Action::ReadGit(c),
            StashOp { git, status, phase: StashPhase::Commit(made) },
        )
    }

    /// Goes on with the files to put aside.
    fn push_stash(git: Git, status: GitStatus, files: PathSet) -> (r: Stashed)
        requires
            files.wf(),
        ensures
            forall|pre: StashOp|
                pre.git == git && pre.status == status ==> #[trigger] StashOp::pushes(
                    pre,
                    files@,
                    r,
                ),
    {
        proof {
            assert(files@.len() == files.items@.len());
        }
        if files.items.len() == 0 {
            return Progress::Done((git, Ok(StashOutcome::NothingUnstaged)));
        }
        let named = keep_tracked(&files.items, &status.untracked_files);
        let ghost raw = known_to_git(files@, status.untracked_files@);
        proof {
            assert(raw.len() == named@.len());
        }
        if named.len() == 0 && !git.stash_untracked {
            return Progress::Done(
                (
                    Git { stash: None, stashed_paths: None, ..git },
                    Ok(StashOutcome::NothingTracked),
                ),
            );
        }
        let paths = if named.len() == 0 {
            None
        } else {
            Some(named)
        };
        let git = Git { stashed_paths: Some(files), ..git };
        if git.libgit2 {
            Progress::Ask(
                Action::LibGitSignature,
                StashOp { git, status, phase: StashPhase::Signature(paths) },
            )
        } else {
            let c = stash_command(git.stash_untracked, &paths);
            Progress::Ask(
                Action::RunGit(c),
                StashOp { git, status, phase: StashPhase::GitStash },
            )
        }
    }

    /// Asks for the differences between work tree and index.
    fn ask_diff(git: Git, status: GitStatus) -> (r: Stashed)
        ensures
            StashOp::asks_diff(git, status, r),
    {
        let c = Command::of(
            &["diff", "--name-only", "-z", "--no-ext-diff", "--ignore-submodules"],
        );
        Progress::Ask(Action::ReadGit(c), StashOp { git, status, phase: StashPhase::Diff })
    }

    /// Collects the files to put aside.
    fn collect_files(
        list: &Vec<RepoPath>,
        presence: &Vec<Presence>,
        status: &GitStatus,
        untracked: bool,
    ) -> (r: PathSet)
        ensures
            r.wf(),
            r@ == to_stash(raw_paths(list@), presence@, *status, untracked),
    {
        let mut all = keep_existing(list, presence);
        let ghost first = raw_paths(all@);
        let mut more = copy_paths(&status.unstaged_files.items);
        append_paths(&mut all, more);
        if untracked {
            append_paths(&mut all, copy_paths(&status.untracked_files.items));
        }
        proof {
            assert(raw_paths(all@) == first + status.unstaged_files@ + (if untracked {
                status.untracked_files@
            } else {
                Seq::empty()
            }));
        }
        PathSet::collect(&all)
    }

    /// Goes on when the outcome of the action is known.
    pub fn resume(self, reply: Reply) -> (r: Stashed)
        ensures
            StashOp::follows(self, reply, r),
    {
        let StashOp { git, status, phase } = self;
        match phase {
            StashPhase::Head => {
                let told = if git.libgit2 {
                    match reply {
                        Reply::Name(Some(_)) => true,
                        _ => false,
                    }
                } else {
                    reply.into_text().is_some()
                };
                if told {
                    StashOp::ask_diff(git, status)
                } else {
                    Progress::Done((git, Ok(StashOutcome::NoCommit)))
                }
            },
            StashPhase::Diff => {
                let output = reply.into_text_or_empty();
                let list = paths_of(&split_records(output.as_str()));
                let c = Command::of(&["ls-files", "-m", "-z"]);
                Progress::Ask(
                    Action::ReadGit(c),
                    StashOp { git, status, phase: StashPhase::Modified(list) },
                )
            },
            StashPhase::Modified(list) => {
                let output = reply.into_text_or_empty();
                let mut list = list;
                append_paths(&mut list, paths_of(&split_records(output.as_str())));
                let flag = if git.stash_untracked {
                    "--untracked-files=all"
                } else {
                    "--untracked-files=no"
                };
                let c = Command::of(&["status", "--porcelain", "--no-renames", flag, "-z"]);
                Progress::Ask(
                    Action::ReadGit(c),
                    StashOp { git, status, phase: StashPhase::Status(list) },
                )
            },
            StashPhase::Status(list) => {
                let output = reply.into_text_or_empty();
                let mut list = list;
                append_paths(&mut list, keep_worktree_changed(&parse_porcelain(output.as_str())));
                let paths = copy_paths(&list);
                Progress::Ask(
                    Action::Probe(paths),
                    StashOp { git, status, phase: StashPhase::Probe(list) },
                )
            },
            StashPhase::Probe(list) => {
                let presence = into_found(reply);
                let files = StashOp::collect_files(
                    &list,
                    &presence,
                    &status,
                    git.stash_untracked,
                );
                StashOp::push_stash(git, status, files)
            },
            StashPhase::Signature(paths) => {
                if !reply.into_ok() {
                    return Progress::Done((git, Err(GitError::Signature)));
                }
                if paths.is_some() {
                    let c = stash_command(git.stash_untracked, &paths);
                    Progress::Ask(
                        Action::RunGit(c),
                        StashOp { git, status, phase: StashPhase::GitStash },
                    )
                } else {
                    let untracked = git.stash_untracked;
                    Progress::Ask(
                        Action::LibGitStash("hk".to_owned(), untracked),
                        StashOp { git, status, phase: StashPhase::LibStash },
                    )
                }
            },
            StashPhase::LibStash => {
                if reply.into_ok() {
                    StashOp::ask_commit(git, status, StashType::LibGit)
                } else {
                    let c = stash_command(git.stash_untracked, &None);
                    Progress::Ask(
                        Action::RunGit(c),
                        StashOp { git, status, phase: StashPhase::GitStash },
                    )
                }
            },
            StashPhase::GitStash => {
                if reply.into_ok() {
                    StashOp::ask_commit(git, status, StashType::Git)
                } else {
                    Progress::Done((git, Err(GitError::Command)))
                }
            },
            StashPhase::Commit(made) => match reply.into_text() {
                None => StashOp::finish(git, made),
                Some(hash) => {
                    let hash = trim(hash.as_str());
                    let git = Git { stash_commit: Some(hash), ..git };
                    if git.stash_backup_count == 0 {
                        StashOp::finish(git, made)
                    } else {
                        Progress::Ask(
                            Action::PreparePatches,
                            StashOp { git, status, phase: StashPhase::PatchDir(made) },
                        )
                    }
                },
            },
            StashPhase::PatchDir(made) => match reply {
                Reply::Path(Some(dir)) => {
                    let repo = repo_name(&dir);
                    let file = new_patch_file_name(repo.as_str());
                    let hash = match &git.stash_commit {
                        Some(h) => h.clone(),
                        None => String::new(),
                    };
                    let c = show_patch(hash.as_str(), git.stash_untracked);
                    Progress::Ask(
                        Action::ReadGitQuiet(c),
                        StashOp { git, status, phase: StashPhase::PatchText(made, repo, file) },
                    )
                },
                _ => StashOp::finish(git, made),
            },
            StashPhase::PatchText(made, repo, file) => match reply.into_text() {
                Some(patch) => Progress::Ask(
                    Action::WritePatch(file, patch),
                    StashOp { git, status, phase: StashPhase::PatchWrite(made, repo) },
                ),
                None => StashOp::finish(git, made),
            },
            StashPhase::PatchWrite(made, repo) => {
                if reply.into_ok() {
                    Progress::Ask(
                        Action::ListPatches,
                        StashOp { git, status, phase: StashPhase::PatchList(made, repo) },
                    )
                } else {
                    StashOp::finish(git, made)
                }
            },
            StashPhase::PatchList(made, repo) => match reply {
                Reply::Patches(list) => {
                    let gone = rotate_patch_files(&list, repo.as_str(), git.stash_backup_count);
                    proof {
                        assert(texts(gone@).len() == gone@.len());
                    }
                    if gone.len() == 0 {
                        StashOp::finish(git, made)
                    } else {
                        Progress::Ask(
                            Action::RemovePatches(gone),
                            StashOp { git, status, phase: StashPhase::PatchRemove(made) },
                        )
                    }
                },
                _ => StashOp::finish(git, made),
            },
            StashPhase::PatchRemove(made) => StashOp::finish(git, made),
        }
    }
}

/// Appends paths to paths.
fn append_paths(to: &mut Vec<RepoPath>, from: Vec<RepoPath>)
    ensures
        raw_paths(final(to)@) == raw_paths(old(to)@) + raw_paths(from@),
{
    let ghost a = to@;
    let ghost b = from@;
    let mut from = from;
    to.append(&mut from);
    proof {
        assert(raw_paths(to@) == raw_paths(a) + raw_paths(b));
    }
}

/// How many answers putting changes aside still waits for, at most.
pub open spec fn stash_steps(phase: StashPhase) -> nat {
    match phase {
        StashPhase::Head => 14,
        StashPhase::Diff => 13,
        StashPhase::Modified(_) => 12,
        StashPhase::Status(_) => 11,
        StashPhase::Probe(_) => 10,
        StashPhase::Signature(_) => 9,
        StashPhase::LibStash => 8,
        StashPhase::GitStash => 7,
        StashPhase::Commit(_) => 6,
        StashPhase::PatchDir(_) => 5,
        StashPhase::PatchText(_, _, _) => 4,
        StashPhase::PatchWrite(_, _) => 3,
        StashPhase::PatchList(_, _) => 2,
        StashPhase::PatchRemove(_) => 1,
    }
}

/// Putting changes aside ends, whatever it is told.
pub proof fn law_stashing_ends(pre: StashOp, reply: Reply, r: Stashed)
    requires
        StashOp::follows(pre, reply, r),
    ensures
        r matches Progress::Ask(_, post) ==> stash_steps(post.phase) < stash_steps(pre.phase),
{
}

/// The paths that are looked for are those that git's three answers name.
pub proof fn law_three_answers_make_the_candidates(
    start: StashOp,
    diff: Reply,
    second: StashOp,
    modified: Reply,
    third: StashOp,
    status: Reply,
    fourth: StashOp,
    a: Action,
    b: Action,
    c: Action,
)
    requires
        start.phase is Diff,
        StashOp::follows(start, diff, Progress::Ask(a, second)),
        StashOp::follows(second, modified, Progress::Ask(b, third)),
        StashOp::follows(third, status, Progress::Ask(c, fourth)),
    ensures
        c matches Action::Probe(paths) && raw_paths(paths@) == candidates(
            diff.text_or_empty(),
            modified.text_or_empty(),
            status.text_or_empty(),
        ),
        fourth.phase matches StashPhase::Probe(list) && raw_paths(list@) == candidates(
            diff.text_or_empty(),
            modified.text_or_empty(),
            status.text_or_empty(),
        ),
{
}

/// Whether the paths to put aside are noted once there is something to stash.
pub open spec fn stash_noted(op: StashOp) -> bool {
    stash_steps(op.phase) < 10 ==> op.git.stashed_paths is Some && op.git.wf()
}

/// The paths are noted before anything is stashed, and stay noted. A stash
/// entry that was made is on record with its paths when the work ends.
pub proof fn law_a_stash_is_on_record(pre: StashOp, reply: Reply, r: Stashed)
    requires
        StashOp::follows(pre, reply, r),
        stash_noted(pre),
        pre.git.wf(),
    ensures
        r matches Progress::Ask(_, post) ==> stash_noted(post) && post.git.wf(),
        r matches Progress::Done((git, Ok(StashOutcome::Stashed(made)))) ==> git.wf()
            && git.stash == Some(made) && git.stashed_paths is Some,
{
}

/// Once a stash entry is made, nothing that happens to its backup fails it.
pub proof fn law_a_backup_never_fails_the_stash(pre: StashOp, reply: Reply, r: Stashed)
    requires
        StashOp::follows(pre, reply, r),
        stash_steps(pre.phase) <= 6,
    ensures
        r matches Progress::Done((_, out)) ==> (out matches Ok(StashOutcome::Stashed(_))),
{
}

/// An end without a stash entry never puts one on record.
pub proof fn law_no_stash_without_an_entry(pre: StashOp, reply: Reply, r: Stashed)
    requires
        StashOp::follows(pre, reply, r),
    ensures
        r matches Progress::Done((git, Ok(outcome))) ==> !(outcome is Stashed) ==> git.stash
            == pre.git.stash || git.stash is None,
        r matches Progress::Done((git, Err(_))) ==> git == pre.git,
{
}

/// Before the first commit nothing is stashed, and nothing else is asked.
pub proof fn law_nothing_is_stashed_before_the_first_commit(
    pre: StashOp,
    reply: Reply,
    r: Stashed,
)
    requires
        StashOp::follows(pre, reply, r),
        pre.phase is Head,
        !commit_told(pre.git.libgit2, reply),
    ensures
        r == Stashed::Done((pre.git, Ok(StashOutcome::NoCommit))),
{
}

impl Git {
    /// Starts to put unstaged changes aside, unless stashing is switched off.
    /// There is nothing to stash against before the first commit, so that is
    /// asked for first.
    pub fn stash_unstaged(self, method: StashMethod, status: GitStatus) -> (r: Stashed)
        ensures
            if method == StashMethod::Disabled {
                r == Stashed::Done((self, Ok(StashOutcome::Disabled)))
            } else {
                &&& r matches Progress::Ask(action, op)
                &&& op == StashOp { git: self, status, phase: StashPhase::Head }
                &&& if self.libgit2 {
                    action is LibGitHead
                } else {
                    action matches Action::ReadGitQuiet(c) && c.says(
                        seq!["rev-parse"@, "-q"@, "--verify"@, "HEAD"@],
                    )
                }
            },
    {
        if method == StashMethod::Disabled {
            return Progress::Done((self, Ok(StashOutcome::Disabled)));
        }
        let action = if self.libgit2 {
            Action::LibGitHead
        } else {
            Action::ReadGitQuiet(Command::of(&["rev-parse", "-q", "--verify", "HEAD"]))
        };
        Progress::Ask(action, StashOp { git: self, status, phase: StashPhase::Head })
    }
}

/// Every path to put aside that is not untracked is named to git, and no
/// other, in the order of the paths.
pub proof fn law_every_path_known_to_git_is_named(list: Seq<Seq<u8>>, untracked: Seq<Seq<u8>>)
    ensures
        known_to_git(list, untracked) == list.filter(|p: Seq<u8>| !names_path(untracked, p)),
        forall|i: int|
            0 <= i < list.len() && !names_path(untracked, #[trigger] list[i]) ==> known_to_git(
                list,
                untracked,
            ).contains(list[i]),
    decreases list.len(),
{
    reveal(Seq::filter);
    if list.len() > 0 {
        let rest = list.drop_last();
        law_every_path_known_to_git_is_named(rest, untracked);
        let all = known_to_git(list, untracked);
        let before = known_to_git(rest, untracked);
        assert forall|i: int|
            0 <= i < list.len() && !names_path(
                untracked,
                #[trigger] list[i],
            ) implies all.contains(list[i]) by {
            if i < rest.len() {
                assert(rest[i] == list[i]);
                let k = choose|k: int| 0 <= k < before.len() && before[k] == rest[i];
                assert(all[k] == list[i]);
            } else {
                assert(all[all.len() - 1] == list[i]);
            }
        }
    }
}

/// The work tree's changes are the lines that tell of one: modified, of
/// another type or renamed. Each gives its path, in the order of the lines.
pub proof fn law_lines_tell_what_changed_in_the_work_tree(list: Seq<Change>)
    ensures
        worktree_changed(list) == list.filter(
            |c: Change| c.worktree == 'M' || c.worktree == 'T' || c.worktree == 'R',
        ).map_values(|c: Change| c.path),
    decreases list.len(),
{
    reveal(Seq::filter);
    let test = |c: Change| c.worktree == 'M' || c.worktree == 'T' || c.worktree == 'R';
    let path = |c: Change| c.path;
    if list.len() > 0 {
        let rest = list.drop_last();
        law_lines_tell_what_changed_in_the_work_tree(rest);
        if test(list.last()) {
            assert(rest.filter(test).push(list.last()).map_values(path) == rest.filter(
                test,
            ).map_values(path).push(list.last().path));
        }
    } else {
        assert(list.filter(test).map_values(path) == Seq::<Seq<u8>>::empty());
    }
}

/// The paths that are texts are all read, and no other, in their order.
pub proof fn law_every_path_that_is_text_is_read(list: Seq<Seq<u8>>)
    ensures
        readable_paths(list) == list.filter(|p: Seq<u8>| valid_utf8(p)).map_values(
            |p: Seq<u8>| decode_utf8(p),
        ),
    decreases list.len(),
{
    reveal(Seq::filter);
    let test = |p: Seq<u8>| valid_utf8(p);
    let read = |p: Seq<u8>| decode_utf8(p);
    if list.len() > 0 {
        let rest = list.drop_last();
        law_every_path_that_is_text_is_read(rest);
        if test(list.last()) {
            assert(rest.filter(test).push(list.last()).map_values(read) == rest.filter(
                test,
            ).map_values(read).push(decode_utf8(list.last())));
        }
    } else {
        assert(list.filter(test).map_values(read) == Seq::<Seq<char>>::empty());
    }
}

/// A path exists where something lies at it: just those paths are kept.
pub proof fn law_existing_paths_are_those_with_something_there(
    list: Seq<Seq<u8>>,
    presence: Seq<Presence>,
    p: Seq<u8>,
)
    ensures
        names_path(existing(list, presence), p) <==> exists|i: int|
            0 <= i < list.len() && i < presence.len() && same_path(#[trigger] list[i], p)
                && presence[i].target,
    decreases list.len(),
{
    let x = existing(list, presence);
    if list.len() > 0 {
        let rest = list.drop_last();
        let xs = existing(rest, presence);
        let n = list.len() - 1;
        law_existing_paths_are_those_with_something_there(rest, presence, p);
        assert(list[n] == list.last());
        if names_path(x, p) {
            let i = choose|i: int| 0 <= i < x.len() && same_path(#[trigger] x[i], p);
            if i < xs.len() {
                assert(same_path(xs[i], p));
                assert(names_path(xs, p));
                let k = choose|k: int|
                    0 <= k < rest.len() && k < presence.len() && same_path(#[trigger] rest[k], p)
                        && presence[k].target;
                assert(list[k] == rest[k]);
            }
        }
        if exists|i: int|
            0 <= i < list.len() && i < presence.len() && same_path(#[trigger] list[i], p)
                && presence[i].target {
            let k = choose|i: int|
                0 <= i < list.len() && i < presence.len() && same_path(#[trigger] list[i], p)
                    && presence[i].target;
            if k < n {
                assert(rest[k] == list[k]);
                assert(names_path(xs, p));
                let i = choose|i: int| 0 <= i < xs.len() && same_path(#[trigger] xs[i], p);
                assert(same_path(x[i], p));
            } else {
                assert(x[xs.len() as int] == list[k]);
                assert(same_path(x[xs.len() as int], p));
            }
        }
    }
}

/// Whether a file is to be put aside: something lies where git's answers name
/// it, the status counts it as unstaged, or as untracked where untracked files
/// are stashed too.
pub open spec fn is_wanted(
    list: Seq<RepoPath>,
    at: Seq<Presence>,
    status: GitStatus,
    untracked: bool,
    p: Seq<u8>,
) -> bool {
    ||| exists|i: int|
        0 <= i < list.len() && i < at.len() && same_path((#[trigger] list[i]).raw@, p)
            && at[i].target
    ||| names_path(status.unstaged_files@, p)
    ||| untracked && names_path(status.untracked_files@, p)
}

proof fn lemma_joined_names(a: Seq<Seq<u8>>, b: Seq<Seq<u8>>, p: Seq<u8>)
    ensures
        names_path(a + b, p) <==> names_path(a, p) || names_path(b, p),
{
    let x = a + b;
    if names_path(x, p) {
        let i = choose|i: int| 0 <= i < x.len() && same_path(#[trigger] x[i], p);
        if i < a.len() {
            assert(same_path(a[i], p));
        } else {
            assert(same_path(b[i - a.len()], p));
        }
    }
    if names_path(a, p) {
        let i = choose|i: int| 0 <= i < a.len() && same_path(#[trigger] a[i], p);
        assert(same_path(x[i], p));
    }
    if names_path(b, p) {
        let i = choose|i: int| 0 <= i < b.len() && same_path(#[trigger] b[i], p);
        assert(same_path(x[a.len() + i], p));
    }
}

proof fn lemma_to_stash_names(
    list: Seq<RepoPath>,
    at: Seq<Presence>,
    status: GitStatus,
    untracked: bool,
    p: Seq<u8>,
)
    ensures
        names_path(to_stash(raw_paths(list), at, status, untracked), p) <==> is_wanted(
            list,
            at,
            status,
            untracked,
            p,
        ),
{
    let raw = raw_paths(list);
    let found = existing(raw, at);
    let more = if untracked {
        status.untracked_files@
    } else {
        Seq::empty()
    };
    law_existing_paths_are_those_with_something_there(raw, at, p);
    lemma_joined_names(found, status.unstaged_files@, p);
    lemma_joined_names(found + status.unstaged_files@, more, p);
    crate::paths::law_collected_names(found + status.unstaged_files@ + more, p);
    if names_path(found, p) {
        let i = choose|i: int|
            0 <= i < raw.len() && i < at.len() && same_path(#[trigger] raw[i], p) && at[i].target;
        assert(same_path(list[i].raw@, p));
    }
    if exists|i: int|
        0 <= i < list.len() && i < at.len() && same_path((#[trigger] list[i]).raw@, p)
            && at[i].target {
        let i = choose|i: int|
            0 <= i < list.len() && i < at.len() && same_path((#[trigger] list[i]).raw@, p)
                && at[i].target;
        assert(same_path(raw[i], p));
    }
}

/// Just the files that are to be put aside are noted before anything is
/// stashed. Nothing is stashed exactly where there are none, or only untracked
/// ones that are not stashed.
pub proof fn law_just_the_wanted_files_are_put_aside(
    pre: StashOp,
    at: Vec<Presence>,
    r: Stashed,
    p: Seq<u8>,
)
    requires
        pre.phase is Probe,
        StashOp::follows(pre, Reply::Presence(at), r),
    ensures
        ({
            let list = pre.phase->Probe_0@;
            let wanted = is_wanted(list, at@, pre.status, pre.git.stash_untracked, p);
            let known = !names_path(pre.status.untracked_files@, p);
            match r {
                Progress::Ask(_, post) => post.git.stashed_paths is Some && (names_path(
                    post.git.stashed_paths->0@,
                    p,
                ) <==> wanted),
                Progress::Done((git, Ok(StashOutcome::NothingUnstaged))) => !wanted && git
                    == pre.git,
                Progress::Done((git, Ok(StashOutcome::NothingTracked))) => {
                    &&& !(wanted && known) && !pre.git.stash_untracked
                    &&& git.stash is None && git.stashed_paths is None
                },
                _ => false,
            }
        }),
{
    let list = pre.phase->Probe_0@;
    let files = to_stash(raw_paths(list), at@, pre.status, pre.git.stash_untracked);
    lemma_to_stash_names(list, at@, pre.status, pre.git.stash_untracked, p);
    let untracked = pre.status.untracked_files@;
    if names_path(files, p) && !names_path(untracked, p) {
        let i = choose|i: int| 0 <= i < files.len() && same_path(#[trigger] files[i], p);
        if names_path(untracked, files[i]) {
            let k = choose|k: int|
                0 <= k < untracked.len() && same_path(#[trigger] untracked[k], files[i]);
            assert(same_path(untracked[k], p));
        }
        law_every_path_known_to_git_is_named(files, untracked);
        assert(known_to_git(files, untracked).contains(files[i]));
    }
}

/// Whether a command line has git stash just the known ones among some paths,
/// by their names behind `--`; with none to name, it stashes everything. The
/// index is kept, and untracked files go along where they are wanted.
pub open spec fn stashes_known(
    c: Command,
    with_untracked: bool,
    files: Seq<Seq<u8>>,
    untracked: Seq<Seq<u8>>,
) -> bool {
    let named = files.filter(
        |p: Seq<u8>| !names_path(untracked, p),
    ).filter(|p: Seq<u8>| valid_utf8(p)).map_values(|p: Seq<u8>| decode_utf8(p));
    let flags: int = if with_untracked {
        6
    } else {
        5
    };
    &&& c.paths@.len() == 0
    &&& c.args@[0]@ == "stash"@ && c.args@[1]@ == "push"@ && c.args@[2]@ == "--keep-index"@
    &&& c.args@[3]@ == "-m"@ && c.args@[4]@ == "hk"@
    &&& with_untracked ==> c.args@[5]@ == "--include-untracked"@
    &&& if named.len() == 0 {
        c.args@.len() == flags
    } else {
        &&& c.args@.len() == flags + 1 + named.len()
        &&& c.args@[flags]@ == "--"@
        &&& forall|i: int| 0 <= i < named.len() ==> (#[trigger] c.args@[flags + 1 + i])@ == named[i]
    }
}

proof fn lemma_stash_args(
    c: Command,
    with_untracked: bool,
    files: Seq<Seq<u8>>,
    untracked: Seq<Seq<u8>>,
)
    requires
        c.says(
            stash_args(
                with_untracked,
                if known_to_git(files, untracked).len() == 0 {
                    None
                } else {
                    Some(known_to_git(files, untracked))
                },
            ),
        ),
    ensures
        stashes_known(c, with_untracked, files, untracked),
{
    let known = known_to_git(files, untracked);
    law_every_path_known_to_git_is_named(files, untracked);
    law_every_path_that_is_text_is_read(known);
    let named = files.filter(
        |p: Seq<u8>| !names_path(untracked, p),
    ).filter(|p: Seq<u8>| valid_utf8(p)).map_values(|p: Seq<u8>| decode_utf8(p));
    assert(named == readable_paths(known));
    let paths = if known.len() == 0 {
        None
    } else {
        Some(known)
    };
    if known.len() == 0 {
        reveal(Seq::filter);
        assert(named.len() == 0);
    }
    let args = stash_args(with_untracked, paths);
    crate::work::law_a_command_says_its_arguments(c, args, Seq::empty());
    let flags: int = if with_untracked {
        6
    } else {
        5
    };
    if named.len() > 0 {
        assert forall|i: int| 0 <= i < named.len() implies (#[trigger] c.args@[flags + 1 + i])@
            == named[i] by {
            assert(args[flags + 1 + i] == named[i]);
        }
    }
}

/// Git is told to stash every noted file that it knows, by name.
pub proof fn law_git_is_told_every_file_that_it_knows(
    pre: StashOp,
    at: Vec<Presence>,
    c: Command,
    post: StashOp,
)
    requires
        pre.phase is Probe,
        !pre.git.libgit2,
        StashOp::follows(pre, Reply::Presence(at), Progress::Ask(Action::RunGit(c), post)),
    ensures
        post.phase is GitStash,
        stashes_known(
            c,
            pre.git.stash_untracked,
            post.git.stashed_paths->0@,
            pre.status.untracked_files@,
        ),
{
    lemma_stash_args(
        c,
        pre.git.stash_untracked,
        post.git.stashed_paths->0@,
        pre.status.untracked_files@,
    );
}

/// With libgit2 a signature comes first: without one, stashing fails. Files
/// that git knows are stashed by the git program, by name; where there are
/// none, libgit2 stashes everything.
pub proof fn law_with_libgit2_known_files_are_stashed_by_name(
    pre: StashOp,
    at: Vec<Presence>,
    mid: StashOp,
    asked: Action,
    signed: bool,
    r: Stashed,
)
    requires
        pre.phase is Probe,
        pre.git.libgit2,
        StashOp::follows(pre, Reply::Presence(at), Progress::Ask(asked, mid)),
        StashOp::follows(mid, Reply::Done(signed), r),
    ensures
        asked is LibGitSignature,
        !signed ==> (r matches Progress::Done((git, Err(GitError::Signature))) && git == mid.git),
        signed ==> {
            &&& r matches Progress::Ask(action, post)
            &&& post.git == mid.git
            &&& if forall|i: int|
                0 <= i < mid.git.stashed_paths->0@.len() ==> names_path(
                    pre.status.untracked_files@,
                    #[trigger] mid.git.stashed_paths->0@[i],
                ) {
                &&& action matches Action::LibGitStash(message, untracked)
                &&& message@ == "hk"@ && untracked == pre.git.stash_untracked
                &&& post.phase is LibStash
            } else {
                &&& action matches Action::RunGit(c)
                &&& post.phase is GitStash
                &&& stashes_known(
                    c,
                    pre.git.stash_untracked,
                    mid.git.stashed_paths->0@,
                    pre.status.untracked_files@,
                )
            }
        },
{
    let files = mid.git.stashed_paths->0@;
    let untracked = pre.status.untracked_files@;
    let known = known_to_git(files, untracked);
    law_every_path_known_to_git_is_named(files, untracked);
    if known.len() > 0 {
        law_no_untracked_path_is_stashed_by_name(files, untracked, 0);
        let k = choose|k: int| 0 <= k < files.len() && files[k] == known[0];
        assert(!names_path(untracked, files[k]));
        if signed {
            if let Progress::Ask(Action::RunGit(c), post) = r {
                lemma_stash_args(c, pre.git.stash_untracked, files, untracked);
            }
        }
    } else {
        assert forall|i: int| 0 <= i < files.len() implies names_path(
            untracked,
            #[trigger] files[i],
        ) by {
            if !names_path(untracked, files[i]) {
                assert(known.contains(files[i]));
            }
        }
    }
}

/// Where libgit2 cannot stash, the git program stashes everything. Where that
/// fails too, so does putting changes aside. Once there is an entry, its commit
/// is asked for.
pub proof fn law_a_stash_that_is_made_is_looked_up(pre: StashOp, done: bool, r: Stashed)
    requires
        pre.phase is LibStash || pre.phase is GitStash,
        StashOp::follows(pre, Reply::Done(done), r),
    ensures
        done ==> {
            &&& r matches Progress::Ask(Action::ReadGit(c), post)
            &&& c.says(seq!["rev-parse"@, "-q"@, "--verify"@, "stash@{0}"@])
            &&& post.git == pre.git
            &&& post.phase == StashPhase::Commit(
                if pre.phase is LibStash {
                    StashType::LibGit
                } else {
                    StashType::Git
                },
            )
        },
        !done && pre.phase is LibStash ==> {
            &&& r matches Progress::Ask(Action::RunGit(c), post)
            &&& post.git == pre.git && post.phase is GitStash
            &&& stashes_known(c, pre.git.stash_untracked, Seq::empty(), Seq::empty())
        },
        !done && pre.phase is GitStash ==> (r matches Progress::Done(
            (git, Err(GitError::Command)),
        ) && git == pre.git),
{
    if !done && pre.phase is LibStash {
        if let Progress::Ask(Action::RunGit(c), post) = r {
            lemma_stash_args(c, pre.git.stash_untracked, Seq::empty(), Seq::empty());
        }
    }
}

/// The commit of an entry is recorded without the white space around it, and
/// the entry counts as made whether its commit is known or not.
pub proof fn law_the_commit_of_an_entry_is_recorded(
    pre: StashOp,
    made: StashType,
    told: Option<String>,
    r: Stashed,
)
    requires
        pre.phase == StashPhase::Commit(made),
        StashOp::follows(pre, Reply::Text(told), r),
    ensures
        told is None ==> (r matches Progress::Done((git, Ok(StashOutcome::Stashed(kind)))) && kind
            == made && git == (Git { stash: Some(made), ..pre.git })),
        told is Some && pre.git.stash_backup_count == 0 ==> {
            &&& r matches Progress::Done((git, Ok(StashOutcome::Stashed(kind))))
            &&& kind == made && git.stash == Some(made)
            &&& git.stash_commit is Some && git.stash_commit->0@ == trimmed(told->0@)
            &&& git.stashed_paths == pre.git.stashed_paths
            &&& git.saved_index == pre.git.saved_index
            &&& git.saved_worktree == pre.git.saved_worktree
        },
        told is Some && pre.git.stash_backup_count > 0 ==> {
            &&& r matches Progress::Ask(Action::PreparePatches, post)
            &&& post.git.stash_commit is Some && post.git.stash_commit->0@ == trimmed(told->0@)
            &&& post.git.stashed_paths == pre.git.stashed_paths
            &&& post.git.stash_backup_count == pre.git.stash_backup_count
            &&& post.phase == StashPhase::PatchDir(made)
        },
{
}

/// A backup holds what git shows of the recorded commit, untracked files too
/// where they are stashed, under a name of the directory's repository. Once it
/// is written, all but the newest backups of that repository are removed.
/// Whatever fails on the way, the entry counts as made.
pub proof fn law_a_backup_holds_what_git_shows(
    pre: StashOp,
    made: StashType,
    dir: RepoPath,
    first: Stashed,
    patch: Option<String>,
    second: Stashed,
    wrote: bool,
    third: Stashed,
    list: Vec<crate::work::PatchEntry>,
    last: Stashed,
)
    requires
        pre.phase == StashPhase::PatchDir(made),
        pre.git.stash_commit is Some,
        StashOp::follows(pre, Reply::Path(Some(dir)), first),
        first matches Progress::Ask(_, op) && StashOp::follows(op, Reply::Text(patch), second),
        patch is Some ==> (second matches Progress::Ask(_, op) && StashOp::follows(
            op,
            Reply::Done(wrote),
            third,
        )),
        patch is Some && wrote ==> (third matches Progress::Ask(_, op) && StashOp::follows(
            op,
            Reply::Patches(list),
            last,
        )),
    ensures
        ({
            let left = Git { stash: Some(made), ..pre.git };
            let done = Stashed::Done((left, Ok(StashOutcome::Stashed(made))));
            let commit = pre.git.stash_commit->0@;
            let gone = outdated(
                list@,
                repo_name_of(dir.raw@),
                pre.git.stash_backup_count as nat,
            );
            &&& first matches Progress::Ask(Action::ReadGitQuiet(c), _)
            &&& c.says(
                if pre.git.stash_untracked {
                    seq!["stash"@, "show"@, "-p"@, "--include-untracked"@, commit]
                } else {
                    seq!["stash"@, "show"@, "-p"@, commit]
                },
            )
            &&& patch is None ==> second == done
            &&& patch is Some ==> {
                &&& second matches Progress::Ask(Action::WritePatch(name, contents), _)
                &&& contents@ == patch->0@
                &&& is_patch_name(name@, repo_name_of(dir.raw@))
            }
            &&& patch is Some && !wrote ==> third == done
            &&& patch is Some && wrote ==> (third matches Progress::Ask(Action::ListPatches, _))
            &&& patch is Some && wrote && gone.len() == 0 ==> last == done
            &&& patch is Some && wrote && gone.len() > 0 ==> {
                &&& last matches Progress::Ask(Action::RemovePatches(names), post)
                &&& texts(names@) == gone
                &&& post.phase == StashPhase::PatchRemove(made) && post.git == pre.git
            }
        }),
{
}

/// However the removal of old backups goes, the entry counts as made; and
/// without a directory for backups none is written.
pub proof fn law_backups_are_no_condition(pre: StashOp, made: StashType, reply: Reply, r: Stashed)
    requires
        pre.phase == StashPhase::PatchRemove(made) || (pre.phase == StashPhase::PatchDir(made)
            && !(reply matches Reply::Path(Some(_)))),
        StashOp::follows(pre, reply, r),
    ensures
        r == Stashed::Done(
            ((Git { stash: Some(made), ..pre.git }), Ok(StashOutcome::Stashed(made))),
        ),
{
}

/// A commit is there where libgit2 finds `HEAD`, or git verifies it; then git
/// is asked three times for what differs from the index, with untracked files
/// only where they are stashed. No answer counts as an empty one.
pub proof fn law_git_is_asked_three_times(
    pre: StashOp,
    head: Reply,
    first: Stashed,
    diff: Option<String>,
    second: Stashed,
    modified: Option<String>,
    third: Stashed,
)
    requires
        pre.phase is Head,
        StashOp::follows(pre, head, first),
        first matches Progress::Ask(_, op) ==> StashOp::follows(op, Reply::Text(diff), second),
        first is Ask ==> (second matches Progress::Ask(_, op) ==> StashOp::follows(
            op,
            Reply::Text(modified),
            third,
        )),
    ensures
        first is Ask <==> if pre.git.libgit2 {
            head matches Reply::Name(Some(_))
        } else {
            head matches Reply::Text(Some(_))
        },
        first is Done ==> first == Stashed::Done((pre.git, Ok(StashOutcome::NoCommit))),
        first is Ask ==> {
            let args = seq!["diff"@, "--name-only"@, "-z"@, "--no-ext-diff"@, "--ignore-submodules"@];
            &&& first matches Progress::Ask(Action::ReadGit(c), _) && c.says(args)
            &&& second matches Progress::Ask(Action::ReadGit(c), op)
            &&& c.says(seq!["ls-files"@, "-m"@, "-z"@])
            &&& op.phase matches StashPhase::Modified(list)
            &&& diff is None ==> list@.len() == 0
            &&& third matches Progress::Ask(Action::ReadGit(c), op)
            &&& op.git == pre.git && op.status == pre.status
            &&& pre.git.stash_untracked ==> c.says(
                seq!["status"@, "--porcelain"@, "--no-renames"@, "--untracked-files=all"@, "-z"@],
            )
            &&& !pre.git.stash_untracked ==> c.says(
                seq!["status"@, "--porcelain"@, "--no-renames"@, "--untracked-files=no"@, "-z"@],
            )
        },
{
    if let Progress::Ask(Action::ReadGit(c), op) = second {
        if let StashPhase::Modified(list) = op.phase {
            if diff is None && first is Ask {
                crate::text::law_a_nul_ends_a_record(Seq::empty(), Seq::empty());
                assert(raw_paths(list@).len() == list@.len());
            }
        }
    }
}

/// The candidates are what each of the three answers names, in this order: the
/// records of the first two, and the lines of the third that tell of a change
/// in the work tree.
pub proof fn law_candidates_come_from_all_three_answers(
    diff: Seq<char>,
    modified: Seq<char>,
    status: Seq<char>,
)
    ensures
        candidates(diff, modified, status) == records(diff).map_values(
            |t: Seq<char>| vstd::utf8::encode_utf8(t),
        ) + records(modified).map_values(|t: Seq<char>| vstd::utf8::encode_utf8(t)) + porcelain(
            status,
        ).filter(
            |c: Change| c.worktree == 'M' || c.worktree == 'T' || c.worktree == 'R',
        ).map_values(|c: Change| c.path),
{
    law_lines_tell_what_changed_in_the_work_tree(porcelain(status));
    assert(spelled(records(diff)) == records(diff).map_values(
        |t: Seq<char>| vstd::utf8::encode_utf8(t),
    ));
    assert(spelled(records(modified)) == records(modified).map_values(
        |t: Seq<char>| vstd::utf8::encode_utf8(t),
    ));
}

/// The status that was read before stays what the work goes by.
pub proof fn law_the_status_stays_while_changes_are_put_aside(
    pre: StashOp,
    reply: Reply,
    r: Stashed,
)
    requires
        StashOp::follows(pre, reply, r),
        r is Ask,
    ensures
        r->Ask_1.status == pre.status,
        r->Ask_1.git.libgit2 == pre.git.libgit2,
        r->Ask_1.git.stash_untracked == pre.git.stash_untracked,
        r->Ask_1.git.stash_backup_count == pre.git.stash_backup_count,
        r->Ask_1.git.saved_index == pre.git.saved_index,
        r->Ask_1.git.saved_worktree == pre.git.saved_worktree,
        r->Ask_1.git.stash == pre.git.stash,
{
}

} // verus!
