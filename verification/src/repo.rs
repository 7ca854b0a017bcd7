//! Opening the repository.
use crate::git::{Git, GitError};
use crate::paths::RepoPath;
use crate::roots::{
    below_path, has_drive, is_relative_path, law_below_an_absolute_path_is_absolute,
};
use crate::step::Platform;
use crate::work::{Action, Progress, Reply};
use vstd::prelude::*;

verus! {

/// What the environment and the settings say about the repository.
#[derive(Debug)]
pub struct GitEnv {
    /// `GIT_DIR`.
    pub git_dir: Option<RepoPath>,
    /// `GIT_WORK_TREE`.
    pub work_tree: Option<RepoPath>,
    /// `GIT_INDEX_FILE`.
    pub index_file: Option<RepoPath>,
    /// Whether libgit2 is to be used.
    pub libgit2: bool,
    /// Whether untracked files are looked for, and stashed.
    pub stash_untracked: bool,
    /// How many patch backups of stashes are kept.
    pub stash_backup_count: usize,
    /// The system that the repository is on.
    pub platform: Platform,
}

/// The names and values of variables.
pub open spec fn vars(list: Seq<(String, RepoPath)>) -> Seq<(Seq<char>, Seq<u8>)> {
    Seq::new(list.len(), |i: int| (list[i].0@, list[i].1@))
}

/// The bytes of a path that may be missing.
pub open spec fn opt_path(p: Option<RepoPath>) -> Option<Seq<u8>> {
    match p {
        Some(path) => Some(path@),
        None => None,
    }
}

/// The variable with the path made absolute, where it is set to a relative one.
pub open spec fn made_absolute(
    cwd: Seq<u8>,
    name: Seq<char>,
    value: Option<RepoPath>,
    platform: Platform,
) -> Seq<(Seq<char>, Seq<u8>)> {
    if value is Some && is_relative_path(value->0@, platform) {
        seq![(name, below_path(cwd, value->0@, platform))]
    } else {
        Seq::empty()
    }
}

/// The variables to set before the directory changes.
pub open spec fn exports(env: GitEnv, cwd: Seq<u8>) -> Seq<(Seq<char>, Seq<u8>)> {
    made_absolute(cwd, "GIT_DIR"@, env.git_dir, env.platform) + made_absolute(
        cwd,
        "GIT_WORK_TREE"@,
        env.work_tree,
        env.platform,
    ) + made_absolute(cwd, "GIT_INDEX_FILE"@, env.index_file, env.platform)
}

/// Notes a variable to set.
fn note_absolute(
    out: &mut Vec<(String, RepoPath)>,
    cwd: &RepoPath,
    name: &str,
    value: &Option<RepoPath>,
    platform: Platform,
)
    ensures
        vars(final(out)@) == vars(old(out)@) + made_absolute(
            cwd@,
            name@,
            *value,
            platform,
        ),
{
    let ghost was = out@;
    if let Some(path) = value {
        if path.is_relative(platform) {
            out.push((name.to_owned(), path.below(cwd, platform)));
        }
    }
    proof {
        assert(vars(out@) == vars(was) + made_absolute(
            cwd@,
            name@,
            *value,
            platform,
        ));
    }
}

/// Where opening the repository stands.
#[derive(Debug)]
pub enum OpenPhase {
    /// Waits for the current directory.
    CurrentDir,
    /// Waits for the variables to be set.
    Export,
    /// Waits for the root of the work tree.
    Root,
    /// Waits for the root to be the current directory.
    Enter,
    /// Waits for libgit2 to open the repository.
    Lib,
    /// Waits for libgit2 to use an index file.
    Index,
}

/// Opening the repository.
#[derive(Debug)]
pub struct OpenGit {
    /// What the environment and the settings say.
    pub env: GitEnv,
    /// What is being waited for.
    pub phase: OpenPhase,
}

/// How opening the repository goes on.
pub type Opened = Progress<OpenGit, Result<Git, GitError>>;

impl GitEnv {
    /// Whether the environment says where the repository or its work tree is.
    pub open spec fn placed(&self) -> bool {
        self.git_dir is Some || self.work_tree is Some
    }

    /// The repository as it is before anything is stashed.
    pub open spec fn fresh(&self, libgit2: bool) -> Git {
        Git {
            libgit2,
            stash_untracked: self.stash_untracked,
            stash_backup_count: self.stash_backup_count,
            stash: None,
            stash_commit: None,
            stashed_paths: None,
            saved_index: None,
            saved_worktree: None,
        }
    }

    /// Tells whether the environment says where the repository is.
    fn is_placed(&self) -> (r: bool)
        ensures
            r == self.placed(),
    {
        self.git_dir.is_some() || self.work_tree.is_some()
    }

    /// The repository as it is before anything is stashed.
    fn open(self, libgit2: bool) -> (r: Opened)
        ensures
            r == Opened::Done(Ok(self.fresh(libgit2))),
    {
        Progress::Done(
            Ok(
                Git {
                    libgit2,
                    stash_untracked: self.stash_untracked,
                    stash_backup_count: self.stash_backup_count,
                    stash: None,
                    stash_commit: None,
                    stashed_paths: None,
                    saved_index: None,
                    saved_worktree: None,
                },
            ),
        )
    }
}

impl OpenGit {
    /// How opening goes on when it is told `reply`. Variables that place the
    /// repository are made absolute before the directory changes. libgit2
    /// leaves a bare repository to the git program.
    pub open spec fn follows(pre: OpenGit, reply: Reply, r: Opened) -> bool {
        match pre.phase {
            OpenPhase::CurrentDir => match reply {
                Reply::Path(Some(cwd)) => if pre.env.placed() {
                    &&& r matches Progress::Ask(Action::ExportVars(list), post)
                    &&& vars(list@) == exports(pre.env, cwd@)
                    &&& post.phase is Export
                    &&& post.env == GitEnv { index_file: post.env.index_file, ..pre.env }
                    &&& opt_path(post.env.index_file) == match pre.env.index_file {
                        Some(p) => Some(below_path(cwd@, p@, pre.env.platform)),
                        None => None,
                    }
                } else {
                    &&& r matches Progress::Ask(Action::FindUp(from, name), post)
                    &&& from == cwd && name@ == ".git"@
                    &&& post == OpenGit { env: pre.env, phase: OpenPhase::Root }
                },
                _ => r matches Progress::Done(Err(GitError::CurrentDir)),
            },
            OpenPhase::Export => r == Opened::Ask(
                Action::FindWorkTree,
                OpenGit { env: pre.env, phase: OpenPhase::Root },
            ),
            OpenPhase::Root => match reply {
                Reply::Path(Some(root)) => r == Opened::Ask(
                    Action::EnterDir(root),
                    OpenGit { env: pre.env, phase: OpenPhase::Enter },
                ),
                _ => r matches Progress::Done(Err(GitError::NoRepository)),
            },
            OpenPhase::Enter => if !reply.ok() {
                r matches Progress::Done(Err(GitError::EnterDir))
            } else if pre.env.libgit2 {
                r == Opened::Ask(
                    Action::OpenLibGit(pre.env.placed()),
                    OpenGit { env: pre.env, phase: OpenPhase::Lib },
                )
            } else {
                r == Opened::Done(Ok(pre.env.fresh(false)))
            },
            OpenPhase::Lib => match reply {
                Reply::Bare(Some(true)) => r == Opened::Done(Ok(pre.env.fresh(false))),
                Reply::Bare(Some(false)) => match pre.env.index_file {
                    Some(p) => {
                        &&& r matches Progress::Ask(Action::UseIndex(path), post)
                        &&& path@ == p@
                        &&& post == OpenGit { env: pre.env, phase: OpenPhase::Index }
                    },
                    None => r == Opened::Done(Ok(pre.env.fresh(true))),
                },
                _ => r matches Progress::Done(Err(GitError::OpenRepository)),
            },
            OpenPhase::Index => if reply.ok() {
                r == Opened::Done(Ok(pre.env.fresh(true)))
            } else {
                r matches Progress::Done(Err(GitError::Index))
            },
        }
    }

    /// Goes on when the outcome of the action is known.
    pub fn resume(self, reply: Reply) -> (r: Opened)
        ensures
            OpenGit::follows(self, reply, r),
    {
        let OpenGit { env, phase } = self;
        match phase {
            OpenPhase::CurrentDir => match reply {
                Reply::Path(Some(cwd)) => {
                    if env.is_placed() {
                        let mut list: Vec<(String, RepoPath)> = Vec::new();
                        note_absolute(
                            &mut list,
                            &cwd,
                            "GIT_DIR",
                            &env.git_dir,
                            env.platform,
                        );
                        note_absolute(
                            &mut list,
                            &cwd,
                            "GIT_WORK_TREE",
                            &env.work_tree,
                            env.platform,
                        );
                        note_absolute(
                            &mut list,
                            &cwd,
                            "GIT_INDEX_FILE",
                            &env.index_file,
                            env.platform,
                        );
                        proof {
                            assert(vars(list@) == exports(env, cwd@));
                        }
                        let index_file = match &env.index_file {
                            Some(p) => Some(p.below(&cwd, env.platform)),
                            None => None,
                        };
                        Progress::Ask(
                            Action::ExportVars(list),
                            OpenGit {
                                env: GitEnv { index_file, ..env },
                                phase: OpenPhase::Export,
                            },
                        )
                    } else {
                        Progress::Ask(
                            Action::FindUp(cwd, ".git".to_owned()),
                            OpenGit { env, phase: OpenPhase::Root },
                        )
                    }
                },
                _ => Progress::Done(Err(GitError::CurrentDir)),
            },
            OpenPhase::Export => Progress::Ask(
                Action::FindWorkTree,
                OpenGit { env, phase: OpenPhase::Root },
            ),
            OpenPhase::Root => match reply {
                Reply::Path(Some(root)) => Progress::Ask(
                    Action::EnterDir(root),
                    OpenGit { env, phase: OpenPhase::Enter },
                ),
                _ => Progress::Done(Err(GitError::NoRepository)),
            },
            OpenPhase::Enter => {
                if !reply.into_ok() {
                    return Progress::Done(Err(GitError::EnterDir));
                }
                if env.libgit2 {
                    let placed = env.is_placed();
                    Progress::Ask(
                        Action::OpenLibGit(placed),
                        OpenGit { env, phase: OpenPhase::Lib },
                    )
                } else {
                    env.open(false)
                }
            },
            OpenPhase::Lib => match reply {
                Reply::Bare(Some(bare)) => {
                    if bare {
                        return env.open(false);
                    }
                    let index = match &env.index_file {
                        Some(p) => Some(p.copy()),
                        None => None,
                    };
                    match index {
                        Some(path) => Progress::Ask(
                            Action::UseIndex(path),
                            OpenGit { env, phase: OpenPhase::Index },
                        ),
                        None => env.open(true),
                    }
                },
                _ => Progress::Done(Err(GitError::OpenRepository)),
            },
            OpenPhase::Index => {
                if reply.into_ok() {
                    env.open(true)
                } else {
                    Progress::Done(Err(GitError::Index))
                }
            },
        }
    }
}

/// How many answers opening the repository still waits for, at most.
pub open spec fn open_steps(phase: OpenPhase) -> nat {
    match phase {
        OpenPhase::CurrentDir => 6,
        OpenPhase::Export => 5,
        OpenPhase::Root => 4,
        OpenPhase::Enter => 3,
        OpenPhase::Lib => 2,
        OpenPhase::Index => 1,
    }
}

/// Opening the repository ends, whatever it is told.
pub proof fn law_opening_ends(pre: OpenGit, reply: Reply, r: Opened)
    requires
        OpenGit::follows(pre, reply, r),
    ensures
        r matches Progress::Ask(_, post) ==> open_steps(post.phase) < open_steps(pre.phase),
{
}

/// A repository that opens has nothing put aside, and uses libgit2 only where
/// the settings want it.
pub proof fn law_an_opened_repository_is_fresh(pre: OpenGit, reply: Reply, r: Opened)
    requires
        OpenGit::follows(pre, reply, r),
        pre.phase is Lib || pre.phase is Index ==> pre.env.libgit2,
    ensures
        r matches Progress::Done(Ok(git)) ==> git.wf() && git.stash is None && (git.libgit2
            ==> pre.env.libgit2),
        r matches Progress::Ask(_, post) ==> post.phase is Lib || post.phase is Index
            ==> post.env.libgit2,
{
}

/// Whether a variable names a drive of Windows without its root.
pub open spec fn names_drive_only(value: Option<RepoPath>, platform: Platform) -> bool {
    &&& platform == Platform::Windows && value is Some
    &&& has_drive(value->0@) && is_relative_path(value->0@, platform)
}

/// Every variable that is set before the directory changes is absolute, if the
/// current directory is. On Windows one that names a drive without its root is
/// left as it is.
pub proof fn law_exports_are_absolute(env: GitEnv, cwd: Seq<u8>, i: int)
    requires
        !is_relative_path(cwd, env.platform),
        0 <= i < exports(env, cwd).len(),
        !names_drive_only(env.git_dir, env.platform),
        !names_drive_only(env.work_tree, env.platform),
        !names_drive_only(env.index_file, env.platform),
    ensures
        !is_relative_path(exports(env, cwd)[i].1, env.platform),
{
    if env.git_dir is Some && is_relative_path(env.git_dir->0@, env.platform) {
        law_below_an_absolute_path_is_absolute(cwd, env.git_dir->0@, env.platform);
    }
    if env.work_tree is Some && is_relative_path(env.work_tree->0@, env.platform) {
        law_below_an_absolute_path_is_absolute(cwd, env.work_tree->0@, env.platform);
    }
    if env.index_file is Some && is_relative_path(env.index_file->0@, env.platform) {
        law_below_an_absolute_path_is_absolute(cwd, env.index_file->0@, env.platform);
    }
}

impl Git {
    /// Starts to open the repository of the current directory.
    pub fn new(env: GitEnv) -> (r: Opened)
        ensures
            r == Opened::Ask(Action::CurrentDir, OpenGit { env, phase: OpenPhase::CurrentDir }),
    {
        Progress::Ask(Action::CurrentDir, OpenGit { env, phase: OpenPhase::CurrentDir })
    }
}

/// Of the three variables that place the repository, each that is set to a
/// relative path is exported below the current directory, and no other, before
/// the directory changes. The index file is remembered below it, too. Without
/// either of the first two, the repository is searched for upwards.
pub proof fn law_relative_variables_are_exported(pre: OpenGit, cwd: RepoPath, r: Opened)
    requires
        pre.phase is CurrentDir,
        OpenGit::follows(pre, Reply::Path(Some(cwd)), r),
    ensures
        ({
            let env = pre.env;
            let platform = env.platform;
            let all = seq![
                ("GIT_DIR"@, env.git_dir),
                ("GIT_WORK_TREE"@, env.work_tree),
                ("GIT_INDEX_FILE"@, env.index_file),
            ];
            &&& env.git_dir is Some || env.work_tree is Some ==> {
                &&& r matches Progress::Ask(Action::ExportVars(list), post)
                &&& vars(list@) == all.filter(
                    |v: (Seq<char>, Option<RepoPath>)|
                        v.1 is Some && is_relative_path(v.1->0.raw@, platform),
                ).map_values(
                    |v: (Seq<char>, Option<RepoPath>)|
                        (v.0, below_path(cwd.raw@, v.1->0.raw@, platform)),
                )
                &&& post.phase is Export
                &&& post.env.git_dir == env.git_dir && post.env.work_tree == env.work_tree
                &&& post.env.libgit2 == env.libgit2 && post.env.platform == platform
                &&& post.env.stash_untracked == env.stash_untracked
                &&& post.env.stash_backup_count == env.stash_backup_count
                &&& post.env.index_file is Some <==> env.index_file is Some
                &&& env.index_file is Some ==> post.env.index_file->0.raw@ == below_path(
                    cwd.raw@,
                    env.index_file->0.raw@,
                    platform,
                )
            }
            &&& env.git_dir is None && env.work_tree is None ==> {
                &&& r matches Progress::Ask(Action::FindUp(from, name), post)
                &&& from == cwd && name@ == ".git"@
                &&& post.env == env && post.phase is Root
            }
        }),
{
    let env = pre.env;
    let platform = env.platform;
    let all = seq![
        ("GIT_DIR"@, env.git_dir),
        ("GIT_WORK_TREE"@, env.work_tree),
        ("GIT_INDEX_FILE"@, env.index_file),
    ];
    let test = |v: (Seq<char>, Option<RepoPath>)|
        v.1 is Some && is_relative_path(v.1->0.raw@, platform);
    let made = |v: (Seq<char>, Option<RepoPath>)|
        (v.0, below_path(cwd.raw@, v.1->0.raw@, platform));
    let two = all.drop_last();
    let one = two.drop_last();
    reveal(Seq::filter);
    assert(one.drop_last() == Seq::<(Seq<char>, Option<RepoPath>)>::empty());
    assert(one.last() == all[0] && two.last() == all[1] && all.last() == all[2]);
    assert(one.drop_last().filter(test) == Seq::<(Seq<char>, Option<RepoPath>)>::empty());
    assert(one.filter(test).map_values(made) == made_absolute(
        cwd@,
        "GIT_DIR"@,
        env.git_dir,
        platform,
    ));
    assert(two.filter(test).map_values(made) == one.filter(test).map_values(made) + made_absolute(
        cwd@,
        "GIT_WORK_TREE"@,
        env.work_tree,
        platform,
    ));
    assert(all.filter(test).map_values(made) == exports(env, cwd@));
}

/// The root is looked for where the variables say, or above the current
/// directory, and entered. Without it there is no repository.
pub proof fn law_the_root_is_found_and_entered(pre: OpenGit, reply: Reply, r: Opened)
    requires
        pre.phase is Export || pre.phase is Root || pre.phase is Enter,
        OpenGit::follows(pre, reply, r),
    ensures
        pre.phase is Export ==> (r matches Progress::Ask(Action::FindWorkTree, post) && post.env
            == pre.env && post.phase is Root),
        pre.phase is Root ==> match reply {
            Reply::Path(Some(root)) => r matches Progress::Ask(Action::EnterDir(dir), post) && dir
                == root && post.env == pre.env && post.phase is Enter,
            _ => r matches Progress::Done(Err(GitError::NoRepository)),
        },
        pre.phase is Enter && reply != Reply::Done(true) ==> (r matches Progress::Done(
            Err(GitError::EnterDir),
        )),
        pre.phase is Enter && reply == Reply::Done(true) && pre.env.libgit2 ==> {
            &&& r matches Progress::Ask(Action::OpenLibGit(from_env), post)
            &&& from_env <==> pre.env.git_dir is Some || pre.env.work_tree is Some
            &&& post.env == pre.env && post.phase is Lib
        },
        pre.phase is Enter && reply == Reply::Done(true) && !pre.env.libgit2 ==> (r matches
            Progress::Done(Ok(git)) && is_new(git, pre.env, false)),
{
}

/// Whether nothing is put aside in a repository yet, and it has the settings of
/// its environment.
pub open spec fn is_new(git: Git, env: GitEnv, libgit2: bool) -> bool {
    &&& git.libgit2 == libgit2
    &&& git.stash_untracked == env.stash_untracked
    &&& git.stash_backup_count == env.stash_backup_count
    &&& git.stash is None && git.stash_commit is None && git.stashed_paths is None
    &&& git.saved_index is None && git.saved_worktree is None
}

/// libgit2 is used for a repository with a work tree, with the index file that
/// the environment names; a bare one is left to the git program.
pub proof fn law_libgit2_leaves_bare_repositories_alone(pre: OpenGit, reply: Reply, r: Opened)
    requires
        pre.phase is Lib || pre.phase is Index,
        OpenGit::follows(pre, reply, r),
    ensures
        pre.phase is Lib ==> match reply {
            Reply::Bare(Some(bare)) => {
                &&& bare ==> (r matches Progress::Done(Ok(git)) && is_new(git, pre.env, false))
                &&& !bare && pre.env.index_file is None ==> (r matches Progress::Done(Ok(git))
                    && is_new(git, pre.env, true))
                &&& !bare && pre.env.index_file is Some ==> {
                    &&& r matches Progress::Ask(Action::UseIndex(path), post)
                    &&& path.raw@ == pre.env.index_file->0.raw@
                    &&& post.env == pre.env && post.phase is Index
                }
            },
            _ => r matches Progress::Done(Err(GitError::OpenRepository)),
        },
        pre.phase is Index && reply == Reply::Done(true) ==> (r matches Progress::Done(Ok(git))
            && is_new(git, pre.env, true)),
        pre.phase is Index && reply != Reply::Done(true) ==> (r matches Progress::Done(
            Err(GitError::Index),
        )),
{
}

} // verus!
