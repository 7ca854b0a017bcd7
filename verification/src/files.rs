//! Which files the repository holds, and adding to them.
use crate::git::{Git, GitError};
use crate::paths::{
    collected, copy_paths, paths_of, raw_paths, spelled, PathSet, RepoPath,
};
use crate::stash::{existing, keep_existing, opt_raw, read_paths, readable_paths};
use crate::text::{concat2, concat3, records, split_records, texts, trim, trimmed};
use crate::work::{found, into_found, Action, Command, Progress, Reply};
use vstd::prelude::*;

verus! {

/// Whether a path holds no byte that ends a C string.
pub open spec fn no_nul(p: Seq<u8>) -> bool {
    forall|i: int| 0 <= i < p.len() ==> #[trigger] p[i] != 0
}

/// The listed paths, if a reply tells them.
pub open spec fn paths_told(reply: Reply) -> Option<Seq<Seq<u8>>> {
    match reply {
        Reply::Paths(Some(list)) => Some(raw_paths(list@)),
        _ => None,
    }
}

/// Listing all files of the repository.
#[derive(Debug)]
pub struct AllFiles {
    /// Whether libgit2 was asked.
    pub libgit2: bool,
}

/// The outcome of listing all files.
pub type Listed = Result<PathSet, GitError>;

impl AllFiles {
    /// The files, as a reply tells them.
    pub open spec fn told(self, reply: Reply) -> Result<Seq<Seq<u8>>, GitError> {
        if self.libgit2 {
            match paths_told(reply) {
                Some(list) => Ok(collected(list)),
                None => Err(GitError::Index),
            }
        } else {
            match reply.text() {
                Some(output) => Ok(collected(spelled(records(output)))),
                None => Err(GitError::Command),
            }
        }
    }

    /// Goes on when the outcome of the action is known. Paths of the index
    /// hold no NUL.
    pub fn resume(self, reply: Reply) -> (r: Listed)
        requires
            self.libgit2 && paths_told(reply) is Some ==> forall|i: int|
                0 <= i < paths_told(reply)->0.len() ==> no_nul(#[trigger] paths_told(reply)->0[i]),
        ensures
            match r {
                Ok(set) => set.wf() && self.told(reply) == Ok::<Seq<Seq<u8>>, GitError>(set@),
                Err(e) => self.told(reply) == Err::<Seq<Seq<u8>>, GitError>(e),
            },
    {
        if self.libgit2 {
            match reply {
                Reply::Paths(Some(list)) => Ok(PathSet::collect(&list)),
                _ => Err(GitError::Index),
            }
        } else {
            match reply.into_text() {
                Some(output) => Ok(
                    PathSet::collect(&paths_of(&split_records(output.as_str()))),
                ),
                None => Err(GitError::Command),
            }
        }
    }
}

/// Adding paths to the index.
#[derive(Debug)]
pub struct AddFiles {
    /// Whether libgit2 was asked.
    pub libgit2: bool,
}

impl AddFiles {
    /// Goes on when the outcome of the action is known.
    pub fn resume(self, reply: Reply) -> (r: Result<(), GitError>)
        ensures
            r == (if reply.ok() {
                Ok(())
            } else if self.libgit2 {
                Err(GitError::Index)
            } else {
                Err(GitError::Command)
            }),
    {
        if reply.into_ok() {
            Ok(())
        } else if self.libgit2 {
            Err(GitError::Index)
        } else {
            Err(GitError::Command)
        }
    }
}

/// Where listing the files between two references stands.
#[derive(Debug)]
pub enum BetweenPhase {
    /// Waits for the changed paths.
    LibDiff,
    /// Waits for what lies at the changed paths.
    Probe(Vec<RepoPath>),
    /// Waits for the merge base of the references.
    MergeBase,
    /// Waits for the changed paths since the merge base.
    Diff,
}

/// Listing the files that differ between two references.
#[derive(Debug)]
pub struct FilesBetween {
    /// The second reference.
    pub to_ref: String,
    /// What is being waited for.
    pub phase: BetweenPhase,
}

/// How listing the files between two references goes on.
pub type Between = Progress<FilesBetween, Result<Vec<RepoPath>, GitError>>;

impl FilesBetween {
    /// That the work is over, with these paths.
    pub open spec fn ends(r: Between, list: Seq<Seq<u8>>) -> bool {
        r matches Progress::Done(Ok(paths)) && raw_paths(paths@) == list
    }

    /// How the work goes on when it is told `reply`. Paths that libgit2 lists
    /// count once, in order, and only where something lies there.
    pub open spec fn follows(pre: FilesBetween, reply: Reply, r: Between) -> bool {
        match pre.phase {
            BetweenPhase::LibDiff => match paths_told(reply) {
                None => r matches Progress::Done(Err(GitError::Diff)),
                Some(list) => {
                    &&& r matches Progress::Ask(Action::Probe(asked), post)
                    &&& post.to_ref == pre.to_ref
                    &&& post.phase matches BetweenPhase::Probe(paths)
                    &&& raw_paths(paths@) == list && raw_paths(asked@) == list
                },
            },
            BetweenPhase::Probe(list) => FilesBetween::ends(
                r,
                collected(existing(raw_paths(list@), found(reply))),
            ),
            BetweenPhase::MergeBase => match reply.text() {
                None => r matches Progress::Done(Err(GitError::Command)),
                Some(base) => {
                    &&& r matches Progress::Ask(Action::ReadGit(c), post)
                    &&& post == FilesBetween { to_ref: pre.to_ref, phase: BetweenPhase::Diff }
                    &&& c.says(
                        seq![
                            "diff"@,
                            "-z"@,
                            "--name-only"@,
                            "--diff-filter=ACMRTUXB"@,
                            trimmed(base) + ".."@ + pre.to_ref@,
                        ],
                    )
                },
            },
            BetweenPhase::Diff => match reply.text() {
                None => r matches Progress::Done(Err(GitError::Command)),
                Some(output) => FilesBetween::ends(r, spelled(records(output))),
            },
        }
    }

    /// Goes on when the outcome of the action is known.
    pub fn resume(self, reply: Reply) -> (r: Between)
        ensures
            FilesBetween::follows(self, reply, r),
    {
        let FilesBetween { to_ref, phase } = self;
        match phase {
            BetweenPhase::LibDiff => match reply {
                Reply::Paths(Some(list)) => {
                    let asked = copy_paths(&list);
                    Progress::Ask(
                        Action::Probe(asked),
                        FilesBetween { to_ref, phase: BetweenPhase::Probe(list) },
                    )
                },
                _ => Progress::Done(Err(GitError::Diff)),
            },
            BetweenPhase::Probe(list) => {
                let presence = into_found(reply);
                let set = PathSet::collect(&keep_existing(&list, &presence));
                Progress::Done(Ok(set.items))
            },
            BetweenPhase::MergeBase => match reply.into_text() {
                None => Progress::Done(Err(GitError::Command)),
                Some(base) => {
                    let base = trim(base.as_str());
                    let range = concat3(base.as_str(), "..", to_ref.as_str());
                    let c = Command::of(
                        &["diff", "-z", "--name-only", "--diff-filter=ACMRTUXB", range.as_str()],
                    );
                    Progress::Ask(
                        Action::ReadGit(c),
                        FilesBetween { to_ref, phase: BetweenPhase::Diff },
                    )
                },
            },
            BetweenPhase::Diff => match reply.into_text() {
                None => Progress::Done(Err(GitError::Command)),
                Some(output) => Progress::Done(
                    Ok(paths_of(&split_records(output.as_str()))),
                ),
            },
        }
    }
}

/// How many answers listing the files between two references still waits for.
pub open spec fn between_steps(phase: BetweenPhase) -> nat {
    match phase {
        BetweenPhase::LibDiff => 2,
        BetweenPhase::Probe(_) => 1,
        BetweenPhase::MergeBase => 2,
        BetweenPhase::Diff => 1,
    }
}

/// Listing the files between two references ends, whatever it is told.
pub proof fn law_listing_between_ends(pre: FilesBetween, reply: Reply, r: Between)
    requires
        FilesBetween::follows(pre, reply, r),
    ensures
        r matches Progress::Ask(_, post) ==> between_steps(post.phase) < between_steps(pre.phase),
{
}

/// The arguments that list the files of the index, all or some.
pub open spec fn ls_files(pathspec: Option<Seq<Seq<u8>>>) -> Seq<Seq<char>> {
    match pathspec {
        Some(list) => seq!["ls-files"@, "-z"@, "--"@] + readable_paths(list),
        None => seq!["ls-files"@, "-z"@],
    }
}

impl Git {
    /// Starts to list all files. A pathspec narrows the list where the git
    /// program is asked, by those of its paths that are texts.
    pub fn all_files(&self, pathspec: &Option<Vec<RepoPath>>) -> (r: Progress<AllFiles, Listed>)
        ensures
            r matches Progress::Ask(action, op) && op.libgit2 == self.libgit2
                && if self.libgit2 {
                action is LibGitIndex
            } else {
                action matches Action::ReadGit(c) && c.says(ls_files(opt_raw(*pathspec)))
            },
    {
        let op = AllFiles { libgit2: self.libgit2 };
        if self.libgit2 {
            return Progress::Ask(Action::LibGitIndex, op);
        }
        let c = Command::of(&["ls-files", "-z"]);
        let c = match pathspec {
            Some(list) => c.with("--").with_all(&read_paths(list)),
            None => c,
        };
        Progress::Ask(Action::ReadGit(c), op)
    }

    /// Starts to add paths to the index.
    pub fn add(&self, pathspecs: Vec<RepoPath>) -> (r: Progress<AddFiles, Result<(), GitError>>)
        ensures
            r matches Progress::Ask(action, op) && op.libgit2 == self.libgit2
                && if self.libgit2 {
                action == Action::LibGitAdd(pathspecs)
            } else {
                action matches Action::RunGit(c) && c.is(
                    seq!["add"@, "--"@],
                    raw_paths(pathspecs@),
                )
            },
    {
        let op = AddFiles { libgit2: self.libgit2 };
        if self.libgit2 {
            Progress::Ask(Action::LibGitAdd(pathspecs), op)
        } else {
            let c = Command::of(&["add", "--"]).with_paths(pathspecs);
            Progress::Ask(Action::RunGit(c), op)
        }
    }

    /// Starts to list the files that changed from where `from_ref` and `to_ref`
    /// part up to `to_ref`, or up to `HEAD` where there is no `to_ref`.
    pub fn files_between_refs(&self, from_ref: &str, to_ref: Option<&str>) -> (r: Between)
        ensures
            ({
                let to = match to_ref {
                    Some(t) => t@,
                    None => "HEAD"@,
                };
                &&& r matches Progress::Ask(action, op)
                &&& op.to_ref@ == to
                &&& if self.libgit2 {
                    &&& op.phase is LibDiff
                    &&& action matches Action::LibGitDiff(a, b)
                    &&& a@ == from_ref@ && b@ == to
                } else {
                    &&& op.phase is MergeBase
                    &&& action matches Action::Shell(line)
                    &&& line@ == "git merge-base "@ + from_ref@ + " "@ + to
                }
            }),
    {
        let to: &str = match to_ref {
            Some(t) => t,
            None => "HEAD",
        };
        if self.libgit2 {
            Progress::Ask(
                Action::LibGitDiff(from_ref.to_owned(), to.to_owned()),
                FilesBetween { to_ref: to.to_owned(), phase: BetweenPhase::LibDiff },
            )
        } else {
            let start = concat3("git merge-base ", from_ref, " ");
            let line = concat2(start.as_str(), to);
            Progress::Ask(
                Action::Shell(line),
                FilesBetween { to_ref: to.to_owned(), phase: BetweenPhase::MergeBase },
            )
        }
    }
}

/// All files are listed: each that libgit2 or git names, and no other. A
/// listing that fails is an error of its kind.
pub proof fn law_every_file_is_listed(libgit2: bool, reply: Reply, p: Seq<u8>)
    ensures
        ({
            let told = (AllFiles { libgit2 }).told(reply);
            &&& libgit2 ==> match reply {
                Reply::Paths(Some(list)) => told matches Ok(set) && crate::paths::ordered(set) && (
                crate::paths::names_path(set, p) <==> crate::paths::names_path(
                    raw_paths(list@),
                    p,
                )),
                _ => told matches Err(GitError::Index),
            }
            &&& !libgit2 ==> match reply {
                Reply::Text(Some(output)) => told matches Ok(set) && crate::paths::ordered(set) && (
                crate::paths::names_path(set, p) <==> crate::paths::names_path(
                    spelled(records(output@)),
                    p,
                )),
                _ => told matches Err(GitError::Command),
            }
        }),
{
    match reply {
        Reply::Paths(Some(list)) => {
            crate::paths::law_collected_names(raw_paths(list@), p);
            crate::paths::law_collected_is_ordered(raw_paths(list@));
        },
        Reply::Text(Some(output)) => {
            crate::paths::law_collected_names(spelled(records(output@)), p);
            crate::paths::law_collected_is_ordered(spelled(records(output@)));
        },
        _ => {},
    }
}

/// With libgit2, the files between two references are those changed paths at
/// which something lies, each once and in order; every changed path is looked
/// at.
pub proof fn law_changed_files_that_are_there_are_listed(
    pre: FilesBetween,
    list: Vec<RepoPath>,
    first: Between,
    at: Vec<crate::work::Presence>,
    last: Between,
    p: Seq<u8>,
)
    requires
        pre.phase is LibDiff,
        FilesBetween::follows(pre, Reply::Paths(Some(list)), first),
        first matches Progress::Ask(_, op) && FilesBetween::follows(op, Reply::Presence(at), last),
    ensures
        first matches Progress::Ask(Action::Probe(asked), _) && raw_paths(asked@) == raw_paths(
            list@,
        ),
        last matches Progress::Done(Ok(files)) && crate::paths::ordered(raw_paths(files@)) && (
        crate::paths::names_path(raw_paths(files@), p) <==> exists|i: int|
            0 <= i < list@.len() && i < at@.len() && crate::paths::same_path(
                (#[trigger] list@[i]).raw@,
                p,
            ) && at@[i].target),
{
    let raw = raw_paths(list@);
    let kept = existing(raw, at@);
    crate::paths::law_collected_names(kept, p);
    crate::paths::law_collected_is_ordered(kept);
    crate::stash::law_existing_paths_are_those_with_something_there(raw, at@, p);
    if crate::paths::names_path(kept, p) {
        let i = choose|i: int|
            0 <= i < raw.len() && i < at@.len() && crate::paths::same_path(#[trigger] raw[i], p)
                && at@[i].target;
        assert(crate::paths::same_path(list@[i].raw@, p));
    }
    if exists|i: int|
        0 <= i < list@.len() && i < at@.len() && crate::paths::same_path(
            (#[trigger] list@[i]).raw@,
            p,
        ) && at@[i].target {
        let i = choose|i: int|
            0 <= i < list@.len() && i < at@.len() && crate::paths::same_path(
                (#[trigger] list@[i]).raw@,
                p,
            ) && at@[i].target;
        assert(crate::paths::same_path(raw[i], p));
    }
}

/// With the git program, the files between two references are what git names
/// as changed since their merge base, deletions aside, in its order.
pub proof fn law_files_changed_since_the_merge_base_are_listed(
    pre: FilesBetween,
    base: Option<String>,
    first: Between,
    output: Option<String>,
    last: Between,
)
    requires
        pre.phase is MergeBase,
        FilesBetween::follows(pre, Reply::Text(base), first),
        base is Some ==> (first matches Progress::Ask(_, op) && FilesBetween::follows(
            op,
            Reply::Text(output),
            last,
        )),
    ensures
        base is None ==> (first matches Progress::Done(Err(GitError::Command))),
        base is Some ==> {
            let range = trimmed(base->0@) + ".."@ + pre.to_ref@;
            &&& first matches Progress::Ask(Action::ReadGit(c), _)
            &&& c.says(seq!["diff"@, "-z"@, "--name-only"@, "--diff-filter=ACMRTUXB"@, range])
            &&& output is None ==> (last matches Progress::Done(Err(GitError::Command)))
            &&& output is Some ==> {
                let names = records(output->0@);
                &&& last matches Progress::Done(Ok(files))
                &&& files@.len() == names.len()
                &&& forall|i: int|
                    0 <= i < names.len() ==> (#[trigger] files@[i]).raw@
                        == vstd::utf8::encode_utf8(names[i])
            }
        },
{
    if base is Some && output is Some {
        if let Progress::Done(Ok(files)) = last {
            let names = records(output->0@);
            assert(raw_paths(files@).len() == files@.len());
            assert forall|i: int| 0 <= i < names.len() implies (#[trigger] files@[i]).raw@
                == vstd::utf8::encode_utf8(names[i]) by {
                assert(raw_paths(files@)[i] == spelled(names)[i]);
            }
        }
    }
}

/// A listing with libgit2 that fails is an error.
pub proof fn law_references_that_cannot_be_compared_are_an_error(
    pre: FilesBetween,
    reply: Reply,
    r: Between,
)
    requires
        pre.phase is LibDiff,
        FilesBetween::follows(pre, reply, r),
        !(reply matches Reply::Paths(Some(_))),
    ensures
        r matches Progress::Done(Err(GitError::Diff)),
{
}

/// Git lists every file, or those below the given paths that are texts.
pub proof fn law_a_pathspec_narrows_the_listing(list: Seq<Seq<u8>>)
    ensures
        ls_files(None) == seq!["ls-files"@, "-z"@],
        ls_files(Some(list)) == seq!["ls-files"@, "-z"@, "--"@] + list.filter(
            |p: Seq<u8>| vstd::utf8::valid_utf8(p),
        ).map_values(|p: Seq<u8>| vstd::utf8::decode_utf8(p)),
{
    crate::stash::law_every_path_that_is_text_is_read(list);
}

/// The second reference stays the one that was given.
pub proof fn law_the_second_reference_stays(pre: FilesBetween, reply: Reply, r: Between)
    requires
        FilesBetween::follows(pre, reply, r),
    ensures
        r matches Progress::Ask(_, post) ==> post.to_ref == pre.to_ref,
{
}

} // verus!
