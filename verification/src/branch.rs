//! Which branch is checked out, and which one others start from.
use crate::git::{Git, GitError};
use crate::text::{
    after_prefix, blank, concat2, concat3, contains, ends_with, has_part, is_blank, lines,
    opt_text, split_lines, strip_prefix, texts,
};
use crate::work::{Action, Command, Progress, Reply};
use vstd::prelude::*;

verus! {

/// The first line of a text.
pub open spec fn first_line(s: Seq<char>) -> Option<Seq<char>> {
    if lines(s).len() > 0 {
        Some(lines(s)[0])
    } else {
        None
    }
}

/// Takes the first line of a text.
fn head_line(s: &str) -> (r: Option<String>)
    ensures
        opt_text(r) == first_line(s@),
{
    let list = split_lines(s);
    proof {
        assert(texts(list@).len() == list@.len());
    }
    if list.len() > 0 {
        proof {
            assert(texts(list@)[0] == list@[0]@);
        }
        Some(list[0].clone())
    } else {
        None
    }
}

/// Whether a line of `s` holds `part`.
pub open spec fn line_with(s: Seq<char>, part: Seq<char>) -> bool {
    exists|i: int| 0 <= i < lines(s).len() && has_part(#[trigger] lines(s)[i], part)
}

/// Whether a line of `s` ends in `tail`.
pub open spec fn line_ending(s: Seq<char>, tail: Seq<char>) -> bool {
    exists|i: int| 0 <= i < lines(s).len() && tail.is_suffix_of(#[trigger] lines(s)[i])
}

/// Tells whether a line holds a part.
fn has_line_with(s: &str, part: &str) -> (r: bool)
    ensures
        r == line_with(s@, part@),
{
    let list = split_lines(s);
    let mut i: usize = 0;
    while i < list.len()
        invariant
            i <= list.len(),
            texts(list@) == lines(s@),
            forall|k: int| 0 <= k < i ==> !has_part(#[trigger] lines(s@)[k], part@),
        decreases list.len() - i,
    {
        proof {
            assert(texts(list@)[i as int] == list@[i as int]@);
        }
        if contains(list[i].as_str(), part) {
            return true;
        }
        i += 1;
    }
    proof {
        assert(texts(list@).len() == list@.len());
    }
    false
}

/// Tells whether a line has an ending.
fn has_line_ending(s: &str, tail: &str) -> (r: bool)
    ensures
        r == line_ending(s@, tail@),
{
    let list = split_lines(s);
    let mut i: usize = 0;
    while i < list.len()
        invariant
            i <= list.len(),
            texts(list@) == lines(s@),
            forall|k: int| 0 <= k < i ==> !tail@.is_suffix_of(#[trigger] lines(s@)[k]),
        decreases list.len() - i,
    {
        proof {
            assert(texts(list@)[i as int] == list@[i as int]@);
        }
        if ends_with(list[i].as_str(), tail) {
            return true;
        }
        i += 1;
    }
    proof {
        assert(texts(list@).len() == list@.len());
    }
    false
}

/// A name that may be missing, or an error.
pub type Named = Result<Option<String>, GitError>;

/// Whether `r` is the name, its absence, or the error that `told` says.
pub open spec fn is_named(r: Named, told: Result<Option<Seq<char>>, GitError>) -> bool {
    match r {
        Ok(name) => told == Ok::<Option<Seq<char>>, GitError>(opt_text(name)),
        Err(e) => told == Err::<Option<Seq<char>>, GitError>(e),
    }
}

/// Asking for the current branch.
#[derive(Debug)]
pub struct CurrentBranch {
    /// Whether libgit2 was asked.
    pub libgit2: bool,
}

impl CurrentBranch {
    /// The current branch, as a reply tells it.
    pub open spec fn told(self, reply: Reply) -> Result<Option<Seq<char>>, GitError> {
        if self.libgit2 {
            match reply {
                Reply::Name(Some(name)) => Ok(opt_text(name)),
                _ => Err(GitError::Head),
            }
        } else {
            match reply.text() {
                Some(output) => Ok(first_line(output)),
                None => Err(GitError::Command),
            }
        }
    }

    /// The action that asks.
    pub open spec fn asks(self, action: Action) -> bool {
        if self.libgit2 {
            action is LibGitHead
        } else {
            action matches Action::Shell(line) && line@ == "git branch --show-current"@
        }
    }

    /// The action that asks.
    fn ask(&self) -> (r: Action)
        ensures
            self.asks(r),
    {
        if self.libgit2 {
            Action::LibGitHead
        } else {
            Action::Shell("git branch --show-current".to_owned())
        }
    }

    /// Goes on when the outcome of the action is known.
    pub fn resume(self, reply: Reply) -> (r: Named)
        ensures
            is_named(r, self.told(reply)),
    {
        if self.libgit2 {
            match reply {
                Reply::Name(Some(name)) => Ok(name),
                _ => Err(GitError::Head),
            }
        } else {
            match reply.into_text() {
                Some(output) => Ok(head_line(output.as_str())),
                None => Err(GitError::Command),
            }
        }
    }
}

/// The reference of a branch of a remote.
pub open spec fn remote_ref(remote: Seq<char>, branch: Seq<char>) -> Seq<char> {
    "refs/remotes/"@ + remote + "/"@ + branch
}

/// The reference of a branch of a remote.
fn write_remote_ref(remote: &str, branch: &str) -> (r: String)
    ensures
        r@ == remote_ref(remote@, branch@),
{
    let start = concat3("refs/remotes/", remote, "/");
    concat2(start.as_str(), branch)
}

/// Whether what a remote answered names a branch: by its head, which is how a
/// remote lists its own branches, or by the reference that tracks it here.
pub open spec fn names_branch(output: Seq<char>, remote: Seq<char>, branch: Seq<char>) -> bool {
    line_ending(output, "refs/heads/"@ + branch) || line_with(output, remote_ref(remote, branch))
}

/// Tells whether what a remote answered names a branch.
fn has_branch(output: &str, remote: &str, branch: &str) -> (r: bool)
    ensures
        r == names_branch(output@, remote@, branch@),
{
    let head = concat2("refs/heads/", branch);
    let tracking = write_remote_ref(remote, branch);
    has_line_ending(output, head.as_str()) || has_line_with(output, tracking.as_str())
}

/// The command line that asks a remote for a branch.
pub open spec fn ls_remote(remote: Seq<char>, branch: Seq<char>) -> Seq<char> {
    "git ls-remote --heads "@ + remote + " "@ + branch
}

/// The command line that asks a remote for a branch.
fn write_ls_remote(remote: &str, branch: &str) -> (r: String)
    ensures
        r@ == ls_remote(remote@, branch@),
{
    let start = concat3("git ls-remote --heads ", remote, " ");
    concat2(start.as_str(), branch)
}

/// Where the search for a matching remote branch stands.
#[derive(Debug)]
pub enum MatchPhase {
    /// Waits for the current branch.
    Current,
    /// Waits for the remote's counterpart of this branch.
    Remote(String),
}

/// The search for the remote branch that matches the current branch.
#[derive(Debug)]
pub struct MatchingBranch {
    /// Whether libgit2 is used.
    pub libgit2: bool,
    /// The remote.
    pub remote: String,
    /// What is being waited for.
    pub phase: MatchPhase,
}

/// How the search for a matching remote branch goes on.
pub type Matched = Progress<MatchingBranch, Named>;

impl MatchingBranch {
    /// How the search goes on when it is told `reply`.
    pub open spec fn follows(pre: MatchingBranch, reply: Reply, r: Matched) -> bool {
        match pre.phase {
            MatchPhase::Current => match (CurrentBranch { libgit2: pre.libgit2 }).told(reply) {
                Err(e) => r matches Progress::Done(out) && is_named(out, Err(e)),
                Ok(None) => r matches Progress::Done(out) && is_named(out, Ok(None)),
                Ok(Some(branch)) => {
                    &&& r matches Progress::Ask(action, post)
                    &&& post.libgit2 == pre.libgit2 && post.remote == pre.remote
                    &&& post.phase matches MatchPhase::Remote(b)
                    &&& b@ == branch
                    &&& if pre.libgit2 {
                        action matches Action::LibGitReference(name) && name@ == remote_ref(
                            pre.remote@,
                            branch,
                        )
                    } else {
                        action matches Action::Shell(line) && line@ == ls_remote(
                            pre.remote@,
                            branch,
                        )
                    }
                },
            },
            MatchPhase::Remote(branch) => r matches Progress::Done(out) && is_named(
                out,
                if pre.libgit2 {
                    match reply {
                        Reply::Name(Some(name)) => Ok(opt_text(name)),
                        _ => Ok(None),
                    }
                } else {
                    match reply.text() {
                        Some(output) => if names_branch(output, pre.remote@, branch@) {
                            Ok(Some(branch@))
                        } else {
                            Ok(None)
                        },
                        None => Err(GitError::Command),
                    }
                },
            ),
        }
    }

    /// Goes on when the outcome of the action is known.
    pub fn resume(self, reply: Reply) -> (r: Matched)
        ensures
            MatchingBranch::follows(self, reply, r),
    {
        let MatchingBranch { libgit2, remote, phase } = self;
        match phase {
            MatchPhase::Current => {
                let current = CurrentBranch { libgit2 };
                let branch = match current.resume(reply) {
                    Ok(Some(b)) => b,
                    other => {
                        return Progress::Done(other);
                    },
                };
                let action = if libgit2 {
                    Action::LibGitReference(write_remote_ref(remote.as_str(), branch.as_str()))
                } else {
                    Action::Shell(write_ls_remote(remote.as_str(), branch.as_str()))
                };
                Progress::Ask(
                    action,
                    MatchingBranch { libgit2, remote, phase: MatchPhase::Remote(branch) },
                )
            },
            MatchPhase::Remote(branch) => {
                if libgit2 {
                    return match reply {
                        Reply::Name(Some(name)) => Progress::Done(Ok(name)),
                        _ => Progress::Done(Ok(None)),
                    };
                }
                match reply.into_text() {
                    Some(output) => {
                        if has_branch(output.as_str(), remote.as_str(), branch.as_str()) {
                            Progress::Done(Ok(Some(branch)))
                        } else {
                            Progress::Done(Ok(None))
                        }
                    },
                    None => Progress::Done(Err(GitError::Command)),
                }
            },
        }
    }
}

/// Where the search for the default branch stands.
#[derive(Debug)]
pub enum DefaultPhase {
    /// Waits for what `origin/HEAD` points to.
    Symbolic,
    /// Searches for the branch of `origin` that matches the current branch.
    Matching(MatchingBranch),
    /// Waits for whether `origin` has `main`.
    Main,
    /// Waits for whether `origin` has `master`.
    Master,
}

/// The search for the repository's default branch.
#[derive(Debug)]
pub struct DefaultBranch {
    /// Whether libgit2 is used.
    pub libgit2: bool,
    /// What is being waited for.
    pub phase: DefaultPhase,
}

/// How the search for the default branch goes on.
pub type Defaulted = Progress<DefaultBranch, Result<String, GitError>>;

/// A reference of a remote without the part that all of them share.
pub open spec fn short_ref(name: Seq<char>) -> Seq<char> {
    match after_prefix(name, "refs/remotes/"@) {
        Some(short) => short,
        None => name,
    }
}

/// The branch of a remote that a symbolic reference points to.
pub open spec fn pointed_to(output: Seq<char>) -> Option<Seq<char>> {
    match first_line(output) {
        Some(target) => after_prefix(target, "refs/remotes/"@),
        None => None,
    }
}

impl DefaultBranch {
    /// That the search is over, with this branch.
    pub open spec fn ends(r: Defaulted, branch: Seq<char>) -> bool {
        r matches Progress::Done(Ok(b)) && b@ == branch
    }

    /// That `origin` is asked whether it has a branch.
    pub open spec fn asks_origin(
        pre: DefaultBranch,
        branch: Seq<char>,
        phase: DefaultPhase,
        r: Defaulted,
    ) -> bool {
        &&& r matches Progress::Ask(Action::Shell(line), post)
        &&& post == DefaultBranch { libgit2: pre.libgit2, phase }
        &&& line@ == ls_remote("origin"@, branch)
    }

    /// How the search goes on when it is told `reply`: by what `origin/HEAD`
    /// points to, else by the branch of `origin` that matches the current one,
    /// else by `main` or `master` where `origin` has one of them, else by
    /// `origin/HEAD` itself.
    pub open spec fn follows(pre: DefaultBranch, reply: Reply, r: Defaulted) -> bool {
        match pre.phase {
            DefaultPhase::Symbolic => match reply.text() {
                Some(output) if pointed_to(output) is Some => DefaultBranch::ends(
                    r,
                    pointed_to(output)->0,
                ),
                _ => {
                    &&& r matches Progress::Ask(action, post)
                    &&& post.libgit2 == pre.libgit2
                    &&& post.phase matches DefaultPhase::Matching(inner)
                    &&& inner.libgit2 == pre.libgit2 && inner.remote@ == "origin"@
                    &&& inner.phase is Current
                    &&& (CurrentBranch { libgit2: pre.libgit2 }).asks(action)
                },
            },
            DefaultPhase::Matching(inner) => exists|step: Matched|
                {
                    &&& #[trigger] MatchingBranch::follows(inner, reply, step)
                    &&& match step {
                        Progress::Ask(action, next) => r == Defaulted::Ask(
                            action,
                            DefaultBranch {
                                libgit2: pre.libgit2,
                                phase: DefaultPhase::Matching(next),
                            },
                        ),
                        Progress::Done(Ok(Some(name))) => DefaultBranch::ends(
                            r,
                            short_ref(name@),
                        ),
                        Progress::Done(_) => DefaultBranch::asks_origin(
                            pre,
                            "main"@,
                            DefaultPhase::Main,
                            r,
                        ),
                    }
                },
            DefaultPhase::Main => match reply.text() {
                None => r matches Progress::Done(Err(GitError::Command)),
                Some(output) => if line_ending(output, "refs/heads/main"@) {
                    DefaultBranch::ends(r, "main"@)
                } else {
                    DefaultBranch::asks_origin(pre, "master"@, DefaultPhase::Master, r)
                },
            },
            DefaultPhase::Master => match reply.text() {
                None => r matches Progress::Done(Err(GitError::Command)),
                Some(output) => if line_ending(output, "refs/heads/master"@) {
                    DefaultBranch::ends(r, "master"@)
                } else {
                    DefaultBranch::ends(r, "origin/HEAD"@)
                },
            },
        }
    }

    /// Goes on when the outcome of the action is known.
    pub fn resume(self, reply: Reply) -> (r: Defaulted)
        ensures
            DefaultBranch::follows(self, reply, r),
    {
        let DefaultBranch { libgit2, phase } = self;
        match phase {
            DefaultPhase::Symbolic => {
                if let Some(output) = reply.into_text() {
                    if let Some(target) = head_line(output.as_str()) {
                        if let Some(short) = strip_prefix(target.as_str(), "refs/remotes/") {
                            return Progress::Done(Ok(short));
                        }
                    }
                }
                let action = (CurrentBranch { libgit2 }).ask();
                let inner = MatchingBranch {
                    libgit2,
                    remote: "origin".to_owned(),
                    phase: MatchPhase::Current,
                };
                Progress::Ask(
                    action,
                    DefaultBranch { libgit2, phase: DefaultPhase::Matching(inner) },
                )
            },
            DefaultPhase::Matching(inner) => {
                let step = inner.resume(reply);
                let ghost taken = step;
                proof {
                    assert(MatchingBranch::follows(inner, reply, taken));
                }
                match step {
                    Progress::Ask(action, next) => Progress::Ask(
                        action,
                        DefaultBranch { libgit2, phase: DefaultPhase::Matching(next) },
                    ),
                    Progress::Done(Ok(Some(name))) => {
                        match strip_prefix(name.as_str(), "refs/remotes/") {
                            Some(short) => Progress::Done(Ok(short)),
                            None => Progress::Done(Ok(name)),
                        }
                    },
                    Progress::Done(_) => Progress::Ask(
                        Action::Shell(write_ls_remote("origin", "main")),
                        DefaultBranch { libgit2, phase: DefaultPhase::Main },
                    ),
                }
            },
            DefaultPhase::Main => match reply.into_text() {
                None => Progress::Done(Err(GitError::Command)),
                Some(output) => {
                    if has_line_ending(output.as_str(), "refs/heads/main") {
                        Progress::Done(Ok("main".to_owned()))
                    } else {
                        Progress::Ask(
                            Action::Shell(write_ls_remote("origin", "master")),
                            DefaultBranch { libgit2, phase: DefaultPhase::Master },
                        )
                    }
                },
            },
            DefaultPhase::Master => match reply.into_text() {
                None => Progress::Done(Err(GitError::Command)),
                Some(output) => {
                    if has_line_ending(output.as_str(), "refs/heads/master") {
                        Progress::Done(Ok("master".to_owned()))
                    } else {
                        Progress::Done(Ok("origin/HEAD".to_owned()))
                    }
                },
            },
        }
    }
}

/// How many answers the search for the default branch still waits for, at most.
pub open spec fn default_steps(phase: DefaultPhase) -> nat {
    match phase {
        DefaultPhase::Symbolic => 5,
        DefaultPhase::Matching(inner) => if inner.phase is Current {
            4
        } else {
            3
        },
        DefaultPhase::Main => 2,
        DefaultPhase::Master => 1,
    }
}

/// The search for the default branch ends, whatever it is told.
pub proof fn law_the_default_branch_search_ends(pre: DefaultBranch, reply: Reply, r: Defaulted)
    requires
        DefaultBranch::follows(pre, reply, r),
    ensures
        r matches Progress::Ask(_, post) ==> default_steps(post.phase) < default_steps(pre.phase),
{
}

/// The search fails only where `origin` could not be asked for its branches.
pub proof fn law_only_a_silent_origin_leaves_no_default(
    pre: DefaultBranch,
    reply: Reply,
    r: Defaulted,
)
    requires
        DefaultBranch::follows(pre, reply, r),
        r matches Progress::Done(Err(_)),
    ensures
        pre.phase is Main || pre.phase is Master,
        reply.text() is None,
{
}

/// Finding the default branch to use.
#[derive(Debug)]
pub struct ResolveBranch {
    /// The search that goes on where none is configured.
    pub search: DefaultBranch,
}

/// How finding the default branch to use goes on.
pub type Resolved = Progress<ResolveBranch, String>;

impl ResolveBranch {
    /// How it goes on with a step of the search: where the search fails, the
    /// branch is `main`.
    pub open spec fn passes(step: Defaulted, r: Resolved) -> bool {
        match step {
            Progress::Ask(action, next) => r == Resolved::Ask(
                action,
                ResolveBranch { search: next },
            ),
            Progress::Done(Ok(branch)) => r == Resolved::Done(branch),
            Progress::Done(Err(_)) => r matches Progress::Done(b) && b@ == "main"@,
        }
    }

    /// How it goes on when it is told `reply`.
    pub open spec fn follows(pre: ResolveBranch, reply: Reply, r: Resolved) -> bool {
        exists|step: Defaulted|
            #[trigger] DefaultBranch::follows(pre.search, reply, step) && ResolveBranch::passes(
                step,
                r,
            )
    }

    /// Passes a step of the search on.
    fn pass(step: Defaulted) -> (r: Resolved)
        ensures
            ResolveBranch::passes(step, r),
    {
        match step {
            Progress::Ask(action, next) => Progress::Ask(action, ResolveBranch { search: next }),
            Progress::Done(Ok(branch)) => Progress::Done(branch),
            Progress::Done(Err(_)) => Progress::Done("main".to_owned()),
        }
    }

    /// Goes on when the outcome of the action is known.
    pub fn resume(self, reply: Reply) -> (r: Resolved)
        ensures
            ResolveBranch::follows(self, reply, r),
    {
        let step = self.search.resume(reply);
        let ghost taken = step;
        proof {
            assert(DefaultBranch::follows(self.search, reply, taken));
        }
        ResolveBranch::pass(step)
    }
}

impl Git {
    /// Asks for the current branch.
    pub fn current_branch(&self) -> (r: Progress<CurrentBranch, Named>)
        ensures
            r matches Progress::Ask(action, op) && op.libgit2 == self.libgit2 && op.asks(action),
    {
        let op = CurrentBranch { libgit2: self.libgit2 };
        Progress::Ask(op.ask(), op)
    }

    /// Starts to search for the remote branch that matches the current branch.
    pub fn matching_remote_branch(&self, remote: &str) -> (r: Matched)
        ensures
            r matches Progress::Ask(action, op) && op.libgit2 == self.libgit2 && op.remote@
                == remote@ && op.phase is Current && (CurrentBranch {
                libgit2: self.libgit2,
            }).asks(action),
    {
        let action = (CurrentBranch { libgit2: self.libgit2 }).ask();
        Progress::Ask(
            action,
            MatchingBranch {
                libgit2: self.libgit2,
                remote: remote.to_owned(),
                phase: MatchPhase::Current,
            },
        )
    }

    /// Starts to determine the repository's default branch reference.
    ///
    /// 1. What `origin/HEAD` points to, if it points to a branch.
    /// 2. If the current branch exists on origin, that.
    /// 3. Otherwise `main`, then `master`, if they exist.
    pub fn default_branch(&self) -> (r: Defaulted)
        ensures
            r matches Progress::Ask(Action::ReadGit(c), op) && op == (DefaultBranch {
                libgit2: self.libgit2,
                phase: DefaultPhase::Symbolic,
            }) && c.says(seq!["symbolic-ref"@, "refs/remotes/origin/HEAD"@]),
    {
        let c = Command::of(&["symbolic-ref", "refs/remotes/origin/HEAD"]);
        Progress::Ask(
            Action::ReadGit(c),
            DefaultBranch { libgit2: self.libgit2, phase: DefaultPhase::Symbolic },
        )
    }

    /// That a configured branch is taken as it is, and that the search starts
    /// where it is missing or blank.
    pub open spec fn starts_resolving(&self, configured: Option<String>, r: Resolved) -> bool {
        if configured is Some && !is_blank(configured->0@) {
            r matches Progress::Done(branch) && branch@ == configured->0@
        } else {
            r matches Progress::Ask(Action::ReadGit(c), op) && op.search == (DefaultBranch {
                libgit2: self.libgit2,
                phase: DefaultPhase::Symbolic,
            }) && c.says(seq!["symbolic-ref"@, "refs/remotes/origin/HEAD"@])
        }
    }

    /// Finds the default branch to use, honoring one that is configured. A
    /// configured branch that is not blank is returned as it is. Otherwise the
    /// search starts.
    pub fn resolve_default_branch(&self, configured: Option<String>) -> (r: Resolved)
        ensures
            self.starts_resolving(configured, r),
    {
        if let Some(val) = configured {
            if !blank(val.as_str()) {
                return Progress::Done(val);
            }
        }
        ResolveBranch::pass(self.default_branch())
    }
}

/// The current branch is what libgit2 calls `HEAD`, or the first line that git
/// prints; without an answer it is an error.
pub proof fn law_the_current_branch_is_as_told(libgit2: bool, reply: Reply)
    ensures
        ({
            let told = (CurrentBranch { libgit2 }).told(reply);
            &&& libgit2 ==> match reply {
                Reply::Name(Some(Some(name))) => told == Ok::<Option<Seq<char>>, GitError>(
                    Some(name@),
                ),
                Reply::Name(Some(None)) => told == Ok::<Option<Seq<char>>, GitError>(None),
                _ => told matches Err(GitError::Head),
            }
            &&& !libgit2 ==> match reply {
                Reply::Text(Some(output)) => told == Ok::<Option<Seq<char>>, GitError>(
                    if lines(output@).len() > 0 {
                        Some(lines(output@)[0])
                    } else {
                        None
                    },
                ),
                _ => told matches Err(GitError::Command),
            }
        }),
{
}

/// The action that asks for the current branch.
pub proof fn law_the_current_branch_is_asked_for(libgit2: bool, action: Action)
    requires
        (CurrentBranch { libgit2 }).asks(action),
    ensures
        libgit2 ==> action is LibGitHead,
        !libgit2 ==> (action matches Action::Shell(line) && line@ == "git branch --show-current"@),
{
}

/// The remote is asked for its counterpart of the current branch, and of no
/// other. Without a current branch there is none.
pub proof fn law_the_remote_is_asked_for_the_current_branch(
    pre: MatchingBranch,
    reply: Reply,
    r: Matched,
)
    requires
        pre.phase is Current,
        MatchingBranch::follows(pre, reply, r),
    ensures
        match (CurrentBranch { libgit2: pre.libgit2 }).told(reply) {
            Ok(Some(branch)) => {
                &&& r matches Progress::Ask(action, post)
                &&& post.libgit2 == pre.libgit2 && post.remote == pre.remote
                &&& post.phase matches MatchPhase::Remote(b)
                &&& b@ == branch
                &&& pre.libgit2 ==> (action matches Action::LibGitReference(name) && name@
                    == "refs/remotes/"@ + pre.remote@ + "/"@ + branch)
                &&& !pre.libgit2 ==> (action matches Action::Shell(line) && line@
                    == "git ls-remote --heads "@ + pre.remote@ + " "@ + branch)
            },
            Ok(None) => r matches Progress::Done(Ok(None)),
            Err(_) => r matches Progress::Done(Err(_)),
        },
{
}

/// A remote has a counterpart of a branch where libgit2 finds its reference,
/// which is then its name, or where a line of the remote's answer ends in the
/// head of that branch, or holds the reference that tracks it.
pub proof fn law_a_remote_branch_matches_by_its_reference(
    pre: MatchingBranch,
    branch: String,
    reply: Reply,
    r: Matched,
)
    requires
        pre.phase == MatchPhase::Remote(branch),
        MatchingBranch::follows(pre, reply, r),
    ensures
        pre.libgit2 ==> match reply {
            Reply::Name(Some(Some(name))) => r matches Progress::Done(Ok(Some(n))) && n@ == name@,
            _ => r matches Progress::Done(Ok(None)),
        },
        !pre.libgit2 ==> match reply {
            Reply::Text(Some(output)) => {
                let head = "refs/heads/"@ + branch@;
                let tracking = "refs/remotes/"@ + pre.remote@ + "/"@ + branch@;
                let found = exists|i: int|
                    0 <= i < lines(output@).len() && (head.is_suffix_of(
                        #[trigger] lines(output@)[i],
                    ) || has_part(lines(output@)[i], tracking));
                &&& found ==> (r matches Progress::Done(Ok(Some(n))) && n@ == branch@)
                &&& !found ==> (r matches Progress::Done(Ok(None)))
            },
            _ => r matches Progress::Done(Err(GitError::Command)),
        },
{
    if let Reply::Text(Some(output)) = reply {
        let head = "refs/heads/"@ + branch@;
        let tracking = "refs/remotes/"@ + pre.remote@ + "/"@ + branch@;
        let all = lines(output@);
        if line_ending(output@, head) {
            let i = choose|i: int| 0 <= i < all.len() && head.is_suffix_of(#[trigger] all[i]);
            assert(head.is_suffix_of(lines(output@)[i]));
        }
        if line_with(output@, tracking) {
            let i = choose|i: int| 0 <= i < all.len() && has_part(#[trigger] all[i], tracking);
            assert(has_part(lines(output@)[i], tracking));
        }
    }
}

/// What `origin/HEAD` points to is the default branch, without the part that
/// all remote references share. Where it points nowhere, the branch that
/// matches the current one is searched for.
pub proof fn law_what_head_points_to_is_the_default(
    pre: DefaultBranch,
    told: Option<String>,
    r: Defaulted,
)
    requires
        pre.phase is Symbolic,
        DefaultBranch::follows(pre, Reply::Text(told), r),
    ensures
        ({
            let target = if told is Some && lines(told->0@).len() > 0 {
                after_prefix(lines(told->0@)[0], "refs/remotes/"@)
            } else {
                None
            };
            &&& target is Some ==> (r matches Progress::Done(Ok(branch)) && branch@ == target->0)
            &&& target is None ==> {
                &&& r matches Progress::Ask(action, post)
                &&& (CurrentBranch { libgit2: pre.libgit2 }).asks(action)
                &&& post.libgit2 == pre.libgit2
                &&& post.phase matches DefaultPhase::Matching(inner)
                &&& inner.remote@ == "origin"@ && inner.phase is Current
                &&& inner.libgit2 == pre.libgit2
            }
        }),
{
}

/// Where the current branch has a counterpart, that is the default branch.
/// Otherwise `origin` is asked for `main`; failures on the way count as no
/// counterpart.
pub proof fn law_a_matching_branch_is_the_default(
    pre: DefaultBranch,
    inner: MatchingBranch,
    reply: Reply,
    r: Defaulted,
)
    requires
        pre.phase == DefaultPhase::Matching(inner),
        inner.phase is Remote,
        DefaultBranch::follows(pre, reply, r),
    ensures
        ({
            let branch = inner.phase->Remote_0@;
            let found = if inner.libgit2 {
                match reply {
                    Reply::Name(Some(Some(name))) => Some(name@),
                    _ => None,
                }
            } else {
                match reply {
                    Reply::Text(Some(output)) => if names_branch(output@, inner.remote@, branch) {
                        Some(branch)
                    } else {
                        None
                    },
                    _ => None,
                }
            };
            &&& found matches Some(name) ==> {
                &&& r matches Progress::Done(Ok(b))
                &&& b@ == (match after_prefix(name, "refs/remotes/"@) {
                    Some(short) => short,
                    None => name,
                })
            }
            &&& found is None ==> {
                &&& r matches Progress::Ask(Action::Shell(line), post)
                &&& line@ == "git ls-remote --heads "@ + "origin"@ + " "@ + "main"@
                &&& post.phase is Main && post.libgit2 == pre.libgit2
            }
        }),
{
}

/// While the current branch is asked for, the search goes on with what it is
/// told; without a current branch `origin` is asked for `main`.
pub proof fn law_the_current_branch_leads_to_its_counterpart(
    pre: DefaultBranch,
    inner: MatchingBranch,
    reply: Reply,
    r: Defaulted,
)
    requires
        pre.phase == DefaultPhase::Matching(inner),
        inner.phase is Current,
        DefaultBranch::follows(pre, reply, r),
    ensures
        match (CurrentBranch { libgit2: inner.libgit2 }).told(reply) {
            Ok(Some(branch)) => {
                &&& r matches Progress::Ask(action, post)
                &&& post.phase matches DefaultPhase::Matching(next)
                &&& next.remote == inner.remote && next.libgit2 == inner.libgit2
                &&& next.phase matches MatchPhase::Remote(b)
                &&& b@ == branch
                &&& inner.libgit2 ==> (action matches Action::LibGitReference(name) && name@
                    == "refs/remotes/"@ + inner.remote@ + "/"@ + branch)
                &&& !inner.libgit2 ==> (action matches Action::Shell(line) && line@
                    == "git ls-remote --heads "@ + inner.remote@ + " "@ + branch)
            },
            _ => {
                &&& r matches Progress::Ask(Action::Shell(line), post)
                &&& line@ == "git ls-remote --heads "@ + "origin"@ + " "@ + "main"@
                &&& post.phase is Main && post.libgit2 == pre.libgit2
            },
        },
{
}

/// `main` comes before `master`, each only where `origin` has it; where it has
/// neither, `origin/HEAD` itself is the default. An `origin` that does not
/// answer is an error.
pub proof fn law_main_comes_before_master(pre: DefaultBranch, told: Option<String>, r: Defaulted)
    requires
        pre.phase is Main || pre.phase is Master,
        DefaultBranch::follows(pre, Reply::Text(told), r),
    ensures
        ({
            let branch = if pre.phase is Main {
                "main"@
            } else {
                "master"@
            };
            let head = if pre.phase is Main {
                "refs/heads/main"@
            } else {
                "refs/heads/master"@
            };
            let listed = told is Some && exists|i: int|
                0 <= i < lines(told->0@).len() && head.is_suffix_of(#[trigger] lines(told->0@)[i]);
            &&& told is None ==> (r matches Progress::Done(Err(GitError::Command)))
            &&& listed ==> (r matches Progress::Done(Ok(b)) && b@ == branch)
            &&& told is Some && !listed && pre.phase is Main ==> {
                &&& r matches Progress::Ask(Action::Shell(line), post)
                &&& line@ == "git ls-remote --heads "@ + "origin"@ + " "@ + "master"@
                &&& post.phase is Master
            }
            &&& told is Some && !listed && pre.phase is Master ==> (r matches Progress::Done(Ok(b))
                && b@ == "origin/HEAD"@)
        }),
{
}

/// Where the search fails, `main` is taken; what it finds is taken as it is.
pub proof fn law_main_stands_in_for_a_failed_search(
    pre: ResolveBranch,
    told: Option<String>,
    r: Resolved,
)
    requires
        pre.search.phase is Main || pre.search.phase is Master,
        ResolveBranch::follows(pre, Reply::Text(told), r),
    ensures
        told is None ==> (r matches Progress::Done(b) && b@ == "main"@),
        told is Some && line_ending(told->0@, "refs/heads/main"@) && pre.search.phase is Main ==> (
        r matches Progress::Done(b) && b@ == "main"@),
        told is Some && line_ending(told->0@, "refs/heads/master"@) && pre.search.phase is Master
            ==> (r matches Progress::Done(b) && b@ == "master"@),
        told is Some && !line_ending(told->0@, "refs/heads/master"@) && pre.search.phase is Master
            ==> (r matches Progress::Done(b) && b@ == "origin/HEAD"@),
{
}

/// A configured branch is taken exactly where it is more than white space.
pub proof fn law_a_configured_branch_is_taken_as_it_is(
    git: Git,
    configured: Option<String>,
    r: Resolved,
)
    requires
        git.starts_resolving(configured, r),
    ensures
        configured is Some && crate::text::trimmed(configured->0@).len() > 0 ==> (r matches
            Progress::Done(branch) && branch@ == configured->0@),
        configured is None || crate::text::trimmed(configured->0@).len() == 0 ==> {
            &&& r matches Progress::Ask(Action::ReadGit(c), op)
            &&& c.says(seq!["symbolic-ref"@, "refs/remotes/origin/HEAD"@])
            &&& op.search.phase is Symbolic && op.search.libgit2 == git.libgit2
        },
{
    if configured is Some {
        crate::text::law_blank_trims_to_nothing(configured->0@);
    }
}

/// A result names what it was told, and fails as it was told.
pub proof fn law_a_name_is_passed_on_as_told(
    name: Option<String>,
    e: GitError,
    told: Option<Seq<char>>,
    other: GitError,
)
    ensures
        is_named(Ok(name), Ok(told)) <==> (name is Some <==> told is Some) && (name is Some
            ==> name->0@ == told->0),
        is_named(Err(e), Err(other)) <==> e == other,
        !is_named(Ok(name), Err(other)),
        !is_named(Err(e), Ok(told)),
{
}

/// A search that goes on asks what it asks; one that found a branch gives it,
/// and one that failed gives `main`.
pub proof fn law_a_search_is_passed_on(step: Defaulted, r: Resolved)
    requires
        ResolveBranch::passes(step, r),
    ensures
        match step {
            Progress::Ask(action, next) => r matches Progress::Ask(asked, post) && asked == action
                && post.search == next,
            Progress::Done(Ok(branch)) => r matches Progress::Done(b) && b@ == branch@,
            Progress::Done(Err(_)) => r matches Progress::Done(b) && b@ == "main"@,
        },
{
}

} // verus!
