//! What an operation asks of the outside, and what it is told.
//!
//! An operation never runs git nor touches a file. It says what it wants done
//! next, and goes on when it is handed the reply.
use crate::paths::{raw_paths, RepoPath};
use crate::text::texts;
use vstd::prelude::*;

verus! {

/// How far an operation has come.
pub enum Progress<M, R> {
    /// The action to perform, and the operation that waits for its reply.
    Ask(Action, M),
    /// The operation is over.
    Done(R),
}

/// A git command line: arguments, then paths.
#[derive(Debug)]
pub struct Command {
    /// The arguments after `git`.
    pub args: Vec<String>,
    /// The paths that follow the arguments.
    pub paths: Vec<RepoPath>,
}

/// Which of its two status lists libgit2 is asked for, and how.
#[derive(Debug)]
pub struct StatusQuery {
    /// The work tree against the index, instead of the index against `HEAD`.
    pub workdir: bool,
    /// Whether untracked files are listed.
    pub include_untracked: bool,
    /// Whether untracked directories are entered.
    pub recurse_untracked_dirs: bool,
    /// Whether renames between `HEAD` and the index are looked for.
    pub renames_head_to_index: bool,
    /// The paths to report on; all paths where it is empty.
    pub pathspec: Vec<RepoPath>,
}

/// What lies at a path.
#[derive(Clone, Copy, PartialEq, Eq, Structural, Debug)]
pub struct Presence {
    /// Something exists there once symbolic links are followed.
    pub target: bool,
    /// There is a directory entry, be it a broken symbolic link.
    pub entry: bool,
}

/// One entry of a libgit2 status list.
#[derive(Debug)]
pub struct LibEntry {
    /// The path, where it is valid UTF-8.
    pub path: Option<String>,
    /// The bits of the entry's status.
    pub bits: u32,
}

/// One entry of the directory of patch backups.
#[derive(Debug)]
pub struct PatchEntry {
    /// The file name, where it is valid UTF-8.
    pub name: Option<String>,
    /// The time of the last change, where it can be read; later is larger.
    pub modified: Option<i128>,
}

/// What the project's configuration says about its hooks.
#[derive(Debug)]
pub struct ProjectConfig {
    /// The branch that others start from, where it is configured.
    pub default_branch: Option<String>,
    /// The names of the hooks that are defined.
    pub hooks: Vec<String>,
}

/// A piece of outside work.
#[derive(Debug)]
pub enum Action {
    /// Run git, showing what it prints to standard error. Reply: `Done`.
    RunGit(Command),
    /// Run git without showing anything. Reply: `Done`.
    RunGitQuiet(Command),
    /// Run git and read the text it prints. Reply: `Text`.
    ReadGit(Command),
    /// Run git without showing anything, and read the text it prints. Reply: `Text`.
    ReadGitQuiet(Command),
    /// Run git and read the bytes it prints. Reply: `Bytes`.
    ReadGitBytes(Command),
    /// Run a shell command line and read the text it prints. Reply: `Text`.
    Shell(String),
    /// Look what lies at some paths. Reply: `Presence`.
    Probe(Vec<RepoPath>),
    /// Read some files as text, where they exist. Reply: `Contents`.
    ReadFiles(Vec<RepoPath>),
    /// Write a file. Reply: `Done`.
    WriteFile(RepoPath, Vec<u8>),
    /// Tell the current directory. Reply: `Path`.
    CurrentDir,
    /// Set environment variables. Reply: `Done`.
    ExportVars(Vec<(String, RepoPath)>),
    /// Find the root of the work tree that the environment names. Reply: `Path`.
    FindWorkTree,
    /// Find the nearest directory, from the given one upwards, that holds an
    /// entry of the given name. Reply: `Path`.
    FindUp(RepoPath, String),
    /// Make a directory the current one. Reply: `Done`.
    EnterDir(RepoPath),
    /// Open the repository with libgit2, as the environment says or in the
    /// current directory. Reply: `Bare`.
    OpenLibGit(bool),
    /// Have libgit2 use an index file. Reply: `Done`.
    UseIndex(RepoPath),
    /// Look up `HEAD` with libgit2. Reply: `Name`, with the short name.
    LibGitHead,
    /// Look up a reference with libgit2. Reply: `Name`, with the full name.
    LibGitReference(String),
    /// List the index with libgit2. Reply: `Paths`.
    LibGitIndex,
    /// List the status with libgit2. Reply: `Statuses`.
    LibGitStatuses(StatusQuery),
    /// Make the signature that a libgit2 commit needs. Reply: `Done`.
    LibGitSignature,
    /// Stash with libgit2 under a message, keeping the index, with or without
    /// untracked files. Reply: `Done`.
    LibGitStash(String, bool),
    /// Add paths to the index with libgit2, and write it. Reply: `Done`.
    LibGitAdd(Vec<RepoPath>),
    /// List, with libgit2, the new path of each changed line between the merge
    /// base of two references and the second of them. Reply: `Paths`.
    LibGitDiff(String, String),
    /// Merge two changes of a base text: a fixer's and the work tree's. Reply: `Text`.
    Merge(String, Option<String>, Option<String>),
    /// Make the directory of patch backups, and tell the current directory.
    /// Reply: `Path`.
    PreparePatches,
    /// Write a file into the directory of patch backups. Reply: `Done`.
    WritePatch(String, String),
    /// List the directory of patch backups. Reply: `Patches`.
    ListPatches,
    /// Remove files from the directory of patch backups. Reply: `Done`.
    RemovePatches(Vec<String>),
    /// Look whether the project has a configuration. Reply: `Done`.
    FindConfig,
    /// Load the configuration. Reply: `Config`.
    LoadConfig,
}

/// The outcome of a piece of outside work.
#[derive(Debug)]
pub enum Reply {
    /// Whether it went well.
    Done(bool),
    /// The text that was read, or nothing where that failed.
    Text(Option<String>),
    /// The bytes that were read, or nothing where that failed.
    Bytes(Option<Vec<u8>>),
    /// What lies at each path that was asked for.
    Presence(Vec<Presence>),
    /// The text of each file that was asked for, where it could be read.
    Contents(Vec<Option<String>>),
    /// A path, or nothing where there is none.
    Path(Option<RepoPath>),
    /// Whether the opened repository is bare, or nothing where it did not open.
    Bare(Option<bool>),
    /// A name that may be missing, or nothing where the lookup failed.
    Name(Option<Option<String>>),
    /// A list of paths, or nothing where listing failed.
    Paths(Option<Vec<RepoPath>>),
    /// A status list, or nothing where listing failed.
    Statuses(Option<Vec<LibEntry>>),
    /// A directory listing; empty where it could not be read.
    Patches(Vec<PatchEntry>),
    /// The configuration, or nothing where it did not load.
    Config(Option<ProjectConfig>),
}

impl Reply {
    /// Whether the work went well.
    pub open spec fn ok(self) -> bool {
        self == Reply::Done(true)
    }

    /// The text that was read.
    pub open spec fn text(self) -> Option<Seq<char>> {
        match self {
            Reply::Text(Some(t)) => Some(t@),
            _ => None,
        }
    }

    /// The text that was read, or the empty text.
    pub open spec fn text_or_empty(self) -> Seq<char> {
        match self.text() {
            Some(t) => t,
            None => Seq::empty(),
        }
    }

    /// The bytes that were read.
    pub open spec fn bytes(self) -> Option<Seq<u8>> {
        match self {
            Reply::Bytes(Some(b)) => Some(b@),
            _ => None,
        }
    }

    /// Whether the work went well.
    pub fn into_ok(self) -> (r: bool)
        ensures
            r == self.ok(),
    {
        match self {
            Reply::Done(b) => b,
            _ => false,
        }
    }

    /// The text that was read.
    pub fn into_text(self) -> (r: Option<String>)
        ensures
            crate::text::opt_text(r) == self.text(),
    {
        match self {
            Reply::Text(t) => t,
            _ => None,
        }
    }

    /// The text that was read, or the empty text.
    pub fn into_text_or_empty(self) -> (r: String)
        ensures
            r@ == self.text_or_empty(),
    {
        match self {
            Reply::Text(Some(t)) => t,
            _ => String::new(),
        }
    }

    /// The bytes that were read.
    pub fn into_bytes(self) -> (r: Option<Vec<u8>>)
        ensures
            match r {
                Some(b) => self.bytes() == Some(b@),
                None => self.bytes() is None,
            },
    {
        match self {
            Reply::Bytes(b) => b,
            _ => None,
        }
    }
}

impl Command {
    /// Whether this is the command line of these arguments and paths.
    pub open spec fn is(&self, args: Seq<Seq<char>>, paths: Seq<Seq<u8>>) -> bool {
        texts(self.args@) =~= args && raw_paths(self.paths@) =~= paths
    }

    /// Whether this is the command line of these arguments, without paths.
    pub open spec fn says(&self, args: Seq<Seq<char>>) -> bool {
        self.is(args, Seq::empty())
    }

    /// The command line of some arguments.
    pub fn of(parts: &[&str]) -> (r: Command)
        ensures
            r.says(parts@.map_values(|s: &str| s@)),
    {
        let mut args: Vec<String> = Vec::new();
        let mut i: usize = 0;
        while i < parts.len()
            invariant
                i <= parts.len(),
                args.len() == i,
                forall|k: int| 0 <= k < i ==> (#[trigger] args@[k])@ == parts@[k]@,
            decreases parts.len() - i,
        {
            args.push(parts[i].to_owned());
            i += 1;
        }
        let paths: Vec<RepoPath> = Vec::new();
        proof {
            assert(texts(args@) == parts@.map_values(|s: &str| s@));
            assert(raw_paths(paths@) == Seq::<Seq<u8>>::empty());
        }
        Command { args, paths }
    }

    /// This command line with one more argument.
    pub fn with(self, arg: &str) -> (r: Command)
        ensures
            r.is(texts(self.args@).push(arg@), raw_paths(self.paths@)),
    {
        let Command { args, paths } = self;
        let mut args = args;
        let ghost was = args@;
        args.push(arg.to_owned());
        proof {
            assert(texts(args@) == texts(was).push(arg@));
        }
        Command { args, paths }
    }

    /// This command line, with one more argument where it is wanted.
    pub fn with_if(self, wanted: bool, arg: &str) -> (r: Command)
        ensures
            r.is(
                if wanted {
                    texts(self.args@).push(arg@)
                } else {
                    texts(self.args@)
                },
                raw_paths(self.paths@),
            ),
    {
        if wanted {
            self.with(arg)
        } else {
            self
        }
    }

    /// This command line with more arguments.
    pub fn with_all(self, more: &Vec<String>) -> (r: Command)
        ensures
            r.is(texts(self.args@) + texts(more@), raw_paths(self.paths@)),
    {
        let Command { args, paths } = self;
        let mut args = args;
        let ghost start = texts(args@);
        let mut i: usize = 0;
        proof {
            assert(start + texts(more@).take(0) == start);
        }
        while i < more.len()
            invariant
                i <= more.len(),
                texts(args@) == start + texts(more@).take(i as int),
            decreases more.len() - i,
        {
            let ghost was = args@;
            args.push(more[i].clone());
            i += 1;
            proof {
                assert(texts(args@) == texts(was).push(more@[i - 1]@));
                assert(texts(more@).take(i as int) == texts(more@).take(i - 1).push(
                    more@[i - 1]@,
                ));
            }
        }
        proof {
            assert(texts(more@).take(more@.len() as int) == texts(more@));
        }
        Command { args, paths }
    }

    /// This command line with other paths.
    pub fn with_paths(self, paths: Vec<RepoPath>) -> (r: Command)
        ensures
            r.is(texts(self.args@), raw_paths(paths@)),
    {
        let Command { args, paths: _ } = self;
        Command { args, paths }
    }
}

/// Whether something lies at the `i`-th path asked for, symbolic links followed.
pub open spec fn target_at(list: Seq<Presence>, i: int) -> bool {
    0 <= i < list.len() && list[i].target
}

/// Whether there is a directory entry, or what one leads to, at the `i`-th
/// path asked for.
pub open spec fn present_at(list: Seq<Presence>, i: int) -> bool {
    0 <= i < list.len() && (list[i].target || list[i].entry)
}

/// What a probe found; nothing where the reply is of another kind.
pub open spec fn found(reply: Reply) -> Seq<Presence> {
    match reply {
        Reply::Presence(list) => list@,
        _ => Seq::empty(),
    }
}

/// Takes what a probe found.
pub fn into_found(reply: Reply) -> (r: Vec<Presence>)
    ensures
        r@ == found(reply),
{
    match reply {
        Reply::Presence(list) => list,
        _ => Vec::new(),
    }
}

/// Tells whether something lies at the `i`-th path asked for.
pub fn is_target_at(list: &Vec<Presence>, i: usize) -> (r: bool)
    ensures
        r == target_at(list@, i as int),
{
    i < list.len() && list[i].target
}

/// Tells whether there is an entry, or what one leads to, at the `i`-th path
/// asked for.
pub fn is_present_at(list: &Vec<Presence>, i: usize) -> (r: bool)
    ensures
        r == present_at(list@, i as int),
{
    i < list.len() && (list[i].target || list[i].entry)
}

/// A command line says some arguments exactly if it has these and no others,
/// one by one, and it has just the paths it is given.
pub proof fn law_a_command_says_its_arguments(
    c: Command,
    args: Seq<Seq<char>>,
    paths: Seq<Seq<u8>>,
)
    ensures
        c.is(args, paths) <==> {
            &&& c.args@.len() == args.len() && c.paths@.len() == paths.len()
            &&& forall|i: int| 0 <= i < args.len() ==> (#[trigger] c.args@[i])@ == args[i]
            &&& forall|i: int| 0 <= i < paths.len() ==> (#[trigger] c.paths@[i]).raw@ == paths[i]
        },
        c.says(args) <==> c.is(args, Seq::empty()),
{
    if c.is(args, paths) {
        assert forall|i: int| 0 <= i < args.len() implies (#[trigger] c.args@[i])@ == args[i] by {
            assert(texts(c.args@)[i] == args[i]);
        }
        assert forall|i: int| 0 <= i < paths.len() implies (#[trigger] c.paths@[i]).raw@
            == paths[i] by {
            assert(raw_paths(c.paths@)[i] == paths[i]);
        }
    }
}

/// A reply tells what it was given, and only in the form it was given in:
/// success, a text, or bytes.
pub proof fn law_a_reply_tells_what_it_holds(
    done: bool,
    text: Option<String>,
    bytes: Option<Vec<u8>>,
    list: Vec<Presence>,
)
    ensures
        Reply::Done(done).ok() <==> done,
        !Reply::Text(text).ok() && !Reply::Bytes(bytes).ok() && !Reply::Presence(list).ok(),
        Reply::Text(text).text() == (match text {
            Some(t) => Some(t@),
            None => None,
        }),
        Reply::Text(text).text_or_empty() == (match text {
            Some(t) => t@,
            None => Seq::empty(),
        }),
        Reply::Done(done).text() is None && Reply::Bytes(bytes).text() is None,
        Reply::Done(done).text_or_empty() == Seq::<char>::empty(),
        Reply::Bytes(bytes).bytes() == (match bytes {
            Some(b) => Some(b@),
            None => None,
        }),
        Reply::Done(done).bytes() is None && Reply::Text(text).bytes() is None,
        found(Reply::Presence(list)) == list@,
        found(Reply::Done(done)) == Seq::<Presence>::empty(),
{
}

/// A path was found where something lies there, or where there is at least an
/// entry; nothing is known of a path that was not asked for.
pub proof fn law_presence_is_told_path_by_path(list: Seq<Presence>, i: int)
    ensures
        0 <= i < list.len() ==> (target_at(list, i) <==> list[i].target),
        0 <= i < list.len() ==> (present_at(list, i) <==> list[i].target || list[i].entry),
        i < 0 || i >= list.len() ==> !target_at(list, i) && !present_at(list, i),
{
}

} // verus!
