//! What changed in the work tree and in the index.
use crate::git::{Git, GitError};
use crate::paths::{
    collected, copy_paths, names_path, ordered, raw_paths, same_path, PathSet, RepoPath,
};
use crate::text::{records, split_records, text_of, texts, to_chars};
use crate::work::{
    found, into_found, is_present_at, present_at, Action, Command, LibEntry, Presence, Progress,
    Reply, StatusQuery,
};
use vstd::prelude::*;
use vstd::utf8::encode_utf8;

verus! {

/// The bit that libgit2 sets for a file new in the index.
pub const INDEX_NEW: u32 = 0x1;

/// The bit that libgit2 sets for a file changed in the index.
pub const INDEX_MODIFIED: u32 = 0x2;

/// The bit that libgit2 sets for a file deleted from the index.
pub const INDEX_DELETED: u32 = 0x4;

/// The bit that libgit2 sets for a file renamed in the index.
pub const INDEX_RENAMED: u32 = 0x8;

/// The bit that libgit2 sets for a file of another type in the index.
pub const INDEX_TYPECHANGE: u32 = 0x10;

/// The status of a file that libgit2 finds new in the work tree.
pub const WT_NEW: u32 = 0x80;

/// The status of a file that libgit2 finds changed in the work tree.
pub const WT_MODIFIED: u32 = 0x100;

/// The status of a file that libgit2 finds deleted from the work tree.
pub const WT_DELETED: u32 = 0x200;

/// The status of a file that libgit2 finds of another type in the work tree.
pub const WT_TYPECHANGE: u32 = 0x400;

/// The status of a file that libgit2 finds renamed in the work tree.
pub const WT_RENAMED: u32 = 0x800;

/// `git2::Status::is_index_new`: whether that bit is set.
#[verifier::external_body]
fn is_index_new(bits: u32) -> (r: bool)
    ensures
        r == (bits & INDEX_NEW != 0),
{
    git2::Status::from_bits_retain(bits).is_index_new()
}

/// `git2::Status::is_index_modified`: whether that bit is set.
#[verifier::external_body]
fn is_index_modified(bits: u32) -> (r: bool)
    ensures
        r == (bits & INDEX_MODIFIED != 0),
{
    git2::Status::from_bits_retain(bits).is_index_modified()
}

/// `git2::Status::is_index_typechange`: whether that bit is set.
#[verifier::external_body]
fn is_index_typechange(bits: u32) -> (r: bool)
    ensures
        r == (bits & INDEX_TYPECHANGE != 0),
{
    git2::Status::from_bits_retain(bits).is_index_typechange()
}

/// `git2::Status::is_index_deleted`: whether that bit is set.
#[verifier::external_body]
fn is_index_deleted(bits: u32) -> (r: bool)
    ensures
        r == (bits & INDEX_DELETED != 0),
{
    git2::Status::from_bits_retain(bits).is_index_deleted()
}

/// `git2::Status::is_index_renamed`: whether that bit is set.
#[verifier::external_body]
fn is_index_renamed(bits: u32) -> (r: bool)
    ensures
        r == (bits & INDEX_RENAMED != 0),
{
    git2::Status::from_bits_retain(bits).is_index_renamed()
}

/// The sets of files that a status tells apart.
#[derive(Clone, Copy, PartialEq, Eq, Structural, Debug)]
pub enum StatusKind {
    /// Files with staged changes.
    Staged,
    /// Files with changes that are not staged.
    Unstaged,
    /// Files that git does not track.
    Untracked,
    /// Files changed in the index or the work tree.
    Modified,
    /// Files staged as new.
    StagedAdded,
    /// Files staged as changed.
    StagedModified,
    /// Files staged as deleted.
    StagedDeleted,
    /// Files staged as renamed.
    StagedRenamed,
    /// Files staged as copied.
    StagedCopied,
    /// Files changed in the work tree.
    UnstagedModified,
    /// Files deleted from the work tree.
    UnstagedDeleted,
    /// Files renamed in the work tree.
    UnstagedRenamed,
}

/// The files that changed, by what changed about them.
#[derive(Debug)]
pub struct GitStatus {
    /// Files with changes that are not staged.
    pub unstaged_files: PathSet,
    /// Files with staged changes.
    pub staged_files: PathSet,
    /// Files that git does not track.
    pub untracked_files: PathSet,
    /// Files changed in the index or the work tree.
    pub modified_files: PathSet,
    /// Files staged as new.
    pub staged_added_files: PathSet,
    /// Files staged as changed.
    pub staged_modified_files: PathSet,
    /// Files staged as deleted.
    pub staged_deleted_files: PathSet,
    /// Files staged as renamed.
    pub staged_renamed_files: PathSet,
    /// Files staged as copied.
    pub staged_copied_files: PathSet,
    /// Files changed in the work tree.
    pub unstaged_modified_files: PathSet,
    /// Files deleted from the work tree.
    pub unstaged_deleted_files: PathSet,
    /// Files renamed in the work tree.
    pub unstaged_renamed_files: PathSet,
}

impl GitStatus {
    /// The files of one kind.
    pub open spec fn files(&self, kind: StatusKind) -> Seq<Seq<u8>> {
        match kind {
            StatusKind::Staged => self.staged_files@,
            StatusKind::Unstaged => self.unstaged_files@,
            StatusKind::Untracked => self.untracked_files@,
            StatusKind::Modified => self.modified_files@,
            StatusKind::StagedAdded => self.staged_added_files@,
            StatusKind::StagedModified => self.staged_modified_files@,
            StatusKind::StagedDeleted => self.staged_deleted_files@,
            StatusKind::StagedRenamed => self.staged_renamed_files@,
            StatusKind::StagedCopied => self.staged_copied_files@,
            StatusKind::UnstagedModified => self.unstaged_modified_files@,
            StatusKind::UnstagedDeleted => self.unstaged_deleted_files@,
            StatusKind::UnstagedRenamed => self.unstaged_renamed_files@,
        }
    }

    /// Whether every set of files stands in order, none of them twice.
    pub open spec fn wf(&self) -> bool {
        forall|kind: StatusKind| ordered(#[trigger] self.files(kind))
    }
}

/// A line of `git status --porcelain`.
#[derive(Debug)]
pub struct StatusEntry {
    /// The state in the index.
    pub index: char,
    /// The state in the work tree.
    pub worktree: char,
    /// The path.
    pub path: RepoPath,
}

/// What a line of `git status --porcelain` says.
pub struct Change {
    /// The state in the index.
    pub index: char,
    /// The state in the work tree.
    pub worktree: char,
    /// The path.
    pub path: Seq<u8>,
}

impl View for StatusEntry {
    type V = Change;

    open spec fn view(&self) -> Change {
        Change { index: self.index, worktree: self.worktree, path: self.path@ }
    }
}

/// What some lines say.
pub open spec fn changes(list: Seq<StatusEntry>) -> Seq<Change> {
    Seq::new(list.len(), |i: int| list[i]@)
}

/// What one record says: the state in the index, that in the work tree, a
/// separator, the path. A state that is missing counts as NUL.
pub open spec fn change_of(record: Seq<char>) -> Change {
    Change {
        index: if record.len() > 0 {
            record[0]
        } else {
            '\0'
        },
        worktree: if record.len() > 1 {
            record[1]
        } else {
            '\0'
        },
        path: encode_utf8(
            if record.len() > 3 {
                record.skip(3)
            } else {
                Seq::empty()
            },
        ),
    }
}

/// What `git status --porcelain -z` output says.
pub open spec fn porcelain(output: Seq<char>) -> Seq<Change> {
    Seq::new(records(output).len(), |i: int| change_of(records(output)[i]))
}

/// Reads one record.
pub fn parse_record(record: &str) -> (r: StatusEntry)
    ensures
        r@ == change_of(record@),
{
    let chars = to_chars(record);
    let n: usize = chars.len();
    let index = if n > 0 {
        chars[0]
    } else {
        '\0'
    };
    let worktree = if n > 1 {
        chars[1]
    } else {
        '\0'
    };
    let path = if n > 3 {
        let text = text_of(&chars, 3, n);
        proof {
            assert(text@ == record@.skip(3));
        }
        text
    } else {
        String::new()
    };
    StatusEntry { index, worktree, path: RepoPath::from_text(path.as_str()) }
}

/// Reads `git status --porcelain -z` output.
pub fn parse_porcelain(output: &str) -> (r: Vec<StatusEntry>)
    ensures
        changes(r@) == porcelain(output@),
{
    let list = split_records(output);
    let mut out: Vec<StatusEntry> = Vec::new();
    let mut i: usize = 0;
    while i < list.len()
        invariant
            i <= list.len(),
            texts(list@) == records(output@),
            out.len() == i,
            forall|k: int| 0 <= k < i ==> (#[trigger] out@[k])@ == change_of(list@[k]@),
        decreases list.len() - i,
    {
        out.push(parse_record(list[i].as_str()));
        i += 1;
    }
    proof {
        assert forall|k: int| 0 <= k < out@.len() implies changes(out@)[k] == #[trigger] porcelain(
            output@,
        )[k] by {
            assert(texts(list@)[k] == list@[k]@);
        }
    }
    out
}

/// Whether a state stands for a change: modified, of another type, added,
/// renamed or copied.
pub open spec fn is_change(c: char) -> bool {
    c == 'M' || c == 'T' || c == 'A' || c == 'R' || c == 'C'
}

/// Whether a file belongs to a kind, by what a porcelain line says of it and
/// whether it is present.
pub open spec fn belongs(kind: StatusKind, c: Change, present: bool) -> bool {
    match kind {
        StatusKind::Staged => is_change(c.index) && c.worktree != 'D' && present,
        StatusKind::Unstaged => is_change(c.worktree) && present,
        StatusKind::Untracked => c.worktree == '?' && present,
        StatusKind::Modified => (is_change(c.index) || is_change(c.worktree)) && present,
        StatusKind::StagedAdded => c.index == 'A',
        StatusKind::StagedModified => c.index == 'M' || c.index == 'T',
        StatusKind::StagedDeleted => c.index == 'D',
        StatusKind::StagedRenamed => c.index == 'R',
        StatusKind::StagedCopied => c.index == 'C',
        StatusKind::UnstagedModified => c.worktree == 'M' || c.worktree == 'T',
        StatusKind::UnstagedDeleted => c.worktree == 'D',
        StatusKind::UnstagedRenamed => c.worktree == 'R',
    }
}

/// The paths of the lines that belong to a kind.
pub open spec fn selected(
    kind: StatusKind,
    list: Seq<Change>,
    presence: Seq<Presence>,
) -> Seq<Seq<u8>>
    decreases list.len(),
{
    if list.len() == 0 {
        Seq::empty()
    } else {
        let before = selected(kind, list.drop_last(), presence);
        if belongs(kind, list.last(), present_at(presence, list.len() - 1)) {
            before.push(list.last().path)
        } else {
            before
        }
    }
}

/// Tells whether a state stands for a change.
fn changed(c: char) -> (r: bool)
    ensures
        r == is_change(c),
{
    c == 'M' || c == 'T' || c == 'A' || c == 'R' || c == 'C'
}

/// Tells whether a file belongs to a kind.
fn entry_belongs(kind: StatusKind, e: &StatusEntry, present: bool) -> (r: bool)
    ensures
        r == belongs(kind, e@, present),
{
    let x = e.index;
    let y = e.worktree;
    match kind {
        StatusKind::Staged => changed(x) && y != 'D' && present,
        StatusKind::Unstaged => changed(y) && present,
        StatusKind::Untracked => y == '?' && present,
        StatusKind::Modified => (changed(x) || changed(y)) && present,
        StatusKind::StagedAdded => x == 'A',
        StatusKind::StagedModified => x == 'M' || x == 'T',
        StatusKind::StagedDeleted => x == 'D',
        StatusKind::StagedRenamed => x == 'R',
        StatusKind::StagedCopied => x == 'C',
        StatusKind::UnstagedModified => y == 'M' || y == 'T',
        StatusKind::UnstagedDeleted => y == 'D',
        StatusKind::UnstagedRenamed => y == 'R',
    }
}

/// Collects the files of a kind.
fn select(kind: StatusKind, list: &Vec<StatusEntry>, presence: &Vec<Presence>) -> (r: PathSet)
    ensures
        r.wf(),
        r@ == collected(selected(kind, changes(list@), presence@)),
{
    let ghost all = changes(list@);
    let mut out: Vec<RepoPath> = Vec::new();
    let mut i: usize = 0;
    proof {
        assert(raw_paths(out@) == selected(kind, all.take(0), presence@));
    }
    while i < list.len()
        invariant
            i <= list.len(),
            all == changes(list@),
            raw_paths(out@) == selected(kind, all.take(i as int), presence@),
        decreases list.len() - i,
    {
        let ghost was = out@;
        proof {
            assert(all.take(i + 1).drop_last() == all.take(i as int));
            assert(all.take(i + 1).last() == list@[i as int]@);
        }
        if entry_belongs(kind, &list[i], is_present_at(presence, i)) {
            out.push(list[i].path.copy());
            proof {
                assert(raw_paths(out@) == raw_paths(was).push(list@[i as int].path@));
            }
        }
        i += 1;
    }
    proof {
        assert(all.take(all.len() as int) == all);
    }
    PathSet::collect(&out)
}

/// The status that porcelain lines give.
pub open spec fn is_porcelain_status(
    status: GitStatus,
    list: Seq<Change>,
    presence: Seq<Presence>,
) -> bool {
    forall|kind: StatusKind| #[trigger]
        status.files(kind) == collected(selected(kind, list, presence))
}

/// Sorts porcelain lines into the kinds of files they speak of.
pub fn classify(list: &Vec<StatusEntry>, presence: &Vec<Presence>) -> (r: GitStatus)
    ensures
        r.wf(),
        is_porcelain_status(r, changes(list@), presence@),
{
    GitStatus {
        unstaged_files: select(StatusKind::Unstaged, list, presence),
        staged_files: select(StatusKind::Staged, list, presence),
        untracked_files: select(StatusKind::Untracked, list, presence),
        modified_files: select(StatusKind::Modified, list, presence),
        staged_added_files: select(StatusKind::StagedAdded, list, presence),
        staged_modified_files: select(StatusKind::StagedModified, list, presence),
        staged_deleted_files: select(StatusKind::StagedDeleted, list, presence),
        staged_renamed_files: select(StatusKind::StagedRenamed, list, presence),
        staged_copied_files: select(StatusKind::StagedCopied, list, presence),
        unstaged_modified_files: select(StatusKind::UnstagedModified, list, presence),
        unstaged_deleted_files: select(StatusKind::UnstagedDeleted, list, presence),
        unstaged_renamed_files: select(StatusKind::UnstagedRenamed, list, presence),
    }
}

/// Whether a kind is read from libgit2's list of the work tree; the others are
/// read from its list of the index.
pub open spec fn from_workdir(kind: StatusKind) -> bool {
    match kind {
        StatusKind::Unstaged => true,
        StatusKind::Untracked => true,
        StatusKind::Modified => true,
        StatusKind::UnstagedModified => true,
        StatusKind::UnstagedDeleted => true,
        StatusKind::UnstagedRenamed => true,
        _ => false,
    }
}

/// Whether a file belongs to a kind, by its libgit2 status and whether it is
/// present. libgit2 does not tell copies.
pub open spec fn lib_belongs(kind: StatusKind, bits: u32, present: bool) -> bool {
    match kind {
        StatusKind::Staged => present,
        StatusKind::StagedAdded => bits & INDEX_NEW != 0,
        StatusKind::StagedModified => bits & INDEX_MODIFIED != 0 || bits & INDEX_TYPECHANGE != 0,
        StatusKind::StagedDeleted => bits & INDEX_DELETED != 0,
        StatusKind::StagedRenamed => bits & INDEX_RENAMED != 0,
        StatusKind::StagedCopied => false,
        StatusKind::Unstaged => present && bits != WT_NEW,
        StatusKind::Untracked => bits == WT_NEW,
        StatusKind::Modified => bits == WT_MODIFIED || bits == WT_TYPECHANGE,
        StatusKind::UnstagedModified => bits == WT_MODIFIED || bits == WT_TYPECHANGE,
        StatusKind::UnstagedDeleted => bits == WT_DELETED,
        StatusKind::UnstagedRenamed => bits == WT_RENAMED,
    }
}

/// The path of a libgit2 entry; one that is no text counts as empty.
pub open spec fn lib_path(e: LibEntry) -> Seq<u8> {
    match e.path {
        Some(p) => encode_utf8(p@),
        None => Seq::empty(),
    }
}

/// The paths of the libgit2 entries that belong to a kind, where the presence
/// of the first entry is told at `from`. Entries whose path is no text are
/// left out.
pub open spec fn lib_selected(
    kind: StatusKind,
    list: Seq<LibEntry>,
    presence: Seq<Presence>,
    from: int,
) -> Seq<Seq<u8>>
    decreases list.len(),
{
    if list.len() == 0 {
        Seq::empty()
    } else {
        let before = lib_selected(kind, list.drop_last(), presence, from);
        let e = list.last();
        if e.path is Some && lib_belongs(
            kind,
            e.bits,
            present_at(presence, from + list.len() - 1),
        ) {
            before.push(lib_path(e))
        } else {
            before
        }
    }
}

/// Tells whether a file belongs to a kind, by its libgit2 status.
fn lib_entry_belongs(kind: StatusKind, bits: u32, present: bool) -> (r: bool)
    ensures
        r == lib_belongs(kind, bits, present),
{
    match kind {
        StatusKind::Staged => present,
        StatusKind::StagedAdded => is_index_new(bits),
        StatusKind::StagedModified => is_index_modified(bits) || is_index_typechange(bits),
        StatusKind::StagedDeleted => is_index_deleted(bits),
        StatusKind::StagedRenamed => is_index_renamed(bits),
        StatusKind::StagedCopied => false,
        StatusKind::Unstaged => present && bits != WT_NEW,
        StatusKind::Untracked => bits == WT_NEW,
        StatusKind::Modified => bits == WT_MODIFIED || bits == WT_TYPECHANGE,
        StatusKind::UnstagedModified => bits == WT_MODIFIED || bits == WT_TYPECHANGE,
        StatusKind::UnstagedDeleted => bits == WT_DELETED,
        StatusKind::UnstagedRenamed => bits == WT_RENAMED,
    }
}

/// Collects the files of a kind from libgit2 entries.
fn lib_select(
    kind: StatusKind,
    list: &Vec<LibEntry>,
    presence: &Vec<Presence>,
    from: usize,
) -> (r: PathSet)
    ensures
        r.wf(),
        r@ == collected(lib_selected(kind, list@, presence@, from as int)),
{
    let mut out: Vec<RepoPath> = Vec::new();
    let mut i: usize = 0;
    proof {
        assert(raw_paths(out@) == lib_selected(kind, list@.take(0), presence@, from as int));
    }
    while i < list.len()
        invariant
            i <= list.len(),
            raw_paths(out@) == lib_selected(
                kind,
                list@.take(i as int),
                presence@,
                from as int,
            ),
        decreases list.len() - i,
    {
        let ghost was = out@;
        proof {
            assert(list@.take(i + 1).drop_last() == list@.take(i as int));
            assert(list@.take(i + 1).last() == list@[i as int]);
        }
        let present = from <= presence.len() && i < presence.len() - from && is_present_at(
            presence,
            from + i,
        );
        if let Some(p) = &list[i].path {
            if lib_entry_belongs(kind, list[i].bits, present) {
                let path = RepoPath::from_text(p.as_str());
                let ghost raw = path@;
                out.push(path);
                proof {
                    assert(raw_paths(out@) == raw_paths(was).push(raw));
                }
            }
        }
        i += 1;
    }
    proof {
        assert(list@.take(list@.len() as int) == list@);
    }
    PathSet::collect(&out)
}

/// The status that the two libgit2 lists give. The presence of the staged
/// entries is told first, then that of the others.
pub open spec fn is_lib_status(
    status: GitStatus,
    staged: Seq<LibEntry>,
    workdir: Seq<LibEntry>,
    presence: Seq<Presence>,
) -> bool {
    forall|kind: StatusKind| #[trigger]
        status.files(kind) == collected(
            if from_workdir(kind) {
                lib_selected(kind, workdir, presence, staged.len() as int)
            } else {
                lib_selected(kind, staged, presence, 0)
            },
        )
}

/// Sorts libgit2's two status lists into kinds of files.
pub fn classify_lib(
    staged: &Vec<LibEntry>,
    workdir: &Vec<LibEntry>,
    presence: &Vec<Presence>,
) -> (r: GitStatus)
    ensures
        r.wf(),
        is_lib_status(r, staged@, workdir@, presence@),
{
    let n: usize = staged.len();
    GitStatus {
        unstaged_files: lib_select(StatusKind::Unstaged, workdir, presence, n),
        staged_files: lib_select(StatusKind::Staged, staged, presence, 0),
        untracked_files: lib_select(StatusKind::Untracked, workdir, presence, n),
        modified_files: lib_select(StatusKind::Modified, workdir, presence, n),
        staged_added_files: lib_select(StatusKind::StagedAdded, staged, presence, 0),
        staged_modified_files: lib_select(StatusKind::StagedModified, staged, presence, 0),
        staged_deleted_files: lib_select(StatusKind::StagedDeleted, staged, presence, 0),
        staged_renamed_files: lib_select(StatusKind::StagedRenamed, staged, presence, 0),
        staged_copied_files: lib_select(StatusKind::StagedCopied, staged, presence, 0),
        unstaged_modified_files: lib_select(StatusKind::UnstagedModified, workdir, presence, n),
        unstaged_deleted_files: lib_select(StatusKind::UnstagedDeleted, workdir, presence, n),
        unstaged_renamed_files: lib_select(StatusKind::UnstagedRenamed, workdir, presence, n),
    }
}

/// Where the reading of the status stands.
#[derive(Debug)]
pub enum StatusPhase {
    /// Waits for the index to be refreshed.
    Refresh,
    /// Waits for the porcelain lines.
    Porcelain,
    /// Waits for what lies at the paths of these lines.
    PorcelainProbe(Vec<StatusEntry>),
    /// Waits for libgit2's list of the index.
    LibStaged,
    /// Waits for libgit2's list of the work tree; has that of the index.
    LibWorkdir(Vec<LibEntry>),
    /// Waits for what lies at the paths of both lists.
    LibProbe(Vec<LibEntry>, Vec<LibEntry>),
}

/// The reading of the status.
#[derive(Debug)]
pub struct StatusOp {
    /// Whether libgit2 is used.
    pub libgit2: bool,
    /// Whether untracked files are looked for.
    pub untracked: bool,
    /// The paths to report on, where not on all.
    pub pathspec: Option<Vec<RepoPath>>,
    /// What is being waited for.
    pub phase: StatusPhase,
}

/// How the reading of the status goes on.
pub type StatusProgress = Progress<StatusOp, Result<GitStatus, GitError>>;

/// The paths of some porcelain lines.
pub open spec fn change_paths(list: Seq<Change>) -> Seq<Seq<u8>> {
    Seq::new(list.len(), |i: int| list[i].path)
}

/// The paths of some libgit2 entries.
pub open spec fn lib_paths(list: Seq<LibEntry>) -> Seq<Seq<u8>> {
    Seq::new(list.len(), |i: int| lib_path(list[i]))
}

impl StatusOp {
    /// What does not change while the status is read.
    pub open spec fn keeps(&self, pre: StatusOp) -> bool {
        self.libgit2 == pre.libgit2 && self.untracked == pre.untracked && self.pathspec
            == pre.pathspec
    }

    /// The paths to report on; none where it is on all.
    pub open spec fn reported(&self) -> Seq<Seq<u8>> {
        match self.pathspec {
            Some(list) => raw_paths(list@),
            None => Seq::empty(),
        }
    }

    /// That libgit2 is asked for one of its lists.
    pub open spec fn queries(&self, q: StatusQuery, workdir: bool) -> bool {
        &&& q.workdir == workdir
        &&& q.include_untracked == self.untracked
        &&& q.recurse_untracked_dirs == self.untracked
        &&& q.renames_head_to_index
        &&& raw_paths(q.pathspec@) == self.reported()
    }

    /// How the reading of the status goes on when it is told `reply`.
    pub open spec fn follows(pre: StatusOp, reply: Reply, r: StatusProgress) -> bool {
        match pre.phase {
            StatusPhase::Refresh => if pre.libgit2 {
                &&& r matches Progress::Ask(Action::LibGitStatuses(q), post)
                &&& post.keeps(pre) && post.phase is LibStaged
                &&& pre.queries(q, false)
            } else {
                let untracked = if pre.untracked {
                    "--untracked-files=all"@
                } else {
                    "--untracked-files=no"@
                };
                &&& r matches Progress::Ask(Action::ReadGit(c), post)
                &&& post.keeps(pre) && post.phase is Porcelain
                &&& c.is(
                    if pre.pathspec is Some {
                        seq!["status"@, "--porcelain"@, untracked, "-z"@, "--"@]
                    } else {
                        seq!["status"@, "--porcelain"@, untracked, "-z"@]
                    },
                    pre.reported(),
                )
            },
            StatusPhase::Porcelain => match reply.text() {
                None => r matches Progress::Done(Err(GitError::Command)),
                Some(output) => {
                    &&& r matches Progress::Ask(Action::Probe(paths), post)
                    &&& post.keeps(pre)
                    &&& post.phase matches StatusPhase::PorcelainProbe(list)
                    &&& changes(list@) == porcelain(output)
                    &&& raw_paths(paths@) == change_paths(porcelain(output))
                },
            },
            StatusPhase::PorcelainProbe(list) => {
                &&& r matches Progress::Done(Ok(status))
                &&& status.wf()
                &&& is_porcelain_status(status, changes(list@), found(reply))
            },
            StatusPhase::LibStaged => match reply {
                Reply::Statuses(Some(staged)) => {
                    &&& r matches Progress::Ask(Action::LibGitStatuses(q), post)
                    &&& post.keeps(pre)
                    &&& post.phase == StatusPhase::LibWorkdir(staged)
                    &&& pre.queries(q, true)
                },
                _ => r matches Progress::Done(Err(GitError::Status)),
            },
            StatusPhase::LibWorkdir(staged) => match reply {
                Reply::Statuses(Some(workdir)) => {
                    &&& r matches Progress::Ask(Action::Probe(paths), post)
                    &&& post.keeps(pre)
                    &&& post.phase == StatusPhase::LibProbe(staged, workdir)
                    &&& raw_paths(paths@) == lib_paths(staged@) + lib_paths(workdir@)
                },
                _ => r matches Progress::Done(Err(GitError::Status)),
            },
            StatusPhase::LibProbe(staged, workdir) => {
                &&& r matches Progress::Done(Ok(status))
                &&& status.wf()
                &&& is_lib_status(status, staged@, workdir@, found(reply))
            },
        }
    }

    /// The paths to report on.
    fn copy_reported(pathspec: &Option<Vec<RepoPath>>) -> (r: Vec<RepoPath>)
        ensures
            raw_paths(r@) == (match *pathspec {
                Some(list) => raw_paths(list@),
                None => Seq::empty(),
            }),
    {
        match pathspec {
            Some(list) => copy_paths(list),
            None => {
                let r: Vec<RepoPath> = Vec::new();
                proof {
                    assert(raw_paths(r@) == Seq::<Seq<u8>>::empty());
                }
                r
            },
        }
    }

    /// The question for one of libgit2's lists.
    fn query(untracked: bool, pathspec: &Option<Vec<RepoPath>>, workdir: bool) -> (r: StatusQuery)
        ensures
            r.workdir == workdir,
            r.include_untracked == untracked,
            r.recurse_untracked_dirs == untracked,
            r.renames_head_to_index,
            raw_paths(r.pathspec@) == (match *pathspec {
                Some(list) => raw_paths(list@),
                None => Seq::empty(),
            }),
    {
        StatusQuery {
            workdir,
            include_untracked: untracked,
            recurse_untracked_dirs: untracked,
            renames_head_to_index: true,
            pathspec: StatusOp::copy_reported(pathspec),
        }
    }

    /// Goes on when the outcome of the action is known.
    pub fn resume(self, reply: Reply) -> (r: StatusProgress)
        ensures
            StatusOp::follows(self, reply, r),
    {
        let StatusOp { libgit2, untracked, pathspec, phase } = self;
        match phase {
            StatusPhase::Refresh => {
                if libgit2 {
                    let q = StatusOp::query(untracked, &pathspec, false);
                    Progress::Ask(
                        Action::LibGitStatuses(q),
                        StatusOp { libgit2, untracked, pathspec, phase: StatusPhase::LibStaged },
                    )
                } else {
                    let flag = if untracked {
                        "--untracked-files=all"
                    } else {
                        "--untracked-files=no"
                    };
                    let c = Command::of(&["status", "--porcelain", flag, "-z"]).with_if(
                        pathspec.is_some(),
                        "--",
                    ).with_paths(StatusOp::copy_reported(&pathspec));
                    Progress::Ask(
                        Action::ReadGit(c),
                        StatusOp { libgit2, untracked, pathspec, phase: StatusPhase::Porcelain },
                    )
                }
            },
            StatusPhase::Porcelain => match reply.into_text() {
                None => Progress::Done(Err(GitError::Command)),
                Some(output) => {
                    let list = parse_porcelain(output.as_str());
                    let mut paths: Vec<RepoPath> = Vec::new();
                    let mut i: usize = 0;
                    while i < list.len()
                        invariant
                            i <= list.len(),
                            paths.len() == i,
                            forall|k: int| 0 <= k < i ==> (#[trigger] paths@[k])@ == list@[k].path@,
                        decreases list.len() - i,
                    {
                        paths.push(list[i].path.copy());
                        i += 1;
                    }
                    proof {
                        assert(raw_paths(paths@) == change_paths(changes(list@)));
                    }
                    Progress::Ask(
                        Action::Probe(paths),
                        StatusOp {
                            libgit2,
                            untracked,
                            pathspec,
                            phase: StatusPhase::PorcelainProbe(list),
                        },
                    )
                },
            },
            StatusPhase::PorcelainProbe(list) => {
                let presence = into_found(reply);
                Progress::Done(Ok(classify(&list, &presence)))
            },
            StatusPhase::LibStaged => match reply {
                Reply::Statuses(Some(staged)) => {
                    let q = StatusOp::query(untracked, &pathspec, true);
                    Progress::Ask(
                        Action::LibGitStatuses(q),
                        StatusOp {
                            libgit2,
                            untracked,
                            pathspec,
                            phase: StatusPhase::LibWorkdir(staged),
                        },
                    )
                },
                _ => Progress::Done(Err(GitError::Status)),
            },
            StatusPhase::LibWorkdir(staged) => match reply {
                Reply::Statuses(Some(workdir)) => {
                    let mut paths: Vec<RepoPath> = Vec::new();
                    add_lib_paths(&mut paths, &staged);
                    add_lib_paths(&mut paths, &workdir);
                    proof {
                        assert(raw_paths(paths@) == lib_paths(staged@) + lib_paths(workdir@));
                    }
                    Progress::Ask(
                        Action::Probe(paths),
                        StatusOp {
                            libgit2,
                            untracked,
                            pathspec,
                            phase: StatusPhase::LibProbe(staged, workdir),
                        },
                    )
                },
                _ => Progress::Done(Err(GitError::Status)),
            },
            StatusPhase::LibProbe(staged, workdir) => {
                let presence = into_found(reply);
                Progress::Done(Ok(classify_lib(&staged, &workdir, &presence)))
            },
        }
    }
}

/// Appends the paths of some libgit2 entries.
fn add_lib_paths(paths: &mut Vec<RepoPath>, list: &Vec<LibEntry>)
    ensures
        raw_paths(final(paths)@) == raw_paths(old(paths)@) + lib_paths(list@),
{
    let ghost start = raw_paths(paths@);
    let mut i: usize = 0;
    proof {
        assert(start + lib_paths(list@).take(0) == start);
    }
    while i < list.len()
        invariant
            i <= list.len(),
            raw_paths(paths@) == start + lib_paths(list@).take(i as int),
        decreases list.len() - i,
    {
        let ghost was = paths@;
        let path = match &list[i].path {
            Some(p) => RepoPath::from_text(p.as_str()),
            None => RepoPath { raw: Vec::new() },
        };
        let ghost raw = path@;
        proof {
            assert(raw == lib_path(list@[i as int]));
        }
        paths.push(path);
        i += 1;
        proof {
            assert(raw_paths(paths@) == raw_paths(was).push(raw));
            assert(lib_paths(list@).take(i as int) == lib_paths(list@).take(i - 1).push(raw));
        }
    }
    proof {
        assert(lib_paths(list@).take(list@.len() as int) == lib_paths(list@));
    }
}

impl Git {
    /// Starts to read the status, of the given paths or of all.
    pub fn status(&self, pathspec: Option<Vec<RepoPath>>) -> (r: StatusProgress)
        ensures
            r matches Progress::Ask(Action::RunGit(c), op) && {
                &&& c.says(seq!["update-index"@, "-q"@, "--refresh"@])
                &&& op == StatusOp {
                    libgit2: self.libgit2,
                    untracked: self.stash_untracked,
                    pathspec,
                    phase: StatusPhase::Refresh,
                }
            },
    {
        let c = Command::of(&["update-index", "-q", "--refresh"]);
        Progress::Ask(
            Action::RunGit(c),
            StatusOp {
                libgit2: self.libgit2,
                untracked: self.stash_untracked,
                pathspec,
                phase: StatusPhase::Refresh,
            },
        )
    }
}

/// How many answers the reading of the status still waits for.
pub open spec fn status_steps(op: StatusOp) -> nat {
    match op.phase {
        StatusPhase::Refresh => 4,
        StatusPhase::LibStaged => 3,
        StatusPhase::LibWorkdir(_) => 2,
        StatusPhase::LibProbe(_, _) => 1,
        StatusPhase::Porcelain => 2,
        StatusPhase::PorcelainProbe(_) => 1,
    }
}

/// The reading of the status ends, whatever it is told.
pub proof fn law_reading_the_status_ends(pre: StatusOp, reply: Reply, r: StatusProgress)
    requires
        StatusOp::follows(pre, reply, r),
    ensures
        r matches Progress::Ask(_, post) ==> status_steps(post) < status_steps(pre),
{
}

/// A line stages a file in one way only.
pub proof fn law_a_file_is_staged_in_one_way(a: StatusKind, b: StatusKind, c: Change, present: bool)
    requires
        a is StagedAdded || a is StagedModified || a is StagedDeleted || a is StagedRenamed
            || a is StagedCopied,
        b is StagedAdded || b is StagedModified || b is StagedDeleted || b is StagedRenamed
            || b is StagedCopied,
        belongs(a, c, present),
        belongs(b, c, present),
    ensures
        a == b,
{
}

proof fn lemma_selected_within(
    a: StatusKind,
    b: StatusKind,
    list: Seq<Change>,
    presence: Seq<Presence>,
    p: Seq<u8>,
)
    requires
        forall|c: Change, present: bool| belongs(a, c, present) ==> #[trigger] belongs(b, c, present),
        names_path(selected(a, list, presence), p),
    ensures
        names_path(selected(b, list, presence), p),
    decreases list.len(),
{
    if list.len() > 0 {
        let rest = list.drop_last();
        let x = selected(a, list, presence);
        let y = selected(b, list, presence);
        let xs = selected(a, rest, presence);
        let ys = selected(b, rest, presence);
        let i = choose|i: int| 0 <= i < x.len() && same_path(#[trigger] x[i], p);
        if i < xs.len() {
            assert(same_path(xs[i], p));
            lemma_selected_within(a, b, rest, presence, p);
            let j = choose|j: int| 0 <= j < ys.len() && same_path(#[trigger] ys[j], p);
            assert(same_path(y[j], p));
        } else {
            let present = present_at(presence, list.len() - 1);
            assert(belongs(a, list.last(), present));
            assert(belongs(b, list.last(), present));
            assert(y[ys.len() as int] == list.last().path);
            assert(same_path(y[ys.len() as int], p));
        }
    }
}

/// Every file with staged changes, and every file with unstaged ones, counts
/// as modified.
pub proof fn law_staged_and_unstaged_files_are_modified(
    status: GitStatus,
    list: Seq<Change>,
    presence: Seq<Presence>,
    p: Seq<u8>,
)
    requires
        is_porcelain_status(status, list, presence),
        names_path(status.files(StatusKind::Staged), p) || names_path(
            status.files(StatusKind::Unstaged),
            p,
        ),
    ensures
        names_path(status.files(StatusKind::Modified), p),
{
    let from = if names_path(status.files(StatusKind::Staged), p) {
        StatusKind::Staged
    } else {
        StatusKind::Unstaged
    };
    crate::paths::law_collected_names(selected(from, list, presence), p);
    lemma_selected_within(from, StatusKind::Modified, list, presence, p);
    crate::paths::law_collected_names(selected(StatusKind::Modified, list, presence), p);
}

proof fn lemma_selected_present(
    kind: StatusKind,
    list: Seq<Change>,
    presence: Seq<Presence>,
    p: Seq<u8>,
)
    requires
        kind is Staged || kind is Unstaged || kind is Untracked || kind is Modified,
        names_path(selected(kind, list, presence), p),
    ensures
        exists|i: int|
            0 <= i < list.len() && present_at(presence, i) && same_path(
                (#[trigger] list[i]).path,
                p,
            ),
    decreases list.len(),
{
    if list.len() > 0 {
        let rest = list.drop_last();
        let x = selected(kind, list, presence);
        let xs = selected(kind, rest, presence);
        let i = choose|i: int| 0 <= i < x.len() && same_path(#[trigger] x[i], p);
        if i < xs.len() {
            assert(same_path(xs[i], p));
            lemma_selected_present(kind, rest, presence, p);
            let j = choose|j: int|
                0 <= j < rest.len() && present_at(presence, j) && same_path(
                    (#[trigger] rest[j]).path,
                    p,
                );
            assert(list[j] == rest[j]);
        } else {
            assert(list[list.len() - 1] == list.last());
        }
    }
}

/// A file that a hook would run on is there: what counts as staged, unstaged,
/// untracked or modified has a line whose path was found present.
pub proof fn law_listed_files_are_present(
    status: GitStatus,
    kind: StatusKind,
    list: Seq<Change>,
    presence: Seq<Presence>,
    p: Seq<u8>,
)
    requires
        is_porcelain_status(status, list, presence),
        kind is Staged || kind is Unstaged || kind is Untracked || kind is Modified,
        names_path(status.files(kind), p),
    ensures
        exists|i: int|
            0 <= i < list.len() && present_at(presence, i) && same_path(
                (#[trigger] list[i]).path,
                p,
            ),
{
    crate::paths::law_collected_names(selected(kind, list, presence), p);
    lemma_selected_present(kind, list, presence, p);
}

proof fn lemma_lib_selected_present(
    kind: StatusKind,
    list: Seq<LibEntry>,
    presence: Seq<Presence>,
    from: int,
    p: Seq<u8>,
)
    requires
        kind is Staged || kind is Unstaged,
        names_path(lib_selected(kind, list, presence, from), p),
    ensures
        exists|i: int|
            0 <= i < list.len() && present_at(presence, from + i) && same_path(
                lib_path(#[trigger] list[i]),
                p,
            ),
    decreases list.len(),
{
    if list.len() > 0 {
        let rest = list.drop_last();
        let x = lib_selected(kind, list, presence, from);
        let xs = lib_selected(kind, rest, presence, from);
        let i = choose|i: int| 0 <= i < x.len() && same_path(#[trigger] x[i], p);
        if i < xs.len() {
            assert(same_path(xs[i], p));
            lemma_lib_selected_present(kind, rest, presence, from, p);
            let j = choose|j: int|
                0 <= j < rest.len() && present_at(presence, from + j) && same_path(
                    lib_path(#[trigger] rest[j]),
                    p,
                );
            assert(list[j] == rest[j]);
        } else {
            assert(list[list.len() - 1] == list.last());
        }
    }
}

/// What counts as staged or unstaged by libgit2's lists is there: it has an
/// entry whose path was found present.
pub proof fn law_files_that_libgit2_lists_are_present(
    status: GitStatus,
    kind: StatusKind,
    staged: Seq<LibEntry>,
    workdir: Seq<LibEntry>,
    presence: Seq<Presence>,
    p: Seq<u8>,
)
    requires
        is_lib_status(status, staged, workdir, presence),
        kind is Staged || kind is Unstaged,
        names_path(status.files(kind), p),
    ensures
        kind is Staged ==> exists|i: int|
            0 <= i < staged.len() && present_at(presence, i) && same_path(
                lib_path(#[trigger] staged[i]),
                p,
            ),
        kind is Unstaged ==> exists|i: int|
            0 <= i < workdir.len() && present_at(presence, staged.len() + i) && same_path(
                lib_path(#[trigger] workdir[i]),
                p,
            ),
{
    if kind is Staged {
        crate::paths::law_collected_names(lib_selected(kind, staged, presence, 0), p);
        lemma_lib_selected_present(kind, staged, presence, 0, p);
        let i = choose|i: int|
            0 <= i < staged.len() && present_at(presence, 0 + i) && same_path(
                lib_path(#[trigger] staged[i]),
                p,
            );
        assert(present_at(presence, i));
    } else {
        let from = staged.len() as int;
        crate::paths::law_collected_names(lib_selected(kind, workdir, presence, from), p);
        lemma_lib_selected_present(kind, workdir, presence, from, p);
    }
}

/// Whether a line of a list speaks of a path and passes a test, which is told
/// the state in the index, the state in the work tree, and whether there is
/// anything at the path.
pub open spec fn line_says(
    list: Seq<StatusEntry>,
    at: Seq<Presence>,
    p: Seq<u8>,
    test: spec_fn(char, char, bool) -> bool,
) -> bool {
    exists|i: int|
        0 <= i < list.len() && same_path((#[trigger] list[i]).path.raw@, p) && test(
            list[i].index,
            list[i].worktree,
            i < at.len() && (at[i].target || at[i].entry),
        )
}

proof fn lemma_selected_names(
    kind: StatusKind,
    list: Seq<Change>,
    presence: Seq<Presence>,
    p: Seq<u8>,
)
    ensures
        names_path(collected(selected(kind, list, presence)), p) <==> exists|i: int|
            0 <= i < list.len() && same_path((#[trigger] list[i]).path, p) && belongs(
                kind,
                list[i],
                present_at(presence, i),
            ),
    decreases list.len(),
{
    let x = selected(kind, list, presence);
    crate::paths::law_collected_names(x, p);
    if list.len() > 0 {
        let rest = list.drop_last();
        let xs = selected(kind, rest, presence);
        let n = list.len() - 1;
        lemma_selected_names(kind, rest, presence, p);
        crate::paths::law_collected_names(xs, p);
        if names_path(x, p) {
            let i = choose|i: int| 0 <= i < x.len() && same_path(#[trigger] x[i], p);
            if i < xs.len() {
                assert(same_path(xs[i], p));
                assert(names_path(xs, p));
                let k = choose|k: int|
                    0 <= k < rest.len() && same_path((#[trigger] rest[k]).path, p) && belongs(
                        kind,
                        rest[k],
                        present_at(presence, k),
                    );
                assert(list[k] == rest[k]);
            } else {
                assert(list[n] == list.last());
            }
        }
        if exists|i: int|
            0 <= i < list.len() && same_path((#[trigger] list[i]).path, p) && belongs(
                kind,
                list[i],
                present_at(presence, i),
            ) {
            let k = choose|i: int|
                0 <= i < list.len() && same_path((#[trigger] list[i]).path, p) && belongs(
                    kind,
                    list[i],
                    present_at(presence, i),
                );
            if k < n {
                assert(rest[k] == list[k]);
                assert(names_path(xs, p));
                let i = choose|i: int| 0 <= i < xs.len() && same_path(#[trigger] xs[i], p);
                assert(x[i] == xs[i]);
                assert(same_path(x[i], p));
            } else {
                assert(x[xs.len() as int] == list[k].path);
                assert(same_path(x[xs.len() as int], p));
            }
        }
    }
}

proof fn lemma_kind_names(
    kind: StatusKind,
    list: Seq<StatusEntry>,
    presence: Seq<Presence>,
    p: Seq<u8>,
    test: spec_fn(char, char, bool) -> bool,
)
    requires
        forall|c: Change, present: bool| #[trigger]
            belongs(kind, c, present) == test(c.index, c.worktree, present),
    ensures
        names_path(collected(selected(kind, changes(list), presence)), p) <==> line_says(
            list,
            presence,
            p,
            test,
        ),
{
    let all = changes(list);
    lemma_selected_names(kind, all, presence, p);
    if line_says(list, presence, p, test) {
        let i = choose|i: int|
            0 <= i < list.len() && same_path((#[trigger] list[i]).path.raw@, p) && test(
                list[i].index,
                list[i].worktree,
                i < presence.len() && (presence[i].target || presence[i].entry),
            );
        assert(all[i] == list[i]@);
        assert(belongs(kind, all[i], present_at(presence, i)));
    }
    if exists|i: int|
        0 <= i < all.len() && same_path((#[trigger] all[i]).path, p) && belongs(
            kind,
            all[i],
            present_at(presence, i),
        ) {
        let i = choose|i: int|
            0 <= i < all.len() && same_path((#[trigger] all[i]).path, p) && belongs(
                kind,
                all[i],
                present_at(presence, i),
            );
        assert(all[i] == list[i]@);
        assert(same_path(list[i].path.raw@, p));
    }
}

/// A file is staged exactly if a line tells of a change in the index, whatever
/// the work tree adds to it short of deleting the file, and the file is there;
/// it is unstaged if a line tells of a change in the work tree and it is there.
/// An untracked file has a line of its own, and a modified one has a change on
/// either side.
pub proof fn law_lines_tell_which_files_a_hook_runs_on(
    pre: StatusOp,
    found_there: Vec<Presence>,
    r: StatusProgress,
    p: Seq<u8>,
)
    requires
        pre.phase is PorcelainProbe,
        StatusOp::follows(pre, Reply::Presence(found_there), r),
    ensures
        r matches Progress::Done(Ok(status)) && {
            let list = pre.phase->PorcelainProbe_0@;
            let at = found_there@;
            &&& names_path(status.staged_files@, p) <==> line_says(
                list,
                at,
                p,
                |x: char, y: char, there: bool|
                    (x == 'M' || x == 'T' || x == 'A' || x == 'R' || x == 'C') && y != 'D' && there,
            )
            &&& names_path(status.unstaged_files@, p) <==> line_says(
                list,
                at,
                p,
                |x: char, y: char, there: bool|
                    (y == 'M' || y == 'T' || y == 'A' || y == 'R' || y == 'C') && there,
            )
            &&& names_path(status.untracked_files@, p) <==> line_says(
                list,
                at,
                p,
                |x: char, y: char, there: bool| y == '?' && there,
            )
            &&& names_path(status.modified_files@, p) <==> line_says(
                list,
                at,
                p,
                |x: char, y: char, there: bool|
                    ((x == 'M' || x == 'T' || x == 'A' || x == 'R' || x == 'C')
                        || (y == 'M' || y == 'T' || y == 'A' || y == 'R' || y == 'C')) && there,
            )
        },
{
    let list = pre.phase->PorcelainProbe_0@;
    let at = found_there@;
    if let Progress::Done(Ok(status)) = r {
        assert(status.files(StatusKind::Staged) == collected(
            selected(StatusKind::Staged, changes(list), at),
        ));
        assert(status.files(StatusKind::Unstaged) == collected(
            selected(StatusKind::Unstaged, changes(list), at),
        ));
        assert(status.files(StatusKind::Untracked) == collected(
            selected(StatusKind::Untracked, changes(list), at),
        ));
        assert(status.files(StatusKind::Modified) == collected(
            selected(StatusKind::Modified, changes(list), at),
        ));
    }
    lemma_kind_names(
        StatusKind::Staged,
        list,
        at,
        p,
        |x: char, y: char, there: bool|
            (x == 'M' || x == 'T' || x == 'A' || x == 'R' || x == 'C') && y != 'D' && there,
    );
    lemma_kind_names(
        StatusKind::Unstaged,
        list,
        at,
        p,
        |x: char, y: char, there: bool|
            (y == 'M' || y == 'T' || y == 'A' || y == 'R' || y == 'C') && there,
    );
    lemma_kind_names(
        StatusKind::Untracked,
        list,
        at,
        p,
        |x: char, y: char, there: bool| y == '?' && there,
    );
    lemma_kind_names(
        StatusKind::Modified,
        list,
        at,
        p,
        |x: char, y: char, there: bool|
            ((x == 'M' || x == 'T' || x == 'A' || x == 'R' || x == 'C')
                || (y == 'M' || y == 'T' || y == 'A' || y == 'R' || y == 'C')) && there,
    );
}

/// The kinds of staged and unstaged changes go by one state each, whether the
/// file is still there or not.
pub proof fn law_lines_tell_what_changed_about_files(
    pre: StatusOp,
    found_there: Vec<Presence>,
    r: StatusProgress,
    p: Seq<u8>,
)
    requires
        pre.phase is PorcelainProbe,
        StatusOp::follows(pre, Reply::Presence(found_there), r),
    ensures
        r matches Progress::Done(Ok(status)) && {
            let list = pre.phase->PorcelainProbe_0@;
            let at = found_there@;
            &&& names_path(status.staged_added_files@, p) <==> line_says(
                list,
                at,
                p,
                |x: char, y: char, there: bool| x == 'A',
            )
            &&& names_path(status.staged_modified_files@, p) <==> line_says(
                list,
                at,
                p,
                |x: char, y: char, there: bool| x == 'M' || x == 'T',
            )
            &&& names_path(status.staged_deleted_files@, p) <==> line_says(
                list,
                at,
                p,
                |x: char, y: char, there: bool| x == 'D',
            )
            &&& names_path(status.staged_renamed_files@, p) <==> line_says(
                list,
                at,
                p,
                |x: char, y: char, there: bool| x == 'R',
            )
            &&& names_path(status.staged_copied_files@, p) <==> line_says(
                list,
                at,
                p,
                |x: char, y: char, there: bool| x == 'C',
            )
            &&& names_path(status.unstaged_modified_files@, p) <==> line_says(
                list,
                at,
                p,
                |x: char, y: char, there: bool| y == 'M' || y == 'T',
            )
            &&& names_path(status.unstaged_deleted_files@, p) <==> line_says(
                list,
                at,
                p,
                |x: char, y: char, there: bool| y == 'D',
            )
            &&& names_path(status.unstaged_renamed_files@, p) <==> line_says(
                list,
                at,
                p,
                |x: char, y: char, there: bool| y == 'R',
            )
        },
{
    let list = pre.phase->PorcelainProbe_0@;
    let at = found_there@;
    if let Progress::Done(Ok(status)) = r {
        assert(forall|kind: StatusKind| #[trigger]
            status.files(kind) == collected(selected(kind, changes(list), at)));
        assert(status.files(StatusKind::StagedAdded) == status.staged_added_files@);
        assert(status.files(StatusKind::StagedModified) == status.staged_modified_files@);
        assert(status.files(StatusKind::StagedDeleted) == status.staged_deleted_files@);
        assert(status.files(StatusKind::StagedRenamed) == status.staged_renamed_files@);
        assert(status.files(StatusKind::StagedCopied) == status.staged_copied_files@);
        assert(status.files(StatusKind::UnstagedModified) == status.unstaged_modified_files@);
        assert(status.files(StatusKind::UnstagedDeleted) == status.unstaged_deleted_files@);
        assert(status.files(StatusKind::UnstagedRenamed) == status.unstaged_renamed_files@);
    }
    lemma_kind_names(
        StatusKind::StagedAdded,
        list,
        at,
        p,
        |x: char, y: char, there: bool| x == 'A',
    );
    lemma_kind_names(
        StatusKind::StagedModified,
        list,
        at,
        p,
        |x: char, y: char, there: bool| x == 'M' || x == 'T',
    );
    lemma_kind_names(
        StatusKind::StagedDeleted,
        list,
        at,
        p,
        |x: char, y: char, there: bool| x == 'D',
    );
    lemma_kind_names(
        StatusKind::StagedRenamed,
        list,
        at,
        p,
        |x: char, y: char, there: bool| x == 'R',
    );
    lemma_kind_names(
        StatusKind::StagedCopied,
        list,
        at,
        p,
        |x: char, y: char, there: bool| x == 'C',
    );
    lemma_kind_names(
        StatusKind::UnstagedModified,
        list,
        at,
        p,
        |x: char, y: char, there: bool| y == 'M' || y == 'T',
    );
    lemma_kind_names(
        StatusKind::UnstagedDeleted,
        list,
        at,
        p,
        |x: char, y: char, there: bool| y == 'D',
    );
    lemma_kind_names(
        StatusKind::UnstagedRenamed,
        list,
        at,
        p,
        |x: char, y: char, there: bool| y == 'R',
    );
}

/// A record of two states, a separator and a path gives just these, and the
/// records of an output give one line each, in order.
pub proof fn law_a_record_gives_its_states_and_path(
    x: char,
    y: char,
    gap: char,
    path: Seq<char>,
    output: Seq<char>,
    i: int,
)
    ensures
        change_of(seq![x, y, gap] + path) == (Change {
            index: x,
            worktree: y,
            path: encode_utf8(path),
        }),
        porcelain(output).len() == records(output).len(),
        0 <= i < records(output).len() ==> porcelain(output)[i] == change_of(records(output)[i]),
{
    let record = seq![x, y, gap] + path;
    assert(record.skip(3) == path);
    if path.len() == 0 {
        assert(path == Seq::<char>::empty());
    }
}

/// Whether an entry of a libgit2 list speaks of a path and passes a test, which
/// is told the bits of the entry and whether there is anything at the path.
/// What lies at the first entry is told at `from`.
pub open spec fn entry_says(
    list: Seq<LibEntry>,
    at: Seq<Presence>,
    from: int,
    p: Seq<u8>,
    test: spec_fn(u32, bool) -> bool,
) -> bool {
    exists|i: int|
        0 <= i < list.len() && (#[trigger] list[i]).path is Some && same_path(
            encode_utf8(list[i].path->0@),
            p,
        ) && test(
            list[i].bits,
            from + i < at.len() && (at[from + i].target || at[from + i].entry),
        )
}

proof fn lemma_lib_kind_names(
    kind: StatusKind,
    list: Seq<LibEntry>,
    presence: Seq<Presence>,
    from: int,
    p: Seq<u8>,
    test: spec_fn(u32, bool) -> bool,
)
    requires
        from >= 0,
        forall|bits: u32, present: bool| #[trigger]
            lib_belongs(kind, bits, present) == test(bits, present),
    ensures
        names_path(collected(lib_selected(kind, list, presence, from)), p) <==> entry_says(
            list,
            presence,
            from,
            p,
            test,
        ),
    decreases list.len(),
{
    let x = lib_selected(kind, list, presence, from);
    crate::paths::law_collected_names(x, p);
    if list.len() > 0 {
        let rest = list.drop_last();
        let xs = lib_selected(kind, rest, presence, from);
        let n = list.len() - 1;
        lemma_lib_kind_names(kind, rest, presence, from, p, test);
        crate::paths::law_collected_names(xs, p);
        assert(list[n] == list.last());
        assert(lib_belongs(kind, list[n].bits, present_at(presence, from + n)) == test(
            list[n].bits,
            present_at(presence, from + n),
        ));
        if names_path(x, p) {
            let i = choose|i: int| 0 <= i < x.len() && same_path(#[trigger] x[i], p);
            if i < xs.len() {
                assert(same_path(xs[i], p));
                assert(names_path(xs, p));
                let k = choose|i: int|
                    0 <= i < rest.len() && (#[trigger] rest[i]).path is Some && same_path(
                        encode_utf8(rest[i].path->0@),
                        p,
                    ) && test(
                        rest[i].bits,
                        from + i < presence.len() && (presence[from + i].target
                            || presence[from + i].entry),
                    );
                assert(list[k] == rest[k]);
            }
        }
        if entry_says(list, presence, from, p, test) {
            let k = choose|i: int|
                0 <= i < list.len() && (#[trigger] list[i]).path is Some && same_path(
                    encode_utf8(list[i].path->0@),
                    p,
                ) && test(
                    list[i].bits,
                    from + i < presence.len() && (presence[from + i].target
                        || presence[from + i].entry),
                );
            if k < n {
                assert(rest[k] == list[k]);
                assert(names_path(xs, p));
                let i = choose|i: int| 0 <= i < xs.len() && same_path(#[trigger] xs[i], p);
                assert(same_path(x[i], p));
            } else {
                assert(x[xs.len() as int] == encode_utf8(list[k].path->0@));
                assert(same_path(x[xs.len() as int], p));
            }
        }
    }
}

/// What libgit2 lists for the index is staged where it is there, of the kinds
/// that its bits tell; a kind goes by its bit alone. libgit2 tells no copies.
pub proof fn law_the_bits_of_the_index_tell_what_is_staged(
    pre: StatusOp,
    found_there: Vec<Presence>,
    r: StatusProgress,
    p: Seq<u8>,
)
    requires
        pre.phase is LibProbe,
        StatusOp::follows(pre, Reply::Presence(found_there), r),
    ensures
        r matches Progress::Done(Ok(status)) && {
            let list = pre.phase->LibProbe_0@;
            let at = found_there@;
            &&& names_path(status.staged_files@, p) <==> entry_says(
                list,
                at,
                0,
                p,
                |bits: u32, there: bool| there,
            )
            &&& names_path(status.staged_added_files@, p) <==> entry_says(
                list,
                at,
                0,
                p,
                |bits: u32, there: bool| bits & 0x1 != 0,
            )
            &&& names_path(status.staged_modified_files@, p) <==> entry_says(
                list,
                at,
                0,
                p,
                |bits: u32, there: bool| bits & 0x2 != 0 || bits & 0x10 != 0,
            )
            &&& names_path(status.staged_deleted_files@, p) <==> entry_says(
                list,
                at,
                0,
                p,
                |bits: u32, there: bool| bits & 0x4 != 0,
            )
            &&& names_path(status.staged_renamed_files@, p) <==> entry_says(
                list,
                at,
                0,
                p,
                |bits: u32, there: bool| bits & 0x8 != 0,
            )
            &&& !names_path(status.staged_copied_files@, p)
        },
{
    let list = pre.phase->LibProbe_0@;
    let at = found_there@;
    if let Progress::Done(Ok(status)) = r {
        assert(status.files(StatusKind::Staged) == status.staged_files@);
        assert(status.files(StatusKind::StagedAdded) == status.staged_added_files@);
        assert(status.files(StatusKind::StagedModified) == status.staged_modified_files@);
        assert(status.files(StatusKind::StagedDeleted) == status.staged_deleted_files@);
        assert(status.files(StatusKind::StagedRenamed) == status.staged_renamed_files@);
        assert(status.files(StatusKind::StagedCopied) == status.staged_copied_files@);
    }
    lemma_lib_kind_names(
        StatusKind::Staged,
        list,
        at,
        0,
        p,
        |bits: u32, there: bool| there,
    );
    lemma_lib_kind_names(
        StatusKind::StagedAdded,
        list,
        at,
        0,
        p,
        |bits: u32, there: bool| bits & 0x1 != 0,
    );
    lemma_lib_kind_names(
        StatusKind::StagedModified,
        list,
        at,
        0,
        p,
        |bits: u32, there: bool| bits & 0x2 != 0 || bits & 0x10 != 0,
    );
    lemma_lib_kind_names(
        StatusKind::StagedDeleted,
        list,
        at,
        0,
        p,
        |bits: u32, there: bool| bits & 0x4 != 0,
    );
    lemma_lib_kind_names(
        StatusKind::StagedRenamed,
        list,
        at,
        0,
        p,
        |bits: u32, there: bool| bits & 0x8 != 0,
    );
    lemma_lib_kind_names(
        StatusKind::StagedCopied,
        list,
        at,
        0,
        p,
        |bits: u32, there: bool| false,
    );
}

/// What libgit2 lists for the work tree is untracked where it is new, and else
/// unstaged where it is there; the kinds go by what its bits say alone.
pub proof fn law_the_bits_of_the_work_tree_tell_what_is_unstaged(
    pre: StatusOp,
    found_there: Vec<Presence>,
    r: StatusProgress,
    p: Seq<u8>,
)
    requires
        pre.phase is LibProbe,
        StatusOp::follows(pre, Reply::Presence(found_there), r),
    ensures
        r matches Progress::Done(Ok(status)) && {
            let from = pre.phase->LibProbe_0@.len() as int;
            let list = pre.phase->LibProbe_1@;
            let at = found_there@;
            &&& names_path(status.unstaged_files@, p) <==> entry_says(
                list,
                at,
                from,
                p,
                |bits: u32, there: bool| there && bits != 0x80,
            )
            &&& names_path(status.untracked_files@, p) <==> entry_says(
                list,
                at,
                from,
                p,
                |bits: u32, there: bool| bits == 0x80,
            )
            &&& names_path(status.modified_files@, p) <==> entry_says(
                list,
                at,
                from,
                p,
                |bits: u32, there: bool| bits == 0x100 || bits == 0x400,
            )
            &&& names_path(status.unstaged_modified_files@, p) <==> entry_says(
                list,
                at,
                from,
                p,
                |bits: u32, there: bool| bits == 0x100 || bits == 0x400,
            )
            &&& names_path(status.unstaged_deleted_files@, p) <==> entry_says(
                list,
                at,
                from,
                p,
                |bits: u32, there: bool| bits == 0x200,
            )
            &&& names_path(status.unstaged_renamed_files@, p) <==> entry_says(
                list,
                at,
                from,
                p,
                |bits: u32, there: bool| bits == 0x800,
            )
        },
{
    let from = pre.phase->LibProbe_0@.len() as int;
    let list = pre.phase->LibProbe_1@;
    let at = found_there@;
    if let Progress::Done(Ok(status)) = r {
        assert(status.files(StatusKind::Unstaged) == status.unstaged_files@);
        assert(status.files(StatusKind::Untracked) == status.untracked_files@);
        assert(status.files(StatusKind::Modified) == status.modified_files@);
        assert(status.files(StatusKind::UnstagedModified) == status.unstaged_modified_files@);
        assert(status.files(StatusKind::UnstagedDeleted) == status.unstaged_deleted_files@);
        assert(status.files(StatusKind::UnstagedRenamed) == status.unstaged_renamed_files@);
    }
    lemma_lib_kind_names(
        StatusKind::Unstaged,
        list,
        at,
        from,
        p,
        |bits: u32, there: bool| there && bits != 0x80,
    );
    lemma_lib_kind_names(
        StatusKind::Untracked,
        list,
        at,
        from,
        p,
        |bits: u32, there: bool| bits == 0x80,
    );
    lemma_lib_kind_names(
        StatusKind::Modified,
        list,
        at,
        from,
        p,
        |bits: u32, there: bool| bits == 0x100 || bits == 0x400,
    );
    lemma_lib_kind_names(
        StatusKind::UnstagedModified,
        list,
        at,
        from,
        p,
        |bits: u32, there: bool| bits == 0x100 || bits == 0x400,
    );
    lemma_lib_kind_names(
        StatusKind::UnstagedDeleted,
        list,
        at,
        from,
        p,
        |bits: u32, there: bool| bits == 0x200,
    );
    lemma_lib_kind_names(
        StatusKind::UnstagedRenamed,
        list,
        at,
        from,
        p,
        |bits: u32, there: bool| bits == 0x800,
    );
}

/// The git program is asked for the status of just the paths that were given,
/// with untracked files one by one where those are looked for and with none
/// where they are not. Whether the index could be refreshed makes no
/// difference.
pub proof fn law_git_is_asked_for_the_status(pre: StatusOp, reply: Reply, r: StatusProgress)
    requires
        pre.phase is Refresh,
        !pre.libgit2,
        StatusOp::follows(pre, reply, r),
    ensures
        r matches Progress::Ask(Action::ReadGit(c), post) && {
            &&& post.phase is Porcelain
            &&& post.pathspec == pre.pathspec && post.untracked == pre.untracked
            &&& c.args@[0]@ == "status"@ && c.args@[1]@ == "--porcelain"@
            &&& c.args@[2]@ == (if pre.untracked {
                "--untracked-files=all"@
            } else {
                "--untracked-files=no"@
            })
            &&& c.args@[3]@ == "-z"@
            &&& match pre.pathspec {
                None => c.args@.len() == 4 && c.paths@.len() == 0,
                Some(list) => {
                    &&& c.args@.len() == 5 && c.args@[4]@ == "--"@
                    &&& c.paths@.len() == list@.len()
                    &&& forall|i: int|
                        0 <= i < list@.len() ==> (#[trigger] c.paths@[i]).raw@ == list@[i].raw@
                },
            }
        },
{
    if let Progress::Ask(Action::ReadGit(c), post) = r {
        let untracked = if pre.untracked {
            "--untracked-files=all"@
        } else {
            "--untracked-files=no"@
        };
        let args = if pre.pathspec is Some {
            seq!["status"@, "--porcelain"@, untracked, "-z"@, "--"@]
        } else {
            seq!["status"@, "--porcelain"@, untracked, "-z"@]
        };
        crate::work::law_a_command_says_its_arguments(c, args, pre.reported());
        if let Some(list) = pre.pathspec {
            assert forall|i: int| 0 <= i < list@.len() implies (#[trigger] c.paths@[i]).raw@
                == list@[i].raw@ by {
                assert(pre.reported()[i] == list@[i]@);
            }
        }
    }
}

/// What git printed is looked up path by path, in its order; where git failed,
/// so does reading the status.
pub proof fn law_every_line_is_looked_up(pre: StatusOp, reply: Reply, r: StatusProgress, i: int)
    requires
        pre.phase is Porcelain,
        StatusOp::follows(pre, reply, r),
    ensures
        !(reply matches Reply::Text(Some(_))) ==> (r matches Progress::Done(
            Err(GitError::Command),
        )),
        reply matches Reply::Text(Some(output)) ==> {
            &&& r matches Progress::Ask(Action::Probe(paths), post)
            &&& post.phase is PorcelainProbe
            &&& post.phase->PorcelainProbe_0@.len() == records(output@).len()
            &&& paths@.len() == records(output@).len()
            &&& 0 <= i < records(output@).len() ==> {
                let line = post.phase->PorcelainProbe_0@[i];
                let told = change_of(records(output@)[i]);
                line.index == told.index && line.worktree == told.worktree && line.path.raw@
                    == told.path && paths@[i].raw@ == told.path
            }
        },
{
    if let Reply::Text(Some(output)) = reply {
        if let Progress::Ask(Action::Probe(paths), post) = r {
            let list = post.phase->PorcelainProbe_0@;
            assert(changes(list).len() == list.len());
            assert(raw_paths(paths@).len() == paths@.len());
            if 0 <= i < records(output@).len() {
                assert(changes(list)[i] == list[i]@);
                assert(raw_paths(paths@)[i] == paths@[i]@);
                assert(change_paths(porcelain(output@))[i] == porcelain(output@)[i].path);
            }
        }
    }
}

/// libgit2 is asked for both of its lists, with renames, on the same paths,
/// and with untracked files only where those are looked for. Each entry is
/// looked up, those of the index first.
pub proof fn law_libgit2_is_asked_for_both_lists(pre: StatusOp, reply: Reply, r: StatusProgress)
    requires
        (pre.phase is Refresh && pre.libgit2) || pre.phase is LibStaged || pre.phase is LibWorkdir,
        StatusOp::follows(pre, reply, r),
    ensures
        pre.phase is Refresh || (pre.phase is LibStaged && (reply matches Reply::Statuses(
            Some(_),
        ))) ==> {
            &&& r matches Progress::Ask(Action::LibGitStatuses(q), post)
            &&& q.workdir == pre.phase is LibStaged
            &&& q.include_untracked == pre.untracked && q.recurse_untracked_dirs == pre.untracked
            &&& q.renames_head_to_index
            &&& q.pathspec@.len() == (match pre.pathspec {
                Some(list) => list@.len(),
                None => 0,
            })
            &&& forall|i: int|
                0 <= i < q.pathspec@.len() ==> (#[trigger] q.pathspec@[i]).raw@
                    == pre.pathspec->0@[i].raw@
            &&& post.pathspec == pre.pathspec && post.untracked == pre.untracked
            &&& pre.phase is Refresh ==> post.phase is LibStaged
            &&& pre.phase is LibStaged ==> post.phase == StatusPhase::LibWorkdir(
                reply->Statuses_0->0,
            )
        },
        pre.phase is LibWorkdir && (reply matches Reply::Statuses(Some(_))) ==> {
            let staged = pre.phase->LibWorkdir_0;
            let workdir = reply->Statuses_0->0;
            &&& r matches Progress::Ask(Action::Probe(paths), post)
            &&& post.phase == StatusPhase::LibProbe(staged, workdir)
            &&& paths@.len() == staged@.len() + workdir@.len()
            &&& forall|i: int|
                0 <= i < staged@.len() && (#[trigger] staged@[i]).path is Some
                    ==> paths@[i].raw@ == encode_utf8(staged@[i].path->0@)
            &&& forall|i: int|
                0 <= i < workdir@.len() && (#[trigger] workdir@[i]).path is Some
                    ==> paths@[staged@.len() + i].raw@ == encode_utf8(workdir@[i].path->0@)
        },
        !(pre.phase is Refresh) && !(reply matches Reply::Statuses(Some(_))) ==> (r matches
            Progress::Done(Err(GitError::Status))),
{
    if let Progress::Ask(Action::LibGitStatuses(q), post) = r {
        assert(raw_paths(q.pathspec@).len() == q.pathspec@.len());
        assert forall|i: int| 0 <= i < q.pathspec@.len() implies (#[trigger] q.pathspec@[i]).raw@
            == pre.pathspec->0@[i].raw@ by {
            assert(raw_paths(q.pathspec@)[i] == q.pathspec@[i]@);
            assert(pre.reported()[i] == pre.pathspec->0@[i]@);
        }
    }
    if let Progress::Ask(Action::Probe(paths), post) = r {
        if let StatusPhase::LibWorkdir(staged) = pre.phase {
            let workdir = reply->Statuses_0->0;
            let all = lib_paths(staged@) + lib_paths(workdir@);
            assert(raw_paths(paths@).len() == paths@.len());
            assert forall|i: int|
                0 <= i < staged@.len() && (#[trigger] staged@[i]).path is Some implies
                paths@[i].raw@ == encode_utf8(staged@[i].path->0@) by {
                assert(raw_paths(paths@)[i] == paths@[i]@);
                assert(all[i] == lib_path(staged@[i]));
            }
            assert forall|i: int|
                0 <= i < workdir@.len() && (#[trigger] workdir@[i]).path is Some implies
                paths@[staged@.len() + i].raw@ == encode_utf8(workdir@[i].path->0@) by {
                let k = staged@.len() + i;
                assert(raw_paths(paths@)[k] == paths@[k]@);
                assert(all[k] == lib_path(workdir@[i]));
            }
        }
    }
}

/// What is asked for does not change while the status is read.
pub proof fn law_the_question_stays_while_the_status_is_read(
    pre: StatusOp,
    reply: Reply,
    r: StatusProgress,
)
    requires
        StatusOp::follows(pre, reply, r),
        r is Ask,
    ensures
        r->Ask_1.libgit2 == pre.libgit2,
        r->Ask_1.untracked == pre.untracked,
        r->Ask_1.pathspec == pre.pathspec,
{
}

/// The sets of a status stand in order, none of their paths twice.
pub proof fn law_a_status_stands_in_order(pre: StatusOp, reply: Reply, r: StatusProgress)
    requires
        StatusOp::follows(pre, reply, r),
    ensures
        r matches Progress::Done(Ok(status)) ==> status.wf() && ordered(status.staged_files@)
            && ordered(status.unstaged_files@) && ordered(status.untracked_files@) && ordered(
            status.modified_files@,
        ),
{
    if let Progress::Done(Ok(status)) = r {
        assert(ordered(status.files(StatusKind::Staged)));
        assert(ordered(status.files(StatusKind::Unstaged)));
        assert(ordered(status.files(StatusKind::Untracked)));
        assert(ordered(status.files(StatusKind::Modified)));
    }
}

/// A record that is cut off has no path, and what is missing of its states
/// counts as NUL.
pub proof fn law_a_record_that_is_cut_off_has_no_path(x: char, y: char, gap: char)
    ensures
        change_of(seq![x, y, gap]) == (Change {
            index: x,
            worktree: y,
            path: encode_utf8(Seq::empty()),
        }),
        change_of(seq![x, y]) == (Change {
            index: x,
            worktree: y,
            path: encode_utf8(Seq::empty()),
        }),
        change_of(seq![x]) == (Change {
            index: x,
            worktree: '\0',
            path: encode_utf8(Seq::empty()),
        }),
{
}

} // verus!
