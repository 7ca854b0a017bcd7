//! Noting what index and work tree hold before hooks change them.
use crate::git::{Git, GitError};
use crate::index::{entries, parse_saved_entries, saved_entries, Entry, IndexEntry};
use crate::paths::{raw_paths, RepoPath};
use crate::text::records;
use crate::work::{Action, Command, Progress, Reply};
use vstd::prelude::*;

verus! {

/// The paths of index entries.
pub open spec fn entry_paths(list: Seq<Entry>) -> Seq<Seq<u8>> {
    Seq::new(list.len(), |i: int| list[i].path)
}

/// The text that was read at the `i`-th path asked for.
pub open spec fn text_at(list: Seq<Option<String>>, i: int) -> Option<Seq<char>> {
    if 0 <= i < list.len() && list[i] is Some {
        Some(list[i]->0@)
    } else {
        None
    }
}

/// What was read of some files; nothing where the reply is of another kind.
pub open spec fn contents_told(reply: Reply) -> Seq<Option<String>> {
    match reply {
        Reply::Contents(list) => list@,
        _ => Seq::empty(),
    }
}

/// Each path with its text, for the paths that could be read.
pub open spec fn texts_read(paths: Seq<Seq<u8>>, read: Seq<Option<String>>) -> Seq<
    (Seq<u8>, Seq<char>),
>
    decreases paths.len(),
{
    if paths.len() == 0 {
        Seq::empty()
    } else {
        let before = texts_read(paths.drop_last(), read);
        match text_at(read, paths.len() - 1) {
            Some(text) => before.push((paths.last(), text)),
            None => before,
        }
    }
}

/// What a list of captured texts holds.
pub open spec fn captured_texts(list: Seq<(RepoPath, String)>) -> Seq<(Seq<u8>, Seq<char>)> {
    Seq::new(list.len(), |i: int| (list[i].0@, list[i].1@))
}

/// Where noting index and work tree stands.
#[derive(Debug)]
pub enum CapturePhase {
    /// Waits for the index entries.
    Entries,
    /// Waits for the texts in the work tree; has the entries.
    Texts(Vec<IndexEntry>),
}

/// Noting what index and work tree hold.
#[derive(Debug)]
pub struct CaptureIndex {
    /// The repository.
    pub git: Git,
    /// What is being waited for.
    pub phase: CapturePhase,
}

/// How noting index and work tree goes on.
pub type Captured = Progress<CaptureIndex, (Git, Result<(), GitError>)>;

/// Pairs the paths of entries with what was read at them.
fn pair_texts(list: &Vec<IndexEntry>, read: &Vec<Option<String>>) -> (r: Vec<(RepoPath, String)>)
    ensures
        captured_texts(r@) == texts_read(entry_paths(entries(list@)), read@),
{
    let ghost all = entry_paths(entries(list@));
    let mut out: Vec<(RepoPath, String)> = Vec::new();
    let mut i: usize = 0;
    proof {
        assert(captured_texts(out@) == texts_read(all.take(0), read@));
    }
    while i < list.len()
        invariant
            i <= list.len(),
            all == entry_paths(entries(list@)),
            captured_texts(out@) == texts_read(all.take(i as int), read@),
        decreases list.len() - i,
    {
        let ghost was = out@;
        proof {
            assert(all.take(i + 1).drop_last() == all.take(i as int));
            assert(all.take(i + 1).last() == list@[i as int].path@);
        }
        if i < read.len() {
            if let Some(text) = &read[i] {
                out.push((list[i].path.copy(), text.clone()));
                proof {
                    assert(captured_texts(out@) == captured_texts(was).push(
                        (list@[i as int].path@, text@),
                    ));
                }
            }
        }
        i += 1;
    }
    proof {
        assert(all.take(all.len() as int) == all);
    }
    out
}

/// Copies the paths of entries.
fn paths_of_entries(list: &Vec<IndexEntry>) -> (r: Vec<RepoPath>)
    ensures
        raw_paths(r@) == entry_paths(entries(list@)),
{
    let mut out: Vec<RepoPath> = Vec::new();
    let mut i: usize = 0;
    while i < list.len()
        invariant
            i <= list.len(),
            out.len() == i,
            forall|k: int| 0 <= k < i ==> (#[trigger] out@[k])@ == list@[k].path@,
        decreases list.len() - i,
    {
        out.push(list[i].path.copy());
        i += 1;
    }
    proof {
        assert(raw_paths(out@) == entry_paths(entries(list@)));
    }
    out
}

impl CaptureIndex {
    /// That the work is over with these entries and texts noted.
    pub open spec fn ends(
        git: Git,
        index: Seq<Entry>,
        worktree: Seq<(Seq<u8>, Seq<char>)>,
        r: Captured,
    ) -> bool {
        &&& r matches Progress::Done((left, Ok(())))
        &&& left.saved_index is Some && entries(left.saved_index->0@) == index
        &&& left.saved_worktree is Some && captured_texts(left.saved_worktree->0@) == worktree
        &&& left == (Git {
            saved_index: left.saved_index,
            saved_worktree: left.saved_worktree,
            ..git
        })
    }

    /// How the work goes on when it is told `reply`.
    pub open spec fn follows(pre: CaptureIndex, reply: Reply, r: Captured) -> bool {
        match pre.phase {
            CapturePhase::Entries => match reply.text() {
                None => r matches Progress::Done((git, Err(GitError::Command))) && git == pre.git,
                Some(output) => {
                    &&& r matches Progress::Ask(Action::ReadFiles(paths), post)
                    &&& post.git == pre.git
                    &&& post.phase matches CapturePhase::Texts(list)
                    &&& entries(list@) == saved_entries(records(output))
                    &&& raw_paths(paths@) == entry_paths(entries(list@))
                },
            },
            CapturePhase::Texts(list) => CaptureIndex::ends(
                pre.git,
                entries(list@),
                texts_read(entry_paths(entries(list@)), contents_told(reply)),
                r,
            ),
        }
    }

    /// Goes on when the outcome of the action is known.
    pub fn resume(self, reply: Reply) -> (r: Captured)
        ensures
            CaptureIndex::follows(self, reply, r),
    {
        let CaptureIndex { git, phase } = self;
        match phase {
            CapturePhase::Entries => match reply.into_text() {
                None => Progress::Done((git, Err(GitError::Command))),
                Some(output) => {
                    let list = parse_saved_entries(output.as_str());
                    let paths = paths_of_entries(&list);
                    Progress::Ask(
                        Action::ReadFiles(paths),
                        CaptureIndex { git, phase: CapturePhase::Texts(list) },
                    )
                },
            },
            CapturePhase::Texts(list) => {
                let read = match reply {
                    Reply::Contents(read) => read,
                    _ => Vec::new(),
                };
                let texts = pair_texts(&list, &read);
                Progress::Done(
                    (
                        Git { saved_index: Some(list), saved_worktree: Some(texts), ..git },
                        Ok(()),
                    ),
                )
            },
        }
    }
}

/// Noting index and work tree ends, whatever it is told.
pub proof fn law_capturing_ends(pre: CaptureIndex, reply: Reply, r: Captured)
    requires
        CaptureIndex::follows(pre, reply, r),
    ensures
        r matches Progress::Ask(_, post) ==> pre.phase is Entries && post.phase is Texts,
{
}

/// Noting index and work tree leaves a stash on record as it is.
pub proof fn law_capturing_keeps_the_stash(pre: CaptureIndex, reply: Reply, r: Captured)
    requires
        CaptureIndex::follows(pre, reply, r),
    ensures
        match r {
            Progress::Ask(_, post) => post.git == pre.git,
            Progress::Done((git, _)) => git.stash == pre.git.stash && git.stash_commit
                == pre.git.stash_commit && git.stashed_paths == pre.git.stashed_paths,
        },
{
}

impl Git {
    /// Starts to note the index entries of some paths, and their texts in the
    /// work tree. Without paths there is nothing to note.
    pub fn capture_index(self, paths: Vec<RepoPath>) -> (r: Captured)
        ensures
            if paths@.len() == 0 {
                CaptureIndex::ends(self, Seq::empty(), Seq::empty(), r)
            } else {
                &&& r matches Progress::Ask(Action::ReadGit(c), op)
                &&& op == CaptureIndex { git: self, phase: CapturePhase::Entries }
                &&& c.is(seq!["ls-files"@, "-s"@, "-z"@, "--"@], raw_paths(paths@))
            },
    {
        if paths.len() == 0 {
            let index: Vec<IndexEntry> = Vec::new();
            let worktree: Vec<(RepoPath, String)> = Vec::new();
            proof {
                assert(entries(index@) == Seq::<Entry>::empty());
                assert(captured_texts(worktree@) == Seq::<(Seq<u8>, Seq<char>)>::empty());
            }
            return Progress::Done(
                (
                    Git { saved_index: Some(index), saved_worktree: Some(worktree), ..self },
                    Ok(()),
                ),
            );
        }
        let c = Command::of(&["ls-files", "-s", "-z", "--"]).with_paths(paths);
        Progress::Ask(
            Action::ReadGit(c),
            CaptureIndex { git: self, phase: CapturePhase::Entries },
        )
    }
}

/// What is read of some files and then of others makes what is read of all,
/// in order. A file that could be read gives its text, any other gives none.
pub proof fn law_files_are_read_one_after_another(
    paths: Seq<Seq<u8>>,
    read: Seq<Option<String>>,
    more: Seq<Seq<u8>>,
    next_read: Seq<Option<String>>,
    p: Seq<u8>,
    text: String,
)
    requires
        paths.len() == read.len(),
    ensures
        texts_read(paths + more, read + next_read) == texts_read(paths, read) + texts_read(
            more,
            next_read,
        ),
        texts_read(seq![p], seq![Some(text)]) == seq![(p, text@)],
        texts_read(seq![p], seq![None]) == Seq::<(Seq<u8>, Seq<char>)>::empty(),
        texts_read(more, Seq::empty()) == Seq::<(Seq<u8>, Seq<char>)>::empty(),
    decreases more.len(),
{
    reveal_with_fuel(texts_read, 2);
    assert(seq![p].drop_last() == Seq::<Seq<u8>>::empty());
    if more.len() == 0 {
        assert(paths + more == paths);
        lemma_texts_read_ignores(paths, read, read + next_read);
        assert(texts_read(paths, read) + texts_read(more, next_read) == texts_read(paths, read));
    } else {
        let rest = more.drop_last();
        law_files_are_read_one_after_another(paths, read, rest, next_read, p, text);
        assert((paths + more).drop_last() == paths + rest);
        let n = more.len() - 1;
        assert(text_at(read + next_read, paths.len() + n) == text_at(next_read, n));
    }
}

proof fn lemma_texts_read_ignores(
    paths: Seq<Seq<u8>>,
    read: Seq<Option<String>>,
    longer: Seq<Option<String>>,
)
    requires
        paths.len() <= read.len() <= longer.len(),
        forall|i: int| 0 <= i < read.len() ==> read[i] == longer[i],
    ensures
        texts_read(paths, read) == texts_read(paths, longer),
    decreases paths.len(),
{
    if paths.len() > 0 {
        lemma_texts_read_ignores(paths.drop_last(), read, longer);
    }
}

/// Index and work tree are noted as they are: every entry that git lists, and
/// the text of every listed file that could be read. Where git fails, nothing
/// is noted. What else is on record stays.
pub proof fn law_index_and_work_tree_are_noted(
    pre: CaptureIndex,
    told: Option<String>,
    first: Captured,
    read: Vec<Option<String>>,
    last: Captured,
)
    requires
        pre.phase is Entries,
        CaptureIndex::follows(pre, Reply::Text(told), first),
        told is Some ==> (first matches Progress::Ask(_, op) && CaptureIndex::follows(
            op,
            Reply::Contents(read),
            last,
        )),
    ensures
        told is None ==> (first matches Progress::Done((git, Err(GitError::Command))) && git
            == pre.git),
        told is Some ==> {
            let listed = saved_entries(records(told->0@));
            &&& first matches Progress::Ask(Action::ReadFiles(paths), _)
            &&& paths@.len() == listed.len()
            &&& forall|i: int|
                0 <= i < listed.len() ==> (#[trigger] paths@[i]).raw@ == listed[i].path
            &&& last matches Progress::Done((git, Ok(())))
            &&& git.saved_index is Some && entries(git.saved_index->0@) == listed
            &&& git.saved_worktree is Some
            &&& captured_texts(git.saved_worktree->0@) == texts_read(
                listed.map_values(|e: Entry| e.path),
                read@,
            )
            &&& git.libgit2 == pre.git.libgit2 && git.stash == pre.git.stash
            &&& git.stash_untracked == pre.git.stash_untracked
            &&& git.stash_commit == pre.git.stash_commit
            &&& git.stashed_paths == pre.git.stashed_paths
            &&& git.stash_backup_count == pre.git.stash_backup_count
        },
{
    if told is Some {
        let listed = saved_entries(records(told->0@));
        assert(entry_paths(listed) == listed.map_values(|e: Entry| e.path));
        if let Progress::Ask(Action::ReadFiles(paths), op) = first {
            assert(raw_paths(paths@).len() == paths@.len());
            assert forall|i: int| 0 <= i < listed.len() implies (#[trigger] paths@[i]).raw@
                == listed[i].path by {
                assert(raw_paths(paths@)[i] == entry_paths(listed)[i]);
            }
        }
    }
}

} // verus!
