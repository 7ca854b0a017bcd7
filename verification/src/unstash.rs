//! Restoring what a stash put aside.
use crate::git::{Git, GitError};
use crate::index::{
    entries, entry_of, find_entry, fixer_entries, in_octal, parse_fixer_entries, write_octal,
    Entry, IndexEntry,
};
use crate::paths::{
    collected, copy_bytes, names_path, paths_of, same_path, spelled, text_from_utf8, PathSet,
    RepoPath,
};
use crate::text::{
    after_prefix, concat2, concat3, lines, opt_text, records, same, split_lines, split_records,
    split_words, strip_prefix, text_of, texts, to_chars, words,
};
use crate::work::{Action, Command, Progress, Reply};
use vstd::prelude::*;
use vstd::utf8::{decode_utf8, decode_utf8_encode_utf8, encode_utf8, valid_utf8};

verus! {

/// A file of this many bytes is restored without merging, unless a fixer
/// changed it.
pub const LARGE_STASH_FILE_BYTES: usize = 1_000_000;

/// The line of `git stash list --format=%H %gd` that names a commit gives the
/// name of its entry.
pub open spec fn entry_name(line: Seq<char>, hash: Seq<char>) -> Option<Seq<char>> {
    let fields = words(line);
    if fields.len() >= 2 && fields[0] == hash {
        Some(fields[1])
    } else {
        None
    }
}

/// The name that the first line to name a commit gives it.
pub open spec fn first_entry_name(list: Seq<Seq<char>>, hash: Seq<char>) -> Option<Seq<char>>
    decreases list.len(),
{
    if list.len() == 0 {
        None
    } else {
        match entry_name(list[0], hash) {
            Some(name) => Some(name),
            None => first_entry_name(list.drop_first(), hash),
        }
    }
}

/// The stash entry to restore: the one of the commit that was recorded, or
/// the latest where that is not listed.
pub open spec fn stash_name(list: Seq<char>, hash: Seq<char>) -> Seq<char> {
    match first_entry_name(lines(list), hash) {
        Some(name) => name,
        None => "stash@{0}"@,
    }
}

/// The entry that was made is the one restored, wherever it stands in the list
/// by then: the first row that names its commit gives the name.
pub proof fn law_the_recorded_entry_is_restored(rows: Seq<Seq<char>>, hash: Seq<char>, i: int)
    requires
        0 <= i < rows.len(),
        entry_name(rows[i], hash) is Some,
        forall|k: int| 0 <= k < i ==> entry_name(#[trigger] rows[k], hash) is None,
    ensures
        first_entry_name(rows, hash) == entry_name(rows[i], hash),
    decreases i,
{
    if i > 0 {
        assert(entry_name(rows[0], hash) is None);
        let rest = rows.drop_first();
        assert(rest[i - 1] == rows[i]);
        assert forall|k: int| 0 <= k < i - 1 implies entry_name(
            #[trigger] rest[k],
            hash,
        ) is None by {
            assert(rest[k] == rows[k + 1]);
        }
        law_the_recorded_entry_is_restored(rest, hash, i - 1);
    }
}

/// Finds the stash entry of a commit in `git stash list --format=%H %gd` output.
pub fn find_stash(list: &str, hash: &str) -> (r: String)
    ensures
        r@ == stash_name(list@, hash@),
{
    let all = split_lines(list);
    let ghost rows = lines(list@);
    let mut i: usize = 0;
    proof {
        assert(rows.skip(0) == rows);
    }
    while i < all.len()
        invariant
            i <= all.len(),
            rows == texts(all@),
            rows == lines(list@),
            first_entry_name(rows, hash@) == first_entry_name(rows.skip(i as int), hash@),
        decreases all.len() - i,
    {
        let fields = split_words(all[i].as_str());
        proof {
            assert(rows.skip(i as int)[0] == all@[i as int]@);
            assert(rows.skip(i as int).drop_first() == rows.skip(i + 1));
            assert(texts(fields@) == words(all@[i as int]@));
        }
        if fields.len() >= 2 && same(fields[0].as_str(), hash) {
            proof {
                assert(texts(fields@)[0] == fields@[0]@);
                assert(texts(fields@)[1] == fields@[1]@);
            }
            return fields[1].clone();
        }
        proof {
            if fields@.len() >= 2 {
                assert(texts(fields@)[0] == fields@[0]@);
            }
        }
        i += 1;
    }
    "stash@{0}".to_owned()
}

/// The recorded paths that a restriction admits, in order.
pub open spec fn admitted(list: Seq<Seq<char>>, only: Option<PathSet>) -> Seq<Seq<char>>
    decreases list.len(),
{
    if list.len() == 0 {
        Seq::empty()
    } else {
        let before = admitted(list.drop_last(), only);
        if only is None || names_path(only->0@, encode_utf8(list.last())) {
            before.push(list.last())
        } else {
            before
        }
    }
}

/// Reads the paths of a stash entry, of those that were put aside.
pub fn stashed_files(show: &str, only: &Option<PathSet>) -> (r: Vec<String>)
    ensures
        texts(r@) == admitted(records(show@), *only),
{
    let list = split_records(show);
    let ghost all = texts(list@);
    let mut out: Vec<String> = Vec::new();
    let mut i: usize = 0;
    proof {
        assert(texts(out@) == admitted(all.take(0), *only));
    }
    while i < list.len()
        invariant
            i <= list.len(),
            all == texts(list@),
            texts(out@) == admitted(all.take(i as int), *only),
        decreases list.len() - i,
    {
        let ghost was = out@;
        proof {
            assert(all.take(i + 1).drop_last() == all.take(i as int));
            assert(all.take(i + 1).last() == list@[i as int]@);
        }
        let wanted = match only {
            None => true,
            Some(set) => set.contains(&RepoPath::from_text(list[i].as_str())),
        };
        if wanted {
            out.push(list[i].clone());
            proof {
                assert(texts(out@) == texts(was).push(list@[i as int]@));
            }
        }
        i += 1;
    }
    proof {
        assert(all.take(all.len() as int) == all);
    }
    out
}

/// What the work tree added at the end of the index text, if it changed
/// nothing else. The newline that ends the index text may be missing before
/// the addition. Beside a fixer that left the index text alone it may be
/// missing only where it is all that the work tree changed: what else is
/// unstaged there is not to be taken for an addition.
pub open spec fn tail_of(
    work: Seq<char>,
    index: Seq<char>,
    fixer: Seq<char>,
) -> Option<Seq<char>> {
    match after_prefix(work, index) {
        Some(tail) => Some(tail),
        None => if ends_line(index) && (fixer != index || lacks_newline(work, index)) {
            after_prefix(work, index.drop_last())
        } else {
            None
        },
    }
}

/// Whether a text is another one without the one newline that ends it.
pub open spec fn lacks_newline(work: Seq<char>, index: Seq<char>) -> bool {
    work.push('\n') == index && !ends_line(work)
}

/// Whether two texts differ by one newline at the end and nothing else.
pub open spec fn differ_by_newline(work: Seq<char>, index: Seq<char>) -> bool {
    work.push('\n') == index || index.push('\n') == work
}

/// Whether a text ends with a newline.
pub open spec fn ends_line(s: Seq<char>) -> bool {
    s.len() > 0 && s.last() == '\n'
}

/// A text without the newlines at its end.
pub open spec fn without_newlines(s: Seq<char>) -> Seq<char>
    decreases s.len(),
{
    if ends_line(s) {
        without_newlines(s.drop_last())
    } else {
        s
    }
}

/// A text with the end of line that the work tree had: one that the work tree
/// added is added, those that it took away are taken away.
pub open spec fn with_line_end(s: Seq<char>, work: Seq<char>, index: Seq<char>) -> Seq<char> {
    if ends_line(work) && !ends_line(index) {
        if ends_line(s) {
            s
        } else {
            s.push('\n')
        }
    } else if !ends_line(work) && ends_line(index) {
        without_newlines(s)
    } else {
        s
    }
}

/// Whether the work tree differs from the index by the newline at the end only.
pub open spec fn newline_only(work: Option<Seq<char>>, index: Option<Seq<char>>) -> bool {
    work is Some && index is Some && differ_by_newline(work->0, index->0)
}

/// The text to restore, from the merge of the fixer's and the work tree's
/// changes. Where the work tree only added at the end, the fixer's text is
/// taken with that addition; where it did not change the index text at all,
/// the fixer's text is taken; a newline at the end that it added or took away
/// stays added or taken away.
pub open spec fn restored_text(
    merged: Seq<char>,
    fixer: Option<Seq<char>>,
    work: Option<Seq<char>>,
    index: Option<Seq<char>>,
) -> Seq<char> {
    let combined = if fixer is Some && work is Some && index is Some && tail_of(
        work->0,
        index->0,
        fixer->0,
    ) is Some {
        fixer->0 + tail_of(work->0, index->0, fixer->0)->0
    } else {
        merged
    };
    if newline_only(work, index) {
        with_line_end(combined, work->0, index->0)
    } else {
        combined
    }
}

/// A work tree that the index text equals is restored to what the fixer wrote.
pub proof fn law_unchanged_work_takes_the_fixer(
    merged: Seq<char>,
    fixer: Seq<char>,
    text: Seq<char>,
)
    ensures
        restored_text(merged, Some(fixer), Some(text), Some(text)) == fixer,
{
    assert(text.is_prefix_of(text));
    assert(text.skip(text.len() as int) == Seq::<char>::empty());
    assert(fixer + Seq::<char>::empty() == fixer);
    assert(text.push('\n').len() != text.len());
}

/// What the work tree added at the end follows what the fixer wrote.
pub proof fn law_added_tail_follows_the_fixer(
    merged: Seq<char>,
    fixer: Seq<char>,
    index: Seq<char>,
    tail: Seq<char>,
)
    ensures
        restored_text(merged, Some(fixer), Some(index + tail), Some(index)) == fixer + tail,
{
    let work = index + tail;
    assert(index.is_prefix_of(work));
    assert(work.skip(index.len() as int) == tail);
    if work.push('\n') == index {
        assert(work.len() + 1 == index.len());
    }
    if index.push('\n') == work {
        assert(tail == seq!['\n']);
        assert((fixer + tail).last() == '\n');
    }
}

/// Where the work tree put an addition in the place of the newline that ends
/// the index text, the addition follows what a fixer with changes wrote.
pub proof fn law_a_tail_without_the_newline_follows_the_fixer(
    merged: Seq<char>,
    fixer: Seq<char>,
    lead: Seq<char>,
    tail: Seq<char>,
)
    requires
        fixer != lead.push('\n'),
        tail.len() > 0,
        tail[0] != '\n',
    ensures
        restored_text(merged, Some(fixer), Some(lead + tail), Some(lead.push('\n'))) == fixer
            + tail,
{
    let work = lead + tail;
    let index = lead.push('\n');
    assert(work[lead.len() as int] != index[lead.len() as int]);
    assert(!index.is_prefix_of(work));
    assert(index.drop_last() == lead);
    assert(lead.is_prefix_of(work));
    assert(work.skip(lead.len() as int) == tail);
    if work.push('\n') == index {
        assert(work.len() + 1 == index.len());
    }
    if index.push('\n') == work {
        assert(index.is_prefix_of(work));
    }
}

/// A fixer that changed nothing takes nothing from the work tree: what was
/// unstaged comes back as it was, if the merge keeps it.
pub proof fn law_an_idle_fixer_keeps_the_work(work: Seq<char>, index: Seq<char>)
    ensures
        restored_text(work, Some(index), Some(work), Some(index)) == work,
{
    match after_prefix(work, index) {
        Some(tail) => {
            assert(index + tail == work);
        },
        None => {
            if lacks_newline(work, index) {
                assert(index.drop_last() == work);
                assert(work.is_prefix_of(work));
                assert(work.skip(work.len() as int) == Seq::<char>::empty());
                assert(index + Seq::<char>::empty() == index);
                assert(without_newlines(index) == without_newlines(work));
            }
        },
    }
}

/// A newline at the end that the work tree lacks is not put back by the fixer.
pub proof fn law_removed_newline_stays_removed(
    merged: Seq<char>,
    fixer: Option<Seq<char>>,
    work: Seq<char>,
)
    requires
        !ends_line(work),
    ensures
        !ends_line(restored_text(merged, fixer, Some(work), Some(work.push('\n')))),
{
    let index = work.push('\n');
    let combined = if fixer is Some && tail_of(work, index, fixer->0) is Some {
        fixer->0 + tail_of(work, index, fixer->0)->0
    } else {
        merged
    };
    lemma_without_newlines(combined);
}

proof fn lemma_without_newlines(s: Seq<char>)
    ensures
        !ends_line(without_newlines(s)),
    decreases s.len(),
{
    if ends_line(s) {
        lemma_without_newlines(s.drop_last());
    }
}

/// A newline at the end that the work tree added stays.
pub proof fn law_added_newline_stays(merged: Seq<char>, fixer: Option<Seq<char>>, index: Seq<char>)
    requires
        !ends_line(index),
    ensures
        ends_line(restored_text(merged, fixer, Some(index.push('\n')), Some(index))),
{
}

/// Reads what the work tree added at the end of the index text.
fn tail_text(work: &str, index: &str, fixer: &str) -> (r: Option<String>)
    ensures
        opt_text(r) == tail_of(work@, index@, fixer@),
{
    let strict = strip_prefix(work, index);
    if strict.is_some() {
        return strict;
    }
    if !ends_with_newline(index) {
        return None;
    }
    let longer = concat2(work, "\n");
    proof {
        reveal_strlit("\n");
        assert(longer@ == work@.push('\n'));
    }
    if !same(fixer, index) || (same(longer.as_str(), index) && !ends_with_newline(work)) {
        let lead = without_last(index);
        strip_prefix(work, lead.as_str())
    } else {
        None
    }
}

/// A text without its last character.
fn without_last(s: &str) -> (r: String)
    requires
        s@.len() > 0,
    ensures
        r@ == s@.drop_last(),
{
    let chars = to_chars(s);
    text_of(&chars, 0, chars.len() - 1)
}

/// Tells whether a text ends with a newline.
fn ends_with_newline(s: &str) -> (r: bool)
    ensures
        r == ends_line(s@),
{
    let chars = to_chars(s);
    chars.len() > 0 && chars[chars.len() - 1] == '\n'
}

/// Tells whether the work tree differs from the index by the newline at the
/// end only.
pub fn is_newline_only(work: &Option<String>, index: &Option<String>) -> (r: bool)
    ensures
        r == newline_only(opt_text(*work), opt_text(*index)),
{
    match (work, index) {
        (Some(w), Some(i)) => {
            let longer_work = concat3(w.as_str(), "\n", "");
            let longer_index = concat3(i.as_str(), "\n", "");
            proof {
                reveal_strlit("\n");
                reveal_strlit("");
                assert(longer_work@ == w@.push('\n'));
                assert(longer_index@ == i@.push('\n'));
            }
            same(longer_work.as_str(), i.as_str()) || same(longer_index.as_str(), w.as_str())
        },
        _ => false,
    }
}

/// Gives a text the end of line that the work tree had.
fn fit_line_end(s: String, work: &str, index: &str) -> (r: String)
    ensures
        r@ == with_line_end(s@, work@, index@),
{
    let w = ends_with_newline(work);
    let i = ends_with_newline(index);
    if w && !i {
        let mut s = s;
        if !ends_with_newline(s.as_str()) {
            s.push('\n');
        }
        s
    } else if !w && i {
        let chars = to_chars(s.as_str());
        let mut n: usize = chars.len();
        proof {
            assert(chars@.take(n as int) == s@);
        }
        while n > 0 && chars[n - 1] == '\n'
            invariant
                n <= chars.len(),
                without_newlines(chars@.take(n as int)) == without_newlines(s@),
            decreases n,
        {
            proof {
                assert(chars@.take(n as int).drop_last() == chars@.take(n - 1));
            }
            n -= 1;
        }
        let r = text_of(&chars, 0, n);
        proof {
            assert(chars@.take(n as int) == chars@.subrange(0, n as int));
        }
        r
    } else {
        s
    }
}

/// Settles the text to restore, from the merge of the fixer's and the work
/// tree's changes.
pub fn settle_text(
    merged: String,
    fixer: &Option<String>,
    work: &Option<String>,
    index: &Option<String>,
) -> (r: String)
    ensures
        r@ == restored_text(merged@, opt_text(*fixer), opt_text(*work), opt_text(*index)),
{
    let mut result = merged;
    if let (Some(f), Some(w), Some(i)) = (fixer, work, index) {
        if let Some(tail) = tail_text(w.as_str(), i.as_str(), f.as_str()) {
            result = concat3(f.as_str(), tail.as_str(), "");
            proof {
                reveal_strlit("");
                assert(result@ == f@ + tail@);
            }
        }
    }
    if is_newline_only(work, index) {
        if let (Some(w), Some(i)) = (work, index) {
            return fit_line_end(result, w.as_str(), i.as_str());
        }
    }
    result
}

/// The text captured for a path, if any; a later one replaces an earlier one.
pub open spec fn captured(list: Seq<(RepoPath, String)>, p: Seq<u8>) -> Option<Seq<char>>
    decreases list.len(),
{
    if list.len() == 0 {
        None
    } else if same_path(list.last().0@, p) {
        Some(list.last().1@)
    } else {
        captured(list.drop_last(), p)
    }
}

/// Finds the text captured for a path.
pub fn find_captured(list: &Vec<(RepoPath, String)>, p: &RepoPath) -> (r: Option<String>)
    ensures
        opt_text(r) == captured(list@, p@),
{
    let mut i: usize = list.len();
    proof {
        assert(list@.take(list@.len() as int) == list@);
    }
    while i > 0
        invariant
            i <= list.len(),
            captured(list@, p@) == captured(list@.take(i as int), p@),
        decreases i,
    {
        proof {
            assert(list@.take(i as int).drop_last() == list@.take(i - 1));
            assert(list@.take(i as int).last() == list@[i - 1]);
        }
        if list[i - 1].0.names_same(p) {
            return Some(list[i - 1].1.clone());
        }
        i -= 1;
    }
    None
}

/// Where the restoration stands.
#[derive(Debug)]
pub enum PopPhase {
    /// Waits for the list of stash entries.
    List,
    /// Waits for the paths of the stash entry.
    Show,
    /// Waits for the paths that are staged as deleted.
    Deleted,
    /// Waits for the paths with staged changes.
    Changed,
    /// Waits for the index entries of the paths to restore; has the paths with
    /// staged changes.
    Staged(PathSet),
    /// Waits for whether the stash holds the path among untracked files.
    AmongUntracked,
    /// Waits for whether the stash holds the path in its index.
    InIndex,
    /// Waits for the contents of an untracked file.
    Untracked,
    /// Waits for a file to be written as it was.
    Verbatim,
    /// Waits for the contents that the work tree had.
    Work,
    /// Waits for the text in `HEAD` when the stash was made; has the work tree's.
    Base(Option<String>),
    /// Waits for the text in the index when the stash was made; has the work
    /// tree's and `HEAD`'s.
    Index(Option<String>, Option<String>),
    /// Waits for the text that a fixer staged; has the work tree's, `HEAD`'s
    /// and the index's.
    Fixer(Option<String>, Option<String>, Option<String>),
    /// Waits for the merge; has the work tree's, the index's and the fixer's text.
    Merge(Option<String>, Option<String>, Option<String>),
    /// Waits for the text to be written; has whether only the newline
    /// at the end had changed.
    Write(bool),
    /// Waits for the fixer's blob to be put into the index.
    SetIndex,
    /// Waits for the stash entry to be dropped.
    Drop,
}

/// The restoration of what a stash put aside.
#[derive(Debug)]
pub struct PopStash {
    /// The repository.
    pub git: Git,
    /// The stash entry.
    pub stash_ref: String,
    /// The paths that are staged as deleted.
    pub deleted: PathSet,
    /// The paths to restore.
    pub paths: Vec<String>,
    /// The index entries that fixers staged.
    pub fixers: Vec<IndexEntry>,
    /// The place of the path being restored.
    pub at: usize,
    /// Whether anything failed so far.
    pub failed: bool,
    /// What is being waited for.
    pub phase: PopPhase,
}

/// How a restoration goes on: an action and the state that waits, or the
/// repository as it is left and whether everything was restored.
pub type Popped = Progress<PopStash, (Git, Result<(), GitError>)>;

/// The text of bytes that can be read as UTF-8.
pub open spec fn readable(bytes: Option<Seq<u8>>) -> Option<Seq<char>> {
    match bytes {
        Some(b) => if valid_utf8(b) {
            Some(decode_utf8(b))
        } else {
            None
        },
        None => None,
    }
}

/// Reads the text of a reply in bytes.
fn read_text(reply: Reply) -> (r: Option<String>)
    ensures
        opt_text(r) == readable(reply.bytes()),
{
    match reply.into_bytes() {
        Some(b) => text_from_utf8(b),
        None => None,
    }
}

/// Copies a text that may be missing.
fn copy_opt(s: &Option<String>) -> (r: Option<String>)
    ensures
        opt_text(r) == opt_text(*s),
{
    match s {
        Some(t) => Some(t.clone()),
        None => None,
    }
}

impl PopStash {
    /// Whether a path is being restored.
    pub open spec fn on_path(&self) -> bool {
        match self.phase {
            PopPhase::List => false,
            PopPhase::Show => false,
            PopPhase::Deleted => false,
            PopPhase::Changed => false,
            PopPhase::Staged(_) => false,
            PopPhase::Drop => false,
            _ => true,
        }
    }

    /// Whether a path that is no untracked file is being restored.
    pub open spec fn on_tracked(&self) -> bool {
        match self.phase {
            PopPhase::Work => true,
            PopPhase::Base(_) => true,
            PopPhase::Index(_, _) => true,
            PopPhase::Fixer(_, _, _) => true,
            PopPhase::Merge(_, _, _) => true,
            PopPhase::Write(_) => true,
            PopPhase::SetIndex => true,
            _ => false,
        }
    }

    /// What holds at every point: there is a path where one is being restored;
    /// it is not staged as deleted where it is a tracked one; nothing has
    /// failed before paths are restored, nor when the stash is dropped.
    pub open spec fn wf(&self) -> bool {
        &&& self.on_path() ==> self.at < self.paths.len()
        &&& self.on_tracked() ==> !self.is_deleted(self.at as int)
        &&& !self.on_path() ==> !self.failed
    }

    /// The path being restored.
    pub open spec fn path(&self) -> Seq<char> {
        self.paths@[self.at as int]@
    }

    /// What does not change while paths are restored.
    pub open spec fn keeps(&self, pre: PopStash) -> bool {
        &&& self.git == pre.git
        &&& self.stash_ref == pre.stash_ref
        &&& self.deleted == pre.deleted
        &&& self.paths == pre.paths
        &&& self.fixers == pre.fixers
    }

    /// That another question about the same path is put.
    pub open spec fn stays(&self, pre: PopStash) -> bool {
        self.wf() && self.keeps(pre) && self.at == pre.at && self.failed == pre.failed
    }

    /// Whether the path at `i` is staged as deleted.
    pub open spec fn is_deleted(&self, i: int) -> bool {
        names_path(self.deleted@, encode_utf8(self.paths@[i]@))
    }

    /// The entry that a fixer staged for the path being restored.
    pub open spec fn fixer_entry(&self) -> Option<Entry> {
        entry_of(entries(self.fixers@), encode_utf8(self.path()))
    }

    /// The first path from `from` on that something is asked about. Where no
    /// untracked file can be in the stash, paths staged as deleted are passed
    /// over.
    pub open spec fn next_asked(&self, from: int) -> int
        decreases self.paths@.len() - from,
    {
        if from < self.paths@.len() && !self.git.stash_untracked && self.is_deleted(from) {
            self.next_asked(from + 1)
        } else {
            from
        }
    }

    /// Git's name for the path being restored in the stash commit, or in one
    /// of its parents.
    pub open spec fn blob(&self, parent: Seq<char>) -> Seq<char> {
        self.stash_ref@ + parent + self.path()
    }

    /// How it goes on with the paths from `from` on: the next path is asked
    /// about; after the last, the stash entry is dropped if nothing failed, and
    /// kept if something did.
    pub open spec fn goes_on(pre: PopStash, from: int, failed: bool, r: Popped) -> bool {
        let next = pre.next_asked(from);
        if next < pre.paths@.len() {
            &&& r matches Progress::Ask(action, post)
            &&& post.wf() && post.keeps(pre) && post.at == next && post.failed == failed
            &&& if pre.git.stash_untracked {
                &&& post.phase is AmongUntracked
                &&& action matches Action::RunGitQuiet(c)
                &&& c.says(seq!["cat-file"@, "-e"@, post.blob("^3:"@)])
            } else {
                &&& post.phase is Work
                &&& action matches Action::ReadGitBytes(c)
                &&& c.says(seq!["cat-file"@, "-p"@, post.blob(":"@)])
            }
        } else if failed {
            &&& r matches Progress::Done((git, Err(GitError::StashPreserved(name))))
            &&& git == pre.git
            &&& name@ == pre.stash_ref@
        } else {
            &&& r matches Progress::Ask(Action::RunGit(c), post)
            &&& post.wf() && post.keeps(pre)
            &&& post.phase is Drop
            &&& c.says(seq!["stash"@, "drop"@, pre.stash_ref@])
        }
    }

    /// How it goes on with a path that is no untracked file: one staged as
    /// deleted is left alone; of any other the work tree's contents are read.
    pub open spec fn goes_tracked(pre: PopStash, r: Popped) -> bool {
        if pre.is_deleted(pre.at as int) {
            PopStash::goes_on(pre, pre.at + 1, pre.failed, r)
        } else {
            &&& r matches Progress::Ask(Action::ReadGitBytes(c), post)
            &&& post.stays(pre)
            &&& post.phase is Work
            &&& c.says(seq!["cat-file"@, "-p"@, pre.blob(":"@)])
        }
    }

    /// That some bytes are written to the path being restored.
    pub open spec fn writes(pre: PopStash, contents: Seq<u8>, action: Action) -> bool {
        &&& action matches Action::WriteFile(path, bytes)
        &&& path@ == encode_utf8(pre.path())
        &&& bytes@ == contents
    }

    /// That some bytes are written to the path being restored, and that this
    /// is all there is to do for it.
    pub open spec fn writes_verbatim(pre: PopStash, contents: Seq<u8>, r: Popped) -> bool {
        &&& r matches Progress::Ask(action, post)
        &&& PopStash::writes(pre, contents, action)
        &&& post.stays(pre)
        &&& post.phase is Verbatim
    }

    /// Whether the work tree's contents are restored as they were: they are no
    /// text, or they are large and no fixer changed them.
    pub open spec fn restores_verbatim(&self, bytes: Seq<u8>) -> bool {
        !valid_utf8(bytes) || (bytes.len() >= LARGE_STASH_FILE_BYTES && self.fixer_entry() is None)
    }

    /// The work tree's text: as it was captured, or else as the stash has it.
    pub open spec fn work_text(&self, bytes: Option<Seq<u8>>) -> Option<Seq<char>> {
        let p = encode_utf8(self.path());
        if self.git.saved_worktree is Some && captured(self.git.saved_worktree->0@, p) is Some {
            captured(self.git.saved_worktree->0@, p)
        } else {
            readable(bytes)
        }
    }

    /// That a path is settled: the work tree's text is written at once where
    /// there is no fixer's text to merge it with, and else the merge is asked
    /// for.
    pub open spec fn settles(
        pre: PopStash,
        work: Option<Seq<char>>,
        base: Option<Seq<char>>,
        index: Option<Seq<char>>,
        fixer: Option<Seq<char>>,
        r: Popped,
    ) -> bool {
        if fixer is None && work is Some {
            &&& r matches Progress::Ask(action, post)
            &&& post.stays(pre)
            &&& post.phase == PopPhase::Write(newline_only(work, index))
            &&& PopStash::writes(pre, encode_utf8(work->0), action)
        } else {
            PopStash::merges(pre, work, base, index, fixer, r)
        }
    }

    /// That the merge is asked for, relative to the index text where there is
    /// one, else to `HEAD`'s, else to the empty text.
    pub open spec fn merges(
        pre: PopStash,
        work: Option<Seq<char>>,
        base: Option<Seq<char>>,
        index: Option<Seq<char>>,
        fixer: Option<Seq<char>>,
        r: Popped,
    ) -> bool {
        &&& r matches Progress::Ask(Action::Merge(b, f, w), post)
        &&& b@ == (if index is Some {
            index->0
        } else if base is Some {
            base->0
        } else {
            Seq::empty()
        })
        &&& opt_text(f) == fixer
        &&& opt_text(w) == work
        &&& post.stays(pre)
        &&& post.phase matches PopPhase::Merge(pw, pi, pf)
        &&& opt_text(pw) == work && opt_text(pi) == index && opt_text(pf) == fixer
    }

    /// That the paths of the stash entry of a name are asked for.
    pub open spec fn shows(git: Git, name: Seq<char>, r: Popped) -> bool {
        &&& r matches Progress::Ask(Action::ReadGit(c), post)
        &&& post.wf() && post.phase is Show
        &&& post.git == git
        &&& post.stash_ref@ == name
        &&& c.says(
            if git.stash_untracked {
                seq!["stash"@, "show"@, "--name-only"@, "-z"@, "--include-untracked"@, name]
            } else {
                seq!["stash"@, "show"@, "--name-only"@, "-z"@, name]
            },
        )
    }

    /// How the restoration goes on when it is told `reply`.
    pub open spec fn follows(pre: PopStash, reply: Reply, r: Popped) -> bool {
        match pre.phase {
            PopPhase::List => PopStash::shows(
                pre.git,
                if pre.git.stash_commit is Some {
                    stash_name(reply.text_or_empty(), pre.git.stash_commit->0@)
                } else {
                    "stash@{0}"@
                },
                r,
            ),
            PopPhase::Show => {
                &&& r matches Progress::Ask(Action::ReadGit(c), post)
                &&& post.wf() && post.phase is Deleted
                &&& post.git == pre.git && post.stash_ref == pre.stash_ref
                &&& texts(post.paths@) == admitted(
                    records(reply.text_or_empty()),
                    pre.git.stashed_paths,
                )
                &&& c.says(
                    seq!["diff"@, "--cached"@, "--name-only"@, "--diff-filter=D"@, "-z"@],
                )
            },
            PopPhase::Deleted => {
                &&& r matches Progress::Ask(Action::ReadGit(c), post)
                &&& post.wf() && post.phase is Changed
                &&& post.git == pre.git && post.stash_ref == pre.stash_ref && post.paths
                    == pre.paths
                &&& post.deleted@ == collected(spelled(records(reply.text_or_empty())))
                &&& c.says(seq!["diff"@, "--name-only"@, "--cached"@, "-z"@])
            },
            PopPhase::Changed => if pre.paths@.len() == 0 {
                PopStash::goes_on(pre, 0, false, r)
            } else {
                &&& r matches Progress::Ask(Action::ReadGit(c), post)
                &&& post.wf() && post.keeps(pre)
                &&& post.phase matches PopPhase::Staged(changed)
                &&& changed@ == collected(spelled(records(reply.text_or_empty())))
                &&& c.says(seq!["ls-files"@, "-s"@, "-z"@, "--"@] + texts(pre.paths@))
            },
            PopPhase::Staged(changed) => exists|mid: PopStash|
                {
                    &&& mid.git == pre.git && mid.stash_ref == pre.stash_ref
                    &&& mid.deleted == pre.deleted && mid.paths == pre.paths
                    &&& entries(mid.fixers@) == fixer_entries(
                        records(reply.text_or_empty()),
                        changed@,
                    )
                    &&& #[trigger] PopStash::goes_on(mid, 0, false, r)
                },
            PopPhase::AmongUntracked => if reply.ok() {
                &&& r matches Progress::Ask(Action::RunGitQuiet(c), post)
                &&& post.stays(pre)
                &&& post.phase is InIndex
                &&& c.says(seq!["cat-file"@, "-e"@, pre.blob("^2:"@)])
            } else {
                PopStash::goes_tracked(pre, r)
            },
            PopPhase::InIndex => if reply.ok() {
                PopStash::goes_tracked(pre, r)
            } else {
                &&& r matches Progress::Ask(Action::ReadGitBytes(c), post)
                &&& post.stays(pre)
                &&& post.phase is Untracked
                &&& c.says(seq!["cat-file"@, "-p"@, pre.blob("^3:"@)])
            },
            PopPhase::Untracked => match reply.bytes() {
                Some(bytes) => PopStash::writes_verbatim(pre, bytes, r),
                None => PopStash::goes_on(pre, pre.at + 1, true, r),
            },
            PopPhase::Verbatim => PopStash::goes_on(
                pre,
                pre.at + 1,
                pre.failed || !reply.ok(),
                r,
            ),
            PopPhase::Work => if reply.bytes() is Some && pre.restores_verbatim(
                reply.bytes()->0,
            ) {
                PopStash::writes_verbatim(pre, reply.bytes()->0, r)
            } else {
                &&& r matches Progress::Ask(Action::ReadGitBytes(c), post)
                &&& post.stays(pre)
                &&& post.phase matches PopPhase::Base(work)
                &&& opt_text(work) == pre.work_text(reply.bytes())
                &&& c.says(seq!["cat-file"@, "-p"@, pre.blob("^1:"@)])
            },
            PopPhase::Base(work) => {
                &&& r matches Progress::Ask(Action::ReadGitBytes(c), post)
                &&& post.stays(pre)
                &&& post.phase matches PopPhase::Index(w, base)
                &&& opt_text(w) == opt_text(work)
                &&& opt_text(base) == readable(reply.bytes())
                &&& c.says(seq!["cat-file"@, "-p"@, pre.blob("^2:"@)])
            },
            PopPhase::Index(work, base) => match pre.fixer_entry() {
                Some(entry) => {
                    &&& r matches Progress::Ask(Action::ReadGitBytes(c), post)
                    &&& post.stays(pre)
                    &&& post.phase matches PopPhase::Fixer(w, b, index)
                    &&& opt_text(w) == opt_text(work) && opt_text(b) == opt_text(base)
                    &&& opt_text(index) == readable(reply.bytes())
                    &&& c.says(seq!["cat-file"@, "-p"@, entry.oid])
                },
                None => PopStash::settles(
                    pre,
                    opt_text(work),
                    opt_text(base),
                    readable(reply.bytes()),
                    None,
                    r,
                ),
            },
            PopPhase::Fixer(work, base, index) => PopStash::settles(
                pre,
                opt_text(work),
                opt_text(base),
                opt_text(index),
                readable(reply.bytes()),
                r,
            ),
            PopPhase::Merge(work, index, fixer) => match reply.text() {
                None => PopStash::goes_on(pre, pre.at + 1, true, r),
                Some(merged) => {
                    &&& r matches Progress::Ask(action, post)
                    &&& post.stays(pre)
                    &&& post.phase matches PopPhase::Write(only)
                    &&& only == newline_only(opt_text(work), opt_text(index))
                    &&& PopStash::writes(
                        pre,
                        encode_utf8(
                            restored_text(
                                merged,
                                opt_text(fixer),
                                opt_text(work),
                                opt_text(index),
                            ),
                        ),
                        action,
                    )
                },
            },
            PopPhase::Write(only) => {
                let failed = pre.failed || !reply.ok();
                if !only && pre.fixer_entry() is Some {
                    let entry = pre.fixer_entry()->0;
                    &&& r matches Progress::Ask(Action::RunGit(c), post)
                    &&& post.wf() && post.keeps(pre) && post.at == pre.at && post.failed == failed
                    &&& post.phase is SetIndex
                    &&& c.is(
                        seq!["update-index"@, "--cacheinfo"@, in_octal(entry.mode as nat), entry.oid],
                        seq![encode_utf8(pre.path())],
                    )
                } else {
                    PopStash::goes_on(pre, pre.at + 1, failed, r)
                }
            },
            PopPhase::SetIndex => PopStash::goes_on(
                pre,
                pre.at + 1,
                pre.failed || !reply.ok(),
                r,
            ),
            PopPhase::Drop => {
                &&& r matches Progress::Done((git, Ok(())))
                &&& git == (Git {
                    saved_worktree: None,
                    stash_commit: None,
                    stashed_paths: None,
                    ..pre.git
                })
            },
        }
    }

    /// Git's name for the path at `at`, below a parent of the stash commit.
    fn blob_arg(&self, parent: &str, at: usize) -> (r: String)
        requires
            at < self.paths.len(),
        ensures
            r@ == self.stash_ref@ + parent@ + self.paths@[at as int]@,
    {
        concat3(self.stash_ref.as_str(), parent, self.paths[at].as_str())
    }

    /// Goes on with the paths from `from` on.
    fn go_on(self, from: usize, failed: bool) -> (r: Popped)
        requires
            from <= self.paths.len(),
        ensures
            PopStash::goes_on(self, from as int, failed, r),
    {
        let mut next: usize = from;
        while next < self.paths.len() && !self.git.stash_untracked && self.deleted.contains(
            &RepoPath::from_text(self.paths[next].as_str()),
        )
            invariant
                next <= self.paths@.len(),
                self.next_asked(from as int) == self.next_asked(next as int),
            decreases self.paths@.len() - next,
        {
            next += 1;
        }
        if next < self.paths.len() {
            if self.git.stash_untracked {
                let name = self.blob_arg("^3:", next);
                let c = Command::of(&["cat-file", "-e", name.as_str()]);
                Progress::Ask(
                    Action::RunGitQuiet(c),
                    PopStash { at: next, failed, phase: PopPhase::AmongUntracked, ..self },
                )
            } else {
                let name = self.blob_arg(":", next);
                let c = Command::of(&["cat-file", "-p", name.as_str()]);
                Progress::Ask(
                    Action::ReadGitBytes(c),
                    PopStash { at: next, failed, phase: PopPhase::Work, ..self },
                )
            }
        } else if failed {
            let name = self.stash_ref.clone();
            Progress::Done((self.git, Err(GitError::StashPreserved(name))))
        } else {
            let c = Command::of(&["stash", "drop", self.stash_ref.as_str()]);
            Progress::Ask(
                Action::RunGit(c),
                PopStash { at: next, failed, phase: PopPhase::Drop, ..self },
            )
        }
    }

    /// Goes on with a path that is no untracked file.
    fn go_tracked(self) -> (r: Popped)
        requires
            self.at < self.paths.len(),
        ensures
            PopStash::goes_tracked(self, r),
    {
        let path = RepoPath::from_text(self.paths[self.at].as_str());
        if self.deleted.contains(&path) {
            let from: usize = self.at + 1;
            let failed = self.failed;
            self.go_on(from, failed)
        } else {
            let name = self.blob_arg(":", self.at);
            let c = Command::of(&["cat-file", "-p", name.as_str()]);
            Progress::Ask(Action::ReadGitBytes(c), PopStash { phase: PopPhase::Work, ..self })
        }
    }

    /// Has some bytes written to the path being restored.
    fn write_verbatim(self, contents: Vec<u8>) -> (r: Popped)
        requires
            self.at < self.paths.len(),
        ensures
            PopStash::writes_verbatim(self, contents@, r),
    {
        let path = RepoPath::from_text(self.paths[self.at].as_str());
        Progress::Ask(
            Action::WriteFile(path, contents),
            PopStash { phase: PopPhase::Verbatim, ..self },
        )
    }

    /// Writes the work tree's text, or asks for the merge.
    fn settle(
        self,
        work: Option<String>,
        base: Option<String>,
        index: Option<String>,
        fixer: Option<String>,
    ) -> (r: Popped)
        requires
            self.wf(),
            self.on_tracked(),
        ensures
            PopStash::settles(
                self,
                opt_text(work),
                opt_text(base),
                opt_text(index),
                opt_text(fixer),
                r,
            ),
    {
        if let (None, Some(text)) = (&fixer, &work) {
            let only = is_newline_only(&work, &index);
            let path = RepoPath::from_text(self.paths[self.at].as_str());
            return Progress::Ask(
                Action::WriteFile(path, text.as_str().as_bytes_vec()),
                PopStash { phase: PopPhase::Write(only), ..self },
            );
        }
        let relative_to = match (&index, &base) {
            (Some(i), _) => i.clone(),
            (None, Some(b)) => b.clone(),
            (None, None) => String::new(),
        };
        let action = Action::Merge(relative_to, copy_opt(&fixer), copy_opt(&work));
        Progress::Ask(action, PopStash { phase: PopPhase::Merge(work, index, fixer), ..self })
    }

    /// Asks for the paths of the stash entry of a name.
    fn show(git: Git, stash_ref: String) -> (r: Popped)
        ensures
            PopStash::shows(git, stash_ref@, r),
    {
        let c = Command::of(&["stash", "show", "--name-only", "-z"]).with_if(
            git.stash_untracked,
            "--include-untracked",
        ).with(stash_ref.as_str());
        Progress::Ask(
            Action::ReadGit(c),
            PopStash {
                git,
                stash_ref,
                deleted: PathSet::new(),
                paths: Vec::new(),
                fixers: Vec::new(),
                at: 0,
                failed: false,
                phase: PopPhase::Show,
            },
        )
    }

    /// Goes on when the outcome of the action is known.
    pub fn resume(self, reply: Reply) -> (r: Popped)
        requires
            self.wf(),
        ensures
            PopStash::follows(self, reply, r),
    {
        let PopStash { git, stash_ref, deleted, paths, fixers, at, failed, phase } = self;
        match phase {
            PopPhase::List => {
                let list = reply.into_text_or_empty();
                let name = match &git.stash_commit {
                    Some(hash) => find_stash(list.as_str(), hash.as_str()),
                    None => "stash@{0}".to_owned(),
                };
                PopStash::show(git, name)
            },
            PopPhase::Show => {
                let shown = reply.into_text_or_empty();
                let paths = stashed_files(shown.as_str(), &git.stashed_paths);
                let c = Command::of(
                    &["diff", "--cached", "--name-only", "--diff-filter=D", "-z"],
                );
                Progress::Ask(
                    Action::ReadGit(c),
                    PopStash {
                        git,
                        stash_ref,
                        deleted,
                        paths,
                        fixers,
                        at,
                        failed,
                        phase: PopPhase::Deleted,
                    },
                )
            },
            PopPhase::Deleted => {
                let listed = reply.into_text_or_empty();
                let deleted = PathSet::collect(&paths_of(&split_records(listed.as_str())));
                let c = Command::of(&["diff", "--name-only", "--cached", "-z"]);
                Progress::Ask(
                    Action::ReadGit(c),
                    PopStash {
                        git,
                        stash_ref,
                        deleted,
                        paths,
                        fixers,
                        at,
                        failed,
                        phase: PopPhase::Changed,
                    },
                )
            },
            PopPhase::Changed => {
                let listed = reply.into_text_or_empty();
                let changed = PathSet::collect(&paths_of(&split_records(listed.as_str())));
                if paths.len() == 0 {
                    PopStash {
                        git,
                        stash_ref,
                        deleted,
                        paths,
                        fixers,
                        at,
                        failed,
                        phase: PopPhase::Changed,
                    }.go_on(0, false)
                } else {
                    let c = Command::of(&["ls-files", "-s", "-z", "--"]).with_all(&paths);
                    Progress::Ask(
                        Action::ReadGit(c),
                        PopStash {
                            git,
                            stash_ref,
                            deleted,
                            paths,
                            fixers,
                            at,
                            failed,
                            phase: PopPhase::Staged(changed),
                        },
                    )
                }
            },
            PopPhase::Staged(changed) => {
                let listed = reply.into_text_or_empty();
                let fixers = parse_fixer_entries(listed.as_str(), &changed);
                let mid = PopStash {
                    git,
                    stash_ref,
                    deleted,
                    paths,
                    fixers,
                    at,
                    failed,
                    phase: PopPhase::Staged(changed),
                };
                let ghost m = mid;
                let r = mid.go_on(0, false);
                proof {
                    assert(PopStash::goes_on(m, 0, false, r));
                }
                r
            },
            PopPhase::AmongUntracked => {
                let op = PopStash { git, stash_ref, deleted, paths, fixers, at, failed, phase };
                if reply.into_ok() {
                    let name = op.blob_arg("^2:", at);
                    let c = Command::of(&["cat-file", "-e", name.as_str()]);
                    Progress::Ask(
                        Action::RunGitQuiet(c),
                        PopStash { phase: PopPhase::InIndex, ..op },
                    )
                } else {
                    op.go_tracked()
                }
            },
            PopPhase::InIndex => {
                let op = PopStash { git, stash_ref, deleted, paths, fixers, at, failed, phase };
                if reply.into_ok() {
                    op.go_tracked()
                } else {
                    let name = op.blob_arg("^3:", at);
                    let c = Command::of(&["cat-file", "-p", name.as_str()]);
                    Progress::Ask(
                        Action::ReadGitBytes(c),
                        PopStash { phase: PopPhase::Untracked, ..op },
                    )
                }
            },
            PopPhase::Untracked => {
                let op = PopStash { git, stash_ref, deleted, paths, fixers, at, failed, phase };
                match reply.into_bytes() {
                    Some(bytes) => op.write_verbatim(bytes),
                    None => op.go_on(at + 1, true),
                }
            },
            PopPhase::Verbatim => {
                let op = PopStash { git, stash_ref, deleted, paths, fixers, at, failed, phase };
                op.go_on(at + 1, failed || !reply.into_ok())
            },
            PopPhase::Work => {
                let op = PopStash { git, stash_ref, deleted, paths, fixers, at, failed, phase };
                op.take_work(reply.into_bytes())
            },
            PopPhase::Base(work) => {
                let base = read_text(reply);
                let op = PopStash {
                    git,
                    stash_ref,
                    deleted,
                    paths,
                    fixers,
                    at,
                    failed,
                    phase: PopPhase::Index(work, base),
                };
                let name = op.blob_arg("^2:", at);
                let c = Command::of(&["cat-file", "-p", name.as_str()]);
                Progress::Ask(Action::ReadGitBytes(c), op)
            },
            PopPhase::Index(work, base) => {
                let index = read_text(reply);
                let path = RepoPath::from_text(paths[at].as_str());
                let found = match find_entry(&fixers, &path) {
                    Some(entry) => Some(entry.oid.clone()),
                    None => None,
                };
                match found {
                    Some(oid) => {
                        let c = Command::of(&["cat-file", "-p", oid.as_str()]);
                        Progress::Ask(
                            Action::ReadGitBytes(c),
                            PopStash {
                                git,
                                stash_ref,
                                deleted,
                                paths,
                                fixers,
                                at,
                                failed,
                                phase: PopPhase::Fixer(work, base, index),
                            },
                        )
                    },
                    None => PopStash {
                        git,
                        stash_ref,
                        deleted,
                        paths,
                        fixers,
                        at,
                        failed,
                        phase: PopPhase::SetIndex,
                    }.settle(work, base, index, None),
                }
            },
            PopPhase::Fixer(work, base, index) => {
                let fixer = read_text(reply);
                PopStash {
                    git,
                    stash_ref,
                    deleted,
                    paths,
                    fixers,
                    at,
                    failed,
                    phase: PopPhase::SetIndex,
                }.settle(work, base, index, fixer)
            },
            PopPhase::Merge(work, index, fixer) => match reply.into_text() {
                None => (PopStash {
                    git,
                    stash_ref,
                    deleted,
                    paths,
                    fixers,
                    at,
                    failed,
                    phase: PopPhase::Merge(work, index, fixer),
                }).go_on(at + 1, true),
                Some(merged) => {
                    let only = is_newline_only(&work, &index);
                    let text = settle_text(merged, &fixer, &work, &index);
                    let path = RepoPath::from_text(paths[at].as_str());
                    Progress::Ask(
                        Action::WriteFile(path, text.as_str().as_bytes_vec()),
                        PopStash {
                            git,
                            stash_ref,
                            deleted,
                            paths,
                            fixers,
                            at,
                            failed,
                            phase: PopPhase::Write(only),
                        },
                    )
                },
            },
            PopPhase::Write(only) => {
                let any_failed = failed || !reply.into_ok();
                let path = RepoPath::from_text(paths[at].as_str());
                let command = match find_entry(&fixers, &path) {
                    Some(entry) => {
                        if only {
                            None
                        } else {
                            let mode = write_octal(entry.mode);
                            let mut target: Vec<RepoPath> = Vec::new();
                            target.push(path);
                            let c = Command::of(
                                &["update-index", "--cacheinfo", mode.as_str(), entry.oid.as_str()],
                            ).with_paths(target);
                            Some(c)
                        }
                    },
                    None => None,
                };
                match command {
                    Some(c) => Progress::Ask(
                        Action::RunGit(c),
                        PopStash {
                            git,
                            stash_ref,
                            deleted,
                            paths,
                            fixers,
                            at,
                            failed: any_failed,
                            phase: PopPhase::SetIndex,
                        },
                    ),
                    None => PopStash {
                        git,
                        stash_ref,
                        deleted,
                        paths,
                        fixers,
                        at,
                        failed,
                        phase: PopPhase::Write(only),
                    }.go_on(at + 1, any_failed),
                }
            },
            PopPhase::SetIndex => {
                let op = PopStash { git, stash_ref, deleted, paths, fixers, at, failed, phase };
                op.go_on(at + 1, failed || !reply.into_ok())
            },
            PopPhase::Drop => Progress::Done(
                (
                    Git { saved_worktree: None, stash_commit: None, stashed_paths: None, ..git },
                    Ok(()),
                ),
            ),
        }
    }

    /// Takes the work tree's contents, as the stash has them.
    fn take_work(self, bytes: Option<Vec<u8>>) -> (r: Popped)
        requires
            self.wf(),
            self.phase is Work,
        ensures
            match bytes {
                Some(b) if self.restores_verbatim(b@) => PopStash::writes_verbatim(self, b@, r),
                _ => {
                    &&& r matches Progress::Ask(Action::ReadGitBytes(c), post)
                    &&& post.stays(self)
                    &&& post.phase matches PopPhase::Base(work)
                    &&& opt_text(work) == self.work_text(
                        match bytes {
                            Some(b) => Some(b@),
                            None => None,
                        },
                    )
                    &&& c.says(seq!["cat-file"@, "-p"@, self.blob("^1:"@)])
                },
            },
    {
        let path = RepoPath::from_text(self.paths[self.at].as_str());
        let text = match bytes {
            Some(b) => {
                let large = b.len() >= LARGE_STASH_FILE_BYTES;
                let text = text_from_utf8(copy_bytes(&b));
                if text.is_none() || (large && find_entry(&self.fixers, &path).is_none()) {
                    return self.write_verbatim(b);
                }
                text
            },
            None => None,
        };
        let saved = match &self.git.saved_worktree {
            Some(map) => find_captured(map, &path),
            None => None,
        };
        let work = match saved {
            Some(t) => Some(t),
            None => text,
        };
        let name = self.blob_arg("^1:", self.at);
        let c = Command::of(&["cat-file", "-p", name.as_str()]);
        Progress::Ask(Action::ReadGitBytes(c), PopStash { phase: PopPhase::Base(work), ..self })
    }
}

impl Git {
    /// Starts to restore what the stash put aside. Without a stash there is
    /// nothing to do.
    pub fn pop_stash(self) -> (r: Popped)
        ensures
            match self.stash {
                None => r == Popped::Done((self, Ok(()))),
                Some(_) => {
                    let git = Git { stash: None, ..self };
                    if self.stash_commit is Some {
                        &&& r matches Progress::Ask(Action::ReadGit(c), post)
                        &&& post.wf() && post.phase is List && post.git == git
                        &&& c.says(seq!["stash"@, "list"@, "--format=%H %gd"@])
                    } else {
                        PopStash::shows(git, "stash@{0}"@, r)
                    }
                },
            },
    {
        if self.stash.is_none() {
            return Progress::Done((self, Ok(())));
        }
        let git = Git { stash: None, ..self };
        if git.stash_commit.is_none() {
            return PopStash::show(git, "stash@{0}".to_owned());
        }
        let c = Command::of(&["stash", "list", "--format=%H %gd"]);
        Progress::Ask(
            Action::ReadGit(c),
            PopStash {
                git,
                stash_ref: String::new(),
                deleted: PathSet::new(),
                paths: Vec::new(),
                fixers: Vec::new(),
                at: 0,
                failed: false,
                phase: PopPhase::List,
            },
        )
    }
}

impl PopStash {
    /// How many steps are left before paths are restored.
    pub open spec fn steps_before_paths(&self) -> nat {
        match self.phase {
            PopPhase::List => 5,
            PopPhase::Show => 4,
            PopPhase::Deleted => 3,
            PopPhase::Changed => 2,
            PopPhase::Staged(_) => 1,
            _ => 0,
        }
    }

    /// How many paths are left to restore.
    pub open spec fn paths_left(&self) -> nat {
        if self.on_path() {
            (self.paths@.len() - self.at) as nat
        } else {
            0
        }
    }

    /// How many steps a path has left at most.
    pub open spec fn steps_on_path(&self) -> nat {
        match self.phase {
            PopPhase::AmongUntracked => 9,
            PopPhase::InIndex => 8,
            PopPhase::Untracked => 7,
            PopPhase::Work => 6,
            PopPhase::Base(_) => 5,
            PopPhase::Index(_, _) => 4,
            PopPhase::Fixer(_, _, _) => 3,
            PopPhase::Merge(_, _, _) => 2,
            PopPhase::Write(_) => 1,
            _ => 0,
        }
    }

    proof fn lemma_next_asked(&self, from: int)
        ensures
            self.next_asked(from) >= from,
        decreases self.paths@.len() - from,
    {
        if from < self.paths@.len() && !self.git.stash_untracked && self.is_deleted(from) {
            self.lemma_next_asked(from + 1);
        }
    }
}

/// Every step of a restoration leads to a sound state.
pub proof fn law_restoration_stays_sound(pre: PopStash, reply: Reply, r: Popped)
    requires
        pre.wf(),
        PopStash::follows(pre, reply, r),
    ensures
        r matches Progress::Ask(_, post) ==> post.wf(),
{
}

/// A restoration ends, whatever it is told: every step leaves less to do.
pub proof fn law_restoration_ends(pre: PopStash, reply: Reply, r: Popped)
    requires
        pre.wf(),
        PopStash::follows(pre, reply, r),
    ensures
        r matches Progress::Ask(_, post) ==> decreases_to!(
            pre.steps_before_paths(), pre.paths_left(), pre.steps_on_path()
            => post.steps_before_paths(), post.paths_left(), post.steps_on_path()
        ),
{
    pre.lemma_next_asked(pre.at + 1);
}

/// The stash entry is dropped only when no path failed, and success is
/// reported only after that.
pub proof fn law_stash_is_dropped_only_after_full_restoration(
    pre: PopStash,
    reply: Reply,
    r: Popped,
)
    requires
        pre.wf(),
        PopStash::follows(pre, reply, r),
    ensures
        r matches Progress::Ask(_, post) ==> post.phase is Drop ==> !pre.failed && !post.failed,
        r matches Progress::Done((_, Ok(()))) ==> pre.phase is Drop && !pre.failed,
{
}

/// A path that fails is remembered to the end: from then on the stash entry is
/// never dropped, and the restoration ends in an error that names it.
pub proof fn law_a_failed_path_preserves_the_stash(pre: PopStash, reply: Reply, r: Popped)
    requires
        pre.wf(),
        PopStash::follows(pre, reply, r),
        pre.failed || (pre.phase is Untracked && reply.bytes() is None) || (pre.phase is Merge
            && reply.text() is None) || ((pre.phase is Verbatim || pre.phase is Write
            || pre.phase is SetIndex) && !reply.ok()),
    ensures
        match r {
            Progress::Ask(_, post) => post.failed,
            Progress::Done((_, Err(GitError::StashPreserved(name)))) => name@ == pre.stash_ref@,
            Progress::Done(_) => false,
        },
{
}

/// Only paths staged as deleted are passed over, and only where no untracked
/// file can have their name.
pub proof fn law_only_staged_deletions_are_passed_over(op: PopStash, from: int, i: int)
    requires
        0 <= from <= i < op.next_asked(from),
    ensures
        i < op.paths@.len(),
        op.is_deleted(i),
        !op.git.stash_untracked,
    decreases op.paths@.len() - from,
{
    if from < op.paths@.len() && !op.git.stash_untracked && op.is_deleted(from) {
        if from < i {
            law_only_staged_deletions_are_passed_over(op, from + 1, i);
        }
    }
}

/// A path is left only once it was written, where its deletion is staged, or
/// with a failure that keeps the stash.
pub proof fn law_no_path_is_left_unrestored(pre: PopStash, reply: Reply, r: Popped)
    requires
        pre.wf(),
        PopStash::follows(pre, reply, r),
        pre.on_path(),
        r matches Progress::Ask(_, post) ==> post.at != pre.at || post.phase is Drop,
    ensures
        ({
            ||| pre.phase is Verbatim || pre.phase is Write || pre.phase is SetIndex
            ||| pre.is_deleted(pre.at as int)
            ||| r matches Progress::Ask(_, post) && post.failed
            ||| r matches Progress::Done((_, Err(_)))
        }),
{
}

/// Untracked files, and files that are no texts, are written byte by byte as
/// the stash holds them.
pub proof fn law_raw_files_are_restored_unchanged(pre: PopStash, reply: Reply, r: Popped)
    requires
        pre.wf(),
        PopStash::follows(pre, reply, r),
        reply.bytes() is Some,
        pre.phase is Untracked || (pre.phase is Work && !valid_utf8(reply.bytes()->0)),
    ensures
        r matches Progress::Ask(Action::WriteFile(path, contents), _) && path@ == encode_utf8(
            pre.path(),
        ) && contents@ == reply.bytes()->0,
{
}

/// A file that no fixer staged comes back as it was, byte for byte: at once
/// where it is no text or large, and otherwise once the texts that it was
/// based on are read, whatever they are. No other text was captured of it.
pub proof fn law_a_file_without_a_fix_comes_back(
    pre: PopStash,
    contents: Seq<u8>,
    work: Reply,
    first: Popped,
    base: Reply,
    second: Popped,
    index: Reply,
    third: Popped,
)
    requires
        pre.wf(),
        pre.phase is Work,
        pre.fixer_entry() is None,
        pre.work_text(Some(contents)) == readable(Some(contents)),
        work.bytes() == Some(contents),
        PopStash::follows(pre, work, first),
        !pre.restores_verbatim(contents) ==> {
            &&& first matches Progress::Ask(_, op) && PopStash::follows(op, base, second)
            &&& second matches Progress::Ask(_, op) && PopStash::follows(op, index, third)
        },
    ensures
        pre.restores_verbatim(contents) ==> (first matches Progress::Ask(action, _)
            && PopStash::writes(pre, contents, action)),
        !pre.restores_verbatim(contents) ==> (third matches Progress::Ask(action, _)
            && PopStash::writes(pre, contents, action)),
{
    if !pre.restores_verbatim(contents) {
        decode_utf8_encode_utf8(contents);
    }
}

/// A restoration that ends well leaves nothing on record to restore.
pub proof fn law_a_finished_restoration_is_forgotten(pre: PopStash, reply: Reply, r: Popped)
    requires
        PopStash::follows(pre, reply, r),
        pre.git.stash is None,
    ensures
        match r {
            Progress::Ask(_, post) => post.git.stash is None,
            Progress::Done((git, Ok(()))) => git.stash is None && git.stash_commit is None
                && git.stashed_paths is None && git.saved_worktree is None,
            Progress::Done((git, Err(_))) => git == pre.git,
        },
{
}

/// A tracked path that is staged as deleted is never written; only an
/// untracked file of that name is.
pub proof fn law_a_staged_deletion_is_not_undone(pre: PopStash, reply: Reply, r: Popped)
    requires
        pre.wf(),
        PopStash::follows(pre, reply, r),
        r matches Progress::Ask(Action::WriteFile(_, _), _),
        pre.is_deleted(pre.at as int),
    ensures
        pre.phase is Untracked,
{
}

/// Where only the newline at the end had changed, the index is left alone.
pub proof fn law_a_newline_change_leaves_the_index(pre: PopStash, reply: Reply, r: Popped)
    requires
        pre.wf(),
        PopStash::follows(pre, reply, r),
        pre.phase == PopPhase::Write(true),
    ensures
        r matches Progress::Ask(Action::RunGit(c), post) ==> post.phase is Drop,
{
}

/// Only the paths that were put aside are restored.
pub proof fn law_only_stashed_paths_are_restored(
    list: Seq<Seq<char>>,
    only: PathSet,
    i: int,
)
    requires
        0 <= i < admitted(list, Some(only)).len(),
    ensures
        names_path(only@, encode_utf8(admitted(list, Some(only))[i])),
        list.contains(admitted(list, Some(only))[i]),
    decreases list.len(),
{
    if list.len() > 0 {
        let rest = list.drop_last();
        let before = admitted(rest, Some(only));
        if i < before.len() {
            law_only_stashed_paths_are_restored(rest, only, i);
            let k = choose|k: int| 0 <= k < rest.len() && rest[k] == before[i];
            assert(list[k] == before[i]);
        } else {
            assert(list[list.len() - 1] == list.last());
        }
    }
}

/// Without the newlines at its end a text ends in none, and only newlines are
/// gone.
pub proof fn law_only_newlines_at_the_end_are_taken(s: Seq<char>, n: nat)
    requires
        s.len() > 0 ==> s.last() != '\n',
    ensures
        without_newlines(s + Seq::new(n, |i: int| '\n')) == s,
    decreases n,
{
    let x = s + Seq::new(n, |i: int| '\n');
    if n > 0 {
        assert(x.last() == '\n');
        assert(x.drop_last() == s + Seq::new((n - 1) as nat, |i: int| '\n'));
        law_only_newlines_at_the_end_are_taken(s, (n - 1) as nat);
    } else {
        assert(x == s);
    }
}

/// The merge stands wherever the work tree does not start with the index text,
/// with or without the newline that ends it: what a fixer staged never
/// replaces it there.
pub proof fn law_the_merge_stands_unless_the_work_extends_the_index(
    merged: Seq<char>,
    fixer: Option<Seq<char>>,
    work: Seq<char>,
    index: Seq<char>,
)
    requires
        !index.is_prefix_of(work),
        index.len() > 0 && index.last() == '\n' ==> !index.drop_last().is_prefix_of(work),
    ensures
        restored_text(merged, fixer, Some(work), Some(index)) == merged,
{
    if work.push('\n') == index {
        assert(index.drop_last() == work);
        assert(work.is_prefix_of(work));
    }
    if index.push('\n') == work {
        assert(index.is_prefix_of(work));
    }
}

/// The merge stands where one of the texts is missing, newlines at the end
/// aside.
pub proof fn law_the_merge_stands_where_a_text_is_missing(
    merged: Seq<char>,
    fixer: Option<Seq<char>>,
    work: Option<Seq<char>>,
    index: Option<Seq<char>>,
)
    ensures
        work is None || index is None ==> restored_text(merged, fixer, work, index) == merged,
        fixer is None && work is Some && index is Some && work->0.push('\n') != index->0
            && index->0.push('\n') != work->0 ==> restored_text(merged, fixer, work, index)
            == merged,
{
}

/// Beside a fixer that left the index text alone, the merge stands unless the
/// work tree starts with the index text, or lacks just the newline at its end.
pub proof fn law_beside_an_idle_fixer_the_merge_stands(
    merged: Seq<char>,
    work: Seq<char>,
    index: Seq<char>,
)
    requires
        !index.is_prefix_of(work),
        work.push('\n') == index ==> work.len() > 0 && work.last() == '\n',
    ensures
        restored_text(merged, Some(index), Some(work), Some(index)) == merged,
{
    if index.push('\n') == work {
        assert(index.is_prefix_of(work));
    }
}

/// Where the work tree lacks just the newline at the end of the index text,
/// what the fixer wrote is taken; it loses the newlines at its end, unless the
/// work tree ends with one itself.
pub proof fn law_a_missing_newline_is_kept_missing(
    merged: Seq<char>,
    fixer: Seq<char>,
    n: nat,
    work: Seq<char>,
)
    requires
        fixer.len() > 0 ==> fixer.last() != '\n',
    ensures
        ({
            let written = fixer + Seq::new(n, |i: int| '\n');
            let index = work.push('\n');
            let r = restored_text(merged, Some(written), Some(work), Some(index));
            &&& !(work.len() > 0 && work.last() == '\n') ==> r == fixer
            &&& work.len() > 0 && work.last() == '\n' && written != index ==> r == written
        }),
{
    let written = fixer + Seq::new(n, |i: int| '\n');
    let index = work.push('\n');
    assert(index.drop_last() == work);
    assert(!index.is_prefix_of(work));
    assert(work.is_prefix_of(work));
    assert(work.skip(work.len() as int) == Seq::<char>::empty());
    assert(written + Seq::<char>::empty() == written);
    law_only_newlines_at_the_end_are_taken(fixer, n);
}

/// Without a fixer, a newline that the work tree added or took away is added
/// to the merge or taken from it, and nothing else changes.
pub proof fn law_without_a_fixer_only_the_newline_is_settled(
    text: Seq<char>,
    n: nat,
    work: Seq<char>,
    index: Seq<char>,
)
    requires
        text.len() > 0 ==> text.last() != '\n',
        work.len() > 0 ==> work.last() != '\n',
        index.len() > 0 ==> index.last() != '\n',
    ensures
        restored_text(
            text + Seq::new(n, |i: int| '\n'),
            None,
            Some(work),
            Some(work.push('\n')),
        ) == text,
        restored_text(
            text + Seq::new(n, |i: int| '\n'),
            None,
            Some(index.push('\n')),
            Some(index),
        ) == (if n == 0 {
            text.push('\n')
        } else {
            text + Seq::new(n, |i: int| '\n')
        }),
{
    let merged = text + Seq::new(n, |i: int| '\n');
    law_only_newlines_at_the_end_are_taken(text, n);
    if n > 0 {
        assert(merged.last() == '\n');
    } else {
        assert(merged == text);
    }
}

/// The entry to restore is named by the first row whose first word is the
/// recorded commit; its second word is the name. Without such a row it is the
/// latest.
pub proof fn law_the_first_row_of_the_commit_names_the_entry(
    list: Seq<char>,
    hash: Seq<char>,
    i: int,
)
    requires
        0 <= i <= lines(list).len(),
        i < lines(list).len() ==> words(lines(list)[i]).len() >= 2 && words(lines(list)[i])[0]
            == hash,
        forall|k: int|
            0 <= k < i ==> words(#[trigger] lines(list)[k]).len() < 2 || words(lines(list)[k])[0]
                != hash,
    ensures
        stash_name(list, hash) == (if i < lines(list).len() {
            words(lines(list)[i])[1]
        } else {
            "stash@{0}"@
        }),
{
    let rows = lines(list);
    assert forall|k: int| 0 <= k < i implies entry_name(#[trigger] rows[k], hash) is None by {}
    if i < rows.len() {
        law_the_recorded_entry_is_restored(rows, hash, i);
    } else {
        lemma_no_row(rows, hash);
    }
}

proof fn lemma_no_row(rows: Seq<Seq<char>>, hash: Seq<char>)
    requires
        forall|k: int| 0 <= k < rows.len() ==> entry_name(#[trigger] rows[k], hash) is None,
    ensures
        first_entry_name(rows, hash) is None,
    decreases rows.len(),
{
    if rows.len() > 0 {
        assert(entry_name(rows[0], hash) is None);
        let rest = rows.drop_first();
        assert forall|k: int| 0 <= k < rest.len() implies entry_name(
            #[trigger] rest[k],
            hash,
        ) is None by {
            assert(rest[k] == rows[k + 1]);
        }
        lemma_no_row(rest, hash);
    }
}

/// Every path of the entry that was put aside is restored, in the order of the
/// entry, and every path where it is not known which were.
pub proof fn law_every_stashed_path_is_restored(list: Seq<Seq<char>>, only: PathSet)
    ensures
        admitted(list, None) == list,
        admitted(list, Some(only)) == list.filter(
            |t: Seq<char>| names_path(only@, encode_utf8(t)),
        ),
    decreases list.len(),
{
    reveal(Seq::filter);
    if list.len() > 0 {
        law_every_stashed_path_is_restored(list.drop_last(), only);
        assert(list.drop_last().push(list.last()) == list);
    }
}

/// The text captured last for a path is the one that counts; a path for which
/// none was captured has none.
pub proof fn law_the_last_captured_text_counts(
    list: Seq<(RepoPath, String)>,
    p: Seq<u8>,
    i: int,
)
    requires
        -1 <= i < list.len(),
        i >= 0 ==> same_path(list[i].0.raw@, p),
        forall|k: int| i < k < list.len() ==> !same_path((#[trigger] list[k]).0.raw@, p),
    ensures
        captured(list, p) == (if i >= 0 {
            Some(list[i].1@)
        } else {
            None
        }),
    decreases list.len(),
{
    if list.len() > 0 && i < list.len() - 1 {
        let rest = list.drop_last();
        assert(!same_path(list[list.len() - 1].0.raw@, p));
        assert forall|k: int| i < k < rest.len() implies !same_path(
            (#[trigger] rest[k]).0.raw@,
            p,
        ) by {
            assert(rest[k] == list[k]);
        }
        law_the_last_captured_text_counts(rest, p, i);
    }
}

/// The recorded commit's entry is shown, or the latest where no commit is
/// recorded, with untracked files where they were stashed.
pub proof fn law_the_recorded_entry_is_shown(pre: PopStash, told: Option<String>, r: Popped)
    requires
        pre.phase is List,
        PopStash::follows(pre, Reply::Text(told), r),
    ensures
        r matches Progress::Ask(Action::ReadGit(c), post) && {
            let name = if pre.git.stash_commit is None {
                "stash@{0}"@
            } else if told is None {
                stash_name(Seq::empty(), pre.git.stash_commit->0@)
            } else {
                stash_name(told->0@, pre.git.stash_commit->0@)
            };
            &&& post.git == pre.git && post.phase is Show && post.stash_ref@ == name
            &&& pre.git.stash_untracked ==> c.says(
                seq!["stash"@, "show"@, "--name-only"@, "-z"@, "--include-untracked"@, name],
            )
            &&& !pre.git.stash_untracked ==> c.says(
                seq!["stash"@, "show"@, "--name-only"@, "-z"@, name],
            )
        },
{
}

/// Before any path is restored git tells which paths the entry has, which are
/// staged as deleted, and which have staged changes. An entry without paths to
/// restore is dropped.
pub proof fn law_three_answers_come_before_the_paths(
    pre: PopStash,
    show: Option<String>,
    first: Popped,
    deleted: Option<String>,
    second: Popped,
    changed: Option<String>,
    third: Popped,
    p: Seq<u8>,
)
    requires
        pre.phase is Show,
        PopStash::follows(pre, Reply::Text(show), first),
        first matches Progress::Ask(_, op) && PopStash::follows(op, Reply::Text(deleted), second),
        second matches Progress::Ask(_, op) && PopStash::follows(op, Reply::Text(changed), third),
    ensures
        ({
            let shown = if show is Some {
                records(show->0@)
            } else {
                Seq::empty()
            };
            let gone = if deleted is Some {
                spelled(records(deleted->0@))
            } else {
                Seq::empty()
            };
            let staged = if changed is Some {
                spelled(records(changed->0@))
            } else {
                Seq::empty()
            };
            let wanted = match pre.git.stashed_paths {
                Some(only) => shown.filter(|t: Seq<char>| names_path(only@, encode_utf8(t))),
                None => shown,
            };
            let cached = seq!["diff"@, "--cached"@, "--name-only"@, "--diff-filter=D"@, "-z"@];
            &&& first matches Progress::Ask(Action::ReadGit(c), _) && c.says(cached)
            &&& second matches Progress::Ask(Action::ReadGit(c), _) && c.says(
                seq!["diff"@, "--name-only"@, "--cached"@, "-z"@],
            )
            &&& third matches Progress::Ask(action, op)
            &&& op.git == pre.git && op.stash_ref == pre.stash_ref
            &&& texts(op.paths@) == wanted
            &&& names_path(op.deleted@, p) <==> names_path(gone, p)
            &&& wanted.len() == 0 ==> {
                &&& action matches Action::RunGit(c)
                &&& op.phase is Drop && c.says(seq!["stash"@, "drop"@, pre.stash_ref@])
            }
            &&& wanted.len() > 0 ==> {
                &&& action matches Action::ReadGit(c)
                &&& c.says(seq!["ls-files"@, "-s"@, "-z"@, "--"@] + wanted)
                &&& op.phase matches PopPhase::Staged(set)
                &&& names_path(set@, p) <==> names_path(staged, p)
            }
        }),
{
    crate::text::law_a_nul_ends_a_record(Seq::empty(), Seq::empty());
    let none = Seq::<Seq<char>>::empty();
    assert(spelled(none) == Seq::<Seq<u8>>::empty());
    let shown = if show is Some {
        records(show->0@)
    } else {
        none
    };
    let gone = if deleted is Some {
        spelled(records(deleted->0@))
    } else {
        Seq::empty()
    };
    let staged = if changed is Some {
        spelled(records(changed->0@))
    } else {
        Seq::empty()
    };
    crate::paths::law_collected_names(gone, p);
    crate::paths::law_collected_names(staged, p);
    if let Some(only) = pre.git.stashed_paths {
        law_every_stashed_path_is_restored(shown, only);
    } else {
        law_every_stashed_path_is_restored(shown, pre.deleted);
    }
    if let Progress::Ask(_, op) = first {
        assert(texts(op.paths@).len() == op.paths@.len());
    }
}

/// What fixers staged is every listed entry with staged changes whose mode can
/// be read. Then the first path is asked about, with nothing failed so far.
pub proof fn law_fixes_are_the_staged_entries(
    pre: PopStash,
    staged: PathSet,
    told: Option<String>,
    r: Popped,
)
    requires
        pre.phase == PopPhase::Staged(staged),
        PopStash::follows(pre, Reply::Text(told), r),
    ensures
        r matches Progress::Ask(_, op) && op.git == pre.git && op.stash_ref == pre.stash_ref
            && op.deleted == pre.deleted && op.paths == pre.paths && !op.failed && entries(
            op.fixers@,
        ) == (if told is Some {
            fixer_entries(records(told->0@), staged@)
        } else {
            Seq::empty()
        }),
{
    crate::text::law_a_nul_ends_a_record(Seq::empty(), Seq::empty());
}

/// The path that is asked about next is not one staged as deleted, unless an
/// untracked file can have its name, and no path before it is left out that
/// is not.
pub proof fn law_the_next_path_is_asked_about(op: PopStash, from: int, i: int)
    requires
        0 <= from <= op.paths@.len(),
    ensures
        from <= op.next_asked(from) <= op.paths@.len(),
        op.git.stash_untracked ==> op.next_asked(from) == from,
        !op.git.stash_untracked && op.next_asked(from) < op.paths@.len() ==> !names_path(
            op.deleted@,
            encode_utf8(op.paths@[op.next_asked(from)]@),
        ),
        from <= i < op.next_asked(from) ==> names_path(op.deleted@, encode_utf8(op.paths@[i]@)),
    decreases op.paths@.len() - from,
{
    if from < op.paths@.len() && !op.git.stash_untracked && op.is_deleted(from) {
        law_the_next_path_is_asked_about(op, from + 1, i);
    }
}

/// Whether the step asks about the path at a place first: whether it is
/// untracked where it can be, or else what the work tree held at it. After the
/// last path the entry is dropped, or kept by name where something failed.
pub open spec fn asks_about(pre: PopStash, at: int, failed: bool, r: Popped) -> bool {
    if at < pre.paths@.len() {
        &&& r matches Progress::Ask(action, post)
        &&& post.at == at && post.failed == failed
        &&& post.git == pre.git && post.stash_ref == pre.stash_ref && post.paths == pre.paths
        &&& post.deleted == pre.deleted && post.fixers == pre.fixers
        &&& pre.git.stash_untracked ==> {
            &&& action matches Action::RunGitQuiet(c)
            &&& post.phase is AmongUntracked
            &&& c.says(seq!["cat-file"@, "-e"@, pre.stash_ref@ + "^3:"@ + pre.paths@[at]@])
        }
        &&& !pre.git.stash_untracked ==> {
            &&& action matches Action::ReadGitBytes(c)
            &&& post.phase is Work
            &&& c.says(seq!["cat-file"@, "-p"@, pre.stash_ref@ + ":"@ + pre.paths@[at]@])
        }
    } else if failed {
        r matches Progress::Done((git, Err(GitError::StashPreserved(name)))) && git == pre.git
            && name@ == pre.stash_ref@
    } else {
        &&& r matches Progress::Ask(Action::RunGit(c), post)
        &&& post.phase is Drop && post.git == pre.git
        &&& c.says(seq!["stash"@, "drop"@, pre.stash_ref@])
    }
}

/// A path that was written is followed by the next one, with the failure on
/// record where writing it failed; so is one whose contents cannot be read or
/// merged.
pub proof fn law_paths_are_restored_one_after_another(pre: PopStash, reply: Reply, r: Popped)
    requires
        pre.wf(),
        PopStash::follows(pre, reply, r),
        pre.phase is Verbatim || pre.phase is SetIndex || (pre.phase is Untracked && !(
        reply matches Reply::Bytes(Some(_)))) || (pre.phase is Merge && !(reply matches
            Reply::Text(Some(_)))),
    ensures
        asks_about(
            pre,
            pre.next_asked(pre.at + 1),
            pre.failed || pre.phase is Untracked || pre.phase is Merge || reply != Reply::Done(
                true,
            ),
            r,
        ),
{
}

/// A path is restored as an untracked file exactly if the entry has it among
/// untracked files and not in its index. Otherwise what the work tree held at
/// it is read, unless its deletion is staged.
pub proof fn law_untracked_files_are_told_apart(pre: PopStash, found: bool, r: Popped)
    requires
        pre.wf(),
        pre.phase is AmongUntracked || pre.phase is InIndex,
        PopStash::follows(pre, Reply::Done(found), r),
    ensures
        ({
            let path = pre.paths@[pre.at as int]@;
            let gone = names_path(pre.deleted@, encode_utf8(path));
            if pre.phase is AmongUntracked && found {
                &&& r matches Progress::Ask(Action::RunGitQuiet(c), post)
                &&& post.phase is InIndex && post.at == pre.at && post.failed == pre.failed
                &&& c.says(seq!["cat-file"@, "-e"@, pre.stash_ref@ + "^2:"@ + path])
            } else if pre.phase is InIndex && !found {
                &&& r matches Progress::Ask(Action::ReadGitBytes(c), post)
                &&& post.phase is Untracked && post.at == pre.at && post.failed == pre.failed
                &&& c.says(seq!["cat-file"@, "-p"@, pre.stash_ref@ + "^3:"@ + path])
            } else if gone {
                asks_about(pre, pre.next_asked(pre.at + 1), pre.failed, r)
            } else {
                &&& r matches Progress::Ask(Action::ReadGitBytes(c), post)
                &&& post.phase is Work && post.at == pre.at && post.failed == pre.failed
                &&& c.says(seq!["cat-file"@, "-p"@, pre.stash_ref@ + ":"@ + path])
            }
        }),
{
}

/// What the work tree held is written back at once where it is no text, or has
/// at least a million bytes and no fixer staged the file. Otherwise it is the
/// text to restore, unless another was captured before, and the texts of `HEAD`
/// and of the index are read next.
pub proof fn law_texts_are_read_before_they_are_merged(
    pre: PopStash,
    work: Option<Vec<u8>>,
    first: Popped,
    base: Option<Vec<u8>>,
    second: Popped,
)
    requires
        pre.wf(),
        pre.phase is Work,
        PopStash::follows(pre, Reply::Bytes(work), first),
        first matches Progress::Ask(_, op) ==> op.phase is Base ==> PopStash::follows(
            op,
            Reply::Bytes(base),
            second,
        ),
    ensures
        ({
            let path = pre.paths@[pre.at as int]@;
            let file = encode_utf8(path);
            let fixed = entry_of(entries(pre.fixers@), file) is Some;
            let saved = if pre.git.saved_worktree is Some {
                captured(pre.git.saved_worktree->0@, file)
            } else {
                None
            };
            let at_once = work is Some && (!valid_utf8(work->0@) || (work->0@.len() >= 1_000_000
                && !fixed));
            let text = if saved is Some {
                saved
            } else if work is Some {
                Some(decode_utf8(work->0@))
            } else {
                None
            };
            &&& at_once ==> {
                &&& first matches Progress::Ask(Action::WriteFile(to, contents), post)
                &&& to.raw@ == file && contents@ == work->0@
                &&& post.phase is Verbatim && post.at == pre.at && post.failed == pre.failed
            }
            &&& !at_once ==> {
                &&& first matches Progress::Ask(Action::ReadGitBytes(c), _)
                &&& c.says(seq!["cat-file"@, "-p"@, pre.stash_ref@ + "^1:"@ + path])
                &&& second matches Progress::Ask(Action::ReadGitBytes(d), post)
                &&& d.says(seq!["cat-file"@, "-p"@, pre.stash_ref@ + "^2:"@ + path])
                &&& post.at == pre.at && post.failed == pre.failed && post.fixers == pre.fixers
                &&& post.phase matches PopPhase::Index(w, b)
                &&& opt_text(w) == text
                &&& opt_text(b) == (if base is Some && valid_utf8(base->0@) {
                    Some(decode_utf8(base->0@))
                } else {
                    None
                })
            }
        }),
{
}

/// The blob that a fixer staged last for a path is read, by its name, once the
/// index text is known.
pub proof fn law_the_blob_of_the_fix_is_read(pre: PopStash, told: Option<Vec<u8>>, r: Popped)
    requires
        pre.wf(),
        pre.phase is Index,
        entry_of(entries(pre.fixers@), encode_utf8(pre.paths@[pre.at as int]@)) is Some,
        PopStash::follows(pre, Reply::Bytes(told), r),
    ensures
        ({
            let entry = entry_of(
                entries(pre.fixers@),
                encode_utf8(pre.paths@[pre.at as int]@),
            )->0;
            &&& r matches Progress::Ask(Action::ReadGitBytes(c), post)
            &&& c.says(seq!["cat-file"@, "-p"@, entry.oid])
            &&& post.at == pre.at && post.failed == pre.failed
            &&& post.phase matches PopPhase::Fixer(w, b, i)
            &&& opt_text(w) == opt_text(pre.phase->Index_0)
            &&& opt_text(b) == opt_text(pre.phase->Index_1)
            &&& opt_text(i) == (if told is Some && valid_utf8(told->0@) {
                Some(decode_utf8(told->0@))
            } else {
                None
            })
        }),
{
}

/// Once the fixer's text is known, the fixer's and the work tree's texts are
/// merged relative to the index text, or `HEAD`'s where that is missing, or
/// nothing where both are. Where the fixer has no text, the work tree's is
/// written as it is.
pub proof fn law_fix_and_work_are_merged_relative_to_the_index(
    pre: PopStash,
    told: Option<Vec<u8>>,
    r: Popped,
)
    requires
        pre.wf(),
        pre.phase is Fixer,
        PopStash::follows(pre, Reply::Bytes(told), r),
    ensures
        ({
            let work = opt_text(pre.phase->Fixer_0);
            let head = opt_text(pre.phase->Fixer_1);
            let index = opt_text(pre.phase->Fixer_2);
            let fix = if told is Some && valid_utf8(told->0@) {
                Some(decode_utf8(told->0@))
            } else {
                None
            };
            &&& r matches Progress::Ask(action, post)
            &&& post.at == pre.at && post.failed == pre.failed && post.fixers == pre.fixers
            &&& fix is None && work is Some ==> {
                &&& action matches Action::WriteFile(to, contents)
                &&& to.raw@ == encode_utf8(pre.paths@[pre.at as int]@)
                &&& contents@ == encode_utf8(work->0)
                &&& post.phase == PopPhase::Write(
                    index is Some && (work->0.push('\n') == index->0 || index->0.push('\n')
                        == work->0),
                )
            }
            &&& fix is Some || work is None ==> {
                &&& action matches Action::Merge(b, f, w)
                &&& b@ == (if index is Some {
                    index->0
                } else if head is Some {
                    head->0
                } else {
                    Seq::empty()
                })
                &&& opt_text(f) == fix && opt_text(w) == work
                &&& post.phase matches PopPhase::Merge(pw, pi, pf)
                &&& opt_text(pw) == work && opt_text(pi) == index && opt_text(pf) == fix
            }
        }),
{
}

/// The merge is written to the path that it was made for, settled by the three
/// texts. Then the fixer's blob is put into the index under its own mode,
/// unless only a newline at the end had changed; without a fix the next path
/// follows.
pub proof fn law_the_merge_is_written_and_the_fix_is_staged(
    pre: PopStash,
    merged: String,
    first: Popped,
    wrote: bool,
    second: Popped,
)
    requires
        pre.wf(),
        pre.phase is Merge,
        PopStash::follows(pre, Reply::Text(Some(merged)), first),
        first matches Progress::Ask(_, op) && PopStash::follows(op, Reply::Done(wrote), second),
    ensures
        ({
            let work = opt_text(pre.phase->Merge_0);
            let index = opt_text(pre.phase->Merge_1);
            let fix = opt_text(pre.phase->Merge_2);
            let file = encode_utf8(pre.paths@[pre.at as int]@);
            let entry = entry_of(entries(pre.fixers@), file);
            let newline = work is Some && index is Some && (work->0.push('\n') == index->0
                || index->0.push('\n') == work->0);
            &&& first matches Progress::Ask(Action::WriteFile(to, contents), _)
            &&& to.raw@ == file
            &&& contents@ == encode_utf8(restored_text(merged@, fix, work, index))
            &&& if entry is Some && !newline {
                &&& second matches Progress::Ask(Action::RunGit(c), post)
                &&& post.phase is SetIndex && post.at == pre.at
                &&& post.failed == (pre.failed || !wrote)
                &&& c.is(
                    seq![
                        "update-index"@,
                        "--cacheinfo"@,
                        in_octal(entry->0.mode as nat),
                        entry->0.oid,
                    ],
                    seq![file],
                )
            } else {
                asks_about(pre, pre.next_asked(pre.at + 1), pre.failed || !wrote, second)
            }
        }),
{
    if let Progress::Ask(_, op) = first {
        lemma_same_next(pre, op, pre.at + 1);
    }
}

proof fn lemma_same_next(a: PopStash, b: PopStash, from: int)
    requires
        a.paths == b.paths,
        a.deleted == b.deleted,
        a.git == b.git,
    ensures
        a.next_asked(from) == b.next_asked(from),
    decreases a.paths@.len() - from,
{
    if from < a.paths@.len() && !a.git.stash_untracked && a.is_deleted(from) {
        lemma_same_next(a, b, from + 1);
    }
}

/// When the entry was dropped, nothing is left on record, whether dropping it
/// went well or not; the captured index stays.
pub proof fn law_dropping_the_entry_ends_the_restoration(pre: PopStash, reply: Reply, r: Popped)
    requires
        pre.phase is Drop,
        PopStash::follows(pre, reply, r),
    ensures
        r matches Progress::Done((git, Ok(()))) && git.saved_worktree is None
            && git.stash_commit is None && git.stashed_paths is None && git.saved_index
            == pre.git.saved_index && git.libgit2 == pre.git.libgit2 && git.stash_untracked
            == pre.git.stash_untracked,
{
}

/// Without a fix the work tree's text is written as soon as the index text is
/// known, whatever that is. Only where the work tree's text is missing too is
/// the merge asked for, without either.
pub proof fn law_without_a_fix_the_work_is_written(pre: PopStash, told: Option<Vec<u8>>, r: Popped)
    requires
        pre.wf(),
        pre.phase is Index,
        entry_of(entries(pre.fixers@), encode_utf8(pre.paths@[pre.at as int]@)) is None,
        PopStash::follows(pre, Reply::Bytes(told), r),
    ensures
        ({
            let work = opt_text(pre.phase->Index_0);
            let head = opt_text(pre.phase->Index_1);
            let index = if told is Some && valid_utf8(told->0@) {
                Some(decode_utf8(told->0@))
            } else {
                None
            };
            &&& r matches Progress::Ask(action, post)
            &&& post.at == pre.at && post.failed == pre.failed && post.fixers == pre.fixers
            &&& work is Some ==> {
                &&& action matches Action::WriteFile(to, contents)
                &&& to.raw@ == encode_utf8(pre.paths@[pre.at as int]@)
                &&& contents@ == encode_utf8(work->0)
            }
            &&& work is None ==> {
                &&& action matches Action::Merge(b, None, None)
                &&& b@ == (if index is Some {
                    index->0
                } else if head is Some {
                    head->0
                } else {
                    Seq::empty()
                })
                &&& post.phase matches PopPhase::Merge(None, i, None)
                &&& opt_text(i) == index
            }
        }),
{
}

/// While paths are restored, everything else stays: the repository, the entry,
/// the paths with their deletions, and what fixers staged.
pub proof fn law_what_is_known_stays_while_paths_are_restored(
    pre: PopStash,
    reply: Reply,
    r: Popped,
)
    requires
        pre.wf(),
        PopStash::follows(pre, reply, r),
        !(pre.phase is List || pre.phase is Show || pre.phase is Deleted || pre.phase is Changed
            || pre.phase is Staged || pre.phase is Drop),
    ensures
        match r {
            Progress::Ask(_, post) => {
                &&& post.git == pre.git && post.stash_ref == pre.stash_ref
                &&& post.deleted == pre.deleted && post.paths == pre.paths
                &&& post.fixers == pre.fixers
                &&& post.phase is Drop || post.at >= pre.at
                &&& pre.failed ==> post.failed
            },
            Progress::Done((git, _)) => git == pre.git,
        },
{
    pre.lemma_next_asked(pre.at + 1);
}

} // verus!
