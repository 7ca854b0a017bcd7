use hk::git::{Git, GitError, StashType};
use hk::index::IndexEntry;
use hk::paths::{PathSet, RepoPath};
use hk::unstash::{
    find_captured, find_stash, is_newline_only, settle_text, stashed_files, PopStash, Popped,
    LARGE_STASH_FILE_BYTES,
};
use hk::work::{Action, Command, Progress, Reply};

fn git(stash_untracked: bool) -> Git {
    Git {
        libgit2: false,
        stash_untracked,
        stash_backup_count: 0,
        stash: Some(StashType::Git),
        stash_commit: Some("h1".to_string()),
        stashed_paths: None,
        saved_index: None,
        saved_worktree: None,
    }
}

fn text(s: &str) -> Reply {
    Reply::Text(Some(s.to_string()))
}

fn bytes(s: &str) -> Reply {
    Reply::Bytes(Some(s.as_bytes().to_vec()))
}

fn line(c: &Command) -> Vec<String> {
    let mut all = c.args.clone();
    all.extend(c.paths.iter().map(|p| p.to_text().unwrap()));
    all
}

fn ask(p: Popped) -> (Action, PopStash) {
    match p {
        Progress::Ask(a, op) => (a, op),
        Progress::Done((_, out)) => panic!("{out:?}"),
    }
}

fn command(p: Popped) -> (Vec<String>, PopStash) {
    match ask(p) {
        (
            Action::ReadGit(c)
            | Action::RunGit(c)
            | Action::RunGitQuiet(c)
            | Action::ReadGitBytes(c),
            op,
        ) => (line(&c), op),
        (other, _) => panic!("{other:?}"),
    }
}

fn write(p: Popped) -> (String, Vec<u8>, PopStash) {
    match ask(p) {
        (Action::WriteFile(path, contents), op) => (path.to_text().unwrap(), contents, op),
        (other, _) => panic!("{other:?}"),
    }
}

fn end(p: Popped) -> (Git, Result<(), GitError>) {
    match p {
        Progress::Done(out) => out,
        Progress::Ask(a, _) => panic!("{a:?}"),
    }
}

/// Goes up to the first path: what is shown, deleted, changed and staged.
fn first_path(git: Git, show: &str, deleted: &str, changed: &str, staged: &str) -> Popped {
    let (c, op) = command(git.pop_stash());
    assert_eq!(c, ["stash", "list", "--format=%H %gd"]);
    let (_, op) = command(op.resume(text("h0 stash@{0}\nh1 stash@{1}\n")));
    let (c, op) = command(op.resume(text(show)));
    assert_eq!(
        c,
        ["diff", "--cached", "--name-only", "--diff-filter=D", "-z"]
    );
    let (c, op) = command(op.resume(text(deleted)));
    assert_eq!(c, ["diff", "--name-only", "--cached", "-z"]);
    let (c, op) = command(op.resume(text(changed)));
    assert_eq!(c[..4], ["ls-files", "-s", "-z", "--"]);
    op.resume(text(staged))
}

/// Answers the questions for the texts of one path, up to the write.
fn merged(start: Popped, base: &str, index: &str, fixer: &str, merge: &str) -> Popped {
    let (_, op) = command(start);
    let (_, op) = command(op.resume(bytes(base)));
    let (_, op) = command(op.resume(bytes(index)));
    let (_, op) = ask(op.resume(bytes(fixer)));
    op.resume(text(merge))
}

#[test]
fn nothing_is_restored_without_a_stash() {
    let mut none = git(true);
    none.stash = None;
    let (git, out) = end(none.pop_stash());
    assert!(out.is_ok());
    assert_eq!(git.stash_commit.as_deref(), Some("h1"));
}

#[test]
fn the_entry_of_the_recorded_commit_is_restored() {
    assert_eq!(find_stash("h0 stash@{0}\nh1 stash@{1}\n", "h1"), "stash@{1}");
    assert_eq!(find_stash("h1 stash@{4} more\nh1 stash@{5}\n", "h1"), "stash@{4}");
    assert_eq!(find_stash("h1\nh0 stash@{0}\n", "h1"), "stash@{0}");
    assert_eq!(find_stash("", "h1"), "stash@{0}");
    let mut unrecorded = git(true);
    unrecorded.stash_commit = None;
    let (c, _) = command(unrecorded.pop_stash());
    assert_eq!(
        c,
        ["stash", "show", "--name-only", "-z", "--include-untracked", "stash@{0}"]
    );
}

#[test]
fn only_paths_that_were_put_aside_are_restored() {
    let only = PathSet::collect(&vec![RepoPath::from_text("b"), RepoPath::from_text("c")]);
    assert_eq!(stashed_files("a\0b\0c\0", &Some(only)), ["b", "c"]);
    assert_eq!(stashed_files("a\0\0b\0", &None), ["a", "b"]);
}

#[test]
fn a_changed_file_is_merged_and_its_fix_is_staged() {
    let start = first_path(
        git(false),
        "a\0",
        "",
        "a\0",
        "100755 beef 0\ta\0",
    );
    let (c, op) = command(start);
    assert_eq!(c, ["cat-file", "-p", "stash@{1}:a"]);
    let (c, op) = command(op.resume(bytes("one\nwork\n")));
    assert_eq!(c, ["cat-file", "-p", "stash@{1}^1:a"]);
    let (c, op) = command(op.resume(bytes("one\n")));
    assert_eq!(c, ["cat-file", "-p", "stash@{1}^2:a"]);
    let (c, op) = command(op.resume(bytes("one\nindex\n")));
    assert_eq!(c, ["cat-file", "-p", "beef"]);
    let (a, op) = ask(op.resume(bytes("ONE\nindex\n")));
    let Action::Merge(base, fixer, work) = a else {
        panic!("no merge");
    };
    assert_eq!(base, "one\nindex\n");
    assert_eq!(fixer.as_deref(), Some("ONE\nindex\n"));
    assert_eq!(work.as_deref(), Some("one\nwork\n"));
    let (path, contents, op) = write(op.resume(text("ONE\nwork\n")));
    assert_eq!((path.as_str(), contents.as_slice()), ("a", "ONE\nwork\n".as_bytes()));
    let (c, op) = command(op.resume(Reply::Done(true)));
    assert_eq!(c, ["update-index", "--cacheinfo", "100755", "beef", "a"]);
    let (c, op) = command(op.resume(Reply::Done(true)));
    assert_eq!(c, ["stash", "drop", "stash@{1}"]);
    let (git, out) = end(op.resume(Reply::Done(false)));
    assert!(out.is_ok());
    assert!(git.stash.is_none() && git.stash_commit.is_none() && git.stashed_paths.is_none());
}

#[test]
fn an_unstaged_change_of_the_last_line_is_kept() {
    let mut unrecorded = git(false);
    unrecorded.stash_commit = None;
    let (c, op) = command(unrecorded.pop_stash());
    assert_eq!(c, ["stash", "show", "--name-only", "-z", "stash@{0}"]);
    let (_, op) = command(op.resume(text("f\0")));
    let (_, op) = command(op.resume(text("")));
    let (_, op) = command(op.resume(text("f\0")));
    let (_, op) = command(op.resume(text("100644 bb 0\tf\0")));
    let (_, op) = command(op.resume(bytes("ab\n")));
    let (_, op) = command(op.resume(bytes("x\n")));
    let (_, op) = command(op.resume(bytes("a\n")));
    let (a, op) = ask(op.resume(bytes("a\n")));
    let Action::Merge(base, fixer, work) = a else {
        panic!("no merge");
    };
    assert_eq!((base.as_str(), fixer.as_deref()), ("a\n", Some("a\n")));
    let (path, contents, op) = write(op.resume(Reply::Text(work)));
    assert_eq!((path.as_str(), contents.as_slice()), ("f", "ab\n".as_bytes()));
    let (_, op) = command(op.resume(Reply::Done(true)));
    let (_, op) = command(op.resume(Reply::Done(true)));
    let (_, out) = end(op.resume(Reply::Done(true)));
    assert!(out.is_ok());
}

#[test]
fn a_file_without_a_fix_comes_back_as_it_was() {
    for contents in ["a", "a\n", "", "\n\n", "née\n"] {
        for index in ["a\n", "a", "", "\n", "other"] {
            let (_, op) = command(first_path(git(false), "a\0", "", "", ""));
            let (_, op) = command(op.resume(bytes(contents)));
            let (_, op) = command(op.resume(bytes("base")));
            let (path, written, op) = write(op.resume(bytes(index)));
            assert_eq!((path.as_str(), written.as_slice()), ("a", contents.as_bytes()));
            let (c, op) = command(op.resume(Reply::Done(true)));
            assert_eq!(c, ["stash", "drop", "stash@{1}"]);
            let (_, out) = end(op.resume(Reply::Done(true)));
            assert!(out.is_ok());
        }
    }
}

#[test]
fn a_fix_that_cannot_be_read_does_not_touch_the_file() {
    let start = first_path(git(false), "a\0", "", "a\0", "100644 beef 0\ta\0");
    let (_, op) = command(start);
    let (_, op) = command(op.resume(bytes("work\n")));
    let (_, op) = command(op.resume(bytes("base\n")));
    let (_, op) = command(op.resume(bytes("index\n")));
    let (_, written, op) = write(op.resume(Reply::Bytes(None)));
    assert_eq!(written, b"work\n");
    let (c, _) = command(op.resume(Reply::Done(true)));
    assert_eq!(c, ["update-index", "--cacheinfo", "100644", "beef", "a"]);
}

#[test]
fn work_that_cannot_be_read_is_for_the_merge() {
    let (_, op) = command(first_path(git(false), "a\0", "", "", ""));
    let (_, op) = command(op.resume(Reply::Bytes(None)));
    let (_, op) = command(op.resume(bytes("base\n")));
    let (a, op) = ask(op.resume(Reply::Bytes(None)));
    let Action::Merge(base, None, None) = a else {
        panic!("no merge");
    };
    assert_eq!(base, "base\n");
    let (_, written, _) = write(op.resume(text("base\n")));
    assert_eq!(written, b"base\n");
}

#[test]
fn the_captured_text_counts_more_than_the_stashed_one() {
    let mut captured = git(false);
    captured.saved_worktree = Some(vec![
        (RepoPath::from_text("a"), "old".to_string()),
        (RepoPath::from_text("a"), "captured".to_string()),
    ]);
    assert_eq!(
        find_captured(
            captured.saved_worktree.as_ref().unwrap(),
            &RepoPath::from_text("./a")
        ),
        None
    );
    let start = first_path(captured, "a\0", "", "", "");
    let (_, op) = command(start);
    let (_, op) = command(op.resume(bytes("stashed")));
    let (_, op) = command(op.resume(Reply::Bytes(None)));
    let (_, contents, op) = write(op.resume(Reply::Bytes(None)));
    assert_eq!(contents, b"captured");
    let (c, _) = command(op.resume(Reply::Done(true)));
    assert_eq!(c[..2], ["stash", "drop"]);
}

#[test]
fn a_file_that_is_no_text_is_restored_as_it_was() {
    let start = first_path(git(false), "a\0b\0", "", "a\0", "100644 beef 0\ta\0");
    let (_, op) = command(start);
    let raw = vec![0xff, 0x00, 0x41];
    let (path, contents, op) = write(op.resume(Reply::Bytes(Some(raw.clone()))));
    assert_eq!((path.as_str(), contents), ("a", raw));
    let (c, _) = command(op.resume(Reply::Done(true)));
    assert_eq!(c, ["cat-file", "-p", "stash@{1}:b"]);
}

#[test]
fn a_large_file_is_merged_only_where_a_fixer_changed_it() {
    let large = vec![b'x'; LARGE_STASH_FILE_BYTES];
    let start = first_path(git(false), "a\0", "", "", "100644 beef 0\ta\0");
    let (_, op) = command(start);
    let (_, contents, _) = write(op.resume(Reply::Bytes(Some(large.clone()))));
    assert_eq!(contents, large);

    let start = first_path(git(false), "a\0", "", "a\0", "100644 beef 0\ta\0");
    let (_, op) = command(start);
    let (c, _) = command(op.resume(Reply::Bytes(Some(large))));
    assert_eq!(c, ["cat-file", "-p", "stash@{1}^1:a"]);

    let start = first_path(git(false), "a\0", "", "", "");
    let (_, op) = command(start);
    let small = vec![b'x'; LARGE_STASH_FILE_BYTES - 1];
    let (c, _) = command(op.resume(Reply::Bytes(Some(small))));
    assert_eq!(c, ["cat-file", "-p", "stash@{1}^1:a"]);
}

#[test]
fn a_staged_deletion_is_kept() {
    let start = first_path(git(false), "gone\0a\0", "gone\0", "", "");
    let (c, _) = command(start);
    assert_eq!(c, ["cat-file", "-p", "stash@{1}:a"]);
    let start = first_path(git(false), "gone\0", "gone\0", "", "");
    let (c, _) = command(start);
    assert_eq!(c, ["stash", "drop", "stash@{1}"]);
}

#[test]
fn an_untracked_file_is_restored_though_its_deletion_is_staged() {
    let start = first_path(git(true), "u\0", "u\0", "", "");
    let (c, op) = command(start);
    assert_eq!(c, ["cat-file", "-e", "stash@{1}^3:u"]);
    let (c, op) = command(op.resume(Reply::Done(true)));
    assert_eq!(c, ["cat-file", "-e", "stash@{1}^2:u"]);
    let (c, op) = command(op.resume(Reply::Done(false)));
    assert_eq!(c, ["cat-file", "-p", "stash@{1}^3:u"]);
    let (path, contents, op) = write(op.resume(bytes("u!")));
    assert_eq!((path.as_str(), contents.as_slice()), ("u", "u!".as_bytes()));
    let (c, _) = command(op.resume(Reply::Done(true)));
    assert_eq!(c, ["stash", "drop", "stash@{1}"]);
}

#[test]
fn a_file_of_the_index_is_not_untracked() {
    let start = first_path(git(true), "u\0", "u\0", "", "");
    let (_, op) = command(start);
    let (_, op) = command(op.resume(Reply::Done(true)));
    let (c, _) = command(op.resume(Reply::Done(true)));
    assert_eq!(c, ["stash", "drop", "stash@{1}"]);
    let start = first_path(git(true), "u\0", "", "", "");
    let (_, op) = command(start);
    let (c, _) = command(op.resume(Reply::Done(false)));
    assert_eq!(c, ["cat-file", "-p", "stash@{1}:u"]);
}

#[test]
fn a_failure_keeps_the_stash() {
    // An untracked file that cannot be read, then a file that cannot be written.
    let start = first_path(git(true), "u\0v\0", "", "", "");
    let (_, op) = command(start);
    let (_, op) = command(op.resume(Reply::Done(true)));
    let (_, op) = command(op.resume(Reply::Done(false)));
    let (c, op) = command(op.resume(Reply::Bytes(None)));
    assert_eq!(c, ["cat-file", "-e", "stash@{1}^3:v"]);
    let (_, op) = command(op.resume(Reply::Done(false)));
    let (_, _, op) = write(op.resume(Reply::Bytes(Some(vec![0xff]))));
    let (git, out) = end(op.resume(Reply::Done(true)));
    let Err(e) = out else {
        panic!("restored");
    };
    assert!(matches!(e, GitError::StashPreserved(ref name) if name == "stash@{1}"));
    assert_eq!(
        e.message().unwrap(),
        "Stash restoration failed - stash preserved at stash@{1}"
    );
    assert_eq!(git.stash_commit.as_deref(), Some("h1"));
    assert!(git.stash.is_none());
}

#[test]
fn a_failed_write_or_index_update_keeps_the_stash() {
    for (wrote, staged) in [(false, true), (true, false)] {
        let start = first_path(git(false), "a\0", "", "a\0", "100644 beef 0\ta\0");
        let (_, op) = command(start);
        let after = merged(op.resume(bytes("w")), "b", "i", "f", "m");
        let (_, _, op) = write(after);
        let (_, op) = command(op.resume(Reply::Done(wrote)));
        let (_, out) = end(op.resume(Reply::Done(staged)));
        assert!(matches!(out, Err(GitError::StashPreserved(_))));
    }
}

#[test]
fn a_missing_merge_keeps_the_stash() {
    let start = first_path(git(false), "a\0", "", "a\0", "100644 beef 0\ta\0");
    let (_, op) = command(start);
    let (_, op) = command(op.resume(bytes("w")));
    let (_, op) = command(op.resume(bytes("b")));
    let (_, op) = command(op.resume(bytes("i")));
    let (_, op) = ask(op.resume(bytes("f")));
    let (_, out) = end(op.resume(Reply::Text(None)));
    assert!(matches!(out, Err(GitError::StashPreserved(_))));
}

#[test]
fn a_newline_change_leaves_the_index_alone() {
    let start = first_path(git(false), "a\0", "", "a\0", "100644 beef 0\ta\0");
    let (_, op) = command(start);
    let after = merged(op.resume(bytes("x")), "x\n", "x\n", "X\n", "X\n");
    let (_, contents, op) = write(after);
    assert_eq!(contents, b"X");
    let (c, _) = command(op.resume(Reply::Done(true)));
    assert_eq!(c, ["stash", "drop", "stash@{1}"]);
}

fn settled(merged: &str, fixer: Option<&str>, work: Option<&str>, index: Option<&str>) -> String {
    let own = |s: Option<&str>| s.map(|t| t.to_string());
    settle_text(merged.to_string(), &own(fixer), &own(work), &own(index))
}

#[test]
fn unchanged_work_takes_what_the_fixer_wrote() {
    assert_eq!(settled("m", Some("fixed\n"), Some("i\n"), Some("i\n")), "fixed\n");
    assert_eq!(settled("m", Some("fixed\n"), Some(""), Some("")), "fixed\n");
}

#[test]
fn what_was_added_at_the_end_follows_the_fixer() {
    assert_eq!(
        settled("m", Some("I\n"), Some("i\nmore\n"), Some("i\n")),
        "I\nmore\n"
    );
    assert_eq!(settled("m", Some("I"), Some("i\n"), Some("i")), "I\n");
    assert_eq!(settled("m", Some("I\n"), Some("i\n\n"), Some("i\n")), "I\n\n");
    // The newline before the addition may be missing.
    assert_eq!(settled("m", Some("I\n"), Some("imore"), Some("i\n")), "I\nmore");
    assert_eq!(settled("m", Some("A\n"), Some("ab\n"), Some("a\n")), "A\nb\n");
    assert_eq!(settled("m", Some("f\n"), Some("a\n"), Some("a\n\n")), "f\n");
    // A fixer that changed nothing has no say in the last line.
    assert_eq!(settled("ab\n", Some("a\n"), Some("ab\n"), Some("a\n")), "ab\n");
    assert_eq!(settled("a\n", Some("a\n\n"), Some("a\n"), Some("a\n\n")), "a\n");
    assert_eq!(settled("m", Some("a\n"), Some("a"), Some("a\n")), "a");
    assert_eq!(settled("m", Some("I"), Some("changed"), Some("i")), "m");
    assert_eq!(settled("m", None, Some("i\nmore"), Some("i\n")), "m");
    assert_eq!(settled("m", Some("I"), None, Some("i")), "m");
    assert_eq!(settled("m", Some("I"), Some("i"), None), "m");
}

#[test]
fn a_newline_at_the_end_stays_as_the_work_tree_has_it() {
    assert_eq!(settled("m", Some("I"), Some("i\n"), Some("i")), "I\n");
    assert_eq!(settled("m\n", None, Some("i\n"), Some("i")), "m\n");
    assert_eq!(settled("m", None, Some("i\n"), Some("i")), "m\n");
    assert_eq!(settled("m\n\n", None, Some("i"), Some("i\n")), "m");
    assert_eq!(settled("m", Some("I\n\n"), Some("i"), Some("i\n")), "I");
    // One of two newlines was taken away: that is for the merge.
    assert_eq!(settled("m\n", Some("i\n\n"), Some("i\n"), Some("i\n\n")), "m\n");
    // Both end with a newline: nothing to take away or to add.
    assert_eq!(settled("m\n", None, Some("i\n\n"), Some("i\n")), "m\n");
}

#[test]
fn newline_changes_are_told_from_others() {
    let own = |s: &str| Some(s.to_string());
    assert!(is_newline_only(&own("a"), &own("a\n")));
    assert!(is_newline_only(&own("a\n"), &own("a")));
    assert!(is_newline_only(&own(""), &own("\n")));
    assert!(!is_newline_only(&own("a"), &own("a")));
    assert!(!is_newline_only(&own("a"), &own("b\n")));
    assert!(!is_newline_only(&own("a"), &own("a\n\n")));
    assert!(!is_newline_only(&None, &own("\n")));
}

#[test]
fn index_entries_are_compared_by_path() {
    let e = IndexEntry {
        mode: 0o100644,
        oid: "1".to_string(),
        path: RepoPath::from_text("x"),
    };
    let list = vec![
        e,
        IndexEntry {
            mode: 0o100755,
            oid: "2".to_string(),
            path: RepoPath::from_text("x/"),
        },
    ];
    let found = hk::index::find_entry(&list, &RepoPath::from_text("x")).unwrap();
    assert_eq!(found.oid, "2");
    assert!(hk::index::find_entry(&list, &RepoPath::from_text("y")).is_none());
}
