use hk::git::{is_zero_sha, Git, GitError, StashMethod, StashType};
use hk::paths::{PathSet, RepoPath};
use hk::patches::{
    names_patch, new_patch_file_name, patch_file_name, repo_name, rotate_patch_files, show_patch,
};
use hk::stash::{StashOp, StashOutcome, Stashed};
use hk::status::{classify, parse_porcelain, GitStatus};
use hk::work::{Action, Command, PatchEntry, Presence, Progress, Reply};

const HERE: Presence = Presence {
    target: true,
    entry: true,
};
const BROKEN_LINK: Presence = Presence {
    target: false,
    entry: true,
};

fn git(libgit2: bool, stash_untracked: bool, backups: usize) -> Git {
    Git {
        libgit2,
        stash_untracked,
        stash_backup_count: backups,
        stash: None,
        stash_commit: None,
        stashed_paths: None,
        saved_index: None,
        saved_worktree: None,
    }
}

fn status(output: &str) -> GitStatus {
    let list = parse_porcelain(output);
    let presence = vec![HERE; list.len()];
    classify(&list, &presence)
}

fn line(c: &Command) -> Vec<String> {
    let mut all = c.args.clone();
    all.extend(c.paths.iter().map(|p| p.to_text().unwrap()));
    all
}

fn text(s: &str) -> Reply {
    Reply::Text(Some(s.to_string()))
}

fn names(set: &PathSet) -> Vec<String> {
    set.items.iter().map(|p| p.to_text().unwrap()).collect()
}

fn ask(p: Stashed) -> (Action, StashOp) {
    match p {
        Progress::Ask(a, op) => (a, op),
        Progress::Done((_, out)) => panic!("{out:?}"),
    }
}

fn command(p: Stashed) -> (Vec<String>, StashOp) {
    match ask(p) {
        (Action::ReadGit(c) | Action::RunGit(c) | Action::ReadGitQuiet(c), op) => (line(&c), op),
        (other, _) => panic!("{other:?}"),
    }
}

fn end(p: Stashed) -> (Git, Result<StashOutcome, GitError>) {
    match p {
        Progress::Done(out) => out,
        Progress::Ask(a, _) => panic!("{a:?}"),
    }
}

/// Tells that there is a commit, if that is asked.
fn committed(start: Stashed) -> Stashed {
    match start {
        Progress::Ask(Action::ReadGitQuiet(c), op) => {
            assert_eq!(line(&c), ["rev-parse", "-q", "--verify", "HEAD"]);
            op.resume(text("abc123\n"))
        }
        other => other,
    }
}

/// Goes through the three questions and the probe.
fn probed(start: Stashed, answers: [&str; 3], presence: Vec<Presence>) -> Stashed {
    let (_, op) = command(committed(start));
    let (_, op) = command(op.resume(text(answers[0])));
    let (_, op) = command(op.resume(text(answers[1])));
    let (_, op) = ask(op.resume(text(answers[2])));
    op.resume(Reply::Presence(presence))
}

#[test]
fn zeros_are_git_s_missing_reference() {
    assert!(is_zero_sha(&"0".repeat(40)));
    assert!(is_zero_sha(&"0".repeat(64)));
    assert!(is_zero_sha("0"));
    assert!(!is_zero_sha(""));
    assert!(!is_zero_sha("0000000000000000000000000000000000000001"));
    assert!(!is_zero_sha("０"));
}

#[test]
fn nothing_is_stashed_where_it_is_switched_off() {
    let (git, out) = end(git(false, true, 0).stash_unstaged(StashMethod::Disabled, status(" M a\0")));
    assert!(matches!(out, Ok(StashOutcome::Disabled)));
    assert!(git.stash.is_none());
}

#[test]
fn nothing_is_stashed_without_a_commit() {
    let (a, op) = ask(git(true, true, 0).stash_unstaged(StashMethod::Git, status(" M a\0")));
    assert!(matches!(a, Action::LibGitHead));
    let (_, out) = end(op.resume(Reply::Name(None)));
    assert!(matches!(out, Ok(StashOutcome::NoCommit)));
    let (c, op) = command(git(false, true, 0).stash_unstaged(StashMethod::Git, status(" M a\0")));
    assert_eq!(c, ["rev-parse", "-q", "--verify", "HEAD"]);
    let (git, out) = end(op.resume(Reply::Text(None)));
    assert!(matches!(out, Ok(StashOutcome::NoCommit)));
    assert!(git.stash.is_none() && git.stashed_paths.is_none());
}

#[test]
fn three_questions_find_what_is_unstaged() {
    let start = git(false, true, 0).stash_unstaged(StashMethod::Git, status(" M listed\0"));
    let (c, op) = command(committed(start));
    assert_eq!(
        c,
        ["diff", "--name-only", "-z", "--no-ext-diff", "--ignore-submodules"]
    );
    let (c, op) = command(op.resume(text("d\0gone\0")));
    assert_eq!(c, ["ls-files", "-m", "-z"]);
    let (c, op) = command(op.resume(Reply::Text(None)));
    assert_eq!(
        c,
        ["status", "--porcelain", "--no-renames", "--untracked-files=all", "-z"]
    );
    let (a, op) = ask(op.resume(text("MM m\0M  index_only\0 T t\0?? u\0 R r\0")));
    let Action::Probe(paths) = a else {
        panic!("no probe");
    };
    let asked: Vec<String> = paths.iter().map(|p| p.to_text().unwrap()).collect();
    assert_eq!(asked, ["d", "gone", "m", "t", "r"]);
    let reply = Reply::Presence(vec![HERE, BROKEN_LINK, HERE, HERE, HERE]);
    let (c, op) = command(op.resume(reply));
    assert_eq!(
        c,
        [
            "stash", "push", "--keep-index", "-m", "hk", "--include-untracked", "--", "d",
            "listed", "m", "r", "t"
        ]
    );
    assert_eq!(
        names(op.git.stashed_paths.as_ref().unwrap()),
        ["d", "listed", "m", "r", "t"]
    );
    let (c, op) = command(op.resume(Reply::Done(true)));
    assert_eq!(c, ["rev-parse", "-q", "--verify", "stash@{0}"]);
    let (git, out) = end(op.resume(text(" abc123\n")));
    assert!(matches!(out, Ok(StashOutcome::Stashed(StashType::Git))));
    assert_eq!(git.stash_commit.as_deref(), Some("abc123"));
    assert!(matches!(git.stash, Some(StashType::Git)));
    assert!(git.stashed_paths.is_some());
}

#[test]
fn nothing_unstaged_leaves_everything_as_it_is() {
    let start = git(false, false, 0).stash_unstaged(StashMethod::PatchFile, status("M  a\0?? u\0"));
    let (git, out) = end(probed(start, ["", "", "M  a\0"], vec![]));
    assert!(matches!(out, Ok(StashOutcome::NothingUnstaged)));
    assert!(git.stash.is_none() && git.stashed_paths.is_none());
}

#[test]
fn untracked_files_alone_are_stashed_without_paths() {
    let start = git(false, true, 0).stash_unstaged(StashMethod::Git, status("?? u\0"));
    let (c, op) = command(probed(start, ["", "", ""], vec![]));
    assert_eq!(
        c,
        ["stash", "push", "--keep-index", "-m", "hk", "--include-untracked"]
    );
    assert_eq!(names(op.git.stashed_paths.as_ref().unwrap()), ["u"]);
}

#[test]
fn untracked_files_are_not_named_to_git() {
    let start = git(false, true, 0).stash_unstaged(StashMethod::Git, status("?? u\0 M m\0"));
    let (c, op) = command(probed(start, ["", "", ""], vec![]));
    assert_eq!(
        c,
        ["stash", "push", "--keep-index", "-m", "hk", "--include-untracked", "--", "m"]
    );
    assert_eq!(names(op.git.stashed_paths.as_ref().unwrap()), ["m", "u"]);
}

#[test]
fn untracked_files_alone_are_left_where_they_are_not_stashed() {
    // A file that git lists as modified, and the status as untracked.
    let start = git(false, false, 0).stash_unstaged(StashMethod::Git, status("?? u\0"));
    let (git, out) = end(probed(start, ["u\0", "", ""], vec![HERE]));
    assert!(matches!(out, Ok(StashOutcome::NothingTracked)));
    assert!(git.stash.is_none() && git.stashed_paths.is_none());
}

#[test]
fn libgit2_leaves_paths_to_the_git_program() {
    let (_, op) = ask(git(true, false, 0).stash_unstaged(StashMethod::Git, status(" M a\0")));
    let start = op.resume(Reply::Name(Some(Some("main".to_string()))));
    let (a, op) = ask(probed(start, ["", "", ""], vec![]));
    assert!(matches!(a, Action::LibGitSignature));
    let (c, op) = command(op.resume(Reply::Done(true)));
    assert_eq!(c, ["stash", "push", "--keep-index", "-m", "hk", "--", "a"]);
    let (git, out) = end(op.resume(Reply::Done(false)));
    assert!(matches!(out, Err(GitError::Command)));
    assert_eq!(names(git.stashed_paths.as_ref().unwrap()), ["a"]);
}

#[test]
fn libgit2_stashes_everything_or_the_git_program_does() {
    for works in [true, false] {
        let (_, op) = ask(git(true, true, 0).stash_unstaged(StashMethod::Git, status("?? u\0")));
        let start = op.resume(Reply::Name(Some(None)));
        let (_, op) = ask(probed(start, ["", "", ""], vec![]));
        let (a, op) = ask(op.resume(Reply::Done(true)));
        assert!(matches!(a, Action::LibGitStash(ref m, true) if m == "hk"));
        let (c, op) = command(op.resume(Reply::Done(works)));
        if works {
            assert_eq!(c[0], "rev-parse");
            let (git, out) = end(op.resume(Reply::Text(None)));
            assert!(matches!(out, Ok(StashOutcome::Stashed(StashType::LibGit))));
            assert!(git.stash_commit.is_none());
        } else {
            assert_eq!(
                c,
                ["stash", "push", "--keep-index", "-m", "hk", "--include-untracked"]
            );
        }
    }
}

#[test]
fn a_missing_signature_is_an_error() {
    let (_, op) = ask(git(true, true, 0).stash_unstaged(StashMethod::Git, status(" M a\0")));
    let start = op.resume(Reply::Name(Some(None)));
    let (_, op) = ask(probed(start, ["", "", ""], vec![]));
    let (_, out) = end(op.resume(Reply::Done(false)));
    assert!(matches!(out, Err(GitError::Signature)));
}

#[test]
fn paths_that_are_no_texts_are_not_named() {
    let mut all = status(" M a\0");
    all.unstaged_files.insert(RepoPath { raw: vec![0xff] });
    let start = git(false, false, 0).stash_unstaged(StashMethod::Git, all);
    let (c, _) = command(probed(start, ["", "", ""], vec![]));
    assert_eq!(c, ["stash", "push", "--keep-index", "-m", "hk", "--", "a"]);
}

#[test]
fn a_backup_is_written_and_old_ones_go() {
    let start = git(false, true, 1).stash_unstaged(StashMethod::Git, status(" M a\0"));
    let (_, op) = command(probed(start, ["", "", ""], vec![]));
    let (_, op) = command(op.resume(Reply::Done(true)));
    let (a, op) = ask(op.resume(text("abc\n")));
    assert!(matches!(a, Action::PreparePatches));
    let (c, op) = command(op.resume(Reply::Path(Some(RepoPath::from_text("/w/proj")))));
    assert_eq!(c, ["stash", "show", "-p", "--include-untracked", "abc"]);
    let (a, op) = ask(op.resume(text("the patch")));
    let Action::WritePatch(name, contents) = a else {
        panic!("no patch");
    };
    assert_eq!(contents, "the patch");
    assert!(name.starts_with("++w+proj-") && name.ends_with(".patch"));
    let (a, op) = ask(op.resume(Reply::Done(true)));
    assert!(matches!(a, Action::ListPatches));
    let entry = |name: &str, t: i128| PatchEntry {
        name: Some(name.to_string()),
        modified: Some(t),
    };
    let list = vec![
        entry("++w+proj-20240101-000000-sun-01.patch", 1),
        entry("++w+proj-20240102-000000-sun-02.patch", 2),
    ];
    let (a, op) = ask(op.resume(Reply::Patches(list)));
    let Action::RemovePatches(gone) = a else {
        panic!("no removal");
    };
    assert_eq!(gone, ["++w+proj-20240101-000000-sun-01.patch"]);
    let (git, out) = end(op.resume(Reply::Done(false)));
    assert!(matches!(out, Ok(StashOutcome::Stashed(StashType::Git))));
    assert_eq!(git.stash_commit.as_deref(), Some("abc"));
}

#[test]
fn a_failed_backup_does_not_fail_the_stash() {
    for stop in 0..3 {
        let start = git(false, false, 5).stash_unstaged(StashMethod::Git, status(" M a\0"));
        let (_, op) = command(probed(start, ["", "", ""], vec![]));
        let (_, op) = command(op.resume(Reply::Done(true)));
        let (_, op) = ask(op.resume(text("abc\n")));
        let last = if stop == 0 {
            op.resume(Reply::Path(None))
        } else {
            let (c, op) = command(op.resume(Reply::Path(Some(RepoPath::from_text("/w")))));
            assert_eq!(c, ["stash", "show", "-p", "abc"]);
            if stop == 1 {
                op.resume(Reply::Text(None))
            } else {
                let (_, op) = ask(op.resume(text("p")));
                op.resume(Reply::Done(false))
            }
        };
        let (_, out) = end(last);
        assert!(matches!(out, Ok(StashOutcome::Stashed(StashType::Git))));
    }
}

#[test]
fn patch_names_are_made_of_repository_time_and_word() {
    assert_eq!(
        patch_file_name("repo", "20240102-030405", "tree-07"),
        "repo-20240102-030405-tree-07.patch"
    );
    let name = new_patch_file_name("repo");
    let middle = name
        .strip_prefix("repo-")
        .and_then(|n| n.strip_suffix(".patch"))
        .unwrap();
    let parts: Vec<&str> = middle.split('-').collect();
    assert_eq!(parts.len(), 4);
    assert!(parts[0].len() == 8 && parts[0].chars().all(|c| c.is_ascii_digit()));
    assert!(parts[1].len() == 6 && parts[1].chars().all(|c| c.is_ascii_digit()));
    assert!(!parts[2].is_empty() && parts[2].chars().all(|c| c.is_ascii_lowercase()));
    assert!(parts[3].len() == 2 && parts[3].chars().all(|c| c.is_ascii_digit()));
    assert!(names_patch(&name, "repo"));
    assert_eq!(line(&show_patch("stash@{0}", false)), ["stash", "show", "-p", "stash@{0}"]);
}

#[test]
fn repository_names_are_unique() {
    let name = |dir: &str| repo_name(&RepoPath::from_text(dir));
    assert_eq!(name("/a/x"), "++a+x");
    assert_eq!(name("/b/x"), "++b+x");
    assert_eq!(name("/"), "+");
    assert_eq!(name(""), "");
    assert_eq!(name("a/x"), "+a+x");
    assert_eq!(name("./.."), "+.+..");
    assert_eq!(name("/a b/né+%/C:\\w"), "++a%20b+n%C3%A9%2B%25+C%3A%5Cw");
    assert_eq!(name("/a//x/"), name("/a/x"));
    let dirs = [
        "", ".", "..", "/", "/a", "a", "/a/b", "/a+b", "/a%2Bb", "a/b", "./a", "/.a", "/+", "/%",
    ];
    for (i, a) in dirs.iter().enumerate() {
        for b in &dirs[i + 1..] {
            assert_ne!(name(a), name(b), "{a} {b}");
        }
    }
}

#[test]
fn a_backup_belongs_to_one_repository() {
    let name = patch_file_name("foo-bar", "20250101-000000", "sun-01");
    assert!(names_patch(&name, "foo-bar"));
    assert!(!names_patch(&name, "foo"));
    assert!(!names_patch(&name, "foo-"));
    assert!(names_patch("r-+100000101-000000-sun-01.patch", "r"));
    for odd in [
        "foo-bar-20250101-000000-sun.patch",
        "foo-20250101-000000-sun.patch",
        "foo-20250101-000000-Sun-01.patch",
        "foo-20250101-000000-sun-1.patch",
        "foo-20250101-000000--01.patch",
        "foo-2025010-000000-sun-01.patch",
        "foo-020250101-000000-sun-01.patch",
        "foo-20250101-00000-sun-01.patch",
        "foo-20250101000000-sun-01.patch",
        "foo--20250101-000000-sun-01.patch",
        "foo-20250101-000000-sun-01.txt",
        "foo-.patch",
        "foo.patch",
        "",
    ] {
        assert!(!names_patch(odd, "foo"), "{odd}");
    }
    let entry = PatchEntry {
        name: Some("foo-bar-20250101-000000-sun.patch".to_string()),
        modified: Some(1),
    };
    assert!(rotate_patch_files(&vec![entry], "foo", 0).is_empty());
}

#[test]
fn rotation_removes_the_oldest_of_the_repository() {
    let patch = |repo: &str, word: &str| format!("{repo}-20250101-000000-{word}-01.patch");
    let entry = |name: Option<String>, modified: Option<i128>| PatchEntry { name, modified };
    let list = |gone: &[String]| -> Vec<PatchEntry> {
        vec![
            entry(Some(patch("r", "b")), Some(20)),
            entry(Some(patch("r", "a")), Some(10)),
            entry(Some(patch("other", "x")), Some(1)),
            entry(Some(patch("r-other", "x")), Some(1)),
            entry(Some("r-notes.txt".to_string()), Some(2)),
            entry(None, Some(3)),
            entry(Some(patch("r", "unread")), None),
            entry(Some(patch("r", "c")), Some(30)),
            entry(Some(patch("r", "d")), Some(10)),
        ]
        .into_iter()
        .filter(|e| !e.name.as_ref().is_some_and(|n| gone.contains(n)))
        .collect()
    };
    let all = list(&[]);
    assert_eq!(
        rotate_patch_files(&all, "r", 2),
        [patch("r", "a"), patch("r", "d")]
    );
    assert_eq!(rotate_patch_files(&all, "r", 3), [patch("r", "d")]);
    assert!(rotate_patch_files(&all, "r", 4).is_empty());
    assert!(rotate_patch_files(&all, "r", 99).is_empty());
    assert_eq!(rotate_patch_files(&all, "r", 0).len(), 4);
    assert_eq!(rotate_patch_files(&all, "other", 0), [patch("other", "x")]);
    for keep in 0..6 {
        let gone = rotate_patch_files(&all, "r", keep);
        assert_eq!(gone.len(), 4usize.saturating_sub(keep));
        assert!(rotate_patch_files(&list(&gone), "r", keep).is_empty());
    }
}
