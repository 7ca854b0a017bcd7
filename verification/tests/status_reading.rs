use hk::git::{Git, GitError};
use hk::paths::{PathSet, RepoPath};
use hk::status::{
    classify, classify_lib, parse_porcelain, parse_record, GitStatus, StatusProgress,
    INDEX_DELETED, INDEX_MODIFIED, INDEX_NEW, INDEX_RENAMED, INDEX_TYPECHANGE, WT_DELETED,
    WT_MODIFIED, WT_NEW, WT_RENAMED, WT_TYPECHANGE,
};
use hk::work::{Action, Command, LibEntry, Presence, Progress, Reply};

const HERE: Presence = Presence {
    target: true,
    entry: true,
};
const BROKEN_LINK: Presence = Presence {
    target: false,
    entry: true,
};
const GONE: Presence = Presence {
    target: false,
    entry: false,
};

fn git(libgit2: bool, stash_untracked: bool) -> Git {
    Git {
        libgit2,
        stash_untracked,
        stash_backup_count: 0,
        stash: None,
        stash_commit: None,
        stashed_paths: None,
        saved_index: None,
        saved_worktree: None,
    }
}

fn names(set: &PathSet) -> Vec<String> {
    set.items.iter().map(|p| p.to_text().unwrap()).collect()
}

fn line(c: &Command) -> Vec<String> {
    let mut all = c.args.clone();
    all.extend(c.paths.iter().map(|p| p.to_text().unwrap()));
    all
}

fn lib(path: &str, bits: u32) -> LibEntry {
    LibEntry {
        path: Some(path.to_string()),
        bits,
    }
}

fn done(p: StatusProgress) -> GitStatus {
    match p {
        Progress::Done(Ok(status)) => status,
        Progress::Done(Err(e)) => panic!("{e:?}"),
        Progress::Ask(a, _) => panic!("{a:?}"),
    }
}

#[test]
fn status_bits_are_those_of_libgit2() {
    assert_eq!(INDEX_NEW, git2::Status::INDEX_NEW.bits());
    assert_eq!(INDEX_MODIFIED, git2::Status::INDEX_MODIFIED.bits());
    assert_eq!(INDEX_DELETED, git2::Status::INDEX_DELETED.bits());
    assert_eq!(INDEX_RENAMED, git2::Status::INDEX_RENAMED.bits());
    assert_eq!(INDEX_TYPECHANGE, git2::Status::INDEX_TYPECHANGE.bits());
    assert_eq!(WT_NEW, git2::Status::WT_NEW.bits());
    assert_eq!(WT_MODIFIED, git2::Status::WT_MODIFIED.bits());
    assert_eq!(WT_DELETED, git2::Status::WT_DELETED.bits());
    assert_eq!(WT_TYPECHANGE, git2::Status::WT_TYPECHANGE.bits());
    assert_eq!(WT_RENAMED, git2::Status::WT_RENAMED.bits());
}

#[test]
fn a_record_is_two_states_and_a_path() {
    let e = parse_record("MD a b.txt");
    assert_eq!((e.index, e.worktree), ('M', 'D'));
    assert_eq!(e.path.to_text().unwrap(), "a b.txt");
    let short = parse_record("?");
    assert_eq!((short.index, short.worktree), ('?', '\0'));
    assert_eq!(short.path.to_text().unwrap(), "");
    assert_eq!(parse_porcelain("M  a\0\0?? b\0").len(), 2);
}

#[test]
fn porcelain_lines_are_sorted_into_kinds() {
    let list = parse_porcelain(
        "M  staged\0 M changed\0MM both\0A  new\0AD added_gone\0D  removed\0R  renamed\0C  copied\0 T typed\0?? extra\0 D lost\0M  link\0M  vanished\0",
    );
    let presence = vec![
        HERE, HERE, HERE, HERE, HERE, GONE, HERE, HERE, HERE, HERE, GONE, BROKEN_LINK, GONE,
    ];
    let s = classify(&list, &presence);
    assert_eq!(
        names(&s.staged_files),
        ["both", "copied", "link", "new", "renamed", "staged"]
    );
    assert_eq!(names(&s.unstaged_files), ["both", "changed", "typed"]);
    assert_eq!(names(&s.untracked_files), ["extra"]);
    assert_eq!(
        names(&s.modified_files),
        ["added_gone", "both", "changed", "copied", "link", "new", "renamed", "staged", "typed"]
    );
    assert_eq!(names(&s.staged_added_files), ["added_gone", "new"]);
    assert_eq!(
        names(&s.staged_modified_files),
        ["both", "link", "staged", "vanished"]
    );
    assert_eq!(names(&s.staged_deleted_files), ["removed"]);
    assert_eq!(names(&s.staged_renamed_files), ["renamed"]);
    assert_eq!(names(&s.staged_copied_files), ["copied"]);
    assert_eq!(names(&s.unstaged_modified_files), ["both", "changed", "typed"]);
    assert_eq!(names(&s.unstaged_deleted_files), ["added_gone", "lost"]);
    assert!(s.unstaged_renamed_files.items.is_empty());
}

#[test]
fn libgit2_entries_are_sorted_into_kinds() {
    let staged = vec![
        lib("new", INDEX_NEW),
        lib("mod", INDEX_MODIFIED | INDEX_RENAMED),
        lib("type", INDEX_TYPECHANGE),
        lib("del", INDEX_DELETED),
        LibEntry {
            path: None,
            bits: INDEX_NEW,
        },
    ];
    let workdir = vec![
        lib("w_new", WT_NEW),
        lib("w_mod", WT_MODIFIED),
        lib("w_type", WT_TYPECHANGE),
        lib("w_del", WT_DELETED),
        lib("w_ren", WT_RENAMED),
        lib("w_two", WT_MODIFIED | WT_TYPECHANGE),
    ];
    let presence = vec![
        HERE, HERE, BROKEN_LINK, GONE, GONE, HERE, HERE, HERE, GONE, HERE, HERE,
    ];
    let s = classify_lib(&staged, &workdir, &presence);
    assert_eq!(names(&s.staged_files), ["mod", "new", "type"]);
    assert_eq!(names(&s.staged_added_files), ["new"]);
    assert_eq!(names(&s.staged_modified_files), ["mod", "type"]);
    assert_eq!(names(&s.staged_deleted_files), ["del"]);
    assert_eq!(names(&s.staged_renamed_files), ["mod"]);
    assert!(s.staged_copied_files.items.is_empty());
    assert_eq!(names(&s.untracked_files), ["w_new"]);
    assert_eq!(names(&s.modified_files), ["w_mod", "w_type"]);
    assert_eq!(names(&s.unstaged_modified_files), ["w_mod", "w_type"]);
    assert_eq!(names(&s.unstaged_deleted_files), ["w_del"]);
    assert_eq!(names(&s.unstaged_renamed_files), ["w_ren"]);
    assert_eq!(
        names(&s.unstaged_files),
        ["w_mod", "w_ren", "w_two", "w_type"]
    );
}

#[test]
fn the_git_program_is_asked_for_the_status() {
    let spec = vec![RepoPath::from_text("src")];
    let Progress::Ask(Action::RunGit(c), op) = git(false, true).status(Some(spec)) else {
        panic!("no refresh");
    };
    assert_eq!(line(&c), ["update-index", "-q", "--refresh"]);
    let Progress::Ask(Action::ReadGit(c), op) = op.resume(Reply::Done(false)) else {
        panic!("no status");
    };
    assert_eq!(
        line(&c),
        ["status", "--porcelain", "--untracked-files=all", "-z", "--", "src"]
    );
    let Progress::Ask(Action::Probe(paths), op) =
        op.resume(Reply::Text(Some("M  src/a\0".to_string())))
    else {
        panic!("no probe");
    };
    assert_eq!(paths.len(), 1);
    let s = done(op.resume(Reply::Presence(vec![HERE])));
    assert_eq!(names(&s.staged_files), ["src/a"]);
}

#[test]
fn a_failed_status_is_an_error() {
    let Progress::Ask(_, op) = git(false, false).status(None) else {
        panic!("no refresh");
    };
    let Progress::Ask(Action::ReadGit(c), op) = op.resume(Reply::Done(true)) else {
        panic!("no status");
    };
    assert_eq!(
        line(&c),
        ["status", "--porcelain", "--untracked-files=no", "-z"]
    );
    assert!(matches!(
        op.resume(Reply::Text(None)),
        Progress::Done(Err(GitError::Command))
    ));
}

#[test]
fn libgit2_is_asked_for_both_lists() {
    let Progress::Ask(_, op) = git(true, true).status(None) else {
        panic!("no refresh");
    };
    let Progress::Ask(Action::LibGitStatuses(q), op) = op.resume(Reply::Done(true)) else {
        panic!("no index list");
    };
    assert!(!q.workdir && q.include_untracked && q.recurse_untracked_dirs);
    assert!(q.renames_head_to_index && q.pathspec.is_empty());
    let Progress::Ask(Action::LibGitStatuses(q), op) =
        op.resume(Reply::Statuses(Some(vec![lib("a", INDEX_NEW)])))
    else {
        panic!("no work tree list");
    };
    assert!(q.workdir);
    let Progress::Ask(Action::Probe(paths), op) =
        op.resume(Reply::Statuses(Some(vec![lib("b", WT_MODIFIED)])))
    else {
        panic!("no probe");
    };
    assert_eq!(paths.len(), 2);
    let s = done(op.resume(Reply::Presence(vec![HERE, HERE])));
    assert_eq!(names(&s.staged_files), ["a"]);
    assert_eq!(names(&s.unstaged_files), ["b"]);

    let Progress::Ask(_, op) = git(true, true).status(None) else {
        panic!("no refresh");
    };
    let Progress::Ask(_, op) = op.resume(Reply::Done(true)) else {
        panic!("no index list");
    };
    assert!(matches!(
        op.resume(Reply::Statuses(None)),
        Progress::Done(Err(GitError::Status))
    ));
}
