use hk::branch::{CurrentBranch, DefaultBranch, Defaulted, Matched, MatchingBranch, Resolved};
use hk::capture::Captured;
use hk::files::Between;
use hk::git::{Git, GitError};
use hk::paths::{PathSet, RepoPath};
use hk::repo::{GitEnv, OpenGit, Opened};
use hk::step::Platform;
use hk::work::{Action, Command, Presence, Progress, Reply};

const HERE: Presence = Presence {
    target: true,
    entry: true,
};
const BROKEN_LINK: Presence = Presence {
    target: false,
    entry: true,
};

fn git(libgit2: bool) -> Git {
    Git {
        libgit2,
        stash_untracked: true,
        stash_backup_count: 0,
        stash: None,
        stash_commit: None,
        stashed_paths: None,
        saved_index: None,
        saved_worktree: None,
    }
}

fn path(s: &str) -> RepoPath {
    RepoPath::from_text(s)
}

fn text(s: &str) -> Reply {
    Reply::Text(Some(s.to_string()))
}

fn name(s: &str) -> Reply {
    Reply::Name(Some(Some(s.to_string())))
}

fn line(c: &Command) -> Vec<String> {
    let mut all = c.args.clone();
    all.extend(c.paths.iter().map(|p| p.to_text().unwrap()));
    all
}

fn names(list: &Vec<RepoPath>) -> Vec<String> {
    list.iter().map(|p| p.to_text().unwrap()).collect()
}

// Opening.

fn env(libgit2: bool) -> GitEnv {
    GitEnv {
        git_dir: None,
        work_tree: None,
        index_file: None,
        libgit2,
        stash_untracked: true,
        stash_backup_count: 7,
        platform: Platform::Linux,
    }
}

fn opening(p: Opened) -> (Action, OpenGit) {
    match p {
        Progress::Ask(a, op) => (a, op),
        Progress::Done(out) => panic!("{out:?}"),
    }
}

fn opened(p: Opened) -> Result<Git, GitError> {
    match p {
        Progress::Done(out) => out,
        Progress::Ask(a, _) => panic!("{a:?}"),
    }
}

#[test]
fn the_repository_is_found_upwards() {
    let (a, op) = opening(Git::new(env(false)));
    assert!(matches!(a, Action::CurrentDir));
    let (a, op) = opening(op.resume(Reply::Path(Some(path("/w/sub")))));
    let Action::FindUp(from, wanted) = a else {
        panic!("no search");
    };
    assert_eq!(from.to_text().unwrap(), "/w/sub");
    assert_eq!(wanted, ".git");
    let (a, op) = opening(op.resume(Reply::Path(Some(path("/w")))));
    assert!(matches!(a, Action::EnterDir(ref p) if p.to_text().unwrap() == "/w"));
    let git = opened(op.resume(Reply::Done(true))).unwrap();
    assert!(!git.libgit2 && git.stash_untracked && git.stash.is_none());
    assert_eq!(git.stash_backup_count, 7);
}

#[test]
fn the_environment_places_the_repository() {
    let mut placed = env(true);
    placed.git_dir = Some(path("bare.git"));
    placed.work_tree = Some(path("/home/me"));
    placed.index_file = Some(path("idx"));
    let (_, op) = opening(Git::new(placed));
    let (a, op) = opening(op.resume(Reply::Path(Some(path("/cwd")))));
    let Action::ExportVars(vars) = a else {
        panic!("no export");
    };
    let vars: Vec<(String, String)> = vars
        .into_iter()
        .map(|(n, p)| (n, p.to_text().unwrap()))
        .collect();
    assert_eq!(
        vars,
        [
            ("GIT_DIR".to_string(), "/cwd/bare.git".to_string()),
            ("GIT_INDEX_FILE".to_string(), "/cwd/idx".to_string()),
        ]
    );
    let (a, op) = opening(op.resume(Reply::Done(true)));
    assert!(matches!(a, Action::FindWorkTree));
    let (_, op) = opening(op.resume(Reply::Path(Some(path("/home/me")))));
    let (a, op) = opening(op.resume(Reply::Done(true)));
    assert!(matches!(a, Action::OpenLibGit(true)));
    let (a, op) = opening(op.resume(Reply::Bare(Some(false))));
    assert!(matches!(a, Action::UseIndex(ref p) if p.to_text().unwrap() == "/cwd/idx"));
    assert!(opened(op.resume(Reply::Done(true))).unwrap().libgit2);
}

#[test]
fn absolute_variables_of_windows_are_not_exported() {
    let mut placed = env(false);
    placed.platform = Platform::Windows;
    placed.git_dir = Some(path("C:/r/.git"));
    placed.work_tree = Some(path("tree"));
    let (_, op) = opening(Git::new(placed));
    let (a, _) = opening(op.resume(Reply::Path(Some(path("C:/w")))));
    let Action::ExportVars(vars) = a else {
        panic!("no export");
    };
    assert_eq!(vars.len(), 1);
    assert_eq!(vars[0].0, "GIT_WORK_TREE");
    assert_eq!(vars[0].1.to_text().unwrap(), "C:/w\\tree");
}

#[test]
fn a_bare_repository_is_left_to_the_git_program() {
    let (_, op) = opening(Git::new(env(true)));
    let (_, op) = opening(op.resume(Reply::Path(Some(path("/w")))));
    let (_, op) = opening(op.resume(Reply::Path(Some(path("/w")))));
    let (a, op) = opening(op.resume(Reply::Done(true)));
    assert!(matches!(a, Action::OpenLibGit(false)));
    assert!(!opened(op.resume(Reply::Bare(Some(true)))).unwrap().libgit2);
}

#[test]
fn every_failure_to_open_has_its_error() {
    let (_, op) = opening(Git::new(env(true)));
    assert!(matches!(
        opened(op.resume(Reply::Path(None))),
        Err(GitError::CurrentDir)
    ));
    let at_root = || {
        let (_, op) = opening(Git::new(env(true)));
        opening(op.resume(Reply::Path(Some(path("/w"))))).1
    };
    let e = opened(at_root().resume(Reply::Path(None))).unwrap_err();
    assert!(matches!(e, GitError::NoRepository));
    assert_eq!(e.message().unwrap(), "failed to find git repository");
    let at_enter = || opening(at_root().resume(Reply::Path(Some(path("/w"))))).1;
    let e = opened(at_enter().resume(Reply::Done(false))).unwrap_err();
    assert!(matches!(e, GitError::EnterDir));
    assert_eq!(e.message(), None);
    let at_lib = opening(at_enter().resume(Reply::Done(true))).1;
    assert!(matches!(
        opened(at_lib.resume(Reply::Bare(None))),
        Err(GitError::OpenRepository)
    ));
    let mut indexed = env(true);
    indexed.index_file = Some(path("idx"));
    let (_, op) = opening(Git::new(indexed));
    let (_, op) = opening(op.resume(Reply::Path(Some(path("/w")))));
    let (_, op) = opening(op.resume(Reply::Path(Some(path("/w")))));
    let (_, op) = opening(op.resume(Reply::Done(true)));
    let (a, op) = opening(op.resume(Reply::Bare(Some(false))));
    assert!(matches!(a, Action::UseIndex(ref p) if p.to_text().unwrap() == "idx"));
    assert!(matches!(
        opened(op.resume(Reply::Done(false))),
        Err(GitError::Index)
    ));
}

// Branches.

fn current(libgit2: bool) -> (Action, CurrentBranch) {
    match git(libgit2).current_branch() {
        Progress::Ask(a, op) => (a, op),
        Progress::Done(out) => panic!("{out:?}"),
    }
}

#[test]
fn the_current_branch_is_asked_for() {
    let (a, op) = current(false);
    assert!(matches!(a, Action::Shell(ref l) if l == "git branch --show-current"));
    assert_eq!(op.resume(text("topic\n")).unwrap().as_deref(), Some("topic"));
    assert_eq!(current(false).1.resume(text("")).unwrap(), None);
    assert!(matches!(
        current(false).1.resume(Reply::Text(None)),
        Err(GitError::Command)
    ));
    let (a, op) = current(true);
    assert!(matches!(a, Action::LibGitHead));
    assert_eq!(op.resume(name("topic")).unwrap().as_deref(), Some("topic"));
    assert_eq!(current(true).1.resume(Reply::Name(Some(None))).unwrap(), None);
    assert!(matches!(
        current(true).1.resume(Reply::Name(None)),
        Err(GitError::Head)
    ));
}

fn matching(p: Matched) -> (Action, MatchingBranch) {
    match p {
        Progress::Ask(a, op) => (a, op),
        Progress::Done(out) => panic!("{out:?}"),
    }
}

fn matched(p: Matched) -> Result<Option<String>, GitError> {
    match p {
        Progress::Done(out) => out,
        Progress::Ask(a, _) => panic!("{a:?}"),
    }
}

#[test]
fn a_remote_s_counterpart_is_found_by_the_git_program() {
    let remote = || {
        let (_, op) = matching(git(false).matching_remote_branch("up"));
        let (a, op) = matching(op.resume(text("topic\n")));
        assert!(matches!(a, Action::Shell(ref l) if l == "git ls-remote --heads up topic"));
        op
    };
    assert_eq!(
        matched(remote().resume(text("1234\trefs/heads/topic\n"))).unwrap(),
        Some("topic".to_string())
    );
    assert_eq!(
        matched(remote().resume(text("1234\trefs/remotes/up/topic\n"))).unwrap(),
        Some("topic".to_string())
    );
    assert_eq!(
        matched(remote().resume(text("1234\trefs/heads/other-topic\n"))).unwrap(),
        None
    );
    assert_eq!(matched(remote().resume(text(""))).unwrap(), None);
    assert!(matches!(
        matched(remote().resume(Reply::Text(None))),
        Err(GitError::Command)
    ));
    let (_, op) = matching(git(false).matching_remote_branch("up"));
    assert_eq!(matched(op.resume(text(""))).unwrap(), None);
    let (_, op) = matching(git(false).matching_remote_branch("up"));
    assert!(matches!(
        matched(op.resume(Reply::Text(None))),
        Err(GitError::Command)
    ));
}

#[test]
fn a_remote_s_counterpart_is_found_by_libgit2() {
    let remote = || {
        let (_, op) = matching(git(true).matching_remote_branch("up"));
        let (a, op) = matching(op.resume(name("topic")));
        assert!(matches!(a, Action::LibGitReference(ref r) if r == "refs/remotes/up/topic"));
        op
    };
    assert_eq!(
        matched(remote().resume(name("refs/remotes/up/topic"))).unwrap(),
        Some("refs/remotes/up/topic".to_string())
    );
    assert_eq!(matched(remote().resume(Reply::Name(Some(None)))).unwrap(), None);
    assert_eq!(matched(remote().resume(Reply::Name(None))).unwrap(), None);
}

fn searching(p: Defaulted) -> (Action, DefaultBranch) {
    match p {
        Progress::Ask(a, op) => (a, op),
        Progress::Done(out) => panic!("{out:?}"),
    }
}

fn found(p: Defaulted) -> Result<String, GitError> {
    match p {
        Progress::Done(out) => out,
        Progress::Ask(a, _) => panic!("{a:?}"),
    }
}

/// The search once `origin/HEAD` and the current branch gave nothing.
fn at_main() -> DefaultBranch {
    let (_, op) = searching(git(false).default_branch());
    let (_, op) = searching(op.resume(Reply::Text(None)));
    let (a, op) = searching(op.resume(text("")));
    assert!(matches!(a, Action::Shell(ref l) if l == "git ls-remote --heads origin main"));
    op
}

#[test]
fn origin_head_is_the_default_branch() {
    let (a, op) = searching(git(false).default_branch());
    let Action::ReadGit(c) = a else {
        panic!("no question");
    };
    assert_eq!(line(&c), ["symbolic-ref", "refs/remotes/origin/HEAD"]);
    assert_eq!(
        found(op.resume(text("refs/remotes/origin/trunk\n"))).unwrap(),
        "origin/trunk"
    );
    let (_, op) = searching(git(false).default_branch());
    let (a, _) = searching(op.resume(text("refs/heads/odd\n")));
    assert!(matches!(a, Action::Shell(ref l) if l == "git branch --show-current"));
}

#[test]
fn the_matching_branch_comes_next() {
    let (_, op) = searching(git(true).default_branch());
    let (_, op) = searching(op.resume(Reply::Text(None)));
    let (_, op) = searching(op.resume(name("topic")));
    assert_eq!(
        found(op.resume(name("refs/remotes/origin/topic"))).unwrap(),
        "origin/topic"
    );
    let (_, op) = searching(git(false).default_branch());
    let (_, op) = searching(op.resume(text("")));
    let (_, op) = searching(op.resume(text("topic\n")));
    assert_eq!(
        found(op.resume(text("1\trefs/heads/topic\n"))).unwrap(),
        "topic"
    );
}

#[test]
fn main_and_master_come_last() {
    assert_eq!(
        found(at_main().resume(text("1\trefs/heads/main\n"))).unwrap(),
        "main"
    );
    let at_master = || {
        let (a, op) = searching(at_main().resume(text("1\trefs/heads/mainly\n")));
        assert!(matches!(a, Action::Shell(ref l) if l == "git ls-remote --heads origin master"));
        op
    };
    assert_eq!(
        found(at_master().resume(text("1\trefs/heads/master"))).unwrap(),
        "master"
    );
    assert_eq!(found(at_master().resume(text(""))).unwrap(), "origin/HEAD");
    assert!(matches!(
        found(at_main().resume(Reply::Text(None))),
        Err(GitError::Command)
    ));
    assert!(matches!(
        found(at_master().resume(Reply::Text(None))),
        Err(GitError::Command)
    ));
}

fn resolved(p: Resolved) -> String {
    match p {
        Progress::Done(branch) => branch,
        Progress::Ask(a, _) => panic!("{a:?}"),
    }
}

#[test]
fn a_configured_branch_wins_over_the_search() {
    let own = |s: &str| Some(s.to_string());
    assert_eq!(resolved(git(false).resolve_default_branch(own(" dev "))), " dev ");
    for none in [None, own(""), own(" \t")] {
        let Progress::Ask(_, op) = git(false).resolve_default_branch(none) else {
            panic!("no search");
        };
        assert_eq!(
            resolved(op.resume(text("refs/remotes/origin/trunk"))),
            "origin/trunk"
        );
    }
}

#[test]
fn a_failed_search_falls_back_to_main() {
    let Progress::Ask(_, op) = git(false).resolve_default_branch(None) else {
        panic!("no search");
    };
    let Progress::Ask(_, op) = op.resume(Reply::Text(None)) else {
        panic!("no branch");
    };
    let Progress::Ask(_, op) = op.resume(Reply::Text(None)) else {
        panic!("no main");
    };
    assert_eq!(resolved(op.resume(Reply::Text(None))), "main");
}

// Files.

#[test]
fn all_files_are_listed_by_the_git_program() {
    let spec = Some(vec![path("src"), RepoPath { raw: vec![0xff] }]);
    let Progress::Ask(Action::ReadGit(c), op) = git(false).all_files(&spec) else {
        panic!("no listing");
    };
    assert_eq!(line(&c), ["ls-files", "-z", "--", "src"]);
    let set: PathSet = op.resume(text("b\0a/x\0a/x\0")).unwrap();
    assert_eq!(names(&set.items), ["a/x", "b"]);
    let Progress::Ask(Action::ReadGit(c), op) = git(false).all_files(&None) else {
        panic!("no listing");
    };
    assert_eq!(line(&c), ["ls-files", "-z"]);
    assert!(matches!(op.resume(Reply::Text(None)), Err(GitError::Command)));
}

#[test]
fn all_files_are_listed_by_libgit2() {
    let Progress::Ask(Action::LibGitIndex, op) = git(true).all_files(&Some(vec![path("src")])) else {
        panic!("no listing");
    };
    let list = vec![path("z"), path("a")];
    let set = op.resume(Reply::Paths(Some(list))).unwrap();
    assert_eq!(names(&set.items), ["a", "z"]);
    let Progress::Ask(_, op) = git(true).all_files(&None) else {
        panic!("no listing");
    };
    assert!(matches!(op.resume(Reply::Paths(None)), Err(GitError::Index)));
}

#[test]
fn files_are_added_to_the_index() {
    let Progress::Ask(Action::RunGit(c), op) = git(false).add(vec![path("a"), path("b")]) else {
        panic!("no command");
    };
    assert_eq!(line(&c), ["add", "--", "a", "b"]);
    assert!(op.resume(Reply::Done(true)).is_ok());
    let Progress::Ask(_, op) = git(false).add(vec![]) else {
        panic!("no command");
    };
    assert!(matches!(op.resume(Reply::Done(false)), Err(GitError::Command)));
    let Progress::Ask(Action::LibGitAdd(list), op) = git(true).add(vec![path("a")]) else {
        panic!("no call");
    };
    assert_eq!(names(&list), ["a"]);
    assert!(matches!(op.resume(Reply::Done(false)), Err(GitError::Index)));
}

fn between(p: Between) -> Result<Vec<RepoPath>, GitError> {
    match p {
        Progress::Done(out) => out,
        Progress::Ask(a, _) => panic!("{a:?}"),
    }
}

#[test]
fn files_between_references_are_listed_by_the_git_program() {
    let base = || match git(false).files_between_refs("main", None) {
        Progress::Ask(Action::Shell(l), op) => {
            assert_eq!(l, "git merge-base main HEAD");
            op
        }
        _ => panic!("no merge base"),
    };
    let diff = || match base().resume(text("abc\n")) {
        Progress::Ask(Action::ReadGit(c), op) => {
            assert_eq!(
                line(&c),
                ["diff", "-z", "--name-only", "--diff-filter=ACMRTUXB", "abc..HEAD"]
            );
            op
        }
        _ => panic!("no diff"),
    };
    let list = between(diff().resume(text("b\0a\0b\0"))).unwrap();
    assert_eq!(names(&list), ["b", "a", "b"]);
    assert!(matches!(
        between(diff().resume(Reply::Text(None))),
        Err(GitError::Command)
    ));
    assert!(matches!(
        between(base().resume(Reply::Text(None))),
        Err(GitError::Command)
    ));
}

#[test]
fn files_between_references_are_listed_by_libgit2() {
    let diff = || match git(true).files_between_refs("a", Some("b")) {
        Progress::Ask(Action::LibGitDiff(from, to), op) => {
            assert_eq!((from.as_str(), to.as_str()), ("a", "b"));
            op
        }
        _ => panic!("no diff"),
    };
    let Progress::Ask(Action::Probe(asked), op) =
        diff().resume(Reply::Paths(Some(vec![path("z"), path("a"), path("z"), path("l")])))
    else {
        panic!("no probe");
    };
    assert_eq!(asked.len(), 4);
    let list = between(op.resume(Reply::Presence(vec![HERE, HERE, HERE, BROKEN_LINK]))).unwrap();
    assert_eq!(names(&list), ["a", "z"]);
    assert!(matches!(
        between(diff().resume(Reply::Paths(None))),
        Err(GitError::Diff)
    ));
}

// Capturing.

fn captured(p: Captured) -> (Git, Result<(), GitError>) {
    match p {
        Progress::Done(out) => out,
        Progress::Ask(a, _) => panic!("{a:?}"),
    }
}

#[test]
fn capturing_nothing_notes_nothing() {
    let (git, out) = captured(git(false).capture_index(vec![]));
    assert!(out.is_ok());
    assert!(git.saved_index.unwrap().is_empty());
    assert!(git.saved_worktree.unwrap().is_empty());
}

#[test]
fn index_entries_and_texts_are_captured() {
    let Progress::Ask(Action::ReadGit(c), op) =
        git(false).capture_index(vec![path("a"), path("b")])
    else {
        panic!("no listing");
    };
    assert_eq!(line(&c), ["ls-files", "-s", "-z", "--", "a", "b"]);
    let records = "100755 11 0\ta\0junk\0 \tx\0odd 22 0\tb\0";
    let Progress::Ask(Action::ReadFiles(paths), op) = op.resume(text(records)) else {
        panic!("no reading");
    };
    assert_eq!(names(&paths), ["a", "b"]);
    let (git, out) = captured(op.resume(Reply::Contents(vec![None, Some("text".to_string())])));
    assert!(out.is_ok());
    let saved: Vec<(u32, String, String)> = git
        .saved_index
        .unwrap()
        .into_iter()
        .map(|e| (e.mode, e.oid, e.path.to_text().unwrap()))
        .collect();
    assert_eq!(
        saved,
        [
            (0o100755, "11".to_string(), "a".to_string()),
            (0o100644, "22".to_string(), "b".to_string()),
        ]
    );
    let texts: Vec<(String, String)> = git
        .saved_worktree
        .unwrap()
        .into_iter()
        .map(|(p, t)| (p.to_text().unwrap(), t))
        .collect();
    assert_eq!(texts, [("b".to_string(), "text".to_string())]);
}

#[test]
fn a_failed_capture_changes_nothing() {
    let Progress::Ask(_, op) = git(false).capture_index(vec![path("a")]) else {
        panic!("no listing");
    };
    let (git, out) = captured(op.resume(Reply::Text(None)));
    assert!(matches!(out, Err(GitError::Command)));
    assert!(git.saved_index.is_none() && git.saved_worktree.is_none());
}
