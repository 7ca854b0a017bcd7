use hk::options::{
    not_found_message, HookError, HookOptions, HookProgress, HookRun, HookTask, TraceSwitches,
};
use hk::git::GitError;
use hk::paths::RepoPath;
use hk::repo::GitEnv;
use hk::step::Platform;
use hk::work::{Action, Progress, ProjectConfig, Reply};

const QUIET: TraceSwitches = TraceSwitches {
    cli_trace: false,
    hk_json: false,
    trace_json: false,
};

fn options() -> HookOptions {
    HookOptions {
        files: None,
        all: false,
        check: false,
        exclude: None,
        fix: false,
        glob: None,
        json: false,
        plan: false,
        step: vec![],
        why: None,
        fail_fast: false,
        from_hook: false,
        from_ref: None,
        no_fail_fast: false,
        no_stage: false,
        pr: false,
        skip_step: vec![],
        stage: false,
        staged: false,
        stash: None,
        stats: false,
        to_ref: None,
    }
}

fn env() -> GitEnv {
    GitEnv {
        git_dir: None,
        work_tree: None,
        index_file: None,
        libgit2: false,
        stash_untracked: false,
        stash_backup_count: 0,
        platform: Platform::Linux,
    }
}

fn config(branch: Option<&str>) -> Reply {
    Reply::Config(Some(ProjectConfig {
        default_branch: branch.map(|b| b.to_string()),
        hooks: vec!["pre-commit".to_string(), "pre-push".to_string()],
    }))
}

fn ask(p: HookProgress) -> (Action, HookRun) {
    match p {
        Progress::Ask(a, op) => (a, op),
        Progress::Done(out) => panic!("{out:?}"),
    }
}

fn end(p: HookProgress) -> Result<HookTask, HookError> {
    match p {
        Progress::Done(out) => out,
        Progress::Ask(a, _) => panic!("{a:?}"),
    }
}

fn settled(o: HookOptions, name: &str, switches: TraceSwitches) -> Result<HookTask, HookError> {
    let (a, op) = ask(o.run(name, switches, env()));
    assert!(matches!(a, Action::LoadConfig));
    end(op.resume(config(None)))
}

fn path(s: &str) -> Reply {
    Reply::Path(Some(RepoPath::from_text(s)))
}

#[test]
fn staging_is_asked_for_or_refused() {
    let with = |stage: bool, no_stage: bool| HookOptions {
        stage,
        no_stage,
        ..options()
    };
    assert_eq!(with(true, false).should_stage(), Some(true));
    assert_eq!(with(true, true).should_stage(), Some(true));
    assert_eq!(with(false, true).should_stage(), Some(false));
    assert_eq!(with(false, false).should_stage(), None);
}

#[test]
fn staged_excludes_stash() {
    let o = HookOptions {
        staged: true,
        stash: Some("git".to_string()),
        ..options()
    };
    let e = o.validate().unwrap_err();
    assert_eq!(
        e.message().unwrap(),
        "argument '--staged' cannot be used with '--stash <STASH>'"
    );
    assert!(matches!(
        end(o.run("pre-commit", QUIET, env())),
        Err(HookError::StagedWithStash)
    ));
    for (staged, stash) in [(true, None), (false, Some("git".to_string())), (false, None)] {
        let o = HookOptions {
            staged,
            stash,
            ..options()
        };
        assert!(o.validate().is_ok());
    }
}

#[test]
fn an_installed_hook_is_let_through_without_a_configuration() {
    let o = || HookOptions {
        from_hook: true,
        ..options()
    };
    let (a, op) = ask(o().run("pre-commit", QUIET, env()));
    assert!(matches!(a, Action::FindConfig));
    assert!(matches!(end(op.resume(Reply::Done(false))), Ok(HookTask::Skip)));
    let (_, op) = ask(o().run("pre-commit", QUIET, env()));
    let (a, op) = ask(op.resume(Reply::Done(true)));
    assert!(matches!(a, Action::LoadConfig));
    assert!(matches!(end(op.resume(config(None))), Ok(HookTask::Run(_))));
    let (_, op) = ask(o().run("post-merge", QUIET, env()));
    let (_, op) = ask(op.resume(Reply::Done(true)));
    assert!(matches!(end(op.resume(config(None))), Ok(HookTask::Skip)));
}

#[test]
fn a_configuration_that_does_not_load_is_an_error() {
    let (_, op) = ask(options().run("pre-commit", QUIET, env()));
    let e = end(op.resume(Reply::Config(None))).unwrap_err();
    assert!(matches!(e, HookError::Config));
    assert_eq!(e.message(), None);
}

#[test]
fn stats_plan_and_run_are_told_apart() {
    let o = HookOptions {
        stats: true,
        plan: true,
        ..options()
    };
    assert!(matches!(settled(o, "pre-commit", QUIET), Ok(HookTask::Stats(_))));
    let o = HookOptions {
        plan: true,
        ..options()
    };
    assert!(matches!(settled(o, "pre-commit", QUIET), Ok(HookTask::Plan(_))));
    let o = HookOptions {
        why: Some("".to_string()),
        ..options()
    };
    assert!(matches!(settled(o, "pre-push", QUIET), Ok(HookTask::Plan(_))));
    assert!(matches!(settled(options(), "pre-push", QUIET), Ok(HookTask::Run(_))));
}

#[test]
fn json_needs_a_plan_or_a_trace() {
    let o = || HookOptions {
        json: true,
        ..options()
    };
    let e = settled(o(), "pre-commit", QUIET).unwrap_err();
    assert_eq!(e.message().unwrap(), "--json requires --plan or --why");
    // It is refused before the hook is looked up.
    assert!(matches!(
        settled(o(), "nope", QUIET),
        Err(HookError::JsonWithoutPlan)
    ));
    for (cli_trace, hk_json, trace_json) in
        [(true, false, false), (false, true, false), (false, false, true)]
    {
        let switches = TraceSwitches {
            cli_trace,
            hk_json,
            trace_json,
        };
        assert!(settled(o(), "pre-commit", switches).is_ok());
    }
    let planned = HookOptions { plan: true, ..o() };
    assert!(settled(planned, "pre-commit", QUIET).is_ok());
}

#[test]
fn a_missing_hook_brings_a_suggestion() {
    let e = settled(options(), "pre-comit", QUIET).unwrap_err();
    assert_eq!(
        e.message().unwrap(),
        "Hook 'pre-comit' not found. Did you mean 'pre-commit'?"
    );
    let e = settled(options(), "zzz", QUIET).unwrap_err();
    assert_eq!(e.message().unwrap(), "Hook 'zzz' not found");
    assert!(matches!(e, HookError::NotFound(_)));
    assert_eq!(
        not_found_message("a", Some("b?".to_string())),
        "Hook 'a' not found. b?"
    );
    assert_eq!(not_found_message("a", None), "Hook 'a' not found");
}

#[test]
fn nothing_is_suggested_without_hooks() {
    let (_, op) = ask(options().run("pre-commit", QUIET, env()));
    let none = ProjectConfig {
        default_branch: None,
        hooks: vec![],
    };
    let e = end(op.resume(Reply::Config(Some(none)))).unwrap_err();
    assert_eq!(e.message().unwrap(), "Hook 'pre-commit' not found");
}

/// A run on the files of the branch, once the repository is entered.
fn entered(branch: Option<&str>) -> HookProgress {
    let o = HookOptions {
        pr: true,
        all: true,
        ..options()
    };
    let (_, op) = ask(o.run("pre-commit", QUIET, env()));
    let (a, op) = ask(op.resume(config(branch)));
    assert!(matches!(a, Action::CurrentDir));
    let (_, op) = ask(op.resume(path("/w")));
    let (_, op) = ask(op.resume(path("/w")));
    op.resume(Reply::Done(true))
}

#[test]
fn the_files_of_a_branch_start_at_the_configured_branch() {
    let Ok(HookTask::Run(o)) = end(entered(Some("dev"))) else {
        panic!("not run");
    };
    assert_eq!(o.from_ref.as_deref(), Some("dev"));
    assert_eq!(o.to_ref.as_deref(), Some("HEAD"));
    assert!(o.pr && o.all);
}

#[test]
fn the_files_of_a_branch_start_at_the_default_branch() {
    let (a, op) = ask(entered(Some(" ")));
    assert!(matches!(a, Action::ReadGit(_)));
    let out = end(op.resume(Reply::Text(Some("refs/remotes/origin/trunk\n".to_string()))));
    let Ok(HookTask::Run(o)) = out else {
        panic!("not run");
    };
    assert_eq!(o.from_ref.as_deref(), Some("origin/trunk"));

    let (_, op) = ask(entered(None));
    let (_, op) = ask(op.resume(Reply::Text(None)));
    let (_, op) = ask(op.resume(Reply::Text(None)));
    let Ok(HookTask::Run(o)) = end(op.resume(Reply::Text(None))) else {
        panic!("not run");
    };
    assert_eq!(o.from_ref.as_deref(), Some("main"));
}

#[test]
fn a_repository_that_does_not_open_is_an_error() {
    let o = HookOptions {
        pr: true,
        ..options()
    };
    let (_, op) = ask(o.run("pre-commit", QUIET, env()));
    let (_, op) = ask(op.resume(config(None)));
    let (_, op) = ask(op.resume(path("/w")));
    let e = end(op.resume(Reply::Path(None))).unwrap_err();
    assert!(matches!(e, HookError::Repository(GitError::NoRepository)));
    assert_eq!(e.message().unwrap(), "failed to find git repository");
}
