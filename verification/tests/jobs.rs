use hk::paths::RepoPath;
use hk::progress::{compose_message, file_msg, truncate_progress_message, write_decimal};
use hk::runner::{
    ConditionValue, Execution, FailedStatus, GlobsVar, JobAction, JobContext, JobEnd, JobProgress, JobReply,
    JobRun, Output, SkipReason, StepJob,
};
use hk::step::{classify_shell, Pattern, Platform, RunType, Script, ShellType, Step};
use hk::work::Presence;

const HERE: Presence = Presence {
    target: true,
    entry: true,
};
const BROKEN_LINK: Presence = Presence {
    target: false,
    entry: true,
};
const GONE: Presence = Presence {
    target: false,
    entry: false,
};

fn script(s: &str) -> Option<Script> {
    Some(Script {
        linux: None,
        macos: None,
        windows: None,
        other: Some(s.to_string()),
    })
}

fn own(s: &str) -> Option<String> {
    Some(s.to_string())
}

fn step() -> Step {
    Step {
        name: "lint".to_string(),
        check: script("check {{files}}"),
        ..Default::default()
    }
}

fn job(files: &[&str]) -> StepJob {
    StepJob {
        files: files.iter().map(|f| RepoPath::from_text(f)).collect(),
        check_first: false,
        run_type: RunType::Check,
        shown: true,
    }
}

const CONTEXT: JobContext = JobContext {
    cancelled: false,
    profile_excludes: false,
    has_filters: true,
    platform: Platform::Linux,
};

fn ask(p: JobProgress) -> (JobAction, JobRun) {
    match p {
        JobProgress::Ask(a, op) => (a, op),
        JobProgress::Done(end) => panic!("{end:?}"),
    }
}

fn end(p: JobProgress) -> JobEnd {
    match p {
        JobProgress::Done(end) => end,
        JobProgress::Ask(a, _) => panic!("{a:?}"),
    }
}

fn text(s: &str) -> JobReply {
    JobReply::Text(Some(s.to_string()))
}

fn output(stdout: &str) -> Output {
    Output {
        stdout: stdout.to_string(),
        stderr: "err".to_string(),
        combined: "all".to_string(),
    }
}

/// A job of one file that is there, up to the message.
fn shown(step: Step, job: StepJob, context: JobContext) -> (String, JobRun) {
    let (_, op) = ask(step.run(job, context));
    let (_, op) = ask(op.resume(JobReply::Presence(vec![HERE])));
    let (_, op) = ask(op.resume(JobReply::Done(true)));
    let (_, op) = ask(op.resume(JobReply::Presence(vec![HERE])));
    let (_, op) = ask(op.resume(JobReply::Done(true)));
    let (_, op) = ask(op.resume(text("shown")));
    match ask(op.resume(text("real"))) {
        (JobAction::Show(message), op) => (message, op),
        (other, _) => panic!("{other:?}"),
    }
}

/// The job once its command is executed.
fn executing(step: Step, job: StepJob) -> JobRun {
    let (_, op) = shown(step, job, CONTEXT);
    match ask(op.resume(JobReply::Done(true))) {
        (JobAction::Execute(_), op) => op,
        (other, _) => panic!("{other:?}"),
    }
}

#[test]
fn a_failed_run_is_left_alone() {
    let context = JobContext {
        cancelled: true,
        ..CONTEXT
    };
    assert!(matches!(end(step().run(job(&["a"]), context)), JobEnd::Cancelled(true)));
    let hidden = StepJob {
        shown: false,
        ..job(&["a"])
    };
    assert!(matches!(end(step().run(hidden, context)), JobEnd::Cancelled(false)));
}

#[test]
fn a_false_condition_wins_over_the_profiles() {
    let conditional = || Step {
        job_condition: own("x == 1"),
        ..step()
    };
    let context = JobContext {
        profile_excludes: true,
        ..CONTEXT
    };
    let (a, op) = ask(conditional().run(job(&["a"]), context));
    assert!(matches!(a, JobAction::Evaluate(ref c) if c == "x == 1"));
    assert!(matches!(
        end(op.resume(JobReply::Condition(Some(ConditionValue::Bool(false))))),
        JobEnd::Skipped(SkipReason::ConditionFalse)
    ));
    let (_, op) = ask(conditional().run(job(&["a"]), context));
    assert!(matches!(
        end(op.resume(JobReply::Condition(Some(ConditionValue::Bool(true))))),
        JobEnd::Skipped(SkipReason::Profile)
    ));
    let (_, op) = ask(conditional().run(job(&["a"]), context));
    assert!(matches!(
        end(op.resume(JobReply::Condition(Some(ConditionValue::Other)))),
        JobEnd::Skipped(SkipReason::Profile)
    ));
    let (_, op) = ask(conditional().run(job(&["a"]), context));
    assert!(matches!(
        end(op.resume(JobReply::Condition(None))),
        JobEnd::ConditionFailed
    ));
    assert!(matches!(
        end(step().run(job(&["a"]), context)),
        JobEnd::Skipped(SkipReason::Profile)
    ));
}

#[test]
fn files_that_are_gone_are_left_out() {
    let (a, op) = ask(step().run(job(&["a", "b", "c"]), CONTEXT));
    assert!(matches!(a, JobAction::Probe(ref l) if l.len() == 3));
    let (a, op) = ask(op.resume(JobReply::Presence(vec![HERE, GONE, BROKEN_LINK])));
    assert!(matches!(a, JobAction::Start));
    let (a, op) = ask(op.resume(JobReply::Done(true)));
    assert!(matches!(a, JobAction::Probe(ref l) if l.len() == 2));
    let (a, _) = ask(op.resume(JobReply::Presence(vec![GONE, BROKEN_LINK])));
    let JobAction::Prepare(kept, _) = a else {
        panic!("not prepared");
    };
    let kept: Vec<String> = kept.iter().map(|p| p.to_text().unwrap()).collect();
    assert_eq!(kept, ["c"]);
}

#[test]
fn a_job_without_files_is_skipped_where_it_is_for_some_files() {
    let (_, op) = ask(step().run(job(&["a"]), CONTEXT));
    assert!(matches!(
        end(op.resume(JobReply::Presence(vec![GONE]))),
        JobEnd::Skipped(SkipReason::NoFilesToProcess)
    ));
    let (_, op) = ask(step().run(job(&["a"]), CONTEXT));
    let (_, op) = ask(op.resume(JobReply::Presence(vec![HERE])));
    let (_, op) = ask(op.resume(JobReply::Done(true)));
    assert!(matches!(
        end(op.resume(JobReply::Presence(vec![GONE]))),
        JobEnd::Skipped(SkipReason::NoFilesToProcess)
    ));
    let anywhere = JobContext {
        has_filters: false,
        ..CONTEXT
    };
    let (_, op) = ask(step().run(job(&[]), anywhere));
    let (a, op) = ask(op.resume(JobReply::Presence(vec![])));
    assert!(matches!(a, JobAction::Start));
    assert!(matches!(end(op.resume(JobReply::Done(false))), JobEnd::StartFailed));
}

#[test]
fn a_blank_command_is_no_command() {
    let blank = Step {
        check: script("  \n"),
        ..step()
    };
    let (_, op) = ask(blank.run(job(&["a"]), CONTEXT));
    let (_, op) = ask(op.resume(JobReply::Presence(vec![HERE])));
    let (_, op) = ask(op.resume(JobReply::Done(true)));
    let out = end(op.resume(JobReply::Presence(vec![HERE])));
    assert!(matches!(out, JobEnd::NoCommand(ref m) if m == "lint: no run command"));
}

#[test]
fn templates_know_the_pattern() {
    for (glob, list, regex) in [
        (Some(Pattern::Globs(vec!["*.rs".to_string(), "*.c".to_string()])), 2, ""),
        (Some(Pattern::Regex("^a".to_string())), 0, "^a"),
        (None, 0, ""),
    ] {
        let globbed = Step { glob, ..step() };
        let (_, op) = ask(globbed.run(job(&["a"]), CONTEXT));
        let (_, op) = ask(op.resume(JobReply::Presence(vec![HERE])));
        let (_, op) = ask(op.resume(JobReply::Done(true)));
        let (a, _) = ask(op.resume(JobReply::Presence(vec![HERE])));
        match a {
            JobAction::Prepare(_, GlobsVar::List(l)) => {
                assert_eq!(l.len(), list);
                assert_eq!(regex, "");
            }
            JobAction::Prepare(_, GlobsVar::Text(t)) => assert_eq!(t, regex),
            other => panic!("{other:?}"),
        }
    }
}

#[test]
fn the_command_is_rendered_for_display_and_for_real() {
    let prefixed = || Step {
        prefix: own("mise x --"),
        ..step()
    };
    let prepared = || {
        let (_, op) = ask(prefixed().run(job(&["a"]), CONTEXT));
        let (_, op) = ask(op.resume(JobReply::Presence(vec![HERE])));
        let (_, op) = ask(op.resume(JobReply::Done(true)));
        ask(op.resume(JobReply::Presence(vec![HERE]))).1
    };
    let (a, op) = ask(prepared().resume(JobReply::Done(true)));
    assert!(matches!(a, JobAction::RenderShort(ref t) if t == "mise x -- check {{files}}"));
    let (a, op) = ask(op.resume(JobReply::Text(None)));
    assert!(matches!(a, JobAction::Render(ref t) if t == "mise x -- check {{files}}"));
    let (a, _) = ask(op.resume(text("mise x -- check a")));
    assert!(matches!(a, JobAction::Show(ref m) if m == "1 file –  – mise x -- check {{files}}"));
    let (_, op) = ask(prepared().resume(JobReply::Done(true)));
    let (_, op) = ask(op.resume(text("short")));
    let out = end(op.resume(JobReply::Text(None)));
    assert!(matches!(
        out,
        JobEnd::CommandTemplate(ref m) if m == "lint: failed to render command template"
    ));
}

#[test]
fn the_message_tells_files_pattern_and_command() {
    let globbed = Step {
        glob: Some(Pattern::Globs(vec!["*.rs".to_string(), "*.c".to_string()])),
        ..step()
    };
    assert_eq!(shown(globbed, job(&["a"]), CONTEXT).0, "1 file – *.rs *.c – shown");
    let matching = Step {
        glob: Some(Pattern::Regex("^a".to_string())),
        ..step()
    };
    assert_eq!(shown(matching, job(&["a"]), CONTEXT).0, "1 file – regex: ^a – shown");
    assert_eq!(file_msg(0), "0 files");
    assert_eq!(file_msg(1), "1 file");
    assert_eq!(file_msg(98), "98 files");
    assert_eq!(compose_message(2, "p", "r"), "2 files – p – r");
    for n in [0usize, 9, 10, 4096, usize::MAX] {
        assert_eq!(write_decimal(n), n.to_string());
    }
}

#[test]
fn long_messages_are_cut_to_the_cap() {
    assert_eq!(truncate_progress_message("abcdef", 4), "abc…");
    assert_eq!(truncate_progress_message("abcdef", 1), "…");
    assert_eq!(truncate_progress_message("abcdef", 0), "…");
    assert_eq!(truncate_progress_message("abcdef", 6), "abcdef");
    assert_eq!(console::measure_text_width("…"), 1);
    assert_eq!(console::measure_text_width("a…b…"), 4);
    let colored = truncate_progress_message("\x1b[31mabcdef\x1b[0m", 4);
    assert_eq!(colored, "\x1b[31mabc…\x1b[0m");
}

#[test]
fn styles_do_not_change_where_messages_are_cut() {
    for s in [
        "\x1b[31mabcdef\x1b[0m",
        "ab\x1b[1;31mcd\x1b[mef",
        "abc\x1b[;0038;5m\x1b[0mdef",
        "plain – text…",
        "ab\x1b[2Kcd\x1b[?25lef\x1b[10;20Hgh\x1b[?1049h",
        "abcdef\x1b[mABC[31mdef",
        "\x1b[31m\x1b[0m",
        "ab\x1b]8;;http://x.y\x07link\x1b]8;;\x07cdef",
        "ab\x1b]0;née\x1b\\cd\x1b]2;t\u{9c}ef",
        "ab\x1bPq#0;2\x07\x1b\\cd\x1bP\u{9c}ef",
        "ab\x1b(0cd\x1b)Bef\x1b(B12gh",
        "ab\u{9b}31mcd\u{9b}?25l\u{9b}mef",
        "ab\x1bMcd\x1b=\x1bcef",
        "ab\x1b7 d\x1b8\x1b[1 ef\x1b#8",
        "ab\x1b[12345cde\x1b[>c\x1b(5 \x1b((2;m",
        "",
    ] {
        for max in 1..16 {
            let cut = truncate_progress_message(s, max);
            let width = console::measure_text_width(s);
            assert_eq!(console::measure_text_width(&cut), width.min(max), "{s:?} {max}");
            if width <= max {
                assert_eq!(cut, s);
            } else {
                assert!(console::strip_ansi_codes(&cut).ends_with('…'));
            }
            assert_eq!(truncate_progress_message(&cut, max), cut);
            assert_eq!(
                console::strip_ansi_codes(&cut),
                truncate_progress_message(&console::strip_ansi_codes(s), max)
            );
        }
    }
    assert_eq!(console::measure_text_width("–"), 1);
}

#[test]
fn sequences_of_every_form_are_neither_counted_nor_torn() {
    for (s, expected) in [
        ("\x1b]8;;http://x.y\x07link\x1b]8;;\x07", "\x1b]8;;http://x.y\x07li…\x1b]8;;\x07"),
        ("a\x1b]0;t\x1b\\bcdef\x1b]2;u\u{9c}", "a\x1b]0;t\x1b\\b…\x1b]2;u\u{9c}"),
        ("ab\x1bPq\x07r\x1b\\cdef", "ab\x1bPq\x07r\x1b\\…"),
        ("\x1b(0abcdef\x1b(B", "\x1b(0ab…\x1b(B"),
        ("\u{9b}31mabcdef\u{9b}0m", "\u{9b}31mab…\u{9b}0m"),
        ("\x1bMabcdef\x1b>", "\x1bMab…\x1b>"),
        ("ab\x1b7 def\x1b8", "ab\x1b7…\x1b8"),
        ("ab\x1b[12345cdef\x1b(5", "ab\x1b[12345…\x1b(5"),
    ] {
        assert_eq!(truncate_progress_message(s, 3), expected);
        assert_eq!(console::measure_text_width(expected), 3);
        assert_eq!(truncate_progress_message(s, 6), s);
    }
}

#[test]
fn the_message_of_a_job_is_capped() {
    let globbed = Step {
        glob: Some(Pattern::Regex("x".repeat(5000))),
        ..step()
    };
    let message = shown(globbed, job(&["a"]), CONTEXT).0;
    assert_eq!(console::measure_text_width(&message), 2048);
    assert!(message.starts_with("1 file – regex: xxx") && message.ends_with('…'));
}

#[test]
fn the_number_of_files_leads_whatever_follows() {
    for odd in ["漢", "\x1b]0;", "\x1b[", "a\u{301}", "\t", "\u{9b}\u{7f}", "👩\u{200d}👧x"] {
        let globbed = Step {
            glob: Some(Pattern::Regex(odd.repeat(5000))),
            ..step()
        };
        let message = shown(globbed, job(&["a"]), CONTEXT).0;
        assert!(message.starts_with("1 file – "), "{odd:?}");
        let whole = compose_message(2, &odd.repeat(5000), "run");
        let cut = truncate_progress_message(&whole, 2048);
        assert!(cut == whole || cut.contains('…'), "{odd:?}");
        assert!(whole.starts_with(cut.split('…').next().unwrap()), "{odd:?}");
    }
}

#[test]
fn scripts_run_in_sh_unless_a_shell_is_given() {
    let line = step().command_line(Platform::Linux, "real".to_string());
    assert_eq!(line.program, "sh");
    assert_eq!(line.args, ["-o", "errexit", "-c"]);
    assert_eq!(line.script, "real");
    assert!(!line.raw && !line.inherit && line.stdin.is_none() && line.dir.is_none());
    let bash = Step {
        shell: script(" bash  -eu -c "),
        dir: own("sub"),
        ..step()
    };
    let line = bash.command_line(Platform::Linux, "x".to_string());
    assert_eq!(line.program, "bash");
    assert_eq!(line.args, ["-eu", "-c"]);
    assert_eq!(line.dir.as_deref(), Some("sub"));
    let line = step().command_line(Platform::Windows, "x".to_string());
    assert_eq!(line.program, "cmd.exe");
    assert_eq!(line.args, ["/c"]);
    assert!(line.raw);
    let cmd = || Step {
        shell: script("CMD.EXE /d /c"),
        ..step()
    };
    assert!(cmd().command_line(Platform::Windows, "x".to_string()).raw);
    assert!(!cmd().command_line(Platform::Linux, "x".to_string()).raw);
    assert!(!bash.command_line(Platform::Windows, "x".to_string()).raw);
    let blank = Step {
        shell: script(" "),
        ..step()
    };
    assert!(!blank.has_named_shell(Platform::Linux));
    assert!(bash.has_named_shell(Platform::Linux) && step().has_named_shell(Platform::Linux));
}

#[test]
fn standard_input_and_variables_are_rendered() {
    let fed = Step {
        stdin: own("{{files_in}}"),
        env: vec![
            ("A".to_string(), "{{a}}".to_string()),
            ("B".to_string(), "{{b}}".to_string()),
        ],
        ..step()
    };
    let (_, op) = shown(fed, job(&["a"]), CONTEXT);
    let (a, op) = ask(op.resume(JobReply::Done(true)));
    assert!(matches!(a, JobAction::Render(ref t) if t == "{{files_in}}"));
    let (a, op) = ask(op.resume(text("input")));
    assert!(matches!(a, JobAction::Render(ref t) if t == "{{a}}"));
    let (a, op) = ask(op.resume(text("1")));
    assert!(matches!(a, JobAction::Render(ref t) if t == "{{b}}"));
    let (a, _) = ask(op.resume(text("2")));
    let JobAction::Execute(line) = a else {
        panic!("not executed");
    };
    assert_eq!(line.stdin.as_deref(), Some("input"));
    assert_eq!(
        line.env,
        [
            ("A".to_string(), "1".to_string()),
            ("B".to_string(), "2".to_string())
        ]
    );
    assert_eq!(line.script, "real");
}

#[test]
fn a_template_that_does_not_render_ends_the_job() {
    let fed = Step {
        stdin: own("x"),
        ..step()
    };
    let (_, op) = shown(fed, job(&["a"]), CONTEXT);
    let (_, op) = ask(op.resume(JobReply::Done(true)));
    assert!(matches!(end(op.resume(JobReply::Text(None))), JobEnd::Template));
    let vars = Step {
        env: vec![("A".to_string(), "x".to_string())],
        ..step()
    };
    let (_, op) = shown(vars, job(&["a"]), CONTEXT);
    let (_, op) = ask(op.resume(JobReply::Done(true)));
    assert!(matches!(end(op.resume(JobReply::Text(None))), JobEnd::Template));
}

#[test]
fn an_interactive_step_has_the_terminal_to_itself() {
    let interactive = Step {
        interactive: true,
        ..step()
    };
    let (_, op) = shown(interactive, job(&["a"]), CONTEXT);
    let (a, op) = ask(op.resume(JobReply::Done(true)));
    assert!(matches!(a, JobAction::Pause));
    let (a, op) = ask(op.resume(JobReply::Done(true)));
    assert!(matches!(a, JobAction::Execute(ref l) if l.inherit));
    let (a, op) = ask(op.resume(JobReply::Executed(Execution::Success(output("")))));
    assert!(matches!(a, JobAction::Resume));
    assert!(matches!(
        end(op.resume(JobReply::Done(true))),
        JobEnd::Finished(_, false)
    ));
}

#[test]
fn a_command_that_lists_files_should_fail() {
    let listing = || Step {
        check: None,
        check_list_files: script("list"),
        ..step()
    };
    let ok = |s: &str| JobReply::Executed(Execution::Success(output(s)));
    assert!(matches!(
        end(executing(listing(), job(&["a"])).resume(ok("a\n"))),
        JobEnd::Finished(_, true)
    ));
    assert!(matches!(
        end(executing(listing(), job(&["a"])).resume(ok(" \n"))),
        JobEnd::Finished(_, false)
    ));
    assert!(matches!(
        end(executing(step(), job(&["a"])).resume(ok("a\n"))),
        JobEnd::Finished(_, false)
    ));
}

#[test]
fn a_failed_check_decides_what_to_fix() {
    let failed = || JobReply::Executed(Execution::ScriptFailed(output("a\n")));
    let first = |run_type: RunType| StepJob {
        check_first: true,
        run_type,
        ..job(&["a"])
    };
    let diffing = || Step {
        check_diff: script("diff"),
        ..step()
    };
    let out = end(executing(diffing(), first(RunType::Fix)).resume(failed()));
    assert!(matches!(out, JobEnd::CheckListFailed(ref o) if o.stdout == "a\n"));
    let listing = Step {
        check: None,
        check_list_files: script("list"),
        ..step()
    };
    let out = end(executing(listing, first(RunType::Check)).resume(failed()));
    assert!(matches!(out, JobEnd::CheckListFailed(_)));
    // The same command under another name counts too.
    let twice = Step {
        check: script("same"),
        check_list_files: script("same"),
        ..step()
    };
    let out = end(executing(twice, first(RunType::Check)).resume(failed()));
    assert!(matches!(out, JobEnd::CheckListFailed(_)));
    // Not in check first mode.
    let listing = Step {
        check: None,
        check_diff: script("diff"),
        ..step()
    };
    let out = end(executing(listing, job(&["a"])).resume(failed()));
    assert!(matches!(out, JobEnd::Failed(Some(_), FailedStatus::Failed, ref r) if r == "real"));
}

#[test]
fn a_failed_command_is_a_warning_only_in_a_first_check() {
    let first = |run_type: RunType| StepJob {
        check_first: true,
        run_type,
        ..job(&["a"])
    };
    let failed = || JobReply::Executed(Execution::ScriptFailed(output("")));
    let out = end(executing(step(), first(RunType::Check)).resume(failed()));
    assert!(matches!(out, JobEnd::Failed(Some(_), FailedStatus::Warn, _)));
    let out = end(executing(step(), first(RunType::Fix)).resume(failed()));
    assert!(matches!(out, JobEnd::Failed(Some(_), FailedStatus::Failed, _)));
    let killed = JobReply::Executed(Execution::Failed);
    let out = end(executing(step(), first(RunType::Check)).resume(killed));
    assert!(matches!(out, JobEnd::Failed(None, FailedStatus::Warn, ref r) if r == "real"));
}

#[test]
fn commands_are_preferred_in_order() {
    let on = |s: Option<&Script>| s.map(|s| s.to_text(Platform::Linux));
    let all = Step {
        check: script("c"),
        check_diff: script("d"),
        check_list_files: script("l"),
        fix: script("f"),
        ..Default::default()
    };
    assert_eq!(on(all.run_cmd(RunType::Fix)), own("f"));
    assert_eq!(on(all.run_cmd(RunType::Check)), own("c"));
    assert_eq!(on(all.check_first_cmd()), own("d"));
    let no_fix = Step { fix: None, ..all };
    assert_eq!(on(no_fix.run_cmd(RunType::Fix)), own("c"));
    let no_check = Step {
        check: None,
        ..no_fix
    };
    assert_eq!(on(no_check.run_cmd(RunType::Check)), own("d"));
    assert_eq!(on(no_check.run_cmd(RunType::Fix)), own("d"));
    let no_diff = Step {
        check_diff: None,
        ..no_check
    };
    assert_eq!(on(no_diff.run_cmd(RunType::Check)), own("l"));
    assert_eq!(on(no_diff.check_first_cmd()), own("l"));
    let checked = Step {
        check: script("c"),
        ..no_diff
    };
    assert_eq!(on(checked.check_first_cmd()), own("c"));
    let none: Step = Default::default();
    assert!(none.run_cmd(RunType::Fix).is_none() && none.check_first_cmd().is_none());
}

#[test]
fn scripts_differ_from_system_to_system() {
    let s = Script {
        linux: own("l"),
        macos: None,
        windows: own("w"),
        other: own("o"),
    };
    assert_eq!(s.to_text(Platform::Linux), "l");
    assert_eq!(s.to_text(Platform::Macos), "o");
    assert_eq!(s.to_text(Platform::Windows), "w");
    assert_eq!(s.to_text(Platform::Other), "o");
    let empty = Script {
        linux: own("l"),
        macos: None,
        windows: None,
        other: None,
    };
    assert_eq!(empty.to_text(Platform::Other), "");
    assert!(s.equals(&s) && !s.equals(&empty));
}

#[test]
fn shells_are_told_by_their_program() {
    let shell = |line: &str, platform: Platform| {
        let s = Step {
            shell: script(line),
            ..Default::default()
        };
        match s.shell_type(platform) {
            ShellType::Bash => "bash".to_string(),
            ShellType::Dash => "dash".to_string(),
            ShellType::Fish => "fish".to_string(),
            ShellType::Sh => "sh".to_string(),
            ShellType::Zsh => "zsh".to_string(),
            ShellType::Cmd => "cmd".to_string(),
            ShellType::PowerShell => "powershell".to_string(),
            ShellType::Other(name) => format!("other {name}"),
        }
    };
    for (line, expected) in [
        ("bash", "bash"),
        ("/usr/bin/bash -e", "bash"),
        ("C:\\Git\\bin\\BASH.EXE -c", "bash"),
        ("dash", "dash"),
        ("Fish", "fish"),
        ("/bin/sh", "sh"),
        ("zsh.exe", "zsh"),
        ("cmd.exe /c", "cmd"),
        ("PowerShell", "powershell"),
        ("pwsh.exe -Command", "powershell"),
        ("/opt/Nu --flag", "other Nu"),
        ("bash.exe.exe", "other bash.exe.exe"),
        ("", "sh"),
        ("dir/", "sh"),
    ] {
        assert_eq!(shell(line, Platform::Linux), expected, "{line}");
    }
    assert_eq!(shell("", Platform::Windows), "cmd");
    assert_eq!(shell("SH", Platform::Windows), "sh");
    assert_eq!(shell("ÉSH", Platform::Linux), "other ÉSH");
    let none: Step = Default::default();
    assert!(matches!(none.shell_type(Platform::Macos), ShellType::Sh));
    assert!(matches!(none.shell_type(Platform::Windows), ShellType::Cmd));
    assert!(matches!(
        classify_shell("nu", "NU", Platform::Linux),
        ShellType::Other(ref n) if n == "NU"
    ));
}

#[test]
fn an_interactive_step_is_exclusive() {
    let mut s = Step {
        interactive: true,
        ..Default::default()
    };
    assert!(s.init("tui").is_ok());
    assert_eq!(s.name, "tui");
    assert!(s.exclusive);
    let mut plain: Step = Default::default();
    assert!(plain.init("p").is_ok());
    assert!(!plain.exclusive);
    let mut both = Step {
        interactive: true,
        stdin: own("x"),
        ..Default::default()
    };
    let e = both.init("b").unwrap_err();
    assert_eq!(
        e.message(),
        "Step 'b' can't have both `stdin` and `interactive = true`."
    );
    assert!(both.name.is_empty() && !both.exclusive);
}

#[test]
fn a_skipped_step_is_shown_or_hidden() {
    let notice = step().mark_skipped(SkipReason::ConditionFalse, true, "why".to_string());
    assert_eq!(notice.step, "lint");
    assert_eq!(notice.reason, SkipReason::ConditionFalse);
    assert_eq!(notice.message.as_deref(), Some("why"));
    let notice = step().mark_skipped(SkipReason::Profile, false, "why".to_string());
    assert_eq!(notice.message, None);
}
