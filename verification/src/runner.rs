//! Single step job execution.
//!
//! A job checks its condition and profiles, leaves out files that are gone,
//! renders its command, runs it and judges the outcome. It never touches a
//! file, a template or a process itself: it says what it wants done next, and
//! goes on when it is handed the reply.
use crate::paths::{copy_paths, raw_paths, RepoPath};
use crate::progress::{
    compose_message, files_text, is_styled, is_truncated, law_job_messages_are_capped,
    law_the_number_of_files_leads, message_text, text_width, truncate_progress_message,
    MAX_PROGRESS_MESSAGE_CHARS,
};
use crate::step::{is_script, lowercase_of, program_name, shell_of, Pattern, Platform, RunType};
use crate::step::{Script, ShellType, Step};
use crate::text::{
    blank, concat2, concat3, copy_texts, is_blank, opt_text, split_words, texts, words,
};
use crate::work::Presence;
use vstd::prelude::*;

verus! {

/// A job of a step: some files to check or to fix.
#[derive(Debug)]
pub struct StepJob {
    /// The files.
    pub files: Vec<RepoPath>,
    /// Whether files are checked before anything is fixed.
    pub check_first: bool,
    /// Whether files are checked or fixed.
    pub run_type: RunType,
    /// Whether the job is already shown.
    pub shown: bool,
}

/// What a job has to know of the run that it belongs to.
#[derive(Debug, Clone, Copy, PartialEq, Eq, Structural)]
pub struct JobContext {
    /// Whether the run has already failed.
    pub cancelled: bool,
    /// Whether the profiles exclude the step.
    pub profile_excludes: bool,
    /// Whether the step is only for some files.
    pub has_filters: bool,
    /// The system that commands run on.
    pub platform: Platform,
}

/// Why a job is skipped.
#[derive(Debug, Clone, Copy, PartialEq, Eq, Structural)]
pub enum SkipReason {
    /// Its condition is false.
    ConditionFalse,
    /// The profiles exclude its step.
    Profile,
    /// All its files are gone.
    NoFilesToProcess,
}

/// What becomes of a step that is skipped.
#[derive(Debug)]
pub struct SkipNotice {
    /// The name of the step, whose dependents need not wait any more.
    pub step: String,
    /// Why it is skipped.
    pub reason: SkipReason,
    /// The message to show; where there is none, the step is hidden.
    pub message: Option<String>,
}

/// What a command printed.
#[derive(Debug)]
pub struct Output {
    /// To standard output.
    pub stdout: String,
    /// To standard error.
    pub stderr: String,
    /// To both, in the order in which it was printed.
    pub combined: String,
}

/// How a command ended.
#[derive(Debug)]
pub enum Execution {
    /// It succeeded.
    Success(Output),
    /// It ran, and failed.
    ScriptFailed(Output),
    /// It could not be run to its end.
    Failed,
}

/// The `globs` variable of templates.
#[derive(Debug)]
pub enum GlobsVar {
    /// A list of globs.
    List(Vec<String>),
    /// A regular expression.
    Text(String),
}

/// A command line to execute.
#[derive(Debug)]
pub struct CommandLine {
    /// The program.
    pub program: String,
    /// The arguments before the script.
    pub args: Vec<String>,
    /// The script, which is the last argument.
    pub script: String,
    /// Whether program and script are handed over without quoting.
    pub raw: bool,
    /// What the command reads from standard input.
    pub stdin: Option<String>,
    /// Whether the command has the terminal to itself.
    pub inherit: bool,
    /// The directory to run in.
    pub dir: Option<String>,
    /// Environment variables.
    pub env: Vec<(String, String)>,
}

/// A piece of outside work that a job asks for.
#[derive(Debug)]
pub enum JobAction {
    /// Evaluate a condition. Reply: `Condition`.
    Evaluate(String),
    /// Look what lies at some paths. Reply: `Presence`.
    Probe(Vec<RepoPath>),
    /// Show the job, wait for its turn and start it. Reply: `Done`.
    Start,
    /// Keep these files, and make templates know them and the `globs`
    /// variable. Reply: `Done`.
    Prepare(Vec<RepoPath>, GlobsVar),
    /// Render a template with files cut short, for display. Reply: `Text`.
    RenderShort(String),
    /// Render a template. Reply: `Text`.
    Render(String),
    /// Show a message. Reply: `Done`.
    Show(String),
    /// Stop showing progress. Reply: `Done`.
    Pause,
    /// Execute a command line. Reply: `Executed`.
    Execute(CommandLine),
    /// Show progress again. Reply: `Done`.
    Resume,
}

/// The value of a condition.
#[derive(Debug, Clone, Copy, PartialEq, Eq, Structural)]
pub enum ConditionValue {
    /// True or false.
    Bool(bool),
    /// Anything else.
    Other,
}

/// The outcome of a piece of outside work.
#[derive(Debug)]
pub enum JobReply {
    /// Whether it went well.
    Done(bool),
    /// The value of the condition, or nothing where it could not be evaluated.
    Condition(Option<ConditionValue>),
    /// What lies at each path that was asked for.
    Presence(Vec<Presence>),
    /// The rendered text, or nothing where that failed.
    Text(Option<String>),
    /// How the command ended.
    Executed(Execution),
}

/// How a failed job is shown.
#[derive(Debug, Clone, Copy, PartialEq, Eq, Structural)]
pub enum FailedStatus {
    /// As a warning: the failed check decides what is to be fixed.
    Warn,
    /// As a failure.
    Failed,
}

/// How a job ends.
#[derive(Debug)]
pub enum JobEnd {
    /// It was not begun, for the run had failed; says whether to hide it.
    Cancelled(bool),
    /// It was skipped.
    Skipped(SkipReason),
    /// Its condition could not be evaluated.
    ConditionFailed,
    /// It could not be started.
    StartFailed,
    /// There is no command to run; has the message.
    NoCommand(String),
    /// Its command could not be rendered; has the message.
    CommandTemplate(String),
    /// Another template could not be rendered.
    Template,
    /// A check that lists what to fix failed, as such checks do.
    CheckListFailed(Output),
    /// Its command failed: what it printed, where it ran, how the job is
    /// shown, and the command.
    Failed(Option<Output>, FailedStatus, String),
    /// It is done: what its command printed, and whether the command listed
    /// files to fix although it succeeded.
    Finished(Output, bool),
}

/// How far a job has come.
pub enum JobProgress {
    /// The action to perform, and the job that waits for its reply.
    Ask(JobAction, JobRun),
    /// The job is over.
    Done(JobEnd),
}

/// Where a job stands.
#[derive(Debug)]
pub enum JobPhase {
    /// Waits for its condition.
    Condition,
    /// Waits for what lies at its files, before it starts.
    Probe,
    /// Waits for its turn.
    Start,
    /// Waits for what lies at its files, after it started.
    Recheck,
    /// Waits for templates to be prepared; has the command template.
    Prepare(String),
    /// Waits for the command to show; has the command template.
    Display(String),
    /// Waits for the command; has its template and what to show of it.
    Command(String),
    /// Waits for the message to be shown; has the command.
    Message(String),
    /// Waits for standard input; has the command line so far.
    Stdin(CommandLine),
    /// Waits for progress to be paused; has the command line so far.
    Pause(CommandLine),
    /// Waits for an environment variable; has the command line so far.
    Env(CommandLine),
    /// Waits for the command to end; has the command.
    Execute(String),
    /// Waits for progress to resume; has the command and how it ended.
    Resume(String, Execution),
}

/// A job on its way.
#[derive(Debug)]
pub struct JobRun {
    /// The step.
    pub step: Step,
    /// The job.
    pub job: StepJob,
    /// The run that the job belongs to.
    pub context: JobContext,
    /// What is being waited for.
    pub phase: JobPhase,
}

/// Whether there is a directory entry at the `i`-th path asked for, be it a
/// broken symbolic link.
pub open spec fn entry_at(list: Seq<Presence>, i: int) -> bool {
    0 <= i < list.len() && list[i].entry
}

/// The files that are still there.
pub open spec fn remaining(files: Seq<Seq<u8>>, presence: Seq<Presence>) -> Seq<Seq<u8>>
    decreases files.len(),
{
    if files.len() == 0 {
        Seq::empty()
    } else {
        let before = remaining(files.drop_last(), presence);
        if entry_at(presence, files.len() - 1) {
            before.push(files.last())
        } else {
            before
        }
    }
}

/// What a probe found; nothing where the reply is of another kind.
pub open spec fn probed(reply: JobReply) -> Seq<Presence> {
    match reply {
        JobReply::Presence(list) => list@,
        _ => Seq::empty(),
    }
}

/// The text that was rendered.
pub open spec fn rendered(reply: JobReply) -> Option<Seq<char>> {
    match reply {
        JobReply::Text(Some(t)) => Some(t@),
        _ => None,
    }
}

/// How the command ended.
pub open spec fn executed(reply: JobReply) -> Execution {
    match reply {
        JobReply::Executed(e) => e,
        _ => Execution::Failed,
    }
}

/// Takes the text that was rendered.
fn into_rendered(reply: JobReply) -> (r: Option<String>)
    ensures
        opt_text(r) == rendered(reply),
{
    match reply {
        JobReply::Text(t) => t,
        _ => None,
    }
}

/// Keeps the files that are still there.
fn keep_remaining(files: &Vec<RepoPath>, presence: &Vec<Presence>) -> (r: Vec<RepoPath>)
    ensures
        raw_paths(r@) == remaining(raw_paths(files@), presence@),
{
    let ghost all = raw_paths(files@);
    let mut out: Vec<RepoPath> = Vec::new();
    let mut i: usize = 0;
    proof {
        assert(raw_paths(out@) == remaining(all.take(0), presence@));
    }
    while i < files.len()
        invariant
            i <= files.len(),
            all == raw_paths(files@),
            raw_paths(out@) == remaining(all.take(i as int), presence@),
        decreases files.len() - i,
    {
        let ghost was = out@;
        proof {
            assert(all.take(i + 1).drop_last() == all.take(i as int));
            assert(all.take(i + 1).last() == files@[i as int]@);
        }
        if i < presence.len() && presence[i].entry {
            out.push(files[i].copy());
            proof {
                assert(raw_paths(out@) == raw_paths(was).push(files@[i as int]@));
            }
        }
        i += 1;
    }
    proof {
        assert(all.take(all.len() as int) == all);
    }
    out
}

/// Texts with blanks between them.
pub open spec fn spaced(list: Seq<Seq<char>>) -> Seq<char>
    decreases list.len(),
{
    if list.len() == 0 {
        Seq::empty()
    } else if list.len() == 1 {
        list[0]
    } else {
        spaced(list.drop_last()) + " "@ + list.last()
    }
}

/// Joins texts with blanks.
fn join_spaced(list: &Vec<String>) -> (r: String)
    ensures
        r@ == spaced(texts(list@)),
{
    let ghost all = texts(list@);
    let mut out = String::new();
    let mut i: usize = 0;
    proof {
        assert(out@ == spaced(all.take(0)));
    }
    while i < list.len()
        invariant
            i <= list.len(),
            all == texts(list@),
            out@ == spaced(all.take(i as int)),
        decreases list.len() - i,
    {
        proof {
            assert(all.take(i + 1).drop_last() == all.take(i as int));
            assert(all.take(i + 1).last() == list@[i as int]@);
        }
        if i == 0 {
            out = list[i].clone();
        } else {
            out = concat3(out.as_str(), " ", list[i].as_str());
        }
        i += 1;
    }
    proof {
        assert(all.take(all.len() as int) == all);
    }
    out
}

/// What is shown of a pattern.
pub open spec fn pattern_text(glob: Option<Pattern>) -> Seq<char> {
    match glob {
        Some(Pattern::Globs(g)) => spaced(texts(g@)),
        Some(Pattern::Regex(p)) => "regex: "@ + p@,
        None => Seq::empty(),
    }
}

/// Whether a variable holds what templates are to know of a pattern.
pub open spec fn globs_of(glob: Option<Pattern>, var: GlobsVar) -> bool {
    match glob {
        Some(Pattern::Globs(g)) => var matches GlobsVar::List(l) && texts(l@) == texts(g@),
        Some(Pattern::Regex(p)) => var matches GlobsVar::Text(t) && t@ == p@,
        None => var matches GlobsVar::List(l) && l@.len() == 0,
    }
}

/// Whether a script is there and says the same as the optional other one.
pub open spec fn same_script(script: Option<Script>, other: Option<Script>) -> bool {
    script is Some && other is Some && script->0.same_as(other->0)
}

/// Tells whether a script is there and says the same as the optional other one.
fn are_same(script: Option<&Script>, other: &Option<Script>) -> (r: bool)
    ensures
        forall|s: Option<Script>| is_script(script, s) ==> r == #[trigger] same_script(s, *other),
{
    match (script, other) {
        (Some(a), Some(b)) => a.equals(b),
        _ => false,
    }
}

/// The names and values of environment variables.
pub open spec fn env_texts(list: Seq<(String, String)>) -> Seq<(Seq<char>, Seq<char>)> {
    Seq::new(list.len(), |i: int| (list[i].0@, list[i].1@))
}

impl Step {
    /// The command of a job.
    pub open spec fn job_command(self, job: StepJob) -> Option<Script> {
        if job.check_first {
            self.first_command()
        } else {
            self.command(job.run_type)
        }
    }

    /// The command of a job.
    fn find_job_command(&self, job: &StepJob) -> (r: Option<&Script>)
        ensures
            is_script(r, self.job_command(*job)),
    {
        if job.check_first {
            self.check_first_cmd()
        } else {
            self.run_cmd(job.run_type)
        }
    }

    /// The template of a job's command, if there is a command that is not
    /// blank.
    pub open spec fn template(self, job: StepJob, platform: Platform) -> Option<Seq<char>> {
        let script = self.job_command(job);
        if script is None || is_blank(script->0.on(platform)) {
            None
        } else {
            match self.prefix {
                Some(prefix) => Some(prefix@ + " "@ + script->0.on(platform)),
                None => Some(script->0.on(platform)),
            }
        }
    }

    /// Finds the template of a job's command.
    pub fn find_template(&self, job: &StepJob, platform: Platform) -> (r: Option<String>)
        ensures
            opt_text(r) == self.template(*job, platform),
    {
        let run = match self.find_job_command(job) {
            Some(script) => script.to_text(platform),
            None => {
                return None;
            },
        };
        if blank(run.as_str()) {
            return None;
        }
        match &self.prefix {
            Some(prefix) => Some(concat3(prefix.as_str(), " ", run.as_str())),
            None => Some(run),
        }
    }

    /// Whether the command line of this step goes to the command interpreter
    /// of Windows, which has quoting rules of its own.
    pub open spec fn is_raw(self, platform: Platform) -> bool {
        let name = program_name(self.shell_line(platform));
        platform == Platform::Windows && shell_of(lowercase_of(name), name, platform) is Cmd
    }

    /// Whether a shell that is given names a program.
    pub open spec fn names_shell(self, platform: Platform) -> bool {
        self.shell is Some ==> words(self.shell_line(platform)).len() > 0
    }

    /// Tells whether a shell that is given names a program.
    pub fn has_named_shell(&self, platform: Platform) -> (r: bool)
        ensures
            r == self.names_shell(platform),
    {
        match &self.shell {
            Some(s) => {
                let list = split_words(s.to_text(platform).as_str());
                proof {
                    assert(texts(list@).len() == list@.len());
                }
                list.len() > 0
            },
            None => true,
        }
    }

    /// The program that runs a script, and the arguments before the script.
    pub open spec fn shell_words(self, platform: Platform) -> Seq<Seq<char>> {
        if self.shell is Some {
            words(self.shell_line(platform))
        } else if self.is_raw(platform) {
            seq!["cmd.exe"@, "/c"@]
        } else {
            seq!["sh"@, "-o"@, "errexit"@, "-c"@]
        }
    }

    /// Whether `line` runs a script for this step.
    pub open spec fn runs(self, platform: Platform, script: Seq<char>, line: CommandLine) -> bool {
        let shell = self.shell_words(platform);
        &&& line.program@ == shell[0] && texts(line.args@) == shell.skip(1)
        &&& line.script@ == script && line.raw == self.is_raw(platform)
        &&& line.stdin is None && line.inherit == self.interactive
        &&& opt_text(line.dir) == opt_text(self.dir)
        &&& line.env@.len() == 0
    }

    /// Makes the command line that runs a script for this step.
    pub fn command_line(&self, platform: Platform, script: String) -> (r: CommandLine)
        requires
            self.names_shell(platform),
        ensures
            self.runs(platform, script@, r),
    {
        let raw = match self.shell_type(platform) {
            ShellType::Cmd => platform == Platform::Windows,
            _ => false,
        };
        let mut list: Vec<String> = match &self.shell {
            Some(s) => split_words(s.to_text(platform).as_str()),
            None => {
                if raw {
                    crate::work::Command::of(&["cmd.exe", "/c"]).args
                } else {
                    crate::work::Command::of(&["sh", "-o", "errexit", "-c"]).args
                }
            },
        };
        proof {
            assert(texts(list@) == self.shell_words(platform));
            assert(texts(list@).len() == list@.len());
        }
        let ghost all = list@;
        let program = list.remove(0);
        proof {
            assert(texts(all)[0] == all[0]@);
            assert(texts(list@) == texts(all).skip(1));
        }
        CommandLine {
            program,
            args: list,
            script,
            raw,
            stdin: None,
            inherit: self.interactive,
            dir: self.dir.clone(),
            env: Vec::new(),
        }
    }

    /// Mark this step as skipped with the given reason: what to show of it,
    /// where the reason is to be shown at all.
    pub fn mark_skipped(&self, reason: SkipReason, display: bool, message: String) -> (r:
        SkipNotice)
        ensures
            r.step@ == self.name@ && r.reason == reason,
            r.message == (if display {
                Some(message)
            } else {
                None
            }),
    {
        SkipNotice {
            step: self.name.clone(),
            reason,
            message: if display {
                Some(message)
            } else {
                None
            },
        }
    }

    /// Execute a single job.
    ///
    /// 1. A run that has failed is left alone.
    /// 2. The condition is evaluated, if there is one.
    /// 3. The profiles count after the condition.
    /// 4. Files that are gone are left out.
    /// 5. The job waits for its turn, and starts. Files that went meanwhile
    ///    are left out too.
    /// 6. The command is rendered.
    /// 7. The command is executed.
    /// 8. The outcome is judged.
    pub fn run(self, job: StepJob, context: JobContext) -> (r: JobProgress)
        ensures
            if context.cancelled {
                r matches JobProgress::Done(JobEnd::Cancelled(hide)) && hide == job.shown
            } else {
                match self.job_condition {
                    Some(condition) => {
                        &&& r matches JobProgress::Ask(JobAction::Evaluate(asked), op)
                        &&& asked@ == condition@
                        &&& op == JobRun { step: self, job, context, phase: JobPhase::Condition }
                    },
                    None => JobRun::begins(self, job, context, r),
                }
            },
    {
        if context.cancelled {
            return JobProgress::Done(JobEnd::Cancelled(job.shown));
        }
        let condition = self.job_condition.clone();
        match condition {
            Some(condition) => JobProgress::Ask(
                JobAction::Evaluate(condition),
                JobRun { step: self, job, context, phase: JobPhase::Condition },
            ),
            None => JobRun::begin(self, job, context),
        }
    }
}

impl JobRun {
    /// What stays as it was.
    pub open spec fn keeps(&self, pre: JobRun) -> bool {
        self.step == pre.step && self.job == pre.job && self.context == pre.context
    }

    /// How a job begins once its condition holds: it is skipped where the
    /// profiles exclude its step, else its files are looked for.
    pub open spec fn begins(step: Step, job: StepJob, context: JobContext, r: JobProgress) -> bool {
        if context.profile_excludes {
            r == JobProgress::Done(JobEnd::Skipped(SkipReason::Profile))
        } else {
            &&& r matches JobProgress::Ask(JobAction::Probe(paths), op)
            &&& raw_paths(paths@) == raw_paths(job.files@)
            &&& op == JobRun { step, job, context, phase: JobPhase::Probe }
        }
    }

    /// Begins a job.
    fn begin(step: Step, job: StepJob, context: JobContext) -> (r: JobProgress)
        ensures
            JobRun::begins(step, job, context, r),
    {
        if context.profile_excludes {
            return JobProgress::Done(JobEnd::Skipped(SkipReason::Profile));
        }
        let paths = copy_paths(&job.files);
        JobProgress::Ask(
            JobAction::Probe(paths),
            JobRun { step, job, context, phase: JobPhase::Probe },
        )
    }

    /// Whether `job` is the job of `pre` with these files.
    pub open spec fn narrows(job: StepJob, pre: StepJob, files: Seq<Seq<u8>>) -> bool {
        raw_paths(job.files@) == files && job == (StepJob { files: job.files, ..pre })
    }

    /// Whether the job has nothing to do without files.
    pub open spec fn idle(pre: JobRun, files: Seq<Seq<u8>>) -> bool {
        files.len() == 0 && pre.context.has_filters
    }

    /// That the command is asked for to be executed.
    pub open spec fn executes(pre: JobRun, line: CommandLine, r: JobProgress) -> bool {
        &&& r matches JobProgress::Ask(JobAction::Execute(asked), post)
        &&& post.keeps(pre) && asked == line
        &&& post.phase matches JobPhase::Execute(run)
        &&& run@ == line.script@
    }

    /// How it goes on with the environment: the next variable is rendered, or
    /// the command is executed.
    pub open spec fn renders_env(pre: JobRun, line: CommandLine, r: JobProgress) -> bool {
        if line.env@.len() < pre.step.env@.len() {
            &&& r matches JobProgress::Ask(JobAction::Render(template), post)
            &&& template@ == pre.step.env@[line.env@.len() as int].1@
            &&& post.keeps(pre) && post.phase == JobPhase::Env(line)
        } else {
            JobRun::executes(pre, line, r)
        }
    }

    /// How it goes on once standard input is settled.
    pub open spec fn settles_terminal(pre: JobRun, line: CommandLine, r: JobProgress) -> bool {
        if pre.step.interactive {
            &&& r matches JobProgress::Ask(JobAction::Pause, post)
            &&& post.keeps(pre) && post.phase == JobPhase::Pause(line)
        } else {
            JobRun::renders_env(pre, line, r)
        }
    }

    /// How the job ends, by how its command ended.
    pub open spec fn judged(step: Step, job: StepJob, run: Seq<char>, e: Execution, r: JobEnd) -> bool {
        let script = step.job_command(job);
        let lists = same_script(script, step.check_list_files);
        let status = if job.check_first && job.run_type == RunType::Check {
            FailedStatus::Warn
        } else {
            FailedStatus::Failed
        };
        match e {
            Execution::Success(out) => r == JobEnd::Finished(
                out,
                lists && !is_blank(out.stdout@),
            ),
            Execution::ScriptFailed(out) => if job.check_first && (lists || same_script(
                script,
                step.check_diff,
            )) {
                r == JobEnd::CheckListFailed(out)
            } else {
                r matches JobEnd::Failed(Some(o), s, text) && o == out && s == status && text@
                    == run
            },
            Execution::Failed => r matches JobEnd::Failed(None, s, text) && s == status && text@
                == run,
        }
    }

    /// How a job goes on when it is told `reply`.
    pub open spec fn follows(pre: JobRun, reply: JobReply, r: JobProgress) -> bool {
        match pre.phase {
            JobPhase::Condition => match reply {
                JobReply::Condition(Some(value)) => if value == ConditionValue::Bool(false) {
                    r == JobProgress::Done(JobEnd::Skipped(SkipReason::ConditionFalse))
                } else {
                    JobRun::begins(pre.step, pre.job, pre.context, r)
                },
                _ => r == JobProgress::Done(JobEnd::ConditionFailed),
            },
            JobPhase::Probe => {
                let files = remaining(raw_paths(pre.job.files@), probed(reply));
                if JobRun::idle(pre, files) {
                    r == JobProgress::Done(JobEnd::Skipped(SkipReason::NoFilesToProcess))
                } else {
                    &&& r matches JobProgress::Ask(JobAction::Start, post)
                    &&& post.step == pre.step && post.context == pre.context
                    &&& JobRun::narrows(post.job, pre.job, files) && post.phase is Start
                }
            },
            JobPhase::Start => if reply == JobReply::Done(true) {
                &&& r matches JobProgress::Ask(JobAction::Probe(paths), post)
                &&& raw_paths(paths@) == raw_paths(pre.job.files@)
                &&& post.keeps(pre) && post.phase is Recheck
            } else {
                r == JobProgress::Done(JobEnd::StartFailed)
            },
            JobPhase::Recheck => {
                let files = remaining(raw_paths(pre.job.files@), probed(reply));
                if JobRun::idle(pre, files) {
                    r == JobProgress::Done(JobEnd::Skipped(SkipReason::NoFilesToProcess))
                } else {
                    match pre.step.template(pre.job, pre.context.platform) {
                        None => r matches JobProgress::Done(JobEnd::NoCommand(message))
                            && message@ == pre.step.name@ + ": no run command"@,
                        Some(template) => {
                            &&& r matches JobProgress::Ask(JobAction::Prepare(kept, var), post)
                            &&& raw_paths(kept@) == files && globs_of(pre.step.glob, var)
                            &&& post.step == pre.step && post.context == pre.context
                            &&& JobRun::narrows(post.job, pre.job, files)
                            &&& post.phase matches JobPhase::Prepare(t)
                            &&& t@ == template
                        },
                    }
                }
            },
            JobPhase::Prepare(template) => {
                &&& r matches JobProgress::Ask(JobAction::RenderShort(asked), post)
                &&& asked@ == template@
                &&& post.keeps(pre) && post.phase == JobPhase::Display(template)
            },
            JobPhase::Display(template) => {
                let shown = match rendered(reply) {
                    Some(text) => text,
                    None => template@,
                };
                &&& r matches JobProgress::Ask(JobAction::Render(asked), post)
                &&& asked@ == template@
                &&& post.keeps(pre)
                &&& post.phase matches JobPhase::Command(s)
                &&& s@ == shown
            },
            JobPhase::Command(shown) => match rendered(reply) {
                None => r matches JobProgress::Done(JobEnd::CommandTemplate(message)) && message@
                    == pre.step.name@ + ": failed to render command template"@,
                Some(run) => {
                    &&& r matches JobProgress::Ask(JobAction::Show(message), post)
                    &&& is_truncated(
                        message_text(
                            pre.job.files@.len(),
                            pattern_text(pre.step.glob),
                            shown@,
                        ),
                        MAX_PROGRESS_MESSAGE_CHARS as nat,
                        message@,
                    )
                    &&& post.keeps(pre)
                    &&& post.phase matches JobPhase::Message(text)
                    &&& text@ == run
                },
            },
            JobPhase::Message(run) => exists|line: CommandLine|
                {
                    &&& #[trigger] pre.step.runs(pre.context.platform, run@, line)
                    &&& match pre.step.stdin {
                        Some(template) => {
                            &&& r matches JobProgress::Ask(JobAction::Render(asked), post)
                            &&& asked@ == template@
                            &&& post.keeps(pre) && post.phase == JobPhase::Stdin(line)
                        },
                        None => JobRun::settles_terminal(pre, line, r),
                    }
                },
            JobPhase::Stdin(line) => match reply {
                JobReply::Text(Some(text)) => JobRun::settles_terminal(
                    pre,
                    CommandLine { stdin: Some(text), ..line },
                    r,
                ),
                _ => r == JobProgress::Done(JobEnd::Template),
            },
            JobPhase::Pause(line) => JobRun::renders_env(pre, line, r),
            JobPhase::Env(line) => match rendered(reply) {
                None => r == JobProgress::Done(JobEnd::Template),
                Some(value) => exists|next: CommandLine|
                    {
                        &&& env_texts(next.env@) == env_texts(line.env@).push(
                            (pre.step.env@[line.env@.len() as int].0@, value),
                        )
                        &&& next == (CommandLine { env: next.env, ..line })
                        &&& #[trigger] JobRun::renders_env(pre, next, r)
                    },
            },
            JobPhase::Execute(run) => if pre.step.interactive {
                &&& r matches JobProgress::Ask(JobAction::Resume, post)
                &&& post.keeps(pre) && post.phase == JobPhase::Resume(run, executed(reply))
            } else {
                r matches JobProgress::Done(end) && JobRun::judged(
                    pre.step,
                    pre.job,
                    run@,
                    executed(reply),
                    end,
                )
            },
            JobPhase::Resume(run, e) => r matches JobProgress::Done(end) && JobRun::judged(
                pre.step,
                pre.job,
                run@,
                e,
                end,
            ),
        }
    }

    /// Whether the next reply makes a job build its command line.
    pub open spec fn builds(&self) -> bool {
        self.phase is Message
    }

    /// Whether the variables that are rendered belong to the step.
    pub open spec fn wf(&self) -> bool {
        self.phase matches JobPhase::Env(line) ==> line.env@.len() < self.step.env@.len()
    }

    /// Goes on with the environment.
    fn render_env(step: Step, job: StepJob, context: JobContext, line: CommandLine) -> (r:
        JobProgress)
        ensures
            forall|pre: JobRun|
                pre.step == step && pre.job == job && pre.context == context
                    ==> #[trigger] JobRun::renders_env(pre, line, r),
            r matches JobProgress::Ask(_, post) ==> post.wf(),
    {
        let at: usize = line.env.len();
        if at < step.env.len() {
            let template = step.env[at].1.clone();
            JobProgress::Ask(
                JobAction::Render(template),
                JobRun { step, job, context, phase: JobPhase::Env(line) },
            )
        } else {
            let run = line.script.clone();
            JobProgress::Ask(
                JobAction::Execute(line),
                JobRun { step, job, context, phase: JobPhase::Execute(run) },
            )
        }
    }

    /// Goes on once standard input is settled.
    fn settle_terminal(step: Step, job: StepJob, context: JobContext, line: CommandLine) -> (r:
        JobProgress)
        ensures
            forall|pre: JobRun|
                pre.step == step && pre.job == job && pre.context == context
                    ==> #[trigger] JobRun::settles_terminal(pre, line, r),
            r matches JobProgress::Ask(_, post) ==> post.wf(),
    {
        if step.interactive {
            JobProgress::Ask(
                JobAction::Pause,
                JobRun { step, job, context, phase: JobPhase::Pause(line) },
            )
        } else {
            let r = JobRun::render_env(step, job, context, line);
            proof {
                assert forall|pre: JobRun|
                    pre.step == step && pre.job == job && pre.context
                        == context implies #[trigger] JobRun::settles_terminal(pre, line, r) by {
                    assert(JobRun::renders_env(pre, line, r));
                }
            }
            r
        }
    }

    /// Judges how a command ended.
    pub fn judge(step: &Step, job: &StepJob, run: String, e: Execution) -> (r: JobEnd)
        ensures
            JobRun::judged(*step, *job, run@, e, r),
    {
        let script = step.find_job_command(job);
        let lists = are_same(script, &step.check_list_files);
        let diffs = are_same(script, &step.check_diff);
        proof {
            let s = step.job_command(*job);
            assert(lists == same_script(s, step.check_list_files));
            assert(diffs == same_script(s, step.check_diff));
        }
        let status = if job.check_first && job.run_type == RunType::Check {
            FailedStatus::Warn
        } else {
            FailedStatus::Failed
        };
        match e {
            Execution::Success(out) => {
                let listed = lists && !blank(out.stdout.as_str());
                JobEnd::Finished(out, listed)
            },
            Execution::ScriptFailed(out) => {
                if job.check_first && (lists || diffs) {
                    JobEnd::CheckListFailed(out)
                } else {
                    JobEnd::Failed(Some(out), status, run)
                }
            },
            Execution::Failed => JobEnd::Failed(None, status, run),
        }
    }

    /// What is shown of the step's pattern.
    fn show_pattern(step: &Step) -> (r: String)
        ensures
            r@ == pattern_text(step.glob),
    {
        match &step.glob {
            Some(Pattern::Globs(g)) => join_spaced(g),
            Some(Pattern::Regex(p)) => concat2("regex: ", p.as_str()),
            None => String::new(),
        }
    }

    /// What templates are to know of the step's pattern.
    fn globs_var(step: &Step) -> (r: GlobsVar)
        ensures
            globs_of(step.glob, r),
    {
        match &step.glob {
            Some(Pattern::Globs(g)) => GlobsVar::List(copy_texts(g)),
            Some(Pattern::Regex(p)) => GlobsVar::Text(p.clone()),
            None => GlobsVar::List(Vec::new()),
        }
    }

    /// Goes on when the outcome of the action is known. A job that builds its
    /// command line must have a shell that names a program, if it has one.
    pub fn resume(self, reply: JobReply) -> (r: JobProgress)
        requires
            self.wf(),
            self.builds() ==> self.step.names_shell(self.context.platform),
        ensures
            JobRun::follows(self, reply, r),
            r matches JobProgress::Ask(_, post) ==> post.wf(),
    {
        let JobRun { step, job, context, phase } = self;
        match phase {
            JobPhase::Condition => match reply {
                JobReply::Condition(Some(value)) => {
                    if value == ConditionValue::Bool(false) {
                        JobProgress::Done(JobEnd::Skipped(SkipReason::ConditionFalse))
                    } else {
                        JobRun::begin(step, job, context)
                    }
                },
                _ => JobProgress::Done(JobEnd::ConditionFailed),
            },
            JobPhase::Probe => {
                let presence = match reply {
                    JobReply::Presence(list) => list,
                    _ => Vec::new(),
                };
                let files = keep_remaining(&job.files, &presence);
                proof {
                    assert(raw_paths(files@).len() == files@.len());
                }
                if files.len() == 0 && context.has_filters {
                    return JobProgress::Done(JobEnd::Skipped(SkipReason::NoFilesToProcess));
                }
                let job = StepJob { files, ..job };
                JobProgress::Ask(
                    JobAction::Start,
                    JobRun { step, job, context, phase: JobPhase::Start },
                )
            },
            JobPhase::Start => {
                let started = match reply {
                    JobReply::Done(ok) => ok,
                    _ => false,
                };
                if !started {
                    return JobProgress::Done(JobEnd::StartFailed);
                }
                let paths = copy_paths(&job.files);
                JobProgress::Ask(
                    JobAction::Probe(paths),
                    JobRun { step, job, context, phase: JobPhase::Recheck },
                )
            },
            JobPhase::Recheck => {
                let presence = match reply {
                    JobReply::Presence(list) => list,
                    _ => Vec::new(),
                };
                let files = keep_remaining(&job.files, &presence);
                proof {
                    assert(raw_paths(files@).len() == files@.len());
                }
                if files.len() == 0 && context.has_filters {
                    return JobProgress::Done(JobEnd::Skipped(SkipReason::NoFilesToProcess));
                }
                let template = match step.find_template(&job, context.platform) {
                    Some(t) => t,
                    None => {
                        return JobProgress::Done(
                            JobEnd::NoCommand(concat2(step.name.as_str(), ": no run command")),
                        );
                    },
                };
                let kept = copy_paths(&files);
                let var = JobRun::globs_var(&step);
                let job = StepJob { files, ..job };
                JobProgress::Ask(
                    JobAction::Prepare(kept, var),
                    JobRun { step, job, context, phase: JobPhase::Prepare(template) },
                )
            },
            JobPhase::Prepare(template) => {
                let asked = template.clone();
                JobProgress::Ask(
                    JobAction::RenderShort(asked),
                    JobRun { step, job, context, phase: JobPhase::Display(template) },
                )
            },
            JobPhase::Display(template) => {
                let shown = match into_rendered(reply) {
                    Some(text) => text,
                    None => template.clone(),
                };
                JobProgress::Ask(
                    JobAction::Render(template),
                    JobRun { step, job, context, phase: JobPhase::Command(shown) },
                )
            },
            JobPhase::Command(shown) => match into_rendered(reply) {
                None => JobProgress::Done(
                    JobEnd::CommandTemplate(
                        concat2(step.name.as_str(), ": failed to render command template"),
                    ),
                ),
                Some(run) => {
                    let pattern = JobRun::show_pattern(&step);
                    let whole = compose_message(
                        job.files.len(),
                        pattern.as_str(),
                        shown.as_str(),
                    );
                    let message = truncate_progress_message(
                        whole.as_str(),
                        MAX_PROGRESS_MESSAGE_CHARS,
                    );
                    JobProgress::Ask(
                        JobAction::Show(message),
                        JobRun { step, job, context, phase: JobPhase::Message(run) },
                    )
                },
            },
            JobPhase::Message(run) => {
                let line = step.command_line(context.platform, run);
                let ghost made = line;
                proof {
                    assert(step.runs(context.platform, run@, made));
                }
                let stdin = step.stdin.clone();
                match stdin {
                    Some(template) => JobProgress::Ask(
                        JobAction::Render(template),
                        JobRun { step, job, context, phase: JobPhase::Stdin(line) },
                    ),
                    None => JobRun::settle_terminal(step, job, context, line),
                }
            },
            JobPhase::Stdin(line) => match reply {
                JobReply::Text(Some(text)) => JobRun::settle_terminal(
                    step,
                    job,
                    context,
                    CommandLine { stdin: Some(text), ..line },
                ),
                _ => JobProgress::Done(JobEnd::Template),
            },
            JobPhase::Pause(line) => JobRun::render_env(step, job, context, line),
            JobPhase::Env(line) => match into_rendered(reply) {
                None => JobProgress::Done(JobEnd::Template),
                Some(value) => {
                    let at: usize = line.env.len();
                    let name = step.env[at].0.clone();
                    let ghost added = (name@, value@);
                    let CommandLine { program, args, script, raw, stdin, inherit, dir, env } =
                        line;
                    let ghost was = env@;
                    let mut env = env;
                    env.push((name, value));
                    proof {
                        assert(env_texts(env@) == env_texts(was).push(added));
                    }
                    let next = CommandLine { program, args, script, raw, stdin, inherit, dir, env };
                    let ghost made = next;
                    let r = JobRun::render_env(step, job, context, next);
                    proof {
                        assert(JobRun::renders_env(self, made, r));
                    }
                    r
                },
            },
            JobPhase::Execute(run) => {
                let e = match reply {
                    JobReply::Executed(e) => e,
                    _ => Execution::Failed,
                };
                if step.interactive {
                    JobProgress::Ask(
                        JobAction::Resume,
                        JobRun { step, job, context, phase: JobPhase::Resume(run, e) },
                    )
                } else {
                    JobProgress::Done(JobRun::judge(&step, &job, run, e))
                }
            },
            JobPhase::Resume(run, e) => JobProgress::Done(JobRun::judge(&step, &job, run, e)),
        }
    }
}

/// How many answers a job still waits for, at most.
pub open spec fn job_steps(op: JobRun) -> int {
    let vars = op.step.env@.len() as int;
    match op.phase {
        JobPhase::Condition => vars + 14,
        JobPhase::Probe => vars + 13,
        JobPhase::Start => vars + 12,
        JobPhase::Recheck => vars + 11,
        JobPhase::Prepare(_) => vars + 10,
        JobPhase::Display(_) => vars + 9,
        JobPhase::Command(_) => vars + 8,
        JobPhase::Message(_) => vars + 7,
        JobPhase::Stdin(_) => vars + 6,
        JobPhase::Pause(_) => vars + 5,
        JobPhase::Env(line) => vars - line.env@.len() + 2,
        JobPhase::Execute(_) => 2,
        JobPhase::Resume(_, _) => 1,
    }
}

/// A job ends, whatever it is told.
pub proof fn law_a_job_ends(pre: JobRun, reply: JobReply, r: JobProgress)
    requires
        JobRun::follows(pre, reply, r),
        pre.wf(),
    ensures
        r matches JobProgress::Ask(_, post) ==> 0 < job_steps(post) < job_steps(pre)
            && post.wf(),
{
    match (pre.phase, rendered(reply)) {
        (JobPhase::Env(line), Some(value)) => {
            let next = choose|next: CommandLine|
                {
                    &&& env_texts(next.env@) == env_texts(line.env@).push(
                        (pre.step.env@[line.env@.len() as int].0@, value),
                    )
                    &&& next == (CommandLine { env: next.env, ..line })
                    &&& #[trigger] JobRun::renders_env(pre, next, r)
                };
            assert(env_texts(next.env@).len() == next.env@.len());
            assert(env_texts(line.env@).len() == line.env@.len());
        },
        _ => {},
    }
}

/// A condition that is false wins over the profiles, which count only after it.
pub proof fn law_the_condition_comes_first(pre: JobRun, r: JobProgress)
    requires
        pre.phase is Condition,
        JobRun::follows(pre, JobReply::Condition(Some(ConditionValue::Bool(false))), r),
    ensures
        r == JobProgress::Done(JobEnd::Skipped(SkipReason::ConditionFalse)),
{
}

/// A job that is only for some files never runs its command without files.
pub proof fn law_no_command_without_files(pre: JobRun, reply: JobReply, r: JobProgress)
    requires
        JobRun::follows(pre, reply, r),
        pre.context.has_filters,
        pre.phase is Probe || pre.phase is Recheck,
        remaining(raw_paths(pre.job.files@), probed(reply)).len() == 0,
    ensures
        r == JobProgress::Done(JobEnd::Skipped(SkipReason::NoFilesToProcess)),
{
}

/// The files that are kept are files of the job, in their order.
pub proof fn law_remaining_files_were_there(files: Seq<Seq<u8>>, presence: Seq<Presence>, i: int)
    requires
        0 <= i < remaining(files, presence).len(),
    ensures
        exists|k: int|
            0 <= k < files.len() && #[trigger] files[k] == remaining(files, presence)[i]
                && entry_at(presence, k),
    decreases files.len(),
{
    let rest = files.drop_last();
    let before = remaining(rest, presence);
    if i < before.len() {
        law_remaining_files_were_there(rest, presence, i);
        let k = choose|k: int|
            0 <= k < rest.len() && #[trigger] rest[k] == before[i] && entry_at(presence, k);
        assert(files[k] == before[i]);
    } else {
        assert(files[files.len() - 1] == files.last());
    }
}

/// A failed command never ends as a job that is done, and a command that
/// succeeded always does.
pub proof fn law_only_success_finishes(
    step: Step,
    job: StepJob,
    run: Seq<char>,
    e: Execution,
    end: JobEnd,
)
    requires
        JobRun::judged(step, job, run, e, end),
    ensures
        end is Finished <==> e is Success,
        end is CheckListFailed ==> job.check_first,
{
}

/// The message that a job shows is never wider than the cap, if its pattern and
/// its command are made of narrow characters and control sequences.
pub proof fn law_a_shown_message_is_capped(pre: JobRun, reply: JobReply, r: JobProgress)
    requires
        JobRun::follows(pre, reply, r),
        pre.phase matches JobPhase::Command(shown) && is_styled(shown@),
        is_styled(pattern_text(pre.step.glob)),
    ensures
        r matches JobProgress::Ask(JobAction::Show(message), _) ==> text_width(message@)
            <= MAX_PROGRESS_MESSAGE_CHARS,
{
    if let JobPhase::Command(shown) = pre.phase {
        if let JobProgress::Ask(JobAction::Show(message), _) = r {
            law_job_messages_are_capped(
                pre.job.files@.len(),
                pattern_text(pre.step.glob),
                shown@,
                MAX_PROGRESS_MESSAGE_CHARS as nat,
                message@,
            );
        }
    }
}

/// The message that a job shows starts with the number of its files, whatever
/// its pattern and its command hold.
pub proof fn law_a_shown_message_starts_with_the_number_of_files(
    pre: JobRun,
    reply: JobReply,
    r: JobProgress,
)
    requires
        JobRun::follows(pre, reply, r),
        pre.phase is Command,
    ensures
        r matches JobProgress::Ask(JobAction::Show(message), _) ==> (files_text(
            pre.job.files@.len(),
        ) + " – "@).is_prefix_of(message@),
{
    if let JobPhase::Command(shown) = pre.phase {
        if let JobProgress::Ask(JobAction::Show(message), _) = r {
            law_the_number_of_files_leads(
                pre.job.files.len(),
                pattern_text(pre.step.glob),
                shown@,
                message@,
            );
        }
    }
}

/// The files that remain of some and of others are those that remain of all,
/// in order; a file remains exactly if there is an entry at it.
pub proof fn law_files_remain_one_by_one(
    files: Seq<Seq<u8>>,
    at: Seq<Presence>,
    more: Seq<Seq<u8>>,
    next_at: Seq<Presence>,
    p: Seq<u8>,
    there: Presence,
)
    requires
        files.len() == at.len(),
    ensures
        remaining(files + more, at + next_at) == remaining(files, at) + remaining(more, next_at),
        remaining(seq![p], seq![there]) == (if there.entry {
            seq![p]
        } else {
            Seq::empty()
        }),
        remaining(more, Seq::empty()) == Seq::<Seq<u8>>::empty(),
    decreases more.len(),
{
    reveal_with_fuel(remaining, 2);
    assert(seq![p].drop_last() == Seq::<Seq<u8>>::empty());
    if more.len() == 0 {
        assert(files + more == files);
        lemma_remaining_ignores(files, at, at + next_at);
        assert(remaining(files, at) + remaining(more, next_at) == remaining(files, at));
    } else {
        let rest = more.drop_last();
        law_files_remain_one_by_one(files, at, rest, next_at, p, there);
        assert((files + more).drop_last() == files + rest);
        let n = more.len() - 1;
        assert(entry_at(at + next_at, files.len() + n) == entry_at(next_at, n));
    }
}

proof fn lemma_remaining_ignores(files: Seq<Seq<u8>>, at: Seq<Presence>, longer: Seq<Presence>)
    requires
        files.len() <= at.len() <= longer.len(),
        forall|i: int| 0 <= i < at.len() ==> at[i] == longer[i],
    ensures
        remaining(files, at) == remaining(files, longer),
    decreases files.len(),
{
    if files.len() > 0 {
        lemma_remaining_ignores(files.drop_last(), at, longer);
    }
}

/// Every file with an entry remains.
pub proof fn law_every_file_that_is_there_remains(files: Seq<Seq<u8>>, at: Seq<Presence>, i: int)
    requires
        0 <= i < files.len(),
        i < at.len(),
        at[i].entry,
    ensures
        remaining(files, at).contains(files[i]),
    decreases files.len(),
{
    let rest = files.drop_last();
    let all = remaining(files, at);
    if i < rest.len() {
        law_every_file_that_is_there_remains(rest, at, i);
        let before = remaining(rest, at);
        let k = choose|k: int| 0 <= k < before.len() && before[k] == rest[i];
        assert(all[k] == files[i]);
    } else {
        assert(all[all.len() - 1] == files[i]);
    }
}

/// Globs are shown with blanks between them, a regular expression behind its
/// name, and nothing where there is neither.
pub proof fn law_a_pattern_is_shown(
    a: Seq<Seq<char>>,
    b: Seq<Seq<char>>,
    one: Seq<char>,
    globs: Vec<String>,
    regex: String,
)
    ensures
        spaced(Seq::empty()) == Seq::<char>::empty(),
        spaced(seq![one]) == one,
        a.len() > 0 && b.len() > 0 ==> spaced(a + b) == spaced(a) + " "@ + spaced(b),
        pattern_text(Some(Pattern::Globs(globs))) == spaced(texts(globs@)),
        pattern_text(Some(Pattern::Regex(regex))) == "regex: "@ + regex@,
        pattern_text(None) == Seq::<char>::empty(),
    decreases b.len(),
{
    if a.len() > 0 && b.len() > 0 {
        assert((a + b).drop_last() == a + b.drop_last());
        if b.len() == 1 {
            assert(b.drop_last() == Seq::<Seq<char>>::empty());
            assert(a + b.drop_last() == a);
        } else {
            law_a_pattern_is_shown(a, b.drop_last(), one, globs, regex);
            assert(spaced(a) + " "@ + spaced(b.drop_last()) + " "@ + b.last() == spaced(a) + " "@
                + (spaced(b.drop_last()) + " "@ + b.last()));
        }
    }
}

/// The template of a job is the command that checks first where it is to, and
/// else the command for what it is to do, behind the prefix of the step where
/// there is one. A command that is blank counts as none.
pub proof fn law_a_job_has_the_command_of_its_step(step: Step, job: StepJob, platform: Platform)
    ensures
        ({
            let script = if job.check_first {
                step.first_command()
            } else {
                step.command(job.run_type)
            };
            &&& step.template(job, platform) is None <==> script is None
                || crate::text::trimmed(script->0.on(platform)).len() == 0
            &&& step.template(job, platform) is Some && step.prefix is None ==> step.template(
                job,
                platform,
            )->0 == script->0.on(platform)
            &&& step.template(job, platform) is Some && step.prefix is Some ==> step.template(
                job,
                platform,
            )->0 == step.prefix->0@ + " "@ + script->0.on(platform)
        }),
{
    let script = step.job_command(job);
    if script is Some {
        crate::text::law_blank_trims_to_nothing(script->0.on(platform));
    }
}

/// Whether a command line is one of a step, its standard input and its
/// environment aside: it runs in the directory of the step whatever its shell
/// is, has the terminal exactly if the step is interactive, and starts the
/// shell that the step names, or else the one of the system. Without a shell
/// of its own, or with the command interpreter, a step on Windows hands its
/// script over as it is.
pub open spec fn is_line_of(
    step: Step,
    platform: Platform,
    script: Seq<char>,
    line: CommandLine,
) -> bool {
    let windows = platform == Platform::Windows;
    let shell = if step.shell is Some {
        step.shell->0.on(platform)
    } else {
        Seq::empty()
    };
    let name = program_name(shell);
    let raw = windows && shell_of(lowercase_of(name), name, platform) is Cmd;
    &&& line.script@ == script
    &&& line.dir is Some <==> step.dir is Some
    &&& step.dir is Some ==> line.dir->0@ == step.dir->0@
    &&& line.inherit <==> step.interactive
    &&& line.raw <==> raw
    &&& step.shell is Some ==> {
        &&& line.program@ == words(shell)[0]
        &&& texts(line.args@) == words(shell).skip(1)
    }
    &&& step.shell is None && raw ==> {
        &&& line.program@ == "cmd.exe"@
        &&& texts(line.args@) == seq!["/c"@]
    }
    &&& step.shell is None && !raw ==> {
        &&& line.program@ == "sh"@
        &&& texts(line.args@) == seq!["-o"@, "errexit"@, "-c"@]
    }
}

/// The command line of a script has the directory, the shell and the terminal
/// of the step, and no input or variables yet.
pub proof fn law_a_command_runs_where_its_step_says(
    step: Step,
    platform: Platform,
    script: Seq<char>,
    line: CommandLine,
)
    requires
        step.runs(platform, script, line),
    ensures
        is_line_of(step, platform, script, line),
        line.stdin is None && line.env@.len() == 0,
{
    let raw = step.is_raw(platform);
    if step.shell is None {
        if raw {
            assert(seq!["cmd.exe"@, "/c"@].skip(1) == seq!["/c"@]);
        } else {
            assert(seq!["sh"@, "-o"@, "errexit"@, "-c"@].skip(1) == seq![
                "-o"@,
                "errexit"@,
                "-c"@,
            ]);
        }
    }
}

/// Whether the environment of a command line holds the first variables of a
/// step, by name and in order.
pub open spec fn has_variables(step: Step, line: CommandLine) -> bool {
    &&& line.env@.len() <= step.env@.len()
    &&& forall|i: int| 0 <= i < line.env@.len() ==> (#[trigger] line.env@[i]).0@ == step.env@[i].0@
}

/// The command line that a job waits with, if any.
pub open spec fn waiting_line(phase: JobPhase) -> Option<CommandLine> {
    match phase {
        JobPhase::Stdin(line) => Some(line),
        JobPhase::Pause(line) => Some(line),
        JobPhase::Env(line) => Some(line),
        _ => None,
    }
}

/// From the rendered command to its execution a job keeps one command line: it
/// is that of the step, with the rendered input where the step has one, and in
/// the end with every variable of the step.
pub proof fn law_the_executed_command_is_that_of_the_step(
    pre: JobRun,
    reply: JobReply,
    r: JobProgress,
    script: Seq<char>,
)
    requires
        pre.wf(),
        JobRun::follows(pre, reply, r),
        pre.phase is Message || waiting_line(pre.phase) is Some,
        pre.phase matches JobPhase::Message(run) ==> run@ == script,
        waiting_line(pre.phase) matches Some(line) ==> {
            &&& is_line_of(pre.step, pre.context.platform, script, line)
            &&& has_variables(pre.step, line)
            &&& line.stdin is Some <==> pre.step.stdin is Some && !(pre.phase is Stdin)
            &&& pre.phase is Stdin ==> pre.step.stdin is Some
        },
    ensures
        r matches JobProgress::Ask(JobAction::Execute(line), post) ==> {
            &&& is_line_of(pre.step, pre.context.platform, script, line)
            &&& has_variables(pre.step, line) && line.env@.len() >= pre.step.env@.len()
            &&& line.stdin is Some <==> pre.step.stdin is Some
            &&& post.phase matches JobPhase::Execute(run)
            &&& run@ == script
        },
        r matches JobProgress::Ask(_, post) ==> {
            &&& post.step == pre.step && post.job == pre.job && post.context == pre.context
            &&& post.phase is Execute || waiting_line(post.phase) is Some
            &&& waiting_line(post.phase) matches Some(line) ==> {
                &&& is_line_of(pre.step, pre.context.platform, script, line)
                &&& has_variables(pre.step, line)
                &&& line.stdin is Some <==> pre.step.stdin is Some && !(post.phase is Stdin)
                &&& post.phase is Stdin ==> pre.step.stdin is Some
            }
        },
        r is Done ==> (pre.phase is Stdin || pre.phase is Env) && r == JobProgress::Done(
            JobEnd::Template,
        ),
{
    if let JobPhase::Message(run) = pre.phase {
        let line = choose|line: CommandLine|
            {
                &&& #[trigger] pre.step.runs(pre.context.platform, run@, line)
                &&& match pre.step.stdin {
                    Some(template) => {
                        &&& r matches JobProgress::Ask(JobAction::Render(asked), post)
                        &&& asked@ == template@
                        &&& post.keeps(pre) && post.phase == JobPhase::Stdin(line)
                    },
                    None => JobRun::settles_terminal(pre, line, r),
                }
            };
        law_a_command_runs_where_its_step_says(pre.step, pre.context.platform, run@, line);
        assert(has_variables(pre.step, line));
    }
    if let JobPhase::Stdin(line) = pre.phase {
        if let JobReply::Text(Some(text)) = reply {
            let next = CommandLine { stdin: Some(text), ..line };
            assert(is_line_of(pre.step, pre.context.platform, script, next));
            assert(has_variables(pre.step, next));
        }
    }
    if let JobPhase::Env(line) = pre.phase {
        if let Some(value) = rendered(reply) {
            let next = choose|next: CommandLine|
                {
                    &&& env_texts(next.env@) == env_texts(line.env@).push(
                        (pre.step.env@[line.env@.len() as int].0@, value),
                    )
                    &&& next == (CommandLine { env: next.env, ..line })
                    &&& #[trigger] JobRun::renders_env(pre, next, r)
                };
            assert(env_texts(next.env@).len() == next.env@.len());
            assert(env_texts(line.env@).len() == line.env@.len());
            assert forall|i: int| 0 <= i < next.env@.len() implies (#[trigger] next.env@[i]).0@
                == pre.step.env@[i].0@ by {
                assert(env_texts(next.env@)[i].0 == next.env@[i].0@);
                if i < line.env@.len() {
                    assert(env_texts(line.env@)[i].0 == line.env@[i].0@);
                    assert(line.env@[i].0@ == pre.step.env@[i].0@);
                }
            }
            assert(is_line_of(pre.step, pre.context.platform, script, next));
            assert(has_variables(pre.step, next));
        }
    }
}

/// Input and variables are what their templates render to: the input of the
/// step once, and each variable in turn. Progress is paused exactly before an
/// interactive step.
pub proof fn law_input_and_variables_are_rendered(pre: JobRun, text: String, r: JobProgress)
    requires
        pre.wf(),
        JobRun::follows(pre, JobReply::Text(Some(text)), r),
        pre.phase is Stdin || pre.phase is Env,
    ensures
        r matches JobProgress::Ask(action, post) && {
            let line = waiting_line(pre.phase)->0;
            let given = if let JobAction::Execute(sent) = action {
                Some(sent)
            } else {
                waiting_line(post.phase)
            };
            &&& given is Some
            &&& pre.phase is Stdin ==> given->0.stdin == Some(text) && given->0.env == line.env
            &&& pre.phase is Stdin && pre.step.interactive ==> action is Pause
                && post.phase is Pause
            &&& pre.phase is Env ==> {
                let n = line.env@.len() as int;
                &&& given->0.stdin == line.stdin && given->0.env@.len() == n + 1
                &&& given->0.env@[n].0@ == pre.step.env@[n].0@ && given->0.env@[n].1@ == text@
                &&& forall|i: int|
                    0 <= i < n ==> (#[trigger] given->0.env@[i]).0@ == line.env@[i].0@
                        && given->0.env@[i].1@ == line.env@[i].1@
            }
            &&& action matches JobAction::Render(template) ==> {
                let n = given->0.env@.len() as int;
                n < pre.step.env@.len() && template@ == pre.step.env@[n].1@ && post.phase is Env
            }
            &&& action is Execute ==> given->0.env@.len() >= pre.step.env@.len()
        },
{
    if let JobPhase::Env(line) = pre.phase {
        let next = choose|next: CommandLine|
            {
                &&& env_texts(next.env@) == env_texts(line.env@).push(
                    (pre.step.env@[line.env@.len() as int].0@, text@),
                )
                &&& next == (CommandLine { env: next.env, ..line })
                &&& #[trigger] JobRun::renders_env(pre, next, r)
            };
        let n = line.env@.len() as int;
        assert(env_texts(next.env@).len() == next.env@.len());
        assert(env_texts(line.env@).len() == line.env@.len());
        assert(env_texts(next.env@)[n] == (next.env@[n].0@, next.env@[n].1@));
        assert forall|i: int| 0 <= i < n implies (#[trigger] next.env@[i]).0@ == line.env@[i].0@
            && next.env@[i].1@ == line.env@[i].1@ by {
            assert(env_texts(next.env@)[i] == (next.env@[i].0@, next.env@[i].1@));
            assert(env_texts(line.env@)[i] == (line.env@[i].0@, line.env@[i].1@));
        }
    }
}

/// A condition skips the job only where it is false; any other value lets it
/// begin, and one that cannot be evaluated is an error. Profiles skip what
/// begins, and else its files are looked for.
pub proof fn law_only_a_false_condition_skips(
    pre: JobRun,
    value: Option<ConditionValue>,
    r: JobProgress,
)
    requires
        pre.phase is Condition,
        JobRun::follows(pre, JobReply::Condition(value), r),
    ensures
        value is None ==> r == JobProgress::Done(JobEnd::ConditionFailed),
        value == Some(ConditionValue::Bool(false)) ==> r == JobProgress::Done(
            JobEnd::Skipped(SkipReason::ConditionFalse),
        ),
        value is Some && value != Some(ConditionValue::Bool(false)) ==> if pre.context.profile_excludes {
            r == JobProgress::Done(JobEnd::Skipped(SkipReason::Profile))
        } else {
            &&& r matches JobProgress::Ask(JobAction::Probe(paths), post)
            &&& post.phase is Probe && post.step == pre.step && post.job == pre.job
            &&& post.context == pre.context
            &&& raw_paths(paths@) == raw_paths(pre.job.files@)
        },
{
}

/// A job goes on with the files that are there, before and after it waited for
/// its turn; without files it is skipped where it is only for some, and goes on
/// where it is not. What templates are to know are these files and the pattern
/// of the step.
pub proof fn law_a_job_goes_on_with_the_files_that_are_there(
    pre: JobRun,
    at: Vec<Presence>,
    r: JobProgress,
)
    requires
        pre.phase is Probe || pre.phase is Recheck,
        JobRun::follows(pre, JobReply::Presence(at), r),
    ensures
        ({
            let files = remaining(raw_paths(pre.job.files@), at@);
            let template = pre.step.template(pre.job, pre.context.platform);
            let idle = files.len() == 0 && pre.context.has_filters;
            &&& idle ==> r == JobProgress::Done(JobEnd::Skipped(SkipReason::NoFilesToProcess))
            &&& !idle && pre.phase is Probe ==> {
                &&& r matches JobProgress::Ask(JobAction::Start, post)
                &&& raw_paths(post.job.files@) == files && post.phase is Start
                &&& post.job.check_first == pre.job.check_first
                &&& post.job.run_type == pre.job.run_type && post.step == pre.step
                &&& post.context == pre.context
            }
            &&& !idle && pre.phase is Recheck && template is None ==> {
                &&& r matches JobProgress::Done(JobEnd::NoCommand(message))
                &&& message@ == pre.step.name@ + ": no run command"@
            }
            &&& !idle && pre.phase is Recheck && template is Some ==> {
                &&& r matches JobProgress::Ask(JobAction::Prepare(kept, var), post)
                &&& raw_paths(kept@) == files && raw_paths(post.job.files@) == files
                &&& post.job.check_first == pre.job.check_first
                &&& post.job.run_type == pre.job.run_type && post.step == pre.step
                &&& post.context == pre.context
                &&& post.phase matches JobPhase::Prepare(t)
                &&& t@ == template->0
                &&& match pre.step.glob {
                    Some(Pattern::Globs(globs)) => var matches GlobsVar::List(l) && texts(l@)
                        == texts(globs@),
                    Some(Pattern::Regex(regex)) => var matches GlobsVar::Text(t) && t@ == regex@,
                    None => var matches GlobsVar::List(l) && l@.len() == 0,
                }
            }
        }),
{
}

/// A job that has its turn looks for its files once more; one that does not
/// start is over.
pub proof fn law_a_started_job_looks_again(pre: JobRun, reply: JobReply, r: JobProgress)
    requires
        pre.phase is Start,
        JobRun::follows(pre, reply, r),
    ensures
        reply == JobReply::Done(true) ==> {
            &&& r matches JobProgress::Ask(JobAction::Probe(paths), post)
            &&& raw_paths(paths@) == raw_paths(pre.job.files@)
            &&& post.phase is Recheck && post.job == pre.job && post.step == pre.step
            &&& post.context == pre.context
        },
        reply != JobReply::Done(true) ==> r == JobProgress::Done(JobEnd::StartFailed),
{
}

/// The template is rendered twice, short for display and whole to be run. What
/// cannot be rendered short is shown as it is; what cannot be rendered whole is
/// an error. What is run is the whole rendering.
pub proof fn law_the_command_is_rendered_from_its_template(
    pre: JobRun,
    prepared: JobReply,
    first: JobProgress,
    short: Option<String>,
    second: JobProgress,
    whole: Option<String>,
    third: JobProgress,
)
    requires
        pre.phase is Prepare,
        JobRun::follows(pre, prepared, first),
        first matches JobProgress::Ask(_, op) && JobRun::follows(op, JobReply::Text(short), second),
        second matches JobProgress::Ask(_, op) && JobRun::follows(op, JobReply::Text(whole), third),
    ensures
        ({
            let template = pre.phase->Prepare_0@;
            &&& first matches JobProgress::Ask(JobAction::RenderShort(asked), _)
            &&& asked@ == template
            &&& second matches JobProgress::Ask(JobAction::Render(wanted), _)
            &&& wanted@ == template
            &&& whole is None ==> {
                &&& third matches JobProgress::Done(JobEnd::CommandTemplate(message))
                &&& message@ == pre.step.name@ + ": failed to render command template"@
            }
            &&& whole is Some ==> {
                let shown = if short is Some {
                    short->0@
                } else {
                    template
                };
                &&& third matches JobProgress::Ask(JobAction::Show(message), post)
                &&& is_truncated(
                    message_text(pre.job.files@.len(), pattern_text(pre.step.glob), shown),
                    2048,
                    message@,
                )
                &&& post.step == pre.step && post.job == pre.job && post.context == pre.context
                &&& post.phase matches JobPhase::Message(run)
                &&& run@ == whole->0@
            }
        }),
{
}

/// How a job ends goes by how its command ended. A command that succeeds
/// finishes it, and is warned about where it lists files to fix all the same. A
/// check that runs first and prints a diff or a list says what to fix by
/// failing; any other failure is one, shown as a warning only for a check that
/// runs first where files are to be checked.
pub proof fn law_a_job_ends_as_its_command_did(
    pre: JobRun,
    run: String,
    e: Execution,
    r: JobProgress,
)
    requires
        (pre.phase == JobPhase::Execute(run) && !pre.step.interactive && JobRun::follows(
            pre,
            JobReply::Executed(e),
            r,
        )) || (pre.phase == JobPhase::Resume(run, e) && JobRun::follows(
            pre,
            JobReply::Done(true),
            r,
        )),
    ensures
        ({
            let script = if pre.job.check_first {
                pre.step.first_command()
            } else {
                pre.step.command(pre.job.run_type)
            };
            let lists = script is Some && pre.step.check_list_files is Some
                && script->0.same_as(pre.step.check_list_files->0);
            let diffs = script is Some && pre.step.check_diff is Some && script->0.same_as(
                pre.step.check_diff->0,
            );
            let warns = pre.job.check_first && pre.job.run_type is Check;
            &&& r matches JobProgress::Done(end)
            &&& e matches Execution::Success(out) ==> {
                &&& end matches JobEnd::Finished(o, listed)
                &&& o == out
                &&& listed <==> lists && crate::text::trimmed(out.stdout@).len() > 0
            }
            &&& e matches Execution::ScriptFailed(out) ==> {
                &&& pre.job.check_first && (lists || diffs) ==> end == JobEnd::CheckListFailed(out)
                &&& !(pre.job.check_first && (lists || diffs)) ==> {
                    &&& end matches JobEnd::Failed(Some(o), status, text)
                    &&& o == out && text@ == run@
                    &&& status is Warn <==> warns
                }
            }
            &&& e is Failed ==> {
                &&& end matches JobEnd::Failed(None, status, text)
                &&& text@ == run@
                &&& status is Warn <==> warns
            }
        }),
{
    if let Execution::Success(out) = e {
        crate::text::law_blank_trims_to_nothing(out.stdout@);
    }
}

/// After an interactive step progress resumes before the job ends, with how
/// the command ended; a reply of another kind counts as a command that did not
/// run.
pub proof fn law_progress_resumes_after_an_interactive_step(
    pre: JobRun,
    run: String,
    reply: JobReply,
    r: JobProgress,
)
    requires
        pre.phase == JobPhase::Execute(run),
        pre.step.interactive,
        JobRun::follows(pre, reply, r),
    ensures
        r matches JobProgress::Ask(JobAction::Resume, post) && post.step == pre.step && post.job
            == pre.job && post.phase == JobPhase::Resume(
            run,
            if let JobReply::Executed(e) = reply {
                e
            } else {
                Execution::Failed
            },
        ),
{
}

/// The input is rendered from its template before anything else; without one,
/// an interactive step pauses progress, and any other goes on with its
/// variables.
pub proof fn law_the_input_comes_before_the_terminal(pre: JobRun, reply: JobReply, r: JobProgress)
    requires
        pre.phase is Message || pre.phase is Pause,
        JobRun::follows(pre, reply, r),
        waiting_line(pre.phase) matches Some(line) ==> line.env@.len() == 0,
    ensures
        r matches JobProgress::Ask(action, post) && {
            &&& pre.phase is Message && pre.step.stdin is Some ==> {
                &&& action matches JobAction::Render(template)
                &&& template@ == pre.step.stdin->0@ && post.phase is Stdin
            }
            &&& pre.phase is Message && pre.step.stdin is None && pre.step.interactive ==> {
                action is Pause && post.phase is Pause
            }
            &&& pre.phase is Pause || (pre.step.stdin is None && !pre.step.interactive) ==> {
                &&& pre.step.env@.len() > 0 ==> {
                    &&& action matches JobAction::Render(template)
                    &&& template@ == pre.step.env@[0].1@ && post.phase is Env
                }
                &&& pre.step.env@.len() == 0 ==> action is Execute && post.phase is Execute
            }
        },
{
}

/// A shell that is given names a program unless it is blank; a step without
/// one has that of the system.
pub proof fn law_a_shell_that_is_not_blank_names_a_program(step: Step, platform: Platform)
    ensures
        step.names_shell(platform) <==> step.shell is None || crate::text::trimmed(
            step.shell->0.on(platform),
        ).len() > 0,
{
    if step.shell is Some {
        let line = step.shell->0.on(platform);
        crate::text::law_blank_trims_to_nothing(line);
        crate::text::law_a_blank_text_has_no_words(line);
    }
}

/// A job that goes on with fewer files is otherwise the same job.
pub proof fn law_only_the_files_of_a_job_change(pre: JobRun, reply: JobReply, r: JobProgress)
    requires
        JobRun::follows(pre, reply, r),
        r is Ask,
    ensures
        ({
            let post = r->Ask_1;
            &&& post.step == pre.step && post.context == pre.context
            &&& post.job.check_first == pre.job.check_first
            &&& post.job.run_type == pre.job.run_type && post.job.shown == pre.job.shown
            &&& !(pre.phase is Probe) && !(pre.phase is Recheck) ==> post.job.files
                == pre.job.files
        }),
{
}

/// A reply of another kind than the one that was asked for tells nothing: no
/// file is there, no text was rendered, no command ran.
pub proof fn law_a_reply_of_another_kind_tells_nothing(
    done: bool,
    text: Option<String>,
    e: Execution,
)
    ensures
        probed(JobReply::Done(done)).len() == 0 && probed(JobReply::Text(text)).len() == 0,
        rendered(JobReply::Done(done)) is None && rendered(JobReply::Executed(e)) is None,
        executed(JobReply::Done(done)) is Failed && executed(JobReply::Text(text)) is Failed,
        executed(JobReply::Executed(e)) == e,
        rendered(JobReply::Text(text)) == (match text {
            Some(t) => Some(t@),
            None => None,
        }),
{
}

} // verus!
