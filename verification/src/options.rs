//! What a hook is asked to do, and what becomes of it.
use crate::branch::{
    default_steps, law_the_default_branch_search_ends, DefaultBranch, Defaulted, ResolveBranch,
    Resolved,
};
use crate::git::{Git, GitError};
use crate::repo::{law_opening_ends, open_steps, GitEnv, OpenGit, OpenPhase, Opened};
use crate::text::{concat2, concat3, opt_text, same, texts};
use crate::work::{Action, Progress, ProjectConfig, Reply};
use vstd::prelude::*;

verus! {

/// The options that a hook is run with.
#[derive(Debug)]
pub struct HookOptions {
    /// Run on specific files.
    pub files: Option<Vec<String>>,
    /// Run on all files instead of just staged files.
    pub all: bool,
    /// Run check command instead of fix command.
    pub check: bool,
    /// Exclude files that otherwise would have been selected.
    pub exclude: Option<Vec<String>>,
    /// Run fix command instead of check command.
    pub fix: bool,
    /// Run on files that match these glob patterns.
    pub glob: Option<Vec<String>>,
    /// Output the plan as JSON when combined with `plan` or `why`.
    pub json: bool,
    /// Print the plan instead of running the hook.
    pub plan: bool,
    /// Run only specific steps.
    pub step: Vec<String>,
    /// Show reasons for one step, or for all where the name is empty. Implies `plan`.
    pub why: Option<String>,
    /// Abort on first failure.
    pub fail_fast: bool,
    /// Invoked by an installed git hook.
    pub from_hook: bool,
    /// Start reference for checking files.
    pub from_ref: Option<String>,
    /// Continue on failures.
    pub no_fail_fast: bool,
    /// Disable auto-staging of fixed files.
    pub no_stage: bool,
    /// Check only files changed in the current branch.
    pub pr: bool,
    /// Skip specific steps.
    pub skip_step: Vec<String>,
    /// Enable auto-staging of fixed files.
    pub stage: bool,
    /// Run on staged files only without stashing unstaged changes.
    pub staged: bool,
    /// Stash method to use for git hooks.
    pub stash: Option<String>,
    /// Display statistics about files matching each step.
    pub stats: bool,
    /// End reference for checking files.
    pub to_ref: Option<String>,
}

/// What makes the JSON option speak of traces instead of plans.
#[derive(Debug, Clone, Copy, PartialEq, Eq, Structural)]
pub struct TraceSwitches {
    /// Tracing was asked for on the command line.
    pub cli_trace: bool,
    /// The environment asks for JSON.
    pub hk_json: bool,
    /// The environment asks for traces in JSON.
    pub trace_json: bool,
}

/// What is left to do for a hook.
#[derive(Debug)]
pub enum HookTask {
    /// Nothing: there is no such hook here, and an installed git hook asked.
    Skip,
    /// Show statistics of the hook.
    Stats(HookOptions),
    /// Show the hook's plan.
    Plan(HookOptions),
    /// Run the hook.
    Run(HookOptions),
}

/// Why a hook cannot be run.
#[derive(Debug)]
pub enum HookError {
    /// Two options that exclude each other were given.
    StagedWithStash,
    /// The configuration did not load.
    Config,
    /// The repository did not open.
    Repository(GitError),
    /// The JSON option was given without anything to put out as JSON.
    JsonWithoutPlan,
    /// There is no such hook; has the message.
    NotFound(String),
}

impl HookError {
    /// What the error says, where it does not pass on what went wrong outside.
    pub open spec fn says(self) -> Option<Seq<char>> {
        match self {
            HookError::StagedWithStash => Some(
                "argument '--staged' cannot be used with '--stash <STASH>'"@,
            ),
            HookError::JsonWithoutPlan => Some("--json requires --plan or --why"@),
            HookError::NotFound(message) => Some(message@),
            HookError::Repository(e) => e.says(),
            HookError::Config => None,
        }
    }

    /// What the error says, where it does not pass on what went wrong outside.
    pub fn message(&self) -> (r: Option<String>)
        ensures
            opt_text(r) == self.says(),
    {
        match self {
            HookError::StagedWithStash => Some(
                "argument '--staged' cannot be used with '--stash <STASH>'".to_owned(),
            ),
            HookError::JsonWithoutPlan => Some("--json requires --plan or --why".to_owned()),
            HookError::NotFound(message) => Some(message.clone()),
            HookError::Repository(e) => e.message(),
            HookError::Config => None,
        }
    }
}

/// What `xx::suggest::did_you_mean` returns for a name and the names there are.
pub uninterp spec fn suggestion_for(name: Seq<char>, names: Seq<Seq<char>>) -> Option<Seq<char>>;

/// Calls `xx::suggest::did_you_mean`. Claims that what it returns depends on
/// the name and the candidates alone, that it returns nothing where there are
/// no candidates, and that otherwise it asks about one of them or returns
/// nothing. Which candidate is close enough, and which is closest, is left to
/// the similarity that the crate computes.
#[verifier::external_body]
fn did_you_mean(name: &str, names: &Vec<String>) -> (r: Option<String>)
    ensures
        opt_text(r) == suggestion_for(name@, texts(names@)),
        names@.len() == 0 ==> r is None,
        r is Some ==> exists|i: int|
            0 <= i < names@.len() && r->0@ == "Did you mean '"@ + (#[trigger] names@[i])@ + "'?"@,
{
    xx::suggest::did_you_mean(name, names)
}

/// What is said of a hook that is not there.
pub open spec fn not_found(name: Seq<char>, suggestion: Option<Seq<char>>) -> Seq<char> {
    match suggestion {
        Some(s) => "Hook '"@ + name + "' not found. "@ + s,
        None => "Hook '"@ + name + "' not found"@,
    }
}

/// Says that a hook is not there, with a suggestion if there is one.
pub fn not_found_message(name: &str, suggestion: Option<String>) -> (r: String)
    ensures
        r@ == not_found(name@, opt_text(suggestion)),
{
    match suggestion {
        Some(s) => {
            let start = concat3("Hook '", name, "' not found. ");
            concat2(start.as_str(), s.as_str())
        },
        None => concat3("Hook '", name, "' not found"),
    }
}

/// Whether a hook is among the defined ones.
pub open spec fn is_defined(names: Seq<Seq<char>>, name: Seq<char>) -> bool {
    names.contains(name)
}

/// Tells whether a hook is among the defined ones.
fn defines(names: &Vec<String>, name: &str) -> (r: bool)
    ensures
        r == is_defined(texts(names@), name@),
{
    let mut i: usize = 0;
    while i < names.len()
        invariant
            i <= names.len(),
            forall|k: int| 0 <= k < i ==> #[trigger] texts(names@)[k] != name@,
        decreases names.len() - i,
    {
        if same(names[i].as_str(), name) {
            proof {
                assert(texts(names@)[i as int] == name@);
            }
            return true;
        }
        i += 1;
    }
    false
}

impl HookOptions {
    /// Rejects options that exclude each other.
    pub fn validate(&self) -> (r: Result<(), HookError>)
        ensures
            r == (if self.staged && self.stash is Some {
                Err(HookError::StagedWithStash)
            } else {
                Ok(())
            }),
    {
        if self.staged && self.stash.is_some() {
            return Err(HookError::StagedWithStash);
        }
        Ok(())
    }

    /// Whether fixed files are to be staged, where the options say it.
    pub open spec fn staging(&self) -> Option<bool> {
        if self.stage {
            Some(true)
        } else if self.no_stage {
            Some(false)
        } else {
            None
        }
    }

    /// Tells whether fixed files are to be staged, where the options say it.
    pub fn should_stage(&self) -> (r: Option<bool>)
        ensures
            r == self.staging(),
    {
        if self.stage {
            Some(true)
        } else if self.no_stage {
            Some(false)
        } else {
            None
        }
    }

    /// Whether JSON is asked for with nothing to put out as JSON.
    pub open spec fn json_alone(&self, switches: TraceSwitches) -> bool {
        &&& self.json && !self.plan && self.why is None
        &&& !switches.cli_trace && !switches.hk_json && !switches.trace_json
    }

    /// Whether these are the options `pre` on the files between a branch and `HEAD`.
    pub open spec fn ranges(self, pre: HookOptions, branch: Seq<char>) -> bool {
        &&& opt_text(self.from_ref) == Some(branch)
        &&& opt_text(self.to_ref) == Some("HEAD"@)
        &&& self == HookOptions { from_ref: self.from_ref, to_ref: self.to_ref, ..pre }
    }

    /// What is to be done for a hook that is defined.
    pub open spec fn task(self) -> HookTask {
        if self.stats {
            HookTask::Stats(self)
        } else if self.plan || self.why is Some {
            HookTask::Plan(self)
        } else {
            HookTask::Run(self)
        }
    }

    /// What becomes of a hook once the configuration is known.
    pub open spec fn settles(
        self,
        name: Seq<char>,
        switches: TraceSwitches,
        config: ProjectConfig,
        r: Result<HookTask, HookError>,
    ) -> bool {
        if self.json_alone(switches) {
            r matches Err(HookError::JsonWithoutPlan)
        } else if is_defined(texts(config.hooks@), name) {
            r == Ok::<HookTask, HookError>(self.task())
        } else if self.from_hook {
            r matches Ok(HookTask::Skip)
        } else {
            &&& r matches Err(HookError::NotFound(message))
            &&& message@ == not_found(name, suggestion_for(name, texts(config.hooks@)))
            &&& config.hooks@.len() == 0 ==> message@ == not_found(name, None)
        }
    }

    /// Decides what becomes of a hook once the configuration is known.
    fn settle(self, name: &str, switches: TraceSwitches, config: &ProjectConfig) -> (r: Result<
        HookTask,
        HookError,
    >)
        ensures
            self.settles(name@, switches, *config, r),
    {
        if self.json && !self.plan && self.why.is_none() && !switches.cli_trace
            && !switches.hk_json && !switches.trace_json {
            return Err(HookError::JsonWithoutPlan);
        }
        if defines(&config.hooks, name) {
            if self.stats {
                return Ok(HookTask::Stats(self));
            }
            if self.plan || self.why.is_some() {
                return Ok(HookTask::Plan(self));
            }
            return Ok(HookTask::Run(self));
        }
        if self.from_hook {
            return Ok(HookTask::Skip);
        }
        let suggestion = did_you_mean(name, &config.hooks);
        Err(HookError::NotFound(not_found_message(name, suggestion)))
    }

    /// Starts to run a hook.
    ///
    /// An installed git hook is let through before the configuration is loaded
    /// where the project has none: a broken global configuration must not fail
    /// every commit in a repository that does not use hooks of this kind.
    pub fn run(self, name: &str, switches: TraceSwitches, env: GitEnv) -> (r: HookProgress)
        ensures
            if self.staged && self.stash is Some {
                r matches Progress::Done(Err(HookError::StagedWithStash))
            } else {
                &&& r matches Progress::Ask(action, op)
                &&& op.options == self && op.name@ == name@ && op.switches == switches
                &&& if self.from_hook {
                    action is FindConfig && op.phase == HookPhase::Project(env)
                } else {
                    action is LoadConfig && op.phase == HookPhase::Config(env)
                }
            },
    {
        if let Err(e) = self.validate() {
            return Progress::Done(Err(e));
        }
        let from_hook = self.from_hook;
        let name = name.to_owned();
        if from_hook {
            Progress::Ask(
                Action::FindConfig,
                HookRun { options: self, name, switches, phase: HookPhase::Project(env) },
            )
        } else {
            Progress::Ask(
                Action::LoadConfig,
                HookRun { options: self, name, switches, phase: HookPhase::Config(env) },
            )
        }
    }
}

/// Where running a hook stands.
#[derive(Debug)]
pub enum HookPhase {
    /// Waits for whether the project has a configuration.
    Project(GitEnv),
    /// Waits for the configuration.
    Config(GitEnv),
    /// Opens the repository; has the configuration.
    Open(ProjectConfig, OpenGit),
    /// Searches for the default branch; has the configuration.
    Branch(ProjectConfig, ResolveBranch),
}

/// Running a hook.
#[derive(Debug)]
pub struct HookRun {
    /// The options.
    pub options: HookOptions,
    /// The name of the hook.
    pub name: String,
    /// What makes the JSON option speak of traces.
    pub switches: TraceSwitches,
    /// What is being waited for.
    pub phase: HookPhase,
}

/// How running a hook goes on.
pub type HookProgress = Progress<HookRun, Result<HookTask, HookError>>;

impl HookRun {
    /// What stays as it was.
    pub open spec fn keeps(&self, pre: HookRun) -> bool {
        self.options == pre.options && self.name == pre.name && self.switches == pre.switches
    }

    /// That the hook is settled on the files between the default branch and `HEAD`.
    pub open spec fn settles_between(
        pre: HookRun,
        config: ProjectConfig,
        branch: Seq<char>,
        r: HookProgress,
    ) -> bool {
        r is Done && exists|options: HookOptions|
            options.ranges(pre.options, branch) && #[trigger] options.settles(
                pre.name@,
                pre.switches,
                config,
                r->Done_0,
            )
    }

    /// How it goes on with a step of the search for the default branch.
    pub open spec fn passes_branch(
        pre: HookRun,
        config: ProjectConfig,
        step: Resolved,
        r: HookProgress,
    ) -> bool {
        match step {
            Progress::Ask(action, next) => {
                &&& r matches Progress::Ask(asked, post)
                &&& asked == action && post.keeps(pre)
                &&& post.phase == HookPhase::Branch(config, next)
            },
            Progress::Done(branch) => HookRun::settles_between(pre, config, branch@, r),
        }
    }

    /// How it goes on with a step of opening the repository.
    pub open spec fn passes_open(
        pre: HookRun,
        config: ProjectConfig,
        step: Opened,
        r: HookProgress,
    ) -> bool {
        match step {
            Progress::Ask(action, next) => {
                &&& r matches Progress::Ask(asked, post)
                &&& asked == action && post.keeps(pre)
                &&& post.phase == HookPhase::Open(config, next)
            },
            Progress::Done(Err(e)) => r matches Progress::Done(Err(HookError::Repository(out)))
                && out == e,
            Progress::Done(Ok(git)) => exists|start: Resolved|
                {
                    &&& #[trigger] git.starts_resolving(config.default_branch, start)
                    &&& HookRun::passes_branch(pre, config, start, r)
                },
        }
    }

    /// How running a hook goes on when it is told `reply`.
    pub open spec fn follows(pre: HookRun, reply: Reply, r: HookProgress) -> bool {
        match pre.phase {
            HookPhase::Project(env) => if reply.ok() {
                &&& r matches Progress::Ask(Action::LoadConfig, post)
                &&& post.keeps(pre) && post.phase == HookPhase::Config(env)
            } else {
                r matches Progress::Done(Ok(HookTask::Skip))
            },
            HookPhase::Config(env) => match reply {
                Reply::Config(Some(config)) => if pre.options.pr {
                    &&& r matches Progress::Ask(Action::CurrentDir, post)
                    &&& post.keeps(pre)
                    &&& post.phase == HookPhase::Open(
                        config,
                        OpenGit { env, phase: OpenPhase::CurrentDir },
                    )
                } else {
                    r matches Progress::Done(out) && pre.options.settles(
                        pre.name@,
                        pre.switches,
                        config,
                        out,
                    )
                },
                _ => r matches Progress::Done(Err(HookError::Config)),
            },
            HookPhase::Open(config, opening) => exists|step: Opened|
                #[trigger] OpenGit::follows(opening, reply, step) && HookRun::passes_open(
                    pre,
                    config,
                    step,
                    r,
                ),
            HookPhase::Branch(config, search) => exists|step: Resolved|
                #[trigger] ResolveBranch::follows(search, reply, step) && HookRun::passes_branch(
                    pre,
                    config,
                    step,
                    r,
                ),
        }
    }

    /// Passes a step of the search for the default branch on.
    fn pass_branch(
        options: HookOptions,
        name: String,
        switches: TraceSwitches,
        config: ProjectConfig,
        step: Resolved,
    ) -> (r: HookProgress)
        ensures
            forall|pre: HookRun|
                pre.options == options && pre.name == name && pre.switches == switches
                    ==> #[trigger] HookRun::passes_branch(pre, config, step, r),
    {
        match step {
            Progress::Ask(action, next) => Progress::Ask(
                action,
                HookRun { options, name, switches, phase: HookPhase::Branch(config, next) },
            ),
            Progress::Done(branch) => {
                let ghost given = options;
                let options = HookOptions {
                    from_ref: Some(branch),
                    to_ref: Some("HEAD".to_owned()),
                    ..options
                };
                let out = options.settle(name.as_str(), switches, &config);
                let r: HookProgress = Progress::Done(out);
                proof {
                    assert(options.ranges(given, branch@));
                    assert(options.settles(name@, switches, config, r->Done_0));
                    assert forall|pre: HookRun|
                        pre.options == given && pre.name == name && pre.switches
                            == switches implies #[trigger] HookRun::passes_branch(
                        pre,
                        config,
                        step,
                        r,
                    ) by {
                        assert(options.settles(pre.name@, pre.switches, config, r->Done_0));
                    }
                }
                r
            },
        }
    }

    /// Goes on when the outcome of the action is known.
    pub fn resume(self, reply: Reply) -> (r: HookProgress)
        ensures
            HookRun::follows(self, reply, r),
    {
        let HookRun { options, name, switches, phase } = self;
        match phase {
            HookPhase::Project(env) => {
                if reply.into_ok() {
                    Progress::Ask(
                        Action::LoadConfig,
                        HookRun { options, name, switches, phase: HookPhase::Config(env) },
                    )
                } else {
                    Progress::Done(Ok(HookTask::Skip))
                }
            },
            HookPhase::Config(env) => match reply {
                Reply::Config(Some(config)) => {
                    if options.pr {
                        match Git::new(env) {
                            Progress::Ask(action, opening) => Progress::Ask(
                                action,
                                HookRun {
                                    options,
                                    name,
                                    switches,
                                    phase: HookPhase::Open(config, opening),
                                },
                            ),
                            Progress::Done(_) => Progress::Done(Err(HookError::Config)),
                        }
                    } else {
                        Progress::Done(options.settle(name.as_str(), switches, &config))
                    }
                },
                _ => Progress::Done(Err(HookError::Config)),
            },
            HookPhase::Open(config, opening) => {
                let step = opening.resume(reply);
                let ghost taken = step;
                proof {
                    assert(OpenGit::follows(opening, reply, taken));
                }
                match step {
                    Progress::Ask(action, next) => Progress::Ask(
                        action,
                        HookRun { options, name, switches, phase: HookPhase::Open(config, next) },
                    ),
                    Progress::Done(Err(e)) => Progress::Done(Err(HookError::Repository(e))),
                    Progress::Done(Ok(git)) => {
                        let configured = config.default_branch.clone();
                        let start = git.resolve_default_branch(configured);
                        let ghost started = start;
                        proof {
                            assert(git.starts_resolving(config.default_branch, started));
                        }
                        HookRun::pass_branch(options, name, switches, config, start)
                    },
                }
            },
            HookPhase::Branch(config, search) => {
                let step = search.resume(reply);
                let ghost taken = step;
                proof {
                    assert(ResolveBranch::follows(search, reply, taken));
                }
                HookRun::pass_branch(options, name, switches, config, step)
            },
        }
    }
}

/// How many answers running a hook still waits for, at most.
pub open spec fn hook_steps(phase: HookPhase) -> nat {
    match phase {
        HookPhase::Project(_) => 14,
        HookPhase::Config(_) => 13,
        HookPhase::Open(_, opening) => open_steps(opening.phase) + 6,
        HookPhase::Branch(_, search) => default_steps(search.search.phase),
    }
}

/// Running a hook comes to a decision, whatever it is told.
pub proof fn law_running_a_hook_ends(pre: HookRun, reply: Reply, r: HookProgress)
    requires
        HookRun::follows(pre, reply, r),
    ensures
        r matches Progress::Ask(_, post) ==> hook_steps(post.phase) < hook_steps(pre.phase),
{
    match pre.phase {
        HookPhase::Open(config, opening) => {
            let step = choose|step: Opened|
                #[trigger] OpenGit::follows(opening, reply, step) && HookRun::passes_open(
                    pre,
                    config,
                    step,
                    r,
                );
            law_opening_ends(opening, reply, step);
        },
        HookPhase::Branch(config, search) => {
            let step = choose|step: Resolved|
                #[trigger] ResolveBranch::follows(search, reply, step) && HookRun::passes_branch(
                    pre,
                    config,
                    step,
                    r,
                );
            let inner = choose|inner: Defaulted|
                #[trigger] DefaultBranch::follows(search.search, reply, inner)
                    && ResolveBranch::passes(inner, step);
            law_the_default_branch_search_ends(search.search, reply, inner);
        },
        _ => {},
    }
}

/// An installed git hook is never told that its hook is not defined, and is
/// let through where the project has no configuration.
pub proof fn law_an_installed_hook_is_not_refused(pre: HookRun, reply: Reply, r: HookProgress)
    requires
        HookRun::follows(pre, reply, r),
        pre.options.from_hook,
    ensures
        r matches Progress::Ask(_, post) ==> post.options.from_hook,
        !(r matches Progress::Done(Err(HookError::NotFound(_)))),
        pre.phase is Project && !reply.ok() ==> r matches Progress::Done(Ok(HookTask::Skip)),
{
}

/// The options that a task is carried out with.
pub open spec fn task_options(task: HookTask) -> Option<HookOptions> {
    match task {
        HookTask::Skip => None,
        HookTask::Stats(o) => Some(o),
        HookTask::Plan(o) => Some(o),
        HookTask::Run(o) => Some(o),
    }
}

/// Whether the repository is opened only to find the references of a branch.
pub open spec fn opens_for_branch(op: HookRun) -> bool {
    op.phase is Open || op.phase is Branch ==> op.options.pr
}

/// A hook is carried out with the options that were given. Where the files of
/// the current branch are asked for, they end at `HEAD` and have a start.
pub proof fn law_a_task_has_the_given_options(pre: HookRun, reply: Reply, r: HookProgress)
    requires
        HookRun::follows(pre, reply, r),
        opens_for_branch(pre),
    ensures
        r matches Progress::Ask(_, post) ==> opens_for_branch(post) && post.options
            == pre.options,
        r matches Progress::Done(Ok(task)) ==> task_options(task) matches Some(options)
            ==> if pre.options.pr {
            options.from_ref is Some && options.ranges(pre.options, options.from_ref->0@)
        } else {
            options == pre.options
        },
{
}

/// Asking for staging wins over asking for none.
pub proof fn law_stage_wins(options: HookOptions)
    ensures
        options.stage ==> options.staging() == Some(true),
        options.staging() == Some(false) <==> !options.stage && options.no_stage,
        options.staging() is None <==> !options.stage && !options.no_stage,
{
}

/// Tracing of any kind lets the JSON option stand alone, and so does a plan.
pub proof fn law_traces_allow_json(options: HookOptions, switches: TraceSwitches)
    ensures
        switches.cli_trace || switches.hk_json || switches.trace_json
            ==> !options.json_alone(switches),
        options.plan || options.why is Some ==> !options.json_alone(switches),
{
}

/// For a hook that is defined, statistics come first where they are asked for;
/// else it is a plan exactly where a plan or reasons are asked for, whatever
/// step the reasons are for; else the hook is run. JSON without anything to put
/// out is refused before that, and a hook that is not defined is no task.
pub proof fn law_a_hook_is_planned_exactly_when_asked(
    options: HookOptions,
    name: Seq<char>,
    switches: TraceSwitches,
    config: ProjectConfig,
    r: Result<HookTask, HookError>,
)
    requires
        options.settles(name, switches, config, r),
    ensures
        ({
            let traced = switches.cli_trace || switches.hk_json || switches.trace_json;
            let explains = options.plan || options.why is Some;
            let refused = options.json && !explains && !traced;
            let defined = exists|i: int|
                0 <= i < config.hooks@.len() && (#[trigger] config.hooks@[i])@ == name;
            &&& (r matches Err(HookError::JsonWithoutPlan)) <==> refused
            &&& (r matches Ok(HookTask::Stats(_))) <==> !refused && defined && options.stats
            &&& (r matches Ok(HookTask::Plan(_))) <==> !refused && defined && !options.stats
                && explains
            &&& (r matches Ok(HookTask::Run(_))) <==> !refused && defined && !options.stats
                && !explains
            &&& (r matches Ok(HookTask::Skip)) <==> !refused && !defined && options.from_hook
            &&& (r matches Err(HookError::NotFound(_))) <==> !refused && !defined
                && !options.from_hook
            &&& r matches Ok(HookTask::Stats(o)) ==> o == options
            &&& r matches Ok(HookTask::Plan(o)) ==> o == options
            &&& r matches Ok(HookTask::Run(o)) ==> o == options
        }),
{
    let hooks = texts(config.hooks@);
    if is_defined(hooks, name) {
        let i = choose|i: int| 0 <= i < hooks.len() && hooks[i] == name;
        assert(config.hooks@[i]@ == name);
    }
    if exists|i: int| 0 <= i < config.hooks@.len() && (#[trigger] config.hooks@[i])@ == name {
        let i = choose|i: int|
            0 <= i < config.hooks@.len() && (#[trigger] config.hooks@[i])@ == name;
        assert(hooks[i] == name);
    }
}

/// The message about a hook that is not there names it, and adds the
/// suggestion where there is one; without any hooks there is none.
pub proof fn law_a_missing_hook_is_named(
    options: HookOptions,
    name: Seq<char>,
    switches: TraceSwitches,
    config: ProjectConfig,
    message: String,
)
    requires
        options.settles(name, switches, config, Err(HookError::NotFound(message))),
    ensures
        ({
            let start = "Hook '"@ + name + "' not found"@;
            let names = texts(config.hooks@);
            &&& config.hooks@.len() == 0 ==> message@ == start
            &&& suggestion_for(name, names) is None ==> message@ == start
            &&& suggestion_for(name, names) matches Some(hint) ==> config.hooks@.len() > 0
                ==> message@ == start + ". "@ + hint
        }),
{
    reveal_strlit("' not found. ");
    reveal_strlit("' not found");
    reveal_strlit(". ");
    let names = texts(config.hooks@);
    if let Some(hint) = suggestion_for(name, names) {
        assert("' not found. "@ == "' not found"@ + ". "@);
        assert("Hook '"@ + name + "' not found. "@ + hint == "Hook '"@ + name + "' not found"@
            + ". "@ + hint);
    }
}

/// Whatever way a hook takes, what becomes of it goes by the options that were
/// given: it is run only where neither statistics nor a plan nor reasons are
/// asked for, and planned only where one of the latter two is.
pub proof fn law_a_hook_is_run_only_where_nothing_else_is_asked(
    pre: HookRun,
    reply: Reply,
    r: HookProgress,
)
    requires
        HookRun::follows(pre, reply, r),
    ensures
        ({
            let o = pre.options;
            let explains = o.plan || o.why is Some;
            let traced = pre.switches.cli_trace || pre.switches.hk_json || pre.switches.trace_json;
            &&& r matches Progress::Done(Ok(HookTask::Run(_))) ==> !o.stats && !explains
            &&& r matches Progress::Done(Ok(HookTask::Plan(_))) ==> !o.stats && explains
            &&& r matches Progress::Done(Ok(HookTask::Stats(_))) ==> o.stats
            &&& r matches Progress::Done(Ok(HookTask::Skip)) ==> pre.phase is Project
                || o.from_hook
            &&& r matches Progress::Done(Err(HookError::NotFound(_))) ==> !o.from_hook
            &&& r matches Progress::Done(Ok(task)) ==> !(pre.phase is Project) ==> !(o.json
                && !explains && !traced)
            &&& r matches Progress::Done(Err(HookError::JsonWithoutPlan)) ==> o.json && !explains
                && !traced
        }),
{
}

/// Once the configuration is there, the hook is settled with the options that
/// were given, unless the files of the current branch are asked for: then the
/// repository is opened first. A configuration that does not load is an error.
pub proof fn law_the_configuration_settles_the_hook(
    pre: HookRun,
    env: GitEnv,
    told: Option<ProjectConfig>,
    r: HookProgress,
)
    requires
        pre.phase == HookPhase::Config(env),
        HookRun::follows(pre, Reply::Config(told), r),
    ensures
        told is None ==> (r matches Progress::Done(Err(HookError::Config))),
        told is Some && !pre.options.pr ==> (r matches Progress::Done(out)
            && pre.options.settles(pre.name@, pre.switches, told->0, out)),
        told is Some && pre.options.pr ==> {
            &&& r matches Progress::Ask(Action::CurrentDir, post)
            &&& post.options == pre.options && post.name == pre.name
            &&& post.switches == pre.switches
            &&& post.phase matches HookPhase::Open(config, opening)
            &&& config == told->0 && opening.env == env && opening.phase is CurrentDir
        },
{
}

/// A project with a configuration has it loaded; one without lets an installed
/// hook through.
pub proof fn law_a_project_without_configuration_has_no_hooks(
    pre: HookRun,
    env: GitEnv,
    found: bool,
    r: HookProgress,
)
    requires
        pre.phase == HookPhase::Project(env),
        HookRun::follows(pre, Reply::Done(found), r),
    ensures
        found ==> {
            &&& r matches Progress::Ask(Action::LoadConfig, post)
            &&& post.options == pre.options && post.name == pre.name
            &&& post.switches == pre.switches && post.phase == HookPhase::Config(env)
        },
        !found ==> (r matches Progress::Done(Ok(HookTask::Skip))),
{
}

/// A repository that does not open is an error of its own: none where there is
/// no work tree, none that cannot be entered, none that libgit2 cannot open.
pub proof fn law_a_repository_that_does_not_open_is_an_error(
    pre: HookRun,
    reply: Reply,
    r: HookProgress,
)
    requires
        pre.phase is Open,
        HookRun::follows(pre, reply, r),
    ensures
        ({
            let opening = pre.phase->Open_1;
            &&& opening.phase is Root && !(reply matches Reply::Path(Some(_))) ==> (r matches
                Progress::Done(Err(HookError::Repository(GitError::NoRepository))))
            &&& opening.phase is Enter && reply != Reply::Done(true) ==> (r matches
                Progress::Done(Err(HookError::Repository(GitError::EnterDir))))
            &&& opening.phase is Lib && !(reply matches Reply::Bare(Some(_))) ==> (r matches
                Progress::Done(Err(HookError::Repository(GitError::OpenRepository))))
            &&& opening.phase is Index && reply != Reply::Done(true) ==> (r matches
                Progress::Done(Err(HookError::Repository(GitError::Index))))
            &&& opening.phase is CurrentDir && !(reply matches Reply::Path(Some(_))) ==> (
            r matches Progress::Done(Err(HookError::Repository(GitError::CurrentDir))))
        }),
{
}

/// Where the configuration names a branch, a hook on the files of the current
/// branch starts from it as it is spelled; a blank name counts as none, and
/// then the default branch is searched for. Either way the files end at `HEAD`.
pub proof fn law_a_configured_branch_is_where_files_start(
    pre: HookRun,
    reply: Reply,
    r: HookProgress,
)
    requires
        pre.phase is Open,
        pre.phase->Open_1.phase is Enter,
        !pre.phase->Open_1.env.libgit2,
        reply == Reply::Done(true),
        HookRun::follows(pre, reply, r),
    ensures
        ({
            let config = pre.phase->Open_0;
            let branch = config.default_branch;
            let named = branch is Some && !crate::text::is_blank(branch->0@);
            &&& named ==> {
                &&& r matches Progress::Done(out)
                &&& exists|o: HookOptions|
                    {
                        &&& o.from_ref is Some && o.from_ref->0@ == branch->0@
                        &&& o.to_ref is Some && o.to_ref->0@ == "HEAD"@
                        &&& o == HookOptions { from_ref: o.from_ref, to_ref: o.to_ref, ..pre.options }
                        &&& #[trigger] o.settles(pre.name@, pre.switches, config, out)
                    }
            }
            &&& !named ==> {
                &&& r matches Progress::Ask(Action::ReadGit(c), post)
                &&& c.says(seq!["symbolic-ref"@, "refs/remotes/origin/HEAD"@])
                &&& post.options == pre.options && post.name == pre.name
                &&& post.phase matches HookPhase::Branch(kept, _)
                &&& kept == config
            }
        }),
{
    let config = pre.phase->Open_0;
    let opening = pre.phase->Open_1;
    let step = choose|step: Opened|
        #[trigger] OpenGit::follows(opening, reply, step) && HookRun::passes_open(
            pre,
            config,
            step,
            r,
        );
    if let Progress::Done(Ok(git)) = step {
        let start = choose|start: Resolved|
            {
                &&& #[trigger] git.starts_resolving(config.default_branch, start)
                &&& HookRun::passes_branch(pre, config, start, r)
            };
        if let Progress::Done(branch) = start {
            let o = choose|o: HookOptions|
                o.ranges(pre.options, branch@) && #[trigger] o.settles(
                    pre.name@,
                    pre.switches,
                    config,
                    r->Done_0,
                );
            assert(o.from_ref is Some && o.from_ref->0@ == branch@);
            assert(o.to_ref is Some && o.to_ref->0@ == "HEAD"@);
        }
    }
}

/// What options exclude each other, and what is said of each error.
pub proof fn law_errors_of_a_hook_say_what_happened(e: HookError)
    ensures
        e is StagedWithStash ==> e.says() == Some(
            "argument '--staged' cannot be used with '--stash <STASH>'"@,
        ),
        e is JsonWithoutPlan ==> e.says() == Some("--json requires --plan or --why"@),
        e matches HookError::NotFound(message) ==> e.says() == Some(message@),
        e matches HookError::Repository(inner) ==> e.says() == inner.says(),
        e is Config ==> e.says() is None,
{
}

/// JSON alone is refused exactly where there is nothing to put out as JSON.
pub proof fn law_json_needs_something_to_put_out(options: HookOptions, switches: TraceSwitches)
    ensures
        options.json_alone(switches) <==> options.json && !options.plan && options.why is None
            && !switches.cli_trace && !switches.hk_json && !switches.trace_json,
{
}

/// While the repository is opened or the default branch is searched for, the
/// hook asks what that asks, and keeps what it was given.
pub proof fn law_a_hook_asks_what_its_search_asks(pre: HookRun, reply: Reply, r: HookProgress)
    requires
        pre.phase is Open || pre.phase is Branch,
        HookRun::follows(pre, reply, r),
        r is Ask,
    ensures
        ({
            let action = r->Ask_0;
            let post = r->Ask_1;
            &&& post.options == pre.options && post.name == pre.name
            &&& post.switches == pre.switches
            &&& match pre.phase {
                HookPhase::Open(config, opening) => {
                    ||| post.phase matches HookPhase::Open(kept, next) && kept == config
                        && OpenGit::follows(opening, reply, Progress::Ask(action, next))
                    ||| {
                        &&& post.phase matches HookPhase::Branch(kept, next)
                        &&& kept == config && action is ReadGit
                        &&& next.search.phase is Symbolic
                        &&& exists|git: Git|
                            OpenGit::follows(opening, reply, Progress::Done(Ok(git)))
                                && #[trigger] git.libgit2 == next.search.libgit2
                    }
                },
                HookPhase::Branch(config, search) => {
                    &&& post.phase matches HookPhase::Branch(kept, next)
                    &&& kept == config && ResolveBranch::follows(
                        search,
                        reply,
                        Progress::Ask(action, next),
                    )
                },
                _ => true,
            }
        }),
{
    let action = r->Ask_0;
    let post = r->Ask_1;
    if let HookPhase::Open(config, opening) = pre.phase {
        let step = choose|step: Opened|
            #[trigger] OpenGit::follows(opening, reply, step) && HookRun::passes_open(
                pre,
                config,
                step,
                r,
            );
        if let Progress::Done(Ok(git)) = step {
            let start = choose|start: Resolved|
                {
                    &&& #[trigger] git.starts_resolving(config.default_branch, start)
                    &&& HookRun::passes_branch(pre, config, start, r)
                };
            if let HookPhase::Branch(kept, next) = post.phase {
                assert(git.libgit2 == next.search.libgit2);
            }
        }
    }
}

/// A hook on the files of the current branch is settled with the branch that
/// the search ended with as their start, and `HEAD` as their end.
pub proof fn law_the_branch_that_is_found_is_where_files_start(
    pre: HookRun,
    reply: Reply,
    r: HookProgress,
)
    requires
        pre.phase is Branch,
        HookRun::follows(pre, reply, r),
        r is Done,
    ensures
        exists|o: HookOptions, branch: String|
            {
                &&& ResolveBranch::follows(pre.phase->Branch_1, reply, Progress::Done(branch))
                &&& o.from_ref is Some && o.from_ref->0@ == #[trigger] branch@
                &&& o.to_ref is Some && o.to_ref->0@ == "HEAD"@
                &&& o == HookOptions { from_ref: o.from_ref, to_ref: o.to_ref, ..pre.options }
                &&& #[trigger] o.settles(
                    pre.name@,
                    pre.switches,
                    pre.phase->Branch_0,
                    r->Done_0,
                )
            },
{
    let config = pre.phase->Branch_0;
    let search = pre.phase->Branch_1;
    let step = choose|step: Resolved|
        #[trigger] ResolveBranch::follows(search, reply, step) && HookRun::passes_branch(
            pre,
            config,
            step,
            r,
        );
    if let Progress::Done(branch) = step {
        let o = choose|o: HookOptions|
            o.ranges(pre.options, branch@) && #[trigger] o.settles(
                pre.name@,
                pre.switches,
                config,
                r->Done_0,
            );
        assert(o.from_ref is Some && o.from_ref->0@ == branch@);
        assert(o.settles(pre.name@, pre.switches, pre.phase->Branch_0, r->Done_0));
    }
}

} // verus!
