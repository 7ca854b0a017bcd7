//! A step of a hook: what it runs, and in which shell.
use crate::text::{
    blank, concat3, is_blank, last_piece, opt_text, same, split_by, split_words, texts, words,
    Separator,
};
use vstd::prelude::*;

verus! {

/// The system that commands run on.
#[derive(Debug, Clone, Copy, PartialEq, Eq, Structural)]
pub enum Platform {
    /// Linux.
    Linux,
    /// macOS.
    Macos,
    /// Windows.
    Windows,
    /// Any other.
    Other,
}

/// A command line, which may differ from system to system.
#[derive(Debug, Clone)]
pub struct Script {
    /// On Linux.
    pub linux: Option<String>,
    /// On macOS.
    pub macos: Option<String>,
    /// On Windows.
    pub windows: Option<String>,
    /// Wherever there is none for the system.
    pub other: Option<String>,
}

/// Whether files are checked or fixed.
#[derive(Debug, Clone, Copy, PartialEq, Eq, Structural)]
pub enum RunType {
    /// Files are checked.
    Check,
    /// Files are fixed.
    Fix,
}

/// A shell, by the way its commands are quoted.
#[derive(Debug)]
pub enum ShellType {
    /// bash.
    Bash,
    /// dash.
    Dash,
    /// fish.
    Fish,
    /// sh.
    Sh,
    /// zsh.
    Zsh,
    /// The command interpreter of Windows.
    Cmd,
    /// PowerShell.
    PowerShell,
    /// Any other, by its name.
    Other(String),
}

/// Which files a step is for.
#[derive(Debug, Clone)]
pub enum Pattern {
    /// Files that match one of these globs.
    Globs(Vec<String>),
    /// Files that match this regular expression.
    Regex(String),
}

/// A step of a hook.
#[derive(Debug, Clone)]
pub struct Step {
    /// The name.
    pub name: String,
    /// The command that checks files.
    pub check: Option<Script>,
    /// The command that checks files and prints a diff.
    pub check_diff: Option<Script>,
    /// The command that checks files and lists those that need fixing.
    pub check_list_files: Option<Script>,
    /// The command that fixes files.
    pub fix: Option<Script>,
    /// The shell that commands run in.
    pub shell: Option<Script>,
    /// What commands read from standard input.
    pub stdin: Option<String>,
    /// Whether commands talk to the terminal.
    pub interactive: bool,
    /// Whether no other step runs at the same time.
    pub exclusive: bool,
    /// What comes before each command.
    pub prefix: Option<String>,
    /// The directory that commands run in.
    pub dir: Option<String>,
    /// Environment variables of commands.
    pub env: Vec<(String, String)>,
    /// Which files the step is for.
    pub glob: Option<Pattern>,
    /// The condition that each job is subject to.
    pub job_condition: Option<String>,
}

/// Why a step cannot be set up.
#[derive(Debug)]
pub enum InitError {
    /// The step of this name has a standard input and is interactive.
    StdinAndInteractive(String),
}

impl InitError {
    /// What the error says.
    pub open spec fn says(self) -> Seq<char> {
        match self {
            InitError::StdinAndInteractive(name) => "Step '"@ + name@
                + "' can't have both `stdin` and `interactive = true`."@,
        }
    }

    /// What the error says.
    pub fn message(&self) -> (r: String)
        ensures
            r@ == self.says(),
    {
        match self {
            InitError::StdinAndInteractive(name) => concat3(
                "Step '",
                name.as_str(),
                "' can't have both `stdin` and `interactive = true`.",
            ),
        }
    }
}

/// One text, or another where the first is missing, or the empty text.
pub open spec fn text_or(first: Option<String>, second: Option<String>) -> Seq<char> {
    match first {
        Some(t) => t@,
        None => match second {
            Some(t) => t@,
            None => Seq::empty(),
        },
    }
}

/// One text, or another where the first is missing, or the empty text.
fn pick(first: &Option<String>, second: &Option<String>) -> (r: String)
    ensures
        r@ == text_or(*first, *second),
{
    match first {
        Some(t) => t.clone(),
        None => match second {
            Some(t) => t.clone(),
            None => String::new(),
        },
    }
}

/// Whether two texts are the same, or both missing.
fn same_opt(a: &Option<String>, b: &Option<String>) -> (r: bool)
    ensures
        r == (opt_text(*a) == opt_text(*b)),
{
    match (a, b) {
        (Some(x), Some(y)) => same(x.as_str(), y.as_str()),
        (None, None) => true,
        _ => false,
    }
}

impl Script {
    /// The command line on a system.
    pub open spec fn on(self, platform: Platform) -> Seq<char> {
        match platform {
            Platform::Linux => text_or(self.linux, self.other),
            Platform::Macos => text_or(self.macos, self.other),
            Platform::Windows => text_or(self.windows, self.other),
            Platform::Other => text_or(self.other, None),
        }
    }

    /// The command line on a system.
    pub fn to_text(&self, platform: Platform) -> (r: String)
        ensures
            r@ == self.on(platform),
    {
        match platform {
            Platform::Linux => pick(&self.linux, &self.other),
            Platform::Macos => pick(&self.macos, &self.other),
            Platform::Windows => pick(&self.windows, &self.other),
            Platform::Other => pick(&self.other, &None),
        }
    }

    /// Whether two scripts say the same on every system.
    pub open spec fn same_as(self, other: Script) -> bool {
        &&& opt_text(self.linux) == opt_text(other.linux)
        &&& opt_text(self.macos) == opt_text(other.macos)
        &&& opt_text(self.windows) == opt_text(other.windows)
        &&& opt_text(self.other) == opt_text(other.other)
    }

    /// Tells whether two scripts say the same on every system.
    pub fn equals(&self, other: &Script) -> (r: bool)
        ensures
            r == self.same_as(*other),
    {
        same_opt(&self.linux, &other.linux) && same_opt(&self.macos, &other.macos) && same_opt(
            &self.windows,
            &other.windows,
        ) && same_opt(&self.other, &other.other)
    }
}

impl Default for Step {
    /// A step without anything.
    fn default() -> (r: Step)
        ensures
            r.name@ == Seq::<char>::empty() && r.env@ == Seq::<(String, String)>::empty(),
            !r.interactive && !r.exclusive,
            r.check is None && r.check_diff is None && r.check_list_files is None,
            r.fix is None && r.shell is None && r.stdin is None && r.prefix is None,
            r.dir is None && r.glob is None && r.job_condition is None,
    {
        Step {
            name: String::new(),
            check: None,
            check_diff: None,
            check_list_files: None,
            fix: None,
            shell: None,
            stdin: None,
            interactive: false,
            exclusive: false,
            prefix: None,
            dir: None,
            env: Vec::new(),
            glob: None,
            job_condition: None,
        }
    }
}

/// The first of some scripts that is there.
pub open spec fn first_of(a: Option<Script>, b: Option<Script>, c: Option<Script>) -> Option<
    Script,
> {
    if a is Some {
        a
    } else if b is Some {
        b
    } else {
        c
    }
}

/// Picks the first of some scripts that is there.
fn pick_first<'a>(
    a: &'a Option<Script>,
    b: &'a Option<Script>,
    c: &'a Option<Script>,
) -> (r: Option<&'a Script>)
    ensures
        is_script(r, first_of(*a, *b, *c)),
{
    if a.is_some() {
        a.as_ref()
    } else if b.is_some() {
        b.as_ref()
    } else {
        c.as_ref()
    }
}

/// Whether a reference leads to a script, or there is neither.
pub open spec fn is_script(r: Option<&Script>, script: Option<Script>) -> bool {
    match r {
        Some(s) => script == Some(*s),
        None => script is None,
    }
}

impl Step {
    /// The command for a run type. Where there is no command to fix, files
    /// are checked.
    pub open spec fn command(self, run_type: RunType) -> Option<Script> {
        let check = first_of(self.check, self.check_diff, self.check_list_files);
        match run_type {
            RunType::Fix => if self.fix is Some {
                self.fix
            } else {
                check
            },
            RunType::Check => check,
        }
    }

    /// The command that checks before anything is fixed.
    pub open spec fn first_command(self) -> Option<Script> {
        first_of(self.check_diff, self.check, self.check_list_files)
    }

    /// Initialize the step with its name and validate configuration.
    ///
    /// Fails where both `stdin` and `interactive` are set. An interactive step
    /// is exclusive.
    pub fn init(&mut self, name: &str) -> (r: Result<(), InitError>)
        ensures
            ({
                let refused = old(self).stdin is Some && old(self).interactive;
                &&& refused ==> *final(self) == *old(self) && (r matches Err(
                    InitError::StdinAndInteractive(n),
                ) && n@ == name@)
                &&& !refused ==> r is Ok && final(self).name@ == name@ && *final(self) == (Step {
                    name: final(self).name,
                    exclusive: old(self).exclusive || old(self).interactive,
                    ..*old(self)
                })
            }),
    {
        if self.stdin.is_some() && self.interactive {
            return Err(InitError::StdinAndInteractive(name.to_owned()));
        }
        self.name = name.to_owned();
        if self.interactive {
            self.exclusive = true;
        }
        Ok(())
    }

    /// Get the command to run for the given run type.
    ///
    /// To fix, the fix command if there is one, otherwise the command that
    /// checks. To check: `check`, `check_diff` or `check_list_files`, whichever
    /// comes first.
    pub fn run_cmd(&self, run_type: RunType) -> (r: Option<&Script>)
        ensures
            is_script(r, self.command(run_type)),
    {
        match run_type {
            RunType::Fix => {
                if self.fix.is_some() {
                    self.fix.as_ref()
                } else {
                    pick_first(&self.check, &self.check_diff, &self.check_list_files)
                }
            },
            RunType::Check => pick_first(&self.check, &self.check_diff, &self.check_list_files),
        }
    }

    /// Get the command to run in "check first" mode: `check_diff`, then
    /// `check`, then `check_list_files`.
    pub fn check_first_cmd(&self) -> (r: Option<&Script>)
        ensures
            is_script(r, self.first_command()),
    {
        pick_first(&self.check_diff, &self.check, &self.check_list_files)
    }

    /// Check if this step has a command for the given run type.
    pub fn has_command_for(&self, run_type: RunType, platform: Platform) -> (r: bool)
        ensures
            r == (self.command(run_type) is Some && !is_blank(
                self.command(run_type)->0.on(platform),
            )),
    {
        match self.run_cmd(run_type) {
            Some(cmd) => !blank(cmd.to_text(platform).as_str()),
            None => false,
        }
    }

    /// The shell's command line; empty where there is none.
    pub open spec fn shell_line(self, platform: Platform) -> Seq<char> {
        match self.shell {
            Some(s) => s.on(platform),
            None => Seq::empty(),
        }
    }

    /// Get the shell type for this step.
    ///
    /// Where no shell is named, it is `Cmd` on Windows and `Sh` elsewhere.
    pub fn shell_type(&self, platform: Platform) -> (r: ShellType)
        ensures
            r.is(
                shell_of(
                    lowercase_of(program_name(self.shell_line(platform))),
                    program_name(self.shell_line(platform)),
                    platform,
                ),
            ),
            all_ascii(program_name(self.shell_line(platform))) ==> r.is(
                shell_of(
                    in_ascii_lower(program_name(self.shell_line(platform))),
                    program_name(self.shell_line(platform)),
                    platform,
                ),
            ),
    {
        let line = match &self.shell {
            Some(s) => s.to_text(platform),
            None => String::new(),
        };
        let name = find_program_name(line.as_str());
        let lower = lowercase(name.as_str());
        classify_shell(lower.as_str(), name.as_str(), platform)
    }
}

/// A script that fixes wins over one that checks; without it, fixing runs what
/// checking runs.
pub proof fn law_fixing_falls_back_to_checking(step: Step)
    ensures
        step.fix is Some ==> step.command(RunType::Fix) == step.fix,
        step.fix is None ==> step.command(RunType::Fix) == step.command(RunType::Check),
{
}

/// There is a command to check whenever there is one to check first, and the
/// other way round.
pub proof fn law_checking_first_needs_a_check(step: Step)
    ensures
        step.first_command() is Some <==> step.command(RunType::Check) is Some,
{
}

/// The name of a command line's program, without directories.
pub open spec fn program_name(line: Seq<char>) -> Seq<char> {
    let first = if words(line).len() > 0 {
        words(line)[0]
    } else {
        Seq::empty()
    };
    split_by(first, Separator::Slash).last()
}

/// Finds the name of a command line's program, without directories.
fn find_program_name(line: &str) -> (r: String)
    ensures
        r@ == program_name(line@),
{
    let list = split_words(line);
    proof {
        assert(texts(list@).len() == list@.len());
    }
    if list.len() > 0 {
        proof {
            assert(texts(list@)[0] == list@[0]@);
        }
        last_piece(list[0].as_str(), Separator::Slash)
    } else {
        let none = String::new();
        last_piece(none.as_str(), Separator::Slash)
    }
}

/// The lower case of an ASCII character.
pub open spec fn ascii_lower(c: char) -> char {
    if 'A' <= c <= 'Z' {
        (c as u32 + 32) as char
    } else {
        c
    }
}

/// The lower case of an ASCII text.
pub open spec fn in_ascii_lower(s: Seq<char>) -> Seq<char> {
    s.map_values(|c: char| ascii_lower(c))
}

/// Whether a text is made of ASCII characters.
pub open spec fn all_ascii(s: Seq<char>) -> bool {
    forall|i: int| 0 <= i < s.len() ==> (#[trigger] s[i]) as u32 <= 127
}

/// What `str::to_lowercase` returns.
pub uninterp spec fn lowercase_of(s: Seq<char>) -> Seq<char>;

/// Calls `str::to_lowercase`. Claims that what it returns depends on the text
/// alone, and that it lowers ASCII letters one by one where the text is ASCII.
/// The lower case of other texts follows Unicode, and is not spelled out.
#[verifier::external_body]
fn lowercase(s: &str) -> (r: String)
    ensures
        r@ == lowercase_of(s@),
        all_ascii(s@) ==> r@ == in_ascii_lower(s@),
{
    s.to_lowercase()
}

/// A shell, with the name of one that is not known.
pub enum Shell {
    /// bash.
    Bash,
    /// dash.
    Dash,
    /// fish.
    Fish,
    /// sh.
    Sh,
    /// zsh.
    Zsh,
    /// The command interpreter of Windows.
    Cmd,
    /// PowerShell.
    PowerShell,
    /// Any other, by its name.
    Other(Seq<char>),
}

impl ShellType {
    /// Whether this is the given shell.
    pub open spec fn is(self, shell: Shell) -> bool {
        match self {
            ShellType::Bash => shell is Bash,
            ShellType::Dash => shell is Dash,
            ShellType::Fish => shell is Fish,
            ShellType::Sh => shell is Sh,
            ShellType::Zsh => shell is Zsh,
            ShellType::Cmd => shell is Cmd,
            ShellType::PowerShell => shell is PowerShell,
            ShellType::Other(name) => shell == Shell::Other(name@),
        }
    }
}

/// Whether `lower` names a program, as it is or with the ending that programs
/// have on Windows.
pub open spec fn is_program(lower: Seq<char>, name: Seq<char>) -> bool {
    lower == name || lower == name + ".exe"@
}

/// The shell of a name, given in lower case and as it is spelled.
pub open spec fn shell_of(lower: Seq<char>, name: Seq<char>, platform: Platform) -> Shell {
    if is_program(lower, "bash"@) {
        Shell::Bash
    } else if is_program(lower, "dash"@) {
        Shell::Dash
    } else if is_program(lower, "fish"@) {
        Shell::Fish
    } else if is_program(lower, "sh"@) {
        Shell::Sh
    } else if is_program(lower, "zsh"@) {
        Shell::Zsh
    } else if is_program(lower, "cmd"@) {
        Shell::Cmd
    } else if is_program(lower, "powershell"@) || is_program(lower, "pwsh"@) {
        Shell::PowerShell
    } else if lower.len() == 0 {
        if platform == Platform::Windows {
            Shell::Cmd
        } else {
            Shell::Sh
        }
    } else {
        Shell::Other(name)
    }
}

/// Tells whether `lower` names a program.
fn names_program(lower: &str, name: &str) -> (r: bool)
    ensures
        r == is_program(lower@, name@),
{
    let ending = crate::text::concat2(name, ".exe");
    same(lower, name) || same(lower, ending.as_str())
}

/// Finds the shell of a name, given in lower case and as it is spelled.
pub fn classify_shell(lower: &str, name: &str, platform: Platform) -> (r: ShellType)
    ensures
        r.is(shell_of(lower@, name@, platform)),
{
    if names_program(lower, "bash") {
        ShellType::Bash
    } else if names_program(lower, "dash") {
        ShellType::Dash
    } else if names_program(lower, "fish") {
        ShellType::Fish
    } else if names_program(lower, "sh") {
        ShellType::Sh
    } else if names_program(lower, "zsh") {
        ShellType::Zsh
    } else if names_program(lower, "cmd") {
        ShellType::Cmd
    } else if names_program(lower, "powershell") || names_program(lower, "pwsh") {
        ShellType::PowerShell
    } else if lower.unicode_len() == 0 {
        if platform == Platform::Windows {
            ShellType::Cmd
        } else {
            ShellType::Sh
        }
    } else {
        ShellType::Other(name.to_owned())
    }
}

/// Names that are the same in lower case name the same shell, if it is known.
pub proof fn law_shell_case_is_ignored(
    lower: Seq<char>,
    name: Seq<char>,
    other: Seq<char>,
    platform: Platform,
)
    requires
        !(shell_of(lower, name, platform) is Other),
    ensures
        shell_of(lower, other, platform) == shell_of(lower, name, platform),
{
}

/// A name that ends in no `e` has the ending only where it was added.
proof fn lemma_ending_added(lower: Seq<char>, name: Seq<char>)
    requires
        name.len() > 0,
        name.last() != 'e',
        !".exe"@.is_suffix_of(lower),
    ensures
        is_program(lower + ".exe"@, name) == is_program(lower, name),
{
    reveal_strlit(".exe");
    let ending = ".exe"@;
    let long = lower + ending;
    assert(long.last() == 'e');
    assert(long.take(lower.len() as int) == lower);
    assert((name + ending).take(name.len() as int) == name);
    if lower == name + ending {
        assert(lower.subrange(lower.len() - ending.len(), lower.len() as int) == ending);
    }
    if long == name + ending {
        assert(lower == name);
    }
}

/// The ending that programs have on Windows makes no difference to a shell
/// that is known, nor does the way its name is spelled.
pub proof fn law_shell_endings_are_ignored(
    lower: Seq<char>,
    name: Seq<char>,
    other: Seq<char>,
    platform: Platform,
)
    requires
        lower.len() > 0,
        !(shell_of(lower, name, platform) is Other),
        !".exe"@.is_suffix_of(lower),
    ensures
        shell_of(lower + ".exe"@, other, platform) == shell_of(lower, name, platform),
{
    reveal_strlit(".exe");
    reveal_strlit("bash");
    reveal_strlit("dash");
    reveal_strlit("fish");
    reveal_strlit("sh");
    reveal_strlit("zsh");
    reveal_strlit("cmd");
    reveal_strlit("powershell");
    reveal_strlit("pwsh");
    lemma_ending_added(lower, "bash"@);
    lemma_ending_added(lower, "dash"@);
    lemma_ending_added(lower, "fish"@);
    lemma_ending_added(lower, "sh"@);
    lemma_ending_added(lower, "zsh"@);
    lemma_ending_added(lower, "cmd"@);
    lemma_ending_added(lower, "powershell"@);
    lemma_ending_added(lower, "pwsh"@);
}

/// A script says what it says for the system, or else what it says for any;
/// where it says neither, it is empty.
pub proof fn law_a_script_falls_back_to_what_holds_anywhere(script: Script, platform: Platform)
    ensures
        ({
            let own = match platform {
                Platform::Linux => script.linux,
                Platform::Macos => script.macos,
                Platform::Windows => script.windows,
                Platform::Other => None,
            };
            &&& own is Some ==> script.on(platform) == own->0@
            &&& own is None && script.other is Some ==> script.on(platform) == script.other->0@
            &&& own is None && script.other is None ==> script.on(platform).len() == 0
        }),
{
}

/// Scripts are the same exactly if they say the same for every system, or both
/// nothing.
pub proof fn law_scripts_are_compared_system_by_system(a: Script, b: Script)
    ensures
        a.same_as(b) <==> {
            &&& (a.linux is Some <==> b.linux is Some) && (a.linux is Some ==> a.linux->0@
                == b.linux->0@)
            &&& (a.macos is Some <==> b.macos is Some) && (a.macos is Some ==> a.macos->0@
                == b.macos->0@)
            &&& (a.windows is Some <==> b.windows is Some) && (a.windows is Some
                ==> a.windows->0@ == b.windows->0@)
            &&& (a.other is Some <==> b.other is Some) && (a.other is Some ==> a.other->0@
                == b.other->0@)
        },
{
}

/// Files are checked by `check`, or else by the check that prints a diff, or
/// else by the one that lists files; to check first, the one that prints a diff
/// comes before `check`.
pub proof fn law_checks_are_tried_in_order(step: Step)
    ensures
        step.check is Some ==> step.command(RunType::Check) == step.check,
        step.check is None && step.check_diff is Some ==> step.command(RunType::Check)
            == step.check_diff,
        step.check is None && step.check_diff is None ==> step.command(RunType::Check)
            == step.check_list_files,
        step.check_diff is Some ==> step.first_command() == step.check_diff,
        step.check_diff is None && step.check is Some ==> step.first_command() == step.check,
        step.check_diff is None && step.check is None ==> step.first_command()
            == step.check_list_files,
{
}

/// The name of a program is what stands behind the last slash, of either kind,
/// in the first word of its command line.
pub proof fn law_a_program_is_named_behind_its_directories(
    line: Seq<char>,
    dirs: Seq<char>,
    slash: char,
    name: Seq<char>,
)
    requires
        forall|i: int| 0 <= i < name.len() ==> #[trigger] name[i] != '/' && name[i] != '\\',
    ensures
        words(line).len() == 0 ==> program_name(line).len() == 0,
        words(line).len() > 0 && words(line)[0] == name ==> program_name(line) == name,
        words(line).len() > 0 && (slash == '/' || slash == '\\') && words(line)[0] == dirs.push(
            slash,
        ) + name ==> program_name(line) == name,
{
    let sep = Separator::Slash;
    assert forall|i: int| 0 <= i < name.len() implies !sep.matches(#[trigger] name[i]) by {}
    crate::text::law_a_text_without_separators_is_one_piece(name, sep);
    if slash == '/' || slash == '\\' {
        crate::text::law_a_separator_parts_a_text(dirs, slash, name, sep);
        assert((split_by(dirs, sep) + seq![name]).last() == name);
    }
    let none = Seq::<char>::empty();
    crate::text::law_a_text_without_separators_is_one_piece(none, sep);
}

/// Which names stand for which shell, with or without the ending of programs
/// on Windows. Any other name stands for itself, and no name for the shell that
/// the system has.
pub proof fn law_shells_go_by_their_names(lower: Seq<char>, name: Seq<char>, platform: Platform)
    ensures
        ({
            let shell = shell_of(lower, name, platform);
            let bash = lower == "bash"@ || lower == "bash"@ + ".exe"@;
            let dash = lower == "dash"@ || lower == "dash"@ + ".exe"@;
            let fish = lower == "fish"@ || lower == "fish"@ + ".exe"@;
            let sh = lower == "sh"@ || lower == "sh"@ + ".exe"@;
            let zsh = lower == "zsh"@ || lower == "zsh"@ + ".exe"@;
            let cmd = lower == "cmd"@ || lower == "cmd"@ + ".exe"@;
            let powershell = lower == "powershell"@ || lower == "powershell"@ + ".exe"@ || lower
                == "pwsh"@ || lower == "pwsh"@ + ".exe"@;
            let windows = platform == Platform::Windows;
            &&& shell is Bash <==> bash
            &&& shell is Dash <==> dash
            &&& shell is Fish <==> fish
            &&& shell is Zsh <==> zsh
            &&& shell is PowerShell <==> powershell
            &&& shell is Sh <==> sh || (lower.len() == 0 && !windows)
            &&& shell is Cmd <==> cmd || (lower.len() == 0 && windows)
            &&& lower.len() > 0 && !bash && !dash && !fish && !sh && !zsh && !cmd && !powershell
                ==> shell == Shell::Other(name)
        }),
{
    reveal_strlit(".exe");
    reveal_strlit("bash");
    reveal_strlit("dash");
    reveal_strlit("fish");
    reveal_strlit("sh");
    reveal_strlit("zsh");
    reveal_strlit("cmd");
    reveal_strlit("powershell");
    reveal_strlit("pwsh");
    let n = lower.len();
    if n == 4 || n == 8 {
        assert("bash"@[0] == 'b' && "dash"@[0] == 'd' && "fish"@[0] == 'f' && "pwsh"@[0] == 'p');
        assert(("bash"@ + ".exe"@)[0] == 'b' && ("dash"@ + ".exe"@)[0] == 'd' && ("fish"@
            + ".exe"@)[0] == 'f' && ("pwsh"@ + ".exe"@)[0] == 'p');
    }
    if n == 3 || n == 7 {
        assert("zsh"@[0] == 'z' && "cmd"@[0] == 'c');
        assert(("zsh"@ + ".exe"@)[0] == 'z' && ("cmd"@ + ".exe"@)[0] == 'c');
    }
}

/// A type of shell is the shell it stands for, and no other.
pub proof fn law_a_type_is_one_shell(kind: ShellType, shell: Shell)
    ensures
        kind.is(shell) ==> (kind is Cmd <==> shell is Cmd) && (kind is Bash <==> shell is Bash)
            && (kind is Dash <==> shell is Dash) && (kind is Fish <==> shell is Fish) && (
        kind is Sh <==> shell is Sh) && (kind is Zsh <==> shell is Zsh) && (
        kind is PowerShell <==> shell is PowerShell),
        kind matches ShellType::Other(name) ==> (kind.is(shell) <==> shell == Shell::Other(
            name@,
        )),
{
}

/// Lowering keeps everything but capital letters, which become small ones.
pub proof fn law_only_capitals_are_lowered(s: Seq<char>, i: int)
    requires
        0 <= i < s.len(),
    ensures
        in_ascii_lower(s).len() == s.len(),
        65 <= s[i] as u32 <= 90 ==> in_ascii_lower(s)[i] as u32 == s[i] as u32 + 32,
        !(65 <= s[i] as u32 <= 90) ==> in_ascii_lower(s)[i] == s[i],
{
}

/// The error about a step names it.
pub proof fn law_a_step_that_is_refused_is_named(name: String)
    ensures
        InitError::StdinAndInteractive(name).says() == "Step '"@ + name@
            + "' can't have both `stdin` and `interactive = true`."@,
{
}

/// A reference leads to a script exactly if it is that script, and to none if
/// there is none.
pub proof fn law_a_reference_leads_to_its_script(s: Script, script: Option<Script>)
    ensures
        is_script(Some(&s), script) <==> script is Some && script->0 == s,
        is_script(None, script) <==> script is None,
{
}

} // verus!
