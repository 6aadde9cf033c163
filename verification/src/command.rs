//! The commands that the controller has run for it.
use vstd::prelude::*;

use crate::text::join2;

verus! {

/// The process creation flag that keeps a console window from opening.
pub const CREATE_NO_WINDOW: u32 = 0x0800_0000;

/// The shell script that keeps a distribution running until it is killed.
pub const KEEP_ALIVE_COMMAND: &'static str =
    "trap 'exit 0' TERM INT; while true; do sleep 2147483647 & wait $!; done";

/// Where the standard streams of a command lead.
#[derive(Debug, Clone, Copy, PartialEq, Eq, Structural)]
pub enum StdioMode {
    /// All three are those of the controller.
    Inherit,
    /// All three are closed off.
    Null,
    /// Input is closed off, output and errors are collected.
    Capture,
}

/// A command to run.
#[derive(Debug)]
pub struct CommandPlan {
    pub program: String,
    pub args: Vec<String>,
    pub stdio: StdioMode,
    pub creation_flags: u32,
}

/// The contents of a [`CommandPlan`].
#[verifier::ext_equal]
pub struct CommandView {
    pub program: Seq<char>,
    pub args: Seq<Seq<char>>,
    pub stdio: StdioMode,
    pub creation_flags: u32,
}

/// The contents of a list of strings.
pub open spec fn texts(v: Seq<String>) -> Seq<Seq<char>> {
    v.map_values(|s: String| s@)
}

impl View for CommandPlan {
    type V = CommandView;

    open spec fn view(&self) -> CommandView {
        CommandView {
            program: self.program@,
            args: texts(self.args@),
            stdio: self.stdio,
            creation_flags: self.creation_flags,
        }
    }
}

/// A call of `wsl.exe` without a console window.
pub open spec fn hidden_wsl(args: Seq<Seq<char>>, stdio: StdioMode) -> CommandView {
    CommandView { program: "wsl.exe"@, args, stdio, creation_flags: CREATE_NO_WINDOW }
}

/// Lists the distributions.
pub open spec fn list_view() -> CommandView {
    hidden_wsl(seq!["-l"@, "-v"@], StdioMode::Capture)
}

/// Keeps a distribution running.
pub open spec fn keep_alive_view(distro: Seq<char>) -> CommandView {
    hidden_wsl(
        seq!["-d"@, distro, "--exec"@, "sh"@, "-lc"@, KEEP_ALIVE_COMMAND@],
        StdioMode::Null,
    )
}

/// Starts a distribution.
pub open spec fn start_view(distro: Seq<char>) -> CommandView {
    hidden_wsl(seq!["-d"@, distro, "--exec"@, "true"@], StdioMode::Null)
}

/// Stops a distribution.
pub open spec fn terminate_view(distro: Seq<char>) -> CommandView {
    hidden_wsl(seq!["--terminate"@, distro], StdioMode::Null)
}

/// Stops every distribution.
pub open spec fn shutdown_view() -> CommandView {
    hidden_wsl(seq!["--shutdown"@], StdioMode::Null)
}

/// Opens a shell in Windows Terminal.
pub open spec fn terminal_view(distro: Seq<char>) -> CommandView {
    CommandView {
        program: "wt.exe"@,
        args: seq!["new-tab"@, "--title"@, "WSL - "@ + distro, "wsl.exe"@, "-d"@, distro],
        stdio: StdioMode::Inherit,
        creation_flags: 0,
    }
}

/// Opens a shell in a console window.
pub open spec fn console_view(distro: Seq<char>) -> CommandView {
    CommandView {
        program: "cmd.exe"@,
        args: seq!["/C"@, "start"@, ""@, "wsl.exe"@, "-d"@, distro],
        stdio: StdioMode::Inherit,
        creation_flags: 0,
    }
}

fn owned(args: &[&str]) -> (v: Vec<String>)
    ensures
        texts(v@) == args@.map_values(|s: &str| s@),
{
    let mut v: Vec<String> = Vec::new();
    let mut i: usize = 0;
    while i < args.len()
        invariant
            i <= args.len(),
            v.len() == i,
            forall|k: int| 0 <= k < i ==> (#[trigger] v@[k])@ == args@[k]@,
        decreases args.len() - i,
    {
        v.push(args[i].to_owned());
        i += 1;
    }
    assert(texts(v@) =~= args@.map_values(|s: &str| s@));
    v
}

/// A call of `wsl.exe` with the given arguments, without a console window.
pub fn hidden_wsl_command(args: &[&str], stdio: StdioMode) -> (plan: CommandPlan)
    ensures
        plan@ == hidden_wsl(args@.map_values(|s: &str| s@), stdio),
{
    CommandPlan {
        program: "wsl.exe".to_owned(),
        args: owned(args),
        stdio,
        creation_flags: CREATE_NO_WINDOW,
    }
}

/// The command that lists the distributions.
pub fn list_command() -> (plan: CommandPlan)
    ensures
        plan@ == list_view(),
{
    let args = ["-l", "-v"];
    let plan = hidden_wsl_command(&args, StdioMode::Capture);
    assert(plan@ =~= list_view());
    plan
}

/// The command that keeps a distribution running.
pub fn keep_alive_command(distro: &str) -> (plan: CommandPlan)
    ensures
        plan@ == keep_alive_view(distro@),
{
    let args = ["-d", distro, "--exec", "sh", "-lc", KEEP_ALIVE_COMMAND];
    let plan = hidden_wsl_command(&args, StdioMode::Null);
    assert(plan@ =~= keep_alive_view(distro@));
    plan
}

/// The command that starts a distribution.
pub fn start_command(distro: &str) -> (plan: CommandPlan)
    ensures
        plan@ == start_view(distro@),
{
    let args = ["-d", distro, "--exec", "true"];
    let plan = hidden_wsl_command(&args, StdioMode::Null);
    assert(plan@ =~= start_view(distro@));
    plan
}

/// The command that stops a distribution.
pub fn terminate_command(distro: &str) -> (plan: CommandPlan)
    ensures
        plan@ == terminate_view(distro@),
{
    let args = ["--terminate", distro];
    let plan = hidden_wsl_command(&args, StdioMode::Null);
    assert(plan@ =~= terminate_view(distro@));
    plan
}

/// The command that stops every distribution.
pub fn shutdown_command() -> (plan: CommandPlan)
    ensures
        plan@ == shutdown_view(),
{
    let args = ["--shutdown"];
    let plan = hidden_wsl_command(&args, StdioMode::Null);
    assert(plan@ =~= shutdown_view());
    plan
}

/// The command that opens a shell in Windows Terminal.
pub fn terminal_command(distro: &str) -> (plan: CommandPlan)
    ensures
        plan@ == terminal_view(distro@),
{
    let title = join2("WSL - ", distro);
    let args = ["new-tab", "--title", title.as_str(), "wsl.exe", "-d", distro];
    let plan = CommandPlan {
        program: "wt.exe".to_owned(),
        args: owned(&args),
        stdio: StdioMode::Inherit,
        creation_flags: 0,
    };
    assert(plan@ =~= terminal_view(distro@));
    plan
}

/// The command that opens a shell in a console window.
pub fn console_command(distro: &str) -> (plan: CommandPlan)
    ensures
        plan@ == console_view(distro@),
{
    let args = ["/C", "start", "", "wsl.exe", "-d", distro];
    let plan = CommandPlan {
        program: "cmd.exe".to_owned(),
        args: owned(&args),
        stdio: StdioMode::Inherit,
        creation_flags: 0,
    };
    assert(plan@ =~= console_view(distro@));
    plan
}

/// Every command names the very distribution that it was asked for, and is
/// otherwise the same for all of them.
pub proof fn law_commands_name_their_distro(a: Seq<char>, b: Seq<char>)
    ensures
        keep_alive_view(a).args[1] == a,
        start_view(a).args[1] == a,
        terminate_view(a).args[1] == a,
        terminal_view(a).args[5] == a,
        console_view(a).args[5] == a,
        keep_alive_view(b) == (CommandView {
            args: keep_alive_view(a).args.update(1, b),
            ..keep_alive_view(a)
        }),
        start_view(b) == (CommandView {
            args: start_view(a).args.update(1, b),
            ..start_view(a)
        }),
        terminate_view(b) == (CommandView {
            args: terminate_view(a).args.update(1, b),
            ..terminate_view(a)
        }),
        terminal_view(b) == (CommandView {
            args: terminal_view(a).args.update(5, b).update(2, terminal_view(b).args[2]),
            ..terminal_view(a)
        }),
        console_view(b) == (CommandView {
            args: console_view(a).args.update(5, b),
            ..console_view(a)
        }),
{
    assert(keep_alive_view(b).args =~= keep_alive_view(a).args.update(1, b));
    assert(start_view(b).args =~= start_view(a).args.update(1, b));
    assert(terminate_view(b).args =~= terminate_view(a).args.update(1, b));
    assert(terminal_view(b).args =~= terminal_view(a).args.update(5, b).update(
        2,
        terminal_view(b).args[2],
    ));
    assert(console_view(b).args =~= console_view(a).args.update(5, b));
}

/// The title of a terminal ends with the name of its distribution, behind the
/// same words for all of them.
pub proof fn law_terminal_title(a: Seq<char>, b: Seq<char>)
    ensures
        terminal_view(a).args[2].len() == 6 + a.len(),
        terminal_view(a).args[2].skip(6) == a,
        terminal_view(a).args[2].take(6) == terminal_view(b).args[2].take(6),
{
    reveal_strlit("WSL - ");
    assert(terminal_view(a).args[2].skip(6) =~= a);
    assert(terminal_view(a).args[2].take(6) =~= "WSL - "@);
    assert(terminal_view(b).args[2].take(6) =~= "WSL - "@);
}

/// Two distributions never have the same command, and no two kinds of command
/// are the same.
pub proof fn law_commands_differ(a: Seq<char>, b: Seq<char>)
    ensures
        keep_alive_view(a) == keep_alive_view(b) ==> a == b,
        start_view(a) == start_view(b) ==> a == b,
        terminate_view(a) == terminate_view(b) ==> a == b,
        terminal_view(a) == terminal_view(b) ==> a == b,
        console_view(a) == console_view(b) ==> a == b,
        keep_alive_view(a) != start_view(b),
        keep_alive_view(a) != terminate_view(b),
        start_view(a) != terminate_view(b),
        terminate_view(a) != shutdown_view(),
        start_view(a) != shutdown_view(),
{
    law_commands_name_their_distro(a, b);
    law_commands_name_their_distro(b, a);
    assert(keep_alive_view(a).args.len() == 6);
    assert(start_view(b).args.len() == 4 && start_view(a).args.len() == 4);
    assert(terminate_view(b).args.len() == 2 && terminate_view(a).args.len() == 2);
    assert(shutdown_view().args.len() == 1);
}

/// No command to `wsl.exe` opens a console window or reads the input of the
/// program; only the listing has its output collected.
pub proof fn law_wsl_commands_are_hidden(distro: Seq<char>)
    ensures
        forall|c: CommandView|
            #![trigger c.creation_flags]
            c == list_view() || c == keep_alive_view(distro) || c == start_view(distro) || c
                == terminate_view(distro) || c == shutdown_view() ==> {
                &&& c.program == "wsl.exe"@
                &&& c.creation_flags == 0x0800_0000
                &&& c.stdio == if c == list_view() {
                    StdioMode::Capture
                } else {
                    StdioMode::Null
                }
            },
        terminal_view(distro).program == "wt.exe"@,
        console_view(distro).program == "cmd.exe"@,
        terminal_view(distro).stdio == StdioMode::Inherit,
        console_view(distro).stdio == StdioMode::Inherit,
        terminal_view(distro).creation_flags == 0,
        console_view(distro).creation_flags == 0,
{
}

/// The contents of a command are its program and its arguments, one by one, and
/// how it is run.
pub proof fn law_command_contents(plan: CommandPlan, i: int)
    ensures
        plan@.program == plan.program@,
        plan@.args.len() == plan.args@.len(),
        0 <= i < plan.args@.len() ==> plan@.args[i] == plan.args@[i]@,
        plan@.stdio == plan.stdio,
        plan@.creation_flags == plan.creation_flags,
{
}

} // verus!
