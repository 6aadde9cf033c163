//! The controller: the known distributions, what it last did or failed to do,
//! and what it has run. The caller runs the commands and reports back.
use vstd::multiset::Multiset;
use vstd::prelude::*;
use vstd::utf8::{decode_utf8, valid_utf8};

use crate::command::{
    console_command, console_view, keep_alive_command, keep_alive_view, list_view, shutdown_command,
    shutdown_view, start_command, start_view, terminal_command, terminal_view, terminate_command,
    terminate_view, CommandPlan, CommandView, StdioMode,
};
use crate::decode::{
    decode_wsl_output, decoded, encode_utf16, law_marked_utf16_is_read_back,
    law_plain_utf16_is_read_back, law_text_without_nul_stays, le_bytes, utf8_lossy,
};
use crate::listing::{
    distro_views, law_listing_is_read_line_by_line, listing_text, parse_wsl_list, read_lines,
    read_list, DistroView, WslDistro,
};
use crate::state::WslState;
use crate::tables::{
    entered, handles, handles_of, keeps, law_entered, law_others_stay, law_processes, law_without, lemma_filter_keeps, reaped, without, KeepAliveTable,
    TaskTable,
};
use crate::text::{all_white_space, is_blank, join2, join3, join4, to_chars};

verus! {

/// How long a status stays fresh, in nanoseconds.
pub const STATUS_LIFETIME: u128 = 2_000_000_000;

/// The controller.
#[derive(Debug)]
pub struct WslController {
    pub distros: Vec<WslDistro>,
    pub last_error: Option<String>,
    pub last_action: String,
    /// When the status was last read, in nanoseconds of a clock of the caller's.
    pub last_status_refresh: u128,
}

/// The contents of a [`WslController`].
#[verifier::ext_equal]
pub struct ControllerView {
    pub distros: Seq<DistroView>,
    pub last_error: Option<Seq<char>>,
    pub last_action: Seq<char>,
    pub last_status_refresh: u128,
}

/// The contents of an optional string.
pub open spec fn option_text(o: Option<String>) -> Option<Seq<char>> {
    match o {
        Some(s) => Some(s@),
        None => None,
    }
}

impl View for WslController {
    type V = ControllerView;

    open spec fn view(&self) -> ControllerView {
        ControllerView {
            distros: distro_views(self.distros@),
            last_error: option_text(self.last_error),
            last_action: self.last_action@,
            last_status_refresh: self.last_status_refresh,
        }
    }
}

impl ControllerView {
    /// The controller with an error to show.
    pub open spec fn failed(self, message: Seq<char>) -> ControllerView {
        ControllerView { last_error: Some(message), ..self }
    }

    /// The controller with an action to show, and no error.
    pub open spec fn acted(self, message: Seq<char>) -> ControllerView {
        ControllerView { last_error: None, last_action: message, ..self }
    }

    /// Whether it is time to read the distributions again.
    pub open spec fn due(self, now: u128) -> bool {
        now - self.last_status_refresh >= STATUS_LIFETIME
    }

    /// The controller after it was asked whether it is time.
    pub open spec fn asked(self, now: u128) -> ControllerView {
        ControllerView {
            last_status_refresh: if self.due(now) {
                now
            } else {
                self.last_status_refresh
            },
            ..self
        }
    }

    /// The controller after the distributions were read, or could not be.
    pub open spec fn refreshed(
        self,
        outcome: Result<Seq<DistroView>, Seq<char>>,
    ) -> ControllerView {
        match outcome {
            Ok(distros) => ControllerView { distros, last_error: None, ..self },
            Err(err) => self.failed(not_read(err)),
        }
    }
}

/// The message that a process keeps a distribution running already.
pub open spec fn already_kept(distro: Seq<char>) -> Seq<char> {
    distro + " 的后台保活已经在运行"@
}

/// The message that a process now keeps a distribution running.
pub open spec fn now_kept(distro: Seq<char>) -> Seq<char> {
    "已接管 "@ + distro + " 后台保活"@
}

/// The message that no process could be started to keep a distribution running.
pub open spec fn not_kept(distro: Seq<char>, err: Seq<char>) -> Seq<char> {
    "保活 "@ + distro + " 失败："@ + err
}

/// The message that a shell was opened.
pub open spec fn shell_opened(distro: Seq<char>) -> Seq<char> {
    "已打开 "@ + distro + " Shell"@
}

/// The message that no shell could be opened.
pub open spec fn shell_failed(distro: Seq<char>, err: Seq<char>) -> Seq<char> {
    "打开 "@ + distro + " Shell 失败："@ + err
}

/// The message that a task with this label is being run already.
pub open spec fn busy(label: Seq<char>) -> Seq<char> {
    label + " 正在执行"@
}

/// The message that a task with this label has begun.
pub open spec fn begins(label: Seq<char>) -> Seq<char> {
    "正在"@ + label
}

/// The message that the distributions could not be read.
pub open spec fn not_read(err: Seq<char>) -> Seq<char> {
    "读取 WSL 列表失败："@ + err
}

/// What came of the command that lists the distributions.
#[derive(Debug)]
pub enum ListOutcome {
    /// It could not be run.
    NotRun,
    /// It ran, with its exit status and its output.
    Exited { success: bool, status: String, stdout: Vec<u8> },
}

/// What came of a command that was run for its effect.
#[derive(Debug)]
pub enum RunOutcome {
    /// It could not be run.
    NotRun { error: String },
    /// It ran, with its exit status.
    Exited { success: bool, status: String },
}

/// What a task does.
#[derive(Debug)]
pub enum TaskKind {
    Start { distro: String },
    Terminate { distro: String },
    ShutdownAll,
}

/// The contents of a [`TaskKind`].
pub enum TaskKindView {
    Start { distro: Seq<char> },
    Terminate { distro: Seq<char> },
    ShutdownAll,
}

impl View for TaskKind {
    type V = TaskKindView;

    open spec fn view(&self) -> TaskKindView {
        match self {
            TaskKind::Start { distro } => TaskKindView::Start { distro: distro@ },
            TaskKind::Terminate { distro } => TaskKindView::Terminate { distro: distro@ },
            TaskKind::ShutdownAll => TaskKindView::ShutdownAll,
        }
    }
}

impl TaskKindView {
    /// The key under which the task is entered while it is under way.
    pub open spec fn key(self) -> Seq<char> {
        match self {
            TaskKindView::Start { distro } => "start:"@ + distro,
            TaskKindView::Terminate { distro } => "terminate:"@ + distro,
            TaskKindView::ShutdownAll => "shutdown_all"@,
        }
    }

    /// The name of the task in messages.
    pub open spec fn label(self) -> Seq<char> {
        match self {
            TaskKindView::Start { distro } => "启动 "@ + distro,
            TaskKindView::Terminate { distro } => "关闭 "@ + distro,
            TaskKindView::ShutdownAll => "关闭全部 WSL"@,
        }
    }

    /// The command of the task.
    pub open spec fn command(self) -> CommandView {
        match self {
            TaskKindView::Start { distro } => start_view(distro),
            TaskKindView::Terminate { distro } => terminate_view(distro),
            TaskKindView::ShutdownAll => shutdown_view(),
        }
    }

    /// The message when the task has succeeded.
    pub open spec fn done(self) -> Seq<char> {
        match self {
            TaskKindView::Start { distro } => "已启动 "@ + distro,
            TaskKindView::Terminate { distro } => "已关闭 "@ + distro,
            TaskKindView::ShutdownAll => "已关闭全部 WSL 发行版"@,
        }
    }

    /// The processes to kill before the task runs.
    pub open spec fn doomed(self, keep_alive: Seq<(Seq<char>, u64)>) -> Seq<u64> {
        match self {
            TaskKindView::Start { .. } => Seq::empty(),
            TaskKindView::Terminate { distro } => handles_of(keep_alive, distro),
            TaskKindView::ShutdownAll => handles(keep_alive),
        }
    }

    /// What stays of the processes that keep distributions running.
    pub open spec fn spared(
        self,
        keep_alive: Seq<(Seq<char>, u64)>,
    ) -> Seq<(Seq<char>, u64)> {
        match self {
            TaskKindView::Start { .. } => keep_alive,
            TaskKindView::Terminate { distro } => without(keep_alive, distro),
            TaskKindView::ShutdownAll => Seq::empty(),
        }
    }

    /// The message that the task reports, as a success or as an error.
    pub open spec fn report(self, outcome: RunOutcome) -> Result<Seq<char>, Seq<char>> {
        match outcome {
            RunOutcome::NotRun { error } => Err(self.label() + " 失败："@ + error@),
            RunOutcome::Exited { success, status } => if success {
                Ok(self.done())
            } else {
                Err(self.label() + " 失败，退出码："@ + status@)
            },
        }
    }
}

/// A task to run: the processes to kill, then the command.
#[derive(Debug)]
pub struct TaskPlan {
    pub kind: TaskKind,
    pub key: String,
    pub kill: Vec<u64>,
    pub command: CommandPlan,
}

/// Whether a plan is for a task of the given kind, and kills the given processes.
pub open spec fn plans(plan: TaskPlan, kind: TaskKindView, kill: Seq<u64>) -> bool {
    &&& plan.kind@ == kind
    &&& plan.key@ == kind.key()
    &&& plan.kill@ == kill
    &&& plan.command@ == kind.command()
}

/// What to do about keeping a distribution running.
#[derive(Debug)]
pub enum KeepAliveStep {
    /// Nothing: there is no such distribution, or it is kept running already.
    Done,
    /// Run this command in the background.
    Spawn(CommandPlan),
}

/// The contents of what a task reports.
pub open spec fn result_texts(r: Result<String, String>) -> Result<Seq<char>, Seq<char>> {
    match r {
        Ok(s) => Ok(s@),
        Err(s) => Err(s@),
    }
}

/// The contents of what a reading of the distributions gives.
pub open spec fn result_distros(
    r: Result<Vec<WslDistro>, String>,
) -> Result<Seq<DistroView>, Seq<char>> {
    match r {
        Ok(v) => Ok(distro_views(v@)),
        Err(s) => Err(s@),
    }
}

/// The distributions in the listing that a command has printed, where `text` is
/// the text of its output.
pub open spec fn listed(outcome: ListOutcome, text: Seq<char>) -> Result<
    Seq<DistroView>,
    Seq<char>,
> {
    match outcome {
        ListOutcome::NotRun => Err("failed to run wsl.exe -l -v"@),
        ListOutcome::Exited { success, status, .. } => if success {
            Ok(read_list(text))
        } else {
            Err("wsl.exe -l -v exited with "@ + status@)
        },
    }
}

/// The text that the listing command has printed.
pub open spec fn list_text(outcome: ListOutcome) -> Seq<char> {
    match outcome {
        ListOutcome::NotRun => Seq::empty(),
        ListOutcome::Exited { stdout, .. } => decoded(stdout@, utf8_lossy(stdout@)),
    }
}

/// Reads the distributions off the text of the listing command's output.
pub fn read_listing(outcome: &ListOutcome, text: &str) -> (r: Result<Vec<WslDistro>, String>)
    ensures
        result_distros(r) == listed(*outcome, text@),
{
    match outcome {
        ListOutcome::NotRun => Err("failed to run wsl.exe -l -v".to_owned()),
        ListOutcome::Exited { success, status, .. } => {
            if *success {
                Ok(parse_wsl_list(text))
            } else {
                Err(join2("wsl.exe -l -v exited with ", status.as_str()))
            }
        },
    }
}

/// Reads the distributions off what came of the listing command.
pub fn query_wsl_distros(outcome: &ListOutcome) -> (r: Result<Vec<WslDistro>, String>)
    ensures
        result_distros(r) == listed(*outcome, list_text(*outcome)),
        outcome is Exited && valid_utf8(outcome->stdout@) ==> result_distros(r) == listed(
            *outcome,
            decoded(outcome->stdout@, decode_utf8(outcome->stdout@)),
        ),
{
    match outcome {
        ListOutcome::NotRun => read_listing(outcome, ""),
        ListOutcome::Exited { success, stdout, .. } => {
            if *success {
                let text = decode_wsl_output(stdout.as_slice());
                read_listing(outcome, text.as_str())
            } else {
                read_listing(outcome, "")
            }
        },
    }
}

impl TaskKind {
    fn key(&self) -> (s: String)
        ensures
            s@ == self@.key(),
    {
        match self {
            TaskKind::Start { distro } => join2("start:", distro.as_str()),
            TaskKind::Terminate { distro } => join2("terminate:", distro.as_str()),
            TaskKind::ShutdownAll => "shutdown_all".to_owned(),
        }
    }

    fn label(&self) -> (s: String)
        ensures
            s@ == self@.label(),
    {
        match self {
            TaskKind::Start { distro } => join2("启动 ", distro.as_str()),
            TaskKind::Terminate { distro } => join2("关闭 ", distro.as_str()),
            TaskKind::ShutdownAll => "关闭全部 WSL".to_owned(),
        }
    }

    fn command(&self) -> (plan: CommandPlan)
        ensures
            plan@ == self@.command(),
    {
        match self {
            TaskKind::Start { distro } => start_command(distro.as_str()),
            TaskKind::Terminate { distro } => terminate_command(distro.as_str()),
            TaskKind::ShutdownAll => shutdown_command(),
        }
    }

    /// The message that the task reports, as a success or as an error.
    pub fn report(&self, outcome: &RunOutcome) -> (r: Result<String, String>)
        ensures
            result_texts(r) == self@.report(*outcome),
    {
        match outcome {
            RunOutcome::NotRun { error } => {
                Err(join3(self.label().as_str(), " 失败：", error.as_str()))
            },
            RunOutcome::Exited { success, status } => {
                if *success {
                    Ok(
                        match self {
                            TaskKind::Start { distro } => join2("已启动 ", distro.as_str()),
                            TaskKind::Terminate { distro } => join2("已关闭 ", distro.as_str()),
                            TaskKind::ShutdownAll => "已关闭全部 WSL 发行版".to_owned(),
                        },
                    )
                } else {
                    Err(join3(self.label().as_str(), " 失败，退出码：", status.as_str()))
                }
            },
        }
    }
}

impl WslController {
    /// A controller that knows no distribution yet.
    pub fn new(now: u128) -> (c: WslController)
        ensures
            c@ == (ControllerView {
                distros: Seq::empty(),
                last_error: None,
                last_action: Seq::empty(),
                last_status_refresh: now,
            }),
    {
        let c = WslController {
            distros: Vec::new(),
            last_error: None,
            last_action: String::new(),
            last_status_refresh: now,
        };
        assert(c@.distros =~= Seq::<DistroView>::empty());
        c
    }

    /// Notes an error to show.
    pub fn fail(&mut self, message: String)
        ensures
            final(self)@ == old(self)@.failed(message@),
    {
        self.last_error = Some(message);
    }

    fn act(&mut self, message: String)
        ensures
            final(self)@ == old(self)@.acted(message@),
    {
        self.last_error = None;
        self.last_action = message;
    }

    /// Takes the processes that have exited out of the table, which is given
    /// where it could be locked.
    pub fn reap_keep_alive(keep_alive: Option<&mut KeepAliveTable>, exited: &[u64])
        requires
            keep_alive is Some ==> keep_alive->0.wf(),
        ensures
            match keep_alive {
                Some(t) => final(t).wf() && final(t)@ == reaped(t@, exited@),
                None => true,
            },
    {
        match keep_alive {
            Some(t) => t.reap(exited),
            None => {},
        }
    }

    /// Takes out the processes that have exited, then takes over the
    /// distributions that were read, or notes that they could not be read.
    pub fn refresh_distros(
        &mut self,
        keep_alive: Option<&mut KeepAliveTable>,
        exited: &[u64],
        outcome: Result<Vec<WslDistro>, String>,
    )
        requires
            keep_alive is Some ==> keep_alive->0.wf(),
        ensures
            final(self)@ == old(self)@.refreshed(result_distros(outcome)),
            match keep_alive {
                Some(t) => final(t).wf() && final(t)@ == reaped(t@, exited@),
                None => true,
            },
    {
        Self::reap_keep_alive(keep_alive, exited);
        match outcome {
            Ok(distros) => {
                self.distros = distros;
                self.last_error = None;
            },
            Err(err) => {
                self.fail(join2("读取 WSL 列表失败：", err.as_str()));
            },
        }
    }

    /// Takes out the processes that have exited, and tells whether it is time to
    /// read the distributions again.
    pub fn refresh_status_if_needed(
        &mut self,
        keep_alive: Option<&mut KeepAliveTable>,
        exited: &[u64],
        now: u128,
    ) -> (due: bool)
        requires
            keep_alive is Some ==> keep_alive->0.wf(),
        ensures
            due == old(self)@.due(now),
            due == (now >= old(self)@.last_status_refresh + 2_000_000_000),
            final(self)@ == old(self)@.asked(now),
            match keep_alive {
                Some(t) => final(t).wf() && final(t)@ == reaped(t@, exited@),
                None => true,
            },
    {
        Self::reap_keep_alive(keep_alive, exited);
        if now < self.last_status_refresh || now - self.last_status_refresh < STATUS_LIFETIME {
            return false;
        }
        self.last_status_refresh = now;
        true
    }

    /// Whether a process keeps `distro` running; not where the table could not
    /// be locked.
    pub fn keep_alive_running(keep_alive: Option<&KeepAliveTable>, distro: &str) -> (r: bool)
        ensures
            r == (keep_alive is Some && keeps(keep_alive->0@, distro@)),
    {
        match keep_alive {
            Some(t) => t.contains(distro),
            None => false,
        }
    }

    /// Begins to keep a distribution running.
    pub fn start_keep_alive(
        &mut self,
        keep_alive: Option<&mut KeepAliveTable>,
        exited: &[u64],
        distro: &str,
    ) -> (step: KeepAliveStep)
        requires
            keep_alive is Some ==> keep_alive->0.wf(),
        ensures
            ({
                let running = keep_alive is Some && keeps(
                    reaped(keep_alive->0@, exited@),
                    distro@,
                );
                if is_blank(distro@) {
                    &&& step is Done
                    &&& final(self)@ == old(self)@.failed("发行版名称为空"@)
                } else if running {
                    &&& step is Done
                    &&& final(self)@ == old(self)@.acted(already_kept(distro@))
                } else {
                    &&& step is Spawn
                    &&& step->Spawn_0@ == keep_alive_view(distro@)
                    &&& final(self)@ == old(self)@
                }
            }),
            step is Spawn ==> step->Spawn_0@.args[1] == distro@,
            final(self)@.distros == old(self)@.distros,
            match keep_alive {
                Some(t) => final(t).wf() && final(t)@ == if is_blank(distro@) {
                    t@
                } else {
                    reaped(t@, exited@)
                },
                None => true,
            },
    {
        let chars = to_chars(distro);
        if all_white_space(chars.as_slice()) {
            self.fail("发行版名称为空".to_owned());
            return KeepAliveStep::Done;
        }
        let running = match keep_alive {
            Some(t) => {
                t.reap(exited);
                t.contains(distro)
            },
            None => false,
        };
        if running {
            self.act(join2(distro, " 的后台保活已经在运行"));
            return KeepAliveStep::Done;
        }
        KeepAliveStep::Spawn(keep_alive_command(distro))
    }

    /// Notes what came of the command that keeps a distribution running: the
    /// number of its process, or an error. Tells whether to read the
    /// distributions again, and which process lost its place in the table.
    pub fn keep_alive_spawned(
        &mut self,
        keep_alive: Option<&mut KeepAliveTable>,
        distro: &str,
        outcome: Result<u64, String>,
    ) -> (r: (bool, Vec<u64>))
        requires
            keep_alive is Some ==> keep_alive->0.wf(),
        ensures
            r.0 == (outcome is Ok),
            final(self)@ == match outcome {
                Ok(_) => old(self)@.acted(now_kept(distro@)),
                Err(err) => old(self)@.failed(not_kept(distro@, err@)),
            },
            match keep_alive {
                Some(t) => {
                    &&& final(t).wf()
                    &&& final(t)@ == match outcome {
                        Ok(handle) => entered(t@, distro@, handle),
                        Err(_) => t@,
                    }
                    &&& r.1@ == if outcome is Ok {
                        handles_of(t@, distro@)
                    } else {
                        Seq::empty()
                    }
                    &&& outcome is Ok ==> handles_of(final(t)@, distro@) == seq![outcome->Ok_0]
                },
                None => r.1@ == Seq::<u64>::empty(),
            },
    {
        match outcome {
            Ok(handle) => {
                let replaced = match keep_alive {
                    Some(t) => {
                        proof {
                            law_entered(t@, distro@, handle, distro@);
                        }
                        t.insert(distro, handle)
                    },
                    None => Vec::new(),
                };
                self.act(join3("已接管 ", distro, " 后台保活"));
                (true, replaced)
            },
            Err(err) => {
                self.fail(join4("保活 ", distro, " 失败：", err.as_str()));
                (false, Vec::new())
            },
        }
    }

    /// Enters a task, unless one with its key is under way or the table could
    /// not be locked; then says so, and gives `false`.
    pub fn mark_task(
        &mut self,
        tasks: Option<&mut TaskTable>,
        key: String,
        label: &str,
    ) -> (entered: bool)
        ensures
            entered == (tasks is Some && !tasks->0@.contains(key@)),
            final(self)@ == if entered {
                old(self)@
            } else {
                old(self)@.acted(busy(label@))
            },
            match tasks {
                Some(t) => {
                    &&& final(t)@ == t@.insert(key@)
                    &&& final(t)@.contains(key@)
                    &&& forall|other: Seq<char>|
                        other != key@ ==> #[trigger] final(t)@.contains(other) == t@.contains(
                            other,
                        )
                },
                None => true,
            },
    {
        let already_running = match tasks {
            Some(t) => t.begin(key),
            None => true,
        };
        if already_running {
            self.act(join2(label, " 正在执行"));
            return false;
        }
        true
    }

    /// Whether a task with this key is under way; not where the table could not
    /// be locked.
    pub fn task_running(tasks: Option<&TaskTable>, key: &str) -> (r: bool)
        ensures
            r == (tasks is Some && tasks->0@.contains(key@)),
    {
        match tasks {
            Some(t) => t.contains(key),
            None => false,
        }
    }

    /// Takes a task out of the table, which is given where it could be locked.
    pub fn finish_task(tasks: Option<&mut TaskTable>, key: &str)
        ensures
            match tasks {
                Some(t) => {
                    &&& final(t)@ == t@.remove(key@)
                    &&& !final(t)@.contains(key@)
                    &&& forall|other: Seq<char>|
                        other != key@ ==> #[trigger] final(t)@.contains(other) == t@.contains(
                            other,
                        )
                },
                None => true,
            },
    {
        match tasks {
            Some(t) => t.finish(key),
            None => {},
        }
    }

    /// Takes out the process that keeps `distro` running, to be killed.
    pub fn kill_keep_alive(keep_alive: Option<&mut KeepAliveTable>, distro: &str) -> (kill: Vec<
        u64,
    >)
        requires
            keep_alive is Some ==> keep_alive->0.wf(),
        ensures
            match keep_alive {
                Some(t) => {
                    &&& final(t).wf()
                    &&& final(t)@ == without(t@, distro@)
                    &&& !keeps(final(t)@, distro@)
                    &&& kill@ == handles_of(t@, distro@)
                },
                None => kill@ == Seq::<u64>::empty(),
            },
    {
        match keep_alive {
            Some(t) => t.remove(distro),
            None => Vec::new(),
        }
    }

    /// Takes out all processes that keep distributions running, to be killed.
    pub fn kill_all_keep_alive(keep_alive: Option<&mut KeepAliveTable>) -> (kill: Vec<u64>)
        ensures
            match keep_alive {
                Some(t) => {
                    &&& final(t).wf()
                    &&& final(t)@ == Seq::<(Seq<char>, u64)>::empty()
                    &&& kill@ == handles(t@)
                },
                None => kill@ == Seq::<u64>::empty(),
            },
    {
        match keep_alive {
            Some(t) => t.drain(),
            None => Vec::new(),
        }
    }

    /// Begins to start a distribution.
    pub fn start_distro(&mut self, tasks: Option<&mut TaskTable>, distro: &str) -> (plan: Option<
        TaskPlan,
    >)
        ensures
            begun(
                TaskKindView::Start { distro: distro@ },
                tasks is Some && !tasks->0@.contains(TaskKindView::Start { distro: distro@ }.key()),
                Seq::empty(),
                old(self)@,
                final(self)@,
                plan,
            ),
            match tasks {
                Some(t) => final(t)@ == t@.insert(TaskKindView::Start { distro: distro@ }.key()),
                None => true,
            },
    {
        let kind = TaskKind::Start { distro: distro.to_owned() };
        if !self.mark_task(tasks, kind.key(), kind.label().as_str()) {
            return None;
        }
        self.act(join2("正在", kind.label().as_str()));
        let key = kind.key();
        let command = kind.command();
        Some(TaskPlan { kind, key, kill: Vec::new(), command })
    }

    /// Begins to stop a distribution.
    pub fn terminate_distro(
        &mut self,
        tasks: Option<&mut TaskTable>,
        keep_alive: Option<&mut KeepAliveTable>,
        distro: &str,
    ) -> (plan: Option<TaskPlan>)
        requires
            keep_alive is Some ==> keep_alive->0.wf(),
        ensures
            begun(
                TaskKindView::Terminate { distro: distro@ },
                tasks is Some && !tasks->0@.contains(TaskKindView::Terminate { distro: distro@ }.key()),
                TaskKindView::Terminate { distro: distro@ }.doomed(table_entries(keep_alive)),
                old(self)@,
                final(self)@,
                plan,
            ),
            match tasks {
                Some(t) => final(t)@ == t@.insert(TaskKindView::Terminate { distro: distro@ }.key()),
                None => true,
            },
            match keep_alive {
                Some(t) => final(t).wf() && final(t)@ == if plan is Some {
                    TaskKindView::Terminate { distro: distro@ }.spared(t@)
                } else {
                    t@
                },
                None => true,
            },
            match keep_alive {
                Some(t) => {
                    &&& plan is Some ==> plan->0.kill@ == handles_of(t@, distro@)
                    &&& plan is Some ==> !keeps(final(t)@, distro@)
                    &&& forall|other: Seq<char>|
                        other != distro@ ==> handles_of(final(t)@, other) == #[trigger] handles_of(
                            t@,
                            other,
                        )
                },
                None => plan is Some ==> plan->0.kill@.len() == 0,
            },
    {
        let kind = TaskKind::Terminate { distro: distro.to_owned() };
        if !self.mark_task(tasks, kind.key(), kind.label().as_str()) {
            return None;
        }
        proof {
            lemma_no_handles(distro@);
            if keep_alive is Some {
                law_without(keep_alive->0@, distro@);
            }
        }
        let kill = Self::kill_keep_alive(keep_alive, distro);
        self.act(join2("正在", kind.label().as_str()));
        let key = kind.key();
        let command = kind.command();
        Some(TaskPlan { kind, key, kill, command })
    }

    /// Begins to stop every distribution.
    pub fn shutdown_all(
        &mut self,
        tasks: Option<&mut TaskTable>,
        keep_alive: Option<&mut KeepAliveTable>,
    ) -> (plan: Option<TaskPlan>)
        requires
            keep_alive is Some ==> keep_alive->0.wf(),
        ensures
            begun(
                TaskKindView::ShutdownAll,
                tasks is Some && !tasks->0@.contains(TaskKindView::ShutdownAll.key()),
                TaskKindView::ShutdownAll.doomed(table_entries(keep_alive)),
                old(self)@,
                final(self)@,
                plan,
            ),
            match tasks {
                Some(t) => final(t)@ == t@.insert(TaskKindView::ShutdownAll.key()),
                None => true,
            },
            match keep_alive {
                Some(t) => final(t).wf() && final(t)@ == if plan is Some {
                    TaskKindView::ShutdownAll.spared(t@)
                } else {
                    t@
                },
                None => true,
            },
            match keep_alive {
                Some(t) => plan is Some ==> plan->0.kill@ == handles(t@) && final(t)@.len() == 0,
                None => plan is Some ==> plan->0.kill@.len() == 0,
            },
    {
        let kind = TaskKind::ShutdownAll;
        if !self.mark_task(tasks, kind.key(), kind.label().as_str()) {
            return None;
        }
        proof {
            lemma_no_handles(Seq::empty());
        }
        let kill = Self::kill_all_keep_alive(keep_alive);
        self.act(join2("正在", kind.label().as_str()));
        let key = kind.key();
        let command = kind.command();
        Some(TaskPlan { kind, key, kill, command })
    }

    /// Notes what a task has reported.
    pub fn task_finished(&mut self, result: Result<String, String>)
        ensures
            final(self)@ == match result {
                Ok(message) => old(self)@.acted(message@),
                Err(message) => old(self)@.failed(message@),
            },
    {
        match result {
            Ok(message) => self.act(message),
            Err(message) => self.fail(message),
        }
    }

    /// The command to open a shell with: Windows Terminal, to begin with.
    pub fn open_shell_window(distro: &str) -> (plan: CommandPlan)
        ensures
            plan@ == terminal_view(distro@),
    {
        terminal_command(distro)
    }

    /// Notes whether Windows Terminal was started; where it was not, gives the
    /// command to open a console window with.
    pub fn terminal_tried(&mut self, distro: &str, started: bool) -> (next: Option<CommandPlan>)
        ensures
            next is None <==> started,
            match next {
                Some(plan) => !started && plan@ == console_view(distro@) && final(self)@ == old(
                    self,
                )@,
                None => started && final(self)@ == old(self)@.acted(
                    shell_opened(distro@),
                ),
            },
    {
        if started {
            self.act(join3("已打开 ", distro, " Shell"));
            None
        } else {
            Some(console_command(distro))
        }
    }

    /// Notes whether the console window could be opened.
    pub fn console_tried(&mut self, distro: &str, outcome: Result<(), String>)
        ensures
            final(self)@ == match outcome {
                Ok(_) => old(self)@.acted(shell_opened(distro@)),
                Err(err) => old(self)@.failed(shell_failed(distro@, err@)),
            },
    {
        match outcome {
            Ok(_) => self.act(join3("已打开 ", distro, " Shell")),
            Err(err) => self.fail(join4("打开 ", distro, " Shell 失败：", err.as_str())),
        }
    }

    /// How many distributions run.
    pub fn running_count(&self) -> (n: usize)
        ensures
            n == running(self@.distros),
    {
        let mut n: usize = 0;
        let mut i: usize = 0;
        let ghost views = self@.distros;
        proof {
            reveal(Seq::filter);
        }
        while i < self.distros.len()
            invariant
                n <= i <= self.distros.len(),
                views == self@.distros,
                n == running(views.take(i as int)),
            decreases self.distros.len() - i,
        {
            proof {
                reveal(Seq::filter);
                assert(views.take(i + 1).drop_last() =~= views.take(i as int));
                assert(views.take(i + 1).last() == self.distros@[i as int]@);
            }
            if self.distros[i].state == WslState::Running {
                n += 1;
            }
            i += 1;
        }
        assert(views.take(i as int) =~= views);
        n
    }
}

proof fn lemma_no_handles(distro: Seq<char>)
    ensures
        handles(Seq::empty()) == Seq::<u64>::empty(),
        handles_of(Seq::empty(), distro) == Seq::<u64>::empty(),
{
    reveal(Seq::filter);
    assert(handles(Seq::empty()) =~= Seq::<u64>::empty());
}

/// The number of distributions that run.
pub open spec fn running(distros: Seq<DistroView>) -> nat {
    distros.filter(|d: DistroView| d.state == WslState::Running).len()
}

/// The entries of a table that may be given.
pub open spec fn table_entries(t: Option<&mut KeepAliveTable>) -> Seq<(Seq<char>, u64)> {
    match t {
        Some(t) => t@,
        None => Seq::empty(),
    }
}

/// A task was asked for: where it was entered, its plan is given, and the
/// controller shows that it is under way; else the controller shows that such a
/// task is under way already.
pub open spec fn begun(
    kind: TaskKindView,
    entered: bool,
    kill: Seq<u64>,
    before: ControllerView,
    after: ControllerView,
    plan: Option<TaskPlan>,
) -> bool {
    match plan {
        Some(p) => {
            &&& entered
            &&& plans(p, kind, kill)
            &&& after == before.acted(begins(kind.label()))
        },
        None => {
            &&& !entered
            &&& after == before.acted(busy(kind.label()))
        },
    }
}

proof fn lemma_key_head(kind: TaskKindView)
    ensures
        kind.key().len() > 1,
        kind is Start ==> kind.key()[0] == 's' && kind.key()[1] == 't',
        kind is Terminate ==> kind.key()[0] == 't',
        kind is ShutdownAll ==> kind.key()[0] == 's' && kind.key()[1] == 'h',
{
    reveal_strlit("start:");
    reveal_strlit("terminate:");
    reveal_strlit("shutdown_all");
}

/// Two different tasks have different keys.
pub proof fn law_task_keys_differ(a: TaskKindView, b: TaskKindView)
    requires
        a.key() == b.key(),
    ensures
        a == b,
{
    reveal_strlit("start:");
    reveal_strlit("terminate:");
    reveal_strlit("shutdown_all");
    lemma_key_head(a);
    lemma_key_head(b);
    match (a, b) {
        (TaskKindView::Start { distro: x }, TaskKindView::Start { distro: y }) => {
            assert(x =~= a.key().skip(6));
            assert(y =~= b.key().skip(6));
        },
        (TaskKindView::Terminate { distro: x }, TaskKindView::Terminate { distro: y }) => {
            assert(x =~= a.key().skip(10));
            assert(y =~= b.key().skip(10));
        },
        _ => {},
    }
}

/// A task that is under way keeps that same task from being entered again, and
/// no other; when it has finished, the table is as it was before.
pub proof fn law_tasks_exclude_only_themselves(
    tasks: Set<Seq<char>>,
    a: TaskKindView,
    b: TaskKindView,
)
    requires
        !tasks.contains(a.key()),
    ensures
        tasks.insert(a.key()).contains(b.key()) == (a == b || tasks.contains(b.key())),
        tasks.insert(a.key()).remove(a.key()) == tasks,
{
    if a.key() == b.key() {
        law_task_keys_differ(a, b);
    }
    assert(tasks.insert(a.key()).remove(a.key()) =~= tasks);
}

/// Whether a command stops every distribution.
pub open spec fn shuts_down(command: CommandView) -> bool {
    command.program == "wsl.exe"@ && command.args == seq!["--shutdown"@]
}

/// Of the tasks, the one that stops every distribution is the only one whose
/// command does so.
pub proof fn law_only_shutdown_shuts_down(kind: TaskKindView)
    ensures
        shuts_down(kind.command()) <==> kind is ShutdownAll,
{
    let stop = seq!["--shutdown"@];
    assert(start_view(Seq::empty()).args.len() == 4 && stop.len() == 1);
}

/// No command but that of a task stops every distribution.
pub proof fn law_other_commands_do_not_shut_down(distro: Seq<char>)
    ensures
        !shuts_down(list_view()),
        !shuts_down(keep_alive_view(distro)),
        !shuts_down(terminal_view(distro)),
        !shuts_down(console_view(distro)),
{
    let stop = seq!["--shutdown"@];
    assert(stop.len() == 1);
    assert(list_view().args.len() == 2);
    assert(keep_alive_view(distro).args.len() == 6);
    assert(terminal_view(distro).args.len() == 6);
    assert(console_view(distro).args.len() == 6);
}

/// No process is lost when a task begins: each is either killed or stays in the
/// table.
pub proof fn law_no_process_is_lost(kind: TaskKindView, t: Seq<(Seq<char>, u64)>)
    ensures
        handles(t).to_multiset() == kind.doomed(t).to_multiset().add(
            handles(kind.spared(t)).to_multiset(),
        ),
{
    let none = Seq::<u64>::empty();
    none.to_multiset_ensures();
    assert(none.to_multiset() =~= Multiset::<u64>::empty());
    match kind {
        TaskKindView::Start { .. } => {
            assert(handles(t).to_multiset() =~= none.to_multiset().add(handles(t).to_multiset()));
        },
        TaskKindView::Terminate { distro } => {
            lemma_handles_split(t, distro);
        },
        TaskKindView::ShutdownAll => {
            lemma_no_handles(Seq::empty());
            assert(handles(t).to_multiset() =~= handles(t).to_multiset().add(none.to_multiset()));
        },
    }
}

proof fn lemma_handles_split(t: Seq<(Seq<char>, u64)>, distro: Seq<char>)
    ensures
        handles(t).to_multiset() == handles_of(t, distro).to_multiset().add(
            handles(without(t, distro)).to_multiset(),
        ),
    decreases t.len(),
{
    reveal(Seq::filter);
    broadcast use vstd::seq_lib::group_to_multiset_ensures;

    let a = handles_of(t, distro);
    let b = handles(without(t, distro));
    if t.len() == 0 {
        assert(handles(t) =~= Seq::<u64>::empty());
        assert(a =~= Seq::<u64>::empty());
        assert(b =~= Seq::<u64>::empty());
        assert(handles(t).to_multiset() =~= a.to_multiset().add(b.to_multiset()));
    } else {
        let s = t.drop_last();
        let (d, h) = t.last();
        let a0 = handles_of(s, distro);
        let b0 = handles(without(s, distro));
        lemma_handles_split(s, distro);
        assert(handles(t) =~= handles(s).push(h));
        if d == distro {
            assert(a =~= a0.push(h));
            assert(b =~= b0);
        } else {
            assert(a =~= a0);
            assert(b =~= b0.push(h));
        }
        assert(handles(t).to_multiset() =~= a.to_multiset().add(b.to_multiset()));
    }
}

/// A process that was entered keeps its distribution running until it exits.
pub proof fn law_entered_process_keeps_until_exit(
    t: Seq<(Seq<char>, u64)>,
    distro: Seq<char>,
    handle: u64,
    exited: Seq<u64>,
)
    ensures
        keeps(reaped(entered(t, distro, handle), exited), distro)
            == !exited.contains(handle),
{
    reveal(Seq::filter);
    law_without(t, distro);
    let s = without(t, distro);
    let g = s.push((distro, handle));
    assert(g.drop_last() =~= s);
    let f = reaped(s, exited);
    lemma_filter_keeps(s, |e: (Seq<char>, u64)| !exited.contains(e.1));
    assert(!keeps(f, distro));
    if !exited.contains(handle) {
        assert(reaped(g, exited) == f.push((distro, handle)));
        assert(f.push((distro, handle))[f.len() as int].0 == distro);
    }
}

/// After the distributions were read because it was time, it is not time again
/// before the status has lost its freshness.
pub proof fn law_status_stays_fresh(c: ControllerView, now: u128, later: u128)
    requires
        c.due(now),
        later - now < STATUS_LIFETIME,
    ensures
        !c.asked(now).due(later),
{
}

/// A reading that fails leaves the known distributions as they are; one that
/// succeeds leaves no error, not even one that a task has just reported.
pub proof fn law_refresh(c: ControllerView, distros: Seq<DistroView>, err: Seq<char>)
    ensures
        c.refreshed(Err(err)).distros == c.distros,
        c.refreshed(Err(err)).last_error is Some,
        c.refreshed(Ok(distros)).distros == distros,
        c.refreshed(Ok(distros)).last_error is None,
        c.refreshed(Ok(distros)).last_action == c.last_action,
{
}

/// No more distributions run than there are.
pub proof fn law_running_is_bounded(distros: Seq<DistroView>)
    ensures
        running(distros) <= distros.len(),
{
    distros.lemma_filter_len(|d: DistroView| d.state == WslState::Running);
}

/// The listing that `wsl.exe` prints as UTF-16, with or without the byte order
/// mark, is read line by line.
pub proof fn law_printed_listing_is_read(
    outcome: ListOutcome,
    ls: Seq<Seq<char>>,
    marked: bool,
    utf8: Seq<char>,
)
    requires
        forall|i: int| 0 <= i < ls.len() ==> !(#[trigger] ls[i]).contains('\n'),
        !listing_text(ls).contains('\0'),
        !marked ==> listing_text(ls).len() >= 9,
        !marked ==> forall|i: int| 0 <= i < 9 ==> (#[trigger] listing_text(ls)[i] as u32) < 0x100,
        outcome is Exited,
        outcome->success,
        outcome->stdout@ == if marked {
            seq![0xFFu8, 0xFEu8] + le_bytes(encode_utf16(listing_text(ls)))
        } else {
            le_bytes(encode_utf16(listing_text(ls)))
        },
    ensures
        listed(outcome, decoded(outcome->stdout@, utf8)) == Ok::<Seq<DistroView>, Seq<char>>(
            read_lines(ls),
        ),
{
    let text = listing_text(ls);
    if marked {
        law_marked_utf16_is_read_back(text, utf8);
    } else {
        law_plain_utf16_is_read_back(text, utf8);
    }
    law_text_without_nul_stays(text);
    law_listing_is_read_line_by_line(ls);
}

/// A message about one distribution, with the name that stands at `at` exchanged
/// for another.
pub open spec fn renamed(message: Seq<char>, at: int, from: Seq<char>, to: Seq<char>) -> Seq<
    char,
> {
    message.take(at) + to + message.skip(at + from.len())
}

/// Every message about a distribution holds its name in full, and apart from that
/// says the same of all; a cause stands at the end of it, in full.
pub proof fn law_messages_name_their_distro(a: Seq<char>, b: Seq<char>, err: Seq<char>)
    ensures
        already_kept(a).take(a.len() as int) == a,
        renamed(already_kept(a), 0, a, b) == already_kept(b),
        now_kept(a).subrange(4, a.len() + 4int) == a,
        renamed(now_kept(a), 4, a, b) == now_kept(b),
        not_kept(a, err).subrange(3, a.len() + 3int) == a,
        renamed(not_kept(a, err), 3, a, b) == not_kept(b, err),
        not_kept(a, err) == not_kept(a, Seq::empty()) + err,
        shell_opened(a).subrange(4, a.len() + 4int) == a,
        renamed(shell_opened(a), 4, a, b) == shell_opened(b),
        shell_failed(a, err).subrange(3, a.len() + 3int) == a,
        renamed(shell_failed(a, err), 3, a, b) == shell_failed(b, err),
        shell_failed(a, err) == shell_failed(a, Seq::empty()) + err,
        busy(a).take(a.len() as int) == a,
        renamed(busy(a), 0, a, b) == busy(b),
        begins(a).skip(2) == a,
        renamed(begins(a), 2, a, b) == begins(b),
        not_read(err) == not_read(Seq::empty()) + err,
{
    reveal_strlit("已接管 ");
    reveal_strlit("保活 ");
    reveal_strlit("已打开 ");
    reveal_strlit("打开 ");
    reveal_strlit("正在");
    assert(already_kept(a).take(a.len() as int) =~= a);
    assert(renamed(already_kept(a), 0, a, b) =~= already_kept(b));
    assert(now_kept(a).subrange(4, a.len() + 4int) =~= a);
    assert(renamed(now_kept(a), 4, a, b) =~= now_kept(b));
    assert(not_kept(a, err).subrange(3, a.len() + 3int) =~= a);
    assert(renamed(not_kept(a, err), 3, a, b) =~= not_kept(b, err));
    assert(not_kept(a, err) =~= not_kept(a, Seq::empty()) + err);
    assert(shell_opened(a).subrange(4, a.len() + 4int) =~= a);
    assert(renamed(shell_opened(a), 4, a, b) =~= shell_opened(b));
    assert(shell_failed(a, err).subrange(3, a.len() + 3int) =~= a);
    assert(renamed(shell_failed(a, err), 3, a, b) =~= shell_failed(b, err));
    assert(shell_failed(a, err) =~= shell_failed(a, Seq::empty()) + err);
    assert(busy(a).take(a.len() as int) =~= a);
    assert(renamed(busy(a), 0, a, b) =~= busy(b));
    assert(begins(a).skip(2) =~= a);
    assert(renamed(begins(a), 2, a, b) =~= begins(b));
    assert(not_read(err) =~= not_read(Seq::empty()) + err);
}

/// An error is shown until something is done, and what was done is shown without
/// an error; neither changes anything else.
pub proof fn law_shown(c: ControllerView, message: Seq<char>)
    ensures
        c.failed(message).last_error == Some(message),
        c.failed(message).last_action == c.last_action,
        c.failed(message).distros == c.distros,
        c.failed(message).last_status_refresh == c.last_status_refresh,
        c.acted(message).last_error is None,
        c.acted(message).last_action == message,
        c.acted(message).distros == c.distros,
        c.acted(message).last_status_refresh == c.last_status_refresh,
{
}

/// A reading is due once two seconds or more have passed since the last one,
/// however many more, and not before; once due, it stays so.
pub proof fn law_due_after_two_seconds(c: ControllerView, now: u128, later: u128)
    ensures
        now >= c.last_status_refresh + 2_000_000_000 <==> c.due(now),
        c.due(now) && later >= now ==> c.due(later),
{
}

/// Asking sets the time of the last reading to now where one is due, and changes
/// nothing else; where none is due it changes nothing at all.
pub proof fn law_asking(c: ControllerView, now: u128)
    ensures
        now >= c.last_status_refresh + 2_000_000_000 ==> c.asked(now).last_status_refresh == now,
        now < c.last_status_refresh + 2_000_000_000 ==> c.asked(now) == c,
        c.asked(now).distros == c.distros,
        c.asked(now).last_error == c.last_error,
        c.asked(now).last_action == c.last_action,
{
}

/// A reading changes neither what was last done nor when the status was read; one
/// that fails says why.
pub proof fn law_reading(
    c: ControllerView,
    outcome: Result<Seq<DistroView>, Seq<char>>,
    err: Seq<char>,
)
    ensures
        c.refreshed(outcome).last_action == c.last_action,
        c.refreshed(outcome).last_status_refresh == c.last_status_refresh,
        c.refreshed(outcome).last_error is None <==> outcome is Ok,
        c.refreshed(Err(err)).last_error == Some(not_read(err)),
{
}

/// Closing a distribution touches no other: all processes of others stay in the
/// table, those of the distribution leave it, and just these are killed.
pub proof fn law_closing_touches_no_other(
    t: Seq<(Seq<char>, u64)>,
    distro: Seq<char>,
    other: Seq<char>,
    handle: u64,
)
    ensures
        ({
            let kind = TaskKindView::Terminate { distro };
            &&& other != distro ==> handles_of(kind.spared(t), other) == handles_of(t, other)
            &&& other != distro && t.contains((other, handle)) ==> kind.spared(t).contains(
                (other, handle),
            )
            &&& !keeps(kind.spared(t), distro)
            &&& kind.doomed(t).contains(handle) <==> t.contains((distro, handle))
            &&& !keeps(t, distro) ==> kind.spared(t) == t && kind.doomed(t).len() == 0
        }),
{
    let kind = TaskKindView::Terminate { distro };
    law_without(t, distro);
    law_processes(t, (distro, handle), distro, handle);
    law_processes(t, (distro, handle), other, handle);
    law_processes(kind.spared(t), (distro, handle), other, handle);
    law_others_stay(t, (distro, handle), distro);
    if other != distro {
        assert(handles_of(kind.spared(t), other) == handles_of(t, other));
    }
}

/// Starting a distribution kills no process, and takes none out of the table.
pub proof fn law_starting_kills_nothing(t: Seq<(Seq<char>, u64)>, kind: TaskKindView)
    requires
        kind is Start,
    ensures
        kind.spared(t) == t,
        kind.doomed(t).len() == 0,
{
}

/// Closing everything kills each process in the table, and empties it.
pub proof fn law_shutdown_kills_all(t: Seq<(Seq<char>, u64)>, i: int)
    requires
        0 <= i < t.len(),
    ensures
        TaskKindView::ShutdownAll.doomed(t).len() == t.len(),
        TaskKindView::ShutdownAll.doomed(t)[i] == t[i].1,
        TaskKindView::ShutdownAll.spared(t).len() == 0,
{
    law_processes(t, t[i], t[i].0, t[i].1);
}

/// The command of a task is about the very distribution of the task, and is what
/// its kind is for; two tasks never have the same command.
pub proof fn law_task_commands(a: TaskKindView, b: TaskKindView)
    ensures
        a.command().program == "wsl.exe"@,
        a is Start ==> {
            &&& a.command().args.len() == 4
            &&& a.command().args[0] == "-d"@
            &&& a.command().args[1] == a->Start_distro
            &&& a.command().args[2] == "--exec"@
        },
        a is Terminate ==> {
            &&& a.command().args.len() == 2
            &&& a.command().args[0] == "--terminate"@
            &&& a.command().args[1] == a->Terminate_distro
        },
        a is ShutdownAll ==> {
            &&& a.command().args.len() == 1
            &&& a.command().args[0] == "--shutdown"@
        },
        a.command() == b.command() ==> a == b,
        a.command().stdio == StdioMode::Null,
        a.command().creation_flags == 0x0800_0000,
{
    let n = a.command().args.len();
    let m = b.command().args.len();
    assert(n == if a is Start {
        4nat
    } else if a is Terminate {
        2nat
    } else {
        1nat
    });
    assert(m == if b is Start {
        4nat
    } else if b is Terminate {
        2nat
    } else {
        1nat
    });
    if a.command() == b.command() {
        assert(n == m);
        if n > 1 {
            assert(a.command().args[1] == b.command().args[1]);
        }
    }
}

/// The label of a task, and the message that it has succeeded, hold the name of
/// its distribution in full, behind words that are the same for all of them.
pub proof fn law_task_texts(a: Seq<char>, b: Seq<char>)
    ensures
        ({
            let (s, t) = (TaskKindView::Start { distro: a }, TaskKindView::Start { distro: b });
            &&& s.label().skip(3) == a
            &&& s.done().skip(4) == a
            &&& renamed(s.label(), 3, a, b) == t.label()
            &&& renamed(s.done(), 4, a, b) == t.done()
        }),
        ({
            let (p, q) = (
                TaskKindView::Terminate { distro: a },
                TaskKindView::Terminate { distro: b },
            );
            &&& p.label().skip(3) == a
            &&& p.done().skip(4) == a
            &&& renamed(p.label(), 3, a, b) == q.label()
            &&& renamed(p.done(), 4, a, b) == q.done()
        }),
{
    reveal_strlit("启动 ");
    reveal_strlit("关闭 ");
    reveal_strlit("已启动 ");
    reveal_strlit("已关闭 ");
    let (s, t) = (TaskKindView::Start { distro: a }, TaskKindView::Start { distro: b });
    let (p, q) = (TaskKindView::Terminate { distro: a }, TaskKindView::Terminate { distro: b });
    assert(s.label().skip(3) =~= a);
    assert(p.label().skip(3) =~= a);
    assert(s.done().skip(4) =~= a);
    assert(p.done().skip(4) =~= a);
    assert(renamed(s.label(), 3, a, b) =~= t.label());
    assert(renamed(p.label(), 3, a, b) =~= q.label());
    assert(renamed(s.done(), 4, a, b) =~= t.done());
    assert(renamed(p.done(), 4, a, b) =~= q.done());
}

/// A task reports success exactly where its command ran and succeeded; else it
/// reports which task it was, and ends with the cause or the exit status.
pub proof fn law_report(kind: TaskKindView, outcome: RunOutcome, other: TaskKindView)
    ensures
        kind.report(outcome) is Ok <==> outcome is Exited && outcome->success,
        kind.report(outcome) is Ok ==> kind.report(outcome)->Ok_0 == kind.done(),
        kind.report(outcome) is Err ==> {
            let message = kind.report(outcome)->Err_0;
            let cause = if outcome is NotRun {
                outcome->error@
            } else {
                outcome->status@
            };
            &&& message.take(kind.label().len() as int) == kind.label()
            &&& message.skip(message.len() - cause.len()) == cause
            &&& renamed(message, 0, kind.label(), other.label()) == other.report(outcome)->Err_0
        },
{
    if kind.report(outcome) is Err {
        let message = kind.report(outcome)->Err_0;
        let cause = if outcome is NotRun {
            outcome->error@
        } else {
            outcome->status@
        };
        assert(message.take(kind.label().len() as int) =~= kind.label());
        assert(message.skip(message.len() - cause.len()) =~= cause);
        assert(renamed(message, 0, kind.label(), other.label()) =~= other.report(
            outcome,
        )->Err_0);
    }
}

/// A task that is asked for begins exactly where it could be entered. It then has
/// the command and the key of its kind, and what is shown holds its label; else
/// what is shown says that it is being run already. No error stays, and nothing
/// else changes.
pub proof fn law_begun(
    kind: TaskKindView,
    could: bool,
    kill: Seq<u64>,
    before: ControllerView,
    after: ControllerView,
    plan: Option<TaskPlan>,
)
    requires
        begun(kind, could, kill, before, after, plan),
    ensures
        plan is Some <==> could,
        plan is Some ==> {
            &&& plan->0.command@ == kind.command()
            &&& plan->0.key@ == kind.key()
            &&& plan->0.kind@ == kind
            &&& plan->0.kill@ == kill
            &&& after.last_action == begins(kind.label())
        },
        plan is None ==> after.last_action == busy(kind.label()),
        after.last_error is None,
        after.distros == before.distros,
        after.last_status_refresh == before.last_status_refresh,
{
}

/// A listing is read exactly where its command ran and succeeded, and then is
/// read off the text; else the text does not matter, and an exit status is shown
/// in full.
pub proof fn law_listed(outcome: ListOutcome, text: Seq<char>, other: Seq<char>)
    ensures
        listed(outcome, text) is Ok <==> outcome is Exited && outcome->success,
        listed(outcome, text) is Ok ==> listed(outcome, text)->Ok_0 == read_list(text),
        listed(outcome, text) is Err ==> listed(outcome, text) == listed(outcome, other),
        outcome is Exited && !outcome->success ==> {
            let message = listed(outcome, text)->Err_0;
            message.skip(message.len() - outcome->status@.len()) == outcome->status@
        },
{
    if outcome is Exited && !outcome->success {
        let message = listed(outcome, text)->Err_0;
        assert(message.skip(message.len() - outcome->status@.len()) =~= outcome->status@);
    }
}

/// What the listing command printed is what is read: its bytes decoded.
pub proof fn law_query_reads_output(
    outcome: ListOutcome,
    ls: Seq<Seq<char>>,
)
    requires
        forall|i: int| 0 <= i < ls.len() ==> !(#[trigger] ls[i]).contains('\n'),
        !listing_text(ls).contains('\0'),
        outcome is Exited,
        outcome->success,
        outcome->stdout@ == seq![0xFFu8, 0xFEu8] + le_bytes(encode_utf16(listing_text(ls))),
    ensures
        listed(outcome, list_text(outcome)) == Ok::<Seq<DistroView>, Seq<char>>(read_lines(ls)),
{
    law_printed_listing_is_read(outcome, ls, true, utf8_lossy(outcome->stdout@));
}

/// Each distribution counts once if it runs and not at all if it does not.
pub proof fn law_running_counts_each(a: Seq<DistroView>, b: Seq<DistroView>, d: DistroView)
    ensures
        running(Seq::empty()) == 0,
        running(a.push(d)) == running(a) + if d.state == WslState::Running {
            1nat
        } else {
            0nat
        },
        running(a + b) == running(a) + running(b),
        running(a) == 0 <==> forall|i: int|
            0 <= i < a.len() ==> (#[trigger] a[i]).state != WslState::Running,
    decreases a.len(),
{
    reveal(Seq::filter);
    assert(a.push(d).drop_last() =~= a);
    Seq::filter_distributes_over_add(a, b, |d: DistroView| d.state == WslState::Running);
    if a.len() > 0 {
        let s = a.drop_last();
        law_running_counts_each(s, b, a.last());
        assert(s.push(a.last()) =~= a);
        assert(forall|i: int| 0 <= i < s.len() ==> #[trigger] s[i] == a[i]);
        if running(a) == 0 {
            assert forall|i: int| 0 <= i < a.len() implies (#[trigger] a[i]).state
                != WslState::Running by {
                if i < s.len() {
                    assert(s[i].state != WslState::Running);
                }
            }
        }
        if forall|i: int| 0 <= i < a.len() ==> (#[trigger] a[i]).state != WslState::Running {
            assert forall|i: int| 0 <= i < s.len() implies (#[trigger] s[i]).state
                != WslState::Running by {
                assert(a[i].state != WslState::Running);
            }
            assert(a[a.len() - 1].state != WslState::Running);
        }
    }
}

/// The contents of a controller are those of its fields, one by one.
pub proof fn law_controller_contents(c: WslController, i: int)
    ensures
        c@.distros.len() == c.distros@.len(),
        0 <= i < c.distros@.len() ==> c@.distros[i] == c.distros@[i]@,
        c@.last_error is Some <==> c.last_error is Some,
        c.last_error is Some ==> c@.last_error->0 == c.last_error->0@,
        c@.last_action == c.last_action@,
        c@.last_status_refresh == c.last_status_refresh,
{
}

/// A distribution is kept running once its process is entered, and so is not
/// entered a second time until that process has exited; others may still be.
pub proof fn law_kept_once(
    t: Seq<(Seq<char>, u64)>,
    distro: Seq<char>,
    handle: u64,
    other: Seq<char>,
)
    ensures
        keeps(entered(t, distro, handle), distro),
        other != distro ==> keeps(entered(t, distro, handle), other) == keeps(t, other),
{
    law_entered(t, distro, handle, other);
    let g = entered(t, distro, handle);
    law_processes(g, (distro, handle), distro, handle);
    law_processes(g, (distro, handle), other, handle);
    law_processes(t, (distro, handle), other, handle);
}

/// The contents of a task are what it is for, and for which distribution.
pub proof fn law_kind_contents(kind: TaskKind)
    ensures
        kind@ is Start <==> kind is Start,
        kind@ is Terminate <==> kind is Terminate,
        kind@ is ShutdownAll <==> kind is ShutdownAll,
        kind is Start ==> kind@->Start_distro == kind->Start_distro@,
        kind is Terminate ==> kind@->Terminate_distro == kind->Terminate_distro@,
{
}

/// The contents of what a reading gives are those of its distributions, one by
/// one, or its error; likewise for what a task reports.
pub proof fn law_result_contents(
    r: Result<Vec<WslDistro>, String>,
    i: int,
    report: Result<String, String>,
)
    ensures
        result_distros(r) is Ok <==> r is Ok,
        r is Ok ==> result_distros(r)->Ok_0.len() == r->Ok_0@.len(),
        r is Ok && 0 <= i < r->Ok_0@.len() ==> result_distros(r)->Ok_0[i] == r->Ok_0@[i]@,
        r is Err ==> result_distros(r)->Err_0 == r->Err_0@,
        result_texts(report) is Ok <==> report is Ok,
        report is Ok ==> result_texts(report)->Ok_0 == report->Ok_0@,
        report is Err ==> result_texts(report)->Err_0 == report->Err_0@,
{
}

} // verus!
