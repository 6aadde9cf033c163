//! What the program does about the tray, its menu, finished tasks and the
//! window. The caller performs the actions.
use vstd::prelude::*;

use crate::controller::{
    begins, busy, law_only_shutdown_shuts_down, plans, result_texts, shuts_down, table_entries, ControllerView,
    TaskKindView, TaskPlan, WslController,
};
use crate::tables::{handles, KeepAliveTable, TaskTable};
use crate::text::same_text;

verus! {

/// The identifiers of the entries of the tray menu.
#[derive(Debug)]
pub struct TrayMenu {
    pub show_id: String,
    pub shutdown_all_id: String,
    pub quit_id: String,
}

/// The contents of a [`TrayMenu`].
#[verifier::ext_equal]
pub struct TrayView {
    pub show_id: Seq<char>,
    pub shutdown_all_id: Seq<char>,
    pub quit_id: Seq<char>,
}

impl View for TrayMenu {
    type V = TrayView;

    open spec fn view(&self) -> TrayView {
        TrayView {
            show_id: self.show_id@,
            shutdown_all_id: self.shutdown_all_id@,
            quit_id: self.quit_id@,
        }
    }
}

/// An entry of the tray menu.
#[derive(Debug)]
pub enum TrayEntry {
    Item { id: &'static str, label: &'static str },
    Separator,
}

/// The contents of a [`TrayEntry`].
pub enum TrayEntryView {
    Item { id: Seq<char>, label: Seq<char> },
    Separator,
}

impl View for TrayEntry {
    type V = TrayEntryView;

    open spec fn view(&self) -> TrayEntryView {
        match self {
            TrayEntry::Item { id, label } => TrayEntryView::Item { id: id@, label: label@ },
            TrayEntry::Separator => TrayEntryView::Separator,
        }
    }
}

/// The identifiers of the tray menu.
pub open spec fn tray_menu_view() -> TrayView {
    TrayView { show_id: "show"@, shutdown_all_id: "shutdown_all"@, quit_id: "quit"@ }
}

/// The entries of the tray menu, from top to bottom.
pub open spec fn tray_entry_views() -> Seq<TrayEntryView> {
    seq![
        TrayEntryView::Item { id: tray_menu_view().show_id, label: "显示窗口"@ },
        TrayEntryView::Separator,
        TrayEntryView::Item { id: tray_menu_view().shutdown_all_id, label: "关闭全部 WSL"@ },
        TrayEntryView::Item { id: tray_menu_view().quit_id, label: "退出程序"@ },
    ]
}

impl TrayMenu {
    /// The identifiers of the tray menu.
    pub fn new() -> (menu: TrayMenu)
        ensures
            menu@ == tray_menu_view(),
    {
        TrayMenu {
            show_id: "show".to_owned(),
            shutdown_all_id: "shutdown_all".to_owned(),
            quit_id: "quit".to_owned(),
        }
    }

    /// The entries of the tray menu, from top to bottom.
    pub fn entries() -> (v: Vec<TrayEntry>)
        ensures
            v@.map_values(|e: TrayEntry| e@) == tray_entry_views(),
    {
        let v = vec![
            TrayEntry::Item { id: "show", label: "显示窗口" },
            TrayEntry::Separator,
            TrayEntry::Item { id: "shutdown_all", label: "关闭全部 WSL" },
            TrayEntry::Item { id: "quit", label: "退出程序" },
        ];
        assert(v@.map_values(|e: TrayEntry| e@) =~= tray_entry_views());
        v
    }
}

/// Something that has happened.
#[derive(Debug)]
pub enum AppEvent {
    /// The tray icon was clicked twice.
    TrayDoubleClick,
    /// Anything else about the tray icon.
    TrayOther,
    /// An entry of the tray menu was chosen.
    Menu { id: String },
    /// A task has reported success or an error.
    TaskFinished(Result<String, String>),
}

/// The contents of an [`AppEvent`].
pub enum EventView {
    TrayDoubleClick,
    TrayOther,
    Menu { id: Seq<char> },
    TaskFinished(Result<Seq<char>, Seq<char>>),
}

impl View for AppEvent {
    type V = EventView;

    open spec fn view(&self) -> EventView {
        match self {
            AppEvent::TrayDoubleClick => EventView::TrayDoubleClick,
            AppEvent::TrayOther => EventView::TrayOther,
            AppEvent::Menu { id } => EventView::Menu { id: id@ },
            AppEvent::TaskFinished(r) => EventView::TaskFinished(result_texts(*r)),
        }
    }
}

/// What to do about an event.
#[derive(Debug)]
pub enum AppAction {
    Nothing,
    /// Show the window.
    ShowWindow,
    /// Run what the plan says.
    RunTask(TaskPlan),
    /// Kill these processes.
    Kill(Vec<u64>),
    /// Read the distributions again.
    Refresh,
}

/// The contents of an [`AppAction`].
pub enum ActionView {
    Nothing,
    ShowWindow,
    RunTask { kind: TaskKindView, kill: Seq<u64> },
    Kill(Seq<u64>),
    Refresh,
}

/// Whether an action is the one that `view` describes.
pub open spec fn is_action(action: AppAction, view: ActionView) -> bool {
    match (action, view) {
        (AppAction::Nothing, ActionView::Nothing) => true,
        (AppAction::ShowWindow, ActionView::ShowWindow) => true,
        (AppAction::RunTask(plan), ActionView::RunTask { kind, kill }) => {
            plans(plan, kind, kill)
        },
        (AppAction::Kill(v), ActionView::Kill(kill)) => v@ == kill,
        (AppAction::Refresh, ActionView::Refresh) => true,
        _ => false,
    }
}

/// The state of the program.
#[derive(Debug)]
pub struct WslApp {
    pub controller: WslController,
    pub tray: Option<TrayMenu>,
    pub should_quit: bool,
}

/// The contents of a [`WslApp`].
#[verifier::ext_equal]
pub struct AppView {
    pub controller: ControllerView,
    pub tray: Option<TrayView>,
    pub should_quit: bool,
}

impl View for WslApp {
    type V = AppView;

    open spec fn view(&self) -> AppView {
        AppView {
            controller: self.controller@,
            tray: match self.tray {
                Some(t) => Some(t@),
                None => None,
            },
            should_quit: self.should_quit,
        }
    }
}

/// The program together with its tables, as far as they could be locked.
#[verifier::ext_equal]
pub struct World {
    pub app: AppView,
    pub tasks: Option<Set<Seq<char>>>,
    pub keep_alive: Option<Seq<(Seq<char>, u64)>>,
}

impl World {
    /// The processes that keep distributions running.
    pub open spec fn processes(self) -> Seq<u64> {
        match self.keep_alive {
            Some(t) => handles(t),
            None => Seq::empty(),
        }
    }

    /// The world with another controller.
    pub open spec fn with_controller(self, controller: ControllerView) -> World {
        World { app: AppView { controller, ..self.app }, ..self }
    }

    /// What stopping every distribution comes to.
    pub open spec fn shut_down(self) -> (World, ActionView) {
        let kind = TaskKindView::ShutdownAll;
        match self.tasks {
            Some(tasks) if !tasks.contains(kind.key()) => (
                World {
                    tasks: Some(tasks.insert(kind.key())),
                    keep_alive: match self.keep_alive {
                        Some(t) => Some(kind.spared(t)),
                        None => None,
                    },
                    ..self.with_controller(
                        self.app.controller.acted(begins(kind.label())),
                    )
                },
                ActionView::RunTask { kind, kill: self.processes() },
            ),
            _ => (
                self.with_controller(self.app.controller.acted(busy(kind.label()))),
                ActionView::Nothing,
            ),
        }
    }

    /// What leaving the program comes to.
    pub open spec fn quit(self) -> (World, ActionView) {
        (
            World {
                app: AppView { should_quit: true, ..self.app },
                keep_alive: match self.keep_alive {
                    Some(_) => Some(Seq::empty()),
                    None => None,
                },
                ..self
            },
            ActionView::Kill(self.processes()),
        )
    }

    /// What an event comes to.
    pub open spec fn step(self, event: EventView) -> (World, ActionView) {
        match event {
            EventView::TrayDoubleClick => (self, ActionView::ShowWindow),
            EventView::TrayOther => (self, ActionView::Nothing),
            EventView::Menu { id } => match self.app.tray {
                Some(tray) => if id == tray.show_id {
                    (self, ActionView::ShowWindow)
                } else if id == tray.shutdown_all_id {
                    self.shut_down()
                } else if id == tray.quit_id {
                    self.quit()
                } else {
                    (self, ActionView::Nothing)
                },
                None => (self, ActionView::Nothing),
            },
            EventView::TaskFinished(Ok(message)) => (
                self.with_controller(self.app.controller.acted(message)),
                ActionView::Refresh,
            ),
            EventView::TaskFinished(Err(message)) => (
                self.with_controller(self.app.controller.failed(message)),
                ActionView::Refresh,
            ),
        }
    }
}

/// The program with the tables it is handed.
pub open spec fn world_of(
    app: WslApp,
    tasks: Option<&mut TaskTable>,
    keep_alive: Option<&mut KeepAliveTable>,
) -> World {
    World {
        app: app@,
        tasks: match tasks {
            Some(t) => Some(t@),
            None => None,
        },
        keep_alive: match keep_alive {
            Some(t) => Some(t@),
            None => None,
        },
    }
}

impl WslApp {
    /// The program as it begins.
    pub fn new(controller: WslController, tray: TrayMenu) -> (app: WslApp)
        ensures
            app@ == (AppView { controller: controller@, tray: Some(tray@), should_quit: false }),
    {
        WslApp { controller, tray: Some(tray), should_quit: false }
    }

    /// Deals with one event.
    pub fn handle_app_event(
        &mut self,
        tasks: Option<&mut TaskTable>,
        keep_alive: Option<&mut KeepAliveTable>,
        event: AppEvent,
    ) -> (action: AppAction)
        requires
            keep_alive is Some ==> keep_alive->0.wf(),
        ensures
            ({
                let (world, view) = world_of(*old(self), tasks, keep_alive).step(event@);
                &&& is_action(action, view)
                &&& final(self)@ == world.app
                &&& match tasks {
                    Some(t) => world.tasks == Some(final(t)@),
                    None => true,
                }
                &&& match keep_alive {
                    Some(t) => world.keep_alive == Some(final(t)@) && final(t).wf(),
                    None => true,
                }
            }),
    {
        match event {
            AppEvent::TrayDoubleClick => AppAction::ShowWindow,
            AppEvent::TrayOther => AppAction::Nothing,
            AppEvent::Menu { id } => {
                let (show, shutdown_all, quit) = match &self.tray {
                    Some(tray) => (
                        same_text(id.as_str(), tray.show_id.as_str()),
                        same_text(id.as_str(), tray.shutdown_all_id.as_str()),
                        same_text(id.as_str(), tray.quit_id.as_str()),
                    ),
                    None => (false, false, false),
                };
                if show {
                    AppAction::ShowWindow
                } else if shutdown_all {
                    proof {
                        let key = TaskKindView::ShutdownAll.key();
                        if tasks is Some && tasks->0@.contains(key) {
                            assert(tasks->0@.insert(key) =~= tasks->0@);
                        }
                        assert(handles(Seq::empty()) =~= Seq::<u64>::empty());
                    }
                    match self.controller.shutdown_all(tasks, keep_alive) {
                        Some(plan) => AppAction::RunTask(plan),
                        None => AppAction::Nothing,
                    }
                } else if quit {
                    self.should_quit = true;
                    AppAction::Kill(WslController::kill_all_keep_alive(keep_alive))
                } else {
                    AppAction::Nothing
                }
            },
            AppEvent::TaskFinished(result) => {
                self.controller.task_finished(result);
                AppAction::Refresh
            },
        }
    }
}

/// What to do about an entry of the tray menu as soon as it is chosen.
#[derive(Debug)]
pub enum MenuRoute {
    /// Kill these processes and leave the program at once.
    Exit { kill: Vec<u64> },
    /// Hand the choice on as an event.
    Forward,
}

/// Deals with an entry of the tray menu as soon as it is chosen: the program is
/// left even while its window is hidden and handles no events.
pub fn route_menu(
    quit_id: &str,
    id: &str,
    keep_alive: Option<&mut KeepAliveTable>,
) -> (route: MenuRoute)
    requires
        keep_alive is Some ==> keep_alive->0.wf(),
    ensures
        match route {
            MenuRoute::Exit { kill } => {
                &&& id@ == quit_id@
                &&& kill@ == handles(table_entries(keep_alive))
            },
            MenuRoute::Forward => id@ != quit_id@,
        },
        route is Exit <==> id@ == quit_id@,
        keep_alive is Some && id@ == quit_id@ ==> {
            &&& route->kill@.len() == keep_alive->0@.len()
            &&& forall|i: int|
                0 <= i < keep_alive->0@.len() ==> #[trigger] route->kill@[i]
                    == keep_alive->0@[i].1
        },
        match keep_alive {
            Some(t) => final(t).wf() && final(t)@ == if id@ == quit_id@ {
                Seq::empty()
            } else {
                t@
            },
            None => true,
        },
{
    if same_text(id, quit_id) {
        assert(handles(Seq::empty()) =~= Seq::<u64>::empty());
        MenuRoute::Exit { kill: WslController::kill_all_keep_alive(keep_alive) }
    } else {
        MenuRoute::Forward
    }
}

/// What to do about the window in a frame.
#[derive(Debug, Clone, Copy, PartialEq, Eq, Structural)]
pub struct FramePlan {
    /// Hide it.
    pub hide: bool,
    /// Close it.
    pub close: bool,
    /// Draw its contents.
    pub draw: bool,
}

/// What to do about the window in a frame.
pub open spec fn frame_view(close_requested: bool, should_quit: bool) -> FramePlan {
    FramePlan { hide: close_requested && !should_quit, close: should_quit, draw: !should_quit }
}

/// An order to the window.
#[derive(Debug, Clone, Copy, PartialEq, Eq, Structural)]
pub enum WindowCommand {
    /// Do not close, though that was requested.
    CancelClose,
    /// Show or hide.
    Visible(bool),
    /// Take the focus.
    Focus,
}

impl WslApp {
    /// What to do about the window in a frame, where the user may have asked
    /// for it to be closed.
    pub fn update(&self, close_requested: bool) -> (plan: FramePlan)
        ensures
            plan == frame_view(close_requested, self@.should_quit),
            plan.hide == (close_requested && !self.should_quit),
            plan.close == self.should_quit,
            plan.draw == !self.should_quit,
    {
        FramePlan {
            hide: close_requested && !self.should_quit,
            close: self.should_quit,
            draw: !self.should_quit,
        }
    }

    /// The orders that hide the window instead of closing it.
    pub fn hide_window() -> (orders: Vec<WindowCommand>)
        ensures
            orders@ == seq![WindowCommand::CancelClose, WindowCommand::Visible(false)],
    {
        vec![WindowCommand::CancelClose, WindowCommand::Visible(false)]
    }

    /// The orders that bring the window to the front.
    pub fn show_window() -> (orders: Vec<WindowCommand>)
        ensures
            orders@ == seq![WindowCommand::Visible(true), WindowCommand::Focus],
    {
        vec![WindowCommand::Visible(true), WindowCommand::Focus]
    }

    /// The processes to kill when the program ends.
    pub fn on_exit(&self, keep_alive: Option<&mut KeepAliveTable>) -> (kill: Vec<u64>)
        requires
            keep_alive is Some ==> keep_alive->0.wf(),
        ensures
            kill@ == if self@.should_quit {
                handles(table_entries(keep_alive))
            } else {
                Seq::empty()
            },
            match keep_alive {
                Some(t) => final(t).wf() && final(t)@ == if self@.should_quit {
                    Seq::empty()
                } else {
                    t@
                },
                None => true,
            },
            keep_alive is Some && self.should_quit ==> {
                &&& kill@.len() == keep_alive->0@.len()
                &&& forall|i: int|
                    0 <= i < keep_alive->0@.len() ==> #[trigger] kill@[i] == keep_alive->0@[i].1
            },
    {
        if self.should_quit {
            assert(handles(Seq::empty()) =~= Seq::<u64>::empty());
            WslController::kill_all_keep_alive(keep_alive)
        } else {
            Vec::new()
        }
    }
}

impl World {
    /// What a series of events comes to.
    pub open spec fn run(self, events: Seq<EventView>) -> World
        decreases events.len(),
    {
        if events.len() == 0 {
            self
        } else {
            self.run(events.drop_last()).step(events.last()).0
        }
    }

    /// Whether an event is the choice of the entry that leaves the program.
    pub open spec fn asks_to_quit(self, event: EventView) -> bool {
        match (self.app.tray, event) {
            (Some(tray), EventView::Menu { id }) => {
                id == tray.quit_id && id != tray.show_id && id != tray.shutdown_all_id
            },
            _ => false,
        }
    }
}

/// Leaving the program kills every process that keeps a distribution running,
/// and nothing else: no task is run, and what the controller shows stays.
pub proof fn law_quit_only_cleans_up(world: World, event: EventView)
    requires
        world.asks_to_quit(event),
    ensures
        world.step(event).1 == ActionView::Kill(world.processes()),
        world.step(event).0.app == (AppView { should_quit: true, ..world.app }),
        world.step(event).0.tasks == world.tasks,
        world.step(event).0.processes() == Seq::<u64>::empty(),
{
    assert(handles(Seq::empty()) =~= Seq::<u64>::empty());
}

/// Of all events, only the choice of the menu entry for it has every
/// distribution stopped; no other event runs a command.
pub proof fn law_only_the_entry_shuts_down(world: World, event: EventView)
    ensures
        world.step(event).1 is RunTask ==> {
            &&& world.step(event).1->kind is ShutdownAll
            &&& shuts_down(world.step(event).1->kind.command())
            &&& world.app.tray is Some
            &&& event == EventView::Menu { id: world.app.tray->0.shutdown_all_id }
        },
{
    law_only_shutdown_shuts_down(TaskKindView::ShutdownAll);
}

/// A request to close the window hides it; the program goes on, unless it was
/// asked to quit.
pub proof fn law_closing_hides(close_requested: bool)
    ensures
        !frame_view(close_requested, false).close,
        frame_view(close_requested, false).hide == close_requested,
        frame_view(close_requested, false).draw,
        frame_view(close_requested, true).close,
        !frame_view(close_requested, true).hide,
        !frame_view(close_requested, true).draw,
{
}

/// After a series of events the program is to quit exactly where it was to quit
/// before, or was asked to by one of them.
pub proof fn law_quits_when_asked(world: World, events: Seq<EventView>)
    ensures
        world.run(events).app.tray == world.app.tray,
        world.run(events).app.should_quit == (world.app.should_quit || exists|i: int|
            0 <= i < events.len() && world.asks_to_quit(#[trigger] events[i])),
    decreases events.len(),
{
    if events.len() > 0 {
        let front = events.drop_last();
        law_quits_when_asked(world, front);
        let mid = world.run(front);
        if mid.asks_to_quit(events.last()) {
            assert(world.asks_to_quit(events[events.len() - 1]));
        }
        if exists|i: int| 0 <= i < front.len() && world.asks_to_quit(#[trigger] front[i]) {
            let i = choose|i: int| 0 <= i < front.len() && world.asks_to_quit(#[trigger] front[i]);
            assert(events[i] == front[i]);
        }
        if exists|i: int| 0 <= i < events.len() && world.asks_to_quit(#[trigger] events[i]) {
            let i = choose|i: int|
                0 <= i < events.len() && world.asks_to_quit(#[trigger] events[i]);
            if i < front.len() {
                assert(front[i] == events[i]);
            }
        }
    }
}

/// The entries of the menu are told apart, so that leaving the program is asked
/// for by its own entry.
pub proof fn law_menu_entries_differ(world: World)
    requires
        world.app.tray == Some(tray_menu_view()),
    ensures
        tray_menu_view().show_id != tray_menu_view().shutdown_all_id,
        world.asks_to_quit(EventView::Menu { id: tray_menu_view().quit_id }),
{
    reveal_strlit("show");
    reveal_strlit("shutdown_all");
    reveal_strlit("quit");
    assert("show"@.len() == 4 && "shutdown_all"@.len() == 12 && "quit"@.len() == 4);
    assert("show"@[0] == 's' && "quit"@[0] == 'q');
}

/// Choosing the entry that stops every distribution does so unless that is under
/// way, whatever processes there are: each of them is killed, and the table is
/// empty afterwards.
pub proof fn law_the_entry_shuts_down(world: World, tray: TrayView, event: EventView)
    requires
        world.app.tray == Some(tray),
        tray.shutdown_all_id != tray.show_id,
        event == (EventView::Menu { id: tray.shutdown_all_id }),
    ensures
        ({
            let (after, action) = world.step(event);
            let key = TaskKindView::ShutdownAll.key();
            let label = TaskKindView::ShutdownAll.label();
            if world.tasks is Some && !world.tasks->0.contains(key) {
                &&& action is RunTask
                &&& action->kind is ShutdownAll
                &&& action->kill == world.processes()
                &&& after.tasks == Some(world.tasks->0.insert(key))
                &&& after.processes().len() == 0
                &&& after.app.controller.last_action == begins(label)
                &&& after.app.controller.last_error is None
                &&& after.app.controller.distros == world.app.controller.distros
                &&& after.app.should_quit == world.app.should_quit
            } else {
                &&& action is Nothing
                &&& after.tasks == world.tasks
                &&& after.keep_alive == world.keep_alive
                &&& after.app.controller.last_action == busy(label)
                &&& after.app.controller.last_error is None
                &&& after.app.controller.distros == world.app.controller.distros
                &&& after.app.should_quit == world.app.should_quit
            }
        }),
{
    assert(handles(Seq::empty()) =~= Seq::<u64>::empty());
}

/// The window is shown for a double click on the tray icon and for its menu entry,
/// and for nothing else; showing it changes nothing.
pub proof fn law_what_shows_the_window(world: World, event: EventView)
    ensures
        world.step(event).1 is ShowWindow <==> event is TrayDoubleClick || (world.app.tray is Some
            && event == (EventView::Menu { id: world.app.tray->0.show_id })),
        world.step(event).1 is ShowWindow ==> world.step(event).0 == world,
{
}

/// Other events of the tray icon do nothing, nor do menu entries that are not
/// known or come without a tray.
pub proof fn law_unknown_events_do_nothing(world: World, event: EventView)
    requires
        event is TrayOther || (event is Menu && (world.app.tray is None || (event->id
            != world.app.tray->0.show_id && event->id != world.app.tray->0.shutdown_all_id
            && event->id != world.app.tray->0.quit_id))),
    ensures
        world.step(event).0 == world,
        world.step(event).1 is Nothing,
{
}

/// What a task has reported is shown as it is, as an action or as an error, and
/// the distributions are read again; nothing else changes.
pub proof fn law_finished_task_is_shown(world: World, result: Result<Seq<char>, Seq<char>>)
    ensures
        ({
            let (after, action) = world.step(EventView::TaskFinished(result));
            &&& action is Refresh
            &&& after.tasks == world.tasks
            &&& after.keep_alive == world.keep_alive
            &&& after.app.tray == world.app.tray
            &&& after.app.should_quit == world.app.should_quit
            &&& after.app.controller.distros == world.app.controller.distros
            &&& result is Ok ==> after.app.controller.last_action == result->Ok_0
                && after.app.controller.last_error is None
            &&& result is Err ==> after.app.controller.last_error == Some(result->Err_0)
                && after.app.controller.last_action == world.app.controller.last_action
        }),
{
}

/// Only a finished task has the distributions read again, and only leaving the
/// program kills processes without running a task.
pub proof fn law_what_reads_and_kills(world: World, event: EventView)
    ensures
        world.step(event).1 is Refresh <==> event is TaskFinished,
        world.step(event).1 is Kill <==> world.asks_to_quit(event),
{
}

/// The processes of the program are those in its table, one by one; without the
/// table there are none to speak of.
pub proof fn law_processes_of_world(world: World, i: int)
    ensures
        world.keep_alive is Some ==> world.processes().len() == world.keep_alive->0.len(),
        world.keep_alive is Some && 0 <= i < world.keep_alive->0.len() ==> world.processes()[i]
            == world.keep_alive->0[i].1,
        world.keep_alive is None ==> world.processes().len() == 0,
{
}

/// An action is done as it is described: it runs the command of its task, and
/// kills just the processes that are named.
pub proof fn law_actions(action: AppAction, view: ActionView)
    requires
        is_action(action, view),
    ensures
        action is Nothing <==> view is Nothing,
        action is ShowWindow <==> view is ShowWindow,
        action is Refresh <==> view is Refresh,
        action is Kill <==> view is Kill,
        action is RunTask <==> view is RunTask,
        action is Kill ==> action->Kill_0@ == view->Kill_0,
        action is RunTask ==> {
            &&& action->RunTask_0.command@ == view->kind.command()
            &&& action->RunTask_0.kill@ == view->kill
            &&& action->RunTask_0.key@ == view->kind.key()
        },
{
}

/// The entries of the menu have the identifiers that are acted on, each once.
pub proof fn law_entries_are_acted_on()
    ensures
        tray_entry_views().len() == 4,
        tray_entry_views()[0]->id == tray_menu_view().show_id,
        tray_entry_views()[1] is Separator,
        tray_entry_views()[2]->id == tray_menu_view().shutdown_all_id,
        tray_entry_views()[3]->id == tray_menu_view().quit_id,
{
}

/// The contents of the program are those of its parts.
pub proof fn law_app_contents(app: WslApp)
    ensures
        app@.controller == app.controller@,
        app@.should_quit == app.should_quit,
        app@.tray is Some <==> app.tray is Some,
        app.tray is Some ==> {
            &&& app@.tray->0.show_id == app.tray->0.show_id@
            &&& app@.tray->0.shutdown_all_id == app.tray->0.shutdown_all_id@
            &&& app@.tray->0.quit_id == app.tray->0.quit_id@
        },
{
}

/// The contents of an event are its own.
pub proof fn law_event_contents(event: AppEvent)
    ensures
        event@ is TrayDoubleClick <==> event is TrayDoubleClick,
        event@ is TrayOther <==> event is TrayOther,
        event@ is Menu <==> event is Menu,
        event@ is TaskFinished <==> event is TaskFinished,
        event is Menu ==> event@->id == event->id@,
        event is TaskFinished ==> event@->TaskFinished_0 == result_texts(event->TaskFinished_0),
{
}

} // verus!
