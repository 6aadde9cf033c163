//! The tray, its menu, the window, and what it shows.
use wsl_controller::controller::WslController;
use wsl_controller::events::{
    route_menu, AppAction, AppEvent, FramePlan, MenuRoute, TrayEntry, TrayMenu, WindowCommand,
    WslApp,
};
use wsl_controller::listing::parse_wsl_list;
use wsl_controller::screen::{
    action_button, card_of, chinese_fonts, distro_card, distro_list, overview_pill, status_line,
    ButtonTone, CardAction, DistroList,
};
use wsl_controller::state::{Rgb, Rgba, WslState};
use wsl_controller::tables::{KeepAliveTable, TaskTable};

fn app() -> WslApp {
    WslApp::new(WslController::new(0), TrayMenu::new())
}

fn menu(id: &str) -> AppEvent {
    AppEvent::Menu { id: id.to_string() }
}

fn kept() -> KeepAliveTable {
    let mut t = KeepAliveTable::new();
    t.insert("u", 1);
    t.insert("v", 2);
    t
}

#[test]
fn the_menu_has_three_entries_and_a_separator() {
    let entries = TrayMenu::entries();
    assert_eq!(entries.len(), 4);
    assert!(matches!(&entries[0], TrayEntry::Item { id: "show", label: "显示窗口" }));
    assert!(matches!(&entries[1], TrayEntry::Separator));
    assert!(matches!(&entries[2], TrayEntry::Item { id: "shutdown_all", label: "关闭全部 WSL" }));
    assert!(matches!(&entries[3], TrayEntry::Item { id: "quit", label: "退出程序" }));
}

#[test]
fn a_double_click_shows_the_window() {
    let mut a = app();
    let action = a.handle_app_event(None, None, AppEvent::TrayDoubleClick);
    assert!(matches!(action, AppAction::ShowWindow));
    let action = a.handle_app_event(None, None, AppEvent::TrayOther);
    assert!(matches!(action, AppAction::Nothing));
    let action = a.handle_app_event(None, None, menu("show"));
    assert!(matches!(action, AppAction::ShowWindow));
    let action = a.handle_app_event(None, None, menu("other"));
    assert!(matches!(action, AppAction::Nothing));
}

#[test]
fn only_its_entry_stops_everything() {
    let mut a = app();
    let mut tasks = TaskTable::new();
    let mut t = kept();
    let action = a.handle_app_event(Some(&mut tasks), Some(&mut t), menu("shutdown_all"));
    let AppAction::RunTask(plan) = action else {
        panic!("no task");
    };
    assert_eq!(plan.command.args, ["--shutdown"]);
    assert_eq!(plan.kill, vec![1, 2]);
    assert!(!a.should_quit);
    let again = a.handle_app_event(Some(&mut tasks), Some(&mut t), menu("shutdown_all"));
    assert!(matches!(again, AppAction::Nothing));
    assert_eq!(a.controller.last_action, "关闭全部 WSL 正在执行");
}

#[test]
fn quitting_only_cleans_up() {
    let mut a = app();
    let mut tasks = TaskTable::new();
    let mut t = kept();
    let action = a.handle_app_event(Some(&mut tasks), Some(&mut t), menu("quit"));
    let AppAction::Kill(kill) = action else {
        panic!("nothing killed");
    };
    assert_eq!(kill, vec![1, 2]);
    assert!(a.should_quit);
    assert!(t.handles().is_empty());
    assert!(!tasks.contains("shutdown_all"));
    assert_eq!(a.controller.last_action, "");
    // It stays so, whatever happens next.
    a.handle_app_event(None, None, menu("show"));
    assert!(a.should_quit);
}

#[test]
fn without_a_tray_the_menu_does_nothing() {
    let mut a = app();
    a.tray = None;
    let mut t = kept();
    let action = a.handle_app_event(None, Some(&mut t), menu("quit"));
    assert!(matches!(action, AppAction::Nothing));
    assert!(!a.should_quit);
    assert_eq!(t.handles(), vec![1, 2]);
}

#[test]
fn a_finished_task_is_shown_and_followed_by_a_reading() {
    let mut a = app();
    let action = a.handle_app_event(None, None, AppEvent::TaskFinished(Err("bad".to_string())));
    assert!(matches!(action, AppAction::Refresh));
    assert_eq!(a.controller.last_error.as_deref(), Some("bad"));
    let action = a.handle_app_event(None, None, AppEvent::TaskFinished(Ok("good".to_string())));
    assert!(matches!(action, AppAction::Refresh));
    assert_eq!(a.controller.last_error, None);
    assert_eq!(a.controller.last_action, "good");
}

#[test]
fn the_quit_entry_leaves_at_once() {
    let mut t = kept();
    assert!(matches!(route_menu("quit", "show", Some(&mut t)), MenuRoute::Forward));
    assert_eq!(t.handles(), vec![1, 2]);
    let MenuRoute::Exit { kill } = route_menu("quit", "quit", Some(&mut t)) else {
        panic!("forwarded");
    };
    assert_eq!(kill, vec![1, 2]);
    assert!(t.handles().is_empty());
    assert!(matches!(route_menu("quit", "quit", None), MenuRoute::Exit { kill } if kill.is_empty()));
}

#[test]
fn closing_the_window_hides_it() {
    let mut a = app();
    assert_eq!(a.update(true), FramePlan { hide: true, close: false, draw: true });
    assert_eq!(a.update(false), FramePlan { hide: false, close: false, draw: true });
    a.should_quit = true;
    assert_eq!(a.update(true), FramePlan { hide: false, close: true, draw: false });
    assert_eq!(
        WslApp::hide_window(),
        vec![WindowCommand::CancelClose, WindowCommand::Visible(false)]
    );
    assert_eq!(WslApp::show_window(), vec![WindowCommand::Visible(true), WindowCommand::Focus]);
}

#[test]
fn processes_are_killed_at_the_end_only_after_quitting() {
    let mut a = app();
    let mut t = kept();
    assert!(a.on_exit(Some(&mut t)).is_empty());
    assert_eq!(t.handles(), vec![1, 2]);
    a.should_quit = true;
    assert_eq!(a.on_exit(Some(&mut t)), vec![1, 2]);
    assert!(a.on_exit(None).is_empty());
}

#[test]
fn the_summary_counts_running_distributions() {
    let mut c = WslController::new(0);
    let none = overview_pill(&c);
    assert_eq!(none.text, "0/0 运行中");
    assert_eq!(none.color, Rgb { r: 166, g: 172, b: 185 });
    c.distros = parse_wsl_list("a Running 2\nb Stopped 2\nc Running 1");
    let some = overview_pill(&c);
    assert_eq!(some.text, "2/3 运行中");
    assert_eq!(some.color, WslState::Running.color());
    assert_eq!(some.fill, Rgba { r: 63, g: 185, b: 132, a: 36 });
}

#[test]
fn the_status_line_prefers_errors() {
    let mut c = WslController::new(0);
    assert!(status_line(&c).is_none());
    c.task_finished(Ok("did".to_string()));
    let line = status_line(&c).unwrap();
    assert_eq!(line.text, "did");
    assert_eq!(line.color, Rgb { r: 172, g: 181, b: 194 });
    c.fail("bad".to_string());
    let line = status_line(&c).unwrap();
    assert_eq!(line.text, "bad");
    assert_eq!(line.color, Rgb { r: 238, g: 112, b: 112 });
}

#[test]
fn a_card_shows_its_distribution() {
    let d = parse_wsl_list("* u Stopped 2").remove(0);
    let card = distro_card(&d, true, false, false);
    assert_eq!(card.name, "u");
    assert_eq!(card.tags, vec!["默认", "保活中"]);
    assert_eq!(card.state_label, "已停止");
    assert_eq!(card.state_color, WslState::Stopped.color());
    assert_eq!(card.state_fill, Rgba { r: 166, g: 172, b: 185, a: 34 });
    assert_eq!(card.version, "WSL 2");
    let labels: Vec<_> = card.buttons.iter().map(|b| (b.label, b.tone, b.action)).collect();
    assert_eq!(
        labels,
        vec![
            ("关闭", ButtonTone::Danger, CardAction::Terminate),
            ("保活", ButtonTone::Neutral, CardAction::KeepAlive),
            ("启动", ButtonTone::Neutral, CardAction::Start),
            ("Shell", ButtonTone::Primary, CardAction::Shell),
        ]
    );
    assert_eq!(card.buttons[1].tooltip, "接管该发行版并在后台保持运行");
}

#[test]
fn a_card_shows_the_tasks_under_way() {
    let d = parse_wsl_list("u Running 2").remove(0);
    let mut c = WslController::new(0);
    let mut tasks = TaskTable::new();
    let card = card_of(&d, Some(&tasks), None);
    assert!(card.tags.is_empty());
    assert_eq!(card.buttons[2].label, "启动");
    c.start_distro(Some(&mut tasks), "u");
    assert_eq!(card_of(&d, Some(&tasks), None).buttons[2].label, "启动中");
    c.terminate_distro(Some(&mut tasks), None, "u");
    let card = card_of(&d, Some(&tasks), Some(&kept()));
    assert_eq!(card.buttons[0].label, "关闭中");
    assert_eq!(card.tags, vec!["保活中"]);
    assert_eq!(card_of(&d, None, None).buttons[2].label, "启动");
}

#[test]
fn the_list_has_a_card_for_each_distribution() {
    let mut c = WslController::new(0);
    assert!(matches!(distro_list(&c, None, None), DistroList::Empty("未检测到 WSL 发行版")));
    c.distros = parse_wsl_list("u Running 2\n* w Stopped 1");
    let DistroList::Cards(cards) = distro_list(&c, None, Some(&kept())) else {
        panic!("empty");
    };
    assert_eq!(cards.len(), 2);
    assert_eq!(cards[0].tags, vec!["保活中"]);
    assert_eq!(cards[1].tags, vec!["默认"]);
    assert_eq!(cards[1].name, "w");
}

#[test]
fn buttons_follow_the_pointer() {
    let idle = action_button(ButtonTone::Primary, false, false);
    assert_eq!(idle.fill, Rgb { r: 49, g: 130, b: 191 });
    assert_eq!(idle.glow, None);
    assert_eq!((idle.outline_halves, idle.drop), (2, 0));
    let hovered = action_button(ButtonTone::Neutral, false, true);
    assert_eq!(hovered.fill, Rgb { r: 53, g: 61, b: 78 });
    assert_eq!(hovered.glow, Some(Rgba { r: 69, g: 79, b: 98, a: 30 }));
    let pressed = action_button(ButtonTone::Danger, true, true);
    assert_eq!(pressed.fill, Rgb { r: 76, g: 35, b: 42 });
    assert_eq!(pressed.stroke, Rgb { r: 154, g: 78, b: 90 });
    assert_eq!(pressed.text, Rgb { r: 255, g: 224, b: 228 });
    assert_eq!(pressed.glow, None);
    assert_eq!((pressed.outline_halves, pressed.drop), (3, 1));
}

#[test]
fn four_fonts_are_tried() {
    let fonts = chinese_fonts();
    assert_eq!(fonts.len(), 4);
    assert_eq!(fonts[0].name, "microsoft_yahei");
    assert_eq!(fonts[0].path, r"C:\Windows\Fonts\msyh.ttc");
    assert_eq!(fonts[3].path, r"C:\Windows\Fonts\NotoSansCJK-Regular.ttc");
}
