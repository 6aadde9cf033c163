//! The controller, its tasks and its keep-alive processes.
use wsl_controller::command::{
    list_command, shutdown_command, CommandPlan, StdioMode, CREATE_NO_WINDOW, KEEP_ALIVE_COMMAND,
};
use wsl_controller::controller::{
    query_wsl_distros, read_listing, KeepAliveStep, ListOutcome, RunOutcome, TaskKind,
    WslController, STATUS_LIFETIME,
};
use wsl_controller::tables::{KeepAliveTable, TaskTable};

fn exited(success: bool, status: &str, stdout: &[u8]) -> ListOutcome {
    ListOutcome::Exited { success, status: status.to_string(), stdout: stdout.to_vec() }
}

fn assert_hidden(plan: &CommandPlan, args: &[&str], stdio: StdioMode) {
    assert_eq!(plan.program, "wsl.exe");
    assert_eq!(plan.args, args);
    assert_eq!(plan.stdio, stdio);
    assert_eq!(plan.creation_flags, CREATE_NO_WINDOW);
}

fn table(entries: &[(&str, u64)]) -> KeepAliveTable {
    let mut t = KeepAliveTable::new();
    for (distro, handle) in entries {
        assert!(t.insert(distro, *handle).is_empty());
    }
    t
}

#[test]
fn a_new_controller_knows_nothing() {
    let c = WslController::new(5);
    assert!(c.distros.is_empty());
    assert_eq!(c.last_error, None);
    assert_eq!(c.last_action, "");
    assert_eq!(c.last_status_refresh, 5);
    assert_eq!(c.running_count(), 0);
}

#[test]
fn the_listing_command_is_hidden_and_captured() {
    assert_hidden(&list_command(), &["-l", "-v"], StdioMode::Capture);
    assert_eq!(CREATE_NO_WINDOW, 0x0800_0000);
}

#[test]
fn a_successful_reading_replaces_the_distributions() {
    let mut c = WslController::new(0);
    c.fail("old".to_string());
    let out = exited(true, "exit code: 0", b"* a Running 2\n  b Running 1\n  c Stopped 1\n");
    c.refresh_distros(None, &[], query_wsl_distros(&out));
    assert_eq!(c.distros.len(), 3);
    assert_eq!(c.running_count(), 2);
    assert_eq!(c.last_error, None);
}

#[test]
fn a_failed_reading_keeps_the_distributions() {
    let mut c = WslController::new(0);
    c.refresh_distros(None, &[], query_wsl_distros(&exited(true, "", b"a Running 2")));
    c.refresh_distros(None, &[], query_wsl_distros(&exited(false, "exit code: 1", b"b Running 2")));
    assert_eq!(c.distros.len(), 1);
    assert_eq!(c.distros[0].name, "a");
    assert_eq!(
        c.last_error.as_deref(),
        Some("读取 WSL 列表失败：wsl.exe -l -v exited with exit code: 1")
    );
    c.refresh_distros(None, &[], query_wsl_distros(&ListOutcome::NotRun));
    assert_eq!(
        c.last_error.as_deref(),
        Some("读取 WSL 列表失败：failed to run wsl.exe -l -v")
    );
    assert_eq!(c.distros.len(), 1);
}

#[test]
fn the_listing_is_decoded_before_it_is_read() {
    let text = "  NAME  STATE  VERSION\r\n* Übuntu  Running  2\r\n";
    let bytes: Vec<u8> = text.encode_utf16().flat_map(|w| w.to_le_bytes()).collect();
    let distros = query_wsl_distros(&exited(true, "", &bytes)).unwrap();
    assert_eq!(distros.len(), 1);
    assert_eq!(distros[0].name, "Übuntu");
    assert!(distros[0].is_default);
    let again = read_listing(&exited(true, "", b"ignored Running 1"), text).unwrap();
    assert_eq!(again[0].name, "Übuntu");
}

#[test]
fn a_reading_reaps_exited_processes() {
    let mut c = WslController::new(0);
    let mut t = table(&[("a", 1), ("b", 2), ("c", 3)]);
    c.refresh_distros(Some(&mut t), &[1, 3, 9], Ok(Vec::new()));
    assert_eq!(t.handles(), vec![2]);
}

#[test]
fn the_status_is_read_again_after_two_seconds() {
    let mut c = WslController::new(100);
    let mut t = table(&[("a", 1)]);
    assert!(!c.refresh_status_if_needed(Some(&mut t), &[], 100 + STATUS_LIFETIME - 1));
    assert_eq!(c.last_status_refresh, 100);
    assert!(!c.refresh_status_if_needed(None, &[], 50));
    assert!(c.refresh_status_if_needed(Some(&mut t), &[1], 100 + STATUS_LIFETIME));
    assert!(t.handles().is_empty());
    assert_eq!(c.last_status_refresh, 100 + STATUS_LIFETIME);
    assert!(!c.refresh_status_if_needed(None, &[], 100 + 2 * STATUS_LIFETIME - 1));
    assert_eq!(STATUS_LIFETIME, 2_000_000_000);
}

#[test]
fn a_blank_name_is_refused() {
    let mut c = WslController::new(0);
    let mut t = table(&[("a", 1)]);
    for name in ["", " ", "\t\u{3000}\n"] {
        let step = c.start_keep_alive(Some(&mut t), &[1], name);
        assert!(matches!(step, KeepAliveStep::Done));
        assert_eq!(c.last_error.as_deref(), Some("发行版名称为空"));
    }
    assert_eq!(t.handles(), vec![1]);
}

#[test]
fn keep_alive_starts_once() {
    let mut c = WslController::new(0);
    let mut t = KeepAliveTable::new();
    let KeepAliveStep::Spawn(plan) = c.start_keep_alive(Some(&mut t), &[], "u") else {
        panic!("no command");
    };
    assert_hidden(&plan, &["-d", "u", "--exec", "sh", "-lc", KEEP_ALIVE_COMMAND], StdioMode::Null);
    assert_eq!(
        KEEP_ALIVE_COMMAND,
        "trap 'exit 0' TERM INT; while true; do sleep 2147483647 & wait $!; done"
    );
    let (refresh, replaced) = c.keep_alive_spawned(Some(&mut t), "u", Ok(7));
    assert!(refresh && replaced.is_empty());
    assert_eq!(c.last_action, "已接管 u 后台保活");
    assert!(WslController::keep_alive_running(Some(&t), "u"));
    assert!(!WslController::keep_alive_running(Some(&t), "v"));
    assert!(!WslController::keep_alive_running(None, "u"));

    let step = c.start_keep_alive(Some(&mut t), &[8], "u");
    assert!(matches!(step, KeepAliveStep::Done));
    assert_eq!(c.last_action, "u 的后台保活已经在运行");
    let step = c.start_keep_alive(Some(&mut t), &[7], "u");
    assert!(matches!(step, KeepAliveStep::Spawn(_)));
    assert!(t.handles().is_empty());
}

#[test]
fn keep_alive_can_fail() {
    let mut c = WslController::new(0);
    let mut t = KeepAliveTable::new();
    let (refresh, replaced) = c.keep_alive_spawned(Some(&mut t), "u", Err("gone".to_string()));
    assert!(!refresh && replaced.is_empty());
    assert_eq!(c.last_error.as_deref(), Some("保活 u 失败：gone"));
    assert!(t.handles().is_empty());
    let (refresh, _) = c.keep_alive_spawned(None, "u", Ok(1));
    assert!(refresh);
    assert_eq!(c.last_error, None);
}

#[test]
fn a_process_gives_way_to_its_successor() {
    let mut t = table(&[("a", 1), ("b", 2)]);
    assert_eq!(t.insert("a", 3), vec![1]);
    assert_eq!(t.handles(), vec![2, 3]);
    assert!(t.remove("x").is_empty());
    assert_eq!(t.remove("b"), vec![2]);
    assert!(!t.contains("b"));
    assert!(t.contains("a"));
    assert_eq!(t.drain(), vec![3]);
    assert!(t.drain().is_empty());
}

#[test]
fn a_task_excludes_only_itself() {
    let mut c = WslController::new(0);
    let mut tasks = TaskTable::new();
    let plan = c.start_distro(Some(&mut tasks), "u").unwrap();
    assert_eq!(plan.key, "start:u");
    assert!(plan.kill.is_empty());
    assert_hidden(&plan.command, &["-d", "u", "--exec", "true"], StdioMode::Null);
    assert_eq!(c.last_action, "正在启动 u");
    assert!(WslController::task_running(Some(&tasks), "start:u"));
    assert!(!WslController::task_running(None, "start:u"));

    assert!(c.start_distro(Some(&mut tasks), "u").is_none());
    assert_eq!(c.last_action, "启动 u 正在执行");
    assert!(c.start_distro(Some(&mut tasks), "v").is_some());
    assert!(c.terminate_distro(Some(&mut tasks), None, "u").is_some());

    WslController::finish_task(Some(&mut tasks), &plan.key);
    WslController::finish_task(None, "start:v");
    assert!(c.start_distro(Some(&mut tasks), "u").is_some());
    assert!(c.start_distro(Some(&mut tasks), "v").is_none());
}

#[test]
fn without_the_table_no_task_begins() {
    let mut c = WslController::new(0);
    c.fail("x".to_string());
    assert!(c.start_distro(None, "u").is_none());
    assert_eq!(c.last_error, None);
    assert_eq!(c.last_action, "启动 u 正在执行");
    let mut t = table(&[("u", 1)]);
    assert!(c.terminate_distro(None, Some(&mut t), "u").is_none());
    assert!(c.shutdown_all(None, Some(&mut t)).is_none());
    assert_eq!(c.last_action, "关闭全部 WSL 正在执行");
    assert_eq!(t.handles(), vec![1]);
}

#[test]
fn stopping_one_distribution_spares_the_others() {
    let mut c = WslController::new(0);
    let mut tasks = TaskTable::new();
    let mut t = table(&[("u", 1), ("v", 2)]);
    let plan = c.terminate_distro(Some(&mut tasks), Some(&mut t), "u").unwrap();
    assert_eq!(plan.key, "terminate:u");
    assert_eq!(plan.kill, vec![1]);
    assert_hidden(&plan.command, &["--terminate", "u"], StdioMode::Null);
    assert_eq!(c.last_action, "正在关闭 u");
    assert_eq!(t.handles(), vec![2]);
}

#[test]
fn stopping_all_kills_every_process() {
    let mut c = WslController::new(0);
    let mut tasks = TaskTable::new();
    let mut t = table(&[("u", 1), ("v", 2)]);
    let plan = c.shutdown_all(Some(&mut tasks), Some(&mut t)).unwrap();
    assert_eq!(plan.key, "shutdown_all");
    assert_eq!(plan.kill, vec![1, 2]);
    assert_hidden(&plan.command, &["--shutdown"], StdioMode::Null);
    assert_eq!(shutdown_command().args, plan.command.args);
    assert_eq!(c.last_action, "正在关闭全部 WSL");
    assert!(t.handles().is_empty());
    assert!(WslController::kill_all_keep_alive(None).is_empty());
    assert!(WslController::kill_keep_alive(None, "u").is_empty());
}

#[test]
fn tasks_report_success_and_failure() {
    let start = TaskKind::Start { distro: "u".to_string() };
    let close = TaskKind::Terminate { distro: "u".to_string() };
    let ok = RunOutcome::Exited { success: true, status: "exit code: 0".to_string() };
    let bad = RunOutcome::Exited { success: false, status: "exit code: 1".to_string() };
    let lost = RunOutcome::NotRun { error: "no file".to_string() };
    assert_eq!(start.report(&ok), Ok("已启动 u".to_string()));
    assert_eq!(start.report(&bad), Err("启动 u 失败，退出码：exit code: 1".to_string()));
    assert_eq!(start.report(&lost), Err("启动 u 失败：no file".to_string()));
    assert_eq!(close.report(&ok), Ok("已关闭 u".to_string()));
    assert_eq!(close.report(&bad), Err("关闭 u 失败，退出码：exit code: 1".to_string()));
    assert_eq!(close.report(&lost), Err("关闭 u 失败：no file".to_string()));
    let all = TaskKind::ShutdownAll;
    assert_eq!(all.report(&ok), Ok("已关闭全部 WSL 发行版".to_string()));
    assert_eq!(all.report(&bad), Err("关闭全部 WSL 失败，退出码：exit code: 1".to_string()));
    assert_eq!(all.report(&lost), Err("关闭全部 WSL 失败：no file".to_string()));
}

#[test]
fn a_successful_reading_hides_a_reported_error() {
    let mut c = WslController::new(0);
    c.task_finished(Err("bad".to_string()));
    assert_eq!(c.last_error.as_deref(), Some("bad"));
    c.refresh_distros(None, &[], Ok(Vec::new()));
    assert_eq!(c.last_error, None);
    c.task_finished(Ok("good".to_string()));
    assert_eq!(c.last_action, "good");
}

#[test]
fn a_shell_opens_in_the_terminal_or_a_console() {
    let mut c = WslController::new(0);
    let first = WslController::open_shell_window("u");
    assert_eq!(first.program, "wt.exe");
    assert_eq!(first.args, ["new-tab", "--title", "WSL - u", "wsl.exe", "-d", "u"]);
    assert_eq!(first.stdio, StdioMode::Inherit);
    assert_eq!(first.creation_flags, 0);
    assert!(c.terminal_tried("u", true).is_none());
    assert_eq!(c.last_action, "已打开 u Shell");

    let second = c.terminal_tried("v", false).unwrap();
    assert_eq!(second.program, "cmd.exe");
    assert_eq!(second.args, ["/C", "start", "", "wsl.exe", "-d", "v"]);
    assert_eq!(c.last_action, "已打开 u Shell");
    c.console_tried("v", Err("no".to_string()));
    assert_eq!(c.last_error.as_deref(), Some("打开 v Shell 失败：no"));
    c.console_tried("v", Ok(()));
    assert_eq!(c.last_action, "已打开 v Shell");
    assert_eq!(c.last_error, None);
}

#[test]
fn marking_a_task_names_it() {
    let mut c = WslController::new(0);
    let mut tasks = TaskTable::new();
    assert!(c.mark_task(Some(&mut tasks), "k".to_string(), "L"));
    assert_eq!(c.last_action, "");
    assert!(!c.mark_task(Some(&mut tasks), "k".to_string(), "L"));
    assert_eq!(c.last_action, "L 正在执行");
    tasks.finish("k");
    assert!(!tasks.contains("k"));
    assert!(!tasks.begin("k".to_string()));
    assert!(tasks.begin("k".to_string()));
}
