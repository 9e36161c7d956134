use kcptun_ui::cmd::{client_binary_path, command_for};
use kcptun_ui::instance::{Action, AfterClick, Instance, TabEvent};
use kcptun_ui::text::{bool_display, decimal_text};

fn spawned_args(a: &Action) -> Vec<String> {
    match a {
        Action::Spawn(c) => c.args.clone(),
        _ => panic!("expected a spawn request"),
    }
}

#[test]
fn decimal_text_writes_numbers() {
    assert_eq!(decimal_text(0), "0");
    assert_eq!(decimal_text(7), "7");
    assert_eq!(decimal_text(10), "10");
    assert_eq!(decimal_text(255), "255");
    assert_eq!(decimal_text(4294967295), "4294967295");
}

#[test]
fn bool_display_matches_std() {
    assert_eq!(bool_display(true), true.to_string());
    assert_eq!(bool_display(false), false.to_string());
}

#[test]
fn client_binary_per_os() {
    assert_eq!(client_binary_path("windows"), "./client_windows_amd64.exe");
    assert_eq!(client_binary_path("macos"), "./client_darwin_amd64");
    assert_eq!(client_binary_path("linux"), "./client_linux_amd64");
    assert_eq!(client_binary_path("freebsd"), "./client_linux_amd64");
}

#[test]
fn command_runs_client_on_config() {
    let c = command_for("linux", "./config.json");
    assert_eq!(c.program, "./client_linux_amd64");
    assert_eq!(c.args, vec!["-c".to_string(), "./config.json".to_string()]);
    assert!(!c.hide_console);
    let w = command_for("windows", "a.json");
    assert_eq!(w.program, "./client_windows_amd64.exe");
    assert!(w.hide_console);
}

#[test]
fn new_instance_is_empty_and_random() {
    let a = Instance::new();
    let b = Instance::new();
    assert!(a.path.is_empty());
    assert!(!a.running);
    assert!(a.cmd.is_none());
    assert!(a.logs.is_empty());
    assert_ne!(a.uid, b.uid);
    // version 4, RFC 4122 variant
    assert_eq!((a.uid >> 76) & 0xf, 4);
    assert_eq!((a.uid >> 62) & 0x3, 2);
}

#[test]
fn update_config_sets_path() {
    let mut ins = Instance::from_uid(1);
    ins.update_config(&"a.json".to_string());
    assert_eq!(ins.path, "a.json");
    ins.update_config(&"a.json".to_string());
    assert_eq!(ins.path, "a.json");
    ins.update_config(&"b.json".to_string());
    assert_eq!(ins.path, "b.json");
    assert_eq!(ins.uid, 1);
}

#[test]
fn run_spawn_log_kill_cycle() {
    let mut ins = Instance::from_uid(5);
    ins.update_config(&"c.json".to_string());
    let a = ins.run("linux");
    assert_eq!(spawned_args(&a), vec!["-c".to_string(), "c.json".to_string()]);
    assert!(ins.starting);
    // a second start while the first is under way does nothing
    assert!(matches!(ins.run("linux"), Action::Nothing));
    // a failed start leaves the client stopped
    assert!(matches!(ins.spawn_finished(None), Action::Nothing));
    assert!(!ins.running && !ins.starting && ins.cmd.is_none());
    assert!(matches!(ins.run("linux"), Action::Spawn(_)));
    assert!(matches!(ins.spawn_finished(Some(4242)), Action::Nothing));
    assert!(!ins.starting);
    assert!(ins.running);
    assert_eq!(ins.cmd, Some(4242));
    assert!(matches!(ins.run("linux"), Action::Nothing));
    ins.push_log("line one".to_string());
    ins.push_log("line two".to_string());
    assert_eq!(ins.logs, vec!["line one".to_string(), "line two".to_string()]);
    let k = ins.kill();
    assert!(matches!(k, Action::Kill(4242)));
    assert!(!ins.running);
    assert!(ins.cmd.is_none());
    assert!(ins.logs.is_empty());
    assert_eq!(ins.path, "c.json");
    // kill then run restarts on the same configuration
    assert_eq!(spawned_args(&ins.run("linux")), vec!["-c".to_string(), "c.json".to_string()]);
    assert!(matches!(ins.kill(), Action::Nothing));
}

#[test]
fn process_started_after_stop_is_killed() {
    let mut ins = Instance::from_uid(6);
    ins.update_config(&"d.json".to_string());
    assert!(matches!(ins.run("linux"), Action::Spawn(_)));
    // stopped while the start is under way
    assert!(matches!(ins.kill(), Action::Nothing));
    assert!(!ins.starting);
    assert!(matches!(ins.spawn_finished(Some(31)), Action::Kill(31)));
    assert!(!ins.running && ins.cmd.is_none());
}

#[test]
fn update_config_path_picked_and_cancelled() {
    let mut ins = Instance::from_uid(9);
    ins.update_config(&"old.json".to_string());
    ins.run("linux");
    ins.spawn_finished(Some(11));
    assert!(matches!(ins.update_config_path(None), Action::Nothing));
    assert_eq!(ins.path, "old.json");
    assert!(ins.running);
    assert!(matches!(ins.update_config_path(Some("new.json".to_string())), Action::Kill(11)));
    assert_eq!(ins.path, "new.json");
    assert!(!ins.running && ins.cmd.is_none());
}

#[test]
fn remove_config_clears_path() {
    let mut ins = Instance::from_uid(9);
    ins.update_config(&"x.json".to_string());
    ins.run("linux");
    ins.spawn_finished(Some(3));
    ins.push_log("hello".to_string());
    assert!(matches!(ins.remove_config(), Action::Kill(3)));
    assert!(ins.path.is_empty());
    assert!(ins.logs.is_empty());
    assert!(!ins.running);
}

#[test]
fn toggle_status_alternates() {
    let mut ins = Instance::from_uid(2);
    ins.update_config(&"t.json".to_string());
    let a = ins.toggle_status("macos");
    match &a {
        Action::Spawn(c) => assert_eq!(c.program, "./client_darwin_amd64"),
        _ => panic!("expected a spawn request"),
    }
    assert!(!ins.running);
    ins.run("linux");
    ins.spawn_finished(Some(77));
    assert!(matches!(ins.toggle_status("macos"), Action::Kill(77)));
    assert!(!ins.running);
}

#[test]
fn tab_ui_without_config() {
    let ins = Instance::from_uid(0x67e55044_10b1_426f_9247_bb680e5fe0c8);
    let ui = ins.make_tab_ui(0);
    assert_eq!(ui.title, "#1");
    assert_eq!(ui.status_text, "[#1] Please specify your config.");
    assert_eq!(ui.select_label, "Select");
    assert!(ui.remove_label.is_none());
    assert!(ui.toggle_label.is_none());
    assert_eq!(ui.window_id, "67e55044-10b1-426f-9247-bb680e5fe0c8");
}

#[test]
fn tab_ui_with_config() {
    let mut ins = Instance::from_uid(0);
    ins.update_config(&"/etc/kcp.json".to_string());
    let ui = ins.make_tab_ui(11);
    assert_eq!(ui.title, "#12");
    assert_eq!(ui.status_text, "Path: /etc/kcp.json. Running: false");
    assert_eq!(ui.select_label, "Re-Select");
    assert_eq!(ui.remove_label, Some("Remove Config #12".to_string()));
    assert_eq!(ui.toggle_label, Some("Run".to_string()));
    assert_eq!(ui.window_id, "00000000-0000-0000-0000-000000000000");
    ins.run("linux");
    ins.spawn_finished(Some(1));
    let ui = ins.make_tab_ui(254);
    assert_eq!(ui.title, "#255");
    assert_eq!(ui.status_text, "Path: /etc/kcp.json. Running: true");
    assert_eq!(ui.toggle_label, Some("Stop".to_string()));
}

#[test]
fn tab_events() {
    let mut ins = Instance::from_uid(4);
    let out = ins.handle_tab_event(TabEvent::Select(None), "linux");
    assert!(matches!(out.after, AfterClick::Save));
    assert!(matches!(out.action, Action::Nothing));
    let out = ins.handle_tab_event(TabEvent::Select(Some("p.json".to_string())), "linux");
    assert!(matches!(out.after, AfterClick::Save));
    assert_eq!(ins.path, "p.json");
    let out = ins.handle_tab_event(TabEvent::Toggle, "linux");
    assert!(matches!(out.after, AfterClick::Nothing));
    assert!(matches!(out.action, Action::Spawn(_)));
    ins.run("linux");
    ins.spawn_finished(Some(8));
    let out = ins.handle_tab_event(TabEvent::Remove, "linux");
    assert!(matches!(out.after, AfterClick::RemoveTabThenSave));
    assert!(matches!(out.action, Action::Kill(8)));
    assert!(ins.path.is_empty());
}
