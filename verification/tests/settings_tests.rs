use kcptun_ui::instance::Action;
use kcptun_ui::settings::{config_file_of, load_settings, settings_from_file, ConfigFile, SettingsFile};

fn file(paths: &[&str], auto: bool, silent: bool) -> ConfigFile {
    ConfigFile {
        file_paths: paths.iter().map(|p| p.to_string()).collect(),
        auto_launch_kcptun: auto,
        silent_start: silent,
    }
}

#[test]
fn load_skips_empty_paths() {
    let f = file(&["a.json", "", "b.json"], true, false);
    let s = settings_from_file(&f, &vec![30, 20, 10]);
    assert!(s.auto_launch_kcptun);
    assert!(!s.silent_start);
    assert_eq!(s.configs.len(), 2);
    assert_eq!(s.configs[&30].path, "a.json");
    assert_eq!(s.configs[&30].uid, 30);
    assert_eq!(s.configs[&10].path, "b.json");
    assert!(!s.configs.contains_key(&20));
    for (k, ins) in s.configs.iter() {
        assert_eq!(*k, ins.uid);
        assert!(!ins.running && ins.cmd.is_none() && ins.logs.is_empty());
    }
}

#[test]
fn load_without_paths_gives_one_empty_tab() {
    let f = file(&[], false, true);
    let s = settings_from_file(&f, &vec![5]);
    assert_eq!(s.configs.len(), 1);
    assert!(s.configs[&5].path.is_empty());
    assert!(s.silent_start);
}

#[test]
fn load_with_only_empty_paths_gives_no_tab() {
    let f = file(&["", ""], false, false);
    let s = settings_from_file(&f, &vec![1, 2]);
    assert_eq!(s.configs.len(), 0);
}

#[test]
fn load_settings_outcomes() {
    let s = load_settings(SettingsFile::Unreadable);
    assert!(s.configs.is_empty());
    assert!(!s.auto_launch_kcptun && !s.silent_start);
    let s = load_settings(SettingsFile::Malformed);
    assert_eq!(s.configs.len(), 1);
    let (k, v) = s.configs.iter().next().unwrap();
    assert_eq!(*k, v.uid);
    assert!(v.path.is_empty());
    let s = load_settings(SettingsFile::Parsed(file(&["x", "y"], true, true)));
    assert_eq!(s.configs.len(), 2);
    assert!(s.auto_launch_kcptun && s.silent_start);
    let mut paths: Vec<String> = s.configs.values().map(|i| i.path.clone()).collect();
    paths.sort();
    assert_eq!(paths, vec!["x".to_string(), "y".to_string()]);
}

#[test]
fn save_orders_by_identifier_and_drops_empty() {
    let f = file(&["a.json", "b.json", "c.json"], false, true);
    let mut s = settings_from_file(&f, &vec![30, 10, 20]);
    s.add_config_with(15, 99);
    let out = config_file_of(&s);
    assert_eq!(out.file_paths, vec!["b.json".to_string(), "c.json".to_string(), "a.json".to_string()]);
    assert!(!out.auto_launch_kcptun);
    assert!(out.silent_start);
}

#[test]
fn save_after_load_keeps_paths_and_flags() {
    let f = file(&["z", "", "z", "y"], true, false);
    let s = settings_from_file(&f, &vec![4, 3, 2, 1]);
    let out = config_file_of(&s);
    assert_eq!(out.file_paths, vec!["y".to_string(), "z".to_string(), "z".to_string()]);
    assert_eq!(out.auto_launch_kcptun, f.auto_launch_kcptun);
    assert_eq!(out.silent_start, f.silent_start);
    let again = config_file_of(&settings_from_file(&out, &vec![7, 8, 9]));
    assert_eq!(again, out);
}

#[test]
fn kill_all_stops_everything() {
    let f = file(&["a", "b", "c"], false, false);
    let mut s = settings_from_file(&f, &vec![3, 1, 2]);
    s.configs.get_mut(&3).unwrap().run("linux");
    s.configs.get_mut(&3).unwrap().spawn_finished(Some(300));
    s.configs.get_mut(&1).unwrap().run("linux");
    s.configs.get_mut(&1).unwrap().spawn_finished(Some(100));
    s.configs.get_mut(&1).unwrap().push_log("x".to_string());
    let pids = s.kill_all();
    assert_eq!(pids, vec![100, 300]);
    for ins in s.configs.values() {
        assert!(!ins.running && ins.cmd.is_none() && ins.logs.is_empty());
    }
    assert_eq!(s.configs[&3].path, "a");
}

#[test]
fn batch_control_start_and_stop() {
    let f = file(&["a", "b", "c"], false, false);
    let mut s = settings_from_file(&f, &vec![3, 1, 2]);
    s.add_config_with(0, 0);
    s.configs.get_mut(&2).unwrap().run("linux");
    s.configs.get_mut(&2).unwrap().spawn_finished(Some(22));
    let starts = s.batch_control(true, "linux");
    let keys: Vec<u128> = starts.iter().map(|r| r.0).collect();
    assert_eq!(keys, vec![1, 3]);
    for (k, a) in starts.iter() {
        match a {
            Action::Spawn(c) => assert_eq!(c.args[1], s.configs[k].path),
            _ => panic!("expected a spawn request"),
        }
    }
    assert!(s.configs[&2].running);
    s.configs.get_mut(&1).unwrap().run("linux");
    s.configs.get_mut(&1).unwrap().spawn_finished(Some(11));
    let stops = s.batch_control(false, "linux");
    assert_eq!(stops.len(), 2);
    assert!(matches!(stops[0], (1, Action::Kill(11))));
    assert!(matches!(stops[1], (2, Action::Kill(22))));
    assert!(s.configs.values().all(|i| !i.running));
}

#[test]
fn auto_launch_only_when_asked() {
    let f = file(&["a", ""], false, false);
    let mut s = settings_from_file(&f, &vec![1, 2]);
    assert!(s.auto_launch(" linux").is_empty());
    let f = file(&["a", "b"], true, false);
    let mut s = settings_from_file(&f, &vec![2, 1]);
    let r = s.auto_launch("windows");
    assert_eq!(r.len(), 2);
    assert!(s.configs.values().all(|i| i.starting && !i.running));
    // the starts are under way: starting again asks for nothing
    assert!(s.batch_control(true, "windows").is_empty());
    assert_eq!(r[0].0, 1);
    match &r[0].1 {
        Action::Spawn(c) => {
            assert_eq!(c.program, "./client_windows_amd64.exe");
            assert_eq!(c.args, vec!["-c".to_string(), "b".to_string()]);
        },
        _ => panic!("expected a spawn request"),
    }
}

#[test]
fn add_and_remove_configs() {
    let f = file(&["a"], false, false);
    let mut s = settings_from_file(&f, &vec![1]);
    s.add_config_with(7, 8);
    assert_eq!(s.configs.len(), 2);
    assert_eq!(s.configs[&7].uid, 8);
    s.remove_config_with(1, 50);
    assert_eq!(s.configs.len(), 1);
    assert!(s.configs.contains_key(&7));
    // the last tab is replaced, not removed
    s.configs.get_mut(&7).unwrap().update_config(&"q".to_string());
    s.remove_config_with(7, 50);
    assert_eq!(s.configs.len(), 1);
    assert_eq!(s.configs[&7].uid, 50);
    assert!(s.configs[&7].path.is_empty());
    s.add_config();
    assert_eq!(s.configs.len(), 2);
    s.remove_config(7);
    assert_eq!(s.configs.len(), 1);
}
