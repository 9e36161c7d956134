use kcptun_ui::instance::{Action, Instance, TabEvent};
use kcptun_ui::tab::{config_tab_event, make_config_tab};
use std::collections::HashMap;

#[test]
fn config_tab_without_instance() {
    let map: HashMap<u8, Instance> = HashMap::new();
    let ui = make_config_tab(2, &map);
    assert_eq!(ui.title, "Config #3");
    assert_eq!(ui.status_text, "Please specify your config.");
    assert_eq!(ui.select_label, "Select");
    assert!(ui.remove_label.is_none() && ui.toggle_label.is_none() && ui.window_id.is_none());
}

#[test]
fn config_tab_with_instance() {
    let mut map: HashMap<u8, Instance> = HashMap::new();
    map.insert(0, Instance::from_uid(0xff));
    let ui = make_config_tab(0, &map);
    assert_eq!(ui.title, "Config #1");
    assert_eq!(ui.status_text, "Please specify your config.");
    assert_eq!(ui.toggle_label, Some("Run".to_string()));
    assert!(ui.remove_label.is_none());
    assert_eq!(ui.window_id, Some("00000000-0000-0000-0000-0000000000ff".to_string()));
    map.get_mut(&0).unwrap().update_config(&"k.json".to_string());
    map.get_mut(&0).unwrap().run("linux");
    map.get_mut(&0).unwrap().spawn_finished(Some(5));
    let ui = make_config_tab(0, &map);
    assert_eq!(ui.status_text, "Path: k.json. Running: true");
    assert_eq!(ui.select_label, "Re-Select");
    assert_eq!(ui.remove_label, Some("Remove Config #1".to_string()));
    assert_eq!(ui.toggle_label, Some("Stop".to_string()));
}

#[test]
fn config_tab_events() {
    let mut map: HashMap<u8, Instance> = HashMap::new();
    assert!(matches!(config_tab_event(1, &mut map, TabEvent::Toggle, "linux", 9), Action::Nothing));
    assert!(map.is_empty());
    let a = config_tab_event(1, &mut map, TabEvent::Select(Some("f.json".to_string())), "linux", 9);
    assert!(matches!(a, Action::Nothing));
    assert_eq!(map[&1].path, "f.json");
    assert_eq!(map[&1].uid, 9);
    let a = config_tab_event(1, &mut map, TabEvent::Toggle, "linux", 0);
    assert!(matches!(a, Action::Spawn(_)));
    map.get_mut(&1).unwrap().run("linux");
    map.get_mut(&1).unwrap().spawn_finished(Some(6));
    let a = config_tab_event(1, &mut map, TabEvent::Remove, "linux", 0);
    assert!(matches!(a, Action::Kill(6)));
    assert!(map[&1].path.is_empty());
}
