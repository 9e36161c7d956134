//! Configuration tabs at fixed indices: a map from tab index to the
//! instance that the tab holds, if any.

use crate::instance::{
    fresh_instance, opt_text, select_label, Action,
    ActionView, Instance, InstanceView, TabEvent,
};
use crate::text::{bool_display, bool_text, decimal, decimal_text};
use crate::uid::{hyphenated, uid_text};
use std::collections::HashMap;
use vstd::prelude::*;

verus! {

/// What the tab at a fixed index shows.
pub struct ConfigTabUi {
    pub title: String,
    pub status_text: String,
    pub select_label: String,
    pub remove_label: Option<String>,
    pub toggle_label: Option<String>,
    /// Identifier of the child window that lists the log; only when the tab
    /// holds an instance.
    pub window_id: Option<String>,
}

pub open spec fn map_view(m: Map<u8, Instance>) -> Map<u8, InstanceView> {
    m.map_values(|i: Instance| i@)
}

/// The title of the tab: `Config #<order>`.
pub open spec fn config_tab_title(order: nat) -> Seq<char> {
    "Config #"@ + decimal(order)
}

/// The status line of a tab holding `ins`.
pub open spec fn config_tab_status(ins: InstanceView) -> Seq<char> {
    if ins.path.len() == 0 {
        "Please specify your config."@
    } else {
        "Path: "@ + ins.path + ". Running: "@ + bool_text(ins.running)
    }
}

/// The label of the run / stop button of a tab holding `ins` (always shown).
pub open spec fn config_tab_toggle(ins: InstanceView) -> Seq<char> {
    if ins.running { "Stop"@ } else { "Run"@ }
}

/// What the tab at index `tab_index` shows.
pub fn make_config_tab(tab_index: u8, config_map: &HashMap<u8, Instance>) -> (ui: ConfigTabUi)
    requires
        tab_index < 255,
    ensures
        ui.title@ == config_tab_title((tab_index + 1) as nat),
        !config_map@.contains_key(tab_index) ==> {
            &&& ui.status_text@ == "Please specify your config."@
            &&& ui.select_label@ == "Select"@
            &&& ui.remove_label is None
            &&& ui.toggle_label is None
            &&& ui.window_id is None
        },
        config_map@.contains_key(tab_index) ==> {
            let ins = config_map@[tab_index]@;
            &&& ui.status_text@ == config_tab_status(ins)
            &&& ui.select_label@ == select_label(ins)
            &&& opt_text(ui.remove_label) == (if ins.path.len() == 0 {
                None
            } else {
                Some("Remove Config #"@ + decimal((tab_index + 1) as nat))
            })
            &&& opt_text(ui.toggle_label) == Some(config_tab_toggle(ins))
            &&& opt_text(ui.window_id) == Some(hyphenated(ins.uid))
        },
{
    let order = tab_index + 1;
    let number = decimal_text(order as u32);
    let title = String::from_str("Config #").concat(number.as_str());
    match config_map.get(&tab_index) {
        None => ConfigTabUi {
            title,
            status_text: String::from_str("Please specify your config."),
            select_label: String::from_str("Select"),
            remove_label: None,
            toggle_label: None,
            window_id: None,
        },
        Some(ins) => {
            let empty = ins.path.as_str().is_empty();
            let status_text = if empty {
                String::from_str("Please specify your config.")
            } else {
                let shown = bool_display(ins.running);
                String::from_str("Path: ").concat(ins.path.as_str()).concat(". Running: ").concat(
                    shown.as_str(),
                )
            };
            let select_label = if empty {
                String::from_str("Select")
            } else {
                String::from_str("Re-Select")
            };
            let remove_label = if empty {
                None
            } else {
                Some(String::from_str("Remove Config #").concat(number.as_str()))
            };
            let toggle_label = if ins.running {
                Some(String::from_str("Stop"))
            } else {
                Some(String::from_str("Run"))
            };
            ConfigTabUi {
                title,
                status_text,
                select_label,
                remove_label,
                toggle_label,
                window_id: Some(uid_text(ins.uid)),
            }
        },
    }
}

/// Handles a click in the tab at index `tab_index`. A tab without an
/// instance only reacts to a picked file: it gets a new instance, with
/// identifier `uid`, on that file. A tab with an instance handles the click
/// as [`Instance::handle_tab_event`] does, except that the run / stop button
/// is always there.
pub fn config_tab_event(
    tab_index: u8,
    config_map: &mut HashMap<u8, Instance>,
    event: TabEvent,
    os: &str,
    uid: u128,
) -> (action: Action)
    ensures
        !old(config_map)@.contains_key(tab_index) ==> action@ == ActionView::Nothing && match event {
            TabEvent::Select(Some(f)) => map_view(final(config_map)@) == map_view(
                old(config_map)@,
            ).insert(tab_index, InstanceView { path: f@, ..fresh_instance(uid) }),
            _ => map_view(final(config_map)@) == map_view(old(config_map)@),
        },
        old(config_map)@.contains_key(tab_index) ==> {
            let ins = old(config_map)@[tab_index]@;
            let after = map_view(final(config_map)@);
            &&& after.dom() == map_view(old(config_map)@).dom()
            &&& forall|k: u8| k != tab_index && #[trigger] after.contains_key(k) ==> after[k]
                == map_view(old(config_map)@)[k]
            &&& match event {
                TabEvent::Select(Some(f)) => action@ == ins.kill_action() && after[tab_index] == (
                InstanceView { path: f@, ..ins.stopped() }),
                TabEvent::Select(None) => action@ == ActionView::Nothing && after[tab_index] == ins,
                TabEvent::Remove => action@ == ins.kill_action() && after[tab_index] == (
                InstanceView { path: Seq::empty(), ..ins.stopped() }),
                TabEvent::Toggle => if ins.running {
                    action@ == ins.kill_action() && after[tab_index] == ins.stopped()
                } else {
                    action@ == ins.run_action(os@) && after[tab_index] == ins.after_run()
                },
            }
        },
{
    let ghost m0 = config_map@;
    match config_map.remove(&tab_index) {
        None => {
            assert(config_map@ =~= m0);
            match event {
                TabEvent::Select(Some(f)) => {
                    let mut ins = Instance::from_uid(uid);
                    ins.path = f;
                    let ghost v = ins@;
                    config_map.insert(tab_index, ins);
                    assert(map_view(config_map@) =~= map_view(m0).insert(tab_index, v));
                },
                _ => {},
            }
            Action::Nothing
        },
        Some(mut ins) => {
            let out = ins.handle_tab_event(event, os);
            let ghost v = ins@;
            config_map.insert(tab_index, ins);
            assert(map_view(config_map@) =~= map_view(m0).insert(tab_index, v));
            out.action
        },
    }
}

} // verus!
