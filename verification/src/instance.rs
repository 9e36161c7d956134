//! One kcptun configuration and the client process that runs it.
//!
//! The process itself lives outside the library: the library decides, and
//! hands back an [`Action`] for the caller to perform (start a process,
//! kill one); the caller reports what happened (the new process's id, each
//! line the process writes).

use crate::cmd::{client_command, command_for, ClientCommand, CommandView};
use crate::text::{bool_display, bool_text, decimal, decimal_text};
use crate::uid::{hyphenated, is_random_uuid, new_uid, uid_text};
use vstd::prelude::*;

verus! {

/// A configuration tab: its identifier, the path of its kcptun configuration
/// file (empty when none is chosen), whether its client runs, whether a
/// start of its client has been asked for and not yet reported, the id of
/// the client process, and the lines the client has written so far.
#[derive(Debug)]
pub struct Instance {
    pub uid: u128,
    pub path: String,
    pub running: bool,
    pub starting: bool,
    pub cmd: Option<u32>,
    pub logs: Vec<String>,
}

pub struct InstanceView {
    pub uid: u128,
    pub path: Seq<char>,
    pub running: bool,
    pub starting: bool,
    pub cmd: Option<u32>,
    pub logs: Seq<Seq<char>>,
}

impl View for Instance {
    type V = InstanceView;

    open spec fn view(&self) -> InstanceView {
        InstanceView {
            uid: self.uid,
            path: self.path@,
            running: self.running,
            starting: self.starting,
            cmd: self.cmd,
            logs: self.logs@.map_values(|l: String| l@),
        }
    }
}

/// What the caller is to do after a decision.
#[derive(Debug)]
pub enum Action {
    /// Nothing.
    Nothing,
    /// Start this process; report its id with [`Instance::spawn_finished`].
    Spawn(ClientCommand),
    /// Kill the process with this id.
    Kill(u32),
}

pub enum ActionView {
    Nothing,
    Spawn(CommandView),
    Kill(u32),
}

impl View for Action {
    type V = ActionView;

    open spec fn view(&self) -> ActionView {
        match self {
            Action::Nothing => ActionView::Nothing,
            Action::Spawn(c) => ActionView::Spawn(c@),
            Action::Kill(pid) => ActionView::Kill(*pid),
        }
    }
}

/// A new instance with identifier `uid`: no configuration, not running.
pub open spec fn fresh_instance(uid: u128) -> InstanceView {
    InstanceView {
        uid,
        path: Seq::empty(),
        running: false,
        starting: false,
        cmd: None,
        logs: Seq::empty(),
    }
}

impl InstanceView {
    /// The flag `running` is set exactly when a client process is held, and
    /// no start is pending while the client runs.
    pub open spec fn is_consistent(self) -> bool {
        &&& self.running == self.cmd is Some
        &&& !(self.running && self.starting)
    }

    /// The instance after its client is stopped: no process, not running, no
    /// start pending, log cleared; identifier and configuration kept.
    pub open spec fn stopped(self) -> InstanceView {
        InstanceView { running: false, starting: false, cmd: None, logs: Seq::empty(), ..self }
    }

    /// Whether a start request would start the client: it neither runs nor
    /// is being started.
    pub open spec fn can_start(self) -> bool {
        !self.running && !self.starting
    }

    /// The instance after a start request: a start is pending when one could
    /// be made, else nothing changes.
    pub open spec fn after_run(self) -> InstanceView {
        if self.can_start() {
            InstanceView { starting: true, ..self }
        } else {
            self
        }
    }

    /// The instance after the caller reports the outcome of a start: with a
    /// start pending, the new process (if any) becomes the running client and
    /// the start is no longer pending; with none pending, nothing changes.
    pub open spec fn after_spawn(self, pid: Option<u32>) -> InstanceView {
        if self.starting {
            match pid {
                Some(p) => InstanceView { running: true, starting: false, cmd: Some(p), ..self },
                None => InstanceView { starting: false, ..self },
            }
        } else {
            self
        }
    }

    /// What reporting a start asks of the caller: a process started while no
    /// start was pending (it was stopped meanwhile) is to be killed.
    pub open spec fn spawn_action(self, pid: Option<u32>) -> ActionView {
        match pid {
            Some(p) => if self.starting {
                ActionView::Nothing
            } else {
                ActionView::Kill(p)
            },
            None => ActionView::Nothing,
        }
    }

    /// What stopping asks of the caller: kill the held process, if any.
    pub open spec fn kill_action(self) -> ActionView {
        match self.cmd {
            Some(pid) => ActionView::Kill(pid),
            None => ActionView::Nothing,
        }
    }

    /// What starting asks of the caller: nothing when the client runs or is
    /// being started, else start the client on this configuration.
    pub open spec fn run_action(self, os: Seq<char>) -> ActionView {
        if self.can_start() {
            ActionView::Spawn(client_command(os, self.path))
        } else {
            ActionView::Nothing
        }
    }
}

/// The tab's title, `#<order>`, where `order` is the tab's index plus one.
pub open spec fn tab_title(order: nat) -> Seq<char> {
    "#"@ + decimal(order)
}

/// The status line of a tab.
pub open spec fn tab_status(ins: InstanceView, order: nat) -> Seq<char> {
    if ins.path.len() == 0 {
        "[#"@ + decimal(order) + "] Please specify your config."@
    } else {
        "Path: "@ + ins.path + ". Running: "@ + bool_text(ins.running)
    }
}

/// The label of the button that picks a configuration file.
pub open spec fn select_label(ins: InstanceView) -> Seq<char> {
    if ins.path.len() == 0 { "Select"@ } else { "Re-Select"@ }
}

/// The label of the button that removes the configuration; shown only when
/// there is one.
pub open spec fn remove_label(ins: InstanceView, order: nat) -> Option<Seq<char>> {
    if ins.path.len() == 0 { None } else { Some("Remove Config #"@ + decimal(order)) }
}

/// The label of the button that starts or stops the client; shown only when
/// there is a configuration.
pub open spec fn toggle_label(ins: InstanceView) -> Option<Seq<char>> {
    if ins.path.len() == 0 {
        None
    } else if ins.running {
        Some("Stop"@)
    } else {
        Some("Run"@)
    }
}

/// What a configuration tab shows.
pub struct TabUi {
    pub title: String,
    pub status_text: String,
    pub select_label: String,
    pub remove_label: Option<String>,
    pub toggle_label: Option<String>,
    /// Identifier of the child window that lists the log.
    pub window_id: String,
}

pub open spec fn opt_text(o: Option<String>) -> Option<Seq<char>> {
    match o {
        Some(s) => Some(s@),
        None => None,
    }
}

/// A click in a configuration tab.
pub enum TabEvent {
    /// The select button; the file the user picked, if any.
    Select(Option<String>),
    /// The remove button.
    Remove,
    /// The run / stop button.
    Toggle,
}

/// What the main window does after a click in a tab, in this order.
pub enum AfterClick {
    /// Nothing more.
    Nothing,
    /// Save the settings.
    Save,
    /// Remove the tab from the list, then save the settings.
    RemoveTabThenSave,
}

/// What the caller is to do after a click in a tab: first the action on the
/// client, then what follows in the main window.
pub struct TabOutcome {
    pub action: Action,
    pub after: AfterClick,
}

impl Default for Instance {
    /// The instance with the nil identifier, no configuration, not running.
    fn default() -> (ins: Instance)
        ensures
            ins@ == fresh_instance(0),
    {
        Instance::from_uid(0)
    }
}

impl Instance {
    /// An instance with identifier `uid`, no configuration, not running.
    pub fn from_uid(uid: u128) -> (ins: Instance)
        ensures
            ins@ == fresh_instance(uid),
    {
        let ins = Instance {
            uid,
            path: String::new(),
            running: false,
            starting: false,
            cmd: None,
            logs: Vec::new(),
        };
        assert(ins@.logs =~= Seq::<Seq<char>>::empty());
        ins
    }

    /// A new instance with a random identifier.
    pub fn new() -> (ins: Instance)
        ensures
            ins@ == fresh_instance(ins.uid),
            is_random_uuid(ins.uid),
    {
        Instance::from_uid(new_uid())
    }

    /// Sets the configuration path.
    pub fn update_config(&mut self, path: &String)
        ensures
            final(self)@ == (InstanceView { path: path@, ..old(self)@ }),
    {
        if path.eq(&self.path) {
            return;
        }
        self.path = path.clone();
    }

    /// Decides whether to start the client: nothing when it runs or a start
    /// is pending, else the command for this configuration under `os`, and
    /// the start is then pending until [`Instance::spawn_finished`].
    pub fn run(&mut self, os: &str) -> (action: Action)
        ensures
            action@ == old(self)@.run_action(os@),
            final(self)@ == old(self)@.after_run(),
            old(self)@.is_consistent() ==> final(self)@.is_consistent(),
    {
        if self.running || self.starting {
            Action::Nothing
        } else {
            self.starting = true;
            Action::Spawn(command_for(os, self.path.as_str()))
        }
    }

    /// Records the outcome of starting the client: the id of the new process,
    /// or `None` when it could not be started. A process that arrives when no
    /// start is pending (the client was stopped meanwhile) is not kept: the
    /// caller is asked to kill it.
    pub fn spawn_finished(&mut self, pid: Option<u32>) -> (action: Action)
        ensures
            action@ == old(self)@.spawn_action(pid),
            final(self)@ == old(self)@.after_spawn(pid),
            old(self)@.is_consistent() ==> final(self)@.is_consistent(),
    {
        if !self.starting {
            return match pid {
                Some(p) => Action::Kill(p),
                None => Action::Nothing,
            };
        }
        self.starting = false;
        if let Some(p) = pid {
            self.cmd = Some(p);
            self.running = true;
        }
        Action::Nothing
    }

    /// Appends a line that the client wrote.
    pub fn push_log(&mut self, line: String)
        ensures
            final(self)@ == (InstanceView { logs: old(self)@.logs.push(line@), ..old(self)@ }),
    {
        self.logs.push(line);
        assert(self@.logs =~= old(self)@.logs.push(line@));
    }

    /// Stops the client: forgets its process (asking the caller to kill it),
    /// clears the flag and the log.
    pub fn kill(&mut self) -> (action: Action)
        ensures
            action@ == old(self)@.kill_action(),
            final(self)@ == old(self)@.stopped(),
            final(self)@.is_consistent(),
    {
        let action = match self.cmd {
            Some(pid) => Action::Kill(pid),
            None => Action::Nothing,
        };
        self.cmd = None;
        self.running = false;
        self.starting = false;
        self.logs = Vec::new();
        assert(self@.logs =~= Seq::<Seq<char>>::empty());
        action
    }

    /// Applies the file that the user picked: when there is one, stops the
    /// client and takes the file as the configuration; else nothing changes.
    pub fn update_config_path(&mut self, picked: Option<String>) -> (action: Action)
        ensures
            match picked {
                Some(f) => {
                    &&& action@ == old(self)@.kill_action()
                    &&& final(self)@ == (InstanceView { path: f@, ..old(self)@.stopped() })
                },
                None => action@ == ActionView::Nothing && final(self)@ == old(self)@,
            },
            old(self)@.is_consistent() ==> final(self)@.is_consistent(),
    {
        match picked {
            Some(f) => {
                let action = self.kill();
                self.path = f;
                action
            },
            None => Action::Nothing,
        }
    }

    /// Stops the client and forgets the configuration.
    pub fn remove_config(&mut self) -> (action: Action)
        ensures
            action@ == old(self)@.kill_action(),
            final(self)@ == (InstanceView { path: Seq::empty(), ..old(self)@.stopped() }),
            final(self)@.is_consistent(),
    {
        let action = self.kill();
        self.path = String::new();
        action
    }

    /// Stops the client when it runs, else asks to start it.
    pub fn toggle_status(&mut self, os: &str) -> (action: Action)
        ensures
            old(self)@.running ==> action@ == old(self)@.kill_action() && final(self)@
                == old(self)@.stopped(),
            !old(self)@.running ==> action@ == old(self)@.run_action(os@) && final(self)@
                == old(self)@.after_run(),
            old(self)@.is_consistent() ==> final(self)@.is_consistent(),
    {
        if self.running {
            self.kill()
        } else {
            self.run(os)
        }
    }

    /// What the tab at index `idx` shows for this instance.
    pub fn make_tab_ui(&self, idx: u8) -> (ui: TabUi)
        requires
            idx < 255,
        ensures
            ui.title@ == tab_title((idx + 1) as nat),
            ui.status_text@ == tab_status(self@, (idx + 1) as nat),
            ui.select_label@ == select_label(self@),
            opt_text(ui.remove_label) == remove_label(self@, (idx + 1) as nat),
            opt_text(ui.toggle_label) == toggle_label(self@),
            ui.window_id@ == hyphenated(self.uid),
    {
        let order = idx + 1;
        let number = decimal_text(order as u32);
        let title = String::from_str("#").concat(number.as_str());
        let empty = self.path.as_str().is_empty();
        let status_text = if empty {
            String::from_str("[#").concat(number.as_str()).concat("] Please specify your config.")
        } else {
            let shown = bool_display(self.running);
            String::from_str("Path: ").concat(self.path.as_str()).concat(". Running: ").concat(
                shown.as_str(),
            )
        };
        let select_label = if empty {
            String::from_str("Select")
        } else {
            String::from_str("Re-Select")
        };
        let remove_label = if empty {
            None
        } else {
            Some(String::from_str("Remove Config #").concat(number.as_str()))
        };
        let toggle_label = if empty {
            None
        } else if self.running {
            Some(String::from_str("Stop"))
        } else {
            Some(String::from_str("Run"))
        };
        let window_id = uid_text(self.uid);
        TabUi { title, status_text, select_label, remove_label, toggle_label, window_id }
    }

    /// Handles a click in this instance's tab.
    pub fn handle_tab_event(&mut self, event: TabEvent, os: &str) -> (out: TabOutcome)
        ensures
            match event {
                TabEvent::Select(picked) => {
                    &&& out.after is Save
                    &&& match picked {
                        Some(f) => {
                            &&& out.action@ == old(self)@.kill_action()
                            &&& final(self)@ == (InstanceView { path: f@, ..old(self)@.stopped() })
                        },
                        None => out.action@ == ActionView::Nothing && final(self)@ == old(self)@,
                    }
                },
                TabEvent::Remove => {
                    &&& out.after is RemoveTabThenSave
                    &&& out.action@ == old(self)@.kill_action()
                    &&& final(self)@ == (InstanceView { path: Seq::empty(), ..old(self)@.stopped() })
                },
                TabEvent::Toggle => {
                    &&& out.after is Nothing
                    &&& old(self)@.running ==> out.action@ == old(self)@.kill_action() && final(self)@
                        == old(self)@.stopped()
                    &&& !old(self)@.running ==> out.action@ == old(self)@.run_action(os@)
                        && final(self)@ == old(self)@.after_run()
                },
            },
            old(self)@.is_consistent() ==> final(self)@.is_consistent(),
    {
        match event {
            TabEvent::Select(picked) => {
                let action = self.update_config_path(picked);
                TabOutcome { action, after: AfterClick::Save }
            },
            TabEvent::Remove => {
                let action = self.remove_config();
                TabOutcome { action, after: AfterClick::RemoveTabThenSave }
            },
            TabEvent::Toggle => {
                let action = self.toggle_status(os);
                TabOutcome { action, after: AfterClick::Nothing }
            },
        }
    }
}

} // verus!
