//! The command line that starts the kcptun client for a configuration.

use vstd::prelude::*;

verus! {

/// A process to start: program, arguments, and whether its console window
/// is to be hidden (the Windows `CREATE_NO_WINDOW` creation flag).
#[derive(Debug)]
pub struct ClientCommand {
    pub program: String,
    pub args: Vec<String>,
    pub hide_console: bool,
}

pub struct CommandView {
    pub program: Seq<char>,
    pub args: Seq<Seq<char>>,
    pub hide_console: bool,
}

impl View for ClientCommand {
    type V = CommandView;

    open spec fn view(&self) -> CommandView {
        CommandView {
            program: self.program@,
            args: self.args@.map_values(|a: String| a@),
            hide_console: self.hide_console,
        }
    }
}

/// The client binary shipped for the operating system named `os`
/// (as `std::env::consts::OS` names it), relative to the working directory.
pub open spec fn client_binary(os: Seq<char>) -> Seq<char> {
    if os == "windows"@ {
        "./client_windows_amd64.exe"@
    } else if os == "macos"@ {
        "./client_darwin_amd64"@
    } else {
        "./client_linux_amd64"@
    }
}

/// The command that runs the client on the configuration at `conf_path`:
/// `<binary> -c <conf_path>`.
pub open spec fn client_command(os: Seq<char>, conf_path: Seq<char>) -> CommandView {
    CommandView {
        program: client_binary(os),
        args: seq!["-c"@, conf_path],
        hide_console: os == "windows"@,
    }
}

fn same_text(a: &str, b: &str) -> (r: bool)
    ensures
        r == (a@ == b@),
{
    let x = String::from_str(a);
    let y = String::from_str(b);
    x == y
}

/// Picks the client binary for `os`.
pub fn client_binary_path(os: &str) -> (p: &'static str)
    ensures
        p@ == client_binary(os@),
{
    if same_text(os, "windows") {
        "./client_windows_amd64.exe"
    } else if same_text(os, "macos") {
        "./client_darwin_amd64"
    } else {
        "./client_linux_amd64"
    }
}

/// Builds the command that starts the client on `conf_path` under `os`.
pub fn command_for(os: &str, conf_path: &str) -> (c: ClientCommand)
    ensures
        c@ == client_command(os@, conf_path@),
{
    let program = String::from_str(client_binary_path(os));
    let mut args: Vec<String> = Vec::new();
    args.push(String::from_str("-c"));
    args.push(String::from_str(conf_path));
    let hide_console = same_text(os, "windows");
    let c = ClientCommand { program, args, hide_console };
    assert(c@.args =~= seq!["-c"@, conf_path@]);
    c
}

} // verus!
