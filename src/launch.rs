//! Which program reveals a folder in the platform's file manager.

use vstd::prelude::*;

verus! {

/// The platforms that have a file manager to reveal a folder in.
#[derive(Clone, Copy, Debug, PartialEq, Eq, Structural)]
pub enum TargetOs {
    MacOs,
    Windows,
    Linux,
}

/// A program to start and the arguments to give it.
pub struct LaunchCommand {
    pub program: &'static str,
    pub args: Vec<String>,
}

pub open spec fn file_manager_program(os: TargetOs) -> Seq<char> {
    match os {
        TargetOs::MacOs => "open"@,
        TargetOs::Windows => "explorer"@,
        TargetOs::Linux => "xdg-open"@,
    }
}

/// The command that opens `folder` in the file manager of `os`: the
/// platform's opener with the folder as its one argument.
pub fn reveal_command(os: TargetOs, folder: String) -> (r: LaunchCommand)
    ensures
        r.program@ == file_manager_program(os),
        r.args@.len() == 1,
        r.args@[0] == folder,
{
    let program = match os {
        TargetOs::MacOs => "open",
        TargetOs::Windows => "explorer",
        TargetOs::Linux => "xdg-open",
    };
    let mut args: Vec<String> = Vec::new();
    args.push(folder);
    LaunchCommand { program, args }
}

} // verus!
