//! The commands of the interactive session.

use vstd::prelude::*;

verus! {

/// A command typed at the session prompt.
#[derive(Debug)]
pub enum NoirTool {
    /// `discover --subnet <first three octets>`: sweep a /24 subnet for hosts.
    Discover { subnet: String },
    /// `exit`: end the session.
    Exit,
    /// `help`: show the command guide.
    Help,
}

/// What the session does for a command.
#[derive(Debug)]
pub enum CommandAction {
    /// Announce the scan, then sweep the subnet.
    Sweep { subnet: String },
    /// Show the command guide.
    ShowHelp,
    /// Say goodbye and end the process successfully.
    Quit,
}

/// Decides what the session does for a command.
pub fn command_action(tool: NoirTool) -> (a: CommandAction)
    ensures
        match tool {
            NoirTool::Discover { subnet } => a matches CommandAction::Sweep { subnet: s } && s@
                == subnet@,
            NoirTool::Exit => a is Quit,
            NoirTool::Help => a is ShowHelp,
        },
{
    match tool {
        NoirTool::Discover { subnet } => CommandAction::Sweep { subnet },
        NoirTool::Help => CommandAction::ShowHelp,
        NoirTool::Exit => CommandAction::Quit,
    }
}

} // verus!
