use vstd::prelude::*;

use crate::config;

verus! {

/// The side bar: shown or hidden.
pub struct Sidebar {
    hidden: bool,
}

impl Sidebar {
    pub closed spec fn is_hidden(&self) -> bool {
        self.hidden
    }

    /// A side bar that is shown.
    pub fn new() -> (r: Sidebar)
        ensures
            !r.is_hidden(),
    {
        Sidebar { hidden: false }
    }

    /// Hides a shown side bar, shows a hidden one.
    pub fn toggle_visibility(&mut self)
        ensures
            final(self).is_hidden() == !old(self).is_hidden(),
    {
        self.hidden = !self.hidden
    }

    pub fn hidden(&self) -> (r: bool)
        ensures
            r == self.is_hidden(),
    {
        self.hidden
    }
}

/// The file transfer pane; it holds no state of its own.
pub struct FileTransfers;

impl FileTransfers {
    pub fn new() -> (r: FileTransfers) {
        FileTransfers
    }
}

/// The screen shown when the configuration could not be used.
pub struct Help {
    pub error: config::Error,
}

impl Help {
    pub fn new(error: config::Error) -> (r: Help)
        ensures
            r.error == error,
    {
        Help { error }
    }
}

/// The title bar of a pane; it holds no state of its own.
pub struct TitleBar {}

/// A command of the command bar.
#[derive(Clone, Copy, Debug, PartialEq, Eq, Structural)]
pub enum Command {
    OpenConfig,
    ToggleSidebarVisibility,
}

impl Command {
    /// Every command, in the order the command bar offers them.
    pub fn list() -> (r: Vec<Command>)
        ensures
            r@ == seq![Command::OpenConfig, Command::ToggleSidebarVisibility],
    {
        let r = vec![Command::OpenConfig, Command::ToggleSidebarVisibility];
        assert(r@ =~= seq![Command::OpenConfig, Command::ToggleSidebarVisibility]);
        r
    }

    /// How the command bar names the command.
    pub fn title(&self) -> (r: String)
        ensures
            *self == Command::OpenConfig ==> r@ == "Configuration: Open Directory"@,
            *self == Command::ToggleSidebarVisibility ==> r@ == "UI: Toggle Sidebar visibility"@,
    {
        match self {
            Command::OpenConfig => String::from_str("Configuration: Open Directory"),
            Command::ToggleSidebarVisibility => String::from_str("UI: Toggle Sidebar visibility"),
        }
    }
}

} // verus!
