//! Which configuration is in force: the one in the user's configuration
//! directory, or the one of the workspace, which wins once it is there.

use vstd::prelude::*;

verus! {

/// Where the configuration in force came from.
#[derive(Debug, Clone, Copy, PartialEq, Eq, Structural)]
pub enum ConfigSettedBy {
    /// The user's configuration directory.
    SysCfgPath,
    /// The `.config` directory of the workspace.
    WorkspaceCfgPath,
    /// Nothing was read: the built-in defaults.
    Default,
}

impl Default for ConfigSettedBy {
    fn default() -> (r: Self)
        ensures
            r == ConfigSettedBy::Default,
    {
        ConfigSettedBy::Default
    }
}

/// A watched configuration file.
#[derive(Debug, Clone, Copy, PartialEq, Eq, Structural)]
pub enum ConfigFile {
    /// `cph-proxy/config.toml` in the user's configuration directory.
    System,
    /// `cph-proxy/config.toml` in the workspace's `.config` directory.
    Workspace,
}

/// What happened to a watched file.
#[derive(Debug, Clone, Copy, PartialEq, Eq, Structural)]
pub enum FileEvent {
    Create,
    Modify,
    Other,
}

/// What an event on a configuration file leads to: `None` when nothing
/// changes, else the file is read again and, if it parses, becomes the
/// configuration in force, set by what is returned. The system file is
/// re-read when modified, unless the workspace's configuration is in force;
/// the workspace file when created or modified.
pub open spec fn refresh_spec(file: ConfigFile, event: FileEvent, current: ConfigSettedBy) -> Option<
    ConfigSettedBy,
> {
    match file {
        ConfigFile::System => if event == FileEvent::Modify && current
            != ConfigSettedBy::WorkspaceCfgPath {
            Some(ConfigSettedBy::SysCfgPath)
        } else {
            None
        },
        ConfigFile::Workspace => if event == FileEvent::Modify || event == FileEvent::Create {
            Some(ConfigSettedBy::WorkspaceCfgPath)
        } else {
            None
        },
    }
}

/// What an event on a configuration file leads to.
pub fn refresh_source(file: ConfigFile, event: FileEvent, current: ConfigSettedBy) -> (r: Option<
    ConfigSettedBy,
>)
    ensures
        r == refresh_spec(file, event, current),
{
    match file {
        ConfigFile::System => {
            if event == FileEvent::Modify && current != ConfigSettedBy::WorkspaceCfgPath {
                Some(ConfigSettedBy::SysCfgPath)
            } else {
                None
            }
        },
        ConfigFile::Workspace => {
            if event == FileEvent::Modify || event == FileEvent::Create {
                Some(ConfigSettedBy::WorkspaceCfgPath)
            } else {
                None
            }
        },
    }
}

/// Once the workspace's configuration is in force, no sequence of events
/// puts another one in its place.
pub proof fn lemma_workspace_config_stays(
    events: Seq<(ConfigFile, FileEvent)>,
    start: ConfigSettedBy,
)
    requires
        start == ConfigSettedBy::WorkspaceCfgPath,
    ensures
        settled_after(events, start) == ConfigSettedBy::WorkspaceCfgPath,
    decreases events.len(),
{
    if events.len() > 0 {
        lemma_workspace_config_stays(events.drop_last(), start);
    }
}

/// Where the configuration in force came from after a sequence of events, if
/// every file that was re-read parsed.
pub open spec fn settled_after(events: Seq<(ConfigFile, FileEvent)>, start: ConfigSettedBy) -> ConfigSettedBy
    decreases events.len(),
{
    if events.len() == 0 {
        start
    } else {
        let before = settled_after(events.drop_last(), start);
        match refresh_spec(events.last().0, events.last().1, before) {
            Some(s) => s,
            None => before,
        }
    }
}

} // verus!
