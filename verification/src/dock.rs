//! Where the panel docks, the panel's settings, and its fixed properties
//! (key, name, icon, tooltip, activation priority).
use vstd::prelude::*;
use crate::panel::SshPanel;
use crate::rows::IconName;

verus! {

/// The side that the settings place the panel on.
#[derive(Clone, Copy, Debug, PartialEq, Eq, Structural)]
pub enum DockSide {
    Left,
    Right,
}

/// A place where a panel can dock.
#[derive(Clone, Copy, Debug, PartialEq, Eq, Structural)]
pub enum DockPosition {
    Left,
    Bottom,
    Right,
}

/// The panel's settings as the settings file gives them; absent values are
/// filled in from the defaults before they reach the panel.
pub struct SshPanelSettingsContent {
    pub button: Option<bool>,
    pub dock: Option<DockSide>,
}

/// The panel's settings.
pub struct SshPanelSettings {
    /// Whether the panel's button shows in the status bar.
    pub button: bool,
    /// The side the panel docks on.
    pub dock: DockSide,
}

impl SshPanelSettings {
    /// The settings from the settings content, where the defaults have filled
    /// in every value.
    pub fn from_settings(content: &Option<SshPanelSettingsContent>) -> (res: Self)
        requires
            content is Some,
            content->0.button is Some,
            content->0.dock is Some,
        ensures
            res.button == content->0.button->0,
            res.dock == content->0.dock->0,
    {
        match content {
            Some(panel) => {
                let button = match panel.button {
                    Some(b) => b,
                    None => false,
                };
                let dock = match panel.dock {
                    Some(d) => d,
                    None => DockSide::Left,
                };
                SshPanelSettings { button, dock }
            },
            None => SshPanelSettings { button: false, dock: DockSide::Left },
        }
    }
}

/// The dock position for a side of the settings.
pub open spec fn position_of(side: DockSide) -> DockPosition {
    match side {
        DockSide::Left => DockPosition::Left,
        DockSide::Right => DockPosition::Right,
    }
}

/// The side that the settings record when the panel moves to `position`: the
/// bottom counts as the left.
pub open spec fn side_of(position: DockPosition) -> DockSide {
    match position {
        DockPosition::Left | DockPosition::Bottom => DockSide::Left,
        DockPosition::Right => DockSide::Right,
    }
}

/// The panel can dock on the left or on the right, not at the bottom.
pub open spec fn is_valid_position(position: DockPosition) -> bool {
    position == DockPosition::Left || position == DockPosition::Right
}

/// The key under which the panel is registered.
pub const SSH_PANEL_KEY: &'static str = "ssh_panel";

impl SshPanel {
    /// Where the panel docks under `settings`.
    pub fn position(&self, settings: &SshPanelSettings) -> (res: DockPosition)
        ensures
            res == position_of(settings.dock),
    {
        match settings.dock {
            DockSide::Left => DockPosition::Left,
            DockSide::Right => DockPosition::Right,
        }
    }

    /// Whether the panel may dock at `position`.
    pub fn position_is_valid(&self, position: DockPosition) -> (res: bool)
        ensures
            res == is_valid_position(position),
    {
        match position {
            DockPosition::Left | DockPosition::Right => true,
            DockPosition::Bottom => false,
        }
    }

    /// The side to record in the settings when the panel moves to `position`.
    pub fn dock_side_for(position: DockPosition) -> (res: DockSide)
        ensures
            res == side_of(position),
    {
        match position {
            DockPosition::Left | DockPosition::Bottom => DockSide::Left,
            DockPosition::Right => DockSide::Right,
        }
    }

    /// The panel's icon in the status bar: the server icon, unless the
    /// settings hide the button.
    pub fn icon(&self, settings: &SshPanelSettings) -> (res: Option<IconName>)
        ensures
            settings.button ==> res == Some(IconName::Server),
            !settings.button ==> res is None,
    {
        if settings.button {
            Some(IconName::Server)
        } else {
            None
        }
    }

    /// The tooltip of the panel's icon.
    pub fn icon_tooltip(&self) -> (res: Option<&'static str>)
        ensures
            res == Some("SSH Servers"),
    {
        Some("SSH Servers")
    }

    /// The panel's activation priority among the docked panels.
    pub fn activation_priority(&self) -> (res: u32)
        ensures
            res == 7,
    {
        7
    }

    /// The key under which the panel is registered.
    pub fn panel_key() -> (res: &'static str)
        ensures
            res == SSH_PANEL_KEY,
    {
        SSH_PANEL_KEY
    }

    /// The name under which the panel's state persists.
    pub fn persistent_name() -> (res: &'static str)
        ensures
            res == "SshPanel",
    {
        "SshPanel"
    }
}

/// Moving the panel to where the settings place it records the same side, and
/// that place is a valid one.
pub proof fn lemma_position_round_trip(side: DockSide)
    ensures
        side_of(position_of(side)) == side,
        is_valid_position(position_of(side)),
{
}

/// Every valid position is where the side recorded for it places the panel.
pub proof fn lemma_valid_position_round_trip(position: DockPosition)
    requires
        is_valid_position(position),
    ensures
        position_of(side_of(position)) == position,
{
}

} // verus!
