//! The decision logic of a side panel that lists SSH servers: parsing of SSH
//! config files, the list of server entries, their names and row layout, the
//! panel's selection and expansion state, the edits it makes to the
//! configured connections, and where it docks.
pub mod dock;
pub mod edits;
pub mod entry;
pub mod panel;
pub mod rows;
pub mod sorted;
pub mod ssh_config;
pub mod text;

pub use dock::{DockPosition, DockSide, SshPanelSettings, SshPanelSettingsContent};
pub use entry::{RemoteProject, SshConnection, SshServerEntry};
pub use panel::{ServerClick, SshPanel};
pub use ssh_config::{parse_ssh_config_hosts, ConfigHostsWatch, ConfigSource};
