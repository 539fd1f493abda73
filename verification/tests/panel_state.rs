use ssh_panel::entry::{check_connections, compare_projects};
use ssh_panel::sorted::Comparison;
use ssh_panel::edits::{remove_project, remove_server};
use ssh_panel::rows::{separator_before, IconName};
use ssh_panel::{
    DockPosition, DockSide, RemoteProject, ServerClick, SshConnection, SshPanel,
    SshPanelSettings, SshPanelSettingsContent, SshServerEntry,
};

fn project(paths: &[&str]) -> RemoteProject {
    RemoteProject { paths: paths.iter().map(|s| s.to_string()).collect() }
}

fn connection(host: &str, projects: Vec<RemoteProject>) -> SshConnection {
    SshConnection {
        host: host.to_string(),
        username: None,
        port: None,
        nickname: None,
        projects,
    }
}

fn strings(items: &[&str]) -> Vec<String> {
    items.iter().map(|s| s.to_string()).collect()
}

fn describe(entry: &SshServerEntry) -> String {
    match entry {
        SshServerEntry::Configured { index, connection } => format!("{}:{}", index, connection.host),
        SshServerEntry::FromConfig { host } => format!("config:{}", host),
    }
}

#[test]
fn display_name_prefers_nickname() {
    let mut c = connection("example.com", vec![]);
    c.nickname = Some("work".to_string());
    c.username = Some("me".to_string());
    c.port = Some(2222);
    let e = SshServerEntry::Configured { index: 0, connection: c };
    assert_eq!(e.display_name(), "work");
}

#[test]
fn display_name_with_user_and_port() {
    let mut c = connection("example.com", vec![]);
    c.username = Some("me".to_string());
    c.port = Some(2222);
    let e = SshServerEntry::Configured { index: 0, connection: c };
    assert_eq!(e.display_name(), "me@example.com:2222");
}

#[test]
fn display_name_hides_default_port() {
    let mut c = connection("example.com", vec![]);
    c.port = Some(22);
    let e = SshServerEntry::Configured { index: 3, connection: c };
    assert_eq!(e.display_name(), "example.com");
    let mut c = connection("h", vec![]);
    c.port = Some(0);
    let e = SshServerEntry::Configured { index: 3, connection: c };
    assert_eq!(e.display_name(), "h:0");
}

#[test]
fn display_name_of_config_host() {
    let e = SshServerEntry::FromConfig { host: "bastion".to_string() };
    assert_eq!(e.display_name(), "bastion");
    assert!(e.projects().is_empty());
    assert!(!e.has_projects());
    assert!(e.is_from_config());
    assert_eq!(e.configured_index(), None);
}

#[test]
fn new_panel_expands_servers_with_projects() {
    let panel = SshPanel::new(
        vec![
            connection("a", vec![project(&["/x"])]),
            connection("b", vec![]),
            connection("c", vec![project(&["/y"]), project(&["/z"])]),
        ],
        true,
    );
    assert!(panel.is_expanded(0));
    assert!(!panel.is_expanded(1));
    assert!(panel.is_expanded(2));
    assert!(!panel.is_expanded(3));
    assert_eq!(panel.selected_index(), None);
    assert!(panel.reads_ssh_config());
    assert!(panel.ssh_config_servers().is_empty());
}

#[test]
fn entries_list_configured_servers_then_new_config_hosts() {
    let mut panel = SshPanel::new(vec![connection("b", vec![]), connection("d", vec![])], true);
    panel.set_config_hosts(&strings(&["d", "a"]), &strings(&["c", "b", "a"]));
    assert_eq!(panel.ssh_config_servers(), &strings(&["a", "b", "c", "d"]));
    let entries: Vec<String> = panel.server_entries().iter().map(describe).collect();
    assert_eq!(entries, vec!["0:b", "1:d", "config:a", "config:c"]);
}

#[test]
fn entries_of_empty_panel() {
    let panel = SshPanel::new(vec![], false);
    assert!(panel.server_entries().is_empty());
}

#[test]
fn click_toggles_projects_and_twice_restores() {
    let mut panel = SshPanel::new(vec![connection("a", vec![project(&["/p"])])], false);
    let entry = panel.server_entries().remove(0);
    assert!(panel.is_expanded(0));
    assert!(matches!(panel.click_server(0, &entry), ServerClick::ToggleProjects));
    assert!(!panel.is_expanded(0));
    assert_eq!(panel.selected_index(), Some(0));
    assert!(matches!(panel.click_server(0, &entry), ServerClick::ToggleProjects));
    assert!(panel.is_expanded(0));
}

#[test]
fn click_without_projects_connects() {
    let mut panel = SshPanel::new(vec![connection("a", vec![])], false);
    let entry = panel.server_entries().remove(0);
    assert!(matches!(panel.click_server(0, &entry), ServerClick::Connect));
    assert!(!panel.is_expanded(0));
    assert_eq!(panel.selected_index(), Some(0));
}

#[test]
fn refresh_never_collapses() {
    let mut panel = SshPanel::new(vec![connection("a", vec![project(&["/p"])])], true);
    panel.set_config_hosts(&strings(&["x"]), &strings(&[]));
    panel.refresh_connections(vec![connection("a", vec![]), connection("b", vec![project(&["/q"])])], true);
    assert!(panel.is_expanded(0));
    assert!(panel.is_expanded(1));
    assert_eq!(panel.ssh_connections().len(), 2);
    assert_eq!(panel.ssh_config_servers(), &strings(&["x"]));
}

#[test]
fn refresh_without_config_reading_drops_config_hosts() {
    let mut panel = SshPanel::new(vec![], true);
    panel.set_config_hosts(&strings(&["x"]), &strings(&["y"]));
    panel.refresh_connections(vec![], false);
    assert!(panel.ssh_config_servers().is_empty());
    assert!(!panel.reads_ssh_config());
}

#[test]
fn server_row_of_expanded_configured_server() {
    let mut c = connection("host", vec![project(&["/a", "/b"]), project(&["/c"])]);
    c.username = Some("u".to_string());
    let mut panel = SshPanel::new(vec![c], false);
    let entry = panel.server_entries().remove(0);
    panel.click_server(0, &entry);
    panel.click_server(0, &entry);
    let row = panel.server_row(&entry, 0, true);
    assert_eq!(row.element_id, "ssh-server-0");
    assert_eq!(row.display_name, "u@host");
    assert!(row.is_selected);
    assert!(row.is_connected);
    assert!(!row.is_from_config);
    assert!(matches!(row.icon, IconName::Server));
    assert!(matches!(row.chevron, IconName::ChevronDown));
    assert_eq!(row.tooltip, "Toggle Projects");
    assert_eq!(row.configured_index, Some(0));
    assert_eq!(row.options_button_id.as_deref(), Some("ssh-settings-0"));
    assert_eq!(row.remove_button_id.as_deref(), Some("ssh-remove-0"));
    assert_eq!(row.projects.len(), 2);
    assert_eq!(row.projects[0].element_id, "ssh-project-0-0");
    assert_eq!(row.projects[0].item_id, "ssh-project-item-0-0");
    assert_eq!(row.projects[0].label, "/a, /b");
    assert_eq!(row.projects[0].tooltip, "/a\n/b");
    assert_eq!(row.projects[1].label, "/c");
    assert_eq!(row.projects[1].remove_button_id.as_deref(), Some("ssh-remove-project-0-1"));
    assert_eq!(row.projects[1].project.paths, strings(&["/c"]));
}

#[test]
fn server_row_of_collapsed_server_has_no_project_rows() {
    let panel_conn = connection("h", vec![project(&["/a"])]);
    let mut panel = SshPanel::new(vec![panel_conn], false);
    let entry = panel.server_entries().remove(0);
    panel.click_server(0, &entry);
    let row = panel.server_row(&entry, 0, false);
    assert!(matches!(row.chevron, IconName::ChevronRight));
    assert!(row.projects.is_empty());
}

#[test]
fn server_row_of_config_host() {
    let mut panel = SshPanel::new(vec![connection("a", vec![])], true);
    panel.set_config_hosts(&strings(&["z"]), &strings(&[]));
    let entries = panel.server_entries();
    let row = panel.server_row(&entries[1], 1, false);
    assert_eq!(row.element_id, "ssh-server-1");
    assert_eq!(row.display_name, "z");
    assert!(!row.is_selected);
    assert!(row.is_from_config);
    assert!(matches!(row.icon, IconName::FileToml));
    assert!(matches!(row.chevron, IconName::ChevronRight));
    assert_eq!(row.tooltip, "Open Folder");
    assert_eq!(row.configured_index, None);
    assert!(row.options_button_id.is_none());
    assert!(row.remove_button_id.is_none());
    assert!(row.projects.is_empty());
}

#[test]
fn separators_between_rows() {
    assert!(!separator_before(0));
    assert!(separator_before(1));
    assert!(separator_before(17));
}

#[test]
fn remove_server_in_and_out_of_range() {
    let mut conns = Some(vec![1, 2, 3]);
    remove_server(&mut conns, 1);
    assert_eq!(conns, Some(vec![1, 3]));
    remove_server(&mut conns, 5);
    assert_eq!(conns, Some(vec![1, 3]));
    let mut none: Option<Vec<u8>> = None;
    remove_server(&mut none, 0);
    assert_eq!(none, None);
}

#[test]
fn remove_project_of_a_server() {
    let mut conns = Some(vec![
        connection("a", vec![project(&["/x"]), project(&["/y", "/z"])]),
        connection("b", vec![project(&["/x"])]),
    ]);
    remove_project(&mut conns, 0, &project(&["/x"]));
    let v = conns.as_ref().unwrap();
    assert_eq!(v[0].projects.len(), 1);
    assert_eq!(v[0].projects[0].paths, strings(&["/y", "/z"]));
    assert_eq!(v[1].projects.len(), 1);
    remove_project(&mut conns, 7, &project(&["/x"]));
    assert_eq!(conns.as_ref().unwrap()[1].projects.len(), 1);
    remove_project(&mut conns, 1, &project(&["/nope"]));
    assert_eq!(conns.as_ref().unwrap()[1].projects.len(), 1);
}

#[test]
fn dock_position_rules() {
    let panel = SshPanel::new(vec![], false);
    let left = SshPanelSettings { button: true, dock: DockSide::Left };
    let right = SshPanelSettings { button: false, dock: DockSide::Right };
    assert_eq!(panel.position(&left), DockPosition::Left);
    assert_eq!(panel.position(&right), DockPosition::Right);
    assert!(panel.position_is_valid(DockPosition::Left));
    assert!(panel.position_is_valid(DockPosition::Right));
    assert!(!panel.position_is_valid(DockPosition::Bottom));
    assert_eq!(SshPanel::dock_side_for(DockPosition::Bottom), DockSide::Left);
    assert_eq!(SshPanel::dock_side_for(DockPosition::Right), DockSide::Right);
    for side in [DockSide::Left, DockSide::Right] {
        let s = SshPanelSettings { button: true, dock: side };
        assert_eq!(SshPanel::dock_side_for(panel.position(&s)), side);
    }
}

#[test]
fn panel_properties() {
    let panel = SshPanel::new(vec![], false);
    let shown = SshPanelSettings { button: true, dock: DockSide::Left };
    let hidden = SshPanelSettings { button: false, dock: DockSide::Left };
    assert!(matches!(panel.icon(&shown), Some(IconName::Server)));
    assert!(panel.icon(&hidden).is_none());
    assert_eq!(panel.icon_tooltip(), Some("SSH Servers"));
    assert_eq!(panel.activation_priority(), 7);
    assert_eq!(SshPanel::panel_key(), "ssh_panel");
    assert_eq!(SshPanel::persistent_name(), "SshPanel");
}

#[test]
fn settings_from_content() {
    let content = Some(SshPanelSettingsContent { button: Some(false), dock: Some(DockSide::Right) });
    let settings = SshPanelSettings::from_settings(&content);
    assert!(!settings.button);
    assert_eq!(settings.dock, DockSide::Right);
}

#[test]
fn connection_projects_must_be_an_ordered_set() {
    let sorted = vec![connection("a", vec![project(&["/a", "/b"]), project(&["/a", "/c"]), project(&["/b"])])];
    assert!(check_connections(&sorted));
    let unsorted = vec![connection("a", vec![project(&["/b"]), project(&["/a"])])];
    assert!(!check_connections(&unsorted));
    let duplicated = vec![connection("a", vec![project(&["/a"]), project(&["/a"])])];
    assert!(!check_connections(&duplicated));
    let prefix_first = vec![connection("a", vec![project(&["/a"]), project(&["/a", "/b"])])];
    assert!(check_connections(&prefix_first));
    assert!(check_connections(&vec![]));
}

#[test]
fn project_order_matches_path_list_order() {
    let lists: Vec<Vec<&str>> = vec![vec![], vec!["/a"], vec!["/a", "/b"], vec!["/b"], vec!["/B"], vec!["/a", "/a"]];
    for x in &lists {
        for y in &lists {
            let got = compare_projects(&project(x), &project(y));
            let xs: Vec<String> = x.iter().map(|s| s.to_string()).collect();
            let ys: Vec<String> = y.iter().map(|s| s.to_string()).collect();
            let same = match (got, xs.cmp(&ys)) {
                (Comparison::Less, std::cmp::Ordering::Less) => true,
                (Comparison::Equal, std::cmp::Ordering::Equal) => true,
                (Comparison::Greater, std::cmp::Ordering::Greater) => true,
                _ => false,
            };
            assert!(same, "{:?} vs {:?}", x, y);
        }
    }
}

#[test]
fn projects_come_out_in_order() {
    let panel = SshPanel::new(
        vec![connection("a", vec![project(&["/a"]), project(&["/b"]), project(&["/c", "/d"])])],
        false,
    );
    let entry = panel.server_entries().remove(0);
    let paths: Vec<Vec<String>> = entry.projects().into_iter().map(|p| p.paths).collect();
    assert_eq!(paths, vec![strings(&["/a"]), strings(&["/b"]), strings(&["/c", "/d"])]);
}
