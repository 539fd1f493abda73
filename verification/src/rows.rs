//! What each listed server shows: its row and the rows of its projects, with
//! their element ids, labels, icons and tooltips.
use vstd::prelude::*;
use crate::entry::{
    entry_configured_index, entry_display_name, entry_projects, entry_well_formed, project_lt,
    project_views, RemoteProject, SshServerEntry,
};
use crate::panel::SshPanel;
use crate::text::{decimal, join, join_strings, push_char, push_decimal, string_from_str};

verus! {

/// The icons that the panel's rows show.
pub enum IconName {
    Server,
    FileToml,
    ChevronDown,
    ChevronRight,
    Folder,
}

/// The row of one project of an expanded server.
pub struct ProjectRow {
    /// `ssh-project-{server}-{project}`.
    pub element_id: String,
    /// `ssh-project-item-{server}-{project}`.
    pub item_id: String,
    /// The project's paths, joined with `, `.
    pub label: String,
    /// The project's paths, one per line.
    pub tooltip: String,
    /// `ssh-remove-project-{server}-{project}` for a configured server, which
    /// can remove the project; none for a host from a config file.
    pub remove_button_id: Option<String>,
    /// The project that a click opens.
    pub project: RemoteProject,
}

/// The row of one server.
pub struct ServerRow {
    /// `ssh-server-{index}`.
    pub element_id: String,
    pub display_name: String,
    pub is_selected: bool,
    pub is_connected: bool,
    /// A host from a config file, which the row marks as such.
    pub is_from_config: bool,
    pub icon: IconName,
    pub chevron: IconName,
    pub tooltip: String,
    /// The index among the configured connections, for a configured server.
    pub configured_index: Option<usize>,
    /// `ssh-settings-{i}` for a configured server at index `i`.
    pub options_button_id: Option<String>,
    /// `ssh-remove-{i}` for a configured server at index `i`.
    pub remove_button_id: Option<String>,
    /// The rows of the server's projects, shown while the server is expanded.
    pub projects: Vec<ProjectRow>,
}

/// `prefix` followed by the decimal form of `n`.
pub fn numbered_id(prefix: &str, n: usize) -> (res: String)
    ensures
        res@ == prefix@ + decimal(n as nat),
{
    let mut res = string_from_str(prefix);
    push_decimal(&mut res, n);
    res
}

/// `prefix`, the decimal form of `a`, `-`, and the decimal form of `b`.
pub fn pair_id(prefix: &str, a: usize, b: usize) -> (res: String)
    ensures
        res@ == prefix@ + decimal(a as nat) + seq!['-'] + decimal(b as nat),
{
    let mut res = numbered_id(prefix, a);
    push_char(&mut res, '-');
    push_decimal(&mut res, b);
    res
}

/// The chevron of a server row: pointing down while a server with projects is
/// expanded, to the right otherwise.
pub open spec fn chevron_for(has_projects: bool, is_expanded: bool) -> IconName {
    if has_projects && is_expanded {
        IconName::ChevronDown
    } else {
        IconName::ChevronRight
    }
}

/// The chevron points down exactly for an expanded server that has projects;
/// a server without projects always shows it pointing right.
pub proof fn lemma_chevron(has_projects: bool, is_expanded: bool)
    ensures
        (chevron_for(has_projects, is_expanded) == IconName::ChevronDown) <==> (has_projects
            && is_expanded),
        !has_projects ==> chevron_for(has_projects, is_expanded) == IconName::ChevronRight,
        chevron_for(has_projects, is_expanded) == IconName::ChevronDown || chevron_for(
            has_projects,
            is_expanded,
        ) == IconName::ChevronRight,
{
}

/// The row of the project `project`, at position `project_index` among the
/// projects of the server listed at `index`.
pub fn project_row(
    index: usize,
    project_index: usize,
    project: &RemoteProject,
    configured_index: Option<usize>,
) -> (res: ProjectRow)
    ensures
        res.element_id@ == "ssh-project-"@ + decimal(index as nat) + seq!['-'] + decimal(
            project_index as nat,
        ),
        res.item_id@ == "ssh-project-item-"@ + decimal(index as nat) + seq!['-'] + decimal(
            project_index as nat,
        ),
        res.label@ == join(project@, ", "@),
        res.tooltip@ == join(project@, "\n"@),
        res.remove_button_id is Some <==> configured_index is Some,
        res.remove_button_id matches Some(id) ==> id@ == "ssh-remove-project-"@ + decimal(
            index as nat,
        ) + seq!['-'] + decimal(project_index as nat),
        res.project@ == project@,
{
    let remove_button_id = match configured_index {
        Some(_) => Some(pair_id("ssh-remove-project-", index, project_index)),
        None => None,
    };
    ProjectRow {
        element_id: pair_id("ssh-project-", index, project_index),
        item_id: pair_id("ssh-project-item-", index, project_index),
        label: join_strings(&project.paths, ", "),
        tooltip: join_strings(&project.paths, "\n"),
        remove_button_id,
        project: project.clone(),
    }
}

impl SshPanel {
    /// The row of the entry `entry`, listed at `index`; `is_connected` says
    /// whether a connection to it is open.
    pub fn server_row(&self, entry: &SshServerEntry, index: usize, is_connected: bool) -> (res:
        ServerRow)
        ensures
            res.element_id@ == "ssh-server-"@ + decimal(index as nat),
            res.display_name@ == entry_display_name(entry@),
            res.is_selected == (self@.selected_index == Some(index)),
            res.is_connected == is_connected,
            res.is_from_config == (entry@ is FromConfig),
            res.icon == (if entry@ is FromConfig {
                IconName::FileToml
            } else {
                IconName::Server
            }),
            res.chevron == chevron_for(
                entry_projects(entry@).len() > 0,
                self@.expanded_servers.contains(index),
            ),
            (res.chevron == IconName::ChevronDown) <==> (entry_projects(entry@).len() > 0
                && self@.expanded_servers.contains(index)),
            entry_projects(entry@).len() == 0 ==> res.chevron == IconName::ChevronRight,
            res.chevron == IconName::ChevronDown || res.chevron == IconName::ChevronRight,
            res.tooltip@ == (if entry_projects(entry@).len() > 0 {
                "Toggle Projects"@
            } else {
                "Open Folder"@
            }),
            res.configured_index == entry_configured_index(entry@),
            res.options_button_id is Some <==> entry@ is Configured,
            res.remove_button_id is Some <==> entry@ is Configured,
            res.options_button_id matches Some(id) ==> id@ == "ssh-settings-"@ + decimal(
                entry_configured_index(entry@)->0 as nat,
            ),
            res.remove_button_id matches Some(id) ==> id@ == "ssh-remove-"@ + decimal(
                entry_configured_index(entry@)->0 as nat,
            ),
            res.projects@.len() == (if self@.expanded_servers.contains(index) {
                entry_projects(entry@).len()
            } else {
                0
            }),
            forall|k: int|
                0 <= k < res.projects@.len() ==> {
                    let row = #[trigger] res.projects@[k];
                    let project = entry_projects(entry@)[k];
                    &&& row.element_id@ == "ssh-project-"@ + decimal(index as nat) + seq!['-']
                        + decimal(k as nat)
                    &&& row.item_id@ == "ssh-project-item-"@ + decimal(index as nat) + seq!['-']
                        + decimal(k as nat)
                    &&& row.label@ == join(project, ", "@)
                    &&& row.tooltip@ == join(project, "\n"@)
                    &&& (row.remove_button_id is Some <==> entry@ is Configured)
                    &&& (row.remove_button_id matches Some(id) ==> id@ == "ssh-remove-project-"@
                        + decimal(index as nat) + seq!['-'] + decimal(k as nat))
                    &&& row.project@ == project
                },
            entry_well_formed(entry@) ==> forall|j: int, k: int|
                0 <= j < k < res.projects@.len() ==> project_lt(
                    (#[trigger] res.projects@[j]).project@,
                    (#[trigger] res.projects@[k]).project@,
                ),
    {
        let is_from_config = entry.is_from_config();
        let has_projects = entry.has_projects();
        let is_expanded = self.is_expanded(index);
        let configured_index = entry.configured_index();
        let icon = if is_from_config {
            IconName::FileToml
        } else {
            IconName::Server
        };
        let chevron = if has_projects && is_expanded {
            IconName::ChevronDown
        } else {
            IconName::ChevronRight
        };
        let tooltip = if has_projects {
            string_from_str("Toggle Projects")
        } else {
            string_from_str("Open Folder")
        };
        let (options_button_id, remove_button_id) = match configured_index {
            Some(idx) => (Some(numbered_id("ssh-settings-", idx)), Some(numbered_id("ssh-remove-", idx))),
            None => (None, None),
        };
        proof {
            lemma_chevron(has_projects, is_expanded);
        }
        let mut projects: Vec<ProjectRow> = Vec::new();
        if is_expanded {
            let project_list = entry.projects();
            let ghost pv = project_views(project_list@);
            let mut k: usize = 0;
            while k < project_list.len()
                invariant
                    k <= project_list@.len(),
                    pv == project_views(project_list@),
                    pv == entry_projects(entry@),
                    configured_index == entry_configured_index(entry@),
                    projects@.len() == k,
                    forall|m: int|
                        0 <= m < k ==> {
                            let row = #[trigger] projects@[m];
                            &&& row.element_id@ == "ssh-project-"@ + decimal(index as nat) + seq!['-']
                                + decimal(m as nat)
                            &&& row.item_id@ == "ssh-project-item-"@ + decimal(index as nat) + seq![
                                '-',
                            ] + decimal(m as nat)
                            &&& row.label@ == join(pv[m], ", "@)
                            &&& row.tooltip@ == join(pv[m], "\n"@)
                            &&& (row.remove_button_id is Some <==> entry@ is Configured)
                            &&& (row.remove_button_id matches Some(id) ==> id@
                                == "ssh-remove-project-"@ + decimal(index as nat) + seq!['-']
                                + decimal(m as nat))
                            &&& row.project@ == pv[m]
                        },
                decreases project_list@.len() - k,
            {
                assert(pv[k as int] == project_list@[k as int]@);
                let row = project_row(index, k, &project_list[k], configured_index);
                projects.push(row);
                k = k + 1;
            }
        }
        ServerRow {
            element_id: numbered_id("ssh-server-", index),
            display_name: entry.display_name(),
            is_selected: self.selected_index() == Some(index),
            is_connected,
            is_from_config,
            icon,
            chevron,
            tooltip,
            configured_index,
            options_button_id,
            remove_button_id,
            projects,
        }
    }
}

/// Whether a separator line goes above the row listed at `index`: above every
/// row but the first.
pub fn separator_before(index: usize) -> (res: bool)
    ensures
        res == (index > 0),
{
    index > 0
}

} // verus!
