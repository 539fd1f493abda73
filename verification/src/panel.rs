//! The state of the SSH panel: the configured connections, the hosts read from
//! SSH config files, the selected entry and the expanded entries, and what a
//! click on an entry does.
use vstd::prelude::*;
use std::collections::HashSet;
use crate::entry::{
    connection_views, connections_well_formed, entry_projects, entry_well_formed, SshConnection, SshConnectionView, SshServerEntry,
    SshServerEntryView,
};
use crate::ssh_config::merge_hosts;
use crate::sorted::{lemma_lex_transitive, sorted_elements, strictly_sorted};
use crate::text::string_views;

verus! {

/// The indices of the connections that have at least one project.
pub open spec fn indices_with_projects(conns: Seq<SshConnectionView>) -> Set<usize> {
    Set::new(|i: usize| i < conns.len() && conns[i as int].projects.len() > 0)
}

/// Some configured connection has `host` as its host.
pub open spec fn is_configured_host(conns: Seq<SshConnectionView>, host: Seq<char>) -> bool {
    exists|i: int| 0 <= i < conns.len() && #[trigger] conns[i].host == host
}

/// The hosts of `hosts` that no configured connection has, in their order.
pub open spec fn unconfigured_hosts(hosts: Seq<Seq<char>>, conns: Seq<SshConnectionView>) -> Seq<
    Seq<char>,
>
    decreases hosts.len(),
{
    if hosts.len() == 0 {
        Seq::empty()
    } else {
        let prev = unconfigured_hosts(hosts.drop_last(), conns);
        if is_configured_host(conns, hosts.last()) {
            prev
        } else {
            prev.push(hosts.last())
        }
    }
}

/// The entries that the panel lists: every configured connection, in order and
/// with its index, then every host from the config files that no configured
/// connection has, in the order of `hosts`.
pub open spec fn server_entries_of(
    conns: Seq<SshConnectionView>,
    hosts: Seq<Seq<char>>,
) -> Seq<SshServerEntryView> {
    Seq::new(
        conns.len(),
        |i: int| SshServerEntryView::Configured { index: i as usize, connection: conns[i] },
    ) + unconfigured_hosts(hosts, conns).map_values(
        |h: Seq<char>| SshServerEntryView::FromConfig { host: h },
    )
}

/// The views of a sequence of entries.
pub open spec fn entry_views(v: Seq<SshServerEntry>) -> Seq<SshServerEntryView> {
    v.map_values(|e: SshServerEntry| e@)
}

/// `set` with `i` added if it was absent and removed if it was present.
pub open spec fn toggled(set: Set<usize>, i: usize) -> Set<usize> {
    if set.contains(i) {
        set.remove(i)
    } else {
        set.insert(i)
    }
}

/// The plain content of the panel's state.
pub struct SshPanelView {
    pub connections: Seq<SshConnectionView>,
    pub config_servers: Seq<Seq<char>>,
    pub reads_ssh_config: bool,
    pub selected_index: Option<usize>,
    pub expanded_servers: Set<usize>,
}

/// What a click on a server entry asks for.
pub enum ServerClick {
    /// The entry's project list was opened or closed.
    ToggleProjects,
    /// The entry has no projects: connect to the server.
    Connect,
}

/// The panel after a click on the entry `e`, listed at `index`: the entry is
/// selected; if it has projects, its list is opened or closed.
pub open spec fn after_server_click(
    p: SshPanelView,
    index: usize,
    e: SshServerEntryView,
) -> SshPanelView {
    SshPanelView {
        selected_index: Some(index),
        expanded_servers: if entry_projects(e).len() > 0 {
            toggled(p.expanded_servers, index)
        } else {
            p.expanded_servers
        },
        ..p
    }
}

/// The panel that lists SSH servers.
pub struct SshPanel {
    ssh_connections: Vec<SshConnection>,
    ssh_config_servers: Vec<String>,
    reads_ssh_config: bool,
    selected_index: Option<usize>,
    expanded_servers: HashSet<usize>,
}

impl SshPanel {
    /// The hosts from the config files are in ascending order, each once, as
    /// in an ordered set, and so are the projects of every connection.
    #[verifier::type_invariant]
    spec fn config_servers_sorted(self) -> bool {
        &&& strictly_sorted(string_views(self.ssh_config_servers@))
        &&& connections_well_formed(connection_views(self.ssh_connections@))
    }
}

impl View for SshPanel {
    type V = SshPanelView;

    closed spec fn view(&self) -> SshPanelView {
        SshPanelView {
            connections: connection_views(self.ssh_connections@),
            config_servers: string_views(self.ssh_config_servers@),
            reads_ssh_config: self.reads_ssh_config,
            selected_index: self.selected_index,
            expanded_servers: self.expanded_servers@,
        }
    }
}

/// Adds to `set` the index of every connection that has a project.
fn expand_servers_with_projects(set: &mut HashSet<usize>, conns: &Vec<SshConnection>)
    ensures
        final(set)@ == old(set)@ + indices_with_projects(connection_views(conns@)),
{
    let ghost start = set@;
    let ghost cv = connection_views(conns@);
    let mut i: usize = 0;
    assert(start + Set::new(|k: usize| k < 0 && cv[k as int].projects.len() > 0) =~= start);
    while i < conns.len()
        invariant
            i <= conns@.len(),
            cv == connection_views(conns@),
            set@ == start + Set::new(|k: usize| k < i && cv[k as int].projects.len() > 0),
        decreases conns@.len() - i,
    {
        assert(cv[i as int] == conns@[i as int]@);
        if conns[i].projects.len() > 0 {
            set.insert(i);
        }
        assert(set@ =~= start + Set::new(|k: usize| k < i + 1 && cv[k as int].projects.len() > 0));
        i = i + 1;
    }
    assert(set@ =~= start + indices_with_projects(cv));
}

/// Whether some connection of `conns` has `host` as its host.
fn has_configured_host(conns: &Vec<SshConnection>, host: &String) -> (res: bool)
    ensures
        res == is_configured_host(connection_views(conns@), host@),
{
    let ghost cv = connection_views(conns@);
    let mut i: usize = 0;
    while i < conns.len()
        invariant
            i <= conns@.len(),
            cv == connection_views(conns@),
            forall|k: int| 0 <= k < i ==> cv[k].host != host@,
        decreases conns@.len() - i,
    {
        assert(cv[i as int] == conns@[i as int]@);
        if conns[i].host.eq(host) {
            assert(cv[i as int].host == host@);
            return true;
        }
        i = i + 1;
    }
    false
}

impl SshPanel {
    /// A panel for the configured `ssh_connections`: nothing selected, every
    /// connection with projects expanded, no hosts from config files yet.
    /// `read_ssh_config` says whether the SSH config files are to be watched.
    pub fn new(ssh_connections: Vec<SshConnection>, read_ssh_config: bool) -> (res: Self)
        requires
            connections_well_formed(connection_views(ssh_connections@)),
        ensures
            res@.connections == connection_views(ssh_connections@),
            res@.config_servers == Seq::<Seq<char>>::empty(),
            res@.reads_ssh_config == read_ssh_config,
            res@.selected_index is None,
            res@.expanded_servers == indices_with_projects(connection_views(ssh_connections@)),
    {
        let mut expanded_servers: HashSet<usize> = HashSet::new();
        expand_servers_with_projects(&mut expanded_servers, &ssh_connections);
        assert(Set::<usize>::empty() + indices_with_projects(connection_views(ssh_connections@))
            =~= indices_with_projects(connection_views(ssh_connections@)));
        let res = SshPanel {
            ssh_connections,
            ssh_config_servers: Vec::new(),
            reads_ssh_config: read_ssh_config,
            selected_index: None,
            expanded_servers,
        };
        assert(res@.config_servers =~= Seq::<Seq<char>>::empty());
        res
    }

    /// Takes a new list of configured connections from the settings. Every
    /// connection with projects gets expanded, and no entry is collapsed. When
    /// the settings stop reading SSH config files, the hosts from them go away.
    pub fn refresh_connections(&mut self, ssh_connections: Vec<SshConnection>, read_ssh_config: bool)
        requires
            connections_well_formed(connection_views(ssh_connections@)),
        ensures
            final(self)@.connections == connection_views(ssh_connections@),
            final(self)@.expanded_servers == old(self)@.expanded_servers + indices_with_projects(
                connection_views(ssh_connections@),
            ),
            final(self)@.config_servers == (if read_ssh_config {
                old(self)@.config_servers
            } else {
                Seq::<Seq<char>>::empty()
            }),
            final(self)@.reads_ssh_config == read_ssh_config,
            final(self)@.selected_index == old(self)@.selected_index,
    {
        proof {
            use_type_invariant(&*self);
        }
        let mut expanded: HashSet<usize> = HashSet::new();
        std::mem::swap(&mut expanded, &mut self.expanded_servers);
        expand_servers_with_projects(&mut expanded, &ssh_connections);
        self.expanded_servers = expanded;
        self.ssh_connections = ssh_connections;
        if !read_ssh_config {
            self.ssh_config_servers = Vec::new();
            assert(string_views(self.ssh_config_servers@) =~= Seq::<Seq<char>>::empty());
        }
        self.reads_ssh_config = read_ssh_config;
    }

    /// Lists the hosts of both SSH config files: their union, in ascending
    /// order, each host once.
    pub fn set_config_hosts(&mut self, global_hosts: &Vec<String>, user_hosts: &Vec<String>)
        ensures
            final(self)@.config_servers == sorted_elements(
                string_views(global_hosts@).to_set() + string_views(user_hosts@).to_set(),
            ),
            strictly_sorted(final(self)@.config_servers),
            forall|h: Seq<char>|
                #[trigger] final(self)@.config_servers.contains(h) <==> (string_views(
                    global_hosts@,
                ).contains(h) || string_views(user_hosts@).contains(h)),
            final(self)@.connections == old(self)@.connections,
            final(self)@.reads_ssh_config == old(self)@.reads_ssh_config,
            final(self)@.selected_index == old(self)@.selected_index,
            final(self)@.expanded_servers == old(self)@.expanded_servers,
    {
        proof {
            use_type_invariant(&*self);
        }
        self.ssh_config_servers = merge_hosts(global_hosts, user_hosts);
        assert forall|h: Seq<char>|
            #[trigger] string_views(self.ssh_config_servers@).contains(h) <==> (string_views(
                global_hosts@,
            ).contains(h) || string_views(user_hosts@).contains(h)) by {
            assert(string_views(self.ssh_config_servers@).to_set().contains(h)
                == string_views(self.ssh_config_servers@).contains(h));
        }
    }

    /// The entries that the panel lists (see `server_entries_of`).
    pub fn server_entries(&self) -> (res: Vec<SshServerEntry>)
        ensures
            entry_views(res@) == server_entries_of(self@.connections, self@.config_servers),
            forall|k: int, i: int|
                0 <= k < res@.len() && 0 <= i < self@.connections.len() && (
                #[trigger] entry_views(res@)[k]) is FromConfig ==> entry_views(res@)[k]->host
                    != (#[trigger] self@.connections[i]).host,
            strictly_sorted(self@.config_servers),
            connections_well_formed(self@.connections),
            forall|k: int| 0 <= k < res@.len() ==> entry_well_formed(#[trigger] entry_views(res@)[k]),
    {
        proof {
            use_type_invariant(self);
        }
        let ghost cv = connection_views(self.ssh_connections@);
        let ghost hv = string_views(self.ssh_config_servers@);
        let mut entries: Vec<SshServerEntry> = Vec::new();
        let mut i: usize = 0;
        while i < self.ssh_connections.len()
            invariant
                i <= self.ssh_connections@.len(),
                cv == connection_views(self.ssh_connections@),
                entry_views(entries@) == Seq::new(
                    i as nat,
                    |k: int| SshServerEntryView::Configured { index: k as usize, connection: cv[k] },
                ),
            decreases self.ssh_connections@.len() - i,
        {
            let connection = self.ssh_connections[i].clone();
            assert(cv[i as int] == self.ssh_connections@[i as int]@);
            assert(connection@ == cv[i as int]);
            let ghost before = entries@;
            entries.push(SshServerEntry::Configured { index: i, connection });
            assert(entry_views(entries@) =~= entry_views(before).push(
                SshServerEntryView::Configured { index: i, connection: cv[i as int] },
            ));
            assert(entry_views(entries@) =~= Seq::new(
                (i + 1) as nat,
                |k: int| SshServerEntryView::Configured { index: k as usize, connection: cv[k] },
            ));
            i = i + 1;
        }
        let ghost configured = entry_views(entries@);
        let mut j: usize = 0;
        assert(hv.take(0) =~= Seq::<Seq<char>>::empty());
        assert(configured + unconfigured_hosts(hv.take(0), cv).map_values(
            |h: Seq<char>| SshServerEntryView::FromConfig { host: h },
        ) =~= configured);
        while j < self.ssh_config_servers.len()
            invariant
                j <= self.ssh_config_servers@.len(),
                cv == connection_views(self.ssh_connections@),
                hv == string_views(self.ssh_config_servers@),
                entry_views(entries@) == configured + unconfigured_hosts(hv.take(j as int), cv).map_values(
                    |h: Seq<char>| SshServerEntryView::FromConfig { host: h },
                ),
            decreases self.ssh_config_servers@.len() - j,
        {
            let host = &self.ssh_config_servers[j];
            assert(hv.take(j + 1).drop_last() =~= hv.take(j as int));
            assert(hv.take(j + 1).last() == host@);
            if !has_configured_host(&self.ssh_connections, host) {
                let ghost before = entries@;
                entries.push(SshServerEntry::FromConfig { host: host.clone() });
                assert(entry_views(entries@) =~= entry_views(before).push(
                    SshServerEntryView::FromConfig { host: host@ },
                ));
                assert(entry_views(entries@) =~= configured + unconfigured_hosts(
                    hv.take(j + 1),
                    cv,
                ).map_values(|h: Seq<char>| SshServerEntryView::FromConfig { host: h }));
            }
            j = j + 1;
        }
        assert(hv.take(hv.len() as int) =~= hv);
        proof {
            lemma_config_entries_not_configured(cv, hv);
        }
        entries
    }

    /// A click on the entry `entry`, listed at `index`: selects it, and opens
    /// or closes its project list if it has projects; without projects the
    /// click asks to connect.
    pub fn click_server(&mut self, index: usize, entry: &SshServerEntry) -> (res: ServerClick)
        ensures
            final(self)@ == after_server_click(old(self)@, index, entry@),
            res is ToggleProjects <==> entry_projects(entry@).len() > 0,
            final(self)@.selected_index == Some(index),
            forall|j: usize|
                j != index ==> (#[trigger] final(self)@.expanded_servers.contains(j) <==> old(
                    self,
                )@.expanded_servers.contains(j)),
            final(self)@.expanded_servers.contains(index) == (if entry_projects(entry@).len() > 0 {
                !old(self)@.expanded_servers.contains(index)
            } else {
                old(self)@.expanded_servers.contains(index)
            }),
    {
        proof {
            lemma_click_changes_only_clicked(self@, index, entry@);
        }
        proof {
            use_type_invariant(&*self);
        }
        self.selected_index = Some(index);
        if entry.has_projects() {
            let mut expanded: HashSet<usize> = HashSet::new();
            std::mem::swap(&mut expanded, &mut self.expanded_servers);
            if expanded.contains(&index) {
                expanded.remove(&index);
            } else {
                expanded.insert(index);
            }
            self.expanded_servers = expanded;
            ServerClick::ToggleProjects
        } else {
            ServerClick::Connect
        }
    }

    /// The index of the selected entry, if any.
    pub fn selected_index(&self) -> (res: Option<usize>)
        ensures
            res == self@.selected_index,
    {
        self.selected_index
    }

    /// Whether the entry listed at `index` shows its projects.
    pub fn is_expanded(&self, index: usize) -> (res: bool)
        ensures
            res == self@.expanded_servers.contains(index),
    {
        self.expanded_servers.contains(&index)
    }

    /// Whether the SSH config files are read (and so to be watched).
    pub fn reads_ssh_config(&self) -> (res: bool)
        ensures
            res == self@.reads_ssh_config,
    {
        self.reads_ssh_config
    }

    /// The configured connections.
    pub fn ssh_connections(&self) -> (res: &Vec<SshConnection>)
        ensures
            connection_views(res@) == self@.connections,
            connections_well_formed(self@.connections),
    {
        proof {
            use_type_invariant(self);
        }
        &self.ssh_connections
    }

    /// The hosts read from the SSH config files.
    pub fn ssh_config_servers(&self) -> (res: &Vec<String>)
        ensures
            string_views(res@) == self@.config_servers,
            strictly_sorted(self@.config_servers),
    {
        proof {
            use_type_invariant(self);
        }
        &self.ssh_config_servers
    }
}

/// Opening and closing the project list of the same entry returns the
/// expanded entries to what they were.
pub proof fn lemma_click_twice_restores(p: SshPanelView, index: usize, e: SshServerEntryView)
    ensures
        after_server_click(after_server_click(p, index, e), index, e).expanded_servers
            == p.expanded_servers,
{
    let once = after_server_click(p, index, e);
    if entry_projects(e).len() > 0 {
        if p.expanded_servers.contains(index) {
            assert(once.expanded_servers.insert(index) =~= p.expanded_servers);
        } else {
            assert(once.expanded_servers.remove(index) =~= p.expanded_servers);
        }
    }
}

/// What `unconfigured_hosts` keeps: exactly the hosts of `hosts` that no
/// connection has.
pub proof fn lemma_unconfigured_hosts(hosts: Seq<Seq<char>>, conns: Seq<SshConnectionView>)
    ensures
        forall|k: int|
            0 <= k < unconfigured_hosts(hosts, conns).len() ==> hosts.contains(
                #[trigger] unconfigured_hosts(hosts, conns)[k],
            ) && !is_configured_host(conns, unconfigured_hosts(hosts, conns)[k]),
        forall|h: Seq<char>|
            hosts.contains(h) && !is_configured_host(conns, h) ==> #[trigger] unconfigured_hosts(
                hosts,
                conns,
            ).contains(h),
        unconfigured_hosts(hosts, conns).len() <= hosts.len(),
    decreases hosts.len(),
{
    if hosts.len() > 0 {
        let prev_hosts = hosts.drop_last();
        lemma_unconfigured_hosts(prev_hosts, conns);
        let prev = unconfigured_hosts(prev_hosts, conns);
        let res = unconfigured_hosts(hosts, conns);
        assert forall|k: int| 0 <= k < res.len() implies hosts.contains(#[trigger] res[k])
            && !is_configured_host(conns, res[k]) by {
            if k < prev.len() {
                assert(res[k] == prev[k]);
                let m = choose|m: int| 0 <= m < prev_hosts.len() && prev_hosts[m] == prev[k];
                assert(hosts[m] == res[k]);
            } else {
                assert(res[k] == hosts.last());
                assert(hosts[hosts.len() - 1] == res[k]);
            }
        }
        assert forall|h: Seq<char>|
            hosts.contains(h) && !is_configured_host(conns, h) implies #[trigger] res.contains(
                h,
            ) by {
            let m = choose|m: int| 0 <= m < hosts.len() && hosts[m] == h;
            if m < hosts.len() - 1 {
                assert(prev_hosts[m] == h);
                assert(prev.contains(h));
                let k = choose|k: int| 0 <= k < prev.len() && prev[k] == h;
                assert(res[k] == h);
            } else {
                assert(res[res.len() - 1] == h);
            }
        }
    }
}

/// The listed entries are the configured servers first, each at its own index
/// among the configured connections, then the hosts from the config files that
/// no configured server has; every such host is listed, and no configured
/// host is listed twice.
pub proof fn lemma_server_entries(conns: Seq<SshConnectionView>, hosts: Seq<Seq<char>>)
    ensures
        server_entries_of(conns, hosts).len() == conns.len() + unconfigured_hosts(
            hosts,
            conns,
        ).len(),
        forall|i: int|
            0 <= i < conns.len() ==> #[trigger] server_entries_of(conns, hosts)[i]
                == (SshServerEntryView::Configured { index: i as usize, connection: conns[i] }),
        forall|i: int|
            conns.len() <= i < server_entries_of(conns, hosts).len() ==> {
                let e = #[trigger] server_entries_of(conns, hosts)[i];
                &&& e is FromConfig
                &&& hosts.contains(e->host)
                &&& !is_configured_host(conns, e->host)
            },
        forall|h: Seq<char>|
            hosts.contains(h) && !is_configured_host(conns, h) ==> exists|i: int|
                conns.len() <= i < server_entries_of(conns, hosts).len()
                    && #[trigger] server_entries_of(conns, hosts)[i]
                    == (SshServerEntryView::FromConfig { host: h }),
{
    lemma_unconfigured_hosts(hosts, conns);
    let u = unconfigured_hosts(hosts, conns);
    let entries = server_entries_of(conns, hosts);
    assert forall|i: int| conns.len() <= i < entries.len() implies {
        let e = #[trigger] entries[i];
        &&& e is FromConfig
        &&& hosts.contains(e->host)
        &&& !is_configured_host(conns, e->host)
    } by {
        assert(entries[i] == SshServerEntryView::FromConfig { host: u[i - conns.len()] });
    }
    assert forall|h: Seq<char>| hosts.contains(h) && !is_configured_host(conns, h) implies exists|
        i: int,
    |
        conns.len() <= i < entries.len() && #[trigger] entries[i]
            == (SshServerEntryView::FromConfig { host: h }) by {
        assert(u.contains(h));
        let k = choose|k: int| 0 <= k < u.len() && u[k] == h;
        assert(entries[conns.len() + k] == SshServerEntryView::FromConfig { host: h });
    }
}

/// The hosts from the config files that the panel lists are in ascending order
/// when the config hosts are, so none is listed twice.
pub proof fn lemma_unconfigured_hosts_sorted(hosts: Seq<Seq<char>>, conns: Seq<SshConnectionView>)
    requires
        strictly_sorted(hosts),
    ensures
        strictly_sorted(unconfigured_hosts(hosts, conns)),
    decreases hosts.len(),
{
    if hosts.len() > 0 {
        let prev_hosts = hosts.drop_last();
        assert(strictly_sorted(prev_hosts)) by {
            assert forall|i: int, j: int| 0 <= i < j < prev_hosts.len() implies crate::sorted::lex_lt(
                #[trigger] prev_hosts[i],
                #[trigger] prev_hosts[j],
            ) by {
                assert(prev_hosts[i] == hosts[i] && prev_hosts[j] == hosts[j]);
            }
        }
        lemma_unconfigured_hosts_sorted(prev_hosts, conns);
        lemma_unconfigured_hosts(prev_hosts, conns);
        let prev = unconfigured_hosts(prev_hosts, conns);
        let res = unconfigured_hosts(hosts, conns);
        if !is_configured_host(conns, hosts.last()) {
            assert forall|i: int, j: int| 0 <= i < j < res.len() implies crate::sorted::lex_lt(
                #[trigger] res[i],
                #[trigger] res[j],
            ) by {
                if j < prev.len() {
                    assert(res[i] == prev[i] && res[j] == prev[j]);
                } else {
                    assert(res[i] == prev[i]);
                    assert(prev_hosts.contains(prev[i]));
                    let m = choose|m: int| 0 <= m < prev_hosts.len() && prev_hosts[m] == prev[i];
                    assert(hosts[m] == prev[i]);
                    assert(res[j] == hosts[hosts.len() - 1]);
                }
            }
        }
    }
}

/// No two entries that the panel lists from the config files have the same
/// host.
pub proof fn lemma_config_entries_distinct(conns: Seq<SshConnectionView>, hosts: Seq<Seq<char>>)
    requires
        strictly_sorted(hosts),
    ensures
        forall|i: int, j: int|
            conns.len() <= i < j < server_entries_of(conns, hosts).len() ==> (
            #[trigger] server_entries_of(conns, hosts)[i])->host != (
            #[trigger] server_entries_of(conns, hosts)[j])->host,
{
    lemma_unconfigured_hosts_sorted(hosts, conns);
    let u = unconfigured_hosts(hosts, conns);
    let entries = server_entries_of(conns, hosts);
    assert forall|i: int, j: int| conns.len() <= i < j < entries.len() implies (
    #[trigger] entries[i])->host != (#[trigger] entries[j])->host by {
        assert(entries[i] == SshServerEntryView::FromConfig { host: u[i - conns.len()] });
        assert(entries[j] == SshServerEntryView::FromConfig { host: u[j - conns.len()] });
        assert(crate::sorted::lex_lt(u[i - conns.len()], u[j - conns.len()]));
        crate::sorted::lemma_lex_irreflexive(u[i - conns.len()]);
    }
}

/// A click changes the expanded entries at the clicked index only: every
/// other entry stays open or closed as it was, and the clicked one flips
/// exactly when it has projects.
pub proof fn lemma_click_changes_only_clicked(p: SshPanelView, index: usize, e: SshServerEntryView)
    ensures
        forall|j: usize|
            j != index ==> (#[trigger] after_server_click(p, index, e).expanded_servers.contains(j)
                <==> p.expanded_servers.contains(j)),
        after_server_click(p, index, e).expanded_servers.contains(index) == (if entry_projects(
            e,
        ).len() > 0 {
            !p.expanded_servers.contains(index)
        } else {
            p.expanded_servers.contains(index)
        }),
        after_server_click(p, index, e).selected_index == Some(index),
{
}

/// No entry that the panel lists from the config files has the host of a
/// configured connection, whatever that connection's user, port or nickname;
/// every config host that no connection has is listed.
pub proof fn lemma_config_entries_not_configured(conns: Seq<SshConnectionView>, hosts: Seq<Seq<char>>)
    ensures
        forall|k: int, i: int|
            0 <= k < server_entries_of(conns, hosts).len() && 0 <= i < conns.len() && (
            #[trigger] server_entries_of(conns, hosts)[k]) is FromConfig ==> server_entries_of(
                conns,
                hosts,
            )[k]->host != (#[trigger] conns[i]).host,
        forall|h: Seq<char>|
            #[trigger] hosts.contains(h) && (forall|i: int| 0 <= i < conns.len() ==> conns[i].host
                != h) ==> server_entries_of(conns, hosts).contains(
                SshServerEntryView::FromConfig { host: h },
            ),
{
    lemma_server_entries(conns, hosts);
    let entries = server_entries_of(conns, hosts);
    assert forall|k: int, i: int|
        0 <= k < entries.len() && 0 <= i < conns.len() && (#[trigger] entries[k]) is FromConfig
            implies entries[k]->host != (#[trigger] conns[i]).host by {
        if k < conns.len() {
            assert(entries[k] is Configured);
        } else {
            assert(!is_configured_host(conns, entries[k]->host));
            if entries[k]->host == conns[i].host {
                assert(is_configured_host(conns, entries[k]->host));
            }
        }
    }
    assert forall|h: Seq<char>|
        #[trigger] hosts.contains(h) && (forall|i: int| 0 <= i < conns.len() ==> conns[i].host
            != h) implies entries.contains(SshServerEntryView::FromConfig { host: h }) by {
        assert(!is_configured_host(conns, h));
        let i = choose|i: int|
            conns.len() <= i < entries.len() && #[trigger] entries[i]
                == (SshServerEntryView::FromConfig { host: h });
    }
}

} // verus!
