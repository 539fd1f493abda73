//! Configured SSH connections, their projects, and the server entries that the
//! panel lists, with the name each entry shows.
use vstd::prelude::*;
use crate::sorted::{
    compare_chars, lemma_lex_asymmetric, lemma_lex_irreflexive, lemma_lex_transitive, lex_lt,
    Comparison,
};
use crate::text::{chars_of, decimal, push_char, push_decimal, push_str, string_views};

verus! {

/// The character view of an optional string.
pub open spec fn opt_string_view(o: Option<String>) -> Option<Seq<char>> {
    match o {
        Some(s) => Some(s@),
        None => None,
    }
}

/// A copy of `o`.
pub fn clone_opt_string(o: &Option<String>) -> (res: Option<String>)
    ensures
        opt_string_view(res) == opt_string_view(*o),
{
    match o {
        Some(s) => Some(s.clone()),
        None => None,
    }
}

/// A copy of `v`.
pub fn clone_strings(v: &Vec<String>) -> (res: Vec<String>)
    ensures
        string_views(res@) == string_views(v@),
{
    let mut res: Vec<String> = Vec::new();
    let mut i: usize = 0;
    while i < v.len()
        invariant
            i <= v@.len(),
            string_views(res@) == string_views(v@).take(i as int),
        decreases v@.len() - i,
    {
        let ghost before = res@;
        res.push(v[i].clone());
        assert(string_views(res@) =~= string_views(before).push(v@[i as int]@));
        assert(string_views(v@).take(i + 1) =~= string_views(v@).take(i as int).push(
            v@[i as int]@,
        ));
        i = i + 1;
    }
    assert(string_views(v@).take(v@.len() as int) =~= string_views(v@));
    res
}

/// A project on a remote server: the paths that it opens.
pub struct RemoteProject {
    pub paths: Vec<String>,
}

impl View for RemoteProject {
    type V = Seq<Seq<char>>;

    open spec fn view(&self) -> Seq<Seq<char>> {
        string_views(self.paths@)
    }
}

impl Clone for RemoteProject {
    fn clone(&self) -> (res: Self)
        ensures
            res@ == self@,
    {
        RemoteProject { paths: clone_strings(&self.paths) }
    }
}

/// The views of a sequence of projects.
pub open spec fn project_views(v: Seq<RemoteProject>) -> Seq<Seq<Seq<char>>> {
    v.map_values(|p: RemoteProject| p@)
}

/// `a` comes before `b` in the order of projects: their path lists compared
/// lexicographically, each path in the order of strings.
pub open spec fn project_lt(a: Seq<Seq<char>>, b: Seq<Seq<char>>) -> bool
    decreases a.len(),
{
    if a.len() == 0 {
        b.len() > 0
    } else if b.len() == 0 {
        false
    } else if a[0] != b[0] {
        lex_lt(a[0], b[0])
    } else {
        project_lt(a.drop_first(), b.drop_first())
    }
}

/// The projects are in ascending order, each once (the iteration order of an
/// ordered set of projects).
pub open spec fn projects_strictly_sorted(ps: Seq<Seq<Seq<char>>>) -> bool {
    forall|i: int, j: int| 0 <= i < j < ps.len() ==> project_lt(#[trigger] ps[i], #[trigger] ps[j])
}

pub proof fn lemma_project_irreflexive(a: Seq<Seq<char>>)
    ensures
        !project_lt(a, a),
    decreases a.len(),
{
    if a.len() > 0 {
        lemma_project_irreflexive(a.drop_first());
    }
}

pub proof fn lemma_project_transitive(a: Seq<Seq<char>>, b: Seq<Seq<char>>, c: Seq<Seq<char>>)
    requires
        project_lt(a, b),
        project_lt(b, c),
    ensures
        project_lt(a, c),
    decreases a.len(),
{
    if a.len() > 0 && b.len() > 0 && c.len() > 0 {
        if a[0] == b[0] && b[0] == c[0] {
            lemma_project_transitive(a.drop_first(), b.drop_first(), c.drop_first());
        } else if a[0] == b[0] {
            // b[0] != c[0]: lex_lt(b[0], c[0])
        } else if b[0] == c[0] {
            // lex_lt(a[0], b[0])
        } else {
            lemma_lex_transitive(a[0], b[0], c[0]);
            if a[0] == c[0] {
                lemma_lex_asymmetric(a[0], b[0]);
            }
        }
    }
}

/// Projects in ascending order hold no project twice.
pub proof fn lemma_sorted_projects_distinct(ps: Seq<Seq<Seq<char>>>)
    requires
        projects_strictly_sorted(ps),
    ensures
        forall|i: int, j: int| 0 <= i < j < ps.len() ==> #[trigger] ps[i] != #[trigger] ps[j],
{
    assert forall|i: int, j: int| 0 <= i < j < ps.len() implies #[trigger] ps[i] != #[trigger] ps[j] by {
        assert(project_lt(ps[i], ps[j]));
        lemma_project_irreflexive(ps[i]);
    }
}

/// Projects that are in order pairwise next to each other are strictly sorted.
proof fn lemma_adjacent_sorted(ps: Seq<Seq<Seq<char>>>)
    requires
        forall|i: int| 0 <= i < ps.len() - 1 ==> project_lt(#[trigger] ps[i], ps[i + 1]),
    ensures
        projects_strictly_sorted(ps),
    decreases ps.len(),
{
    if ps.len() > 1 {
        let front = ps.drop_last();
        assert forall|i: int| 0 <= i < front.len() - 1 implies project_lt(
            #[trigger] front[i],
            front[i + 1],
        ) by {
            assert(front[i] == ps[i] && front[i + 1] == ps[i + 1]);
        }
        lemma_adjacent_sorted(front);
        assert forall|i: int, j: int| 0 <= i < j < ps.len() implies project_lt(
            #[trigger] ps[i],
            #[trigger] ps[j],
        ) by {
            if j < ps.len() - 1 {
                assert(front[i] == ps[i] && front[j] == ps[j]);
            } else if i < j - 1 {
                assert(front[i] == ps[i] && front[j - 1] == ps[j - 1]);
                assert(project_lt(ps[j - 1], ps[j]));
                lemma_project_transitive(ps[i], ps[j - 1], ps[j]);
            }
        }
    }
}

/// Compares two projects in the order `project_lt`.
pub fn compare_projects(a: &RemoteProject, b: &RemoteProject) -> (res: Comparison)
    ensures
        res is Less <==> project_lt(a@, b@),
        res is Equal <==> a@ == b@,
        res is Greater <==> project_lt(b@, a@),
{
    let ghost av = a@;
    let ghost bv = b@;
    let mut i: usize = 0;
    assert(av.skip(0) =~= av);
    assert(bv.skip(0) =~= bv);
    while i < a.paths.len() && i < b.paths.len()
        invariant
            i <= av.len(),
            i <= bv.len(),
            av == a@,
            bv == b@,
            av.len() == a.paths@.len(),
            bv.len() == b.paths@.len(),
            av.take(i as int) == bv.take(i as int),
            project_lt(av, bv) == project_lt(av.skip(i as int), bv.skip(i as int)),
            project_lt(bv, av) == project_lt(bv.skip(i as int), av.skip(i as int)),
        decreases av.len() - i,
    {
        let x = chars_of(a.paths[i].as_str());
        let y = chars_of(b.paths[i].as_str());
        assert(x@ == av[i as int] && y@ == bv[i as int]);
        assert(av.skip(i as int)[0] == av[i as int] && bv.skip(i as int)[0] == bv[i as int]);
        match compare_chars(&x, &y) {
            Comparison::Less => {
                assert(av[i as int] != bv[i as int]) by {
                    lemma_lex_irreflexive(av[i as int]);
                }
                proof {
                    lemma_lex_asymmetric(av[i as int], bv[i as int]);
                }
                assert(av != bv);
                return Comparison::Less;
            },
            Comparison::Greater => {
                assert(av[i as int] != bv[i as int]) by {
                    lemma_lex_irreflexive(av[i as int]);
                }
                proof {
                    lemma_lex_asymmetric(bv[i as int], av[i as int]);
                }
                assert(av != bv);
                return Comparison::Greater;
            },
            Comparison::Equal => {},
        }
        assert(av.skip(i as int).drop_first() =~= av.skip(i + 1));
        assert(bv.skip(i as int).drop_first() =~= bv.skip(i + 1));
        assert(av.take(i + 1) =~= av.take(i as int).push(av[i as int]));
        assert(bv.take(i + 1) =~= bv.take(i as int).push(bv[i as int]));
        i = i + 1;
    }
    if i == a.paths.len() && i == b.paths.len() {
        assert(av =~= av.take(i as int));
        assert(bv =~= bv.take(i as int));
        proof {
            lemma_project_irreflexive(av);
        }
        Comparison::Equal
    } else if i == a.paths.len() {
        assert(av.skip(i as int).len() == 0 && bv.skip(i as int).len() > 0);
        assert(av.len() != bv.len());
        Comparison::Less
    } else {
        assert(bv.skip(i as int).len() == 0 && av.skip(i as int).len() > 0);
        assert(av.len() != bv.len());
        Comparison::Greater
    }
}

/// Whether `projects` are in ascending order, each once.
pub fn projects_in_order(projects: &Vec<RemoteProject>) -> (res: bool)
    ensures
        res == projects_strictly_sorted(project_views(projects@)),
{
    let ghost pv = project_views(projects@);
    let mut i: usize = 1;
    if projects.len() == 0 {
        return true;
    }
    while i < projects.len()
        invariant
            1 <= i <= projects@.len(),
            pv == project_views(projects@),
            forall|k: int| 0 <= k < i - 1 ==> project_lt(#[trigger] pv[k], pv[k + 1]),
        decreases projects@.len() - i,
    {
        assert(pv[i - 1] == projects@[i - 1]@ && pv[i as int] == projects@[i as int]@);
        match compare_projects(&projects[i - 1], &projects[i]) {
            Comparison::Less => {},
            _ => {
                assert(!projects_strictly_sorted(pv) || !project_lt(pv[i - 1], pv[i as int]));
                return false;
            },
        }
        i = i + 1;
    }
    proof {
        lemma_adjacent_sorted(pv);
    }
    true
}

/// A copy of `v`.
pub fn clone_projects(v: &Vec<RemoteProject>) -> (res: Vec<RemoteProject>)
    ensures
        project_views(res@) == project_views(v@),
{
    let mut res: Vec<RemoteProject> = Vec::new();
    let mut i: usize = 0;
    while i < v.len()
        invariant
            i <= v@.len(),
            project_views(res@) == project_views(v@).take(i as int),
        decreases v@.len() - i,
    {
        let ghost before = res@;
        res.push(v[i].clone());
        assert(project_views(res@) =~= project_views(before).push(v@[i as int]@));
        assert(project_views(v@).take(i + 1) =~= project_views(v@).take(i as int).push(
            v@[i as int]@,
        ));
        i = i + 1;
    }
    assert(project_views(v@).take(v@.len() as int) =~= project_views(v@));
    res
}

/// An SSH server as the settings configure it.
pub struct SshConnection {
    pub host: String,
    pub username: Option<String>,
    pub port: Option<u16>,
    pub nickname: Option<String>,
    pub projects: Vec<RemoteProject>,
}

/// The plain content of an `SshConnection`.
pub struct SshConnectionView {
    pub host: Seq<char>,
    pub username: Option<Seq<char>>,
    pub port: Option<u16>,
    pub nickname: Option<Seq<char>>,
    pub projects: Seq<Seq<Seq<char>>>,
}

impl View for SshConnection {
    type V = SshConnectionView;

    open spec fn view(&self) -> SshConnectionView {
        SshConnectionView {
            host: self.host@,
            username: opt_string_view(self.username),
            port: self.port,
            nickname: opt_string_view(self.nickname),
            projects: project_views(self.projects@),
        }
    }
}

impl Clone for SshConnection {
    fn clone(&self) -> (res: Self)
        ensures
            res@ == self@,
    {
        SshConnection {
            host: self.host.clone(),
            username: clone_opt_string(&self.username),
            port: self.port,
            nickname: clone_opt_string(&self.nickname),
            projects: clone_projects(&self.projects),
        }
    }
}

/// A connection's projects are in ascending order, each once, as in the
/// ordered set that the settings keep them in.
pub open spec fn connection_well_formed(c: SshConnectionView) -> bool {
    projects_strictly_sorted(c.projects)
}

/// A configured entry's connection is well formed; a host from a config file
/// has no projects.
pub open spec fn entry_well_formed(e: SshServerEntryView) -> bool {
    match e {
        SshServerEntryView::Configured { connection, .. } => connection_well_formed(connection),
        SshServerEntryView::FromConfig { .. } => true,
    }
}

/// Every connection is well formed.
pub open spec fn connections_well_formed(conns: Seq<SshConnectionView>) -> bool {
    forall|i: int| 0 <= i < conns.len() ==> connection_well_formed(#[trigger] conns[i])
}

/// Whether every connection of `conns` keeps its projects in ascending order,
/// each once.
pub fn check_connections(conns: &Vec<SshConnection>) -> (res: bool)
    ensures
        res == connections_well_formed(connection_views(conns@)),
{
    let ghost cv = connection_views(conns@);
    let mut i: usize = 0;
    while i < conns.len()
        invariant
            i <= conns@.len(),
            cv == connection_views(conns@),
            forall|k: int| 0 <= k < i ==> connection_well_formed(#[trigger] cv[k]),
        decreases conns@.len() - i,
    {
        assert(cv[i as int] == conns@[i as int]@);
        if !projects_in_order(&conns[i].projects) {
            return false;
        }
        i = i + 1;
    }
    true
}

/// The views of a sequence of connections.
pub open spec fn connection_views(v: Seq<SshConnection>) -> Seq<SshConnectionView> {
    v.map_values(|c: SshConnection| c@)
}

/// One server that the panel lists.
pub enum SshServerEntry {
    /// A server from the settings, at `index` among the configured connections.
    Configured { index: usize, connection: SshConnection },
    /// A host that only an SSH config file names.
    FromConfig { host: String },
}

/// The plain content of an `SshServerEntry`.
pub enum SshServerEntryView {
    Configured { index: usize, connection: SshConnectionView },
    FromConfig { host: Seq<char> },
}

impl View for SshServerEntry {
    type V = SshServerEntryView;

    open spec fn view(&self) -> SshServerEntryView {
        match self {
            SshServerEntry::Configured { index, connection } => SshServerEntryView::Configured {
                index: *index,
                connection: connection@,
            },
            SshServerEntry::FromConfig { host } => SshServerEntryView::FromConfig { host: host@ },
        }
    }
}

/// The port that SSH uses when none is given, which names leave out.
pub const DEFAULT_SSH_PORT: u16 = 22;

/// `base` followed by `:port`, unless the port is absent or the default one.
pub open spec fn with_port(base: Seq<char>, port: Option<u16>) -> Seq<char> {
    match port {
        Some(p) => if p != DEFAULT_SSH_PORT {
            base + seq![':'] + decimal(p as nat)
        } else {
            base
        },
        None => base,
    }
}

/// The name that a connection shows: its nickname if it has one, else
/// `user@host:port`, where `user@` appears only with a user name and `:port`
/// only with a port other than the default one.
pub open spec fn connection_display_name(c: SshConnectionView) -> Seq<char> {
    match c.nickname {
        Some(n) => n,
        None => {
            let base = match c.username {
                Some(u) => u + seq!['@'] + c.host,
                None => c.host,
            };
            with_port(base, c.port)
        },
    }
}

/// The name that an entry shows: a host from a config file shows as it is.
pub open spec fn entry_display_name(e: SshServerEntryView) -> Seq<char> {
    match e {
        SshServerEntryView::Configured { connection, .. } => connection_display_name(connection),
        SshServerEntryView::FromConfig { host } => host,
    }
}

/// The projects of an entry: those of its connection; a host from a config
/// file has none.
pub open spec fn entry_projects(e: SshServerEntryView) -> Seq<Seq<Seq<char>>> {
    match e {
        SshServerEntryView::Configured { connection, .. } => connection.projects,
        SshServerEntryView::FromConfig { .. } => Seq::empty(),
    }
}

/// The index among the configured connections of a configured entry.
pub open spec fn entry_configured_index(e: SshServerEntryView) -> Option<usize> {
    match e {
        SshServerEntryView::Configured { index, .. } => Some(index),
        SshServerEntryView::FromConfig { .. } => None,
    }
}

impl Clone for SshServerEntry {
    fn clone(&self) -> (res: Self)
        ensures
            res@ == self@,
    {
        match self {
            SshServerEntry::Configured { index, connection } => SshServerEntry::Configured {
                index: *index,
                connection: connection.clone(),
            },
            SshServerEntry::FromConfig { host } => SshServerEntry::FromConfig { host: host.clone() },
        }
    }
}

impl SshServerEntry {
    /// The name that this entry shows (see `entry_display_name`).
    pub fn display_name(&self) -> (res: String)
        ensures
            res@ == entry_display_name(self@),
    {
        match self {
            SshServerEntry::Configured { connection, .. } => {
                match &connection.nickname {
                    Some(nickname) => nickname.clone(),
                    None => {
                        let mut display = String::new();
                        match &connection.username {
                            Some(username) => {
                                push_str(&mut display, username.as_str());
                                push_char(&mut display, '@');
                            },
                            None => {},
                        }
                        push_str(&mut display, connection.host.as_str());
                        let ghost base = display@;
                        assert(base =~= match connection@.username {
                            Some(u) => u + seq!['@'] + connection@.host,
                            None => connection@.host,
                        });
                        match connection.port {
                            Some(port) => {
                                if port != DEFAULT_SSH_PORT {
                                    push_char(&mut display, ':');
                                    push_decimal(&mut display, port as usize);
                                }
                            },
                            None => {},
                        }
                        display
                    },
                }
            },
            SshServerEntry::FromConfig { host } => host.clone(),
        }
    }

    /// The projects of this entry (see `entry_projects`).
    pub fn projects(&self) -> (res: Vec<RemoteProject>)
        ensures
            project_views(res@) == entry_projects(self@),
            entry_well_formed(self@) ==> projects_strictly_sorted(project_views(res@)),
    {
        match self {
            SshServerEntry::Configured { connection, .. } => clone_projects(&connection.projects),
            SshServerEntry::FromConfig { .. } => {
                let res: Vec<RemoteProject> = Vec::new();
                assert(project_views(res@) =~= Seq::<Seq<Seq<char>>>::empty());
                res
            },
        }
    }

    /// Whether this entry has any project.
    pub fn has_projects(&self) -> (res: bool)
        ensures
            res == (entry_projects(self@).len() > 0),
    {
        match self {
            SshServerEntry::Configured { connection, .. } => connection.projects.len() > 0,
            SshServerEntry::FromConfig { .. } => false,
        }
    }

    /// Whether this entry comes from an SSH config file.
    pub fn is_from_config(&self) -> (res: bool)
        ensures
            res == (self@ is FromConfig),
    {
        match self {
            SshServerEntry::Configured { .. } => false,
            SshServerEntry::FromConfig { .. } => true,
        }
    }

    /// The index of a configured entry among the configured connections (the
    /// server index that connecting to it or opening its options passes on).
    pub fn configured_index(&self) -> (res: Option<usize>)
        ensures
            res == entry_configured_index(self@),
    {
        match self {
            SshServerEntry::Configured { index, .. } => Some(*index),
            SshServerEntry::FromConfig { .. } => None,
        }
    }
}

/// A nickname, when a connection has one, is the whole name it shows.
pub proof fn lemma_nickname_is_name(c: SshConnectionView)
    requires
        c.nickname is Some,
    ensures
        connection_display_name(c) == c.nickname->0,
{
}

/// The default SSH port shows as if no port were given.
pub proof fn lemma_default_port_hidden(c: SshConnectionView)
    requires
        c.port == Some(DEFAULT_SSH_PORT),
    ensures
        connection_display_name(c) == connection_display_name(SshConnectionView { port: None, ..c }),
{
}

} // verus!
