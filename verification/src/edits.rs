//! The edits that the panel makes to the configured connections in the
//! settings: removing a server and removing a project of a server.
use vstd::prelude::*;
use crate::entry::{
    connection_views, project_views, RemoteProject, SshConnection, SshConnectionView,
};

verus! {

/// `connections` after removing the server at `index`: out of range, nothing
/// changes.
pub open spec fn without_server<T>(connections: Seq<T>, index: usize) -> Seq<T> {
    if index < connections.len() {
        connections.remove(index as int)
    } else {
        connections
    }
}

/// Removes the server at `index` from the configured connections, if there are
/// configured connections and the index is in range.
pub fn remove_server<T>(connections: &mut Option<Vec<T>>, index: usize)
    ensures
        match *old(connections) {
            Some(v) => match *final(connections) {
                Some(w) => w@ == without_server(v@, index),
                None => false,
            },
            None => *final(connections) is None,
        },
        match (*old(connections), *final(connections)) {
            (Some(v), Some(w)) => if index < v@.len() {
                &&& w@.len() == v@.len() - 1
                &&& forall|k: int| 0 <= k < index ==> #[trigger] w@[k] == v@[k]
                &&& forall|k: int| index <= k < w@.len() ==> #[trigger] w@[k] == v@[k + 1]
            } else {
                w@ == v@
            },
            _ => true,
        },
{
    proof {
        if let Some(v) = *old(connections) {
            lemma_without_server(v@, index);
        }
    }
    match connections {
        Some(v) => {
            if index < v.len() {
                v.remove(index);
            }
        },
        None => {},
    }
}

/// Removing the server at an index in range shortens the list by one, keeps
/// the servers before it and moves the ones after it down by one; an index out
/// of range leaves the list as it is.
pub proof fn lemma_without_server<T>(v: Seq<T>, index: usize)
    ensures
        index < v.len() ==> {
            &&& without_server(v, index).len() == v.len() - 1
            &&& forall|k: int| 0 <= k < index ==> #[trigger] without_server(v, index)[k] == v[k]
            &&& forall|k: int|
                index <= k < v.len() - 1 ==> #[trigger] without_server(v, index)[k] == v[k + 1]
        },
        index >= v.len() ==> without_server(v, index) == v,
{
}

/// `projects` without every project equal to `project`.
pub open spec fn without_project(
    projects: Seq<Seq<Seq<char>>>,
    project: Seq<Seq<char>>,
) -> Seq<Seq<Seq<char>>>
    decreases projects.len(),
{
    if projects.len() == 0 {
        projects
    } else {
        let prev = without_project(projects.drop_last(), project);
        if projects.last() == project {
            prev
        } else {
            prev.push(projects.last())
        }
    }
}

/// Removing a project keeps exactly the other projects: a project is in the
/// result if and only if it was in the list and differs from the removed one,
/// wherever it stood; and the result keeps their order.
pub proof fn lemma_without_project(projects: Seq<Seq<Seq<char>>>, project: Seq<Seq<char>>)
    ensures
        forall|q: Seq<Seq<char>>|
            #[trigger] without_project(projects, project).contains(q) <==> (projects.contains(q)
                && q != project),
        !without_project(projects, project).contains(project),
        without_project(projects, project).len() <= projects.len(),
        !projects.contains(project) ==> without_project(projects, project) == projects,
    decreases projects.len(),
{
    if projects.len() > 0 {
        let front = projects.drop_last();
        lemma_without_project(front, project);
        let prev = without_project(front, project);
        let res = without_project(projects, project);
        assert forall|q: Seq<Seq<char>>| #[trigger] res.contains(q) <==> (projects.contains(q)
            && q != project) by {
            if res.contains(q) {
                let k = choose|k: int| 0 <= k < res.len() && res[k] == q;
                if k < prev.len() {
                    assert(prev[k] == q);
                    assert(prev.contains(q));
                    let m = choose|m: int| 0 <= m < front.len() && front[m] == q;
                    assert(projects[m] == q);
                } else {
                    assert(projects[projects.len() - 1] == q);
                }
            }
            if projects.contains(q) && q != project {
                let m = choose|m: int| 0 <= m < projects.len() && projects[m] == q;
                if m < projects.len() - 1 {
                    assert(front[m] == q);
                    assert(prev.contains(q));
                    let k = choose|k: int| 0 <= k < prev.len() && prev[k] == q;
                    assert(res[k] == q);
                } else {
                    assert(res[res.len() - 1] == q);
                }
            }
        }
        if !projects.contains(project) {
            assert(!front.contains(project)) by {
                if front.contains(project) {
                    let m = choose|m: int| 0 <= m < front.len() && front[m] == project;
                    assert(projects[m] == project);
                }
            }
            assert(projects.last() != project) by {
                assert(projects[projects.len() - 1] == projects.last());
            }
            assert(front.push(projects.last()) =~= projects);
        }
    } else {
        assert(!projects.contains(project));
    }
}

/// The connection with `project` removed from its projects.
pub open spec fn connection_without_project(
    c: SshConnectionView,
    project: Seq<Seq<char>>,
) -> SshConnectionView {
    SshConnectionView { projects: without_project(c.projects, project), ..c }
}

/// `connections` after removing `project` from the server at `server_index`:
/// out of range, nothing changes.
pub open spec fn without_server_project(
    connections: Seq<SshConnectionView>,
    server_index: usize,
    project: Seq<Seq<char>>,
) -> Seq<SshConnectionView> {
    if server_index < connections.len() {
        connections.update(
            server_index as int,
            connection_without_project(connections[server_index as int], project),
        )
    } else {
        connections
    }
}

/// Whether two projects open the same paths.
pub fn same_project(a: &RemoteProject, b: &RemoteProject) -> (res: bool)
    ensures
        res == (a@ == b@),
{
    if a.paths.len() != b.paths.len() {
        assert(a@.len() != b@.len());
        return false;
    }
    let mut i: usize = 0;
    while i < a.paths.len()
        invariant
            i <= a.paths@.len(),
            a.paths@.len() == b.paths@.len(),
            forall|k: int| 0 <= k < i ==> a@[k] == b@[k],
        decreases a.paths@.len() - i,
    {
        if !a.paths[i].eq(&b.paths[i]) {
            assert(a@[i as int] != b@[i as int]);
            return false;
        }
        i = i + 1;
    }
    assert(a@ =~= b@);
    true
}

/// `projects` without every project equal to `project`.
fn projects_without(projects: &Vec<RemoteProject>, project: &RemoteProject) -> (res: Vec<
    RemoteProject,
>)
    ensures
        project_views(res@) == without_project(project_views(projects@), project@),
{
    let ghost pv = project_views(projects@);
    let mut res: Vec<RemoteProject> = Vec::new();
    let mut i: usize = 0;
    assert(pv.take(0) =~= Seq::<Seq<Seq<char>>>::empty());
    assert(project_views(res@) =~= Seq::<Seq<Seq<char>>>::empty());
    while i < projects.len()
        invariant
            i <= projects@.len(),
            pv == project_views(projects@),
            project_views(res@) == without_project(pv.take(i as int), project@),
        decreases projects@.len() - i,
    {
        assert(pv.take(i + 1).drop_last() =~= pv.take(i as int));
        assert(pv.take(i + 1).last() == projects@[i as int]@);
        if !same_project(&projects[i], project) {
            let ghost before = res@;
            res.push(projects[i].clone());
            assert(project_views(res@) =~= project_views(before).push(projects@[i as int]@));
        }
        i = i + 1;
    }
    assert(pv.take(pv.len() as int) =~= pv);
    res
}

/// Removes `project` from the server at `server_index` among the configured
/// connections, if there are configured connections and the index is in
/// range.
pub fn remove_project(
    connections: &mut Option<Vec<SshConnection>>,
    server_index: usize,
    project: &RemoteProject,
)
    ensures
        match *old(connections) {
            Some(v) => match *final(connections) {
                Some(w) => connection_views(w@) == without_server_project(
                    connection_views(v@),
                    server_index,
                    project@,
                ),
                None => false,
            },
            None => *final(connections) is None,
        },
        match (*old(connections), *final(connections)) {
            (Some(v), Some(w)) => {
                &&& w@.len() == v@.len()
                &&& forall|k: int|
                    0 <= k < v@.len() && k != server_index ==> #[trigger] w@[k]@ == v@[k]@
                &&& server_index < v@.len() ==> {
                    let before = v@[server_index as int]@;
                    let after = w@[server_index as int]@;
                    &&& after.host == before.host
                    &&& after.username == before.username
                    &&& after.port == before.port
                    &&& after.nickname == before.nickname
                    &&& forall|q: Seq<Seq<char>>|
                        #[trigger] after.projects.contains(q) <==> (before.projects.contains(q)
                            && q != project@)
                }
            },
            _ => true,
        },
{
    match connections {
        Some(v) => {
            if server_index < v.len() {
                let ghost before = connection_views(v@);
                let mut server = v[server_index].clone();
                server.projects = projects_without(&server.projects, project);
                v.set(server_index, server);
                assert(connection_views(v@) =~= without_server_project(
                    before,
                    server_index,
                    project@,
                ));
                proof {
                    lemma_without_project(before[server_index as int].projects, project@);
                    assert forall|k: int| 0 <= k < v@.len() && k != server_index implies #[trigger] v@[k]@
                        == before[k] by {
                        assert(connection_views(v@)[k] == v@[k]@);
                    }
                    assert(connection_views(v@)[server_index as int] == v@[server_index as int]@);
                }
            }
        },
        None => {},
    }
}

} // verus!
