//! The registry of services this tool believes it started, keyed by project
//! and then by service, and its reconciliation against observed liveness.
use vstd::prelude::*;
use crate::assoc::{
    assoc_map, filter_map_entries, filter_map_map, keys_distinct, lemma_assoc_at,
    lemma_assoc_keys, lemma_assoc_push, lemma_assoc_remove, lemma_assoc_update,
    lemma_filter_map,
};

verus! {

/// What is remembered of one started service.
#[derive(Clone, Copy, Debug)]
pub struct ServiceState {
    pub pid: u32,
    pub port: Option<u16>,
}

/// One project: its root and its services, by name.
#[derive(Debug)]
pub struct ProjectState {
    pub path: String,
    pub services: Vec<(String, ServiceState)>,
}

/// All projects, by name.
#[derive(Debug)]
pub struct State {
    pub projects: Vec<(String, ProjectState)>,
}

/// A project as a value: its root and the map from service name to record.
pub type ProjectView = (Seq<char>, Map<Seq<char>, ServiceState>);

pub open spec fn service_entries(v: Seq<(String, ServiceState)>) -> Seq<(Seq<char>, ServiceState)> {
    v.map_values(|e: (String, ServiceState)| (e.0@, e.1))
}

pub open spec fn project_entries(v: Seq<(String, ProjectState)>) -> Seq<(Seq<char>, ProjectView)> {
    v.map_values(|e: (String, ProjectState)| (e.0@, e.1@))
}

impl View for ProjectState {
    type V = ProjectView;

    open spec fn view(&self) -> ProjectView {
        (self.path@, assoc_map(service_entries(self.services@)))
    }
}

impl ProjectState {
    pub open spec fn wf(&self) -> bool {
        keys_distinct(service_entries(self.services@))
    }
}

impl View for State {
    type V = Map<Seq<char>, ProjectView>;

    open spec fn view(&self) -> Map<Seq<char>, ProjectView> {
        assoc_map(project_entries(self.projects@))
    }
}

/// A snapshot of what is observed to be alive: the ports that some listener
/// occupies and the process ids that exist.
#[derive(Debug)]
pub struct Liveness {
    pub busy_ports: Vec<u16>,
    pub live_pids: Vec<u32>,
}

/// Liveness of a service: by its port when one is known, else by its pid.
pub open spec fn alive(port: Option<u16>, pid: u32, obs: &Liveness) -> bool {
    match port {
        Some(p) => obs.busy_ports@.contains(p),
        None => obs.live_pids@.contains(pid),
    }
}

/// Keeps a service record only while it is alive.
pub open spec fn service_filter(obs: &Liveness) -> spec_fn(ServiceState) -> Option<ServiceState> {
    |s: ServiceState|
        if alive(s.port, s.pid, obs) {
            Some(s)
        } else {
            None
        }
}

/// The services of a map that are alive.
pub open spec fn live_services(m: Map<Seq<char>, ServiceState>, obs: &Liveness) -> Map<
    Seq<char>,
    ServiceState,
> {
    filter_map_map(m, service_filter(obs))
}

/// Keeps a project with its live services, and drops it when none is left.
pub open spec fn project_cleaner(obs: &Liveness) -> spec_fn(ProjectView) -> Option<ProjectView> {
    |p: ProjectView|
        {
            let live = live_services(p.1, obs);
            if live == Map::<Seq<char>, ServiceState>::empty() {
                None
            } else {
                Some((p.0, live))
            }
        }
}

/// The registry after reconciliation against `obs`.
pub open spec fn cleaned(m: Map<Seq<char>, ProjectView>, obs: &Liveness) -> Map<
    Seq<char>,
    ProjectView,
> {
    filter_map_map(m, project_cleaner(obs))
}

/// The registry after recording a service.
pub open spec fn with_service(
    m: Map<Seq<char>, ProjectView>,
    project: Seq<char>,
    path: Seq<char>,
    service: Seq<char>,
    record: ServiceState,
) -> Map<Seq<char>, ProjectView> {
    if m.contains_key(project) {
        m.insert(project, (m[project].0, m[project].1.insert(service, record)))
    } else {
        m.insert(project, (path, Map::empty().insert(service, record)))
    }
}

/// The registry after forgetting a service; a project left empty goes too.
pub open spec fn without_service(
    m: Map<Seq<char>, ProjectView>,
    project: Seq<char>,
    service: Seq<char>,
) -> Map<Seq<char>, ProjectView> {
    if m.contains_key(project) {
        let rest = m[project].1.remove(service);
        if rest == Map::<Seq<char>, ServiceState>::empty() {
            m.remove(project)
        } else {
            m.insert(project, (m[project].0, rest))
        }
    } else {
        m
    }
}

/// Position of the entry named `key`, if any.
fn find_entry<V>(v: &Vec<(String, V)>, key: &str) -> (r: Option<usize>)
    ensures
        match r {
            Some(i) => i < v@.len() && v@[i as int].0@ == key@,
            None => forall|i: int| 0 <= i < v@.len() ==> v@[i].0@ != key@,
        },
{
    let wanted = key.to_owned();
    let mut i: usize = 0;
    while i < v.len()
        invariant
            i <= v@.len(),
            wanted@ == key@,
            forall|j: int| 0 <= j < i ==> v@[j].0@ != key@,
        decreases v@.len() - i,
    {
        if v[i].0 == wanted {
            return Some(i);
        }
        i = i + 1;
    }
    None
}

impl Liveness {
    /// An observation in which nothing is alive.
    pub fn new() -> (r: Liveness)
        ensures
            r.busy_ports@.len() == 0,
            r.live_pids@.len() == 0,
    {
        Liveness { busy_ports: Vec::new(), live_pids: Vec::new() }
    }

    /// Records that a listener occupies `port`.
    pub fn mark_port_busy(&mut self, port: u16)
        ensures
            final(self).busy_ports@ == old(self).busy_ports@.push(port),
            final(self).live_pids@ == old(self).live_pids@,
    {
        self.busy_ports.push(port);
    }

    /// Records that process `pid` exists.
    pub fn mark_pid_alive(&mut self, pid: u32)
        ensures
            final(self).live_pids@ == old(self).live_pids@.push(pid),
            final(self).busy_ports@ == old(self).busy_ports@,
    {
        self.live_pids.push(pid);
    }

    /// Whether a listener was seen on `port`.
    pub fn port_in_use(&self, port: u16) -> (r: bool)
        ensures
            r == self.busy_ports@.contains(port),
    {
        let mut i: usize = 0;
        while i < self.busy_ports.len()
            invariant
                i <= self.busy_ports@.len(),
                forall|j: int| 0 <= j < i ==> self.busy_ports@[j] != port,
            decreases self.busy_ports@.len() - i,
        {
            if self.busy_ports[i] == port {
                return true;
            }
            i = i + 1;
        }
        false
    }

    /// Whether process `pid` was seen.
    pub fn pid_running(&self, pid: u32) -> (r: bool)
        ensures
            r == self.live_pids@.contains(pid),
    {
        let mut i: usize = 0;
        while i < self.live_pids.len()
            invariant
                i <= self.live_pids@.len(),
                forall|j: int| 0 <= j < i ==> self.live_pids@[j] != pid,
            decreases self.live_pids@.len() - i,
        {
            if self.live_pids[i] == pid {
                return true;
            }
            i = i + 1;
        }
        false
    }
}

impl State {
    /// Project names are distinct, and so are service names within each project.
    pub open spec fn wf(&self) -> bool {
        &&& keys_distinct(project_entries(self.projects@))
        &&& forall|i: int| 0 <= i < self.projects@.len() ==> (#[trigger] self.projects@[i]).1.wf()
    }

    /// An empty registry.
    pub fn new() -> (r: State)
        ensures
            r.wf(),
            r@ == Map::<Seq<char>, ProjectView>::empty(),
    {
        let r = State { projects: Vec::new() };
        assert(project_entries(r.projects@) =~= Seq::empty());
        r
    }

    /// Records that `service_name` of `project_name` runs as `pid` (on `port`).
    /// A new project gets `project_path` as its root; a known one keeps its own.
    pub fn add_service(
        &mut self,
        project_name: &str,
        project_path: String,
        service_name: &str,
        pid: u32,
        port: Option<u16>,
    )
        requires
            old(self).wf(),
        ensures
            final(self).wf(),
            final(self)@ == with_service(
                old(self)@,
                project_name@,
                project_path@,
                service_name@,
                ServiceState { pid, port },
            ),
    {
        let record = ServiceState { pid, port };
        let ghost pe = project_entries(self.projects@);
        proof {
            lemma_assoc_keys(pe, project_name@);
        }
        match find_entry(&self.projects, project_name) {
            Some(i) => {
                let (name, mut project) = self.projects.remove(i);
                let ghost se = service_entries(project.services@);
                proof {
                    assert(pe[i as int] == (name@, project@));
                    lemma_assoc_at(pe, i as int);
                    lemma_assoc_keys(se, service_name@);
                }
                match find_entry(&project.services, service_name) {
                    Some(j) => {
                        let (sname, _) = project.services.remove(j);
                        project.services.insert(j, (sname, record));
                        proof {
                            assert(se[j as int].0 == service_name@);
                            lemma_assoc_update(se, j as int, record);
                            assert(service_entries(project.services@) =~= se.update(
                                j as int,
                                (se[j as int].0, record),
                            ));
                        }
                    },
                    None => {
                        project.services.push((service_name.to_owned(), record));
                        proof {
                            assert(service_entries(project.services@) =~= se.push(
                                (service_name@, record),
                            ));
                            lemma_assoc_push(se, (service_name@, record));
                            assert forall|a: int, b: int|
                                #![trigger se.push((service_name@, record))[a], se.push((service_name@, record))[b]]
                                0 <= a < se.len() + 1 && 0 <= b < se.len() + 1 && a != b
                                implies se.push((service_name@, record))[a].0
                                != se.push((service_name@, record))[b].0 by {
                                assert(a < se.len() ==> se.push((service_name@, record))[a] == se[a]);
                                assert(b < se.len() ==> se.push((service_name@, record))[b] == se[b]);
                            }
                        }
                    },
                }
                let ghost pv = project@;
                self.projects.insert(i, (name, project));
                proof {
                    assert(project_entries(self.projects@) =~= pe.update(i as int, (pe[i as int].0, pv)));
                    lemma_assoc_update(pe, i as int, pv);
                    assert forall|k: int| 0 <= k < self.projects@.len() implies (
                    #[trigger] self.projects@[k]).1.wf() by {
                        if k != i {
                            assert(self.projects@[k] == old(self).projects@[k]);
                        }
                    }
                }
            },
            None => {
                let mut services: Vec<(String, ServiceState)> = Vec::new();
                services.push((service_name.to_owned(), record));
                let project = ProjectState { path: project_path, services };
                proof {
                    let se = service_entries(project.services@);
                    assert(se =~= Seq::<(Seq<char>, ServiceState)>::empty().push((service_name@, record)));
                    lemma_assoc_push(Seq::<(Seq<char>, ServiceState)>::empty(), (service_name@, record));
                    assert(assoc_map(Seq::<(Seq<char>, ServiceState)>::empty()) == Map::<Seq<char>, ServiceState>::empty());
                }
                let ghost pv = project@;
                self.projects.push((project_name.to_owned(), project));
                proof {
                    assert(project_entries(self.projects@) =~= pe.push((project_name@, pv)));
                    lemma_assoc_push(pe, (project_name@, pv));
                    let q = pe.push((project_name@, pv));
                    assert forall|a: int, b: int|
                        #![trigger q[a], q[b]]
                        0 <= a < q.len() && 0 <= b < q.len() && a != b implies q[a].0 != q[b].0 by {
                        assert(a < pe.len() ==> q[a] == pe[a]);
                        assert(b < pe.len() ==> q[b] == pe[b]);
                    }
                    assert forall|k: int| 0 <= k < self.projects@.len() implies (
                    #[trigger] self.projects@[k]).1.wf() by {
                        if k < old(self).projects@.len() {
                            assert(self.projects@[k] == old(self).projects@[k]);
                        }
                    }
                }
            },
        }
    }
    /// Forgets a project and all its services.
    pub fn remove_project(&mut self, project_name: &str)
        requires
            old(self).wf(),
        ensures
            final(self).wf(),
            final(self)@ == old(self)@.remove(project_name@),
    {
        let ghost pe = project_entries(self.projects@);
        proof {
            lemma_assoc_keys(pe, project_name@);
        }
        match find_entry(&self.projects, project_name) {
            Some(i) => {
                self.projects.remove(i);
                proof {
                    assert(project_entries(self.projects@) =~= pe.remove(i as int));
                    lemma_assoc_remove(pe, i as int);
                    assert forall|k: int| 0 <= k < self.projects@.len() implies (
                    #[trigger] self.projects@[k]).1.wf() by {
                        if k < i {
                            assert(self.projects@[k] == old(self).projects@[k]);
                        } else {
                            assert(self.projects@[k] == old(self).projects@[k + 1]);
                        }
                    }
                }
            },
            None => {
                proof {
                    assert forall|j: int| 0 <= j < pe.len() implies pe[j].0 != project_name@ by {
                        assert(pe[j].0 == self.projects@[j].0@);
                    }
                    assert(old(self)@.remove(project_name@) =~= old(self)@);
                }
            },
        }
    }

    /// Forgets one service; its project goes too when no service is left.
    pub fn remove_service(&mut self, project_name: &str, service_name: &str)
        requires
            old(self).wf(),
        ensures
            final(self).wf(),
            final(self)@ == without_service(old(self)@, project_name@, service_name@),
    {
        let ghost pe = project_entries(self.projects@);
        proof {
            lemma_assoc_keys(pe, project_name@);
        }
        match find_entry(&self.projects, project_name) {
            Some(i) => {
                let (name, mut project) = self.projects.remove(i);
                let ghost se = service_entries(project.services@);
                proof {
                    assert(pe[i as int] == (name@, project@));
                    lemma_assoc_at(pe, i as int);
                    lemma_assoc_keys(se, service_name@);
                }
                match find_entry(&project.services, service_name) {
                    Some(j) => {
                        project.services.remove(j);
                        proof {
                            assert(se[j as int].0 == service_name@);
                            assert(service_entries(project.services@) =~= se.remove(j as int));
                            lemma_assoc_remove(se, j as int);
                        }
                    },
                    None => {
                        proof {
                            assert forall|j: int| 0 <= j < se.len() implies se[j].0
                                != service_name@ by {
                                assert(se[j].0 == project.services@[j].0@);
                            }
                            assert(old(self)@[project_name@].1.remove(service_name@)
                                =~= old(self)@[project_name@].1);
                        }
                    },
                }
                if project.services.len() == 0 {
                    proof {
                        assert(service_entries(project.services@) =~= Seq::empty());
                        assert(project@.1 =~= Map::<Seq<char>, ServiceState>::empty());
                        assert(project_entries(self.projects@) =~= pe.remove(i as int));
                        lemma_assoc_remove(pe, i as int);
                        assert forall|k: int| 0 <= k < self.projects@.len() implies (
                        #[trigger] self.projects@[k]).1.wf() by {
                            if k < i {
                                assert(self.projects@[k] == old(self).projects@[k]);
                            } else {
                                assert(self.projects@[k] == old(self).projects@[k + 1]);
                            }
                        }
                    }
                } else {
                    let ghost pv = project@;
                    proof {
                        lemma_assoc_at(service_entries(project.services@), 0);
                        assert(!(pv.1 == Map::<Seq<char>, ServiceState>::empty()));
                    }
                    self.projects.insert(i, (name, project));
                    proof {
                        assert(project_entries(self.projects@) =~= pe.update(
                            i as int,
                            (pe[i as int].0, pv),
                        ));
                        lemma_assoc_update(pe, i as int, pv);
                        assert forall|k: int| 0 <= k < self.projects@.len() implies (
                        #[trigger] self.projects@[k]).1.wf() by {
                            if k != i {
                                assert(self.projects@[k] == old(self).projects@[k]);
                            }
                        }
                    }
                }
            },
            None => {
                proof {
                    assert forall|j: int| 0 <= j < pe.len() implies pe[j].0 != project_name@ by {
                        assert(pe[j].0 == self.projects@[j].0@);
                    }
                }
            },
        }
    }

    /// Drops every service that `obs` does not show alive, then every
    /// project left without services.
    pub fn clean_stale_pids(&mut self, obs: &Liveness)
        requires
            old(self).wf(),
        ensures
            final(self).wf(),
            final(self)@ == cleaned(old(self)@, obs),
    {
        let ghost pe = project_entries(self.projects@);
        let ghost pc = project_cleaner(obs);
        let ghost sf = service_filter(obs);
        let mut kept_projects: Vec<(String, ProjectState)> = Vec::new();
        let mut i: usize = 0;
        while i < self.projects.len()
            invariant
                self.wf(),
                pe == project_entries(self.projects@),
                pc == project_cleaner(obs),
                sf == service_filter(obs),
                i <= self.projects@.len(),
                project_entries(kept_projects@) == filter_map_entries(pe.subrange(0, i as int), pc),
                forall|k: int| 0 <= k < kept_projects@.len() ==> (#[trigger] kept_projects@[k]).1.wf(),
            decreases self.projects@.len() - i,
        {
            let project = &self.projects[i].1;
            let ghost se = service_entries(project.services@);
            let mut kept: Vec<(String, ServiceState)> = Vec::new();
            let mut j: usize = 0;
            while j < project.services.len()
                invariant
                    se == service_entries(project.services@),
                    sf == service_filter(obs),
                    j <= project.services@.len(),
                    service_entries(kept@) == filter_map_entries(se.subrange(0, j as int), sf),
                decreases project.services@.len() - j,
            {
                let entry = &project.services[j];
                let keep = is_service_running(entry.1.port, entry.1.pid, obs);
                let ghost before = kept@;
                if keep {
                    kept.push((entry.0.clone(), entry.1));
                    proof {
                        assert(service_entries(kept@) =~= service_entries(before).push(se[j as int]));
                    }
                }
                proof {
                    assert(se.subrange(0, j + 1).drop_last() =~= se.subrange(0, j as int));
                }
                j = j + 1;
            }
            proof {
                assert(se.subrange(0, j as int) =~= se);
                assert(self.projects@[i as int].1.wf());
                lemma_filter_map(se, sf);
                assert(assoc_map(service_entries(kept@)) == live_services(project@.1, obs));
                if kept@.len() > 0 {
                    lemma_assoc_at(service_entries(kept@), 0);
                } else {
                    assert(service_entries(kept@) =~= Seq::empty());
                }
            }
            let ghost before = kept_projects@;
            if kept.len() > 0 {
                let fresh = ProjectState { path: project.path.clone(), services: kept };
                kept_projects.push((self.projects[i].0.clone(), fresh));
                proof {
                    assert(project_entries(kept_projects@) =~= project_entries(before).push(
                        (pe[i as int].0, pc(pe[i as int].1)->Some_0),
                    ));
                }
            }
            proof {
                assert(pe.subrange(0, i + 1).drop_last() =~= pe.subrange(0, i as int));
                assert(pe[i as int] == (self.projects@[i as int].0@, self.projects@[i as int].1@));
            }
            i = i + 1;
        }
        proof {
            assert(pe.subrange(0, i as int) =~= pe);
            lemma_filter_map(pe, pc);
        }
        self.projects = kept_projects;
    }

    /// The project named `project_name`, if it is registered.
    pub fn get_project(&self, project_name: &str) -> (r: Option<&ProjectState>)
        requires
            self.wf(),
        ensures
            r is Some <==> self@.contains_key(project_name@),
            r matches Some(p) ==> p@ == self@[project_name@] && p.wf(),
    {
        let ghost pe = project_entries(self.projects@);
        proof {
            lemma_assoc_keys(pe, project_name@);
        }
        match find_entry(&self.projects, project_name) {
            Some(i) => {
                proof {
                    assert(pe[i as int] == (self.projects@[i as int].0@, self.projects@[i as int].1@));
                    lemma_assoc_at(pe, i as int);
                }
                Some(&self.projects[i].1)
            },
            None => {
                proof {
                    assert forall|j: int| 0 <= j < pe.len() implies pe[j].0 != project_name@ by {
                        assert(pe[j].0 == self.projects@[j].0@);
                    }
                }
                None
            },
        }
    }
}

/// Whether a service is running: by its port when one is known (whatever
/// process holds it), else by its process id.
pub fn is_service_running(port: Option<u16>, pid: u32, obs: &Liveness) -> (r: bool)
    ensures
        r == alive(port, pid, obs),
{
    match port {
        Some(p) => obs.port_in_use(p),
        None => obs.pid_running(pid),
    }
}

/// Reconciling twice against the same observation gives the registry that
/// reconciling once gave.
pub proof fn lemma_clean_idempotent(m: Map<Seq<char>, ProjectView>, obs: &Liveness)
    ensures
        cleaned(cleaned(m, obs), obs) == cleaned(m, obs),
{
    let once = cleaned(m, obs);
    assert forall|k: Seq<char>| #[trigger] once.contains_key(k) implies live_services(
        once[k].1,
        obs,
    ) == once[k].1 by {
        assert(live_services(once[k].1, obs) =~= once[k].1);
    }
    assert(cleaned(once, obs) =~= once);
}

/// When a service has a port, its liveness is whether that port is occupied,
/// whichever process holds it: the recorded pid plays no part.
pub proof fn lemma_port_decides_liveness(port: u16, recorded: u32, holder: u32, obs: &Liveness)
    ensures
        alive(Some(port), recorded, obs) == obs.busy_ports@.contains(port),
        alive(Some(port), recorded, obs) == alive(Some(port), holder, obs),
{
}

} // verus!
