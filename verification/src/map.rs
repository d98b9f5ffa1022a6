//! The world model: the in-memory authoritative view of projects,
//! deployments, per-project production databases, production selection and
//! the custom-domain index, rebuilt from persistence by the reconciliation
//! pass.

use vstd::prelude::*;

use crate::bytes::{bytes_eq_slice, to_vec};
use crate::certs::CertificateStore;
use crate::container::{BuildResult, ContainerStatus, StatusSpec};
use crate::ids::NanoId;

verus! {

/// Milliseconds a container may sit idle before the reconciliation pass
/// downgrades it: five minutes.
pub const IDLE_GRACE_MILLIS: i64 = 300000;

/// One deployment as the world model holds it: the row's identity and the
/// state of its app container.
#[derive(Debug)]
pub struct DeploymentHandle {
    pub id: NanoId,
    pub project: NanoId,
    pub url_id: Vec<u8>,
    pub branch: Vec<u8>,
    pub sha: Vec<u8>,
    pub default_branch: bool,
    pub timestamp: i64,
    pub created: i64,
    pub forced_prod: bool,
    pub result: Option<BuildResult>,
    pub last_hit: i64,
    pub status: ContainerStatus,
}

/// The mathematical shape of a deployment handle.
pub struct HandleSpec {
    pub id: Seq<u8>,
    pub project: Seq<u8>,
    pub url_id: Seq<u8>,
    pub branch: Seq<u8>,
    pub sha: Seq<u8>,
    pub default_branch: bool,
    pub timestamp: i64,
    pub created: i64,
    pub forced_prod: bool,
    pub result: Option<BuildResult>,
    pub last_hit: i64,
    pub status: StatusSpec,
}

impl View for DeploymentHandle {
    type V = HandleSpec;

    open spec fn view(&self) -> HandleSpec {
        HandleSpec {
            id: self.id@,
            project: self.project@,
            url_id: self.url_id@,
            branch: self.branch@,
            sha: self.sha@,
            default_branch: self.default_branch,
            timestamp: self.timestamp,
            created: self.created,
            forced_prod: self.forced_prod,
            result: self.result,
            last_hit: self.last_hit,
            status: self.status@,
        }
    }
}

/// The per-project production database container.
#[derive(Debug)]
pub struct ProdDbEntry {
    pub project: NanoId,
    pub status: ContainerStatus,
}

impl View for ProdDbEntry {
    type V = (Seq<u8>, StatusSpec);

    open spec fn view(&self) -> (Seq<u8>, StatusSpec) {
        (self.project@, self.status@)
    }
}

/// A byte-string key bound to a project id: a project name, or a custom
/// domain.
#[derive(Debug)]
pub struct KeyedId {
    pub key: Vec<u8>,
    pub id: NanoId,
}

impl View for KeyedId {
    type V = (Seq<u8>, Seq<u8>);

    open spec fn view(&self) -> (Seq<u8>, Seq<u8>) {
        (self.key@, self.id@)
    }
}

/// A project's selected production deployment, by URL slug.
#[derive(Debug)]
pub struct ProdEntry {
    pub project: NanoId,
    pub url_id: Vec<u8>,
}

impl View for ProdEntry {
    type V = (Seq<u8>, Seq<u8>);

    open spec fn view(&self) -> (Seq<u8>, Seq<u8>) {
        (self.project@, self.url_id@)
    }
}

/// A pair sequence holds `k` among its keys.
pub open spec fn pairs_have_key(s: Seq<(Seq<u8>, Seq<u8>)>, k: Seq<u8>) -> bool {
    exists|i: int| 0 <= i < s.len() && s[i].0 == k
}

/// The value bound to `k` in a pair sequence (the first match).
pub open spec fn pairs_value_of(s: Seq<(Seq<u8>, Seq<u8>)>, k: Seq<u8>) -> Seq<u8> {
    s[choose|i: int| 0 <= i < s.len() && s[i].0 == k].1
}

/// The keys of a pair sequence are distinct.
pub open spec fn pairs_distinct(s: Seq<(Seq<u8>, Seq<u8>)>) -> bool {
    forall|i: int, j: int| 0 <= i < j < s.len() ==> s[i].0 != s[j].0
}

/// A handle sequence holds the key (project id, url slug).
pub open spec fn deps_have_key(deps: Seq<HandleSpec>, p: Seq<u8>, s: Seq<u8>) -> bool {
    exists|i: int| 0 <= i < deps.len() && deps[i].project == p && deps[i].url_id == s
}

/// Deployment keys are distinct in a handle sequence.
pub open spec fn deps_distinct(deps: Seq<HandleSpec>) -> bool {
    forall|i: int, j: int|
        0 <= i < j < deps.len() ==> !(deps[i].project == deps[j].project && deps[i].url_id
            == deps[j].url_id)
}

/// The in-memory world model.
#[derive(Debug)]
pub struct DeploymentMap {
    /// project id -> production database container
    pub dbs: Vec<ProdDbEntry>,
    /// (project id, url slug) -> deployment handle
    pub deployments: Vec<DeploymentHandle>,
    /// project id -> production deployment slug
    pub prod: Vec<ProdEntry>,
    /// project name -> project id
    pub names: Vec<KeyedId>,
    /// custom domain -> project id
    pub custom_domains: Vec<KeyedId>,
    /// domain -> TLS material state
    pub certificates: CertificateStore,
}

impl DeploymentMap {
    pub open spec fn dbs_view(&self) -> Seq<(Seq<u8>, StatusSpec)> {
        self.dbs@.map_values(|e: ProdDbEntry| e@)
    }

    pub open spec fn deps_view(&self) -> Seq<HandleSpec> {
        self.deployments@.map_values(|d: DeploymentHandle| d@)
    }

    pub open spec fn prod_view(&self) -> Seq<(Seq<u8>, Seq<u8>)> {
        self.prod@.map_values(|p: ProdEntry| p@)
    }

    pub open spec fn names_view(&self) -> Seq<(Seq<u8>, Seq<u8>)> {
        self.names@.map_values(|n: KeyedId| n@)
    }

    pub open spec fn domains_view(&self) -> Seq<(Seq<u8>, Seq<u8>)> {
        self.custom_domains@.map_values(|n: KeyedId| n@)
    }

    /// Every index of the model is keyed uniquely.
    pub open spec fn wf(&self) -> bool {
        &&& deps_distinct(self.deps_view())
        &&& pairs_distinct(self.prod_view())
        &&& pairs_distinct(self.names_view())
        &&& pairs_distinct(self.domains_view())
        &&& (forall|i: int, j: int|
            0 <= i < j < self.dbs_view().len() ==> self.dbs_view()[i].0 != self.dbs_view()[j].0)
        &&& self.certificates.wf()
    }

    /// An empty world model over a certificate store.
    pub fn new(store: CertificateStore) -> (r: DeploymentMap)
        requires
            store.wf(),
        ensures
            r.dbs_view() =~= Seq::<(Seq<u8>, StatusSpec)>::empty(),
            r.deps_view() =~= Seq::<HandleSpec>::empty(),
            r.prod_view() =~= Seq::<(Seq<u8>, Seq<u8>)>::empty(),
            r.names_view() =~= Seq::<(Seq<u8>, Seq<u8>)>::empty(),
            r.domains_view() =~= Seq::<(Seq<u8>, Seq<u8>)>::empty(),
            r.certificates == store,
            r.wf(),
    {
        DeploymentMap {
            dbs: Vec::new(),
            deployments: Vec::new(),
            prod: Vec::new(),
            names: Vec::new(),
            custom_domains: Vec::new(),
            certificates: store,
        }
    }

    /// Looks a deployment up by project id and URL slug.
    pub fn get_deployment_by_id(&self, project: &[u8], deployment: &[u8]) -> (r: Option<
        &DeploymentHandle,
    >)
        ensures
            match r {
                Some(h) => h@.project == project@ && h@.url_id == deployment@ && exists|i: int|
                    0 <= i < self.deps_view().len() && self.deps_view()[i] == h@,
                None => !deps_have_key(self.deps_view(), project@, deployment@),
            },
    {
        let mut i: usize = 0;
        while i < self.deployments.len()
            invariant
                i <= self.deployments@.len(),
                forall|j: int|
                    0 <= j < i ==> !(self.deps_view()[j].project == project@
                        && self.deps_view()[j].url_id == deployment@),
            decreases self.deployments.len() - i,
        {
            proof {
                assert(self.deps_view()[i as int] == self.deployments@[i as int]@);
            }
            if bytes_eq_slice(self.deployments[i].project.as_bytes().as_slice(), project)
                && bytes_eq_slice(self.deployments[i].url_id.as_slice(), deployment) {
                return Some(&self.deployments[i]);
            }
            i += 1;
        }
        None
    }

    /// Looks a project id up by project name.
    pub fn get_project_id_by_name(&self, name: &[u8]) -> (r: Option<&NanoId>)
        ensures
            match r {
                Some(id) => exists|i: int|
                    0 <= i < self.names_view().len() && self.names_view()[i] == (name@, id@),
                None => !pairs_have_key(self.names_view(), name@),
            },
    {
        let mut i: usize = 0;
        while i < self.names.len()
            invariant
                i <= self.names@.len(),
                forall|j: int| 0 <= j < i ==> self.names_view()[j].0 != name@,
            decreases self.names.len() - i,
        {
            proof {
                assert(self.names_view()[i as int] == self.names@[i as int]@);
            }
            if bytes_eq_slice(self.names[i].key.as_slice(), name) {
                return Some(&self.names[i].id);
            }
            i += 1;
        }
        None
    }

    /// Looks a deployment up by project name and URL slug.
    pub fn get_deployment_by_name(&self, project: &[u8], deployment: &[u8]) -> (r: Option<
        &DeploymentHandle,
    >)
        requires
            self.wf(),
        ensures
            match r {
                Some(h) => h@.url_id == deployment@ && (exists|i: int|
                    0 <= i < self.deps_view().len() && self.deps_view()[i] == h@) && (exists|
                    i: int,
                |
                    0 <= i < self.names_view().len() && self.names_view()[i] == (
                        project@,
                        h@.project,
                    )),
                None => forall|i: int|
                    0 <= i < self.names_view().len() && #[trigger] self.names_view()[i].0
                        == project@ ==> !deps_have_key(
                        self.deps_view(),
                        self.names_view()[i].1,
                        deployment@,
                    ),
            },
    {
        match self.get_project_id_by_name(project) {
            Some(id) => {
                let id_bytes = id.to_vec();
                let r = self.get_deployment_by_id(id_bytes.as_slice(), deployment);
                proof {
                    if r is None {
                        let w = choose|w: int|
                            0 <= w < self.names_view().len() && self.names_view()[w] == (
                                project@,
                                id@,
                            );
                        assert forall|i: int|
                            0 <= i < self.names_view().len() && #[trigger] self.names_view()[
                            i].0 == project@ implies !deps_have_key(
                            self.deps_view(),
                            self.names_view()[i].1,
                            deployment@,
                        ) by {
                            if i != w {
                                assert(self.names_view()[i].0 != self.names_view()[w].0);
                            }
                        }
                    }
                }
                r
            },
            None => None,
        }
    }

    /// Whether any deployment in the model carries this deployment id.
    pub fn has_deployment_id(&self, id: &[u8]) -> (r: bool)
        ensures
            r <==> exists|i: int|
                0 <= i < self.deps_view().len() && self.deps_view()[i].id == id@,
    {
        let mut i: usize = 0;
        while i < self.deployments.len()
            invariant
                i <= self.deployments@.len(),
                forall|j: int| 0 <= j < i ==> self.deps_view()[j].id != id@,
            decreases self.deployments.len() - i,
        {
            proof {
                assert(self.deps_view()[i as int] == self.deployments@[i as int]@);
            }
            if bytes_eq_slice(self.deployments[i].id.as_bytes().as_slice(), id) {
                return true;
            }
            i += 1;
        }
        false
    }

    /// The slug the model selects as production for a project id.
    pub fn get_prod_slug(&self, project: &[u8]) -> (r: Option<&Vec<u8>>)
        ensures
            match r {
                Some(s) => exists|i: int|
                    0 <= i < self.prod_view().len() && self.prod_view()[i] == (project@, s@),
                None => !pairs_have_key(self.prod_view(), project@),
            },
    {
        let mut i: usize = 0;
        while i < self.prod.len()
            invariant
                i <= self.prod@.len(),
                forall|j: int| 0 <= j < i ==> self.prod_view()[j].0 != project@,
            decreases self.prod.len() - i,
        {
            proof {
                assert(self.prod_view()[i as int] == self.prod@[i as int]@);
            }
            if bytes_eq_slice(self.prod[i].project.as_bytes().as_slice(), project) {
                return Some(&self.prod[i].url_id);
            }
            i += 1;
        }
        None
    }

    /// The production deployment of a project, by project id.
    pub fn get_prod_from_id(&self, project: &[u8]) -> (r: Option<&DeploymentHandle>)
        requires
            self.wf(),
        ensures
            match r {
                Some(h) => h@.project == project@ && is_prod_key(
                    self.prod_view(),
                    h@.project,
                    h@.url_id,
                ) && exists|i: int|
                    0 <= i < self.deps_view().len() && self.deps_view()[i] == h@,
                None => forall|i: int|
                    0 <= i < self.prod_view().len() && #[trigger] self.prod_view()[i].0
                        == project@ ==> !deps_have_key(
                        self.deps_view(),
                        project@,
                        self.prod_view()[i].1,
                    ),
            },
    {
        match self.get_prod_slug(project) {
            Some(slug) => {
                let slug2 = to_vec(slug.as_slice());
                let r = self.get_deployment_by_id(project, slug2.as_slice());
                proof {
                    if r is None {
                        let w = choose|w: int|
                            0 <= w < self.prod_view().len() && self.prod_view()[w] == (
                                project@,
                                slug@,
                            );
                        assert forall|i: int|
                            0 <= i < self.prod_view().len() && #[trigger] self.prod_view()[
                            i].0 == project@ implies !deps_have_key(
                            self.deps_view(),
                            project@,
                            self.prod_view()[i].1,
                        ) by {
                            if i != w {
                                assert(self.prod_view()[i].0 != self.prod_view()[w].0);
                            }
                        }
                    }
                }
                r
            },
            None => None,
        }
    }

    /// The production deployment of a project, by project name. Yields
    /// nothing only when no name binding leads to a selected deployment
    /// present in the table.
    pub fn get_prod(&self, project: &[u8]) -> (r: Option<&DeploymentHandle>)
        requires
            self.wf(),
        ensures
            match r {
                Some(h) => is_prod_key(self.prod_view(), h@.project, h@.url_id) && (exists|i: int|
                    0 <= i < self.deps_view().len() && self.deps_view()[i] == h@) && (exists|
                    i: int,
                |
                    0 <= i < self.names_view().len() && self.names_view()[i] == (
                        project@,
                        h@.project,
                    )),
                None => forall|i: int, j: int|
                    0 <= i < self.names_view().len() && 0 <= j < self.prod_view().len()
                        && #[trigger] self.names_view()[i].0 == project@
                        && #[trigger] self.prod_view()[j].0 == self.names_view()[i].1
                        ==> !deps_have_key(
                        self.deps_view(),
                        self.prod_view()[j].0,
                        self.prod_view()[j].1,
                    ),
            },
    {
        match self.get_project_id_by_name(project) {
            Some(id) => {
                let id_bytes = id.to_vec();
                let r = self.get_prod_from_id(id_bytes.as_slice());
                proof {
                    if r is None {
                        let w = choose|w: int|
                            0 <= w < self.names_view().len() && self.names_view()[w] == (
                                project@,
                                id@,
                            );
                        assert forall|i: int, j: int|
                            0 <= i < self.names_view().len() && 0 <= j < self.prod_view().len()
                                && #[trigger] self.names_view()[i].0 == project@
                                && #[trigger] self.prod_view()[j].0 == self.names_view()[i].1
                                implies !deps_have_key(
                                self.deps_view(),
                                self.prod_view()[j].0,
                                self.prod_view()[j].1,
                            ) by {
                            if i != w {
                                assert(self.names_view()[i].0 != self.names_view()[w].0);
                            }
                        }
                    }
                }
                r
            },
            None => None,
        }
    }

    /// The production database container of a project, by project id.
    pub fn get_prod_db(&self, project: &[u8]) -> (r: Option<&ProdDbEntry>)
        ensures
            match r {
                Some(e) => e@.0 == project@ && exists|i: int|
                    0 <= i < self.dbs_view().len() && self.dbs_view()[i] == e@,
                None => !(exists|i: int|
                    0 <= i < self.dbs_view().len() && self.dbs_view()[i].0 == project@),
            },
    {
        let mut i: usize = 0;
        while i < self.dbs.len()
            invariant
                i <= self.dbs@.len(),
                forall|j: int| 0 <= j < i ==> self.dbs_view()[j].0 != project@,
            decreases self.dbs.len() - i,
        {
            proof {
                assert(self.dbs_view()[i as int] == self.dbs@[i as int]@);
            }
            if bytes_eq_slice(self.dbs[i].project.as_bytes().as_slice(), project) {
                return Some(&self.dbs[i]);
            }
            i += 1;
        }
        None
    }

    /// The production deployment of the project a custom domain points
    /// to. Yields nothing only when no domain binding leads to a present
    /// deployment.
    pub fn get_custom_domain(&self, domain: &[u8]) -> (r: Option<&DeploymentHandle>)
        requires
            self.wf(),
        ensures
            match r {
                Some(h) => is_prod_key(self.prod_view(), h@.project, h@.url_id) && (exists|i: int|
                    0 <= i < self.deps_view().len() && self.deps_view()[i] == h@) && (exists|
                    i: int,
                |
                    0 <= i < self.domains_view().len() && self.domains_view()[i] == (
                        domain@,
                        h@.project,
                    )),
                None => forall|i: int, j: int|
                    0 <= i < self.domains_view().len() && 0 <= j < self.prod_view().len()
                        && #[trigger] self.domains_view()[i].0 == domain@
                        && #[trigger] self.prod_view()[j].0 == self.domains_view()[i].1
                        ==> !deps_have_key(
                        self.deps_view(),
                        self.prod_view()[j].0,
                        self.prod_view()[j].1,
                    ),
            },
    {
        let mut k: usize = 0;
        while k < self.custom_domains.len()
            invariant
                k <= self.custom_domains@.len(),
                self.wf(),
                forall|j: int| 0 <= j < k ==> self.domains_view()[j].0 != domain@,
            decreases self.custom_domains.len() - k,
        {
            proof {
                assert(self.domains_view()[k as int] == self.custom_domains@[k as int]@);
            }
            if bytes_eq_slice(self.custom_domains[k].key.as_slice(), domain) {
                let id_bytes = self.custom_domains[k].id.to_vec();
                let r = self.get_prod_from_id(id_bytes.as_slice());
                proof {
                    if r is Some {
                        assert(self.domains_view()[k as int] == (domain@, r->Some_0@.project));
                    }
                    if r is None {
                        assert forall|i: int, j: int|
                            0 <= i < self.domains_view().len() && 0 <= j
                                < self.prod_view().len() && #[trigger] self.domains_view()[
                            i].0 == domain@ && #[trigger] self.prod_view()[j].0
                                == self.domains_view()[i].1 implies !deps_have_key(
                            self.deps_view(),
                            self.prod_view()[j].0,
                            self.prod_view()[j].1,
                        ) by {
                            if i != k {
                                assert(self.domains_view()[i].0 != self.domains_view()[
                                    k as int].0);
                            }
                        }
                    }
                }
                return r;
            }
            k += 1;
        }
        None
    }

    /// The index of the deployment carrying the key (project, slug), if
    /// one is present.
    pub fn find_dep_index(&self, project: &[u8], deployment: &[u8]) -> (r: Option<usize>)
        ensures
            match r {
                Some(ix) => ix < self.deps_view().len() && self.deps_view()[
                    ix as int].project == project@ && self.deps_view()[ix as int].url_id
                    == deployment@,
                None => !deps_have_key(self.deps_view(), project@, deployment@),
            },
    {
        let mut j: usize = 0;
        while j < self.deployments.len()
            invariant
                j <= self.deployments@.len(),
                forall|k: int|
                    0 <= k < j ==> !(self.deps_view()[k].project == project@
                        && self.deps_view()[k].url_id == deployment@),
            decreases self.deployments.len() - j,
        {
            proof {
                assert(self.deps_view()[j as int] == self.deployments@[j as int]@);
            }
            if bytes_eq_slice(self.deployments[j].project.as_bytes().as_slice(), project)
                && bytes_eq_slice(self.deployments[j].url_id.as_slice(), deployment) {
                return Some(j);
            }
            j += 1;
        }
        None
    }

    /// The indices of the deployments the model selects as production:
    /// exactly one for each selection whose deployment is present in the
    /// table.
    pub fn iter_prod_deployments(&self) -> (r: Vec<usize>)
        ensures
            forall|k: int|
                0 <= k < r@.len() ==> r@[k] < self.deps_view().len() && is_prod_key(
                    self.prod_view(),
                    self.deps_view()[r@[k] as int].project,
                    self.deps_view()[r@[k] as int].url_id,
                ),
            forall|j: int|
                0 <= j < self.prod_view().len() && deps_have_key(
                    self.deps_view(),
                    #[trigger] self.prod_view()[j].0,
                    self.prod_view()[j].1,
                ) ==> exists|k: int|
                    0 <= k < r@.len() && r@[k] < self.deps_view().len() && self.deps_view()[
                        r@[k] as int].project == self.prod_view()[j].0 && self.deps_view()[
                        r@[k] as int].url_id == self.prod_view()[j].1,
    {
        let mut out: Vec<usize> = Vec::new();
        let mut i: usize = 0;
        while i < self.prod.len()
            invariant
                i <= self.prod@.len(),
                forall|k: int|
                    0 <= k < out@.len() ==> out@[k] < self.deps_view().len() && is_prod_key(
                        self.prod_view(),
                        self.deps_view()[out@[k] as int].project,
                        self.deps_view()[out@[k] as int].url_id,
                    ),
                forall|j: int|
                    0 <= j < i && deps_have_key(
                        self.deps_view(),
                        #[trigger] self.prod_view()[j].0,
                        self.prod_view()[j].1,
                    ) ==> exists|k: int|
                        0 <= k < out@.len() && out@[k] < self.deps_view().len()
                            && self.deps_view()[out@[k] as int].project == self.prod_view()[
                            j].0 && self.deps_view()[out@[k] as int].url_id
                            == self.prod_view()[j].1,
            decreases self.prod.len() - i,
        {
            proof {
                assert(self.prod_view()[i as int] == self.prod@[i as int]@);
            }
            let ghost prev = out@;
            match self.find_dep_index(
                self.prod[i].project.as_bytes().as_slice(),
                self.prod[i].url_id.as_slice(),
            ) {
                Some(ix) => {
                    proof {
                        assert(is_prod_key(
                            self.prod_view(),
                            self.deps_view()[ix as int].project,
                            self.deps_view()[ix as int].url_id,
                        ));
                    }
                    out.push(ix);
                    proof {
                        assert forall|j: int|
                            0 <= j < i + 1 && deps_have_key(
                                self.deps_view(),
                                #[trigger] self.prod_view()[j].0,
                                self.prod_view()[j].1,
                            ) implies exists|k: int|
                            0 <= k < out@.len() && out@[k] < self.deps_view().len()
                                && self.deps_view()[out@[k] as int].project
                                == self.prod_view()[j].0 && self.deps_view()[
                                out@[k] as int].url_id == self.prod_view()[j].1 by {
                            if j == i {
                                assert(out@[out@.len() - 1] == ix);
                            } else {
                                let k = choose|k: int|
                                    0 <= k < prev.len() && prev[k] < self.deps_view().len()
                                        && self.deps_view()[prev[k] as int].project
                                        == self.prod_view()[j].0 && self.deps_view()[
                                        prev[k] as int].url_id == self.prod_view()[j].1;
                                assert(out@[k] == prev[k]);
                            }
                        }
                    }
                },
                None => {},
            }
            i += 1;
        }
        out
    }

    /// Every container name the world model references: the app containers
    /// of its deployments, their branch database containers, and the
    /// production database containers. The container garbage collector
    /// must not touch any of these.
    pub fn referenced_container_names(&self) -> (r: Vec<Vec<u8>>)
        ensures
            forall|n: Seq<u8>| #[trigger]
                views_of(r@).contains(n) <==> map_references_container(self, n),
    {
        let mut out: Vec<Vec<u8>> = Vec::new();
        let mut i: usize = 0;
        while i < self.deployments.len()
            invariant
                i <= self.deployments@.len(),
                forall|k: int|
                    0 <= k < out@.len() ==> map_references_container(
                        self,
                        #[trigger] views_of(out@)[k],
                    ),
                forall|j: int|
                    0 <= j < i ==> status_covered(#[trigger] self.deps_view()[j].status, views_of(
                        out@,
                    )),
            decreases self.deployments.len() - i,
        {
            proof {
                assert(self.deps_view()[i as int] == self.deployments@[i as int]@);
            }
            let ghost prev = views_of(out@);
            match self.deployments[i].status.get_container() {
                Some(c) => {
                    out.push(to_vec(c.as_slice()));
                    proof {
                        assert(views_of(out@) =~= prev.push(c@));
                        lemma_push_keeps_contains(prev, c@);
                    }
                },
                None => {},
            }
            let ghost prev2 = views_of(out@);
            match self.deployments[i].status.get_db_container() {
                Some(c) => {
                    out.push(to_vec(c.as_slice()));
                    proof {
                        assert(views_of(out@) =~= prev2.push(c@));
                        lemma_push_keeps_contains(prev2, c@);
                    }
                },
                None => {},
            }
            i += 1;
        }
        let mut d: usize = 0;
        while d < self.dbs.len()
            invariant
                d <= self.dbs@.len(),
                forall|k: int|
                    0 <= k < out@.len() ==> map_references_container(
                        self,
                        #[trigger] views_of(out@)[k],
                    ),
                forall|j: int|
                    0 <= j < self.deps_view().len() ==> status_covered(
                        #[trigger] self.deps_view()[j].status,
                        views_of(out@),
                    ),
                forall|j: int|
                    0 <= j < d ==> match status_container(#[trigger] self.dbs_view()[j].1) {
                        Some(c) => views_of(out@).contains(c),
                        None => true,
                    },
            decreases self.dbs.len() - d,
        {
            proof {
                assert(self.dbs_view()[d as int] == self.dbs@[d as int]@);
            }
            let ghost prev = views_of(out@);
            match self.dbs[d].status.get_container() {
                Some(c) => {
                    out.push(to_vec(c.as_slice()));
                    proof {
                        assert(views_of(out@) =~= prev.push(c@));
                        lemma_push_keeps_contains(prev, c@);
                    }
                },
                None => {},
            }
            d += 1;
        }
        proof {
            assert forall|n: Seq<u8>| #[trigger]
                views_of(out@).contains(n) implies map_references_container(self, n) by {
                let k = choose|k: int| 0 <= k < views_of(out@).len() && views_of(out@)[k] == n;
                assert(map_references_container(self, views_of(out@)[k]));
            }
        }
        out
    }
}

/// The views of a sequence of byte vectors.
pub open spec fn views_of(s: Seq<Vec<u8>>) -> Seq<Seq<u8>> {
    s.map_values(|v: Vec<u8>| v@)
}

/// Both container names of a state, where present, appear in `names`.
pub open spec fn status_covered(s: StatusSpec, names: Seq<Seq<u8>>) -> bool {
    &&& match status_container(s) {
        Some(c) => names.contains(c),
        None => true,
    }
    &&& match status_db_container(s) {
        Some(c) => names.contains(c),
        None => true,
    }
}

/// Whatever a sequence contains, it still contains after a push.
pub proof fn lemma_push_keeps_contains(s: Seq<Seq<u8>>, x: Seq<u8>)
    ensures
        forall|y: Seq<u8>| s.contains(y) ==> #[trigger] s.push(x).contains(y),
        s.push(x).contains(x),
{
    assert forall|y: Seq<u8>| s.contains(y) implies #[trigger] s.push(x).contains(y) by {
        let w = choose|w: int| 0 <= w < s.len() && s[w] == y;
        assert(s.push(x)[w] == y);
    }
    assert(s.push(x)[s.len() as int] == x);
}

// ------------------------------------------------------------------
// The reconciliation pass: rebuilding the model from persistence rows.
// ------------------------------------------------------------------

use crate::records::{
    Deployment, DeploymentSpec, DeploymentWithProject, Project, ProjectSpec, RowSpec,
};

/// The views of a row vector.
pub open spec fn rows_view(rows: &Vec<DeploymentWithProject>) -> Seq<RowSpec> {
    rows@.map_values(|r: DeploymentWithProject| r@)
}

/// No two rows share the (project id, url slug) key.
pub open spec fn rows_distinct(rows: Seq<RowSpec>) -> bool {
    forall|i: int, j: int|
        0 <= i < j < rows.len() ==> !(rows[i].project.id == rows[j].project.id
            && rows[i].deployment.url_id == rows[j].deployment.url_id)
}

/// Some row carries the (project id, url slug) key.
pub open spec fn rows_have_dep_key(rows: Seq<RowSpec>, p: Seq<u8>, s: Seq<u8>) -> bool {
    exists|i: int|
        0 <= i < rows.len() && rows[i].project.id == p && rows[i].deployment.url_id == s
}

/// The first project row carrying an id, if any.
pub open spec fn project_for(projs: Seq<ProjectSpec>, id: Seq<u8>) -> Option<ProjectSpec>
    decreases projs.len(),
{
    if projs.len() == 0 {
        None
    } else if projs[0].id == id {
        Some(projs[0])
    } else {
        project_for(projs.drop_first(), id)
    }
}

/// What `project_for` finds carries the id it was asked for.
pub proof fn lemma_project_for_id(projs: Seq<ProjectSpec>, id: Seq<u8>)
    ensures
        project_for(projs, id) matches Some(p) ==> p.id == id,
    decreases projs.len(),
{
    if projs.len() > 0 && projs[0].id != id {
        lemma_project_for_id(projs.drop_first(), id);
    }
}

/// A prefix without the id does not change what `project_for` finds.
pub proof fn lemma_project_for_skip(projs: Seq<ProjectSpec>, id: Seq<u8>, i: int)
    requires
        0 <= i <= projs.len(),
        forall|j: int| 0 <= j < i ==> projs[j].id != id,
    ensures
        project_for(projs, id) == project_for(projs.skip(i), id),
    decreases i,
{
    if i > 0 {
        assert(projs.drop_first() =~= projs.skip(1));
        lemma_project_for_skip(projs.skip(1), id, i - 1);
        assert(projs.skip(1).skip(i - 1) =~= projs.skip(i));
    } else {
        assert(projs.skip(0) =~= projs);
    }
}

/// The first project row carrying the id, if any is present.
pub fn find_project<'a>(projects: &'a Vec<Project>, id: &[u8]) -> (r: Option<&'a Project>)
    ensures
        match r {
            Some(p) => project_for(projects@.map_values(|q: Project| q@), id@) == Some(p@),
            None => project_for(projects@.map_values(|q: Project| q@), id@) is None,
        },
{
    let ghost pv = projects@.map_values(|q: Project| q@);
    let mut i: usize = 0;
    while i < projects.len()
        invariant
            i <= projects@.len(),
            pv == projects@.map_values(|q: Project| q@),
            forall|j: int| 0 <= j < i ==> pv[j].id != id@,
        decreases projects.len() - i,
    {
        proof {
            assert(pv[i as int] == projects@[i as int]@);
        }
        if bytes_eq_slice(projects[i].id.as_bytes().as_slice(), id) {
            proof {
                lemma_project_for_skip(pv, id@, i as int);
                assert(pv.skip(i as int)[0] == pv[i as int]);
            }
            return Some(&projects[i]);
        }
        i += 1;
    }
    proof {
        lemma_project_for_skip(pv, id@, pv.len() as int);
    }
    None
}

/// The snapshot join the reconciliation pass consumes: deployments in
/// order, each joined with the first project row carrying its project
/// id. A deployment whose project row is missing is dropped, and of two
/// rows sharing a (project id, url slug) key only the first is kept.
pub open spec fn join_spec(deps: Seq<DeploymentSpec>, projs: Seq<ProjectSpec>) -> Seq<RowSpec>
    decreases deps.len(),
{
    if deps.len() == 0 {
        Seq::<RowSpec>::empty()
    } else {
        let rest = join_spec(deps.drop_last(), projs);
        let d = deps.last();
        match project_for(projs, d.project) {
            Some(p) => if rows_have_dep_key(rest, d.project, d.url_id) {
                rest
            } else {
                rest.push(RowSpec { deployment: d, project: p })
            },
            None => rest,
        }
    }
}

/// Joins a snapshot of the non-deleted deployment rows with their
/// project rows. Orphaned deployments are dropped, duplicate keys keep
/// their first row, and the result's (project id, url slug) keys are
/// distinct, as the reconciliation pass requires.
pub fn join_rows(deployments: Vec<Deployment>, projects: &Vec<Project>) -> (r: Vec<
    DeploymentWithProject,
>)
    ensures
        rows_view(&r) == join_spec(
            deployments@.map_values(|d: Deployment| d@),
            projects@.map_values(|p: Project| p@),
        ),
        rows_distinct(rows_view(&r)),
{
    let ghost dv = deployments@.map_values(|d: Deployment| d@);
    let ghost pv = projects@.map_values(|p: Project| p@);
    let n = deployments.len();
    proof {
        assert(dv.len() == n as int);
    }
    let mut rest = deployments;
    let mut out: Vec<DeploymentWithProject> = Vec::new();
    let mut i: usize = 0;
    while rest.len() > 0
        invariant
            dv.len() == n as int,
            i + rest@.len() == dv.len(),
            rest@.map_values(|d: Deployment| d@) == dv.subrange(i as int, dv.len() as int),
            pv == projects@.map_values(|p: Project| p@),
            rows_view(&out) == join_spec(dv.subrange(0, i as int), pv),
            rows_distinct(rows_view(&out)),
        decreases rest.len(),
    {
        let ghost before_vec = rest@;
        let ghost before = rest@.map_values(|d: Deployment| d@);
        let d = rest.remove(0);
        proof {
            assert(d@ == before[0]);
            assert(before[0] == dv[i as int]);
            assert(rest@ =~= before_vec.subrange(1, before_vec.len() as int));
            let rv = rest@.map_values(|x: Deployment| x@);
            assert forall|k: int| 0 <= k < rv.len() implies #[trigger] rv[k] == dv[i + 1
                + k] by {
                assert(rv[k] == rest@[k]@);
                assert(rest@[k] == before_vec[k + 1]);
                assert(before[k + 1] == before_vec[k + 1]@);
                assert(before[k + 1] == dv[i + 1 + k]);
            }
            assert(rest@.map_values(|x: Deployment| x@) =~= dv.subrange(
                i + 1,
                dv.len() as int,
            ));
            assert(dv.subrange(0, i + 1).drop_last() =~= dv.subrange(0, i as int));
            assert(dv.subrange(0, i + 1).last() == dv[i as int]);
        }
        match find_project(projects, d.project.as_bytes().as_slice()) {
            Some(p) => {
                let dup = rows_contain_key(
                    &out,
                    d.project.as_bytes().as_slice(),
                    d.url_id.as_slice(),
                );
                if !dup {
                    let ghost prev = rows_view(&out);
                    let ghost pr = project_for(pv, dv[i as int].project)->Some_0;
                    out.push(DeploymentWithProject { deployment: d, project: p.clone() });
                    proof {
                        assert(rows_view(&out) =~= prev.push(
                            RowSpec { deployment: dv[i as int], project: pr },
                        ));
                        lemma_project_for_id(pv, dv[i as int].project);
                        assert(pr.id == dv[i as int].project);
                        assert forall|x: int, y: int|
                            0 <= x < y < rows_view(&out).len() implies !(rows_view(&out)[
                        x].project.id == rows_view(&out)[y].project.id && rows_view(&out)[
                        x].deployment.url_id == rows_view(&out)[y].deployment.url_id) by {
                            if y < prev.len() {
                                assert(rows_view(&out)[x] == prev[x]);
                                assert(rows_view(&out)[y] == prev[y]);
                            } else {
                                assert(rows_view(&out)[x] == prev[x]);
                                assert(rows_view(&out)[y].project.id == dv[i as int].project);
                                assert(rows_view(&out)[y].deployment.url_id == dv[
                                    i as int].url_id);
                                assert(!(prev[x].project.id == dv[i as int].project && prev[
                                x].deployment.url_id == dv[i as int].url_id));
                            }
                        }
                    }
                }
            },
            None => {},
        }
        i += 1;
        proof {
            assert(rows_view(&out) == join_spec(dv.subrange(0, i as int), pv));
        }
    }
    proof {
        assert(dv.subrange(0, dv.len() as int) =~= dv);
    }
    out
}

/// Keeps the first pair carrying each key, in order of first appearance.
pub open spec fn dedup_first(s: Seq<(Seq<u8>, Seq<u8>)>) -> Seq<(Seq<u8>, Seq<u8>)>
    decreases s.len(),
{
    if s.len() == 0 {
        s
    } else {
        let d = dedup_first(s.drop_last());
        if pairs_have_key(d, s.last().0) {
            d
        } else {
            d.push(s.last())
        }
    }
}

/// `dedup_first` yields distinct keys and keeps exactly the original keys.
pub proof fn lemma_dedup_first(s: Seq<(Seq<u8>, Seq<u8>)>)
    ensures
        pairs_distinct(dedup_first(s)),
        forall|k: Seq<u8>| #[trigger]
            pairs_have_key(dedup_first(s), k) <==> pairs_have_key(s, k),
        forall|i: int|
            0 <= i < dedup_first(s).len() ==> exists|j: int|
                0 <= j < s.len() && s[j] == #[trigger] dedup_first(s)[i],
    decreases s.len(),
{
    if s.len() == 0 {
    } else {
        lemma_dedup_first(s.drop_last());
        let d = dedup_first(s.drop_last());
        assert forall|k: Seq<u8>| #[trigger]
            pairs_have_key(dedup_first(s), k) implies pairs_have_key(s, k) by {
            let i = choose|i: int|
                0 <= i < dedup_first(s).len() && dedup_first(s)[i].0 == k;
            if i < d.len() {
                assert(pairs_have_key(d, k));
                assert(pairs_have_key(s.drop_last(), k));
                let j = choose|j: int| 0 <= j < s.drop_last().len() && s.drop_last()[j].0 == k;
                assert(s[j].0 == k);
            } else {
                assert(s[s.len() - 1].0 == k);
            }
        }
        assert forall|k: Seq<u8>| pairs_have_key(s, k) implies #[trigger] pairs_have_key(
            dedup_first(s),
            k,
        ) by {
            let i = choose|i: int| 0 <= i < s.len() && s[i].0 == k;
            if i < s.len() - 1 {
                assert(s.drop_last()[i].0 == k);
                assert(pairs_have_key(s.drop_last(), k));
                assert(pairs_have_key(d, k));
                let j = choose|j: int| 0 <= j < d.len() && d[j].0 == k;
                if pairs_have_key(d, s.last().0) {
                    assert(dedup_first(s)[j].0 == k);
                } else {
                    assert(dedup_first(s)[j].0 == k);
                }
            } else {
                assert(s.last().0 == k);
                if pairs_have_key(d, k) {
                    let j = choose|j: int| 0 <= j < d.len() && d[j].0 == k;
                    if pairs_have_key(d, s.last().0) {
                        assert(dedup_first(s)[j].0 == k);
                    } else {
                        assert(false);
                    }
                } else {
                    assert(!pairs_have_key(d, s.last().0));
                    assert(dedup_first(s)[d.len() as int].0 == k);
                }
            }
        }
        if !pairs_have_key(d, s.last().0) {
            assert forall|i: int, j: int|
                0 <= i < j < dedup_first(s).len() implies dedup_first(s)[i].0 != dedup_first(
                s,
            )[j].0 by {
                if j == d.len() {
                    assert(dedup_first(s)[i] == d[i]);
                    assert(d[i].0 != s.last().0);
                } else {
                    assert(dedup_first(s)[i] == d[i]);
                    assert(dedup_first(s)[j] == d[j]);
                }
            }
        }
        assert forall|i: int|
            0 <= i < dedup_first(s).len() implies exists|j: int|
                0 <= j < s.len() && s[j] == #[trigger] dedup_first(s)[i] by {
            if i < d.len() {
                let j = choose|j: int| 0 <= j < s.drop_last().len() && s.drop_last()[j] == d[i];
                assert(s[j] == dedup_first(s)[i]);
            } else {
                assert(s[s.len() - 1] == dedup_first(s)[i]);
            }
        }
    }
}

/// The (name, project id) pairs of a row sequence.
pub open spec fn name_pairs(rows: Seq<RowSpec>) -> Seq<(Seq<u8>, Seq<u8>)> {
    rows.map_values(|r: RowSpec| (r.project.name, r.project.id))
}

/// The world model's project-name index derived from the rows.
pub open spec fn names_spec(rows: Seq<RowSpec>) -> Seq<(Seq<u8>, Seq<u8>)> {
    dedup_first(name_pairs(rows))
}

/// The (domain, project id) pairs of one row.
pub open spec fn row_domain_pairs(r: RowSpec) -> Seq<(Seq<u8>, Seq<u8>)> {
    r.project.custom_domains.map_values(|d: Seq<u8>| (d, r.project.id))
}

/// All (domain, project id) pairs of a row sequence, in order.
pub open spec fn domain_pairs(rows: Seq<RowSpec>) -> Seq<(Seq<u8>, Seq<u8>)>
    decreases rows.len(),
{
    if rows.len() == 0 {
        Seq::empty()
    } else {
        domain_pairs(rows.drop_last()) + row_domain_pairs(rows.last())
    }
}

/// The world model's custom-domain index derived from the rows.
pub open spec fn domains_spec(rows: Seq<RowSpec>) -> Seq<(Seq<u8>, Seq<u8>)> {
    dedup_first(domain_pairs(rows))
}

/// A db sequence holds an entry for project `k`.
pub open spec fn dbs_have_key(s: Seq<(Seq<u8>, StatusSpec)>, k: Seq<u8>) -> bool {
    exists|i: int| 0 <= i < s.len() && s[i].0 == k
}

/// Adds a production database entry for every project id not yet present,
/// in order of appearance. A fresh database container resumes as built
/// over the database server image.
pub open spec fn add_missing_dbs(old: Seq<(Seq<u8>, StatusSpec)>, pids: Seq<Seq<u8>>) -> Seq<
    (Seq<u8>, StatusSpec),
>
    decreases pids.len(),
{
    if pids.len() == 0 {
        old
    } else {
        let d = add_missing_dbs(old, pids.drop_last());
        if dbs_have_key(d, pids.last()) {
            d
        } else {
            d.push((pids.last(), StatusSpec::Built { image: crate::sqld::sqld_image_seq() }))
        }
    }
}

/// The project ids of the rows, in order.
pub open spec fn row_pids(rows: Seq<RowSpec>) -> Seq<Seq<u8>> {
    rows.map_values(|r: RowSpec| r.project.id)
}

/// Inserts every domain not yet tracked as pending, in order.
pub open spec fn add_missing_certs(
    old: Seq<(Seq<u8>, crate::certs::TlsStateSpec)>,
    domains: Seq<Seq<u8>>,
) -> Seq<(Seq<u8>, crate::certs::TlsStateSpec)>
    decreases domains.len(),
{
    if domains.len() == 0 {
        old
    } else {
        let d = add_missing_certs(old, domains.drop_last());
        if exists|i: int| 0 <= i < d.len() && d[i].0 == domains.last() {
            d
        } else {
            d.push((domains.last(), crate::certs::TlsStateSpec::Pending))
        }
    }
}

/// The handle a fresh row enters the model with: its container resumes
/// from the persisted build result, over the image named by the
/// deployment id.
pub open spec fn initial_handle(r: RowSpec) -> HandleSpec {
    HandleSpec {
        id: r.deployment.id,
        project: r.project.id,
        url_id: r.deployment.url_id,
        branch: r.deployment.branch,
        sha: r.deployment.sha,
        default_branch: r.deployment.default_branch != 0,
        timestamp: r.deployment.timestamp,
        created: r.deployment.created,
        forced_prod: r.project.prod_id == Some(r.deployment.id),
        result: r.deployment.result,
        last_hit: r.deployment.created,
        status: crate::container::initial_status_spec(r.deployment.result, r.deployment.id),
    }
}

/// The handles kept from the previous model: those whose key is still
/// present among the rows, in their previous order and with their
/// container state untouched.
pub open spec fn kept_deps(old: Seq<HandleSpec>, rows: Seq<RowSpec>) -> Seq<HandleSpec>
    decreases old.len(),
{
    if old.len() == 0 {
        Seq::empty()
    } else {
        let d = kept_deps(old.drop_last(), rows);
        if rows_have_dep_key(rows, old.last().project, old.last().url_id) {
            d.push(old.last())
        } else {
            d
        }
    }
}

/// The fresh handles for rows whose key the previous model lacks, in row
/// order.
pub open spec fn fresh_deps(old: Seq<HandleSpec>, rows: Seq<RowSpec>) -> Seq<HandleSpec>
    decreases rows.len(),
{
    if rows.len() == 0 {
        Seq::empty()
    } else {
        let d = fresh_deps(old, rows.drop_last());
        let r = rows.last();
        if deps_have_key(old, r.project.id, r.deployment.url_id) {
            d
        } else {
            d.push(initial_handle(r))
        }
    }
}

/// The deployment table after syncing with the rows: kept handles, then
/// fresh ones.
pub open spec fn deps1_spec(old: Seq<HandleSpec>, rows: Seq<RowSpec>) -> Seq<HandleSpec> {
    kept_deps(old, rows) + fresh_deps(old, rows)
}

/// `a` wins the production selection against `b`: created later, or at
/// the same instant with the lexicographically greater id.
pub open spec fn better_candidate(a: HandleSpec, b: HandleSpec) -> bool {
    a.created > b.created || (a.created == b.created && crate::bytes::lex_lt(b.id, a.id))
}

/// The best handle of a non-empty sequence under `better_candidate`,
/// favouring the earlier one on full ties.
pub open spec fn best_handle(s: Seq<HandleSpec>) -> HandleSpec
    recommends
        s.len() > 0,
    decreases s.len(),
{
    if s.len() <= 1 {
        s[0]
    } else {
        let b = best_handle(s.drop_last());
        if better_candidate(s.last(), b) {
            s.last()
        } else {
            b
        }
    }
}

/// The best handle is in the sequence and no element beats it.
pub proof fn lemma_best_handle(s: Seq<HandleSpec>)
    requires
        s.len() > 0,
    ensures
        s.contains(best_handle(s)),
        forall|i: int| 0 <= i < s.len() ==> !better_candidate(s[i], best_handle(s)),
    decreases s.len(),
{
    if s.len() == 1 {
        assert(s[0] == best_handle(s));
    } else {
        lemma_best_handle(s.drop_last());
        let b = best_handle(s.drop_last());
        let w = choose|w: int| 0 <= w < s.drop_last().len() && s.drop_last()[w] == b;
        assert(s[w] == b);
        assert forall|i: int|
            0 <= i < s.len() implies !better_candidate(s[i], best_handle(s)) by {
            if i < s.len() - 1 {
                assert(s.drop_last()[i] == s[i]);
                if better_candidate(s.last(), b) {
                    lemma_better_total(s[i], b, s.last());
                }
            } else {
                if !better_candidate(s.last(), b) {
                }
            }
        }
    }
}

/// `better_candidate` orders handles enough for a maximum scan: it is
/// irreflexive-compatible and transitive-compatible on the fields it reads.
pub proof fn lemma_better_total(a: HandleSpec, b: HandleSpec, c: HandleSpec)
    requires
        !better_candidate(a, b),
        better_candidate(c, b),
    ensures
        !better_candidate(a, c),
{
    if a.created == b.created && b.created == c.created && crate::bytes::lex_lt(b.id, c.id)
        && crate::bytes::lex_lt(c.id, a.id) {
        crate::bytes::lemma_lex_transitive(b.id, c.id, a.id);
    }
}

/// A handle competes for production selection of a project: it belongs to
/// it and sits on the default branch.
pub open spec fn is_prod_candidate(h: HandleSpec, pid: Seq<u8>) -> bool {
    h.project == pid && h.default_branch
}

/// The default-branch handles of one project, in order.
pub open spec fn prod_candidates(deps: Seq<HandleSpec>, pid: Seq<u8>) -> Seq<HandleSpec>
    decreases deps.len(),
{
    if deps.len() == 0 {
        Seq::empty()
    } else {
        let d = prod_candidates(deps.drop_last(), pid);
        if is_prod_candidate(deps.last(), pid) {
            d.push(deps.last())
        } else {
            d
        }
    }
}

/// The default-branch handles of one project whose build succeeded.
pub open spec fn built_candidates(deps: Seq<HandleSpec>, pid: Seq<u8>) -> Seq<HandleSpec>
    decreases deps.len(),
{
    if deps.len() == 0 {
        Seq::empty()
    } else {
        let d = built_candidates(deps.drop_last(), pid);
        if is_prod_candidate(deps.last(), pid) && deps.last().result == Some(BuildResult::Built) {
            d.push(deps.last())
        } else {
            d
        }
    }
}

/// The candidates of a project are exactly its default-branch handles.
pub proof fn lemma_prod_candidates(deps: Seq<HandleSpec>, pid: Seq<u8>)
    ensures
        forall|h: HandleSpec| #[trigger]
            prod_candidates(deps, pid).contains(h) <==> deps.contains(h) && is_prod_candidate(
                h,
                pid,
            ),
        forall|h: HandleSpec| #[trigger]
            built_candidates(deps, pid).contains(h) <==> deps.contains(h) && is_prod_candidate(
                h,
                pid,
            ) && h.result == Some(BuildResult::Built),
    decreases deps.len(),
{
    if deps.len() == 0 {
    } else {
        lemma_prod_candidates(deps.drop_last(), pid);
        let c = prod_candidates(deps.drop_last(), pid);
        let b = built_candidates(deps.drop_last(), pid);
        let cf = prod_candidates(deps, pid);
        let bf = built_candidates(deps, pid);
        assert forall|h: HandleSpec| #[trigger] cf.contains(h) implies deps.contains(h)
            && is_prod_candidate(h, pid) by {
            let i = choose|i: int| 0 <= i < cf.len() && cf[i] == h;
            if i < c.len() {
                assert(c.contains(h));
                let j = choose|j: int|
                    0 <= j < deps.drop_last().len() && deps.drop_last()[j] == h;
                assert(deps[j] == h);
            } else {
                assert(deps[deps.len() - 1] == h);
            }
        }
        assert forall|h: HandleSpec| deps.contains(h) && is_prod_candidate(h, pid)
            implies #[trigger] cf.contains(h) by {
            let i = choose|i: int| 0 <= i < deps.len() && deps[i] == h;
            if i < deps.len() - 1 {
                assert(deps.drop_last()[i] == h);
                assert(deps.drop_last().contains(h));
                assert(c.contains(h));
                let j = choose|j: int| 0 <= j < c.len() && c[j] == h;
                assert(cf[j] == h);
            } else {
                assert(cf[cf.len() - 1] == h);
            }
        }
        assert forall|h: HandleSpec| #[trigger] bf.contains(h) implies deps.contains(h)
            && is_prod_candidate(h, pid) && h.result == Some(BuildResult::Built) by {
            let i = choose|i: int| 0 <= i < bf.len() && bf[i] == h;
            if i < b.len() {
                assert(b.contains(h));
                let j = choose|j: int|
                    0 <= j < deps.drop_last().len() && deps.drop_last()[j] == h;
                assert(deps[j] == h);
            } else {
                assert(deps[deps.len() - 1] == h);
            }
        }
        assert forall|h: HandleSpec|
            deps.contains(h) && is_prod_candidate(h, pid) && h.result == Some(
                BuildResult::Built,
            ) implies #[trigger] bf.contains(h) by {
            let i = choose|i: int| 0 <= i < deps.len() && deps[i] == h;
            if i < deps.len() - 1 {
                assert(deps.drop_last()[i] == h);
                assert(deps.drop_last().contains(h));
                assert(b.contains(h));
                let j = choose|j: int| 0 <= j < b.len() && b[j] == h;
                assert(bf[j] == h);
            } else {
                assert(bf[bf.len() - 1] == h);
            }
        }
    }
}

/// Production selection law. For every project with default-branch
/// deployments: if any are built, the selection is a built default-branch
/// handle that no other built one beats (created later, or as late with a
/// lexicographically greater id); otherwise it is a default-branch handle
/// that no other beats. A project without default-branch deployments gets
/// no selection.
pub proof fn lemma_select_prod(deps: Seq<HandleSpec>, pid: Seq<u8>)
    ensures
        ({
            let cands = prod_candidates(deps, pid);
            let built = built_candidates(deps, pid);
            match select_prod_spec(deps, pid) {
                Some(slug) => {
                    &&& cands.len() > 0
                    &&& if built.len() > 0 {
                        exists|h: HandleSpec|
                            {
                                &&& #[trigger] deps.contains(h)
                                &&& is_prod_candidate(h, pid)
                                &&& h.result == Some(BuildResult::Built)
                                &&& h.url_id == slug
                                &&& forall|g: HandleSpec| #[trigger]
                                    built.contains(g) ==> !better_candidate(g, h)
                            }
                    } else {
                        exists|h: HandleSpec|
                            {
                                &&& #[trigger] deps.contains(h)
                                &&& is_prod_candidate(h, pid)
                                &&& h.url_id == slug
                                &&& forall|g: HandleSpec| #[trigger]
                                    cands.contains(g) ==> !better_candidate(g, h)
                            }
                    }
                },
                None => cands.len() == 0,
            }
        }),
{
    lemma_prod_candidates(deps, pid);
    let cands = prod_candidates(deps, pid);
    let built = built_candidates(deps, pid);
    if built.len() > 0 {
        lemma_best_handle(built);
        let h = best_handle(built);
        assert(built.contains(h));
        assert forall|g: HandleSpec| #[trigger] built.contains(g) implies !better_candidate(
            g,
            h,
        ) by {
            let i = choose|i: int| 0 <= i < built.len() && built[i] == g;
        }
        assert(cands.len() > 0) by {
            assert(deps.contains(h) && is_prod_candidate(h, pid));
            assert(cands.contains(h));
        }
    } else if cands.len() > 0 {
        lemma_best_handle(cands);
        let h = best_handle(cands);
        assert(cands.contains(h));
        assert forall|g: HandleSpec| #[trigger] cands.contains(g) implies !better_candidate(
            g,
            h,
        ) by {
            let i = choose|i: int| 0 <= i < cands.len() && cands[i] == g;
        }
        assert(deps.contains(h));
    }
}

/// The production selection for one project: the latest successfully
/// built default-branch deployment by creation time; if none is built
/// yet, the latest default-branch deployment; ties go to the
/// lexicographically greater id.
pub open spec fn select_prod_spec(deps: Seq<HandleSpec>, pid: Seq<u8>) -> Option<Seq<u8>> {
    let cands = prod_candidates(deps, pid);
    let built = built_candidates(deps, pid);
    if built.len() > 0 {
        Some(best_handle(built).url_id)
    } else if cands.len() > 0 {
        Some(best_handle(cands).url_id)
    } else {
        None
    }
}

/// The production index over a list of project ids.
pub open spec fn prod_spec(deps: Seq<HandleSpec>, pids: Seq<Seq<u8>>) -> Seq<(Seq<u8>, Seq<u8>)>
    decreases pids.len(),
{
    if pids.len() == 0 {
        Seq::empty()
    } else {
        let d = prod_spec(deps, pids.drop_last());
        match select_prod_spec(deps, pids.last()) {
            Some(slug) => d.push((pids.last(), slug)),
            None => d,
        }
    }
}

/// Keeps the first occurrence of each project id, in order.
pub open spec fn dedup_first_keys(s: Seq<Seq<u8>>) -> Seq<Seq<u8>>
    decreases s.len(),
{
    if s.len() == 0 {
        s
    } else {
        let d = dedup_first_keys(s.drop_last());
        if d.contains(s.last()) {
            d
        } else {
            d.push(s.last())
        }
    }
}

/// The model selects (project, slug) as a production deployment.
pub open spec fn is_prod_key(prod: Seq<(Seq<u8>, Seq<u8>)>, p: Seq<u8>, s: Seq<u8>) -> bool {
    exists|i: int| 0 <= i < prod.len() && prod[i] == (p, s)
}

/// `dedup_first_keys` yields distinct keys and keeps exactly the original
/// ones.
pub proof fn lemma_dedup_first_keys(s: Seq<Seq<u8>>)
    ensures
        forall|i: int, j: int|
            0 <= i < j < dedup_first_keys(s).len() ==> dedup_first_keys(s)[i]
                != dedup_first_keys(s)[j],
        forall|k: Seq<u8>| #[trigger]
            dedup_first_keys(s).contains(k) <==> s.contains(k),
    decreases s.len(),
{
    if s.len() == 0 {
    } else {
        lemma_dedup_first_keys(s.drop_last());
        let d = dedup_first_keys(s.drop_last());
        let f = dedup_first_keys(s);
        assert forall|k: Seq<u8>| #[trigger] f.contains(k) implies s.contains(k) by {
            let i = choose|i: int| 0 <= i < f.len() && f[i] == k;
            if i < d.len() {
                assert(d.contains(k));
                let j = choose|j: int| 0 <= j < s.drop_last().len() && s.drop_last()[j] == k;
                assert(s[j] == k);
            } else {
                assert(s[s.len() - 1] == k);
            }
        }
        assert forall|k: Seq<u8>| s.contains(k) implies #[trigger] f.contains(k) by {
            let i = choose|i: int| 0 <= i < s.len() && s[i] == k;
            if i < s.len() - 1 {
                assert(s.drop_last()[i] == k);
                assert(s.drop_last().contains(k));
                assert(d.contains(k));
                let j = choose|j: int| 0 <= j < d.len() && d[j] == k;
                assert(f[j] == k);
            } else {
                if d.contains(s.last()) {
                    let j = choose|j: int| 0 <= j < d.len() && d[j] == k;
                    assert(f[j] == k);
                } else {
                    assert(f[d.len() as int] == k);
                }
            }
        }
        if !d.contains(s.last()) {
            assert forall|i: int, j: int| 0 <= i < j < f.len() implies f[i] != f[j] by {
                if j == d.len() {
                    assert(f[i] == d[i]);
                    if d[i] == s.last() {
                        assert(d.contains(s.last()));
                    }
                } else {
                    assert(f[i] == d[i]);
                    assert(f[j] == d[j]);
                }
            }
        }
    }
}

/// Adding the missing database entries keeps old entries in place,
/// keeps keys distinct, and covers exactly the old keys plus the given
/// project ids.
pub proof fn lemma_add_missing_dbs(old: Seq<(Seq<u8>, StatusSpec)>, pids: Seq<Seq<u8>>)
    ensures
        ({
            let f = add_missing_dbs(old, pids);
            &&& f.len() >= old.len()
            &&& forall|i: int| 0 <= i < old.len() ==> f[i] == old[i]
            &&& forall|k: Seq<u8>| #[trigger]
                dbs_have_key(f, k) <==> dbs_have_key(old, k) || pids.contains(k)
            &&& (forall|i: int, j: int| 0 <= i < j < old.len() ==> old[i].0 != old[j].0)
                ==> (forall|i: int, j: int| 0 <= i < j < f.len() ==> f[i].0 != f[j].0)
            &&& forall|i: int|
                old.len() <= i < f.len() ==> f[i].1 == (StatusSpec::Built {
                    image: crate::sqld::sqld_image_seq(),
                })
        }),
    decreases pids.len(),
{
    if pids.len() == 0 {
    } else {
        lemma_add_missing_dbs(old, pids.drop_last());
        let d = add_missing_dbs(old, pids.drop_last());
        let f = add_missing_dbs(old, pids);
        assert forall|k: Seq<u8>| #[trigger]
            dbs_have_key(f, k) implies dbs_have_key(old, k) || pids.contains(k) by {
            let i = choose|i: int| 0 <= i < f.len() && f[i].0 == k;
            if i < d.len() {
                assert(dbs_have_key(d, k));
                if !dbs_have_key(old, k) {
                    let j = choose|j: int|
                        0 <= j < pids.drop_last().len() && pids.drop_last()[j] == k;
                    assert(pids[j] == k);
                }
            } else {
                assert(pids[pids.len() - 1] == k);
            }
        }
        assert forall|k: Seq<u8>|
            dbs_have_key(old, k) || pids.contains(k) implies #[trigger] dbs_have_key(f, k) by {
            if dbs_have_key(old, k) {
                assert(dbs_have_key(d, k));
                let j = choose|j: int| 0 <= j < d.len() && d[j].0 == k;
                assert(f[j].0 == k);
            } else {
                let i = choose|i: int| 0 <= i < pids.len() && pids[i] == k;
                if i < pids.len() - 1 {
                    assert(pids.drop_last()[i] == k);
                    assert(pids.drop_last().contains(k));
                    assert(dbs_have_key(d, k));
                    let j = choose|j: int| 0 <= j < d.len() && d[j].0 == k;
                    assert(f[j].0 == k);
                } else {
                    if dbs_have_key(d, k) {
                        let j = choose|j: int| 0 <= j < d.len() && d[j].0 == k;
                        assert(f[j].0 == k);
                    } else {
                        assert(f[d.len() as int].0 == k);
                    }
                }
            }
        }
        if (forall|i: int, j: int| 0 <= i < j < old.len() ==> old[i].0 != old[j].0)
            && !dbs_have_key(d, pids.last()) {
            assert forall|i: int, j: int| 0 <= i < j < f.len() implies f[i].0 != f[j].0 by {
                if j == d.len() {
                    assert(f[i] == d[i]);
                    if d[i].0 == pids.last() {
                        assert(dbs_have_key(d, pids.last()));
                    }
                } else {
                    assert(f[i] == d[i]);
                    assert(f[j] == d[j]);
                }
            }
        }
    }
}

/// Adding the missing certificate entries keeps old entries in place and
/// tracks exactly the old domains plus the given ones, new ones pending.
pub proof fn lemma_add_missing_certs(
    old: Seq<(Seq<u8>, crate::certs::TlsStateSpec)>,
    domains: Seq<Seq<u8>>,
)
    ensures
        ({
            let f = add_missing_certs(old, domains);
            &&& f.len() >= old.len()
            &&& forall|i: int| 0 <= i < old.len() ==> f[i] == old[i]
            &&& forall|i: int|
                old.len() <= i < f.len() ==> f[i].1 == crate::certs::TlsStateSpec::Pending
                    && domains.contains(f[i].0)
        }),
    decreases domains.len(),
{
    if domains.len() == 0 {
    } else {
        lemma_add_missing_certs(old, domains.drop_last());
        let d = add_missing_certs(old, domains.drop_last());
        let f = add_missing_certs(old, domains);
        assert forall|i: int|
            old.len() <= i < f.len() implies f[i].1 == crate::certs::TlsStateSpec::Pending
                && domains.contains(f[i].0) by {
            if i < d.len() {
                assert(f[i] == d[i]);
                let j = choose|j: int|
                    0 <= j < domains.drop_last().len() && domains.drop_last()[j] == d[i].0;
                assert(domains[j] == f[i].0);
            } else {
                assert(domains[domains.len() - 1] == f[i].0);
            }
        }
    }
}

/// The production index binds each selected project to its selection,
/// with distinct keys, and binds exactly the projects whose selection
/// exists.
pub proof fn lemma_prod_spec(deps: Seq<HandleSpec>, pids: Seq<Seq<u8>>)
    requires
        forall|i: int, j: int| 0 <= i < j < pids.len() ==> pids[i] != pids[j],
    ensures
        ({
            let f = prod_spec(deps, pids);
            &&& pairs_distinct(f)
            &&& forall|i: int|
                0 <= i < f.len() ==> pids.contains(#[trigger] f[i].0) && select_prod_spec(
                    deps,
                    f[i].0,
                ) == Some(f[i].1)
            &&& forall|k: Seq<u8>| #[trigger]
                pairs_have_key(f, k) <==> pids.contains(k) && select_prod_spec(deps, k) is Some
        }),
    decreases pids.len(),
{
    if pids.len() == 0 {
    } else {
        assert forall|i: int, j: int|
            0 <= i < j < pids.drop_last().len() implies pids.drop_last()[i]
                != pids.drop_last()[j] by {
            assert(pids[i] == pids.drop_last()[i]);
            assert(pids[j] == pids.drop_last()[j]);
        }
        lemma_prod_spec(deps, pids.drop_last());
        let d = prod_spec(deps, pids.drop_last());
        let f = prod_spec(deps, pids);
        assert forall|i: int|
            0 <= i < f.len() implies pids.contains(#[trigger] f[i].0) && select_prod_spec(
                deps,
                f[i].0,
            ) == Some(f[i].1) by {
            if i < d.len() {
                assert(f[i] == d[i]);
                let j = choose|j: int|
                    0 <= j < pids.drop_last().len() && pids.drop_last()[j] == d[i].0;
                assert(pids[j] == f[i].0);
            } else {
                assert(f[i] == (pids.last(), select_prod_spec(deps, pids.last())->Some_0));
                assert(pids[pids.len() - 1] == f[i].0);
            }
        }
        assert forall|k: Seq<u8>| #[trigger]
            pairs_have_key(f, k) implies pids.contains(k) && select_prod_spec(deps, k) is Some by {
            let i = choose|i: int| 0 <= i < f.len() && f[i].0 == k;
        }
        assert forall|k: Seq<u8>|
            pids.contains(k) && select_prod_spec(deps, k) is Some implies #[trigger]
            pairs_have_key(f, k) by {
            let i = choose|i: int| 0 <= i < pids.len() && pids[i] == k;
            if i < pids.len() - 1 {
                assert(pids.drop_last()[i] == k);
                assert(pids.drop_last().contains(k));
                assert(pairs_have_key(d, k));
                let j = choose|j: int| 0 <= j < d.len() && d[j].0 == k;
                assert(f[j].0 == k);
            } else {
                match select_prod_spec(deps, pids.last()) {
                    Some(slug) => {
                        assert(f[d.len() as int].0 == k);
                    },
                    None => {},
                }
            }
        }
        match select_prod_spec(deps, pids.last()) {
            Some(slug) => {
                assert forall|i: int, j: int|
                    0 <= i < j < f.len() implies f[i].0 != f[j].0 by {
                    if j == d.len() {
                        assert(f[i] == d[i]);
                        assert(pids.drop_last().contains(d[i].0) || !pids.contains(d[i].0));
                        if d[i].0 == pids.last() {
                            let w = choose|w: int|
                                0 <= w < pids.drop_last().len() && pids.drop_last()[w]
                                    == d[i].0;
                            assert(pids[w] == pids[pids.len() - 1]);
                        }
                    } else {
                        assert(f[i] == d[i]);
                        assert(f[j] == d[j]);
                    }
                }
            },
            None => {},
        }
    }
}

/// Re-deploy takeover. Of the default-branch deployments of one project,
/// let the clone `c` be built, with every other built one created
/// earlier. Then the pass selects `c` as the production deployment; a
/// handle `p` of the project with another slug is out of the production
/// set, and the pass applies the idle downgrade to it, not the warm-up.
pub proof fn lemma_redeploy_takeover(
    deps: Seq<HandleSpec>,
    pids: Seq<Seq<u8>>,
    c: HandleSpec,
    p: HandleSpec,
    now: i64,
)
    requires
        forall|i: int, j: int| 0 <= i < j < pids.len() ==> pids[i] != pids[j],
        pids.contains(c.project),
        deps.contains(c),
        deps.contains(p),
        is_prod_candidate(c, c.project),
        is_prod_candidate(p, c.project),
        c.result == Some(BuildResult::Built),
        forall|i: int|
            0 <= i < deps.len() && is_prod_candidate(#[trigger] deps[i], c.project) && deps[
            i].result == Some(BuildResult::Built) && deps[i] != c ==> c.created > deps[
            i].created,
        p.url_id != c.url_id,
    ensures
        select_prod_spec(deps, c.project) == Some(c.url_id),
        is_prod_key(prod_spec(deps, pids), c.project, c.url_id),
        !is_prod_key(prod_spec(deps, pids), c.project, p.url_id),
        pass_status(p, prod_spec(deps, pids), now) == crate::container::downgrade_spec(
            p.status,
            false,
            now - p.last_hit > IDLE_GRACE_MILLIS,
        ),
{
    lemma_prod_candidates(deps, c.project);
    let built = built_candidates(deps, c.project);
    assert(built.contains(c));
    lemma_best_handle(built);
    let b = best_handle(built);
    assert(built.contains(b));
    assert(deps.contains(b) && is_prod_candidate(b, c.project) && b.result == Some(
        BuildResult::Built,
    ));
    if b != c {
        let i = choose|i: int| 0 <= i < deps.len() && deps[i] == b;
        assert(c.created > b.created);
        let j = choose|j: int| 0 <= j < built.len() && built[j] == c;
        assert(!better_candidate(built[j], b));
        assert(false);
    }
    assert(select_prod_spec(deps, c.project) == Some(c.url_id));
    lemma_prod_spec(deps, pids);
    let f = prod_spec(deps, pids);
    assert(pairs_have_key(f, c.project));
    let k = choose|k: int| 0 <= k < f.len() && f[k].0 == c.project;
    assert(select_prod_spec(deps, f[k].0) == Some(f[k].1));
    assert(f[k] == (c.project, c.url_id));
    assert(is_prod_key(f, c.project, c.url_id));
    if is_prod_key(f, c.project, p.url_id) {
        let w = choose|w: int| 0 <= w < f.len() && f[w] == (c.project, p.url_id);
        assert(select_prod_spec(deps, f[w].0) == Some(f[w].1));
        assert(false);
    }
    assert(p.project == c.project);
}

/// The state of one handle after the warm-up and downgrade steps of the
/// pass: a production deployment sitting built is woken; a non-production
/// deployment that has been idle past the grace window is downgraded.
pub open spec fn pass_status(h: HandleSpec, prod: Seq<(Seq<u8>, Seq<u8>)>, now: i64) -> StatusSpec {
    if is_prod_key(prod, h.project, h.url_id) {
        if h.status is Built {
            crate::container::enqueue_step_spec(h.status).0
        } else {
            h.status
        }
    } else {
        crate::container::downgrade_spec(h.status, false, now - h.last_hit > IDLE_GRACE_MILLIS)
    }
}

/// One handle after the warm-up and downgrade steps.
pub open spec fn passed_handle(h: HandleSpec, prod: Seq<(Seq<u8>, Seq<u8>)>, now: i64) -> HandleSpec {
    HandleSpec { status: pass_status(h, prod, now), ..h }
}

/// All handles after the warm-up and downgrade steps.
pub open spec fn pass_deps(deps: Seq<HandleSpec>, prod: Seq<(Seq<u8>, Seq<u8>)>, now: i64) -> Seq<
    HandleSpec,
> {
    deps.map_values(|h: HandleSpec| passed_handle(h, prod, now))
}

impl Clone for DeploymentHandle {
    fn clone(&self) -> (r: Self)
        ensures
            r@ == self@,
    {
        DeploymentHandle {
            id: self.id.clone(),
            project: self.project.clone(),
            url_id: to_vec(self.url_id.as_slice()),
            branch: to_vec(self.branch.as_slice()),
            sha: to_vec(self.sha.as_slice()),
            default_branch: self.default_branch,
            timestamp: self.timestamp,
            created: self.created,
            forced_prod: self.forced_prod,
            result: self.result,
            last_hit: self.last_hit,
            status: self.status.clone(),
        }
    }
}

/// A wake instruction the reconciliation pass hands back: which
/// deployment to act on, and what to do.
#[derive(Debug)]
pub struct SyncAction {
    pub project: NanoId,
    pub url_id: Vec<u8>,
    pub action: crate::container::WakeAction,
}

impl View for SyncAction {
    type V = (Seq<u8>, Seq<u8>, crate::container::WakeActionSpec);

    open spec fn view(&self) -> (Seq<u8>, Seq<u8>, crate::container::WakeActionSpec) {
        (self.project@, self.url_id@, self.action@)
    }
}

/// Whether a keyed index holds `k`.
fn keyed_contains(v: &Vec<KeyedId>, k: &[u8]) -> (r: bool)
    ensures
        r <==> pairs_have_key(v@.map_values(|n: KeyedId| n@), k@),
{
    let ghost view = v@.map_values(|n: KeyedId| n@);
    let mut i: usize = 0;
    while i < v.len()
        invariant
            i <= v@.len(),
            view == v@.map_values(|n: KeyedId| n@),
            forall|j: int| 0 <= j < i ==> view[j].0 != k@,
        decreases v.len() - i,
    {
        proof {
            assert(view[i as int] == v@[i as int]@);
        }
        if bytes_eq_slice(v[i].key.as_slice(), k) {
            return true;
        }
        i += 1;
    }
    false
}

/// Whether the database table holds project `k`.
fn dbs_contains(v: &Vec<ProdDbEntry>, k: &[u8]) -> (r: bool)
    ensures
        r <==> dbs_have_key(v@.map_values(|e: ProdDbEntry| e@), k@),
{
    let ghost view = v@.map_values(|e: ProdDbEntry| e@);
    let mut i: usize = 0;
    while i < v.len()
        invariant
            i <= v@.len(),
            view == v@.map_values(|e: ProdDbEntry| e@),
            forall|j: int| 0 <= j < i ==> view[j].0 != k@,
        decreases v.len() - i,
    {
        proof {
            assert(view[i as int] == v@[i as int]@);
        }
        if bytes_eq_slice(v[i].project.as_bytes().as_slice(), k) {
            return true;
        }
        i += 1;
    }
    false
}

/// Whether a deployment table holds the key (project, slug).
fn deps_contains(v: &Vec<DeploymentHandle>, p: &[u8], s: &[u8]) -> (r: bool)
    ensures
        r <==> deps_have_key(v@.map_values(|d: DeploymentHandle| d@), p@, s@),
{
    let ghost view = v@.map_values(|d: DeploymentHandle| d@);
    let mut i: usize = 0;
    while i < v.len()
        invariant
            i <= v@.len(),
            view == v@.map_values(|d: DeploymentHandle| d@),
            forall|j: int| 0 <= j < i ==> !(view[j].project == p@ && view[j].url_id == s@),
        decreases v.len() - i,
    {
        proof {
            assert(view[i as int] == v@[i as int]@);
        }
        if bytes_eq_slice(v[i].project.as_bytes().as_slice(), p) && bytes_eq_slice(
            v[i].url_id.as_slice(),
            s,
        ) {
            return true;
        }
        i += 1;
    }
    false
}

/// Whether the rows carry the key (project, slug).
fn rows_contain_key(rows: &Vec<DeploymentWithProject>, p: &[u8], s: &[u8]) -> (r: bool)
    ensures
        r <==> rows_have_dep_key(rows_view(rows), p@, s@),
{
    let ghost view = rows_view(rows);
    let mut i: usize = 0;
    while i < rows.len()
        invariant
            i <= rows@.len(),
            view == rows_view(rows),
            forall|j: int|
                0 <= j < i ==> !(view[j].project.id == p@ && view[j].deployment.url_id == s@),
        decreases rows.len() - i,
    {
        proof {
            assert(view[i as int] == rows@[i as int]@);
        }
        if bytes_eq_slice(rows[i].project.id.as_bytes().as_slice(), p) && bytes_eq_slice(
            rows[i].deployment.url_id.as_slice(),
            s,
        ) {
            return true;
        }
        i += 1;
    }
    false
}

/// Whether a list of project ids holds `k`.
fn pids_contain(v: &Vec<NanoId>, k: &[u8]) -> (r: bool)
    ensures
        r <==> v@.map_values(|n: NanoId| n@).contains(k@),
{
    let ghost view = v@.map_values(|n: NanoId| n@);
    let mut i: usize = 0;
    while i < v.len()
        invariant
            i <= v@.len(),
            view == v@.map_values(|n: NanoId| n@),
            forall|j: int| 0 <= j < i ==> view[j] != k@,
        decreases v.len() - i,
    {
        proof {
            assert(view[i as int] == v@[i as int]@);
        }
        if bytes_eq_slice(v[i].as_bytes().as_slice(), k) {
            proof {
                assert(view[i as int] == k@);
            }
            return true;
        }
        i += 1;
    }
    proof {
        if view.contains(k@) {
            let j = choose|j: int| 0 <= j < view.len() && view[j] == k@;
            assert(false);
        }
    }
    false
}

/// Whether the production index selects exactly (project, slug).
fn prod_contains_pair(v: &Vec<ProdEntry>, p: &[u8], s: &[u8]) -> (r: bool)
    ensures
        r <==> is_prod_key(v@.map_values(|e: ProdEntry| e@), p@, s@),
{
    let ghost view = v@.map_values(|e: ProdEntry| e@);
    let mut i: usize = 0;
    while i < v.len()
        invariant
            i <= v@.len(),
            view == v@.map_values(|e: ProdEntry| e@),
            forall|j: int| 0 <= j < i ==> view[j] != (p@, s@),
        decreases v.len() - i,
    {
        proof {
            assert(view[i as int] == v@[i as int]@);
        }
        if bytes_eq_slice(v[i].project.as_bytes().as_slice(), p) && bytes_eq_slice(
            v[i].url_id.as_slice(),
            s,
        ) {
            proof {
                assert(view[i as int] == (p@, s@));
            }
            return true;
        }
        i += 1;
    }
    proof {
        if is_prod_key(view, p@, s@) {
            let j = choose|j: int| 0 <= j < view.len() && view[j] == (p@, s@);
            assert(false);
        }
    }
    false
}

/// Builds the handle a fresh row enters the model with.
fn make_initial_handle(r: &DeploymentWithProject) -> (h: DeploymentHandle)
    ensures
        h@ == initial_handle(r@),
{
    let forced_prod = match &r.project.prod_id {
        Some(p) => p.eq_id(&r.deployment.id),
        None => false,
    };
    let image = r.deployment.id.to_vec();
    DeploymentHandle {
        id: r.deployment.id.clone(),
        project: r.project.id.clone(),
        url_id: to_vec(r.deployment.url_id.as_slice()),
        branch: to_vec(r.deployment.branch.as_slice()),
        sha: to_vec(r.deployment.sha.as_slice()),
        default_branch: r.deployment.default_branch != 0,
        timestamp: r.deployment.timestamp,
        created: r.deployment.created,
        forced_prod,
        result: r.deployment.result,
        last_hit: r.deployment.created,
        status: ContainerStatus::initial(r.deployment.result, image),
    }
}

/// Selects the production deployment of one project from the deployment
/// table, per the selection law.
pub fn select_prod(deps: &Vec<DeploymentHandle>, pid: &[u8]) -> (r: Option<Vec<u8>>)
    ensures
        match r {
            Some(v) => select_prod_spec(
                deps@.map_values(|d: DeploymentHandle| d@),
                pid@,
            ) == Some(v@),
            None => select_prod_spec(deps@.map_values(|d: DeploymentHandle| d@), pid@) is None,
        },
{
    let ghost view = deps@.map_values(|d: DeploymentHandle| d@);
    let mut best_any: Option<usize> = None;
    let mut best_built: Option<usize> = None;
    let mut i: usize = 0;
    proof {
        assert(view.subrange(0, 0) =~= Seq::<HandleSpec>::empty());
    }
    while i < deps.len()
        invariant
            i <= deps@.len(),
            view == deps@.map_values(|d: DeploymentHandle| d@),
            match best_any {
                Some(j) => j < i && prod_candidates(view.subrange(0, i as int), pid@).len() > 0
                    && view[j as int] == best_handle(prod_candidates(
                    view.subrange(0, i as int),
                    pid@,
                )),
                None => prod_candidates(view.subrange(0, i as int), pid@).len() == 0,
            },
            match best_built {
                Some(j) => j < i && built_candidates(view.subrange(0, i as int), pid@).len() > 0
                    && view[j as int] == best_handle(built_candidates(
                    view.subrange(0, i as int),
                    pid@,
                )),
                None => built_candidates(view.subrange(0, i as int), pid@).len() == 0,
            },
        decreases deps.len() - i,
    {
        proof {
            assert(view[i as int] == deps@[i as int]@);
            assert(view.subrange(0, i + 1).drop_last() =~= view.subrange(0, i as int));
            assert(view.subrange(0, i + 1).last() == view[i as int]);
        }
        let is_cand = bytes_eq_slice(deps[i].project.as_bytes().as_slice(), pid)
            && deps[i].default_branch;
        if is_cand {
            let is_built = match deps[i].result {
                Some(BuildResult::Built) => true,
                _ => false,
            };
            match best_any {
                None => {
                    best_any = Some(i);
                },
                Some(j) => {
                    let beats = deps[i].created > deps[j].created || (deps[i].created
                        == deps[j].created && crate::bytes::bytes_lex_lt(
                        deps[j].id.as_bytes().as_slice(),
                        deps[i].id.as_bytes().as_slice(),
                    ));
                    proof {
                        assert(view[j as int] == deps@[j as int]@);
                    }
                    if beats {
                        best_any = Some(i);
                    }
                },
            }
            if is_built {
                match best_built {
                    None => {
                        best_built = Some(i);
                    },
                    Some(j) => {
                        let beats = deps[i].created > deps[j].created || (deps[i].created
                            == deps[j].created && crate::bytes::bytes_lex_lt(
                            deps[j].id.as_bytes().as_slice(),
                            deps[i].id.as_bytes().as_slice(),
                        ));
                        proof {
                            assert(view[j as int] == deps@[j as int]@);
                        }
                        if beats {
                            best_built = Some(i);
                        }
                    },
                }
            }
        }
        proof {
            let pre = view.subrange(0, i as int);
            let post = view.subrange(0, i + 1);
            assert(post.drop_last() =~= pre);
            assert(post.last() == view[i as int]);
            let cands_pre = prod_candidates(pre, pid@);
            let cands_post = prod_candidates(post, pid@);
            let built_pre = built_candidates(pre, pid@);
            let built_post = built_candidates(post, pid@);
            if is_prod_candidate(view[i as int], pid@) {
                assert(cands_post == cands_pre.push(view[i as int]));
                assert(cands_post.drop_last() =~= cands_pre);
                assert(cands_post.last() == view[i as int]);
                if cands_pre.len() == 0 {
                    assert(best_handle(cands_post) == cands_post[0]);
                    assert(cands_post[0] == view[i as int]);
                } else {
                    assert(best_handle(cands_post) == if better_candidate(
                        view[i as int],
                        best_handle(cands_pre),
                    ) {
                        view[i as int]
                    } else {
                        best_handle(cands_pre)
                    });
                }
                if view[i as int].result == Some(BuildResult::Built) {
                    assert(built_post == built_pre.push(view[i as int]));
                    assert(built_post.drop_last() =~= built_pre);
                    if built_pre.len() == 0 {
                        assert(best_handle(built_post) == built_post[0]);
                        assert(built_post[0] == view[i as int]);
                    } else {
                        assert(best_handle(built_post) == if better_candidate(
                            view[i as int],
                            best_handle(built_pre),
                        ) {
                            view[i as int]
                        } else {
                            best_handle(built_pre)
                        });
                    }
                } else {
                    assert(built_post == built_pre);
                }
            } else {
                assert(cands_post == cands_pre);
                assert(built_post == built_pre);
            }
        }
        i += 1;
    }
    proof {
        assert(view.subrange(0, view.len() as int) =~= view);
    }
    match best_built {
        Some(j) => Some(to_vec(deps[j].url_id.as_slice())),
        None => match best_any {
            Some(j) => Some(to_vec(deps[j].url_id.as_slice())),
            None => None,
        },
    }
}

/// The wake actions the pass hands back: one for each production
/// deployment found built, in table order.
pub open spec fn warm_actions_spec(
    deps: Seq<HandleSpec>,
    prod: Seq<(Seq<u8>, Seq<u8>)>,
) -> Seq<(Seq<u8>, Seq<u8>, crate::container::WakeActionSpec)>
    decreases deps.len(),
{
    if deps.len() == 0 {
        Seq::empty()
    } else {
        let d = warm_actions_spec(deps.drop_last(), prod);
        let h = deps.last();
        if is_prod_key(prod, h.project, h.url_id) && h.status is Built {
            d.push((h.project, h.url_id, crate::container::enqueue_step_spec(h.status).1))
        } else {
            d
        }
    }
}

// ------------------------------------------------------------------
// What the pass guarantees: the laws of the rebuilt model.
// ------------------------------------------------------------------

/// The kept handles: exactly the old ones whose key the rows still carry,
/// unchanged, and no others.
pub proof fn lemma_kept_deps(old: Seq<HandleSpec>, rows: Seq<RowSpec>)
    ensures
        forall|p: Seq<u8>, s: Seq<u8>| #[trigger]
            deps_have_key(kept_deps(old, rows), p, s) <==> deps_have_key(old, p, s)
                && rows_have_dep_key(rows, p, s),
        deps_distinct(old) ==> deps_distinct(kept_deps(old, rows)),
        forall|i: int|
            0 <= i < kept_deps(old, rows).len() ==> exists|j: int|
                0 <= j < old.len() && old[j] == #[trigger] kept_deps(old, rows)[i],
    decreases old.len(),
{
    if old.len() == 0 {
    } else {
        lemma_kept_deps(old.drop_last(), rows);
        let d = kept_deps(old.drop_last(), rows);
        let h = old.last();
        assert forall|p: Seq<u8>, s: Seq<u8>| #[trigger]
            deps_have_key(kept_deps(old, rows), p, s) implies deps_have_key(old, p, s)
            && rows_have_dep_key(rows, p, s) by {
            let i = choose|i: int|
                0 <= i < kept_deps(old, rows).len() && kept_deps(old, rows)[i].project == p
                    && kept_deps(old, rows)[i].url_id == s;
            if i < d.len() {
                assert(deps_have_key(d, p, s));
                let j = choose|j: int|
                    0 <= j < old.drop_last().len() && old.drop_last()[j].project == p
                        && old.drop_last()[j].url_id == s;
                assert(old[j].project == p && old[j].url_id == s);
            } else {
                assert(old[old.len() - 1].project == p && old[old.len() - 1].url_id == s);
            }
        }
        assert forall|p: Seq<u8>, s: Seq<u8>|
            deps_have_key(old, p, s) && rows_have_dep_key(rows, p, s) implies #[trigger]
            deps_have_key(kept_deps(old, rows), p, s) by {
            let i = choose|i: int| 0 <= i < old.len() && old[i].project == p && old[i].url_id == s;
            if i < old.len() - 1 {
                assert(old.drop_last()[i].project == p && old.drop_last()[i].url_id == s);
                assert(deps_have_key(old.drop_last(), p, s));
                assert(deps_have_key(d, p, s));
                let j = choose|j: int| 0 <= j < d.len() && d[j].project == p && d[j].url_id == s;
                assert(kept_deps(old, rows)[j].project == p && kept_deps(old, rows)[j].url_id
                    == s);
            } else {
                assert(h.project == p && h.url_id == s);
                assert(kept_deps(old, rows)[kept_deps(old, rows).len() - 1].project == p
                    && kept_deps(old, rows)[kept_deps(old, rows).len() - 1].url_id == s);
            }
        }
        if deps_distinct(old) {
            assert(deps_distinct(old.drop_last())) by {
                assert forall|i: int, j: int|
                    0 <= i < j < old.drop_last().len() implies !(old.drop_last()[i].project
                        == old.drop_last()[j].project && old.drop_last()[i].url_id
                        == old.drop_last()[j].url_id) by {
                    assert(old[i] == old.drop_last()[i]);
                    assert(old[j] == old.drop_last()[j]);
                }
            }
            if rows_have_dep_key(rows, h.project, h.url_id) {
                assert forall|i: int, j: int|
                    0 <= i < j < kept_deps(old, rows).len() implies !(kept_deps(old, rows)[
                    i].project == kept_deps(old, rows)[j].project && kept_deps(old, rows)[
                    i].url_id == kept_deps(old, rows)[j].url_id) by {
                    if j == d.len() {
                        let w = choose|w: int|
                            0 <= w < old.drop_last().len() && old.drop_last()[w] == d[i];
                        assert(old[w] == d[i]);
                        assert(!(old[w].project == h.project && old[w].url_id == h.url_id));
                    } else {
                        assert(kept_deps(old, rows)[i] == d[i]);
                        assert(kept_deps(old, rows)[j] == d[j]);
                    }
                }
            }
        }
        assert forall|i: int|
            0 <= i < kept_deps(old, rows).len() implies exists|j: int|
                0 <= j < old.len() && old[j] == #[trigger] kept_deps(old, rows)[i] by {
            if i < d.len() {
                let j = choose|j: int|
                    0 <= j < old.drop_last().len() && old.drop_last()[j] == d[i];
                assert(old[j] == kept_deps(old, rows)[i]);
            } else {
                assert(old[old.len() - 1] == kept_deps(old, rows)[i]);
            }
        }
    }
}

/// The fresh handles: exactly the rows whose key the old table lacks,
/// entered through `initial_handle`, with distinct keys.
pub proof fn lemma_fresh_deps(old: Seq<HandleSpec>, rows: Seq<RowSpec>)
    requires
        rows_distinct(rows),
    ensures
        forall|p: Seq<u8>, s: Seq<u8>| #[trigger]
            deps_have_key(fresh_deps(old, rows), p, s) <==> rows_have_dep_key(rows, p, s)
                && !deps_have_key(old, p, s),
        deps_distinct(fresh_deps(old, rows)),
        forall|i: int|
            0 <= i < fresh_deps(old, rows).len() ==> exists|j: int|
                0 <= j < rows.len() && initial_handle(rows[j]) == #[trigger] fresh_deps(
                    old,
                    rows,
                )[i],
    decreases rows.len(),
{
    if rows.len() == 0 {
    } else {
        assert(rows_distinct(rows.drop_last())) by {
            assert forall|i: int, j: int|
                0 <= i < j < rows.drop_last().len() implies !(rows.drop_last()[i].project.id
                    == rows.drop_last()[j].project.id && rows.drop_last()[i].deployment.url_id
                    == rows.drop_last()[j].deployment.url_id) by {
                assert(rows[i] == rows.drop_last()[i]);
                assert(rows[j] == rows.drop_last()[j]);
            }
        }
        lemma_fresh_deps(old, rows.drop_last());
        let d = fresh_deps(old, rows.drop_last());
        let r = rows.last();
        let f = fresh_deps(old, rows);
        assert forall|p: Seq<u8>, s: Seq<u8>| #[trigger]
            deps_have_key(f, p, s) implies rows_have_dep_key(rows, p, s) && !deps_have_key(
            old,
            p,
            s,
        ) by {
            let i = choose|i: int| 0 <= i < f.len() && f[i].project == p && f[i].url_id == s;
            if i < d.len() {
                assert(deps_have_key(d, p, s));
                let j = choose|j: int|
                    0 <= j < rows.drop_last().len() && rows.drop_last()[j].project.id == p
                        && rows.drop_last()[j].deployment.url_id == s;
                assert(rows[j].project.id == p && rows[j].deployment.url_id == s);
            } else {
                assert(f[i] == initial_handle(r));
                assert(rows[rows.len() - 1].project.id == p && rows[rows.len()
                    - 1].deployment.url_id == s);
            }
        }
        assert forall|p: Seq<u8>, s: Seq<u8>|
            rows_have_dep_key(rows, p, s) && !deps_have_key(old, p, s) implies #[trigger]
            deps_have_key(f, p, s) by {
            let i = choose|i: int|
                0 <= i < rows.len() && rows[i].project.id == p && rows[i].deployment.url_id == s;
            if i < rows.len() - 1 {
                assert(rows.drop_last()[i].project.id == p && rows.drop_last()[
                i].deployment.url_id == s);
                assert(rows_have_dep_key(rows.drop_last(), p, s));
                assert(deps_have_key(d, p, s));
                let j = choose|j: int| 0 <= j < d.len() && d[j].project == p && d[j].url_id == s;
                assert(f[j].project == p && f[j].url_id == s);
            } else {
                assert(r.project.id == p && r.deployment.url_id == s);
                assert(f[f.len() - 1].project == p && f[f.len() - 1].url_id == s);
            }
        }
        if !deps_have_key(old, r.project.id, r.deployment.url_id) {
            assert forall|i: int, j: int|
                0 <= i < j < f.len() implies !(f[i].project == f[j].project && f[i].url_id
                    == f[j].url_id) by {
                if j == d.len() {
                    let w = choose|w: int|
                        0 <= w < rows.drop_last().len() && initial_handle(
                            rows.drop_last()[w],
                        ) == d[i];
                    assert(initial_handle(rows[w]) == d[i]);
                    assert(!(rows[w].project.id == r.project.id && rows[w].deployment.url_id
                        == r.deployment.url_id));
                } else {
                    assert(f[i] == d[i]);
                    assert(f[j] == d[j]);
                }
            }
        }
        assert forall|i: int|
            0 <= i < f.len() implies exists|j: int|
                0 <= j < rows.len() && initial_handle(rows[j]) == #[trigger] f[i] by {
            if i < d.len() {
                let j = choose|j: int|
                    0 <= j < rows.drop_last().len() && initial_handle(rows.drop_last()[j]) == d[i];
                assert(initial_handle(rows[j]) == f[i]);
            } else {
                assert(initial_handle(rows[rows.len() - 1]) == f[i]);
            }
        }
    }
}

/// Reconciliation law: after syncing, the deployment table holds exactly
/// one handle per row key — the in-memory deployments equal the
/// non-deleted rows joined with their projects — old handles keep their
/// state, and fresh ones enter through `initial_handle`.
pub proof fn lemma_sync_matches_rows(old: Seq<HandleSpec>, rows: Seq<RowSpec>)
    requires
        rows_distinct(rows),
        deps_distinct(old),
    ensures
        forall|p: Seq<u8>, s: Seq<u8>| #[trigger]
            deps_have_key(deps1_spec(old, rows), p, s) <==> rows_have_dep_key(rows, p, s),
        deps_distinct(deps1_spec(old, rows)),
{
    lemma_kept_deps(old, rows);
    lemma_fresh_deps(old, rows);
    let kept = kept_deps(old, rows);
    let fresh = fresh_deps(old, rows);
    let both = deps1_spec(old, rows);
    assert forall|p: Seq<u8>, s: Seq<u8>| #[trigger]
        deps_have_key(both, p, s) implies rows_have_dep_key(rows, p, s) by {
        let i = choose|i: int|
            0 <= i < both.len() && both[i].project == p && both[i].url_id == s;
        if i < kept.len() {
            assert(kept[i].project == p && kept[i].url_id == s);
            assert(deps_have_key(kept, p, s));
        } else {
            assert(fresh[i - kept.len()].project == p && fresh[i - kept.len()].url_id == s);
            assert(deps_have_key(fresh, p, s));
        }
    }
    assert forall|p: Seq<u8>, s: Seq<u8>| rows_have_dep_key(rows, p, s) implies #[trigger]
        deps_have_key(both, p, s) by {
        if deps_have_key(old, p, s) {
            assert(deps_have_key(kept, p, s));
            let i = choose|i: int|
                0 <= i < kept.len() && kept[i].project == p && kept[i].url_id == s;
            assert(both[i].project == p && both[i].url_id == s);
        } else {
            assert(deps_have_key(fresh, p, s));
            let i = choose|i: int|
                0 <= i < fresh.len() && fresh[i].project == p && fresh[i].url_id == s;
            assert(both[kept.len() + i].project == p && both[kept.len() + i].url_id == s);
        }
    }
    assert forall|i: int, j: int|
        0 <= i < j < both.len() implies !(both[i].project == both[j].project && both[i].url_id
            == both[j].url_id) by {
        if i < kept.len() && j >= kept.len() {
            assert(both[i] == kept[i]);
            assert(both[j] == fresh[j - kept.len()]);
            if both[i].project == both[j].project && both[i].url_id == both[j].url_id {
                let w = choose|w: int| 0 <= w < old.len() && old[w] == kept[i];
                assert(deps_have_key(old, both[j].project, both[j].url_id));
                assert(deps_have_key(fresh, both[j].project, both[j].url_id));
                assert(false);
            }
        } else if j < kept.len() {
            assert(both[i] == kept[i]);
            assert(both[j] == kept[j]);
        } else {
            assert(both[i] == fresh[i - kept.len()]);
            assert(both[j] == fresh[j - kept.len()]);
        }
    }
}

impl DeploymentMap {
    /// One reconciliation pass: rebuilds the model from a consistent
    /// snapshot of the non-deleted persistence rows joined with their
    /// projects. Rebuilds the name and custom-domain indexes, materializes
    /// missing production databases and pending certificates, syncs the
    /// deployment table (old handles keep their container state, gone keys
    /// vanish, fresh rows enter queued or resume from their persisted
    /// result), recomputes the production selection, wakes production
    /// deployments found built, and downgrades idle non-production ones.
    /// Returns the wake instructions for the caller to carry out.
    pub fn read_db_and_build_updates(
        &mut self,
        rows: &Vec<DeploymentWithProject>,
        now: i64,
    ) -> (actions: Vec<SyncAction>)
        requires
            old(self).wf(),
            rows_distinct(rows_view(rows)),
        ensures
            final(self).wf(),
            final(self).names_view() == names_spec(rows_view(rows)),
            final(self).domains_view() == domains_spec(rows_view(rows)),
            final(self).dbs_view() == add_missing_dbs(
                old(self).dbs_view(),
                row_pids(rows_view(rows)),
            ),
            final(self).certificates.entries_view() == add_missing_certs(
                old(self).certificates.entries_view(),
                domains_spec(rows_view(rows)).map_values(|p: (Seq<u8>, Seq<u8>)| p.0),
            ),
            final(self).prod_view() == prod_spec(
                deps1_spec(old(self).deps_view(), rows_view(rows)),
                dedup_first_keys(row_pids(rows_view(rows))),
            ),
            final(self).deps_view() == pass_deps(
                deps1_spec(old(self).deps_view(), rows_view(rows)),
                final(self).prod_view(),
                now,
            ),
            actions@.map_values(|a: SyncAction| a@) == warm_actions_spec(
                deps1_spec(old(self).deps_view(), rows_view(rows)),
                final(self).prod_view(),
            ),
    {
        let ghost rv = rows_view(rows);
        let ghost old_dbs = self.dbs_view();
        let ghost old_deps = self.deps_view();
        let ghost old_certs = self.certificates.entries_view();

        // Rebuild the project-name index.
        let mut names: Vec<KeyedId> = Vec::new();
        let mut i: usize = 0;
        proof {
            assert(rv.subrange(0, 0) =~= Seq::<RowSpec>::empty());
            assert(name_pairs(rv.subrange(0, 0)) =~= Seq::<(Seq<u8>, Seq<u8>)>::empty());
        }
        while i < rows.len()
            invariant
                i <= rows@.len(),
                rv == rows_view(rows),
                names@.map_values(|n: KeyedId| n@) == names_spec(rv.subrange(0, i as int)),
            decreases rows.len() - i,
        {
            proof {
                assert(rv[i as int] == rows@[i as int]@);
                assert(rv.subrange(0, i + 1).drop_last() =~= rv.subrange(0, i as int));
                assert(name_pairs(rv.subrange(0, i + 1)).drop_last() =~= name_pairs(
                    rv.subrange(0, i as int),
                ));
                assert(name_pairs(rv.subrange(0, i + 1)).last() == (
                    rv[i as int].project.name,
                    rv[i as int].project.id,
                ));
            }
            let ghost prev = names@.map_values(|n: KeyedId| n@);
            if !keyed_contains(&names, rows[i].project.name.as_slice()) {
                names.push(
                    KeyedId {
                        key: to_vec(rows[i].project.name.as_slice()),
                        id: rows[i].project.id.clone(),
                    },
                );
                proof {
                    assert(names@.map_values(|n: KeyedId| n@) =~= prev.push(
                        (rv[i as int].project.name, rv[i as int].project.id),
                    ));
                }
            }
            i += 1;
        }
        proof {
            assert(rv.subrange(0, rv.len() as int) =~= rv);
        }
        self.names = names;

        // Rebuild the custom-domain index.
        let mut domains: Vec<KeyedId> = Vec::new();
        let mut i2: usize = 0;
        proof {
            assert(domain_pairs(rv.subrange(0, 0)) =~= Seq::<(Seq<u8>, Seq<u8>)>::empty());
        }
        while i2 < rows.len()
            invariant
                i2 <= rows@.len(),
                rv == rows_view(rows),
                domains@.map_values(|n: KeyedId| n@) == dedup_first(
                    domain_pairs(rv.subrange(0, i2 as int)),
                ),
            decreases rows.len() - i2,
        {
            proof {
                assert(rv[i2 as int] == rows@[i2 as int]@);
            }
            let ghost done = domain_pairs(rv.subrange(0, i2 as int));
            let mut j: usize = 0;
            proof {
                assert(row_domain_pairs(rv[i2 as int]).subrange(0, 0) =~= Seq::<
                    (Seq<u8>, Seq<u8>),
                >::empty());
                assert(done + row_domain_pairs(rv[i2 as int]).subrange(0, 0) =~= done);
            }
            while j < rows[i2].project.custom_domains.len()
                invariant
                    i2 < rows@.len(),
                    rv == rows_view(rows),
                    rv[i2 as int] == rows@[i2 as int]@,
                    done == domain_pairs(rv.subrange(0, i2 as int)),
                    j <= rows@[i2 as int].project.custom_domains@.len(),
                    row_domain_pairs(rv[i2 as int]).len() == rows@[
                        i2 as int].project.custom_domains@.len(),
                    domains@.map_values(|n: KeyedId| n@) == dedup_first(
                        done + row_domain_pairs(rv[i2 as int]).subrange(0, j as int),
                    ),
                decreases rows@[i2 as int].project.custom_domains@.len() - j,
            {
                proof {
                    assert(row_domain_pairs(rv[i2 as int])[j as int] == (
                        rv[i2 as int].project.custom_domains[j as int],
                        rv[i2 as int].project.id,
                    ));
                    assert(rv[i2 as int].project.custom_domains[j as int] == rows@[
                        i2 as int].project.custom_domains@[j as int]@);
                    let part = done + row_domain_pairs(rv[i2 as int]).subrange(0, j + 1);
                    assert(part.drop_last() =~= done + row_domain_pairs(rv[i2 as int]).subrange(
                        0,
                        j as int,
                    ));
                    assert(part.last() == row_domain_pairs(rv[i2 as int])[j as int]);
                }
                let ghost prev = domains@.map_values(|n: KeyedId| n@);
                if !keyed_contains(&domains, rows[i2].project.custom_domains[j].as_slice()) {
                    domains.push(
                        KeyedId {
                            key: to_vec(rows[i2].project.custom_domains[j].as_slice()),
                            id: rows[i2].project.id.clone(),
                        },
                    );
                    proof {
                        assert(domains@.map_values(|n: KeyedId| n@) =~= prev.push(
                            row_domain_pairs(rv[i2 as int])[j as int],
                        ));
                    }
                }
                j += 1;
            }
            proof {
                assert(row_domain_pairs(rv[i2 as int]).subrange(
                    0,
                    row_domain_pairs(rv[i2 as int]).len() as int,
                ) =~= row_domain_pairs(rv[i2 as int]));
                assert(rv.subrange(0, i2 + 1).drop_last() =~= rv.subrange(0, i2 as int));
                assert(domain_pairs(rv.subrange(0, i2 + 1)) == domain_pairs(
                    rv.subrange(0, i2 as int),
                ) + row_domain_pairs(rv[i2 as int]));
            }
            i2 += 1;
        }
        proof {
            assert(rv.subrange(0, rv.len() as int) =~= rv);
        }
        self.custom_domains = domains;

        // Materialize missing production databases.
        let mut i3: usize = 0;
        proof {
            assert(row_pids(rv.subrange(0, 0)) =~= Seq::<Seq<u8>>::empty());
        }
        while i3 < rows.len()
            invariant
                i3 <= rows@.len(),
                rv == rows_view(rows),
                self.dbs_view() == add_missing_dbs(old_dbs, row_pids(rv.subrange(0, i3 as int))),
                self.names_view() == names_spec(rv),
                self.domains_view() == dedup_first(domain_pairs(rv)),
                self.deps_view() == old_deps,
                self.prod_view() == old(self).prod_view(),
                self.certificates == old(self).certificates,
            decreases rows.len() - i3,
        {
            proof {
                assert(rv[i3 as int] == rows@[i3 as int]@);
                assert(rv.subrange(0, i3 + 1).drop_last() =~= rv.subrange(0, i3 as int));
                assert(row_pids(rv.subrange(0, i3 + 1)).drop_last() =~= row_pids(
                    rv.subrange(0, i3 as int),
                ));
                assert(row_pids(rv.subrange(0, i3 + 1)).last() == rv[i3 as int].project.id);
            }
            let ghost prev = self.dbs_view();
            if !dbs_contains(&self.dbs, rows[i3].project.id.as_bytes().as_slice()) {
                let image = crate::bytes::to_vec("sqld:0.24.28".as_bytes());
                self.dbs.push(
                    ProdDbEntry {
                        project: rows[i3].project.id.clone(),
                        status: ContainerStatus::Built { image },
                    },
                );
                proof {
                    assert(self.dbs_view() =~= prev.push(
                        (
                            rv[i3 as int].project.id,
                            StatusSpec::Built { image: crate::sqld::sqld_image_seq() },
                        ),
                    ));
                }
            }
            i3 += 1;
        }
        proof {
            assert(rv.subrange(0, rv.len() as int) =~= rv);
        }

        // Order certificates for domains not yet tracked.
        let mut i4: usize = 0;
        let ghost domain_keys = domains_spec(rv).map_values(|p: (Seq<u8>, Seq<u8>)| p.0);
        proof {
            assert(domain_keys.subrange(0, 0) =~= Seq::<Seq<u8>>::empty());
        }
        while i4 < self.custom_domains.len()
            invariant
                i4 <= self.custom_domains@.len(),
                self.domains_view() == domains_spec(rv),
                domain_keys == domains_spec(rv).map_values(|p: (Seq<u8>, Seq<u8>)| p.0),
                domain_keys.len() == self.custom_domains@.len(),
                self.certificates.wf(),
                self.certificates.entries_view() == add_missing_certs(
                    old_certs,
                    domain_keys.subrange(0, i4 as int),
                ),
                self.names_view() == names_spec(rv),
                self.deps_view() == old_deps,
                self.prod_view() == old(self).prod_view(),
                self.dbs_view() == add_missing_dbs(old_dbs, row_pids(rv)),
            decreases self.custom_domains.len() - i4,
        {
            proof {
                assert(self.domains_view()[i4 as int] == self.custom_domains@[i4 as int]@);
                assert(domain_keys[i4 as int] == self.domains_view()[i4 as int].0);
                assert(domain_keys.subrange(0, i4 + 1).drop_last() =~= domain_keys.subrange(
                    0,
                    i4 as int,
                ));
                assert(domain_keys.subrange(0, i4 + 1).last() == domain_keys[i4 as int]);
            }
            let d = to_vec(self.custom_domains[i4].key.as_slice());
            self.certificates.insert_domain(d);
            i4 += 1;
        }
        proof {
            assert(domain_keys.subrange(0, domain_keys.len() as int) =~= domain_keys);
        }

        // Sync the deployment table with the rows.
        let mut new_deps: Vec<DeploymentHandle> = Vec::new();
        let mut i5: usize = 0;
        proof {
            assert(old_deps.subrange(0, 0) =~= Seq::<HandleSpec>::empty());
        }
        while i5 < self.deployments.len()
            invariant
                i5 <= self.deployments@.len(),
                self.deps_view() == old_deps,
                rv == rows_view(rows),
                new_deps@.map_values(|d: DeploymentHandle| d@) == kept_deps(
                    old_deps.subrange(0, i5 as int),
                    rv,
                ),
            decreases self.deployments.len() - i5,
        {
            proof {
                assert(old_deps[i5 as int] == self.deployments@[i5 as int]@);
                assert(old_deps.subrange(0, i5 + 1).drop_last() =~= old_deps.subrange(
                    0,
                    i5 as int,
                ));
                assert(old_deps.subrange(0, i5 + 1).last() == old_deps[i5 as int]);
            }
            let ghost prev = new_deps@.map_values(|d: DeploymentHandle| d@);
            if rows_contain_key(
                rows,
                self.deployments[i5].project.as_bytes().as_slice(),
                self.deployments[i5].url_id.as_slice(),
            ) {
                new_deps.push(self.deployments[i5].clone());
                proof {
                    assert(new_deps@.map_values(|d: DeploymentHandle| d@) =~= prev.push(
                        old_deps[i5 as int],
                    ));
                }
            }
            i5 += 1;
        }
        proof {
            assert(old_deps.subrange(0, old_deps.len() as int) =~= old_deps);
        }
        let mut i6: usize = 0;
        proof {
            assert(rv.subrange(0, 0) =~= Seq::<RowSpec>::empty());
            assert(kept_deps(old_deps, rv) + fresh_deps(old_deps, rv.subrange(0, 0))
                =~= kept_deps(old_deps, rv));
        }
        while i6 < rows.len()
            invariant
                i6 <= rows@.len(),
                self.deps_view() == old_deps,
                rv == rows_view(rows),
                new_deps@.map_values(|d: DeploymentHandle| d@) == kept_deps(old_deps, rv)
                    + fresh_deps(old_deps, rv.subrange(0, i6 as int)),
            decreases rows.len() - i6,
        {
            proof {
                assert(rv[i6 as int] == rows@[i6 as int]@);
                assert(rv.subrange(0, i6 + 1).drop_last() =~= rv.subrange(0, i6 as int));
                assert(rv.subrange(0, i6 + 1).last() == rv[i6 as int]);
            }
            let ghost prev = new_deps@.map_values(|d: DeploymentHandle| d@);
            if !deps_contains(
                &self.deployments,
                rows[i6].project.id.as_bytes().as_slice(),
                rows[i6].deployment.url_id.as_slice(),
            ) {
                new_deps.push(make_initial_handle(&rows[i6]));
                proof {
                    assert(new_deps@.map_values(|d: DeploymentHandle| d@) =~= prev.push(
                        initial_handle(rv[i6 as int]),
                    ));
                    assert(prev.push(initial_handle(rv[i6 as int])) =~= kept_deps(old_deps, rv)
                        + fresh_deps(old_deps, rv.subrange(0, i6 + 1)));
                }
            }
            i6 += 1;
        }
        proof {
            assert(rv.subrange(0, rv.len() as int) =~= rv);
        }
        self.deployments = new_deps;
        let ghost deps1 = deps1_spec(old_deps, rv);

        // Recompute the production selection.
        let mut pids: Vec<NanoId> = Vec::new();
        let mut i7: usize = 0;
        proof {
            assert(row_pids(rv.subrange(0, 0)) =~= Seq::<Seq<u8>>::empty());
        }
        while i7 < rows.len()
            invariant
                i7 <= rows@.len(),
                rv == rows_view(rows),
                pids@.map_values(|n: NanoId| n@) == dedup_first_keys(
                    row_pids(rv.subrange(0, i7 as int)),
                ),
            decreases rows.len() - i7,
        {
            proof {
                assert(rv[i7 as int] == rows@[i7 as int]@);
                assert(rv.subrange(0, i7 + 1).drop_last() =~= rv.subrange(0, i7 as int));
                assert(row_pids(rv.subrange(0, i7 + 1)).drop_last() =~= row_pids(
                    rv.subrange(0, i7 as int),
                ));
                assert(row_pids(rv.subrange(0, i7 + 1)).last() == rv[i7 as int].project.id);
            }
            let ghost prev = pids@.map_values(|n: NanoId| n@);
            if !pids_contain(&pids, rows[i7].project.id.as_bytes().as_slice()) {
                pids.push(rows[i7].project.id.clone());
                proof {
                    assert(pids@.map_values(|n: NanoId| n@) =~= prev.push(
                        rv[i7 as int].project.id,
                    ));
                }
            }
            i7 += 1;
        }
        proof {
            assert(rv.subrange(0, rv.len() as int) =~= rv);
        }
        let ghost pids_v = pids@.map_values(|n: NanoId| n@);
        let mut prod: Vec<ProdEntry> = Vec::new();
        let mut i8: usize = 0;
        proof {
            assert(pids_v.subrange(0, 0) =~= Seq::<Seq<u8>>::empty());
        }
        while i8 < pids.len()
            invariant
                i8 <= pids@.len(),
                pids_v == pids@.map_values(|n: NanoId| n@),
                self.deps_view() == deps1,
                prod@.map_values(|e: ProdEntry| e@) == prod_spec(
                    deps1,
                    pids_v.subrange(0, i8 as int),
                ),
            decreases pids.len() - i8,
        {
            proof {
                assert(pids_v[i8 as int] == pids@[i8 as int]@);
                assert(pids_v.subrange(0, i8 + 1).drop_last() =~= pids_v.subrange(0, i8 as int));
                assert(pids_v.subrange(0, i8 + 1).last() == pids_v[i8 as int]);
            }
            let ghost prev = prod@.map_values(|e: ProdEntry| e@);
            match select_prod(&self.deployments, pids[i8].as_bytes().as_slice()) {
                Some(slug) => {
                    prod.push(ProdEntry { project: pids[i8].clone(), url_id: slug });
                    proof {
                        assert(prod@.map_values(|e: ProdEntry| e@) =~= prev.push(
                            (pids_v[i8 as int], select_prod_spec(deps1, pids_v[i8 as int])->Some_0),
                        ));
                    }
                },
                None => {},
            }
            i8 += 1;
        }
        proof {
            assert(pids_v.subrange(0, pids_v.len() as int) =~= pids_v);
        }
        self.prod = prod;
        let ghost prod_v = self.prod_view();

        // Wake production deployments found built; downgrade idle
        // non-production containers.
        let mut actions: Vec<SyncAction> = Vec::new();
        let mut i9: usize = 0;
        proof {
            assert(deps1.subrange(0, 0) =~= Seq::<HandleSpec>::empty());
        }
        while i9 < self.deployments.len()
            invariant
                i9 <= self.deployments@.len(),
                self.deployments@.len() == deps1.len(),
                self.prod_view() == prod_v,
                rv == rows_view(rows),
                self.names_view() == names_spec(rv),
                self.domains_view() == domains_spec(rv),
                self.dbs_view() == add_missing_dbs(old_dbs, row_pids(rv)),
                self.certificates.wf(),
                self.certificates.entries_view() == add_missing_certs(old_certs, domain_keys),
                forall|j: int| i9 <= j < deps1.len() ==> self.deps_view()[j] == deps1[j],
                forall|j: int|
                    0 <= j < i9 ==> self.deps_view()[j] == passed_handle(deps1[j], prod_v, now),
                actions@.map_values(|a: SyncAction| a@) == warm_actions_spec(
                    deps1.subrange(0, i9 as int),
                    prod_v,
                ),
            decreases self.deployments.len() - i9,
        {
            proof {
                assert(self.deps_view()[i9 as int] == self.deployments@[i9 as int]@);
                assert(deps1.subrange(0, i9 + 1).drop_last() =~= deps1.subrange(0, i9 as int));
                assert(deps1.subrange(0, i9 + 1).last() == deps1[i9 as int]);
            }
            let ghost prev_actions = actions@.map_values(|a: SyncAction| a@);
            let is_prod = prod_contains_pair(
                &self.prod,
                self.deployments[i9].project.as_bytes().as_slice(),
                self.deployments[i9].url_id.as_slice(),
            );
            let mut h = self.deployments[i9].clone();
            if is_prod {
                let is_built = match &h.status {
                    ContainerStatus::Built { .. } => true,
                    _ => false,
                };
                if is_built {
                    let (s2, act) = h.status.enqueue_step();
                    h.status = s2;
                    let action = SyncAction {
                        project: h.project.clone(),
                        url_id: to_vec(h.url_id.as_slice()),
                        action: act,
                    };
                    actions.push(action);
                    proof {
                        assert(actions@.map_values(|a: SyncAction| a@) =~= prev_actions.push(
                            (
                                deps1[i9 as int].project,
                                deps1[i9 as int].url_id,
                                crate::container::enqueue_step_spec(deps1[i9 as int].status).1,
                            ),
                        ));
                    }
                }
            } else {
                let idle = (now as i128) - (h.last_hit as i128) > (IDLE_GRACE_MILLIS as i128);
                let s2 = h.status.downgrade_if_unused(false, idle);
                h.status = s2;
            }
            let ghost pre_set = self.deps_view();
            self.deployments.set(i9, h);
            proof {
                assert forall|j: int|
                    0 <= j < deps1.len() && j != i9 implies self.deps_view()[j] == pre_set[j] by {
                    assert(self.deployments@[j]@ == self.deps_view()[j]);
                }
                assert(self.deps_view()[i9 as int] == h@);
                assert(h@.status == pass_status(deps1[i9 as int], prod_v, now));
                assert(h@ == passed_handle(deps1[i9 as int], prod_v, now));
                assert forall|j: int|
                    0 <= j < i9 + 1 implies self.deps_view()[j] == passed_handle(
                    deps1[j],
                    prod_v,
                    now,
                ) by {
                    if j == i9 {
                    } else {
                        assert(self.deps_view()[j] == pre_set[j]);
                        assert(pre_set[j] == passed_handle(deps1[j], prod_v, now));
                    }
                }
            }
            i9 += 1;
        }
        proof {
            assert(deps1.subrange(0, deps1.len() as int) =~= deps1);
            assert(self.deps_view() =~= pass_deps(deps1, prod_v, now));
            assert(actions@.map_values(|a: SyncAction| a@) == warm_actions_spec(deps1, prod_v));

            // Well-formedness of the rebuilt model.
            lemma_dedup_first(name_pairs(rv));
            lemma_dedup_first(domain_pairs(rv));
            lemma_add_missing_dbs(old_dbs, row_pids(rv));
            lemma_dedup_first_keys(row_pids(rv));
            lemma_sync_matches_rows(old_deps, rv);
            lemma_prod_spec(deps1, pids_v);
            assert(deps_distinct(self.deps_view())) by {
                assert forall|x: int, y: int|
                    0 <= x < y < self.deps_view().len() implies !(self.deps_view()[x].project
                        == self.deps_view()[y].project && self.deps_view()[x].url_id
                        == self.deps_view()[y].url_id) by {
                    assert(self.deps_view()[x].project == deps1[x].project
                        && self.deps_view()[x].url_id == deps1[x].url_id);
                    assert(self.deps_view()[y].project == deps1[y].project
                        && self.deps_view()[y].url_id == deps1[y].url_id);
                }
            }
        }
        actions
    }
}

/// What a hostname label resolves to in the world model.
#[derive(Clone, Debug, PartialEq)]
pub enum RoutedTarget {
    /// The app container of a deployment.
    App { project: Vec<u8>, url_id: Vec<u8> },
    /// The production database container of a project.
    ProdDb { project: Vec<u8> },
    /// The branch database container of a deployment.
    BranchDb { project: Vec<u8>, url_id: Vec<u8> },
}

/// The routed target a label is bound to: the target's deployment key
/// is present in the model, the slug is the label's slug, and the
/// project is the one the name or id of the label binds to.
pub open spec fn label_routes_to(
    m: &DeploymentMap,
    label: crate::label::LabelSpec,
    t: RoutedTarget,
) -> bool {
    match t {
        RoutedTarget::App { project, url_id } => {
            &&& deps_have_key(m.deps_view(), project@, url_id@)
            &&& match label {
                crate::label::LabelSpec::Prod { project: name } => is_prod_key(
                    m.prod_view(),
                    project@,
                    url_id@,
                ) && (exists|i: int|
                    0 <= i < m.names_view().len() && m.names_view()[i] == (name, project@)),
                crate::label::LabelSpec::Deployment { project: name, deployment: d } => url_id@
                    == d && (exists|i: int|
                    0 <= i < m.names_view().len() && m.names_view()[i] == (name, project@)),
                crate::label::LabelSpec::DeploymentInsert { project: name, deployment: d } =>
                    url_id@ == d && (exists|i: int|
                    0 <= i < m.names_view().len() && m.names_view()[i] == (name, project@)),
                _ => false,
            }
        },
        RoutedTarget::ProdDb { project } => label matches crate::label::LabelSpec::ProdDb {
            project: p,
        } && project@ == p && (exists|i: int|
            0 <= i < m.dbs_view().len() && m.dbs_view()[i].0 == p),
        RoutedTarget::BranchDb { project, url_id } => label matches
            crate::label::LabelSpec::BranchDb { project: p, deployment: d } && project@ == p
            && url_id@ == d && deps_have_key(m.deps_view(), p, d),
    }
}

impl DeploymentMap {
    /// Resolves a parsed label to the container the proxy must wake and
    /// forward to: the production app by project name, a deployment's
    /// app by name and slug, a project's production database by id, or a
    /// deployment's branch database by id and slug. Yields nothing when
    /// the model holds no such resource.
    pub fn get_container_by_label(&self, label: &crate::label::Label) -> (r: Option<RoutedTarget>)
        requires
            self.wf(),
        ensures
            match r {
                Some(t) => label_routes_to(self, label@, t),
                None => match label@ {
                    crate::label::LabelSpec::Prod { project: name } => forall|i: int, j: int|
                        0 <= i < self.names_view().len() && 0 <= j < self.prod_view().len()
                            && #[trigger] self.names_view()[i].0 == name
                            && #[trigger] self.prod_view()[j].0 == self.names_view()[i].1
                            ==> !deps_have_key(
                            self.deps_view(),
                            self.prod_view()[j].0,
                            self.prod_view()[j].1,
                        ),
                    crate::label::LabelSpec::Deployment { project: name, deployment: d } => forall|
                        i: int,
                    |
                        0 <= i < self.names_view().len() && #[trigger] self.names_view()[i].0
                            == name ==> !deps_have_key(
                            self.deps_view(),
                            self.names_view()[i].1,
                            d,
                        ),
                    crate::label::LabelSpec::DeploymentInsert { project: name, deployment: d } =>
                        forall|i: int|
                        0 <= i < self.names_view().len() && #[trigger] self.names_view()[i].0
                            == name ==> !deps_have_key(
                            self.deps_view(),
                            self.names_view()[i].1,
                            d,
                        ),
                    crate::label::LabelSpec::ProdDb { project: p } => !(exists|i: int|
                        0 <= i < self.dbs_view().len() && self.dbs_view()[i].0 == p),
                    crate::label::LabelSpec::BranchDb { project: p, deployment: d } =>
                        !deps_have_key(self.deps_view(), p, d),
                },
            },
    {
        match label {
            crate::label::Label::Prod { project } => {
                match self.get_prod(project.as_slice()) {
                    Some(h) => {
                        let p = h.project.to_vec();
                        let u = to_vec(h.url_id.as_slice());
                        proof {
                            let i = choose|i: int|
                                0 <= i < self.deps_view().len() && self.deps_view()[i] == h@;
                            let j = choose|j: int|
                                0 <= j < self.names_view().len() && self.names_view()[j] == (
                                    project@,
                                    h@.project,
                                );
                            assert(self.names_view()[j] == (project@, p@));
                        }
                        Some(RoutedTarget::App { project: p, url_id: u })
                    },
                    None => None,
                }
            },
            crate::label::Label::Deployment { project, deployment } => {
                match self.get_deployment_by_name(project.as_slice(), deployment.as_slice()) {
                    Some(h) => {
                        let p = h.project.to_vec();
                        let u = to_vec(h.url_id.as_slice());
                        proof {
                            let i = choose|i: int|
                                0 <= i < self.deps_view().len() && self.deps_view()[i] == h@;
                            let j = choose|j: int|
                                0 <= j < self.names_view().len() && self.names_view()[j] == (
                                    project@,
                                    h@.project,
                                );
                            assert(self.names_view()[j] == (project@, p@));
                        }
                        Some(RoutedTarget::App { project: p, url_id: u })
                    },
                    None => None,
                }
            },
            crate::label::Label::DeploymentInsert { project, deployment } => {
                match self.get_deployment_by_name(project.as_slice(), deployment.as_slice()) {
                    Some(h) => {
                        let p = h.project.to_vec();
                        let u = to_vec(h.url_id.as_slice());
                        proof {
                            let i = choose|i: int|
                                0 <= i < self.deps_view().len() && self.deps_view()[i] == h@;
                            let j = choose|j: int|
                                0 <= j < self.names_view().len() && self.names_view()[j] == (
                                    project@,
                                    h@.project,
                                );
                            assert(self.names_view()[j] == (project@, p@));
                        }
                        Some(RoutedTarget::App { project: p, url_id: u })
                    },
                    None => None,
                }
            },
            crate::label::Label::ProdDb { project } => {
                match self.get_prod_db(project.as_slice()) {
                    Some(e) => {
                        let p = e.project.to_vec();
                        proof {
                            let i = choose|i: int|
                                0 <= i < self.dbs_view().len() && self.dbs_view()[i] == e@;
                        }
                        Some(RoutedTarget::ProdDb { project: p })
                    },
                    None => None,
                }
            },
            crate::label::Label::BranchDb { project, deployment } => {
                match self.get_deployment_by_id(project.as_slice(), deployment.as_slice()) {
                    Some(h) => {
                        let p = h.project.to_vec();
                        let u = to_vec(h.url_id.as_slice());
                        proof {
                            let i = choose|i: int|
                                0 <= i < self.deps_view().len() && self.deps_view()[i] == h@;
                        }
                        Some(RoutedTarget::BranchDb { project: p, url_id: u })
                    },
                    None => None,
                }
            },
        }
    }

    /// Resolves a raw hostname: a custom domain routes to its project's
    /// production app; otherwise the hostname is stripped of the box
    /// domain and its label resolved. The flag says whether the label
    /// enables writes to the branch database.
    pub fn get_container_by_hostname(&self, hostname: &[u8], box_domain: &[u8]) -> (r: Option<
        (RoutedTarget, bool),
    >)
        requires
            self.wf(),
        ensures
            match r {
                Some((t, insert)) => ({
                    // Either the hostname is a custom domain bound to a project
                    // whose production deployment is the target...
                    ||| (match t {
                        RoutedTarget::App { project, url_id } => {
                            &&& !insert
                            &&& deps_have_key(self.deps_view(), project@, url_id@)
                            &&& is_prod_key(self.prod_view(), project@, url_id@)
                            &&& exists|i: int|
                                0 <= i < self.domains_view().len() && self.domains_view()[i]
                                    == (hostname@, project@)
                        },
                        _ => false,
                    })
                    // ...or the hostname strips to a label and the target is
                    // the one that label binds to.
                    ||| (match crate::label::strip_from_domain_spec(hostname@, box_domain@) {
                        Some(l) => label_routes_to(self, l, t) && (insert <==> l
                            is DeploymentInsert),
                        None => false,
                    })
                }),
                None => {
                    &&& forall|i: int, j: int|
                        0 <= i < self.domains_view().len() && 0 <= j < self.prod_view().len()
                            && #[trigger] self.domains_view()[i].0 == hostname@
                            && #[trigger] self.prod_view()[j].0 == self.domains_view()[i].1
                            ==> !deps_have_key(
                            self.deps_view(),
                            self.prod_view()[j].0,
                            self.prod_view()[j].1,
                        )
                    &&& match crate::label::strip_from_domain_spec(hostname@, box_domain@) {
                        Some(crate::label::LabelSpec::ProdDb { project: p }) => !(exists|i: int|
                            0 <= i < self.dbs_view().len() && self.dbs_view()[i].0 == p),
                        Some(crate::label::LabelSpec::BranchDb { project: p, deployment: d }) =>
                            !deps_have_key(self.deps_view(), p, d),
                        _ => true,
                    }
                },
            },
    {
        let by_domain = self.get_custom_domain(hostname);
        match by_domain {
            Some(h) => {
                let p = h.project.to_vec();
                let u = to_vec(h.url_id.as_slice());
                proof {
                    let i = choose|i: int|
                        0 <= i < self.deps_view().len() && self.deps_view()[i] == h@;
                    let j = choose|j: int|
                        0 <= j < self.domains_view().len() && self.domains_view()[j] == (
                            hostname@,
                            h@.project,
                        );
                    assert(self.domains_view()[j] == (hostname@, p@));
                }
                Some((RoutedTarget::App { project: p, url_id: u }, false))
            },
            None => {
                match crate::label::Label::strip_from_domain(hostname, box_domain) {
                    Ok(label) => {
                        let insert = label.insert_enabled();
                        match self.get_container_by_label(&label) {
                            Some(t) => Some((t, insert)),
                            None => None,
                        }
                    },
                    Err(_) => None,
                }
            },
        }
    }

    /// Records a build outcome on the deployment that carries the key:
    /// its result and container state change, everything else stays.
    pub fn on_build_outcome(
        &mut self,
        project: &[u8],
        url_id: &[u8],
        outcome: BuildResult,
        image: Vec<u8>,
    )
        requires
            old(self).wf(),
        ensures
            final(self).wf(),
            final(self).deps_view().len() == old(self).deps_view().len(),
            forall|i: int|
                0 <= i < old(self).deps_view().len() && !(old(self).deps_view()[i].project
                    == project@ && old(self).deps_view()[i].url_id == url_id@) ==> final(self).deps_view()[i] == old(self).deps_view()[i],
            forall|i: int|
                0 <= i < old(self).deps_view().len() && old(self).deps_view()[i].project
                    == project@ && old(self).deps_view()[i].url_id == url_id@ ==> final(self).deps_view()[i] == (HandleSpec {
                    result: Some(outcome),
                    status: match outcome {
                        BuildResult::Built => StatusSpec::Built { image: image@ },
                        BuildResult::Failed => StatusSpec::Failed,
                    },
                    ..old(self).deps_view()[i]
                }),
            final(self).prod_view() == old(self).prod_view(),
            final(self).names_view() == old(self).names_view(),
            final(self).domains_view() == old(self).domains_view(),
            final(self).dbs_view() == old(self).dbs_view(),
            final(self).certificates == old(self).certificates,
    {
        let ghost prev = self.deps_view();
        let mut i: usize = 0;
        while i < self.deployments.len()
            invariant
                i <= self.deployments@.len(),
                self.deps_view() == prev,
                old(self).deps_view() == prev,
                old(self).wf(),
                self.prod_view() == old(self).prod_view(),
                self.names_view() == old(self).names_view(),
                self.domains_view() == old(self).domains_view(),
                self.dbs_view() == old(self).dbs_view(),
                self.certificates == old(self).certificates,
                forall|j: int|
                    0 <= j < i ==> !(prev[j].project == project@ && prev[j].url_id == url_id@),
            decreases self.deployments.len() - i,
        {
            proof {
                assert(self.deps_view()[i as int] == self.deployments@[i as int]@);
            }
            if bytes_eq_slice(self.deployments[i].project.as_bytes().as_slice(), project)
                && bytes_eq_slice(self.deployments[i].url_id.as_slice(), url_id) {
                let mut h = self.deployments[i].clone();
                h.result = Some(outcome);
                h.status = match outcome {
                    BuildResult::Built => ContainerStatus::Built { image },
                    BuildResult::Failed => ContainerStatus::Failed,
                };
                self.deployments.set(i, h);
                proof {
                    assert forall|j: int|
                        0 <= j < prev.len() && j != i implies self.deps_view()[j] == prev[j] by {
                        assert(self.deployments@[j]@ == self.deps_view()[j]);
                    }
                    assert forall|j: int|
                        0 <= j < prev.len() && j != i implies !(prev[j].project == project@
                            && prev[j].url_id == url_id@) by {
                        assert(!(prev[j].project == prev[i as int].project && prev[j].url_id
                            == prev[i as int].url_id));
                    }
                    assert forall|x: int, y: int|
                        0 <= x < y < self.deps_view().len() implies !(self.deps_view()[x].project
                            == self.deps_view()[y].project && self.deps_view()[x].url_id
                            == self.deps_view()[y].url_id) by {
                        assert(self.deps_view()[x].project == prev[x].project
                            && self.deps_view()[x].url_id == prev[x].url_id);
                        assert(self.deps_view()[y].project == prev[y].project
                            && self.deps_view()[y].url_id == prev[y].url_id);
                    }
                }
                return;
            }
            i += 1;
        }
    }

    /// Stamps a proxy hit on the deployment that carries the key, so the
    /// idle downgrade's grace window restarts.
    pub fn touch_deployment(&mut self, project: &[u8], url_id: &[u8], now: i64)
        requires
            old(self).wf(),
        ensures
            final(self).wf(),
            final(self).deps_view().len() == old(self).deps_view().len(),
            forall|i: int|
                0 <= i < old(self).deps_view().len() && !(old(self).deps_view()[i].project
                    == project@ && old(self).deps_view()[i].url_id == url_id@) ==> final(self).deps_view()[i] == old(self).deps_view()[i],
            forall|i: int|
                0 <= i < old(self).deps_view().len() && old(self).deps_view()[i].project
                    == project@ && old(self).deps_view()[i].url_id == url_id@ ==> final(self).deps_view()[i] == (HandleSpec { last_hit: now, ..old(self).deps_view()[i] }),
            final(self).prod_view() == old(self).prod_view(),
            final(self).names_view() == old(self).names_view(),
            final(self).domains_view() == old(self).domains_view(),
            final(self).dbs_view() == old(self).dbs_view(),
            final(self).certificates == old(self).certificates,
    {
        let ghost prev = self.deps_view();
        let mut i: usize = 0;
        while i < self.deployments.len()
            invariant
                i <= self.deployments@.len(),
                self.deps_view() == prev,
                old(self).deps_view() == prev,
                old(self).wf(),
                self.prod_view() == old(self).prod_view(),
                self.names_view() == old(self).names_view(),
                self.domains_view() == old(self).domains_view(),
                self.dbs_view() == old(self).dbs_view(),
                self.certificates == old(self).certificates,
                forall|j: int|
                    0 <= j < i ==> !(prev[j].project == project@ && prev[j].url_id == url_id@),
            decreases self.deployments.len() - i,
        {
            proof {
                assert(self.deps_view()[i as int] == self.deployments@[i as int]@);
            }
            if bytes_eq_slice(self.deployments[i].project.as_bytes().as_slice(), project)
                && bytes_eq_slice(self.deployments[i].url_id.as_slice(), url_id) {
                let mut h = self.deployments[i].clone();
                h.last_hit = now;
                self.deployments.set(i, h);
                proof {
                    assert forall|j: int|
                        0 <= j < prev.len() && j != i implies self.deps_view()[j] == prev[j] by {
                        assert(self.deployments@[j]@ == self.deps_view()[j]);
                    }
                    assert forall|j: int|
                        0 <= j < prev.len() && j != i implies !(prev[j].project == project@
                            && prev[j].url_id == url_id@) by {
                        assert(!(prev[j].project == prev[i as int].project && prev[j].url_id
                            == prev[i as int].url_id));
                    }
                    assert forall|x: int, y: int|
                        0 <= x < y < self.deps_view().len() implies !(self.deps_view()[x].project
                            == self.deps_view()[y].project && self.deps_view()[x].url_id
                            == self.deps_view()[y].url_id) by {
                        assert(self.deps_view()[x].project == prev[x].project
                            && self.deps_view()[x].url_id == prev[x].url_id);
                        assert(self.deps_view()[y].project == prev[y].project
                            && self.deps_view()[y].url_id == prev[y].url_id);
                    }
                }
                return;
            }
            i += 1;
        }
    }
}

// ------------------------------------------------------------------
// Idempotence: a second pass over the same snapshot changes nothing.
// ------------------------------------------------------------------

/// Keeping with every key present keeps everything.
proof fn lemma_kept_all(deps: Seq<HandleSpec>, rows: Seq<RowSpec>)
    requires
        forall|i: int|
            0 <= i < deps.len() ==> rows_have_dep_key(
                rows,
                #[trigger] deps[i].project,
                deps[i].url_id,
            ),
    ensures
        kept_deps(deps, rows) == deps,
    decreases deps.len(),
{
    if deps.len() == 0 {
        assert(kept_deps(deps, rows) =~= deps);
    } else {
        assert forall|i: int|
            0 <= i < deps.drop_last().len() implies rows_have_dep_key(
            rows,
            #[trigger] deps.drop_last()[i].project,
            deps.drop_last()[i].url_id,
        ) by {
            assert(deps[i] == deps.drop_last()[i]);
        }
        lemma_kept_all(deps.drop_last(), rows);
        assert(rows_have_dep_key(rows, deps.last().project, deps.last().url_id));
        assert(kept_deps(deps, rows) =~= deps);
    }
}

/// Inserting with every row key present inserts nothing.
proof fn lemma_fresh_none(deps: Seq<HandleSpec>, rows: Seq<RowSpec>)
    requires
        forall|i: int|
            0 <= i < rows.len() ==> deps_have_key(
                deps,
                #[trigger] rows[i].project.id,
                rows[i].deployment.url_id,
            ),
    ensures
        fresh_deps(deps, rows) == Seq::<HandleSpec>::empty(),
    decreases rows.len(),
{
    if rows.len() == 0 {
        assert(fresh_deps(deps, rows) =~= Seq::<HandleSpec>::empty());
    } else {
        assert forall|i: int|
            0 <= i < rows.drop_last().len() implies deps_have_key(
            deps,
            #[trigger] rows.drop_last()[i].project.id,
            rows.drop_last()[i].deployment.url_id,
        ) by {
            assert(rows[i] == rows.drop_last()[i]);
        }
        lemma_fresh_none(deps, rows.drop_last());
        assert(deps_have_key(deps, rows.last().project.id, rows.last().deployment.url_id));
    }
}

/// Adding missing databases twice adds them once.
proof fn lemma_dbs_idem(old: Seq<(Seq<u8>, StatusSpec)>, pids: Seq<Seq<u8>>)
    ensures
        add_missing_dbs(add_missing_dbs(old, pids), pids) == add_missing_dbs(old, pids),
{
    let once = add_missing_dbs(old, pids);
    lemma_add_missing_dbs(old, pids);
    lemma_dbs_saturated(once, pids);
}

/// Adding project ids already present adds nothing.
proof fn lemma_dbs_saturated(dbs: Seq<(Seq<u8>, StatusSpec)>, pids: Seq<Seq<u8>>)
    requires
        forall|k: Seq<u8>| pids.contains(k) ==> #[trigger] dbs_have_key(dbs, k),
    ensures
        add_missing_dbs(dbs, pids) == dbs,
    decreases pids.len(),
{
    if pids.len() == 0 {
    } else {
        assert forall|k: Seq<u8>| pids.drop_last().contains(k) implies #[trigger] dbs_have_key(
            dbs,
            k,
        ) by {
            let i = choose|i: int| 0 <= i < pids.drop_last().len() && pids.drop_last()[i] == k;
            assert(pids[i] == k);
        }
        lemma_dbs_saturated(dbs, pids.drop_last());
        assert(pids[pids.len() - 1] == pids.last());
        assert(dbs_have_key(dbs, pids.last()));
    }
}

/// Ordering certificates for domains already tracked orders nothing.
proof fn lemma_certs_saturated(
    certs: Seq<(Seq<u8>, crate::certs::TlsStateSpec)>,
    domains: Seq<Seq<u8>>,
)
    requires
        forall|k: Seq<u8>|
            domains.contains(k) ==> exists|i: int|
                0 <= i < certs.len() && #[trigger] certs[i].0 == k,
    ensures
        add_missing_certs(certs, domains) == certs,
    decreases domains.len(),
{
    if domains.len() == 0 {
    } else {
        assert forall|k: Seq<u8>|
            domains.drop_last().contains(k) implies exists|i: int|
                0 <= i < certs.len() && #[trigger] certs[i].0 == k by {
            let i = choose|i: int|
                0 <= i < domains.drop_last().len() && domains.drop_last()[i] == k;
            assert(domains[i] == k);
            assert(domains.contains(k));
        }
        lemma_certs_saturated(certs, domains.drop_last());
        assert(domains[domains.len() - 1] == domains.last());
        assert(domains.contains(domains.last()));
        assert(exists|i: int| 0 <= i < certs.len() && #[trigger] certs[i].0 == domains.last());
    }
}

/// The pass transform changes only the container state: the selection
/// fields of every handle stay, so the candidates of a project are the
/// transformed candidates, in order.
proof fn lemma_candidates_of_pass(
    deps: Seq<HandleSpec>,
    prod: Seq<(Seq<u8>, Seq<u8>)>,
    now: i64,
    pid: Seq<u8>,
)
    ensures
        prod_candidates(pass_deps(deps, prod, now), pid) == pass_deps(
            prod_candidates(deps, pid),
            prod,
            now,
        ),
        built_candidates(pass_deps(deps, prod, now), pid) == pass_deps(
            built_candidates(deps, pid),
            prod,
            now,
        ),
    decreases deps.len(),
{
    let mapped = pass_deps(deps, prod, now);
    if deps.len() == 0 {
        assert(prod_candidates(mapped, pid) =~= pass_deps(prod_candidates(deps, pid), prod, now));
        assert(built_candidates(mapped, pid) =~= pass_deps(
            built_candidates(deps, pid),
            prod,
            now,
        ));
    } else {
        lemma_candidates_of_pass(deps.drop_last(), prod, now, pid);
        assert(mapped.drop_last() =~= pass_deps(deps.drop_last(), prod, now));
        assert(mapped.last() == passed_handle(deps.last(), prod, now));
        if is_prod_candidate(deps.last(), pid) {
            assert(prod_candidates(mapped, pid) =~= pass_deps(
                prod_candidates(deps, pid),
                prod,
                now,
            )) by {
                assert(prod_candidates(deps, pid).drop_last() =~= prod_candidates(
                    deps.drop_last(),
                    pid,
                ));
            }
        } else {
            assert(prod_candidates(mapped, pid) == prod_candidates(deps.drop_last(), pid).map_values(
                |h: HandleSpec| passed_handle(h, prod, now),
            ));
            assert(prod_candidates(mapped, pid) =~= pass_deps(
                prod_candidates(deps, pid),
                prod,
                now,
            ));
        }
        if is_prod_candidate(deps.last(), pid) && deps.last().result == Some(
            BuildResult::Built,
        ) {
            assert(built_candidates(mapped, pid) =~= pass_deps(
                built_candidates(deps, pid),
                prod,
                now,
            )) by {
                assert(built_candidates(deps, pid).drop_last() =~= built_candidates(
                    deps.drop_last(),
                    pid,
                ));
            }
        } else {
            assert(built_candidates(mapped, pid) =~= pass_deps(
                built_candidates(deps, pid),
                prod,
                now,
            ));
        }
    }
}

/// The best of the transformed candidates is the transformed best: the
/// comparison reads only fields the transform keeps.
proof fn lemma_best_of_pass(s: Seq<HandleSpec>, prod: Seq<(Seq<u8>, Seq<u8>)>, now: i64)
    requires
        s.len() > 0,
    ensures
        best_handle(pass_deps(s, prod, now)) == passed_handle(best_handle(s), prod, now),
    decreases s.len(),
{
    let mapped = pass_deps(s, prod, now);
    if s.len() == 1 {
        assert(mapped[0] == passed_handle(s[0], prod, now));
    } else {
        lemma_best_of_pass(s.drop_last(), prod, now);
        assert(mapped.drop_last() =~= pass_deps(s.drop_last(), prod, now));
        assert(mapped.last() == passed_handle(s.last(), prod, now));
        assert(better_candidate(mapped.last(), best_handle(mapped.drop_last()))
            == better_candidate(s.last(), best_handle(s.drop_last())));
    }
}

/// The production selection ignores container states: it is unchanged by
/// the pass transform.
proof fn lemma_select_of_pass(
    deps: Seq<HandleSpec>,
    prod: Seq<(Seq<u8>, Seq<u8>)>,
    now: i64,
    pid: Seq<u8>,
)
    ensures
        select_prod_spec(pass_deps(deps, prod, now), pid) == select_prod_spec(deps, pid),
{
    lemma_candidates_of_pass(deps, prod, now, pid);
    let cands = prod_candidates(deps, pid);
    let built = built_candidates(deps, pid);
    if built.len() > 0 {
        lemma_best_of_pass(built, prod, now);
    } else if cands.len() > 0 {
        lemma_best_of_pass(cands, prod, now);
    }
}

/// So the whole production index is unchanged by the pass transform.
proof fn lemma_prod_of_pass(
    deps: Seq<HandleSpec>,
    prod: Seq<(Seq<u8>, Seq<u8>)>,
    now: i64,
    pids: Seq<Seq<u8>>,
)
    ensures
        prod_spec(pass_deps(deps, prod, now), pids) == prod_spec(deps, pids),
    decreases pids.len(),
{
    if pids.len() == 0 {
    } else {
        lemma_prod_of_pass(deps, prod, now, pids.drop_last());
        lemma_select_of_pass(deps, prod, now, pids.last());
    }
}

/// The pass transform is idempotent: a woken production deployment is no
/// longer built, a downgraded container is no longer ready, and the
/// fields the transform reads are preserved.
proof fn lemma_pass_idem(deps: Seq<HandleSpec>, prod: Seq<(Seq<u8>, Seq<u8>)>, now: i64)
    ensures
        pass_deps(pass_deps(deps, prod, now), prod, now) == pass_deps(deps, prod, now),
{
    let once = pass_deps(deps, prod, now);
    assert forall|i: int|
        0 <= i < once.len() implies passed_handle(once[i], prod, now) == once[i] by {
        let h = deps[i];
        let t = passed_handle(h, prod, now);
        assert(once[i] == t);
        if is_prod_key(prod, h.project, h.url_id) {
            if h.status is Built {
                assert(t.status is Starting);
            }
        }
    }
    assert(pass_deps(once, prod, now) =~= once);
}

/// Reconciliation is idempotent. One pass over a snapshot yields a
/// deployment table, a production index, database and certificate
/// stores; a second pass over the same snapshot and the same clock
/// leaves every one of them exactly as the first pass left it.
pub proof fn lemma_reconciliation_idempotent(
    old_deps: Seq<HandleSpec>,
    old_dbs: Seq<(Seq<u8>, StatusSpec)>,
    old_certs: Seq<(Seq<u8>, crate::certs::TlsStateSpec)>,
    rows: Seq<RowSpec>,
    now: i64,
)
    requires
        rows_distinct(rows),
        deps_distinct(old_deps),
    ensures
        ({
            let pids = dedup_first_keys(row_pids(rows));
            let domain_keys = domains_spec(rows).map_values(|p: (Seq<u8>, Seq<u8>)| p.0);
            let deps1 = deps1_spec(old_deps, rows);
            let prod1 = prod_spec(deps1, pids);
            let table1 = pass_deps(deps1, prod1, now);
            let dbs1 = add_missing_dbs(old_dbs, row_pids(rows));
            let certs1 = add_missing_certs(old_certs, domain_keys);
            &&& deps1_spec(table1, rows) == table1
            &&& prod_spec(deps1_spec(table1, rows), pids) == prod1
            &&& pass_deps(deps1_spec(table1, rows), prod1, now) == table1
            &&& add_missing_dbs(dbs1, row_pids(rows)) == dbs1
            &&& add_missing_certs(certs1, domain_keys) == certs1
        }),
{
    let pids = dedup_first_keys(row_pids(rows));
    let domain_keys = domains_spec(rows).map_values(|p: (Seq<u8>, Seq<u8>)| p.0);
    let deps1 = deps1_spec(old_deps, rows);
    let prod1 = prod_spec(deps1, pids);
    let table1 = pass_deps(deps1, prod1, now);

    // The second sync keeps everything and adds nothing: the first pass
    // made the keys of the table exactly the keys of the rows.
    lemma_sync_matches_rows(old_deps, rows);
    assert forall|i: int|
        0 <= i < table1.len() implies rows_have_dep_key(
        rows,
        #[trigger] table1[i].project,
        table1[i].url_id,
    ) by {
        assert(table1[i] == passed_handle(deps1[i], prod1, now));
        assert(deps_have_key(deps1, table1[i].project, table1[i].url_id));
    }
    lemma_kept_all(table1, rows);
    assert forall|i: int|
        0 <= i < rows.len() implies deps_have_key(
        table1,
        #[trigger] rows[i].project.id,
        rows[i].deployment.url_id,
    ) by {
        assert(rows_have_dep_key(rows, rows[i].project.id, rows[i].deployment.url_id));
        assert(deps_have_key(deps1, rows[i].project.id, rows[i].deployment.url_id));
        let j = choose|j: int|
            0 <= j < deps1.len() && deps1[j].project == rows[i].project.id && deps1[j].url_id
                == rows[i].deployment.url_id;
        assert(table1[j] == passed_handle(deps1[j], prod1, now));
    }
    lemma_fresh_none(table1, rows);
    assert(deps1_spec(table1, rows) =~= table1);

    // The selection reads none of the fields the pass changes.
    lemma_prod_of_pass(deps1, prod1, now, pids);

    // And the pass itself settles after one application.
    lemma_pass_idem(deps1, prod1, now);

    // The stores only ever gain what they were missing.
    lemma_dbs_idem(old_dbs, row_pids(rows));
    lemma_add_missing_certs(old_certs, domain_keys);
    assert forall|k: Seq<u8>|
        domain_keys.contains(k) implies exists|i: int|
            0 <= i < add_missing_certs(old_certs, domain_keys).len() && #[trigger]
            add_missing_certs(old_certs, domain_keys)[i].0 == k by {
        lemma_certs_cover(old_certs, domain_keys, k);
    }
    lemma_certs_saturated(add_missing_certs(old_certs, domain_keys), domain_keys);
}

/// After ordering certificates for a list of domains, each one of them
/// is tracked.
proof fn lemma_certs_cover(
    old: Seq<(Seq<u8>, crate::certs::TlsStateSpec)>,
    domains: Seq<Seq<u8>>,
    k: Seq<u8>,
)
    requires
        domains.contains(k),
    ensures
        exists|i: int|
            0 <= i < add_missing_certs(old, domains).len() && #[trigger] add_missing_certs(
                old,
                domains,
            )[i].0 == k,
    decreases domains.len(),
{
    let f = add_missing_certs(old, domains);
    let d = add_missing_certs(old, domains.drop_last());
    if domains.last() == k {
        if exists|i: int| 0 <= i < d.len() && d[i].0 == k {
            let i = choose|i: int| 0 <= i < d.len() && d[i].0 == k;
            assert(f[i].0 == k);
        } else {
            assert(f[d.len() as int].0 == k);
        }
    } else {
        let i = choose|i: int| 0 <= i < domains.len() && domains[i] == k;
        assert(domains.drop_last()[i] == k);
        assert(domains.drop_last().contains(k));
        lemma_certs_cover(old, domains.drop_last(), k);
        let j = choose|j: int| 0 <= j < d.len() && d[j].0 == k;
        assert(f[j].0 == k);
    }
}

/// The container name a state holds, if any.
pub open spec fn status_container(s: StatusSpec) -> Option<Seq<u8>> {
    match s {
        StatusSpec::StandBy { container, .. } => Some(container),
        StatusSpec::Ready { container, .. } => Some(container),
        StatusSpec::Starting { container, .. } => container,
        _ => None,
    }
}

/// The database container name a state holds, if any.
pub open spec fn status_db_container(s: StatusSpec) -> Option<Seq<u8>> {
    match s {
        StatusSpec::StandBy { db_container, .. } => db_container,
        StatusSpec::Ready { db_container, .. } => db_container,
        StatusSpec::Starting { db_container, .. } => db_container,
        _ => None,
    }
}

/// The world model references container name `n`: some deployment's app or
/// branch database container carries it, or some production database does.
pub open spec fn map_references_container(m: &DeploymentMap, n: Seq<u8>) -> bool {
    ||| exists|i: int|
        0 <= i < m.deps_view().len() && (status_container(m.deps_view()[i].status) == Some(n)
            || status_db_container(m.deps_view()[i].status) == Some(n))
    ||| exists|i: int|
        0 <= i < m.dbs_view().len() && status_container(m.dbs_view()[i].1) == Some(n)
}

} // verus!
