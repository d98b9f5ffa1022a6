//! The persistent rows the world model is rebuilt from: projects,
//! deployments, environment entries — and the URLs derived from them.

use vstd::prelude::*;

use crate::bytes::push_all;
use crate::config::DeploymentConfig;
use crate::container::BuildResult;
use crate::ids::NanoId;
use crate::label::{format_hostname_spec, Label, LabelSpec};

verus! {

/// One frozen environment entry of a deployment.
#[derive(Clone, Debug, PartialEq)]
pub struct EnvVar {
    pub name: Vec<u8>,
    pub value: Vec<u8>,
}

impl View for EnvVar {
    type V = (Seq<u8>, Seq<u8>);

    open spec fn view(&self) -> (Seq<u8>, Seq<u8>) {
        (self.name@, self.value@)
    }
}

/// One project-level environment entry, with its last edit time.
#[derive(Clone, Debug)]
pub struct EditedEnvVar {
    pub name: Vec<u8>,
    pub value: Vec<u8>,
    pub edited: i64,
}

impl View for EditedEnvVar {
    type V = (Seq<u8>, Seq<u8>, i64);

    open spec fn view(&self) -> (Seq<u8>, Seq<u8>, i64) {
        (self.name@, self.value@, self.edited)
    }
}

/// A fresh copy of a project-level environment snapshot.
pub fn copy_env(env: &Vec<EditedEnvVar>) -> (r: Vec<EditedEnvVar>)
    ensures
        r@.map_values(|e: EditedEnvVar| e@) == env@.map_values(|e: EditedEnvVar| e@),
{
    let mut env_copy: Vec<EditedEnvVar> = Vec::new();
    let mut i: usize = 0;
    while i < env.len()
        invariant
            i <= env@.len(),
            env_copy@.map_values(|e: EditedEnvVar| e@) =~= env@.map_values(
                |e: EditedEnvVar| e@,
            ).subrange(0, i as int),
        decreases env.len() - i,
    {
        proof {
            assert(env@.map_values(|e: EditedEnvVar| e@)[i as int] == env@[i as int]@);
        }
        let ghost prev = env_copy@.map_values(|e: EditedEnvVar| e@);
        env_copy.push(
            EditedEnvVar {
                name: crate::bytes::to_vec(env[i].name.as_slice()),
                value: crate::bytes::to_vec(env[i].value.as_slice()),
                edited: env[i].edited,
            },
        );
        proof {
            assert(env_copy@.map_values(|e: EditedEnvVar| e@) =~= prev.push(env@[i as int]@));
            assert(prev.push(env@[i as int]@) =~= env@.map_values(
                |e: EditedEnvVar| e@,
            ).subrange(0, i + 1));
        }
        i += 1;
    }
    proof {
        assert(env@.map_values(|e: EditedEnvVar| e@).subrange(
            0,
            env@.len() as int,
        ) =~= env@.map_values(|e: EditedEnvVar| e@));
    }
    env_copy
}

/// A fresh copy of a list of byte strings.
pub fn copy_byte_lists(v: &Vec<Vec<u8>>) -> (r: Vec<Vec<u8>>)
    ensures
        r@.map_values(|d: Vec<u8>| d@) == v@.map_values(|d: Vec<u8>| d@),
{
    let mut out: Vec<Vec<u8>> = Vec::new();
    let mut i: usize = 0;
    while i < v.len()
        invariant
            i <= v@.len(),
            out@.map_values(|d: Vec<u8>| d@) =~= v@.map_values(|d: Vec<u8>| d@).subrange(
                0,
                i as int,
            ),
        decreases v.len() - i,
    {
        proof {
            assert(v@.map_values(|d: Vec<u8>| d@)[i as int] == v@[i as int]@);
        }
        let ghost prev = out@.map_values(|d: Vec<u8>| d@);
        out.push(crate::bytes::to_vec(v[i].as_slice()));
        proof {
            assert(out@.map_values(|d: Vec<u8>| d@) =~= prev.push(v@[i as int]@));
            assert(prev.push(v@[i as int]@) =~= v@.map_values(|d: Vec<u8>| d@).subrange(
                0,
                i + 1,
            ));
        }
        i += 1;
    }
    proof {
        assert(v@.map_values(|d: Vec<u8>| d@).subrange(0, v@.len() as int) =~= v@.map_values(
            |d: Vec<u8>| d@,
        ));
    }
    out
}

/// A project row.
#[derive(Debug)]
pub struct Project {
    pub id: NanoId,
    pub name: Vec<u8>,
    pub repo_id: i64,
    pub created: i64,
    pub env: Vec<EditedEnvVar>,
    pub root: Vec<u8>,
    pub prod_id: Option<NanoId>,
    pub custom_domains: Vec<Vec<u8>>,
}

impl Clone for Project {
    fn clone(&self) -> (r: Self)
        ensures
            r@ == self@,
    {
        let r = Project {
            id: self.id.clone(),
            name: crate::bytes::to_vec(self.name.as_slice()),
            repo_id: self.repo_id,
            created: self.created,
            env: copy_env(&self.env),
            root: crate::bytes::to_vec(self.root.as_slice()),
            prod_id: match &self.prod_id {
                Some(p) => Some(p.clone()),
                None => None,
            },
            custom_domains: copy_byte_lists(&self.custom_domains),
        };
        r
    }
}

/// A deployment row: one commit of one project, with its frozen
/// configuration and environment snapshot.
#[derive(Clone, Debug)]
pub struct Deployment {
    pub id: NanoId,
    pub url_id: Vec<u8>,
    pub timestamp: i64,
    pub created: i64,
    pub sha: Vec<u8>,
    pub branch: Vec<u8>,
    pub default_branch: i64,
    pub result: Option<BuildResult>,
    pub build_started: Option<i64>,
    pub build_finished: Option<i64>,
    pub project: NanoId,
    pub config: DeploymentConfig,
    pub env: Vec<EnvVar>,
}

impl Deployment {
    /// Whether the row sits on the project's default branch.
    pub fn is_default_branch(&self) -> (r: bool)
        ensures
            r <==> self.default_branch != 0,
    {
        self.default_branch != 0
    }
}

/// A deployment row joined with the project it belongs to.
#[derive(Clone, Debug)]
pub struct DeploymentWithProject {
    pub deployment: Deployment,
    pub project: Project,
}

/// The bytes of `"https://"`.
pub open spec fn https_seq() -> Seq<u8> {
    seq![104u8, 116u8, 116u8, 112u8, 115u8, 58u8, 47u8, 47u8]
}

/// `"https://"` as a vector.
pub fn https_bytes() -> (r: Vec<u8>)
    ensures
        r@ == https_seq(),
{
    let r: Vec<u8> = vec![104u8, 116u8, 116u8, 112u8, 115u8, 58u8, 47u8, 47u8];
    proof {
        assert(r@ =~= https_seq());
    }
    r
}

/// Prefixes a hostname with the https scheme.
pub fn plus_https(host: &[u8]) -> (r: Vec<u8>)
    ensures
        r@ == https_seq() + host@,
{
    let mut out = https_bytes();
    push_all(&mut out, host);
    out
}

impl DeploymentWithProject {
    /// The deployment's own preview URL:
    /// `https://{project}--{slug}.{box_domain}`.
    pub fn get_app_base_url(&self, box_domain: &[u8]) -> (r: Vec<u8>)
        ensures
            r@ == https_seq() + format_hostname_spec(
                LabelSpec::Deployment {
                    project: self.project.name@,
                    deployment: self.deployment.url_id@,
                },
                box_domain@,
            ),
    {
        let label = Label::Deployment {
            project: crate::bytes::to_vec(self.project.name.as_slice()),
            deployment: crate::bytes::to_vec(self.deployment.url_id.as_slice()),
        };
        let host = label.format_hostname(box_domain);
        plus_https(host.as_slice())
    }

    /// The project's production URL: `https://{project}.{box_domain}`.
    pub fn get_prod_base_url(&self, box_domain: &[u8]) -> (r: Vec<u8>)
        ensures
            r@ == https_seq() + format_hostname_spec(
                LabelSpec::Prod { project: self.project.name@ },
                box_domain@,
            ),
    {
        let label = Label::Prod { project: crate::bytes::to_vec(self.project.name.as_slice()) };
        let host = label.format_hostname(box_domain);
        plus_https(host.as_slice())
    }

    /// The URL of the SQL database this deployment talks to: the project's
    /// production database on the default branch, the deployment's own
    /// branch database otherwise.
    pub fn get_libsql_url(&self, box_domain: &[u8]) -> (r: Vec<u8>)
        ensures
            self.deployment.default_branch == 1 ==> r@ == https_seq() + format_hostname_spec(
                LabelSpec::ProdDb { project: self.project.id@ },
                box_domain@,
            ),
            self.deployment.default_branch != 1 ==> r@ == https_seq() + format_hostname_spec(
                LabelSpec::BranchDb {
                    project: self.project.id@,
                    deployment: self.deployment.url_id@,
                },
                box_domain@,
            ),
    {
        let label = if self.deployment.default_branch == 1 {
            Label::ProdDb { project: self.project.id.to_vec() }
        } else {
            Label::BranchDb {
                project: self.project.id.to_vec(),
                deployment: crate::bytes::to_vec(self.deployment.url_id.as_slice()),
            }
        };
        let host = label.format_hostname(box_domain);
        plus_https(host.as_slice())
    }
}

/// The mathematical shape of a project row.
pub struct ProjectSpec {
    pub id: Seq<u8>,
    pub name: Seq<u8>,
    pub repo_id: i64,
    pub created: i64,
    pub env: Seq<(Seq<u8>, Seq<u8>, i64)>,
    pub root: Seq<u8>,
    pub prod_id: Option<Seq<u8>>,
    pub custom_domains: Seq<Seq<u8>>,
}

impl View for Project {
    type V = ProjectSpec;

    open spec fn view(&self) -> ProjectSpec {
        ProjectSpec {
            id: self.id@,
            name: self.name@,
            repo_id: self.repo_id,
            created: self.created,
            env: self.env@.map_values(|e: EditedEnvVar| e@),
            root: self.root@,
            prod_id: match &self.prod_id {
                Some(p) => Some(p@),
                None => None,
            },
            custom_domains: self.custom_domains@.map_values(|d: Vec<u8>| d@),
        }
    }
}

/// The mathematical shape of a deployment row.
pub struct DeploymentSpec {
    pub id: Seq<u8>,
    pub url_id: Seq<u8>,
    pub timestamp: i64,
    pub created: i64,
    pub sha: Seq<u8>,
    pub branch: Seq<u8>,
    pub default_branch: i64,
    pub result: Option<BuildResult>,
    pub build_started: Option<i64>,
    pub build_finished: Option<i64>,
    pub project: Seq<u8>,
    pub config: crate::config::ConfigSpec,
    pub env: Seq<(Seq<u8>, Seq<u8>)>,
}

impl View for Deployment {
    type V = DeploymentSpec;

    open spec fn view(&self) -> DeploymentSpec {
        DeploymentSpec {
            id: self.id@,
            url_id: self.url_id@,
            timestamp: self.timestamp,
            created: self.created,
            sha: self.sha@,
            branch: self.branch@,
            default_branch: self.default_branch,
            result: self.result,
            build_started: self.build_started,
            build_finished: self.build_finished,
            project: self.project@,
            config: self.config@,
            env: self.env@.map_values(|e: EnvVar| e@),
        }
    }
}

/// The mathematical shape of a joined row.
pub struct RowSpec {
    pub deployment: DeploymentSpec,
    pub project: ProjectSpec,
}

impl View for DeploymentWithProject {
    type V = RowSpec;

    open spec fn view(&self) -> RowSpec {
        RowSpec { deployment: self.deployment@, project: self.project@ }
    }
}

/// A deployment row to be inserted by the Git-sync worker or a redeploy.
#[derive(Clone, Debug)]
pub struct InsertDeployment {
    pub env: Vec<EditedEnvVar>,
    pub sha: Vec<u8>,
    pub timestamp: i64,
    pub branch: Vec<u8>,
    pub default_branch: i64,
    pub project: NanoId,
    pub result: Option<BuildResult>,
}

/// One line of a deployment's build log.
#[derive(Clone, Debug)]
pub struct BuildLog {
    pub id: i64,
    pub content: Vec<u8>,
    pub timestamp: i64,
    pub error: i64,
    pub deployment: NanoId,
}

} // verus!
