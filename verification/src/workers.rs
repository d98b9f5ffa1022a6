//! The reconciliation workers: the one-shot-triggerable worker runtime,
//! the container and files garbage collectors' decisions, and the
//! Git-sync worker's insert planning.

use vstd::prelude::*;

use crate::bytes::bytes_eq_slice;
use crate::config::DeploymentConfig;
use crate::container::BuildResult;
use crate::ids::NanoId;
use crate::map::{deps_have_key, map_references_container, views_of, DeploymentMap};
use crate::records::{copy_env, EditedEnvVar, InsertDeployment};

verus! {

/// The worker runtime: a single background task with a counter of pending
/// triggers. A trigger received mid-pass schedules another pass, because
/// the counter is decremented only after a pass completes.
#[derive(Clone, Copy, Debug, PartialEq, Eq, Structural)]
pub struct WorkerState {
    /// Triggers not yet absorbed by a completed pass.
    pub pending: u64,
    /// Passes started.
    pub started: u64,
    /// Passes completed.
    pub completed: u64,
}

impl WorkerState {
    /// At most one pass runs at a time.
    pub open spec fn wf(&self) -> bool {
        self.completed <= self.started && self.started <= self.completed + 1
    }

    /// A pass is currently running.
    pub open spec fn running(&self) -> bool {
        self.started == self.completed + 1
    }

    pub fn new() -> (r: WorkerState)
        ensures
            r.pending == 0 && r.started == 0 && r.completed == 0,
            r.wf(),
    {
        WorkerState { pending: 0, started: 0, completed: 0 }
    }

    /// Fire-and-forget trigger; coalesces by counting.
    pub fn trigger(&mut self)
        requires
            old(self).pending < u64::MAX,
        ensures
            final(self).pending == old(self).pending + 1,
            final(self).started == old(self).started,
            final(self).completed == old(self).completed,
            old(self).wf() ==> final(self).wf(),
    {
        self.pending = self.pending + 1;
    }

    /// The worker loop runs a pass whenever triggers are pending.
    pub fn should_run(&self) -> (r: bool)
        ensures
            r <==> self.pending > 0,
    {
        self.pending > 0
    }

    /// A pass begins: only when triggers are pending and no pass runs.
    pub fn begin_pass(&mut self)
        requires
            old(self).wf(),
            old(self).pending > 0,
            !old(self).running(),
            old(self).started < u64::MAX,
        ensures
            final(self).wf(),
            final(self).running(),
            final(self).started == old(self).started + 1,
            final(self).completed == old(self).completed,
            final(self).pending == old(self).pending,
    {
        self.started = self.started + 1;
    }

    /// A pass completes: the trigger it absorbed is decremented only now,
    /// so a trigger that arrived mid-pass leaves the counter positive and
    /// schedules another pass.
    pub fn finish_pass(&mut self)
        requires
            old(self).wf(),
            old(self).running(),
            old(self).pending > 0,
        ensures
            final(self).wf(),
            !final(self).running(),
            final(self).completed == old(self).completed + 1,
            final(self).started == old(self).started,
            final(self).pending == old(self).pending - 1,
    {
        self.completed = self.completed + 1;
        self.pending = self.pending - 1;
    }

    /// The pass a `trigger_and_wait` caller must see completed: the next
    /// pass to start after the call, which is the first whose start
    /// observes the trigger.
    pub fn wait_target(&self) -> (r: u64)
        requires
            self.started < u64::MAX,
        ensures
            r == self.started + 1,
    {
        self.started + 1
    }

    /// Whether a waiter with the given target may return.
    pub fn wait_done(&self, target: u64) -> (r: bool)
        ensures
            r <==> self.completed >= target,
    {
        self.completed >= target
    }
}

/// Whether a list of byte strings holds `n`.
pub fn names_contain(v: &Vec<Vec<u8>>, n: &[u8]) -> (r: bool)
    ensures
        r <==> views_of(v@).contains(n@),
{
    let mut i: usize = 0;
    while i < v.len()
        invariant
            i <= v@.len(),
            forall|j: int| 0 <= j < i ==> views_of(v@)[j] != n@,
        decreases v.len() - i,
    {
        proof {
            assert(views_of(v@)[i as int] == v@[i as int]@);
        }
        if bytes_eq_slice(v[i].as_slice(), n) {
            proof {
                assert(views_of(v@)[i as int] == n@);
            }
            return true;
        }
        i += 1;
    }
    proof {
        if views_of(v@).contains(n@) {
            let j = choose|j: int| 0 <= j < views_of(v@).len() && views_of(v@)[j] == n@;
            assert(false);
        }
    }
    false
}

/// The container garbage collector's decision: of the listed managed
/// container names, exactly those the world model does not reference are
/// stopped and removed. A container whose name the current world model
/// references is never touched.
pub fn container_gc_victims(listed: &Vec<Vec<u8>>, map: &DeploymentMap) -> (r: Vec<Vec<u8>>)
    ensures
        forall|k: int|
            0 <= k < r@.len() ==> views_of(listed@).contains(#[trigger] views_of(r@)[k])
                && !map_references_container(map, views_of(r@)[k]),
        forall|k: int|
            0 <= k < listed@.len() && !map_references_container(
                map,
                #[trigger] views_of(listed@)[k],
            ) ==> views_of(r@).contains(views_of(listed@)[k]),
{
    let referenced = map.referenced_container_names();
    let mut out: Vec<Vec<u8>> = Vec::new();
    let mut i: usize = 0;
    while i < listed.len()
        invariant
            i <= listed@.len(),
            forall|n: Seq<u8>| #[trigger]
                views_of(referenced@).contains(n) <==> map_references_container(map, n),
            forall|k: int|
                0 <= k < out@.len() ==> views_of(listed@).contains(#[trigger] views_of(out@)[k])
                    && !map_references_container(map, views_of(out@)[k]),
            forall|k: int|
                0 <= k < i && !map_references_container(
                    map,
                    #[trigger] views_of(listed@)[k],
                ) ==> views_of(out@).contains(views_of(listed@)[k]),
        decreases listed.len() - i,
    {
        proof {
            assert(views_of(listed@)[i as int] == listed@[i as int]@);
        }
        let ghost prev = views_of(out@);
        if !names_contain(&referenced, listed[i].as_slice()) {
            out.push(crate::bytes::to_vec(listed[i].as_slice()));
            proof {
                assert(views_of(out@) =~= prev.push(listed@[i as int]@));
                crate::map::lemma_push_keeps_contains(prev, listed@[i as int]@);
            }
        }
        i += 1;
    }
    out
}

/// A branch-database data directory on disk, keyed by project id and
/// deployment slug.
#[derive(Debug)]
pub struct DataDir {
    pub project: Vec<u8>,
    pub slug: Vec<u8>,
}

impl View for DataDir {
    type V = (Seq<u8>, Seq<u8>);

    open spec fn view(&self) -> (Seq<u8>, Seq<u8>) {
        (self.project@, self.slug@)
    }
}

/// The views of a sequence of data directories.
pub open spec fn dirs_view(s: Seq<DataDir>) -> Seq<(Seq<u8>, Seq<u8>)> {
    s.map_values(|d: DataDir| d@)
}

/// The files garbage collector's decision: of the listed branch-database
/// directories, exactly those whose deployment is gone from the world
/// model are removed.
pub fn files_gc_victims(listed: &Vec<DataDir>, map: &DeploymentMap) -> (r: Vec<DataDir>)
    ensures
        forall|k: int|
            0 <= k < r@.len() ==> dirs_view(listed@).contains(
                #[trigger] dirs_view(r@)[k],
            ) && !deps_have_key(
                map.deps_view(),
                dirs_view(r@)[k].0,
                dirs_view(r@)[k].1,
            ),
        forall|k: int|
            0 <= k < listed@.len() && !deps_have_key(
                map.deps_view(),
                #[trigger] dirs_view(listed@)[k].0,
                dirs_view(listed@)[k].1,
            ) ==> dirs_view(r@).contains(dirs_view(listed@)[k]),
{
    let mut out: Vec<DataDir> = Vec::new();
    let mut i: usize = 0;
    while i < listed.len()
        invariant
            i <= listed@.len(),
            forall|k: int|
                0 <= k < out@.len() ==> dirs_view(listed@).contains(
                    #[trigger] dirs_view(out@)[k],
                ) && !deps_have_key(
                    map.deps_view(),
                    dirs_view(out@)[k].0,
                    dirs_view(out@)[k].1,
                ),
            forall|k: int|
                0 <= k < i && !deps_have_key(
                    map.deps_view(),
                    #[trigger] dirs_view(listed@)[k].0,
                    dirs_view(listed@)[k].1,
                ) ==> dirs_view(out@).contains(
                    dirs_view(listed@)[k],
                ),
        decreases listed.len() - i,
    {
        proof {
            assert(dirs_view(listed@)[i as int] == listed@[i as int]@);
        }
        let ghost prev = dirs_view(out@);
        let gone = match map.get_deployment_by_id(
            listed[i].project.as_slice(),
            listed[i].slug.as_slice(),
        ) {
            Some(_) => false,
            None => true,
        };
        if gone {
            out.push(
                DataDir {
                    project: crate::bytes::to_vec(listed[i].project.as_slice()),
                    slug: crate::bytes::to_vec(listed[i].slug.as_slice()),
                },
            );
            proof {
                let nv = dirs_view(out@);
                assert(nv =~= prev.push(listed@[i as int]@));
                assert forall|x: (Seq<u8>, Seq<u8>)| prev.contains(x) implies nv.contains(x) by {
                    let w = choose|w: int| 0 <= w < prev.len() && prev[w] == x;
                    assert(nv[w] == x);
                }
                assert(nv[nv.len() - 1] == listed@[i as int]@);
            }
        }
        i += 1;
    }
    out
}

/// What fetching the deployment config file from the repo yielded.
#[derive(Debug)]
pub enum ConfigFetch {
    /// The file was present and decoded.
    Found(DeploymentConfig),
    /// No config file at either path: defaults apply.
    Missing,
    /// The fetch or the decode failed, with the error text.
    Error(Vec<u8>),
}

/// A deployment insert the Git-sync worker decided on, with the config to
/// freeze and the failure log to write when the config fetch failed.
#[derive(Debug)]
pub struct PlannedInsert {
    pub deployment: InsertDeployment,
    pub config: DeploymentConfig,
    pub error_log: Option<Vec<u8>>,
}

/// Re-deploying a deployment inserts a clone of its row: same commit,
/// branch and timestamps, result unset so the clone is built anew, and
/// the project's current env snapshot frozen in. The frozen config is
/// cloned alongside by the caller, unchanged.
pub fn plan_redeploy(d: &crate::records::Deployment, project_env: &Vec<EditedEnvVar>) -> (r:
    InsertDeployment)
    ensures
        r.sha@ == d.sha@,
        r.branch@ == d.branch@,
        r.default_branch == d.default_branch,
        r.timestamp == d.timestamp,
        r.result is None,
        r.env@.map_values(|e: EditedEnvVar| e@) == project_env@.map_values(|e: EditedEnvVar| e@),
        r.project@ == d.project@,
{
    InsertDeployment {
        env: copy_env(project_env),
        sha: crate::bytes::to_vec(d.sha.as_slice()),
        timestamp: d.timestamp,
        branch: crate::bytes::to_vec(d.branch.as_slice()),
        default_branch: d.default_branch,
        project: d.project.clone(),
        result: None,
    }
}

/// The Git-sync worker's per-commit decision. A commit whose sha is
/// already persisted for the project is skipped. Otherwise a deployment
/// is inserted with the project's env snapshot frozen in; a failed config
/// fetch inserts it as failed, with the error as its first build log.
pub fn plan_deployment_insert(
    exists: bool,
    project: &NanoId,
    env: &Vec<EditedEnvVar>,
    sha: &[u8],
    timestamp: i64,
    branch: &[u8],
    default_branch: bool,
    config_fetch: ConfigFetch,
) -> (r: Option<PlannedInsert>)
    ensures
        exists ==> r is None,
        !exists ==> (r matches Some(p) && {
            &&& p.deployment.project@ == project@
            &&& p.deployment.sha@ == sha@
            &&& p.deployment.timestamp == timestamp
            &&& p.deployment.branch@ == branch@
            &&& p.deployment.default_branch == if default_branch {
                1int
            } else {
                0int
            }
            &&& p.deployment.env@.map_values(|e: EditedEnvVar| e@) == env@.map_values(
                |e: EditedEnvVar| e@,
            )
            &&& match config_fetch {
                ConfigFetch::Found(c) => p.config@ == c@ && p.deployment.result is None
                    && p.error_log is None,
                ConfigFetch::Missing => p.config@ == (crate::config::ConfigSpec {
                    visibility: None,
                    build: None,
                }) && p.deployment.result is None && p.error_log is None,
                ConfigFetch::Error(msg) => {
                    &&& p.config@ == (crate::config::ConfigSpec {
                        visibility: None,
                        build: None,
                    })
                    &&& p.deployment.result == Some(BuildResult::Failed)
                    &&& p.error_log matches Some(l) && l@ == msg@
                },
            }
        }),
{
    if exists {
        return None;
    }
    let (config, result, error_log): (DeploymentConfig, Option<BuildResult>, Option<Vec<u8>>) =
        match config_fetch {
        ConfigFetch::Found(c) => (c, None, None),
        ConfigFetch::Missing => (
            DeploymentConfig { visibility: None, build: None },
            None,
            None,
        ),
        ConfigFetch::Error(msg) => (
            DeploymentConfig { visibility: None, build: None },
            Some(BuildResult::Failed),
            Some(msg),
        ),
    };
    let env_copy = copy_env(env);
    let deployment = InsertDeployment {
        env: env_copy,
        sha: crate::bytes::to_vec(sha),
        timestamp,
        branch: crate::bytes::to_vec(branch),
        default_branch: if default_branch {
            1
        } else {
            0
        },
        project: project.clone(),
        result,
    };
    Some(PlannedInsert { deployment, config, error_log })
}

} // verus!
