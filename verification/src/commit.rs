//! The commit-backed app container: the frozen inputs of its build, the
//! environment overlay it runs with, and the build recipe decision.

use vstd::prelude::*;

use crate::config::{Build, DeploymentConfig, Visibility};
use crate::container::BuildResult;
use crate::env::{default_env, default_env_spec, env_view, merge_env, merge_env_spec};
use crate::ids::NanoId;
use crate::records::EnvVar;

verus! {

/// Whether a deployment's app answers without a bearer token: public
/// ones always, standard ones only on the default branch, private ones
/// never.
pub fn is_public(visibility: Visibility, default_branch: bool) -> (r: bool)
    ensures
        match visibility {
            Visibility::Standard => r == default_branch,
            Visibility::Public => r,
            Visibility::Private => !r,
        },
{
    match visibility {
        Visibility::Standard => default_branch,
        Visibility::Public => true,
        Visibility::Private => false,
    }
}

/// The recipe a build proceeds with once the commit tree is on disk.
#[derive(Clone, Debug, PartialEq)]
pub enum BuildRecipe {
    /// Build from this Dockerfile path inside the root.
    Dockerfile { path: Vec<u8> },
    /// Synthesize a Dockerfile at the default path first, then build it.
    Nixpacks,
}

/// Decides the build recipe: a pinned Dockerfile path wins; a pinned
/// Nixpacks backend, or a missing Dockerfile at the default path, runs
/// the generator; otherwise the Dockerfile already there is used.
pub fn choose_build_recipe(config: &DeploymentConfig, default_dockerfile_present: bool) -> (r:
    BuildRecipe)
    ensures
        match config.build {
            Some(Build::Dockerfile { path: Some(p) }) => r matches BuildRecipe::Dockerfile {
                path: q } && q@ == p@,
            Some(Build::Dockerfile { path: None }) => r matches BuildRecipe::Dockerfile { path: q }
                && q@ == crate::config::default_dockerfile_seq(),
            Some(Build::Nixpacks { .. }) => r is Nixpacks,
            None => if default_dockerfile_present {
                r matches BuildRecipe::Dockerfile { path: q } && q@
                    == crate::config::default_dockerfile_seq()
            } else {
                r is Nixpacks
            },
        },
{
    match config.get_forced_dockerfile() {
        Some(path) => BuildRecipe::Dockerfile { path },
        None => {
            if config.is_forced_nixpacks() || !default_dockerfile_present {
                BuildRecipe::Nixpacks
            } else {
                BuildRecipe::Dockerfile { path: crate::config::default_dockerfile_path() }
            }
        },
    }
}

/// The frozen inputs of one commit-backed app container.
#[derive(Debug)]
pub struct CommitContainer {
    /// The upstream repository the commit lives in.
    pub repo_id: i64,
    /// The commit to build.
    pub sha: Vec<u8>,
    /// The deployment this container belongs to; also its image name.
    pub deployment: NanoId,
    /// The merged environment: the reserved overlay, then the frozen
    /// user snapshot.
    pub env: Vec<EnvVar>,
    /// The root path inside the repository.
    pub root: Vec<u8>,
    /// Whether this is a branch deployment with its own database fork.
    pub branch_db: bool,
    /// Whether the proxy serves it without a bearer token.
    pub public: bool,
    /// The frozen deployment configuration.
    pub config: DeploymentConfig,
    /// The persisted build result it resumes from.
    pub result: Option<BuildResult>,
}

impl CommitContainer {
    /// Assembles the container for one deployment row: the environment
    /// is the reserved overlay over the database URL and token, merged
    /// reserved-wins with the frozen user snapshot.
    pub fn new(
        repo_id: i64,
        sha: Vec<u8>,
        deployment: &NanoId,
        user_env: &Vec<EnvVar>,
        root: Vec<u8>,
        branch: bool,
        public: bool,
        db_url: &[u8],
        token: &[u8],
        config: DeploymentConfig,
        result: Option<BuildResult>,
    ) -> (r: CommitContainer)
        ensures
            r.repo_id == repo_id,
            r.sha@ == sha@,
            r.deployment@ == deployment@,
            env_view(r.env@) == merge_env_spec(
                default_env_spec(db_url@, token@),
                env_view(user_env@),
            ),
            r.root@ == root@,
            r.branch_db == branch,
            r.public == public,
            r.config@ == config@,
            r.result == result,
    {
        let reserved = default_env(db_url, token);
        let env = merge_env(&reserved, user_env);
        CommitContainer {
            repo_id,
            sha,
            deployment: deployment.clone(),
            env,
            root,
            branch_db: branch,
            public,
            config,
            result,
        }
    }
}

} // verus!
