use prezel::certs::CertificateStore;
use prezel::config::DeploymentConfig;
use prezel::container::{BuildResult, ContainerStatus};
use prezel::ids::NanoId;
use prezel::map::{DeploymentMap, RoutedTarget};
use prezel::records::{Deployment, DeploymentWithProject, Project};

fn b(s: &str) -> Vec<u8> {
    s.as_bytes().to_vec()
}

fn id(s: &str) -> NanoId {
    NanoId::from_bytes(s.as_bytes().to_vec()).unwrap()
}

fn demo_project() -> Project {
    Project {
        id: id("demo123456"),
        name: b("demo"),
        repo_id: 42,
        created: 1,
        env: vec![],
        root: b("."),
        prod_id: None,
        custom_domains: vec![],
    }
}

fn row(
    dep_id: &str,
    slug: &str,
    sha: &str,
    branch: &str,
    default_branch: i64,
    created: i64,
    result: Option<BuildResult>,
) -> DeploymentWithProject {
    DeploymentWithProject {
        deployment: Deployment {
            id: id(dep_id),
            url_id: b(slug),
            timestamp: created,
            created,
            sha: b(sha),
            branch: b(branch),
            default_branch,
            result,
            build_started: None,
            build_finished: None,
            project: id("demo123456"),
            config: DeploymentConfig { visibility: None, build: None },
            env: vec![],
        },
        project: demo_project(),
    }
}

fn empty_map() -> DeploymentMap {
    DeploymentMap::new(CertificateStore::new())
}

#[test]
fn empty_persistence_leaves_the_world_model_empty() {
    let mut map = empty_map();
    let rows: Vec<DeploymentWithProject> = vec![];
    let actions = map.read_db_and_build_updates(&rows, 0);
    assert!(actions.is_empty());
    assert!(map.deployments.is_empty());
    assert!(map.prod.is_empty());
    assert!(map.names.is_empty());
    assert!(map.custom_domains.is_empty());
    assert!(map.dbs.is_empty());
}

#[test]
fn first_sync_inserts_a_queued_deployment_and_selects_it_after_build() {
    let mut map = empty_map();
    let rows = vec![row("aaaaaaaaa1", "slugaaaaa1", "deadbeef", "main", 1, 10, None)];
    let actions = map.read_db_and_build_updates(&rows, 10);
    assert!(actions.is_empty());
    assert_eq!(map.deployments.len(), 1);
    assert_eq!(
        map.deployments[0].status,
        ContainerStatus::Queued { trigger_access: None }
    );
    // A production database is materialized for the project.
    assert_eq!(map.dbs.len(), 1);
    // With nothing built yet, the latest default-branch deployment is
    // selected.
    assert_eq!(map.get_prod_slug(b"demo123456").unwrap(), &b("slugaaaaa1"));

    // The build worker finishes; the next pass keeps the selection and
    // wakes the production deployment.
    map.on_build_outcome(b"demo123456", b"slugaaaaa1", BuildResult::Built, b("aaaaaaaaa1"));
    assert_eq!(map.deployments[0].result, Some(BuildResult::Built));
    let actions = map.read_db_and_build_updates(&rows, 11);
    assert_eq!(actions.len(), 1);
    assert!(matches!(map.deployments[0].status, ContainerStatus::Starting { .. }));
    assert_eq!(map.get_prod_slug(b"demo123456").unwrap(), &b("slugaaaaa1"));
}

#[test]
fn branch_deployment_resolves_by_name_and_slug() {
    let mut map = empty_map();
    let rows = vec![
        row("aaaaaaaaa1", "slugaaaaa1", "deadbeef", "main", 1, 10, Some(BuildResult::Built)),
        row("bbbbbbbbb2", "slugbbbbb2", "cafebabe", "feature", 0, 20, None),
    ];
    map.read_db_and_build_updates(&rows, 20);
    assert_eq!(map.deployments.len(), 2);
    // The branch deployment never wins production selection.
    assert_eq!(map.get_prod_slug(b"demo123456").unwrap(), &b("slugaaaaa1"));
    // Its URL resolves through the label router.
    let target = map
        .get_container_by_hostname(b"demo--slugbbbbb2.box", b"box")
        .unwrap();
    assert_eq!(
        target.0,
        RoutedTarget::App { project: b("demo123456"), url_id: b("slugbbbbb2") }
    );
    assert!(!target.1);
    // The insert form of the hostname enables writes.
    let target = map
        .get_container_by_hostname(b"demo--slugbbbbb2-insert.box", b"box")
        .unwrap();
    assert!(target.1);
    // The production database resolves by project id.
    let target = map
        .get_container_by_hostname(b"demo123456--libsql.box", b"box")
        .unwrap();
    assert_eq!(target.0, RoutedTarget::ProdDb { project: b("demo123456") });
}

#[test]
fn redeploy_wins_selection_once_built_and_old_prod_is_demoted() {
    let mut map = empty_map();
    let rows = vec![
        row("aaaaaaaaa1", "slugaaaaa1", "deadbeef", "main", 1, 10, Some(BuildResult::Built)),
        row("ccccccccc3", "slugccccc3", "deadbeef", "main", 1, 30, None),
    ];
    map.read_db_and_build_updates(&rows, 30);
    // The clone starts with result unset; the built one stays selected.
    assert_eq!(map.get_prod_slug(b"demo123456").unwrap(), &b("slugaaaaa1"));

    // Make the old production container run, then let the clone finish
    // its build: the clone wins the selection and the old container is
    // demoted to stand-by within one reconciliation pass.
    map.deployments[0].status = ContainerStatus::Ready {
        image: b("aaaaaaaaa1"),
        container: b("prezel-old"),
        ip: 7,
        db_container: None,
    };
    map.on_build_outcome(b"demo123456", b"slugccccc3", BuildResult::Built, b("ccccccccc3"));
    map.read_db_and_build_updates(&rows, 1_000_000);
    assert_eq!(map.get_prod_slug(b"demo123456").unwrap(), &b("slugccccc3"));
    assert_eq!(
        map.deployments[0].status,
        ContainerStatus::StandBy {
            image: b("aaaaaaaaa1"),
            container: b("prezel-old"),
            db_container: None,
        }
    );
}

#[test]
fn deleted_deployment_vanishes_and_selection_recomputes() {
    let mut map = empty_map();
    let rows = vec![
        row("aaaaaaaaa1", "slugaaaaa1", "deadbeef", "main", 1, 10, Some(BuildResult::Built)),
    ];
    map.read_db_and_build_updates(&rows, 10);
    assert!(map.get_deployment_by_id(b"demo123456", b"slugaaaaa1").is_some());

    // The row is soft-deleted: the next snapshot no longer carries it.
    let rows: Vec<DeploymentWithProject> = vec![];
    map.read_db_and_build_updates(&rows, 11);
    assert!(map.get_deployment_by_id(b"demo123456", b"slugaaaaa1").is_none());
    assert!(map.get_prod_slug(b"demo123456").is_none());
    assert!(map.deployments.is_empty());
}

#[test]
fn selection_prefers_latest_built_and_breaks_ties_by_id() {
    let mut map = empty_map();
    let rows = vec![
        row("aaaaaaaaa1", "sluga", "s1", "main", 1, 10, Some(BuildResult::Built)),
        row("bbbbbbbbb2", "slugb", "s2", "main", 1, 30, Some(BuildResult::Failed)),
        row("ccccccccc3", "slugc", "s3", "main", 1, 20, Some(BuildResult::Built)),
    ];
    map.read_db_and_build_updates(&rows, 30);
    // The failed row is newest but never selected; the latest built wins.
    assert_eq!(map.get_prod_slug(b"demo123456").unwrap(), &b("slugc"));

    // A creation-time tie goes to the lexicographically greater id.
    let mut map = empty_map();
    let rows = vec![
        row("aaaaaaaaa1", "sluga", "s1", "main", 1, 10, Some(BuildResult::Built)),
        row("ccccccccc3", "slugc", "s3", "main", 1, 10, Some(BuildResult::Built)),
    ];
    map.read_db_and_build_updates(&rows, 10);
    assert_eq!(map.get_prod_slug(b"demo123456").unwrap(), &b("slugc"));
}

#[test]
fn rebuild_is_idempotent_on_an_unchanged_snapshot() {
    let mut map = empty_map();
    let rows = vec![
        row("aaaaaaaaa1", "slugaaaaa1", "deadbeef", "main", 1, 10, Some(BuildResult::Built)),
        row("bbbbbbbbb2", "slugbbbbb2", "cafebabe", "feature", 0, 20, None),
    ];
    map.read_db_and_build_updates(&rows, 20);
    let deployments: Vec<_> =
        map.deployments.iter().map(|h| (h.url_id.clone(), h.status.clone())).collect();
    let prod: Vec<_> = map.prod.iter().map(|p| p.url_id.clone()).collect();
    map.read_db_and_build_updates(&rows, 20);
    let deployments2: Vec<_> =
        map.deployments.iter().map(|h| (h.url_id.clone(), h.status.clone())).collect();
    let prod2: Vec<_> = map.prod.iter().map(|p| p.url_id.clone()).collect();
    assert_eq!(deployments, deployments2);
    assert_eq!(prod, prod2);
}

#[test]
fn custom_domains_are_indexed_and_get_pending_certificates() {
    let mut map = empty_map();
    let mut project = demo_project();
    project.custom_domains = vec![b("www.example.org")];
    let mut r = row("aaaaaaaaa1", "slugaaaaa1", "deadbeef", "main", 1, 10, Some(BuildResult::Built));
    r.project = project;
    let rows = vec![r];
    map.read_db_and_build_updates(&rows, 10);
    assert_eq!(map.custom_domains.len(), 1);
    assert!(map.certificates.has_domain(b"www.example.org"));
    // A custom-domain request routes to the project's production app.
    let target = map
        .get_container_by_hostname(b"www.example.org", b"box")
        .unwrap();
    assert_eq!(
        target.0,
        RoutedTarget::App { project: b("demo123456"), url_id: b("slugaaaaa1") }
    );
}

#[test]
fn snapshot_join_drops_orphans_and_duplicate_keys() {
    let deployments = vec![
        row("aaaaaaaaa1", "slugaaaaa1", "s1", "main", 1, 10, None).deployment,
        // Same (project, slug) key: only the first row is kept.
        row("bbbbbbbbb2", "slugaaaaa1", "s2", "main", 1, 20, None).deployment,
        // An orphan: no project row carries its project id.
        {
            let mut d = row("ccccccccc3", "slugccccc3", "s3", "main", 1, 30, None).deployment;
            d.project = id("orphan7890");
            d
        },
    ];
    let projects = vec![demo_project()];
    let rows = prezel::map::join_rows(deployments, &projects);
    assert_eq!(rows.len(), 1);
    assert_eq!(rows[0].deployment.id.as_bytes(), &b("aaaaaaaaa1"));
    assert_eq!(rows[0].deployment.url_id, b("slugaaaaa1"));
    assert_eq!(rows[0].project.name, b("demo"));
}
