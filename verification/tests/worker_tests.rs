use prezel::certs::CertificateStore;
use prezel::config::DeploymentConfig;
use prezel::container::{BuildResult, ContainerStatus};
use prezel::ids::NanoId;
use prezel::map::DeploymentMap;
use prezel::records::{Deployment, DeploymentWithProject, EditedEnvVar, Project};
use prezel::workers::{
    container_gc_victims, files_gc_victims, plan_deployment_insert, ConfigFetch, DataDir,
    WorkerState,
};

fn b(s: &str) -> Vec<u8> {
    s.as_bytes().to_vec()
}

fn id(s: &str) -> NanoId {
    NanoId::from_bytes(s.as_bytes().to_vec()).unwrap()
}

#[test]
fn stray_containers_are_collected_from_an_empty_world_model() {
    let map = DeploymentMap::new(CertificateStore::new());
    let listed = prezel::docker::filter_managed_names(&vec![
        b("/prezel-a"),
        b("/prezel-b"),
        b("/unrelated"),
    ]);
    assert_eq!(listed, vec![b("prezel-a"), b("prezel-b")]);
    let victims = container_gc_victims(&listed, &map);
    assert_eq!(victims, vec![b("prezel-a"), b("prezel-b")]);
}

#[test]
fn referenced_containers_are_never_collected() {
    let mut map = DeploymentMap::new(CertificateStore::new());
    let rows = vec![DeploymentWithProject {
        deployment: Deployment {
            id: id("aaaaaaaaa1"),
            url_id: b("slugaaaaa1"),
            timestamp: 1,
            created: 1,
            sha: b("deadbeef"),
            branch: b("main"),
            default_branch: 1,
            result: Some(BuildResult::Built),
            build_started: None,
            build_finished: None,
            project: id("demo123456"),
            config: DeploymentConfig { visibility: None, build: None },
            env: vec![],
        },
        project: Project {
            id: id("demo123456"),
            name: b("demo"),
            repo_id: 42,
            created: 1,
            env: vec![],
            root: b("."),
            prod_id: None,
            custom_domains: vec![],
        },
    }];
    map.read_db_and_build_updates(&rows, 1);
    map.deployments[0].status = ContainerStatus::Ready {
        image: b("aaaaaaaaa1"),
        container: b("prezel-live"),
        ip: 1,
        db_container: Some(b("prezel-branchdb")),
    };
    let listed = vec![b("prezel-live"), b("prezel-branchdb"), b("prezel-stray")];
    let victims = container_gc_victims(&listed, &map);
    assert_eq!(victims, vec![b("prezel-stray")]);
}

#[test]
fn gone_branch_database_directories_are_collected() {
    let map = DeploymentMap::new(CertificateStore::new());
    let listed = vec![
        DataDir { project: b("demo123456"), slug: b("slugaaaaa1") },
    ];
    let victims = files_gc_victims(&listed, &map);
    assert_eq!(victims.len(), 1);
    assert_eq!(victims[0].project, b("demo123456"));
    assert_eq!(victims[0].slug, b("slugaaaaa1"));
}

#[test]
fn worker_counter_schedules_a_pass_per_trigger_batch() {
    let mut w = WorkerState::new();
    assert!(!w.should_run());
    w.trigger();
    w.trigger();
    assert!(w.should_run());
    let target = w.wait_target();
    w.begin_pass();
    // A trigger that lands mid-pass keeps the counter positive.
    w.trigger();
    w.finish_pass();
    assert!(w.should_run());
    assert!(w.wait_done(target));
    w.begin_pass();
    w.finish_pass();
    w.begin_pass();
    w.finish_pass();
    assert!(!w.should_run());
}

#[test]
fn git_sync_skips_known_shas_and_records_config_errors() {
    let env = vec![EditedEnvVar { name: b("KEY"), value: b("VAL"), edited: 5 }];
    let project = id("demo123456");
    // A sha already persisted for the project inserts nothing.
    assert!(plan_deployment_insert(
        true,
        &project,
        &env,
        b"deadbeef",
        7,
        b"main",
        true,
        ConfigFetch::Missing,
    )
        .is_none());
    // A fresh sha inserts with the env snapshot frozen in.
    let planned = plan_deployment_insert(
        false,
        &project,
        &env,
        b"deadbeef",
        7,
        b"main",
        true,
        ConfigFetch::Missing,
    )
        .unwrap();
    assert_eq!(planned.deployment.sha, b("deadbeef"));
    assert_eq!(planned.deployment.default_branch, 1);
    assert_eq!(planned.deployment.result, None);
    assert_eq!(planned.deployment.env.len(), 1);
    assert_eq!(planned.deployment.env[0].name, b("KEY"));
    assert!(planned.error_log.is_none());
    // A failed config fetch inserts the deployment as failed, with the
    // error as its first build log.
    let planned = plan_deployment_insert(
        false,
        &project,
        &env,
        b"cafebabe",
        9,
        b"feature",
        false,
        ConfigFetch::Error(b("boom")),
    )
        .unwrap();
    assert_eq!(planned.deployment.default_branch, 0);
    assert_eq!(planned.deployment.result, Some(BuildResult::Failed));
    assert_eq!(planned.error_log, Some(b("boom")));
}

#[test]
fn redeploy_plans_a_clone_with_result_unset_and_current_env() {
    let d = Deployment {
        id: id("aaaaaaaaa1"),
        url_id: b("slugaaaaa1"),
        timestamp: 7,
        created: 10,
        sha: b("deadbeef"),
        branch: b("main"),
        default_branch: 1,
        result: Some(BuildResult::Built),
        build_started: Some(11),
        build_finished: Some(12),
        project: id("demo123456"),
        config: DeploymentConfig { visibility: None, build: None },
        env: vec![],
    };
    let current_env = vec![EditedEnvVar { name: b("KEY"), value: b("new"), edited: 99 }];
    let insert = prezel::workers::plan_redeploy(&d, &current_env);
    assert_eq!(insert.sha, b("deadbeef"));
    assert_eq!(insert.branch, b("main"));
    assert_eq!(insert.default_branch, 1);
    assert_eq!(insert.timestamp, 7);
    // The clone is built anew, with the project's env of today.
    assert_eq!(insert.result, None);
    assert_eq!(insert.env.len(), 1);
    assert_eq!(insert.env[0].value, b("new"));
    assert_eq!(insert.project.as_bytes(), &b("demo123456"));
}
