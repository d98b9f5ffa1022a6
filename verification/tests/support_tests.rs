use prezel::certs::{is_expiring_soon, CertificateStore, TlsState};
use prezel::commit::{is_public, CommitContainer};
use prezel::config::{DeploymentConfig, Visibility};
use prezel::records::{Deployment, DeploymentWithProject, Project};
use prezel::conf::Conf;
use prezel::docker::{build_event_lines, parse_message, BuildVertex, ImageName};
use prezel::env::{default_env, merge_env};
use prezel::nixpacks::{
    get_node_version, get_providers, validate_build_plan, AstroProvider, PlanError, ProviderKind,
};
use prezel::paths::HostFile;
use prezel::records::EnvVar;
use prezel::tokens::is_token_too_old;

fn b(s: &str) -> Vec<u8> {
    s.as_bytes().to_vec()
}

#[test]
fn conf_decodes_the_shared_secret() {
    let conf = Conf::from_parts(b("box.example"), b("github"), b("aGVsbG8=")).unwrap();
    assert_eq!(conf.secret, b("hello"));
    assert_eq!(conf.encoded_secret, b("aGVsbG8="));
    assert_eq!(conf.api_hostname(), b("--api--.box.example"));
    assert_eq!(conf.wildcard_domain(), b("*.box.example"));
    assert!(Conf::from_parts(b("box.example"), b("github"), b("!!!not-base64")).is_err());
}

#[test]
fn reserved_env_wins_over_the_user_snapshot() {
    let reserved = default_env(b"https://db.example", b"tok");
    let user = vec![
        EnvVar { name: b("PORT"), value: b("3000") },
        EnvVar { name: b("MY_VAR"), value: b("x") },
    ];
    let merged = merge_env(&reserved, &user);
    // All eight reserved entries first, then the one non-reserved user
    // entry; the user's PORT never makes it in.
    assert_eq!(merged.len(), 9);
    assert_eq!(merged[7].name, b("PORT"));
    assert_eq!(merged[7].value, b("80"));
    assert_eq!(merged[8].name, b("MY_VAR"));
    assert_eq!(merged[0].name, b("PREZEL_DB_URL"));
    assert_eq!(merged[0].value, b("https://db.example"));
}

#[test]
fn node_version_precedence_and_default() {
    assert_eq!(get_node_version(&None, &None, &None), b("18"));
    assert_eq!(get_node_version(&Some(b("*")), &None, &None), b("18"));
    assert_eq!(get_node_version(&Some(b("20")), &None, &None), b("20"));
    assert_eq!(get_node_version(&None, &Some(b("19")), &None), b("19"));
    assert_eq!(get_node_version(&None, &None, &Some(b(" v16.1\n"))), b("16.1"));
    // The environment wins over the manifest and the version file.
    assert_eq!(
        get_node_version(&Some(b("20")), &Some(b("19")), &Some(b("v16"))),
        b("20")
    );
}

#[test]
fn provider_roster_is_fixed_and_astro_detects_its_config() {
    let providers = get_providers();
    assert_eq!(providers.len(), 23);
    assert_eq!(providers[0], ProviderKind::Astro);
    assert_eq!(providers[16], ProviderKind::Node);
    assert_eq!(providers[22], ProviderKind::Cobol);
    let astro = AstroProvider;
    assert_eq!(astro.name(), b("astro"));
    assert!(astro.detect(true));
    assert!(!astro.detect(false));
    assert!(astro.get_build_plan(true).is_none());
    let phase = astro.get_build_plan(false).unwrap();
    assert!(phase.run_image.starts_with(b"httpd:2.4.63-alpine"));
    assert_eq!(phase.file_deps, vec![b("./dist")]);
    assert_eq!(prezel::nixpacks::get_server_command(&vec![]), None);
}

#[test]
fn certificates_renew_inside_the_fifteen_day_window() {
    // Exactly fifteen days left: not yet due. One second less: due.
    assert!(!is_expiring_soon(1_296_000, 0));
    assert!(is_expiring_soon(1_295_999, 0));

    let mut store = CertificateStore::new();
    store.insert_domain(b("a.example"));
    store.insert_domain(b("a.example"));
    store.insert_domain(b("b.example"));
    assert_eq!(store.entries.len(), 2);
    store.set_state(
        b"a.example",
        TlsState::Ready { cert_path: b("c"), key_path: b("k"), not_after: 2_000_000 },
    );
    // Pending entries are never due; the ready one is due once inside
    // the window.
    assert_eq!(store.renewal_due(0), Vec::<Vec<u8>>::new());
    assert_eq!(store.renewal_due(1_000_000), vec![b("a.example")]);
    // The proxy only serves ready certificates for SNI.
    assert!(store.get_for_sni(b"a.example").is_some());
    assert!(store.get_for_sni(b"b.example").is_none());
    assert!(store.get_for_sni(b"c.example").is_none());
}

#[test]
fn repository_tokens_age_out_after_thirty_minutes() {
    assert!(!is_token_too_old(0, 1_800_000));
    assert!(is_token_too_old(0, 1_800_001));
}

#[test]
fn managed_names_and_paths_are_assembled_exactly() {
    let image = ImageName::new(b("aaaaaaaaa1"));
    assert_eq!(image.to_docker_name(), b("prezel-aaaaaaaaa1"));

    let name = prezel::docker::generate_managed_container_name();
    assert_eq!(name.len(), 28);
    assert!(name.starts_with(b"prezel-"));

    assert_eq!(prezel::paths::get_container_root(), b("/opt/prezel"));
    assert_eq!(prezel::paths::get_instance_db_path(), b("/opt/prezel/app.db"));
    assert_eq!(prezel::paths::get_instance_log_dir(), b("/opt/prezel/log"));
    let file = HostFile::new(b("dbs/demo123456"), b("data.db"));
    assert_eq!(file.get_host_folder(b"/home/user/prezel"), b("/home/user/prezel/dbs/demo123456"));
    assert_eq!(file.get_container_file(), b("/opt/prezel/dbs/demo123456/data.db"));
    let branch = prezel::paths::get_branch_db_file(b"demo123456", b"slugaaaaa1");
    assert_eq!(
        branch.get_container_file(),
        b("/opt/prezel/dbs/demo123456/slugaaaaa1/data.db")
    );
}

#[test]
fn random_ids_fit_the_alphabet() {
    let id = prezel::ids::NanoId::random();
    let bytes = id.to_vec();
    assert_eq!(bytes.len(), 10);
    for byte in &bytes {
        assert!(byte.is_ascii_lowercase() || byte.is_ascii_digit());
    }
    let slug = prezel::ids::create_deployment_url_id();
    assert_eq!(slug.len(), 10);
    for byte in &slug {
        assert!(byte.is_ascii_lowercase() || byte.is_ascii_digit());
    }
    // Two draws almost surely differ; equal draws would mean the source
    // ignores its randomness.
    assert_ne!(prezel::ids::create_deployment_url_id(), slug);
}

#[test]
fn sqld_container_lays_out_the_data_file() {
    let db = prezel::sqld::SqldContainer::new(b"/opt/prezel/dbs/demo123456/data.db");
    assert_eq!(db.image, b("sqld:0.24.28"));
    assert_eq!(
        db.command,
        b("mkdir -p /tmp/db/dbs && printf 0.24.28 > /tmp/db/.version && ln -s /opt/prezel/dbs/demo123456/data.db /tmp/db/data && ln -s /tmp/db /tmp/db/dbs/default && /usr/local/bin/docker-wrapper.sh /bin/sqld")
    );
    assert_eq!(db.env.len(), 2);
    assert_eq!(db.env[0].0, b("SQLD_HTTP_LISTEN_ADDR"));
    assert_eq!(db.env[0].1, b("127.0.0.1:80"));
}

#[test]
fn execution_log_lines_parse_through_the_timestamp() {
    let parsed = parse_message(b"2024-01-01T00:00:00Z hello world").unwrap();
    assert_eq!(parsed.0, 1_704_067_200_000);
    assert_eq!(parsed.1, b("hello world"));
    assert!(parse_message(b"no-space-here").is_none());
    assert!(parse_message(b"not-a-time rest").is_none());
    let log = prezel::docker::to_docker_log(b"2024-01-01T00:00:00Z oops", true).unwrap();
    assert_eq!(log.time, 1_704_067_200_000);
    assert_eq!(log.message, b("oops"));
    assert!(log.is_error);
}

#[test]
fn build_plans_without_phases_or_start_are_rejected() {
    assert_eq!(validate_build_plan(0, false), Err(PlanError::NoPlan));
    assert_eq!(validate_build_plan(0, true), Err(PlanError::NoPlan));
    assert_eq!(validate_build_plan(3, false), Err(PlanError::NoStartCommand));
    assert_eq!(validate_build_plan(3, true), Ok(()));
}

#[test]
fn build_events_map_to_log_lines() {
    let logs = vec![b("step one")];
    let vertexes = vec![
        BuildVertex { name: b("[2/4] RUN make"), completed: true, cached: true, error: b("") },
        BuildVertex { name: b("[3/4] RUN test"), completed: true, cached: false, error: b("") },
        BuildVertex { name: b("[4/4]"), completed: false, cached: false, error: b("exit 1") },
    ];
    let lines = build_event_lines(&logs, &vertexes);
    assert_eq!(lines.len(), 4);
    assert_eq!(lines[0].content, b("step one"));
    assert!(!lines[0].is_error);
    assert_eq!(lines[1].content, b("CACHED [2/4] RUN make"));
    assert_eq!(lines[2].content, b("[3/4] RUN test"));
    assert_eq!(lines[3].content, b("exit 1"));
    assert!(lines[3].is_error);
}

#[test]
fn commit_container_freezes_its_inputs() {
    assert!(is_public(Visibility::Public, false));
    assert!(!is_public(Visibility::Private, true));
    assert!(is_public(Visibility::Standard, true));
    assert!(!is_public(Visibility::Standard, false));

    let dep = prezel::ids::NanoId::from_bytes(b("aaaaaaaaa1")).unwrap();
    let user_env = vec![EnvVar { name: b("MY_VAR"), value: b("1") }];
    let c = CommitContainer::new(
        42,
        b("deadbeef"),
        &dep,
        &user_env,
        b("."),
        true,
        false,
        b"https://demo123456--libsql.box",
        b"tok",
        DeploymentConfig { visibility: None, build: None },
        None,
    );
    assert!(c.branch_db);
    assert_eq!(c.env.len(), 9);
    assert_eq!(c.env[0].name, b("PREZEL_DB_URL"));
    assert_eq!(c.env[8].name, b("MY_VAR"));
}

#[test]
fn deployment_urls_follow_the_label_grammar() {
    let row = DeploymentWithProject {
        deployment: Deployment {
            id: prezel::ids::NanoId::from_bytes(b("aaaaaaaaa1")).unwrap(),
            url_id: b("slugaaaaa1"),
            timestamp: 1,
            created: 1,
            sha: b("deadbeef"),
            branch: b("main"),
            default_branch: 1,
            result: None,
            build_started: None,
            build_finished: None,
            project: prezel::ids::NanoId::from_bytes(b("demo123456")).unwrap(),
            config: DeploymentConfig { visibility: None, build: None },
            env: vec![],
        },
        project: Project {
            id: prezel::ids::NanoId::from_bytes(b("demo123456")).unwrap(),
            name: b("demo"),
            repo_id: 42,
            created: 1,
            env: vec![],
            root: b("."),
            prod_id: None,
            custom_domains: vec![],
        },
    };
    assert!(row.deployment.is_default_branch());
    assert_eq!(row.get_app_base_url(b"box"), b("https://demo--slugaaaaa1.box"));
    assert_eq!(row.get_prod_base_url(b"box"), b("https://demo.box"));
    assert_eq!(row.get_libsql_url(b"box"), b("https://demo123456--libsql.box"));
    let mut branch_row = row;
    branch_row.deployment.default_branch = 0;
    assert_eq!(
        branch_row.get_libsql_url(b"box"),
        b("https://demo123456--slugaaaaa1-libsql.box")
    );
}
