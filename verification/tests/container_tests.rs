use prezel::container::{BuildResult, ContainerStatus, WakeAction};

fn b(s: &str) -> Vec<u8> {
    s.as_bytes().to_vec()
}

#[test]
fn queued_wakes_into_a_single_build() {
    let s = ContainerStatus::Queued { trigger_access: None };
    let (s1, a1) = s.enqueue_step();
    assert_eq!(s1, ContainerStatus::Building);
    assert_eq!(a1, WakeAction::StartBuild { trigger_access: None });
    // A second caller arriving during the build only waits.
    let (s2, a2) = s1.enqueue_step();
    assert_eq!(s2, ContainerStatus::Building);
    assert_eq!(a2, WakeAction::Wait);
}

#[test]
fn built_db_container_starts_once_for_concurrent_requests() {
    // The production database container sits built but stopped; the
    // first request starts it, the second piggy-backs on the attempt.
    let s = ContainerStatus::Built { image: b("sqld:0.24.28") };
    let (s1, a1) = s.enqueue_step();
    assert_eq!(
        a1,
        WakeAction::StartContainer { image: b("sqld:0.24.28"), container: None }
    );
    let (s2, a2) = s1.clone().enqueue_step();
    assert_eq!(a2, WakeAction::Wait);
    assert_eq!(s2, s1);
    // The start completes; the container serves and later callers are
    // proxied straight through.
    let ready = s2.on_container_started(b("prezel-db"), 167772161, None);
    let (_, a3) = ready.enqueue_step();
    assert_eq!(a3, WakeAction::AlreadyReady { ip: 167772161 });
}

#[test]
fn build_outcomes_and_start_failures() {
    let building = ContainerStatus::Building;
    let built = building.on_build_success(b("img"));
    assert_eq!(built, ContainerStatus::Built { image: b("img") });
    assert_eq!(ContainerStatus::Building.on_build_failure(), ContainerStatus::Failed);

    // A transient start failure returns to the previous non-ready state.
    let (starting, _) = ContainerStatus::Built { image: b("img") }.enqueue_step();
    assert_eq!(
        starting.on_start_failure(),
        ContainerStatus::Built { image: b("img") }
    );
    let (starting, _) = ContainerStatus::StandBy {
        image: b("img"),
        container: b("c1"),
        db_container: None,
    }
        .enqueue_step();
    assert_eq!(
        starting.on_start_failure(),
        ContainerStatus::StandBy { image: b("img"), container: b("c1"), db_container: None }
    );
}

#[test]
fn failed_deployments_report_and_stay_failed() {
    let (s1, a1) = ContainerStatus::Failed.enqueue_step();
    assert_eq!(s1, ContainerStatus::Failed);
    assert_eq!(a1, WakeAction::ReportFailed);
}

#[test]
fn downgrade_stops_only_idle_non_production_containers() {
    let ready = ContainerStatus::Ready {
        image: b("img"),
        container: b("c1"),
        ip: 9,
        db_container: Some(b("db1")),
    };
    assert_eq!(
        ready.clone().downgrade_if_unused(false, true),
        ContainerStatus::StandBy {
            image: b("img"),
            container: b("c1"),
            db_container: Some(b("db1")),
        }
    );
    assert_eq!(ready.clone().downgrade_if_unused(true, true), ready);
    assert_eq!(ready.clone().downgrade_if_unused(false, false), ready);
    let built = ContainerStatus::Built { image: b("img") };
    assert_eq!(built.clone().downgrade_if_unused(false, true), built);
}

#[test]
fn initial_state_resumes_from_the_persisted_result() {
    assert_eq!(
        ContainerStatus::initial(Some(BuildResult::Built), b("img")),
        ContainerStatus::Built { image: b("img") }
    );
    assert_eq!(
        ContainerStatus::initial(Some(BuildResult::Failed), b("img")),
        ContainerStatus::Failed
    );
    assert_eq!(
        ContainerStatus::initial(None, b("img")),
        ContainerStatus::Queued { trigger_access: None }
    );
}
