//! The per-deployment container state machine: queued, building, built,
//! starting, stand-by, ready, failed — with demand-driven wake-up, idle
//! downgrade, and single-flight wake steps.

use vstd::prelude::*;

verus! {

/// The persisted outcome of a build.
#[derive(Clone, Copy, Debug, PartialEq, Eq, Structural)]
pub enum BuildResult {
    Built,
    Failed,
}

/// The state of one deployment's app (or database) container.
#[derive(Debug, PartialEq)]
pub enum ContainerStatus {
    /// Waiting for the build worker, with the optional identity of the
    /// request that asked for it.
    Queued { trigger_access: Option<Vec<u8>> },
    /// A worker is producing the image.
    Building,
    /// The image exists; no container is created, or it was removed.
    Built { image: Vec<u8> },
    /// A wake-up is in flight: the container is being created or started.
    /// `container` is the existing container record when resuming from
    /// stand-by.
    Starting { image: Vec<u8>, container: Option<Vec<u8>>, db_container: Option<Vec<u8>> },
    /// Container created but intentionally stopped (idle).
    StandBy { image: Vec<u8>, container: Vec<u8>, db_container: Option<Vec<u8>> },
    /// Container running and serving at `ip` on the bridge network.
    Ready { image: Vec<u8>, container: Vec<u8>, ip: u32, db_container: Option<Vec<u8>> },
    /// Terminal for this deployment's current build.
    Failed,
}

/// The mathematical shape of a container state.
pub enum StatusSpec {
    Queued { trigger_access: Option<Seq<u8>> },
    Building,
    Built { image: Seq<u8> },
    Starting { image: Seq<u8>, container: Option<Seq<u8>>, db_container: Option<Seq<u8>> },
    StandBy { image: Seq<u8>, container: Seq<u8>, db_container: Option<Seq<u8>> },
    Ready { image: Seq<u8>, container: Seq<u8>, ip: u32, db_container: Option<Seq<u8>> },
    Failed,
}

/// The view of an optional byte vector.
pub open spec fn opt_view(o: Option<Vec<u8>>) -> Option<Seq<u8>> {
    match o {
        Option::Some(v) => Option::Some(v@),
        Option::None => Option::None,
    }
}

/// Copies an optional byte vector.
pub fn clone_opt_bytes(o: &Option<Vec<u8>>) -> (r: Option<Vec<u8>>)
    ensures
        opt_view(r) == opt_view(*o),
{
    match o {
        Some(v) => Some(crate::bytes::to_vec(v.as_slice())),
        None => None,
    }
}

impl Clone for ContainerStatus {
    fn clone(&self) -> (r: Self)
        ensures
            r@ == self@,
    {
        match self {
            ContainerStatus::Queued { trigger_access } => ContainerStatus::Queued {
                trigger_access: clone_opt_bytes(trigger_access),
            },
            ContainerStatus::Building => ContainerStatus::Building,
            ContainerStatus::Built { image } => ContainerStatus::Built {
                image: crate::bytes::to_vec(image.as_slice()),
            },
            ContainerStatus::Starting { image, container, db_container } =>
                ContainerStatus::Starting {
                image: crate::bytes::to_vec(image.as_slice()),
                container: clone_opt_bytes(container),
                db_container: clone_opt_bytes(db_container),
            },
            ContainerStatus::StandBy { image, container, db_container } =>
                ContainerStatus::StandBy {
                image: crate::bytes::to_vec(image.as_slice()),
                container: crate::bytes::to_vec(container.as_slice()),
                db_container: clone_opt_bytes(db_container),
            },
            ContainerStatus::Ready { image, container, ip, db_container } =>
                ContainerStatus::Ready {
                image: crate::bytes::to_vec(image.as_slice()),
                container: crate::bytes::to_vec(container.as_slice()),
                ip: *ip,
                db_container: clone_opt_bytes(db_container),
            },
            ContainerStatus::Failed => ContainerStatus::Failed,
        }
    }
}

impl View for ContainerStatus {
    type V = StatusSpec;

    open spec fn view(&self) -> StatusSpec {
        match self {
            ContainerStatus::Queued { trigger_access } => StatusSpec::Queued {
                trigger_access: opt_view(*trigger_access),
            },
            ContainerStatus::Building => StatusSpec::Building,
            ContainerStatus::Built { image } => StatusSpec::Built { image: image@ },
            ContainerStatus::Starting { image, container, db_container } => StatusSpec::Starting {
                image: image@,
                container: opt_view(*container),
                db_container: opt_view(*db_container),
            },
            ContainerStatus::StandBy { image, container, db_container } => StatusSpec::StandBy {
                image: image@,
                container: container@,
                db_container: opt_view(*db_container),
            },
            ContainerStatus::Ready { image, container, ip, db_container } => StatusSpec::Ready {
                image: image@,
                container: container@,
                ip: *ip,
                db_container: opt_view(*db_container),
            },
            ContainerStatus::Failed => StatusSpec::Failed,
        }
    }
}

/// What a wake-up call asks its caller to do.
#[derive(Clone, Debug, PartialEq)]
pub enum WakeAction {
    /// The container already serves; proxy straight to it.
    AlreadyReady { ip: u32 },
    /// This caller must run the build for the deployment.
    StartBuild { trigger_access: Option<Vec<u8>> },
    /// This caller must create and/or start the container over `image`;
    /// `container` is the existing record to start, if any.
    StartContainer { image: Vec<u8>, container: Option<Vec<u8>> },
    /// Another caller is already building or starting; wait for the state
    /// broadcast.
    Wait,
    /// The deployment failed; surface an error to the caller.
    ReportFailed,
}

/// The mathematical shape of a wake action.
pub enum WakeActionSpec {
    AlreadyReady { ip: u32 },
    StartBuild { trigger_access: Option<Seq<u8>> },
    StartContainer { image: Seq<u8>, container: Option<Seq<u8>> },
    Wait,
    ReportFailed,
}

impl View for WakeAction {
    type V = WakeActionSpec;

    open spec fn view(&self) -> WakeActionSpec {
        match self {
            WakeAction::AlreadyReady { ip } => WakeActionSpec::AlreadyReady { ip: *ip },
            WakeAction::StartBuild { trigger_access } => WakeActionSpec::StartBuild {
                trigger_access: opt_view(*trigger_access),
            },
            WakeAction::StartContainer { image, container } => WakeActionSpec::StartContainer {
                image: image@,
                container: opt_view(*container),
            },
            WakeAction::Wait => WakeActionSpec::Wait,
            WakeAction::ReportFailed => WakeActionSpec::ReportFailed,
        }
    }
}

/// How far along the wake path a state is. Wake steps never move down.
pub open spec fn wake_rank(s: StatusSpec) -> int {
    match s {
        StatusSpec::Queued { .. } => 0,
        StatusSpec::Building => 1,
        StatusSpec::Built { .. } => 2,
        StatusSpec::StandBy { .. } => 2,
        StatusSpec::Starting { .. } => 3,
        StatusSpec::Ready { .. } => 4,
        StatusSpec::Failed => 4,
    }
}

/// The action is one that begins work (a build or a container start).
pub open spec fn is_start_action(a: WakeActionSpec) -> bool {
    a is StartBuild || a is StartContainer
}

/// The pure wake step of `enqueue_up`: from the current state, the next
/// state and what the calling task must do.
pub open spec fn enqueue_step_spec(s: StatusSpec) -> (StatusSpec, WakeActionSpec) {
    match s {
        StatusSpec::Queued { trigger_access } => (
            StatusSpec::Building,
            WakeActionSpec::StartBuild { trigger_access },
        ),
        StatusSpec::Building => (StatusSpec::Building, WakeActionSpec::Wait),
        StatusSpec::Built { image } => (
            StatusSpec::Starting { image: image, container: None, db_container: None },
            WakeActionSpec::StartContainer { image: image, container: None },
        ),
        StatusSpec::StandBy { image, container, db_container } => (
            StatusSpec::Starting { image: image, container: Some(container), db_container },
            WakeActionSpec::StartContainer { image: image, container: Some(container) },
        ),
        StatusSpec::Starting { image, container, db_container } => (
            StatusSpec::Starting { image, container, db_container },
            WakeActionSpec::Wait,
        ),
        StatusSpec::Ready { image, container, ip, db_container } => (
            StatusSpec::Ready { image, container, ip, db_container },
            WakeActionSpec::AlreadyReady { ip },
        ),
        StatusSpec::Failed => (StatusSpec::Failed, WakeActionSpec::ReportFailed),
    }
}

impl ContainerStatus {
    /// One wake step, taken under the container's own lock.
    pub fn enqueue_step(self) -> (r: (ContainerStatus, WakeAction))
        ensures
            r.0@ == enqueue_step_spec(self@).0,
            r.1@ == enqueue_step_spec(self@).1,
    {
        match self {
            ContainerStatus::Queued { trigger_access } => (
                ContainerStatus::Building,
                WakeAction::StartBuild { trigger_access },
            ),
            ContainerStatus::Building => (ContainerStatus::Building, WakeAction::Wait),
            ContainerStatus::Built { image } => {
                let image2 = crate::bytes::to_vec(image.as_slice());
                let action = WakeAction::StartContainer { image: image2, container: None };
                (
                    ContainerStatus::Starting { image, container: None, db_container: None },
                    action,
                )
            },
            ContainerStatus::StandBy { image, container, db_container } => {
                let image2 = crate::bytes::to_vec(image.as_slice());
                let container2 = crate::bytes::to_vec(container.as_slice());
                let action = WakeAction::StartContainer {
                    image: image2,
                    container: Some(container2),
                };
                (
                    ContainerStatus::Starting { image, container: Some(container), db_container },
                    action,
                )
            },
            ContainerStatus::Starting { image, container, db_container } => (
                ContainerStatus::Starting { image, container, db_container },
                WakeAction::Wait,
            ),
            ContainerStatus::Ready { image, container, ip, db_container } => {
                let action = WakeAction::AlreadyReady { ip };
                (ContainerStatus::Ready { image, container, ip, db_container }, action)
            },
            ContainerStatus::Failed => (ContainerStatus::Failed, WakeAction::ReportFailed),
        }
    }

    /// The build finished and produced an image.
    pub fn on_build_success(self, image: Vec<u8>) -> (r: ContainerStatus)
        requires
            self@ is Building,
        ensures
            r@ == (StatusSpec::Built { image: image@ }),
    {
        ContainerStatus::Built { image }
    }

    /// The build failed; the deployment is terminally failed until a new
    /// build is triggered.
    pub fn on_build_failure(self) -> (r: ContainerStatus)
        requires
            self@ is Building,
        ensures
            r@ == StatusSpec::Failed,
    {
        ContainerStatus::Failed
    }

    /// The in-flight wake-up created and started the container and read its
    /// address on the bridge network.
    pub fn on_container_started(
        self,
        container: Vec<u8>,
        ip: u32,
        db_container: Option<Vec<u8>>,
    ) -> (r: ContainerStatus)
        requires
            self@ is Starting,
        ensures
            r@ == (StatusSpec::Ready {
                image: self@->Starting_image,
                container: container@,
                ip,
                db_container: opt_view(db_container),
            }),
    {
        match self {
            ContainerStatus::Starting { image, .. } => ContainerStatus::Ready {
                image,
                container,
                ip,
                db_container,
            },
            _ => ContainerStatus::Failed,
        }
    }

    /// The in-flight wake-up failed transiently: the state returns to the
    /// previous non-ready state, and later requests retry.
    pub fn on_start_failure(self) -> (r: ContainerStatus)
        requires
            self@ is Starting,
        ensures
            match self@ {
                StatusSpec::Starting { image, container: Some(c), db_container } => r@ == (
                    StatusSpec::StandBy { image, container: c, db_container }
                ),
                StatusSpec::Starting { image, container: None, .. } => r@ == (StatusSpec::Built {
                    image,
                }),
                _ => true,
            },
    {
        match self {
            ContainerStatus::Starting { image, container: Some(c), db_container } =>
                ContainerStatus::StandBy { image, container: c, db_container },
            ContainerStatus::Starting { image, container: None, .. } => ContainerStatus::Built {
                image,
            },
            _ => ContainerStatus::Failed,
        }
    }

    /// The reconciliation pass found this container idle and not the
    /// production app of its project: a ready container is stopped and kept
    /// in stand-by; every other state is left alone.
    pub fn downgrade_if_unused(self, is_prod: bool, idle: bool) -> (r: ContainerStatus)
        ensures
            r@ == downgrade_spec(self@, is_prod, idle),
    {
        match self {
            ContainerStatus::Ready { image, container, ip, db_container } => {
                if !is_prod && idle {
                    ContainerStatus::StandBy { image, container, db_container }
                } else {
                    ContainerStatus::Ready { image, container, ip, db_container }
                }
            },
            other => other,
        }
    }

    /// The initial state a deployment's container resumes in, derived from
    /// the persisted build result.
    pub fn initial(result: Option<BuildResult>, image: Vec<u8>) -> (r: ContainerStatus)
        ensures
            r@ == initial_status_spec(result, image@),
    {
        match result {
            Some(BuildResult::Built) => ContainerStatus::Built { image },
            Some(BuildResult::Failed) => ContainerStatus::Failed,
            None => ContainerStatus::Queued { trigger_access: None },
        }
    }

    /// The database container attached to this state, when one exists.
    pub fn get_db_container(&self) -> (r: Option<&Vec<u8>>)
        ensures
            match self@ {
                StatusSpec::StandBy { db_container: Some(d), .. } => r matches Some(v) && v@ == d,
                StatusSpec::Ready { db_container: Some(d), .. } => r matches Some(v) && v@ == d,
                StatusSpec::Starting { db_container: Some(d), .. } => r matches Some(v) && v@
                    == d,
                _ => r is None,
            },
    {
        match self {
            ContainerStatus::StandBy { db_container: Some(d), .. } => Some(d),
            ContainerStatus::Ready { db_container: Some(d), .. } => Some(d),
            ContainerStatus::Starting { db_container: Some(d), .. } => Some(d),
            _ => None,
        }
    }

    /// The container record attached to this state, when one exists.
    pub fn get_container(&self) -> (r: Option<&Vec<u8>>)
        ensures
            match self@ {
                StatusSpec::StandBy { container, .. } => r matches Some(v) && v@ == container,
                StatusSpec::Ready { container, .. } => r matches Some(v) && v@ == container,
                StatusSpec::Starting { container: Some(c), .. } => r matches Some(v) && v@ == c,
                _ => r is None,
            },
    {
        match self {
            ContainerStatus::StandBy { container, .. } => Some(container),
            ContainerStatus::Ready { container, .. } => Some(container),
            ContainerStatus::Starting { container: Some(c), .. } => Some(c),
            _ => None,
        }
    }

    /// The image this state holds, when one exists.
    pub fn get_image(&self) -> (r: Option<&Vec<u8>>)
        ensures
            match self@ {
                StatusSpec::Built { image } => r matches Some(v) && v@ == image,
                StatusSpec::Starting { image, .. } => r matches Some(v) && v@ == image,
                StatusSpec::StandBy { image, .. } => r matches Some(v) && v@ == image,
                StatusSpec::Ready { image, .. } => r matches Some(v) && v@ == image,
                _ => r is None,
            },
    {
        match self {
            ContainerStatus::Built { image } => Some(image),
            ContainerStatus::Starting { image, .. } => Some(image),
            ContainerStatus::StandBy { image, .. } => Some(image),
            ContainerStatus::Ready { image, .. } => Some(image),
            _ => None,
        }
    }
}

/// What the idle-downgrade pass does to a state: a ready container that is
/// neither production nor in use goes to stand-by; everything else stays.
pub open spec fn downgrade_spec(s: StatusSpec, is_prod: bool, idle: bool) -> StatusSpec {
    match s {
        StatusSpec::Ready { image, container, ip, db_container } => if !is_prod && idle {
            StatusSpec::StandBy { image, container, db_container }
        } else {
            StatusSpec::Ready { image, container, ip, db_container }
        },
        _ => s,
    }
}

/// The initial state derived from a persisted build result: a recorded
/// success resumes as built over the deployment's image, a recorded failure
/// as failed, and anything else waits for the build worker.
pub open spec fn initial_status_spec(result: Option<BuildResult>, image: Seq<u8>) -> StatusSpec {
    match result {
        Some(BuildResult::Built) => StatusSpec::Built { image },
        Some(BuildResult::Failed) => StatusSpec::Failed,
        None => StatusSpec::Queued { trigger_access: None },
    }
}

/// Wake-ups are single flight and never regress. For any state: the wake
/// step moves the state weakly up the wake order; only a caller that found
/// the container queued may start a build, and only one that found it built
/// or in stand-by may start the container; and after any caller has started
/// work, a second wake step starts nothing and changes nothing, so later
/// callers piggy-back on the same attempt.
pub proof fn lemma_enqueue_single_flight(s: StatusSpec)
    ensures
        ({
            let (s1, a1) = enqueue_step_spec(s);
            let (s2, a2) = enqueue_step_spec(s1);
            &&& wake_rank(s1) >= wake_rank(s)
            &&& a1 is StartBuild ==> s is Queued && s1 is Building
            &&& a1 is StartContainer ==> (s is Built || s is StandBy) && s1 is Starting
            &&& is_start_action(a1) ==> s2 == s1 && a2 is Wait
        }),
{
}

} // verus!
