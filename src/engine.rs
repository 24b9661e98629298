//! The decisions of a rollout: which checks run, what each module's deploy
//! step is, when a service is waited on, and how a health poll is read.
//! The caller performs the requests, probes and sleeps and hands back what
//! came of them.
use crate::module::{checks_of, CheckDefinition, InnerDefinition, ModuleDefinition, ModuleMarker, ServiceOrTaskDefinition};
use crate::request::ApiHealthStatus;
use crate::resolver::{node_indices, DependencyNode, ResolveError};
use vstd::prelude::*;

verus! {

/// Seconds to sleep between two health polls that found no verdict.
pub const HEALTH_POLL_INTERVAL_SECS: u64 = 2;

/// Options of one rollout, fixed for its whole run.
pub struct DeployOptions {
    pub force_deploy: bool,
    pub skip_checks: bool,
    pub skip_healthchecks: bool,
}

impl DeployOptions {
    pub fn new(force_deploy: bool, skip_checks: bool, skip_healthchecks: bool) -> (r: DeployOptions)
        ensures
            r.force_deploy == force_deploy,
            r.skip_checks == skip_checks,
            r.skip_healthchecks == skip_healthchecks,
    {
        DeployOptions { force_deploy, skip_checks, skip_healthchecks }
    }
}

/// Why a rollout stopped.
pub enum DeployError {
    /// The selection could not be resolved.
    Resolve(ResolveError),
    /// A module references a check that is not defined.
    CheckNotDefined(String),
    /// A check's probe failed: its label and remediation text.
    CheckFailed { about: String, help: String },
    /// A request failed: the transport's or the backend's message.
    Request(String),
    /// The backend gave up waiting for the service to become healthy.
    HealthRetriesExceeded,
    /// The backend could not evaluate the service's healthcheck.
    HealthcheckConfiguration,
    /// An event arrived that the current phase does not wait for.
    UnexpectedEvent,
}

/// The check names referenced by the modules of `order`, module by module.
pub open spec fn referenced_checks(ms: Seq<ModuleDefinition>, order: Seq<usize>) -> Seq<String>
    decreases order.len(),
{
    if order.len() == 0 {
        Seq::empty()
    } else {
        referenced_checks(ms, order.drop_last()) + checks_of(ms[order.last() as int])
    }
}

/// `i` is the first check named `n`.
pub open spec fn is_check(checks: Seq<CheckDefinition>, n: Seq<char>, i: int) -> bool {
    &&& 0 <= i < checks.len()
    &&& checks[i].name@ == n
    &&& forall|j: int| 0 <= j < i ==> checks[j].name@ != n
}

/// The check a name refers to.
pub open spec fn check_index(checks: Seq<CheckDefinition>, n: Seq<char>) -> int {
    choose|i: int| is_check(checks, n, i)
}

proof fn lemma_check_unique(checks: Seq<CheckDefinition>, n: Seq<char>, i: int)
    requires
        is_check(checks, n, i),
    ensures
        check_index(checks, n) == i,
{
    let t = check_index(checks, n);
    assert(is_check(checks, n, t));
    if t < i {
        assert(checks[t].name@ != n);
    } else if t > i {
        assert(checks[i].name@ != n);
    }
}

/// Some check is named `n`.
pub open spec fn check_defined(checks: Seq<CheckDefinition>, n: Seq<char>) -> bool {
    exists|i: int| 0 <= i < checks.len() && checks[i].name@ == n
}

/// Whether a deployed service is to be waited on, before knowing if the
/// backend returned a monitor handle.
pub open spec fn wants_health_wait(marker: Option<ModuleMarker>, always: bool, opts: DeployOptions) -> bool {
    (marker == Some(ModuleMarker::WaitHealthcheck) || always) && !opts.skip_healthchecks
}

/// The first check named `name`.
pub fn find_check(checks: &Vec<CheckDefinition>, name: &String) -> (r: Result<usize, DeployError>)
    ensures
        r matches Ok(i) ==> is_check(checks@, name@, i as int) && i == check_index(checks@, name@),
        r is Err <==> !check_defined(checks@, name@),
        r matches Err(e) ==> (e matches DeployError::CheckNotDefined(n) && n@ == name@),
{
    let mut i: usize = 0;
    while i < checks.len()
        invariant
            i <= checks@.len(),
            forall|j: int| 0 <= j < i ==> checks@[j].name@ != name@,
        decreases checks.len() - i,
    {
        if checks[i].name == *name {
            proof {
                lemma_check_unique(checks@, name@, i as int);
            }
            return Ok(i);
        }
        i = i + 1;
    }
    Err(DeployError::CheckNotDefined(name.clone()))
}

/// The check names to probe, in the order they are to run: those referenced
/// by each module of `order`, module by module; none when checks are skipped.
/// Each name is looked up just before its probe (see `rollout_step`).
pub fn run_checks(
    modules: &Vec<ModuleDefinition>,
    order: &Vec<DependencyNode>,
    opts: &DeployOptions,
) -> (r: Vec<String>)
    requires
        forall|i: int| 0 <= i < order@.len() ==> #[trigger] order@[i].index < modules@.len(),
    ensures
        opts.skip_checks ==> r@.len() == 0,
        !opts.skip_checks ==> r@ == referenced_checks(modules@, node_indices(order@)),
{
    let mut plan: Vec<String> = Vec::new();
    if opts.skip_checks {
        return plan;
    }
    let ghost idx = node_indices(order@);
    let mut p: usize = 0;
    while p < order.len()
        invariant
            idx == node_indices(order@),
            forall|i: int| 0 <= i < order@.len() ==> #[trigger] order@[i].index < modules@.len(),
            p <= order@.len(),
            plan@ == referenced_checks(modules@, idx.take(p as int)),
        decreases order.len() - p,
    {
        let m = &modules[order[p].index];
        let ghost before = referenced_checks(modules@, idx.take(p as int));
        let ghost own = checks_of(modules@[idx[p as int] as int]);
        proof {
            assert(idx.take(p + 1).drop_last() == idx.take(p as int));
            assert(referenced_checks(modules@, idx.take(p + 1)) == before + own);
        }
        if let Some(names) = m.checks() {
            let mut k: usize = 0;
            while k < names.len()
                invariant
                    names@ == own,
                    k <= own.len(),
                    plan@ == before + own.take(k as int),
                decreases names.len() - k,
            {
                plan.push(names[k].clone());
                assert(own.take(k + 1) == own.take(k as int).push(own[k as int]));
                assert(plan@ == before + own.take(k + 1));
                k = k + 1;
            }
            assert(own.take(own.len() as int) == own);
        } else {
            assert(own.len() == 0);
            assert(before + own == before);
        }
        p = p + 1;
    }
    assert(idx.take(order@.len() as int) == idx);
    plan
}

/// What a probe's outcome means for the rollout: a failed probe stops it with
/// the check's label and remediation text.
pub fn perform_check(check: &CheckDefinition, success: bool) -> (r: Result<(), DeployError>)
    ensures
        success <==> r is Ok,
        r matches Err(e) ==> (e matches DeployError::CheckFailed { about, help } && about == check.about
            && help == check.help),
{
    if success {
        Ok(())
    } else {
        Err(DeployError::CheckFailed { about: check.about.clone(), help: check.help.clone() })
    }
}

/// The deploy step of a module, by kind.
pub enum DeployAction {
    /// Run the task once; it is never waited on.
    RunTask,
    /// Deploy the service, redeploying it if `force` is set.
    DeployService { force: bool },
    /// Nothing to send: the group is done.
    Group,
    /// Checks are not deployed.
    Skip,
}

/// The deploy step for a module of the resolved order.
pub fn deploy_action(module: &ModuleDefinition, opts: &DeployOptions) -> (r: DeployAction)
    ensures
        module.inner is Task <==> r is RunTask,
        module.inner is Service <==> (r matches DeployAction::DeployService { force } && force == opts.force_deploy),
        module.inner is Group <==> r is Group,
        module.inner is Check <==> r is Skip,
{
    match &module.inner {
        InnerDefinition::Task(_) => DeployAction::RunTask,
        InnerDefinition::Service(_) => DeployAction::DeployService { force: opts.force_deploy },
        InnerDefinition::Group(_) => DeployAction::Group,
        InnerDefinition::Check(_) => DeployAction::Skip,
    }
}

/// What a task run's outcome means for the rollout: a failed request stops
/// it with the message.
pub fn deploy_task(outcome: Result<(), String>) -> (r: Result<(), DeployError>)
    ensures
        outcome is Ok <==> r is Ok,
        outcome matches Err(m) ==> (r matches Err(e) && e matches DeployError::Request(m2) && m2 == m),
{
    match outcome {
        Ok(()) => Ok(()),
        Err(m) => Err(DeployError::Request(m)),
    }
}

/// What a service deployment's outcome means for the rollout: a failed
/// request stops it; otherwise the result is the monitor handle to wait on,
/// or `None` when the service is not to be waited on.
pub fn deploy_and_maybe_wait_service(
    service: &ServiceOrTaskDefinition,
    marker: Option<ModuleMarker>,
    opts: &DeployOptions,
    outcome: Result<Option<String>, String>,
) -> (r: Result<Option<String>, DeployError>)
    ensures
        outcome matches Err(m) ==> (r matches Err(e) && e matches DeployError::Request(m2) && m2 == m),
        outcome matches Ok(handle) ==> r == Ok::<Option<String>, DeployError>(
            if handle is Some && wants_health_wait(marker, service.always_wait_healthcheck, *opts) {
                handle
            } else {
                None
            },
        ),
{
    match outcome {
        Err(m) => Err(DeployError::Request(m)),
        Ok(handle) => {
            match handle {
                Some(h) => {
                    if (marker == Some(ModuleMarker::WaitHealthcheck) || service.always_wait_healthcheck)
                        && !opts.skip_healthchecks {
                        Ok(Some(h))
                    } else {
                        Ok(None)
                    }
                },
                None => Ok(None),
            }
        },
    }
}

/// What to do after one health poll.
pub enum HealthStep {
    /// The service is healthy: stop polling.
    Healthy,
    /// No verdict yet: sleep `HEALTH_POLL_INTERVAL_SECS` and poll again.
    Sleep,
    /// The service will not become healthy.
    Fail(DeployError),
}

/// Reads one health poll: success ends the wait, retries exhausted or an
/// evaluation error fail it, and a pending or absent status means poll again.
pub fn wait_until_healthy(status: Option<ApiHealthStatus>) -> (r: HealthStep)
    ensures
        status == Some(ApiHealthStatus::Successful) <==> r is Healthy,
        (status == Some(ApiHealthStatus::Pending) || status is None) <==> r is Sleep,
        status == Some(ApiHealthStatus::RetriesExceeded) <==> (r matches HealthStep::Fail(e)
            && e is HealthRetriesExceeded),
        status == Some(ApiHealthStatus::Error) <==> (r matches HealthStep::Fail(e) && e is HealthcheckConfiguration),
{
    match status {
        Some(ApiHealthStatus::Successful) => HealthStep::Healthy,
        Some(ApiHealthStatus::RetriesExceeded) => HealthStep::Fail(DeployError::HealthRetriesExceeded),
        Some(ApiHealthStatus::Error) => HealthStep::Fail(DeployError::HealthcheckConfiguration),
        Some(ApiHealthStatus::Pending) | None => HealthStep::Sleep,
    }
}

/// The names of the modules of `order`, in order: what a finished rollout reports.
pub fn deployed_names(modules: &Vec<ModuleDefinition>, order: &Vec<DependencyNode>) -> (r: Vec<String>)
    requires
        forall|i: int| 0 <= i < order@.len() ==> #[trigger] order@[i].index < modules@.len(),
    ensures
        r@.len() == order@.len(),
        forall|i: int| 0 <= i < order@.len() ==> #[trigger] r@[i] == modules@[order@[i].index as int].name,
{
    let mut names: Vec<String> = Vec::new();
    let mut p: usize = 0;
    while p < order.len()
        invariant
            forall|i: int| 0 <= i < order@.len() ==> #[trigger] order@[i].index < modules@.len(),
            p <= order@.len(),
            names@.len() == p,
            forall|i: int| 0 <= i < p ==> #[trigger] names@[i] == modules@[order@[i].index as int].name,
        decreases order.len() - p,
    {
        names.push(modules[order[p].index].name.clone());
        p = p + 1;
    }
    names
}

/// Where a rollout stands.
pub enum Phase {
    /// Probing the `next` check of the plan.
    Checking { next: usize },
    /// Deploying the `next` node of the order.
    Deploying { next: usize },
    /// Waiting for the service of `node` to become healthy.
    Waiting { node: usize, handle: String },
    /// Every module was handled.
    Done,
    /// The rollout stopped at a failure.
    Failed,
}

/// What came of the last step.
pub enum Event {
    /// Asks for the step of the current phase (the first call of a run).
    Started,
    /// The probe ran: whether it passed.
    Probed(bool),
    /// The task request ended: `Err` carries the failure's message.
    TaskRan(Result<(), String>),
    /// The service request ended: the monitor handle, or the failure's message.
    ServiceDeployed(Result<Option<String>, String>),
    /// A health poll returned.
    Polled(Option<ApiHealthStatus>),
}

/// What the caller is to do next.
pub enum Step {
    /// Run the probe of `checks[i]`.
    Probe(usize),
    /// Run the task of node `i` of the order.
    RunTask(usize),
    /// Deploy the service of node `node` of the order.
    DeployService { node: usize, force: bool },
    /// Poll the health of the deployment behind this handle.
    Poll(String),
    /// Sleep `HEALTH_POLL_INTERVAL_SECS`, then poll again.
    Sleep,
    /// The rollout is done: the names of the modules handled, in order.
    Report(Vec<String>),
    /// The rollout stops with this error.
    Stop(DeployError),
    /// Nothing more to do.
    Idle,
}

/// The module of node `j` of the order.
pub open spec fn module_at(ms: Seq<ModuleDefinition>, order: Seq<DependencyNode>, j: int) -> ModuleDefinition {
    ms[order[j].index as int]
}

/// The first node at or after `i` that has something to deploy (a task or a
/// service), or the length of the order when there is none.
pub open spec fn next_deployable(ms: Seq<ModuleDefinition>, order: Seq<DependencyNode>, i: int) -> int
    decreases order.len() - i,
{
    if i >= order.len() {
        order.len() as int
    } else if module_at(ms, order, i).inner is Task || module_at(ms, order, i).inner is Service {
        i
    } else {
        next_deployable(ms, order, i + 1)
    }
}

/// `r` starts the deploy phase at node `i`: groups and checks are passed
/// over, and after the last node the rollout reports every module's name.
pub open spec fn deploy_entry(
    ms: Seq<ModuleDefinition>,
    order: Seq<DependencyNode>,
    opts: DeployOptions,
    i: int,
    r: (Phase, Step),
) -> bool {
    let j = next_deployable(ms, order, i);
    if j >= order.len() {
        r.0 is Done && (r.1 matches Step::Report(v) && v@ == Seq::new(
            order.len(),
            |k: int| ms[order[k].index as int].name,
        ))
    } else if module_at(ms, order, j).inner is Task {
        r.0 == Phase::Deploying { next: j as usize } && r.1 == Step::RunTask(j as usize)
    } else {
        r.0 == Phase::Deploying { next: j as usize } && r.1 == Step::DeployService {
            node: j as usize,
            force: opts.force_deploy,
        }
    }
}

/// `r` starts the check phase at entry `i` of the plan: the check is looked
/// up just before its probe; once the plan is through, deploying begins.
pub open spec fn check_entry(
    ms: Seq<ModuleDefinition>,
    checks: Seq<CheckDefinition>,
    order: Seq<DependencyNode>,
    plan: Seq<String>,
    opts: DeployOptions,
    i: int,
    r: (Phase, Step),
) -> bool {
    if i < plan.len() {
        if check_defined(checks, plan[i]@) {
            r.0 == Phase::Checking { next: i as usize } && r.1 == Step::Probe(check_index(checks, plan[i]@) as usize)
        } else {
            r.0 is Failed && (r.1 matches Step::Stop(DeployError::CheckNotDefined(n)) && n@ == plan[i]@)
        }
    } else {
        deploy_entry(ms, order, opts, 0, r)
    }
}

/// `r` stops the rollout on an event its phase does not wait for.
pub open spec fn unexpected(r: (Phase, Step)) -> bool {
    r.0 is Failed && r.1 matches Step::Stop(DeployError::UnexpectedEvent)
}

fn enter_deploy(
    modules: &Vec<ModuleDefinition>,
    order: &Vec<DependencyNode>,
    opts: &DeployOptions,
    i: usize,
) -> (r: (Phase, Step))
    requires
        forall|k: int| 0 <= k < order@.len() ==> #[trigger] order@[k].index < modules@.len(),
    ensures
        deploy_entry(modules@, order@, *opts, i as int, r),
{
    let mut j: usize = i;
    loop
        invariant
            forall|k: int| 0 <= k < order@.len() ==> #[trigger] order@[k].index < modules@.len(),
            next_deployable(modules@, order@, i as int) == next_deployable(modules@, order@, j as int),
        decreases order@.len() - j,
    {
        if j >= order.len() {
            let names = deployed_names(modules, order);
            assert(names@ =~= Seq::new(order@.len(), |k: int| modules@[order@[k].index as int].name));
            return (Phase::Done, Step::Report(names));
        }
        match &modules[order[j].index].inner {
            InnerDefinition::Task(_) => {
                return (Phase::Deploying { next: j }, Step::RunTask(j));
            },
            InnerDefinition::Service(_) => {
                return (Phase::Deploying { next: j }, Step::DeployService { node: j, force: opts.force_deploy });
            },
            _ => {},
        }
        j = j + 1;
    }
}

fn enter_checks(
    modules: &Vec<ModuleDefinition>,
    checks: &Vec<CheckDefinition>,
    order: &Vec<DependencyNode>,
    plan: &Vec<String>,
    opts: &DeployOptions,
    i: usize,
) -> (r: (Phase, Step))
    requires
        forall|k: int| 0 <= k < order@.len() ==> #[trigger] order@[k].index < modules@.len(),
    ensures
        check_entry(modules@, checks@, order@, plan@, *opts, i as int, r),
{
    if i < plan.len() {
        match find_check(checks, &plan[i]) {
            Ok(c) => (Phase::Checking { next: i }, Step::Probe(c)),
            Err(e) => (Phase::Failed, Step::Stop(e)),
        }
    } else {
        enter_deploy(modules, order, opts, 0)
    }
}

/// What one step of a rollout does: the contract of `rollout_step`, by
/// phase and event.
pub open spec fn rollout_step_spec(
    ms: Seq<ModuleDefinition>,
    checks: Seq<CheckDefinition>,
    order: Seq<DependencyNode>,
    plan: Seq<String>,
    opts: DeployOptions,
    phase: Phase,
    event: Event,
    r: (Phase, Step),
) -> bool {
    &&& phase is Done ==> r.0 is Done && r.1 is Idle
    &&& phase is Failed ==> r.0 is Failed && r.1 is Idle
    &&& phase matches Phase::Checking { next } ==> {
        &&& event is Started ==> check_entry(ms, checks, order, plan, opts, next as int, r)
        &&& (event == Event::Probed(true) && next < plan.len())
            ==> check_entry(ms, checks, order, plan, opts, next + 1, r)
        &&& (event == Event::Probed(false) && next < plan.len() && check_defined(checks, plan[next as int]@))
            ==> (r.0 is Failed && (r.1 matches Step::Stop(DeployError::CheckFailed { about, help })
            && about == checks[check_index(checks, plan[next as int]@)].about
            && help == checks[check_index(checks, plan[next as int]@)].help))
        &&& (event == Event::Probed(false) && next < plan.len() && !check_defined(checks, plan[next as int]@))
            ==> (r.0 is Failed && (r.1 matches Step::Stop(DeployError::CheckNotDefined(n)) && n@ == plan[next as int]@))
        &&& !(event is Started) && !(event is Probed && next < plan.len()) ==> unexpected(r)
    }
    &&& phase matches Phase::Deploying { next } ==> {
        let here = next < order.len();
        &&& event is Started ==> deploy_entry(ms, order, opts, next as int, r)
        &&& (event is TaskRan && here && module_at(ms, order, next as int).inner is Task)
            ==> ((event->TaskRan_0 is Ok ==> deploy_entry(ms, order, opts, next + 1, r))
            && (event->TaskRan_0 is Err ==> (r.0 is Failed
            && r.1 == Step::Stop(DeployError::Request(event->TaskRan_0->Err_0)))))
        &&& (event is ServiceDeployed && here && module_at(ms, order, next as int).inner is Service)
            ==> ((event->ServiceDeployed_0 is Err ==> (r.0 is Failed
            && r.1 == Step::Stop(DeployError::Request(event->ServiceDeployed_0->Err_0))))
            && (event->ServiceDeployed_0 is Ok ==> if event->ServiceDeployed_0->Ok_0 is Some && wants_health_wait(
                order[next as int].marker,
                module_at(ms, order, next as int).inner->Service_0.always_wait_healthcheck,
                opts,
            ) {
                r.0 == Phase::Waiting { node: next, handle: event->ServiceDeployed_0->Ok_0->Some_0 }
                    && r.1 == Step::Poll(event->ServiceDeployed_0->Ok_0->Some_0)
            } else {
                deploy_entry(ms, order, opts, next + 1, r)
            }))
        &&& !(event is Started) && !(event is TaskRan && here && module_at(ms, order, next as int).inner is Task)
            && !(event is ServiceDeployed && here && module_at(ms, order, next as int).inner is Service)
            ==> unexpected(r)
    }
    &&& phase matches Phase::Waiting { node, handle } ==> {
        &&& event is Started ==> r.0 == Phase::Waiting { node, handle } && r.1 == Step::Poll(handle)
        &&& event == Event::Polled(Some(ApiHealthStatus::Successful)) ==> {
            &&& node < order.len() ==> deploy_entry(ms, order, opts, node + 1, r)
            &&& node >= order.len() ==> unexpected(r)
        }
        &&& (event == Event::Polled(Some(ApiHealthStatus::Pending)) || event == Event::Polled(None))
            ==> r.0 == Phase::Waiting { node, handle } && r.1 is Sleep
        &&& event == Event::Polled(Some(ApiHealthStatus::RetriesExceeded))
            ==> (r.0 is Failed && r.1 matches Step::Stop(DeployError::HealthRetriesExceeded))
        &&& event == Event::Polled(Some(ApiHealthStatus::Error))
            ==> (r.0 is Failed && r.1 matches Step::Stop(DeployError::HealthcheckConfiguration))
        &&& !(event is Started) && !(event is Polled) ==> unexpected(r)
    }
}

/// One step of a rollout: from the current phase and what came of the last
/// step, the next phase and what to do. Checks are probed in plan order and
/// all before any deploy; modules are deployed one at a time in resolved
/// order; a service is waited on when `deploy_and_maybe_wait_service` says
/// so; the first failure stops the rollout, and `Done` and `Failed` are final.
pub fn rollout_step(
    modules: &Vec<ModuleDefinition>,
    checks: &Vec<CheckDefinition>,
    order: &Vec<DependencyNode>,
    plan: &Vec<String>,
    opts: &DeployOptions,
    phase: Phase,
    event: Event,
) -> (r: (Phase, Step))
    requires
        forall|k: int| 0 <= k < order@.len() ==> #[trigger] order@[k].index < modules@.len(),
    ensures
        rollout_step_spec(modules@, checks@, order@, plan@, *opts, phase, event, r),
{
    match phase {
        Phase::Done => (Phase::Done, Step::Idle),
        Phase::Failed => (Phase::Failed, Step::Idle),
        Phase::Checking { next } => match event {
            Event::Started => enter_checks(modules, checks, order, plan, opts, next),
            Event::Probed(passed) => {
                if next >= plan.len() {
                    (Phase::Failed, Step::Stop(DeployError::UnexpectedEvent))
                } else if passed {
                    enter_checks(modules, checks, order, plan, opts, next + 1)
                } else {
                    match find_check(checks, &plan[next]) {
                        Ok(c) => (
                            Phase::Failed,
                            Step::Stop(DeployError::CheckFailed { about: checks[c].about.clone(), help: checks[c].help.clone() }),
                        ),
                        Err(e) => (Phase::Failed, Step::Stop(e)),
                    }
                }
            },
            _ => (Phase::Failed, Step::Stop(DeployError::UnexpectedEvent)),
        },
        Phase::Deploying { next } => {
            if next >= order.len() {
                match event {
                    Event::Started => enter_deploy(modules, order, opts, next),
                    _ => (Phase::Failed, Step::Stop(DeployError::UnexpectedEvent)),
                }
            } else {
                let node = &order[next];
                match (event, &modules[node.index].inner) {
                    (Event::Started, _) => enter_deploy(modules, order, opts, next),
                    (Event::TaskRan(out), InnerDefinition::Task(_)) => match deploy_task(out) {
                        Ok(()) => enter_deploy(modules, order, opts, next + 1),
                        Err(e) => (Phase::Failed, Step::Stop(e)),
                    },
                    (Event::ServiceDeployed(out), InnerDefinition::Service(s)) => {
                        match deploy_and_maybe_wait_service(s, node.marker, opts, out) {
                            Err(e) => (Phase::Failed, Step::Stop(e)),
                            Ok(Some(h)) => (Phase::Waiting { node: next, handle: h.clone() }, Step::Poll(h)),
                            Ok(None) => enter_deploy(modules, order, opts, next + 1),
                        }
                    },
                    _ => (Phase::Failed, Step::Stop(DeployError::UnexpectedEvent)),
                }
            }
        },
        Phase::Waiting { node, handle } => match event {
            Event::Started => {
                let h = handle.clone();
                (Phase::Waiting { node, handle: h }, Step::Poll(handle))
            },
            Event::Polled(status) => match wait_until_healthy(status) {
                HealthStep::Healthy => {
                    if node < order.len() {
                        enter_deploy(modules, order, opts, node + 1)
                    } else {
                        (Phase::Failed, Step::Stop(DeployError::UnexpectedEvent))
                    }
                },
                HealthStep::Sleep => (Phase::Waiting { node, handle }, Step::Sleep),
                HealthStep::Fail(e) => (Phase::Failed, Step::Stop(e)),
            },
            _ => (Phase::Failed, Step::Stop(DeployError::UnexpectedEvent)),
        },
    }
}

proof fn lemma_deploy_entry_never_waits(
    ms: Seq<ModuleDefinition>,
    order: Seq<DependencyNode>,
    opts: DeployOptions,
    i: int,
    r: (Phase, Step),
)
    requires
        deploy_entry(ms, order, opts, i, r),
    ensures
        !(r.0 is Waiting),
        !(r.1 is Poll),
        !(r.1 is Sleep),
{
}

/// A task never leads to a health wait: whatever comes of its run, the step
/// after it is neither a wait, a poll nor a sleep.
pub proof fn lemma_task_never_waits(
    ms: Seq<ModuleDefinition>,
    checks: Seq<CheckDefinition>,
    order: Seq<DependencyNode>,
    plan: Seq<String>,
    opts: DeployOptions,
    next: usize,
    event: Event,
    r: (Phase, Step),
)
    requires
        rollout_step_spec(ms, checks, order, plan, opts, Phase::Deploying { next }, event, r),
        next < order.len(),
        module_at(ms, order, next as int).inner is Task,
    ensures
        !(r.0 is Waiting),
        !(r.1 is Poll),
        !(r.1 is Sleep),
{
    if event is Started {
        lemma_deploy_entry_never_waits(ms, order, opts, next as int, r);
    } else if event is TaskRan && event->TaskRan_0 is Ok {
        lemma_deploy_entry_never_waits(ms, order, opts, next + 1, r);
    }
}

/// An undefined check stops the rollout before any deploy: when the check
/// the plan comes to is not defined, the step stops with its name, and the
/// stopped rollout takes no further step, whatever comes next.
pub proof fn lemma_undefined_check_stops(
    ms: Seq<ModuleDefinition>,
    checks: Seq<CheckDefinition>,
    order: Seq<DependencyNode>,
    plan: Seq<String>,
    opts: DeployOptions,
    next: usize,
    i: int,
    event: Event,
    r: (Phase, Step),
    later: Event,
    r2: (Phase, Step),
)
    requires
        rollout_step_spec(ms, checks, order, plan, opts, Phase::Checking { next }, event, r),
        (event is Started && i == next) || (event == Event::Probed(true) && i == next + 1),
        0 <= i < plan.len(),
        !check_defined(checks, plan[i]@),
        rollout_step_spec(ms, checks, order, plan, opts, r.0, later, r2),
    ensures
        r.0 is Failed,
        r.1 matches Step::Stop(DeployError::CheckNotDefined(n)) && n@ == plan[i]@,
        r2.0 is Failed && r2.1 is Idle,
{
}

} // verus!
