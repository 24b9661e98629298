use rollout::engine::{
    rollout_step, Event, Phase, Step,
    deploy_action, deploy_and_maybe_wait_service, deploy_task, deployed_names, find_check,
    perform_check, run_checks, wait_until_healthy, DeployAction, DeployError, DeployOptions,
    HealthStep, HEALTH_POLL_INTERVAL_SECS,
};
use rollout::module::{
    remove_checks, CheckDefinition, GroupDefinition, InnerDefinition, ModuleDefinition,
    ModuleMarker, ServiceOrTaskDefinition,
};
use rollout::request::{
    ApiDeploymentResponse, ApiHealthStatus, ApiOperationResponse, ApiTaskDeploymentResponse,
    DeploymentResponse, ErrorResponse, OperationResponse, TaskDeploymentResponse,
};
use rollout::resolver::resolve;
use std::collections::HashMap;

fn names(v: &[&str]) -> Vec<String> {
    v.iter().map(|s| s.to_string()).collect()
}

fn def(name: &str, deps: &[&str], checks: &[&str], always: bool) -> ServiceOrTaskDefinition {
    ServiceOrTaskDefinition {
        name: name.to_string(),
        command: names(&["run", name]),
        environment: HashMap::new(),
        log_file_path: None,
        working_dir: None,
        dependencies: names(deps),
        checks: names(checks),
        always_wait_healthcheck: always,
    }
}

fn service(name: &str, deps: &[&str], checks: &[&str]) -> ModuleDefinition {
    ModuleDefinition { name: name.to_string(), inner: InnerDefinition::Service(def(name, deps, checks, false)) }
}

fn task(name: &str, deps: &[&str], checks: &[&str]) -> ModuleDefinition {
    ModuleDefinition { name: name.to_string(), inner: InnerDefinition::Task(def(name, deps, checks, true)) }
}

fn group(name: &str, deps: &[&str], checks: &[&str]) -> ModuleDefinition {
    ModuleDefinition {
        name: name.to_string(),
        inner: InnerDefinition::Group(GroupDefinition {
            name: name.to_string(),
            dependencies: names(deps),
            checks: names(checks),
        }),
    }
}

fn check(name: &str) -> ModuleDefinition {
    ModuleDefinition {
        name: name.to_string(),
        inner: InnerDefinition::Check(CheckDefinition {
            name: name.to_string(),
            about: format!("about {}", name),
            help: format!("help {}", name),
            command: names(&["true"]),
        }),
    }
}

fn opts(force: bool, skip_checks: bool, skip_health: bool) -> DeployOptions {
    DeployOptions::new(force, skip_checks, skip_health)
}

#[test]
fn deploy_options_keep_flags() {
    let o = opts(true, false, true);
    assert!(o.force_deploy);
    assert!(!o.skip_checks);
    assert!(o.skip_healthchecks);
}

#[test]
fn checks_run_in_module_order() {
    let mut mods = vec![
        check("net"),
        check("disk"),
        service("A", &[], &["disk"]),
        group("B", &["A"], &["net", "disk"]),
    ];
    let _checks = remove_checks(&mut mods);
    let order = resolve(&mods, &names(&["B"])).ok().unwrap();
    let plan = run_checks(&mods, &order, &opts(false, false, false));
    assert_eq!(plan, names(&["disk", "net", "disk"]));
}

#[test]
fn undefined_check_fails_before_any_deploy() {
    let mut mods = vec![check("disk"), service("A", &[], &["disk"]), service("B", &["A"], &["missing"])];
    let checks = remove_checks(&mut mods);
    let order = resolve(&mods, &names(&["B"])).ok().unwrap();
    let plan = run_checks(&mods, &order, &opts(false, false, false));
    let trace = drive(&mods, &checks, &order, &plan, &opts(false, false, false), &Backend::default());
    assert_eq!(trace.probes, names(&["disk"]));
    assert!(trace.deploys.is_empty());
    match trace.result {
        Err(DeployError::CheckNotDefined(n)) => assert_eq!(n, "missing"),
        _ => panic!("expected an undefined check"),
    }
}

#[test]
fn skipped_checks_run_no_probe() {
    let mut mods = vec![check("disk"), service("A", &[], &["disk", "missing"])];
    let checks = remove_checks(&mut mods);
    let order = resolve(&mods, &names(&["A"])).ok().unwrap();
    let plan = run_checks(&mods, &order, &opts(false, true, false));
    assert!(plan.is_empty());
    let trace = drive(&mods, &checks, &order, &plan, &opts(false, true, false), &Backend::default());
    assert!(trace.probes.is_empty());
    assert_eq!(trace.deploys, names(&["A"]));
    assert!(trace.result.is_ok());
}

#[test]
fn failed_probe_is_reported_before_a_later_undefined_check() {
    let mut mods = vec![check("disk"), service("A", &[], &["disk", "missing"])];
    let checks = remove_checks(&mut mods);
    let order = resolve(&mods, &names(&["A"])).ok().unwrap();
    let plan = run_checks(&mods, &order, &opts(false, false, false));
    let backend = Backend { failing_probes: names(&["disk"]), ..Backend::default() };
    let trace = drive(&mods, &checks, &order, &plan, &opts(false, false, false), &backend);
    assert!(trace.deploys.is_empty());
    match trace.result {
        Err(DeployError::CheckFailed { about, help }) => {
            assert_eq!(about, "about disk");
            assert_eq!(help, "help disk");
        }
        _ => panic!("expected a failed check"),
    }
}

#[test]
fn find_check_reports_missing_name() {
    let mut mods = vec![check("disk")];
    let checks = remove_checks(&mut mods);
    assert!(matches!(find_check(&checks, &"disk".to_string()), Ok(0)));
    match find_check(&checks, &"cpu".to_string()) {
        Err(DeployError::CheckNotDefined(n)) => assert_eq!(n, "cpu"),
        _ => panic!("expected a missing check"),
    }
}

#[test]
fn failed_probe_carries_about_and_help() {
    let mut mods = vec![check("disk")];
    let checks = remove_checks(&mut mods);
    assert!(perform_check(&checks[0], true).is_ok());
    match perform_check(&checks[0], false) {
        Err(DeployError::CheckFailed { about, help }) => {
            assert_eq!(about, "about disk");
            assert_eq!(help, "help disk");
        }
        _ => panic!("expected a check failure"),
    }
}

#[test]
fn deploy_action_by_kind() {
    let o = opts(true, false, false);
    assert!(matches!(deploy_action(&task("t", &[], &[]), &o), DeployAction::RunTask));
    assert!(matches!(deploy_action(&service("s", &[], &[]), &o), DeployAction::DeployService { force: true }));
    assert!(matches!(
        deploy_action(&service("s", &[], &[]), &opts(false, false, false)),
        DeployAction::DeployService { force: false }
    ));
    assert!(matches!(deploy_action(&group("g", &[], &[]), &o), DeployAction::Group));
    assert!(matches!(deploy_action(&check("c"), &o), DeployAction::Skip));
}

#[test]
fn task_never_waits_for_health() {
    // A task is run once, whatever its flags: its outcome carries no handle.
    let t = task("t", &[], &[]);
    assert!(matches!(deploy_action(&t, &opts(false, false, false)), DeployAction::RunTask));
    assert!(deploy_task(Ok(())).is_ok());
    match deploy_task(Err("boom".to_string())) {
        Err(DeployError::Request(m)) => assert_eq!(m, "boom"),
        _ => panic!("expected a request failure"),
    }
}

#[test]
fn always_wait_service_waits_without_marker() {
    let s = def("s", &[], &[], true);
    let r = deploy_and_maybe_wait_service(&s, None, &opts(false, false, false), Ok(Some("h1".to_string())));
    assert_eq!(r.ok().unwrap(), Some("h1".to_string()));
}

#[test]
fn marked_service_waits() {
    let s = def("s", &[], &[], false);
    let r = deploy_and_maybe_wait_service(
        &s,
        Some(ModuleMarker::WaitHealthcheck),
        &opts(false, false, false),
        Ok(Some("h2".to_string())),
    );
    assert_eq!(r.ok().unwrap(), Some("h2".to_string()));
}

#[test]
fn service_without_reason_does_not_wait() {
    let s = def("s", &[], &[], false);
    let r = deploy_and_maybe_wait_service(&s, None, &opts(false, false, false), Ok(Some("h".to_string())));
    assert_eq!(r.ok().unwrap(), None);
}

#[test]
fn skip_healthchecks_disables_wait() {
    let s = def("s", &[], &[], true);
    let r = deploy_and_maybe_wait_service(
        &s,
        Some(ModuleMarker::WaitHealthcheck),
        &opts(false, false, true),
        Ok(Some("h".to_string())),
    );
    assert_eq!(r.ok().unwrap(), None);
}

#[test]
fn service_without_handle_does_not_wait() {
    let s = def("s", &[], &[], true);
    let r = deploy_and_maybe_wait_service(&s, Some(ModuleMarker::WaitHealthcheck), &opts(false, false, false), Ok(None));
    assert_eq!(r.ok().unwrap(), None);
}

#[test]
fn failed_service_deploy_stops_with_message() {
    let s = def("s", &[], &[], true);
    match deploy_and_maybe_wait_service(&s, None, &opts(false, false, false), Err("refused".to_string())) {
        Err(DeployError::Request(m)) => assert_eq!(m, "refused"),
        _ => panic!("expected a request failure"),
    }
}

fn run_health_wait(statuses: &[Option<ApiHealthStatus>]) -> (Result<(), DeployError>, usize, usize) {
    let mut sleeps = 0;
    let mut polls = 0;
    for s in statuses {
        polls += 1;
        match wait_until_healthy(*s) {
            HealthStep::Healthy => return (Ok(()), sleeps, polls),
            HealthStep::Fail(e) => return (Err(e), sleeps, polls),
            HealthStep::Sleep => sleeps += 1,
        }
    }
    panic!("no verdict")
}

#[test]
fn health_wait_succeeds_after_two_sleeps() {
    let (r, sleeps, polls) = run_health_wait(&[
        Some(ApiHealthStatus::Pending),
        Some(ApiHealthStatus::Pending),
        Some(ApiHealthStatus::Successful),
    ]);
    assert!(r.is_ok());
    assert_eq!(sleeps, 2);
    assert_eq!(polls, 3);
    assert_eq!(HEALTH_POLL_INTERVAL_SECS, 2);
}

#[test]
fn health_wait_retries_exceeded_without_sleep() {
    let (r, sleeps, _) = run_health_wait(&[Some(ApiHealthStatus::RetriesExceeded)]);
    assert!(matches!(r, Err(DeployError::HealthRetriesExceeded)));
    assert_eq!(sleeps, 0);
}

#[test]
fn health_wait_configuration_error() {
    let (r, sleeps, _) = run_health_wait(&[Some(ApiHealthStatus::Error)]);
    assert!(matches!(r, Err(DeployError::HealthcheckConfiguration)));
    assert_eq!(sleeps, 0);
}

#[test]
fn absent_status_means_poll_again() {
    let (r, sleeps, _) = run_health_wait(&[None, Some(ApiHealthStatus::Successful)]);
    assert!(r.is_ok());
    assert_eq!(sleeps, 1);
}

#[test]
fn end_to_end_deploys_dependency_first() {
    let mut mods = vec![service("A", &[], &[]), service("B", &["A"], &[])];
    let checks = remove_checks(&mut mods);
    let order = resolve(&mods, &names(&["B"])).ok().unwrap();
    assert!(run_checks(&mods, &order, &opts(false, false, false)).is_empty());
    assert!(checks.is_empty());
    let mut deployed = Vec::new();
    for n in &order {
        match deploy_action(&mods[n.index], &opts(false, false, false)) {
            DeployAction::DeployService { .. } => deployed.push(mods[n.index].name.clone()),
            _ => panic!("expected services"),
        }
    }
    assert_eq!(deployed, names(&["A", "B"]));
    assert_eq!(deployed_names(&mods, &order), names(&["A", "B"]));
}

#[test]
fn envelopes_decode_to_results() {
    let ok = DeploymentResponse::Success(ApiDeploymentResponse { deployed: true, monitor: Some("m".to_string()) });
    let p = ok.into_result().ok().unwrap();
    assert!(p.deployed);
    assert_eq!(p.monitor, Some("m".to_string()));
    let err = DeploymentResponse::Failure(ErrorResponse { message: "already".to_string() });
    assert_eq!(err.into_result().err().unwrap(), "already");
    let t = TaskDeploymentResponse::Success(ApiTaskDeploymentResponse { module_name: "t".to_string() });
    assert_eq!(t.into_result().ok().unwrap().module_name, "t");
    let te = TaskDeploymentResponse::Failure(ErrorResponse { message: "bad task".to_string() });
    assert_eq!(te.into_result().err().unwrap(), "bad task");
    let o = OperationResponse::Success(ApiOperationResponse { module_name: "s".to_string() });
    assert_eq!(o.into_result().ok().unwrap().module_name, "s");
    let oe = OperationResponse::Failure(ErrorResponse { message: "no such module".to_string() });
    assert_eq!(oe.into_result().err().unwrap(), "no such module");
}

#[test]
fn unknown_module_fails_before_any_request() {
    let mods = vec![service("A", &[], &["disk"])];
    let mut requests = 0;
    match resolve(&mods, &names(&["missing"])) {
        Ok(order) => {
            for n in &order {
                if let DeployAction::DeployService { .. } = deploy_action(&mods[n.index], &opts(false, false, false)) {
                    requests += 1;
                }
            }
        }
        Err(rollout::resolver::ResolveError::UnknownModule(n)) => assert_eq!(n, "missing"),
        Err(_) => panic!("expected an unknown module"),
    }
    assert_eq!(requests, 0);
}

#[derive(Default)]
struct Backend {
    failing_probes: Vec<String>,
    failing_deploys: Vec<String>,
    handles: Vec<(String, String)>,
    health: Vec<Option<ApiHealthStatus>>,
}

struct Trace {
    probes: Vec<String>,
    deploys: Vec<String>,
    polls: usize,
    sleeps: usize,
    result: Result<Vec<String>, DeployError>,
}

fn drive(
    mods: &Vec<ModuleDefinition>,
    checks: &Vec<CheckDefinition>,
    order: &Vec<rollout::resolver::DependencyNode>,
    plan: &Vec<String>,
    o: &DeployOptions,
    backend: &Backend,
) -> Trace {
    let mut trace = Trace { probes: Vec::new(), deploys: Vec::new(), polls: 0, sleeps: 0, result: Ok(Vec::new()) };
    let mut phase = Phase::Checking { next: 0 };
    let mut event = Event::Started;
    for _ in 0..1000 {
        let (next, step) = rollout_step(mods, checks, order, plan, o, phase, event);
        phase = next;
        event = match step {
            Step::Probe(i) => {
                trace.probes.push(checks[i].name.clone());
                Event::Probed(!backend.failing_probes.contains(&checks[i].name))
            }
            Step::RunTask(n) => {
                let name = mods[order[n].index].name.clone();
                trace.deploys.push(name.clone());
                Event::TaskRan(if backend.failing_deploys.contains(&name) { Err(format!("{} failed", name)) } else { Ok(()) })
            }
            Step::DeployService { node, .. } => {
                let name = mods[order[node].index].name.clone();
                trace.deploys.push(name.clone());
                if backend.failing_deploys.contains(&name) {
                    Event::ServiceDeployed(Err(format!("{} failed", name)))
                } else {
                    let h = backend.handles.iter().find(|(m, _)| *m == name).map(|(_, h)| h.clone());
                    Event::ServiceDeployed(Ok(h))
                }
            }
            Step::Poll(_) => {
                let s = backend.health.get(trace.polls).copied().flatten();
                trace.polls += 1;
                Event::Polled(s)
            }
            Step::Sleep => {
                trace.sleeps += 1;
                let s = backend.health.get(trace.polls).copied().flatten();
                trace.polls += 1;
                Event::Polled(s)
            }
            Step::Report(names) => {
                trace.result = Ok(names);
                return trace;
            }
            Step::Stop(e) => {
                trace.result = Err(e);
                return trace;
            }
            Step::Idle => panic!("idle before an end"),
        };
    }
    panic!("no end")
}

#[test]
fn rollout_deploys_in_order_and_reports() {
    let mut mods = vec![
        task("migrate", &["db"], &[]),
        service("db", &[], &[]),
        group("all", &["web"], &[]),
        service("web", &["migrate"], &[]),
    ];
    let checks = remove_checks(&mut mods);
    let order = resolve(&mods, &names(&["all"])).ok().unwrap();
    let plan = run_checks(&mods, &order, &opts(false, false, false));
    let trace = drive(&mods, &checks, &order, &plan, &opts(false, false, false), &Backend::default());
    assert_eq!(trace.deploys, names(&["db", "migrate", "web"]));
    assert_eq!(trace.result.ok().unwrap(), names(&["db", "migrate", "web", "all"]));
}

#[test]
fn rollout_end_to_end_a_before_b() {
    let mut mods = vec![service("A", &[], &[]), service("B", &["A"], &[])];
    let checks = remove_checks(&mut mods);
    let order = resolve(&mods, &names(&["B"])).ok().unwrap();
    let plan = run_checks(&mods, &order, &opts(false, false, false));
    let trace = drive(&mods, &checks, &order, &plan, &opts(false, false, false), &Backend::default());
    assert_eq!(trace.deploys, names(&["A", "B"]));
    assert_eq!(trace.result.ok().unwrap(), names(&["A", "B"]));
}

#[test]
fn rollout_stops_at_first_failed_deploy() {
    let mut mods = vec![service("A", &[], &[]), service("B", &["A"], &[]), service("C", &["B"], &[])];
    let checks = remove_checks(&mut mods);
    let order = resolve(&mods, &names(&["C"])).ok().unwrap();
    let plan = run_checks(&mods, &order, &opts(false, false, false));
    let backend = Backend { failing_deploys: names(&["B"]), ..Backend::default() };
    let trace = drive(&mods, &checks, &order, &plan, &opts(false, false, false), &backend);
    assert_eq!(trace.deploys, names(&["A", "B"]));
    match trace.result {
        Err(DeployError::Request(m)) => assert_eq!(m, "B failed"),
        _ => panic!("expected a request failure"),
    }
}

#[test]
fn rollout_waits_for_dependency_health() {
    let mut mods = vec![service("A", &[], &[]), service("B", &["A"], &[])];
    let checks = remove_checks(&mut mods);
    let order = resolve(&mods, &names(&["B"])).ok().unwrap();
    let plan = run_checks(&mods, &order, &opts(false, false, false));
    let backend = Backend {
        handles: vec![("A".to_string(), "hA".to_string()), ("B".to_string(), "hB".to_string())],
        health: vec![Some(ApiHealthStatus::Pending), Some(ApiHealthStatus::Pending), Some(ApiHealthStatus::Successful)],
        ..Backend::default()
    };
    let trace = drive(&mods, &checks, &order, &plan, &opts(false, false, false), &backend);
    assert_eq!(trace.sleeps, 2);
    assert_eq!(trace.polls, 3);
    assert_eq!(trace.result.ok().unwrap(), names(&["A", "B"]));
}

#[test]
fn rollout_stops_when_health_retries_run_out() {
    let mut mods = vec![service("A", &[], &[]), service("B", &["A"], &[])];
    let checks = remove_checks(&mut mods);
    let order = resolve(&mods, &names(&["B"])).ok().unwrap();
    let plan = run_checks(&mods, &order, &opts(false, false, false));
    let backend = Backend {
        handles: vec![("A".to_string(), "hA".to_string())],
        health: vec![Some(ApiHealthStatus::RetriesExceeded)],
        ..Backend::default()
    };
    let trace = drive(&mods, &checks, &order, &plan, &opts(false, false, false), &backend);
    assert_eq!(trace.deploys, names(&["A"]));
    assert_eq!(trace.sleeps, 0);
    assert!(matches!(trace.result, Err(DeployError::HealthRetriesExceeded)));
}

#[test]
fn finished_phases_are_final() {
    let mods: Vec<ModuleDefinition> = Vec::new();
    let checks: Vec<CheckDefinition> = Vec::new();
    let order = Vec::new();
    let plan: Vec<String> = Vec::new();
    let o = opts(false, false, false);
    let (p, s) = rollout_step(&mods, &checks, &order, &plan, &o, Phase::Done, Event::Probed(true));
    assert!(matches!(p, Phase::Done));
    assert!(matches!(s, Step::Idle));
    let (p, s) = rollout_step(&mods, &checks, &order, &plan, &o, Phase::Failed, Event::Started);
    assert!(matches!(p, Phase::Failed));
    assert!(matches!(s, Step::Idle));
    let (p, s) = rollout_step(&mods, &checks, &order, &plan, &o, Phase::Checking { next: 0 }, Event::Polled(None));
    assert!(matches!(p, Phase::Failed));
    assert!(matches!(s, Step::Stop(DeployError::UnexpectedEvent)));
}
