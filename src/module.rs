//! The module model: services, tasks, groups and checks.
use std::collections::HashMap;
use vstd::prelude::*;

verus! {

/// The type of the module
pub enum ModuleKindV1 {
    /// A task is a module with a limited lifetime, used to perform some
    /// temporary operation or some setup.
    Task,
    /// A service is a longer running module. Its lifetime is managed and it
    /// can be started, stopped independently.
    Service,
}

/// A definition of a module for version 1 (V1) of the daemon.
pub struct ModuleDefinitionV1 {
    pub kind: ModuleKindV1,
    pub name: String,
    pub command: Vec<String>,
    pub environment: HashMap<String, String>,
    pub log_file_path: Option<String>,
    pub dependencies: Vec<String>,
}

impl ModuleDefinitionV1 {
    pub fn new(
        kind: ModuleKindV1,
        name: String,
        command: Vec<String>,
        environment: HashMap<String, String>,
        log_file_path: Option<String>,
        dependencies: Vec<String>,
    ) -> (r: ModuleDefinitionV1)
        ensures
            r.kind == kind,
            r.name == name,
            r.command == command,
            r.environment == environment,
            r.log_file_path == log_file_path,
            r.dependencies == dependencies,
    {
        ModuleDefinitionV1 { kind, name, command, environment, log_file_path, dependencies }
    }
}

/// Modules are identified by name: two definitions with the same name are equal.
impl PartialEq for ModuleDefinitionV1 {
    fn eq(&self, other: &ModuleDefinitionV1) -> (r: bool) {
        self.name == other.name
    }
}

impl vstd::std_specs::cmp::PartialEqSpecImpl for ModuleDefinitionV1 {
    open spec fn obeys_eq_spec() -> bool {
        true
    }

    open spec fn eq_spec(&self, other: &ModuleDefinitionV1) -> bool {
        self.name@ == other.name@
    }
}

impl Eq for ModuleDefinitionV1 {}

/// A pre-deploy probe, referenced by name from services, tasks and groups.
pub struct CheckDefinition {
    pub name: String,
    /// Human label shown while the check runs and when it fails.
    pub about: String,
    /// Remediation text shown when the check fails.
    pub help: String,
    /// The probe to execute.
    pub command: Vec<String>,
}

/// A service or a task: something the backend runs.
pub struct ServiceOrTaskDefinition {
    pub name: String,
    pub command: Vec<String>,
    pub environment: HashMap<String, String>,
    pub log_file_path: Option<String>,
    pub working_dir: Option<String>,
    pub dependencies: Vec<String>,
    pub checks: Vec<String>,
    /// Only meaningful for services: wait for health even when requested directly.
    pub always_wait_healthcheck: bool,
}

/// A purely declarative module aggregating dependencies and checks.
pub struct GroupDefinition {
    pub name: String,
    pub dependencies: Vec<String>,
    pub checks: Vec<String>,
}

/// The kind-specific part of a module definition.
pub enum InnerDefinition {
    Task(ServiceOrTaskDefinition),
    Service(ServiceOrTaskDefinition),
    Group(GroupDefinition),
    Check(CheckDefinition),
}

/// A module definition of any kind, identified by its name.
pub struct ModuleDefinition {
    pub name: String,
    pub inner: InnerDefinition,
}

/// Marks a node that was pulled in as a dependency rather than requested.
#[derive(PartialEq, Eq, Structural, Clone, Copy, Debug)]
pub enum ModuleMarker {
    WaitHealthcheck,
}

/// The names a module depends on (none for a check).
pub open spec fn deps_of(m: ModuleDefinition) -> Seq<String> {
    match m.inner {
        InnerDefinition::Task(t) => t.dependencies@,
        InnerDefinition::Service(s) => s.dependencies@,
        InnerDefinition::Group(g) => g.dependencies@,
        InnerDefinition::Check(_) => Seq::empty(),
    }
}

/// The names of the checks a module references (none for a check).
pub open spec fn checks_of(m: ModuleDefinition) -> Seq<String> {
    match m.inner {
        InnerDefinition::Task(t) => t.checks@,
        InnerDefinition::Service(s) => s.checks@,
        InnerDefinition::Group(g) => g.checks@,
        InnerDefinition::Check(_) => Seq::empty(),
    }
}

impl ModuleDefinition {
    /// The names this module depends on, in declaration order; a check has no list.
    pub fn dependencies(&self) -> (r: Option<&Vec<String>>)
        ensures
            r matches Some(d) ==> d@ == deps_of(*self),
            r is None <==> self.inner is Check,
    {
        match &self.inner {
            InnerDefinition::Task(t) => Some(&t.dependencies),
            InnerDefinition::Service(s) => Some(&s.dependencies),
            InnerDefinition::Group(g) => Some(&g.dependencies),
            InnerDefinition::Check(_) => None,
        }
    }

    /// The names of the checks this module references; a check has no list.
    pub fn checks(&self) -> (r: Option<&Vec<String>>)
        ensures
            r matches Some(c) ==> c@ == checks_of(*self),
            r is None <==> self.inner is Check,
    {
        match &self.inner {
            InnerDefinition::Task(t) => Some(&t.checks),
            InnerDefinition::Service(s) => Some(&s.checks),
            InnerDefinition::Group(g) => Some(&g.checks),
            InnerDefinition::Check(_) => None,
        }
    }
}

/// The check definitions among `ms`, in order.
pub open spec fn check_defs(ms: Seq<ModuleDefinition>) -> Seq<CheckDefinition>
    decreases ms.len(),
{
    if ms.len() == 0 {
        Seq::empty()
    } else {
        match ms[0].inner {
            InnerDefinition::Check(c) => seq![c] + check_defs(ms.drop_first()),
            _ => check_defs(ms.drop_first()),
        }
    }
}

/// The deployable (non-check) definitions among `ms`, in order.
pub open spec fn deployables(ms: Seq<ModuleDefinition>) -> Seq<ModuleDefinition>
    decreases ms.len(),
{
    if ms.len() == 0 {
        Seq::empty()
    } else {
        match ms[0].inner {
            InnerDefinition::Check(_) => deployables(ms.drop_first()),
            _ => seq![ms[0]] + deployables(ms.drop_first()),
        }
    }
}

/// Takes the check definitions out of `defs`, keeping the order of both parts.
pub fn remove_checks(defs: &mut Vec<ModuleDefinition>) -> (r: Vec<CheckDefinition>)
    ensures
        r@ == check_defs(old(defs)@),
        final(defs)@ == deployables(old(defs)@),
{
    let mut kept: Vec<ModuleDefinition> = Vec::new();
    let mut checks: Vec<CheckDefinition> = Vec::new();
    while defs.len() > 0
        invariant
            check_defs(old(defs)@) == checks@ + check_defs(defs@),
            deployables(old(defs)@) == kept@ + deployables(defs@),
        decreases defs@.len(),
    {
        let ghost before = defs@;
        let m = defs.remove(0);
        assert(defs@ == before.drop_first());
        match m.inner {
            InnerDefinition::Check(c) => {
                proof {
                    assert(checks@.push(c) + check_defs(defs@) == checks@ + (seq![c] + check_defs(defs@)));
                }
                checks.push(c);
            },
            inner => {
                let m2 = ModuleDefinition { name: m.name, inner };
                proof {
                    assert(m2 == before[0]);
                    assert(kept@.push(m2) + deployables(defs@) == kept@ + (seq![m2] + deployables(defs@)));
                }
                kept.push(m2);
            },
        }
    }
    assert(checks@ + check_defs(defs@) == checks@);
    assert(kept@ + deployables(defs@) == kept@);
    *defs = kept;
    checks
}

} // verus!
