//! The service manager: which services there are, what becomes of their
//! supervisors, and what is answered to control requests.
//!
//! The functions here decide and keep the books; whoever calls them reads
//! files, starts and stops processes and talks to clients. Times are
//! milliseconds on one clock that never runs backwards.

use crate::config::{GlobalConfig, LogType, ServiceConfig, TargetConfig};
use crate::dep::{
    inserted, lemma_push_contains, missing_pairs, with_dependency, DepGraph, GraphModel,
};
use crate::launch::{
    log_base, log_file, nul_message, says_to_supervisor, to_cstring, SuperviseArgs,
};
use crate::path::{join, joined, parent, parent_of};
use crate::protocol::{
    infos, Info, Reply, Request, Response, ServiceInfo, ServiceStatus, ShutdownAction, Status,
};
use crate::signals::NamedSignal;
use crate::supervisor::{RecordedState, RestartDecision, TeardownStep};
use crate::target::{
    dep_of, distinct_names, is_enabled, is_required, lacks_required, resolve_target, target_of,
    target_view, unit_of, units, Dep, Target, Unit,
};
use crate::text::{
    decimal, decimal_reads_back, in_range, lemma_trimmed_line, pairs, parse_u32, position, same,
    texts, to_chars, trim, trimmed, unsigned_value, Text,
};
use vstd::prelude::*;

verus! {

/// A supervisor that survived this long resets the crash budget, so that a
/// long-stable service is never refused a respawn because of an ancient crash
/// loop.
pub const RESPAWN_COOLDOWN_MS: u64 = 600000;

/// How much longer than its service a supervisor may take to stop.
pub const STOP_MARGIN_MS: u64 = 2000;

/// What a service is doing, as far as the scanner knows.
#[derive(Debug, Clone, Copy, PartialEq, Eq, Structural)]
pub enum RunState {
    Stopped,
    Starting,
    Running,
    Failed,
}

impl RunState {
    pub open spec fn text(self) -> Text {
        match self {
            RunState::Stopped => "stopped"@,
            RunState::Starting => "starting"@,
            RunState::Running => "running"@,
            RunState::Failed => "failed"@,
        }
    }

    pub fn as_str(self) -> (r: &'static str)
        ensures
            r@ == self.text(),
    {
        match self {
            RunState::Stopped => "stopped",
            RunState::Starting => "starting",
            RunState::Running => "running",
            RunState::Failed => "failed",
        }
    }

    /// Whether the service is up or coming up.
    pub open spec fn is_up(self) -> bool {
        self is Running || self is Starting
    }

    fn up(self) -> (r: bool)
        ensures
            r == self.is_up(),
    {
        match self {
            RunState::Running | RunState::Starting => true,
            RunState::Stopped | RunState::Failed => false,
        }
    }
}

/// A service and what the scanner knows of it.
#[derive(Debug, Clone)]
pub struct ServiceState {
    pub name: String,
    pub config: ServiceConfig,
    pub config_path: String,
    pub state: RunState,
    pub supervisor_pid: Option<u32>,
    pub restart_count: u32,
    pub start_time: Option<u64>,
    pub enabled: bool,
    pub last_respawn: Option<u64>,
}

impl ServiceState {
    /// A service that was just read from its file.
    pub fn loaded(name: String, config: ServiceConfig, config_path: String) -> (r: Self)
        ensures
            r == (ServiceState {
                name,
                config,
                config_path,
                state: RunState::Stopped,
                supervisor_pid: None,
                restart_count: 0,
                start_time: None,
                enabled: true,
                last_respawn: None,
            }),
    {
        ServiceState {
            name,
            config,
            config_path,
            state: RunState::Stopped,
            supervisor_pid: None,
            restart_count: 0,
            start_time: None,
            enabled: true,
            last_respawn: None,
        }
    }
}

/// The service manager.
#[derive(Debug)]
pub struct Scanner {
    pub config: GlobalConfig,
    /// The services, no two of the same name.
    pub services: Vec<ServiceState>,
    pub dep_graph: DepGraph,
    /// Services that must come up with the boot target: those named in
    /// `[target] requires` plus enabled, non-optional target entries and
    /// everything pulled in by their required dependencies.
    pub required_services: Vec<String>,
    /// Set when the boot did not complete cleanly.
    pub degraded: bool,
    /// Whether `<runtime>/degraded` names a required service that gave up.
    pub marked: bool,
    pub running: bool,
    /// What PID 1 is told once the services are down.
    pub farewell: Option<NamedSignal>,
}

/// The place of the first service with the given name.
pub open spec fn find(services: Seq<ServiceState>, name: Text) -> Option<int>
    decreases services.len(),
{
    if services.len() == 0 {
        None
    } else {
        match find(services.drop_last(), name) {
            Some(i) => Some(i),
            None => if services.last().name@ == name {
                Some(services.len() - 1)
            } else {
                None
            },
        }
    }
}

/// What `find` finds.
pub proof fn lemma_find(services: Seq<ServiceState>, name: Text)
    ensures
        match find(services, name) {
            Some(i) => {
                &&& 0 <= i < services.len()
                &&& services[i].name@ == name
                &&& forall|j: int| 0 <= j < i ==> (#[trigger] services[j]).name@ != name
            },
            None => forall|j: int|
                0 <= j < services.len() ==> (#[trigger] services[j]).name@ != name,
        },
    decreases services.len(),
{
    if services.len() > 0 {
        let init = services.drop_last();
        lemma_find(init, name);
        assert forall|j: int| 0 <= j < init.len() implies (#[trigger] services[j]).name@
            == init[j].name@ by {}
    }
}

/// The position of the service with the given name.
fn locate(services: &Vec<ServiceState>, name: &str) -> (r: Option<usize>)
    ensures
        match r {
            Some(i) => find(services@, name@) == Some(i as int) && i < services@.len()
                && services@[i as int].name@ == name@,
            None => find(services@, name@) is None,
        },
{
    proof {
        lemma_find(services@, name@);
    }
    let mut i: usize = 0;
    while i < services.len()
        invariant
            i <= services@.len(),
            match find(services@, name@) {
                Some(k) => i <= k < services@.len() && services@[k].name@ == name@ && forall|
                    j: int,
                |
                    0 <= j < k ==> (#[trigger] services@[j]).name@ != name@,
                None => forall|j: int|
                    0 <= j < services@.len() ==> (#[trigger] services@[j]).name@ != name@,
            },
        decreases services@.len() - i,
    {
        if same(services[i].name.as_str(), name) {
            return Some(i);
        }
        i += 1;
    }
    None
}

/// The names of the services.
pub open spec fn names_of(services: Seq<ServiceState>) -> Seq<Text> {
    services.map_values(|s: ServiceState| s.name@)
}

fn all_names(services: &Vec<ServiceState>) -> (r: Vec<String>)
    ensures
        texts(r@) == names_of(services@),
{
    let mut out: Vec<String> = Vec::new();
    let mut i: usize = 0;
    while i < services.len()
        invariant
            i <= services@.len(),
            texts(out@) == names_of(services@).take(i as int),
        decreases services@.len() - i,
    {
        let ghost before = texts(out@);
        out.push(services[i].name.clone());
        assert(texts(out@) =~= before.push(services@[i as int].name@));
        assert(names_of(services@).take(i + 1) =~= before.push(services@[i as int].name@));
        i += 1;
    }
    assert(names_of(services@).take(i as int) =~= names_of(services@));
    out
}

/// What is said of a service that does not exist.
pub open spec fn not_found(name: Text) -> Text {
    "service '"@ + name + "' not found"@
}

fn not_found_message(name: &str) -> (r: String)
    ensures
        r@ == not_found(name@),
{
    "service '".to_string().concat(name).concat("' not found")
}

// ---------------------------------------------------------------------------
// Names, files and directories
// ---------------------------------------------------------------------------

/// The characters of service names.
pub open spec fn is_name_char(c: char) -> bool {
    ||| 'a' <= c <= 'z'
    ||| 'A' <= c <= 'Z'
    ||| '0' <= c <= '9'
    ||| c == '.'
    ||| c == '_'
    ||| c == '-'
}

/// Whether a text can name a service: ASCII letters and digits, `.`, `_` and
/// `-`, but not a directory's `.` or `..`.
pub open spec fn valid_service_name(name: Text) -> bool {
    &&& name.len() > 0
    &&& name != "."@
    &&& name != ".."@
    &&& forall|i: int| 0 <= i < name.len() ==> is_name_char(#[trigger] name[i])
}

/// Service names are used to build filesystem paths and cgroup names, so they
/// are restricted to a safe identifier set.
pub fn is_valid_service_name(name: &str) -> (r: bool)
    ensures
        r == valid_service_name(name@),
{
    let v = to_chars(name);
    if v.len() == 0 || same(name, ".") || same(name, "..") {
        return false;
    }
    let mut i: usize = 0;
    while i < v.len()
        invariant
            i <= v@.len(),
            v@ == name@,
            forall|j: int| 0 <= j < i ==> is_name_char(#[trigger] v@[j]),
        decreases v@.len() - i,
    {
        let c = v[i];
        let fits = ('a' <= c && c <= 'z') || ('A' <= c && c <= 'Z') || ('0' <= c && c <= '9') || c
            == '.' || c == '_' || c == '-';
        if !fits {
            assert(!is_name_char(v@[i as int]));
            return false;
        }
        i += 1;
    }
    true
}

/// What a file in the service directory is.
#[derive(Debug, Clone, PartialEq, Eq)]
pub enum ServiceFile {
    /// No service file.
    Ignored,
    /// A service file whose name cannot be a service's.
    BadName(String),
    /// The file of the service with this name.
    Service(String),
}

/// Judges a file by the extension and the stem of its name, each as far as it
/// is there and is text.
pub fn classify_service_file(extension: Option<&str>, stem: Option<&str>) -> (r: ServiceFile)
    ensures
        ({
            let name = match stem {
                Some(s) => s@,
                None => "unknown"@,
            };
            match r {
                ServiceFile::Ignored => !(extension matches Some(e) && e@ == "toml"@),
                ServiceFile::BadName(n) => {
                    &&& extension matches Some(e) && e@ == "toml"@
                    &&& n@ == name
                    &&& !valid_service_name(name)
                },
                ServiceFile::Service(n) => {
                    &&& extension matches Some(e) && e@ == "toml"@
                    &&& n@ == name
                    &&& valid_service_name(name)
                },
            }
        }),
{
    match extension {
        Some(e) => {
            if !same(e, "toml") {
                return ServiceFile::Ignored;
            }
        },
        None => {
            return ServiceFile::Ignored;
        },
    }
    let name = match stem {
        Some(s) => s.to_string(),
        None => "unknown".to_string(),
    };
    if is_valid_service_name(name.as_str()) {
        ServiceFile::Service(name)
    } else {
        ServiceFile::BadName(name)
    }
}

/// The configuration file that a command line names: the value of the last
/// `-c` or `--config`, or what is wrong with the arguments from `i` on.
pub open spec fn config_argument(args: Seq<Text>, i: int, found: Option<Text>) -> Result<
    Option<Text>,
    Text,
>
    decreases args.len() - i,
{
    if i < 0 || i >= args.len() {
        Ok(found)
    } else if args[i] == "-c"@ || args[i] == "--config"@ {
        if i + 1 < args.len() {
            config_argument(args, i + 2, Some(args[i + 1]))
        } else {
            Err("--config requires a path argument"@)
        }
    } else {
        Err("unsupported vigil-scan argument '"@ + args[i] + "'"@)
    }
}

/// The path of the global configuration, from the command line (program name
/// first) and the value of `VIGIL_CONFIG`. An explicit `--config` beats the
/// variable, which beats the default path.
pub fn global_config_path(args: &Vec<String>, variable: Option<&str>) -> (r: Result<String, String>)
    ensures
        match config_argument(texts(args@), 1, None) {
            Err(m) => r matches Err(e) && e@ == m,
            Ok(Some(p)) => r matches Ok(s) && s@ == p,
            Ok(None) => r matches Ok(s) && s@ == match variable {
                Some(v) => v@,
                None => "/etc/vigil/vigil.toml"@,
            },
        },
{
    let ghost all = texts(args@);
    let n = args.len();
    let mut found: Option<String> = None;
    let mut i: usize = 1;
    while i < n
        invariant
            1 <= i,
            n == args@.len(),
            all == texts(args@),
            config_argument(all, 1, None) == config_argument(
                all,
                i as int,
                crate::readiness::text_view(found),
            ),
        decreases n - i,
    {
        assert(all[i as int] == args@[i as int]@);
        if same(args[i].as_str(), "-c") || same(args[i].as_str(), "--config") {
            if n - i < 2 {
                return Err("--config requires a path argument".to_string());
            }
            assert(all[i + 1] == args@[i + 1]@);
            found = Some(args[i + 1].clone());
            if n - i == 2 {
                i = n;
            } else {
                i += 2;
            }
        } else {
            return Err(
                "unsupported vigil-scan argument '".to_string().concat(args[i].as_str()).concat(
                    "'",
                ),
            );
        }
    }
    match found {
        Some(p) => Ok(p),
        None => match variable {
            Some(v) => Ok(v.to_string()),
            None => Ok("/etc/vigil/vigil.toml".to_string()),
        },
    }
}

/// The directories that the scanner needs, in the order in which they are
/// made.
pub open spec fn needed_directories(config: GlobalConfig) -> Seq<Text> {
    let base = seq![
        config.service_dir@,
        config.target_dir@,
        config.log_dir@,
        config.runtime_dir@,
        joined(config.runtime_dir@, "supervise"@),
    ];
    match parent_of(config.control_socket@) {
        Some(dir) => base.push(dir),
        None => base,
    }
}

pub fn ensure_directories(config: &GlobalConfig) -> (r: Vec<String>)
    ensures
        texts(r@) == needed_directories(*config),
{
    let mut out: Vec<String> = Vec::new();
    out.push(config.service_dir.clone());
    out.push(config.target_dir.clone());
    out.push(config.log_dir.clone());
    out.push(config.runtime_dir.clone());
    out.push(join(config.runtime_dir.as_str(), "supervise"));
    match parent(config.control_socket.as_str()) {
        Some(dir) => out.push(dir),
        None => {},
    }
    assert(texts(out@) =~= needed_directories(*config));
    out
}

/// The status directory of a service.
pub open spec fn status_dir_of(runtime_dir: Text, name: Text) -> Text {
    joined(joined(joined(runtime_dir, "supervise"@), name), "status"@)
}

/// Whether a status file says that the service was alive when its supervisor
/// went away. One that cannot be read does not say otherwise.
pub open spec fn was_live(state_file: Option<Text>) -> bool {
    match state_file {
        Some(t) => {
            let s = trimmed(t);
            s != "terminated"@ && s != "failed"@ && s != "stopped"@
        },
        None => true,
    }
}

/// Judges the contents of a `state` file, if it could be read.
pub fn supervisor_was_live(state_file: Option<&str>) -> (r: bool)
    ensures
        r == was_live(
            match state_file {
                Some(t) => Some(t@),
                None => None,
            },
        ),
{
    match state_file {
        Some(t) => {
            let s = trim(t);
            !same(s.as_str(), "terminated") && !same(s.as_str(), "failed") && !same(
                s.as_str(),
                "stopped",
            )
        },
        None => true,
    }
}

/// The number in a `pid` or `restarts` file, if it could be read and holds
/// one.
pub fn read_status_number(file: Option<&str>) -> (r: Option<u32>)
    ensures
        match file {
            Some(t) => match r {
                Some(n) => in_range(unsigned_value(trimmed(t@)), 0, u32::MAX as int) == Some(
                    n as int,
                ),
                None => in_range(unsigned_value(trimmed(t@)), 0, u32::MAX as int) is None,
            },
            None => r is None,
        },
{
    match file {
        Some(t) => {
            let s = trim(t);
            parse_u32(s.as_str())
        },
        None => None,
    }
}

// ---------------------------------------------------------------------------
// The dependency graph of the services
// ---------------------------------------------------------------------------

/// The graph with the dependencies of one service.
pub open spec fn with_deps(g: GraphModel, from: Text, deps: Seq<Dep>) -> GraphModel
    decreases deps.len(),
{
    if deps.len() == 0 {
        g
    } else {
        let d = deps.last();
        with_dependency(
            with_deps(g, from, deps.drop_last()),
            from,
            d.service,
            d.kind,
            d.required,
        )
    }
}

/// The graph with the dependencies of several services.
pub open spec fn with_units(g: GraphModel, us: Seq<Unit>) -> GraphModel
    decreases us.len(),
{
    if us.len() == 0 {
        g
    } else {
        with_deps(with_units(g, us.drop_last()), us.last().name, us.last().deps)
    }
}

/// The graph of the names alone.
pub open spec fn names_graph(us: Seq<Unit>) -> GraphModel
    decreases us.len(),
{
    if us.len() == 0 {
        GraphModel::empty()
    } else {
        let g = names_graph(us.drop_last());
        GraphModel { services: inserted(g.services, us.last().name), ..g }
    }
}

/// The dependency graph of the services.
pub open spec fn graph_of(us: Seq<Unit>) -> GraphModel {
    with_units(names_graph(us), us)
}

fn build_graph(services: &Vec<ServiceState>) -> (r: DepGraph)
    ensures
        r@ == graph_of(units(services@)),
{
    let ghost us = units(services@);
    let mut graph = DepGraph::new();
    let mut i: usize = 0;
    assert(us.take(0) =~= Seq::<Unit>::empty());
    while i < services.len()
        invariant
            i <= services@.len(),
            us == units(services@),
            graph@ == names_graph(us.take(i as int)),
        decreases services@.len() - i,
    {
        assert(us.take(i + 1).drop_last() =~= us.take(i as int));
        assert(us.take(i + 1).last() == unit_of(services@[i as int]));
        graph.add_service(services[i].name.clone());
        i += 1;
    }
    assert(us.take(i as int) =~= us);
    let ghost g0 = graph@;
    let mut k: usize = 0;
    while k < services.len()
        invariant
            k <= services@.len(),
            us == units(services@),
            graph@ == with_units(g0, us.take(k as int)),
        decreases services@.len() - k,
    {
        assert(us.take(k + 1).drop_last() =~= us.take(k as int));
        assert(us.take(k + 1).last() == unit_of(services@[k as int]));
        let deps = &services[k].config.dependencies;
        let ghost ds = us[k as int].deps;
        let ghost g1 = graph@;
        let mut j: usize = 0;
        assert(ds.take(0) =~= Seq::<Dep>::empty());
        while j < deps.len()
            invariant
                j <= deps@.len(),
                k < services@.len(),
                deps@ == services@[k as int].config.dependencies@,
                ds == unit_of(services@[k as int]).deps,
                graph@ == with_deps(g1, services@[k as int].name@, ds.take(j as int)),
            decreases deps@.len() - j,
        {
            assert(ds.take(j + 1).drop_last() =~= ds.take(j as int));
            assert(ds.take(j + 1).last() == dep_of(deps@[j as int]));
            graph.add_dependency(services[k].name.as_str(), &deps[j]);
            j += 1;
        }
        assert(ds.take(j as int) =~= ds);
        k += 1;
    }
    assert(us.take(k as int) =~= us);
    graph
}

// ---------------------------------------------------------------------------
// Orders
// ---------------------------------------------------------------------------

/// Whether `order` is the order of the services: the least start order, or
/// where there is none, as they were loaded.
pub open spec fn is_service_order(g: GraphModel, names: Seq<Text>, order: Seq<Text>) -> bool {
    ||| g.is_start_order(names, order) && g.picks_least(names, order)
    ||| order == names && forall|o: Seq<Text>| !#[trigger] g.is_start_order(names, o)
}

/// Those of the names that are to be kept, in order.
pub open spec fn kept(order: Seq<Text>, keep: spec_fn(Text) -> bool) -> Seq<Text>
    decreases order.len(),
{
    if order.len() == 0 {
        Seq::empty()
    } else {
        let before = kept(order.drop_last(), keep);
        if keep(order.last()) {
            before.push(order.last())
        } else {
            before
        }
    }
}

/// Those of the names that are enabled services.
pub open spec fn enabled_of(order: Seq<Text>, services: Seq<ServiceState>) -> Seq<Text> {
    kept(order, |n: Text| find(services, n) matches Some(i) && services[i].enabled)
}

/// Those of the names that are services up or coming up.
pub open spec fn up_of(order: Seq<Text>, services: Seq<ServiceState>) -> Seq<Text> {
    kept(order, |n: Text| find(services, n) matches Some(i) && services[i].state.is_up())
}

/// The services in an order, and whether their dependencies run in a circle.
fn service_order(services: &Vec<ServiceState>, graph: &DepGraph) -> (r: (Vec<String>, bool))
    ensures
        is_service_order(graph@, names_of(services@), texts(r.0@)),
        r.1 <==> forall|o: Seq<Text>| !#[trigger] graph@.is_start_order(names_of(services@), o),
{
    let names = all_names(services);
    match graph.resolve_order(names.as_slice()) {
        Ok(order) => (order, false),
        Err(_) => (names, true),
    }
}

fn reversed(v: &Vec<String>) -> (r: Vec<String>)
    ensures
        texts(r@) == texts(v@).reverse(),
{
    let mut out: Vec<String> = Vec::new();
    let mut i: usize = v.len();
    let ghost all = texts(v@);
    while i > 0
        invariant
            i <= v@.len(),
            all == texts(v@),
            texts(out@) == all.reverse().take(v@.len() - i),
        decreases i,
    {
        let ghost before = texts(out@);
        out.push(v[i - 1].clone());
        assert(texts(out@) =~= before.push(v@[i - 1]@));
        assert(all.reverse().take(v@.len() - (i - 1)) =~= before.push(all[i - 1]));
        i -= 1;
    }
    assert(all.reverse().take(v@.len() as int) =~= all.reverse());
    out
}

/// Whether a name is in a list.
fn is_in(names: &Vec<String>, name: &str) -> (r: bool)
    ensures
        r == texts(names@).contains(name@),
{
    position(names, name).is_some()
}

// ---------------------------------------------------------------------------
// The scanner
// ---------------------------------------------------------------------------

/// The order in which services start.
#[derive(Debug, Clone, PartialEq, Eq)]
pub struct StartOrder {
    pub names: Vec<String>,
    /// Whether the dependencies run in a circle, so that the services start as
    /// they were loaded.
    pub cycle: bool,
}

/// What the start of a service asks for.
#[derive(Debug, PartialEq, Eq)]
pub enum StartPlan {
    /// There is no such service.
    Unknown(String),
    /// It is up already.
    AlreadyUp,
    /// Make the directories, then run the supervisor with these arguments, or
    /// fail for this reason.
    Spawn { dirs: Vec<String>, argv: Result<Vec<String>, String> },
}

/// What the stop of a service asks for.
#[derive(Debug, Clone, PartialEq, Eq)]
pub enum StopPlan {
    /// There is no such service.
    Unknown(String),
    /// It is down already.
    AlreadyDown,
    /// It has no supervisor to stop.
    Unsupervised,
    /// Stop the supervisor, allow it so many milliseconds, then record the
    /// stop in the status directory.
    Terminate { pid: u32, grace: u64, status_dir: String },
}

/// What the end of a supervisor leads to.
#[derive(Debug, Clone, Copy, PartialEq, Eq, Structural)]
pub struct Reaped {
    /// The supervisor is to be started again.
    pub respawn: bool,
    /// A required service has given up.
    pub gave_up: bool,
}

/// What a reload asks for, in this order.
#[derive(Debug, Clone, PartialEq, Eq)]
pub struct ReloadPlan {
    /// The supervisors of removed services, to be terminated.
    pub terminate: Vec<u32>,
    /// Services to stop: they run, but are no longer enabled.
    pub stop: Vec<String>,
    /// Services to start: they are new and enabled.
    pub start: Vec<String>,
    /// Why the reload failed, if it did.
    pub error: Option<String>,
}

/// One step of a shutdown of the scanner.
#[derive(Debug, Clone, PartialEq, Eq)]
pub enum ShutdownStep {
    /// Stop the service.
    Stop(String),
    /// Remove the control socket.
    RemoveSocket(String),
    /// Send PID 1 the signal.
    Notify(NamedSignal),
}

/// What a step of a shutdown says.
pub enum ShutdownModel {
    Stop(Text),
    RemoveSocket(Text),
    Notify(NamedSignal),
}

impl View for ShutdownStep {
    type V = ShutdownModel;

    open spec fn view(&self) -> ShutdownModel {
        match self {
            ShutdownStep::Stop(name) => ShutdownModel::Stop(name@),
            ShutdownStep::RemoveSocket(path) => ShutdownModel::RemoveSocket(path@),
            ShutdownStep::Notify(signal) => ShutdownModel::Notify(*signal),
        }
    }
}

pub open spec fn shutdown_steps(v: Seq<ShutdownStep>) -> Seq<ShutdownModel> {
    v.map_values(|s: ShutdownStep| s@)
}

/// The steps of a shutdown: the services stop, the control socket goes, and
/// last PID 1 is told what was asked for, if anything was.
pub open spec fn farewell_steps(
    stops: Seq<Text>,
    socket: Text,
    farewell: Option<NamedSignal>,
) -> Seq<ShutdownModel> {
    let down = stops.map_values(|n: Text| ShutdownModel::Stop(n)).push(
        ShutdownModel::RemoveSocket(socket),
    );
    match farewell {
        Some(signal) => down.push(ShutdownModel::Notify(signal)),
        None => down,
    }
}

/// What a signal to the scanner asks for.
#[derive(Debug, Clone, Copy, PartialEq, Eq, Structural)]
pub enum LoopAction {
    Reap,
    ShutDown,
    Reload,
    Nothing,
}

/// What a control request asks for before it can be answered.
#[derive(Debug, Clone, PartialEq, Eq)]
pub enum RequestPlan {
    /// Nothing: this is the answer.
    Answer(Response),
    /// Read the `pid` file of every service, then call `list_reply`.
    List,
    /// Read the `pid` and `restarts` files, then call `status_reply`.
    Status(String),
    Start(String),
    Stop(String),
    Restart(String),
    /// Read the last lines of the file.
    ReadLog { service: String, path: String, lines: usize },
    Reload,
}

/// The restarts that count against a service.
pub open spec fn counted_restarts(s: ServiceState, now: u64) -> u32 {
    if s.last_respawn matches Some(t) && now - t < RESPAWN_COOLDOWN_MS {
        s.restart_count
    } else {
        0
    }
}

/// Whether a service whose supervisor went away gets another one.
pub open spec fn gets_respawn(s: ServiceState, live: bool, now: u64) -> bool {
    s.enabled && live && counted_restarts(s, now) < s.config.service.restart.max_restarts
}

/// The service after its supervisor went away.
pub open spec fn after_exit(s: ServiceState, live: bool, now: u64) -> ServiceState {
    ServiceState {
        state: RunState::Stopped,
        supervisor_pid: None,
        restart_count: if gets_respawn(s, live, now) {
            (counted_restarts(s, now) + 1) as u32
        } else {
            0
        },
        last_respawn: if gets_respawn(s, live, now) {
            Some(now)
        } else {
            s.last_respawn
        },
        ..s
    }
}

/// The service after its supervisor was started.
pub open spec fn as_started(s: ServiceState, pid: u32, now: u64) -> ServiceState {
    ServiceState {
        state: RunState::Running,
        supervisor_pid: Some(pid),
        start_time: Some(now),
        ..s
    }
}

/// The service after its supervisor was stopped.
pub open spec fn as_stopped(s: ServiceState) -> ServiceState {
    ServiceState { state: RunState::Stopped, supervisor_pid: None, start_time: None, ..s }
}

/// The service as the target has it.
pub open spec fn as_enabled(s: ServiceState, enabled: bool) -> ServiceState {
    ServiceState { enabled, ..s }
}

/// Those of the units that the target requires.
pub open spec fn required_names(t: Option<Target>, all: Seq<Unit>, us: Seq<Unit>) -> Seq<Text>
    decreases us.len(),
{
    if us.len() == 0 {
        Seq::empty()
    } else {
        let before = required_names(t, all, us.drop_last());
        if is_required(t, all, us.last().name) {
            before.push(us.last().name)
        } else {
            before
        }
    }
}

/// The services as a target has them.
pub open spec fn targeted(
    services: Seq<ServiceState>,
    t: Option<Target>,
    g: GraphModel,
) -> Seq<ServiceState> {
    services.map_values(
        |s: ServiceState| as_enabled(s, is_enabled(t, units(services), g, s.name@)),
    )
}

/// A service that was loaded anew, with the books of the running service of
/// the same name.
pub open spec fn carried_over(s: ServiceState, old: Seq<ServiceState>) -> ServiceState {
    match find(old, s.name@) {
        Some(i) => if old[i].state is Running {
            ServiceState {
                state: RunState::Running,
                supervisor_pid: old[i].supervisor_pid,
                restart_count: old[i].restart_count,
                start_time: old[i].start_time,
                last_respawn: old[i].last_respawn,
                ..s
            }
        } else {
            s
        },
        None => s,
    }
}

/// The supervisors of those services that are not among the names.
pub open spec fn orphans(old: Seq<ServiceState>, names: Seq<Text>) -> Seq<u32>
    decreases old.len(),
{
    if old.len() == 0 {
        Seq::empty()
    } else {
        let before = orphans(old.drop_last(), names);
        match old.last().supervisor_pid {
            Some(pid) => if names.contains(old.last().name@) {
                before
            } else {
                before.push(pid)
            },
            None => before,
        }
    }
}

/// Those of the services that run but are not enabled.
pub open spec fn to_stop(services: Seq<ServiceState>) -> Seq<Text>
    decreases services.len(),
{
    if services.len() == 0 {
        Seq::empty()
    } else {
        let before = to_stop(services.drop_last());
        let s = services.last();
        if s.state is Running && !s.enabled {
            before.push(s.name@)
        } else {
            before
        }
    }
}

/// Those of the services that are enabled and were not there before.
pub open spec fn to_start(services: Seq<ServiceState>, old: Seq<ServiceState>) -> Seq<Text>
    decreases services.len(),
{
    if services.len() == 0 {
        Seq::empty()
    } else {
        let before = to_start(services.drop_last(), old);
        let s = services.last();
        if s.enabled && find(old, s.name@) is None {
            before.push(s.name@)
        } else {
            before
        }
    }
}

/// The line of a service in the list.
pub open spec fn info_of(s: ServiceState, pid: Option<u32>) -> Info {
    Info {
        name: s.name@,
        state: s.state.text(),
        pid,
        description: s.config.service.description@,
    }
}

/// The log file of a service, if it has one: `current` in the log directory
/// for `pipe` logging, the configured file for `file` logging.
pub open spec fn log_file_of(s: ServiceState, log_dir: Text) -> Option<Text> {
    let standard = joined(joined(log_dir, s.name@), "current"@);
    match s.config.logging.kind {
        LogType::Pipe => Some(
            match s.config.logging.path {
                Some(p) => joined(p@, "current"@),
                None => standard,
            },
        ),
        LogType::File => Some(
            match s.config.logging.path {
                Some(p) => p@,
                None => standard,
            },
        ),
        LogType::Syslog | LogType::NoLog => None,
    }
}

/// What a service started at some time has been up, in seconds.
pub open spec fn uptime(start: Option<u64>, now: u64) -> u64 {
    match start {
        Some(t) => if now >= t {
            ((now - t) / 1000) as u64
        } else {
            0
        },
        None => 0,
    }
}

/// The outcome of something that can fail.
pub open spec fn outcome(r: Result<(), String>) -> Result<(), Text> {
    match r {
        Ok(_) => Ok(()),
        Err(m) => Err(m@),
    }
}

/// The signal that PID 1 takes for a shutdown action.
pub open spec fn farewell_of(action: ShutdownAction) -> NamedSignal {
    match action {
        ShutdownAction::Poweroff => NamedSignal::Usr2,
        ShutdownAction::Reboot => NamedSignal::Term,
        ShutdownAction::Halt => NamedSignal::Usr1,
    }
}

impl Scanner {
    /// Whether no two services have the same name.
    pub open spec fn well_formed(&self) -> bool {
        distinct_names(units(self.services@))
    }

    /// A scanner without services.
    pub fn new(config: GlobalConfig) -> (r: Self)
        ensures
            r.well_formed(),
            r.config == config,
            r.services@.len() == 0,
            r.dep_graph@ == GraphModel::empty(),
            r.required_services@.len() == 0,
            !r.degraded,
            !r.marked,
            r.running,
            r.farewell is None,
    {
        Scanner {
            config,
            services: Vec::new(),
            dep_graph: DepGraph::new(),
            required_services: Vec::new(),
            degraded: false,
            marked: false,
            running: true,
            farewell: None,
        }
    }

    /// Builds the dependency graph of the services, and says which services
    /// require one that does not exist.
    pub fn build_dep_graph(&mut self) -> (r: Vec<(String, String)>)
        ensures
            final(self).dep_graph@ == graph_of(units(old(self).services@)),
            *final(self) == (Scanner { dep_graph: final(self).dep_graph, ..*old(self) }),
            pairs(r@) == missing_pairs(
                graph_of(units(old(self).services@)).required,
                names_of(old(self).services@),
            ),
    {
        let graph = build_graph(&self.services);
        let names = all_names(&self.services);
        let missing = graph.get_missing_required(&names);
        self.dep_graph = graph;
        missing
    }

    /// Applies a boot target: `None` where its file does not exist. Starts
    /// from a clean slate: what an earlier target left degraded is forgotten.
    pub fn apply_target(&mut self, target: Option<&TargetConfig>)
        requires
            old(self).well_formed(),
        ensures
            final(self).well_formed(),
            final(self).services@ == targeted(
                old(self).services@,
                target_view(target),
                old(self).dep_graph@,
            ),
            texts(final(self).required_services@) == required_names(
                target_view(target),
                units(old(self).services@),
                units(old(self).services@),
            ),
            final(self).degraded == lacks_required(target_view(target), units(old(self).services@)),
            !final(self).marked,
            *final(self) == (Scanner {
                services: final(self).services,
                required_services: final(self).required_services,
                degraded: final(self).degraded,
                marked: false,
                ..*old(self)
            }),
    {
        let ghost start = self.services@;
        let ghost us = units(start);
        let ghost t = target_view(target);
        let resolution = resolve_target(target, &self.services, &self.dep_graph);
        let mut required: Vec<String> = Vec::new();
        let mut i: usize = 0;
        let n = self.services.len();
        assert(us.take(0) =~= Seq::<Unit>::empty());
        while i < n
            invariant
                i <= n,
                n == start.len(),
                us == units(start),
                self.services@.len() == n,
                *self == (Scanner { services: self.services, ..*old(self) }),
                resolution.enabled@.len() == n,
                resolution.required@.len() == n,
                forall|j: int|
                    0 <= j < n ==> #[trigger] resolution.enabled@[j] == is_enabled(
                        t,
                        us,
                        old(self).dep_graph@,
                        start[j].name@,
                    ),
                forall|j: int|
                    0 <= j < n ==> #[trigger] resolution.required@[j] == is_required(
                        t,
                        us,
                        start[j].name@,
                    ),
                forall|j: int| i <= j < n ==> #[trigger] self.services@[j] == start[j],
                forall|j: int|
                    0 <= j < i ==> #[trigger] self.services@[j] == as_enabled(
                        start[j],
                        is_enabled(t, us, old(self).dep_graph@, start[j].name@),
                    ),
                texts(required@) == required_names(t, us, us.take(i as int)),
            decreases n - i,
        {
            assert(us.take(i + 1).drop_last() =~= us.take(i as int));
            assert(us.take(i + 1).last() == unit_of(start[i as int]));
            self.services[i].enabled = resolution.enabled[i];
            if resolution.required[i] {
                let ghost before = texts(required@);
                required.push(self.services[i].name.clone());
                assert(texts(required@) =~= before.push(start[i as int].name@));
            }
            i += 1;
        }
        assert(us.take(n as int) =~= us);
        assert(self.services@ =~= targeted(start, t, old(self).dep_graph@));
        assert(units(self.services@) =~= us);
        self.required_services = required;
        self.degraded = resolution.degraded;
        self.marked = false;
    }

    /// The services to start, in order. Where the dependencies run in a
    /// circle, all enabled services start as they were loaded.
    pub fn start_order(&self) -> (r: StartOrder)
        ensures
            exists|order: Seq<Text>|
                is_service_order(self.dep_graph@, names_of(self.services@), order) && texts(
                    r.names@,
                ) == #[trigger] enabled_of(order, self.services@),
            r.cycle <==> forall|o: Seq<Text>| !#[trigger]
                self.dep_graph@.is_start_order(names_of(self.services@), o),
    {
        let (order, cycle) = service_order(&self.services, &self.dep_graph);
        let ghost all = texts(order@);
        let mut out: Vec<String> = Vec::new();
        let mut i: usize = 0;
        assert(all.take(0) =~= Seq::<Text>::empty());
        while i < order.len()
            invariant
                i <= order@.len(),
                all == texts(order@),
                texts(out@) == enabled_of(all.take(i as int), self.services@),
            decreases order@.len() - i,
        {
            assert(all.take(i + 1).drop_last() =~= all.take(i as int));
            assert(all.take(i + 1).last() == order@[i as int]@);
            match locate(&self.services, order[i].as_str()) {
                Some(k) => {
                    if self.services[k].enabled {
                        let ghost before = texts(out@);
                        out.push(order[i].clone());
                        assert(texts(out@) =~= before.push(order@[i as int]@));
                    }
                },
                None => {},
            }
            i += 1;
        }
        assert(all.take(i as int) =~= all);
        StartOrder { names: out, cycle }
    }

    /// The services to stop at shutdown: those that are up, in the reverse of
    /// their start order.
    pub fn shutdown_order(&self) -> (r: Vec<String>)
        ensures
            exists|order: Seq<Text>|
                is_service_order(self.dep_graph@, names_of(self.services@), order) && texts(r@)
                    == #[trigger] up_of(order.reverse(), self.services@),
    {
        let (forward, _cycle) = service_order(&self.services, &self.dep_graph);
        let order = reversed(&forward);
        let ghost all = texts(order@);
        let mut out: Vec<String> = Vec::new();
        let mut i: usize = 0;
        assert(all.take(0) =~= Seq::<Text>::empty());
        while i < order.len()
            invariant
                i <= order@.len(),
                all == texts(order@),
                texts(out@) == up_of(all.take(i as int), self.services@),
            decreases order@.len() - i,
        {
            assert(all.take(i + 1).drop_last() =~= all.take(i as int));
            assert(all.take(i + 1).last() == order@[i as int]@);
            match locate(&self.services, order[i].as_str()) {
                Some(k) => {
                    if self.services[k].state.up() {
                        let ghost before = texts(out@);
                        out.push(order[i].clone());
                        assert(texts(out@) =~= before.push(order@[i as int]@));
                    }
                },
                None => {},
            }
            i += 1;
        }
        assert(all.take(i as int) =~= all);
        assert(texts(out@) == up_of(texts(forward@).reverse(), self.services@));
        out
    }

    /// The steps of a shutdown, in order.
    pub fn shutdown_plan(&self) -> (r: Vec<ShutdownStep>)
        ensures
            exists|order: Seq<Text>|
                is_service_order(self.dep_graph@, names_of(self.services@), order)
                    && shutdown_steps(r@) == farewell_steps(
                    #[trigger] up_of(order.reverse(), self.services@),
                    self.config.control_socket@,
                    self.farewell,
                ),
    {
        let names = self.shutdown_order();
        let ghost stops = texts(names@).map_values(|n: Text| ShutdownModel::Stop(n));
        let mut steps: Vec<ShutdownStep> = Vec::new();
        let mut i: usize = 0;
        assert(shutdown_steps(steps@) =~= stops.take(0));
        while i < names.len()
            invariant
                i <= names@.len(),
                stops == texts(names@).map_values(|n: Text| ShutdownModel::Stop(n)),
                shutdown_steps(steps@) == stops.take(i as int),
            decreases names@.len() - i,
        {
            let ghost before = shutdown_steps(steps@);
            steps.push(ShutdownStep::Stop(names[i].clone()));
            assert(stops[i as int] == ShutdownModel::Stop(names@[i as int]@));
            assert(shutdown_steps(steps@) =~= before.push(stops[i as int]));
            assert(stops.take(i + 1) =~= before.push(stops[i as int]));
            i += 1;
        }
        assert(stops.take(i as int) =~= stops);
        steps.push(ShutdownStep::RemoveSocket(self.config.control_socket.clone()));
        let ghost down = stops.push(ShutdownModel::RemoveSocket(self.config.control_socket@));
        assert(shutdown_steps(steps@) =~= down);
        match self.farewell {
            Some(signal) => {
                steps.push(ShutdownStep::Notify(signal));
                assert(shutdown_steps(steps@) =~= down.push(ShutdownModel::Notify(signal)));
            },
            None => {},
        }
        assert(shutdown_steps(steps@) == farewell_steps(
            texts(names@),
            self.config.control_socket@,
            self.farewell,
        ));
        steps
    }
}

// ---------------------------------------------------------------------------
// Loading, starting and stopping
// ---------------------------------------------------------------------------

/// Adds a service that was just loaded; one of the same name is replaced.
pub fn insert_service(services: &mut Vec<ServiceState>, state: ServiceState)
    requires
        distinct_names(units(old(services)@)),
    ensures
        distinct_names(units(final(services)@)),
        final(services)@ == match find(old(services)@, state.name@) {
            Some(i) => old(services)@.update(i, state),
            None => old(services)@.push(state),
        },
{
    let ghost start = services@;
    proof {
        lemma_find(start, state.name@);
    }
    match locate(services, state.name.as_str()) {
        Some(i) => {
            services.set(i, state);
        },
        None => {
            services.push(state);
        },
    }
    assert forall|i: int, j: int|
        0 <= i < units(services@).len() && 0 <= j < units(services@).len()
            && #[trigger] units(services@)[i].name == #[trigger] units(services@)[j].name implies i
        == j by {
        assert(units(services@)[i].name == services@[i].name@);
        assert(units(services@)[j].name == services@[j].name@);
        if i < start.len() && j < start.len() {
            assert(units(start)[i].name == start[i].name@);
            assert(units(start)[j].name == start[j].name@);
        }
    }
}

/// The arguments of the supervisor of a service.
pub open spec fn supervisor_argv(config: GlobalConfig, s: ServiceState) -> Seq<Text> {
    seq![
        "vigil-supervise"@,
        s.name@,
        s.config_path@,
        config.log_dir@,
        joined(config.runtime_dir@, "supervise"@),
    ]
}

/// What keeps a supervisor from being run: the first of its arguments that
/// holds a NUL.
pub open spec fn argv_problem(config: GlobalConfig, s: ServiceState) -> Option<Text> {
    if s.name@.contains('\0') {
        Some(nul_message("service name"@))
    } else if s.config_path@.contains('\0') {
        Some(nul_message("config path"@))
    } else if config.log_dir@.contains('\0') {
        Some(nul_message("log dir"@))
    } else if joined(config.runtime_dir@, "supervise"@).contains('\0') {
        Some(nul_message("supervise dir"@))
    } else {
        None
    }
}

/// The next turn in waiting for a supervisor to stop.
pub fn await_stop(alive: bool, elapsed: u64, grace: u64) -> (r: TeardownStep)
    ensures
        r == if !alive {
            TeardownStep::Done
        } else if elapsed >= grace {
            TeardownStep::Kill
        } else {
            TeardownStep::Sleep
        },
{
    if !alive {
        TeardownStep::Done
    } else if elapsed >= grace {
        TeardownStep::Kill
    } else {
        TeardownStep::Sleep
    }
}

impl Scanner {
    /// What the start of a service asks for.
    pub fn start_service(&self, name: &str) -> (r: StartPlan)
        ensures
            match find(self.services@, name@) {
                None => r matches StartPlan::Unknown(m) && m@ == not_found(name@),
                Some(i) => {
                    let s = self.services@[i];
                    if s.state.is_up() {
                        r is AlreadyUp
                    } else {
                        r matches StartPlan::Spawn { dirs, argv } && {
                            &&& texts(dirs@) == seq![
                                joined(joined(self.config.runtime_dir@, "supervise"@), name@),
                                status_dir_of(self.config.runtime_dir@, name@),
                            ]
                            &&& match argv {
                                Ok(v) => argv_problem(self.config, s) is None && texts(v@)
                                    == supervisor_argv(self.config, s),
                                Err(m) => argv_problem(self.config, s) == Some(m@),
                            }
                        }
                    }
                },
            },
    {
        let i = match locate(&self.services, name) {
            Some(i) => i,
            None => {
                return StartPlan::Unknown(not_found_message(name));
            },
        };
        let s = &self.services[i];
        if s.state.up() {
            return StartPlan::AlreadyUp;
        }
        let supervise = join(self.config.runtime_dir.as_str(), "supervise");
        let own = join(supervise.as_str(), name);
        let status = join(own.as_str(), "status");
        let mut dirs: Vec<String> = Vec::new();
        dirs.push(own);
        dirs.push(status);
        assert(texts(dirs@) =~= seq![
            joined(joined(self.config.runtime_dir@, "supervise"@), name@),
            status_dir_of(self.config.runtime_dir@, name@),
        ]);
        let argv = self.checked_argv(i, supervise.as_str());
        StartPlan::Spawn { dirs, argv }
    }

    fn checked_argv(&self, i: usize, supervise: &str) -> (r: Result<Vec<String>, String>)
        requires
            i < self.services@.len(),
            supervise@ == joined(self.config.runtime_dir@, "supervise"@),
        ensures
            match r {
                Ok(v) => argv_problem(self.config, self.services@[i as int]) is None && texts(v@)
                    == supervisor_argv(self.config, self.services@[i as int]),
                Err(m) => argv_problem(self.config, self.services@[i as int]) == Some(m@),
            },
    {
        let s = &self.services[i];
        let name = match to_cstring(s.name.as_str(), "service name") {
            Ok(t) => t,
            Err(m) => {
                return Err(m);
            },
        };
        let config_path = match to_cstring(s.config_path.as_str(), "config path") {
            Ok(t) => t,
            Err(m) => {
                return Err(m);
            },
        };
        let log_dir = match to_cstring(self.config.log_dir.as_str(), "log dir") {
            Ok(t) => t,
            Err(m) => {
                return Err(m);
            },
        };
        let supervise_dir = match to_cstring(supervise, "supervise dir") {
            Ok(t) => t,
            Err(m) => {
                return Err(m);
            },
        };
        let mut argv: Vec<String> = Vec::new();
        argv.push("vigil-supervise".to_string());
        argv.push(name);
        argv.push(config_path);
        argv.push(log_dir);
        argv.push(supervise_dir);
        assert(texts(argv@) =~= supervisor_argv(self.config, self.services@[i as int]));
        Ok(argv)
    }

    /// Takes note of a supervisor that was started.
    pub fn started(&mut self, name: &str, pid: u32, now: u64)
        ensures
            final(self).services@ == match find(old(self).services@, name@) {
                Some(i) => old(self).services@.update(
                    i,
                    as_started(old(self).services@[i], pid, now),
                ),
                None => old(self).services@,
            },
            *final(self) == (Scanner { services: final(self).services, ..*old(self) }),
    {
        match locate(&self.services, name) {
            Some(i) => {
                self.services[i].state = RunState::Running;
                self.services[i].supervisor_pid = Some(pid);
                self.services[i].start_time = Some(now);
            },
            None => {},
        }
    }

    /// What the stop of a service asks for.
    pub fn stop_service(&self, name: &str) -> (r: StopPlan)
        ensures
            match find(self.services@, name@) {
                None => r matches StopPlan::Unknown(m) && m@ == not_found(name@),
                Some(i) => {
                    let s = self.services@[i];
                    if !s.state.is_up() {
                        r is AlreadyDown
                    } else {
                        match s.supervisor_pid {
                            None => r is Unsupervised,
                            Some(p) => r matches StopPlan::Terminate { pid, grace, status_dir } && {
                                &&& pid == p
                                &&& grace == stop_grace(s.config.service.shutdown.timeout_ms)
                                &&& status_dir@ == status_dir_of(self.config.runtime_dir@, name@)
                            },
                        }
                    }
                },
            },
    {
        match locate(&self.services, name) {
            None => StopPlan::Unknown(not_found_message(name)),
            Some(i) => {
                let s = &self.services[i];
                if !s.state.up() {
                    return StopPlan::AlreadyDown;
                }
                match s.supervisor_pid {
                    None => StopPlan::Unsupervised,
                    Some(pid) => StopPlan::Terminate {
                        pid,
                        grace: s.config.service.shutdown.timeout_ms.saturating_add(STOP_MARGIN_MS),
                        status_dir: self.status_dir(name),
                    },
                }
            },
        }
    }

    /// Takes note of a service whose supervisor was stopped.
    pub fn stopped(&mut self, name: &str)
        ensures
            final(self).services@ == match find(old(self).services@, name@) {
                Some(i) => old(self).services@.update(i, as_stopped(old(self).services@[i])),
                None => old(self).services@,
            },
            *final(self) == (Scanner { services: final(self).services, ..*old(self) }),
    {
        match locate(&self.services, name) {
            Some(i) => {
                self.services[i].state = RunState::Stopped;
                self.services[i].supervisor_pid = None;
                self.services[i].start_time = None;
            },
            None => {},
        }
    }

    /// The status directory of a service.
    pub fn status_dir(&self, name: &str) -> (r: String)
        ensures
            r@ == status_dir_of(self.config.runtime_dir@, name@),
    {
        let supervise = join(self.config.runtime_dir.as_str(), "supervise");
        let own = join(supervise.as_str(), name);
        join(own.as_str(), "status")
    }

    /// The file of the boot target.
    pub fn target_path(&self, target_name: &str) -> (r: String)
        ensures
            r@ == joined(self.config.target_dir@, target_name@ + ".toml"@),
    {
        let file = target_name.to_string().concat(".toml");
        join(self.config.target_dir.as_str(), file.as_str())
    }

    // -----------------------------------------------------------------------
    // The ends of supervisors
    // -----------------------------------------------------------------------

    /// The service whose supervisor is the given process.
    pub fn supervised_by(&self, pid: u32) -> (r: Option<usize>)
        ensures
            match r {
                Some(i) => {
                    &&& i < self.services@.len()
                    &&& self.services@[i as int].supervisor_pid == Some(pid)
                    &&& forall|j: int|
                        0 <= j < i ==> (#[trigger] self.services@[j]).supervisor_pid != Some(pid)
                },
                None => forall|j: int|
                    0 <= j < self.services@.len() ==> (
                    #[trigger] self.services@[j]).supervisor_pid != Some(pid),
            },
    {
        let mut i: usize = 0;
        while i < self.services.len()
            invariant
                i <= self.services@.len(),
                forall|j: int|
                    0 <= j < i ==> (#[trigger] self.services@[j]).supervisor_pid != Some(pid),
            decreases self.services@.len() - i,
        {
            match self.services[i].supervisor_pid {
                Some(p) => {
                    if p == pid {
                        return Some(i);
                    }
                },
                None => {},
            }
            i += 1;
        }
        None
    }

    /// Takes note of the end of a service's supervisor; `live` where the
    /// service was alive with it. It is respawned while the service is enabled
    /// and within its restart budget; otherwise a required service has given
    /// up.
    pub fn supervisor_exited(&mut self, i: usize, live: bool, now: u64) -> (r: Reaped)
        requires
            i < old(self).services@.len(),
        ensures
            ({
                let s = old(self).services@[i as int];
                &&& r.respawn == gets_respawn(s, live, now)
                &&& r.gave_up == (s.enabled && !r.respawn && texts(
                    old(self).required_services@,
                ).contains(s.name@))
                &&& final(self).services@ == old(self).services@.update(
                    i as int,
                    after_exit(s, live, now),
                )
                &&& *final(self) == (Scanner { services: final(self).services, ..*old(self) })
            }),
    {
        let enabled = self.services[i].enabled;
        let required = is_in(&self.required_services, self.services[i].name.as_str());
        let counted = match self.services[i].last_respawn {
            Some(t) => if now.saturating_sub(t) < RESPAWN_COOLDOWN_MS {
                self.services[i].restart_count
            } else {
                0
            },
            None => 0,
        };
        let max = self.services[i].config.service.restart.max_restarts;
        let respawn = enabled && live && counted < max;
        self.services[i].supervisor_pid = None;
        self.services[i].state = RunState::Stopped;
        if respawn {
            self.services[i].restart_count = counted + 1;
            self.services[i].last_respawn = Some(now);
        } else {
            self.services[i].restart_count = 0;
        }
        Reaped { respawn, gave_up: enabled && required && !respawn }
    }

    /// Takes note of a supervisor that could not be respawned.
    pub fn respawn_failed(&mut self, i: usize)
        requires
            i < old(self).services@.len(),
        ensures
            final(self).services@ == old(self).services@.update(
                i as int,
                ServiceState { restart_count: 0, ..old(self).services@[i as int] },
            ),
            *final(self) == (Scanner { services: final(self).services, ..*old(self) }),
    {
        self.services[i].restart_count = 0;
    }

    /// Mark the boot as degraded: a service that is required by the active
    /// target has given up. Returns what `<runtime>/degraded` is to hold, the
    /// first time.
    pub fn mark_degraded(&mut self, name: &str) -> (r: Option<String>)
        ensures
            match r {
                Some(text) => !old(self).marked && text@ == name@ + "\n"@,
                None => old(self).marked,
            },
            *final(self) == (Scanner { degraded: true, marked: true, ..*old(self) }),
    {
        self.degraded = true;
        if self.marked {
            return None;
        }
        self.marked = true;
        Some(name.to_string().concat("\n"))
    }

    // -----------------------------------------------------------------------
    // Reload and signals
    // -----------------------------------------------------------------------

    /// Reloads the configuration. `loaded` are the services as they are now
    /// read from their files, `target` the boot target (`None` where its file
    /// does not exist) or why it cannot be read. The supervisors of services
    /// that run on stay in the books.
    pub fn reload_services(
        &mut self,
        loaded: Vec<ServiceState>,
        target: Result<Option<&TargetConfig>, String>,
    ) -> (r: ReloadPlan)
        requires
            distinct_names(units(loaded@)),
        ensures
            final(self).well_formed(),
            final(self).dep_graph@ == graph_of(units(loaded@)),
            r.terminate@ == orphans(old(self).services@, names_of(loaded@)),
            match target {
                Err(m) => {
                    &&& r.error matches Some(e) && e@ == m@
                    &&& r.stop@.len() == 0
                    &&& r.start@.len() == 0
                    &&& final(self).services@ == loaded@
                    &&& *final(self) == (Scanner {
                        services: final(self).services,
                        dep_graph: final(self).dep_graph,
                        ..*old(self)
                    })
                },
                Ok(t) => {
                    &&& r.error is None
                    &&& final(self).services@ == targeted(
                        loaded@,
                        target_view(t),
                        graph_of(units(loaded@)),
                    ).map_values(|s: ServiceState| carried_over(s, old(self).services@))
                    &&& texts(r.stop@) == to_stop(final(self).services@)
                    &&& texts(r.start@) == to_start(final(self).services@, old(self).services@)
                    &&& forall|i: int|
                        0 <= i < final(self).services@.len() ==> (texts(r.start@).contains(
                            (#[trigger] final(self).services@[i]).name@,
                        ) <==> final(self).services@[i].enabled && forall|j: int|
                            0 <= j < old(self).services@.len() ==> (
                            #[trigger] old(self).services@[j]).name@
                                != final(self).services@[i].name@)
                    &&& texts(r.start@).no_duplicates()
                    &&& forall|i: int|
                        0 <= i < final(self).services@.len() ==> (texts(r.stop@).contains(
                            (#[trigger] final(self).services@[i]).name@,
                        ) <==> final(self).services@[i].state is Running
                            && !final(self).services@[i].enabled)
                    &&& texts(r.stop@).no_duplicates()
                    &&& texts(final(self).required_services@) == required_names(
                        target_view(t),
                        units(loaded@),
                        units(loaded@),
                    )
                    &&& final(self).degraded == lacks_required(target_view(t), units(loaded@))
                    &&& *final(self) == (Scanner {
                        services: final(self).services,
                        dep_graph: final(self).dep_graph,
                        required_services: final(self).required_services,
                        degraded: final(self).degraded,
                        marked: false,
                        ..*old(self)
                    })
                },
            },
    {
        let mut old_services: Vec<ServiceState> = loaded;
        std::mem::swap(&mut old_services, &mut self.services);
        let ghost fresh = self.services@;
        let names = all_names(&self.services);
        let terminate = orphan_pids(&old_services, &names);
        self.dep_graph = build_graph(&self.services);
        let target = match target {
            Ok(t) => t,
            Err(m) => {
                return ReloadPlan {
                    terminate,
                    stop: Vec::new(),
                    start: Vec::new(),
                    error: Some(m),
                };
            },
        };
        self.apply_target(target);
        let ghost aimed = self.services@;
        self.carry_over(&old_services);
        proof {
            lemma_carried_names(aimed, old_services@);
            assert(units(self.services@) =~= units(aimed));
            new_services_are_started(self.services@, old_services@);
            disabled_services_are_stopped(self.services@);
        }
        let stop = self.disabled_running();
        let start = self.newly_enabled(&old_services);
        ReloadPlan { terminate, stop, start, error: None }
    }

    /// Restores the books of the services that were running.
    fn carry_over(&mut self, old_services: &Vec<ServiceState>)
        ensures
            final(self).services@ == old(self).services@.map_values(
                |s: ServiceState| carried_over(s, old_services@),
            ),
            *final(self) == (Scanner { services: final(self).services, ..*old(self) }),
    {
        let ghost start = self.services@;
        let n = self.services.len();
        let mut i: usize = 0;
        while i < n
            invariant
                i <= n,
                n == start.len(),
                self.services@.len() == n,
                *self == (Scanner { services: self.services, ..*old(self) }),
                forall|j: int| i <= j < n ==> #[trigger] self.services@[j] == start[j],
                forall|j: int|
                    0 <= j < i ==> #[trigger] self.services@[j] == carried_over(
                        start[j],
                        old_services@,
                    ),
            decreases n - i,
        {
            match locate(old_services, self.services[i].name.as_str()) {
                Some(k) => {
                    let running = match old_services[k].state {
                        RunState::Running => true,
                        _ => false,
                    };
                    if running {
                        self.services[i].state = RunState::Running;
                        self.services[i].supervisor_pid = old_services[k].supervisor_pid;
                        self.services[i].restart_count = old_services[k].restart_count;
                        self.services[i].start_time = old_services[k].start_time;
                        self.services[i].last_respawn = old_services[k].last_respawn;
                    }
                },
                None => {},
            }
            i += 1;
        }
        assert(self.services@ =~= start.map_values(
            |s: ServiceState| carried_over(s, old_services@),
        ));
    }

    fn disabled_running(&self) -> (r: Vec<String>)
        ensures
            texts(r@) == to_stop(self.services@),
    {
        let mut out: Vec<String> = Vec::new();
        let mut i: usize = 0;
        assert(self.services@.take(0) =~= Seq::<ServiceState>::empty());
        assert(texts(out@) =~= Seq::<Text>::empty());
        while i < self.services.len()
            invariant
                i <= self.services@.len(),
                texts(out@) == to_stop(self.services@.take(i as int)),
            decreases self.services@.len() - i,
        {
            assert(self.services@.take(i + 1).drop_last() =~= self.services@.take(i as int));
            assert(self.services@.take(i + 1).last() == self.services@[i as int]);
            let running = match self.services[i].state {
                RunState::Running => true,
                _ => false,
            };
            if running && !self.services[i].enabled {
                let ghost before = texts(out@);
                out.push(self.services[i].name.clone());
                assert(texts(out@) =~= before.push(self.services@[i as int].name@));
            }
            i += 1;
        }
        assert(self.services@.take(i as int) =~= self.services@);
        out
    }

    fn newly_enabled(&self, old_services: &Vec<ServiceState>) -> (r: Vec<String>)
        ensures
            texts(r@) == to_start(self.services@, old_services@),
    {
        let mut out: Vec<String> = Vec::new();
        let mut i: usize = 0;
        assert(self.services@.take(0) =~= Seq::<ServiceState>::empty());
        assert(texts(out@) =~= Seq::<Text>::empty());
        while i < self.services.len()
            invariant
                i <= self.services@.len(),
                texts(out@) == to_start(self.services@.take(i as int), old_services@),
            decreases self.services@.len() - i,
        {
            assert(self.services@.take(i + 1).drop_last() =~= self.services@.take(i as int));
            assert(self.services@.take(i + 1).last() == self.services@[i as int]);
            if self.services[i].enabled && locate(
                old_services,
                self.services[i].name.as_str(),
            ).is_none() {
                let ghost before = texts(out@);
                out.push(self.services[i].name.clone());
                assert(texts(out@) =~= before.push(self.services@[i as int].name@));
            }
            i += 1;
        }
        assert(self.services@.take(i as int) =~= self.services@);
        out
    }

    /// Takes a signal to the scanner.
    pub fn loop_signal(&mut self, signal: NamedSignal) -> (r: LoopAction)
        ensures
            r == match signal {
                NamedSignal::Chld => LoopAction::Reap,
                NamedSignal::Term | NamedSignal::Int => LoopAction::ShutDown,
                NamedSignal::Hup => LoopAction::Reload,
                _ => LoopAction::Nothing,
            },
            *final(self) == (Scanner {
                running: old(self).running && !(r is ShutDown),
                ..*old(self)
            }),
    {
        match signal {
            NamedSignal::Chld => LoopAction::Reap,
            NamedSignal::Term | NamedSignal::Int => {
                self.running = false;
                LoopAction::ShutDown
            },
            NamedSignal::Hup => LoopAction::Reload,
            _ => LoopAction::Nothing,
        }
    }

    // -----------------------------------------------------------------------
    // Control requests
    // -----------------------------------------------------------------------

    /// The on-disk log file of a service, by its logging kind. Syslog and
    /// unlogged services have none.
    pub fn log_file_for(&self, name: &str) -> (r: Option<String>)
        ensures
            match find(self.services@, name@) {
                Some(i) => match r {
                    Some(p) => log_file_of(self.services@[i], self.config.log_dir@) == Some(p@),
                    None => log_file_of(self.services@[i], self.config.log_dir@) is None,
                },
                None => r is None,
            },
    {
        match locate(&self.services, name) {
            None => None,
            Some(i) => {
                let logging = &self.services[i].config.logging;
                match logging.kind {
                    LogType::Pipe => match &logging.path {
                        Some(p) => Some(join(p.as_str(), "current")),
                        None => Some(self.standard_log(name)),
                    },
                    LogType::File => match &logging.path {
                        Some(p) => Some(p.clone()),
                        None => Some(self.standard_log(name)),
                    },
                    LogType::Syslog | LogType::NoLog => None,
                }
            },
        }
    }

    fn standard_log(&self, name: &str) -> (r: String)
        ensures
            r@ == joined(joined(self.config.log_dir@, name@), "current"@),
    {
        let dir = join(self.config.log_dir.as_str(), name);
        join(dir.as_str(), "current")
    }

    /// Takes a control request: says what it asks for, or its answer. A
    /// deliberate start or restart resets the crash budget of the service; a
    /// shutdown ends the scanner.
    pub fn process_request(&mut self, request: Request) -> (r: RequestPlan)
        ensures
            ({
                let services = old(self).services@;
                match request {
                    Request::Ping => r matches RequestPlan::Answer(a) && a@ == Reply::Pong,
                    Request::List => r is List,
                    Request::Status { service: None } => r is List,
                    Request::Status { service: Some(name) } => answers_or(
                        services,
                        name@,
                        r,
                        r matches RequestPlan::Status(n) && n@ == name@,
                    ),
                    Request::Start { service } => answers_or(
                        services,
                        service@,
                        r,
                        r matches RequestPlan::Start(n) && n@ == service@,
                    ),
                    Request::Stop { service } => answers_or(
                        services,
                        service@,
                        r,
                        r matches RequestPlan::Stop(n) && n@ == service@,
                    ),
                    Request::Restart { service } => answers_or(
                        services,
                        service@,
                        r,
                        r matches RequestPlan::Restart(n) && n@ == service@,
                    ),
                    Request::Log { service, lines } => match service_log(
                        services,
                        service@,
                        old(self).config.log_dir@,
                    ) {
                        Some(file) => r matches RequestPlan::ReadLog { service: n, path, lines: l }
                            && n@ == service@ && path@ == file && l == lines,
                        None => r matches RequestPlan::Answer(a) && a@ == Reply::Error(
                            "service '"@ + service@
                                + "' has no log file (logging.kind is syslog/none)"@,
                        ),
                    },
                    Request::Reload => r is Reload,
                    Request::Shutdown { action } => r matches RequestPlan::Answer(a) && a@
                        == Reply::Done("shutdown initiated: "@ + action.text()),
                }
            }),
            final(self).services@ == match request {
                Request::Start { service } => with_fresh_budget(old(self).services@, service@),
                Request::Restart { service } => with_fresh_budget(old(self).services@, service@),
                _ => old(self).services@,
            },
            *final(self) == (Scanner {
                services: final(self).services,
                running: old(self).running && !(request is Shutdown),
                farewell: match request {
                    Request::Shutdown { action } => Some(farewell_of(action)),
                    _ => old(self).farewell,
                },
                ..*old(self)
            }),
    {
        match request {
            Request::Ping => RequestPlan::Answer(Response::Pong),
            Request::List => RequestPlan::List,
            Request::Status { service } => match service {
                None => RequestPlan::List,
                Some(name) => if locate(&self.services, name.as_str()).is_some() {
                    RequestPlan::Status(name)
                } else {
                    no_such_service(name.as_str())
                },
            },
            Request::Start { service } => {
                if self.reset_budget(service.as_str()) {
                    RequestPlan::Start(service)
                } else {
                    no_such_service(service.as_str())
                }
            },
            Request::Stop { service } => {
                if locate(&self.services, service.as_str()).is_some() {
                    RequestPlan::Stop(service)
                } else {
                    no_such_service(service.as_str())
                }
            },
            Request::Restart { service } => {
                if self.reset_budget(service.as_str()) {
                    RequestPlan::Restart(service)
                } else {
                    no_such_service(service.as_str())
                }
            },
            Request::Log { service, lines } => match self.log_file_for(service.as_str()) {
                Some(path) => RequestPlan::ReadLog { service, path, lines },
                None => RequestPlan::Answer(
                    Response::Error {
                        message: "service '".to_string().concat(service.as_str()).concat(
                            "' has no log file (logging.kind is syslog/none)",
                        ),
                    },
                ),
            },
            Request::Reload => RequestPlan::Reload,
            Request::Shutdown { action } => {
                self.running = false;
                self.farewell = Some(
                    match action {
                        ShutdownAction::Poweroff => NamedSignal::Usr2,
                        ShutdownAction::Reboot => NamedSignal::Term,
                        ShutdownAction::Halt => NamedSignal::Usr1,
                    },
                );
                RequestPlan::Answer(
                    Response::Done {
                        message: "shutdown initiated: ".to_string().concat(action.as_str()),
                    },
                )
            },
        }
    }

    /// Forgets the restarts of a service; says whether there is one.
    fn reset_budget(&mut self, name: &str) -> (r: bool)
        ensures
            r == find(old(self).services@, name@) is Some,
            final(self).services@ == with_fresh_budget(old(self).services@, name@),
            *final(self) == (Scanner { services: final(self).services, ..*old(self) }),
    {
        match locate(&self.services, name) {
            Some(i) => {
                self.services[i].restart_count = 0;
                true
            },
            None => false,
        }
    }

    /// The list of all services; `pids` are their processes, in order.
    pub fn list_reply(&self, pids: &Vec<Option<u32>>) -> (r: Response)
        requires
            pids@.len() == self.services@.len(),
        ensures
            r@ == Reply::List(
                Seq::new(
                    self.services@.len(),
                    |i: int| info_of(self.services@[i], pids@[i]),
                ),
            ),
    {
        let ghost want = Seq::new(
            self.services@.len(),
            |i: int| info_of(self.services@[i], pids@[i]),
        );
        let mut out: Vec<ServiceInfo> = Vec::new();
        let mut i: usize = 0;
        while i < self.services.len()
            invariant
                i <= self.services@.len(),
                pids@.len() == self.services@.len(),
                want == Seq::new(
                    self.services@.len(),
                    |i: int| info_of(self.services@[i], pids@[i]),
                ),
                infos(out@) == want.take(i as int),
            decreases self.services@.len() - i,
        {
            let ghost before = infos(out@);
            let s = &self.services[i];
            let info = ServiceInfo {
                name: s.name.clone(),
                state: s.state.as_str().to_string(),
                pid: pids[i],
                description: s.config.service.description.clone(),
            };
            assert(info@ == want[i as int]);
            out.push(info);
            assert(infos(out@) =~= before.push(want[i as int]));
            assert(want.take(i + 1) =~= before.push(want[i as int]));
            i += 1;
        }
        assert(want.take(i as int) =~= want);
        Response::List(out)
    }

    /// The status of one service; `pid` is its process, `restarts` what its
    /// supervisor has recorded.
    pub fn status_reply(
        &self,
        name: &str,
        pid: Option<u32>,
        restarts: Option<u32>,
        now: u64,
    ) -> (r: Response)
        ensures
            r@ == match find(self.services@, name@) {
                Some(i) => {
                    let s = self.services@[i];
                    Reply::Status(
                        Status {
                            name: name@,
                            state: s.state.text(),
                            pid,
                            uptime_secs: uptime(s.start_time, now),
                            restart_count: match restarts {
                                Some(n) => n,
                                None => s.restart_count,
                            },
                            description: s.config.service.description@,
                            command: s.config.service.command@,
                        },
                    )
                },
                None => Reply::Error(not_found(name@)),
            },
    {
        match locate(&self.services, name) {
            Some(i) => {
                let s = &self.services[i];
                let uptime_secs = match s.start_time {
                    Some(t) => now.saturating_sub(t) / 1000,
                    None => 0,
                };
                Response::Status(
                    ServiceStatus {
                        name: name.to_string(),
                        state: s.state.as_str().to_string(),
                        pid,
                        uptime_secs,
                        restart_count: match restarts {
                            Some(n) => n,
                            None => s.restart_count,
                        },
                        description: s.config.service.description.clone(),
                        command: s.config.service.command.clone(),
                    },
                )
            },
            None => Response::Error { message: not_found_message(name) },
        }
    }
}

/// How long the supervisor of a service may take to stop.
pub open spec fn stop_grace(timeout_ms: u64) -> u64 {
    if timeout_ms + STOP_MARGIN_MS <= u64::MAX {
        (timeout_ms + STOP_MARGIN_MS) as u64
    } else {
        u64::MAX
    }
}

/// The services, one of them without restarts against it.
pub open spec fn with_fresh_budget(services: Seq<ServiceState>, name: Text) -> Seq<ServiceState> {
    match find(services, name) {
        Some(i) => services.update(i, ServiceState { restart_count: 0, ..services[i] }),
        None => services,
    }
}

/// The log file of the service with the given name, if there is one.
pub open spec fn service_log(services: Seq<ServiceState>, name: Text, log_dir: Text) -> Option<
    Text,
> {
    match find(services, name) {
        Some(i) => log_file_of(services[i], log_dir),
        None => None,
    }
}

/// Whether a request about a service is planned as `planned` says, or answered
/// with an error where there is no such service.
pub open spec fn answers_or(
    services: Seq<ServiceState>,
    name: Text,
    plan: RequestPlan,
    planned: bool,
) -> bool {
    match find(services, name) {
        Some(_) => planned,
        None => plan matches RequestPlan::Answer(a) && a@ == Reply::Error(not_found(name)),
    }
}

fn no_such_service(name: &str) -> (r: RequestPlan)
    ensures
        r matches RequestPlan::Answer(a) && a@ == Reply::Error(not_found(name@)),
{
    RequestPlan::Answer(Response::Error { message: not_found_message(name) })
}

fn orphan_pids(old_services: &Vec<ServiceState>, names: &Vec<String>) -> (r: Vec<u32>)
    ensures
        r@ == orphans(old_services@, texts(names@)),
{
    let mut out: Vec<u32> = Vec::new();
    let mut i: usize = 0;
    assert(old_services@.take(0) =~= Seq::<ServiceState>::empty());
    while i < old_services.len()
        invariant
            i <= old_services@.len(),
            out@ == orphans(old_services@.take(i as int), texts(names@)),
        decreases old_services@.len() - i,
    {
        assert(old_services@.take(i + 1).drop_last() =~= old_services@.take(i as int));
        assert(old_services@.take(i + 1).last() == old_services@[i as int]);
        match old_services[i].supervisor_pid {
            Some(pid) => {
                if !is_in(names, old_services[i].name.as_str()) {
                    out.push(pid);
                }
            },
            None => {},
        }
        i += 1;
    }
    assert(old_services@.take(i as int) =~= old_services@);
    out
}

proof fn lemma_carried_names(services: Seq<ServiceState>, old: Seq<ServiceState>)
    ensures
        forall|i: int|
            0 <= i < services.len() ==> unit_of(carried_over(#[trigger] services[i], old))
                == unit_of(services[i]),
{
}

// ---------------------------------------------------------------------------
// Answers
// ---------------------------------------------------------------------------

/// The answer to a start request.
pub fn start_reply(service: &str, result: Result<(), String>) -> (r: Response)
    ensures
        r@ == match outcome(result) {
            Ok(_) => Reply::Done("service '"@ + service@ + "' started"@),
            Err(e) => Reply::Error("failed to start '"@ + service@ + "': "@ + e),
        },
{
    match result {
        Ok(_) => Response::Done {
            message: "service '".to_string().concat(service).concat("' started"),
        },
        Err(e) => Response::Error {
            message: "failed to start '".to_string().concat(service).concat("': ").concat(
                e.as_str(),
            ),
        },
    }
}

/// The answer to a stop request.
pub fn stop_reply(service: &str, result: Result<(), String>) -> (r: Response)
    ensures
        r@ == match outcome(result) {
            Ok(_) => Reply::Done("service '"@ + service@ + "' stopped"@),
            Err(e) => Reply::Error("failed to stop '"@ + service@ + "': "@ + e),
        },
{
    match result {
        Ok(_) => Response::Done {
            message: "service '".to_string().concat(service).concat("' stopped"),
        },
        Err(e) => Response::Error {
            message: "failed to stop '".to_string().concat(service).concat("': ").concat(
                e.as_str(),
            ),
        },
    }
}

/// The answer to a restart request: `start` is what became of the start, which
/// is not tried where the stop failed.
pub fn restart_reply(
    service: &str,
    stop: Result<(), String>,
    start: Result<(), String>,
) -> (r: Response)
    ensures
        r@ == match (outcome(stop), outcome(start)) {
            (Err(e), _) => Reply::Error("failed to stop '"@ + service@ + "': "@ + e),
            (Ok(_), Ok(_)) => Reply::Done("service '"@ + service@ + "' restarted"@),
            (Ok(_), Err(e)) => Reply::Error(
                "stopped '"@ + service@ + "' but failed to restart: "@ + e,
            ),
        },
{
    match stop {
        Err(e) => Response::Error {
            message: "failed to stop '".to_string().concat(service).concat("': ").concat(
                e.as_str(),
            ),
        },
        Ok(_) => match start {
            Ok(_) => Response::Done {
                message: "service '".to_string().concat(service).concat("' restarted"),
            },
            Err(e) => Response::Error {
                message: "stopped '".to_string().concat(service).concat(
                    "' but failed to restart: ",
                ).concat(e.as_str()),
            },
        },
    }
}

/// The answer to a log request.
pub fn log_reply(service: &str, lines: Result<Vec<String>, String>) -> (r: Response)
    ensures
        r@ == match lines {
            Ok(v) => Reply::LogLines(texts(v@)),
            Err(e) => Reply::Error("failed to read logs for '"@ + service@ + "': "@ + e@),
        },
{
    match lines {
        Ok(v) => Response::LogLines(v),
        Err(e) => Response::Error {
            message: "failed to read logs for '".to_string().concat(service).concat("': ").concat(
                e.as_str(),
            ),
        },
    }
}

/// The answer to a reload request.
pub fn reload_reply(result: Result<(), String>) -> (r: Response)
    ensures
        r@ == match outcome(result) {
            Ok(_) => Reply::Done("services reloaded"@),
            Err(e) => Reply::Error("reload failed: "@ + e),
        },
{
    match result {
        Ok(_) => Response::Done { message: "services reloaded".to_string() },
        Err(e) => Response::Error {
            message: "reload failed: ".to_string().concat(e.as_str()),
        },
    }
}

/// The answer to a request that could not be read.
pub fn unreadable_reply(error: &str) -> (r: Response)
    ensures
        r@ == Reply::Error("failed to read request: "@ + error@),
{
    Response::Error { message: "failed to read request: ".to_string().concat(error) }
}

// ---------------------------------------------------------------------------
// Laws
// ---------------------------------------------------------------------------

/// Services start after those that precede them: in the list of services to
/// start, a dependency stands before its dependent.
pub proof fn dependencies_start_first(
    g: GraphModel,
    services: Seq<ServiceState>,
    order: Seq<Text>,
    i: int,
    j: int,
)
    requires
        g.is_start_order(names_of(services), order),
        0 <= i < enabled_of(order, services).len(),
        0 <= j < enabled_of(order, services).len(),
        g.precedes(enabled_of(order, services)[i], enabled_of(order, services)[j]),
    ensures
        i < j,
{
    let keep = |n: Text| find(services, n) matches Some(i) && services[i].enabled;
    let (p, q) = lemma_kept_places(order, keep, i, j);
    assert(g.precedes(order[p], order[q]));
}

/// Services stop in reverse dependency order: in the list of services to stop,
/// a dependent stands before its dependency.
pub proof fn dependents_stop_first(
    g: GraphModel,
    services: Seq<ServiceState>,
    order: Seq<Text>,
    i: int,
    j: int,
)
    requires
        g.is_start_order(names_of(services), order),
        0 <= i < up_of(order.reverse(), services).len(),
        0 <= j < up_of(order.reverse(), services).len(),
        g.precedes(up_of(order.reverse(), services)[i], up_of(order.reverse(), services)[j]),
    ensures
        j < i,
{
    let keep = |n: Text| find(services, n) matches Some(i) && services[i].state.is_up();
    let (p, q) = lemma_kept_places(order.reverse(), keep, i, j);
    let last = order.len() - 1;
    assert(order.reverse()[p] == order[last - p]);
    assert(order.reverse()[q] == order[last - q]);
    assert(g.precedes(order[last - p], order[last - q]));
}

/// Services are stopped before PID 1 is told of a shutdown: every service that
/// is up has its stop among the steps, and nothing follows the signal, which is
/// sent exactly where a shutdown was asked for.
pub proof fn services_stop_before_pid_1_is_told(
    g: GraphModel,
    services: Seq<ServiceState>,
    order: Seq<Text>,
    socket: Text,
    farewell: Option<NamedSignal>,
)
    requires
        is_service_order(g, names_of(services), order),
        distinct_names(units(services)),
    ensures
        ({
            let steps = farewell_steps(up_of(order.reverse(), services), socket, farewell);
            &&& forall|i: int|
                0 <= i < services.len() && (#[trigger] services[i]).state.is_up()
                    ==> steps.contains(ShutdownModel::Stop(services[i].name@))
            &&& forall|i: int|
                0 <= i < steps.len() && (#[trigger] steps[i] is Notify) ==> i == steps.len() - 1
            &&& forall|s: NamedSignal| #[trigger]
                steps.contains(ShutdownModel::Notify(s)) <==> farewell == Some(s)
        }),
{
    let keep = |n: Text| find(services, n) matches Some(i) && services[i].state.is_up();
    let stops = up_of(order.reverse(), services);
    let steps = farewell_steps(stops, socket, farewell);
    assert forall|i: int|
        0 <= i < services.len() && (#[trigger] services[i]).state.is_up() implies steps.contains(
        ShutdownModel::Stop(services[i].name@),
    ) by {
        let name = services[i].name@;
        assert(names_of(services)[i] == name);
        assert(names_of(services).contains(name));
        assert(order.contains(name));
        let p = choose|p: int| 0 <= p < order.len() && order[p] == name;
        assert(order.reverse()[order.len() - 1 - p] == name);
        lemma_find(services, name);
        let k = find(services, name)->0;
        assert(units(services)[k].name == units(services)[i].name);
        assert(keep(name));
        lemma_kept_contains(order.reverse(), keep, name);
        let q = choose|q: int| 0 <= q < stops.len() && stops[q] == name;
        assert(steps[q] == ShutdownModel::Stop(name));
    }
    assert forall|s: NamedSignal| #[trigger]
        steps.contains(ShutdownModel::Notify(s)) <==> farewell == Some(s) by {
        if farewell == Some(s) {
            assert(steps[steps.len() - 1] == ShutdownModel::Notify(s));
        }
    }
}

/// A name that is to be kept is kept.
proof fn lemma_kept_contains(order: Seq<Text>, keep: spec_fn(Text) -> bool, name: Text)
    requires
        order.contains(name),
        keep(name),
    ensures
        kept(order, keep).contains(name),
    decreases order.len(),
{
    let before = kept(order.drop_last(), keep);
    if order.last() == name {
        assert(kept(order, keep)[before.len() as int] == name);
    } else {
        let p = choose|p: int| 0 <= p < order.len() && order[p] == name;
        assert(order.drop_last()[p] == name);
        lemma_kept_contains(order.drop_last(), keep, name);
        let q = choose|q: int| 0 <= q < before.len() && before[q] == name;
        assert(kept(order, keep)[q] == name);
    }
}

/// Where two kept names stand in the order from which they were kept: in the
/// same order.
proof fn lemma_kept_places(order: Seq<Text>, keep: spec_fn(Text) -> bool, i: int, j: int) -> (r: (
    int,
    int,
))
    requires
        0 <= i < kept(order, keep).len(),
        0 <= j < kept(order, keep).len(),
    ensures
        0 <= r.0 < order.len(),
        0 <= r.1 < order.len(),
        order[r.0] == kept(order, keep)[i],
        order[r.1] == kept(order, keep)[j],
        i < j ==> r.0 < r.1,
        i > j ==> r.0 > r.1,
        i == j ==> r.0 == r.1,
    decreases order.len(),
{
    let init = order.drop_last();
    let before = kept(init, keep);
    if i < before.len() && j < before.len() {
        lemma_kept_places(init, keep, i, j)
    } else if i < before.len() {
        let (p, _) = lemma_kept_places(init, keep, i, i);
        (p, order.len() - 1)
    } else if j < before.len() {
        let (q, _) = lemma_kept_places(init, keep, j, j);
        (order.len() - 1, q)
    } else {
        (order.len() - 1, order.len() - 1)
    }
}

/// A valid service name leads to a path directly inside the directory that it
/// is joined to.
pub proof fn valid_names_stay_inside(dir: Text, name: Text)
    requires
        valid_service_name(name),
        dir.len() > 0,
        dir.last() != '/',
        crate::path::without_idle(dir, crate::path::body_start(dir)) == dir,
    ensures
        !name.contains('/'),
        parent_of(joined(dir, name)) == Some(dir),
{
    if name.contains('/') {
        let i = choose|i: int| 0 <= i < name.len() && name[i] == '/';
        assert(is_name_char(name[i]));
    }
    crate::path::parent_undoes_join(dir, name);
}

/// A respawn is never refused because of restarts that lie further back than
/// the cooldown.
pub proof fn old_restarts_do_not_count(s: ServiceState, now: u64)
    requires
        s.enabled,
        s.config.service.restart.max_restarts > 0,
        s.last_respawn matches Some(t) ==> now - t >= RESPAWN_COOLDOWN_MS,
    ensures
        gets_respawn(s, true, now),
        after_exit(s, true, now).restart_count == 1,
{
}

/// The restarts against a service never exceed its ceiling.
pub proof fn respawns_stay_below_the_ceiling(s: ServiceState, live: bool, now: u64)
    ensures
        after_exit(s, live, now).restart_count <= s.config.service.restart.max_restarts,
{
}

/// A running service that is still configured and enabled lives through a
/// reload: it is neither stopped nor started, and its supervisor stays in the
/// books.
pub proof fn running_services_survive_reload(
    fresh: Seq<ServiceState>,
    old: Seq<ServiceState>,
    i: int,
    k: int,
)
    requires
        distinct_names(units(fresh)),
        0 <= i < fresh.len(),
        fresh[i].enabled,
        find(old, fresh[i].name@) == Some(k),
        old[k].state is Running,
    ensures
        ({
            let after = fresh.map_values(|s: ServiceState| carried_over(s, old));
            &&& after[i].state is Running
            &&& after[i].supervisor_pid == old[k].supervisor_pid
            &&& after[i].restart_count == old[k].restart_count
            &&& after[i].start_time == old[k].start_time
            &&& after[i].last_respawn == old[k].last_respawn
            &&& !to_stop(after).contains(fresh[i].name@)
            &&& !to_start(after, old).contains(fresh[i].name@)
        }),
{
    let after = fresh.map_values(|s: ServiceState| carried_over(s, old));
    let name = fresh[i].name@;
    if to_stop(after).contains(name) {
        lemma_to_stop(after, name);
        let j = choose|j: int|
            0 <= j < after.len() && (#[trigger] after[j]).name@ == name && !after[j].enabled;
        assert(units(fresh)[j].name == units(fresh)[i].name);
    }
    if to_start(after, old).contains(name) {
        lemma_to_start(after, old, name);
    }
}

proof fn lemma_to_stop(services: Seq<ServiceState>, name: Text)
    requires
        to_stop(services).contains(name),
    ensures
        exists|j: int|
            0 <= j < services.len() && (#[trigger] services[j]).name@ == name
                && !services[j].enabled,
    decreases services.len(),
{
    if services.len() > 0 {
        let init = services.drop_last();
        let s = services.last();
        if s.state is Running && !s.enabled && s.name@ == name {
            assert(services[services.len() - 1] == s);
        } else {
            let k = choose|k: int| 0 <= k < to_stop(services).len() && to_stop(services)[k] == name;
            assert(k < to_stop(init).len());
            assert(to_stop(init)[k] == name);
            lemma_to_stop(init, name);
            let j = choose|j: int|
                0 <= j < init.len() && (#[trigger] init[j]).name@ == name && !init[j].enabled;
            assert(services[j] == init[j]);
        }
    }
}

proof fn lemma_to_start(services: Seq<ServiceState>, old: Seq<ServiceState>, name: Text)
    requires
        to_start(services, old).contains(name),
    ensures
        find(old, name) is None,
    decreases services.len(),
{
    if services.len() > 0 {
        let init = services.drop_last();
        let s = services.last();
        if s.name@ != name || !s.enabled || find(old, s.name@) is Some {
            let k = choose|k: int|
                0 <= k < to_start(services, old).len() && to_start(services, old)[k] == name;
            assert(k < to_start(init, old).len());
            assert(to_start(init, old)[k] == name);
            lemma_to_start(init, old, name);
        }
    }
}

/// No supervisor is forgotten by a reload: that of a service which is no
/// longer configured is terminated.
pub proof fn removed_services_are_terminated(
    old: Seq<ServiceState>,
    names: Seq<Text>,
    k: int,
    pid: u32,
)
    requires
        0 <= k < old.len(),
        old[k].supervisor_pid == Some(pid),
        !names.contains(old[k].name@),
    ensures
        orphans(old, names).contains(pid),
    decreases old.len(),
{
    let init = old.drop_last();
    let before = orphans(init, names);
    if k == old.len() - 1 {
        assert(orphans(old, names)[before.len() as int] == pid);
    } else {
        assert(init[k] == old[k]);
        removed_services_are_terminated(init, names, k, pid);
        let i = choose|i: int| 0 <= i < before.len() && before[i] == pid;
        assert(orphans(old, names)[i] == pid);
    }
}

/// The scanner understands what a supervisor records: it reads a service as
/// alive exactly where its supervisor still had something to do for it.
pub proof fn recorded_states_are_understood(state: RecordedState)
    ensures
        was_live(Some(state.text() + "\n"@)) == state.is_live(),
{
    reveal_strlit("starting");
    reveal_strlit("running");
    reveal_strlit("restarting");
    reveal_strlit("stopped");
    reveal_strlit("terminated");
    reveal_strlit("failed");
    lemma_trimmed_line(state.text());
    assert("running"@[0] != "stopped"@[0]);
    assert("restarting"@[0] != "terminated"@[0]);
}

/// A supervisor that ended by its own decision is not respawned: only one that
/// died before it could finish gets a second chance.
pub proof fn decided_ends_are_final(s: ServiceState, decision: RestartDecision, now: u64)
    requires
        !(decision is Restart),
    ensures
        !gets_respawn(s, was_live(Some(decision.record().text() + "\n"@)), now),
{
    recorded_states_are_understood(decision.record());
}

/// A supervisor that dies while its service is up or coming up is respawned,
/// within the budget of an enabled service.
pub proof fn crashed_supervisors_get_a_second_chance(
    s: ServiceState,
    state: RecordedState,
    now: u64,
)
    requires
        state.is_live(),
        s.enabled,
        counted_restarts(s, now) < s.config.service.restart.max_restarts,
    ensures
        gets_respawn(s, was_live(Some(state.text() + "\n"@)), now),
{
    recorded_states_are_understood(state);
}

/// The numbers that a supervisor records are read back.
pub proof fn status_numbers_read_back(n: u32)
    ensures
        in_range(unsigned_value(trimmed(decimal(n as nat))), 0, u32::MAX as int) == Some(n as int),
{
    decimal_reads_back(n as nat);
}

/// A log request reads the file that the log writer of the service writes:
/// `current` in its directory for `pipe` logging, its file for `file` logging.
pub proof fn logs_are_read_where_they_are_written(s: ServiceState, log_dir: Text)
    ensures
        log_file_of(s, log_dir) == match s.config.logging.kind {
            LogType::Pipe => Some(
                joined(log_base(s.config.logging, log_dir, s.name@), "current"@),
            ),
            LogType::File => Some(log_file(s.config.logging, log_dir, s.name@)),
            LogType::Syslog | LogType::NoLog => None,
        },
{
}

/// A supervisor learns from its command line what the scanner put there.
pub proof fn supervisors_learn_their_service(
    config: GlobalConfig,
    s: ServiceState,
    args: SuperviseArgs,
)
    requires
        says_to_supervisor(supervisor_argv(config, s), args),
    ensures
        args.service_name@ == s.name@,
        args.config_path@ == s.config_path@,
        args.log_dir@ == config.log_dir@,
        joined(joined(args.supervise_dir@, s.name@), "status"@) == status_dir_of(
            config.runtime_dir@,
            s.name@,
        ),
{
}

/// The graph of the services holds what their files say: `a` has to precede
/// `b` exactly where `b` is after `a` or `a` is before `b`, and a wish is
/// recorded exactly where one is made.
pub proof fn graph_holds_declared_dependencies(us: Seq<Unit>, a: Text, b: Text)
    ensures
        graph_of(us).after.contains((a, b)) <==> exists|d: Dep| #[trigger]
            crate::target::lists(us, a, d) && d.service == b && d.kind is After,
        graph_of(us).before.contains((a, b)) <==> exists|d: Dep| #[trigger]
            crate::target::lists(us, a, d) && d.service == b && d.kind is Before,
        graph_of(us).wants.contains((a, b)) <==> exists|d: Dep| #[trigger]
            crate::target::lists(us, a, d) && d.service == b && d.kind is Wants,
        graph_of(us).required.contains((a, b)) <==> exists|d: Dep| #[trigger]
            crate::target::lists(us, a, d) && d.service == b && d.required,
{
    lemma_names_graph(us);
    lemma_with_units(names_graph(us), us, a, b);
}

proof fn lemma_names_graph(us: Seq<Unit>)
    ensures
        names_graph(us).after.len() == 0,
        names_graph(us).before.len() == 0,
        names_graph(us).wants.len() == 0,
        names_graph(us).required.len() == 0,
    decreases us.len(),
{
    if us.len() > 0 {
        lemma_names_graph(us.drop_last());
    }
}

/// Whether a list of dependencies has one of a kind.
spec fn has_dep(deps: Seq<Dep>, b: Text, pick: spec_fn(Dep) -> bool) -> bool {
    exists|k: int| 0 <= k < deps.len() && (#[trigger] deps[k]).service == b && pick(deps[k])
}

proof fn lemma_has_dep_step(deps: Seq<Dep>, b: Text, pick: spec_fn(Dep) -> bool)
    requires
        deps.len() > 0,
    ensures
        has_dep(deps, b, pick) <==> has_dep(deps.drop_last(), b, pick) || (deps.last().service == b
            && pick(deps.last())),
{
    let init = deps.drop_last();
    if has_dep(deps, b, pick) {
        let k = choose|k: int|
            0 <= k < deps.len() && (#[trigger] deps[k]).service == b && pick(deps[k]);
        if k < init.len() {
            assert(init[k] == deps[k]);
        }
    }
    if has_dep(init, b, pick) {
        let k = choose|k: int|
            0 <= k < init.len() && (#[trigger] init[k]).service == b && pick(init[k]);
        assert(deps[k] == init[k]);
    }
    if deps.last().service == b && pick(deps.last()) {
        assert(deps[deps.len() - 1] == deps.last());
    }
}

proof fn lemma_with_deps(g: GraphModel, from: Text, deps: Seq<Dep>, a: Text, b: Text)
    ensures
        with_deps(g, from, deps).after.contains((a, b)) <==> g.after.contains((a, b)) || (from == a
            && has_dep(deps, b, |d: Dep| d.kind is After)),
        with_deps(g, from, deps).before.contains((a, b)) <==> g.before.contains((a, b)) || (from
            == a && has_dep(deps, b, |d: Dep| d.kind is Before)),
        with_deps(g, from, deps).wants.contains((a, b)) <==> g.wants.contains((a, b)) || (from == a
            && has_dep(deps, b, |d: Dep| d.kind is Wants)),
        with_deps(g, from, deps).required.contains((a, b)) <==> g.required.contains((a, b)) || (from
            == a && has_dep(deps, b, |d: Dep| d.required)),
    decreases deps.len(),
{
    if deps.len() > 0 {
        let init = deps.drop_last();
        let d = deps.last();
        let h = with_deps(g, from, init);
        lemma_with_deps(g, from, init, a, b);
        lemma_has_dep_step(deps, b, |d: Dep| d.kind is After);
        lemma_has_dep_step(deps, b, |d: Dep| d.kind is Before);
        lemma_has_dep_step(deps, b, |d: Dep| d.kind is Wants);
        lemma_has_dep_step(deps, b, |d: Dep| d.required);
        lemma_push_contains(h.after, (from, d.service), (a, b));
        lemma_push_contains(h.before, (from, d.service), (a, b));
        lemma_push_contains(h.wants, (from, d.service), (a, b));
        lemma_push_contains(h.required, (from, d.service), (a, b));
    }
}

/// Whether some unit called `a` has a dependency of a kind on `b`.
spec fn some_unit_has(us: Seq<Unit>, a: Text, b: Text, pick: spec_fn(Dep) -> bool) -> bool {
    exists|i: int| 0 <= i < us.len() && (#[trigger] us[i]).name == a && has_dep(us[i].deps, b, pick)
}

proof fn lemma_some_unit_step(us: Seq<Unit>, a: Text, b: Text, pick: spec_fn(Dep) -> bool)
    requires
        us.len() > 0,
    ensures
        some_unit_has(us, a, b, pick) <==> some_unit_has(us.drop_last(), a, b, pick) || (
        us.last().name == a && has_dep(us.last().deps, b, pick)),
{
    let init = us.drop_last();
    if some_unit_has(us, a, b, pick) {
        let i = choose|i: int|
            0 <= i < us.len() && (#[trigger] us[i]).name == a && has_dep(us[i].deps, b, pick);
        if i < init.len() {
            assert(init[i] == us[i]);
        }
    }
    if some_unit_has(init, a, b, pick) {
        let i = choose|i: int|
            0 <= i < init.len() && (#[trigger] init[i]).name == a && has_dep(init[i].deps, b, pick);
        assert(us[i] == init[i]);
    }
    if us.last().name == a && has_dep(us.last().deps, b, pick) {
        assert(us[us.len() - 1] == us.last());
    }
}

proof fn lemma_some_unit_lists(us: Seq<Unit>, a: Text, b: Text, pick: spec_fn(Dep) -> bool)
    ensures
        some_unit_has(us, a, b, pick) <==> exists|d: Dep| #[trigger]
            crate::target::lists(us, a, d) && d.service == b && pick(d),
{
    if some_unit_has(us, a, b, pick) {
        let i = choose|i: int|
            0 <= i < us.len() && (#[trigger] us[i]).name == a && has_dep(us[i].deps, b, pick);
        let k = choose|k: int|
            0 <= k < us[i].deps.len() && (#[trigger] us[i].deps[k]).service == b && pick(
                us[i].deps[k],
            );
        let d = us[i].deps[k];
        assert(us[i].deps.contains(d));
        assert(crate::target::lists(us, a, d));
    }
    if exists|d: Dep| #[trigger] crate::target::lists(us, a, d) && d.service == b && pick(d) {
        let d = choose|d: Dep| #[trigger]
            crate::target::lists(us, a, d) && d.service == b && pick(d);
        let i = choose|i: int|
            0 <= i < us.len() && #[trigger] us[i].name == a && us[i].deps.contains(d);
        let k = choose|k: int| 0 <= k < us[i].deps.len() && us[i].deps[k] == d;
        assert(us[i].deps[k].service == b);
        assert(has_dep(us[i].deps, b, pick));
    }
}

proof fn lemma_with_units(g: GraphModel, us: Seq<Unit>, a: Text, b: Text)
    ensures
        with_units(g, us).after.contains((a, b)) <==> g.after.contains((a, b)) || exists|d: Dep|
            #[trigger]
            crate::target::lists(us, a, d) && d.service == b && d.kind is After,
        with_units(g, us).before.contains((a, b)) <==> g.before.contains((a, b)) || exists|d: Dep|
            #[trigger]
            crate::target::lists(us, a, d) && d.service == b && d.kind is Before,
        with_units(g, us).wants.contains((a, b)) <==> g.wants.contains((a, b)) || exists|d: Dep|
            #[trigger]
            crate::target::lists(us, a, d) && d.service == b && d.kind is Wants,
        with_units(g, us).required.contains((a, b)) <==> g.required.contains((a, b)) || exists|
            d: Dep,
        | #[trigger]
            crate::target::lists(us, a, d) && d.service == b && d.required,
    decreases us.len(),
{
    let after = |d: Dep| d.kind is After;
    let before = |d: Dep| d.kind is Before;
    let wants = |d: Dep| d.kind is Wants;
    let required = |d: Dep| d.required;
    lemma_some_unit_lists(us, a, b, after);
    lemma_some_unit_lists(us, a, b, before);
    lemma_some_unit_lists(us, a, b, wants);
    lemma_some_unit_lists(us, a, b, required);
    if us.len() > 0 {
        let init = us.drop_last();
        lemma_with_units(g, init, a, b);
        lemma_some_unit_lists(init, a, b, after);
        lemma_some_unit_lists(init, a, b, before);
        lemma_some_unit_lists(init, a, b, wants);
        lemma_some_unit_lists(init, a, b, required);
        lemma_with_deps(with_units(g, init), us.last().name, us.last().deps, a, b);
        lemma_some_unit_step(us, a, b, after);
        lemma_some_unit_step(us, a, b, before);
        lemma_some_unit_step(us, a, b, wants);
        lemma_some_unit_step(us, a, b, required);
    }
}

/// Whether the books of a service are in order: it runs if and only if it has
/// a supervisor, and is stopped otherwise.
pub open spec fn in_order(s: ServiceState) -> bool {
    match s.supervisor_pid {
        Some(_) => s.state is Running,
        None => s.state is Stopped,
    }
}

/// Whether the books are in order: those of each service, and no process
/// supervises two services.
pub open spec fn books_in_order(services: Seq<ServiceState>) -> bool {
    &&& forall|i: int| 0 <= i < services.len() ==> in_order(#[trigger] services[i])
    &&& forall|i: int, j: int|
        0 <= i < services.len() && 0 <= j < services.len() && (
        #[trigger] services[i]).supervisor_pid is Some && services[i].supervisor_pid == (
        #[trigger] services[j]).supervisor_pid ==> i == j
}

/// Starting a service keeps the books in order, if its supervisor is a process
/// that supervises no other service.
pub proof fn starting_keeps_books_in_order(
    services: Seq<ServiceState>,
    i: int,
    pid: u32,
    now: u64,
)
    requires
        books_in_order(services),
        0 <= i < services.len(),
        forall|j: int|
            0 <= j < services.len() ==> (#[trigger] services[j]).supervisor_pid != Some(pid),
    ensures
        books_in_order(services.update(i, as_started(services[i], pid, now))),
{
}

/// Stopping a service, and noting the end of its supervisor, keep the books in
/// order.
pub proof fn stopping_keeps_books_in_order(
    services: Seq<ServiceState>,
    i: int,
    live: bool,
    now: u64,
)
    requires
        books_in_order(services),
        0 <= i < services.len(),
    ensures
        books_in_order(services.update(i, as_stopped(services[i]))),
        books_in_order(services.update(i, after_exit(services[i], live, now))),
        books_in_order(with_fresh_budget(services, services[i].name@)),
{
    lemma_find(services, services[i].name@);
}

/// A reload keeps the books in order.
pub proof fn reloading_keeps_books_in_order(
    fresh: Seq<ServiceState>,
    old: Seq<ServiceState>,
    t: Option<Target>,
    g: GraphModel,
)
    requires
        books_in_order(old),
        distinct_names(units(fresh)),
        forall|i: int|
            0 <= i < fresh.len() ==> (#[trigger] fresh[i]).supervisor_pid is None
                && fresh[i].state is Stopped,
    ensures
        books_in_order(targeted(fresh, t, g).map_values(|s: ServiceState| carried_over(s, old))),
{
    let after = targeted(fresh, t, g).map_values(|s: ServiceState| carried_over(s, old));
    assert forall|i: int| 0 <= i < after.len() implies in_order(#[trigger] after[i]) by {
        lemma_find(old, fresh[i].name@);
        assert(fresh[i].supervisor_pid is None);
    }
    assert forall|i: int, j: int|
        0 <= i < after.len() && 0 <= j < after.len() && (#[trigger] after[i]).supervisor_pid is Some
            && after[i].supervisor_pid == (#[trigger] after[j]).supervisor_pid implies i == j by {
        lemma_find(old, fresh[i].name@);
        lemma_find(old, fresh[j].name@);
        assert(fresh[i].supervisor_pid is None);
        assert(fresh[j].supervisor_pid is None);
        let a = find(old, fresh[i].name@)->0;
        let b = find(old, fresh[j].name@)->0;
        assert(old[a].supervisor_pid == old[b].supervisor_pid);
        assert(units(fresh)[i].name == units(fresh)[j].name);
    }
}

/// After a reload, every service that is enabled and was not there before is
/// started, once; no other service is.
pub proof fn new_services_are_started(services: Seq<ServiceState>, old: Seq<ServiceState>)
    requires
        distinct_names(units(services)),
    ensures
        forall|i: int|
            0 <= i < services.len() ==> (to_start(services, old).contains(
                (#[trigger] services[i]).name@,
            ) <==> services[i].enabled && forall|j: int|
                0 <= j < old.len() ==> (#[trigger] old[j]).name@ != services[i].name@),
        forall|n: Text| #[trigger]
            to_start(services, old).contains(n) ==> exists|i: int|
                0 <= i < services.len() && (#[trigger] services[i]).name@ == n,
        to_start(services, old).no_duplicates(),
    decreases services.len(),
{
    if services.len() > 0 {
        let init = services.drop_last();
        let s = services.last();
        let before = to_start(init, old);
        assert forall|i: int, j: int|
            0 <= i < init.len() && 0 <= j < init.len() && #[trigger] units(init)[i].name
                == #[trigger] units(init)[j].name implies i == j by {
            assert(units(services)[i].name == units(services)[j].name);
        }
        new_services_are_started(init, old);
        lemma_find(old, s.name@);
        if before.contains(s.name@) {
            let i = choose|i: int| 0 <= i < init.len() && (#[trigger] init[i]).name@ == s.name@;
            assert(units(services)[i].name == units(services)[services.len() - 1].name);
        }
        assert forall|n: Text| #[trigger] to_start(services, old).contains(n) implies exists|i: int|
            0 <= i < services.len() && (#[trigger] services[i]).name@ == n by {
            lemma_push_contains(before, s.name@, n);
            if n == s.name@ {
                assert(services[services.len() - 1].name@ == n);
            } else {
                let i = choose|i: int| 0 <= i < init.len() && (#[trigger] init[i]).name@ == n;
                assert(services[i].name@ == n);
            }
        }
        assert forall|i: int| 0 <= i < services.len() implies (to_start(services, old).contains(
            (#[trigger] services[i]).name@,
        ) <==> services[i].enabled && forall|j: int|
            0 <= j < old.len() ==> (#[trigger] old[j]).name@ != services[i].name@) by {
            lemma_push_contains(before, s.name@, services[i].name@);
            if i < init.len() {
                assert(init[i] == services[i]);
                if services[i].name@ == s.name@ {
                    assert(units(services)[i].name == units(services)[services.len() - 1].name);
                }
            }
        }
    }
}

/// After a reload, every service that runs and is no longer enabled is stopped,
/// once; no other service is.
pub proof fn disabled_services_are_stopped(services: Seq<ServiceState>)
    requires
        distinct_names(units(services)),
    ensures
        forall|i: int|
            0 <= i < services.len() ==> (to_stop(services).contains((#[trigger] services[i]).name@)
                <==> services[i].state is Running && !services[i].enabled),
        forall|n: Text| #[trigger]
            to_stop(services).contains(n) ==> exists|i: int|
                0 <= i < services.len() && (#[trigger] services[i]).name@ == n,
        to_stop(services).no_duplicates(),
    decreases services.len(),
{
    if services.len() > 0 {
        let init = services.drop_last();
        let s = services.last();
        let before = to_stop(init);
        assert forall|i: int, j: int|
            0 <= i < init.len() && 0 <= j < init.len() && #[trigger] units(init)[i].name
                == #[trigger] units(init)[j].name implies i == j by {
            assert(units(services)[i].name == units(services)[j].name);
        }
        disabled_services_are_stopped(init);
        if before.contains(s.name@) {
            let i = choose|i: int| 0 <= i < init.len() && (#[trigger] init[i]).name@ == s.name@;
            assert(units(services)[i].name == units(services)[services.len() - 1].name);
        }
        assert forall|n: Text| #[trigger] to_stop(services).contains(n) implies exists|i: int|
            0 <= i < services.len() && (#[trigger] services[i]).name@ == n by {
            lemma_push_contains(before, s.name@, n);
            if n == s.name@ {
                assert(services[services.len() - 1].name@ == n);
            } else {
                let i = choose|i: int| 0 <= i < init.len() && (#[trigger] init[i]).name@ == n;
                assert(services[i].name@ == n);
            }
        }
        assert forall|i: int| 0 <= i < services.len() implies (to_stop(services).contains(
            (#[trigger] services[i]).name@,
        ) <==> services[i].state is Running && !services[i].enabled) by {
            lemma_push_contains(before, s.name@, services[i].name@);
            if i < init.len() {
                assert(init[i] == services[i]);
                if services[i].name@ == s.name@ {
                    assert(units(services)[i].name == units(services)[services.len() - 1].name);
                }
            }
        }
    }
}

/// A reload terminates the supervisors of removed services and no others, each
/// once where the books are in order.
pub proof fn only_removed_services_are_terminated(
    old: Seq<ServiceState>,
    names: Seq<Text>,
    pid: u32,
)
    ensures
        orphans(old, names).contains(pid) <==> exists|k: int|
            0 <= k < old.len() && (#[trigger] old[k]).supervisor_pid == Some(pid)
                && !names.contains(old[k].name@),
        books_in_order(old) ==> orphans(old, names).no_duplicates(),
    decreases old.len(),
{
    if old.len() > 0 {
        let init = old.drop_last();
        let s = old.last();
        let before = orphans(init, names);
        only_removed_services_are_terminated(init, names, pid);
        if exists|k: int|
            0 <= k < old.len() && (#[trigger] old[k]).supervisor_pid == Some(pid)
                && !names.contains(old[k].name@) {
            let k = choose|k: int|
                0 <= k < old.len() && (#[trigger] old[k]).supervisor_pid == Some(pid)
                    && !names.contains(old[k].name@);
            removed_services_are_terminated(old, names, k, pid);
        }
        if orphans(old, names).contains(pid) {
            if s.supervisor_pid is Some {
                lemma_push_contains(before, s.supervisor_pid->0, pid);
            }
            if before.contains(pid) {
                let k = choose|k: int|
                    0 <= k < init.len() && (#[trigger] init[k]).supervisor_pid == Some(pid)
                        && !names.contains(init[k].name@);
                assert(old[k] == init[k]);
            } else {
                assert(old[old.len() - 1].supervisor_pid == Some(pid));
            }
        }
        if books_in_order(old) {
            assert forall|i: int| 0 <= i < init.len() implies in_order(#[trigger] init[i]) by {
                assert(old[i] == init[i]);
            }
            assert forall|i: int, j: int|
                0 <= i < init.len() && 0 <= j < init.len() && (
                #[trigger] init[i]).supervisor_pid is Some && init[i].supervisor_pid == (
                #[trigger] init[j]).supervisor_pid implies i == j by {
                assert(old[i] == init[i] && old[j] == init[j]);
            }
            if s.supervisor_pid is Some {
                let p = s.supervisor_pid->0;
                only_removed_services_are_terminated(init, names, p);
                if before.contains(p) {
                    let k = choose|k: int|
                        0 <= k < init.len() && (#[trigger] init[k]).supervisor_pid == Some(p)
                            && !names.contains(init[k].name@);
                    assert(old[k].supervisor_pid == old[old.len() - 1].supervisor_pid);
                }
            }
        }
    }
}

/// A reload takes the configuration from the files and only the books from what
/// was running: a service that did not run before is as it was loaded.
pub proof fn reloads_take_the_new_configuration(s: ServiceState, old: Seq<ServiceState>)
    ensures
        ({
            let after = carried_over(s, old);
            &&& after.name == s.name
            &&& after.config == s.config
            &&& after.config_path == s.config_path
            &&& after.enabled == s.enabled
            &&& (forall|j: int|
                0 <= j < old.len() && (#[trigger] old[j]).name@ == s.name@ ==> !(
                old[j].state is Running)) ==> after == s
        }),
{
    lemma_find(old, s.name@);
}

/// A target switches services on and off and changes nothing else of them.
pub proof fn targets_only_switch_services(
    services: Seq<ServiceState>,
    t: Option<Target>,
    g: GraphModel,
    i: int,
)
    requires
        0 <= i < services.len(),
    ensures
        targeted(services, t, g).len() == services.len(),
        ({
            let s = services[i];
            let after = targeted(services, t, g)[i];
            &&& after.enabled == is_enabled(t, units(services), g, s.name@)
            &&& after.name == s.name
            &&& after.config == s.config
            &&& after.config_path == s.config_path
            &&& after.state == s.state
            &&& after.supervisor_pid == s.supervisor_pid
            &&& after.restart_count == s.restart_count
            &&& after.start_time == s.start_time
            &&& after.last_respawn == s.last_respawn
        }),
{
}

proof fn lemma_kept_from(order: Seq<Text>, keep: spec_fn(Text) -> bool)
    ensures
        forall|n: Text| #[trigger] kept(order, keep).contains(n) ==> order.contains(n) && keep(n),
        order.no_duplicates() ==> kept(order, keep).no_duplicates(),
    decreases order.len(),
{
    if order.len() > 0 {
        let init = order.drop_last();
        let before = kept(init, keep);
        lemma_kept_from(init, keep);
        assert(init.push(order.last()) =~= order);
        assert forall|n: Text| #[trigger] kept(order, keep).contains(n) implies order.contains(n)
            && keep(n) by {
            lemma_push_contains(before, order.last(), n);
            lemma_push_contains(init, order.last(), n);
        }
        if order.no_duplicates() {
            assert(init.no_duplicates());
            if init.contains(order.last()) {
                let i = choose|i: int| 0 <= i < init.len() && init[i] == order.last();
                assert(order[i] == order[order.len() - 1]);
            }
            assert(!before.contains(order.last()));
        }
    }
}

/// Exactly the enabled services are started, and at a shutdown exactly those
/// that are up are stopped; each of them once.
pub proof fn no_service_is_left_out(
    g: GraphModel,
    services: Seq<ServiceState>,
    order: Seq<Text>,
    i: int,
)
    requires
        is_service_order(g, names_of(services), order),
        distinct_names(units(services)),
        0 <= i < services.len(),
    ensures
        enabled_of(order, services).contains(services[i].name@) <==> services[i].enabled,
        up_of(order.reverse(), services).contains(services[i].name@) <==> (
        services[i].state is Running || services[i].state is Starting),
        enabled_of(order, services).no_duplicates(),
        up_of(order.reverse(), services).no_duplicates(),
        forall|n: Text| #[trigger]
            enabled_of(order, services).contains(n) ==> names_of(services).contains(n),
        forall|n: Text| #[trigger]
            up_of(order.reverse(), services).contains(n) ==> names_of(services).contains(n),
{
    let back = order.reverse();
    let on = |n: Text| find(services, n) matches Some(i) && services[i].enabled;
    let up = |n: Text| find(services, n) matches Some(i) && services[i].state.is_up();
    let name = services[i].name@;
    lemma_kept_from(order, on);
    lemma_kept_from(back, up);
    assert(names_of(services)[i] == name);
    assert(names_of(services).contains(name));
    assert(order.contains(name));
    let p = choose|p: int| 0 <= p < order.len() && order[p] == name;
    assert(back[order.len() - 1 - p] == name);
    assert(back.contains(name));
    lemma_find(services, name);
    let k = find(services, name)->0;
    assert(units(services)[k].name == units(services)[i].name);
    if on(name) {
        lemma_kept_contains(order, on, name);
    }
    if up(name) {
        lemma_kept_contains(back, up, name);
    }
    assert(order.no_duplicates()) by {
        if order == names_of(services) {
            assert forall|a: int, b: int|
                0 <= a < order.len() && 0 <= b < order.len() && a != b implies order[a]
                != order[b] by {
                if order[a] == order[b] {
                    assert(units(services)[a].name == units(services)[b].name);
                }
            }
        }
    }
    assert forall|a: int, b: int|
        0 <= a < back.len() && 0 <= b < back.len() && a != b implies back[a] != back[b] by {
        assert(order[order.len() - 1 - a] != order[order.len() - 1 - b]);
    }
    assert forall|n: Text| #[trigger] up_of(order.reverse(), services).contains(n) implies names_of(
        services,
    ).contains(n) by {
        assert(back.contains(n));
        let q = choose|q: int| 0 <= q < back.len() && back[q] == n;
        assert(order[order.len() - 1 - q] == n);
        assert(order.contains(n));
    }
}

/// A service starts behind all that its file puts before it: those it comes
/// after, and those that come before it.
pub proof fn declared_orders_are_kept(
    services: Seq<ServiceState>,
    order: Seq<Text>,
    i: int,
    j: int,
    d: Dep,
)
    requires
        graph_of(units(services)).is_start_order(names_of(services), order),
        0 <= i < enabled_of(order, services).len(),
        0 <= j < enabled_of(order, services).len(),
        crate::target::lists(units(services), enabled_of(order, services)[i], d),
        d.service == enabled_of(order, services)[j],
    ensures
        d.kind is After ==> j < i,
        d.kind is Before ==> i < j,
{
    let a = enabled_of(order, services)[i];
    let b = enabled_of(order, services)[j];
    graph_holds_declared_dependencies(units(services), a, b);
    if d.kind is After {
        dependencies_start_first(graph_of(units(services)), services, order, j, i);
    }
    if d.kind is Before {
        dependencies_start_first(graph_of(units(services)), services, order, i, j);
    }
}

/// The graph knows the services by name and nothing else.
pub proof fn graphs_know_the_services(us: Seq<Unit>, name: Text)
    ensures
        graph_of(us).services.contains(name) <==> exists|i: int|
            0 <= i < us.len() && (#[trigger] us[i]).name == name,
{
    lemma_units_services(names_graph(us), us);
    lemma_graph_names(us, name);
}

proof fn lemma_deps_services(g: GraphModel, from: Text, deps: Seq<Dep>)
    ensures
        with_deps(g, from, deps).services == g.services,
    decreases deps.len(),
{
    if deps.len() > 0 {
        lemma_deps_services(g, from, deps.drop_last());
    }
}

proof fn lemma_units_services(g: GraphModel, us: Seq<Unit>)
    ensures
        with_units(g, us).services == g.services,
    decreases us.len(),
{
    if us.len() > 0 {
        lemma_units_services(g, us.drop_last());
        lemma_deps_services(with_units(g, us.drop_last()), us.last().name, us.last().deps);
    }
}

proof fn lemma_graph_names(us: Seq<Unit>, name: Text)
    ensures
        names_graph(us).services.contains(name) <==> exists|i: int|
            0 <= i < us.len() && (#[trigger] us[i]).name == name,
    decreases us.len(),
{
    if us.len() > 0 {
        let init = us.drop_last();
        lemma_graph_names(init, name);
        let before = names_graph(init).services;
        lemma_push_contains(before, us.last().name, name);
        if exists|i: int| 0 <= i < us.len() && (#[trigger] us[i]).name == name {
            let i = choose|i: int| 0 <= i < us.len() && (#[trigger] us[i]).name == name;
            if i < init.len() {
                assert(init[i].name == name);
            }
        }
        if before.contains(name) {
            let i = choose|i: int| 0 <= i < init.len() && (#[trigger] init[i]).name == name;
            assert(us[i].name == name);
        }
        if us.last().name == name {
            assert(us[us.len() - 1].name == name);
        }
    }
}

/// Exactly those services that the target requires are recorded as required.
pub proof fn required_names_are_complete(
    t: Option<Target>,
    all: Seq<Unit>,
    us: Seq<Unit>,
    name: Text,
)
    ensures
        required_names(t, all, us).contains(name) <==> is_required(t, all, name) && exists|i: int|
            0 <= i < us.len() && (#[trigger] us[i]).name == name,
    decreases us.len(),
{
    if us.len() > 0 {
        let init = us.drop_last();
        let before = required_names(t, all, init);
        required_names_are_complete(t, all, init, name);
        lemma_push_contains(before, us.last().name, name);
        if exists|i: int| 0 <= i < us.len() && (#[trigger] us[i]).name == name {
            let i = choose|i: int| 0 <= i < us.len() && (#[trigger] us[i]).name == name;
            if i < init.len() {
                assert(init[i].name == name);
            }
        }
        if exists|i: int| 0 <= i < init.len() && (#[trigger] init[i]).name == name {
            let i = choose|i: int| 0 <= i < init.len() && (#[trigger] init[i]).name == name;
            assert(us[i].name == name);
        }
        if us.last().name == name {
            assert(us[us.len() - 1].name == name);
        }
    }
}

/// A shutdown stops the services one by one in the given order, then removes
/// the control socket, once, and last passes the request on.
pub proof fn shutdowns_follow_their_order(
    stops: Seq<Text>,
    socket: Text,
    farewell: Option<NamedSignal>,
    i: int,
)
    ensures
        ({
            let steps = farewell_steps(stops, socket, farewell);
            &&& steps.len() == stops.len() + if farewell is Some {
                2int
            } else {
                1int
            }
            &&& 0 <= i < stops.len() ==> steps[i] == ShutdownModel::Stop(stops[i])
            &&& steps[stops.len() as int] == ShutdownModel::RemoveSocket(socket)
            &&& farewell matches Some(s) ==> steps[stops.len() as int + 1] == ShutdownModel::Notify(s)
        }),
{
}

/// A text can name a service exactly if it is made of ASCII letters and digits,
/// dots, underscores and hyphens, one at least, and is no name of a directory.
pub proof fn names_are_plain(name: Text)
    ensures
        valid_service_name(name) <==> {
            &&& name.len() > 0
            &&& name != seq!['.']
            &&& name != seq!['.', '.']
            &&& forall|i: int|
                #![trigger name[i]]
                0 <= i < name.len() ==> {
                    let c = name[i] as int;
                    48 <= c <= 57 || 65 <= c <= 90 || 97 <= c <= 122 || c == 46 || c == 95 || c
                        == 45
                }
        },
{
    reveal_strlit(".");
    reveal_strlit("..");
    assert("."@ =~= seq!['.']);
    assert(".."@ =~= seq!['.', '.']);
    if valid_service_name(name) {
        assert forall|i: int|
            #![trigger name[i]]
            0 <= i < name.len() implies {
            let c = name[i] as int;
            48 <= c <= 57 || 65 <= c <= 90 || 97 <= c <= 122 || c == 46 || c == 95 || c == 45
        } by {
            assert(is_name_char(name[i]));
        }
    } else if name.len() > 0 && name != "."@ && name != ".."@ {
        let i = choose|i: int| 0 <= i < name.len() && !is_name_char(#[trigger] name[i]);
        let c = name[i] as int;
        assert(!(48 <= c <= 57 || 65 <= c <= 90 || 97 <= c <= 122 || c == 46 || c == 95 || c == 45));
    }
}

/// The command line of the scanner is read from the front: the last `-c` or
/// `--config` counts, one without a path is an error, and so is every other
/// word, which the error names.
pub proof fn the_last_config_option_counts(args: Seq<Text>, word: Text, path: Text, rest: Seq<Text>)
    requires
        args.len() >= 1,
        config_argument(args, 1, None) is Ok,
    ensures
        word == "-c"@ || word == "--config"@ ==> {
            &&& config_argument(args.push(word).push(path), 1, None) == Ok::<Option<Text>, Text>(
                Some(path),
            )
            &&& config_argument(args.push(word), 1, None) is Err
        },
        word != "-c"@ && word != "--config"@ ==> config_argument(args.push(word) + rest, 1, None)
            == Err::<Option<Text>, Text>("unsupported vigil-scan argument '"@ + word + "'"@),
        args.len() == 1 ==> config_argument(args, 1, None) == Ok::<Option<Text>, Text>(None),
{
    let n = args.len() as int;
    let two = args.push(word).push(path);
    let more = args.push(word) + rest;
    assert(two.take(n) =~= args);
    assert(args.push(word).take(n) =~= args);
    assert(more.take(n) =~= args);
    lemma_config_prefix(args, two, 1, None);
    lemma_config_prefix(args, args.push(word), 1, None);
    lemma_config_prefix(args, more, 1, None);
    assert(two[n] == word && two[n + 1] == path);
    assert(args.push(word)[n] == word);
    assert(more[n] == word);
    if word == "-c"@ || word == "--config"@ {
        let f = config_argument(args, 1, None)->Ok_0;
        assert(config_argument(two, n, f) == config_argument(two, n + 2, Some(path)));
    }
}

proof fn lemma_config_prefix(args: Seq<Text>, longer: Seq<Text>, i: int, found: Option<Text>)
    requires
        0 <= i <= args.len() <= longer.len(),
        longer.take(args.len() as int) == args,
        config_argument(args, i, found) is Ok,
    ensures
        config_argument(longer, i, found) == config_argument(
            longer,
            args.len() as int,
            config_argument(args, i, found)->Ok_0,
        ),
    decreases args.len() - i,
{
    if i < args.len() {
        assert(args[i] == longer.take(args.len() as int)[i]);
        assert(longer[i] == args[i]);
        if args[i] == "-c"@ || args[i] == "--config"@ {
            assert(i + 1 < args.len());
            assert(args[i + 1] == longer.take(args.len() as int)[i + 1]);
            lemma_config_prefix(args, longer, i + 2, Some(args[i + 1]));
        }
    }
}

/// All the places that the scanner is configured to use are made, and with the
/// runtime directory that of the supervisors inside it.
pub proof fn configured_directories_are_made(config: GlobalConfig)
    ensures
        ({
            let dirs = needed_directories(config);
            &&& dirs.contains(config.service_dir@)
            &&& dirs.contains(config.target_dir@)
            &&& dirs.contains(config.log_dir@)
            &&& dirs.contains(config.runtime_dir@)
            &&& dirs.contains(joined(config.runtime_dir@, "supervise"@))
            &&& parent_of(config.control_socket@) matches Some(dir) ==> dirs.contains(dir)
            &&& dirs.len() <= 6
            &&& exists|i: int, j: int|
                0 <= i < j < dirs.len() && #[trigger] dirs[i] == config.runtime_dir@
                    && #[trigger] dirs[j] == joined(config.runtime_dir@, "supervise"@)
        }),
{
    let dirs = needed_directories(config);
    assert(dirs[0] == config.service_dir@);
    assert(dirs[1] == config.target_dir@);
    assert(dirs[2] == config.log_dir@);
    assert(dirs[3] == config.runtime_dir@);
    assert(dirs[4] == joined(config.runtime_dir@, "supervise"@));
    if parent_of(config.control_socket@) is Some {
        assert(dirs[5] == parent_of(config.control_socket@)->0);
    }
}

/// Only `terminated`, `failed` and `stopped` say that a service was down, with
/// or without white space around them; any other text, and none, say that it
/// was alive.
pub proof fn only_final_states_are_down(word: Text, file: Text)
    requires
        word.len() > 0,
        !crate::text::is_space(word[0]),
        !crate::text::is_space(word.last()),
    ensures
        trimmed(file) == word ==> was_live(Some(file)) == was_live(Some(word)),
        trimmed(file).len() == 0 ==> was_live(Some(file)),
        was_live(Some(word + "\n"@)) <==> word != "terminated"@ && word != "failed"@ && word
            != "stopped"@,
        was_live(Some(word)) <==> was_live(Some(word + "\n"@)),
        was_live(None),
{
    lemma_trimmed_line(word);
    reveal_strlit("terminated");
    reveal_strlit("failed");
    reveal_strlit("stopped");
    assert("terminated"@.len() == 10 && "failed"@.len() == 6 && "stopped"@.len() == 7);
}

/// A supervisor that went away is started again exactly if its service is
/// enabled, was alive, and has restarts left, of which those count that came
/// less than ten minutes apart. The restart is counted; where there is none,
/// the count starts over. Whatever happens, the service has no supervisor and
/// keeps its configuration.
pub proof fn respawns_are_counted(s: ServiceState, live: bool, now: u64)
    ensures
        ({
            let after = after_exit(s, live, now);
            let recent = s.last_respawn is Some && now - s.last_respawn->0 < 10 * 60 * 1000;
            let counted: int = if recent {
                s.restart_count as int
            } else {
                0
            };
            let again = s.enabled && live && counted < s.config.service.restart.max_restarts;
            &&& gets_respawn(s, live, now) <==> again
            &&& after.restart_count == if again {
                counted + 1
            } else {
                0
            }
            &&& after.last_respawn == if again {
                Some(now)
            } else {
                s.last_respawn
            }
            &&& after.state is Stopped
            &&& after.supervisor_pid is None
            &&& after.enabled == s.enabled
            &&& after.name == s.name && after.config == s.config && after.config_path
                == s.config_path && after.start_time == s.start_time
        }),
{
}

/// A service that was started is running under its supervisor from that time
/// on, and one that was stopped is not; neither changes anything else of it.
pub proof fn starts_and_stops_are_noted(s: ServiceState, pid: u32, now: u64)
    ensures
        ({
            let up = as_started(s, pid, now);
            let down = as_stopped(s);
            &&& up.state is Running && up.supervisor_pid == Some(pid) && up.start_time == Some(now)
            &&& down.state is Stopped && down.supervisor_pid is None && down.start_time is None
            &&& as_stopped(up) == down
            &&& up.name == s.name && up.config == s.config && up.config_path == s.config_path
                && up.restart_count == s.restart_count && up.enabled == s.enabled && up.last_respawn
                == s.last_respawn
            &&& down.name == s.name && down.config == s.config && down.config_path == s.config_path
                && down.restart_count == s.restart_count && down.enabled == s.enabled
                && down.last_respawn == s.last_respawn
        }),
{
}

/// The uptime of a service is the number of whole seconds since its start.
pub proof fn uptimes_count_whole_seconds(start: u64, now: u64)
    ensures
        start <= now ==> uptime(Some(start), now) * 1000 <= now - start < (uptime(Some(start), now)
            + 1) * 1000,
        start > now ==> uptime(Some(start), now) == 0,
        uptime(None, now) == 0,
{
}

/// A supervisor may take two seconds longer to stop than its service.
pub proof fn supervisors_outlast_their_service(timeout_ms: u64)
    ensures
        timeout_ms <= u64::MAX - 2000 ==> stop_grace(timeout_ms) == timeout_ms + 2000,
        stop_grace(timeout_ms) >= timeout_ms,
        timeout_ms > u64::MAX - 2000 ==> stop_grace(timeout_ms) == u64::MAX,
{
}

/// A deliberate start forgets the restarts of that service and leaves all
/// others as they were.
pub proof fn fresh_budgets_are_for_one(services: Seq<ServiceState>, name: Text, i: int)
    requires
        distinct_names(units(services)),
        0 <= i < services.len(),
    ensures
        ({
            let after = with_fresh_budget(services, name);
            &&& after.len() == services.len()
            &&& services[i].name@ != name ==> after[i] == services[i]
            &&& services[i].name@ == name ==> after[i] == (ServiceState {
                restart_count: 0,
                ..services[i]
            })
        }),
{
    lemma_find(services, name);
    if services[i].name@ == name {
        let k = find(services, name)->0;
        assert(units(services)[k].name == units(services)[i].name);
    }
}

/// A supervisor is run unless one of its arguments holds a NUL; the first that
/// does is named.
pub proof fn supervisors_run_without_nul(config: GlobalConfig, s: ServiceState)
    ensures
        argv_problem(config, s) is None <==> forall|i: int|
            1 <= i < 5 ==> !(#[trigger] supervisor_argv(config, s)[i]).contains('\0'),
        supervisor_argv(config, s).len() == 5,
        supervisor_argv(config, s)[0] == "vigil-supervise"@,
        argv_problem(config, s) is Some ==> argv_problem(config, s)
            == if supervisor_argv(config, s)[1].contains('\0') {
            Some("service name"@ + " contains a NUL byte"@)
        } else if supervisor_argv(config, s)[2].contains('\0') {
            Some("config path"@ + " contains a NUL byte"@)
        } else if supervisor_argv(config, s)[3].contains('\0') {
            Some("log dir"@ + " contains a NUL byte"@)
        } else {
            Some("supervise dir"@ + " contains a NUL byte"@)
        },
{
    let argv = supervisor_argv(config, s);
    assert(argv[1] == s.name@);
    assert(argv[2] == s.config_path@);
    assert(argv[3] == config.log_dir@);
    assert(argv[4] == joined(config.runtime_dir@, "supervise"@));
}

/// What is listed of a service is its own: its name, its state in words, its
/// process and its description; services in different states are listed
/// differently.
pub proof fn services_are_listed_as_they_are(s: ServiceState, other: ServiceState, pid: Option<u32>)
    ensures
        info_of(s, pid).name == s.name@,
        info_of(s, pid).pid == pid,
        info_of(s, pid).description == s.config.service.description@,
        info_of(s, pid).state == info_of(other, pid).state <==> s.state == other.state,
        s.state is Running ==> info_of(s, pid).state == "running"@,
        s.state is Stopped ==> info_of(s, pid).state == "stopped"@,
{
    reveal_strlit("stopped");
    reveal_strlit("starting");
    reveal_strlit("running");
    reveal_strlit("failed");
    assert("stopped"@.len() == 7 && "starting"@.len() == 8 && "running"@.len() == 7
        && "failed"@.len() == 6);
    assert("stopped"@[0] == 's' && "running"@[0] == 'r');
}

/// A name that no service has is answered with an error that gives the name.
pub proof fn unknown_services_are_named(services: Seq<ServiceState>, name: Text, plan: RequestPlan)
    requires
        forall|j: int| 0 <= j < services.len() ==> (#[trigger] services[j]).name@ != name,
        answers_or(services, name, plan, false) || answers_or(services, name, plan, true),
    ensures
        plan matches RequestPlan::Answer(a) && a@ == Reply::Error(
            "service '"@ + name + "' not found"@,
        ),
{
    lemma_find(services, name);
}

/// Where the dependencies allow any start order, the services follow them, the
/// least name first; only where they run in a circle do the services stand as
/// they were loaded.
pub proof fn dependencies_are_followed_where_they_can_be(
    g: GraphModel,
    names: Seq<Text>,
    order: Seq<Text>,
    possible: Seq<Text>,
)
    requires
        is_service_order(g, names, order),
    ensures
        g.is_start_order(names, possible) ==> g.is_start_order(names, order) && g.picks_least(
            names,
            order,
        ),
        !g.is_start_order(names, order) ==> order == names,
{
}

/// The status directory of a service lies in its own directory below that of
/// the supervisors in the runtime directory.
pub proof fn statuses_lie_in_the_runtime_directory(runtime_dir: Text, name: Text)
    requires
        runtime_dir.len() > 0,
        runtime_dir.last() != '/',
        valid_service_name(name),
    ensures
        status_dir_of(runtime_dir, name) == runtime_dir + "/supervise/"@ + name + "/status"@,
        forall|dir: Text, other: Text| #[trigger]
            status_dir_of(dir, other) == joined(joined(joined(dir, "supervise"@), other), "status"@),
{
    reveal_strlit("/");
    reveal_strlit("supervise");
    reveal_strlit("status");
    reveal_strlit("/supervise/");
    reveal_strlit("/status");
    let a = joined(runtime_dir, "supervise"@);
    assert("supervise"@[0] == 's' && "status"@[0] == 's');
    assert(a == runtime_dir + "/"@ + "supervise"@);
    assert(a.last() == 'e');
    assert(is_name_char(name[0]));
    let b = joined(a, name);
    assert(b == a + "/"@ + name);
    assert(is_name_char(name.last()));
    assert(b.last() == name.last());
    assert(joined(b, "status"@) =~= runtime_dir + "/supervise/"@ + name + "/status"@);
}

/// A log request is about the service that it names.
pub proof fn log_requests_find_their_service(
    services: Seq<ServiceState>,
    name: Text,
    log_dir: Text,
    i: int,
)
    requires
        distinct_names(units(services)),
        0 <= i < services.len(),
    ensures
        services[i].name@ == name ==> service_log(services, name, log_dir) == log_file_of(
            services[i],
            log_dir,
        ),
        (forall|j: int| 0 <= j < services.len() ==> (#[trigger] services[j]).name@ != name)
            ==> service_log(services, name, log_dir) is None,
{
    lemma_find(services, name);
    if services[i].name@ == name {
        let k = find(services, name)->0;
        assert(units(services)[k].name == units(services)[i].name);
    }
}

/// A request about a service that exists is planned, not refused.
pub proof fn known_services_are_served(
    services: Seq<ServiceState>,
    name: Text,
    plan: RequestPlan,
    planned: bool,
    i: int,
)
    requires
        0 <= i < services.len(),
        services[i].name@ == name,
    ensures
        answers_or(services, name, plan, planned) <==> planned,
{
    lemma_find(services, name);
}

/// The states of a service are put into these words.
pub proof fn states_are_put_into_words(run: RunState, recorded: RecordedState)
    ensures
        run is Stopped <==> run.text() == "stopped"@,
        run is Starting <==> run.text() == "starting"@,
        run is Running <==> run.text() == "running"@,
        run is Failed <==> run.text() == "failed"@,
        recorded is Starting <==> recorded.text() == "starting"@,
        recorded is Running <==> recorded.text() == "running"@,
        recorded is Restarting <==> recorded.text() == "restarting"@,
        recorded is Stopped <==> recorded.text() == "stopped"@,
        recorded is Terminated <==> recorded.text() == "terminated"@,
        recorded is Failed <==> recorded.text() == "failed"@,
{
    reveal_strlit("stopped");
    reveal_strlit("starting");
    reveal_strlit("running");
    reveal_strlit("failed");
    reveal_strlit("restarting");
    reveal_strlit("terminated");
    assert("stopped"@.len() == 7 && "starting"@.len() == 8 && "running"@.len() == 7
        && "failed"@.len() == 6 && "restarting"@.len() == 10 && "terminated"@.len() == 10);
    assert("stopped"@[0] == 's' && "running"@[0] == 'r');
    assert("restarting"@[0] == 'r' && "terminated"@[0] == 't');
}

/// Nothing of a step of a shutdown is lost in what is said of it.
pub proof fn shutdown_steps_are_said_in_full(v: Seq<ShutdownStep>, i: int)
    requires
        0 <= i < v.len(),
    ensures
        shutdown_steps(v).len() == v.len(),
        match v[i] {
            ShutdownStep::Stop(name) => shutdown_steps(v)[i] == ShutdownModel::Stop(name@),
            ShutdownStep::RemoveSocket(path) => shutdown_steps(v)[i]
                == ShutdownModel::RemoveSocket(path@),
            ShutdownStep::Notify(s) => shutdown_steps(v)[i] == ShutdownModel::Notify(s),
        },
{
}

/// An outcome is the result that it is of, with its message.
pub proof fn outcomes_keep_their_message(r: Result<(), String>, services: Seq<ServiceState>, i: int)
    ensures
        outcome(r) is Ok <==> r is Ok,
        r matches Err(m) ==> outcome(r) == Err::<(), Text>(m@),
        names_of(services).len() == services.len(),
        0 <= i < services.len() ==> names_of(services)[i] == services[i].name@,
{
}

} // verus!
