//! The tasks that every Go module has, and what they read.
use crate::collections::{sorted, NameMap, SortedSet};
use crate::path::{unix, AnchoredPath};
use crate::text::same;
use vstd::prelude::*;

verus! {

/// A task of a module that runs a command of the `go` tool.
#[derive(Debug, Clone, PartialEq, Eq)]
pub struct NativeTask {
    pub name: String,
    pub command: String,
    pub subcommand: String,
    pub args: Vec<String>,
}

/// The model of a `NativeTask`.
pub struct TaskModel {
    pub name: Seq<char>,
    pub command: Seq<char>,
    pub subcommand: Seq<char>,
    pub args: Seq<Seq<char>>,
}

impl DeepView for NativeTask {
    type V = TaskModel;

    open spec fn deep_view(&self) -> TaskModel {
        TaskModel {
            name: self.name@,
            command: self.command@,
            subcommand: self.subcommand@,
            args: self.args.deep_view(),
        }
    }
}

impl NativeTask {
    /// The task `name`, shown as `command`, that runs `go` with `subcommand` and
    /// `arg`.
    pub fn go(name: &str, command: String, subcommand: &str, arg: &str) -> (r: NativeTask)
        ensures
            r.deep_view() == task_model(name@, command@, subcommand@, arg@),
    {
        let mut args: Vec<String> = Vec::new();
        args.push(arg.to_owned());
        assert(args.deep_view() =~= seq![arg@]);
        NativeTask { name: name.to_owned(), command, subcommand: subcommand.to_owned(), args }
    }
}

/// The task `name`, shown as `command`, that runs `go` with `subcommand` and
/// `arg`.
pub open spec fn task_model(
    name: Seq<char>,
    command: Seq<char>,
    subcommand: Seq<char>,
    arg: Seq<char>,
) -> TaskModel {
    TaskModel { name, command, subcommand, args: seq![arg] }
}

/// The tasks of every module.
pub open spec fn common_tasks() -> Seq<TaskModel> {
    seq![
        task_model("build"@, "go build ./..."@, "build"@, "./..."@),
        task_model("test"@, "go test ./..."@, "test"@, "./..."@),
        task_model("check"@, "go vet ./..."@, "vet"@, "./..."@),
        task_model("lint"@, "go vet ./..."@, "vet"@, "./..."@),
        task_model("format"@, "go fmt ./..."@, "fmt"@, "./..."@),
    ]
}

/// The tasks of a module: those of every module, and two that run its command
/// where it has a single one.
pub open spec fn tasks_of(main: Option<Seq<char>>) -> Seq<TaskModel> {
    match main {
        Some(main) => common_tasks() + seq![
            task_model("run"@, "go run "@ + main, "run"@, main),
            task_model("dev"@, "go run "@ + main, "run"@, main),
        ],
        None => common_tasks(),
    }
}

/// The tasks of a module whose only command is `main`, or that has none or
/// several.
pub fn native_tasks(main: Option<&str>) -> (r: Vec<NativeTask>)
    ensures
        r.deep_view() == tasks_of(main.deep_view()),
{
    let mut tasks: Vec<NativeTask> = Vec::new();
    tasks.push(NativeTask::go("build", "go build ./...".to_owned(), "build", "./..."));
    tasks.push(NativeTask::go("test", "go test ./...".to_owned(), "test", "./..."));
    tasks.push(NativeTask::go("check", "go vet ./...".to_owned(), "vet", "./..."));
    tasks.push(NativeTask::go("lint", "go vet ./...".to_owned(), "vet", "./..."));
    tasks.push(NativeTask::go("format", "go fmt ./...".to_owned(), "fmt", "./..."));
    assert(tasks.deep_view() =~= common_tasks());
    if let Some(main) = main {
        let mut run = "go run ".to_owned();
        run.append(main);
        let dev = run.clone();
        tasks.push(NativeTask::go("run", run, "run", main));
        tasks.push(NativeTask::go("dev", dev, "run", main));
        assert(tasks.deep_view() =~= tasks_of(Some(main@)));
    }
    tasks
}

/// Whether the files of a dependency are inputs of what depends on it.
#[derive(Debug, Clone, Copy, PartialEq, Eq, Structural)]
pub enum DependencySourceInputs {
    Include,
    Exclude,
}

/// What a task reads of a dependency: where it stands, and whether its files are
/// inputs.
#[derive(Debug)]
pub struct TaskDependency {
    pub directory: AnchoredPath,
    pub source_inputs: DependencySourceInputs,
}

/// The model of a `TaskDependency`.
pub struct DependencyModel {
    pub directory: Seq<Seq<char>>,
    pub source_inputs: DependencySourceInputs,
}

impl DeepView for TaskDependency {
    type V = DependencyModel;

    open spec fn deep_view(&self) -> DependencyModel {
        DependencyModel {
            directory: self.directory.deep_view(),
            source_inputs: self.source_inputs,
        }
    }
}

/// The inputs that a task has of itself.
#[derive(Debug, PartialEq, Eq)]
pub struct DerivedTaskIO {
    pub env: Vec<String>,
    pub package_default_inputs: Option<bool>,
    pub input_globs: Vec<String>,
}

/// The model of a `DerivedTaskIO`.
pub struct TaskIOModel {
    pub env: Seq<Seq<char>>,
    pub package_default_inputs: Option<bool>,
    pub input_globs: Seq<Seq<char>>,
}

impl DeepView for DerivedTaskIO {
    type V = TaskIOModel;

    open spec fn deep_view(&self) -> TaskIOModel {
        TaskIOModel {
            env: self.env.deep_view(),
            package_default_inputs: self.package_default_inputs,
            input_globs: self.input_globs.deep_view(),
        }
    }
}

/// The environment variables on which the output of the `go` tool depends.
pub open spec fn hashed_env() -> Seq<Seq<char>> {
    seq![
        "CC"@,
        "CGO_CFLAGS"@,
        "CGO_CPPFLAGS"@,
        "CGO_CXXFLAGS"@,
        "CGO_ENABLED"@,
        "CGO_FFLAGS"@,
        "CGO_LDFLAGS"@,
        "CXX"@,
        "GO386"@,
        "GOAMD64"@,
        "GOARCH"@,
        "GOARM"@,
        "GOARM64"@,
        "GOEXPERIMENT"@,
        "GOFLAGS"@,
        "GOMIPS"@,
        "GOMIPS64"@,
        "GOOS"@,
        "GOPPC64"@,
        "GORISCV64"@,
        "GOWORK"@,
        "PKG_CONFIG"@,
    ]
}

/// The environment variables on which the output of the `go` tool depends.
pub fn hashed_env_vars() -> (r: Vec<String>)
    ensures
        r.deep_view() == hashed_env(),
{
    let mut vars: Vec<String> = Vec::new();
    vars.push("CC".to_owned());
    vars.push("CGO_CFLAGS".to_owned());
    vars.push("CGO_CPPFLAGS".to_owned());
    vars.push("CGO_CXXFLAGS".to_owned());
    vars.push("CGO_ENABLED".to_owned());
    vars.push("CGO_FFLAGS".to_owned());
    vars.push("CGO_LDFLAGS".to_owned());
    vars.push("CXX".to_owned());
    vars.push("GO386".to_owned());
    vars.push("GOAMD64".to_owned());
    vars.push("GOARCH".to_owned());
    vars.push("GOARM".to_owned());
    vars.push("GOARM64".to_owned());
    vars.push("GOEXPERIMENT".to_owned());
    vars.push("GOFLAGS".to_owned());
    vars.push("GOMIPS".to_owned());
    vars.push("GOMIPS64".to_owned());
    vars.push("GOOS".to_owned());
    vars.push("GOPPC64".to_owned());
    vars.push("GORISCV64".to_owned());
    vars.push("GOWORK".to_owned());
    vars.push("PKG_CONFIG".to_owned());
    assert(vars.deep_view() =~= hashed_env());
    vars
}

/// Whether the inputs of `task` follow from its module.
pub open spec fn derives_io(task: Seq<char>) -> bool {
    ||| task == "build"@
    ||| task == "test"@
    ||| task == "check"@
    ||| task == "lint"@
    ||| task == "format"@
    ||| task == "run"@
    ||| task == "dev"@
}

/// The way from a module to the directory `directory` of the repository, where
/// `path_to_root` leads from the module to the root.
pub open spec fn input_prefix(path_to_root: Seq<char>, directory: Seq<char>) -> Seq<char> {
    if path_to_root.len() == 0 && directory.len() == 0 {
        "."@
    } else if path_to_root.len() == 0 {
        directory
    } else if directory.len() == 0 {
        path_to_root
    } else {
        path_to_root + "/"@ + directory
    }
}

/// The globs for the files below `prefix`, but for what tools keep there.
pub open spec fn source_globs(prefix: Seq<char>) -> Set<Seq<char>> {
    set![prefix + "/**"@, "!"@ + prefix + "/.turbo/**"@, "!"@ + prefix + "/.cache/go-build/**"@]
}

/// The globs for the files of those `dependencies` whose files are inputs.
pub open spec fn dependency_globs(
    path_to_root: Seq<char>,
    dependencies: Seq<DependencyModel>,
) -> Set<Seq<char>>
    decreases dependencies.len(),
{
    if dependencies.len() == 0 {
        Set::empty()
    } else {
        let earlier = dependency_globs(path_to_root, dependencies.drop_last());
        if dependencies.last().source_inputs == DependencySourceInputs::Include {
            earlier.union(
                source_globs(input_prefix(path_to_root, unix(dependencies.last().directory))),
            )
        } else {
            earlier
        }
    }
}

/// The inputs that `task` has of itself: the environment, and where inputs are
/// found automatically, the files of the module and of its dependencies.
pub open spec fn task_io(
    task: Seq<char>,
    path_to_root: Seq<char>,
    dependencies: Seq<DependencyModel>,
    wants_automatic_inputs: bool,
) -> Option<TaskIOModel> {
    if !derives_io(task) {
        None
    } else if wants_automatic_inputs {
        Some(
            TaskIOModel {
                env: hashed_env(),
                package_default_inputs: Some(true),
                input_globs: sorted::<String>(dependency_globs(path_to_root, dependencies)),
            },
        )
    } else {
        Some(
            TaskIOModel { env: hashed_env(), package_default_inputs: None, input_globs: seq![] },
        )
    }
}

/// Adds the globs for the files below `prefix`.
fn add_globs(globs: &mut SortedSet<String>, prefix: &str)
    ensures
        final(globs).deep_view() == old(globs).deep_view().union(source_globs(prefix@)),
{
    let mut files = prefix.to_owned();
    files.append("/**");
    globs.insert(files);
    let mut turbo = "!".to_owned();
    turbo.append(prefix);
    turbo.append("/.turbo/**");
    globs.insert(turbo);
    let mut cache = "!".to_owned();
    cache.append(prefix);
    cache.append("/.cache/go-build/**");
    globs.insert(cache);
    assert(globs.deep_view() =~= old(globs).deep_view().union(source_globs(prefix@)));
}

/// What holds of the tasks of every Go module.
#[derive(Debug, Clone, Copy, PartialEq, Eq)]
pub struct GoTaskContract;

impl GoTaskContract {
    /// Whether the inputs of `task` follow from its module.
    pub fn derives_task_io(&self, task: &str) -> (r: bool)
        ensures
            r == derives_io(task@),
    {
        same(task, "build") || same(task, "test") || same(task, "check") || same(task, "lint")
            || same(task, "format") || same(task, "run") || same(task, "dev")
    }

    /// The inputs that `task` has of itself.
    pub fn derived_task_io(
        &self,
        task: &str,
        path_to_root: &str,
        dependencies: &[TaskDependency],
        wants_automatic_inputs: bool,
    ) -> (r: Option<DerivedTaskIO>)
        ensures
            r.deep_view() == task_io(
                task@,
                path_to_root@,
                dependencies.deep_view(),
                wants_automatic_inputs,
            ),
    {
        if !self.derives_task_io(task) {
            return None;
        }
        if !wants_automatic_inputs {
            let io = DerivedTaskIO {
                env: hashed_env_vars(),
                package_default_inputs: None,
                input_globs: Vec::new(),
            };
            assert(io.input_globs.deep_view() =~= seq![]);
            return Some(io);
        }
        let ghost model = dependencies.deep_view();
        let mut globs: SortedSet<String> = SortedSet::new();
        let mut i: usize = 0;
        while i < dependencies.len()
            invariant
                i <= dependencies.len(),
                model == dependencies.deep_view(),
                globs.deep_view() == dependency_globs(path_to_root@, model.take(i as int)),
            decreases dependencies.len() - i,
        {
            proof {
                assert(model.take(i + 1).drop_last() =~= model.take(i as int));
                assert(model.take(i + 1).last() == dependencies@[i as int].deep_view());
            }
            if dependencies[i].source_inputs == DependencySourceInputs::Include {
                let directory = dependencies[i].directory.to_unix();
                if path_to_root.is_empty() && directory.as_str().is_empty() {
                    add_globs(&mut globs, ".");
                } else if path_to_root.is_empty() {
                    add_globs(&mut globs, directory.as_str());
                } else if directory.as_str().is_empty() {
                    add_globs(&mut globs, path_to_root);
                } else {
                    let mut prefix = path_to_root.to_owned();
                    prefix.append("/");
                    prefix.append(directory.as_str());
                    add_globs(&mut globs, prefix.as_str());
                }
            }
            i = i + 1;
        }
        assert(model.take(i as int) =~= model);
        Some(
            DerivedTaskIO {
                env: hashed_env_vars(),
                package_default_inputs: Some(true),
                input_globs: globs.into_vec(),
            },
        )
    }
}

/// What a task does where its configuration does not say.
#[derive(Debug, Clone, Copy, PartialEq, Eq, Structural)]
pub struct TaskDefaults {
    pub cache: Option<bool>,
}

/// How well a module serves as the place where a task starts.
#[derive(Debug, Clone, Copy, PartialEq, Eq, Structural)]
pub enum TaskEntrypoint {
    Preferred,
    Candidate,
}

impl DeepView for TaskDefaults {
    type V = TaskDefaults;

    open spec fn deep_view(&self) -> TaskDefaults {
        *self
    }
}

impl DeepView for TaskEntrypoint {
    type V = TaskEntrypoint;

    open spec fn deep_view(&self) -> TaskEntrypoint {
        *self
    }
}

/// What the tasks of a module promise.
pub struct ScopeTaskContract {
    pub contract: GoTaskContract,
    pub defaults: NameMap<TaskDefaults>,
    pub entrypoints: NameMap<TaskEntrypoint>,
}

/// The model of a `ScopeTaskContract`.
pub struct ContractModel {
    pub contract: GoTaskContract,
    pub defaults: Map<Seq<char>, TaskDefaults>,
    pub entrypoints: Map<Seq<char>, TaskEntrypoint>,
}

impl DeepView for ScopeTaskContract {
    type V = ContractModel;

    open spec fn deep_view(&self) -> ContractModel {
        ContractModel {
            contract: self.contract,
            defaults: self.defaults.deep_view(),
            entrypoints: self.entrypoints.deep_view(),
        }
    }
}

/// What the tasks of a module promise: formatting and running are not cached,
/// and a module with a command is where to build and run.
pub open spec fn contract_of(is_main: bool) -> ContractModel {
    ContractModel {
        contract: GoTaskContract,
        defaults: map![
            "format"@ => TaskDefaults { cache: Some(false) },
            "dev"@ => TaskDefaults { cache: Some(false) },
            "run"@ => TaskDefaults { cache: Some(false) },
        ],
        entrypoints: if is_main {
            map![
                "build"@ => TaskEntrypoint::Preferred,
                "run"@ => TaskEntrypoint::Preferred,
                "dev"@ => TaskEntrypoint::Preferred,
            ]
        } else {
            map!["build"@ => TaskEntrypoint::Candidate]
        },
    }
}

/// What the tasks of a module promise, by whether it has a single command.
pub fn task_contract(is_main: bool) -> (r: ScopeTaskContract)
    ensures
        r.deep_view() == contract_of(is_main),
{
    let mut defaults: NameMap<TaskDefaults> = NameMap::new();
    defaults.insert("format".to_owned(), TaskDefaults { cache: Some(false) });
    defaults.insert("dev".to_owned(), TaskDefaults { cache: Some(false) });
    defaults.insert("run".to_owned(), TaskDefaults { cache: Some(false) });
    let mut entrypoints: NameMap<TaskEntrypoint> = NameMap::new();
    if is_main {
        entrypoints.insert("build".to_owned(), TaskEntrypoint::Preferred);
        entrypoints.insert("run".to_owned(), TaskEntrypoint::Preferred);
        entrypoints.insert("dev".to_owned(), TaskEntrypoint::Preferred);
    } else {
        entrypoints.insert("build".to_owned(), TaskEntrypoint::Candidate);
    }
    ScopeTaskContract { contract: GoTaskContract, defaults, entrypoints }
}

} // verus!
