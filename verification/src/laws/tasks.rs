//! Laws of the tasks of a module.
use crate::collections::{ascending, lemma_sorted_lists, sorted};
use crate::command::command_text;
use crate::laws::texts::{joining_one_is_itself, joining_separates};
use crate::path::unix;
use crate::tasks::{
    contract_of, dependency_globs, derives_io, hashed_env, input_prefix, source_globs, task_io,
    tasks_of, DependencyModel, DependencySourceInputs, TaskDefaults, TaskEntrypoint, TaskIOModel,
    TaskModel,
};
use vstd::prelude::*;

verus! {

/// Some task of `tasks` has the name `name`.
pub open spec fn has_task(tasks: Seq<TaskModel>, name: Seq<char>) -> bool {
    exists|i: int| 0 <= i < tasks.len() && (#[trigger] tasks[i]).name == name
}

proof fn lemma_task_names()
    ensures
        "build"@ != "test"@,
        "build"@ != "check"@,
        "build"@ != "lint"@,
        "build"@ != "format"@,
        "build"@ != "run"@,
        "build"@ != "dev"@,
        "test"@ != "check"@,
        "test"@ != "lint"@,
        "test"@ != "format"@,
        "test"@ != "run"@,
        "test"@ != "dev"@,
        "check"@ != "lint"@,
        "check"@ != "format"@,
        "check"@ != "run"@,
        "check"@ != "dev"@,
        "lint"@ != "format"@,
        "lint"@ != "run"@,
        "lint"@ != "dev"@,
        "format"@ != "run"@,
        "format"@ != "dev"@,
        "run"@ != "dev"@,
{
    reveal_strlit("build");
    reveal_strlit("test");
    reveal_strlit("check");
    reveal_strlit("lint");
    reveal_strlit("format");
    reveal_strlit("run");
    reveal_strlit("dev");
    assert("build"@[0] == 'b' && "check"@[0] == 'c');
    assert("test"@[0] == 't' && "lint"@[0] == 'l');
    assert("run"@[0] == 'r' && "dev"@[0] == 'd');
}

/// The tasks of a module have different names, and the inputs of each of them
/// follow from the module.
pub proof fn tasks_differ_and_derive_inputs(main: Option<Seq<char>>)
    ensures
        forall|i: int, j: int|
            0 <= i < j < tasks_of(main).len() ==> (#[trigger] tasks_of(main)[i]).name != (
            #[trigger] tasks_of(main)[j]).name,
        forall|i: int|
            0 <= i < tasks_of(main).len() ==> derives_io((#[trigger] tasks_of(main)[i]).name),
{
    lemma_task_names();
}

/// A module is where a task starts only for tasks that it has, and it is
/// preferred exactly where it has a single command.
pub proof fn entrypoints_are_tasks(main: Option<Seq<char>>, name: Seq<char>)
    requires
        contract_of(main is Some).entrypoints.contains_key(name),
    ensures
        has_task(tasks_of(main), name),
        contract_of(main is Some).entrypoints[name] is Preferred <==> main is Some,
{
    lemma_task_names();
    let tasks = tasks_of(main);
    assert(tasks[0].name == "build"@);
    if main is Some {
        assert(tasks[5].name == "run"@);
        assert(tasks[6].name == "dev"@);
    }
}

/// A task that is not cached is one whose inputs follow from the module, and it
/// either rewrites or runs it.
pub proof fn uncached_tasks_are_known(is_main: bool, name: Seq<char>)
    requires
        contract_of(is_main).defaults.contains_key(name),
    ensures
        derives_io(name),
        contract_of(is_main).defaults[name].cache == Some(false),
        name == "format"@ || name == "run"@ || name == "dev"@,
{
    lemma_task_names();
}

proof fn lemma_globs_finite(path_to_root: Seq<char>, dependencies: Seq<DependencyModel>)
    ensures
        dependency_globs(path_to_root, dependencies).finite(),
    decreases dependencies.len(),
{
    if dependencies.len() > 0 {
        lemma_globs_finite(path_to_root, dependencies.drop_last());
    }
}

proof fn lemma_globs_hold(path_to_root: Seq<char>, dependencies: Seq<DependencyModel>, i: int)
    requires
        0 <= i < dependencies.len(),
        dependencies[i].source_inputs == DependencySourceInputs::Include,
    ensures
        source_globs(input_prefix(path_to_root, unix(dependencies[i].directory))).subset_of(
            dependency_globs(path_to_root, dependencies),
        ),
    decreases dependencies.len(),
{
    if i < dependencies.len() - 1 {
        lemma_globs_hold(path_to_root, dependencies.drop_last(), i);
    }
}

/// The input globs of a task are in order and none occurs twice, and the files
/// of every dependency whose files are inputs are among them.
pub proof fn dependency_sources_are_inputs(
    path_to_root: Seq<char>,
    dependencies: Seq<DependencyModel>,
    i: int,
)
    requires
        0 <= i < dependencies.len(),
        dependencies[i].source_inputs == DependencySourceInputs::Include,
    ensures
        ascending::<String>(sorted::<String>(dependency_globs(path_to_root, dependencies))),
        sorted::<String>(dependency_globs(path_to_root, dependencies)).contains(
            input_prefix(path_to_root, unix(dependencies[i].directory)) + "/**"@,
        ),
{
    let all = dependency_globs(path_to_root, dependencies);
    let prefix = input_prefix(path_to_root, unix(dependencies[i].directory));
    lemma_globs_finite(path_to_root, dependencies);
    lemma_sorted_lists::<String>(all);
    lemma_globs_hold(path_to_root, dependencies, i);
    assert(source_globs(prefix).contains(prefix + "/**"@));
    assert(sorted::<String>(all).to_set().contains(prefix + "/**"@));
}

/// A task shows the command that it runs.
pub proof fn tasks_show_what_they_run(main: Option<Seq<char>>, i: int)
    requires
        0 <= i < tasks_of(main).len(),
    ensures
        tasks_of(main)[i].command == command_text(
            seq![tasks_of(main)[i].subcommand] + tasks_of(main)[i].args,
        ),
{
    reveal_strlit("go ");
    reveal_strlit(" ");
    reveal_strlit("./...");
    reveal_strlit("build");
    reveal_strlit("test");
    reveal_strlit("vet");
    reveal_strlit("fmt");
    reveal_strlit("run");
    reveal_strlit("go build ./...");
    reveal_strlit("go test ./...");
    reveal_strlit("go vet ./...");
    reveal_strlit("go fmt ./...");
    reveal_strlit("go run ");
    let task = tasks_of(main)[i];
    let arg = task.args[0];
    assert(task.args =~= seq![arg]);
    let args = seq![task.subcommand] + task.args;
    lemma_two_args(task.subcommand, arg);
    assert(args =~= seq![task.subcommand, arg]);
    assert("go "@ + "build"@ + " "@ + "./..."@ =~= "go build ./..."@);
    assert("go "@ + "test"@ + " "@ + "./..."@ =~= "go test ./..."@);
    assert("go "@ + "vet"@ + " "@ + "./..."@ =~= "go vet ./..."@);
    assert("go "@ + "fmt"@ + " "@ + "./..."@ =~= "go fmt ./..."@);
    assert("go "@ + "run"@ + " "@ =~= "go run "@);
    assert("go "@ + (task.subcommand + " "@ + arg) =~= "go "@ + task.subcommand + " "@ + arg);
}

proof fn lemma_two_args(a: Seq<char>, b: Seq<char>)
    ensures
        command_text(seq![a, b]) == "go "@ + (a + " "@ + b),
{
    let both = seq![a] + seq![b];
    joining_separates(seq![a], seq![b], " "@);
    joining_one_is_itself(a, " "@);
    joining_one_is_itself(b, " "@);
    assert(both =~= seq![a, b]);
}

/// Building, testing, checking and formatting are for all packages of a module; checking
/// and linting are one thing. Where a module has a single command, it is what running
/// and developing run; else there is nothing to run.
pub proof fn tasks_of_a_module_are_these(main: Seq<char>)
    ensures
        tasks_of(None).len() == 5,
        tasks_of(Some(main)).len() == 7,
        tasks_of(Some(main)).take(5) == tasks_of(None),
        forall|i: int| 0 <= i < 5 ==> (#[trigger] tasks_of(None)[i]).args == seq!["./..."@],
        tasks_of(None)[0].name == "build"@ && tasks_of(None)[0].subcommand == "build"@,
        tasks_of(None)[1].name == "test"@ && tasks_of(None)[1].subcommand == "test"@,
        tasks_of(None)[2].name == "check"@ && tasks_of(None)[2].subcommand == "vet"@,
        tasks_of(None)[3].name == "lint"@ && tasks_of(None)[3].subcommand == "vet"@,
        tasks_of(None)[4].name == "format"@ && tasks_of(None)[4].subcommand == "fmt"@,
        tasks_of(Some(main))[5].name == "run"@,
        tasks_of(Some(main))[6].name == "dev"@,
        forall|i: int|
            5 <= i < 7 ==> (#[trigger] tasks_of(Some(main))[i]).subcommand == "run"@ && tasks_of(
                Some(main),
            )[i].args == seq![main],
{
    assert(tasks_of(Some(main)).take(5) =~= tasks_of(None));
}

/// The inputs of a task follow from its module exactly where a module with a command
/// has such a task.
pub proof fn inputs_follow_for_tasks_of_modules(main: Seq<char>, name: Seq<char>)
    ensures
        derives_io(name) <==> has_task(tasks_of(Some(main)), name),
{
    let tasks = tasks_of(Some(main));
    assert(tasks[0].name == "build"@);
    assert(tasks[1].name == "test"@);
    assert(tasks[2].name == "check"@);
    assert(tasks[3].name == "lint"@);
    assert(tasks[4].name == "format"@);
    assert(tasks[5].name == "run"@);
    assert(tasks[6].name == "dev"@);
    if has_task(tasks, name) {
        let i = choose|i: int| 0 <= i < tasks.len() && (#[trigger] tasks[i]).name == name;
        assert(tasks[i].name == name);
    }
}

/// What is not cached are formatting, running and developing; with a command a module
/// is preferred for building, running and developing, and without it is a candidate
/// for building.
pub proof fn contract_names_its_tasks(is_main: bool, name: Seq<char>)
    ensures
        contract_of(is_main).defaults.contains_key(name) <==> name == "format"@ || name == "run"@
            || name == "dev"@,
        contract_of(is_main).defaults.contains_key(name) ==> contract_of(is_main).defaults[name]
            == (TaskDefaults { cache: Some(false) }),
        contract_of(true).entrypoints.contains_key(name) <==> name == "build"@ || name == "run"@
            || name == "dev"@,
        contract_of(true).entrypoints.contains_key(name) ==> contract_of(true).entrypoints[name]
            == TaskEntrypoint::Preferred,
        contract_of(false).entrypoints.contains_key(name) <==> name == "build"@,
        contract_of(false).entrypoints["build"@] == TaskEntrypoint::Candidate,
{
    lemma_task_names();
}

/// The way to a directory leads over the root: a part that is empty is left out, and
/// where both are, the way is a dot.
pub proof fn ways_lead_over_the_root(path_to_root: Seq<char>, directory: Seq<char>)
    ensures
        input_prefix(seq![], seq![]) == seq!['.'],
        directory.len() > 0 ==> input_prefix(seq![], directory) == directory,
        path_to_root.len() > 0 ==> input_prefix(path_to_root, seq![]) == path_to_root,
        path_to_root.len() > 0 && directory.len() > 0 ==> input_prefix(path_to_root, directory)
            == path_to_root + seq!['/'] + directory,
{
    reveal_strlit(".");
    reveal_strlit("/");
    assert("."@ =~= seq!['.']);
    assert("/"@ =~= seq!['/']);
}

/// A glob is among those of dependencies exactly where one of them whose files are
/// inputs gives it: all that is below its directory, but for what tools keep there.
pub proof fn included_dependencies_give_globs(
    path_to_root: Seq<char>,
    dependencies: Seq<DependencyModel>,
    glob: Seq<char>,
)
    ensures
        dependency_globs(path_to_root, dependencies).contains(glob) <==> exists|i: int|
            0 <= i < dependencies.len() && (#[trigger] dependencies[i]).source_inputs
                == DependencySourceInputs::Include && (glob == input_prefix(
                path_to_root,
                unix(dependencies[i].directory),
            ) + "/**"@ || glob == "!"@ + input_prefix(
                path_to_root,
                unix(dependencies[i].directory),
            ) + "/.turbo/**"@ || glob == "!"@ + input_prefix(
                path_to_root,
                unix(dependencies[i].directory),
            ) + "/.cache/go-build/**"@),
    decreases dependencies.len(),
{
    let all = dependency_globs(path_to_root, dependencies);
    if dependencies.len() > 0 {
        let rest = dependencies.drop_last();
        let last = dependencies[dependencies.len() - 1];
        included_dependencies_give_globs(path_to_root, rest, glob);
        let here = |dependency: DependencyModel|
            dependency.source_inputs == DependencySourceInputs::Include && (glob == input_prefix(
                path_to_root,
                unix(dependency.directory),
            ) + "/**"@ || glob == "!"@ + input_prefix(path_to_root, unix(dependency.directory))
                + "/.turbo/**"@ || glob == "!"@ + input_prefix(
                path_to_root,
                unix(dependency.directory),
            ) + "/.cache/go-build/**"@);
        if all.contains(glob) {
            if here(last) {
                assert(here(dependencies[dependencies.len() - 1]));
            } else {
                let i = choose|i: int| 0 <= i < rest.len() && here(#[trigger] rest[i]);
                assert(here(dependencies[i]));
            }
        }
        if exists|i: int| 0 <= i < dependencies.len() && here(#[trigger] dependencies[i]) {
            let i = choose|i: int| 0 <= i < dependencies.len() && here(#[trigger] dependencies[i]);
            if i < rest.len() {
                assert(here(rest[i]));
            }
        }
    }
}

/// A task whose inputs do not follow from its module has none of itself. Any other has
/// the environment; and where inputs are found automatically the files of its module
/// and the globs of its dependencies, in order.
pub proof fn tasks_have_inputs_of_themselves(
    task: Seq<char>,
    path_to_root: Seq<char>,
    dependencies: Seq<DependencyModel>,
    glob: Seq<char>,
)
    ensures
        !derives_io(task) ==> task_io(task, path_to_root, dependencies, true) is None && task_io(
            task,
            path_to_root,
            dependencies,
            false,
        ) is None,
        derives_io(task) ==> task_io(task, path_to_root, dependencies, false) == Some(
            TaskIOModel {
                env: hashed_env(),
                package_default_inputs: None,
                input_globs: seq![],
            },
        ),
        derives_io(task) ==> (task_io(task, path_to_root, dependencies, true) matches Some(io)
            && io.env == hashed_env() && io.package_default_inputs == Some(true) && ascending::<
            String,
        >(io.input_globs) && (io.input_globs.contains(glob) <==> dependency_globs(
            path_to_root,
            dependencies,
        ).contains(glob))),
{
    let all = dependency_globs(path_to_root, dependencies);
    lemma_globs_finite(path_to_root, dependencies);
    lemma_sorted_lists::<String>(all);
    assert(sorted::<String>(all).to_set().contains(glob) <==> sorted::<String>(all).contains(
        glob,
    ));
}

/// The environment that tasks depend on is that of the compiler and of cgo: the target,
/// the flags, the experiments, the workspace, and the tools that build C.
pub proof fn environment_is_that_of_the_compiler()
    ensures
        hashed_env().len() == 22,
        hashed_env().contains("GOOS"@),
        hashed_env().contains("GOARCH"@),
        hashed_env().contains("GO386"@),
        hashed_env().contains("GOAMD64"@),
        hashed_env().contains("GOARM"@),
        hashed_env().contains("GOARM64"@),
        hashed_env().contains("GOMIPS"@),
        hashed_env().contains("GOMIPS64"@),
        hashed_env().contains("GOPPC64"@),
        hashed_env().contains("GORISCV64"@),
        hashed_env().contains("GOFLAGS"@),
        hashed_env().contains("GOEXPERIMENT"@),
        hashed_env().contains("GOWORK"@),
        hashed_env().contains("CGO_ENABLED"@),
        hashed_env().contains("CGO_CFLAGS"@),
        hashed_env().contains("CGO_CPPFLAGS"@),
        hashed_env().contains("CGO_CXXFLAGS"@),
        hashed_env().contains("CGO_FFLAGS"@),
        hashed_env().contains("CGO_LDFLAGS"@),
        hashed_env().contains("CC"@),
        hashed_env().contains("CXX"@),
        hashed_env().contains("PKG_CONFIG"@),
{
    let env = hashed_env();
    assert(env[0] == "CC"@ && env[1] == "CGO_CFLAGS"@ && env[2] == "CGO_CPPFLAGS"@);
    assert(env[3] == "CGO_CXXFLAGS"@ && env[4] == "CGO_ENABLED"@ && env[5] == "CGO_FFLAGS"@);
    assert(env[6] == "CGO_LDFLAGS"@ && env[7] == "CXX"@ && env[8] == "GO386"@);
    assert(env[9] == "GOAMD64"@ && env[10] == "GOARCH"@ && env[11] == "GOARM"@);
    assert(env[12] == "GOARM64"@ && env[13] == "GOEXPERIMENT"@ && env[14] == "GOFLAGS"@);
    assert(env[15] == "GOMIPS"@ && env[16] == "GOMIPS64"@ && env[17] == "GOOS"@);
    assert(env[18] == "GOPPC64"@ && env[19] == "GORISCV64"@ && env[20] == "GOWORK"@);
    assert(env[21] == "PKG_CONFIG"@);
}

} // verus!
