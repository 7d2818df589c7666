//! Tasks, their inputs and what they promise.
use turbo_go::path::AnchoredPath;
use turbo_go::tasks::{
    hashed_env_vars, native_tasks, task_contract, DependencySourceInputs, GoTaskContract,
    TaskDefaults, TaskDependency, TaskEntrypoint,
};

fn dependency(parts: &[&str], source_inputs: DependencySourceInputs) -> TaskDependency {
    TaskDependency {
        directory: AnchoredPath {
            components: parts.iter().map(|part| part.to_string()).collect(),
        },
        source_inputs,
    }
}

#[test]
fn every_module_has_five_tasks() {
    let tasks = native_tasks(None);
    let shown: Vec<(&str, &str, &str)> = tasks
        .iter()
        .map(|task| (task.name.as_str(), task.command.as_str(), task.subcommand.as_str()))
        .collect();
    assert_eq!(
        shown,
        [
            ("build", "go build ./...", "build"),
            ("test", "go test ./...", "test"),
            ("check", "go vet ./...", "vet"),
            ("lint", "go vet ./...", "vet"),
            ("format", "go fmt ./...", "fmt"),
        ]
    );
    assert!(tasks.iter().all(|task| task.args == ["./..."]));
}

#[test]
fn commands_can_be_run() {
    let tasks = native_tasks(Some("example.com/api"));
    assert_eq!(tasks.len(), 7);
    for (task, name) in tasks[5..].iter().zip(["run", "dev"]) {
        assert_eq!(task.name, name);
        assert_eq!(task.command, "go run example.com/api");
        assert_eq!(task.subcommand, "run");
        assert_eq!(task.args, ["example.com/api"]);
    }
}

#[test]
fn every_task_derives_its_inputs() {
    for main in [None, Some("m")] {
        let tasks = native_tasks(main);
        for task in &tasks {
            assert!(GoTaskContract.derives_task_io(&task.name));
        }
        for (i, task) in tasks.iter().enumerate() {
            assert!(tasks[..i].iter().all(|earlier| earlier.name != task.name));
        }
    }
    assert!(!GoTaskContract.derives_task_io("deploy"));
    assert!(!GoTaskContract.derives_task_io("Build"));
    assert!(!GoTaskContract.derives_task_io(""));
}

#[test]
fn contracts_depend_on_the_command() {
    let library = task_contract(false);
    assert_eq!(library.entrypoints.get("build"), Some(&TaskEntrypoint::Candidate));
    assert_eq!(library.entrypoints.get("run"), None);
    assert_eq!(library.entrypoints.get("dev"), None);
    let command = task_contract(true);
    for name in ["build", "run", "dev"] {
        assert_eq!(command.entrypoints.get(name), Some(&TaskEntrypoint::Preferred));
    }
    for contract in [library, command] {
        for name in ["format", "dev", "run"] {
            assert_eq!(contract.defaults.get(name), Some(&TaskDefaults { cache: Some(false) }));
        }
        assert_eq!(contract.defaults.get("build"), None);
    }
}

#[test]
fn environment_is_hashed() {
    let vars = hashed_env_vars();
    assert_eq!(vars.len(), 22);
    assert_eq!(vars[0], "CC");
    assert_eq!(vars[4], "CGO_ENABLED");
    assert_eq!(vars[20], "GOWORK");
    assert_eq!(vars[21], "PKG_CONFIG");
    let mut sorted = vars.clone();
    sorted.sort();
    assert_eq!(vars, sorted);
}

#[test]
fn inputs_cover_dependencies_in_order_and_once() {
    let read = DependencySourceInputs::Include;
    let dependencies = [
        dependency(&["packages", "auth"], read),
        dependency(&["libs"], DependencySourceInputs::Exclude),
        dependency(&[], read),
        dependency(&["packages", "auth"], read),
    ];
    let io = GoTaskContract.derived_task_io("build", "../..", &dependencies, true).unwrap();
    assert_eq!(io.env, hashed_env_vars());
    assert_eq!(io.package_default_inputs, Some(true));
    assert_eq!(
        io.input_globs,
        [
            "!../../.cache/go-build/**",
            "!../../.turbo/**",
            "!../../packages/auth/.cache/go-build/**",
            "!../../packages/auth/.turbo/**",
            "../../**",
            "../../packages/auth/**",
        ]
    );
}

#[test]
fn inputs_of_the_root_module_start_at_the_root() {
    let read = DependencySourceInputs::Include;
    let dependencies = [dependency(&["a"], read), dependency(&[], read)];
    let io = GoTaskContract.derived_task_io("test", "", &dependencies, true).unwrap();
    assert_eq!(
        io.input_globs,
        [
            "!./.cache/go-build/**",
            "!./.turbo/**",
            "!a/.cache/go-build/**",
            "!a/.turbo/**",
            "./**",
            "a/**",
        ]
    );
}

#[test]
fn inputs_are_left_to_configuration_where_asked() {
    let dependencies = [dependency(&["a"], DependencySourceInputs::Include)];
    let io = GoTaskContract.derived_task_io("lint", "..", &dependencies, false).unwrap();
    assert_eq!(io.package_default_inputs, None);
    assert!(io.input_globs.is_empty());
    assert_eq!(io.env, hashed_env_vars());
    assert_eq!(GoTaskContract.derived_task_io("deploy", "..", &dependencies, true), None);
}
