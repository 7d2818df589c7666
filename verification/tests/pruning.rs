//! Pruning a workspace.
use turbo_go::collections::{NameMap, SortedSet};
use turbo_go::path::AbsolutePath;
use turbo_go::prune::{close_over, GoPruneKnowledge, ModuleSumKnowledge};
use turbo_go::syntax::{parse_work, Replacement};

fn texts(parts: &[&str]) -> Vec<String> {
    parts.iter().map(|part| part.to_string()).collect()
}

fn names(pairs: &[(&str, &str)]) -> NameMap<String> {
    let mut map = NameMap::new();
    for (name, value) in pairs {
        map.insert(name.to_string(), value.to_string());
    }
    map
}

fn edges(pairs: &[(&str, &[&str])]) -> NameMap<Vec<String>> {
    let mut map = NameMap::new();
    for (name, targets) in pairs {
        map.insert(name.to_string(), texts(targets));
    }
    map
}

fn set(items: &[&str]) -> SortedSet<String> {
    let mut set = SortedSet::new();
    for item in items {
        set.insert(item.to_string());
    }
    set
}

fn sum(path: &str, contents: &str, keys: &[(&str, &str)]) -> ModuleSumKnowledge {
    let mut set = SortedSet::new();
    for (name, version) in keys {
        set.insert((name.to_string(), version.to_string()));
    }
    ModuleSumKnowledge { path: path.to_string(), contents: contents.to_string(), keys: set }
}

fn replacement(old: &str, new: &str, version: Option<&str>) -> Replacement {
    Replacement {
        old: old.to_string(),
        old_version: None,
        new: new.to_string(),
        version: version.map(String::from),
    }
}

/// Three modules, of which the first needs the second.
fn workspace() -> GoPruneKnowledge {
    let mut requirements = NameMap::new();
    requirements.insert("a".to_string(), set(&["x", "b"]));
    requirements.insert("c".to_string(), set(&["y"]));
    let mut module_sums = NameMap::new();
    module_sums.insert(
        "a".to_string(),
        sum("a/go.sum", "x v1 h1:x\ny v1 h1:y\n", &[("x", "v1")]),
    );
    module_sums.insert("c".to_string(), sum("go.sum", "y v1 h1:y\n", &[("y", "v1")]));
    GoPruneKnowledge {
        directories: names(&[("a", "a"), ("b", "libs/b/"), ("c", "")]),
        dependencies: edges(&[("a", &["b"]), ("b", &[]), ("c", &["a", "c"])]),
        go_version: None,
        toolchain: None,
        replacements: vec![
            replacement("x", "./forks/x", None),
            replacement("y", "example.com/y", Some("v2")),
        ],
        requirements,
        module_sums,
        work_sum: Some("x v1 h1:x\ny v1/go.mod h1:y\nz v1 h1:z\n".to_string()),
        workspace: true,
    }
}

#[test]
fn prune_closes_over_local_modules() {
    let knowledge = GoPruneKnowledge {
        directories: names(&[
            ("example.com/api", "services/api"),
            ("example.com/auth", "libs/auth"),
        ]),
        dependencies: edges(&[("example.com/api", &["example.com/auth"])]),
        go_version: Some("1.24".into()),
        toolchain: Some("go1.24.1".into()),
        replacements: Vec::new(),
        requirements: NameMap::new(),
        module_sums: NameMap::new(),
        work_sum: None,
        workspace: true,
    };
    let plan = knowledge.plan(&["example.com/api".into()]).unwrap().unwrap();
    assert_eq!(plan.extra_packages, ["example.com/auth"]);
    assert!(plan.root_files[0].1.contains("./libs/auth"));
    assert!(plan.root_files[0].1.contains("./services/api"));
    assert_eq!(
        plan.root_files[0].1,
        "go 1.24\ntoolchain go1.24.1\n\nuse (\n\t./services/api\n\t./libs/auth\n)\n"
    );
}

#[test]
fn plan_writes_sums_and_workspace_files() {
    let plan = workspace().plan(&texts(&["a"])).unwrap().unwrap();
    assert_eq!(plan.extra_packages, ["b"]);
    assert_eq!(
        plan.root_files,
        [
            ("a/go.sum".to_string(), "x v1 h1:x\n".to_string()),
            (
                "go.work".to_string(),
                "go 1.18\n\nuse (\n\t./a\n\t./libs/b\n)\n\nreplace x => ./forks/x\n".to_string(),
            ),
            ("go.work.sum".to_string(), "x v1 h1:x\n".to_string()),
        ]
    );
    assert!(plan.copy_paths.is_empty());
}

#[test]
fn everything_stays_where_everything_is_needed() {
    let plan = workspace().plan(&texts(&["c"])).unwrap().unwrap();
    assert_eq!(plan.extra_packages, ["a", "b"]);
    let files: Vec<&str> = plan.root_files.iter().map(|(path, _)| path.as_str()).collect();
    assert_eq!(files, ["a/go.sum", "go.sum", "go.work", "go.work.sum"]);
    assert_eq!(
        plan.root_files[2].1,
        "go 1.18\n\nuse (\n\t./a\n\t./libs/b\n\t.\n)\n\nreplace x => ./forks/x\n\nreplace y => \
         example.com/y v2\n"
    );
    assert_eq!(plan.root_files[3].1, "x v1 h1:x\ny v1/go.mod h1:y\n");
}

#[test]
fn nothing_kept_needs_no_plan() {
    assert_eq!(workspace().plan(&[]).unwrap(), None);
}

#[test]
fn unknown_packages_stay_by_themselves() {
    let plan = workspace().plan(&texts(&["js-pkg"])).unwrap().unwrap();
    assert!(plan.extra_packages.is_empty());
    assert_eq!(plan.root_files[0].1, "go 1.18\n\nuse (\n)\n");
}

#[test]
fn single_modules_have_no_workspace_files() {
    let mut knowledge = workspace();
    knowledge.workspace = false;
    let plan = knowledge.plan(&texts(&["a"])).unwrap().unwrap();
    let files: Vec<&str> = plan.root_files.iter().map(|(path, _)| path.as_str()).collect();
    assert_eq!(files, ["a/go.sum"]);
}

#[test]
fn pruning_again_adds_nothing() {
    let knowledge = workspace();
    let once = knowledge.plan(&texts(&["a"])).unwrap().unwrap();
    let again = knowledge.plan(&texts(&["a", "b"])).unwrap().unwrap();
    assert!(again.extra_packages.is_empty());
    assert_eq!(again.root_files, once.root_files);
}

#[test]
fn order_and_repetition_do_not_matter() {
    let knowledge = workspace();
    assert_eq!(
        knowledge.plan(&texts(&["b", "a", "b"])).unwrap(),
        knowledge.plan(&texts(&["a", "b"])).unwrap()
    );
}

#[test]
fn closure_follows_cycles_and_stops() {
    let graph = edges(&[("a", &["b", "c"]), ("b", &["a"]), ("c", &["d"]), ("e", &["a"])]);
    assert_eq!(close_over(&graph, &texts(&["b"])).into_vec(), ["a", "b", "c", "d"]);
    assert_eq!(close_over(&graph, &texts(&["d"])).into_vec(), ["d"]);
    assert_eq!(
        close_over(&graph, &texts(&["e", "x"])).into_vec(),
        ["a", "b", "c", "d", "e", "x"]
    );
}

#[test]
fn pruned_work_is_read_back() {
    let mut knowledge = workspace();
    knowledge.go_version = Some("1.24".to_string());
    knowledge.toolchain = Some("go1.24.1".to_string());
    let plan = knowledge.plan(&texts(&["c"])).unwrap().unwrap();
    let path = AbsolutePath { text: "/repo/go.work".to_string(), components: Vec::new() };
    let work = parse_work(&path, &plan.root_files[2].1).unwrap();
    assert_eq!(work.go_version.as_deref(), Some("1.24"));
    assert_eq!(work.toolchain.as_deref(), Some("go1.24.1"));
    assert_eq!(work.uses, ["./a", "./libs/b", "."]);
    assert_eq!(work.replacements, knowledge.replacements);
}

#[test]
fn work_sum_covers_the_sums_of_modules() {
    let mut knowledge = workspace();
    knowledge.work_sum = Some("x v1 h1:x\ny v1 h1:y\n".to_string());
    let plan = knowledge.plan(&texts(&["c"])).unwrap().unwrap();
    let work_sum = &plan.root_files.last().unwrap().1;
    for (path, contents) in &plan.root_files {
        if path.ends_with("go.sum") {
            for line in contents.lines() {
                assert!(work_sum.contains(line));
            }
        }
    }
}

#[test]
fn keeping_more_leaves_no_less() {
    let graph = edges(&[("a", &["b"]), ("c", &["d"])]);
    let fewer = close_over(&graph, &texts(&["a"])).into_vec();
    let more = close_over(&graph, &texts(&["c", "a"])).into_vec();
    assert_eq!(fewer, ["a", "b"]);
    assert_eq!(more, ["a", "b", "c", "d"]);
    assert!(fewer.iter().all(|name| more.contains(name)));
}

#[test]
fn kept_and_extra_packages_are_all_that_stays() {
    let knowledge = workspace();
    let kept = texts(&["c", "js-pkg"]);
    let plan = knowledge.plan(&kept).unwrap().unwrap();
    let mut all: Vec<String> = kept.iter().chain(&plan.extra_packages).cloned().collect();
    all.sort();
    assert_eq!(close_over(&knowledge.dependencies, &kept).into_vec(), all);
    assert_eq!(plan.extra_packages, ["a", "b"]);
}

#[test]
fn directories_have_use_paths_of_their_own() {
    let mut knowledge = workspace();
    knowledge.directories = names(&[("a", ""), ("b", "x"), ("c", "x/y")]);
    let plan = knowledge.plan(&texts(&["c"])).unwrap().unwrap();
    assert!(plan.root_files[2].1.contains("use (\n\t.\n\t./x\n\t./x/y\n)\n"));
}

#[test]
fn read_versions_are_written_again() {
    let path = AbsolutePath { text: "/repo/go.work".to_string(), components: Vec::new() };
    let contents = "go (\n 1.24 // latest\n)\ntoolchain go1.24.1 extra\nuse .\n";
    let read = parse_work(&path, contents).unwrap();
    let mut knowledge = workspace();
    knowledge.go_version = read.go_version;
    knowledge.toolchain = read.toolchain;
    let plan = knowledge.plan(&texts(&["b"])).unwrap().unwrap();
    assert_eq!(
        plan.root_files[0].1,
        "go 1.24\ntoolchain go1.24.1\n\nuse (\n\t./libs/b\n)\n"
    );
    let again = parse_work(&path, &plan.root_files[0].1).unwrap();
    assert_eq!(again.go_version, knowledge.go_version);
    assert_eq!(again.toolchain, knowledge.toolchain);
}
