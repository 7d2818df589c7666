//! From listings to packages.
use std::collections::BTreeSet;
use turbo_go::discovery::{
    check_directories, external_relationships, import_targets, imported_modules, module_facts,
    DependencyKind, Discovery, ModuleReport, Relationship, RelationshipTarget,
    ResolutionCompleteness, ResolutionDomainId, SumFile, ToolchainId,
};
use turbo_go::error::{Error, PathError};
use turbo_go::listing::{GoListModule, GoListPackage};
use turbo_go::path::{AbsolutePath, AnchoredPath};
use turbo_go::syntax::{parse_mod, WorkFile};
use turbo_go::workspace::{
    discover_modules, planned_lookups, workspace_file, Lookup, ManifestFile, ModuleInfo,
    WorkspaceMember,
};

fn absolute(text: &str) -> AbsolutePath {
    AbsolutePath {
        text: text.to_string(),
        components: text.split('/').filter(|part| !part.is_empty()).map(String::from).collect(),
    }
}

fn module(directory: &str, contents: &str) -> ModuleInfo {
    let path = absolute(&format!("{directory}/go.mod"));
    let manifest = parse_mod(&path, contents).unwrap();
    ModuleInfo {
        name: manifest.name.clone(),
        directory: absolute(directory),
        manifest_path: path,
        manifest,
    }
}

fn member(use_path: &str, directory: &str, contents: &str) -> WorkspaceMember {
    WorkspaceMember {
        use_path: use_path.to_string(),
        directory: Lookup::Found(absolute(directory)),
        manifest: ManifestFile::Text {
            path: format!("{directory}/go.mod"),
            contents: contents.to_string(),
        },
    }
}

fn listed_module(path: &str, dir: &str, main: bool) -> GoListModule {
    GoListModule {
        path: path.to_string(),
        version: String::new(),
        sum: String::new(),
        go_mod_sum: String::new(),
        main,
        replace: None,
        dir: dir.to_string(),
    }
}

fn outside_module(path: &str) -> GoListModule {
    GoListModule {
        path: path.to_string(),
        version: "v1.6.0".to_string(),
        sum: "h1:module".to_string(),
        go_mod_sum: "h1:manifest".to_string(),
        main: false,
        replace: None,
        dir: String::new(),
    }
}

fn package(
    name: &str,
    import_path: &str,
    imports: &[&str],
    module: Option<GoListModule>,
) -> GoListPackage {
    GoListPackage {
        name: name.to_string(),
        import_path: import_path.to_string(),
        imports: imports.iter().map(|import| import.to_string()).collect(),
        module,
    }
}

fn empty_report() -> ModuleReport {
    ModuleReport {
        local: Vec::new(),
        listed: Vec::new(),
        directories: Vec::new(),
        targets: Vec::new(),
        lookups: Vec::new(),
    }
}

fn no_work() -> WorkFile {
    WorkFile { go_version: None, toolchain: None, uses: Vec::new(), replacements: Vec::new() }
}

/// Looks up what is planned for `module`, in a file system without links.
fn looked_up(work: &WorkFile, module: &ModuleInfo) -> Vec<Option<Lookup>> {
    planned_lookups(work, module, &absolute("/repo"))
        .into_iter()
        .map(|planned| {
            planned.map(|(base, path)| {
                let mut components = base.components;
                for part in path.split('/') {
                    match part {
                        "" | "." => {}
                        ".." => {
                            components.pop();
                        }
                        name => components.push(name.to_string()),
                    }
                }
                found(&format!("/{}", components.join("/")))
            })
        })
        .collect()
}

fn sum_file(path: &str, contents: &str) -> Option<SumFile> {
    Some(SumFile { path: path.to_string(), contents: contents.to_string() })
}

fn found(text: &str) -> Lookup {
    Lookup::Found(absolute(text))
}

fn anchored(parts: &[&str]) -> Vec<String> {
    parts.iter().map(|part| part.to_string()).collect()
}

fn sources(paths: &[AnchoredPath]) -> Vec<String> {
    paths.iter().map(|path| path.to_unix()).collect()
}

const API: &str = "module example.com/api\n\ngo 1.20\n\nrequire example.com/auth v0.0.0\n\nreplace \
                   example.com/auth => ../../packages/auth\n";

const AUTH: &str = "module example.com/auth\n\ngo 1.20\n";

fn api_report() -> ModuleReport {
    let api = || Some(listed_module("example.com/api", "/repo/apps/api", true));
    ModuleReport {
        local: vec![package("main", "example.com/api", &["example.com/auth"], api())],
        listed: vec![
            package(
                "auth",
                "example.com/auth",
                &[],
                Some(listed_module("example.com/auth", "/repo/packages/auth", false)),
            ),
            package("main", "example.com/api", &["example.com/auth"], api()),
        ],
        directories: vec![found("/repo/packages/auth"), found("/repo/apps/api")],
        targets: vec![
            Some(absolute("/repo/packages/auth")),
            Some(absolute("/repo/apps/api")),
        ],
        lookups: vec![Some(found("/repo/packages/auth"))],
    }
}

fn auth_report() -> ModuleReport {
    let auth = || Some(listed_module("example.com/auth", "/repo/packages/auth", true));
    ModuleReport {
        local: vec![package("auth", "example.com/auth", &[], auth())],
        listed: vec![package("auth", "example.com/auth", &[], auth())],
        directories: vec![found("/repo/packages/auth")],
        targets: vec![Some(absolute("/repo/packages/auth"))],
        lookups: Vec::new(),
    }
}

#[test]
fn discovers_modules_edges_and_main_tasks() {
    let root = absolute("/repo");
    let work = workspace_file(
        &absolute("/repo/go.work"),
        Some("go 1.20\n\nuse (\n ./apps/api\n ./packages/auth\n)\n"),
    )
    .unwrap();
    assert_eq!(work.uses, ["./apps/api", "./packages/auth"]);
    let modules = discover_modules(
        &root,
        vec![
            member("./apps/api", "/repo/apps/api", API),
            member("./packages/auth", "/repo/packages/auth", AUTH),
        ],
    )
    .unwrap();
    let mut discovery = Discovery::new();
    for (module, mut report) in modules.iter().zip([api_report(), auth_report()]) {
        report.lookups = looked_up(&work, module);
        let facts = module_facts(&root, &work, &modules, module, "go1.20", report).unwrap();
        discovery.add_module(facts, None);
    }
    let discovered = discovery.finish(&root, &modules, work, true, None).unwrap();
    assert_eq!(discovered.packages.len(), 2);
    assert_eq!(discovered.resolution.packages.len(), 2);
    assert_eq!(discovered.resolution.domain, ResolutionDomainId::Go);
    assert_eq!(discovered.resolution.toolchain, ToolchainId::Go);
    assert_eq!(discovered.resolution.completeness, ResolutionCompleteness::Complete);
    assert_eq!(discovered.resolution.root.to_unix(), "");
    assert_eq!(discovered.root.name, "go");
    assert_eq!(discovered.root.path.text, "/repo");
    let api = discovered
        .packages
        .iter()
        .find(|package| package.name == "example.com/api")
        .unwrap();
    assert!(api
        .relationships
        .iter()
        .any(|relationship| relationship.target
            == RelationshipTarget::Internal("example.com/auth".into())));
    let task_names: BTreeSet<_> = api.tasks.iter().map(|task| task.name.to_string()).collect();
    assert!(task_names.contains("build"));
    assert!(task_names.contains("run"));
    assert!(task_names.contains("test"));
    assert_eq!(discovered.resolution.members, ["example.com/api", "example.com/auth"]);
    assert_eq!(
        sources(&discovered.resolution.definition_sources),
        ["apps/api/go.mod", "go.work", "packages/auth/go.mod"]
    );
    let plan = discovered.prune.plan(&["example.com/api".to_string()]).unwrap().unwrap();
    assert_eq!(plan.extra_packages, ["example.com/auth"]);
    assert_eq!(
        plan.root_files,
        [(
            "go.work".to_string(),
            "go 1.20\n\nuse (\n\t./apps/api\n\t./packages/auth\n)\n".to_string(),
        )]
    );
}

#[test]
fn root_go_mod_is_a_single_module_workspace() {
    let root = absolute("/repo");
    let work = workspace_file(&absolute("/repo/go.work"), None).unwrap();
    let members = work
        .uses
        .iter()
        .map(|use_path| member(use_path, "/repo", "module example.com/single\n"))
        .collect();
    let modules = discover_modules(&root, members).unwrap();
    let main = || Some(listed_module("example.com/single", "/repo", true));
    let report = ModuleReport {
        local: vec![package("main", "example.com/single", &[], main())],
        listed: vec![package("main", "example.com/single", &[], main())],
        directories: vec![found("/repo")],
        targets: vec![Some(absolute("/repo"))],
        lookups: Vec::new(),
    };
    let facts = module_facts(&root, &no_work(), &modules, &modules[0], "go1.24", report).unwrap();
    let mut discovery = Discovery::new();
    discovery.add_module(facts, sum_file("/repo/go.sum", "a v1 h1:x\n"));
    let discovered = discovery.finish(&root, &modules, work, false, None).unwrap();
    assert_eq!(discovered.resolution.members, ["example.com/single"]);
    let run = discovered.packages[0].tasks.iter().find(|task| task.name == "run").unwrap();
    assert_eq!(run.command, "go run example.com/single");
    assert_eq!(sources(&discovered.resolution.definition_sources), ["go.mod", "go.sum"]);
    let plan = discovered.prune.plan(&["example.com/single".to_string()]).unwrap().unwrap();
    assert_eq!(plan.root_files, [("go.sum".to_string(), String::new())]);
}

#[test]
fn facts_gather_what_a_module_is_built_of() {
    let root = absolute("/repo");
    let manifest = format!("{API}require (\ngithub.com/google/uuid v1.6.0\nauth v0.0.0\n)\n");
    let modules = vec![
        module("/repo/apps/api", &manifest),
        module("/repo/packages/auth", AUTH),
        module("/repo/other", "module auth\n"),
    ];
    let mut report = api_report();
    report.listed.push(package("uuid", "github.com/google/uuid", &[], {
        Some(outside_module("github.com/google/uuid"))
    }));
    report.listed.push(package("fmt", "fmt", &[], None));
    report.targets.push(None);
    report.targets.push(None);
    report.lookups = looked_up(&no_work(), &modules[0]);
    assert_eq!(report.lookups.len(), 3);
    let facts = module_facts(&root, &no_work(), &modules, &modules[0], "go1.24", report).unwrap();
    assert_eq!(facts.package.name, "example.com/api");
    assert_eq!(facts.package.manifest_path.text, "/repo/apps/api/go.mod");
    assert_eq!(
        facts.package.relationships,
        [
            Relationship {
                name: "example.com/auth".to_string(),
                kind: DependencyKind::Production,
                target: RelationshipTarget::Internal("example.com/auth".to_string()),
            },
            Relationship {
                name: "github.com/google/uuid".to_string(),
                kind: DependencyKind::Production,
                target: RelationshipTarget::UnresolvedExternal {
                    name: "github.com/google/uuid".to_string(),
                    specifier: "v1.6.0".to_string(),
                },
            },
        ]
    );
    assert_eq!(facts.package.tasks.len(), 7);
    assert_eq!(facts.dependencies, ["example.com/auth"]);
    assert_eq!(facts.directory, "apps/api");
    assert_eq!(
        facts.requirements.into_vec(),
        ["example.com/api", "example.com/auth", "github.com/google/uuid"]
    );
    assert_eq!(
        facts.sum_keys.into_vec(),
        [("github.com/google/uuid".to_string(), "v1.6.0".to_string())]
    );
    let identities: Vec<(String, String)> = facts
        .identities
        .into_vec()
        .into_iter()
        .map(|identity| (identity.key, identity.version))
        .collect();
    assert_eq!(
        identities,
        [
            (
                "github.com/google/uuid".to_string(),
                "v1.6.0#h1:module#h1:manifest".to_string(),
            ),
            ("go".to_string(), "go1.24".to_string()),
        ]
    );
}

#[test]
fn wrong_reports_are_refused_in_order() {
    let root = absolute("/repo");
    let modules = vec![module("/repo/apps/api", API), module("/repo/packages/auth", AUTH)];
    let facts = |report: ModuleReport| module_facts(&root, &no_work(), &modules, &modules[0], "go1", report);
    let incomplete = || {
        let mut module = outside_module("example.com/x");
        module.sum = String::new();
        package("x", "example.com/x", &[], Some(module))
    };
    let mut unknown = api_report();
    unknown.directories[0] = found("/repo/libs/other");
    unknown.listed.push(incomplete());
    unknown.targets.push(None);
    assert!(matches!(
        facts(unknown),
        Err(Error::UnknownLocalReplacement { path }) if path == "/repo/packages/auth"
    ));
    let mut unchecked = api_report();
    unchecked.listed.push(incomplete());
    unchecked.targets.push(None);
    unchecked.lookups[0] = Some(found("/elsewhere"));
    assert!(matches!(
        facts(unchecked),
        Err(Error::MissingChecksum { path, version })
            if path == "example.com/x" && version == "v1.6.0"
    ));
    let mut outside = api_report();
    outside.lookups[0] = Some(found("/elsewhere"));
    assert!(matches!(
        facts(outside),
        Err(Error::OutsideRepository { path, root })
            if path == "../../packages/auth" && root == "/repo"
    ));
    let stray = module("/stray", "module stray\n");
    assert!(matches!(
        module_facts(&root, &no_work(), &modules, &stray, "go1", empty_report()),
        Err(Error::Path(PathError::NotParent { root, path }))
            if root == "/repo" && path == "/stray"
    ));
}

#[test]
fn local_modules_must_be_of_the_workspace() {
    let root = absolute("/repo");
    let modules = vec![module("/repo/a", "module a\n")];
    let directories = anchored(&["/repo/a", "/repo/b"]);
    assert!(check_directories(
        &root,
        &directories[..1].to_vec(),
        vec![found("/repo/a")],
        &modules
    )
    .is_ok());
    assert!(matches!(
        check_directories(
            &root,
            &directories,
            vec![found("/repo/a"), found("/repo/b")],
            &modules
        ),
        Err(Error::UnknownLocalReplacement { path }) if path == "/repo/b"
    ));
    assert!(matches!(
        check_directories(
            &root,
            &directories,
            vec![
                Lookup::Invalid(PathError::InvalidUnicode("?".to_string())),
                found("/repo/b"),
            ],
            &modules
        ),
        Err(Error::Path(PathError::InvalidUnicode(_)))
    ));
}

#[test]
fn imports_lead_to_other_modules() {
    let modules = vec![module("/repo/a", "module a\n"), module("/repo/b", "module b\n")];
    let listed = vec![
        package("x", "b/x", &[], Some(listed_module("b", "/repo/b", false))),
        package("y", "a/y", &[], Some(listed_module("a", "/repo/a", true))),
        package("z", "c/z", &[], Some(outside_module("c"))),
        package("fmt", "fmt", &[], None),
    ];
    let targets = vec![
        Some(absolute("/repo/b")),
        Some(absolute("/repo/a")),
        None,
        Some(absolute("/repo/b")),
    ];
    let map = import_targets(&listed, &targets, &modules);
    assert_eq!(map.get("b/x").map(String::as_str), Some("b"));
    assert_eq!(map.get("a/y").map(String::as_str), Some("a"));
    assert_eq!(map.get("c/z"), None);
    assert_eq!(map.get("fmt"), None);
    let local = vec![
        package("y", "a/y", &["fmt", "b/x", "c/z"], None),
        package("w", "a/w", &["a/y", "b/x"], None),
    ];
    assert_eq!(imported_modules(&local, &map, "a").into_vec(), ["b"]);
    assert_eq!(imported_modules(&local, &map, "b").into_vec(), ["a"]);
}

#[test]
fn external_requirements_become_relationships() {
    let root = absolute("/repo");
    let work = workspace_file(
        &absolute("/repo/go.work"),
        Some("use ./a\nreplace w => ./a\nreplace r => example.com/r v9\n"),
    )
    .unwrap();
    let own = "module m\nrequire (\nw v1\nr v1\na v1\nx v3\ny v4\nz v5\n)\nreplace y => \
               example.com/y\nreplace z => ../a\n";
    let modules = vec![module("/repo/m", own), module("/repo/a", "module a\n")];
    let lookups = looked_up(&work, &modules[0]);
    let relationships =
        external_relationships(&root, &work, &modules[0], lookups, &modules).unwrap();
    let outside: Vec<(&str, &RelationshipTarget)> = relationships
        .iter()
        .map(|relationship| (relationship.name.as_str(), &relationship.target))
        .collect();
    let target = |name: &str, specifier: &str| RelationshipTarget::UnresolvedExternal {
        name: name.to_string(),
        specifier: specifier.to_string(),
    };
    assert_eq!(
        outside,
        [
            ("r", &target("r", "v9")),
            ("x", &target("x", "v3")),
            ("y", &target("y", "v4")),
        ]
    );
    let unknown = vec![module("/repo/m", "module m\nrequire z v1\nreplace z => ../b\n")];
    let lookups = looked_up(&no_work(), &unknown[0]);
    assert!(matches!(
        external_relationships(&root, &no_work(), &unknown[0], lookups, &unknown),
        Err(Error::UnknownLocalReplacement { path }) if path == "../b"
    ));
}

#[test]
fn identities_are_kept_per_module() {
    let root = absolute("/repo");
    let modules = vec![module("/repo/apps/api", API), module("/repo/packages/auth", AUTH)];
    let mut discovery = Discovery::new();
    for (module, report) in modules.iter().zip([api_report(), auth_report()]) {
        let facts = module_facts(&root, &no_work(), &modules, module, "go1.24", report).unwrap();
        let path = format!("{}/go.sum", module.directory.text);
        discovery.add_module(facts, sum_file(&path, "a v1 h1:x\n"));
    }
    assert_eq!(
        discovery.directories.get("example.com/api").map(String::as_str),
        Some("apps/api")
    );
    assert_eq!(
        discovery.module_sums.get("example.com/auth").map(|sum| sum.path.as_str()),
        Some("packages/auth/go.sum")
    );
    assert_eq!(
        discovery.dependencies.get("example.com/api"),
        Some(&vec!["example.com/auth".to_string()])
    );
    assert_eq!(discovery.dependencies.get("example.com/auth"), Some(&Vec::new()));
    for resolution in discovery.resolutions {
        let identities = resolution.identities.into_vec();
        assert_eq!(identities.len(), 1);
        assert_eq!(identities[0].key, "go");
        assert_eq!(identities[0].version, "go1.24");
        assert_eq!(identities[0].human_name, None);
    }
}

#[test]
fn sources_are_sorted_and_need_the_repository() {
    let root = absolute("/repo");
    let modules = vec![module("/repo/b", "module b\n"), module("/repo/a", "module a\n")];
    let mut discovery = Discovery::new();
    for module in &modules {
        let facts = module_facts(&root, &no_work(), &modules, module, "go1", empty_report()).unwrap();
        let path = format!("{}/go.sum", module.directory.text);
        discovery.add_module(facts, sum_file(&path, ""));
    }
    let discovered = discovery
        .finish(&root, &modules, no_work(), true, Some("x v1 h1:x\n".to_string()))
        .unwrap();
    assert_eq!(
        sources(&discovered.resolution.definition_sources),
        ["a/go.mod", "a/go.sum", "b/go.mod", "b/go.sum", "go.work", "go.work.sum"]
    );
    assert_eq!(discovered.resolution.members, ["b", "a"]);
    assert_eq!(
        discovered.observation.resolution_paths,
        ["go.work", "go.work.sum", "b/go.sum", "a/go.sum"]
    );
    let stray = vec![module("/stray", "module stray\n")];
    assert!(matches!(
        Discovery::new().finish(&root, &stray, no_work(), false, None),
        Err(Error::Path(PathError::NotParent { root, path }))
            if root == "/repo" && path == "/stray/go.mod"
    ));
}

#[test]
fn pruning_stays_in_the_workspace() {
    let root = absolute("/repo");
    let modules = vec![module("/repo/apps/api", API), module("/repo/packages/auth", AUTH)];
    let mut discovery = Discovery::new();
    for (module, report) in modules.iter().zip([api_report(), auth_report()]) {
        let facts = module_facts(&root, &no_work(), &modules, module, "go1", report).unwrap();
        discovery.add_module(facts, None);
    }
    let discovered = discovery.finish(&root, &modules, no_work(), true, None).unwrap();
    for name in &discovered.resolution.members {
        let plan = discovered.prune.plan(&[name.clone()]).unwrap().unwrap();
        assert!(plan.extra_packages.iter().all(|extra| discovered.resolution.members.contains(extra)));
        assert!(!plan.extra_packages.contains(name));
    }
}

#[test]
fn sums_outside_the_repository_are_named() {
    let stray = absolute("/stray");
    let mut modules = vec![module("/stray", "module stray\n")];
    let facts =
        module_facts(&stray, &no_work(), &modules, &modules[0], "go1", empty_report()).unwrap();
    let mut discovery = Discovery::new();
    discovery.add_module(facts, sum_file("/stray/go.sum", ""));
    modules[0].manifest_path = absolute("/repo/go.mod");
    assert!(matches!(
        discovery.finish(&absolute("/repo"), &modules, no_work(), false, None),
        Err(Error::Path(PathError::NotParent { root, path }))
            if root == "/repo" && path == "/stray/go.sum"
    ));
}
