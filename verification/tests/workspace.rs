//! The modules of a workspace and how their requirements are met.
use turbo_go::error::{Error, PathError};
use turbo_go::names::{GO_MOD, GO_WORK, GO_WORK_SUM};
use turbo_go::path::AbsolutePath;
use turbo_go::syntax::{parse_mod, parse_work, Replacement, WorkFile};
use turbo_go::workspace::{
    canonical_module_dir, change_observation, choose_replacement, discover_modules, is_local_path,
    is_local_path_given, local_module, lookup_given, module_in, outside_specifier, path_inside,
    planned_lookups, replacement_target, workspace_file, ChangeObservation, Lookup, ManifestFile,
    ModuleInfo, WorkspaceMember,
};

fn absolute(text: &str) -> AbsolutePath {
    AbsolutePath {
        text: text.to_string(),
        components: text.split('/').filter(|part| !part.is_empty()).map(String::from).collect(),
    }
}

fn manifest(directory: &str, contents: &str) -> ManifestFile {
    ManifestFile::Text {
        path: format!("{directory}/go.mod"),
        contents: contents.to_string(),
    }
}

fn member(use_path: &str, directory: &str, contents: &str) -> WorkspaceMember {
    WorkspaceMember {
        use_path: use_path.to_string(),
        directory: Lookup::Found(absolute(directory)),
        manifest: manifest(directory, contents),
    }
}

fn unreadable(path: &str) -> (String, std::io::Error) {
    (path.to_string(), std::io::Error::new(std::io::ErrorKind::NotFound, "gone"))
}

fn module(directory: &str, contents: &str) -> ModuleInfo {
    let path = absolute(&format!("{directory}/go.mod"));
    let manifest = parse_mod(&path, contents).unwrap();
    ModuleInfo {
        name: manifest.name.clone(),
        directory: absolute(directory),
        manifest_path: path,
        manifest,
    }
}

fn work(contents: &str) -> WorkFile {
    parse_work(&absolute("/repo/go.work"), contents).unwrap()
}

#[test]
fn change_observation_tracks_workspace_manifests_sums_and_cache_prefixes() {
    let root = absolute("/repo");
    let uses = workspace_file(&absolute("/repo/go.work"), Some("go 1.20\nuse ./module\n")).unwrap();
    assert_eq!(uses.uses, ["./module"]);
    let members = vec![member("./module", "/repo/module", "module example.com/module\n\ngo 1.20\n")];
    let modules = discover_modules(&root, members).unwrap();
    assert_eq!(
        change_observation(&modules, &root),
        ChangeObservation::new()
            .with_rediscovery_file_name(GO_MOD)
            .with_resolution_path(GO_WORK)
            .with_resolution_path(GO_WORK_SUM)
            .with_resolution_path("module/go.sum")
            .with_ignore_prefix("module/.cache/go-build")
    );
}

#[test]
fn rejects_duplicate_module_paths() {
    let root = absolute("/repo");
    let work = workspace_file(
        &absolute("/repo/go.work"),
        Some("go 1.20\nuse (\n ./one\n ./two\n)\n"),
    )
    .unwrap();
    let directories = ["one", "two"];
    assert_eq!(work.uses.len(), directories.len());
    let members = work
        .uses
        .iter()
        .zip(directories)
        .map(|(use_path, directory)| {
            member(
                use_path,
                &format!("/repo/{directory}"),
                "module example.com/duplicate\n\ngo 1.20\n",
            )
        })
        .collect();
    assert!(matches!(
        discover_modules(&root, members),
        Err(Error::DuplicateModule { name }) if name == "example.com/duplicate"
    ));
}

#[test]
fn rejects_workspace_members_outside_repository() {
    let root = absolute("/parent/repository");
    let work = workspace_file(
        &absolute("/parent/repository/go.work"),
        Some("go 1.20\nuse ../outside\n"),
    )
    .unwrap();
    let members = work
        .uses
        .iter()
        .map(|use_path| {
            member(use_path, "/parent/outside", "module example.com/outside\n\ngo 1.20\n")
        })
        .collect();
    assert!(matches!(
        discover_modules(&root, members),
        Err(Error::OutsideRepository { path, root })
            if path == "../outside" && root == "/parent/repository"
    ));
}

#[test]
fn root_without_workspace_is_a_single_module() {
    let path = absolute("/repo/go.work");
    let alone = workspace_file(&path, None).unwrap();
    assert_eq!(alone.uses, ["."]);
    assert_eq!(alone.go_version, None);
    assert_eq!(alone.toolchain, None);
    assert!(alone.replacements.is_empty());
    assert!(matches!(workspace_file(&path, Some("use\n")), Err(Error::Parse { .. })));
}

#[test]
fn modules_come_in_order() {
    let members = vec![
        member("./b", "/repo/b", "module example.com/b\n"),
        member(".", "/repo", "module example.com/root\n"),
    ];
    let modules = discover_modules(&absolute("/repo"), members).unwrap();
    let names: Vec<&str> = modules.iter().map(|module| module.name.as_str()).collect();
    assert_eq!(names, ["example.com/b", "example.com/root"]);
    assert_eq!(modules[0].directory.text, "/repo/b");
    assert_eq!(modules[0].manifest_path.text, "/repo/b/go.mod");
    assert_eq!(modules[0].manifest_path.components, ["repo", "b", "go.mod"]);
    assert_eq!(modules[1].manifest_path.components, ["repo", "go.mod"]);
}

#[test]
fn first_wrong_member_is_reported() {
    let root = absolute("/repo");
    let (path, source) = unreadable("/repo/gone");
    let members = vec![
        member("./a", "/repo/a", "module a\n"),
        WorkspaceMember {
            use_path: "./gone".to_string(),
            directory: Lookup::Unreadable { path, source },
            manifest: ManifestFile::Missing,
        },
        member("./a", "/repo/a", "module a\n"),
    ];
    assert!(matches!(
        discover_modules(&root, members),
        Err(Error::Read { path, .. }) if path == "/repo/gone"
    ));
}

#[test]
fn manifests_must_be_there_and_right() {
    let root = absolute("/repo");
    let with = |manifest: ManifestFile| {
        vec![WorkspaceMember {
            use_path: "./a".to_string(),
            directory: Lookup::Found(absolute("/repo/a")),
            manifest,
        }]
    };
    assert!(matches!(
        discover_modules(&root, with(ManifestFile::Missing)),
        Err(Error::MissingManifest { path }) if path == "./a"
    ));
    let (path, source) = unreadable("/repo/a/go.mod");
    assert!(matches!(
        discover_modules(&root, with(ManifestFile::Unreadable { path, source })),
        Err(Error::Read { path, .. }) if path == "/repo/a/go.mod"
    ));
    assert!(matches!(
        discover_modules(&root, with(manifest("/repo/a", "go 1.24\n"))),
        Err(Error::MissingModule(path)) if path == "/repo/a/go.mod"
    ));
}

#[test]
fn directories_lie_in_the_repository() {
    let root = absolute("/repo");
    let inside = canonical_module_dir(&root, "./a", Lookup::Found(absolute("/repo/a"))).unwrap();
    assert_eq!(inside.text, "/repo/a");
    assert!(canonical_module_dir(&root, ".", Lookup::Found(absolute("/repo"))).is_ok());
    assert!(matches!(
        canonical_module_dir(&root, "../repository", Lookup::Found(absolute("/repository"))),
        Err(Error::OutsideRepository { .. })
    ));
    assert!(matches!(
        canonical_module_dir(
            &root,
            "./a",
            Lookup::Invalid(PathError::InvalidUnicode("/repo/?".to_string())),
        ),
        Err(Error::Path(PathError::InvalidUnicode(path))) if path == "/repo/?"
    ));
}

#[test]
fn local_paths_are_relative_or_absolute() {
    for value in [".", "..", "./a", "../a", "../../a/b"] {
        assert!(is_local_path(value));
    }
    for value in ["example.com/a", "...", ".a", "a/./b", "", "v1.2.3"] {
        assert!(!is_local_path(value));
    }
    let absolute = std::path::Path::new(std::path::MAIN_SEPARATOR_STR).join("a");
    assert_eq!(is_local_path(absolute.to_str().unwrap()), absolute.is_absolute());
    assert!(is_local_path_given("anything", true));
    assert!(!is_local_path_given("anything", false));
    assert!(is_local_path_given("./a", false));
}

#[test]
fn local_replacements_lead_to_modules() {
    let root = absolute("/repo");
    let modules = vec![module("/repo/a", "module a\n"), module("/repo/b", "module b\n")];
    assert_eq!(module_in(&modules, &absolute("/repo/b")).as_deref(), Some("b"));
    assert_eq!(module_in(&modules, &absolute("/repo/c")), None);
    let replacement = Replacement {
        old: "x".to_string(),
        old_version: None,
        new: "../b".to_string(),
        version: None,
    };
    let target = |lookup: Option<Lookup>| replacement_target(&root, &replacement, lookup, &modules);
    let elsewhere = Replacement { new: "example.com/b".to_string(), ..replacement.clone() };
    assert_eq!(replacement_target(&root, &elsewhere, None, &modules).unwrap(), None);
    assert_eq!(target(Some(Lookup::Found(absolute("/repo/b")))).unwrap().as_deref(), Some("b"));
    assert!(matches!(
        target(Some(Lookup::Found(absolute("/repo/c")))),
        Err(Error::UnknownLocalReplacement { path }) if path == "../b"
    ));
    assert!(matches!(
        target(Some(Lookup::Found(absolute("/elsewhere")))),
        Err(Error::OutsideRepository { path, root }) if path == "../b" && root == "/repo"
    ));
    let (path, source) = unreadable("/repo/a/../b");
    assert!(matches!(
        local_module(&root, "../b", Lookup::Unreadable { path, source }, &modules),
        Err(Error::Read { path, .. }) if path == "/repo/a/../b"
    ));
}

#[test]
fn workspace_replacements_come_first() {
    let from_work = work("replace a => ./work\nreplace a => ./later\nreplace b v2 => ./two\n");
    let from_module = module("/repo/m", "module m\nreplace a => ./module\nreplace b => ./any\n");
    let chosen = |required: &str, version: &str| {
        choose_replacement(
            &from_work.replacements,
            &from_module.manifest.replacements,
            required,
            version,
        )
        .map(|(in_workspace, replacement)| (in_workspace, replacement.new.clone()))
    };
    assert_eq!(chosen("a", "v1"), Some((true, "./work".to_string())));
    assert_eq!(chosen("b", "v2"), Some((true, "./two".to_string())));
    assert_eq!(chosen("b", "v1"), Some((false, "./any".to_string())));
    assert_eq!(chosen("c", "v1"), None);
}

#[test]
fn local_paths_start_at_the_root_or_the_module() {
    let root = absolute("/repo");
    let workspace = work("replace w => ./local\nreplace r => example.com/r v9\n");
    let own = module(
        "/repo/m",
        "module m\nrequire (\nw v1\nr v1\nn v1\ny v4\nz v5\n)\nreplace y => \
         example.com/y\nreplace z => ../z\n",
    );
    let planned: Vec<Option<(String, String)>> = planned_lookups(&workspace, &own, &root)
        .into_iter()
        .map(|lookup| lookup.map(|(base, path)| (base.text, path)))
        .collect();
    assert_eq!(
        planned,
        [
            Some(("/repo".to_string(), "./local".to_string())),
            None,
            None,
            None,
            Some(("/repo/m".to_string(), "../z".to_string())),
        ]
    );
    let replacement = &workspace.replacements[1];
    let given = |applied: Option<(bool, &Replacement)>, local: bool| {
        lookup_given(applied, local, &root, &own.directory).map(|(base, path)| (base.text, path))
    };
    assert_eq!(
        given(Some((false, replacement)), true),
        Some(("/repo/m".to_string(), "example.com/r".to_string()))
    );
    assert_eq!(given(Some((true, replacement)), false), None);
    assert_eq!(given(None, true), None);
}

#[test]
fn specifiers_tell_what_comes_from_outside() {
    let root = absolute("/repo");
    let modules = vec![module("/repo/n", "module n\n")];
    let specifier = |applied: Option<(bool, &Replacement)>, required: &str, lookup: Option<Lookup>| {
        outside_specifier(&root, applied, required, "v1", lookup, &modules)
    };
    let workspace = work("replace a => ./n\nreplace b => example.com/b v9\nreplace n => c\n");
    let at = |index: usize| Some((true, &workspace.replacements[index]));
    assert_eq!(specifier(None, "n", None).unwrap(), None);
    assert_eq!(specifier(None, "x", None).unwrap().as_deref(), Some("v1"));
    assert_eq!(specifier(at(0), "a", Some(Lookup::Found(absolute("/repo/n")))).unwrap(), None);
    assert_eq!(specifier(at(1), "b", None).unwrap().as_deref(), Some("v9"));
    assert_eq!(specifier(at(2), "n", None).unwrap().as_deref(), Some("v1"));
    assert!(matches!(
        specifier(at(0), "a", Some(Lookup::Found(absolute("/repo/other")))),
        Err(Error::UnknownLocalReplacement { path }) if path == "./n"
    ));
}

#[test]
fn modules_have_directories_of_their_own() {
    let root = absolute("/repo");
    let members = vec![
        member("./a", "/repo/a", "module a\n"),
        member("./x/../a", "/repo/a", "module a\n"),
    ];
    assert!(matches!(
        discover_modules(&root, members),
        Err(Error::DuplicateModule { name }) if name == "a"
    ));
}

#[test]
fn root_module_is_observed_without_prefix() {
    let root = absolute("/repo");
    let modules = vec![module("/repo", "module root\n"), module("/outside", "module out\n")];
    assert_eq!(
        change_observation(&modules, &root),
        ChangeObservation::new()
            .with_rediscovery_file_name("go.mod")
            .with_resolution_path("go.work")
            .with_resolution_path("go.work.sum")
            .with_resolution_path("go.sum")
            .with_ignore_prefix(".cache/go-build")
    );
}

#[test]
fn paths_inside_the_root_have_no_prefix() {
    assert_eq!(path_inside("", "go.sum"), "go.sum");
    assert_eq!(path_inside("a/b", "go.sum"), "a/b/go.sum");
}
