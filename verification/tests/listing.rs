//! What follows from what `go list` tells.
use turbo_go::collections::SortedSet;
use turbo_go::error::Error;
use turbo_go::listing::{
    collect_paths, collect_sum_keys, listed_modules, local_directories, main_package,
    module_identities, module_identity, module_sum_keys, package_directories, prune_sum,
    ExternalPackageIdentity, GoListModule, GoListPackage,
};

fn module(path: &str, version: &str) -> GoListModule {
    GoListModule {
        path: path.to_string(),
        version: version.to_string(),
        sum: "h1:module".to_string(),
        go_mod_sum: "h1:manifest".to_string(),
        main: false,
        replace: None,
        dir: String::new(),
    }
}

fn package(name: &str, import_path: &str, module: Option<GoListModule>) -> GoListPackage {
    GoListPackage {
        name: name.to_string(),
        import_path: import_path.to_string(),
        imports: Vec::new(),
        module,
    }
}

fn keys(pairs: &[(&str, &str)]) -> SortedSet<(String, String)> {
    let mut set = SortedSet::new();
    for (path, version) in pairs {
        set.insert((path.to_string(), version.to_string()));
    }
    set
}

fn pairs(set: SortedSet<(String, String)>) -> Vec<(String, String)> {
    set.into_vec()
}

#[test]
fn external_identity_and_pruned_sums_include_checksum_data() {
    let module = GoListModule {
        path: "example.com/dependency".into(),
        version: "v1.2.3".into(),
        sum: "h1:module".into(),
        go_mod_sum: "h1:manifest".into(),
        main: false,
        replace: None,
        dir: String::new(),
    };
    assert_eq!(
        module_identity(&module).unwrap(),
        Some(
            ExternalPackageIdentity::new(
                "example.com/dependency".into(),
                "v1.2.3#h1:module#h1:manifest".into(),
            )
            .with_human_name("example.com/dependency".into()),
        )
    );
    let keys = module_sum_keys(&module);
    assert_eq!(
        prune_sum(
            "example.com/dependency v1.2.3 h1:module\nexample.com/other v2.0.0 \
             h1:other\nexample.com/dependency v1.2.3/go.mod h1:manifest\n",
            &keys,
        ),
        "example.com/dependency v1.2.3 h1:module\nexample.com/dependency v1.2.3/go.mod \
         h1:manifest\n"
    );
}

#[test]
fn rejects_external_modules_without_complete_checksums() {
    let module = GoListModule {
        path: "example.com/dependency".into(),
        version: "v1.2.3".into(),
        sum: String::new(),
        go_mod_sum: "h1:manifest".into(),
        main: false,
        replace: None,
        dir: String::new(),
    };
    assert!(matches!(
        module_identity(&module),
        Err(Error::MissingChecksum { ref path, ref version })
            if path == "example.com/dependency" && version == "v1.2.3"
    ));
}

#[test]
fn replaced_modules_are_told_apart() {
    let mut replaced = module("example.com/a", "v1");
    let mut other = module("example.com/fork", "v9");
    other.sum = "h1:fork".to_string();
    replaced.replace = Some(Box::new(other));
    let identity = module_identity(&replaced).unwrap().unwrap();
    assert_eq!(identity.key, "example.com/a=>example.com/fork");
    assert_eq!(identity.version, "v9#h1:fork#h1:manifest");
    assert_eq!(identity.human_name.as_deref(), Some("example.com/a"));
    assert_eq!(
        pairs(module_sum_keys(&replaced)),
        [
            ("example.com/a".to_string(), "v1".to_string()),
            ("example.com/fork".to_string(), "v9".to_string()),
        ]
    );
}

#[test]
fn main_and_local_modules_have_no_identity() {
    let mut main = module("example.com/main", "");
    main.main = true;
    assert_eq!(module_identity(&main).unwrap(), None);
    assert!(pairs(module_sum_keys(&main)).is_empty());
    let mut local = module("example.com/local", "");
    local.dir = "/repo/local".to_string();
    assert_eq!(module_identity(&local).unwrap(), None);
    let mut replaced = module("example.com/a", "v1");
    replaced.replace = Some(Box::new(local));
    assert_eq!(module_identity(&replaced).unwrap(), None);
    assert_eq!(
        pairs(module_sum_keys(&replaced)),
        [("example.com/a".to_string(), "v1".to_string())]
    );
    let nowhere = module("example.com/nowhere", "");
    assert!(matches!(
        module_identity(&nowhere),
        Err(Error::MissingChecksum { path, version })
            if path == "example.com/nowhere" && version.is_empty()
    ));
}

#[test]
fn checksums_change_the_identity() {
    let one = module("a", "v1");
    let mut two = module("a", "v1");
    two.go_mod_sum = "h1:changed".to_string();
    assert_ne!(module_identity(&one).unwrap(), module_identity(&two).unwrap());
}

#[test]
fn pruned_sums_keep_their_lines_as_they_are() {
    let contents = "a v1 h1:x\n\nodd\n b  v2   h1:y\r\na v1/go.mod h1:z\nc v1 h1:w";
    assert_eq!(
        prune_sum(contents, &keys(&[("a", "v1"), ("b", "v2")])),
        "a v1 h1:x\n b  v2   h1:y\na v1/go.mod h1:z\n"
    );
    assert_eq!(prune_sum(contents, &keys(&[("c", "v1")])), "c v1 h1:w\n");
    assert_eq!(prune_sum(contents, &keys(&[])), "");
    assert_eq!(prune_sum("", &keys(&[("a", "v1")])), "");
}

#[test]
fn pruning_a_sum_twice_is_pruning_it_once() {
    let contents = "a v1 h1:x\nb v2 h1:y\na v1/go.mod h1:z\nc v1 h1:w\n";
    let once = prune_sum(contents, &keys(&[("a", "v1"), ("b", "v2")]));
    assert_eq!(prune_sum(&once, &keys(&[("a", "v1"), ("b", "v2")])), once);
    assert_eq!(
        prune_sum(&once, &keys(&[("b", "v2"), ("c", "v1")])),
        prune_sum(contents, &keys(&[("b", "v2")]))
    );
}

#[test]
fn listed_modules_are_gathered() {
    let mut local = module("local", "");
    local.dir = "/repo/local".to_string();
    let listed = vec![
        package("a", "a", Some(module("a", "v1"))),
        package("fmt", "fmt", None),
        package("local", "local/x", Some(local)),
        package("a", "a/b", Some(module("a", "v1"))),
    ];
    let modules = listed_modules(&listed);
    let paths: Vec<&str> = modules.iter().map(|module| module.path.as_str()).collect();
    assert_eq!(paths, ["a", "local", "a"]);
    assert_eq!(collect_paths(&modules).into_vec(), ["a", "local"]);
    assert_eq!(local_directories(&modules), ["/repo/local"]);
    assert_eq!(
        pairs(collect_sum_keys(&modules)),
        [("a".to_string(), "v1".to_string())]
    );
    assert_eq!(
        package_directories(&listed),
        [
            Some(String::new()),
            None,
            Some("/repo/local".to_string()),
            Some(String::new()),
        ]
    );
    let identities = module_identities(&modules).unwrap().into_vec();
    assert_eq!(identities.len(), 1);
    assert_eq!(identities[0].key, "a");
}

#[test]
fn first_missing_checksum_is_reported() {
    let mut one = module("one", "v1");
    one.sum = String::new();
    let mut two = module("two", "v2");
    two.go_mod_sum = String::new();
    let fine = module("fine", "v3");
    let modules = vec![&fine, &one, &two];
    assert!(matches!(
        module_identities(&modules),
        Err(Error::MissingChecksum { path, version }) if path == "one" && version == "v1"
    ));
}

#[test]
fn only_command_is_the_main_package() {
    let one = vec![package("main", "example.com/api", None), package("lib", "x", None)];
    assert_eq!(main_package(&one).as_deref(), Some("example.com/api"));
    let two = vec![package("main", "a", None), package("main", "b", None)];
    assert_eq!(main_package(&two), None);
    assert_eq!(main_package(&Vec::new()), None);
}
