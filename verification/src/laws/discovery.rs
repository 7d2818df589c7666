//! Laws of what is reported of modules: what follows from it, and where it stands once
//! discovery is done.
use crate::collections::{ascending, lemma_sorted_lists, sorted};
use crate::discovery::{
    are_looked_up, directories_outcome, discovered_outcome, empty_discovery, external,
    externals_outcome, facts_outcome, import_targets_of, imported_from, imports_of, internal,
    is_complete, root_sources, sources_outcome, with_module, DependencyKind, DiscoveredModel,
    DiscoveryModel, FactsModel, RelationshipModel, ReportModel, ResolutionCompleteness,
    ResolutionDomainId, ResolutionModel, SumFileModel, TargetModel, ToolchainId,
};
use crate::error::{Failure, PathFailure};
use crate::laws::listings::{
    every_module_has_its_keys, identities_come_from_modules, paths_are_those_of_modules,
    told_modules_have_packages,
};
use crate::laws::modules::imports_are_other_modules;
use crate::listing::{
    all_sum_keys, identities_of, identity_outcome, local_directories_of, module_paths, modules_of,
    only_command, IdentityModel, ListedPackage,
};
use crate::path::{anchored, unix, AnchoredPath, PathModel};
use crate::prune::SumModel;
use crate::syntax::WorkModel;
use crate::tasks::{contract_of, tasks_of};
use crate::workspace::{
    applied_to, inside, is_looked_up, local_module_outcome, module_at, observation_of,
    specifier_outcome, LookupModel, ModuleModel,
};
use vstd::prelude::*;

verus! {

/// A dependency is one of production; one inside the repository names its package,
/// and one from outside the package and the specifier.
pub proof fn dependencies_name_their_targets(name: Seq<char>, specifier: Seq<char>)
    ensures
        internal(name).name == name,
        internal(name).kind == DependencyKind::Production,
        internal(name).target == TargetModel::Internal(name),
        external(name, specifier).name == name,
        external(name, specifier).kind == DependencyKind::Production,
        external(name, specifier).target == (TargetModel::UnresolvedExternal { name, specifier }),
{
}

/// Every import of every package counts: a module of the workspace is imported from
/// exactly where some import leads to it, unless it is the module itself.
pub proof fn every_import_counts(
    local: Seq<ListedPackage>,
    targets: Map<Seq<char>, Seq<char>>,
    own: Seq<char>,
    name: Seq<char>,
)
    ensures
        forall|i: int, j: int|
            0 <= i < local.len() && 0 <= j < local[i].imports.len() && targets.contains_key(
                #[trigger] local[i].imports[j],
            ) && targets[local[i].imports[j]] != own ==> imported_from(
                local,
                targets,
                own,
            ).contains(targets[local[i].imports[j]]),
        imported_from(local, targets, own).contains(name) ==> name != own && exists|i: int, j: int|
            0 <= i < local.len() && 0 <= j < local[i].imports.len() && targets.contains_key(
                #[trigger] local[i].imports[j],
            ) && targets[local[i].imports[j]] == name,
{
}

/// Packages lead to the modules in whose directories they stand, the later ones
/// before the earlier ones; a package without a module, without a directory, or
/// outside the workspace leads nowhere.
pub proof fn packages_lead_to_modules(
    listed: Seq<ListedPackage>,
    targets: Seq<Option<PathModel>>,
    modules: Seq<ModuleModel>,
    package: ListedPackage,
    target: Option<PathModel>,
)
    requires
        targets.len() == listed.len(),
    ensures
        import_targets_of(seq![], targets, modules) == Map::<Seq<char>, Seq<char>>::empty(),
        package.module is None || target is None ==> import_targets_of(
            listed.push(package),
            targets.push(target),
            modules,
        ) == import_targets_of(listed, targets, modules),
        package.module is Some && target is Some && module_at(modules, target->0.components) is None
            ==> import_targets_of(listed.push(package), targets.push(target), modules)
            == import_targets_of(listed, targets, modules),
        package.module is Some && target is Some ==> (module_at(modules, target->0.components)
            matches Some(name) ==> import_targets_of(
            listed.push(package),
            targets.push(target),
            modules,
        ) == import_targets_of(listed, targets, modules).insert(package.import_path, name)),
{
    let all = listed.push(package);
    let paths = targets.push(target);
    assert(all.drop_last() =~= listed);
    assert(all.last() == package);
    assert(paths[listed.len() as int] == target);
    lemma_later_targets(listed, targets, paths, modules);
}

proof fn lemma_later_targets(
    listed: Seq<ListedPackage>,
    targets: Seq<Option<PathModel>>,
    more: Seq<Option<PathModel>>,
    modules: Seq<ModuleModel>,
)
    requires
        listed.len() <= targets.len() <= more.len(),
        forall|i: int| 0 <= i < targets.len() ==> #[trigger] targets[i] == more[i],
    ensures
        import_targets_of(listed, targets, modules) == import_targets_of(listed, more, modules),
    decreases listed.len(),
{
    if listed.len() > 0 {
        lemma_later_targets(listed.drop_last(), targets, more, modules);
        assert(targets[listed.len() - 1] == more[listed.len() - 1]);
    }
}

/// The directories of local modules are checked one after the other, each by its own
/// lookup: a first thing wrong stays what is wrong.
pub proof fn directories_are_checked_in_order(
    root: PathModel,
    directories: Seq<Seq<char>>,
    lookups: Seq<LookupModel>,
    modules: Seq<ModuleModel>,
    directory: Seq<char>,
    lookup: LookupModel,
)
    requires
        lookups.len() == directories.len(),
    ensures
        directories_outcome(root, seq![], lookups, modules) == Ok::<(), Failure>(()),
        directories_outcome(root, directories, lookups, modules) matches Err(failure)
            ==> directories_outcome(
            root,
            directories.push(directory),
            lookups.push(lookup),
            modules,
        ) == Err::<(), Failure>(failure),
        directories_outcome(root, directories, lookups, modules) is Ok ==> {
            &&& local_module_outcome(root, directory, lookup, modules) matches Err(failure)
                ==> directories_outcome(
                root,
                directories.push(directory),
                lookups.push(lookup),
                modules,
            ) == Err::<(), Failure>(failure)
            &&& local_module_outcome(root, directory, lookup, modules) is Ok
                ==> directories_outcome(
                root,
                directories.push(directory),
                lookups.push(lookup),
                modules,
            ) == Ok::<(), Failure>(())
        },
{
    assert(directories.push(directory).drop_last() =~= directories);
    lemma_later_lookups(root, directories, lookups, lookups.push(lookup), modules);
}

proof fn lemma_later_lookups(
    root: PathModel,
    directories: Seq<Seq<char>>,
    lookups: Seq<LookupModel>,
    more: Seq<LookupModel>,
    modules: Seq<ModuleModel>,
)
    requires
        directories.len() <= lookups.len() <= more.len(),
        forall|i: int| 0 <= i < lookups.len() ==> #[trigger] lookups[i] == more[i],
    ensures
        directories_outcome(root, directories, lookups, modules) == directories_outcome(
            root,
            directories,
            more,
            modules,
        ),
    decreases directories.len(),
{
    if directories.len() > 0 {
        lemma_later_lookups(root, directories.drop_last(), lookups, more, modules);
        assert(lookups[directories.len() - 1] == more[directories.len() - 1]);
    }
}

/// Where the directories of local modules are in order, each leads to a module of the
/// workspace, and the other way round.
pub proof fn checked_directories_lead_to_modules(
    root: PathModel,
    directories: Seq<Seq<char>>,
    lookups: Seq<LookupModel>,
    modules: Seq<ModuleModel>,
)
    ensures
        directories_outcome(root, directories, lookups, modules) is Ok <==> forall|i: int|
            0 <= i < directories.len() ==> (#[trigger] local_module_outcome(
                root,
                directories[i],
                lookups[i],
                modules,
            )) is Ok,
    decreases directories.len(),
{
    if directories.len() > 0 {
        let rest = directories.drop_last();
        let n = directories.len() - 1;
        checked_directories_lead_to_modules(root, rest, lookups, modules);
        assert forall|i: int| 0 <= i < rest.len() implies #[trigger] rest[i] == directories[i] by {}
        assert(local_module_outcome(root, directories.last(), lookups[n], modules)
            == local_module_outcome(root, directories[n], lookups[n], modules));
        if directories_outcome(root, rest, lookups, modules) is Ok {
            assert forall|i: int| 0 <= i < n implies (#[trigger] local_module_outcome(
                root,
                directories[i],
                lookups[i],
                modules,
            )) is Ok by {
                assert(local_module_outcome(root, rest[i], lookups[i], modules) is Ok);
            }
        } else {
            let i = choose|i: int|
                0 <= i < rest.len() && !((#[trigger] local_module_outcome(
                    root,
                    rest[i],
                    lookups[i],
                    modules,
                )) is Ok);
            assert(!(local_module_outcome(root, directories[i], lookups[i], modules) is Ok));
        }
    }
}

/// A report is complete where it has one lookup per directory of a local module, one
/// target per package, and per requirement what was looked up of its replacement.
pub proof fn complete_reports_look_everything_up(
    report: ReportModel,
    work: WorkModel,
    module: ModuleModel,
)
    ensures
        is_complete(report, work, module) <==> {
            &&& report.directories.len() == local_directories_of(modules_of(report.listed)).len()
            &&& report.targets.len() == report.listed.len()
            &&& report.lookups.len() == module.manifest.requirements.len()
            &&& forall|i: int|
                0 <= i < report.lookups.len() ==> is_looked_up(
                    applied_to(work, module, module.manifest.requirements[i]),
                    #[trigger] report.lookups[i],
                )
        },
        is_complete(report, work, module) ==> are_looked_up(report.lookups, work, module),
{
}

/// Requirements are met one after the other: each that is met from outside is one
/// dependency more, one that the workspace meets is none, and a first thing wrong
/// stays what is wrong.
pub proof fn requirements_are_met_in_order(
    root: PathModel,
    work: WorkModel,
    module: ModuleModel,
    lookups: Seq<Option<LookupModel>>,
    modules: Seq<ModuleModel>,
    n: nat,
)
    requires
        n < module.manifest.requirements.len(),
    ensures
        externals_outcome(root, work, module, lookups, modules, 0) == Ok::<
            Seq<RelationshipModel>,
            Failure,
        >(seq![]),
        externals_outcome(root, work, module, lookups, modules, n) matches Err(failure)
            ==> externals_outcome(root, work, module, lookups, modules, n + 1) == Err::<
            Seq<RelationshipModel>,
            Failure,
        >(failure),
        externals_outcome(root, work, module, lookups, modules, n) matches Ok(earlier) ==> {
            let (path, version) = module.manifest.requirements[n as int];
            match specifier_outcome(
                root,
                applied_to(work, module, (path, version)),
                (path, version),
                lookups[n as int],
                modules,
            ) {
                Err(failure) => externals_outcome(root, work, module, lookups, modules, n + 1)
                    == Err::<Seq<RelationshipModel>, Failure>(failure),
                Ok(None) => externals_outcome(root, work, module, lookups, modules, n + 1) == Ok::<
                    Seq<RelationshipModel>,
                    Failure,
                >(earlier),
                Ok(Some(specifier)) => externals_outcome(
                    root,
                    work,
                    module,
                    lookups,
                    modules,
                    n + 1,
                ) == Ok::<Seq<RelationshipModel>, Failure>(
                    earlier.push(
                        RelationshipModel {
                            name: path,
                            kind: DependencyKind::Production,
                            target: TargetModel::UnresolvedExternal { name: path, specifier },
                        },
                    ),
                ),
            }
        },
{
}

/// Where nothing is wrong with the directories, the identities and the requirements
/// of a module in the repository, its facts follow; else the first of these that is
/// wrong is what is wrong.
pub proof fn facts_follow_where_nothing_is_wrong(
    root: PathModel,
    work: WorkModel,
    modules: Seq<ModuleModel>,
    module: ModuleModel,
    compiler: Seq<char>,
    report: ReportModel,
)
    ensures
        ({
            let listed = modules_of(report.listed);
            let found = facts_outcome(root, work, modules, module, compiler, report);
            let local = directories_outcome(
                root,
                local_directories_of(listed),
                report.directories,
                modules,
            );
            let externals = externals_outcome(
                root,
                work,
                module,
                report.lookups,
                modules,
                module.manifest.requirements.len(),
            );
            &&& local matches Err(failure) ==> found == Err::<FactsModel, Failure>(failure)
            &&& local is Ok ==> (identities_of(listed) matches Err(failure) ==> found == Err::<
                FactsModel,
                Failure,
            >(failure))
            &&& local is Ok && identities_of(listed) is Ok ==> (externals matches Err(failure)
                ==> found == Err::<FactsModel, Failure>(failure))
            &&& local is Ok && identities_of(listed) is Ok && externals is Ok
                && !root.components.is_prefix_of(module.directory.components) ==> found == Err::<
                FactsModel,
                Failure,
            >(
                Failure::Path(
                    PathFailure::NotParent { root: root.text, path: module.directory.text },
                ),
            )
            &&& found is Ok <==> local is Ok && identities_of(listed) is Ok && externals is Ok
                && root.components.is_prefix_of(module.directory.components)
        }),
{
}

/// The facts of a module: it is a package under its name and with its manifest, its
/// tasks are by the single command among its own packages, and its directory is where
/// it stands in the repository.
pub proof fn facts_describe_module(
    root: PathModel,
    work: WorkModel,
    modules: Seq<ModuleModel>,
    module: ModuleModel,
    compiler: Seq<char>,
    report: ReportModel,
    facts: FactsModel,
    directory: Seq<Seq<char>>,
)
    requires
        facts_outcome(root, work, modules, module, compiler, report) == Ok::<FactsModel, Failure>(
            facts,
        ),
    ensures
        facts.package.name == module.name,
        facts.package.manifest_path == module.manifest_path,
        facts.package.tasks == tasks_of(only_command(report.local)),
        facts.package.task_contract == contract_of(only_command(report.local) is Some),
        module.directory.components == root.components + directory ==> facts.directory == unix(
            directory,
        ),
        root.components.is_prefix_of(module.directory.components),
{
    if module.directory.components == root.components + directory {
        let all = module.directory.components;
        assert(all.skip(root.components.len() as int) =~= directory);
    }
}

/// A module is built of the modules of all packages that are listed, and the compiler;
/// of each of them the path is required, the version or that of what replaces it has a
/// key, and the identity is known; nothing else is.
pub proof fn facts_tell_of_listed_modules(
    root: PathModel,
    work: WorkModel,
    modules: Seq<ModuleModel>,
    module: ModuleModel,
    compiler: Seq<char>,
    report: ReportModel,
    facts: FactsModel,
    path: Seq<char>,
    version: Seq<char>,
    identity: IdentityModel,
)
    requires
        facts_outcome(root, work, modules, module, compiler, report) == Ok::<FactsModel, Failure>(
            facts,
        ),
    ensures
        facts.requirements.contains(path) <==> exists|i: int|
            0 <= i < report.listed.len() && ((#[trigger] report.listed[i]).module matches Some(
                listed,
            ) && listed.entry.path == path),
        facts.sum_keys.contains((path, version)) <==> version.len() > 0 && exists|i: int|
            0 <= i < report.listed.len() && ((#[trigger] report.listed[i]).module matches Some(
                listed,
            ) && !listed.main && ((listed.entry.path == path && listed.entry.version == version) || (
            listed.replace matches Some(replacement) && replacement.entry.path == path
                && replacement.entry.version == version))),
        facts.identities.contains(identity) <==> identity == (IdentityModel {
            key: "go"@,
            version: compiler,
            human_name: None,
        }) || exists|i: int|
            0 <= i < report.listed.len() && ((#[trigger] report.listed[i]).module matches Some(
                listed,
            ) && identity_outcome(listed) == Ok::<Option<IdentityModel>, Failure>(Some(identity))),
{
    lemma_facts_paths(report.listed, path);
    lemma_facts_keys(report.listed, path, version);
    lemma_facts_identities(report.listed, identity);
    assert(facts.requirements == module_paths(modules_of(report.listed)));
    assert(facts.sum_keys == all_sum_keys(modules_of(report.listed)));
}

proof fn lemma_facts_paths(listed: Seq<ListedPackage>, path: Seq<char>)
    ensures
        module_paths(modules_of(listed)).contains(path) <==> exists|i: int|
            0 <= i < listed.len() && ((#[trigger] listed[i]).module matches Some(module)
                && module.entry.path == path),
{
    let told = modules_of(listed);
    paths_are_those_of_modules(told, path);
    if module_paths(told).contains(path) {
        let k = choose|k: int| 0 <= k < told.len() && (#[trigger] told[k]).entry.path == path;
        told_modules_have_packages(listed, told[k]);
        assert(told.contains(told[k]));
    }
    if exists|i: int|
        0 <= i < listed.len() && ((#[trigger] listed[i]).module matches Some(module)
            && module.entry.path == path) {
        let i = choose|i: int|
            0 <= i < listed.len() && ((#[trigger] listed[i]).module matches Some(module)
                && module.entry.path == path);
        let module = listed[i].module->0;
        told_modules_have_packages(listed, module);
        let k = choose|k: int| 0 <= k < told.len() && told[k] == module;
        assert(told[k].entry.path == path);
    }
}

proof fn lemma_facts_keys(listed: Seq<ListedPackage>, path: Seq<char>, version: Seq<char>)
    ensures
        all_sum_keys(modules_of(listed)).contains((path, version)) <==> version.len() > 0
            && exists|i: int|
            0 <= i < listed.len() && ((#[trigger] listed[i]).module matches Some(module)
                && !module.main && ((module.entry.path == path && module.entry.version == version)
                || (module.replace matches Some(replacement) && replacement.entry.path == path
                && replacement.entry.version == version))),
{
    let told = modules_of(listed);
    every_module_has_its_keys(told, path, version);
    if all_sum_keys(told).contains((path, version)) {
        let k = choose|k: int|
            0 <= k < told.len() && !(#[trigger] told[k]).main && ((told[k].entry.path == path
                && told[k].entry.version == version) || (told[k].replace matches Some(replacement)
                && replacement.entry.path == path && replacement.entry.version == version));
        told_modules_have_packages(listed, told[k]);
        assert(told.contains(told[k]));
        let i = choose|i: int| 0 <= i < listed.len() && (#[trigger] listed[i]).module == Some(
            told[k],
        );
        assert(listed[i].module == Some(told[k]));
    }
    if version.len() > 0 && exists|i: int|
        0 <= i < listed.len() && ((#[trigger] listed[i]).module matches Some(module)
            && !module.main && ((module.entry.path == path && module.entry.version == version) || (
        module.replace matches Some(replacement) && replacement.entry.path == path
            && replacement.entry.version == version))) {
        let i = choose|i: int|
            0 <= i < listed.len() && ((#[trigger] listed[i]).module matches Some(module)
                && !module.main && ((module.entry.path == path && module.entry.version == version)
                || (module.replace matches Some(replacement) && replacement.entry.path == path
                && replacement.entry.version == version)));
        let module = listed[i].module->0;
        told_modules_have_packages(listed, module);
        let k = choose|k: int| 0 <= k < told.len() && told[k] == module;
        assert(told[k] == module);
    }
}

proof fn lemma_facts_identities(listed: Seq<ListedPackage>, identity: IdentityModel)
    ensures
        identities_of(modules_of(listed)) matches Ok(all) ==> (all.contains(identity)
            <==> exists|i: int|
            0 <= i < listed.len() && ((#[trigger] listed[i]).module matches Some(module)
                && identity_outcome(module) == Ok::<Option<IdentityModel>, Failure>(
                Some(identity),
            ))),
{
    let told = modules_of(listed);
    let wanted = Ok::<Option<IdentityModel>, Failure>(Some(identity));
    identities_come_from_modules(told, identity);
    if let Ok(all) = identities_of(told) {
        if all.contains(identity) {
            let k = choose|k: int|
                0 <= k < told.len() && identity_outcome(#[trigger] told[k]) == wanted;
            told_modules_have_packages(listed, told[k]);
            assert(told.contains(told[k]));
            let i = choose|i: int|
                0 <= i < listed.len() && (#[trigger] listed[i]).module == Some(told[k]);
            assert(listed[i].module == Some(told[k]));
        }
        if exists|i: int|
            0 <= i < listed.len() && ((#[trigger] listed[i]).module matches Some(module)
                && identity_outcome(module) == wanted) {
            let i = choose|i: int|
                0 <= i < listed.len() && ((#[trigger] listed[i]).module matches Some(module)
                    && identity_outcome(module) == wanted);
            let module = listed[i].module->0;
            told_modules_have_packages(listed, module);
            let k = choose|k: int| 0 <= k < told.len() && told[k] == module;
            assert(identity_outcome(told[k]) == wanted);
        }
    }
}

/// A module depends on each module of the workspace that it imports from, in order,
/// and behind these on what it has from outside, in the order of its requirements.
pub proof fn facts_list_dependencies(
    root: PathModel,
    work: WorkModel,
    modules: Seq<ModuleModel>,
    module: ModuleModel,
    compiler: Seq<char>,
    report: ReportModel,
    facts: FactsModel,
    name: Seq<char>,
)
    requires
        facts_outcome(root, work, modules, module, compiler, report) == Ok::<FactsModel, Failure>(
            facts,
        ),
    ensures
        ascending::<String>(facts.dependencies),
        facts.dependencies.contains(name) <==> imports_of(modules, module, report).contains(name),
        facts.package.relationships.take(facts.dependencies.len() as int)
            == facts.dependencies.map_values(|name: Seq<char>| internal(name)),
        Ok::<Seq<RelationshipModel>, Failure>(
            facts.package.relationships.skip(facts.dependencies.len() as int),
        ) == externals_outcome(
            root,
            work,
            module,
            report.lookups,
            modules,
            module.manifest.requirements.len(),
        ),
{
    let imports = imports_of(modules, module, report);
    let names = sorted::<String>(imports);
    imports_are_other_modules(modules, module, report);
    lemma_sorted_lists::<String>(imports);
    assert(names.to_set().contains(name) <==> names.contains(name));
    let internals = names.map_values(|name: Seq<char>| internal(name));
    let externals = externals_outcome(
        root,
        work,
        module,
        report.lookups,
        modules,
        module.manifest.requirements.len(),
    )->Ok_0;
    assert(facts.package.relationships == internals + externals);
    assert((internals + externals).take(names.len() as int) =~= internals);
    assert((internals + externals).skip(names.len() as int) =~= externals);
}

/// An import that leads to another module of the workspace is a dependency on it, by
/// what is listed of both.
pub proof fn imports_are_dependencies(
    root: PathModel,
    work: WorkModel,
    modules: Seq<ModuleModel>,
    module: ModuleModel,
    compiler: Seq<char>,
    report: ReportModel,
    facts: FactsModel,
    i: int,
    j: int,
)
    requires
        facts_outcome(root, work, modules, module, compiler, report) == Ok::<FactsModel, Failure>(
            facts,
        ),
        0 <= i < report.local.len(),
        0 <= j < report.local[i].imports.len(),
        import_targets_of(report.listed, report.targets, modules).contains_key(
            report.local[i].imports[j],
        ),
        import_targets_of(report.listed, report.targets, modules)[report.local[i].imports[j]]
            != module.name,
    ensures
        facts.dependencies.contains(
            import_targets_of(report.listed, report.targets, modules)[report.local[i].imports[j]],
        ),
        facts.package.relationships.contains(
            RelationshipModel {
                name: import_targets_of(
                    report.listed,
                    report.targets,
                    modules,
                )[report.local[i].imports[j]],
                kind: DependencyKind::Production,
                target: TargetModel::Internal(
                    import_targets_of(
                        report.listed,
                        report.targets,
                        modules,
                    )[report.local[i].imports[j]],
                ),
            },
        ),
{
    let targets = import_targets_of(report.listed, report.targets, modules);
    let name = targets[report.local[i].imports[j]];
    every_import_counts(report.local, targets, module.name, name);
    assert(imports_of(modules, module, report).contains(name));
    facts_list_dependencies(root, work, modules, module, compiler, report, facts, name);
    let k = choose|k: int| 0 <= k < facts.dependencies.len() && facts.dependencies[k] == name;
    let front = facts.package.relationships.take(facts.dependencies.len() as int);
    assert(front[k] == internal(name));
    assert(facts.package.relationships[k] == internal(name));
}

/// A module depends on no module of the workspace but those that an import of one of
/// its own packages leads to, and never on itself.
pub proof fn dependencies_are_imports(
    root: PathModel,
    work: WorkModel,
    modules: Seq<ModuleModel>,
    module: ModuleModel,
    compiler: Seq<char>,
    report: ReportModel,
    facts: FactsModel,
    name: Seq<char>,
)
    requires
        facts_outcome(root, work, modules, module, compiler, report) == Ok::<FactsModel, Failure>(
            facts,
        ),
        facts.dependencies.contains(name),
    ensures
        name != module.name,
        exists|i: int, j: int|
            0 <= i < report.local.len() && 0 <= j < report.local[i].imports.len()
                && import_targets_of(report.listed, report.targets, modules).contains_key(
                #[trigger] report.local[i].imports[j],
            ) && import_targets_of(
                report.listed,
                report.targets,
                modules,
            )[report.local[i].imports[j]] == name,
{
    let targets = import_targets_of(report.listed, report.targets, modules);
    facts_list_dependencies(root, work, modules, module, compiler, report, facts, name);
    every_import_counts(report.local, targets, module.name, name);
}

/// Nothing is known before the first module, and each module adds its package, its
/// resolution and what pruning needs of it; its `go.sum` is kept where it has one,
/// with the keys that the module needs of it.
pub proof fn modules_add_what_is_known(
    known: DiscoveryModel,
    facts: FactsModel,
    file: SumFileModel,
    sum: Option<SumFileModel>,
)
    ensures
        empty_discovery().packages.len() == 0,
        empty_discovery().resolutions.len() == 0,
        empty_discovery().dependencies == Map::<Seq<char>, Seq<Seq<char>>>::empty(),
        empty_discovery().directories == Map::<Seq<char>, Seq<char>>::empty(),
        empty_discovery().requirements == Map::<Seq<char>, Set<Seq<char>>>::empty(),
        empty_discovery().module_sums == Map::<Seq<char>, SumModel>::empty(),
        empty_discovery().sum_paths == Map::<Seq<char>, Seq<char>>::empty(),
        with_module(known, facts, sum).packages == known.packages.push(facts.package),
        with_module(known, facts, sum).resolutions == known.resolutions.push(
            ResolutionModel { name: facts.package.name, identities: facts.identities },
        ),
        with_module(known, facts, sum).dependencies == known.dependencies.insert(
            facts.package.name,
            facts.dependencies,
        ),
        with_module(known, facts, sum).directories == known.directories.insert(
            facts.package.name,
            facts.directory,
        ),
        with_module(known, facts, sum).requirements == known.requirements.insert(
            facts.package.name,
            facts.requirements,
        ),
        with_module(known, facts, None).module_sums == known.module_sums,
        with_module(known, facts, None).sum_paths == known.sum_paths,
        with_module(known, facts, Some(file)).sum_paths == known.sum_paths.insert(
            facts.package.name,
            file.path,
        ),
        with_module(known, facts, Some(file)).module_sums == known.module_sums.insert(
            facts.package.name,
            SumModel {
                path: inside(facts.directory, "go.sum"@),
                contents: file.contents,
                keys: facts.sum_keys,
            },
        ),
{
}

/// What is known of the modules and what the `go.work` and the `go.work.sum` say is
/// kept as it is: for the packages, for their resolution, for what to observe and for
/// pruning.
pub proof fn discovery_keeps_what_is_known(
    known: DiscoveryModel,
    root: PathModel,
    modules: Seq<ModuleModel>,
    work: WorkModel,
    has_work: bool,
    work_sum: Option<Seq<char>>,
)
    ensures
        discovered_outcome(known, root, modules, work, has_work, work_sum) matches Ok(found) ==> {
            &&& found.packages == known.packages
            &&& found.root.name == "go"@
            &&& found.root.path == root
            &&& found.resolution.domain == ResolutionDomainId::Go
            &&& found.resolution.toolchain == ToolchainId::Go
            &&& found.resolution.root == Seq::<Seq<char>>::empty()
            &&& found.resolution.members.len() == modules.len()
            &&& forall|i: int|
                0 <= i < modules.len() ==> #[trigger] found.resolution.members[i]
                    == modules[i].name
            &&& found.resolution.completeness == ResolutionCompleteness::Complete
            &&& found.resolution.packages == known.resolutions
            &&& found.observation == observation_of(modules, root)
            &&& found.prune.directories == known.directories
            &&& found.prune.dependencies == known.dependencies
            &&& found.prune.requirements == known.requirements
            &&& found.prune.module_sums == known.module_sums
            &&& found.prune.replacements == work.replacements
            &&& found.prune.go_version == work.go_version
            &&& found.prune.toolchain == work.toolchain
            &&& found.prune.work_sum == work_sum
            &&& found.prune.workspace == has_work
        },
{
}

/// Discovery succeeds exactly where the manifest of each module, and its `go.sum`
/// where it has one, lie in the repository; else the first that does not is what is
/// wrong.
pub proof fn discovery_needs_sources_in_repository(
    known: DiscoveryModel,
    root: PathModel,
    modules: Seq<ModuleModel>,
    work: WorkModel,
    has_work: bool,
    work_sum: Option<Seq<char>>,
)
    ensures
        sources_outcome(
            root,
            root_sources(has_work, work_sum is Some),
            modules,
            known.sum_paths,
        ) matches Err(failure) ==> discovered_outcome(
            known,
            root,
            modules,
            work,
            has_work,
            work_sum,
        ) == Err::<DiscoveredModel, Failure>(failure),
        sources_outcome(
            root,
            root_sources(has_work, work_sum is Some),
            modules,
            known.sum_paths,
        ) is Ok <==> discovered_outcome(known, root, modules, work, has_work, work_sum) is Ok,
        (forall|i: int|
            0 <= i < modules.len() ==> root.components.is_prefix_of(
                (#[trigger] modules[i]).manifest_path.components,
            ) && (known.sum_paths.contains_key(modules[i].name) ==> root.components.is_prefix_of(
                modules[i].directory.components.push("go.sum"@),
            ))) ==> discovered_outcome(known, root, modules, work, has_work, work_sum) is Ok,
{
    lemma_sources_found(root, root_sources(has_work, work_sum is Some), modules, known.sum_paths);
}

proof fn lemma_sources_found(
    root: PathModel,
    at_root: Set<Seq<Seq<char>>>,
    modules: Seq<ModuleModel>,
    sum_paths: Map<Seq<char>, Seq<char>>,
)
    ensures
        (forall|i: int|
            0 <= i < modules.len() ==> root.components.is_prefix_of(
                (#[trigger] modules[i]).manifest_path.components,
            ) && (sum_paths.contains_key(modules[i].name) ==> root.components.is_prefix_of(
                modules[i].directory.components.push("go.sum"@),
            ))) ==> sources_outcome(root, at_root, modules, sum_paths) is Ok,
    decreases modules.len(),
{
    if modules.len() > 0 {
        let rest = modules.drop_last();
        lemma_sources_found(root, at_root, rest, sum_paths);
        assert forall|i: int| 0 <= i < rest.len() implies #[trigger] rest[i] == modules[i] by {}
        assert(modules.last() == modules[modules.len() - 1]);
    }
}

/// Each module adds its manifest to the files that say what the workspace is, and its
/// `go.sum` where it has one; a file that does not lie in the repository is wrong, and
/// a first thing wrong stays what is wrong.
pub proof fn modules_add_sources(
    root: PathModel,
    at_root: Set<Seq<Seq<char>>>,
    modules: Seq<ModuleModel>,
    module: ModuleModel,
    sum_paths: Map<Seq<char>, Seq<char>>,
    manifest: Seq<Seq<char>>,
    sum: Seq<Seq<char>>,
)
    ensures
        sources_outcome(root, at_root, seq![], sum_paths) == Ok::<Set<Seq<Seq<char>>>, Failure>(
            at_root,
        ),
        sources_outcome(root, at_root, modules, sum_paths) matches Err(failure) ==> sources_outcome(
            root,
            at_root,
            modules.push(module),
            sum_paths,
        ) == Err::<Set<Seq<Seq<char>>>, Failure>(failure),
        sources_outcome(root, at_root, modules, sum_paths) matches Ok(earlier) ==> {
            let all = sources_outcome(root, at_root, modules.push(module), sum_paths);
            &&& !root.components.is_prefix_of(module.manifest_path.components) ==> all == Err::<
                Set<Seq<Seq<char>>>,
                Failure,
            >(
                Failure::Path(
                    PathFailure::NotParent { root: root.text, path: module.manifest_path.text },
                ),
            )
            &&& module.manifest_path.components == root.components + manifest
                && !sum_paths.contains_key(module.name) ==> all == Ok::<
                Set<Seq<Seq<char>>>,
                Failure,
            >(earlier.insert(manifest))
            &&& module.manifest_path.components == root.components + manifest
                && sum_paths.contains_key(module.name) && module.directory.components.push(
                "go.sum"@,
            ) == root.components + sum ==> all == Ok::<Set<Seq<Seq<char>>>, Failure>(
                earlier.insert(manifest).insert(sum),
            )
            &&& module.manifest_path.components == root.components + manifest
                && sum_paths.contains_key(module.name) && !root.components.is_prefix_of(
                module.directory.components.push("go.sum"@),
            ) ==> all == Err::<Set<Seq<Seq<char>>>, Failure>(
                Failure::Path(
                    PathFailure::NotParent { root: root.text, path: sum_paths[module.name] },
                ),
            )
        },
{
    assert(modules.push(module).drop_last() =~= modules);
    lemma_goes_on(root.components, manifest);
    lemma_goes_on(root.components, sum);
}

proof fn lemma_goes_on(root: Seq<Seq<char>>, rest: Seq<Seq<char>>)
    ensures
        anchored(root, root + rest) == Some(rest),
{
    let all = root + rest;
    assert(root =~= all.subrange(0, root.len() as int));
    assert(all.skip(root.len() as int) =~= rest);
}

/// At the root, the `go.work` says what the workspace is where there is one, and with
/// it the `go.work.sum` where there is one; nothing else does.
pub proof fn root_files_are_sources(has_work: bool, has_work_sum: bool, path: Seq<Seq<char>>)
    ensures
        root_sources(has_work, has_work_sum).contains(path) <==> has_work && (path == seq![
            "go.work"@,
        ] || (has_work_sum && path == seq!["go.work.sum"@])),
{
}

/// The files that say what the workspace is are listed once each, in order: exactly
/// those at the root, the manifest of each module, and its `go.sum` where it has one.
pub proof fn sources_are_these_and_no_others(
    known: DiscoveryModel,
    root: PathModel,
    modules: Seq<ModuleModel>,
    work: WorkModel,
    has_work: bool,
    work_sum: Option<Seq<char>>,
    path: Seq<Seq<char>>,
)
    ensures
        discovered_outcome(known, root, modules, work, has_work, work_sum) matches Ok(found) ==> {
            &&& ascending::<AnchoredPath>(found.resolution.definition_sources)
            &&& found.resolution.definition_sources.contains(path) <==> ((has_work && path == seq![
                "go.work"@,
            ]) || (has_work && work_sum is Some && path == seq!["go.work.sum"@]) || (exists|i: int|
                0 <= i < modules.len() && ((#[trigger] modules[i]).manifest_path.components
                    == root.components + path || (known.sum_paths.contains_key(modules[i].name)
                    && modules[i].directory.components.push("go.sum"@) == root.components + path))))
        },
{
    let at_root = root_sources(has_work, work_sum is Some);
    let bound = set![seq!["go.work"@], seq!["go.work.sum"@]];
    vstd::set_lib::lemma_set_subset_finite(bound, at_root);
    if let Ok(all) = sources_outcome(root, at_root, modules, known.sum_paths) {
        lemma_sources_exact(root, at_root, modules, known.sum_paths, path);
        lemma_sorted_lists::<AnchoredPath>(all);
        let listed = sorted::<AnchoredPath>(all);
        assert(listed.to_set().contains(path) <==> listed.contains(path));
        root_files_are_sources(has_work, work_sum is Some, path);
    }
}

proof fn lemma_sources_exact(
    root: PathModel,
    at_root: Set<Seq<Seq<char>>>,
    modules: Seq<ModuleModel>,
    sum_paths: Map<Seq<char>, Seq<char>>,
    path: Seq<Seq<char>>,
)
    requires
        at_root.finite(),
    ensures
        sources_outcome(root, at_root, modules, sum_paths) matches Ok(all) ==> all.finite() && (
        all.contains(path) <==> at_root.contains(path) || exists|i: int|
            0 <= i < modules.len() && ((#[trigger] modules[i]).manifest_path.components
                == root.components + path || (sum_paths.contains_key(modules[i].name)
                && modules[i].directory.components.push("go.sum"@) == root.components + path))),
    decreases modules.len(),
{
    if modules.len() > 0 {
        let rest = modules.drop_last();
        let last = modules[modules.len() - 1];
        let sum = last.directory.components.push("go.sum"@);
        lemma_sources_exact(root, at_root, rest, sum_paths, path);
        lemma_goes_on(root.components, path);
        if let Ok(all) = sources_outcome(root, at_root, modules, sum_paths) {
            let earlier = sources_outcome(root, at_root, rest, sum_paths)->Ok_0;
            let manifest = last.manifest_path.components.skip(root.components.len() as int);
            assert(last.manifest_path.components =~= root.components + manifest);
            let behind = sum.skip(root.components.len() as int);
            if sum_paths.contains_key(last.name) {
                assert(sum =~= root.components + behind);
            }
            let here = |module: ModuleModel|
                module.manifest_path.components == root.components + path || (
                sum_paths.contains_key(module.name) && module.directory.components.push("go.sum"@)
                    == root.components + path);
            assert(all.contains(path) <==> earlier.contains(path) || here(last));
            if all.contains(path) && !at_root.contains(path) {
                if !here(last) {
                    let i = choose|i: int|
                        0 <= i < rest.len() && ((#[trigger] rest[i]).manifest_path.components
                            == root.components + path || (sum_paths.contains_key(rest[i].name)
                            && rest[i].directory.components.push("go.sum"@) == root.components
                            + path));
                    assert(modules[i] == rest[i]);
                }
            }
            if exists|i: int|
                0 <= i < modules.len() && ((#[trigger] modules[i]).manifest_path.components
                    == root.components + path || (sum_paths.contains_key(modules[i].name)
                    && modules[i].directory.components.push("go.sum"@) == root.components + path)) {
                let i = choose|i: int|
                    0 <= i < modules.len() && ((#[trigger] modules[i]).manifest_path.components
                        == root.components + path || (sum_paths.contains_key(modules[i].name)
                        && modules[i].directory.components.push("go.sum"@) == root.components
                        + path));
                if i < rest.len() {
                    assert(rest[i] == modules[i]);
                }
            }
        }
    }
}

} // verus!
