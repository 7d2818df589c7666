//! What is known of a workspace once the `go` tool has listed its packages.
use crate::collections::{sorted, NameMap, SortedSet};
use crate::error::{outcome, Error, Failure, PathError, PathFailure};
use crate::listing::{
    all_sum_keys, collect_paths, collect_sum_keys, identities_of, listed_modules,
    local_directories, local_directories_of, main_package, module_identities, module_paths,
    modules_of, only_command, ExternalPackageIdentity, GoListPackage, IdentityModel,
    ListedPackage,
};
use crate::names::{GO_SUM, GO_WORK, GO_WORK_SUM};
use crate::path::{anchored, unix, AbsolutePath, AnchoredPath, PathModel};
use crate::prune::{GoPruneKnowledge, ModuleSumKnowledge, PruneModel, SumModel};
use crate::syntax::{WorkFile, WorkModel};
use crate::tasks::{
    contract_of, native_tasks, task_contract, tasks_of, ContractModel, NativeTask,
    ScopeTaskContract, TaskModel,
};
use crate::text::same;
use crate::workspace::{
    applied_to, change_observation, choose_replacement, inside, is_looked_up, local_module,
    local_module_outcome, module_at, module_in, observation_of, outside_specifier, path_inside,
    specifier_outcome, ChangeObservation, Lookup, LookupModel, ModuleInfo, ModuleModel,
    ObservationModel,
};
use vstd::prelude::*;

verus! {

/// What a dependency is for.
#[derive(Debug, Clone, Copy, PartialEq, Eq, Structural)]
pub enum DependencyKind {
    Production,
}

/// What a package depends on.
#[derive(Debug, PartialEq, Eq)]
pub enum RelationshipTarget {
    /// A package of the repository.
    Internal(String),
    /// A package from outside, which the package asks for by `specifier`.
    UnresolvedExternal { name: String, specifier: String },
}

/// A dependency of a package.
#[derive(Debug, PartialEq, Eq)]
pub struct Relationship {
    pub name: String,
    pub kind: DependencyKind,
    pub target: RelationshipTarget,
}

/// The model of a `RelationshipTarget`.
pub enum TargetModel {
    Internal(Seq<char>),
    UnresolvedExternal { name: Seq<char>, specifier: Seq<char> },
}

/// The model of a `Relationship`.
pub struct RelationshipModel {
    pub name: Seq<char>,
    pub kind: DependencyKind,
    pub target: TargetModel,
}

impl DeepView for RelationshipTarget {
    type V = TargetModel;

    open spec fn deep_view(&self) -> TargetModel {
        match self {
            RelationshipTarget::Internal(name) => TargetModel::Internal(name@),
            RelationshipTarget::UnresolvedExternal {
                name,
                specifier,
            } => TargetModel::UnresolvedExternal { name: name@, specifier: specifier@ },
        }
    }
}

impl DeepView for Relationship {
    type V = RelationshipModel;

    open spec fn deep_view(&self) -> RelationshipModel {
        RelationshipModel {
            name: self.name@,
            kind: self.kind,
            target: self.target.deep_view(),
        }
    }
}

/// A dependency on the package `name` of the repository.
pub open spec fn internal(name: Seq<char>) -> RelationshipModel {
    RelationshipModel {
        name,
        kind: DependencyKind::Production,
        target: TargetModel::Internal(name),
    }
}

/// A dependency on the package `name` from outside.
pub open spec fn external(name: Seq<char>, specifier: Seq<char>) -> RelationshipModel {
    RelationshipModel {
        name,
        kind: DependencyKind::Production,
        target: TargetModel::UnresolvedExternal { name, specifier },
    }
}

/// What was found out about a module: its packages, its packages with all that
/// they are built of and tested with, the directory of each local module among
/// the latter, the directory of each package among the latter, and for each of its
/// requirements the directory that replaces it, where one does.
#[derive(Debug)]
pub struct ModuleReport {
    pub local: Vec<GoListPackage>,
    pub listed: Vec<GoListPackage>,
    pub directories: Vec<Lookup>,
    pub targets: Vec<Option<AbsolutePath>>,
    pub lookups: Vec<Option<Lookup>>,
}

/// The model of a `ModuleReport`.
pub struct ReportModel {
    pub local: Seq<ListedPackage>,
    pub listed: Seq<ListedPackage>,
    pub directories: Seq<LookupModel>,
    pub targets: Seq<Option<PathModel>>,
    pub lookups: Seq<Option<LookupModel>>,
}

impl DeepView for ModuleReport {
    type V = ReportModel;

    open spec fn deep_view(&self) -> ReportModel {
        ReportModel {
            local: self.local.deep_view(),
            listed: self.listed.deep_view(),
            directories: self.directories.deep_view(),
            targets: self.targets.deep_view(),
            lookups: self.lookups.deep_view(),
        }
    }
}

/// The report on `module` looks up each directory that `local_directories`, that
/// `package_directories` and that `planned_lookups` gives.
pub open spec fn is_complete(report: ReportModel, work: WorkModel, module: ModuleModel) -> bool {
    &&& report.directories.len() == local_directories_of(modules_of(report.listed)).len()
    &&& report.targets.len() == report.listed.len()
    &&& are_looked_up(report.lookups, work, module)
}

/// `lookups` are what was found of the replacements for the requirements of
/// `module`.
pub open spec fn are_looked_up(
    lookups: Seq<Option<LookupModel>>,
    work: WorkModel,
    module: ModuleModel,
) -> bool {
    &&& lookups.len() == module.manifest.requirements.len()
    &&& forall|i: int|
        0 <= i < lookups.len() ==> is_looked_up(
            applied_to(work, module, module.manifest.requirements[i]),
            #[trigger] lookups[i],
        )
}

/// Whether each of `directories` leads to a module of the workspace, or what is
/// wrong with the first that does not.
pub open spec fn directories_outcome(
    root: PathModel,
    directories: Seq<Seq<char>>,
    lookups: Seq<LookupModel>,
    modules: Seq<ModuleModel>,
) -> Result<(), Failure>
    decreases directories.len(),
{
    if directories.len() == 0 {
        Ok(())
    } else {
        match directories_outcome(root, directories.drop_last(), lookups, modules) {
            Err(failure) => Err(failure),
            Ok(_) => match local_module_outcome(
                root,
                directories.last(),
                lookups[directories.len() - 1],
                modules,
            ) {
                Err(failure) => Err(failure),
                Ok(_) => Ok(()),
            },
        }
    }
}

proof fn lemma_directories_error(
    root: PathModel,
    directories: Seq<Seq<char>>,
    lookups: Seq<LookupModel>,
    modules: Seq<ModuleModel>,
    n: int,
)
    requires
        0 <= n <= directories.len(),
        directories_outcome(root, directories.take(n), lookups, modules) is Err,
    ensures
        directories_outcome(root, directories, lookups, modules) == directories_outcome(
            root,
            directories.take(n),
            lookups,
            modules,
        ),
    decreases directories.len() - n,
{
    if n < directories.len() {
        assert(directories.take(n + 1).drop_last() =~= directories.take(n));
        lemma_directories_error(root, directories, lookups, modules, n + 1);
    } else {
        assert(directories.take(n) =~= directories);
    }
}

/// Checks that each of `directories` leads to a module of the workspace.
pub fn check_directories(
    repo_root: &AbsolutePath,
    directories: &Vec<String>,
    lookups: Vec<Lookup>,
    modules: &Vec<ModuleInfo>,
) -> (r: Result<(), Error>)
    requires
        lookups.len() == directories.len(),
    ensures
        outcome(r) == directories_outcome(
            repo_root.deep_view(),
            directories.deep_view(),
            lookups.deep_view(),
            modules.deep_view(),
        ),
{
    let ghost root = repo_root.deep_view();
    let ghost names = directories.deep_view();
    let ghost found = lookups.deep_view();
    let ghost model = modules.deep_view();
    let mut i: usize = 0;
    for lookup in it: lookups
        invariant
            it.seq() == lookups@,
            i == it.index(),
            lookups.len() == directories.len(),
            root == repo_root.deep_view(),
            names == directories.deep_view(),
            found == lookups.deep_view(),
            model == modules.deep_view(),
            directories_outcome(root, names.take(i as int), found, model) is Ok,
    {
        proof {
            assert(names.take(i + 1).drop_last() =~= names.take(i as int));
            assert(names.take(i + 1).last() == names[i as int]);
            assert(found[i as int] == lookup.deep_view());
        }
        if let Err(error) = local_module(repo_root, directories[i].as_str(), lookup, modules) {
            proof {
                lemma_directories_error(root, names, found, model, i + 1);
            }
            return Err(error);
        }
        i = i + 1;
    }
    assert(names.take(i as int) =~= names);
    Ok(())
}

/// The modules of the workspace that import paths lead to.
pub open spec fn import_targets_of(
    listed: Seq<ListedPackage>,
    targets: Seq<Option<PathModel>>,
    modules: Seq<ModuleModel>,
) -> Map<Seq<char>, Seq<char>>
    decreases listed.len(),
{
    if listed.len() == 0 {
        Map::empty()
    } else {
        let earlier = import_targets_of(listed.drop_last(), targets, modules);
        match (listed.last().module, targets[listed.len() - 1]) {
            (Some(_), Some(path)) => match module_at(modules, path.components) {
                Some(name) => earlier.insert(listed.last().import_path, name),
                None => earlier,
            },
            _ => earlier,
        }
    }
}

/// The modules of the workspace that import paths lead to. `targets` are the
/// canonical directories of the modules of `listed`, package by package.
pub fn import_targets(
    listed: &Vec<GoListPackage>,
    targets: &Vec<Option<AbsolutePath>>,
    modules: &Vec<ModuleInfo>,
) -> (r: NameMap<String>)
    requires
        targets.len() == listed.len(),
    ensures
        r.deep_view() == import_targets_of(
            listed.deep_view(),
            targets.deep_view(),
            modules.deep_view(),
        ),
{
    let ghost packages = listed.deep_view();
    let ghost paths = targets.deep_view();
    let ghost model = modules.deep_view();
    let mut map: NameMap<String> = NameMap::new();
    let mut i: usize = 0;
    while i < listed.len()
        invariant
            i <= listed.len() == targets.len(),
            packages == listed.deep_view(),
            paths == targets.deep_view(),
            model == modules.deep_view(),
            map.deep_view() == import_targets_of(packages.take(i as int), paths, model),
        decreases listed.len() - i,
    {
        proof {
            assert(packages.take(i + 1).drop_last() =~= packages.take(i as int));
            assert(packages.take(i + 1).last() == listed@[i as int].deep_view());
            assert(paths[i as int] == targets@[i as int].deep_view());
        }
        if listed[i].module.is_some() {
            if let Some(path) = &targets[i] {
                if let Some(name) = module_in(modules, path) {
                    map.insert(listed[i].import_path.clone(), name);
                }
            }
        }
        i = i + 1;
    }
    assert(packages.take(i as int) =~= packages);
    map
}

/// The modules of the workspace, but for `own`, that `local` import from.
pub open spec fn imported_from(
    local: Seq<ListedPackage>,
    targets: Map<Seq<char>, Seq<char>>,
    own: Seq<char>,
) -> Set<Seq<char>> {
    Set::new(
        |name: Seq<char>|
            name != own && exists|i: int, j: int|
                0 <= i < local.len() && 0 <= j < local[i].imports.len() && targets.contains_key(
                    #[trigger] local[i].imports[j],
                ) && targets[local[i].imports[j]] == name,
    )
}

/// The modules of the workspace, but for `own`, that `local` import from.
pub fn imported_modules(local: &Vec<GoListPackage>, targets: &NameMap<String>, own: &str) -> (r:
    SortedSet<String>)
    ensures
        r.deep_view() == imported_from(local.deep_view(), targets.deep_view(), own@),
{
    let ghost packages = local.deep_view();
    let ghost map = targets.deep_view();
    let mut names: SortedSet<String> = SortedSet::new();
    let mut i: usize = 0;
    while i < local.len()
        invariant
            i <= local.len(),
            packages == local.deep_view(),
            map == targets.deep_view(),
            forall|name: Seq<char>| #[trigger]
                names.deep_view().contains(name) ==> imported_from(packages, map, own@).contains(
                    name,
                ),
            forall|a: int, b: int|
                0 <= a < i && 0 <= b < packages[a].imports.len() && map.contains_key(
                    #[trigger] packages[a].imports[b],
                ) && map[packages[a].imports[b]] != own@ ==> names.deep_view().contains(
                    map[packages[a].imports[b]],
                ),
        decreases local.len() - i,
    {
        let imports = &local[i].imports;
        assert(packages[i as int].imports == imports.deep_view());
        let mut j: usize = 0;
        while j < imports.len()
            invariant
                i < local.len(),
                j <= imports.len(),
                packages == local.deep_view(),
                map == targets.deep_view(),
                packages[i as int].imports == imports.deep_view(),
                forall|name: Seq<char>| #[trigger]
                    names.deep_view().contains(name) ==> imported_from(
                        packages,
                        map,
                        own@,
                    ).contains(name),
                forall|a: int, b: int|
                    0 <= a < i && 0 <= b < packages[a].imports.len() && map.contains_key(
                        #[trigger] packages[a].imports[b],
                    ) && map[packages[a].imports[b]] != own@ ==> names.deep_view().contains(
                        map[packages[a].imports[b]],
                    ),
                forall|b: int|
                    0 <= b < j && map.contains_key(#[trigger] packages[i as int].imports[b])
                        && map[packages[i as int].imports[b]] != own@
                        ==> names.deep_view().contains(map[packages[i as int].imports[b]]),
            decreases imports.len() - j,
        {
            assert(packages[i as int].imports[j as int] == imports@[j as int]@);
            if let Some(target) = targets.get(imports[j].as_str()) {
                if !same(target.as_str(), own) {
                    names.insert(target.clone());
                }
            }
            j = j + 1;
        }
        i = i + 1;
    }
    proof {
        let all = imported_from(packages, map, own@);
        assert forall|name: Seq<char>| all.contains(name) implies names.deep_view().contains(
            name,
        ) by {
            let (a, b) = choose|a: int, b: int|
                0 <= a < packages.len() && 0 <= b < packages[a].imports.len() && map.contains_key(
                    #[trigger] packages[a].imports[b],
                ) && map[packages[a].imports[b]] == name;
            assert(map.contains_key(packages[a].imports[b]));
        }
        assert(names.deep_view() =~= all);
    }
    names
}

/// The dependencies from outside among the first `n` requirements of `module`, in
/// order, or what is wrong with the first local path among their replacements that
/// leads to no module of the workspace.
pub open spec fn externals_outcome(
    root: PathModel,
    work: WorkModel,
    module: ModuleModel,
    lookups: Seq<Option<LookupModel>>,
    modules: Seq<ModuleModel>,
    n: nat,
) -> Result<Seq<RelationshipModel>, Failure>
    decreases n,
{
    if n == 0 {
        Ok(seq![])
    } else {
        let requirement = module.manifest.requirements[n - 1];
        match externals_outcome(root, work, module, lookups, modules, (n - 1) as nat) {
            Err(failure) => Err(failure),
            Ok(earlier) => match specifier_outcome(
                root,
                applied_to(work, module, requirement),
                requirement,
                lookups[n - 1],
                modules,
            ) {
                Err(failure) => Err(failure),
                Ok(None) => Ok(earlier),
                Ok(Some(specifier)) => Ok(earlier.push(external(requirement.0, specifier))),
            },
        }
    }
}

proof fn lemma_externals_error(
    root: PathModel,
    work: WorkModel,
    module: ModuleModel,
    lookups: Seq<Option<LookupModel>>,
    modules: Seq<ModuleModel>,
    n: nat,
    m: nat,
)
    requires
        n <= m,
        externals_outcome(root, work, module, lookups, modules, n) is Err,
    ensures
        externals_outcome(root, work, module, lookups, modules, m) == externals_outcome(
            root,
            work,
            module,
            lookups,
            modules,
            n,
        ),
    decreases m - n,
{
    if n < m {
        lemma_externals_error(root, work, module, lookups, modules, n, (m - 1) as nat);
    }
}

/// The dependencies from outside among the requirements of `module`, in order, or
/// what is wrong with the first local path among their replacements that leads to
/// no module of the workspace. `lookups` are what was found of the local paths,
/// requirement by requirement.
pub fn external_relationships(
    repo_root: &AbsolutePath,
    work: &WorkFile,
    module: &ModuleInfo,
    lookups: Vec<Option<Lookup>>,
    modules: &Vec<ModuleInfo>,
) -> (r: Result<Vec<Relationship>, Error>)
    requires
        are_looked_up(lookups.deep_view(), work.deep_view(), module.deep_view()),
    ensures
        outcome(r) == externals_outcome(
            repo_root.deep_view(),
            work.deep_view(),
            module.deep_view(),
            lookups.deep_view(),
            modules.deep_view(),
            module.manifest.requirements.len() as nat,
        ),
{
    let requirements = &module.manifest.requirements;
    let ghost root = repo_root.deep_view();
    let ghost said = work.deep_view();
    let ghost own = module.deep_view();
    let ghost found = lookups.deep_view();
    let ghost model = modules.deep_view();
    let mut relationships: Vec<Relationship> = Vec::new();
    let mut i: usize = 0;
    assert(relationships.deep_view() =~= seq![]);
    for lookup in it: lookups
        invariant
            it.seq() == lookups@,
            i == it.index(),
            requirements == &module.manifest.requirements,
            root == repo_root.deep_view(),
            said == work.deep_view(),
            own == module.deep_view(),
            found == lookups.deep_view(),
            model == modules.deep_view(),
            are_looked_up(found, said, own),
            externals_outcome(root, said, own, found, model, i as nat) == Ok::<
                Seq<RelationshipModel>,
                Failure,
            >(relationships.deep_view()),
    {
        let ghost before = relationships.deep_view();
        let ghost requirement = own.manifest.requirements[i as int];
        proof {
            assert(found[i as int] == lookup.deep_view());
            assert(requirement == requirements@[i as int].deep_view());
        }
        let applied = choose_replacement(
            &work.replacements,
            &module.manifest.replacements,
            requirements[i].0.as_str(),
            requirements[i].1.as_str(),
        );
        match outside_specifier(
            repo_root,
            applied,
            requirements[i].0.as_str(),
            requirements[i].1.as_str(),
            lookup,
            modules,
        ) {
            Err(error) => {
                proof {
                    lemma_externals_error(
                        root,
                        said,
                        own,
                        found,
                        model,
                        (i + 1) as nat,
                        requirements.len() as nat,
                    );
                }
                return Err(error);
            },
            Ok(None) => {},
            Ok(Some(specifier)) => {
                let relationship = Relationship {
                    name: requirements[i].0.clone(),
                    kind: DependencyKind::Production,
                    target: RelationshipTarget::UnresolvedExternal {
                        name: requirements[i].0.clone(),
                        specifier,
                    },
                };
                relationships.push(relationship);
                assert(relationships.deep_view() =~= before.push(relationship.deep_view()));
            },
        }
        i = i + 1;
    }
    Ok(relationships)
}

/// A module as a package of the repository.
pub struct DiscoveredPackage {
    pub name: String,
    pub manifest_path: AbsolutePath,
    pub relationships: Vec<Relationship>,
    pub tasks: Vec<NativeTask>,
    pub task_contract: ScopeTaskContract,
}

/// The model of a `DiscoveredPackage`.
pub struct PackageModel {
    pub name: Seq<char>,
    pub manifest_path: PathModel,
    pub relationships: Seq<RelationshipModel>,
    pub tasks: Seq<TaskModel>,
    pub task_contract: ContractModel,
}

impl DeepView for DiscoveredPackage {
    type V = PackageModel;

    open spec fn deep_view(&self) -> PackageModel {
        PackageModel {
            name: self.name@,
            manifest_path: self.manifest_path.deep_view(),
            relationships: self.relationships.deep_view(),
            tasks: self.tasks.deep_view(),
            task_contract: self.task_contract.deep_view(),
        }
    }
}

/// What follows from the report on a module.
pub struct ModuleFacts {
    pub package: DiscoveredPackage,
    pub identities: SortedSet<ExternalPackageIdentity>,
    pub dependencies: Vec<String>,
    pub requirements: SortedSet<String>,
    pub directory: String,
    pub sum_keys: SortedSet<(String, String)>,
}

/// The model of a `ModuleFacts`.
pub struct FactsModel {
    pub package: PackageModel,
    pub identities: Set<IdentityModel>,
    pub dependencies: Seq<Seq<char>>,
    pub requirements: Set<Seq<char>>,
    pub directory: Seq<char>,
    pub sum_keys: Set<(Seq<char>, Seq<char>)>,
}

impl DeepView for ModuleFacts {
    type V = FactsModel;

    open spec fn deep_view(&self) -> FactsModel {
        FactsModel {
            package: self.package.deep_view(),
            identities: self.identities.deep_view(),
            dependencies: self.dependencies.deep_view(),
            requirements: self.requirements.deep_view(),
            directory: self.directory@,
            sum_keys: self.sum_keys.deep_view(),
        }
    }
}

/// The identity of the compiler, which every package is built with.
pub open spec fn compiler_identity(compiler: Seq<char>) -> IdentityModel {
    IdentityModel { key: "go"@, version: compiler, human_name: None }
}

/// The modules of the workspace that `module` imports from, by what was reported.
pub open spec fn imports_of(
    modules: Seq<ModuleModel>,
    module: ModuleModel,
    report: ReportModel,
) -> Set<Seq<char>> {
    imported_from(
        report.local,
        import_targets_of(report.listed, report.targets, modules),
        module.name,
    )
}

/// What follows where nothing is wrong: what the module imports from the
/// workspace and has from outside, its tasks, what it is built of, and where it
/// stands.
pub open spec fn facts_of(
    modules: Seq<ModuleModel>,
    module: ModuleModel,
    compiler: Seq<char>,
    report: ReportModel,
    identities: Set<IdentityModel>,
    externals: Seq<RelationshipModel>,
    directory: Seq<Seq<char>>,
) -> FactsModel {
    let listed = modules_of(report.listed);
    let imports = sorted::<String>(imports_of(modules, module, report));
    let main = only_command(report.local);
    FactsModel {
        package: PackageModel {
            name: module.name,
            manifest_path: module.manifest_path,
            relationships: imports.map_values(|name: Seq<char>| internal(name)) + externals,
            tasks: tasks_of(main),
            task_contract: contract_of(main is Some),
        },
        identities: identities.insert(compiler_identity(compiler)),
        dependencies: imports,
        requirements: module_paths(listed),
        directory: unix(directory),
        sum_keys: all_sum_keys(listed),
    }
}

/// What follows from the report on `module`, or what is wrong: first a local
/// module that is not of the workspace, then missing checksums, then a
/// replacement by a directory that is no module of the workspace.
pub open spec fn facts_outcome(
    root: PathModel,
    work: WorkModel,
    modules: Seq<ModuleModel>,
    module: ModuleModel,
    compiler: Seq<char>,
    report: ReportModel,
) -> Result<FactsModel, Failure> {
    let listed = modules_of(report.listed);
    match directories_outcome(root, local_directories_of(listed), report.directories, modules) {
        Err(failure) => Err(failure),
        Ok(_) => match identities_of(listed) {
            Err(failure) => Err(failure),
            Ok(identities) => match externals_outcome(
                root,
                work,
                module,
                report.lookups,
                modules,
                module.manifest.requirements.len(),
            ) {
                Err(failure) => Err(failure),
                Ok(externals) => match anchored(root.components, module.directory.components) {
                    None => Err(
                        Failure::Path(
                            PathFailure::NotParent {
                                root: root.text,
                                path: module.directory.text,
                            },
                        ),
                    ),
                    Some(directory) => Ok(
                        facts_of(
                            modules,
                            module,
                            compiler,
                            report,
                            identities,
                            externals,
                            directory,
                        ),
                    ),
                },
            },
        },
    }
}

/// `path` does not lie under `root`.
fn not_parent(root: &AbsolutePath, path: &AbsolutePath) -> (r: Error)
    ensures
        r.deep_view() == Failure::Path(
            PathFailure::NotParent { root: root.deep_view().text, path: path.deep_view().text },
        ),
{
    Error::Path(PathError::NotParent { root: root.text.clone(), path: path.text.clone() })
}

/// Dependencies on the packages `names` of the repository.
fn internal_relationships(names: &Vec<String>) -> (r: Vec<Relationship>)
    ensures
        r.deep_view() == names.deep_view().map_values(|name: Seq<char>| internal(name)),
{
    let ghost expected = names.deep_view().map_values(|name: Seq<char>| internal(name));
    let mut out: Vec<Relationship> = Vec::new();
    let mut i: usize = 0;
    while i < names.len()
        invariant
            i <= names.len(),
            expected == names.deep_view().map_values(|name: Seq<char>| internal(name)),
            out.deep_view() == expected.take(i as int),
        decreases names.len() - i,
    {
        let ghost before = out.deep_view();
        let relationship = Relationship {
            name: names[i].clone(),
            kind: DependencyKind::Production,
            target: RelationshipTarget::Internal(names[i].clone()),
        };
        out.push(relationship);
        proof {
            assert(out.deep_view() =~= before.push(relationship.deep_view()));
            assert(expected[i as int] == internal(names@[i as int]@));
        }
        i = i + 1;
        assert(out.deep_view() =~= expected.take(i as int));
    }
    assert(expected.take(i as int) =~= expected);
    out
}

/// What follows from the report on `module`, or what is wrong.
pub fn module_facts(
    repo_root: &AbsolutePath,
    work: &WorkFile,
    modules: &Vec<ModuleInfo>,
    module: &ModuleInfo,
    compiler: &str,
    report: ModuleReport,
) -> (r: Result<ModuleFacts, Error>)
    requires
        is_complete(report.deep_view(), work.deep_view(), module.deep_view()),
    ensures
        outcome(r) == facts_outcome(
            repo_root.deep_view(),
            work.deep_view(),
            modules.deep_view(),
            module.deep_view(),
            compiler@,
            report.deep_view(),
        ),
{
    let ModuleReport { local, listed, directories, targets, lookups } = report;
    let listed_modules = listed_modules(&listed);
    let checked = local_directories(&listed_modules);
    if let Err(error) = check_directories(repo_root, &checked, directories, modules) {
        return Err(error);
    }
    let mut identities = match module_identities(&listed_modules) {
        Ok(identities) => identities,
        Err(error) => {
            return Err(error);
        },
    };
    let import_map = import_targets(&listed, &targets, modules);
    let imports = imported_modules(&local, &import_map, module.name.as_str()).into_vec();
    let sum_keys = collect_sum_keys(&listed_modules);
    identities.insert(ExternalPackageIdentity::new("go".to_owned(), compiler.to_owned()));
    let mut relationships = internal_relationships(&imports);
    let mut externals = match external_relationships(repo_root, work, module, lookups, modules) {
        Ok(externals) => externals,
        Err(error) => {
            return Err(error);
        },
    };
    let ghost first = relationships.deep_view();
    let ghost second = externals.deep_view();
    relationships.append(&mut externals);
    assert(relationships.deep_view() =~= first + second);
    let directory = match repo_root.anchor(&module.directory) {
        Some(directory) => directory.to_unix(),
        None => {
            return Err(not_parent(repo_root, &module.directory));
        },
    };
    let main = main_package(&local);
    let tasks = match &main {
        Some(main) => native_tasks(Some(main.as_str())),
        None => native_tasks(None),
    };
    let package = DiscoveredPackage {
        name: module.name.clone(),
        manifest_path: module.manifest_path.copy(),
        relationships,
        tasks,
        task_contract: task_contract(main.is_some()),
    };
    Ok(
        ModuleFacts {
            package,
            identities,
            dependencies: imports,
            requirements: collect_paths(&listed_modules),
            directory,
            sum_keys,
        },
    )
}

/// How the packages of a module are resolved.
pub struct PackageResolution {
    pub name: String,
    pub identities: SortedSet<ExternalPackageIdentity>,
}

/// The model of a `PackageResolution`.
pub struct ResolutionModel {
    pub name: Seq<char>,
    pub identities: Set<IdentityModel>,
}

impl DeepView for PackageResolution {
    type V = ResolutionModel;

    open spec fn deep_view(&self) -> ResolutionModel {
        ResolutionModel { name: self.name@, identities: self.identities.deep_view() }
    }
}

/// The `go.sum` of a module: how its path is written, and what it holds.
#[derive(Debug)]
pub struct SumFile {
    pub path: String,
    pub contents: String,
}

/// The model of a `SumFile`.
pub struct SumFileModel {
    pub path: Seq<char>,
    pub contents: Seq<char>,
}

impl DeepView for SumFile {
    type V = SumFileModel;

    open spec fn deep_view(&self) -> SumFileModel {
        SumFileModel { path: self.path@, contents: self.contents@ }
    }
}

/// What is known of the modules seen so far.
pub struct Discovery {
    pub packages: Vec<DiscoveredPackage>,
    pub resolutions: Vec<PackageResolution>,
    pub dependencies: NameMap<Vec<String>>,
    pub directories: NameMap<String>,
    pub requirements: NameMap<SortedSet<String>>,
    pub module_sums: NameMap<ModuleSumKnowledge>,
    pub sum_paths: NameMap<String>,
}

/// The model of a `Discovery`.
pub struct DiscoveryModel {
    pub packages: Seq<PackageModel>,
    pub resolutions: Seq<ResolutionModel>,
    pub dependencies: Map<Seq<char>, Seq<Seq<char>>>,
    pub directories: Map<Seq<char>, Seq<char>>,
    pub requirements: Map<Seq<char>, Set<Seq<char>>>,
    pub module_sums: Map<Seq<char>, SumModel>,
    pub sum_paths: Map<Seq<char>, Seq<char>>,
}

impl DeepView for Discovery {
    type V = DiscoveryModel;

    open spec fn deep_view(&self) -> DiscoveryModel {
        DiscoveryModel {
            packages: self.packages.deep_view(),
            resolutions: self.resolutions.deep_view(),
            dependencies: self.dependencies.deep_view(),
            directories: self.directories.deep_view(),
            requirements: self.requirements.deep_view(),
            module_sums: self.module_sums.deep_view(),
            sum_paths: self.sum_paths.deep_view(),
        }
    }
}

/// Nothing is known yet.
pub open spec fn empty_discovery() -> DiscoveryModel {
    DiscoveryModel {
        packages: seq![],
        resolutions: seq![],
        dependencies: Map::empty(),
        directories: Map::empty(),
        requirements: Map::empty(),
        module_sums: Map::empty(),
        sum_paths: Map::empty(),
    }
}

/// What is known with one module more; `sum` is its `go.sum`, where it has one.
pub open spec fn with_module(
    known: DiscoveryModel,
    facts: FactsModel,
    sum: Option<SumFileModel>,
) -> DiscoveryModel {
    let name = facts.package.name;
    DiscoveryModel {
        packages: known.packages.push(facts.package),
        resolutions: known.resolutions.push(
            ResolutionModel { name, identities: facts.identities },
        ),
        dependencies: known.dependencies.insert(name, facts.dependencies),
        directories: known.directories.insert(name, facts.directory),
        requirements: known.requirements.insert(name, facts.requirements),
        module_sums: match sum {
            Some(file) => known.module_sums.insert(
                name,
                SumModel {
                    path: inside(facts.directory, GO_SUM@),
                    contents: file.contents,
                    keys: facts.sum_keys,
                },
            ),
            None => known.module_sums,
        },
        sum_paths: match sum {
            Some(file) => known.sum_paths.insert(name, file.path),
            None => known.sum_paths,
        },
    }
}

/// A toolchain that packages are built with.
#[derive(Debug, Clone, Copy, PartialEq, Eq, Structural)]
pub enum ToolchainId {
    Go,
}

/// A domain in which packages from outside are resolved.
#[derive(Debug, Clone, Copy, PartialEq, Eq, Structural)]
pub enum ResolutionDomainId {
    Go,
}

/// Whether a resolution tells of all packages from outside.
#[derive(Debug, Clone, Copy, PartialEq, Eq, Structural)]
pub enum ResolutionCompleteness {
    Complete,
    Partial,
}

/// How the packages from outside are resolved that the modules of a workspace are
/// built of: in which domain, with which toolchain, relative to which directory,
/// for which modules, by which files, and to what.
pub struct ExternalResolution {
    pub domain: ResolutionDomainId,
    pub toolchain: ToolchainId,
    pub root: AnchoredPath,
    pub members: Vec<String>,
    pub definition_sources: Vec<AnchoredPath>,
    pub completeness: ResolutionCompleteness,
    pub packages: Vec<PackageResolution>,
}

/// The model of an `ExternalResolution`.
pub struct ExternalModel {
    pub domain: ResolutionDomainId,
    pub toolchain: ToolchainId,
    pub root: Seq<Seq<char>>,
    pub members: Seq<Seq<char>>,
    pub definition_sources: Seq<Seq<Seq<char>>>,
    pub completeness: ResolutionCompleteness,
    pub packages: Seq<ResolutionModel>,
}

impl DeepView for ExternalResolution {
    type V = ExternalModel;

    open spec fn deep_view(&self) -> ExternalModel {
        ExternalModel {
            domain: self.domain,
            toolchain: self.toolchain,
            root: self.root.deep_view(),
            members: self.members.deep_view(),
            definition_sources: self.definition_sources.deep_view(),
            completeness: self.completeness,
            packages: self.packages.deep_view(),
        }
    }
}

/// Where a workspace stands, and what it is called.
#[derive(Debug)]
pub struct WorkspaceRoot {
    pub name: String,
    pub path: AbsolutePath,
}

/// The model of a `WorkspaceRoot`.
pub struct RootModel {
    pub name: Seq<char>,
    pub path: PathModel,
}

impl DeepView for WorkspaceRoot {
    type V = RootModel;

    open spec fn deep_view(&self) -> RootModel {
        RootModel { name: self.name@, path: self.path.deep_view() }
    }
}

/// What is known of a whole workspace.
pub struct DiscoveredPackages {
    pub packages: Vec<DiscoveredPackage>,
    pub root: WorkspaceRoot,
    pub resolution: ExternalResolution,
    pub observation: ChangeObservation,
    pub prune: GoPruneKnowledge,
}

/// The model of a `DiscoveredPackages`.
pub struct DiscoveredModel {
    pub packages: Seq<PackageModel>,
    pub root: RootModel,
    pub resolution: ExternalModel,
    pub observation: ObservationModel,
    pub prune: PruneModel,
}

impl DeepView for DiscoveredPackages {
    type V = DiscoveredModel;

    open spec fn deep_view(&self) -> DiscoveredModel {
        DiscoveredModel {
            packages: self.packages.deep_view(),
            root: self.root.deep_view(),
            resolution: self.resolution.deep_view(),
            observation: self.observation.deep_view(),
            prune: self.prune.deep_view(),
        }
    }
}

/// The files at the root that say what the workspace is.
pub open spec fn root_sources(has_work: bool, has_work_sum: bool) -> Set<Seq<Seq<char>>> {
    Set::new(
        |path: Seq<Seq<char>>|
            {
                ||| has_work && path == seq![GO_WORK@]
                ||| has_work && has_work_sum && path == seq![GO_WORK_SUM@]
            },
    )
}

/// The files that say what the workspace is: those at the root, the manifest of
/// each module, and its `go.sum` where it has one; `sum_paths` are how the latter
/// are written.
pub open spec fn sources_outcome(
    root: PathModel,
    at_root: Set<Seq<Seq<char>>>,
    modules: Seq<ModuleModel>,
    sum_paths: Map<Seq<char>, Seq<char>>,
) -> Result<Set<Seq<Seq<char>>>, Failure>
    decreases modules.len(),
{
    if modules.len() == 0 {
        Ok(at_root)
    } else {
        let module = modules.last();
        match sources_outcome(root, at_root, modules.drop_last(), sum_paths) {
            Err(failure) => Err(failure),
            Ok(earlier) => match anchored(root.components, module.manifest_path.components) {
                None => Err(
                    Failure::Path(
                        PathFailure::NotParent {
                            root: root.text,
                            path: module.manifest_path.text,
                        },
                    ),
                ),
                Some(manifest) => if sum_paths.contains_key(module.name) {
                    match anchored(
                        root.components,
                        module.directory.components.push(GO_SUM@),
                    ) {
                        None => Err(
                            Failure::Path(
                                PathFailure::NotParent {
                                    root: root.text,
                                    path: sum_paths[module.name],
                                },
                            ),
                        ),
                        Some(sum) => Ok(earlier.insert(manifest).insert(sum)),
                    }
                } else {
                    Ok(earlier.insert(manifest))
                },
            },
        }
    }
}

proof fn lemma_sources_error(
    root: PathModel,
    at_root: Set<Seq<Seq<char>>>,
    modules: Seq<ModuleModel>,
    sum_paths: Map<Seq<char>, Seq<char>>,
    n: int,
)
    requires
        0 <= n <= modules.len(),
        sources_outcome(root, at_root, modules.take(n), sum_paths) is Err,
    ensures
        sources_outcome(root, at_root, modules, sum_paths) == sources_outcome(
            root,
            at_root,
            modules.take(n),
            sum_paths,
        ),
    decreases modules.len() - n,
{
    if n < modules.len() {
        assert(modules.take(n + 1).drop_last() =~= modules.take(n));
        lemma_sources_error(root, at_root, modules, sum_paths, n + 1);
    } else {
        assert(modules.take(n) =~= modules);
    }
}

/// What pruning needs to know, by what is known of the modules and what the
/// `go.work` says.
pub open spec fn prune_knowledge(
    known: DiscoveryModel,
    work: WorkModel,
    has_work: bool,
    work_sum: Option<Seq<char>>,
) -> PruneModel {
    PruneModel {
        directories: known.directories,
        dependencies: known.dependencies,
        go_version: work.go_version,
        toolchain: work.toolchain,
        replacements: work.replacements,
        requirements: known.requirements,
        module_sums: known.module_sums,
        work_sum,
        workspace: has_work,
    }
}

/// What is known of a whole workspace, once all modules have been seen.
pub open spec fn discovered_outcome(
    known: DiscoveryModel,
    root: PathModel,
    modules: Seq<ModuleModel>,
    work: WorkModel,
    has_work: bool,
    work_sum: Option<Seq<char>>,
) -> Result<DiscoveredModel, Failure> {
    match sources_outcome(
        root,
        root_sources(has_work, work_sum is Some),
        modules,
        known.sum_paths,
    ) {
        Err(failure) => Err(failure),
        Ok(sources) => Ok(
            DiscoveredModel {
                packages: known.packages,
                root: RootModel { name: "go"@, path: root },
                resolution: ExternalModel {
                    domain: ResolutionDomainId::Go,
                    toolchain: ToolchainId::Go,
                    root: seq![],
                    members: modules.map_values(|module: ModuleModel| module.name),
                    definition_sources: sorted::<AnchoredPath>(sources),
                    completeness: ResolutionCompleteness::Complete,
                    packages: known.resolutions,
                },
                observation: observation_of(modules, root),
                prune: prune_knowledge(known, work, has_work, work_sum),
            },
        ),
    }
}

/// A path of one component.
fn at_root(name: &str) -> (r: AnchoredPath)
    ensures
        r.deep_view() == seq![name@],
{
    let mut components: Vec<String> = Vec::new();
    components.push(name.to_owned());
    assert(components.deep_view() =~= seq![name@]);
    AnchoredPath { components }
}

/// The names of `modules`.
fn module_names(modules: &Vec<ModuleInfo>) -> (r: Vec<String>)
    ensures
        r.deep_view() == modules.deep_view().map_values(|module: ModuleModel| module.name),
{
    let ghost expected = modules.deep_view().map_values(|module: ModuleModel| module.name);
    let mut out: Vec<String> = Vec::new();
    let mut i: usize = 0;
    while i < modules.len()
        invariant
            i <= modules.len(),
            expected == modules.deep_view().map_values(|module: ModuleModel| module.name),
            out.deep_view() == expected.take(i as int),
        decreases modules.len() - i,
    {
        let ghost before = out.deep_view();
        out.push(modules[i].name.clone());
        proof {
            assert(expected[i as int] == modules@[i as int].name@);
            assert(out.deep_view() =~= before.push(expected[i as int]));
        }
        i = i + 1;
        assert(out.deep_view() =~= expected.take(i as int));
    }
    assert(expected.take(i as int) =~= expected);
    out
}

/// The files that say what the workspace is.
fn definition_sources(
    repo_root: &AbsolutePath,
    has_work: bool,
    has_work_sum: bool,
    modules: &Vec<ModuleInfo>,
    sum_paths: &NameMap<String>,
) -> (r: Result<SortedSet<AnchoredPath>, Error>)
    ensures
        outcome(r) == sources_outcome(
            repo_root.deep_view(),
            root_sources(has_work, has_work_sum),
            modules.deep_view(),
            sum_paths.deep_view(),
        ),
{
    let ghost root = repo_root.deep_view();
    let ghost start = root_sources(has_work, has_work_sum);
    let ghost model = modules.deep_view();
    let ghost known = sum_paths.deep_view();
    let mut sources: SortedSet<AnchoredPath> = SortedSet::new();
    if has_work {
        sources.insert(at_root(GO_WORK));
        if has_work_sum {
            sources.insert(at_root(GO_WORK_SUM));
        }
    }
    assert(sources.deep_view() =~= start);
    let mut i: usize = 0;
    while i < modules.len()
        invariant
            i <= modules.len(),
            root == repo_root.deep_view(),
            model == modules.deep_view(),
            known == sum_paths.deep_view(),
            sources_outcome(root, start, model.take(i as int), known) == Ok::<
                Set<Seq<Seq<char>>>,
                Failure,
            >(sources.deep_view()),
            start == root_sources(has_work, has_work_sum),
        decreases modules.len() - i,
    {
        let module = &modules[i];
        proof {
            assert(model.take(i + 1).drop_last() =~= model.take(i as int));
            assert(model.take(i + 1).last() == module.deep_view());
        }
        match repo_root.anchor(&module.manifest_path) {
            Some(manifest) => {
                sources.insert(manifest);
            },
            None => {
                proof {
                    lemma_sources_error(root, start, model, known, i + 1);
                }
                return Err(not_parent(repo_root, &module.manifest_path));
            },
        }
        if let Some(text) = sum_paths.get(module.name.as_str()) {
            let path = module.directory.child(GO_SUM, text.clone());
            match repo_root.anchor(&path) {
                Some(sum) => {
                    sources.insert(sum);
                },
                None => {
                    proof {
                        lemma_sources_error(root, start, model, known, i + 1);
                    }
                    return Err(not_parent(repo_root, &path));
                },
            }
        }
        i = i + 1;
    }
    assert(model.take(i as int) =~= model);
    Ok(sources)
}

impl Discovery {
    /// Nothing is known yet.
    pub fn new() -> (r: Self)
        ensures
            r.deep_view() == empty_discovery(),
    {
        let r = Discovery {
            packages: Vec::new(),
            resolutions: Vec::new(),
            dependencies: NameMap::new(),
            directories: NameMap::new(),
            requirements: NameMap::new(),
            module_sums: NameMap::new(),
            sum_paths: NameMap::new(),
        };
        assert(r.packages.deep_view() =~= seq![]);
        assert(r.resolutions.deep_view() =~= seq![]);
        r
    }

    /// Adds what follows from the report on a module; `sum` is its `go.sum`, where
    /// it has one.
    pub fn add_module(&mut self, facts: ModuleFacts, sum: Option<SumFile>)
        ensures
            final(self).deep_view() == with_module(
                old(self).deep_view(),
                facts.deep_view(),
                sum.deep_view(),
            ),
    {
        let ghost packages = self.packages.deep_view();
        let ghost resolutions = self.resolutions.deep_view();
        let ModuleFacts {
            package,
            identities,
            dependencies,
            requirements,
            directory,
            sum_keys,
        } = facts;
        let name = package.name.clone();
        if let Some(file) = sum {
            let path = path_inside(directory.as_str(), GO_SUM);
            self.module_sums.insert(
                name.clone(),
                ModuleSumKnowledge { path, contents: file.contents, keys: sum_keys },
            );
            self.sum_paths.insert(name.clone(), file.path);
        }
        self.dependencies.insert(name.clone(), dependencies);
        self.directories.insert(name.clone(), directory);
        self.requirements.insert(name.clone(), requirements);
        let resolution = PackageResolution { name, identities };
        self.resolutions.push(resolution);
        self.packages.push(package);
        assert(self.resolutions.deep_view() =~= resolutions.push(resolution.deep_view()));
        assert(self.packages.deep_view() =~= packages.push(package.deep_view()));
    }

    /// What is known of the whole workspace, once all of `modules` have been
    /// added. `has_work` tells whether there is a `go.work`, and `work_sum` is
    /// what the `go.work.sum` holds, where there is one.
    pub fn finish(
        self,
        repo_root: &AbsolutePath,
        modules: &Vec<ModuleInfo>,
        work: WorkFile,
        has_work: bool,
        work_sum: Option<String>,
    ) -> (r: Result<DiscoveredPackages, Error>)
        ensures
            outcome(r) == discovered_outcome(
                self.deep_view(),
                repo_root.deep_view(),
                modules.deep_view(),
                work.deep_view(),
                has_work,
                work_sum.deep_view(),
            ),
    {
        let Discovery {
            packages,
            resolutions,
            dependencies,
            directories,
            requirements,
            module_sums,
            sum_paths,
        } = self;
        let sources = match definition_sources(
            repo_root,
            has_work,
            work_sum.is_some(),
            modules,
            &sum_paths,
        ) {
            Ok(sources) => sources,
            Err(error) => {
                return Err(error);
            },
        };
        let WorkFile { go_version, toolchain, uses: _, replacements } = work;
        let at_root = AnchoredPath { components: Vec::new() };
        assert(at_root.deep_view() =~= seq![]);
        Ok(
            DiscoveredPackages {
                packages,
                root: WorkspaceRoot { name: "go".to_owned(), path: repo_root.copy() },
                resolution: ExternalResolution {
                    domain: ResolutionDomainId::Go,
                    toolchain: ToolchainId::Go,
                    root: at_root,
                    members: module_names(modules),
                    definition_sources: sources.into_vec(),
                    completeness: ResolutionCompleteness::Complete,
                    packages: resolutions,
                },
                observation: change_observation(modules, repo_root),
                prune: GoPruneKnowledge {
                    directories,
                    dependencies,
                    go_version,
                    toolchain,
                    replacements,
                    requirements,
                    module_sums,
                    work_sum,
                    workspace: has_work,
                },
            },
        )
    }
}

} // verus!
