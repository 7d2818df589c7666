//! Laws of discovery: the modules of a workspace and what is known of them.
use crate::collections::{ascending, lemma_sorted_lists, sorted};
use crate::discovery::{
    are_looked_up, compiler_identity, discovered_outcome, empty_discovery, external,
    externals_outcome, facts_outcome, import_targets_of, imports_of, internal, is_complete,
    prune_knowledge, root_sources, sources_outcome, with_module, DiscoveryModel, FactsModel,
    RelationshipModel, ReportModel, ResolutionCompleteness, ResolutionDomainId, SumFileModel,
    ToolchainId,
};
use crate::error::Failure;
use crate::listing::{
    effective, has_checksums, identities_of, identity_of, is_local, ListedModule, ListedPackage,
};
use crate::names::{GO_MOD, GO_SUM, GO_WORK, GO_WORK_SUM};
use crate::path::{anchored, unix, AnchoredPath, PathModel};
use crate::prune::{
    closed, depends, lemma_closure_least, retained_modules, use_path, without_slashes, SumModel,
};
use crate::syntax::WorkModel;
use crate::text::join;
use crate::workspace::{
    applied_to, explicitly_relative, first_replacement, inside, is_looked_up, is_lookup_for,
    is_named, local_module_outcome, manifest_outcome, may_be_local, module_at, modules_outcome,
    observation_of, specifier_outcome, LookupModel, MemberModel, ModuleModel,
};
use vstd::prelude::*;

verus! {

/// Every module of a workspace lies in the repository, its manifest is the `go.mod`
/// in its directory, and no two have one name.
pub proof fn modules_are_distinct(root: PathModel, members: Seq<MemberModel>)
    ensures
        modules_outcome(root, members) matches Ok(modules) ==> {
            &&& modules.len() == members.len()
            &&& forall|i: int|
                0 <= i < modules.len() ==> anchored(
                    root.components,
                    (#[trigger] modules[i]).directory.components,
                ) is Some && modules[i].manifest_path.components
                    == modules[i].directory.components.push(GO_MOD@) && modules[i].name
                    == modules[i].manifest.name
            &&& forall|i: int, j: int|
                0 <= i < j < modules.len() ==> (#[trigger] modules[i]).name != (
                #[trigger] modules[j]).name
        },
    decreases members.len(),
{
    if members.len() > 0 {
        modules_are_distinct(root, members.drop_last());
        if let Ok(modules) = modules_outcome(root, members) {
            let earlier = modules_outcome(root, members.drop_last())->Ok_0;
            assert forall|i: int, j: int| 0 <= i < j < modules.len() implies (
            #[trigger] modules[i]).name != (#[trigger] modules[j]).name by {
                assert(modules[i] == earlier[i]);
                if j < earlier.len() {
                    assert(modules[j] == earlier[j]);
                }
            }
        }
    }
}

proof fn lemma_module_of_member(root: PathModel, members: Seq<MemberModel>, i: int)
    requires
        0 <= i < members.len(),
        modules_outcome(root, members) is Ok,
    ensures
        modules_outcome(root, members)->Ok_0.len() == members.len(),
        members[i].directory == LookupModel::Found(
            modules_outcome(root, members)->Ok_0[i].directory,
        ),
        manifest_outcome(members[i]) is Ok,
        manifest_outcome(members[i])->Ok_0.1.name == modules_outcome(root, members)->Ok_0[i].name,
    decreases members.len(),
{
    let rest = members.drop_last();
    modules_are_distinct(root, members);
    modules_are_distinct(root, rest);
    if i < rest.len() {
        lemma_module_of_member(root, rest, i);
    }
}

/// No two modules of a workspace have one directory, where what stands in a
/// directory is the same whenever it is looked at.
pub proof fn modules_have_directories_of_their_own(root: PathModel, members: Seq<MemberModel>)
    requires
        forall|i: int, j: int|
            0 <= i < j < members.len() && (#[trigger] members[i]).directory is Found && (
            #[trigger] members[j]).directory is Found && members[i].directory->Found_0.components
                == members[j].directory->Found_0.components ==> members[i].manifest
                == members[j].manifest,
    ensures
        modules_outcome(root, members) matches Ok(modules) ==> forall|i: int, j: int|
            0 <= i < j < modules.len() ==> (#[trigger] modules[i]).directory.components != (
            #[trigger] modules[j]).directory.components,
{
    modules_are_distinct(root, members);
    if let Ok(modules) = modules_outcome(root, members) {
        assert forall|i: int, j: int| 0 <= i < j < modules.len() implies (
        #[trigger] modules[i]).directory.components != (
        #[trigger] modules[j]).directory.components by {
            lemma_module_of_member(root, members, i);
            lemma_module_of_member(root, members, j);
            assert(members[i].directory is Found && members[j].directory is Found);
            assert(modules[i].name != modules[j].name);
        }
    }
}

proof fn lemma_module_at(modules: Seq<ModuleModel>, components: Seq<Seq<char>>)
    ensures
        module_at(modules, components) matches Some(name) ==> is_named(modules, name),
    decreases modules.len(),
{
    if modules.len() > 0 {
        let rest = modules.drop_last();
        lemma_module_at(rest, components);
        if let Some(name) = module_at(modules, components) {
            if modules.last().directory.components == components {
                assert(modules[modules.len() - 1].name == name);
            } else {
                let i = choose|i: int| 0 <= i < rest.len() && (#[trigger] rest[i]).name == name;
                assert(modules[i].name == name);
            }
        }
    }
}

proof fn lemma_targets_named(
    listed: Seq<ListedPackage>,
    targets: Seq<Option<PathModel>>,
    modules: Seq<ModuleModel>,
    path: Seq<char>,
)
    ensures
        import_targets_of(listed, targets, modules).contains_key(path) ==> is_named(
            modules,
            import_targets_of(listed, targets, modules)[path],
        ),
    decreases listed.len(),
{
    if listed.len() > 0 {
        lemma_targets_named(listed.drop_last(), targets, modules, path);
        if let Some(target) = targets[listed.len() - 1] {
            lemma_module_at(modules, target.components);
        }
    }
}

/// The names of `modules`.
pub open spec fn names_of(modules: Seq<ModuleModel>) -> Set<Seq<char>> {
    modules.map_values(|module: ModuleModel| module.name).to_set()
}

proof fn lemma_names_of(modules: Seq<ModuleModel>, name: Seq<char>)
    ensures
        names_of(modules).contains(name) <==> is_named(modules, name),
        names_of(modules).finite(),
{
    let names = modules.map_values(|module: ModuleModel| module.name);
    vstd::seq_lib::seq_to_set_is_finite(names);
    if names.contains(name) {
        let i = choose|i: int| 0 <= i < names.len() && names[i] == name;
        assert(modules[i].name == name);
    }
    if is_named(modules, name) {
        let i = choose|i: int| 0 <= i < modules.len() && (#[trigger] modules[i]).name == name;
        assert(names[i] == name);
    }
}

/// What a module imports from the workspace are other modules of the workspace.
pub proof fn imports_are_other_modules(
    modules: Seq<ModuleModel>,
    module: ModuleModel,
    report: ReportModel,
)
    ensures
        imports_of(modules, module, report).subset_of(names_of(modules)),
        !imports_of(modules, module, report).contains(module.name),
        imports_of(modules, module, report).finite(),
{
    let targets = import_targets_of(report.listed, report.targets, modules);
    let all = imports_of(modules, module, report);
    assert forall|name: Seq<char>| all.contains(name) implies names_of(modules).contains(name) by {
        let (i, j) = choose|i: int, j: int|
            0 <= i < report.local.len() && 0 <= j < report.local[i].imports.len()
                && targets.contains_key(#[trigger] report.local[i].imports[j])
                && targets[report.local[i].imports[j]] == name;
        lemma_targets_named(
            report.listed,
            report.targets,
            modules,
            report.local[i].imports[j],
        );
        lemma_names_of(modules, name);
    }
    lemma_names_of(modules, module.name);
    vstd::set_lib::lemma_set_subset_finite(names_of(modules), all);
}

/// What is known once all of `facts` have been added; `sums` are the contents of
/// the `go.sum` files.
pub open spec fn discovery_of(
    facts: Seq<FactsModel>,
    sums: Seq<Option<SumFileModel>>,
) -> DiscoveryModel
    decreases facts.len(),
{
    if facts.len() == 0 {
        empty_discovery()
    } else {
        with_module(
            discovery_of(facts.drop_last(), sums),
            facts.last(),
            sums[facts.len() - 1],
        )
    }
}

/// `facts` are what follows from the reports on `modules`.
pub open spec fn facts_follow(
    root: PathModel,
    work: WorkModel,
    modules: Seq<ModuleModel>,
    compiler: Seq<char>,
    reports: Seq<ReportModel>,
    facts: Seq<FactsModel>,
) -> bool {
    &&& facts.len() == modules.len()
    &&& forall|i: int|
        0 <= i < facts.len() ==> facts_outcome(root, work, modules, modules[i], compiler, reports[i])
            == Ok::<FactsModel, Failure>(#[trigger] facts[i])
}

/// What is known of the first `n` modules.
spec fn known_of(modules: Seq<ModuleModel>, known: DiscoveryModel, n: int) -> bool {
    &&& known.packages.len() == n
    &&& known.resolutions.len() == n
    &&& forall|i: int|
        0 <= i < n ==> (#[trigger] known.packages[i]).name == modules[i].name
            && known.packages[i].manifest_path == modules[i].manifest_path
    &&& forall|i: int| 0 <= i < n ==> (#[trigger] known.resolutions[i]).name == modules[i].name
    &&& forall|i: int|
        0 <= i < n ==> {
            let name = (#[trigger] modules[i]).name;
            known.dependencies.contains_key(name) && known.directories.contains_key(name)
                && known.requirements.contains_key(name)
        }
    &&& forall|a: Seq<char>, b: Seq<char>| #[trigger]
        depends(known.dependencies, a, b) ==> is_named(modules, b) && a != b
    &&& forall|name: Seq<char>| #[trigger]
        known.dependencies.contains_key(name) ==> is_named(modules, name)
    &&& forall|name: Seq<char>| #[trigger]
        known.directories.contains_key(name) ==> is_named(modules, name)
    &&& known.dependencies.dom().finite()
}

proof fn lemma_known(
    root: PathModel,
    work: WorkModel,
    modules: Seq<ModuleModel>,
    compiler: Seq<char>,
    reports: Seq<ReportModel>,
    facts: Seq<FactsModel>,
    sums: Seq<Option<SumFileModel>>,
    n: int,
)
    requires
        facts_follow(root, work, modules, compiler, reports, facts),
        0 <= n <= facts.len(),
    ensures
        known_of(modules, discovery_of(facts.take(n), sums), n),
    decreases n,
{
    if n > 0 {
        lemma_known(root, work, modules, compiler, reports, facts, sums, n - 1);
        assert(facts.take(n).drop_last() =~= facts.take(n - 1));
        let before = discovery_of(facts.take(n - 1), sums);
        let after = discovery_of(facts.take(n), sums);
        let module = modules[n - 1];
        let fact = facts[n - 1];
        let imports = imports_of(modules, module, reports[n - 1]);
        assert(facts.take(n).last() == fact);
        assert(fact.package.name == module.name);
        assert(fact.dependencies == sorted::<String>(imports));
        imports_are_other_modules(modules, module, reports[n - 1]);
        lemma_sorted_lists::<String>(imports);
        assert(module.name == modules[n - 1].name);
        assert forall|a: Seq<char>, b: Seq<char>| #[trigger]
            depends(after.dependencies, a, b) implies is_named(modules, b) && a != b by {
            if a == module.name {
                assert(fact.dependencies.to_set().contains(b));
                lemma_names_of(modules, b);
            } else {
                assert(depends(before.dependencies, a, b));
            }
        }
    }
}

/// There is one package per module, in order, and what is known of dependencies
/// is about modules of the workspace: a module depends on other modules of it.
pub proof fn every_module_is_known(
    root: PathModel,
    work: WorkModel,
    modules: Seq<ModuleModel>,
    compiler: Seq<char>,
    reports: Seq<ReportModel>,
    facts: Seq<FactsModel>,
    sums: Seq<Option<SumFileModel>>,
)
    requires
        facts_follow(root, work, modules, compiler, reports, facts),
    ensures
        discovery_of(facts, sums).packages.len() == modules.len(),
        forall|i: int|
            0 <= i < modules.len() ==> (#[trigger] discovery_of(facts, sums).packages[i]).name
                == modules[i].name,
        discovery_of(facts, sums).dependencies.dom() == names_of(modules),
        discovery_of(facts, sums).directories.dom() == names_of(modules),
        forall|a: Seq<char>, b: Seq<char>| #[trigger]
            depends(discovery_of(facts, sums).dependencies, a, b) ==> names_of(modules).contains(b)
                && a != b,
{
    let known = discovery_of(facts, sums);
    lemma_known(root, work, modules, compiler, reports, facts, sums, facts.len() as int);
    assert(facts.take(facts.len() as int) =~= facts);
    assert forall|name: Seq<char>| known.dependencies.contains_key(name) <==> names_of(
        modules,
    ).contains(name) by {
        lemma_names_of(modules, name);
    }
    assert forall|name: Seq<char>| known.directories.contains_key(name) <==> names_of(
        modules,
    ).contains(name) by {
        lemma_names_of(modules, name);
    }
    assert forall|a: Seq<char>, b: Seq<char>| #[trigger] depends(known.dependencies, a, b) implies
        names_of(modules).contains(b) && a != b by {
        lemma_names_of(modules, b);
    }
    assert(known.dependencies.dom() =~= names_of(modules));
    assert(known.directories.dom() =~= names_of(modules));
}

/// What is known of the modules is what was added of each, where no two have one
/// name.
pub proof fn each_module_keeps_its_facts(
    root: PathModel,
    work: WorkModel,
    modules: Seq<ModuleModel>,
    compiler: Seq<char>,
    reports: Seq<ReportModel>,
    facts: Seq<FactsModel>,
    sums: Seq<Option<SumFileModel>>,
    i: int,
)
    requires
        facts_follow(root, work, modules, compiler, reports, facts),
        forall|a: int, b: int|
            0 <= a < b < modules.len() ==> (#[trigger] modules[a]).name != (
            #[trigger] modules[b]).name,
        0 <= i < modules.len(),
    ensures
        keeps_facts(discovery_of(facts, sums), modules[i].name, facts[i], sums[i]),
        discovery_of(facts, sums).packages[i] == facts[i].package,
        anchored(root.components, modules[i].directory.components) is Some,
        discovery_of(facts, sums).directories[modules[i].name] == unix(
            anchored(root.components, modules[i].directory.components)->0,
        ),
{
    lemma_keeps_facts(root, work, modules, compiler, reports, facts, sums, i, facts.len() as int);
    assert(facts.take(facts.len() as int) =~= facts);
    assert(facts_outcome(root, work, modules, modules[i], compiler, reports[i]) == Ok::<
        FactsModel,
        Failure,
    >(facts[i]));
}

/// What is known of the module `name` are `facts`, and its `go.sum` holds `sum`.
pub open spec fn keeps_facts(
    known: DiscoveryModel,
    name: Seq<char>,
    facts: FactsModel,
    sum: Option<SumFileModel>,
) -> bool {
    &&& known.dependencies.contains_key(name) && known.dependencies[name] == facts.dependencies
    &&& known.directories.contains_key(name) && known.directories[name] == facts.directory
    &&& known.requirements.contains_key(name) && known.requirements[name] == facts.requirements
    &&& known.module_sums.contains_key(name) <==> sum is Some
    &&& known.sum_paths.contains_key(name) <==> sum is Some
    &&& sum matches Some(file) ==> known.sum_paths[name] == file.path && known.module_sums[name]
        == (SumModel {
        path: inside(facts.directory, GO_SUM@),
        contents: file.contents,
        keys: facts.sum_keys,
    })
}

proof fn lemma_sums_named(
    root: PathModel,
    work: WorkModel,
    modules: Seq<ModuleModel>,
    compiler: Seq<char>,
    reports: Seq<ReportModel>,
    facts: Seq<FactsModel>,
    sums: Seq<Option<SumFileModel>>,
    n: int,
)
    requires
        facts_follow(root, work, modules, compiler, reports, facts),
        0 <= n <= facts.len(),
    ensures
        forall|name: Seq<char>| #[trigger]
            discovery_of(facts.take(n), sums).module_sums.contains_key(name) ==> is_named(
                modules.take(n),
                name,
            ),
        discovery_of(facts.take(n), sums).sum_paths.dom() == discovery_of(
            facts.take(n),
            sums,
        ).module_sums.dom(),
    decreases n,
{
    if n > 0 {
        lemma_sums_named(root, work, modules, compiler, reports, facts, sums, n - 1);
        assert(facts.take(n).drop_last() =~= facts.take(n - 1));
        let before = discovery_of(facts.take(n - 1), sums);
        let after = discovery_of(facts.take(n), sums);
        assert(facts.take(n).last() == facts[n - 1]);
        assert(facts[n - 1].package.name == modules[n - 1].name);
        assert(after.sum_paths.dom() =~= after.module_sums.dom());
        assert forall|name: Seq<char>| #[trigger] after.module_sums.contains_key(name) implies
            is_named(modules.take(n), name) by {
            if name == modules[n - 1].name {
                assert(modules.take(n)[n - 1].name == name);
            } else {
                assert(before.module_sums.contains_key(name));
                let k = choose|k: int|
                    0 <= k < n - 1 && (#[trigger] modules.take(n - 1)[k]).name == name;
                assert(modules.take(n)[k].name == name);
            }
        }
    }
}

proof fn lemma_keeps_facts(
    root: PathModel,
    work: WorkModel,
    modules: Seq<ModuleModel>,
    compiler: Seq<char>,
    reports: Seq<ReportModel>,
    facts: Seq<FactsModel>,
    sums: Seq<Option<SumFileModel>>,
    i: int,
    n: int,
)
    requires
        facts_follow(root, work, modules, compiler, reports, facts),
        forall|a: int, b: int|
            0 <= a < b < modules.len() ==> (#[trigger] modules[a]).name != (
            #[trigger] modules[b]).name,
        0 <= i < n <= facts.len(),
    ensures
        keeps_facts(discovery_of(facts.take(n), sums), modules[i].name, facts[i], sums[i]),
        discovery_of(facts.take(n), sums).packages.len() == n,
        discovery_of(facts.take(n), sums).packages[i] == facts[i].package,
    decreases n,
{
    let before = discovery_of(facts.take(n - 1), sums);
    lemma_known(root, work, modules, compiler, reports, facts, sums, n - 1);
    assert(facts.take(n).drop_last() =~= facts.take(n - 1));
    assert(facts.take(n).last() == facts[n - 1]);
    assert(facts[n - 1].package.name == modules[n - 1].name);
    if i < n - 1 {
        lemma_keeps_facts(root, work, modules, compiler, reports, facts, sums, i, n - 1);
        assert(modules[i].name != modules[n - 1].name);
    } else {
        lemma_sums_named(root, work, modules, compiler, reports, facts, sums, n - 1);
        assert(before.sum_paths.dom().contains(modules[i].name)
            == before.module_sums.dom().contains(modules[i].name));
        if before.module_sums.contains_key(modules[i].name) {
            let k = choose|k: int|
                0 <= k < n - 1 && (#[trigger] modules.take(n - 1)[k]).name == modules[i].name;
            assert(modules[k].name != modules[i].name);
        }
    }
}

/// Where modules of the workspace are kept, all that stays are modules of the
/// workspace, and the directory of each is known.
pub proof fn pruning_stays_in_workspace(
    root: PathModel,
    work: WorkModel,
    modules: Seq<ModuleModel>,
    compiler: Seq<char>,
    reports: Seq<ReportModel>,
    facts: Seq<FactsModel>,
    sums: Seq<Option<SumFileModel>>,
    has_work: bool,
    work_sum: Option<Seq<char>>,
    kept: Seq<Seq<char>>,
)
    requires
        facts_follow(root, work, modules, compiler, reports, facts),
        kept.to_set().subset_of(names_of(modules)),
    ensures
        retained_modules(
            prune_knowledge(discovery_of(facts, sums), work, has_work, work_sum),
            kept,
        ).subset_of(names_of(modules)),
        names_of(modules) == prune_knowledge(
            discovery_of(facts, sums),
            work,
            has_work,
            work_sum,
        ).directories.dom(),
{
    let model = prune_knowledge(discovery_of(facts, sums), work, has_work, work_sum);
    every_module_is_known(root, work, modules, compiler, reports, facts, sums);
    assert(closed(model.dependencies, names_of(modules)));
    lemma_closure_least(model.dependencies, kept.to_set(), names_of(modules));
}

/// A change of any `go.mod`, of the `go.work` or the `go.work.sum`, and of the
/// `go.sum` of any module in the repository is noticed, and its build cache is
/// ignored.
pub proof fn changes_of_modules_are_noticed(
    modules: Seq<ModuleModel>,
    root: PathModel,
    i: int,
    directory: Seq<Seq<char>>,
)
    requires
        0 <= i < modules.len(),
        anchored(root.components, modules[i].directory.components) == Some(directory),
    ensures
        observation_of(modules, root).rediscovery_file_names == seq![GO_MOD@],
        observation_of(modules, root).resolution_paths.contains(GO_WORK@),
        observation_of(modules, root).resolution_paths.contains(GO_WORK_SUM@),
        observation_of(modules, root).resolution_paths.contains(
            inside(unix(directory), GO_SUM@),
        ),
        observation_of(modules, root).ignore_prefixes.contains(
            inside(unix(directory), ".cache/go-build"@),
        ),
    decreases modules.len(),
{
    let rest = modules.drop_last();
    let before = observation_of(rest, root);
    let after = observation_of(modules, root);
    lemma_root_files_noticed(modules, root);
    if i < rest.len() {
        changes_of_modules_are_noticed(rest, root, i, directory);
        let sum = inside(unix(directory), GO_SUM@);
        let cache = inside(unix(directory), ".cache/go-build"@);
        let a = choose|a: int|
            0 <= a < before.resolution_paths.len() && before.resolution_paths[a] == sum;
        let b = choose|b: int|
            0 <= b < before.ignore_prefixes.len() && before.ignore_prefixes[b] == cache;
        assert(after.resolution_paths[a] == sum);
        assert(after.ignore_prefixes[b] == cache);
    } else {
        assert(after.resolution_paths.last() == inside(unix(directory), GO_SUM@));
        assert(after.ignore_prefixes.last() == inside(unix(directory), ".cache/go-build"@));
    }
}

proof fn lemma_root_files_noticed(modules: Seq<ModuleModel>, root: PathModel)
    ensures
        observation_of(modules, root).rediscovery_file_names == seq![GO_MOD@],
        observation_of(modules, root).resolution_paths.len() >= 2,
        observation_of(modules, root).resolution_paths[0] == GO_WORK@,
        observation_of(modules, root).resolution_paths[1] == GO_WORK_SUM@,
    decreases modules.len(),
{
    if modules.len() > 0 {
        lemma_root_files_noticed(modules.drop_last(), root);
    }
}

proof fn lemma_sources_finite(
    root: PathModel,
    at_root: Set<Seq<Seq<char>>>,
    modules: Seq<ModuleModel>,
    sums: Map<Seq<char>, Seq<char>>,
)
    requires
        at_root.finite(),
    ensures
        sources_outcome(root, at_root, modules, sums) matches Ok(all) ==> all.finite()
            && at_root.subset_of(all),
    decreases modules.len(),
{
    if modules.len() > 0 {
        lemma_sources_finite(root, at_root, modules.drop_last(), sums);
    }
}

proof fn lemma_sources_hold(
    root: PathModel,
    at_root: Set<Seq<Seq<char>>>,
    modules: Seq<ModuleModel>,
    sums: Map<Seq<char>, Seq<char>>,
    i: int,
)
    requires
        0 <= i < modules.len(),
    ensures
        sources_outcome(root, at_root, modules, sums) matches Ok(all) ==> {
            &&& anchored(root.components, modules[i].manifest_path.components) matches Some(
                manifest,
            ) && all.contains(manifest)
            &&& sums.contains_key(modules[i].name) ==> (anchored(
                root.components,
                modules[i].directory.components.push(GO_SUM@),
            ) matches Some(sum) && all.contains(sum))
        },
    decreases modules.len(),
{
    if i < modules.len() - 1 {
        lemma_sources_hold(root, at_root, modules.drop_last(), sums, i);
    }
}

/// The files that say what the workspace is are listed in order and once: the
/// manifest of every module and its `go.sum` where it has one, the `go.work`, and
/// beside it the `go.work.sum`.
pub proof fn sources_are_listed(
    known: DiscoveryModel,
    root: PathModel,
    modules: Seq<ModuleModel>,
    work: WorkModel,
    has_work: bool,
    work_sum: Option<Seq<char>>,
    i: int,
)
    requires
        0 <= i < modules.len(),
    ensures
        discovered_outcome(known, root, modules, work, has_work, work_sum) matches Ok(found) ==> {
            &&& ascending::<AnchoredPath>(found.resolution.definition_sources)
            &&& has_work ==> found.resolution.definition_sources.contains(seq![GO_WORK@])
            &&& has_work && work_sum is Some ==> found.resolution.definition_sources.contains(
                seq![GO_WORK_SUM@],
            )
            &&& anchored(root.components, modules[i].manifest_path.components) matches Some(
                manifest,
            ) && found.resolution.definition_sources.contains(manifest)
            &&& known.sum_paths.contains_key(modules[i].name) ==> (anchored(
                root.components,
                modules[i].directory.components.push(GO_SUM@),
            ) matches Some(sum) && found.resolution.definition_sources.contains(sum))
        },
{
    let at_root = root_sources(has_work, work_sum is Some);
    let bound = set![seq![GO_WORK@], seq![GO_WORK_SUM@]];
    vstd::set_lib::lemma_set_subset_finite(bound, at_root);
    lemma_sources_finite(root, at_root, modules, known.sum_paths);
    lemma_sources_hold(root, at_root, modules, known.sum_paths, i);
    if let Ok(all) = sources_outcome(root, at_root, modules, known.sum_paths) {
        lemma_sorted_lists::<AnchoredPath>(all);
        let listed = sorted::<AnchoredPath>(all);
        assert forall|path: Seq<Seq<char>>| all.contains(path) implies #[trigger] listed.contains(
            path,
        ) by {
            assert(listed.to_set().contains(path));
        }
    }
}

/// Identities are known exactly where every module from outside has its version
/// and both checksums; then the identity of each is among them.
pub proof fn identities_need_checksums(modules: Seq<ListedModule>)
    ensures
        identities_of(modules) is Ok <==> forall|i: int|
            0 <= i < modules.len() ==> (#[trigger] modules[i]).main || is_local(
                effective(modules[i]),
            ) || has_checksums(effective(modules[i])),
        identities_of(modules) matches Ok(all) ==> forall|i: int|
            0 <= i < modules.len() && !(#[trigger] modules[i]).main && !is_local(
                effective(modules[i]),
            ) ==> all.contains(identity_of(modules[i])),
    decreases modules.len(),
{
    if modules.len() > 0 {
        let rest = modules.drop_last();
        identities_need_checksums(rest);
        if identities_of(rest) is Err {
            let i = choose|i: int|
                0 <= i < rest.len() && !((#[trigger] rest[i]).main || is_local(effective(rest[i]))
                    || has_checksums(effective(rest[i])));
            assert(modules[i] == rest[i]);
        } else {
            assert forall|i: int| 0 <= i < rest.len() implies (#[trigger] modules[i]).main
                || is_local(effective(modules[i])) || has_checksums(effective(modules[i])) by {
                assert(modules[i] == rest[i]);
            }
            let last = modules[modules.len() - 1];
            if let Ok(all) = identities_of(modules) {
                assert forall|i: int|
                    0 <= i < modules.len() && !(#[trigger] modules[i]).main && !is_local(
                        effective(modules[i]),
                    ) implies all.contains(identity_of(modules[i])) by {
                    if i < rest.len() {
                        assert(modules[i] == rest[i]);
                    }
                }
            }
        }
    }
}

proof fn lemma_split_at_hash(a: Seq<char>, b: Seq<char>, x: Seq<char>, y: Seq<char>)
    requires
        !a.contains('#'),
        !x.contains('#'),
        a + seq!['#'] + b == x + seq!['#'] + y,
    ensures
        a == x,
        b == y,
{
    let left = a + seq!['#'] + b;
    let right = x + seq!['#'] + y;
    if a.len() < x.len() {
        assert(left[a.len() as int] == '#');
        assert(right[a.len() as int] == x[a.len() as int]);
        assert(x.contains('#'));
    }
    if x.len() < a.len() {
        assert(right[x.len() as int] == '#');
        assert(left[x.len() as int] == a[x.len() as int]);
        assert(a.contains('#'));
    }
    assert(a =~= left.take(a.len() as int));
    assert(x =~= right.take(a.len() as int));
    assert(b =~= left.skip(a.len() + 1int));
    assert(y =~= right.skip(a.len() + 1int));
}

/// Modules from outside with one identity have the same path, and what stands
/// for them the same version and checksums; versions and checksums of modules
/// hold no `#`.
pub proof fn identity_tells_checksums(a: ListedModule, b: ListedModule)
    requires
        identity_of(a) == identity_of(b),
        !effective(a).version.contains('#') && !effective(a).sum.contains('#'),
        !effective(b).version.contains('#') && !effective(b).sum.contains('#'),
    ensures
        a.entry.path == b.entry.path,
        effective(a).version == effective(b).version,
        effective(a).sum == effective(b).sum,
        effective(a).go_mod_sum == effective(b).go_mod_sum,
{
    reveal_strlit("#");
    assert("#"@ =~= seq!['#']);
    let x = effective(a);
    let y = effective(b);
    assert(identity_of(a).human_name == identity_of(b).human_name);
    assert(identity_of(a).version =~= x.version + seq!['#'] + (x.sum + seq!['#'] + x.go_mod_sum));
    assert(identity_of(b).version =~= y.version + seq!['#'] + (y.sum + seq!['#'] + y.go_mod_sum));
    lemma_split_at_hash(
        x.version,
        x.sum + seq!['#'] + x.go_mod_sum,
        y.version,
        y.sum + seq!['#'] + y.go_mod_sum,
    );
    lemma_split_at_hash(x.sum, x.go_mod_sum, y.sum, y.go_mod_sum);
}

/// The module at the root has no prefix: its files are named as they are, and a
/// `use` directive names it by a dot.
pub proof fn root_module_has_no_prefix(root: PathModel, name: Seq<char>)
    ensures
        anchored(root.components, root.components) == Some(Seq::<Seq<char>>::empty()),
        unix(seq![]) == Seq::<char>::empty(),
        inside(unix(seq![]), name) == name,
        use_path(unix(seq![])) == "."@,
{
    let all = root.components;
    assert(all =~= all.subrange(0, all.len() as int));
    assert(all.skip(all.len() as int) =~= seq![]);
}

/// Each of `components` can be a component of a path.
pub open spec fn are_components(components: Seq<Seq<char>>) -> bool {
    forall|i: int|
        0 <= i < components.len() ==> (#[trigger] components[i]).len() > 0
            && !components[i].contains('/')
}

proof fn lemma_last_component(a: Seq<char>, b: Seq<char>, x: Seq<char>, y: Seq<char>)
    requires
        !b.contains('/'),
        !y.contains('/'),
        a + seq!['/'] + b == x + seq!['/'] + y,
    ensures
        a == x,
        b == y,
{
    let left = a + seq!['/'] + b;
    let right = x + seq!['/'] + y;
    assert(left.len() == a.len() + 1 + b.len());
    assert(right.len() == x.len() + 1 + y.len());
    if a.len() < x.len() {
        assert(right[x.len() as int] == '/');
        assert(left[x.len() as int] == b[x.len() - a.len() - 1]);
        assert(b.contains('/'));
    }
    if x.len() < a.len() {
        assert(left[a.len() as int] == '/');
        assert(right[a.len() as int] == y[a.len() - x.len() - 1]);
        assert(y.contains('/'));
    }
    assert(a =~= left.take(a.len() as int));
    assert(x =~= right.take(a.len() as int));
    assert(b =~= left.skip(a.len() + 1int));
    assert(y =~= right.skip(a.len() + 1int));
}

proof fn lemma_written_path(components: Seq<Seq<char>>)
    requires
        are_components(components),
        components.len() > 0,
    ensures
        unix(components).len() > 0,
        unix(components).last() != '/',
        components.len() > 1 ==> unix(components).contains('/'),
{
    let last = components.last();
    assert(components[components.len() - 1].len() > 0);
    let text = unix(components);
    if components.len() > 1 {
        let front = join(components.drop_last(), seq!['/']);
        assert(text == front + seq!['/'] + last);
        assert(text[front.len() as int] == '/');
    }
    assert(text.last() == last.last());
    if last.last() == '/' {
        assert(last.contains('/'));
    }
}

proof fn lemma_unix_tells_components(a: Seq<Seq<char>>, b: Seq<Seq<char>>)
    requires
        are_components(a),
        are_components(b),
        unix(a) == unix(b),
    ensures
        a == b,
    decreases a.len(),
{
    if a.len() > 0 {
        lemma_written_path(a);
    }
    if b.len() > 0 {
        lemma_written_path(b);
    }
    if a.len() == 0 || b.len() == 0 {
        assert(a =~= b);
    } else {
        assert(!a[a.len() - 1].contains('/') && !b[b.len() - 1].contains('/'));
        if a.len() == 1 || b.len() == 1 {
            assert(a =~= b);
        } else {
            let front = join(a.drop_last(), seq!['/']);
            let other = join(b.drop_last(), seq!['/']);
            lemma_last_component(front, a.last(), other, b.last());
            assert(are_components(a.drop_last())) by {
                assert forall|i: int| 0 <= i < a.len() - 1 implies (
                #[trigger] a.drop_last()[i]).len() > 0 && !a.drop_last()[i].contains('/') by {
                    assert(a.drop_last()[i] == a[i]);
                }
            }
            assert(are_components(b.drop_last())) by {
                assert forall|i: int| 0 <= i < b.len() - 1 implies (
                #[trigger] b.drop_last()[i]).len() > 0 && !b.drop_last()[i].contains('/') by {
                    assert(b.drop_last()[i] == b[i]);
                }
            }
            lemma_unix_tells_components(a.drop_last(), b.drop_last());
            assert(a =~= a.drop_last().push(a.last()));
            assert(b =~= b.drop_last().push(b.last()));
        }
    }
}

/// A `use` directive tells directories of the repository apart.
pub proof fn use_paths_tell_directories(a: Seq<Seq<char>>, b: Seq<Seq<char>>)
    requires
        are_components(a),
        are_components(b),
        use_path(unix(a)) == use_path(unix(b)),
    ensures
        a == b,
{
    reveal_strlit(".");
    reveal_strlit("./");
    if a.len() > 0 {
        lemma_written_path(a);
        assert(without_slashes(unix(a)) == unix(a));
        assert(use_path(unix(a)).skip(2) =~= unix(a));
    }
    if b.len() > 0 {
        lemma_written_path(b);
        assert(without_slashes(unix(b)) == unix(b));
        assert(use_path(unix(b)).skip(2) =~= unix(b));
    }
    if a.len() == 0 || b.len() == 0 {
        assert(a =~= b);
    } else {
        lemma_unix_tells_components(a, b);
    }
}

/// Looking up what `planned_lookups` gives, requirement by requirement, completes
/// the report on a module.
pub proof fn planned_lookups_complete_reports(
    planned: Seq<Option<(PathModel, Seq<char>)>>,
    lookups: Seq<Option<LookupModel>>,
    root: PathModel,
    work: WorkModel,
    module: ModuleModel,
)
    requires
        planned.len() == module.manifest.requirements.len(),
        forall|i: int|
            0 <= i < planned.len() ==> is_lookup_for(
                #[trigger] planned[i],
                applied_to(work, module, module.manifest.requirements[i]),
                root,
                module.directory,
            ),
        lookups.len() == planned.len(),
        forall|i: int|
            0 <= i < planned.len() ==> ((#[trigger] lookups[i]) is Some <==> planned[i] is Some),
    ensures
        are_looked_up(lookups, work, module),
{
    assert forall|i: int| 0 <= i < lookups.len() implies is_looked_up(
        applied_to(work, module, module.manifest.requirements[i]),
        #[trigger] lookups[i],
    ) by {
        assert(is_lookup_for(
            planned[i],
            applied_to(work, module, module.manifest.requirements[i]),
            root,
            module.directory,
        ));
    }
}

/// What the workspace says of a requirement comes before what its module says.
pub proof fn workspace_replacement_comes_first(
    work: WorkModel,
    module: ModuleModel,
    requirement: (Seq<char>, Seq<char>),
)
    ensures
        first_replacement(work.replacements, requirement.0, requirement.1) matches Some(
            replacement,
        ) ==> applied_to(work, module, requirement) == Some((true, replacement)),
        first_replacement(work.replacements, requirement.0, requirement.1) is None ==> (
        first_replacement(module.manifest.replacements, requirement.0, requirement.1) matches Some(
            replacement,
        ) ==> applied_to(work, module, requirement) == Some((false, replacement))),
{
}

/// The specifier by which requirement `i` of `module` is met from outside.
pub open spec fn specifier_at(
    root: PathModel,
    work: WorkModel,
    module: ModuleModel,
    lookups: Seq<Option<LookupModel>>,
    modules: Seq<ModuleModel>,
    i: int,
) -> Result<Option<Seq<char>>, Failure> {
    specifier_outcome(
        root,
        applied_to(work, module, module.manifest.requirements[i]),
        module.manifest.requirements[i],
        lookups[i],
        modules,
    )
}

proof fn lemma_externals(
    root: PathModel,
    work: WorkModel,
    module: ModuleModel,
    lookups: Seq<Option<LookupModel>>,
    modules: Seq<ModuleModel>,
    n: nat,
)
    ensures
        externals_outcome(root, work, module, lookups, modules, n) matches Ok(all) ==> {
            &&& forall|i: int|
                0 <= i < n ==> (#[trigger] specifier_at(
                    root,
                    work,
                    module,
                    lookups,
                    modules,
                    i,
                ) matches Ok(outside) && (outside matches Some(specifier) ==> all.contains(
                    external(module.manifest.requirements[i].0, specifier),
                )))
            &&& forall|k: int|
                0 <= k < all.len() ==> exists|i: int|
                    0 <= i < n && (#[trigger] specifier_at(root, work, module, lookups, modules, i)
                        matches Ok(Some(specifier)) && #[trigger] all[k] == external(
                        module.manifest.requirements[i].0,
                        specifier,
                    ))
        },
    decreases n,
{
    if n > 0 {
        let m = (n - 1) as nat;
        lemma_externals(root, work, module, lookups, modules, m);
        if let Ok(all) = externals_outcome(root, work, module, lookups, modules, n) {
            let earlier = externals_outcome(root, work, module, lookups, modules, m)->Ok_0;
            let last = specifier_at(root, work, module, lookups, modules, n - 1);
            assert(last is Ok);
            assert forall|i: int| 0 <= i < n implies (#[trigger] specifier_at(
                root,
                work,
                module,
                lookups,
                modules,
                i,
            ) matches Ok(outside) && (outside matches Some(specifier) ==> all.contains(
                external(module.manifest.requirements[i].0, specifier),
            ))) by {
                if let Ok(Some(specifier)) = specifier_at(root, work, module, lookups, modules, i) {
                    let relationship = external(module.manifest.requirements[i].0, specifier);
                    if i < m {
                        let k = choose|k: int|
                            0 <= k < earlier.len() && earlier[k] == relationship;
                        assert(all[k] == relationship);
                    } else {
                        assert(all.last() == relationship);
                    }
                }
            }
            assert forall|k: int| 0 <= k < all.len() implies exists|i: int|
                0 <= i < n && (#[trigger] specifier_at(root, work, module, lookups, modules, i)
                    matches Ok(Some(specifier)) && #[trigger] all[k] == external(
                    module.manifest.requirements[i].0,
                    specifier,
                )) by {
                if k < earlier.len() {
                    assert(all[k] == earlier[k]);
                } else {
                    assert(specifier_at(root, work, module, lookups, modules, n - 1) == last);
                }
            }
        }
    }
}

/// What a module has from outside follows from its requirements, from the
/// `go.work` and from its `go.mod`: a requirement that nothing replaces comes from
/// outside unless a module of the workspace has its name, one that is replaced by
/// another module comes from outside at the version of that, and one that is
/// replaced by a directory is met by a module of the workspace.
pub proof fn requirements_decide_externals(
    root: PathModel,
    work: WorkModel,
    modules: Seq<ModuleModel>,
    module: ModuleModel,
    compiler: Seq<char>,
    report: ReportModel,
    facts: FactsModel,
    i: int,
)
    requires
        is_complete(report, work, module),
        facts_outcome(root, work, modules, module, compiler, report) == Ok::<FactsModel, Failure>(
            facts,
        ),
        0 <= i < module.manifest.requirements.len(),
    ensures
        ({
            let requirement = module.manifest.requirements[i];
            match applied_to(work, module, requirement) {
                None => is_named(modules, requirement.0) || facts.package.relationships.contains(
                    external(requirement.0, requirement.1),
                ),
                Some((_, replacement)) => {
                    &&& !may_be_local(replacement.new)
                        ==> facts.package.relationships.contains(
                        external(
                            requirement.0,
                            match replacement.version {
                                Some(replaced) => replaced,
                                None => requirement.1,
                            },
                        ),
                    )
                    &&& explicitly_relative(replacement.new) ==> local_module_outcome(
                        root,
                        replacement.new,
                        report.lookups[i]->0,
                        modules,
                    ) is Ok
                },
            }
        }),
{
    let n = module.manifest.requirements.len();
    let requirement = module.manifest.requirements[i];
    lemma_externals(root, work, module, report.lookups, modules, n);
    let all = externals_outcome(root, work, module, report.lookups, modules, n)->Ok_0;
    let imports = sorted::<String>(imports_of(modules, module, report)).map_values(
        |name: Seq<char>| internal(name),
    );
    assert(facts.package.relationships == imports + all);
    assert(is_looked_up(applied_to(work, module, requirement), report.lookups[i]));
    assert forall|relationship: RelationshipModel| all.contains(relationship) implies #[trigger]
        facts.package.relationships.contains(relationship) by {
        let k = choose|k: int| 0 <= k < all.len() && all[k] == relationship;
        assert(facts.package.relationships[imports.len() + k] == relationship);
    }
    let met = specifier_at(root, work, module, report.lookups, modules, i);
    assert(met is Ok);
}

/// A module depends on nothing but the modules of the workspace that it imports
/// from, and on those of its requirements that are met from outside.
pub proof fn relationships_are_imports_or_requirements(
    root: PathModel,
    work: WorkModel,
    modules: Seq<ModuleModel>,
    module: ModuleModel,
    compiler: Seq<char>,
    report: ReportModel,
    facts: FactsModel,
    relationship: RelationshipModel,
)
    requires
        facts_outcome(root, work, modules, module, compiler, report) == Ok::<FactsModel, Failure>(
            facts,
        ),
        facts.package.relationships.contains(relationship),
    ensures
        (exists|name: Seq<char>| #[trigger]
            imports_of(modules, module, report).contains(name) && relationship == internal(name))
            || (exists|i: int|
            0 <= i < module.manifest.requirements.len() && (#[trigger] specifier_at(
                root,
                work,
                module,
                report.lookups,
                modules,
                i,
            ) matches Ok(Some(specifier)) && relationship == external(
                module.manifest.requirements[i].0,
                specifier,
            ))),
{
    let n = module.manifest.requirements.len();
    lemma_externals(root, work, module, report.lookups, modules, n);
    let all = externals_outcome(root, work, module, report.lookups, modules, n)->Ok_0;
    let imports = imports_of(modules, module, report);
    let names = sorted::<String>(imports);
    let internals = names.map_values(|name: Seq<char>| internal(name));
    imports_are_other_modules(modules, module, report);
    lemma_sorted_lists::<String>(imports);
    let k = choose|k: int|
        0 <= k < facts.package.relationships.len() && facts.package.relationships[k]
            == relationship;
    if k < internals.len() {
        assert(names.to_set().contains(names[k]));
        assert(relationship == internal(names[k]));
    } else {
        assert(all[k - internals.len()] == relationship);
    }
}

/// What discovery gives of a workspace: one package per module, in order, under its
/// name and with its manifest; and one resolution, which is complete, has the
/// modules as its members, and names the compiler among what each is built of.
pub proof fn discovery_resolves_every_module(
    root: PathModel,
    work: WorkModel,
    modules: Seq<ModuleModel>,
    compiler: Seq<char>,
    reports: Seq<ReportModel>,
    facts: Seq<FactsModel>,
    sums: Seq<Option<SumFileModel>>,
    has_work: bool,
    work_sum: Option<Seq<char>>,
)
    requires
        facts_follow(root, work, modules, compiler, reports, facts),
    ensures
        discovered_outcome(
            discovery_of(facts, sums),
            root,
            modules,
            work,
            has_work,
            work_sum,
        ) matches Ok(found) ==> {
            &&& found.packages.len() == modules.len()
            &&& forall|i: int|
                0 <= i < modules.len() ==> (#[trigger] found.packages[i]).name == modules[i].name
                    && found.packages[i].manifest_path == modules[i].manifest_path
            &&& found.root.name == "go"@ && found.root.path == root
            &&& found.resolution.domain == ResolutionDomainId::Go
            &&& found.resolution.toolchain == ToolchainId::Go
            &&& found.resolution.completeness == ResolutionCompleteness::Complete
            &&& found.resolution.members == modules.map_values(|module: ModuleModel| module.name)
            &&& found.resolution.packages.len() == modules.len()
            &&& forall|i: int|
                0 <= i < modules.len() ==> (#[trigger] found.resolution.packages[i]).name
                    == modules[i].name && found.resolution.packages[i].identities.contains(
                    compiler_identity(compiler),
                )
            &&& ascending::<AnchoredPath>(found.resolution.definition_sources)
        },
{
    lemma_known(root, work, modules, compiler, reports, facts, sums, facts.len() as int);
    lemma_compiler_known(root, work, modules, compiler, reports, facts, sums, facts.len() as int);
    assert(facts.take(facts.len() as int) =~= facts);
    let known = discovery_of(facts, sums);
    let at_root = root_sources(has_work, work_sum is Some);
    let bound = set![seq![GO_WORK@], seq![GO_WORK_SUM@]];
    vstd::set_lib::lemma_set_subset_finite(bound, at_root);
    lemma_sources_finite(root, at_root, modules, known.sum_paths);
    if let Ok(all) = sources_outcome(root, at_root, modules, known.sum_paths) {
        lemma_sorted_lists::<AnchoredPath>(all);
    }
}

proof fn lemma_compiler_known(
    root: PathModel,
    work: WorkModel,
    modules: Seq<ModuleModel>,
    compiler: Seq<char>,
    reports: Seq<ReportModel>,
    facts: Seq<FactsModel>,
    sums: Seq<Option<SumFileModel>>,
    n: int,
)
    requires
        facts_follow(root, work, modules, compiler, reports, facts),
        0 <= n <= facts.len(),
    ensures
        discovery_of(facts.take(n), sums).resolutions.len() == n,
        forall|i: int|
            0 <= i < n ==> (#[trigger] discovery_of(
                facts.take(n),
                sums,
            ).resolutions[i]).identities.contains(compiler_identity(compiler)),
    decreases n,
{
    if n > 0 {
        lemma_compiler_known(root, work, modules, compiler, reports, facts, sums, n - 1);
        assert(facts.take(n).drop_last() =~= facts.take(n - 1));
        assert(facts.take(n).last() == facts[n - 1]);
        let before = discovery_of(facts.take(n - 1), sums);
        let after = discovery_of(facts.take(n), sums);
        assert(facts_outcome(root, work, modules, modules[n - 1], compiler, reports[n - 1])
            == Ok::<FactsModel, Failure>(facts[n - 1]));
        assert forall|i: int| 0 <= i < n implies (
        #[trigger] after.resolutions[i]).identities.contains(compiler_identity(compiler)) by {
            if i < n - 1 {
                assert(after.resolutions[i] == before.resolutions[i]);
            }
        }
    }
}

} // verus!
