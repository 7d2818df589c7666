//! Laws of models: a model shows every part of the value that it stands for.
use crate::discovery::{
    DiscoveredPackage, DiscoveredPackages, Discovery, ExternalResolution, ModuleFacts, ModuleReport,
    PackageResolution, Relationship, RelationshipTarget, SumFile, TargetModel, WorkspaceRoot,
};
use crate::error::{outcome, Error, Failure, PathError, PathFailure};
use crate::listing::{ExternalPackageIdentity, GoListModule, GoListPackage};
use crate::path::{AbsolutePath, AnchoredPath};
use crate::prune::{GoPruneKnowledge, ModuleSumKnowledge, PrunePlan};
use crate::syntax::{read_text, ModuleManifest, Replacement, WorkFile};
use crate::tasks::{DerivedTaskIO, NativeTask, ScopeTaskContract, TaskDependency};
use crate::workspace::{
    ChangeObservation, Lookup, LookupModel, ManifestFile, ManifestFileModel, ModuleInfo,
    WorkspaceMember,
};
use vstd::prelude::*;

verus! {

/// A path shows how it is written and its components.
pub proof fn paths_show_their_components(path: AbsolutePath, relative: AnchoredPath)
    ensures
        path.deep_view().text == path.text@,
        path.deep_view().components == path.components.deep_view(),
        relative.deep_view() == relative.components.deep_view(),
{
}

/// What was read of manifests shows each of its parts.
pub proof fn manifests_show_what_they_say(
    replacement: Replacement,
    work: WorkFile,
    manifest: ModuleManifest,
)
    ensures
        replacement.deep_view().old == replacement.old@,
        replacement.deep_view().old_version == replacement.old_version.deep_view(),
        replacement.deep_view().new == replacement.new@,
        replacement.deep_view().version == replacement.version.deep_view(),
        work.deep_view().go_version == work.go_version.deep_view(),
        work.deep_view().toolchain == work.toolchain.deep_view(),
        work.deep_view().uses == work.uses.deep_view(),
        work.deep_view().replacements == work.replacements.deep_view(),
        manifest.deep_view().name == manifest.name@,
        manifest.deep_view().requirements == manifest.requirements.deep_view(),
        manifest.deep_view().replacements == manifest.replacements.deep_view(),
{
}

/// A listed package, and the identity of one, show each of their parts.
pub proof fn packages_show_what_is_listed(
    package: GoListPackage,
    identity: ExternalPackageIdentity,
)
    ensures
        package.deep_view().name == package.name@,
        package.deep_view().import_path == package.import_path@,
        package.deep_view().imports == package.imports.deep_view(),
        package.deep_view().module == package.module.deep_view(),
        identity.deep_view().key == identity.key@,
        identity.deep_view().version == identity.version@,
        identity.deep_view().human_name == identity.human_name.deep_view(),
{
}

/// A module and a member of the workspace show each of their parts, and so does what is
/// observed of them.
pub proof fn modules_show_where_they_stand(
    module: ModuleInfo,
    member: WorkspaceMember,
    observation: ChangeObservation,
)
    ensures
        module.deep_view().name == module.name@,
        module.deep_view().directory == module.directory.deep_view(),
        module.deep_view().manifest_path == module.manifest_path.deep_view(),
        module.deep_view().manifest == module.manifest.deep_view(),
        member.deep_view().use_path == member.use_path@,
        member.deep_view().directory == member.directory.deep_view(),
        member.deep_view().manifest == member.manifest.deep_view(),
        observation.deep_view().rediscovery_file_names == observation.rediscovery_file_names.deep_view(),
        observation.deep_view().resolution_paths == observation.resolution_paths.deep_view(),
        observation.deep_view().ignore_prefixes == observation.ignore_prefixes.deep_view(),
{
}

/// A report shows each of its parts, and so do the facts that follow from it.
pub proof fn reports_show_what_was_found(
    relationship: Relationship,
    report: ModuleReport,
    package: DiscoveredPackage,
    facts: ModuleFacts,
)
    ensures
        relationship.deep_view().name == relationship.name@,
        relationship.deep_view().kind == relationship.kind,
        relationship.deep_view().target == relationship.target.deep_view(),
        report.deep_view().local == report.local.deep_view(),
        report.deep_view().listed == report.listed.deep_view(),
        report.deep_view().directories == report.directories.deep_view(),
        report.deep_view().targets == report.targets.deep_view(),
        report.deep_view().lookups == report.lookups.deep_view(),
        package.deep_view().name == package.name@,
        package.deep_view().manifest_path == package.manifest_path.deep_view(),
        package.deep_view().relationships == package.relationships.deep_view(),
        package.deep_view().tasks == package.tasks.deep_view(),
        package.deep_view().task_contract == package.task_contract.deep_view(),
        facts.deep_view().package == facts.package.deep_view(),
        facts.deep_view().identities == facts.identities.deep_view(),
        facts.deep_view().dependencies == facts.dependencies.deep_view(),
        facts.deep_view().requirements == facts.requirements.deep_view(),
        facts.deep_view().directory == facts.directory@,
        facts.deep_view().sum_keys == facts.sum_keys.deep_view(),
{
}

/// What is known of modules, and of a whole workspace, shows each of its parts.
pub proof fn discoveries_show_what_is_known(
    resolution: PackageResolution,
    file: SumFile,
    known: Discovery,
    external: ExternalResolution,
    root: WorkspaceRoot,
    found: DiscoveredPackages,
)
    ensures
        resolution.deep_view().name == resolution.name@,
        resolution.deep_view().identities == resolution.identities.deep_view(),
        file.deep_view().path == file.path@,
        file.deep_view().contents == file.contents@,
        known.deep_view().packages == known.packages.deep_view(),
        known.deep_view().resolutions == known.resolutions.deep_view(),
        known.deep_view().dependencies == known.dependencies.deep_view(),
        known.deep_view().directories == known.directories.deep_view(),
        known.deep_view().requirements == known.requirements.deep_view(),
        known.deep_view().module_sums == known.module_sums.deep_view(),
        known.deep_view().sum_paths == known.sum_paths.deep_view(),
        external.deep_view().domain == external.domain,
        external.deep_view().toolchain == external.toolchain,
        external.deep_view().root == external.root.deep_view(),
        external.deep_view().members == external.members.deep_view(),
        external.deep_view().definition_sources == external.definition_sources.deep_view(),
        external.deep_view().completeness == external.completeness,
        external.deep_view().packages == external.packages.deep_view(),
        root.deep_view().name == root.name@,
        root.deep_view().path == root.path.deep_view(),
        found.deep_view().packages == found.packages.deep_view(),
        found.deep_view().root == found.root.deep_view(),
        found.deep_view().resolution == found.resolution.deep_view(),
        found.deep_view().observation == found.observation.deep_view(),
        found.deep_view().prune == found.prune.deep_view(),
{
}

/// What pruning needs to know, and what it plans, show each of their parts.
pub proof fn plans_show_what_is_needed(
    sum: ModuleSumKnowledge,
    knowledge: GoPruneKnowledge,
    plan: PrunePlan,
)
    ensures
        sum.deep_view().path == sum.path@,
        sum.deep_view().contents == sum.contents@,
        sum.deep_view().keys == sum.keys.deep_view(),
        knowledge.deep_view().directories == knowledge.directories.deep_view(),
        knowledge.deep_view().dependencies == knowledge.dependencies.deep_view(),
        knowledge.deep_view().go_version == knowledge.go_version.deep_view(),
        knowledge.deep_view().toolchain == knowledge.toolchain.deep_view(),
        knowledge.deep_view().replacements == knowledge.replacements.deep_view(),
        knowledge.deep_view().requirements == knowledge.requirements.deep_view(),
        knowledge.deep_view().module_sums == knowledge.module_sums.deep_view(),
        knowledge.deep_view().work_sum == knowledge.work_sum.deep_view(),
        knowledge.deep_view().workspace == knowledge.workspace,
        plan.deep_view().extra_packages == plan.extra_packages.deep_view(),
        plan.deep_view().root_files == plan.root_files.deep_view(),
        plan.deep_view().copy_paths == plan.copy_paths.deep_view(),
{
}

/// A task, and what it reads and promises, show each of their parts.
pub proof fn tasks_show_what_they_are(
    task: NativeTask,
    dependency: TaskDependency,
    io: DerivedTaskIO,
    contract: ScopeTaskContract,
)
    ensures
        task.deep_view().name == task.name@,
        task.deep_view().command == task.command@,
        task.deep_view().subcommand == task.subcommand@,
        task.deep_view().args == task.args.deep_view(),
        dependency.deep_view().directory == dependency.directory.deep_view(),
        dependency.deep_view().source_inputs == dependency.source_inputs,
        io.deep_view().env == io.env.deep_view(),
        io.deep_view().package_default_inputs == io.package_default_inputs,
        io.deep_view().input_globs == io.input_globs.deep_view(),
        contract.deep_view().contract == contract.contract,
        contract.deep_view().defaults == contract.defaults.deep_view(),
        contract.deep_view().entrypoints == contract.entrypoints.deep_view(),
{
}

/// A listed module shows each of its parts, and what replaces it the same way.
pub proof fn listed_modules_show_their_parts(module: GoListModule)
    ensures
        module.deep_view().entry.path == module.path@,
        module.deep_view().entry.version == module.version@,
        module.deep_view().entry.sum == module.sum@,
        module.deep_view().entry.go_mod_sum == module.go_mod_sum@,
        module.deep_view().entry.dir == module.dir@,
        module.deep_view().main == module.main,
        module.replace is None ==> module.deep_view().replace is None,
        module.replace matches Some(replacement) ==> module.deep_view().replace == Some(
            Box::new((*replacement).deep_view()),
        ),
{
}

/// What a package depends on, what a lookup gave and what stands for a manifest show
/// which of the cases they are, with each part of it.
pub proof fn cases_show_their_parts(
    target: RelationshipTarget,
    lookup: Lookup,
    file: ManifestFile,
    error: PathError,
)
    ensures
        target matches RelationshipTarget::Internal(name) ==> target.deep_view()
            == TargetModel::Internal(name@),
        target matches RelationshipTarget::UnresolvedExternal { name, specifier }
            ==> target.deep_view() == (TargetModel::UnresolvedExternal {
            name: name@,
            specifier: specifier@,
        }),
        lookup matches Lookup::Found(path) ==> lookup.deep_view() == LookupModel::Found(
            path.deep_view(),
        ),
        lookup matches Lookup::Unreadable { path, source } ==> lookup.deep_view() == (
        LookupModel::Unreadable { path: path@, source }),
        lookup matches Lookup::Invalid(error) ==> lookup.deep_view() == LookupModel::Invalid(
            error.deep_view(),
        ),
        file is Missing ==> file.deep_view() == ManifestFileModel::Missing,
        file matches ManifestFile::Unreadable { path, source } ==> file.deep_view() == (
        ManifestFileModel::Unreadable { path: path@, source }),
        file matches ManifestFile::Text { path, contents } ==> file.deep_view() == (
        ManifestFileModel::Text { path: path@, contents: contents@ }),
        error matches PathError::InvalidUnicode(path) ==> error.deep_view()
            == PathFailure::InvalidUnicode(path@),
        error matches PathError::NotParent { root, path } ==> error.deep_view() == (
        PathFailure::NotParent { root: root@, path: path@ }),
{
}

/// A result shows its value, or its error with each part of it.
pub proof fn results_show_values_or_errors(value: String, message: String, error: Error)
    ensures
        read_text(Ok::<String, String>(value)) == Ok::<Seq<char>, Seq<char>>(value@),
        read_text(Err::<String, String>(message)) == Err::<Seq<char>, Seq<char>>(message@),
        outcome(Ok::<String, Error>(value)) == Ok::<Seq<char>, Failure>(value@),
        outcome(Err::<String, Error>(error)) == Err::<Seq<char>, Failure>(error.deep_view()),
        error matches Error::Read { path, source } ==> error.deep_view() == (Failure::Read {
            path: path@,
            source,
        }),
        error matches Error::Parse { path, message } ==> error.deep_view() == (Failure::Parse {
            path: path@,
            message: message@,
        }),
        error matches Error::MissingModule(path) ==> error.deep_view() == Failure::MissingModule(
            path@,
        ),
        error matches Error::MissingManifest { path } ==> error.deep_view() == (
        Failure::MissingManifest { path: path@ }),
        error matches Error::OutsideRepository { path, root } ==> error.deep_view() == (
        Failure::OutsideRepository { path: path@, root: root@ }),
        error matches Error::DuplicateModule { name } ==> error.deep_view() == (
        Failure::DuplicateModule { name: name@ }),
        error matches Error::UnknownLocalReplacement { path } ==> error.deep_view() == (
        Failure::UnknownLocalReplacement { path: path@ }),
        error matches Error::MissingChecksum { path, version } ==> error.deep_view() == (
        Failure::MissingChecksum { path: path@, version: version@ }),
        error matches Error::Spawn { command, cwd, source } ==> error.deep_view() == (
        Failure::Spawn { command: command@, cwd: cwd@, source }),
        error matches Error::Command { command, cwd, stderr } ==> error.deep_view() == (
        Failure::Command { command: command@, cwd: cwd@, stderr: stderr@ }),
        error matches Error::Json { command, cwd, source } ==> error.deep_view() == (
        Failure::Json { command: command@, cwd: cwd@, source: source@ }),
        error matches Error::Path(inner) ==> error.deep_view() == Failure::Path(
            inner.deep_view(),
        ),
{
}

} // verus!
