//! Laws of the members of a workspace: which modules they are, and what replaces
//! what they require.
use crate::error::{Failure, PathFailure};
use crate::path::{anchored, unix, PathModel};
use crate::syntax::{mod_outcome, ManifestModel, ReplacementModel, WorkModel};
use crate::workspace::{
    applied_replacement, applied_to, directory_outcome, explicitly_relative, first_replacement,
    inside, is_looked_up, is_lookup_for, local_module_outcome, lookup_fits, lookup_of,
    may_be_absolute, may_be_local, member_outcome, module_at, modules_outcome, observation_of,
    replaces, single_module, specifier_outcome, target_outcome, LookupModel, ManifestFileModel,
    MemberModel, ModuleModel, ObservationModel,
};
use vstd::prelude::*;

verus! {

/// A path that was found is taken as it was found, where it lies in the repository;
/// what went wrong in looking for it is what is wrong.
pub proof fn found_paths_are_taken(
    root: PathModel,
    raw: Seq<char>,
    path: PathModel,
    text: Seq<char>,
    source: std::io::Error,
    failure: PathFailure,
)
    ensures
        root.components.is_prefix_of(path.components) ==> directory_outcome(
            root,
            raw,
            LookupModel::Found(path),
        ) == Ok::<PathModel, Failure>(path),
        !root.components.is_prefix_of(path.components) ==> directory_outcome(
            root,
            raw,
            LookupModel::Found(path),
        ) == Err::<PathModel, Failure>(Failure::OutsideRepository { path: raw, root: root.text }),
        directory_outcome(root, raw, LookupModel::Unreadable { path: text, source }) == Err::<
            PathModel,
            Failure,
        >(Failure::Read { path: text, source }),
        directory_outcome(root, raw, LookupModel::Invalid(failure)) == Err::<PathModel, Failure>(
            Failure::Path(failure),
        ),
{
}

/// A repository without a `go.work` is a workspace of one module, which stands at the
/// root, and which nothing is said of.
pub proof fn lone_module_stands_at_root()
    ensures
        single_module().uses.len() == 1,
        single_module().uses[0] == seq!['.'],
        single_module().go_version is None,
        single_module().toolchain is None,
        single_module().replacements.len() == 0,
{
    reveal_strlit(".");
    assert("."@ =~= seq!['.']);
}

/// A member whose manifest can be read and whose name is free is the module that the
/// manifest describes, in the directory that was found, with the `go.mod` there as its
/// manifest.
pub proof fn member_is_what_its_manifest_says(
    root: PathModel,
    earlier: Seq<ModuleModel>,
    member: MemberModel,
    directory: PathModel,
    path: Seq<char>,
    contents: Seq<char>,
    manifest: ManifestModel,
)
    requires
        member.directory == LookupModel::Found(directory),
        root.components.is_prefix_of(directory.components),
        member.manifest == (ManifestFileModel::Text { path, contents }),
        mod_outcome(path, contents) == Ok::<ManifestModel, Failure>(manifest),
    ensures
        (forall|i: int| 0 <= i < earlier.len() ==> (#[trigger] earlier[i]).name != manifest.name)
            ==> member_outcome(root, earlier, member) == Ok::<ModuleModel, Failure>(
            ModuleModel {
                name: manifest.name,
                directory,
                manifest_path: PathModel {
                    text: path,
                    components: directory.components.push("go.mod"@),
                },
                manifest,
            },
        ),
        (exists|i: int| 0 <= i < earlier.len() && (#[trigger] earlier[i]).name == manifest.name)
            ==> member_outcome(root, earlier, member) == Err::<ModuleModel, Failure>(
            Failure::DuplicateModule { name: manifest.name },
        ),
{
}

/// A member is wrong where its directory is, and else where its manifest is missing,
/// cannot be read or is wrong itself.
pub proof fn member_is_wrong_with_its_files(
    root: PathModel,
    earlier: Seq<ModuleModel>,
    member: MemberModel,
)
    ensures
        directory_outcome(root, member.use_path, member.directory) matches Err(failure)
            ==> member_outcome(root, earlier, member) == Err::<ModuleModel, Failure>(failure),
        directory_outcome(root, member.use_path, member.directory) is Ok ==> {
            &&& member.manifest is Missing ==> member_outcome(root, earlier, member) == Err::<
                ModuleModel,
                Failure,
            >(Failure::MissingManifest { path: member.use_path })
            &&& member.manifest matches ManifestFileModel::Unreadable { path, source }
                ==> member_outcome(root, earlier, member) == Err::<ModuleModel, Failure>(
                Failure::Read { path, source },
            )
            &&& member.manifest matches ManifestFileModel::Text { path, contents } ==> (mod_outcome(
                path,
                contents,
            ) matches Err(failure) ==> member_outcome(root, earlier, member) == Err::<
                ModuleModel,
                Failure,
            >(failure))
        },
{
}

/// Members become modules one after the other: a first thing wrong stays what is
/// wrong, and each member is added behind those before it.
pub proof fn members_become_modules(
    root: PathModel,
    members: Seq<MemberModel>,
    member: MemberModel,
)
    ensures
        modules_outcome(root, seq![]) == Ok::<Seq<ModuleModel>, Failure>(seq![]),
        modules_outcome(root, members) matches Err(failure) ==> modules_outcome(
            root,
            members.push(member),
        ) == Err::<Seq<ModuleModel>, Failure>(failure),
        modules_outcome(root, members) matches Ok(earlier) ==> {
            &&& member_outcome(root, earlier, member) matches Err(failure) ==> modules_outcome(
                root,
                members.push(member),
            ) == Err::<Seq<ModuleModel>, Failure>(failure)
            &&& member_outcome(root, earlier, member) matches Ok(module) ==> modules_outcome(
                root,
                members.push(member),
            ) == Ok::<Seq<ModuleModel>, Failure>(earlier.push(module))
        },
{
    assert(members.push(member).drop_last() =~= members);
}

/// Where the modules of a workspace are known, each is that of its member: its
/// directory is what was found, and its manifest says what the text of the `go.mod`
/// says, requirements and replacements and all.
pub proof fn modules_keep_their_manifests(root: PathModel, members: Seq<MemberModel>, i: int)
    requires
        0 <= i < members.len(),
    ensures
        modules_outcome(root, members) matches Ok(modules) ==> {
            &&& modules.len() == members.len()
            &&& members[i].directory == LookupModel::Found(modules[i].directory)
            &&& root.components.is_prefix_of(modules[i].directory.components)
            &&& members[i].manifest matches ManifestFileModel::Text { path, contents }
                && mod_outcome(path, contents) == Ok::<ManifestModel, Failure>(
                modules[i].manifest,
            ) && modules[i].name == modules[i].manifest.name && modules[i].manifest_path == (
            PathModel {
                text: path,
                components: modules[i].directory.components.push("go.mod"@),
            })
        },
    decreases members.len(),
{
    let rest = members.drop_last();
    if let Ok(modules) = modules_outcome(root, members) {
        lemma_as_many(root, members);
        lemma_as_many(root, rest);
        let earlier = modules_outcome(root, rest)->Ok_0;
        if i < rest.len() {
            modules_keep_their_manifests(root, rest, i);
            assert(modules[i] == earlier[i]);
            assert(members[i] == rest[i]);
        }
    }
}

proof fn lemma_as_many(root: PathModel, members: Seq<MemberModel>)
    ensures
        modules_outcome(root, members) matches Ok(modules) ==> modules.len() == members.len(),
    decreases members.len(),
{
    if members.len() > 0 {
        lemma_as_many(root, members.drop_last());
    }
}

/// A directory is that of the last module that stands there, and of none where none
/// does.
pub proof fn last_module_has_directory(
    modules: Seq<ModuleModel>,
    components: Seq<Seq<char>>,
    i: int,
)
    ensures
        0 <= i < modules.len() && modules[i].directory.components == components && (forall|j: int|
            i < j < modules.len() ==> (#[trigger] modules[j]).directory.components != components)
            ==> module_at(modules, components) == Some(modules[i].name),
        (forall|j: int|
            0 <= j < modules.len() ==> (#[trigger] modules[j]).directory.components != components)
            ==> module_at(modules, components) is None,
    decreases modules.len(),
{
    if modules.len() > 0 {
        let rest = modules.drop_last();
        last_module_has_directory(rest, components, i);
        assert forall|j: int| 0 <= j < rest.len() implies #[trigger] rest[j] == modules[j] by {}
        assert(modules.last() == modules[modules.len() - 1]);
    }
}

/// A directory that leads to a module of the workspace names it; one that leads
/// elsewhere, or nowhere, is wrong.
pub proof fn directories_name_modules(
    root: PathModel,
    raw: Seq<char>,
    lookup: LookupModel,
    modules: Seq<ModuleModel>,
)
    ensures
        directory_outcome(root, raw, lookup) matches Err(failure) ==> local_module_outcome(
            root,
            raw,
            lookup,
            modules,
        ) == Err::<Seq<char>, Failure>(failure),
        directory_outcome(root, raw, lookup) matches Ok(directory) ==> {
            &&& module_at(modules, directory.components) matches Some(name)
                ==> local_module_outcome(root, raw, lookup, modules) == Ok::<Seq<char>, Failure>(
                name,
            )
            &&& module_at(modules, directory.components) is None ==> local_module_outcome(
                root,
                raw,
                lookup,
                modules,
            ) == Err::<Seq<char>, Failure>(Failure::UnknownLocalReplacement { path: raw })
        },
{
}

/// What was looked up of a replacement names the module that stands in, and where
/// nothing was looked up none does.
pub proof fn looked_up_replacements_name_modules(
    root: PathModel,
    replacement: ReplacementModel,
    lookup: LookupModel,
    modules: Seq<ModuleModel>,
)
    ensures
        target_outcome(root, replacement, None, modules) == Ok::<Option<Seq<char>>, Failure>(None),
        local_module_outcome(root, replacement.new, lookup, modules) matches Ok(name)
            ==> target_outcome(root, replacement, Some(lookup), modules) == Ok::<
            Option<Seq<char>>,
            Failure,
        >(Some(name)),
        local_module_outcome(root, replacement.new, lookup, modules) matches Err(failure)
            ==> target_outcome(root, replacement, Some(lookup), modules) == Err::<
            Option<Seq<char>>,
            Failure,
        >(failure),
{
}

/// The first replacement that names the module, and its version or none, is the one
/// that counts.
pub proof fn first_replacement_counts(
    replacements: Seq<ReplacementModel>,
    required: Seq<char>,
    version: Seq<char>,
    i: int,
)
    ensures
        0 <= i < replacements.len() && replacements[i].old == required && (
        replacements[i].old_version is None || replacements[i].old_version == Some(version)) && (
        forall|j: int|
            0 <= j < i ==> (#[trigger] replacements[j]).old != required || (
            replacements[j].old_version is Some && replacements[j].old_version != Some(version)))
            ==> first_replacement(replacements, required, version) == Some(replacements[i]),
        (forall|j: int|
            0 <= j < replacements.len() ==> (#[trigger] replacements[j]).old != required || (
            replacements[j].old_version is Some && replacements[j].old_version != Some(version)))
            ==> first_replacement(replacements, required, version) is None,
    decreases replacements.len(),
{
    if replacements.len() > 0 {
        let rest = replacements.skip(1);
        first_replacement_counts(rest, required, version, i - 1);
        assert forall|j: int| 0 <= j < rest.len() implies #[trigger] rest[j] == replacements[j
            + 1] by {}
        let first = replacements[0];
        if first.old == required && (first.old_version is None || first.old_version == Some(
            version,
        )) {
            assert(replaces(first, required, version));
        }
    }
}

/// The workspace is asked for a replacement first and the module next; one that
/// neither names is not replaced.
pub proof fn workspace_is_asked_first(
    work: WorkModel,
    module: ModuleModel,
    requirement: (Seq<char>, Seq<char>),
)
    ensures
        applied_to(work, module, requirement) == (match first_replacement(
            work.replacements,
            requirement.0,
            requirement.1,
        ) {
            Some(replacement) => Some((true, replacement)),
            None => match first_replacement(
                module.manifest.replacements,
                requirement.0,
                requirement.1,
            ) {
                Some(replacement) => Some((false, replacement)),
                None => None,
            },
        }),
        applied_replacement(
            work.replacements,
            module.manifest.replacements,
            requirement.0,
            requirement.1,
        ) == applied_to(work, module, requirement),
{
}

/// A local path starts from the root where the workspace names it, and from the
/// directory of the module where the module does; what is no local path is not
/// looked up.
pub proof fn local_paths_start_where_they_are_named(
    replacement: ReplacementModel,
    root: PathModel,
    directory: PathModel,
    local: bool,
)
    ensures
        lookup_of(Some((true, replacement)), true, root, directory) == Some(
            (root, replacement.new),
        ),
        lookup_of(Some((false, replacement)), true, root, directory) == Some(
            (directory, replacement.new),
        ),
        lookup_of(Some((true, replacement)), false, root, directory) is None,
        lookup_of(Some((false, replacement)), false, root, directory) is None,
        lookup_of(None, local, root, directory) is None,
{
}

/// What is planned to be looked up is the path that replaces, from where it is named;
/// nothing is where nothing replaces, and always something where the path is
/// explicitly relative.
pub proof fn planned_lookups_follow_replacements(
    lookup: Option<(PathModel, Seq<char>)>,
    in_workspace: bool,
    replacement: ReplacementModel,
    root: PathModel,
    directory: PathModel,
)
    ensures
        is_lookup_for(lookup, None, root, directory) <==> lookup is None,
        is_lookup_for(lookup, Some((true, replacement)), root, directory) && lookup is Some
            ==> lookup == Some((root, replacement.new)),
        is_lookup_for(lookup, Some((false, replacement)), root, directory) && lookup is Some
            ==> lookup == Some((directory, replacement.new)),
        is_lookup_for(lookup, Some((in_workspace, replacement)), root, directory)
            && explicitly_relative(replacement.new) ==> lookup is Some,
        is_lookup_for(lookup, Some((in_workspace, replacement)), root, directory)
            && !explicitly_relative(replacement.new) && !may_be_absolute(replacement.new)
            ==> lookup is None,
{
}

/// A path is explicitly relative where it is one or two dots, alone or with a slash
/// behind them.
pub proof fn dots_begin_relative_paths(value: Seq<char>, rest: Seq<char>)
    ensures
        explicitly_relative(seq!['.']),
        explicitly_relative(seq!['.', '.']),
        explicitly_relative(seq!['.', '/'] + rest),
        explicitly_relative(seq!['.', '.', '/'] + rest),
        explicitly_relative(value) ==> value.len() > 0 && value[0] == '.' && (value.len() == 1
            || value[1] == '/' || (value[1] == '.' && (value.len() == 2 || value[2] == '/'))),
{
    reveal_strlit(".");
    reveal_strlit("..");
    reveal_strlit("./");
    reveal_strlit("../");
    assert("."@ =~= seq!['.']);
    assert(".."@ =~= seq!['.', '.']);
    let one = seq!['.', '/'] + rest;
    let two = seq!['.', '.', '/'] + rest;
    assert("./"@ =~= one.subrange(0, 2));
    assert("../"@ =~= two.subrange(0, 3));
    if "./"@.is_prefix_of(value) {
        assert(value.subrange(0, 2)[0] == value[0] && value.subrange(0, 2)[1] == value[1]);
    }
    if "../"@.is_prefix_of(value) {
        let front = value.subrange(0, 3);
        assert(front[0] == value[0] && front[1] == value[1] && front[2] == value[2]);
    }
}

/// What begins with a letter and holds no colon is no local path: a module is asked
/// for by such a name, and nothing is looked up of it.
pub proof fn names_are_no_local_paths(replacement: ReplacementModel, looked_up: bool)
    requires
        replacement.new.len() > 0,
        replacement.new[0] != '.' && replacement.new[0] != '/' && replacement.new[0] != '\\',
        forall|i: int| 0 <= i < replacement.new.len() ==> #[trigger] replacement.new[i] != ':',
    ensures
        !may_be_absolute(replacement.new),
        !may_be_local(replacement.new),
        lookup_fits(replacement, looked_up) <==> !looked_up,
{
    dots_begin_relative_paths(replacement.new, seq![]);
}

/// A path that begins with dots is always looked up, and what nothing replaces
/// never.
pub proof fn relative_paths_are_looked_up(
    in_workspace: bool,
    replacement: ReplacementModel,
    lookup: Option<LookupModel>,
)
    ensures
        explicitly_relative(replacement.new) ==> (is_looked_up(
            Some((in_workspace, replacement)),
            lookup,
        ) <==> lookup is Some),
        is_looked_up(None, lookup) <==> lookup is None,
{
}

/// A requirement that nothing replaces is met by the module of the workspace that has
/// its name, and else from outside at its own version.
pub proof fn unreplaced_requirements_keep_their_version(
    root: PathModel,
    requirement: (Seq<char>, Seq<char>),
    lookup: Option<LookupModel>,
    modules: Seq<ModuleModel>,
)
    ensures
        (exists|i: int| 0 <= i < modules.len() && (#[trigger] modules[i]).name == requirement.0)
            ==> specifier_outcome(root, None, requirement, lookup, modules) == Ok::<
            Option<Seq<char>>,
            Failure,
        >(None),
        (forall|i: int| 0 <= i < modules.len() ==> (#[trigger] modules[i]).name != requirement.0)
            ==> specifier_outcome(root, None, requirement, lookup, modules) == Ok::<
            Option<Seq<char>>,
            Failure,
        >(Some(requirement.1)),
{
}

/// A requirement that another module replaces comes from outside: at the version of
/// that, or at its own where that has none.
pub proof fn replaced_requirements_take_the_new_version(
    root: PathModel,
    in_workspace: bool,
    replacement: ReplacementModel,
    requirement: (Seq<char>, Seq<char>),
    modules: Seq<ModuleModel>,
)
    ensures
        replacement.version matches Some(version) ==> specifier_outcome(
            root,
            Some((in_workspace, replacement)),
            requirement,
            None,
            modules,
        ) == Ok::<Option<Seq<char>>, Failure>(Some(version)),
        replacement.version is None ==> specifier_outcome(
            root,
            Some((in_workspace, replacement)),
            requirement,
            None,
            modules,
        ) == Ok::<Option<Seq<char>>, Failure>(Some(requirement.1)),
{
}

/// A requirement that a directory replaces is met by the module of the workspace
/// there, whatever versions say; it is wrong where there is none.
pub proof fn local_replacements_meet_requirements(
    root: PathModel,
    in_workspace: bool,
    replacement: ReplacementModel,
    requirement: (Seq<char>, Seq<char>),
    lookup: LookupModel,
    modules: Seq<ModuleModel>,
)
    ensures
        local_module_outcome(root, replacement.new, lookup, modules) is Ok ==> specifier_outcome(
            root,
            Some((in_workspace, replacement)),
            requirement,
            Some(lookup),
            modules,
        ) == Ok::<Option<Seq<char>>, Failure>(None),
        local_module_outcome(root, replacement.new, lookup, modules) matches Err(failure)
            ==> specifier_outcome(
            root,
            Some((in_workspace, replacement)),
            requirement,
            Some(lookup),
            modules,
        ) == Err::<Option<Seq<char>>, Failure>(failure),
{
}

/// What is in a directory is written behind it and a slash; what is at the root is
/// written alone.
pub proof fn files_are_written_behind_directories(directory: Seq<char>, name: Seq<char>)
    ensures
        inside(seq![], name) == name,
        directory.len() > 0 ==> inside(directory, name) == directory + seq!['/'] + name,
{
    reveal_strlit("/");
    assert("/"@ =~= seq!['/']);
}

/// Each module in the repository adds its `go.sum` and its build cache to what is
/// observed, behind those of the modules before it; a module outside adds nothing,
/// and without modules only the files at the root and the manifests are observed.
pub proof fn modules_add_to_observation(
    root: PathModel,
    modules: Seq<ModuleModel>,
    module: ModuleModel,
    directory: Seq<Seq<char>>,
)
    ensures
        observation_of(seq![], root) == (ObservationModel {
            rediscovery_file_names: seq!["go.mod"@],
            resolution_paths: seq!["go.work"@, "go.work.sum"@],
            ignore_prefixes: seq![],
        }),
        module.directory.components == root.components + directory ==> observation_of(
            modules.push(module),
            root,
        ) == (ObservationModel {
            rediscovery_file_names: observation_of(modules, root).rediscovery_file_names,
            resolution_paths: observation_of(modules, root).resolution_paths.push(
                inside(unix(directory), "go.sum"@),
            ),
            ignore_prefixes: observation_of(modules, root).ignore_prefixes.push(
                inside(unix(directory), ".cache/go-build"@),
            ),
        }),
        !root.components.is_prefix_of(module.directory.components) ==> observation_of(
            modules.push(module),
            root,
        ) == observation_of(modules, root),
{
    assert(modules.push(module).drop_last() =~= modules);
    if module.directory.components == root.components + directory {
        let all = module.directory.components;
        assert(root.components =~= all.subrange(0, root.components.len() as int));
        assert(all.skip(root.components.len() as int) =~= directory);
        assert(anchored(root.components, all) == Some(directory));
    }
}

} // verus!
