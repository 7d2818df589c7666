//! The modules of a workspace: where they stand and what replaces what.
use crate::error::{outcome, Error, Failure, PathError, PathFailure};
use crate::names::{GO_MOD, GO_SUM, GO_WORK, GO_WORK_SUM};
use crate::path::{anchored, child, unix, AbsolutePath, PathModel};
use crate::syntax::{
    mod_outcome, parse_mod, parse_work, work_outcome, ManifestModel, ModuleManifest, Replacement,
    ReplacementModel, WorkFile, WorkModel,
};
use crate::text::{same, starts_with};
use vstd::prelude::*;

verus! {

/// A module of the workspace.
#[derive(Debug)]
pub struct ModuleInfo {
    pub name: String,
    pub directory: AbsolutePath,
    pub manifest_path: AbsolutePath,
    pub manifest: ModuleManifest,
}

/// The model of a `ModuleInfo`.
pub struct ModuleModel {
    pub name: Seq<char>,
    pub directory: PathModel,
    pub manifest_path: PathModel,
    pub manifest: ManifestModel,
}

impl DeepView for ModuleInfo {
    type V = ModuleModel;

    open spec fn deep_view(&self) -> ModuleModel {
        ModuleModel {
            name: self.name@,
            directory: self.directory.deep_view(),
            manifest_path: self.manifest_path.deep_view(),
            manifest: self.manifest.deep_view(),
        }
    }
}

/// What looking for the canonical form of a path gave.
#[derive(Debug)]
pub enum Lookup {
    Found(AbsolutePath),
    Unreadable { path: String, source: std::io::Error },
    Invalid(PathError),
}

/// The model of a `Lookup`.
pub enum LookupModel {
    Found(PathModel),
    Unreadable { path: Seq<char>, source: std::io::Error },
    Invalid(PathFailure),
}

impl DeepView for Lookup {
    type V = LookupModel;

    open spec fn deep_view(&self) -> LookupModel {
        match self {
            Lookup::Found(path) => LookupModel::Found(path.deep_view()),
            Lookup::Unreadable { path, source } => LookupModel::Unreadable {
                path: path@,
                source: *source,
            },
            Lookup::Invalid(error) => LookupModel::Invalid(error.deep_view()),
        }
    }
}

/// The canonical path that `raw` leads to, which has to lie in the repository.
pub open spec fn directory_outcome(root: PathModel, raw: Seq<char>, lookup: LookupModel) -> Result<
    PathModel,
    Failure,
> {
    match lookup {
        LookupModel::Unreadable { path, source } => Err(Failure::Read { path, source }),
        LookupModel::Invalid(error) => Err(Failure::Path(error)),
        LookupModel::Found(path) => if anchored(root.components, path.components) is None {
            Err(Failure::OutsideRepository { path: raw, root: root.text })
        } else {
            Ok(path)
        },
    }
}

/// The canonical directory that `raw` leads to, which has to lie in the
/// repository.
pub fn canonical_module_dir(repo_root: &AbsolutePath, raw: &str, lookup: Lookup) -> (r: Result<
    AbsolutePath,
    Error,
>)
    ensures
        outcome(r) == directory_outcome(repo_root.deep_view(), raw@, lookup.deep_view()),
{
    match lookup {
        Lookup::Unreadable { path, source } => Err(Error::Read { path, source }),
        Lookup::Invalid(error) => Err(Error::Path(error)),
        Lookup::Found(path) => {
            if repo_root.anchor(&path).is_none() {
                Err(
                    Error::OutsideRepository {
                        path: raw.to_owned(),
                        root: repo_root.text.clone(),
                    },
                )
            } else {
                Ok(path)
            }
        },
    }
}

/// The `go.work` of a repository without one: the root is the only module.
pub open spec fn single_module() -> WorkModel {
    WorkModel { go_version: None, toolchain: None, uses: seq!["."@], replacements: seq![] }
}

/// The workspace that the `go.work` at `path` describes. Without a `go.work` the
/// root is the only module.
pub fn workspace_file(path: &AbsolutePath, contents: Option<&str>) -> (r: Result<WorkFile, Error>)
    ensures
        outcome(r) == (match contents {
            Some(contents) => work_outcome(path.deep_view().text, contents@),
            None => Ok(single_module()),
        }),
{
    match contents {
        Some(contents) => parse_work(path, contents),
        None => {
            let mut uses: Vec<String> = Vec::new();
            uses.push(".".to_owned());
            let work = WorkFile {
                go_version: None,
                toolchain: None,
                uses,
                replacements: Vec::new(),
            };
            assert(work.uses.deep_view() =~= seq!["."@]);
            assert(work.replacements.deep_view() =~= seq![]);
            Ok(work)
        },
    }
}

/// What stands where the `go.mod` of a module should; `path` is how its path is
/// written.
#[derive(Debug)]
pub enum ManifestFile {
    Missing,
    Unreadable { path: String, source: std::io::Error },
    Text { path: String, contents: String },
}

/// The model of a `ManifestFile`.
pub enum ManifestFileModel {
    Missing,
    Unreadable { path: Seq<char>, source: std::io::Error },
    Text { path: Seq<char>, contents: Seq<char> },
}

impl DeepView for ManifestFile {
    type V = ManifestFileModel;

    open spec fn deep_view(&self) -> ManifestFileModel {
        match self {
            ManifestFile::Missing => ManifestFileModel::Missing,
            ManifestFile::Unreadable { path, source } => ManifestFileModel::Unreadable {
                path: path@,
                source: *source,
            },
            ManifestFile::Text { path, contents } => ManifestFileModel::Text {
                path: path@,
                contents: contents@,
            },
        }
    }
}

/// A directory that the workspace uses, and what was found there.
#[derive(Debug)]
pub struct WorkspaceMember {
    pub use_path: String,
    pub directory: Lookup,
    pub manifest: ManifestFile,
}

/// The model of a `WorkspaceMember`.
pub struct MemberModel {
    pub use_path: Seq<char>,
    pub directory: LookupModel,
    pub manifest: ManifestFileModel,
}

impl DeepView for WorkspaceMember {
    type V = MemberModel;

    open spec fn deep_view(&self) -> MemberModel {
        MemberModel {
            use_path: self.use_path@,
            directory: self.directory.deep_view(),
            manifest: self.manifest.deep_view(),
        }
    }
}

/// Whether one of `modules` has the name `name`.
pub open spec fn is_named(modules: Seq<ModuleModel>, name: Seq<char>) -> bool {
    exists|i: int| 0 <= i < modules.len() && (#[trigger] modules[i]).name == name
}

/// The manifest of a member whose directory is known, and how its path is
/// written.
pub open spec fn manifest_outcome(member: MemberModel) -> Result<
    (Seq<char>, ManifestModel),
    Failure,
> {
    match member.manifest {
        ManifestFileModel::Missing => Err(Failure::MissingManifest { path: member.use_path }),
        ManifestFileModel::Unreadable { path, source } => Err(Failure::Read { path, source }),
        ManifestFileModel::Text { path, contents } => match mod_outcome(path, contents) {
            Ok(manifest) => Ok((path, manifest)),
            Err(failure) => Err(failure),
        },
    }
}

/// The module in a directory that the workspace uses: it lies in the repository,
/// its manifest is the `go.mod` there, and no earlier module has its name.
pub open spec fn member_outcome(
    root: PathModel,
    earlier: Seq<ModuleModel>,
    member: MemberModel,
) -> Result<ModuleModel, Failure> {
    match directory_outcome(root, member.use_path, member.directory) {
        Err(failure) => Err(failure),
        Ok(directory) => match manifest_outcome(member) {
            Err(failure) => Err(failure),
            Ok((path, manifest)) => if is_named(earlier, manifest.name) {
                Err(Failure::DuplicateModule { name: manifest.name })
            } else {
                Ok(
                    ModuleModel {
                        name: manifest.name,
                        directory,
                        manifest_path: child(directory, GO_MOD@, path),
                        manifest,
                    },
                )
            },
        },
    }
}

/// The modules in the directories that the workspace uses, or what is wrong with
/// the first of them that is wrong.
pub open spec fn modules_outcome(root: PathModel, members: Seq<MemberModel>) -> Result<
    Seq<ModuleModel>,
    Failure,
>
    decreases members.len(),
{
    if members.len() == 0 {
        Ok(seq![])
    } else {
        match modules_outcome(root, members.drop_last()) {
            Err(failure) => Err(failure),
            Ok(earlier) => match member_outcome(root, earlier, members.last()) {
                Err(failure) => Err(failure),
                Ok(module) => Ok(earlier.push(module)),
            },
        }
    }
}

proof fn lemma_modules_error(root: PathModel, members: Seq<MemberModel>, n: int)
    requires
        0 <= n <= members.len(),
        modules_outcome(root, members.take(n)) is Err,
    ensures
        modules_outcome(root, members) == modules_outcome(root, members.take(n)),
    decreases members.len() - n,
{
    if n < members.len() {
        assert(members.take(n + 1).drop_last() =~= members.take(n));
        lemma_modules_error(root, members, n + 1);
    } else {
        assert(members.take(n) =~= members);
    }
}

/// Whether one of `modules` has the name `name`.
pub fn has_module(modules: &Vec<ModuleInfo>, name: &str) -> (r: bool)
    ensures
        r == is_named(modules.deep_view(), name@),
{
    let ghost model = modules.deep_view();
    let mut i: usize = 0;
    while i < modules.len()
        invariant
            i <= modules.len(),
            model == modules.deep_view(),
            forall|j: int| 0 <= j < i ==> (#[trigger] model[j]).name != name@,
        decreases modules.len() - i,
    {
        if same(modules[i].name.as_str(), name) {
            assert(model[i as int].name == name@);
            return true;
        }
        assert(model[i as int].name != name@);
        i = i + 1;
    }
    false
}

/// Adds the module in a directory that the workspace uses.
pub fn admit_module(
    modules: &mut Vec<ModuleInfo>,
    repo_root: &AbsolutePath,
    member: WorkspaceMember,
) -> (r: Result<(), Error>)
    ensures
        match member_outcome(
            repo_root.deep_view(),
            old(modules).deep_view(),
            member.deep_view(),
        ) {
            Ok(module) => r is Ok && final(modules).deep_view() == old(modules).deep_view().push(
                module,
            ),
            Err(failure) => *final(modules) == *old(modules) && outcome(r) == Err::<(), Failure>(
                failure,
            ),
        },
{
    let WorkspaceMember { use_path, directory, manifest } = member;
    let directory = match canonical_module_dir(repo_root, use_path.as_str(), directory) {
        Ok(directory) => directory,
        Err(error) => {
            return Err(error);
        },
    };
    let (path, contents) = match manifest {
        ManifestFile::Missing => {
            return Err(Error::MissingManifest { path: use_path });
        },
        ManifestFile::Unreadable { path, source } => {
            return Err(Error::Read { path, source });
        },
        ManifestFile::Text { path, contents } => (path, contents),
    };
    let manifest_path = directory.child(GO_MOD, path);
    let manifest = match parse_mod(&manifest_path, contents.as_str()) {
        Ok(manifest) => manifest,
        Err(error) => {
            return Err(error);
        },
    };
    if has_module(modules, manifest.name.as_str()) {
        return Err(Error::DuplicateModule { name: manifest.name });
    }
    let ghost before = modules.deep_view();
    let module = ModuleInfo { name: manifest.name.clone(), directory, manifest_path, manifest };
    modules.push(module);
    assert(modules.deep_view() =~= before.push(module.deep_view()));
    Ok(())
}

/// The modules in the directories that the workspace uses, or what is wrong with
/// the first of them that is wrong.
pub fn discover_modules(repo_root: &AbsolutePath, members: Vec<WorkspaceMember>) -> (r: Result<
    Vec<ModuleInfo>,
    Error,
>)
    ensures
        outcome(r) == modules_outcome(repo_root.deep_view(), members.deep_view()),
{
    let ghost model = members.deep_view();
    let ghost root = repo_root.deep_view();
    let mut modules: Vec<ModuleInfo> = Vec::new();
    assert(modules.deep_view() =~= seq![]);
    for member in it: members
        invariant
            it.seq() == members@,
            model == members.deep_view(),
            root == repo_root.deep_view(),
            modules_outcome(root, model.take(it.index())) == Ok::<Seq<ModuleModel>, Failure>(
                modules.deep_view(),
            ),
    {
        let ghost n = it.index();
        proof {
            assert(model.take(n + 1).drop_last() =~= model.take(n));
            assert(model.take(n + 1).last() == member.deep_view());
        }
        if let Err(error) = admit_module(&mut modules, repo_root, member) {
            proof {
                lemma_modules_error(root, model, n + 1);
            }
            return Err(error);
        }
    }
    assert(model.take(model.len() as int) =~= model);
    Ok(modules)
}

/// A path that begins with a separator, or holds the colon of a drive.
pub open spec fn may_be_absolute(path: Seq<char>) -> bool {
    ||| path.len() > 0 && (path[0] == '/' || path[0] == '\\')
    ||| path.contains(':')
}

/// Calls `std::path::Path::is_absolute`. What is absolute differs from system to
/// system, so nothing is said of when the answer is yes; an absolute path begins
/// with the root, or with a prefix such as a drive or the name of a server.
#[verifier::external_body]
fn is_absolute(path: &str) -> (r: bool)
    ensures
        r ==> may_be_absolute(path@),
{
    std::path::Path::new(path).is_absolute()
}

/// A path that says by how it begins that it is relative to where it is used.
pub open spec fn explicitly_relative(value: Seq<char>) -> bool {
    ||| value == "."@
    ||| value == ".."@
    ||| "./"@.is_prefix_of(value)
    ||| "../"@.is_prefix_of(value)
}

/// A path that is explicitly relative, or begins as an absolute one does.
pub open spec fn may_be_local(value: Seq<char>) -> bool {
    explicitly_relative(value) || may_be_absolute(value)
}

/// Whether `value` says by how it begins that it is relative, or is absolute.
pub fn is_local_path_given(value: &str, absolute: bool) -> (r: bool)
    ensures
        r == (explicitly_relative(value@) || absolute),
{
    same(value, ".") || same(value, "..") || starts_with(value, "./") || starts_with(value, "../")
        || absolute
}

/// Whether `value` names a directory of this file system rather than a module.
/// Which values are absolute paths is for the system to say.
pub fn is_local_path(value: &str) -> (r: bool)
    ensures
        explicitly_relative(value@) ==> r,
        r ==> may_be_local(value@),
{
    is_local_path_given(value, is_absolute(value))
}

/// The name of the module whose directory is `components`; of several, the last.
pub open spec fn module_at(modules: Seq<ModuleModel>, components: Seq<Seq<char>>) -> Option<
    Seq<char>,
>
    decreases modules.len(),
{
    if modules.len() == 0 {
        None
    } else if modules.last().directory.components == components {
        Some(modules.last().name)
    } else {
        module_at(modules.drop_last(), components)
    }
}

/// The name of the module in the directory `path`.
pub fn module_in(modules: &Vec<ModuleInfo>, path: &AbsolutePath) -> (r: Option<String>)
    ensures
        r.deep_view() == module_at(modules.deep_view(), path.deep_view().components),
{
    let ghost model = modules.deep_view();
    let ghost components = path.deep_view().components;
    let mut i: usize = modules.len();
    assert(model.take(i as int) =~= model);
    while i > 0
        invariant
            i <= modules.len(),
            model == modules.deep_view(),
            components == path.deep_view().components,
            module_at(model, components) == module_at(model.take(i as int), components),
        decreases i,
    {
        proof {
            assert(model.take(i as int).last() == modules@[i - 1].deep_view());
            assert(model.take(i as int).drop_last() =~= model.take(i - 1));
        }
        if modules[i - 1].directory.same_as(path) {
            return Some(modules[i - 1].name.clone());
        }
        i = i - 1;
    }
    None
}

/// The module of the workspace that the local path `raw` leads to.
pub open spec fn local_module_outcome(
    root: PathModel,
    raw: Seq<char>,
    lookup: LookupModel,
    modules: Seq<ModuleModel>,
) -> Result<Seq<char>, Failure> {
    match directory_outcome(root, raw, lookup) {
        Err(failure) => Err(failure),
        Ok(directory) => match module_at(modules, directory.components) {
            Some(name) => Ok(name),
            None => Err(Failure::UnknownLocalReplacement { path: raw }),
        },
    }
}

/// The module of the workspace that the local path `raw` leads to.
pub fn local_module(
    repo_root: &AbsolutePath,
    raw: &str,
    lookup: Lookup,
    modules: &Vec<ModuleInfo>,
) -> (r: Result<String, Error>)
    ensures
        outcome(r) == local_module_outcome(
            repo_root.deep_view(),
            raw@,
            lookup.deep_view(),
            modules.deep_view(),
        ),
{
    match canonical_module_dir(repo_root, raw, lookup) {
        Err(error) => Err(error),
        Ok(directory) => match module_in(modules, &directory) {
            Some(name) => Ok(name),
            None => Err(Error::UnknownLocalReplacement { path: raw.to_owned() }),
        },
    }
}

/// What replaces a module is looked up where `is_local_path` says that it is a
/// local path: always where it is explicitly relative, and never where it does not
/// begin as an absolute path does.
pub open spec fn lookup_fits(replacement: ReplacementModel, looked_up: bool) -> bool {
    &&& explicitly_relative(replacement.new) ==> looked_up
    &&& looked_up ==> may_be_local(replacement.new)
}

/// The module of the workspace that stands in for a replaced one: none where the
/// replacement is no local path, and so nothing was looked up.
pub open spec fn target_outcome(
    root: PathModel,
    replacement: ReplacementModel,
    lookup: Option<LookupModel>,
    modules: Seq<ModuleModel>,
) -> Result<Option<Seq<char>>, Failure> {
    match lookup {
        None => Ok(None),
        Some(lookup) => match local_module_outcome(root, replacement.new, lookup, modules) {
            Ok(name) => Ok(Some(name)),
            Err(failure) => Err(failure),
        },
    }
}

/// The module of the workspace that stands in for a replaced one. `lookup` is
/// what was found of the path that replaces it, where it is a local path.
pub fn replacement_target(
    repo_root: &AbsolutePath,
    replacement: &Replacement,
    lookup: Option<Lookup>,
    modules: &Vec<ModuleInfo>,
) -> (r: Result<Option<String>, Error>)
    requires
        lookup_fits(replacement.deep_view(), lookup is Some),
    ensures
        outcome(r) == target_outcome(
            repo_root.deep_view(),
            replacement.deep_view(),
            lookup.deep_view(),
            modules.deep_view(),
        ),
{
    match lookup {
        None => Ok(None),
        Some(lookup) => match local_module(repo_root, replacement.new.as_str(), lookup, modules) {
            Ok(name) => Ok(Some(name)),
            Err(error) => Err(error),
        },
    }
}

/// Whether `replacement` is about `version` of the module `required`.
pub open spec fn replaces(
    replacement: ReplacementModel,
    required: Seq<char>,
    version: Seq<char>,
) -> bool {
    &&& replacement.old == required
    &&& replacement.old_version matches Some(old_version) ==> old_version == version
}

/// The first of `replacements` that is about `version` of the module `required`.
pub open spec fn first_replacement(
    replacements: Seq<ReplacementModel>,
    required: Seq<char>,
    version: Seq<char>,
) -> Option<ReplacementModel>
    decreases replacements.len(),
{
    if replacements.len() == 0 {
        None
    } else if replaces(replacements[0], required, version) {
        Some(replacements[0])
    } else {
        first_replacement(replacements.skip(1), required, version)
    }
}

/// The first of `replacements` that is about `version` of the module `required`.
pub fn find_replacement<'a>(
    replacements: &'a Vec<Replacement>,
    required: &str,
    version: &str,
) -> (r: Option<&'a Replacement>)
    ensures
        r.deep_view() == first_replacement(replacements.deep_view(), required@, version@),
{
    let ghost model = replacements.deep_view();
    let mut i: usize = 0;
    assert(model.skip(0) =~= model);
    while i < replacements.len()
        invariant
            i <= replacements.len(),
            model == replacements.deep_view(),
            first_replacement(model, required@, version@) == first_replacement(
                model.skip(i as int),
                required@,
                version@,
            ),
        decreases replacements.len() - i,
    {
        proof {
            assert(model.skip(i as int)[0] == replacements@[i as int].deep_view());
            assert(model.skip(i as int).skip(1) =~= model.skip(i + 1));
        }
        let replacement = &replacements[i];
        if same(replacement.old.as_str(), required) {
            let about = match &replacement.old_version {
                Some(old_version) => same(old_version.as_str(), version),
                None => true,
            };
            if about {
                return Some(replacement);
            }
        }
        i = i + 1;
    }
    None
}

/// The replacement for `version` of the module `required`, and whether it is the
/// workspace that names it. The workspace comes before the module.
pub open spec fn applied_replacement(
    work: Seq<ReplacementModel>,
    module: Seq<ReplacementModel>,
    required: Seq<char>,
    version: Seq<char>,
) -> Option<(bool, ReplacementModel)> {
    match first_replacement(work, required, version) {
        Some(replacement) => Some((true, replacement)),
        None => match first_replacement(module, required, version) {
            Some(replacement) => Some((false, replacement)),
            None => None,
        },
    }
}

/// The replacement for `version` of the module `required`, and whether it is the
/// workspace that names it. The workspace comes before the module.
pub fn choose_replacement<'a>(
    work: &'a Vec<Replacement>,
    module: &'a Vec<Replacement>,
    required: &str,
    version: &str,
) -> (r: Option<(bool, &'a Replacement)>)
    ensures
        r.deep_view() == applied_replacement(
            work.deep_view(),
            module.deep_view(),
            required@,
            version@,
        ),
{
    match find_replacement(work, required, version) {
        Some(replacement) => Some((true, replacement)),
        None => match find_replacement(module, required, version) {
            Some(replacement) => Some((false, replacement)),
            None => None,
        },
    }
}

/// The local path that replaces a module, where `local` tells that it is one, and
/// the directory that it starts from: the root where the workspace names it, else
/// that of the module.
pub open spec fn lookup_of(
    applied: Option<(bool, ReplacementModel)>,
    local: bool,
    root: PathModel,
    directory: PathModel,
) -> Option<(PathModel, Seq<char>)> {
    match applied {
        Some((in_workspace, replacement)) => if local {
            Some(
                (
                    if in_workspace {
                        root
                    } else {
                        directory
                    },
                    replacement.new,
                ),
            )
        } else {
            None
        },
        None => None,
    }
}

/// The local path that replaces a module, and the directory that it starts from,
/// once it is known whether it is a local path.
pub fn lookup_given(
    applied: Option<(bool, &Replacement)>,
    local: bool,
    repo_root: &AbsolutePath,
    directory: &AbsolutePath,
) -> (r: Option<(AbsolutePath, String)>)
    ensures
        r.deep_view() == lookup_of(
            applied.deep_view(),
            local,
            repo_root.deep_view(),
            directory.deep_view(),
        ),
{
    match applied {
        Some((in_workspace, replacement)) => {
            if local {
                let base = if in_workspace {
                    repo_root.copy()
                } else {
                    directory.copy()
                };
                Some((base, replacement.new.clone()))
            } else {
                None
            }
        },
        None => None,
    }
}

/// `lookup` is what to look up of a replacement, by one of the answers that
/// `is_local_path` can give.
pub open spec fn is_lookup_for(
    lookup: Option<(PathModel, Seq<char>)>,
    applied: Option<(bool, ReplacementModel)>,
    root: PathModel,
    directory: PathModel,
) -> bool {
    &&& lookup == lookup_of(applied, lookup is Some, root, directory)
    &&& applied matches Some((_, replacement)) ==> lookup_fits(replacement, lookup is Some)
}

/// The local paths that replace the requirements of `module`, requirement by
/// requirement, each with the directory that it starts from. Which replacements
/// are local paths is for `is_local_path` to say.
pub fn planned_lookups(work: &WorkFile, module: &ModuleInfo, repo_root: &AbsolutePath) -> (r: Vec<
    Option<(AbsolutePath, String)>,
>)
    ensures
        r.len() == module.manifest.requirements.len(),
        forall|i: int|
            0 <= i < r.len() ==> is_lookup_for(
                #[trigger] r.deep_view()[i],
                applied_to(
                    work.deep_view(),
                    module.deep_view(),
                    module.deep_view().manifest.requirements[i],
                ),
                repo_root.deep_view(),
                module.deep_view().directory,
            ),
{
    let requirements = &module.manifest.requirements;
    let mut lookups: Vec<Option<(AbsolutePath, String)>> = Vec::new();
    let mut i: usize = 0;
    while i < requirements.len()
        invariant
            i <= requirements.len(),
            requirements == &module.manifest.requirements,
            lookups.len() == i,
            forall|j: int|
                0 <= j < i ==> is_lookup_for(
                    #[trigger] lookups.deep_view()[j],
                    applied_to(
                        work.deep_view(),
                        module.deep_view(),
                        requirements.deep_view()[j],
                    ),
                    repo_root.deep_view(),
                    module.directory.deep_view(),
                ),
        decreases requirements.len() - i,
    {
        let ghost before = lookups.deep_view();
        let applied = choose_replacement(
            &work.replacements,
            &module.manifest.replacements,
            requirements[i].0.as_str(),
            requirements[i].1.as_str(),
        );
        let local = match applied {
            Some((_, replacement)) => is_local_path(replacement.new.as_str()),
            None => false,
        };
        let lookup = lookup_given(applied, local, repo_root, &module.directory);
        lookups.push(lookup);
        proof {
            assert(requirements.deep_view()[i as int] == requirements@[i as int].deep_view());
            assert(lookups.deep_view() =~= before.push(lookup.deep_view()));
        }
        i = i + 1;
    }
    lookups
}

/// The replacement for a requirement of `module`, and whether it is the workspace
/// that names it.
pub open spec fn applied_to(
    work: WorkModel,
    module: ModuleModel,
    requirement: (Seq<char>, Seq<char>),
) -> Option<(bool, ReplacementModel)> {
    applied_replacement(
        work.replacements,
        module.manifest.replacements,
        requirement.0,
        requirement.1,
    )
}

/// What was looked up of the replacement for a requirement, where it has one.
pub open spec fn is_looked_up(
    applied: Option<(bool, ReplacementModel)>,
    lookup: Option<LookupModel>,
) -> bool {
    match applied {
        Some((_, replacement)) => lookup_fits(replacement, lookup is Some),
        None => lookup is None,
    }
}

/// By which specifier a requirement is met from outside: by the version of what
/// replaces it, or else by its own. None where the workspace meets it: by the
/// module that a local path leads to, or under its own name where nothing replaces
/// it.
pub open spec fn specifier_outcome(
    root: PathModel,
    applied: Option<(bool, ReplacementModel)>,
    requirement: (Seq<char>, Seq<char>),
    lookup: Option<LookupModel>,
    modules: Seq<ModuleModel>,
) -> Result<Option<Seq<char>>, Failure> {
    match applied {
        Some((_, replacement)) => match target_outcome(root, replacement, lookup, modules) {
            Err(failure) => Err(failure),
            Ok(Some(_)) => Ok(None),
            Ok(None) => Ok(
                Some(
                    match replacement.version {
                        Some(replaced) => replaced,
                        None => requirement.1,
                    },
                ),
            ),
        },
        None => if is_named(modules, requirement.0) {
            Ok(None)
        } else {
            Ok(Some(requirement.1))
        },
    }
}

/// By which specifier the requirement of `version` of the module `required` is met
/// from outside; none where the workspace meets it. `applied` is its replacement,
/// and `lookup` is what was found of that, where it is a local path.
pub fn outside_specifier(
    repo_root: &AbsolutePath,
    applied: Option<(bool, &Replacement)>,
    required: &str,
    version: &str,
    lookup: Option<Lookup>,
    modules: &Vec<ModuleInfo>,
) -> (r: Result<Option<String>, Error>)
    requires
        is_looked_up(applied.deep_view(), lookup.deep_view()),
    ensures
        outcome(r) == specifier_outcome(
            repo_root.deep_view(),
            applied.deep_view(),
            (required@, version@),
            lookup.deep_view(),
            modules.deep_view(),
        ),
{
    match applied {
        Some((_, replacement)) => match replacement_target(
            repo_root,
            replacement,
            lookup,
            modules,
        ) {
            Err(error) => Err(error),
            Ok(Some(_)) => Ok(None),
            Ok(None) => match &replacement.version {
                Some(replaced) => Ok(Some(replaced.clone())),
                None => Ok(Some(version.to_owned())),
            },
        },
        None => {
            if has_module(modules, required) {
                Ok(None)
            } else {
                Ok(Some(version.to_owned()))
            }
        },
    }
}

/// Which changes of files change what is known of the workspace: files of some
/// names anywhere, files that decide how modules are resolved, and directories
/// to ignore.
#[derive(Debug, PartialEq, Eq)]
pub struct ChangeObservation {
    pub rediscovery_file_names: Vec<String>,
    pub resolution_paths: Vec<String>,
    pub ignore_prefixes: Vec<String>,
}

/// The model of a `ChangeObservation`.
pub struct ObservationModel {
    pub rediscovery_file_names: Seq<Seq<char>>,
    pub resolution_paths: Seq<Seq<char>>,
    pub ignore_prefixes: Seq<Seq<char>>,
}

impl DeepView for ChangeObservation {
    type V = ObservationModel;

    open spec fn deep_view(&self) -> ObservationModel {
        ObservationModel {
            rediscovery_file_names: self.rediscovery_file_names.deep_view(),
            resolution_paths: self.resolution_paths.deep_view(),
            ignore_prefixes: self.ignore_prefixes.deep_view(),
        }
    }
}

impl ChangeObservation {
    pub fn new() -> (r: Self)
        ensures
            r.deep_view() == (ObservationModel {
                rediscovery_file_names: seq![],
                resolution_paths: seq![],
                ignore_prefixes: seq![],
            }),
    {
        let r = ChangeObservation {
            rediscovery_file_names: Vec::new(),
            resolution_paths: Vec::new(),
            ignore_prefixes: Vec::new(),
        };
        assert(r.rediscovery_file_names.deep_view() =~= seq![]);
        assert(r.resolution_paths.deep_view() =~= seq![]);
        assert(r.ignore_prefixes.deep_view() =~= seq![]);
        r
    }

    pub fn with_rediscovery_file_name(self, name: &str) -> (r: Self)
        ensures
            r.deep_view() == (ObservationModel {
                rediscovery_file_names: self.deep_view().rediscovery_file_names.push(name@),
                ..self.deep_view()
            }),
    {
        let mut r = self;
        r.rediscovery_file_names.push(name.to_owned());
        assert(r.rediscovery_file_names.deep_view()
            =~= self.rediscovery_file_names.deep_view().push(name@));
        r
    }

    pub fn with_resolution_path(self, path: &str) -> (r: Self)
        ensures
            r.deep_view() == (ObservationModel {
                resolution_paths: self.deep_view().resolution_paths.push(path@),
                ..self.deep_view()
            }),
    {
        let mut r = self;
        r.resolution_paths.push(path.to_owned());
        assert(r.resolution_paths.deep_view() =~= self.resolution_paths.deep_view().push(path@));
        r
    }

    pub fn with_ignore_prefix(self, prefix: &str) -> (r: Self)
        ensures
            r.deep_view() == (ObservationModel {
                ignore_prefixes: self.deep_view().ignore_prefixes.push(prefix@),
                ..self.deep_view()
            }),
    {
        let mut r = self;
        r.ignore_prefixes.push(prefix.to_owned());
        assert(r.ignore_prefixes.deep_view() =~= self.ignore_prefixes.deep_view().push(prefix@));
        r
    }
}

/// `name` in the directory `directory`, which is empty for the root.
pub open spec fn inside(directory: Seq<char>, name: Seq<char>) -> Seq<char> {
    if directory.len() == 0 {
        name
    } else {
        directory + "/"@ + name
    }
}

/// `name` in the directory `directory`, which is empty for the root.
pub fn path_inside(directory: &str, name: &str) -> (r: String)
    ensures
        r@ == inside(directory@, name@),
{
    if directory.is_empty() {
        name.to_owned()
    } else {
        let mut path = directory.to_owned();
        path.append("/");
        path.append(name);
        path
    }
}

/// Which changes matter to `modules`: of any `go.mod`, of the `go.work` and the
/// `go.work.sum`, and of the `go.sum` of each module; its build cache is
/// ignored. Modules outside the repository do not count.
pub open spec fn observation_of(modules: Seq<ModuleModel>, root: PathModel) -> ObservationModel
    decreases modules.len(),
{
    if modules.len() == 0 {
        ObservationModel {
            rediscovery_file_names: seq![GO_MOD@],
            resolution_paths: seq![GO_WORK@, GO_WORK_SUM@],
            ignore_prefixes: seq![],
        }
    } else {
        let earlier = observation_of(modules.drop_last(), root);
        match anchored(root.components, modules.last().directory.components) {
            Some(directory) => ObservationModel {
                resolution_paths: earlier.resolution_paths.push(inside(unix(directory), GO_SUM@)),
                ignore_prefixes: earlier.ignore_prefixes.push(
                    inside(unix(directory), ".cache/go-build"@),
                ),
                ..earlier
            },
            None => earlier,
        }
    }
}

/// Which changes matter to `modules`.
pub fn change_observation(modules: &Vec<ModuleInfo>, repo_root: &AbsolutePath) -> (r:
    ChangeObservation)
    ensures
        r.deep_view() == observation_of(modules.deep_view(), repo_root.deep_view()),
{
    let ghost model = modules.deep_view();
    let ghost root = repo_root.deep_view();
    let mut observation = ChangeObservation::new().with_rediscovery_file_name(
        GO_MOD,
    ).with_resolution_path(GO_WORK).with_resolution_path(GO_WORK_SUM);
    let mut i: usize = 0;
    proof {
        let start = observation.deep_view();
        assert(start.rediscovery_file_names =~= seq![GO_MOD@]);
        assert(start.resolution_paths =~= seq![GO_WORK@, GO_WORK_SUM@]);
    }
    while i < modules.len()
        invariant
            i <= modules.len(),
            model == modules.deep_view(),
            root == repo_root.deep_view(),
            observation.deep_view() == observation_of(model.take(i as int), root),
        decreases modules.len() - i,
    {
        proof {
            assert(model.take(i + 1).drop_last() =~= model.take(i as int));
            assert(model.take(i + 1).last() == modules@[i as int].deep_view());
        }
        if let Some(directory) = repo_root.anchor(&modules[i].directory) {
            let prefix = directory.to_unix();
            let sum = path_inside(prefix.as_str(), GO_SUM);
            let cache = path_inside(prefix.as_str(), ".cache/go-build");
            observation = observation.with_resolution_path(sum.as_str()).with_ignore_prefix(
                cache.as_str(),
            );
        }
        i = i + 1;
    }
    assert(model.take(i as int) =~= model);
    observation
}

} // verus!
