//! What `go list` tells of packages and modules, and what follows from it.
use crate::collections::SortedSet;
use crate::error::{outcome, Error, Failure};
use crate::order::{is_before, text_before, Ordered};
use crate::text::{lines, same, split_lines, split_words, strip_suffix, without_suffix, words};
use vstd::prelude::*;

verus! {

/// A module as `go list` describes it.
#[derive(Debug)]
pub struct GoListModule {
    pub path: String,
    pub version: String,
    pub sum: String,
    pub go_mod_sum: String,
    pub main: bool,
    pub replace: Option<Box<GoListModule>>,
    pub dir: String,
}

/// A package as `go list` describes it.
#[derive(Debug)]
pub struct GoListPackage {
    pub name: String,
    pub import_path: String,
    pub imports: Vec<String>,
    pub module: Option<GoListModule>,
}

/// What a listed module says of itself.
pub struct ModuleEntry {
    pub path: Seq<char>,
    pub version: Seq<char>,
    pub sum: Seq<char>,
    pub go_mod_sum: Seq<char>,
    pub dir: Seq<char>,
}

/// The model of a `GoListModule`.
pub struct ListedModule {
    pub entry: ModuleEntry,
    pub main: bool,
    pub replace: Option<Box<ListedModule>>,
}

/// The model of a `GoListPackage`.
pub struct ListedPackage {
    pub name: Seq<char>,
    pub import_path: Seq<char>,
    pub imports: Seq<Seq<char>>,
    pub module: Option<ListedModule>,
}

impl GoListModule {
    pub open spec fn entry(&self) -> ModuleEntry {
        ModuleEntry {
            path: self.path@,
            version: self.version@,
            sum: self.sum@,
            go_mod_sum: self.go_mod_sum@,
            dir: self.dir@,
        }
    }
}

impl DeepView for GoListModule {
    type V = ListedModule;

    open spec fn deep_view(&self) -> ListedModule
        decreases self,
    {
        ListedModule {
            entry: self.entry(),
            main: self.main,
            replace: match self.replace {
                Some(replacement) => Some(Box::new((*replacement).deep_view())),
                None => None,
            },
        }
    }
}

impl DeepView for GoListPackage {
    type V = ListedPackage;

    open spec fn deep_view(&self) -> ListedPackage {
        ListedPackage {
            name: self.name@,
            import_path: self.import_path@,
            imports: self.imports.deep_view(),
            module: self.module.deep_view(),
        }
    }
}

/// What stands for the module in a build: what replaces it, or itself.
pub open spec fn effective(module: ListedModule) -> ModuleEntry {
    match module.replace {
        Some(replacement) => replacement.entry,
        None => module.entry,
    }
}

impl GoListModule {
    /// What stands for the module in a build: what replaces it, or itself.
    pub fn effective(&self) -> (r: &GoListModule)
        ensures
            r.entry() == effective(self.deep_view()),
    {
        match &self.replace {
            Some(replacement) => {
                assert(replacement.deep_view().entry == replacement.entry());
                &**replacement
            },
            None => self,
        }
    }
}

/// A package from outside the repository, by a key and a version that change
/// whenever its contents do.
#[derive(Debug, Clone, PartialEq, Eq)]
pub struct ExternalPackageIdentity {
    pub key: String,
    pub version: String,
    pub human_name: Option<String>,
}

/// The model of an `ExternalPackageIdentity`.
pub struct IdentityModel {
    pub key: Seq<char>,
    pub version: Seq<char>,
    pub human_name: Option<Seq<char>>,
}

impl DeepView for ExternalPackageIdentity {
    type V = IdentityModel;

    open spec fn deep_view(&self) -> IdentityModel {
        IdentityModel {
            key: self.key@,
            version: self.version@,
            human_name: self.human_name.deep_view(),
        }
    }
}

impl ExternalPackageIdentity {
    pub fn new(key: String, version: String) -> (r: Self)
        ensures
            r.deep_view() == (IdentityModel { key: key@, version: version@, human_name: None }),
    {
        ExternalPackageIdentity { key, version, human_name: None }
    }

    pub fn with_human_name(self, name: String) -> (r: Self)
        ensures
            r.deep_view() == (IdentityModel { human_name: Some(name@), ..self.deep_view() }),
    {
        ExternalPackageIdentity { key: self.key, version: self.version, human_name: Some(name) }
    }
}

/// The order of optional texts: none comes first.
pub open spec fn option_before(a: Option<Seq<char>>, b: Option<Seq<char>>) -> bool {
    match (a, b) {
        (_, None) => false,
        (None, Some(_)) => true,
        (Some(x), Some(y)) => text_before(x, y),
    }
}

impl Ordered for ExternalPackageIdentity {
    open spec fn before(a: IdentityModel, b: IdentityModel) -> bool {
        ||| text_before(a.key, b.key)
        ||| a.key == b.key && text_before(a.version, b.version)
        ||| a.key == b.key && a.version == b.version && option_before(a.human_name, b.human_name)
    }

    proof fn irreflexive(a: IdentityModel) {
        String::irreflexive(a.key);
        String::irreflexive(a.version);
        if let Some(name) = a.human_name {
            String::irreflexive(name);
        }
    }

    proof fn transitive(a: IdentityModel, b: IdentityModel, c: IdentityModel) {
        if text_before(a.key, b.key) && text_before(b.key, c.key) {
            String::transitive(a.key, b.key, c.key);
        }
        if text_before(a.version, b.version) && text_before(b.version, c.version) {
            String::transitive(a.version, b.version, c.version);
        }
        if let (Some(x), Some(y), Some(z)) = (a.human_name, b.human_name, c.human_name) {
            if text_before(x, y) && text_before(y, z) {
                String::transitive(x, y, z);
            }
        }
    }

    proof fn connected(a: IdentityModel, b: IdentityModel) {
        String::connected(a.key, b.key);
        String::connected(a.version, b.version);
        if let (Some(x), Some(y)) = (a.human_name, b.human_name) {
            String::connected(x, y);
        }
    }

    fn precedes(&self, other: &Self) -> (r: bool) {
        proof {
            String::connected(self.key@, other.key@);
            String::connected(self.version@, other.version@);
            String::irreflexive(self.key@);
            String::irreflexive(self.version@);
            if text_before(self.key@, other.key@) && text_before(other.key@, self.key@) {
                String::transitive(self.key@, other.key@, self.key@);
            }
            if text_before(self.version@, other.version@) && text_before(
                other.version@,
                self.version@,
            ) {
                String::transitive(self.version@, other.version@, self.version@);
            }
        }
        if is_before(self.key.as_str(), other.key.as_str()) {
            return true;
        }
        if is_before(other.key.as_str(), self.key.as_str()) {
            return false;
        }
        if is_before(self.version.as_str(), other.version.as_str()) {
            return true;
        }
        if is_before(other.version.as_str(), self.version.as_str()) {
            return false;
        }
        match (&self.human_name, &other.human_name) {
            (_, None) => false,
            (None, Some(_)) => true,
            (Some(x), Some(y)) => is_before(x.as_str(), y.as_str()),
        }
    }
}

/// Whether the module is a directory of this file system: it has no version.
pub open spec fn is_local(entry: ModuleEntry) -> bool {
    entry.dir.len() > 0 && entry.version.len() == 0
}

/// Whether version and both checksums of the module are known.
pub open spec fn has_checksums(entry: ModuleEntry) -> bool {
    entry.version.len() > 0 && entry.sum.len() > 0 && entry.go_mod_sum.len() > 0
}

/// The identity of a module from outside: both checksums are part of its
/// version, and what replaces it is part of its key.
pub open spec fn identity_of(module: ListedModule) -> IdentityModel {
    let entry = effective(module);
    IdentityModel {
        key: match module.replace {
            Some(replacement) => module.entry.path + "=>"@ + replacement.entry.path,
            None => module.entry.path,
        },
        version: entry.version + "#"@ + entry.sum + "#"@ + entry.go_mod_sum,
        human_name: Some(module.entry.path),
    }
}

/// The identity of a listed module: none for the main module and for local
/// directories, and an error where checksums are missing.
pub open spec fn identity_outcome(module: ListedModule) -> Result<Option<IdentityModel>, Failure> {
    let entry = effective(module);
    if module.main || is_local(entry) {
        Ok(None)
    } else if !has_checksums(entry) {
        Err(Failure::MissingChecksum { path: entry.path, version: entry.version })
    } else {
        Ok(Some(identity_of(module)))
    }
}

/// The identity of a listed module: none for the main module and for local
/// directories, and an error where checksums are missing.
pub fn module_identity(module: &GoListModule) -> (r: Result<
    Option<ExternalPackageIdentity>,
    Error,
>)
    ensures
        outcome(r) == identity_outcome(module.deep_view()),
{
    if module.main {
        return Ok(None);
    }
    let entry = module.effective();
    if !entry.dir.as_str().is_empty() && entry.version.as_str().is_empty() {
        return Ok(None);
    }
    if entry.version.as_str().is_empty() || entry.sum.as_str().is_empty()
        || entry.go_mod_sum.as_str().is_empty() {
        return Err(
            Error::MissingChecksum { path: entry.path.clone(), version: entry.version.clone() },
        );
    }
    let mut key = module.path.clone();
    if module.replace.is_some() {
        key.append("=>");
        key.append(entry.path.as_str());
    }
    let mut version = entry.version.clone();
    version.append("#");
    version.append(entry.sum.as_str());
    version.append("#");
    version.append(entry.go_mod_sum.as_str());
    Ok(Some(ExternalPackageIdentity::new(key, version).with_human_name(module.path.clone())))
}

/// Under which module and version the checksums of a module stand in a
/// `go.sum`: its own, and those of what replaces it. The main module has none.
pub open spec fn sum_keys(module: ListedModule) -> Set<(Seq<char>, Seq<char>)> {
    Set::new(
        |key: (Seq<char>, Seq<char>)|
            {
                &&& !module.main
                &&& key.1.len() > 0
                &&& {
                    ||| key == (module.entry.path, module.entry.version)
                    ||| module.replace matches Some(replacement) && key == (
                        replacement.entry.path,
                        replacement.entry.version,
                    )
                }
            },
    )
}

/// Under which module and version the checksums of a module stand in a
/// `go.sum`.
pub fn module_sum_keys(module: &GoListModule) -> (r: SortedSet<(String, String)>)
    ensures
        r.deep_view() == sum_keys(module.deep_view()),
{
    let mut keys: SortedSet<(String, String)> = SortedSet::new();
    if !module.main {
        if !module.version.as_str().is_empty() {
            keys.insert((module.path.clone(), module.version.clone()));
        }
        if let Some(replacement) = &module.replace {
            assert(replacement.deep_view().entry == replacement.entry());
            if !replacement.version.as_str().is_empty() {
                keys.insert((replacement.path.clone(), replacement.version.clone()));
            }
        }
    }
    assert(keys.deep_view() =~= sum_keys(module.deep_view()));
    keys
}

/// The module and version that a line of a `go.sum` is about; the line may be
/// about the `go.mod` of that version alone.
pub open spec fn sum_key(line: Seq<char>) -> Option<(Seq<char>, Seq<char>)> {
    let fields = words(line);
    if fields.len() >= 2 {
        Some((fields[0], without_suffix(fields[1], "/go.mod"@)))
    } else {
        None
    }
}

/// Whether `line` of a `go.sum` is about one of `keys`.
pub open spec fn sum_line_kept(line: Seq<char>, keys: Set<(Seq<char>, Seq<char>)>) -> bool {
    sum_key(line) matches Some(key) && keys.contains(key)
}

/// `all`, each with a line feed behind it.
pub open spec fn unlines(all: Seq<Seq<char>>) -> Seq<char>
    decreases all.len(),
{
    if all.len() == 0 {
        seq![]
    } else {
        unlines(all.drop_last()) + all.last() + "\n"@
    }
}

/// The lines of a `go.sum` that are about one of `keys`, in order.
pub open spec fn pruned_sum(contents: Seq<char>, keys: Set<(Seq<char>, Seq<char>)>) -> Seq<char> {
    unlines(lines(contents).filter(|line: Seq<char>| sum_line_kept(line, keys)))
}

/// The lines of a `go.sum` that are about one of `keys`, in order.
pub fn prune_sum(contents: &str, keys: &SortedSet<(String, String)>) -> (r: String)
    ensures
        r@ == pruned_sum(contents@, keys.deep_view()),
{
    let all = split_lines(contents);
    let ghost model = all.deep_view();
    let ghost kept = |line: Seq<char>| sum_line_kept(line, keys.deep_view());
    let mut output = String::new();
    let mut i: usize = 0;
    proof {
        assert(model.take(0).filter(kept) =~= seq![]) by {
            reveal(Seq::filter);
        }
    }
    while i < all.len()
        invariant
            i <= all.len(),
            model == all.deep_view(),
            kept == (|line: Seq<char>| sum_line_kept(line, keys.deep_view())),
            output@ == unlines(model.take(i as int).filter(kept)),
        decreases all.len() - i,
    {
        let ghost done = model.take(i as int).filter(kept);
        let ghost line = model[i as int];
        proof {
            assert(line == all@[i as int]@);
            assert(model.take(i + 1) =~= model.take(i as int).push(line));
            model.take(i as int).lemma_filter_push(line, kept);
            assert(done.push(line).drop_last() =~= done);
        }
        let fields = split_words(all[i].as_str());
        if fields.len() >= 2 {
            let version = strip_suffix(fields[1].as_str(), "/go.mod");
            let key = (fields[0].clone(), version);
            assert(sum_key(line) == Some(key.deep_view()));
            if keys.contains(&key) {
                output.append(all[i].as_str());
                output.append("\n");
            }
        }
        i = i + 1;
    }
    assert(model.take(i as int) =~= model);
    output
}

/// The modules that `packages` belong to, in order, as often as they occur.
pub open spec fn modules_of(packages: Seq<ListedPackage>) -> Seq<ListedModule>
    decreases packages.len(),
{
    if packages.len() == 0 {
        seq![]
    } else {
        match packages.last().module {
            Some(module) => modules_of(packages.drop_last()).push(module),
            None => modules_of(packages.drop_last()),
        }
    }
}

/// The identities of `modules`, or the first error among them.
pub open spec fn identities_of(modules: Seq<ListedModule>) -> Result<Set<IdentityModel>, Failure>
    decreases modules.len(),
{
    if modules.len() == 0 {
        Ok(Set::empty())
    } else {
        match identities_of(modules.drop_last()) {
            Err(failure) => Err(failure),
            Ok(earlier) => match identity_outcome(modules.last()) {
                Err(failure) => Err(failure),
                Ok(None) => Ok(earlier),
                Ok(Some(identity)) => Ok(earlier.insert(identity)),
            },
        }
    }
}

/// An error among the first modules is the error of them all.
proof fn lemma_identities_error(modules: Seq<ListedModule>, n: int)
    requires
        0 <= n <= modules.len(),
        identities_of(modules.take(n)) is Err,
    ensures
        identities_of(modules) == identities_of(modules.take(n)),
    decreases modules.len() - n,
{
    if n < modules.len() {
        assert(modules.take(n + 1).drop_last() =~= modules.take(n));
        lemma_identities_error(modules, n + 1);
    } else {
        assert(modules.take(n) =~= modules);
    }
}

/// The modules that `packages` belong to, in order, as often as they occur.
pub fn listed_modules(packages: &Vec<GoListPackage>) -> (r: Vec<&GoListModule>)
    ensures
        r.deep_view() == modules_of(packages.deep_view()),
{
    let ghost model = packages.deep_view();
    let mut out: Vec<&GoListModule> = Vec::new();
    let mut i: usize = 0;
    assert(out.deep_view() =~= modules_of(model.take(0)));
    while i < packages.len()
        invariant
            i <= packages.len(),
            model == packages.deep_view(),
            out.deep_view() == modules_of(model.take(i as int)),
        decreases packages.len() - i,
    {
        let ghost before = out.deep_view();
        proof {
            assert(model.take(i + 1).drop_last() =~= model.take(i as int));
            assert(model.take(i + 1).last() == packages@[i as int].deep_view());
        }
        if let Some(module) = &packages[i].module {
            out.push(module);
            assert(out.deep_view() =~= before.push(module.deep_view()));
        }
        i = i + 1;
    }
    assert(model.take(i as int) =~= model);
    out
}

/// The identities of `modules`, or the first error among them.
pub fn module_identities(modules: &Vec<&GoListModule>) -> (r: Result<
    SortedSet<ExternalPackageIdentity>,
    Error,
>)
    ensures
        outcome(r) == identities_of(modules.deep_view()),
{
    let ghost model = modules.deep_view();
    let mut identities: SortedSet<ExternalPackageIdentity> = SortedSet::new();
    let mut i: usize = 0;
    while i < modules.len()
        invariant
            i <= modules.len(),
            model == modules.deep_view(),
            identities_of(model.take(i as int)) == Ok::<Set<IdentityModel>, Failure>(
                identities.deep_view(),
            ),
        decreases modules.len() - i,
    {
        proof {
            assert(model.take(i + 1).drop_last() =~= model.take(i as int));
            assert(model.take(i + 1).last() == modules@[i as int].deep_view());
        }
        match module_identity(modules[i]) {
            Err(error) => {
                proof {
                    lemma_identities_error(model, i + 1);
                }
                return Err(error);
            },
            Ok(Some(identity)) => {
                identities.insert(identity);
            },
            Ok(None) => {},
        }
        i = i + 1;
    }
    assert(model.take(i as int) =~= model);
    Ok(identities)
}

/// The `go.sum` keys of all of `modules`.
pub open spec fn all_sum_keys(modules: Seq<ListedModule>) -> Set<(Seq<char>, Seq<char>)> {
    Set::new(
        |key: (Seq<char>, Seq<char>)|
            exists|i: int|
                0 <= i < modules.len() && #[trigger] sum_keys(modules[i]).contains(key),
    )
}

/// The `go.sum` keys of all of `modules`.
pub fn collect_sum_keys(modules: &Vec<&GoListModule>) -> (r: SortedSet<(String, String)>)
    ensures
        r.deep_view() == all_sum_keys(modules.deep_view()),
{
    let ghost model = modules.deep_view();
    let mut keys: SortedSet<(String, String)> = SortedSet::new();
    let mut i: usize = 0;
    assert(keys.deep_view() =~= all_sum_keys(model.take(0)));
    while i < modules.len()
        invariant
            i <= modules.len(),
            model == modules.deep_view(),
            keys.deep_view() == all_sum_keys(model.take(i as int)),
        decreases modules.len() - i,
    {
        let ghost before = keys.deep_view();
        let found = module_sum_keys(modules[i]);
        add_keys(&mut keys, &found);
        proof {
            let prefix = model.take(i as int);
            let next = model.take(i + 1);
            assert(model[i as int] == modules@[i as int].deep_view());
            assert forall|key: (Seq<char>, Seq<char>)|
                all_sum_keys(next).contains(key) <==> before.contains(key) || found.deep_view().contains(
                    key,
                ) by {
                if all_sum_keys(next).contains(key) {
                    let k = choose|k: int| 0 <= k < next.len() && sum_keys(next[k]).contains(key);
                    if k < i {
                        assert(sum_keys(prefix[k]).contains(key));
                    }
                }
                if before.contains(key) {
                    let k = choose|k: int|
                        0 <= k < prefix.len() && sum_keys(prefix[k]).contains(key);
                    assert(sum_keys(next[k]).contains(key));
                }
                if found.deep_view().contains(key) {
                    assert(sum_keys(next[i as int]).contains(key));
                }
            }
            assert(keys.deep_view() =~= all_sum_keys(next));
        }
        i = i + 1;
    }
    assert(model.take(i as int) =~= model);
    keys
}

/// Adds all of `more` to `keys`.
pub fn add_keys(keys: &mut SortedSet<(String, String)>, more: &SortedSet<(String, String)>)
    ensures
        final(keys).deep_view() == old(keys).deep_view().union(more.deep_view()),
{
    let items = more.as_vec();
    let ghost model = items.deep_view();
    let mut i: usize = 0;
    assert(keys.deep_view() =~= old(keys).deep_view().union(model.take(0).to_set()));
    while i < items.len()
        invariant
            i <= items.len(),
            model == items.deep_view(),
            keys.deep_view() == old(keys).deep_view().union(model.take(i as int).to_set()),
        decreases items.len() - i,
    {
        let ghost prefix = model.take(i as int);
        proof {
            assert(model.take(i + 1) =~= prefix.push(model[i as int]));
            prefix.lemma_push_to_set_commute(model[i as int]);
        }
        keys.insert((items[i].0.clone(), items[i].1.clone()));
        i = i + 1;
        assert(keys.deep_view() =~= old(keys).deep_view().union(model.take(i as int).to_set()));
    }
    assert(model.take(i as int) =~= model);
}

/// The paths of `modules`.
pub open spec fn module_paths(modules: Seq<ListedModule>) -> Set<Seq<char>> {
    modules.map_values(|module: ListedModule| module.entry.path).to_set()
}

/// The paths of `modules`.
pub fn collect_paths(modules: &Vec<&GoListModule>) -> (r: SortedSet<String>)
    ensures
        r.deep_view() == module_paths(modules.deep_view()),
{
    let ghost model = modules.deep_view();
    let ghost path = |module: ListedModule| module.entry.path;
    let mut paths: SortedSet<String> = SortedSet::new();
    let mut i: usize = 0;
    assert(paths.deep_view() =~= model.take(0).map_values(path).to_set());
    while i < modules.len()
        invariant
            i <= modules.len(),
            model == modules.deep_view(),
            path == (|module: ListedModule| module.entry.path),
            paths.deep_view() == model.take(i as int).map_values(path).to_set(),
        decreases modules.len() - i,
    {
        proof {
            let prefix = model.take(i as int).map_values(path);
            assert(model[i as int] == modules@[i as int].deep_view());
            assert(model.take(i + 1).map_values(path) =~= prefix.push(path(model[i as int])));
            prefix.lemma_push_to_set_commute(path(model[i as int]));
        }
        paths.insert(modules[i].path.clone());
        i = i + 1;
    }
    assert(model.take(i as int) =~= model);
    paths
}

/// The directories of those of `modules` that are local, in order, as often as
/// they occur.
pub open spec fn local_directories_of(modules: Seq<ListedModule>) -> Seq<Seq<char>>
    decreases modules.len(),
{
    if modules.len() == 0 {
        seq![]
    } else {
        let earlier = local_directories_of(modules.drop_last());
        let entry = effective(modules.last());
        if is_local(entry) {
            earlier.push(entry.dir)
        } else {
            earlier
        }
    }
}

/// The directories of those of `modules` that are local, in order, as often as
/// they occur.
pub fn local_directories(modules: &Vec<&GoListModule>) -> (r: Vec<String>)
    ensures
        r.deep_view() == local_directories_of(modules.deep_view()),
{
    let ghost model = modules.deep_view();
    let mut out: Vec<String> = Vec::new();
    let mut i: usize = 0;
    assert(out.deep_view() =~= local_directories_of(model.take(0)));
    while i < modules.len()
        invariant
            i <= modules.len(),
            model == modules.deep_view(),
            out.deep_view() == local_directories_of(model.take(i as int)),
        decreases modules.len() - i,
    {
        let ghost before = out.deep_view();
        proof {
            assert(model.take(i + 1).drop_last() =~= model.take(i as int));
            assert(model.take(i + 1).last() == modules@[i as int].deep_view());
        }
        let entry = modules[i].effective();
        if entry.version.as_str().is_empty() && !entry.dir.as_str().is_empty() {
            out.push(entry.dir.clone());
            assert(out.deep_view() =~= before.push(entry.dir@));
        }
        i = i + 1;
    }
    assert(model.take(i as int) =~= model);
    out
}

/// The directories in which `packages` stand, where they belong to a module.
pub open spec fn package_directories_of(packages: Seq<ListedPackage>) -> Seq<Option<Seq<char>>> {
    packages.map_values(
        |package: ListedPackage|
            match package.module {
                Some(module) => Some(effective(module).dir),
                None => None,
            },
    )
}

/// The directories in which the modules of `packages` stand, package by package.
pub fn package_directories(packages: &Vec<GoListPackage>) -> (r: Vec<Option<String>>)
    ensures
        r.deep_view() == package_directories_of(packages.deep_view()),
{
    let ghost model = packages.deep_view();
    let mut out: Vec<Option<String>> = Vec::new();
    let mut i: usize = 0;
    while i < packages.len()
        invariant
            i <= packages.len(),
            model == packages.deep_view(),
            out.deep_view() == package_directories_of(model).take(i as int),
        decreases packages.len() - i,
    {
        let ghost before = out.deep_view();
        let directory = match &packages[i].module {
            Some(module) => Some(module.effective().dir.clone()),
            None => None,
        };
        out.push(directory);
        proof {
            assert(out.deep_view() =~= before.push(directory.deep_view()));
            assert(model[i as int] == packages@[i as int].deep_view());
        }
        i = i + 1;
        assert(out.deep_view() =~= package_directories_of(model).take(i as int));
    }
    assert(out.deep_view() =~= package_directories_of(model));
    out
}

/// The import paths of the commands among `packages`, in order.
pub open spec fn commands_of(packages: Seq<ListedPackage>) -> Seq<Seq<char>>
    decreases packages.len(),
{
    if packages.len() == 0 {
        seq![]
    } else {
        let earlier = commands_of(packages.drop_last());
        if packages.last().name == "main"@ {
            earlier.push(packages.last().import_path)
        } else {
            earlier
        }
    }
}

/// The import path of the command among `packages`, where there is exactly one.
pub open spec fn only_command(packages: Seq<ListedPackage>) -> Option<Seq<char>> {
    if commands_of(packages).len() == 1 {
        Some(commands_of(packages)[0])
    } else {
        None
    }
}

/// The import path of the command among `packages`, where there is exactly one.
pub fn main_package(packages: &Vec<GoListPackage>) -> (r: Option<String>)
    ensures
        r.deep_view() == only_command(packages.deep_view()),
{
    let ghost model = packages.deep_view();
    let mut mains: Vec<String> = Vec::new();
    let mut i: usize = 0;
    assert(mains.deep_view() =~= commands_of(model.take(0)));
    while i < packages.len()
        invariant
            i <= packages.len(),
            model == packages.deep_view(),
            mains.deep_view() == commands_of(model.take(i as int)),
        decreases packages.len() - i,
    {
        let ghost before = mains.deep_view();
        proof {
            assert(model.take(i + 1).drop_last() =~= model.take(i as int));
            assert(model.take(i + 1).last() == packages@[i as int].deep_view());
        }
        if same(packages[i].name.as_str(), "main") {
            mains.push(packages[i].import_path.clone());
            assert(mains.deep_view() =~= before.push(packages@[i as int].import_path@));
        }
        i = i + 1;
    }
    assert(model.take(i as int) =~= model);
    if mains.len() == 1 {
        Some(mains[0].clone())
    } else {
        None
    }
}

} // verus!
