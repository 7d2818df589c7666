//! What a part of a Go workspace needs to stand on its own.
use crate::collections::{sorted, NameMap, SortedSet};
use crate::error::{outcome, Error, Failure};
use crate::listing::{add_keys, prune_sum, pruned_sum, unlines};
use crate::names::{GO_WORK, GO_WORK_SUM};
use crate::syntax::{rendered, Replacement, ReplacementModel};
use crate::text::{chars_of, same, text_of};
use vstd::prelude::*;
use vstd::set_lib::*;

verus! {

/// `a` names `b` among its dependencies.
pub open spec fn depends(
    dependencies: Map<Seq<char>, Seq<Seq<char>>>,
    a: Seq<char>,
    b: Seq<char>,
) -> bool {
    dependencies.contains_key(a) && dependencies[a].contains(b)
}

/// What can be reached from `kept` over at most `n` dependencies.
pub open spec fn within(
    dependencies: Map<Seq<char>, Seq<Seq<char>>>,
    kept: Set<Seq<char>>,
    n: nat,
) -> Set<Seq<char>>
    decreases n,
{
    if n == 0 {
        kept
    } else {
        let nearer = within(dependencies, kept, (n - 1) as nat);
        Set::new(
            |b: Seq<char>|
                nearer.contains(b) || exists|a: Seq<char>|
                    #![trigger nearer.contains(a)]
                    nearer.contains(a) && depends(dependencies, a, b),
        )
    }
}

/// What can be reached from `kept` over dependencies.
pub open spec fn closure(
    dependencies: Map<Seq<char>, Seq<Seq<char>>>,
    kept: Set<Seq<char>>,
) -> Set<Seq<char>> {
    Set::new(|b: Seq<char>| exists|n: nat| #[trigger] within(dependencies, kept, n).contains(b))
}

/// Whatever a member of `set` depends on is a member too.
pub open spec fn closed(
    dependencies: Map<Seq<char>, Seq<Seq<char>>>,
    set: Set<Seq<char>>,
) -> bool {
    forall|a: Seq<char>, b: Seq<char>|
        set.contains(a) && #[trigger] depends(dependencies, a, b) ==> set.contains(b)
}

/// The closure holds what is kept, and whatever it depends on.
pub proof fn lemma_closure_closed(
    dependencies: Map<Seq<char>, Seq<Seq<char>>>,
    kept: Set<Seq<char>>,
)
    ensures
        kept.subset_of(closure(dependencies, kept)),
        closed(dependencies, closure(dependencies, kept)),
{
    let all = closure(dependencies, kept);
    assert forall|a: Seq<char>| kept.contains(a) implies all.contains(a) by {
        assert(within(dependencies, kept, 0).contains(a));
    }
    assert forall|a: Seq<char>, b: Seq<char>|
        all.contains(a) && #[trigger] depends(dependencies, a, b) implies all.contains(b) by {
        let n = choose|n: nat| within(dependencies, kept, n).contains(a);
        assert(within(dependencies, kept, n + 1).contains(b));
    }
}

proof fn lemma_within_least(
    dependencies: Map<Seq<char>, Seq<Seq<char>>>,
    kept: Set<Seq<char>>,
    set: Set<Seq<char>>,
    n: nat,
)
    requires
        kept.subset_of(set),
        closed(dependencies, set),
    ensures
        within(dependencies, kept, n).subset_of(set),
    decreases n,
{
    if n > 0 {
        lemma_within_least(dependencies, kept, set, (n - 1) as nat);
    }
}

/// The closure is the least set that holds what is kept and whatever it depends
/// on.
pub proof fn lemma_closure_least(
    dependencies: Map<Seq<char>, Seq<Seq<char>>>,
    kept: Set<Seq<char>>,
    set: Set<Seq<char>>,
)
    requires
        kept.subset_of(set),
        closed(dependencies, set),
    ensures
        closure(dependencies, kept).subset_of(set),
{
    assert forall|b: Seq<char>| closure(dependencies, kept).contains(b) implies set.contains(b) by {
        let n = choose|n: nat| within(dependencies, kept, n).contains(b);
        lemma_within_least(dependencies, kept, set, n);
    }
}

/// Everything that something depends on.
spec fn targets(dependencies: Map<Seq<char>, Seq<Seq<char>>>) -> Set<Seq<char>> {
    Set::new(|b: Seq<char>| exists|a: Seq<char>| #[trigger] depends(dependencies, a, b))
}

proof fn lemma_targets_finite(dependencies: Map<Seq<char>, Seq<Seq<char>>>)
    requires
        dependencies.dom().finite(),
    ensures
        targets(dependencies).finite(),
    decreases dependencies.dom().len(),
{
    if dependencies.dom().len() == 0 {
        assert forall|b: Seq<char>| !targets(dependencies).contains(b) by {
            if targets(dependencies).contains(b) {
                let a = choose|a: Seq<char>| depends(dependencies, a, b);
                assert(dependencies.dom().contains(a));
            }
        }
        assert(targets(dependencies) =~= Set::empty());
    } else {
        let a = dependencies.dom().choose();
        let rest = dependencies.remove(a);
        lemma_targets_finite(rest);
        vstd::seq_lib::seq_to_set_is_finite(dependencies[a]);
        let bound = dependencies[a].to_set().union(targets(rest));
        assert forall|b: Seq<char>| targets(dependencies).contains(b) implies bound.contains(b) by {
            let x = choose|x: Seq<char>| depends(dependencies, x, b);
            if x != a {
                assert(depends(rest, x, b));
            }
        }
        lemma_set_subset_finite(bound, targets(dependencies));
    }
}

/// Only finitely much can be reached from what is kept.
pub proof fn lemma_closure_finite(
    dependencies: Map<Seq<char>, Seq<Seq<char>>>,
    kept: Set<Seq<char>>,
)
    requires
        dependencies.dom().finite(),
        kept.finite(),
    ensures
        closure(dependencies, kept).finite(),
{
    let bound = kept.union(targets(dependencies));
    lemma_targets_finite(dependencies);
    lemma_closure_least(dependencies, kept, bound);
    lemma_set_subset_finite(bound, closure(dependencies, kept));
}

/// All that can be reached from `kept` over `dependencies`.
pub fn close_over(dependencies: &NameMap<Vec<String>>, kept: &[String]) -> (r: SortedSet<String>)
    ensures
        r.deep_view() == closure(dependencies.deep_view(), kept.deep_view().to_set()),
{
    let ghost edges = dependencies.deep_view();
    let ghost start = kept.deep_view();
    let ghost bound = start.to_set().union(targets(edges));
    let mut retained: SortedSet<String> = SortedSet::new();
    let mut queue: Vec<String> = Vec::new();
    let mut k: usize = 0;
    assert(start.take(0).to_set() =~= Set::empty());
    while k < kept.len()
        invariant
            k <= kept.len(),
            start == kept.deep_view(),
            retained.deep_view() == start.take(k as int).to_set(),
            queue.deep_view() == start.take(k as int),
        decreases kept.len() - k,
    {
        proof {
            assert(start.take(k + 1) =~= start.take(k as int).push(start[k as int]));
            start.take(k as int).lemma_push_to_set_commute(start[k as int]);
        }
        let ghost before = queue.deep_view();
        retained.insert(kept[k].clone());
        queue.push(kept[k].clone());
        assert(queue.deep_view() =~= before.push(start[k as int]));
        k = k + 1;
    }
    proof {
        assert(start.take(k as int) =~= start);
        dependencies.lemma_finite();
        lemma_targets_finite(edges);
        vstd::seq_lib::seq_to_set_is_finite(start);
        lemma_closure_closed(edges, start.to_set());
        assert(retained.deep_view().subset_of(bound));
    }
    let mut i: usize = 0;
    while i < queue.len()
        invariant
            i <= queue.len(),
            edges == dependencies.deep_view(),
            start == kept.deep_view(),
            bound == start.to_set().union(targets(edges)),
            bound.finite(),
            closed(edges, closure(edges, start.to_set())),
            queue.deep_view().to_set() == retained.deep_view(),
            start.to_set().subset_of(retained.deep_view()),
            retained.deep_view().subset_of(closure(edges, start.to_set())),
            retained.deep_view().subset_of(bound),
            forall|j: int, b: Seq<char>|
                0 <= j < i && #[trigger] depends(edges, queue.deep_view()[j], b)
                    ==> retained.deep_view().contains(b),
        decreases bound.len() - retained.deep_view().len(), queue.len() - i,
    {
        let ghost package = queue.deep_view()[i as int];
        let ghost size = retained.deep_view().len();
        let ghost waiting = queue.deep_view();
        proof {
            assert(queue.deep_view().to_set().contains(package));
            lemma_set_subset_finite(bound, retained.deep_view());
        }
        if let Some(found) = dependencies.get(queue[i].as_str()) {
            let ghost names = found.deep_view();
            let ghost had = retained.deep_view();
            let mut j: usize = 0;
            while j < found.len()
                invariant
                    i < waiting.len(),
                    waiting[i as int] == package,
                    j <= found.len(),
                    names == found.deep_view(),
                    edges.contains_key(package),
                    edges[package] == names,
                    bound == start.to_set().union(targets(edges)),
                    bound.finite(),
                    closed(edges, closure(edges, start.to_set())),
                    closure(edges, start.to_set()).contains(package),
                    waiting.is_prefix_of(queue.deep_view()),
                    queue.deep_view().to_set() == retained.deep_view(),
                    had.subset_of(retained.deep_view()),
                    retained.deep_view().subset_of(closure(edges, start.to_set())),
                    retained.deep_view().subset_of(bound),
                    retained.deep_view().finite(),
                    size <= retained.deep_view().len(),
                    queue.len() == waiting.len() + (retained.deep_view().len() - size),
                    forall|m: int|
                        0 <= m < j ==> retained.deep_view().contains(#[trigger] names[m]),
                decreases found.len() - j,
            {
                let ghost all = queue.deep_view();
                proof {
                    assert(names[j as int] == found@[j as int]@);
                    assert(names.contains(names[j as int]));
                    assert(depends(edges, package, names[j as int]));
                }
                if retained.insert(found[j].clone()) {
                    queue.push(found[j].clone());
                    proof {
                        assert(queue.deep_view() =~= all.push(names[j as int]));
                        all.lemma_push_to_set_commute(names[j as int]);
                        assert(waiting =~= queue.deep_view().subrange(0, waiting.len() as int));
                    }
                } else {
                    assert(retained.deep_view() =~= all.to_set());
                }
                j = j + 1;
            }
            proof {
                assert forall|b: Seq<char>| #[trigger] depends(edges, package, b) implies
                    retained.deep_view().contains(b) by {
                    let m = choose|m: int| 0 <= m < names.len() && names[m] == b;
                    assert(retained.deep_view().contains(names[m]));
                }
            }
        }
        proof {
            lemma_len_subset(retained.deep_view(), bound);
            assert forall|j: int, b: Seq<char>|
                0 <= j < i + 1 && #[trigger] depends(edges, queue.deep_view()[j], b) implies
                retained.deep_view().contains(b) by {
                assert(queue.deep_view()[j] == waiting[j]);
                if j < i {
                    assert(depends(edges, waiting[j], b));
                }
            }
        }
        i = i + 1;
    }
    proof {
        let all = retained.deep_view();
        assert forall|a: Seq<char>, b: Seq<char>|
            all.contains(a) && #[trigger] depends(edges, a, b) implies all.contains(b) by {
            assert(queue.deep_view().contains(a));
            let j = choose|j: int| 0 <= j < queue.deep_view().len() && queue.deep_view()[j] == a;
            assert(depends(edges, queue.deep_view()[j], b));
        }
        lemma_closure_least(edges, start.to_set(), all);
        assert(all =~= closure(edges, start.to_set()));
    }
    retained
}

/// Whether `names` holds `name`.
fn is_among(names: &[String], name: &str) -> (r: bool)
    ensures
        r == names.deep_view().contains(name@),
{
    let mut i: usize = 0;
    while i < names.len()
        invariant
            i <= names.len(),
            forall|j: int| 0 <= j < i ==> names.deep_view()[j] != name@,
        decreases names.len() - i,
    {
        if same(names[i].as_str(), name) {
            assert(names.deep_view()[i as int] == name@);
            return true;
        }
        i = i + 1;
    }
    false
}

/// Adds all of `more` to `names`.
fn add_names(names: &mut SortedSet<String>, more: &SortedSet<String>)
    ensures
        final(names).deep_view() == old(names).deep_view().union(more.deep_view()),
{
    let items = more.as_vec();
    let ghost model = items.deep_view();
    let mut i: usize = 0;
    assert(names.deep_view() =~= old(names).deep_view().union(model.take(0).to_set()));
    while i < items.len()
        invariant
            i <= items.len(),
            model == items.deep_view(),
            names.deep_view() == old(names).deep_view().union(model.take(i as int).to_set()),
        decreases items.len() - i,
    {
        let ghost prefix = model.take(i as int);
        proof {
            assert(model.take(i + 1) =~= prefix.push(model[i as int]));
            prefix.lemma_push_to_set_commute(model[i as int]);
        }
        names.insert(items[i].clone());
        i = i + 1;
        assert(names.deep_view() =~= old(names).deep_view().union(model.take(i as int).to_set()));
    }
    assert(model.take(i as int) =~= model);
}

/// The checksums of a module: where its `go.sum` stands, what it holds, and
/// which modules and versions the module needs of it.
pub struct ModuleSumKnowledge {
    pub path: String,
    pub contents: String,
    pub keys: SortedSet<(String, String)>,
}

/// The model of a `ModuleSumKnowledge`.
pub struct SumModel {
    pub path: Seq<char>,
    pub contents: Seq<char>,
    pub keys: Set<(Seq<char>, Seq<char>)>,
}

impl DeepView for ModuleSumKnowledge {
    type V = SumModel;

    open spec fn deep_view(&self) -> SumModel {
        SumModel {
            path: self.path@,
            contents: self.contents@,
            keys: self.keys.deep_view(),
        }
    }
}

/// A domain of packages that are pruned together.
#[derive(Debug, Clone, Copy, PartialEq, Eq, Structural)]
pub enum PruneDomainId {
    Go,
}

/// What pruning needs to know of a workspace: per module its directory, the
/// modules of the workspace that it imports, all modules that it is built of
/// and its checksums; and what the `go.work` and the `go.work.sum` say.
pub struct GoPruneKnowledge {
    pub directories: NameMap<String>,
    pub dependencies: NameMap<Vec<String>>,
    pub go_version: Option<String>,
    pub toolchain: Option<String>,
    pub replacements: Vec<Replacement>,
    pub requirements: NameMap<SortedSet<String>>,
    pub module_sums: NameMap<ModuleSumKnowledge>,
    pub work_sum: Option<String>,
    pub workspace: bool,
}

/// The model of a `GoPruneKnowledge`.
pub struct PruneModel {
    pub directories: Map<Seq<char>, Seq<char>>,
    pub dependencies: Map<Seq<char>, Seq<Seq<char>>>,
    pub go_version: Option<Seq<char>>,
    pub toolchain: Option<Seq<char>>,
    pub replacements: Seq<ReplacementModel>,
    pub requirements: Map<Seq<char>, Set<Seq<char>>>,
    pub module_sums: Map<Seq<char>, SumModel>,
    pub work_sum: Option<Seq<char>>,
    pub workspace: bool,
}

impl DeepView for GoPruneKnowledge {
    type V = PruneModel;

    open spec fn deep_view(&self) -> PruneModel {
        PruneModel {
            directories: self.directories.deep_view(),
            dependencies: self.dependencies.deep_view(),
            go_version: self.go_version.deep_view(),
            toolchain: self.toolchain.deep_view(),
            replacements: self.replacements.deep_view(),
            requirements: self.requirements.deep_view(),
            module_sums: self.module_sums.deep_view(),
            work_sum: self.work_sum.deep_view(),
            workspace: self.workspace,
        }
    }
}

/// What a pruned workspace holds besides the packages asked for: more packages,
/// and files at the root by their path and contents.
#[derive(Debug, PartialEq, Eq)]
pub struct PrunePlan {
    pub extra_packages: Vec<String>,
    pub root_files: Vec<(String, String)>,
    pub copy_paths: Vec<String>,
}

/// The model of a `PrunePlan`.
pub struct PlanModel {
    pub extra_packages: Seq<Seq<char>>,
    pub root_files: Seq<(Seq<char>, Seq<char>)>,
    pub copy_paths: Seq<Seq<char>>,
}

impl DeepView for PrunePlan {
    type V = PlanModel;

    open spec fn deep_view(&self) -> PlanModel {
        PlanModel {
            extra_packages: self.extra_packages.deep_view(),
            root_files: self.root_files.deep_view(),
            copy_paths: self.copy_paths.deep_view(),
        }
    }
}

/// `directory` without the slashes at its end.
pub open spec fn without_slashes(directory: Seq<char>) -> Seq<char>
    decreases directory.len(),
{
    if directory.len() > 0 && directory.last() == '/' {
        without_slashes(directory.drop_last())
    } else {
        directory
    }
}

/// How a `use` directive names `directory`.
pub open spec fn use_path(directory: Seq<char>) -> Seq<char> {
    let bare = without_slashes(directory);
    if bare.len() == 0 {
        "."@
    } else {
        "./"@ + bare
    }
}

/// The directories of those of `names` that have one, as `use` directives name
/// them.
pub open spec fn use_paths(names: Seq<Seq<char>>, directories: Map<Seq<char>, Seq<char>>) -> Seq<
    Seq<char>,
>
    decreases names.len(),
{
    if names.len() == 0 {
        seq![]
    } else {
        let earlier = use_paths(names.drop_last(), directories);
        if directories.contains_key(names.last()) {
            earlier.push(use_path(directories[names.last()]))
        } else {
            earlier
        }
    }
}

/// One line per directory.
pub open spec fn use_lines(paths: Seq<Seq<char>>) -> Seq<Seq<char>> {
    paths.map_values(|path: Seq<char>| "\t"@ + path)
}

/// All modules that `retained` are built of.
pub open spec fn required_modules(
    retained: Set<Seq<char>>,
    requirements: Map<Seq<char>, Set<Seq<char>>>,
) -> Set<Seq<char>> {
    Set::new(
        |module: Seq<char>|
            exists|name: Seq<char>|
                #![trigger requirements[name]]
                retained.contains(name) && requirements.contains_key(name)
                    && requirements[name].contains(module),
    )
}

/// Those of `replacements` that replace one of `required`.
pub open spec fn needed_replacements(
    replacements: Seq<ReplacementModel>,
    required: Set<Seq<char>>,
) -> Seq<ReplacementModel> {
    replacements.filter(|replacement: ReplacementModel| required.contains(replacement.old))
}

/// A blank line and a directive per replacement.
pub open spec fn replace_lines(replacements: Seq<ReplacementModel>) -> Seq<Seq<char>>
    decreases replacements.len(),
{
    if replacements.len() == 0 {
        seq![]
    } else {
        replace_lines(replacements.drop_last()) + seq![
            Seq::<char>::empty(),
            rendered(replacements.last()),
        ]
    }
}

/// The version of Go that a pruned `go.work` names.
pub open spec fn work_version(model: PruneModel) -> Seq<char> {
    match model.go_version {
        Some(version) => version,
        None => "1.18"@,
    }
}

/// The lines of a `go.work`: the version, the toolchain where there is one, the
/// block of directories, and the replacements.
pub open spec fn work_lines(
    version: Seq<char>,
    toolchain: Option<Seq<char>>,
    paths: Seq<Seq<char>>,
    replacements: Seq<ReplacementModel>,
) -> Seq<Seq<char>> {
    seq!["go "@ + version] + (match toolchain {
        Some(toolchain) => seq!["toolchain "@ + toolchain],
        None => seq![],
    }) + seq![Seq::<char>::empty(), "use ("@] + use_lines(paths) + seq![")"@] + replace_lines(
        replacements,
    )
}

/// The `go.work` of the part `retained` of a workspace.
pub open spec fn pruned_work(model: PruneModel, retained: Set<Seq<char>>) -> Seq<char> {
    unlines(
        work_lines(
            work_version(model),
            model.toolchain,
            use_paths(sorted::<String>(retained), model.directories),
            needed_replacements(
                model.replacements,
                required_modules(retained, model.requirements),
            ),
        ),
    )
}

/// The pruned `go.sum` of each of `names` that has one.
pub open spec fn sum_files(names: Seq<Seq<char>>, sums: Map<Seq<char>, SumModel>) -> Seq<
    (Seq<char>, Seq<char>),
>
    decreases names.len(),
{
    if names.len() == 0 {
        seq![]
    } else {
        let earlier = sum_files(names.drop_last(), sums);
        if sums.contains_key(names.last()) {
            let sum = sums[names.last()];
            earlier.push((sum.path, pruned_sum(sum.contents, sum.keys)))
        } else {
            earlier
        }
    }
}

/// The `go.sum` keys of all of `retained`.
pub open spec fn retained_keys(
    retained: Set<Seq<char>>,
    sums: Map<Seq<char>, SumModel>,
) -> Set<(Seq<char>, Seq<char>)> {
    Set::new(
        |key: (Seq<char>, Seq<char>)|
            exists|name: Seq<char>|
                #![trigger sums[name]]
                retained.contains(name) && sums.contains_key(name) && sums[name].keys.contains(
                    key,
                ),
    )
}

/// The files at the root of the part `retained` of a workspace: the pruned
/// `go.sum` of each module, and in a workspace the pruned `go.work` and
/// `go.work.sum`.
pub open spec fn pruned_files(model: PruneModel, retained: Set<Seq<char>>) -> Seq<
    (Seq<char>, Seq<char>),
> {
    let sums = sum_files(sorted::<String>(retained), model.module_sums);
    if model.workspace {
        let work = sums.push((GO_WORK@, pruned_work(model, retained)));
        match model.work_sum {
            Some(contents) => work.push(
                (
                    GO_WORK_SUM@,
                    pruned_sum(contents, retained_keys(retained, model.module_sums)),
                ),
            ),
            None => work,
        }
    } else {
        sums
    }
}

/// The modules that stay when `kept` are asked for.
pub open spec fn retained_modules(model: PruneModel, kept: Seq<Seq<char>>) -> Set<Seq<char>> {
    closure(model.dependencies, kept.to_set())
}

/// What is needed besides `kept`: whatever they depend on, and the files at the
/// root; nothing where nothing is kept.
pub open spec fn plan_of(model: PruneModel, kept: Seq<Seq<char>>) -> Option<PlanModel> {
    let retained = retained_modules(model, kept);
    if kept.len() == 0 {
        None
    } else {
        Some(
            PlanModel {
                extra_packages: sorted::<String>(retained).filter(
                    |name: Seq<char>| !kept.contains(name),
                ),
                root_files: pruned_files(model, retained),
                copy_paths: seq![],
            },
        )
    }
}

/// `all`, each with a line feed behind it.
fn unlined(all: &Vec<String>) -> (r: String)
    ensures
        r@ == unlines(all.deep_view()),
{
    let ghost model = all.deep_view();
    let mut out = String::new();
    let mut i: usize = 0;
    while i < all.len()
        invariant
            i <= all.len(),
            model == all.deep_view(),
            out@ == unlines(model.take(i as int)),
        decreases all.len() - i,
    {
        assert(model.take(i + 1).drop_last() =~= model.take(i as int));
        out.append(all[i].as_str());
        out.append("\n");
        i = i + 1;
    }
    assert(model.take(i as int) =~= model);
    out
}

/// How a `use` directive names `directory`.
fn path_in_use(directory: &str) -> (r: String)
    ensures
        r@ == use_path(directory@),
{
    let chars = chars_of(directory);
    let mut end: usize = chars.len();
    assert(chars@.take(end as int) =~= chars@);
    while end > 0 && chars[end - 1] == '/'
        invariant
            end <= chars.len(),
            without_slashes(chars@) == without_slashes(chars@.take(end as int)),
        decreases end,
    {
        assert(chars@.take(end as int).drop_last() =~= chars@.take(end - 1));
        end = end - 1;
    }
    let bare = text_of(&chars, 0, end);
    assert(bare@ =~= chars@.take(end as int));
    if end == 0 {
        ".".to_owned()
    } else {
        let mut path = "./".to_owned();
        path.append(bare.as_str());
        path
    }
}

impl GoPruneKnowledge {
    /// The pruned `go.sum` of each of `names` that has one.
    fn pruned_sums(&self, names: &Vec<String>) -> (r: Vec<(String, String)>)
        ensures
            r.deep_view() == sum_files(names.deep_view(), self.deep_view().module_sums),
    {
        let ghost model = names.deep_view();
        let ghost sums = self.module_sums.deep_view();
        let mut files: Vec<(String, String)> = Vec::new();
        let mut i: usize = 0;
        assert(files.deep_view() =~= sum_files(model.take(0), sums));
        while i < names.len()
            invariant
                i <= names.len(),
                model == names.deep_view(),
                sums == self.module_sums.deep_view(),
                files.deep_view() == sum_files(model.take(i as int), sums),
            decreases names.len() - i,
        {
            let ghost before = files.deep_view();
            assert(model.take(i + 1).drop_last() =~= model.take(i as int));
            if let Some(sum) = self.module_sums.get(names[i].as_str()) {
                let file = (
                    sum.path.clone(),
                    prune_sum(sum.contents.as_str(), &sum.keys),
                );
                files.push(file);
                assert(files.deep_view() =~= before.push(file.deep_view()));
            }
            i = i + 1;
        }
        assert(model.take(i as int) =~= model);
        files
    }

    /// The `go.sum` keys of all of `retained`.
    fn all_keys(&self, retained: &SortedSet<String>) -> (r: SortedSet<(String, String)>)
        ensures
            r.deep_view() == retained_keys(retained.deep_view(), self.deep_view().module_sums),
    {
        let names = retained.as_vec();
        let ghost model = names.deep_view();
        let ghost sums = self.module_sums.deep_view();
        let mut keys: SortedSet<(String, String)> = SortedSet::new();
        let mut i: usize = 0;
        assert(keys.deep_view() =~= retained_keys(model.take(0).to_set(), sums));
        while i < names.len()
            invariant
                i <= names.len(),
                model == names.deep_view(),
                sums == self.module_sums.deep_view(),
                keys.deep_view() == retained_keys(model.take(i as int).to_set(), sums),
            decreases names.len() - i,
        {
            let ghost earlier = model.take(i as int).to_set();
            let ghost name = model[i as int];
            let ghost before = keys.deep_view();
            proof {
                assert(model.take(i + 1) =~= model.take(i as int).push(name));
                model.take(i as int).lemma_push_to_set_commute(name);
            }
            if let Some(sum) = self.module_sums.get(names[i].as_str()) {
                add_keys(&mut keys, &sum.keys);
            }
            proof {
                let next = earlier.insert(name);
                assert forall|key: (Seq<char>, Seq<char>)|
                    retained_keys(next, sums).contains(key) <==> keys.deep_view().contains(key) by {
                    if retained_keys(next, sums).contains(key) {
                        let x = choose|x: Seq<char>|
                            #![trigger sums[x]]
                            next.contains(x) && sums.contains_key(x) && sums[x].keys.contains(key);
                        if x != name {
                            assert(earlier.contains(x));
                            assert(before.contains(key));
                        }
                    }
                    if before.contains(key) {
                        let x = choose|x: Seq<char>|
                            #![trigger sums[x]]
                            earlier.contains(x) && sums.contains_key(x) && sums[x].keys.contains(
                                key,
                            );
                        assert(next.contains(x));
                    }
                    if sums.contains_key(name) && sums[name].keys.contains(key) {
                        assert(next.contains(name));
                    }
                }
                assert(keys.deep_view() =~= retained_keys(next, sums));
            }
            i = i + 1;
        }
        assert(model.take(i as int) =~= model);
        keys
    }

    /// All modules that `retained` are built of.
    fn all_required(&self, retained: &SortedSet<String>) -> (r: SortedSet<String>)
        ensures
            r.deep_view() == required_modules(
                retained.deep_view(),
                self.deep_view().requirements,
            ),
    {
        let names = retained.as_vec();
        let ghost model = names.deep_view();
        let ghost requirements = self.requirements.deep_view();
        let mut required: SortedSet<String> = SortedSet::new();
        let mut i: usize = 0;
        assert(required.deep_view() =~= required_modules(model.take(0).to_set(), requirements));
        while i < names.len()
            invariant
                i <= names.len(),
                model == names.deep_view(),
                requirements == self.requirements.deep_view(),
                required.deep_view() == required_modules(
                    model.take(i as int).to_set(),
                    requirements,
                ),
            decreases names.len() - i,
        {
            let ghost earlier = model.take(i as int).to_set();
            let ghost name = model[i as int];
            let ghost before = required.deep_view();
            proof {
                assert(model.take(i + 1) =~= model.take(i as int).push(name));
                model.take(i as int).lemma_push_to_set_commute(name);
            }
            if let Some(more) = self.requirements.get(names[i].as_str()) {
                add_names(&mut required, more);
            }
            proof {
                let next = earlier.insert(name);
                assert forall|module: Seq<char>|
                    required_modules(next, requirements).contains(module)
                        <==> required.deep_view().contains(module) by {
                    if required_modules(next, requirements).contains(module) {
                        let x = choose|x: Seq<char>|
                            #![trigger requirements[x]]
                            next.contains(x) && requirements.contains_key(x)
                                && requirements[x].contains(module);
                        if x != name {
                            assert(earlier.contains(x));
                            assert(before.contains(module));
                        }
                    }
                    if before.contains(module) {
                        let x = choose|x: Seq<char>|
                            #![trigger requirements[x]]
                            earlier.contains(x) && requirements.contains_key(x)
                                && requirements[x].contains(module);
                        assert(next.contains(x));
                    }
                    if requirements.contains_key(name) && requirements[name].contains(module) {
                        assert(next.contains(name));
                    }
                }
                assert(required.deep_view() =~= required_modules(next, requirements));
            }
            i = i + 1;
        }
        assert(model.take(i as int) =~= model);
        required
    }

    /// The directories of those of `names` that have one, as `use` directives
    /// name them.
    fn used_paths(&self, names: &Vec<String>) -> (r: Vec<String>)
        ensures
            r.deep_view() == use_paths(names.deep_view(), self.deep_view().directories),
    {
        let ghost model = names.deep_view();
        let ghost directories = self.directories.deep_view();
        let mut paths: Vec<String> = Vec::new();
        let mut i: usize = 0;
        assert(paths.deep_view() =~= use_paths(model.take(0), directories));
        while i < names.len()
            invariant
                i <= names.len(),
                model == names.deep_view(),
                directories == self.directories.deep_view(),
                paths.deep_view() == use_paths(model.take(i as int), directories),
            decreases names.len() - i,
        {
            let ghost before = paths.deep_view();
            assert(model.take(i + 1).drop_last() =~= model.take(i as int));
            if let Some(directory) = self.directories.get(names[i].as_str()) {
                let path = path_in_use(directory.as_str());
                paths.push(path);
                assert(paths.deep_view() =~= before.push(path@));
            }
            i = i + 1;
        }
        assert(model.take(i as int) =~= model);
        paths
    }

    /// The `go.work` of the part `retained` of the workspace.
    fn pruned_work_file(&self, retained: &SortedSet<String>) -> (r: String)
        ensures
            r@ == pruned_work(self.deep_view(), retained.deep_view()),
    {
        let ghost model = self.deep_view();
        let mut all: Vec<String> = Vec::new();
        let mut go = "go ".to_owned();
        match &self.go_version {
            Some(version) => go.append(version.as_str()),
            None => go.append("1.18"),
        }
        all.push(go);
        assert(all.deep_view() =~= seq!["go "@ + work_version(model)]);
        if let Some(toolchain) = &self.toolchain {
            let ghost before = all.deep_view();
            let mut line = "toolchain ".to_owned();
            line.append(toolchain.as_str());
            all.push(line);
            assert(all.deep_view() =~= before + seq!["toolchain "@ + toolchain@]);
        }
        let ghost start = all.deep_view();
        all.push(String::new());
        all.push("use (".to_owned());
        let ghost opened = all.deep_view();
        assert(opened =~= start + seq![Seq::<char>::empty(), "use ("@]);
        let paths = self.used_paths(retained.as_vec());
        let mut i: usize = 0;
        assert(all.deep_view() =~= opened + use_lines(paths.deep_view()).take(0));
        while i < paths.len()
            invariant
                i <= paths.len(),
                all.deep_view() == opened + use_lines(paths.deep_view()).take(i as int),
            decreases paths.len() - i,
        {
            let ghost before = all.deep_view();
            let mut line = "\t".to_owned();
            line.append(paths[i].as_str());
            all.push(line);
            proof {
                assert(all.deep_view() =~= before.push(line@));
                assert(use_lines(paths.deep_view())[i as int] == line@);
                assert(all.deep_view() =~= opened + use_lines(paths.deep_view()).take(i + 1));
            }
            i = i + 1;
        }
        assert(use_lines(paths.deep_view()).take(i as int) =~= use_lines(paths.deep_view()));
        all.push(")".to_owned());
        let ghost closed_block = all.deep_view();
        assert(closed_block =~= opened + use_lines(paths.deep_view()) + seq![")"@]);
        let required = self.all_required(retained);
        let ghost replacements = self.replacements.deep_view();
        let ghost needed = |replacement: ReplacementModel|
            required.deep_view().contains(replacement.old);
        let mut k: usize = 0;
        proof {
            assert(replacements.take(0).filter(needed) =~= seq![]) by {
                reveal(Seq::filter);
            }
            assert(all.deep_view() =~= closed_block + replace_lines(
                replacements.take(0).filter(needed),
            ));
        }
        while k < self.replacements.len()
            invariant
                k <= self.replacements.len(),
                replacements == self.replacements.deep_view(),
                needed == (|replacement: ReplacementModel|
                    required.deep_view().contains(replacement.old)),
                all.deep_view() == closed_block + replace_lines(
                    replacements.take(k as int).filter(needed),
                ),
            decreases self.replacements.len() - k,
        {
            let ghost before = all.deep_view();
            let ghost done = replacements.take(k as int).filter(needed);
            let ghost replacement = replacements[k as int];
            proof {
                assert(replacement == self.replacements@[k as int].deep_view());
                assert(replacements.take(k + 1) =~= replacements.take(k as int).push(replacement));
                replacements.take(k as int).lemma_filter_push(replacement, needed);
                assert(done.push(replacement).drop_last() =~= done);
            }
            if required.contains(&self.replacements[k].old) {
                all.push(String::new());
                let line = self.replacements[k].render();
                all.push(line);
                proof {
                    assert(all.deep_view() =~= before + seq![
                        Seq::<char>::empty(),
                        rendered(replacement),
                    ]);
                    assert(all.deep_view() =~= closed_block + replace_lines(
                        done.push(replacement),
                    ));
                }
            }
            k = k + 1;
        }
        proof {
            assert(replacements.take(k as int) =~= replacements);
            assert(all.deep_view() =~= work_lines(
                work_version(model),
                model.toolchain,
                paths.deep_view(),
                needed_replacements(replacements, required.deep_view()),
            ));
        }
        unlined(&all)
    }

    pub fn id(&self) -> (r: PruneDomainId)
        ensures
            r == PruneDomainId::Go,
    {
        PruneDomainId::Go
    }

    /// What is needed besides `kept_packages`: whatever they depend on, and the
    /// files at the root; nothing where nothing is kept.
    pub fn plan(&self, kept_packages: &[String]) -> (r: Result<Option<PrunePlan>, Error>)
        ensures
            outcome(r) == Ok::<Option<PlanModel>, Failure>(
                plan_of(self.deep_view(), kept_packages.deep_view()),
            ),
    {
        if kept_packages.len() == 0 {
            return Ok(None);
        }
        let ghost kept = kept_packages.deep_view();
        let ghost extra = |name: Seq<char>| !kept.contains(name);
        let retained = close_over(&self.dependencies, kept_packages);
        let names = retained.as_vec();
        let ghost model = names.deep_view();
        let mut extra_packages: Vec<String> = Vec::new();
        let mut i: usize = 0;
        proof {
            assert(model.take(0).filter(extra) =~= seq![]) by {
                reveal(Seq::filter);
            }
            assert(extra_packages.deep_view() =~= model.take(0).filter(extra));
        }
        while i < names.len()
            invariant
                i <= names.len(),
                model == names.deep_view(),
                kept == kept_packages.deep_view(),
                extra == (|name: Seq<char>| !kept.contains(name)),
                extra_packages.deep_view() == model.take(i as int).filter(extra),
            decreases names.len() - i,
        {
            let ghost before = extra_packages.deep_view();
            proof {
                assert(model.take(i + 1) =~= model.take(i as int).push(model[i as int]));
                model.take(i as int).lemma_filter_push(model[i as int], extra);
            }
            if !is_among(kept_packages, names[i].as_str()) {
                extra_packages.push(names[i].clone());
                assert(extra_packages.deep_view() =~= before.push(model[i as int]));
            }
            i = i + 1;
        }
        assert(model.take(i as int) =~= model);
        let mut root_files = self.pruned_sums(names);
        if self.workspace {
            let ghost sums = root_files.deep_view();
            let work = self.pruned_work_file(&retained);
            root_files.push((GO_WORK.to_owned(), work));
            assert(root_files.deep_view() =~= sums.push((GO_WORK@, work@)));
            if let Some(contents) = &self.work_sum {
                let ghost before = root_files.deep_view();
                let keys = self.all_keys(&retained);
                let sum = prune_sum(contents.as_str(), &keys);
                root_files.push((GO_WORK_SUM.to_owned(), sum));
                assert(root_files.deep_view() =~= before.push((GO_WORK_SUM@, sum@)));
            }
        }
        let copy_paths: Vec<String> = Vec::new();
        assert(copy_paths.deep_view() =~= seq![]);
        Ok(Some(PrunePlan { extra_packages, root_files, copy_paths }))
    }
}

} // verus!
