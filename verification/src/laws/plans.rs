//! Laws of what a pruned workspace is made of: its `go.work`, its checksums, and the
//! plan that names them.
use crate::collections::sorted;
use crate::discovery::{discovered_outcome, facts_outcome, DiscoveryModel, FactsModel, ReportModel};
use crate::error::Failure;
use crate::laws::discovery::{discovery_keeps_what_is_known, facts_tell_of_listed_modules};
use crate::laws::listings::{
    lemma_filter_joined, lemma_unlines_joined, sum_lines_begin_with_their_key,
    sums_are_pruned_line_by_line,
};
use crate::laws::pruning::replacements_follow_requirements;
use crate::listing::{pruned_sum, sum_line_kept, unlines, IdentityModel};
use crate::path::PathModel;
use crate::prune::{
    closed, depends, lemma_closure_closed, lemma_closure_least, needed_replacements, plan_of,
    pruned_files, pruned_work, replace_lines, required_modules, retained_keys, retained_modules,
    sum_files, use_lines, use_path, use_paths, without_slashes, work_lines, work_version,
    PruneModel, SumModel,
};
use crate::syntax::{rendered, ReplacementModel, WorkModel};
use crate::text::blank;
use crate::workspace::ModuleModel;
use vstd::prelude::*;

verus! {

/// A module depends on what is listed for it and on nothing else.
pub proof fn listed_dependencies_count(
    dependencies: Map<Seq<char>, Seq<Seq<char>>>,
    a: Seq<char>,
    b: Seq<char>,
)
    ensures
        depends(dependencies, a, b) <==> dependencies.contains_key(a) && exists|i: int|
            0 <= i < dependencies[a].len() && #[trigger] dependencies[a][i] == b,
{
}

/// What stays is what is kept and whatever something that stays depends on; and
/// nothing stays but what a set must hold that is so made.
pub proof fn retained_is_least_closed_set(
    model: PruneModel,
    kept: Seq<Seq<char>>,
    set: Set<Seq<char>>,
    a: Seq<char>,
    i: int,
)
    ensures
        0 <= i < kept.len() ==> retained_modules(model, kept).contains(kept[i]),
        retained_modules(model, kept).contains(a) && model.dependencies.contains_key(a) && 0 <= i
            < model.dependencies[a].len() ==> retained_modules(model, kept).contains(
            model.dependencies[a][i],
        ),
        (forall|k: int| 0 <= k < kept.len() ==> set.contains(#[trigger] kept[k])) && (forall|
            x: Seq<char>,
            k: int,
        |
            set.contains(x) && model.dependencies.contains_key(x) && 0 <= k
                < model.dependencies[x].len() ==> set.contains(
                #[trigger] model.dependencies[x][k],
            )) ==> retained_modules(model, kept).subset_of(set),
{
    let edges = model.dependencies;
    lemma_closure_closed(edges, kept.to_set());
    if 0 <= i < kept.len() {
        assert(kept.to_set().contains(kept[i]));
    }
    if edges.contains_key(a) && 0 <= i < edges[a].len() {
        assert(depends(edges, a, edges[a][i]));
    }
    if (forall|k: int| 0 <= k < kept.len() ==> set.contains(#[trigger] kept[k])) && (forall|
        x: Seq<char>,
        k: int,
    |
        set.contains(x) && edges.contains_key(x) && 0 <= k < edges[x].len() ==> set.contains(
            #[trigger] edges[x][k],
        )) {
        assert(kept.to_set().subset_of(set));
        assert(closed(edges, set)) by {
            assert forall|x: Seq<char>, y: Seq<char>|
                set.contains(x) && #[trigger] depends(edges, x, y) implies set.contains(y) by {
                let k = choose|k: int| 0 <= k < edges[x].len() && edges[x][k] == y;
                assert(set.contains(edges[x][k]));
            }
        }
        lemma_closure_least(edges, kept.to_set(), set);
    }
}

/// A `use` directive names the root by a dot, and any other directory behind a dot and
/// a slash; slashes at the end do not matter.
pub proof fn use_names_directories(directory: Seq<char>)
    ensures
        use_path(seq![]) == seq!['.'],
        directory.len() > 0 && directory.last() != '/' ==> use_path(directory) == seq!['.', '/']
            + directory,
        use_path(directory.push('/')) == use_path(directory),
{
    reveal_strlit(".");
    reveal_strlit("./");
    assert("."@ =~= seq!['.']);
    assert("./"@ =~= seq!['.', '/']);
    assert(without_slashes(seq![]) == Seq::<char>::empty());
    assert(directory.push('/').drop_last() =~= directory);
    assert(without_slashes(directory.push('/')) == without_slashes(directory));
}

/// Directories are used one after the other, in the order of the modules; a module
/// without a known directory is left out.
pub proof fn directories_are_used_in_order(
    front: Seq<Seq<char>>,
    back: Seq<Seq<char>>,
    name: Seq<char>,
    directories: Map<Seq<char>, Seq<char>>,
)
    ensures
        use_paths(front + back, directories) == use_paths(front, directories) + use_paths(
            back,
            directories,
        ),
        directories.contains_key(name) ==> use_paths(seq![name], directories) == seq![
            use_path(directories[name]),
        ],
        !directories.contains_key(name) ==> use_paths(seq![name], directories) == Seq::<
            Seq<char>,
        >::empty(),
    decreases back.len(),
{
    reveal_with_fuel(use_paths, 2);
    let one = seq![name];
    assert(one.drop_last() =~= seq![]);
    assert(use_paths(seq![], directories) =~= seq![]);
    if back.len() == 0 {
        assert(front + back =~= front);
    } else {
        directories_are_used_in_order(front, back.drop_last(), name, directories);
        assert((front + back).drop_last() =~= front + back.drop_last());
        assert((front + back).last() == back.last());
        assert(use_paths(front + back, directories) =~= use_paths(front, directories) + use_paths(
            back,
            directories,
        ));
    }
}

/// What modules are built of is what some of them is built of.
pub proof fn required_modules_are_those_of_retained(
    retained: Set<Seq<char>>,
    requirements: Map<Seq<char>, Set<Seq<char>>>,
    name: Seq<char>,
    path: Seq<char>,
)
    ensures
        retained.contains(name) && requirements.contains_key(name) && requirements[name].contains(
            path,
        ) ==> required_modules(retained, requirements).contains(path),
        required_modules(retained, requirements).contains(path) ==> exists|other: Seq<char>|
            #![trigger requirements[other]]
            retained.contains(other) && requirements.contains_key(other)
                && requirements[other].contains(path),
{
}

/// Replacements are taken over one after the other, each exactly where what it
/// replaces is required.
pub proof fn replacements_are_taken_over_in_order(
    front: Seq<ReplacementModel>,
    back: Seq<ReplacementModel>,
    replacement: ReplacementModel,
    required: Set<Seq<char>>,
)
    ensures
        needed_replacements(front + back, required) == needed_replacements(front, required)
            + needed_replacements(back, required),
        required.contains(replacement.old) ==> needed_replacements(seq![replacement], required)
            == seq![replacement],
        !required.contains(replacement.old) ==> needed_replacements(seq![replacement], required)
            == Seq::<ReplacementModel>::empty(),
{
    let needed = |replacement: ReplacementModel| required.contains(replacement.old);
    lemma_filter_joined(front, back, needed);
    let none = Seq::<ReplacementModel>::empty();
    assert(none.filter(needed) =~= none) by {
        reveal(Seq::filter);
    }
    none.lemma_filter_push(replacement, needed);
    assert(none.push(replacement) =~= seq![replacement]);
}

/// Each replacement is written below a blank line, one after the other.
pub proof fn replacements_are_written_in_order(
    front: Seq<ReplacementModel>,
    back: Seq<ReplacementModel>,
    replacement: ReplacementModel,
)
    ensures
        replace_lines(front + back) == replace_lines(front) + replace_lines(back),
        replace_lines(seq![replacement]) == seq![Seq::<char>::empty(), rendered(replacement)],
    decreases back.len(),
{
    reveal_with_fuel(replace_lines, 2);
    let one = seq![replacement];
    assert(one.drop_last() =~= seq![]);
    assert(replace_lines(one) =~= seq![Seq::<char>::empty(), rendered(replacement)]);
    if back.len() == 0 {
        assert(front + back =~= front);
        assert(replace_lines(front) + replace_lines(back) =~= replace_lines(front));
    } else {
        replacements_are_written_in_order(front, back.drop_last(), replacement);
        assert((front + back).drop_last() =~= front + back.drop_last());
        assert((front + back).last() == back.last());
        assert(replace_lines(front + back) =~= replace_lines(front) + replace_lines(back));
    }
}

/// Lines are written one after the other, each with a line feed behind it.
pub proof fn lines_are_written_in_order(
    front: Seq<Seq<char>>,
    back: Seq<Seq<char>>,
    line: Seq<char>,
)
    ensures
        unlines(seq![]) == Seq::<char>::empty(),
        unlines(front + back) == unlines(front) + unlines(back),
        unlines(seq![line]) == line + seq!['\n'],
{
    lemma_unlines_joined(front, back);
    reveal_with_fuel(unlines, 2);
    reveal_strlit("\n");
    let one = seq![line];
    assert(one.drop_last() =~= seq![]);
    assert("\n"@ =~= seq!['\n']);
    assert(unlines(one) =~= line + seq!['\n']);
}

/// A pruned `go.work` names the version of Go that the workspace names, or the first
/// that knows workspaces; then the toolchain, where the workspace names one; then the
/// directories in a block; and then the replacements.
pub proof fn pruned_work_is_written_out(model: PruneModel, retained: Set<Seq<char>>)
    ensures
        pruned_work(model, retained) == "go "@ + (match model.go_version {
            Some(version) => version,
            None => "1.18"@,
        }) + "\n"@ + (match model.toolchain {
            Some(toolchain) => "toolchain "@ + toolchain + "\n"@,
            None => seq![],
        }) + "\n"@ + "use ("@ + "\n"@ + unlines(
            use_paths(sorted::<String>(retained), model.directories).map_values(
                |path: Seq<char>| seq!['\t'] + path,
            ),
        ) + ")"@ + "\n"@ + unlines(
            replace_lines(
                needed_replacements(
                    model.replacements,
                    required_modules(retained, model.requirements),
                ),
            ),
        ),
{
    reveal_strlit("\n");
    reveal_strlit("\t");
    assert("\n"@ =~= seq!['\n']);
    assert("\t"@ =~= seq!['\t']);
    let paths = use_paths(sorted::<String>(retained), model.directories);
    let needed = needed_replacements(
        model.replacements,
        required_modules(retained, model.requirements),
    );
    let tabbed = paths.map_values(|path: Seq<char>| seq!['\t'] + path);
    let tail = replace_lines(needed);
    let none = Seq::<char>::empty();
    let first = "go "@ + work_version(model);
    let chain = match model.toolchain {
        Some(toolchain) => seq!["toolchain "@ + toolchain],
        None => seq![],
    };
    assert(use_lines(paths) =~= tabbed);
    let a = seq![first] + chain;
    let b = a + seq![none, "use ("@];
    let c = b + tabbed;
    let d = c + seq![")"@];
    let e = d + tail;
    assert(work_lines(work_version(model), model.toolchain, paths, needed) =~= e);
    lines_are_written_in_order(seq![first], chain, first);
    lines_are_written_in_order(a, seq![none, "use ("@], none);
    lines_are_written_in_order(seq![none], seq!["use ("@], none);
    lines_are_written_in_order(seq![none], seq!["use ("@], "use ("@);
    assert(seq![none] + seq!["use ("@] =~= seq![none, "use ("@]);
    lines_are_written_in_order(b, tabbed, none);
    lines_are_written_in_order(c, seq![")"@], ")"@);
    lines_are_written_in_order(d, tail, none);
    if let Some(toolchain) = model.toolchain {
        lines_are_written_in_order(chain, chain, "toolchain "@ + toolchain);
    }
    assert(none + seq!['\n'] =~= seq!['\n']);
    let chained = match model.toolchain {
        Some(toolchain) => "toolchain "@ + toolchain + "\n"@,
        None => seq![],
    };
    assert(unlines(chain) =~= chained);
    assert(unlines(a) =~= first + "\n"@ + chained);
    assert(unlines(b) =~= first + "\n"@ + chained + "\n"@ + "use ("@ + "\n"@);
    assert(unlines(e) =~= unlines(b) + unlines(tabbed) + ")"@ + "\n"@ + unlines(tail));
}

proof fn lemma_line_among(all: Seq<Seq<char>>, k: int) -> (parts: (Seq<char>, Seq<char>))
    requires
        0 <= k < all.len(),
    ensures
        unlines(all) == parts.0 + all[k] + seq!['\n'] + parts.1,
{
    let front = all.take(k);
    let back = all.skip(k + 1);
    let rest = seq![all[k]] + back;
    assert(all =~= front + rest);
    lines_are_written_in_order(front, rest, all[k]);
    lines_are_written_in_order(seq![all[k]], back, all[k]);
    assert(unlines(all) =~= unlines(front) + all[k] + seq!['\n'] + unlines(back));
    (unlines(front), unlines(back))
}

proof fn lemma_replace_line(replacements: Seq<ReplacementModel>, k: int) -> (at: int)
    requires
        0 <= k < replacements.len(),
    ensures
        0 <= at < replace_lines(replacements).len(),
        replace_lines(replacements)[at] == rendered(replacements[k]),
{
    let front = replacements.take(k);
    let back = replacements.skip(k + 1);
    let rest = seq![replacements[k]] + back;
    assert(replacements =~= front + rest);
    replacements_are_written_in_order(front, rest, replacements[k]);
    replacements_are_written_in_order(seq![replacements[k]], back, replacements[k]);
    let at = replace_lines(front).len() as int + 1;
    assert(replace_lines(replacements)[at] == rendered(replacements[k]));
    at
}

/// A replacement of the workspace stands in the pruned `go.work`, on a line of its
/// own, where a module that stays is built of what it replaces.
pub proof fn pruned_work_keeps_replacements(
    model: PruneModel,
    retained: Set<Seq<char>>,
    name: Seq<char>,
    i: int,
) -> (parts: (Seq<char>, Seq<char>))
    requires
        0 <= i < model.replacements.len(),
        retained.contains(name),
        model.requirements.contains_key(name),
        model.requirements[name].contains(model.replacements[i].old),
    ensures
        pruned_work(model, retained) == parts.0 + rendered(model.replacements[i]) + seq!['\n']
            + parts.1,
{
    let replacement = model.replacements[i];
    let needed = needed_replacements(
        model.replacements,
        required_modules(retained, model.requirements),
    );
    replacements_follow_requirements(model, retained, replacement);
    assert(model.replacements.contains(replacement));
    let k = choose|k: int| 0 <= k < needed.len() && needed[k] == replacement;
    let at = lemma_replace_line(needed, k);
    let parts = lemma_line_among(replace_lines(needed), at);
    pruned_work_is_written_out(model, retained);
    let tail = unlines(replace_lines(needed));
    let all = pruned_work(model, retained);
    let front = all.take(all.len() - tail.len());
    assert(all =~= front + tail);
    assert(all =~= (front + parts.0) + rendered(replacement) + seq!['\n'] + parts.1);
    (front + parts.0, parts.1)
}

/// The pruned `go.sum` files come one after the other, in the order of the modules,
/// each pruned for the keys of its module; a module without one has none.
pub proof fn sums_come_in_order(
    front: Seq<Seq<char>>,
    back: Seq<Seq<char>>,
    name: Seq<char>,
    sums: Map<Seq<char>, SumModel>,
)
    ensures
        sum_files(front + back, sums) == sum_files(front, sums) + sum_files(back, sums),
        sums.contains_key(name) ==> sum_files(seq![name], sums) == seq![
            (sums[name].path, pruned_sum(sums[name].contents, sums[name].keys)),
        ],
        !sums.contains_key(name) ==> sum_files(seq![name], sums) == Seq::<
            (Seq<char>, Seq<char>),
        >::empty(),
    decreases back.len(),
{
    reveal_with_fuel(sum_files, 2);
    let one = seq![name];
    assert(one.drop_last() =~= seq![]);
    assert(sum_files(seq![], sums) =~= seq![]);
    if back.len() == 0 {
        assert(front + back =~= front);
    } else {
        sums_come_in_order(front, back.drop_last(), name, sums);
        assert((front + back).drop_last() =~= front + back.drop_last());
        assert((front + back).last() == back.last());
        assert(sum_files(front + back, sums) =~= sum_files(front, sums) + sum_files(back, sums));
    }
}

/// The `go.work.sum` is pruned for the keys of all modules that stay and for no
/// others.
pub proof fn retained_keys_are_those_of_retained(
    retained: Set<Seq<char>>,
    sums: Map<Seq<char>, SumModel>,
    name: Seq<char>,
    key: (Seq<char>, Seq<char>),
)
    ensures
        retained.contains(name) && sums.contains_key(name) && sums[name].keys.contains(key)
            ==> retained_keys(retained, sums).contains(key),
        retained_keys(retained, sums).contains(key) ==> exists|other: Seq<char>|
            #![trigger sums[other]]
            retained.contains(other) && sums.contains_key(other) && sums[other].keys.contains(key),
{
}

/// Without a `go.work` only the `go.sum` files are written; with one it comes behind
/// them, and behind it the `go.work.sum` where there is one.
pub proof fn root_files_are_written(model: PruneModel, retained: Set<Seq<char>>)
    ensures
        !model.workspace ==> pruned_files(model, retained) == sum_files(
            sorted::<String>(retained),
            model.module_sums,
        ),
        model.workspace && model.work_sum is None ==> pruned_files(model, retained) == sum_files(
            sorted::<String>(retained),
            model.module_sums,
        ) + seq![("go.work"@, pruned_work(model, retained))],
        model.workspace ==> (model.work_sum matches Some(contents) ==> pruned_files(model, retained)
            == sum_files(sorted::<String>(retained), model.module_sums) + seq![
            ("go.work"@, pruned_work(model, retained)),
            (
                "go.work.sum"@,
                pruned_sum(contents, retained_keys(retained, model.module_sums)),
            ),
        ]),
{
    let sums = sum_files(sorted::<String>(retained), model.module_sums);
    let work = ("go.work"@, pruned_work(model, retained));
    assert(sums.push(work) =~= sums + seq![work]);
    if let Some(contents) = model.work_sum {
        let sum = (
            "go.work.sum"@,
            pruned_sum(contents, retained_keys(retained, model.module_sums)),
        );
        assert(sums.push(work).push(sum) =~= sums + seq![work, sum]);
    }
}

/// There is a plan exactly where something is kept; it names the files of all modules
/// that stay, and copies nothing.
pub proof fn plan_covers_retained(model: PruneModel, kept: Seq<Seq<char>>)
    ensures
        plan_of(model, kept) is Some <==> kept.len() > 0,
        plan_of(model, kept) matches Some(plan) ==> plan.root_files == pruned_files(
            model,
            retained_modules(model, kept),
        ) && plan.copy_paths == Seq::<Seq<char>>::empty(),
{
}

/// A replacement that the `go.work` names stands in the pruned `go.work` of every plan
/// that keeps a module built of what it replaces.
pub proof fn discovered_replacements_are_kept(
    known: DiscoveryModel,
    root: PathModel,
    modules: Seq<ModuleModel>,
    work: WorkModel,
    work_sum: Option<Seq<char>>,
    prune: PruneModel,
    kept: Seq<Seq<char>>,
    name: Seq<char>,
    i: int,
) -> (parts: (Seq<char>, Seq<char>))
    requires
        discovered_outcome(known, root, modules, work, true, work_sum) matches Ok(found)
            && found.prune == prune,
        kept.len() > 0,
        retained_modules(prune, kept).contains(name),
        known.requirements.contains_key(name),
        0 <= i < work.replacements.len(),
        known.requirements[name].contains(work.replacements[i].old),
    ensures
        plan_of(prune, kept) matches Some(plan) && plan.root_files.contains(
            (
                "go.work"@,
                parts.0 + rendered(work.replacements[i]) + seq!['\n'] + parts.1,
            ),
        ),
{
    discovery_keeps_what_is_known(known, root, modules, work, true, work_sum);
    let retained = retained_modules(prune, kept);
    let parts = pruned_work_keeps_replacements(prune, retained, name, i);
    plan_covers_retained(prune, kept);
    root_files_are_written(prune, retained);
    let files = pruned_files(prune, retained);
    let sums = sum_files(sorted::<String>(retained), prune.module_sums);
    assert(files[sums.len() as int] == ("go.work"@, pruned_work(prune, retained)));
    parts
}

/// A line of a `go.sum` about a module that is listed, or about its `go.mod`, stays
/// when the `go.sum` is pruned for what the module is built of.
pub proof fn sum_lines_of_listed_modules_stay(
    root: PathModel,
    work: WorkModel,
    modules: Seq<ModuleModel>,
    module: ModuleModel,
    compiler: Seq<char>,
    report: ReportModel,
    facts: FactsModel,
    i: int,
    rest: Seq<char>,
    front: Seq<char>,
    back: Seq<char>,
)
    requires
        facts_outcome(root, work, modules, module, compiler, report) == Ok::<FactsModel, Failure>(
            facts,
        ),
        0 <= i < report.listed.len(),
        report.listed[i].module matches Some(listed) && !listed.main && listed.entry.path.len() > 0
            && listed.entry.version.len() > 0 && (forall|k: int|
            0 <= k < listed.entry.path.len() ==> !blank(#[trigger] listed.entry.path[k])) && (
        forall|k: int|
            0 <= k < listed.entry.version.len() ==> !blank(#[trigger] listed.entry.version[k])),
        front.len() > 0 ==> front.last() == '\n',
        rest.len() > 0 && rest.last() != '\r',
        forall|k: int| 0 <= k < rest.len() ==> #[trigger] rest[k] != '\n',
    ensures
        ({
            let entry = report.listed[i].module->0.entry;
            let line = entry.path + " "@ + (entry.version + "/go.mod"@) + " "@ + rest;
            pruned_sum(front + (line + seq!['\n'] + back), facts.sum_keys) == pruned_sum(
                front,
                facts.sum_keys,
            ) + (line + seq!['\n'] + pruned_sum(back, facts.sum_keys))
        }),
        (forall|start: Seq<char>|
            report.listed[i].module->0.entry.version != #[trigger] (start + "/go.mod"@)) ==> {
            let entry = report.listed[i].module->0.entry;
            let line = entry.path + " "@ + entry.version + " "@ + rest;
            pruned_sum(front + (line + seq!['\n'] + back), facts.sum_keys) == pruned_sum(
                front,
                facts.sum_keys,
            ) + (line + seq!['\n'] + pruned_sum(back, facts.sum_keys))
        },
{
    let listed = report.listed[i].module->0;
    let path = listed.entry.path;
    let version = listed.entry.version;
    let keys = facts.sum_keys;
    let any = IdentityModel { key: path, version, human_name: None };
    facts_tell_of_listed_modules(
        root,
        work,
        modules,
        module,
        compiler,
        report,
        facts,
        path,
        version,
        any,
    );
    assert(keys.contains((path, version)));
    sum_lines_begin_with_their_key(path, version, rest, keys);
    reveal_strlit("/go.mod");
    let manifest = version + "/go.mod"@;
    assert forall|k: int| 0 <= k < manifest.len() implies !blank(#[trigger] manifest[k]) by {
        if k < version.len() {
            assert(manifest[k] == version[k]);
        } else {
            assert(manifest[k] == "/go.mod"@[k - version.len()]);
        }
    }
    lemma_sum_line(path, manifest, rest, front, back, keys);
    if forall|start: Seq<char>| version != #[trigger] (start + "/go.mod"@) {
        lemma_sum_line(path, version, rest, front, back, keys);
    }
}

proof fn lemma_sum_line(
    path: Seq<char>,
    second: Seq<char>,
    rest: Seq<char>,
    front: Seq<char>,
    back: Seq<char>,
    keys: Set<(Seq<char>, Seq<char>)>,
)
    requires
        sum_line_kept(path + " "@ + second + " "@ + rest, keys),
        front.len() > 0 ==> front.last() == '\n',
        forall|k: int| 0 <= k < path.len() ==> !blank(#[trigger] path[k]),
        forall|k: int| 0 <= k < second.len() ==> !blank(#[trigger] second[k]),
        forall|k: int| 0 <= k < rest.len() ==> #[trigger] rest[k] != '\n',
        rest.len() > 0 && rest.last() != '\r',
    ensures
        ({
            let line = path + " "@ + second + " "@ + rest;
            pruned_sum(front + (line + seq!['\n'] + back), keys) == pruned_sum(front, keys) + (line
                + seq!['\n'] + pruned_sum(back, keys))
        }),
{
    reveal_strlit(" ");
    assert(" "@ =~= seq![' ']);
    let line = path + " "@ + second + " "@ + rest;
    assert forall|k: int| 0 <= k < line.len() implies #[trigger] line[k] != '\n' by {
        let a = path.len() as int;
        let b = a + 1 + second.len();
        if k < a {
            assert(line[k] == path[k]);
        } else if a < k < b {
            assert(line[k] == second[k - a - 1]);
        } else if k > b {
            assert(line[k] == rest[k - b - 1]);
        }
    }
    assert(line.last() == rest.last());
    sums_are_pruned_line_by_line(front, line + seq!['\n'] + back, line, keys);
    sums_are_pruned_line_by_line(line + seq!['\n'], back, line, keys);
    assert(front + (line + seq!['\n'] + back) =~= front + (line + seq!['\n']) + back);
}

} // verus!
