//! Laws of pruning: what stays, and what stays of its files.
use crate::collections::{ascending, lemma_sorted_lists, sorted};
use crate::laws::manifests::{is_line, lines_are_read_back};
use crate::listing::{pruned_sum, sum_line_kept};
use crate::order::{text_before, Ordered};
use crate::prune::{
    lemma_closure_closed, lemma_closure_finite, lemma_closure_least, needed_replacements, plan_of,
    pruned_files, required_modules, retained_keys, retained_modules, sum_files, use_path,
    use_paths, PlanModel, PruneModel, SumModel,
};
use crate::syntax::ReplacementModel;
use crate::text::{lemma_line_len, line_len, lines};
use vstd::prelude::*;

verus! {

proof fn lemma_lines_have_no_feed(text: Seq<char>)
    ensures
        forall|i: int, j: int|
            0 <= i < lines(text).len() && 0 <= j < lines(text)[i].len()
                ==> #[trigger] lines(text)[i][j] != '\n',
    decreases text.len(),
{
    if text.len() > 0 {
        lemma_line_len(text);
        let n = line_len(text) as int;
        let all = lines(text);
        if n < text.len() {
            let rest = lines(text.skip(n + 1));
            lemma_lines_have_no_feed(text.skip(n + 1));
            assert forall|i: int, j: int| 0 <= i < all.len() && 0 <= j < all[i].len() implies
                #[trigger] all[i][j] != '\n' by {
                if i == 0 {
                    assert(all[0][j] == text[j]);
                } else {
                    assert(all[i] == rest[i - 1]);
                }
            }
        } else {
            assert forall|i: int, j: int| 0 <= i < all.len() && 0 <= j < all[i].len() implies
                #[trigger] all[i][j] != '\n' by {
                assert(all[0][j] == text[j]);
            }
        }
    }
}

proof fn lemma_filter_twice<A>(all: Seq<A>, first: spec_fn(A) -> bool, second: spec_fn(A) -> bool)
    ensures
        all.filter(first).filter(second) == all.filter(|a: A| first(a) && second(a)),
    decreases all.len(),
{
    reveal(Seq::filter);
    let both = |a: A| first(a) && second(a);
    if all.len() > 0 {
        let rest = all.drop_last();
        let last = all.last();
        lemma_filter_twice(rest, first, second);
        assert(all =~= rest.push(last));
        rest.lemma_filter_push(last, first);
        rest.lemma_filter_push(last, both);
        if first(last) {
            rest.filter(first).lemma_filter_push(last, second);
        }
    }
}

/// Those lines of `contents` that are about one of `keys`.
pub open spec fn kept_lines(contents: Seq<char>, keys: Set<(Seq<char>, Seq<char>)>) -> Seq<
    Seq<char>,
> {
    lines(contents).filter(|line: Seq<char>| sum_line_kept(line, keys))
}

/// No line of `contents` that is about one of `keys` ends in a carriage return
/// besides its line ending.
pub open spec fn ends_cleanly(contents: Seq<char>, keys: Set<(Seq<char>, Seq<char>)>) -> bool {
    forall|i: int|
        0 <= i < lines(contents).len() && sum_line_kept(#[trigger] lines(contents)[i], keys)
            ==> lines(contents)[i].last() != '\r'
}

/// A pruned `go.sum` holds the lines about the keys asked for, in order, and no
/// others.
pub proof fn pruned_sum_holds_kept_lines(
    contents: Seq<char>,
    keys: Set<(Seq<char>, Seq<char>)>,
)
    requires
        ends_cleanly(contents, keys),
    ensures
        lines(pruned_sum(contents, keys)) == kept_lines(contents, keys),
{
    let kept = |line: Seq<char>| sum_line_kept(line, keys);
    let all = lines(contents);
    let some = kept_lines(contents, keys);
    lemma_lines_have_no_feed(contents);
    assert forall|i: int| 0 <= i < some.len() implies is_line(#[trigger] some[i]) by {
        all.lemma_filter_pred(kept, i);
        all.lemma_filter_contains_rev(kept, some[i]);
        let k = choose|k: int| 0 <= k < all.len() && all[k] == some[i];
        assert(sum_line_kept(all[k], keys));
        assert forall|j: int| 0 <= j < some[i].len() implies #[trigger] some[i][j] != '\n' by {
            assert(all[k][j] != '\n');
        }
    }
    lines_are_read_back(some);
}

/// Pruning a `go.sum` twice is pruning it once, for the keys of both times. So
/// pruning again for the same keys changes nothing.
pub proof fn sum_is_pruned_once(
    contents: Seq<char>,
    first: Set<(Seq<char>, Seq<char>)>,
    second: Set<(Seq<char>, Seq<char>)>,
)
    requires
        ends_cleanly(contents, first),
    ensures
        pruned_sum(pruned_sum(contents, first), second) == pruned_sum(
            contents,
            first.intersect(second),
        ),
        pruned_sum(pruned_sum(contents, first), first) == pruned_sum(contents, first),
{
    let one = |line: Seq<char>| sum_line_kept(line, first);
    let two = |line: Seq<char>| sum_line_kept(line, second);
    let both = |line: Seq<char>| sum_line_kept(line, first.intersect(second));
    pruned_sum_holds_kept_lines(contents, first);
    lemma_filter_twice(lines(contents), one, two);
    lemma_filter_twice(lines(contents), one, one);
    assert((|line: Seq<char>| one(line) && two(line)) =~= both);
    assert((|line: Seq<char>| one(line) && one(line)) =~= one);
}

/// Whatever a `go.sum` of a module that stays keeps, the `go.work.sum` keeps too.
pub proof fn work_sum_covers_modules(
    retained: Set<Seq<char>>,
    sums: Map<Seq<char>, SumModel>,
    name: Seq<char>,
    line: Seq<char>,
)
    requires
        retained.contains(name),
        sums.contains_key(name),
        sum_line_kept(line, sums[name].keys),
    ensures
        sum_line_kept(line, retained_keys(retained, sums)),
{
}

/// Keeping more never leaves less.
pub proof fn retained_grows_with_kept(
    model: PruneModel,
    fewer: Seq<Seq<char>>,
    more: Seq<Seq<char>>,
)
    requires
        fewer.to_set().subset_of(more.to_set()),
    ensures
        retained_modules(model, fewer).subset_of(retained_modules(model, more)),
{
    let all = retained_modules(model, more);
    lemma_closure_closed(model.dependencies, more.to_set());
    lemma_closure_least(model.dependencies, fewer.to_set(), all);
}

proof fn lemma_retained_lists(model: PruneModel, kept: Seq<Seq<char>>)
    requires
        model.dependencies.dom().finite(),
    ensures
        retained_modules(model, kept).finite(),
        ascending::<String>(sorted::<String>(retained_modules(model, kept))),
        sorted::<String>(retained_modules(model, kept)).to_set() == retained_modules(model, kept),
{
    vstd::seq_lib::seq_to_set_is_finite(kept);
    lemma_closure_finite(model.dependencies, kept.to_set());
    lemma_sorted_lists::<String>(retained_modules(model, kept));
}

proof fn lemma_filter_ascending(all: Seq<Seq<char>>, keep: spec_fn(Seq<char>) -> bool)
    requires
        ascending::<String>(all),
    ensures
        ascending::<String>(all.filter(keep)),
    decreases all.len(),
{
    reveal(Seq::filter);
    if all.len() > 0 {
        let rest = all.drop_last();
        let last = all.last();
        let some = rest.filter(keep);
        assert forall|i: int, j: int| 0 <= i < j < rest.len() implies text_before(
            #[trigger] rest[i],
            #[trigger] rest[j],
        ) by {
            assert(String::before(all[i], all[j]));
        }
        lemma_filter_ascending(rest, keep);
        assert(all =~= rest.push(last));
        rest.lemma_filter_push(last, keep);
        let whole = all.filter(keep);
        assert forall|i: int, j: int| 0 <= i < j < whole.len() implies text_before(
            #[trigger] whole[i],
            #[trigger] whole[j],
        ) by {
            if j < some.len() {
                assert(String::before(some[i], some[j]));
            } else {
                assert(whole[i] == some[i]);
                rest.lemma_filter_contains_rev(keep, some[i]);
                let k = choose|k: int| 0 <= k < rest.len() && rest[k] == some[i];
                assert(String::before(all[k], all[rest.len() as int]));
            }
        }
    }
}

/// What is kept and what is added to it are together the modules that stay; no
/// module is among both, and those that are added are in order.
pub proof fn kept_and_extra_stay(model: PruneModel, kept: Seq<Seq<char>>)
    requires
        model.dependencies.dom().finite(),
        kept.len() > 0,
    ensures
        plan_of(model, kept) is Some,
        kept.to_set().union(plan_of(model, kept)->0.extra_packages.to_set()) == retained_modules(
            model,
            kept,
        ),
        kept.to_set().disjoint(plan_of(model, kept)->0.extra_packages.to_set()),
        ascending::<String>(plan_of(model, kept)->0.extra_packages),
{
    let added = |name: Seq<char>| !kept.contains(name);
    let all = retained_modules(model, kept);
    let names = sorted::<String>(all);
    let extra = names.filter(added);
    lemma_retained_lists(model, kept);
    lemma_closure_closed(model.dependencies, kept.to_set());
    lemma_filter_ascending(names, added);
    assert forall|name: Seq<char>| extra.contains(name) <==> all.contains(name) && !kept.contains(
        name,
    ) by {
        if extra.contains(name) {
            names.lemma_filter_contains_rev(added, name);
            let k = choose|k: int| 0 <= k < extra.len() && extra[k] == name;
            names.lemma_filter_pred(added, k);
            assert(names.to_set().contains(name));
        }
        if all.contains(name) && !kept.contains(name) {
            assert(names.to_set().contains(name));
            let k = choose|k: int| 0 <= k < names.len() && names[k] == name;
            names.lemma_filter_contains(added, k);
        }
    }
    assert(kept.to_set().union(extra.to_set()) =~= all);
}

/// Only which modules are kept matters, not in which order or how often they are
/// named.
pub proof fn plan_depends_on_set(model: PruneModel, kept: Seq<Seq<char>>, other: Seq<Seq<char>>)
    requires
        kept.to_set() == other.to_set(),
    ensures
        plan_of(model, kept) == plan_of(model, other),
{
    assert forall|name: Seq<char>| kept.contains(name) <==> other.contains(name) by {
        assert(kept.to_set().contains(name) <==> kept.contains(name));
        assert(other.to_set().contains(name) <==> other.contains(name));
    }
    if kept.len() > 0 {
        assert(kept.contains(kept[0]));
    }
    if other.len() > 0 {
        assert(other.contains(other[0]));
    }
    assert((|name: Seq<char>| !kept.contains(name)) =~= (|name: Seq<char>| !other.contains(name)));
}

/// Pruning for what stays adds nothing more and writes the same files.
pub proof fn pruning_again_adds_nothing(model: PruneModel, kept: Seq<Seq<char>>)
    requires
        model.dependencies.dom().finite(),
        kept.len() > 0,
    ensures
        plan_of(model, kept + plan_of(model, kept)->0.extra_packages) == Some(
            PlanModel { extra_packages: seq![], ..plan_of(model, kept)->0 },
        ),
{
    let extra = plan_of(model, kept)->0.extra_packages;
    let both = kept + extra;
    let all = retained_modules(model, kept);
    kept_and_extra_stay(model, kept);
    lemma_retained_lists(model, kept);
    assert(both.to_set() =~= all) by {
        assert forall|name: Seq<char>| both.contains(name) <==> all.contains(name) by {
            assert(all.contains(name) <==> kept.to_set().contains(name) || extra.to_set().contains(
                name,
            ));
            if kept.contains(name) {
                let k = choose|k: int| 0 <= k < kept.len() && kept[k] == name;
                assert(both[k] == name);
            }
            if extra.contains(name) {
                let k = choose|k: int| 0 <= k < extra.len() && extra[k] == name;
                assert(both[k + kept.len()] == name);
            }
        }
    }
    lemma_closure_closed(model.dependencies, kept.to_set());
    lemma_closure_closed(model.dependencies, all);
    lemma_closure_least(model.dependencies, all, all);
    assert(retained_modules(model, both) =~= all);
    let added = |name: Seq<char>| !both.contains(name);
    let names = sorted::<String>(all);
    let rest = names.filter(added);
    if rest.len() > 0 {
        names.lemma_filter_pred(added, 0);
        assert(rest.contains(rest[0]));
        names.lemma_filter_contains_rev(added, rest[0]);
        assert(names.to_set().contains(rest[0]));
        assert(both.to_set().contains(rest[0]));
    }
    assert(rest =~= seq![]);
}

proof fn lemma_use_paths_hold(
    names: Seq<Seq<char>>,
    directories: Map<Seq<char>, Seq<char>>,
    name: Seq<char>,
)
    requires
        names.contains(name),
        directories.contains_key(name),
    ensures
        use_paths(names, directories).contains(use_path(directories[name])),
    decreases names.len(),
{
    let all = use_paths(names, directories);
    let earlier = use_paths(names.drop_last(), directories);
    if names.last() == name {
        assert(all.last() == use_path(directories[name]));
    } else {
        let k = choose|k: int| 0 <= k < names.len() && names[k] == name;
        assert(names.drop_last()[k] == name);
        lemma_use_paths_hold(names.drop_last(), directories, name);
        let m = choose|m: int| 0 <= m < earlier.len() && earlier[m] == use_path(directories[name]);
        assert(all[m] == use_path(directories[name]));
    }
}

proof fn lemma_sum_files_hold(
    names: Seq<Seq<char>>,
    sums: Map<Seq<char>, SumModel>,
    name: Seq<char>,
)
    requires
        names.contains(name),
        sums.contains_key(name),
    ensures
        sum_files(names, sums).contains(
            (sums[name].path, pruned_sum(sums[name].contents, sums[name].keys)),
        ),
    decreases names.len(),
{
    let file = (sums[name].path, pruned_sum(sums[name].contents, sums[name].keys));
    let all = sum_files(names, sums);
    let earlier = sum_files(names.drop_last(), sums);
    if names.last() == name {
        assert(all.last() == file);
    } else {
        let k = choose|k: int| 0 <= k < names.len() && names[k] == name;
        assert(names.drop_last()[k] == name);
        lemma_sum_files_hold(names.drop_last(), sums, name);
        let m = choose|m: int| 0 <= m < earlier.len() && earlier[m] == file;
        assert(all[m] == file);
    }
}

/// Each module that stays is used by the pruned `go.work`, where its directory is
/// known, and comes with its pruned `go.sum`, where it has one.
pub proof fn retained_modules_are_complete(
    model: PruneModel,
    kept: Seq<Seq<char>>,
    name: Seq<char>,
)
    requires
        model.dependencies.dom().finite(),
        retained_modules(model, kept).contains(name),
    ensures
        model.directories.contains_key(name) ==> use_paths(
            sorted::<String>(retained_modules(model, kept)),
            model.directories,
        ).contains(use_path(model.directories[name])),
        model.module_sums.contains_key(name) ==> pruned_files(
            model,
            retained_modules(model, kept),
        ).contains(
            (
                model.module_sums[name].path,
                pruned_sum(model.module_sums[name].contents, model.module_sums[name].keys),
            ),
        ),
{
    let all = retained_modules(model, kept);
    let names = sorted::<String>(all);
    lemma_retained_lists(model, kept);
    assert(names.to_set().contains(name));
    if model.directories.contains_key(name) {
        lemma_use_paths_hold(names, model.directories, name);
    }
    if model.module_sums.contains_key(name) {
        let sum = model.module_sums[name];
        let file = (sum.path, pruned_sum(sum.contents, sum.keys));
        let sums = sum_files(names, model.module_sums);
        lemma_sum_files_hold(names, model.module_sums, name);
        let k = choose|k: int| 0 <= k < sums.len() && sums[k] == file;
        assert(pruned_files(model, all)[k] == file);
    }
}

/// A replacement of the workspace stays exactly where a module that stays is
/// built of what it replaces.
pub proof fn replacements_follow_requirements(
    model: PruneModel,
    retained: Set<Seq<char>>,
    replacement: ReplacementModel,
)
    ensures
        needed_replacements(
            model.replacements,
            required_modules(retained, model.requirements),
        ).contains(replacement) <==> model.replacements.contains(replacement) && exists|
            name: Seq<char>,
        |
            #![trigger model.requirements[name]]
            retained.contains(name) && model.requirements.contains_key(name)
                && model.requirements[name].contains(replacement.old),
{
    let required = required_modules(retained, model.requirements);
    let needed = |replacement: ReplacementModel| required.contains(replacement.old);
    let some = needed_replacements(model.replacements, required);
    if some.contains(replacement) {
        let k = choose|k: int| 0 <= k < some.len() && some[k] == replacement;
        model.replacements.lemma_filter_pred(needed, k);
        model.replacements.lemma_filter_contains_rev(needed, replacement);
    }
    if model.replacements.contains(replacement) && required.contains(replacement.old) {
        let k = choose|k: int|
            0 <= k < model.replacements.len() && model.replacements[k] == replacement;
        model.replacements.lemma_filter_contains(needed, k);
    }
}

} // verus!
