//! Laws of what `go list` tells: modules, identities, checksums and commands.
use crate::error::Failure;
use crate::laws::texts::{
    blanks_split_words, line_feeds_split_lines, line_needs_no_ending, suffix_comes_off,
    unbroken_text_is_a_word,
};
use crate::listing::{
    all_sum_keys, commands_of, effective, identities_of, identity_outcome, local_directories_of,
    module_paths, modules_of, only_command, package_directories_of, pruned_sum, sum_keys,
    sum_line_kept, unlines, IdentityModel, ListedModule, ListedPackage,
};
use crate::text::{blank, lines, words};
use vstd::prelude::*;

verus! {

/// What stands for a module is its replacement where it has one, whatever the
/// module itself says.
pub proof fn replacement_stands_for_module(module: ListedModule)
    ensures
        module.replace matches Some(replacement) ==> effective(module) == replacement.entry,
        module.replace is None ==> effective(module) == module.entry,
{
}

/// The main module has no identity, whatever else is said of it.
pub proof fn main_module_has_no_identity(module: ListedModule)
    requires
        module.main,
    ensures
        identity_outcome(module) == Ok::<Option<IdentityModel>, Failure>(None),
        sum_keys(module) == Set::<(Seq<char>, Seq<char>)>::empty(),
{
    assert(sum_keys(module) =~= Set::empty());
}

/// A module that nothing replaces is known by its path, and by its version with both
/// checksums; a directory has no identity, and without version or a checksum there
/// is an error that names the module.
pub proof fn module_is_known_by_its_checksums(module: ListedModule)
    requires
        !module.main,
        module.replace is None,
    ensures
        module.entry.version.len() == 0 && module.entry.dir.len() > 0 ==> identity_outcome(module)
            == Ok::<Option<IdentityModel>, Failure>(None),
        module.entry.version.len() == 0 && module.entry.dir.len() == 0 ==> identity_outcome(module)
            == Err::<Option<IdentityModel>, Failure>(
            Failure::MissingChecksum { path: module.entry.path, version: module.entry.version },
        ),
        module.entry.version.len() > 0 && (module.entry.sum.len() == 0
            || module.entry.go_mod_sum.len() == 0) ==> identity_outcome(module) == Err::<
            Option<IdentityModel>,
            Failure,
        >(Failure::MissingChecksum { path: module.entry.path, version: module.entry.version }),
        module.entry.version.len() > 0 && module.entry.sum.len() > 0
            && module.entry.go_mod_sum.len() > 0 ==> identity_outcome(module) == Ok::<
            Option<IdentityModel>,
            Failure,
        >(
            Some(
                IdentityModel {
                    key: module.entry.path,
                    version: module.entry.version + seq!['#'] + module.entry.sum + seq!['#']
                        + module.entry.go_mod_sum,
                    human_name: Some(module.entry.path),
                },
            ),
        ),
{
    reveal_strlit("#");
    assert("#"@ =~= seq!['#']);
}

/// A replaced module has the identity that its replacement would have, but for the
/// key, which names both, and for the name that is shown, which is its own.
pub proof fn replaced_module_is_known_by_both(module: ListedModule, replacement: ListedModule)
    requires
        !module.main,
        module.replace == Some(Box::new(replacement)),
    ensures
        identity_outcome(module) == (match identity_outcome(
            (ListedModule { main: false, replace: None, ..replacement }),
        ) {
            Ok(Some(identity)) => Ok(
                Some(
                    IdentityModel {
                        key: module.entry.path + seq!['=', '>'] + replacement.entry.path,
                        version: identity.version,
                        human_name: Some(module.entry.path),
                    },
                ),
            ),
            Ok(None) => Ok(None),
            Err(failure) => Err(failure),
        }),
{
    reveal_strlit("=>");
    assert("=>"@ =~= seq!['=', '>']);
}

/// Packages tell of their modules one after the other; one without a module tells of
/// none.
pub proof fn packages_tell_of_modules(
    front: Seq<ListedPackage>,
    back: Seq<ListedPackage>,
    package: ListedPackage,
)
    ensures
        modules_of(front + back) == modules_of(front) + modules_of(back),
        package.module matches Some(module) ==> modules_of(seq![package]) == seq![module],
        package.module is None ==> modules_of(seq![package]) == Seq::<ListedModule>::empty(),
    decreases back.len(),
{
    reveal_with_fuel(modules_of, 2);
    let one = seq![package];
    assert(one.drop_last() =~= seq![]);
    assert(one.last() == package);
    if let Some(module) = package.module {
        assert(modules_of(one) =~= seq![module]);
    }
    if back.len() == 0 {
        assert(front + back =~= front);
        assert(modules_of(front) + modules_of(back) =~= modules_of(front));
    } else {
        packages_tell_of_modules(front, back.drop_last(), package);
        assert((front + back).drop_last() =~= front + back.drop_last());
        assert((front + back).last() == back.last());
        assert(modules_of(front + back) =~= modules_of(front) + modules_of(back));
    }
}

/// A module is told of exactly where some package belongs to it.
pub proof fn told_modules_have_packages(packages: Seq<ListedPackage>, module: ListedModule)
    ensures
        modules_of(packages).contains(module) <==> exists|i: int|
            0 <= i < packages.len() && (#[trigger] packages[i]).module == Some(module),
    decreases packages.len(),
{
    let all = modules_of(packages);
    if packages.len() > 0 {
        let rest = packages.drop_last();
        let earlier = modules_of(rest);
        told_modules_have_packages(rest, module);
        if all.contains(module) {
            let k = choose|k: int| 0 <= k < all.len() && all[k] == module;
            if k < earlier.len() {
                assert(earlier[k] == module);
                let i = choose|i: int|
                    0 <= i < rest.len() && (#[trigger] rest[i]).module == Some(module);
                assert(packages[i].module == Some(module));
            } else {
                assert(packages[packages.len() - 1].module == Some(module));
            }
        }
        if exists|i: int| 0 <= i < packages.len() && (#[trigger] packages[i]).module == Some(module) {
            let i = choose|i: int|
                0 <= i < packages.len() && (#[trigger] packages[i]).module == Some(module);
            if i < rest.len() {
                assert(rest[i].module == Some(module));
                let k = choose|k: int| 0 <= k < earlier.len() && earlier[k] == module;
                assert(all[k] == module);
            } else {
                assert(all.last() == module);
            }
        }
    }
}

/// The identities of modules are those of each of them and no others; one without an
/// identity does not matter, and an error stays.
pub proof fn identities_add_up(modules: Seq<ListedModule>, module: ListedModule)
    ensures
        identities_of(seq![]) == Ok::<Set<IdentityModel>, Failure>(Set::empty()),
        identities_of(modules) matches Err(failure) ==> identities_of(modules.push(module)) == Err::<
            Set<IdentityModel>,
            Failure,
        >(failure),
        identities_of(modules) matches Ok(all) ==> identities_of(modules.push(module)) == (
        match identity_outcome(module) {
            Ok(Some(identity)) => Ok(all.insert(identity)),
            Ok(None) => Ok(all),
            Err(failure) => Err(failure),
        }),
{
    assert(modules.push(module).drop_last() =~= modules);
    assert(modules.push(module).last() == module);
}

/// Among the identities of modules are those of each of them, and no others.
pub proof fn identities_come_from_modules(modules: Seq<ListedModule>, identity: IdentityModel)
    ensures
        identities_of(modules) matches Ok(all) ==> (all.contains(identity) <==> exists|i: int|
            0 <= i < modules.len() && identity_outcome(#[trigger] modules[i]) == Ok::<
                Option<IdentityModel>,
                Failure,
            >(Some(identity))),
    decreases modules.len(),
{
    if modules.len() > 0 {
        let rest = modules.drop_last();
        identities_come_from_modules(rest, identity);
        if let Ok(all) = identities_of(modules) {
            let wanted = Ok::<Option<IdentityModel>, Failure>(Some(identity));
            if all.contains(identity) {
                if identity_outcome(modules.last()) == wanted {
                    assert(identity_outcome(modules[modules.len() - 1]) == wanted);
                } else {
                    let i = choose|i: int|
                        0 <= i < rest.len() && identity_outcome(#[trigger] rest[i]) == wanted;
                    assert(identity_outcome(modules[i]) == wanted);
                }
            }
            if exists|i: int|
                0 <= i < modules.len() && identity_outcome(#[trigger] modules[i]) == wanted {
                let i = choose|i: int|
                    0 <= i < modules.len() && identity_outcome(#[trigger] modules[i]) == wanted;
                if i < rest.len() {
                    assert(identity_outcome(rest[i]) == wanted);
                }
            }
        }
    }
}

/// Every module from outside that a module is built of has its key in the `go.sum`,
/// by its own path and version and by those of what replaces it; nothing else is a
/// key.
pub proof fn every_module_has_its_keys(
    modules: Seq<ListedModule>,
    path: Seq<char>,
    version: Seq<char>,
)
    ensures
        all_sum_keys(modules).contains((path, version)) <==> version.len() > 0 && exists|i: int|
            0 <= i < modules.len() && !(#[trigger] modules[i]).main && ((modules[i].entry.path
                == path && modules[i].entry.version == version) || (modules[i].replace matches Some(
                replacement,
            ) && replacement.entry.path == path && replacement.entry.version == version)),
{
    let key = (path, version);
    if all_sum_keys(modules).contains(key) {
        let i = choose|i: int|
            0 <= i < modules.len() && #[trigger] sum_keys(modules[i]).contains(key);
        assert(!modules[i].main);
    }
    if version.len() > 0 && exists|i: int|
        0 <= i < modules.len() && !(#[trigger] modules[i]).main && ((modules[i].entry.path == path
            && modules[i].entry.version == version) || (modules[i].replace matches Some(replacement)
            && replacement.entry.path == path && replacement.entry.version == version)) {
        let i = choose|i: int|
            0 <= i < modules.len() && !(#[trigger] modules[i]).main && ((modules[i].entry.path
                == path && modules[i].entry.version == version) || (modules[i].replace matches Some(
                replacement,
            ) && replacement.entry.path == path && replacement.entry.version == version));
        assert(sum_keys(modules[i]).contains(key));
    }
}

/// The keys of one module are its own path and version and those of what replaces
/// it, each where it has a version; the main module has none.
pub proof fn module_keys_are_paths_and_versions(
    module: ListedModule,
    path: Seq<char>,
    version: Seq<char>,
)
    ensures
        sum_keys(module).contains((path, version)) <==> !module.main && version.len() > 0 && ((
        module.entry.path == path && module.entry.version == version) || (
        module.replace matches Some(replacement) && replacement.entry.path == path
            && replacement.entry.version == version)),
{
}

/// A line of a `go.sum` stays where the module and the version that it begins with,
/// or the version of whose `go.mod` it tells, are among the keys.
pub proof fn sum_lines_begin_with_their_key(
    path: Seq<char>,
    version: Seq<char>,
    rest: Seq<char>,
    keys: Set<(Seq<char>, Seq<char>)>,
)
    requires
        path.len() > 0 && version.len() > 0,
        forall|i: int| 0 <= i < path.len() ==> !blank(#[trigger] path[i]),
        forall|i: int| 0 <= i < version.len() ==> !blank(#[trigger] version[i]),
    ensures
        sum_line_kept(path + " "@ + (version + "/go.mod"@) + " "@ + rest, keys) <==> keys.contains(
            (path, version),
        ),
        (forall|front: Seq<char>| version != #[trigger] (front + "/go.mod"@)) ==> (sum_line_kept(
            path + " "@ + version + " "@ + rest,
            keys,
        ) <==> keys.contains((path, version))),
        !sum_line_kept(path, keys),
{
    reveal_strlit(" ");
    reveal_strlit("/go.mod");
    let manifest = version + "/go.mod"@;
    assert(" "@ =~= seq![' ']);
    assert forall|i: int| 0 <= i < manifest.len() implies !blank(#[trigger] manifest[i]) by {
        if i < version.len() {
            assert(manifest[i] == version[i]);
        } else {
            assert(manifest[i] == "/go.mod"@[i - version.len()]);
        }
    }
    unbroken_text_is_a_word(path);
    lemma_sum_words(path, manifest, rest);
    lemma_sum_words(path, version, rest);
    suffix_comes_off(version, "/go.mod"@);
}

proof fn lemma_sum_words(path: Seq<char>, second: Seq<char>, rest: Seq<char>)
    requires
        path.len() > 0 && second.len() > 0,
        forall|i: int| 0 <= i < path.len() ==> !blank(#[trigger] path[i]),
        forall|i: int| 0 <= i < second.len() ==> !blank(#[trigger] second[i]),
    ensures
        words(path + " "@ + second + " "@ + rest) == seq![path, second] + words(rest),
{
    reveal_strlit(" ");
    assert(" "@ =~= seq![' ']);
    let behind = second + seq![' '] + rest;
    unbroken_text_is_a_word(path);
    unbroken_text_is_a_word(second);
    blanks_split_words(second, ' ', rest);
    blanks_split_words(path, ' ', behind);
    assert(path + " "@ + second + " "@ + rest =~= path + seq![' '] + behind);
    assert(words(path) + words(behind) =~= seq![path, second] + words(rest));
}

/// A `go.sum` is pruned line by line: what stays of two parts is what stays of each,
/// and a line stays as it is or goes.
pub proof fn sums_are_pruned_line_by_line(
    front: Seq<char>,
    back: Seq<char>,
    line: Seq<char>,
    keys: Set<(Seq<char>, Seq<char>)>,
)
    requires
        front.len() > 0 ==> front.last() == '\n',
        forall|i: int| 0 <= i < line.len() ==> #[trigger] line[i] != '\n',
        line.len() > 0 ==> line.last() != '\r',
    ensures
        pruned_sum(front + back, keys) == pruned_sum(front, keys) + pruned_sum(back, keys),
        pruned_sum(line + seq!['\n'], keys) == (if sum_line_kept(line, keys) {
            line + seq!['\n']
        } else {
            seq![]
        }),
        pruned_sum(line, keys) == pruned_sum(line + seq!['\n'], keys),
{
    let kept = |line: Seq<char>| sum_line_kept(line, keys);
    line_feeds_split_lines(front, back);
    lemma_filter_joined(lines(front), lines(back), kept);
    lemma_unlines_joined(lines(front).filter(kept), lines(back).filter(kept));
    line_needs_no_ending(line);
    reveal_strlit("\n");
    assert("\n"@ =~= seq!['\n']);
    let one = seq![line];
    assert(one =~= Seq::empty().push(line));
    assert(Seq::<Seq<char>>::empty().filter(kept) =~= seq![]) by {
        reveal(Seq::filter);
    }
    Seq::<Seq<char>>::empty().lemma_filter_push(line, kept);
    reveal_with_fuel(unlines, 2);
    assert(one.drop_last() =~= seq![]);
    assert(unlines(one) =~= line + seq!['\n']);
    assert(unlines(seq![]) =~= seq![]);
    if line.len() == 0 {
        assert(words(line) =~= seq![]);
        assert(lines(line).filter(kept) =~= seq![]);
    }
}

pub proof fn lemma_filter_joined<A>(front: Seq<A>, back: Seq<A>, keep: spec_fn(A) -> bool)
    ensures
        (front + back).filter(keep) == front.filter(keep) + back.filter(keep),
    decreases back.len(),
{
    if back.len() == 0 {
        assert(front + back =~= front);
        assert(back.filter(keep) =~= seq![]) by {
            reveal(Seq::filter);
        }
        assert(front.filter(keep) + back.filter(keep) =~= front.filter(keep));
    } else {
        let rest = back.drop_last();
        let last = back.last();
        lemma_filter_joined(front, rest, keep);
        assert(back =~= rest.push(last));
        assert(front + back =~= (front + rest).push(last));
        rest.lemma_filter_push(last, keep);
        (front + rest).lemma_filter_push(last, keep);
        assert((front + back).filter(keep) =~= front.filter(keep) + back.filter(keep));
    }
}

pub proof fn lemma_unlines_joined(front: Seq<Seq<char>>, back: Seq<Seq<char>>)
    ensures
        unlines(front + back) == unlines(front) + unlines(back),
    decreases back.len(),
{
    if back.len() == 0 {
        assert(front + back =~= front);
        assert(unlines(front) + unlines(back) =~= unlines(front));
    } else {
        lemma_unlines_joined(front, back.drop_last());
        assert((front + back).drop_last() =~= front + back.drop_last());
        assert(unlines(front + back) =~= unlines(front) + unlines(back));
    }
}

/// A path is among those of modules exactly where one of them has it; a replacement
/// does not change it.
pub proof fn paths_are_those_of_modules(modules: Seq<ListedModule>, path: Seq<char>)
    ensures
        module_paths(modules).contains(path) <==> exists|i: int|
            0 <= i < modules.len() && (#[trigger] modules[i]).entry.path == path,
{
    let paths = modules.map_values(|module: ListedModule| module.entry.path);
    if paths.contains(path) {
        let i = choose|i: int| 0 <= i < paths.len() && paths[i] == path;
        assert(modules[i].entry.path == path);
    }
    if exists|i: int| 0 <= i < modules.len() && (#[trigger] modules[i]).entry.path == path {
        let i = choose|i: int| 0 <= i < modules.len() && (#[trigger] modules[i]).entry.path == path;
        assert(paths[i] == path);
    }
}

/// The directories of local modules are listed one after the other: that of each
/// that has a directory and no version, by what stands for it.
pub proof fn local_modules_have_directories(
    front: Seq<ListedModule>,
    back: Seq<ListedModule>,
    module: ListedModule,
)
    ensures
        local_directories_of(front + back) == local_directories_of(front) + local_directories_of(
            back,
        ),
        local_directories_of(seq![module]) == (match module.replace {
            Some(replacement) => if replacement.entry.version.len() == 0
                && replacement.entry.dir.len() > 0 {
                seq![replacement.entry.dir]
            } else {
                seq![]
            },
            None => if module.entry.version.len() == 0 && module.entry.dir.len() > 0 {
                seq![module.entry.dir]
            } else {
                seq![]
            },
        }),
    decreases back.len(),
{
    reveal_with_fuel(local_directories_of, 2);
    let one = seq![module];
    assert(one.drop_last() =~= seq![]);
    assert(one.last() == module);
    assert(local_directories_of(one) =~= (match module.replace {
        Some(replacement) => if replacement.entry.version.len() == 0 && replacement.entry.dir.len()
            > 0 {
            seq![replacement.entry.dir]
        } else {
            seq![]
        },
        None => if module.entry.version.len() == 0 && module.entry.dir.len() > 0 {
            seq![module.entry.dir]
        } else {
            seq![]
        },
    }));
    if back.len() == 0 {
        assert(front + back =~= front);
        assert(local_directories_of(front) + local_directories_of(back) =~= local_directories_of(
            front,
        ));
    } else {
        local_modules_have_directories(front, back.drop_last(), module);
        assert((front + back).drop_last() =~= front + back.drop_last());
        assert((front + back).last() == back.last());
        assert(local_directories_of(front + back) =~= local_directories_of(front)
            + local_directories_of(back));
    }
}

/// Each package stands in the directory of its module, or of what replaces that.
pub proof fn packages_stand_in_directories(packages: Seq<ListedPackage>, i: int)
    requires
        0 <= i < packages.len(),
    ensures
        package_directories_of(packages).len() == packages.len(),
        package_directories_of(packages)[i] == (match packages[i].module {
            Some(module) => match module.replace {
                Some(replacement) => Some(replacement.entry.dir),
                None => Some(module.entry.dir),
            },
            None => None,
        }),
{
}

proof fn lemma_no_command(packages: Seq<ListedPackage>)
    ensures
        commands_of(packages).len() == 0 <==> forall|i: int|
            0 <= i < packages.len() ==> (#[trigger] packages[i]).name != "main"@,
    decreases packages.len(),
{
    if packages.len() > 0 {
        let rest = packages.drop_last();
        lemma_no_command(rest);
        assert(packages[packages.len() - 1] == packages.last());
        if commands_of(packages).len() == 0 {
            assert forall|i: int| 0 <= i < packages.len() implies (#[trigger] packages[i]).name
                != "main"@ by {
                if i < rest.len() {
                    assert(rest[i].name != "main"@);
                }
            }
        } else if forall|i: int|
            0 <= i < packages.len() ==> (#[trigger] packages[i]).name != "main"@ {
            assert forall|i: int| 0 <= i < rest.len() implies (#[trigger] rest[i]).name
                != "main"@ by {
                assert(packages[i].name != "main"@);
            }
        }
    }
}

proof fn lemma_one_command(packages: Seq<ListedPackage>) -> (i: int)
    requires
        commands_of(packages).len() == 1,
    ensures
        0 <= i < packages.len(),
        packages[i].name == "main"@,
        packages[i].import_path == commands_of(packages)[0],
        forall|k: int|
            0 <= k < packages.len() && k != i ==> (#[trigger] packages[k]).name != "main"@,
    decreases packages.len(),
{
    let rest = packages.drop_last();
    let n = packages.len() - 1;
    if packages.last().name == "main"@ {
        lemma_no_command(rest);
        assert forall|k: int| 0 <= k < packages.len() && k != n implies (
        #[trigger] packages[k]).name != "main"@ by {
            assert(rest[k].name != "main"@);
        }
        n
    } else {
        let i = lemma_one_command(rest);
        assert forall|k: int| 0 <= k < packages.len() && k != i implies (
        #[trigger] packages[k]).name != "main"@ by {
            if k < n {
                assert(rest[k].name != "main"@);
            }
        }
        i
    }
}

proof fn lemma_only_main(packages: Seq<ListedPackage>, i: int)
    requires
        0 <= i < packages.len(),
        packages[i].name == "main"@,
        forall|k: int|
            0 <= k < packages.len() && k != i ==> (#[trigger] packages[k]).name != "main"@,
    ensures
        commands_of(packages) == seq![packages[i].import_path],
    decreases packages.len(),
{
    let rest = packages.drop_last();
    let n = packages.len() - 1;
    if i < n {
        assert(packages[n].name != "main"@);
        assert forall|k: int| 0 <= k < rest.len() && k != i implies (#[trigger] rest[k]).name
            != "main"@ by {
            assert(packages[k].name != "main"@);
        }
        lemma_only_main(rest, i);
    } else {
        assert forall|k: int| 0 <= k < rest.len() implies (#[trigger] rest[k]).name
            != "main"@ by {
            assert(packages[k].name != "main"@);
        }
        lemma_no_command(rest);
        assert(commands_of(packages) =~= seq![packages[i].import_path]);
    }
}

/// A module has a command exactly where one of its packages, and no other, is named
/// `main`; the command is the import path of that package.
pub proof fn command_is_the_only_main_package(packages: Seq<ListedPackage>)
    ensures
        only_command(packages) matches Some(path) ==> exists|i: int|
            0 <= i < packages.len() && (#[trigger] packages[i]).name == "main"@
                && packages[i].import_path == path && forall|k: int|
                0 <= k < packages.len() && k != i ==> (#[trigger] packages[k]).name != "main"@,
        forall|i: int|
            0 <= i < packages.len() && (#[trigger] packages[i]).name == "main"@ && (forall|k: int|
                0 <= k < packages.len() && k != i ==> (#[trigger] packages[k]).name != "main"@)
                ==> only_command(packages) == Some(packages[i].import_path),
{
    if commands_of(packages).len() == 1 {
        let i = lemma_one_command(packages);
        assert(packages[i].name == "main"@);
    }
    assert forall|i: int|
        0 <= i < packages.len() && (#[trigger] packages[i]).name == "main"@ && (forall|k: int|
            0 <= k < packages.len() && k != i ==> (#[trigger] packages[k]).name != "main"@) implies
        only_command(packages) == Some(packages[i].import_path) by {
        lemma_only_main(packages, i);
    }
}

} // verus!
