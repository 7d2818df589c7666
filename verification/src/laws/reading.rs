//! Laws of reading: what each line adds to what a `go.work` or a `go.mod` says.
use crate::error::Failure;
use crate::laws::manifests::{
    block_behind, comment_put_behind_is_taken_off, is_kind, is_line, is_word,
    joined_texts_join_directives, lemma_behind_kind, lemma_comment_after, lemma_directives_joined,
    lemma_neutral_kind, lemma_words_only, lemma_words_pair, neutral, scanned, unbroken,
};
use crate::laws::texts::{line_feeds_split_lines, line_needs_no_ending};
use crate::syntax::{
    comment_start, directives, empty_manifest, empty_work, hex_digit, json_char, json_chars,
    json_quoted, json_string, lemma_comment_start, lemma_first_at, mod_outcome, past,
    read_directives, rendered, replacement_of, unquoted, with_mod_directive, with_mod_directives,
    with_work_directive, with_work_directives, without_comment, work_outcome, ManifestDraft,
    ManifestModel, Quoting, ReplacementModel, WorkModel,
};
use crate::text::{blank, lines, words};
use vstd::prelude::*;

verus! {

/// A text that ends its last line and closes its blocks, so that another line can
/// stand below it.
pub open spec fn can_go_on(text: Seq<char>) -> bool {
    &&& text.len() > 0 ==> text.last() == '\n'
    &&& block_behind(lines(text), None) is None
}

/// The fields of a `replace` directive are parted by the first arrow: in front of it
/// the module and perhaps its version, behind it what takes its place and perhaps the
/// version of that. Without something on each side there is no replacement.
pub proof fn arrow_parts_replacement(before: Seq<Seq<char>>, after: Seq<Seq<char>>)
    requires
        forall|i: int| 0 <= i < before.len() ==> #[trigger] before[i] != "=>"@,
    ensures
        replacement_of(before) is None,
        replacement_of(before + seq!["=>"@] + after) == (if before.len() == 0 || after.len() == 0 {
            None
        } else {
            Some(
                ReplacementModel {
                    old: before[0],
                    old_version: if before.len() == 2 {
                        Some(before[1])
                    } else {
                        None
                    },
                    new: after[0],
                    version: if after.len() > 1 {
                        Some(after[1])
                    } else {
                        None
                    },
                },
            )
        }),
{
    let all = before + seq!["=>"@] + after;
    lemma_first_at(before, "=>"@, before.len() as int);
    assert forall|i: int| 0 <= i < before.len() implies #[trigger] all[i] != "=>"@ by {
        assert(all[i] == before[i]);
    }
    lemma_first_at(all, "=>"@, before.len() as int);
}

/// A replacement is written as a `replace` directive: the module, its version where it
/// names one, an arrow, and what takes its place, with its version where it names one.
pub proof fn replacement_is_written_with_an_arrow(replacement: ReplacementModel)
    ensures
        rendered(replacement) == "replace "@ + replacement.old + (match replacement.old_version {
            Some(version) => " "@ + version,
            None => seq![],
        }) + " => "@ + replacement.new + (match replacement.version {
            Some(version) => " "@ + version,
            None => seq![],
        }),
{
}

/// A line that neither opens nor closes a block is one directive more: its first word
/// is the kind, and the others are the fields.
pub proof fn line_below_is_a_directive(
    front: Seq<char>,
    line: Seq<char>,
    kind: Seq<char>,
    fields: Seq<Seq<char>>,
)
    requires
        can_go_on(front),
        is_line(line),
        words(without_comment(line)) == seq![kind] + fields,
        !(fields.len() == 0 && kind == ")"@),
        !(fields.len() == 1 && fields[0] == "("@),
    ensures
        directives(front + line + "\n"@) == directives(front) + seq![(kind, fields)],
{
    reveal_strlit("\n");
    assert("\n"@ =~= seq!['\n']);
    let below = line + seq!['\n'];
    assert(front + line + "\n"@ =~= front + below);
    joined_texts_join_directives(front, below);
    line_needs_no_ending(line);
    let written = words(without_comment(line));
    assert(written[0] == kind);
    assert(written.skip(1) =~= fields);
    let one = seq![line];
    assert(one.skip(1) =~= seq![]);
    assert(read_directives(seq![], None) =~= seq![]);
    if fields.len() == 1 {
        assert(written[1] == fields[0]);
    }
    assert(read_directives(one, None) =~= seq![(kind, fields)]);
}

proof fn lemma_kind_line(front: Seq<char>, kind: Seq<char>, rest: Seq<char>)
    requires
        can_go_on(front),
        is_kind(kind),
        is_line(rest),
        rest.len() > 0,
        !(words(without_comment(rest)).len() == 1 && words(without_comment(rest))[0] == "("@),
        !(words(without_comment(rest)).len() == 0 && kind == ")"@),
    ensures
        directives(front + (kind + " "@ + rest) + "\n"@) == directives(front) + seq![
            (kind, words(without_comment(rest))),
        ],
{
    reveal_strlit(" ");
    let line = kind + " "@ + rest;
    lemma_behind_kind(kind, rest);
    assert forall|i: int| 0 <= i < line.len() implies #[trigger] line[i] != '\n' by {
        if i < kind.len() {
            assert(line[i] == kind[i]);
            assert(!blank(kind[i]));
        } else if i > kind.len() {
            assert(line[i] == rest[i - kind.len() - 1]);
        }
    }
    assert(line.last() == rest.last());
    line_below_is_a_directive(front, line, kind, words(without_comment(rest)));
}

proof fn lemma_word_line(word: Seq<char>)
    requires
        is_word(word),
    ensures
        is_line(word),
        words(without_comment(word)) == seq![word],
{
    lemma_words_only(word);
    assert forall|i: int| 0 <= i < word.len() implies #[trigger] word[i] != '\n' by {
        assert(!blank(word[i]));
    }
    assert(!blank(word[word.len() - 1]));
}

proof fn lemma_known_kinds()
    ensures
        is_kind("go"@),
        is_kind("toolchain"@),
        is_kind("use"@),
        is_kind("replace"@),
        is_kind("module"@),
        is_kind("require"@),
        "go"@.len() == 2,
        "toolchain"@.len() == 9,
        "use"@.len() == 3,
        "replace"@.len() == 7,
        "module"@.len() == 6,
        "require"@.len() == 7,
        "replace"@ != "require"@,
        ")"@.len() == 1,
        "replace"@ != ")"@,
        "use"@ != ")"@,
        "go"@ != ")"@,
{
    reveal_strlit("go");
    reveal_strlit("toolchain");
    reveal_strlit("use");
    reveal_strlit("replace");
    reveal_strlit("module");
    reveal_strlit("require");
    reveal_strlit(")");
    assert("replace"@[2] == 'p' && "require"@[2] == 'q');
    lemma_neutral_kind("go"@);
    lemma_neutral_kind("toolchain"@);
    lemma_neutral_kind("use"@);
    lemma_neutral_kind("replace"@);
    lemma_neutral_kind("module"@);
    lemma_neutral_kind("require"@);
}

proof fn lemma_work_joined(
    work: WorkModel,
    front: Seq<(Seq<char>, Seq<Seq<char>>)>,
    back: Seq<(Seq<char>, Seq<Seq<char>>)>,
)
    ensures
        with_work_directives(work, front + back) == (match with_work_directives(work, front) {
            Ok(next) => with_work_directives(next, back),
            Err(message) => Err(message),
        }),
    decreases front.len(),
{
    let all = front + back;
    if front.len() == 0 {
        assert(all =~= back);
    } else {
        assert(all[0] == front[0]);
        assert(all.skip(1) =~= front.skip(1) + back);
        if let Ok(next) = with_work_directive(work, front[0].0, front[0].1) {
            lemma_work_joined(next, front.skip(1), back);
        }
    }
}

proof fn lemma_work_below(
    path: Seq<char>,
    front: Seq<char>,
    work: WorkModel,
    text: Seq<char>,
    kind: Seq<char>,
    fields: Seq<Seq<char>>,
)
    requires
        work_outcome(path, front) == Ok::<WorkModel, Failure>(work),
        directives(text) == directives(front) + seq![(kind, fields)],
    ensures
        work_outcome(path, text) == (match with_work_directive(work, kind, fields) {
            Ok(next) => Ok(next),
            Err(message) => Err(Failure::Parse { path, message }),
        }),
{
    let one = seq![(kind, fields)];
    lemma_work_joined(empty_work(), directives(front), one);
    assert(one.skip(1) =~= seq![]);
    if let Ok(next) = with_work_directive(work, kind, fields) {
        assert(with_work_directives(next, one.skip(1)) == Ok::<WorkModel, Seq<char>>(next));
    }
}

/// A `go.work` that says nothing names no version, no toolchain, no directories and no
/// replacements.
pub proof fn empty_work_says_nothing(path: Seq<char>)
    ensures
        work_outcome(path, Seq::empty()) == Ok::<WorkModel, Failure>(
            WorkModel { go_version: None, toolchain: None, uses: seq![], replacements: seq![] },
        ),
{
    line_needs_no_ending(Seq::empty());
}

/// A line `go V` names the version V, in place of any that was named above it.
pub proof fn go_line_names_version(
    path: Seq<char>,
    front: Seq<char>,
    work: WorkModel,
    rest: Seq<char>,
)
    requires
        can_go_on(front),
        work_outcome(path, front) == Ok::<WorkModel, Failure>(work),
        is_line(rest) && rest.len() > 0,
        words(without_comment(rest)).len() > 0,
        words(without_comment(rest)) != seq!["("@],
    ensures
        work_outcome(path, front + ("go"@ + " "@ + rest) + "\n"@) == Ok::<WorkModel, Failure>(
            WorkModel { go_version: Some(words(without_comment(rest))[0]), ..work },
        ),
{
    lemma_known_kinds();
    let fields = words(without_comment(rest));
    if fields.len() == 1 && fields[0] == "("@ {
        assert(fields =~= seq!["("@]);
    }
    lemma_kind_line(front, "go"@, rest);
    lemma_work_below(
        path,
        front,
        work,
        front + ("go"@ + " "@ + rest) + "\n"@,
        "go"@,
        fields,
    );
}

/// A line `toolchain T` names the toolchain T, in place of any that was named above
/// it.
pub proof fn toolchain_line_names_toolchain(
    path: Seq<char>,
    front: Seq<char>,
    work: WorkModel,
    rest: Seq<char>,
)
    requires
        can_go_on(front),
        work_outcome(path, front) == Ok::<WorkModel, Failure>(work),
        is_line(rest) && rest.len() > 0,
        words(without_comment(rest)).len() > 0,
        words(without_comment(rest)) != seq!["("@],
    ensures
        work_outcome(path, front + ("toolchain"@ + " "@ + rest) + "\n"@) == Ok::<
            WorkModel,
            Failure,
        >(WorkModel { toolchain: Some(words(without_comment(rest))[0]), ..work }),
{
    lemma_known_kinds();
    let fields = words(without_comment(rest));
    if fields.len() == 1 && fields[0] == "("@ {
        assert(fields =~= seq!["("@]);
    }
    lemma_kind_line(front, "toolchain"@, rest);
    lemma_work_below(
        path,
        front,
        work,
        front + ("toolchain"@ + " "@ + rest) + "\n"@,
        "toolchain"@,
        fields,
    );
}

/// A line `use D` adds the directory D to those above it: as it is written where it is
/// not quoted, what stands between backquotes, or what JSON reads between quotes; what
/// is wrong with the last of these is wrong with the file. Fields behind D say nothing.
pub proof fn use_line_adds_directory(
    path: Seq<char>,
    front: Seq<char>,
    work: WorkModel,
    rest: Seq<char>,
    directory: Seq<char>,
    inner: Seq<char>,
)
    requires
        can_go_on(front),
        work_outcome(path, front) == Ok::<WorkModel, Failure>(work),
        is_line(rest) && rest.len() > 0,
        words(without_comment(rest)).len() > 0,
        words(without_comment(rest)) != seq!["("@],
        directory == words(without_comment(rest))[0],
        directory.len() > 0,
    ensures
        directory[0] != '"' && (directory[0] != '`' || directory.len() == 1 || directory.last()
            != '`') ==> work_outcome(path, front + ("use"@ + " "@ + rest) + "\n"@) == Ok::<
            WorkModel,
            Failure,
        >(WorkModel { uses: work.uses.push(directory), ..work }),
        directory == seq!['`'] + inner + seq!['`'] ==> work_outcome(
            path,
            front + ("use"@ + " "@ + rest) + "\n"@,
        ) == Ok::<WorkModel, Failure>(WorkModel { uses: work.uses.push(inner), ..work }),
        directory[0] == '"' ==> work_outcome(path, front + ("use"@ + " "@ + rest) + "\n"@) == (
        match json_string(directory) {
            Ok(read) => Ok(WorkModel { uses: work.uses.push(read), ..work }),
            Err(message) => Err(Failure::Parse { path, message }),
        }),
{
    lemma_known_kinds();
    let fields = words(without_comment(rest));
    if fields.len() == 1 && fields[0] == "("@ {
        assert(fields =~= seq!["("@]);
    }
    lemma_kind_line(front, "use"@, rest);
    lemma_work_below(
        path,
        front,
        work,
        front + ("use"@ + " "@ + rest) + "\n"@,
        "use"@,
        fields,
    );
    if directory == seq!['`'] + inner + seq!['`'] {
        assert(directory.subrange(1, directory.len() - 1) =~= inner);
    }
}

/// A line `replace A => B`, with or without versions, adds that replacement to those
/// above it; fields without an arrow, or with nothing on a side of it, are wrong.
pub proof fn replace_line_adds_replacement(
    path: Seq<char>,
    front: Seq<char>,
    work: WorkModel,
    rest: Seq<char>,
    before: Seq<Seq<char>>,
    after: Seq<Seq<char>>,
)
    requires
        can_go_on(front),
        work_outcome(path, front) == Ok::<WorkModel, Failure>(work),
        is_line(rest) && rest.len() > 0,
        forall|i: int| 0 <= i < before.len() ==> #[trigger] before[i] != "=>"@,
        before != seq!["("@],
    ensures
        words(without_comment(rest)) == before + seq!["=>"@] + after && before.len() > 0
            && after.len() > 0 ==> work_outcome(
            path,
            front + ("replace"@ + " "@ + rest) + "\n"@,
        ) == Ok::<WorkModel, Failure>(
            WorkModel {
                replacements: work.replacements.push(
                    ReplacementModel {
                        old: before[0],
                        old_version: if before.len() == 2 {
                            Some(before[1])
                        } else {
                            None
                        },
                        new: after[0],
                        version: if after.len() > 1 {
                            Some(after[1])
                        } else {
                            None
                        },
                    },
                ),
                ..work
            },
        ),
        words(without_comment(rest)) == before || (words(without_comment(rest)) == before + seq![
            "=>"@,
        ] + after && (before.len() == 0 || after.len() == 0)) ==> work_outcome(
            path,
            front + ("replace"@ + " "@ + rest) + "\n"@,
        ) == Err::<WorkModel, Failure>(
            Failure::Parse { path, message: "invalid replace directive"@ },
        ),
{
    lemma_known_kinds();
    reveal_strlit("=>");
    reveal_strlit("(");
    let fields = words(without_comment(rest));
    let arrow = before + seq!["=>"@] + after;
    arrow_parts_replacement(before, after);
    if fields == before || fields == arrow {
        if fields.len() == 1 && fields[0] == "("@ {
            if fields == arrow {
                assert(arrow[before.len() as int] == "=>"@);
                assert("=>"@.len() == 2 && "("@.len() == 1);
            } else {
                assert(before =~= seq!["("@]);
            }
        }
        lemma_kind_line(front, "replace"@, rest);
        lemma_work_below(
            path,
            front,
            work,
            front + ("replace"@ + " "@ + rest) + "\n"@,
            "replace"@,
            fields,
        );
    }
}

/// A line of any other kind changes nothing.
pub proof fn other_lines_say_nothing_of_work(
    path: Seq<char>,
    front: Seq<char>,
    work: WorkModel,
    kind: Seq<char>,
    rest: Seq<char>,
)
    requires
        can_go_on(front),
        work_outcome(path, front) == Ok::<WorkModel, Failure>(work),
        is_kind(kind),
        kind != "go"@ && kind != "toolchain"@ && kind != "use"@ && kind != "replace"@,
        is_line(rest) && rest.len() > 0,
        words(without_comment(rest)).len() > 0,
        words(without_comment(rest)) != seq!["("@],
    ensures
        work_outcome(path, front + (kind + " "@ + rest) + "\n"@) == Ok::<WorkModel, Failure>(work),
{
    let fields = words(without_comment(rest));
    if fields.len() == 1 && fields[0] == "("@ {
        assert(fields =~= seq!["("@]);
    }
    lemma_kind_line(front, kind, rest);
    lemma_work_below(
        path,
        front,
        work,
        front + (kind + " "@ + rest) + "\n"@,
        kind,
        fields,
    );
}

/// A line `use` without a directory is wrong, and one `go` or `toolchain` without a
/// value takes back what was named above it.
pub proof fn bare_lines_of_work(path: Seq<char>, front: Seq<char>, work: WorkModel)
    requires
        can_go_on(front),
        work_outcome(path, front) == Ok::<WorkModel, Failure>(work),
    ensures
        work_outcome(path, front + "use"@ + "\n"@) == Err::<WorkModel, Failure>(
            Failure::Parse { path, message: "use directive requires a module directory"@ },
        ),
        work_outcome(path, front + "go"@ + "\n"@) == Ok::<WorkModel, Failure>(
            WorkModel { go_version: None, ..work },
        ),
        work_outcome(path, front + "toolchain"@ + "\n"@) == Ok::<WorkModel, Failure>(
            WorkModel { toolchain: None, ..work },
        ),
{
    lemma_known_kinds();
    let none = Seq::<Seq<char>>::empty();
    lemma_word_line("use"@);
    lemma_word_line("go"@);
    lemma_word_line("toolchain"@);
    assert(seq!["use"@] =~= seq!["use"@] + none);
    assert(seq!["go"@] =~= seq!["go"@] + none);
    assert(seq!["toolchain"@] =~= seq!["toolchain"@] + none);
    line_below_is_a_directive(front, "use"@, "use"@, none);
    line_below_is_a_directive(front, "go"@, "go"@, none);
    line_below_is_a_directive(front, "toolchain"@, "toolchain"@, none);
    lemma_work_below(path, front, work, front + "use"@ + "\n"@, "use"@, none);
    lemma_work_below(path, front, work, front + "go"@ + "\n"@, "go"@, none);
    lemma_work_below(path, front, work, front + "toolchain"@ + "\n"@, "toolchain"@, none);
}

/// What is wrong with a `go.work` stays wrong whatever stands below it.
pub proof fn work_errors_stay(path: Seq<char>, front: Seq<char>, back: Seq<char>)
    requires
        front.len() > 0 ==> front.last() == '\n',
        work_outcome(path, front) is Err,
    ensures
        work_outcome(path, front + back) == work_outcome(path, front),
{
    line_feeds_split_lines(front, back);
    lemma_directives_joined(lines(front), lines(back), None);
    lemma_work_joined(
        empty_work(),
        directives(front),
        read_directives(lines(back), block_behind(lines(front), None)),
    );
}

proof fn lemma_mod_joined(
    draft: ManifestDraft,
    front: Seq<(Seq<char>, Seq<Seq<char>>)>,
    back: Seq<(Seq<char>, Seq<Seq<char>>)>,
)
    ensures
        with_mod_directives(draft, front + back) == (match with_mod_directives(draft, front) {
            Ok(next) => with_mod_directives(next, back),
            Err(message) => Err(message),
        }),
    decreases front.len(),
{
    let all = front + back;
    if front.len() == 0 {
        assert(all =~= back);
    } else {
        assert(all[0] == front[0]);
        assert(all.skip(1) =~= front.skip(1) + back);
        if let Ok(next) = with_mod_directive(draft, front[0].0, front[0].1) {
            lemma_mod_joined(next, front.skip(1), back);
        }
    }
}

proof fn lemma_mod_below(
    path: Seq<char>,
    front: Seq<char>,
    manifest: ManifestModel,
    text: Seq<char>,
    kind: Seq<char>,
    fields: Seq<Seq<char>>,
)
    requires
        mod_outcome(path, front) == Ok::<ManifestModel, Failure>(manifest),
        directives(text) == directives(front) + seq![(kind, fields)],
    ensures
        ({
            let draft = ManifestDraft {
                name: Some(manifest.name),
                requirements: manifest.requirements,
                replacements: manifest.replacements,
            };
            match with_mod_directive(draft, kind, fields) {
                Ok(next) => with_mod_directives(empty_manifest(), directives(text)) == Ok::<
                    ManifestDraft,
                    Seq<char>,
                >(next),
                Err(message) => mod_outcome(path, text) == Err::<ManifestModel, Failure>(
                    Failure::Parse { path, message },
                ),
            }
        }),
{
    let draft = ManifestDraft {
        name: Some(manifest.name),
        requirements: manifest.requirements,
        replacements: manifest.replacements,
    };
    let one = seq![(kind, fields)];
    lemma_mod_joined(empty_manifest(), directives(front), one);
    assert(with_mod_directives(empty_manifest(), directives(front)) == Ok::<
        ManifestDraft,
        Seq<char>,
    >(draft));
    assert(one.skip(1) =~= seq![]);
    if let Ok(next) = with_mod_directive(draft, kind, fields) {
        assert(with_mod_directives(next, one.skip(1)) == Ok::<ManifestDraft, Seq<char>>(next));
    }
}

/// A `go.mod` that says nothing lacks its module.
pub proof fn empty_manifest_lacks_module(path: Seq<char>)
    ensures
        mod_outcome(path, Seq::empty()) == Err::<ManifestModel, Failure>(
            Failure::MissingModule(path),
        ),
{
    line_needs_no_ending(Seq::empty());
}

/// A first line `module N` gives the manifest of N, which requires and replaces
/// nothing.
pub proof fn module_line_begins_manifest(path: Seq<char>, name: Seq<char>)
    requires
        is_word(name) && name != "("@,
    ensures
        mod_outcome(path, "module"@ + " "@ + name + "\n"@) == Ok::<ManifestModel, Failure>(
            ManifestModel { name, requirements: seq![], replacements: seq![] },
        ),
{
    let none = Seq::<char>::empty();
    lemma_known_kinds();
    lemma_word_line(name);
    line_needs_no_ending(none);
    assert(directives(none) =~= seq![]);
    lemma_kind_line(none, "module"@, name);
    assert(none + ("module"@ + " "@ + name) + "\n"@ =~= "module"@ + " "@ + name + "\n"@);
    let one = seq![("module"@, seq![name])];
    assert(directives(none) + one =~= one);
    assert(one.skip(1) =~= seq![]);
    let next = ManifestDraft { name: Some(name), ..empty_manifest() };
    assert(with_mod_directives(next, one.skip(1)) == Ok::<ManifestDraft, Seq<char>>(next));
    assert(with_mod_directives(empty_manifest(), one) == Ok::<ManifestDraft, Seq<char>>(next));
}

/// A line `module N` below others gives the manifest that name and keeps the rest.
pub proof fn module_line_names_module(
    path: Seq<char>,
    front: Seq<char>,
    manifest: ManifestModel,
    rest: Seq<char>,
)
    requires
        can_go_on(front),
        mod_outcome(path, front) == Ok::<ManifestModel, Failure>(manifest),
        is_line(rest) && rest.len() > 0,
        words(without_comment(rest)).len() > 0,
        words(without_comment(rest)) != seq!["("@],
    ensures
        mod_outcome(path, front + ("module"@ + " "@ + rest) + "\n"@) == Ok::<
            ManifestModel,
            Failure,
        >(ManifestModel { name: words(without_comment(rest))[0], ..manifest }),
{
    lemma_known_kinds();
    let fields = words(without_comment(rest));
    if fields.len() == 1 && fields[0] == "("@ {
        assert(fields =~= seq!["("@]);
    }
    lemma_kind_line(front, "module"@, rest);
    lemma_mod_below(
        path,
        front,
        manifest,
        front + ("module"@ + " "@ + rest) + "\n"@,
        "module"@,
        fields,
    );
}

/// A line `require P V` adds version V of the module P to the requirements above it,
/// whatever stands behind it on the line.
pub proof fn require_line_adds_requirement(
    path: Seq<char>,
    front: Seq<char>,
    manifest: ManifestModel,
    rest: Seq<char>,
)
    requires
        can_go_on(front),
        mod_outcome(path, front) == Ok::<ManifestModel, Failure>(manifest),
        is_line(rest) && rest.len() > 0,
        words(without_comment(rest)).len() >= 2,
    ensures
        mod_outcome(path, front + ("require"@ + " "@ + rest) + "\n"@) == Ok::<
            ManifestModel,
            Failure,
        >(
            ManifestModel {
                requirements: manifest.requirements.push(
                    (words(without_comment(rest))[0], words(without_comment(rest))[1]),
                ),
                ..manifest
            },
        ),
{
    lemma_known_kinds();
    lemma_kind_line(front, "require"@, rest);
    lemma_mod_below(
        path,
        front,
        manifest,
        front + ("require"@ + " "@ + rest) + "\n"@,
        "require"@,
        words(without_comment(rest)),
    );
}

/// The pairs of a block of requirements, as its lines write them.
pub open spec fn pair_lines(pairs: Seq<(Seq<char>, Seq<char>)>) -> Seq<Seq<char>> {
    pairs.map_values(|pair: (Seq<char>, Seq<char>)| pair.0 + " "@ + pair.1)
}

/// A path and a version that can stand on a line of a block.
pub open spec fn is_pair(pair: (Seq<char>, Seq<char>)) -> bool {
    &&& pair.0.len() > 0 && unbroken(pair.0)
    &&& pair.1.len() > 0 && unbroken(pair.1) && pair.1 != "("@
    &&& without_comment(pair.0 + " "@ + pair.1) == pair.0 + " "@ + pair.1
}

proof fn lemma_pair_block(
    draft: ManifestDraft,
    pairs: Seq<(Seq<char>, Seq<char>)>,
    block: Seq<Seq<char>>,
)
    requires
        block == pair_lines(pairs) + seq![")"@],
        forall|i: int| 0 <= i < pairs.len() ==> is_pair(#[trigger] pairs[i]),
    ensures
        with_mod_directives(draft, read_directives(block, Some("require"@))) == Ok::<
            ManifestDraft,
            Seq<char>,
        >(ManifestDraft { requirements: draft.requirements + pairs, ..draft }),
        block_behind(block, Some("require"@)) is None,
    decreases pairs.len(),
{
    lemma_known_kinds();
    reveal_strlit(")");
    reveal_strlit(" ");
    assert(" "@ =~= seq![' ']);
    if pairs.len() == 0 {
        assert(block =~= seq![")"@]);
        assert(neutral(')') && unbroken(")"@)) by {
            assert(")"@ =~= seq![')']);
        }
        lemma_neutral_kind(")"@);
        lemma_words_only(")"@);
        assert(block[0] == ")"@);
        assert(words(without_comment(block[0])) =~= seq![")"@]);
        assert(block.skip(1) =~= seq![]);
        assert(read_directives(block.skip(1), None) =~= seq![]);
        assert(block_behind(block.skip(1), None) is None);
        assert(read_directives(block, Some("require"@)) =~= seq![]);
        assert(draft.requirements + pairs =~= draft.requirements);
    } else {
        let pair = pairs[0];
        let more = pairs.skip(1);
        let line = pair.0 + " "@ + pair.1;
        assert(is_pair(pairs[0]));
        assert(block[0] == line);
        assert(block.skip(1) =~= pair_lines(more) + seq![")"@]);
        lemma_words_only(pair.1);
        lemma_words_pair(pair.0, pair.1);
        let fields = words(without_comment(line));
        assert(fields =~= seq![pair.0, pair.1]);
        assert forall|i: int| 0 <= i < more.len() implies is_pair(#[trigger] more[i]) by {
            assert(more[i] == pairs[i + 1]);
        }
        let next = ManifestDraft { requirements: draft.requirements.push(pair), ..draft };
        lemma_pair_block(next, more, block.skip(1));
        let all = read_directives(block, Some("require"@));
        assert(all[0] == ("require"@, fields));
        assert(all.skip(1) =~= read_directives(block.skip(1), Some("require"@)));
        assert(with_mod_directive(draft, "require"@, fields) == Ok::<ManifestDraft, Seq<char>>(
            next,
        ));
        assert(next.requirements + more =~= draft.requirements + pairs);
    }
}

/// A block of requirements adds one after the other to those above it.
pub proof fn require_block_adds_requirements(
    path: Seq<char>,
    front: Seq<char>,
    manifest: ManifestModel,
    text: Seq<char>,
    pairs: Seq<(Seq<char>, Seq<char>)>,
)
    requires
        can_go_on(front),
        mod_outcome(path, front) == Ok::<ManifestModel, Failure>(manifest),
        lines(text) == seq!["require ("@] + pair_lines(pairs) + seq![")"@],
        forall|i: int| 0 <= i < pairs.len() ==> is_pair(#[trigger] pairs[i]),
    ensures
        mod_outcome(path, front + text) == Ok::<ManifestModel, Failure>(
            ManifestModel { requirements: manifest.requirements + pairs, ..manifest },
        ),
{
    lemma_known_kinds();
    reveal_strlit("require (");
    reveal_strlit("require");
    reveal_strlit("(");
    reveal_strlit(" ");
    let draft = ManifestDraft {
        name: Some(manifest.name),
        requirements: manifest.requirements,
        replacements: manifest.replacements,
    };
    let opening = "require ("@;
    let block = pair_lines(pairs) + seq![")"@];
    let all = lines(text);
    assert(opening =~= "require"@ + " "@ + "("@);
    assert("("@ =~= seq!['(']);
    lemma_neutral_kind("("@);
    lemma_words_only("("@);
    lemma_behind_kind("require"@, "("@);
    assert(words(without_comment(opening)) =~= seq!["require"@, "("@]);
    assert(all.skip(1) =~= block);
    assert(all[0] == opening);
    assert(read_directives(all, None) == read_directives(block, Some("require"@)));
    lemma_pair_block(draft, pairs, block);
    line_feeds_split_lines(front, text);
    lemma_directives_joined(lines(front), all, None);
    lemma_mod_joined(empty_manifest(), directives(front), read_directives(all, None));
    assert(with_mod_directives(empty_manifest(), directives(front)) == Ok::<
        ManifestDraft,
        Seq<char>,
    >(draft));
}

/// A line `replace A => B` of a `go.mod`, with or without versions, adds that
/// replacement to those above it; fields without an arrow, or with nothing on a side
/// of it, are wrong.
pub proof fn replace_line_adds_to_manifest(
    path: Seq<char>,
    front: Seq<char>,
    manifest: ManifestModel,
    rest: Seq<char>,
    before: Seq<Seq<char>>,
    after: Seq<Seq<char>>,
)
    requires
        can_go_on(front),
        mod_outcome(path, front) == Ok::<ManifestModel, Failure>(manifest),
        is_line(rest) && rest.len() > 0,
        forall|i: int| 0 <= i < before.len() ==> #[trigger] before[i] != "=>"@,
        before != seq!["("@],
    ensures
        words(without_comment(rest)) == before + seq!["=>"@] + after && before.len() > 0
            && after.len() > 0 ==> mod_outcome(
            path,
            front + ("replace"@ + " "@ + rest) + "\n"@,
        ) == Ok::<ManifestModel, Failure>(
            ManifestModel {
                replacements: manifest.replacements.push(
                    ReplacementModel {
                        old: before[0],
                        old_version: if before.len() == 2 {
                            Some(before[1])
                        } else {
                            None
                        },
                        new: after[0],
                        version: if after.len() > 1 {
                            Some(after[1])
                        } else {
                            None
                        },
                    },
                ),
                ..manifest
            },
        ),
        words(without_comment(rest)) == before || (words(without_comment(rest)) == before + seq![
            "=>"@,
        ] + after && (before.len() == 0 || after.len() == 0)) ==> mod_outcome(
            path,
            front + ("replace"@ + " "@ + rest) + "\n"@,
        ) == Err::<ManifestModel, Failure>(
            Failure::Parse { path, message: "invalid replace directive"@ },
        ),
{
    lemma_known_kinds();
    reveal_strlit("=>");
    reveal_strlit("(");
    let fields = words(without_comment(rest));
    let arrow = before + seq!["=>"@] + after;
    arrow_parts_replacement(before, after);
    if fields == before || fields == arrow {
        if fields.len() == 1 && fields[0] == "("@ {
            if fields == arrow {
                assert(arrow[before.len() as int] == "=>"@);
                assert("=>"@.len() == 2 && "("@.len() == 1);
            } else {
                assert(before =~= seq!["("@]);
            }
        }
        lemma_kind_line(front, "replace"@, rest);
        lemma_mod_below(
            path,
            front,
            manifest,
            front + ("replace"@ + " "@ + rest) + "\n"@,
            "replace"@,
            fields,
        );
    }
}

/// A line of any other kind, such as `go V`, says nothing of the module.
pub proof fn other_lines_say_nothing_of_module(
    path: Seq<char>,
    front: Seq<char>,
    manifest: ManifestModel,
    kind: Seq<char>,
    rest: Seq<char>,
)
    requires
        can_go_on(front),
        mod_outcome(path, front) == Ok::<ManifestModel, Failure>(manifest),
        is_kind(kind),
        kind != "module"@ && kind != "replace"@,
        is_line(rest) && rest.len() > 0,
        words(without_comment(rest)).len() > 0,
        words(without_comment(rest)) != seq!["("@],
        kind != "require"@ || words(without_comment(rest)).len() == 1,
    ensures
        mod_outcome(path, front + (kind + " "@ + rest) + "\n"@) == Ok::<ManifestModel, Failure>(
            manifest,
        ),
{
    let fields = words(without_comment(rest));
    if fields.len() == 1 && fields[0] == "("@ {
        assert(fields =~= seq!["("@]);
    }
    lemma_kind_line(front, kind, rest);
    lemma_mod_below(
        path,
        front,
        manifest,
        front + (kind + " "@ + rest) + "\n"@,
        kind,
        fields,
    );
}

proof fn lemma_drafts_agree(
    a: ManifestDraft,
    b: ManifestDraft,
    said: Seq<(Seq<char>, Seq<Seq<char>>)>,
)
    requires
        a.requirements == b.requirements,
        a.replacements == b.replacements,
    ensures
        match with_mod_directives(a, said) {
            Ok(x) => with_mod_directives(b, said) matches Ok(y) && x.requirements == y.requirements
                && x.replacements == y.replacements,
            Err(x) => with_mod_directives(b, said) matches Err(y) && x == y,
        },
    decreases said.len(),
{
    if said.len() > 0 {
        let rest = said.skip(1);
        let x = with_mod_directive(a, said[0].0, said[0].1);
        let y = with_mod_directive(b, said[0].0, said[0].1);
        if x is Ok {
            assert(y is Ok);
            lemma_drafts_agree(x->Ok_0, y->Ok_0, rest);
        }
    }
}

/// A line `module` without a name takes back the name that was given above it.
pub proof fn bare_module_line_takes_name_back(
    path: Seq<char>,
    front: Seq<char>,
    manifest: ManifestModel,
)
    requires
        can_go_on(front),
        mod_outcome(path, front) == Ok::<ManifestModel, Failure>(manifest),
    ensures
        mod_outcome(path, front + "module"@ + "\n"@) == Err::<ManifestModel, Failure>(
            Failure::MissingModule(path),
        ),
{
    lemma_known_kinds();
    let none = Seq::<Seq<char>>::empty();
    lemma_word_line("module"@);
    assert(seq!["module"@] =~= seq!["module"@] + none);
    line_below_is_a_directive(front, "module"@, "module"@, none);
    lemma_mod_below(path, front, manifest, front + "module"@ + "\n"@, "module"@, none);
}

/// The module may be named last: what stands above the line is read as it would be
/// below it.
pub proof fn module_may_be_named_last(
    path: Seq<char>,
    front: Seq<char>,
    name: Seq<char>,
    manifest: ManifestModel,
)
    requires
        can_go_on(front),
        is_word(name) && name != "("@,
        mod_outcome(path, "module"@ + " "@ + name + "\n"@ + front) == Ok::<ManifestModel, Failure>(
            manifest,
        ),
    ensures
        mod_outcome(path, front + ("module"@ + " "@ + name) + "\n"@) == Ok::<
            ManifestModel,
            Failure,
        >(ManifestModel { name, ..manifest }),
{
    let none = Seq::<char>::empty();
    let line = "module"@ + " "@ + name + "\n"@;
    let one = seq![("module"@, seq![name])];
    lemma_known_kinds();
    lemma_word_line(name);
    line_needs_no_ending(none);
    assert(directives(none) =~= seq![]);
    lemma_kind_line(none, "module"@, name);
    assert(none + ("module"@ + " "@ + name) + "\n"@ =~= line);
    assert(directives(none) + one =~= one);
    reveal_strlit("\n");
    assert(line.last() == '\n');
    assert(can_go_on(line)) by {
        let bare = "module"@ + " "@ + name;
        lemma_behind_kind("module"@, name);
        assert forall|i: int| 0 <= i < bare.len() implies #[trigger] bare[i] != '\n' by {
            reveal_strlit(" ");
            if i < 6 {
                assert(bare[i] == "module"@[i]);
                assert(!blank("module"@[i]));
            } else if i > 6 {
                assert(bare[i] == name[i - 7]);
            }
        }
        assert(bare.last() == name.last());
        line_needs_no_ending(bare);
        assert(bare + seq!['\n'] =~= line);
        let all = seq![bare];
        assert(lines(line) == all);
        assert(all.skip(1) =~= seq![]);
        assert(words(without_comment(bare)) =~= seq!["module"@, name]);
        assert(block_behind(all.skip(1), None) is None);
    }
    joined_texts_join_directives(line, front);
    let named = ManifestDraft { name: Some(name), ..empty_manifest() };
    lemma_mod_joined(empty_manifest(), one, directives(front));
    assert(one.skip(1) =~= seq![]);
    assert(with_mod_directives(named, one.skip(1)) == Ok::<ManifestDraft, Seq<char>>(named));
    assert(with_mod_directives(empty_manifest(), one) == Ok::<ManifestDraft, Seq<char>>(named));
    lemma_drafts_agree(named, empty_manifest(), directives(front));
    lemma_kind_line(front, "module"@, name);
    lemma_mod_joined(empty_manifest(), directives(front), one);
    let draft = with_mod_directives(empty_manifest(), directives(front))->Ok_0;
    let last = ManifestDraft { name: Some(name), ..draft };
    assert(with_mod_directives(last, one.skip(1)) == Ok::<ManifestDraft, Seq<char>>(last));
    assert(with_mod_directives(draft, one) == Ok::<ManifestDraft, Seq<char>>(last));
}

/// What is wrong with a `go.mod`, but for a module that is not named yet, stays wrong
/// whatever stands below it.
pub proof fn manifest_errors_stay(path: Seq<char>, front: Seq<char>, back: Seq<char>)
    requires
        front.len() > 0 ==> front.last() == '\n',
        mod_outcome(path, front) is Err,
        mod_outcome(path, front) != Err::<ManifestModel, Failure>(Failure::MissingModule(path)),
    ensures
        mod_outcome(path, front + back) == mod_outcome(path, front),
{
    line_feeds_split_lines(front, back);
    lemma_directives_joined(lines(front), lines(back), None);
    lemma_mod_joined(
        empty_manifest(),
        directives(front),
        read_directives(lines(back), block_behind(lines(front), None)),
    );
}

/// A comment behind a line of a manifest says nothing.
pub proof fn comments_behind_lines_say_nothing(
    line: Seq<char>,
    comment: Seq<char>,
    below: Seq<Seq<char>>,
    block: Option<Seq<char>>,
)
    requires
        without_comment(line) == line,
        !scanned(line, unquoted()).quoted && !scanned(line, unquoted()).raw,
        line.len() > 0 ==> line.last() != '/',
    ensures
        read_directives(seq![line + "//"@ + comment] + below, block) == read_directives(
            seq![line] + below,
            block,
        ),
{
    comment_put_behind_is_taken_off(line, comment);
    let a = seq![line + "//"@ + comment] + below;
    let b = seq![line] + below;
    assert(a.skip(1) =~= below && b.skip(1) =~= below);
}

/// Where nothing is quoted, a comment begins at the first two slashes.
pub proof fn first_slashes_begin_comment(text: Seq<char>, comment: Seq<char>)
    requires
        forall|i: int| 0 <= i < text.len() ==> #[trigger] text[i] != '"' && text[i] != '`',
        forall|i: int|
            0 <= i < text.len() - 1 ==> !(#[trigger] text[i] == '/' && text[i + 1] == '/'),
        text.len() > 0 ==> text.last() != '/',
    ensures
        without_comment(text) == text,
        without_comment(text + "//"@ + comment) == text,
{
    lemma_unquoted_scan(text);
    lemma_comment_start(text, unquoted());
    assert(without_comment(text) =~= text);
    comment_put_behind_is_taken_off(text, comment);
}

proof fn lemma_unquoted_scan(text: Seq<char>)
    requires
        forall|i: int| 0 <= i < text.len() ==> #[trigger] text[i] != '"' && text[i] != '`',
        forall|i: int|
            0 <= i < text.len() - 1 ==> !(#[trigger] text[i] == '/' && text[i + 1] == '/'),
    ensures
        comment_start(text, unquoted()) == text.len(),
        scanned(text, unquoted()) == unquoted(),
    decreases text.len(),
{
    if text.len() > 0 {
        let rest = text.skip(1);
        assert forall|i: int| 0 <= i < rest.len() implies #[trigger] rest[i] != '"' && rest[i]
            != '`' by {
            assert(rest[i] == text[i + 1]);
        }
        assert forall|i: int| 0 <= i < rest.len() - 1 implies !(#[trigger] rest[i] == '/' && rest[i
            + 1] == '/') by {
            assert(rest[i] == text[i + 1]);
            assert(rest[i + 1] == text[i + 2]);
        }
        assert(text[0] != '"' && text[0] != '`');
        if text.len() > 1 {
            assert(!(text[0] == '/' && text[1] == '/'));
        }
        lemma_unquoted_scan(rest);
    }
}

/// Slashes between backquotes begin no comment, and neither do those between quotes.
pub proof fn slashes_in_strings_begin_no_comment(inner: Seq<char>, behind: Seq<char>)
    ensures
        (forall|i: int| 0 <= i < inner.len() ==> #[trigger] inner[i] != '`') ==> without_comment(
            seq!['`'] + inner + seq!['`'] + behind,
        ) == seq!['`'] + inner + seq!['`'] + without_comment(behind),
        (forall|i: int| 0 <= i < inner.len() ==> #[trigger] inner[i] != '"' && inner[i] != '\\')
            ==> without_comment(seq!['"'] + inner + seq!['"'] + behind) == seq!['"'] + inner
            + seq!['"'] + without_comment(behind),
{
    lemma_comment_start(behind, unquoted());
    if forall|i: int| 0 <= i < inner.len() ==> #[trigger] inner[i] != '`' {
        let text = seq!['`'] + inner + seq!['`'];
        let tail = inner + seq!['`'];
        lemma_raw_scan(inner, seq!['`']);
        assert(text.skip(1) =~= tail);
        assert(text[0] == '`');
        assert(seq!['`'].skip(1) =~= seq![]);
        lemma_comment_after(text, behind, unquoted());
        assert(without_comment(text + behind) =~= text + without_comment(behind));
    }
    if forall|i: int| 0 <= i < inner.len() ==> #[trigger] inner[i] != '"' && inner[i] != '\\' {
        let text = seq!['"'] + inner + seq!['"'];
        let tail = inner + seq!['"'];
        lemma_quoted_scan(inner, seq!['"']);
        assert(text.skip(1) =~= tail);
        assert(text[0] == '"');
        assert(seq!['"'].skip(1) =~= seq![]);
        lemma_comment_after(text, behind, unquoted());
        assert(without_comment(text + behind) =~= text + without_comment(behind));
    }
}

/// A string that JSON wrote begins no comment, whatever it holds: an escaped quote does
/// not end it, and an escaped backslash does not escape the quote that does.
pub proof fn written_strings_begin_no_comment(text: Seq<char>, behind: Seq<char>)
    ensures
        without_comment(json_quoted(text) + behind) == json_quoted(text) + without_comment(behind),
{
    let inside = Quoting { quoted: true, raw: false, escaped: false };
    let quote = seq!['"'];
    let body = json_chars(text) + quote;
    let all = json_quoted(text);
    lemma_comment_start(behind, unquoted());
    lemma_json_scan(text);
    reveal_with_fuel(comment_start, 2);
    reveal_with_fuel(scanned, 2);
    assert(quote.skip(1) =~= seq![]);
    assert(past(inside, '"') == unquoted());
    lemma_comment_after(json_chars(text), quote, inside);
    lemma_scanned_joined(json_chars(text), quote, inside);
    assert(all[0] == '"');
    assert(all.skip(1) =~= body);
    assert(past(unquoted(), '"') == inside);
    assert(comment_start(all, unquoted()) == all.len());
    assert(scanned(all, unquoted()) == unquoted());
    lemma_comment_after(all, behind, unquoted());
    assert(without_comment(all + behind) =~= all + without_comment(behind));
}

proof fn lemma_scanned_joined(front: Seq<char>, back: Seq<char>, state: Quoting)
    ensures
        scanned(front + back, state) == scanned(back, scanned(front, state)),
    decreases front.len(),
{
    let all = front + back;
    if front.len() == 0 {
        assert(all =~= back);
    } else {
        assert(all[0] == front[0]);
        assert(all.skip(1) =~= front.skip(1) + back);
        lemma_scanned_joined(front.skip(1), back, past(state, front[0]));
    }
}

proof fn lemma_json_char_scan(c: char)
    ensures
        ({
            let inside = Quoting { quoted: true, raw: false, escaped: false };
            scanned(json_char(c), inside) == inside
        }),
{
    reveal_with_fuel(scanned, 7);
    let inside = Quoting { quoted: true, raw: false, escaped: false };
    let written = json_char(c);
    if c == '"' || c == '\\' || c == '\u{8}' || c == '\t' || c == '\n' || c == '\u{c}' || c
        == '\r' {
        assert(written.skip(1) =~= seq![written[1]]);
        assert(written.skip(1).skip(1) =~= seq![]);
    } else if c >= ' ' {
        assert(written.skip(1) =~= seq![]);
    } else {
        let a = hex_digit(c as int / 16);
        let b = hex_digit(c as int % 16);
        assert(0 <= c as int / 16 < 16);
        assert(0 <= c as int % 16 < 16);
        assert(a != '"' && a != '\\' && b != '"' && b != '\\');
        assert(written.skip(1) =~= seq!['u', '0', '0', a, b]);
        assert(seq!['u', '0', '0', a, b].skip(1) =~= seq!['0', '0', a, b]);
        assert(seq!['0', '0', a, b].skip(1) =~= seq!['0', a, b]);
        assert(seq!['0', a, b].skip(1) =~= seq![a, b]);
        assert(seq![a, b].skip(1) =~= seq![b]);
        assert(seq![b].skip(1) =~= seq![]);
    }
}

proof fn lemma_json_scan(text: Seq<char>)
    ensures
        ({
            let inside = Quoting { quoted: true, raw: false, escaped: false };
            &&& scanned(json_chars(text), inside) == inside
            &&& comment_start(json_chars(text), inside) == json_chars(text).len()
        }),
    decreases text.len(),
{
    let inside = Quoting { quoted: true, raw: false, escaped: false };
    if text.len() > 0 {
        let front = json_chars(text.drop_last());
        let last = json_char(text.last());
        lemma_json_scan(text.drop_last());
        lemma_json_char_scan(text.last());
        lemma_json_char_comment(text.last());
        lemma_scanned_joined(front, last, inside);
        lemma_comment_joined(front, last, inside);
    }
}

proof fn lemma_json_char_comment(c: char)
    ensures
        ({
            let inside = Quoting { quoted: true, raw: false, escaped: false };
            comment_start(json_char(c), inside) == json_char(c).len()
        }),
{
    reveal_with_fuel(comment_start, 7);
    let written = json_char(c);
    if c == '"' || c == '\\' || c == '\u{8}' || c == '\t' || c == '\n' || c == '\u{c}' || c
        == '\r' {
        assert(written.skip(1) =~= seq![written[1]]);
        assert(written.skip(1).skip(1) =~= seq![]);
    } else if c >= ' ' {
        assert(written.skip(1) =~= seq![]);
    } else {
        let a = hex_digit(c as int / 16);
        let b = hex_digit(c as int % 16);
        assert(0 <= c as int / 16 < 16);
        assert(0 <= c as int % 16 < 16);
        assert(a != '"' && a != '\\' && b != '"' && b != '\\');
        assert(written.skip(1) =~= seq!['u', '0', '0', a, b]);
        assert(seq!['u', '0', '0', a, b].skip(1) =~= seq!['0', '0', a, b]);
        assert(seq!['0', '0', a, b].skip(1) =~= seq!['0', a, b]);
        assert(seq!['0', a, b].skip(1) =~= seq![a, b]);
        assert(seq![a, b].skip(1) =~= seq![b]);
        assert(seq![b].skip(1) =~= seq![]);
    }
}

proof fn lemma_comment_joined(front: Seq<char>, back: Seq<char>, state: Quoting)
    requires
        comment_start(front, state) == front.len(),
        scanned(front, state).quoted,
    ensures
        comment_start(front + back, state) == front.len() + comment_start(
            back,
            scanned(front, state),
        ),
    decreases front.len(),
{
    let all = front + back;
    if front.len() == 0 {
        assert(all =~= back);
    } else {
        let rest = front.skip(1);
        let next = past(state, front[0]);
        assert(all[0] == front[0]);
        assert(all.skip(1) =~= rest + back);
        if front.len() > 1 {
            assert(all[1] == front[1]);
        } else {
            assert(rest =~= seq![]);
            assert(scanned(rest, next) == next);
        }
        lemma_comment_joined(rest, back, next);
    }
}

proof fn lemma_raw_scan(inner: Seq<char>, end: Seq<char>)
    requires
        forall|i: int| 0 <= i < inner.len() ==> #[trigger] inner[i] != '`',
        end == seq!['`'],
    ensures
        ({
            let state = Quoting { quoted: false, raw: true, escaped: false };
            &&& comment_start(inner + end, state) == inner.len() + 1
            &&& scanned(inner + end, state) == unquoted()
        }),
    decreases inner.len(),
{
    reveal_with_fuel(comment_start, 2);
    reveal_with_fuel(scanned, 2);
    let all = inner + end;
    if inner.len() == 0 {
        assert(all =~= end);
        assert(end.skip(1) =~= seq![]);
    } else {
        let rest = inner.skip(1);
        assert forall|i: int| 0 <= i < rest.len() implies #[trigger] rest[i] != '`' by {
            assert(rest[i] == inner[i + 1]);
        }
        assert(inner[0] != '`');
        assert(all[0] == inner[0]);
        assert(all.skip(1) =~= rest + end);
        lemma_raw_scan(rest, end);
    }
}

proof fn lemma_quoted_scan(inner: Seq<char>, end: Seq<char>)
    requires
        forall|i: int| 0 <= i < inner.len() ==> #[trigger] inner[i] != '"' && inner[i] != '\\',
        end == seq!['"'],
    ensures
        ({
            let state = Quoting { quoted: true, raw: false, escaped: false };
            &&& comment_start(inner + end, state) == inner.len() + 1
            &&& scanned(inner + end, state) == unquoted()
        }),
    decreases inner.len(),
{
    reveal_with_fuel(comment_start, 2);
    reveal_with_fuel(scanned, 2);
    let all = inner + end;
    if inner.len() == 0 {
        assert(all =~= end);
        assert(end.skip(1) =~= seq![]);
    } else {
        let rest = inner.skip(1);
        assert forall|i: int| 0 <= i < rest.len() implies #[trigger] rest[i] != '"' && rest[i]
            != '\\' by {
            assert(rest[i] == inner[i + 1]);
        }
        assert(inner[0] != '"' && inner[0] != '\\');
        assert(all[0] == inner[0]);
        assert(all.skip(1) =~= rest + end);
        lemma_quoted_scan(rest, end);
    }
}

} // verus!
