//! Laws of the manifests: what is written is read back.
use crate::collections::sorted;
use crate::error::Failure;
use crate::laws::texts::line_feeds_split_lines;
use crate::listing::unlines;
use crate::prune::{
    needed_replacements, pruned_work, replace_lines, required_modules, use_lines, use_path,
    use_paths, work_lines, work_version, PruneModel,
};
use crate::syntax::{
    at_version, comment_here, comment_start, directives, empty_work, lemma_comment_start,
    lemma_first_at, past, raw_quoted, read_directives, rendered, replacement_of, unquote_text, unquoted,
    with_work_directive, with_work_directives, without_comment, work_outcome, Quoting,
    ReplacementModel, WorkModel,
};
use crate::text::{
    blank, lemma_line_len_is, lemma_word_len, lemma_word_len_is, lines, word_len, words,
};
use vstd::prelude::*;

verus! {

/// No character of `text` is blank.
pub open spec fn unbroken(text: Seq<char>) -> bool {
    forall|i: int| 0 <= i < text.len() ==> !blank(#[trigger] text[i])
}

/// `text` can stand as a field of a directive: it is one word without a comment.
pub open spec fn is_word(text: Seq<char>) -> bool {
    text.len() > 0 && unbroken(text) && without_comment(text) == text
}

proof fn lemma_words_first(word: Seq<char>, rest: Seq<char>)
    requires
        word.len() > 0,
        unbroken(word),
        rest.len() > 0 ==> blank(rest[0]),
    ensures
        words(word + rest) == seq![word] + words(rest),
{
    let text = word + rest;
    assert forall|i: int| 0 <= i < word.len() implies !blank(#[trigger] text[i]) by {
        assert(text[i] == word[i]);
    }
    lemma_word_len_is(text, word.len() as int);
    assert(text.take(word.len() as int) =~= word);
    assert(text.skip(word.len() as int) =~= rest);
    assert(!blank(text[0]));
}

proof fn lemma_words_blank(c: char, rest: Seq<char>)
    requires
        blank(c),
    ensures
        words(seq![c] + rest) == words(rest),
{
    assert((seq![c] + rest).skip(1) =~= rest);
}

pub proof fn lemma_words_only(word: Seq<char>)
    requires
        word.len() > 0,
        unbroken(word),
    ensures
        words(word) == seq![word],
{
    let none = Seq::<char>::empty();
    lemma_words_first(word, none);
    assert(word + none =~= word);
    assert(words(none) =~= seq![]);
    assert(seq![word] + words(none) =~= seq![word]);
}

/// A first word does not depend on how far the blank behind it is from the next.
pub proof fn lemma_words_pair(word: Seq<char>, rest: Seq<char>)
    requires
        word.len() > 0,
        unbroken(word),
    ensures
        words(word + seq![' '] + rest) == seq![word] + words(rest),
{
    lemma_words_blank(' ', rest);
    lemma_words_first(word, seq![' '] + rest);
    assert(word + seq![' '] + rest =~= word + (seq![' '] + rest));
}

/// A character that neither opens a string nor begins a comment.
pub open spec fn neutral(c: char) -> bool {
    c != '"' && c != '`' && c != '/'
}

proof fn lemma_comment_behind(prefix: Seq<char>, rest: Seq<char>)
    requires
        forall|i: int| 0 <= i < prefix.len() ==> neutral(#[trigger] prefix[i]),
    ensures
        comment_start(prefix + rest, unquoted()) == prefix.len() + comment_start(rest, unquoted()),
        without_comment(prefix + rest) == prefix + without_comment(rest),
    decreases prefix.len(),
{
    let line = prefix + rest;
    if prefix.len() > 0 {
        let tail = prefix.skip(1);
        assert forall|i: int| 0 <= i < tail.len() implies neutral(#[trigger] tail[i]) by {
            assert(tail[i] == prefix[i + 1]);
        }
        lemma_comment_behind(tail, rest);
        assert(neutral(prefix[0]));
        assert(line[0] == prefix[0]);
        assert(line.skip(1) =~= tail + rest);
        assert(past(unquoted(), line[0]) == unquoted());
    } else {
        assert(line =~= rest);
    }
    lemma_comment_start(rest, unquoted());
    assert(without_comment(line) =~= prefix + without_comment(rest));
}

proof fn lemma_unlines_first(all: Seq<Seq<char>>)
    requires
        all.len() > 0,
    ensures
        unlines(all) == all[0] + seq!['\n'] + unlines(all.skip(1)),
    decreases all.len(),
{
    reveal_strlit("\n");
    assert("\n"@ =~= seq!['\n']);
    if all.len() == 1 {
        assert(all.drop_last() =~= seq![]);
        assert(all.skip(1) =~= seq![]);
        reveal_with_fuel(unlines, 2);
        assert(unlines(all) =~= all[0] + seq!['\n'] + unlines(all.skip(1)));
    } else {
        lemma_unlines_first(all.drop_last());
        assert(all.drop_last().skip(1) =~= all.skip(1).drop_last());
        assert(unlines(all) =~= all[0] + seq!['\n'] + unlines(all.skip(1)));
    }
}

/// A text that is one line and keeps its end when it is written and read.
pub open spec fn is_line(text: Seq<char>) -> bool {
    &&& forall|i: int| 0 <= i < text.len() ==> #[trigger] text[i] != '\n'
    &&& text.len() > 0 ==> text.last() != '\r'
}

/// Lines that are written one after the other are read back as they are.
pub proof fn lines_are_read_back(all: Seq<Seq<char>>)
    requires
        forall|i: int| 0 <= i < all.len() ==> is_line(#[trigger] all[i]),
    ensures
        lines(unlines(all)) == all,
    decreases all.len(),
{
    if all.len() == 0 {
        assert(lines(unlines(all)) =~= all);
    } else {
        let rest = all.skip(1);
        assert forall|i: int| 0 <= i < rest.len() implies is_line(#[trigger] rest[i]) by {
            assert(rest[i] == all[i + 1]);
        }
        lines_are_read_back(rest);
        lemma_unlines_first(all);
        let text = unlines(all);
        let first = all[0];
        assert(is_line(first));
        assert forall|i: int| 0 <= i < first.len() implies #[trigger] text[i] != '\n' by {
            assert(text[i] == first[i]);
        }
        lemma_line_len_is(text, first.len() as int);
        assert(text.take(first.len() as int) =~= first);
        assert(text.skip(first.len() as int + 1) =~= unlines(rest));
        assert(lines(text) =~= all);
    }
}

/// The fields of a `replace` directive.
pub open spec fn replace_fields(replacement: ReplacementModel) -> Seq<Seq<char>> {
    seq![replacement.old] + (match replacement.old_version {
        Some(version) => seq![version],
        None => seq![],
    }) + seq!["=>"@, replacement.new] + (match replacement.version {
        Some(version) => seq![version],
        None => seq![],
    })
}

/// `replacement` can be written as a directive: each of its parts is one word,
/// none in front of the arrow is an arrow itself, and the line holds no comment.
pub open spec fn is_writable(replacement: ReplacementModel) -> bool {
    &&& replacement.old.len() > 0 && unbroken(replacement.old) && replacement.old != "=>"@
    &&& replacement.old_version matches Some(version) ==> version.len() > 0 && unbroken(version)
        && version != "=>"@
    &&& replacement.new.len() > 0 && unbroken(replacement.new)
    &&& replacement.version matches Some(version) ==> version.len() > 0 && unbroken(version)
    &&& without_comment(rendered(replacement)) == rendered(replacement)
}

proof fn lemma_replace_literals()
    ensures
        " "@ == seq![' '],
        " => "@ == seq![' '] + "=>"@ + seq![' '],
        "replace "@ == "replace"@ + seq![' '],
        "=>"@.len() == 2,
        "=>"@[0] == '=',
        "=>"@[1] == '>',
        "replace"@.len() == 7,
        unbroken("=>"@),
        unbroken("replace"@),
{
    reveal_strlit(" ");
    reveal_strlit(" => ");
    reveal_strlit("=>");
    reveal_strlit("replace ");
    reveal_strlit("replace");
    assert(" "@ =~= seq![' ']);
    assert(" => "@ =~= seq![' '] + "=>"@ + seq![' ']);
    assert("replace "@ =~= "replace"@ + seq![' ']);
}

proof fn lemma_words_versioned(name: Seq<char>, version: Option<Seq<char>>)
    requires
        name.len() > 0,
        unbroken(name),
        version matches Some(version) ==> version.len() > 0 && unbroken(version),
    ensures
        words(name + at_version(version)) == seq![name] + (match version {
            Some(version) => seq![version],
            None => seq![],
        }),
{
    lemma_replace_literals();
    match version {
        Some(version) => {
            lemma_words_only(version);
            lemma_words_pair(name, version);
            assert(name + at_version(Some(version)) =~= name + seq![' '] + version);
        },
        None => {
            lemma_words_only(name);
            assert(name + at_version(None) =~= name);
            assert(seq![name] + Seq::<Seq<char>>::empty() =~= seq![name]);
        },
    }
}

proof fn lemma_rendered_words(replacement: ReplacementModel)
    requires
        is_writable(replacement),
    ensures
        words(rendered(replacement)) == seq!["replace"@] + replace_fields(replacement),
{
    lemma_replace_literals();
    let target = replacement.new + at_version(replacement.version);
    lemma_words_versioned(replacement.new, replacement.version);
    let arrow = "=>"@ + seq![' '] + target;
    lemma_words_pair("=>"@, target);
    let source = match replacement.old_version {
        Some(version) => version + seq![' '] + arrow,
        None => arrow,
    };
    if let Some(version) = replacement.old_version {
        lemma_words_pair(version, arrow);
    }
    let body = replacement.old + seq![' '] + source;
    lemma_words_pair(replacement.old, source);
    lemma_words_pair("replace"@, body);
    assert(rendered(replacement) =~= "replace"@ + seq![' '] + body);
    assert(seq!["replace"@] + words(body) =~= seq!["replace"@] + replace_fields(replacement));
}

/// A replacement that is written as a directive is read back as it was.
pub proof fn replacement_is_read_back(replacement: ReplacementModel)
    requires
        is_writable(replacement),
    ensures
        directives(rendered(replacement)) == seq![("replace"@, replace_fields(replacement))],
        replacement_of(replace_fields(replacement)) == Some(replacement),
{
    let fields = replace_fields(replacement);
    let line = rendered(replacement);
    lemma_replace_literals();
    lemma_rendered_words(replacement);
    lemma_rendered_line(replacement);
    lemma_one_line(line);
    let none = Seq::<Seq<char>>::empty();
    lemma_replace_step(replacement, none);
    assert(seq![line] + none =~= seq![line]);
    assert(read_directives(none, None) =~= seq![]);
    assert(directives(line) =~= seq![("replace"@, fields)]);
}

/// A line needs no ending to be read.
proof fn lemma_one_line(line: Seq<char>)
    requires
        line.len() > 0,
        is_line(line),
    ensures
        lines(line) == seq![line],
{
    lemma_line_len_is(line, line.len() as int);
}

proof fn lemma_rendered_line(replacement: ReplacementModel)
    requires
        is_writable(replacement),
    ensures
        rendered(replacement).len() > 0,
        is_line(rendered(replacement)),
{
    lemma_replace_literals();
    let line = rendered(replacement);
    let head = "replace "@ + replacement.old;
    let source = head + at_version(replacement.old_version);
    let arrow = source + " => "@;
    let target = arrow + replacement.new;
    assert(line == target + at_version(replacement.version));
    assert forall|i: int| 0 <= i < line.len() implies #[trigger] line[i] != '\n' && line[i] != '\r' by {
        if i < 8 {
            assert(line[i] == "replace "@[i]);
            reveal_strlit("replace ");
        } else if i < head.len() {
            assert(line[i] == replacement.old[i - 8]);
        } else if i < source.len() {
            assert(line[i] == at_version(replacement.old_version)[i - head.len()]);
            let version = replacement.old_version->0;
            if i > head.len() {
                assert(line[i] == version[i - head.len() - 1]);
            }
        } else if i < arrow.len() {
            assert(line[i] == " => "@[i - source.len()]);
            reveal_strlit(" => ");
        } else if i < target.len() {
            assert(line[i] == replacement.new[i - arrow.len()]);
        } else {
            assert(line[i] == at_version(replacement.version)[i - target.len()]);
            let version = replacement.version->0;
            if i > target.len() {
                assert(line[i] == version[i - target.len() - 1]);
            }
        }
    }
}

proof fn lemma_replace_step(replacement: ReplacementModel, rest: Seq<Seq<char>>)
    requires
        is_writable(replacement),
    ensures
        read_directives(seq![rendered(replacement)] + rest, None) == seq![
            ("replace"@, replace_fields(replacement)),
        ] + read_directives(rest, None),
        replacement_of(replace_fields(replacement)) == Some(replacement),
{
    let all = seq![rendered(replacement)] + rest;
    let fields = replace_fields(replacement);
    lemma_replace_literals();
    lemma_rendered_words(replacement);
    assert(all.skip(1) =~= rest);
    let written = words(without_comment(all[0]));
    assert(written.skip(1) =~= fields);
    assert(written[0] == "replace"@);
    let arrow: int = if replacement.old_version is Some {
        2
    } else {
        1
    };
    lemma_first_at(fields, "=>"@, arrow);
}

/// The directives of a `go.work`.
spec fn work_directives(
    version: Seq<char>,
    toolchain: Option<Seq<char>>,
    paths: Seq<Seq<char>>,
    replacements: Seq<ReplacementModel>,
) -> Seq<(Seq<char>, Seq<Seq<char>>)> {
    seq![("go"@, seq![version])] + (match toolchain {
        Some(toolchain) => seq![("toolchain"@, seq![toolchain])],
        None => seq![],
    }) + use_directives(paths) + replace_directives(replacements)
}

spec fn use_directives(paths: Seq<Seq<char>>) -> Seq<(Seq<char>, Seq<Seq<char>>)> {
    paths.map_values(|path: Seq<char>| ("use"@, seq![path]))
}

spec fn replace_directives(replacements: Seq<ReplacementModel>) -> Seq<
    (Seq<char>, Seq<Seq<char>>),
> {
    replacements.map_values(
        |replacement: ReplacementModel| ("replace"@, replace_fields(replacement)),
    )
}

/// `path` can stand in a block of `use` directives: it is one word, stands for
/// itself, and does not close the block.
pub open spec fn is_use_path(path: Seq<char>) -> bool {
    &&& is_word(path)
    &&& unquote_text(path) == Ok::<Seq<char>, Seq<char>>(path)
    &&& path != ")"@
}

proof fn lemma_work_literals()
    ensures
        "go "@ == "go"@ + seq![' '],
        "toolchain "@ == "toolchain"@ + seq![' '],
        "use ("@ == "use"@ + seq![' '] + "("@,
        "\t"@ == seq!['\t'],
        "("@ == seq!['('],
        ")"@ == seq![')'],
        "go"@.len() == 2,
        "use"@.len() == 3,
        "replace"@.len() == 7,
        "toolchain"@.len() == 9,
        unbroken("go"@),
        unbroken("toolchain"@),
        unbroken("use"@),
        forall|i: int| 0 <= i < "go "@.len() ==> neutral(#[trigger] "go "@[i]),
        forall|i: int| 0 <= i < "toolchain "@.len() ==> neutral(#[trigger] "toolchain "@[i]),
        forall|i: int| 0 <= i < "use ("@.len() ==> neutral(#[trigger] "use ("@[i]),
{
    reveal_strlit("go ");
    reveal_strlit("go");
    reveal_strlit("toolchain ");
    reveal_strlit("toolchain");
    reveal_strlit("use (");
    reveal_strlit("use");
    reveal_strlit("replace");
    reveal_strlit("(");
    reveal_strlit(")");
    reveal_strlit("\t");
    assert("go "@ =~= "go"@ + seq![' ']);
    assert("toolchain "@ =~= "toolchain"@ + seq![' ']);
    assert("use ("@ =~= "use"@ + seq![' '] + "("@);
    assert("\t"@ =~= seq!['\t']);
    assert("("@ =~= seq!['(']);
    assert(")"@ =~= seq![')']);
}

/// A directive of one field on a line of its own.
proof fn lemma_single_step(kind: Seq<char>, value: Seq<char>, rest: Seq<Seq<char>>)
    requires
        kind.len() > 0,
        unbroken(kind),
        forall|i: int| 0 <= i < kind.len() ==> neutral(#[trigger] kind[i]),
        is_word(value),
        value != "("@,
    ensures
        read_directives(seq![kind + seq![' '] + value] + rest, None) == seq![
            (kind, seq![value]),
        ] + read_directives(rest, None),
{
    let line = kind + seq![' '] + value;
    let all = seq![line] + rest;
    let prefix = kind + seq![' '];
    assert forall|i: int| 0 <= i < prefix.len() implies neutral(#[trigger] prefix[i]) by {
        if i < kind.len() {
            assert(prefix[i] == kind[i]);
        }
    }
    lemma_comment_behind(prefix, value);
    lemma_words_only(value);
    lemma_words_pair(kind, value);
    assert(all.skip(1) =~= rest);
    let written = words(without_comment(all[0]));
    assert(written =~= seq![kind, value]);
    assert(written.skip(1) =~= seq![value]);
}

/// A line of a block of `use` directives.
proof fn lemma_use_steps(paths: Seq<Seq<char>>, rest: Seq<Seq<char>>)
    requires
        forall|i: int| 0 <= i < paths.len() ==> is_use_path(#[trigger] paths[i]),
    ensures
        read_directives(use_lines(paths) + rest, Some("use"@)) == use_directives(paths)
            + read_directives(rest, Some("use"@)),
    decreases paths.len(),
{
    lemma_work_literals();
    if paths.len() == 0 {
        assert(use_lines(paths) + rest =~= rest);
        assert(use_directives(paths) + read_directives(rest, Some("use"@)) =~= read_directives(
            rest,
            Some("use"@),
        ));
    } else {
        let more = paths.skip(1);
        assert forall|i: int| 0 <= i < more.len() implies is_use_path(#[trigger] more[i]) by {
            assert(more[i] == paths[i + 1]);
        }
        lemma_use_steps(more, rest);
        let path = paths[0];
        assert(is_use_path(path));
        let all = use_lines(paths) + rest;
        assert(all.skip(1) =~= use_lines(more) + rest);
        assert(all[0] == seq!['\t'] + path);
        lemma_comment_behind(seq!['\t'], path);
        lemma_words_blank('\t', path);
        lemma_words_only(path);
        let written = words(without_comment(all[0]));
        assert(written == seq![path]);
        assert(read_directives(all, Some("use"@)) =~= use_directives(paths) + read_directives(
            rest,
            Some("use"@),
        ));
    }
}

proof fn lemma_replace_steps(replacements: Seq<ReplacementModel>, rest: Seq<Seq<char>>)
    requires
        forall|i: int| 0 <= i < replacements.len() ==> is_writable(#[trigger] replacements[i]),
    ensures
        read_directives(replace_lines(replacements) + rest, None) == replace_directives(
            replacements,
        ) + read_directives(rest, None),
    decreases replacements.len(),
{
    if replacements.len() == 0 {
        assert(replace_lines(replacements) + rest =~= rest);
        assert(replace_directives(replacements) + read_directives(rest, None) =~= read_directives(
            rest,
            None,
        ));
    } else {
        let earlier = replacements.drop_last();
        let last = replacements.last();
        assert(is_writable(last));
        assert forall|i: int| 0 <= i < earlier.len() implies is_writable(#[trigger] earlier[i]) by {
            assert(earlier[i] == replacements[i]);
        }
        let line = seq![rendered(last)] + rest;
        let tail = seq![Seq::<char>::empty()] + line;
        lemma_replace_steps(earlier, tail);
        lemma_blank_step(Seq::empty(), line, None);
        lemma_replace_step(last, rest);
        assert(replace_lines(replacements) + rest =~= replace_lines(earlier) + tail);
        assert(replace_directives(replacements) =~= replace_directives(earlier) + seq![
            ("replace"@, replace_fields(last)),
        ]);
        assert(replace_directives(earlier) + (seq![("replace"@, replace_fields(last))]
            + read_directives(rest, None)) =~= replace_directives(replacements) + read_directives(
            rest,
            None,
        ));
    }
}

/// A line without a word says nothing.
proof fn lemma_blank_step(line: Seq<char>, rest: Seq<Seq<char>>, block: Option<Seq<char>>)
    requires
        words(without_comment(line)).len() == 0,
    ensures
        read_directives(seq![line] + rest, block) == read_directives(rest, block),
{
    assert((seq![line] + rest).skip(1) =~= rest);
}

proof fn lemma_work_lines(
    version: Seq<char>,
    toolchain: Option<Seq<char>>,
    paths: Seq<Seq<char>>,
    replacements: Seq<ReplacementModel>,
)
    requires
        is_word(version),
        version != "("@,
        toolchain matches Some(toolchain) ==> is_word(toolchain) && toolchain != "("@,
        forall|i: int| 0 <= i < paths.len() ==> is_use_path(#[trigger] paths[i]),
        forall|i: int| 0 <= i < replacements.len() ==> is_writable(#[trigger] replacements[i]),
    ensures
        read_directives(work_lines(version, toolchain, paths, replacements), None)
            == work_directives(version, toolchain, paths, replacements),
{
    lemma_work_literals();
    let none = Seq::<char>::empty();
    let replaces = replace_lines(replacements);
    lemma_replace_steps(replacements, seq![]);
    assert(replaces + Seq::<Seq<char>>::empty() =~= replaces);
    assert(replace_directives(replacements) + read_directives(seq![], None)
        =~= replace_directives(replacements));
    let closing = seq![")"@] + replaces;
    assert(read_directives(closing, Some("use"@)) == read_directives(replaces, None)) by {
        assert(closing.skip(1) =~= replaces);
        lemma_comment_behind(")"@, none);
        assert(without_comment(none) =~= none);
        assert(")"@ + none =~= ")"@);
        lemma_words_only(")"@);
    }
    let used = use_lines(paths) + closing;
    lemma_use_steps(paths, closing);
    let opening = seq!["use ("@] + used;
    assert(read_directives(opening, None) == read_directives(used, Some("use"@))) by {
        assert(opening.skip(1) =~= used);
        lemma_comment_behind("use ("@, none);
        assert(without_comment(none) =~= none);
        assert("use ("@ + none =~= "use ("@);
        lemma_words_only("("@);
        lemma_words_pair("use"@, "("@);
        assert(words("use ("@) =~= seq!["use"@, "("@]);
    }
    let middle = seq![none] + opening;
    assert(without_comment(none) =~= none);
    lemma_blank_step(none, opening, None);
    let chain = match toolchain {
        Some(toolchain) => seq!["toolchain "@ + toolchain],
        None => seq![],
    };
    let chained = chain + middle;
    if let Some(toolchain) = toolchain {
        lemma_kind_neutral("toolchain"@, "toolchain "@);
        lemma_single_step("toolchain"@, toolchain, middle);
        assert("toolchain "@ + toolchain =~= "toolchain"@ + seq![' '] + toolchain);
    } else {
        assert(chained =~= middle);
    }
    lemma_kind_neutral("go"@, "go "@);
    lemma_single_step("go"@, version, chained);
    assert("go "@ + version =~= "go"@ + seq![' '] + version);
    let all = work_lines(version, toolchain, paths, replacements);
    assert(all =~= seq!["go "@ + version] + chained);
    assert(read_directives(all, None) =~= work_directives(
        version,
        toolchain,
        paths,
        replacements,
    ));
}

proof fn lemma_kind_neutral(kind: Seq<char>, prefix: Seq<char>)
    requires
        prefix == kind + seq![' '],
        forall|i: int| 0 <= i < prefix.len() ==> neutral(#[trigger] prefix[i]),
    ensures
        forall|i: int| 0 <= i < kind.len() ==> neutral(#[trigger] kind[i]),
{
    assert forall|i: int| 0 <= i < kind.len() implies neutral(#[trigger] kind[i]) by {
        assert(prefix[i] == kind[i]);
    }
}

proof fn lemma_prefixed_line(prefix: Seq<char>, word: Seq<char>)
    requires
        forall|i: int|
            0 <= i < prefix.len() ==> #[trigger] prefix[i] != '\n' && prefix[i] != '\r',
        unbroken(word),
    ensures
        is_line(prefix + word),
{
    let line = prefix + word;
    assert forall|i: int| 0 <= i < line.len() implies #[trigger] line[i] != '\n' && line[i] != '\r' by {
        if i < prefix.len() {
            assert(line[i] == prefix[i]);
        } else {
            assert(line[i] == word[i - prefix.len()]);
        }
    }
}

proof fn lemma_replace_are_lines(replacements: Seq<ReplacementModel>)
    requires
        forall|i: int| 0 <= i < replacements.len() ==> is_writable(#[trigger] replacements[i]),
    ensures
        forall|i: int|
            0 <= i < replace_lines(replacements).len() ==> is_line(
                #[trigger] replace_lines(replacements)[i],
            ),
    decreases replacements.len(),
{
    if replacements.len() > 0 {
        let earlier = replacements.drop_last();
        assert(is_writable(replacements.last()));
        assert forall|i: int| 0 <= i < earlier.len() implies is_writable(#[trigger] earlier[i]) by {
            assert(earlier[i] == replacements[i]);
        }
        lemma_replace_are_lines(earlier);
        lemma_rendered_line(replacements.last());
        let all = replace_lines(replacements);
        let before = replace_lines(earlier);
        assert forall|i: int| 0 <= i < all.len() implies is_line(#[trigger] all[i]) by {
            if i < before.len() {
                assert(all[i] == before[i]);
            }
        }
    }
}

proof fn lemma_work_are_lines(
    version: Seq<char>,
    toolchain: Option<Seq<char>>,
    paths: Seq<Seq<char>>,
    replacements: Seq<ReplacementModel>,
)
    requires
        unbroken(version),
        toolchain matches Some(toolchain) ==> unbroken(toolchain),
        forall|i: int| 0 <= i < paths.len() ==> is_use_path(#[trigger] paths[i]),
        forall|i: int| 0 <= i < replacements.len() ==> is_writable(#[trigger] replacements[i]),
    ensures
        forall|i: int|
            0 <= i < work_lines(version, toolchain, paths, replacements).len() ==> is_line(
                #[trigger] work_lines(version, toolchain, paths, replacements)[i],
            ),
{
    reveal_strlit("go ");
    reveal_strlit("toolchain ");
    reveal_strlit("use (");
    reveal_strlit(")");
    reveal_strlit("\t");
    let all = work_lines(version, toolchain, paths, replacements);
    let first = seq!["go "@ + version];
    let chain = first + (match toolchain {
        Some(toolchain) => seq!["toolchain "@ + toolchain],
        None => seq![],
    });
    let opened = chain + seq![Seq::<char>::empty(), "use ("@];
    let used = opened + use_lines(paths);
    let closed = used + seq![")"@];
    assert(all == closed + replace_lines(replacements));
    lemma_prefixed_line("go "@, version);
    if let Some(toolchain) = toolchain {
        lemma_prefixed_line("toolchain "@, toolchain);
    }
    lemma_replace_are_lines(replacements);
    assert forall|i: int| 0 <= i < all.len() implies is_line(#[trigger] all[i]) by {
        if i < first.len() {
        } else if i < chain.len() {
            assert(all[i] == chain[i]);
        } else if i < opened.len() {
            assert(all[i] == opened[i]);
        } else if i < used.len() {
            let path = paths[i - opened.len()];
            assert(is_use_path(path));
            assert(all[i] == use_lines(paths)[i - opened.len()]);
            lemma_prefixed_line("\t"@, path);
        } else if i < closed.len() {
            assert(all[i] == ")"@);
        } else {
            assert(all[i] == replace_lines(replacements)[i - closed.len()]);
        }
    }
}

proof fn lemma_kinds_differ()
    ensures
        "toolchain"@ != "go"@,
        "use"@ != "go"@,
        "use"@ != "toolchain"@,
        "replace"@ != "go"@,
        "replace"@ != "toolchain"@,
        "replace"@ != "use"@,
{
    lemma_work_literals();
}

proof fn lemma_with_uses(
    work: WorkModel,
    paths: Seq<Seq<char>>,
    rest: Seq<(Seq<char>, Seq<Seq<char>>)>,
)
    requires
        forall|i: int| 0 <= i < paths.len() ==> is_use_path(#[trigger] paths[i]),
    ensures
        with_work_directives(work, use_directives(paths) + rest) == with_work_directives(
            (WorkModel { uses: work.uses + paths, ..work }),
            rest,
        ),
    decreases paths.len(),
{
    lemma_kinds_differ();
    let all = use_directives(paths) + rest;
    if paths.len() == 0 {
        assert(all =~= rest);
        assert(work.uses + paths =~= work.uses);
    } else {
        let more = paths.skip(1);
        assert forall|i: int| 0 <= i < more.len() implies is_use_path(#[trigger] more[i]) by {
            assert(more[i] == paths[i + 1]);
        }
        assert(is_use_path(paths[0]));
        let next = WorkModel { uses: work.uses.push(paths[0]), ..work };
        lemma_with_uses(next, more, rest);
        assert(all.skip(1) =~= use_directives(more) + rest);
        assert(all[0] == ("use"@, seq![paths[0]]));
        assert(with_work_directive(work, "use"@, seq![paths[0]]) == Ok::<WorkModel, Seq<char>>(next));
        assert(next.uses + more =~= work.uses + paths);
    }
}

proof fn lemma_with_replaces(work: WorkModel, replacements: Seq<ReplacementModel>)
    requires
        forall|i: int| 0 <= i < replacements.len() ==> is_writable(#[trigger] replacements[i]),
    ensures
        with_work_directives(work, replace_directives(replacements)) == Ok::<WorkModel, Seq<char>>(
            WorkModel { replacements: work.replacements + replacements, ..work },
        ),
    decreases replacements.len(),
{
    lemma_kinds_differ();
    let all = replace_directives(replacements);
    if replacements.len() == 0 {
        assert(work.replacements + replacements =~= work.replacements);
    } else {
        let first = replacements[0];
        let more = replacements.skip(1);
        assert(is_writable(first));
        assert forall|i: int| 0 <= i < more.len() implies is_writable(#[trigger] more[i]) by {
            assert(more[i] == replacements[i + 1]);
        }
        lemma_replace_step(first, seq![]);
        let next = WorkModel { replacements: work.replacements.push(first), ..work };
        lemma_with_replaces(next, more);
        assert(all.skip(1) =~= replace_directives(more));
        assert(all[0] == ("replace"@, replace_fields(first)));
        assert(next.replacements + more =~= work.replacements + replacements);
    }
}

/// A `go.work` that is written line by line is read back as it was: the version,
/// the toolchain, the directories and the replacements.
pub proof fn work_is_read_back(
    path: Seq<char>,
    version: Seq<char>,
    toolchain: Option<Seq<char>>,
    paths: Seq<Seq<char>>,
    replacements: Seq<ReplacementModel>,
)
    requires
        is_word(version) && version != "("@,
        toolchain matches Some(toolchain) ==> is_word(toolchain) && toolchain != "("@,
        forall|i: int| 0 <= i < paths.len() ==> is_use_path(#[trigger] paths[i]),
        forall|i: int| 0 <= i < replacements.len() ==> is_writable(#[trigger] replacements[i]),
    ensures
        work_outcome(path, unlines(work_lines(version, toolchain, paths, replacements))) == Ok::<
            WorkModel,
            Failure,
        >(
            WorkModel { go_version: Some(version), toolchain, uses: paths, replacements },
        ),
{
    lemma_kinds_differ();
    let all = work_lines(version, toolchain, paths, replacements);
    lemma_work_are_lines(version, toolchain, paths, replacements);
    lines_are_read_back(all);
    lemma_work_lines(version, toolchain, paths, replacements);
    let uses = use_directives(paths);
    let replaces = replace_directives(replacements);
    let chain = match toolchain {
        Some(toolchain) => seq![("toolchain"@, seq![toolchain])],
        None => seq![],
    };
    let said = work_directives(version, toolchain, paths, replacements);
    let one = WorkModel { go_version: Some(version), ..empty_work() };
    assert(said[0] == ("go"@, seq![version]));
    assert(said.skip(1) =~= chain + (uses + replaces));
    let two = WorkModel { toolchain, ..one };
    if let Some(toolchain) = toolchain {
        assert(said.skip(1)[0] == ("toolchain"@, seq![toolchain]));
        assert(said.skip(1).skip(1) =~= uses + replaces);
    } else {
        assert(said.skip(1) =~= uses + replaces);
    }
    assert(with_work_directives(one, said.skip(1)) == with_work_directives(two, uses + replaces));
    lemma_with_uses(two, paths, replaces);
    let three = WorkModel { uses: two.uses + paths, ..two };
    lemma_with_replaces(three, replacements);
    assert(two.uses + paths =~= paths);
    assert(three.replacements + replacements =~= replacements);
}

proof fn lemma_use_paths(names: Seq<Seq<char>>, directories: Map<Seq<char>, Seq<char>>)
    ensures
        forall|i: int|
            0 <= i < use_paths(names, directories).len() ==> {
                let path = #[trigger] use_paths(names, directories)[i];
                path.len() > 0 && path[0] == '.'
            },
    decreases names.len(),
{
    reveal_strlit(".");
    reveal_strlit("./");
    if names.len() > 0 {
        let all = use_paths(names, directories);
        let earlier = use_paths(names.drop_last(), directories);
        lemma_use_paths(names.drop_last(), directories);
        assert forall|i: int| 0 <= i < all.len() implies {
            let path = #[trigger] all[i];
            path.len() > 0 && path[0] == '.'
        } by {
            if i < earlier.len() {
                assert(all[i] == earlier[i]);
            } else {
                assert(all[i] == use_path(directories[names.last()]));
            }
        }
    }
}

/// Pruning writes a `go.work` that says what it should: it names the version of
/// Go and the toolchain of the workspace, the directories of the modules that
/// stay, and the replacements that they need.
pub proof fn pruned_work_is_read_back(path: Seq<char>, model: PruneModel, retained: Set<Seq<char>>)
    requires
        is_word(work_version(model)) && work_version(model) != "("@,
        model.toolchain matches Some(toolchain) ==> is_word(toolchain) && toolchain != "("@,
        forall|i: int|
            0 <= i < use_paths(sorted::<String>(retained), model.directories).len() ==> is_word(
                #[trigger] use_paths(sorted::<String>(retained), model.directories)[i],
            ),
        forall|replacement: ReplacementModel|
            model.replacements.contains(replacement) && required_modules(
                retained,
                model.requirements,
            ).contains(replacement.old) ==> #[trigger] is_writable(replacement),
    ensures
        work_outcome(path, pruned_work(model, retained)) == Ok::<WorkModel, Failure>(
            WorkModel {
                go_version: Some(work_version(model)),
                toolchain: model.toolchain,
                uses: use_paths(sorted::<String>(retained), model.directories),
                replacements: needed_replacements(
                    model.replacements,
                    required_modules(retained, model.requirements),
                ),
            },
        ),
{
    let required = required_modules(retained, model.requirements);
    let needed = |replacement: ReplacementModel| required.contains(replacement.old);
    let paths = use_paths(sorted::<String>(retained), model.directories);
    let replacements = needed_replacements(model.replacements, required);
    lemma_use_paths(sorted::<String>(retained), model.directories);
    lemma_work_literals();
    assert forall|i: int| 0 <= i < paths.len() implies is_use_path(#[trigger] paths[i]) by {
        assert(is_word(paths[i]) && paths[i][0] == '.');
    }
    assert forall|i: int| 0 <= i < replacements.len() implies is_writable(
        #[trigger] replacements[i],
    ) by {
        model.replacements.lemma_filter_pred(needed, i);
        model.replacements.lemma_filter_contains_rev(needed, replacements[i]);
    }
    work_is_read_back(path, work_version(model), model.toolchain, paths, replacements);
}

proof fn lemma_comment_taken(line: Seq<char>, state: Quoting)
    ensures
        comment_start(line.take(comment_start(line, state) as int), state) == comment_start(
            line,
            state,
        ),
    decreases line.len(),
{
    lemma_comment_start(line, state);
    let n = comment_start(line, state);
    let kept = line.take(n as int);
    if n > 0 {
        let rest = line.skip(1);
        lemma_comment_start(rest, past(state, line[0]));
        lemma_comment_taken(rest, past(state, line[0]));
        assert(kept.skip(1) =~= rest.take(n - 1));
        if kept.len() > 1 {
            assert(kept[1] == line[1]);
        }
        assert(!comment_here(kept, state));
    }
}

/// Taking the comment off a line leaves its beginning, with no comment to take
/// off.
pub proof fn comment_is_taken_off_once(line: Seq<char>)
    ensures
        without_comment(line).is_prefix_of(line),
        without_comment(without_comment(line)) == without_comment(line),
{
    lemma_comment_start(line, unquoted());
    lemma_comment_taken(line, unquoted());
    let kept = without_comment(line);
    assert(kept =~= line.subrange(0, kept.len() as int));
    assert(kept.take(kept.len() as int) =~= kept);
}

/// A line that holds nothing but blanks and a comment may stand anywhere, inside
/// or outside a block.
pub proof fn blank_lines_say_nothing(
    above: Seq<Seq<char>>,
    line: Seq<char>,
    below: Seq<Seq<char>>,
    block: Option<Seq<char>>,
)
    requires
        words(without_comment(line)).len() == 0,
    ensures
        read_directives(above + seq![line] + below, block) == read_directives(
            above + below,
            block,
        ),
    decreases above.len(),
{
    let all = above + seq![line] + below;
    if above.len() == 0 {
        lemma_blank_step(line, below, block);
        assert(all =~= seq![line] + below);
        assert(above + below =~= below);
    } else {
        let rest = above.skip(1);
        let fields = words(without_comment(above[0]));
        assert(all.skip(1) =~= rest + seq![line] + below);
        assert((above + below).skip(1) =~= rest + below);
        blank_lines_say_nothing(rest, line, below, block);
        blank_lines_say_nothing(rest, line, below, None);
        if fields.len() > 0 {
            blank_lines_say_nothing(rest, line, below, Some(fields[0]));
        }
    }
}

/// `line` holds the fields of one directive: it has some, and neither opens nor
/// closes a block.
pub open spec fn is_entry(line: Seq<char>) -> bool {
    let fields = words(without_comment(line));
    &&& fields.len() > 0
    &&& fields.len() == 1 ==> fields[0] != ")"@ && fields[0] != "("@
    &&& fields.len() == 2 ==> fields[1] != "("@
}

/// Where a scan stands behind `text`.
pub open spec fn scanned(text: Seq<char>, state: Quoting) -> Quoting
    decreases text.len(),
{
    if text.len() == 0 {
        state
    } else {
        scanned(text.skip(1), past(state, text[0]))
    }
}

/// `kind` can name a directive: it is one word and leaves no string open.
pub open spec fn is_kind(kind: Seq<char>) -> bool {
    is_word(kind) && scanned(kind, unquoted()) == unquoted()
}

pub proof fn lemma_comment_after(front: Seq<char>, rest: Seq<char>, state: Quoting)
    requires
        comment_start(front, state) == front.len(),
        front.len() > 0 && rest.len() > 0 ==> front.last() != '/' || rest[0] != '/',
    ensures
        comment_start(front + rest, state) == front.len() + comment_start(
            rest,
            scanned(front, state),
        ),
    decreases front.len(),
{
    let all = front + rest;
    if front.len() == 0 {
        assert(all =~= rest);
    } else {
        assert(all[0] == front[0]);
        if front.len() > 1 {
            assert(all[1] == front[1]);
        } else if rest.len() > 0 {
            assert(all[1] == rest[0]);
        }
        assert(!comment_here(all, state));
        assert(all.skip(1) =~= front.skip(1) + rest);
        lemma_comment_after(front.skip(1), rest, past(state, front[0]));
    }
}

proof fn lemma_neutral_scan(text: Seq<char>)
    requires
        forall|i: int| 0 <= i < text.len() ==> neutral(#[trigger] text[i]),
    ensures
        scanned(text, unquoted()) == unquoted(),
    decreases text.len(),
{
    if text.len() > 0 {
        let rest = text.skip(1);
        assert(neutral(text[0]));
        assert forall|i: int| 0 <= i < rest.len() implies neutral(#[trigger] rest[i]) by {
            assert(rest[i] == text[i + 1]);
        }
        lemma_neutral_scan(rest);
    }
}

pub proof fn lemma_neutral_kind(kind: Seq<char>)
    requires
        kind.len() > 0,
        unbroken(kind),
        forall|i: int| 0 <= i < kind.len() ==> neutral(#[trigger] kind[i]),
    ensures
        is_kind(kind),
{
    let none = Seq::<char>::empty();
    lemma_comment_behind(kind, none);
    assert(without_comment(none) =~= none);
    assert(kind + none =~= kind);
    lemma_neutral_scan(kind);
}

/// `entries`, each as a directive of its own.
pub open spec fn spread(kind: Seq<char>, entries: Seq<Seq<char>>) -> Seq<Seq<char>> {
    entries.map_values(|entry: Seq<char>| kind + " "@ + entry)
}

pub proof fn lemma_behind_kind(kind: Seq<char>, line: Seq<char>)
    requires
        is_kind(kind),
    ensures
        words(without_comment(kind + " "@ + line)) == seq![kind] + words(without_comment(line)),
{
    lemma_replace_literals();
    let behind = seq![' '] + line;
    let all = kind + " "@ + line;
    assert(all =~= kind + behind);
    assert(comment_start(kind, unquoted()) == kind.len()) by {
        lemma_comment_start(kind, unquoted());
        assert(without_comment(kind).len() == kind.len());
    }
    lemma_comment_after(kind, behind, unquoted());
    lemma_comment_behind(seq![' '], line);
    lemma_comment_start(line, unquoted());
    assert(without_comment(all) =~= kind + seq![' '] + without_comment(line));
    lemma_words_pair(kind, without_comment(line));
}

proof fn lemma_spread_block(kind: Seq<char>, entries: Seq<Seq<char>>, below: Seq<Seq<char>>)
    requires
        is_kind(kind),
        forall|i: int| 0 <= i < entries.len() ==> is_entry(#[trigger] entries[i]),
    ensures
        read_directives(entries + seq![")"@] + below, Some(kind)) == read_directives(
            spread(kind, entries) + below,
            None,
        ),
    decreases entries.len(),
{
    let inside = entries + seq![")"@] + below;
    let outside = spread(kind, entries) + below;
    if entries.len() == 0 {
        let none = Seq::<char>::empty();
        lemma_work_literals();
        assert(inside =~= seq![")"@] + below);
        assert(inside.skip(1) =~= below);
        assert(outside =~= below);
        lemma_comment_behind(")"@, none);
        assert(without_comment(none) =~= none);
        assert(")"@ + none =~= ")"@);
        lemma_words_only(")"@);
    } else {
        let rest = entries.skip(1);
        assert forall|i: int| 0 <= i < rest.len() implies is_entry(#[trigger] rest[i]) by {
            assert(rest[i] == entries[i + 1]);
        }
        lemma_spread_block(kind, rest, below);
        assert(is_entry(entries[0]));
        assert(inside[0] == entries[0]);
        assert(inside.skip(1) =~= rest + seq![")"@] + below);
        assert(outside[0] == kind + " "@ + entries[0]);
        assert(outside.skip(1) =~= spread(kind, rest) + below);
        lemma_behind_kind(kind, entries[0]);
        let fields = words(without_comment(entries[0]));
        let written = words(without_comment(outside[0]));
        assert(written.skip(1) =~= fields);
        assert(written[0] == kind);
        if written.len() == 2 {
            assert(written[1] == fields[0]);
        }
    }
}

/// A block says what its entries say as directives of their own.
pub proof fn block_is_shorthand(
    kind: Seq<char>,
    entries: Seq<Seq<char>>,
    below: Seq<Seq<char>>,
)
    requires
        is_kind(kind),
        forall|i: int| 0 <= i < entries.len() ==> is_entry(#[trigger] entries[i]),
    ensures
        read_directives(seq![kind + " ("@] + entries + seq![")"@] + below, None)
            == read_directives(spread(kind, entries) + below, None),
{
    lemma_replace_literals();
    lemma_work_literals();
    reveal_strlit(" (");
    let none = Seq::<char>::empty();
    let opening = kind + " ("@;
    let all = seq![opening] + entries + seq![")"@] + below;
    assert(opening =~= kind + " "@ + "("@);
    lemma_behind_kind(kind, "("@);
    lemma_comment_behind("("@, none);
    assert(without_comment(none) =~= none);
    assert("("@ + none =~= "("@);
    lemma_words_only("("@);
    assert(words(without_comment(opening)) =~= seq![kind, "("@]);
    assert(all.skip(1) =~= entries + seq![")"@] + below);
    lemma_spread_block(kind, entries, below);
}

/// A raw string stands for whatever is between its backquotes.
pub proof fn raw_string_is_unquoted(text: Seq<char>)
    ensures
        unquote_text(raw_quoted(text)) == Ok::<Seq<char>, Seq<char>>(text),
{
    let value = raw_quoted(text);
    assert(value.subrange(1, value.len() - 1) =~= text);
}

proof fn lemma_comment_in_front(front: Seq<char>, rest: Seq<char>, state: Quoting)
    requires
        comment_start(front + rest, state) >= front.len(),
    ensures
        comment_start(front, state) == front.len(),
    decreases front.len(),
{
    if front.len() > 0 {
        let all = front + rest;
        assert(all[0] == front[0]);
        if front.len() > 1 {
            assert(all[1] == front[1]);
        }
        assert(!comment_here(front, state));
        assert(all.skip(1) =~= front.skip(1) + rest);
        lemma_comment_in_front(front.skip(1), rest, past(state, front[0]));
    }
}

/// The first word of a text without a comment is a word; behind it stand the
/// others, and no comment unless the first word opens a string.
proof fn lemma_first_word(text: Seq<char>) -> (rest: Seq<char>)
    requires
        words(text).len() > 0,
        without_comment(text) == text,
    ensures
        is_word(words(text)[0]),
        words(rest) == words(text).skip(1),
        is_kind(words(text)[0]) ==> without_comment(rest) == rest,
    decreases text.len(),
{
    if blank(text[0]) {
        let tail = text.skip(1);
        assert(text =~= seq![text[0]] + tail);
        lemma_comment_behind(seq![text[0]], tail);
        lemma_comment_start(tail, unquoted());
        assert(without_comment(tail) =~= tail);
        lemma_first_word(tail)
    } else {
        lemma_word_len(text);
        let n = word_len(text) as int;
        let word = text.take(n);
        let rest = text.skip(n);
        assert(text =~= word + rest);
        assert forall|i: int| 0 <= i < word.len() implies !blank(#[trigger] word[i]) by {
            assert(word[i] == text[i]);
        }
        lemma_comment_start(text, unquoted());
        lemma_comment_in_front(word, rest, unquoted());
        assert(without_comment(word) =~= word);
        assert(words(text).skip(1) =~= words(rest));
        if is_kind(word) {
            assert(text.take(comment_start(text, unquoted()) as int).len() == text.len());
            lemma_comment_after(word, rest, unquoted());
            lemma_comment_start(rest, unquoted());
            assert(without_comment(rest) =~= rest);
        }
        rest
    }
}

/// The first field of a directive of some kind is a word.
spec fn starts_with_word(directive: (Seq<char>, Seq<Seq<char>>)) -> bool {
    is_kind(directive.0) && directive.1.len() > 0 ==> is_word(directive.1[0])
}

proof fn lemma_directives_of_words(lines: Seq<Seq<char>>, block: Option<Seq<char>>)
    ensures
        forall|i: int|
            0 <= i < read_directives(lines, block).len() ==> starts_with_word(
                #[trigger] read_directives(lines, block)[i],
            ),
    decreases lines.len(),
{
    if lines.len() > 0 {
        let text = without_comment(lines[0]);
        let fields = words(text);
        let rest = lines.skip(1);
        lemma_directives_of_words(rest, block);
        lemma_directives_of_words(rest, None);
        if fields.len() > 0 {
            lemma_directives_of_words(rest, Some(fields[0]));
            comment_is_taken_off_once(lines[0]);
            let behind = lemma_first_word(text);
            if is_kind(fields[0]) && words(behind).len() > 0 {
                lemma_first_word(behind);
                assert(fields.skip(1)[0] == fields[1]);
            }
            let all = read_directives(lines, block);
            let directive = match block {
                Some(kind) => (kind, fields),
                None => (fields[0], fields.skip(1)),
            };
            assert(starts_with_word(directive));
            assert forall|i: int| 0 <= i < all.len() implies starts_with_word(#[trigger] all[i]) by {
                if fields.len() == 1 && fields[0] == ")"@ {
                    assert(all[i] == read_directives(rest, None)[i]);
                } else if fields.len() == 2 && fields[1] == "("@ {
                    assert(all[i] == read_directives(rest, Some(fields[0]))[i]);
                } else if i > 0 {
                    assert(all[i] == read_directives(rest, block)[i - 1]);
                }
            }
        }
    }
}

proof fn lemma_versions_are_words(work: WorkModel, said: Seq<(Seq<char>, Seq<Seq<char>>)>)
    requires
        forall|i: int| 0 <= i < said.len() ==> starts_with_word(#[trigger] said[i]),
        work.go_version matches Some(version) ==> is_word(version),
        work.toolchain matches Some(toolchain) ==> is_word(toolchain),
    ensures
        with_work_directives(work, said) matches Ok(all) ==> {
            &&& all.go_version matches Some(version) ==> is_word(version)
            &&& all.toolchain matches Some(toolchain) ==> is_word(toolchain)
        },
    decreases said.len(),
{
    if said.len() > 0 {
        assert(starts_with_word(said[0]));
        lemma_work_literals();
        lemma_kind_neutral("go"@, "go "@);
        lemma_kind_neutral("toolchain"@, "toolchain "@);
        lemma_neutral_kind("go"@);
        lemma_neutral_kind("toolchain"@);
        let rest = said.skip(1);
        assert forall|i: int| 0 <= i < rest.len() implies starts_with_word(#[trigger] rest[i]) by {
            assert(rest[i] == said[i + 1]);
        }
        if let Ok(next) = with_work_directive(work, said[0].0, said[0].1) {
            lemma_versions_are_words(next, rest);
        }
    }
}

/// The version of Go and the toolchain that are read from a `go.work` are words,
/// and so can be written again, but for a lone parenthesis.
pub proof fn read_versions_can_be_written(path: Seq<char>, contents: Seq<char>)
    ensures
        work_outcome(path, contents) matches Ok(work) ==> {
            &&& work.go_version matches Some(version) ==> is_word(version)
            &&& work.toolchain matches Some(toolchain) ==> is_word(toolchain)
        },
{
    lemma_directives_of_words(lines(contents), None);
    lemma_versions_are_words(empty_work(), directives(contents));
}

proof fn lemma_lines_joined(front: Seq<char>, back: Seq<char>)
    requires
        front.len() > 0 ==> front.last() == '\n',
    ensures
        lines(front + back) == lines(front) + lines(back),
{
    line_feeds_split_lines(front, back);
}

/// The block that is open behind `lines`, where `block` is open in front of them.
pub open spec fn block_behind(lines: Seq<Seq<char>>, block: Option<Seq<char>>) -> Option<Seq<char>>
    decreases lines.len(),
{
    if lines.len() == 0 {
        block
    } else {
        let fields = words(without_comment(lines[0]));
        let rest = lines.skip(1);
        if fields.len() == 1 && fields[0] == ")"@ {
            block_behind(rest, None)
        } else if fields.len() == 2 && fields[1] == "("@ {
            block_behind(rest, Some(fields[0]))
        } else {
            block_behind(rest, block)
        }
    }
}

pub proof fn lemma_directives_joined(
    above: Seq<Seq<char>>,
    below: Seq<Seq<char>>,
    block: Option<Seq<char>>,
)
    ensures
        read_directives(above + below, block) == read_directives(above, block)
            + read_directives(below, block_behind(above, block)),
    decreases above.len(),
{
    let all = above + below;
    if above.len() == 0 {
        assert(all =~= below);
        assert(read_directives(above, block) + read_directives(below, block) =~= read_directives(
            below,
            block,
        ));
    } else {
        let rest = above.skip(1);
        let fields = words(without_comment(above[0]));
        assert(all.skip(1) =~= rest + below);
        assert(all[0] == above[0]);
        lemma_directives_joined(rest, below, block);
        lemma_directives_joined(rest, below, None);
        if fields.len() > 0 {
            lemma_directives_joined(rest, below, Some(fields[0]));
        }
        assert(read_directives(all, block) =~= read_directives(above, block) + read_directives(
            below,
            block_behind(above, block),
        ));
    }
}

/// A text says what its parts say, where the first part ends its last line and
/// closes its blocks.
pub proof fn joined_texts_join_directives(front: Seq<char>, back: Seq<char>)
    requires
        front.len() > 0 ==> front.last() == '\n',
        block_behind(lines(front), None) is None,
    ensures
        directives(front + back) == directives(front) + directives(back),
{
    lemma_lines_joined(front, back);
    lemma_directives_joined(lines(front), lines(back), None);
}

proof fn lemma_unlines_ends(all: Seq<Seq<char>>)
    ensures
        unlines(all).len() > 0 ==> unlines(all).last() == '\n',
{
    reveal_strlit("\n");
    if all.len() > 0 {
        assert("\n"@.len() == 1 && "\n"@[0] == '\n');
    }
}

/// A text with a block says what it says with the entries of the block as
/// directives of their own.
pub proof fn block_is_shorthand_in_text(
    kind: Seq<char>,
    entries: Seq<Seq<char>>,
    below: Seq<char>,
)
    requires
        is_kind(kind),
        forall|i: int| 0 <= i < entries.len() ==> is_entry(#[trigger] entries[i]),
        forall|i: int| 0 <= i < entries.len() ==> is_line(#[trigger] entries[i]),
    ensures
        directives(unlines(seq![kind + " ("@] + entries + seq![")"@]) + below) == directives(
            unlines(spread(kind, entries)) + below,
        ),
{
    let block = seq![kind + " ("@] + entries + seq![")"@];
    let single = spread(kind, entries);
    reveal_strlit(" (");
    reveal_strlit(")");
    reveal_strlit(" ");
    assert forall|i: int| 0 <= i < block.len() implies is_line(#[trigger] block[i]) by {
        if i == 0 {
            let line = block[0];
            assert forall|j: int| 0 <= j < line.len() implies #[trigger] line[j] != '\n' by {
                if j < kind.len() {
                    assert(line[j] == kind[j]);
                } else {
                    assert(line[j] == " ("@[j - kind.len()]);
                }
            }
            assert(line.last() == '(');
        } else if i < block.len() - 1 {
            assert(block[i] == entries[i - 1]);
        }
    }
    assert forall|i: int| 0 <= i < single.len() implies is_line(#[trigger] single[i]) by {
        let entry = entries[i];
        let line = single[i];
        assert(is_line(entry) && is_entry(entry));
        assert(line == kind + " "@ + entry);
        if entry.len() == 0 {
            assert(without_comment(entry) =~= entry);
            assert(words(entry) =~= seq![]);
        }
        assert forall|j: int| 0 <= j < line.len() implies #[trigger] line[j] != '\n' by {
            if j < kind.len() {
                assert(line[j] == kind[j]);
            } else if j > kind.len() {
                assert(line[j] == entry[j - kind.len() - 1]);
            }
        }
        assert(line.last() == entry.last());
    }
    lines_are_read_back(block);
    lines_are_read_back(single);
    lemma_unlines_ends(block);
    lemma_unlines_ends(single);
    lemma_lines_joined(unlines(block), below);
    lemma_lines_joined(unlines(single), below);
    block_is_shorthand(kind, entries, lines(below));
}

/// A comment may stand behind any text that has none, leaves no string open and
/// does not end in a slash: it is taken off again.
pub proof fn comment_put_behind_is_taken_off(text: Seq<char>, comment: Seq<char>)
    requires
        without_comment(text) == text,
        !scanned(text, unquoted()).quoted && !scanned(text, unquoted()).raw,
        text.len() > 0 ==> text.last() != '/',
    ensures
        without_comment(text + "//"@ + comment) == text,
{
    reveal_strlit("//");
    let behind = "//"@ + comment;
    let line = text + "//"@ + comment;
    lemma_comment_start(text, unquoted());
    assert(without_comment(text).len() == text.len());
    assert(line =~= text + behind);
    lemma_comment_after(text, behind, unquoted());
    assert(behind[0] == '/' && behind[1] == '/');
    assert(comment_here(behind, scanned(text, unquoted())));
    assert(without_comment(line) =~= text);
}

proof fn lemma_comment_state(line: Seq<char>, state: Quoting)
    requires
        comment_start(line, state) < line.len(),
    ensures
        ({
            let kept = line.take(comment_start(line, state) as int);
            let end = scanned(kept, state);
            &&& !end.quoted && !end.raw
            &&& kept.len() > 0 ==> kept.last() != '/'
        }),
    decreases line.len(),
{
    let n = comment_start(line, state);
    let kept = line.take(n as int);
    if n > 0 {
        let rest = line.skip(1);
        lemma_comment_state(rest, past(state, line[0]));
        let tail = rest.take(n - 1);
        assert(kept.skip(1) =~= tail);
        assert(kept[0] == line[0]);
        if n == 1 {
            assert(tail =~= seq![]);
            assert(comment_here(rest, past(state, line[0])));
            assert(rest[0] == line[1]);
        } else {
            assert(kept.last() == tail.last());
        }
    } else {
        assert(kept =~= seq![]);
    }
}

/// What stands before a comment stays the same with any other comment behind it.
pub proof fn comment_can_be_exchanged(line: Seq<char>, comment: Seq<char>)
    requires
        without_comment(line) != line,
    ensures
        without_comment(without_comment(line) + "//"@ + comment) == without_comment(line),
{
    lemma_comment_start(line, unquoted());
    if comment_start(line, unquoted()) == line.len() {
        assert(without_comment(line) =~= line);
    }
    lemma_comment_state(line, unquoted());
    comment_is_taken_off_once(line);
    comment_put_behind_is_taken_off(without_comment(line), comment);
}

} // verus!
