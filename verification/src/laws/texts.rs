//! Laws of text, of orders and of paths.
use crate::listing::{ExternalPackageIdentity, IdentityModel};
use crate::order::{pair_before, text_before, texts_before, Ordered};
use crate::path::{anchored, child, unix, PathModel};
use crate::text::{
    blank, join, lemma_line_len, lemma_line_len_is, lemma_word_len, lemma_word_len_is, line_len,
    lines, trim, trim_end, trim_start, without_suffix, word_len, words,
};
use vstd::prelude::*;

verus! {

/// Blanks are what Unicode calls white space: the tab, the feeds and the carriage
/// return, the spaces of all widths, and the separators of lines and paragraphs;
/// letters, digits and signs are none.
pub proof fn white_space_is_blank(c: char)
    ensures
        c == '\t' || c == '\n' || c == '\u{b}' || c == '\u{c}' || c == '\r' || c == ' ' || c
            == '\u{85}' || c == '\u{a0}' || c == '\u{1680}' || c == '\u{2028}' || c == '\u{2029}'
            || c == '\u{202f}' || c == '\u{205f}' || c == '\u{3000}' ==> blank(c),
        '\u{2000}' <= c && c <= '\u{200a}' ==> blank(c),
        '!' <= c && c <= '~' ==> !blank(c),
        blank(c) ==> c <= ' ' || c >= '\u{85}',
        blank(c) && c <= ' ' ==> c == ' ' || (c >= '\t' && c <= '\r'),
        blank(c) && c > '\u{a0}' ==> c == '\u{1680}' || ('\u{2000}' <= c && c <= '\u{205f}') || c
            == '\u{3000}',
        blank(c) && c > '\u{200a}' ==> c == '\u{2028}' || c == '\u{2029}' || c == '\u{202f}' || c
            == '\u{205f}' || c == '\u{3000}',
        blank(c) && '\u{7f}' <= c && c <= '\u{a0}' ==> c == '\u{85}' || c == '\u{a0}',
{
}

/// A blank splits a text into the words in front of it and those behind it.
pub proof fn blanks_split_words(front: Seq<char>, c: char, back: Seq<char>)
    requires
        blank(c),
    ensures
        words(front + seq![c] + back) == words(front) + words(back),
    decreases front.len(),
{
    let all = front + seq![c] + back;
    if front.len() == 0 {
        assert(all.skip(1) =~= back);
        assert(words(front) + words(back) =~= words(back));
    } else if blank(front[0]) {
        assert(all.skip(1) =~= front.skip(1) + seq![c] + back);
        blanks_split_words(front.skip(1), c, back);
    } else {
        lemma_word_len(front);
        let n = word_len(front) as int;
        assert forall|i: int| 0 <= i < n implies !blank(#[trigger] all[i]) by {
            assert(all[i] == front[i]);
        }
        if n < front.len() {
            assert(all[n] == front[n]);
        } else {
            assert(all[n] == c);
        }
        lemma_word_len_is(all, n);
        assert(all.take(n) =~= front.take(n));
        assert(all.skip(n) =~= front.skip(n) + seq![c] + back);
        blanks_split_words(front.skip(n), c, back);
        assert(words(all) =~= words(front) + words(back));
    }
}

/// A text without a blank is one word, and the empty text has none.
pub proof fn unbroken_text_is_a_word(text: Seq<char>)
    requires
        forall|i: int| 0 <= i < text.len() ==> !blank(#[trigger] text[i]),
    ensures
        text.len() > 0 ==> words(text) == seq![text],
        text.len() == 0 ==> words(text) == Seq::<Seq<char>>::empty(),
{
    if text.len() > 0 {
        let n = text.len() as int;
        lemma_word_len_is(text, n);
        assert(text.take(n) =~= text);
        assert(text.skip(n) =~= seq![]);
        assert(words(seq![]) =~= seq![]);
        assert(words(text) =~= seq![text]);
    }
}

/// A line feed ends the lines in front of it.
pub proof fn line_feeds_split_lines(front: Seq<char>, back: Seq<char>)
    requires
        front.len() > 0 ==> front.last() == '\n',
    ensures
        lines(front + back) == lines(front) + lines(back),
    decreases front.len(),
{
    let all = front + back;
    if front.len() == 0 {
        assert(all =~= back);
        assert(lines(front) + lines(back) =~= lines(back));
    } else {
        lemma_line_len(front);
        let n = line_len(front) as int;
        if n == front.len() {
            assert(front[n - 1] != '\n');
        }
        let rest = front.skip(n + 1);
        assert forall|i: int| 0 <= i < n implies #[trigger] all[i] != '\n' by {
            assert(all[i] == front[i]);
        }
        assert(all[n] == front[n]);
        lemma_line_len_is(all, n);
        assert(all.take(n) =~= front.take(n));
        assert(all.skip(n + 1) =~= rest + back);
        if rest.len() > 0 {
            assert(rest.last() == front.last());
        }
        line_feeds_split_lines(rest, back);
        assert(lines(all) =~= lines(front) + lines(back));
    }
}

/// A text without a line feed is one line, with or without a line feed behind it;
/// a carriage return in front of the line feed belongs to the ending.
pub proof fn line_needs_no_ending(line: Seq<char>)
    requires
        forall|i: int| 0 <= i < line.len() ==> #[trigger] line[i] != '\n',
    ensures
        line.len() > 0 ==> lines(line) == seq![line],
        lines(Seq::<char>::empty()) == Seq::<Seq<char>>::empty(),
        line.len() == 0 || line.last() != '\r' ==> lines(line + seq!['\n']) == seq![line],
        lines(line + seq!['\r', '\n']) == seq![line],
{
    let n = line.len() as int;
    if n > 0 {
        lemma_line_len_is(line, n);
    }
    let fed = line + seq!['\n'];
    assert forall|i: int| 0 <= i < n implies #[trigger] fed[i] != '\n' by {
        assert(fed[i] == line[i]);
    }
    lemma_line_len_is(fed, n);
    assert(fed.take(n) =~= line);
    assert(fed.skip(n + 1) =~= seq![]);
    assert(lines(seq![]) =~= seq![]);
    if line.len() == 0 || line.last() != '\r' {
        assert(lines(fed) =~= seq![line]);
    }
    let returned = line + seq!['\r', '\n'];
    assert forall|i: int| 0 <= i < n + 1 implies #[trigger] returned[i] != '\n' by {
        if i < n {
            assert(returned[i] == line[i]);
        }
    }
    lemma_line_len_is(returned, n + 1);
    assert(returned.take(n + 1).drop_last() =~= line);
    assert(returned.skip(n + 2) =~= seq![]);
    assert(lines(returned) =~= seq![line]);
}

proof fn lemma_trim_start(text: Seq<char>)
    ensures
        exists|n: int|
            #![trigger text.skip(n)]
            0 <= n <= text.len() && trim_start(text) == text.skip(n) && (forall|i: int|
                0 <= i < n ==> blank(#[trigger] text[i])) && (n < text.len() ==> !blank(text[n])),
    decreases text.len(),
{
    if text.len() > 0 && blank(text[0]) {
        let rest = text.skip(1);
        lemma_trim_start(rest);
        let n = choose|n: int|
            #![trigger rest.skip(n)]
            0 <= n <= rest.len() && trim_start(rest) == rest.skip(n) && (forall|i: int|
                0 <= i < n ==> blank(#[trigger] rest[i])) && (n < rest.len() ==> !blank(rest[n]));
        assert(rest.skip(n) =~= text.skip(n + 1));
        assert forall|i: int| 0 <= i < n + 1 implies blank(#[trigger] text[i]) by {
            if i > 0 {
                assert(text[i] == rest[i - 1]);
            }
        }
    } else {
        assert(text.skip(0) =~= text);
    }
}

proof fn lemma_trim_end(text: Seq<char>)
    ensures
        exists|n: int|
            #![trigger text.take(n)]
            0 <= n <= text.len() && trim_end(text) == text.take(n) && (forall|i: int|
                n <= i < text.len() ==> blank(#[trigger] text[i])) && (n > 0 ==> !blank(
                text[n - 1],
            )),
    decreases text.len(),
{
    if text.len() > 0 && blank(text.last()) {
        let rest = text.drop_last();
        lemma_trim_end(rest);
        let n = choose|n: int|
            #![trigger rest.take(n)]
            0 <= n <= rest.len() && trim_end(rest) == rest.take(n) && (forall|i: int|
                n <= i < rest.len() ==> blank(#[trigger] rest[i])) && (n > 0 ==> !blank(
                rest[n - 1],
            ));
        assert(rest.take(n) =~= text.take(n));
        assert forall|i: int| n <= i < text.len() implies blank(#[trigger] text[i]) by {
            if i < rest.len() {
                assert(text[i] == rest[i]);
            }
        }
    } else {
        assert(text.take(text.len() as int) =~= text);
    }
}

/// Trimming takes blanks off both ends of a text, and leaves none there.
pub proof fn trimming_takes_blanks_off(text: Seq<char>)
    ensures
        exists|from: int, to: int|
            #![trigger text.subrange(from, to)]
            0 <= from <= to <= text.len() && trim(text) == text.subrange(from, to) && (forall|
                i: int,
            |
                (0 <= i < from || to <= i < text.len()) ==> blank(#[trigger] text[i])),
        trim(text).len() > 0 ==> !blank(trim(text)[0]) && !blank(trim(text).last()),
{
    lemma_trim_start(text);
    let from = choose|n: int|
        #![trigger text.skip(n)]
        0 <= n <= text.len() && trim_start(text) == text.skip(n) && (forall|i: int|
            0 <= i < n ==> blank(#[trigger] text[i])) && (n < text.len() ==> !blank(text[n]));
    let rest = text.skip(from);
    lemma_trim_end(rest);
    let n = choose|n: int|
        #![trigger rest.take(n)]
        0 <= n <= rest.len() && trim_end(rest) == rest.take(n) && (forall|i: int|
            n <= i < rest.len() ==> blank(#[trigger] rest[i])) && (n > 0 ==> !blank(rest[n - 1]));
    assert(rest.take(n) =~= text.subrange(from, from + n));
    assert forall|i: int| (0 <= i < from || from + n <= i < text.len()) implies blank(
        #[trigger] text[i],
    ) by {
        if i >= from {
            assert(text[i] == rest[i - from]);
        }
    }
    if n > 0 {
        assert(rest.take(n)[0] == text[from]);
        assert(rest.take(n).last() == rest[n - 1]);
    }
}

/// Joined parts stand one after the other with the separator between them.
pub proof fn joining_separates(parts: Seq<Seq<char>>, more: Seq<Seq<char>>, separator: Seq<char>)
    requires
        parts.len() > 0,
        more.len() > 0,
    ensures
        join(parts + more, separator) == join(parts, separator) + separator + join(
            more,
            separator,
        ),
    decreases more.len(),
{
    let all = parts + more;
    if more.len() == 1 {
        assert(all.drop_last() =~= parts);
        assert(join(all, separator) =~= join(parts, separator) + separator + join(
            more,
            separator,
        ));
    } else {
        joining_separates(parts, more.drop_last(), separator);
        assert(all.drop_last() =~= parts + more.drop_last());
        assert(join(all, separator) =~= join(parts, separator) + separator + join(
            more,
            separator,
        ));
    }
}

/// One part is joined as it is, and no part is nothing.
pub proof fn joining_one_is_itself(part: Seq<char>, separator: Seq<char>)
    ensures
        join(seq![part], separator) == part,
        join(seq![], separator) == Seq::<char>::empty(),
{
}

/// A suffix comes off where it is there, and only there.
pub proof fn suffix_comes_off(text: Seq<char>, suffix: Seq<char>)
    ensures
        without_suffix(text + suffix, suffix) == text,
        (forall|front: Seq<char>| text != #[trigger] (front + suffix)) ==> without_suffix(
            text,
            suffix,
        ) == text,
{
    let whole = text + suffix;
    assert(whole.subrange(text.len() as int, whole.len() as int) =~= suffix);
    assert(whole.take(text.len() as int) =~= text);
    if suffix.is_suffix_of(text) {
        let front = text.take(text.len() - suffix.len());
        assert(text =~= front + suffix);
    }
}

/// Texts are in the order of their first different character; a text comes before
/// those that it begins.
pub proof fn first_difference_orders(common: Seq<char>, a: Seq<char>, b: Seq<char>)
    ensures
        b.len() > 0 ==> text_before(common, common + b),
        a.len() > 0 && b.len() > 0 && a[0] < b[0] ==> text_before(common + a, common + b),
        !text_before(common + b, common),
    decreases common.len(),
{
    if common.len() == 0 {
        assert(common + a =~= a && common + b =~= b);
    } else {
        let rest = common.skip(1);
        first_difference_orders(rest, a, b);
        assert((common + a).skip(1) =~= rest + a);
        assert((common + b).skip(1) =~= rest + b);
        assert((common + a)[0] == common[0] && (common + b)[0] == common[0]);
    }
}

/// Pairs are in the order of their first texts, and then of their second.
pub proof fn first_text_orders_pairs(a: (Seq<char>, Seq<char>), b: (Seq<char>, Seq<char>))
    ensures
        text_before(a.0, b.0) ==> pair_before(a, b),
        a.0 == b.0 ==> (pair_before(a, b) <==> text_before(a.1, b.1)),
{
    if a.0 == b.0 {
        String::irreflexive(a.0);
    }
}

/// Paths are in the order of their first different component; a path comes before
/// those that go on from it.
pub proof fn first_component_orders_paths(
    common: Seq<Seq<char>>,
    a: Seq<Seq<char>>,
    b: Seq<Seq<char>>,
)
    ensures
        b.len() > 0 ==> texts_before(common, common + b),
        a.len() > 0 && b.len() > 0 && text_before(a[0], b[0]) ==> texts_before(
            common + a,
            common + b,
        ),
        !texts_before(common + b, common),
    decreases common.len(),
{
    if common.len() == 0 {
        assert(common + a =~= a && common + b =~= b);
    } else {
        let rest = common.skip(1);
        first_component_orders_paths(rest, a, b);
        assert((common + a).skip(1) =~= rest + a);
        assert((common + b).skip(1) =~= rest + b);
        assert((common + a)[0] == common[0] && (common + b)[0] == common[0]);
        String::irreflexive(common[0]);
    }
}

/// Identities are in the order of their keys, then of their versions, and then of the
/// names that are shown, where one without a name comes first.
pub proof fn key_orders_identities(a: IdentityModel, b: IdentityModel)
    ensures
        text_before(a.key, b.key) ==> ExternalPackageIdentity::before(a, b),
        a.key == b.key && text_before(a.version, b.version) ==> ExternalPackageIdentity::before(
            a,
            b,
        ),
        a.key == b.key && a.version == b.version && a.human_name is None && b.human_name is Some
            ==> ExternalPackageIdentity::before(a, b),
        a.key == b.key && a.version == b.version ==> (a.human_name matches Some(x) ==> (
        b.human_name matches Some(y) ==> (ExternalPackageIdentity::before(a, b) <==> text_before(
            x,
            y,
        )))),
        !(ExternalPackageIdentity::before(a, b) && ExternalPackageIdentity::before(b, a)),
        a == b || ExternalPackageIdentity::before(a, b) || ExternalPackageIdentity::before(b, a),
{
    String::irreflexive(a.key);
    String::irreflexive(a.version);
    ExternalPackageIdentity::irreflexive(a);
    ExternalPackageIdentity::connected(a, b);
    if ExternalPackageIdentity::before(a, b) && ExternalPackageIdentity::before(b, a) {
        ExternalPackageIdentity::transitive(a, b, a);
    }
}

/// A path lies under another where it goes on from there, and the way from the one
/// to the other is how it goes on.
pub proof fn anchored_path_goes_on(root: Seq<Seq<char>>, path: Seq<Seq<char>>)
    ensures
        anchored(root, path) matches Some(rest) ==> path == root + rest,
        (exists|rest: Seq<Seq<char>>| path == #[trigger] (root + rest)) ==> anchored(
            root,
            path,
        ) is Some,
{
    if root.is_prefix_of(path) {
        assert(path =~= root + path.skip(root.len() as int));
    }
    if exists|rest: Seq<Seq<char>>| path == #[trigger] (root + rest) {
        let rest = choose|rest: Seq<Seq<char>>| path == #[trigger] (root + rest);
        assert(root =~= path.subrange(0, root.len() as int));
    }
}

/// A relative path is written with slashes between its components.
pub proof fn unix_paths_have_slashes(directory: Seq<Seq<char>>, name: Seq<char>)
    ensures
        directory.len() > 0 ==> unix(directory.push(name)) == unix(directory) + seq!['/'] + name,
        unix(seq![name]) == name,
        unix(seq![]) == Seq::<char>::empty(),
{
    if directory.len() > 0 {
        joining_separates(directory, seq![name], seq!['/']);
        assert(directory + seq![name] =~= directory.push(name));
    }
}

/// A child of a directory lies under it, by its name.
pub proof fn children_lie_under_directories(path: PathModel, name: Seq<char>, text: Seq<char>)
    ensures
        child(path, name, text).components == path.components.push(name),
        child(path, name, text).text == text,
        anchored(path.components, child(path, name, text).components) == Some(seq![name]),
{
    let below = path.components.push(name);
    assert(path.components =~= below.subrange(0, path.components.len() as int));
    assert(below.skip(path.components.len() as int) =~= seq![name]);
}

} // verus!
