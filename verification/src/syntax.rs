//! The syntax of `go.work` and `go.mod`.
use crate::error::{outcome, Error, Failure};
use crate::path::AbsolutePath;
use crate::text::{chars_of, lines, same, split_lines, split_words, text_of, words};
use vstd::prelude::*;

verus! {

/// Where a scan of a line stands: inside an interpreted string, inside a raw
/// string, and right behind a backslash that escapes.
pub struct Quoting {
    pub quoted: bool,
    pub raw: bool,
    pub escaped: bool,
}

/// Outside all strings.
pub open spec fn unquoted() -> Quoting {
    Quoting { quoted: false, raw: false, escaped: false }
}

/// Where the scan stands behind `c`.
pub open spec fn past(state: Quoting, c: char) -> Quoting {
    if c == '\\' && state.quoted {
        Quoting { escaped: !state.escaped, ..state }
    } else if c == '"' && !state.raw && !state.escaped {
        Quoting { quoted: !state.quoted, ..state }
    } else if c == '`' && !state.quoted {
        Quoting { raw: !state.raw, ..state }
    } else {
        Quoting { escaped: false, ..state }
    }
}

/// Whether a comment begins at the first character of `line`.
pub open spec fn comment_here(line: Seq<char>, state: Quoting) -> bool {
    &&& line.len() > 1
    &&& line[0] == '/'
    &&& line[1] == '/'
    &&& !state.quoted
    &&& !state.raw
}

/// How many characters of `line` stand before its comment.
pub open spec fn comment_start(line: Seq<char>, state: Quoting) -> nat
    decreases line.len(),
{
    if line.len() == 0 || comment_here(line, state) {
        0
    } else {
        1 + comment_start(line.skip(1), past(state, line[0]))
    }
}

/// `line` without the comment that it may end with.
pub open spec fn without_comment(line: Seq<char>) -> Seq<char> {
    line.take(comment_start(line, unquoted()) as int)
}

pub proof fn lemma_comment_start(line: Seq<char>, state: Quoting)
    ensures
        comment_start(line, state) <= line.len(),
    decreases line.len(),
{
    if line.len() > 0 && !comment_here(line, state) {
        lemma_comment_start(line.skip(1), past(state, line[0]));
    }
}

/// `line` without the comment that it may end with. A comment begins with two
/// slashes that stand in no string.
pub fn strip_comment(line: &str) -> (r: &str)
    ensures
        r@ == without_comment(line@),
{
    let chars = chars_of(line);
    let mut quoted = false;
    let mut raw = false;
    let mut escaped = false;
    let mut index: usize = 0;
    assert(line@.skip(0) =~= line@);
    while index < chars.len()
        invariant
            chars@ == line@,
            index <= chars.len(),
            comment_start(line@, unquoted()) == index + comment_start(
                line@.skip(index as int),
                (Quoting { quoted, raw, escaped }),
            ),
        decreases chars.len() - index,
    {
        let ghost rest = line@.skip(index as int);
        let c = chars[index];
        if c == '/' && !quoted && !raw && index + 1 < chars.len() && chars[index + 1] == '/' {
            assert(rest[1] == chars@[index + 1]);
            return line.substring_char(0, index);
        }
        assert(!comment_here(rest, (Quoting { quoted, raw, escaped })));
        if c == '\\' && quoted {
            escaped = !escaped;
        } else if c == '"' && !raw && !escaped {
            quoted = !quoted;
        } else if c == '`' && !quoted {
            raw = !raw;
        } else {
            escaped = false;
        }
        assert(rest.skip(1) =~= line@.skip(index + 1));
        index = index + 1;
    }
    assert(line@.take(index as int) =~= line@);
    line
}

/// What reading a text as one JSON string gives: the string, or what is wrong
/// with the text.
pub uninterp spec fn json_string(text: Seq<char>) -> Result<Seq<char>, Seq<char>>;

/// The model of a text, or of the message that stands in its place.
pub open spec fn read_text(result: Result<String, String>) -> Result<Seq<char>, Seq<char>> {
    match result {
        Ok(text) => Ok(text@),
        Err(message) => Err(message@),
    }
}

/// The digit for `n` in base sixteen.
pub open spec fn hex_digit(n: int) -> char {
    seq!['0', '1', '2', '3', '4', '5', '6', '7', '8', '9', 'a', 'b', 'c', 'd', 'e', 'f'][n]
}

/// How JSON writes `c` between the quotes of a string: quotes, backslashes and
/// control characters are escaped.
pub open spec fn json_char(c: char) -> Seq<char> {
    if c == '"' || c == '\\' {
        seq!['\\', c]
    } else if c == '\u{8}' {
        seq!['\\', 'b']
    } else if c == '\t' {
        seq!['\\', 't']
    } else if c == '\n' {
        seq!['\\', 'n']
    } else if c == '\u{c}' {
        seq!['\\', 'f']
    } else if c == '\r' {
        seq!['\\', 'r']
    } else if c >= ' ' {
        seq![c]
    } else {
        seq!['\\', 'u', '0', '0', hex_digit(c as int / 16), hex_digit(c as int % 16)]
    }
}

/// How JSON writes `text` between the quotes of a string.
pub open spec fn json_chars(text: Seq<char>) -> Seq<char>
    decreases text.len(),
{
    if text.len() == 0 {
        seq![]
    } else {
        json_chars(text.drop_last()) + json_char(text.last())
    }
}

/// How JSON writes `text` as a string.
pub open spec fn json_quoted(text: Seq<char>) -> Seq<char> {
    seq!['"'] + json_chars(text) + seq!['"']
}

/// A character that stands for itself between the quotes of a JSON string.
pub open spec fn plain(c: char) -> bool {
    c != '"' && c != '\\' && c >= ' '
}

/// `text` is a quoted run of characters that stand for themselves.
pub open spec fn plainly_quoted(text: Seq<char>) -> bool {
    &&& text.len() >= 2
    &&& text[0] == '"'
    &&& text.last() == '"'
    &&& forall|i: int| 0 < i < text.len() - 1 ==> plain(#[trigger] text[i])
}

proof fn lemma_plain_chars(text: Seq<char>)
    requires
        forall|i: int| 0 <= i < text.len() ==> plain(#[trigger] text[i]),
    ensures
        json_chars(text) == text,
    decreases text.len(),
{
    if text.len() > 0 {
        assert(plain(text[text.len() - 1]));
        lemma_plain_chars(text.drop_last());
        assert(json_chars(text) =~= text);
    }
}

/// JSON writes characters that stand for themselves as they are.
pub proof fn lemma_plainly_quoted(text: Seq<char>)
    requires
        plainly_quoted(text),
    ensures
        text == json_quoted(text.subrange(1, text.len() - 1)),
{
    let inner = text.subrange(1, text.len() - 1);
    assert forall|i: int| 0 <= i < inner.len() implies plain(#[trigger] inner[i]) by {
        assert(inner[i] == text[i + 1]);
    }
    lemma_plain_chars(inner);
    assert(text =~= json_quoted(inner));
}

/// `text` opens a quote and never closes it.
pub open spec fn unterminated(text: Seq<char>) -> bool {
    &&& text.len() > 0
    &&& text[0] == '"'
    &&& forall|i: int| 0 < i < text.len() ==> #[trigger] text[i] != '"'
}

/// Calls `serde_json::from_str` for a string. What it gives, the string or the
/// text of the error, is named `json_string`. It reads a string that JSON wrote
/// back; without a second quote there is none. Of other texts, such as those with
/// escapes that need not be there, nothing more is said.
#[verifier::external_body]
fn read_json_string(text: &str) -> (r: Result<String, String>)
    ensures
        read_text(r) == json_string(text@),
        forall|written: Seq<char>|
            text@ == #[trigger] json_quoted(written) ==> r is Ok && r->Ok_0@ == written,
        unterminated(text@) ==> r is Err,
{
    serde_json::from_str::<String>(text).map_err(|error| error.to_string())
}

/// `text` as a raw string.
pub open spec fn raw_quoted(text: Seq<char>) -> Seq<char> {
    seq!['`'] + text + seq!['`']
}

/// What a field means that may be quoted: an interpreted string is read as
/// JSON, a raw string is what stands between its backquotes, and anything else
/// is itself.
pub open spec fn unquote_text(value: Seq<char>) -> Result<Seq<char>, Seq<char>> {
    if value.len() > 0 && value[0] == '"' {
        json_string(value)
    } else if value.len() >= 2 && value[0] == '`' && value.last() == '`' {
        Ok(value.subrange(1, value.len() - 1))
    } else {
        Ok(value)
    }
}

/// The text that the field `value` stands for, or what is wrong with it.
pub fn unquote(value: &str) -> (r: Result<String, String>)
    ensures
        read_text(r) == unquote_text(value@),
        forall|text: Seq<char>|
            value@ == #[trigger] json_quoted(text) ==> (r matches Ok(read) && read@ == text),
        plainly_quoted(value@) ==> (r matches Ok(text) && text@ == value@.subrange(
            1,
            value@.len() - 1,
        )),
        forall|text: Seq<char>|
            value@ == #[trigger] raw_quoted(text) ==> (r matches Ok(read) && read@ == text),
        !(value@.len() > 0 && (value@[0] == '"' || value@[0] == '`')) ==> (r matches Ok(read)
            && read@ == value@),
        r is Err ==> value@.len() > 0 && value@[0] == '"' && json_string(value@) is Err,
        unterminated(value@) ==> r is Err,
{
    let chars = chars_of(value);
    proof {
        assert forall|text: Seq<char>| value@ == #[trigger] raw_quoted(text) implies value@.len()
            >= 2 && value@[0] == '`' && value@.last() == '`' && value@.subrange(
            1,
            value@.len() - 1,
        ) == text by {
            assert(value@.subrange(1, value@.len() - 1) =~= text);
        }
        if plainly_quoted(value@) {
            lemma_plainly_quoted(value@);
        }
    }
    if chars.len() > 0 && chars[0] == '"' {
        read_json_string(value)
    } else if chars.len() >= 2 && chars[0] == '`' && chars[chars.len() - 1] == '`' {
        Ok(text_of(&chars, 1, chars.len() - 1))
    } else {
        Ok(value.to_owned())
    }
}

/// The directives that `lines` hold, each with its fields; `block` is the
/// directive whose parenthesised block is open.
pub open spec fn read_directives(lines: Seq<Seq<char>>, block: Option<Seq<char>>) -> Seq<
    (Seq<char>, Seq<Seq<char>>),
>
    decreases lines.len(),
{
    if lines.len() == 0 {
        seq![]
    } else {
        let fields = words(without_comment(lines[0]));
        let rest = lines.skip(1);
        if fields.len() == 0 {
            read_directives(rest, block)
        } else if fields.len() == 1 && fields[0] == ")"@ {
            read_directives(rest, None)
        } else if fields.len() == 2 && fields[1] == "("@ {
            read_directives(rest, Some(fields[0]))
        } else {
            let directive = match block {
                Some(kind) => (kind, fields),
                None => (fields[0], fields.skip(1)),
            };
            seq![directive] + read_directives(rest, block)
        }
    }
}

/// The directives of a manifest.
pub open spec fn directives(contents: Seq<char>) -> Seq<(Seq<char>, Seq<Seq<char>>)> {
    read_directives(lines(contents), None)
}

/// The fields behind the first one.
fn behind_first(fields: &Vec<String>) -> (r: Vec<String>)
    requires
        fields.len() > 0,
    ensures
        r.deep_view() == fields.deep_view().skip(1),
{
    let mut out: Vec<String> = Vec::new();
    let mut i: usize = 1;
    while i < fields.len()
        invariant
            1 <= i <= fields.len(),
            out.deep_view() == fields.deep_view().subrange(1, i as int),
        decreases fields.len() - i,
    {
        let ghost before = out.deep_view();
        out.push(fields[i].clone());
        assert(out.deep_view() =~= before.push(fields.deep_view()[i as int]));
        i = i + 1;
        assert(out.deep_view() =~= fields.deep_view().subrange(1, i as int));
    }
    assert(out.deep_view() =~= fields.deep_view().skip(1));
    out
}

/// The directives of a manifest, each with its fields, in order. Comments and
/// blank lines are left out, and each line of a block is one directive.
pub fn directive_lines(contents: &str) -> (r: Vec<(String, Vec<String>)>)
    ensures
        r.deep_view() == directives(contents@),
{
    let all = split_lines(contents);
    let ghost model = all.deep_view();
    let mut result: Vec<(String, Vec<String>)> = Vec::new();
    let mut block: Option<String> = None;
    let mut i: usize = 0;
    assert(model.skip(0) =~= model);
    while i < all.len()
        invariant
            i <= all.len(),
            model == all.deep_view(),
            result.deep_view() + read_directives(model.skip(i as int), block.deep_view())
                == read_directives(model, None),
        decreases all.len() - i,
    {
        let ghost here = model.skip(i as int);
        let fields: Vec<String> = split_words(strip_comment(all[i].as_str()));
        assert(here[0] == all@[i as int]@);
        assert(here.skip(1) =~= model.skip(i + 1));
        i = i + 1;
        if fields.len() == 0 {
            continue;
        }
        assert(fields.deep_view()[0] == fields@[0]@);
        if fields.len() == 1 && same(fields[0].as_str(), ")") {
            block = None;
            continue;
        }
        if fields.len() == 2 && same(fields[1].as_str(), "(") {
            block = Some(fields[0].clone());
            continue;
        }
        let ghost before = result.deep_view();
        let ghost opened = block.deep_view();
        let directive = match &block {
            Some(kind) => (kind.clone(), fields),
            None => (fields[0].clone(), behind_first(&fields)),
        };
        result.push(directive);
        proof {
            assert(result.deep_view() =~= before.push(directive.deep_view()));
            assert(before + read_directives(here, opened) =~= result.deep_view()
                + read_directives(model.skip(i as int), opened));
        }
    }
    assert(result.deep_view() =~= read_directives(model, None));
    result
}

/// A `replace` directive: requirements of `old`, at `old_version` where it names
/// one, are met by `new`, at `version` where it names one.
#[derive(Debug, Clone, PartialEq, Eq)]
pub struct Replacement {
    pub old: String,
    pub old_version: Option<String>,
    pub new: String,
    pub version: Option<String>,
}

/// The model of a `Replacement`.
pub struct ReplacementModel {
    pub old: Seq<char>,
    pub old_version: Option<Seq<char>>,
    pub new: Seq<char>,
    pub version: Option<Seq<char>>,
}

impl DeepView for Replacement {
    type V = ReplacementModel;

    open spec fn deep_view(&self) -> ReplacementModel {
        ReplacementModel {
            old: self.old@,
            old_version: self.old_version.deep_view(),
            new: self.new@,
            version: self.version.deep_view(),
        }
    }
}

/// A blank and `version`, or nothing.
pub open spec fn at_version(version: Option<Seq<char>>) -> Seq<char> {
    match version {
        Some(version) => " "@ + version,
        None => seq![],
    }
}

/// How a replacement is written as a directive.
pub open spec fn rendered(replacement: ReplacementModel) -> Seq<char> {
    "replace "@ + replacement.old + at_version(replacement.old_version) + " => "@ + replacement.new
        + at_version(replacement.version)
}

impl Replacement {
    /// How the replacement is written as a directive.
    pub fn render(&self) -> (r: String)
        ensures
            r@ == rendered(self.deep_view()),
    {
        let mut out = "replace ".to_owned();
        out.append(self.old.as_str());
        if let Some(version) = &self.old_version {
            out.append(" ");
            out.append(version.as_str());
        }
        out.append(" => ");
        out.append(self.new.as_str());
        if let Some(version) = &self.version {
            out.append(" ");
            out.append(version.as_str());
        }
        assert(out@ =~= rendered(self.deep_view()));
        out
    }
}

/// Where `fields` first hold `field`: its index, or the number of fields.
pub open spec fn first_at(fields: Seq<Seq<char>>, field: Seq<char>) -> nat
    decreases fields.len(),
{
    if fields.len() == 0 || fields[0] == field {
        0
    } else {
        1 + first_at(fields.skip(1), field)
    }
}

pub proof fn lemma_first_at(fields: Seq<Seq<char>>, field: Seq<char>, n: int)
    requires
        0 <= n <= fields.len(),
        forall|i: int| 0 <= i < n ==> #[trigger] fields[i] != field,
        n < fields.len() ==> fields[n] == field,
    ensures
        first_at(fields, field) == n,
    decreases n,
{
    if n > 0 {
        assert(fields[0] != field);
        assert forall|i: int| 0 <= i < n - 1 implies #[trigger] fields.skip(1)[i] != field by {
            assert(fields.skip(1)[i] == fields[i + 1]);
        }
        lemma_first_at(fields.skip(1), field, n - 1);
    }
}

/// The replacement that the fields of a `replace` directive describe: a module
/// and perhaps its version, an arrow, and what takes its place.
pub open spec fn replacement_of(fields: Seq<Seq<char>>) -> Option<ReplacementModel> {
    let arrow = first_at(fields, "=>"@) as int;
    if arrow == 0 || arrow + 1 >= fields.len() {
        None
    } else {
        Some(
            ReplacementModel {
                old: fields[0],
                old_version: if arrow == 2 {
                    Some(fields[1])
                } else {
                    None
                },
                new: fields[arrow + 1],
                version: if arrow + 2 < fields.len() {
                    Some(fields[arrow + 2])
                } else {
                    None
                },
            },
        )
    }
}

/// The replacement that the fields of a `replace` directive describe.
pub fn parse_replacement(fields: &[String]) -> (r: Option<Replacement>)
    ensures
        r.deep_view() == replacement_of(fields.deep_view()),
{
    let ghost model = fields.deep_view();
    let mut arrow: usize = 0;
    while arrow < fields.len() && !same(fields[arrow].as_str(), "=>")
        invariant
            arrow <= fields.len(),
            model == fields.deep_view(),
            forall|i: int| 0 <= i < arrow ==> #[trigger] model[i] != "=>"@,
        decreases fields.len() - arrow,
    {
        arrow = arrow + 1;
    }
    proof {
        lemma_first_at(model, "=>"@, arrow as int);
    }
    if arrow == 0 || arrow >= fields.len() || arrow + 1 >= fields.len() {
        return None;
    }
    Some(
        Replacement {
            old: fields[0].clone(),
            old_version: if arrow == 2 {
                Some(fields[1].clone())
            } else {
                None
            },
            new: fields[arrow + 1].clone(),
            version: if fields.len() - arrow > 2 {
                Some(fields[arrow + 2].clone())
            } else {
                None
            },
        },
    )
}

/// What a `go.work` says.
#[derive(Debug)]
pub struct WorkFile {
    pub go_version: Option<String>,
    pub toolchain: Option<String>,
    pub uses: Vec<String>,
    pub replacements: Vec<Replacement>,
}

/// The model of a `WorkFile`.
pub struct WorkModel {
    pub go_version: Option<Seq<char>>,
    pub toolchain: Option<Seq<char>>,
    pub uses: Seq<Seq<char>>,
    pub replacements: Seq<ReplacementModel>,
}

impl DeepView for WorkFile {
    type V = WorkModel;

    open spec fn deep_view(&self) -> WorkModel {
        WorkModel {
            go_version: self.go_version.deep_view(),
            toolchain: self.toolchain.deep_view(),
            uses: self.uses.deep_view(),
            replacements: self.replacements.deep_view(),
        }
    }
}

/// A `go.work` without directives.
pub open spec fn empty_work() -> WorkModel {
    WorkModel { go_version: None, toolchain: None, uses: seq![], replacements: seq![] }
}

/// The first field, where there is one.
pub open spec fn first_field(fields: Seq<Seq<char>>) -> Option<Seq<char>> {
    if fields.len() > 0 {
        Some(fields[0])
    } else {
        None
    }
}

/// `work` with the directory that a `use` directive names, once it has been read.
pub open spec fn with_use(work: WorkModel, value: Result<Seq<char>, Seq<char>>) -> Result<
    WorkModel,
    Seq<char>,
> {
    match value {
        Ok(directory) => Ok(WorkModel { uses: work.uses.push(directory), ..work }),
        Err(message) => Err(message),
    }
}

/// `work` with one directive more, or what is wrong with the directive.
pub open spec fn with_work_directive(
    work: WorkModel,
    kind: Seq<char>,
    fields: Seq<Seq<char>>,
) -> Result<WorkModel, Seq<char>> {
    if kind == "go"@ {
        Ok(WorkModel { go_version: first_field(fields), ..work })
    } else if kind == "toolchain"@ {
        Ok(WorkModel { toolchain: first_field(fields), ..work })
    } else if kind == "use"@ {
        if fields.len() == 0 {
            Err("use directive requires a module directory"@)
        } else {
            with_use(work, unquote_text(fields[0]))
        }
    } else if kind == "replace"@ {
        match replacement_of(fields) {
            Some(replacement) => Ok(
                WorkModel { replacements: work.replacements.push(replacement), ..work },
            ),
            None => Err("invalid replace directive"@),
        }
    } else {
        Ok(work)
    }
}

/// `work` with `directives` in order, or what is wrong with the first of them
/// that is wrong.
pub open spec fn with_work_directives(
    work: WorkModel,
    directives: Seq<(Seq<char>, Seq<Seq<char>>)>,
) -> Result<WorkModel, Seq<char>>
    decreases directives.len(),
{
    if directives.len() == 0 {
        Ok(work)
    } else {
        match with_work_directive(work, directives[0].0, directives[0].1) {
            Ok(next) => with_work_directives(next, directives.skip(1)),
            Err(message) => Err(message),
        }
    }
}

/// What parsing `contents` as the `go.work` at `path` gives.
pub open spec fn work_outcome(path: Seq<char>, contents: Seq<char>) -> Result<WorkModel, Failure> {
    match with_work_directives(empty_work(), directives(contents)) {
        Ok(work) => Ok(work),
        Err(message) => Err(Failure::Parse { path, message }),
    }
}

/// A copy of the first field, where there is one.
fn copy_first(fields: &Vec<String>) -> (r: Option<String>)
    ensures
        r.deep_view() == first_field(fields.deep_view()),
{
    if fields.len() > 0 {
        Some(fields[0].clone())
    } else {
        None
    }
}

/// Adds the directory that a `use` directive names, once it has been read.
pub fn add_use(work: &mut WorkFile, path: &AbsolutePath, value: Result<String, String>) -> (r:
    Result<(), Error>)
    ensures
        match with_use(old(work).deep_view(), read_text(value)) {
            Ok(next) => r is Ok && final(work).deep_view() == next,
            Err(message) => final(work).deep_view() == old(work).deep_view() && outcome(r) == Err::<
                (),
                Failure,
            >(Failure::Parse { path: path.deep_view().text, message }),
        },
{
    match value {
        Ok(directory) => {
            let ghost before = work.uses.deep_view();
            work.uses.push(directory);
            assert(work.uses.deep_view() =~= before.push(directory@));
            Ok(())
        },
        Err(message) => Err(Error::Parse { path: path.text.clone(), message }),
    }
}

/// What the `go.work` at `path` says.
pub fn parse_work(path: &AbsolutePath, contents: &str) -> (r: Result<WorkFile, Error>)
    ensures
        outcome(r) == work_outcome(path.deep_view().text, contents@),
{
    let mut work = WorkFile {
        go_version: None,
        toolchain: None,
        uses: Vec::new(),
        replacements: Vec::new(),
    };
    let parsed = directive_lines(contents);
    let ghost all = parsed.deep_view();
    let mut i: usize = 0;
    proof {
        assert(work.uses.deep_view() =~= seq![]);
        assert(work.replacements.deep_view() =~= seq![]);
        assert(all.skip(0) =~= all);
    }
    while i < parsed.len()
        invariant
            i <= parsed.len(),
            all == parsed.deep_view(),
            with_work_directives(work.deep_view(), all.skip(i as int)) == with_work_directives(
                empty_work(),
                all,
            ),
            all == directives(contents@),
        decreases parsed.len() - i,
    {
        let ghost before = work.deep_view();
        let kind = parsed[i].0.as_str();
        let fields = &parsed[i].1;
        proof {
            assert(all.skip(i as int)[0] == parsed@[i as int].deep_view());
            assert(all.skip(i as int).skip(1) =~= all.skip(i + 1));
        }
        if same(kind, "go") {
            work.go_version = copy_first(fields);
        } else if same(kind, "toolchain") {
            work.toolchain = copy_first(fields);
        } else if same(kind, "use") {
            if fields.len() == 0 {
                return Err(
                    Error::Parse {
                        path: path.text.clone(),
                        message: "use directive requires a module directory".to_owned(),
                    },
                );
            }
            let added = add_use(&mut work, path, unquote(fields[0].as_str()));
            if let Err(error) = added {
                return Err(error);
            }
        } else if same(kind, "replace") {
            match parse_replacement(fields.as_slice()) {
                Some(replacement) => {
                    work.replacements.push(replacement);
                    assert(work.replacements.deep_view() =~= before.replacements.push(
                        replacement.deep_view(),
                    ));
                },
                None => {
                    return Err(
                        Error::Parse {
                            path: path.text.clone(),
                            message: "invalid replace directive".to_owned(),
                        },
                    );
                },
            }
        }
        i = i + 1;
    }
    Ok(work)
}

/// What a `go.mod` says.
#[derive(Debug)]
pub struct ModuleManifest {
    pub name: String,
    pub requirements: Vec<(String, String)>,
    pub replacements: Vec<Replacement>,
}

/// The model of a `ModuleManifest`.
pub struct ManifestModel {
    pub name: Seq<char>,
    pub requirements: Seq<(Seq<char>, Seq<char>)>,
    pub replacements: Seq<ReplacementModel>,
}

impl DeepView for ModuleManifest {
    type V = ManifestModel;

    open spec fn deep_view(&self) -> ManifestModel {
        ManifestModel {
            name: self.name@,
            requirements: self.requirements.deep_view(),
            replacements: self.replacements.deep_view(),
        }
    }
}

/// What the directives of a `go.mod` say so far.
pub struct ManifestDraft {
    pub name: Option<Seq<char>>,
    pub requirements: Seq<(Seq<char>, Seq<char>)>,
    pub replacements: Seq<ReplacementModel>,
}

/// A `go.mod` without directives.
pub open spec fn empty_manifest() -> ManifestDraft {
    ManifestDraft { name: None, requirements: seq![], replacements: seq![] }
}

/// `draft` with one directive more, or what is wrong with the directive.
pub open spec fn with_mod_directive(
    draft: ManifestDraft,
    kind: Seq<char>,
    fields: Seq<Seq<char>>,
) -> Result<ManifestDraft, Seq<char>> {
    if kind == "module"@ {
        Ok(ManifestDraft { name: first_field(fields), ..draft })
    } else if kind == "require"@ && fields.len() >= 2 {
        Ok(ManifestDraft { requirements: draft.requirements.push((fields[0], fields[1])), ..draft })
    } else if kind == "replace"@ {
        match replacement_of(fields) {
            Some(replacement) => Ok(
                ManifestDraft { replacements: draft.replacements.push(replacement), ..draft },
            ),
            None => Err("invalid replace directive"@),
        }
    } else {
        Ok(draft)
    }
}

/// `draft` with `directives` in order, or what is wrong with the first of them
/// that is wrong.
pub open spec fn with_mod_directives(
    draft: ManifestDraft,
    directives: Seq<(Seq<char>, Seq<Seq<char>>)>,
) -> Result<ManifestDraft, Seq<char>>
    decreases directives.len(),
{
    if directives.len() == 0 {
        Ok(draft)
    } else {
        match with_mod_directive(draft, directives[0].0, directives[0].1) {
            Ok(next) => with_mod_directives(next, directives.skip(1)),
            Err(message) => Err(message),
        }
    }
}

/// What parsing `contents` as the `go.mod` at `path` gives.
pub open spec fn mod_outcome(path: Seq<char>, contents: Seq<char>) -> Result<
    ManifestModel,
    Failure,
> {
    match with_mod_directives(empty_manifest(), directives(contents)) {
        Ok(draft) => match draft.name {
            Some(name) => Ok(
                ManifestModel { name, requirements: draft.requirements, replacements: draft.replacements },
            ),
            None => Err(Failure::MissingModule(path)),
        },
        Err(message) => Err(Failure::Parse { path, message }),
    }
}

/// What the `go.mod` at `path` says.
pub fn parse_mod(path: &AbsolutePath, contents: &str) -> (r: Result<ModuleManifest, Error>)
    ensures
        outcome(r) == mod_outcome(path.deep_view().text, contents@),
{
    let mut name: Option<String> = None;
    let mut requirements: Vec<(String, String)> = Vec::new();
    let mut replacements: Vec<Replacement> = Vec::new();
    let parsed = directive_lines(contents);
    let ghost all = parsed.deep_view();
    let mut i: usize = 0;
    proof {
        assert(requirements.deep_view() =~= seq![]);
        assert(replacements.deep_view() =~= seq![]);
        assert(all.skip(0) =~= all);
    }
    while i < parsed.len()
        invariant
            i <= parsed.len(),
            all == parsed.deep_view(),
            with_mod_directives(
                (ManifestDraft {
                    name: name.deep_view(),
                    requirements: requirements.deep_view(),
                    replacements: replacements.deep_view(),
                }),
                all.skip(i as int),
            ) == with_mod_directives(empty_manifest(), all),
            all == directives(contents@),
        decreases parsed.len() - i,
    {
        let kind = parsed[i].0.as_str();
        let fields = &parsed[i].1;
        proof {
            assert(all.skip(i as int)[0] == parsed@[i as int].deep_view());
            assert(all.skip(i as int).skip(1) =~= all.skip(i + 1));
        }
        if same(kind, "module") {
            name = copy_first(fields);
        } else if same(kind, "require") && fields.len() >= 2 {
            let ghost before = requirements.deep_view();
            requirements.push((fields[0].clone(), fields[1].clone()));
            assert(requirements.deep_view() =~= before.push(
                (fields.deep_view()[0], fields.deep_view()[1]),
            ));
        } else if same(kind, "replace") {
            match parse_replacement(fields.as_slice()) {
                Some(replacement) => {
                    let ghost before = replacements.deep_view();
                    replacements.push(replacement);
                    assert(replacements.deep_view() =~= before.push(replacement.deep_view()));
                },
                None => {
                    return Err(
                        Error::Parse {
                            path: path.text.clone(),
                            message: "invalid replace directive".to_owned(),
                        },
                    );
                },
            }
        }
        i = i + 1;
    }
    match name {
        Some(name) => Ok(ModuleManifest { name, requirements, replacements }),
        None => Err(Error::MissingModule(path.text.clone())),
    }
}

} // verus!
