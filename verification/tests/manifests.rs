//! Manifests: comments, quotes, directives, `go.work` and `go.mod`.
use turbo_go::error::Error;
use turbo_go::path::AbsolutePath;
use turbo_go::syntax::{
    add_use, directive_lines, parse_mod, parse_replacement, parse_work, strip_comment, unquote,
    Replacement, WorkFile,
};

fn absolute(text: &str) -> AbsolutePath {
    AbsolutePath {
        text: text.to_string(),
        components: text.split('/').filter(|part| !part.is_empty()).map(String::from).collect(),
    }
}

fn texts(parts: &[&str]) -> Vec<String> {
    parts.iter().map(|part| part.to_string()).collect()
}

fn directive(kind: &str, fields: &[&str]) -> (String, Vec<String>) {
    (kind.to_string(), texts(fields))
}

#[test]
fn parses_work_blocks_and_comments() {
    let path = absolute("/repo/go.work");
    let parsed = parse_work(
        &path,
        r#"go 1.24
toolchain go1.24.1
use (
  ./services/api // API
  "./libs/auth"
)
replace example.com/old => example.com/new v1.2.3
"#,
    )
    .unwrap();
    assert_eq!(parsed.go_version.as_deref(), Some("1.24"));
    assert_eq!(parsed.toolchain.as_deref(), Some("go1.24.1"));
    assert_eq!(parsed.uses, ["./services/api", "./libs/auth"]);
    assert_eq!(parsed.replacements[0].new, "example.com/new");
}

#[test]
fn parses_module_requirements_and_local_replacements() {
    let path = absolute("/repo/go.mod");
    let parsed = parse_mod(
        &path,
        r#"module example.com/api

go 1.24
require (
 example.com/auth v0.0.0
 github.com/google/uuid v1.6.0
)
replace example.com/auth => ../auth
"#,
    )
    .unwrap();
    assert_eq!(parsed.name, "example.com/api");
    assert_eq!(parsed.requirements.len(), 2);
    assert_eq!(parsed.replacements[0].new, "../auth");
}

#[test]
fn requirements_are_pairs_in_order() {
    let parsed = parse_mod(
        &absolute("/repo/go.mod"),
        "module a\nrequire b v1 // indirect\nrequire (\n\tc v2\n)\nrequire d\n",
    )
    .unwrap();
    assert_eq!(
        parsed.requirements,
        [("b".to_string(), "v1".to_string()), ("c".to_string(), "v2".to_string())]
    );
    assert!(parsed.replacements.is_empty());
}

#[test]
fn comments_are_stripped_outside_strings() {
    assert_eq!(strip_comment("use ./a // note"), "use ./a ");
    assert_eq!(strip_comment("// all of it"), "");
    assert_eq!(strip_comment("no comment / here"), "no comment / here");
    assert_eq!(strip_comment("\"a//b\" // c"), "\"a//b\" ");
    assert_eq!(strip_comment("`a//b` // c"), "`a//b` ");
    assert_eq!(strip_comment(r#""a\"//b" // c"#), r#""a\"//b" "#);
    assert_eq!(strip_comment(r#""a\\"//b"#), r#""a\\""#);
    assert_eq!(strip_comment("`\"` // c"), "`\"` ");
    assert_eq!(strip_comment("\"open // c"), "\"open // c");
    assert_eq!(strip_comment("é // ü"), "é ");
    assert_eq!(strip_comment("/"), "/");
    assert_eq!(strip_comment(""), "");
}

#[test]
fn stripping_twice_is_stripping_once() {
    for line in ["a // b // c", "\"x//y\" // z", "`//` //", "plain", r#""\\"//"#] {
        let once = strip_comment(line);
        assert_eq!(strip_comment(once), once);
        assert!(line.starts_with(once));
    }
}

#[test]
fn quoted_fields_are_unquoted() {
    assert_eq!(unquote("plain"), Ok("plain".to_string()));
    assert_eq!(unquote(""), Ok(String::new()));
    assert_eq!(unquote("\"./libs/auth\""), Ok("./libs/auth".to_string()));
    assert_eq!(unquote(r#""a\tb\u0041""#), Ok("a\tbA".to_string()));
    assert_eq!(unquote("`a\\b`"), Ok("a\\b".to_string()));
    assert_eq!(unquote("``"), Ok(String::new()));
    assert_eq!(unquote("`"), Ok("`".to_string()));
    assert_eq!(unquote("`open"), Ok("`open".to_string()));
    assert!(unquote("\"open").is_err());
    assert!(unquote("\"").is_err());
    assert!(unquote("\"a\"b").is_err());
    assert!(unquote(r#""\q""#).is_err());
}

#[test]
fn unquoting_says_what_is_wrong() {
    let message = unquote("\"open").unwrap_err();
    assert_eq!(message, "EOF while parsing a string at line 1 column 5");
}

#[test]
fn directives_come_from_lines_and_blocks() {
    let contents = "go 1.24\r\n\n// comment\nuse (\n ./a // x\n\n ./b\n)\nuse ./c\nempty\n";
    assert_eq!(
        directive_lines(contents),
        [
            directive("go", &["1.24"]),
            directive("use", &["./a"]),
            directive("use", &["./b"]),
            directive("use", &["./c"]),
            directive("empty", &[]),
        ]
    );
}

#[test]
fn blocks_close_and_reopen() {
    assert_eq!(directive_lines(")\na b\n"), [directive("a", &["b"])]);
    assert_eq!(
        directive_lines("x (\ny (\nz w\n"),
        [directive("y", &["z", "w"])]
    );
    assert_eq!(directive_lines("x ( y\n"), [directive("x", &["(", "y"])]);
    assert_eq!(directive_lines("x (\n) y\n"), [directive("x", &[")", "y"])]);
    assert!(directive_lines("").is_empty());
    assert!(directive_lines("x (\n)").is_empty());
}

#[test]
fn block_says_what_its_entries_say() {
    let block = directive_lines("replace (\na => b v1 // c\nd v2 => e\n)\ngo 1\n");
    let spread = directive_lines("replace a => b v1 // c\nreplace d v2 => e\ngo 1\n");
    assert_eq!(block, spread);
}

#[test]
fn blank_and_comment_lines_are_ignored() {
    let dense = directive_lines("go 1\nuse (\n./a\n)\n");
    let sparse = directive_lines("\n// x\ngo 1\n\t\nuse (\n  // y\n./a\n\n)\n//\n");
    assert_eq!(dense, sparse);
}

#[test]
fn replacements_are_read_by_their_arrow() {
    assert_eq!(
        parse_replacement(&texts(&["a", "=>", "b"])),
        Some(Replacement {
            old: "a".to_string(),
            old_version: None,
            new: "b".to_string(),
            version: None,
        })
    );
    assert_eq!(
        parse_replacement(&texts(&["a", "v1", "=>", "b", "v2"])),
        Some(Replacement {
            old: "a".to_string(),
            old_version: Some("v1".to_string()),
            new: "b".to_string(),
            version: Some("v2".to_string()),
        })
    );
    assert_eq!(
        parse_replacement(&texts(&["a", "x", "y", "=>", "b"])),
        Some(Replacement {
            old: "a".to_string(),
            old_version: None,
            new: "b".to_string(),
            version: None,
        })
    );
    assert_eq!(parse_replacement(&texts(&["=>", "b"])), None);
    assert_eq!(parse_replacement(&texts(&["a", "=>"])), None);
    assert_eq!(parse_replacement(&texts(&["a", "b"])), None);
    assert_eq!(parse_replacement(&[]), None);
}

#[test]
fn rendered_replacements_are_read_back() {
    for (old_version, version, expected) in [
        (None, None, "replace a => ../b"),
        (Some("v1"), None, "replace a v1 => ../b"),
        (None, Some("v2"), "replace a => ../b v2"),
        (Some("v1"), Some("v2"), "replace a v1 => ../b v2"),
    ] {
        let replacement = Replacement {
            old: "a".to_string(),
            old_version: old_version.map(String::from),
            new: "../b".to_string(),
            version: version.map(String::from),
        };
        let line = replacement.render();
        assert_eq!(line, expected);
        let said = directive_lines(&line);
        assert_eq!(said.len(), 1);
        assert_eq!(said[0].0, "replace");
        assert_eq!(parse_replacement(&said[0].1), Some(replacement));
    }
}

#[test]
fn later_versions_win_and_may_be_missing() {
    let path = absolute("/repo/go.work");
    let work = parse_work(&path, "go 1.20\ngo 1.21\ntoolchain go1.21.0\ntoolchain\n").unwrap();
    assert_eq!(work.go_version.as_deref(), Some("1.21"));
    assert_eq!(work.toolchain, None);
    assert!(work.uses.is_empty());
    let empty = parse_work(&path, "unknown thing\n").unwrap();
    assert_eq!(empty.go_version, None);
}

#[test]
fn work_errors_name_the_file() {
    let path = absolute("/repo/go.work");
    assert!(matches!(
        parse_work(&path, "use\n"),
        Err(Error::Parse { path, message })
            if path == "/repo/go.work" && message == "use directive requires a module directory"
    ));
    assert!(matches!(
        parse_work(&path, "replace a b\n"),
        Err(Error::Parse { path, message })
            if path == "/repo/go.work" && message == "invalid replace directive"
    ));
    assert!(matches!(
        parse_work(&path, "use \"./a\n"),
        Err(Error::Parse { path, message })
            if path == "/repo/go.work" && message.contains("EOF")
    ));
}

#[test]
fn used_directories_are_added_once_read() {
    let path = absolute("/repo/go.work");
    let mut work = WorkFile {
        go_version: None,
        toolchain: None,
        uses: Vec::new(),
        replacements: Vec::new(),
    };
    assert!(add_use(&mut work, &path, Ok("./a".to_string())).is_ok());
    assert_eq!(work.uses, ["./a"]);
    assert!(matches!(
        add_use(&mut work, &path, Err("odd".to_string())),
        Err(Error::Parse { path, message }) if path == "/repo/go.work" && message == "odd"
    ));
    assert_eq!(work.uses, ["./a"]);
}

#[test]
fn manifest_errors_name_the_file() {
    let path = absolute("/repo/go.mod");
    assert!(matches!(
        parse_mod(&path, "go 1.24\n"),
        Err(Error::MissingModule(path)) if path == "/repo/go.mod"
    ));
    assert!(matches!(
        parse_mod(&path, "module a\nmodule\n"),
        Err(Error::MissingModule(_))
    ));
    assert!(matches!(
        parse_mod(&path, "module a\nreplace b =>\n"),
        Err(Error::Parse { path, message })
            if path == "/repo/go.mod" && message == "invalid replace directive"
    ));
}

#[test]
fn encoded_texts_are_unquoted() {
    let controls: String = (0_u8..0x20).map(char::from).collect();
    for text in ["", "./libs/auth", "a\"b\\c", "\u{7f}é\u{1f600}/", "`raw`", controls.as_str()] {
        let encoded = serde_json::to_string(text).unwrap();
        assert_eq!(unquote(&encoded), Ok(text.to_string()));
        assert_eq!(unquote(&format!("`{text}`")), Ok(text.to_string()));
    }
    assert_eq!(
        serde_json::to_string("\"\\\u{8}\t\n\u{c}\r\u{1f}\u{7f}").unwrap(),
        "\"\\\"\\\\\\b\\t\\n\\f\\r\\u001f\u{7f}\""
    );
}

#[test]
fn texts_say_what_their_parts_say() {
    let front = "go 1\nuse (\n./a\n)\n";
    let back = "use ./b\nreplace a => b";
    let mut parts = directive_lines(front);
    parts.extend(directive_lines(back));
    assert_eq!(directive_lines(&format!("{front}{back}")), parts);
}

#[test]
fn comments_can_be_exchanged() {
    for line in ["use ./a // x", "\"a//b\" // c", "//"] {
        let kept = strip_comment(line);
        assert_eq!(strip_comment(&format!("{kept}// other \"")), kept);
    }
}
