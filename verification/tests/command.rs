//! Runs of the `go` tool.
use turbo_go::command::{
    command_stdout, failed_command, failed_start, full_listing_args, go_command, go_version,
    listed_packages, local_listing_args, CommandOutput, CommandRun,
};
use turbo_go::error::Error;
use turbo_go::listing::GoListPackage;
use turbo_go::path::AbsolutePath;

fn repo() -> AbsolutePath {
    AbsolutePath { text: "/repo".to_string(), components: vec!["repo".to_string()] }
}

fn output(success: bool, stdout: &[u8], stderr: &[u8]) -> CommandRun {
    CommandRun::Ended(CommandOutput {
        success,
        stdout: stdout.to_vec(),
        stderr: stderr.to_vec(),
    })
}

fn unstarted() -> std::io::Error {
    std::io::Error::new(std::io::ErrorKind::NotFound, "no go")
}

fn args(parts: &[&str]) -> Vec<String> {
    parts.iter().map(|part| part.to_string()).collect()
}

#[test]
fn commands_are_written_with_blanks() {
    assert_eq!(go_command(&local_listing_args()), "go list -mod=readonly -json ./...");
    assert_eq!(
        go_command(&full_listing_args()),
        "go list -mod=readonly -deps -test -json ./..."
    );
    assert_eq!(go_command(&Vec::new()), "go ");
}

#[test]
fn successful_commands_give_their_output() {
    let stdout = command_stdout(&args(&["list"]), &repo(), output(true, b"{}\xff", b"noise")).unwrap();
    assert_eq!(stdout, b"{}\xff");
}

#[test]
fn failed_commands_give_what_they_said() {
    assert!(matches!(
        command_stdout(&args(&["list"]), &repo(), output(false, b"{}", b" no go.mod\n")),
        Err(Error::Command { command, cwd, stderr })
            if command == "go list" && cwd == "/repo" && stderr == "no go.mod"
    ));
    assert!(matches!(
        command_stdout(&args(&["list"]), &repo(), output(false, b"", b"bad \xff byte")),
        Err(Error::Command { stderr, .. }) if stderr == "bad \u{fffd} byte"
    ));
    assert!(matches!(
        failed_command(&args(&["x"]), &repo(), "\tsaid \n"),
        Error::Command { command, cwd, stderr }
            if command == "go x" && cwd == "/repo" && stderr == "said"
    ));
}

#[test]
fn version_is_what_the_tool_wrote() {
    let written = output(true, b"go version go1.24.1 linux/amd64\n", b"");
    assert_eq!(go_version(&repo(), written).unwrap(), "go version go1.24.1 linux/amd64");
    assert_eq!(go_version(&repo(), output(true, b" \xc3\xa9\xff ", b"")).unwrap(), "é\u{fffd}");
    assert!(matches!(
        go_version(&repo(), output(false, b"", b"no toolchain")),
        Err(Error::Command { command, cwd, stderr })
            if command == "go version" && cwd == "/repo" && stderr == "no toolchain"
    ));
}

#[test]
fn commands_that_do_not_start_say_why() {
    assert!(matches!(
        command_stdout(&args(&["list", "./..."]), &repo(), CommandRun::Unstarted(unstarted())),
        Err(Error::Spawn { command, cwd, source })
            if command == "go list ./..." && cwd == "/repo" && source.to_string() == "no go"
    ));
    assert!(matches!(
        go_version(&repo(), CommandRun::Unstarted(unstarted())),
        Err(Error::Spawn { command, cwd, .. }) if command == "go version" && cwd == "/repo"
    ));
    assert!(matches!(
        failed_start(&args(&["x"]), &repo(), unstarted()),
        Error::Spawn { command, .. } if command == "go x"
    ));
}

#[test]
fn listings_are_packages_or_wrong_json() {
    let listed = vec![GoListPackage {
        name: "main".to_string(),
        import_path: "example.com/api".to_string(),
        imports: Vec::new(),
        module: None,
    }];
    let packages = listed_packages(&local_listing_args(), &repo(), Ok(listed)).unwrap();
    assert_eq!(packages.len(), 1);
    assert_eq!(packages[0].import_path, "example.com/api");
    assert!(matches!(
        listed_packages(&args(&["list"]), &repo(), Err("expected value".to_string())),
        Err(Error::Json { command, cwd, source })
            if command == "go list" && cwd == "/repo" && source == "expected value"
    ));
}
