//! Runs of the `go` tool: what is run, and what its output means.
use crate::error::{outcome, Error, Failure};
use crate::listing::GoListPackage;
use crate::path::AbsolutePath;
use crate::text::{join, joined, trim, trimmed};
use vstd::prelude::*;
use vstd::utf8::{decode_utf8, valid_utf8};

verus! {

/// What a run of the `go` tool left behind.
#[derive(Debug)]
pub struct CommandOutput {
    pub success: bool,
    pub stdout: Vec<u8>,
    pub stderr: Vec<u8>,
}

/// How a run of the `go` tool went: it could not be started, or it ended.
#[derive(Debug)]
pub enum CommandRun {
    Unstarted(std::io::Error),
    Ended(CommandOutput),
}

/// The arguments that list the packages of a module.
pub open spec fn local_listing() -> Seq<Seq<char>> {
    seq!["list"@, "-mod=readonly"@, "-json"@, "./..."@]
}

/// The arguments that list the packages of a module together with all that they
/// are built of and tested with.
pub open spec fn full_listing() -> Seq<Seq<char>> {
    seq!["list"@, "-mod=readonly"@, "-deps"@, "-test"@, "-json"@, "./..."@]
}

/// The arguments that ask for the version of the tool.
pub open spec fn version_query() -> Seq<Seq<char>> {
    seq!["version"@]
}

/// The arguments that list the packages of a module.
pub fn local_listing_args() -> (r: Vec<String>)
    ensures
        r.deep_view() == local_listing(),
{
    let mut args: Vec<String> = Vec::new();
    args.push("list".to_owned());
    args.push("-mod=readonly".to_owned());
    args.push("-json".to_owned());
    args.push("./...".to_owned());
    assert(args.deep_view() =~= local_listing());
    args
}

/// The arguments that list the packages of a module together with all that they
/// are built of and tested with.
pub fn full_listing_args() -> (r: Vec<String>)
    ensures
        r.deep_view() == full_listing(),
{
    let mut args: Vec<String> = Vec::new();
    args.push("list".to_owned());
    args.push("-mod=readonly".to_owned());
    args.push("-deps".to_owned());
    args.push("-test".to_owned());
    args.push("-json".to_owned());
    args.push("./...".to_owned());
    assert(args.deep_view() =~= full_listing());
    args
}

/// The arguments that ask for the version of the tool.
pub fn version_args() -> (r: Vec<String>)
    ensures
        r.deep_view() == version_query(),
{
    let mut args: Vec<String> = Vec::new();
    args.push("version".to_owned());
    assert(args.deep_view() =~= version_query());
    args
}

/// How a run of the tool with `args` is written.
pub open spec fn command_text(args: Seq<Seq<char>>) -> Seq<char> {
    "go "@ + join(args, " "@)
}

/// How a run of the tool with `args` is written.
pub fn go_command(args: &Vec<String>) -> (r: String)
    ensures
        r@ == command_text(args.deep_view()),
{
    let mut command = "go ".to_owned();
    command.append(joined(args, " ").as_str());
    command
}

/// The text that bytes stand for, whether or not they are UTF-8.
pub uninterp spec fn lossy_text(bytes: Seq<u8>) -> Seq<char>;

/// Calls `String::from_utf8_lossy`. The text that it gives is named `lossy_text`;
/// of valid UTF-8 it is the text that was encoded. Which bytes of other input
/// the replacement character stands for is left unsaid.
#[verifier::external_body]
fn read_lossy(bytes: &Vec<u8>) -> (r: String)
    ensures
        r@ == lossy_text(bytes@),
        valid_utf8(bytes@) ==> r@ == decode_utf8(bytes@),
{
    String::from_utf8_lossy(bytes).into_owned()
}

/// The failure of the run with `args` in `cwd`, where `stderr` is what the tool
/// said.
pub open spec fn command_failure(
    args: Seq<Seq<char>>,
    cwd: Seq<char>,
    stderr: Seq<char>,
) -> Failure {
    Failure::Command { command: command_text(args), cwd, stderr: trim(stderr) }
}

/// The failure to start the run with `args` in `cwd`.
pub open spec fn start_failure(
    args: Seq<Seq<char>>,
    cwd: Seq<char>,
    source: std::io::Error,
) -> Failure {
    Failure::Spawn { command: command_text(args), cwd, source }
}

/// The failure of the run with `args` in `cwd`, where `stderr` is what the tool
/// said.
pub fn failed_command(args: &Vec<String>, cwd: &AbsolutePath, stderr: &str) -> (r: Error)
    ensures
        r.deep_view() == command_failure(args.deep_view(), cwd.deep_view().text, stderr@),
{
    Error::Command {
        command: go_command(args),
        cwd: cwd.text.clone(),
        stderr: trimmed(stderr),
    }
}

/// The failure to start the run with `args` in `cwd`.
pub fn failed_start(args: &Vec<String>, cwd: &AbsolutePath, source: std::io::Error) -> (r: Error)
    ensures
        r.deep_view() == start_failure(args.deep_view(), cwd.deep_view().text, source),
{
    Error::Spawn { command: go_command(args), cwd: cwd.text.clone(), source }
}

/// What was written by the run with `args` in `cwd`, or why it failed.
pub open spec fn stdout_outcome(
    args: Seq<Seq<char>>,
    cwd: Seq<char>,
    run: CommandRun,
) -> Result<Seq<u8>, Failure> {
    match run {
        CommandRun::Unstarted(source) => Err(start_failure(args, cwd, source)),
        CommandRun::Ended(output) => if output.success {
            Ok(output.stdout@)
        } else {
            Err(command_failure(args, cwd, lossy_text(output.stderr@)))
        },
    }
}

/// What was written by the run with `args` in `cwd`, or why it failed.
pub fn command_stdout(args: &Vec<String>, cwd: &AbsolutePath, run: CommandRun) -> (r: Result<
    Vec<u8>,
    Error,
>)
    ensures
        match r {
            Ok(stdout) => stdout_outcome(args.deep_view(), cwd.deep_view().text, run) == Ok::<
                Seq<u8>,
                Failure,
            >(stdout@),
            Err(error) => stdout_outcome(args.deep_view(), cwd.deep_view().text, run) == Err::<
                Seq<u8>,
                Failure,
            >(error.deep_view()),
        },
        run matches CommandRun::Ended(output) && !output.success && valid_utf8(output.stderr@)
            ==> (r matches Err(error) && error.deep_view() == command_failure(
            args.deep_view(),
            cwd.deep_view().text,
            decode_utf8(run->Ended_0.stderr@),
        )),
{
    match run {
        CommandRun::Unstarted(source) => Err(failed_start(args, cwd, source)),
        CommandRun::Ended(output) => {
            if output.success {
                Ok(output.stdout)
            } else {
                Err(failed_command(args, cwd, read_lossy(&output.stderr).as_str()))
            }
        },
    }
}

/// The packages that the run with `args` in `cwd` listed. `decoded` is what its
/// output says, or what is wrong with it as JSON.
pub fn listed_packages(
    args: &Vec<String>,
    cwd: &AbsolutePath,
    decoded: Result<Vec<GoListPackage>, String>,
) -> (r: Result<Vec<GoListPackage>, Error>)
    ensures
        outcome(r) == (match decoded {
            Ok(packages) => Ok(packages.deep_view()),
            Err(message) => Err(
                Failure::Json {
                    command: command_text(args.deep_view()),
                    cwd: cwd.deep_view().text,
                    source: message@,
                },
            ),
        }),
{
    match decoded {
        Ok(packages) => Ok(packages),
        Err(message) => Err(
            Error::Json { command: go_command(args), cwd: cwd.text.clone(), source: message },
        ),
    }
}

/// The version that the tool gave when asked for it in `repo_root`: what it
/// wrote, without the blanks around it.
pub fn go_version(repo_root: &AbsolutePath, run: CommandRun) -> (r: Result<String, Error>)
    ensures
        outcome(r) == (match stdout_outcome(
            version_query(),
            repo_root.deep_view().text,
            run,
        ) {
            Ok(stdout) => Ok(trim(lossy_text(stdout))),
            Err(failure) => Err(failure),
        }),
        run matches CommandRun::Ended(output) && output.success && valid_utf8(output.stdout@)
            ==> (r matches Ok(version) && version@ == trim(
            decode_utf8(run->Ended_0.stdout@),
        )),
{
    match command_stdout(&version_args(), repo_root, run) {
        Ok(stdout) => Ok(trimmed(read_lossy(&stdout).as_str())),
        Err(error) => Err(error),
    }
}

} // verus!
