//! Laws of runs of the `go` tool.
use crate::command::{
    command_failure, command_text, full_listing, local_listing, lossy_text, start_failure,
    stdout_outcome, version_query, CommandOutput, CommandRun,
};
use crate::error::Failure;
use crate::laws::texts::{joining_one_is_itself, joining_separates};
use crate::text::trim;
use vstd::prelude::*;

verus! {

/// A run is written as the tool and its arguments, with spaces between them.
pub proof fn commands_are_written_with_spaces(args: Seq<Seq<char>>, arg: Seq<char>)
    ensures
        args.len() > 0 ==> command_text(args.push(arg)) == command_text(args) + seq![' '] + arg,
        command_text(seq![arg]) == seq!['g', 'o', ' '] + arg,
{
    reveal_strlit("go ");
    reveal_strlit(" ");
    assert("go "@ =~= seq!['g', 'o', ' ']);
    assert(" "@ =~= seq![' ']);
    joining_one_is_itself(arg, " "@);
    if args.len() > 0 {
        joining_separates(args, seq![arg], " "@);
        assert(args + seq![arg] =~= args.push(arg));
        assert(command_text(args.push(arg)) =~= command_text(args) + seq![' '] + arg);
    }
}

/// The packages of a module are listed without changing its manifest and as JSON; with
/// all that they are built of and tested with there are two flags more.
pub proof fn listings_leave_manifests_alone()
    ensures
        command_text(local_listing()) == "go "@ + ("list"@ + " "@ + "-mod=readonly"@ + " "@
            + "-json"@ + " "@ + "./..."@),
        command_text(full_listing()) == "go "@ + ("list"@ + " "@ + "-mod=readonly"@ + " "@
            + "-deps"@ + " "@ + "-test"@ + " "@ + "-json"@ + " "@ + "./..."@),
        command_text(version_query()) == "go "@ + "version"@,
        local_listing().len() == 4,
        full_listing().len() == 6,
        version_query().len() == 1,
        full_listing() == local_listing().take(2) + seq!["-deps"@, "-test"@]
            + local_listing().skip(2),
{
    let separator = " "@;
    let a = "list"@;
    let b = "-mod=readonly"@;
    let c = "-json"@;
    let d = "./..."@;
    let e = "-deps"@;
    let f = "-test"@;
    joining_one_is_itself(a, separator);
    joining_one_is_itself(b, separator);
    joining_one_is_itself(c, separator);
    joining_one_is_itself(d, separator);
    joining_one_is_itself(e, separator);
    joining_one_is_itself(f, separator);
    joining_one_is_itself("version"@, separator);
    joining_separates(seq![a], seq![b], separator);
    assert(seq![a] + seq![b] =~= seq![a, b]);
    joining_separates(seq![a, b], seq![c], separator);
    assert(seq![a, b] + seq![c] =~= seq![a, b, c]);
    joining_separates(seq![a, b, c], seq![d], separator);
    assert(seq![a, b, c] + seq![d] =~= local_listing());
    joining_separates(seq![a, b], seq![e], separator);
    assert(seq![a, b] + seq![e] =~= seq![a, b, e]);
    joining_separates(seq![a, b, e], seq![f], separator);
    assert(seq![a, b, e] + seq![f] =~= seq![a, b, e, f]);
    joining_separates(seq![a, b, e, f], seq![c], separator);
    assert(seq![a, b, e, f] + seq![c] =~= seq![a, b, e, f, c]);
    joining_separates(seq![a, b, e, f, c], seq![d], separator);
    assert(seq![a, b, e, f, c] + seq![d] =~= full_listing());
    assert(full_listing() =~= local_listing().take(2) + seq![e, f] + local_listing().skip(2));
}

/// A failure names the run and where it ran: with what the tool said, without the blanks
/// around it, or with why it could not be started.
pub proof fn failures_name_their_run(
    args: Seq<Seq<char>>,
    cwd: Seq<char>,
    stderr: Seq<char>,
    source: std::io::Error,
)
    ensures
        command_failure(args, cwd, stderr) == (Failure::Command {
            command: command_text(args),
            cwd,
            stderr: trim(stderr),
        }),
        start_failure(args, cwd, source) == (Failure::Spawn {
            command: command_text(args),
            cwd,
            source,
        }),
{
}

/// A run that succeeds gives what it wrote, whatever it said besides; one that fails
/// gives what it said, and one that did not start gives why.
pub proof fn runs_give_what_they_wrote(
    args: Seq<Seq<char>>,
    cwd: Seq<char>,
    output: CommandOutput,
    source: std::io::Error,
)
    ensures
        output.success ==> stdout_outcome(args, cwd, CommandRun::Ended(output)) == Ok::<
            Seq<u8>,
            Failure,
        >(output.stdout@),
        !output.success ==> stdout_outcome(args, cwd, CommandRun::Ended(output)) == Err::<
            Seq<u8>,
            Failure,
        >(
            Failure::Command {
                command: command_text(args),
                cwd,
                stderr: trim(lossy_text(output.stderr@)),
            },
        ),
        stdout_outcome(args, cwd, CommandRun::Unstarted(source)) == Err::<Seq<u8>, Failure>(
            Failure::Spawn { command: command_text(args), cwd, source },
        ),
{
}

} // verus!
