//! What holds of every run of `nft`.

use vstd::prelude::*;

use crate::nft::{
    availability_error, chain_run, existence_of, input_of, nat_lines, run_succeeded,
    script_error, script_run, table_lines, table_run, tables_run, Ending, Run, TABLE,
};
use crate::nft_line_laws::{occurs_in_itself, occurs_in_part};
use crate::nft_text_laws::occurs;
use crate::text::{ends, trimmed};

verus! {

/// A script is fed to the program on its standard input.
pub proof fn script_goes_to_standard_input(nft: Seq<char>, text: Seq<char>)
    ensures
        script_run(nft, text).program == nft,
        script_run(nft, text).stdin == Some(text),
        script_run(nft, text).args == seq!["-f"@, "-"@],
        input_of(script_run(nft, text)) == text,
{
}

/// A run has succeeded exactly if the program has ended and says so.
pub proof fn only_a_successful_end_succeeds(ending: Ending)
    ensures
        run_succeeded(ending) <==> exists|status: Seq<char>, stderr: Seq<char>|
            ending == (Ending::Exited { succeeded: true, status, stderr }),
{
    if let Ending::Exited { succeeded: true, status, stderr } = ending {
        assert(ending == (Ending::Exited { succeeded: true, status, stderr }));
    }
}

/// What is reported of a script that was not applied holds the status, what the program said and
/// the script; and the program, if it could not be started.
pub proof fn script_errors_say_what_happened(
    nft: Seq<char>,
    text: Seq<char>,
    status: Seq<char>,
    stderr: Seq<char>,
    succeeded: bool,
)
    ensures
        ({
            let run = script_run(nft, text);
            let message = script_error(run, Ending::Exited { succeeded, status, stderr });
            &&& message == "nft script failed ("@ + status + "): "@ + trimmed(stderr)
                + "\n--- script ---\n"@ + text
            &&& occurs(script_error(run, Ending::NotStarted), nft)
            &&& script_error(run, Ending::NotStarted) != script_error(run, Ending::NotWritten)
            &&& script_error(run, Ending::NotStarted) != script_error(run, Ending::NotWaited)
            &&& script_error(run, Ending::NotWritten) != script_error(run, Ending::NotWaited)
        }),
{
    occurs_in_itself(nft);
    occurs_in_part("spawning `"@, nft, " -f -`"@, nft);
    reveal_strlit("spawning `");
    reveal_strlit("writing nft script to stdin");
    reveal_strlit("waiting for nft");
    let run = script_run(nft, text);
    assert(script_error(run, Ending::NotStarted)[0] == 's');
    assert(script_error(run, Ending::NotWritten)[1] == 'r');
    assert(script_error(run, Ending::NotWaited)[1] == 'a');
}

/// What is reported of an `nft` that cannot be used holds the status and what the program said;
/// and the program, if it did not run to its end.
pub proof fn availability_errors_say_what_happened(
    run: Run,
    status: Seq<char>,
    stderr: Seq<char>,
    succeeded: bool,
)
    ensures
        ({
            let message = availability_error(run, Ending::Exited { succeeded, status, stderr });
            &&& occurs(message, status)
            &&& ends(message, trimmed(stderr))
            &&& occurs(availability_error(run, Ending::NotStarted), run.program)
            &&& occurs(availability_error(run, Ending::NotWritten), run.program)
            &&& occurs(availability_error(run, Ending::NotWaited), run.program)
        }),
{
    let message = availability_error(run, Ending::Exited { succeeded, status, stderr });
    let front = "`nft list tables` failed ("@;
    let said = trimmed(stderr);
    occurs_in_itself(status);
    occurs_in_itself(run.program);
    let back = message.skip((front.len() + status.len()) as int);
    assert(message =~= front + status + back);
    occurs_in_part(front, status, back, status);
    occurs_in_part(
        "failed to run `"@,
        run.program,
        "` — is the nftables package installed?"@,
        run.program,
    );
    assert(message.skip(message.len() - said.len()) =~= said);
}

/// The probe asks for the chain that the ruleset declares, in the table that the ruleset
/// replaces: it is there exactly if a ruleset that intercepts is.
pub proof fn probe_asks_for_the_chain_of_the_ruleset(nft: Seq<char>, port: u16)
    ensures
        chain_run(nft).program == nft,
        chain_run(nft).stdin is None,
        chain_run(nft).args.len() == 5,
        chain_run(nft).args[0] == "list"@,
        chain_run(nft).args[1] == "chain"@,
        table_lines()[2] == "table "@ + chain_run(nft).args[2] + " "@ + chain_run(nft).args[3]
            + " {"@,
        nat_lines(port)[0] == "  chain "@ + chain_run(nft).args[4] + " {"@,
{
    reveal_strlit("table ");
    reveal_strlit("inet");
    reveal_strlit(" ");
    reveal_strlit(" {");
    reveal_strlit("table inet ");
    reveal_strlit("  chain ");
    reveal_strlit("nat_output");
    reveal_strlit("  chain nat_output {");
    assert("table inet "@ =~= "table "@ + "inet"@ + " "@);
    assert("table inet "@ + TABLE@ + " {"@ =~= "table "@ + "inet"@ + " "@ + TABLE@ + " {"@);
    assert("  chain nat_output {"@ =~= "  chain "@ + "nat_output"@ + " {"@);
}

/// The question whether our table exists is about the table that the ruleset replaces, and the
/// question whether nftables is usable is about no table.
pub proof fn questions_are_about_the_table_of_the_ruleset(nft: Seq<char>)
    ensures
        table_run(nft).program == nft,
        table_run(nft).stdin is None,
        table_run(nft).args.len() == 4,
        table_run(nft).args[0] == "list"@,
        table_lines()[2] == table_run(nft).args[1] + " "@ + table_run(nft).args[2] + " "@
            + table_run(nft).args[3] + " {"@,
        tables_run(nft).program == nft,
        tables_run(nft).stdin is None,
        tables_run(nft).args == seq!["list"@, "tables"@],
{
    reveal_strlit("table");
    reveal_strlit("inet");
    reveal_strlit(" ");
    reveal_strlit("table inet ");
    assert("table inet "@ + TABLE@ + " {"@ =~= "table"@ + " "@ + "inet"@ + " "@ + TABLE@ + " {"@);
}

/// Something exists exactly if the run that asks has succeeded, and nothing is known of a run
/// that did not come to its end.
pub proof fn existence_follows_the_run(ending: Ending)
    ensures
        existence_of(ending) == Some(true) <==> run_succeeded(ending),
        existence_of(ending) is None <==> ending is NotStarted || ending is NotWritten
            || ending is NotWaited,
{
}

} // verus!
