//! The command line.

use vstd::prelude::*;

use crate::text;

verus! {

/// What the command line asks for.
#[derive(Debug, Clone, Copy, PartialEq, Eq, Structural)]
pub struct Args {
    pub list_windows: bool,
    pub debug: bool,
}

/// What to do.
#[derive(Debug, Clone, Copy, PartialEq, Eq, Structural)]
pub enum Command {
    Run(Args),
    /// Print the usage and end.
    Help,
}

/// How the program is called.
pub open spec fn usage_text() -> Seq<char> {
    "Usage: tobyscope-x11 [--list-windows] [--debug]\n\nOptions:\n--list-windows  Print detected visible X11 client windows and exit.\n--debug         Print extra diagnostics to stderr.\n-h, --help      Show this help.\n"@
}

/// How the program is called.
pub fn usage() -> (text: &'static str)
    ensures
        text@ == usage_text(),
{
    "Usage: tobyscope-x11 [--list-windows] [--debug]\n\nOptions:\n--list-windows  Print detected visible X11 client windows and exit.\n--debug         Print extra diagnostics to stderr.\n-h, --help      Show this help.\n"
}

/// What an argument means to the arguments before it.
pub enum Meaning {
    Given(Args),
    Help,
    Unknown,
}

/// What an argument means after `args`.
pub open spec fn meaning(args: Args, argument: Seq<char>) -> Meaning {
    if argument == "--list-windows"@ {
        Meaning::Given(Args { list_windows: true, ..args })
    } else if argument == "--debug"@ {
        Meaning::Given(Args { debug: true, ..args })
    } else if argument == "-h"@ || argument == "--help"@ {
        Meaning::Help
    } else {
        Meaning::Unknown
    }
}

/// What arguments ask for, after `args`, or the argument that is not known. The first argument
/// that asks for help or is not known decides.
pub open spec fn reading(args: Args, arguments: Seq<String>) -> Result<Command, Seq<char>>
    decreases arguments.len(),
{
    if arguments.len() == 0 {
        Ok(Command::Run(args))
    } else {
        match meaning(args, arguments[0]@) {
            Meaning::Given(more) => reading(more, arguments.skip(1)),
            Meaning::Help => Ok(Command::Help),
            Meaning::Unknown => Err(arguments[0]@),
        }
    }
}

/// What to tell of an argument that is not known.
pub open spec fn complaint(argument: Seq<char>) -> Seq<char> {
    "unknown argument `"@ + argument + "`\n\n"@ + usage_text()
}

impl Args {
    /// Reads the arguments that follow the program's name.
    pub fn parse(arguments: &Vec<String>) -> (command: Result<Command, String>)
        ensures
            match reading(Args { list_windows: false, debug: false }, arguments@) {
                Ok(expected) => command == Ok::<Command, String>(expected),
                Err(argument) => command is Err && command->Err_0@ == complaint(argument),
            },
    {
        let mut args: Args = Args { list_windows: false, debug: false };
        let mut i: usize = 0;
        assert(arguments@.skip(0) =~= arguments@);
        while i < arguments.len()
            invariant
                i <= arguments@.len(),
                reading(Args { list_windows: false, debug: false }, arguments@) == reading(
                    args,
                    arguments@.skip(i as int),
                ),
            decreases arguments@.len() - i,
        {
            assert(arguments@.skip(i as int).skip(1) =~= arguments@.skip(i + 1));
            let argument: &str = arguments[i].as_str();
            if text::same_text(argument, "--list-windows") {
                args.list_windows = true;
            } else if text::same_text(argument, "--debug") {
                args.debug = true;
            } else if text::same_text(argument, "-h") || text::same_text(argument, "--help") {
                return Ok(Command::Help);
            } else {
                let mut message: String = "unknown argument `".to_owned();
                message.append(argument);
                message.append("`\n\n");
                message.append(usage());
                return Err(message);
            }
            i += 1;
        }
        Ok(Command::Run(args))
    }
}

/// The two options may stand in any order and number, and each sets its own switch; help ends the
/// reading, and so does the first argument that is not known, which is the one that is told.
pub proof fn law_arguments_are_read_in_turn(
    args: Args,
    given: Seq<String>,
    argument: String,
    rest: Seq<String>,
)
    requires
        forall|i: int|
            0 <= i < given.len() ==> (#[trigger] given[i])@ == "--list-windows"@ || given[i]@
                == "--debug"@,
    ensures
        reading(args, given) == Ok::<Command, Seq<char>>(
            Command::Run(
                Args {
                    list_windows: args.list_windows || exists|i: int|
                        0 <= i < given.len() && (#[trigger] given[i])@ == "--list-windows"@,
                    debug: args.debug || exists|i: int|
                        0 <= i < given.len() && (#[trigger] given[i])@ == "--debug"@,
                },
            ),
        ),
        argument@ == "-h"@ || argument@ == "--help"@ ==> reading(
            args,
            given + seq![argument] + rest,
        ) == Ok::<Command, Seq<char>>(Command::Help),
        argument@ != "-h"@ && argument@ != "--help"@ && argument@ != "--list-windows"@ && argument@
            != "--debug"@ ==> reading(args, given + seq![argument] + rest) == Err::<
            Command,
            Seq<char>,
        >(argument@),
    decreases given.len(),
{
    reveal_strlit("--list-windows");
    reveal_strlit("--debug");
    reveal_strlit("-h");
    reveal_strlit("--help");
    assert("--list-windows"@.len() == 14 && "--debug"@.len() == 7 && "-h"@.len() == 2
        && "--help"@.len() == 6);
    let whole = given + seq![argument] + rest;
    if given.len() == 0 {
        assert(whole[0] == argument);
    } else {
        let tail = given.skip(1);
        assert forall|i: int| 0 <= i < tail.len() implies (#[trigger] tail[i])@
            == "--list-windows"@ || tail[i]@ == "--debug"@ by {
            assert(tail[i] == given[i + 1]);
        }
        let listing = given[0]@ == "--list-windows"@;
        let more = if listing {
            Args { list_windows: true, ..args }
        } else {
            Args { debug: true, ..args }
        };
        law_arguments_are_read_in_turn(more, tail, argument, rest);
        assert(whole[0] == given[0]);
        assert(whole.skip(1) =~= tail + seq![argument] + rest);
        lemma_first_or_later(given, "--list-windows"@);
        lemma_first_or_later(given, "--debug"@);
    }
}

proof fn lemma_first_or_later(given: Seq<String>, wanted: Seq<char>)
    requires
        given.len() > 0,
    ensures
        (exists|i: int| 0 <= i < given.len() && (#[trigger] given[i])@ == wanted) <==> (given[0]@
            == wanted || exists|i: int|
            0 <= i < given.skip(1).len() && (#[trigger] given.skip(1)[i])@ == wanted),
{
    let tail = given.skip(1);
    if exists|i: int| 0 <= i < tail.len() && (#[trigger] tail[i])@ == wanted {
        let i = choose|i: int| 0 <= i < tail.len() && (#[trigger] tail[i])@ == wanted;
        assert(given[i + 1]@ == wanted);
    }
    if exists|i: int| 0 <= i < given.len() && (#[trigger] given[i])@ == wanted {
        let i = choose|i: int| 0 <= i < given.len() && (#[trigger] given[i])@ == wanted;
        if i > 0 {
            assert(tail[i - 1]@ == wanted);
        }
    }
}

/// An argument that is not known is told with how the program is called.
pub proof fn law_complaints_name_the_argument(argument: Seq<char>)
    ensures
        text::has_prefix(complaint(argument), "unknown argument `"@ + argument + "`\n\n"@),
        complaint(argument).skip(("unknown argument `"@ + argument + "`\n\n"@).len() as int)
            == usage_text(),
{
    let start = "unknown argument `"@ + argument + "`\n\n"@;
    assert(complaint(argument).take(start.len() as int) =~= start);
    assert(complaint(argument).skip(start.len() as int) =~= usage_text());
}

}
