//! The boot console's command words.

use vstd::prelude::*;
use vstd::string::StringExecFns;

verus! {

/// What a console input line asks for.
#[derive(Clone, Copy, PartialEq, Eq, Structural, Debug)]
pub enum ShellCommand {
    Shutdown,
    Ls,
    Cd,
    Rm,
    Load,
    Gop,
    NotFound,
}

/// The command a word list names: a single known word selects its
/// command, anything else is not found.
pub open spec fn spec_parse_command(args: Seq<Seq<char>>) -> ShellCommand {
    if args.len() == 1 && args[0] == "shutdown"@ {
        ShellCommand::Shutdown
    } else if args.len() == 1 && args[0] == "ls"@ {
        ShellCommand::Ls
    } else if args.len() == 1 && args[0] == "cd"@ {
        ShellCommand::Cd
    } else if args.len() == 1 && args[0] == "rm"@ {
        ShellCommand::Rm
    } else if args.len() == 1 && args[0] == "load"@ {
        ShellCommand::Load
    } else if args.len() == 1 && args[0] == "gop"@ {
        ShellCommand::Gop
    } else {
        ShellCommand::NotFound
    }
}

/// The console's command table.
pub struct Commands {}

impl Commands {
    /// Picks the command a tokenized input line names; the console
    /// runs it, and reports an unknown first word itself.
    pub fn parse_command(args: &Vec<String>) -> (r: ShellCommand)
        ensures
            r == spec_parse_command(args.deep_view()),
    {
        proof {
            assert(args.deep_view().len() == args@.len());
        }
        if args.len() != 1 {
            return ShellCommand::NotFound;
        }
        proof {
            assert(args.deep_view()[0] == args@[0]@);
        }
        let word = &args[0];
        if *word == String::from_str("shutdown") {
            ShellCommand::Shutdown
        } else if *word == String::from_str("ls") {
            ShellCommand::Ls
        } else if *word == String::from_str("cd") {
            ShellCommand::Cd
        } else if *word == String::from_str("rm") {
            ShellCommand::Rm
        } else if *word == String::from_str("load") {
            ShellCommand::Load
        } else if *word == String::from_str("gop") {
            ShellCommand::Gop
        } else {
            ShellCommand::NotFound
        }
    }
}

} // verus!
