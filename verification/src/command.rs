//! The tool's top-level commands and the spellings that select them.
use vstd::prelude::*;

use crate::text::{push_char, str_eq};

verus! {

#[derive(Debug, Clone, Copy, PartialEq, Eq, Structural)]
pub enum Command {
    Init,
    Run,
    Test,
    Help,
}

impl Command {
    /// The canonical name of the command.
    pub open spec fn name_spec(self) -> Seq<char> {
        match self {
            Command::Init => "init"@,
            Command::Run => "run"@,
            Command::Test => "test"@,
            Command::Help => "help"@,
        }
    }

    /// The one-dash, one-letter spelling.
    pub open spec fn alias_short_spec(self) -> Seq<char> {
        match self {
            Command::Init => "-i"@,
            Command::Run => "-r"@,
            Command::Test => "-t"@,
            Command::Help => "-h"@,
        }
    }

    /// The two-dash spelling.
    pub open spec fn alias_long_spec(self) -> Seq<char> {
        match self {
            Command::Init => "--init"@,
            Command::Run => "--run"@,
            Command::Test => "--test"@,
            Command::Help => "--help"@,
        }
    }

    /// Any of the three spellings that select the command.
    pub open spec fn named_by(self, s: Seq<char>) -> bool {
        s == self.name_spec() || s == self.alias_short_spec() || s == self.alias_long_spec()
    }

    pub fn name(&self) -> (r: &'static str)
        ensures
            r@ == self.name_spec(),
    {
        match self {
            Command::Init => "init",
            Command::Run => "run",
            Command::Test => "test",
            Command::Help => "help",
        }
    }

    /// The one-dash alias: a dash followed by the name's first letter.
    pub fn alias_short(&self) -> (r: String)
        ensures
            r@ == self.alias_short_spec(),
    {
        proof {
            reveal_strlit("init");
            reveal_strlit("run");
            reveal_strlit("test");
            reveal_strlit("help");
            reveal_strlit("-i");
            reveal_strlit("-r");
            reveal_strlit("-t");
            reveal_strlit("-h");
        }
        let name: &'static str = self.name();
        let mut out: String = String::new();
        push_char(&mut out, '-');
        push_char(&mut out, name.get_char(0));
        proof {
            assert(out@ =~= self.alias_short_spec());
        }
        out
    }

    /// The two-dash alias: two dashes followed by the name.
    pub fn alias_long(&self) -> (r: String)
        ensures
            r@ == self.alias_long_spec(),
    {
        proof {
            reveal_strlit("init");
            reveal_strlit("run");
            reveal_strlit("test");
            reveal_strlit("help");
            reveal_strlit("--init");
            reveal_strlit("--run");
            reveal_strlit("--test");
            reveal_strlit("--help");
            reveal_strlit("--");
        }
        let mut out: String = String::from_str("--");
        out.append(self.name());
        proof {
            assert(out@ =~= self.alias_long_spec());
        }
        out
    }

    fn matches_spelling(&self, name: &str) -> (r: bool)
        ensures
            r == self.named_by(name@),
    {
        if str_eq(name, self.name()) {
            return true;
        }
        let short: String = self.alias_short();
        if str_eq(name, short.as_str()) {
            return true;
        }
        let long: String = self.alias_long();
        str_eq(name, long.as_str())
    }

    /// The command that the given spelling selects, if any.
    pub fn from_name(name: &str) -> (r: Option<Command>)
        ensures
            r matches Some(c) ==> c.named_by(name@),
            r is None ==> forall|c: Command| !c.named_by(name@),
    {
        if Command::Init.matches_spelling(name) {
            Some(Command::Init)
        } else if Command::Run.matches_spelling(name) {
            Some(Command::Run)
        } else if Command::Test.matches_spelling(name) {
            Some(Command::Test)
        } else if Command::Help.matches_spelling(name) {
            Some(Command::Help)
        } else {
            proof {
                assert forall|c: Command| !c.named_by(name@) by {
                    match c {
                        Command::Init => {},
                        Command::Run => {},
                        Command::Test => {},
                        Command::Help => {},
                    }
                }
            }
            None
        }
    }
}

} // verus!
