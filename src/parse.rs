//! The parsed description of a command-line tool's interface.
use vstd::prelude::*;

verus! {

/// One option, under all the spellings it accepts.
#[derive(Debug)]
pub struct Flag {
    /// Aliases of the same option, such as `-v` and `--verbose`.
    pub forms: Vec<String>,
    /// What the option does, if known.
    pub desc: Option<String>,
}

/// A flag as plain text values.
pub struct FlagView {
    pub forms: Seq<Seq<char>>,
    pub desc: Option<Seq<char>>,
}

impl View for Flag {
    type V = FlagView;

    open spec fn view(&self) -> FlagView {
        FlagView {
            forms: self.forms@.map_values(|f: String| f@),
            desc: match self.desc {
                Some(d) => Some(d@),
                None => None,
            },
        }
    }
}

/// A command: its name, its flags and its subcommands, each in the order
/// in which they were found.
#[derive(Debug)]
pub struct CommandInfo {
    pub name: String,
    pub flags: Vec<Flag>,
    pub subcommands: Vec<CommandInfo>,
}

} // verus!
