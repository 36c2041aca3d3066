//! Shell completion generation: an indentation-aware text buffer and a
//! renderer that turns a command tree into Nushell `extern` declarations.
pub mod output;
pub mod parse;
pub mod nu;

pub use output::{Output, OutputView};
pub use parse::{CommandInfo, Flag, FlagView};
