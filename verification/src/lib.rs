//! Parser for a kernel-style command line: a single line of bytes holding
//! whitespace-separated `name=value` arguments, where double quotes let a
//! value carry literal whitespace and `-` / `_` are interchangeable when
//! names are compared.

use vstd::prelude::*;

pub mod arg;
pub mod cmdline;
pub mod matching;
pub mod quoting;
pub mod scan;

pub use arg::Arg;
pub use cmdline::CmdLine;
pub use cmdline::CmdLineIter;
pub use quoting::Stripped;

verus! {

/// The double-quote byte `"`.
pub const QUOTE: u8 = 34;

/// The `=` byte separating an argument's name from its value.
pub const EQ_BYTE: u8 = 61;

/// The `-` byte.
pub const DASH: u8 = 45;

/// The `_` byte.
pub const UNDERSCORE: u8 = 95;

} // verus!
