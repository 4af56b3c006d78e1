//! A two-pass assembler for the Hack 16-bit machine.
//!
//! Source lines are classified into address, compute, label and ignorable
//! commands; a first pass binds label names to instruction addresses, a
//! second pass resolves symbols, allocates variable addresses and emits one
//! 16-character binary instruction per address or compute command.

use vstd::prelude::*;

pub mod code;
pub mod driver;
pub mod errors;
pub mod parser;
pub mod symbol_table;
pub mod text;

verus! {

/// Picks the input file path out of the raw argument list: the first real
/// argument (after the program name) names the file to translate.
pub fn parse_input_file(args: &[String]) -> (r: Result<String, &'static str>)
    ensures
        args@.len() >= 2 ==> (r matches Ok(p) && p@ == args@[1]@),
        args@.len() < 2 ==> (r matches Err(m) && m@ == "not enough arguments"@),
{
    if args.len() < 2 {
        return Err("not enough arguments");
    }

    Ok(args[1].clone())
}

} // verus!
