//! Session manager and protocol engine for a line-oriented, token-correlated
//! machine-interface debugger protocol.
//!
//! The crate holds the engine's logic, verified end to end: the record
//! parser and serializer with their round-trip laws, the domain decoders,
//! the command correlator that matches each result line to the one command
//! it answers, the stop-event dispatcher, the breakpoint mirror, and the
//! process-wide session registry. Process pipes, scheduling and transport
//! live outside; they hand lines in and carry lines out.

use vstd::prelude::*;

pub mod commands;
pub mod correlator;
pub mod decode;
pub mod linebuf;
pub mod parse;
pub mod record;
pub mod registry;
pub mod roundtrip;
pub mod ser;
pub mod session;
pub mod text;
pub mod value;

verus! {

/// The engine never drops a line silently: either it parses as exactly one
/// record of the grammar, or it is reported malformed, line in hand.
pub fn line_is_well_formed(line: &Vec<u8>) -> (ok: bool)
    ensures
        ok == (crate::record::spec_parse_record(line@) is Some),
{
    match crate::record::parse_record(line) {
        Ok(_) => true,
        Err(_) => false,
    }
}

} // verus!
