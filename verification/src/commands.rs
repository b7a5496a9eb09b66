use vstd::prelude::*;

use crate::text::{DASH, NEWLINE, dec_digits, digits_val, format_u64, is_digit};
use crate::parse::{lemma_scan_digits_take, spec_scan_digits};
use crate::linebuf::spec_no_newline;

verus! {

// ---------------------------------------------------------------------------
// The command vocabulary the operations layer sends
// ---------------------------------------------------------------------------


/// The command `-break-list`.
pub open spec fn spec_cmd_break_list() -> Seq<u8> {
    seq![0x2du8, 0x62u8, 0x72u8, 0x65u8, 0x61u8, 0x6bu8, 0x2du8, 0x6cu8, 0x69u8, 0x73u8, 0x74u8]
}

pub fn cmd_break_list() -> (r: Vec<u8>)
    ensures
        r@ == spec_cmd_break_list(),
        r@.len() > 0 && !is_digit(r@[0]),
{
    let mut out: Vec<u8> = Vec::new();
    out.push(0x2d);
    out.push(0x62);
    out.push(0x72);
    out.push(0x65);
    out.push(0x61);
    out.push(0x6b);
    out.push(0x2d);
    out.push(0x6c);
    out.push(0x69);
    out.push(0x73);
    out.push(0x74);
    proof {
        assert(out@ =~= spec_cmd_break_list());
    }
    out
}


/// The command `-exec-run`.
pub open spec fn spec_cmd_exec_run() -> Seq<u8> {
    seq![0x2du8, 0x65u8, 0x78u8, 0x65u8, 0x63u8, 0x2du8, 0x72u8, 0x75u8, 0x6eu8]
}

pub fn cmd_exec_run() -> (r: Vec<u8>)
    ensures
        r@ == spec_cmd_exec_run(),
        r@.len() > 0 && !is_digit(r@[0]),
{
    let mut out: Vec<u8> = Vec::new();
    out.push(0x2d);
    out.push(0x65);
    out.push(0x78);
    out.push(0x65);
    out.push(0x63);
    out.push(0x2d);
    out.push(0x72);
    out.push(0x75);
    out.push(0x6e);
    proof {
        assert(out@ =~= spec_cmd_exec_run());
    }
    out
}


/// The command `-exec-continue`.
pub open spec fn spec_cmd_exec_continue() -> Seq<u8> {
    seq![0x2du8, 0x65u8, 0x78u8, 0x65u8, 0x63u8, 0x2du8, 0x63u8, 0x6fu8, 0x6eu8, 0x74u8, 0x69u8, 0x6eu8, 0x75u8, 0x65u8]
}

pub fn cmd_exec_continue() -> (r: Vec<u8>)
    ensures
        r@ == spec_cmd_exec_continue(),
        r@.len() > 0 && !is_digit(r@[0]),
{
    let mut out: Vec<u8> = Vec::new();
    out.push(0x2d);
    out.push(0x65);
    out.push(0x78);
    out.push(0x65);
    out.push(0x63);
    out.push(0x2d);
    out.push(0x63);
    out.push(0x6f);
    out.push(0x6e);
    out.push(0x74);
    out.push(0x69);
    out.push(0x6e);
    out.push(0x75);
    out.push(0x65);
    proof {
        assert(out@ =~= spec_cmd_exec_continue());
    }
    out
}


/// The command `-exec-next`.
pub open spec fn spec_cmd_exec_next() -> Seq<u8> {
    seq![0x2du8, 0x65u8, 0x78u8, 0x65u8, 0x63u8, 0x2du8, 0x6eu8, 0x65u8, 0x78u8, 0x74u8]
}

pub fn cmd_exec_next() -> (r: Vec<u8>)
    ensures
        r@ == spec_cmd_exec_next(),
        r@.len() > 0 && !is_digit(r@[0]),
{
    let mut out: Vec<u8> = Vec::new();
    out.push(0x2d);
    out.push(0x65);
    out.push(0x78);
    out.push(0x65);
    out.push(0x63);
    out.push(0x2d);
    out.push(0x6e);
    out.push(0x65);
    out.push(0x78);
    out.push(0x74);
    proof {
        assert(out@ =~= spec_cmd_exec_next());
    }
    out
}


/// The command `-exec-step`.
pub open spec fn spec_cmd_exec_step() -> Seq<u8> {
    seq![0x2du8, 0x65u8, 0x78u8, 0x65u8, 0x63u8, 0x2du8, 0x73u8, 0x74u8, 0x65u8, 0x70u8]
}

pub fn cmd_exec_step() -> (r: Vec<u8>)
    ensures
        r@ == spec_cmd_exec_step(),
        r@.len() > 0 && !is_digit(r@[0]),
{
    let mut out: Vec<u8> = Vec::new();
    out.push(0x2d);
    out.push(0x65);
    out.push(0x78);
    out.push(0x65);
    out.push(0x63);
    out.push(0x2d);
    out.push(0x73);
    out.push(0x74);
    out.push(0x65);
    out.push(0x70);
    proof {
        assert(out@ =~= spec_cmd_exec_step());
    }
    out
}


/// The command `-exec-interrupt`.
pub open spec fn spec_cmd_exec_interrupt() -> Seq<u8> {
    seq![0x2du8, 0x65u8, 0x78u8, 0x65u8, 0x63u8, 0x2du8, 0x69u8, 0x6eu8, 0x74u8, 0x65u8, 0x72u8, 0x72u8, 0x75u8, 0x70u8, 0x74u8]
}

pub fn cmd_exec_interrupt() -> (r: Vec<u8>)
    ensures
        r@ == spec_cmd_exec_interrupt(),
        r@.len() > 0 && !is_digit(r@[0]),
{
    let mut out: Vec<u8> = Vec::new();
    out.push(0x2d);
    out.push(0x65);
    out.push(0x78);
    out.push(0x65);
    out.push(0x63);
    out.push(0x2d);
    out.push(0x69);
    out.push(0x6e);
    out.push(0x74);
    out.push(0x65);
    out.push(0x72);
    out.push(0x72);
    out.push(0x75);
    out.push(0x70);
    out.push(0x74);
    proof {
        assert(out@ =~= spec_cmd_exec_interrupt());
    }
    out
}


/// The command `-gdb-exit`.
pub open spec fn spec_cmd_gdb_exit() -> Seq<u8> {
    seq![0x2du8, 0x67u8, 0x64u8, 0x62u8, 0x2du8, 0x65u8, 0x78u8, 0x69u8, 0x74u8]
}

pub fn cmd_gdb_exit() -> (r: Vec<u8>)
    ensures
        r@ == spec_cmd_gdb_exit(),
        r@.len() > 0 && !is_digit(r@[0]),
{
    let mut out: Vec<u8> = Vec::new();
    out.push(0x2d);
    out.push(0x67);
    out.push(0x64);
    out.push(0x62);
    out.push(0x2d);
    out.push(0x65);
    out.push(0x78);
    out.push(0x69);
    out.push(0x74);
    proof {
        assert(out@ =~= spec_cmd_gdb_exit());
    }
    out
}


/// The command `-stack-list-frames`.
pub open spec fn spec_cmd_stack_list_frames() -> Seq<u8> {
    seq![0x2du8, 0x73u8, 0x74u8, 0x61u8, 0x63u8, 0x6bu8, 0x2du8, 0x6cu8, 0x69u8, 0x73u8, 0x74u8, 0x2du8, 0x66u8, 0x72u8, 0x61u8, 0x6du8, 0x65u8, 0x73u8]
}

pub fn cmd_stack_list_frames() -> (r: Vec<u8>)
    ensures
        r@ == spec_cmd_stack_list_frames(),
        r@.len() > 0 && !is_digit(r@[0]),
{
    let mut out: Vec<u8> = Vec::new();
    out.push(0x2d);
    out.push(0x73);
    out.push(0x74);
    out.push(0x61);
    out.push(0x63);
    out.push(0x6b);
    out.push(0x2d);
    out.push(0x6c);
    out.push(0x69);
    out.push(0x73);
    out.push(0x74);
    out.push(0x2d);
    out.push(0x66);
    out.push(0x72);
    out.push(0x61);
    out.push(0x6d);
    out.push(0x65);
    out.push(0x73);
    proof {
        assert(out@ =~= spec_cmd_stack_list_frames());
    }
    out
}


/// The command `-stack-list-variables --all-values`.
pub open spec fn spec_cmd_stack_list_variables() -> Seq<u8> {
    seq![0x2du8, 0x73u8, 0x74u8, 0x61u8, 0x63u8, 0x6bu8, 0x2du8, 0x6cu8, 0x69u8, 0x73u8, 0x74u8, 0x2du8, 0x76u8, 0x61u8, 0x72u8, 0x69u8, 0x61u8, 0x62u8, 0x6cu8, 0x65u8, 0x73u8, 0x20u8, 0x2du8, 0x2du8, 0x61u8, 0x6cu8, 0x6cu8, 0x2du8, 0x76u8, 0x61u8, 0x6cu8, 0x75u8, 0x65u8, 0x73u8]
}

pub fn cmd_stack_list_variables() -> (r: Vec<u8>)
    ensures
        r@ == spec_cmd_stack_list_variables(),
        r@.len() > 0 && !is_digit(r@[0]),
{
    let mut out: Vec<u8> = Vec::new();
    out.push(0x2d);
    out.push(0x73);
    out.push(0x74);
    out.push(0x61);
    out.push(0x63);
    out.push(0x6b);
    out.push(0x2d);
    out.push(0x6c);
    out.push(0x69);
    out.push(0x73);
    out.push(0x74);
    out.push(0x2d);
    out.push(0x76);
    out.push(0x61);
    out.push(0x72);
    out.push(0x69);
    out.push(0x61);
    out.push(0x62);
    out.push(0x6c);
    out.push(0x65);
    out.push(0x73);
    out.push(0x20);
    out.push(0x2d);
    out.push(0x2d);
    out.push(0x61);
    out.push(0x6c);
    out.push(0x6c);
    out.push(0x2d);
    out.push(0x76);
    out.push(0x61);
    out.push(0x6c);
    out.push(0x75);
    out.push(0x65);
    out.push(0x73);
    proof {
        assert(out@ =~= spec_cmd_stack_list_variables());
    }
    out
}


/// The command `-data-list-register-names`.
pub open spec fn spec_cmd_register_names() -> Seq<u8> {
    seq![0x2du8, 0x64u8, 0x61u8, 0x74u8, 0x61u8, 0x2du8, 0x6cu8, 0x69u8, 0x73u8, 0x74u8, 0x2du8, 0x72u8, 0x65u8, 0x67u8, 0x69u8, 0x73u8, 0x74u8, 0x65u8, 0x72u8, 0x2du8, 0x6eu8, 0x61u8, 0x6du8, 0x65u8, 0x73u8]
}

pub fn cmd_register_names() -> (r: Vec<u8>)
    ensures
        r@ == spec_cmd_register_names(),
        r@.len() > 0 && !is_digit(r@[0]),
{
    let mut out: Vec<u8> = Vec::new();
    out.push(0x2d);
    out.push(0x64);
    out.push(0x61);
    out.push(0x74);
    out.push(0x61);
    out.push(0x2d);
    out.push(0x6c);
    out.push(0x69);
    out.push(0x73);
    out.push(0x74);
    out.push(0x2d);
    out.push(0x72);
    out.push(0x65);
    out.push(0x67);
    out.push(0x69);
    out.push(0x73);
    out.push(0x74);
    out.push(0x65);
    out.push(0x72);
    out.push(0x2d);
    out.push(0x6e);
    out.push(0x61);
    out.push(0x6d);
    out.push(0x65);
    out.push(0x73);
    proof {
        assert(out@ =~= spec_cmd_register_names());
    }
    out
}


/// The command `-data-list-register-values x`.
pub open spec fn spec_cmd_register_values() -> Seq<u8> {
    seq![0x2du8, 0x64u8, 0x61u8, 0x74u8, 0x61u8, 0x2du8, 0x6cu8, 0x69u8, 0x73u8, 0x74u8, 0x2du8, 0x72u8, 0x65u8, 0x67u8, 0x69u8, 0x73u8, 0x74u8, 0x65u8, 0x72u8, 0x2du8, 0x76u8, 0x61u8, 0x6cu8, 0x75u8, 0x65u8, 0x73u8, 0x20u8, 0x78u8]
}

pub fn cmd_register_values() -> (r: Vec<u8>)
    ensures
        r@ == spec_cmd_register_values(),
        r@.len() > 0 && !is_digit(r@[0]),
{
    let mut out: Vec<u8> = Vec::new();
    out.push(0x2d);
    out.push(0x64);
    out.push(0x61);
    out.push(0x74);
    out.push(0x61);
    out.push(0x2d);
    out.push(0x6c);
    out.push(0x69);
    out.push(0x73);
    out.push(0x74);
    out.push(0x2d);
    out.push(0x72);
    out.push(0x65);
    out.push(0x67);
    out.push(0x69);
    out.push(0x73);
    out.push(0x74);
    out.push(0x65);
    out.push(0x72);
    out.push(0x2d);
    out.push(0x76);
    out.push(0x61);
    out.push(0x6c);
    out.push(0x75);
    out.push(0x65);
    out.push(0x73);
    out.push(0x20);
    out.push(0x78);
    proof {
        assert(out@ =~= spec_cmd_register_values());
    }
    out
}

/// The command `-break-insert <file>:<line>`.
pub open spec fn spec_cmd_break_insert(file: Seq<u8>, line: u32) -> Seq<u8> {
    seq![0x2du8, 0x62u8, 0x72u8, 0x65u8, 0x61u8, 0x6bu8, 0x2du8, 0x69u8, 0x6eu8, 0x73u8, 0x65u8, 0x72u8, 0x74u8, 0x20u8]
        + file + seq![0x3au8] + dec_digits(line as nat)
}

/// Builds `-break-insert <file>:<line>`. The file must fit on one command
/// line: a newline inside it could not be transmitted.
pub fn cmd_break_insert(file: &Vec<u8>, line: u32) -> (r: Vec<u8>)
    requires
        spec_no_newline(file@),
    ensures
        r@ == spec_cmd_break_insert(file@, line),
        r@.len() > 0 && !is_digit(r@[0]),
{
    let mut out: Vec<u8> = Vec::new();
    out.push(0x2d);
    out.push(0x62);
    out.push(0x72);
    out.push(0x65);
    out.push(0x61);
    out.push(0x6b);
    out.push(0x2d);
    out.push(0x69);
    out.push(0x6e);
    out.push(0x73);
    out.push(0x65);
    out.push(0x72);
    out.push(0x74);
    out.push(0x20);
    let mut f = crate::record::clone_bytes(file);
    out.append(&mut f);
    out.push(0x3a);
    let mut d = format_u64(line as u64);
    out.append(&mut d);
    proof {
        assert(out@ =~= spec_cmd_break_insert(file@, line));
    }
    out
}

/// The trailing ` <number>` arguments of a delete command.
pub open spec fn spec_num_args(numbers: Seq<u64>) -> Seq<u8>
    decreases numbers.len(),
{
    if numbers.len() == 0 {
        Seq::empty()
    } else {
        seq![0x20u8] + dec_digits(numbers[0] as nat) + spec_num_args(numbers.drop_first())
    }
}

/// The command `-break-delete <numbers...>`.
pub open spec fn spec_cmd_break_delete(numbers: Seq<u64>) -> Seq<u8> {
    seq![0x2du8, 0x62u8, 0x72u8, 0x65u8, 0x61u8, 0x6bu8, 0x2du8, 0x64u8, 0x65u8, 0x6cu8, 0x65u8, 0x74u8, 0x65u8]
        + spec_num_args(numbers)
}

/// Builds `-break-delete` followed by each breakpoint number.
pub fn cmd_break_delete(numbers: &Vec<u64>) -> (r: Vec<u8>)
    ensures
        r@ == spec_cmd_break_delete(numbers@),
        r@.len() > 0 && !is_digit(r@[0]),
{
    let mut out: Vec<u8> = Vec::new();
    out.push(0x2d);
    out.push(0x62);
    out.push(0x72);
    out.push(0x65);
    out.push(0x61);
    out.push(0x6b);
    out.push(0x2d);
    out.push(0x64);
    out.push(0x65);
    out.push(0x6c);
    out.push(0x65);
    out.push(0x74);
    out.push(0x65);
    write_num_args(&mut out, numbers);
    proof {
        assert(out@ =~= spec_cmd_break_delete(numbers@));
    }
    out
}

/// The decimal form of a signed offset.
pub open spec fn spec_dec_i64(v: i64) -> Seq<u8> {
    if v < 0 {
        seq![DASH] + dec_digits((-(v as int)) as nat)
    } else {
        dec_digits(v as nat)
    }
}

/// Prints a signed offset in decimal.
pub fn format_i64(v: i64) -> (r: Vec<u8>)
    ensures
        r@ == spec_dec_i64(v),
    decreases v,
{
    if v < 0 {
        let mag: u64 = if v == i64::MIN {
            9223372036854775808u64
        } else {
            (-v) as u64
        };
        proof {
            assert(mag as nat == (-(v as int)) as nat);
        }
        let mut out: Vec<u8> = Vec::new();
        out.push(DASH);
        let mut d = format_u64(mag);
        out.append(&mut d);
        proof {
            assert(out@ =~= spec_dec_i64(v));
        }
        out
    } else {
        format_u64(v as u64)
    }
}

/// The command `-data-read-memory-bytes [-o <offset>] <addr> <count>`.
pub open spec fn spec_cmd_read_memory(addr: Seq<u8>, count: u32, offset: Option<i64>) -> Seq<u8> {
    seq![0x2du8, 0x64u8, 0x61u8, 0x74u8, 0x61u8, 0x2du8, 0x72u8, 0x65u8, 0x61u8, 0x64u8, 0x2du8, 0x6du8, 0x65u8, 0x6du8, 0x6fu8, 0x72u8, 0x79u8, 0x2du8, 0x62u8, 0x79u8, 0x74u8, 0x65u8, 0x73u8]
        + (match offset {
        Some(o) => seq![0x20u8, 0x2du8, 0x6fu8, 0x20u8] + spec_dec_i64(o),
        None => Seq::<u8>::empty(),
    }) + seq![0x20u8] + addr + seq![0x20u8] + dec_digits(count as nat)
}

/// Builds a memory read for `count` bytes at `addr`, optionally shifted by
/// a signed byte offset. The address must fit on one command line.
pub fn cmd_read_memory(addr: &Vec<u8>, count: u32, offset: Option<i64>) -> (r: Vec<u8>)
    requires
        spec_no_newline(addr@),
    ensures
        r@ == spec_cmd_read_memory(addr@, count, offset),
        r@.len() > 0 && !is_digit(r@[0]),
{
    let mut out: Vec<u8> = Vec::new();
    out.push(0x2d);
    out.push(0x64);
    out.push(0x61);
    out.push(0x74);
    out.push(0x61);
    out.push(0x2d);
    out.push(0x72);
    out.push(0x65);
    out.push(0x61);
    out.push(0x64);
    out.push(0x2d);
    out.push(0x6d);
    out.push(0x65);
    out.push(0x6d);
    out.push(0x6f);
    out.push(0x72);
    out.push(0x79);
    out.push(0x2d);
    out.push(0x62);
    out.push(0x79);
    out.push(0x74);
    out.push(0x65);
    out.push(0x73);
    match offset {
        Some(o) => {
            out.push(0x20);
            out.push(0x2d);
            out.push(0x6f);
            out.push(0x20);
            let mut d = format_i64(o);
            out.append(&mut d);
        },
        None => {},
    }
    out.push(0x20);
    let mut a = crate::record::clone_bytes(addr);
    out.append(&mut a);
    out.push(0x20);
    let mut c = format_u64(count as u64);
    out.append(&mut c);
    proof {
        assert(out@ =~= spec_cmd_read_memory(addr@, count, offset));
    }
    out
}


/// The command `-stack-select-frame <level>`: list-locals with a frame
/// choice selects the frame first.
pub open spec fn spec_cmd_select_frame(level: u32) -> Seq<u8> {
    seq![0x2du8, 0x73u8, 0x74u8, 0x61u8, 0x63u8, 0x6bu8, 0x2du8, 0x73u8, 0x65u8, 0x6cu8, 0x65u8, 0x63u8, 0x74u8, 0x2du8, 0x66u8, 0x72u8, 0x61u8, 0x6du8, 0x65u8, 0x20u8]
        + dec_digits(level as nat)
}

pub fn cmd_select_frame(level: u32) -> (r: Vec<u8>)
    ensures
        r@ == spec_cmd_select_frame(level),
        r@.len() > 0 && !is_digit(r@[0]),
{
    let mut out: Vec<u8> = Vec::new();
    out.push(0x2d);
    out.push(0x73);
    out.push(0x74);
    out.push(0x61);
    out.push(0x63);
    out.push(0x6b);
    out.push(0x2d);
    out.push(0x73);
    out.push(0x65);
    out.push(0x6c);
    out.push(0x65);
    out.push(0x63);
    out.push(0x74);
    out.push(0x2d);
    out.push(0x66);
    out.push(0x72);
    out.push(0x61);
    out.push(0x6d);
    out.push(0x65);
    out.push(0x20);
    let mut d = format_u64(level as u64);
    out.append(&mut d);
    proof {
        assert(out@ =~= spec_cmd_select_frame(level));
    }
    out
}

/// The command `-data-list-register-values x <regnos...>`: an empty filter
/// asks for every register.
pub open spec fn spec_cmd_register_values_of(numbers: Seq<u64>) -> Seq<u8> {
    spec_cmd_register_values() + spec_num_args(numbers)
}

pub fn cmd_register_values_of(numbers: &Vec<u64>) -> (r: Vec<u8>)
    ensures
        r@ == spec_cmd_register_values_of(numbers@),
        r@.len() > 0 && !is_digit(r@[0]),
{
    let mut out = cmd_register_values();
    write_num_args(&mut out, numbers);
    proof {
        assert(out@ =~= spec_cmd_register_values_of(numbers@));
    }
    out
}

/// The command `-data-list-register-names <regnos...>`: an empty filter
/// asks for every name.
pub open spec fn spec_cmd_register_names_of(numbers: Seq<u64>) -> Seq<u8> {
    spec_cmd_register_names() + spec_num_args(numbers)
}

pub fn cmd_register_names_of(numbers: &Vec<u64>) -> (r: Vec<u8>)
    ensures
        r@ == spec_cmd_register_names_of(numbers@),
        r@.len() > 0 && !is_digit(r@[0]),
{
    let mut out = cmd_register_names();
    write_num_args(&mut out, numbers);
    proof {
        assert(out@ =~= spec_cmd_register_names_of(numbers@));
    }
    out
}

/// Appends ` <number>` for each entry.
fn write_num_args(out: &mut Vec<u8>, numbers: &Vec<u64>)
    ensures
        final(out)@ == old(out)@ + spec_num_args(numbers@),
{
    let ghost head = old(out)@;
    let mut i: usize = 0;
    proof {
        assert(numbers@.skip(0) =~= numbers@);
        assert(out@ + spec_num_args(numbers@.skip(0)) =~= head + spec_num_args(numbers@));
    }
    while i < numbers.len()
        invariant
            i <= numbers@.len(),
            out@ + spec_num_args(numbers@.skip(i as int)) == head + spec_num_args(numbers@),
        decreases numbers@.len() - i,
    {
        let ghost pre = out@;
        out.push(0x20);
        let mut d = format_u64(numbers[i]);
        out.append(&mut d);
        proof {
            let rest = numbers@.skip(i as int);
            assert(rest[0] == numbers@[i as int]);
            assert(rest.drop_first() =~= numbers@.skip(i + 1));
            assert(spec_num_args(rest) == seq![0x20u8] + dec_digits(numbers@[i as int] as nat)
                + spec_num_args(numbers@.skip(i + 1)));
            assert(out@ + spec_num_args(numbers@.skip(i + 1)) =~= pre + spec_num_args(rest));
        }
        i = i + 1;
    }
    proof {
        assert(numbers@.skip(numbers@.len() as int).len() == 0);
        assert(out@ + Seq::<u8>::empty() =~= out@);
    }
}

// ---------------------------------------------------------------------------
// Token framing
// ---------------------------------------------------------------------------

/// A command line frames its token unambiguously: because no command text
/// begins with a digit, scanning the line's leading digits recovers
/// exactly the token that was printed in front of the text. The result
/// record that echoes this token therefore names one command, and only
/// one.
pub proof fn lemma_token_framing(token: u64, text: Seq<u8>)
    requires
        text.len() > 0,
        !is_digit(text[0]),
    ensures
        spec_scan_digits(dec_digits(token as nat) + text + seq![NEWLINE]) == dec_digits(
            token as nat,
        ),
        digits_val(spec_scan_digits(dec_digits(token as nat) + text + seq![NEWLINE]))
            == token,
{
    let d = dec_digits(token as nat);
    let line = d + text + seq![NEWLINE];
    crate::text::lemma_dec_digits(token as nat);
    assert forall|m: int| 0 <= m < d.len() implies is_digit(#[trigger] line[m]) by {
        assert(line[m] == d[m]);
    }
    assert(line[d.len() as int] == text[0]);
    lemma_scan_digits_take(line, d.len() as int);
    assert(line.take(d.len() as int) =~= d);
}

} // verus!
