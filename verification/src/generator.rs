//! Whole-program translation in one call: bootstrap plus every command,
//! serialized as text.

use vstd::prelude::*;

verus! {

use crate::code_writer::CodeWriter;
use crate::command::{cmds_view, Command};
use crate::emit::{boot_state, gen_seq};
use crate::instr::text_of;

/// Translates a whole program: the bootstrap, then the merged command
/// sequence in order, as newline-terminated assembly text.
pub fn code(commands: Vec<Command>) -> (r: String)
    ensures
        r@ == text_of(gen_seq(boot_state(), cmds_view(commands@)).out),
{
    let mut writer = CodeWriter::new();
    writer.write_code(commands);
    writer.to_text()
}

} // verus!
