//! An assembler for the Hack 16-bit computer: it turns assembly text into the
//! machine's binary instructions, one line of sixteen `0`/`1` characters per
//! instruction.
//!
//! * [`parser`] scans the source text line by line and splits an instruction
//!   into its fields.
//! * [`code`] maps the mnemonics of a compute instruction to their bit fields.
//! * [`hackasm`] drives both, keeps the symbol table and resolves labels and
//!   variables.
//! * [`text`] holds the small string helpers the other modules share.
//! * [`proofs`] states and proves what holds of the output.

pub mod code;
pub mod hackasm;
pub mod parser;
pub mod proofs;
pub mod text;
