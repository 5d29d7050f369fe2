//! Core of a register-based virtual machine: a bounded bytecode container
//! (code segment plus content-deduplicated data segment), the bit- and
//! byte-granular cursor that reads and writes it, and the fetch-decode-execute
//! loop that interprets it.

pub mod cursor;
pub mod isa;
pub mod library;

use vstd::prelude::*;

verus! {

/// Largest admissible code-segment length in bytes.
pub const CODE_SEGMENT_MAX_LEN: usize = 65536;

/// Largest admissible data-segment length in bytes.
pub const DATA_SEGMENT_MAX_LEN: usize = 16777216;

} // verus!
