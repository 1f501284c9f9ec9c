//! Proving-server support library: the transpiler that turns verifier
//! assembly into a Solidity contract over named buffers, and the small
//! helpers the HTTP endpoints use.
pub mod text;
pub mod numeral;
pub mod rules;
pub mod rewrite;
pub mod transpile;
pub mod laws;
pub mod server;

pub use rewrite::{Buffer, max_pub_inputs_addr, resolve_calldata};
pub use server::{concat_arrays, hello, index};
pub use text::split_lines;
pub use transpile::{
    TranspileError, buffer_word_count, count_pub_inputs, find_boundary, fix_verifier_sol,
    rewrite_line,
};
