//! Front end of a small dynamic scripting language: a lexer that turns source
//! text into a stream of typed tokens, and the compile-time bookkeeping that a
//! single-pass bytecode compiler needs — lexical scopes, upvalue capture,
//! loop contexts, class member tables, constant pools and jump patching.
//!
//! The virtual machine that executes the emitted code, the heap objects it
//! manipulates and the host embedding are external collaborators: this crate
//! only produces values for them and never executes anything.

pub mod diag;
pub mod limits;
pub mod token;
pub mod lexer;
pub mod compiler;
pub mod signature;
