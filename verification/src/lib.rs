//! A compiler for a tiny line-oriented pseudocode language.
//!
//! A source file holds a header line (`hihi!`), a block of quoted string
//! statements, and a terminator line (`eat that java!`).  Each statement may
//! reference positional arguments with a marker character followed by a
//! 1-based index.  The compiler parses the source, resolves placeholders,
//! and renders the full text of a standalone program that forwards the
//! pseudocode to a remote chat-completion endpoint, optionally embedding a
//! reversibly masked credential.  The masking is plain XOR with a
//! time-seeded keystream: it is obfuscation, not a security boundary.

pub mod errors;
pub mod escape;
pub mod generate;
pub mod obfuscate;
pub mod parser;
pub mod placeholder;
pub mod text;
