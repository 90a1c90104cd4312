//! Test expressions of a mail-filtering language.
//!
//! - `leaf`: the leaf tests and their negation.
//! - `compiler`: flattens `allof` / `anyof` / `not` groups into a stream of
//!   tests and conditional jumps, with every jump patched but the trailing
//!   one that the caller owns.
//! - `matching` and `bytes`: evaluate one leaf test against a message.
//! - `run`: runs a compiled chain, short-circuiting as the jumps say.
//! - `laws`: properties that relate these functions.
pub mod bytes;
pub mod compiler;
pub mod laws;
pub mod leaf;
pub mod matching;
pub mod run;
