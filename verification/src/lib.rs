//! A command/output protocol for driving pluggable reasoning-engine backends
//! through a uniform textual and structured interface.
//!
//! The crate has three parts: a bidirectional command codec (text line to
//! typed command and back), an output model with a JSON codec, and a runtime
//! contract (launcher/runtime traits, a two-state lifecycle machine, and a
//! first-consumer-wins listener chain).

pub mod cmd;
pub mod conversion;
pub mod output;
pub mod term;
pub mod text;
pub mod vm;
