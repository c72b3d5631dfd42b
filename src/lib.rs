//! A TeX-like text macro processor: a comment normalizer and a stack-based
//! expansion engine, both specified by state machines over character sequences.

pub mod engine;
pub mod laws;
pub mod table;
pub mod text;

pub use engine::{state_machine, Engine, Fault, Status};
pub use text::strip_comments;
