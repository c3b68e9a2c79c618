//! The integer machine: its tape, its instruction decoder and its engine.

pub mod fault;
pub mod interpreter;
pub mod memory;
pub mod parser;
pub mod roundtrip;
pub mod text;

pub use crate::intcode::fault::Fault;
pub use crate::intcode::interpreter::Interpreter;
pub use crate::intcode::interpreter::Signal;
pub use crate::intcode::memory::MemoryManager;
pub use crate::intcode::memory::MutableMemoryManager;
pub use crate::intcode::memory::ReadOnlyMemoryManager;
pub use crate::intcode::parser::Op;
pub use crate::intcode::parser::Param;
pub use crate::intcode::parser::Parser;
pub use crate::intcode::text::parse_bytecode_string;
pub use crate::intcode::text::Supplied;
