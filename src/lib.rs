//! A CHIP-8 interpreter whose instructions are proved against a mathematical
//! model of the machine.
pub mod semantics;
pub mod chip8;
mod instructions;
pub mod laws;

pub use chip8::Chip8;
pub use semantics::Chip8Error;
