//! A verified CHIP-8 instruction-execution core.
//!
//! The core owns the 4 KiB memory, the sixteen registers, the call stack,
//! the 64x32 monochrome framebuffer, the keypad state and the two 60 Hz
//! timers. Every instruction's effect is stated as a mathematical step
//! relation and the executable machine is proved to implement it.
//! Window, audio and keyboard plumbing live outside the core.

pub mod decode;
pub mod font;
pub mod laws;
pub mod machine;
pub mod sem;

pub use machine::LoadError;
pub use machine::Machine;
pub use sem::Fault;
pub use sem::FaultKind;
