//! A verified CHIP-8 virtual machine.
//!
//! The machine owns 4096 bytes of memory, sixteen 8-bit registers, an index
//! register, a program counter, a 16-slot call stack, two timers, a 64x32
//! monochrome framebuffer and the 16-key input state.  Every instruction's
//! effect is stated against a mathematical model of that state and proved.

pub mod surface;
pub mod machine;
pub mod laws;
