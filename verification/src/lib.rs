//! A CHIP-8 virtual machine core: a 16-register 8-bit CPU over a 4KB
//! address space, a 64x32 one-bit framebuffer with XOR sprite compositing
//! and per-pixel wraparound, a 16-key hex pad, and two countdown timers.
//!
//! Each instruction step is specified as a function over a mathematical
//! machine state and the executable interpreter is proved to follow it,
//! including the edge cases: wrapping arithmetic, carry and borrow flags,
//! draw collisions, call-stack discipline, and the fatal errors a bad
//! program can surface. An external driver chooses the instruction and
//! timer cadences, feeds key events, and renders the framebuffer.

pub mod bus;
pub mod cpu;
pub mod display;
pub mod keypad;
pub mod memory;
pub mod vm;
