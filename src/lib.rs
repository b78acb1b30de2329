//! An interpreter for CHIP-8 bytecode: instruction decoding and execution,
//! a bit-packed monochrome display with XOR sprite drawing, a sixteen-key
//! input state, and the scheduling decisions of a fixed-rate run loop.

pub mod chip8;
pub mod cpu;
pub mod display;
pub mod input;
pub mod opcode;
