//! A small byte-code console: a verified fetch-decode-execute core with a
//! 35-instruction set, a 4 KiB memory image, sixteen byte registers, a call
//! stack, two timers, a keypad wait state and a monochrome XOR framebuffer.

pub mod cpu;
pub mod rom;
pub mod utils;
