//! A CHIP-8 virtual machine: memory, registers, timers, keypad and a
//! monochrome frame buffer, with each instruction's effect proved against a
//! mathematical model of the machine.
pub mod chip8;
pub mod laws;
pub mod model;

pub use chip8::Chip8;
pub use model::{DISPLAY_HEIGHT, DISPLAY_WIDTH, PIXEL_ON, VIDEO_SIZE};
