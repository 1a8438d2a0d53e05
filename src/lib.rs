//! An interpreter for a small 8-bit virtual machine: sixteen registers, 4 KiB of
//! memory, a call stack, two countdown timers, a 64x32 monochrome display and a
//! sixteen-key keypad.
pub mod instruction;
pub mod machine;
pub mod chip;
pub mod laws;
mod rng;

pub use chip::Chip;
pub use instruction::{decode, Instruction};
pub use machine::{ChipError, ExecState, StepOutcome, SCREEN_HEIGHT, SCREEN_WIDTH};
