//! Instruction-set core of a Virtual Boy emulator: the opcode decoder, the
//! address bus over the program image, and the NVC processor model.

pub mod instruction;
pub mod rom;
pub mod interconnect;
pub mod nvc;
pub mod avb;
pub mod command;
