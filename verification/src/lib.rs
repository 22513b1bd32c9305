pub mod cpu;
pub mod display;
pub mod instr;
pub mod keyboard;
pub mod laws;
pub mod semantics;
