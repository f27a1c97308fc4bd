//! What runs a compiled program: its executable tables, the job scheduler
//! and the virtual machine.

pub mod bytecode;
pub mod composition;
pub mod machine;
pub mod multithreading;
pub mod progress;
pub mod virtual_machine;
