pub mod display;
pub mod machine;
pub mod instruction;
pub mod opcode;
pub mod scheduler;
