pub mod brackets;
pub mod command;
pub mod equivalence;
pub mod interpreter;
pub mod machine;
pub mod optimized_command;
pub mod optimized_compiler;
pub mod optimized_interpreter;
pub mod optimized_program;
pub mod program;
