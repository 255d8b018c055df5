//! A single-assignment dataflow machine: write-once variables in a shared
//! store, lexical environments, and a cooperative scheduler over logical
//! threads that block on variables nobody has bound yet.

pub mod error;
pub mod identifier;
pub mod variable;
pub mod environment;
pub mod instruction;
pub mod semantics;
pub mod thread;
pub mod machine;
pub mod progress;
pub mod vm;
pub mod single_assignment_memory;
