//! An interpreter for a small line-addressed language whose programs run as a
//! population of cooperative threads, each with one unbounded register.
//!
//! [`parse`] turns program text into a [`Code`]; a [`Machine`] runs it tick by
//! tick, and [`interpret`] runs it from start to end.

pub mod error;
pub mod instruction;
pub mod laws;
pub mod machine;
pub mod natural;
pub mod parser;
pub mod text;

pub use crate::error::Error;
pub use crate::instruction::{Code, Instruction};
pub use crate::machine::{interpret, Machine, Status, Thread};
pub use crate::parser::parse;
