//! A verified interpreter for the classic eight-instruction tape language:
//! a parser, a bracket-matching jump table, a sparse byte tape, and a
//! program-counter driven executor with loop semantics and 8-bit
//! wraparound arithmetic.

pub mod context;
pub mod errors;
pub mod executor;
pub mod fizzbuzz;
pub mod instruction;
pub mod jump_table;
pub mod semantics;
pub mod tape;
