//! An interpreter for a small language of Turing machines over the
//! alphabet `0`, `1` and blank: a parser from program text to a transition
//! table, and an engine that runs a program on a tape that grows on demand.

use vstd::prelude::*;

pub mod error;
pub mod machine;
pub mod program;
pub mod tape;
mod text;

pub use error::{ExecutionError, InvalidProgram};
pub use machine::TuringMachine;
pub use program::{Move, Program, State, Transition};
pub use tape::{Band, Segment, Tape, VecDequeTape, VecTape};

verus! {

} // verus!
