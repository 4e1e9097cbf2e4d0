//! An execution engine for a two-dimensional, stack-based language in the
//! Befunge family: a growable grid of bytes, a cursor that walks it in one of
//! four directions, a byte stack, and the dispatcher that gives each cell its
//! meaning.

pub mod area;
pub mod dir;
pub mod interpreter;
pub mod laws;
pub mod machine;
pub mod op;
pub mod source;
pub mod stack;
pub mod text;

pub use area::{Area, Plane};
pub use dir::{mv_cur, Dir};
pub use interpreter::{Action, Interpreter, Outcome};
pub use machine::{Effect, Machine, Run};
pub use op::Op;
