//! Interpretation, tracing and constant folding for a small block-structured
//! SSA intermediate representation.
//!
//! The crate is organised leaves first: the model of the representation
//! ([`ir`]) and the scalar values it computes on ([`data_value`]); the
//! interpreter ([`interpreter`]) with its frames ([`frame`]), its
//! environment ([`environment`]) and the meaning of its steps
//! ([`machine`]); the trace recorder ([`trace`]), the reconstruction of a
//! trace into a function ([`reconstruct`]), what the reconstructed function
//! computes ([`simulation`], [`recorded_run`]) and the store of compiled traces
//! ([`trace_store`]); and the folding of constants ([`constant_folding`])
//! over its lattice ([`lattice`]). Around them stand the run commands of
//! test files ([`run_command`], [`file_interpreter`], [`test_run`]), what a
//! native runner must check ([`function_runner`]), and the buffers of a
//! WebAssembly guest ([`parallel`]).
pub mod constant_folding;
pub mod data_value;
pub mod environment;
pub mod file_interpreter;
pub mod frame;
pub mod function_runner;
pub mod interpreter;
pub mod ir;
pub mod lattice;
pub mod machine;
pub mod parallel;
pub mod reconstruct;
pub mod recorded_run;
pub mod run_command;
pub mod simulation;
pub mod test_run;
pub mod text;
pub mod trace;
pub mod trace_store;
pub mod trap;
pub mod util;
