//! The intermediate representation: entities, instructions, the data-flow
//! graph, the layout and functions.
pub mod dfg;
pub mod entities;
pub mod function;
pub mod instructions;
pub mod layout;
pub mod types;
