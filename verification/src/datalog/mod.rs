//! What the token layer shares with the Datalog layer: provenance and the
//! symbol table.

pub mod origin;
pub mod symbol;
