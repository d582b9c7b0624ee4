//! The token's wire form.

pub mod schema;
