//! Tokens: the key table, third-party blocks and the authorizer.

pub mod authorizer;
pub mod block;
pub mod public_keys;
pub mod third_party;

use vstd::prelude::*;
use crate::crypto::KeyView;
use crate::datalog::symbol::{Name, SymbolTable};

verus! {

/// The lowest schema version that this crate reads.
pub const MIN_SCHEMA_VERSION: u32 = 3;

/// The highest schema version that this crate reads, and the one it writes.
pub const MAX_SCHEMA_VERSION: u32 = 4;

/// The table that every symbol space starts from. Each call gives a fresh
/// table, which its owner grows on its own.
pub fn default_symbol_table() -> (res: SymbolTable)
    ensures
        res@.symbols == Seq::<Name>::empty(),
        res@.public_keys == Seq::<KeyView>::empty(),
        res.valid(),
{
    SymbolTable::new()
}

} // verus!
