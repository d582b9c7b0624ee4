//! The symbol table: the names that facts and policies mention, each with
//! a number that stands for it on the wire.
//!
//! A name's number is its place in the table. Names are only ever added at
//! the end, so a number, once given, keeps its meaning.

use vstd::prelude::*;
use crate::crypto::KeyView;
use crate::error::Format;
use crate::interning::{all_new, extends, interned, is_first_index, lemma_push_new};
use crate::token::public_keys::PublicKeys;

verus! {

/// A name, as the characters it is made of.
pub type Name = Seq<char>;

/// The names of a list of strings.
pub open spec fn names_of(strings: Seq<String>) -> Seq<Name> {
    Seq::new(strings.len(), |i: int| strings[i]@)
}

/// Whether `symbols` are the numbers of `names` in `table`.
pub open spec fn are_symbols_of(table: Seq<Name>, names: Seq<Name>, symbols: Seq<u64>) -> bool {
    &&& symbols.len() == names.len()
    &&& forall|k: int|
        0 <= k < names.len() ==> is_first_index(table, #[trigger] names[k], symbols[k] as int)
}

/// Whether every number stands for a symbol of the table.
pub open spec fn all_known(table: Seq<Name>, symbols: Seq<u64>) -> bool {
    forall|k: int| 0 <= k < symbols.len() ==> (#[trigger] symbols[k]) < table.len()
}

/// The names that the numbers stand for.
pub open spec fn resolved(table: Seq<Name>, symbols: Seq<u64>) -> Seq<Name> {
    Seq::new(symbols.len(), |k: int| table[symbols[k] as int])
}

/// Whether `k` is the place of the first number that stands for no symbol.
pub open spec fn is_first_unknown(table: Seq<Name>, symbols: Seq<u64>, k: int) -> bool {
    &&& 0 <= k < symbols.len()
    &&& symbols[k] >= table.len()
    &&& forall|j: int| 0 <= j < k ==> (#[trigger] symbols[j]) < table.len()
}

/// What a symbol table is: its names and its public keys.
pub struct SymbolTableView {
    pub symbols: Seq<Name>,
    pub public_keys: Seq<KeyView>,
}

/// The names known in one symbol space, and the public keys known in it.
#[derive(Clone, Debug)]
pub struct SymbolTable {
    pub symbols: Vec<String>,
    pub public_keys: PublicKeys,
}

impl View for SymbolTable {
    type V = SymbolTableView;

    open spec fn view(&self) -> SymbolTableView {
        SymbolTableView { symbols: names_of(self.symbols@), public_keys: self.public_keys@ }
    }
}

impl SymbolTable {
    /// Whether no name stands twice. The tables that this crate builds are
    /// valid, and its functions keep them so.
    pub open spec fn valid(&self) -> bool {
        self@.symbols.no_duplicates()
    }

    /// An empty table.
    pub fn new() -> (res: Self)
        ensures
            res@.symbols == Seq::<Name>::empty(),
            res@.public_keys == Seq::<KeyView>::empty(),
            res.valid(),
    {
        let res = SymbolTable { symbols: Vec::new(), public_keys: PublicKeys::new() };
        assert(res@.symbols =~= Seq::<Name>::empty());
        res
    }

    /// The number of `s`, which is added at the end if the table does not
    /// hold it yet.
    pub fn insert(&mut self, s: &String) -> (res: u64)
        ensures
            final(self)@.symbols == interned(old(self)@.symbols, s@),
            is_first_index(final(self)@.symbols, s@, res as int),
            final(self).public_keys == old(self).public_keys,
            old(self).valid() ==> final(self).valid(),
    {
        match self.get(s) {
            Some(index) => index,
            None => {
                let ghost before = self@.symbols;
                self.symbols.push(s.clone());
                proof {
                    assert(self@.symbols =~= before.push(s@));
                    lemma_push_new(before, s@);
                }
                (self.symbols.len() - 1) as u64
            },
        }
    }

    /// The number of `s`, if the table holds it.
    pub fn get(&self, s: &String) -> (res: Option<u64>)
        ensures
            match res {
                Some(i) => is_first_index(self@.symbols, s@, i as int),
                None => !self@.symbols.contains(s@),
            },
    {
        let mut i: usize = 0;
        while i < self.symbols.len()
            invariant
                i <= self.symbols@.len(),
                forall|j: int| 0 <= j < i ==> self@.symbols[j] != s@,
            decreases self.symbols@.len() - i,
        {
            if self.symbols[i] == *s {
                return Some(i as u64);
            }
            i += 1;
        }
        None
    }

    /// The symbol with number `i`, if the table has one.
    pub fn get_symbol(&self, i: u64) -> (res: Option<&String>)
        ensures
            i < self@.symbols.len() ==> (res matches Some(s) && s@ == self@.symbols[i as int]),
            i >= self@.symbols.len() ==> res is None,
    {
        if i < self.symbols.len() as u64 {
            Some(&self.symbols[i as usize])
        } else {
            None
        }
    }

    /// The number that the next new symbol will get: the length of the table.
    pub fn current_offset(&self) -> (res: usize)
        ensures
            res == self@.symbols.len(),
    {
        self.symbols.len()
    }

    /// The symbols of the table, in order.
    pub fn strings(&self) -> (res: Vec<String>)
        ensures
            names_of(res@) == self@.symbols,
    {
        let mut out: Vec<String> = Vec::new();
        let mut i: usize = 0;
        while i < self.symbols.len()
            invariant
                i <= self.symbols@.len(),
                names_of(out@) == self@.symbols.take(i as int),
            decreases self.symbols@.len() - i,
        {
            let ghost before = names_of(out@);
            let symbol = self.symbols[i].clone();
            assert(symbol@ == self@.symbols[i as int]);
            out.push(symbol);
            assert(names_of(out@) =~= before.push(self@.symbols[i as int]));
            i += 1;
            assert(self@.symbols.take(i as int) =~= self@.symbols.take(i - 1).push(
                self@.symbols[i - 1],
            ));
        }
        assert(self@.symbols.take(self@.symbols.len() as int) =~= self@.symbols);
        out
    }

    /// Cuts the symbols in two at `offset`: the table keeps the symbols
    /// before it, and the symbols from it on are handed back in their order.
    /// The public keys stay with the table.
    pub fn split_at(&mut self, offset: usize) -> (res: Vec<String>)
        requires
            offset <= old(self)@.symbols.len(),
        ensures
            final(self)@.symbols == old(self)@.symbols.take(offset as int),
            names_of(res@) == old(self)@.symbols.skip(offset as int),
            final(self).public_keys == old(self).public_keys,
            old(self).valid() ==> final(self).valid(),
    {
        let tail = self.symbols.split_off(offset);
        assert(self@.symbols =~= old(self)@.symbols.take(offset as int));
        assert(names_of(tail@) =~= old(self)@.symbols.skip(offset as int));
        tail
    }

    /// Whether none of `names` is a symbol of the table.
    pub fn is_disjoint(&self, names: &Vec<String>) -> (res: bool)
        ensures
            res == (forall|k: int|
                0 <= k < names@.len() ==> !self@.symbols.contains(#[trigger] names_of(names@)[k])),
    {
        let mut i: usize = 0;
        while i < names.len()
            invariant
                i <= names@.len(),
                forall|k: int|
                    0 <= k < i ==> !self@.symbols.contains(#[trigger] names_of(names@)[k]),
            decreases names@.len() - i,
        {
            if self.get(&names[i]).is_some() {
                assert(self@.symbols.contains(names_of(names@)[i as int]));
                return false;
            }
            i += 1;
        }
        true
    }

    /// Appends `names`, which must be new to the table and differ from each
    /// other; where they are not, the table is left as it is.
    pub fn extend(&mut self, names: &Vec<String>) -> (res: Result<(), Format>)
        ensures
            res is Ok <==> all_new(old(self)@.symbols, names_of(names@)),
            res is Ok ==> final(self)@.symbols == old(self)@.symbols + names_of(names@),
            res matches Err(e) ==> e == Format::SymbolTableOverlap && *final(self) == *old(self),
            final(self).public_keys == old(self).public_keys,
            old(self).valid() ==> final(self).valid(),
    {
        let ghost before = self@.symbols;
        let ghost added = names_of(names@);
        let mut copy = self.clone_table();
        let mut i: usize = 0;
        while i < names.len()
            invariant
                i <= names@.len(),
                added == names_of(names@),
                before == self@.symbols,
                copy@.symbols == before + added.take(i as int),
                self.valid() ==> copy.valid(),
                forall|k: int|
                    0 <= k < i ==> !(before + added.take(k)).contains(#[trigger] added[k]),
            decreases names@.len() - i,
        {
            let ghost current = copy@.symbols;
            if copy.get(&names[i]).is_some() {
                assert((before + added.take(i as int)).contains(added[i as int]));
                return Err(Format::SymbolTableOverlap);
            }
            let name = names[i].clone();
            assert(name@ == added[i as int]);
            copy.symbols.push(name);
            i += 1;
            proof {
                assert(added.take(i as int) =~= added.take(i - 1).push(added[i - 1]));
                assert(copy@.symbols =~= current.push(added[i - 1]));
                lemma_push_new(current, added[i - 1]);
            }
        }
        assert(added.take(added.len() as int) =~= added);
        self.symbols = copy.symbols;
        Ok(())
    }

    /// A copy of the table.
    pub fn clone_table(&self) -> (res: Self)
        ensures
            res@ == self@,
    {
        let symbols = self.strings();
        let mut public_keys = PublicKeys::new();
        public_keys.extend(&self.public_keys);
        assert(public_keys@ =~= self.public_keys@);
        SymbolTable { symbols, public_keys }
    }
}

/// The numbers of names resolve to those names, in the table they are the
/// numbers of and in every table that begins with it.
pub proof fn lemma_resolve_symbols(table: Seq<Name>, longer: Seq<Name>, names: Seq<Name>, symbols: Seq<u64>)
    requires
        are_symbols_of(table, names, symbols),
        extends(longer, table),
    ensures
        all_known(longer, symbols),
        resolved(longer, symbols) == names,
{
    assert forall|k: int| 0 <= k < symbols.len() implies (#[trigger] symbols[k]) < longer.len() by {
        assert(is_first_index(table, names[k], symbols[k] as int));
    }
    assert(resolved(longer, symbols) =~= names) by {
        assert forall|k: int| 0 <= k < names.len() implies resolved(longer, symbols)[k]
            == names[k] by {
            assert(is_first_index(table, names[k], symbols[k] as int));
        }
    }
}

} // verus!
