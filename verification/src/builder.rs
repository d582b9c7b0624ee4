//! Facts, policies and blocks as their author writes them: with the names
//! they mention spelled out.
//!
//! The Datalog layer owns what a fact or a policy means. This crate needs
//! to know of one only the names that it mentions, in order, because those
//! are what changes when it moves from one symbol space to another; the
//! rest of it is carried along unread.

use vstd::prelude::*;
use vstd::slice::slice_to_vec;
use crate::datalog::symbol::{
    all_known, are_symbols_of, is_first_unknown, names_of, resolved, Name, SymbolTable,
};
use crate::interning::{
    extends, interned_all, is_first_index, lemma_index_is_stable, lemma_interned_all_concat,
    lemma_interned_all_extends, lemma_interned_extends,
};
use crate::crypto::KeyView;
use crate::error::Format;
use crate::format::schema;
use crate::token::block::Block;

verus! {

/// What a fact or a policy is to this crate: the names it mentions and the
/// rest of it.
pub struct ItemView {
    pub names: Seq<Name>,
    pub body: Seq<u8>,
}

/// What a fact or a policy is on the wire: the numbers of the symbols it
/// mentions and the rest of it.
pub struct WireView {
    pub symbols: Seq<u64>,
    pub body: Seq<u8>,
}

/// Whether `wire` is `item` written in the symbol space of `table`.
pub open spec fn is_wire_of(table: Seq<Name>, item: ItemView, wire: WireView) -> bool {
    &&& are_symbols_of(table, item.names, wire.symbols)
    &&& wire.body == item.body
}

/// What `wire` says in the symbol space of `table`.
pub open spec fn read_wire(table: Seq<Name>, wire: WireView) -> ItemView {
    ItemView { names: resolved(table, wire.symbols), body: wire.body }
}

/// All the names that the items mention, in order.
pub open spec fn all_names(items: Seq<ItemView>) -> Seq<Name>
    decreases items.len(),
{
    if items.len() == 0 {
        Seq::<Name>::empty()
    } else {
        all_names(items.drop_last()) + items.last().names
    }
}

/// Whether `wires` are `items` written in the symbol space of `table`.
pub open spec fn are_wires_of(table: Seq<Name>, items: Seq<ItemView>, wires: Seq<WireView>) -> bool {
    &&& wires.len() == items.len()
    &&& forall|k: int| 0 <= k < items.len() ==> is_wire_of(table, #[trigger] items[k], wires[k])
}

/// Whether every symbol number of every item stands for a symbol.
pub open spec fn all_wires_known(table: Seq<Name>, wires: Seq<WireView>) -> bool {
    forall|k: int| 0 <= k < wires.len() ==> all_known(table, (#[trigger] wires[k]).symbols)
}

/// What `wires` say in the symbol space of `table`.
pub open spec fn read_wires(table: Seq<Name>, wires: Seq<WireView>) -> Seq<ItemView> {
    Seq::new(wires.len(), |k: int| read_wire(table, wires[k]))
}

/// Whether `id` is the first symbol number, going through the items in
/// order, that stands for no symbol.
pub open spec fn is_first_unknown_of(table: Seq<Name>, wires: Seq<WireView>, id: u64) -> bool {
    exists|k: int, at: int|
        #![trigger is_first_unknown(table, wires[k].symbols, at)]
        0 <= k < wires.len() && all_wires_known(table, wires.take(k)) && is_first_unknown(
            table,
            wires[k].symbols,
            at,
        ) && wires[k].symbols[at] == id
}

/// Whether `e` is the error of the first symbol number, going through the
/// items in order, that stands for no symbol.
pub open spec fn is_unknown_symbol_error(table: Seq<Name>, wires: Seq<WireView>, e: Format) -> bool {
    exists|id: u64|
        #![trigger is_first_unknown_of(table, wires, id)]
        e == Format::UnknownSymbol(id) && is_first_unknown_of(table, wires, id)
}

/// Gives each name its number in the table, adding the names that the
/// table does not hold yet.
pub fn intern_names(names: &Vec<String>, symbols: &mut SymbolTable) -> (res: Vec<u64>)
    ensures
        final(symbols)@.symbols == interned_all(old(symbols)@.symbols, names_of(names@)),
        are_symbols_of(final(symbols)@.symbols, names_of(names@), res@),
        final(symbols).public_keys == old(symbols).public_keys,
        old(symbols).valid() ==> final(symbols).valid(),
{
    let ghost all = names_of(names@);
    let mut out: Vec<u64> = Vec::new();
    let mut i: usize = 0;
    assert(all.take(0) =~= Seq::<Name>::empty());
    while i < names.len()
        invariant
            i <= names@.len(),
            all == names_of(names@),
            symbols@.symbols == interned_all(old(symbols)@.symbols, all.take(i as int)),
            are_symbols_of(symbols@.symbols, all.take(i as int), out@),
            symbols.public_keys == old(symbols).public_keys,
            old(symbols).valid() ==> symbols.valid(),
        decreases names@.len() - i,
    {
        let ghost before = symbols@.symbols;
        let ghost ids = out@;
        let id = symbols.insert(&names[i]);
        out.push(id);
        i += 1;
        proof {
            let taken = all.take(i as int);
            assert(taken.drop_last() =~= all.take(i - 1));
            assert(taken.last() == all[i - 1]);
            lemma_interned_extends(before, all[i - 1]);
            assert forall|k: int| 0 <= k < taken.len() implies is_symbol_index_at(
                symbols@.symbols,
                #[trigger] taken[k],
                out@[k],
            ) by {
                if k < i - 1 {
                    assert(all.take(i - 1)[k] == taken[k]);
                    lemma_index_is_stable(before, symbols@.symbols, taken[k], ids[k] as int);
                }
            }
        }
    }
    assert(all.take(all.len() as int) =~= all);
    out
}

/// Whether `id` is the number of `name` in `table`.
pub open spec fn is_symbol_index_at(table: Seq<Name>, name: Name, id: u64) -> bool {
    is_first_index(table, name, id as int)
}

/// Reads the names that the numbers stand for. The first number that
/// stands for no symbol of the table is an error.
pub fn resolve_symbols(ids: &Vec<u64>, symbols: &SymbolTable) -> (res: Result<Vec<String>, Format>)
    ensures
        res is Ok <==> all_known(symbols@.symbols, ids@),
        res matches Ok(names) ==> names_of(names@) == resolved(symbols@.symbols, ids@),
        res matches Err(e) ==> exists|k: int|
            #![trigger is_first_unknown(symbols@.symbols, ids@, k)]
            is_first_unknown(symbols@.symbols, ids@, k) && e == Format::UnknownSymbol(ids@[k]),
{
    let ghost table = symbols@.symbols;
    let mut out: Vec<String> = Vec::new();
    let mut i: usize = 0;
    while i < ids.len()
        invariant
            i <= ids@.len(),
            table == symbols@.symbols,
            all_known(table, ids@.take(i as int)),
            names_of(out@) == resolved(table, ids@.take(i as int)),
        decreases ids@.len() - i,
    {
        let ghost before = names_of(out@);
        match symbols.get_symbol(ids[i]) {
            Some(name) => {
                let name = name.clone();
                out.push(name);
                assert(names_of(out@) =~= before.push(table[ids@[i as int] as int]));
            },
            None => {
                proof {
                    assert forall|j: int| 0 <= j < i implies (#[trigger] ids@[j]) < table.len() by {
                        assert(ids@.take(i as int)[j] == ids@[j]);
                    }
                    assert(is_first_unknown(table, ids@, i as int));
                }
                return Err(Format::UnknownSymbol(ids[i]));
            },
        }
        i += 1;
        proof {
            let taken = ids@.take(i as int);
            assert forall|k: int| 0 <= k < taken.len() implies (#[trigger] taken[k]) < table.len() by {
                if k < i - 1 {
                    assert(ids@.take(i - 1)[k] == taken[k]);
                }
            }
            assert(names_of(out@) =~= resolved(table, taken)) by {
                assert forall|k: int| 0 <= k < taken.len() implies names_of(out@)[k] == resolved(
                    table,
                    taken,
                )[k] by {
                    if k < i - 1 {
                        assert(resolved(table, ids@.take(i - 1))[k] == table[ids@.take(i - 1)[k] as int]);
                    }
                }
            }
        }
    }
    assert(ids@.take(ids@.len() as int) =~= ids@);
    Ok(out)
}

/// Something written in a symbol space reads the same in every symbol
/// space that begins with it.
pub proof fn lemma_wire_is_stable(table: Seq<Name>, longer: Seq<Name>, item: ItemView, wire: WireView)
    requires
        is_wire_of(table, item, wire),
        extends(longer, table),
    ensures
        is_wire_of(longer, item, wire),
        all_known(longer, wire.symbols),
        read_wire(longer, wire) == item,
{
    assert forall|k: int| 0 <= k < item.names.len() implies is_symbol_index_at(
        longer,
        #[trigger] item.names[k],
        wire.symbols[k],
    ) by {
        lemma_index_is_stable(table, longer, item.names[k], wire.symbols[k] as int);
    }
    crate::datalog::symbol::lemma_resolve_symbols(table, longer, item.names, wire.symbols);
}

/// A fact as its author wrote it.
#[derive(Debug)]
pub struct Fact {
    pub names: Vec<String>,
    pub body: Vec<u8>,
}

impl View for Fact {
    type V = ItemView;

    open spec fn view(&self) -> ItemView {
        ItemView { names: names_of(self.names@), body: self.body@ }
    }
}

impl View for schema::Fact {
    type V = WireView;

    open spec fn view(&self) -> WireView {
        WireView { symbols: self.symbols@, body: self.body@ }
    }
}

impl Clone for Fact {
    fn clone(&self) -> (res: Self)
        ensures
            res@ == self@,
    {
        let mut names: Vec<String> = Vec::new();
        let mut i: usize = 0;
        while i < self.names.len()
            invariant
                i <= self.names@.len(),
                names_of(names@) == names_of(self.names@).take(i as int),
            decreases self.names@.len() - i,
        {
            let ghost before = names_of(names@);
            let name = self.names[i].clone();
            names.push(name);
            assert(names_of(names@) =~= before.push(names_of(self.names@)[i as int]));
            i += 1;
            assert(names_of(self.names@).take(i as int) =~= names_of(self.names@).take(i - 1).push(
                names_of(self.names@)[i - 1],
            ));
        }
        assert(names_of(self.names@).take(self.names@.len() as int) =~= names_of(self.names@));
        Fact { names, body: slice_to_vec(self.body.as_slice()) }
    }
}

impl Fact {
    /// Writes the fact in a symbol space, adding the names that the table
    /// does not hold yet.
    pub fn convert(&self, symbols: &mut SymbolTable) -> (res: schema::Fact)
        ensures
            final(symbols)@.symbols == interned_all(old(symbols)@.symbols, self@.names),
            is_wire_of(final(symbols)@.symbols, self@, res@),
            final(symbols).public_keys == old(symbols).public_keys,
            old(symbols).valid() ==> final(symbols).valid(),
    {
        let ids = intern_names(&self.names, symbols);
        schema::Fact { symbols: ids, body: slice_to_vec(self.body.as_slice()) }
    }

    /// Reads a fact that was written in a symbol space.
    pub fn convert_from(f: &schema::Fact, symbols: &SymbolTable) -> (res: Result<Self, Format>)
        ensures
            res is Ok <==> all_known(symbols@.symbols, f@.symbols),
            res matches Ok(item) ==> item@ == read_wire(symbols@.symbols, f@),
            res matches Err(e) ==> exists|k: int|
                #![trigger is_first_unknown(symbols@.symbols, f@.symbols, k)]
                is_first_unknown(symbols@.symbols, f@.symbols, k) && e == Format::UnknownSymbol(
                    f@.symbols[k],
                ),
    {
        match resolve_symbols(&f.symbols, symbols) {
            Ok(names) => Ok(Fact { names, body: slice_to_vec(f.body.as_slice()) }),
            Err(e) => Err(e),
        }
    }

    /// Whether two facts mention the same names and have the same rest.
    pub fn same(&self, other: &Self) -> (res: bool)
        ensures
            res == (self@ == other@),
    {
        if self.names.len() != other.names.len() {
            assert(self@.names.len() != other@.names.len());
            return false;
        }
        let mut i: usize = 0;
        while i < self.names.len()
            invariant
                i <= self.names@.len(),
                self.names@.len() == other.names@.len(),
                forall|j: int| 0 <= j < i ==> self@.names[j] == other@.names[j],
            decreases self.names@.len() - i,
        {
            if self.names[i] != other.names[i] {
                assert(self@.names[i as int] != other@.names[i as int]);
                return false;
            }
            i += 1;
        }
        assert(self@.names =~= other@.names);
        crate::crypto::bytes_equal(self.body.as_slice(), other.body.as_slice())
    }
}

/// The views of a list of facts.
pub open spec fn fact_views(items: Seq<Fact>) -> Seq<ItemView> {
    Seq::new(items.len(), |i: int| items[i]@)
}

/// The views of a list of facts on the wire.
pub open spec fn wire_fact_views(items: Seq<schema::Fact>) -> Seq<WireView> {
    Seq::new(items.len(), |i: int| items[i]@)
}

/// Writes the facts in a symbol space, in order, adding the names that the
/// table does not hold yet.
pub fn facts_to_wire(items: &Vec<Fact>, symbols: &mut SymbolTable) -> (res: Vec<schema::Fact>)
    ensures
        final(symbols)@.symbols == interned_all(
            old(symbols)@.symbols,
            all_names(fact_views(items@)),
        ),
        are_wires_of(final(symbols)@.symbols, fact_views(items@), wire_fact_views(res@)),
        final(symbols).public_keys == old(symbols).public_keys,
        old(symbols).valid() ==> final(symbols).valid(),
{
    let ghost views = fact_views(items@);
    let mut out: Vec<schema::Fact> = Vec::new();
    let mut i: usize = 0;
    assert(views.take(0) =~= Seq::<ItemView>::empty());
    while i < items.len()
        invariant
            i <= items@.len(),
            views == fact_views(items@),
            symbols@.symbols == interned_all(old(symbols)@.symbols, all_names(views.take(i as int))),
            are_wires_of(symbols@.symbols, views.take(i as int), wire_fact_views(out@)),
            symbols.public_keys == old(symbols).public_keys,
            old(symbols).valid() ==> symbols.valid(),
        decreases items@.len() - i,
    {
        let ghost before = symbols@.symbols;
        let ghost wires = wire_fact_views(out@);
        let wire = items[i].convert(symbols);
        let ghost wire_view = wire@;
        out.push(wire);
        i += 1;
        proof {
            let taken = views.take(i as int);
            assert(taken.drop_last() =~= views.take(i - 1));
            assert(taken.last() == views[i - 1]);
            lemma_interned_all_concat(
                old(symbols)@.symbols,
                all_names(views.take(i - 1)),
                views[i - 1].names,
            );
            lemma_interned_all_extends(before, views[i - 1].names);
            let now = wire_fact_views(out@);
            assert(now =~= wires.push(wire_view));
            assert forall|k: int| 0 <= k < taken.len() implies is_wire_of(
                symbols@.symbols,
                #[trigger] taken[k],
                now[k],
            ) by {
                if k < i - 1 {
                    assert(views.take(i - 1)[k] == taken[k]);
                    lemma_wire_is_stable(before, symbols@.symbols, taken[k], wires[k]);
                }
            }
        }
    }
    assert(views.take(views.len() as int) =~= views);
    out
}

/// Reads facts that were written in a symbol space. The first symbol number
/// that stands for no symbol of the table is an error.
pub fn facts_from_wire(wires: &Vec<schema::Fact>, symbols: &SymbolTable) -> (res: Result<
    Vec<Fact>,
    Format,
>)
    ensures
        res is Ok <==> all_wires_known(symbols@.symbols, wire_fact_views(wires@)),
        res matches Ok(items) ==> fact_views(items@) == read_wires(
            symbols@.symbols,
            wire_fact_views(wires@),
        ),
        res matches Err(e) ==> is_unknown_symbol_error(
            symbols@.symbols,
            wire_fact_views(wires@),
            e,
        ),
{
    let ghost table = symbols@.symbols;
    let ghost views = wire_fact_views(wires@);
    let mut out: Vec<Fact> = Vec::new();
    let mut i: usize = 0;
    while i < wires.len()
        invariant
            i <= wires@.len(),
            table == symbols@.symbols,
            views == wire_fact_views(wires@),
            all_wires_known(table, views.take(i as int)),
            fact_views(out@) == read_wires(table, views.take(i as int)),
        decreases wires@.len() - i,
    {
        let ghost before = fact_views(out@);
        match Fact::convert_from(&wires[i], symbols) {
            Ok(item) => {
                let ghost item_view = item@;
                out.push(item);
                assert(fact_views(out@) =~= before.push(item_view));
            },
            Err(e) => {
                proof {
                    let at = choose|at: int|
                        #![trigger is_first_unknown(table, views[i as int].symbols, at)]
                        is_first_unknown(table, views[i as int].symbols, at) && e
                            == Format::UnknownSymbol(views[i as int].symbols[at]);
                    assert(is_first_unknown(table, views[i as int].symbols, at));
                    assert(is_first_unknown_of(table, views, views[i as int].symbols[at]));
                    assert(!all_known(table, views[i as int].symbols));
                }
                return Err(e);
            },
        }
        i += 1;
        proof {
            let taken = views.take(i as int);
            assert forall|k: int| 0 <= k < taken.len() implies all_known(
                table,
                (#[trigger] taken[k]).symbols,
            ) by {
                if k < i - 1 {
                    assert(views.take(i - 1)[k] == taken[k]);
                }
            }
            assert(fact_views(out@) =~= read_wires(table, taken)) by {
                assert forall|k: int| 0 <= k < taken.len() implies fact_views(out@)[k]
                    == read_wires(table, taken)[k] by {
                    if k < i - 1 {
                        assert(read_wires(table, views.take(i - 1))[k] == read_wire(
                            table,
                            views.take(i - 1)[k],
                        ));
                    }
                }
            }
        }
    }
    assert(views.take(views.len() as int) =~= views);
    Ok(out)
}

/// A policy as its author wrote it.
#[derive(Debug)]
pub struct Policy {
    pub names: Vec<String>,
    pub body: Vec<u8>,
}

impl View for Policy {
    type V = ItemView;

    open spec fn view(&self) -> ItemView {
        ItemView { names: names_of(self.names@), body: self.body@ }
    }
}

impl View for schema::Policy {
    type V = WireView;

    open spec fn view(&self) -> WireView {
        WireView { symbols: self.symbols@, body: self.body@ }
    }
}

impl Clone for Policy {
    fn clone(&self) -> (res: Self)
        ensures
            res@ == self@,
    {
        let mut names: Vec<String> = Vec::new();
        let mut i: usize = 0;
        while i < self.names.len()
            invariant
                i <= self.names@.len(),
                names_of(names@) == names_of(self.names@).take(i as int),
            decreases self.names@.len() - i,
        {
            let ghost before = names_of(names@);
            let name = self.names[i].clone();
            names.push(name);
            assert(names_of(names@) =~= before.push(names_of(self.names@)[i as int]));
            i += 1;
            assert(names_of(self.names@).take(i as int) =~= names_of(self.names@).take(i - 1).push(
                names_of(self.names@)[i - 1],
            ));
        }
        assert(names_of(self.names@).take(self.names@.len() as int) =~= names_of(self.names@));
        Policy { names, body: slice_to_vec(self.body.as_slice()) }
    }
}

impl Policy {
    /// Writes the policy in a symbol space, adding the names that the table
    /// does not hold yet.
    pub fn convert(&self, symbols: &mut SymbolTable) -> (res: schema::Policy)
        ensures
            final(symbols)@.symbols == interned_all(old(symbols)@.symbols, self@.names),
            is_wire_of(final(symbols)@.symbols, self@, res@),
            final(symbols).public_keys == old(symbols).public_keys,
            old(symbols).valid() ==> final(symbols).valid(),
    {
        let ids = intern_names(&self.names, symbols);
        schema::Policy { symbols: ids, body: slice_to_vec(self.body.as_slice()) }
    }

    /// Reads a policy that was written in a symbol space.
    pub fn convert_from(f: &schema::Policy, symbols: &SymbolTable) -> (res: Result<Self, Format>)
        ensures
            res is Ok <==> all_known(symbols@.symbols, f@.symbols),
            res matches Ok(item) ==> item@ == read_wire(symbols@.symbols, f@),
            res matches Err(e) ==> exists|k: int|
                #![trigger is_first_unknown(symbols@.symbols, f@.symbols, k)]
                is_first_unknown(symbols@.symbols, f@.symbols, k) && e == Format::UnknownSymbol(
                    f@.symbols[k],
                ),
    {
        match resolve_symbols(&f.symbols, symbols) {
            Ok(names) => Ok(Policy { names, body: slice_to_vec(f.body.as_slice()) }),
            Err(e) => Err(e),
        }
    }

    /// Whether two policies mention the same names and have the same rest.
    pub fn same(&self, other: &Self) -> (res: bool)
        ensures
            res == (self@ == other@),
    {
        if self.names.len() != other.names.len() {
            assert(self@.names.len() != other@.names.len());
            return false;
        }
        let mut i: usize = 0;
        while i < self.names.len()
            invariant
                i <= self.names@.len(),
                self.names@.len() == other.names@.len(),
                forall|j: int| 0 <= j < i ==> self@.names[j] == other@.names[j],
            decreases self.names@.len() - i,
        {
            if self.names[i] != other.names[i] {
                assert(self@.names[i as int] != other@.names[i as int]);
                return false;
            }
            i += 1;
        }
        assert(self@.names =~= other@.names);
        crate::crypto::bytes_equal(self.body.as_slice(), other.body.as_slice())
    }
}

/// The views of a list of policies.
pub open spec fn policy_views(items: Seq<Policy>) -> Seq<ItemView> {
    Seq::new(items.len(), |i: int| items[i]@)
}

/// The views of a list of policies on the wire.
pub open spec fn wire_policy_views(items: Seq<schema::Policy>) -> Seq<WireView> {
    Seq::new(items.len(), |i: int| items[i]@)
}

/// Writes the policies in a symbol space, in order, adding the names that the
/// table does not hold yet.
pub fn policies_to_wire(items: &Vec<Policy>, symbols: &mut SymbolTable) -> (res: Vec<schema::Policy>)
    ensures
        final(symbols)@.symbols == interned_all(
            old(symbols)@.symbols,
            all_names(policy_views(items@)),
        ),
        are_wires_of(final(symbols)@.symbols, policy_views(items@), wire_policy_views(res@)),
        final(symbols).public_keys == old(symbols).public_keys,
        old(symbols).valid() ==> final(symbols).valid(),
{
    let ghost views = policy_views(items@);
    let mut out: Vec<schema::Policy> = Vec::new();
    let mut i: usize = 0;
    assert(views.take(0) =~= Seq::<ItemView>::empty());
    while i < items.len()
        invariant
            i <= items@.len(),
            views == policy_views(items@),
            symbols@.symbols == interned_all(old(symbols)@.symbols, all_names(views.take(i as int))),
            are_wires_of(symbols@.symbols, views.take(i as int), wire_policy_views(out@)),
            symbols.public_keys == old(symbols).public_keys,
            old(symbols).valid() ==> symbols.valid(),
        decreases items@.len() - i,
    {
        let ghost before = symbols@.symbols;
        let ghost wires = wire_policy_views(out@);
        let wire = items[i].convert(symbols);
        let ghost wire_view = wire@;
        out.push(wire);
        i += 1;
        proof {
            let taken = views.take(i as int);
            assert(taken.drop_last() =~= views.take(i - 1));
            assert(taken.last() == views[i - 1]);
            lemma_interned_all_concat(
                old(symbols)@.symbols,
                all_names(views.take(i - 1)),
                views[i - 1].names,
            );
            lemma_interned_all_extends(before, views[i - 1].names);
            let now = wire_policy_views(out@);
            assert(now =~= wires.push(wire_view));
            assert forall|k: int| 0 <= k < taken.len() implies is_wire_of(
                symbols@.symbols,
                #[trigger] taken[k],
                now[k],
            ) by {
                if k < i - 1 {
                    assert(views.take(i - 1)[k] == taken[k]);
                    lemma_wire_is_stable(before, symbols@.symbols, taken[k], wires[k]);
                }
            }
        }
    }
    assert(views.take(views.len() as int) =~= views);
    out
}

/// Reads policies that were written in a symbol space. The first symbol number
/// that stands for no symbol of the table is an error.
pub fn policies_from_wire(wires: &Vec<schema::Policy>, symbols: &SymbolTable) -> (res: Result<
    Vec<Policy>,
    Format,
>)
    ensures
        res is Ok <==> all_wires_known(symbols@.symbols, wire_policy_views(wires@)),
        res matches Ok(items) ==> policy_views(items@) == read_wires(
            symbols@.symbols,
            wire_policy_views(wires@),
        ),
        res matches Err(e) ==> is_unknown_symbol_error(
            symbols@.symbols,
            wire_policy_views(wires@),
            e,
        ),
{
    let ghost table = symbols@.symbols;
    let ghost views = wire_policy_views(wires@);
    let mut out: Vec<Policy> = Vec::new();
    let mut i: usize = 0;
    while i < wires.len()
        invariant
            i <= wires@.len(),
            table == symbols@.symbols,
            views == wire_policy_views(wires@),
            all_wires_known(table, views.take(i as int)),
            policy_views(out@) == read_wires(table, views.take(i as int)),
        decreases wires@.len() - i,
    {
        let ghost before = policy_views(out@);
        match Policy::convert_from(&wires[i], symbols) {
            Ok(item) => {
                let ghost item_view = item@;
                out.push(item);
                assert(policy_views(out@) =~= before.push(item_view));
            },
            Err(e) => {
                proof {
                    let at = choose|at: int|
                        #![trigger is_first_unknown(table, views[i as int].symbols, at)]
                        is_first_unknown(table, views[i as int].symbols, at) && e
                            == Format::UnknownSymbol(views[i as int].symbols[at]);
                    assert(is_first_unknown(table, views[i as int].symbols, at));
                    assert(is_first_unknown_of(table, views, views[i as int].symbols[at]));
                    assert(!all_known(table, views[i as int].symbols));
                }
                return Err(e);
            },
        }
        i += 1;
        proof {
            let taken = views.take(i as int);
            assert forall|k: int| 0 <= k < taken.len() implies all_known(
                table,
                (#[trigger] taken[k]).symbols,
            ) by {
                if k < i - 1 {
                    assert(views.take(i - 1)[k] == taken[k]);
                }
            }
            assert(policy_views(out@) =~= read_wires(table, taken)) by {
                assert forall|k: int| 0 <= k < taken.len() implies policy_views(out@)[k]
                    == read_wires(table, taken)[k] by {
                    if k < i - 1 {
                        assert(read_wires(table, views.take(i - 1))[k] == read_wire(
                            table,
                            views.take(i - 1)[k],
                        ));
                    }
                }
            }
        }
    }
    assert(views.take(views.len() as int) =~= views);
    Ok(out)
}

/// A block in the making: the facts that its author has put into it.
#[derive(Debug)]
pub struct BlockBuilder {
    pub facts: Vec<Fact>,
}

impl View for BlockBuilder {
    type V = Seq<ItemView>;

    open spec fn view(&self) -> Seq<ItemView> {
        fact_views(self.facts@)
    }
}

/// A copy of a list of facts.
pub fn clone_facts(facts: &Vec<Fact>) -> (res: Vec<Fact>)
    ensures
        fact_views(res@) == fact_views(facts@),
{
    let mut out: Vec<Fact> = Vec::new();
    let mut i: usize = 0;
    while i < facts.len()
        invariant
            i <= facts@.len(),
            fact_views(out@) == fact_views(facts@).take(i as int),
        decreases facts@.len() - i,
    {
        let ghost before = fact_views(out@);
        let fact = facts[i].clone();
        out.push(fact);
        assert(fact_views(out@) =~= before.push(fact_views(facts@)[i as int]));
        i += 1;
        assert(fact_views(facts@).take(i as int) =~= fact_views(facts@).take(i - 1).push(
            fact_views(facts@)[i - 1],
        ));
    }
    assert(fact_views(facts@).take(facts@.len() as int) =~= fact_views(facts@));
    out
}

/// A copy of a list of policies.
pub fn clone_policies(policies: &Vec<Policy>) -> (res: Vec<Policy>)
    ensures
        policy_views(res@) == policy_views(policies@),
{
    let mut out: Vec<Policy> = Vec::new();
    let mut i: usize = 0;
    while i < policies.len()
        invariant
            i <= policies@.len(),
            policy_views(out@) == policy_views(policies@).take(i as int),
        decreases policies@.len() - i,
    {
        let ghost before = policy_views(out@);
        let policy = policies[i].clone();
        out.push(policy);
        assert(policy_views(out@) =~= before.push(policy_views(policies@)[i as int]));
        i += 1;
        assert(policy_views(policies@).take(i as int) =~= policy_views(policies@).take(i - 1).push(
            policy_views(policies@)[i - 1],
        ));
    }
    assert(policy_views(policies@).take(policies@.len() as int) =~= policy_views(policies@));
    out
}

impl Clone for BlockBuilder {
    fn clone(&self) -> (res: Self)
        ensures
            res@ == self@,
    {
        BlockBuilder { facts: clone_facts(&self.facts) }
    }
}

impl BlockBuilder {
    /// A builder without facts.
    pub fn new() -> (res: Self)
        ensures
            res@ == Seq::<ItemView>::empty(),
    {
        let res = BlockBuilder { facts: Vec::new() };
        assert(res@ =~= Seq::<ItemView>::empty());
        res
    }

    /// Puts a fact into the block.
    pub fn add_fact(&mut self, fact: Fact)
        ensures
            final(self)@ == old(self)@.push(fact@),
    {
        self.facts.push(fact);
        assert(self@ =~= old(self)@.push(fact@));
    }

    /// Writes the block in the symbol space that begins with `symbols`. The
    /// names that the table did not hold are the symbols that the block
    /// brings.
    pub fn build(self, symbols: SymbolTable) -> (res: Block)
        ensures
            res@.symbols == interned_all(symbols@.symbols, all_names(self@)).skip(
                symbols@.symbols.len() as int,
            ),
            are_wires_of(interned_all(symbols@.symbols, all_names(self@)), self@, res@.facts),
            res@.public_keys == Seq::<KeyView>::empty(),
            res@.external_key is None,
            res@.external_signature is None,
    {
        let ghost start = symbols@.symbols;
        let mut symbols = symbols;
        let symbols_start = symbols.current_offset();
        let public_keys_start = symbols.public_keys.current_offset();
        let facts = facts_to_wire(&self.facts, &mut symbols);
        proof {
            lemma_interned_all_extends(start, all_names(self@));
        }
        let new_symbols = symbols.split_at(symbols_start);
        let public_keys = symbols.public_keys.split_at(public_keys_start);
        assert(public_keys@ =~= Seq::<KeyView>::empty());
        Block { symbols: new_symbols, facts, public_keys, external_key: None, external_signature: None }
    }

    /// Reads the facts of a block that was written in the symbol space
    /// `symbols`.
    pub fn convert_from(block: &Block, symbols: &SymbolTable) -> (res: Result<Self, Format>)
        ensures
            res is Ok <==> all_wires_known(symbols@.symbols, block@.facts),
            res matches Ok(builder) ==> builder@ == read_wires(symbols@.symbols, block@.facts),
            res matches Err(e) ==> is_unknown_symbol_error(symbols@.symbols, block@.facts, e),
    {
        match facts_from_wire(&block.facts, symbols) {
            Ok(facts) => Ok(BlockBuilder { facts }),
            Err(e) => Err(e),
        }
    }
}

} // verus!
