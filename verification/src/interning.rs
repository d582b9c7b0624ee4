//! Tables that give values small, stable numbers.
//!
//! A value's number is the first place at which it stands in the table.
//! Values are only ever added at the end, so a number, once given, keeps
//! its meaning.

use vstd::prelude::*;

verus! {

/// Whether `i` is the first place at which `value` stands in `table`.
pub open spec fn is_first_index<T>(table: Seq<T>, value: T, i: int) -> bool {
    &&& 0 <= i < table.len()
    &&& table[i] == value
    &&& forall|j: int| 0 <= j < i ==> table[j] != value
}

/// The table after `value` was asked for: as before if it holds the
/// value, else with the value at the end.
pub open spec fn interned<T>(table: Seq<T>, value: T) -> Seq<T> {
    if table.contains(value) {
        table
    } else {
        table.push(value)
    }
}

/// The table after each of `values` was asked for, in order.
pub open spec fn interned_all<T>(table: Seq<T>, values: Seq<T>) -> Seq<T>
    decreases values.len(),
{
    if values.len() == 0 {
        table
    } else {
        interned(interned_all(table, values.drop_last()), values.last())
    }
}

/// Whether `table` is the beginning of `longer`.
pub open spec fn extends<T>(longer: Seq<T>, table: Seq<T>) -> bool {
    &&& table.len() <= longer.len()
    &&& forall|i: int| 0 <= i < table.len() ==> longer[i] == table[i]
}

/// Whether each of `added` is new to the table and to those of `added`
/// before it.
pub open spec fn all_new<T>(table: Seq<T>, added: Seq<T>) -> bool {
    forall|k: int| 0 <= k < added.len() ==> !(table + added.take(k)).contains(#[trigger] added[k])
}

/// A table without repetition stays so when a value that it does not hold
/// is added, and the new value stands at the end.
pub proof fn lemma_push_new<T>(table: Seq<T>, value: T)
    requires
        !table.contains(value),
    ensures
        table.no_duplicates() ==> table.push(value).no_duplicates(),
        is_first_index(table.push(value), value, table.len() as int),
{
    let longer = table.push(value);
    assert forall|j: int| 0 <= j < table.len() implies longer[j] != value by {
        if longer[j] == value {
            assert(table[j] == value);
            assert(table.contains(value));
        }
    }
    if table.no_duplicates() {
        assert forall|i: int, j: int| 0 <= i < longer.len() && 0 <= j < longer.len() && i
            != j implies longer[i] != longer[j] by {
            if i < table.len() && j < table.len() {
                assert(table[i] != table[j]);
            }
        }
    }
}

/// For a table without repetition, values are all new exactly if the table
/// with the values at its end is without repetition.
pub proof fn lemma_all_new<T>(table: Seq<T>, added: Seq<T>)
    requires
        table.no_duplicates(),
    ensures
        all_new(table, added) <==> (table + added).no_duplicates(),
{
    let whole = table + added;
    if all_new(table, added) {
        assert forall|a: int, b: int| 0 <= a < whole.len() && 0 <= b < whole.len() && a
            != b implies whole[a] != whole[b] by {
            let (lo, hi) = if a < b {
                (a, b)
            } else {
                (b, a)
            };
            if hi < table.len() {
                assert(table[lo] != table[hi]);
            } else {
                let k = hi - table.len();
                let prefix = table + added.take(k);
                assert(!prefix.contains(added[k]));
                if whole[lo] == whole[hi] {
                    assert(prefix[lo] == whole[lo]);
                    assert(prefix.contains(added[k]));
                }
            }
        }
    }
    if whole.no_duplicates() {
        assert forall|k: int| 0 <= k < added.len() implies !(table + added.take(k)).contains(
            #[trigger] added[k],
        ) by {
            let prefix = table + added.take(k);
            if prefix.contains(added[k]) {
                let at = choose|at: int| 0 <= at < prefix.len() && prefix[at] == added[k];
                assert(whole[at] == prefix[at]);
                assert(whole[table.len() + k] == added[k]);
            }
        }
    }
}

/// A number that a value has in a table is the number it has in every
/// table that begins with that table.
pub proof fn lemma_index_is_stable<T>(table: Seq<T>, longer: Seq<T>, value: T, i: int)
    requires
        is_first_index(table, value, i),
        extends(longer, table),
    ensures
        is_first_index(longer, value, i),
{
}

/// Asking for a value leaves the table a beginning of the new one, which
/// holds the value.
pub proof fn lemma_interned_extends<T>(table: Seq<T>, value: T)
    ensures
        extends(interned(table, value), table),
        interned(table, value).contains(value),
        table.no_duplicates() ==> interned(table, value).no_duplicates(),
{
    if !table.contains(value) {
        lemma_push_new(table, value);
        assert(table.push(value)[table.len() as int] == value);
    }
}

/// Asking for values leaves the table a beginning of the new one, which
/// holds each of the values.
pub proof fn lemma_interned_all_extends<T>(table: Seq<T>, values: Seq<T>)
    ensures
        extends(interned_all(table, values), table),
        forall|k: int|
            0 <= k < values.len() ==> interned_all(table, values).contains(#[trigger] values[k]),
        table.no_duplicates() ==> interned_all(table, values).no_duplicates(),
    decreases values.len(),
{
    if values.len() > 0 {
        let before = interned_all(table, values.drop_last());
        lemma_interned_all_extends(table, values.drop_last());
        lemma_interned_extends(before, values.last());
        let after = interned_all(table, values);
        assert forall|k: int| 0 <= k < values.len() implies after.contains(
            #[trigger] values[k],
        ) by {
            if k < values.len() - 1 {
                assert(values.drop_last()[k] == values[k]);
                let at = choose|at: int| 0 <= at < before.len() && before[at] == values[k];
                assert(after[at] == values[k]);
            }
        }
    }
}

/// Asking for two lists of values one after the other is asking for the
/// values of both in order.
pub proof fn lemma_interned_all_concat<T>(table: Seq<T>, a: Seq<T>, b: Seq<T>)
    ensures
        interned_all(table, a + b) == interned_all(interned_all(table, a), b),
    decreases b.len(),
{
    if b.len() == 0 {
        assert(a + b =~= a);
    } else {
        lemma_interned_all_concat(table, a, b.drop_last());
        assert((a + b).drop_last() =~= a + b.drop_last());
        assert((a + b).last() == b.last());
    }
}

/// Asking a table without repetition for its own values, or an empty table
/// for values without repetition, changes nothing and gives the values.
pub proof fn lemma_interned_all_of_distinct<T>(values: Seq<T>)
    requires
        values.no_duplicates(),
    ensures
        interned_all(Seq::<T>::empty(), values) == values,
    decreases values.len(),
{
    if values.len() == 0 {
        assert(interned_all(Seq::<T>::empty(), values) =~= values);
    } else {
        let shorter = values.drop_last();
        assert(shorter.no_duplicates()) by {
            assert forall|i: int, j: int| 0 <= i < shorter.len() && 0 <= j < shorter.len() && i
                != j implies shorter[i] != shorter[j] by {
                assert(values[i] != values[j]);
            }
        }
        lemma_interned_all_of_distinct(shorter);
        assert(!shorter.contains(values.last())) by {
            if shorter.contains(values.last()) {
                let at = choose|at: int| 0 <= at < shorter.len() && shorter[at] == values.last();
                assert(values[at] == values[values.len() - 1]);
            }
        }
        assert(shorter.push(values.last()) =~= values);
    }
}

} // verus!
