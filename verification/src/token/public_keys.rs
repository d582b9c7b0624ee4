//! The table that gives public keys small, stable numbers.
//!
//! A key's number is its place in the table. Keys are only ever added at
//! the end, so a number, once given, keeps its meaning.

use vstd::prelude::*;
use crate::crypto::{KeyView, PublicKey};
use crate::interning::{interned, is_first_index, lemma_push_new};

verus! {

/// The views of a list of keys.
pub open spec fn key_views(keys: Seq<PublicKey>) -> Seq<KeyView> {
    Seq::new(keys.len(), |i: int| keys[i]@)
}

/// Whether no key stands in both lists.
pub open spec fn disjoint(a: Seq<KeyView>, b: Seq<KeyView>) -> bool {
    forall|i: int, j: int| 0 <= i < a.len() && 0 <= j < b.len() ==> a[i] != b[j]
}

/// An ordered table of public keys.
#[derive(Clone, Debug)]
pub struct PublicKeys {
    pub keys: Vec<PublicKey>,
}

impl View for PublicKeys {
    type V = Seq<KeyView>;

    open spec fn view(&self) -> Seq<KeyView> {
        key_views(self.keys@)
    }
}

impl PublicKeys {
    /// An empty table.
    pub fn new() -> (res: Self)
        ensures
            res@ == Seq::<KeyView>::empty(),
    {
        let res = PublicKeys { keys: Vec::new() };
        assert(res@ =~= Seq::<KeyView>::empty());
        res
    }

    /// The table of the given keys, in their order.
    pub fn from(keys: Vec<PublicKey>) -> (res: Self)
        ensures
            res@ == key_views(keys@),
            res.keys == keys,
    {
        PublicKeys { keys }
    }

    /// Appends the keys of `other`, whether or not the table holds them
    /// already.
    pub fn extend(&mut self, other: &PublicKeys)
        ensures
            final(self)@ == old(self)@ + other@,
    {
        let mut i: usize = 0;
        while i < other.keys.len()
            invariant
                i <= other.keys@.len(),
                self@ == old(self)@ + other@.take(i as int),
            decreases other.keys@.len() - i,
        {
            let ghost before = self@;
            let key = other.keys[i].clone();
            assert(key@ == other@[i as int]);
            self.keys.push(key);
            assert(self@ =~= before.push(other@[i as int]));
            i += 1;
            assert(other@.take(i as int) =~= other@.take(i - 1).push(other@[i - 1]));
            assert(self@ =~= old(self)@ + other@.take(i as int));
        }
        assert(other@.take(other@.len() as int) == other@);
    }

    /// The number of `k`, which is added at the end if the table does not
    /// hold it yet.
    pub fn insert(&mut self, k: &PublicKey) -> (res: u64)
        ensures
            old(self)@.contains(k@) ==> final(self)@ == old(self)@ && is_first_index(
                old(self)@,
                k@,
                res as int,
            ),
            !old(self)@.contains(k@) ==> final(self)@ == old(self)@.push(k@) && res == old(
                self,
            )@.len(),
            final(self)@.len() == old(self)@.len() + (if old(self)@.contains(k@) {
                0int
            } else {
                1int
            }),
            final(self)@[res as int] == k@,
            final(self)@ == interned(old(self)@, k@),
            is_first_index(final(self)@, k@, res as int),
    {
        match self.get(k) {
            Some(index) => index,
            None => {
                self.keys.push(k.clone());
                assert(self@ =~= old(self)@.push(k@));
                proof {
                    lemma_push_new(old(self)@, k@);
                }
                (self.keys.len() - 1) as u64
            },
        }
    }

    /// The number of `k`, if the table holds it.
    pub fn get(&self, k: &PublicKey) -> (res: Option<u64>)
        ensures
            match res {
                Some(i) => is_first_index(self@, k@, i as int),
                None => !self@.contains(k@),
            },
    {
        let mut i: usize = 0;
        while i < self.keys.len()
            invariant
                i <= self.keys@.len(),
                forall|j: int| 0 <= j < i ==> self@[j] != k@,
            decreases self.keys@.len() - i,
        {
            if self.keys[i] == *k {
                return Some(i as u64);
            }
            i += 1;
        }
        None
    }

    /// The number that the next new key will get: the length of the table.
    pub fn current_offset(&self) -> (res: usize)
        ensures
            res == self@.len(),
    {
        self.keys.len()
    }

    /// Cuts the table in two at `offset`: the table keeps the keys before
    /// it, and the keys from it on are handed back as a table of their own,
    /// in the same order and numbered from 0.
    pub fn split_at(&mut self, offset: usize) -> (res: PublicKeys)
        requires
            offset <= old(self)@.len(),
        ensures
            final(self)@ == old(self)@.take(offset as int),
            res@ == old(self)@.skip(offset as int),
    {
        let tail = self.keys.split_off(offset);
        let res = PublicKeys { keys: tail };
        assert(self@ =~= old(self)@.take(offset as int));
        assert(res@ =~= old(self)@.skip(offset as int));
        res
    }

    /// Whether the two tables have no key in common.
    pub fn is_disjoint(&self, other: &PublicKeys) -> (res: bool)
        ensures
            res == disjoint(self@, other@),
    {
        let mut i: usize = 0;
        while i < self.keys.len()
            invariant
                i <= self.keys@.len(),
                forall|a: int, b: int| 0 <= a < i && 0 <= b < other@.len() ==> self@[a] != other@[b],
            decreases self.keys@.len() - i,
        {
            match other.get(&self.keys[i]) {
                Some(j) => {
                    assert(self@[i as int] == other@[j as int]);
                    return false;
                },
                None => {
                    assert forall|b: int| 0 <= b < other@.len() implies self@[i as int]
                        != other@[b] by {
                        if self@[i as int] == other@[b] {
                            assert(other@.contains(self@[i as int]));
                        }
                    }
                },
            }
            i += 1;
        }
        true
    }

    /// The key with number `i`, if the table has one.
    pub fn get_key(&self, i: u64) -> (res: Option<&PublicKey>)
        ensures
            i < self@.len() ==> (res matches Some(key) && key@ == self@[i as int] && *key
                == self.keys@[i as int]),
            i >= self@.len() ==> res is None,
    {
        if i < self.keys.len() as u64 {
            Some(&self.keys[i as usize])
        } else {
            None
        }
    }
}

/// Cutting a table in two anywhere and appending the second part to the
/// first gives the table back: the same keys in the same order.
pub proof fn lemma_split_then_extend(table: Seq<KeyView>, offset: int)
    requires
        0 <= offset <= table.len(),
    ensures
        table.take(offset) + table.skip(offset) == table,
{
    assert(table.take(offset) + table.skip(offset) =~= table);
}

/// A key that is inserted twice gets the same number both times, and the
/// second insertion leaves the table as it is.
pub proof fn lemma_insert_is_stable(table: Seq<KeyView>, key: KeyView, i: int)
    requires
        is_first_index(interned(table, key), key, i),
    ensures
        interned(interned(table, key), key) == interned(table, key),
        is_first_index(interned(interned(table, key), key), key, i),
{
    crate::interning::lemma_interned_extends(table, key);
}

} // verus!
