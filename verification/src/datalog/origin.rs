//! The provenance of a fact: the blocks that vouch for it.

use vstd::prelude::*;
use vstd::std_specs::cmp::PartialEqSpecImpl;

verus! {

/// The member of an origin that stands for the authorizer itself.
pub const AUTHORIZER: usize = usize::MAX;

/// Whether the members stand in strictly ascending order.
pub open spec fn ascending(members: Seq<usize>) -> bool {
    forall|i: int, j: int| 0 <= i < j < members.len() ==> members[i] < members[j]
}

/// A set of block numbers, with the authorizer's own mark as one more
/// possible member. An origin is never changed once a fact carries it.
#[derive(Debug, Eq, Hash)]
pub struct Origin {
    inner: Vec<usize>,
}

impl View for Origin {
    type V = Set<usize>;

    closed spec fn view(&self) -> Set<usize> {
        self.inner@.to_set()
    }
}

impl Clone for Origin {
    fn clone(&self) -> (res: Self)
        ensures
            res.members() == self.members(),
            res@ == self@,
            self.valid(),
            res.valid(),
    {
        proof {
            use_type_invariant(self);
        }
        let mut inner: Vec<usize> = Vec::new();
        let mut i: usize = 0;
        while i < self.inner.len()
            invariant
                i <= self.inner@.len(),
                inner@ == self.inner@.take(i as int),
            decreases self.inner@.len() - i,
        {
            inner.push(self.inner[i]);
            i += 1;
            assert(self.inner@.take(i as int) =~= self.inner@.take(i - 1).push(self.inner@[i - 1]));
        }
        assert(self.inner@.take(self.inner@.len() as int) =~= self.inner@);
        Origin { inner }
    }
}

impl PartialEq for Origin {
    fn eq(&self, other: &Self) -> (res: bool)
    {
        if self.inner.len() != other.inner.len() {
            return false;
        }
        let mut i: usize = 0;
        while i < self.inner.len()
            invariant
                self.inner@.len() == other.inner@.len(),
                i <= self.inner@.len(),
                forall|j: int| 0 <= j < i ==> self.inner@[j] == other.inner@[j],
            decreases self.inner@.len() - i,
        {
            if self.inner[i] != other.inner[i] {
                return false;
            }
            i += 1;
        }
        assert(self.inner@ =~= other.inner@);
        true
    }
}

impl PartialEqSpecImpl for Origin {
    open spec fn obeys_eq_spec() -> bool {
        true
    }

    open spec fn eq_spec(&self, other: &Self) -> bool {
        self.members() == other.members()
    }
}

impl Origin {
    #[verifier::type_invariant]
    spec fn well_formed(self) -> bool {
        ascending(self.inner@)
    }

    /// The members in ascending order, the authorizer's mark last.
    pub closed spec fn members(&self) -> Seq<usize> {
        self.inner@
    }

    /// Whether the members are in order. Every origin that this crate hands
    /// out is.
    pub open spec fn valid(&self) -> bool {
        ascending(self.members())
    }

    /// The empty origin.
    pub fn new() -> (res: Self)
        ensures
            res@ == Set::<usize>::empty(),
            res.members() == Seq::<usize>::empty(),
            res.valid(),
    {
        let res = Origin { inner: Vec::new() };
        assert(res.inner@.to_set() =~= Set::<usize>::empty());
        res
    }

    /// Adds a member.
    pub fn insert(&mut self, member: usize)
        ensures
            final(self)@ == old(self)@.insert(member),
            final(self).valid(),
    {
        proof {
            use_type_invariant(&*self);
        }
        let ghost before = self.inner@;
        let mut i: usize = 0;
        while i < self.inner.len() && self.inner[i] < member
            invariant
                i <= self.inner@.len(),
                self.inner@ == before,
                forall|j: int| 0 <= j < i ==> before[j] < member,
            decreases self.inner@.len() - i,
        {
            i += 1;
        }
        if i < self.inner.len() && self.inner[i] == member {
            assert(before.to_set() =~= before.to_set().insert(member)) by {
                assert(before.contains(before[i as int]));
            }
            return ;
        }
        let mut out: Vec<usize> = Vec::new();
        let mut k: usize = 0;
        while k < i
            invariant
                k <= i <= self.inner@.len(),
                self.inner@ == before,
                out@ == before.take(k as int),
            decreases i - k,
        {
            out.push(self.inner[k]);
            k += 1;
            assert(before.take(k as int) =~= before.take(k - 1).push(before[k - 1]));
        }
        out.push(member);
        while k < self.inner.len()
            invariant
                i <= k <= self.inner@.len(),
                self.inner@ == before,
                out@ == before.take(i as int).push(member) + before.subrange(i as int, k as int),
            decreases self.inner@.len() - k,
        {
            out.push(self.inner[k]);
            k += 1;
            assert(before.subrange(i as int, k as int) =~= before.subrange(i as int, k - 1).push(
                before[k - 1],
            ));
        }
        let ghost after = out@;
        assert(after =~= before.insert(i as int, member));
        assert(ascending(after)) by {
            assert forall|a: int, b: int| 0 <= a < b < after.len() implies after[a] < after[b] by {
                let a0 = if a < i { a } else { a - 1 };
                let b0 = if b < i { b } else { b - 1 };
                if a != i && b != i {
                    assert(before[a0] < before[b0]);
                }
            }
        }
        assert(after.to_set() =~= before.to_set().insert(member)) by {
            assert forall|x: usize| after.to_set().contains(x) <==> before.to_set().insert(
                member,
            ).contains(x) by {
                if after.contains(x) {
                    let k = choose|k: int| 0 <= k < after.len() && after[k] == x;
                    if k < i {
                        assert(before[k] == x);
                    } else if k > i {
                        assert(before[k - 1] == x);
                    }
                }
                if before.contains(x) {
                    let k = choose|k: int| 0 <= k < before.len() && before[k] == x;
                    if k < i {
                        assert(after[k] == x);
                    } else {
                        assert(after[k + 1] == x);
                    }
                }
                if x == member {
                    assert(after[i as int] == x);
                }
            }
        }
        self.inner = out;
    }

    /// Whether `member` belongs to the origin.
    pub fn contains(&self, member: usize) -> (res: bool)
        ensures
            res == self@.contains(member),
    {
        let mut i: usize = 0;
        while i < self.inner.len()
            invariant
                i <= self.inner@.len(),
                forall|j: int| 0 <= j < i ==> self.inner@[j] != member,
            decreases self.inner@.len() - i,
        {
            if self.inner[i] == member {
                assert(self.inner@.contains(self.inner@[i as int]));
                return true;
            }
            i += 1;
        }
        false
    }

    /// How many members the origin has. The members stand in ascending
    /// order, as those of every origin do.
    pub fn len(&self) -> (res: usize)
        ensures
            res == self.members().len(),
            self.valid(),
    {
        proof {
            use_type_invariant(self);
        }
        self.inner.len()
    }

    /// The member at place `i` of the ascending order.
    pub fn get(&self, i: usize) -> (res: usize)
        requires
            i < self.members().len(),
        ensures
            res == self.members()[i as int],
    {
        self.inner[i]
    }

    /// The members are exactly what the set holds.
    pub proof fn lemma_members(self)
        ensures
            self@ == self.members().to_set(),
    {
    }

    /// Two origins in order that hold the same members list them alike, so
    /// that `==` on origins is equality of their contents.
    pub proof fn lemma_same_members(a: Seq<usize>, b: Seq<usize>)
        requires
            ascending(a),
            ascending(b),
            a.to_set() == b.to_set(),
        ensures
            a == b,
        decreases a.len(),
    {
        if a.len() == 0 {
            if b.len() > 0 {
                assert(b.contains(b[0]));
                assert(a.to_set().contains(b[0]));
            }
            assert(a =~= b);
        } else {
            let m = a.last();
            assert(a.contains(m));
            assert(b.to_set().contains(m));
            assert(b.len() > 0);
            let n = b.last();
            assert(b.contains(n));
            assert(a.to_set().contains(n));
            let km = choose|k: int| 0 <= k < b.len() && b[k] == m;
            let kn = choose|k: int| 0 <= k < a.len() && a[k] == n;
            assert(m <= n) by {
                if km < b.len() - 1 {
                    assert(b[km] < b[b.len() - 1]);
                }
            }
            assert(n <= m) by {
                if kn < a.len() - 1 {
                    assert(a[kn] < a[a.len() - 1]);
                }
            }
            let a0 = a.drop_last();
            let b0 = b.drop_last();
            assert(a0.to_set() =~= b0.to_set()) by {
                assert forall|x: usize| a0.to_set().contains(x) <==> b0.to_set().contains(x) by {
                    if a0.contains(x) {
                        let k = choose|k: int| 0 <= k < a0.len() && a0[k] == x;
                        assert(a[k] == x);
                        assert(a[k] < a[a.len() - 1]);
                        assert(a.contains(x));
                        assert(b.to_set().contains(x));
                        let k2 = choose|k2: int| 0 <= k2 < b.len() && b[k2] == x;
                        assert(k2 < b.len() - 1);
                        assert(b0[k2] == x);
                    }
                    if b0.contains(x) {
                        let k = choose|k: int| 0 <= k < b0.len() && b0[k] == x;
                        assert(b[k] == x);
                        assert(b[k] < b[b.len() - 1]);
                        assert(b.contains(x));
                        assert(a.to_set().contains(x));
                        let k2 = choose|k2: int| 0 <= k2 < a.len() && a[k2] == x;
                        assert(k2 < a.len() - 1);
                        assert(a0[k2] == x);
                    }
                }
            }
            assert(ascending(a0)) by {
                assert forall|i: int, j: int| 0 <= i < j < a0.len() implies a0[i] < a0[j] by {
                    assert(a[i] < a[j]);
                }
            }
            assert(ascending(b0)) by {
                assert forall|i: int, j: int| 0 <= i < j < b0.len() implies b0[i] < b0[j] by {
                    assert(b[i] < b[j]);
                }
            }
            Self::lemma_same_members(a0, b0);
            assert(a =~= a0.push(m));
            assert(b =~= b0.push(n));
        }
    }
}

} // verus!
