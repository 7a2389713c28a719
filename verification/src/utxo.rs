use vstd::prelude::*;
use vstd::seq_lib::*;

verus! {

/// Byte-wise equality of two digests.
pub(crate) fn hash_eq(a: &Vec<u8>, b: &Vec<u8>) -> (r: bool)
    ensures
        r == (a@ == b@),
{
    if a.len() != b.len() {
        return false;
    }
    let mut i: usize = 0;
    while i < a.len()
        invariant
            a@.len() == b@.len(),
            i <= a@.len(),
            forall|j: int| 0 <= j < i ==> a@[j] == b@[j],
        decreases a@.len() - i,
    {
        if a[i] != b[i] {
            return false;
        }
        i = i + 1;
    }
    proof {
        assert(a@ =~= b@);
    }
    true
}

/// Pushing an element onto a sequence adds exactly that element to the set of
/// its elements.
pub proof fn lemma_to_set_push<A>(s: Seq<A>, x: A)
    ensures
        s.push(x).to_set() == s.to_set().insert(x),
{
    assert forall|y: A| s.push(x).to_set().contains(y) implies s.to_set().insert(x).contains(
        y,
    ) by {
        let i = choose|i: int| 0 <= i < s.push(x).len() && s.push(x)[i] == y;
        if i < s.len() {
            assert(s[i] == y);
        }
    }
    assert forall|y: A| s.to_set().insert(x).contains(y) implies s.push(x).to_set().contains(
        y,
    ) by {
        if s.to_set().contains(y) {
            let i = choose|i: int| 0 <= i < s.len() && s[i] == y;
            assert(s.push(x)[i] == y);
        } else {
            assert(s.push(x)[s.len() as int] == x);
        }
    }
    assert(s.push(x).to_set() =~= s.to_set().insert(x));
}

/// A non-empty sequence's element set is its first element together with the
/// element set of the rest.
pub proof fn lemma_to_set_head<A>(s: Seq<A>)
    requires
        s.len() > 0,
    ensures
        s.to_set() == s.drop_first().to_set().insert(s[0]),
{
    assert forall|y: A| s.to_set().contains(y) implies s.drop_first().to_set().insert(s[0]).contains(
        y,
    ) by {
        let i = choose|i: int| 0 <= i < s.len() && s[i] == y;
        if i > 0 {
            assert(s.drop_first()[i - 1] == y);
        }
    }
    assert forall|y: A| s.drop_first().to_set().insert(s[0]).contains(y) implies s.to_set().contains(
        y,
    ) by {
        if s.drop_first().to_set().contains(y) {
            let i = choose|i: int| 0 <= i < s.drop_first().len() && s.drop_first()[i] == y;
            assert(s[i + 1] == y);
        } else {
            assert(s[0] == y);
        }
    }
    assert(s.to_set() =~= s.drop_first().to_set().insert(s[0]));
}

/// A set of digests, the ledger's record of which outputs are spendable.
///
/// Backed by a vector that holds each digest at most once, so that its
/// length is the cardinality of the set it stands for.
pub struct UtxoSet {
    items: Vec<Vec<u8>>,
}

impl View for UtxoSet {
    type V = Set<Seq<u8>>;

    closed spec fn view(&self) -> Set<Seq<u8>> {
        self.items@.map_values(|v: Vec<u8>| v@).to_set()
    }
}

impl UtxoSet {
    /// The backing vector holds no digest twice.
    pub closed spec fn wf(&self) -> bool {
        forall|i: int, j: int|
            0 <= i < j < self.items@.len() ==> self.items@[i]@ != self.items@[j]@
    }

    /// The empty set.
    pub fn new() -> (r: Self)
        ensures
            r@ == Set::<Seq<u8>>::empty(),
            r.wf(),
    {
        let r = UtxoSet { items: Vec::new() };
        proof {
            assert(r.items@.map_values(|v: Vec<u8>| v@) =~= Seq::<Seq<u8>>::empty());
            assert(r@ =~= Set::<Seq<u8>>::empty());
        }
        r
    }

    /// How many distinct digests the set holds.
    pub fn len(&self) -> (r: usize)
        requires
            self.wf(),
        ensures
            r == self@.len(),
    {
        proof {
            let m = self.items@.map_values(|v: Vec<u8>| v@);
            assert(m.no_duplicates());
            m.unique_seq_to_set();
        }
        self.items.len()
    }

    /// Whether the set holds the given digest.
    pub fn contains(&self, h: &Vec<u8>) -> (r: bool)
        ensures
            r == self@.contains(h@),
    {
        let ghost m = self.items@.map_values(|v: Vec<u8>| v@);
        let mut i: usize = 0;
        while i < self.items.len()
            invariant
                m == self.items@.map_values(|v: Vec<u8>| v@),
                i <= self.items@.len(),
                forall|j: int| 0 <= j < i ==> self.items@[j]@ != h@,
            decreases self.items@.len() - i,
        {
            if hash_eq(&self.items[i], h) {
                proof {
                    assert(m[i as int] == h@);
                    assert(m.contains(h@));
                }
                return true;
            }
            i = i + 1;
        }
        proof {
            assert forall|j: int| 0 <= j < m.len() implies m[j] != h@ by {
                assert(m[j] == self.items@[j]@);
            }
            assert(!m.contains(h@));
        }
        false
    }

    /// Add a digest; holding it already changes nothing.
    pub fn insert(&mut self, h: Vec<u8>)
        requires
            old(self).wf(),
        ensures
            final(self).wf(),
            final(self)@ == old(self)@.insert(h@),
    {
        let ghost m = self.items@.map_values(|v: Vec<u8>| v@);
        if !self.contains(&h) {
            proof {
                assert forall|j: int| 0 <= j < self.items@.len() implies self.items@[j]@
                    != h@ by {
                    assert(m[j] == self.items@[j]@);
                    if m[j] == h@ {
                        assert(m.contains(h@));
                    }
                }
            }
            self.items.push(h);
            proof {
                let m1 = self.items@.map_values(|v: Vec<u8>| v@);
                assert(m1 =~= m.push(h@));
                lemma_to_set_push(m, h@);
            }
        } else {
            proof {
                assert(self@.insert(h@) =~= self@);
            }
        }
    }

    /// Remove every digest that `other` holds.
    pub fn remove_all(&mut self, other: &UtxoSet)
        requires
            old(self).wf(),
        ensures
            final(self).wf(),
            final(self)@ == old(self)@.difference(other@),
    {
        let ghost orig = self.items@;
        let mut kept: Vec<Vec<u8>> = Vec::new();
        while self.items.len() > 0
            invariant
                self.items@ == orig.take(self.items@.len() as int),
                self.items@.len() <= orig.len(),
                forall|i: int, j: int| 0 <= i < j < orig.len() ==> orig[i]@ != orig[j]@,
                kept@.map_values(|v: Vec<u8>| v@).to_set() == orig.skip(
                    self.items@.len() as int,
                ).map_values(|v: Vec<u8>| v@).to_set().difference(other@),
                forall|i: int, j: int| 0 <= i < j < kept@.len() ==> kept@[i]@ != kept@[j]@,
                forall|i: int|
                    0 <= i < kept@.len() ==> exists|j: int|
                        self.items@.len() <= j < orig.len() && orig[j]@ == #[trigger] kept@[i]@,
            decreases self.items@.len(),
    {
            let ghost k = self.items@.len() as int;
            let h = self.items.pop().unwrap();
            proof {
                assert(orig.take(k).drop_last() =~= orig.take(k - 1));
                assert(orig.take(k).last() == orig[k - 1]);
            }
            let keep = !other.contains(&h);
            let ghost ks = kept@.map_values(|v: Vec<u8>| v@).to_set();
            let ghost processed = orig.skip(k).map_values(|v: Vec<u8>| v@).to_set();
            if keep {
                proof {
                    // h's view is distinct from everything kept so far: kept
                    // elements come from indices >= k, h from index k - 1.
                    assert forall|i: int| 0 <= i < kept@.len() implies kept@[i]@ != h@ by {
                        let j = choose|j: int| k <= j < orig.len() && orig[j]@ == kept@[i]@;
                        assert(orig[k - 1]@ != orig[j]@);
                    }
                }
                let ghost kept_before = kept@;
                kept.push(h);
                proof {
                    assert(kept@.map_values(|v: Vec<u8>| v@) =~= kept_before.map_values(
                        |v: Vec<u8>| v@,
                    ).push(h@));
                    lemma_to_set_push(kept_before.map_values(|v: Vec<u8>| v@), h@);
                }
            }
            proof {
                let m_new = orig.skip(k - 1).map_values(|v: Vec<u8>| v@);
                let m_old = orig.skip(k).map_values(|v: Vec<u8>| v@);
                assert(orig.skip(k - 1) =~= seq![orig[k - 1]] + orig.skip(k));
                assert forall|y: Seq<u8>| m_new.to_set().contains(y) implies processed.insert(
                    orig[k - 1]@,
                ).contains(y) by {
                    let i = choose|i: int| 0 <= i < m_new.len() && m_new[i] == y;
                    if i > 0 {
                        assert(m_old[i - 1] == y);
                    }
                }
                assert forall|y: Seq<u8>| processed.insert(orig[k - 1]@).contains(
                    y,
                ) implies m_new.to_set().contains(y) by {
                    if processed.contains(y) {
                        let i = choose|i: int| 0 <= i < m_old.len() && m_old[i] == y;
                        assert(m_new[i + 1] == y);
                    } else {
                        assert(m_new[0] == orig[k - 1]@);
                    }
                }
                assert(m_new.to_set() =~= processed.insert(orig[k - 1]@));
                if keep {
                    assert(kept@.map_values(|v: Vec<u8>| v@).to_set() =~= processed.insert(
                        orig[k - 1]@,
                    ).difference(other@)) by {
                        assert(ks == processed.difference(other@));
                        assert(!other@.contains(orig[k - 1]@));
                        assert(kept@.map_values(|v: Vec<u8>| v@).to_set() == ks.insert(h@));
                    }
                } else {
                    assert(kept@.map_values(|v: Vec<u8>| v@).to_set() =~= processed.insert(
                        orig[k - 1]@,
                    ).difference(other@));
                }
                // re-establish the witness invariant for the pushed element
                if keep {
                    assert(orig[k - 1]@ == kept@.last()@);
                }
            }
        }
        proof {
            assert(orig.skip(0) =~= orig);
        }
        self.items = kept;
    }
}

} // verus!
